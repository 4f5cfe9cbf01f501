use flocking::agent::{Agent, MAX_COORD};
use flocking::flock::Flock;
use flocking::vector::{int_sqrt, normalize, Vec2, ONE};

const WORLD: i64 = 100_000;

fn agent_at(id: u32, x: i64, y: i64, vel: i64, dir: Vec2) -> Agent {
    let mut a = Agent::new(id);
    a.set_pos(x, y);
    a.set_vel(vel);
    a.set_dir(dir);
    a
}

fn norm_sq(v: Vec2) -> i128 {
    (v.x as i128) * (v.x as i128) + (v.y as i128) * (v.y as i128)
}

fn assert_unit(v: Vec2) {
    let one = ONE as i128;
    let n = norm_sq(v);
    assert!(n <= one * one, "{:?} is too long", v);
    assert!(n >= one * one - 4 * one - 1, "{:?} is too short", v);
}

#[test]
fn new_agent_defaults() {
    let a = Agent::new(7);
    assert_eq!(a.id(), 7);
    assert_eq!(a.pos(), Vec2::new(0, 0));
    assert_eq!(a.vel(), 0);
    assert_eq!(a.dir(), Vec2::new(0, ONE));
}

#[test]
fn setters_overwrite() {
    let a = agent_at(1, 1500, -2500, 300, Vec2::new(5, 7));
    assert_eq!(a.pos(), Vec2::new(1500, -2500));
    assert_eq!(a.vel(), 300);
    assert_eq!(a.dir(), Vec2::new(5, 7));
}

#[test]
fn square_roots() {
    assert_eq!(int_sqrt(0), 0);
    assert_eq!(int_sqrt(1), 1);
    assert_eq!(int_sqrt(15), 3);
    assert_eq!(int_sqrt(16), 4);
    assert_eq!(int_sqrt(u64::MAX), 4_294_967_295);
}

#[test]
fn normalize_values() {
    assert_eq!(normalize(3, 4), Vec2::new(600_000, 800_000));
    assert_eq!(normalize(1, 1), Vec2::new(707_106, 707_106));
    assert_eq!(normalize(-5, 0), Vec2::new(-ONE, 0));
    assert_eq!(normalize(0, 0), Vec2::new(0, 0));
    let big = normalize(i128::MAX, -i128::MAX);
    assert_eq!(big, Vec2::new(707_106, -707_106));
}

#[test]
fn toroidal_distance_direct_and_wrapped() {
    let a = agent_at(1, 0, 0, 0, Vec2::new(0, ONE));
    let b = agent_at(2, 3000, 4000, 0, Vec2::new(0, ONE));
    assert_eq!(a.distance_squared(&b, WORLD, WORLD), 25_000_000);
    let c = agent_at(3, -49_000, 0, 0, Vec2::new(0, ONE));
    let d = agent_at(4, 49_000, 0, 0, Vec2::new(0, ONE));
    assert_eq!(c.distance_squared(&d, WORLD, WORLD), 4_000_000);
}

#[test]
fn toroidal_distance_symmetric() {
    let a = agent_at(1, -12_345, 40_000, 0, Vec2::new(0, ONE));
    let b = agent_at(2, 33_000, -45_500, 0, Vec2::new(0, ONE));
    assert_eq!(a.distance_squared(&b, WORLD, 90_000), b.distance_squared(&a, WORLD, 90_000));
}

#[test]
fn toroidal_distance_bounded() {
    let a = agent_at(1, -25_000, -20_000, 0, Vec2::new(0, ONE));
    let b = agent_at(2, 25_000, 20_000, 0, Vec2::new(0, ONE));
    let d = a.distance_squared(&b, WORLD, 80_000);
    assert_eq!(d, 50_000i128 * 50_000 + 40_000i128 * 40_000);
    assert!(4 * d <= (WORLD as i128) * (WORLD as i128) + 80_000i128 * 80_000);
}

#[test]
fn step_moves_along_heading() {
    let mut a = agent_at(1, 0, 0, 2000, Vec2::new(0, ONE));
    a.step(500, WORLD, WORLD);
    assert_eq!(a.pos(), Vec2::new(0, 1000));
    assert_eq!(a.dir(), Vec2::new(0, ONE));
    assert_eq!(a.vel(), 2000);
}

#[test]
fn step_wraps_hard_to_opposite_edge() {
    let mut a = agent_at(1, 49_900, 0, 10_000, Vec2::new(ONE, 0));
    a.step(1000, WORLD, WORLD);
    assert_eq!(a.pos(), Vec2::new(-50_000, 0));
}

#[test]
fn step_wraps_low_edge() {
    let mut a = agent_at(1, 0, -49_999, 5000, Vec2::new(0, -ONE));
    a.step(1000, WORLD, WORLD);
    assert_eq!(a.pos(), Vec2::new(0, 50_000));
}

#[test]
fn placed_past_edge_wraps_on_step() {
    let mut a = agent_at(1, 50_001, 0, 0, Vec2::new(0, ONE));
    a.step(1000, WORLD, WORLD);
    assert_eq!(a.pos(), Vec2::new(-50_000, 0));
}

#[test]
fn two_agents_tilt_away() {
    let a = agent_at(1, 0, 0, 1000, Vec2::new(0, ONE));
    let b = agent_at(2, 1000, 0, 1000, Vec2::new(0, ONE));
    let flock = [a, b];
    let mut first = a;
    first.update(&flock, WORLD, WORLD);
    assert_eq!(first.dir(), Vec2::new(-90_535, 995_893));
    assert!(first.dir().x < 0 && first.dir().y > 0);
    assert_unit(first.dir());
    assert_eq!(first.pos(), Vec2::new(0, 0));
    assert_eq!(first.vel(), 1000);
    let mut second = b;
    second.update(&flock, WORLD, WORLD);
    assert_eq!(second.dir(), Vec2::new(90_535, 995_893));
}

#[test]
fn lone_agent_keeps_heading() {
    let a = agent_at(1, 1000, 1000, 1000, Vec2::new(0, ONE));
    let mut b = a;
    b.update(&[a], WORLD, WORLD);
    assert_eq!(b.dir(), Vec2::new(0, ONE));
    let mut c = a;
    c.update(&[], WORLD, WORLD);
    assert_eq!(c.dir(), b.dir());
}

#[test]
fn far_agents_do_not_count() {
    let a = agent_at(1, 0, 0, 1000, Vec2::new(ONE, 0));
    let far = agent_at(2, 40_000, 0, 1000, Vec2::new(0, ONE));
    let mut b = a;
    b.update(&[a, far], WORLD, WORLD);
    assert_eq!(b.dir(), Vec2::new(ONE, 0));
}

#[test]
fn update_normalizes_long_heading() {
    let a = agent_at(1, 0, 0, 1000, Vec2::new(3_000_000, 4_000_000));
    let mut b = a;
    b.update(&[a], WORLD, WORLD);
    assert_eq!(b.dir(), Vec2::new(600_000, 800_000));
}

#[test]
fn zero_heading_falls_back_to_up() {
    let a = agent_at(1, 0, 0, 1000, Vec2::new(0, 0));
    let mut b = a;
    b.update(&[a], WORLD, WORLD);
    assert_eq!(b.dir(), Vec2::new(0, ONE));
}

#[test]
fn coincident_agents_stay_unit() {
    let a = agent_at(1, 2000, 2000, 1000, Vec2::new(ONE, 0));
    let b = agent_at(2, 2000, 2000, 1000, Vec2::new(0, ONE));
    let mut c = a;
    c.update(&[a, b], WORLD, WORLD);
    assert_unit(c.dir());
}

#[test]
fn headings_stay_unit_in_a_crowd() {
    let mut agents = Vec::new();
    for i in 0..12u32 {
        let x = (i as i64 * 7919) % 30_000 - 15_000;
        let y = (i as i64 * 104_729) % 30_000 - 15_000;
        let dir = Vec2::new((i as i64 % 5) * 200_000 - 400_000, ONE);
        agents.push(agent_at(i, x, y, 1500, dir));
    }
    for i in 0..agents.len() {
        let mut a = agents[i];
        a.update(&agents, WORLD, WORLD);
        assert_unit(a.dir());
    }
}

#[test]
fn flock_rejects_duplicate_ids() {
    let mut flock = Flock::new(WORLD, WORLD);
    assert!(flock.add(Agent::new(1)));
    assert!(flock.add(Agent::new(2)));
    assert!(!flock.add(Agent::new(1)));
    assert_eq!(flock.len(), 2);
    assert_eq!(flock.width(), WORLD);
    assert_eq!(flock.height(), WORLD);
    assert_eq!(flock.agent(1).id(), 2);
}

#[test]
fn tick_uses_the_pre_tick_state() {
    let a = agent_at(1, 0, 0, 1000, Vec2::new(0, ONE));
    let b = agent_at(2, 1000, 0, 1000, Vec2::new(0, ONE));
    let mut flock = Flock::new(WORLD, WORLD);
    assert!(flock.add(a));
    assert!(flock.add(b));
    flock.tick(1000);
    assert_eq!(flock.agent(0).dir(), Vec2::new(-90_535, 995_893));
    assert_eq!(flock.agent(1).dir(), Vec2::new(90_535, 995_893));
    assert_eq!(flock.agent(0).pos(), Vec2::new(-90, 995));
    assert_eq!(flock.agent(1).pos(), Vec2::new(1090, 995));
}

#[test]
fn runs_are_deterministic() {
    let build = || {
        let mut flock = Flock::new(WORLD, WORLD);
        for i in 0..8u32 {
            let x = (i as i64 * 6007) % 20_000 - 10_000;
            let y = (i as i64 * 3001) % 20_000 - 10_000;
            assert!(flock.add(agent_at(i, x, y, 4000, Vec2::new(ONE, (i as i64) * 100_000))));
        }
        flock
    };
    let mut f1 = build();
    let mut f2 = build();
    for dt in [1000i64, 250, 2000, 16, 1000] {
        f1.tick(dt);
        f2.tick(dt);
    }
    for i in 0..f1.len() {
        assert_eq!(f1.agent(i), f2.agent(i));
        assert_unit(f1.agent(i).dir());
        let p = f1.agent(i).pos();
        assert!(2 * p.x.abs() <= WORLD && 2 * p.y.abs() <= WORLD);
    }
}

#[test]
fn largest_world_and_speed() {
    let mut a = agent_at(1, MAX_COORD / 2, -MAX_COORD / 2, MAX_COORD, Vec2::new(MAX_COORD, MAX_COORD));
    a.step(MAX_COORD, MAX_COORD, MAX_COORD);
    assert_eq!(a.pos(), Vec2::new(-MAX_COORD / 2, -MAX_COORD / 2));
}
