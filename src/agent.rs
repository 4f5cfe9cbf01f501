//! A single agent: its state, the toroidal metric, the steering rule and
//! the movement step.
use vstd::prelude::*;
use crate::vector::{Vec2, ONE, abs, normalize, normalized, is_unit, lemma_normalized_is_unit};

verus! {

/// Position units in one world unit (positions are in thousandths).
pub const UNIT: i64 = 1000;

/// Bound on the magnitude of every coordinate, heading component, speed,
/// time step and world size.
pub const MAX_COORD: i64 = 1_099_511_627_776;

/// Bound on the number of agents that one agent looks at.
pub const MAX_FLOCK: usize = 16_777_216;

/// Neighbours count when their squared toroidal distance lies below this
/// (1000 squared world units, in squared position units).
pub const PERCEPTION_RADIUS_SQ: i128 = 1_000_000_000;

/// Fixed-point scale of the inverse squared distance weights.
pub const INVERSE_SCALE: i128 = 1_000_000_000_000;

/// Weights of the steering rule, in tenths: the current heading counts
/// ten tenths, alignment one, separation two and cohesion one.
pub const HEADING_WEIGHT: i128 = 10;

pub const ALIGNMENT_WEIGHT: i128 = 1;

pub const SEPARATION_WEIGHT: i128 = 2;

pub const COHESION_WEIGHT: i128 = 1;

/// Time steps are given in thousandths of a time unit.
pub const TIME_UNIT: i128 = 1000;

/// A point agent on the torus. Its position is in thousandths of a world
/// unit, its speed in thousandths of a world unit per time unit, and its
/// heading in millionths (a unit heading has length `ONE`).
#[derive(Clone, Copy, Debug, PartialEq, Eq, Structural)]
pub struct Agent {
    id: u32,
    pos: Vec2,
    vel: i64,
    dir: Vec2,
}

/// The mathematical model of an agent.
pub struct AgentModel {
    pub id: int,
    pub pos: (int, int),
    pub vel: int,
    pub dir: (int, int),
}

impl AgentModel {
    /// Every quantity of the agent lies within `MAX_COORD`.
    pub open spec fn wf(self) -> bool {
        &&& abs(self.pos.0) <= MAX_COORD
        &&& abs(self.pos.1) <= MAX_COORD
        &&& abs(self.dir.0) <= MAX_COORD
        &&& abs(self.dir.1) <= MAX_COORD
        &&& abs(self.vel) <= MAX_COORD
    }
}

impl View for Agent {
    type V = AgentModel;

    closed spec fn view(&self) -> AgentModel {
        AgentModel {
            id: self.id as int,
            pos: (self.pos.x as int, self.pos.y as int),
            vel: self.vel as int,
            dir: (self.dir.x as int, self.dir.y as int),
        }
    }
}

/// A world of this size can be simulated.
pub open spec fn valid_world(width: int, height: int) -> bool {
    0 < width <= MAX_COORD && 0 < height <= MAX_COORD
}

/// The shorter of the direct and the wrap-around separation along one axis.
pub open spec fn axis_gap(a: int, b: int, size: int) -> int {
    let direct = abs(a - b);
    let around = size - direct;
    if direct <= around { direct } else { around }
}

/// Squared shortest distance between two points of the torus.
pub open spec fn distance_sq(p: (int, int), q: (int, int), width: int, height: int) -> int {
    let gx = axis_gap(p.0, q.0, width);
    let gy = axis_gap(p.1, q.1, height);
    gx * gx + gy * gy
}

/// A coordinate past one edge is moved to the opposite edge.
pub open spec fn wrap_axis(c: int, size: int) -> int {
    let half = size / 2;
    if c > half {
        -half
    } else if c < -half {
        half
    } else {
        c
    }
}


/// Division by a positive divisor that rounds toward zero.
pub open spec fn trunc_div(a: int, b: int) -> int {
    if a >= 0 { a / b } else { -((-a) / b) }
}

/// One component of an inverse squared distance weight: `d / dist` in
/// fixed point, with a zero distance counted as the smallest positive one.
pub open spec fn inverse_weight(d: int, dist: int) -> int {
    trunc_div(d * INVERSE_SCALE, if dist > 0 { dist } else { 1 })
}

/// `n` influences `me`: it is another agent, inside the perception radius.
pub open spec fn counts(me: AgentModel, n: AgentModel, width: int, height: int) -> bool {
    n.id != me.id && distance_sq(me.pos, n.pos, width, height) < PERCEPTION_RADIUS_SQ
}

/// The agent's own heading plus the headings of the neighbours that count.
pub open spec fn alignment_sum(me: AgentModel, ns: Seq<AgentModel>, width: int, height: int) -> (
    int,
    int,
)
    decreases ns.len(),
{
    if ns.len() == 0 {
        me.dir
    } else {
        let s = alignment_sum(me, ns.drop_last(), width, height);
        let n = ns.last();
        if counts(me, n, width, height) {
            (s.0 + n.dir.0, s.1 + n.dir.1)
        } else {
            s
        }
    }
}

/// The sum of the offsets from each counted neighbour to the agent, each
/// weighted by the inverse squared distance (pointing away from them).
pub open spec fn push_sum(me: AgentModel, ns: Seq<AgentModel>, width: int, height: int) -> (
    int,
    int,
)
    decreases ns.len(),
{
    if ns.len() == 0 {
        (0, 0)
    } else {
        let s = push_sum(me, ns.drop_last(), width, height);
        let n = ns.last();
        let d = distance_sq(me.pos, n.pos, width, height);
        if counts(me, n, width, height) {
            (
                s.0 + inverse_weight(me.pos.0 - n.pos.0, d),
                s.1 + inverse_weight(me.pos.1 - n.pos.1, d),
            )
        } else {
            s
        }
    }
}

/// The sum of the offsets from the agent to each counted neighbour, each
/// weighted by the inverse squared distance (pointing toward them).
pub open spec fn pull_sum(me: AgentModel, ns: Seq<AgentModel>, width: int, height: int) -> (
    int,
    int,
)
    decreases ns.len(),
{
    if ns.len() == 0 {
        (0, 0)
    } else {
        let s = pull_sum(me, ns.drop_last(), width, height);
        let n = ns.last();
        let d = distance_sq(me.pos, n.pos, width, height);
        if counts(me, n, width, height) {
            (
                s.0 + inverse_weight(n.pos.0 - me.pos.0, d),
                s.1 + inverse_weight(n.pos.1 - me.pos.1, d),
            )
        } else {
            s
        }
    }
}

/// The current heading, ten times over, plus the weighted unit influences.
pub open spec fn steering_sum(me: AgentModel, ns: Seq<AgentModel>, width: int, height: int) -> (
    int,
    int,
) {
    let al = alignment_sum(me, ns, width, height);
    let pu = push_sum(me, ns, width, height);
    let pl = pull_sum(me, ns, width, height);
    let a = normalized(al.0, al.1);
    let p = normalized(pu.0, pu.1);
    let q = normalized(pl.0, pl.1);
    (
        HEADING_WEIGHT * me.dir.0 + ALIGNMENT_WEIGHT * a.0 + SEPARATION_WEIGHT * p.0
            + COHESION_WEIGHT * q.0,
        HEADING_WEIGHT * me.dir.1 + ALIGNMENT_WEIGHT * a.1 + SEPARATION_WEIGHT * p.1
            + COHESION_WEIGHT * q.1,
    )
}

/// The heading after one update; where the steering sum vanishes the
/// heading falls back to straight up.
pub open spec fn steered(me: AgentModel, ns: Seq<AgentModel>, width: int, height: int) -> (
    int,
    int,
) {
    let s = steering_sum(me, ns, width, height);
    if s.0 == 0 && s.1 == 0 {
        (0, ONE as int)
    } else {
        normalized(s.0, s.1)
    }
}

/// The models of a sequence of agents.
pub open spec fn models(s: Seq<Agent>) -> Seq<AgentModel> {
    s.map_values(|a: Agent| a@)
}

/// The displacement along one axis of a step of `dt` thousandths of a time
/// unit, for a heading component `d` and a speed `v`.
pub open spec fn advance(d: int, v: int, dt: int) -> int {
    trunc_div(d * v * dt, ONE * TIME_UNIT)
}

fn trunc_div_exec(a: i128, b: i128) -> (r: i128)
    requires
        a > i128::MIN,
        b > 0,
    ensures
        r == trunc_div(a as int, b as int),
        abs(r as int) <= abs(a as int),
{
    if a >= 0 {
        proof {
            vstd::arithmetic::div_mod::lemma_div_is_ordered_by_denominator(a as int, 1, b as int);
        }
        a / b
    } else {
        proof {
            vstd::arithmetic::div_mod::lemma_div_is_ordered_by_denominator(-a, 1, b as int);
            vstd::arithmetic::div_mod::lemma_div_pos_is_pos(-a, b as int);
        }
        -((-a) / b)
    }
}

fn abs_i128(v: i128) -> (r: i128)
    requires
        v > i128::MIN,
    ensures
        r == abs(v as int),
{
    if v >= 0 {
        v
    } else {
        -v
    }
}

fn axis_gap_exec(a: i64, b: i64, size: i64) -> (r: i128)
    requires
        abs(a as int) <= MAX_COORD,
        abs(b as int) <= MAX_COORD,
        0 < size <= MAX_COORD,
    ensures
        r == axis_gap(a as int, b as int, size as int),
        abs(r as int) <= 2 * MAX_COORD,
{
    let direct = abs_i128(a as i128 - b as i128);
    let around = size as i128 - direct;
    if direct <= around {
        direct
    } else {
        around
    }
}

impl Agent {
    /// An agent at the origin, standing still, heading straight up.
    pub fn new(id: u32) -> (r: Agent)
        ensures
            r@.id == id,
            r@.pos == (0int, 0int),
            r@.vel == 0,
            r@.dir == (0int, ONE as int),
            r@.wf(),
    {
        Agent { id, pos: Vec2 { x: 0, y: 0 }, vel: 0, dir: Vec2 { x: 0, y: ONE } }
    }

    pub fn set_pos(&mut self, x: i64, y: i64)
        requires
            abs(x as int) <= MAX_COORD,
            abs(y as int) <= MAX_COORD,
        ensures
            final(self)@.pos == (x as int, y as int),
            final(self)@.id == old(self)@.id,
            final(self)@.vel == old(self)@.vel,
            final(self)@.dir == old(self)@.dir,
    {
        self.pos.x = x;
        self.pos.y = y;
    }

    pub fn set_vel(&mut self, vel: i64)
        requires
            abs(vel as int) <= MAX_COORD,
        ensures
            final(self)@.vel == vel as int,
            final(self)@.id == old(self)@.id,
            final(self)@.pos == old(self)@.pos,
            final(self)@.dir == old(self)@.dir,
    {
        self.vel = vel;
    }

    /// Sets the heading as given; it need not be a unit heading.
    pub fn set_dir(&mut self, dir: Vec2)
        requires
            abs(dir.x as int) <= MAX_COORD,
            abs(dir.y as int) <= MAX_COORD,
        ensures
            final(self)@.dir == (dir.x as int, dir.y as int),
            final(self)@.id == old(self)@.id,
            final(self)@.pos == old(self)@.pos,
            final(self)@.vel == old(self)@.vel,
    {
        self.dir = dir;
    }

    pub fn id(&self) -> (r: u32)
        ensures
            r == self@.id,
    {
        self.id
    }

    pub fn pos(&self) -> (r: Vec2)
        ensures
            (r.x as int, r.y as int) == self@.pos,
    {
        self.pos
    }

    pub fn vel(&self) -> (r: i64)
        ensures
            r == self@.vel,
    {
        self.vel
    }

    pub fn dir(&self) -> (r: Vec2)
        ensures
            (r.x as int, r.y as int) == self@.dir,
    {
        self.dir
    }

    /// Squared shortest distance to `other` on a torus of the given size.
    pub fn distance_squared(&self, other: &Agent, width: i64, height: i64) -> (r: i128)
        requires
            self@.wf(),
            other@.wf(),
            valid_world(width as int, height as int),
        ensures
            r == distance_sq(self@.pos, other@.pos, width as int, height as int),
            0 <= r <= 8 * MAX_COORD * MAX_COORD,
    {
        let gx = axis_gap_exec(self.pos.x, other.pos.x, width);
        let gy = axis_gap_exec(self.pos.y, other.pos.y, height);
        proof {
            assert(gx * gx <= 4 * MAX_COORD * MAX_COORD && gx * gx >= 0) by (nonlinear_arith)
                requires
                    abs(gx as int) <= 2 * MAX_COORD,
            ;
            assert(gy * gy <= 4 * MAX_COORD * MAX_COORD && gy * gy >= 0) by (nonlinear_arith)
                requires
                    abs(gy as int) <= 2 * MAX_COORD,
            ;
        }
        gx * gx + gy * gy
    }
}

/// The toroidal distance does not depend on the order of the two points.
pub proof fn lemma_distance_symmetric(p: (int, int), q: (int, int), width: int, height: int)
    ensures
        distance_sq(p, q, width, height) == distance_sq(q, p, width, height),
{
    assert(abs(p.0 - q.0) == abs(q.0 - p.0));
    assert(abs(p.1 - q.1) == abs(q.1 - p.1));
}

/// Between two points inside the world, the squared toroidal distance is at
/// most the squared half diagonal: `(width/2)^2 + (height/2)^2`, stated here
/// without rounding as `4 * d <= width^2 + height^2`.
pub proof fn lemma_distance_bounded(p: (int, int), q: (int, int), width: int, height: int)
    requires
        width > 0,
        height > 0,
        in_world(p, width, height),
        in_world(q, width, height),
    ensures
        4 * distance_sq(p, q, width, height) <= width * width + height * height,
{
    let gx = axis_gap(p.0, q.0, width);
    let gy = axis_gap(p.1, q.1, height);
    assert(0 <= 2 * gx <= width);
    assert(0 <= 2 * gy <= height);
    assert(4 * (gx * gx) <= width * width) by (nonlinear_arith)
        requires
            0 <= 2 * gx <= width,
    ;
    assert(4 * (gy * gy) <= height * height) by (nonlinear_arith)
        requires
            0 <= 2 * gy <= height,
    ;
}

/// The point lies in `[-width/2, width/2] x [-height/2, height/2]`.
pub open spec fn in_world(p: (int, int), width: int, height: int) -> bool {
    2 * abs(p.0) <= width && 2 * abs(p.1) <= height
}

fn wrap_axis_exec(c: i128, size: i64) -> (r: i64)
    requires
        0 < size <= MAX_COORD,
    ensures
        r == wrap_axis(c as int, size as int),
        2 * abs(r as int) <= size,
{
    let half = size / 2;
    if c > half as i128 {
        -half
    } else if c < -(half as i128) {
        half
    } else {
        c as i64
    }
}

fn advance_exec(d: i64, v: i64, dt: i64) -> (r: i128)
    requires
        abs(d as int) <= MAX_COORD,
        abs(v as int) <= MAX_COORD,
        abs(dt as int) <= MAX_COORD,
    ensures
        r == advance(d as int, v as int, dt as int),
        abs(r as int) <= MAX_COORD * MAX_COORD * MAX_COORD,
{
    let ghost m = MAX_COORD as int;
    proof {
        assert(abs(d * v) <= m * m) by (nonlinear_arith)
            requires
                abs(d as int) <= m,
                abs(v as int) <= m,
        ;
        assert(abs(d * v * dt) <= m * m * m) by (nonlinear_arith)
            requires
                abs(d * v) <= m * m,
                abs(dt as int) <= m,
        ;
    }
    let p = (d as i128) * (v as i128) * (dt as i128);
    trunc_div_exec(p, (ONE as i128) * TIME_UNIT)
}

impl Agent {
    fn wrap_pos(&mut self, x: i128, y: i128, width: i64, height: i64)
        requires
            valid_world(width as int, height as int),
        ensures
            final(self)@.pos == (wrap_axis(x as int, width as int), wrap_axis(
                y as int,
                height as int,
            )),
            final(self)@.id == old(self)@.id,
            final(self)@.vel == old(self)@.vel,
            final(self)@.dir == old(self)@.dir,
            in_world(final(self)@.pos, width as int, height as int),
    {
        self.pos.x = wrap_axis_exec(x, width);
        self.pos.y = wrap_axis_exec(y, height);
    }

    /// Moves the agent along its heading by `dt` times its speed, then wraps
    /// its position into the world.
    pub fn step(&mut self, dt: i64, width: i64, height: i64)
        requires
            old(self)@.wf(),
            abs(dt as int) <= MAX_COORD,
            valid_world(width as int, height as int),
        ensures
            final(self)@.pos == stepped_pos(old(self)@, dt as int, width as int, height as int),
            final(self)@.id == old(self)@.id,
            final(self)@.vel == old(self)@.vel,
            final(self)@.dir == old(self)@.dir,
            in_world(final(self)@.pos, width as int, height as int),
            final(self)@.wf(),
    {
        let dx = advance_exec(self.dir.x, self.vel, dt);
        let dy = advance_exec(self.dir.y, self.vel, dt);
        let x = self.pos.x as i128 + dx;
        let y = self.pos.y as i128 + dy;
        self.wrap_pos(x, y, width, height);
    }
}

/// The position after a step of `dt`.
pub open spec fn stepped_pos(me: AgentModel, dt: int, width: int, height: int) -> (int, int) {
    (
        wrap_axis(me.pos.0 + advance(me.dir.0, me.vel, dt), width),
        wrap_axis(me.pos.1 + advance(me.dir.1, me.vel, dt), height),
    )
}

/// Bound on one inverse squared distance weight: `2 * MAX_COORD * INVERSE_SCALE`.
pub const WEIGHT_BOUND: i128 = 2_199_023_255_552_000_000_000_000;

fn inverse_weight_exec(d: i128, dist: i128) -> (r: i128)
    requires
        abs(d as int) <= 2 * MAX_COORD,
    ensures
        r == inverse_weight(d as int, dist as int),
        abs(r as int) <= WEIGHT_BOUND,
{
    proof {
        assert(abs(d * INVERSE_SCALE) <= WEIGHT_BOUND) by (nonlinear_arith)
            requires
                abs(d as int) <= 2_199_023_255_552,
                INVERSE_SCALE == 1_000_000_000_000,
                WEIGHT_BOUND == 2_199_023_255_552_000_000_000_000,
        ;
    }
    let m: i128 = if dist > 0 {
        dist
    } else {
        1
    };
    trunc_div_exec(d * INVERSE_SCALE, m)
}

impl Agent {
    /// The heading this agent takes from `neighbors` (the agents of the
    /// world, itself among them or not): the current heading plus the
    /// weighted unit alignment, separation and cohesion influences of the
    /// other agents inside the perception radius, normalized.
    pub fn steered_heading(&self, neighbors: &[Agent], width: i64, height: i64) -> (r: Vec2)
        requires
            self@.wf(),
            neighbors@.len() <= MAX_FLOCK,
            forall|i: int| 0 <= i < neighbors@.len() ==> (#[trigger] neighbors@[i])@.wf(),
            valid_world(width as int, height as int),
        ensures
            (r.x as int, r.y as int) == steered(
                self@,
                models(neighbors@),
                width as int,
                height as int,
            ),
            is_unit(r.x as int, r.y as int),
            -ONE <= r.x <= ONE,
            -ONE <= r.y <= ONE,
    {
        let ghost me = self@;
        let ghost ns = models(neighbors@);
        let ghost w = width as int;
        let ghost h = height as int;
        let mut al_x: i128 = self.dir.x as i128;
        let mut al_y: i128 = self.dir.y as i128;
        let mut pu_x: i128 = 0;
        let mut pu_y: i128 = 0;
        let mut pl_x: i128 = 0;
        let mut pl_y: i128 = 0;
        let mut i: usize = 0;
        proof {
            assert(ns.take(0) =~= Seq::<AgentModel>::empty());
        }
        while i < neighbors.len()
            invariant
                i <= neighbors@.len() <= MAX_FLOCK,
                me == self@,
                me.wf(),
                ns == models(neighbors@),
                forall|k: int| 0 <= k < neighbors@.len() ==> (#[trigger] neighbors@[k])@.wf(),
                valid_world(w, h),
                w == width,
                h == height,
                (al_x as int, al_y as int) == alignment_sum(me, ns.take(i as int), w, h),
                (pu_x as int, pu_y as int) == push_sum(me, ns.take(i as int), w, h),
                (pl_x as int, pl_y as int) == pull_sum(me, ns.take(i as int), w, h),
                abs(al_x as int) <= (i + 1) * MAX_COORD,
                abs(al_y as int) <= (i + 1) * MAX_COORD,
                abs(pu_x as int) <= i * WEIGHT_BOUND,
                abs(pu_y as int) <= i * WEIGHT_BOUND,
                abs(pl_x as int) <= i * WEIGHT_BOUND,
                abs(pl_y as int) <= i * WEIGHT_BOUND,
            decreases neighbors.len() - i,
        {
            let n = &neighbors[i];
            proof {
                assert(ns.take(i + 1).drop_last() =~= ns.take(i as int));
                assert(ns.take(i + 1).last() == n@);
                assert(n@.wf());
            }
            if n.id != self.id {
                let d = self.distance_squared(n, width, height);
                if d < PERCEPTION_RADIUS_SQ {
                    al_x = al_x + n.dir.x as i128;
                    al_y = al_y + n.dir.y as i128;
                    pu_x = pu_x + inverse_weight_exec(self.pos.x as i128 - n.pos.x as i128, d);
                    pu_y = pu_y + inverse_weight_exec(self.pos.y as i128 - n.pos.y as i128, d);
                    pl_x = pl_x + inverse_weight_exec(n.pos.x as i128 - self.pos.x as i128, d);
                    pl_y = pl_y + inverse_weight_exec(n.pos.y as i128 - self.pos.y as i128, d);
                }
            }
            i = i + 1;
        }
        proof {
            assert(ns.take(neighbors@.len() as int) =~= ns);
        }
        let a = normalize(al_x, al_y);
        let p = normalize(pu_x, pu_y);
        let q = normalize(pl_x, pl_y);
        let sx: i128 = HEADING_WEIGHT * (self.dir.x as i128) + ALIGNMENT_WEIGHT * (a.x as i128)
            + SEPARATION_WEIGHT * (p.x as i128) + COHESION_WEIGHT * (q.x as i128);
        let sy: i128 = HEADING_WEIGHT * (self.dir.y as i128) + ALIGNMENT_WEIGHT * (a.y as i128)
            + SEPARATION_WEIGHT * (p.y as i128) + COHESION_WEIGHT * (q.y as i128);
        if sx == 0 && sy == 0 {
            Vec2 { x: 0, y: ONE }
        } else {
            proof {
                lemma_normalized_is_unit(sx as int, sy as int);
            }
            normalize(sx, sy)
        }
    }

    /// Replaces the heading by the one steered from `neighbors`; position,
    /// speed and id stay as they are.
    pub fn update(&mut self, neighbors: &[Agent], width: i64, height: i64)
        requires
            old(self)@.wf(),
            neighbors@.len() <= MAX_FLOCK,
            forall|i: int| 0 <= i < neighbors@.len() ==> (#[trigger] neighbors@[i])@.wf(),
            valid_world(width as int, height as int),
        ensures
            final(self)@.dir == steered(
                old(self)@,
                models(neighbors@),
                width as int,
                height as int,
            ),
            is_unit(final(self)@.dir.0, final(self)@.dir.1),
            final(self)@.id == old(self)@.id,
            final(self)@.pos == old(self)@.pos,
            final(self)@.vel == old(self)@.vel,
            final(self)@.wf(),
    {
        self.dir = self.steered_heading(neighbors, width, height);
    }
}

/// The agents of `ns` other than `me` (by id).
pub open spec fn others(me: AgentModel, ns: Seq<AgentModel>) -> Seq<AgentModel> {
    ns.filter(|n: AgentModel| n.id != me.id)
}

proof fn lemma_sums_skip_self(me: AgentModel, ns: Seq<AgentModel>, width: int, height: int)
    ensures
        alignment_sum(me, ns, width, height) == alignment_sum(me, others(me, ns), width, height),
        push_sum(me, ns, width, height) == push_sum(me, others(me, ns), width, height),
        pull_sum(me, ns, width, height) == pull_sum(me, others(me, ns), width, height),
    decreases ns.len(),
{
    reveal(Seq::filter);
    if ns.len() > 0 {
        let rest = ns.drop_last();
        lemma_sums_skip_self(me, rest, width, height);
        let n = ns.last();
        assert(others(me, ns) == if n.id != me.id {
            others(me, rest).push(n)
        } else {
            others(me, rest)
        });
        if n.id != me.id {
            assert(others(me, ns).drop_last() =~= others(me, rest));
            assert(others(me, ns).last() == n);
        }
    }
}

/// An agent's own entry among its neighbours (any agent with its id) has
/// no influence on its new heading.
pub proof fn lemma_self_excluded(me: AgentModel, ns: Seq<AgentModel>, width: int, height: int)
    ensures
        steered(me, ns, width, height) == steered(me, others(me, ns), width, height),
{
    lemma_sums_skip_self(me, ns, width, height);
}

/// The cohesion accumulator is the exact negation of the separation one.
pub proof fn lemma_pull_is_negated_push(
    me: AgentModel,
    ns: Seq<AgentModel>,
    width: int,
    height: int,
)
    ensures
        pull_sum(me, ns, width, height).0 == -push_sum(me, ns, width, height).0,
        pull_sum(me, ns, width, height).1 == -push_sum(me, ns, width, height).1,
    decreases ns.len(),
{
    if ns.len() > 0 {
        lemma_pull_is_negated_push(me, ns.drop_last(), width, height);
        let n = ns.last();
        let d = distance_sq(me.pos, n.pos, width, height);
        lemma_weight_odd(me.pos.0 - n.pos.0, d);
        lemma_weight_odd(me.pos.1 - n.pos.1, d);
    }
}

proof fn lemma_weight_odd(v: int, dist: int)
    ensures
        inverse_weight(-v, dist) == -inverse_weight(v, dist),
{
    assert((-v) * INVERSE_SCALE == -(v * INVERSE_SCALE));
    let a = v * INVERSE_SCALE;
    if a == 0 {
        let m = if dist > 0 { dist } else { 1 };
        assert(0int / m == 0);
    }
}

} // verus!
