//! A whole flock on one torus, advanced a tick at a time.
use vstd::prelude::*;
use crate::vector::{Vec2, is_unit};
use crate::agent::{
    Agent, AgentModel, MAX_COORD, MAX_FLOCK, valid_world, in_world, models, steered, stepped_pos,
};

verus! {

/// A fixed population of agents with distinct ids on a torus of fixed size.
pub struct Flock {
    agents: Vec<Agent>,
    width: i64,
    height: i64,
}

/// The mathematical model of a flock.
pub struct FlockModel {
    pub agents: Seq<AgentModel>,
    pub width: int,
    pub height: int,
}

impl View for Flock {
    type V = FlockModel;

    closed spec fn view(&self) -> FlockModel {
        FlockModel { agents: models(self.agents@), width: self.width as int, height: self.height as int }
    }
}

/// No two of the agents share an id.
pub open spec fn distinct_ids(agents: Seq<AgentModel>) -> bool {
    forall|i: int, j: int|
        0 <= i < agents.len() && 0 <= j < agents.len() && i != j ==> #[trigger] agents[i].id
            != #[trigger] agents[j].id
}

impl FlockModel {
    pub open spec fn wf(self) -> bool {
        &&& valid_world(self.width, self.height)
        &&& self.agents.len() <= MAX_FLOCK
        &&& forall|i: int| 0 <= i < self.agents.len() ==> (#[trigger] self.agents[i]).wf()
        &&& distinct_ids(self.agents)
    }
}

/// Agent `a` of the flock `agents` after one tick: its heading steered from
/// the whole flock as it was before the tick, then its position stepped.
pub open spec fn ticked_agent(
    a: AgentModel,
    agents: Seq<AgentModel>,
    dt: int,
    width: int,
    height: int,
) -> AgentModel {
    let turned = AgentModel {
        id: a.id,
        pos: a.pos,
        vel: a.vel,
        dir: steered(a, agents, width, height),
    };
    AgentModel {
        id: turned.id,
        pos: stepped_pos(turned, dt, width, height),
        vel: turned.vel,
        dir: turned.dir,
    }
}

/// The flock after one tick of `dt`.
pub open spec fn ticked(f: FlockModel, dt: int) -> FlockModel {
    FlockModel {
        agents: Seq::new(
            f.agents.len(),
            |i: int| ticked_agent(f.agents[i], f.agents, dt, f.width, f.height),
        ),
        width: f.width,
        height: f.height,
    }
}

/// The flock after a tick for each of `dts`, in order.
pub open spec fn run(f: FlockModel, dts: Seq<int>) -> FlockModel
    decreases dts.len(),
{
    if dts.len() == 0 {
        f
    } else {
        ticked(run(f, dts.drop_last()), dts.last())
    }
}

/// Two runs from the same flock with the same time steps end in the same
/// flock: the simulation is deterministic.
pub proof fn lemma_run_deterministic(a: FlockModel, b: FlockModel, dts: Seq<int>)
    requires
        a == b,
    ensures
        run(a, dts) == run(b, dts),
    decreases dts.len(),
{
    if dts.len() > 0 {
        lemma_run_deterministic(a, b, dts.drop_last());
    }
}

impl Flock {
    /// An empty flock on a torus of the given size.
    pub fn new(width: i64, height: i64) -> (r: Flock)
        requires
            valid_world(width as int, height as int),
        ensures
            r@.agents.len() == 0,
            r@.width == width,
            r@.height == height,
            r@.wf(),
    {
        Flock { agents: Vec::new(), width, height }
    }

    /// Adds an agent; refused (and `false` returned) when its id is taken
    /// or the flock is full.
    pub fn add(&mut self, agent: Agent) -> (r: bool)
        requires
            old(self)@.wf(),
            agent@.wf(),
        ensures
            r == (old(self)@.agents.len() < MAX_FLOCK && forall|i: int|
                0 <= i < old(self)@.agents.len() ==> (#[trigger] old(self)@.agents[i]).id
                    != agent@.id),
            r ==> final(self)@.agents == old(self)@.agents.push(agent@),
            !r ==> final(self)@.agents == old(self)@.agents,
            final(self)@.width == old(self)@.width,
            final(self)@.height == old(self)@.height,
            final(self)@.wf(),
    {
        if self.agents.len() >= MAX_FLOCK {
            return false;
        }
        let mut i: usize = 0;
        while i < self.agents.len()
            invariant
                self@ == old(self)@,
                self@.wf(),
                i <= self.agents@.len(),
                forall|k: int| 0 <= k < i ==> (#[trigger] self@.agents[k]).id != agent@.id,
            decreases self.agents.len() - i,
        {
            if self.agents[i].id() == agent.id() {
                assert(self@.agents[i as int].id == agent@.id);
                return false;
            }
            i = i + 1;
        }
        self.agents.push(agent);
        proof {
            assert(models(self.agents@) =~= models(old(self).agents@).push(agent@));
        }
        true
    }

    pub fn len(&self) -> (r: usize)
        ensures
            r == self@.agents.len(),
    {
        self.agents.len()
    }

    pub fn agent(&self, i: usize) -> (r: Agent)
        requires
            i < self@.agents.len(),
        ensures
            r@ == self@.agents[i as int],
    {
        self.agents[i]
    }

    pub fn width(&self) -> (r: i64)
        ensures
            r == self@.width,
    {
        self.width
    }

    pub fn height(&self) -> (r: i64)
        ensures
            r == self@.height,
    {
        self.height
    }

    /// One tick: every heading is steered from the flock as it stood before
    /// the tick, then every agent steps by `dt`.
    pub fn tick(&mut self, dt: i64)
        requires
            old(self)@.wf(),
            -MAX_COORD <= dt <= MAX_COORD,
        ensures
            final(self)@ == ticked(old(self)@, dt as int),
            final(self)@.wf(),
            forall|i: int|
                0 <= i < final(self)@.agents.len() ==> {
                    let a = #[trigger] final(self)@.agents[i];
                    is_unit(a.dir.0, a.dir.1) && in_world(a.pos, old(self)@.width, old(self)@.height)
                },
    {
        let n = self.agents.len();
        let mut headings: Vec<Vec2> = Vec::new();
        let mut i: usize = 0;
        while i < n
            invariant
                self@ == old(self)@,
                self@.wf(),
                n == self.agents@.len(),
                i <= n,
                headings@.len() == i,
                forall|k: int|
                    0 <= k < i ==> {
                        let h = #[trigger] headings@[k];
                        &&& (h.x as int, h.y as int) == steered(
                            self@.agents[k],
                            self@.agents,
                            self.width as int,
                            self.height as int,
                        )
                        &&& is_unit(h.x as int, h.y as int)
                        &&& -MAX_COORD <= h.x <= MAX_COORD
                        &&& -MAX_COORD <= h.y <= MAX_COORD
                    },
            decreases n - i,
        {
            assert(self@.agents[i as int] == self.agents@[i as int]@);
            assert(forall|k: int| 0 <= k < self.agents@.len() ==> (#[trigger] self.agents@[k])@.wf()) by {
                assert(forall|k: int| 0 <= k < self.agents@.len() ==> self@.agents[k] == (#[trigger] self.agents@[k])@);
            }
            let h = self.agents[i].steered_heading(self.agents.as_slice(), self.width, self.height);
            headings.push(h);
            i = i + 1;
        }
        let ghost before = old(self)@;
        let mut j: usize = 0;
        while j < n
            invariant
                n == self.agents@.len(),
                n == before.agents.len(),
                j <= n,
                before == old(self)@,
                before.wf(),
                -MAX_COORD <= dt <= MAX_COORD,
                self.width == before.width,
                self.height == before.height,
                headings@.len() == n,
                forall|k: int|
                    0 <= k < n ==> {
                        let h = #[trigger] headings@[k];
                        &&& (h.x as int, h.y as int) == steered(
                            before.agents[k],
                            before.agents,
                            before.width,
                            before.height,
                        )
                        &&& is_unit(h.x as int, h.y as int)
                        &&& -MAX_COORD <= h.x <= MAX_COORD
                        &&& -MAX_COORD <= h.y <= MAX_COORD
                    },
                forall|k: int|
                    0 <= k < j ==> {
                        let a = #[trigger] self@.agents[k];
                        &&& a.wf()
                        &&& is_unit(a.dir.0, a.dir.1)
                        &&& in_world(a.pos, before.width, before.height)
                    },
                forall|k: int| 0 <= k < n ==> (#[trigger] self@.agents[k]).id == before.agents[k].id,
                forall|k: int|
                    0 <= k < j ==> #[trigger] self@.agents[k] == ticked_agent(
                        before.agents[k],
                        before.agents,
                        dt as int,
                        before.width,
                        before.height,
                    ),
                forall|k: int| j <= k < n ==> #[trigger] self@.agents[k] == before.agents[k],
            decreases n - j,
        {
            assert(self@.agents[j as int] == self.agents@[j as int]@);
            let h = headings[j];
            let ghost prev = self.agents@;
            let mut a = self.agents[j];
            a.set_dir(h);
            a.step(dt, self.width, self.height);
            self.agents[j] = a;
            proof {
                assert(self.agents@ == prev.update(j as int, a));
                assert(a@ == ticked_agent(
                    before.agents[j as int],
                    before.agents,
                    dt as int,
                    before.width,
                    before.height,
                ));
                assert(self@.agents[j as int] == a@);
                assert(a@.wf());
                assert(is_unit(a@.dir.0, a@.dir.1));
                assert(in_world(a@.pos, before.width, before.height));
                assert forall|k: int| 0 <= k < n && k != j implies #[trigger] self@.agents[k]
                    == models(prev)[k] by {
                    assert(self.agents@[k] == prev[k]);
                }
            }
            j = j + 1;
        }
        proof {
            assert(self@.agents =~= ticked(before, dt as int).agents);
        }
    }
}

} // verus!
