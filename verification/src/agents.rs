//! The authoritative per-agent state: position, current heading, the
//! heading the steering rule wants (`target_heading`), and a diagnostic
//! leader flag. The population is fixed at initialization; agents are
//! addressed by their stable id, which is their storage slot.

use vstd::prelude::*;
use crate::angles::valid_angle;
use crate::vec2::Vec2I;

verus! {

/// Upper bound on the magnitude of any position coordinate, in milli-units.
pub const MAX_COORD: i64 = 1_000_000_000;

/// Upper bound on the population size, so that per-neighborhood sums fit
/// in 64-bit arithmetic.
pub const MAX_POP: usize = 1_000_000;

/// One simulated boid.
#[derive(Clone, Copy, PartialEq, Eq, Structural, Debug)]
pub struct Agent {
    /// Stable identifier; equal to the agent's slot in the store.
    pub id: usize,
    /// World position, milli-units.
    pub pos: Vec2I,
    /// Current facing, milli-degrees in `[0, ANG_TURN)`.
    pub heading: i64,
    /// The heading steering currently converges toward.
    pub target_heading: i64,
    /// Diagnostic flag; never affects physics.
    pub is_leader: bool,
}

/// Whether a position coordinate pair is within the world's coordinate
/// budget.
pub open spec fn pos_in_budget(p: Vec2I) -> bool {
    -MAX_COORD <= p.x <= MAX_COORD && -MAX_COORD <= p.y <= MAX_COORD
}

impl Agent {
    /// Well-formedness: angles are normalized and the position is in
    /// budget.
    pub open spec fn wf(self) -> bool {
        &&& valid_angle(self.heading as int)
        &&& valid_angle(self.target_heading as int)
        &&& pos_in_budget(self.pos)
    }
}

/// Initial state supplied by the host for one agent: a position and a
/// heading (the target heading starts equal to it).
#[derive(Clone, Copy, PartialEq, Eq, Structural, Debug)]
pub struct AgentSeed {
    /// Starting position, milli-units.
    pub pos: Vec2I,
    /// Starting heading, milli-degrees in `[0, ANG_TURN)`.
    pub heading: i64,
}

impl AgentSeed {
    /// Whether the seed describes a well-formed agent.
    pub open spec fn wf(self) -> bool {
        valid_angle(self.heading as int) && pos_in_budget(self.pos)
    }
}

/// The agent population, owned by the simulation.
pub struct AgentStore {
    agents: Vec<Agent>,
}

impl View for AgentStore {
    type V = Seq<Agent>;

    closed spec fn view(&self) -> Seq<Agent> {
        self.agents@
    }
}

/// Whether every agent in `s` is well-formed and sits in the slot its id
/// names.
pub open spec fn store_wf(s: Seq<Agent>) -> bool {
    forall|i: int| 0 <= i < s.len() ==> (#[trigger] s[i]).wf() && s[i].id == i
}

impl AgentStore {
    /// Create the whole population from host-supplied seeds. Ids are
    /// assigned in order; every agent starts with its target heading equal
    /// to its heading and without the leader flag.
    pub fn initialize(seeds: &Vec<AgentSeed>) -> (store: AgentStore)
        requires
            forall|i: int| 0 <= i < seeds@.len() ==> (#[trigger] seeds@[i]).wf(),
        ensures
            store@.len() == seeds@.len(),
            store_wf(store@),
            forall|i: int|
                0 <= i < seeds@.len() ==> {
                    let a = #[trigger] store@[i];
                    &&& a.id == i
                    &&& a.pos == seeds@[i].pos
                    &&& a.heading == seeds@[i].heading
                    &&& a.target_heading == seeds@[i].heading
                    &&& !a.is_leader
                },
    {
        let mut agents: Vec<Agent> = Vec::new();
        let n = seeds.len();
        for k in 0..n
            invariant
                n == seeds@.len(),
                agents@.len() == k,
                forall|i: int| 0 <= i < seeds@.len() ==> (#[trigger] seeds@[i]).wf(),
                forall|i: int|
                    0 <= i < k ==> {
                        let a = #[trigger] agents@[i];
                        &&& a.id == i
                        &&& a.wf()
                        &&& a.pos == seeds@[i].pos
                        &&& a.heading == seeds@[i].heading
                        &&& a.target_heading == seeds@[i].heading
                        &&& !a.is_leader
                    },
        {
            let s = seeds[k];
            agents.push(
                Agent {
                    id: k,
                    pos: s.pos,
                    heading: s.heading,
                    target_heading: s.heading,
                    is_leader: false,
                },
            );
        }
        AgentStore { agents }
    }

    /// Number of agents.
    pub fn len(&self) -> (n: usize)
        ensures
            n == self@.len(),
    {
        self.agents.len()
    }

    /// Read one agent.
    pub fn agent(&self, i: usize) -> (a: Agent)
        requires
            i < self@.len(),
        ensures
            a == self@[i as int],
    {
        self.agents[i]
    }

    /// Borrow the whole population read-only, for rendering or diagnostics.
    pub fn agents(&self) -> (v: &Vec<Agent>)
        ensures
            v@ == self@,
    {
        &self.agents
    }

    /// Set or clear the diagnostic leader flag of one agent.
    pub fn set_leader(&mut self, i: usize, flag: bool)
        requires
            i < old(self)@.len(),
        ensures
            final(self)@ == old(self)@.update(i as int, Agent { is_leader: flag, ..old(self)@[i as int] }),
            store_wf(old(self)@) ==> store_wf(final(self)@),
    {
        let a = self.agents[i];
        self.agents.set(i, Agent { is_leader: flag, ..a });
    }

    /// Replace one agent; the caller proves the replacement keeps the
    /// store's shape.
    pub(crate) fn set_agent(&mut self, i: usize, a: Agent)
        requires
            i < old(self)@.len(),
        ensures
            final(self)@ == old(self)@.update(i as int, a),
    {
        self.agents.set(i, a);
    }
}

} // verus!
