//! A verified 2D flocking ("boids") simulation core.
//!
//! Agents move in a bounded toroidal world under the three classic local
//! flocking rules (separation, alignment, cohesion). Neighbors are found
//! through a spatial hash grid rebuilt every tick, steering is blended from
//! configurable weights, and headings are smoothed over time rather than
//! snapped. All geometry is fixed-point integer arithmetic: positions in
//! milli-units, angles in milli-degrees, unit vectors at scale 1000.
//!
//! One tick runs four phases in order: grid rebuild, steering, motion
//! integration, boundary wrap; `tick` composes them and its contract gives
//! the whole next population as a function of the current one.

use vstd::prelude::*;

pub mod agents;
pub mod angles;
pub mod bounds;
pub mod config;
pub mod flocking;
pub mod grid;
pub mod math;
pub mod motion;
pub mod trig;
pub mod vec2;

use crate::agents::{pos_in_budget, store_wf, Agent, AgentStore, MAX_COORD, MAX_POP};
use crate::bounds::wrapped_agent;
use crate::config::SimulationConfig;
use crate::flocking::stepped_agent;
use crate::grid::SpatialHashGrid;
use crate::motion::{integrated_agent, MAX_DT};

verus! {

/// The whole population after one tick: each agent is steered from the
/// start-of-tick grid snapshot, integrated, and wrapped into the world
/// rectangle. A negative elapsed time is invalid input and makes the
/// whole tick a no-op; a zero elapsed time still steers, but moves
/// nothing.
pub open spec fn spec_tick(
    agents: Seq<Agent>,
    cfg: SimulationConfig,
    dt: int,
    world_w: int,
    world_h: int,
) -> Seq<Agent> {
    if dt < 0 {
        agents
    } else {
        Seq::new(
            agents.len(),
            |i: int|
                wrapped_agent(
                    integrated_agent(stepped_agent(agents, i, cfg), cfg, dt),
                    world_w / 2,
                    world_h / 2,
                ),
        )
    }
}

/// Run one full simulation tick: rebuild the spatial hash grid from the
/// current positions, update every agent's target heading from its
/// neighborhood, rotate headings a bounded step toward their targets and
/// advance positions, then wrap any agent that left the world rectangle
/// back in on the opposite edge. A negative `dt` makes the whole tick a
/// no-op; a zero `dt` steers but moves nothing.
pub fn tick(store: &mut AgentStore, cfg: &SimulationConfig, dt: i64, world_w: i64, world_h: i64)
    requires
        cfg.wf(),
        store_wf(old(store)@),
        old(store)@.len() <= MAX_POP,
        dt <= MAX_DT,
        2 <= world_w <= 2 * MAX_COORD,
        2 <= world_h <= 2 * MAX_COORD,
    ensures
        final(store)@ == spec_tick(old(store)@, *cfg, dt as int, world_w as int, world_h as int),
        store_wf(final(store)@),
        final(store)@.len() == old(store)@.len(),
        dt >= 0 ==> forall|i: int|
            0 <= i < final(store)@.len() ==> {
                let p = (#[trigger] final(store)@[i]).pos;
                -world_w / 2 <= p.x <= world_w / 2 && -world_h / 2 <= p.y <= world_h / 2
            },
{
    if dt < 0 {
        return ;
    }
    let ghost s0 = store@;
    proof {
        assert forall|i: int| 0 <= i < store@.len() implies pos_in_budget(
            (#[trigger] store@[i]).pos,
        ) by {
            assert(store@[i].wf());
        }
    }
    let grid = SpatialHashGrid::rebuild(store, cfg.cell_size);
    crate::flocking::step(store, &grid, cfg);
    let ghost s1 = store@;
    crate::motion::step(store, cfg, dt);
    let ghost s2 = store@;
    crate::bounds::apply(store, world_w, world_h);
    proof {
        let hw = world_w as int / 2;
        let hh = world_h as int / 2;
        assert forall|i: int| 0 <= i < store@.len() implies #[trigger] store@[i] == spec_tick(
            s0,
            *cfg,
            dt as int,
            world_w as int,
            world_h as int,
        )[i] by {
            assert(s1[i] == stepped_agent(s0, i, *cfg));
            assert(s2[i] == integrated_agent(s1[i], *cfg, dt as int));
            assert(store@[i] == wrapped_agent(s2[i], hw, hh));
        }
        assert(store@ =~= spec_tick(s0, *cfg, dt as int, world_w as int, world_h as int));
        assert forall|i: int| 0 <= i < store@.len() implies (#[trigger] store@[i]).wf()
            && store@[i].id == i by {
            assert(s1[i] == stepped_agent(s0, i, *cfg));
            assert(s1[i].wf() && s1[i].id == i);
            assert(s2[i] == integrated_agent(s1[i], *cfg, dt as int));
        }
    }
}

} // verus!
