//! Steering: the three-agent scenario, isolation, zero weights, the
//! radius filter and self-exclusion.

use boid_sim::agents::{Agent, AgentSeed, AgentStore};
use boid_sim::config::SimulationConfig;
use boid_sim::flocking::{compute_forces, steer_one, step};
use boid_sim::grid::{GridRec, SpatialHashGrid};
use boid_sim::vec2::Vec2I;

fn config(sep: i64, align: i64, coh: i64, view_radius: Option<i64>) -> SimulationConfig {
    SimulationConfig {
        separation_weight: sep,
        alignment_weight: align,
        cohesion_weight: coh,
        speed: 160_000,
        turn_smoothing: 50,
        cell_size: 10_000,
        view_radius,
    }
}

fn agent_at(id: usize, x: i64, y: i64, heading: i64) -> Agent {
    Agent { id, pos: Vec2I { x, y }, heading, target_heading: heading, is_leader: false }
}

fn rec_at(id: usize, x: i64, y: i64, heading: i64) -> GridRec {
    GridRec { id, pos: Vec2I { x, y }, heading }
}

#[test]
fn three_agents_in_one_cell() {
    // Agents at (0,0), (1,0), (0,1) world units, all heading along +x,
    // equal weights: separation points away from both neighbors, cohesion
    // toward their centroid (0.5, 0.5), alignment along +x exactly.
    let own = agent_at(0, 0, 0, 0);
    let block = vec![
        rec_at(0, 0, 0, 0),
        rec_at(1, 1_000, 0, 0),
        rec_at(2, 0, 1_000, 0),
    ];
    let cfg = config(1000, 1000, 1000, None);
    let f = compute_forces(&own, &block, &cfg);
    assert_eq!(f.neighbors, 2);
    // Away from both neighbors: strictly negative x and y.
    assert!(f.separation.x < 0 && f.separation.y < 0);
    assert_eq!(f.separation.x, -708);
    assert_eq!(f.separation.y, -708);
    // All headings agree on +x: the alignment direction is exactly +x.
    assert_eq!(f.alignment.x, 1000);
    assert_eq!(f.alignment.y, 0);
    // Toward the centroid (500, 500): strictly positive x and y.
    assert!(f.cohesion.x > 0 && f.cohesion.y > 0);
    assert_eq!(f.cohesion.x, 707);
    assert_eq!(f.cohesion.y, 707);
    // The blend of the three, at unit scale.
    assert_eq!(f.desired.x, 999);
    assert_eq!(f.desired.y, -1);
}

#[test]
fn isolated_agent_keeps_target() {
    // A single agent with no other record anywhere: the target heading
    // after a steering step equals its value before.
    let own = agent_at(0, 0, 0, 45_000);
    let block = vec![rec_at(0, 0, 0, 45_000)];
    let cfg = config(1500, 1000, 500, Some(25_000));
    let t = steer_one(&own, &block, &cfg);
    assert_eq!(t, 45_000);
}

#[test]
fn empty_block_keeps_target() {
    let own = agent_at(0, 0, 0, 123_000);
    let block: Vec<GridRec> = Vec::new();
    let cfg = config(1500, 1000, 500, Some(25_000));
    let t = steer_one(&own, &block, &cfg);
    assert_eq!(t, 123_000);
}

#[test]
fn zero_weights_never_alter_target() {
    let own = agent_at(0, 0, 0, 77_000);
    let block = vec![
        rec_at(1, 1_000, 0, 0),
        rec_at(2, 0, 1_000, 90_000),
        rec_at(3, -2_000, 500, 180_000),
    ];
    let cfg = config(0, 0, 0, None);
    let t = steer_one(&own, &block, &cfg);
    assert_eq!(t, 77_000);
    let f = compute_forces(&own, &block, &cfg);
    assert_eq!(f.neighbors, 3);
    assert_eq!(f.desired.x, 0);
    assert_eq!(f.desired.y, 0);
}

#[test]
fn view_radius_filters_far_records() {
    let own = agent_at(0, 0, 0, 0);
    // One neighbor at 2 units, one at 30 units; radius 25 units.
    let block = vec![rec_at(1, 2_000, 0, 0), rec_at(2, 30_000, 0, 0)];
    let cfg = config(1000, 1000, 1000, Some(25_000));
    let f = compute_forces(&own, &block, &cfg);
    assert_eq!(f.neighbors, 1);
}

#[test]
fn radius_compare_is_strict() {
    let own = agent_at(0, 0, 0, 0);
    // Exactly at the radius: excluded, just inside: included.
    let block = vec![rec_at(1, 25_000, 0, 0), rec_at(2, 24_999, 0, 0)];
    let cfg = config(1000, 1000, 1000, Some(25_000));
    let f = compute_forces(&own, &block, &cfg);
    assert_eq!(f.neighbors, 1);
}

#[test]
fn own_record_never_counts() {
    // The agent's own snapshot sits in its bucket; identity, not
    // position, excludes it: a coincident other agent still counts.
    let own = agent_at(7, 500, 500, 0);
    let block = vec![rec_at(7, 500, 500, 0), rec_at(8, 500, 500, 90_000)];
    let cfg = config(1000, 1000, 1000, Some(25_000));
    let f = compute_forces(&own, &block, &cfg);
    assert_eq!(f.neighbors, 1);
}

#[test]
fn coincident_neighbor_contributes_zero_separation() {
    let own = agent_at(0, 500, 500, 0);
    let block = vec![rec_at(1, 500, 500, 90_000)];
    let cfg = config(1000, 1000, 1000, None);
    let f = compute_forces(&own, &block, &cfg);
    assert_eq!(f.neighbors, 1);
    assert_eq!(f.separation.x, 0);
    assert_eq!(f.separation.y, 0);
    assert_eq!(f.cohesion.x, 0);
    assert_eq!(f.cohesion.y, 0);
    // Alignment follows the neighbor's +y heading.
    assert_eq!(f.alignment.x, 0);
    assert_eq!(f.alignment.y, 1000);
}

#[test]
fn step_updates_targets_from_grid() {
    // Two agents a unit apart, both heading +x; after one steering pass
    // each has a fresh target and nothing else changed.
    let seeds = vec![
        AgentSeed { pos: Vec2I { x: 0, y: 0 }, heading: 0 },
        AgentSeed { pos: Vec2I { x: 1_000, y: 0 }, heading: 0 },
    ];
    let mut store = AgentStore::initialize(&seeds);
    // Separation only: each agent is pushed straight away from the other.
    let cfg = config(1000, 0, 0, Some(25_000));
    let grid = SpatialHashGrid::rebuild(&store, cfg.cell_size);
    step(&mut store, &grid, &cfg);
    assert_eq!(store.len(), 2);
    let a0 = store.agent(0);
    let a1 = store.agent(1);
    // Positions and headings untouched by steering.
    assert_eq!(a0.pos.x, 0);
    assert_eq!(a1.pos.x, 1_000);
    assert_eq!(a0.heading, 0);
    assert_eq!(a1.heading, 0);
    // Agent 0 flees along -x, agent 1 along +x.
    assert_eq!(a0.target_heading, 180_000);
    assert_eq!(a1.target_heading, 0);
}
