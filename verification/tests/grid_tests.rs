//! The spatial hash grid: bucket membership and the 3x3 block lookup.

use boid_sim::agents::{AgentSeed, AgentStore};
use boid_sim::grid::SpatialHashGrid;
use boid_sim::vec2::Vec2I;

fn store_of(positions: &[(i64, i64)]) -> AgentStore {
    let seeds: Vec<AgentSeed> = positions
        .iter()
        .map(|&(x, y)| AgentSeed { pos: Vec2I { x, y }, heading: 0 })
        .collect();
    AgentStore::initialize(&seeds)
}

#[test]
fn one_cell_holds_all_close_agents() {
    // Three agents inside one 10-unit cell (milli-unit coordinates).
    let store = store_of(&[(0, 0), (1_000, 0), (0, 1_000)]);
    let grid = SpatialHashGrid::rebuild(&store, 10_000);
    let recs = grid.neighbors_in_block(0, 0);
    assert_eq!(recs.len(), 3);
    let ids: Vec<usize> = recs.iter().map(|r| r.id).collect();
    assert!(ids.contains(&0) && ids.contains(&1) && ids.contains(&2));
}

#[test]
fn adjacent_cell_is_in_block_two_away_is_not() {
    // Agent 0 in cell (0,0); agent 1 in cell (1,0); agent 2 in cell (2,0).
    let store = store_of(&[(5_000, 5_000), (15_000, 5_000), (25_000, 5_000)]);
    let grid = SpatialHashGrid::rebuild(&store, 10_000);
    let recs = grid.neighbors_in_block(0, 0);
    let ids: Vec<usize> = recs.iter().map(|r| r.id).collect();
    assert_eq!(ids, vec![0, 1]);
}

#[test]
fn absent_cells_return_nothing() {
    let store = store_of(&[(0, 0)]);
    let grid = SpatialHashGrid::rebuild(&store, 10_000);
    let recs = grid.neighbors_in_block(50, 50);
    assert_eq!(recs.len(), 0);
}

#[test]
fn empty_population_gives_empty_grid() {
    let store = store_of(&[]);
    let grid = SpatialHashGrid::rebuild(&store, 25_000);
    let recs = grid.neighbors_in_block(0, 0);
    assert_eq!(recs.len(), 0);
}

#[test]
fn negative_coordinates_floor_into_cells() {
    // x = -1 milli-unit falls in cell -1, not cell 0.
    let store = store_of(&[(-1, 0), (1, 0)]);
    let grid = SpatialHashGrid::rebuild(&store, 10_000);
    // Block around cell (-1, 0) holds both (cell 0 is adjacent).
    let recs = grid.neighbors_in_block(-1, 0);
    assert_eq!(recs.len(), 2);
    // Block around cell (2, 0) holds neither.
    let far = grid.neighbors_in_block(3, 0);
    assert_eq!(far.len(), 0);
}

#[test]
fn records_snapshot_position_and_heading() {
    let seeds = vec![AgentSeed { pos: Vec2I { x: 4_000, y: 9_999 }, heading: 123_456 }];
    let store = AgentStore::initialize(&seeds);
    let grid = SpatialHashGrid::rebuild(&store, 10_000);
    let recs = grid.neighbors_in_block(0, 0);
    assert_eq!(recs.len(), 1);
    assert_eq!(recs[0].id, 0);
    assert_eq!(recs[0].pos.x, 4_000);
    assert_eq!(recs[0].pos.y, 9_999);
    assert_eq!(recs[0].heading, 123_456);
}

#[test]
fn block_membership_matches_cell_arithmetic() {
    // Scatter agents, then check for several center cells that the block
    // returns exactly the agents whose floored cell lies within one cell
    // of the center on each axis.
    let cell: i64 = 10_000;
    let mut positions: Vec<(i64, i64)> = Vec::new();
    for i in 0..40i64 {
        positions.push(((i * 7_717) % 100_000 - 50_000, (i * 3_331) % 80_000 - 40_000));
    }
    let store = store_of(&positions);
    let grid = SpatialHashGrid::rebuild(&store, cell);
    let cell_of = |c: i64| -> i64 { c.div_euclid(cell) };
    for &(ccx, ccy) in &[(0i64, 0i64), (-1, 2), (3, -3), (-5, -4)] {
        let recs = grid.neighbors_in_block(ccx, ccy);
        let got: Vec<usize> = recs.iter().map(|r| r.id).collect();
        for (id, &(x, y)) in positions.iter().enumerate() {
            let inside =
                (cell_of(x) - ccx).abs() <= 1 && (cell_of(y) - ccy).abs() <= 1;
            assert_eq!(got.contains(&id), inside, "agent {id} at ({x}, {y})");
        }
    }
}

#[test]
fn coincident_agents_both_indexed() {
    let store = store_of(&[(500, 500), (500, 500)]);
    let grid = SpatialHashGrid::rebuild(&store, 10_000);
    let recs = grid.neighbors_in_block(0, 0);
    assert_eq!(recs.len(), 2);
    assert_ne!(recs[0].id, recs[1].id);
}
