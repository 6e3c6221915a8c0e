//! The whole pipeline: configuration guards, the agent store, and full
//! ticks.

use boid_sim::agents::{AgentSeed, AgentStore};
use boid_sim::config::SimulationConfig;
use boid_sim::tick;
use boid_sim::vec2::Vec2I;

fn stock() -> SimulationConfig {
    SimulationConfig::default()
}

#[test]
fn config_rejects_bad_cell_size() {
    let mut cfg = stock();
    assert!(!cfg.set_cell_size(0));
    assert_eq!(cfg.cell_size, 25_000);
    assert!(!cfg.set_cell_size(-5));
    assert_eq!(cfg.cell_size, 25_000);
    assert!(cfg.set_cell_size(40_000));
    assert_eq!(cfg.cell_size, 40_000);
}

#[test]
fn config_rejects_negative_weights() {
    let mut cfg = stock();
    assert!(!cfg.set_weights(-1, 1000, 1000));
    assert_eq!(cfg.separation_weight, 1500);
    assert_eq!(cfg.alignment_weight, 1000);
    assert!(cfg.set_weights(2000, 0, 0));
    assert_eq!(cfg.separation_weight, 2000);
    assert_eq!(cfg.cohesion_weight, 0);
}

#[test]
fn config_rejects_bad_smoothing_and_speed() {
    let mut cfg = stock();
    assert!(!cfg.set_turn_smoothing(0));
    assert!(!cfg.set_turn_smoothing(1001));
    assert!(cfg.set_turn_smoothing(1000));
    assert!(!cfg.set_speed(-1));
    assert!(cfg.set_speed(0));
    assert_eq!(cfg.speed, 0);
}

#[test]
fn config_new_rejects_out_of_range() {
    assert!(SimulationConfig::new(1500, 1000, 500, 160_000, 50, 0, None).is_none());
    assert!(SimulationConfig::new(-1, 1000, 500, 160_000, 50, 25_000, None).is_none());
    assert!(SimulationConfig::new(1500, 1000, 500, 160_000, 50, 25_000, Some(-1)).is_none());
    let ok = SimulationConfig::new(1500, 1000, 500, 160_000, 50, 25_000, Some(25_000));
    assert!(ok.is_some());
    assert_eq!(ok.unwrap().cell_size, 25_000);
}

#[test]
fn initialize_assigns_slots_and_targets() {
    let seeds = vec![
        AgentSeed { pos: Vec2I { x: 10, y: 20 }, heading: 30_000 },
        AgentSeed { pos: Vec2I { x: -10, y: -20 }, heading: 330_000 },
    ];
    let store = AgentStore::initialize(&seeds);
    assert_eq!(store.len(), 2);
    let a = store.agent(0);
    assert_eq!(a.id, 0);
    assert_eq!(a.pos.x, 10);
    assert_eq!(a.heading, 30_000);
    assert_eq!(a.target_heading, 30_000);
    assert!(!a.is_leader);
    let b = store.agent(1);
    assert_eq!(b.id, 1);
    assert_eq!(b.heading, 330_000);
}

#[test]
fn leader_flag_is_display_only() {
    // Two identical stores, one with a leader: a tick moves both the
    // same way.
    let seeds = vec![
        AgentSeed { pos: Vec2I { x: 0, y: 0 }, heading: 0 },
        AgentSeed { pos: Vec2I { x: 5_000, y: 0 }, heading: 90_000 },
    ];
    let mut plain = AgentStore::initialize(&seeds);
    let mut marked = AgentStore::initialize(&seeds);
    marked.set_leader(0, true);
    let cfg = stock();
    tick(&mut plain, &cfg, 16, 1_900_000, 1_000_000);
    tick(&mut marked, &cfg, 16, 1_900_000, 1_000_000);
    for i in 0..2usize {
        let p = plain.agent(i);
        let m = marked.agent(i);
        assert_eq!(p.pos.x, m.pos.x);
        assert_eq!(p.pos.y, m.pos.y);
        assert_eq!(p.heading, m.heading);
        assert_eq!(p.target_heading, m.target_heading);
    }
    assert!(marked.agent(0).is_leader);
    assert!(!plain.agent(0).is_leader);
}

#[test]
fn empty_population_tick_is_clean() {
    let mut store = AgentStore::initialize(&Vec::new());
    let cfg = stock();
    tick(&mut store, &cfg, 16, 1_900_000, 1_000_000);
    assert_eq!(store.len(), 0);
}

#[test]
fn isolated_agent_target_survives_a_tick() {
    let seeds = vec![AgentSeed { pos: Vec2I { x: 0, y: 0 }, heading: 45_000 }];
    let mut store = AgentStore::initialize(&seeds);
    let cfg = stock();
    tick(&mut store, &cfg, 16, 1_900_000, 1_000_000);
    let a = store.agent(0);
    assert_eq!(a.target_heading, 45_000);
    assert_eq!(a.heading, 45_000);
}

#[test]
fn tick_keeps_agents_inside_the_world() {
    let seeds: Vec<AgentSeed> = (0..50i64)
        .map(|i| AgentSeed {
            pos: Vec2I { x: (i * 37_777) % 950_000, y: (i * 61_111) % 500_000 },
            heading: (i * 7_001) % 360_000,
        })
        .collect();
    let mut store = AgentStore::initialize(&seeds);
    let cfg = stock();
    for _ in 0..20 {
        tick(&mut store, &cfg, 16, 1_900_000, 1_000_000);
    }
    for i in 0..store.len() {
        let a = store.agent(i);
        assert!(a.pos.x >= -950_000 && a.pos.x <= 950_000);
        assert!(a.pos.y >= -500_000 && a.pos.y <= 500_000);
        assert!(a.heading >= 0 && a.heading < 360_000);
        assert!(a.target_heading >= 0 && a.target_heading < 360_000);
        assert_eq!(a.id, i);
    }
}

#[test]
fn tick_is_deterministic() {
    let seeds = vec![
        AgentSeed { pos: Vec2I { x: 0, y: 0 }, heading: 0 },
        AgentSeed { pos: Vec2I { x: 3_000, y: 4_000 }, heading: 120_000 },
        AgentSeed { pos: Vec2I { x: -8_000, y: 2_000 }, heading: 240_000 },
    ];
    let mut first = AgentStore::initialize(&seeds);
    let mut second = AgentStore::initialize(&seeds);
    let cfg = stock();
    for _ in 0..10 {
        tick(&mut first, &cfg, 16, 1_900_000, 1_000_000);
        tick(&mut second, &cfg, 16, 1_900_000, 1_000_000);
    }
    for i in 0..3usize {
        let a = first.agent(i);
        let b = second.agent(i);
        assert_eq!(a.pos.x, b.pos.x);
        assert_eq!(a.pos.y, b.pos.y);
        assert_eq!(a.heading, b.heading);
        assert_eq!(a.target_heading, b.target_heading);
    }
}

#[test]
fn negative_dt_tick_is_a_full_no_op() {
    let seeds = vec![
        AgentSeed { pos: Vec2I { x: 0, y: 0 }, heading: 10_000 },
        AgentSeed { pos: Vec2I { x: 2_000, y: 0 }, heading: 20_000 },
    ];
    let mut store = AgentStore::initialize(&seeds);
    let cfg = stock();
    tick(&mut store, &cfg, -16, 1_900_000, 1_000_000);
    for i in 0..2usize {
        let a = store.agent(i);
        assert_eq!(a.heading, ((i as i64) + 1) * 10_000);
        assert_eq!(a.target_heading, a.heading);
    }
    assert_eq!(store.agent(1).pos.x, 2_000);
}

#[test]
fn zero_dt_tick_only_steers() {
    // With dt = 0 the integrator is a no-op: positions and headings stay,
    // only target headings may change.
    let seeds = vec![
        AgentSeed { pos: Vec2I { x: 0, y: 0 }, heading: 0 },
        AgentSeed { pos: Vec2I { x: 2_000, y: 0 }, heading: 0 },
    ];
    let mut store = AgentStore::initialize(&seeds);
    let cfg = stock();
    tick(&mut store, &cfg, 0, 1_900_000, 1_000_000);
    let a = store.agent(0);
    assert_eq!(a.pos.x, 0);
    assert_eq!(a.pos.y, 0);
    assert_eq!(a.heading, 0);
}
