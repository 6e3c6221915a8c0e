//! Integration and boundary wrap: smoothing boundedness, the no-op tick,
//! and the teleport to the opposite edge.

use boid_sim::agents::{AgentSeed, AgentStore};
use boid_sim::bounds;
use boid_sim::config::SimulationConfig;
use boid_sim::motion;
use boid_sim::vec2::Vec2I;

fn config(speed: i64, smoothing: i64) -> SimulationConfig {
    SimulationConfig {
        separation_weight: 1500,
        alignment_weight: 1000,
        cohesion_weight: 500,
        speed,
        turn_smoothing: smoothing,
        cell_size: 25_000,
        view_radius: Some(25_000),
    }
}

#[test]
fn heading_turns_by_the_smoothing_fraction() {
    assert_eq!(motion::integrate_heading(0, 100_000, 500), 50_000);
    assert_eq!(motion::integrate_heading(0, 100_000, 1000), 100_000);
    assert_eq!(motion::integrate_heading(0, 100_000, 50), 5_000);
}

#[test]
fn heading_never_overshoots() {
    // One full-snap step lands exactly on the target; smaller fractions
    // land strictly between.
    let h = motion::integrate_heading(10_000, 20_000, 700);
    assert_eq!(h, 17_000);
    assert!(h <= 20_000);
    let again = motion::integrate_heading(h, 20_000, 1000);
    assert_eq!(again, 20_000);
}

#[test]
fn heading_takes_the_short_way_around() {
    // From 350 degrees toward 10 degrees the short way is +20 degrees.
    assert_eq!(motion::integrate_heading(350_000, 10_000, 500), 0);
    assert_eq!(motion::integrate_heading(350_000, 10_000, 1000), 10_000);
    // From 10 degrees toward 350 degrees: backwards through zero.
    assert_eq!(motion::integrate_heading(10_000, 350_000, 500), 0);
}

#[test]
fn position_advances_along_heading() {
    // Heading +x, 160 units per second, 1000 ms: 160 units = 160000
    // milli-units.
    let seeds = vec![AgentSeed { pos: Vec2I { x: 0, y: 0 }, heading: 0 }];
    let mut store = AgentStore::initialize(&seeds);
    let cfg = config(160_000, 50);
    motion::step(&mut store, &cfg, 1000);
    let a = store.agent(0);
    assert_eq!(a.pos.x, 160_000);
    assert_eq!(a.pos.y, 0);
    assert_eq!(a.heading, 0);
}

#[test]
fn zero_and_negative_dt_are_no_ops() {
    let seeds = vec![AgentSeed { pos: Vec2I { x: 1_234, y: -5_678 }, heading: 42_000 }];
    let mut store = AgentStore::initialize(&seeds);
    let cfg = config(160_000, 500);
    motion::step(&mut store, &cfg, 0);
    let a = store.agent(0);
    assert_eq!(a.pos.x, 1_234);
    assert_eq!(a.pos.y, -5_678);
    assert_eq!(a.heading, 42_000);
    motion::step(&mut store, &cfg, -16);
    let b = store.agent(0);
    assert_eq!(b.pos.x, 1_234);
    assert_eq!(b.heading, 42_000);
}

#[test]
fn wrap_teleports_to_opposite_edge() {
    // World 1900 x 1000 units; an agent just past +w/2 lands exactly on
    // -w/2.
    let seeds = vec![
        AgentSeed { pos: Vec2I { x: 950_001, y: 0 }, heading: 0 },
        AgentSeed { pos: Vec2I { x: -950_001, y: 0 }, heading: 0 },
        AgentSeed { pos: Vec2I { x: 0, y: 500_001 }, heading: 0 },
        AgentSeed { pos: Vec2I { x: 0, y: -500_001 }, heading: 0 },
    ];
    let mut store = AgentStore::initialize(&seeds);
    bounds::apply(&mut store, 1_900_000, 1_000_000);
    assert_eq!(store.agent(0).pos.x, -950_000);
    assert_eq!(store.agent(1).pos.x, 950_000);
    assert_eq!(store.agent(2).pos.y, -500_000);
    assert_eq!(store.agent(3).pos.y, 500_000);
}

#[test]
fn wrap_leaves_in_bounds_agents_alone() {
    let seeds = vec![
        AgentSeed { pos: Vec2I { x: 950_000, y: -500_000 }, heading: 0 },
        AgentSeed { pos: Vec2I { x: -950_000, y: 500_000 }, heading: 0 },
        AgentSeed { pos: Vec2I { x: 123, y: 456 }, heading: 0 },
    ];
    let mut store = AgentStore::initialize(&seeds);
    bounds::apply(&mut store, 1_900_000, 1_000_000);
    assert_eq!(store.agent(0).pos.x, 950_000);
    assert_eq!(store.agent(0).pos.y, -500_000);
    assert_eq!(store.agent(1).pos.x, -950_000);
    assert_eq!(store.agent(1).pos.y, 500_000);
    assert_eq!(store.agent(2).pos.x, 123);
    assert_eq!(store.agent(2).pos.y, 456);
}

#[test]
fn wrap_is_idempotent() {
    let seeds = vec![AgentSeed { pos: Vec2I { x: 999_999, y: 999_999 }, heading: 0 }];
    let mut store = AgentStore::initialize(&seeds);
    bounds::apply(&mut store, 1_900_000, 1_000_000);
    let once = store.agent(0);
    bounds::apply(&mut store, 1_900_000, 1_000_000);
    let twice = store.agent(0);
    assert_eq!(once.pos.x, twice.pos.x);
    assert_eq!(once.pos.y, twice.pos.y);
}

#[test]
fn wrap_touches_only_positions() {
    let seeds = vec![AgentSeed { pos: Vec2I { x: 2_000_000, y: 0 }, heading: 77_000 }];
    let mut store = AgentStore::initialize(&seeds);
    store.set_leader(0, true);
    bounds::apply(&mut store, 1_900_000, 1_000_000);
    let a = store.agent(0);
    assert_eq!(a.heading, 77_000);
    assert_eq!(a.target_heading, 77_000);
    assert!(a.is_leader);
    assert_eq!(a.pos.x, -950_000);
}

#[test]
fn smoothing_is_bounded_by_the_fraction() {
    // Over a sweep of headings and targets, the turn taken never exceeds
    // the fraction of the angular difference, and never overshoots.
    let fractions = [1, 50, 250, 500, 999, 1000];
    let mut h: i64 = 0;
    while h < 360_000 {
        let mut t: i64 = 0;
        while t < 360_000 {
            for &s in fractions.iter() {
                let d = boid_sim::angles::ang_delta(h, t);
                let nh = motion::integrate_heading(h, t, s);
                let moved = boid_sim::angles::ang_delta(h, nh);
                let remaining = boid_sim::angles::ang_delta(nh, t);
                assert_eq!(moved + remaining, d);
                assert!(moved.abs() <= (d.abs() * s) / 1000);
                assert!(remaining.abs() <= d.abs());
                assert!(moved.signum() * d.signum() >= 0);
            }
            t += 47_719;
        }
        h += 53_431;
    }
}
