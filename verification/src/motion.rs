//! The motion integrator: each tick every agent's heading rotates toward
//! its target heading by the configured fraction of the remaining angular
//! difference — never a snap — and its position advances along the new
//! heading at the configured speed, scaled by the elapsed time. A zero or
//! negative elapsed time leaves every agent unmoved.

use vstd::prelude::*;
use crate::agents::{store_wf, Agent, AgentStore};
use crate::angles::{ang_delta, delta_md, valid_angle, wrap_angle, wrapped, ANG_HALF};
use crate::config::{SimulationConfig, SMOOTH_SCALE};
use crate::math::floor_div;
use crate::trig::{cos_fp, cos_md, sin_fp, sin_md};
use crate::vec2::Vec2I;

verus! {

/// Largest accepted elapsed time per tick, in milliseconds.
pub const MAX_DT: i64 = 600_000;

/// Coordinates stay within this bound right after integration, before the
/// boundary wrap runs.
pub const MAX_COORD_AFTER: i64 = 7_000_000_000;

/// The signed rotation taken in one smoothing step: the fraction
/// `smoothing / SMOOTH_SCALE` of the remaining difference `d`, rounded
/// toward zero.
pub open spec fn step_amount(d: int, smoothing: int) -> int {
    if d >= 0 {
        (d * smoothing) / (SMOOTH_SCALE as int)
    } else {
        -((-d * smoothing) / (SMOOTH_SCALE as int))
    }
}

/// The heading after one smoothing step from `h` toward `t`.
pub open spec fn smoothed(h: int, t: int, smoothing: int) -> int {
    wrapped(h + step_amount(delta_md(h, t), smoothing))
}

/// The smoothing step keeps the sign of the remaining difference and
/// never exceeds it in magnitude; it is exactly the scaled fraction,
/// rounded toward zero.
pub proof fn lemma_step_amount_bounds(d: int, smoothing: int)
    requires
        -ANG_HALF < d <= ANG_HALF,
        0 < smoothing <= SMOOTH_SCALE,
    ensures
        d >= 0 ==> 0 <= step_amount(d, smoothing) <= d,
        d < 0 ==> d <= step_amount(d, smoothing) <= 0,
{
    let m = if d >= 0 {
        d
    } else {
        -d
    };
    let q = (m * smoothing) / (SMOOTH_SCALE as int);
    assert(0 <= m * smoothing <= m * 1000) by (nonlinear_arith)
        requires
            0 <= m,
            0 < smoothing <= 1000,
    ;
    vstd::arithmetic::div_mod::lemma_div_is_ordered(0, m * smoothing, 1000);
    vstd::arithmetic::div_mod::lemma_div_is_ordered(m * smoothing, m * 1000, 1000);
    assert(m * 1000 == 1000 * m) by (nonlinear_arith);
    vstd::arithmetic::div_mod::lemma_div_multiples_vanish(m, 1000);
    assert(0 <= q <= m);
}

/// Smoothing boundedness: one integrator step turns the heading by
/// exactly the configured fraction of the angular difference to the
/// target, so the turn taken never exceeds that difference (no
/// overshoot), and the difference that remains keeps its sign and shrinks.
pub proof fn lemma_smoothing_bounded(h: int, t: int, smoothing: int)
    requires
        valid_angle(h),
        valid_angle(t),
        0 < smoothing <= SMOOTH_SCALE,
    ensures
        valid_angle(smoothed(h, t, smoothing)),
        delta_md(h, smoothed(h, t, smoothing)) == step_amount(delta_md(h, t), smoothing),
        delta_md(h, t) >= 0 ==> 0 <= delta_md(h, smoothed(h, t, smoothing)) <= delta_md(h, t),
        delta_md(h, t) < 0 ==> delta_md(h, t) <= delta_md(h, smoothed(h, t, smoothing)) <= 0,
        delta_md(smoothed(h, t, smoothing), t) == delta_md(h, t) - step_amount(
            delta_md(h, t),
            smoothing,
        ),
{
    let d = delta_md(h, t);
    lemma_step_amount_bounds(d, smoothing);
    let s = step_amount(d, smoothing);
    let nh = smoothed(h, t, smoothing);
    assert(nh == wrapped(h + s));
    assert(valid_angle(nh));
    assert(delta_md(h, nh) == s);
    assert(delta_md(nh, t) == d - s);
}

/// Agent `a` after one integration step with elapsed time `dt`
/// milliseconds: the heading turns toward the target by the smoothing
/// fraction, then the position advances along the new heading. A
/// non-positive `dt` changes nothing.
pub open spec fn integrated_agent(a: Agent, cfg: SimulationConfig, dt: int) -> Agent {
    if dt <= 0 {
        a
    } else {
        let nh = smoothed(a.heading as int, a.target_heading as int, cfg.turn_smoothing as int);
        Agent {
            heading: nh as i64,
            pos: Vec2I {
                x: (a.pos.x + (cos_md(nh) * cfg.speed * dt) / 1_000_000) as i64,
                y: (a.pos.y + (sin_md(nh) * cfg.speed * dt) / 1_000_000) as i64,
            },
            ..a
        }
    }
}

/// One smoothing step of the heading alone.
pub fn integrate_heading(h: i64, t: i64, smoothing: i64) -> (nh: i64)
    requires
        valid_angle(h as int),
        valid_angle(t as int),
        0 < smoothing <= SMOOTH_SCALE,
    ensures
        nh == smoothed(h as int, t as int, smoothing as int),
        valid_angle(nh as int),
{
    let d = ang_delta(h, t);
    proof {
        lemma_step_amount_bounds(d as int, smoothing as int);
    }
    let m: i64 = if d >= 0 {
        d
    } else {
        -d
    };
    let sm = (((m as u64) * (smoothing as u64)) / (SMOOTH_SCALE as u64)) as i64;
    let step: i64 = if d >= 0 {
        sm
    } else {
        -sm
    };
    wrap_angle(h + step)
}

/// The signed advance of one coordinate: direction component times speed
/// times elapsed time, scaled back to milli-units.
fn advance_amount(trig: i64, speed: i64, dt: i64) -> (r: i64)
    requires
        -1000 <= trig <= 1000,
        0 <= speed <= 10_000_000,
        0 < dt <= MAX_DT,
    ensures
        r == (trig * speed * dt) / 1_000_000,
        -6_000_000_000 <= r <= 6_000_000_000,
{
    proof {
        assert(-10_000_000_000 <= trig as int * speed as int <= 10_000_000_000)
            by (nonlinear_arith)
            requires
                -1000 <= trig <= 1000,
                0 <= speed <= 10_000_000,
        ;
        assert(-6_000_000_000_000_000 <= trig as int * speed as int * dt as int
            <= 6_000_000_000_000_000) by (nonlinear_arith)
            requires
                -10_000_000_000 <= trig as int * speed as int <= 10_000_000_000,
                0 < dt <= 600_000,
        ;
    }
    let t1 = trig * speed;
    let t2 = t1 * dt;
    proof {
        vstd::arithmetic::div_mod::lemma_div_is_ordered(
            -6_000_000_000_000_000,
            t2 as int,
            1_000_000,
        );
        vstd::arithmetic::div_mod::lemma_div_is_ordered(
            t2 as int,
            6_000_000_000_000_000,
            1_000_000,
        );
        assert((-6_000_000_000_000_000) / 1_000_000 == -6_000_000_000int);
        assert(6_000_000_000_000_000int / 1_000_000 == 6_000_000_000int);
    }
    floor_div(t2, 1_000_000)
}

/// Integrate one agent.
fn integrate_one(a: &Agent, cfg: &SimulationConfig, dt: i64) -> (r: Agent)
    requires
        a.wf(),
        cfg.wf(),
        dt <= MAX_DT,
    ensures
        r == integrated_agent(*a, *cfg, dt as int),
        valid_angle(r.heading as int),
        valid_angle(r.target_heading as int),
        -MAX_COORD_AFTER <= r.pos.x <= MAX_COORD_AFTER,
        -MAX_COORD_AFTER <= r.pos.y <= MAX_COORD_AFTER,
        r.id == a.id,
{
    if dt <= 0 {
        return *a;
    }
    let nh = integrate_heading(a.heading, a.target_heading, cfg.turn_smoothing);
    let dx = advance_amount(cos_fp(nh), cfg.speed, dt);
    let dy = advance_amount(sin_fp(nh), cfg.speed, dt);
    Agent { heading: nh, pos: Vec2I { x: a.pos.x + dx, y: a.pos.y + dy }, ..*a }
}

/// One integration pass over the whole population: every agent's heading
/// rotates a bounded step toward its target and its position advances
/// along the new heading; ids, targets and flags are untouched. With
/// `dt <= 0` the store is unchanged.
pub fn step(store: &mut AgentStore, cfg: &SimulationConfig, dt: i64)
    requires
        cfg.wf(),
        store_wf(old(store)@),
        dt <= MAX_DT,
    ensures
        final(store)@.len() == old(store)@.len(),
        forall|i: int|
            0 <= i < old(store)@.len() ==> final(store)@[i] == integrated_agent(
                old(store)@[i],
                *cfg,
                dt as int,
            ),
        forall|i: int|
            0 <= i < final(store)@.len() ==> {
                let a = #[trigger] final(store)@[i];
                &&& valid_angle(a.heading as int)
                &&& valid_angle(a.target_heading as int)
                &&& -MAX_COORD_AFTER <= a.pos.x <= MAX_COORD_AFTER
                &&& -MAX_COORD_AFTER <= a.pos.y <= MAX_COORD_AFTER
            },
{
    let ghost agents0 = old(store)@;
    let n = store.len();
    for i in 0..n
        invariant
            n == agents0.len(),
            store@.len() == agents0.len(),
            cfg.wf(),
            dt <= MAX_DT,
            store_wf(agents0),
            forall|j: int| i <= j < agents0.len() ==> store@[j] == agents0[j],
            forall|j: int|
                0 <= j < i ==> store@[j] == integrated_agent(agents0[j], *cfg, dt as int),
            forall|j: int|
                0 <= j < i ==> {
                    let a = #[trigger] store@[j];
                    &&& valid_angle(a.heading as int)
                    &&& valid_angle(a.target_heading as int)
                    &&& -MAX_COORD_AFTER <= a.pos.x <= MAX_COORD_AFTER
                    &&& -MAX_COORD_AFTER <= a.pos.y <= MAX_COORD_AFTER
                },
    {
        let a = store.agent(i);
        proof {
            assert(a == agents0[i as int]);
            assert(agents0[i as int].wf());
        }
        let r = integrate_one(&a, cfg, dt);
        store.set_agent(i, r);
    }
}

} // verus!
