//! The flocking engine: for each agent, look up the 3x3 cell block around
//! it, drop the agent itself (and, if configured, every record beyond the
//! exact view radius), average the separation, alignment and cohesion
//! contributions, blend them with the configured weights and store the
//! blended direction's angle as the agent's new target heading. An agent
//! with no visible neighbors, or whose blended direction vanishes, keeps
//! its previous target heading.

use vstd::prelude::*;
use crate::agents::{pos_in_budget, store_wf, Agent, AgentStore, MAX_COORD, MAX_POP};
use crate::angles::valid_angle;
use crate::config::{SimulationConfig, WEIGHT_SCALE};
use crate::grid::{
    block_model, cell_of, lemma_block_elem_within, lemma_block_of_models, lemma_bucket_len_le,
    lemma_cell_of_budget, GridRec, SpatialHashGrid,
};
use crate::math::floor_div;
use crate::trig::{atan2_md, cos_md, sin_md, atan2_fp, cos_fp, sin_fp, TRIG_SCALE};
use crate::vec2::{len2_of, norm_x, norm_y, Vec2I};

verus! {

/// Whether the record `r` counts as a visible neighbor of `own`: it is
/// another agent, and inside the exact view radius when one is configured.
pub open spec fn visible(own: Agent, r: GridRec, view_radius: Option<i64>) -> bool {
    &&& r.id != own.id
    &&& match view_radius {
        Some(v) => len2_of(
            own.pos.x - r.pos.x,
            own.pos.y - r.pos.y,
        ) < v * v,
        None => true,
    }
}

/// The visible neighbors of `own` among `block`, in block order.
pub open spec fn filtered(own: Agent, block: Seq<GridRec>, view_radius: Option<i64>) -> Seq<GridRec>
    decreases block.len(),
{
    if block.len() == 0 {
        Seq::empty()
    } else {
        let prefix = filtered(own, block.drop_last(), view_radius);
        if visible(own, block.last(), view_radius) {
            prefix.push(block.last())
        } else {
            prefix
        }
    }
}

/// Self-exclusion: an agent never appears in its own filtered neighbor
/// set, whatever the block holds.
pub proof fn lemma_self_excluded(own: Agent, block: Seq<GridRec>, view_radius: Option<i64>)
    ensures
        forall|k: int|
            0 <= k < filtered(own, block, view_radius).len() ==> (#[trigger] filtered(
                own,
                block,
                view_radius,
            )[k]).id != own.id,
    decreases block.len(),
{
    if block.len() > 0 {
        lemma_self_excluded(own, block.drop_last(), view_radius);
        let prefix = filtered(own, block.drop_last(), view_radius);
        assert forall|k: int| 0 <= k < filtered(own, block, view_radius).len() implies (
        #[trigger] filtered(own, block, view_radius)[k]).id != own.id by {
            if k < prefix.len() {
                assert(filtered(own, block, view_radius)[k] == prefix[k]);
            } else {
                assert(filtered(own, block, view_radius)[k] == block.last());
                assert(visible(own, block.last(), view_radius));
            }
        }
    }
}

/// The running vector sums over a neighbor set: separation unit vectors,
/// alignment direction vectors, and raw positions.
pub ghost struct ForceSums {
    /// Sum of unit vectors pointing from each neighbor to the agent.
    pub sep_x: int,
    /// Its y component.
    pub sep_y: int,
    /// Sum of the neighbors' heading direction vectors.
    pub align_x: int,
    /// Its y component.
    pub align_y: int,
    /// Sum of the neighbors' positions.
    pub pos_x: int,
    /// Its y component.
    pub pos_y: int,
}

/// The sums over the first `ns.len()` neighbors, accumulated in order.
pub open spec fn force_sums(own: Vec2I, ns: Seq<GridRec>) -> ForceSums
    decreases ns.len(),
{
    if ns.len() == 0 {
        ForceSums { sep_x: 0, sep_y: 0, align_x: 0, align_y: 0, pos_x: 0, pos_y: 0 }
    } else {
        let p = force_sums(own, ns.drop_last());
        let r = ns.last();
        ForceSums {
            sep_x: p.sep_x + norm_x(own.x - r.pos.x, own.y - r.pos.y),
            sep_y: p.sep_y + norm_y(own.x - r.pos.x, own.y - r.pos.y),
            align_x: p.align_x + cos_md(r.heading as int),
            align_y: p.align_y + sin_md(r.heading as int),
            pos_x: p.pos_x + r.pos.x,
            pos_y: p.pos_y + r.pos.y,
        }
    }
}

/// Extending the neighbor set by one record adds exactly its
/// contributions.
pub proof fn lemma_force_sums_step(own: Vec2I, ns: Seq<GridRec>, k: int)
    requires
        0 <= k < ns.len(),
    ensures
        force_sums(own, ns.take(k + 1)) == ({
            let p = force_sums(own, ns.take(k));
            let r = ns[k];
            ForceSums {
                sep_x: p.sep_x + norm_x(own.x - r.pos.x, own.y - r.pos.y),
                sep_y: p.sep_y + norm_y(own.x - r.pos.x, own.y - r.pos.y),
                align_x: p.align_x + cos_md(r.heading as int),
                align_y: p.align_y + sin_md(r.heading as int),
                pos_x: p.pos_x + r.pos.x,
                pos_y: p.pos_y + r.pos.y,
            }
        }),
{
    assert(ns.take(k + 1).drop_last() =~= ns.take(k));
    assert(ns.take(k + 1).last() == ns[k]);
}

/// A 2D vector of unbounded integers, for stating force directions.
pub ghost struct V2 {
    /// x component.
    pub x: int,
    /// y component.
    pub y: int,
}

/// The separation direction: the unit vector along the average of the
/// neighbor-to-agent unit vectors, or zero when that average vanishes.
pub open spec fn sep_dir(own: Vec2I, ns: Seq<GridRec>) -> V2
    recommends
        ns.len() >= 1,
{
    let s = force_sums(own, ns);
    let n = ns.len() as int;
    V2 { x: norm_x(s.sep_x / n, s.sep_y / n), y: norm_y(s.sep_x / n, s.sep_y / n) }
}

/// The alignment direction: the unit vector along the average neighbor
/// heading vector, or zero when the headings cancel.
pub open spec fn align_dir(own: Vec2I, ns: Seq<GridRec>) -> V2
    recommends
        ns.len() >= 1,
{
    let s = force_sums(own, ns);
    let n = ns.len() as int;
    V2 { x: norm_x(s.align_x / n, s.align_y / n), y: norm_y(s.align_x / n, s.align_y / n) }
}

/// The cohesion direction: the unit vector from the agent toward the
/// neighbors' centroid, or zero when the agent sits on the centroid.
pub open spec fn coh_dir(own: Vec2I, ns: Seq<GridRec>) -> V2
    recommends
        ns.len() >= 1,
{
    let s = force_sums(own, ns);
    let n = ns.len() as int;
    V2 { x: norm_x(s.pos_x / n - own.x, s.pos_y / n - own.y), y: norm_y(
        s.pos_x / n - own.x,
        s.pos_y / n - own.y,
    ) }
}

/// The blended desired direction: the weighted sum of the three unit
/// directions, at unit scale.
pub open spec fn desired_dir(own: Vec2I, ns: Seq<GridRec>, cfg: SimulationConfig) -> V2
    recommends
        ns.len() >= 1,
{
    let s = sep_dir(own, ns);
    let a = align_dir(own, ns);
    let c = coh_dir(own, ns);
    V2 {
        x: (cfg.separation_weight as int * s.x + cfg.alignment_weight as int * a.x
            + cfg.cohesion_weight as int * c.x) / (WEIGHT_SCALE as int),
        y: (cfg.separation_weight as int * s.y + cfg.alignment_weight as int * a.y
            + cfg.cohesion_weight as int * c.y) / (WEIGHT_SCALE as int),
    }
}

/// The target heading the steering rule assigns to `own` given its cell
/// block: the angle of the blended direction, or the previous target when
/// the agent is isolated or the blend vanishes.
pub open spec fn steer_target(own: Agent, block: Seq<GridRec>, cfg: SimulationConfig) -> int {
    let ns = filtered(own, block, cfg.view_radius);
    if ns.len() == 0 {
        own.target_heading as int
    } else {
        let d = desired_dir(own.pos, ns, cfg);
        if d.x * d.x + d.y * d.y > 0 {
            atan2_md(d.y, d.x)
        } else {
            own.target_heading as int
        }
    }
}

/// Empty-neighborhood stability: an agent whose filtered neighbor set is
/// empty keeps its target heading.
pub proof fn lemma_empty_neighborhood_stable(
    own: Agent,
    block: Seq<GridRec>,
    cfg: SimulationConfig,
)
    requires
        filtered(own, block, cfg.view_radius).len() == 0,
    ensures
        steer_target(own, block, cfg) == own.target_heading as int,
{
}

/// Zero-weight idempotence: with all three steering weights zero the
/// target heading is never altered, whatever the neighbors are.
pub proof fn lemma_zero_weights_stable(own: Agent, block: Seq<GridRec>, cfg: SimulationConfig)
    requires
        cfg.separation_weight == 0,
        cfg.alignment_weight == 0,
        cfg.cohesion_weight == 0,
    ensures
        steer_target(own, block, cfg) == own.target_heading as int,
{
    let ns = filtered(own, block, cfg.view_radius);
    if ns.len() > 0 {
        let d = desired_dir(own.pos, ns, cfg);
        assert(d.x == 0 && d.y == 0);
    }
}

/// Extending the block by one record extends the filtered set exactly
/// when the record is visible.
pub proof fn lemma_filtered_step(
    own: Agent,
    block: Seq<GridRec>,
    k: int,
    view_radius: Option<i64>,
)
    requires
        0 <= k < block.len(),
    ensures
        filtered(own, block.take(k + 1), view_radius) == if visible(own, block[k], view_radius) {
            filtered(own, block.take(k), view_radius).push(block[k])
        } else {
            filtered(own, block.take(k), view_radius)
        },
{
    assert(block.take(k + 1).drop_last() =~= block.take(k));
    assert(block.take(k + 1).last() == block[k]);
}

/// Filtering keeps only records of the block, so their well-formedness
/// carries over.
pub proof fn lemma_filtered_wf(own: Agent, block: Seq<GridRec>, view_radius: Option<i64>)
    requires
        block_recs_wf(block),
    ensures
        block_recs_wf(filtered(own, block, view_radius)),
    decreases block.len(),
{
    if block.len() > 0 {
        assert(block_recs_wf(block.drop_last())) by {
            assert(forall|k: int|
                0 <= k < block.drop_last().len() ==> block.drop_last()[k] == block[k]);
        }
        lemma_filtered_wf(own, block.drop_last(), view_radius);
        let prefix = filtered(own, block.drop_last(), view_radius);
        let f = filtered(own, block, view_radius);
        assert forall|k: int| 0 <= k < f.len() implies pos_in_budget((#[trigger] f[k]).pos)
            && valid_angle(f[k].heading as int) by {
            if k < prefix.len() {
                assert(f[k] == prefix[k]);
            } else {
                assert(f[k] == block.last());
                assert(block.last() == block[block.len() - 1]);
            }
        }
    }
}

/// An average of `n` values each within `[-b, b]` is within `[-b, b]`.
proof fn lemma_avg_bound(s: int, n: int, b: int)
    requires
        n >= 1,
        b >= 0,
        -b * n <= s <= b * n,
    ensures
        -b <= s / n <= b,
{
    assert(-b * n == n * -b && b * n == n * b) by (nonlinear_arith);
    vstd::arithmetic::div_mod::lemma_div_is_ordered(-b * n, s, n);
    vstd::arithmetic::div_mod::lemma_div_is_ordered(s, b * n, n);
    vstd::arithmetic::div_mod::lemma_div_multiples_vanish(-b, n);
    vstd::arithmetic::div_mod::lemma_div_multiples_vanish(b, n);
}

/// The three unit force directions, their weighted blend, and the visible
/// neighbor count, for one agent and one cell block.
#[derive(Clone, Copy, PartialEq, Eq, Structural, Debug)]
pub struct SteeringForces {
    /// Unit vector away from the neighbors (average of neighbor-to-agent
    /// unit vectors, re-normalized), or zero.
    pub separation: Vec2I,
    /// Unit vector along the average neighbor heading, or zero.
    pub alignment: Vec2I,
    /// Unit vector toward the neighbors' centroid, or zero.
    pub cohesion: Vec2I,
    /// The weighted blend of the three, at unit scale.
    pub desired: Vec2I,
    /// How many neighbors passed the identity and radius filters.
    pub neighbors: usize,
}

/// Whether every record of a block is geometrically usable: position in
/// budget and heading normalized.
pub open spec fn block_recs_wf(block: Seq<GridRec>) -> bool {
    forall|k: int|
        0 <= k < block.len() ==> pos_in_budget((#[trigger] block[k]).pos) && valid_angle(
            block[k].heading as int,
        )
}

/// The six running sums, as machine integers.
struct SumAcc {
    sep_x: i64,
    sep_y: i64,
    align_x: i64,
    align_y: i64,
    pos_x: i64,
    pos_y: i64,
}

/// Filter a cell block down to the visible neighbors of `own`.
fn filter_visible(own: &Agent, block: &Vec<GridRec>, cfg: &SimulationConfig) -> (ns: Vec<GridRec>)
    requires
        own.wf(),
        cfg.wf(),
        block_recs_wf(block@),
    ensures
        ns@ == filtered(*own, block@, cfg.view_radius),
        ns@.len() <= block@.len(),
{
    let m = block.len();
    let mut ns: Vec<GridRec> = Vec::new();
    for k in 0..m
        invariant
            m == block@.len(),
            own.wf(),
            cfg.wf(),
            block_recs_wf(block@),
            ns@ == filtered(*own, block@.take(k as int), cfg.view_radius),
            ns@.len() <= k,
    {
        proof {
            lemma_filtered_step(*own, block@, k as int, cfg.view_radius);
        }
        let r = block[k];
        let passes = if r.id != own.id {
            match cfg.view_radius {
                Some(v) => {
                    let dx = own.pos.x - r.pos.x;
                    let dy = own.pos.y - r.pos.y;
                    proof {
                        crate::vec2::lemma_len2_bound(dx as int, dy as int);
                        assert(v as int * v as int <= 1_000_000_000_000_000_000)
                            by (nonlinear_arith)
                            requires
                                0 <= v <= MAX_COORD,
                        ;
                    }
                    dx * dx + dy * dy < v * v
                },
                None => true,
            }
        } else {
            false
        };
        if passes {
            ns.push(r);
        }
    }
    proof {
        assert(block@.take(m as int) =~= block@);
    }
    ns
}

/// Accumulate the three vector sums over a neighbor set.
fn accumulate_sums(own: &Agent, ns: &Vec<GridRec>) -> (s: SumAcc)
    requires
        own.wf(),
        block_recs_wf(ns@),
        ns@.len() <= 9 * MAX_POP,
    ensures
        s.sep_x == force_sums(own.pos, ns@).sep_x,
        s.sep_y == force_sums(own.pos, ns@).sep_y,
        s.align_x == force_sums(own.pos, ns@).align_x,
        s.align_y == force_sums(own.pos, ns@).align_y,
        s.pos_x == force_sums(own.pos, ns@).pos_x,
        s.pos_y == force_sums(own.pos, ns@).pos_y,
        -1000 * (ns@.len() as int) <= s.sep_x <= 1000 * (ns@.len() as int),
        -1000 * (ns@.len() as int) <= s.sep_y <= 1000 * (ns@.len() as int),
        -1000 * (ns@.len() as int) <= s.align_x <= 1000 * (ns@.len() as int),
        -1000 * (ns@.len() as int) <= s.align_y <= 1000 * (ns@.len() as int),
        -1_000_000_000 * (ns@.len() as int) <= s.pos_x <= 1_000_000_000 * (ns@.len() as int),
        -1_000_000_000 * (ns@.len() as int) <= s.pos_y <= 1_000_000_000 * (ns@.len() as int),
{
    let count = ns.len();
    let mut acc = SumAcc { sep_x: 0, sep_y: 0, align_x: 0, align_y: 0, pos_x: 0, pos_y: 0 };
    for k in 0..count
        invariant
            count == ns@.len(),
            ns@.len() <= 9 * MAX_POP,
            own.wf(),
            block_recs_wf(ns@),
            acc.sep_x == force_sums(own.pos, ns@.take(k as int)).sep_x,
            acc.sep_y == force_sums(own.pos, ns@.take(k as int)).sep_y,
            acc.align_x == force_sums(own.pos, ns@.take(k as int)).align_x,
            acc.align_y == force_sums(own.pos, ns@.take(k as int)).align_y,
            acc.pos_x == force_sums(own.pos, ns@.take(k as int)).pos_x,
            acc.pos_y == force_sums(own.pos, ns@.take(k as int)).pos_y,
            -1000 * (k as int) <= acc.sep_x <= 1000 * (k as int),
            -1000 * (k as int) <= acc.sep_y <= 1000 * (k as int),
            -1000 * (k as int) <= acc.align_x <= 1000 * (k as int),
            -1000 * (k as int) <= acc.align_y <= 1000 * (k as int),
            -1_000_000_000 * (k as int) <= acc.pos_x <= 1_000_000_000 * (k as int),
            -1_000_000_000 * (k as int) <= acc.pos_y <= 1_000_000_000 * (k as int),
    {
        proof {
            lemma_force_sums_step(own.pos, ns@, k as int);
            assert(pos_in_budget(ns@[k as int].pos) && valid_angle(ns@[k as int].heading as int));
        }
        let r = ns[k];
        let d = Vec2I { x: own.pos.x - r.pos.x, y: own.pos.y - r.pos.y };
        let u = d.normalize_or_zero();
        acc = SumAcc {
            sep_x: acc.sep_x + u.x,
            sep_y: acc.sep_y + u.y,
            align_x: acc.align_x + cos_fp(r.heading),
            align_y: acc.align_y + sin_fp(r.heading),
            pos_x: acc.pos_x + r.pos.x,
            pos_y: acc.pos_y + r.pos.y,
        };
    }
    proof {
        assert(ns@.take(count as int) =~= ns@);
    }
    acc
}

/// Compute the steering forces of one agent from its cell block: filter
/// the block, average the three contributions, normalize and blend them.
pub fn compute_forces(own: &Agent, block: &Vec<GridRec>, cfg: &SimulationConfig) -> (f:
    SteeringForces)
    requires
        own.wf(),
        cfg.wf(),
        block@.len() <= 9 * MAX_POP,
        block_recs_wf(block@),
    ensures
        f.neighbors == filtered(*own, block@, cfg.view_radius).len(),
        f.neighbors > 0 ==> {
            let ns = filtered(*own, block@, cfg.view_radius);
            &&& f.separation.x == sep_dir(own.pos, ns).x && f.separation.y == sep_dir(
                own.pos,
                ns,
            ).y
            &&& f.alignment.x == align_dir(own.pos, ns).x && f.alignment.y == align_dir(
                own.pos,
                ns,
            ).y
            &&& f.cohesion.x == coh_dir(own.pos, ns).x && f.cohesion.y == coh_dir(own.pos, ns).y
            &&& f.desired.x == desired_dir(own.pos, ns, *cfg).x && f.desired.y == desired_dir(
                own.pos,
                ns,
                *cfg,
            ).y
        },
        f.neighbors == 0 ==> f.desired == (Vec2I { x: 0, y: 0 }),
        -3_000_000 <= f.desired.x <= 3_000_000,
        -3_000_000 <= f.desired.y <= 3_000_000,
{
    let ns = filter_visible(own, block, cfg);
    proof {
        lemma_filtered_wf(*own, block@, cfg.view_radius);
    }
    let count = ns.len();
    if count == 0 {
        return SteeringForces {
            separation: Vec2I { x: 0, y: 0 },
            alignment: Vec2I { x: 0, y: 0 },
            cohesion: Vec2I { x: 0, y: 0 },
            desired: Vec2I { x: 0, y: 0 },
            neighbors: 0,
        };
    }
    let acc = accumulate_sums(own, &ns);
    let n = count as i64;
    proof {
        lemma_avg_bound(acc.sep_x as int, n as int, TRIG_SCALE as int);
        lemma_avg_bound(acc.sep_y as int, n as int, TRIG_SCALE as int);
        lemma_avg_bound(acc.align_x as int, n as int, TRIG_SCALE as int);
        lemma_avg_bound(acc.align_y as int, n as int, TRIG_SCALE as int);
        lemma_avg_bound(acc.pos_x as int, n as int, MAX_COORD as int);
        lemma_avg_bound(acc.pos_y as int, n as int, MAX_COORD as int);
    }
    let sep_avg = Vec2I { x: floor_div(acc.sep_x, n), y: floor_div(acc.sep_y, n) };
    let align_avg = Vec2I { x: floor_div(acc.align_x, n), y: floor_div(acc.align_y, n) };
    let coh_vec = Vec2I {
        x: floor_div(acc.pos_x, n) - own.pos.x,
        y: floor_div(acc.pos_y, n) - own.pos.y,
    };
    let separation = sep_avg.normalize_or_zero();
    let alignment = align_avg.normalize_or_zero();
    let cohesion = coh_vec.normalize_or_zero();
    let desired = blend(&separation, &alignment, &cohesion, cfg);
    SteeringForces { separation, alignment, cohesion, desired, neighbors: count }
}

/// Blend three unit directions with the configured weights, at unit scale.
fn blend(s: &Vec2I, a: &Vec2I, c: &Vec2I, cfg: &SimulationConfig) -> (d: Vec2I)
    requires
        cfg.wf(),
        -TRIG_SCALE <= s.x <= TRIG_SCALE,
        -TRIG_SCALE <= s.y <= TRIG_SCALE,
        -TRIG_SCALE <= a.x <= TRIG_SCALE,
        -TRIG_SCALE <= a.y <= TRIG_SCALE,
        -TRIG_SCALE <= c.x <= TRIG_SCALE,
        -TRIG_SCALE <= c.y <= TRIG_SCALE,
    ensures
        d.x == (cfg.separation_weight as int * s.x + cfg.alignment_weight as int * a.x
            + cfg.cohesion_weight as int * c.x) / (WEIGHT_SCALE as int),
        d.y == (cfg.separation_weight as int * s.y + cfg.alignment_weight as int * a.y
            + cfg.cohesion_weight as int * c.y) / (WEIGHT_SCALE as int),
        -3_000_000 <= d.x <= 3_000_000,
        -3_000_000 <= d.y <= 3_000_000,
{
    proof {
        lemma_weight_term_bound(s.x as int, cfg.separation_weight as int);
        lemma_weight_term_bound(s.y as int, cfg.separation_weight as int);
        lemma_weight_term_bound(a.x as int, cfg.alignment_weight as int);
        lemma_weight_term_bound(a.y as int, cfg.alignment_weight as int);
        lemma_weight_term_bound(c.x as int, cfg.cohesion_weight as int);
        lemma_weight_term_bound(c.y as int, cfg.cohesion_weight as int);
    }
    let bx = cfg.separation_weight * s.x + cfg.alignment_weight * a.x + cfg.cohesion_weight * c.x;
    let by = cfg.separation_weight * s.y + cfg.alignment_weight * a.y + cfg.cohesion_weight * c.y;
    proof {
        lemma_avg_bound(bx as int, WEIGHT_SCALE as int, 3_000_000);
        lemma_avg_bound(by as int, WEIGHT_SCALE as int, 3_000_000);
    }
    Vec2I { x: floor_div(bx, WEIGHT_SCALE), y: floor_div(by, WEIGHT_SCALE) }
}

/// A weight times a unit component stays within one billion.
proof fn lemma_weight_term_bound(u: int, w: int)
    requires
        -1000 <= u <= 1000,
        0 <= w <= 1_000_000,
    ensures
        -1_000_000_000 <= w * u <= 1_000_000_000,
{
    assert(-1_000_000_000 <= w * u <= 1_000_000_000) by (nonlinear_arith)
        requires
            -1000 <= u <= 1000,
            0 <= w <= 1_000_000,
    ;
}

/// The new target heading of one agent, given its cell block: the angle
/// of the blended steering direction, or the previous target when the
/// agent is isolated or the blend vanishes.
pub fn steer_one(own: &Agent, block: &Vec<GridRec>, cfg: &SimulationConfig) -> (t: i64)
    requires
        own.wf(),
        cfg.wf(),
        block@.len() <= 9 * MAX_POP,
        block_recs_wf(block@),
    ensures
        t == steer_target(*own, block@, *cfg),
        valid_angle(t as int),
{
    let f = compute_forces(own, block, cfg);
    if f.neighbors == 0 {
        own.target_heading
    } else {
        let l2 = f.desired.len2();
        if l2 > 0 {
            proof {
                if f.desired.x == 0 && f.desired.y == 0 {
                    assert(len2_of(f.desired.x as int, f.desired.y as int) == 0)
                        by (nonlinear_arith)
                        requires
                            f.desired.x == 0,
                            f.desired.y == 0,
                    ;
                    assert(false);
                }
            }
            atan2_fp(f.desired.y, f.desired.x)
        } else {
            own.target_heading
        }
    }
}

/// The 3x3 block of cells around agent `i`'s own cell.
pub open spec fn agent_block(agents: Seq<Agent>, i: int, cs: int) -> Seq<GridRec> {
    block_model(
        agents,
        cs,
        cell_of(agents[i].pos.x as int, cs),
        cell_of(agents[i].pos.y as int, cs),
    )
}

/// Agent `i` after one steering pass: only its target heading changes, to
/// the steering rule's output on the start-of-tick snapshot.
pub open spec fn stepped_agent(agents: Seq<Agent>, i: int, cfg: SimulationConfig) -> Agent {
    Agent {
        target_heading: steer_target(agents[i], agent_block(agents, i, cfg.cell_size as int), cfg)
            as i64,
        ..agents[i]
    }
}

/// One steering pass over the whole population: every agent's target
/// heading is recomputed from the same start-of-tick grid snapshot;
/// positions, headings and flags are untouched.
pub fn step(store: &mut AgentStore, grid: &SpatialHashGrid, cfg: &SimulationConfig)
    requires
        cfg.wf(),
        store_wf(old(store)@),
        old(store)@.len() <= MAX_POP,
        grid.models(old(store)@, cfg.cell_size as int),
    ensures
        final(store)@.len() == old(store)@.len(),
        forall|i: int|
            0 <= i < old(store)@.len() ==> final(store)@[i] == stepped_agent(
                old(store)@,
                i,
                *cfg,
            ),
        store_wf(final(store)@),
{
    let ghost agents0 = old(store)@;
    let ghost cs = cfg.cell_size as int;
    let n = store.len();
    for i in 0..n
        invariant
            n == agents0.len(),
            store@.len() == agents0.len(),
            cfg.wf(),
            cs == cfg.cell_size as int,
            store_wf(agents0),
            agents0.len() <= MAX_POP,
            grid.models(agents0, cs),
            forall|j: int| i <= j < agents0.len() ==> store@[j] == agents0[j],
            forall|j: int| 0 <= j < i ==> store@[j] == stepped_agent(agents0, j, *cfg),
            forall|j: int| 0 <= j < i ==> (#[trigger] store@[j]).wf() && store@[j].id == j,
    {
        let own = store.agent(i);
        assert(own == agents0[i as int]);
        assert(own.wf());
        let cx = floor_div(own.pos.x, cfg.cell_size);
        let cy = floor_div(own.pos.y, cfg.cell_size);
        proof {
            lemma_cell_of_budget(own.pos.x as int, cs);
            lemma_cell_of_budget(own.pos.y as int, cs);
        }
        let block = grid.neighbors_in_block(cx, cy);
        proof {
            lemma_block_of_models(*grid, agents0, cs, cx as int, cy as int);
            assert(block@ == agent_block(agents0, i as int, cs));
            lemma_bucket_len_le(agents0, cs, cx - 1, cy - 1);
            lemma_bucket_len_le(agents0, cs, cx - 1, cy as int);
            lemma_bucket_len_le(agents0, cs, cx - 1, cy + 1);
            lemma_bucket_len_le(agents0, cs, cx as int, cy - 1);
            lemma_bucket_len_le(agents0, cs, cx as int, cy as int);
            lemma_bucket_len_le(agents0, cs, cx as int, cy + 1);
            lemma_bucket_len_le(agents0, cs, cx + 1, cy - 1);
            lemma_bucket_len_le(agents0, cs, cx + 1, cy as int);
            lemma_bucket_len_le(agents0, cs, cx + 1, cy + 1);
            assert(block@.len() <= 9 * MAX_POP);
            assert forall|k: int| 0 <= k < block@.len() implies pos_in_budget(
                (#[trigger] block@[k]).pos,
            ) && valid_angle(block@[k].heading as int) by {
                lemma_block_elem_within(agents0, cs, cx as int, cy as int, k);
                let j = choose|j: int|
                    0 <= j < agents0.len() && block_model(agents0, cs, cx as int, cy as int)[k]
                        == crate::grid::rec_of(#[trigger] agents0[j]) && cx - 1 <= cell_of(
                        agents0[j].pos.x as int,
                        cs,
                    ) <= cx + 1 && cy - 1 <= cell_of(agents0[j].pos.y as int, cs) <= cy + 1;
                assert(agents0[j].wf());
            }
        }
        let t = steer_one(&own, &block, cfg);
        store.set_agent(i, Agent { target_heading: t, ..own });
        proof {
            assert(store@[i as int] == stepped_agent(agents0, i as int, *cfg));
        }
    }
}

} // verus!
