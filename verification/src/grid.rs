//! The spatial hash grid: a map from discretized 2D cell coordinates to the
//! snapshot records of the agents inside that cell. It is rebuilt from
//! scratch every tick and answers one query: all records in the 3x3 block
//! of cells around a center cell.

use vstd::prelude::*;
use std::collections::HashMap;
use crate::agents::{pos_in_budget, Agent, AgentStore, MAX_COORD};
use crate::math::floor_div;
use crate::vec2::Vec2I;

verus! {

broadcast use vstd::std_specs::hash::group_hash_axioms;

/// Packing factor for the two cell indexes of a key.
pub const KEY_SPAN: i64 = 0x1_0000_0000;

/// Largest cell index magnitude the key packing supports; indexes derived
/// from in-budget positions stay below it.
pub const CELL_MAX: i64 = 0x4000_0000;

/// A snapshot of one agent taken at grid rebuild: its id, position and
/// heading. Steering reads these copies, never the live store.
#[derive(Clone, Copy, PartialEq, Eq, Structural, Debug)]
pub struct GridRec {
    /// The agent's stable id.
    pub id: usize,
    /// Position at the time of the rebuild.
    pub pos: Vec2I,
    /// Heading at the time of the rebuild.
    pub heading: i64,
}

/// The snapshot record of an agent.
pub open spec fn rec_of(a: Agent) -> GridRec {
    GridRec { id: a.id, pos: a.pos, heading: a.heading }
}

/// The cell index of coordinate `c`: the floor of `c / cell_size`.
pub open spec fn cell_of(c: int, cell_size: int) -> int
    recommends
        cell_size >= 1,
{
    c / cell_size
}

/// Whether a cell index is representable in the key packing.
pub open spec fn cell_in_range(c: int) -> bool {
    -CELL_MAX <= c <= CELL_MAX
}

/// Whether a cell may serve as the center of a 3x3 block lookup: its whole
/// block is representable.
pub open spec fn center_in_range(c: int) -> bool {
    -CELL_MAX < c < CELL_MAX
}

/// The packed map key of cell `(cx, cy)`.
pub open spec fn key_of(cx: int, cy: int) -> int {
    cx * KEY_SPAN + cy
}

/// Key packing is injective on in-range cells.
pub proof fn lemma_key_injective(cx1: int, cy1: int, cx2: int, cy2: int)
    requires
        cell_in_range(cx1),
        cell_in_range(cy1),
        cell_in_range(cx2),
        cell_in_range(cy2),
        key_of(cx1, cy1) == key_of(cx2, cy2),
    ensures
        cx1 == cx2,
        cy1 == cy2,
{
    assert(cx1 == cx2 && cy1 == cy2) by (nonlinear_arith)
        requires
            cx1 * 0x1_0000_0000 + cy1 == cx2 * 0x1_0000_0000 + cy2,
            -0x4000_0000 <= cx1 <= 0x4000_0000,
            -0x4000_0000 <= cy1 <= 0x4000_0000,
            -0x4000_0000 <= cx2 <= 0x4000_0000,
            -0x4000_0000 <= cy2 <= 0x4000_0000,
    ;
}

/// The cell index of an in-budget coordinate is in packing range, strictly.
pub proof fn lemma_cell_of_budget(c: int, cs: int)
    requires
        -MAX_COORD <= c <= MAX_COORD,
        cs >= 1,
    ensures
        -MAX_COORD <= cell_of(c, cs) <= MAX_COORD,
        center_in_range(cell_of(c, cs)),
{
    let q = c / cs;
    vstd::arithmetic::div_mod::lemma_fundamental_div_mod(c, cs);
    let r = c % cs;
    vstd::arithmetic::div_mod::lemma_mod_bound(c, cs);
    assert(-MAX_COORD <= q <= MAX_COORD) by (nonlinear_arith)
        requires
            c == q * cs + r,
            0 <= r < cs,
            cs >= 1,
            -MAX_COORD <= c <= MAX_COORD,
    ;
}

/// Whether agent `a` falls in cell `(cx, cy)` for cell size `cs`.
pub open spec fn in_cell(a: Agent, cs: int, cx: int, cy: int) -> bool {
    cell_of(a.pos.x as int, cs) == cx && cell_of(a.pos.y as int, cs) == cy
}

/// The records, in slot order, of exactly those agents of `agents` that
/// fall in cell `(cx, cy)`.
pub open spec fn bucket_model(agents: Seq<Agent>, cs: int, cx: int, cy: int) -> Seq<GridRec>
    decreases agents.len(),
{
    if agents.len() == 0 {
        Seq::empty()
    } else {
        let prefix = bucket_model(agents.drop_last(), cs, cx, cy);
        if in_cell(agents.last(), cs, cx, cy) {
            prefix.push(rec_of(agents.last()))
        } else {
            prefix
        }
    }
}

/// Extending the population by one agent extends exactly that agent's
/// bucket, by its record.
pub proof fn lemma_bucket_model_step(agents: Seq<Agent>, i: int, cs: int, cx: int, cy: int)
    requires
        0 <= i < agents.len(),
    ensures
        bucket_model(agents.take(i + 1), cs, cx, cy) == if in_cell(agents[i], cs, cx, cy) {
            bucket_model(agents.take(i), cs, cx, cy).push(rec_of(agents[i]))
        } else {
            bucket_model(agents.take(i), cs, cx, cy)
        },
{
    assert(agents.take(i + 1).drop_last() =~= agents.take(i));
    assert(agents.take(i + 1).last() == agents[i]);
}

/// Every record in a bucket is the record of some agent that falls in that
/// cell.
pub proof fn lemma_bucket_elem_from_agent(agents: Seq<Agent>, cs: int, cx: int, cy: int, k: int)
    requires
        0 <= k < bucket_model(agents, cs, cx, cy).len(),
    ensures
        exists|j: int|
            0 <= j < agents.len() && in_cell(#[trigger] agents[j], cs, cx, cy) && bucket_model(
                agents,
                cs,
                cx,
                cy,
            )[k] == rec_of(agents[j]),
    decreases agents.len(),
{
    let prefix = bucket_model(agents.drop_last(), cs, cx, cy);
    let n = agents.len() - 1;
    if k < prefix.len() {
        lemma_bucket_elem_from_agent(agents.drop_last(), cs, cx, cy, k);
        let j = choose|j: int|
            0 <= j < agents.drop_last().len() && in_cell(
                #[trigger] agents.drop_last()[j],
                cs,
                cx,
                cy,
            ) && bucket_model(agents.drop_last(), cs, cx, cy)[k] == rec_of(agents.drop_last()[j]);
        assert(agents[j] == agents.drop_last()[j]);
        assert(in_cell(agents[j], cs, cx, cy) && bucket_model(agents, cs, cx, cy)[k] == rec_of(
            agents[j],
        ));
    } else {
        assert(in_cell(agents[n], cs, cx, cy) && bucket_model(agents, cs, cx, cy)[k] == rec_of(
            agents[n],
        ));
    }
}

/// Every agent that falls in a cell contributes its record to that cell's
/// bucket.
pub proof fn lemma_agent_in_bucket(agents: Seq<Agent>, cs: int, cx: int, cy: int, j: int)
    requires
        0 <= j < agents.len(),
        in_cell(agents[j], cs, cx, cy),
    ensures
        bucket_model(agents, cs, cx, cy).contains(rec_of(agents[j])),
    decreases agents.len(),
{
    let n = agents.len() - 1;
    let prefix = bucket_model(agents.drop_last(), cs, cx, cy);
    if j < n {
        assert(agents.drop_last()[j] == agents[j]);
        lemma_agent_in_bucket(agents.drop_last(), cs, cx, cy, j);
        let k = choose|k: int| 0 <= k < prefix.len() && prefix[k] == rec_of(agents[j]);
        assert(bucket_model(agents, cs, cx, cy)[k] == rec_of(agents[j]));
    } else {
        let b = bucket_model(agents, cs, cx, cy);
        assert(b[b.len() - 1] == rec_of(agents[n]));
    }
}

/// A bucket never holds more records than there are agents.
pub proof fn lemma_bucket_len_le(agents: Seq<Agent>, cs: int, cx: int, cy: int)
    ensures
        bucket_model(agents, cs, cx, cy).len() <= agents.len(),
    decreases agents.len(),
{
    if agents.len() > 0 {
        lemma_bucket_len_le(agents.drop_last(), cs, cx, cy);
    }
}

/// The spatial hash grid: buckets of agent snapshots, keyed by packed cell
/// coordinates. A cell with no agents has no bucket at all.
pub struct SpatialHashGrid {
    map: HashMap<i64, Vec<GridRec>>,
    cell_size: i64,
}

impl SpatialHashGrid {
    /// The cell size the grid was built with.
    pub closed spec fn spec_cell_size(self) -> int {
        self.cell_size as int
    }

    /// The bucket of cell `(cx, cy)`: its stored records, or empty if the
    /// cell is absent.
    pub closed spec fn spec_bucket(self, cx: int, cy: int) -> Seq<GridRec> {
        if self.map@.contains_key((cx * KEY_SPAN + cy) as i64) {
            self.map@[(cx * KEY_SPAN + cy) as i64]@
        } else {
            Seq::empty()
        }
    }

    /// The grid exactly reflects population `agents` at cell size `cs`:
    /// every in-range cell's bucket holds the records of precisely the
    /// agents inside that cell, in slot order.
    pub open spec fn models(self, agents: Seq<Agent>, cs: int) -> bool {
        &&& self.spec_cell_size() == cs
        &&& cs >= 1
        &&& forall|cx: int, cy: int|
            cell_in_range(cx) && cell_in_range(cy) ==> #[trigger] self.spec_bucket(cx, cy)
                == bucket_model(agents, cs, cx, cy)
    }

    /// Build the grid for the whole population: clears nothing because it
    /// starts empty, then files every agent's snapshot under its cell key.
    pub fn rebuild(agents: &AgentStore, cell_size: i64) -> (g: SpatialHashGrid)
        requires
            1 <= cell_size <= MAX_COORD,
            forall|i: int|
                0 <= i < agents@.len() ==> pos_in_budget((#[trigger] agents@[i]).pos),
        ensures
            g.models(agents@, cell_size as int),
    {
        let mut map: HashMap<i64, Vec<GridRec>> = HashMap::new();
        let n = agents.len();
        for i in 0..n
            invariant
                n == agents@.len(),
                1 <= cell_size <= MAX_COORD,
                forall|j: int|
                    0 <= j < agents@.len() ==> pos_in_budget((#[trigger] agents@[j]).pos),
                forall|cx: int, cy: int|
                    cell_in_range(cx) && cell_in_range(cy) ==> {
                        let b = bucket_model(agents@.take(i as int), cell_size as int, cx, cy);
                        &&& (b.len() > 0 ==> map@.contains_key(#[trigger] key_of(cx, cy) as i64)
                            && map@[key_of(cx, cy) as i64]@ == b)
                        &&& (b.len() == 0 ==> !map@.contains_key(key_of(cx, cy) as i64))
                    },
        {
            let a = agents.agent(i);
            let cx = floor_div(a.pos.x, cell_size);
            let cy = floor_div(a.pos.y, cell_size);
            proof {
                lemma_cell_of_budget(a.pos.x as int, cell_size as int);
                lemma_cell_of_budget(a.pos.y as int, cell_size as int);
            }
            let key: i64 = cx * KEY_SPAN + cy;
            let rec = GridRec { id: a.id, pos: a.pos, heading: a.heading };
            let ghost old_map = map@;
            match map.remove(&key) {
                Some(mut v) => {
                    v.push(rec);
                    map.insert(key, v);
                },
                None => {
                    let mut v: Vec<GridRec> = Vec::new();
                    v.push(rec);
                    map.insert(key, v);
                },
            }
            proof {
                let cs = cell_size as int;
                let ii = i as int;
                assert forall|ox: int, oy: int| cell_in_range(ox) && cell_in_range(oy) implies {
                    let b = bucket_model(agents@.take(ii + 1), cs, ox, oy);
                    &&& (b.len() > 0 ==> map@.contains_key(#[trigger] key_of(ox, oy) as i64)
                        && map@[key_of(ox, oy) as i64]@ == b)
                    &&& (b.len() == 0 ==> !map@.contains_key(key_of(ox, oy) as i64))
                } by {
                    lemma_bucket_model_step(agents@, ii, cs, ox, oy);
                    let b_old = bucket_model(agents@.take(ii), cs, ox, oy);
                    if ox == cx as int && oy == cy as int {
                        assert(in_cell(agents@[ii], cs, ox, oy));
                        assert(key_of(ox, oy) == key);
                        assert(map@[key]@ == b_old.push(rec_of(agents@[ii])));
                    } else {
                        assert(!(in_cell(agents@[ii], cs, ox, oy)));
                        if key_of(ox, oy) == key {
                            lemma_key_injective(ox, oy, cx as int, cy as int);
                            assert(false);
                        }
                        assert(map@.contains_key(key_of(ox, oy) as i64) == old_map.contains_key(
                            key_of(ox, oy) as i64,
                        ));
                        if old_map.contains_key(key_of(ox, oy) as i64) {
                            assert(map@[key_of(ox, oy) as i64] == old_map[key_of(ox, oy) as i64]);
                        }
                    }
                }
            }
        }
        let g = SpatialHashGrid { map, cell_size };
        proof {
            assert(agents@.take(n as int) =~= agents@);
            assert forall|cx: int, cy: int| cell_in_range(cx) && cell_in_range(cy) implies
                #[trigger] g.spec_bucket(cx, cy) == bucket_model(
                agents@,
                cell_size as int,
                cx,
                cy,
            ) by {
                let b = bucket_model(agents@.take(n as int), cell_size as int, cx, cy);
                assert((b.len() > 0 ==> map@.contains_key(#[trigger] key_of(cx, cy) as i64)
                    && map@[key_of(cx, cy) as i64]@ == b) && (b.len() == 0 ==> !map@.contains_key(
                    key_of(cx, cy) as i64,
                )));
                if b.len() == 0 {
                    assert(g.spec_bucket(cx, cy) =~= b);
                } else {
                    assert(g.spec_bucket(cx, cy) == map@[key_of(cx, cy) as i64]@);
                }
            }
        }
        g
    }
}

/// The records of the 3x3 block of cells centered on `(cx, cy)`:
/// the concatenation of the nine buckets in row-major cell order.
pub open spec fn block_model(agents: Seq<Agent>, cs: int, cx: int, cy: int) -> Seq<GridRec> {
    bucket_model(agents, cs, cx - 1, cy - 1) + bucket_model(agents, cs, cx - 1, cy) + bucket_model(
        agents,
        cs,
        cx - 1,
        cy + 1,
    ) + bucket_model(agents, cs, cx, cy - 1) + bucket_model(agents, cs, cx, cy) + bucket_model(
        agents,
        cs,
        cx,
        cy + 1,
    ) + bucket_model(agents, cs, cx + 1, cy - 1) + bucket_model(agents, cs, cx + 1, cy)
        + bucket_model(agents, cs, cx + 1, cy + 1)
}

impl SpatialHashGrid {
    /// The stored records of the 3x3 block around `(cx, cy)`, by the
    /// grid's own buckets.
    pub open spec fn spec_block(self, cx: int, cy: int) -> Seq<GridRec> {
        self.spec_bucket(cx - 1, cy - 1) + self.spec_bucket(cx - 1, cy) + self.spec_bucket(
            cx - 1,
            cy + 1,
        ) + self.spec_bucket(cx, cy - 1) + self.spec_bucket(cx, cy) + self.spec_bucket(cx, cy + 1)
            + self.spec_bucket(cx + 1, cy - 1) + self.spec_bucket(cx + 1, cy) + self.spec_bucket(
            cx + 1,
            cy + 1,
        )
    }

    /// Append the bucket of one cell to `out`.
    fn push_bucket(&self, out: &mut Vec<GridRec>, cx: i64, cy: i64)
        requires
            cell_in_range(cx as int),
            cell_in_range(cy as int),
        ensures
            final(out)@ == old(out)@ + self.spec_bucket(cx as int, cy as int),
    {
        let key: i64 = cx * KEY_SPAN + cy;
        match self.map.get(&key) {
            Some(v) => {
                let m = v.len();
                for k in 0..m
                    invariant
                        m == v@.len(),
                        v@ == self.spec_bucket(cx as int, cy as int),
                        out@ == old(out)@ + v@.take(k as int),
                {
                    out.push(v[k]);
                    proof {
                        assert(v@.take(k + 1 as int) =~= v@.take(k as int).push(v@[k as int]));
                        assert(old(out)@ + v@.take(k + 1 as int) =~= (old(out)@ + v@.take(
                            k as int,
                        )).push(v@[k as int]));
                    }
                }
                proof {
                    assert(v@.take(m as int) =~= v@);
                }
            },
            None => {
                proof {
                    assert(out@ =~= old(out)@ + self.spec_bucket(cx as int, cy as int));
                }
            },
        }
    }

    /// All records in the 3x3 block of cells centered on `(cx, cy)`, in a
    /// fixed row-major cell order. The only lookup primitive: callers size
    /// the cell near the interaction radius so this block is a
    /// conservative superset of the true neighborhood.
    pub fn neighbors_in_block(&self, cx: i64, cy: i64) -> (r: Vec<GridRec>)
        requires
            center_in_range(cx as int),
            center_in_range(cy as int),
        ensures
            r@ == self.spec_block(cx as int, cy as int),
    {
        let mut out: Vec<GridRec> = Vec::new();
        self.push_bucket(&mut out, cx - 1, cy - 1);
        self.push_bucket(&mut out, cx - 1, cy);
        self.push_bucket(&mut out, cx - 1, cy + 1);
        self.push_bucket(&mut out, cx, cy - 1);
        self.push_bucket(&mut out, cx, cy);
        self.push_bucket(&mut out, cx, cy + 1);
        self.push_bucket(&mut out, cx + 1, cy - 1);
        self.push_bucket(&mut out, cx + 1, cy);
        self.push_bucket(&mut out, cx + 1, cy + 1);
        proof {
            assert(out@ =~= self.spec_block(cx as int, cy as int));
        }
        out
    }
}

/// On a grid that models `agents`, the block lookup returns exactly the
/// block of the model.
pub proof fn lemma_block_of_models(
    g: SpatialHashGrid,
    agents: Seq<Agent>,
    cs: int,
    cx: int,
    cy: int,
)
    requires
        g.models(agents, cs),
        center_in_range(cx),
        center_in_range(cy),
    ensures
        g.spec_block(cx, cy) == block_model(agents, cs, cx, cy),
{
}

/// A cell index equals `q` exactly when the coordinate lies in `q`'s
/// half-open span.
pub proof fn lemma_cell_bracket(c: int, cs: int, q: int)
    requires
        cs >= 1,
    ensures
        cell_of(c, cs) == q <==> q * cs <= c < (q + 1) * cs,
{
    vstd::arithmetic::div_mod::lemma_fundamental_div_mod(c, cs);
    vstd::arithmetic::div_mod::lemma_mod_bound(c, cs);
    let d = c / cs;
    let r = c % cs;
    assert(d * cs <= c < (d + 1) * cs) by (nonlinear_arith)
        requires
            c == cs * d + r,
            0 <= r < cs,
    ;
    if q * cs <= c < (q + 1) * cs {
        assert(d == q) by (nonlinear_arith)
            requires
                d * cs <= c < (d + 1) * cs,
                q * cs <= c < (q + 1) * cs,
                cs >= 1,
        ;
    }
}

/// A record of any bucket of the 3x3 block is in the block.
proof fn lemma_block_contains_bucket_elem(
    agents: Seq<Agent>,
    cs: int,
    cx: int,
    cy: int,
    dx: int,
    dy: int,
    r: GridRec,
)
    requires
        -1 <= dx <= 1,
        -1 <= dy <= 1,
        bucket_model(agents, cs, cx + dx, cy + dy).contains(r),
    ensures
        block_model(agents, cs, cx, cy).contains(r),
{
    let b1 = bucket_model(agents, cs, cx - 1, cy - 1);
    let b2 = bucket_model(agents, cs, cx - 1, cy);
    let b3 = bucket_model(agents, cs, cx - 1, cy + 1);
    let b4 = bucket_model(agents, cs, cx, cy - 1);
    let b5 = bucket_model(agents, cs, cx, cy);
    let b6 = bucket_model(agents, cs, cx, cy + 1);
    let b7 = bucket_model(agents, cs, cx + 1, cy - 1);
    let b8 = bucket_model(agents, cs, cx + 1, cy);
    let b9 = bucket_model(agents, cs, cx + 1, cy + 1);
    let blk = block_model(agents, cs, cx, cy);
    let k = choose|k: int|
        0 <= k < bucket_model(agents, cs, cx + dx, cy + dy).len() && (#[trigger] bucket_model(
            agents,
            cs,
            cx + dx,
            cy + dy,
        )[k]) == r;
    if dx == -1 {
        if dy == -1 {
            assert(blk[k] == r);
        } else if dy == 0 {
            assert(blk[b1.len() + k] == r);
        } else {
            assert(blk[b1.len() + b2.len() + k] == r);
        }
    } else if dx == 0 {
        if dy == -1 {
            assert(blk[b1.len() + b2.len() + b3.len() + k] == r);
        } else if dy == 0 {
            assert(blk[b1.len() + b2.len() + b3.len() + b4.len() + k] == r);
        } else {
            assert(blk[b1.len() + b2.len() + b3.len() + b4.len() + b5.len() + k] == r);
        }
    } else {
        if dy == -1 {
            assert(blk[b1.len() + b2.len() + b3.len() + b4.len() + b5.len() + b6.len() + k] == r);
        } else if dy == 0 {
            assert(blk[b1.len() + b2.len() + b3.len() + b4.len() + b5.len() + b6.len() + b7.len()
                + k] == r);
        } else {
            assert(blk[b1.len() + b2.len() + b3.len() + b4.len() + b5.len() + b6.len() + b7.len()
                + b8.len() + k] == r);
        }
    }
}

/// Grid correctness, first half: the 3x3 block is a superset of every
/// agent within one cell size of the center cell's rectangle. An agent
/// whose Euclidean distance to any point of the cell is at most `cs`
/// satisfies these coordinate brackets, since each coordinate distance is
/// at most the Euclidean distance.
pub proof fn lemma_block_superset(agents: Seq<Agent>, cs: int, cx: int, cy: int, j: int)
    requires
        cs >= 1,
        0 <= j < agents.len(),
        (cx - 1) * cs <= agents[j].pos.x < (cx + 2) * cs,
        (cy - 1) * cs <= agents[j].pos.y < (cy + 2) * cs,
    ensures
        block_model(agents, cs, cx, cy).contains(rec_of(agents[j])),
{
    let px = agents[j].pos.x as int;
    let py = agents[j].pos.y as int;
    let qx = cell_of(px, cs);
    let qy = cell_of(py, cs);
    lemma_cell_bracket(px, cs, qx);
    lemma_cell_bracket(py, cs, qy);
    assert(cx - 1 <= qx <= cx + 1) by (nonlinear_arith)
        requires
            qx * cs <= px < (qx + 1) * cs,
            (cx - 1) * cs <= px < (cx + 2) * cs,
            cs >= 1,
    ;
    assert(cy - 1 <= qy <= cy + 1) by (nonlinear_arith)
        requires
            qy * cs <= py < (qy + 1) * cs,
            (cy - 1) * cs <= py < (cy + 2) * cs,
            cs >= 1,
    ;
    assert(in_cell(agents[j], cs, qx, qy));
    lemma_agent_in_bucket(agents, cs, qx, qy, j);
    lemma_block_contains_bucket_elem(agents, cs, cx, cy, qx - cx, qy - cy, rec_of(agents[j]));
}

/// Grid correctness in the metric form: an agent whose Euclidean distance
/// to some point of the center cell's rectangle is at most one cell size
/// is always in the 3x3 block.
pub proof fn lemma_block_covers_distance(
    agents: Seq<Agent>,
    cs: int,
    cx: int,
    cy: int,
    j: int,
    qx: int,
    qy: int,
)
    requires
        cs >= 1,
        0 <= j < agents.len(),
        // (qx, qy) is a point of the center cell's rectangle,
        cx * cs <= qx < (cx + 1) * cs,
        cy * cs <= qy < (cy + 1) * cs,
        // and the agent is within one cell size of it.
        (agents[j].pos.x - qx) * (agents[j].pos.x - qx) + (agents[j].pos.y - qy) * (agents[j].pos.y
            - qy) <= cs * cs,
    ensures
        block_model(agents, cs, cx, cy).contains(rec_of(agents[j])),
{
    let px = agents[j].pos.x as int;
    let py = agents[j].pos.y as int;
    assert(-cs <= px - qx <= cs && -cs <= py - qy <= cs) by (nonlinear_arith)
        requires
            (px - qx) * (px - qx) + (py - qy) * (py - qy) <= cs * cs,
            cs >= 1,
    ;
    assert((cx - 1) * cs <= px < (cx + 2) * cs) by (nonlinear_arith)
        requires
            cx * cs <= qx < (cx + 1) * cs,
            -cs <= px - qx <= cs,
    ;
    assert((cy - 1) * cs <= py < (cy + 2) * cs) by (nonlinear_arith)
        requires
            cy * cs <= qy < (cy + 1) * cs,
            -cs <= py - qy <= cs,
    ;
    lemma_block_superset(agents, cs, cx, cy, j);
}

/// Grid correctness, second half: every record the block lookup returns is
/// the record of an agent whose cell is within one cell of the center in
/// each axis; no agent outside the 3x3 block is ever returned.
pub proof fn lemma_block_elem_within(agents: Seq<Agent>, cs: int, cx: int, cy: int, k: int)
    requires
        cs >= 1,
        0 <= k < block_model(agents, cs, cx, cy).len(),
    ensures
        exists|j: int|
            0 <= j < agents.len() && block_model(agents, cs, cx, cy)[k] == rec_of(
                #[trigger] agents[j],
            ) && cx - 1 <= cell_of(agents[j].pos.x as int, cs) <= cx + 1 && cy - 1 <= cell_of(
                agents[j].pos.y as int,
                cs,
            ) <= cy + 1,
{
    let b1 = bucket_model(agents, cs, cx - 1, cy - 1);
    let b2 = bucket_model(agents, cs, cx - 1, cy);
    let b3 = bucket_model(agents, cs, cx - 1, cy + 1);
    let b4 = bucket_model(agents, cs, cx, cy - 1);
    let b5 = bucket_model(agents, cs, cx, cy);
    let b6 = bucket_model(agents, cs, cx, cy + 1);
    let b7 = bucket_model(agents, cs, cx + 1, cy - 1);
    let b8 = bucket_model(agents, cs, cx + 1, cy);
    let b9 = bucket_model(agents, cs, cx + 1, cy + 1);
    let blk = block_model(agents, cs, cx, cy);
    let l1 = b1.len();
    let l2 = l1 + b2.len();
    let l3 = l2 + b3.len();
    let l4 = l3 + b4.len();
    let l5 = l4 + b5.len();
    let l6 = l5 + b6.len();
    let l7 = l6 + b7.len();
    let l8 = l7 + b8.len();
    if k < l1 {
        lemma_bucket_elem_from_agent(agents, cs, cx - 1, cy - 1, k);
        let j = choose|j: int|
            0 <= j < agents.len() && in_cell(#[trigger] agents[j], cs, cx - 1, cy - 1)
                && bucket_model(agents, cs, cx - 1, cy - 1)[k] == rec_of(agents[j]);
        assert(blk[k] == rec_of(agents[j]));
    } else if k < l2 {
        lemma_bucket_elem_from_agent(agents, cs, cx - 1, cy, k - l1);
        let j = choose|j: int|
            0 <= j < agents.len() && in_cell(#[trigger] agents[j], cs, cx - 1, cy) && bucket_model(
                agents,
                cs,
                cx - 1,
                cy,
            )[k - l1] == rec_of(agents[j]);
        assert(blk[k] == rec_of(agents[j]));
    } else if k < l3 {
        lemma_bucket_elem_from_agent(agents, cs, cx - 1, cy + 1, k - l2);
        let j = choose|j: int|
            0 <= j < agents.len() && in_cell(#[trigger] agents[j], cs, cx - 1, cy + 1)
                && bucket_model(agents, cs, cx - 1, cy + 1)[k - l2] == rec_of(agents[j]);
        assert(blk[k] == rec_of(agents[j]));
    } else if k < l4 {
        lemma_bucket_elem_from_agent(agents, cs, cx, cy - 1, k - l3);
        let j = choose|j: int|
            0 <= j < agents.len() && in_cell(#[trigger] agents[j], cs, cx, cy - 1) && bucket_model(
                agents,
                cs,
                cx,
                cy - 1,
            )[k - l3] == rec_of(agents[j]);
        assert(blk[k] == rec_of(agents[j]));
    } else if k < l5 {
        lemma_bucket_elem_from_agent(agents, cs, cx, cy, k - l4);
        let j = choose|j: int|
            0 <= j < agents.len() && in_cell(#[trigger] agents[j], cs, cx, cy) && bucket_model(
                agents,
                cs,
                cx,
                cy,
            )[k - l4] == rec_of(agents[j]);
        assert(blk[k] == rec_of(agents[j]));
    } else if k < l6 {
        lemma_bucket_elem_from_agent(agents, cs, cx, cy + 1, k - l5);
        let j = choose|j: int|
            0 <= j < agents.len() && in_cell(#[trigger] agents[j], cs, cx, cy + 1) && bucket_model(
                agents,
                cs,
                cx,
                cy + 1,
            )[k - l5] == rec_of(agents[j]);
        assert(blk[k] == rec_of(agents[j]));
    } else if k < l7 {
        lemma_bucket_elem_from_agent(agents, cs, cx + 1, cy - 1, k - l6);
        let j = choose|j: int|
            0 <= j < agents.len() && in_cell(#[trigger] agents[j], cs, cx + 1, cy - 1)
                && bucket_model(agents, cs, cx + 1, cy - 1)[k - l6] == rec_of(agents[j]);
        assert(blk[k] == rec_of(agents[j]));
    } else if k < l8 {
        lemma_bucket_elem_from_agent(agents, cs, cx + 1, cy, k - l7);
        let j = choose|j: int|
            0 <= j < agents.len() && in_cell(#[trigger] agents[j], cs, cx + 1, cy) && bucket_model(
                agents,
                cs,
                cx + 1,
                cy,
            )[k - l7] == rec_of(agents[j]);
        assert(blk[k] == rec_of(agents[j]));
    } else {
        lemma_bucket_elem_from_agent(agents, cs, cx + 1, cy + 1, k - l8);
        let j = choose|j: int|
            0 <= j < agents.len() && in_cell(#[trigger] agents[j], cs, cx + 1, cy + 1)
                && bucket_model(agents, cs, cx + 1, cy + 1)[k - l8] == rec_of(agents[j]);
        assert(blk[k] == rec_of(agents[j]));
    }
}

} // verus!
