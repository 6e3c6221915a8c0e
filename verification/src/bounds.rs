//! The boundary wrap: after integration, any agent outside the rectangular
//! world is teleported to the opposite edge — a hard relocation of the one
//! offending coordinate, never a reflection or clamp, and headings are
//! untouched. Re-applying it to an in-bounds agent changes nothing.

use vstd::prelude::*;
use crate::agents::{Agent, AgentStore, MAX_COORD};
use crate::motion::MAX_COORD_AFTER;
use crate::vec2::Vec2I;

verus! {

/// One coordinate after the wrap: beyond `+half` it restarts at `-half`,
/// beyond `-half` at `+half`, otherwise it is unchanged.
pub open spec fn wrap_coord(c: int, half: int) -> int {
    if c > half {
        -half
    } else if c < -half {
        half
    } else {
        c
    }
}

/// Agent `a` after the wrap for world half-extents `half_w` and `half_h`:
/// only the position moves.
pub open spec fn wrapped_agent(a: Agent, half_w: int, half_h: int) -> Agent {
    Agent {
        pos: Vec2I {
            x: wrap_coord(a.pos.x as int, half_w) as i64,
            y: wrap_coord(a.pos.y as int, half_h) as i64,
        },
        ..a
    }
}

/// Wrap correctness: a coordinate past the positive edge lands exactly on
/// the negative edge (and symmetrically), an in-bounds coordinate is
/// untouched, and the wrap is idempotent.
pub proof fn lemma_wrap_coord_props(c: int, half: int)
    requires
        half >= 1,
    ensures
        c > half ==> wrap_coord(c, half) == -half,
        c < -half ==> wrap_coord(c, half) == half,
        -half <= c <= half ==> wrap_coord(c, half) == c,
        -half <= wrap_coord(c, half) <= half,
        wrap_coord(wrap_coord(c, half), half) == wrap_coord(c, half),
{
}

/// Idempotence on whole agents: wrapping an already wrapped agent is a
/// no-op.
pub proof fn lemma_wrap_idempotent(a: Agent, half_w: int, half_h: int)
    requires
        1 <= half_w <= MAX_COORD,
        1 <= half_h <= MAX_COORD,
        -MAX_COORD_AFTER <= a.pos.x <= MAX_COORD_AFTER,
        -MAX_COORD_AFTER <= a.pos.y <= MAX_COORD_AFTER,
    ensures
        wrapped_agent(wrapped_agent(a, half_w, half_h), half_w, half_h) == wrapped_agent(
            a,
            half_w,
            half_h,
        ),
{
    lemma_wrap_coord_props(a.pos.x as int, half_w);
    lemma_wrap_coord_props(a.pos.y as int, half_h);
}

/// Wrap one coordinate.
fn wrap_one(c: i64, half: i64) -> (r: i64)
    requires
        1 <= half <= MAX_COORD,
        -MAX_COORD_AFTER <= c <= MAX_COORD_AFTER,
    ensures
        r == wrap_coord(c as int, half as int),
        -half <= r <= half,
{
    if c > half {
        -half
    } else if c < -half {
        half
    } else {
        c
    }
}

/// One wrap pass over the whole population: every agent's position is
/// brought back into `[-w/2, w/2] x [-h/2, h/2]`; everything else is
/// untouched.
pub fn apply(store: &mut AgentStore, world_w: i64, world_h: i64)
    requires
        2 <= world_w <= 2 * MAX_COORD,
        2 <= world_h <= 2 * MAX_COORD,
        forall|i: int|
            0 <= i < old(store)@.len() ==> {
                let p = (#[trigger] old(store)@[i]).pos;
                -MAX_COORD_AFTER <= p.x <= MAX_COORD_AFTER && -MAX_COORD_AFTER <= p.y
                    <= MAX_COORD_AFTER
            },
    ensures
        final(store)@.len() == old(store)@.len(),
        forall|i: int|
            0 <= i < old(store)@.len() ==> final(store)@[i] == wrapped_agent(
                old(store)@[i],
                world_w as int / 2,
                world_h as int / 2,
            ),
        forall|i: int|
            0 <= i < final(store)@.len() ==> {
                let p = (#[trigger] final(store)@[i]).pos;
                -world_w / 2 <= p.x <= world_w / 2 && -world_h / 2 <= p.y <= world_h / 2
            },
{
    let half_w = world_w / 2;
    let half_h = world_h / 2;
    let ghost agents0 = old(store)@;
    let n = store.len();
    for i in 0..n
        invariant
            n == agents0.len(),
            store@.len() == agents0.len(),
            half_w == world_w as int / 2,
            half_h == world_h as int / 2,
            1 <= half_w <= MAX_COORD,
            1 <= half_h <= MAX_COORD,
            forall|j: int|
                0 <= j < agents0.len() ==> {
                    let p = (#[trigger] agents0[j]).pos;
                    -MAX_COORD_AFTER <= p.x <= MAX_COORD_AFTER && -MAX_COORD_AFTER <= p.y
                        <= MAX_COORD_AFTER
                },
            forall|j: int| i <= j < agents0.len() ==> store@[j] == agents0[j],
            forall|j: int|
                0 <= j < i ==> store@[j] == wrapped_agent(agents0[j], half_w as int, half_h as int),
            forall|j: int|
                0 <= j < i ==> {
                    let p = (#[trigger] store@[j]).pos;
                    -half_w <= p.x <= half_w && -half_h <= p.y <= half_h
                },
    {
        let a = store.agent(i);
        proof {
            assert(a == agents0[i as int]);
            assert(-MAX_COORD_AFTER <= agents0[i as int].pos.x <= MAX_COORD_AFTER);
        }
        let wx = wrap_one(a.pos.x, half_w);
        let wy = wrap_one(a.pos.y, half_h);
        store.set_agent(i, Agent { pos: Vec2I { x: wx, y: wy }, ..a });
    }
}

} // verus!
