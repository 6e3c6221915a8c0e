//! Angles in milli-degrees. A heading is an angle in `[0, ANG_TURN)`;
//! `ang_delta` gives the shortest signed rotation from one heading to
//! another, in `(-ANG_HALF, ANG_HALF]`.

use vstd::prelude::*;

verus! {

/// One full turn, in milli-degrees.
pub const ANG_TURN: i64 = 360_000;

/// Half a turn, in milli-degrees.
pub const ANG_HALF: i64 = 180_000;

/// A quarter turn, in milli-degrees.
pub const ANG_QUARTER: i64 = 90_000;

/// Whether `a` is a well-formed heading angle.
pub open spec fn valid_angle(a: int) -> bool {
    0 <= a < ANG_TURN
}

/// The representative of `a` in `[0, ANG_TURN)`, for `a` within one turn of
/// that range.
pub open spec fn wrapped(a: int) -> int {
    if a < 0 {
        a + ANG_TURN
    } else if a >= ANG_TURN {
        a - ANG_TURN
    } else {
        a
    }
}

/// `wrapped` agrees with the mathematical remainder modulo a full turn.
pub proof fn lemma_wrapped_is_mod(a: int)
    requires
        -ANG_TURN <= a < 2 * ANG_TURN,
    ensures
        wrapped(a) == a % (ANG_TURN as int),
        valid_angle(wrapped(a)),
{
    let m = ANG_TURN as int;
    if a < 0 {
        vstd::arithmetic::div_mod::lemma_mod_add_multiples_vanish(a, m);
        vstd::arithmetic::div_mod::lemma_small_mod((a + m) as nat, m as nat);
    } else if a >= m {
        vstd::arithmetic::div_mod::lemma_mod_sub_multiples_vanish(a, m);
        vstd::arithmetic::div_mod::lemma_small_mod((a - m) as nat, m as nat);
    } else {
        vstd::arithmetic::div_mod::lemma_small_mod(a as nat, m as nat);
    }
}

/// Wrap an angle no more than one turn outside `[0, ANG_TURN)` back into
/// range.
pub fn wrap_angle(a: i64) -> (r: i64)
    requires
        -ANG_TURN <= a < 2 * ANG_TURN,
    ensures
        r == wrapped(a as int),
        valid_angle(r as int),
{
    if a < 0 {
        a + ANG_TURN
    } else if a >= ANG_TURN {
        a - ANG_TURN
    } else {
        a
    }
}

/// The shortest signed rotation carrying heading `from` onto heading `to`,
/// in `(-ANG_HALF, ANG_HALF]`.
pub open spec fn delta_md(from: int, to: int) -> int {
    let d = wrapped(to - from);
    if d > ANG_HALF {
        d - ANG_TURN
    } else {
        d
    }
}

/// The delta is in range, it is zero exactly when the headings agree, and
/// rotating `from` by it lands exactly on `to`.
pub proof fn lemma_delta_props(from: int, to: int)
    requires
        valid_angle(from),
        valid_angle(to),
    ensures
        -ANG_HALF < delta_md(from, to) <= ANG_HALF,
        delta_md(from, to) == 0 <==> from == to,
        wrapped(from + delta_md(from, to)) == to,
{
}

/// Shortest signed rotation from heading `from` to heading `to`.
pub fn ang_delta(from: i64, to: i64) -> (r: i64)
    requires
        valid_angle(from as int),
        valid_angle(to as int),
    ensures
        r == delta_md(from as int, to as int),
        -ANG_HALF < r <= ANG_HALF,
{
    let raw = to - from;
    let d = if raw < 0 {
        raw + ANG_TURN
    } else {
        raw
    };
    if d > ANG_HALF {
        d - ANG_TURN
    } else {
        d
    }
}

} // verus!
