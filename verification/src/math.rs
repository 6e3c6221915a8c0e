//! Integer helpers shared by the geometry: floor division, absolute value,
//! and an integer square root, each with an exact contract.

use vstd::prelude::*;

verus! {

/// Floor division of `a` by a positive divisor `b`: the result is the
/// mathematical (Euclidean) quotient, which rounds toward negative infinity.
pub fn floor_div(a: i64, b: i64) -> (q: i64)
    requires
        b > 0,
        -0x4000_0000_0000_0000 <= a <= 0x4000_0000_0000_0000,
    ensures
        q == a as int / b as int,
{
    if a >= 0 {
        let q = a / b;
        assert(q == a as int / b as int) by {
            vstd::arithmetic::div_mod::lemma_div_is_ordered(0, a as int, b as int);
        }
        q
    } else {
        let na = -a;
        let q = na / b;
        let r = na % b;
        assert(na as int / b as int >= 0 && na as int % b as int >= 0) by {
            vstd::arithmetic::div_mod::lemma_div_is_ordered(0, na as int, b as int);
            vstd::arithmetic::div_mod::lemma_mod_bound(na as int, b as int);
        }
        if r == 0 {
            assert(-(na as int / b as int) == a as int / b as int) by {
                vstd::arithmetic::div_mod::lemma_fundamental_div_mod(na as int, b as int);
                let qq = na as int / b as int;
                assert(a as int == (-qq) * b + 0) by (nonlinear_arith)
                    requires
                        a as int == -(qq * b + 0),
                ;
                vstd::arithmetic::div_mod::lemma_fundamental_div_mod_converse(
                    a as int,
                    b as int,
                    -qq,
                    0,
                );
            }
            -q
        } else {
            assert(-(na as int / b as int) - 1 == a as int / b as int) by {
                vstd::arithmetic::div_mod::lemma_fundamental_div_mod(na as int, b as int);
                let qq = na as int / b as int;
                let rr = na as int % b as int;
                // a == -(qq * b + rr) == (-qq - 1) * b + (b - rr), with 0 <= b - rr < b
                assert(a as int == (-qq - 1) * b + (b - rr)) by (nonlinear_arith)
                    requires
                        a as int == -(qq * b + rr),
                        b > 0,
                ;
                vstd::arithmetic::div_mod::lemma_fundamental_div_mod_converse(
                    a as int,
                    b as int,
                    -qq - 1,
                    b - rr,
                );
            }
            -q - 1
        }
    }
}

/// The floor of the square root of `x`, as a recursive mathematical
/// definition: the largest `r` with `r * r <= x`.
pub open spec fn sqrt_floor(x: nat) -> nat
    decreases x,
{
    if x == 0 {
        0
    } else {
        let r = sqrt_floor((x - 1) as nat);
        if (r + 1) * (r + 1) <= x {
            r + 1
        } else {
            r
        }
    }
}

/// `sqrt_floor(x)` is indeed the floor of the square root: its square is at
/// most `x`, and the next square is beyond `x`.
pub proof fn lemma_sqrt_floor_bounds(x: nat)
    ensures
        sqrt_floor(x) * sqrt_floor(x) <= x,
        x < (sqrt_floor(x) + 1) * (sqrt_floor(x) + 1),
    decreases x,
{
    if x == 0 {
        assert(sqrt_floor(0) == 0);
        assert((sqrt_floor(x) + 1) * (sqrt_floor(x) + 1) == 1) by (nonlinear_arith)
            requires
                sqrt_floor(x) == 0,
        ;
    } else {
        lemma_sqrt_floor_bounds((x - 1) as nat);
        let r = sqrt_floor((x - 1) as nat);
        if (r + 1) * (r + 1) <= x {
            assert(sqrt_floor(x) == r + 1);
            assert(x < (r + 2) * (r + 2)) by (nonlinear_arith)
                requires
                    ((x - 1) as nat) < (r + 1) * (r + 1),
                    (r + 1) * (r + 1) <= x,
            ;
            assert(sqrt_floor(x) * sqrt_floor(x) <= x);
            assert(x < (sqrt_floor(x) + 1) * (sqrt_floor(x) + 1));
        } else {
            assert(sqrt_floor(x) == r);
            assert(sqrt_floor(x) * sqrt_floor(x) <= x);
            assert(x < (sqrt_floor(x) + 1) * (sqrt_floor(x) + 1));
        }
    }
}

/// Any `r` whose square brackets `x` is `sqrt_floor(x)`.
pub proof fn lemma_sqrt_floor_unique(x: nat, r: nat)
    requires
        r * r <= x,
        x < (r + 1) * (r + 1),
    ensures
        r == sqrt_floor(x),
{
    lemma_sqrt_floor_bounds(x);
    let s = sqrt_floor(x);
    if r < s {
        assert((r + 1) * (r + 1) <= s * s) by (nonlinear_arith)
            requires
                r + 1 <= s,
        ;
    } else if s < r {
        assert((s + 1) * (s + 1) <= r * r) by (nonlinear_arith)
            requires
                s + 1 <= r,
        ;
    }
}

/// Integer square root by bisection.
pub fn isqrt(x: u64) -> (r: u64)
    ensures
        r == sqrt_floor(x as nat),
        r * r <= x,
        x < (r + 1) * (r + 1),
        r < 0x1_0000_0000,
{
    let mut lo: u64 = 0;
    let mut hi: u64 = 0x1_0000_0000;
    while lo + 1 < hi
        invariant
            lo < hi <= 0x1_0000_0000,
            lo * lo <= x,
            x < hi as int * hi as int,
        decreases hi - lo,
    {
        let mid = lo + (hi - lo) / 2;
        assert(mid * mid <= 0xffff_ffff * 0xffff_ffff) by (nonlinear_arith)
            requires
                mid <= 0xffff_ffff,
        ;
        if mid * mid <= x {
            lo = mid;
        } else {
            hi = mid;
        }
    }
    proof {
        lemma_sqrt_floor_unique(x as nat, lo as nat);
    }
    lo
}

} // verus!
