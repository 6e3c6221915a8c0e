//! Fixed-point 2D vectors. Positions are in milli-units; direction vectors
//! produced by `normalize_or_zero` have components in
//! `[-TRIG_SCALE, TRIG_SCALE]`.

use vstd::prelude::*;
use crate::math::{floor_div, isqrt, lemma_sqrt_floor_bounds, sqrt_floor};
use crate::trig::TRIG_SCALE;

verus! {

/// Largest coordinate magnitude for which squared lengths still fit in an
/// `i64`: differences of world positions stay well below this.
pub const VEC_MAX: i64 = 2_000_000_000;

/// A 2D vector with fixed-point integer coordinates.
#[derive(Clone, Copy, PartialEq, Eq, Structural, Debug)]
pub struct Vec2I {
    pub x: i64,
    pub y: i64,
}

/// The squared Euclidean length of `(x, y)`.
pub open spec fn len2_of(x: int, y: int) -> int {
    x * x + y * y
}

/// The x component of the unit vector along `(x, y)` at scale `TRIG_SCALE`,
/// or zero for the zero vector.
pub open spec fn norm_x(x: int, y: int) -> int {
    if x == 0 && y == 0 {
        0
    } else {
        (TRIG_SCALE * x) / (sqrt_floor(len2_of(x, y) as nat) as int)
    }
}

/// The y component of the unit vector along `(x, y)` at scale `TRIG_SCALE`,
/// or zero for the zero vector.
pub open spec fn norm_y(x: int, y: int) -> int {
    if x == 0 && y == 0 {
        0
    } else {
        (TRIG_SCALE * y) / (sqrt_floor(len2_of(x, y) as nat) as int)
    }
}

/// Squares of bounded coordinates fit comfortably in an `i64`.
pub proof fn lemma_len2_bound(x: int, y: int)
    requires
        -VEC_MAX <= x <= VEC_MAX,
        -VEC_MAX <= y <= VEC_MAX,
    ensures
        0 <= len2_of(x, y) <= 8_000_000_000_000_000_000,
        x * x <= 4_000_000_000_000_000_000,
        y * y <= 4_000_000_000_000_000_000,
        0 <= x * x,
        0 <= y * y,
{
    assert(0 <= x * x <= 4_000_000_000_000_000_000 && 0 <= y * y
        <= 4_000_000_000_000_000_000) by (nonlinear_arith)
        requires
            -2_000_000_000 <= x <= 2_000_000_000,
            -2_000_000_000 <= y <= 2_000_000_000,
    ;
}

/// The square root of a squared length bounds each coordinate's magnitude.
pub proof fn lemma_sqrt_len2_dominates(x: int, y: int)
    requires
        -VEC_MAX <= x <= VEC_MAX,
        -VEC_MAX <= y <= VEC_MAX,
    ensures
        x <= sqrt_floor(len2_of(x, y) as nat),
        -x <= sqrt_floor(len2_of(x, y) as nat),
        y <= sqrt_floor(len2_of(x, y) as nat),
        -y <= sqrt_floor(len2_of(x, y) as nat),
{
    lemma_len2_bound(x, y);
    let n2 = len2_of(x, y) as nat;
    let l = sqrt_floor(n2) as int;
    lemma_sqrt_floor_bounds(n2);
    let ax = if x >= 0 {
        x
    } else {
        -x
    };
    let ay = if y >= 0 {
        y
    } else {
        -y
    };
    assert(ax * ax <= n2 && ay * ay <= n2) by (nonlinear_arith)
        requires
            n2 == x * x + y * y,
            ax == if x >= 0 {
                x
            } else {
                -x
            },
            ay == if y >= 0 {
                y
            } else {
                -y
            },
    ;
    assert(ax <= l) by (nonlinear_arith)
        requires
            ax * ax <= n2,
            n2 < (l + 1) * (l + 1),
            0 <= ax,
            0 <= l,
    ;
    assert(ay <= l) by (nonlinear_arith)
        requires
            ay * ay <= n2,
            n2 < (l + 1) * (l + 1),
            0 <= ay,
            0 <= l,
    ;
}

impl Vec2I {
    /// Whether both coordinates are small enough for squared-length
    /// arithmetic.
    pub open spec fn bounded(self) -> bool {
        -VEC_MAX <= self.x <= VEC_MAX && -VEC_MAX <= self.y <= VEC_MAX
    }

    /// The squared length of the vector.
    pub fn len2(&self) -> (r: i64)
        requires
            self.bounded(),
        ensures
            r == len2_of(self.x as int, self.y as int),
            r >= 0,
    {
        proof {
            lemma_len2_bound(self.x as int, self.y as int);
        }
        self.x * self.x + self.y * self.y
    }

    /// The unit vector along `self` at scale `TRIG_SCALE`, or the zero
    /// vector when `self` is zero.
    pub fn normalize_or_zero(&self) -> (r: Vec2I)
        requires
            self.bounded(),
        ensures
            r.x == norm_x(self.x as int, self.y as int),
            r.y == norm_y(self.x as int, self.y as int),
            -TRIG_SCALE <= r.x <= TRIG_SCALE,
            -TRIG_SCALE <= r.y <= TRIG_SCALE,
            (self.x == 0 && self.y == 0) ==> (r.x == 0 && r.y == 0),
    {
        if self.x == 0 && self.y == 0 {
            Vec2I { x: 0, y: 0 }
        } else {
            let n2 = self.len2();
            let l = isqrt(n2 as u64);
            proof {
                lemma_sqrt_len2_dominates(self.x as int, self.y as int);
                assert(l >= 1) by {
                    assert(len2_of(self.x as int, self.y as int) >= 1) by (nonlinear_arith)
                        requires
                            !(self.x == 0 && self.y == 0),
                            len2_of(self.x as int, self.y as int) == self.x as int * self.x as int
                                + self.y as int * self.y as int,
                    ;
                    lemma_sqrt_floor_bounds(n2 as nat);
                }
            }
            let li = l as i64;
            let ux = floor_div(TRIG_SCALE * self.x, li);
            let uy = floor_div(TRIG_SCALE * self.y, li);
            proof {
                lemma_unit_component_bounded(self.x as int, li as int);
                lemma_unit_component_bounded(self.y as int, li as int);
            }
            Vec2I { x: ux, y: uy }
        }
    }
}

/// Dividing `TRIG_SCALE * c` by any `l >= |c|` yields a unit-scale value.
proof fn lemma_unit_component_bounded(c: int, l: int)
    requires
        l >= 1,
        c <= l,
        -c <= l,
    ensures
        -TRIG_SCALE <= (TRIG_SCALE * c) / l <= TRIG_SCALE,
{
    assert(-1000 * l <= 1000 * c <= 1000 * l) by (nonlinear_arith)
        requires
            -l <= c <= l,
            l >= 1,
    ;
    vstd::arithmetic::div_mod::lemma_div_is_ordered(-1000 * l, 1000 * c, l);
    vstd::arithmetic::div_mod::lemma_div_is_ordered(1000 * c, 1000 * l, l);
    vstd::arithmetic::div_mod::lemma_div_multiples_vanish(1000, l);
    vstd::arithmetic::div_mod::lemma_div_multiples_vanish(-1000, l);
}

} // verus!
