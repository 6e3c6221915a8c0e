//! Fixed-point trigonometry on milli-degree angles. Sine and cosine return
//! components of a unit vector at scale `TRIG_SCALE`; `atan2_fp` recovers a
//! milli-degree angle from a vector. Sine uses the classic rational
//! approximation `sin x ~ 4x(180-x) / (40500 - x(180-x))` (x in degrees),
//! which is exact at 0, 90 and 180 degrees; the arctangent uses the octant
//! reduction with `atan z ~ 45z + 16.33 z(1-z)` degrees, exact at 0 and 1.

use vstd::prelude::*;
use crate::angles::{valid_angle, ANG_HALF, ANG_QUARTER, ANG_TURN};

verus! {

/// Scale of unit-vector components: a heading's direction vector has
/// coordinates in `[-TRIG_SCALE, TRIG_SCALE]`.
pub const TRIG_SCALE: i64 = 1000;

/// Largest coordinate magnitude `atan2_fp` accepts.
pub const ATAN2_MAX: i64 = 2_000_000_000_000;

/// Sine over the first half turn, `d` in `[0, ANG_HALF]` milli-degrees,
/// scaled by `TRIG_SCALE`.
pub open spec fn sin_half_md(d: int) -> int {
    let p = d * (ANG_HALF - d);
    (4000 * p) / (40_500_000_000 - p)
}

/// Sine of an angle in `[0, ANG_TURN)` milli-degrees, scaled by `TRIG_SCALE`.
pub open spec fn sin_md(a: int) -> int {
    if a <= ANG_HALF {
        sin_half_md(a)
    } else {
        -sin_half_md(a - ANG_HALF)
    }
}

/// Cosine of an angle in `[0, ANG_TURN)` milli-degrees, scaled by
/// `TRIG_SCALE`: the sine shifted by a quarter turn.
pub open spec fn cos_md(a: int) -> int {
    if a < ANG_TURN - ANG_QUARTER {
        sin_md(a + ANG_QUARTER)
    } else {
        sin_md(a - (ANG_TURN - ANG_QUARTER))
    }
}

/// Over the first half turn the sine is between 0 and `TRIG_SCALE`.
pub proof fn lemma_sin_half_range(d: int)
    requires
        0 <= d <= ANG_HALF,
    ensures
        0 <= sin_half_md(d) <= TRIG_SCALE,
{
    let p = d * (ANG_HALF - d);
    assert(0 <= p <= 8_100_000_000) by (nonlinear_arith)
        requires
            0 <= d <= 180_000,
            p == d * (180_000 - d),
    ;
    let den = 40_500_000_000 - p;
    assert(0 <= (4000 * p) / den) by {
        vstd::arithmetic::div_mod::lemma_div_is_ordered(0, 4000 * p, den);
    }
    assert((4000 * p) / den <= 1000) by {
        vstd::arithmetic::div_mod::lemma_div_is_ordered(4000 * p, 1000 * den, den);
        vstd::arithmetic::div_mod::lemma_div_multiples_vanish(1000, den);
    }
}

/// The sine of any well-formed angle is a unit-scale component.
pub proof fn lemma_sin_range(a: int)
    requires
        valid_angle(a),
    ensures
        -TRIG_SCALE <= sin_md(a) <= TRIG_SCALE,
{
    if a <= ANG_HALF {
        lemma_sin_half_range(a);
    } else {
        lemma_sin_half_range(a - ANG_HALF);
    }
}

/// The cosine of any well-formed angle is a unit-scale component.
pub proof fn lemma_cos_range(a: int)
    requires
        valid_angle(a),
    ensures
        -TRIG_SCALE <= cos_md(a) <= TRIG_SCALE,
{
    if a < ANG_TURN - ANG_QUARTER {
        lemma_sin_range(a + ANG_QUARTER);
    } else {
        lemma_sin_range(a - (ANG_TURN - ANG_QUARTER));
    }
}

/// The approximation is exact on the four axis directions.
pub proof fn lemma_trig_anchors()
    ensures
        sin_md(0) == 0 && cos_md(0) == TRIG_SCALE,
        sin_md(ANG_QUARTER as int) == TRIG_SCALE && cos_md(ANG_QUARTER as int) == 0,
        sin_md(ANG_HALF as int) == 0 && cos_md(ANG_HALF as int) == -TRIG_SCALE,
        sin_md(270_000) == -TRIG_SCALE && cos_md(270_000) == 0,
{
    assert(sin_half_md(0) == 0);
    assert(sin_half_md(90_000) == 1000) by {
        assert(90_000 * (180_000 - 90_000) == 8_100_000_000);
        assert((4000int * 8_100_000_000int) / (40_500_000_000int - 8_100_000_000int) == 1000);
    }
    assert(sin_half_md(180_000) == 0);
}

/// Sine of a heading angle, in unit-vector scale.
pub fn sin_fp(a: i64) -> (r: i64)
    requires
        valid_angle(a as int),
    ensures
        r == sin_md(a as int),
        -TRIG_SCALE <= r <= TRIG_SCALE,
{
    let (d, neg) = if a <= ANG_HALF {
        (a, false)
    } else {
        (a - ANG_HALF, true)
    };
    let du = d as u64;
    assert(du * (180_000 - du) <= 180_000 * 180_000) by (nonlinear_arith)
        requires
            du <= 180_000,
    ;
    let p = du * (180_000 - du);
    let num = 4000 * p;
    let den = 40_500_000_000 - p;
    let q = num / den;
    proof {
        lemma_sin_half_range(d as int);
        assert(p as int == (d as int) * (ANG_HALF - d as int));
        assert(q as int == sin_half_md(d as int));
    }
    if neg {
        -(q as i64)
    } else {
        q as i64
    }
}

/// Cosine of a heading angle, in unit-vector scale.
pub fn cos_fp(a: i64) -> (r: i64)
    requires
        valid_angle(a as int),
    ensures
        r == cos_md(a as int),
        -TRIG_SCALE <= r <= TRIG_SCALE,
{
    if a < ANG_TURN - ANG_QUARTER {
        sin_fp(a + ANG_QUARTER)
    } else {
        sin_fp(a - (ANG_TURN - ANG_QUARTER))
    }
}

/// Arctangent over the first octant: `atan(n/d)` in milli-degrees, for
/// `0 <= n <= d`, `d > 0`.
pub open spec fn atan_oct_md(n: int, d: int) -> int {
    let q = (1000 * n) / d;
    (45_000_000 * q + 16_330 * q * (1000 - q)) / 1_000_000
}

/// The octant arctangent lies in `[0, 45000]` and is exact at the ends.
pub proof fn lemma_atan_oct_range(n: int, d: int)
    requires
        0 <= n <= d,
        0 < d,
    ensures
        0 <= atan_oct_md(n, d) <= 45_000,
        n == 0 ==> atan_oct_md(n, d) == 0,
        n == d ==> atan_oct_md(n, d) == 45_000,
{
    let q = (1000 * n) / d;
    assert(0 <= q) by {
        vstd::arithmetic::div_mod::lemma_div_is_ordered(0, 1000 * n, d);
    }
    assert(q <= 1000) by {
        vstd::arithmetic::div_mod::lemma_div_is_ordered(1000 * n, 1000 * d, d);
        vstd::arithmetic::div_mod::lemma_div_multiples_vanish(1000, d);
    }
    let f = 45_000_000 * q + 16_330 * q * (1000 - q);
    assert(0 <= f <= 45_000_000_000) by (nonlinear_arith)
        requires
            0 <= q <= 1000,
            f == 45_000_000 * q + 16_330 * q * (1000 - q),
    ;
    assert(0 <= f / 1_000_000) by {
        vstd::arithmetic::div_mod::lemma_div_is_ordered(0, f, 1_000_000);
    }
    assert(f / 1_000_000 <= 45_000) by {
        vstd::arithmetic::div_mod::lemma_div_is_ordered(f, 45_000_000_000, 1_000_000);
    }
    if n == 0 {
        assert(q == 0) by {
            vstd::arithmetic::div_mod::lemma_div_of0(d);
        }
    }
    if n == d {
        assert(q == 1000) by {
            vstd::arithmetic::div_mod::lemma_div_multiples_vanish(1000, d);
        }
        assert(f == 45_000_000_000);
    }
}

/// The angle, in `[0, ANG_TURN)` milli-degrees, of the vector `(x, y)`.
pub open spec fn atan2_md(y: int, x: int) -> int {
    let ax = if x >= 0 {
        x
    } else {
        -x
    };
    let ay = if y >= 0 {
        y
    } else {
        -y
    };
    let t = if ay <= ax {
        atan_oct_md(ay, ax)
    } else {
        ANG_QUARTER - atan_oct_md(ax, ay)
    };
    if x >= 0 && y >= 0 {
        t
    } else if x < 0 && y >= 0 {
        ANG_HALF - t
    } else if x < 0 {
        ANG_HALF + t
    } else if t == 0 {
        0
    } else {
        ANG_TURN - t
    }
}

/// The arctangent is exact on the four axes and the first diagonal.
pub proof fn lemma_atan2_anchors()
    ensures
        atan2_md(0, 1) == 0,
        atan2_md(1, 0) == ANG_QUARTER,
        atan2_md(0, -1) == ANG_HALF,
        atan2_md(-1, 0) == 270_000,
        atan2_md(1, 1) == 45_000,
{
    lemma_atan_oct_range(0, 1);
    lemma_atan_oct_range(1, 1);
}

/// Octant arctangent: `atan(n/d)` in milli-degrees.
fn atan_oct(n: u64, d: u64) -> (r: u64)
    requires
        n <= d,
        0 < d,
        d <= 2 * ATAN2_MAX,
    ensures
        r == atan_oct_md(n as int, d as int),
        r <= 45_000,
{
    let q = (1000 * n) / d;
    proof {
        lemma_atan_oct_range(n as int, d as int);
        assert(q <= 1000) by {
            vstd::arithmetic::div_mod::lemma_div_is_ordered(
                1000 * n as int,
                1000 * d as int,
                d as int,
            );
            vstd::arithmetic::div_mod::lemma_div_multiples_vanish(1000, d as int);
        }
    }
    (45_000_000 * q + 16_330 * q * (1000 - q)) / 1_000_000
}

/// The heading angle of the vector `(x, y)`, in milli-degrees. Exact on the
/// axes and the first diagonal; each result falls in the quadrant of its
/// vector.
pub fn atan2_fp(y: i64, x: i64) -> (r: i64)
    requires
        -ATAN2_MAX <= x <= ATAN2_MAX,
        -ATAN2_MAX <= y <= ATAN2_MAX,
        !(x == 0 && y == 0),
    ensures
        r == atan2_md(y as int, x as int),
        valid_angle(r as int),
{
    let ax: u64 = if x >= 0 {
        x as u64
    } else {
        (-x) as u64
    };
    let ay: u64 = if y >= 0 {
        y as u64
    } else {
        (-y) as u64
    };
    let t: i64 = if ay <= ax {
        atan_oct(ay, ax) as i64
    } else {
        ANG_QUARTER - atan_oct(ax, ay) as i64
    };
    proof {
        if ay <= ax {
            lemma_atan_oct_range(ay as int, ax as int);
        } else {
            lemma_atan_oct_range(ax as int, ay as int);
        }
    }
    if x >= 0 && y >= 0 {
        t
    } else if x < 0 && y >= 0 {
        ANG_HALF - t
    } else if x < 0 {
        ANG_HALF + t
    } else if t == 0 {
        0
    } else {
        ANG_TURN - t
    }
}

} // verus!
