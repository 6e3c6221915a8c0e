//! Exact values for the integer math and fixed-point trigonometry.

use boid_sim::angles::{ang_delta, wrap_angle};
use boid_sim::math::{floor_div, isqrt};
use boid_sim::trig::{atan2_fp, cos_fp, sin_fp};
use boid_sim::vec2::Vec2I;

#[test]
fn isqrt_exact_values() {
    assert_eq!(isqrt(0), 0);
    assert_eq!(isqrt(1), 1);
    assert_eq!(isqrt(3), 1);
    assert_eq!(isqrt(4), 2);
    assert_eq!(isqrt(8), 2);
    assert_eq!(isqrt(9), 3);
    assert_eq!(isqrt(1_000_000), 1000);
    assert_eq!(isqrt(u64::MAX), 4_294_967_295);
}

#[test]
fn floor_div_rounds_toward_negative_infinity() {
    assert_eq!(floor_div(7, 2), 3);
    assert_eq!(floor_div(-7, 2), -4);
    assert_eq!(floor_div(-8, 2), -4);
    assert_eq!(floor_div(8, 2), 4);
    assert_eq!(floor_div(0, 5), 0);
    assert_eq!(floor_div(-1, 1_000_000_000), -1);
}

#[test]
fn wrap_angle_into_range() {
    assert_eq!(wrap_angle(0), 0);
    assert_eq!(wrap_angle(359_999), 359_999);
    assert_eq!(wrap_angle(360_000), 0);
    assert_eq!(wrap_angle(370_000), 10_000);
    assert_eq!(wrap_angle(-10_000), 350_000);
    assert_eq!(wrap_angle(719_999), 359_999);
}

#[test]
fn ang_delta_shortest_rotation() {
    assert_eq!(ang_delta(10_000, 350_000), -20_000);
    assert_eq!(ang_delta(350_000, 10_000), 20_000);
    assert_eq!(ang_delta(0, 180_000), 180_000);
    assert_eq!(ang_delta(90_000, 90_000), 0);
    assert_eq!(ang_delta(0, 270_000), -90_000);
}

#[test]
fn sine_and_cosine_axis_values() {
    assert_eq!(sin_fp(0), 0);
    assert_eq!(sin_fp(90_000), 1000);
    assert_eq!(sin_fp(180_000), 0);
    assert_eq!(sin_fp(270_000), -1000);
    assert_eq!(cos_fp(0), 1000);
    assert_eq!(cos_fp(90_000), 0);
    assert_eq!(cos_fp(180_000), -1000);
    assert_eq!(cos_fp(270_000), 0);
}

#[test]
fn sine_of_thirty_degrees_is_exact() {
    assert_eq!(sin_fp(30_000), 500);
    assert_eq!(sin_fp(150_000), 500);
    assert_eq!(sin_fp(210_000), -500);
}

#[test]
fn sine_stays_unit_scale() {
    let mut a: i64 = 0;
    while a < 360_000 {
        let s = sin_fp(a);
        let c = cos_fp(a);
        assert!((-1000..=1000).contains(&s));
        assert!((-1000..=1000).contains(&c));
        a += 7_321;
    }
}

#[test]
fn atan2_axis_and_diagonal_values() {
    assert_eq!(atan2_fp(0, 5), 0);
    assert_eq!(atan2_fp(5, 0), 90_000);
    assert_eq!(atan2_fp(0, -5), 180_000);
    assert_eq!(atan2_fp(-5, 0), 270_000);
    assert_eq!(atan2_fp(3, 3), 45_000);
    assert_eq!(atan2_fp(-2, -2), 225_000);
}

#[test]
fn atan2_quadrants() {
    let a = atan2_fp(1, 10);
    assert!((0..90_000).contains(&a));
    let b = atan2_fp(10, -1);
    assert!((90_000..180_000).contains(&b));
    let c = atan2_fp(-10, -10);
    assert!((180_000..270_000).contains(&c));
    let d = atan2_fp(-10, 10);
    assert!((270_000..360_000).contains(&d));
}

#[test]
fn normalize_exact_pythagorean() {
    let v = Vec2I { x: 3, y: 4 };
    let u = v.normalize_or_zero();
    assert_eq!(u.x, 600);
    assert_eq!(u.y, 800);
    let w = Vec2I { x: -3, y: -4 };
    let uw = w.normalize_or_zero();
    assert_eq!(uw.x, -600);
    assert_eq!(uw.y, -800);
}

#[test]
fn normalize_zero_vector_stays_zero() {
    let v = Vec2I { x: 0, y: 0 };
    let u = v.normalize_or_zero();
    assert_eq!(u.x, 0);
    assert_eq!(u.y, 0);
}

#[test]
fn normalize_axis_vector() {
    let v = Vec2I { x: 5_000, y: 0 };
    let u = v.normalize_or_zero();
    assert_eq!(u.x, 1000);
    assert_eq!(u.y, 0);
}

#[test]
fn len2_exact() {
    let v = Vec2I { x: 3, y: 4 };
    assert_eq!(v.len2(), 25);
    let z = Vec2I { x: 0, y: 0 };
    assert_eq!(z.len2(), 0);
}
