//! Exact-value checks of the saturating fixed-point scalar operations and
//! the small planar algebra built on them.

use rigid2d::fx::{fadd, fsub, fneg, fmul, fdiv, fabs, fclamp, FX_ONE, FX_TWO, SCALE};
use rigid2d::alg::{V2, v2_add, v2_dot, v2_cross, v2_perp, v2_scale, v2_sqnorm, Rot2, rot_apply,
    rot_compose, Iso2, iso_apply, iso_append_translation};

#[test]
fn addition_saturates_at_the_ends() {
    assert_eq!(fadd(1_000_000, 2_000_000), 3_000_000);
    assert_eq!(fadd(i64::MAX, 1), i64::MAX);
    assert_eq!(fadd(i64::MIN, -1), i64::MIN);
    assert_eq!(fsub(i64::MIN, 1), i64::MIN);
}

#[test]
fn multiplication_is_exact_on_unit_grid() {
    assert_eq!(fmul(2 * SCALE, 3 * SCALE), 6 * SCALE);
    assert_eq!(fmul(-2 * SCALE, 3 * SCALE), -6 * SCALE);
    assert_eq!(fmul(-2 * SCALE, -3 * SCALE), 6 * SCALE);
    // rounded toward zero
    assert_eq!(fmul(1, 500_000), 0);
    assert_eq!(fmul(-1, 500_000), 0);
    // saturates instead of overflowing
    assert_eq!(fmul(i64::MAX, i64::MAX), i64::MAX);
    assert_eq!(fmul(i64::MAX, -2_000_000), i64::MIN);
}

#[test]
fn division_rounds_toward_zero_and_clamps_degeneracy() {
    assert_eq!(fdiv(FX_ONE, FX_TWO), 500_000);
    assert_eq!(fdiv(-FX_ONE, FX_TWO), -500_000);
    assert_eq!(fdiv(7, 2_000_000), 3);
    // a zero divisor yields zero, never a fault
    assert_eq!(fdiv(123_456, 0), 0);
}

#[test]
fn negation_and_magnitude_are_total() {
    assert_eq!(fneg(i64::MIN), i64::MAX);
    assert_eq!(fneg(5), -5);
    assert_eq!(fabs(i64::MIN), i64::MAX);
    assert_eq!(fabs(-7), 7);
}

#[test]
fn clamp_prefers_the_lower_bound_of_an_empty_interval() {
    assert_eq!(fclamp(5, 0, 3), 3);
    assert_eq!(fclamp(-5, 0, 3), 0);
    assert_eq!(fclamp(1, 10, -10), 10);
}

#[test]
fn planar_vector_operations() {
    let a = V2 { x: 3 * SCALE, y: 4 * SCALE };
    let b = V2 { x: -SCALE, y: 2 * SCALE };
    assert_eq!(v2_add(&a, &b), V2 { x: 2 * SCALE, y: 6 * SCALE });
    assert_eq!(v2_dot(&a, &b), 5 * SCALE);
    assert_eq!(v2_cross(&a, &b), 10 * SCALE);
    assert_eq!(v2_perp(&a), V2 { x: -4 * SCALE, y: 3 * SCALE });
    assert_eq!(v2_scale(&a, FX_TWO), V2 { x: 6 * SCALE, y: 8 * SCALE });
    assert_eq!(v2_sqnorm(&a), 25 * SCALE);
}

#[test]
fn rotors_and_transforms_compose() {
    // a quarter turn: cosine zero, sine one
    let q = Rot2 { c: 0, s: FX_ONE };
    let v = V2 { x: 2 * SCALE, y: 0 };
    assert_eq!(rot_apply(&q, &v), V2 { x: 0, y: 2 * SCALE });
    // two quarter turns are a half turn
    let h = rot_compose(&q, &q);
    assert_eq!(h, Rot2 { c: -FX_ONE, s: 0 });
    let m = Iso2 { rot: q, tr: V2 { x: SCALE, y: 0 } };
    assert_eq!(iso_apply(&m, &v), V2 { x: SCALE, y: 2 * SCALE });
    let m2 = iso_append_translation(&m, &V2 { x: 0, y: SCALE });
    assert_eq!(m2.tr, V2 { x: SCALE, y: SCALE });
}

#[test]
fn free_fall_reaches_the_analytic_drop() {
    // one dynamic body under gravity (0, 9.81), step 1/60, leapfrog start;
    // after sixty steps the drop is g/2 within one percent
    let g: i64 = 9_810_000;
    let dt: i64 = 16_667;
    let mut v: i64 = fmul(g, fdiv(dt, FX_TWO));
    let mut y: i64 = 0;
    for _ in 0..60 {
        y = fadd(y, fmul(v, dt));
        v = fadd(v, fmul(g, dt));
    }
    let expected: i64 = 4_905_000;
    let err = (y - expected).abs();
    assert!(err <= expected / 100, "fell {} expected about {}", y, expected);
}
