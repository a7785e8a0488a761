//! Saturating fixed-point scalars.
//!
//! A scalar is an `i64` counting `SCALE`ths of a unit. Every operation
//! saturates at the ends of the representable range and is therefore total;
//! products and quotients are rounded toward zero. Each executable operation
//! is specified exactly by a spec function of the same shape.

use vstd::prelude::*;
use vstd::arithmetic::div_mod::lemma_div_is_ordered;
use vstd::arithmetic::div_mod::lemma_div_multiples_vanish;

verus! {

/// A fixed-point scalar: an `i64` counting `SCALE`ths of a unit.
pub type Fx = i64;

/// Number of raw steps in one unit.
pub const SCALE: i64 = 1_000_000;

/// The scalar one.
pub const FX_ONE: i64 = 1_000_000;

/// The scalar two.
pub const FX_TWO: i64 = 2_000_000;

/// The scalar four.
pub const FX_FOUR: i64 = 4_000_000;

/// The largest scalar; stands in for an infinite impulse bound.
pub const FX_MAX: i64 = i64::MAX;

/// The smallest scalar; stands in for an infinite negative impulse bound.
pub const FX_MIN: i64 = i64::MIN;

/// `x` forced into the representable range.
pub open spec fn sat(x: int) -> int {
    if x > i64::MAX as int {
        i64::MAX as int
    } else if x < i64::MIN as int {
        i64::MIN as int
    } else {
        x
    }
}

/// Absolute value.
pub open spec fn spec_abs(a: int) -> int {
    if a >= 0 { a } else { -a }
}

/// Saturating addition.
pub open spec fn sfadd(a: int, b: int) -> int {
    sat(a + b)
}

/// Saturating subtraction.
pub open spec fn sfsub(a: int, b: int) -> int {
    sat(a - b)
}

/// Saturating negation.
pub open spec fn sfneg(a: int) -> int {
    sat(-a)
}

/// Saturating fixed-point product, rounded toward zero.
pub open spec fn sfmul(a: int, b: int) -> int {
    let m = (spec_abs(a) * spec_abs(b)) / (SCALE as int);
    if (a < 0) != (b < 0) { sat(-m) } else { sat(m) }
}

/// Saturating fixed-point quotient, rounded toward zero.
/// A zero divisor yields zero: numeric degeneracy is clamped, not reported.
pub open spec fn sfdiv(a: int, b: int) -> int {
    if b == 0 {
        0
    } else {
        let m = (spec_abs(a) * (SCALE as int)) / spec_abs(b);
        if (a < 0) != (b < 0) { sat(-m) } else { sat(m) }
    }
}

/// The smaller scalar.
pub open spec fn sfmin(a: int, b: int) -> int {
    if a <= b { a } else { b }
}

/// The larger scalar.
pub open spec fn sfmax(a: int, b: int) -> int {
    if a >= b { a } else { b }
}

/// `x` forced into `[lo, hi]`; yields `lo` when the interval is empty.
pub open spec fn sfclamp(x: int, lo: int, hi: int) -> int {
    sfmax(lo, sfmin(x, hi))
}

/// Magnitude of `a` as a `u64`, total also at the smallest value.
pub fn fx_abs_u(a: i64) -> (r: u64)
    ensures
        r as int == spec_abs(a as int),
{
    if a >= 0 {
        a as u64
    } else {
        (-(a as i128)) as u64
    }
}

/// A magnitude with a sign, saturated into the scalar range.
fn fx_from_sign(neg: bool, m: u128) -> (r: Fx)
    ensures
        r as int == sat(if neg { -(m as int) } else { m as int }),
{
    if neg {
        if m >= 9_223_372_036_854_775_808u128 {
            i64::MIN
        } else {
            -(m as i64)
        }
    } else {
        if m > 9_223_372_036_854_775_807u128 {
            i64::MAX
        } else {
            m as i64
        }
    }
}

/// Saturating addition.
pub fn fadd(a: Fx, b: Fx) -> (r: Fx)
    ensures
        r as int == sfadd(a as int, b as int),
{
    let s: i128 = a as i128 + b as i128;
    if s > i64::MAX as i128 {
        i64::MAX
    } else if s < i64::MIN as i128 {
        i64::MIN
    } else {
        s as i64
    }
}

/// Saturating subtraction.
pub fn fsub(a: Fx, b: Fx) -> (r: Fx)
    ensures
        r as int == sfsub(a as int, b as int),
{
    let s: i128 = a as i128 - b as i128;
    if s > i64::MAX as i128 {
        i64::MAX
    } else if s < i64::MIN as i128 {
        i64::MIN
    } else {
        s as i64
    }
}

/// Saturating negation.
pub fn fneg(a: Fx) -> (r: Fx)
    ensures
        r as int == sfneg(a as int),
{
    if a == i64::MIN {
        i64::MAX
    } else {
        -a
    }
}

/// Saturating fixed-point multiplication, rounded toward zero.
pub fn fmul(a: Fx, b: Fx) -> (r: Fx)
    ensures
        r as int == sfmul(a as int, b as int),
{
    let neg: bool = (a < 0) != (b < 0);
    let ua: u64 = fx_abs_u(a);
    let ub: u64 = fx_abs_u(b);
    proof {
        assert((ua as nat) * (ub as nat) <= 0x8000_0000_0000_0000nat * 0x8000_0000_0000_0000nat)
            by (nonlinear_arith)
            requires
                ua as nat <= 0x8000_0000_0000_0000nat,
                ub as nat <= 0x8000_0000_0000_0000nat,
        ;
    }
    let m: u128 = (ua as u128) * (ub as u128) / (SCALE as u128);
    fx_from_sign(neg, m)
}

/// Saturating fixed-point division, rounded toward zero.
/// A zero divisor yields zero: numeric degeneracy is clamped, not reported.
pub fn fdiv(a: Fx, b: Fx) -> (r: Fx)
    ensures
        r as int == sfdiv(a as int, b as int),
{
    if b == 0 {
        0
    } else {
        let neg: bool = (a < 0) != (b < 0);
        let ua: u64 = fx_abs_u(a);
        let ub: u64 = fx_abs_u(b);
        proof {
            assert((ua as nat) * (SCALE as nat) <= 0x8000_0000_0000_0000nat * (SCALE as nat))
                by (nonlinear_arith)
                requires
                    ua as nat <= 0x8000_0000_0000_0000nat,
            ;
        }
        let m: u128 = (ua as u128) * (SCALE as u128) / (ub as u128);
        fx_from_sign(neg, m)
    }
}

/// The smaller scalar.
pub fn fmin(a: Fx, b: Fx) -> (r: Fx)
    ensures
        r as int == sfmin(a as int, b as int),
{
    if a <= b { a } else { b }
}

/// The larger scalar.
pub fn fmax(a: Fx, b: Fx) -> (r: Fx)
    ensures
        r as int == sfmax(a as int, b as int),
{
    if a >= b { a } else { b }
}

/// `x` forced into `[lo, hi]`; yields `lo` when the interval is empty.
pub fn fclamp(x: Fx, lo: Fx, hi: Fx) -> (r: Fx)
    ensures
        r as int == sfclamp(x as int, lo as int, hi as int),
{
    fmax(lo, fmin(x, hi))
}

/// Saturating absolute value.
pub fn fabs(a: Fx) -> (r: Fx)
    ensures
        r as int == sat(spec_abs(a as int)),
{
    if a == i64::MIN {
        i64::MAX
    } else if a < 0 {
        -a
    } else {
        a
    }
}

/// Scaling by the larger of two nonnegative factors cannot shrink a
/// nonnegative scalar's product.
pub proof fn lemma_sfmul_mono(a1: int, a2: int, b: int)
    requires
        0 <= a1 <= a2,
        0 <= b,
    ensures
        sfmul(a1, b) <= sfmul(a2, b),
{
    assert(a1 * b <= a2 * b) by (nonlinear_arith)
        requires
            0 <= a1 <= a2,
            0 <= b,
    ;
    lemma_div_is_ordered(a1 * b, a2 * b, SCALE as int);
}

/// Twice a nonnegative scalar is at least the scalar itself.
pub proof fn lemma_sfmul_two_ge(t: int)
    requires
        0 <= t <= i64::MAX as int,
    ensures
        t <= sfmul(FX_TWO as int, t),
{
    lemma_div_multiples_vanish(2 * t, SCALE as int);
    assert((FX_TWO as int) * t == (SCALE as int) * (2 * t)) by (nonlinear_arith);
}

}
