//! Fixed-point trigonometry on millidegree angles.
//!
//! The renderer measures angles in millidegrees, 0 at the 3-o'clock
//! position increasing clockwise, and evaluates sine and cosine as exact
//! integer formulas (a rational approximation scaled by `TRIG_SCALE`), so
//! every geometric test is a decidable integer comparison.

use vstd::prelude::*;

verus! {

/// Scale factor of the fixed-point sine and cosine values.
pub const TRIG_SCALE: i64 = 32768;

/// Rational approximation of `sin` on a half turn: for `t` millidegrees in
/// `[0, 180000]`, `sin(t) ~ 4 t (180000 - t) / (40500000000 - t (180000 - t))`,
/// here scaled by `TRIG_SCALE`.
pub open spec fn spec_half_turn_sin(t: int) -> int {
    4 * t * (180000 - t) * 32768 / (40500000000 - t * (180000 - t))
}

/// Fixed-point sine of an angle in millidegrees, scaled by `TRIG_SCALE`.
pub open spec fn spec_sin_mdeg(a: int) -> int {
    let m = a % 360000;
    if m < 180000 {
        spec_half_turn_sin(m)
    } else {
        -spec_half_turn_sin(m - 180000)
    }
}

/// Fixed-point cosine of an angle in millidegrees, scaled by `TRIG_SCALE`.
pub open spec fn spec_cos_mdeg(a: int) -> int {
    spec_sin_mdeg(a + 90000)
}

proof fn lemma_half_turn_sin_bounds(t: int)
    requires
        0 <= t <= 180000,
    ensures
        0 <= spec_half_turn_sin(t) <= 32768,
{
    let u = t * (180000 - t);
    assert(0 <= u <= 8100000000) by (nonlinear_arith)
        requires
            0 <= t <= 180000,
            u == t * (180000 - t),
    ;
    let num = 4 * u * 32768;
    let den = 40500000000 - u;
    assert(den >= 32400000000);
    assert(num <= 32768 * den) by (nonlinear_arith)
        requires
            0 <= u <= 8100000000,
            num == 4 * u * 32768,
            den == 40500000000 - u,
    ;
    assert(num / den >= 0) by (nonlinear_arith)
        requires
            num >= 0,
            den > 0,
    ;
    assert(num / den <= 32768) by (nonlinear_arith)
        requires
            num <= 32768 * den,
            den > 0,
            num >= 0,
    ;
    assert(spec_half_turn_sin(t) == num / den) by {
        assert(4 * t * (180000 - t) * 32768 == 4 * u * 32768) by (nonlinear_arith)
            requires
                u == t * (180000 - t),
        ;
    }
}

pub proof fn lemma_sin_mdeg_bounds(a: int)
    ensures
        -32768 <= spec_sin_mdeg(a) <= 32768,
{
    let m = a % 360000;
    assert(0 <= m < 360000);
    if m < 180000 {
        lemma_half_turn_sin_bounds(m);
    } else {
        lemma_half_turn_sin_bounds(m - 180000);
    }
}

/// Normalizes an angle in millidegrees into `[0, 360000)`.
pub fn norm_mdeg(a: i64) -> (r: i64)
    requires
        -2000000000000000 <= a <= 2000000000000000,
    ensures
        r == a as int % 360000,
        0 <= r < 360000,
{
    let m = a % 360000;
    if m < 0 {
        m + 360000
    } else {
        m
    }
}

fn half_turn_sin(t: i64) -> (r: i64)
    requires
        0 <= t <= 180000,
    ensures
        r == spec_half_turn_sin(t as int),
        0 <= r <= 32768,
{
    proof {
        assert(0 <= t as int * (180000 - t as int) <= 8100000000) by (nonlinear_arith)
            requires
                0 <= t <= 180000,
        ;
    }
    let u = t * (180000 - t);
    let num = 4 * u * 32768;
    let den = 40500000000 - u;
    proof {
        lemma_half_turn_sin_bounds(t as int);
        assert(4 * (t as int) * (180000 - t as int) * 32768 == 4 * (u as int) * 32768)
            by (nonlinear_arith)
            requires
                u == t * (180000 - t),
        ;
    }
    num / den
}

/// Fixed-point sine of an angle in millidegrees.
pub fn sin_mdeg(a: i64) -> (r: i64)
    requires
        -2000000000000000 <= a <= 2000000000000000,
    ensures
        r == spec_sin_mdeg(a as int),
        -32768 <= r <= 32768,
{
    let m = norm_mdeg(a);
    if m < 180000 {
        half_turn_sin(m)
    } else {
        let s = half_turn_sin(m - 180000);
        -s
    }
}

/// Fixed-point cosine of an angle in millidegrees.
pub fn cos_mdeg(a: i64) -> (r: i64)
    requires
        -1000000000000000 <= a <= 1000000000000000,
    ensures
        r == spec_cos_mdeg(a as int),
        -32768 <= r <= 32768,
{
    proof {
        lemma_sin_mdeg_bounds(a as int + 90000);
    }
    sin_mdeg(a + 90000)
}

} // verus!
