//! Sine, cosine and tangent of angles given in half turns.
//!
//! The sine is the rational approximation `16 p (1 - p) / (5 - 4 p (1 - p))`
//! of `sin(pi p)` on `[0, 1]`, continued as an odd function of period two. It
//! is exact at the multiples of one half and stays within two thousandths of
//! the true sine.
use vstd::prelude::*;

use crate::scalar::{magnitude, magnitude_of, with_sign, Scalar, ONE_RAW};

verus! {

/// Raw value of one half.
pub const HALF_RAW: i64 = 0x8000_0000;

/// Raw value of two.
pub const TWO_RAW: i64 = 0x2_0000_0000;

/// Raw value of pi, rounded down.
pub const PI_RAW: i64 = 0x3_243f_6a88;

/// Raw value of the arch over a phase `p` in `[0, 1]`, itself in `[0, 1]`.
pub open spec fn arch(p: int) -> int {
    let q = p * (ONE_RAW - p);
    (16 * q * ONE_RAW) / (5 * ONE_RAW * ONE_RAW - 4 * q)
}

/// Raw value of the sine of `x` half turns.
pub open spec fn sine_raw(x: int) -> int {
    let m = magnitude(x) % (TWO_RAW as int);
    let h = if m <= ONE_RAW {
        arch(m)
    } else {
        -arch(m - ONE_RAW)
    };
    if x < 0 {
        -h
    } else {
        h
    }
}

/// Sine of `x` half turns.
pub open spec fn spec_sin_half_turns(x: Scalar) -> Scalar {
    Scalar::of(sine_raw(x@))
}

/// Cosine of `x` half turns: the sine a quarter turn further.
pub open spec fn spec_cos_half_turns(x: Scalar) -> Scalar {
    spec_sin_half_turns(x.spec_add(Scalar { raw: HALF_RAW }))
}

/// Tangent of `x` half turns: sine over cosine.
pub open spec fn spec_tan_half_turns(x: Scalar) -> Scalar {
    spec_sin_half_turns(x).spec_div(spec_cos_half_turns(x))
}

/// Tangent of an angle in radians.
pub open spec fn spec_tan(radians: Scalar) -> Scalar {
    spec_tan_half_turns(radians.spec_div(Scalar { raw: PI_RAW }))
}

/// The arch stays between zero and one.
pub proof fn lemma_arch_range(p: int)
    requires
        0 <= p <= ONE_RAW,
    ensures
        0 <= arch(p) <= ONE_RAW,
        0 <= p * (ONE_RAW - p) <= 0x4000_0000_0000_0000,
        5 * ONE_RAW * ONE_RAW - 4 * (p * (ONE_RAW - p)) >= 4 * ONE_RAW * ONE_RAW,
{
    let q = p * (ONE_RAW - p);
    assert(0 <= q) by (nonlinear_arith)
        requires
            q == p * (ONE_RAW - p),
            0 <= p <= ONE_RAW,
    ;
    // 4 p (1 - p) <= 1, since (1 - 2p)^2 >= 0
    let e = ONE_RAW - 2 * p;
    assert(e * e >= 0) by (nonlinear_arith);
    assert(4 * q <= ONE_RAW * ONE_RAW) by (nonlinear_arith)
        requires
            q == p * (ONE_RAW - p),
            e == ONE_RAW - 2 * p,
            e * e >= 0,
    ;
    assert(ONE_RAW * ONE_RAW == 0x1_0000_0000_0000_0000) by (nonlinear_arith)
        requires
            ONE_RAW == 0x1_0000_0000,
    ;
    let d = 5 * ONE_RAW * ONE_RAW - 4 * q;
    assert(5 * ONE_RAW * ONE_RAW == 5 * (ONE_RAW * ONE_RAW)) by (nonlinear_arith);
    assert(d >= 4 * (ONE_RAW * ONE_RAW));
    assert(4 * ONE_RAW * ONE_RAW == 4 * (ONE_RAW * ONE_RAW)) by (nonlinear_arith);
    let n = 16 * q * ONE_RAW;
    assert(n == 16 * (q * ONE_RAW)) by (nonlinear_arith)
        requires
            n == 16 * q * ONE_RAW,
    ;
    assert(0 <= n <= ONE_RAW * d) by (nonlinear_arith)
        requires
            n == 16 * (q * ONE_RAW),
            0 <= 4 * q <= ONE_RAW * ONE_RAW,
            d >= 4 * (ONE_RAW * ONE_RAW),
            ONE_RAW > 0,
    ;
    assert(0 <= n / d <= ONE_RAW) by (nonlinear_arith)
        requires
            0 <= n <= ONE_RAW * d,
            d > 0,
    ;
}

/// The sine stays between minus one and one.
pub proof fn lemma_sine_range(x: int)
    ensures
        -ONE_RAW <= sine_raw(x) <= ONE_RAW,
{
    let m = magnitude(x) % (TWO_RAW as int);
    if m <= ONE_RAW {
        lemma_arch_range(m);
    } else {
        lemma_arch_range(m - ONE_RAW);
    }
}

fn arch_of(p: u128) -> (r: u128)
    requires
        p <= ONE_RAW,
    ensures
        r == arch(p as int),
        r <= ONE_RAW,
{
    proof {
        lemma_arch_range(p as int);
    }
    let one: u128 = ONE_RAW as u128;
    let q: u128 = p * (one - p);
    assert(16 * q * one <= 0x4_0000_0000_0000_0000_0000_0000_0000) by (nonlinear_arith)
        requires
            0 <= q <= 0x4000_0000_0000_0000,
            one == 0x1_0000_0000,
    ;
    assert(5 * one * one == 0x5_0000_0000_0000_0000) by (nonlinear_arith)
        requires
            one == 0x1_0000_0000,
    ;
    assert(5 * ONE_RAW * ONE_RAW == 5 * one * one);
    assert(16 * q * ONE_RAW == 16 * q * one);
    (16 * q * one) / (5 * one * one - 4 * q)
}

/// Sine of `x` half turns.
pub fn sin_half_turns(x: Scalar) -> (r: Scalar)
    ensures
        r == spec_sin_half_turns(x),
        -ONE_RAW <= r.raw <= ONE_RAW,
{
    proof {
        lemma_sine_range(x@);
    }
    let m: u128 = magnitude_of(x.raw) % (TWO_RAW as u128);
    if m <= ONE_RAW as u128 {
        let h = arch_of(m);
        Scalar { raw: with_sign(x.raw < 0, h) }
    } else {
        let h = arch_of(m - ONE_RAW as u128);
        Scalar { raw: with_sign(x.raw >= 0, h) }
    }
}

/// Cosine of `x` half turns.
pub fn cos_half_turns(x: Scalar) -> (r: Scalar)
    ensures
        r == spec_cos_half_turns(x),
        -ONE_RAW <= r.raw <= ONE_RAW,
{
    sin_half_turns(x.add(Scalar { raw: HALF_RAW }))
}

/// Tangent of `x` half turns.
pub fn tan_half_turns(x: Scalar) -> (r: Scalar)
    ensures
        r == spec_tan_half_turns(x),
{
    sin_half_turns(x).div(cos_half_turns(x))
}

/// Tangent of an angle in radians.
pub fn tan(radians: Scalar) -> (r: Scalar)
    ensures
        r == spec_tan(radians),
{
    tan_half_turns(radians.div(Scalar::from_raw(PI_RAW)))
}

} // verus!
