//! Fixed-point scalars.
//!
//! A coordinate is an `i64` counting 1/65536ths of a world unit.  All
//! pipeline arithmetic is done exactly on `i128` intermediates and then
//! saturated back into the narrower type, so every operation has an exact
//! integer specification: `tdiv` is division truncated toward zero,
//! `fxmul`/`fxdiv` are fixed-point multiplication and division, and
//! `fxround` rounds a fixed-point value to the nearest integer, halves
//! away from zero.

use vstd::arithmetic::div_mod::{lemma_div_by_multiple, lemma_div_is_ordered, lemma_div_pos_is_pos};
use vstd::arithmetic::mul::lemma_mul_upper_bound;
use vstd::prelude::*;

verus! {

/// Number of fixed-point steps in one world unit.
pub const SCALE: i64 = 65536;

/// Half of one world unit, in fixed-point steps.
pub const HALF: i64 = 32768;

/// Division truncated toward zero, as Rust's `/` computes it on signed
/// integers.  Meaningful for `b > 0`.
pub open spec fn tdiv(a: int, b: int) -> int {
    if a >= 0 {
        a / b
    } else {
        -((-a) / b)
    }
}

/// Fixed-point product: exact product scaled back down, truncated toward zero.
pub open spec fn fxmul(a: int, b: int) -> int {
    tdiv(a * b, SCALE as int)
}

/// Fixed-point quotient: `a` scaled up, then divided by `b`, truncated
/// toward zero.
pub open spec fn fxdiv(a: int, b: int) -> int {
    tdiv(a * (SCALE as int), b)
}

/// Nearest integer to the fixed-point value `a`, halves rounded away from
/// zero.
pub open spec fn fxround(a: int) -> int {
    if a >= 0 {
        (a + HALF) / (SCALE as int)
    } else {
        -((-a + HALF) / (SCALE as int))
    }
}

/// `v` forced into `[lo, hi]`.
pub open spec fn clamp(v: int, lo: int, hi: int) -> int {
    if v < lo {
        lo
    } else if v > hi {
        hi
    } else {
        v
    }
}

/// A product of bounded factors is bounded by the product of the bounds.
pub proof fn lemma_mul_bound(a: int, a_bound: int, b: int, b_bound: int)
    requires
        -a_bound <= a <= a_bound,
        -b_bound <= b <= b_bound,
        0 <= a_bound,
        0 <= b_bound,
    ensures
        -(a_bound * b_bound) <= a * b <= a_bound * b_bound,
{
    let aa = if a >= 0 { a } else { -a };
    let bb = if b >= 0 { b } else { -b };
    lemma_mul_upper_bound(aa, a_bound, bb, b_bound);
    assert(a * b == aa * bb || a * b == -(aa * bb)) by (nonlinear_arith)
        requires
            aa == a || aa == -a,
            bb == b || bb == -b;
}

/// Truncating division by `b >= 1` keeps a quotient within any multiple
/// bound on the dividend.
pub proof fn lemma_tdiv_bound(a: int, b: int, m: int)
    requires
        b >= 1,
        0 <= m,
        -(m * b) <= a <= m * b,
    ensures
        -m <= tdiv(a, b) <= m,
{
    lemma_div_by_multiple(m, b);
    if a >= 0 {
        lemma_div_pos_is_pos(a, b);
        lemma_div_is_ordered(a, m * b, b);
    } else {
        lemma_div_pos_is_pos(-a, b);
        lemma_div_is_ordered(-a, m * b, b);
    }
}

/// Truncating division by `b >= 1` never grows the magnitude.
pub proof fn lemma_tdiv_shrinks(a: int, b: int)
    requires
        b >= 1,
    ensures
        -(if a >= 0 { a } else { -a }) <= tdiv(a, b) <= if a >= 0 { a } else { -a },
{
    let m = if a >= 0 { a } else { -a };
    assert(m <= m * b) by (nonlinear_arith)
        requires 0 <= m && 1 <= b;
    lemma_tdiv_bound(a, b, m);
}

/// Division truncated toward zero, for a positive divisor.
pub fn tdiv_i128(a: i128, b: i128) -> (r: i128)
    requires
        b > 0,
    ensures
        r == tdiv(a as int, b as int),
{
    proof {
        lemma_tdiv_shrinks(a as int, b as int);
    }
    match a.checked_div(b) {
        Some(q) => q,
        None => vstd::pervasive::unreached(),
    }
}

/// Fixed-point product of exact `i128` values.
pub fn fxmul_i128(a: i128, b: i128) -> (r: i128)
    requires
        i128::MIN <= a * b <= i128::MAX,
    ensures
        r == fxmul(a as int, b as int),
{
    tdiv_i128(a * b, SCALE as i128)
}

/// Nearest integer to the fixed-point value `a`, halves away from zero.
pub fn fxround_i128(a: i128) -> (r: i128)
    requires
        i128::MIN + HALF < a < i128::MAX - HALF,
    ensures
        r == fxround(a as int),
{
    if a >= 0 {
        tdiv_i128(a + HALF as i128, SCALE as i128)
    } else {
        -tdiv_i128(-a + HALF as i128, SCALE as i128)
    }
}

/// `v` saturated into the `i64` range.
pub fn sat_i64(v: i128) -> (r: i64)
    ensures
        r as int == clamp(v as int, i64::MIN as int, i64::MAX as int),
{
    if v > i64::MAX as i128 {
        i64::MAX
    } else if v < i64::MIN as i128 {
        i64::MIN
    } else {
        v as i64
    }
}

/// `v` saturated into the `i32` range.
pub fn sat_i32(v: i128) -> (r: i32)
    ensures
        r as int == clamp(v as int, i32::MIN as int, i32::MAX as int),
{
    if v > i32::MAX as i128 {
        i32::MAX
    } else if v < i32::MIN as i128 {
        i32::MIN
    } else {
        v as i32
    }
}

} // verus!
