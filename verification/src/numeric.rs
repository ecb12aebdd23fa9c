//! Verified integer helpers: division that rounds toward zero (the rounding
//! the analytic SMO step uses) and clamping into an interval.

use vstd::prelude::*;

verus! {

/// Quotient of `a` by `b` rounded toward zero, as Rust's `/` computes it
/// (the spec-level `/` rounds toward negative infinity instead).
pub open spec fn trunc_div(a: int, b: int) -> int {
    if a >= 0 {
        a / b
    } else {
        -((-a) / b)
    }
}

/// `v` clamped into the interval `[lo, hi]`.
pub open spec fn clamp_spec(v: int, lo: int, hi: int) -> int {
    if v < lo {
        lo
    } else if v > hi {
        hi
    } else {
        v
    }
}

/// A nonnegative quotient is bounded by its dividend.
pub proof fn lemma_div_at_most(a: int, b: int)
    requires
        0 <= a,
        1 <= b,
    ensures
        0 <= a / b <= a,
{
    assert(0 <= a / b <= a) by (nonlinear_arith)
        requires
            0 <= a,
            1 <= b,
    ;
}

/// Truncating division for `i64` with a positive divisor.
pub fn div_trunc_i64(a: i64, b: i64) -> (r: i64)
    requires
        1 <= b,
        -0x7fff_ffff_ffff_ffff <= a,
    ensures
        r == trunc_div(a as int, b as int),
{
    if a >= 0 {
        let q: u64 = (a as u64) / (b as u64);
        proof {
            lemma_div_at_most(a as int, b as int);
        }
        q as i64
    } else {
        let m: u64 = ((-a) as u64) / (b as u64);
        proof {
            lemma_div_at_most(-(a as int), b as int);
        }
        -(m as i64)
    }
}

/// Truncating division for `i128` with a positive divisor.
pub fn div_trunc_i128(a: i128, b: i128) -> (r: i128)
    requires
        1 <= b,
        -0x7fff_ffff_ffff_ffff_ffff_ffff_ffff_ffff <= a,
    ensures
        r == trunc_div(a as int, b as int),
{
    if a >= 0 {
        let q: u128 = (a as u128) / (b as u128);
        proof {
            lemma_div_at_most(a as int, b as int);
        }
        q as i128
    } else {
        let m: u128 = ((-a) as u128) / (b as u128);
        proof {
            lemma_div_at_most(-(a as int), b as int);
        }
        -(m as i128)
    }
}

/// Clamps `v` into `[lo, hi]`.
pub fn clamp_i128(v: i128, lo: i128, hi: i128) -> (r: i128)
    requires
        lo <= hi,
    ensures
        r == clamp_spec(v as int, lo as int, hi as int),
{
    if v < lo {
        lo
    } else if v > hi {
        hi
    } else {
        v
    }
}

/// Bounds of a product of nonnegative bounded factors.
pub proof fn lemma_mul_bounds(a: int, b: int, amax: int, bmax: int)
    by (nonlinear_arith)
    requires
        0 <= a <= amax,
        0 <= b <= bmax,
    ensures
        0 <= a * b <= amax * bmax,
        a >= 1 && b >= 1 ==> a * b >= 1,
{
}

/// A nonpositive dividend has a nonpositive truncated quotient.
pub proof fn lemma_trunc_div_nonpos(a: int, b: int)
    requires
        a <= 0,
        1 <= b,
    ensures
        trunc_div(a, b) <= 0,
{
    if a < 0 {
        lemma_div_at_most(-a, b);
    }
}

/// A truncated quotient of a bounded dividend is bounded the same way:
/// if `|a| <= c * b` then `|trunc_div(a, b)| <= c`.
pub proof fn lemma_trunc_div_bound(a: int, b: int, c: int)
    requires
        1 <= b,
        0 <= c,
        -(c * b) <= a <= c * b,
    ensures
        -c <= trunc_div(a, b) <= c,
{
    if a >= 0 {
        assert(0 <= a / b <= c) by (nonlinear_arith)
            requires
                1 <= b,
                0 <= c,
                0 <= a <= c * b,
        ;
    } else {
        assert(0 <= (-a) / b <= c) by (nonlinear_arith)
            requires
                1 <= b,
                0 <= c,
                0 <= -a <= c * b,
        ;
    }
}

} // verus!
