//! Fixed-point arithmetic helpers.
//!
//! All amplitudes, gains and angles in this crate are integers counted in
//! millionths: `SCALE` stands for 1.0, `PI_FP` for one half turn in
//! micro-radians.

use vstd::prelude::*;

verus! {

use vstd::arithmetic::div_mod::{
    lemma_div_is_ordered, lemma_div_multiples_vanish, lemma_div_nonincreasing,
    lemma_div_pos_is_pos,
};
use vstd::arithmetic::mul::{lemma_mul_inequality, lemma_mul_nonnegative};

/// One fixed-point unit: the integer that stands for 1.0.
pub const SCALE: i64 = 1_000_000;

/// Pi in micro-radians.
pub const PI_FP: i64 = 3_141_593;

/// A full turn in micro-radians; kept at exactly twice `PI_FP` so that the
/// phase-wrap correction lands inside `[-PI_FP, PI_FP]`.
pub const TAU_FP: i64 = 6_283_186;

/// Quotient of `n` by a positive `d`, rounded toward zero.
pub open spec fn div_tz_spec(n: int, d: int) -> int {
    if n >= 0 {
        n / d
    } else {
        -((-n) / d)
    }
}

/// Quotient of `n` by a positive `d`, rounded to the nearest integer with
/// halves away from zero.
pub open spec fn div_half_away_spec(n: int, d: int) -> int {
    if n >= 0 {
        (n + d / 2) / d
    } else {
        -(((-n) + d / 2) / d)
    }
}

/// Truncating division of a signed value by a positive divisor.
pub fn div_tz(n: i64, d: u64) -> (r: i64)
    requires
        1 <= d <= i64::MAX,
        i64::MIN < n,
    ensures
        r == div_tz_spec(n as int, d as int),
        n >= 0 ==> 0 <= r <= n,
        n < 0 ==> n <= r <= 0,
{
    if n >= 0 {
        let q = (n as u64) / d;
        proof {
            lemma_div_nonincreasing(n as int, d as int);
        }
        q as i64
    } else {
        let m = ((-n) as u64) / d;
        proof {
            lemma_div_nonincreasing(-(n as int), d as int);
            lemma_div_pos_is_pos(-(n as int), d as int);
        }
        -(m as i64)
    }
}

/// Rounding division of a signed value by a positive divisor, halves away
/// from zero.
pub fn div_half_away(n: i64, d: u64) -> (r: i64)
    requires
        1 <= d <= i64::MAX,
        i64::MIN < n,
        n + d / 2 <= i64::MAX,
        n - d / 2 >= i64::MIN + 1,
    ensures
        r == div_half_away_spec(n as int, d as int),
{
    if n >= 0 {
        let q = ((n as u64) + d / 2) / d;
        proof {
            lemma_div_nonincreasing((n as int) + (d as int) / 2, d as int);
        }
        q as i64
    } else {
        let m = (((-n) as u64) + d / 2) / d;
        proof {
            lemma_div_nonincreasing(-(n as int) + (d as int) / 2, d as int);
            lemma_div_pos_is_pos(-(n as int) + (d as int) / 2, d as int);
        }
        -(m as i64)
    }
}

/// A quotient rounded toward zero is bounded by the quotient of a bound on
/// the numerator.
pub proof fn lemma_div_tz_le(n: int, b: int, d: int)
    requires
        1 <= d,
        -b <= n <= b,
    ensures
        -(b / d) <= div_tz_spec(n, d) <= b / d,
{
    if n >= 0 {
        lemma_div_is_ordered(n, b, d);
        lemma_div_pos_is_pos(n, d);
        lemma_div_pos_is_pos(b, d);
    } else {
        lemma_div_is_ordered(-n, b, d);
        lemma_div_pos_is_pos(-n, d);
        lemma_div_pos_is_pos(b, d);
    }
}

/// Multiplying by a fraction `a / s` with `0 <= a <= s` and rounding toward
/// zero never moves a value past zero or past itself.
pub proof fn lemma_div_tz_scaled(a: int, x: int, s: int)
    requires
        0 <= a <= s,
        1 <= s,
    ensures
        x >= 0 ==> 0 <= div_tz_spec(a * x, s) <= x,
        x < 0 ==> x <= div_tz_spec(a * x, s) <= 0,
{
    if x >= 0 {
        lemma_mul_nonnegative(a, x);
        lemma_mul_inequality(a, s, x);
        lemma_div_is_ordered(a * x, s * x, s);
        lemma_div_multiples_vanish(x, s);
        lemma_div_pos_is_pos(a * x, s);
    } else {
        lemma_mul_nonnegative(a, -x);
        lemma_mul_inequality(a, s, -x);
        lemma_div_is_ordered(a * (-x), s * (-x), s);
        lemma_div_multiples_vanish(-x, s);
        lemma_div_pos_is_pos(a * (-x), s);
        assert(-(a * x) == a * (-x)) by (nonlinear_arith);
    }
}

/// Clamp a value into `[lo, hi]`.
pub open spec fn clamp_spec(v: int, lo: int, hi: int) -> int {
    if v < lo {
        lo
    } else if v > hi {
        hi
    } else {
        v
    }
}

/// Clamp a value into `[lo, hi]`.
pub fn clamp(v: i64, lo: i64, hi: i64) -> (r: i64)
    requires
        lo <= hi,
    ensures
        r == clamp_spec(v as int, lo as int, hi as int),
        lo <= r <= hi,
{
    if v < lo {
        lo
    } else if v > hi {
        hi
    } else {
        v
    }
}

/// The integer square root: the greatest `r` with `r * r <= x`.
pub fn isqrt(x: u64) -> (r: u64)
    ensures
        r * r <= x < (r + 1) * (r + 1),
{
    let mut lo: u64 = 0;
    let mut hi: u64 = 0x1_0000_0000;
    while lo + 1 < hi
        invariant
            lo < hi <= 0x1_0000_0000,
            lo * lo <= x,
            x < hi * hi,
        decreases hi - lo,
    {
        let mid = lo + (hi - lo) / 2;
        assert(mid * mid < 0x1_0000_0000_0000_0000) by (nonlinear_arith)
            requires
                mid < 0x1_0000_0000,
        ;
        if mid * mid <= x {
            lo = mid;
        } else {
            hi = mid;
        }
    }
    lo
}

} // verus!
