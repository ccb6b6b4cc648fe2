//! Fixed-point angles: the argument of a complex sample and the wrap of a
//! phase difference into one turn.
//!
//! The arctangent uses the classic quarter-turn approximation
//! `atan(z) ~ (pi/4)*z + 0.285*z*(1-z)` on `0 <= z <= 1`, extended to the
//! full plane by quadrant symmetry; angles are micro-radians.

use vstd::prelude::*;

verus! {

use vstd::arithmetic::div_mod::{
    lemma_div_is_ordered, lemma_div_multiples_vanish, lemma_div_pos_is_pos, lemma_small_mod,
    lemma_mod_sub_multiples_vanish,
};
use vstd::arithmetic::mul::{lemma_mul_inequality, lemma_mul_nonnegative, lemma_mul_upper_bound};
use crate::fixed::{PI_FP, SCALE, TAU_FP};

/// A quarter turn in micro-radians.
pub const PI_2_FP: i64 = 1_570_796;

/// An eighth turn in micro-radians.
pub const PI_4_FP: i64 = 785_398;

/// The coefficient of the correction hump of the arctangent
/// approximation, in millionths.
pub const ATAN_C: i64 = 285_000;

/// The largest coordinate magnitude the arctangent accepts.
pub const ATAN_MAX: i64 = 100_000_000;

/// The approximated arctangent of `n / d` for `0 <= n <= d`, in
/// micro-radians: `(pi/4)*z + 0.285*z*(1-z)` at `z = n/d`.
pub open spec fn atan_frac_spec(n: int, d: int) -> int {
    let z = (n * SCALE) / d;
    let linear = (PI_4_FP * z) / (SCALE as int);
    let hump = (ATAN_C * ((z * (SCALE - z)) / (SCALE as int))) / (SCALE as int);
    linear + hump
}

/// The approximated argument of the point `(x, y)`, in micro-radians,
/// within `[-PI_FP, PI_FP]`; the origin maps to zero.
pub open spec fn atan2_spec(y: int, x: int) -> int {
    if y == 0 && x == 0 {
        0
    } else {
        let ay = if y >= 0 {
            y
        } else {
            -y
        };
        let ax = if x >= 0 {
            x
        } else {
            -x
        };
        let r0 = if ax >= ay {
            atan_frac_spec(ay, ax)
        } else {
            PI_2_FP - atan_frac_spec(ax, ay)
        };
        if x >= 0 && y >= 0 {
            r0
        } else if x < 0 && y >= 0 {
            PI_FP - r0
        } else if x < 0 {
            r0 - PI_FP
        } else {
            -r0
        }
    }
}

/// A raw angle difference wrapped into one turn: above `PI_FP` one turn is
/// subtracted, below `-PI_FP` one turn is added.
pub open spec fn wrap_angle_spec(d: int) -> int {
    if d > PI_FP {
        d - TAU_FP
    } else if d < -PI_FP {
        d + TAU_FP
    } else {
        d
    }
}

/// The half-turn sine approximation `16*a*(pi-a) / (5*pi^2 - 4*a*(pi-a))`
/// for `0 <= a <= pi`, in millionths; the products are carried in
/// thousandths of a squared micro-radian so that everything stays in 64
/// bits.
pub open spec fn half_sin_spec(a: int) -> int {
    let u = (a * (PI_FP - a)) / 1000;
    let num = 16 * u;
    let den = (5 * PI_FP * PI_FP) / 1000 - 4 * u;
    (num * SCALE) / den
}

/// The sine of a phase in `[0, TAU_FP)`, in millionths: the half-turn
/// approximation, negated on the second half turn.
pub open spec fn sin_fp_spec(p: int) -> int {
    if p <= PI_FP {
        half_sin_spec(p)
    } else {
        -half_sin_spec(p - PI_FP)
    }
}

/// The cosine of a phase in `[0, TAU_FP)`, in millionths: the sine a
/// quarter turn later.
pub open spec fn cos_fp_spec(p: int) -> int {
    sin_fp_spec((p + PI_2_FP) % (TAU_FP as int))
}

/// The half-turn sine approximation.
fn half_sin(a: i64) -> (r: i64)
    requires
        0 <= a <= PI_FP,
    ensures
        r == half_sin_spec(a as int),
        0 <= r <= SCALE,
{
    proof {
        lemma_mul_nonnegative(a as int, PI_FP - a);
        assert(a * (3_141_593 - a) <= 2_467_401_644_412) by (nonlinear_arith)
            requires
                0 <= a <= 3_141_593,
        ;
    }
    let au = a as u64;
    let prod = au * ((PI_FP as u64) - au);
    let u = prod / 1000;
    proof {
        lemma_div_is_ordered(prod as int, 2_467_401_644_412, 1000);
        lemma_div_pos_is_pos(prod as int, 1000);
    }
    let num = 16 * u;
    let den = (5 * (PI_FP as u64) * (PI_FP as u64)) / 1000 - 4 * u;
    let r = (num * (SCALE as u64)) / den;
    proof {
        lemma_mul_inequality(num as int, den as int, SCALE as int);
        lemma_div_is_ordered(
            (num as int) * (SCALE as int),
            (den as int) * (SCALE as int),
            den as int,
        );
        lemma_div_multiples_vanish(SCALE as int, den as int);
        lemma_div_pos_is_pos((num as int) * (SCALE as int), den as int);
    }
    r as i64
}

/// The sine of a phase in `[0, TAU_FP)`.
pub fn sin_fp(p: i64) -> (r: i64)
    requires
        0 <= p < TAU_FP,
    ensures
        r == sin_fp_spec(p as int),
        -SCALE <= r <= SCALE,
{
    if p <= PI_FP {
        half_sin(p)
    } else {
        -half_sin(p - PI_FP)
    }
}

/// Reduce a phase below two turns into `[0, TAU_FP)`.
pub fn turn_reduce(x: i64) -> (r: i64)
    requires
        0 <= x < 2 * TAU_FP,
    ensures
        r == (x as int) % (TAU_FP as int),
        0 <= r < TAU_FP,
{
    if x >= TAU_FP {
        proof {
            lemma_mod_sub_multiples_vanish(x as int, TAU_FP as int);
            lemma_small_mod((x - TAU_FP) as nat, TAU_FP as nat);
        }
        x - TAU_FP
    } else {
        proof {
            lemma_small_mod(x as nat, TAU_FP as nat);
        }
        x
    }
}

/// The cosine of a phase in `[0, TAU_FP)`.
pub fn cos_fp(p: i64) -> (r: i64)
    requires
        0 <= p < TAU_FP,
    ensures
        r == cos_fp_spec(p as int),
        -SCALE <= r <= SCALE,
{
    let q = turn_reduce(p + PI_2_FP);
    sin_fp(q)
}

/// The approximated arctangent of `n / d` on the first octant.
fn atan_frac(n: i64, d: i64) -> (r: i64)
    requires
        0 <= n <= d,
        1 <= d <= ATAN_MAX,
    ensures
        r == atan_frac_spec(n as int, d as int),
        0 <= r <= PI_4_FP + ATAN_C,
{
    let nu = n as u64;
    let du = d as u64;
    let z = (nu * (SCALE as u64)) / du;
    proof {
        lemma_mul_inequality(n as int, d as int, SCALE as int);
        lemma_div_is_ordered((n as int) * (SCALE as int), (d as int) * (SCALE as int), d as int);
        lemma_div_multiples_vanish(SCALE as int, d as int);
        lemma_div_pos_is_pos((n as int) * (SCALE as int), d as int);
    }
    let linear = ((PI_4_FP as u64) * z) / (SCALE as u64);
    proof {
        lemma_mul_inequality(z as int, SCALE as int, PI_4_FP as int);
        lemma_div_is_ordered(
            (PI_4_FP as int) * (z as int),
            (SCALE as int) * (PI_4_FP as int),
            SCALE as int,
        );
        lemma_div_multiples_vanish(PI_4_FP as int, SCALE as int);
        lemma_div_pos_is_pos((PI_4_FP as int) * (z as int), SCALE as int);
    }
    let zc = (SCALE as u64) - z;
    proof {
        lemma_mul_upper_bound(z as int, 1_000_000, zc as int, 1_000_000);
        lemma_div_is_ordered((z as int) * (zc as int), 1_000_000_000_000, SCALE as int);
        lemma_div_pos_is_pos((z as int) * (zc as int), SCALE as int);
    }
    let u = (z * zc) / (SCALE as u64);
    let hump = ((ATAN_C as u64) * u) / (SCALE as u64);
    proof {
        lemma_mul_inequality(u as int, SCALE as int, ATAN_C as int);
        lemma_div_is_ordered(
            (ATAN_C as int) * (u as int),
            (SCALE as int) * (ATAN_C as int),
            SCALE as int,
        );
        lemma_div_multiples_vanish(ATAN_C as int, SCALE as int);
        lemma_div_pos_is_pos((ATAN_C as int) * (u as int), SCALE as int);
    }
    (linear + hump) as i64
}

/// The approximated argument of the complex point `(x, y)`.
pub fn atan2_fp(y: i64, x: i64) -> (r: i64)
    requires
        -ATAN_MAX <= y <= ATAN_MAX,
        -ATAN_MAX <= x <= ATAN_MAX,
    ensures
        r == atan2_spec(y as int, x as int),
        -PI_FP <= r <= PI_FP,
{
    if y == 0 && x == 0 {
        return 0;
    }
    let ay = if y >= 0 {
        y
    } else {
        -y
    };
    let ax = if x >= 0 {
        x
    } else {
        -x
    };
    let r0 = if ax >= ay {
        atan_frac(ay, ax)
    } else {
        PI_2_FP - atan_frac(ax, ay)
    };
    if x >= 0 && y >= 0 {
        r0
    } else if x < 0 && y >= 0 {
        PI_FP - r0
    } else if x < 0 {
        r0 - PI_FP
    } else {
        -r0
    }
}

/// A raw angle difference within one turn of zero is corrected by exactly
/// one turn whenever it leaves `[-PI_FP, PI_FP]`, and the corrected angle
/// always lies in that interval.
pub fn wrap_angle(d: i64) -> (r: i64)
    requires
        -TAU_FP <= d <= TAU_FP,
    ensures
        r == wrap_angle_spec(d as int),
        -PI_FP <= r <= PI_FP,
        r == d || r == d - TAU_FP || r == d + TAU_FP,
{
    if d > PI_FP {
        d - TAU_FP
    } else if d < -PI_FP {
        d + TAU_FP
    } else {
        d
    }
}

} // verus!
