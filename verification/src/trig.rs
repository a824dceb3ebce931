//! Fixed-point circular functions: arctangent, arcsine, sine and cosine.
//!
//! Each executable function computes a clamped polynomial approximation and
//! is proved to return exactly the value of its spec-level mirror, so that
//! every caller's contract can speak of the result as a function of the
//! arguments alone.

use vstd::prelude::*;
use crate::num::{
    abs, sqrt_floor, tdiv, fmul, fdiv, isqrt, normalize_angle, norm_angle, lemma_mul_mag,
    lemma_tdiv_mag, wide_mul, HALF_PI, PI, QUARTER_PI, SCALE,
};

verus! {

/// Odd-polynomial coefficients for arctangent on `[0, 1]`, fixed-point.
pub const ATAN_C1: i64 = 65535;

pub const ATAN_C3: i64 = -21801;

pub const ATAN_C5: i64 = 12686;

pub const ATAN_C7: i64 = -7631;

pub const ATAN_C9: i64 = 3451;

pub const ATAN_C11: i64 = -768;

/// `v` forced into `[lo, hi]`.
pub open spec fn clamp(v: int, lo: int, hi: int) -> int {
    if v < lo {
        lo
    } else if v > hi {
        hi
    } else {
        v
    }
}

/// The fixed-point arctangent of `t / SCALE`, for `t` in `[0, SCALE]`:
/// a Horner-evaluated odd polynomial, clamped to one eighth of a turn.
pub open spec fn atan_unit_spec(t: int) -> int {
    let t2 = tdiv(t * t, SCALE as int);
    let h9 = ATAN_C9 + tdiv(t2 * ATAN_C11, SCALE as int);
    let h7 = ATAN_C7 + tdiv(t2 * h9, SCALE as int);
    let h5 = ATAN_C5 + tdiv(t2 * h7, SCALE as int);
    let h3 = ATAN_C3 + tdiv(t2 * h5, SCALE as int);
    let h1 = ATAN_C1 + tdiv(t2 * h3, SCALE as int);
    clamp(tdiv(t * h1, SCALE as int), 0, QUARTER_PI as int)
}

/// Arctangent of `t / SCALE` for `t` in `[0, SCALE]`, in fixed-point radians.
pub fn atan_unit(t: i64) -> (r: i64)
    requires
        0 <= t <= SCALE,
    ensures
        r == atan_unit_spec(t as int),
        0 <= r <= QUARTER_PI,
{
    proof {
        lemma_mul_mag(t as int, t as int, SCALE as int, SCALE as int);
    }
    let t2 = fmul(t, t);
    proof {
        lemma_tdiv_mag(t * t, SCALE as int, SCALE as int * SCALE as int);
        lemma_mul_mag(t2 as int, ATAN_C11 as int, SCALE as int, 768);
        lemma_tdiv_mag(t2 * ATAN_C11, SCALE as int, SCALE as int * 768);
    }
    let h9 = ATAN_C9 + fmul(t2, ATAN_C11);
    proof {
        lemma_mul_mag(t2 as int, h9 as int, SCALE as int, 4219);
        lemma_tdiv_mag(t2 * h9, SCALE as int, SCALE as int * 4219);
    }
    let h7 = ATAN_C7 + fmul(t2, h9);
    proof {
        lemma_mul_mag(t2 as int, h7 as int, SCALE as int, 11850);
        lemma_tdiv_mag(t2 * h7, SCALE as int, SCALE as int * 11850);
    }
    let h5 = ATAN_C5 + fmul(t2, h7);
    proof {
        lemma_mul_mag(t2 as int, h5 as int, SCALE as int, 24536);
        lemma_tdiv_mag(t2 * h5, SCALE as int, SCALE as int * 24536);
    }
    let h3 = ATAN_C3 + fmul(t2, h5);
    proof {
        lemma_mul_mag(t2 as int, h3 as int, SCALE as int, 46337);
        lemma_tdiv_mag(t2 * h3, SCALE as int, SCALE as int * 46337);
    }
    let h1 = ATAN_C1 + fmul(t2, h3);
    proof {
        lemma_mul_mag(t as int, h1 as int, SCALE as int, 111872);
        lemma_tdiv_mag(t * h1, SCALE as int, SCALE as int * 111872);
    }
    let raw = fmul(t, h1);
    if raw < 0 {
        0
    } else if raw > QUARTER_PI {
        QUARTER_PI
    } else {
        raw
    }
}

/// The angle of the direction `(x, y)` from the positive x axis, in
/// `[-PI, PI]`: octant reduction to the unit arctangent.  The zero vector,
/// which has no direction, is mapped to angle 0.
pub open spec fn angle_of_spec(x: int, y: int) -> int {
    if x == 0 && y == 0 {
        0
    } else if x == 0 {
        if y > 0 {
            HALF_PI as int
        } else {
            -HALF_PI as int
        }
    } else if y == 0 {
        if x > 0 {
            0
        } else {
            PI as int
        }
    } else {
        let ax = abs(x);
        let ay = abs(y);
        let base = if ay <= ax {
            atan_unit_spec(tdiv(ay * SCALE, ax))
        } else {
            HALF_PI - atan_unit_spec(tdiv(ax * SCALE, ay))
        };
        if x > 0 && y > 0 {
            base
        } else if x < 0 && y > 0 {
            PI - base
        } else if x < 0 {
            -(PI - base)
        } else {
            -base
        }
    }
}

/// Angle of the direction `(x, y)` in fixed-point radians, in `[-PI, PI]`.
pub fn angle_of(x: i64, y: i64) -> (r: i64)
    requires
        abs(x as int) <= 0x4000_0000_0000,
        abs(y as int) <= 0x4000_0000_0000,
    ensures
        r == angle_of_spec(x as int, y as int),
        -PI <= r <= PI,
{
    if x == 0 && y == 0 {
        return 0;
    }
    if x == 0 {
        return if y > 0 {
            HALF_PI
        } else {
            -HALF_PI
        };
    }
    if y == 0 {
        return if x > 0 {
            0
        } else {
            PI
        };
    }
    let ax = if x < 0 {
        -x
    } else {
        x
    };
    let ay = if y < 0 {
        -y
    } else {
        y
    };
    let base = if ay <= ax {
        proof {
            lemma_mul_mag(ay as int, SCALE as int, 0x4000_0000_0000, SCALE as int);
            lemma_ratio_le_scale(ay as int, ax as int);
        }
        let t = fdiv(ay, ax);
        atan_unit(t)
    } else {
        proof {
            lemma_mul_mag(ax as int, SCALE as int, 0x4000_0000_0000, SCALE as int);
            lemma_ratio_le_scale(ax as int, ay as int);
        }
        let t = fdiv(ax, ay);
        HALF_PI - atan_unit(t)
    };
    if x > 0 && y > 0 {
        base
    } else if x < 0 && y > 0 {
        PI - base
    } else if x < 0 {
        -(PI - base)
    } else {
        -base
    }
}

/// For `0 <= a <= b`, the fixed-point ratio `a * SCALE / b` is at most `SCALE`.
pub proof fn lemma_ratio_le_scale(a: int, b: int)
    requires
        0 <= a <= b,
        b > 0,
    ensures
        0 <= tdiv(a * SCALE, b) <= SCALE,
{
    assert(a * SCALE <= b * SCALE) by (nonlinear_arith)
        requires
            a <= b,
            SCALE > 0,
    ;
    assert(a * SCALE >= 0) by (nonlinear_arith)
        requires
            a >= 0,
            SCALE > 0,
    ;
    vstd::arithmetic::div_mod::lemma_div_is_ordered(a * SCALE, b * SCALE, b);
    vstd::arithmetic::div_mod::lemma_div_pos_is_pos(a * SCALE, b);
    vstd::arithmetic::div_mod::lemma_div_multiples_vanish(SCALE as int, b);
}

/// The fixed-point arcsine of `t / SCALE`, for `t` in `[0, SCALE]`: the angle
/// whose direction is `(sqrt(SCALE^2 - t^2), t)`.
pub open spec fn asin_unit_spec(t: int) -> int {
    angle_of_spec(sqrt_floor(SCALE as int * SCALE as int - t * t), t)
}

/// Arcsine of `t / SCALE` for `t` in `[0, SCALE]`, in fixed-point radians.
pub fn asin_unit(t: i64) -> (r: i64)
    requires
        0 <= t <= SCALE,
    ensures
        r == asin_unit_spec(t as int),
        0 <= r <= HALF_PI,
{
    let tt = wide_mul(t, t);
    proof {
        lemma_mul_mag(t as int, t as int, SCALE as int, SCALE as int);
    }
    let tt64: i64 = tt as i64;
    let c = isqrt(SCALE * SCALE - tt64);
    proof {
        if c > SCALE {
            lemma_mul_mag(SCALE as int + 1, SCALE as int + 1, c as int, c as int);
            assert((SCALE + 1) * (SCALE + 1) <= c * c) by (nonlinear_arith)
                requires
                    SCALE + 1 <= c,
                    SCALE >= 0,
            ;
        }
    }
    let r = angle_of(c, t);
    proof {
        if !(t == 0 && c == 0) && c != 0 && t != 0 {
            assert(angle_of_spec(c as int, t as int) >= 0);
        }
    }
    r
}

/// Taylor polynomial for sine on the first quarter turn, clamped to `[0, SCALE]`.
pub open spec fn sin_quarter_spec(x: int) -> int {
    let x2 = tdiv(x * x, SCALE as int);
    let x3 = tdiv(x2 * x, SCALE as int);
    let x5 = tdiv(x3 * x2, SCALE as int);
    let x7 = tdiv(x5 * x2, SCALE as int);
    clamp(x - tdiv(x3, 6) + tdiv(x5, 120) - tdiv(x7, 5040), 0, SCALE as int)
}

/// Sine of `x` fixed-point radians, for `x` in the first quarter turn.
pub fn sin_quarter(x: i64) -> (r: i64)
    requires
        0 <= x <= HALF_PI,
    ensures
        r == sin_quarter_spec(x as int),
        0 <= r <= SCALE,
{
    proof {
        lemma_mul_mag(x as int, x as int, HALF_PI as int, HALF_PI as int);
        lemma_tdiv_mag(x * x, SCALE as int, HALF_PI as int * HALF_PI as int);
    }
    let x2 = fmul(x, x);
    proof {
        lemma_mul_mag(x2 as int, x as int, 161704, HALF_PI as int);
        lemma_tdiv_mag(x2 * x, SCALE as int, 161704int * HALF_PI as int);
    }
    let x3 = fmul(x2, x);
    proof {
        lemma_mul_mag(x3 as int, x2 as int, 254004, 161704);
        lemma_tdiv_mag(x3 * x2, SCALE as int, 254004int * 161704);
    }
    let x5 = fmul(x3, x2);
    proof {
        lemma_mul_mag(x5 as int, x2 as int, 626731, 161704);
        lemma_tdiv_mag(x5 * x2, SCALE as int, 626731int * 161704);
    }
    let x7 = fmul(x5, x2);
    proof {
        lemma_tdiv_mag(x3 as int, 6, 254004);
        lemma_tdiv_mag(x5 as int, 120, 626731);
        lemma_tdiv_mag(x7 as int, 5040, 1546400);
    }
    let t3 = x3 / 6;
    let t5 = x5 / 120;
    let t7 = x7 / 5040;
    let raw = x - t3 + t5 - t7;
    if raw < 0 {
        0
    } else if raw > SCALE {
        SCALE
    } else {
        raw
    }
}

/// Sine of an arbitrary fixed-point angle, by quadrant reduction.
pub open spec fn sin_spec(a: int) -> int {
    let n = norm_angle(a);
    let q = n / (HALF_PI as int);
    let rm = n - q * (HALF_PI as int);
    if q == 0 {
        sin_quarter_spec(rm)
    } else if q == 1 {
        sin_quarter_spec(HALF_PI - rm)
    } else if q == 2 {
        -sin_quarter_spec(rm)
    } else {
        -sin_quarter_spec(HALF_PI - rm)
    }
}

/// Cosine of an arbitrary fixed-point angle, by quadrant reduction.
pub open spec fn cos_spec(a: int) -> int {
    let n = norm_angle(a);
    let q = n / (HALF_PI as int);
    let rm = n - q * (HALF_PI as int);
    if q == 0 {
        sin_quarter_spec(HALF_PI - rm)
    } else if q == 1 {
        -sin_quarter_spec(rm)
    } else if q == 2 {
        -sin_quarter_spec(HALF_PI - rm)
    } else {
        sin_quarter_spec(rm)
    }
}

/// Cosine and sine of an angle, each in `[-SCALE, SCALE]`.
pub fn cos_sin(a: i64) -> (r: (i64, i64))
    ensures
        r.0 == cos_spec(a as int),
        r.1 == sin_spec(a as int),
        -SCALE <= r.0 <= SCALE,
        -SCALE <= r.1 <= SCALE,
{
    let n = normalize_angle(a);
    let q = n / HALF_PI;
    proof {
        vstd::arithmetic::div_mod::lemma_fundamental_div_mod(n as int, HALF_PI as int);
        vstd::arithmetic::div_mod::lemma_div_pos_is_pos(n as int, HALF_PI as int);
        assert(q <= 3) by {
            if q >= 4 {
                assert(q * HALF_PI >= 4 * HALF_PI) by (nonlinear_arith)
                    requires
                        q >= 4,
                        HALF_PI > 0,
                ;
            }
        }
    }
    let rm = n - q * HALF_PI;
    if q == 0 {
        let s = sin_quarter(rm);
        let c = sin_quarter(HALF_PI - rm);
        (c, s)
    } else if q == 1 {
        let s = sin_quarter(HALF_PI - rm);
        let c = sin_quarter(rm);
        (-c, s)
    } else if q == 2 {
        let s = sin_quarter(rm);
        let c = sin_quarter(HALF_PI - rm);
        (-c, -s)
    } else {
        let s = sin_quarter(HALF_PI - rm);
        let c = sin_quarter(rm);
        (c, -s)
    }
}

} // verus!
