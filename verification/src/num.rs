//! Fixed-point arithmetic for the geometry kernel.
//!
//! All coordinates, radii and angles are signed 64-bit integers carrying a
//! binary fixed-point value: the real number `v / SCALE`.  Angles are measured
//! in radians under the same scaling; `PI` is the nearest representable
//! multiple of four to pi * SCALE, so that quarter turns are exact.

use vstd::prelude::*;

verus! {

/// The scalar type of the kernel: a fixed-point real with denominator `SCALE`.
pub type Number = i64;

/// Fixed-point denominator: one real unit.
pub const SCALE: i64 = 65536;

/// Half turn (pi) in fixed-point radians, rounded to a multiple of 4.
pub const PI: i64 = 205888;

/// Full turn (2 * pi) in fixed-point radians.
pub const TWO_PI: i64 = 411776;

/// Quarter turn (pi / 2) in fixed-point radians.
pub const HALF_PI: i64 = 102944;

/// Eighth of a turn (pi / 4) in fixed-point radians.
pub const QUARTER_PI: i64 = 51472;

/// Largest coordinate or radius magnitude the kernel accepts (4096 real units).
pub const MAX_MAG: i64 = 0x1000_0000;

/// Magnitude of `a`.
pub open spec fn abs(a: int) -> int {
    if a >= 0 {
        a
    } else {
        -a
    }
}

/// Truncated (round-toward-zero) division, the semantics of Rust's `/`.
/// Only used with positive divisors.
pub open spec fn tdiv(a: int, b: int) -> int {
    if a >= 0 {
        a / b
    } else {
        -((-a) / b)
    }
}

/// The floor of the square root, defined by counting up.
pub open spec fn sqrt_floor(n: int) -> int
    decreases n,
{
    if n <= 0 {
        0
    } else if (sqrt_floor(n - 1) + 1) * (sqrt_floor(n - 1) + 1) <= n {
        sqrt_floor(n - 1) + 1
    } else {
        sqrt_floor(n - 1)
    }
}

pub proof fn lemma_sqrt_floor(n: int)
    requires
        n >= 0,
    ensures
        0 <= sqrt_floor(n) <= n,
        sqrt_floor(n) * sqrt_floor(n) <= n,
        (sqrt_floor(n) + 1) * (sqrt_floor(n) + 1) > n,
    decreases n,
{
    if n == 0 {
    } else {
        lemma_sqrt_floor(n - 1);
        let p = sqrt_floor(n - 1);
        assert(p * p <= n - 1 < n);
        if (p + 1) * (p + 1) <= n {
            assert(sqrt_floor(n) == p + 1);
            assert((p + 2) * (p + 2) > n) by (nonlinear_arith)
                requires
                    (p + 1) * (p + 1) > n - 1,
                    p >= 0,
            ;
            assert(p + 1 <= n) by (nonlinear_arith)
                requires
                    (p + 1) * (p + 1) <= n,
                    p >= 0,
            ;
        } else {
            assert(sqrt_floor(n) == p);
        }
    }
}

pub proof fn lemma_sqrt_floor_unique(n: int, r: int)
    requires
        n >= 0,
        r >= 0,
        r * r <= n,
        (r + 1) * (r + 1) > n,
    ensures
        r == sqrt_floor(n),
{
    lemma_sqrt_floor(n);
    let s = sqrt_floor(n);
    if r < s {
        assert((r + 1) * (r + 1) <= s * s) by (nonlinear_arith)
            requires
                0 <= r,
                r + 1 <= s,
        ;
    }
    if s < r {
        assert((s + 1) * (s + 1) <= r * r) by (nonlinear_arith)
            requires
                0 <= s,
                s + 1 <= r,
        ;
    }
}

/// Square roots grow with their argument.
pub proof fn lemma_sqrt_floor_monotone(a: int, b: int)
    requires
        0 <= a <= b,
    ensures
        sqrt_floor(a) <= sqrt_floor(b),
{
    lemma_sqrt_floor(a);
    lemma_sqrt_floor(b);
    let x = sqrt_floor(a);
    let y = sqrt_floor(b);
    if y < x {
        assert((y + 1) * (y + 1) <= x * x) by (nonlinear_arith)
            requires
                0 <= y,
                y + 1 <= x,
        ;
    }
}

/// The square root of an exact square.
pub proof fn lemma_sqrt_floor_square(r: int)
    requires
        r >= 0,
    ensures
        sqrt_floor(r * r) == r,
{
    assert(r * r >= 0) by (nonlinear_arith)
        requires
            r >= 0,
    ;
    assert((r + 1) * (r + 1) > r * r) by (nonlinear_arith)
        requires
            r >= 0,
    ;
    lemma_sqrt_floor_unique(r * r, r);
}

/// Product of two 64-bit values, computed without overflow in 128 bits.
pub(crate) fn wide_mul(a: i64, b: i64) -> (r: i128)
    ensures
        r == a * b,
{
    proof {
        assert(-0x4000_0000_0000_0000_0000_0000_0000_0000 <= (a as int) * (b as int)
            <= 0x4000_0000_0000_0000_0000_0000_0000_0000) by (nonlinear_arith)
            requires
                -0x8000_0000_0000_0000 <= a < 0x8000_0000_0000_0000,
                -0x8000_0000_0000_0000 <= b < 0x8000_0000_0000_0000,
        ;
    }
    (a as i128) * (b as i128)
}

/// `a * b / d` with truncation toward zero, the exact fixed-point product rule.
pub(crate) fn mul_div(a: i64, b: i64, d: i64) -> (r: i64)
    requires
        d > 0,
        -0x4000_0000_0000_0000 <= a * b <= 0x4000_0000_0000_0000,
    ensures
        r == tdiv(a * b, d as int),
        abs(r as int) == abs(a * b) / (d as int),
        abs(r as int) <= abs(a * b),
{
    let p: i128 = wide_mul(a, b);
    let m: i128 = if p < 0 {
        -p
    } else {
        p
    };
    let q: i128 = m / (d as i128);
    proof {
        assert(q <= m) by (nonlinear_arith)
            requires
                m >= 0,
                d >= 1,
                q == (m as int) / (d as int),
        ;
    }
    let q64: i64 = q as i64;
    if p < 0 {
        -q64
    } else {
        q64
    }
}

/// Fixed-point multiplication: `(a * b) / SCALE`, truncated toward zero.
pub(crate) fn fmul(a: i64, b: i64) -> (r: i64)
    requires
        -0x4000_0000_0000_0000 <= a * b <= 0x4000_0000_0000_0000,
    ensures
        r == tdiv(a * b, SCALE as int),
        abs(r as int) == abs(a * b) / (SCALE as int),
        abs(r as int) <= abs(a * b),
{
    mul_div(a, b, SCALE)
}

/// Fixed-point division: `(a * SCALE) / b`, truncated toward zero.
pub(crate) fn fdiv(a: i64, b: i64) -> (r: i64)
    requires
        b > 0,
        -0x4000_0000_0000_0000 <= a * SCALE <= 0x4000_0000_0000_0000,
    ensures
        r == tdiv(a * SCALE, b as int),
        abs(r as int) == abs(a * SCALE) / (b as int),
        abs(r as int) <= abs(a * SCALE),
{
    mul_div(a, SCALE, b)
}

/// Floor of the square root of a non-negative 64-bit value, by binary search.
pub(crate) fn isqrt(n: i64) -> (r: i64)
    requires
        n >= 0,
    ensures
        r == sqrt_floor(n as int),
        0 <= r <= n,
        r * r <= n,
        (r + 1) * (r + 1) > n,
{
    let mut lo: i64 = 0;
    let mut hi: i64 = 0x1_0000_0000;
    proof {
        assert((0x1_0000_0000i64 as int) * (0x1_0000_0000i64 as int) > n) by (nonlinear_arith)
            requires
                n < 0x8000_0000_0000_0000,
        ;
    }
    while lo + 1 < hi
        invariant
            0 <= lo < hi <= 0x1_0000_0000,
            lo * lo <= n,
            hi * hi > n,
            n >= 0,
        decreases hi - lo,
    {
        let mid: i64 = lo + (hi - lo) / 2;
        let sq: i128 = wide_mul(mid, mid);
        if sq <= n as i128 {
            lo = mid;
        } else {
            hi = mid;
        }
    }
    proof {
        assert(hi == lo + 1);
        lemma_sqrt_floor_unique(n as int, lo as int);
        if lo > n {
            assert(lo * lo >= lo) by (nonlinear_arith)
                requires
                    lo >= 1,
            ;
        }
    }
    lo
}

/// Magnitude bound of a product from bounds on its factors.
pub proof fn lemma_mul_mag(a: int, b: int, m1: int, m2: int)
    requires
        abs(a) <= m1,
        abs(b) <= m2,
    ensures
        abs(a * b) <= m1 * m2,
{
    assert(abs(a * b) <= m1 * m2) by (nonlinear_arith)
        requires
            abs(a) <= m1,
            abs(b) <= m2,
    ;
}

/// Magnitude bound of a truncated quotient from a bound on the dividend.
pub proof fn lemma_tdiv_mag(x: int, d: int, m: int)
    requires
        d > 0,
        abs(x) <= m,
    ensures
        abs(tdiv(x, d)) <= m / d,
        abs(tdiv(x, d)) <= m,
{
    vstd::arithmetic::div_mod::lemma_div_is_ordered(abs(x), m, d);
    vstd::arithmetic::div_mod::lemma_div_pos_is_pos(abs(x), d);
    vstd::arithmetic::div_mod::lemma_div_nonincreasing(abs(x), d);
    vstd::arithmetic::div_mod::lemma_div_nonincreasing(m, d);
}

/// Euclidean remainder of `a` by a full turn: the canonical angle in `[0, TWO_PI)`.
pub open spec fn norm_angle(a: int) -> int {
    a % (TWO_PI as int)
}

/// Truncated (round-toward-zero) remainder, the semantics of Rust's `%`.
pub open spec fn tmod(a: int, b: int) -> int {
    if a >= 0 {
        a % b
    } else {
        -((-a) % b)
    }
}

/// Remainder of an angle by a full turn, with the sign of the angle.
pub(crate) fn tmod_two_pi(v: i64) -> (r: i64)
    requires
        v > i64::MIN,
    ensures
        r == tmod(v as int, TWO_PI as int),
        -TWO_PI < r < TWO_PI,
{
    if v >= 0 {
        proof {
            vstd::arithmetic::div_mod::lemma_mod_division_less_than_divisor(v as int, TWO_PI as int);
        }
        v % TWO_PI
    } else {
        proof {
            vstd::arithmetic::div_mod::lemma_mod_division_less_than_divisor(
                -v as int,
                TWO_PI as int,
            );
        }
        -((-v) % TWO_PI)
    }
}

/// Quotient of a wide dividend by a positive divisor, truncated toward zero.
pub(crate) fn wide_div(num: i128, den: i64) -> (r: i64)
    requires
        den > 0,
        abs(num as int) <= den * 0x4000_0000_0000_0000,
    ensures
        r == tdiv(num as int, den as int),
        abs(r as int) == abs(num as int) / (den as int),
{
    let neg = num < 0;
    let m = if neg {
        -num
    } else {
        num
    };
    let q = m / (den as i128);
    proof {
        vstd::arithmetic::div_mod::lemma_div_is_ordered(
            m as int,
            den * 0x4000_0000_0000_0000,
            den as int,
        );
        vstd::arithmetic::div_mod::lemma_div_multiples_vanish(0x4000_0000_0000_0000, den as int);
        vstd::arithmetic::div_mod::lemma_div_pos_is_pos(m as int, den as int);
    }
    if neg {
        -(q as i64)
    } else {
        q as i64
    }
}

/// A canonical angle is in the first turn.
pub proof fn lemma_norm_range(a: int)
    ensures
        0 <= norm_angle(a) < TWO_PI,
{
    vstd::arithmetic::div_mod::lemma_mod_division_less_than_divisor(a, TWO_PI as int);
}

/// Normalizing may be done before or after adding to an angle.
pub proof fn lemma_norm_add(x: int, d: int)
    ensures
        norm_angle(x + d) == norm_angle(norm_angle(x) + d),
{
    vstd::arithmetic::div_mod::lemma_fundamental_div_mod(x, TWO_PI as int);
    let q = x / (TWO_PI as int);
    vstd::arithmetic::div_mod::lemma_mod_multiples_vanish(q, norm_angle(x) + d, TWO_PI as int);
}

/// Adding at most one turn to a canonical angle wraps at most once.
pub proof fn lemma_norm_shift(s: int, d: int)
    requires
        0 <= s < TWO_PI,
        0 <= d <= TWO_PI,
    ensures
        norm_angle(s + d) == if s + d < TWO_PI {
            s + d
        } else {
            s + d - TWO_PI
        },
{
    if s + d < TWO_PI {
        vstd::arithmetic::div_mod::lemma_small_mod((s + d) as nat, TWO_PI as nat);
    } else {
        vstd::arithmetic::div_mod::lemma_mod_multiples_vanish(1, s + d - TWO_PI, TWO_PI as int);
        vstd::arithmetic::div_mod::lemma_small_mod((s + d - TWO_PI) as nat, TWO_PI as nat);
    }
}

/// Brings an angle into `[0, TWO_PI)` by whole turns.
pub fn normalize_angle(angle: i64) -> (r: i64)
    ensures
        0 <= r < TWO_PI,
        r == norm_angle(angle as int),
{
    let mut a = angle;
    while a < 0
        invariant
            norm_angle(a as int) == norm_angle(angle as int),
            a <= i64::MAX - TWO_PI || a == angle,
        decreases (if a < 0 { -(a as int) } else { 0int }),
    {
        proof {
            vstd::arithmetic::div_mod::lemma_mod_add_multiples_vanish(a as int, TWO_PI as int);
        }
        a = a + TWO_PI;
    }
    while a >= TWO_PI
        invariant
            a >= 0,
            norm_angle(a as int) == norm_angle(angle as int),
        decreases a,
    {
        proof {
            vstd::arithmetic::div_mod::lemma_mod_add_multiples_vanish((a - TWO_PI) as int, TWO_PI as int);
        }
        a = a - TWO_PI;
    }
    proof {
        vstd::arithmetic::div_mod::lemma_small_mod(a as nat, TWO_PI as nat);
    }
    a
}

} // verus!
