//! Two-dimensional fixed-point vector with the metric operations the arc
//! kernel needs: sums, scaling, dot and cross tests, length, unit direction,
//! left normal, angle from the positive x axis and rejection.

use vstd::prelude::*;
use crate::num::{
    abs, sqrt_floor, tdiv, fmul, isqrt, mul_div, wide_mul, lemma_mul_mag, lemma_tdiv_mag,
    lemma_sqrt_floor_monotone, lemma_sqrt_floor_square, Number, MAX_MAG, PI, SCALE,
};
use crate::trig::{angle_of, angle_of_spec, cos_sin, cos_spec, sin_spec};

verus! {

/// Magnitude cap for vectors that enter additive chains of kernel formulas;
/// generous enough that any few-step combination of bounded inputs fits.
pub const VEC_LIMIT: i64 = 0x4000_0000_0000;

/// A point or displacement of the plane, in fixed-point coordinates.
#[derive(Clone, Copy, PartialEq, Eq, Structural, Debug)]
pub struct Vector {
    pub x: Number,
    pub y: Number,
}

/// Length of the integer vector `(x, y)` under the fixed-point scale.
pub open spec fn len_of(x: int, y: int) -> int {
    sqrt_floor(x * x + y * y)
}

/// Components of the unit direction of `(x, y)`, scaled by `SCALE`.
pub open spec fn unit_of(x: int, y: int) -> (int, int) {
    (tdiv(x * SCALE, len_of(x, y)), tdiv(y * SCALE, len_of(x, y)))
}

/// Fixed-point dot product of two vectors given by components.
pub open spec fn dot_of(ax: int, ay: int, bx: int, by: int) -> int {
    tdiv(ax * bx + ay * by, SCALE as int)
}

/// Rejection of `(vx, vy)` from the axis `(rx, ry)`: its component along the
/// left normal of the axis.
pub open spec fn rejection_of(vx: int, vy: int, rx: int, ry: int) -> (int, int) {
    let n = unit_of(-ry, rx);
    let d = dot_of(vx, vy, n.0, n.1);
    (tdiv(n.0 * d, SCALE as int), tdiv(n.1 * d, SCALE as int))
}

impl Vector {
    /// Both components at most `m` in magnitude.
    pub open spec fn mag_le(self, m: int) -> bool {
        abs(self.x as int) <= m && abs(self.y as int) <= m
    }

    /// Within the coordinate range the kernel accepts.
    pub open spec fn bounded(self) -> bool {
        self.mag_le(MAX_MAG as int)
    }

    pub fn new(x: Number, y: Number) -> (r: Vector)
        ensures
            r.x == x,
            r.y == y,
    {
        Vector { x, y }
    }

    /// The unit vector along the positive x axis.
    pub fn unit_x() -> (r: Vector)
        ensures
            r.x == SCALE,
            r.y == 0,
    {
        Vector { x: SCALE, y: 0 }
    }

    /// The unit vector along the positive y axis.
    pub fn unit_y() -> (r: Vector)
        ensures
            r.x == 0,
            r.y == SCALE,
    {
        Vector { x: 0, y: SCALE }
    }

    pub fn add(self, other: Vector) -> (r: Vector)
        requires
            self.mag_le(VEC_LIMIT as int),
            other.mag_le(VEC_LIMIT as int),
        ensures
            r.x == self.x + other.x,
            r.y == self.y + other.y,
    {
        Vector { x: self.x + other.x, y: self.y + other.y }
    }

    pub fn sub(self, other: Vector) -> (r: Vector)
        requires
            self.mag_le(VEC_LIMIT as int),
            other.mag_le(VEC_LIMIT as int),
        ensures
            r.x == self.x - other.x,
            r.y == self.y - other.y,
    {
        Vector { x: self.x - other.x, y: self.y - other.y }
    }

    pub fn neg(self) -> (r: Vector)
        requires
            self.mag_le(VEC_LIMIT as int),
        ensures
            r.x == -self.x,
            r.y == -self.y,
    {
        Vector { x: -self.x, y: -self.y }
    }

    /// Fixed-point scaling: each component becomes `c * k / SCALE`.
    pub fn scaled_by(self, k: Number) -> (r: Vector)
        requires
            abs(self.x * k) <= 0x4000_0000_0000_0000,
            abs(self.y * k) <= 0x4000_0000_0000_0000,
        ensures
            r.x == tdiv(self.x * k, SCALE as int),
            r.y == tdiv(self.y * k, SCALE as int),
    {
        Vector { x: fmul(self.x, k), y: fmul(self.y, k) }
    }

    /// Fixed-point division: each component becomes `c * SCALE / k`.
    pub fn divided_by(self, k: Number) -> (r: Vector)
        requires
            k > 0,
            self.mag_le(VEC_LIMIT as int),
        ensures
            r.x == tdiv(self.x * SCALE, k as int),
            r.y == tdiv(self.y * SCALE, k as int),
    {
        proof {
            lemma_mul_mag(self.x as int, SCALE as int, 0x4000_0000_0000, 65536);
            lemma_mul_mag(self.y as int, SCALE as int, 0x4000_0000_0000, 65536);
        }
        Vector { x: mul_div(self.x, SCALE, k), y: mul_div(self.y, SCALE, k) }
    }

    /// Fixed-point dot product.
    pub fn dot(self, other: Vector) -> (r: Number)
        requires
            self.mag_le(0x4000_0000),
            other.mag_le(0x4000_0000),
        ensures
            r == dot_of(self.x as int, self.y as int, other.x as int, other.y as int),
            abs(r as int) <= 0x1_0000_0000_0000,
    {
        let px = wide_mul(self.x, other.x);
        let py = wide_mul(self.y, other.y);
        proof {
            lemma_mul_mag(self.x as int, other.x as int, 0x4000_0000, 0x4000_0000);
            lemma_mul_mag(self.y as int, other.y as int, 0x4000_0000, 0x4000_0000);
        }
        let s = px + py;
        let neg = s < 0;
        let m = if neg {
            -s
        } else {
            s
        };
        let q = m / (SCALE as i128);
        proof {
            vstd::arithmetic::div_mod::lemma_div_is_ordered(
                m as int,
                0x2000_0000_0000_0000,
                SCALE as int,
            );
            vstd::arithmetic::div_mod::lemma_div_pos_is_pos(m as int, SCALE as int);
        }
        if neg {
            -(q as i64)
        } else {
            q as i64
        }
    }

    /// Whether `other` lies strictly to the right of the directed line along
    /// `self` (negative cross product, with counter-clockwise positive).
    pub fn is_right(self, other: &Vector) -> (r: bool)
        ensures
            r == (self.x * other.y - self.y * other.x < 0),
    {
        let a = wide_mul(self.x, other.y);
        let b = wide_mul(self.y, other.x);
        a < b
    }

    /// Whether `other` points into the open half plane ahead of `self`
    /// (positive dot product).
    pub fn is_ahead(self, other: &Vector) -> (r: bool)
        requires
            self.mag_le(0x4000_0000),
            other.mag_le(0x4000_0000),
        ensures
            r == (self.x * other.x + self.y * other.y > 0),
    {
        let a = wide_mul(self.x, other.x);
        let b = wide_mul(self.y, other.y);
        proof {
            lemma_mul_mag(self.x as int, other.x as int, 0x4000_0000, 0x4000_0000);
            lemma_mul_mag(self.y as int, other.y as int, 0x4000_0000, 0x4000_0000);
        }
        a + b > 0
    }

    /// Whether `other` points into the open half plane behind `self`
    /// (negative dot product).
    pub fn is_behind(self, other: &Vector) -> (r: bool)
        requires
            self.mag_le(0x4000_0000),
            other.mag_le(0x4000_0000),
        ensures
            r == (self.x * other.x + self.y * other.y < 0),
    {
        let a = wide_mul(self.x, other.x);
        let b = wide_mul(self.y, other.y);
        proof {
            lemma_mul_mag(self.x as int, other.x as int, 0x4000_0000, 0x4000_0000);
            lemma_mul_mag(self.y as int, other.y as int, 0x4000_0000, 0x4000_0000);
        }
        a + b < 0
    }

    /// Fixed-point length.
    pub fn length(self) -> (r: Number)
        requires
            self.mag_le(0x4000_0000),
        ensures
            r == len_of(self.x as int, self.y as int),
            0 <= r <= 0x6000_0000,
            abs(self.x as int) <= r,
            abs(self.y as int) <= r,
    {
        let px = wide_mul(self.x, self.x);
        let py = wide_mul(self.y, self.y);
        proof {
            lemma_mul_mag(self.x as int, self.x as int, 0x4000_0000, 0x4000_0000);
            lemma_mul_mag(self.y as int, self.y as int, 0x4000_0000, 0x4000_0000);
            assert((self.x as int) * (self.x as int) >= 0) by (nonlinear_arith);
            assert((self.y as int) * (self.y as int) >= 0) by (nonlinear_arith);
        }
        let s: i64 = (px + py) as i64;
        let r = isqrt(s);
        proof {
            let xx = (self.x as int) * (self.x as int);
            let yy = (self.y as int) * (self.y as int);
            lemma_sqrt_floor_monotone(xx, xx + yy);
            lemma_sqrt_floor_monotone(yy, xx + yy);
            lemma_sqrt_floor_square(abs(self.x as int));
            lemma_sqrt_floor_square(abs(self.y as int));
            assert(abs(self.x as int) * abs(self.x as int) == (self.x as int) * (self.x as int))
                by (nonlinear_arith);
            assert(abs(self.y as int) * abs(self.y as int) == (self.y as int) * (self.y as int))
                by (nonlinear_arith);
            if r > 0x6000_0000 {
                assert(0x6000_0000int * 0x6000_0000 < r * r) by (nonlinear_arith)
                    requires
                        r > 0x6000_0000,
                ;
            }
        }
        r
    }

    /// Unit direction, scaled by `SCALE`; requires a nonzero vector.
    pub fn unit(self) -> (r: Vector)
        requires
            self.mag_le(0x4000_0000),
            self.x != 0 || self.y != 0,
        ensures
            (r.x as int, r.y as int) == unit_of(self.x as int, self.y as int),
            r.mag_le(SCALE as int),
    {
        let len = self.length();
        proof {
            if self.x != 0 {
                assert(abs(self.x as int) >= 1);
            } else {
                assert(abs(self.y as int) >= 1);
            }
            lemma_mul_mag(self.x as int, SCALE as int, 0x4000_0000, 65536);
            lemma_mul_mag(self.y as int, SCALE as int, 0x4000_0000, 65536);
            crate::trig::lemma_ratio_le_scale(abs(self.x as int), len as int);
            crate::trig::lemma_ratio_le_scale(abs(self.y as int), len as int);
        }
        let ux = mul_div(self.x, SCALE, len);
        let uy = mul_div(self.y, SCALE, len);
        Vector { x: ux, y: uy }
    }

    /// The left normal: `self` rotated a quarter turn counter-clockwise.
    pub fn normal(self) -> (r: Vector)
        requires
            self.mag_le(VEC_LIMIT as int),
        ensures
            r.x == -self.y,
            r.y == self.x,
    {
        Vector { x: -self.y, y: self.x }
    }

    /// The unit left normal; requires a nonzero vector.
    pub fn normal_unit(self) -> (r: Vector)
        requires
            self.mag_le(0x4000_0000),
            self.x != 0 || self.y != 0,
        ensures
            (r.x as int, r.y as int) == unit_of(-self.y as int, self.x as int),
            r.mag_le(SCALE as int),
    {
        self.normal().unit()
    }

    /// Angle of this direction from the positive x axis, in `[-PI, PI]`.
    pub fn angle(self) -> (r: Number)
        requires
            self.mag_le(VEC_LIMIT as int),
        ensures
            r == angle_of_spec(self.x as int, self.y as int),
            -PI <= r <= PI,
    {
        angle_of(self.x, self.y)
    }

    /// The unit vector at the given angle from the positive x axis.
    pub fn unit_from_angle(a: Number) -> (r: Vector)
        ensures
            r.x == cos_spec(a as int),
            r.y == sin_spec(a as int),
            r.mag_le(SCALE as int),
    {
        let (c, s) = cos_sin(a);
        Vector { x: c, y: s }
    }

    /// The component of `self` orthogonal to the axis `on`; requires a
    /// nonzero axis.
    pub fn rejection_on(self, on: &Vector) -> (r: Vector)
        requires
            self.mag_le(0x4000_0000),
            on.mag_le(0x4000_0000),
            on.x != 0 || on.y != 0,
        ensures
            (r.x as int, r.y as int) == rejection_of(
                self.x as int,
                self.y as int,
                on.x as int,
                on.y as int,
            ),
            r.mag_le(0x8000_0000),
            self.mag_le(0x2000_0000) ==> r.mag_le(0x4000_0000),
    {
        let n = on.normal_unit();
        let d = self.dot(n);
        proof {
            if self.mag_le(0x2000_0000) {
                lemma_mul_mag(self.x as int, n.x as int, 0x2000_0000, 65536);
                lemma_mul_mag(self.y as int, n.y as int, 0x2000_0000, 65536);
                lemma_tdiv_mag(
                    self.x * n.x + self.y * n.y,
                    SCALE as int,
                    0x4000_0000_0000,
                );
                lemma_mul_mag(n.x as int, d as int, 65536, 0x4000_0000);
                lemma_mul_mag(n.y as int, d as int, 65536, 0x4000_0000);
                lemma_tdiv_mag(n.x as int * d as int, SCALE as int, 0x4000_0000_0000);
                lemma_tdiv_mag(n.y as int * d as int, SCALE as int, 0x4000_0000_0000);
            }
            lemma_mul_mag(self.x as int, n.x as int, 0x4000_0000, 65536);
            lemma_mul_mag(self.y as int, n.y as int, 0x4000_0000, 65536);
            lemma_tdiv_mag(
                self.x * n.x + self.y * n.y,
                SCALE as int,
                0x8000_0000_0000,
            );
            lemma_mul_mag(n.x as int, d as int, 65536, 0x8000_0000);
            lemma_mul_mag(n.y as int, d as int, 65536, 0x8000_0000);
            lemma_tdiv_mag(n.x as int * d as int, SCALE as int, 0x8000_0000_0000);
            lemma_tdiv_mag(n.y as int * d as int, SCALE as int, 0x8000_0000_0000);
        }
        Vector { x: fmul(n.x, d), y: fmul(n.y, d) }
    }
}

} // verus!
