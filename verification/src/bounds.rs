//! Axis-aligned bounding box: an origin corner plus a non-negative extent.
//!
//! The kernel does not force extents to be non-negative; callers that build
//! boxes by hand must supply non-negative extents for `contains` to mean
//! membership in a rectangle.

use vstd::prelude::*;
use crate::vector::{Vector, VEC_LIMIT};

verus! {

/// An axis-aligned rectangle `[origin, origin + size]`.
#[derive(Clone, Copy, PartialEq, Eq, Structural, Debug)]
pub struct Bounds {
    pub origin: Vector,
    pub size: Vector,
}

impl Bounds {
    /// Within the additive range of the kernel.
    pub open spec fn mag_le(self, m: int) -> bool {
        self.origin.mag_le(m) && self.size.mag_le(m)
    }

    /// The degenerate box holding exactly one point.
    pub fn from_point(point: Vector) -> (r: Bounds)
        ensures
            r.origin == point,
            r.size.x == 0,
            r.size.y == 0,
    {
        Bounds { origin: point, size: Vector { x: 0, y: 0 } }
    }

    /// A box from its corner and extent.
    pub fn new(origin: Vector, size: Vector) -> (r: Bounds)
        ensures
            r.origin == origin,
            r.size == size,
    {
        Bounds { origin, size }
    }

    /// Whether the point lies in the closed rectangle.
    pub fn contains(&self, point: Vector) -> (r: bool)
        requires
            self.mag_le(VEC_LIMIT as int),
        ensures
            r == (self.origin.x <= point.x <= self.origin.x + self.size.x
                && self.origin.y <= point.y <= self.origin.y + self.size.y),
    {
        self.origin.x <= point.x && point.x <= self.origin.x + self.size.x && self.origin.y
            <= point.y && point.y <= self.origin.y + self.size.y
    }

    /// The smallest box covering both `self` and `other`.
    pub fn combined_with(&self, other: &Bounds) -> (r: Bounds)
        requires
            self.mag_le(VEC_LIMIT as int),
            other.mag_le(VEC_LIMIT as int),
        ensures
            r.origin.x == if self.origin.x <= other.origin.x {
                self.origin.x
            } else {
                other.origin.x
            },
            r.origin.y == if self.origin.y <= other.origin.y {
                self.origin.y
            } else {
                other.origin.y
            },
            r.origin.x + r.size.x == if self.origin.x + self.size.x >= other.origin.x
                + other.size.x {
                self.origin.x + self.size.x
            } else {
                other.origin.x + other.size.x
            },
            r.origin.y + r.size.y == if self.origin.y + self.size.y >= other.origin.y
                + other.size.y {
                self.origin.y + self.size.y
            } else {
                other.origin.y + other.size.y
            },
            r.mag_le(VEC_LIMIT as int * 4),
    {
        let ox = if self.origin.x <= other.origin.x {
            self.origin.x
        } else {
            other.origin.x
        };
        let oy = if self.origin.y <= other.origin.y {
            self.origin.y
        } else {
            other.origin.y
        };
        let ex = if self.origin.x + self.size.x >= other.origin.x + other.size.x {
            self.origin.x + self.size.x
        } else {
            other.origin.x + other.size.x
        };
        let ey = if self.origin.y + self.size.y >= other.origin.y + other.size.y {
            self.origin.y + self.size.y
        } else {
            other.origin.y + other.size.y
        };
        Bounds { origin: Vector { x: ox, y: oy }, size: Vector { x: ex - ox, y: ey - oy } }
    }

    /// Grows this box to cover `other` as well.
    pub fn merge(&mut self, other: &Bounds)
        requires
            old(self).mag_le(VEC_LIMIT as int),
            other.mag_le(VEC_LIMIT as int),
        ensures
            *final(self) == old(self).combined_with_spec(*other),
    {
        let r = self.combined_with(other);
        proof {
            let c = old(self).combined_with_spec(*other);
            assert(r.origin.x == c.origin.x);
            assert(r.origin.y == c.origin.y);
            assert(r.size.x == c.size.x);
            assert(r.size.y == c.size.y);
        }
        *self = r;
    }

    /// Grows this box to cover `other`, if one is there.
    pub fn try_merge(&mut self, other: &Option<Bounds>)
        requires
            old(self).mag_le(VEC_LIMIT as int),
            (match other {
                Some(b) => b.mag_le(VEC_LIMIT as int),
                None => true,
            }),
        ensures
            *final(self) == (match other {
                Some(b) => old(self).combined_with_spec(*b),
                None => *old(self),
            }),
    {
        match other {
            Some(b) => self.merge(b),
            None => (),
        }
    }

    /// The box `combined_with` returns, as a value of the model.
    pub open spec fn combined_with_spec(self, other: Bounds) -> Bounds {
        let ox = if self.origin.x <= other.origin.x {
            self.origin.x
        } else {
            other.origin.x
        };
        let oy = if self.origin.y <= other.origin.y {
            self.origin.y
        } else {
            other.origin.y
        };
        let ex = if self.origin.x + self.size.x >= other.origin.x + other.size.x {
            self.origin.x + self.size.x
        } else {
            other.origin.x + other.size.x
        };
        let ey = if self.origin.y + self.size.y >= other.origin.y + other.size.y {
            self.origin.y + self.size.y
        } else {
            other.origin.y + other.size.y
        };
        Bounds {
            origin: Vector { x: ox as i64, y: oy as i64 },
            size: Vector { x: (ex - ox) as i64, y: (ey - oy) as i64 },
        }
    }
}

} // verus!
