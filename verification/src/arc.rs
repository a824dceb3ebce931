//! Circular arcs: construction from two endpoints, a radius and an
//! orientation; angular containment; point distance; pairwise intersection
//! classification; and bounding boxes.
//!
//! An arc is `{center, radius, rotation, angle}` plus its two cached
//! endpoint positions: `rotation` is the angle of the start point around the
//! center, and `angle` the signed sweep from there, counter-clockwise
//! positive.

use vstd::prelude::*;
use crate::bounds::Bounds;
use crate::connection::ConnectionOrientation;
use crate::num::{
    abs, tdiv, tmod, norm_angle, sqrt_floor, isqrt, fdiv, wide_mul, wide_div, tmod_two_pi,
    normalize_angle, lemma_mul_mag, lemma_tdiv_mag, lemma_norm_range, lemma_norm_add,
    lemma_norm_shift, lemma_sqrt_floor_monotone, lemma_sqrt_floor_square,
    Number, MAX_MAG, PI, TWO_PI, HALF_PI, SCALE,
};
use crate::trig::{angle_of_spec, asin_unit, asin_unit_spec, cos_spec, sin_spec, lemma_ratio_le_scale};
use crate::vector::{len_of, unit_of, Vector};

verus! {

/// Why an arc could not be derived from its inputs.
#[derive(Clone, Copy, PartialEq, Eq, Structural, Debug)]
pub enum ConstructionFailure {
    /// The radius is too small to span the chord between the endpoints.
    RadiusTooSmall,
    /// The inputs admit no circle at all: coincident endpoints, or a radius
    /// that is not positive.
    Degenerate,
}

/// A circular arc between two endpoint positions.
#[derive(Clone, Copy, PartialEq, Eq, Structural, Debug)]
pub struct Arc {
    pub center: Vector,
    pub radius: Number,
    pub rotation: Number,
    pub angle: Number,
    pub start: Vector,
    pub end: Vector,
}

/// Half the chord length between two endpoint positions.
pub open spec fn half_chord(s: Vector, e: Vector) -> int {
    len_of(e.x - s.x, e.y - s.y) / 2
}

/// Whether arc construction succeeds: distinct endpoints, a positive
/// radius, and a radius no smaller than half the chord.
pub open spec fn construct_ok(s: Vector, e: Vector, radius: int) -> bool {
    !(s.x == e.x && s.y == e.y) && radius > 0 && half_chord(s, e) <= radius
}

/// Whether the inputs are degenerate: no circle exists at all.
pub open spec fn construct_degenerate(s: Vector, e: Vector, radius: int) -> bool {
    (s.x == e.x && s.y == e.y) || radius <= 0
}

/// The arc `construct` derives: its center on the chosen side of the chord
/// at the computed offset, its rotation the angle of the start point around
/// the center, and its sweep twice the signed half-angle of the chord.
pub open spec fn construct_matches(
    s: Vector,
    e: Vector,
    radius: int,
    o: ConnectionOrientation,
    arc: Arc,
) -> bool {
    let cx = e.x - s.x;
    let cy = e.y - s.y;
    let half = half_chord(s, e);
    let offset = sqrt_floor(radius * radius - half * half);
    let u = unit_of(-cy, cx);
    let k = if o.center_is_left_spec() {
        offset
    } else {
        -offset
    };
    let midx = tdiv((s.x + e.x) * SCALE, 2 * SCALE);
    let midy = tdiv((s.y + e.y) * SCALE, 2 * SCALE);
    let ctrx = midx + tdiv(u.0 * k, SCALE as int);
    let ctry = midy + tdiv(u.1 * k, SCALE as int);
    let alpha = asin_unit_spec(tdiv(half * SCALE, radius));
    &&& arc.center.x == ctrx
    &&& arc.center.y == ctry
    &&& arc.radius == radius
    &&& arc.rotation == angle_of_spec(s.x - ctrx, s.y - ctry)
    &&& arc.angle == 2 * (match o {
        ConnectionOrientation::InnerRight => -alpha,
        ConnectionOrientation::OuterRight => -PI + alpha,
        ConnectionOrientation::InnerLeft => alpha,
        ConnectionOrientation::OuterLeft => (PI - alpha) as int,
    })
    &&& arc.start == s
    &&& arc.end == e
}

/// The one arc the construction relation admits for given inputs.
pub open spec fn construct_of(s: Vector, e: Vector, radius: int, o: ConnectionOrientation) -> Arc {
    choose|arc: Arc| construct_matches(s, e, radius, o, arc)
}

/// The construction relation pins every field down, so `construct_of` names
/// the arc that `construct` returns.
pub proof fn lemma_construct_unique(
    s: Vector,
    e: Vector,
    radius: int,
    o: ConnectionOrientation,
    arc: Arc,
)
    requires
        construct_matches(s, e, radius, o, arc),
    ensures
        arc == construct_of(s, e, radius, o),
{
    let w = construct_of(s, e, radius, o);
    assert(construct_matches(s, e, radius, o, w));
    assert(arc.center == w.center);
    assert(arc == w);
}

impl Arc {
    /// The shape every constructed arc has: a bounded center, a positive
    /// bounded radius, a rotation within a half turn either way, a sweep
    /// within a full turn either way, and bounded endpoints.
    pub open spec fn wf(self) -> bool {
        &&& self.center.mag_le(2 * MAX_MAG as int)
        &&& 0 < self.radius <= MAX_MAG
        &&& -PI <= self.rotation <= PI
        &&& -TWO_PI <= self.angle <= TWO_PI
        &&& self.start.bounded()
        &&& self.end.bounded()
    }

    /// Derives the unique arc with the given endpoints, radius and
    /// orientation.  Fails with `Degenerate` when the endpoints coincide or
    /// the radius is not positive, and with `RadiusTooSmall` when the chord
    /// is longer than the circle's diameter.
    #[verifier::rlimit(60)]
    pub fn construct(
        start: Vector,
        end: Vector,
        radius: Number,
        orientation: ConnectionOrientation,
    ) -> (r: Result<Arc, ConstructionFailure>)
        requires
            start.bounded(),
            end.bounded(),
            -MAX_MAG <= radius <= MAX_MAG,
        ensures
            r is Ok <==> construct_ok(start, end, radius as int),
            r matches Ok(arc) ==> construct_matches(start, end, radius as int, orientation, arc)
                && arc.wf(),
            r == Result::<Arc, ConstructionFailure>::Err(ConstructionFailure::Degenerate)
                <==> construct_degenerate(start, end, radius as int),
            r == Result::<Arc, ConstructionFailure>::Err(ConstructionFailure::RadiusTooSmall)
                <==> (!construct_degenerate(start, end, radius as int) && half_chord(start, end)
                > radius),
    {
        if start.x == end.x && start.y == end.y {
            return Err(ConstructionFailure::Degenerate);
        }
        if radius <= 0 {
            return Err(ConstructionFailure::Degenerate);
        }
        let straight = end.sub(start);
        let len = straight.length();
        let half = len / 2;
        proof {
            vstd::arithmetic::div_mod::lemma_div_pos_is_pos(len as int, 2);
            vstd::arithmetic::div_mod::lemma_div_is_ordered(len as int, 0x6000_0000, 2);
        }
        if half > radius {
            return Err(ConstructionFailure::RadiusTooSmall);
        }
        let rr_wide = wide_mul(radius, radius) - wide_mul(half, half);
        proof {
            lemma_mul_mag(radius as int, radius as int, 0x1000_0000, 0x1000_0000);
            lemma_mul_mag(half as int, half as int, 0x1000_0000, 0x1000_0000);
            assert(half * half <= radius * radius) by (nonlinear_arith)
                requires
                    0 <= half <= radius,
            ;
        }
        let rr: i64 = rr_wide as i64;
        let offset = isqrt(rr);
        proof {
            lemma_sqrt_floor_monotone(rr as int, radius * radius);
            lemma_sqrt_floor_square(radius as int);
        }
        let middle = start.add(end).divided_by(2 * SCALE);
        proof {
            lemma_tdiv_mag((start.x + end.x) * SCALE, 2 * SCALE, 0x2000_0000_0000);
            lemma_tdiv_mag((start.y + end.y) * SCALE, 2 * SCALE, 0x2000_0000_0000);
        }
        let nu = straight.normal_unit();
        let k = if orientation.center_is_left() {
            offset
        } else {
            -offset
        };
        proof {
            lemma_mul_mag(nu.x as int, k as int, 65536, 0x1000_0000);
            lemma_mul_mag(nu.y as int, k as int, 65536, 0x1000_0000);
            lemma_tdiv_mag(nu.x * k, SCALE as int, 0x1000_0000_0000);
            lemma_tdiv_mag(nu.y * k, SCALE as int, 0x1000_0000_0000);
        }
        let center = middle.add(nu.scaled_by(k));
        let rel = start.sub(center);
        let rotation = rel.angle();
        proof {
            lemma_mul_mag(half as int, SCALE as int, 0x1000_0000, 65536);
            lemma_ratio_le_scale(half as int, radius as int);
        }
        let t = fdiv(half, radius);
        let alpha = asin_unit(t);
        let signed_half = match orientation {
            ConnectionOrientation::InnerRight => -alpha,
            ConnectionOrientation::OuterRight => -PI + alpha,
            ConnectionOrientation::InnerLeft => alpha,
            ConnectionOrientation::OuterLeft => PI - alpha,
        };
        let angle = 2 * signed_half;
        Ok(Arc { center, radius, rotation, angle, start, end })
    }

    /// Angles both within one turn, so sums of them stay representable.
    pub open spec fn angles_wf(self) -> bool {
        -TWO_PI <= self.rotation <= TWO_PI && -TWO_PI <= self.angle <= TWO_PI
    }

    /// Whether the direction at the given angle is part of the arc: the
    /// normalized angle lies in the normalized span swept from the start
    /// direction, wrap-aware.
    pub open spec fn contains_angle_spec(self, angle: int) -> bool {
        let a = norm_angle(angle);
        let s = if self.angle >= 0 {
            norm_angle(self.rotation as int)
        } else {
            norm_angle(self.rotation + self.angle)
        };
        let e = s + abs(self.angle as int);
        (s <= a <= e) || (s <= a + TWO_PI <= e)
    }

    /// Checks if the given angle is part of the arc: whether the point at
    /// that angle on the arc's circle belongs to the arc.
    pub fn contains_angle(&self, angle: Number) -> (r: bool)
        requires
            self.angles_wf(),
        ensures
            r == self.contains_angle_spec(angle as int),
    {
        let a = normalize_angle(angle);
        let s = if self.angle >= 0 {
            normalize_angle(self.rotation)
        } else {
            normalize_angle(self.rotation + self.angle)
        };
        let aa = if self.angle < 0 {
            -self.angle
        } else {
            self.angle
        };
        let e = s + aa;
        if a >= s && a <= e {
            true
        } else if a + TWO_PI >= s && a + TWO_PI <= e {
            true
        } else {
            false
        }
    }
}

/// The intersection of two arcs.
#[derive(Clone, Copy, Debug)]
pub enum ArcIntersection {
    /// The arcs do not intersect.
    Empty,
    /// The arcs touch in the given point and, by their distance, could not
    /// meet anywhere else.
    One(Vector),
    /// The arcs' circles cross in two places; each candidate point is
    /// present when it lies on both arcs.  The first is the left and the
    /// second the right candidate, seen along the directed line from the
    /// first arc's center to the second's.
    Two(Option<Vector>, Option<Vector>),
    /// The arcs lie on the same circle; the overlap of their angular spans,
    /// as one range and possibly a second.
    Concentric((Number, Number), Option<(Number, Number)>),
}

/// Whether an executable angular range agrees with its model.
pub open spec fn opt_range_matches(e: Option<(Number, Number)>, s: Option<(int, int)>) -> bool {
    match e {
        Option::None => s is None,
        Option::Some(p) => s matches Some(q) && p.0 == q.0 && p.1 == q.1,
    }
}

/// The angular overlap of two arcs pretending they share one circle: the
/// case analysis over which of each other's span ends the arcs contain.
pub open spec fn angular_ranges_spec(a: Arc, b: Arc) -> (Option<(int, int)>, Option<(int, int)>) {
    let start1 = a.rotation as int;
    let end1 = tmod(a.rotation + a.angle, TWO_PI as int);
    let start2 = b.rotation as int;
    let end2 = tmod(b.rotation + b.angle, TWO_PI as int);
    let c_s2 = a.contains_angle_spec(start2);
    let c_e2 = a.contains_angle_spec(end2);
    let c_s1 = b.contains_angle_spec(start1);
    if c_s2 && c_e2 && c_s1 {
        (Some((start1, end2 - start1)), Some((start2, end1 - start2)))
    } else if c_s2 && c_e2 {
        (Some((start2, end2 - start2)), None)
    } else if c_s2 {
        (Some((start2, end1 - start2)), None)
    } else if c_e2 {
        (Some((start1, end2 - start1)), None)
    } else if c_s1 {
        (Some((start1, end1 - start1)), None)
    } else {
        (None, None)
    }
}

impl Arc {
    /// The intersection of the two arcs' angular spans, as if they lay on
    /// one circle: up to two ranges of `(start, sweep)` form.
    pub fn angular_intersection(&self, other: &Arc) -> (r: (
        Option<(Number, Number)>,
        Option<(Number, Number)>,
    ))
        requires
            self.angles_wf(),
            other.angles_wf(),
        ensures
            opt_range_matches(r.0, angular_ranges_spec(*self, *other).0),
            opt_range_matches(r.1, angular_ranges_spec(*self, *other).1),
    {
        let start1 = self.rotation;
        let end1 = tmod_two_pi(self.rotation + self.angle);
        let start2 = other.rotation;
        let end2 = tmod_two_pi(other.rotation + other.angle);
        let c_s2 = self.contains_angle(start2);
        let c_e2 = self.contains_angle(end2);
        let c_s1 = other.contains_angle(start1);
        if c_s2 && c_e2 && c_s1 {
            (Some((start1, end2 - start1)), Some((start2, end1 - start2)))
        } else if c_s2 && c_e2 {
            (Some((start2, end2 - start2)), None)
        } else if c_s2 {
            (Some((start2, end1 - start2)), None)
        } else if c_e2 {
            (Some((start1, end2 - start1)), None)
        } else if c_s1 {
            (Some((start1, end1 - start1)), None)
        } else {
            (None, None)
        }
    }
}

/// How `intersection_with` classifies a pair of arcs, and which points it
/// reports: the full decision tree over the centers' distance and the radii,
/// with every candidate point kept only when both arcs contain its angle.
pub open spec fn intersection_matches(a: Arc, b: Arc, r: ArcIntersection) -> bool {
    let dx = b.center.x - a.center.x;
    let dy = b.center.y - a.center.y;
    let dist = len_of(dx, dy);
    if dist == 0 {
        if a.radius != b.radius {
            r is Empty
        } else {
            let ranges = angular_ranges_spec(a, b);
            match ranges.0 {
                Option::None => r is Empty,
                Option::Some(r1) => r matches ArcIntersection::Concentric(p1, p2) && p1.0 == r1.0
                    && p1.1 == r1.1 && opt_range_matches(p2, ranges.1),
            }
        }
    } else if dist > a.radius + b.radius {
        r is Empty
    } else if a.radius > dist + b.radius {
        r is Empty
    } else if b.radius > dist + a.radius {
        r is Empty
    } else if dist == a.radius + b.radius {
        let u = unit_of(dx, dy);
        if a.contains_angle_spec(angle_of_spec(dx, dy)) && b.contains_angle_spec(
            angle_of_spec(-dx, -dy),
        ) {
            r matches ArcIntersection::One(p) && p.x == a.center.x + tdiv(
                u.0 * a.radius,
                SCALE as int,
            ) && p.y == a.center.y + tdiv(u.1 * a.radius, SCALE as int)
        } else {
            r is Empty
        }
    } else if a.radius == dist + b.radius {
        let u = unit_of(dx, dy);
        if a.contains_angle_spec(angle_of_spec(dx, dy)) && b.contains_angle_spec(
            angle_of_spec(dx, dy),
        ) {
            r matches ArcIntersection::One(p) && p.x == a.center.x + tdiv(
                u.0 * a.radius,
                SCALE as int,
            ) && p.y == a.center.y + tdiv(u.1 * a.radius, SCALE as int)
        } else {
            r is Empty
        }
    } else if b.radius == dist + a.radius {
        let u = unit_of(dx, dy);
        if a.contains_angle_spec(angle_of_spec(-dx, -dy)) && b.contains_angle_spec(
            angle_of_spec(-dx, -dy),
        ) {
            r matches ArcIntersection::One(p) && p.x == a.center.x + tdiv(
                u.0 * -a.radius,
                SCALE as int,
            ) && p.y == a.center.y + tdiv(u.1 * -a.radius, SCALE as int)
        } else {
            r is Empty
        }
    } else {
        let aoff = tdiv(
            a.radius * a.radius - b.radius * b.radius + dist * dist,
            2 * dist,
        );
        let u = unit_of(dx, dy);
        let cmx = a.center.x + tdiv(u.0 * aoff, SCALE as int);
        let cmy = a.center.y + tdiv(u.1 * aoff, SCALE as int);
        let h = sqrt_floor(a.radius * a.radius - aoff * aoff);
        let n = unit_of(-dy, dx);
        let ox = tdiv(n.0 * h, SCALE as int);
        let oy = tdiv(n.1 * h, SCALE as int);
        let lok = a.contains_angle_spec(angle_of_spec(cmx + ox - a.center.x, cmy + oy - a.center.y))
            && b.contains_angle_spec(
            angle_of_spec(cmx + ox - b.center.x, cmy + oy - b.center.y),
        );
        let rok = a.contains_angle_spec(angle_of_spec(cmx - ox - a.center.x, cmy - oy - a.center.y))
            && b.contains_angle_spec(
            angle_of_spec(cmx - ox - b.center.x, cmy - oy - b.center.y),
        );
        r matches ArcIntersection::Two(left, right) && (match left {
            Option::Some(p) => lok && p.x == cmx + ox && p.y == cmy + oy,
            Option::None => !lok,
        }) && (match right {
            Option::Some(p) => rok && p.x == cmx - ox && p.y == cmy - oy,
            Option::None => !rok,
        })
    }
}

/// The one intersection value the classification admits for a pair of arcs.
pub open spec fn intersection_of(a: Arc, b: Arc) -> ArcIntersection {
    choose|r: ArcIntersection| intersection_matches(a, b, r)
}

/// The classification pins the result down: two values that both match it
/// are the same, so `intersection_of` names the result of `intersection_with`.
pub proof fn lemma_intersection_unique(a: Arc, b: Arc, r: ArcIntersection)
    requires
        intersection_matches(a, b, r),
    ensures
        r == intersection_of(a, b),
{
    let w = intersection_of(a, b);
    assert(intersection_matches(a, b, w));
    match (r, w) {
        (ArcIntersection::One(p), ArcIntersection::One(q)) => {
            assert(p == q);
        },
        (ArcIntersection::Two(l1, r1), ArcIntersection::Two(l2, r2)) => {
            assert(l1 == l2 && r1 == r2) by {
                match (l1, l2) {
                    (Option::Some(p), Option::Some(q)) => assert(p == q),
                    _ => (),
                }
                match (r1, r2) {
                    (Option::Some(p), Option::Some(q)) => assert(p == q),
                    _ => (),
                }
            }
        },
        _ => (),
    }
}

impl Arc {
    /// Classifies how this arc meets the other: concentric overlap, no
    /// contact, a single tangency point kept only if both arcs contain it,
    /// or the two circle crossings, each kept only if both arcs contain it.
    #[verifier::rlimit(80)]
    pub fn intersection_with(&self, other: &Arc) -> (r: ArcIntersection)
        requires
            self.wf(),
            other.wf(),
        ensures
            intersection_matches(*self, *other, r),
    {
        let self_to_other = other.center.sub(self.center);
        let dx = self_to_other.x;
        let dy = self_to_other.y;
        let distance = self_to_other.length();

        // Concentric circles: either nothing, or the angular overlap.
        if distance == 0 {
            if self.radius != other.radius {
                return ArcIntersection::Empty;
            }
            let ranges = self.angular_intersection(other);
            let (first, second) = ranges;
            match first {
                Option::None => {
                    return ArcIntersection::Empty;
                },
                Option::Some(range1) => {
                    return ArcIntersection::Concentric(range1, second);
                },
            }
        }
        // Too far apart to touch.
        if distance > self.radius + other.radius {
            return ArcIntersection::Empty;
        }
        // One circle strictly inside the other.
        if self.radius > distance + other.radius {
            return ArcIntersection::Empty;
        }
        if other.radius > distance + self.radius {
            return ArcIntersection::Empty;
        }
        // Tangency from outside.
        if distance == self.radius + other.radius {
            let u = self_to_other.unit();
            let away = self_to_other.neg();
            if self.contains_angle(self_to_other.angle()) && other.contains_angle(away.angle()) {
                proof {
                    lemma_mul_mag(u.x as int, self.radius as int, 65536, 0x1000_0000);
                    lemma_mul_mag(u.y as int, self.radius as int, 65536, 0x1000_0000);
                    lemma_tdiv_mag(u.x * self.radius, SCALE as int, 0x1000_0000_0000);
                    lemma_tdiv_mag(u.y * self.radius, SCALE as int, 0x1000_0000_0000);
                }
                let p = self.center.add(u.scaled_by(self.radius));
                return ArcIntersection::One(p);
            } else {
                return ArcIntersection::Empty;
            }
        }
        // Tangency with the other circle inside this one.
        if self.radius == distance + other.radius {
            let u = self_to_other.unit();
            if self.contains_angle(self_to_other.angle()) && other.contains_angle(
                self_to_other.angle(),
            ) {
                proof {
                    lemma_mul_mag(u.x as int, self.radius as int, 65536, 0x1000_0000);
                    lemma_mul_mag(u.y as int, self.radius as int, 65536, 0x1000_0000);
                    lemma_tdiv_mag(u.x * self.radius, SCALE as int, 0x1000_0000_0000);
                    lemma_tdiv_mag(u.y * self.radius, SCALE as int, 0x1000_0000_0000);
                }
                let p = self.center.add(u.scaled_by(self.radius));
                return ArcIntersection::One(p);
            } else {
                return ArcIntersection::Empty;
            }
        }
        // Tangency with this circle inside the other.
        if other.radius == distance + self.radius {
            let u = self_to_other.unit();
            let away = self_to_other.neg();
            if self.contains_angle(away.angle()) && other.contains_angle(away.angle()) {
                proof {
                    lemma_mul_mag(u.x as int, -self.radius as int, 65536, 0x1000_0000);
                    lemma_mul_mag(u.y as int, -self.radius as int, 65536, 0x1000_0000);
                    lemma_tdiv_mag(u.x * -self.radius, SCALE as int, 0x1000_0000_0000);
                    lemma_tdiv_mag(u.y * -self.radius, SCALE as int, 0x1000_0000_0000);
                }
                let p = self.center.add(u.scaled_by(-self.radius));
                return ArcIntersection::One(p);
            } else {
                return ArcIntersection::Empty;
            }
        }
        // The circles cross: the midpoint of the chord between the two
        // crossing points sits on the center line, a signed offset from this
        // arc's center; the crossings sit half a chord to either side.
        let sq_r1 = wide_mul(self.radius, self.radius);
        let sq_r2 = wide_mul(other.radius, other.radius);
        let sq_d = wide_mul(distance, distance);
        proof {
            lemma_mul_mag(self.radius as int, self.radius as int, 0x1000_0000, 0x1000_0000);
            lemma_mul_mag(other.radius as int, other.radius as int, 0x1000_0000, 0x1000_0000);
            lemma_mul_mag(distance as int, distance as int, 0x6000_0000, 0x6000_0000);
        }
        let num = sq_r1 - sq_r2 + sq_d;
        proof {
            let r1 = self.radius as int;
            let r2 = other.radius as int;
            let d = distance as int;
            assert(abs(r1 * r1 - r2 * r2 + d * d) <= d * (2 * 0x4000_0000)) by (nonlinear_arith)
                requires
                    r1 <= d + r2,
                    r2 <= d + r1,
                    0 < r1 <= 0x1000_0000,
                    0 < r2 <= 0x1000_0000,
                    0 < d <= 0x6000_0000,
            ;
            assert(d * (2 * 0x4000_0000) <= (2 * d) * 0x4000_0000_0000_0000int)
                by (nonlinear_arith)
                requires
                    d > 0,
            ;
            assert((2 * d) * 0x4000_0000 == d * (2 * 0x4000_0000)) by (nonlinear_arith);
        }
        let den = 2 * distance;
        let aoff = wide_div(num, den);
        proof {
            let d = distance as int;
            vstd::arithmetic::div_mod::lemma_div_is_ordered(
                abs(num as int),
                d * (2 * 0x4000_0000),
                den as int,
            );
            vstd::arithmetic::div_mod::lemma_div_multiples_vanish(0x4000_0000, den as int);
        }
        let u = self_to_other.unit();
        proof {
            lemma_mul_mag(u.x as int, aoff as int, 65536, 0x4000_0000);
            lemma_mul_mag(u.y as int, aoff as int, 65536, 0x4000_0000);
            lemma_tdiv_mag(u.x * aoff, SCALE as int, 0x4000_0000_0000);
            lemma_tdiv_mag(u.y * aoff, SCALE as int, 0x4000_0000_0000);
        }
        let chord_mid = self.center.add(u.scaled_by(aoff));
        let sq_a = wide_mul(aoff, aoff);
        proof {
            lemma_mul_mag(aoff as int, aoff as int, 0x4000_0000, 0x4000_0000);
            assert(aoff * aoff >= 0) by (nonlinear_arith);
        }
        let h2 = sq_r1 - sq_a;
        let h: i64 = if h2 <= 0 {
            0
        } else {
            isqrt(h2 as i64)
        };
        proof {
            if h2 > 0 {
                lemma_sqrt_floor_monotone(h2 as int, self.radius * self.radius);
                lemma_sqrt_floor_square(self.radius as int);
            }
        }
        let n = self_to_other.normal_unit();
        proof {
            lemma_mul_mag(n.x as int, h as int, 65536, 0x1000_0000);
            lemma_mul_mag(n.y as int, h as int, 65536, 0x1000_0000);
            lemma_tdiv_mag(n.x * h, SCALE as int, 0x1000_0000_0000);
            lemma_tdiv_mag(n.y * h, SCALE as int, 0x1000_0000_0000);
        }
        let off = n.scaled_by(h);
        let left_point = chord_mid.add(off);
        let right_point = chord_mid.sub(off);

        let self_to_left = left_point.sub(self.center);
        let self_to_right = right_point.sub(self.center);
        let other_to_left = left_point.sub(other.center);
        let other_to_right = right_point.sub(other.center);

        let left = if self.contains_angle(self_to_left.angle()) && other.contains_angle(
            other_to_left.angle(),
        ) {
            Some(left_point)
        } else {
            None
        };
        let right = if self.contains_angle(self_to_right.angle()) && other.contains_angle(
            other_to_right.angle(),
        ) {
            Some(right_point)
        } else {
            None
        };
        ArcIntersection::Two(left, right)
    }
}

/// The point of an arc's circle at the given angle around its center.
pub open spec fn circle_point_spec(a: Arc, angle: int) -> (int, int) {
    (
        a.center.x + tdiv(cos_spec(angle) * a.radius, SCALE as int),
        a.center.y + tdiv(sin_spec(angle) * a.radius, SCALE as int),
    )
}

/// The distance from a point to the arc line: the nearer endpoint, refined
/// by the distance to the circle when the point faces the arc's span.
pub open spec fn distance_to_spec(a: Arc, point: Vector) -> int {
    let sp = circle_point_spec(a, a.rotation as int);
    let ep = circle_point_spec(a, a.rotation + a.angle);
    let d1 = len_of(point.x - sp.0, point.y - sp.1);
    let d2 = len_of(point.x - ep.0, point.y - ep.1);
    let d = if d1 <= d2 {
        d1
    } else {
        d2
    };
    let fcx = point.x - a.center.x;
    let fcy = point.y - a.center.y;
    if a.contains_angle_spec(angle_of_spec(fcx, fcy)) {
        let dc = abs(len_of(fcx, fcy) - a.radius);
        if dc <= d {
            dc
        } else {
            d
        }
    } else {
        d
    }
}

impl Arc {
    /// Computes the distance between the arc line and the given point.
    pub fn distance_to(&self, point: Vector) -> (r: Number)
        requires
            self.wf(),
            point.bounded(),
        ensures
            r == distance_to_spec(*self, point),
            r >= 0,
    {
        let us = Vector::unit_from_angle(self.rotation);
        let ue = Vector::unit_from_angle(self.rotation + self.angle);
        proof {
            lemma_mul_mag(us.x as int, self.radius as int, 65536, 0x1000_0000);
            lemma_mul_mag(us.y as int, self.radius as int, 65536, 0x1000_0000);
            lemma_mul_mag(ue.x as int, self.radius as int, 65536, 0x1000_0000);
            lemma_mul_mag(ue.y as int, self.radius as int, 65536, 0x1000_0000);
            lemma_tdiv_mag(us.x * self.radius, SCALE as int, 0x1000_0000_0000);
            lemma_tdiv_mag(us.y * self.radius, SCALE as int, 0x1000_0000_0000);
            lemma_tdiv_mag(ue.x * self.radius, SCALE as int, 0x1000_0000_0000);
            lemma_tdiv_mag(ue.y * self.radius, SCALE as int, 0x1000_0000_0000);
        }
        let sp = self.center.add(us.scaled_by(self.radius));
        let ep = self.center.add(ue.scaled_by(self.radius));
        let from_start = point.sub(sp);
        let from_end = point.sub(ep);
        let from_center = point.sub(self.center);
        let d1 = from_start.length();
        let d2 = from_end.length();
        let d = if d1 <= d2 {
            d1
        } else {
            d2
        };
        if self.contains_angle(from_center.angle()) {
            let lc = from_center.length();
            let diff = lc - self.radius;
            let dc = if diff < 0 {
                -diff
            } else {
                diff
            };
            if dc <= d {
                dc
            } else {
                d
            }
        } else {
            d
        }
    }
}

/// The degenerate box holding one point, as a value of the model.
pub open spec fn point_box_spec(p: Vector) -> Bounds {
    Bounds { origin: p, size: Vector { x: 0, y: 0 } }
}

/// The bounding box `bounds` computes: the box of the two endpoints, grown
/// by each axis-aligned extremum of the circle whose direction the arc
/// contains.
pub open spec fn arc_bounds_spec(a: Arc) -> Bounds {
    let base = point_box_spec(a.start).combined_with_spec(point_box_spec(a.end));
    let p_right = Vector { x: (a.center.x + a.radius) as i64, y: a.center.y };
    let p_up = Vector { x: a.center.x, y: (a.center.y + a.radius) as i64 };
    let p_left = Vector { x: (a.center.x - a.radius) as i64, y: a.center.y };
    let p_down = Vector { x: a.center.x, y: (a.center.y - a.radius) as i64 };
    let e0: Option<Bounds> = if a.contains_angle_spec(0) {
        Some(point_box_spec(p_right))
    } else {
        None
    };
    let e1: Option<Bounds> = if a.contains_angle_spec(HALF_PI as int) {
        match e0 {
            Option::Some(acc) => Some(acc.combined_with_spec(point_box_spec(p_up))),
            Option::None => Some(point_box_spec(p_up)),
        }
    } else {
        e0
    };
    let e2: Option<Bounds> = if a.contains_angle_spec(PI as int) {
        match e1 {
            Option::Some(acc) => Some(acc.combined_with_spec(point_box_spec(p_left))),
            Option::None => Some(point_box_spec(p_left)),
        }
    } else {
        e1
    };
    let e3: Option<Bounds> = if a.contains_angle_spec(-HALF_PI as int) {
        match e2 {
            Option::Some(acc) => Some(acc.combined_with_spec(point_box_spec(p_down))),
            Option::None => Some(point_box_spec(p_down)),
        }
    } else {
        e2
    };
    match e3 {
        Option::Some(e) => base.combined_with_spec(e),
        Option::None => base,
    }
}

impl Arc {
    /// The bounding box of the arc: its endpoints, grown by each axis
    /// extremum of its circle that lies within the arc's span.
    #[verifier::rlimit(60)]
    pub fn bounds(&self) -> (r: Bounds)
        requires
            self.wf(),
        ensures
            r == arc_bounds_spec(*self),
    {
        let mut b = Bounds::from_point(self.start);
        b.merge(&Bounds::from_point(self.end));
        let p_right = Vector::new(self.center.x + self.radius, self.center.y);
        let p_up = Vector::new(self.center.x, self.center.y + self.radius);
        let p_left = Vector::new(self.center.x - self.radius, self.center.y);
        let p_down = Vector::new(self.center.x, self.center.y - self.radius);
        let mut extrema: Option<Bounds> = None;
        if self.contains_angle(0) {
            extrema = Some(Bounds::from_point(p_right));
        }
        if self.contains_angle(HALF_PI) {
            extrema = match extrema {
                Some(acc) => Some(acc.combined_with(&Bounds::from_point(p_up))),
                None => Some(Bounds::from_point(p_up)),
            };
        }
        if self.contains_angle(PI) {
            extrema = match extrema {
                Some(acc) => Some(acc.combined_with(&Bounds::from_point(p_left))),
                None => Some(Bounds::from_point(p_left)),
            };
        }
        if self.contains_angle(-HALF_PI) {
            extrema = match extrema {
                Some(acc) => Some(acc.combined_with(&Bounds::from_point(p_down))),
                None => Some(Bounds::from_point(p_down)),
            };
        }
        b.try_merge(&extrema);
        b
    }
}

/// Two arcs on one circle never yield a point result: with disjoint angular
/// spans the classification is `None`, and otherwise `Concentric`.
pub proof fn lemma_concentric_never_point(a: Arc, b: Arc, r: ArcIntersection)
    requires
        intersection_matches(a, b, r),
        a.center.x == b.center.x,
        a.center.y == b.center.y,
    ensures
        !(r is One),
        !(r is Two),
        !a.contains_angle_spec(b.rotation as int) && !a.contains_angle_spec(
            tmod(b.rotation + b.angle, TWO_PI as int),
        ) && !b.contains_angle_spec(a.rotation as int) ==> r is Empty,
{
    assert(len_of(0, 0) == 0) by {
        crate::num::lemma_sqrt_floor_unique(0, 0);
    }
}

/// Both endpoint directions of an arc lie within its own span: the one at
/// `rotation` and the one at `rotation + angle`.
pub proof fn lemma_arc_contains_endpoints(arc: Arc)
    requires
        arc.angles_wf(),
    ensures
        arc.contains_angle_spec(arc.rotation as int),
        arc.contains_angle_spec(arc.rotation + arc.angle),
{
    if arc.angle >= 0 {
        let s = norm_angle(arc.rotation as int);
        lemma_norm_range(arc.rotation as int);
        lemma_norm_add(arc.rotation as int, arc.angle as int);
        lemma_norm_shift(s, arc.angle as int);
        lemma_norm_range(arc.rotation + arc.angle);
    } else {
        let s = norm_angle(arc.rotation + arc.angle);
        lemma_norm_range(arc.rotation + arc.angle);
        lemma_norm_add(arc.rotation + arc.angle, -(arc.angle as int));
        lemma_norm_shift(s, -(arc.angle as int));
        lemma_norm_range(arc.rotation as int);
    }
}

} // verus!
