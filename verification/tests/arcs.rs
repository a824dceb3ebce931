//! Arc construction, containment, distance, bounds and intersection.

use arcviz::arc::{Arc, ArcIntersection, ConstructionFailure};
use arcviz::connection::ConnectionOrientation;
use arcviz::num::{HALF_PI, PI, SCALE, TWO_PI};
use arcviz::vector::Vector;

use ConnectionOrientation::{InnerLeft, InnerRight, OuterLeft, OuterRight};

fn fp(v: f64) -> i64 {
    (v * SCALE as f64).round() as i64
}

fn to_f(v: i64) -> f64 {
    v as f64 / SCALE as f64
}

/// The point of the arc's circle at `angle` around its center, in real units.
fn circle_point(arc: &Arc, angle: i64) -> (f64, f64) {
    let a = to_f(angle);
    (to_f(arc.center.x) + to_f(arc.radius) * a.cos(), to_f(arc.center.y) + to_f(arc.radius) * a.sin())
}

/// A full-circle arc, for intersection scenarios: a whole-turn sweep.
fn full_circle(cx: i64, cy: i64, radius: i64) -> Arc {
    Arc {
        center: Vector::new(cx, cy),
        radius,
        rotation: 0,
        angle: TWO_PI,
        start: Vector::new(cx + radius, cy),
        end: Vector::new(cx + radius, cy),
    }
}

#[test]
fn construct_reaches_both_endpoints_in_every_orientation() {
    let start = Vector::new(fp(10.0), fp(20.0));
    let end = Vector::new(fp(70.0), fp(-15.0));
    for o in [InnerRight, InnerLeft, OuterRight, OuterLeft] {
        let arc = Arc::construct(start, end, fp(80.0), o).unwrap();
        let (sx, sy) = circle_point(&arc, arc.rotation);
        let (ex, ey) = circle_point(&arc, arc.rotation + arc.angle);
        assert!((sx - 10.0).abs() < 0.1, "start x off: {sx}");
        assert!((sy - 20.0).abs() < 0.1, "start y off: {sy}");
        assert!((ex - 70.0).abs() < 0.1, "end x off: {ex}");
        assert!((ey - (-15.0)).abs() < 0.1, "end y off: {ey}");
    }
}

#[test]
fn construct_places_the_center_on_the_chosen_side() {
    let start = Vector::new(0, 0);
    let end = Vector::new(fp(10.0), 0);
    // The chord points along +x; its left is +y.
    let left = Arc::construct(start, end, fp(10.0), InnerLeft).unwrap();
    assert!(left.center.y > 0);
    let right = Arc::construct(start, end, fp(10.0), InnerRight).unwrap();
    assert!(right.center.y < 0);
    // An inner arc sweeps less than a half turn, an outer one more.
    assert!(left.angle.abs() < PI);
    let outer = Arc::construct(start, end, fp(10.0), OuterLeft).unwrap();
    assert!(outer.angle.abs() > PI);
    assert!(outer.angle.abs() <= TWO_PI);
}

#[test]
fn construct_rejects_a_radius_smaller_than_the_half_chord() {
    let start = Vector::new(0, 0);
    let end = Vector::new(fp(100.0), 0);
    assert_eq!(
        Arc::construct(start, end, fp(49.9), InnerRight),
        Err(ConstructionFailure::RadiusTooSmall)
    );
    assert!(Arc::construct(start, end, fp(50.0), InnerRight).is_ok());
}

#[test]
fn construct_rejects_degenerate_inputs() {
    let p = Vector::new(fp(5.0), fp(5.0));
    assert_eq!(
        Arc::construct(p, p, fp(10.0), InnerLeft),
        Err(ConstructionFailure::Degenerate)
    );
    let q = Vector::new(fp(9.0), fp(5.0));
    assert_eq!(
        Arc::construct(p, q, 0, InnerLeft),
        Err(ConstructionFailure::Degenerate)
    );
    assert_eq!(
        Arc::construct(p, q, fp(-3.0), InnerLeft),
        Err(ConstructionFailure::Degenerate)
    );
}

#[test]
fn an_arc_contains_the_angles_of_both_its_endpoints() {
    let start = Vector::new(fp(10.0), fp(20.0));
    let end = Vector::new(fp(30.0), fp(60.0));
    for o in [InnerRight, InnerLeft, OuterRight, OuterLeft] {
        let arc = Arc::construct(start, end, fp(40.0), o).unwrap();
        assert!(arc.contains_angle(arc.rotation));
        assert!(arc.contains_angle(arc.rotation + arc.angle));
    }
}

#[test]
fn containment_wraps_across_the_seam() {
    // A quarter-turn arc straddling angle zero: from -45 to +45 degrees.
    let arc = Arc {
        center: Vector::new(0, 0),
        radius: SCALE,
        rotation: -PI / 4,
        angle: HALF_PI,
        start: Vector::new(0, 0),
        end: Vector::new(0, 0),
    };
    assert!(arc.contains_angle(0));
    assert!(arc.contains_angle(PI / 4));
    assert!(arc.contains_angle(-PI / 4));
    assert!(arc.contains_angle(TWO_PI - PI / 8));
    assert!(!arc.contains_angle(PI));
    assert!(!arc.contains_angle(HALF_PI));
}

#[test]
fn distance_to_is_small_on_the_arc_and_right_at_its_center() {
    let start = Vector::new(0, 0);
    let end = Vector::new(fp(20.0), 0);
    let arc = Arc::construct(start, end, fp(10.0), InnerLeft).unwrap();
    // The chord is a diameter, so the center is its midpoint (10, 0) and
    // the sweep's own midpoint lies at distance radius from the center.
    let mid_angle = arc.rotation + arc.angle / 2;
    let (mx, my) = circle_point(&arc, mid_angle);
    let on_arc = Vector::new(fp(mx), fp(my));
    assert!(to_f(arc.distance_to(on_arc)) < 0.1);
    let d_center = arc.distance_to(arc.center);
    assert!((to_f(d_center) - 10.0).abs() < 0.1);
}

#[test]
fn bounds_cover_endpoints_and_contained_extrema() {
    // Upper semicircle around the origin: from (1,0) counter-clockwise to
    // (-1,0); the +y extremum belongs to the arc, the -y one does not.
    let arc = Arc {
        center: Vector::new(0, 0),
        radius: fp(1.0),
        rotation: 0,
        angle: PI,
        start: Vector::new(fp(1.0), 0),
        end: Vector::new(fp(-1.0), 0),
    };
    let b = arc.bounds();
    assert_eq!(b.origin.x, fp(-1.0));
    assert_eq!(b.origin.y, 0);
    assert_eq!(b.origin.x + b.size.x, fp(1.0));
    assert_eq!(b.origin.y + b.size.y, fp(1.0));
}

#[test]
fn concentric_arcs_with_disjoint_spans_never_intersect() {
    let a = Arc {
        center: Vector::new(fp(3.0), fp(4.0)),
        radius: fp(2.0),
        rotation: 0,
        angle: HALF_PI,
        start: Vector::new(0, 0),
        end: Vector::new(0, 0),
    };
    let b = Arc { rotation: PI, ..a };
    assert!(matches!(a.intersection_with(&b), ArcIntersection::Empty));
    assert!(matches!(b.intersection_with(&a), ArcIntersection::Empty));
}

#[test]
fn concentric_arcs_with_overlap_report_their_range() {
    let a = Arc {
        center: Vector::new(0, 0),
        radius: fp(2.0),
        rotation: 0,
        angle: PI,
        start: Vector::new(0, 0),
        end: Vector::new(0, 0),
    };
    let b = Arc { rotation: HALF_PI, ..a };
    match a.intersection_with(&b) {
        ArcIntersection::Concentric(_, _) => (),
        _ => panic!("expected a concentric overlap"),
    }
}

#[test]
fn concentric_circles_of_unequal_radius_are_empty() {
    let a = full_circle(0, 0, fp(1.0));
    let b = full_circle(0, 0, fp(2.0));
    assert!(matches!(a.intersection_with(&b), ArcIntersection::Empty));
}

#[test]
fn far_apart_and_nested_circles_are_empty() {
    let a = full_circle(0, 0, fp(1.0));
    let far = full_circle(fp(10.0), 0, fp(1.0));
    assert!(matches!(a.intersection_with(&far), ArcIntersection::Empty));
    let inner = full_circle(fp(0.1), 0, fp(0.2));
    assert!(matches!(a.intersection_with(&inner), ArcIntersection::Empty));
}

#[test]
fn unit_circles_one_apart_cross_at_the_known_two_points() {
    let a = full_circle(0, 0, SCALE);
    let b = full_circle(SCALE, 0, SCALE);
    match a.intersection_with(&b) {
        ArcIntersection::Two(Some(left), Some(right)) => {
            // x = 1/2 exactly; y = +-sqrt(3)/2, truncated by one unit.
            assert_eq!(left.x, SCALE / 2);
            assert_eq!(right.x, SCALE / 2);
            assert!((to_f(left.y) - 0.8660254).abs() < 0.001);
            assert!((to_f(right.y) + 0.8660254).abs() < 0.001);
        },
        _ => panic!("expected two crossing points"),
    }
}

#[test]
fn crossings_outside_a_span_are_dropped_one_sided() {
    // The second arc only spans the upper half plane, so only the upper
    // crossing survives on its side.
    let a = full_circle(0, 0, SCALE);
    let upper = Arc {
        center: Vector::new(SCALE, 0),
        radius: SCALE,
        rotation: 0,
        angle: PI,
        start: Vector::new(0, 0),
        end: Vector::new(0, 0),
    };
    match a.intersection_with(&upper) {
        ArcIntersection::Two(Some(left), None) => {
            assert!(left.y > 0);
        },
        other => panic!("expected only the left crossing, got {other:?}"),
    }
}

#[test]
fn externally_tangent_circles_touch_once() {
    let a = full_circle(0, 0, SCALE);
    let b = full_circle(2 * SCALE, 0, SCALE);
    match a.intersection_with(&b) {
        ArcIntersection::One(p) => {
            assert_eq!(p.x, SCALE);
            assert_eq!(p.y, 0);
        },
        other => panic!("expected a single tangency, got {other:?}"),
    }
}

#[test]
fn internally_tangent_circles_touch_once() {
    let a = full_circle(0, 0, 2 * SCALE);
    let b = full_circle(SCALE, 0, SCALE);
    match a.intersection_with(&b) {
        ArcIntersection::One(p) => {
            assert_eq!(p.x, 2 * SCALE);
            assert_eq!(p.y, 0);
        },
        other => panic!("expected a single tangency, got {other:?}"),
    }
}
