//! Fixed-point vectors, boxes and circular functions.

use arcviz::bounds::Bounds;
use arcviz::num::{HALF_PI, PI, SCALE, TWO_PI};
use arcviz::vector::Vector;

fn fp(v: f64) -> i64 {
    (v * SCALE as f64).round() as i64
}

fn close(a: i64, b: i64, tol: i64) -> bool {
    (a - b).abs() <= tol
}

#[test]
fn sums_and_scalings_are_exact() {
    let a = Vector::new(fp(3.0), fp(-2.0));
    let b = Vector::new(fp(1.5), fp(4.0));
    let s = a.add(b);
    assert_eq!(s.x, fp(4.5));
    assert_eq!(s.y, fp(2.0));
    let d = a.sub(b);
    assert_eq!(d.x, fp(1.5));
    assert_eq!(d.y, fp(-6.0));
    let n = a.neg();
    assert_eq!((n.x, n.y), (fp(-3.0), fp(2.0)));
    let t = a.scaled_by(fp(2.0));
    assert_eq!((t.x, t.y), (fp(6.0), fp(-4.0)));
    let h = a.divided_by(fp(2.0));
    assert_eq!((h.x, h.y), (fp(1.5), fp(-1.0)));
}

#[test]
fn length_of_a_pythagorean_triple_is_exact() {
    let v = Vector::new(fp(3.0), fp(4.0));
    assert_eq!(v.length(), fp(5.0));
    assert_eq!(Vector::new(0, 0).length(), 0);
}

#[test]
fn unit_vector_has_unit_length() {
    let v = Vector::new(fp(10.0), fp(10.0));
    let u = v.unit();
    // Both components are 1/sqrt(2), up to fixed-point truncation.
    assert!(close(u.x, fp(0.70710678), 2));
    assert!(close(u.y, fp(0.70710678), 2));
}

#[test]
fn normal_turns_a_quarter_counter_clockwise() {
    let v = Vector::new(fp(2.0), fp(1.0));
    let n = v.normal();
    assert_eq!((n.x, n.y), (fp(-1.0), fp(2.0)));
}

#[test]
fn dot_and_side_tests_follow_their_signs() {
    let x = Vector::new(SCALE, 0);
    let up = Vector::new(0, SCALE);
    let down = Vector::new(0, -SCALE);
    assert_eq!(x.dot(up), 0);
    assert_eq!(x.dot(x), SCALE);
    assert!(x.is_right(&down));
    assert!(!x.is_right(&up));
    assert!(x.is_ahead(&Vector::new(fp(0.5), fp(9.0))));
    assert!(x.is_behind(&Vector::new(fp(-0.5), fp(9.0))));
    assert!(!x.is_ahead(&up));
    assert!(!x.is_behind(&up));
}

#[test]
fn angle_is_exact_on_the_axes() {
    assert_eq!(Vector::new(SCALE, 0).angle(), 0);
    assert_eq!(Vector::new(0, SCALE).angle(), HALF_PI);
    assert_eq!(Vector::new(-SCALE, 0).angle(), PI);
    assert_eq!(Vector::new(0, -SCALE).angle(), -HALF_PI);
}

#[test]
fn angle_approximates_the_diagonal_directions() {
    let tol = fp(0.001);
    assert!(close(Vector::new(SCALE, SCALE).angle(), fp(0.78539816), tol));
    assert!(close(Vector::new(-SCALE, SCALE).angle(), fp(2.35619449), tol));
    assert!(close(Vector::new(-SCALE, -SCALE).angle(), fp(-2.35619449), tol));
    assert!(close(Vector::new(SCALE, -SCALE).angle(), fp(-0.78539816), tol));
}

#[test]
fn unit_from_angle_walks_the_circle() {
    let tol = fp(0.001);
    let e = Vector::unit_from_angle(0);
    assert!(close(e.x, SCALE, tol) && close(e.y, 0, tol));
    let n = Vector::unit_from_angle(HALF_PI);
    assert!(close(n.x, 0, tol) && close(n.y, SCALE, tol));
    let w = Vector::unit_from_angle(PI);
    assert!(close(w.x, -SCALE, tol) && close(w.y, 0, tol));
    let s = Vector::unit_from_angle(-HALF_PI);
    assert!(close(s.x, 0, tol) && close(s.y, -SCALE, tol));
    let diag = Vector::unit_from_angle(PI / 4);
    assert!(close(diag.x, fp(0.70710678), tol));
    assert!(close(diag.y, fp(0.70710678), tol));
    let wrapped = Vector::unit_from_angle(TWO_PI + HALF_PI);
    assert!(close(wrapped.x, 0, tol) && close(wrapped.y, SCALE, tol));
}

#[test]
fn rejection_drops_the_parallel_part() {
    let axis = Vector::new(fp(5.0), 0);
    let v = Vector::new(fp(3.0), fp(2.0));
    let r = v.rejection_on(&axis);
    assert!(close(r.x, 0, 4));
    assert!(close(r.y, fp(2.0), 4));
}

#[test]
fn boxes_contain_and_combine() {
    let b = Bounds::new(Vector::new(fp(1.0), fp(1.0)), Vector::new(fp(2.0), fp(3.0)));
    assert!(b.contains(Vector::new(fp(2.0), fp(2.0))));
    assert!(b.contains(Vector::new(fp(1.0), fp(4.0))));
    assert!(!b.contains(Vector::new(fp(0.9), fp(2.0))));
    assert!(!b.contains(Vector::new(fp(2.0), fp(4.1))));

    let other = Bounds::from_point(Vector::new(fp(-1.0), fp(5.0)));
    let c = b.combined_with(&other);
    assert_eq!(c.origin.x, fp(-1.0));
    assert_eq!(c.origin.y, fp(1.0));
    assert_eq!(c.origin.x + c.size.x, fp(3.0));
    assert_eq!(c.origin.y + c.size.y, fp(5.0));

    let mut m = b;
    m.merge(&other);
    assert_eq!(m, c);

    let mut t = b;
    t.try_merge(&None);
    assert_eq!(t, b);
    t.try_merge(&Some(other));
    assert_eq!(t, c);
}
