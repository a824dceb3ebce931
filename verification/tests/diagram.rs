//! The diagram aggregate: editing, queries and the conflict detector.

use arcviz::arc::Arc;
use arcviz::bounds::Bounds;
use arcviz::connection::ConnectionOrientation;
use arcviz::data::{ConnectionKind, Data};
use arcviz::num::SCALE;
use arcviz::vector::Vector;
use arcviz::vertex::Vertex;

use ConnectionOrientation::{InnerLeft, InnerRight};

fn fp(v: f64) -> i64 {
    (v * SCALE as f64).round() as i64
}

fn to_f(v: i64) -> f64 {
    v as f64 / SCALE as f64
}

fn diagram(positions: &[(f64, f64)]) -> Data {
    let mut d = Data::default();
    while d.remove_vertex(0).is_ok() {}
    for &(x, y) in positions {
        d.add_vertex(Vertex::new(Vector::new(fp(x), fp(y))));
    }
    d
}

#[test]
fn the_stock_diagram_has_four_corners_and_five_connections() {
    let d = Data::default();
    assert_eq!(d.vertices.len(), 4);
    let arcs = d.arcs();
    assert_eq!(arcs.len(), 5, "all five stock connections must construct");
    let pairs: Vec<(usize, usize)> = arcs.iter().map(|t| (t.0, t.1)).collect();
    for want in [(0, 1), (2, 3), (3, 0), (0, 2), (1, 3)] {
        assert!(pairs.contains(&want), "missing stock pair {want:?}");
    }
}

#[test]
fn the_stock_diagram_reports_deterministic_conflicts() {
    let d = Data::default();
    let first = d.conflicts(d.arcs());
    assert!(!first.is_empty(), "the two diagonals must conflict with the sides");
    let second = d.conflicts(d.arcs());
    assert_eq!(first.len(), second.len());
    for (x, y) in first.iter().zip(second.iter()) {
        assert_eq!(x.0, y.0);
        assert_eq!(x.1, y.1);
        assert_eq!(x.2, y.2);
    }
    // The two diagonals cross each other away from any shared endpoint,
    // so at least one of their mutual crossings must be among the reports.
    let diag = [(0usize, 2usize), (1usize, 3usize)];
    assert!(
        first.iter().any(|c| diag.contains(&c.0) && diag.contains(&c.1)),
        "the diagonals must be reported against each other"
    );
}

#[test]
fn arcs_tangent_at_a_shared_vertex_raise_no_conflict() {
    // Two unit semicircles meeting only at the shared vertex 0.
    let d = diagram(&[(0.0, 0.0), (2.0, 0.0), (-2.0, 0.0)]);
    let a = Arc::construct(
        Vector::new(0, 0),
        Vector::new(fp(2.0), 0),
        fp(1.0),
        InnerLeft,
    )
    .unwrap();
    let b = Arc::construct(
        Vector::new(0, 0),
        Vector::new(fp(-2.0), 0),
        fp(1.0),
        InnerLeft,
    )
    .unwrap();
    let conflicts = d.conflicts(vec![(0, 1, a), (0, 2, b)]);
    assert!(conflicts.is_empty(), "tangency at the shared endpoint is not a conflict");
}

#[test]
fn unrelated_crossing_arcs_do_conflict() {
    let d = diagram(&[(0.0, 0.0), (4.0, 0.0), (2.0, 2.0), (2.0, -2.0)]);
    let a = Arc::construct(
        Vector::new(0, 0),
        Vector::new(fp(4.0), 0),
        fp(3.0),
        InnerLeft,
    )
    .unwrap();
    let b = Arc::construct(
        Vector::new(fp(2.0), fp(2.0)),
        Vector::new(fp(2.0), fp(-2.0)),
        fp(3.0),
        InnerLeft,
    )
    .unwrap();
    let conflicts = d.conflicts(vec![(0, 1, a), (2, 3, b)]);
    assert!(!conflicts.is_empty(), "disjoint pairs that cross must be reported");
}

#[test]
fn connections_survive_removal_of_an_unrelated_vertex() {
    let mut d = diagram(&[(0.0, 0.0), (10.0, 0.0), (5.0, 8.0), (9.0, 9.0)]);
    d.add_connection(1, 2, InnerRight, 1).unwrap();
    d.add_connection(2, 1, InnerLeft, 3).unwrap();
    d.remove_vertex(0).unwrap();
    // Ids above the removed vertex shifted down by one.
    let fwd = d.connection(&0, &1).unwrap();
    assert!(matches!(fwd, ConnectionKind::Arc(_)));
    let e = d.edge_mut(&1, &0).unwrap();
    assert_eq!(e.orientation, InnerLeft);
    assert_eq!(e.size, 3);
    assert!(d.connection(&2, &0).is_none());
}

#[test]
fn out_of_range_edits_fail_and_change_nothing() {
    let mut d = diagram(&[(0.0, 0.0), (1.0, 0.0)]);
    assert!(d.add_connection(0, 2, InnerRight, 0).is_err());
    assert!(d.remove_vertex(2).is_err());
    assert!(d.remove_connection(5, 0).is_err());
    assert_eq!(d.vertices.len(), 2);
}

#[test]
fn a_too_small_radius_class_yields_an_unreachable_connection() {
    let mut d = diagram(&[(0.0, 0.0), (1000.0, 0.0)]);
    // Class 0 has radius 100, far below the 500 the chord needs.
    d.add_connection(0, 1, InnerRight, 0).unwrap();
    match d.connection(&0, &1).unwrap() {
        ConnectionKind::Unreachable => (),
        ConnectionKind::Arc(_) => panic!("a 100-radius arc cannot span 1000 units"),
    }
    assert_eq!(d.arcs().len(), 0);
}

#[test]
fn vertices_in_selects_exactly_the_region() {
    let d = diagram(&[(0.0, 0.0), (5.0, 5.0), (20.0, 1.0), (4.0, 9.0)]);
    let region = Bounds::new(Vector::new(fp(-1.0), fp(-1.0)), Vector::new(fp(7.0), fp(11.0)));
    let inside = d.vertices_in(region);
    assert_eq!(inside, vec![0, 1, 3]);
}

#[test]
fn closest_vertex_is_found_with_its_distance() {
    let d = diagram(&[(0.0, 0.0), (10.0, 0.0), (3.0, 4.0)]);
    let (id, dist) = d.closest_vertex_to(&Vector::new(fp(3.0), fp(3.0))).unwrap();
    assert_eq!(id, 2);
    assert!((to_f(dist) - 1.0).abs() < 0.01);
    let empty = diagram(&[]);
    assert!(empty.closest_vertex_to(&Vector::new(0, 0)).is_none());
}

#[test]
fn closest_connection_measures_arcs_and_chords() {
    let mut d = diagram(&[(0.0, 0.0), (20.0, 0.0), (0.0, 50.0), (1000.0, 50.0)]);
    d.add_connection(0, 1, InnerLeft, 1).unwrap();  // radius 200: a shallow arc
    d.add_connection(2, 3, InnerRight, 0).unwrap();  // unreachable: chord distance
    let (a, b, dist) = d.closest_connection_to(&Vector::new(fp(10.0), fp(2.0))).unwrap();
    assert_eq!((a, b), (0, 1));
    assert!(to_f(dist) < 3.0);
    let (c, e, far) = d.closest_connection_to(&Vector::new(fp(500.0), fp(60.0))).unwrap();
    assert_eq!((c, e), (2, 3));
    assert!((to_f(far) - 10.0).abs() < 0.1);
    let none = diagram(&[(0.0, 0.0)]);
    assert!(none.closest_connection_to(&Vector::new(0, 0)).is_none());
}

#[test]
fn labels_are_set_and_cleared_per_vertex() {
    let mut d = diagram(&[(0.0, 0.0), (1.0, 1.0)]);
    d.label_vertex(1, "hub".to_string());
    assert_eq!(d.vertices.items[1].label.as_deref(), Some("hub"));
    assert!(d.vertices.items[0].label.is_none());
    let mut v = Vertex::new(Vector::new(0, 0));
    v.set_label("tmp".to_string());
    assert_eq!(v.label.as_deref(), Some("tmp"));
    v.remove_label();
    assert!(v.label.is_none());
}

#[test]
fn duplicate_subgraph_copies_vertices_and_inner_connections() {
    let mut d = diagram(&[(0.0, 0.0), (10.0, 0.0), (5.0, 7.0)]);
    d.add_connection(0, 1, InnerRight, 2).unwrap();
    d.add_connection(1, 2, InnerLeft, 1).unwrap();
    let (first, count) = d.duplicate_subgraph(vec![0, 1]);
    assert_eq!((first, count), (3, 2));
    assert_eq!(d.vertices.len(), 5);
    assert_eq!(d.vertices.items[3].position, d.vertices.items[0].position);
    assert_eq!(d.vertices.items[4].position, d.vertices.items[1].position);
    // The inner connection (0,1) is copied onto the clones (3,4).
    let copied = d.edge_mut(&3, &4).unwrap();
    assert_eq!(copied.orientation, InnerRight);
    assert_eq!(copied.size, 2);
    // The connection leaving the subgraph is not.
    assert!(d.connection(&4, &2).is_none());
    // And the originals keep theirs.
    assert!(d.connection(&1, &2).is_some());
}

#[test]
fn connections_subset_filters_by_membership() {
    let mut d = diagram(&[(0.0, 0.0), (10.0, 0.0), (5.0, 7.0)]);
    d.add_connection(0, 1, InnerRight, 2).unwrap();
    d.add_connection(1, 2, InnerLeft, 2).unwrap();
    let subset = d.connections_subset(&vec![0, 1]);
    assert_eq!(subset.len(), 1);
    assert_eq!((subset[0].0, subset[0].1), (0, 1));
    let all = d.connections_subset(&vec![0, 1, 2]);
    assert_eq!(all.len(), 2);
}
