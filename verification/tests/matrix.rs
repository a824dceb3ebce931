//! The connection matrix: layered addressing, resizing, vertex removal and
//! stable iteration.

use arcviz::connection::{Connection, ConnectionOrientation};
use arcviz::connections::Connections;

fn conn(o: ConnectionOrientation, size: usize) -> Connection {
    Connection::new(o, size)
}

#[test]
fn entry_rejects_out_of_range_ids() {
    let m = Connections::new(3);
    assert!(m.entry(0, 2).is_ok());
    assert!(m.entry(2, 0).is_ok());
    assert!(m.entry(3, 0).is_err());
    assert!(m.entry(0, 3).is_err());
    assert!(m.entry(7, 7).is_err());
}

#[test]
fn new_matrix_is_empty() {
    let m = Connections::new(4);
    for a in 0..4 {
        for b in 0..4 {
            assert!(m.get(a, b).is_none());
        }
    }
}

#[test]
fn directed_pairs_are_stored_apart() {
    let mut m = Connections::new(5);
    *m.entry_mut(1, 3).unwrap() = Some(conn(ConnectionOrientation::InnerRight, 0));
    *m.entry_mut(3, 1).unwrap() = Some(conn(ConnectionOrientation::OuterLeft, 7));
    let fwd = m.get(1, 3).unwrap();
    let back = m.get(3, 1).unwrap();
    assert_eq!(fwd.orientation, ConnectionOrientation::InnerRight);
    assert_eq!(fwd.size, 0);
    assert_eq!(back.orientation, ConnectionOrientation::OuterLeft);
    assert_eq!(back.size, 7);
}

#[test]
fn every_ordered_pair_has_its_own_slot() {
    // Fill each ordered pair with a distinct size; nothing may collide.
    let n = 6usize;
    let mut m = Connections::new(n);
    for a in 0..n {
        for b in 0..n {
            *m.entry_mut(a, b).unwrap() =
                Some(conn(ConnectionOrientation::InnerLeft, a * n + b));
        }
    }
    for a in 0..n {
        for b in 0..n {
            assert_eq!(m.get(a, b).unwrap().size, a * n + b);
        }
    }
}

#[test]
fn resize_preserves_existing_pairs() {
    let mut m = Connections::new(3);
    *m.entry_mut(0, 2).unwrap() = Some(conn(ConnectionOrientation::OuterRight, 4));
    *m.entry_mut(2, 1).unwrap() = Some(conn(ConnectionOrientation::InnerLeft, 9));
    m.resize(7);
    assert_eq!(m.get(0, 2).unwrap().size, 4);
    assert_eq!(m.get(2, 1).unwrap().size, 9);
    assert!(m.get(6, 6).is_none());
    assert!(m.entry(6, 0).is_ok());
    m.resize(3);
    assert_eq!(m.get(0, 2).unwrap().size, 4);
    assert_eq!(m.get(2, 1).unwrap().size, 9);
    assert!(m.entry(6, 0).is_err());
}

#[test]
fn shrink_renumbers_surviving_pairs() {
    // Ids above the removed vertex shift down by one; their entries move
    // with them.
    let n = 5usize;
    let mut m = Connections::new(n);
    for a in 0..n {
        for b in 0..n {
            *m.entry_mut(a, b).unwrap() =
                Some(conn(ConnectionOrientation::InnerRight, a * n + b));
        }
    }
    let removed = 2usize;
    m.shrink_by_vertex(removed).unwrap();
    for a in 0..n - 1 {
        for b in 0..n - 1 {
            let oa = if a >= removed { a + 1 } else { a };
            let ob = if b >= removed { b + 1 } else { b };
            assert_eq!(m.get(a, b).unwrap().size, oa * n + ob);
        }
    }
    assert!(m.entry(4, 0).is_err());
}

#[test]
fn shrink_rejects_out_of_range_vertex() {
    let mut m = Connections::new(3);
    assert!(m.shrink_by_vertex(3).is_err());
    assert!(m.shrink_by_vertex(2).is_ok());
}

#[test]
fn shrink_of_first_vertex_drops_its_row_and_column() {
    let mut m = Connections::new(3);
    *m.entry_mut(0, 1).unwrap() = Some(conn(ConnectionOrientation::InnerRight, 1));
    *m.entry_mut(1, 2).unwrap() = Some(conn(ConnectionOrientation::InnerRight, 5));
    m.shrink_by_vertex(0).unwrap();
    // The old (1,2) survives as (0,1); everything touching vertex 0 is gone.
    assert_eq!(m.get(0, 1).unwrap().size, 5);
    assert!(m.get(1, 0).is_none());
}

#[test]
fn foreach_yields_pairs_in_one_stable_order() {
    let mut m = Connections::new(4);
    *m.entry_mut(3, 1).unwrap() = Some(conn(ConnectionOrientation::InnerRight, 0));
    *m.entry_mut(0, 0).unwrap() = Some(conn(ConnectionOrientation::InnerRight, 1));
    *m.entry_mut(1, 2).unwrap() = Some(conn(ConnectionOrientation::InnerRight, 2));
    let once = m.foreach();
    let twice = m.foreach();
    assert_eq!(once.len(), 3);
    assert_eq!(twice.len(), 3);
    for (x, y) in once.iter().zip(twice.iter()) {
        assert_eq!(x.0, y.0);
        assert_eq!(x.1, y.1);
        assert_eq!(x.2.size, y.2.size);
    }
    // Ascending layers: the self slot of vertex 0 first, then layer 2's
    // pair (1,2), then layer 3's pair (3,1).
    assert_eq!((once[0].0, once[0].1), (0, 0));
    assert_eq!((once[1].0, once[1].1), (1, 2));
    assert_eq!((once[2].0, once[2].1), (3, 1));
}

#[test]
fn fast_iter_walks_every_slot_once() {
    let mut m = Connections::new(3);
    *m.entry_mut(2, 0).unwrap() = Some(conn(ConnectionOrientation::OuterLeft, 3));
    let mut it = m.fast_iter();
    let mut seen = Vec::new();
    let mut found = 0;
    while let Some((a, b, entry)) = it.next(&m) {
        assert!(!seen.contains(&(a, b)), "pair yielded twice");
        seen.push((a, b));
        if let Some(c) = entry {
            assert_eq!((a, b), (2, 0));
            assert_eq!(c.size, 3);
            found += 1;
        }
    }
    assert_eq!(seen.len(), 9);
    assert_eq!(found, 1);
}
