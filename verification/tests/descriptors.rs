//! Orientations, connection descriptors and the size-class table.

use arcviz::classes::{generate_color, Class, Classes};
use arcviz::connection::{Connection, ConnectionOrientation};
use arcviz::num::SCALE;

use ConnectionOrientation::{InnerLeft, InnerRight, OuterLeft, OuterRight};

#[test]
fn inverse_swaps_side_and_sweep() {
    assert_eq!(InnerRight.inverse(), OuterLeft);
    assert_eq!(InnerLeft.inverse(), OuterRight);
    assert_eq!(OuterRight.inverse(), InnerLeft);
    assert_eq!(OuterLeft.inverse(), InnerRight);
}

#[test]
fn flipped_swaps_side_only() {
    assert_eq!(InnerRight.flipped(), InnerLeft);
    assert_eq!(OuterRight.flipped(), OuterLeft);
}

#[test]
fn everted_swaps_sweep_only() {
    assert_eq!(InnerRight.everted(), OuterRight);
    assert_eq!(InnerLeft.everted(), OuterLeft);
}

#[test]
fn each_transform_is_an_involution() {
    for o in [InnerRight, InnerLeft, OuterRight, OuterLeft] {
        assert_eq!(o.inverse().inverse(), o);
        assert_eq!(o.flipped().flipped(), o);
        assert_eq!(o.everted().everted(), o);
    }
}

#[test]
fn predicates_follow_the_variant_table() {
    assert!(InnerLeft.is_left() && OuterLeft.is_left());
    assert!(!InnerRight.is_left() && !OuterRight.is_left());
    assert!(InnerRight.is_inner() && InnerLeft.is_inner());
    assert!(!OuterRight.is_inner() && !OuterLeft.is_inner());
    assert!(InnerLeft.center_is_left() && OuterRight.center_is_left());
    assert!(!InnerRight.center_is_left() && !OuterLeft.center_is_left());
}

#[test]
fn connection_transforms_touch_only_the_orientation() {
    let mut c = Connection::new(InnerRight, 3);
    c.invert();
    assert_eq!(c.orientation, OuterLeft);
    assert_eq!(c.size, 3);
    c.flip();
    assert_eq!(c.orientation, OuterRight);
    c.evert();
    assert_eq!(c.orientation, InnerRight);
    assert_eq!(c.size, 3);
}

#[test]
fn size_lookup_falls_back_on_out_of_range_indices() {
    let t = Classes::default();
    assert_eq!(t.get_size(0), 100 * SCALE);
    assert_eq!(t.get_size(3), 400 * SCALE);
    assert_eq!(t.get_size(4), 300 * SCALE);
    assert_eq!(t.get_size(usize::MAX), 300 * SCALE);
    assert_eq!(t.get_color(0), "red");
    assert_eq!(t.get_color(99), "white");
}

#[test]
fn stepping_saturates_at_both_ends() {
    let t = Classes::default();
    assert_eq!(t.previous(0), 0);
    assert_eq!(t.previous(2), 1);
    assert_eq!(t.next(3), 3);
    assert_eq!(t.next(1), 2);
    assert_eq!(t.next(9), 9);
}

#[test]
fn empty_table_steps_nowhere() {
    let t = Classes { items: Vec::new(), fallback: Class::new(5 * SCALE, "grey".to_string()) };
    assert_eq!(t.next(0), 0);
    assert_eq!(t.previous(0), 0);
    assert_eq!(t.get_size(0), 5 * SCALE);
}

#[test]
fn nameless_classes_are_white() {
    assert_eq!(generate_color(), "white");
}
