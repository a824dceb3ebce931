//! Connection descriptors: the four arc orientations and the
//! (orientation, size-class) pair stored per directed vertex pair.

use vstd::prelude::*;
use crate::SizeId;

verus! {

/// Which of the four arcs joins two points at a given radius.
///
/// Two points plus a radius admit two circle centers (left or right of the
/// directed chord) and, per center, a minor or a major sweep; the four
/// variants enumerate the combinations.  Left and right refer to a standard
/// cartesian plane with counter-clockwise angles positive.
#[derive(Clone, Copy, PartialEq, Eq, Structural, Debug)]
pub enum ConnectionOrientation {
    InnerRight,
    InnerLeft,
    OuterRight,
    OuterLeft,
}

impl ConnectionOrientation {
    /// The orientation whose arc completes the full circle.
    pub open spec fn inverse_spec(self) -> ConnectionOrientation {
        match self {
            ConnectionOrientation::InnerRight => ConnectionOrientation::OuterLeft,
            ConnectionOrientation::InnerLeft => ConnectionOrientation::OuterRight,
            ConnectionOrientation::OuterRight => ConnectionOrientation::InnerLeft,
            ConnectionOrientation::OuterLeft => ConnectionOrientation::InnerRight,
        }
    }

    /// The mirror image across the chord: the center changes side, the
    /// minor/major choice stays.
    pub open spec fn flipped_spec(self) -> ConnectionOrientation {
        match self {
            ConnectionOrientation::InnerRight => ConnectionOrientation::InnerLeft,
            ConnectionOrientation::InnerLeft => ConnectionOrientation::InnerRight,
            ConnectionOrientation::OuterRight => ConnectionOrientation::OuterLeft,
            ConnectionOrientation::OuterLeft => ConnectionOrientation::OuterRight,
        }
    }

    /// The other sweep on the same circle: minor and major swap, the center
    /// stays on its side.
    pub open spec fn everted_spec(self) -> ConnectionOrientation {
        match self {
            ConnectionOrientation::InnerRight => ConnectionOrientation::OuterRight,
            ConnectionOrientation::InnerLeft => ConnectionOrientation::OuterLeft,
            ConnectionOrientation::OuterRight => ConnectionOrientation::InnerRight,
            ConnectionOrientation::OuterLeft => ConnectionOrientation::InnerLeft,
        }
    }

    pub open spec fn is_left_spec(self) -> bool {
        match self {
            ConnectionOrientation::InnerLeft | ConnectionOrientation::OuterLeft => true,
            ConnectionOrientation::InnerRight | ConnectionOrientation::OuterRight => false,
        }
    }

    pub open spec fn is_inner_spec(self) -> bool {
        match self {
            ConnectionOrientation::InnerRight | ConnectionOrientation::InnerLeft => true,
            ConnectionOrientation::OuterRight | ConnectionOrientation::OuterLeft => false,
        }
    }

    /// Whether the arc's center lies left of the directed chord.
    pub open spec fn center_is_left_spec(self) -> bool {
        match self {
            ConnectionOrientation::InnerLeft | ConnectionOrientation::OuterRight => true,
            ConnectionOrientation::InnerRight | ConnectionOrientation::OuterLeft => false,
        }
    }

    /// Returns the orientation which would complete the circle: the one that
    /// yields the circle arc currently missing.
    pub fn inverse(self) -> (r: ConnectionOrientation)
        ensures
            r == self.inverse_spec(),
    {
        match self {
            ConnectionOrientation::InnerRight => ConnectionOrientation::OuterLeft,
            ConnectionOrientation::InnerLeft => ConnectionOrientation::OuterRight,
            ConnectionOrientation::OuterRight => ConnectionOrientation::InnerLeft,
            ConnectionOrientation::OuterLeft => ConnectionOrientation::InnerRight,
        }
    }

    /// Returns the mirror orientation across the chord.
    pub fn flipped(self) -> (r: ConnectionOrientation)
        ensures
            r == self.flipped_spec(),
    {
        match self {
            ConnectionOrientation::InnerRight => ConnectionOrientation::InnerLeft,
            ConnectionOrientation::InnerLeft => ConnectionOrientation::InnerRight,
            ConnectionOrientation::OuterRight => ConnectionOrientation::OuterLeft,
            ConnectionOrientation::OuterLeft => ConnectionOrientation::OuterRight,
        }
    }

    /// Returns the orientation with the other sweep on the same circle.
    pub fn everted(self) -> (r: ConnectionOrientation)
        ensures
            r == self.everted_spec(),
    {
        match self {
            ConnectionOrientation::InnerRight => ConnectionOrientation::OuterRight,
            ConnectionOrientation::InnerLeft => ConnectionOrientation::OuterLeft,
            ConnectionOrientation::OuterRight => ConnectionOrientation::InnerRight,
            ConnectionOrientation::OuterLeft => ConnectionOrientation::InnerLeft,
        }
    }

    pub fn is_left(&self) -> (r: bool)
        ensures
            r == self.is_left_spec(),
    {
        match self {
            ConnectionOrientation::InnerLeft | ConnectionOrientation::OuterLeft => true,
            ConnectionOrientation::InnerRight | ConnectionOrientation::OuterRight => false,
        }
    }

    pub fn is_inner(&self) -> (r: bool)
        ensures
            r == self.is_inner_spec(),
    {
        match self {
            ConnectionOrientation::InnerRight | ConnectionOrientation::InnerLeft => true,
            ConnectionOrientation::OuterRight | ConnectionOrientation::OuterLeft => false,
        }
    }

    /// Whether the center of the arc is to the left of the straight line
    /// connecting the points.
    pub fn center_is_left(&self) -> (r: bool)
        ensures
            r == self.center_is_left_spec(),
    {
        match self {
            ConnectionOrientation::InnerLeft | ConnectionOrientation::OuterRight => true,
            ConnectionOrientation::InnerRight | ConnectionOrientation::OuterLeft => false,
        }
    }
}

/// Each of `inverse`, `flipped` and `everted` undoes itself: applied twice,
/// it returns the original orientation.
pub proof fn lemma_orientation_involutions(o: ConnectionOrientation)
    ensures
        o.inverse_spec().inverse_spec() == o,
        o.flipped_spec().flipped_spec() == o,
        o.everted_spec().everted_spec() == o,
{
}

/// What a directed vertex pair stores: an orientation and a size class.
#[derive(Clone, Copy, PartialEq, Eq, Structural, Debug)]
pub struct Connection {
    pub orientation: ConnectionOrientation,
    pub size: SizeId,
}

impl Connection {
    pub fn new(orientation: ConnectionOrientation, size: SizeId) -> (r: Connection)
        ensures
            r.orientation == orientation,
            r.size == size,
    {
        Connection { orientation, size }
    }

    /// Replaces the orientation by its inverse.
    pub fn invert(&mut self)
        ensures
            final(self).orientation == old(self).orientation.inverse_spec(),
            final(self).size == old(self).size,
    {
        self.orientation = self.orientation.inverse();
    }

    /// Replaces the orientation by its mirror image.
    pub fn flip(&mut self)
        ensures
            final(self).orientation == old(self).orientation.flipped_spec(),
            final(self).size == old(self).size,
    {
        self.orientation = self.orientation.flipped();
    }

    /// Replaces the orientation by the one with the other sweep.
    pub fn evert(&mut self)
        ensures
            final(self).orientation == old(self).orientation.everted_spec(),
            final(self).size == old(self).size,
    {
        self.orientation = self.orientation.everted();
    }
}

} // verus!
