//! Geometry-and-storage core of a diagram editor whose edges are circular
//! arcs: arc construction from endpoints, radius and orientation; angular
//! containment; arc-arc intersection classification; a conflict filter for
//! crossing arcs; and a layered connection matrix addressed per ordered
//! vertex pair.

use vstd::prelude::*;

pub mod num;
pub mod trig;
pub mod vector;
pub mod bounds;
pub mod connection;
pub mod classes;
pub mod connections;
pub mod arc;
pub mod vertex;
pub mod settings;
pub mod data;

verus! {

/// Handle into the ordered vertex list.  Not stable across removal: removing
/// vertex `i` shifts every greater handle down by one.
pub type VertexId = usize;

/// Index into the size-class table; out-of-range indices resolve to a default.
pub type SizeId = usize;

} // verus!
