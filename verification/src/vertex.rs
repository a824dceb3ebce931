//! Vertices: a position with an optional label, and the ordered vertex list.
//!
//! A `VertexId` is an index into the list and is not stable across removal:
//! removing vertex `i` shifts every greater handle down by one, and any
//! structure keyed by vertex ids must be updated in lock-step.

use vstd::prelude::*;
use crate::vector::Vector;
use crate::VertexId;

verus! {

/// A vertex of the diagram: its position, and an optional text label.
#[derive(Debug)]
pub struct Vertex {
    pub position: Vector,
    pub label: Option<String>,
}

impl Clone for Vertex {
    /// A clone carries the same position and label.
    fn clone(&self) -> (r: Vertex)
        ensures
            r == *self,
    {
        Vertex {
            position: self.position,
            label: match &self.label {
                Some(l) => Some(l.clone()),
                None => None,
            },
        }
    }
}

impl Vertex {
    pub fn new(position: Vector) -> (r: Vertex)
        ensures
            r.position == position,
            r.label is None,
    {
        Vertex { position, label: None }
    }

    pub fn set_label(&mut self, label: String)
        ensures
            final(self).position == old(self).position,
            final(self).label matches Some(l) && l@ == label@,
    {
        self.label = Some(label);
    }

    pub fn remove_label(&mut self)
        ensures
            final(self).position == old(self).position,
            final(self).label is None,
    {
        self.label = None;
    }
}

/// The ordered list of vertices; ids are indices into it.
#[derive(Clone, Debug)]
pub struct Vertices {
    pub items: Vec<Vertex>,
}

impl Vertices {
    /// The empty vertex list.
    pub fn empty() -> (r: Vertices)
        ensures
            r.items@.len() == 0,
    {
        Vertices { items: Vec::new() }
    }

    /// Appends a vertex and returns its id, the highest one.
    pub fn add(&mut self, vertex: Vertex) -> (r: VertexId)
        requires
            old(self).items@.len() < usize::MAX,
        ensures
            final(self).items@ == old(self).items@.push(vertex),
            r == old(self).items@.len(),
    {
        self.items.push(vertex);
        self.items.len() - 1
    }

    /// Removes the vertex with the given id, shifting every greater id down
    /// by one; out-of-range ids remove nothing.
    pub fn remove(&mut self, vertex: VertexId) -> (r: Option<Vertex>)
        ensures
            vertex < old(self).items@.len() ==> {
                &&& r matches Some(v) && v == old(self).items@[vertex as int]
                &&& final(self).items@ == old(self).items@.remove(vertex as int)
            },
            vertex >= old(self).items@.len() ==> r is None && final(self).items@ == old(
                self,
            ).items@,
    {
        if vertex >= self.items.len() {
            return None;
        }
        Some(self.items.remove(vertex))
    }

    /// The number of vertices, one past the highest valid id.
    pub fn len(&self) -> (r: VertexId)
        ensures
            r == self.items@.len(),
    {
        self.items.len()
    }
}

} // verus!
