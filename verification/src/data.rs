//! The diagram aggregate: the vertex list, the connection matrix sized to
//! it in lock-step, and the size-class table; plus the queries the editing
//! layer runs against it, among them the conflict detector.

use vstd::prelude::*;
use crate::arc::{
    construct_of, construct_ok, distance_to_spec, intersection_of, lemma_construct_unique,
    lemma_intersection_unique, Arc, ArcIntersection,
};
use crate::bounds::Bounds;
use crate::classes::Classes;
use crate::connection::{Connection, ConnectionOrientation};
use crate::connections::{slot, Connections};
use crate::num::{Number, SCALE};
use crate::vector::{len_of, rejection_of, Vector, VEC_LIMIT};
use crate::vertex::{Vertex, Vertices};
use crate::{SizeId, VertexId};

verus! {

/// What a stored connection means geometrically: a constructed arc, or a
/// pair whose radius class cannot span its chord.
#[derive(Clone, Copy, Debug)]
pub enum ConnectionKind {
    Arc(Arc),
    Unreachable,
}

/// A reported crossing: the two directed pairs and the point where their
/// arcs meet.
pub type Conflict = ((VertexId, VertexId), (VertexId, VertexId), Vector);

/// The diagram: vertices, their connections, and the size classes.
pub struct Data {
    pub vertices: Vertices,
    pub connections: Connections,
    pub classes: Classes,
}

impl Data {
    /// The aggregate invariant: the matrix is well formed and sized to the
    /// vertex list, every position is bounded, and every radius class is
    /// bounded.
    pub closed spec fn wf(self) -> bool {
        &&& self.connections.wf()
        &&& self.connections.size_spec() == self.vertices.items@.len()
        &&& forall|i: int|
            0 <= i < self.vertices.items@.len() ==> (#[trigger] self.vertices.items@[i]).position.bounded()
        &&& self.classes.sizes_bounded()
    }

    /// The number of vertices the diagram holds.
    pub closed spec fn vcount(self) -> int {
        self.connections.size_spec()
    }

    /// The connection stored for the ordered pair, if any.
    pub closed spec fn entry_of(self, a: int, b: int) -> Option<Connection> {
        self.connections.entry_spec(a, b)
    }

    /// Appends a vertex, growing the connection matrix by one layer; the
    /// new vertex's connections start out empty.
    pub fn add_vertex(&mut self, vertex: Vertex) -> (r: VertexId)
        requires
            old(self).wf(),
            vertex.position.bounded(),
            old(self).vcount() + 1 <= 0x7FFF_FFFF,
            (old(self).vcount() + 1) * (old(self).vcount() + 1) <= usize::MAX,
        ensures
            final(self).wf(),
            r == old(self).vcount(),
            final(self).vcount() == old(self).vcount() + 1,
            final(self).vertices.items@ == old(self).vertices.items@.push(vertex),
            final(self).classes == old(self).classes,
            forall|a: int, b: int| #[trigger]
                final(self).entry_of(a, b) == if a < old(self).vcount() && b < old(self).vcount() {
                    old(self).entry_of(a, b)
                } else {
                    None
                },
    {
        self.vertices.add(vertex);
        let n = self.vertices.len();
        self.connections.resize(n);
        proof {
            assert forall|a: int, b: int| #[trigger] self.entry_of(a, b) == (if a < old(
                self,
            ).vcount() && b < old(self).vcount() {
                old(self).entry_of(a, b)
            } else {
                None::<Connection>
            }) by {
                if 0 <= a < self.vcount() && 0 <= b < self.vcount() {
                    assert(self.connections.entry_spec(a, b) == (if a < old(self).vcount() && b
                        < old(self).vcount() {
                        old(self).connections.entry_spec(a, b)
                    } else {
                        None::<Connection>
                    }));
                    if !(0 <= a < old(self).vcount() && 0 <= b < old(self).vcount()) {
                        old(self).connections.lemma_entry_out_of_range(a, b);
                    }
                } else {
                    self.connections.lemma_entry_out_of_range(a, b);
                    old(self).connections.lemma_entry_out_of_range(a, b);
                }
            }
        }
        n - 1
    }

    /// Stores a connection for the ordered pair; fails on an out-of-range
    /// id and stores nothing then.
    pub fn add_connection(
        &mut self,
        start: VertexId,
        end: VertexId,
        orientation: ConnectionOrientation,
        size: SizeId,
    ) -> (r: Result<(), ()>)
        requires
            old(self).wf(),
        ensures
            final(self).wf(),
            r is Ok <==> start < old(self).vcount() && end < old(self).vcount(),
            final(self).vertices == old(self).vertices,
            final(self).classes == old(self).classes,
            final(self).vcount() == old(self).vcount(),
            r is Ok ==> final(self).entry_of(start as int, end as int) == Some(
                Connection { orientation, size },
            ) && forall|a: int, b: int|
                !(a == start && b == end) ==> #[trigger] final(self).entry_of(a, b) == old(
                    self,
                ).entry_of(a, b),
            r is Err ==> forall|a: int, b: int| #[trigger]
                final(self).entry_of(a, b) == old(self).entry_of(a, b),
    {
        match self.connections.entry_mut(start, end) {
            Ok(entry) => {
                *entry = Some(Connection::new(orientation, size));
                Ok(())
            },
            Err(()) => Err(()),
        }
    }

    /// Removes a vertex: its matrix layer and both directed slots it has
    /// everywhere go away, and every greater id shifts down by one.  Fails
    /// on an out-of-range id and changes nothing then.
    pub fn remove_vertex(&mut self, id: VertexId) -> (r: Result<(), ()>)
        requires
            old(self).wf(),
        ensures
            final(self).wf(),
            r is Ok <==> id < old(self).vcount(),
            final(self).classes == old(self).classes,
            r is Err ==> final(self).vertices.items@ == old(self).vertices.items@ && forall|
                a: int,
                b: int,
            | #[trigger] final(self).entry_of(a, b) == old(self).entry_of(a, b),
            r is Ok ==> {
                &&& final(self).vcount() == old(self).vcount() - 1
                &&& final(self).vertices.items@ == old(self).vertices.items@.remove(id as int)
                &&& forall|a: int, b: int|
                    0 <= a < final(self).vcount() && 0 <= b < final(self).vcount()
                        ==> #[trigger] final(self).entry_of(a, b) == old(self).entry_of(
                        if a >= id {
                            a + 1
                        } else {
                            a
                        },
                        if b >= id {
                            b + 1
                        } else {
                            b
                        },
                    )
            },
    {
        match self.connections.shrink_by_vertex(id) {
            Ok(()) => {
                self.vertices.remove(id);
                Ok(())
            },
            Err(()) => Err(()),
        }
    }

    /// Clears the ordered pair's connection slot; fails on an out-of-range
    /// id and changes nothing then.
    pub fn remove_connection(&mut self, start: VertexId, end: VertexId) -> (r: Result<(), ()>)
        requires
            old(self).wf(),
        ensures
            final(self).wf(),
            r is Ok <==> start < old(self).vcount() && end < old(self).vcount(),
            final(self).vertices == old(self).vertices,
            final(self).classes == old(self).classes,
            final(self).vcount() == old(self).vcount(),
            r is Ok ==> final(self).entry_of(start as int, end as int) is None && forall|
                a: int,
                b: int,
            |
                !(a == start && b == end) ==> #[trigger] final(self).entry_of(a, b) == old(
                    self,
                ).entry_of(a, b),
            r is Err ==> forall|a: int, b: int| #[trigger]
                final(self).entry_of(a, b) == old(self).entry_of(a, b),
    {
        match self.connections.entry_mut(start, end) {
            Ok(entry) => {
                *entry = None;
                Ok(())
            },
            Err(()) => Err(()),
        }
    }

    /// Mutable access to the ordered pair's connection, if one is stored.
    pub fn edge_mut(&mut self, from: &VertexId, to: &VertexId) -> (r: Option<&mut Connection>)
        requires
            old(self).wf(),
        ensures
            final(self).wf(),
            final(self).vcount() == old(self).vcount(),
            final(self).vertices == old(self).vertices,
            final(self).classes == old(self).classes,
            r is None ==> old(self).entry_of(*from as int, *to as int) is None && forall|
                a: int,
                b: int,
            | #[trigger] final(self).entry_of(a, b) == old(self).entry_of(a, b),
            r matches Some(conn_ref) ==> {
                &&& Some(*conn_ref) == old(self).entry_of(*from as int, *to as int)
                &&& final(self).entry_of(*from as int, *to as int) == Some(*final(conn_ref))
                &&& forall|a: int, b: int|
                    !(a == *from && b == *to) ==> #[trigger] final(self).entry_of(a, b) == old(
                        self,
                    ).entry_of(a, b)
            },
    {
        self.connections.get_mut(*from, *to)
    }

    /// Sets the label of the given vertex; out-of-range ids change nothing.
    pub fn label_vertex(&mut self, vertex: VertexId, label: String)
        requires
            old(self).wf(),
        ensures
            final(self).wf(),
            final(self).vcount() == old(self).vcount(),
            final(self).classes == old(self).classes,
            forall|a: int, b: int| #[trigger]
                final(self).entry_of(a, b) == old(self).entry_of(a, b),
            vertex < old(self).vertices.items@.len() ==> {
                &&& final(self).vertices.items@.len() == old(self).vertices.items@.len()
                &&& final(self).vertices.items@[vertex as int].position == old(
                    self,
                ).vertices.items@[vertex as int].position
                &&& final(self).vertices.items@[vertex as int].label matches Some(l) && l@
                    == label@
                &&& forall|i: int|
                    0 <= i < old(self).vertices.items@.len() && i != vertex
                        ==> #[trigger] final(self).vertices.items@[i] == old(
                        self,
                    ).vertices.items@[i]
            },
            vertex >= old(self).vertices.items@.len() ==> final(self).vertices.items@ == old(
                self,
            ).vertices.items@,
    {
        if vertex < self.vertices.items.len() {
            let v = &mut self.vertices.items[vertex];
            v.set_label(label);
        }
    }

    /// The ids of all vertices inside the region, in ascending order.
    pub fn vertices_in(&self, region: Bounds) -> (r: Vec<VertexId>)
        requires
            self.wf(),
            region.mag_le(VEC_LIMIT as int),
        ensures
            forall|k: int|
                0 <= k < r@.len() ==> #[trigger] r@[k] < self.vertices.items@.len()
                    && in_region(region, self.vertices.items@[r@[k] as int].position),
            forall|k: int, l: int| 0 <= k < l < r@.len() ==> r@[k] < r@[l],
            forall|i: int|
                0 <= i < self.vertices.items@.len() && in_region(
                    region,
                    (#[trigger] self.vertices.items@[i]).position,
                ) ==> exists|k: int| 0 <= k < r@.len() && r@[k] == i,
    {
        let mut out: Vec<VertexId> = Vec::new();
        let mut i: usize = 0;
        while i < self.vertices.items.len()
            invariant
                self.wf(),
                region.mag_le(VEC_LIMIT as int),
                i <= self.vertices.items@.len(),
                forall|k: int|
                    0 <= k < out@.len() ==> #[trigger] out@[k] < i && in_region(
                        region,
                        self.vertices.items@[out@[k] as int].position,
                    ),
                forall|k: int, l: int| 0 <= k < l < out@.len() ==> out@[k] < out@[l],
                forall|j: int|
                    0 <= j < i && in_region(region, (#[trigger] self.vertices.items@[j]).position)
                        ==> exists|k: int| 0 <= k < out@.len() && out@[k] == j,
            decreases self.vertices.items@.len() - i,
        {
            let ghost old_out = out@;
            if region.contains(self.vertices.items[i].position) {
                out.push(i);
            }
            proof {
                assert forall|j: int|
                    0 <= j < i + 1 && in_region(
                        region,
                        (#[trigger] self.vertices.items@[j]).position,
                    ) implies exists|k: int| 0 <= k < out@.len() && out@[k] == j by {
                    if j == i {
                        assert(out@[out@.len() - 1] == j);
                    } else {
                        let k = choose|k: int| 0 <= k < old_out.len() && old_out[k] == j;
                        assert(out@[k] == j);
                    }
                }
            }
            i = i + 1;
        }
        out
    }

    /// The vertex nearest to the given position, with its distance; nothing
    /// on an empty diagram.  Among equally near vertices the lowest id wins.
    pub fn closest_vertex_to(&self, position: &Vector) -> (r: Option<(VertexId, Number)>)
        requires
            self.wf(),
            position.bounded(),
        ensures
            r is Some <==> self.vertices.items@.len() > 0,
            r matches Some((i, d)) ==> {
                &&& i < self.vertices.items@.len()
                &&& d == vertex_distance(self.vertices.items@, i as int, *position)
                &&& forall|j: int|
                    0 <= j < self.vertices.items@.len() ==> vertex_distance(
                        self.vertices.items@,
                        j,
                        *position,
                    ) >= d
                &&& forall|j: int|
                    0 <= j < i ==> vertex_distance(self.vertices.items@, j, *position) > d
            },
    {
        if self.vertices.items.len() == 0 {
            return None;
        }
        let mut best_i: usize = 0;
        let d0 = self.vertices.items[0].position.sub(*position).length();
        let mut best_d: i64 = d0;
        let mut j: usize = 1;
        while j < self.vertices.items.len()
            invariant
                self.wf(),
                position.bounded(),
                1 <= j <= self.vertices.items@.len(),
                best_i < j,
                best_d == vertex_distance(self.vertices.items@, best_i as int, *position),
                forall|k: int|
                    0 <= k < j ==> vertex_distance(self.vertices.items@, k, *position) >= best_d,
                forall|k: int|
                    0 <= k < best_i ==> vertex_distance(self.vertices.items@, k, *position)
                        > best_d,
            decreases self.vertices.items@.len() - j,
        {
            let d = self.vertices.items[j].position.sub(*position).length();
            if d < best_d {
                best_i = j;
                best_d = d;
            }
            j = j + 1;
        }
        Some((best_i, best_d))
    }
}

/// The distance from a point to the straight segment between two
/// positions: the nearer endpoint, refined by the rejection from the
/// segment's axis when the point projects into the segment.
pub open spec fn segment_metric(sp: Vector, ep: Vector, p: Vector) -> int {
    let sex = ep.x - sp.x;
    let sey = ep.y - sp.y;
    let spx = p.x - sp.x;
    let spy = p.y - sp.y;
    let epx = p.x - ep.x;
    let epy = p.y - ep.y;
    let d1 = len_of(spx, spy);
    let d2 = len_of(epx, epy);
    let d = if d1 <= d2 {
        d1
    } else {
        d2
    };
    if sex == 0 && sey == 0 {
        d
    } else if (sex * spx + sey * spy > 0) && (sex * epx + sey * epy < 0) {
        let rej = rejection_of(spx, spy, sex, sey);
        let dr = len_of(rej.0, rej.1);
        if dr <= d {
            dr
        } else {
            d
        }
    } else {
        d
    }
}

impl Data {
    /// The distance of a point to the geometry of the pair's connection:
    /// to the arc, or for an unreachable pair to its straight chord.
    pub closed spec fn metric_of(self, a: int, b: int, p: Vector) -> Option<int> {
        match self.connections.entry_spec(a, b) {
            Option::None => None,
            Option::Some(c) => {
                let sp = self.vertices.items@[a].position;
                let ep = self.vertices.items@[b].position;
                let radius = self.classes.size_of(c.size as int);
                if construct_ok(sp, ep, radius) {
                    Some(distance_to_spec(construct_of(sp, ep, radius, c.orientation), p))
                } else {
                    Some(segment_metric(sp, ep, p))
                }
            },
        }
    }

    /// Whether any pair holds a connection.
    pub open spec fn has_connection(self) -> bool {
        exists|a: int, b: int| #[trigger] self.entry_of(a, b) is Some
    }

    /// The distance from a point to the straight segment between two
    /// vertices of the list.
    fn segment_distance(sp: Vector, ep: Vector, p: Vector) -> (r: Number)
        requires
            sp.bounded(),
            ep.bounded(),
            p.bounded(),
        ensures
            r == segment_metric(sp, ep, p),
            r >= 0,
    {
        let se = ep.sub(sp);
        let from_start = p.sub(sp);
        let from_end = p.sub(ep);
        let d1 = from_start.length();
        let d2 = from_end.length();
        let d = if d1 <= d2 {
            d1
        } else {
            d2
        };
        if se.x == 0 && se.y == 0 {
            return d;
        }
        if se.is_ahead(&from_start) && se.is_behind(&from_end) {
            let rej = from_start.rejection_on(&se);
            let dr = rej.length();
            if dr <= d {
                dr
            } else {
                d
            }
        } else {
            d
        }
    }

    /// The geometry of the ordered pair's connection, if one is stored: the
    /// arc its class and orientation give, or unreachable when the radius
    /// cannot span the chord.
    pub fn connection(&self, from: &VertexId, to: &VertexId) -> (r: Option<ConnectionKind>)
        requires
            self.wf(),
        ensures
            r is Some <==> self.entry_of(*from as int, *to as int) is Some,
            r matches Some(kind) ==> self.kind_ok(*from as int, *to as int, kind),
    {
        match self.connections.get(*from, *to) {
            Option::None => None,
            Option::Some(c) => {
                proof {
                    self.connections.lemma_entry_in_range(*from as int, *to as int);
                }
                let sp = self.vertices.items[*from].position;
                let ep = self.vertices.items[*to].position;
                let radius = self.classes.get_size(c.size);
                match Arc::construct(sp, ep, radius, c.orientation) {
                    Ok(arc) => {
                        proof {
                            lemma_construct_unique(sp, ep, radius as int, c.orientation, arc);
                        }
                        Some(ConnectionKind::Arc(arc))
                    },
                    Err(_) => Some(ConnectionKind::Unreachable),
                }
            },
        }
    }

    /// What a well-formed kind value for the pair says: a constructed arc
    /// exactly when construction succeeds, else unreachable.
    pub closed spec fn kind_ok(self, a: int, b: int, kind: ConnectionKind) -> bool {
        match self.connections.entry_spec(a, b) {
            Option::None => false,
            Option::Some(c) => {
                let sp = self.vertices.items@[a].position;
                let ep = self.vertices.items@[b].position;
                let radius = self.classes.size_of(c.size as int);
                match kind {
                    ConnectionKind::Arc(arc) => construct_ok(sp, ep, radius) && arc == construct_of(
                        sp,
                        ep,
                        radius,
                        c.orientation,
                    ) && arc.wf(),
                    ConnectionKind::Unreachable => !construct_ok(sp, ep, radius),
                }
            },
        }
    }

    /// Every constructible connection as `(start, end, arc)`, in the stable
    /// ascending flat order of the matrix.
    #[verifier::rlimit(100)]
    #[verifier::spinoff_prover]
    pub fn arcs(&self) -> (r: Vec<(VertexId, VertexId, Arc)>)
        requires
            self.wf(),
        ensures
            forall|k: int|
                0 <= k < r@.len() ==> {
                    &&& 0 <= #[trigger] r@[k].0 < self.vcount()
                    &&& 0 <= r@[k].1 < self.vcount()
                    &&& self.kind_ok(r@[k].0 as int, r@[k].1 as int, ConnectionKind::Arc(r@[k].2))
                },
            forall|k: int, l: int|
                0 <= k < l < r@.len() ==> slot(#[trigger] r@[k].0 as int, r@[k].1 as int) < slot(
                    #[trigger] r@[l].0 as int,
                    r@[l].1 as int,
                ),
            forall|a: int, b: int|
                0 <= a < self.vcount() && 0 <= b < self.vcount() && #[trigger] self.entry_of(a, b)
                    is Some && self.kind_is_arc(a, b) ==> exists|k: int|
                    0 <= k < r@.len() && #[trigger] r@[k].0 == a && r@[k].1 == b,
    {
        let triples = self.connections.foreach();
        let mut out: Vec<(VertexId, VertexId, Arc)> = Vec::new();
        let mut k: usize = 0;
        while k < triples.len()
            invariant
                self.wf(),
                k <= triples@.len(),
                forall|i: int|
                    0 <= i < triples@.len() ==> {
                        &&& 0 <= #[trigger] triples@[i].0 < self.vcount()
                        &&& 0 <= triples@[i].1 < self.vcount()
                        &&& self.entry_of(triples@[i].0 as int, triples@[i].1 as int) == Some(
                            triples@[i].2,
                        )
                    },
                forall|i: int, j: int|
                    0 <= i < j < triples@.len() ==> slot(
                        #[trigger] triples@[i].0 as int,
                        triples@[i].1 as int,
                    ) < slot(#[trigger] triples@[j].0 as int, triples@[j].1 as int),
                forall|a: int, b: int|
                    0 <= a < self.vcount() && 0 <= b < self.vcount() && #[trigger] self.entry_of(
                        a,
                        b,
                    ) is Some ==> exists|i: int|
                        0 <= i < triples@.len() && #[trigger] triples@[i] == (
                            a as usize,
                            b as usize,
                            self.entry_of(a, b)->Some_0,
                        ),
                forall|m: int|
                    0 <= m < out@.len() ==> {
                        &&& 0 <= #[trigger] out@[m].0 < self.vcount()
                        &&& 0 <= out@[m].1 < self.vcount()
                        &&& self.kind_ok(
                            out@[m].0 as int,
                            out@[m].1 as int,
                            ConnectionKind::Arc(out@[m].2),
                        )
                        &&& exists|i: int|
                            0 <= i < k && (#[trigger] triples@[i]).0 == out@[m].0 && triples@[i].1
                                == out@[m].1
                    },
                forall|m: int, l: int|
                    0 <= m < l < out@.len() ==> slot(#[trigger] out@[m].0 as int, out@[m].1 as int)
                        < slot(#[trigger] out@[l].0 as int, out@[l].1 as int),
                forall|i: int|
                    0 <= i < k && self.kind_is_arc(
                        (#[trigger] triples@[i]).0 as int,
                        triples@[i].1 as int,
                    ) ==> exists|m: int|
                        0 <= m < out@.len() && #[trigger] out@[m].0 == triples@[i].0 && out@[m].1
                            == triples@[i].1,
                forall|m: int|
                    0 <= m < out@.len() ==> slot(
                        (#[trigger] out@[m]).0 as int,
                        out@[m].1 as int,
                    ) <= slot(triples@[k - 1].0 as int, triples@[k - 1].1 as int),
            decreases triples@.len() - k,
        {
            let (a, b, c) = triples[k];
            let sp = self.vertices.items[a].position;
            let ep = self.vertices.items[b].position;
            let radius = self.classes.get_size(c.size);
            let ghost old_out = out@;
            match Arc::construct(sp, ep, radius, c.orientation) {
                Ok(arc) => {
                    proof {
                        lemma_construct_unique(sp, ep, radius as int, c.orientation, arc);
                    }
                    out.push((a, b, arc));
                },
                Err(_) => (),
            }
            proof {
                assert forall|i: int|
                    0 <= i < k + 1 && self.kind_is_arc(
                        (#[trigger] triples@[i]).0 as int,
                        triples@[i].1 as int,
                    ) implies exists|m: int|
                    0 <= m < out@.len() && #[trigger] out@[m].0 == triples@[i].0 && out@[m].1
                        == triples@[i].1 by {
                    if i == k {
                        assert(self.kind_is_arc(a as int, b as int) ==> out@.len() > 0
                            && out@[out@.len() - 1].0 == a && out@[out@.len() - 1].1 == b);
                    } else {
                        let m = choose|m: int|
                            0 <= m < old_out.len() && #[trigger] old_out[m].0 == triples@[i].0
                                && old_out[m].1 == triples@[i].1;
                        assert(out@[m].0 == triples@[i].0 && out@[m].1 == triples@[i].1);
                    }
                }
            }
            k = k + 1;
        }
        proof {
            assert forall|a: int, b: int|
                0 <= a < self.vcount() && 0 <= b < self.vcount() && #[trigger] self.entry_of(a, b)
                    is Some && self.kind_is_arc(a, b) implies exists|m: int|
                0 <= m < out@.len() && #[trigger] out@[m].0 == a && out@[m].1 == b by {
                self.connections.lemma_entry_in_range(a, b);
                assert(exists|i: int|
                    0 <= i < triples@.len() && #[trigger] triples@[i] == (
                        a as usize,
                        b as usize,
                        self.entry_of(a, b)->Some_0,
                    ));
                let i = choose|i: int|
                    0 <= i < triples@.len() && #[trigger] triples@[i] == (
                        a as usize,
                        b as usize,
                        self.entry_of(a, b)->Some_0,
                    );
                assert(triples@[i].0 == a as usize);
                assert(triples@[i].0 as int == a);
                assert(triples@[i].1 as int == b);
                assert(self.kind_is_arc(triples@[i].0 as int, triples@[i].1 as int));
            }
        }
        out
    }

    /// Whether the pair's stored connection yields an arc.
    pub closed spec fn kind_is_arc(self, a: int, b: int) -> bool {
        match self.connections.entry_spec(a, b) {
            Option::None => false,
            Option::Some(c) => construct_ok(
                self.vertices.items@[a].position,
                self.vertices.items@[b].position,
                self.classes.size_of(c.size as int),
            ),
        }
    }
}

/// Whether two directed pairs touch in at least one vertex.
pub open spec fn shares_endpoint(a: VertexId, b: VertexId, c: VertexId, d: VertexId) -> bool {
    a == c || a == d || b == c || b == d
}

/// Whether a candidate crossing of the pair `(a, b)` with the pair `(c, d)`
/// is explained away: the same logical connection seen twice, or a shared
/// endpoint lying on the same side of the center line as the candidate.
pub open spec fn suppressed_spec(
    vertices: Seq<Vertex>,
    a: VertexId,
    b: VertexId,
    arc: Arc,
    c: VertexId,
    d: VertexId,
    other: Arc,
    collision_is_right: bool,
) -> bool {
    if (c == a && d == b) || (c == b && d == a) {
        true
    } else if c == a || d == a || c == b || d == b {
        let shared: VertexId = if c == a || d == a {
            a
        } else {
            b
        };
        if (shared as int) < vertices.len() {
            let cto_x = other.center.x - arc.center.x;
            let cto_y = other.center.y - arc.center.y;
            let ctc_x = vertices[shared as int].position.x - arc.center.x;
            let ctc_y = vertices[shared as int].position.y - arc.center.y;
            let connection_is_right = cto_x * ctc_y - cto_y * ctc_x < 0;
            connection_is_right == collision_is_right
        } else {
            false
        }
    } else {
        false
    }
}

/// The conflicts one ordered pair of arc triples contributes: every
/// intersection point not explained by the pairs' shared endpoints.
pub open spec fn pair_conflicts(
    vertices: Seq<Vertex>,
    t1: (VertexId, VertexId, Arc),
    t2: (VertexId, VertexId, Arc),
) -> Seq<Conflict> {
    let a = t1.0;
    let b = t1.1;
    let arc = t1.2;
    let c = t2.0;
    let d = t2.1;
    let other = t2.2;
    match intersection_of(arc, other) {
        ArcIntersection::Empty => Seq::empty(),
        ArcIntersection::Concentric(_, _) => Seq::empty(),
        ArcIntersection::One(p) => if !shares_endpoint(a, b, c, d) {
            seq![((a, b), (c, d), p)]
        } else {
            Seq::empty()
        },
        ArcIntersection::Two(left, right) => (match left {
            Option::Some(p) => if !suppressed_spec(vertices, a, b, arc, c, d, other, false) {
                seq![((a, b), (c, d), p)]
            } else {
                Seq::empty()
            },
            Option::None => Seq::empty(),
        }) + (match right {
            Option::Some(p) => if !suppressed_spec(vertices, a, b, arc, c, d, other, true) {
                seq![((a, b), (c, d), p)]
            } else {
                Seq::empty()
            },
            Option::None => Seq::empty(),
        }),
    }
}

/// The conflicts of arc `i` against the first `m` arcs, itself excluded.
pub open spec fn row_conflicts(
    vertices: Seq<Vertex>,
    arcs: Seq<(VertexId, VertexId, Arc)>,
    i: int,
    m: int,
) -> Seq<Conflict>
    decreases m,
{
    if m <= 0 {
        Seq::empty()
    } else {
        row_conflicts(vertices, arcs, i, m - 1) + (if m - 1 == i {
            Seq::empty()
        } else {
            pair_conflicts(vertices, arcs[i], arcs[m - 1])
        })
    }
}

/// The conflicts of the first `n` arcs, each against every other arc, in
/// the fixed nested iteration order.
pub open spec fn conflicts_spec(
    vertices: Seq<Vertex>,
    arcs: Seq<(VertexId, VertexId, Arc)>,
    n: int,
) -> Seq<Conflict>
    decreases n,
{
    if n <= 0 {
        Seq::empty()
    } else {
        conflicts_spec(vertices, arcs, n - 1) + row_conflicts(vertices, arcs, n - 1, arcs.len() as int)
    }
}

impl Data {
    /// Whether a candidate crossing is explained by a shared endpoint.
    fn collision_is_connection(
        vertices: &Vertices,
        a: VertexId,
        b: VertexId,
        c: VertexId,
        d: VertexId,
        arc: &Arc,
        other: &Arc,
        collision_is_right: bool,
    ) -> (r: bool)
        requires
            arc.wf(),
            other.wf(),
            forall|i: int|
                0 <= i < vertices.items@.len() ==> (#[trigger] vertices.items@[i]).position.bounded(),
        ensures
            r == suppressed_spec(vertices.items@, a, b, *arc, c, d, *other, collision_is_right),
    {
        if (c == a && d == b) || (c == b && d == a) {
            return true;
        }
        if !(c == a || d == a || c == b || d == b) {
            return false;
        }
        let shared: VertexId = if c == a || d == a {
            a
        } else {
            b
        };
        if shared >= vertices.items.len() {
            return false;
        }
        let vpos = vertices.items[shared].position;
        let center_to_other = other.center.sub(arc.center);
        let center_to_connection = vpos.sub(arc.center);
        let connection_is_right = center_to_other.is_right(&center_to_connection);
        connection_is_right == collision_is_right
    }

    /// Every intersection point among the given arcs that is not explained
    /// by shared endpoints: the pairs are scanned in a fixed nested order,
    /// so two runs over the same diagram agree.
    pub fn conflicts(&self, arcs: Vec<(VertexId, VertexId, Arc)>) -> (r: Vec<Conflict>)
        requires
            self.wf(),
            forall|k: int| 0 <= k < arcs@.len() ==> (#[trigger] arcs@[k]).2.wf(),
        ensures
            r@ == conflicts_spec(self.vertices.items@, arcs@, arcs@.len() as int),
    {
        let ghost vseq = self.vertices.items@;
        let mut out: Vec<Conflict> = Vec::new();
        let n = arcs.len();
        let mut i: usize = 0;
        while i < n
            invariant
                self.wf(),
                vseq == self.vertices.items@,
                n == arcs@.len(),
                i <= n,
                forall|k: int| 0 <= k < arcs@.len() ==> (#[trigger] arcs@[k]).2.wf(),
                out@ == conflicts_spec(vseq, arcs@, i as int),
            decreases n - i,
        {
            let mut j: usize = 0;
            while j < n
                invariant
                    self.wf(),
                    vseq == self.vertices.items@,
                    n == arcs@.len(),
                    i < n,
                    j <= n,
                    forall|k: int| 0 <= k < arcs@.len() ==> (#[trigger] arcs@[k]).2.wf(),
                    out@ == conflicts_spec(vseq, arcs@, i as int) + row_conflicts(
                        vseq,
                        arcs@,
                        i as int,
                        j as int,
                    ),
                decreases n - j,
            {
                if i != j {
                    let (a, b, arc) = arcs[i];
                    let (c, d, other) = arcs[j];
                    let isec = arc.intersection_with(&other);
                    proof {
                        lemma_intersection_unique(arc, other, isec);
                    }
                    let ghost before = out@;
                    match isec {
                        ArcIntersection::Empty => (),
                        ArcIntersection::Concentric(_, _) => (),
                        ArcIntersection::One(p) => {
                            if !(a == c || a == d || b == c || b == d) {
                                out.push(((a, b), (c, d), p));
                            }
                        },
                        ArcIntersection::Two(left, right) => {
                            match left {
                                Some(p) => {
                                    if !Self::collision_is_connection(
                                        &self.vertices,
                                        a,
                                        b,
                                        c,
                                        d,
                                        &arc,
                                        &other,
                                        false,
                                    ) {
                                        out.push(((a, b), (c, d), p));
                                    }
                                },
                                None => (),
                            }
                            match right {
                                Some(p) => {
                                    if !Self::collision_is_connection(
                                        &self.vertices,
                                        a,
                                        b,
                                        c,
                                        d,
                                        &arc,
                                        &other,
                                        true,
                                    ) {
                                        out.push(((a, b), (c, d), p));
                                    }
                                },
                                None => (),
                            }
                        },
                    }
                    proof {
                        assert(out@ =~= before + pair_conflicts(vseq, arcs@[i as int], arcs@[j as int]));
                    }
                }
                proof {
                    assert(row_conflicts(vseq, arcs@, i as int, j + 1) == row_conflicts(
                        vseq,
                        arcs@,
                        i as int,
                        j as int,
                    ) + (if j == i {
                        Seq::<Conflict>::empty()
                    } else {
                        pair_conflicts(vseq, arcs@[i as int], arcs@[j as int])
                    }));
                    assert(out@ =~= conflicts_spec(vseq, arcs@, i as int) + row_conflicts(
                        vseq,
                        arcs@,
                        i as int,
                        j + 1,
                    ));
                }
                j = j + 1;
            }
            proof {
                assert(conflicts_spec(vseq, arcs@, i + 1) == conflicts_spec(vseq, arcs@, i as int)
                    + row_conflicts(vseq, arcs@, i as int, arcs@.len() as int));
            }
            i = i + 1;
        }
        out
    }
}

impl Default for Data {
    /// The stock diagram: four vertices on a square, joined by five
    /// inner-right arcs of the third size class, two of them diagonals.
    fn default() -> (r: Data)
        ensures
            r.wf(),
            r.vcount() == 4,
            r.vertices.items@.len() == 4,
            r.vertices.items@[0].position.x == 50 * SCALE && r.vertices.items@[0].position.y
                == 50 * SCALE,
            r.vertices.items@[1].position.x == 50 * SCALE && r.vertices.items@[1].position.y
                == 150 * SCALE,
            r.vertices.items@[2].position.x == 150 * SCALE && r.vertices.items@[2].position.y
                == 150 * SCALE,
            r.vertices.items@[3].position.x == 150 * SCALE && r.vertices.items@[3].position.y
                == 50 * SCALE,
            r.classes.items@.len() == 4,
            forall|a: int, b: int| #[trigger]
                r.entry_of(a, b) == if stock_pair(a, b) {
                    Some(Connection { orientation: ConnectionOrientation::InnerRight, size: 2 })
                } else {
                    None
                },
    {
        let mut this = Data {
            vertices: Vertices::empty(),
            connections: Connections::new(0),
            classes: Classes::default(),
        };
        proof {
            assert(forall|n: int| 0 <= n <= 4 ==> #[trigger] ((n + 1) * (n + 1)) <= 25)
                by (nonlinear_arith);
            assert(usize::MAX >= 0xFFFF_FFFF);
        }
        this.add_vertex(Vertex::new(Vector::new(50 * SCALE, 50 * SCALE)));
        this.add_vertex(Vertex::new(Vector::new(50 * SCALE, 150 * SCALE)));
        this.add_vertex(Vertex::new(Vector::new(150 * SCALE, 150 * SCALE)));
        this.add_vertex(Vertex::new(Vector::new(150 * SCALE, 50 * SCALE)));
        let _ = this.add_connection(0, 1, ConnectionOrientation::InnerRight, 2);
        let _ = this.add_connection(2, 3, ConnectionOrientation::InnerRight, 2);
        let _ = this.add_connection(3, 0, ConnectionOrientation::InnerRight, 2);
        let _ = this.add_connection(0, 2, ConnectionOrientation::InnerRight, 2);
        let _ = this.add_connection(1, 3, ConnectionOrientation::InnerRight, 2);
        this
    }
}

/// The five directed pairs the stock diagram connects.
pub open spec fn stock_pair(a: int, b: int) -> bool {
    ||| (a == 0 && b == 1)
    ||| (a == 2 && b == 3)
    ||| (a == 3 && b == 0)
    ||| (a == 0 && b == 2)
    ||| (a == 1 && b == 3)
}

impl Data {
    /// Whether the id list holds the given id.
    fn contains_id(list: &Vec<VertexId>, id: VertexId) -> (r: bool)
        ensures
            r == list@.contains(id),
    {
        let mut k: usize = 0;
        while k < list.len()
            invariant
                k <= list@.len(),
                forall|j: int| 0 <= j < k ==> list@[j] != id,
            decreases list@.len() - k,
        {
            if list[k] == id {
                assert(list@[k as int] == id);
                return true;
            }
            k = k + 1;
        }
        false
    }

    /// The connections among exactly the listed vertices, each as its
    /// geometry: the pairs whose two ids both stand in the list, in the
    /// stable ascending flat order.
    #[verifier::rlimit(100)]
    #[verifier::spinoff_prover]
    pub fn connections_subset(&self, vertices: &Vec<VertexId>) -> (r: Vec<
        (VertexId, VertexId, ConnectionKind),
    >)
        requires
            self.wf(),
        ensures
            forall|k: int|
                0 <= k < r@.len() ==> {
                    &&& vertices@.contains(#[trigger] r@[k].0)
                    &&& vertices@.contains(r@[k].1)
                    &&& self.kind_ok(r@[k].0 as int, r@[k].1 as int, r@[k].2)
                },
            forall|a: int, b: int|
                0 <= a < self.vcount() && 0 <= b < self.vcount() && #[trigger] self.entry_of(a, b)
                    is Some && vertices@.contains(a as usize) && vertices@.contains(b as usize)
                    ==> exists|k: int|
                    0 <= k < r@.len() && #[trigger] r@[k].0 == a && r@[k].1 == b,
    {
        let triples = self.connections.foreach();
        let mut out: Vec<(VertexId, VertexId, ConnectionKind)> = Vec::new();
        let mut k: usize = 0;
        while k < triples.len()
            invariant
                self.wf(),
                k <= triples@.len(),
                forall|i: int|
                    0 <= i < triples@.len() ==> {
                        &&& 0 <= #[trigger] triples@[i].0 < self.vcount()
                        &&& 0 <= triples@[i].1 < self.vcount()
                        &&& self.entry_of(triples@[i].0 as int, triples@[i].1 as int) == Some(
                            triples@[i].2,
                        )
                    },
                forall|i: int, j: int|
                    0 <= i < j < triples@.len() ==> slot(
                        #[trigger] triples@[i].0 as int,
                        triples@[i].1 as int,
                    ) < slot(#[trigger] triples@[j].0 as int, triples@[j].1 as int),
                forall|a: int, b: int|
                    0 <= a < self.vcount() && 0 <= b < self.vcount() && #[trigger] self.entry_of(
                        a,
                        b,
                    ) is Some ==> exists|i: int|
                        0 <= i < triples@.len() && #[trigger] triples@[i] == (
                            a as usize,
                            b as usize,
                            self.entry_of(a, b)->Some_0,
                        ),
                forall|m: int|
                    0 <= m < out@.len() ==> {
                        &&& vertices@.contains(#[trigger] out@[m].0)
                        &&& vertices@.contains(out@[m].1)
                        &&& self.kind_ok(out@[m].0 as int, out@[m].1 as int, out@[m].2)
                    },
                forall|i: int|
                    0 <= i < k && vertices@.contains((#[trigger] triples@[i]).0) && vertices@.contains(
                        triples@[i].1,
                    ) ==> exists|m: int|
                        0 <= m < out@.len() && #[trigger] out@[m].0 == triples@[i].0 && out@[m].1
                            == triples@[i].1,
            decreases triples@.len() - k,
        {
            let (a, b, c) = triples[k];
            let ghost old_out = out@;
            let ghost old_len = out@.len();
            if Self::contains_id(vertices, a) && Self::contains_id(vertices, b) {
                let sp = self.vertices.items[a].position;
                let ep = self.vertices.items[b].position;
                let radius = self.classes.get_size(c.size);
                match Arc::construct(sp, ep, radius, c.orientation) {
                    Ok(arc) => {
                        proof {
                            lemma_construct_unique(sp, ep, radius as int, c.orientation, arc);
                            assert(self.kind_ok(a as int, b as int, ConnectionKind::Arc(arc)));
                        }
                        out.push((a, b, ConnectionKind::Arc(arc)));
                    },
                    Err(_) => {
                        proof {
                            assert(self.kind_ok(a as int, b as int, ConnectionKind::Unreachable));
                        }
                        out.push((a, b, ConnectionKind::Unreachable));
                    },
                }
                proof {
                    assert(self.kind_ok(a as int, b as int, out@[out@.len() - 1].2));
                    assert forall|i: int|
                        0 <= i < k + 1 && vertices@.contains((#[trigger] triples@[i]).0)
                            && vertices@.contains(triples@[i].1) implies exists|m: int|
                        0 <= m < out@.len() && #[trigger] out@[m].0 == triples@[i].0 && out@[m].1
                            == triples@[i].1 by {
                        if i == k {
                            assert(out@[out@.len() - 1].0 == a && out@[out@.len() - 1].1 == b);
                        } else {
                            let m = choose|m: int|
                                0 <= m < old_out.len() && #[trigger] old_out[m].0 == triples@[i].0
                                    && old_out[m].1 == triples@[i].1;
                            assert(out@[m].0 == triples@[i].0 && out@[m].1 == triples@[i].1);
                        }
                    }
                    assert forall|m: int| 0 <= m < out@.len() implies {
                        &&& vertices@.contains((#[trigger] out@[m]).0)
                        &&& vertices@.contains(out@[m].1)
                        &&& self.kind_ok(out@[m].0 as int, out@[m].1 as int, out@[m].2)
                    } by {
                        if m < old_len {
                            assert(out@[m] == old_out[m]);
                            assert(vertices@.contains(old_out[m].0));
                            assert(vertices@.contains(old_out[m].1));
                            assert(self.kind_ok(
                                old_out[m].0 as int,
                                old_out[m].1 as int,
                                old_out[m].2,
                            ));
                        } else {
                            assert(out@[m].0 == a && out@[m].1 == b);
                        }
                    }
                }
            } else {
                proof {
                    assert forall|i: int|
                        0 <= i < k + 1 && vertices@.contains((#[trigger] triples@[i]).0)
                            && vertices@.contains(triples@[i].1) implies exists|m: int|
                        0 <= m < out@.len() && #[trigger] out@[m].0 == triples@[i].0 && out@[m].1
                            == triples@[i].1 by {
                        if i < k {
                            let m = choose|m: int|
                                0 <= m < old_out.len() && #[trigger] old_out[m].0 == triples@[i].0
                                    && old_out[m].1 == triples@[i].1;
                            assert(out@[m].0 == triples@[i].0 && out@[m].1 == triples@[i].1);
                        }
                    }
                }
            }
            k = k + 1;
        }
        proof {
            assert forall|a: int, b: int|
                0 <= a < self.vcount() && 0 <= b < self.vcount() && #[trigger] self.entry_of(a, b)
                    is Some && vertices@.contains(a as usize) && vertices@.contains(
                    b as usize,
                ) implies exists|m: int|
                0 <= m < out@.len() && #[trigger] out@[m].0 == a && out@[m].1 == b by {
                self.connections.lemma_entry_in_range(a, b);
                let i = choose|i: int|
                    0 <= i < triples@.len() && #[trigger] triples@[i] == (
                        a as usize,
                        b as usize,
                        self.entry_of(a, b)->Some_0,
                    );
                assert(triples@[i].0 == a as usize && triples@[i].1 == b as usize);
                assert(vertices@.contains(triples@[i].0) && vertices@.contains(triples@[i].1));
            }
        }
        out
    }

    /// The connection nearest to the given position, with its distance:
    /// arcs by arc distance, unreachable pairs by their straight chord.
    /// Nothing when the diagram holds no connection; among equally near
    /// connections the one latest in flat order wins.
    pub fn closest_connection_to(&self, position: &Vector) -> (r: Option<
        (VertexId, VertexId, Number),
    >)
        requires
            self.wf(),
            position.bounded(),
        ensures
            r is Some <==> self.has_connection(),
            r matches Some((a, b, dist)) ==> {
                &&& self.entry_of(a as int, b as int) is Some
                &&& self.metric_of(a as int, b as int, *position) == Some(dist as int)
                &&& forall|x: int, y: int|
                    #[trigger] self.metric_of(x, y, *position) is Some ==> self.metric_of(
                        x,
                        y,
                        *position,
                    )->Some_0 >= dist
                &&& forall|x: int, y: int|
                    slot(x, y) > slot(a as int, b as int) && #[trigger] self.metric_of(
                        x,
                        y,
                        *position,
                    ) is Some ==> self.metric_of(x, y, *position)->Some_0 > dist
            },
    {
        let mut best: Option<(VertexId, VertexId, Number)> = None;
        let mut it = self.connections.fast_iter();
        let total = self.connections.len_slots();
        while it.current < total
            invariant
                self.wf(),
                position.bounded(),
                total == self.vcount() * self.vcount(),
                it.current <= total,
                best is None ==> forall|x: int, y: int|
                    0 <= x < self.vcount() && 0 <= y < self.vcount() && slot(x, y) < it.current
                        ==> #[trigger] self.metric_of(x, y, *position) is None,
                best matches Some((a, b, d)) ==> {
                    &&& 0 <= a < self.vcount() && 0 <= b < self.vcount()
                    &&& slot(a as int, b as int) < it.current
                    &&& self.entry_of(a as int, b as int) is Some
                    &&& self.metric_of(a as int, b as int, *position) == Some(d as int)
                    &&& forall|x: int, y: int|
                        0 <= x < self.vcount() && 0 <= y < self.vcount() && slot(x, y) < it.current
                            && #[trigger] self.metric_of(x, y, *position) is Some
                            ==> self.metric_of(x, y, *position)->Some_0 >= d
                    &&& forall|x: int, y: int|
                        0 <= x < self.vcount() && 0 <= y < self.vcount() && slot(a as int, b as int)
                            < slot(x, y) < it.current && #[trigger] self.metric_of(
                            x,
                            y,
                            *position,
                        ) is Some ==> self.metric_of(x, y, *position)->Some_0 > d
                },
            decreases total - it.current,
        {
            let ghost g = it.current as int;
            let step = it.next(&self.connections);
            proof {
                crate::connections::lemma_slot_yx_of(g);
            }
            match step {
                None => {
                    proof {
                        assert(false);
                    }
                },
                Some((a, b, entry)) => {
                    proof {
                        assert forall|x: int, y: int|
                            0 <= x < self.vcount() && 0 <= y < self.vcount() && slot(x, y)
                                == g implies x == a as int && y == b as int by {
                            crate::connections::lemma_yx_of_slot(x, y);
                        }
                    }
                    match entry {
                        None => {
                            proof {
                                assert forall|x: int, y: int|
                                    0 <= x < self.vcount() && 0 <= y < self.vcount() && slot(x, y)
                                        == g implies #[trigger] self.metric_of(
                                    x,
                                    y,
                                    *position,
                                ) is None by {
                                    assert(x == a as int && y == b as int);
                                }
                            }
                        },
                        Some(c) => {
                            proof {
                                self.connections.lemma_entry_in_range(a as int, b as int);
                            }
                            let sp = self.vertices.items[a].position;
                            let ep = self.vertices.items[b].position;
                            let radius = self.classes.get_size(c.size);
                            let d = match Arc::construct(sp, ep, radius, c.orientation) {
                                Ok(arc) => {
                                    proof {
                                        lemma_construct_unique(
                                            sp,
                                            ep,
                                            radius as int,
                                            c.orientation,
                                            arc,
                                        );
                                    }
                                    arc.distance_to(*position)
                                },
                                Err(_) => Self::segment_distance(sp, ep, *position),
                            };
                            proof {
                                assert(self.metric_of(a as int, b as int, *position) == Some(
                                    d as int,
                                ));
                                assert forall|x: int, y: int|
                                    0 <= x < self.vcount() && 0 <= y < self.vcount() && slot(x, y)
                                        == g implies #[trigger] self.metric_of(x, y, *position)
                                    == Some(d as int) by {
                                    assert(x == a as int && y == b as int);
                                }
                            }
                            let take = match best {
                                None => true,
                                Some((_, _, bd)) => d <= bd,
                            };
                            if take {
                                best = Some((a, b, d));
                            }
                        },
                    }
                },
            }
        }
        proof {
            if self.has_connection() {
                let (x, y) = choose|x: int, y: int| #[trigger] self.entry_of(x, y) is Some;
                self.connections.lemma_entry_in_range(x, y);
                crate::connections::lemma_slot_bounds(x, y, self.vcount());
                assert(self.metric_of(x, y, *position) is Some);
            }
            match best {
                Option::Some((a, b, d)) => {
                    assert forall|x: int, y: int| #[trigger]
                        self.metric_of(x, y, *position) is Some implies self.metric_of(
                        x,
                        y,
                        *position,
                    )->Some_0 >= d by {
                        self.connections.lemma_entry_in_range(x, y);
                        crate::connections::lemma_slot_bounds(x, y, self.vcount());
                    }
                    assert forall|x: int, y: int|
                        slot(x, y) > slot(a as int, b as int) && #[trigger] self.metric_of(
                            x,
                            y,
                            *position,
                        ) is Some implies self.metric_of(x, y, *position)->Some_0 > d by {
                        self.connections.lemma_entry_in_range(x, y);
                        crate::connections::lemma_slot_bounds(x, y, self.vcount());
                    }
                },
                Option::None => (),
            }
        }
        best
    }
}

impl Data {
    /// Duplicates the subgraph of the listed vertices: clones of the
    /// vertices are appended at the end in list order, and every connection
    /// between exclusively listed vertices is copied onto the clones.  No
    /// connection between a clone and an original is created.  Returns the
    /// id of the first clone and the number of clones.
    #[verifier::rlimit(100)]
    #[verifier::spinoff_prover]
    pub fn duplicate_subgraph(&mut self, vertices: Vec<VertexId>) -> (r: (VertexId, VertexId))
        requires
            old(self).wf(),
            forall|t: int| 0 <= t < vertices@.len() ==> #[trigger] vertices@[t] < old(self).vcount(),
            old(self).vcount() + vertices@.len() <= 0x7FFF_FFFF,
            (old(self).vcount() + vertices@.len()) * (old(self).vcount() + vertices@.len())
                <= usize::MAX,
        ensures
            final(self).wf(),
            r.0 == old(self).vcount(),
            r.1 == vertices@.len(),
            final(self).vcount() == old(self).vcount() + vertices@.len(),
            final(self).vertices.items@.len() == old(self).vertices.items@.len()
                + vertices@.len(),
            forall|i: int|
                0 <= i < old(self).vertices.items@.len()
                    ==> #[trigger] final(self).vertices.items@[i] == old(self).vertices.items@[i],
            forall|t: int|
                0 <= t < vertices@.len()
                    ==> #[trigger] final(self).vertices.items@[old(self).vcount() + t]
                    == old(self).vertices.items@[vertices@[t] as int],
            forall|a: int, b: int|
                0 <= a < old(self).vcount() && 0 <= b < old(self).vcount()
                    ==> #[trigger] final(self).entry_of(a, b) == old(self).entry_of(a, b),
            forall|i: int, j: int|
                0 <= i < vertices@.len() && 0 <= j < vertices@.len()
                    ==> #[trigger] final(self).entry_of(
                    old(self).vcount() + i,
                    old(self).vcount() + j,
                ) == old(self).entry_of(vertices@[i] as int, vertices@[j] as int),
            forall|a: int, b: int|
                0 <= a < final(self).vcount() && 0 <= b < final(self).vcount()
                    && (a < old(self).vcount()) != (b < old(self).vcount())
                    ==> #[trigger] final(self).entry_of(a, b) is None,
    {
        let first = self.vertices.len();
        let count = vertices.len();
        let mut t: usize = 0;
        while t < count
            invariant
                self.connections == old(self).connections,
                self.classes == old(self).classes,
                old(self).wf(),
                first == old(self).vcount(),
                count == vertices@.len(),
                t <= count,
                forall|u: int| 0 <= u < count ==> #[trigger] vertices@[u] < first,
                first + count <= 0x7FFF_FFFF,
                self.vertices.items@.len() == first + t,
                forall|i: int|
                    0 <= i < first
                        ==> #[trigger] self.vertices.items@[i] == old(self).vertices.items@[i],
                forall|u: int|
                    0 <= u < t ==> #[trigger] self.vertices.items@[first + u]
                        == old(self).vertices.items@[vertices@[u] as int],
            decreases count - t,
        {
            let id = vertices[t];
            let clone = self.vertices.items[id].clone();
            self.vertices.add(clone);
            t = t + 1;
        }
        self.connections.resize(first + count);
        let mut i: usize = 0;
        while i < count
            invariant
                self.vertices.items@.len() == first + count,
                forall|ii: int|
                    0 <= ii < first
                        ==> #[trigger] self.vertices.items@[ii] == old(self).vertices.items@[ii],
                forall|u: int|
                    0 <= u < count ==> #[trigger] self.vertices.items@[first + u]
                        == old(self).vertices.items@[vertices@[u] as int],
                self.classes == old(self).classes,
                old(self).wf(),
                self.connections.wf(),
                self.connections.size_spec() == first + count,
                first == old(self).vcount(),
                count == vertices@.len(),
                i <= count,
                forall|u: int| 0 <= u < count ==> #[trigger] vertices@[u] < first,
                first + count <= 0x7FFF_FFFF,
                forall|a: int, b: int|
                    0 <= a < first && 0 <= b < first ==> #[trigger] self.connections.entry_spec(
                        a,
                        b,
                    ) == old(self).entry_of(a, b),
                forall|x: int, j: int|
                    0 <= x < count && 0 <= j < count && (x < i) ==> #[trigger] self.connections.entry_spec(
                        first + x,
                        first + j,
                    ) == old(self).entry_of(vertices@[x] as int, vertices@[j] as int),
                forall|x: int, j: int|
                    0 <= x < count && 0 <= j < count && (x >= i) ==> #[trigger] self.connections.entry_spec(
                        first + x,
                        first + j,
                    ) is None,
                forall|a: int, b: int|
                    0 <= a < first + count && 0 <= b < first + count && (a < first) != (b < first)
                        ==> #[trigger] self.connections.entry_spec(a, b) is None,
            decreases count - i,
        {
            let mut j: usize = 0;
            while j < count
                invariant
                    self.vertices.items@.len() == first + count,
                    forall|ii: int|
                        0 <= ii < first
                            ==> #[trigger] self.vertices.items@[ii] == old(self).vertices.items@[ii],
                    forall|u: int|
                        0 <= u < count ==> #[trigger] self.vertices.items@[first + u]
                            == old(self).vertices.items@[vertices@[u] as int],
                    self.classes == old(self).classes,
                    old(self).wf(),
                    self.connections.wf(),
                    self.connections.size_spec() == first + count,
                    first == old(self).vcount(),
                    count == vertices@.len(),
                    i < count,
                    j <= count,
                    forall|u: int| 0 <= u < count ==> #[trigger] vertices@[u] < first,
                    first + count <= 0x7FFF_FFFF,
                    forall|a: int, b: int|
                        0 <= a < first && 0 <= b < first ==> #[trigger] self.connections.entry_spec(
                            a,
                            b,
                        ) == old(self).entry_of(a, b),
                    forall|x: int, jj: int|
                        0 <= x < count && 0 <= jj < count && (x < i || (x == i && jj < j))
                            ==> #[trigger] self.connections.entry_spec(first + x, first + jj)
                            == old(self).entry_of(vertices@[x] as int, vertices@[jj] as int),
                    forall|x: int, jj: int|
                        0 <= x < count && 0 <= jj < count && (x > i || (x == i && jj >= j))
                            ==> #[trigger] self.connections.entry_spec(first + x, first + jj)
                            is None,
                    forall|a: int, b: int|
                        0 <= a < first + count && 0 <= b < first + count && (a < first) != (b
                            < first) ==> #[trigger] self.connections.entry_spec(a, b) is None,
                decreases count - j,
            {
                let src = self.connections.get(vertices[i], vertices[j]);
                match self.connections.entry_mut(first + i, first + j) {
                    Ok(entry) => {
                        *entry = src;
                    },
                    Err(()) => (),
                }
                j = j + 1;
            }
            i = i + 1;
        }
        proof {
            assert forall|ii: int|
                0 <= ii < self.vertices.items@.len() implies (#[trigger] self.vertices.items@[ii]).position.bounded() by {
                if ii < first {
                    assert(self.vertices.items@[ii] == old(self).vertices.items@[ii]);
                } else {
                    let u = ii - first;
                    assert(self.vertices.items@[first + u] == old(self).vertices.items@[vertices@[u] as int]);
                }
            }
        }
        (first, count)
    }
}

/// Whether a point lies in the closed rectangle of a region.
pub open spec fn in_region(region: Bounds, p: Vector) -> bool {
    region.origin.x <= p.x <= region.origin.x + region.size.x && region.origin.y <= p.y
        <= region.origin.y + region.size.y
}

/// The distance from a vertex of the list to a position.
pub open spec fn vertex_distance(vertices: Seq<Vertex>, i: int, position: Vector) -> int {
    len_of(vertices[i].position.x - position.x, vertices[i].position.y - position.y)
}

} // verus!
