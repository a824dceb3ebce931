//! The connection matrix: at most one connection descriptor per ordered
//! vertex pair, in an append-only layered layout.
//!
//! Storage is grouped into layers: layer `L` holds the `2L + 1` slots of all
//! pairs whose larger vertex id is `L`, and starts at flat offset `L * L`.
//! The number of layers equals the number of vertices, so appending or
//! truncating a vertex touches only the end of the flat vector.

use vstd::prelude::*;
use crate::connection::Connection;
use crate::num::{isqrt, sqrt_floor, lemma_sqrt_floor_unique, lemma_sqrt_floor};
use crate::VertexId;

verus! {

/// Flat index of the ordered pair `(start, end)`: within layer
/// `L = max(start, end)`, a pair with `end == L` sits at in-layer index
/// `2L - start`, and a pair with `start == L` at in-layer index `end`.
pub open spec fn slot(start: int, end: int) -> int {
    if end > start {
        end * end + 2 * end - start
    } else {
        start * start + end
    }
}

/// The ordered pair stored at flat index `g`: the inverse of `slot`.
pub open spec fn yx_of(g: int) -> (int, int) {
    let l = sqrt_floor(g);
    let i = g - l * l;
    if i <= l {
        (l, i)
    } else {
        (2 * l - i, l)
    }
}

/// `slot` stays inside the square of any size that covers both ids.
pub proof fn lemma_slot_bounds(start: int, end: int, n: int)
    requires
        0 <= start < n,
        0 <= end < n,
    ensures
        0 <= slot(start, end) < n * n,
{
    let l = if end > start {
        end
    } else {
        start
    };
    assert(l * l + 2 * l < (l + 1) * (l + 1)) by (nonlinear_arith);
    assert((l + 1) * (l + 1) <= n * n) by (nonlinear_arith)
        requires
            0 <= l < n,
    ;
    assert(slot(start, end) >= l * l) by (nonlinear_arith)
        requires
            0 <= start,
            0 <= end,
            l == if end > start {
                end
            } else {
                start
            },
    ;
}

/// Decoding a pair's flat index gives back the pair.
pub proof fn lemma_yx_of_slot(start: int, end: int)
    requires
        start >= 0,
        end >= 0,
    ensures
        yx_of(slot(start, end)) == (start, end),
{
    let g = slot(start, end);
    if end > start {
        let l = end;
        assert(l * l <= g < (l + 1) * (l + 1)) by (nonlinear_arith)
            requires
                g == l * l + 2 * l - start,
                0 <= start < l,
        ;
        assert(l * l <= g) by (nonlinear_arith)
            requires
                g == l * l + 2 * l - start,
                0 <= start < l,
        ;
        lemma_sqrt_floor_unique(g, l);
        assert(g - l * l == 2 * l - start > l);
    } else {
        let l = start;
        assert(l * l <= g < (l + 1) * (l + 1)) by (nonlinear_arith)
            requires
                g == l * l + end,
                0 <= end <= l,
        ;
        lemma_sqrt_floor_unique(g, l);
        assert(g - l * l == end <= l);
    }
}

/// No two ordered pairs share a flat index; in particular the two
/// directions of a pair of distinct vertices are stored apart.
pub proof fn lemma_slot_injective(a1: int, b1: int, a2: int, b2: int)
    requires
        a1 >= 0,
        b1 >= 0,
        a2 >= 0,
        b2 >= 0,
        slot(a1, b1) == slot(a2, b2),
    ensures
        a1 == a2,
        b1 == b2,
{
    lemma_yx_of_slot(a1, b1);
    lemma_yx_of_slot(a2, b2);
}

/// The two directions of a pair of distinct vertices have distinct indices.
pub proof fn lemma_slot_asymmetric(a: int, b: int)
    requires
        a >= 0,
        b >= 0,
        a != b,
    ensures
        slot(a, b) != slot(b, a),
{
    if slot(a, b) == slot(b, a) {
        lemma_slot_injective(a, b, b, a);
    }
}

/// Directed connection storage for a fixed number of vertices.
pub struct Connections {
    items: Vec<Option<Connection>>,
    size: VertexId,
}

impl Connections {
    /// The matrix is sized to a whole number of layers, within index range.
    pub closed spec fn wf(self) -> bool {
        &&& self.items@.len() == self.size * self.size
        &&& self.size <= 0x7FFF_FFFF
        &&& self.size * self.size <= usize::MAX
    }

    /// The number of vertices the matrix is sized for.
    pub closed spec fn size_spec(self) -> int {
        self.size as int
    }

    /// The entry of the ordered pair `(start, end)`; out-of-range pairs
    /// hold nothing.
    pub closed spec fn entry_spec(self, start: int, end: int) -> Option<Connection> {
        if 0 <= start < self.size_spec() && 0 <= end < self.size_spec() {
            self.items@[slot(start, end)]
        } else {
            None
        }
    }

    /// A present entry implies an in-range pair.
    pub proof fn lemma_entry_in_range(self, a: int, b: int)
        requires
            self.entry_spec(a, b) is Some,
        ensures
            0 <= a < self.size_spec(),
            0 <= b < self.size_spec(),
            self.size_spec() <= usize::MAX,
    {
    }

    /// Out-of-range pairs hold nothing.
    pub proof fn lemma_entry_out_of_range(self, a: int, b: int)
        requires
            !(0 <= a < self.size_spec()) || !(0 <= b < self.size_spec()),
        ensures
            self.entry_spec(a, b) is None,
    {
    }

    /// An empty matrix for `size` vertices.
    pub fn new(size: VertexId) -> (r: Connections)
        requires
            size <= 0x7FFF_FFFF,
            size * size <= usize::MAX,
        ensures
            r.wf(),
            r.size_spec() == size,
            forall|a: int, b: int| #[trigger] r.entry_spec(a, b) is None,
    {
        let target = size * size;
        let mut items: Vec<Option<Connection>> = Vec::new();
        while items.len() < target
            invariant
                items@.len() <= target,
                forall|i: int| 0 <= i < items@.len() ==> #[trigger] items@[i] is None,
            decreases target - items@.len(),
        {
            items.push(None);
        }
        let r = Connections { items, size };
        proof {
            assert forall|a: int, b: int| #[trigger] r.entry_spec(a, b) is None by {
                if 0 <= a < size && 0 <= b < size {
                    lemma_slot_bounds(a, b, size as int);
                }
            }
        }
        r
    }

    /// Flat index of an in-range ordered pair.
    fn yx_to_global(y: VertexId, x: VertexId) -> (r: usize)
        requires
            slot(y as int, x as int) <= usize::MAX,
        ensures
            r == slot(y as int, x as int),
    {
        if x > y {
            let d = x - y;
            proof {
                assert(x * x + x + d == slot(y as int, x as int) && x * x >= x)
                    by (nonlinear_arith)
                    requires
                        x > y >= 0,
                        d == x - y,
                ;
            }
            x * x + x + d
        } else {
            proof {
                assert(y * y + x == slot(y as int, x as int)) by (nonlinear_arith)
                    requires
                        0 <= x <= y,
                ;
            }
            y * y + x
        }
    }

    /// The ordered pair stored at a flat index.
    fn global_to_yx(g: usize) -> (r: (VertexId, VertexId))
        requires
            g <= 0x3FFF_FFFF_FFFF_FFFF,
        ensures
            (r.0 as int, r.1 as int) == yx_of(g as int),
            r.0 <= sqrt_floor(g as int),
            r.1 <= sqrt_floor(g as int),
    {
        let l64 = isqrt(g as i64);
        let l = l64 as usize;
        proof {
            lemma_sqrt_floor(g as int);
            assert(g - l * l <= 2 * l && (l < 2 || 2 * l <= l * l)) by (nonlinear_arith)
                requires
                    (l as int + 1) * (l as int + 1) > g as int,
                    l * l <= g as int,
                    l >= 0,
            ;
        }
        let i = g - l * l;
        if i <= l {
            (l, i)
        } else {
            (2 * l - i, l)
        }
    }

    /// The entry slot of the ordered pair, or a lookup failure for an
    /// out-of-range id.
    pub fn entry(&self, start_vertex: VertexId, end_vertex: VertexId) -> (r: Result<
        Option<Connection>,
        (),
    >)
        requires
            self.wf(),
        ensures
            r is Ok <==> (start_vertex < self.size_spec() && end_vertex < self.size_spec()),
            r is Ok ==> r->Ok_0 == self.entry_spec(start_vertex as int, end_vertex as int),
    {
        if start_vertex >= self.size || end_vertex >= self.size {
            return Err(());
        }
        proof {
            lemma_slot_bounds(start_vertex as int, end_vertex as int, self.size as int);
        }
        let idx = Self::yx_to_global(start_vertex, end_vertex);
        Ok(self.items[idx])
    }

    /// Mutable access to the entry slot of the ordered pair, or a lookup
    /// failure for an out-of-range id.
    pub fn entry_mut(&mut self, start_vertex: VertexId, end_vertex: VertexId) -> (r: Result<
        &mut Option<Connection>,
        (),
    >)
        requires
            old(self).wf(),
        ensures
            r is Ok <==> (start_vertex < old(self).size_spec() && end_vertex < old(
                self,
            ).size_spec()),
            r matches Ok(slot_ref) ==> {
                &&& *slot_ref == old(self).entry_spec(start_vertex as int, end_vertex as int)
                &&& final(self).wf()
                &&& final(self).size_spec() == old(self).size_spec()
                &&& final(self).entry_spec(start_vertex as int, end_vertex as int)
                    == *final(slot_ref)
                &&& forall|a: int, b: int|
                    !(a == start_vertex && b == end_vertex) ==> #[trigger] final(self).entry_spec(
                        a,
                        b,
                    ) == old(self).entry_spec(a, b)
            },
            r is Err ==> *final(self) == *old(self),
    {
        if start_vertex >= self.size || end_vertex >= self.size {
            return Err(());
        }
        proof {
            lemma_slot_bounds(start_vertex as int, end_vertex as int, self.size as int);
        }
        let idx = Self::yx_to_global(start_vertex, end_vertex);
        proof {
            assert forall|a: int, b: int|
                !(a == start_vertex && b == end_vertex) && 0 <= a < self.size && 0 <= b
                    < self.size implies slot(a, b) != slot(start_vertex as int, end_vertex as int)
                    && 0 <= slot(a, b) < self.items@.len() by {
                lemma_slot_bounds(a, b, self.size as int);
                if slot(a, b) == slot(start_vertex as int, end_vertex as int) {
                    lemma_slot_injective(a, b, start_vertex as int, end_vertex as int);
                }
            }
        }
        Ok(&mut self.items[idx])
    }

    /// The connection of the ordered pair, if in range and present.
    pub fn get(&self, start_vertex: VertexId, end_vertex: VertexId) -> (r: Option<Connection>)
        requires
            self.wf(),
        ensures
            r == self.entry_spec(start_vertex as int, end_vertex as int),
    {
        match self.entry(start_vertex, end_vertex) {
            Ok(entry) => entry,
            Err(()) => None,
        }
    }

    /// Mutable access to the connection of the ordered pair, if in range and
    /// present.
    pub fn get_mut(&mut self, start_vertex: VertexId, end_vertex: VertexId) -> (r: Option<
        &mut Connection,
    >)
        requires
            old(self).wf(),
        ensures
            final(self).wf(),
            final(self).size_spec() == old(self).size_spec(),
            r is None ==> old(self).entry_spec(start_vertex as int, end_vertex as int) is None
                && forall|a: int, b: int| #[trigger]
                final(self).entry_spec(a, b) == old(self).entry_spec(a, b),
            r matches Some(conn_ref) ==> {
                &&& Some(*conn_ref) == old(self).entry_spec(start_vertex as int, end_vertex as int)
                &&& final(self).entry_spec(start_vertex as int, end_vertex as int) == Some(
                    *final(conn_ref),
                )
                &&& forall|a: int, b: int|
                    !(a == start_vertex && b == end_vertex) ==> #[trigger] final(self).entry_spec(
                        a,
                        b,
                    ) == old(self).entry_spec(a, b)
            },
    {
        match self.entry_mut(start_vertex, end_vertex) {
            Ok(entry) => match entry {
                Some(conn) => Some(conn),
                None => None,
            },
            Err(()) => None,
        }
    }

    /// Adds or removes layers at the end to meet the specified size; the
    /// entries of pairs inside both the old and the new size keep their
    /// values.
    pub fn resize(&mut self, size: VertexId)
        requires
            old(self).wf(),
            size <= 0x7FFF_FFFF,
            size * size <= usize::MAX,
        ensures
            final(self).wf(),
            final(self).size_spec() == size,
            forall|a: int, b: int|
                0 <= a < size && 0 <= b < size ==> #[trigger] final(self).entry_spec(a, b) == (
                if a < old(self).size_spec() && b < old(self).size_spec() {
                    old(self).entry_spec(a, b)
                } else {
                    None
                }),
    {
        let target = size * size;
        if self.items.len() > target {
            self.items.truncate(target);
        }
        while self.items.len() < target
            invariant
                self.items@.len() <= target,
                self.items@.len() >= old(self).items@.len() || self.items@.len() == target,
                forall|i: int|
                    0 <= i < self.items@.len() ==> #[trigger] self.items@[i] == (
                    if i < old(self).items@.len() {
                        old(self).items@[i]
                    } else {
                        None
                    }),
                self.size == old(self).size,
            decreases target - self.items@.len(),
        {
            self.items.push(None);
        }
        self.size = size;
        proof {
            assert forall|a: int, b: int|
                0 <= a < size && 0 <= b < size implies #[trigger] self.entry_spec(a, b) == (
            if a < old(self).size_spec() && b < old(self).size_spec() {
                old(self).entry_spec(a, b)
            } else {
                None
            }) by {
                lemma_slot_bounds(a, b, size as int);
                if a < old(self).size_spec() && b < old(self).size_spec() {
                    lemma_slot_bounds(a, b, old(self).size_spec());
                } else {
                    let l = if b > a {
                        b
                    } else {
                        a
                    };
                    assert(slot(a, b) >= l * l) by (nonlinear_arith)
                        requires
                            0 <= a,
                            0 <= b,
                            l == if b > a {
                                b
                            } else {
                                a
                            },
                    ;
                    let os = old(self).size_spec();
                    assert(os * os <= l * l) by (nonlinear_arith)
                        requires
                            0 <= os <= l,
                    ;
                }
            }
        }
    }

    /// Removes the layer of the given vertex together with both directed
    /// slots it has in every higher layer, then renumbers: vertex ids above
    /// the removed one shift down by one.  Fails on an out-of-range id.
    pub fn shrink_by_vertex(&mut self, vertex: VertexId) -> (r: Result<(), ()>)
        requires
            old(self).wf(),
        ensures
            r is Ok <==> vertex < old(self).size_spec(),
            r is Err ==> *final(self) == *old(self),
            r is Ok ==> {
                &&& final(self).wf()
                &&& final(self).size_spec() == old(self).size_spec() - 1
                &&& forall|a: int, b: int|
                    0 <= a < final(self).size_spec() && 0 <= b < final(self).size_spec()
                        ==> #[trigger] final(self).entry_spec(a, b) == old(self).entry_spec(
                        if a >= vertex {
                            a + 1
                        } else {
                            a
                        },
                        if b >= vertex {
                            b + 1
                        } else {
                            b
                        },
                    )
            },
    {
        if vertex >= self.size {
            return Err(());
        }
        let new_size = self.size - 1;
        proof {
            assert(new_size * new_size <= self.size * self.size
                && new_size * new_size <= 0x7FFF_FFFF * 0x7FFF_FFFFint) by (nonlinear_arith)
                requires
                    0 <= new_size < self.size <= 0x7FFF_FFFF,
            ;
        }
        let target = new_size * new_size;
        let mut items: Vec<Option<Connection>> = Vec::new();
        while items.len() < target
            invariant
                self == old(self),
                self.wf(),
                vertex < self.size,
                new_size == self.size - 1,
                target == new_size * new_size,
                target <= self.items@.len(),
                target <= 0x3FFF_FFFF_FFFF_FFFF,
                items@.len() <= target,
                forall|g: int|
                    0 <= g < items@.len() ==> #[trigger] items@[g] == self.items@[slot(
                        shift_up(yx_of(g).0, vertex as int),
                        shift_up(yx_of(g).1, vertex as int),
                    )],
            decreases target - items@.len(),
        {
            let g = items.len();
            let (a, b) = Self::global_to_yx(g);
            proof {
                lemma_sqrt_floor(g as int);
                if sqrt_floor(g as int) >= new_size {
                    assert(new_size * new_size <= sqrt_floor(g as int) * sqrt_floor(g as int))
                        by (nonlinear_arith)
                        requires
                            0 <= new_size <= sqrt_floor(g as int),
                    ;
                }
            }
            let sa = if a >= vertex {
                a + 1
            } else {
                a
            };
            let sb = if b >= vertex {
                b + 1
            } else {
                b
            };
            proof {
                lemma_slot_bounds(sa as int, sb as int, self.size as int);
            }
            let src = Self::yx_to_global(sa, sb);
            items.push(self.items[src]);
        }
        self.items = items;
        self.size = new_size;
        proof {
            assert forall|a: int, b: int|
                0 <= a < self.size_spec() && 0 <= b
                    < self.size_spec() implies #[trigger] self.entry_spec(a, b) == old(
                self,
            ).entry_spec(
                if a >= vertex {
                    a + 1
                } else {
                    a
                },
                if b >= vertex {
                    b + 1
                } else {
                    b
                },
            ) by {
                lemma_slot_bounds(a, b, new_size as int);
                lemma_yx_of_slot(a, b);
                lemma_slot_bounds(
                    if a >= vertex {
                        a + 1
                    } else {
                        a
                    },
                    if b >= vertex {
                        b + 1
                    } else {
                        b
                    },
                    old(self).size_spec(),
                );
            }
        }
        Ok(())
    }
}

/// Encoding the pair stored at a flat index gives back the index.
pub proof fn lemma_slot_yx_of(g: int)
    requires
        g >= 0,
    ensures
        slot(yx_of(g).0, yx_of(g).1) == g,
        yx_of(g).0 >= 0,
        yx_of(g).1 >= 0,
{
    lemma_sqrt_floor(g);
    let l = sqrt_floor(g);
    let i = g - l * l;
    assert(i <= 2 * l) by (nonlinear_arith)
        requires
            (l + 1) * (l + 1) > g,
            i == g - l * l,
            l >= 0,
    ;
}

impl Connections {
    /// The number of flat entry slots: the square of the vertex count.
    pub fn len_slots(&self) -> (r: usize)
        requires
            self.wf(),
        ensures
            r == self.size_spec() * self.size_spec(),
    {
        self.items.len()
    }

    /// Every present connection, as `(start, end, connection)` triples in
    /// ascending flat order: the stable order of a full iteration.
    pub fn foreach(&self) -> (r: Vec<(VertexId, VertexId, Connection)>)
        requires
            self.wf(),
        ensures
            forall|i: int|
                0 <= i < r@.len() ==> {
                    &&& 0 <= #[trigger] r@[i].0 < self.size_spec()
                    &&& 0 <= r@[i].1 < self.size_spec()
                    &&& self.entry_spec(r@[i].0 as int, r@[i].1 as int) == Some(r@[i].2)
                },
            forall|i: int, j: int|
                0 <= i < j < r@.len() ==> slot(#[trigger] r@[i].0 as int, r@[i].1 as int) < slot(
                    #[trigger] r@[j].0 as int,
                    r@[j].1 as int,
                ),
            forall|a: int, b: int|
                0 <= a < self.size_spec() && 0 <= b < self.size_spec() && #[trigger] self
                    .entry_spec(a, b) is Some ==> exists|i: int|
                    0 <= i < r@.len() && #[trigger] r@[i] == (
                        a as usize,
                        b as usize,
                        self.entry_spec(a, b)->Some_0,
                    ),
    {
        let mut out: Vec<(VertexId, VertexId, Connection)> = Vec::new();
        let mut g: usize = 0;
        proof {
            assert(self.size * self.size <= 0x7FFF_FFFF * 0x7FFF_FFFFint) by (nonlinear_arith)
                requires
                    0 <= self.size <= 0x7FFF_FFFF,
            ;
        }
        while g < self.items.len()
            invariant
                self.wf(),
                g <= self.items@.len(),
                self.items@.len() <= 0x3FFF_FFFF_FFFF_FFFF,
                forall|i: int|
                    0 <= i < out@.len() ==> {
                        &&& 0 <= #[trigger] out@[i].0 < self.size_spec()
                        &&& 0 <= out@[i].1 < self.size_spec()
                        &&& slot(out@[i].0 as int, out@[i].1 as int) < g
                        &&& self.entry_spec(out@[i].0 as int, out@[i].1 as int) == Some(out@[i].2)
                    },
                forall|i: int, j: int|
                    0 <= i < j < out@.len() ==> slot(#[trigger] out@[i].0 as int, out@[i].1 as int)
                        < slot(#[trigger] out@[j].0 as int, out@[j].1 as int),
                forall|a: int, b: int|
                    0 <= a < self.size_spec() && 0 <= b < self.size_spec() && slot(a, b) < g
                        && #[trigger] self.entry_spec(a, b) is Some ==> exists|i: int|
                        0 <= i < out@.len() && #[trigger] out@[i] == (
                            a as usize,
                            b as usize,
                            self.entry_spec(a, b)->Some_0,
                        ),
            decreases self.items@.len() - g,
        {
            let (a, b) = Self::global_to_yx(g);
            proof {
                lemma_slot_yx_of(g as int);
                lemma_sqrt_floor(g as int);
                if sqrt_floor(g as int) >= self.size_spec() {
                    let sz = self.size_spec();
                    assert(sz * sz <= sqrt_floor(g as int) * sqrt_floor(g as int))
                        by (nonlinear_arith)
                        requires
                            0 <= sz <= sqrt_floor(g as int),
                    ;
                }
            }
            let entry = self.items[g];
            match entry {
                Some(c) => {
                    let ghost old_out = out@;
                    out.push((a, b, c));
                    proof {
                        assert forall|x: int, y: int|
                            0 <= x < self.size_spec() && 0 <= y < self.size_spec() && slot(x, y) < g
                                + 1 && #[trigger] self.entry_spec(x, y) is Some implies exists|
                            i: int,
                        |
                            0 <= i < out@.len() && #[trigger] out@[i] == (
                                x as usize,
                                y as usize,
                                self.entry_spec(x, y)->Some_0,
                            ) by {
                            if slot(x, y) == g {
                                lemma_yx_of_slot(x, y);
                                assert(out@[out@.len() - 1] == (
                                    x as usize,
                                    y as usize,
                                    self.entry_spec(x, y)->Some_0,
                                ));
                            } else {
                                let i = choose|i: int|
                                    0 <= i < old_out.len() && #[trigger] old_out[i] == (
                                        x as usize,
                                        y as usize,
                                        self.entry_spec(x, y)->Some_0,
                                    );
                                assert(out@[i] == (
                                    x as usize,
                                    y as usize,
                                    self.entry_spec(x, y)->Some_0,
                                ));
                            }
                        }
                    }
                },
                None => {
                    proof {
                        assert forall|x: int, y: int|
                            0 <= x < self.size_spec() && 0 <= y < self.size_spec() && slot(x, y) < g
                                + 1 && #[trigger] self.entry_spec(x, y) is Some implies slot(x, y)
                            < g by {
                            if slot(x, y) == g {
                                lemma_yx_of_slot(x, y);
                            }
                        }
                    }
                },
            }
            g = g + 1;
        }
        proof {
            assert forall|a: int, b: int|
                0 <= a < self.size_spec() && 0 <= b < self.size_spec() implies slot(a, b)
                < self.items@.len() by {
                lemma_slot_bounds(a, b, self.size_spec());
            }
        }
        out
    }

    /// A cursor over every slot of the matrix in ascending flat order.
    pub fn fast_iter(&self) -> (r: FastConnectionsIterator)
        ensures
            r.current == 0,
    {
        FastConnectionsIterator { current: 0 }
    }
}

/// Walks the flat storage of a `Connections`, yielding each ordered pair
/// with its entry slot, layer by layer.
pub struct FastConnectionsIterator {
    /// The flat index the cursor stands on.
    pub current: usize,
}

impl FastConnectionsIterator {
    /// The next `(start, end, entry)` triple of the matrix the cursor walks,
    /// or nothing once every slot has been yielded.
    pub fn next(&mut self, connections: &Connections) -> (r: Option<
        (VertexId, VertexId, Option<Connection>),
    >)
        requires
            connections.wf(),
        ensures
            r is Some <==> old(self).current < connections.size_spec() * connections.size_spec(),
            r matches Some(t) ==> {
                &&& (t.0 as int, t.1 as int) == yx_of(old(self).current as int)
                &&& t.2 == connections.entry_spec(t.0 as int, t.1 as int)
                &&& final(self).current == old(self).current + 1
            },
            r is None ==> *final(self) == *old(self),
    {
        let g = self.current;
        if g >= connections.len_slots() {
            return None;
        }
        proof {
            assert(connections.size_spec() * connections.size_spec() <= 0x7FFF_FFFF
                * 0x7FFF_FFFFint) by (nonlinear_arith)
                requires
                    0 <= connections.size_spec() <= 0x7FFF_FFFF,
            ;
            lemma_slot_yx_of(g as int);
            lemma_sqrt_floor(g as int);
            if sqrt_floor(g as int) >= connections.size_spec() {
                let sz = connections.size_spec();
                assert(sz * sz <= sqrt_floor(g as int) * sqrt_floor(g as int)) by (nonlinear_arith)
                    requires
                        0 <= sz <= sqrt_floor(g as int),
                ;
            }
        }
        let (a, b) = Connections::global_to_yx(g);
        let entry = connections.get(a, b);
        self.current = g + 1;
        Some((a, b, entry))
    }
}

/// Renumbering of a surviving vertex id back to its id before a removal.
pub open spec fn shift_up(id: int, removed: int) -> int {
    if id >= removed {
        id + 1
    } else {
        id
    }
}

} // verus!
