//! How the insertion of a vertex changes the model of a mesh of triangles.
use vstd::prelude::*;
use crate::handles::twin_index;
use crate::math::{incircle_det, Point2};
use crate::mesh::{cyclic_distance, Mesh};

verus! {

impl Mesh {
    /// A half-edge and its successor stand one step apart in the cycle of
    /// their face.
    pub proof fn lemma_next_distance(self, e: int)
        requires
            self.wf(),
            self.valid_edge(e),
            self.next(e) != e,
        ensures
            cyclic_distance(
                self.half_edges[e].fpos,
                self.half_edges[self.next(e)].fpos,
                self.faces[self.face(e)].len,
            ) == 1,
            self.faces[self.face(e)].len >= 2,
    {
        assert(self.edge_ok(e));
        assert(self.edge_ok(self.next(e)));
        assert(self.positions_differ(e, self.next(e)));
    }

    /// The three half-edges of a triangle: each is the successor of the one
    /// before, and they differ from each other.
    pub proof fn lemma_triangle(self, e: int)
        requires
            self.wf(),
            self.valid_edge(e),
            self.faces[self.face(e)].len == 3,
        ensures
            ({
                let en = self.next(e);
                let ep = self.prev(e);
                &&& self.valid_edge(en) && self.valid_edge(ep)
                &&& self.next(en) == ep && self.next(ep) == e
                &&& self.prev(en) == e && self.prev(ep) == en
                &&& self.face(en) == self.face(e) && self.face(ep) == self.face(e)
                &&& e != en && e != ep && en != ep
                &&& self.origin(en) == self.target(e)
                &&& self.origin(ep) == self.target(en)
                &&& self.origin(e) == self.target(ep)
            }),
    {
        let en = self.next(e);
        let ep = self.prev(e);
        assert(self.edge_ok(e));
        assert(self.edge_ok(en));
        assert(self.edge_ok(ep));
        assert(self.edge_ok(self.next(en)));
        if self.next(en) != ep {
            assert(self.positions_differ(self.next(en), ep));
        }
        assert(self.positions_differ(e, en));
    }

    /// Every half-edge that has a triangle on its left is one of the three
    /// half-edges of that triangle.
    pub proof fn lemma_triangle_edges(self, e: int, i: int)
        requires
            self.wf(),
            self.valid_edge(e),
            self.valid_edge(i),
            self.faces[self.face(e)].len == 3,
            self.face(i) == self.face(e),
        ensures
            i == e || i == self.next(e) || i == self.prev(e),
    {
        self.lemma_triangle(e);
        let en = self.next(e);
        let ep = self.prev(e);
        assert(self.edge_ok(e));
        assert(self.edge_ok(en));
        assert(self.edge_ok(ep));
        assert(self.edge_ok(i));
        if i != e {
            assert(self.positions_differ(i, e));
        }
        if i != en {
            assert(self.positions_differ(i, en));
        }
        if i != ep {
            assert(self.positions_differ(i, ep));
        }
        assert(self.positions_differ(e, en));
        assert(self.positions_differ(e, ep));
        assert(self.positions_differ(en, ep));
    }

    /// The mesh after a new vertex has been put into the inner face `f` and
    /// joined to its three corners. The new vertex gets the index
    /// `num_vertices()`.
    pub open spec fn insert_into_triangle(self, f: int) -> Mesh {
        let n = self.num_half_edges();
        let v = self.num_vertices();
        let e1 = self.faces[f].edge.unwrap();
        let e0 = self.prev(e1);
        let e2 = self.next(e1);
        self.insert_vertex().connect_edge_to_isolated_vertex(e2, v).create_face(
            e0,
            n + 1,
        ).create_face(e1, n + 3)
    }

    /// The three half-edges of the inner face `f`, in the order in which
    /// they are examined after a vertex has been put into the face.
    pub open spec fn triangle_stack(self, f: int) -> Seq<usize> {
        let e1 = self.faces[f].edge.unwrap();
        seq![self.prev(e1) as usize, e1 as usize, self.next(e1) as usize]
    }

    /// Putting a vertex into a triangle keeps a mesh of triangles one, and
    /// adds one vertex, three edges and two faces.
    #[verifier::spinoff_prover]
    pub proof fn lemma_insert_into_triangle(self, f: int)
        requires
            self.wf(),
            self.triangles_except(0),
            1 <= f < self.num_faces(),
        ensures
            ({
                let n = self.num_half_edges();
                let v = self.num_vertices();
                let e1 = self.faces[f].edge.unwrap();
                let e0 = self.prev(e1);
                let e2 = self.next(e1);
                let m1 = self.insert_vertex();
                let m2 = m1.connect_edge_to_isolated_vertex(e2, v);
                let m3 = m2.create_face(e0, n + 1);
                let m4 = m3.create_face(e1, n + 3);
                &&& self.faces[f].edge.is_some()
                &&& self.valid_edge(e1) && self.valid_edge(e0) && self.valid_edge(e2)
                &&& m1.wf() && m2.wf() && m3.wf() && m4.wf()
                &&& m1.valid_edge(e2) && m1.valid_vertex(v) && m1.vertices[v].out_edge.is_none()
                &&& m2.can_create_face(e0, n + 1)
                &&& m3.can_create_face(e1, n + 3)
                &&& m4 == self.insert_into_triangle(f)
                &&& m4.triangles_except(0)
                &&& m4.num_vertices() == v + 1
                &&& m4.num_half_edges() == n + 6
                &&& m4.num_faces() == self.num_faces() + 2
            }),
    {
        let n = self.num_half_edges();
        let v = self.num_vertices();
        assert(self.face_ok(f));
        assert(self.faces[f].len == 3);
        let e1 = self.faces[f].edge.unwrap();
        let e0 = self.prev(e1);
        let e2 = self.next(e1);
        self.lemma_triangle(e1);
        let m1 = self.insert_vertex();
        self.lemma_insert_vertex_wf();
        let m2 = m1.connect_edge_to_isolated_vertex(e2, v);
        m1.lemma_connect_edge_to_isolated_vertex_wf(e2, v);
        assert(m1.edge_ok(e2));
        assert(m1.edge_ok(e0));
        assert(m1.edge_ok(e1));
        assert(m2.face(e0) == f);
        assert(m2.face(n + 1) == f);
        assert(m2.next(n + 1) == e0);
        assert(m2.next(e0) == e1);
        assert(m2.faces[f].len == 5);
        m2.lemma_next_distance(n + 1);
        let m3 = m2.create_face(e0, n + 1);
        m2.lemma_create_face_wf(e0, n + 1);
        assert(m3.faces[m2.num_faces()].len == 3);
        assert(m3.faces[f].len == 4);
        assert(m2.edge_ok(e0));
        assert(m2.edge_ok(e1));
        assert(m2.edge_ok(n + 1));
        assert(m3.next(n + 3) == e1);
        assert(m3.face(n + 3) == f);
        assert(m2.positions_differ(e1, e0));
        assert(m2.positions_differ(e1, n + 1));
        assert(m3.face(e1) == f);
        assert(m3.edge_ok(e1));
        assert(m3.next(e1) == e2);
        m3.lemma_next_distance(n + 3);
        let m4 = m3.create_face(e1, n + 3);
        m3.lemma_create_face_wf(e1, n + 3);
        assert(m4.faces[m3.num_faces()].len == 3);
        assert(m4.faces[f].len == 3);
        assert forall|g: int| 1 <= g < m4.faces.len() && g != 0 implies (#[trigger] m4.faces[g]).len
            == 3 by {
            if g < self.num_faces() && g != f {
                assert(self.faces[g].len == 3);
                assert(m2.faces[g] == self.faces[g]);
                assert(m3.faces[g] == m2.faces[g]);
                assert(m4.faces[g] == m3.faces[g]);
            }
        }
    }
}


/// Legalizing edges.
impl Mesh {
    /// The edge of the half-edge `e` lies between two triangles with four
    /// different vertices, none of which is the outer face.
    pub open spec fn flippable(self, e: int) -> bool {
        &&& self.can_flip(e)
        &&& self.face(e) != 0
        &&& self.face(twin_index(e)) != 0
    }

    /// The point `p` lies strictly inside the circle through the three
    /// vertices of the triangle on the right of the half-edge `e`.
    pub open spec fn violates_delaunay(self, pos: Seq<Point2>, e: int, p: Point2) -> bool {
        let t = twin_index(e);
        incircle_det(pos[self.apex(t)], pos[self.target(e)], pos[self.origin(e)], p) > 0
    }

    /// The mesh after the half-edges on `stack` have been examined, the top
    /// first: a half-edge is flipped where its edge can be flipped and the
    /// point `p` lies strictly inside the circle of the triangle across; the
    /// two far half-edges of that triangle are then examined next. At most
    /// `flips` edges are flipped.
    pub open spec fn legalize(self, pos: Seq<Point2>, stack: Seq<usize>, p: Point2, flips: nat) -> Mesh
        decreases stack.len() + 3 * flips,
    {
        if stack.len() == 0 {
            self
        } else {
            let e = stack.last() as int;
            let rest = stack.drop_last();
            if flips > 0 && self.valid_edge(e) && self.flippable(e) && self.violates_delaunay(
                pos,
                e,
                p,
            ) {
                let t = twin_index(e);
                self.flip_cw(e).legalize(
                    pos,
                    rest.push(self.next(t) as usize).push(self.prev(t) as usize),
                    p,
                    (flips - 1) as nat,
                )
            } else {
                self.legalize(pos, rest, p, flips)
            }
        }
    }

    /// Whether the legalization that `legalize` describes stops short: it
    /// comes to a half-edge that it would flip when no flip is left to it.
    pub open spec fn legalize_stops_short(
        self,
        pos: Seq<Point2>,
        stack: Seq<usize>,
        p: Point2,
        flips: nat,
    ) -> bool
        decreases stack.len() + 3 * flips,
    {
        if stack.len() == 0 {
            false
        } else {
            let e = stack.last() as int;
            let rest = stack.drop_last();
            if self.valid_edge(e) && self.flippable(e) && self.violates_delaunay(pos, e, p) {
                if flips == 0 {
                    true
                } else {
                    let t = twin_index(e);
                    self.flip_cw(e).legalize_stops_short(
                        pos,
                        rest.push(self.next(t) as usize).push(self.prev(t) as usize),
                        p,
                        (flips - 1) as nat,
                    )
                }
            } else {
                self.legalize_stops_short(pos, rest, p, flips)
            }
        }
    }

    /// A legalization that does not stop short gives the same mesh with any
    /// larger number of flips: the limit has not cut it.
    pub proof fn lemma_legalize_budget(
        self,
        pos: Seq<Point2>,
        stack: Seq<usize>,
        p: Point2,
        flips: nat,
        more: nat,
    )
        requires
            !self.legalize_stops_short(pos, stack, p, flips),
            more >= flips,
        ensures
            self.legalize(pos, stack, p, more) == self.legalize(pos, stack, p, flips),
            !self.legalize_stops_short(pos, stack, p, more),
        decreases stack.len() + 3 * flips,
    {
        if stack.len() > 0 {
            let e = stack.last() as int;
            let rest = stack.drop_last();
            if self.valid_edge(e) && self.flippable(e) && self.violates_delaunay(pos, e, p) {
                let t = twin_index(e);
                self.flip_cw(e).lemma_legalize_budget(
                    pos,
                    rest.push(self.next(t) as usize).push(self.prev(t) as usize),
                    p,
                    (flips - 1) as nat,
                    (more - 1) as nat,
                );
            } else {
                self.lemma_legalize_budget(pos, rest, p, flips, more);
            }
        }
    }

    /// A flip keeps the number of vertices, half-edges and faces, and keeps a
    /// mesh of triangles one.
    pub proof fn lemma_flip_keeps_shape(self, e: int)
        requires
            self.wf(),
            self.flippable(e),
        ensures
            self.flip_cw(e).wf(),
            self.flip_cw(e).num_vertices() == self.num_vertices(),
            self.flip_cw(e).num_half_edges() == self.num_half_edges(),
            self.flip_cw(e).num_faces() == self.num_faces(),
            self.flip_cw(e).faces[0] == self.faces[0],
            self.triangles_except(0) ==> self.flip_cw(e).triangles_except(0),
    {
        self.lemma_flip_cw_wf(e);
        self.lemma_flip_context(e);
        let m = self.flip_cw(e);
        if self.triangles_except(0) {
            assert forall|g: int| 1 <= g < m.faces.len() && g != 0 implies (#[trigger] m.faces[g]).len
                == 3 by {
                assert(self.faces[g].len == 3);
            }
        }
    }

    /// Legalizing keeps the number of vertices, half-edges and faces, and
    /// keeps a mesh of triangles one.
    pub proof fn lemma_legalize_keeps_shape(
        self,
        pos: Seq<Point2>,
        stack: Seq<usize>,
        p: Point2,
        flips: nat,
    )
        requires
            self.wf(),
        ensures
            self.legalize(pos, stack, p, flips).wf(),
            self.legalize(pos, stack, p, flips).num_vertices() == self.num_vertices(),
            self.legalize(pos, stack, p, flips).num_half_edges() == self.num_half_edges(),
            self.legalize(pos, stack, p, flips).num_faces() == self.num_faces(),
            self.legalize(pos, stack, p, flips).faces[0] == self.faces[0],
            self.triangles_except(0) ==> self.legalize(pos, stack, p, flips).triangles_except(0),
        decreases stack.len() + 3 * flips,
    {
        if stack.len() > 0 {
            let e = stack.last() as int;
            let rest = stack.drop_last();
            if flips > 0 && self.valid_edge(e) && self.flippable(e) && self.violates_delaunay(
                pos,
                e,
                p,
            ) {
                let t = twin_index(e);
                self.lemma_flip_keeps_shape(e);
                self.flip_cw(e).lemma_legalize_keeps_shape(
                    pos,
                    rest.push(self.next(t) as usize).push(self.prev(t) as usize),
                    p,
                    (flips - 1) as nat,
                );
            } else {
                self.lemma_legalize_keeps_shape(pos, rest, p, flips);
            }
        }
    }
}


/// Inserting a vertex on an edge.
impl Mesh {
    /// The mesh after a new vertex has been put on the edge of the half-edge
    /// `e`, which has an inner face on its left, and joined to the apex of the
    /// triangle on either side. The new vertex gets the index
    /// `num_vertices()`.
    pub open spec fn insert_on_edge(self, e: int) -> Mesh {
        let n = self.num_half_edges();
        let v = self.num_vertices();
        let t = twin_index(e);
        let m3 = self.insert_vertex().split_edge(e, v).create_face(e, self.prev(e));
        if self.face(t) != 0 {
            m3.create_face(n + 1, self.prev(t))
        } else {
            m3
        }
    }

    /// The half-edges that are examined after a vertex has been put on the
    /// edge of the half-edge `e`: the two other half-edges of the triangle on
    /// either side.
    pub open spec fn edge_stack(self, e: int) -> Seq<usize> {
        let t = twin_index(e);
        let left = seq![self.prev(e) as usize, self.next(e) as usize];
        if self.face(t) != 0 {
            left.push(self.next(t) as usize).push(self.prev(t) as usize)
        } else {
            left
        }
    }

    /// Putting a vertex on an edge keeps a mesh of triangles one. It adds one
    /// vertex, and three edges and two faces where the edge lies between two
    /// triangles, two edges and one face where it lies on the hull.
    #[verifier::spinoff_prover]
    pub proof fn lemma_insert_on_edge(self, e: int)
        requires
            self.wf(),
            self.triangles_except(0),
            self.valid_edge(e),
            self.face(e) != 0,
            self.face(e) != self.face(twin_index(e)),
        ensures
            ({
                let n = self.num_half_edges();
                let v = self.num_vertices();
                let t = twin_index(e);
                let inner = self.face(t) != 0;
                let m1 = self.insert_vertex();
                let m2 = m1.split_edge(e, v);
                let m3 = m2.create_face(e, self.prev(e));
                let m4 = self.insert_on_edge(e);
                &&& self.valid_edge(t)
                &&& self.valid_edge(self.prev(e)) && self.valid_edge(self.next(e))
                &&& self.valid_edge(self.prev(t)) && self.valid_edge(self.next(t))
                &&& m1.wf() && m2.wf() && m3.wf() && m4.wf()
                &&& m1.can_split_edge(e, v)
                &&& m2.can_create_face(e, self.prev(e))
                &&& inner ==> m3.can_create_face(n + 1, self.prev(t))
                &&& m4.triangles_except(0)
                &&& m4.num_vertices() == v + 1
                &&& m4.num_half_edges() == (if inner {
                    n + 6
                } else {
                    n + 4
                })
                &&& m4.num_faces() == (if inner {
                    self.num_faces() + 2
                } else {
                    self.num_faces() + 1
                })
            }),
    {
        let n = self.num_half_edges();
        let v = self.num_vertices();
        let t = twin_index(e);
        let fe = self.face(e);
        let ft = self.face(t);
        assert(self.edge_ok(e));
        assert(self.edge_ok(t));
        assert(self.faces[fe].len == 3);
        self.lemma_triangle(e);
        let en = self.next(e);
        let ep = self.prev(e);
        let tn = self.next(t);
        let tp = self.prev(t);
        assert(self.edge_ok(tn));
        assert(self.edge_ok(tp));
        let m1 = self.insert_vertex();
        self.lemma_insert_vertex_wf();
        let m2 = m1.split_edge(e, v);
        m1.lemma_split_edge_wf(e, v);
        assert(m1.edge_ok(e));
        assert(m1.edge_ok(ep));
        assert(m1.edge_ok(en));
        assert(m1.positions_differ(e, ep));
        assert(m2.face(e) == fe);
        assert(m2.face(ep) == fe);
        assert(m2.next(ep) == e);
        assert(m2.next(e) == n);
        assert(m2.faces[fe].len == 4);
        m2.lemma_next_distance(ep);
        let m3 = m2.create_face(e, ep);
        m2.lemma_create_face_wf(e, ep);
        assert(m3.faces[m2.num_faces()].len == 3);
        assert(m3.faces[fe].len == 3);
        if ft != 0 {
            assert(self.faces[ft].len == 3);
            self.lemma_triangle(t);
            assert(m1.edge_ok(t));
            assert(m1.edge_ok(tp));
            assert(m1.edge_ok(tn));
            assert(m2.face(n + 1) == ft);
            assert(m2.face(tp) == ft);
            assert(m2.next(tp) == n + 1);
            assert(m2.faces[ft].len == 4);
            assert(m2.edge_ok(tp));
            assert(m2.edge_ok(n + 1));
            assert(m3.face(n + 1) == ft);
            assert(m3.face(tp) == ft);
            assert(m3.next(tp) == n + 1);
            assert(m3.next(n + 1) == t);
            assert(m3.faces[ft].len == 4);
            m3.lemma_next_distance(tp);
            let m4 = m3.create_face(n + 1, tp);
            m3.lemma_create_face_wf(n + 1, tp);
            assert(m4.faces[m3.num_faces()].len == 3);
            assert(m4.faces[ft].len == 3);
            assert forall|g: int| 1 <= g < m4.faces.len() && g != 0 implies (
            #[trigger] m4.faces[g]).len == 3 by {
                if g < self.num_faces() && g != fe && g != ft {
                    assert(self.faces[g].len == 3);
                    assert(m2.faces[g] == self.faces[g]);
                    assert(m3.faces[g] == m2.faces[g]);
                    assert(m4.faces[g] == m3.faces[g]);
                } else if g == fe {
                    assert(m4.faces[g] == m3.faces[g]);
                }
            }
        } else {
            assert forall|g: int| 1 <= g < m3.faces.len() && g != 0 implies (
            #[trigger] m3.faces[g]).len == 3 by {
                if g < self.num_faces() && g != fe {
                    assert(self.faces[g].len == 3);
                    assert(m2.faces[g] == self.faces[g]);
                    assert(m3.faces[g] == m2.faces[g]);
                }
            }
        }
    }
}


/// Joining a vertex to a chain of hull edges.
impl Mesh {
    /// The half-edges of `chain` lie on the outer face, each is the
    /// predecessor of the one before it in the chain, and none occurs twice.
    pub open spec fn hull_chain(self, chain: Seq<usize>) -> bool {
        &&& chain.len() >= 1
        &&& forall|i: int|
            0 <= i < chain.len() ==> self.valid_edge(#[trigger] chain[i] as int) && self.face(
                chain[i] as int,
            ) == 0
        &&& forall|i: int|
            0 <= i < chain.len() - 1 ==> self.prev(#[trigger] chain[i] as int) == chain[i + 1]
        &&& forall|i: int, j: int|
            0 <= i < chain.len() && 0 <= j < chain.len() && i != j ==> #[trigger] chain[i]
                != #[trigger] chain[j]
    }

    /// The mesh after the face between the half-edge `last` and each
    /// half-edge of `chain` from index `i` on has been closed, one after the
    /// other. After each step, `last` is the twin of the half-edge that was
    /// laid.
    pub open spec fn close_fan(self, chain: Seq<usize>, i: int, last: int) -> Mesh
        decreases chain.len() - i,
    {
        if i < 0 || i >= chain.len() {
            self
        } else {
            self.create_face(last, chain[i] as int).close_fan(
                chain,
                i + 1,
                self.num_half_edges() + 1,
            )
        }
    }

    /// The mesh after the isolated vertex `v` has been joined to both ends of
    /// every half-edge of `chain`: a triangle stands on each of them.
    pub open spec fn attach_fan(self, chain: Seq<usize>, v: int) -> Mesh {
        self.connect_edge_to_isolated_vertex(chain[0] as int, v).close_fan(
            chain,
            0,
            self.num_half_edges(),
        )
    }

    /// What holds before the step `i` of `close_fan`, where `limit` is the
    /// number of half-edges before the vertex was attached.
    pub open spec fn fan_state(self, chain: Seq<usize>, i: int, last: int, limit: int) -> bool {
        &&& self.wf()
        &&& self.triangles_except(0)
        &&& 0 <= i <= chain.len()
        &&& limit + 2 <= self.num_half_edges()
        &&& self.valid_edge(last)
        &&& last >= limit
        &&& self.face(last) == 0
        &&& self.next(last) == limit + 1
        &&& forall|j: int|
            i <= j < chain.len() ==> (#[trigger] chain[j]) < limit && self.face(chain[j] as int)
                == 0
        &&& forall|j: int|
            i <= j < chain.len() - 1 ==> self.prev(#[trigger] chain[j] as int) == chain[j + 1]
        &&& forall|j: int, l: int|
            0 <= j < chain.len() && 0 <= l < chain.len() && j != l ==> #[trigger] chain[j]
                != #[trigger] chain[l]
        &&& i < chain.len() ==> self.next(chain[i] as int) == last
    }

    /// One step of `close_fan`: the face between `last` and the half-edge
    /// `chain[i]` is a triangle, and the state for the next step holds.
    #[verifier::spinoff_prover]
    pub proof fn lemma_close_fan_step(self, chain: Seq<usize>, i: int, last: int, limit: int)
        requires
            self.fan_state(chain, i, last, limit),
            i < chain.len(),
        ensures
            self.can_create_face(last, chain[i] as int),
            self.create_face(last, chain[i] as int).fan_state(
                chain,
                i + 1,
                self.num_half_edges() + 1,
                limit,
            ),
            self.create_face(last, chain[i] as int).num_vertices() == self.num_vertices(),
            self.create_face(last, chain[i] as int).num_faces() == self.num_faces() + 1,
            self.create_face(last, chain[i] as int).num_half_edges() == self.num_half_edges() + 2,
    {
        let nx = chain[i] as int;
        let n = self.num_half_edges();
        assert(self.edge_ok(last));
        assert(self.edge_ok(nx));
        assert(self.edge_ok(self.prev(nx)));
        assert(self.edge_ok(limit + 1));
        self.lemma_next_distance(nx);
        let m = self.create_face(last, nx);
        self.lemma_create_face_wf(last, nx);
        assert(m.faces[self.num_faces()].len == 3);
        assert forall|g: int| 1 <= g < m.faces.len() && g != 0 implies (#[trigger] m.faces[g]).len
            == 3 by {
            if g < self.num_faces() {
                assert(self.faces[g].len == 3);
            }
        }
        assert(m.edge_ok(n));
        assert(m.edge_ok(nx));
        assert(m.edge_ok(last));
        assert(m.face(n) == self.num_faces());
        assert(m.next(n) == nx);
        assert(m.face(nx) == self.num_faces());
        assert(m.face(last) == self.num_faces());
        assert(m.prev(n) == last);
        assert forall|j: int| i + 1 <= j < chain.len() implies (#[trigger] chain[j]) < limit
            && m.face(chain[j] as int) == 0 by {
            let c = chain[j] as int;
            assert(chain[j] != chain[i]);
            assert(self.edge_ok(c));
            assert(m.edge_ok(c));
            if m.face(c) != 0 {
                assert(m.face(c) == self.num_faces());
                m.lemma_triangle_edges(n, c);
            }
        }
        assert forall|j: int| i + 1 <= j < chain.len() - 1 implies m.prev(
            #[trigger] chain[j] as int,
        ) == chain[j + 1] by {
            assert(chain[j] != chain[i]);
        }
        assert(m.face(n + 1) == 0);
        if i + 1 < chain.len() {
            assert(self.prev(chain[i] as int) == chain[i + 1]);
            assert(chain[i + 1] != chain[i]);
        }
    }

    /// Closing the fan keeps a mesh of triangles one and adds one face and one
    /// edge for every half-edge of the chain that is left.
    pub proof fn lemma_close_fan(self, chain: Seq<usize>, i: int, last: int, limit: int)
        requires
            self.fan_state(chain, i, last, limit),
        ensures
            self.close_fan(chain, i, last).wf(),
            self.close_fan(chain, i, last).triangles_except(0),
            self.close_fan(chain, i, last).num_vertices() == self.num_vertices(),
            self.close_fan(chain, i, last).num_faces() == self.num_faces() + chain.len() - i,
            self.close_fan(chain, i, last).num_half_edges() == self.num_half_edges() + 2 * (
            chain.len() - i),
        decreases chain.len() - i,
    {
        if i < chain.len() {
            self.lemma_close_fan_step(chain, i, last, limit);
            self.create_face(last, chain[i] as int).lemma_close_fan(
                chain,
                i + 1,
                self.num_half_edges() + 1,
                limit,
            );
        }
    }

    /// After the vertex has been joined to the end of the first half-edge of
    /// the chain, the state for the first step of `close_fan` holds.
    #[verifier::spinoff_prover]
    pub proof fn lemma_attach_fan_start(self, chain: Seq<usize>, v: int)
        requires
            self.wf(),
            self.triangles_except(0),
            self.hull_chain(chain),
            self.valid_vertex(v),
            self.vertices[v].out_edge.is_none(),
        ensures
            self.connect_edge_to_isolated_vertex(chain[0] as int, v).fan_state(
                chain,
                0,
                self.num_half_edges(),
                self.num_half_edges(),
            ),
            self.connect_edge_to_isolated_vertex(chain[0] as int, v).num_vertices()
                == self.num_vertices(),
            self.connect_edge_to_isolated_vertex(chain[0] as int, v).num_faces()
                == self.num_faces(),
            self.connect_edge_to_isolated_vertex(chain[0] as int, v).num_half_edges()
                == self.num_half_edges() + 2,
    {
        let c0 = chain[0] as int;
        let m = self.connect_edge_to_isolated_vertex(c0, v);
        self.lemma_connect_edge_to_isolated_vertex_wf(c0, v);
        assert(self.edge_ok(c0));
        assert(self.edge_ok(self.next(c0)));
        assert(m.vertices.len() == self.vertices.len());
        assert forall|g: int| 1 <= g < m.faces.len() && g != 0 implies (#[trigger] m.faces[g]).len
            == 3 by {
            assert(self.faces[g].len == 3);
        }
        assert forall|j: int| 0 <= j < chain.len() - 1 implies m.prev(#[trigger] chain[j] as int)
            == chain[j + 1] by {
            let c = chain[j] as int;
            assert(self.edge_ok(c));
            assert(self.prev(c) == chain[j + 1]);
            if c == self.next(c0) {
                assert(self.prev(c) == c0);
                assert(chain[j + 1] == chain[0]);
            }
        }
    }

    /// Joining a vertex to a chain of hull edges keeps a mesh of triangles
    /// one and adds one face for every half-edge of the chain and one edge
    /// more than that.
    pub proof fn lemma_attach_fan(self, chain: Seq<usize>, v: int)
        requires
            self.wf(),
            self.triangles_except(0),
            self.hull_chain(chain),
            self.valid_vertex(v),
            self.vertices[v].out_edge.is_none(),
        ensures
            self.attach_fan(chain, v).wf(),
            self.attach_fan(chain, v).triangles_except(0),
            self.attach_fan(chain, v).num_vertices() == self.num_vertices(),
            self.attach_fan(chain, v).num_faces() == self.num_faces() + chain.len(),
            self.attach_fan(chain, v).num_half_edges() == self.num_half_edges() + 2 + 2
                * chain.len(),
    {
        self.lemma_attach_fan_start(chain, v);
        self.connect_edge_to_isolated_vertex(chain[0] as int, v).lemma_close_fan(
            chain,
            0,
            self.num_half_edges(),
            self.num_half_edges(),
        );
    }
}


/// The half-edge of the face `f` at the position `k` of its cycle, counted
/// from the half-edge that the face names.
pub open spec fn cycle_edge(m: Mesh, f: int, k: nat) -> int
    decreases k,
{
    if k == 0 {
        m.faces[f].edge.unwrap()
    } else {
        m.next(cycle_edge(m, f, (k - 1) as nat))
    }
}

/// The first `k` half-edges of the cycle of a face are different half-edges
/// of that face, for `k` up to the length of the cycle.
pub proof fn lemma_cycle_edges(m: Mesh, f: int, k: nat)
    requires
        m.wf(),
        m.valid_face(f),
        k < m.faces[f].len,
    ensures
        m.valid_edge(cycle_edge(m, f, k)),
        m.face(cycle_edge(m, f, k)) == f,
        cyclic_distance(
            m.half_edges[m.faces[f].edge.unwrap()].fpos,
            m.half_edges[cycle_edge(m, f, k)].fpos,
            m.faces[f].len,
        ) == k,
    decreases k,
{
    assert(m.face_ok(f));
    let start = m.faces[f].edge.unwrap();
    assert(m.edge_ok(start));
    if k > 0 {
        lemma_cycle_edges(m, f, (k - 1) as nat);
        let e = cycle_edge(m, f, (k - 1) as nat);
        assert(m.edge_ok(e));
        assert(m.edge_ok(m.next(e)));
    }
}

/// A face has at most as many half-edges as the mesh.
pub proof fn lemma_face_length_bound(m: Mesh, f: int)
    requires
        m.wf(),
        m.valid_face(f),
    ensures
        m.faces[f].len <= m.num_half_edges(),
{
    assert(m.face_ok(f));
    let len = m.faces[f].len;
    if len > m.num_half_edges() {
        let n = m.num_half_edges();
        let s = Seq::new((n + 1) as nat, |k: int| cycle_edge(m, f, k as nat));
        assert forall|i: int, j: int| 0 <= i < s.len() && 0 <= j < s.len() && i != j implies s[i]
            != s[j] by {
            lemma_cycle_edges(m, f, i as nat);
            lemma_cycle_edges(m, f, j as nat);
        }
        assert(s.no_duplicates());
        s.unique_seq_to_set();
        vstd::set_lib::lemma_int_range(0, n);
        assert(s.to_set().subset_of(vstd::set_lib::set_int_range(0, n))) by {
            assert forall|x: int| s.to_set().contains(x) implies vstd::set_lib::set_int_range(
                0,
                n,
            ).contains(x) by {
                let i = choose|i: int| 0 <= i < s.len() && s[i] == x;
                lemma_cycle_edges(m, f, i as nat);
            }
        }
        vstd::set_lib::lemma_len_subset(s.to_set(), vstd::set_lib::set_int_range(0, n));
    }
}


/// Building the first triangles from points on a line.
impl Mesh {
    /// `order` names every vertex of the mesh once.
    pub open spec fn vertex_order(self, order: Seq<usize>) -> bool {
        &&& order.len() == self.num_vertices()
        &&& forall|i: int| 0 <= i < order.len() ==> (#[trigger] order[i]) < self.num_vertices()
        &&& forall|i: int, j: int|
            0 <= i < order.len() && 0 <= j < order.len() && i != j ==> #[trigger] order[i]
                != #[trigger] order[j]
    }

    /// The mesh after the vertices `order[0]` to `order[k]` have been joined
    /// into a chain, each to the one before. The half-edge `2 * j` runs from
    /// `order[j]` to `order[j + 1]`.
    pub open spec fn build_chain(self, order: Seq<usize>, k: nat) -> Mesh
        decreases k,
    {
        if k == 0 {
            self
        } else if k == 1 {
            self.connect_two_isolated_vertices(order[0] as int, order[1] as int, 0)
        } else {
            self.build_chain(order, (k - 1) as nat).connect_edge_to_isolated_vertex(
                2 * (k - 2),
                order[k as int] as int,
            )
        }
    }

    /// What holds of a chain of `k` edges through the first vertices of
    /// `order`, in a mesh with the outer face alone.
    pub open spec fn chain_state(self, order: Seq<usize>, k: int) -> bool {
        &&& self.wf()
        &&& self.num_faces() == 1
        &&& self.vertex_order(order)
        &&& 1 <= k < order.len()
        &&& self.num_half_edges() == 2 * k
        &&& forall|i: int|
            k + 1 <= i < order.len() ==> self.vertices[#[trigger] order[i] as int].out_edge.is_none()
        &&& forall|j: int| 1 <= j < k ==> #[trigger] self.prev(2 * j) == 2 * j - 2
        &&& forall|j: int| 0 <= j < k - 1 ==> #[trigger] self.prev(2 * j + 1) == 2 * j + 3
        &&& self.next(2 * (k - 1)) == 2 * (k - 1) + 1
        &&& forall|j: int| 0 <= j < k ==> #[trigger] self.chain_edge_ok(order, j)
    }

    /// The edge `j` of the chain runs from `order[j]` to `order[j + 1]`.
    pub open spec fn chain_edge_ok(self, order: Seq<usize>, j: int) -> bool {
        self.origin(2 * j) == order[j] && self.origin(2 * j + 1) == order[j + 1]
    }

    /// In a well-formed mesh without half-edges every vertex is isolated and
    /// the outer face has no edge.
    pub proof fn lemma_no_edges(self)
        requires
            self.wf(),
            self.num_half_edges() == 0,
        ensures
            forall|v: int| 0 <= v < self.num_vertices() ==> (#[trigger] self.vertices[v]).out_edge.is_none(),
            forall|f: int| 0 <= f < self.num_faces() ==> (#[trigger] self.faces[f]).edge.is_none(),
    {
        assert forall|v: int| 0 <= v < self.num_vertices() implies (
        #[trigger] self.vertices[v]).out_edge.is_none() by {
            assert(self.vertex_ok(v));
        }
        assert forall|f: int| 0 <= f < self.num_faces() implies (
        #[trigger] self.faces[f]).edge.is_none() by {
            assert(self.face_ok(f));
        }
    }

    /// The first edge of the chain.
    #[verifier::spinoff_prover]
    pub proof fn lemma_chain_start(self, order: Seq<usize>)
        requires
            self.wf(),
            self.num_half_edges() == 0,
            self.num_faces() == 1,
            self.vertex_order(order),
            order.len() >= 2,
        ensures
            self.build_chain(order, 1).chain_state(order, 1),
            self.build_chain(order, 1).num_vertices() == self.num_vertices(),
    {
        self.lemma_no_edges();
        let v0 = order[0] as int;
        let v1 = order[1] as int;
        assert(order[0] != order[1]);
        self.lemma_connect_two_isolated_vertices_wf(v0, v1, 0);
        let m = self.build_chain(order, 1);
        assert forall|i: int| 2 <= i < order.len() implies m.vertices[#[trigger] order[i] as int].out_edge.is_none() by {
            assert(order[i] != order[0]);
            assert(order[i] != order[1]);
        }
    }

    /// One more edge of the chain.
    #[verifier::spinoff_prover]
    pub proof fn lemma_chain_step(self, order: Seq<usize>, k: int)
        requires
            self.chain_state(order, k),
            k + 1 < order.len(),
        ensures
            self.valid_edge(2 * (k - 1)),
            self.valid_vertex(order[k + 1] as int),
            self.vertices[order[k + 1] as int].out_edge.is_none(),
            self.connect_edge_to_isolated_vertex(2 * (k - 1), order[k + 1] as int).chain_state(
                order,
                k + 1,
            ),
            self.connect_edge_to_isolated_vertex(2 * (k - 1), order[k + 1] as int).num_vertices()
                == self.num_vertices(),
    {
        let p = 2 * (k - 1);
        let v = order[k + 1] as int;
        let m = self.connect_edge_to_isolated_vertex(p, v);
        self.lemma_connect_edge_to_isolated_vertex_wf(p, v);
        assert(self.edge_ok(p));
        assert(self.edge_ok(p + 1));
        assert(m.vertices.len() == self.vertices.len());
        assert forall|i: int| k + 2 <= i < order.len() implies m.vertices[#[trigger] order[i] as int].out_edge.is_none() by {
            assert(order[i] != order[k + 1]);
            assert(self.vertices[order[i] as int].out_edge.is_none());
            self.lemma_isolated_vertex(order[i] as int, self.next(p));
        }
        assert forall|j: int| 1 <= j < k + 1 implies #[trigger] m.prev(2 * j) == 2 * j - 2 by {
            if j < k {
                assert(self.prev(2 * j) == 2 * j - 2);
            }
        }
        assert forall|j: int| 0 <= j < k implies #[trigger] m.prev(2 * j + 1) == 2 * j + 3 by {
            if j < k - 1 {
                assert(self.prev(2 * j + 1) == 2 * j + 3);
            }
        }
        assert forall|j: int| 0 <= j < k + 1 implies #[trigger] m.chain_edge_ok(order, j) by {
            if j < k {
                assert(self.chain_edge_ok(order, j));
            } else {
                assert(self.chain_edge_ok(order, k - 1));
            }
        }
    }

    /// The half-edges of a chain of `k` edges, in the order in which a
    /// vertex on the left of the chain is joined to them.
    pub open spec fn chain_left(k: int) -> Seq<usize> {
        Seq::new(k as nat, |i: int| (2 * (k - 1 - i)) as usize)
    }

    /// The half-edges of a chain of `k` edges, in the order in which a
    /// vertex on the right of the chain is joined to them.
    pub open spec fn chain_right(k: int) -> Seq<usize> {
        Seq::new(k as nat, |i: int| (2 * i + 1) as usize)
    }

    /// Both sides of a complete chain are chains of hull edges.
    pub proof fn lemma_chain_is_hull(self, order: Seq<usize>, k: int)
        requires
            self.chain_state(order, k),
            2 * k <= usize::MAX,
        ensures
            self.hull_chain(Self::chain_left(k)),
            self.hull_chain(Self::chain_right(k)),
            self.triangles_except(0),
    {
        let left = Self::chain_left(k);
        let right = Self::chain_right(k);
        assert forall|i: int| 0 <= i < left.len() implies self.valid_edge(#[trigger] left[i] as int)
            && self.face(left[i] as int) == 0 by {
            assert(self.edge_ok(2 * (k - 1 - i)));
        }
        assert forall|i: int| 0 <= i < left.len() - 1 implies self.prev(#[trigger] left[i] as int)
            == left[i + 1] by {
            let j = k - 1 - i;
            assert(self.prev(2 * j) == 2 * j - 2);
        }
        assert forall|i: int| 0 <= i < right.len() implies self.valid_edge(
            #[trigger] right[i] as int,
        ) && self.face(right[i] as int) == 0 by {
            assert(self.edge_ok(2 * i + 1));
        }
        assert forall|i: int| 0 <= i < right.len() - 1 implies self.prev(#[trigger] right[i] as int)
            == right[i + 1] by {
            assert(self.prev(2 * i + 1) == 2 * i + 3);
        }
    }
}


impl Mesh {
    /// Joining a new vertex to either side of a complete chain gives a mesh
    /// of triangles with one triangle for every edge of the chain.
    #[verifier::spinoff_prover]
    pub proof fn lemma_chain_fan(self, order: Seq<usize>, k: int, left: bool)
        requires
            self.chain_state(order, k),
            2 * k <= usize::MAX,
        ensures
            ({
                let list = if left {
                    Self::chain_left(k)
                } else {
                    Self::chain_right(k)
                };
                let m1 = self.insert_vertex();
                let v = self.num_vertices();
                let m2 = m1.attach_fan(list, v);
                &&& list.len() == k
                &&& m1.wf()
                &&& m1.triangles_except(0)
                &&& m1.hull_chain(list)
                &&& m1.valid_vertex(v)
                &&& m1.vertices[v].out_edge.is_none()
                &&& m1.num_half_edges() == 2 * k
                &&& m2.wf()
                &&& m2.triangles_except(0)
                &&& m2.num_vertices() == v + 1
                &&& m2.num_faces() == 1 + k
                &&& m2.num_half_edges() == 4 * k + 2
            }),
    {
        let list = if left {
            Self::chain_left(k)
        } else {
            Self::chain_right(k)
        };
        self.lemma_chain_is_hull(order, k);
        self.lemma_insert_vertex_wf();
        let m1 = self.insert_vertex();
        assert(m1.half_edges == self.half_edges);
        assert(m1.faces == self.faces);
        assert(m1.hull_chain(list));
        m1.lemma_attach_fan(list, self.num_vertices());
    }
}


/// The cycle of a face closes: the successor of its last half-edge is the
/// half-edge that the face names, and no half-edge before is.
pub proof fn lemma_cycle_closes(m: Mesh, f: int)
    requires
        m.wf(),
        m.valid_face(f),
        m.faces[f].edge.is_some(),
    ensures
        cycle_edge(m, f, m.faces[f].len as nat) == m.faces[f].edge.unwrap(),
        forall|k: nat|
            0 < k < m.faces[f].len ==> #[trigger] cycle_edge(m, f, k) != m.faces[f].edge.unwrap(),
{
    assert(m.face_ok(f));
    let len = m.faces[f].len;
    let start = m.faces[f].edge.unwrap();
    assert(m.edge_ok(start));
    lemma_cycle_edges(m, f, (len - 1) as nat);
    let last = cycle_edge(m, f, (len - 1) as nat);
    assert(m.edge_ok(last));
    let e = m.next(last);
    assert(m.edge_ok(e));
    if e != start {
        assert(m.positions_differ(e, start));
    }
    assert forall|k: nat| 0 < k < len implies #[trigger] cycle_edge(m, f, k) != start by {
        lemma_cycle_edges(m, f, k);
    }
}


/// The shape of the mesh after an insertion.
impl Mesh {
    /// The half-edge `e` sees the same triangle in `r` as in `self`, or the
    /// outer face in both.
    pub open spec fn same_triangle(self, r: Mesh, e: int) -> bool {
        &&& r.face(e) == 0 <==> self.face(e) == 0
        &&& r.origin(e) == self.origin(e)
        &&& r.target(e) == self.target(e)
        &&& r.apex(e) == self.apex(e)
    }

    /// After a vertex has been put into a triangle, each of the three
    /// half-edges of the triangle lies in a triangle of its own opposite to
    /// the new vertex, every new half-edge lies in one of these triangles,
    /// and every other half-edge sees the triangle that it saw before.
    #[verifier::spinoff_prover]
    pub proof fn lemma_insert_into_triangle_shape(self, f: int)
        requires
            self.wf(),
            self.triangles_except(0),
            1 <= f < self.num_faces(),
        ensures
            ({
                let n = self.num_half_edges();
                let v = self.num_vertices();
                let e1 = self.faces[f].edge.unwrap();
                let e0 = self.prev(e1);
                let e2 = self.next(e1);
                let r = self.insert_into_triangle(f);
                &&& r.valid_edge(e0) && r.valid_edge(e1) && r.valid_edge(e2)
                &&& r.face(e0) != 0 && r.face(e1) != 0 && r.face(e2) != 0
                &&& r.faces[r.face(e0)].len == 3 && r.faces[r.face(e1)].len == 3
                    && r.faces[r.face(e2)].len == 3
                &&& r.origin(e0) == self.origin(e0) && r.target(e0) == self.target(e0)
                &&& r.origin(e1) == self.origin(e1) && r.target(e1) == self.target(e1)
                &&& r.origin(e2) == self.origin(e2) && r.target(e2) == self.target(e2)
                &&& r.apex(e0) == v && r.apex(e1) == v && r.apex(e2) == v
                &&& r.next(e0) == n + 2 && r.prev(e0) == n + 1
                &&& r.next(e1) == n + 4 && r.prev(e1) == n + 3
                &&& r.next(e2) == n && r.prev(e2) == n + 5
                &&& forall|i: int|
                    0 <= i < n && i != e0 && i != e1 && i != e2 ==> #[trigger] self.same_triangle(
                        r,
                        i,
                    )
            }),
    {
        let n = self.num_half_edges();
        let v = self.num_vertices();
        let e1 = self.faces[f].edge.unwrap();
        let e0 = self.prev(e1);
        let e2 = self.next(e1);
        let m1 = self.insert_vertex();
        let m2 = m1.connect_edge_to_isolated_vertex(e2, v);
        let m3 = m2.create_face(e0, n + 1);
        let m4 = m3.create_face(e1, n + 3);
        self.lemma_insert_into_triangle(f);
        assert(self.face_ok(f));
        self.lemma_triangle(e1);
        assert(self.edge_ok(e0));
        assert(self.edge_ok(e1));
        assert(self.edge_ok(e2));
        assert(self.edge_ok(twin_index(e0)));
        assert(self.edge_ok(twin_index(e1)));
        assert(self.edge_ok(twin_index(e2)));
        assert(m2.edge_ok(e0));
        assert(m2.edge_ok(e1));
        assert(m2.edge_ok(e2));
        assert(m2.edge_ok(n));
        assert(m2.edge_ok(n + 1));
        assert(m3.edge_ok(e0));
        assert(m3.edge_ok(e1));
        assert(m3.edge_ok(e2));
        assert(m3.edge_ok(n));
        assert(m3.edge_ok(n + 1));
        assert(m3.edge_ok(n + 2));
        assert(m3.edge_ok(n + 3));
        assert(m4.edge_ok(e0));
        assert(m4.edge_ok(e1));
        assert(m4.edge_ok(e2));
        assert(m2.next(e2) == n && m2.prev(e0) == n + 1);
        assert(m3.next(e0) == n + 2 && m3.prev(e1) == n + 3 && m3.next(n) == n + 3);
        assert(m3.prev(e0) == n + 1);
        assert(m4.next(e1) == n + 4 && m4.prev(e2) == n + 5);
        assert(m4.next(e0) == n + 2 && m4.prev(e0) == n + 1);
        assert(m4.prev(e1) == n + 3);
        assert(m4.next(e2) == n);
        assert(m4.origin(n + 1) == v && m4.origin(n + 3) == v && m4.origin(n + 5) == v);
        assert(m4.faces[m4.face(e0)].len == 3);
        assert(m4.faces[m4.face(e1)].len == 3);
        assert(m4.faces[m4.face(e2)].len == 3);
        assert forall|i: int| 0 <= i < n && i != e0 && i != e1 && i != e2 implies #[trigger] self.same_triangle(
            m4,
            i,
        ) by {
            assert(self.edge_ok(i));
            assert(self.edge_ok(twin_index(i)));
            assert(self.edge_ok(self.prev(i)));
            if self.face(i) == f {
                self.lemma_triangle_edges(e1, i);
            }
            assert(m1.edge_ok(i));
            assert(m2.edge_ok(i));
            assert(m3.edge_ok(i));
            assert(m2.face(i) == self.face(i));
            assert(m3.face(i) == self.face(i));
            assert(m4.face(i) == self.face(i));
            assert(m4.prev(i) == self.prev(i));
            assert(m4.origin(self.prev(i)) == self.origin(self.prev(i)));
        }
    }

    /// After a vertex has been put on an edge, each of the other half-edges
    /// of the triangles on both sides lies in a triangle of its own opposite
    /// to the new vertex, every new half-edge and both halves of the split
    /// edge lie in one of these triangles or on the hull, and every other
    /// half-edge sees the triangle that it saw before.
    #[verifier::spinoff_prover]
    #[verifier::rlimit(60)]
    pub proof fn lemma_insert_on_edge_shape(self, e: int)
        requires
            self.wf(),
            self.triangles_except(0),
            self.valid_edge(e),
            self.face(e) != 0,
            self.face(e) != self.face(twin_index(e)),
        ensures
            ({
                let n = self.num_half_edges();
                let v = self.num_vertices();
                let t = twin_index(e);
                let en = self.next(e);
                let ep = self.prev(e);
                let tn = self.next(t);
                let tp = self.prev(t);
                let inner = self.face(t) != 0;
                let r = self.insert_on_edge(e);
                &&& r.valid_edge(en) && r.valid_edge(ep)
                &&& r.face(en) != 0 && r.face(ep) != 0
                &&& r.faces[r.face(en)].len == 3 && r.faces[r.face(ep)].len == 3
                &&& r.origin(en) == self.origin(en) && r.target(en) == self.target(en)
                &&& r.origin(ep) == self.origin(ep) && r.target(ep) == self.target(ep)
                &&& r.apex(en) == v && r.apex(ep) == v
                &&& r.next(ep) == e && r.prev(ep) == n + 2
                &&& r.next(en) == n + 3 && r.prev(en) == n
                &&& inner ==> {
                    &&& r.valid_edge(tn) && r.valid_edge(tp)
                    &&& r.face(tn) != 0 && r.face(tp) != 0
                    &&& r.faces[r.face(tn)].len == 3 && r.faces[r.face(tp)].len == 3
                    &&& r.origin(tn) == self.origin(tn) && r.target(tn) == self.target(tn)
                    &&& r.origin(tp) == self.origin(tp) && r.target(tp) == self.target(tp)
                    &&& r.apex(tn) == v && r.apex(tp) == v
                    &&& r.next(tn) == n + 5 && r.prev(tn) == t
                    &&& r.next(tp) == n + 1 && r.prev(tp) == n + 4
                }
                &&& !inner ==> r.face(t) == 0 && r.face(n + 1) == 0 && r.face(tn) == 0 && r.face(
                    tp,
                ) == 0 && r.num_half_edges() == n + 4
                &&& forall|i: int|
                    0 <= i < n && i != e && i != en && i != ep && i != t && i != tn && i != tp
                        ==> #[trigger] self.same_triangle(r, i)
            }),
    {
        let n = self.num_half_edges();
        let v = self.num_vertices();
        let t = twin_index(e);
        let en = self.next(e);
        let ep = self.prev(e);
        let tn = self.next(t);
        let tp = self.prev(t);
        let fe = self.face(e);
        let ft = self.face(t);
        let m1 = self.insert_vertex();
        let m2 = m1.split_edge(e, v);
        let m3 = m2.create_face(e, ep);
        let m4 = self.insert_on_edge(e);
        self.lemma_insert_on_edge(e);
        assert(self.edge_ok(e));
        assert(self.edge_ok(t));
        assert(self.faces[fe].len == 3);
        self.lemma_triangle(e);
        assert(self.edge_ok(en));
        assert(self.edge_ok(ep));
        assert(self.edge_ok(tn));
        assert(self.edge_ok(tp));
        assert(self.edge_ok(twin_index(en)));
        assert(self.edge_ok(twin_index(ep)));
        assert(self.edge_ok(twin_index(tn)));
        assert(self.edge_ok(twin_index(tp)));
        assert(m2.edge_ok(e));
        assert(m2.edge_ok(t));
        assert(m2.edge_ok(en));
        assert(m2.edge_ok(ep));
        assert(m2.edge_ok(n));
        assert(m2.edge_ok(n + 1));
        assert(m3.edge_ok(e));
        assert(m3.edge_ok(t));
        assert(m3.edge_ok(ep));
        assert(m3.edge_ok(en));
        assert(m3.edge_ok(n));
        assert(m3.edge_ok(n + 1));
        assert(m3.edge_ok(n + 2));
        assert(m3.edge_ok(n + 3));
        assert(m2.next(e) == n && m2.prev(en) == n && m2.prev(t) == n + 1 && m2.origin(t) == v);
        assert(m3.prev(ep) == n + 2 && m3.origin(n + 2) == v);
        assert(m3.prev(en) == n && m3.origin(n) == v);
        assert(m3.next(ep) == e && m3.next(en) == n + 3);
        assert(m3.faces[m3.face(ep)].len == 3);
        assert(m3.faces[m3.face(en)].len == 3);
        if ft == 0 {
            assert(m1.edge_ok(tn));
            assert(m1.edge_ok(tp));
            assert(m2.edge_ok(tn));
            assert(m2.edge_ok(tp));
            assert(m2.face(tn) == 0);
            assert(m2.face(tp) == 0);
            assert(m3.face(tn) == 0);
            assert(m3.face(tp) == 0);
        }
        if ft != 0 {
            assert(self.faces[ft].len == 3);
            self.lemma_triangle(t);
            assert(m2.edge_ok(tn));
            assert(m2.edge_ok(tp));
            assert(m3.edge_ok(tn));
            assert(m3.edge_ok(tp));
            assert(m4.edge_ok(e));
            assert(m4.edge_ok(t));
            assert(m4.edge_ok(en));
            assert(m4.edge_ok(ep));
            assert(m4.edge_ok(tn));
            assert(m4.edge_ok(tp));
            assert(m4.edge_ok(n + 1));
            assert(m4.edge_ok(n + 4));
            assert(m4.prev(tp) == n + 4 && m4.origin(n + 4) == v);
            assert(m4.prev(tn) == t && m4.origin(t) == v);
            assert(m4.next(tn) == n + 5 && m4.next(tp) == n + 1);
            assert(m4.faces[m4.face(tn)].len == 3);
            assert(m4.faces[m4.face(tp)].len == 3);
            assert(m4.faces[m4.face(ep)].len == 3);
            assert(m4.faces[m4.face(en)].len == 3);
        }
        assert forall|i: int|
            0 <= i < n && i != e && i != en && i != ep && i != t && i != tn && i
                != tp implies #[trigger] self.same_triangle(m4, i) by {
            assert(self.edge_ok(i));
            assert(self.edge_ok(twin_index(i)));
            assert(self.edge_ok(self.prev(i)));
            if self.face(i) == fe {
                self.lemma_triangle_edges(e, i);
            }
            if ft != 0 && self.face(i) == ft {
                self.lemma_triangle_edges(t, i);
            }
            assert(m1.edge_ok(i));
            assert(m2.edge_ok(i));
            assert(m3.edge_ok(i));
            assert(m2.prev(i) == self.prev(i));
            assert(m3.prev(i) == self.prev(i));
            assert(m4.prev(i) == self.prev(i));
            assert(m2.origin(self.prev(i)) == self.origin(self.prev(i)));
            assert(m4.origin(self.prev(i)) == self.origin(self.prev(i)));
        }
    }
}


impl Mesh {
    /// After one step of closing a fan, the half-edge of the chain lies in a
    /// triangle opposite to the end of `last`, and every other half-edge sees
    /// what it saw before.
    #[verifier::spinoff_prover]
    pub proof fn lemma_close_fan_step_shape(self, chain: Seq<usize>, i: int, last: int, limit: int)
        requires
            self.fan_state(chain, i, last, limit),
            i < chain.len(),
        ensures
            ({
                let c = chain[i] as int;
                let n = self.num_half_edges();
                let r = self.create_face(last, c);
                &&& r.wf()
                &&& r.num_half_edges() == n + 2
                &&& r.valid_edge(c) && r.valid_edge(last)
                &&& r.face(c) != 0
                &&& r.faces[r.face(c)].len == 3
                &&& r.origin(c) == self.origin(c) && r.target(c) == self.target(c)
                &&& r.apex(c) == self.target(last)
                &&& r.next(c) == last && r.prev(c) == n
                &&& r.face(n + 1) == 0
                &&& r.target(n + 1) == self.target(last)
                &&& r.face(limit + 1) == 0
                &&& forall|k: int|
                    0 <= k < n && k != c && k != last && k != limit + 1
                        ==> #[trigger] self.same_triangle(r, k)
                &&& forall|k: int|
                    0 <= k < limit && k != c ==> r.origin(k) == self.origin(k) && r.target(k)
                        == self.target(k) && #[trigger] r.apex(k) == self.apex(k)
            }),
    {
        let c = chain[i] as int;
        let n = self.num_half_edges();
        let r = self.create_face(last, c);
        self.lemma_close_fan_step(chain, i, last, limit);
        self.lemma_create_face_wf(last, c);
        self.lemma_next_distance(c);
        assert(self.edge_ok(last));
        assert(self.edge_ok(twin_index(last)));
        assert(self.edge_ok(c));
        assert(self.edge_ok(twin_index(c)));
        assert(self.edge_ok(limit + 1));
        assert(self.edge_ok(self.prev(c)));
        assert(r.edge_ok(n));
        assert(r.edge_ok(n + 1));
        assert(r.edge_ok(c));
        assert(r.edge_ok(last));
        assert(r.face(c) == self.num_faces());
        assert(r.face(limit + 1) == 0) by {
            assert(r.edge_ok(limit + 1));
            if r.face(limit + 1) != 0 {
                r.lemma_triangle_edges(n, limit + 1);
            }
        }
        assert forall|k: int|
            0 <= k < n && k != c && k != last && k != limit + 1 implies #[trigger] self.same_triangle(
            r,
            k,
        ) by {
            assert(self.edge_ok(k));
            assert(self.edge_ok(twin_index(k)));
            assert(self.edge_ok(self.prev(k)));
            assert(r.edge_ok(k));
            if self.face(k) == 0 {
                if r.face(k) != 0 {
                    r.lemma_triangle_edges(n, k);
                }
                assert(r.face(k) == 0);
            } else {
                assert(r.face(k) == self.face(k));
            }
            assert(r.origin(k) == self.origin(k));
            assert(r.target(k) == self.target(k));
            assert(r.prev(k) == self.prev(k));
            assert(r.origin(self.prev(k)) == self.origin(self.prev(k)));
        }
        assert forall|k: int| 0 <= k < limit && k != c implies r.origin(k) == self.origin(k)
            && r.target(k) == self.target(k) && #[trigger] r.apex(k) == self.apex(k) by {
            assert(self.edge_ok(k));
            assert(self.edge_ok(twin_index(k)));
            assert(self.edge_ok(self.prev(k)));
            assert(r.prev(k) == self.prev(k));
            assert(r.origin(self.prev(k)) == self.origin(self.prev(k)));
        }
    }
}

} // verus!
