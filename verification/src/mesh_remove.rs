//! How the removal of a vertex changes the model of a mesh of triangles, and
//! how the hole that it leaves is filled.
use vstd::prelude::*;
use crate::handles::twin_index;
use crate::math::{incircle_det, side_of, LineSideInfo, Point2};
use crate::mesh::{cyclic_distance, Mesh};

verus! {

impl Mesh {
    /// The outer face lies on the left of a half-edge that leaves the vertex
    /// `v`.
    pub open spec fn touches_outer_face(self, v: int) -> bool {
        exists|e: int| self.valid_edge(e) && #[trigger] self.origin(e) == v && self.face(e) == 0
    }

    /// Removing the edges of a vertex on the hull merges the faces around it
    /// into the outer face.
    #[verifier::spinoff_prover]
    pub proof fn lemma_remove_star_hull(self, v: int, g: int)
        requires
            self.wf(),
            self.can_remove_vertex(v),
            self.valid_face(g),
            self.triangles_except(g),
            self.vertices[v].out_edge.is_some() ==> self.face(self.vertices[v].out_edge.unwrap())
                == g,
            self.touches_outer_face(v),
        ensures
            self.star_merged_face(v, g) == 0,
        decreases self.vertices[v].degree,
    {
        let w = choose|e: int| self.valid_edge(e) && #[trigger] self.origin(e) == v && self.face(e) == 0;
        self.lemma_isolated_vertex_has_no_edge(v, w);
        let e = self.vertices[v].out_edge.unwrap();
        let t = twin_index(e);
        let k = self.keeps_twin_face(e);
        let x = e - e % 2;
        self.lemma_remove_out_edge(v);
        self.lemma_out_edge_can_unlink(v);
        self.lemma_unlink_context(e);
        assert(self.vertex_ok(v));
        let c = self.vertices[v].degree - 3 + self.faces[g].len;
        self.lemma_remove_out_edge_triangles(v, g, c);
        let m2 = self.remove_out_edge(v);
        let g2 = self.merged_face_after(v);
        if g == 0 || self.face(t) == 0 {
            assert(g2 == 0) by {
                self.lemma_remove_out_edge_faces(v, g2);
            }
            m2.lemma_remove_star_triangles(v, 0, 0);
        } else {
            assert(w != e);
            assert(self.star_pair_ok(v, w, e));
            assert(w != t) by {
                assert(self.edge_ok(t));
                assert(self.star_edge_ok(v, e));
            }
            let i = self.moved_edge(x, w);
            assert(self.unlink(e, k).num_half_edges() == self.num_half_edges());
            assert(0 <= i < self.num_half_edges() - 2);
            self.lemma_remove_edge_fields_at(e, k, i);
            assert(self.edge_source(x, i) == w);
            assert(self.edge_ok(w));
            let m1 = self.remove_edge(e, k);
            assert(m1.origin(i) == v);
            assert(m1.face(i) == 0);
            assert(m2.origin(i) == v);
            assert(m2.face(i) == 0);
            assert(m2.valid_edge(i));
            assert(m2.touches_outer_face(v));
            m2.lemma_remove_star_hull(v, g2);
        }
    }

    /// Removing the edges of a vertex inside the hull merges the faces
    /// around it into one inner face: one face is left of as many as the
    /// vertex had edges.
    #[verifier::spinoff_prover]
    pub proof fn lemma_remove_star_interior(self, v: int, g: int, c: int)
        requires
            self.wf(),
            self.can_remove_vertex(v),
            self.vertices[v].out_edge.is_some(),
            self.face(self.vertices[v].out_edge.unwrap()) == g,
            self.triangles_except(g),
            g != 0 ==> self.faces[g].len + self.vertices[v].degree == c + 3,
            !self.touches_outer_face(v),
        ensures
            self.star_merged_face(v, g) != 0,
            self.remove_star(v).num_faces() == self.num_faces() - (self.vertices[v].degree - 1),
        decreases self.vertices[v].degree,
    {
        let e = self.vertices[v].out_edge.unwrap();
        let t = twin_index(e);
        let k = self.keeps_twin_face(e);
        let x = e - e % 2;
        self.lemma_remove_out_edge(v);
        self.lemma_out_edge_can_unlink(v);
        self.lemma_unlink_context(e);
        assert(self.vertex_ok(v));
        self.lemma_remove_out_edge_triangles(v, g, c);
        let m1 = self.remove_edge(e, k);
        let m2 = self.remove_out_edge(v);
        let g2 = self.merged_face_after(v);
        self.lemma_remove_out_edge_faces(v, g2);
        assert(self.edge_ok(e));
        assert(self.edge_ok(t));
        let tn = self.next(t);
        assert(self.edge_ok(tn));
        assert(g != 0);
        assert(self.star_merged_face(v, g) == m2.star_merged_face(v, g2));
        assert(self.remove_star(v) == m2.remove_star(v));
        if self.face(e) != self.face(t) {
            assert(self.origin(tn) == v);
            assert(self.face(tn) == self.face(t));
            assert(self.face(t) != 0);
            assert(g2 != 0);
            assert(m2.vertex_ok(v));
            assert(self.vertices[v].degree >= 2);
            assert(m2.vertices[v].out_edge.is_some());
            assert(!m2.touches_outer_face(v)) by {
                assert forall|i: int| m2.valid_edge(i) && #[trigger] m2.origin(i) == v implies m2.face(
                    i,
                ) != 0 by {
                    self.lemma_remove_edge_fields_at(e, k, i);
                    let src = self.edge_source(x, i);
                    assert(self.origin(src) == v);
                    assert(self.face(src) != 0);
                    assert(m1.face(i) != 0);
                }
            }
            m2.lemma_remove_star_interior(v, g2, c);
        } else {
            assert(self.vertices[v].degree == 1);
            assert(m2.vertex_ok(v));
            assert(m2.vertices[v].out_edge.is_none());
            assert(m2.remove_star(v) == m2);
            assert(m2.star_merged_face(v, g2) == g2);
            assert(g2 == g);
        }
    }

    /// A vertex from which a half-edge leaves names an outgoing half-edge.
    pub proof fn lemma_isolated_vertex_has_no_edge(self, v: int, e: int)
        requires
            self.wf(),
            self.valid_edge(e),
            self.origin(e) == v,
        ensures
            self.vertices[v].out_edge.is_some(),
            self.valid_vertex(v),
    {
        assert(self.edge_ok(e));
        assert(self.vertex_ok(v));
    }

    /// The origin and the face of a half-edge after an edge has been removed,
    /// in terms of the half-edge that it was before.
    pub proof fn lemma_remove_edge_fields_at(self, e: int, k: bool, i: int)
        requires
            self.wf(),
            self.can_unlink(e),
            0 <= i < self.num_half_edges() - 2,
        ensures
            ({
                let m1 = self.remove_edge(e, k);
                let x = e - e % 2;
                let src = self.edge_source(x, i);
                let t = twin_index(e);
                &&& src != e && src != t
                &&& self.valid_edge(src)
                &&& m1.valid_edge(i)
                &&& m1.origin(i) == self.origin(src)
                &&& m1.face(i) == (if self.face(src) == self.face(e) || self.face(src) == self.face(
                    t,
                ) {
                    self.kept_face(e, k)
                } else {
                    self.face(src)
                })
            }),
    {
        let u = self.unlink(e, k);
        assert(u.num_half_edges() == self.num_half_edges());
    }
}

/// Filling a hole with a fan of triangles.
impl Mesh {
    /// The mesh after the face of the cycle `ring` has been cut into triangles
    /// by edges from the end of the last half-edge of `ring` to the origin of
    /// each half-edge of `ring` from index `i` on, but the last.
    pub open spec fn fill_fan(self, ring: Seq<usize>, i: int) -> Mesh
        decreases ring.len() - i,
    {
        if i < 2 || i >= ring.len() - 1 {
            self
        } else {
            self.create_face(ring.last() as int, ring[i] as int).fill_fan(ring, i + 1)
        }
    }

    /// `ring` is the cycle of a face of at least three half-edges, in order.
    pub open spec fn face_ring(self, ring: Seq<usize>) -> bool {
        let g = self.face(ring[0] as int);
        &&& ring.len() >= 3
        &&& ring.len() == self.faces[g].len
        &&& forall|j: int|
            0 <= j < ring.len() ==> self.valid_edge(#[trigger] ring[j] as int) && self.face(
                ring[j] as int,
            ) == g && cyclic_distance(
                self.half_edges[ring[0] as int].fpos,
                self.half_edges[ring[j] as int].fpos,
                ring.len() as int,
            ) == j
    }

    /// What holds before the step `i` of `fill_fan`: the half-edges of `ring`
    /// from `i` on lie on one face, one after the other, with two more
    /// half-edges between the last and the first of them; every other inner
    /// face is a triangle.
    pub open spec fn hole_state(self, ring: Seq<usize>, i: int) -> bool {
        let g = self.face(ring.last() as int);
        &&& self.wf()
        &&& ring.len() >= 3
        &&& 2 <= i <= ring.len() - 1
        &&& self.valid_face(g)
        &&& self.faces[g].len == ring.len() - i + 2
        &&& self.triangles_except(g)
        &&& forall|j: int|
            i <= j < ring.len() ==> self.valid_edge(#[trigger] ring[j] as int) && self.face(
                ring[j] as int,
            ) == g && cyclic_distance(
                self.half_edges[ring[i] as int].fpos,
                self.half_edges[ring[j] as int].fpos,
                self.faces[g].len,
            ) == j - i
    }

    /// The cycle of a face is ready to be filled where every other inner face
    /// is a triangle.
    #[verifier::spinoff_prover]
    pub proof fn lemma_hole_start(self, ring: Seq<usize>)
        requires
            self.wf(),
            self.face_ring(ring),
            self.triangles_except(self.face(ring[0] as int)),
        ensures
            self.hole_state(ring, 2),
    {
        let g = self.face(ring[0] as int);
        assert(self.edge_ok(ring[0] as int));
        assert(self.valid_edge(ring[ring.len() - 1] as int));
        assert forall|j: int| 2 <= j < ring.len() implies self.valid_edge(#[trigger] ring[j] as int)
            && self.face(ring[j] as int) == g && cyclic_distance(
            self.half_edges[ring[2] as int].fpos,
            self.half_edges[ring[j] as int].fpos,
            self.faces[g].len,
        ) == j - 2 by {
            assert(self.edge_ok(ring[j] as int));
            assert(self.edge_ok(ring[2] as int));
            assert(self.valid_edge(ring[2] as int));
        }
    }

    /// One step of `fill_fan` cuts a triangle off the hole.
    #[verifier::spinoff_prover]
    pub proof fn lemma_fill_fan_step(self, ring: Seq<usize>, i: int)
        requires
            self.hole_state(ring, i),
            i < ring.len() - 1,
        ensures
            self.can_create_face(ring.last() as int, ring[i] as int),
            self.create_face(ring.last() as int, ring[i] as int).hole_state(ring, i + 1),
            self.create_face(ring.last() as int, ring[i] as int).num_vertices()
                == self.num_vertices(),
            self.create_face(ring.last() as int, ring[i] as int).num_faces() == self.num_faces()
                + 1,
            self.create_face(ring.last() as int, ring[i] as int).num_half_edges()
                == self.num_half_edges() + 2,
    {
        let p = ring.last() as int;
        let nx = ring[i] as int;
        let g = self.face(p);
        let len = self.faces[g].len;
        assert(ring[ring.len() - 1] == ring.last());
        assert(self.valid_edge(ring[ring.len() - 1] as int));
        assert(self.valid_edge(ring[i] as int));
        assert(self.edge_ok(p));
        assert(self.edge_ok(nx));
        assert(self.edge_ok(self.next(p)));
        assert(self.edge_ok(self.prev(nx)));
        assert(cyclic_distance(self.half_edges[nx].fpos, self.half_edges[p].fpos, len)
            == ring.len() - 1 - i);
        let m = self.create_face(p, nx);
        self.lemma_create_face_wf(p, nx);
        let new_face = self.num_faces();
        assert(m.faces[new_face].len == ring.len() - i + 1);
        assert(m.faces[g].len == 3);
        assert(self.edge_ok(self.next(nx)));
        assert(m.vertices.len() == self.vertices.len());
        assert forall|f: int| 1 <= f < m.faces.len() && f != new_face implies (
        #[trigger] m.faces[f]).len == 3 by {
            if f != g {
                assert(self.faces[f].len == 3);
            }
        }
        assert forall|j: int| i + 1 <= j < ring.len() implies m.valid_edge(
            #[trigger] ring[j] as int,
        ) && m.face(ring[j] as int) == new_face && cyclic_distance(
            m.half_edges[ring[i + 1] as int].fpos,
            m.half_edges[ring[j] as int].fpos,
            m.faces[new_face].len,
        ) == j - (i + 1) by {
            assert(self.valid_edge(ring[j] as int));
            assert(self.valid_edge(ring[i + 1] as int));
            assert(self.edge_ok(ring[j] as int));
            assert(self.edge_ok(ring[i + 1] as int));
        }
        assert(m.face(ring.last() as int) == new_face);
    }

    /// Filling the hole leaves triangles only, and adds one face and one edge
    /// with every step.
    pub proof fn lemma_fill_fan(self, ring: Seq<usize>, i: int)
        requires
            self.hole_state(ring, i),
        ensures
            self.fill_fan(ring, i).wf(),
            self.fill_fan(ring, i).triangles_except(0),
            self.fill_fan(ring, i).num_vertices() == self.num_vertices(),
            self.fill_fan(ring, i).num_faces() == self.num_faces() + ring.len() - 1 - i,
            self.fill_fan(ring, i).num_half_edges() == self.num_half_edges() + 2 * (ring.len() - 1
                - i),
        decreases ring.len() - i,
    {
        if i < ring.len() - 1 {
            self.lemma_fill_fan_step(ring, i);
            self.create_face(ring.last() as int, ring[i] as int).lemma_fill_fan(ring, i + 1);
        } else {
            let g = self.face(ring.last() as int);
            assert forall|f: int| 1 <= f < self.faces.len() && f != 0 implies (
            #[trigger] self.faces[f]).len == 3 by {
                if f != g {
                    assert(self.faces[f].len == 3);
                }
            }
        }
    }
}

/// Legalizing the edges inside a filled hole.
impl Mesh {
    /// The apex on the right of the half-edge `e` lies strictly inside the
    /// circle through the corners of the triangle on its left.
    pub open spec fn edge_violates_delaunay(self, pos: Seq<Point2>, e: int) -> bool {
        let t = twin_index(e);
        incircle_det(pos[self.origin(e)], pos[self.target(e)], pos[self.apex(e)], pos[self.apex(t)])
            > 0
    }

    /// `stack` with the half-edge `x` on top where `x` is one of the
    /// half-edges from index `limit` on, `stack` itself else.
    pub open spec fn push_inner(stack: Seq<usize>, x: int, limit: int) -> Seq<usize> {
        if x >= limit {
            stack.push(x as usize)
        } else {
            stack
        }
    }

    /// The mesh after the half-edges on `stack` have been examined, the top
    /// first: a half-edge is flipped where its edge can be flipped and the
    /// apex on its right lies strictly inside the circle of the triangle on
    /// its left; its four neighbours are then examined next, but for those
    /// that were there before the hole was filled, which have an index below
    /// `limit`. At most `flips` edges are flipped.
    pub open spec fn legalize_hole(
        self,
        pos: Seq<Point2>,
        stack: Seq<usize>,
        limit: int,
        flips: nat,
    ) -> Mesh
        decreases stack.len() + 5 * flips,
    {
        if stack.len() == 0 {
            self
        } else {
            let e = stack.last() as int;
            let rest = stack.drop_last();
            if flips > 0 && self.valid_edge(e) && self.flippable(e) && self.edge_violates_delaunay(
                pos,
                e,
            ) {
                let t = twin_index(e);
                let s1 = Self::push_inner(rest, self.cw(e), limit);
                let s2 = Self::push_inner(s1, self.ccw(e), limit);
                let s3 = Self::push_inner(s2, self.cw(t), limit);
                let s4 = Self::push_inner(s3, self.ccw(t), limit);
                self.flip_cw(e).legalize_hole(pos, s4, limit, (flips - 1) as nat)
            } else {
                self.legalize_hole(pos, rest, limit, flips)
            }
        }
    }

    /// Whether the legalization that `legalize_hole` describes stops short:
    /// it comes to a half-edge that it would flip when no flip is left to it.
    pub open spec fn legalize_hole_stops_short(
        self,
        pos: Seq<Point2>,
        stack: Seq<usize>,
        limit: int,
        flips: nat,
    ) -> bool
        decreases stack.len() + 5 * flips,
    {
        if stack.len() == 0 {
            false
        } else {
            let e = stack.last() as int;
            let rest = stack.drop_last();
            if self.valid_edge(e) && self.flippable(e) && self.edge_violates_delaunay(pos, e) {
                if flips == 0 {
                    true
                } else {
                    let t = twin_index(e);
                    let s1 = Self::push_inner(rest, self.cw(e), limit);
                    let s2 = Self::push_inner(s1, self.ccw(e), limit);
                    let s3 = Self::push_inner(s2, self.cw(t), limit);
                    let s4 = Self::push_inner(s3, self.ccw(t), limit);
                    self.flip_cw(e).legalize_hole_stops_short(pos, s4, limit, (flips - 1) as nat)
                }
            } else {
                self.legalize_hole_stops_short(pos, rest, limit, flips)
            }
        }
    }

    /// A legalization of a hole that does not stop short gives the same mesh
    /// with any larger number of flips.
    pub proof fn lemma_legalize_hole_budget(
        self,
        pos: Seq<Point2>,
        stack: Seq<usize>,
        limit: int,
        flips: nat,
        more: nat,
    )
        requires
            !self.legalize_hole_stops_short(pos, stack, limit, flips),
            more >= flips,
        ensures
            self.legalize_hole(pos, stack, limit, more) == self.legalize_hole(
                pos,
                stack,
                limit,
                flips,
            ),
            !self.legalize_hole_stops_short(pos, stack, limit, more),
        decreases stack.len() + 5 * flips,
    {
        if stack.len() > 0 {
            let e = stack.last() as int;
            let rest = stack.drop_last();
            if self.valid_edge(e) && self.flippable(e) && self.edge_violates_delaunay(pos, e) {
                let t = twin_index(e);
                let s1 = Self::push_inner(rest, self.cw(e), limit);
                let s2 = Self::push_inner(s1, self.ccw(e), limit);
                let s3 = Self::push_inner(s2, self.cw(t), limit);
                let s4 = Self::push_inner(s3, self.ccw(t), limit);
                self.flip_cw(e).lemma_legalize_hole_budget(
                    pos,
                    s4,
                    limit,
                    (flips - 1) as nat,
                    (more - 1) as nat,
                );
            } else {
                self.lemma_legalize_hole_budget(pos, rest, limit, flips, more);
            }
        }
    }

    /// Legalizing a hole keeps the number of vertices, half-edges and faces,
    /// and keeps a mesh of triangles one.
    pub proof fn lemma_legalize_hole_keeps_shape(
        self,
        pos: Seq<Point2>,
        stack: Seq<usize>,
        limit: int,
        flips: nat,
    )
        requires
            self.wf(),
        ensures
            self.legalize_hole(pos, stack, limit, flips).wf(),
            self.legalize_hole(pos, stack, limit, flips).num_vertices() == self.num_vertices(),
            self.legalize_hole(pos, stack, limit, flips).num_half_edges() == self.num_half_edges(),
            self.legalize_hole(pos, stack, limit, flips).num_faces() == self.num_faces(),
            self.triangles_except(0) ==> self.legalize_hole(
                pos,
                stack,
                limit,
                flips,
            ).triangles_except(0),
        decreases stack.len() + 5 * flips,
    {
        if stack.len() > 0 {
            let e = stack.last() as int;
            let rest = stack.drop_last();
            if flips > 0 && self.valid_edge(e) && self.flippable(e) && self.edge_violates_delaunay(
                pos,
                e,
            ) {
                let t = twin_index(e);
                let s1 = Self::push_inner(rest, self.cw(e), limit);
                let s2 = Self::push_inner(s1, self.ccw(e), limit);
                let s3 = Self::push_inner(s2, self.cw(t), limit);
                let s4 = Self::push_inner(s3, self.ccw(t), limit);
                self.lemma_flip_keeps_shape(e);
                self.flip_cw(e).lemma_legalize_hole_keeps_shape(pos, s4, limit, (flips - 1) as nat);
            } else {
                self.lemma_legalize_hole_keeps_shape(pos, rest, limit, flips);
            }
        }
    }
}


/// Looking up edges and neighbours.
impl Mesh {
    /// The half-edge `e` runs from the vertex `from` to the vertex `to`.
    pub open spec fn joins(self, from: int, to: int, e: int) -> bool {
        self.valid_edge(e) && self.origin(e) == from && self.target(e) == to
    }

    /// The half-edge `e` is the first from `from` to `to`, counted
    /// counterclockwise from the half-edge that `from` names.
    pub open spec fn first_joining(self, from: int, to: int, e: int) -> bool {
        &&& self.joins(from, to, e)
        &&& forall|e2: int|
            #[trigger] self.joins(from, to, e2) ==> self.ring_index(e) <= self.ring_index(e2)
    }

    /// The first half-edge from `from` to `to`, counted counterclockwise from
    /// the half-edge that `from` names, if an edge joins the two.
    pub open spec fn find_edge(self, from: int, to: int) -> Option<int> {
        if exists|e: int| self.first_joining(from, to, e) {
            Some(choose|e: int| self.first_joining(from, to, e))
        } else {
            None
        }
    }

    /// Only one half-edge is the first from one vertex to another.
    pub proof fn lemma_first_joining_unique(self, from: int, to: int, e1: int, e2: int)
        requires
            self.wf(),
            self.first_joining(from, to, e1),
            self.first_joining(from, to, e2),
        ensures
            e1 == e2,
    {
        assert(self.joins(from, to, e1));
        assert(self.joins(from, to, e2));
        assert(self.edge_ok(e1));
        assert(self.edge_ok(e2));
        assert(self.vertex_ok(from));
        assert(self.edge_ok(self.vertices[from].out_edge.unwrap()));
        if e1 != e2 {
            assert(self.positions_differ(e1, e2));
        }
    }

    /// `find_edge` is the first half-edge that joins the two vertices, or
    /// `None` where none does.
    pub proof fn lemma_find_edge(self, from: int, to: int, r: Option<int>)
        requires
            self.wf(),
            r.is_some() ==> self.first_joining(from, to, r.unwrap()),
            r.is_none() ==> forall|e: int| !#[trigger] self.joins(from, to, e),
        ensures
            self.find_edge(from, to) == r,
    {
        if r.is_some() {
            let c = choose|e: int| self.first_joining(from, to, e);
            self.lemma_first_joining_unique(from, to, c, r.unwrap());
        } else {
            assert forall|e: int| !self.first_joining(from, to, e) by {
                assert(!self.joins(from, to, e));
            }
        }
    }

    /// The half-edge that leaves the vertex `v` as the `k`-th,
    /// counterclockwise from the half-edge that `v` names.
    pub open spec fn ring_edge(self, v: int, k: nat) -> int
        decreases k,
    {
        if k == 0 {
            self.vertices[v].out_edge.unwrap()
        } else {
            self.ccw(self.ring_edge(v, (k - 1) as nat))
        }
    }

    /// The first index from `i` on at which a half-edge out of the vertex `v`
    /// has the outer face on its left, or the degree of `v` where none has.
    pub open spec fn first_outer(self, v: int, i: nat) -> nat
        decreases self.vertices[v].degree - i,
    {
        if i >= self.vertices[v].degree {
            i
        } else if self.face(self.ring_edge(v, i)) == 0 {
            i
        } else {
            self.first_outer(v, i + 1)
        }
    }

    /// The index in the ring of `v` at which the list of its neighbours
    /// begins: behind the first half-edge that has the outer face on its
    /// left, or at the half-edge that `v` names where none has.
    pub open spec fn neighbor_start(self, v: int) -> int {
        let degree = self.vertices[v].degree;
        let h = self.first_outer(v, 0) as int;
        if h + 1 < degree {
            h + 1
        } else {
            0
        }
    }

    /// The vertices at the far ends of the edges of the vertex `v`, in
    /// counterclockwise order from `neighbor_start(v)`.
    pub open spec fn neighbor_seq(self, v: int) -> Seq<usize> {
        let degree = self.vertices[v].degree;
        let start = self.neighbor_start(v);
        Seq::new(
            degree as nat,
            |i: int|
                self.target(
                    self.ring_edge(
                        v,
                        (if i < degree - start {
                            start + i
                        } else {
                            i - (degree - start)
                        }) as nat,
                    ),
                ) as usize,
        )
    }
}

/// The first index from `from` on at which `s` holds `v`, or the length of
/// `s` where it holds `v` nowhere from there on.
pub open spec fn first_index(s: Seq<usize>, v: usize, from: int) -> int
    decreases s.len() - from,
{
    if from < 0 || from >= s.len() {
        s.len() as int
    } else if s[from] == v {
        from
    } else {
        first_index(s, v, from + 1)
    }
}

/// The vertices `s` after the vertex `moved` has taken the index `v`.
pub open spec fn renamed_vertices(s: Seq<usize>, moved: Option<usize>, v: usize) -> Seq<usize> {
    Seq::new(
        s.len(),
        |i: int|
            if moved == Some(s[i]) {
                v
            } else {
                s[i]
            },
    )
}


/// The number of flips that the legalization of a filled hole may make.
pub open spec fn hole_flip_budget(m: Mesh) -> nat {
    m.num_half_edges() as nat
}

/// The half-edges that `fill_fan` lays into a hole of `len` half-edges in a
/// mesh that had `limit` half-edges before: one for each step.
pub open spec fn fan_edges(limit: int, len: int) -> Seq<usize> {
    Seq::new((len - 3) as nat, |k: int| (limit + 2 * k) as usize)
}

/// The chain `ch` after the vertex `v` has been added to its end: vertices
/// at the end of the chain are dropped for as long as the last two and `v`
/// make a left turn.
pub open spec fn chain_push(pos: Seq<Point2>, ch: Seq<usize>, v: usize) -> Seq<usize>
    decreases ch.len(),
{
    if ch.len() >= 2 && side_of(
        pos[ch[ch.len() - 2] as int],
        pos[ch[ch.len() - 1] as int],
        pos[v as int],
    ) == LineSideInfo::Left {
        chain_push(pos, ch.drop_last(), v)
    } else {
        ch.push(v)
    }
}

/// The convex chain through the first `i` vertices of `vertices`: what a scan
/// leaves that adds one vertex after the other with `chain_push`.
pub open spec fn convex_chain(pos: Seq<Point2>, vertices: Seq<usize>, i: nat) -> Seq<usize>
    decreases i,
{
    if i == 0 {
        Seq::empty()
    } else {
        chain_push(pos, convex_chain(pos, vertices, (i - 1) as nat), vertices[i - 1])
    }
}


/// Repairing the hull.
impl Mesh {
    /// The mesh after the hole with the boundary `ring` has been filled with
    /// triangles and the new edges have been legalized.
    pub open spec fn fill_hole(self, pos: Seq<Point2>, ring: Seq<usize>) -> Mesh {
        self.fill_fan(ring, 2).legalize_hole(
            pos,
            fan_edges(self.num_half_edges(), ring.len() as int),
            self.num_half_edges(),
            hole_flip_budget(self.fill_fan(ring, 2)),
        )
    }

    /// The half-edges from `cur` along the cycle of its face up to the one
    /// before a half-edge that leaves the vertex `end`. `None` where the cycle
    /// comes back to `first` before, or where `fuel` half-edges are not
    /// enough.
    pub open spec fn pocket_edges(self, cur: int, first: int, end: int, fuel: nat) -> Option<
        Seq<usize>,
    >
        decreases fuel,
    {
        if fuel == 0 {
            None
        } else {
            let next = self.next(cur);
            if self.origin(next) == end {
                Some(seq![cur as usize])
            } else if next == first {
                None
            } else {
                match self.pocket_edges(next, first, end, (fuel - 1) as nat) {
                    Some(rest) => Some(seq![cur as usize] + rest),
                    None => None,
                }
            }
        }
    }

    /// A mesh of `n` half-edges has room for the edges that close and fill a
    /// pocket of `count` half-edges.
    pub open spec fn pocket_fits(n: int, count: int) -> bool {
        n <= usize::MAX / 256 - 2 && count + 1 <= (usize::MAX / 256 - 2 - n) / 2
    }

    /// The mesh after the pocket of the hull that begins with the half-edge
    /// `first` and ends at the vertex `end` has been closed by an edge and
    /// filled with triangles. The mesh itself where `first` does not lie on
    /// the hull, where the hull does not come by `end`, where the pocket has a
    /// single half-edge, or where there is no room.
    pub open spec fn fill_pocket(self, pos: Seq<Point2>, first: int, end: int) -> Mesh {
        if self.face(first) != 0 {
            self
        } else {
            match self.pocket_edges(first, first, end, self.faces[0].len as nat) {
                None => self,
                Some(edges) => {
                    let last = edges.last() as int;
                    if edges.len() < 2 || self.next(last) == first || !Self::pocket_fits(
                        self.num_half_edges(),
                        edges.len() as int,
                    ) {
                        self
                    } else {
                        self.create_face(last, first).fill_hole(
                            pos,
                            edges.push(self.num_half_edges() as usize),
                        )
                    }
                },
            }
        }
    }

    /// The mesh after the hull has been repaired between the vertices `v0`
    /// and `v1`, which follow each other on the convex chain: nothing happens
    /// where an edge joins them; else the pocket that begins with the edge
    /// from `v0` to the vertex behind it in `vertices` is filled.
    pub open spec fn repair_pair(self, pos: Seq<Point2>, vertices: Seq<usize>, v0: usize, v1: usize) -> Mesh {
        if self.find_edge(v0 as int, v1 as int).is_some() {
            self
        } else {
            let p = first_index(vertices, v0, 0);
            if p + 1 < vertices.len() {
                match self.find_edge(v0 as int, vertices[p + 1] as int) {
                    Some(first) => self.fill_pocket(pos, first, v1 as int),
                    None => self,
                }
            } else {
                self
            }
        }
    }

    /// The mesh after the hull has been repaired between every two vertices
    /// that follow each other in `ch`, from index `w` on.
    pub open spec fn repair_chain(
        self,
        pos: Seq<Point2>,
        vertices: Seq<usize>,
        ch: Seq<usize>,
        w: int,
    ) -> Mesh
        decreases ch.len() - w,
    {
        if w < 0 || w + 1 >= ch.len() {
            self
        } else {
            self.repair_pair(pos, vertices, ch[w], ch[w + 1]).repair_chain(
                pos,
                vertices,
                ch,
                w + 1,
            )
        }
    }

    /// Whether the filling of the hole with the boundary `ring` stops short
    /// in the legalization of its new edges.
    pub open spec fn fill_hole_stops_short(self, pos: Seq<Point2>, ring: Seq<usize>) -> bool {
        self.fill_fan(ring, 2).legalize_hole_stops_short(
            pos,
            fan_edges(self.num_half_edges(), ring.len() as int),
            self.num_half_edges(),
            hole_flip_budget(self.fill_fan(ring, 2)),
        )
    }

    /// Whether `fill_pocket` leaves the pocket as it is, or stops short in
    /// filling it.
    pub open spec fn fill_pocket_stops_short(self, pos: Seq<Point2>, first: int, end: int) -> bool {
        if self.face(first) != 0 {
            true
        } else {
            match self.pocket_edges(first, first, end, self.faces[0].len as nat) {
                None => true,
                Some(edges) => {
                    let last = edges.last() as int;
                    if edges.len() < 2 || self.next(last) == first || !Self::pocket_fits(
                        self.num_half_edges(),
                        edges.len() as int,
                    ) {
                        true
                    } else {
                        self.create_face(last, first).fill_hole_stops_short(
                            pos,
                            edges.push(self.num_half_edges() as usize),
                        )
                    }
                },
            }
        }
    }

    /// Whether `repair_pair` leaves a missing edge of the convex chain
    /// missing, or stops short in filling the pocket under it.
    pub open spec fn repair_pair_stops_short(
        self,
        pos: Seq<Point2>,
        vertices: Seq<usize>,
        v0: usize,
        v1: usize,
    ) -> bool {
        if self.find_edge(v0 as int, v1 as int).is_some() {
            false
        } else {
            let p = first_index(vertices, v0, 0);
            if p + 1 < vertices.len() {
                match self.find_edge(v0 as int, vertices[p + 1] as int) {
                    Some(first) => self.fill_pocket_stops_short(pos, first, v1 as int),
                    None => true,
                }
            } else {
                true
            }
        }
    }

    /// Whether the repair of the hull along `ch` from index `w` on stops
    /// short anywhere.
    pub open spec fn repair_chain_stops_short(
        self,
        pos: Seq<Point2>,
        vertices: Seq<usize>,
        ch: Seq<usize>,
        w: int,
    ) -> bool
        decreases ch.len() - w,
    {
        if w < 0 || w + 1 >= ch.len() {
            false
        } else {
            self.repair_pair_stops_short(pos, vertices, ch[w], ch[w + 1]) || self.repair_pair(
                pos,
                vertices,
                ch[w],
                ch[w + 1],
            ).repair_chain_stops_short(pos, vertices, ch, w + 1)
        }
    }

    /// Whether the repair of the hull along the convex chain through
    /// `vertices` stops short anywhere.
    pub open spec fn repair_hull_stops_short(self, pos: Seq<Point2>, vertices: Seq<usize>) -> bool {
        self.repair_chain_stops_short(pos, vertices, convex_chain(pos, vertices, vertices.len()), 0)
    }

    /// The mesh after the hull has been repaired along the convex chain
    /// through `vertices`.
    pub open spec fn repair_hull(self, pos: Seq<Point2>, vertices: Seq<usize>) -> Mesh {
        self.repair_chain(pos, vertices, convex_chain(pos, vertices, vertices.len()), 0)
    }
}

} // verus!
