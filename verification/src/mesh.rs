//! The mathematical model of a half-edge mesh.
//!
//! A mesh is a set of vertices, directed half-edges and faces. The half-edges
//! `2 * u` and `2 * u + 1` are the two directions of the undirected edge `u`.
//! Every half-edge knows its origin, the face on its left and its successor
//! and predecessor around that face. Besides these links the model records,
//! for every half-edge, its position in the cycle around its face and its
//! position in the ring of half-edges that leave its origin. With the
//! positions, "the boundary of a face is one cycle" and "the half-edges out of
//! a vertex form one ring" are properties of single half-edges.
use vstd::prelude::*;
use crate::handles::twin_index;

verus! {

/// A directed half-edge of the model.
pub struct HalfEdge {
    /// The successor around the face on the left.
    pub next: int,
    /// The predecessor around the face on the left.
    pub prev: int,
    /// The face on the left.
    pub face: int,
    /// The vertex at which the half-edge starts.
    pub origin: int,
    /// The position in the cycle of the face on the left.
    pub fpos: int,
    /// The position in the counterclockwise ring around the origin.
    pub vpos: int,
}

/// A vertex of the model.
pub struct Vertex {
    /// One half-edge that leaves the vertex, if there is any.
    pub out_edge: Option<int>,
    /// The number of half-edges that leave the vertex.
    pub degree: int,
}

/// A face of the model.
pub struct Face {
    /// One half-edge that has the face on its left, if there is any.
    pub edge: Option<int>,
    /// The number of half-edges that have the face on their left.
    pub len: int,
}

/// The model of a half-edge mesh.
pub struct Mesh {
    pub vertices: Seq<Vertex>,
    pub half_edges: Seq<HalfEdge>,
    pub faces: Seq<Face>,
}

/// The successor of position `a` in a cycle of `d` positions.
pub open spec fn succ_mod(a: int, d: int) -> int {
    if a + 1 == d {
        0
    } else {
        a + 1
    }
}

/// The number of steps from position `from` to position `to` in a cycle of
/// `d` positions.
pub open spec fn cyclic_distance(from: int, to: int, d: int) -> int {
    if to >= from {
        to - from
    } else {
        to - from + d
    }
}

impl Mesh {
    pub open spec fn num_vertices(self) -> int {
        self.vertices.len() as int
    }

    pub open spec fn num_half_edges(self) -> int {
        self.half_edges.len() as int
    }

    pub open spec fn num_faces(self) -> int {
        self.faces.len() as int
    }

    pub open spec fn valid_edge(self, e: int) -> bool {
        0 <= e < self.half_edges.len()
    }

    pub open spec fn valid_vertex(self, v: int) -> bool {
        0 <= v < self.vertices.len()
    }

    pub open spec fn valid_face(self, f: int) -> bool {
        0 <= f < self.faces.len()
    }

    pub open spec fn next(self, e: int) -> int {
        self.half_edges[e].next
    }

    pub open spec fn prev(self, e: int) -> int {
        self.half_edges[e].prev
    }

    pub open spec fn face(self, e: int) -> int {
        self.half_edges[e].face
    }

    pub open spec fn origin(self, e: int) -> int {
        self.half_edges[e].origin
    }

    /// The vertex at which the half-edge `e` ends.
    pub open spec fn target(self, e: int) -> int {
        self.half_edges[twin_index(e)].origin
    }

    /// The next half-edge counterclockwise around the origin of `e`.
    pub open spec fn ccw(self, e: int) -> int {
        twin_index(self.half_edges[e].prev)
    }

    /// The next half-edge clockwise around the origin of `e`.
    pub open spec fn cw(self, e: int) -> int {
        self.half_edges[twin_index(e)].next
    }

    /// The number of steps counterclockwise from the half-edge that the
    /// origin of `e` names to `e`.
    pub open spec fn ring_index(self, e: int) -> int {
        let v = self.origin(e);
        cyclic_distance(
            self.half_edges[self.vertices[v].out_edge.unwrap()].vpos,
            self.half_edges[e].vpos,
            self.vertices[v].degree,
        )
    }

    /// The links of the half-edge `e` are consistent with those of its
    /// neighbours.
    pub open spec fn edge_links_ok(self, e: int) -> bool {
        let h = self.half_edges[e];
        &&& self.valid_edge(h.next)
        &&& self.valid_edge(h.prev)
        &&& self.valid_face(h.face)
        &&& self.valid_vertex(h.origin)
        &&& self.half_edges[h.next].prev == e
        &&& self.half_edges[h.prev].next == e
        &&& self.half_edges[h.next].origin == self.half_edges[twin_index(e)].origin
        &&& self.half_edges[h.next].face == h.face
    }

    /// The successor of the half-edge `e` follows it in the cycle of its face.
    pub open spec fn edge_fpos_ok(self, e: int) -> bool {
        let h = self.half_edges[e];
        &&& 0 <= h.fpos < self.faces[h.face].len
        &&& self.half_edges[h.next].fpos == succ_mod(h.fpos, self.faces[h.face].len)
    }

    /// The counterclockwise neighbour of the half-edge `e` follows it in the
    /// ring of its origin.
    pub open spec fn edge_vpos_ok(self, e: int) -> bool {
        let h = self.half_edges[e];
        &&& 0 <= h.vpos < self.vertices[h.origin].degree
        &&& self.half_edges[twin_index(h.prev)].vpos == succ_mod(
            h.vpos,
            self.vertices[h.origin].degree,
        )
    }

    /// The links and positions of the half-edge `e` are consistent with those
    /// of its neighbours.
    pub open spec fn edge_ok(self, e: int) -> bool {
        &&& self.edge_links_ok(e)
        &&& self.edge_fpos_ok(e)
        &&& self.edge_vpos_ok(e)
    }

    /// Two different half-edges never share a position in a face cycle or in
    /// a vertex ring.
    pub open spec fn positions_differ(self, e1: int, e2: int) -> bool {
        let h1 = self.half_edges[e1];
        let h2 = self.half_edges[e2];
        &&& h1.face == h2.face ==> h1.fpos != h2.fpos
        &&& h1.origin == h2.origin ==> h1.vpos != h2.vpos
    }

    /// The half-edge that the vertex `v` names leaves `v`, and `v` names one
    /// exactly if any half-edge leaves it.
    pub open spec fn vertex_ok(self, v: int) -> bool {
        let x = self.vertices[v];
        &&& x.degree >= 0
        &&& x.out_edge.is_some() <==> x.degree > 0
        &&& x.out_edge.is_some() ==> self.valid_edge(x.out_edge.unwrap())
            && self.half_edges[x.out_edge.unwrap()].origin == v
    }

    /// The half-edge that the face `f` names has `f` on its left, and `f`
    /// names one exactly if any half-edge has it on its left.
    pub open spec fn face_ok(self, f: int) -> bool {
        let x = self.faces[f];
        &&& x.len >= 0
        &&& x.edge.is_some() <==> x.len > 0
        &&& x.edge.is_some() ==> self.valid_edge(x.edge.unwrap())
            && self.half_edges[x.edge.unwrap()].face == f
    }

    /// The mesh is well formed: it has an outer face, its half-edges come in
    /// pairs, all links are consistent, the boundary of every face is a single
    /// cycle and the half-edges out of every vertex form a single ring.
    pub open spec fn wf(self) -> bool {
        &&& self.faces.len() >= 1
        &&& self.half_edges.len() % 2 == 0
        &&& forall|e: int| 0 <= e < self.half_edges.len() ==> #[trigger] self.edge_ok(e)
        &&& forall|e1: int, e2: int|
            0 <= e1 < self.half_edges.len() && 0 <= e2 < self.half_edges.len() && e1 != e2
                ==> #[trigger] self.positions_differ(e1, e2)
        &&& forall|v: int| 0 <= v < self.vertices.len() ==> #[trigger] self.vertex_ok(v)
        &&& forall|f: int| 0 <= f < self.faces.len() ==> #[trigger] self.face_ok(f)
    }

    /// The mesh without vertices and edges, with the outer face alone.
    pub open spec fn empty() -> Mesh {
        Mesh {
            vertices: Seq::empty(),
            half_edges: Seq::empty(),
            faces: seq![Face { edge: None, len: 0 }],
        }
    }

    /// The mesh with one more, isolated, vertex.
    pub open spec fn insert_vertex(self) -> Mesh {
        Mesh { vertices: self.vertices.push(Vertex { out_edge: None, degree: 0 }), ..self }
    }

    /// The mesh after an edge has been laid between the isolated vertices
    /// `v0` and `v1` inside the face `f`, which had no edge before.
    pub open spec fn connect_two_isolated_vertices(self, v0: int, v1: int, f: int) -> Mesh {
        let e = self.num_half_edges();
        let t = e + 1;
        Mesh {
            vertices: self.vertices.update(v0, Vertex { out_edge: Some(e), degree: 1 }).update(
                v1,
                Vertex { out_edge: Some(t), degree: 1 },
            ),
            half_edges: self.half_edges.push(
                HalfEdge { next: t, prev: t, face: f, origin: v0, fpos: 0, vpos: 0 },
            ).push(HalfEdge { next: e, prev: e, face: f, origin: v1, fpos: 1, vpos: 0 }),
            faces: self.faces.update(f, Face { edge: Some(e), len: 2 }),
        }
    }

    /// The mesh after all edges and all inner faces have been dropped.
    pub open spec fn clear_edges_and_faces(self) -> Mesh {
        Mesh {
            vertices: Seq::new(self.vertices.len(), |v: int| Vertex { out_edge: None, degree: 0 }),
            half_edges: Seq::empty(),
            faces: seq![Face { edge: None, len: 0 }],
        }
    }

    /// The twin of a valid half-edge is valid, and ends where the half-edge
    /// starts.
    pub proof fn lemma_twin_valid(self, e: int)
        requires
            self.wf(),
            self.valid_edge(e),
        ensures
            self.valid_edge(twin_index(e)),
            twin_index(twin_index(e)) == e,
            self.target(twin_index(e)) == self.origin(e),
    {
    }

    /// Turning counterclockwise around a vertex stays at that vertex, and
    /// turning clockwise undoes it.
    pub proof fn lemma_ccw(self, e: int)
        requires
            self.wf(),
            self.valid_edge(e),
        ensures
            self.valid_edge(self.ccw(e)),
            self.origin(self.ccw(e)) == self.origin(e),
            self.cw(self.ccw(e)) == e,
            self.valid_edge(self.cw(e)),
            self.origin(self.cw(e)) == self.origin(e),
            self.ccw(self.cw(e)) == e,
            self.half_edges[self.ccw(e)].vpos == succ_mod(
                self.half_edges[e].vpos,
                self.vertices[self.origin(e)].degree,
            ),
    {
        assert(self.edge_ok(e));
        assert(self.edge_ok(self.prev(e)));
        assert(self.edge_ok(twin_index(e)));
        assert(self.edge_ok(self.cw(e)));
    }

    pub proof fn lemma_empty_wf()
        ensures
            Mesh::empty().wf(),
    {
    }

    pub proof fn lemma_insert_vertex_wf(self)
        requires
            self.wf(),
        ensures
            self.insert_vertex().wf(),
    {
        let m = self.insert_vertex();
        assert forall|e: int| 0 <= e < m.half_edges.len() implies #[trigger] m.edge_ok(e) by {
            assert(self.edge_ok(e));
        }
        assert forall|e1: int, e2: int|
            0 <= e1 < m.half_edges.len() && 0 <= e2 < m.half_edges.len() && e1
                != e2 implies #[trigger] m.positions_differ(e1, e2) by {
            assert(self.positions_differ(e1, e2));
        }
        assert forall|v: int| 0 <= v < m.vertices.len() implies #[trigger] m.vertex_ok(v) by {
            if v < self.vertices.len() {
                assert(self.vertex_ok(v));
            }
        }
        assert forall|f: int| 0 <= f < m.faces.len() implies #[trigger] m.face_ok(f) by {
            assert(self.face_ok(f));
        }
    }

    /// No half-edge leaves a vertex that names no outgoing half-edge.
    pub proof fn lemma_isolated_vertex(self, v: int, e: int)
        requires
            self.wf(),
            self.valid_vertex(v),
            self.vertices[v].out_edge.is_none(),
            self.valid_edge(e),
        ensures
            self.origin(e) != v,
    {
        assert(self.edge_ok(e));
        assert(self.vertex_ok(v));
    }

    /// No half-edge has on its left a face that names no half-edge.
    pub proof fn lemma_empty_face(self, f: int, e: int)
        requires
            self.wf(),
            self.valid_face(f),
            self.faces[f].edge.is_none(),
            self.valid_edge(e),
        ensures
            self.face(e) != f,
    {
        assert(self.edge_ok(e));
        assert(self.face_ok(f));
    }

    #[verifier::spinoff_prover]
    pub proof fn lemma_connect_two_isolated_vertices_wf(self, v0: int, v1: int, f: int)
        requires
            self.wf(),
            self.valid_vertex(v0),
            self.valid_vertex(v1),
            v0 != v1,
            self.valid_face(f),
            self.vertices[v0].out_edge.is_none(),
            self.vertices[v1].out_edge.is_none(),
            self.faces[f].edge.is_none(),
        ensures
            self.connect_two_isolated_vertices(v0, v1, f).wf(),
    {
        let m = self.connect_two_isolated_vertices(v0, v1, f);
        let n = self.num_half_edges();
        assert forall|e: int| 0 <= e < m.half_edges.len() implies #[trigger] m.edge_ok(e) by {
            if e < n {
                assert(self.edge_ok(e));
                self.lemma_isolated_vertex(v0, e);
                self.lemma_isolated_vertex(v1, e);
                self.lemma_empty_face(f, e);
                assert(self.edge_ok(self.prev(e)));
            }
        }
        assert forall|e1: int, e2: int|
            0 <= e1 < m.half_edges.len() && 0 <= e2 < m.half_edges.len() && e1
                != e2 implies #[trigger] m.positions_differ(e1, e2) by {
            if e1 < n {
                self.lemma_isolated_vertex(v0, e1);
                self.lemma_isolated_vertex(v1, e1);
                self.lemma_empty_face(f, e1);
            }
            if e2 < n {
                self.lemma_isolated_vertex(v0, e2);
                self.lemma_isolated_vertex(v1, e2);
                self.lemma_empty_face(f, e2);
            }
            if e1 < n && e2 < n {
                assert(self.positions_differ(e1, e2));
            }
        }
        assert forall|v: int| 0 <= v < m.vertices.len() implies #[trigger] m.vertex_ok(v) by {
            assert(self.vertex_ok(v));
        }
        assert forall|g: int| 0 <= g < m.faces.len() implies #[trigger] m.face_ok(g) by {
            assert(self.face_ok(g));
        }
    }

    pub proof fn lemma_clear_edges_and_faces_wf(self)
        ensures
            self.clear_edges_and_faces().wf(),
    {
    }
}


/// Adding edges to a mesh.
impl Mesh {
    /// The mesh after the isolated vertex `v` has been attached to the end of
    /// the half-edge `p`: the new half-edge runs from the target of `p` to
    /// `v`, inside the face on the left of `p`.
    pub open spec fn connect_edge_to_isolated_vertex(self, p: int, v: int) -> Mesh {
        let n = self.num_half_edges();
        let e = n;
        let t = n + 1;
        let hp = self.half_edges[p];
        let pn = hp.next;
        let w = self.half_edges[pn].origin;
        let f = hp.face;
        let k = hp.fpos;
        let x = self.half_edges[pn].vpos;
        Mesh {
            vertices: self.vertices.update(
                w,
                Vertex { degree: self.vertices[w].degree + 1, ..self.vertices[w] },
            ).update(v, Vertex { out_edge: Some(t), degree: 1 }),
            half_edges: Seq::new(
                (n + 2) as nat,
                |i: int|
                    if i == e {
                        HalfEdge { next: t, prev: p, face: f, origin: w, fpos: k + 1, vpos: x + 1 }
                    } else if i == t {
                        HalfEdge { next: pn, prev: e, face: f, origin: v, fpos: k + 2, vpos: 0 }
                    } else {
                        let h = self.half_edges[i];
                        HalfEdge {
                            next: if i == p {
                                e
                            } else {
                                h.next
                            },
                            prev: if i == pn {
                                t
                            } else {
                                h.prev
                            },
                            face: h.face,
                            origin: h.origin,
                            fpos: if h.face == f && h.fpos > k {
                                h.fpos + 2
                            } else {
                                h.fpos
                            },
                            vpos: if h.origin == w && h.vpos > x {
                                h.vpos + 1
                            } else {
                                h.vpos
                            },
                        }
                    },
            ),
            faces: self.faces.update(f, Face { len: self.faces[f].len + 2, ..self.faces[f] }),
        }
    }

    #[verifier::spinoff_prover]
    pub proof fn lemma_connect_edge_to_isolated_vertex_wf(self, p: int, v: int)
        requires
            self.wf(),
            self.valid_edge(p),
            self.valid_vertex(v),
            self.vertices[v].out_edge.is_none(),
        ensures
            self.connect_edge_to_isolated_vertex(p, v).wf(),
    {
        let m = self.connect_edge_to_isolated_vertex(p, v);
        let n = self.num_half_edges();
        let pn = self.next(p);
        let w = self.origin(pn);
        assert(self.edge_ok(p));
        assert(self.edge_ok(pn));
        self.lemma_isolated_vertex(v, pn);
        self.lemma_ccw(pn);
        assert(self.vertex_ok(w));
        assert(self.face_ok(self.face(p)));
        assert forall|e: int| 0 <= e < m.half_edges.len() implies #[trigger] m.edge_ok(e) by {
            if e < n {
                assert(self.edge_ok(e));
                self.lemma_isolated_vertex(v, e);
                self.lemma_ccw(e);
                assert(self.edge_ok(self.next(e)));
                assert(self.edge_ok(self.prev(e)));
                if e != p {
                    assert(self.positions_differ(e, p));
                }
                if e != pn {
                    assert(self.positions_differ(e, pn));
                    assert(self.positions_differ(self.ccw(e), self.ccw(pn)));
                }
            }
        }
        assert forall|e1: int, e2: int|
            0 <= e1 < m.half_edges.len() && 0 <= e2 < m.half_edges.len() && e1
                != e2 implies #[trigger] m.positions_differ(e1, e2) by {
            if e1 < n {
                self.lemma_isolated_vertex(v, e1);
                assert(self.edge_ok(e1));
                if e1 != p {
                    assert(self.positions_differ(e1, p));
                }
                if e1 != pn {
                    assert(self.positions_differ(e1, pn));
                }
            }
            if e2 < n {
                self.lemma_isolated_vertex(v, e2);
                assert(self.edge_ok(e2));
                if e2 != p {
                    assert(self.positions_differ(e2, p));
                }
                if e2 != pn {
                    assert(self.positions_differ(e2, pn));
                }
            }
            if e1 < n && e2 < n {
                assert(self.positions_differ(e1, e2));
            }
        }
        assert forall|u: int| 0 <= u < m.vertices.len() implies #[trigger] m.vertex_ok(u) by {
            assert(self.vertex_ok(u));
        }
        assert forall|g: int| 0 <= g < m.faces.len() implies #[trigger] m.face_ok(g) by {
            assert(self.face_ok(g));
        }
    }
}


/// Splitting a face.
impl Mesh {
    /// The mesh after an edge has been laid from the target of `p` to the
    /// origin of `nx`, two half-edges of one face. The new half-edge with the
    /// larger part of the split on its left is returned by the caller's
    /// operation; here the new half-edge `num_half_edges()` closes the cycle
    /// that runs from `nx` to `p` and gets the new face `num_faces()`, and its
    /// twin stays in the old face.
    pub open spec fn create_face(self, p: int, nx: int) -> Mesh {
        let n = self.num_half_edges();
        let e = n;
        let t = n + 1;
        let new_face = self.num_faces();
        let hp = self.half_edges[p];
        let hn = self.half_edges[nx];
        let pn = hp.next;
        let np = hn.prev;
        let a = self.half_edges[pn].origin;
        let b = hn.origin;
        let f = hp.face;
        let len = self.faces[f].len;
        let j = hn.fpos;
        let m = cyclic_distance(j, hp.fpos, len);
        let x = self.half_edges[pn].vpos;
        let y = hn.vpos;
        let va = self.vertices.update(
            a,
            Vertex { degree: self.vertices[a].degree + 1, ..self.vertices[a] },
        );
        Mesh {
            vertices: va.update(b, Vertex { degree: va[b].degree + 1, ..va[b] }),
            half_edges: Seq::new(
                (n + 2) as nat,
                |i: int|
                    if i == e {
                        HalfEdge {
                            next: nx,
                            prev: p,
                            face: new_face,
                            origin: a,
                            fpos: 0,
                            vpos: x + 1 + if a == b && x > y {
                                1int
                            } else {
                                0int
                            },
                        }
                    } else if i == t {
                        HalfEdge {
                            next: pn,
                            prev: np,
                            face: f,
                            origin: b,
                            fpos: 0,
                            vpos: y + 1 + if a == b && y > x {
                                1int
                            } else {
                                0int
                            },
                        }
                    } else {
                        let h = self.half_edges[i];
                        let d = cyclic_distance(j, h.fpos, len);
                        HalfEdge {
                            next: if i == p {
                                e
                            } else if i == np {
                                t
                            } else {
                                h.next
                            },
                            prev: if i == nx {
                                e
                            } else if i == pn {
                                t
                            } else {
                                h.prev
                            },
                            face: if h.face == f && d <= m {
                                new_face
                            } else {
                                h.face
                            },
                            origin: h.origin,
                            fpos: if h.face == f {
                                if d <= m {
                                    d + 1
                                } else {
                                    d - m
                                }
                            } else {
                                h.fpos
                            },
                            vpos: h.vpos + if h.origin == a && h.vpos > x {
                                1int
                            } else {
                                0int
                            } + if h.origin == b && h.vpos > y {
                                1int
                            } else {
                                0int
                            },
                        }
                    },
            ),
            faces: self.faces.update(f, Face { edge: Some(t), len: len - m }).push(
                Face { edge: Some(e), len: m + 2 },
            ),
        }
    }

    /// What a caller has to know of two half-edges before it splits their
    /// face between them.
    pub open spec fn can_create_face(self, p: int, nx: int) -> bool {
        &&& self.valid_edge(p)
        &&& self.valid_edge(nx)
        &&& self.face(p) == self.face(nx)
        &&& p != nx
        &&& self.next(p) != nx
    }

    proof fn lemma_create_face_context(self, p: int, nx: int)
        requires
            self.wf(),
            self.can_create_face(p, nx),
        ensures
            self.edge_ok(p),
            self.edge_ok(nx),
            self.edge_ok(self.next(p)),
            self.edge_ok(self.prev(nx)),
            self.positions_differ(p, nx),
            self.positions_differ(self.next(p), nx),
            self.positions_differ(p, self.prev(nx)),
            self.next(p) != nx,
            self.prev(nx) != p,
            self.vertex_ok(self.origin(self.next(p))),
            self.vertex_ok(self.origin(nx)),
            self.face_ok(self.face(p)),
            self.num_half_edges() % 2 == 0,
            self.origin(self.ccw(self.next(p))) == self.origin(self.next(p)),
            self.origin(self.ccw(nx)) == self.origin(nx),
            self.ccw(self.next(p)) == twin_index(p),
            self.valid_edge(twin_index(p)),
            self.valid_edge(self.ccw(nx)),
    {
        assert(self.edge_ok(p));
        assert(self.edge_ok(nx));
        assert(self.edge_ok(self.next(p)));
        assert(self.edge_ok(self.prev(nx)));
        assert(self.positions_differ(p, nx));
        assert(self.positions_differ(self.next(p), nx));
        assert(self.positions_differ(p, self.prev(nx)));
        self.lemma_ccw(self.next(p));
        self.lemma_ccw(nx);
        assert(self.vertex_ok(self.origin(self.next(p))));
        assert(self.vertex_ok(self.origin(nx)));
        assert(self.face_ok(self.face(p)));
    }

    #[verifier::spinoff_prover]
    proof fn lemma_create_face_links(self, p: int, nx: int, e: int)
        requires
            self.wf(),
            self.can_create_face(p, nx),
            0 <= e < self.num_half_edges() + 2,
        ensures
            self.create_face(p, nx).edge_links_ok(e),
    {
        let m = self.create_face(p, nx);
        let n = self.num_half_edges();
        self.lemma_create_face_context(p, nx);
        if e < n {
            assert(self.edge_ok(e));
            assert(self.edge_ok(self.next(e)));
            assert(self.edge_ok(self.prev(e)));
            assert(self.edge_ok(twin_index(e)));
            if e != p {
                assert(self.positions_differ(e, p));
            }
            let ne = self.next(e);
            if ne != p {
                assert(self.positions_differ(ne, p));
            }
            if ne != nx {
                assert(self.positions_differ(ne, nx));
            }
        }
    }

    #[verifier::spinoff_prover]
    proof fn lemma_create_face_fpos(self, p: int, nx: int, e: int)
        requires
            self.wf(),
            self.can_create_face(p, nx),
            0 <= e < self.num_half_edges() + 2,
        ensures
            self.create_face(p, nx).edge_fpos_ok(e),
    {
        let m = self.create_face(p, nx);
        let n = self.num_half_edges();
        self.lemma_create_face_context(p, nx);
        if e < n {
            assert(self.edge_ok(e));
            assert(self.edge_ok(self.next(e)));
            if e != p {
                assert(self.positions_differ(e, p));
            }
            if e != nx {
                assert(self.positions_differ(e, nx));
            }
            let ne = self.next(e);
            if ne != p {
                assert(self.positions_differ(ne, p));
            }
            if ne != nx {
                assert(self.positions_differ(ne, nx));
            }
        }
    }

    #[verifier::spinoff_prover]
    proof fn lemma_create_face_vpos(self, p: int, nx: int, e: int)
        requires
            self.wf(),
            self.can_create_face(p, nx),
            0 <= e < self.num_half_edges() + 2,
        ensures
            self.create_face(p, nx).edge_vpos_ok(e),
    {
        let m = self.create_face(p, nx);
        let n = self.num_half_edges();
        let pn = self.next(p);
        self.lemma_create_face_context(p, nx);
        if e < n {
            assert(self.edge_ok(e));
            self.lemma_ccw(e);
            let c = self.ccw(e);
            assert(self.edge_ok(self.prev(e)));
            if e != nx {
                assert(self.positions_differ(e, nx));
            }
            if e != pn {
                assert(self.positions_differ(e, pn));
            }
            if c != nx {
                assert(self.positions_differ(c, nx));
            }
            if c != pn {
                assert(self.positions_differ(c, pn));
            }
        } else {
            let c = self.ccw(nx);
            if c != pn {
                assert(self.positions_differ(c, pn));
            }
            if c != nx {
                assert(self.positions_differ(c, nx));
            }
            let c2 = self.ccw(pn);
            if c2 != pn {
                assert(self.positions_differ(c2, pn));
            }
            if c2 != nx {
                assert(self.positions_differ(c2, nx));
            }
        }
    }

    #[verifier::spinoff_prover]
    proof fn lemma_create_face_positions(self, p: int, nx: int, e1: int, e2: int)
        requires
            self.wf(),
            self.can_create_face(p, nx),
            0 <= e1 < self.num_half_edges() + 2,
            0 <= e2 < self.num_half_edges() + 2,
            e1 != e2,
        ensures
            self.create_face(p, nx).positions_differ(e1, e2),
    {
        let n = self.num_half_edges();
        let pn = self.next(p);
        self.lemma_create_face_context(p, nx);
        if e1 < n {
            assert(self.edge_ok(e1));
            if e1 != p {
                assert(self.positions_differ(e1, p));
            }
            if e1 != pn {
                assert(self.positions_differ(e1, pn));
            }
            if e1 != nx {
                assert(self.positions_differ(e1, nx));
            }
        }
        if e2 < n {
            assert(self.edge_ok(e2));
            if e2 != p {
                assert(self.positions_differ(e2, p));
            }
            if e2 != pn {
                assert(self.positions_differ(e2, pn));
            }
            if e2 != nx {
                assert(self.positions_differ(e2, nx));
            }
        }
        if e1 < n && e2 < n {
            assert(self.positions_differ(e1, e2));
        }
    }

    #[verifier::spinoff_prover]
    pub proof fn lemma_create_face_wf(self, p: int, nx: int)
        requires
            self.wf(),
            self.can_create_face(p, nx),
        ensures
            self.create_face(p, nx).wf(),
    {
        let m = self.create_face(p, nx);
        self.lemma_create_face_context(p, nx);
        assert forall|e: int| 0 <= e < m.half_edges.len() implies #[trigger] m.edge_ok(e) by {
            self.lemma_create_face_links(p, nx, e);
            self.lemma_create_face_fpos(p, nx, e);
            self.lemma_create_face_vpos(p, nx, e);
        }
        assert forall|e1: int, e2: int|
            0 <= e1 < m.half_edges.len() && 0 <= e2 < m.half_edges.len() && e1
                != e2 implies #[trigger] m.positions_differ(e1, e2) by {
            self.lemma_create_face_positions(p, nx, e1, e2);
        }
        assert forall|u: int| 0 <= u < m.vertices.len() implies #[trigger] m.vertex_ok(u) by {
            assert(self.vertex_ok(u));
        }
        assert forall|g: int| 0 <= g < m.faces.len() implies #[trigger] m.face_ok(g) by {
            if g < self.faces.len() {
                assert(self.face_ok(g));
            }
        }
    }
}


/// Splitting an edge.
impl Mesh {
    /// What a caller has to know before it splits the edge of the half-edge
    /// `e` at the isolated vertex `v`.
    pub open spec fn can_split_edge(self, e: int, v: int) -> bool {
        &&& self.valid_edge(e)
        &&& self.valid_vertex(v)
        &&& self.vertices[v].out_edge.is_none()
        &&& self.face(e) != self.face(twin_index(e))
    }

    /// The mesh after the edge of the half-edge `e` has been split at the
    /// isolated vertex `v`: `e` now ends in `v`, and the new half-edge
    /// `num_half_edges()` runs from `v` to the old target of `e`.
    pub open spec fn split_edge(self, e: int, v: int) -> Mesh {
        let n = self.num_half_edges();
        let ne = n;
        let nt = n + 1;
        let t = twin_index(e);
        let he = self.half_edges[e];
        let ht = self.half_edges[t];
        let en = he.next;
        let tp = ht.prev;
        let b = ht.origin;
        let fe = he.face;
        let ft = ht.face;
        let ke = he.fpos;
        let kt = self.half_edges[tp].fpos;
        Mesh {
            vertices: self.vertices.update(v, Vertex { out_edge: Some(ne), degree: 2 }).update(
                b,
                Vertex { out_edge: Some(nt), ..self.vertices[b] },
            ),
            half_edges: Seq::new(
                (n + 2) as nat,
                |i: int|
                    if i == ne {
                        HalfEdge { next: en, prev: e, face: fe, origin: v, fpos: ke + 1, vpos: 0 }
                    } else if i == nt {
                        HalfEdge {
                            next: t,
                            prev: tp,
                            face: ft,
                            origin: b,
                            fpos: kt + 1,
                            vpos: ht.vpos,
                        }
                    } else {
                        let h = self.half_edges[i];
                        HalfEdge {
                            next: if i == e {
                                ne
                            } else if i == tp {
                                nt
                            } else {
                                h.next
                            },
                            prev: if i == en {
                                ne
                            } else if i == t {
                                nt
                            } else {
                                h.prev
                            },
                            face: h.face,
                            origin: if i == t {
                                v
                            } else {
                                h.origin
                            },
                            fpos: if h.face == fe && h.fpos > ke {
                                h.fpos + 1
                            } else if h.face == ft && h.fpos > kt {
                                h.fpos + 1
                            } else {
                                h.fpos
                            },
                            vpos: if i == t {
                                1
                            } else {
                                h.vpos
                            },
                        }
                    },
            ),
            faces: self.faces.update(fe, Face { len: self.faces[fe].len + 1, ..self.faces[fe] }).update(
                ft,
                Face { len: self.faces[ft].len + 1, ..self.faces[ft] },
            ),
        }
    }

    proof fn lemma_split_edge_context(self, e: int, v: int)
        requires
            self.wf(),
            self.can_split_edge(e, v),
        ensures
            self.valid_edge(twin_index(e)),
            self.edge_ok(e),
            self.edge_ok(twin_index(e)),
            self.edge_ok(self.next(e)),
            self.edge_ok(self.prev(twin_index(e))),
            self.next(e) != twin_index(e),
            self.prev(twin_index(e)) != e,
            self.origin(twin_index(e)) != v,
            self.origin(e) != v,
            self.vertex_ok(self.origin(twin_index(e))),
            self.face_ok(self.face(e)),
            self.face_ok(self.face(twin_index(e))),
            self.num_half_edges() % 2 == 0,
            self.ccw(self.next(e)) == twin_index(e),
    {
        let t = twin_index(e);
        assert(self.edge_ok(e));
        assert(self.edge_ok(t));
        assert(self.edge_ok(self.next(e)));
        assert(self.edge_ok(self.prev(t)));
        self.lemma_isolated_vertex(v, e);
        self.lemma_isolated_vertex(v, t);
        assert(self.vertex_ok(self.origin(t)));
        assert(self.face_ok(self.face(e)));
        assert(self.face_ok(self.face(t)));
    }

    #[verifier::spinoff_prover]
    proof fn lemma_split_edge_links(self, e: int, v: int, i: int)
        requires
            self.wf(),
            self.can_split_edge(e, v),
            0 <= i < self.num_half_edges() + 2,
        ensures
            self.split_edge(e, v).edge_links_ok(i),
    {
        let n = self.num_half_edges();
        self.lemma_split_edge_context(e, v);
        if i < n {
            assert(self.edge_ok(i));
            assert(self.edge_ok(self.next(i)));
            assert(self.edge_ok(self.prev(i)));
            assert(self.edge_ok(twin_index(i)));
            self.lemma_isolated_vertex(v, i);
            self.lemma_isolated_vertex(v, self.next(i));
        }
    }

    #[verifier::spinoff_prover]
    proof fn lemma_split_edge_fpos(self, e: int, v: int, i: int)
        requires
            self.wf(),
            self.can_split_edge(e, v),
            0 <= i < self.num_half_edges() + 2,
        ensures
            self.split_edge(e, v).edge_fpos_ok(i),
    {
        let n = self.num_half_edges();
        let t = twin_index(e);
        let tp = self.prev(t);
        self.lemma_split_edge_context(e, v);
        if i < n {
            assert(self.edge_ok(i));
            assert(self.edge_ok(self.next(i)));
            if i != e {
                assert(self.positions_differ(i, e));
            }
            if i != tp {
                assert(self.positions_differ(i, tp));
            }
            let ni = self.next(i);
            if ni != e {
                assert(self.positions_differ(ni, e));
            }
            if ni != tp {
                assert(self.positions_differ(ni, tp));
            }
        }
    }

    #[verifier::spinoff_prover]
    proof fn lemma_split_edge_vpos(self, e: int, v: int, i: int)
        requires
            self.wf(),
            self.can_split_edge(e, v),
            0 <= i < self.num_half_edges() + 2,
        ensures
            self.split_edge(e, v).edge_vpos_ok(i),
    {
        let n = self.num_half_edges();
        let t = twin_index(e);
        self.lemma_split_edge_context(e, v);
        self.lemma_ccw(t);
        if i < n {
            assert(self.edge_ok(i));
            self.lemma_ccw(i);
            self.lemma_isolated_vertex(v, i);
            assert(self.edge_ok(self.prev(i)));
        }
    }

    #[verifier::spinoff_prover]
    proof fn lemma_split_edge_positions(self, e: int, v: int, e1: int, e2: int)
        requires
            self.wf(),
            self.can_split_edge(e, v),
            0 <= e1 < self.num_half_edges() + 2,
            0 <= e2 < self.num_half_edges() + 2,
            e1 != e2,
        ensures
            self.split_edge(e, v).positions_differ(e1, e2),
    {
        let n = self.num_half_edges();
        let t = twin_index(e);
        let tp = self.prev(t);
        self.lemma_split_edge_context(e, v);
        if e1 < n {
            assert(self.edge_ok(e1));
            self.lemma_isolated_vertex(v, e1);
            if e1 != e {
                assert(self.positions_differ(e1, e));
            }
            if e1 != tp {
                assert(self.positions_differ(e1, tp));
            }
            if e1 != t {
                assert(self.positions_differ(e1, t));
            }
        }
        if e2 < n {
            assert(self.edge_ok(e2));
            self.lemma_isolated_vertex(v, e2);
            if e2 != e {
                assert(self.positions_differ(e2, e));
            }
            if e2 != tp {
                assert(self.positions_differ(e2, tp));
            }
            if e2 != t {
                assert(self.positions_differ(e2, t));
            }
        }
        if e1 < n && e2 < n {
            assert(self.positions_differ(e1, e2));
        }
    }

    #[verifier::spinoff_prover]
    pub proof fn lemma_split_edge_wf(self, e: int, v: int)
        requires
            self.wf(),
            self.can_split_edge(e, v),
        ensures
            self.split_edge(e, v).wf(),
    {
        let m = self.split_edge(e, v);
        self.lemma_split_edge_context(e, v);
        assert forall|i: int| 0 <= i < m.half_edges.len() implies #[trigger] m.edge_ok(i) by {
            self.lemma_split_edge_links(e, v, i);
            self.lemma_split_edge_fpos(e, v, i);
            self.lemma_split_edge_vpos(e, v, i);
        }
        assert forall|e1: int, e2: int|
            0 <= e1 < m.half_edges.len() && 0 <= e2 < m.half_edges.len() && e1
                != e2 implies #[trigger] m.positions_differ(e1, e2) by {
            self.lemma_split_edge_positions(e, v, e1, e2);
        }
        assert forall|u: int| 0 <= u < m.vertices.len() implies #[trigger] m.vertex_ok(u) by {
            assert(self.vertex_ok(u));
        }
        assert forall|g: int| 0 <= g < m.faces.len() implies #[trigger] m.face_ok(g) by {
            assert(self.face_ok(g));
        }
    }
}

/// Flipping an edge.
impl Mesh {
    /// The vertex opposite to the half-edge `e` in a triangle on its left.
    pub open spec fn apex(self, e: int) -> int {
        self.origin(self.prev(e))
    }

    /// What a caller has to know before it flips the edge of the half-edge
    /// `e`: the faces on both sides are two different triangles, and the four
    /// vertices of the two triangles differ from each other.
    pub open spec fn can_flip(self, e: int) -> bool {
        let t = twin_index(e);
        &&& self.valid_edge(e)
        &&& self.face(e) != self.face(t)
        &&& self.faces[self.face(e)].len == 3
        &&& self.faces[self.face(t)].len == 3
        &&& self.origin(e) != self.origin(t)
        &&& self.origin(e) != self.apex(e)
        &&& self.origin(e) != self.apex(t)
        &&& self.origin(t) != self.apex(e)
        &&& self.origin(t) != self.apex(t)
        &&& self.apex(e) != self.apex(t)
    }

    /// The mesh after the edge of the half-edge `e` has been replaced by the
    /// other diagonal of the quadrilateral that its two triangles form. The
    /// half-edge `e` then runs from the old apex on its left to the old apex
    /// on its right.
    pub open spec fn flip_cw(self, e: int) -> Mesh {
        let t = twin_index(e);
        let he = self.half_edges[e];
        let ht = self.half_edges[t];
        let en = he.next;
        let ep = he.prev;
        let tn = ht.next;
        let tp = ht.prev;
        let a = he.origin;
        let b = ht.origin;
        let c = self.half_edges[ep].origin;
        let d = self.half_edges[tp].origin;
        let fe = he.face;
        let ft = ht.face;
        let xa = he.vpos;
        let xb = ht.vpos;
        let xc = self.half_edges[ep].vpos;
        let xd = self.half_edges[tp].vpos;
        Mesh {
            vertices: self.vertices.update(
                a,
                Vertex { out_edge: Some(tn), degree: self.vertices[a].degree - 1 },
            ).update(b, Vertex { out_edge: Some(en), degree: self.vertices[b].degree - 1 }).update(
                c,
                Vertex { degree: self.vertices[c].degree + 1, ..self.vertices[c] },
            ).update(d, Vertex { degree: self.vertices[d].degree + 1, ..self.vertices[d] }),
            half_edges: Seq::new(
                self.half_edges.len(),
                |i: int|
                    {
                        let h = self.half_edges[i];
                        let shifted = if h.origin == a && h.vpos > xa {
                            h.vpos - 1
                        } else if h.origin == b && h.vpos > xb {
                            h.vpos - 1
                        } else if h.origin == c && h.vpos > xc {
                            h.vpos + 1
                        } else if h.origin == d && h.vpos > xd {
                            h.vpos + 1
                        } else {
                            h.vpos
                        };
                        if i == e {
                            HalfEdge {
                                next: tp,
                                prev: en,
                                face: fe,
                                origin: c,
                                fpos: 0,
                                vpos: xc + 1,
                            }
                        } else if i == tp {
                            HalfEdge { next: en, prev: e, face: fe, fpos: 1, vpos: shifted, ..h }
                        } else if i == en {
                            HalfEdge { next: e, prev: tp, face: fe, fpos: 2, vpos: shifted, ..h }
                        } else if i == t {
                            HalfEdge {
                                next: ep,
                                prev: tn,
                                face: ft,
                                origin: d,
                                fpos: 0,
                                vpos: xd + 1,
                            }
                        } else if i == ep {
                            HalfEdge { next: tn, prev: t, face: ft, fpos: 1, vpos: shifted, ..h }
                        } else if i == tn {
                            HalfEdge { next: t, prev: ep, face: ft, fpos: 2, vpos: shifted, ..h }
                        } else {
                            HalfEdge { vpos: shifted, ..h }
                        }
                    },
            ),
            faces: self.faces.update(fe, Face { edge: Some(e), len: 3 }).update(
                ft,
                Face { edge: Some(t), len: 3 },
            ),
        }
    }

    /// The six half-edges of the two triangles beside a half-edge that can be
    /// flipped are different half-edges, and each triangle is a cycle of
    /// three.
    #[verifier::spinoff_prover]
    pub proof fn lemma_flip_context(self, e: int)
        requires
            self.wf(),
            self.can_flip(e),
        ensures
            ({
                let t = twin_index(e);
                let en = self.next(e);
                let ep = self.prev(e);
                let tn = self.next(t);
                let tp = self.prev(t);
                &&& self.valid_edge(t)
                &&& self.edge_ok(e) && self.edge_ok(t) && self.edge_ok(en) && self.edge_ok(ep)
                    && self.edge_ok(tn) && self.edge_ok(tp)
                &&& self.next(en) == ep && self.next(ep) == e && self.prev(en) == e && self.prev(ep)
                    == en
                &&& self.next(tn) == tp && self.next(tp) == t && self.prev(tn) == t && self.prev(tp)
                    == tn
                &&& self.face(en) == self.face(e) && self.face(ep) == self.face(e)
                &&& self.face(tn) == self.face(t) && self.face(tp) == self.face(t)
                &&& e != en && e != ep && en != ep && t != tn && t != tp && tn != tp
                &&& self.origin(en) == self.origin(t) && self.origin(tn) == self.origin(e)
                &&& self.ccw(tn) == e && self.ccw(en) == t
                &&& self.ccw(e) == twin_index(ep) && self.ccw(t) == twin_index(tp)
                &&& self.ccw(ep) == twin_index(en) && self.ccw(tp) == twin_index(tn)
                &&& self.vertex_ok(self.origin(e)) && self.vertex_ok(self.origin(t))
                    && self.vertex_ok(self.origin(ep)) && self.vertex_ok(self.origin(tp))
                &&& self.face_ok(self.face(e)) && self.face_ok(self.face(t))
            }),
    {
        let t = twin_index(e);
        let en = self.next(e);
        let ep = self.prev(e);
        let tn = self.next(t);
        let tp = self.prev(t);
        assert(self.edge_ok(e));
        assert(self.edge_ok(t));
        assert(self.edge_ok(en));
        assert(self.edge_ok(ep));
        assert(self.edge_ok(tn));
        assert(self.edge_ok(tp));
        assert(self.edge_ok(self.next(en)));
        assert(self.edge_ok(self.next(tn)));
        if self.next(en) != ep {
            assert(self.positions_differ(self.next(en), ep));
        }
        if self.next(tn) != tp {
            assert(self.positions_differ(self.next(tn), tp));
        }
        assert(self.vertex_ok(self.origin(e)));
        assert(self.vertex_ok(self.origin(t)));
        assert(self.vertex_ok(self.origin(ep)));
        assert(self.vertex_ok(self.origin(tp)));
        assert(self.face_ok(self.face(e)));
        assert(self.face_ok(self.face(t)));
    }

    #[verifier::spinoff_prover]
    proof fn lemma_flip_links(self, e: int, i: int)
        requires
            self.wf(),
            self.can_flip(e),
            self.valid_edge(i),
        ensures
            self.flip_cw(e).edge_links_ok(i),
    {
        self.lemma_flip_context(e);
        assert(self.edge_ok(i));
        assert(self.edge_ok(self.next(i)));
        assert(self.edge_ok(self.prev(i)));
        assert(self.edge_ok(twin_index(i)));
    }

    #[verifier::spinoff_prover]
    proof fn lemma_flip_fpos(self, e: int, i: int)
        requires
            self.wf(),
            self.can_flip(e),
            self.valid_edge(i),
        ensures
            self.flip_cw(e).edge_fpos_ok(i),
    {
        self.lemma_flip_context(e);
        assert(self.edge_ok(i));
        assert(self.edge_ok(self.next(i)));
    }

    #[verifier::spinoff_prover]
    proof fn lemma_flip_vpos(self, e: int, i: int)
        requires
            self.wf(),
            self.can_flip(e),
            self.valid_edge(i),
        ensures
            self.flip_cw(e).edge_vpos_ok(i),
    {
        let t = twin_index(e);
        let ep = self.prev(e);
        let tp = self.prev(t);
        self.lemma_flip_context(e);
        assert(self.edge_ok(i));
        self.lemma_ccw(i);
        self.lemma_ccw(e);
        self.lemma_ccw(t);
        self.lemma_ccw(ep);
        self.lemma_ccw(tp);
        assert(self.edge_ok(self.prev(i)));
        let c = self.ccw(i);
        if i != e {
            assert(self.positions_differ(i, e));
        }
        if i != t {
            assert(self.positions_differ(i, t));
        }
        if i != ep {
            assert(self.positions_differ(i, ep));
        }
        if i != tp {
            assert(self.positions_differ(i, tp));
        }
        if c != e {
            assert(self.positions_differ(c, e));
        }
        if c != t {
            assert(self.positions_differ(c, t));
        }
        if c != ep {
            assert(self.positions_differ(c, ep));
        }
        if c != tp {
            assert(self.positions_differ(c, tp));
        }
    }

    #[verifier::spinoff_prover]
    proof fn lemma_flip_positions(self, e: int, e1: int, e2: int)
        requires
            self.wf(),
            self.can_flip(e),
            self.valid_edge(e1),
            self.valid_edge(e2),
            e1 != e2,
        ensures
            self.flip_cw(e).positions_differ(e1, e2),
    {
        let t = twin_index(e);
        let ep = self.prev(e);
        let tp = self.prev(t);
        let en = self.next(e);
        let tn = self.next(t);
        self.lemma_flip_context(e);
        assert(self.edge_ok(e1));
        assert(self.edge_ok(e2));
        assert(self.positions_differ(e1, e2));
        assert(self.positions_differ(e, en));
        assert(self.positions_differ(e, ep));
        assert(self.positions_differ(en, ep));
        assert(self.positions_differ(t, tn));
        assert(self.positions_differ(t, tp));
        assert(self.positions_differ(tn, tp));
        if e1 != en {
            assert(self.positions_differ(e1, en));
        }
        if e1 != tn {
            assert(self.positions_differ(e1, tn));
        }
        if e2 != en {
            assert(self.positions_differ(e2, en));
        }
        if e2 != tn {
            assert(self.positions_differ(e2, tn));
        }
        if e1 != e {
            assert(self.positions_differ(e1, e));
        }
        if e1 != t {
            assert(self.positions_differ(e1, t));
        }
        if e1 != ep {
            assert(self.positions_differ(e1, ep));
        }
        if e1 != tp {
            assert(self.positions_differ(e1, tp));
        }
        if e2 != e {
            assert(self.positions_differ(e2, e));
        }
        if e2 != t {
            assert(self.positions_differ(e2, t));
        }
        if e2 != ep {
            assert(self.positions_differ(e2, ep));
        }
        if e2 != tp {
            assert(self.positions_differ(e2, tp));
        }
    }

    #[verifier::spinoff_prover]
    pub proof fn lemma_flip_cw_wf(self, e: int)
        requires
            self.wf(),
            self.can_flip(e),
        ensures
            self.flip_cw(e).wf(),
    {
        let m = self.flip_cw(e);
        self.lemma_flip_context(e);
        assert(self.positions_differ(e, self.next(twin_index(e))));
        assert(self.positions_differ(twin_index(e), self.next(e)));
        assert forall|i: int| 0 <= i < m.half_edges.len() implies #[trigger] m.edge_ok(i) by {
            self.lemma_flip_links(e, i);
            self.lemma_flip_fpos(e, i);
            self.lemma_flip_vpos(e, i);
        }
        assert forall|e1: int, e2: int|
            0 <= e1 < m.half_edges.len() && 0 <= e2 < m.half_edges.len() && e1
                != e2 implies #[trigger] m.positions_differ(e1, e2) by {
            self.lemma_flip_positions(e, e1, e2);
        }
        assert forall|u: int| 0 <= u < m.vertices.len() implies #[trigger] m.vertex_ok(u) by {
            assert(self.vertex_ok(u));
        }
        assert forall|g: int| 0 <= g < m.faces.len() implies #[trigger] m.face_ok(g) by {
            assert(self.face_ok(g));
        }
    }
}


/// Removing an edge.
impl Mesh {
    /// Whether `i` is one of the two half-edges of the pair that starts at the
    /// even index `x`.
    pub open spec fn in_pair(x: int, i: int) -> bool {
        i == x || i == x + 1
    }

    /// The half-edge `e` is consistent and does not refer to the pair `x`.
    pub open spec fn live_edge_ok(self, x: int, e: int) -> bool {
        &&& self.edge_ok(e)
        &&& !Self::in_pair(x, self.next(e))
        &&& !Self::in_pair(x, self.prev(e))
    }

    /// The vertex `v` is consistent and does not refer to the pair `x`.
    pub open spec fn live_vertex_ok(self, x: int, v: int) -> bool {
        &&& self.vertex_ok(v)
        &&& self.vertices[v].out_edge.is_some() ==> !Self::in_pair(
            x,
            self.vertices[v].out_edge.unwrap(),
        )
    }

    /// The face `f` is consistent and does not refer to the pair `x`.
    pub open spec fn live_face_ok(self, x: int, f: int) -> bool {
        &&& self.face_ok(f)
        &&& self.faces[f].edge.is_some() ==> !Self::in_pair(x, self.faces[f].edge.unwrap())
    }

    /// The mesh is well formed but for the pair of half-edges `x` and
    /// `x + 1`, to which nothing refers any more.
    pub open spec fn wf_except(self, x: int) -> bool {
        &&& self.faces.len() >= 1
        &&& self.half_edges.len() % 2 == 0
        &&& 0 <= x < self.half_edges.len()
        &&& x % 2 == 0
        &&& forall|e: int|
            0 <= e < self.half_edges.len() && !Self::in_pair(x, e) ==> #[trigger] self.live_edge_ok(
                x,
                e,
            )
        &&& forall|e1: int, e2: int|
            0 <= e1 < self.half_edges.len() && 0 <= e2 < self.half_edges.len() && e1 != e2
                && !Self::in_pair(x, e1) && !Self::in_pair(x, e2)
                ==> #[trigger] self.positions_differ(e1, e2)
        &&& forall|v: int| 0 <= v < self.vertices.len() ==> #[trigger] self.live_vertex_ok(x, v)
        &&& forall|f: int| 0 <= f < self.faces.len() ==> #[trigger] self.live_face_ok(x, f)
    }

    /// What a caller has to know before it removes the edge of the half-edge
    /// `e`: its end points differ, and it either separates two faces or ends
    /// in a vertex that has no other edge.
    pub open spec fn can_unlink(self, e: int) -> bool {
        let t = twin_index(e);
        &&& self.valid_edge(e)
        &&& self.origin(e) != self.origin(t)
        &&& (self.face(e) != self.face(t) || self.prev(e) == t || self.next(e) == t)
    }

    /// The face that is left where the edge of the half-edge `e` is removed.
    pub open spec fn kept_face(self, e: int, keep_twin_face: bool) -> int {
        if keep_twin_face {
            self.face(twin_index(e))
        } else {
            self.face(e)
        }
    }

    /// The face that loses all its half-edges where the edge of the half-edge
    /// `e` is removed, if the edge separates two faces.
    pub open spec fn dropped_face(self, e: int, keep_twin_face: bool) -> int {
        if keep_twin_face {
            self.face(e)
        } else {
            self.face(twin_index(e))
        }
    }

    /// The mesh after the half-edge `e` and its twin have been taken out of
    /// all cycles and rings. Their two entries are still there, but nothing
    /// refers to them. Where the edge separated two faces, the kept face takes
    /// over the half-edges of the other one.
    pub open spec fn unlink(self, e: int, keep_twin_face: bool) -> Mesh {
        let t = twin_index(e);
        let he = self.half_edges[e];
        let ht = self.half_edges[t];
        let en = he.next;
        let ep = he.prev;
        let tn = ht.next;
        let tp = ht.prev;
        let a = he.origin;
        let b = ht.origin;
        let fe = he.face;
        let ft = ht.face;
        let le = self.faces[fe].len;
        let lt = self.faces[ft].len;
        let kf = self.kept_face(e, keep_twin_face);
        let rf = self.dropped_face(e, keep_twin_face);
        let leaf_a = ep == t;
        let leaf_b = en == t;
        let base = if leaf_a {
            en
        } else {
            tn
        };
        Mesh {
            vertices: self.vertices.update(
                a,
                Vertex {
                    out_edge: if leaf_a {
                        None
                    } else {
                        Some(tn)
                    },
                    degree: self.vertices[a].degree - 1,
                },
            ).update(
                b,
                Vertex {
                    out_edge: if leaf_b {
                        None
                    } else {
                        Some(en)
                    },
                    degree: self.vertices[b].degree - 1,
                },
            ),
            half_edges: Seq::new(
                self.half_edges.len(),
                |i: int|
                    {
                        let h = self.half_edges[i];
                        if i == e || i == t {
                            h
                        } else {
                            HalfEdge {
                                next: if i == ep {
                                    tn
                                } else if i == tp {
                                    en
                                } else {
                                    h.next
                                },
                                prev: if i == tn {
                                    ep
                                } else if i == en {
                                    tp
                                } else {
                                    h.prev
                                },
                                face: if h.face == fe || h.face == ft {
                                    kf
                                } else {
                                    h.face
                                },
                                origin: h.origin,
                                fpos: if fe != ft {
                                    if h.face == fe {
                                        cyclic_distance(self.half_edges[en].fpos, h.fpos, le)
                                    } else if h.face == ft {
                                        le - 1 + cyclic_distance(
                                            self.half_edges[tn].fpos,
                                            h.fpos,
                                            lt,
                                        )
                                    } else {
                                        h.fpos
                                    }
                                } else if h.face == fe {
                                    cyclic_distance(self.half_edges[base].fpos, h.fpos, le)
                                } else {
                                    h.fpos
                                },
                                vpos: if h.origin == a && h.vpos > he.vpos {
                                    h.vpos - 1
                                } else if h.origin == b && h.vpos > ht.vpos {
                                    h.vpos - 1
                                } else {
                                    h.vpos
                                },
                            }
                        }
                    },
            ),
            faces: if fe != ft {
                self.faces.update(rf, Face { edge: None, len: 0 }).update(
                    kf,
                    Face { edge: Some(ep), len: le + lt - 2 },
                )
            } else {
                self.faces.update(
                    fe,
                    Face {
                        edge: if leaf_a && leaf_b {
                            None
                        } else if leaf_a {
                            Some(en)
                        } else {
                            Some(ep)
                        },
                        len: le - 2,
                    },
                )
            },
        }
    }

    #[verifier::spinoff_prover]
    pub proof fn lemma_unlink_context(self, e: int)
        requires
            self.wf(),
            self.can_unlink(e),
        ensures
            ({
                let t = twin_index(e);
                let en = self.next(e);
                let ep = self.prev(e);
                let tn = self.next(t);
                let tp = self.prev(t);
                &&& self.valid_edge(t)
                &&& t != e
                &&& twin_index(t) == e
                &&& self.edge_ok(e) && self.edge_ok(t) && self.edge_ok(en) && self.edge_ok(ep)
                    && self.edge_ok(tn) && self.edge_ok(tp)
                &&& en != e && ep != e && tn != t && tp != t
                &&& (ep == t <==> tn == e)
                &&& (en == t <==> tp == e)
                &&& self.origin(en) == self.origin(t)
                &&& self.origin(tn) == self.origin(e)
                &&& self.ccw(tn) == e && self.ccw(en) == t
                &&& self.ccw(e) == twin_index(ep) && self.ccw(t) == twin_index(tp)
                &&& self.vertex_ok(self.origin(e)) && self.vertex_ok(self.origin(t))
                &&& self.face_ok(self.face(e)) && self.face_ok(self.face(t))
                &&& (ep == t ==> self.vertices[self.origin(e)].degree == 1)
                &&& (en == t ==> self.vertices[self.origin(t)].degree == 1)
                &&& (ep != t ==> self.vertices[self.origin(e)].degree >= 2)
                &&& (en != t ==> self.vertices[self.origin(t)].degree >= 2)
                &&& (ep == t && en == t ==> self.faces[self.face(e)].len == 2)
                &&& (self.face(e) == self.face(t) ==> self.faces[self.face(e)].len >= 2)
                &&& self.faces[self.face(e)].len >= 2
                &&& self.faces[self.face(t)].len >= 2
                &&& (self.face(e) == self.face(t) && !(ep == t && en == t)
                    ==> self.faces[self.face(e)].len >= 3)
                &&& en != tn
                &&& ep != tp
            }),
    {
        let t = twin_index(e);
        let en = self.next(e);
        let ep = self.prev(e);
        let tn = self.next(t);
        let tp = self.prev(t);
        assert(self.edge_ok(e));
        assert(self.edge_ok(t));
        assert(self.edge_ok(en));
        assert(self.edge_ok(ep));
        assert(self.edge_ok(tn));
        assert(self.edge_ok(tp));
        self.lemma_ccw(e);
        self.lemma_ccw(t);
        assert(self.vertex_ok(self.origin(e)));
        assert(self.vertex_ok(self.origin(t)));
        assert(self.face_ok(self.face(e)));
        assert(self.face_ok(self.face(t)));
        if ep != t {
            assert(self.positions_differ(e, tn));
        }
        if en != t {
            assert(self.positions_differ(t, en));
        }
        assert(self.positions_differ(e, t));
        assert(self.positions_differ(e, en));
        assert(self.positions_differ(t, tn));
        assert(self.positions_differ(e, ep));
        assert(self.positions_differ(t, tp));
        if ep != t {
            assert(self.positions_differ(ep, t));
        }
    }

    #[verifier::spinoff_prover]
    #[verifier::rlimit(40)]
    proof fn lemma_unlink_links(self, e: int, k: bool, i: int)
        requires
            self.wf(),
            self.can_unlink(e),
            self.valid_edge(i),
            i != e,
            i != twin_index(e),
        ensures
            self.unlink(e, k).edge_links_ok(i),
            self.unlink(e, k).next(i) != e,
            self.unlink(e, k).next(i) != twin_index(e),
            self.unlink(e, k).prev(i) != e,
            self.unlink(e, k).prev(i) != twin_index(e),
    {
        let t = twin_index(e);
        let m = self.unlink(e, k);
        self.lemma_unlink_context(e);
        assert(self.edge_ok(i));
        assert(self.edge_ok(self.next(i)));
        assert(self.edge_ok(self.prev(i)));
        assert(self.edge_ok(twin_index(i)));
        let ni = m.next(i);
        let pi = m.prev(i);
        assert(ni != e && ni != t);
        assert(pi != e && pi != t);
        assert(m.prev(ni) == i);
        assert(m.next(pi) == i);
        assert(m.origin(ni) == self.origin(ni));
        assert(m.origin(twin_index(i)) == self.origin(twin_index(i)));
        assert(self.origin(ni) == self.origin(twin_index(i))) by {
            if i == self.prev(e) {
                assert(self.origin(twin_index(i)) == self.origin(e));
            } else if i == self.prev(t) {
                assert(self.origin(twin_index(i)) == self.origin(t));
            }
        }
        assert(m.face(ni) == m.face(i));
    }

    #[verifier::spinoff_prover]
    proof fn lemma_unlink_fpos(self, e: int, k: bool, i: int)
        requires
            self.wf(),
            self.can_unlink(e),
            self.valid_edge(i),
            i != e,
            i != twin_index(e),
        ensures
            self.unlink(e, k).edge_fpos_ok(i),
    {
        let t = twin_index(e);
        let en = self.next(e);
        let ep = self.prev(e);
        let tn = self.next(t);
        let tp = self.prev(t);
        let fe = self.face(e);
        let ft = self.face(t);
        let le = self.faces[fe].len;
        let lt = self.faces[ft].len;
        let m = self.unlink(e, k);
        self.lemma_unlink_context(e);
        assert(self.edge_ok(i));
        let ni = self.next(i);
        assert(self.edge_ok(ni));
        assert(self.positions_differ(i, e));
        assert(self.positions_differ(i, t));
        if i != en {
            assert(self.positions_differ(i, en));
        }
        if i != tn {
            assert(self.positions_differ(i, tn));
        }
        if ni != e {
            assert(self.positions_differ(ni, e));
        }
        if ni != t {
            assert(self.positions_differ(ni, t));
        }
        if ni != en {
            assert(self.positions_differ(ni, en));
        }
        if ni != tn {
            assert(self.positions_differ(ni, tn));
        }
        let pe = self.half_edges[e].fpos;
        let pt = self.half_edges[t].fpos;
        let pi = self.half_edges[i].fpos;
        assert(self.half_edges[en].fpos == succ_mod(pe, le));
        assert(self.half_edges[tn].fpos == succ_mod(pt, lt));
        assert(self.half_edges[ni].fpos == succ_mod(pi, self.faces[self.face(i)].len));
        if fe != ft {
            if self.face(i) == fe {
                assert(pi != pe);
                if i == ep {
                    assert(ni == e);
                    assert(m.next(i) == tn);
                } else {
                    assert(ni != e);
                    assert(m.next(i) == ni);
                }
            } else if self.face(i) == ft {
                assert(pi != pt);
                if i == tp {
                    assert(ni == t);
                    assert(m.next(i) == en);
                } else {
                    assert(ni != t);
                    assert(m.next(i) == ni);
                }
            } else {
                assert(m.next(i) == ni);
            }
        } else if self.face(i) == fe {
            assert(pi != pe);
            assert(pi != pt);
            if self.prev(e) == t && self.next(e) == t {
                assert(le == 2);
            } else if self.prev(e) == t {
                assert(tn == e);
                assert(pe == succ_mod(pt, le));
                if i == tp {
                    assert(m.next(i) == en);
                } else {
                    assert(m.next(i) == ni);
                }
            } else {
                assert(en == t);
                assert(pt == succ_mod(pe, le));
                if i == ep {
                    assert(m.next(i) == tn);
                } else {
                    assert(m.next(i) == ni);
                }
            }
        } else {
            assert(m.next(i) == ni);
        }
    }

    #[verifier::spinoff_prover]
    proof fn lemma_unlink_vpos(self, e: int, k: bool, i: int)
        requires
            self.wf(),
            self.can_unlink(e),
            self.valid_edge(i),
            i != e,
            i != twin_index(e),
        ensures
            self.unlink(e, k).edge_vpos_ok(i),
    {
        let t = twin_index(e);
        self.lemma_unlink_context(e);
        assert(self.edge_ok(i));
        self.lemma_ccw(i);
        assert(self.edge_ok(self.prev(i)));
        let c = self.ccw(i);
        assert(self.positions_differ(i, e));
        assert(self.positions_differ(i, t));
        if c != e {
            assert(self.positions_differ(c, e));
        }
        if c != t {
            assert(self.positions_differ(c, t));
        }
    }

    #[verifier::spinoff_prover]
    proof fn lemma_unlink_positions(self, e: int, k: bool, e1: int, e2: int)
        requires
            self.wf(),
            self.can_unlink(e),
            self.valid_edge(e1),
            self.valid_edge(e2),
            e1 != e2,
            e1 != e,
            e1 != twin_index(e),
            e2 != e,
            e2 != twin_index(e),
        ensures
            self.unlink(e, k).positions_differ(e1, e2),
    {
        let t = twin_index(e);
        let en = self.next(e);
        let tn = self.next(t);
        self.lemma_unlink_context(e);
        assert(self.edge_ok(e1));
        assert(self.edge_ok(e2));
        assert(self.positions_differ(e1, e2));
        assert(self.positions_differ(e1, e));
        assert(self.positions_differ(e1, t));
        assert(self.positions_differ(e2, e));
        assert(self.positions_differ(e2, t));
    }

    #[verifier::spinoff_prover]
    pub proof fn lemma_unlink_wf_except(self, e: int, k: bool)
        requires
            self.wf(),
            self.can_unlink(e),
        ensures
            self.unlink(e, k).wf_except(e - e % 2),
    {
        let m = self.unlink(e, k);
        let x = e - e % 2;
        let t = twin_index(e);
        self.lemma_unlink_context(e);
        assert forall|i: int|
            0 <= i < m.half_edges.len() && !Self::in_pair(x, i) implies #[trigger] m.live_edge_ok(
            x,
            i,
        ) by {
            self.lemma_unlink_links(e, k, i);
            self.lemma_unlink_fpos(e, k, i);
            self.lemma_unlink_vpos(e, k, i);
        }
        assert forall|e1: int, e2: int|
            0 <= e1 < m.half_edges.len() && 0 <= e2 < m.half_edges.len() && e1 != e2
                && !Self::in_pair(x, e1) && !Self::in_pair(x, e2) implies #[trigger] m.positions_differ(
            e1,
            e2,
        ) by {
            self.lemma_unlink_positions(e, k, e1, e2);
        }
        assert forall|u: int| 0 <= u < m.vertices.len() implies #[trigger] m.live_vertex_ok(
            x,
            u,
        ) by {
            assert(self.vertex_ok(u));
        }
        assert forall|g: int| 0 <= g < m.faces.len() implies #[trigger] m.live_face_ok(x, g) by {
            assert(self.face_ok(g));
            if self.faces[g].edge.is_some() {
                assert(self.edge_ok(self.faces[g].edge.unwrap()));
            }
        }
    }
}


/// Closing the gaps that a removal leaves.
impl Mesh {
    /// The new index of the half-edge `i` after the last pair of half-edges
    /// has moved into the place of the pair `x`.
    pub open spec fn moved_edge(self, x: int, i: int) -> int {
        let last = self.num_half_edges() - 2;
        if i == last {
            x
        } else if i == last + 1 {
            x + 1
        } else {
            i
        }
    }

    /// The old index of the half-edge that stands at `i` after the last pair
    /// of half-edges has moved into the place of the pair `x`.
    pub open spec fn edge_source(self, x: int, i: int) -> int {
        let last = self.num_half_edges() - 2;
        if i == x {
            last
        } else if i == x + 1 {
            last + 1
        } else {
            i
        }
    }

    /// The new index of an optional half-edge.
    pub open spec fn moved_edge_option(self, x: int, o: Option<int>) -> Option<int> {
        match o {
            Some(i) => Some(self.moved_edge(x, i)),
            None => None,
        }
    }

    /// The mesh after the pair of half-edges `x`, `x + 1` has been dropped
    /// and the last pair has taken its place.
    pub open spec fn swap_remove_pair(self, x: int) -> Mesh {
        Mesh {
            vertices: Seq::new(
                self.vertices.len(),
                |v: int|
                    Vertex {
                        out_edge: self.moved_edge_option(x, self.vertices[v].out_edge),
                        ..self.vertices[v]
                    },
            ),
            half_edges: Seq::new(
                (self.half_edges.len() - 2) as nat,
                |i: int|
                    {
                        let h = self.half_edges[self.edge_source(x, i)];
                        HalfEdge {
                            next: self.moved_edge(x, h.next),
                            prev: self.moved_edge(x, h.prev),
                            ..h
                        }
                    },
            ),
            faces: Seq::new(
                self.faces.len(),
                |f: int|
                    Face { edge: self.moved_edge_option(x, self.faces[f].edge), ..self.faces[f] },
            ),
        }
    }

    #[verifier::spinoff_prover]
    proof fn lemma_swap_remove_pair_edge(self, x: int, i: int)
        requires
            self.wf_except(x),
            0 <= i < self.num_half_edges() - 2,
        ensures
            self.swap_remove_pair(x).edge_ok(i),
    {
        let m = self.swap_remove_pair(x);
        let s = self.edge_source(x, i);
        assert(self.live_edge_ok(x, s));
        let h = self.half_edges[s];
        assert(self.live_edge_ok(x, h.next));
        assert(self.live_edge_ok(x, h.prev));
        assert(twin_index(self.moved_edge(x, h.prev)) == self.moved_edge(x, twin_index(h.prev)));
        assert(twin_index(i) == self.moved_edge(x, twin_index(s)));
        assert(self.edge_source(x, self.moved_edge(x, h.next)) == h.next);
        assert(self.edge_source(x, self.moved_edge(x, h.prev)) == h.prev);
        assert(self.edge_source(x, twin_index(i)) == twin_index(s));
        assert(self.edge_source(x, twin_index(self.moved_edge(x, h.prev))) == twin_index(h.prev));
    }

    #[verifier::spinoff_prover]
    pub proof fn lemma_swap_remove_pair_wf(self, x: int)
        requires
            self.wf_except(x),
        ensures
            self.swap_remove_pair(x).wf(),
    {
        let m = self.swap_remove_pair(x);
        assert forall|i: int| 0 <= i < m.half_edges.len() implies #[trigger] m.edge_ok(i) by {
            self.lemma_swap_remove_pair_edge(x, i);
        }
        assert forall|e1: int, e2: int|
            0 <= e1 < m.half_edges.len() && 0 <= e2 < m.half_edges.len() && e1
                != e2 implies #[trigger] m.positions_differ(e1, e2) by {
            assert(self.positions_differ(self.edge_source(x, e1), self.edge_source(x, e2)));
        }
        assert forall|u: int| 0 <= u < m.vertices.len() implies #[trigger] m.vertex_ok(u) by {
            assert(self.live_vertex_ok(x, u));
            if self.vertices[u].out_edge.is_some() {
                let o = self.vertices[u].out_edge.unwrap();
                assert(self.edge_source(x, self.moved_edge(x, o)) == o);
            }
        }
        assert forall|g: int| 0 <= g < m.faces.len() implies #[trigger] m.face_ok(g) by {
            assert(self.live_face_ok(x, g));
            if self.faces[g].edge.is_some() {
                let o = self.faces[g].edge.unwrap();
                assert(self.edge_source(x, self.moved_edge(x, o)) == o);
            }
        }
    }

    /// The mesh after the edge of the half-edge `e` has been removed, and the
    /// last pair of half-edges has taken the place of `e` and its twin.
    pub open spec fn remove_edge(self, e: int, keep_twin_face: bool) -> Mesh {
        self.unlink(e, keep_twin_face).swap_remove_pair(e - e % 2)
    }

    pub proof fn lemma_remove_edge_wf(self, e: int, keep_twin_face: bool)
        requires
            self.wf(),
            self.can_unlink(e),
        ensures
            self.remove_edge(e, keep_twin_face).wf(),
    {
        self.lemma_unlink_wf_except(e, keep_twin_face);
        self.unlink(e, keep_twin_face).lemma_swap_remove_pair_wf(e - e % 2);
    }

    /// The mesh after the face `f`, which has no half-edge, has been dropped
    /// and the last face has taken its place.
    pub open spec fn remove_empty_face(self, f: int) -> Mesh {
        let last = self.num_faces() - 1;
        Mesh {
            vertices: self.vertices,
            half_edges: Seq::new(
                self.half_edges.len(),
                |i: int|
                    {
                        let h = self.half_edges[i];
                        HalfEdge {
                            face: if h.face == last {
                                f
                            } else {
                                h.face
                            },
                            ..h
                        }
                    },
            ),
            faces: Seq::new(
                (self.faces.len() - 1) as nat,
                |g: int|
                    if g == f {
                        self.faces[last]
                    } else {
                        self.faces[g]
                    },
            ),
        }
    }

    #[verifier::spinoff_prover]
    pub proof fn lemma_remove_empty_face_wf(self, f: int)
        requires
            self.wf(),
            1 <= f < self.num_faces(),
            self.faces[f].len == 0,
        ensures
            self.remove_empty_face(f).wf(),
    {
        let m = self.remove_empty_face(f);
        let last = self.num_faces() - 1;
        assert(self.face_ok(f));
        assert forall|i: int| 0 <= i < m.half_edges.len() implies #[trigger] m.edge_ok(i) by {
            assert(self.edge_ok(i));
            assert(self.edge_ok(self.next(i)));
            self.lemma_empty_face(f, i);
        }
        assert forall|e1: int, e2: int|
            0 <= e1 < m.half_edges.len() && 0 <= e2 < m.half_edges.len() && e1
                != e2 implies #[trigger] m.positions_differ(e1, e2) by {
            assert(self.positions_differ(e1, e2));
            self.lemma_empty_face(f, e1);
            self.lemma_empty_face(f, e2);
        }
        assert forall|u: int| 0 <= u < m.vertices.len() implies #[trigger] m.vertex_ok(u) by {
            assert(self.vertex_ok(u));
        }
        assert forall|g: int| 0 <= g < m.faces.len() implies #[trigger] m.face_ok(g) by {
            assert(self.face_ok(g));
            assert(self.face_ok(last));
        }
    }

    /// The mesh after the vertex `v`, which has no half-edge, has been dropped
    /// and the last vertex has taken its place.
    pub open spec fn remove_isolated_vertex(self, v: int) -> Mesh {
        let last = self.num_vertices() - 1;
        Mesh {
            vertices: Seq::new(
                (self.vertices.len() - 1) as nat,
                |u: int|
                    if u == v {
                        self.vertices[last]
                    } else {
                        self.vertices[u]
                    },
            ),
            half_edges: Seq::new(
                self.half_edges.len(),
                |i: int|
                    {
                        let h = self.half_edges[i];
                        HalfEdge {
                            origin: if h.origin == last {
                                v
                            } else {
                                h.origin
                            },
                            ..h
                        }
                    },
            ),
            faces: self.faces,
        }
    }

    #[verifier::spinoff_prover]
    pub proof fn lemma_remove_isolated_vertex_wf(self, v: int)
        requires
            self.wf(),
            self.valid_vertex(v),
            self.vertices[v].out_edge.is_none(),
        ensures
            self.remove_isolated_vertex(v).wf(),
    {
        let m = self.remove_isolated_vertex(v);
        let last = self.num_vertices() - 1;
        assert(self.vertex_ok(v));
        assert forall|i: int| 0 <= i < m.half_edges.len() implies #[trigger] m.edge_ok(i) by {
            assert(self.edge_ok(i));
            assert(self.edge_ok(self.next(i)));
            assert(self.edge_ok(self.prev(i)));
            self.lemma_ccw(i);
            self.lemma_isolated_vertex(v, i);
            self.lemma_isolated_vertex(v, self.next(i));
            self.lemma_isolated_vertex(v, twin_index(i));
        }
        assert forall|e1: int, e2: int|
            0 <= e1 < m.half_edges.len() && 0 <= e2 < m.half_edges.len() && e1
                != e2 implies #[trigger] m.positions_differ(e1, e2) by {
            assert(self.positions_differ(e1, e2));
            self.lemma_isolated_vertex(v, e1);
            self.lemma_isolated_vertex(v, e2);
        }
        assert forall|u: int| 0 <= u < m.vertices.len() implies #[trigger] m.vertex_ok(u) by {
            assert(self.vertex_ok(u));
            assert(self.vertex_ok(last));
        }
        assert forall|g: int| 0 <= g < m.faces.len() implies #[trigger] m.face_ok(g) by {
            assert(self.face_ok(g));
        }
    }
}


/// Removing a vertex.
impl Mesh {
    /// The half-edge `e` is no loop at the vertex `v`.
    pub open spec fn star_edge_ok(self, v: int, e: int) -> bool {
        self.origin(e) == v ==> self.target(e) != v
    }

    /// The half-edges `e1` and `e2` do not leave the vertex `v` along the
    /// same face.
    pub open spec fn star_pair_ok(self, v: int, e1: int, e2: int) -> bool {
        self.origin(e1) == v && self.origin(e2) == v ==> self.face(e1) != self.face(e2)
    }

    /// What a caller has to know before it removes the vertex `v` with all
    /// its edges: no edge at `v` is a loop, and no face touches `v` twice.
    pub open spec fn can_remove_vertex(self, v: int) -> bool {
        &&& self.valid_vertex(v)
        &&& forall|e: int| self.valid_edge(e) ==> #[trigger] self.star_edge_ok(v, e)
        &&& forall|e1: int, e2: int|
            self.valid_edge(e1) && self.valid_edge(e2) && e1 != e2 ==> #[trigger] self.star_pair_ok(
                v,
                e1,
                e2,
            )
    }

    /// Whether the face on the right of the half-edge `e` is kept where the
    /// edge is removed together with its origin: the outer face always
    /// outlives an inner face.
    pub open spec fn keeps_twin_face(self, e: int) -> bool {
        self.face(twin_index(e)) == 0
    }

    /// The mesh after the half-edge that the vertex `v` names has been
    /// removed, and with it the face that the removal has emptied.
    pub open spec fn remove_out_edge(self, v: int) -> Mesh {
        let e = self.vertices[v].out_edge.unwrap();
        let k = self.keeps_twin_face(e);
        let m1 = self.remove_edge(e, k);
        if self.face(e) != self.face(twin_index(e)) {
            m1.remove_empty_face(self.dropped_face(e, k))
        } else {
            m1
        }
    }

    /// The index, after `remove_out_edge(v)`, of the face that is left where
    /// the edge was.
    pub open spec fn merged_face_after(self, v: int) -> int {
        let e = self.vertices[v].out_edge.unwrap();
        let k = self.keeps_twin_face(e);
        let kf = self.kept_face(e, k);
        let rf = self.dropped_face(e, k);
        if self.face(e) != self.face(twin_index(e)) && kf == self.num_faces() - 1 {
            rf
        } else {
            kf
        }
    }

    /// The mesh after all edges of the vertex `v` have been removed, one
    /// after the other, each time the one that `v` names.
    pub open spec fn remove_star(self, v: int) -> Mesh
        decreases self.vertices[v].degree,
    {
        if self.wf() && self.can_remove_vertex(v) && self.vertices[v].out_edge.is_some() {
            proof {
                self.lemma_remove_out_edge(v);
                assert(self.vertex_ok(v));
            }
            self.remove_out_edge(v).remove_star(v)
        } else {
            self
        }
    }

    /// The index of the face into which the faces around the vertex `v` have
    /// merged once all edges of `v` are removed; `g` where `v` has no edge.
    pub open spec fn star_merged_face(self, v: int, g: int) -> int
        decreases self.vertices[v].degree,
    {
        if self.wf() && self.can_remove_vertex(v) && self.vertices[v].out_edge.is_some() {
            proof {
                self.lemma_remove_out_edge(v);
                assert(self.vertex_ok(v));
            }
            self.remove_out_edge(v).star_merged_face(v, self.merged_face_after(v))
        } else {
            g
        }
    }

    /// The mesh after the vertex `v` has been removed with all its edges. The
    /// faces around `v` merge into one, and the last vertex takes the index
    /// `v`.
    pub open spec fn remove_vertex(self, v: int) -> Mesh {
        self.remove_star(v).remove_isolated_vertex(v)
    }

    /// Every inner face but `g` is a triangle.
    pub open spec fn triangles_except(self, g: int) -> bool {
        forall|f: int| 1 <= f < self.faces.len() && f != g ==> (#[trigger] self.faces[f]).len == 3
    }

    /// The half-edge that a vertex names can be removed where the vertex can.
    pub proof fn lemma_out_edge_can_unlink(self, v: int)
        requires
            self.wf(),
            self.can_remove_vertex(v),
            self.vertices[v].out_edge.is_some(),
        ensures
            self.can_unlink(self.vertices[v].out_edge.unwrap()),
            self.origin(self.vertices[v].out_edge.unwrap()) == v,
            self.face(self.vertices[v].out_edge.unwrap()) == self.face(
                twin_index(self.vertices[v].out_edge.unwrap()),
            ) ==> self.prev(self.vertices[v].out_edge.unwrap()) == twin_index(
                self.vertices[v].out_edge.unwrap(),
            ),
            self.face(self.vertices[v].out_edge.unwrap()) != self.face(
                twin_index(self.vertices[v].out_edge.unwrap()),
            ) ==> self.dropped_face(
                self.vertices[v].out_edge.unwrap(),
                self.keeps_twin_face(self.vertices[v].out_edge.unwrap()),
            ) != 0,
    {
        let e = self.vertices[v].out_edge.unwrap();
        let t = twin_index(e);
        assert(self.vertex_ok(v));
        assert(self.edge_ok(e));
        assert(self.edge_ok(t));
        let tn = self.next(t);
        assert(self.edge_ok(tn));
        assert(self.star_edge_ok(v, e));
        if self.face(e) == self.face(t) && self.prev(e) != t {
            assert(self.origin(tn) == v);
            assert(self.origin(e) == v);
            assert(self.face(tn) == self.face(e));
            assert(tn != e);
            assert(self.star_pair_ok(v, tn, e));
        }
    }

    proof fn lemma_remove_edge_fields(self, e: int, k: bool, i: int)
        requires
            self.wf(),
            self.can_unlink(e),
            0 <= i < self.num_half_edges() - 2,
        ensures
            ({
                let m1 = self.remove_edge(e, k);
                let x = e - e % 2;
                let src = self.edge_source(x, i);
                let t = twin_index(e);
                &&& src != e && src != t
                &&& self.valid_edge(src)
                &&& m1.origin(i) == self.origin(src)
                &&& m1.face(i) == (if self.face(src) == self.face(e) || self.face(src) == self.face(
                    t,
                ) {
                    self.kept_face(e, k)
                } else {
                    self.face(src)
                })
                &&& self.moved_edge(x, src) == i
                &&& twin_index(src) == self.edge_source(x, twin_index(i))
                &&& 0 <= twin_index(i) < self.num_half_edges() - 2
            }),
    {
        let u = self.unlink(e, k);
        assert(u.num_half_edges() == self.num_half_edges());
    }

    #[verifier::spinoff_prover]
    pub proof fn lemma_remove_out_edge(self, v: int)
        requires
            self.wf(),
            self.can_remove_vertex(v),
            self.vertices[v].out_edge.is_some(),
        ensures
            self.remove_out_edge(v).wf(),
            self.remove_out_edge(v).can_remove_vertex(v),
            self.remove_out_edge(v).vertices[v].degree == self.vertices[v].degree - 1,
            self.remove_out_edge(v).num_vertices() == self.num_vertices(),
            self.remove_out_edge(v).num_half_edges() == self.num_half_edges() - 2,
    {
        let e = self.vertices[v].out_edge.unwrap();
        let t = twin_index(e);
        let k = self.keeps_twin_face(e);
        let x = e - e % 2;
        self.lemma_out_edge_can_unlink(v);
        self.lemma_remove_edge_wf(e, k);
        self.lemma_unlink_context(e);
        let m1 = self.remove_edge(e, k);
        let m2 = self.remove_out_edge(v);
        let rf = self.dropped_face(e, k);
        if self.face(e) != self.face(t) {
            m1.lemma_remove_empty_face_wf(rf);
        }
        assert forall|i: int| m2.valid_edge(i) implies #[trigger] m2.star_edge_ok(v, i) by {
            self.lemma_remove_edge_fields(e, k, i);
            self.lemma_remove_edge_fields(e, k, twin_index(i));
            let src = self.edge_source(x, i);
            assert(self.star_edge_ok(v, src));
        }
        assert forall|e1: int, e2: int|
            m2.valid_edge(e1) && m2.valid_edge(e2) && e1 != e2 implies #[trigger] m2.star_pair_ok(
            v,
            e1,
            e2,
        ) by {
            self.lemma_remove_edge_fields(e, k, e1);
            self.lemma_remove_edge_fields(e, k, e2);
            let s1 = self.edge_source(x, e1);
            let s2 = self.edge_source(x, e2);
            assert(self.star_pair_ok(v, s1, s2));
            assert(self.star_pair_ok(v, s1, e));
            assert(self.star_pair_ok(v, s2, e));
            let tn = self.next(t);
            if s1 != tn {
                assert(self.star_pair_ok(v, s1, tn));
            }
            if s2 != tn {
                assert(self.star_pair_ok(v, s2, tn));
            }
            assert(self.edge_ok(tn));
        }
    }
}


/// Face sizes under the removal of a vertex.
impl Mesh {
    /// The old index of the face that has the index `f` after
    /// `remove_out_edge(v)`.
    pub open spec fn face_source(self, v: int, f: int) -> int {
        let e = self.vertices[v].out_edge.unwrap();
        let rf = self.dropped_face(e, self.keeps_twin_face(e));
        if self.face(e) != self.face(twin_index(e)) && f == rf {
            self.num_faces() - 1
        } else {
            f
        }
    }

    /// How `remove_out_edge(v)` changes the sizes of the faces: the kept face
    /// takes over the half-edges of the dropped face, less the two that are
    /// removed; every other face keeps its size.
    #[verifier::spinoff_prover]
    pub proof fn lemma_remove_out_edge_faces(self, v: int, f: int)
        requires
            self.wf(),
            self.can_remove_vertex(v),
            self.vertices[v].out_edge.is_some(),
            0 <= f < self.remove_out_edge(v).num_faces(),
        ensures
            ({
                let e = self.vertices[v].out_edge.unwrap();
                let t = twin_index(e);
                let k = self.keeps_twin_face(e);
                let kf = self.kept_face(e, k);
                let rf = self.dropped_face(e, k);
                let m2 = self.remove_out_edge(v);
                let src = self.face_source(v, f);
                &&& self.valid_face(src)
                &&& self.valid_face(kf)
                &&& self.valid_face(rf)
                &&& m2.valid_face(self.merged_face_after(v))
                &&& self.face(e) != self.face(t) ==> m2.num_faces() == self.num_faces() - 1 && rf
                    != 0 && src != rf
                &&& self.face(e) == self.face(t) ==> m2.num_faces() == self.num_faces()
                &&& (f == self.merged_face_after(v) <==> src == kf)
                &&& (f == 0 <==> src == 0)
                &&& m2.faces[f].len == (if src == kf {
                    if self.face(e) != self.face(t) {
                        self.faces[self.face(e)].len + self.faces[self.face(t)].len - 2
                    } else {
                        self.faces[kf].len - 2
                    }
                } else {
                    self.faces[src].len
                })
            }),
    {
        let e = self.vertices[v].out_edge.unwrap();
        let t = twin_index(e);
        let k = self.keeps_twin_face(e);
        self.lemma_out_edge_can_unlink(v);
        self.lemma_unlink_context(e);
        let u = self.unlink(e, k);
        let m1 = self.remove_edge(e, k);
        assert(u.faces.len() == self.faces.len());
        assert(m1.faces.len() == self.faces.len());
        assert(self.edge_ok(e));
        assert(self.edge_ok(t));
    }

    /// One step of the removal of a vertex keeps every face that it does not
    /// touch a triangle, and the merged face grows by one half-edge with
    /// every triangle that it takes in.
    #[verifier::spinoff_prover]
    pub proof fn lemma_remove_out_edge_triangles(self, v: int, g: int, c: int)
        requires
            self.wf(),
            self.can_remove_vertex(v),
            self.vertices[v].out_edge.is_some(),
            self.face(self.vertices[v].out_edge.unwrap()) == g,
            self.triangles_except(g),
            g != 0 ==> self.faces[g].len + self.vertices[v].degree == c + 3,
        ensures
            ({
                let m2 = self.remove_out_edge(v);
                let g2 = self.merged_face_after(v);
                &&& m2.wf()
                &&& m2.can_remove_vertex(v)
                &&& m2.valid_face(g2)
                &&& m2.triangles_except(g2)
                &&& m2.vertices[v].out_edge.is_some() ==> m2.face(m2.vertices[v].out_edge.unwrap())
                    == g2
                &&& g == 0 ==> g2 == 0
                &&& g2 != 0 && m2.vertices[v].out_edge.is_some() ==> m2.faces[g2].len
                    + m2.vertices[v].degree == c + 3
                &&& g2 != 0 && m2.vertices[v].out_edge.is_none() ==> m2.faces[g2].len == c
            }),
    {
        let e = self.vertices[v].out_edge.unwrap();
        let t = twin_index(e);
        let k = self.keeps_twin_face(e);
        let x = e - e % 2;
        let m2 = self.remove_out_edge(v);
        let g2 = self.merged_face_after(v);
        self.lemma_remove_out_edge(v);
        self.lemma_out_edge_can_unlink(v);
        self.lemma_unlink_context(e);
        assert(self.vertex_ok(v));
        assert(m2.vertex_ok(v));
        self.lemma_remove_out_edge_faces(v, g2);
        assert forall|f: int| 1 <= f < m2.faces.len() && f != g2 implies (#[trigger] m2.faces[f]).len
            == 3 by {
            self.lemma_remove_out_edge_faces(v, f);
            let src = self.face_source(v, f);
            assert(self.faces[src].len == 3);
        }
        if self.face(e) != self.face(t) {
            let other = if self.face(e) == g {
                self.face(t)
            } else {
                self.face(e)
            };
            if other != 0 {
                assert(self.faces[other].len == 3);
            }
        }
        if m2.vertices[v].out_edge.is_some() {
            let e2 = m2.vertices[v].out_edge.unwrap();
            self.lemma_remove_edge_fields(e, k, e2);
            let tn = self.next(t);
            assert(self.edge_ok(tn));
            assert(self.edge_ok(t));
            let m1 = self.remove_edge(e, k);
            assert(m1.vertices[v].out_edge == Some(e2));
            assert(self.edge_source(x, e2) == tn);
            assert(m1.face(e2) == self.kept_face(e, k));
            assert(m2.face(e2) == g2);
        }
        assert(m2.valid_face(g2));
        assert(g == 0 ==> g2 == 0);
        assert(m2.vertices[v].degree == self.vertices[v].degree - 1);
        if g2 != 0 {
            assert(g != 0);
            assert(self.face(t) != 0);
            if self.face(e) != self.face(t) {
                assert(self.faces[self.face(t)].len == 3);
                assert(m2.faces[g2].len == self.faces[g].len + 1);
            } else {
                assert(m2.faces[g2].len == self.faces[g].len - 2);
                assert(self.vertices[v].degree == 1);
            }
        }
    }

    /// Where every inner face is a triangle, removing the edges of a vertex
    /// leaves every inner face a triangle but the one into which the faces
    /// around the vertex have merged. If that is an inner face, it has as many
    /// half-edges as the vertex had edges.
    #[verifier::spinoff_prover]
    pub proof fn lemma_remove_star_triangles(self, v: int, g: int, c: int)
        requires
            self.wf(),
            self.can_remove_vertex(v),
            self.valid_face(g),
            self.triangles_except(g),
            self.vertices[v].out_edge.is_some() ==> self.face(self.vertices[v].out_edge.unwrap())
                == g,
            g != 0 && self.vertices[v].out_edge.is_some() ==> self.faces[g].len
                + self.vertices[v].degree == c + 3,
            g != 0 && self.vertices[v].out_edge.is_none() ==> self.faces[g].len == c,
        ensures
            ({
                let mf = self.remove_star(v);
                let gf = self.star_merged_face(v, g);
                &&& mf.wf()
                &&& mf.valid_vertex(v)
                &&& mf.num_vertices() == self.num_vertices()
                &&& mf.vertices[v].out_edge.is_none()
                &&& mf.valid_face(gf)
                &&& mf.triangles_except(gf)
                &&& gf != 0 ==> mf.faces[gf].len == c
                &&& g == 0 ==> gf == 0
                &&& mf.num_half_edges() == self.num_half_edges() - 2 * self.vertices[v].degree
                &&& mf.num_faces() <= self.num_faces()
                &&& mf.num_faces() >= 1
            }),
        decreases self.vertices[v].degree,
    {
        assert(self.vertex_ok(v));
        if self.vertices[v].out_edge.is_some() {
            self.lemma_remove_out_edge(v);
            self.lemma_remove_out_edge_faces(v, 0);
            self.lemma_remove_out_edge(v);
            self.lemma_remove_out_edge_triangles(v, g, c);
            assert(self.vertex_ok(v));
            let m2 = self.remove_out_edge(v);
            let g2 = self.merged_face_after(v);
            m2.lemma_remove_star_triangles(v, g2, c);
        }
    }
}

} // verus!
