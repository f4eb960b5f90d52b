//! The half-edge mesh: storage and topological edits.
//!
//! Vertices, half-edges and faces live in arrays and refer to each other by
//! index. The face with index 0 is the outer face and always exists. Every
//! edit keeps the links of the mesh consistent; none of them looks at
//! positions, so none of them knows of the Delaunay property.
//!
//! What an edit does is stated over the model of the mesh, `Mesh`.
use vstd::prelude::*;
use crate::handles::twin_index;
use crate::mesh::{cyclic_distance, HalfEdge, Mesh};

verus! {

/// The links of one half-edge.
#[derive(Clone, Copy)]
pub struct HalfEdgeEntry {
    next: usize,
    prev: usize,
    face: usize,
    origin: usize,
}

impl HalfEdgeEntry {
    spec fn matches(self, h: HalfEdge) -> bool {
        &&& self.next == h.next
        &&& self.prev == h.prev
        &&& self.face == h.face
        &&& self.origin == h.origin
    }
}

/// An optional index as an optional mathematical integer.
pub open spec fn option_int(o: Option<usize>) -> Option<int> {
    match o {
        Some(i) => Some(i as int),
        None => None,
    }
}

/// What is left of a vertex after its removal.
pub struct VertexRemovalResult<V> {
    /// The payload of the removed vertex.
    pub data: V,
    /// The old index of the vertex that has taken the removed vertex's index,
    /// if any has.
    pub updated_vertex: Option<usize>,
    /// The face into which the faces around the removed vertex have merged.
    pub merged_face: usize,
}

/// A half-edge mesh whose vertices carry a payload of type `V`.
pub struct Dcel<V> {
    data: Vec<V>,
    out_edges: Vec<Option<usize>>,
    face_edges: Vec<Option<usize>>,
    half_edges: Vec<HalfEdgeEntry>,
    model: Ghost<Mesh>,
}

impl<V> Dcel<V> {
    /// The model of the mesh.
    pub closed spec fn mesh(&self) -> Mesh {
        self.model@
    }

    /// The payloads of the vertices, by vertex index.
    pub closed spec fn data(&self) -> Seq<V> {
        self.data@
    }

    /// The arrays hold the model, and the model is well formed.
    pub closed spec fn wf(&self) -> bool {
        let m = self.model@;
        &&& m.wf()
        &&& self.data@.len() == m.vertices.len()
        &&& self.out_edges@.len() == m.vertices.len()
        &&& self.face_edges@.len() == m.faces.len()
        &&& self.half_edges@.len() == m.half_edges.len()
        &&& forall|i: int|
            0 <= i < self.half_edges@.len() ==> (#[trigger] self.half_edges@[i]).matches(
                m.half_edges[i],
            )
        &&& forall|v: int|
            0 <= v < self.out_edges@.len() ==> option_int(#[trigger] self.out_edges@[v])
                == m.vertices[v].out_edge
        &&& forall|f: int|
            0 <= f < self.face_edges@.len() ==> option_int(#[trigger] self.face_edges@[f])
                == m.faces[f].edge
    }

    /// A well-formed mesh has a well-formed model and one payload for each
    /// vertex.
    pub proof fn lemma_wf(&self)
        requires
            self.wf(),
        ensures
            self.mesh().wf(),
            self.data().len() == self.mesh().num_vertices(),
            self.mesh().num_vertices() <= usize::MAX,
            self.mesh().num_half_edges() <= usize::MAX,
            self.mesh().num_faces() <= usize::MAX,
    {
        assert(self.out_edges.len() == self.out_edges@.len());
        assert(self.half_edges.len() == self.half_edges@.len());
        assert(self.face_edges.len() == self.face_edges@.len());
    }

    /// The mesh without vertices and edges.
    pub fn new() -> (d: Self)
        ensures
            d.wf(),
            d.mesh() == Mesh::empty(),
            d.data() == Seq::<V>::empty(),
    {
        let mut face_edges: Vec<Option<usize>> = Vec::new();
        face_edges.push(None);
        proof {
            Mesh::lemma_empty_wf();
        }
        Dcel {
            data: Vec::new(),
            out_edges: Vec::new(),
            face_edges,
            half_edges: Vec::new(),
            model: Ghost(Mesh::empty()),
        }
    }

    pub fn num_vertices(&self) -> (n: usize)
        requires
            self.wf(),
        ensures
            n == self.mesh().num_vertices(),
    {
        self.out_edges.len()
    }

    /// The number of undirected edges.
    pub fn num_edges(&self) -> (n: usize)
        requires
            self.wf(),
        ensures
            n == self.mesh().num_half_edges() / 2,
    {
        self.half_edges.len() / 2
    }

    pub fn num_half_edges(&self) -> (n: usize)
        requires
            self.wf(),
        ensures
            n == self.mesh().num_half_edges(),
    {
        self.half_edges.len()
    }

    /// The number of faces, the outer face included.
    pub fn num_faces(&self) -> (n: usize)
        requires
            self.wf(),
        ensures
            n == self.mesh().num_faces(),
            n >= 1,
    {
        self.face_edges.len()
    }

    /// The successor of the half-edge `e` around the face on its left.
    pub fn next(&self, e: usize) -> (r: usize)
        requires
            self.wf(),
            self.mesh().valid_edge(e as int),
        ensures
            r == self.mesh().next(e as int),
            self.mesh().valid_edge(r as int),
    {
        proof {
            assert(self.mesh().edge_ok(e as int));
        }
        self.half_edges[e].next
    }

    /// The predecessor of the half-edge `e` around the face on its left.
    pub fn prev(&self, e: usize) -> (r: usize)
        requires
            self.wf(),
            self.mesh().valid_edge(e as int),
        ensures
            r == self.mesh().prev(e as int),
            self.mesh().valid_edge(r as int),
    {
        proof {
            assert(self.mesh().edge_ok(e as int));
        }
        self.half_edges[e].prev
    }

    /// The face on the left of the half-edge `e`.
    pub fn face(&self, e: usize) -> (r: usize)
        requires
            self.wf(),
            self.mesh().valid_edge(e as int),
        ensures
            r == self.mesh().face(e as int),
            self.mesh().valid_face(r as int),
    {
        proof {
            assert(self.mesh().edge_ok(e as int));
        }
        self.half_edges[e].face
    }

    /// The vertex at which the half-edge `e` starts.
    pub fn origin(&self, e: usize) -> (r: usize)
        requires
            self.wf(),
            self.mesh().valid_edge(e as int),
        ensures
            r == self.mesh().origin(e as int),
            self.mesh().valid_vertex(r as int),
    {
        proof {
            assert(self.mesh().edge_ok(e as int));
        }
        self.half_edges[e].origin
    }

    /// The half-edge that runs opposite to the half-edge `e`.
    pub fn twin(&self, e: usize) -> (r: usize)
        requires
            self.wf(),
            self.mesh().valid_edge(e as int),
        ensures
            r == twin_index(e as int),
            self.mesh().valid_edge(r as int),
    {
        if e % 2 == 0 {
            e + 1
        } else {
            e - 1
        }
    }

    /// The vertex at which the half-edge `e` ends.
    pub fn target(&self, e: usize) -> (r: usize)
        requires
            self.wf(),
            self.mesh().valid_edge(e as int),
        ensures
            r == self.mesh().target(e as int),
            self.mesh().valid_vertex(r as int),
    {
        let t = self.twin(e);
        self.origin(t)
    }

    /// One half-edge that leaves the vertex `v`, or `None` for an isolated
    /// vertex.
    pub fn out_edge(&self, v: usize) -> (r: Option<usize>)
        requires
            self.wf(),
            self.mesh().valid_vertex(v as int),
        ensures
            option_int(r) == self.mesh().vertices[v as int].out_edge,
            r.is_some() ==> self.mesh().valid_edge(r.unwrap() as int) && self.mesh().origin(
                r.unwrap() as int,
            ) == v,
    {
        proof {
            assert(self.mesh().vertex_ok(v as int));
        }
        self.out_edges[v]
    }

    /// One half-edge that has the face `f` on its left, or `None` for a face
    /// without edges.
    pub fn face_edge(&self, f: usize) -> (r: Option<usize>)
        requires
            self.wf(),
            self.mesh().valid_face(f as int),
        ensures
            option_int(r) == self.mesh().faces[f as int].edge,
            r.is_some() ==> self.mesh().valid_edge(r.unwrap() as int) && self.mesh().face(
                r.unwrap() as int,
            ) == f,
    {
        proof {
            assert(self.mesh().face_ok(f as int));
        }
        self.face_edges[f]
    }

    /// The payload of the vertex `v`.
    pub fn vertex_data(&self, v: usize) -> (r: &V)
        requires
            self.wf(),
            self.mesh().valid_vertex(v as int),
        ensures
            *r == self.data()[v as int],
    {
        &self.data[v]
    }

    /// Adds an isolated vertex and returns its index.
    pub fn insert_vertex(&mut self, vertex: V) -> (v: usize)
        requires
            old(self).wf(),
        ensures
            final(self).wf(),
            final(self).mesh() == old(self).mesh().insert_vertex(),
            final(self).data() == old(self).data().push(vertex),
            v == old(self).mesh().num_vertices(),
    {
        let v = self.out_edges.len();
        proof {
            self.model@.lemma_insert_vertex_wf();
        }
        self.data.push(vertex);
        self.out_edges.push(None);
        self.model = Ghost(self.model@.insert_vertex());
        v
    }

    /// Replaces the payload of the vertex `v`.
    pub fn update_vertex(&mut self, v: usize, vertex: V)
        requires
            old(self).wf(),
            old(self).mesh().valid_vertex(v as int),
        ensures
            final(self).wf(),
            final(self).mesh() == old(self).mesh(),
            final(self).data() == old(self).data().update(v as int, vertex),
    {
        self.data.set(v, vertex);
    }

    /// Lays an edge between the isolated vertices `v0` and `v1`, inside the
    /// face `face`, which has no edge yet. Returns the half-edge from `v0` to
    /// `v1`.
    pub fn connect_two_isolated_vertices(&mut self, v0: usize, v1: usize, face: usize) -> (e: usize)
        requires
            old(self).wf(),
            old(self).mesh().valid_vertex(v0 as int),
            old(self).mesh().valid_vertex(v1 as int),
            v0 != v1,
            old(self).mesh().valid_face(face as int),
            old(self).mesh().vertices[v0 as int].out_edge.is_none(),
            old(self).mesh().vertices[v1 as int].out_edge.is_none(),
            old(self).mesh().faces[face as int].edge.is_none(),
            old(self).mesh().num_half_edges() + 2 <= usize::MAX,
        ensures
            final(self).wf(),
            final(self).mesh() == old(self).mesh().connect_two_isolated_vertices(
                v0 as int,
                v1 as int,
                face as int,
            ),
            final(self).data() == old(self).data(),
            e == old(self).mesh().num_half_edges(),
    {
        let edge_index: usize = self.half_edges.len();
        let twin_index: usize = edge_index + 1;
        let ghost old_mesh = self.model@;
        let ghost new_mesh = old_mesh.connect_two_isolated_vertices(
            v0 as int,
            v1 as int,
            face as int,
        );
        proof {
            old_mesh.lemma_connect_two_isolated_vertices_wf(v0 as int, v1 as int, face as int);
        }
        self.half_edges.push(
            HalfEdgeEntry { next: twin_index, prev: twin_index, face, origin: v0 },
        );
        self.half_edges.push(
            HalfEdgeEntry { next: edge_index, prev: edge_index, face, origin: v1 },
        );
        self.out_edges.set(v0, Some(edge_index));
        self.out_edges.set(v1, Some(twin_index));
        self.face_edges.set(face, Some(edge_index));
        self.model = Ghost(new_mesh);
        edge_index
    }

    /// Attaches the isolated vertex `vertex` to the end of the half-edge
    /// `prev_handle`, inside the face on its left. Returns the new half-edge,
    /// which runs from the target of `prev_handle` to `vertex`.
    #[verifier::spinoff_prover]
    pub fn connect_edge_to_isolated_vertex(&mut self, prev_handle: usize, vertex: usize) -> (e:
        usize)
        requires
            old(self).wf(),
            old(self).mesh().valid_edge(prev_handle as int),
            old(self).mesh().valid_vertex(vertex as int),
            old(self).mesh().vertices[vertex as int].out_edge.is_none(),
            old(self).mesh().num_half_edges() + 2 <= usize::MAX,
        ensures
            final(self).wf(),
            final(self).mesh() == old(self).mesh().connect_edge_to_isolated_vertex(
                prev_handle as int,
                vertex as int,
            ),
            final(self).data() == old(self).data(),
            e == old(self).mesh().num_half_edges(),
    {
        let ghost old_mesh = self.model@;
        let ghost new_mesh = old_mesh.connect_edge_to_isolated_vertex(
            prev_handle as int,
            vertex as int,
        );
        proof {
            old_mesh.lemma_connect_edge_to_isolated_vertex_wf(prev_handle as int, vertex as int);
            assert(old_mesh.edge_ok(prev_handle as int));
            assert(old_mesh.edge_ok(old_mesh.next(prev_handle as int)));
        }
        let prev: HalfEdgeEntry = self.half_edges[prev_handle];
        let prev_next: usize = prev.next;
        let edge_index: usize = self.half_edges.len();
        let twin_index: usize = edge_index + 1;
        let target: usize = self.half_edges[prev_next].origin;
        self.half_edges.push(
            HalfEdgeEntry { next: twin_index, prev: prev_handle, face: prev.face, origin: target },
        );
        self.half_edges.push(
            HalfEdgeEntry { next: prev_next, prev: edge_index, face: prev.face, origin: vertex },
        );
        let mut p: HalfEdgeEntry = self.half_edges[prev_handle];
        p.next = edge_index;
        self.half_edges.set(prev_handle, p);
        let mut pn: HalfEdgeEntry = self.half_edges[prev_next];
        pn.prev = twin_index;
        self.half_edges.set(prev_next, pn);
        self.out_edges.set(vertex, Some(twin_index));
        self.model = Ghost(new_mesh);
        edge_index
    }

    /// Drops all edges and all inner faces. The vertices stay, isolated.
    pub fn clear_edges_and_faces(&mut self)
        requires
            old(self).wf(),
        ensures
            final(self).wf(),
            final(self).mesh() == old(self).mesh().clear_edges_and_faces(),
            final(self).data() == old(self).data(),
    {
        let ghost old_mesh = self.model@;
        let ghost old_data = self.data@;
        proof {
            old_mesh.lemma_clear_edges_and_faces_wf();
        }
        self.half_edges.clear();
        self.face_edges.clear();
        self.face_edges.push(None);
        let n: usize = self.out_edges.len();
        let mut i: usize = 0;
        while i < n
            invariant
                i <= n,
                n == self.out_edges@.len(),
                n == old_mesh.vertices.len(),
                self.data@ == old_data,
                old_data.len() == n,
                self.half_edges@.len() == 0,
                self.face_edges@ =~= seq![None],
                forall|v: int| 0 <= v < i ==> (#[trigger] self.out_edges@[v]).is_none(),
            decreases n - i,
        {
            self.out_edges.set(i, None);
            i += 1;
        }
        self.model = Ghost(old_mesh.clear_edges_and_faces());
        proof {
            assert(self.model@.vertices.len() == n);
            assert(self.model@.faces.len() == 1);
        }
    }
}


/// Gives the face `new_face` to every half-edge of the cycle through `start`.
/// The mesh `m` tells which half-edges these are: those that have the face `f`
/// on their left in `m`.
#[verifier::spinoff_prover]
fn relabel_cycle(
    half_edges: &mut Vec<HalfEdgeEntry>,
    start: usize,
    new_face: usize,
    Ghost(m): Ghost<Mesh>,
    Ghost(f): Ghost<int>,
)
    requires
        m.wf(),
        m.valid_edge(start as int),
        m.face(start as int) == f,
        old(half_edges)@.len() == m.half_edges.len(),
        forall|i: int|
            0 <= i < m.half_edges.len() ==> (#[trigger] old(half_edges)@[i]).next
                == m.half_edges[i].next,
    ensures
        final(half_edges)@.len() == old(half_edges)@.len(),
        forall|i: int|
            0 <= i < m.half_edges.len() ==> #[trigger] final(half_edges)@[i] == (if m.face(i) == f {
                HalfEdgeEntry { face: new_face, ..old(half_edges)@[i] }
            } else {
                old(half_edges)@[i]
            }),
{
    let ghost initial = half_edges@;
    let ghost len = m.faces[f].len;
    let ghost p0 = m.half_edges[start as int].fpos;
    let mut cur: usize = start;
    let ghost mut k: int = 0;
    proof {
        assert(m.edge_ok(start as int));
        assert forall|i: int| 0 <= i < m.half_edges.len() implies #[trigger] half_edges@[i] == (if m.face(
            i,
        ) == f && cyclic_distance(p0, m.half_edges[i].fpos, len) < 0 {
            HalfEdgeEntry { face: new_face, ..initial[i] }
        } else {
            initial[i]
        }) by {
            assert(m.edge_ok(i));
        }
    }
    loop
        invariant_except_break
            0 <= k < len,
            m.valid_edge(cur as int),
            m.face(cur as int) == f,
            cyclic_distance(p0, m.half_edges[cur as int].fpos, len) == k,
        invariant
            m.wf(),
            m.valid_edge(start as int),
            m.face(start as int) == f,
            len == m.faces[f].len,
            p0 == m.half_edges[start as int].fpos,
            half_edges@.len() == m.half_edges.len(),
            initial.len() == m.half_edges.len(),
            0 <= k <= len,
            forall|i: int|
                0 <= i < m.half_edges.len() ==> #[trigger] half_edges@[i] == (if m.face(i) == f
                    && cyclic_distance(p0, m.half_edges[i].fpos, len) < k {
                    HalfEdgeEntry { face: new_face, ..initial[i] }
                } else {
                    initial[i]
                }),
            forall|i: int|
                0 <= i < m.half_edges.len() ==> (#[trigger] initial[i]).next
                    == m.half_edges[i].next,
        ensures
            k == len,
        decreases len - k,
    {
        let ghost before = half_edges@;
        let mut h: HalfEdgeEntry = half_edges[cur];
        h.face = new_face;
        half_edges.set(cur, h);
        let next: usize = h.next;
        proof {
            assert(m.edge_ok(start as int));
            assert(m.edge_ok(cur as int));
            assert(m.edge_ok(next as int));
            assert forall|i: int| 0 <= i < m.half_edges.len() implies #[trigger] half_edges@[i]
                == (if m.face(i) == f && cyclic_distance(p0, m.half_edges[i].fpos, len) < k + 1 {
                HalfEdgeEntry { face: new_face, ..initial[i] }
            } else {
                initial[i]
            }) by {
                assert(m.edge_ok(i));
                if i != cur as int {
                    assert(m.positions_differ(i, cur as int));
                    assert(half_edges@[i] == before[i]);
                }
            }
            if next != start {
                assert(m.positions_differ(next as int, start as int));
            }
            k = k + 1;
        }
        cur = next;
        if cur == start {
            break ;
        }
    }
    proof {
        assert forall|i: int| 0 <= i < m.half_edges.len() implies #[trigger] half_edges@[i] == (if m.face(
            i,
        ) == f {
            HalfEdgeEntry { face: new_face, ..initial[i] }
        } else {
            initial[i]
        }) by {
            assert(m.edge_ok(i));
        }
    }
}

impl<V> Dcel<V> {
    /// Lays an edge from the target of `prev_edge_handle` to the origin of
    /// `next_edge_handle`, two half-edges of one face, and so splits that face
    /// in two. Returns the new half-edge that has the new face on its left;
    /// the cycle of the new face runs from `next_edge_handle` to
    /// `prev_edge_handle`.
    #[verifier::spinoff_prover]
    pub fn create_face(&mut self, prev_edge_handle: usize, next_edge_handle: usize) -> (e: usize)
        requires
            old(self).wf(),
            old(self).mesh().can_create_face(prev_edge_handle as int, next_edge_handle as int),
            old(self).mesh().num_half_edges() + 2 <= usize::MAX,
        ensures
            final(self).wf(),
            final(self).mesh() == old(self).mesh().create_face(
                prev_edge_handle as int,
                next_edge_handle as int,
            ),
            final(self).data() == old(self).data(),
            e == old(self).mesh().num_half_edges(),
    {
        let ghost old_mesh = self.model@;
        let ghost new_mesh = old_mesh.create_face(prev_edge_handle as int, next_edge_handle as int);
        proof {
            old_mesh.lemma_create_face_wf(prev_edge_handle as int, next_edge_handle as int);
            assert(old_mesh.edge_ok(prev_edge_handle as int));
            assert(old_mesh.edge_ok(next_edge_handle as int));
            assert(old_mesh.edge_ok(old_mesh.next(prev_edge_handle as int)));
            assert(old_mesh.edge_ok(old_mesh.prev(next_edge_handle as int)));
        }
        let edge_index: usize = self.half_edges.len();
        let twin_index: usize = edge_index + 1;
        let next_edge: HalfEdgeEntry = self.half_edges[next_edge_handle];
        let prev_edge: HalfEdgeEntry = self.half_edges[prev_edge_handle];
        let prev_next: usize = prev_edge.next;
        let next_prev: usize = next_edge.prev;
        let start: usize = self.half_edges[prev_next].origin;
        let face: usize = next_edge.face;
        let new_face: usize = self.face_edges.len();
        self.half_edges.push(
            HalfEdgeEntry { next: next_edge_handle, prev: prev_edge_handle, face, origin: start },
        );
        self.half_edges.push(
            HalfEdgeEntry { next: prev_next, prev: next_prev, face, origin: next_edge.origin },
        );
        let mut h: HalfEdgeEntry = self.half_edges[next_edge_handle];
        h.prev = edge_index;
        self.half_edges.set(next_edge_handle, h);
        let mut h: HalfEdgeEntry = self.half_edges[prev_edge_handle];
        h.next = edge_index;
        self.half_edges.set(prev_edge_handle, h);
        let mut h: HalfEdgeEntry = self.half_edges[next_prev];
        h.next = twin_index;
        self.half_edges.set(next_prev, h);
        let mut h: HalfEdgeEntry = self.half_edges[prev_next];
        h.prev = twin_index;
        self.half_edges.set(prev_next, h);
        self.face_edges.push(Some(edge_index));
        let ghost linked = self.half_edges@;
        proof {
            assert forall|i: int| 0 <= i < new_mesh.half_edges.len() implies (#[trigger] linked[i]).next
                == new_mesh.half_edges[i].next && linked[i].prev == new_mesh.half_edges[i].prev
                && linked[i].origin == new_mesh.half_edges[i].origin && linked[i].face == (
            if new_mesh.face(i) == new_face {
                face as int
            } else {
                new_mesh.face(i)
            }) by {
                if i < old_mesh.half_edges.len() {
                    assert(old_mesh.edge_ok(i));
                }
            }
        }
        relabel_cycle(
            &mut self.half_edges,
            edge_index,
            new_face,
            Ghost(new_mesh),
            Ghost(new_face as int),
        );
        self.face_edges.set(face, Some(twin_index));
        self.model = Ghost(new_mesh);
        proof {
            assert forall|i: int| 0 <= i < self.half_edges@.len() implies (
            #[trigger] self.half_edges@[i]).matches(new_mesh.half_edges[i]) by {
                assert(linked[i].next == new_mesh.half_edges[i].next);
            }
        }
        edge_index
    }

    /// Splits the edge of the half-edge `edge_handle` at the isolated vertex
    /// `split_vertex`. The half-edge keeps its origin and ends in the new
    /// vertex afterwards. Returns the new half-edge, which runs from the new
    /// vertex to the old target.
    #[verifier::spinoff_prover]
    pub fn split_edge(&mut self, edge_handle: usize, split_vertex: usize) -> (e: usize)
        requires
            old(self).wf(),
            old(self).mesh().can_split_edge(edge_handle as int, split_vertex as int),
            old(self).mesh().num_half_edges() + 2 <= usize::MAX,
        ensures
            final(self).wf(),
            final(self).mesh() == old(self).mesh().split_edge(
                edge_handle as int,
                split_vertex as int,
            ),
            final(self).data() == old(self).data(),
            e == old(self).mesh().num_half_edges(),
    {
        let ghost old_mesh = self.model@;
        let ghost new_mesh = old_mesh.split_edge(edge_handle as int, split_vertex as int);
        let twin_handle: usize = self.twin(edge_handle);
        proof {
            old_mesh.lemma_split_edge_wf(edge_handle as int, split_vertex as int);
            old_mesh.lemma_isolated_vertex(split_vertex as int, twin_handle as int);
            old_mesh.lemma_isolated_vertex(split_vertex as int, edge_handle as int);
            assert(old_mesh.edge_ok(edge_handle as int));
            assert(old_mesh.edge_ok(twin_handle as int));
            assert(old_mesh.edge_ok(old_mesh.next(edge_handle as int)));
            assert(old_mesh.edge_ok(old_mesh.prev(twin_handle as int)));
        }
        let edge: HalfEdgeEntry = self.half_edges[edge_handle];
        let twin: HalfEdgeEntry = self.half_edges[twin_handle];
        let new_edge_index: usize = self.half_edges.len();
        let new_twin_index: usize = new_edge_index + 1;
        self.half_edges.push(
            HalfEdgeEntry {
                next: edge.next,
                prev: edge_handle,
                face: edge.face,
                origin: split_vertex,
            },
        );
        self.half_edges.push(
            HalfEdgeEntry {
                next: twin_handle,
                prev: twin.prev,
                face: twin.face,
                origin: twin.origin,
            },
        );
        let mut h: HalfEdgeEntry = self.half_edges[edge.next];
        h.prev = new_edge_index;
        self.half_edges.set(edge.next, h);
        let mut h: HalfEdgeEntry = self.half_edges[twin.prev];
        h.next = new_twin_index;
        self.half_edges.set(twin.prev, h);
        let mut h: HalfEdgeEntry = self.half_edges[twin_handle];
        h.prev = new_twin_index;
        h.origin = split_vertex;
        self.half_edges.set(twin_handle, h);
        let mut h: HalfEdgeEntry = self.half_edges[edge_handle];
        h.next = new_edge_index;
        self.half_edges.set(edge_handle, h);
        self.out_edges.set(twin.origin, Some(new_twin_index));
        self.out_edges.set(split_vertex, Some(new_edge_index));
        self.model = Ghost(new_mesh);
        proof {
            assert forall|i: int| 0 <= i < self.half_edges@.len() implies (
            #[trigger] self.half_edges@[i]).matches(new_mesh.half_edges[i]) by {
                if i < old_mesh.half_edges.len() {
                    assert(old_mesh.edge_ok(i));
                }
            }
        }
        new_edge_index
    }

    /// Replaces the edge of the half-edge `e` by the other diagonal of the
    /// quadrilateral that its two triangles form. Seen from the
    /// quadrilateral, the edge turns clockwise by one vertex.
    #[verifier::spinoff_prover]
    pub fn flip_cw(&mut self, e: usize)
        requires
            old(self).wf(),
            old(self).mesh().can_flip(e as int),
        ensures
            final(self).wf(),
            final(self).mesh() == old(self).mesh().flip_cw(e as int),
            final(self).data() == old(self).data(),
    {
        let ghost old_mesh = self.model@;
        let ghost new_mesh = old_mesh.flip_cw(e as int);
        proof {
            old_mesh.lemma_flip_cw_wf(e as int);
            old_mesh.lemma_flip_context(e as int);
        }
        let t: usize = self.twin(e);
        let he: HalfEdgeEntry = self.half_edges[e];
        let ht: HalfEdgeEntry = self.half_edges[t];
        let en: usize = he.next;
        let ep: usize = he.prev;
        let tn: usize = ht.next;
        let tp: usize = ht.prev;
        let hen: HalfEdgeEntry = self.half_edges[en];
        let hep: HalfEdgeEntry = self.half_edges[ep];
        let htn: HalfEdgeEntry = self.half_edges[tn];
        let htp: HalfEdgeEntry = self.half_edges[tp];
        self.half_edges.set(
            en,
            HalfEdgeEntry { next: e, prev: tp, face: he.face, origin: hen.origin },
        );
        self.half_edges.set(
            e,
            HalfEdgeEntry { next: tp, prev: en, face: he.face, origin: hep.origin },
        );
        self.half_edges.set(
            tp,
            HalfEdgeEntry { next: en, prev: e, face: he.face, origin: htp.origin },
        );
        self.half_edges.set(
            tn,
            HalfEdgeEntry { next: t, prev: ep, face: ht.face, origin: htn.origin },
        );
        self.half_edges.set(
            t,
            HalfEdgeEntry { next: ep, prev: tn, face: ht.face, origin: htp.origin },
        );
        self.half_edges.set(
            ep,
            HalfEdgeEntry { next: tn, prev: t, face: ht.face, origin: hep.origin },
        );
        self.out_edges.set(htn.origin, Some(tn));
        self.out_edges.set(hen.origin, Some(en));
        self.face_edges.set(he.face, Some(e));
        self.face_edges.set(ht.face, Some(t));
        self.model = Ghost(new_mesh);
        proof {
            assert forall|i: int| 0 <= i < self.half_edges@.len() implies (
            #[trigger] self.half_edges@[i]).matches(new_mesh.half_edges[i]) by {
                assert(old_mesh.edge_ok(i));
            }
        }
    }
}


/// Gives the origin `new_origin` to every half-edge of the ring through
/// `start`. The mesh `m` tells which half-edges these are: those that leave
/// the vertex `v` in `m`.
#[verifier::spinoff_prover]
fn rename_ring(
    half_edges: &mut Vec<HalfEdgeEntry>,
    start: usize,
    new_origin: usize,
    Ghost(m): Ghost<Mesh>,
    Ghost(v): Ghost<int>,
)
    requires
        m.wf(),
        m.valid_edge(start as int),
        m.origin(start as int) == v,
        old(half_edges)@.len() == m.half_edges.len(),
        forall|i: int|
            0 <= i < m.half_edges.len() ==> (#[trigger] old(half_edges)@[i]).prev
                == m.half_edges[i].prev,
    ensures
        final(half_edges)@.len() == old(half_edges)@.len(),
        forall|i: int|
            0 <= i < m.half_edges.len() ==> #[trigger] final(half_edges)@[i] == (if m.origin(i)
                == v {
                HalfEdgeEntry { origin: new_origin, ..old(half_edges)@[i] }
            } else {
                old(half_edges)@[i]
            }),
{
    let ghost initial = half_edges@;
    let ghost len = m.vertices[v].degree;
    let ghost p0 = m.half_edges[start as int].vpos;
    let mut cur: usize = start;
    let ghost mut k: int = 0;
    proof {
        assert(m.edge_ok(start as int));
        assert forall|i: int| 0 <= i < m.half_edges.len() implies #[trigger] half_edges@[i] == (
        if m.origin(i) == v && cyclic_distance(p0, m.half_edges[i].vpos, len) < 0 {
            HalfEdgeEntry { origin: new_origin, ..initial[i] }
        } else {
            initial[i]
        }) by {
            assert(m.edge_ok(i));
        }
    }
    loop
        invariant_except_break
            0 <= k < len,
            m.valid_edge(cur as int),
            m.origin(cur as int) == v,
            cyclic_distance(p0, m.half_edges[cur as int].vpos, len) == k,
        invariant
            m.wf(),
            m.valid_edge(start as int),
            m.origin(start as int) == v,
            len == m.vertices[v].degree,
            p0 == m.half_edges[start as int].vpos,
            half_edges@.len() == m.half_edges.len(),
            initial.len() == m.half_edges.len(),
            0 <= k <= len,
            forall|i: int|
                0 <= i < m.half_edges.len() ==> #[trigger] half_edges@[i] == (if m.origin(i) == v
                    && cyclic_distance(p0, m.half_edges[i].vpos, len) < k {
                    HalfEdgeEntry { origin: new_origin, ..initial[i] }
                } else {
                    initial[i]
                }),
            forall|i: int|
                0 <= i < m.half_edges.len() ==> (#[trigger] initial[i]).prev
                    == m.half_edges[i].prev,
        ensures
            k == len,
        decreases len - k,
    {
        let ghost before = half_edges@;
        let mut h: HalfEdgeEntry = half_edges[cur];
        h.origin = new_origin;
        half_edges.set(cur, h);
        proof {
            assert(m.edge_ok(start as int));
            assert(m.edge_ok(cur as int));
            m.lemma_ccw(cur as int);
        }
        let prev: usize = h.prev;
        let next: usize = if prev % 2 == 0 {
            prev + 1
        } else {
            prev - 1
        };
        proof {
            assert(m.edge_ok(next as int));
            assert forall|i: int| 0 <= i < m.half_edges.len() implies #[trigger] half_edges@[i]
                == (if m.origin(i) == v && cyclic_distance(p0, m.half_edges[i].vpos, len) < k + 1 {
                HalfEdgeEntry { origin: new_origin, ..initial[i] }
            } else {
                initial[i]
            }) by {
                assert(m.edge_ok(i));
                if i != cur as int {
                    assert(m.positions_differ(i, cur as int));
                    assert(half_edges@[i] == before[i]);
                }
            }
            if next != start {
                assert(m.positions_differ(next as int, start as int));
            }
            k = k + 1;
        }
        cur = next;
        if cur == start {
            break ;
        }
    }
    proof {
        assert forall|i: int| 0 <= i < m.half_edges.len() implies #[trigger] half_edges@[i] == (
        if m.origin(i) == v {
            HalfEdgeEntry { origin: new_origin, ..initial[i] }
        } else {
            initial[i]
        }) by {
            assert(m.edge_ok(i));
        }
    }
}

impl<V> Dcel<V> {
    /// The arrays hold the model but for the pair of half-edges `x`, and the
    /// model is well formed but for that pair.
    spec fn repr_except(&self, x: int) -> bool {
        let m = self.model@;
        &&& m.wf_except(x)
        &&& self.data@.len() == m.vertices.len()
        &&& self.out_edges@.len() == m.vertices.len()
        &&& self.face_edges@.len() == m.faces.len()
        &&& self.half_edges@.len() == m.half_edges.len()
        &&& forall|i: int|
            0 <= i < self.half_edges@.len() && !Mesh::in_pair(x, i) ==> (
            #[trigger] self.half_edges@[i]).matches(m.half_edges[i])
        &&& forall|v: int|
            0 <= v < self.out_edges@.len() ==> option_int(#[trigger] self.out_edges@[v])
                == m.vertices[v].out_edge
        &&& forall|f: int|
            0 <= f < self.face_edges@.len() ==> option_int(#[trigger] self.face_edges@[f])
                == m.faces[f].edge
    }

    /// Makes the half-edge that has moved from index `from` to index `to`
    /// known under its new index to its neighbours, its origin and its face.
    fn announce_moved_edge(&mut self, to: usize, from: usize)
        requires
            to < old(self).half_edges@.len(),
            old(self).half_edges@[to as int].next < old(self).half_edges@.len(),
            old(self).half_edges@[to as int].prev < old(self).half_edges@.len(),
            old(self).half_edges@[to as int].origin < old(self).out_edges@.len(),
            old(self).half_edges@[to as int].face < old(self).face_edges@.len(),
        ensures
            final(self).data@ == old(self).data@,
            final(self).model@ == old(self).model@,
            final(self).half_edges@.len() == old(self).half_edges@.len(),
            final(self).out_edges@.len() == old(self).out_edges@.len(),
            final(self).face_edges@.len() == old(self).face_edges@.len(),
            ({
                let h = old(self).half_edges@[to as int];
                &&& forall|i: int|
                    0 <= i < old(self).half_edges@.len() ==> #[trigger] final(self).half_edges@[i]
                        == announced_entry(old(self).half_edges@[i], i, h, to as int)
                &&& forall|v: int|
                    0 <= v < old(self).out_edges@.len() ==> #[trigger] final(self).out_edges@[v]
                        == (if v == h.origin && old(self).out_edges@[v] == Some(from) {
                        Some(to)
                    } else {
                        old(self).out_edges@[v]
                    })
                &&& forall|f: int|
                    0 <= f < old(self).face_edges@.len() ==> #[trigger] final(self).face_edges@[f]
                        == (if f == h.face && old(self).face_edges@[f] == Some(from) {
                        Some(to)
                    } else {
                        old(self).face_edges@[f]
                    })
            }),
    {
        let h: HalfEdgeEntry = self.half_edges[to];
        let mut hn: HalfEdgeEntry = self.half_edges[h.next];
        hn.prev = to;
        self.half_edges.set(h.next, hn);
        let mut hp: HalfEdgeEntry = self.half_edges[h.prev];
        hp.next = to;
        self.half_edges.set(h.prev, hp);
        match self.out_edges[h.origin] {
            Some(o) => {
                if o == from {
                    self.out_edges.set(h.origin, Some(to));
                }
            },
            None => {},
        }
        match self.face_edges[h.face] {
            Some(o) => {
                if o == from {
                    self.face_edges.set(h.face, Some(to));
                }
            },
            None => {},
        }
    }

    /// Drops the pair of half-edges `x`, `x + 1`, to which nothing refers, and
    /// moves the last pair into its place.
    #[verifier::spinoff_prover]
    fn swap_out_pair(&mut self, x: usize)
        requires
            old(self).repr_except(x as int),
        ensures
            final(self).wf(),
            final(self).mesh() == old(self).mesh().swap_remove_pair(x as int),
            final(self).data() == old(self).data(),
    {
        let ghost u = self.model@;
        let ghost new_mesh = u.swap_remove_pair(x as int);
        let ghost before = self.half_edges@;
        let ghost out_before = self.out_edges@;
        let ghost face_before = self.face_edges@;
        proof {
            u.lemma_swap_remove_pair_wf(x as int);
        }
        let n: usize = self.half_edges.len();
        let last: usize = n - 2;
        self.half_edges.swap_remove(x + 1);
        self.half_edges.swap_remove(x);
        if x < last {
            proof {
                assert(u.live_edge_ok(x as int, last as int));
                assert(u.live_edge_ok(x as int, last + 1));
                assert(before[last as int].matches(u.half_edges[last as int]));
                assert(before[last + 1].matches(u.half_edges[last + 1]));
            }
            let mut h0: HalfEdgeEntry = self.half_edges[x];
            let mut h1: HalfEdgeEntry = self.half_edges[x + 1];
            h0.next = if h0.next == last {
                x
            } else if h0.next == last + 1 {
                x + 1
            } else {
                h0.next
            };
            h0.prev = if h0.prev == last {
                x
            } else if h0.prev == last + 1 {
                x + 1
            } else {
                h0.prev
            };
            h1.next = if h1.next == last {
                x
            } else if h1.next == last + 1 {
                x + 1
            } else {
                h1.next
            };
            h1.prev = if h1.prev == last {
                x
            } else if h1.prev == last + 1 {
                x + 1
            } else {
                h1.prev
            };
            self.half_edges.set(x, h0);
            self.half_edges.set(x + 1, h1);
            let ghost s3 = self.half_edges@;
            proof {
                assert forall|j: int| 0 <= j < n - 2 implies #[trigger] s3[j] == moved_entry(
                    u,
                    x as int,
                    before,
                    j,
                ) by {}
            }
            self.announce_moved_edge(x, last);
            let ghost s4 = self.half_edges@;
            let ghost out4 = self.out_edges@;
            let ghost face4 = self.face_edges@;
            self.announce_moved_edge(x + 1, last + 1);
            let ghost s5 = self.half_edges@;
            proof {
                assert forall|i: int| 0 <= i < n - 2 implies (#[trigger] s5[i]).matches(
                    new_mesh.half_edges[i],
                ) by {
                    lemma_moved_entries(u, x as int, before, s3, s4, s5, i);
                }
                assert forall|v: int| 0 <= v < self.out_edges@.len() implies option_int(
                    #[trigger] self.out_edges@[v],
                ) == new_mesh.vertices[v].out_edge by {
                    assert(u.live_vertex_ok(x as int, v));
                    assert(option_int(out_before[v]) == u.vertices[v].out_edge);
                    assert(out4[v] == (if v == h0.origin && out_before[v] == Some(last) {
                        Some(x)
                    } else {
                        out_before[v]
                    }));
                }
                assert forall|f: int| 0 <= f < self.face_edges@.len() implies option_int(
                    #[trigger] self.face_edges@[f],
                ) == new_mesh.faces[f].edge by {
                    assert(u.live_face_ok(x as int, f));
                    assert(option_int(face_before[f]) == u.faces[f].edge);
                    assert(face4[f] == (if f == h0.face && face_before[f] == Some(last) {
                        Some(x)
                    } else {
                        face_before[f]
                    }));
                }
            }
        } else {
            proof {
                assert forall|i: int| 0 <= i < n - 2 implies (#[trigger] self.half_edges@[i]).matches(
                    new_mesh.half_edges[i],
                ) by {
                    assert(u.live_edge_ok(x as int, i));
                    assert(before[i].matches(u.half_edges[i]));
                }
                assert forall|v: int| 0 <= v < self.out_edges@.len() implies option_int(
                    #[trigger] self.out_edges@[v],
                ) == new_mesh.vertices[v].out_edge by {
                    assert(u.live_vertex_ok(x as int, v));
                }
                assert forall|f: int| 0 <= f < self.face_edges@.len() implies option_int(
                    #[trigger] self.face_edges@[f],
                ) == new_mesh.faces[f].edge by {
                    assert(u.live_face_ok(x as int, f));
                }
            }
        }
        self.model = Ghost(new_mesh);
    }
}

/// The entry at index `j` after the last pair of half-edges has moved into
/// the place of the pair `x` and the moved entries refer to each other by
/// their new indices.
spec fn moved_entry(u: Mesh, x: int, before: Seq<HalfEdgeEntry>, j: int) -> HalfEdgeEntry {
    let h = before[u.edge_source(x, j)];
    if j == x || j == x + 1 {
        HalfEdgeEntry {
            next: u.moved_edge(x, h.next as int) as usize,
            prev: u.moved_edge(x, h.prev as int) as usize,
            ..h
        }
    } else {
        h
    }
}

/// The entry `h` after the half-edge at index `to`, whose entry is `moved`,
/// has been made known to its neighbours.
spec fn announced_entry(h: HalfEdgeEntry, j: int, moved: HalfEdgeEntry, to: int) -> HalfEdgeEntry {
    HalfEdgeEntry {
        next: if j == moved.prev {
            to as usize
        } else {
            h.next
        },
        prev: if j == moved.next {
            to as usize
        } else {
            h.prev
        },
        ..h
    }
}

/// After the last pair has moved into the place of the pair `x` and both
/// moved half-edges have been made known to their neighbours, every entry
/// holds what the model holds.
#[verifier::spinoff_prover]
proof fn lemma_moved_entries(
    u: Mesh,
    x: int,
    before: Seq<HalfEdgeEntry>,
    s3: Seq<HalfEdgeEntry>,
    s4: Seq<HalfEdgeEntry>,
    s5: Seq<HalfEdgeEntry>,
    i: int,
)
    requires
        u.wf_except(x),
        x < u.num_half_edges() - 2,
        u.num_half_edges() <= usize::MAX,
        before.len() == u.num_half_edges(),
        forall|j: int|
            0 <= j < before.len() && !Mesh::in_pair(x, j) ==> (#[trigger] before[j]).matches(
                u.half_edges[j],
            ),
        s3.len() == before.len() - 2,
        s4.len() == s3.len(),
        s5.len() == s3.len(),
        forall|j: int| 0 <= j < s3.len() ==> #[trigger] s3[j] == moved_entry(u, x, before, j),
        forall|j: int| 0 <= j < s3.len() ==> #[trigger] s4[j] == announced_entry(s3[j], j, s3[x], x),
        forall|j: int|
            0 <= j < s3.len() ==> #[trigger] s5[j] == announced_entry(s4[j], j, s4[x + 1], x + 1),
        0 <= i < s3.len(),
    ensures
        s5[i].matches(u.swap_remove_pair(x).half_edges[i]),
{
    let last = u.num_half_edges() - 2;
    let src = u.edge_source(x, i);
    assert(u.live_edge_ok(x, last));
    assert(u.live_edge_ok(x, last + 1));
    assert(u.live_edge_ok(x, src));
    assert(before[last].matches(u.half_edges[last]));
    assert(before[last + 1].matches(u.half_edges[last + 1]));
    assert(before[src].matches(u.half_edges[src]));
    let hs = u.half_edges[src];
    assert(u.live_edge_ok(x, hs.next));
    assert(u.live_edge_ok(x, hs.prev));
    assert(s3[x] == moved_entry(u, x, before, x));
    assert(s3[x + 1] == moved_entry(u, x, before, x + 1));
    assert(s3[i] == moved_entry(u, x, before, i));
    assert(s4[x + 1] == announced_entry(s3[x + 1], x + 1, s3[x], x));
    assert(s4[i] == announced_entry(s3[i], i, s3[x], x));
    assert(s5[i] == announced_entry(s4[i], i, s4[x + 1], x + 1));
    let l0 = u.half_edges[last];
    let l1 = u.half_edges[last + 1];
    assert(s3[x].next == u.moved_edge(x, l0.next));
    assert(s3[x].prev == u.moved_edge(x, l0.prev));
    assert(s3[x + 1].next == u.moved_edge(x, l1.next));
    assert(s3[x + 1].prev == u.moved_edge(x, l1.prev));
    assert(u.live_edge_ok(x, l0.next));
    assert(u.live_edge_ok(x, l0.prev));
    assert(u.live_edge_ok(x, l1.next));
    assert(u.live_edge_ok(x, l1.prev));
    assert(s5[i].next == u.moved_edge(x, hs.next)) by {
        if hs.next == last {
            assert(u.half_edges[last].prev == src);
        } else if hs.next == last + 1 {
            assert(u.half_edges[last + 1].prev == src);
        } else {
            assert(l0.prev != src);
            assert(l1.prev != src);
        }
    }
    assert(s5[i].prev == u.moved_edge(x, hs.prev)) by {
        if hs.prev == last {
            assert(u.half_edges[last].next == src);
        } else if hs.prev == last + 1 {
            assert(u.half_edges[last + 1].next == src);
        } else {
            assert(l0.next != src);
            assert(l1.next != src);
        }
    }
}

impl<V> Dcel<V> {
    /// Removes the edge of the half-edge `e`. Where the edge separates two
    /// faces, the face that is not kept loses all its half-edges to the other
    /// one, but stays in the mesh.
    #[verifier::spinoff_prover]
    fn remove_edge(&mut self, e: usize, keep_twin_face: bool)
        requires
            old(self).wf(),
            old(self).mesh().can_unlink(e as int),
        ensures
            final(self).wf(),
            final(self).mesh() == old(self).mesh().remove_edge(e as int, keep_twin_face),
            final(self).data() == old(self).data(),
    {
        let ghost old_mesh = self.model@;
        let ghost u = old_mesh.unlink(e as int, keep_twin_face);
        let t: usize = self.twin(e);
        proof {
            old_mesh.lemma_unlink_wf_except(e as int, keep_twin_face);
            assert(old_mesh.edge_ok(e as int));
            assert(old_mesh.edge_ok(t as int));
            assert(old_mesh.edge_ok(old_mesh.next(e as int)));
            assert(old_mesh.edge_ok(old_mesh.prev(e as int)));
            assert(old_mesh.edge_ok(old_mesh.next(t as int)));
            assert(old_mesh.edge_ok(old_mesh.prev(t as int)));
        }
        let he: HalfEdgeEntry = self.half_edges[e];
        let ht: HalfEdgeEntry = self.half_edges[t];
        let (kept, dropped): (usize, usize) = if keep_twin_face {
            (ht.face, he.face)
        } else {
            (he.face, ht.face)
        };
        let ghost before = self.half_edges@;
        if he.face != ht.face {
            let start: usize = if keep_twin_face {
                e
            } else {
                t
            };
            relabel_cycle(
                &mut self.half_edges,
                start,
                kept,
                Ghost(old_mesh),
                Ghost(dropped as int),
            );
        }
        let ghost relabeled = self.half_edges@;
        proof {
            assert forall|i: int| 0 <= i < relabeled.len() implies (#[trigger] relabeled[i]).next
                == before[i].next && relabeled[i].prev == before[i].prev && relabeled[i].origin
                == before[i].origin && relabeled[i].face == (if old_mesh.face(i) == he.face
                || old_mesh.face(i) == ht.face {
                kept
            } else {
                before[i].face
            }) by {
                assert(before[i].matches(old_mesh.half_edges[i]));
            }
        }
        let mut h: HalfEdgeEntry = self.half_edges[he.prev];
        h.next = ht.next;
        self.half_edges.set(he.prev, h);
        let mut h: HalfEdgeEntry = self.half_edges[ht.next];
        h.prev = he.prev;
        self.half_edges.set(ht.next, h);
        let mut h: HalfEdgeEntry = self.half_edges[he.next];
        h.prev = ht.prev;
        self.half_edges.set(he.next, h);
        let mut h: HalfEdgeEntry = self.half_edges[ht.prev];
        h.next = he.next;
        self.half_edges.set(ht.prev, h);
        let leaf_a: bool = he.prev == t;
        let leaf_b: bool = he.next == t;
        if he.face != ht.face {
            self.face_edges.set(dropped, None);
            self.face_edges.set(kept, Some(he.prev));
        } else if leaf_a && leaf_b {
            self.face_edges.set(he.face, None);
        } else if leaf_a {
            self.face_edges.set(he.face, Some(he.next));
        } else {
            self.face_edges.set(he.face, Some(he.prev));
        }
        if leaf_a {
            self.out_edges.set(he.origin, None);
        } else {
            self.out_edges.set(he.origin, Some(ht.next));
        }
        if leaf_b {
            self.out_edges.set(ht.origin, None);
        } else {
            self.out_edges.set(ht.origin, Some(he.next));
        }
        let x: usize = if e % 2 == 0 {
            e
        } else {
            e - 1
        };
        self.model = Ghost(u);
        proof {
            assert forall|i: int|
                0 <= i < self.half_edges@.len() && !Mesh::in_pair(x as int, i) implies (
            #[trigger] self.half_edges@[i]).matches(u.half_edges[i]) by {
                assert(before[i].matches(old_mesh.half_edges[i]));
                assert(relabeled[i].next == before[i].next);
            }
        }
        self.swap_out_pair(x);
    }

    /// Drops the face `f`, which has no half-edge, and moves the last face
    /// into its place.
    #[verifier::spinoff_prover]
    fn remove_empty_face(&mut self, f: usize)
        requires
            old(self).wf(),
            1 <= f < old(self).mesh().num_faces(),
            old(self).mesh().faces[f as int].len == 0,
        ensures
            final(self).wf(),
            final(self).mesh() == old(self).mesh().remove_empty_face(f as int),
            final(self).data() == old(self).data(),
    {
        let ghost old_mesh = self.model@;
        let ghost new_mesh = old_mesh.remove_empty_face(f as int);
        let ghost before = self.half_edges@;
        let ghost faces_before = self.face_edges@;
        proof {
            old_mesh.lemma_remove_empty_face_wf(f as int);
        }
        let last: usize = self.face_edges.len() - 1;
        proof {
            assert(old_mesh.face_ok(last as int));
            assert(old_mesh.face_ok(f as int));
        }
        self.face_edges.swap_remove(f);
        if f < last {
            match self.face_edges[f] {
                Some(start) => {
                    relabel_cycle(
                        &mut self.half_edges,
                        start,
                        f,
                        Ghost(old_mesh),
                        Ghost(last as int),
                    );
                },
                None => {},
            }
        }
        self.model = Ghost(new_mesh);
        proof {
            assert forall|i: int| 0 <= i < self.half_edges@.len() implies (
            #[trigger] self.half_edges@[i]).matches(new_mesh.half_edges[i]) by {
                assert(before[i].matches(old_mesh.half_edges[i]));
                old_mesh.lemma_empty_face(f as int, i);
                if old_mesh.faces[last as int].edge.is_none() {
                    old_mesh.lemma_empty_face(last as int, i);
                }
            }
            assert forall|g: int| 0 <= g < self.face_edges@.len() implies option_int(
                #[trigger] self.face_edges@[g],
            ) == new_mesh.faces[g].edge by {
                assert(option_int(faces_before[g]) == old_mesh.faces[g].edge);
                assert(option_int(faces_before[last as int]) == old_mesh.faces[last as int].edge);
            }
        }
    }

    /// Drops the isolated vertex `v` and moves the last vertex into its place.
    /// Returns the payload of `v` and the old index of the vertex that moved,
    /// if any did.
    #[verifier::spinoff_prover]
    fn swap_out_vertex(&mut self, v: usize) -> (r: (V, Option<usize>))
        requires
            old(self).wf(),
            old(self).mesh().valid_vertex(v as int),
            old(self).mesh().vertices[v as int].out_edge.is_none(),
        ensures
            final(self).wf(),
            final(self).mesh() == old(self).mesh().remove_isolated_vertex(v as int),
            final(self).data() == old(self).data().update(
                v as int,
                old(self).data().last(),
            ).drop_last(),
            r.0 == old(self).data()[v as int],
            r.1 == (if v == old(self).mesh().num_vertices() - 1 {
                None
            } else {
                Some((old(self).mesh().num_vertices() - 1) as usize)
            }),
    {
        let ghost old_mesh = self.model@;
        let ghost new_mesh = old_mesh.remove_isolated_vertex(v as int);
        let ghost before = self.half_edges@;
        let ghost out_before = self.out_edges@;
        proof {
            old_mesh.lemma_remove_isolated_vertex_wf(v as int);
        }
        let last: usize = self.out_edges.len() - 1;
        proof {
            assert(old_mesh.vertex_ok(last as int));
            assert(old_mesh.vertex_ok(v as int));
        }
        let data: V = self.data.swap_remove(v);
        self.out_edges.swap_remove(v);
        let mut updated: Option<usize> = None;
        if v < last {
            updated = Some(last);
            match self.out_edges[v] {
                Some(start) => {
                    rename_ring(
                        &mut self.half_edges,
                        start,
                        v,
                        Ghost(old_mesh),
                        Ghost(last as int),
                    );
                },
                None => {},
            }
        }
        self.model = Ghost(new_mesh);
        proof {
            assert forall|i: int| 0 <= i < self.half_edges@.len() implies (
            #[trigger] self.half_edges@[i]).matches(new_mesh.half_edges[i]) by {
                assert(before[i].matches(old_mesh.half_edges[i]));
                old_mesh.lemma_isolated_vertex(v as int, i);
                if old_mesh.vertices[last as int].out_edge.is_none() {
                    old_mesh.lemma_isolated_vertex(last as int, i);
                }
            }
            assert forall|u: int| 0 <= u < self.out_edges@.len() implies option_int(
                #[trigger] self.out_edges@[u],
            ) == new_mesh.vertices[u].out_edge by {
                assert(option_int(out_before[u]) == old_mesh.vertices[u].out_edge);
                assert(option_int(out_before[last as int]) == old_mesh.vertices[last as int].out_edge);
            }
        }
        (data, updated)
    }

    /// Removes the vertex `v` and all its edges. The faces around `v` merge
    /// into one: into the outer face if `v` touches it, into an inner face
    /// otherwise. The last vertex takes the index `v`.
    #[verifier::spinoff_prover]
    pub fn remove_vertex(&mut self, v: usize) -> (r: VertexRemovalResult<V>)
        requires
            old(self).wf(),
            old(self).mesh().can_remove_vertex(v as int),
        ensures
            final(self).wf(),
            final(self).mesh() == old(self).mesh().remove_vertex(v as int),
            final(self).data() == old(self).data().update(
                v as int,
                old(self).data().last(),
            ).drop_last(),
            r.data == old(self).data()[v as int],
            r.updated_vertex == (if v == old(self).mesh().num_vertices() - 1 {
                None
            } else {
                Some((old(self).mesh().num_vertices() - 1) as usize)
            }),
            r.merged_face == old(self).mesh().star_merged_face(v as int, 0),
    {
        let ghost old_mesh = self.model@;
        let mut merged: usize = 0;
        loop
            invariant
                self.wf(),
                self.mesh().can_remove_vertex(v as int),
                self.mesh().num_vertices() == old_mesh.num_vertices(),
                self.data() == old(self).data(),
                old_mesh.remove_star(v as int) == self.mesh().remove_star(v as int),
                old_mesh.star_merged_face(v as int, 0) == self.mesh().star_merged_face(
                    v as int,
                    merged as int,
                ),
            ensures
                self.mesh().vertices[v as int].out_edge.is_none(),
            decreases self.mesh().vertices[v as int].degree,
        {
            let ghost cur = self.model@;
            match self.out_edge(v) {
                None => {
                    break ;
                },
                Some(e) => {
                    proof {
                        cur.lemma_out_edge_can_unlink(v as int);
                        cur.lemma_remove_out_edge(v as int);
                        cur.lemma_remove_edge_wf(e as int, cur.keeps_twin_face(e as int));
                        assert(cur.vertex_ok(v as int));
                    }
                    let t: usize = self.twin(e);
                    let fe: usize = self.face(e);
                    let ft: usize = self.face(t);
                    let keep: bool = ft == 0;
                    let last: usize = self.num_faces() - 1;
                    self.remove_edge(e, keep);
                    if fe != ft {
                        let (kept, dropped): (usize, usize) = if keep {
                            (ft, fe)
                        } else {
                            (fe, ft)
                        };
                        self.remove_empty_face(dropped);
                        merged = if kept == last {
                            dropped
                        } else {
                            kept
                        };
                    } else {
                        merged = fe;
                    }
                },
            }
        }
        let (data, updated_vertex) = self.swap_out_vertex(v);
        VertexRemovalResult { data, updated_vertex, merged_face: merged }
    }
}


impl<V> Dcel<V> {
    /// The half-edges that leave the vertex `v`, in counterclockwise order,
    /// beginning with the one that `v` names.
    #[verifier::spinoff_prover]
    pub fn out_edges_ccw(&self, v: usize) -> (ring: Vec<usize>)
        requires
            self.wf(),
            self.mesh().valid_vertex(v as int),
        ensures
            ring@.len() == self.mesh().vertices[v as int].degree,
            ring@.len() > 0 ==> Some(ring@[0] as int) == self.mesh().vertices[v as int].out_edge,
            forall|i: int|
                0 <= i < ring@.len() ==> self.mesh().valid_edge(#[trigger] ring@[i] as int)
                    && self.mesh().origin(ring@[i] as int) == v && self.mesh().ring_index(
                    ring@[i] as int,
                ) == i,
            forall|i: int|
                0 <= i < ring@.len() - 1 ==> #[trigger] ring@[i + 1] == self.mesh().ccw(
                    ring@[i] as int,
                ),
            forall|e: int|
                self.mesh().valid_edge(e) && #[trigger] self.mesh().origin(e) == v ==> ring@.contains(
                    e as usize,
                ),
            forall|i: int, j: int|
                0 <= i < ring@.len() && 0 <= j < ring@.len() && i != j ==> #[trigger] ring@[i]
                    != #[trigger] ring@[j],
            forall|i: int|
                0 <= i < ring@.len() ==> #[trigger] ring@[i] == self.mesh().ring_edge(
                    v as int,
                    i as nat,
                ),
    {
        let ghost m = self.mesh();
        let ghost deg = m.vertices[v as int].degree;
        let mut ring: Vec<usize> = Vec::new();
        proof {
            self.lemma_wf();
            assert(m.vertex_ok(v as int));
        }
        match self.out_edge(v) {
            None => {
                proof {
                    assert forall|e: int| m.valid_edge(e) && #[trigger] m.origin(e)
                        == v implies ring@.contains(e as usize) by {
                        m.lemma_isolated_vertex(v as int, e);
                    }
                }
            },
            Some(start) => {
                let ghost p0 = m.half_edges[start as int].vpos;
                let mut cur: usize = start;
                proof {
                    assert(m.edge_ok(start as int));
                }
                loop
                    invariant_except_break
                        ring@.len() < deg,
                        m.valid_edge(cur as int),
                        m.origin(cur as int) == v,
                        cyclic_distance(p0, m.half_edges[cur as int].vpos, deg) == ring@.len(),
                        ring@.len() == 0 ==> cur == start,
                        ring@.len() > 0 ==> m.ccw(ring@[ring@.len() - 1] as int) == cur,
                    invariant
                        m.num_half_edges() <= usize::MAX,
                        self.wf(),
                        m == self.mesh(),
                        m.wf(),
                        m.valid_vertex(v as int),
                        deg == m.vertices[v as int].degree,
                        m.valid_edge(start as int),
                        m.origin(start as int) == v,
                        p0 == m.half_edges[start as int].vpos,
                        0 <= p0 < deg,
                        ring@.len() <= deg,
                        ring@.len() > 0 ==> ring@[0] == start,
                        forall|i: int|
                            0 <= i < ring@.len() ==> m.valid_edge(#[trigger] ring@[i] as int)
                                && m.origin(ring@[i] as int) == v && cyclic_distance(
                                p0,
                                m.half_edges[ring@[i] as int].vpos,
                                deg,
                            ) == i,
                        forall|i: int|
                            0 <= i < ring@.len() - 1 ==> #[trigger] ring@[i + 1] == m.ccw(
                                ring@[i] as int,
                            ),
                        forall|i: int|
                            0 <= i < ring@.len() ==> #[trigger] ring@[i] == m.ring_edge(
                                v as int,
                                i as nat,
                            ),
                        option_int(Some(start)) == m.vertices[v as int].out_edge,
                    ensures
                        ring@.len() == deg,
                    decreases deg - ring@.len(),
                {
                    let ghost before = ring@;
                    ring.push(cur);
                    proof {
                        assert(m.edge_ok(cur as int));
                        m.lemma_ccw(cur as int);
                    }
                    let prev: usize = self.prev(cur);
                    let next: usize = self.twin(prev);
                    proof {
                        assert(m.edge_ok(next as int));
                        if next != start {
                            assert(m.positions_differ(next as int, start as int));
                        }
                        assert forall|i: int| 0 <= i < ring@.len() - 1 implies #[trigger] ring@[i
                            + 1] == m.ccw(ring@[i] as int) by {
                            if i + 1 < before.len() {
                                assert(before[i + 1] == m.ccw(before[i] as int));
                            }
                        }
                        assert forall|i: int| 0 <= i < ring@.len() implies #[trigger] ring@[i]
                            == m.ring_edge(v as int, i as nat) by {
                            if i < before.len() {
                                assert(before[i] == m.ring_edge(v as int, i as nat));
                            } else if i > 0 {
                                assert(before[i - 1] == m.ring_edge(v as int, (i - 1) as nat));
                            }
                        }
                    }
                    cur = next;
                    if cur == start {
                        break ;
                    }
                }
                proof {
                    assert forall|i: int| 0 <= i < ring@.len() implies m.ring_index(
                        #[trigger] ring@[i] as int,
                    ) == i by {
                        assert(m.origin(ring@[i] as int) == v);
                    }
                    assert forall|e: int| m.valid_edge(e) && #[trigger] m.origin(e)
                        == v implies ring@.contains(e as usize) by {
                        assert(m.edge_ok(e));
                        let d = cyclic_distance(p0, m.half_edges[e].vpos, deg);
                        let c = ring@[d] as int;
                        assert(m.edge_ok(c));
                        assert(cyclic_distance(p0, m.half_edges[c].vpos, deg) == d);
                        if c != e {
                            assert(m.positions_differ(c, e));
                        }
                        assert(ring@[d] == e as usize);
                    }
                }
            },
        }
        ring
    }

    /// The half-edges that have the same face on their left as the half-edge
    /// `e`, in the order of the cycle around that face, beginning with `e`.
    #[verifier::spinoff_prover]
    pub fn face_cycle(&self, e: usize) -> (cycle: Vec<usize>)
        requires
            self.wf(),
            self.mesh().valid_edge(e as int),
        ensures
            cycle@.len() == self.mesh().faces[self.mesh().face(e as int)].len,
            cycle@.len() >= 1,
            cycle@[0] == e,
            forall|i: int|
                0 <= i < cycle@.len() ==> self.mesh().valid_edge(#[trigger] cycle@[i] as int)
                    && self.mesh().face(cycle@[i] as int) == self.mesh().face(e as int)
                    && cyclic_distance(
                    self.mesh().half_edges[e as int].fpos,
                    self.mesh().half_edges[cycle@[i] as int].fpos,
                    cycle@.len() as int,
                ) == i,
            forall|i: int|
                0 <= i < cycle@.len() - 1 ==> #[trigger] cycle@[i + 1] == self.mesh().next(
                    cycle@[i] as int,
                ),
            self.mesh().next(cycle@[cycle@.len() - 1] as int) == e,
    {
        let ghost m = self.mesh();
        let ghost f = m.face(e as int);
        let ghost len = m.faces[f].len;
        let ghost p0 = m.half_edges[e as int].fpos;
        let mut cycle: Vec<usize> = Vec::new();
        let mut cur: usize = e;
        proof {
            self.lemma_wf();
            assert(m.edge_ok(e as int));
        }
        loop
            invariant_except_break
                cycle@.len() < len,
                m.valid_edge(cur as int),
                m.face(cur as int) == f,
                cyclic_distance(p0, m.half_edges[cur as int].fpos, len) == cycle@.len(),
                cycle@.len() == 0 ==> cur == e,
            invariant
                m.valid_face(f),
                self.wf(),
                m == self.mesh(),
                m.wf(),
                m.valid_edge(e as int),
                f == m.face(e as int),
                len == m.faces[f].len,
                p0 == m.half_edges[e as int].fpos,
                0 <= p0 < len,
                cycle@.len() <= len,
                cycle@.len() > 0 ==> cycle@[0] == e,
                cycle@.len() > 0 ==> m.next(cycle@[cycle@.len() - 1] as int) == cur,
                forall|i: int|
                    0 <= i < cycle@.len() ==> m.valid_edge(#[trigger] cycle@[i] as int) && m.face(
                        cycle@[i] as int,
                    ) == f && cyclic_distance(p0, m.half_edges[cycle@[i] as int].fpos, len) == i,
                forall|i: int|
                    0 <= i < cycle@.len() - 1 ==> #[trigger] cycle@[i + 1] == m.next(
                        cycle@[i] as int,
                    ),
            ensures
                cycle@.len() == len,
                cycle@.len() >= 1,
                cur == e,
            decreases len - cycle@.len(),
        {
            let ghost before = cycle@;
            cycle.push(cur);
            proof {
                assert(m.edge_ok(cur as int));
            }
            let next: usize = self.next(cur);
            proof {
                assert(m.edge_ok(next as int));
                if next != e {
                    assert(m.positions_differ(next as int, e as int));
                }
                assert forall|i: int| 0 <= i < cycle@.len() - 1 implies #[trigger] cycle@[i + 1]
                    == m.next(cycle@[i] as int) by {
                    if i + 1 < before.len() {
                        assert(before[i + 1] == m.next(before[i] as int));
                    }
                }
            }
            cur = next;
            if cur == e {
                break ;
            }
        }
        cycle
    }

    /// The half-edge from the vertex `from` to the vertex `to`: the first one
    /// counterclockwise from the half-edge that `from` names, or `None` where
    /// no edge joins the two.
    #[verifier::spinoff_prover]
    pub fn get_edge_from_neighbors(&self, from: usize, to: usize) -> (r: Option<usize>)
        requires
            self.wf(),
            self.mesh().valid_vertex(from as int),
        ensures
            r.is_some() ==> self.mesh().valid_edge(r.unwrap() as int) && self.mesh().origin(
                r.unwrap() as int,
            ) == from && self.mesh().target(r.unwrap() as int) == to,
            r.is_none() ==> forall|e: int|
                self.mesh().valid_edge(e) && #[trigger] self.mesh().origin(e) == from
                    ==> self.mesh().target(e) != to,
            r.is_some() ==> forall|e: int|
                self.mesh().valid_edge(e) && #[trigger] self.mesh().origin(e) == from
                    && self.mesh().target(e) == to ==> self.mesh().ring_index(r.unwrap() as int)
                    <= self.mesh().ring_index(e),
            option_int(r) == self.mesh().find_edge(from as int, to as int),
    {
        let ring: Vec<usize> = self.out_edges_ccw(from);
        let mut i: usize = 0;
        proof {
            self.lemma_wf();
        }
        while i < ring.len()
            invariant
                self.wf(),
                0 <= i <= ring@.len(),
                forall|j: int|
                    0 <= j < ring@.len() ==> self.mesh().valid_edge(#[trigger] ring@[j] as int)
                        && self.mesh().origin(ring@[j] as int) == from && self.mesh().ring_index(
                        ring@[j] as int,
                    ) == j,
                forall|e: int|
                    self.mesh().valid_edge(e) && #[trigger] self.mesh().origin(e) == from
                        ==> ring@.contains(e as usize),
                self.mesh().num_half_edges() <= usize::MAX,
                forall|j: int| 0 <= j < i ==> self.mesh().target(#[trigger] ring@[j] as int) != to,
            decreases ring@.len() - i,
        {
            let e: usize = ring[i];
            if self.target(e) == to {
                proof {
                    assert forall|e2: int|
                        self.mesh().valid_edge(e2) && #[trigger] self.mesh().origin(e2) == from
                            && self.mesh().target(e2) == to implies self.mesh().ring_index(e as int)
                        <= self.mesh().ring_index(e2) by {
                        assert(ring@.contains(e2 as usize));
                        let j = choose|j: int| 0 <= j < ring@.len() && ring@[j] == e2 as usize;
                        assert(self.mesh().ring_index(ring@[j] as int) == j);
                        if j < i {
                            assert(self.mesh().target(ring@[j] as int) != to);
                        }
                    }
                    assert(self.mesh().first_joining(from as int, to as int, e as int));
                    self.mesh().lemma_find_edge(from as int, to as int, Some(e as int));
                }
                return Some(e);
            }
            i = i + 1;
        }
        proof {
            assert forall|e: int|
                self.mesh().valid_edge(e) && #[trigger] self.mesh().origin(e)
                    == from implies self.mesh().target(e) != to by {
                assert(ring@.contains(e as usize));
                let j = choose|j: int| 0 <= j < ring@.len() && ring@[j] == e as usize;
                assert(self.mesh().target(ring@[j] as int) != to);
            }
            self.mesh().lemma_find_edge(from as int, to as int, None);
        }
        None
    }
}

} // verus!
