//! Edges that border a triangle and vertices that have an edge.
//!
//! In a mesh of triangles that has grown by insertions no edge has the outer
//! face on both sides and no vertex is isolated. The lemmas of this module
//! show that each step of an insertion keeps it so.
use vstd::prelude::*;
use crate::handles::twin_index;
use crate::math::{orient2d, Point2};
use crate::mesh::Mesh;
use crate::orientation::{all_ccw, ccw_at};

verus! {

/// The edge of the half-edge `e` has a triangle on one of its sides.
pub open spec fn bordered_at(m: Mesh, e: int) -> bool {
    m.face(e) != 0 || m.face(twin_index(e)) != 0
}

/// A half-edge leaves the vertex `v`.
pub open spec fn attached_at(m: Mesh, v: int) -> bool {
    m.vertices[v].out_edge.is_some()
}

/// The half-edges `e1` and `e2` do not both leave one vertex along the outer
/// face.
pub open spec fn hull_pair_ok(m: Mesh, e1: int, e2: int) -> bool {
    m.face(e1) == 0 && m.face(e2) == 0 ==> m.origin(e1) != m.origin(e2)
}

/// No edge has the outer face on both sides, no vertex is isolated, and the
/// outer face comes by no vertex twice.
pub open spec fn solid(m: Mesh) -> bool {
    &&& forall|e: int| 0 <= e < m.num_half_edges() ==> #[trigger] bordered_at(m, e)
    &&& forall|v: int| 0 <= v < m.num_vertices() ==> #[trigger] attached_at(m, v)
    &&& forall|e1: int, e2: int|
        0 <= e1 < m.num_half_edges() && 0 <= e2 < m.num_half_edges() && e1 != e2
            ==> #[trigger] hull_pair_ok(m, e1, e2)
}

/// No edge begins and ends in one vertex.
pub open spec fn no_loops(m: Mesh) -> bool {
    forall|e: int| 0 <= e < m.num_half_edges() ==> m.origin(e) != #[trigger] m.target(e)
}

/// The two ends of every edge lie at different positions.
pub open spec fn ends_apart(m: Mesh, pos: Seq<Point2>) -> bool {
    forall|e: int| 0 <= e < m.num_half_edges() ==> pos[m.origin(e)] != pos[#[trigger] m.target(e)]
}

/// In a solid mesh whose triangles are counterclockwise, the two ends of
/// every edge are different vertices at different positions.
pub proof fn lemma_solid_edges(m: Mesh, pos: Seq<Point2>)
    requires
        m.wf(),
        solid(m),
        all_ccw(m, pos),
    ensures
        no_loops(m),
        ends_apart(m, pos),
{
    assert forall|e: int| 0 <= e < m.num_half_edges() implies pos[m.origin(e)] != pos[#[trigger] m.target(
        e,
    )] by {
        let t = twin_index(e);
        assert(bordered_at(m, e));
        assert(m.edge_ok(e));
        assert(m.edge_ok(t));
        let a = pos[m.origin(e)];
        let b = pos[m.target(e)];
        if m.face(e) != 0 {
            assert(ccw_at(m, pos, e));
            let c = pos[m.apex(e)];
            if a == b {
                assert(orient2d(a, a, c) == 0) by (nonlinear_arith);
            }
        } else {
            assert(ccw_at(m, pos, t));
            let c = pos[m.apex(t)];
            assert(m.origin(t) == m.target(e));
            assert(m.target(t) == m.origin(e));
            if a == b {
                assert(orient2d(a, a, c) == 0) by (nonlinear_arith);
            }
        }
    }
}

/// A flip keeps a mesh solid.
#[verifier::spinoff_prover]
pub proof fn lemma_flip_keeps_solid(m: Mesh, e: int)
    requires
        m.wf(),
        m.flippable(e),
        solid(m),
    ensures
        solid(m.flip_cw(e)),
{
    let t = twin_index(e);
    let en = m.next(e);
    let ep = m.prev(e);
    let tn = m.next(t);
    let tp = m.prev(t);
    let f = m.flip_cw(e);
    m.lemma_flip_context(e);
    m.lemma_flip_cw_wf(e);
    assert forall|i: int| 0 <= i < f.num_half_edges() implies (f.face(i) == 0 <==> m.face(i) == 0)
        && (i != e && i != t ==> f.origin(i) == m.origin(i)) by {
        assert(m.edge_ok(i));
    }
    assert forall|i: int| 0 <= i < f.num_half_edges() implies #[trigger] bordered_at(f, i) by {
        assert(bordered_at(m, i));
        assert(m.edge_ok(i));
        assert(m.edge_ok(twin_index(i)));
    }
    assert forall|v: int| 0 <= v < f.num_vertices() implies #[trigger] attached_at(f, v) by {
        assert(attached_at(m, v));
        assert(m.vertex_ok(v));
        let w = m.vertices[v].out_edge.unwrap();
        let x = if w == e {
            tn
        } else if w == t {
            en
        } else {
            w
        };
        assert(f.origin(x) == v);
        f.lemma_isolated_vertex_has_no_edge(v, x);
    }
    assert forall|e1: int, e2: int|
        0 <= e1 < f.num_half_edges() && 0 <= e2 < f.num_half_edges() && e1
            != e2 implies #[trigger] hull_pair_ok(f, e1, e2) by {
        assert(hull_pair_ok(m, e1, e2));
    }
}

/// Legalizing keeps a mesh solid.
pub proof fn lemma_legalize_keeps_solid(
    m: Mesh,
    pos: Seq<Point2>,
    stack: Seq<usize>,
    p: Point2,
    flips: nat,
)
    requires
        m.wf(),
        solid(m),
    ensures
        solid(m.legalize(pos, stack, p, flips)),
    decreases stack.len() + 3 * flips,
{
    if stack.len() > 0 {
        let e = stack.last() as int;
        let rest = stack.drop_last();
        if flips > 0 && m.valid_edge(e) && m.flippable(e) && m.violates_delaunay(pos, e, p) {
            let t = twin_index(e);
            lemma_flip_keeps_solid(m, e);
            m.lemma_flip_cw_wf(e);
            lemma_legalize_keeps_solid(
                m.flip_cw(e),
                pos,
                rest.push(m.next(t) as usize).push(m.prev(t) as usize),
                p,
                (flips - 1) as nat,
            );
        } else {
            lemma_legalize_keeps_solid(m, pos, rest, p, flips);
        }
    }
}

/// Putting a vertex into a triangle keeps a mesh solid.
#[verifier::spinoff_prover]
pub proof fn lemma_insert_into_triangle_solid(m: Mesh, f: int)
    requires
        m.wf(),
        m.triangles_except(0),
        1 <= f < m.num_faces(),
        solid(m),
    ensures
        solid(m.insert_into_triangle(f)),
{
    let n = m.num_half_edges();
    let v = m.num_vertices();
    let e1 = m.faces[f].edge.unwrap();
    let e0 = m.prev(e1);
    let e2 = m.next(e1);
    let r = m.insert_into_triangle(f);
    m.lemma_insert_into_triangle(f);
    m.lemma_insert_into_triangle_shape(f);
    assert(r.edge_ok(e0) && r.edge_ok(e1) && r.edge_ok(e2));
    assert forall|i: int| 0 <= i < r.num_half_edges() implies #[trigger] bordered_at(r, i) by {
        assert(r.edge_ok(i));
        if i >= n {
            assert(r.edge_ok(n) && r.edge_ok(n + 1) && r.edge_ok(n + 2) && r.edge_ok(n + 3)
                && r.edge_ok(n + 4) && r.edge_ok(n + 5));
        } else if i != e0 && i != e1 && i != e2 {
            let t = twin_index(i);
            assert(bordered_at(m, i));
            assert(m.edge_ok(i));
            assert(m.same_triangle(r, i));
            if t != e0 && t != e1 && t != e2 {
                assert(m.same_triangle(r, t));
            }
        }
    }
    assert forall|u: int| 0 <= u < r.num_vertices() implies #[trigger] attached_at(r, u) by {
        if u == v {
            assert(r.edge_ok(n + 1));
            assert(r.edge_ok(twin_index(n + 1)));
            if r.origin(n + 1) == v {
                r.lemma_isolated_vertex_has_no_edge(v, n + 1);
            } else {
                r.lemma_isolated_vertex_has_no_edge(v, n);
            }
        } else {
            assert(attached_at(m, u));
            assert(m.vertex_ok(u));
            let w = m.vertices[u].out_edge.unwrap();
            if w != e0 && w != e1 && w != e2 {
                assert(m.same_triangle(r, w));
            }
            r.lemma_isolated_vertex_has_no_edge(u, w);
        }
    }
    assert(r.edge_ok(n) && r.edge_ok(n + 1) && r.edge_ok(n + 2) && r.edge_ok(n + 3) && r.edge_ok(
        n + 4,
    ) && r.edge_ok(n + 5));
    assert forall|k: int| 0 <= k < r.num_half_edges() && r.face(k) == 0 implies k < n && m.face(k)
        == 0 && r.origin(k) == m.origin(k) by {
        if k < n && k != e0 && k != e1 && k != e2 {
            assert(m.same_triangle(r, k));
        }
    }
    assert forall|a: int, b: int|
        0 <= a < r.num_half_edges() && 0 <= b < r.num_half_edges() && a
            != b implies #[trigger] hull_pair_ok(r, a, b) by {
        if r.face(a) == 0 && r.face(b) == 0 {
            assert(hull_pair_ok(m, a, b));
        }
    }
}

/// Putting a vertex on an edge keeps a mesh solid.
#[verifier::spinoff_prover]
pub proof fn lemma_insert_on_edge_solid(m: Mesh, e: int)
    requires
        m.wf(),
        m.triangles_except(0),
        m.valid_edge(e),
        m.face(e) != 0,
        m.face(e) != m.face(twin_index(e)),
        solid(m),
    ensures
        solid(m.insert_on_edge(e)),
{
    let n = m.num_half_edges();
    let v = m.num_vertices();
    let t = twin_index(e);
    let en = m.next(e);
    let ep = m.prev(e);
    let tn = m.next(t);
    let tp = m.prev(t);
    let inner = m.face(t) != 0;
    let r = m.insert_on_edge(e);
    m.lemma_insert_on_edge(e);
    m.lemma_insert_on_edge_shape(e);
    assert(m.edge_ok(e) && m.edge_ok(t) && m.edge_ok(en) && m.edge_ok(ep) && m.edge_ok(tn)
        && m.edge_ok(tp));
    assert(r.edge_ok(en) && r.edge_ok(ep) && r.edge_ok(e) && r.edge_ok(t));
    assert(r.edge_ok(n) && r.edge_ok(n + 1) && r.edge_ok(n + 2) && r.edge_ok(n + 3));
    assert(r.face(e) != 0 && r.face(n) != 0 && r.face(n + 2) != 0 && r.face(n + 3) != 0);
    if inner {
        assert(r.edge_ok(tn) && r.edge_ok(tp) && r.edge_ok(n + 4) && r.edge_ok(n + 5));
        assert(r.face(n + 4) != 0 && r.face(n + 5) != 0);
    }
    // Every half-edge that had a triangle on its left has one still.
    assert forall|i: int| 0 <= i < n && m.face(i) != 0 implies r.face(i) != 0 by {
        assert(m.edge_ok(i));
        if i != e && i != en && i != ep && i != t && i != tn && i != tp {
            assert(m.same_triangle(r, i));
        }
    }
    assert forall|i: int| 0 <= i < r.num_half_edges() implies #[trigger] bordered_at(r, i) by {
        if i < n {
            assert(bordered_at(m, i));
            assert(m.edge_ok(i));
            assert(m.valid_edge(twin_index(i)));
        }
    }
    // Every old half-edge but the split one and its twin leaves the vertex
    // that it left before.
    assert(r.origin(e) == m.origin(e));
    assert forall|u: int| 0 <= u < r.num_vertices() implies #[trigger] attached_at(r, u) by {
        if u == v {
            assert(r.origin(n + 2) == v);
            r.lemma_isolated_vertex_has_no_edge(v, n + 2);
        } else {
            assert(attached_at(m, u));
            assert(m.vertex_ok(u));
            let w = m.vertices[u].out_edge.unwrap();
            assert(m.edge_ok(w));
            let j = twin_index(w);
            assert(m.edge_ok(j));
            assert(bordered_at(m, w));
            if w == e || (!inner && w == tn) {
                r.lemma_isolated_vertex_has_no_edge(u, e);
            } else if w == t {
                r.lemma_isolated_vertex_has_no_edge(u, en);
            } else if w == en || w == ep || (inner && (w == tn || w == tp)) {
                r.lemma_isolated_vertex_has_no_edge(u, w);
            } else if w == tp {
                // The hull edge before the split one: its twin ends in `u`.
                assert(r.edge_ok(j));
                if j != e && j != en && j != ep && j != t && j != tn && j != tp {
                    assert(m.same_triangle(r, j));
                }
                assert(r.target(j) == u);
                r.lemma_isolated_vertex_has_no_edge(u, w);
            } else {
                assert(m.same_triangle(r, w));
                r.lemma_isolated_vertex_has_no_edge(u, w);
            }
        }
    }
    lemma_insert_on_edge_hull(m, e);
}

/// The half-edge `k` of the mesh `r`, which has the outer face on its left,
/// had it on its left in `m` and left the same vertex there.
pub open spec fn same_hull_edge(m: Mesh, r: Mesh, k: int) -> bool {
    r.face(k) == 0 ==> k < m.num_half_edges() && m.face(k) == 0 && r.origin(k) == m.origin(k)
}

/// After a vertex has been put on an edge, the outer face comes by no vertex
/// twice.
#[verifier::spinoff_prover]
pub proof fn lemma_insert_on_edge_hull(m: Mesh, e: int)
    requires
        m.wf(),
        m.triangles_except(0),
        m.valid_edge(e),
        m.face(e) != 0,
        m.face(e) != m.face(twin_index(e)),
        solid(m),
    ensures
        forall|a: int, b: int|
            0 <= a < m.insert_on_edge(e).num_half_edges() && 0 <= b < m.insert_on_edge(
                e,
            ).num_half_edges() && a != b ==> #[trigger] hull_pair_ok(m.insert_on_edge(e), a, b),
{
    let n = m.num_half_edges();
    let v = m.num_vertices();
    let t = twin_index(e);
    let en = m.next(e);
    let ep = m.prev(e);
    let tn = m.next(t);
    let tp = m.prev(t);
    let inner = m.face(t) != 0;
    let r = m.insert_on_edge(e);
    m.lemma_insert_on_edge(e);
    m.lemma_insert_on_edge_shape(e);
    assert(m.edge_ok(e) && m.edge_ok(t) && m.edge_ok(en) && m.edge_ok(ep) && m.edge_ok(tn)
        && m.edge_ok(tp));
    assert(r.edge_ok(en) && r.edge_ok(ep) && r.edge_ok(e) && r.edge_ok(t));
    assert(r.edge_ok(n) && r.edge_ok(n + 1) && r.edge_ok(n + 2) && r.edge_ok(n + 3));
    assert(r.face(e) != 0 && r.face(n) != 0 && r.face(n + 2) != 0 && r.face(n + 3) != 0);
    if inner {
        assert(r.edge_ok(tn) && r.edge_ok(tp) && r.edge_ok(n + 4) && r.edge_ok(n + 5));
        assert(r.face(n + 4) != 0 && r.face(n + 5) != 0 && r.face(t) != 0 && r.face(n + 1) != 0);
        assert forall|k: int| 0 <= k < r.num_half_edges() implies #[trigger] same_hull_edge(
            m,
            r,
            k,
        ) by {
            if k < n && k != e && k != en && k != ep && k != t && k != tn && k != tp {
                assert(m.same_triangle(r, k));
            }
        }
        assert forall|a: int, b: int|
            0 <= a < r.num_half_edges() && 0 <= b < r.num_half_edges() && a
                != b implies #[trigger] hull_pair_ok(r, a, b) by {
            assert(same_hull_edge(m, r, a));
            assert(same_hull_edge(m, r, b));
            if r.face(a) == 0 && r.face(b) == 0 {
                assert(hull_pair_ok(m, a, b));
            }
        }
    } else {
        assert(m.face(tn) == 0 && m.face(tp) == 0);
        r.lemma_triangle(ep);
        r.lemma_triangle(en);
        assert(r.origin(t) == v);
        assert(r.origin(n + 1) == m.origin(t));
        if tn != t {
            lemma_hull_neighbour(m, r, e, tn);
        }
        if tp != t {
            lemma_hull_neighbour(m, r, e, tp);
        }
        assert forall|k: int|
            0 <= k < r.num_half_edges() && k != t && k != n + 1 implies #[trigger] same_hull_edge(
            m,
            r,
            k,
        ) by {
            if k < n && k != e && k != en && k != ep && k != tn && k != tp {
                assert(m.same_triangle(r, k));
            }
        }
        assert forall|a: int, b: int|
            0 <= a < r.num_half_edges() && 0 <= b < r.num_half_edges() && a
                != b implies #[trigger] hull_pair_ok(r, a, b) by {
            if r.face(a) == 0 && r.face(b) == 0 {
                if a != t && a != n + 1 {
                    assert(same_hull_edge(m, r, a));
                    assert(m.edge_ok(a));
                }
                if b != t && b != n + 1 {
                    assert(same_hull_edge(m, r, b));
                    assert(m.edge_ok(b));
                }
                if a != t && a != n + 1 && b != t && b != n + 1 {
                    assert(hull_pair_ok(m, a, b));
                } else if a == n + 1 && b != t {
                    assert(hull_pair_ok(m, t, b));
                } else if b == n + 1 && a != t {
                    assert(hull_pair_ok(m, a, t));
                }
            }
        }
    }
}

/// A neighbour `k` of the twin of a split hull edge on the outer face leaves
/// the vertex afterwards that it left before.
#[verifier::spinoff_prover]
pub proof fn lemma_hull_neighbour(m: Mesh, r: Mesh, e: int, k: int)
    requires
        m.wf(),
        m.triangles_except(0),
        m.valid_edge(e),
        m.face(e) != 0,
        m.face(twin_index(e)) == 0,
        solid(m),
        r == m.insert_on_edge(e),
        k == m.next(twin_index(e)) || k == m.prev(twin_index(e)),
        k != twin_index(e),
    ensures
        r.origin(k) == m.origin(k),
{
    let t = twin_index(e);
    let en = m.next(e);
    let ep = m.prev(e);
    let tn = m.next(t);
    let tp = m.prev(t);
    m.lemma_insert_on_edge(e);
    m.lemma_insert_on_edge_shape(e);
    assert(m.edge_ok(e) && m.edge_ok(t) && m.edge_ok(k));
    let j = twin_index(k);
    assert(m.edge_ok(j));
    assert(r.edge_ok(k));
    assert(r.edge_ok(j));
    assert(m.face(k) == 0);
    assert(bordered_at(m, k));
    assert(m.face(j) != 0);
    assert(j != t && j != tn && j != tp) by {
        assert(m.edge_ok(tn));
        assert(m.edge_ok(tp));
    }
    assert(j != e);
    if j != en && j != ep {
        assert(m.same_triangle(r, j));
    }
    assert(r.target(j) == m.target(j));
}

/// The half-edge `k` is one of the half-edges of `chain` from index `i` on.
pub open spec fn pending(chain: Seq<usize>, i: int, k: int) -> bool {
    exists|j: int| i <= j < chain.len() && #[trigger] chain[j] == k
}

/// The edge of the half-edge `k` has a triangle on one side, or will have
/// one when the fan over `chain` has been closed from index `i` on.
pub open spec fn covered_at(m: Mesh, chain: Seq<usize>, i: int, k: int) -> bool {
    bordered_at(m, k) || pending(chain, i, k) || pending(chain, i, twin_index(k))
}

/// What holds before the step `i` of closing a fan around the vertex `v`
/// over a mesh `m0`: the old half-edges leave the vertices that they left in
/// `m0`, and every edge but the first spoke has a triangle on one side or
/// will have one.
pub open spec fn fan_solid_state(
    m: Mesh,
    m0: Mesh,
    chain: Seq<usize>,
    i: int,
    last: int,
    limit: int,
    v: int,
) -> bool {
    &&& m.fan_state(chain, i, last, limit)
    &&& limit == m0.num_half_edges()
    &&& limit % 2 == 0
    &&& m.target(last) == v
    &&& i == 0 ==> last == limit
    &&& i > 0 ==> m.face(limit) != 0 && last > limit + 1
    &&& forall|k: int| 0 <= k < limit ==> #[trigger] m.origin(k) == m0.origin(k)
    &&& forall|k: int|
        0 <= k < m.num_half_edges() && k != limit && k != limit + 1 ==> #[trigger] covered_at(
            m,
            chain,
            i,
            k,
        )
    &&& forall|k: int| 0 <= k < m.num_half_edges() ==> #[trigger] hull_edge_known(m, m0, chain, i, last, k)
    &&& m.origin(limit + 1) == v
    &&& i > 0 ==> m.origin(last) == m0.origin(chain[i - 1] as int)
    &&& forall|j: int| 0 <= j < chain.len() ==> (#[trigger] chain[j]) < limit
}

/// The half-edges `e1` and `e2` do not both leave one vertex along the outer
/// face, or a triangle of the fan over `chain` will stand on one of them.
pub open spec fn hull_pair_later(m: Mesh, chain: Seq<usize>, e1: int, e2: int) -> bool {
    hull_pair_ok(m, e1, e2) || pending(chain, 0, e1) || pending(chain, 0, e2)
}

/// Where the half-edge `k` stays on the outer face when the fan over `chain`
/// is closed, it does not leave the vertex that the last half-edge of the
/// chain leaves.
pub open spec fn hull_end_free(m: Mesh, chain: Seq<usize>, k: int) -> bool {
    m.face(k) == 0 && !pending(chain, 0, k) ==> m.origin(k) != m.origin(chain.last() as int)
}

/// The half-edge `k` is one of the half-edges of `chain` below index `i`.
pub open spec fn done(chain: Seq<usize>, i: int, k: int) -> bool {
    exists|j: int| 0 <= j < i && j < chain.len() && #[trigger] chain[j] == k
}

/// Where the half-edge `k` has the outer face on its left while a fan is
/// closed, it had it there before and no triangle of the fan stands on it,
/// or it is the last spoke or the twin of the first.
pub open spec fn hull_edge_known(m: Mesh, m0: Mesh, chain: Seq<usize>, i: int, last: int, k: int) -> bool {
    m.face(k) == 0 ==> if k < m0.num_half_edges() {
        m0.face(k) == 0 && !done(chain, i, k)
    } else {
        k == last || k == m0.num_half_edges() + 1
    }
}

/// One step of closing a fan keeps what `fan_solid_state` says.
#[verifier::spinoff_prover]
pub proof fn lemma_close_fan_step_solid(
    m: Mesh,
    m0: Mesh,
    chain: Seq<usize>,
    i: int,
    last: int,
    limit: int,
    v: int,
)
    requires
        fan_solid_state(m, m0, chain, i, last, limit, v),
        i < chain.len(),
    ensures
        fan_solid_state(
            m.create_face(last, chain[i] as int),
            m0,
            chain,
            i + 1,
            m.num_half_edges() + 1,
            limit,
            v,
        ),
{
    let c = chain[i] as int;
    let n = m.num_half_edges();
    let r = m.create_face(last, c);
    m.lemma_close_fan_step(chain, i, last, limit);
    m.lemma_close_fan_step_shape(chain, i, last, limit);
    assert(r.edge_ok(c) && r.edge_ok(last) && r.edge_ok(n) && r.edge_ok(n + 1));
    assert(r.face(last) != 0 && r.face(n) != 0);
    if i > 0 {
        assert(m.same_triangle(r, limit));
    }
    assert forall|k: int| 0 <= k < limit implies #[trigger] r.origin(k) == m0.origin(k) by {
        assert(m.origin(k) == m0.origin(k));
        if k != c {
            assert(r.apex(k) == m.apex(k));
        }
    }
    assert(r.origin(limit + 1) == m.origin(limit + 1));
    assert(r.origin(n + 1) == m0.origin(c)) by {
        r.lemma_triangle(c);
    }
    assert forall|k: int| 0 <= k < r.num_half_edges() implies #[trigger] hull_edge_known(
        r,
        m0,
        chain,
        i + 1,
        n + 1,
        k,
    ) by {
        if r.face(k) == 0 {
            if k < n && k != c && k != last && k != limit + 1 {
                assert(m.same_triangle(r, k));
                assert(hull_edge_known(m, m0, chain, i, last, k));
                if k < limit && done(chain, i + 1, k) {
                    let j = choose|j: int| 0 <= j < i + 1 && j < chain.len() && #[trigger] chain[j] == k;
                    if j < i {
                        assert(done(chain, i, k));
                    }
                }
            }
        }
    }
    assert forall|k: int|
        0 <= k < r.num_half_edges() && k != limit && k != limit + 1 implies #[trigger] covered_at(
        r,
        chain,
        i + 1,
        k,
    ) by {
        let t = twin_index(k);
        if k >= n || k == c || k == last || t == c || t == last {
        } else {
            assert(covered_at(m, chain, i, k));
            assert(m.edge_ok(k));
            assert(m.valid_edge(t));
            assert(t != limit + 1 && t != limit);
            assert(m.same_triangle(r, k));
            assert(m.same_triangle(r, t));
            if pending(chain, i, k) {
                let j = choose|j: int| i <= j < chain.len() && #[trigger] chain[j] == k;
                assert(j > i);
                assert(pending(chain, i + 1, k));
            } else if pending(chain, i, t) {
                let j = choose|j: int| i <= j < chain.len() && #[trigger] chain[j] == t;
                assert(j > i);
                assert(pending(chain, i + 1, t));
            }
        }
    }
}

/// When a fan has been closed, the mesh is solid.
pub proof fn lemma_close_fan_solid(
    m: Mesh,
    m0: Mesh,
    chain: Seq<usize>,
    i: int,
    last: int,
    limit: int,
    v: int,
)
    requires
        fan_solid_state(m, m0, chain, i, last, limit, v),
        chain.len() >= 1,
        m0.wf(),
        v == m0.num_vertices(),
        m.num_vertices() == v + 1,
        forall|u: int| 0 <= u < v ==> #[trigger] attached_at(m0, u),
        forall|e1: int, e2: int|
            0 <= e1 < limit && 0 <= e2 < limit && e1 != e2 ==> #[trigger] hull_pair_later(
                m0,
                chain,
                e1,
                e2,
            ),
        forall|k: int| 0 <= k < limit ==> #[trigger] hull_end_free(m0, chain, k),
    ensures
        solid(m.close_fan(chain, i, last)),
    decreases chain.len() - i,
{
    if i < chain.len() {
        lemma_close_fan_step_solid(m, m0, chain, i, last, limit, v);
        m.lemma_close_fan_step(chain, i, last, limit);
        lemma_close_fan_solid(
            m.create_face(last, chain[i] as int),
            m0,
            chain,
            i + 1,
            m.num_half_edges() + 1,
            limit,
            v,
        );
    } else {
        assert forall|k: int| 0 <= k < m.num_half_edges() implies #[trigger] bordered_at(m, k) by {
            if k != limit && k != limit + 1 {
                assert(covered_at(m, chain, i, k));
            } else {
                assert(twin_index(limit) == limit + 1 && twin_index(limit + 1) == limit);
            }
        }
        assert forall|u: int| 0 <= u < m.num_vertices() implies #[trigger] attached_at(m, u) by {
            if u == v {
                assert(m.edge_ok(last));
                m.lemma_isolated_vertex_has_no_edge(v, twin_index(last));
            } else {
                assert(attached_at(m0, u));
                assert(m0.vertex_ok(u));
                let w = m0.vertices[u].out_edge.unwrap();
                assert(m.origin(w) == m0.origin(w));
                m.lemma_isolated_vertex_has_no_edge(u, w);
            }
        }
        let end = chain[chain.len() - 1] as int;
        assert(m0.edge_ok(end));
        assert forall|a: int, b: int|
            0 <= a < m.num_half_edges() && 0 <= b < m.num_half_edges() && a
                != b implies #[trigger] hull_pair_ok(m, a, b) by {
            if m.face(a) == 0 && m.face(b) == 0 {
                assert(hull_edge_known(m, m0, chain, i, last, a));
                assert(hull_edge_known(m, m0, chain, i, last, b));
                if a < limit {
                    assert(m.origin(a) == m0.origin(a));
                    assert(m0.edge_ok(a));
                    if pending(chain, 0, a) {
                        let j = choose|j: int| 0 <= j < chain.len() && #[trigger] chain[j] == a;
                        assert(done(chain, i, a));
                    }
                    assert(hull_end_free(m0, chain, a));
                }
                if b < limit {
                    assert(m.origin(b) == m0.origin(b));
                    assert(m0.edge_ok(b));
                    if pending(chain, 0, b) {
                        let j = choose|j: int| 0 <= j < chain.len() && #[trigger] chain[j] == b;
                        assert(done(chain, i, b));
                    }
                    assert(hull_end_free(m0, chain, b));
                }
                if a < limit && b < limit {
                    assert(hull_pair_later(m0, chain, a, b));
                }
            }
        }
    }
}

/// Joining a new vertex to a chain of hull edges gives a solid mesh, where
/// every vertex had an edge before and every edge had a triangle on one side
/// or belongs to the chain.
#[verifier::spinoff_prover]
pub proof fn lemma_attach_fan_solid(m: Mesh, chain: Seq<usize>)
    requires
        m.wf(),
        m.triangles_except(0),
        m.hull_chain(chain),
        forall|u: int| 0 <= u < m.num_vertices() ==> #[trigger] attached_at(m, u),
        forall|k: int| 0 <= k < m.num_half_edges() ==> #[trigger] covered_at(m, chain, 0, k),
        forall|e1: int, e2: int|
            0 <= e1 < m.num_half_edges() && 0 <= e2 < m.num_half_edges() && e1 != e2
                ==> #[trigger] hull_pair_later(m, chain, e1, e2),
        forall|k: int| 0 <= k < m.num_half_edges() ==> #[trigger] hull_end_free(m, chain, k),
    ensures
        solid(m.insert_vertex().attach_fan(chain, m.num_vertices())),
{
    let v = m.num_vertices();
    let n = m.num_half_edges();
    let m1 = m.insert_vertex();
    let c0 = chain[0] as int;
    let m2 = m1.connect_edge_to_isolated_vertex(c0, v);
    m.lemma_insert_vertex_wf();
    assert(m1.half_edges == m.half_edges);
    assert(m1.faces == m.faces);
    assert(m1.hull_chain(chain));
    assert(m1.triangles_except(0));
    m1.lemma_attach_fan_start(chain, v);
    m1.lemma_connect_edge_to_isolated_vertex_wf(c0, v);
    assert(m1.edge_ok(c0));
    assert(m1.edge_ok(m1.next(c0)));
    assert(m2.edge_ok(n));
    assert(m2.edge_ok(n + 1));
    assert(m2.target(n) == v);
    assert forall|k: int| 0 <= k < n implies #[trigger] m2.origin(k) == m.origin(k) && m2.face(k)
        == m.face(k) by {
        assert(m1.edge_ok(k));
    }
    assert forall|k: int| 0 <= k < m2.num_half_edges() && k != n && k != n + 1 implies #[trigger] covered_at(
        m2,
        chain,
        0,
        k,
    ) by {
        assert(covered_at(m, chain, 0, k));
        assert(m1.edge_ok(k));
        assert(m2.face(k) == m.face(k));
        assert(m2.face(twin_index(k)) == m.face(twin_index(k)));
    }
    assert(n % 2 == 0);
    assert(m2.origin(n + 1) == v);
    assert forall|k: int| 0 <= k < m2.num_half_edges() implies #[trigger] hull_edge_known(
        m2,
        m,
        chain,
        0,
        n,
        k,
    ) by {
        if k < n {
            assert(m1.edge_ok(k));
            assert(m2.face(k) == m.face(k));
        }
    }
    assert(fan_solid_state(m2, m, chain, 0, n, n, v));
    lemma_close_fan_solid(m2, m, chain, 0, n, n, v);
}

/// A sequence that names each of as many numbers as it is long at most once
/// names every one of them.
pub proof fn lemma_order_names(order: Seq<usize>, u: int)
    requires
        0 <= u < order.len(),
        forall|i: int| 0 <= i < order.len() ==> (#[trigger] order[i]) < order.len(),
        forall|i: int, j: int|
            0 <= i < order.len() && 0 <= j < order.len() && i != j ==> #[trigger] order[i]
                != #[trigger] order[j],
    ensures
        exists|j: int| 0 <= j < order.len() && #[trigger] order[j] == u,
{
    let n = order.len() as int;
    let ints = Seq::new(order.len(), |i: int| order[i] as int);
    assert(ints.no_duplicates()) by {
        assert forall|i: int, j: int|
            0 <= i < ints.len() && 0 <= j < ints.len() && i != j implies ints[i] != ints[j] by {
            assert(order[i] != order[j]);
        }
    }
    ints.unique_seq_to_set();
    vstd::seq_lib::seq_to_set_is_finite(ints);
    vstd::set_lib::lemma_int_range(0, n);
    let range = vstd::set_lib::set_int_range(0, n);
    assert(ints.to_set().subset_of(range)) by {
        assert forall|a: int| ints.to_set().contains(a) implies range.contains(a) by {
            assert(ints.contains(a));
            let i = choose|i: int| 0 <= i < ints.len() && ints[i] == a;
            assert(order[i] < order.len());
        }
    }
    vstd::set_lib::lemma_subset_equality(ints.to_set(), range);
    assert(range.contains(u));
    assert(ints.to_set().contains(u));
    assert(ints.contains(u));
    let j = choose|j: int| 0 <= j < ints.len() && ints[j] == u;
    assert(order[j] == u);
}

/// Joining a new vertex to one side of a complete chain gives a solid mesh.
#[verifier::spinoff_prover]
pub proof fn lemma_first_triangles_solid(chain_mesh: Mesh, order: Seq<usize>, left: bool)
    requires
        chain_mesh.chain_state(order, order.len() - 1),
        2 * order.len() <= usize::MAX,
    ensures
        solid(
            chain_mesh.insert_vertex().attach_fan(
                if left {
                    Mesh::chain_left(order.len() - 1)
                } else {
                    Mesh::chain_right(order.len() - 1)
                },
                chain_mesh.num_vertices(),
            ),
        ),
{
    let k = order.len() - 1;
    let list = if left {
        Mesh::chain_left(k)
    } else {
        Mesh::chain_right(k)
    };
    chain_mesh.lemma_chain_is_hull(order, k);
    assert forall|e: int| 0 <= e < chain_mesh.num_half_edges() implies #[trigger] covered_at(
        chain_mesh,
        list,
        0,
        e,
    ) by {
        let j = e / 2;
        let half = if left {
            2 * j
        } else {
            2 * j + 1
        };
        let at = if left {
            k - 1 - j
        } else {
            j
        };
        assert(list[at] == half);
        assert(half == e || half == twin_index(e)) by {
            crate::handles::lemma_twin_involution(e);
        }
        if half == e {
            assert(pending(list, 0, e));
        } else {
            assert(pending(list, 0, twin_index(e)));
        }
    }
    assert forall|u: int| 0 <= u < chain_mesh.num_vertices() implies #[trigger] attached_at(
        chain_mesh,
        u,
    ) by {
        lemma_order_names(order, u);
        let j = choose|j: int| 0 <= j < order.len() && #[trigger] order[j] == u;
        if j < k {
            assert(chain_mesh.chain_edge_ok(order, j));
            chain_mesh.lemma_isolated_vertex_has_no_edge(u, 2 * j);
        } else {
            assert(chain_mesh.chain_edge_ok(order, k - 1));
            chain_mesh.lemma_isolated_vertex_has_no_edge(u, 2 * (k - 1) + 1);
        }
    }
    assert forall|e1: int, e2: int|
        0 <= e1 < chain_mesh.num_half_edges() && 0 <= e2 < chain_mesh.num_half_edges() && e1
            != e2 implies #[trigger] hull_pair_later(chain_mesh, list, e1, e2) by {
        let j1 = e1 / 2;
        let j2 = e2 / 2;
        assert(chain_mesh.chain_edge_ok(order, j1));
        assert(chain_mesh.chain_edge_ok(order, j2));
        if e1 % 2 == e2 % 2 {
            assert(j1 != j2);
            assert(order[j1] != order[j2]);
            assert(order[j1 + 1] != order[j2 + 1]);
        } else {
            let x = if (e1 % 2 == 0) == left {
                e1
            } else {
                e2
            };
            let at = if left {
                k - 1 - x / 2
            } else {
                x / 2
            };
            assert(list[at] == x);
            assert(pending(list, 0, x));
        }
    }
    assert forall|e: int| 0 <= e < chain_mesh.num_half_edges() implies #[trigger] hull_end_free(
        chain_mesh,
        list,
        e,
    ) by {
        let j = e / 2;
        assert(chain_mesh.chain_edge_ok(order, j));
        assert(chain_mesh.chain_edge_ok(order, 0));
        assert(chain_mesh.chain_edge_ok(order, k - 1));
        if (e % 2 == 0) == left {
            let at = if left {
                k - 1 - j
            } else {
                j
            };
            assert(list[at] == e);
            assert(pending(list, 0, e));
        } else if left {
            assert(list[k - 1] == 0);
            assert(order[j + 1] != order[0]);
        } else {
            assert(list[k - 1] == 2 * (k - 1) + 1);
            assert(order[j] != order[k]);
        }
    }
    lemma_attach_fan_solid(chain_mesh, list);
}

} // verus!
