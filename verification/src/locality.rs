//! What an insertion leaves alone.
//!
//! An insertion changes only triangles that have the new vertex as a corner
//! afterwards. An edge with no such triangle beside it is locally Delaunay
//! after the insertion if it was before, so the edges around the new vertex
//! are the only ones that need a look.
use vstd::prelude::*;
use crate::delaunay::delaunay_at;
use crate::handles::twin_index;
use crate::math::Point2;
use crate::mesh::Mesh;
use crate::orientation::{
    all_ccw, lemma_flip_keeps_ccw, lemma_flip_keeps_stack, lemma_spoke_is_legal, sees_vertex,
    stack_sees,
};

verus! {

/// The edge of the half-edge `i` is locally Delaunay, or it lies on the hull
/// or beside a triangle with the vertex `v` as a corner.
pub open spec fn settled_at(m: Mesh, pos: Seq<Point2>, v: int, i: int) -> bool {
    delaunay_at(m, pos, i) || sees_vertex(m, i, v) || sees_vertex(m, twin_index(i), v)
}

/// Every edge away from the vertex `v` is locally Delaunay.
pub open spec fn settled(m: Mesh, pos: Seq<Point2>, v: int) -> bool {
    forall|i: int| 0 <= i < m.num_half_edges() ==> #[trigger] settled_at(m, pos, v, i)
}

/// The half-edge `s` and the three others of its edge and of the edge
/// opposite to its origin are locally Delaunay.
pub open spec fn spoke_delaunay(m: Mesh, pos: Seq<Point2>, s: int) -> bool {
    &&& delaunay_at(m, pos, s)
    &&& delaunay_at(m, pos, twin_index(s))
    &&& delaunay_at(m, pos, m.next(s))
    &&& delaunay_at(m, pos, twin_index(m.next(s)))
}

/// The edges at the vertex `v` and those opposite to it are locally
/// Delaunay.
pub open spec fn star_delaunay(m: Mesh, pos: Seq<Point2>, v: int) -> bool {
    forall|s: int|
        0 <= s < m.num_half_edges() && m.origin(s) == v ==> #[trigger] spoke_delaunay(m, pos, s)
}

/// Every edge is locally Delaunay.
pub open spec fn all_delaunay(m: Mesh, pos: Seq<Point2>) -> bool {
    forall|i: int| 0 <= i < m.num_half_edges() ==> #[trigger] delaunay_at(m, pos, i)
}

/// Where the edges away from `v` are locally Delaunay and those around `v`
/// are too, all are.
#[verifier::spinoff_prover]
pub proof fn lemma_settled_star(m: Mesh, pos: Seq<Point2>, v: int)
    requires
        m.wf(),
        m.triangles_except(0),
        settled(m, pos, v),
        star_delaunay(m, pos, v),
    ensures
        all_delaunay(m, pos),
{
    assert forall|i: int| 0 <= i < m.num_half_edges() implies #[trigger] delaunay_at(m, pos, i) by {
        let t = twin_index(i);
        assert(settled_at(m, pos, v, i));
        assert(m.edge_ok(i));
        assert(m.edge_ok(t));
        crate::handles::lemma_twin_involution(i);
        if m.face(i) != 0 && m.face(t) != 0 {
            assert(m.faces[m.face(i)].len == 3);
            assert(m.faces[m.face(t)].len == 3);
            m.lemma_triangle(i);
            m.lemma_triangle(t);
            if m.origin(i) == v {
                assert(spoke_delaunay(m, pos, i));
            } else if m.target(i) == v {
                assert(spoke_delaunay(m, pos, t));
            } else if m.apex(i) == v {
                assert(spoke_delaunay(m, pos, m.prev(i)));
            } else if m.apex(t) == v {
                assert(spoke_delaunay(m, pos, m.prev(t)));
            }
        }
    }
}

/// A flip around the vertex `v` keeps the edges away from `v` locally
/// Delaunay.
#[verifier::spinoff_prover]
pub proof fn lemma_flip_keeps_settled(m: Mesh, pos: Seq<Point2>, e: int, v: int)
    requires
        m.wf(),
        m.flippable(e),
        m.apex(e) == v,
        settled(m, pos, v),
    ensures
        settled(m.flip_cw(e), pos, v),
{
    let t = twin_index(e);
    let en = m.next(e);
    let ep = m.prev(e);
    let tn = m.next(t);
    let tp = m.prev(t);
    let f = m.flip_cw(e);
    m.lemma_flip_context(e);
    m.lemma_flip_cw_wf(e);
    lemma_flip_keeps_stack(m, e, v, e);
    assert(sees_vertex(m, en, v));
    assert(sees_vertex(m, ep, v));
    lemma_flip_keeps_stack(m, e, v, en);
    lemma_flip_keeps_stack(m, e, v, ep);
    assert(sees_vertex(m, e, v));
    assert(f.edge_ok(e) && f.edge_ok(t));
    assert(sees_vertex(f, t, v)) by {
        assert(f.origin(e) == v);
    }
    assert forall|i: int| 0 <= i < f.num_half_edges() implies #[trigger] settled_at(f, pos, v, i) by {
        let j = twin_index(i);
        crate::handles::lemma_twin_involution(i);
        assert(m.edge_ok(i));
        assert(m.edge_ok(j));
        assert(f.edge_ok(i));
        assert(f.edge_ok(j));
        if i == e || i == t || i == en || i == ep || i == tn || i == tp {
        } else if j == e || j == t || j == en || j == ep || j == tn || j == tp {
        } else {
            assert(settled_at(m, pos, v, i));
            assert(m.edge_ok(m.prev(i)));
            assert(m.edge_ok(m.prev(j)));
            assert(f.origin(i) == m.origin(i) && f.origin(j) == m.origin(j));
            assert(f.prev(i) == m.prev(i) && f.prev(j) == m.prev(j));
            assert(f.origin(f.prev(i)) == m.origin(m.prev(i)));
            assert(f.origin(f.prev(j)) == m.origin(m.prev(j)));
            assert(f.face(i) == m.face(i) && f.face(j) == m.face(j));
        }
    }
}

/// Legalizing around the vertex `v` keeps the edges away from `v` locally
/// Delaunay.
pub proof fn lemma_legalize_keeps_settled(
    m: Mesh,
    pos: Seq<Point2>,
    stack: Seq<usize>,
    v: int,
    flips: nat,
)
    requires
        m.wf(),
        m.num_half_edges() <= usize::MAX,
        all_ccw(m, pos),
        stack_sees(m, stack, v),
        settled(m, pos, v),
    ensures
        settled(m.legalize(pos, stack, pos[v], flips), pos, v),
    decreases stack.len() + 3 * flips,
{
    if stack.len() > 0 {
        let e = stack.last() as int;
        let rest = stack.drop_last();
        assert(sees_vertex(m, stack[stack.len() - 1] as int, v));
        assert forall|i: int| 0 <= i < rest.len() implies sees_vertex(
            m,
            #[trigger] rest[i] as int,
            v,
        ) by {
            assert(rest[i] == stack[i]);
        }
        if flips > 0 && m.valid_edge(e) && m.flippable(e) && m.violates_delaunay(pos, e, pos[v]) {
            let t = twin_index(e);
            if m.origin(e) == v || m.target(e) == v {
                lemma_spoke_is_legal(m, pos, e, v);
            }
            assert(m.apex(e) == v);
            lemma_flip_keeps_ccw(m, pos, e, v);
            lemma_flip_keeps_settled(m, pos, e, v);
            m.lemma_flip_cw_wf(e);
            m.lemma_flip_context(e);
            let next_stack = rest.push(m.next(t) as usize).push(m.prev(t) as usize);
            let f = m.flip_cw(e);
            assert forall|i: int| 0 <= i < next_stack.len() implies sees_vertex(
                f,
                #[trigger] next_stack[i] as int,
                v,
            ) by {
                if i < rest.len() {
                    assert(next_stack[i] == rest[i]);
                    lemma_flip_keeps_stack(m, e, v, rest[i] as int);
                } else {
                    lemma_flip_keeps_stack(m, e, v, e);
                    assert(m.valid_edge(m.next(t)));
                    assert(m.valid_edge(m.prev(t)));
                    assert(next_stack[rest.len() as int] == m.next(t) as usize);
                    assert(next_stack[rest.len() as int + 1] == m.prev(t) as usize);
                }
            }
            lemma_legalize_keeps_settled(f, pos, next_stack, v, (flips - 1) as nat);
        } else {
            lemma_legalize_keeps_settled(m, pos, rest, v, flips);
        }
    }
}

/// The half-edge `i` begins or ends in the vertex `v`.
pub open spec fn incident(m: Mesh, i: int, v: int) -> bool {
    m.origin(i) == v || m.target(i) == v
}

/// A half-edge that saw the same triangle before, and whose twin did, is
/// locally Delaunay if it was.
pub proof fn lemma_same_triangles(m: Mesh, r: Mesh, pos: Seq<Point2>, later: Seq<Point2>, i: int)
    requires
        m.wf(),
        m.valid_edge(i),
        pos.len() == m.num_vertices(),
        later.len() >= pos.len(),
        forall|u: int| 0 <= u < pos.len() ==> #[trigger] later[u] == pos[u],
        m.same_triangle(r, i),
        m.same_triangle(r, twin_index(i)),
        delaunay_at(m, pos, i),
    ensures
        delaunay_at(r, later, i),
{
    let t = twin_index(i);
    assert(m.edge_ok(i));
    assert(m.edge_ok(t));
    assert(m.edge_ok(m.prev(i)));
    assert(m.edge_ok(m.prev(t)));
}

/// After a vertex has been put into a triangle, the edges away from it are
/// locally Delaunay if all edges were.
#[verifier::spinoff_prover]
pub proof fn lemma_insert_into_triangle_settled(m: Mesh, pos: Seq<Point2>, p: Point2, f: int)
    requires
        m.wf(),
        m.triangles_except(0),
        1 <= f < m.num_faces(),
        pos.len() == m.num_vertices(),
        all_delaunay(m, pos),
    ensures
        settled(m.insert_into_triangle(f), pos.push(p), m.num_vertices()),
{
    let n = m.num_half_edges();
    let v = m.num_vertices();
    let later = pos.push(p);
    let e1 = m.faces[f].edge.unwrap();
    let e0 = m.prev(e1);
    let e2 = m.next(e1);
    let r = m.insert_into_triangle(f);
    m.lemma_insert_into_triangle(f);
    m.lemma_insert_into_triangle_shape(f);
    r.lemma_triangle(e0);
    r.lemma_triangle(e1);
    r.lemma_triangle(e2);
    assert(r.edge_ok(n) && r.edge_ok(n + 1) && r.edge_ok(n + 2) && r.edge_ok(n + 3) && r.edge_ok(
        n + 4,
    ) && r.edge_ok(n + 5));
    assert forall|i: int| n <= i < n + 6 implies incident(r, i, v) by {}
    assert forall|i: int| 0 <= i < r.num_half_edges() implies #[trigger] settled_at(
        r,
        later,
        v,
        i,
    ) by {
        let t = twin_index(i);
        crate::handles::lemma_twin_involution(i);
        if i >= n {
            assert(incident(r, i, v));
        } else if i == e0 || i == e1 || i == e2 {
        } else if t == e0 || t == e1 || t == e2 {
        } else {
            assert(m.edge_ok(i));
            assert(m.same_triangle(r, i));
            assert(m.same_triangle(r, t));
            assert(delaunay_at(m, pos, i));
            lemma_same_triangles(m, r, pos, later, i);
        }
    }
}

/// After a vertex has been put on an edge, the edges away from it are
/// locally Delaunay if all edges were.
#[verifier::spinoff_prover]
pub proof fn lemma_insert_on_edge_settled(m: Mesh, pos: Seq<Point2>, p: Point2, e: int)
    requires
        m.wf(),
        m.triangles_except(0),
        m.valid_edge(e),
        m.face(e) != 0,
        m.face(e) != m.face(twin_index(e)),
        pos.len() == m.num_vertices(),
        all_delaunay(m, pos),
    ensures
        settled(m.insert_on_edge(e), pos.push(p), m.num_vertices()),
{
    let n = m.num_half_edges();
    let v = m.num_vertices();
    let later = pos.push(p);
    let t = twin_index(e);
    let en = m.next(e);
    let ep = m.prev(e);
    let tn = m.next(t);
    let tp = m.prev(t);
    let inner = m.face(t) != 0;
    let r = m.insert_on_edge(e);
    m.lemma_insert_on_edge(e);
    m.lemma_insert_on_edge_shape(e);
    assert(m.edge_ok(e) && m.edge_ok(t));
    r.lemma_triangle(en);
    r.lemma_triangle(ep);
    assert(r.edge_ok(e) && r.edge_ok(t));
    assert(r.edge_ok(n) && r.edge_ok(n + 1) && r.edge_ok(n + 2) && r.edge_ok(n + 3));
    assert(incident(r, e, v));
    assert(incident(r, t, v));
    assert(incident(r, n, v) && incident(r, n + 1, v) && incident(r, n + 2, v) && incident(
        r,
        n + 3,
        v,
    ));
    if inner {
        r.lemma_triangle(tn);
        r.lemma_triangle(tp);
        assert(r.edge_ok(n + 4) && r.edge_ok(n + 5));
        assert(incident(r, n + 4, v) && incident(r, n + 5, v));
    }
    assert forall|i: int| 0 <= i < r.num_half_edges() implies #[trigger] settled_at(
        r,
        later,
        v,
        i,
    ) by {
        let j = twin_index(i);
        crate::handles::lemma_twin_involution(i);
        if i >= n {
            assert(incident(r, i, v));
        } else if i == e || i == t || i == en || i == ep || i == tn || i == tp {
        } else if j == e || j == t || j == en || j == ep || j == tn || j == tp {
        } else {
            assert(m.edge_ok(i));
            assert(m.same_triangle(r, i));
            assert(m.same_triangle(r, j));
            assert(delaunay_at(m, pos, i));
            lemma_same_triangles(m, r, pos, later, i);
        }
    }
}

/// What holds before the step `i` of closing a fan around the vertex `v`:
/// the edges away from `v` are locally Delaunay, and every half-edge that
/// has been laid begins or ends in `v`.
pub open spec fn fan_settled_state(
    m: Mesh,
    pos: Seq<Point2>,
    chain: Seq<usize>,
    i: int,
    last: int,
    limit: int,
    v: int,
) -> bool {
    &&& m.fan_state(chain, i, last, limit)
    &&& limit % 2 == 0
    &&& pos.len() == m.num_vertices()
    &&& m.target(last) == v
    &&& m.origin(limit + 1) == v
    &&& settled(m, pos, v)
    &&& forall|k: int| limit <= k < m.num_half_edges() ==> #[trigger] incident(m, k, v)
}

/// One step of closing a fan keeps what `fan_settled_state` says.
#[verifier::spinoff_prover]
pub proof fn lemma_close_fan_step_settled(
    m: Mesh,
    pos: Seq<Point2>,
    chain: Seq<usize>,
    i: int,
    last: int,
    limit: int,
    v: int,
)
    requires
        fan_settled_state(m, pos, chain, i, last, limit, v),
        i < chain.len(),
    ensures
        fan_settled_state(
            m.create_face(last, chain[i] as int),
            pos,
            chain,
            i + 1,
            m.num_half_edges() + 1,
            limit,
            v,
        ),
{
    let c = chain[i] as int;
    let n = m.num_half_edges();
    let r = m.create_face(last, c);
    m.lemma_close_fan_step(chain, i, last, limit);
    m.lemma_close_fan_step_shape(chain, i, last, limit);
    assert(m.edge_ok(last) && m.edge_ok(c) && m.edge_ok(limit + 1));
    assert(r.edge_ok(c) && r.edge_ok(last) && r.edge_ok(n) && r.edge_ok(n + 1));
    r.lemma_triangle(c);
    assert forall|k: int| 0 <= k < n implies r.origin(k) == m.origin(k) by {}
    assert forall|k: int| limit <= k < r.num_half_edges() implies #[trigger] incident(r, k, v) by {
        if k < n {
            assert(incident(m, k, v));
            assert(m.edge_ok(k));
            assert(r.edge_ok(k));
            assert(m.valid_edge(twin_index(k)));
        }
    }
    assert(sees_vertex(r, c, v));
    assert forall|k: int| 0 <= k < r.num_half_edges() implies #[trigger] settled_at(r, pos, v, k) by {
        let t = twin_index(k);
        crate::handles::lemma_twin_involution(k);
        if k >= limit {
            assert(incident(r, k, v));
        } else if k == c {
        } else if t == c {
        } else {
            assert(m.edge_ok(k));
            assert(t < limit);
            assert(m.same_triangle(r, k));
            assert(m.same_triangle(r, t));
            assert(settled_at(m, pos, v, k));
            if delaunay_at(m, pos, k) {
                lemma_same_triangles(m, r, pos, pos, k);
            }
        }
    }
}

/// When a fan has been closed, the edges away from its vertex are locally
/// Delaunay.
pub proof fn lemma_close_fan_settled(
    m: Mesh,
    pos: Seq<Point2>,
    chain: Seq<usize>,
    i: int,
    last: int,
    limit: int,
    v: int,
)
    requires
        fan_settled_state(m, pos, chain, i, last, limit, v),
    ensures
        settled(m.close_fan(chain, i, last), pos, v),
    decreases chain.len() - i,
{
    if i < chain.len() {
        lemma_close_fan_step_settled(m, pos, chain, i, last, limit, v);
        lemma_close_fan_settled(
            m.create_face(last, chain[i] as int),
            pos,
            chain,
            i + 1,
            m.num_half_edges() + 1,
            limit,
            v,
        );
    }
}

/// After a new vertex has been joined to a chain of hull edges, the edges
/// away from it are locally Delaunay if all edges were.
#[verifier::spinoff_prover]
pub proof fn lemma_attach_fan_settled(m: Mesh, pos: Seq<Point2>, chain: Seq<usize>, p: Point2)
    requires
        m.wf(),
        m.triangles_except(0),
        m.hull_chain(chain),
        pos.len() == m.num_vertices(),
        all_delaunay(m, pos),
    ensures
        settled(
            m.insert_vertex().attach_fan(chain, m.num_vertices()),
            pos.push(p),
            m.num_vertices(),
        ),
{
    let v = m.num_vertices();
    let n = m.num_half_edges();
    let q = pos.push(p);
    let m1 = m.insert_vertex();
    let c0 = chain[0] as int;
    let m2 = m1.connect_edge_to_isolated_vertex(c0, v);
    m.lemma_insert_vertex_wf();
    assert(m1.half_edges == m.half_edges);
    assert(m1.faces == m.faces);
    assert(m1.hull_chain(chain));
    assert(m1.triangles_except(0));
    m1.lemma_attach_fan_start(chain, v);
    m1.lemma_connect_edge_to_isolated_vertex_wf(c0, v);
    assert(m1.edge_ok(c0));
    assert(m1.edge_ok(m1.next(c0)));
    assert(m2.edge_ok(n));
    assert(m2.edge_ok(n + 1));
    assert(m2.target(n) == v);
    assert(n % 2 == 0);
    assert(incident(m2, n, v) && incident(m2, n + 1, v));
    assert forall|k: int| 0 <= k < m2.num_half_edges() implies #[trigger] settled_at(m2, q, v, k) by {
        let t = twin_index(k);
        crate::handles::lemma_twin_involution(k);
        if k < n {
            assert(delaunay_at(m, pos, k));
            assert(m1.edge_ok(k));
            assert(m1.edge_ok(t));
            assert(m1.edge_ok(m1.prev(k)));
            assert(m1.edge_ok(m1.prev(t)));
            assert(m2.face(k) == m.face(k));
            assert(m2.face(t) == m.face(t));
            if m.face(k) != 0 && m.face(t) != 0 {
                assert(m2.origin(k) == m.origin(k));
                assert(m2.origin(t) == m.origin(t));
                assert(k != m1.next(c0));
                assert(t != m1.next(c0));
                assert(m2.prev(k) == m.prev(k));
                assert(m2.prev(t) == m.prev(t));
                assert(m2.origin(m.prev(k)) == m.origin(m.prev(k)));
                assert(m2.origin(m.prev(t)) == m.origin(m.prev(t)));
            }
        }
    }
    assert(fan_settled_state(m2, q, chain, 0, n, n, v));
    lemma_close_fan_settled(m2, q, chain, 0, n, n, v);
}

/// After a new vertex has been joined to one side of a complete chain, the
/// edges away from it are locally Delaunay.
#[verifier::spinoff_prover]
pub proof fn lemma_first_triangles_settled(
    chain_mesh: Mesh,
    pos: Seq<Point2>,
    order: Seq<usize>,
    p: Point2,
    left: bool,
)
    requires
        chain_mesh.chain_state(order, order.len() - 1),
        2 * order.len() <= usize::MAX,
        pos.len() == chain_mesh.num_vertices(),
    ensures
        settled(
            chain_mesh.insert_vertex().attach_fan(
                if left {
                    Mesh::chain_left(order.len() - 1)
                } else {
                    Mesh::chain_right(order.len() - 1)
                },
                chain_mesh.num_vertices(),
            ),
            pos.push(p),
            chain_mesh.num_vertices(),
        ),
{
    let k = order.len() - 1;
    let list = if left {
        Mesh::chain_left(k)
    } else {
        Mesh::chain_right(k)
    };
    chain_mesh.lemma_chain_is_hull(order, k);
    assert forall|i: int| 0 <= i < chain_mesh.num_half_edges() implies #[trigger] delaunay_at(
        chain_mesh,
        pos,
        i,
    ) by {
        assert(chain_mesh.edge_ok(i));
    }
    lemma_attach_fan_settled(chain_mesh, pos, list, p);
}

} // verus!
