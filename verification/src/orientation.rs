//! Counterclockwise faces: which edits of a mesh of triangles keep the
//! corners of every triangle in counterclockwise order.
use vstd::prelude::*;
use crate::geometry::{
    lemma_chain_visible, lemma_collinear_transfer, lemma_corner_on_circle, lemma_flip_convex, lemma_orient2d_rotate,
    lemma_split_convex,
};
use crate::handles::twin_index;
use crate::math::{orient2d, projection_along, Point2};
use crate::mesh::Mesh;

verus! {

/// The corners of the face on the left of the half-edge `e` make a left turn,
/// where that face is an inner face.
pub open spec fn ccw_at(m: Mesh, pos: Seq<Point2>, e: int) -> bool {
    m.face(e) != 0 ==> orient2d(pos[m.origin(e)], pos[m.target(e)], pos[m.apex(e)]) > 0
}

/// The corners of every inner face are in counterclockwise order.
pub open spec fn all_ccw(m: Mesh, pos: Seq<Point2>) -> bool {
    forall|e: int| 0 <= e < m.num_half_edges() ==> #[trigger] ccw_at(m, pos, e)
}

/// The half-edge `e` is one that a legalization around the vertex `v` may
/// examine without harm: it lies opposite to `v` in its triangle, or it ends
/// or begins in `v`, or it lies on the hull.
pub open spec fn sees_vertex(m: Mesh, e: int, v: int) -> bool {
    &&& m.valid_edge(e)
    &&& m.apex(e) == v || m.origin(e) == v || m.target(e) == v || m.face(e) == 0 || m.face(
        twin_index(e),
    ) == 0
}

/// Every half-edge on `stack` is one that a legalization around the vertex
/// `v` may examine.
pub open spec fn stack_sees(m: Mesh, stack: Seq<usize>, v: int) -> bool {
    forall|i: int| 0 <= i < stack.len() ==> sees_vertex(m, #[trigger] stack[i] as int, v)
}

/// In a triangle, the corners are counterclockwise seen from one half-edge
/// exactly if they are seen from the next.
pub proof fn lemma_ccw_around_triangle(m: Mesh, pos: Seq<Point2>, e: int)
    requires
        m.wf(),
        m.valid_edge(e),
        m.faces[m.face(e)].len == 3,
        ccw_at(m, pos, e),
    ensures
        ccw_at(m, pos, m.next(e)),
        ccw_at(m, pos, m.prev(e)),
{
    m.lemma_triangle(e);
    let en = m.next(e);
    let ep = m.prev(e);
    assert(m.edge_ok(e));
    assert(m.edge_ok(en));
    assert(m.edge_ok(ep));
    lemma_orient2d_rotate(pos[m.origin(e)], pos[m.target(e)], pos[m.apex(e)]);
}

/// A half-edge that begins or ends in the vertex at `p` does not have `p`
/// strictly inside the circle of the triangle on its right.
pub proof fn lemma_spoke_is_legal(m: Mesh, pos: Seq<Point2>, e: int, v: int)
    requires
        m.origin(e) == v || m.target(e) == v,
    ensures
        !m.violates_delaunay(pos, e, pos[v]),
{
    let t = twin_index(e);
    lemma_corner_on_circle(pos[m.apex(t)], pos[m.target(e)], pos[m.origin(e)]);
}

/// A flip around the vertex `v` keeps all faces counterclockwise: where the
/// half-edge `e` lies opposite to `v` and has the position of `v` strictly
/// inside the circle of the triangle on its right, the two triangles after
/// the flip are counterclockwise.
#[verifier::spinoff_prover]
pub proof fn lemma_flip_keeps_ccw(m: Mesh, pos: Seq<Point2>, e: int, v: int)
    requires
        m.wf(),
        m.flippable(e),
        all_ccw(m, pos),
        m.apex(e) == v,
        m.violates_delaunay(pos, e, pos[v]),
    ensures
        all_ccw(m.flip_cw(e), pos),
{
    let t = twin_index(e);
    let en = m.next(e);
    let ep = m.prev(e);
    let tn = m.next(t);
    let tp = m.prev(t);
    let f = m.flip_cw(e);
    m.lemma_flip_context(e);
    m.lemma_flip_cw_wf(e);
    let a = pos[m.origin(e)];
    let b = pos[m.origin(t)];
    let p = pos[v];
    let d = pos[m.apex(t)];
    assert(ccw_at(m, pos, e));
    assert(ccw_at(m, pos, t));
    assert(m.target(e) == m.origin(t));
    assert(m.target(t) == m.origin(e));
    lemma_flip_convex(a, b, d, p);
    assert forall|i: int| 0 <= i < f.num_half_edges() implies #[trigger] ccw_at(f, pos, i) by {
        assert(m.edge_ok(i));
        assert(m.edge_ok(twin_index(i)));
        assert(f.edge_ok(i));
        if i == e {
            assert(f.origin(e) == v);
            assert(f.target(e) == m.apex(t));
            assert(f.apex(e) == m.origin(t));
        } else if i == tp {
            assert(f.faces[f.face(e)].len == 3);
            assert(ccw_at(f, pos, e));
            lemma_ccw_around_triangle(f, pos, e);
        } else if i == en {
            assert(f.faces[f.face(e)].len == 3);
            assert(ccw_at(f, pos, e));
            lemma_ccw_around_triangle(f, pos, e);
        } else if i == t {
            assert(f.origin(t) == m.apex(t));
            assert(f.target(t) == v);
            assert(f.apex(t) == m.origin(e));
        } else if i == ep {
            assert(f.faces[f.face(t)].len == 3);
            assert(ccw_at(f, pos, t));
            lemma_ccw_around_triangle(f, pos, t);
        } else if i == tn {
            assert(f.faces[f.face(t)].len == 3);
            assert(ccw_at(f, pos, t));
            lemma_ccw_around_triangle(f, pos, t);
        } else {
            assert(ccw_at(m, pos, i));
            assert(f.origin(i) == m.origin(i));
            assert(f.prev(i) == m.prev(i));
            assert(m.edge_ok(m.prev(i)));
            assert(f.origin(f.prev(i)) == m.origin(m.prev(i)));
            assert(f.target(i) == m.target(i));
            assert(f.face(i) == m.face(i));
        }
    }
}

/// A flip around the vertex `v` leaves every half-edge that the
/// legalization may examine one that it may examine, and so are the two
/// half-edges that it examines next.
#[verifier::spinoff_prover]
pub proof fn lemma_flip_keeps_stack(m: Mesh, e: int, v: int, s: int)
    requires
        m.wf(),
        m.flippable(e),
        m.apex(e) == v,
        sees_vertex(m, s, v),
    ensures
        sees_vertex(m.flip_cw(e), s, v),
        sees_vertex(m.flip_cw(e), m.next(twin_index(e)), v),
        sees_vertex(m.flip_cw(e), m.prev(twin_index(e)), v),
{
    let t = twin_index(e);
    let f = m.flip_cw(e);
    m.lemma_flip_context(e);
    m.lemma_flip_cw_wf(e);
    assert(m.edge_ok(s));
    assert(m.edge_ok(twin_index(s)));
    assert(m.edge_ok(m.prev(s)));
    assert(f.edge_ok(s));
}

/// Legalizing around the vertex `v` keeps all faces counterclockwise.
pub proof fn lemma_legalize_keeps_ccw(
    m: Mesh,
    pos: Seq<Point2>,
    stack: Seq<usize>,
    v: int,
    flips: nat,
)
    requires
        m.wf(),
        m.num_half_edges() <= usize::MAX,
        all_ccw(m, pos),
        stack_sees(m, stack, v),
    ensures
        all_ccw(m.legalize(pos, stack, pos[v], flips), pos),
    decreases stack.len() + 3 * flips,
{
    if stack.len() > 0 {
        let e = stack.last() as int;
        let rest = stack.drop_last();
        assert(sees_vertex(m, stack[stack.len() - 1] as int, v));
        assert forall|i: int| 0 <= i < rest.len() implies sees_vertex(
            m,
            #[trigger] rest[i] as int,
            v,
        ) by {
            assert(rest[i] == stack[i]);
        }
        if flips > 0 && m.valid_edge(e) && m.flippable(e) && m.violates_delaunay(pos, e, pos[v]) {
            let t = twin_index(e);
            if m.origin(e) == v || m.target(e) == v {
                lemma_spoke_is_legal(m, pos, e, v);
            }
            assert(m.apex(e) == v);
            lemma_flip_keeps_ccw(m, pos, e, v);
            m.lemma_flip_cw_wf(e);
            m.lemma_flip_context(e);
            let next_stack = rest.push(m.next(t) as usize).push(m.prev(t) as usize);
            let f = m.flip_cw(e);
            assert forall|i: int| 0 <= i < next_stack.len() implies sees_vertex(
                f,
                #[trigger] next_stack[i] as int,
                v,
            ) by {
                if i < rest.len() {
                    assert(next_stack[i] == rest[i]);
                    lemma_flip_keeps_stack(m, e, v, rest[i] as int);
                } else {
                    lemma_flip_keeps_stack(m, e, v, e);
                    assert(m.valid_edge(m.next(t)));
                    assert(m.valid_edge(m.prev(t)));
                    assert(next_stack[rest.len() as int] == m.next(t) as usize);
                    assert(next_stack[rest.len() as int + 1] == m.prev(t) as usize);
                }
            }
            lemma_legalize_keeps_ccw(f, pos, next_stack, v, (flips - 1) as nat);
        } else {
            lemma_legalize_keeps_ccw(m, pos, rest, v, flips);
        }
    }
}


/// Putting a vertex at a point strictly inside a triangle keeps all faces
/// counterclockwise, and the three half-edges of the triangle lie opposite to
/// the new vertex afterwards.
#[verifier::spinoff_prover]
pub proof fn lemma_insert_into_triangle_ccw(m: Mesh, pos: Seq<Point2>, p: Point2, f: int)
    requires
        m.wf(),
        m.triangles_except(0),
        1 <= f < m.num_faces(),
        pos.len() == m.num_vertices(),
        m.num_half_edges() + 6 <= usize::MAX,
        all_ccw(m, pos),
        forall|e: int|
            m.valid_edge(e) && #[trigger] m.face(e) == f ==> orient2d(
                pos[m.origin(e)],
                pos[m.target(e)],
                p,
            ) > 0,
    ensures
        all_ccw(m.insert_into_triangle(f), pos.push(p)),
        stack_sees(m.insert_into_triangle(f), m.triangle_stack(f), m.num_vertices()),
{
    let n = m.num_half_edges();
    let v = m.num_vertices();
    let e1 = m.faces[f].edge.unwrap();
    let e0 = m.prev(e1);
    let e2 = m.next(e1);
    let m4 = m.insert_into_triangle(f);
    let q = pos.push(p);
    m.lemma_insert_into_triangle_shape(f);
    m.lemma_insert_into_triangle(f);
    assert(m.face_ok(f));
    m.lemma_triangle(e1);
    assert(m.face(e0) == f && m.face(e1) == f && m.face(e2) == f);
    assert(m.edge_ok(e0));
    assert(m.edge_ok(e1));
    assert(m.edge_ok(e2));
    assert(ccw_at(m4, q, e0));
    assert(ccw_at(m4, q, e1));
    assert(ccw_at(m4, q, e2));
    lemma_ccw_around_triangle(m4, q, e0);
    lemma_ccw_around_triangle(m4, q, e1);
    lemma_ccw_around_triangle(m4, q, e2);
    assert forall|i: int| 0 <= i < m4.num_half_edges() implies #[trigger] ccw_at(m4, q, i) by {
        if i < n && i != e0 && i != e1 && i != e2 {
            assert(ccw_at(m, pos, i));
            assert(m.edge_ok(i));
            assert(m.edge_ok(twin_index(i)));
            assert(m.edge_ok(m.prev(i)));
            assert(m.same_triangle(m4, i));
        }
    }
    let stack = m.triangle_stack(f);
    assert forall|i: int| 0 <= i < stack.len() implies sees_vertex(m4, #[trigger] stack[i] as int, v) by {
        assert(stack[0] == e0 as usize);
        assert(stack[1] == e1 as usize);
        assert(stack[2] == e2 as usize);
    }
}

/// Putting a vertex at a point on an edge keeps all faces counterclockwise,
/// where the point lies strictly on the left of the two other edges of the
/// triangle on the left of the edge.
#[verifier::spinoff_prover]
pub proof fn lemma_insert_on_edge_ccw(m: Mesh, pos: Seq<Point2>, p: Point2, e: int)
    requires
        m.wf(),
        m.triangles_except(0),
        m.valid_edge(e),
        m.face(e) != 0,
        m.face(e) != m.face(twin_index(e)),
        pos.len() == m.num_vertices(),
        m.num_half_edges() + 6 <= usize::MAX,
        all_ccw(m, pos),
        orient2d(pos[m.origin(e)], pos[m.target(e)], p) == 0,
        orient2d(pos[m.origin(m.next(e))], pos[m.target(m.next(e))], p) > 0,
        orient2d(pos[m.origin(m.prev(e))], pos[m.target(m.prev(e))], p) > 0,
    ensures
        all_ccw(m.insert_on_edge(e), pos.push(p)),
        stack_sees(m.insert_on_edge(e), m.edge_stack(e), m.num_vertices()),
{
    let n = m.num_half_edges();
    let v = m.num_vertices();
    let t = twin_index(e);
    let en = m.next(e);
    let ep = m.prev(e);
    let tn = m.next(t);
    let tp = m.prev(t);
    let ft = m.face(t);
    let m4 = m.insert_on_edge(e);
    let q = pos.push(p);
    m.lemma_insert_on_edge_shape(e);
    m.lemma_insert_on_edge(e);
    assert(m.edge_ok(e));
    assert(m.edge_ok(t));
    m.lemma_triangle(e);
    assert(m.edge_ok(en));
    assert(m.edge_ok(ep));
    let a = pos[m.origin(e)];
    let b = pos[m.target(e)];
    let c = pos[m.apex(e)];
    assert(ccw_at(m4, q, ep));
    assert(ccw_at(m4, q, en));
    lemma_ccw_around_triangle(m4, q, ep);
    lemma_ccw_around_triangle(m4, q, en);
    if ft != 0 {
        assert(m.faces[ft].len == 3);
        m.lemma_triangle(t);
        assert(m.edge_ok(tn));
        assert(m.edge_ok(tp));
        assert(ccw_at(m, pos, t));
        let d = pos[m.apex(t)];
        lemma_split_convex(a, b, c, d, p);
        assert(ccw_at(m4, q, tn));
        assert(ccw_at(m4, q, tp));
        lemma_ccw_around_triangle(m4, q, tn);
        lemma_ccw_around_triangle(m4, q, tp);
    }
    assert forall|i: int| 0 <= i < m4.num_half_edges() implies #[trigger] ccw_at(m4, q, i) by {
        if i < n && i != e && i != en && i != ep && i != t && i != tn && i != tp {
            assert(ccw_at(m, pos, i));
            assert(m.edge_ok(i));
            assert(m.edge_ok(twin_index(i)));
            assert(m.edge_ok(m.prev(i)));
            assert(m.same_triangle(m4, i));
        }
    }
    let stack = m.edge_stack(e);
    assert forall|i: int| 0 <= i < stack.len() implies sees_vertex(m4, #[trigger] stack[i] as int, v) by {
        assert(stack[0] == ep as usize);
        assert(stack[1] == en as usize);
        if ft != 0 {
            assert(stack[2] == tn as usize);
            assert(stack[3] == tp as usize);
        }
    }
}


/// What holds before the step `i` of closing a fan around the vertex `v` at
/// the point `p`: all faces are counterclockwise, the half-edges of the chain
/// that are left have `p` strictly on their left, and those that are done lie
/// opposite to `v`.
pub open spec fn fan_ccw_state(
    m: Mesh,
    pos: Seq<Point2>,
    chain: Seq<usize>,
    i: int,
    last: int,
    limit: int,
    v: int,
) -> bool {
    &&& m.fan_state(chain, i, last, limit)
    &&& all_ccw(m, pos)
    &&& m.target(last) == v
    &&& forall|j: int|
        i <= j < chain.len() ==> orient2d(
            pos[m.origin(#[trigger] chain[j] as int)],
            pos[m.target(chain[j] as int)],
            pos[v],
        ) > 0
    &&& forall|j: int|
        0 <= j < i ==> m.valid_edge(#[trigger] chain[j] as int) && m.apex(chain[j] as int) == v
    &&& forall|j: int| 0 <= j < chain.len() ==> (#[trigger] chain[j]) < limit
}

/// One step of closing a fan keeps all faces counterclockwise.
#[verifier::spinoff_prover]
pub proof fn lemma_close_fan_step_ccw(
    m: Mesh,
    pos: Seq<Point2>,
    chain: Seq<usize>,
    i: int,
    last: int,
    limit: int,
    v: int,
)
    requires
        fan_ccw_state(m, pos, chain, i, last, limit, v),
        i < chain.len(),
    ensures
        fan_ccw_state(
            m.create_face(last, chain[i] as int),
            pos,
            chain,
            i + 1,
            m.num_half_edges() + 1,
            limit,
            v,
        ),
{
    let c = chain[i] as int;
    let n = m.num_half_edges();
    let r = m.create_face(last, c);
    m.lemma_close_fan_step(chain, i, last, limit);
    m.lemma_close_fan_step_shape(chain, i, last, limit);
    assert(ccw_at(r, pos, c));
    lemma_ccw_around_triangle(r, pos, c);
    assert forall|k: int| 0 <= k < r.num_half_edges() implies #[trigger] ccw_at(r, pos, k) by {
        if k < n && k != c && k != last && k != limit + 1 {
            assert(ccw_at(m, pos, k));
            assert(m.same_triangle(r, k));
        }
    }
    assert forall|j: int| i + 1 <= j < chain.len() implies orient2d(
        pos[r.origin(#[trigger] chain[j] as int)],
        pos[r.target(chain[j] as int)],
        pos[v],
    ) > 0 by {
        let k = chain[j] as int;
        assert(chain[j] != chain[i]);
        assert(r.apex(k) == m.apex(k));
    }
    assert forall|j: int| 0 <= j < i + 1 implies r.valid_edge(#[trigger] chain[j] as int)
        && r.apex(chain[j] as int) == v by {
        let k = chain[j] as int;
        if j < i {
            assert(m.valid_edge(k) && m.apex(k) == v);
            assert(chain[j] != chain[i]);
            assert(r.apex(k) == m.apex(k));
        }
    }
}

/// Closing a fan keeps all faces counterclockwise, and every half-edge of
/// the chain lies opposite to the vertex of the fan afterwards.
pub proof fn lemma_close_fan_ccw(
    m: Mesh,
    pos: Seq<Point2>,
    chain: Seq<usize>,
    i: int,
    last: int,
    limit: int,
    v: int,
)
    requires
        fan_ccw_state(m, pos, chain, i, last, limit, v),
    ensures
        all_ccw(m.close_fan(chain, i, last), pos),
        forall|j: int|
            0 <= j < chain.len() ==> sees_vertex(
                m.close_fan(chain, i, last),
                #[trigger] chain[j] as int,
                v,
            ),
    decreases chain.len() - i,
{
    if i < chain.len() {
        lemma_close_fan_step_ccw(m, pos, chain, i, last, limit, v);
        lemma_close_fan_ccw(
            m.create_face(last, chain[i] as int),
            pos,
            chain,
            i + 1,
            m.num_half_edges() + 1,
            limit,
            v,
        );
    } else {
        assert forall|j: int| 0 <= j < chain.len() implies sees_vertex(
            m,
            #[trigger] chain[j] as int,
            v,
        ) by {
            assert(m.valid_edge(chain[j] as int) && m.apex(chain[j] as int) == v);
        }
    }
}

/// Joining a new vertex at the point `p` to a chain of hull edges that have
/// `p` strictly on their left keeps all faces counterclockwise.
#[verifier::spinoff_prover]
pub proof fn lemma_attach_fan_ccw(m: Mesh, pos: Seq<Point2>, chain: Seq<usize>, p: Point2)
    requires
        m.wf(),
        m.triangles_except(0),
        m.hull_chain(chain),
        pos.len() == m.num_vertices(),
        all_ccw(m, pos),
        forall|j: int|
            0 <= j < chain.len() ==> orient2d(
                pos[m.origin(#[trigger] chain[j] as int)],
                pos[m.target(chain[j] as int)],
                p,
            ) > 0,
    ensures
        all_ccw(m.insert_vertex().attach_fan(chain, m.num_vertices()), pos.push(p)),
        forall|j: int|
            0 <= j < chain.len() ==> sees_vertex(
                m.insert_vertex().attach_fan(chain, m.num_vertices()),
                #[trigger] chain[j] as int,
                m.num_vertices(),
            ),
{
    let v = m.num_vertices();
    let n = m.num_half_edges();
    let q = pos.push(p);
    let m1 = m.insert_vertex();
    let c0 = chain[0] as int;
    let m2 = m1.connect_edge_to_isolated_vertex(c0, v);
    m.lemma_insert_vertex_wf();
    assert(m1.half_edges == m.half_edges);
    assert(m1.faces == m.faces);
    assert(m1.hull_chain(chain));
    assert(m1.triangles_except(0));
    m1.lemma_attach_fan_start(chain, v);
    m1.lemma_connect_edge_to_isolated_vertex_wf(c0, v);
    assert(m1.edge_ok(c0));
    assert(m1.edge_ok(m1.next(c0)));
    assert(m2.edge_ok(n));
    assert(m2.edge_ok(n + 1));
    assert forall|k: int| 0 <= k < m2.num_half_edges() implies #[trigger] ccw_at(m2, q, k) by {
        if k < n {
            assert(ccw_at(m, pos, k));
            assert(m1.edge_ok(k));
            assert(m1.edge_ok(twin_index(k)));
            assert(m1.edge_ok(m1.prev(k)));
            assert(m2.face(k) == m.face(k));
            if m.face(k) != 0 {
                assert(m2.origin(k) == m.origin(k));
                assert(m2.target(k) == m.target(k));
                assert(k != m1.next(c0));
                assert(m2.prev(k) == m.prev(k));
                assert(m2.origin(m.prev(k)) == m.origin(m.prev(k)));
            }
        }
    }
    assert forall|j: int| 0 <= j < chain.len() implies orient2d(
        q[m2.origin(#[trigger] chain[j] as int)],
        q[m2.target(chain[j] as int)],
        q[v],
    ) > 0 by {
        let k = chain[j] as int;
        assert(m1.edge_ok(k));
        assert(m1.edge_ok(twin_index(k)));
    }
    assert(fan_ccw_state(m2, q, chain, 0, n, n, v));
    lemma_close_fan_ccw(m2, q, chain, 0, n, n, v);
}


/// All points lie on the line through the first two, and no two of them are
/// the same point.
pub open spec fn on_one_line(pos: Seq<Point2>) -> bool {
    &&& forall|v: int|
        2 <= pos.len() && 0 <= v < pos.len() ==> orient2d(pos[0], pos[1], #[trigger] pos[v]) == 0
    &&& forall|u: int, v: int|
        0 <= u < pos.len() && 0 <= v < pos.len() && u != v ==> #[trigger] pos[u]
            != #[trigger] pos[v]
}

/// `order` lists vertices by growing projection along the direction from
/// `from` to `to`.
pub open spec fn sorted_along(pos: Seq<Point2>, from: Point2, to: Point2, order: Seq<usize>) -> bool {
    forall|i: int, j: int|
        0 <= i <= j < order.len() ==> projection_along(from, to, pos[#[trigger] order[i] as int])
            <= projection_along(from, to, pos[#[trigger] order[j] as int])
}

/// The first triangles have counterclockwise faces: a chain through
/// different points of one line, in the order of their projections along the
/// line, and a new vertex off the line that is joined to every edge of the
/// chain from its side.
#[verifier::spinoff_prover]
pub proof fn lemma_first_triangles_ccw(
    chain_mesh: Mesh,
    pos: Seq<Point2>,
    order: Seq<usize>,
    p: Point2,
    left: bool,
)
    requires
        chain_mesh.chain_state(order, order.len() - 1),
        2 * order.len() <= usize::MAX,
        pos.len() == order.len(),
        on_one_line(pos),
        sorted_along(pos, pos[0], pos[1], order),
        left ==> orient2d(pos[0], pos[1], p) > 0,
        !left ==> orient2d(pos[0], pos[1], p) < 0,
    ensures
        all_ccw(
            chain_mesh.insert_vertex().attach_fan(
                if left {
                    Mesh::chain_left(order.len() - 1)
                } else {
                    Mesh::chain_right(order.len() - 1)
                },
                chain_mesh.num_vertices(),
            ),
            pos.push(p),
        ),
{
    let k = order.len() - 1;
    let list = if left {
        Mesh::chain_left(k)
    } else {
        Mesh::chain_right(k)
    };
    chain_mesh.lemma_chain_is_hull(order, k);
    assert(pos[0] != pos[1]);
    assert forall|e: int| 0 <= e < chain_mesh.num_half_edges() implies #[trigger] ccw_at(
        chain_mesh,
        pos,
        e,
    ) by {
        assert(chain_mesh.edge_ok(e));
    }
    assert forall|j: int| 0 <= j < list.len() implies orient2d(
        pos[chain_mesh.origin(#[trigger] list[j] as int)],
        pos[chain_mesh.target(list[j] as int)],
        p,
    ) > 0 by {
        let i = if left {
            k - 1 - j
        } else {
            j
        };
        assert(chain_mesh.chain_edge_ok(order, i));
        let u = pos[order[i] as int];
        let w = pos[order[i + 1] as int];
        assert(order[i] != order[i + 1]);
        assert(u != w);
        assert(orient2d(pos[0], pos[1], pos[order[i] as int]) == 0);
        assert(orient2d(pos[0], pos[1], pos[order[i + 1] as int]) == 0);
        lemma_chain_visible(pos[0], pos[1], u, w, p);
        if left {
            assert(list[j] == (2 * i) as usize);
            assert(twin_index(2 * i) == 2 * i + 1);
        } else {
            assert(list[j] == (2 * i + 1) as usize);
            assert(twin_index(2 * i + 1) == 2 * i);
        }
    }
    lemma_attach_fan_ccw(chain_mesh, pos, list, p);
}


/// Different points of one line stay different points of one line where one
/// of them is dropped and the last takes its place.
pub proof fn lemma_on_one_line_without(pos: Seq<Point2>, v: int)
    requires
        on_one_line(pos),
        0 <= v < pos.len(),
    ensures
        on_one_line(pos.update(v, pos.last()).drop_last()),
{
    let q = pos.update(v, pos.last()).drop_last();
    let last = pos.len() - 1;
    assert forall|u: int, w: int| 0 <= u < q.len() && 0 <= w < q.len() && u != w implies #[trigger] q[u]
        != #[trigger] q[w] by {
        let su = if u == v {
            last
        } else {
            u
        };
        let sw = if w == v {
            last
        } else {
            w
        };
        assert(q[u] == pos[su]);
        assert(q[w] == pos[sw]);
        assert(pos[su] != pos[sw]);
    }
    assert forall|w: int| 2 <= q.len() && 0 <= w < q.len() implies orient2d(
        q[0],
        q[1],
        #[trigger] q[w],
    ) == 0 by {
        let s0 = if v == 0 {
            last
        } else {
            0
        };
        let s1 = if v == 1 {
            last
        } else {
            1
        };
        let sw = if w == v {
            last
        } else {
            w
        };
        assert(q[0] == pos[s0]);
        assert(q[1] == pos[s1]);
        assert(q[w] == pos[sw]);
        assert(pos[0] != pos[1]);
        assert(orient2d(pos[0], pos[1], pos[s0]) == 0);
        assert(orient2d(pos[0], pos[1], pos[s1]) == 0);
        assert(orient2d(pos[0], pos[1], pos[sw]) == 0);
        lemma_collinear_transfer(pos[0], pos[1], pos[s0], pos[s1], pos[sw]);
    }
}

} // verus!
