//! The incremental Delaunay triangulation.
//!
//! A triangulation owns a half-edge mesh whose vertices carry a payload with
//! a position. While all its points lie on one line it holds isolated
//! vertices only; with the first point off that line it becomes a mesh of
//! triangles, and stays one until a removal makes the points collinear again.
use std::collections::HashMap;
use vstd::prelude::*;
use crate::dcel::{Dcel, VertexRemovalResult};
use crate::handle_impls::{
    DirectedEdgeHandle, DynamicHandleImpl, FaceHandle, UndirectedEdgeHandle, VertexHandle,
};
use crate::handles::{
    twin_index, FixedDirectedEdgeHandle, FixedFaceHandle, FixedUndirectedEdgeHandle,
    FixedVertexHandle, InnerTag, PossiblyOuterTag,
};
use crate::edge_stack::{
    stack_get, stack_insert, stack_items, stack_len, stack_new, stack_pop, stack_push, EdgeStack,
};
use crate::math::{
    contained_in_circumference, distance_2_of, incircle_det, intersects_edge_non_collinear,
    is_ordered_ccw, lemma_product_bound, orient2d, orient2d_exact, project_point,
    projection_along, projection_factor, side_of, side_query, LineSideInfo, Point2,
    MAX_COORDINATE,
};
use crate::mesh::{cyclic_distance, Mesh};
use crate::orientation::{
    all_ccw, ccw_at, lemma_attach_fan_ccw, lemma_first_triangles_ccw,
    lemma_insert_into_triangle_ccw, lemma_insert_on_edge_ccw, lemma_legalize_keeps_ccw,
    on_one_line, sorted_along, stack_sees,
};
use crate::flips::{lemma_count_far_bound, lemma_legalize_completes};
use crate::locality::{
    all_delaunay, lemma_attach_fan_settled, lemma_insert_into_triangle_settled,
    lemma_insert_on_edge_settled, lemma_legalize_keeps_settled, lemma_settled_star, settled,
    spoke_delaunay, star_delaunay,
};
use crate::solidity::{
    attached_at, bordered_at, covered_at, hull_end_free, hull_pair_later, hull_pair_ok,
    lemma_attach_fan_solid, lemma_first_triangles_solid,
    lemma_insert_into_triangle_solid, lemma_insert_on_edge_solid, lemma_legalize_keeps_solid,
    lemma_solid_edges, ends_apart, no_loops, solid,
};
use crate::mesh_remove::{
    convex_chain, fan_edges, first_index, hole_flip_budget, renamed_vertices,
};

verus! {

broadcast use vstd::std_specs::hash::group_hash_axioms;


/// A payload that has a position in the plane.
pub trait HasPosition {
    /// The position of the payload.
    spec fn position_spec(&self) -> Point2;

    /// The position of the payload.
    fn position(&self) -> (p: Point2)
        ensures
            p == self.position_spec(),
    ;
}

impl HasPosition for Point2 {
    open spec fn position_spec(&self) -> Point2 {
        *self
    }

    fn position(&self) -> (p: Point2) {
        *self
    }
}

/// Where a point lies relative to a triangulation, over plain indices.
pub enum Location {
    /// All points of the triangulation lie on one line, and none of them is
    /// the point.
    NoTriangulationPresent,
    /// The point lies strictly inside the inner face.
    InTriangle(int),
    /// The point lies outside the convex hull, strictly on the left of the
    /// half-edge, which has the outer face on its left.
    OutsideConvexHull(int),
    /// The point is the position of the vertex.
    OnPoint(int),
    /// The point lies on the half-edge, strictly between its end points.
    OnEdge(int),
}

/// Where a point lies relative to a triangulation.
#[derive(Clone, Copy, Debug, PartialEq, Eq)]
pub enum PositionInTriangulation {
    /// All points of the triangulation lie on one line, and none of them is
    /// the point.
    NoTriangulationPresent,
    /// The point lies strictly inside the inner face.
    InTriangle(FixedFaceHandle<InnerTag>),
    /// The point lies outside the convex hull, strictly on the left of the
    /// half-edge, which has the outer face on its left.
    OutsideConvexHull(FixedDirectedEdgeHandle),
    /// The point is the position of the vertex.
    OnPoint(FixedVertexHandle),
    /// The point lies on the half-edge, strictly between its end points.
    OnEdge(FixedDirectedEdgeHandle),
}

impl View for PositionInTriangulation {
    type V = Location;

    open spec fn view(&self) -> Location {
        match *self {
            PositionInTriangulation::NoTriangulationPresent => Location::NoTriangulationPresent,
            PositionInTriangulation::InTriangle(f) => Location::InTriangle(f@),
            PositionInTriangulation::OutsideConvexHull(e) => Location::OutsideConvexHull(e@),
            PositionInTriangulation::OnPoint(v) => Location::OnPoint(v@),
            PositionInTriangulation::OnEdge(e) => Location::OnEdge(e@),
        }
    }
}

/// The positions of a sequence of payloads.
pub open spec fn positions_of<V: HasPosition>(data: Seq<V>) -> Seq<Point2> {
    Seq::new(data.len(), |i: int| data[i].position_spec())
}

/// The side of the half-edge `e` on which the point `p` lies.
pub open spec fn edge_side(m: Mesh, pos: Seq<Point2>, e: int, p: Point2) -> LineSideInfo {
    side_of(pos[m.origin(e)], pos[m.target(e)], p)
}

/// The location `loc` is true of the point `p`: the exact predicates confirm
/// it.
pub open spec fn location_holds(m: Mesh, pos: Seq<Point2>, p: Point2, loc: Location) -> bool {
    match loc {
        Location::NoTriangulationPresent => m.num_half_edges() == 0,
        Location::InTriangle(f) => 1 <= f < m.num_faces() && forall|e: int|
            m.valid_edge(e) && #[trigger] m.face(e) == f ==> edge_side(m, pos, e, p)
                == LineSideInfo::Left,
        Location::OutsideConvexHull(e) => m.valid_edge(e) && m.face(e) == 0 && edge_side(
            m,
            pos,
            e,
            p,
        ) == LineSideInfo::Left,
        Location::OnPoint(v) => m.valid_vertex(v) && pos[v] == p,
        Location::OnEdge(e) => m.valid_edge(e) && m.face(e) != 0 && edge_side(m, pos, e, p)
            == LineSideInfo::OnLine && edge_side(m, pos, m.next(e), p) == LineSideInfo::Left
            && edge_side(m, pos, m.prev(e), p) == LineSideInfo::Left,
    }
}

/// The half-edge at which a walk from the vertex `v` starts: the one that
/// `v` names, or the first half-edge of the mesh where `v` names none.
pub open spec fn walk_start(m: Mesh, v: int) -> int {
    match m.vertices[v].out_edge {
        Some(e) => e,
        None => 0,
    }
}

/// The result of walking towards the point `p`, from the half-edge `cur`
/// that has `p` on the side `query`, in at most `fuel` steps. Each step looks
/// at the triangle on the left of the half-edge and leaves it through an edge
/// that has `p` on its other side. `None` where the steps run out, or where
/// the walk meets an edge that has the outer face on both sides.
pub open spec fn walk(
    m: Mesh,
    pos: Seq<Point2>,
    p: Point2,
    cur: int,
    query: LineSideInfo,
    fuel: nat,
) -> Option<Location>
    decreases fuel,
{
    if fuel == 0 {
        None
    } else if m.face(cur) == 0 && query != LineSideInfo::OnLine {
        Some(Location::OutsideConvexHull(cur))
    } else {
        let edge = if m.face(cur) == 0 {
            twin_index(cur)
        } else {
            cur
        };
        let next = m.next(edge);
        let prev = m.prev(edge);
        let next_query = edge_side(m, pos, next, p);
        let prev_query = edge_side(m, pos, prev, p);
        if m.face(edge) == 0 {
            None
        } else if pos[m.origin(edge)] == p {
            Some(Location::OnPoint(m.origin(edge)))
        } else if pos[m.origin(next)] == p {
            Some(Location::OnPoint(m.origin(next)))
        } else if next_query != LineSideInfo::Left {
            walk(m, pos, p, twin_index(next), next_query.reversed_spec(), (fuel - 1) as nat)
        } else if prev_query != LineSideInfo::Left {
            walk(m, pos, p, twin_index(prev), prev_query.reversed_spec(), (fuel - 1) as nat)
        } else if query == LineSideInfo::OnLine {
            Some(Location::OnEdge(edge))
        } else {
            Some(Location::InTriangle(m.face(edge)))
        }
    }
}

/// The number of steps that a walk may take.
pub open spec fn walk_budget(m: Mesh) -> nat {
    (m.num_half_edges() + 2) as nat
}

/// The result of locating the point `p` in a mesh of triangles, with a walk
/// that starts at the vertex `v`.
pub open spec fn locate_from(m: Mesh, pos: Seq<Point2>, p: Point2, v: int) -> Option<Location> {
    let e = walk_start(m, v);
    let query = edge_side(m, pos, e, p);
    if query == LineSideInfo::Right {
        walk(m, pos, p, twin_index(e), query.reversed_spec(), walk_budget(m))
    } else {
        walk(m, pos, p, e, query, walk_budget(m))
    }
}

/// The place of the point `p` that the half-edge `e` shows, if it shows one:
/// its origin where that lies at `p`; itself where it lies on the hull and
/// has `p` strictly on its left; the triangle on its left where `p` lies
/// strictly inside; itself where `p` lies on it, strictly between its ends.
pub open spec fn location_at(m: Mesh, pos: Seq<Point2>, p: Point2, e: int) -> Option<Location> {
    if pos[m.origin(e)] == p {
        Some(Location::OnPoint(m.origin(e)))
    } else if m.face(e) == 0 {
        if edge_side(m, pos, e, p) == LineSideInfo::Left {
            Some(Location::OutsideConvexHull(e))
        } else {
            None
        }
    } else if edge_side(m, pos, m.next(e), p) == LineSideInfo::Left && edge_side(
        m,
        pos,
        m.prev(e),
        p,
    ) == LineSideInfo::Left {
        if edge_side(m, pos, e, p) == LineSideInfo::Left {
            Some(Location::InTriangle(m.face(e)))
        } else if edge_side(m, pos, e, p) == LineSideInfo::OnLine {
            Some(Location::OnEdge(e))
        } else {
            None
        }
    } else {
        None
    }
}

/// The place of `p` that the first half-edge from index `from` on shows
/// which shows one.
pub open spec fn first_location(m: Mesh, pos: Seq<Point2>, p: Point2, from: int) -> Option<Location>
    decreases m.num_half_edges() - from,
{
    if from < 0 || from >= m.num_half_edges() {
        None
    } else {
        match location_at(m, pos, p, from) {
            Some(l) => Some(l),
            None => first_location(m, pos, p, from + 1),
        }
    }
}

/// The place of `p` that a search through all vertices and half-edges finds:
/// the first vertex at `p`, else what the first half-edge shows that shows a
/// place.
pub open spec fn searched_location(m: Mesh, pos: Seq<Point2>, p: Point2) -> Option<Location> {
    match first_vertex_at(pos, p, 0) {
        Some(v) => Some(Location::OnPoint(v)),
        None => first_location(m, pos, p, 0),
    }
}

/// The place that a half-edge shows is confirmed by the exact predicates.
pub proof fn lemma_location_at(m: Mesh, pos: Seq<Point2>, p: Point2, e: int)
    requires
        m.wf(),
        m.triangles_except(0),
        m.valid_edge(e),
    ensures
        location_at(m, pos, p, e).is_some() ==> location_holds(
            m,
            pos,
            p,
            location_at(m, pos, p, e).unwrap(),
        ),
{
    assert(m.edge_ok(e));
    if m.face(e) != 0 {
        assert(m.faces[m.face(e)].len == 3);
        m.lemma_triangle(e);
        assert forall|x: int| m.valid_edge(x) && #[trigger] m.face(x) == m.face(e) implies x == e
            || x == m.next(e) || x == m.prev(e) by {
            m.lemma_triangle_edges(e, x);
        }
    }
}

/// What the search through the half-edges finds is confirmed by the exact
/// predicates, and where it finds nothing, no half-edge from `from` on shows
/// a place.
pub proof fn lemma_first_location(m: Mesh, pos: Seq<Point2>, p: Point2, from: int)
    requires
        m.wf(),
        m.triangles_except(0),
        0 <= from <= m.num_half_edges(),
    ensures
        first_location(m, pos, p, from).is_some() ==> location_holds(
            m,
            pos,
            p,
            first_location(m, pos, p, from).unwrap(),
        ),
        first_location(m, pos, p, from).is_none() ==> forall|e: int|
            from <= e < m.num_half_edges() ==> (#[trigger] location_at(m, pos, p, e)).is_none(),
    decreases m.num_half_edges() - from,
{
    if from < m.num_half_edges() {
        lemma_location_at(m, pos, p, from);
        if location_at(m, pos, p, from).is_none() {
            lemma_first_location(m, pos, p, from + 1);
        }
    }
}

/// The search finds a place for `p` exactly if `p` has one: where it finds
/// none, the point is no vertex, lies in no triangle, on no edge, and on the
/// left of no edge of the hull.
pub proof fn lemma_searched_location(m: Mesh, pos: Seq<Point2>, p: Point2, loc: Location)
    requires
        m.wf(),
        m.triangles_except(0),
        m.num_half_edges() > 0,
        pos.len() == m.num_vertices(),
    ensures
        searched_location(m, pos, p).is_some() ==> location_holds(
            m,
            pos,
            p,
            searched_location(m, pos, p).unwrap(),
        ),
        location_holds(m, pos, p, loc) ==> searched_location(m, pos, p).is_some(),
{
    lemma_first_vertex_at(pos, p, 0);
    lemma_first_location(m, pos, p, 0);
    if location_holds(m, pos, p, loc) && searched_location(m, pos, p).is_none() {
        match loc {
            Location::NoTriangulationPresent => {},
            Location::OnPoint(v) => {},
            Location::InTriangle(f) => {
                assert(m.face_ok(f));
                assert(m.faces[f].len == 3);
                let e = m.faces[f].edge.unwrap();
                assert(m.edge_ok(e));
                m.lemma_triangle(e);
                assert(m.face(m.next(e)) == f);
                assert(m.face(m.prev(e)) == f);
                assert(location_at(m, pos, p, e).is_some());
            },
            Location::OutsideConvexHull(e) => {
                assert(location_at(m, pos, p, e).is_some());
            },
            Location::OnEdge(e) => {
                assert(location_at(m, pos, p, e).is_some());
            },
        }
    }
}

/// The first vertex from index `from` on whose position is `p`, if there is
/// one.
pub open spec fn first_vertex_at(pos: Seq<Point2>, p: Point2, from: int) -> Option<int>
    decreases pos.len() - from,
{
    if from < 0 || from >= pos.len() {
        None
    } else if pos[from] == p {
        Some(from)
    } else {
        first_vertex_at(pos, p, from + 1)
    }
}

/// `first_vertex_at` finds a vertex at `p` exactly if there is one, and finds
/// the first.
pub proof fn lemma_first_vertex_at(pos: Seq<Point2>, p: Point2, from: int)
    requires
        0 <= from <= pos.len(),
    ensures
        match first_vertex_at(pos, p, from) {
            Some(v) => from <= v < pos.len() && pos[v] == p && forall|u: int|
                from <= u < v ==> pos[u] != p,
            None => forall|u: int| from <= u < pos.len() ==> pos[u] != p,
        },
    decreases pos.len() - from,
{
    if from < pos.len() && pos[from] != p {
        lemma_first_vertex_at(pos, p, from + 1);
    }
}

/// Every result of a walk is confirmed by the exact predicates, where the
/// walk starts on a half-edge that does not have the point on its right.
#[verifier::spinoff_prover]
pub proof fn lemma_walk_sound(
    m: Mesh,
    pos: Seq<Point2>,
    p: Point2,
    cur: int,
    query: LineSideInfo,
    fuel: nat,
)
    requires
        m.wf(),
        m.triangles_except(0),
        pos.len() == m.num_vertices(),
        m.valid_edge(cur),
        query == edge_side(m, pos, cur, p),
        query != LineSideInfo::Right,
    ensures
        walk(m, pos, p, cur, query, fuel).is_some() ==> location_holds(
            m,
            pos,
            p,
            walk(m, pos, p, cur, query, fuel).unwrap(),
        ),
    decreases fuel,
{
    if fuel > 0 && !(m.face(cur) == 0 && query != LineSideInfo::OnLine) {
        let edge = if m.face(cur) == 0 {
            twin_index(cur)
        } else {
            cur
        };
        assert(m.edge_ok(cur));
        assert(m.edge_ok(twin_index(cur)));
        assert(m.edge_ok(edge));
        let next = m.next(edge);
        let prev = m.prev(edge);
        assert(m.edge_ok(next));
        assert(m.edge_ok(prev));
        assert(m.edge_ok(twin_index(next)));
        assert(m.edge_ok(twin_index(prev)));
        crate::math::lemma_side_reversed(pos[m.origin(cur)], pos[m.target(cur)], p);
        crate::math::lemma_side_reversed(pos[m.origin(next)], pos[m.target(next)], p);
        crate::math::lemma_side_reversed(pos[m.origin(prev)], pos[m.target(prev)], p);
        let next_query = edge_side(m, pos, next, p);
        let prev_query = edge_side(m, pos, prev, p);
        if m.face(edge) == 0 {
        } else if pos[m.origin(edge)] == p {
        } else if pos[m.origin(next)] == p {
        } else if next_query != LineSideInfo::Left {
            lemma_walk_sound(
                m,
                pos,
                p,
                twin_index(next),
                next_query.reversed_spec(),
                (fuel - 1) as nat,
            );
        } else if prev_query != LineSideInfo::Left {
            lemma_walk_sound(
                m,
                pos,
                p,
                twin_index(prev),
                prev_query.reversed_spec(),
                (fuel - 1) as nat,
            );
        } else if query == LineSideInfo::OnLine {
        } else {
            let f = m.face(edge);
            assert(m.faces[f].len == 3);
            assert forall|e: int| m.valid_edge(e) && #[trigger] m.face(e) == f implies edge_side(
                m,
                pos,
                e,
                p,
            ) == LineSideInfo::Left by {
                assert(m.edge_ok(e));
                if e != edge {
                    assert(m.positions_differ(e, edge));
                }
                if e != next {
                    assert(m.positions_differ(e, next));
                }
                if e != prev {
                    assert(m.positions_differ(e, prev));
                }
                if next != edge {
                    assert(m.positions_differ(next, edge));
                }
                if prev != edge {
                    assert(m.positions_differ(prev, edge));
                }
                if prev != next {
                    assert(m.positions_differ(prev, next));
                }
            }
        }
    }
}


/// The number under which the position `p` is kept: two positions in range
/// with one number are one position.
pub open spec fn position_key(p: Point2) -> u64 {
    ((p.x + MAX_COORDINATE) * (2 * MAX_COORDINATE + 1) + (p.y + MAX_COORDINATE)) as u64
}

/// Positions in range with the same key are the same position.
pub proof fn lemma_position_key(p: Point2, q: Point2)
    requires
        p.in_range(),
        q.in_range(),
        position_key(p) == position_key(q),
    ensures
        p == q,
{
    let w = 2 * MAX_COORDINATE + 1;
    let a = p.x + MAX_COORDINATE;
    let b = p.y + MAX_COORDINATE;
    let c = q.x + MAX_COORDINATE;
    let d = q.y + MAX_COORDINATE;
    assert(0 <= a * w <= 0x4000_0000 * w && 0 <= c * w <= 0x4000_0000 * w) by (nonlinear_arith)
        requires
            0 <= a <= 0x4000_0000,
            0 <= c <= 0x4000_0000,
            w == 0x4000_0001,
    ;
    assert(a * w + b == c * w + d);
    assert(a == c) by (nonlinear_arith)
        requires
            a * w + b == c * w + d,
            0 <= b < w,
            0 <= d < w,
    ;
}

fn key_of(p: Point2) -> (k: u64)
    requires
        p.in_range(),
    ensures
        k == position_key(p),
{
    let a: u64 = (p.x + MAX_COORDINATE) as u64;
    let b: u64 = (p.y + MAX_COORDINATE) as u64;
    assert(a * 0x4000_0001 <= 0x4000_0000 * 0x4000_0001) by (nonlinear_arith)
        requires
            a <= 0x4000_0000,
    ;
    a * 0x4000_0001 + b
}

/// Every position of `pos` is kept in `entries` under its key, with its
/// index, and nothing else is kept.
pub open spec fn index_holds(entries: Map<u64, usize>, pos: Seq<Point2>) -> bool {
    &&& forall|v: int|
        0 <= v < pos.len() ==> entries.contains_key(#[trigger] position_key(pos[v]))
            && entries[position_key(pos[v])] == v
    &&& forall|k: u64| #[trigger]
        entries.contains_key(k) ==> entries[k] < pos.len() && position_key(pos[entries[k] as int])
            == k
}

/// All positions are in range.
pub open spec fn all_in_range(pos: Seq<Point2>) -> bool {
    forall|v: int| 0 <= v < pos.len() ==> (#[trigger] pos[v]).in_range()
}

/// Positions that are kept under their keys are different positions.
pub proof fn lemma_index_distinct(entries: Map<u64, usize>, pos: Seq<Point2>, u: int, v: int)
    requires
        index_holds(entries, pos),
        0 <= u < pos.len(),
        0 <= v < pos.len(),
        pos[u] == pos[v],
    ensures
        u == v,
{
    assert(entries[position_key(pos[u])] == u);
    assert(entries[position_key(pos[v])] == v);
}

/// A new position that is entered behind all others keeps the index in
/// order.
pub proof fn lemma_index_after_insertion(entries: Map<u64, usize>, pos: Seq<Point2>, p: Point2)
    requires
        index_holds(entries, pos),
        all_in_range(pos),
        p.in_range(),
        pos.len() <= usize::MAX,
        forall|v: int| 0 <= v < pos.len() ==> pos[v] != p,
    ensures
        index_holds(entries.insert(position_key(p), pos.len() as usize), pos.push(p)),
{
    let after = entries.insert(position_key(p), pos.len() as usize);
    let pos2 = pos.push(p);
    assert forall|v: int| 0 <= v < pos2.len() implies after.contains_key(
        #[trigger] position_key(pos2[v]),
    ) && after[position_key(pos2[v])] == v by {
        if v < pos.len() {
            assert(pos2[v] == pos[v]);
            assert(entries.contains_key(position_key(pos[v])));
            if position_key(pos[v]) == position_key(p) {
                lemma_position_key(pos[v], p);
            }
        }
    }
    assert forall|k: u64| #[trigger] after.contains_key(k) implies after[k] < pos2.len()
        && position_key(pos2[after[k] as int]) == k by {
        if k != position_key(p) {
            assert(entries.contains_key(k));
            assert(pos2[entries[k] as int] == pos[entries[k] as int]);
        }
    }
}

/// The entries after the position `v` has been removed and the last position
/// has taken its index.
pub open spec fn entries_without(entries: Map<u64, usize>, pos: Seq<Point2>, v: int) -> Map<
    u64,
    usize,
> {
    if v == pos.len() - 1 {
        entries.remove(position_key(pos[v]))
    } else {
        entries.remove(position_key(pos[v])).insert(position_key(pos.last()), v as usize)
    }
}

/// A removal that moves the last position to the freed index keeps the
/// index in order.
pub proof fn lemma_index_after_removal(entries: Map<u64, usize>, pos: Seq<Point2>, v: int)
    requires
        index_holds(entries, pos),
        all_in_range(pos),
        0 <= v < pos.len() <= usize::MAX,
    ensures
        index_holds(entries_without(entries, pos, v), pos.update(v, pos.last()).drop_last()),
{
    let after = entries_without(entries, pos, v);
    let pos2 = pos.update(v, pos.last()).drop_last();
    let last = pos.len() - 1;
    assert forall|u: int| 0 <= u < pos2.len() implies after.contains_key(
        #[trigger] position_key(pos2[u]),
    ) && after[position_key(pos2[u])] == u by {
        let w = if u == v {
            last
        } else {
            u
        };
        assert(pos2[u] == pos[w]);
        assert(entries.contains_key(position_key(pos[w])));
        assert(entries[position_key(pos[w])] == w);
        assert(entries.contains_key(position_key(pos[v])));
        assert(entries.contains_key(position_key(pos[last])));
    }
    assert forall|k: u64| #[trigger] after.contains_key(k) implies after[k] < pos2.len()
        && position_key(pos2[after[k] as int]) == k by {
        assert(entries.contains_key(position_key(pos[v])));
        assert(entries.contains_key(position_key(pos[last])));
        if v != last && k == position_key(pos[last]) {
        } else {
            assert(entries.contains_key(k));
            let w = entries[k] as int;
            assert(w != v);
            if w == last {
                assert(v == last);
            }
            assert(pos2[w] == pos[w]);
        }
    }
}

/// What a `LocateHint` holds: the vertex that it remembers as a start for
/// walks, and the vertex that it keeps under the key of each position.
pub struct HintView {
    pub last: int,
    pub entries: Map<u64, usize>,
}

/// Remembers a vertex from which a walk towards a query point may start, and
/// for each position the vertex that was entered there.
pub struct LocateHint {
    last: usize,
    index: HashMap<u64, usize>,
}

impl View for LocateHint {
    type V = HintView;

    closed spec fn view(&self) -> HintView {
        HintView { last: self.last as int, entries: self.index@ }
    }
}

impl LocateHint {
    pub fn new() -> (h: Self)
        ensures
            h@.last == 0,
            h@.entries == Map::<u64, usize>::empty(),
    {
        LocateHint { last: 0, index: HashMap::new() }
    }

    /// Notes that the vertex `handle` has been inserted at `point`.
    pub fn insert_vertex_entry(&mut self, point: Point2, handle: usize)
        requires
            point.in_range(),
        ensures
            final(self)@.last == handle,
            final(self)@.entries == old(self)@.entries.insert(position_key(point), handle),
    {
        self.last = handle;
        self.index.insert(key_of(point), handle);
    }

    /// Notes that the vertex `handle`, which lay at `point`, has been removed.
    pub fn remove_vertex_entry(&mut self, point: Point2, handle: usize)
        requires
            point.in_range(),
        ensures
            final(self)@.last == (if old(self)@.last == handle {
                0
            } else {
                old(self)@.last
            }),
            final(self)@.entries == old(self)@.entries.remove(position_key(point)),
    {
        if self.last == handle {
            self.last = 0;
        }
        let k: u64 = key_of(point);
        self.index.remove(&k);
    }

    /// Notes that the vertex at `point` has the index `handle` from now on.
    pub fn update_vertex_entry(&mut self, point: Point2, handle: usize)
        requires
            point.in_range(),
        ensures
            final(self)@.last == handle,
            final(self)@.entries == old(self)@.entries.insert(position_key(point), handle),
    {
        self.last = handle;
        self.index.insert(key_of(point), handle);
    }

    /// A vertex that may be close to `point`.
    pub fn find_close_handle(&self, point: Point2) -> (handle: usize)
        ensures
            handle == self@.last,
    {
        self.last
    }

    /// The vertex that is kept for the position `point`, if there is one.
    pub fn find_exact(&self, point: Point2) -> (r: Option<usize>)
        requires
            point.in_range(),
        ensures
            r == (if self@.entries.contains_key(position_key(point)) {
                Some(self@.entries[position_key(point)])
            } else {
                None
            }),
    {
        let k: u64 = key_of(point);
        match self.index.get(&k) {
            Some(v) => Some(*v),
            None => None,
        }
    }
}

/// A Delaunay triangulation of points with integer coordinates.
pub struct DelaunayTriangulation<V: HasPosition> {
    dcel: Dcel<V>,
    all_points_on_line: bool,
    hint: LocateHint,
    stopped_short: bool,
}

/// The view of an optional position.
pub open spec fn option_location(r: Option<PositionInTriangulation>) -> Option<Location> {
    match r {
        Some(pos) => Some(pos@),
        None => None,
    }
}

impl<V: HasPosition> DelaunayTriangulation<V> {
    /// The model of the mesh.
    pub closed spec fn mesh(&self) -> Mesh {
        self.dcel.mesh()
    }

    /// The payloads of the vertices, by vertex index.
    pub closed spec fn vertex_data(&self) -> Seq<V> {
        self.dcel.data()
    }

    /// The positions of the vertices, by vertex index.
    pub open spec fn positions(&self) -> Seq<Point2> {
        positions_of(self.vertex_data())
    }

    /// Whether the triangulation holds isolated vertices only, because all
    /// its points lie on one line.
    pub closed spec fn is_degenerate(&self) -> bool {
        self.all_points_on_line
    }

    /// Whether a legalization has ever stopped because it had used up its
    /// flips, or a repair of the hull has ever left a pocket open. The
    /// triangulation may then hold an edge that the in-circle test rejects,
    /// or a hull that is not convex.
    pub closed spec fn stopped_short(&self) -> bool {
        self.stopped_short
    }

    /// The vertex that the triangulation remembers as a start for walks.
    pub closed spec fn hint_value(&self) -> HintView {
        self.hint@
    }

    /// The vertex from which a walk starts where the caller names none: the
    /// remembered vertex while it exists, else the first vertex.
    pub open spec fn default_hint(&self) -> int {
        if self.hint_value().last < self.mesh().num_vertices() {
            self.hint_value().last
        } else {
            0
        }
    }

    /// The vertex that is kept for the position `p`, where one is kept that
    /// lies there.
    pub open spec fn indexed_vertex(&self, p: Point2) -> Option<int> {
        let entries = self.hint_value().entries;
        let k = position_key(p);
        if entries.contains_key(k) && entries[k] < self.positions().len()
            && self.positions()[entries[k] as int] == p {
            Some(entries[k] as int)
        } else {
            None
        }
    }

    /// Every vertex is kept under the key of its position, and nothing else
    /// is kept. This holds of a new triangulation, and every insertion and
    /// removal keeps it.
    pub open spec fn indexed(&self) -> bool {
        index_holds(self.hint_value().entries, self.positions())
    }

    /// What holds of every triangulation that has been made by `new` and
    /// changed by insertions and removals: it is well formed, every vertex is
    /// kept under the key of its position, and unless `has_stopped_short`
    /// reports otherwise it is in order as `oriented` says and every edge is
    /// locally Delaunay.
    pub open spec fn valid(&self) -> bool {
        &&& self.wf()
        &&& self.indexed()
        &&& !self.stopped_short() ==> self.oriented() && self.delaunay_property()
    }

    /// The arrays of the mesh hold its model.
    pub closed spec fn storage_wf(&self) -> bool {
        self.dcel.wf()
    }

    /// The triangulation is well formed: its mesh is, all positions are in
    /// range, and the mesh is either without edges or made of triangles.
    pub open spec fn wf(&self) -> bool {
        &&& self.base_wf()
        &&& self.is_degenerate() ==> self.mesh().num_half_edges() == 0 && self.mesh().num_faces()
            == 1
        &&& !self.is_degenerate() ==> self.mesh().triangles_except(0) && self.mesh().num_faces()
            >= 2
    }

    /// The mesh is well formed and all positions are in range. This holds
    /// also while an operation works on the mesh.
    pub open spec fn base_wf(&self) -> bool {
        &&& self.storage_wf()
        &&& self.mesh().wf()
        &&& self.vertex_data().len() == self.mesh().num_vertices()
        &&& self.mesh().num_half_edges() <= usize::MAX / 256
        &&& forall|v: int|
            0 <= v < self.vertex_data().len() ==> (#[trigger] self.vertex_data()[v]).position_spec().in_range()
    }

    /// The triangulation is well formed, the corners of every triangle are in
    /// counterclockwise order, while it is degenerate its points are
    /// different points of one line, and else every edge has a triangle on
    /// one side and every vertex has an edge.
    pub open spec fn oriented(&self) -> bool {
        &&& self.wf()
        &&& all_ccw(self.mesh(), self.positions())
        &&& self.is_degenerate() ==> on_one_line(self.positions())
        &&& !self.is_degenerate() ==> solid(self.mesh())
    }

    /// Where the point `p` lies: the vertex at `p` or none while the
    /// triangulation is degenerate; else the vertex that is kept for `p`
    /// where one lies there, otherwise the result of the walk from the
    /// vertex `hint`, and where the walk does not arrive, what a search
    /// through the whole mesh finds.
    pub open spec fn locate_spec(&self, p: Point2, hint: int) -> Option<Location> {
        if self.is_degenerate() {
            match first_vertex_at(self.positions(), p, 0) {
                Some(v) => Some(Location::OnPoint(v)),
                None => Some(Location::NoTriangulationPresent),
            }
        } else {
            match self.indexed_vertex(p) {
                Some(v) => Some(Location::OnPoint(v)),
                None => match locate_from(self.mesh(), self.positions(), p, hint) {
                    Some(l) => Some(l),
                    None => searched_location(self.mesh(), self.positions(), p),
                },
            }
        }
    }

    /// The empty triangulation.
    pub fn new() -> (t: Self)
        ensures
            t.wf(),
            t.is_degenerate(),
            t.mesh() == Mesh::empty(),
            t.vertex_data() == Seq::<V>::empty(),
            t.oriented(),
            t.indexed(),
            !t.stopped_short(),
            t.valid(),
    {
        let dcel: Dcel<V> = Dcel::new();
        proof {
            dcel.lemma_wf();
        }
        DelaunayTriangulation {
            dcel,
            all_points_on_line: true,
            hint: LocateHint::new(),
            stopped_short: false,
        }
    }

    /// Whether all points lie on one line, so that there is no triangle.
    pub fn all_points_on_line(&self) -> (b: bool)
        ensures
            b == self.is_degenerate(),
    {
        self.all_points_on_line
    }

    /// The number of vertices.
    pub fn num_vertices(&self) -> (n: usize)
        requires
            self.wf(),
        ensures
            n == self.mesh().num_vertices(),
    {
        self.dcel.num_vertices()
    }

    /// The number of faces, the outer face included.
    pub fn num_faces(&self) -> (n: usize)
        requires
            self.wf(),
        ensures
            n == self.mesh().num_faces(),
            n >= 1,
            self.is_degenerate() ==> n == 1,
    {
        self.dcel.num_faces()
    }

    /// The number of triangles: every face but the outer face is one.
    pub fn num_triangles(&self) -> (n: usize)
        requires
            self.wf(),
        ensures
            n == self.mesh().num_faces() - 1,
            self.is_degenerate() ==> n == 0,
    {
        self.dcel.num_faces() - 1
    }

    /// The number of undirected edges.
    pub fn num_edges(&self) -> (n: usize)
        requires
            self.wf(),
        ensures
            n == self.mesh().num_half_edges() / 2,
    {
        self.dcel.num_edges()
    }

    /// The mesh of the triangulation.
    pub fn s(&self) -> (d: &Dcel<V>)
        requires
            self.wf(),
        ensures
            d.wf(),
            d.mesh() == self.mesh(),
            d.data() == self.vertex_data(),
    {
        &self.dcel
    }

    /// The position of the vertex `v`.
    fn position_of(&self, v: usize) -> (p: Point2)
        requires
            self.wf(),
            self.mesh().valid_vertex(v as int),
        ensures
            p == self.positions()[v as int],
            p.in_range(),
    {
        self.dcel.vertex_data(v).position()
    }

    /// The side of the half-edge `e` on which `point` lies.
    fn edge_side_query(&self, e: usize, point: Point2) -> (side: LineSideInfo)
        requires
            self.wf(),
            self.mesh().valid_edge(e as int),
            point.in_range(),
        ensures
            side == edge_side(self.mesh(), self.positions(), e as int, point),
    {
        let from: usize = self.dcel.origin(e);
        let to: usize = self.dcel.target(e);
        let p1 = self.position_of(from);
        let p2 = self.position_of(to);
        side_query(p1, p2, point)
    }

    /// Whether a legalization or a repair of the hull has ever stopped short
    /// in this triangulation.
    pub fn has_stopped_short(&self) -> (b: bool)
        ensures
            b == self.stopped_short(),
    {
        self.stopped_short
    }

    /// The vertex from which a walk towards `point` starts where the caller
    /// names none.
    pub fn get_default_hint(&self, point: Point2) -> (v: FixedVertexHandle)
        requires
            self.wf(),
        ensures
            v@ == self.default_hint(),
            self.mesh().num_vertices() > 0 ==> self.mesh().valid_vertex(v@),
    {
        let hint: usize = self.hint.find_close_handle(point);
        if hint < self.dcel.num_vertices() {
            FixedVertexHandle::new(hint)
        } else {
            FixedVertexHandle::new(0)
        }
    }

    /// Locates `point` in a mesh of triangles: the vertex that is kept for
    /// `point` where one lies there, else the result of a walk that starts at
    /// the vertex `start`; where the walk does not arrive within its budget
    /// of steps, all vertices and half-edges are searched.
    ///
    /// A vertex at `point` is found whatever the start. Returns `None` only
    /// where the point has no place in the mesh: it is no vertex, lies in no
    /// triangle, on no edge, and on the left of no edge of the hull.
    pub fn locate_with_hint_fixed(&self, point: Point2, start: FixedVertexHandle) -> (r: Option<
        PositionInTriangulation,
    >)
        requires
            self.wf(),
            !self.is_degenerate(),
            self.mesh().valid_vertex(start@),
            point.in_range(),
        ensures
            option_location(r) == self.locate_spec(point, start@),
            r.is_some() ==> location_holds(self.mesh(), self.positions(), point, r.unwrap()@),
            self.is_degenerate() ==> r.is_some(),
            r.is_none() ==> forall|loc: Location| !#[trigger]
                location_holds(self.mesh(), self.positions(), point, loc),
            self.indexed() ==> forall|v: int|
                self.mesh().valid_vertex(v) && self.positions()[v] == point ==> option_location(r)
                    == Some(Location::OnPoint(v)),
    {
        proof {
            self.dcel.lemma_wf();
            self.lemma_has_vertex();
            assert forall|loc: Location|
                self.locate_spec(point, start@).is_none() implies !#[trigger] location_holds(
                self.mesh(),
                self.positions(),
                point,
                loc,
            ) by {
                lemma_searched_location(self.mesh(), self.positions(), point, loc);
            }
            if self.indexed() {
                assert forall|v: int|
                    self.mesh().valid_vertex(v) && self.positions()[v] == point implies self.indexed_vertex(
                    point,
                ) == Some(v) by {
                    assert(self.hint_value().entries.contains_key(
                        position_key(self.positions()[v]),
                    ));
                }
            }
        }
        match self.hint.find_exact(point) {
            Some(v) => {
                if v < self.dcel.num_vertices() {
                    let p: Point2 = self.position_of(v);
                    if p.same_position(&point) {
                        return Some(PositionInTriangulation::OnPoint(FixedVertexHandle::new(v)));
                    }
                }
            },
            None => {},
        }
        match self.walk_from(point, start) {
            Some(found) => Some(found),
            None => self.locate_by_search(point),
        }
    }

    /// Locates `point` in a mesh of triangles by a search through all
    /// vertices and half-edges: the first vertex at `point`, else the place
    /// that the first half-edge shows which shows one. `None` where the point
    /// has no place in the mesh.
    pub fn locate_by_search(&self, point: Point2) -> (r: Option<PositionInTriangulation>)
        requires
            self.wf(),
            !self.is_degenerate(),
            point.in_range(),
        ensures
            option_location(r) == searched_location(self.mesh(), self.positions(), point),
            r.is_some() ==> location_holds(self.mesh(), self.positions(), point, r.unwrap()@),
            r.is_none() ==> forall|loc: Location| !#[trigger]
                location_holds(self.mesh(), self.positions(), point, loc),
    {
        let ghost m = self.mesh();
        let ghost pos = self.positions();
        proof {
            self.dcel.lemma_wf();
            self.lemma_has_vertex();
            assert forall|loc: Location|
                searched_location(m, pos, point).is_none() implies !#[trigger] location_holds(
                m,
                pos,
                point,
                loc,
            ) by {
                lemma_searched_location(m, pos, point, loc);
            }
            lemma_searched_location(m, pos, point, Location::NoTriangulationPresent);
        }
        match self.find_vertex_at(point) {
            Some(v) => {
                return Some(PositionInTriangulation::OnPoint(FixedVertexHandle::new(v)));
            },
            None => {},
        }
        let n: usize = self.dcel.num_half_edges();
        let mut i: usize = 0;
        while i < n
            invariant
                self.wf(),
                !self.is_degenerate(),
                point.in_range(),
                m == self.mesh(),
                pos == self.positions(),
                n == m.num_half_edges(),
                0 <= i <= n,
                first_vertex_at(pos, point, 0).is_none(),
                first_location(m, pos, point, 0) == first_location(m, pos, point, i as int),
            decreases n - i,
        {
            proof {
                assert(m.edge_ok(i as int));
                lemma_location_at(m, pos, point, i as int);
            }
            let origin: usize = self.dcel.origin(i);
            let at: Point2 = self.position_of(origin);
            if at.same_position(&point) {
                return Some(PositionInTriangulation::OnPoint(FixedVertexHandle::new(origin)));
            }
            let side: LineSideInfo = self.edge_side_query(i, point);
            let face: usize = self.dcel.face(i);
            if face == 0 {
                if side.is_on_left_side() {
                    return Some(
                        PositionInTriangulation::OutsideConvexHull(FixedDirectedEdgeHandle::new(i)),
                    );
                }
            } else {
                let next: usize = self.dcel.next(i);
                let prev: usize = self.dcel.prev(i);
                if self.edge_side_query(next, point).is_on_left_side() && self.edge_side_query(
                    prev,
                    point,
                ).is_on_left_side() {
                    if side.is_on_left_side() {
                        return Some(
                            PositionInTriangulation::InTriangle(FixedFaceHandle::new_inner(face)),
                        );
                    } else if side.is_on_line() {
                        return Some(
                            PositionInTriangulation::OnEdge(FixedDirectedEdgeHandle::new(i)),
                        );
                    }
                }
            }
            i = i + 1;
        }
        None
    }

    /// The result of a walk towards `point` that starts at the vertex
    /// `start`.
    #[verifier::spinoff_prover]
    fn walk_from(&self, point: Point2, start: FixedVertexHandle) -> (r: Option<
        PositionInTriangulation,
    >)
        requires
            self.wf(),
            !self.is_degenerate(),
            self.mesh().valid_vertex(start@),
            point.in_range(),
        ensures
            option_location(r) == locate_from(self.mesh(), self.positions(), point, start@),
            r.is_some() ==> location_holds(self.mesh(), self.positions(), point, r.unwrap()@),
    {
        let ghost m = self.mesh();
        let ghost pos = self.positions();
        proof {
            assert(m.faces[1].len == 3);
            assert(m.face_ok(1));
            assert(m.vertex_ok(start@));
        }
        let mut cur: usize = match self.dcel.out_edge(start.index()) {
            Some(e) => e,
            None => 0,
        };
        let mut query: LineSideInfo = self.edge_side_query(cur, point);
        let ghost start_edge = cur;
        let ghost query_start = query;
        proof {
            crate::math::lemma_side_reversed(pos[m.origin(cur as int)], pos[m.target(cur as int)], point);
            assert(m.edge_ok(cur as int));
            assert(m.edge_ok(twin_index(cur as int)));
        }
        if query.is_on_right_side() {
            cur = self.dcel.twin(cur);
            query = query.reversed();
        }
        let mut fuel: usize = self.dcel.num_half_edges() + 2;
        let ghost goal = locate_from(m, pos, point, start@);
        let mut result: Option<PositionInTriangulation> = None;
        loop
            invariant
                self.wf(),
                !self.is_degenerate(),
                m == self.mesh(),
                pos == self.positions(),
                point.in_range(),
                m.valid_edge(cur as int),
                query == edge_side(m, pos, cur as int, point),
                query != LineSideInfo::Right,
                walk(m, pos, point, cur as int, query, fuel as nat) == goal,
            ensures
                option_location(result) == goal,
            decreases fuel,
        {
            proof {
                assert(m.edge_ok(cur as int));
                assert(m.edge_ok(twin_index(cur as int)));
                crate::math::lemma_side_reversed(
                    pos[m.origin(cur as int)],
                    pos[m.target(cur as int)],
                    point,
                );
            }
            if fuel == 0 {
                result = None;
                break ;
            }
            if self.dcel.face(cur) == 0 {
                if query.is_on_line() {
                    cur = self.dcel.twin(cur);
                } else {
                    result = Some(
                        PositionInTriangulation::OutsideConvexHull(
                            FixedDirectedEdgeHandle::new(cur),
                        ),
                    );
                    break ;
                }
            }
            let face: usize = self.dcel.face(cur);
            if face == 0 {
                result = None;
                break ;
            }
            proof {
                assert(m.edge_ok(cur as int));
            }
            let from: usize = self.dcel.origin(cur);
            let from_pos = self.position_of(from);
            if from_pos.same_position(&point) {
                result = Some(PositionInTriangulation::OnPoint(FixedVertexHandle::new(from)));
                break ;
            }
            let next: usize = self.dcel.next(cur);
            let to: usize = self.dcel.origin(next);
            let to_pos = self.position_of(to);
            if to_pos.same_position(&point) {
                result = Some(PositionInTriangulation::OnPoint(FixedVertexHandle::new(to)));
                break ;
            }
            let next_query: LineSideInfo = self.edge_side_query(next, point);
            proof {
                assert(m.edge_ok(next as int));
                assert(m.edge_ok(twin_index(next as int)));
                crate::math::lemma_side_reversed(
                    pos[m.origin(next as int)],
                    pos[m.target(next as int)],
                    point,
                );
            }
            if next_query.is_on_right_side_or_on_line() {
                cur = self.dcel.twin(next);
                query = next_query.reversed();
                fuel = fuel - 1;
            } else {
                let prev: usize = self.dcel.prev(cur);
                let prev_query: LineSideInfo = self.edge_side_query(prev, point);
                proof {
                    assert(m.edge_ok(prev as int));
                    assert(m.edge_ok(twin_index(prev as int)));
                    crate::math::lemma_side_reversed(
                        pos[m.origin(prev as int)],
                        pos[m.target(prev as int)],
                        point,
                    );
                }
                if prev_query.is_on_right_side_or_on_line() {
                    cur = self.dcel.twin(prev);
                    query = prev_query.reversed();
                    fuel = fuel - 1;
                } else if query.is_on_line() {
                    result = Some(
                        PositionInTriangulation::OnEdge(FixedDirectedEdgeHandle::new(cur)),
                    );
                    break ;
                } else {
                    result = Some(
                        PositionInTriangulation::InTriangle(FixedFaceHandle::new_inner(face)),
                    );
                    break ;
                }
            }
        }
        proof {
            if query_start == LineSideInfo::Right {
                lemma_walk_sound(
                    m,
                    pos,
                    point,
                    twin_index(start_edge as int),
                    query_start.reversed_spec(),
                    walk_budget(m),
                );
            } else {
                lemma_walk_sound(m, pos, point, start_edge as int, query_start, walk_budget(m));
            }
        }
        result
    }
}


/// The number of flips that one legalization may make.
pub open spec fn flip_budget(m: Mesh) -> nat {
    m.num_half_edges() as nat
}

impl<V: HasPosition> DelaunayTriangulation<V> {
    /// Whether the caller declares the edge `e` legal whatever the in-circle
    /// test says. No edge is.
    pub fn is_defined_legal(&self, e: FixedDirectedEdgeHandle) -> (b: bool)
        ensures
            !b,
    {
        false
    }

    /// Whether the half-edge `e` or its twin has the outer face on its left.
    fn is_ch_edge(&self, e: usize) -> (b: bool)
        requires
            self.wf(),
            self.mesh().valid_edge(e as int),
        ensures
            b == (self.mesh().face(e as int) == 0 || self.mesh().face(twin_index(e as int)) == 0),
    {
        let t: usize = self.dcel.twin(e);
        self.dcel.face(e) == 0 || self.dcel.face(t) == 0
    }

    /// Whether the edge of the half-edge `e` can be flipped.
    fn can_flip_edge(&self, e: usize) -> (b: bool)
        requires
            self.wf(),
            !self.is_degenerate(),
            self.mesh().valid_edge(e as int),
        ensures
            b == self.mesh().flippable(e as int),
    {
        let ghost m = self.mesh();
        proof {
            assert(m.edge_ok(e as int));
            assert(m.edge_ok(twin_index(e as int)));
        }
        if self.is_ch_edge(e) {
            return false;
        }
        let t: usize = self.dcel.twin(e);
        let fe: usize = self.dcel.face(e);
        let ft: usize = self.dcel.face(t);
        proof {
            assert(m.faces[fe as int].len == 3);
            assert(m.faces[ft as int].len == 3);
        }
        if fe == ft {
            return false;
        }
        let a: usize = self.dcel.origin(e);
        let b: usize = self.dcel.origin(t);
        let ep: usize = self.dcel.prev(e);
        let tp: usize = self.dcel.prev(t);
        let c: usize = self.dcel.origin(ep);
        let d: usize = self.dcel.origin(tp);
        a != b && a != c && a != d && b != c && b != d && c != d
    }

    /// Restores the Delaunay property around a newly inserted vertex at
    /// `position`: examines the half-edges on `edges`, the top first, flips
    /// each whose far triangle has `position` strictly inside its circle, and
    /// goes on with the two far half-edges of each flipped one.
    #[verifier::spinoff_prover]
    pub fn legalize_edges(&mut self, edges: &mut EdgeStack, position: Point2)
        requires
            old(self).wf(),
            !old(self).is_degenerate(),
            position.in_range(),
            stack_items(*old(edges)).len() <= usize::MAX / 256,
        ensures
            final(self).wf(),
            !final(self).is_degenerate(),
            final(self).mesh() == old(self).mesh().legalize(
                old(self).positions(),
                stack_items(*old(edges)),
                position,
                flip_budget(old(self).mesh()),
            ),
            final(self).vertex_data() == old(self).vertex_data(),
            final(self).hint_value() == old(self).hint_value(),
            final(self).stopped_short() == (old(self).stopped_short() || old(self).mesh().legalize_stops_short(
                old(self).positions(),
                stack_items(*old(edges)),
                position,
                flip_budget(old(self).mesh()),
            )),
            final(self).mesh().num_vertices() == old(self).mesh().num_vertices(),
            final(self).mesh().num_half_edges() == old(self).mesh().num_half_edges(),
            final(self).mesh().num_faces() == old(self).mesh().num_faces(),
            stack_items(*final(edges)).len() == 0,
            solid(old(self).mesh()) ==> solid(final(self).mesh()),
            forall|v: int|
                old(self).counterclockwise_faces() && 0 <= v < old(self).positions().len() && old(self).positions()[v] == position && #[trigger] stack_sees(
                    old(self).mesh(),
                    stack_items(*old(edges)),
                    v,
                ) ==> final(self).counterclockwise_faces() && final(self).stopped_short() == old(self).stopped_short() && (settled(
                    old(self).mesh(),
                    old(self).positions(),
                    v,
                ) ==> settled(final(self).mesh(), final(self).positions(), v)),
    {
        let ghost pos = self.positions();
        let ghost goal = self.mesh().legalize(
            pos,
            stack_items(*edges),
            position,
            flip_budget(self.mesh()),
        );
        let n: usize = self.dcel.num_half_edges();
        let mut flips: usize = n;
        let ghost short_goal = self.stopped_short() || self.mesh().legalize_stops_short(
            pos,
            stack_items(*edges),
            position,
            flip_budget(self.mesh()),
        );
        proof {
            if solid(self.mesh()) {
                lemma_legalize_keeps_solid(
                    self.mesh(),
                    pos,
                    stack_items(*edges),
                    position,
                    flip_budget(self.mesh()),
                );
            }
            self.mesh().lemma_legalize_keeps_shape(
                pos,
                stack_items(*edges),
                position,
                flip_budget(self.mesh()),
            );
            assert forall|v: int|
                all_ccw(self.mesh(), pos) && 0 <= v < pos.len() && pos[v] == position
                    && #[trigger] stack_sees(
                    self.mesh(),
                    stack_items(*edges),
                    v,
                ) implies !self.mesh().legalize_stops_short(
                pos,
                stack_items(*edges),
                position,
                flip_budget(self.mesh()),
            ) by {
                lemma_count_far_bound(self.mesh(), v, self.mesh().num_half_edges() as nat);
                lemma_legalize_completes(
                    self.mesh(),
                    pos,
                    stack_items(*edges),
                    v,
                    flip_budget(self.mesh()),
                );
            }
            assert forall|v: int|
                all_ccw(self.mesh(), pos) && 0 <= v < pos.len() && pos[v] == position
                    && #[trigger] stack_sees(self.mesh(), stack_items(*edges), v) && settled(
                    self.mesh(),
                    pos,
                    v,
                ) implies settled(goal, pos, v) by {
                lemma_legalize_keeps_settled(
                    self.mesh(),
                    pos,
                    stack_items(*edges),
                    v,
                    flip_budget(self.mesh()),
                );
            }
            assert forall|v: int|
                all_ccw(self.mesh(), pos) && 0 <= v < pos.len() && pos[v] == position
                    && #[trigger] stack_sees(self.mesh(), stack_items(*edges), v) implies all_ccw(
                goal,
                pos,
            ) by {
                lemma_legalize_keeps_ccw(
                    self.mesh(),
                    pos,
                    stack_items(*edges),
                    v,
                    flip_budget(self.mesh()),
                );
            }
        }
        loop
            invariant
                self.wf(),
                !self.is_degenerate(),
                position.in_range(),
                pos == self.positions(),
                self.vertex_data() == old(self).vertex_data(),
                self.hint_value() == old(self).hint_value(),
                short_goal == (self.stopped_short() || self.mesh().legalize_stops_short(
                    pos,
                    stack_items(*edges),
                    position,
                    flips as nat,
                )),
                n == self.mesh().num_half_edges(),
                self.mesh().num_vertices() == old(self).mesh().num_vertices(),
                self.mesh().num_faces() == old(self).mesh().num_faces(),
                flips <= n,
                stack_items(*edges).len() + 2 * flips <= usize::MAX / 256 + 2 * n,
                self.mesh().legalize(pos, stack_items(*edges), position, flips as nat) == goal,
            ensures
                stack_items(*edges).len() == 0,
                self.mesh() == goal,
            decreases stack_items(*edges).len() + 3 * flips,
        {
            let ghost m = self.mesh();
            let ghost before = stack_items(*edges);
            match stack_pop(edges) {
                None => {
                    break ;
                },
                Some(e) => {
                    if e < n && !self.is_defined_legal(FixedDirectedEdgeHandle::new(e))
                        && self.can_flip_edge(e) {
                        proof {
                            m.lemma_flip_context(e as int);
                            m.lemma_flip_keeps_shape(e as int);
                        }
                        let t: usize = self.dcel.twin(e);
                        let e1: usize = self.dcel.next(t);
                        let e2: usize = self.dcel.prev(t);
                        let v0 = self.position_of(self.dcel.origin(e));
                        let v1 = self.position_of(self.dcel.origin(t));
                        let v2 = self.position_of(self.dcel.origin(e2));
                        if contained_in_circumference(v2, v1, v0, position) {
                            if flips > 0 {
                                self.dcel.flip_cw(e);
                                stack_push(edges, e1);
                                stack_push(edges, e2);
                                flips = flips - 1;
                            } else {
                                self.stopped_short = true;
                            }
                        }
                    }
                },
            }
        }
    }
}


impl<V: HasPosition> DelaunayTriangulation<V> {
    /// Inserts a vertex with the payload `t`, whose position lies strictly
    /// inside the inner face `face`: joins it to the three corners of the
    /// face and legalizes the three edges of the face.
    #[verifier::spinoff_prover]
    pub fn insert_into_triangle(&mut self, face: FixedFaceHandle<InnerTag>, t: V) -> (v:
        FixedVertexHandle)
        requires
            old(self).wf(),
            !old(self).is_degenerate(),
            1 <= face@ < old(self).mesh().num_faces(),
            t.position_spec().in_range(),
            old(self).mesh().num_half_edges() + 6 <= usize::MAX / 256,
        ensures
            final(self).wf(),
            !final(self).is_degenerate(),
            v@ == old(self).mesh().num_vertices(),
            final(self).vertex_data() == old(self).vertex_data().push(t),
            final(self).hint_value() == old(self).hint_value(),
            final(self).stopped_short() == (old(self).stopped_short() || old(self).mesh().insert_into_triangle(face@).legalize_stops_short(
                old(self).positions().push(t.position_spec()),
                old(self).mesh().triangle_stack(face@),
                t.position_spec(),
                flip_budget(old(self).mesh().insert_into_triangle(face@)),
            )),
            final(self).mesh() == old(self).mesh().insert_into_triangle(face@).legalize(
                old(self).positions().push(t.position_spec()),
                old(self).mesh().triangle_stack(face@),
                t.position_spec(),
                flip_budget(old(self).mesh().insert_into_triangle(face@)),
            ),
            final(self).mesh().num_faces() == old(self).mesh().num_faces() + 2,
            final(self).mesh().num_half_edges() == old(self).mesh().num_half_edges() + 6,
            old(self).counterclockwise_faces() && location_holds(
                old(self).mesh(),
                old(self).positions(),
                t.position_spec(),
                Location::InTriangle(face@),
            ) ==> final(self).counterclockwise_faces() && final(self).stopped_short() == old(self).stopped_short() && (old(self).delaunay_property() ==> settled(
                final(self).mesh(),
                final(self).positions(),
                v@,
            )),
            solid(old(self).mesh()) ==> solid(final(self).mesh()),
    {
        let ghost m = self.mesh();
        let ghost pos0 = self.positions();
        let ghost inside = location_holds(m, pos0, t.position_spec(), Location::InTriangle(face@));
        let face: usize = face.index();
        proof {
            m.lemma_insert_into_triangle(face as int);
            if solid(m) {
                lemma_insert_into_triangle_solid(m, face as int);
            }
            if self.delaunay_property() {
                lemma_insert_into_triangle_settled(m, pos0, t.position_spec(), face as int);
            }
            if all_ccw(m, pos0) && inside {
                lemma_insert_into_triangle_ccw(m, pos0, t.position_spec(), face as int);
            }
        }
        let position = t.position();
        let new_handle: usize = self.dcel.insert_vertex(t);
        let e1: usize = self.dcel.face_edge(face).unwrap();
        let e0: usize = self.dcel.prev(e1);
        let e2: usize = self.dcel.next(e1);
        let mut last_edge: usize = self.dcel.connect_edge_to_isolated_vertex(e2, new_handle);
        last_edge = self.dcel.twin(last_edge);
        last_edge = self.dcel.create_face(e0, last_edge);
        last_edge = self.dcel.twin(last_edge);
        self.dcel.create_face(e1, last_edge);
        let mut edges: EdgeStack = stack_new();
        stack_push(&mut edges, e0);
        stack_push(&mut edges, e1);
        stack_push(&mut edges, e2);
        proof {
            assert(stack_items(edges) =~= m.triangle_stack(face as int));
            assert(self.positions() =~= old(self).positions().push(t.position_spec()));
            self.dcel.lemma_wf();
            if all_ccw(m, pos0) && inside {
                assert(stack_sees(self.mesh(), stack_items(edges), new_handle as int));
            }
        }
        self.legalize_edges(&mut edges, position);
        FixedVertexHandle::new(new_handle)
    }
}


impl<V: HasPosition> DelaunayTriangulation<V> {
    /// An edge on which a point lies, with a triangle on its left that has
    /// the point strictly on the left of its other two edges, has another
    /// face on its right.
    pub proof fn lemma_on_edge_faces_differ(m: Mesh, pos: Seq<Point2>, p: Point2, e: int)
        requires
            m.wf(),
            m.triangles_except(0),
            location_holds(m, pos, p, Location::OnEdge(e)),
        ensures
            m.face(e) != m.face(twin_index(e)),
    {
        let t = twin_index(e);
        assert(m.edge_ok(e));
        assert(m.edge_ok(t));
        if m.face(e) == m.face(t) {
            assert(m.faces[m.face(e)].len == 3);
            m.lemma_triangle_edges(e, t);
            crate::math::lemma_side_reversed(pos[m.origin(e)], pos[m.target(e)], p);
        }
    }

    /// The half-edge of the edge of `e` that has a triangle on its left where
    /// one of the two has: `e` itself unless the outer face is on its left.
    pub open spec fn inner_side(m: Mesh, e: int) -> int {
        if m.face(e) == 0 {
            twin_index(e)
        } else {
            e
        }
    }

    /// Inserts a vertex with the payload `t`, whose position lies on the
    /// edge of `edge`, strictly between its end points: splits the edge
    /// there, joins the new vertex to the apex of the triangle on either side
    /// and legalizes the other edges of those triangles. Either half-edge of
    /// the edge may be given.
    pub fn insert_on_edge(&mut self, edge: FixedDirectedEdgeHandle, t: V) -> (v: FixedVertexHandle)
        requires
            old(self).wf(),
            !old(self).is_degenerate(),
            old(self).mesh().valid_edge(edge@),
            location_holds(
                old(self).mesh(),
                old(self).positions(),
                t.position_spec(),
                Location::OnEdge(Self::inner_side(old(self).mesh(), edge@)),
            ),
            t.position_spec().in_range(),
            old(self).mesh().num_half_edges() + 6 <= usize::MAX / 256,
        ensures
            final(self).wf(),
            !final(self).is_degenerate(),
            v@ == old(self).mesh().num_vertices(),
            final(self).vertex_data() == old(self).vertex_data().push(t),
            final(self).hint_value() == old(self).hint_value(),
            final(self).stopped_short() == (old(self).stopped_short() || old(self).mesh().insert_on_edge(Self::inner_side(old(self).mesh(), edge@)).legalize_stops_short(
                old(self).positions().push(t.position_spec()),
                old(self).mesh().edge_stack(Self::inner_side(old(self).mesh(), edge@)),
                t.position_spec(),
                flip_budget(old(self).mesh().insert_on_edge(Self::inner_side(old(self).mesh(), edge@))),
            )),
            ({
                let e = Self::inner_side(old(self).mesh(), edge@);
                &&& final(self).mesh() == old(self).mesh().insert_on_edge(e).legalize(
                    old(self).positions().push(t.position_spec()),
                    old(self).mesh().edge_stack(e),
                    t.position_spec(),
                    flip_budget(old(self).mesh().insert_on_edge(e)),
                )
                &&& final(self).mesh().num_faces() == old(self).mesh().num_faces() + (if old(self).mesh().face(twin_index(e)) != 0 {
                    2int
                } else {
                    1int
                })
            }),
            old(self).counterclockwise_faces() ==> final(self).counterclockwise_faces() && final(self).stopped_short() == old(self).stopped_short() && (old(self).delaunay_property() ==> settled(
                final(self).mesh(),
                final(self).positions(),
                v@,
            )),
            solid(old(self).mesh()) ==> solid(final(self).mesh()),
    {
        let e: usize = edge.index();
        if self.dcel.face(e) == 0 {
            self.insert_on_inner_edge(FixedDirectedEdgeHandle::new(self.dcel.twin(e)), t)
        } else {
            self.insert_on_inner_edge(edge, t)
        }
    }

    /// Inserts a vertex on the half-edge `edge`, which has a triangle on its
    /// left.
    #[verifier::spinoff_prover]
    fn insert_on_inner_edge(&mut self, edge: FixedDirectedEdgeHandle, t: V) -> (v: FixedVertexHandle)
        requires
            old(self).wf(),
            !old(self).is_degenerate(),
            location_holds(
                old(self).mesh(),
                old(self).positions(),
                t.position_spec(),
                Location::OnEdge(edge@),
            ),
            t.position_spec().in_range(),
            old(self).mesh().num_half_edges() + 6 <= usize::MAX / 256,
        ensures
            final(self).wf(),
            !final(self).is_degenerate(),
            v@ == old(self).mesh().num_vertices(),
            final(self).vertex_data() == old(self).vertex_data().push(t),
            final(self).hint_value() == old(self).hint_value(),
            final(self).stopped_short() == (old(self).stopped_short() || old(self).mesh().insert_on_edge(edge@).legalize_stops_short(
                old(self).positions().push(t.position_spec()),
                old(self).mesh().edge_stack(edge@),
                t.position_spec(),
                flip_budget(old(self).mesh().insert_on_edge(edge@)),
            )),
            final(self).mesh() == old(self).mesh().insert_on_edge(edge@).legalize(
                old(self).positions().push(t.position_spec()),
                old(self).mesh().edge_stack(edge@),
                t.position_spec(),
                flip_budget(old(self).mesh().insert_on_edge(edge@)),
            ),
            final(self).mesh().num_faces() == old(self).mesh().num_faces() + (if old(self).mesh().face(twin_index(edge@)) != 0 {
                2int
            } else {
                1int
            }),
            old(self).counterclockwise_faces() ==> final(self).counterclockwise_faces() && final(self).stopped_short() == old(self).stopped_short() && (old(self).delaunay_property() ==> settled(
                final(self).mesh(),
                final(self).positions(),
                v@,
            )),
            solid(old(self).mesh()) ==> solid(final(self).mesh()),
    {
        let ghost m = self.mesh();
        let ghost pos0 = self.positions();
        let e: usize = edge.index();
        proof {
            Self::lemma_on_edge_faces_differ(m, self.positions(), t.position_spec(), e as int);
            m.lemma_insert_on_edge(e as int);
            if solid(m) {
                lemma_insert_on_edge_solid(m, e as int);
            }
            if self.delaunay_property() {
                lemma_insert_on_edge_settled(m, pos0, t.position_spec(), e as int);
            }
            if all_ccw(m, pos0) {
                assert(m.edge_ok(e as int));
                m.lemma_triangle(e as int);
                lemma_insert_on_edge_ccw(m, pos0, t.position_spec(), e as int);
            }
        }
        let position = t.position();
        let twin: usize = self.dcel.twin(e);
        let ep: usize = self.dcel.prev(e);
        let en: usize = self.dcel.next(e);
        let tn: usize = self.dcel.next(twin);
        let tp: usize = self.dcel.prev(twin);
        let right_is_inner: bool = self.dcel.face(twin) != 0;
        let new_handle: usize = self.dcel.insert_vertex(t);
        let new_edge: usize = self.dcel.split_edge(e, new_handle);
        let mut edges: EdgeStack = stack_new();
        self.dcel.create_face(e, ep);
        stack_push(&mut edges, ep);
        stack_push(&mut edges, en);
        if right_is_inner {
            let new_twin: usize = self.dcel.twin(new_edge);
            self.dcel.create_face(new_twin, tp);
            stack_push(&mut edges, tn);
            stack_push(&mut edges, tp);
        }
        proof {
            assert(stack_items(edges) =~= m.edge_stack(e as int));
            assert(self.positions() =~= old(self).positions().push(t.position_spec()));
            self.dcel.lemma_wf();
            if all_ccw(m, pos0) {
                assert(stack_sees(self.mesh(), stack_items(edges), new_handle as int));
            }
        }
        self.legalize_edges(&mut edges, position);
        FixedVertexHandle::new(new_handle)
    }
}


/// The half-edges of `run` lie on the outer face, one after the other, and
/// have the point `p` strictly on their left; `first` is one of them, and the
/// run cannot be extended at either end.
pub open spec fn visible_run(m: Mesh, pos: Seq<Point2>, p: Point2, first: int, run: Seq<usize>) -> bool {
    &&& m.hull_chain(run.reverse())
    &&& run.contains(first as usize)
    &&& forall|i: int|
        0 <= i < run.len() ==> edge_side(m, pos, #[trigger] run[i] as int, p) == LineSideInfo::Left
    &&& m.next(run.last() as int) == run[0] || edge_side(m, pos, m.next(run.last() as int), p)
        != LineSideInfo::Left
    &&& m.prev(run[0] as int) == run.last() || edge_side(m, pos, m.prev(run[0] as int), p)
        != LineSideInfo::Left
}

/// Joins the isolated vertex `v` to both ends of every half-edge of `chain`,
/// which lie on the hull, each the predecessor of the one before.
fn attach_fan<V>(dcel: &mut Dcel<V>, chain: &Vec<usize>, v: usize)
    requires
        old(dcel).wf(),
        old(dcel).mesh().triangles_except(0),
        old(dcel).mesh().hull_chain(chain@),
        old(dcel).mesh().valid_vertex(v as int),
        old(dcel).mesh().vertices[v as int].out_edge.is_none(),
        old(dcel).mesh().num_half_edges() + 2 + 2 * chain@.len() <= usize::MAX,
    ensures
        final(dcel).wf(),
        final(dcel).mesh() == old(dcel).mesh().attach_fan(chain@, v as int),
        final(dcel).data() == old(dcel).data(),
{
    let ghost m0 = dcel.mesh();
    let ghost limit = m0.num_half_edges();
    proof {
        dcel.lemma_wf();
        m0.lemma_attach_fan_start(chain@, v as int);
    }
    let mut last_edge: usize = dcel.connect_edge_to_isolated_vertex(chain[0], v);
    let mut i: usize = 0;
    while i < chain.len()
        invariant
            dcel.wf(),
            dcel.data() == old(dcel).data(),
            0 <= i <= chain@.len(),
            dcel.mesh().fan_state(chain@, i as int, last_edge as int, limit),
            dcel.mesh().num_half_edges() == limit + 2 + 2 * i,
            limit + 2 + 2 * chain@.len() <= usize::MAX,
            dcel.mesh().close_fan(chain@, i as int, last_edge as int) == m0.attach_fan(
                chain@,
                v as int,
            ),
        decreases chain@.len() - i,
    {
        proof {
            dcel.mesh().lemma_close_fan_step(chain@, i as int, last_edge as int, limit);
        }
        last_edge = dcel.create_face(last_edge, chain[i]);
        last_edge = dcel.twin(last_edge);
        i = i + 1;
    }
}

impl<V: HasPosition> DelaunayTriangulation<V> {
    /// Collects the hull edges that see `point`: starting from `first_edge`,
    /// which has `point` strictly on its left, it follows the hull in both
    /// directions for as long as the edges have `point` strictly on their
    /// left. The half-edges are returned in the order of the hull.
    #[verifier::spinoff_prover]
    pub fn get_convex_hull_edges_for_point(
        &self,
        first_edge: FixedDirectedEdgeHandle,
        point: Point2,
    ) -> (r: EdgeStack)
        requires
            self.wf(),
            !self.is_degenerate(),
            point.in_range(),
            location_holds(
                self.mesh(),
                self.positions(),
                point,
                Location::OutsideConvexHull(first_edge@),
            ),
        ensures
            visible_run(self.mesh(), self.positions(), point, first_edge@, stack_items(r)),
            stack_items(r).len() <= self.mesh().num_half_edges(),
    {
        let ghost m = self.mesh();
        let ghost pos = self.positions();
        let ghost len = m.faces[0].len;
        let first: usize = first_edge.index();
        let mut result: EdgeStack = stack_new();
        stack_push(&mut result, first);
        let mut last_edge: usize = first;
        proof {
            assert(m.edge_ok(first as int));
            assert(stack_items(result) =~= seq![first]);
            self.lemma_hull_length();
        }
        loop
            invariant
                self.wf(),
                !self.is_degenerate(),
                point.in_range(),
                m == self.mesh(),
                pos == self.positions(),
                len == m.faces[0].len,
                len <= m.num_half_edges(),
                m.valid_edge(first as int),
                m.face(first as int) == 0,
                1 <= stack_items(result).len() <= len,
                stack_items(result)[0] == first,
                last_edge == stack_items(result).last(),
                forall|i: int|
                    0 <= i < stack_items(result).len() ==> m.valid_edge(
                        #[trigger] stack_items(result)[i] as int,
                    ) && m.face(stack_items(result)[i] as int) == 0 && edge_side(
                        m,
                        pos,
                        stack_items(result)[i] as int,
                        point,
                    ) == LineSideInfo::Left && cyclic_distance(
                        m.half_edges[first as int].fpos,
                        m.half_edges[stack_items(result)[i] as int].fpos,
                        len,
                    ) == i,
                forall|i: int|
                    0 <= i < stack_items(result).len() - 1 ==> m.next(
                        #[trigger] stack_items(result)[i] as int,
                    ) == stack_items(result)[i + 1],
            ensures
                m.next(last_edge as int) == first || edge_side(
                    m,
                    pos,
                    m.next(last_edge as int),
                    point,
                ) != LineSideInfo::Left,
            decreases len - stack_items(result).len(),
        {
            let ghost before = stack_items(result);
            proof {
                assert(m.edge_ok(last_edge as int));
                assert(m.edge_ok(first as int));
            }
            let next: usize = self.dcel.next(last_edge);
            if next == first {
                break ;
            }
            proof {
                assert(m.edge_ok(next as int));
                assert(m.positions_differ(next as int, first as int));
            }
            let query: LineSideInfo = self.edge_side_query(next, point);
            if query.is_on_left_side() {
                stack_push(&mut result, next);
                last_edge = next;
            } else {
                break ;
            }
        }
        let ghost forward = stack_items(result);
        let forward_last: usize = last_edge;
        last_edge = first;
        let ghost mut back: int = 0;
        loop
            invariant
                self.wf(),
                !self.is_degenerate(),
                point.in_range(),
                m == self.mesh(),
                pos == self.positions(),
                len == m.faces[0].len,
                len <= m.num_half_edges(),
                m.valid_edge(first as int),
                m.face(first as int) == 0,
                0 <= back,
                forward.len() >= 1,
                stack_items(result).len() == forward.len() + back,
                1 <= stack_items(result).len() <= len,
                stack_items(result)[back] == first,
                m.next(forward_last as int) == first ==> back == 0,
                last_edge == stack_items(result)[0],
                forward_last == stack_items(result).last(),
                m.next(forward_last as int) == first || edge_side(
                    m,
                    pos,
                    m.next(forward_last as int),
                    point,
                ) != LineSideInfo::Left,
                forall|i: int|
                    0 <= i < stack_items(result).len() ==> m.valid_edge(
                        #[trigger] stack_items(result)[i] as int,
                    ) && m.face(stack_items(result)[i] as int) == 0 && edge_side(
                        m,
                        pos,
                        stack_items(result)[i] as int,
                        point,
                    ) == LineSideInfo::Left && cyclic_distance(
                        m.half_edges[stack_items(result)[0] as int].fpos,
                        m.half_edges[stack_items(result)[i] as int].fpos,
                        len,
                    ) == i,
                forall|i: int|
                    0 <= i < stack_items(result).len() - 1 ==> m.next(
                        #[trigger] stack_items(result)[i] as int,
                    ) == stack_items(result)[i + 1],
            ensures
                m.prev(last_edge as int) == forward_last || edge_side(
                    m,
                    pos,
                    m.prev(last_edge as int),
                    point,
                ) != LineSideInfo::Left,
            decreases len - stack_items(result).len(),
        {
            let ghost before = stack_items(result);
            proof {
                assert(m.edge_ok(last_edge as int));
                assert(m.edge_ok(forward_last as int));
            }
            let prev: usize = self.dcel.prev(last_edge);
            if prev == forward_last {
                break ;
            }
            proof {
                assert(m.edge_ok(prev as int));
                assert(m.positions_differ(prev as int, forward_last as int));
            }
            let query: LineSideInfo = self.edge_side_query(prev, point);
            if query.is_on_left_side() {
                stack_insert(&mut result, 0, prev);
                last_edge = prev;
                proof {
                    back = back + 1;
                    let after = stack_items(result);
                    assert(after[back] == before[back - 1]);
                    assert(after.last() == before.last());
                    assert forall|i: int| 0 <= i < after.len() implies m.valid_edge(
                        #[trigger] after[i] as int,
                    ) && m.face(after[i] as int) == 0 && edge_side(m, pos, after[i] as int, point)
                        == LineSideInfo::Left && cyclic_distance(
                        m.half_edges[after[0] as int].fpos,
                        m.half_edges[after[i] as int].fpos,
                        len,
                    ) == i by {
                        if i > 0 {
                            assert(after[i] == before[i - 1]);
                            assert(m.edge_ok(before[i - 1] as int));
                        }
                    }
                    assert forall|i: int| 0 <= i < after.len() - 1 implies m.next(
                        #[trigger] after[i] as int,
                    ) == after[i + 1] by {
                        if i > 0 {
                            assert(after[i] == before[i - 1]);
                            assert(after[i + 1] == before[i]);
                        }
                    }
                }
            } else {
                break ;
            }
        }
        proof {
            let run = stack_items(result);
            let rev = run.reverse();
            assert(run[back] == first);
            assert(run.contains(first));
            assert(rev.len() == run.len());
            assert forall|i: int| 0 <= i < rev.len() implies m.valid_edge(#[trigger] rev[i] as int)
                && m.face(rev[i] as int) == 0 by {
                assert(rev[i] == run[run.len() - 1 - i]);
            }
            assert forall|i: int| 0 <= i < rev.len() - 1 implies m.prev(#[trigger] rev[i] as int)
                == rev[i + 1] by {
                assert(rev[i] == run[run.len() - 1 - i]);
                assert(rev[i + 1] == run[run.len() - 2 - i]);
                assert(m.next(run[run.len() - 2 - i] as int) == run[run.len() - 1 - i]);
                assert(m.edge_ok(run[run.len() - 2 - i] as int));
            }
            assert forall|i: int, j: int|
                0 <= i < rev.len() && 0 <= j < rev.len() && i != j implies #[trigger] rev[i]
                != #[trigger] rev[j] by {
                assert(rev[i] == run[run.len() - 1 - i]);
                assert(rev[j] == run[run.len() - 1 - j]);
            }
        }
        result
    }

    /// The hull of a triangulation that is not degenerate has at most as many
    /// half-edges as the mesh.
    proof fn lemma_hull_length(&self)
        requires
            self.wf(),
        ensures
            self.mesh().faces[0].len <= self.mesh().num_half_edges(),
    {
        let m = self.mesh();
        crate::mesh_insert::lemma_face_length_bound(m, 0);
    }
}


impl<V: HasPosition> DelaunayTriangulation<V> {
    /// The mesh after a vertex at `p` has been joined to the hull edges of
    /// `run` and the edges of `run` have been legalized.
    pub open spec fn outside_insertion(m: Mesh, pos: Seq<Point2>, p: Point2, run: Seq<usize>) -> Mesh {
        let fan = m.insert_vertex().attach_fan(run.reverse(), m.num_vertices());
        fan.legalize(pos.push(p), run, p, flip_budget(fan))
    }

    /// Whether the legalization of `outside_insertion` stops short.
    pub open spec fn outside_stops_short(m: Mesh, pos: Seq<Point2>, p: Point2, run: Seq<usize>) -> bool {
        let fan = m.insert_vertex().attach_fan(run.reverse(), m.num_vertices());
        fan.legalize_stops_short(pos.push(p), run, p, flip_budget(fan))
    }

    /// Inserts a vertex with the payload `t`, whose position lies outside the
    /// convex hull, strictly on the left of the hull edge `closest_edge`:
    /// joins it to every hull edge that sees it and legalizes those edges.
    #[verifier::spinoff_prover]
    pub fn insert_outside_convex_hull(&mut self, closest_edge: FixedDirectedEdgeHandle, t: V) -> (v:
        FixedVertexHandle)
        requires
            old(self).wf(),
            !old(self).is_degenerate(),
            location_holds(
                old(self).mesh(),
                old(self).positions(),
                t.position_spec(),
                Location::OutsideConvexHull(closest_edge@),
            ),
            t.position_spec().in_range(),
            3 * old(self).mesh().num_half_edges() + 2 <= usize::MAX / 256,
        ensures
            final(self).wf(),
            !final(self).is_degenerate(),
            v@ == old(self).mesh().num_vertices(),
            final(self).vertex_data() == old(self).vertex_data().push(t),
            final(self).hint_value() == old(self).hint_value(),
            exists|run: Seq<usize>|
                #![trigger visible_run(old(self).mesh(), old(self).positions(), t.position_spec(), closest_edge@, run)]
                visible_run(
                    old(self).mesh(),
                    old(self).positions(),
                    t.position_spec(),
                    closest_edge@,
                    run,
                ) && final(self).mesh() == Self::outside_insertion(
                    old(self).mesh(),
                    old(self).positions(),
                    t.position_spec(),
                    run,
                ) && final(self).mesh().num_faces() == old(self).mesh().num_faces() + run.len()
                    && final(self).stopped_short() == (old(self).stopped_short()
                    || Self::outside_stops_short(
                    old(self).mesh(),
                    old(self).positions(),
                    t.position_spec(),
                    run,
                )),
            old(self).counterclockwise_faces() ==> final(self).counterclockwise_faces() && final(self).stopped_short() == old(self).stopped_short() && (old(self).delaunay_property() ==> settled(
                final(self).mesh(),
                final(self).positions(),
                v@,
            )),
            solid(old(self).mesh()) ==> solid(final(self).mesh()),
    {
        let ghost m = self.mesh();
        let ghost pos = self.positions();
        let position = t.position();
        let mut ch_edges: EdgeStack = self.get_convex_hull_edges_for_point(closest_edge, position);
        let ghost run = stack_items(ch_edges);
        let k: usize = stack_len(&ch_edges);
        let mut chain: Vec<usize> = Vec::new();
        let mut i: usize = k;
        while i > 0
            invariant
                0 <= i <= k,
                k == run.len(),
                run == stack_items(ch_edges),
                chain@.len() == k - i,
                forall|j: int| 0 <= j < chain@.len() ==> #[trigger] chain@[j] == run[k - 1 - j],
            decreases i,
        {
            i = i - 1;
            chain.push(stack_get(&ch_edges, i));
        }
        proof {
            assert(chain@ =~= run.reverse());
            m.lemma_insert_vertex_wf();
            let m1 = m.insert_vertex();
            assert(m1.hull_chain(chain@));
            assert(m1.triangles_except(0)) by {
                assert forall|g: int| 1 <= g < m1.faces.len() && g != 0 implies (
                #[trigger] m1.faces[g]).len == 3 by {
                    assert(m.faces[g].len == 3);
                }
            }
            m1.lemma_attach_fan(chain@, m.num_vertices());
            if self.delaunay_property() {
                assert(m.hull_chain(chain@));
                lemma_attach_fan_settled(m, pos, chain@, t.position_spec());
            }
            if solid(m) {
                assert(m.hull_chain(chain@));
                assert forall|u: int| 0 <= u < m.num_vertices() implies #[trigger] attached_at(
                    m,
                    u,
                ) by {}
                assert forall|j: int| 0 <= j < m.num_half_edges() implies #[trigger] covered_at(
                    m,
                    chain@,
                    0,
                    j,
                ) by {
                    assert(bordered_at(m, j));
                }
                assert forall|e1: int, e2: int|
                    0 <= e1 < m.num_half_edges() && 0 <= e2 < m.num_half_edges() && e1
                        != e2 implies #[trigger] hull_pair_later(m, chain@, e1, e2) by {
                    assert(hull_pair_ok(m, e1, e2));
                }
                assert forall|j: int| 0 <= j < m.num_half_edges() implies #[trigger] hull_end_free(
                    m,
                    chain@,
                    j,
                ) by {
                    let end = chain@[chain@.len() - 1] as int;
                    if j != end {
                        assert(hull_pair_ok(m, j, end));
                    } else {
                        assert(crate::solidity::pending(chain@, 0, j));
                    }
                }
                lemma_attach_fan_solid(m, chain@);
            }
            if all_ccw(m, pos) {
                assert forall|j: int| 0 <= j < chain@.len() implies orient2d(
                    pos[m.origin(#[trigger] chain@[j] as int)],
                    pos[m.target(chain@[j] as int)],
                    t.position_spec(),
                ) > 0 by {
                    assert(chain@[j] == run[run.len() - 1 - j]);
                    assert(edge_side(m, pos, run[run.len() - 1 - j] as int, t.position_spec())
                        == LineSideInfo::Left);
                }
                lemma_attach_fan_ccw(m, pos, chain@, t.position_spec());
            }
        }
        let new_handle: usize = self.dcel.insert_vertex(t);
        attach_fan(&mut self.dcel, &chain, new_handle);
        proof {
            self.dcel.lemma_wf();
            assert(self.positions() =~= pos.push(t.position_spec()));
            if all_ccw(m, pos) {
                assert forall|i: int| 0 <= i < run.len() implies crate::orientation::sees_vertex(
                    self.mesh(),
                    #[trigger] run[i] as int,
                    new_handle as int,
                ) by {
                    assert(run[i] == chain@[run.len() - 1 - i]);
                }
                assert(stack_sees(self.mesh(), stack_items(ch_edges), new_handle as int));
            }
        }
        self.legalize_edges(&mut ch_edges, position);
        proof {
            assert(visible_run(m, pos, t.position_spec(), closest_edge@, run));
        }
        FixedVertexHandle::new(new_handle)
    }
}


impl<V: HasPosition> DelaunayTriangulation<V> {
    /// The mesh of the first triangles: the vertices joined into a chain in
    /// the given order, and a new vertex at `p` joined to every edge of the
    /// chain, from the side on which it lies.
    pub open spec fn first_triangles(
        m: Mesh,
        order: Seq<usize>,
        from: Point2,
        to: Point2,
        p: Point2,
    ) -> Mesh {
        let k = m.num_vertices() - 1;
        let chain = m.build_chain(order, k as nat).insert_vertex();
        if orient2d(p, from, to) >= 0 {
            chain.attach_fan(Mesh::chain_left(k), m.num_vertices())
        } else {
            chain.attach_fan(Mesh::chain_right(k), m.num_vertices())
        }
    }

    /// The vertices in the order of their projections along the direction
    /// from `from` to `to`.
    #[verifier::spinoff_prover]
    fn sorted_by_projection(&self, from: Point2, to: Point2) -> (order: Vec<usize>)
        requires
            self.storage_wf(),
            self.mesh().wf(),
            self.vertex_data().len() == self.mesh().num_vertices(),
            forall|v: int|
                0 <= v < self.vertex_data().len() ==> (
                #[trigger] self.vertex_data()[v]).position_spec().in_range(),
            from.in_range(),
            to.in_range(),
        ensures
            self.mesh().vertex_order(order@),
            sorted_along(self.positions(), from, to, order@),
    {
        let ghost pos = self.positions();
        let n: usize = self.dcel.num_vertices();
        let dx: i64 = to.x - from.x;
        let dy: i64 = to.y - from.y;
        let mut keys: Vec<i64> = Vec::new();
        let mut order: Vec<usize> = Vec::new();
        let mut i: usize = 0;
        while i < n
            invariant
                self.storage_wf(),
                self.mesh().wf(),
                n == self.mesh().num_vertices(),
                self.vertex_data().len() == n,
                pos == self.positions(),
                forall|v: int|
                    0 <= v < self.vertex_data().len() ==> (
                    #[trigger] self.vertex_data()[v]).position_spec().in_range(),
                from.in_range(),
                to.in_range(),
                dx == to.x - from.x,
                dy == to.y - from.y,
                0 <= i <= n,
                keys@.len() == i,
                order@.len() == i,
                forall|v: int| 0 <= v < i ==> #[trigger] order@[v] == v,
                forall|v: int|
                    0 <= v < i ==> #[trigger] keys@[v] == projection_along(from, to, pos[v]),
            decreases n - i,
        {
            let q: Point2 = self.dcel.vertex_data(i).position();
            proof {
                assert(self.vertex_data()[i as int].position_spec().in_range());
                lemma_product_bound(dx as int, q.x as int, 0x4000_0000);
                lemma_product_bound(dy as int, q.y as int, 0x4000_0000);
            }
            keys.push(dx * q.x + dy * q.y);
            order.push(i);
            i = i + 1;
        }
        let mut i: usize = 1;
        while i < n
            invariant
                n == self.mesh().num_vertices(),
                pos == self.positions(),
                keys@.len() == n,
                order@.len() == n,
                1 <= i,
                forall|v: int|
                    0 <= v < n ==> #[trigger] keys@[v] == projection_along(from, to, pos[v]),
                forall|a: int| 0 <= a < n ==> (#[trigger] order@[a]) < n,
                forall|a: int, b: int|
                    0 <= a < n && 0 <= b < n && a != b ==> #[trigger] order@[a]
                        != #[trigger] order@[b],
                forall|a: int, b: int|
                    0 <= a <= b < i && b < n ==> keys@[#[trigger] order@[a] as int]
                        <= keys@[#[trigger] order@[b] as int],
            decreases n - i,
        {
            let mut j: usize = i;
            while j > 0 && keys[order[j - 1]] > keys[order[j]]
                invariant
                    keys@.len() == n,
                    order@.len() == n,
                    0 <= j <= i < n,
                    forall|a: int| 0 <= a < n ==> (#[trigger] order@[a]) < n,
                    forall|a: int, b: int|
                        0 <= a < n && 0 <= b < n && a != b ==> #[trigger] order@[a]
                            != #[trigger] order@[b],
                    forall|a: int, b: int|
                        0 <= a <= b <= i && a != j && b != j ==> keys@[#[trigger] order@[a] as int]
                            <= keys@[#[trigger] order@[b] as int],
                    forall|b: int|
                        j < b <= i ==> keys@[order@[j as int] as int] <= keys@[#[trigger] order@[b] as int],
                decreases j,
            {
                let a: usize = order[j - 1];
                let b: usize = order[j];
                order.set(j - 1, b);
                order.set(j, a);
                j = j - 1;
            }
            i = i + 1;
        }
        proof {
            assert forall|a: int, b: int| 0 <= a <= b < order@.len() implies projection_along(
                from,
                to,
                pos[#[trigger] order@[a] as int],
            ) <= projection_along(from, to, pos[#[trigger] order@[b] as int]) by {
                assert(keys@[order@[a] as int] <= keys@[order@[b] as int]);
            }
        }
        order
    }

    /// The first vertex at the position `point`, if there is one.
    fn find_vertex_at(&self, point: Point2) -> (r: Option<usize>)
        requires
            self.wf(),
        ensures
            crate::dcel::option_int(r) == first_vertex_at(self.positions(), point, 0),
            r.is_some() ==> self.mesh().valid_vertex(r.unwrap() as int),
    {
        let ghost pos = self.positions();
        let n: usize = self.dcel.num_vertices();
        let mut i: usize = 0;
        while i < n
            invariant
                self.wf(),
                pos == self.positions(),
                n == self.mesh().num_vertices(),
                0 <= i <= n,
                forall|u: int| 0 <= u < i ==> pos[u] != point,
            decreases n - i,
        {
            let q: Point2 = self.position_of(i);
            if q.same_position(&point) {
                proof {
                    lemma_first_vertex_at(pos, point, 0);
                }
                return Some(i);
            }
            i = i + 1;
        }
        proof {
            lemma_first_vertex_at(pos, point, 0);
        }
        None
    }

    /// Joins the vertices, which are all isolated, into a chain in the given
    /// order.
    fn build_chain(&mut self, order: &Vec<usize>)
        requires
            old(self).storage_wf(),
            old(self).mesh().wf(),
            old(self).mesh().num_half_edges() == 0,
            old(self).mesh().num_faces() == 1,
            old(self).mesh().vertex_order(order@),
            order@.len() >= 2,
            4 * order@.len() + 2 <= usize::MAX / 256,
        ensures
            final(self).storage_wf(),
            final(self).mesh() == old(self).mesh().build_chain(
                order@,
                (order@.len() - 1) as nat,
            ),
            final(self).mesh().chain_state(order@, order@.len() - 1),
            final(self).vertex_data() == old(self).vertex_data(),
            final(self).hint_value() == old(self).hint_value(),
            final(self).stopped_short() == old(self).stopped_short(),
            final(self).is_degenerate() == old(self).is_degenerate(),
    {
        let ghost m = self.mesh();
        let n: usize = order.len();
        proof {
            m.lemma_no_edges();
            m.lemma_chain_start(order@);
        }
        let mut last_edge: usize = self.dcel.connect_two_isolated_vertices(order[0], order[1], 0);
        let mut k: usize = 1;
        while k + 1 < n
            invariant
                self.dcel.wf(),
                self.dcel.data() == old(self).vertex_data(),
                self.hint_value() == old(self).hint_value(),
                self.stopped_short() == old(self).stopped_short(),
                self.is_degenerate() == old(self).is_degenerate(),
                order@.len() == n,
                4 * n + 2 <= usize::MAX / 256,
                1 <= k < n,
                last_edge == 2 * (k - 1),
                self.dcel.mesh() == m.build_chain(order@, k as nat),
                self.dcel.mesh().chain_state(order@, k as int),
            decreases n - k,
        {
            proof {
                self.dcel.mesh().lemma_chain_step(order@, k as int);
            }
            last_edge = self.dcel.connect_edge_to_isolated_vertex(last_edge, order[k + 1]);
            k = k + 1;
        }
    }

    /// The half-edges of a chain of `k` edges in the order in which a vertex
    /// on the given side is joined to them.
    fn chain_list(k: usize, left: bool) -> (list: Vec<usize>)
        requires
            4 * k + 6 <= usize::MAX,
        ensures
            list@ == (if left {
                Mesh::chain_left(k as int)
            } else {
                Mesh::chain_right(k as int)
            }),
    {
        let mut list: Vec<usize> = Vec::new();
        let mut i: usize = 0;
        while i < k
            invariant
                0 <= i <= k,
                4 * k + 6 <= usize::MAX,
                list@.len() == i,
                forall|j: int|
                    0 <= j < i ==> #[trigger] list@[j] == (if left {
                        Mesh::chain_left(k as int)[j]
                    } else {
                        Mesh::chain_right(k as int)[j]
                    }),
            decreases k - i,
        {
            if left {
                list.push(2 * (k - 1 - i));
            } else {
                list.push(2 * i + 1);
            }
            i = i + 1;
        }
        proof {
            if left {
                assert(list@ =~= Mesh::chain_left(k as int));
            } else {
                assert(list@ =~= Mesh::chain_right(k as int));
            }
        }
        list
    }

    /// Joins the vertices, which are all isolated, into a chain in the order
    /// of their projections along the direction from `from` to `to`, and
    /// joins a new vertex with the payload `t` to every edge of the chain.
    #[verifier::spinoff_prover]
    fn build_first_triangles(&mut self, t: V, from: Point2, to: Point2) -> (v: usize)
        requires
            old(self).wf(),
            old(self).is_degenerate(),
            old(self).mesh().num_vertices() >= 2,
            t.position_spec().in_range(),
            from.in_range(),
            to.in_range(),
            4 * old(self).mesh().num_vertices() + 2 <= usize::MAX / 256,
        ensures
            final(self).wf(),
            !final(self).is_degenerate(),
            final(self).hint_value() == old(self).hint_value(),
            final(self).stopped_short() == old(self).stopped_short(),
            v == old(self).mesh().num_vertices(),
            final(self).vertex_data() == old(self).vertex_data().push(t),
            final(self).mesh().num_faces() == old(self).mesh().num_vertices(),
            exists|order: Seq<usize>|
                #![trigger old(self).mesh().vertex_order(order)]
                old(self).mesh().vertex_order(order) && sorted_along(
                    old(self).positions(),
                    from,
                    to,
                    order,
                ) && final(self).mesh() == Self::first_triangles(
                    old(self).mesh(),
                    order,
                    from,
                    to,
                    t.position_spec(),
                ),
            on_one_line(old(self).positions()) && from == old(self).positions()[0] && to == old(self).positions()[1] && orient2d(from, to, t.position_spec()) != 0 ==> final(self).counterclockwise_faces(),
            solid(final(self).mesh()),
            settled(final(self).mesh(), final(self).positions(), v as int),
    {
        let ghost m = self.mesh();
        let ghost pos = self.positions();
        let new_pos: Point2 = t.position();
        let order: Vec<usize> = self.sorted_by_projection(from, to);
        let is_ccw: bool = is_ordered_ccw(new_pos, from, to);
        let k: usize = order.len() - 1;
        self.build_chain(&order);
        let ghost chain_mesh = self.mesh();
        let list: Vec<usize> = Self::chain_list(k, is_ccw);
        proof {
            chain_mesh.lemma_chain_fan(order@, k as int, is_ccw);
            lemma_first_triangles_solid(chain_mesh, order@, is_ccw);
            crate::locality::lemma_first_triangles_settled(chain_mesh, pos, order@, new_pos, is_ccw);
            if on_one_line(pos) && from == pos[0] && to == pos[1] && orient2d(from, to, new_pos)
                != 0 {
                crate::geometry::lemma_orient2d_rotate(from, to, new_pos);
                lemma_first_triangles_ccw(chain_mesh, pos, order@, new_pos, is_ccw);
            }
        }
        let new_vertex: usize = self.dcel.insert_vertex(t);
        attach_fan(&mut self.dcel, &list, new_vertex);
        self.all_points_on_line = false;
        proof {
            self.dcel.lemma_wf();
            assert(self.mesh() == Self::first_triangles(m, order@, from, to, new_pos));
            assert(m.vertex_order(order@));
            assert(self.positions() =~= pos.push(new_pos));
        }
        new_vertex
    }

    /// Inserts a vertex with the payload `t` while all points lie on one
    /// line.
    ///
    /// Where a vertex has the position of `t` already, its payload is
    /// replaced and its handle returned as `Err`. Where the new point lies on
    /// the line of the others, it is added as an isolated vertex. Else the
    /// other vertices are joined into a chain along their line, and the new
    /// vertex is joined to every edge of the chain: the first triangles.
    #[verifier::spinoff_prover]
    pub fn initial_insertion(&mut self, t: V) -> (r: Result<FixedVertexHandle, FixedVertexHandle>)
        requires
            old(self).wf(),
            old(self).is_degenerate(),
            t.position_spec().in_range(),
            4 * old(self).mesh().num_vertices() + 2 <= usize::MAX / 256,
        ensures
            final(self).wf(),
            final(self).hint_value() == old(self).hint_value(),
            final(self).stopped_short() == old(self).stopped_short(),
            old(self).oriented() ==> final(self).oriented(),
            r.is_ok() ==> settled(final(self).mesh(), final(self).positions(), r.unwrap()@),
            match first_vertex_at(old(self).positions(), t.position_spec(), 0) {
                Some(u) => {
                    &&& r.is_err()
                    &&& r.unwrap_err()@ == u
                    &&& final(self).mesh() == old(self).mesh()
                    &&& final(self).vertex_data() == old(self).vertex_data().update(u, t)
                    &&& final(self).is_degenerate()
                },
                None => {
                    &&& r.is_ok()
                    &&& r.unwrap()@ == old(self).mesh().num_vertices()
                    &&& final(self).vertex_data() == old(self).vertex_data().push(t)
                    &&& if old(self).mesh().num_vertices() <= 1 || orient2d(
                        old(self).positions()[0],
                        old(self).positions()[1],
                        t.position_spec(),
                    ) == 0 {
                        &&& final(self).is_degenerate()
                        &&& final(self).mesh() == old(self).mesh().insert_vertex()
                    } else {
                        &&& !final(self).is_degenerate()
                        &&& final(self).mesh().num_faces() == old(self).mesh().num_vertices()
                        &&& exists|order: Seq<usize>|
                            #![trigger old(self).mesh().vertex_order(order)]
                            old(self).mesh().vertex_order(order) && sorted_along(
                                old(self).positions(),
                                old(self).positions()[0],
                                old(self).positions()[1],
                                order,
                            ) && final(self).mesh() == Self::first_triangles(
                                old(self).mesh(),
                                order,
                                old(self).positions()[0],
                                old(self).positions()[1],
                                t.position_spec(),
                            )
                    }
                },
            },
    {
        let ghost m = self.mesh();
        let ghost pos = self.positions();
        let new_pos: Point2 = t.position();
        proof {
            lemma_first_vertex_at(pos, new_pos, 0);
        }
        match self.find_vertex_at(new_pos) {
            Some(u) => {
                self.dcel.update_vertex(u, t);
                proof {
                    self.dcel.lemma_wf();
                    assert(self.positions() =~= pos);
                }
                return Err(FixedVertexHandle::new(u));
            },
            None => {},
        }
        let n: usize = self.dcel.num_vertices();
        if n <= 1 {
            proof {
                m.lemma_insert_vertex_wf();
            }
            let v: usize = self.dcel.insert_vertex(t);
            proof {
                self.dcel.lemma_wf();
                let q = self.positions();
                assert(q =~= pos.push(new_pos));
                if q.len() == 2 {
                    assert(orient2d(q[0], q[1], q[0]) == 0) by (nonlinear_arith);
                    assert(orient2d(q[0], q[1], q[1]) == 0) by (nonlinear_arith);
                }
            }
            return Ok(FixedVertexHandle::new(v));
        }
        let from: Point2 = self.position_of(0);
        let to: Point2 = self.position_of(1);
        if side_query(from, to, new_pos).is_on_line() {
            proof {
                m.lemma_insert_vertex_wf();
            }
            let v: usize = self.dcel.insert_vertex(t);
            proof {
                self.dcel.lemma_wf();
                assert(self.positions() =~= pos.push(new_pos));
            }
            return Ok(FixedVertexHandle::new(v));
        }
        let v: usize = self.build_first_triangles(t, from, to);
        Ok(FixedVertexHandle::new(v))
    }
}


/// Why a vertex could not be inserted.
#[derive(Clone, Copy, Debug, PartialEq, Eq)]
pub enum InsertionError {
    /// A coordinate of the position is too large for the exact predicates.
    CoordinateOutOfRange,
    /// The triangulation holds so many elements that their indices may not
    /// fit after the insertion.
    TooManyElements,
    /// The position has no place in the mesh: it is no vertex, lies in no
    /// triangle, on no edge, and on the left of no edge of the hull.
    LocationFailed,
}

/// The largest number of vertices, and of half-edges, with which a
/// triangulation takes another vertex.
pub open spec fn element_limit() -> int {
    (usize::MAX / 2048) as int
}

impl<V: HasPosition> DelaunayTriangulation<V> {
    /// The vertex from which a walk starts: the hint where there is one, the
    /// default else.
    pub open spec fn start_vertex(&self, hint: Option<FixedVertexHandle>) -> int {
        match hint {
            Some(h) => h@,
            None => self.default_hint(),
        }
    }

    /// A triangulation that is not degenerate has a vertex.
    pub proof fn lemma_has_vertex(&self)
        requires
            self.wf(),
            !self.is_degenerate(),
        ensures
            self.mesh().num_vertices() >= 1,
            self.mesh().num_half_edges() >= 1,
            self.mesh().valid_vertex(self.default_hint()),
    {
        let m = self.mesh();
        assert(m.faces[1].len == 3);
        assert(m.face_ok(1));
        assert(m.edge_ok(m.faces[1].edge.unwrap()));
    }

    /// Nothing but the remembered start of walks differs between `self` and
    /// `other`.
    pub open spec fn same_content(&self, other: &Self) -> bool {
        &&& self.mesh() == other.mesh()
        &&& self.vertex_data() == other.vertex_data()
        &&& self.is_degenerate() == other.is_degenerate()
        &&& self.stopped_short() == other.stopped_short()
    }

    /// Locates `point`. While the triangulation is degenerate, the answer is
    /// the first vertex at `point`, or that no triangulation is present. Else
    /// it is the vertex that is kept for `point` where one lies there, and
    /// otherwise the result of a walk that starts at `hint`, or at a vertex
    /// that the triangulation remembers.
    ///
    /// A vertex at `point` is always found. Returns `None` only where the
    /// triangulation is not degenerate and the point has no place in its
    /// mesh.
    pub fn locate_with_hint_option_fixed(&self, point: Point2, hint: Option<FixedVertexHandle>) -> (r:
        Option<PositionInTriangulation>)
        requires
            self.wf(),
            point.in_range(),
            hint.is_some() ==> self.mesh().valid_vertex(hint.unwrap()@),
        ensures
            option_location(r) == self.locate_spec(point, self.start_vertex(hint)),
            r.is_some() ==> location_holds(self.mesh(), self.positions(), point, r.unwrap()@),
            self.is_degenerate() ==> r.is_some(),
            r.is_none() ==> forall|loc: Location| !#[trigger]
                location_holds(self.mesh(), self.positions(), point, loc),
            self.indexed() ==> forall|v: int|
                self.mesh().valid_vertex(v) && self.positions()[v] == point ==> option_location(r)
                    == Some(Location::OnPoint(v)),
    {
        if self.all_points_on_line {
            proof {
                lemma_first_vertex_at(self.positions(), point, 0);
                self.dcel.lemma_wf();
                if self.indexed() {
                    assert forall|v: int|
                        self.mesh().valid_vertex(v) && self.positions()[v]
                            == point implies first_vertex_at(self.positions(), point, 0) == Some(
                        v,
                    ) by {
                        let u = first_vertex_at(self.positions(), point, 0).unwrap();
                        lemma_index_distinct(
                            self.hint_value().entries,
                            self.positions(),
                            u,
                            v,
                        );
                    }
                }
            }
            match self.find_vertex_at(point) {
                Some(v) => Some(PositionInTriangulation::OnPoint(FixedVertexHandle::new(v))),
                None => Some(PositionInTriangulation::NoTriangulationPresent),
            }
        } else {
            proof {
                self.lemma_has_vertex();
            }
            let start: FixedVertexHandle = match hint {
                Some(h) => h,
                None => self.get_default_hint(point),
            };
            self.locate_with_hint_fixed(point, start)
        }
    }

    /// Locates `point`, with a walk that starts at a vertex that the
    /// triangulation remembers.
    pub fn locate(&self, point: Point2) -> (r: Option<PositionInTriangulation>)
        requires
            self.wf(),
            point.in_range(),
        ensures
            option_location(r) == self.locate_spec(point, self.default_hint()),
            r.is_some() ==> location_holds(self.mesh(), self.positions(), point, r.unwrap()@),
            self.is_degenerate() ==> r.is_some(),
            r.is_none() ==> forall|loc: Location| !#[trigger]
                location_holds(self.mesh(), self.positions(), point, loc),
            self.indexed() ==> forall|v: int|
                self.mesh().valid_vertex(v) && self.positions()[v] == point ==> option_location(r)
                    == Some(Location::OnPoint(v)),
    {
        self.locate_with_hint_option_fixed(point, None)
    }

    /// Locates `point`, with a walk that starts at the vertex `hint`.
    pub fn locate_with_hint(&self, point: Point2, hint: FixedVertexHandle) -> (r: Option<
        PositionInTriangulation,
    >)
        requires
            self.wf(),
            point.in_range(),
            self.mesh().valid_vertex(hint@),
        ensures
            option_location(r) == self.locate_spec(point, hint@),
            r.is_some() ==> location_holds(self.mesh(), self.positions(), point, r.unwrap()@),
            self.is_degenerate() ==> r.is_some(),
            r.is_none() ==> forall|loc: Location| !#[trigger]
                location_holds(self.mesh(), self.positions(), point, loc),
            self.indexed() ==> forall|v: int|
                self.mesh().valid_vertex(v) && self.positions()[v] == point ==> option_location(r)
                    == Some(Location::OnPoint(v)),
    {
        self.locate_with_hint_option_fixed(point, Some(hint))
    }

    /// The vertex at `point`, if the walk from `hint` finds one there.
    pub fn locate_vertex_with_hint(&self, point: Point2, hint: FixedVertexHandle) -> (r: Option<
        FixedVertexHandle,
    >)
        requires
            self.wf(),
            point.in_range(),
            self.mesh().valid_vertex(hint@),
        ensures
            match self.locate_spec(point, hint@) {
                Some(Location::OnPoint(v)) => r.is_some() && r.unwrap()@ == v,
                _ => r.is_none(),
            },
            r.is_some() ==> self.mesh().valid_vertex(r.unwrap()@) && self.positions()[r.unwrap()@]
                == point,
            self.indexed() ==> forall|v: int|
                self.mesh().valid_vertex(v) && self.positions()[v] == point ==> r.is_some()
                    && r.unwrap()@ == v,
    {
        match self.locate_with_hint(point, hint) {
            Some(PositionInTriangulation::OnPoint(h)) => Some(h),
            _ => None,
        }
    }

    /// Decides whether the edges at the vertex `v` and those opposite to it
    /// are locally Delaunay.
    fn star_is_delaunay(&self, v: usize) -> (b: bool)
        requires
            self.wf(),
            self.mesh().valid_vertex(v as int),
        ensures
            b == star_delaunay(self.mesh(), self.positions(), v as int),
    {
        let ghost m = self.mesh();
        let ghost pos = self.positions();
        proof {
            self.dcel.lemma_wf();
        }
        let ring: Vec<usize> = self.dcel.out_edges_ccw(v);
        let mut k: usize = 0;
        while k < ring.len()
            invariant
                self.wf(),
                m == self.mesh(),
                pos == self.positions(),
                0 <= k <= ring@.len(),
                forall|i: int|
                    0 <= i < ring@.len() ==> m.valid_edge(#[trigger] ring@[i] as int) && m.origin(
                        ring@[i] as int,
                    ) == v,
                forall|i: int| 0 <= i < k ==> spoke_delaunay(m, pos, #[trigger] ring@[i] as int),
            decreases ring@.len() - k,
        {
            let s: usize = ring[k];
            proof {
                assert(m.edge_ok(s as int));
                assert(m.edge_ok(m.next(s as int)));
            }
            let next: usize = self.dcel.next(s);
            if !(self.is_delaunay_at(s) && self.is_delaunay_at(self.dcel.twin(s))
                && self.is_delaunay_at(next) && self.is_delaunay_at(self.dcel.twin(next))) {
                proof {
                    assert(!spoke_delaunay(m, pos, s as int));
                }
                return false;
            }
            k = k + 1;
        }
        proof {
            assert forall|s: int| 0 <= s < m.num_half_edges() && m.origin(s) == v implies #[trigger] spoke_delaunay(
                m,
                pos,
                s,
            ) by {
                assert(ring@.contains(s as usize));
                let i = choose|i: int| 0 <= i < ring@.len() && ring@[i] == s as usize;
                assert(spoke_delaunay(m, pos, ring@[i] as int));
            }
        }
        true
    }

    /// Looks at the edges around the newly inserted vertex `v` and notes it
    /// where one of them is not locally Delaunay.
    fn check_star(&mut self, v: usize)
        requires
            old(self).wf(),
            old(self).mesh().valid_vertex(v as int),
        ensures
            final(self).wf(),
            final(self).mesh() == old(self).mesh(),
            final(self).vertex_data() == old(self).vertex_data(),
            final(self).is_degenerate() == old(self).is_degenerate(),
            final(self).hint_value() == old(self).hint_value(),
            final(self).stopped_short() == (old(self).stopped_short() || !star_delaunay(
                old(self).mesh(),
                old(self).positions(),
                v as int,
            )),
            !final(self).stopped_short() && settled(old(self).mesh(), old(self).positions(), v as int)
                ==> final(self).delaunay_property(),
    {
        proof {
            self.dcel.lemma_wf();
            if !self.is_degenerate() && settled(self.mesh(), self.positions(), v as int)
                && star_delaunay(self.mesh(), self.positions(), v as int) {
                lemma_settled_star(self.mesh(), self.positions(), v as int);
            }
            if self.is_degenerate() {
                self.mesh().lemma_no_edges();
            }
        }
        if !self.star_is_delaunay(v) {
            self.stopped_short = true;
        }
    }

    /// A triangulation that has taken a vertex at a position where none lay,
    /// and has entered it under that position, keeps every vertex under the
    /// key of its position.
    proof fn lemma_entered(pre: &Self, post: &Self, p: Point2)
        requires
            pre.wf(),
            p.in_range(),
            pre.indexed() ==> forall|v: int|
                0 <= v < pre.positions().len() ==> pre.positions()[v] != p,
            post.positions() =~= pre.positions().push(p),
            post.hint_value().entries == pre.hint_value().entries.insert(
                position_key(p),
                pre.positions().len() as usize,
            ),
        ensures
            pre.indexed() ==> post.indexed(),
    {
        pre.dcel.lemma_wf();
        if pre.indexed() {
            assert(all_in_range(pre.positions()));
            lemma_index_after_insertion(pre.hint_value().entries, pre.positions(), p);
        }
    }

    /// What an insertion of `t` does to the triangulation `pre`, where the
    /// position of `t` has been located at `loc`: `post` is the
    /// triangulation afterwards and `v` the vertex that carries `t`.
    pub open spec fn insertion_at(pre: &Self, post: &Self, t: V, loc: Location, v: int) -> bool {
        let p = t.position_spec();
        match loc {
            Location::OnPoint(u) => {
                &&& v == u
                &&& post.mesh() == pre.mesh()
                &&& post.vertex_data() == pre.vertex_data().update(u, t)
                &&& post.is_degenerate() == pre.is_degenerate()
                &&& post.stopped_short() == pre.stopped_short()
            },
            Location::InTriangle(f) => {
                &&& v == pre.mesh().num_vertices()
                &&& post.vertex_data() == pre.vertex_data().push(t)
                &&& !post.is_degenerate()
                &&& post.mesh() == pre.mesh().insert_into_triangle(f).legalize(
                    pre.positions().push(p),
                    pre.mesh().triangle_stack(f),
                    p,
                    flip_budget(pre.mesh().insert_into_triangle(f)),
                )
                &&& post.stopped_short() == (pre.stopped_short() || pre.mesh().insert_into_triangle(
                    f,
                ).legalize_stops_short(
                    pre.positions().push(p),
                    pre.mesh().triangle_stack(f),
                    p,
                    flip_budget(pre.mesh().insert_into_triangle(f)),
                ) || !star_delaunay(post.mesh(), post.positions(), v))
            },
            Location::OnEdge(e) => {
                &&& v == pre.mesh().num_vertices()
                &&& post.vertex_data() == pre.vertex_data().push(t)
                &&& !post.is_degenerate()
                &&& post.mesh() == pre.mesh().insert_on_edge(e).legalize(
                    pre.positions().push(p),
                    pre.mesh().edge_stack(e),
                    p,
                    flip_budget(pre.mesh().insert_on_edge(e)),
                )
                &&& post.stopped_short() == (pre.stopped_short() || pre.mesh().insert_on_edge(
                    e,
                ).legalize_stops_short(
                    pre.positions().push(p),
                    pre.mesh().edge_stack(e),
                    p,
                    flip_budget(pre.mesh().insert_on_edge(e)),
                ) || !star_delaunay(post.mesh(), post.positions(), v))
            },
            Location::OutsideConvexHull(e) => {
                &&& v == pre.mesh().num_vertices()
                &&& post.vertex_data() == pre.vertex_data().push(t)
                &&& !post.is_degenerate()
                &&& exists|run: Seq<usize>|
                    #![trigger visible_run(pre.mesh(), pre.positions(), p, e, run)]
                    visible_run(pre.mesh(), pre.positions(), p, e, run) && post.mesh()
                        == Self::outside_insertion(pre.mesh(), pre.positions(), p, run)
                        && post.stopped_short() == (pre.stopped_short() || Self::outside_stops_short(
                        pre.mesh(),
                        pre.positions(),
                        p,
                        run,
                    ) || !star_delaunay(post.mesh(), post.positions(), v))
            },

            Location::NoTriangulationPresent => {
                &&& v == pre.mesh().num_vertices()
                &&& post.vertex_data() == pre.vertex_data().push(t)
                &&& post.stopped_short() == (pre.stopped_short() || !star_delaunay(
                    post.mesh(),
                    post.positions(),
                    v,
                ))
                &&& if pre.mesh().num_vertices() <= 1 || orient2d(
                    pre.positions()[0],
                    pre.positions()[1],
                    p,
                ) == 0 {
                    &&& post.is_degenerate()
                    &&& post.mesh() == pre.mesh().insert_vertex()
                } else {
                    &&& !post.is_degenerate()
                    &&& exists|order: Seq<usize>|
                        #![trigger pre.mesh().vertex_order(order)]
                        pre.mesh().vertex_order(order) && sorted_along(
                            pre.positions(),
                            pre.positions()[0],
                            pre.positions()[1],
                            order,
                        ) && post.mesh() == Self::first_triangles(
                            pre.mesh(),
                            order,
                            pre.positions()[0],
                            pre.positions()[1],
                            p,
                        )
                }
            },
        }
    }

    /// Inserts a vertex with the payload `t`. Where a vertex has the position
    /// of `t` already, its payload is replaced and its handle returned.
    ///
    /// Where the legalization uses up its flips, the insertion goes on
    /// without it and `has_stopped_short` reports it from then on. It
    /// reports too where an edge at the new vertex, or opposite to it, is not
    /// locally Delaunay in the end.
    ///
    /// The position is located by a walk that starts at `hint`, or at a
    /// vertex that the triangulation remembers. An insertion that fails
    /// leaves the triangulation as it was.
    #[verifier::spinoff_prover]
    pub fn insert_with_hint_option(&mut self, t: V, hint: Option<FixedVertexHandle>) -> (r: Result<
        FixedVertexHandle,
        InsertionError,
    >)
        requires
            old(self).wf(),
            hint.is_some() ==> old(self).mesh().valid_vertex(hint.unwrap()@),
        ensures
            final(self).wf(),
            old(self).oriented() ==> final(self).oriented(),
            old(self).oriented() && old(self).delaunay_property() && !final(self).stopped_short()
                ==> final(self).delaunay_property(),
            old(self).indexed() ==> final(self).indexed(),
            old(self).stopped_short() ==> final(self).stopped_short(),
            old(self).valid() ==> final(self).valid(),
            r.is_err() ==> final(self).same_content(old(self)),
            r == Err::<FixedVertexHandle, InsertionError>(InsertionError::LocationFailed)
                ==> forall|loc: Location| !#[trigger]
                location_holds(old(self).mesh(), old(self).positions(), t.position_spec(), loc),
            !t.position_spec().in_range() ==> r == Err::<FixedVertexHandle, InsertionError>(
                InsertionError::CoordinateOutOfRange,
            ),
            t.position_spec().in_range() && (old(self).mesh().num_vertices() > element_limit()
                || old(self).mesh().num_half_edges() > element_limit()) ==> r == Err::<
                FixedVertexHandle,
                InsertionError,
            >(InsertionError::TooManyElements),
            t.position_spec().in_range() && old(self).mesh().num_vertices() <= element_limit()
                && old(self).mesh().num_half_edges() <= element_limit() ==> (match old(self).locate_spec(t.position_spec(), old(self).start_vertex(hint)) {
                None => r == Err::<FixedVertexHandle, InsertionError>(
                    InsertionError::LocationFailed,
                ),
                Some(loc) => r.is_ok() && Self::insertion_at(
                    old(self),
                    final(self),
                    t,
                    loc,
                    r.unwrap()@,
                ),
            }),
            r.is_ok() ==> final(self).mesh().valid_vertex(r.unwrap()@) && final(self).vertex_data()[r.unwrap()@] == t,
    {
        let pos: Point2 = t.position();
        if !pos.is_in_range() {
            return Err(InsertionError::CoordinateOutOfRange);
        }
        let limit: usize = usize::MAX / 2048;
        if self.dcel.num_vertices() > limit || self.dcel.num_half_edges() > limit {
            return Err(InsertionError::TooManyElements);
        }
        let located: Option<PositionInTriangulation> = self.locate_with_hint_option_fixed(
            pos,
            hint,
        );
        let ghost pre = *self;
        match located {
            None => Err(InsertionError::LocationFailed),
            Some(PositionInTriangulation::OutsideConvexHull(edge)) => {
                let v = self.insert_outside_convex_hull(edge, t);
                self.hint.insert_vertex_entry(pos, v.index());
                proof {
                    Self::lemma_entered(&pre, self, pos);
                }
                self.check_star(v.index());
                Ok(v)
            },
            Some(PositionInTriangulation::InTriangle(face)) => {
                let v = self.insert_into_triangle(face, t);
                self.hint.insert_vertex_entry(pos, v.index());
                proof {
                    Self::lemma_entered(&pre, self, pos);
                }
                self.check_star(v.index());
                Ok(v)
            },
            Some(PositionInTriangulation::OnEdge(edge)) => {
                let v = self.insert_on_edge(edge, t);
                self.hint.insert_vertex_entry(pos, v.index());
                proof {
                    Self::lemma_entered(&pre, self, pos);
                }
                self.check_star(v.index());
                Ok(v)
            },
            Some(PositionInTriangulation::OnPoint(vertex)) => {
                let ghost before = self.positions();
                self.dcel.update_vertex(vertex.index(), t);
                proof {
                    self.dcel.lemma_wf();
                    assert(self.positions() =~= before);
                }
                Ok(vertex)
            },
            Some(PositionInTriangulation::NoTriangulationPresent) => {
                proof {
                    lemma_first_vertex_at(self.positions(), pos, 0);
                    if !self.is_degenerate() {
                        self.lemma_has_vertex();
                    }
                }
                match self.initial_insertion(t) {
                    Ok(v) => {
                        self.hint.insert_vertex_entry(pos, v.index());
                        proof {
                            Self::lemma_entered(&pre, self, pos);
                        }
                        self.check_star(v.index());
                        Ok(v)
                    },
                    Err(v) => Ok(v),
                }
            },
        }
    }

    /// Inserts a vertex with the payload `t`. Where a vertex has the position
    /// of `t` already, its payload is replaced and its handle returned.
    ///
    /// Where the legalization uses up its flips, the insertion goes on
    /// without it and `has_stopped_short` reports it from then on. It
    /// reports too where an edge at the new vertex, or opposite to it, is not
    /// locally Delaunay in the end.
    pub fn insert(&mut self, t: V) -> (r: Result<FixedVertexHandle, InsertionError>)
        requires
            old(self).wf(),
        ensures
            final(self).wf(),
            old(self).oriented() ==> final(self).oriented(),
            old(self).oriented() && old(self).delaunay_property() && !final(self).stopped_short()
                ==> final(self).delaunay_property(),
            old(self).indexed() ==> final(self).indexed(),
            old(self).stopped_short() ==> final(self).stopped_short(),
            old(self).valid() ==> final(self).valid(),
            r.is_err() ==> final(self).same_content(old(self)),
            r == Err::<FixedVertexHandle, InsertionError>(InsertionError::LocationFailed)
                ==> forall|loc: Location| !#[trigger]
                location_holds(old(self).mesh(), old(self).positions(), t.position_spec(), loc),
            !t.position_spec().in_range() ==> r == Err::<FixedVertexHandle, InsertionError>(
                InsertionError::CoordinateOutOfRange,
            ),
            t.position_spec().in_range() && (old(self).mesh().num_vertices() > element_limit()
                || old(self).mesh().num_half_edges() > element_limit()) ==> r == Err::<
                FixedVertexHandle,
                InsertionError,
            >(InsertionError::TooManyElements),
            t.position_spec().in_range() && old(self).mesh().num_vertices() <= element_limit()
                && old(self).mesh().num_half_edges() <= element_limit() ==> (match old(self).locate_spec(t.position_spec(), old(self).default_hint()) {
                None => r == Err::<FixedVertexHandle, InsertionError>(
                    InsertionError::LocationFailed,
                ),
                Some(loc) => r.is_ok() && Self::insertion_at(
                    old(self),
                    final(self),
                    t,
                    loc,
                    r.unwrap()@,
                ),
            }),
            r.is_ok() ==> final(self).mesh().valid_vertex(r.unwrap()@) && final(self).vertex_data()[r.unwrap()@] == t,
    {
        self.insert_with_hint_option(t, None)
    }

    /// Inserts a vertex with the payload `t`, locating its position by a walk
    /// that starts at the vertex `hint`.
    pub fn insert_with_hint(&mut self, t: V, hint: FixedVertexHandle) -> (r: Result<
        FixedVertexHandle,
        InsertionError,
    >)
        requires
            old(self).wf(),
            old(self).mesh().valid_vertex(hint@),
        ensures
            final(self).wf(),
            old(self).oriented() ==> final(self).oriented(),
            old(self).oriented() && old(self).delaunay_property() && !final(self).stopped_short()
                ==> final(self).delaunay_property(),
            old(self).indexed() ==> final(self).indexed(),
            old(self).stopped_short() ==> final(self).stopped_short(),
            old(self).valid() ==> final(self).valid(),
            r.is_err() ==> final(self).same_content(old(self)),
            r.is_ok() ==> final(self).mesh().valid_vertex(r.unwrap()@) && final(self).vertex_data()[r.unwrap()@] == t,
            t.position_spec().in_range() && old(self).mesh().num_vertices() <= element_limit()
                && old(self).mesh().num_half_edges() <= element_limit() ==> (match old(self).locate_spec(t.position_spec(), hint@) {
                None => r == Err::<FixedVertexHandle, InsertionError>(
                    InsertionError::LocationFailed,
                ),
                Some(loc) => r.is_ok() && Self::insertion_at(
                    old(self),
                    final(self),
                    t,
                    loc,
                    r.unwrap()@,
                ),
            }),
    {
        self.insert_with_hint_option(t, Some(hint))
    }
}


/// The edge of the half-edge `e` is locally Delaunay: where it lies between
/// two inner faces, the apex of the face on its right does not lie strictly
/// inside the circle through the corners of the face on its left.
pub open spec fn delaunay_at(m: Mesh, pos: Seq<Point2>, e: int) -> bool {
    let t = twin_index(e);
    m.face(e) != 0 && m.face(t) != 0 ==> incircle_det(
        pos[m.origin(e)],
        pos[m.target(e)],
        pos[m.apex(e)],
        pos[m.apex(t)],
    ) <= 0
}

impl<V: HasPosition> DelaunayTriangulation<V> {
    /// Every edge between two triangles is locally Delaunay.
    pub open spec fn delaunay_property(&self) -> bool {
        forall|e: int|
            0 <= e < self.mesh().num_half_edges() ==> #[trigger] delaunay_at(
                self.mesh(),
                self.positions(),
                e,
            )
    }

    /// The corners of every triangle are in counterclockwise order.
    pub open spec fn counterclockwise_faces(&self) -> bool {
        all_ccw(self.mesh(), self.positions())
    }

    /// The vertex with the handle `handle`.
    pub fn vertex(&self, handle: FixedVertexHandle) -> (r: VertexHandle<'_, V>)
        requires
            self.wf(),
            self.mesh().valid_vertex(handle@),
        ensures
            r.wf(),
            r.mesh() == self.mesh(),
            r.vertex_data() == self.vertex_data(),
            r.fix_spec() == handle,
            self.oriented() && !self.is_degenerate() ==> solid(r.mesh()) && no_loops(r.mesh())
                && ends_apart(r.mesh(), positions_of(r.vertex_data())),
    {
        proof {
            if self.oriented() && !self.is_degenerate() {
                lemma_solid_edges(self.mesh(), self.positions());
            }
        }
        DynamicHandleImpl::new(&self.dcel, handle)
    }

    /// The face with the handle `handle`.
    pub fn face(&self, handle: FixedFaceHandle<PossiblyOuterTag>) -> (r: FaceHandle<
        '_,
        PossiblyOuterTag,
        V,
    >)
        requires
            self.wf(),
            self.mesh().valid_face(handle@),
        ensures
            r.wf(),
            r.mesh() == self.mesh(),
            r.vertex_data() == self.vertex_data(),
            r.fix_spec() == handle,
            self.oriented() && !self.is_degenerate() ==> solid(r.mesh()) && no_loops(r.mesh())
                && ends_apart(r.mesh(), positions_of(r.vertex_data())),
    {
        proof {
            if self.oriented() && !self.is_degenerate() {
                lemma_solid_edges(self.mesh(), self.positions());
            }
        }
        DynamicHandleImpl::new(&self.dcel, handle)
    }

    /// The directed edge with the handle `handle`.
    pub fn directed_edge(&self, handle: FixedDirectedEdgeHandle) -> (r: DirectedEdgeHandle<'_, V>)
        requires
            self.wf(),
            self.mesh().valid_edge(handle@),
        ensures
            r.wf(),
            r.mesh() == self.mesh(),
            r.vertex_data() == self.vertex_data(),
            r.fix_spec() == handle,
            self.oriented() && !self.is_degenerate() ==> solid(r.mesh()) && no_loops(r.mesh())
                && ends_apart(r.mesh(), positions_of(r.vertex_data())),
    {
        proof {
            if self.oriented() && !self.is_degenerate() {
                lemma_solid_edges(self.mesh(), self.positions());
            }
        }
        DynamicHandleImpl::new(&self.dcel, handle)
    }

    /// The undirected edge with the handle `handle`.
    pub fn undirected_edge(&self, handle: FixedUndirectedEdgeHandle) -> (r: UndirectedEdgeHandle<
        '_,
        V,
    >)
        requires
            self.wf(),
            self.mesh().valid_edge(2 * handle@),
        ensures
            r.wf(),
            r.mesh() == self.mesh(),
            r.vertex_data() == self.vertex_data(),
            r.fix_spec() == handle,
            self.oriented() && !self.is_degenerate() ==> solid(r.mesh()) && no_loops(r.mesh())
                && ends_apart(r.mesh(), positions_of(r.vertex_data())),
    {
        proof {
            if self.oriented() && !self.is_degenerate() {
                lemma_solid_edges(self.mesh(), self.positions());
            }
        }
        DynamicHandleImpl::new(&self.dcel, handle)
    }

    /// The outer face.
    pub fn infinite_face(&self) -> (r: FaceHandle<'_, PossiblyOuterTag, V>)
        requires
            self.wf(),
        ensures
            r.wf(),
            r.mesh() == self.mesh(),
            r.fix_spec()@ == 0,
    {
        DynamicHandleImpl::new(&self.dcel, FixedFaceHandle::outer())
    }

    /// Whether the edge of the half-edge `e` is locally Delaunay.
    fn is_delaunay_at(&self, e: usize) -> (b: bool)
        requires
            self.wf(),
            self.mesh().valid_edge(e as int),
        ensures
            b == delaunay_at(self.mesh(), self.positions(), e as int),
    {
        let ghost m = self.mesh();
        proof {
            assert(m.edge_ok(e as int));
            assert(m.edge_ok(twin_index(e as int)));
        }
        let t: usize = self.dcel.twin(e);
        if self.dcel.face(e) == 0 || self.dcel.face(t) == 0 {
            return true;
        }
        let a = self.position_of(self.dcel.origin(e));
        let b = self.position_of(self.dcel.origin(t));
        let c = self.position_of(self.dcel.origin(self.dcel.prev(e)));
        let d = self.position_of(self.dcel.origin(self.dcel.prev(t)));
        !contained_in_circumference(a, b, c, d)
    }

    /// Whether the corners of the face on the left of the half-edge `e` make
    /// a left turn, where that face is an inner face.
    fn is_ccw_at(&self, e: usize) -> (b: bool)
        requires
            self.wf(),
            self.mesh().valid_edge(e as int),
        ensures
            b == ccw_at(self.mesh(), self.positions(), e as int),
    {
        let ghost m = self.mesh();
        proof {
            assert(m.edge_ok(e as int));
            assert(m.edge_ok(twin_index(e as int)));
        }
        if self.dcel.face(e) == 0 {
            return true;
        }
        let t: usize = self.dcel.twin(e);
        let a = self.position_of(self.dcel.origin(e));
        let b = self.position_of(self.dcel.origin(t));
        let c = self.position_of(self.dcel.origin(self.dcel.prev(e)));
        orient2d_exact(a, b, c) > 0
    }

    /// Decides the Delaunay property: whether every edge between two
    /// triangles is locally Delaunay.
    pub fn is_delaunay(&self) -> (b: bool)
        requires
            self.wf(),
        ensures
            b == self.delaunay_property(),
    {
        let n: usize = self.dcel.num_half_edges();
        let mut e: usize = 0;
        while e < n
            invariant
                self.wf(),
                n == self.mesh().num_half_edges(),
                0 <= e <= n,
                forall|i: int| 0 <= i < e ==> #[trigger] delaunay_at(self.mesh(), self.positions(), i),
            decreases n - e,
        {
            if !self.is_delaunay_at(e) {
                return false;
            }
            e = e + 1;
        }
        true
    }

    /// Decides whether the corners of every triangle are in counterclockwise
    /// order.
    pub fn has_counterclockwise_faces(&self) -> (b: bool)
        requires
            self.wf(),
        ensures
            b == self.counterclockwise_faces(),
    {
        let n: usize = self.dcel.num_half_edges();
        let mut e: usize = 0;
        while e < n
            invariant
                self.wf(),
                n == self.mesh().num_half_edges(),
                0 <= e <= n,
                forall|i: int| 0 <= i < e ==> #[trigger] ccw_at(self.mesh(), self.positions(), i),
            decreases n - e,
        {
            if !self.is_ccw_at(e) {
                return false;
            }
            e = e + 1;
        }
        true
    }
}


impl<V: HasPosition> DelaunayTriangulation<V> {
    /// Decides whether every edge has a triangle on one side, every vertex
    /// has an edge, and the outer face comes by no vertex twice.
    #[verifier::spinoff_prover]
    pub fn is_solid(&self) -> (b: bool)
        requires
            self.wf(),
        ensures
            b == solid(self.mesh()),
    {
        let ghost m = self.mesh();
        proof {
            self.dcel.lemma_wf();
        }
        let n: usize = self.dcel.num_half_edges();
        let count: usize = self.dcel.num_vertices();
        let mut e: usize = 0;
        while e < n
            invariant
                self.wf(),
                m == self.mesh(),
                n == m.num_half_edges(),
                0 <= e <= n,
                forall|i: int| 0 <= i < e ==> #[trigger] bordered_at(m, i),
            decreases n - e,
        {
            proof {
                assert(m.edge_ok(e as int));
            }
            if self.dcel.face(e) == 0 && self.dcel.face(self.dcel.twin(e)) == 0 {
                proof {
                    assert(!bordered_at(m, e as int));
                }
                return false;
            }
            e = e + 1;
        }
        let mut seen: Vec<bool> = Vec::new();
        let mut v: usize = 0;
        while v < count
            invariant
                self.wf(),
                m == self.mesh(),
                count == m.num_vertices(),
                0 <= v <= count,
                seen@.len() == v,
                forall|u: int| 0 <= u < v ==> #[trigger] attached_at(m, u),
                forall|u: int| 0 <= u < v ==> !(#[trigger] seen@[u]),
            decreases count - v,
        {
            if self.dcel.out_edge(v).is_none() {
                proof {
                    assert(!attached_at(m, v as int));
                }
                return false;
            }
            seen.push(false);
            v = v + 1;
        }
        let ghost mut owner: Seq<int> = Seq::new(count as nat, |u: int| 0int);
        let mut i: usize = 0;
        while i < n
            invariant
                self.wf(),
                m == self.mesh(),
                n == m.num_half_edges(),
                count == m.num_vertices(),
                0 <= i <= n,
                seen@.len() == count,
                owner.len() == count,
                forall|u: int|
                    0 <= u < count && #[trigger] seen@[u] ==> 0 <= owner[u] < i && m.face(owner[u])
                        == 0 && m.origin(owner[u]) == u,
                forall|k: int|
                    0 <= k < i && m.face(k) == 0 ==> 0 <= #[trigger] m.origin(k) < count
                        && seen@[m.origin(k)],
                forall|a: int, b: int|
                    0 <= a < i && 0 <= b < i && a != b ==> #[trigger] hull_pair_ok(m, a, b),
            decreases n - i,
        {
            proof {
                assert(m.edge_ok(i as int));
            }
            if self.dcel.face(i) == 0 {
                let origin: usize = self.dcel.origin(i);
                if seen[origin] {
                    proof {
                        assert(!hull_pair_ok(m, owner[origin as int], i as int));
                    }
                    return false;
                }
                let ghost before = seen@;
                seen.set(origin, true);
                proof {
                    owner = owner.update(origin as int, i as int);
                    assert forall|k: int| 0 <= k < i && m.face(k) == 0 implies m.origin(k)
                        != origin by {
                        assert(before[m.origin(k)]);
                    }
                    assert forall|a: int, b: int|
                        0 <= a < i + 1 && 0 <= b < i + 1 && a != b implies #[trigger] hull_pair_ok(
                        m,
                        a,
                        b,
                    ) by {
                        if a < i && b < i {
                            assert(hull_pair_ok(m, a, b));
                        }
                    }
                }
            }
            i = i + 1;
        }
        true
    }

    /// Decides whether all points lie on the line through the first two and
    /// no two of them are the same point.
    pub fn is_on_one_line(&self) -> (b: bool)
        requires
            self.wf(),
        ensures
            b == on_one_line(self.positions()),
    {
        let ghost pos = self.positions();
        proof {
            self.dcel.lemma_wf();
        }
        let count: usize = self.dcel.num_vertices();
        if count >= 2 {
            let first: Point2 = self.position_of(0);
            let second: Point2 = self.position_of(1);
            let mut v: usize = 0;
            while v < count
                invariant
                    self.wf(),
                    pos == self.positions(),
                    count == pos.len(),
                    count >= 2,
                    first == pos[0],
                    second == pos[1],
                    first.in_range(),
                    second.in_range(),
                    0 <= v <= count,
                    forall|u: int| 0 <= u < v ==> orient2d(pos[0], pos[1], #[trigger] pos[u]) == 0,
                decreases count - v,
            {
                let at: Point2 = self.position_of(v);
                if orient2d_exact(first, second, at) != 0 {
                    return false;
                }
                v = v + 1;
            }
        }
        let mut u: usize = 0;
        while u < count
            invariant
                self.wf(),
                pos == self.positions(),
                count == pos.len(),
                0 <= u <= count,
                forall|v: int| 2 <= pos.len() && 0 <= v < pos.len() ==> orient2d(
                    pos[0],
                    pos[1],
                    #[trigger] pos[v],
                ) == 0,
                forall|a: int, b: int|
                    0 <= a < u && a < b < count ==> #[trigger] pos[a] != #[trigger] pos[b],
            decreases count - u,
        {
            let at: Point2 = self.position_of(u);
            let mut w: usize = u + 1;
            while w < count
                invariant
                    self.wf(),
                    pos == self.positions(),
                    count == pos.len(),
                    0 <= u < count,
                    u < w <= count,
                    at == pos[u as int],
                    forall|b: int| u < b < w ==> pos[u as int] != #[trigger] pos[b],
                decreases count - w,
            {
                let other: Point2 = self.position_of(w);
                if at.same_position(&other) {
                    return false;
                }
                w = w + 1;
            }
            u = u + 1;
        }
        true
    }

    /// Decides whether the triangulation is in order: see `oriented`.
    pub fn is_oriented(&self) -> (b: bool)
        requires
            self.wf(),
        ensures
            b == self.oriented(),
    {
        if !self.has_counterclockwise_faces() {
            return false;
        }
        if self.all_points_on_line {
            self.is_on_one_line()
        } else {
            self.is_solid()
        }
    }
}

/// An edge joins the vertex `v` to the vertex `n`.
pub open spec fn is_neighbor(m: Mesh, v: int, n: int) -> bool {
    &&& m.valid_vertex(n)
    &&& exists|e: int| m.valid_edge(e) && #[trigger] m.origin(e) == v && m.target(e) == n
}


impl<V: HasPosition> DelaunayTriangulation<V> {
    /// The mesh after the hole with the boundary `ring` has been filled with
    /// triangles and the new edges have been legalized.
    pub open spec fn filled_hole(m: Mesh, pos: Seq<Point2>, ring: Seq<usize>) -> Mesh {
        m.fill_hole(pos, ring)
    }

    /// Fills a hole with triangles: `loop_edges` are the half-edges around
    /// the hole, in order. Edges are laid from the end of the last of them to
    /// the origin of every other but the first two; then the new edges are
    /// legalized. The edges around the hole are never flipped.
    #[verifier::spinoff_prover]
    pub fn fill_hole(&mut self, loop_edges: Vec<usize>)
        requires
            old(self).base_wf(),
            !old(self).is_degenerate(),
            old(self).mesh().face_ring(loop_edges@),
            old(self).mesh().face(loop_edges@[0] as int) != 0,
            old(self).mesh().triangles_except(old(self).mesh().face(loop_edges@[0] as int)),
            old(self).mesh().num_half_edges() + 2 * loop_edges@.len() <= usize::MAX / 256,
        ensures
            final(self).wf(),
            !final(self).is_degenerate(),
            final(self).vertex_data() == old(self).vertex_data(),
            final(self).hint_value() == old(self).hint_value(),
            final(self).stopped_short() == (old(self).stopped_short() || old(self).mesh().fill_hole_stops_short(
                old(self).positions(),
                loop_edges@,
            )),
            final(self).mesh() == Self::filled_hole(
                old(self).mesh(),
                old(self).positions(),
                loop_edges@,
            ),
            final(self).mesh().num_vertices() == old(self).mesh().num_vertices(),
            final(self).mesh().num_faces() == old(self).mesh().num_faces() + loop_edges@.len() - 3,
            final(self).mesh().num_half_edges() == old(self).mesh().num_half_edges() + 2 * (
            loop_edges@.len() - 3),
    {
        let ghost m0 = self.mesh();
        let ghost pos = self.positions();
        let ghost ring = loop_edges@;
        let len: usize = loop_edges.len();
        let limit: usize = self.dcel.num_half_edges();
        let last_edge: usize = loop_edges[len - 1];
        proof {
            m0.lemma_hole_start(ring);
            m0.lemma_fill_fan(ring, 2);
        }
        let mut todo: Vec<usize> = Vec::new();
        let mut i: usize = 2;
        while i < len - 1
            invariant
                self.dcel.wf(),
                self.dcel.data() == old(self).vertex_data(),
                self.hint_value() == old(self).hint_value(),
                self.stopped_short() == old(self).stopped_short(),
                self.is_degenerate() == old(self).is_degenerate(),
                ring == loop_edges@,
                len == ring.len(),
                len >= 3,
                last_edge == ring.last(),
                2 <= i <= len - 1,
                limit == m0.num_half_edges(),
                limit + 2 * len <= usize::MAX / 256,
                self.dcel.mesh().hole_state(ring, i as int),
                self.dcel.mesh().num_half_edges() == limit + 2 * (i - 2),
                self.dcel.mesh().fill_fan(ring, i as int) == m0.fill_fan(ring, 2),
                todo@.len() == i - 2,
                forall|k: int| 0 <= k < todo@.len() ==> #[trigger] todo@[k] == limit + 2 * k,
            decreases len - i,
        {
            proof {
                self.dcel.mesh().lemma_fill_fan_step(ring, i as int);
            }
            let edge: usize = self.dcel.create_face(last_edge, loop_edges[i]);
            todo.push(edge);
            i = i + 1;
        }
        let ghost fan = self.dcel.mesh();
        let ghost goal = Self::filled_hole(m0, pos, ring);
        proof {
            self.dcel.lemma_wf();
            assert(m0.edge_ok(ring[0] as int));
            assert(fan.fill_fan(ring, (len - 1) as int) == fan);
            assert(fan == m0.fill_fan(ring, 2));
            assert(fan.triangles_except(0));
            assert(todo@ =~= fan_edges(limit as int, len as int));
            fan.lemma_legalize_hole_keeps_shape(pos, todo@, limit as int, hole_flip_budget(fan));
        }
        let n: usize = self.dcel.num_half_edges();
        let mut flips: usize = n;
        let ghost short_goal = self.stopped_short() || m0.fill_hole_stops_short(pos, ring);
        loop
            invariant
                self.wf(),
                !self.is_degenerate(),
                pos == self.positions(),
                self.vertex_data() == old(self).vertex_data(),
                self.hint_value() == old(self).hint_value(),
                short_goal == (self.stopped_short() || self.mesh().legalize_hole_stops_short(
                    pos,
                    todo@,
                    limit as int,
                    flips as nat,
                )),
                n == self.mesh().num_half_edges(),
                self.mesh().num_vertices() == fan.num_vertices(),
                self.mesh().num_faces() == fan.num_faces(),
                flips <= n,
                self.mesh().legalize_hole(pos, todo@, limit as int, flips as nat) == goal,
            ensures
                self.mesh() == goal,
                short_goal == self.stopped_short(),
            decreases todo@.len() + 5 * flips,
        {
            let ghost m = self.mesh();
            match todo.pop() {
                None => {
                    break ;
                },
                Some(e) => {
                    if e < n && self.can_flip_edge(e) {
                        proof {
                            m.lemma_flip_context(e as int);
                            m.lemma_flip_keeps_shape(e as int);
                            assert(m.edge_ok(m.prev(e as int)));
                            assert(m.edge_ok(m.prev(twin_index(e as int))));
                        }
                        let t: usize = self.dcel.twin(e);
                        let ep: usize = self.dcel.prev(e);
                        let tp: usize = self.dcel.prev(t);
                        let e1: usize = self.dcel.next(t);
                        let e2: usize = self.dcel.twin(ep);
                        let e3: usize = self.dcel.next(e);
                        let e4: usize = self.dcel.twin(tp);
                        let v0 = self.position_of(self.dcel.origin(e));
                        let v1 = self.position_of(self.dcel.origin(t));
                        let vl = self.position_of(self.dcel.origin(ep));
                        let vr = self.position_of(self.dcel.origin(tp));
                        if contained_in_circumference(v0, v1, vl, vr) {
                            if flips > 0 {
                                self.dcel.flip_cw(e);
                                if e1 >= limit {
                                    todo.push(e1);
                                }
                                if e2 >= limit {
                                    todo.push(e2);
                                }
                                if e3 >= limit {
                                    todo.push(e3);
                                }
                                if e4 >= limit {
                                    todo.push(e4);
                                }
                                flips = flips - 1;
                            } else {
                                self.stopped_short = true;
                            }
                        }
                    }
                },
            }
        }
    }
}


impl<V: HasPosition> DelaunayTriangulation<V> {
    /// The convex chain through `vertices`, which are given in the order in
    /// which they follow each other around a removed vertex.
    pub fn convex_chain_of(&self, vertices: &Vec<usize>) -> (ch: Vec<usize>)
        requires
            self.base_wf(),
            forall|i: int|
                0 <= i < vertices@.len() ==> self.mesh().valid_vertex(#[trigger] vertices@[i] as int),
        ensures
            ch@ == convex_chain(self.positions(), vertices@, vertices@.len()),
            forall|k: int| 0 <= k < ch@.len() ==> self.mesh().valid_vertex(#[trigger] ch@[k] as int),
    {
        let ghost pos = self.positions();
        let mut ch: Vec<usize> = Vec::new();
        let mut i: usize = 0;
        while i < vertices.len()
            invariant
                self.base_wf(),
                pos == self.positions(),
                0 <= i <= vertices@.len(),
                forall|j: int|
                    0 <= j < vertices@.len() ==> self.mesh().valid_vertex(
                        #[trigger] vertices@[j] as int,
                    ),
                ch@ == convex_chain(pos, vertices@, i as nat),
                forall|k: int|
                    0 <= k < ch@.len() ==> self.mesh().valid_vertex(#[trigger] ch@[k] as int),
            decreases vertices@.len() - i,
        {
            let v: usize = vertices[i];
            let v_pos: Point2 = self.base_position_of(v);
            let ghost start = ch@;
            loop
                invariant
                    self.base_wf(),
                    pos == self.positions(),
                    self.mesh().valid_vertex(v as int),
                    v_pos == pos[v as int],
                    v_pos.in_range(),
                    forall|k: int|
                        0 <= k < ch@.len() ==> self.mesh().valid_vertex(#[trigger] ch@[k] as int),
                    crate::mesh_remove::chain_push(pos, ch@, v) == crate::mesh_remove::chain_push(pos, start, v),
                ensures
                    crate::mesh_remove::chain_push(pos, ch@, v) == ch@.push(v),
                decreases ch@.len(),
            {
                if ch.len() >= 2 {
                    let p0: Point2 = self.base_position_of(ch[ch.len() - 2]);
                    let p1: Point2 = self.base_position_of(ch[ch.len() - 1]);
                    if side_query(p0, p1, v_pos).is_on_left_side() {
                        ch.pop();
                    } else {
                        break ;
                    }
                } else {
                    break ;
                }
            }
            ch.push(v);
            i = i + 1;
        }
        ch
    }

    /// The position of the vertex `v`.
    fn base_position_of(&self, v: usize) -> (p: Point2)
        requires
            self.base_wf(),
            self.mesh().valid_vertex(v as int),
        ensures
            p == self.positions()[v as int],
            p.in_range(),
    {
        self.dcel.vertex_data(v).position()
    }

    /// Closes the pocket of the hull that begins with the half-edge `first`
    /// and ends where a half-edge of the hull leaves the vertex `end`, and
    /// fills it with triangles. Does nothing where `first` does not lie on
    /// the hull, where the hull does not come by `end`, or where the pocket
    /// has a single edge.
    #[verifier::spinoff_prover]
    fn fill_pocket(&mut self, first: usize, end: usize)
        requires
            old(self).base_wf(),
            !old(self).is_degenerate(),
            old(self).mesh().triangles_except(0),
            old(self).mesh().valid_edge(first as int),
        ensures
            final(self).base_wf(),
            !final(self).is_degenerate(),
            final(self).mesh().triangles_except(0),
            final(self).vertex_data() == old(self).vertex_data(),
            final(self).hint_value() == old(self).hint_value(),
            final(self).stopped_short() == (old(self).stopped_short() || old(self).mesh().fill_pocket_stops_short(
                old(self).positions(),
                first as int,
                end as int,
            )),
            final(self).mesh().num_vertices() == old(self).mesh().num_vertices(),
            final(self).mesh().num_faces() >= old(self).mesh().num_faces(),
            final(self).mesh() == old(self).mesh().fill_pocket(
                old(self).positions(),
                first as int,
                end as int,
            ),
    {
        let ghost m = self.mesh();
        if self.dcel.face(first) != 0 {
            self.stopped_short = true;
            return ;
        }
        let ghost len0 = m.faces[0].len;
        let ghost p0 = m.half_edges[first as int].fpos;
        let mut edges: Vec<usize> = Vec::new();
        let mut cur: usize = first;
        let mut closed: bool = false;
        proof {
            assert(m.edge_ok(first as int));
            crate::mesh_insert::lemma_face_length_bound(m, 0);
        }
        loop
            invariant_except_break
                edges@.len() < len0,
                m.valid_edge(cur as int),
                m.face(cur as int) == 0,
                cyclic_distance(p0, m.half_edges[cur as int].fpos, len0) == edges@.len(),
                edges@.len() == 0 ==> cur == first,
                !closed,
                m.pocket_edges(first as int, first as int, end as int, len0 as nat) == (
                match m.pocket_edges(
                    cur as int,
                    first as int,
                    end as int,
                    (len0 - edges@.len()) as nat,
                ) {
                    Some(rest) => Some(edges@ + rest),
                    None => None,
                }),
            invariant
                self.base_wf(),
                !self.is_degenerate(),
                self.vertex_data() == old(self).vertex_data(),
                self.hint_value() == old(self).hint_value(),
                self.stopped_short() == old(self).stopped_short(),
                m == self.mesh(),
                m.valid_edge(first as int),
                m.face(first as int) == 0,
                len0 == m.faces[0].len,
                len0 <= m.num_half_edges(),
                p0 == m.half_edges[first as int].fpos,
                0 <= p0 < len0,
                edges@.len() <= len0,
                edges@.len() > 0 ==> edges@[0] == first,
                m.valid_edge(cur as int),
                edges@.len() > 0 ==> m.next(edges@[edges@.len() - 1] as int) == cur,
                forall|j: int|
                    0 <= j < edges@.len() ==> m.valid_edge(#[trigger] edges@[j] as int) && m.face(
                        edges@[j] as int,
                    ) == 0 && cyclic_distance(p0, m.half_edges[edges@[j] as int].fpos, len0) == j,
            ensures
                edges@.len() >= 1,
                closed ==> m.pocket_edges(first as int, first as int, end as int, len0 as nat)
                    == Some(edges@),
                !closed ==> m.pocket_edges(first as int, first as int, end as int, len0 as nat)
                    == None::<Seq<usize>>,
                closed ==> m.origin(cur as int) == end,
            decreases len0 - edges@.len(),
        {
            let ghost before = edges@;
            let ghost walked = cur;
            edges.push(cur);
            proof {
                assert(m.edge_ok(cur as int));
            }
            let next: usize = self.dcel.next(cur);
            proof {
                assert(m.edge_ok(next as int));
                if next != first {
                    assert(m.positions_differ(next as int, first as int));
                }
                let fuel = (len0 - before.len()) as nat;
                if m.origin(next as int) == end {
                    assert(before + seq![walked] =~= edges@);
                } else if next != first {
                    let rest = m.pocket_edges(
                        next as int,
                        first as int,
                        end as int,
                        (fuel - 1) as nat,
                    );
                    if rest.is_some() {
                        assert(before + (seq![walked] + rest.unwrap()) =~= edges@ + rest.unwrap());
                    }
                }
            }
            cur = next;
            if self.dcel.origin(cur) == end {
                closed = true;
                break ;
            }
            if cur == first {
                break ;
            }
        }
        let count: usize = edges.len();
        let n: usize = self.dcel.num_half_edges();
        if !closed || count < 2 || cur == first || n > usize::MAX / 256 - 2 || count + 1 > (usize::MAX / 256 - 2 - n) / 2 {
            self.stopped_short = true;
            return ;
        }
        let last: usize = edges[count - 1];
        proof {
            assert(m.edge_ok(last as int));
            assert(m.positions_differ(last as int, first as int));
        }
        let closing: usize = self.dcel.create_face(last, first);
        let ghost walked = edges@;
        edges.push(closing);
        proof {
            assert(edges@ == walked.push(m.num_half_edges() as usize));
        }
        proof {
            let m1 = self.dcel.mesh();
            let ring = edges@;
            self.dcel.lemma_wf();
            m.lemma_create_face_wf(last as int, first as int);
            assert(m1.faces[m.num_faces()].len == count + 1);
            assert forall|j: int| 0 <= j < ring.len() implies m1.valid_edge(#[trigger] ring[j] as int)
                && m1.face(ring[j] as int) == m.num_faces() && cyclic_distance(
                m1.half_edges[ring[0] as int].fpos,
                m1.half_edges[ring[j] as int].fpos,
                ring.len() as int,
            ) == j by {
                if j < count {
                    assert(ring[j] == walked[j]);
                    assert(m.edge_ok(walked[j] as int));
                }
                assert(ring[0] == walked[0]);
            }
            assert forall|f: int| 1 <= f < m1.faces.len() && f != m.num_faces() implies (
            #[trigger] m1.faces[f]).len == 3 by {
                assert(m.faces[f].len == 3);
            }
            assert(m1.vertices.len() == m.vertices.len()) by {
                assert(m.edge_ok(m.next(last as int)));
            }
        }
        self.fill_hole(edges);
    }

    /// Restores the convex hull after a vertex of the hull has been removed.
    /// `vertices` are the vertices that were joined to the removed vertex, in
    /// counterclockwise order around it. Where an edge of the convex chain
    /// through them is missing, the pocket under it is closed with that edge
    /// and filled with triangles.
    #[verifier::spinoff_prover]
    pub fn repair_convex_hull(&mut self, vertices: &Vec<usize>)
        requires
            old(self).base_wf(),
            !old(self).is_degenerate(),
            old(self).mesh().triangles_except(0),
            forall|i: int|
                0 <= i < vertices@.len() ==> old(self).mesh().valid_vertex(
                    #[trigger] vertices@[i] as int,
                ),
        ensures
            final(self).base_wf(),
            !final(self).is_degenerate(),
            final(self).mesh().triangles_except(0),
            final(self).vertex_data() == old(self).vertex_data(),
            final(self).hint_value() == old(self).hint_value(),
            final(self).stopped_short() == (old(self).stopped_short() || old(self).mesh().repair_hull_stops_short(
                old(self).positions(),
                vertices@,
            )),
            final(self).mesh().num_vertices() == old(self).mesh().num_vertices(),
            final(self).mesh().num_faces() >= old(self).mesh().num_faces(),
            final(self).mesh() == old(self).mesh().repair_hull(old(self).positions(), vertices@),
    {
        let ghost pos = self.positions();
        let ghost goal = self.mesh().repair_hull(pos, vertices@);
        let ghost short_goal = self.stopped_short() || self.mesh().repair_hull_stops_short(
            pos,
            vertices@,
        );
        let ch: Vec<usize> = self.convex_chain_of(vertices);
        let mut w: usize = 0;
        while ch.len() - w > 1
            invariant
                0 <= w <= ch@.len(),
                pos == self.positions(),
                self.mesh().repair_chain(pos, vertices@, ch@, w as int) == goal,
                self.base_wf(),
                !self.is_degenerate(),
                self.mesh().triangles_except(0),
                self.vertex_data() == old(self).vertex_data(),
                self.hint_value() == old(self).hint_value(),
                short_goal == (self.stopped_short() || self.mesh().repair_chain_stops_short(
                    pos,
                    vertices@,
                    ch@,
                    w as int,
                )),
                self.mesh().num_vertices() == old(self).mesh().num_vertices(),
                self.mesh().num_faces() >= old(self).mesh().num_faces(),
                forall|i: int|
                    0 <= i < vertices@.len() ==> self.mesh().valid_vertex(
                        #[trigger] vertices@[i] as int,
                    ),
                forall|k: int|
                    0 <= k < ch@.len() ==> self.mesh().valid_vertex(#[trigger] ch@[k] as int),
            decreases ch@.len() - w,
        {
            let v0: usize = ch[w];
            let v1: usize = ch[w + 1];
            if self.dcel.get_edge_from_neighbors(v0, v1).is_none() {
                let mut p: usize = 0;
                while p < vertices.len() && vertices[p] != v0
                    invariant
                        0 <= p <= vertices@.len(),
                        first_index(vertices@, v0, 0) == first_index(vertices@, v0, p as int),
                    decreases vertices@.len() - p,
                {
                    p = p + 1;
                }
                if vertices.len() - p > 1 {
                    match self.dcel.get_edge_from_neighbors(v0, vertices[p + 1]) {
                        Some(first) => {
                            self.fill_pocket(first, v1);
                        },
                        None => {
                            self.stopped_short = true;
                        },
                    }
                } else {
                    self.stopped_short = true;
                }
            }
            w = w + 1;
        }
    }
}


impl<V: HasPosition> DelaunayTriangulation<V> {
    /// The vertex `v` can be removed: it exists, and unless the triangulation
    /// is degenerate, no edge at `v` is a loop, no face touches `v` twice, and
    /// `v` lies on the hull or has at least three edges.
    pub open spec fn removable(&self, v: int) -> bool {
        &&& self.mesh().valid_vertex(v)
        &&& !self.is_degenerate() ==> self.mesh().can_remove_vertex(v) && (
        self.mesh().touches_outer_face(v) || self.mesh().vertices[v].degree >= 3)
    }

    /// Decides whether the vertex `vertex` can be removed.
    #[verifier::spinoff_prover]
    pub fn can_remove(&self, vertex: FixedVertexHandle) -> (b: bool)
        requires
            self.wf(),
        ensures
            b == self.removable(vertex@),
    {
        let ghost m = self.mesh();
        let v: usize = vertex.index();
        if v >= self.dcel.num_vertices() {
            return false;
        }
        if self.all_points_on_line {
            return true;
        }
        let ring: Vec<usize> = self.dcel.out_edges_ccw(v);
        let k: usize = ring.len();
        let mut on_hull: bool = false;
        let mut i: usize = 0;
        while i < k
            invariant
                self.wf(),
                !self.is_degenerate(),
                v == vertex@,
                m.valid_vertex(v as int),
                m == self.mesh(),
                k == ring@.len(),
                0 <= i <= k,
                forall|a: int|
                    0 <= a < k ==> m.valid_edge(#[trigger] ring@[a] as int) && m.origin(
                        ring@[a] as int,
                    ) == v,
                forall|a: int, b: int|
                    0 <= a < k && 0 <= b < k && a != b ==> #[trigger] ring@[a]
                        != #[trigger] ring@[b],
                forall|a: int| 0 <= a < i ==> m.target(#[trigger] ring@[a] as int) != v,
                forall|a: int, b: int|
                    0 <= a < i && a < b < k ==> m.face(#[trigger] ring@[a] as int) != m.face(
                        #[trigger] ring@[b] as int,
                    ),
                on_hull <==> exists|a: int| 0 <= a < i && m.face(#[trigger] ring@[a] as int) == 0,
            decreases k - i,
        {
            let e: usize = ring[i];
            if self.dcel.target(e) == v {
                proof {
                    assert(!m.star_edge_ok(v as int, e as int));
                }
                return false;
            }
            let f: usize = self.dcel.face(e);
            if f == 0 {
                on_hull = true;
            }
            let mut j: usize = i + 1;
            while j < k
                invariant
                    self.wf(),
                    !self.is_degenerate(),
                    v == vertex@,
                    m.valid_vertex(v as int),
                    m == self.mesh(),
                    k == ring@.len(),
                    i < j <= k,
                    e == ring@[i as int],
                    f == m.face(e as int),
                    forall|a: int|
                        0 <= a < k ==> m.valid_edge(#[trigger] ring@[a] as int) && m.origin(
                            ring@[a] as int,
                        ) == v,
                    forall|a: int, b: int|
                        0 <= a < k && 0 <= b < k && a != b ==> #[trigger] ring@[a]
                            != #[trigger] ring@[b],
                    forall|b: int| i < b < j ==> f != m.face(#[trigger] ring@[b] as int),
                decreases k - j,
            {
                if self.dcel.face(ring[j]) == f {
                    proof {
                        assert(ring@[i as int] != ring@[j as int]);
                        assert(!m.star_pair_ok(v as int, e as int, ring@[j as int] as int));
                    }
                    return false;
                }
                j = j + 1;
            }
            i = i + 1;
        }
        proof {
            assert forall|e: int| m.valid_edge(e) implies #[trigger] m.star_edge_ok(v as int, e) by {
                if m.origin(e) == v {
                    assert(ring@.contains(e as usize));
                    let a = choose|a: int| 0 <= a < ring@.len() && ring@[a] == e as usize;
                    assert(m.target(ring@[a] as int) != v);
                }
            }
            assert forall|e1: int, e2: int|
                m.valid_edge(e1) && m.valid_edge(e2) && e1 != e2 implies #[trigger] m.star_pair_ok(
                v as int,
                e1,
                e2,
            ) by {
                if m.origin(e1) == v && m.origin(e2) == v {
                    assert(ring@.contains(e1 as usize));
                    assert(ring@.contains(e2 as usize));
                    let a = choose|a: int| 0 <= a < ring@.len() && ring@[a] == e1 as usize;
                    let b = choose|b: int| 0 <= b < ring@.len() && ring@[b] == e2 as usize;
                    if a < b {
                        assert(m.face(ring@[a] as int) != m.face(ring@[b] as int));
                    } else {
                        assert(m.face(ring@[b] as int) != m.face(ring@[a] as int));
                    }
                }
            }
            if on_hull {
                let a = choose|a: int| 0 <= a < k && m.face(#[trigger] ring@[a] as int) == 0;
                assert(m.origin(ring@[a] as int) == v);
            } else {
                assert forall|e: int| m.valid_edge(e) && #[trigger] m.origin(e) == v implies m.face(
                    e,
                ) != 0 by {
                    assert(ring@.contains(e as usize));
                    let a = choose|a: int| 0 <= a < ring@.len() && ring@[a] == e as usize;
                    assert(m.face(ring@[a] as int) != 0);
                }
            }
        }
        on_hull || k >= 3
    }

    /// Drops all edges and faces: the points are taken to lie on one line.
    fn make_degenerate(&mut self)
        requires
            old(self).base_wf(),
        ensures
            final(self).wf(),
            final(self).is_degenerate(),
            final(self).mesh() == old(self).mesh().clear_edges_and_faces(),
            final(self).vertex_data() == old(self).vertex_data(),
            final(self).hint_value() == old(self).hint_value(),
            final(self).stopped_short() == old(self).stopped_short(),
    {
        self.dcel.clear_edges_and_faces();
        self.all_points_on_line = true;
        proof {
            self.dcel.lemma_wf();
        }
    }

    /// The vertices at the far ends of the edges of the vertex `v`, in
    /// counterclockwise order; where `v` lies on the hull, beginning behind
    /// the first edge that has the outer face on its left.
    #[verifier::spinoff_prover]
    fn neighbors_of(&self, v: usize) -> (neighbors: Vec<usize>)
        requires
            self.base_wf(),
            self.mesh().valid_vertex(v as int),
        ensures
            forall|i: int|
                0 <= i < neighbors@.len() ==> is_neighbor(
                    self.mesh(),
                    v as int,
                    #[trigger] neighbors@[i] as int,
                ),
            neighbors@ == self.mesh().neighbor_seq(v as int),
    {
        let ghost m = self.mesh();
        let ring: Vec<usize> = self.dcel.out_edges_ccw(v);
        let k: usize = ring.len();
        let mut start: usize = 0;
        let mut i: usize = 0;
        while i < k
            invariant_except_break
                start == 0,
                m.first_outer(v as int, 0) == m.first_outer(v as int, i as nat),
            invariant
                self.base_wf(),
                m == self.mesh(),
                k == ring@.len(),
                k == m.vertices[v as int].degree,
                0 <= i <= k,
                start == 0 || start < k,
                forall|a: int|
                    0 <= a < k ==> m.valid_edge(#[trigger] ring@[a] as int) && m.origin(
                        ring@[a] as int,
                    ) == v && ring@[a] == m.ring_edge(v as int, a as nat),
            ensures
                start == m.neighbor_start(v as int),
            decreases k - i,
        {
            if self.dcel.face(ring[i]) == 0 {
                start = if i + 1 < k {
                    i + 1
                } else {
                    0
                };
                break ;
            }
            i = i + 1;
        }
        let mut neighbors: Vec<usize> = Vec::new();
        let mut i: usize = 0;
        while i < k
            invariant
                self.base_wf(),
                m == self.mesh(),
                k == ring@.len(),
                k == m.vertices[v as int].degree,
                0 <= i <= k,
                start == 0 || start < k,
                start == m.neighbor_start(v as int),
                neighbors@.len() == i,
                forall|a: int|
                    0 <= a < i ==> #[trigger] neighbors@[a] == m.neighbor_seq(v as int)[a],
                forall|a: int|
                    0 <= a < k ==> m.valid_edge(#[trigger] ring@[a] as int) && m.origin(
                        ring@[a] as int,
                    ) == v && ring@[a] == m.ring_edge(v as int, a as nat),
                forall|a: int|
                    0 <= a < neighbors@.len() ==> is_neighbor(
                        m,
                        v as int,
                        #[trigger] neighbors@[a] as int,
                    ),
            decreases k - i,
        {
            let at: usize = if i < k - start {
                start + i
            } else {
                i - (k - start)
            };
            let e: usize = ring[at];
            let n: usize = self.dcel.target(e);
            let ghost before = neighbors@;
            neighbors.push(n);
            proof {
                assert(m.origin(e as int) == v);
                assert(is_neighbor(m, v as int, n as int));
                assert forall|a: int| 0 <= a < neighbors@.len() implies is_neighbor(
                    m,
                    v as int,
                    #[trigger] neighbors@[a] as int,
                ) by {
                    if a < before.len() {
                        assert(neighbors@[a] == before[a]);
                    }
                }
            }
            i = i + 1;
        }
        proof {
            assert(neighbors@ =~= m.neighbor_seq(v as int));
        }
        neighbors
    }
}


impl<V: HasPosition> DelaunayTriangulation<V> {
    /// The payloads after the vertex `v` has been removed: the last payload
    /// has taken its place.
    pub open spec fn data_without(data: Seq<V>, v: int) -> Seq<V> {
        data.update(v, data.last()).drop_last()
    }

    /// The mesh after the vertex `v` of the hull has been removed and the
    /// hull has been repaired along the convex chain through its neighbours.
    /// `pos` are the positions after the removal.
    pub open spec fn repaired_after_removal(m: Mesh, pos: Seq<Point2>, v: int) -> Mesh {
        let moved = if v == m.num_vertices() - 1 {
            None
        } else {
            Some((m.num_vertices() - 1) as usize)
        };
        m.remove_vertex(v).repair_hull(
            pos,
            renamed_vertices(m.neighbor_seq(v), moved, v as usize),
        )
    }

    /// Whether the repair of the hull that `repaired_after_removal` describes
    /// stops short anywhere.
    pub open spec fn repair_stops_short_after_removal(m: Mesh, pos: Seq<Point2>, v: int) -> bool {
        let moved = if v == m.num_vertices() - 1 {
            None
        } else {
            Some((m.num_vertices() - 1) as usize)
        };
        m.remove_vertex(v).repair_hull_stops_short(
            pos,
            renamed_vertices(m.neighbor_seq(v), moved, v as usize),
        )
    }

    /// Removes the vertex `vertex` and returns its payload. The last vertex
    /// takes its handle.
    ///
    /// Where a legalization uses up its flips, or a pocket of the hull cannot
    /// be closed, the removal goes on without it and `has_stopped_short`
    /// reports it from then on. After a removal from a mesh of triangles the
    /// whole mesh is examined once, which takes time in proportion to its
    /// size: where a triangle is not counterclockwise, an edge is not locally
    /// Delaunay or has the outer face on both sides, a vertex has no edge or
    /// the outer face comes by a vertex twice, `has_stopped_short` reports
    /// that too.
    ///
    /// Where the vertex lay inside the hull, the hole that it leaves is filled
    /// with triangles, whose edges are legalized. Where it lay on the hull,
    /// the hull is repaired; if no triangle is left then, the triangulation
    /// becomes degenerate.
    #[verifier::spinoff_prover]
    pub fn remove(&mut self, vertex: FixedVertexHandle) -> (r: V)
        requires
            old(self).wf(),
            old(self).removable(vertex@) || (old(self).oriented() && old(self).mesh().valid_vertex(
                vertex@,
            )),
        ensures
            final(self).wf(),
            r == old(self).vertex_data()[vertex@],
            final(self).vertex_data() == Self::data_without(old(self).vertex_data(), vertex@),
            final(self).mesh().num_vertices() == old(self).mesh().num_vertices() - 1,
            old(self).indexed() ==> final(self).indexed(),
            old(self).is_degenerate() ==> final(self).is_degenerate() && final(self).mesh() == old(self).mesh().remove_vertex(vertex@) && final(self).stopped_short() == old(self).stopped_short(),
            old(self).is_degenerate() && old(self).oriented() ==> final(self).oriented(),
            !old(self).is_degenerate() && !final(self).stopped_short() ==> final(self).oriented()
                && final(self).delaunay_property(),
            old(self).is_degenerate() ==> final(self).delaunay_property(),
            old(self).stopped_short() ==> final(self).stopped_short(),
            old(self).valid() ==> final(self).valid(),
            !old(self).is_degenerate() && !old(self).mesh().touches_outer_face(vertex@) ==> {
                let hole = old(self).mesh().remove_vertex(vertex@);
                let g = old(self).mesh().star_merged_face(vertex@, 0);
                &&& !final(self).is_degenerate()
                &&& g != 0
                &&& hole.faces[g].edge.is_some()
                &&& exists|ring: Seq<usize>|
                    #![trigger hole.face_ring(ring)]
                    hole.face_ring(ring) && ring[0] == hole.faces[g].edge.unwrap()
                        && final(self).mesh() == Self::filled_hole(
                        hole,
                        final(self).positions(),
                        ring,
                    ) && final(self).stopped_short() == (old(self).stopped_short()
                        || hole.fill_hole_stops_short(final(self).positions(), ring)
                        || !final(self).oriented() || !final(self).delaunay_property())
                &&& final(self).mesh().num_faces() == old(self).mesh().num_faces() - 2
            },
            !old(self).is_degenerate() && old(self).mesh().touches_outer_face(vertex@) ==> {
                let repaired = Self::repaired_after_removal(
                    old(self).mesh(),
                    final(self).positions(),
                    vertex@,
                );
                &&& final(self).is_degenerate() == (repaired.num_faces() == 1)
                &&& final(self).mesh() == (if repaired.num_faces() == 1 {
                    repaired.clear_edges_and_faces()
                } else {
                    repaired
                })
                &&& final(self).stopped_short() == (old(self).stopped_short()
                    || Self::repair_stops_short_after_removal(
                    old(self).mesh(),
                    final(self).positions(),
                    vertex@,
                ) || !final(self).oriented() || !final(self).delaunay_property())
            },
    {
        let v: usize = vertex.index();
        let ghost m = self.mesh();
        let ghost data0 = self.vertex_data();
        let ghost pos0 = self.positions();
        let ghost entries0 = self.hint_value().entries;
        proof {
            self.dcel.lemma_wf();
            if self.oriented() && self.mesh().valid_vertex(vertex@) {
                self.lemma_vertex_removable(vertex@);
            }
        }
        if self.all_points_on_line {
            proof {
                m.lemma_no_edges();
                assert(m.remove_star(v as int) == m);
                m.lemma_remove_isolated_vertex_wf(v as int);
            }
            let ghost pos = self.positions();
            let res: VertexRemovalResult<V> = self.dcel.remove_vertex(v);
            let VertexRemovalResult { data, updated_vertex, merged_face } = res;
            proof {
                self.dcel.lemma_wf();
                assert(data0[v as int].position_spec().in_range());
                assert(self.positions() =~= pos.update(v as int, pos.last()).drop_last());
                assert(pos[pos.len() - 1] == data0[data0.len() - 1].position_spec());
                assert(data0[data0.len() - 1].position_spec().in_range());
            }
            self.hint.remove_vertex_entry(data.position(), v);
            if updated_vertex.is_some() {
                let p: Point2 = self.dcel.vertex_data(v).position();
                self.hint.update_vertex_entry(p, v);
            }
            proof {
                assert(self.hint_value().entries == entries_without(entries0, pos, v as int));
                if index_holds(entries0, pos) {
                    assert(all_in_range(pos)) by {
                        assert forall|u: int| 0 <= u < pos.len() implies (#[trigger] pos[u]).in_range() by {
                            assert(data0[u].position_spec().in_range());
                        }
                    }
                    lemma_index_after_removal(entries0, pos, v as int);
                }
                if on_one_line(pos) {
                    crate::orientation::lemma_on_one_line_without(pos, v as int);
                }
            }
            return data;
        }
        let mut neighbors: Vec<usize> = self.neighbors_of(v);
        let ghost around = neighbors@;
        let ghost e0 = m.vertices[v as int].out_edge.unwrap();
        let ghost g0 = m.face(e0);
        let ghost deg = m.vertices[v as int].degree;
        proof {
            assert(m.vertex_ok(v as int));
            if m.touches_outer_face(v as int) {
                let w = choose|e: int|
                    m.valid_edge(e) && #[trigger] m.origin(e) == v && m.face(e) == 0;
                m.lemma_isolated_vertex_has_no_edge(v as int, w);
            }
            assert(m.edge_ok(e0));
            assert(m.triangles_except(g0)) by {
                assert forall|f: int| 1 <= f < m.faces.len() && f != g0 implies (
                #[trigger] m.faces[f]).len == 3 by {}
            }
            if g0 != 0 {
                assert(m.faces[g0].len == 3);
            }
            m.lemma_remove_star_triangles(v as int, g0, deg);
            if m.touches_outer_face(v as int) {
                m.lemma_remove_star_hull(v as int, g0);
            } else {
                m.lemma_remove_star_interior(v as int, g0, deg);
            }
            assert(m.star_merged_face(v as int, g0) == m.star_merged_face(v as int, 0));
            m.remove_star(v as int).lemma_remove_isolated_vertex_wf(v as int);
            assert forall|i: int| 0 <= i < neighbors@.len() implies (#[trigger] neighbors@[i]) != v
                && m.valid_vertex(neighbors@[i] as int) by {
                assert(is_neighbor(m, v as int, neighbors@[i] as int));
                let e = choose|e: int|
                    m.valid_edge(e) && #[trigger] m.origin(e) == v && m.target(e) == neighbors@[i];
                assert(m.star_edge_ok(v as int, e));
            }
        }
        let res: VertexRemovalResult<V> = self.dcel.remove_vertex(v);
        let VertexRemovalResult { data, updated_vertex, merged_face } = res;
        let ghost hole = self.dcel.mesh();
        proof {
            self.dcel.lemma_wf();
            assert(hole.faces == m.remove_star(v as int).faces);
            assert(hole.num_half_edges() == m.num_half_edges() - 2 * deg);
            assert(self.base_wf()) by {
                assert forall|u: int| 0 <= u < self.vertex_data().len() implies (
                #[trigger] self.vertex_data()[u]).position_spec().in_range() by {
                    if u == v {
                        assert(data0[data0.len() - 1].position_spec().in_range());
                    } else {
                        assert(data0[u].position_spec().in_range());
                    }
                }
            }
        }
        proof {
            assert(data0[v as int].position_spec().in_range());
            assert(self.positions() =~= pos0.update(v as int, pos0.last()).drop_last());
            assert(pos0[pos0.len() - 1] == data0[data0.len() - 1].position_spec());
        }
        self.hint.remove_vertex_entry(data.position(), v);
        match updated_vertex {
            Some(moved) => {
                let p: Point2 = self.base_position_of(v);
                self.hint.update_vertex_entry(p, v);
                let mut i: usize = 0;
                while i < neighbors.len()
                    invariant
                        0 <= i <= neighbors@.len(),
                        moved == m.num_vertices() - 1,
                        v < moved,
                        neighbors@.len() == around.len(),
                        forall|j: int|
                            0 <= j < i ==> #[trigger] neighbors@[j] == renamed_vertices(
                                around,
                                Some(moved),
                                v,
                            )[j],
                        forall|j: int| i <= j < neighbors@.len() ==> #[trigger] neighbors@[j] == around[j],
                        forall|j: int|
                            0 <= j < i ==> (#[trigger] neighbors@[j]) < m.num_vertices() - 1,
                        forall|j: int|
                            i <= j < neighbors@.len() ==> (#[trigger] neighbors@[j]) != v
                                && m.valid_vertex(neighbors@[j] as int),
                    decreases neighbors@.len() - i,
                {
                    if neighbors[i] == moved {
                        neighbors.set(i, v);
                    }
                    i = i + 1;
                }
            },
            None => {},
        }
        proof {
            assert(neighbors@ =~= renamed_vertices(around, updated_vertex, v));
            assert(self.hint_value().entries == entries_without(entries0, pos0, v as int));
            if index_holds(entries0, pos0) {
                assert(all_in_range(pos0)) by {
                    assert forall|u: int| 0 <= u < pos0.len() implies (#[trigger] pos0[u]).in_range() by {
                        assert(data0[u].position_spec().in_range());
                    }
                }
                lemma_index_after_removal(entries0, pos0, v as int);
                assert(self.indexed());
            }
        }
        if merged_face != 0 {
            proof {
                assert(hole.face_ok(merged_face as int));
                assert(hole.triangles_except(merged_face as int));
            }
            let e: usize = self.dcel.face_edge(merged_face).unwrap();
            let cycle: Vec<usize> = self.dcel.face_cycle(e);
            proof {
                assert(hole.face_ring(cycle@));
            }
            self.fill_hole(cycle);
        } else {
            proof {
                assert(hole.triangles_except(0));
            }
            self.repair_convex_hull(&neighbors);
            if self.dcel.num_faces() == 1 {
                self.make_degenerate();
            }
        }
        if !(self.is_oriented() && self.is_delaunay()) {
            self.stopped_short = true;
        }
        data
    }

    /// Removes the vertex `vertex` and returns its payload, where the vertex
    /// can be removed. Leaves the triangulation as it is and returns `None`
    /// where it cannot.
    pub fn checked_remove(&mut self, vertex: FixedVertexHandle) -> (r: Option<V>)
        requires
            old(self).wf(),
        ensures
            final(self).wf(),
            r.is_some() == old(self).removable(vertex@),
            old(self).indexed() ==> final(self).indexed(),
            old(self).stopped_short() ==> final(self).stopped_short(),
            old(self).valid() ==> final(self).valid(),
            r.is_none() ==> final(self).same_content(old(self)),
            r.is_some() ==> r.unwrap() == old(self).vertex_data()[vertex@] && final(self).vertex_data() == Self::data_without(old(self).vertex_data(), vertex@) && final(self).mesh().num_vertices() == old(self).mesh().num_vertices() - 1,
    {
        if self.can_remove(vertex) {
            Some(self.remove(vertex))
        } else {
            None
        }
    }
}


impl<V: HasPosition> DelaunayTriangulation<V> {
    /// The half-edge from the vertex `from` to the vertex `to`, if an edge
    /// joins the two.
    pub fn get_edge_from_vertices(&self, from: FixedVertexHandle, to: FixedVertexHandle) -> (r:
        Option<FixedDirectedEdgeHandle>)
        requires
            self.wf(),
            self.mesh().valid_vertex(from@),
        ensures
            r.is_some() ==> self.mesh().valid_edge(r.unwrap()@) && self.mesh().origin(r.unwrap()@)
                == from@ && self.mesh().target(r.unwrap()@) == to@,
            r.is_none() ==> forall|e: int|
                self.mesh().valid_edge(e) && #[trigger] self.mesh().origin(e) == from@
                    ==> self.mesh().target(e) != to@,
            match r {
                Some(e) => self.mesh().find_edge(from@, to@) == Some(e@),
                None => self.mesh().find_edge(from@, to@).is_none(),
            },
    {
        match self.dcel.get_edge_from_neighbors(from.index(), to.index()) {
            Some(e) => Some(FixedDirectedEdgeHandle::new(e)),
            None => None,
        }
    }

    /// The vertex that forms a triangle with the edge from `from` to `to` on
    /// the left of that edge: the end of the next edge counterclockwise around
    /// `from`, where it lies strictly on the left of the edge. `None` where it
    /// does not, as for an edge of the hull with the outer face on its left.
    pub fn get_left_triangle(&self, from: FixedVertexHandle, to: FixedVertexHandle) -> (r: Option<
        FixedVertexHandle,
    >)
        requires
            self.wf(),
            self.mesh().valid_vertex(from@),
            self.mesh().find_edge(from@, to@).is_some(),
        ensures
            ({
                let e = self.mesh().find_edge(from@, to@).unwrap();
                let w = self.mesh().target(self.mesh().ccw(e));
                &&& self.mesh().valid_vertex(w)
                &&& edge_side(self.mesh(), self.positions(), e, self.positions()[w])
                    == LineSideInfo::Left ==> r.is_some() && r.unwrap()@ == w
                &&& edge_side(self.mesh(), self.positions(), e, self.positions()[w])
                    != LineSideInfo::Left ==> r.is_none()
            }),
    {
        let e: usize = self.dcel.get_edge_from_neighbors(from.index(), to.index()).unwrap();
        proof {
            self.mesh().lemma_ccw(e as int);
        }
        let ccw: usize = self.dcel.twin(self.dcel.prev(e));
        let w: usize = self.dcel.target(ccw);
        let p: Point2 = self.position_of(w);
        if self.edge_side_query(e, p).is_on_left_side() {
            Some(FixedVertexHandle::new(w))
        } else {
            None
        }
    }

    /// The vertex that forms a triangle with the edge from `from` to `to` on
    /// the right of that edge, or `None` where there is none.
    pub fn get_right_triangle(&self, from: FixedVertexHandle, to: FixedVertexHandle) -> (r: Option<
        FixedVertexHandle,
    >)
        requires
            self.wf(),
            self.mesh().valid_vertex(to@),
            self.mesh().find_edge(to@, from@).is_some(),
        ensures
            ({
                let e = self.mesh().find_edge(to@, from@).unwrap();
                let w = self.mesh().target(self.mesh().ccw(e));
                &&& self.mesh().valid_vertex(w)
                &&& edge_side(self.mesh(), self.positions(), e, self.positions()[w])
                    == LineSideInfo::Left ==> r.is_some() && r.unwrap()@ == w
                &&& edge_side(self.mesh(), self.positions(), e, self.positions()[w])
                    != LineSideInfo::Left ==> r.is_none()
            }),
    {
        self.get_left_triangle(to, from)
    }

    /// The vertex that is nearest to `point`: no vertex is closer, and of
    /// the vertices that are as close it is the first. `None` for a
    /// triangulation without vertices.
    pub fn nearest_neighbor(&self, point: Point2) -> (r: Option<FixedVertexHandle>)
        requires
            self.wf(),
            point.in_range(),
        ensures
            r.is_none() <==> self.mesh().num_vertices() == 0,
            r.is_some() ==> {
                let v = r.unwrap()@;
                &&& self.mesh().valid_vertex(v)
                &&& forall|u: int|
                    0 <= u < self.mesh().num_vertices() ==> distance_2_of(
                        self.positions()[v],
                        point,
                    ) <= distance_2_of(#[trigger] self.positions()[u], point)
                &&& forall|u: int|
                    0 <= u < v ==> distance_2_of(self.positions()[v], point) < distance_2_of(
                        #[trigger] self.positions()[u],
                        point,
                    )
            },
    {
        let n: usize = self.dcel.num_vertices();
        if n == 0 {
            return None;
        }
        let ghost pos = self.positions();
        let mut best: usize = 0;
        let mut best_distance: i64 = self.position_of(0).distance_2(point);
        let mut i: usize = 1;
        while i < n
            invariant
                self.wf(),
                point.in_range(),
                pos == self.positions(),
                n == self.mesh().num_vertices(),
                1 <= i <= n,
                0 <= best < i,
                best_distance == distance_2_of(pos[best as int], point),
                forall|u: int|
                    0 <= u < i ==> best_distance <= distance_2_of(#[trigger] pos[u], point),
                forall|u: int|
                    0 <= u < best ==> best_distance < distance_2_of(#[trigger] pos[u], point),
            decreases n - i,
        {
            let d: i64 = self.position_of(i).distance_2(point);
            if d < best_distance {
                best = i;
                best_distance = d;
            }
            i = i + 1;
        }
        Some(FixedVertexHandle::new(best))
    }
}

/// Laws of the triangulation.
impl<V: HasPosition> DelaunayTriangulation<V> {
    /// The number of faces: the outer face alone while all points lie on one
    /// line, the outer face and the triangles else; and there is a triangle
    /// unless all points lie on one line.
    pub proof fn lemma_face_count(&self)
        requires
            self.wf(),
        ensures
            self.is_degenerate() ==> self.mesh().num_faces() == 1,
            !self.is_degenerate() ==> self.mesh().num_faces() - 1 >= 1,
            self.is_degenerate() ==> self.mesh().num_half_edges() == 0,
    {
    }

    /// Following the successors from the half-edge that a face names leads
    /// back to it after as many steps as the face has half-edges, and not
    /// before. Every inner face of a triangulation has three half-edges.
    pub proof fn lemma_face_cycles(&self, f: int)
        requires
            self.wf(),
            self.mesh().valid_face(f),
            self.mesh().faces[f].edge.is_some(),
        ensures
            crate::mesh_insert::cycle_edge(self.mesh(), f, self.mesh().faces[f].len as nat)
                == self.mesh().faces[f].edge.unwrap(),
            forall|k: nat|
                0 < k < self.mesh().faces[f].len ==> #[trigger] crate::mesh_insert::cycle_edge(
                    self.mesh(),
                    f,
                    k,
                ) != self.mesh().faces[f].edge.unwrap(),
            f != 0 ==> self.mesh().faces[f].len == 3,
    {
        let m = self.mesh();
        crate::mesh_insert::lemma_cycle_closes(m, f);
        assert(m.face_ok(f));
        if f != 0 {
            if self.is_degenerate() {
                assert(m.num_faces() == 1);
            } else {
                assert(m.faces[f].len == 3);
            }
        }
    }

    /// Every half-edge lies on the cycle of its face: following the
    /// successors from the half-edge that the face names leads to it.
    pub proof fn lemma_face_edge_consistency(&self, e: int)
        requires
            self.wf(),
            self.mesh().valid_edge(e),
        ensures
            self.mesh().faces[self.mesh().face(e)].edge.is_some(),
            exists|k: nat|
                k < self.mesh().faces[self.mesh().face(e)].len
                    && #[trigger] crate::mesh_insert::cycle_edge(self.mesh(), self.mesh().face(e), k)
                    == e,
    {
        let m = self.mesh();
        let f = m.face(e);
        assert(m.edge_ok(e));
        assert(m.face_ok(f));
        let start = m.faces[f].edge.unwrap();
        assert(m.edge_ok(start));
        let k = cyclic_distance(m.half_edges[start].fpos, m.half_edges[e].fpos, m.faces[f].len);
        crate::mesh_insert::lemma_cycle_edges(m, f, k as nat);
        let c = crate::mesh_insert::cycle_edge(m, f, k as nat);
        assert(m.edge_ok(c));
        if c != e {
            assert(m.positions_differ(c, e));
        }
    }

    /// The half-edge that a vertex names leaves that vertex, and a vertex
    /// names none exactly if no half-edge leaves it.
    pub proof fn lemma_vertex_edge_consistency(&self, v: int)
        requires
            self.wf(),
            self.mesh().valid_vertex(v),
        ensures
            self.mesh().vertices[v].out_edge.is_some() ==> self.mesh().valid_edge(
                self.mesh().vertices[v].out_edge.unwrap(),
            ) && self.mesh().origin(self.mesh().vertices[v].out_edge.unwrap()) == v,
            self.mesh().vertices[v].out_edge.is_none() <==> forall|e: int|
                self.mesh().valid_edge(e) ==> #[trigger] self.mesh().origin(e) != v,
    {
        let m = self.mesh();
        assert(m.vertex_ok(v));
        if m.vertices[v].out_edge.is_none() {
            assert forall|e: int| m.valid_edge(e) implies #[trigger] m.origin(e) != v by {
                m.lemma_isolated_vertex(v, e);
            }
        } else {
            let e = m.vertices[v].out_edge.unwrap();
            assert(m.origin(e) == v);
        }
    }

    /// The twin of the twin of a half-edge is the half-edge, and the twin
    /// starts where the half-edge ends.
    pub proof fn lemma_twin(&self, e: int)
        requires
            self.wf(),
            self.mesh().valid_edge(e),
        ensures
            self.mesh().valid_edge(twin_index(e)),
            twin_index(twin_index(e)) == e,
            self.mesh().origin(twin_index(e)) == self.mesh().target(e),
            self.mesh().target(twin_index(e)) == self.mesh().origin(e),
    {
        self.mesh().lemma_twin_valid(e);
    }

    /// A triangulation that has grown by insertions is degenerate exactly if
    /// all its points lie on one line.
    pub proof fn lemma_degenerate_iff_on_line(&self)
        requires
            self.oriented(),
        ensures
            self.is_degenerate() <==> forall|a: int, b: int, c: int|
                0 <= a < self.positions().len() && 0 <= b < self.positions().len() && 0 <= c
                    < self.positions().len() ==> orient2d(
                    #[trigger] self.positions()[a],
                    #[trigger] self.positions()[b],
                    #[trigger] self.positions()[c],
                ) == 0,
    {
        let pos = self.positions();
        let m = self.mesh();
        if self.is_degenerate() {
            assert forall|a: int, b: int, c: int|
                0 <= a < pos.len() && 0 <= b < pos.len() && 0 <= c < pos.len() implies orient2d(
                #[trigger] pos[a],
                #[trigger] pos[b],
                #[trigger] pos[c],
            ) == 0 by {
                if pos.len() >= 2 {
                    assert(pos[0] != pos[1]);
                    assert(orient2d(pos[0], pos[1], pos[a]) == 0);
                    assert(orient2d(pos[0], pos[1], pos[b]) == 0);
                    assert(orient2d(pos[0], pos[1], pos[c]) == 0);
                    crate::geometry::lemma_collinear_transfer(pos[0], pos[1], pos[a], pos[b], pos[c]);
                } else {
                    assert(orient2d(pos[a], pos[a], pos[a]) == 0) by (nonlinear_arith);
                }
            }
        } else {
            assert(m.faces[1].len == 3);
            assert(m.face_ok(1));
            let e = m.faces[1].edge.unwrap();
            assert(m.edge_ok(e));
            assert(m.edge_ok(m.prev(e)));
            assert(m.edge_ok(twin_index(e)));
            assert(ccw_at(m, pos, e));
            assert(orient2d(pos[m.origin(e)], pos[m.target(e)], pos[m.apex(e)]) > 0);
        }
    }

    /// The corners of every triangle of a triangulation that has grown by
    /// insertions are in counterclockwise order.
    pub proof fn lemma_counterclockwise(&self, e: int)
        requires
            self.oriented(),
            self.mesh().valid_edge(e),
            self.mesh().face(e) != 0,
        ensures
            orient2d(
                self.positions()[self.mesh().origin(e)],
                self.positions()[self.mesh().target(e)],
                self.positions()[self.mesh().apex(e)],
            ) > 0,
    {
        assert(ccw_at(self.mesh(), self.positions(), e));
    }

    /// Every vertex is found at its position, whatever the start of the
    /// walk.
    pub proof fn lemma_locate_finds_vertex(&self, v: int, hint: int)
        requires
            self.wf(),
            self.indexed(),
            self.mesh().valid_vertex(v),
        ensures
            self.locate_spec(self.positions()[v], hint) == Some(Location::OnPoint(v)),
    {
        self.dcel.lemma_wf();
        let p = self.positions()[v];
        assert(self.hint_value().entries.contains_key(position_key(self.positions()[v])));
        if self.is_degenerate() {
            lemma_first_vertex_at(self.positions(), p, 0);
            let u = first_vertex_at(self.positions(), p, 0).unwrap();
            lemma_index_distinct(self.hint_value().entries, self.positions(), u, v);
        }
    }

    /// In a mesh of triangles that has grown by insertions, every edge has a
    /// triangle on one side, its two ends are different vertices at different
    /// positions, and every vertex has an edge.
    pub proof fn lemma_solid(&self)
        requires
            self.oriented(),
            !self.is_degenerate(),
        ensures
            forall|e: int|
                self.mesh().valid_edge(e) ==> #[trigger] self.mesh().face(e) != 0
                    || self.mesh().face(twin_index(e)) != 0,
            forall|e: int|
                self.mesh().valid_edge(e) ==> self.mesh().origin(e) != #[trigger] self.mesh().target(e)
                    && self.positions()[self.mesh().origin(e)] != self.positions()[self.mesh().target(e)],
            forall|v: int|
                self.mesh().valid_vertex(v) ==> (#[trigger] self.mesh().vertices[v]).out_edge.is_some(),
    {
        lemma_solid_edges(self.mesh(), self.positions());
        assert forall|e: int| self.mesh().valid_edge(e) implies #[trigger] self.mesh().face(e) != 0
            || self.mesh().face(twin_index(e)) != 0 by {
            assert(bordered_at(self.mesh(), e));
        }
        assert forall|v: int| self.mesh().valid_vertex(v) implies (
        #[trigger] self.mesh().vertices[v]).out_edge.is_some() by {
            assert(attached_at(self.mesh(), v));
        }
    }

    /// Every vertex of a triangulation that has grown by insertions can be
    /// removed.
    pub proof fn lemma_vertex_removable(&self, v: int)
        requires
            self.oriented(),
            self.mesh().valid_vertex(v),
        ensures
            self.removable(v),
    {
        if !self.is_degenerate() {
            self.lemma_star_is_simple(v);
            if !self.mesh().touches_outer_face(v) {
                self.lemma_inner_vertex_degree(v);
            }
        }
    }

    /// In a mesh of triangles that has grown by insertions, no edge is a
    /// loop and no face comes by a vertex twice.
    #[verifier::spinoff_prover]
    pub proof fn lemma_star_is_simple(&self, v: int)
        requires
            self.oriented(),
            !self.is_degenerate(),
            self.mesh().valid_vertex(v),
        ensures
            self.mesh().can_remove_vertex(v),
    {
        let m = self.mesh();
        let pos = self.positions();
        lemma_solid_edges(m, pos);
        assert forall|e: int| m.valid_edge(e) implies #[trigger] m.star_edge_ok(v, e) by {
            assert(m.origin(e) != m.target(e));
        }
        assert forall|e1: int, e2: int|
            m.valid_edge(e1) && m.valid_edge(e2) && e1 != e2 implies #[trigger] m.star_pair_ok(
            v,
            e1,
            e2,
        ) by {
            if m.origin(e1) == v && m.origin(e2) == v && m.face(e1) == m.face(e2) {
                assert(hull_pair_ok(m, e1, e2));
                assert(m.face(e1) != 0);
                assert(m.edge_ok(e1));
                assert(m.edge_ok(e2));
                assert(m.faces[m.face(e1)].len == 3);
                m.lemma_triangle(e1);
                m.lemma_triangle_edges(e1, e2);
                assert(m.origin(m.next(e1)) != m.target(m.next(e1)));
                assert(m.origin(m.prev(e1)) != m.target(m.prev(e1)));
                assert(m.origin(e1) != m.target(e1));
            }
        }
    }

    /// In a mesh of triangles that has grown by insertions, every vertex
    /// inside the hull has at least three edges.
    #[verifier::spinoff_prover]
    pub proof fn lemma_inner_vertex_degree(&self, v: int)
        requires
            self.oriented(),
            !self.is_degenerate(),
            self.mesh().valid_vertex(v),
            !self.mesh().touches_outer_face(v),
        ensures
            self.mesh().vertices[v].degree >= 3,
    {
        let m = self.mesh();
        let pos = self.positions();
        lemma_solid_edges(m, pos);
        assert(attached_at(m, v));
        assert(m.vertex_ok(v));
        let e = m.vertices[v].out_edge.unwrap();
        let c = m.ccw(e);
        let d = m.ccw(c);
        m.lemma_ccw(e);
        m.lemma_ccw(c);
        assert(m.edge_ok(e) && m.edge_ok(c) && m.edge_ok(d));
        assert(m.edge_ok(m.prev(e)) && m.edge_ok(m.prev(c)));
        assert(m.edge_ok(twin_index(e)) && m.edge_ok(twin_index(c)));
        assert(m.face(e) != 0);
        assert(m.face(c) != 0);
        assert(m.faces[m.face(e)].len == 3);
        assert(m.faces[m.face(c)].len == 3);
        m.lemma_triangle(e);
        m.lemma_triangle(c);
        assert(ccw_at(m, pos, e));
        assert(ccw_at(m, pos, c));
        let a = pos[v];
        let b = pos[m.target(e)];
        let x = pos[m.apex(e)];
        if m.vertices[v].degree < 3 {
            if c == e {
                // One edge only: the triangle on its left would have the end
                // of the edge as two of its corners.
                assert(m.prev(e) == twin_index(e)) by {
                    crate::handles::lemma_twin_involution(m.prev(e));
                    crate::handles::lemma_twin_involution(e);
                }
                assert(orient2d(a, b, b) == 0) by (nonlinear_arith);
            } else {
                // Two edges: the triangles on their left would have the same
                // corners in opposite order.
                if m.vertices[v].degree == 2 {
                    assert(d != c ==> m.positions_differ(d, c));
                    assert(d != e ==> m.positions_differ(d, e));
                    assert(d == e);
                    assert(m.prev(c) == twin_index(e)) by {
                        crate::handles::lemma_twin_involution(m.prev(c));
                        crate::handles::lemma_twin_involution(e);
                    }
                    assert(m.prev(e) == twin_index(c)) by {
                        crate::handles::lemma_twin_involution(m.prev(e));
                        crate::handles::lemma_twin_involution(c);
                    }
                    assert(orient2d(a, b, x) == -orient2d(a, x, b)) by (nonlinear_arith);
                } else {
                    assert(m.positions_differ(c, e));
                }
            }
        }
    }

    /// In every triangulation that has been made by `new` and changed by
    /// insertions and removals, and of which `has_stopped_short` reports
    /// nothing, the corners of every triangle are in counterclockwise order
    /// and no triangle has the far corner of a neighbour strictly inside its
    /// circle.
    pub proof fn lemma_valid_triangles(&self, e: int)
        requires
            self.valid(),
            !self.stopped_short(),
            self.mesh().valid_edge(e),
            self.mesh().face(e) != 0,
        ensures
            orient2d(
                self.positions()[self.mesh().origin(e)],
                self.positions()[self.mesh().target(e)],
                self.positions()[self.mesh().apex(e)],
            ) > 0,
            self.mesh().face(twin_index(e)) != 0 ==> incircle_det(
                self.positions()[self.mesh().origin(e)],
                self.positions()[self.mesh().target(e)],
                self.positions()[self.mesh().apex(e)],
                self.positions()[self.mesh().apex(twin_index(e))],
            ) <= 0,
    {
        assert(ccw_at(self.mesh(), self.positions(), e));
        assert(delaunay_at(self.mesh(), self.positions(), e));
    }

    /// No two vertices lie at one position.
    pub proof fn lemma_positions_differ(&self, u: int, v: int)
        requires
            self.wf(),
            self.indexed(),
            self.mesh().valid_vertex(u),
            self.mesh().valid_vertex(v),
            u != v,
        ensures
            self.positions()[u] != self.positions()[v],
    {
        self.dcel.lemma_wf();
        if self.positions()[u] == self.positions()[v] {
            lemma_index_distinct(self.hint_value().entries, self.positions(), u, v);
        }
    }

    /// An insertion at the position of a vertex returns that vertex and adds
    /// none, whatever the start of the walk: the second of two insertions at
    /// one position changes the payload only.
    pub proof fn lemma_insertion_is_idempotent(pre: &Self, post: &Self, t: V, v: int, hint: int)
        requires
            pre.wf(),
            pre.indexed(),
            pre.mesh().valid_vertex(v),
            pre.positions()[v] == t.position_spec(),
            pre.locate_spec(t.position_spec(), hint).is_some(),
            exists|r: int|
                Self::insertion_at(
                    pre,
                    post,
                    t,
                    pre.locate_spec(t.position_spec(), hint).unwrap(),
                    r,
                ),
        ensures
            Self::insertion_at(pre, post, t, Location::OnPoint(v), v),
            post.mesh() == pre.mesh(),
            post.vertex_data() == pre.vertex_data().update(v, t),
    {
        pre.lemma_locate_finds_vertex(v, hint);
    }

    /// A triangulation without vertices is degenerate.
    pub proof fn lemma_empty_is_degenerate(&self)
        requires
            self.wf(),
            self.mesh().num_vertices() == 0,
        ensures
            self.is_degenerate(),
            self.mesh().num_faces() == 1,
    {
        if !self.is_degenerate() {
            self.lemma_has_vertex();
        }
    }

    /// An insertion at a position that no vertex has adds exactly one vertex;
    /// an insertion at the position of a vertex adds none, returns that
    /// vertex and gives it the new payload.
    pub proof fn lemma_insertion_count(pre: &Self, post: &Self, t: V, loc: Location, v: int)
        requires
            pre.wf(),
            location_holds(pre.mesh(), pre.positions(), t.position_spec(), loc),
            Self::insertion_at(pre, post, t, loc, v),
        ensures
            (forall|u: int|
                0 <= u < pre.positions().len() ==> #[trigger] pre.positions()[u]
                    != t.position_spec()) ==> post.vertex_data().len() == pre.vertex_data().len()
                + 1 && v == pre.vertex_data().len(),
            (loc matches Location::OnPoint(u)) ==> post.vertex_data().len()
                == pre.vertex_data().len() && post.vertex_data()[v] == t && pre.positions()[v]
                == t.position_spec() && post.mesh() == pre.mesh(),
    {
    }

    /// While the triangulation is degenerate, a point is located at the first
    /// vertex that has its position, whatever the hint.
    pub proof fn lemma_locate_degenerate(&self, p: Point2, v: int, hint: int)
        requires
            self.wf(),
            self.is_degenerate(),
            0 <= v < self.positions().len(),
            self.positions()[v] == p,
            forall|u: int| 0 <= u < v ==> #[trigger] self.positions()[u] != p,
        ensures
            self.locate_spec(p, hint) == Some(Location::OnPoint(v)),
    {
        lemma_first_vertex_at(self.positions(), p, 0);
    }
}


impl<V: HasPosition> DelaunayTriangulation<V> {
    /// The handles of all vertices, by growing index.
    pub fn vertices(&self) -> (r: Vec<FixedVertexHandle>)
        requires
            self.wf(),
        ensures
            r@.len() == self.mesh().num_vertices(),
            forall|i: int| 0 <= i < r@.len() ==> (#[trigger] r@[i])@ == i,
    {
        let n: usize = self.dcel.num_vertices();
        let mut r: Vec<FixedVertexHandle> = Vec::new();
        let mut i: usize = 0;
        while i < n
            invariant
                0 <= i <= n,
                r@.len() == i,
                forall|j: int| 0 <= j < i ==> (#[trigger] r@[j])@ == j,
            decreases n - i,
        {
            r.push(FixedVertexHandle::new(i));
            i = i + 1;
        }
        r
    }

    /// The handles of all undirected edges, by growing index.
    pub fn edges(&self) -> (r: Vec<FixedUndirectedEdgeHandle>)
        requires
            self.wf(),
        ensures
            r@.len() == self.mesh().num_half_edges() / 2,
            forall|i: int| 0 <= i < r@.len() ==> (#[trigger] r@[i])@ == i,
    {
        let n: usize = self.dcel.num_edges();
        let mut r: Vec<FixedUndirectedEdgeHandle> = Vec::new();
        let mut i: usize = 0;
        while i < n
            invariant
                0 <= i <= n,
                r@.len() == i,
                forall|j: int| 0 <= j < i ==> (#[trigger] r@[j])@ == j,
            decreases n - i,
        {
            r.push(FixedUndirectedEdgeHandle::new(i));
            i = i + 1;
        }
        r
    }

    /// The handles of all triangles: of every face but the outer face, by
    /// growing index.
    pub fn triangles(&self) -> (r: Vec<FixedFaceHandle<InnerTag>>)
        requires
            self.wf(),
        ensures
            r@.len() == self.mesh().num_faces() - 1,
            forall|i: int| 0 <= i < r@.len() ==> (#[trigger] r@[i])@ == i + 1,
    {
        let n: usize = self.dcel.num_faces();
        let mut r: Vec<FixedFaceHandle<InnerTag>> = Vec::new();
        let mut i: usize = 1;
        while i < n
            invariant
                1 <= i <= n,
                r@.len() == i - 1,
                forall|j: int| 0 <= j < r@.len() ==> (#[trigger] r@[j])@ == j + 1,
            decreases n - i,
        {
            r.push(FixedFaceHandle::new_inner(i));
            i = i + 1;
        }
        r
    }
}


/// The point `q`, which lies on the line through `a` and `b`, lies on the
/// segment from `a` to `b`, end points included.
pub open spec fn on_segment(a: Point2, b: Point2, q: Point2) -> bool {
    0 <= projection_factor(a, b, q) <= distance_2_of(a, b)
}

/// The segment from `a` to `b` and the segment from `c` to `d` have a point
/// in common.
pub open spec fn segments_meet(a: Point2, b: Point2, c: Point2, d: Point2) -> bool {
    if orient2d(a, b, c) == 0 && orient2d(a, b, d) == 0 && orient2d(c, d, a) == 0 && orient2d(
        c,
        d,
        b,
    ) == 0 {
        on_segment(a, b, c) || on_segment(a, b, d) || on_segment(c, d, a) || on_segment(c, d, b)
    } else {
        side_of(a, b, c) != side_of(a, b, d) && side_of(c, d, a) != side_of(c, d, b)
    }
}

/// The edges of the half-edges `e1` and `e2` have no point in common unless
/// they share a vertex.
pub open spec fn apart_at(m: Mesh, pos: Seq<Point2>, e1: int, e2: int) -> bool {
    m.origin(e1) != m.origin(e2) && m.origin(e1) != m.target(e2) && m.target(e1) != m.origin(e2)
        && m.target(e1) != m.target(e2) ==> !segments_meet(
        pos[m.origin(e1)],
        pos[m.target(e1)],
        pos[m.origin(e2)],
        pos[m.target(e2)],
    )
}

/// Decides whether two segments have a point in common.
pub fn segments_meet_check(a: Point2, b: Point2, c: Point2, d: Point2) -> (r: bool)
    requires
        a.in_range(),
        b.in_range(),
        c.in_range(),
        d.in_range(),
    ensures
        r == segments_meet(a, b, c, d),
{
    let all_on_line: bool = orient2d_exact(a, b, c) == 0 && orient2d_exact(a, b, d) == 0
        && orient2d_exact(c, d, a) == 0 && orient2d_exact(c, d, b) == 0;
    if all_on_line {
        project_point(a, b, c).is_on_edge() || project_point(a, b, d).is_on_edge() || project_point(
            c,
            d,
            a,
        ).is_on_edge() || project_point(c, d, b).is_on_edge()
    } else {
        intersects_edge_non_collinear(a, b, c, d)
    }
}

impl<V: HasPosition> DelaunayTriangulation<V> {
    /// No two edges have a point in common unless they share a vertex.
    pub open spec fn planar(&self) -> bool {
        forall|e1: int, e2: int|
            0 <= e1 < self.mesh().num_half_edges() && 0 <= e2 < self.mesh().num_half_edges()
                ==> #[trigger] apart_at(self.mesh(), self.positions(), e1, e2)
    }

    /// Whether the edges of the half-edges `e1` and `e2` have no point in
    /// common unless they share a vertex.
    fn is_apart_at(&self, e1: usize, e2: usize) -> (b: bool)
        requires
            self.wf(),
            self.mesh().valid_edge(e1 as int),
            self.mesh().valid_edge(e2 as int),
        ensures
            b == apart_at(self.mesh(), self.positions(), e1 as int, e2 as int),
    {
        let a: usize = self.dcel.origin(e1);
        let b: usize = self.dcel.target(e1);
        let c: usize = self.dcel.origin(e2);
        let d: usize = self.dcel.target(e2);
        if a == c || a == d || b == c || b == d {
            return true;
        }
        !segments_meet_check(
            self.position_of(a),
            self.position_of(b),
            self.position_of(c),
            self.position_of(d),
        )
    }

    /// Decides whether the triangulation is planar: whether no two edges have
    /// a point in common unless they share a vertex.
    pub fn is_planar(&self) -> (b: bool)
        requires
            self.wf(),
        ensures
            b == self.planar(),
    {
        let n: usize = self.dcel.num_half_edges();
        let mut e1: usize = 0;
        while e1 < n
            invariant
                self.wf(),
                n == self.mesh().num_half_edges(),
                0 <= e1 <= n,
                forall|i: int, j: int|
                    0 <= i < e1 && 0 <= j < n ==> #[trigger] apart_at(
                        self.mesh(),
                        self.positions(),
                        i,
                        j,
                    ),
            decreases n - e1,
        {
            let mut e2: usize = 0;
            while e2 < n
                invariant
                    self.wf(),
                    n == self.mesh().num_half_edges(),
                    0 <= e1 < n,
                    0 <= e2 <= n,
                    forall|j: int|
                        0 <= j < e2 ==> #[trigger] apart_at(
                            self.mesh(),
                            self.positions(),
                            e1 as int,
                            j,
                        ),
                decreases n - e2,
            {
                if !self.is_apart_at(e1, e2) {
                    return false;
                }
                e2 = e2 + 1;
            }
            e1 = e1 + 1;
        }
        true
    }
}

} // verus!
