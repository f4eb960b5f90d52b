//! Dynamic handles: a fixed handle together with a reference to the mesh.
//!
//! A dynamic handle can navigate: from an edge to its end points, to the next
//! edge around its face or around its origin, to the face on its left. It
//! borrows the mesh and is therefore gone before the next change to it.
use vstd::prelude::*;
use crate::dcel::Dcel;
use crate::delaunay::{positions_of, HasPosition};
use crate::handles::{
    twin_index, FixedDirectedEdgeHandle, FixedFaceHandle, FixedUndirectedEdgeHandle,
    FixedVertexHandle, InnerTag, PossiblyOuterTag,
};
use crate::math::{
    barycentric_interpolation, barycentric_spec, center, circumcenter, circumcenter_spec,
    circumcircle, distance_2, distance_2_of, distance_2_spec, distance_2_triangle,
    distance_2_triangle_spec, intersects_edge_non_collinear, lemma_product_bound, nearest_point,
    nearest_point_spec, orient2d, project_point, projection_factor, side_of, side_query, Circle,
    LineSideInfo, Point2, PointProjection, Ratio, RatioPoint,
};
use crate::mesh::Mesh;
use crate::solidity::{attached_at, bordered_at, ends_apart, no_loops, solid};

verus! {

/// A fixed handle of type `H` together with the mesh into which it points.
pub struct DynamicHandleImpl<'a, V, H> {
    dcel: &'a Dcel<V>,
    handle: H,
}

/// A vertex of a mesh.
pub type VertexHandle<'a, V> = DynamicHandleImpl<'a, V, FixedVertexHandle>;

/// A directed edge of a mesh.
pub type DirectedEdgeHandle<'a, V> = DynamicHandleImpl<'a, V, FixedDirectedEdgeHandle>;

/// An undirected edge of a mesh.
pub type UndirectedEdgeHandle<'a, V> = DynamicHandleImpl<'a, V, FixedUndirectedEdgeHandle>;

/// A face of a mesh.
pub type FaceHandle<'a, Tag, V> = DynamicHandleImpl<'a, V, FixedFaceHandle<Tag>>;

impl<'a, V, H> DynamicHandleImpl<'a, V, H> {
    /// The model of the mesh into which the handle points.
    pub closed spec fn mesh(&self) -> Mesh {
        self.dcel.mesh()
    }

    /// The payloads of the vertices of the mesh.
    pub closed spec fn vertex_data(&self) -> Seq<V> {
        self.dcel.data()
    }

    /// The arrays of the mesh hold its model.
    pub closed spec fn storage_wf(&self) -> bool {
        self.dcel.wf()
    }

    /// The fixed handle.
    pub closed spec fn fix_spec(&self) -> H {
        self.handle
    }

    /// The handle `handle` into the mesh `dcel`.
    pub fn new(dcel: &'a Dcel<V>, handle: H) -> (h: Self)
        ensures
            h.mesh() == dcel.mesh(),
            h.vertex_data() == dcel.data(),
            h.storage_wf() == dcel.wf(),
            h.fix_spec() == handle,
    {
        DynamicHandleImpl { dcel, handle }
    }

    /// The handle `handle` into the same mesh.
    pub open spec fn same_mesh<H2>(&self, other: &DynamicHandleImpl<'a, V, H2>) -> bool {
        &&& self.mesh() == other.mesh()
        &&& self.vertex_data() == other.vertex_data()
        &&& self.storage_wf() == other.storage_wf()
    }
}

impl<'a, V, H: Copy> DynamicHandleImpl<'a, V, H> {
    /// Converts this dynamic handle to its fixed variant.
    pub fn fix(&self) -> (h: H)
        ensures
            h == self.fix_spec(),
    {
        self.handle
    }
}

impl<'a, V> DirectedEdgeHandle<'a, V> {
    /// The handle points at a half-edge of a well-formed mesh.
    pub open spec fn wf(&self) -> bool {
        &&& self.storage_wf()
        &&& self.mesh().wf()
        &&& self.vertex_data().len() == self.mesh().num_vertices()
        &&& self.mesh().valid_edge(self.fix_spec()@)
    }

    /// Returns the edge's two vertices.
    ///
    /// The first vertex is `self.from()`, the second vertex is `self.to()`.
    pub fn vertices(&self) -> (r: [VertexHandle<'a, V>; 2])
        requires
            self.wf(),
        ensures
            r[0].wf() && r[0].same_mesh(self) && r[0].fix_spec()@ == self.mesh().origin(
                self.fix_spec()@,
            ),
            r[1].wf() && r[1].same_mesh(self) && r[1].fix_spec()@ == self.mesh().target(
                self.fix_spec()@,
            ),
    {
        [self.from(), self.to()]
    }

    /// Returns the edge's origin vertex.
    pub fn from(&self) -> (r: VertexHandle<'a, V>)
        requires
            self.wf(),
        ensures
            r.wf(),
            r.same_mesh(self),
            r.fix_spec()@ == self.mesh().origin(self.fix_spec()@),
    {
        let v: usize = self.dcel.origin(self.handle.index());
        DynamicHandleImpl::new(self.dcel, FixedVertexHandle::new(v))
    }

    /// Returns the edge's destination vertex.
    pub fn to(&self) -> (r: VertexHandle<'a, V>)
        requires
            self.wf(),
        ensures
            r.wf(),
            r.same_mesh(self),
            r.fix_spec()@ == self.mesh().target(self.fix_spec()@),
            no_loops(self.mesh()) ==> r.fix_spec()@ != self.mesh().origin(self.fix_spec()@),
    {
        proof {
            let e = self.fix_spec()@;
            if no_loops(self.mesh()) {
                assert(self.mesh().origin(e) != self.mesh().target(e));
            }
        }
        self.rev().from()
    }

    /// Returns this edge in reversed direction.
    pub fn rev(&self) -> (r: Self)
        requires
            self.wf(),
        ensures
            r.wf(),
            r.same_mesh(self),
            r.fix_spec()@ == twin_index(self.fix_spec()@),
    {
        proof {
            self.mesh().lemma_twin_valid(self.handle@);
        }
        DynamicHandleImpl::new(self.dcel, self.handle.rev())
    }

    /// Returns the vertex which lies opposite of this edge.
    ///
    /// This is equal to calling `self.prev().from()` or `self.next().to()`.
    /// Returns `None` if this edge has the outer face on its left.
    pub fn opposite_vertex(&self) -> (r: Option<VertexHandle<'a, V>>)
        requires
            self.wf(),
        ensures
            r.is_none() <==> self.mesh().face(self.fix_spec()@) == 0,
            r.is_some() ==> r.unwrap().wf() && r.unwrap().same_mesh(self) && r.unwrap().fix_spec()@
                == self.mesh().apex(self.fix_spec()@),
    {
        if self.is_outer_edge() {
            None
        } else {
            Some(self.prev().from())
        }
    }

    /// Returns the oriented next edge.
    ///
    /// The oriented next edge shares the same face as this edge. When
    /// traversing the face's edges counterclockwise, this edge is the
    /// predecessor of the oriented next edge.
    pub fn next(&self) -> (r: Self)
        requires
            self.wf(),
        ensures
            r.wf(),
            r.same_mesh(self),
            r.fix_spec()@ == self.mesh().next(self.fix_spec()@),
    {
        let e: usize = self.dcel.next(self.handle.index());
        DynamicHandleImpl::new(self.dcel, FixedDirectedEdgeHandle::new(e))
    }

    /// Returns the oriented previous edge.
    ///
    /// The oriented previous edge shares the same face as this edge. When
    /// traversing the face's edges counterclockwise, this edge is the
    /// successor of the oriented previous edge.
    pub fn prev(&self) -> (r: Self)
        requires
            self.wf(),
        ensures
            r.wf(),
            r.same_mesh(self),
            r.fix_spec()@ == self.mesh().prev(self.fix_spec()@),
    {
        let e: usize = self.dcel.prev(self.handle.index());
        DynamicHandleImpl::new(self.dcel, FixedDirectedEdgeHandle::new(e))
    }

    /// Returns the face located to the left of this edge.
    pub fn face(&self) -> (r: FaceHandle<'a, PossiblyOuterTag, V>)
        requires
            self.wf(),
        ensures
            r.wf(),
            r.same_mesh(self),
            r.fix_spec()@ == self.mesh().face(self.fix_spec()@),
    {
        let f: usize = self.dcel.face(self.handle.index());
        DynamicHandleImpl::new(self.dcel, FixedFaceHandle::new(f))
    }

    /// Returns the next edge in clockwise direction around the origin.
    pub fn cw(&self) -> (r: Self)
        requires
            self.wf(),
        ensures
            r.wf(),
            r.same_mesh(self),
            r.fix_spec()@ == self.mesh().cw(self.fix_spec()@),
    {
        self.rev().next()
    }

    /// Returns the next edge in counterclockwise direction around the
    /// origin.
    pub fn ccw(&self) -> (r: Self)
        requires
            self.wf(),
        ensures
            r.wf(),
            r.same_mesh(self),
            r.fix_spec()@ == self.mesh().ccw(self.fix_spec()@),
    {
        self.prev().rev()
    }

    /// Converts this directed edge handle into an undirected edge handle.
    pub fn as_undirected(&self) -> (r: UndirectedEdgeHandle<'a, V>)
        requires
            self.wf(),
        ensures
            r.wf(),
            r.same_mesh(self),
            r.fix_spec()@ == self.fix_spec()@ / 2,
    {
        DynamicHandleImpl::new(self.dcel, self.handle.as_undirected())
    }

    /// Returns `true` if this edge has the outer face on its left.
    pub fn is_outer_edge(&self) -> (b: bool)
        requires
            self.wf(),
        ensures
            b == (self.mesh().face(self.fix_spec()@) == 0),
            solid(self.mesh()) && b ==> self.mesh().face(twin_index(self.fix_spec()@)) != 0,
    {
        proof {
            if solid(self.mesh()) {
                assert(bordered_at(self.mesh(), self.fix_spec()@));
            }
        }
        self.face().fix().is_outer()
    }

    /// Returns `true` if either this edge or its reversed edge has the outer
    /// face on its left.
    pub fn is_part_of_convex_hull(&self) -> (b: bool)
        requires
            self.wf(),
        ensures
            b == (self.mesh().face(self.fix_spec()@) == 0 || self.mesh().face(
                twin_index(self.fix_spec()@),
            ) == 0),
    {
        self.is_outer_edge() || self.rev().is_outer_edge()
    }

    /// Converts this edge into its corresponding edge of the Voronoi diagram.
    pub fn as_voronoi_edge(&self) -> (r: DirectedVoronoiEdge<'a, V>)
        requires
            self.wf(),
        ensures
            r.wf(),
            r.delaunay_edge()@ == self.fix_spec()@,
            r.mesh() == self.mesh(),
    {
        DirectedVoronoiEdge { dcel: self.dcel, handle: self.handle }
    }
}

/// The position of the vertex `v`, given the payloads of the vertices.
pub open spec fn position_at<V: HasPosition>(data: Seq<V>, v: int) -> Point2 {
    data[v].position_spec()
}

/// All positions lie in the range of the exact predicates.
pub open spec fn positions_in_range<V: HasPosition>(data: Seq<V>) -> bool {
    forall|v: int| 0 <= v < data.len() ==> (#[trigger] data[v]).position_spec().in_range()
}

impl<'a, V: HasPosition> DirectedEdgeHandle<'a, V> {
    /// Returns the position of the vertex opposite of this edge.
    ///
    /// Returns `None` if this edge has the outer face on its left.
    pub fn opposite_position(&self) -> (r: Option<Point2>)
        requires
            self.wf(),
        ensures
            r.is_none() <==> self.mesh().face(self.fix_spec()@) == 0,
            r.is_some() ==> r.unwrap() == position_at(
                self.vertex_data(),
                self.mesh().apex(self.fix_spec()@),
            ),
    {
        match self.opposite_vertex() {
            Some(v) => Some(v.position()),
            None => None,
        }
    }

    /// Returns the squared length of this edge.
    pub fn length_2(&self) -> (r: i64)
        requires
            self.wf(),
            positions_in_range(self.vertex_data()),
        ensures
            r == distance_2_of(
                position_at(self.vertex_data(), self.mesh().origin(self.fix_spec()@)),
                position_at(self.vertex_data(), self.mesh().target(self.fix_spec()@)),
            ),
            ends_apart(self.mesh(), positions_of(self.vertex_data())) ==> r > 0,
    {
        let p1: Point2 = self.from().position();
        let p2: Point2 = self.to().position();
        proof {
            let e = self.fix_spec()@;
            assert(self.mesh().edge_ok(e));
            assert(self.mesh().edge_ok(twin_index(e)));
            if ends_apart(self.mesh(), positions_of(self.vertex_data())) {
                assert(positions_of(self.vertex_data())[self.mesh().origin(e)] != positions_of(
                    self.vertex_data(),
                )[self.mesh().target(e)]);
                assert(p1 != p2);
                let dx = p2.x - p1.x;
                let dy = p2.y - p1.y;
                assert(dx * dx + dy * dy > 0) by (nonlinear_arith)
                    requires
                        dx != 0 || dy != 0,
                ;
            }
        }
        p1.distance_2(p2)
    }

    /// Identifies on which side of this edge a point lies.
    pub fn side_query(&self, query_point: Point2) -> (r: LineSideInfo)
        requires
            self.wf(),
            positions_in_range(self.vertex_data()),
            query_point.in_range(),
        ensures
            r == side_of(
                position_at(self.vertex_data(), self.mesh().origin(self.fix_spec()@)),
                position_at(self.vertex_data(), self.mesh().target(self.fix_spec()@)),
                query_point,
            ),
    {
        let p1: Point2 = self.from().position();
        let p2: Point2 = self.to().position();
        side_query(p1, p2, query_point)
    }

    /// Projects a point on the line going through this edge.
    pub fn project_point(&self, query_point: Point2) -> (r: PointProjection)
        requires
            self.wf(),
            positions_in_range(self.vertex_data()),
            query_point.in_range(),
        ensures
            r.factor_spec() == projection_factor(
                position_at(self.vertex_data(), self.mesh().origin(self.fix_spec()@)),
                position_at(self.vertex_data(), self.mesh().target(self.fix_spec()@)),
                query_point,
            ),
            r.length_2_spec() == distance_2_of(
                position_at(self.vertex_data(), self.mesh().origin(self.fix_spec()@)),
                position_at(self.vertex_data(), self.mesh().target(self.fix_spec()@)),
            ),
    {
        let p1: Point2 = self.from().position();
        let p2: Point2 = self.to().position();
        project_point(p1, p2, query_point)
    }

    /// Whether this edge meets the segment from `other_from` to `other_to`,
    /// which does not lie on the line of this edge.
    pub fn intersects_edge_non_collinear(&self, other_from: Point2, other_to: Point2) -> (b: bool)
        requires
            self.wf(),
            positions_in_range(self.vertex_data()),
            other_from.in_range(),
            other_to.in_range(),
            ({
                let p1 = position_at(self.vertex_data(), self.mesh().origin(self.fix_spec()@));
                let p2 = position_at(self.vertex_data(), self.mesh().target(self.fix_spec()@));
                !(orient2d(p1, p2, other_from) == 0 && orient2d(p1, p2, other_to) == 0 && orient2d(
                    other_from,
                    other_to,
                    p1,
                ) == 0 && orient2d(other_from, other_to, p2) == 0)
            }),
        ensures
            ({
                let p1 = position_at(self.vertex_data(), self.mesh().origin(self.fix_spec()@));
                let p2 = position_at(self.vertex_data(), self.mesh().target(self.fix_spec()@));
                b == (side_of(p1, p2, other_from) != side_of(p1, p2, other_to) && side_of(
                    other_from,
                    other_to,
                    p1,
                ) != side_of(other_from, other_to, p2))
            }),
    {
        let p1: Point2 = self.from().position();
        let p2: Point2 = self.to().position();
        intersects_edge_non_collinear(p1, p2, other_from, other_to)
    }
}

impl<'a, V> UndirectedEdgeHandle<'a, V> {
    /// The handle points at an edge of a well-formed mesh.
    pub open spec fn wf(&self) -> bool {
        &&& self.storage_wf()
        &&& self.mesh().wf()
        &&& self.vertex_data().len() == self.mesh().num_vertices()
        &&& self.mesh().valid_edge(2 * self.fix_spec()@)
    }

    /// Returns the edge's two vertices, in any order.
    pub fn vertices(&self) -> (r: [VertexHandle<'a, V>; 2])
        requires
            self.wf(),
        ensures
            r[0].wf() && r[0].same_mesh(self) && r[0].fix_spec()@ == self.mesh().origin(
                2 * self.fix_spec()@,
            ),
            r[1].wf() && r[1].same_mesh(self) && r[1].fix_spec()@ == self.mesh().target(
                2 * self.fix_spec()@,
            ),
    {
        [self.as_directed().from(), self.as_directed().to()]
    }

    /// Converts this undirected edge into one of its two directed edges.
    pub fn as_directed(&self) -> (r: DirectedEdgeHandle<'a, V>)
        requires
            self.wf(),
        ensures
            r.wf(),
            r.same_mesh(self),
            r.fix_spec()@ == 2 * self.fix_spec()@,
    {
        proof {
            self.dcel.lemma_wf();
        }
        DynamicHandleImpl::new(self.dcel, self.handle.as_directed())
    }

    /// Returns the corresponding edge of the Voronoi diagram.
    pub fn as_voronoi_edge(&self) -> (r: UndirectedVoronoiEdge<'a, V>)
        requires
            self.wf(),
        ensures
            r.wf(),
            r.delaunay_edge()@ == self.fix_spec()@,
            r.mesh() == self.mesh(),
    {
        UndirectedVoronoiEdge { dcel: self.dcel, handle: self.handle }
    }

    /// Returns `true` if the outer face lies on either side of this edge.
    pub fn is_part_of_convex_hull(&self) -> (b: bool)
        requires
            self.wf(),
        ensures
            b == (self.mesh().face(2 * self.fix_spec()@) == 0 || self.mesh().face(
                2 * self.fix_spec()@ + 1,
            ) == 0),
    {
        self.as_directed().is_part_of_convex_hull()
    }
}

impl<'a, V: HasPosition> UndirectedEdgeHandle<'a, V> {
    /// Returns the end positions of this edge, in any order.
    pub fn positions(&self) -> (r: [Point2; 2])
        requires
            self.wf(),
        ensures
            r[0] == position_at(self.vertex_data(), self.mesh().origin(2 * self.fix_spec()@)),
            r[1] == position_at(self.vertex_data(), self.mesh().target(2 * self.fix_spec()@)),
    {
        let e = self.as_directed();
        [e.from().position(), e.to().position()]
    }

    /// Returns the squared length of this edge.
    pub fn length_2(&self) -> (r: i64)
        requires
            self.wf(),
            positions_in_range(self.vertex_data()),
        ensures
            r == distance_2_of(
                position_at(self.vertex_data(), self.mesh().origin(2 * self.fix_spec()@)),
                position_at(self.vertex_data(), self.mesh().target(2 * self.fix_spec()@)),
            ),
            ends_apart(self.mesh(), positions_of(self.vertex_data())) ==> r > 0,
    {
        self.as_directed().length_2()
    }
}

impl<'a, V, Tag> FaceHandle<'a, Tag, V> {
    /// The handle points at a face of a well-formed mesh.
    pub open spec fn wf(&self) -> bool {
        &&& self.storage_wf()
        &&& self.mesh().wf()
        &&& self.vertex_data().len() == self.mesh().num_vertices()
        &&& self.mesh().valid_face(self.fix_spec()@)
    }
}

impl<'a, V> FaceHandle<'a, InnerTag, V> {
    /// The handle points at an inner face of three edges.
    pub open spec fn is_triangle(&self) -> bool {
        &&& self.wf()
        &&& self.fix_spec()@ != 0
        &&& self.mesh().faces[self.fix_spec()@].len == 3
    }

    /// Returns the three inner edges adjacent to this face, in
    /// counterclockwise order.
    pub fn adjacent_edges(&self) -> (r: [DirectedEdgeHandle<'a, V>; 3])
        requires
            self.is_triangle(),
        ensures
            r[0].wf() && r[1].wf() && r[2].wf(),
            r[0].same_mesh(self) && r[1].same_mesh(self) && r[2].same_mesh(self),
            r[1].fix_spec()@ == self.mesh().faces[self.fix_spec()@].edge.unwrap(),
            r[0].fix_spec()@ == self.mesh().prev(r[1].fix_spec()@),
            r[2].fix_spec()@ == self.mesh().next(r[1].fix_spec()@),
            self.mesh().next(r[2].fix_spec()@) == r[0].fix_spec()@,
            self.mesh().face(r[0].fix_spec()@) == self.fix_spec()@,
            self.mesh().face(r[1].fix_spec()@) == self.fix_spec()@,
            self.mesh().face(r[2].fix_spec()@) == self.fix_spec()@,
    {
        let e1 = self.adjacent_edge();
        proof {
            self.mesh().lemma_triangle(e1.fix_spec()@);
        }
        let e0 = e1.prev();
        let e2 = e1.next();
        [e0, e1, e2]
    }

    /// Returns an edge that is adjacent to this face.
    pub fn adjacent_edge(&self) -> (r: DirectedEdgeHandle<'a, V>)
        requires
            self.is_triangle(),
        ensures
            r.wf(),
            r.same_mesh(self),
            r.fix_spec()@ == self.mesh().faces[self.fix_spec()@].edge.unwrap(),
            self.mesh().face(r.fix_spec()@) == self.fix_spec()@,
    {
        proof {
            assert(self.mesh().face_ok(self.handle@));
        }
        let e: usize = self.dcel.face_edge(self.handle.index()).unwrap();
        DynamicHandleImpl::new(self.dcel, FixedDirectedEdgeHandle::new(e))
    }

    /// Returns the face's three vertices, in counterclockwise order.
    pub fn vertices(&self) -> (r: [VertexHandle<'a, V>; 3])
        requires
            self.is_triangle(),
        ensures
            r[0].wf() && r[1].wf() && r[2].wf(),
            r[0].same_mesh(self) && r[1].same_mesh(self) && r[2].same_mesh(self),
            ({
                let e1 = self.mesh().faces[self.fix_spec()@].edge.unwrap();
                &&& r[0].fix_spec()@ == self.mesh().origin(self.mesh().prev(e1))
                &&& r[1].fix_spec()@ == self.mesh().origin(e1)
                &&& r[2].fix_spec()@ == self.mesh().origin(self.mesh().next(e1))
            }),
    {
        let e1 = self.adjacent_edge();
        proof {
            self.mesh().lemma_triangle(e1.fix_spec()@);
        }
        let e0 = e1.prev();
        let e2 = e1.next();
        [e0.from(), e1.from(), e2.from()]
    }
}

/// Twice the signed area of a triangle is bounded where its corners are in
/// range.
pub proof fn lemma_orient2d_bound(a: Point2, b: Point2, c: Point2)
    requires
        a.in_range(),
        b.in_range(),
        c.in_range(),
    ensures
        -0x2000_0000_0000_0000 <= orient2d(a, b, c) <= 0x2000_0000_0000_0000,
{
    lemma_product_bound(b.x - a.x, c.y - a.y, 0x4000_0000);
    lemma_product_bound(b.y - a.y, c.x - a.x, 0x4000_0000);
}

impl<'a, V: HasPosition> FaceHandle<'a, InnerTag, V> {
    /// Returns the positions of the face's vertices, in counterclockwise
    /// order.
    pub fn positions(&self) -> (r: [Point2; 3])
        requires
            self.is_triangle(),
        ensures
            ({
                let e1 = self.mesh().faces[self.fix_spec()@].edge.unwrap();
                &&& r[0] == position_at(
                    self.vertex_data(),
                    self.mesh().origin(self.mesh().prev(e1)),
                )
                &&& r[1] == position_at(self.vertex_data(), self.mesh().origin(e1))
                &&& r[2] == position_at(
                    self.vertex_data(),
                    self.mesh().origin(self.mesh().next(e1)),
                )
            }),
    {
        let e1 = self.adjacent_edge();
        proof {
            self.mesh().lemma_triangle(e1.fix_spec()@);
        }
        let e0 = e1.prev();
        let e2 = e1.next();
        [e0.from().position(), e1.from().position(), e2.from().position()]
    }

    /// Returns twice the triangle's area.
    pub fn area(&self) -> (r: i64)
        requires
            self.is_triangle(),
            positions_in_range(self.vertex_data()),
        ensures
            ({
                let e1 = self.mesh().faces[self.fix_spec()@].edge.unwrap();
                let det = orient2d(
                    position_at(self.vertex_data(), self.mesh().origin(self.mesh().prev(e1))),
                    position_at(self.vertex_data(), self.mesh().origin(e1)),
                    position_at(self.vertex_data(), self.mesh().origin(self.mesh().next(e1))),
                );
                r == (if det >= 0 {
                    det
                } else {
                    -det
                })
            }),
    {
        let e1 = self.adjacent_edge();
        proof {
            self.mesh().lemma_triangle(e1.fix_spec()@);
        }
        let v0: Point2 = e1.prev().from().position();
        let v1: Point2 = e1.from().position();
        let v2: Point2 = e1.next().from().position();
        proof {
            lemma_orient2d_bound(v0, v1, v2);
            lemma_product_bound(v1.x - v0.x, v2.y - v0.y, 0x4000_0000);
            lemma_product_bound(v1.y - v0.y, v2.x - v0.x, 0x4000_0000);
        }
        let bx: i64 = v1.x - v0.x;
        let by: i64 = v1.y - v0.y;
        let cx: i64 = v2.x - v0.x;
        let cy: i64 = v2.y - v0.y;
        let det: i64 = bx * cy - by * cx;
        if det >= 0 {
            det
        } else {
            -det
        }
    }
}

impl<'a, V> FaceHandle<'a, PossiblyOuterTag, V> {
    /// Returns `true` if this handle refers to the single outer face.
    pub fn is_outer(&self) -> (b: bool)
        ensures
            b == (self.fix_spec()@ == 0),
    {
        self.handle.is_outer()
    }

    /// Converts this possibly outer face handle into an inner face handle.
    ///
    /// Returns `None` if this handle refers to the outer face.
    pub fn as_inner(&self) -> (r: Option<FaceHandle<'a, InnerTag, V>>)
        ensures
            r.is_none() <==> self.fix_spec()@ == 0,
            r.is_some() ==> r.unwrap().fix_spec()@ == self.fix_spec()@ && r.unwrap().mesh()
                == self.mesh() && r.unwrap().vertex_data() == self.vertex_data()
                && r.unwrap().storage_wf() == self.storage_wf(),
    {
        match self.handle.as_inner() {
            Some(h) => Some(DynamicHandleImpl::new(self.dcel, h)),
            None => None,
        }
    }

    /// Returns an edge that has this face on its left, or `None` where the
    /// face has no edge.
    pub fn adjacent_edge(&self) -> (r: Option<DirectedEdgeHandle<'a, V>>)
        requires
            self.wf(),
        ensures
            r.is_none() <==> self.mesh().faces[self.fix_spec()@].edge.is_none(),
            r.is_some() ==> r.unwrap().wf() && r.unwrap().same_mesh(self) && r.unwrap().fix_spec()@
                == self.mesh().faces[self.fix_spec()@].edge.unwrap() && self.mesh().face(
                r.unwrap().fix_spec()@,
            ) == self.fix_spec()@,
    {
        match self.dcel.face_edge(self.handle.index()) {
            Some(e) => Some(DynamicHandleImpl::new(self.dcel, FixedDirectedEdgeHandle::new(e))),
            None => None,
        }
    }
}

impl<'a, V> VertexHandle<'a, V> {
    /// The handle points at a vertex of a well-formed mesh.
    pub open spec fn wf(&self) -> bool {
        &&& self.storage_wf()
        &&& self.mesh().wf()
        &&& self.vertex_data().len() == self.mesh().num_vertices()
        &&& self.mesh().valid_vertex(self.fix_spec()@)
    }

    /// Returns an outgoing edge of this vertex, or `None` for an isolated
    /// vertex.
    pub fn out_edge(&self) -> (r: Option<DirectedEdgeHandle<'a, V>>)
        requires
            self.wf(),
        ensures
            r.is_none() <==> self.mesh().vertices[self.fix_spec()@].out_edge.is_none(),
            solid(self.mesh()) ==> r.is_some(),
            r.is_some() ==> r.unwrap().wf() && r.unwrap().same_mesh(self) && r.unwrap().fix_spec()@
                == self.mesh().vertices[self.fix_spec()@].out_edge.unwrap() && self.mesh().origin(
                r.unwrap().fix_spec()@,
            ) == self.fix_spec()@,
    {
        proof {
            if solid(self.mesh()) {
                assert(attached_at(self.mesh(), self.fix_spec()@));
            }
        }
        match self.dcel.out_edge(self.handle.index()) {
            Some(e) => Some(DynamicHandleImpl::new(self.dcel, FixedDirectedEdgeHandle::new(e))),
            None => None,
        }
    }

    /// Returns all directed edges going out of this vertex, in
    /// counterclockwise order, beginning with `out_edge()`.
    pub fn out_edges(&self) -> (r: Vec<FixedDirectedEdgeHandle>)
        requires
            self.wf(),
        ensures
            r@.len() == self.mesh().vertices[self.fix_spec()@].degree,
            r@.len() > 0 ==> Some(r@[0]@) == self.mesh().vertices[self.fix_spec()@].out_edge,
            forall|i: int|
                0 <= i < r@.len() ==> self.mesh().valid_edge((#[trigger] r@[i])@)
                    && self.mesh().origin(r@[i]@) == self.fix_spec()@,
            forall|i: int|
                0 <= i < r@.len() - 1 ==> (#[trigger] r@[i + 1])@ == self.mesh().ccw(r@[i]@),
    {
        let ring: Vec<usize> = self.dcel.out_edges_ccw(self.handle.index());
        let mut r: Vec<FixedDirectedEdgeHandle> = Vec::new();
        let mut i: usize = 0;
        while i < ring.len()
            invariant
                0 <= i <= ring@.len(),
                r@.len() == i,
                forall|j: int| 0 <= j < i ==> (#[trigger] r@[j])@ == ring@[j],
            decreases ring@.len() - i,
        {
            r.push(FixedDirectedEdgeHandle::new(ring[i]));
            i = i + 1;
        }
        proof {
            assert forall|i: int| 0 <= i < r@.len() implies self.mesh().valid_edge(
                (#[trigger] r@[i])@,
            ) && self.mesh().origin(r@[i]@) == self.fix_spec()@ by {
                assert(self.mesh().valid_edge(ring@[i] as int));
            }
            assert forall|i: int| 0 <= i < r@.len() - 1 implies (#[trigger] r@[i + 1])@
                == self.mesh().ccw(r@[i]@) by {
                assert(ring@[i + 1] == self.mesh().ccw(ring@[i] as int));
            }
        }
        r
    }

    /// Returns the data associated with this vertex.
    pub fn data(&self) -> (r: &V)
        requires
            self.wf(),
        ensures
            *r == self.vertex_data()[self.fix_spec()@],
    {
        self.dcel.vertex_data(self.handle.index())
    }

    /// Returns the face of the Voronoi diagram that corresponds to this
    /// vertex.
    pub fn as_voronoi_face(&self) -> (r: VoronoiFace<'a, V>)
        requires
            self.wf(),
        ensures
            r.wf(),
            r.delaunay_vertex()@ == self.fix_spec()@,
            r.mesh() == self.mesh(),
    {
        VoronoiFace { dcel: self.dcel, handle: self.handle }
    }
}

impl<'a, V: HasPosition> VertexHandle<'a, V> {
    /// Returns the position of this vertex.
    pub fn position(&self) -> (r: Point2)
        requires
            self.wf(),
        ensures
            r == position_at(self.vertex_data(), self.fix_spec()@),
    {
        self.dcel.vertex_data(self.handle.index()).position()
    }
}

/// Steps around a vertex: forward counterclockwise, backward clockwise.
pub struct CCWEdgesNextBackFn;

impl CCWEdgesNextBackFn {
    /// The next edge counterclockwise around the origin of `edge_handle`.
    pub fn next<'a, V>(edge_handle: DirectedEdgeHandle<'a, V>) -> (r: DirectedEdgeHandle<'a, V>)
        requires
            edge_handle.wf(),
        ensures
            r.wf(),
            r.same_mesh(&edge_handle),
            r.fix_spec()@ == edge_handle.mesh().ccw(edge_handle.fix_spec()@),
    {
        edge_handle.ccw()
    }

    /// The next edge clockwise around the origin of `edge_handle`.
    pub fn next_back<'a, V>(edge_handle: DirectedEdgeHandle<'a, V>) -> (r: DirectedEdgeHandle<
        'a,
        V,
    >)
        requires
            edge_handle.wf(),
        ensures
            r.wf(),
            r.same_mesh(&edge_handle),
            r.fix_spec()@ == edge_handle.mesh().cw(edge_handle.fix_spec()@),
    {
        edge_handle.cw()
    }
}

/// A directed edge of the Voronoi diagram: it crosses the directed edge of
/// the triangulation with the same index, from the face on its right to the
/// face on its left.
pub struct DirectedVoronoiEdge<'a, V> {
    dcel: &'a Dcel<V>,
    handle: FixedDirectedEdgeHandle,
}

/// An undirected edge of the Voronoi diagram: it crosses the undirected edge
/// of the triangulation with the same index.
pub struct UndirectedVoronoiEdge<'a, V> {
    dcel: &'a Dcel<V>,
    handle: FixedUndirectedEdgeHandle,
}

/// A face of the Voronoi diagram: the region of the points that are closer
/// to the vertex of the triangulation with the same index than to any other.
pub struct VoronoiFace<'a, V> {
    dcel: &'a Dcel<V>,
    handle: FixedVertexHandle,
}

/// A vertex of the Voronoi diagram: an inner face of the triangulation, or a
/// point at infinity in the direction of an edge of the hull.
pub enum VoronoiVertex<'a, V> {
    /// The circumcenter of the inner face.
    Inner(FaceHandle<'a, InnerTag, V>),
    /// The far end of the Voronoi edge, which crosses an edge of the hull.
    Outer(DirectedVoronoiEdge<'a, V>),
}

impl<'a, V> VoronoiFace<'a, V> {
    pub closed spec fn mesh(&self) -> Mesh {
        self.dcel.mesh()
    }

    /// The vertex of the triangulation that this face belongs to.
    pub closed spec fn delaunay_vertex(&self) -> FixedVertexHandle {
        self.handle
    }

    pub closed spec fn wf(&self) -> bool {
        &&& self.dcel.wf()
        &&& self.dcel.mesh().valid_vertex(self.handle@)
    }

    /// Returns the vertex of the triangulation that this face belongs to.
    pub fn as_delaunay_vertex(&self) -> (r: VertexHandle<'a, V>)
        requires
            self.wf(),
        ensures
            r.wf(),
            r.mesh() == self.mesh(),
            r.fix_spec() == self.delaunay_vertex(),
    {
        proof {
            self.dcel.lemma_wf();
        }
        DynamicHandleImpl::new(self.dcel, self.handle)
    }
}

impl<'a, V> DirectedVoronoiEdge<'a, V> {
    pub closed spec fn mesh(&self) -> Mesh {
        self.dcel.mesh()
    }

    /// The directed edge of the triangulation that this edge crosses.
    pub closed spec fn delaunay_edge(&self) -> FixedDirectedEdgeHandle {
        self.handle
    }

    pub closed spec fn wf(&self) -> bool {
        &&& self.dcel.wf()
        &&& self.dcel.mesh().valid_edge(self.handle@)
    }

    /// Returns the directed edge of the triangulation that this edge
    /// crosses.
    pub fn as_delaunay_edge(&self) -> (r: DirectedEdgeHandle<'a, V>)
        requires
            self.wf(),
        ensures
            r.wf(),
            r.mesh() == self.mesh(),
            r.fix_spec() == self.delaunay_edge(),
    {
        proof {
            self.dcel.lemma_wf();
        }
        DynamicHandleImpl::new(self.dcel, self.handle)
    }

    /// Returns this edge in reversed direction.
    pub fn rev(&self) -> (r: Self)
        requires
            self.wf(),
        ensures
            r.wf(),
            r.mesh() == self.mesh(),
            r.delaunay_edge()@ == twin_index(self.delaunay_edge()@),
    {
        proof {
            self.dcel.lemma_wf();
            self.dcel.mesh().lemma_twin_valid(self.handle@);
        }
        DirectedVoronoiEdge { dcel: self.dcel, handle: self.handle.rev() }
    }

    /// Returns the vertex at which this edge starts: the inner face on the
    /// right of the edge that it crosses, or a point at infinity.
    pub fn from(&self) -> (r: VoronoiVertex<'a, V>)
        requires
            self.wf(),
        ensures
            match r {
                VoronoiVertex::Inner(f) => f.fix_spec()@ == self.mesh().face(
                    twin_index(self.delaunay_edge()@),
                ) && f.fix_spec()@ != 0 && f.mesh() == self.mesh(),
                VoronoiVertex::Outer(e) => self.mesh().face(twin_index(self.delaunay_edge()@))
                    == 0 && e.delaunay_edge()@ == twin_index(self.delaunay_edge()@) && e.mesh()
                    == self.mesh(),
            },
    {
        let twin = self.rev();
        let face: usize = twin.dcel.face(twin.handle.index());
        match FixedFaceHandle::new(face).as_inner() {
            Some(h) => VoronoiVertex::Inner(DynamicHandleImpl::new(self.dcel, h)),
            None => VoronoiVertex::Outer(twin),
        }
    }

    /// Returns the vertex at which this edge ends: the inner face on the left
    /// of the edge that it crosses, or a point at infinity.
    pub fn to(&self) -> (r: VoronoiVertex<'a, V>)
        requires
            self.wf(),
        ensures
            match r {
                VoronoiVertex::Inner(f) => f.fix_spec()@ == self.mesh().face(
                    self.delaunay_edge()@,
                ) && f.fix_spec()@ != 0 && f.mesh() == self.mesh(),
                VoronoiVertex::Outer(e) => self.mesh().face(self.delaunay_edge()@) == 0
                    && e.delaunay_edge()@ == self.delaunay_edge()@ && e.mesh() == self.mesh(),
            },
    {
        self.rev().from()
    }
}

impl<'a, V> UndirectedVoronoiEdge<'a, V> {
    pub closed spec fn mesh(&self) -> Mesh {
        self.dcel.mesh()
    }

    /// The undirected edge of the triangulation that this edge crosses.
    pub closed spec fn delaunay_edge(&self) -> FixedUndirectedEdgeHandle {
        self.handle
    }

    pub closed spec fn wf(&self) -> bool {
        &&& self.dcel.wf()
        &&& self.dcel.mesh().valid_edge(2 * self.handle@)
    }

    /// Returns the edge's two vertices, in any order.
    pub fn vertices(&self) -> (r: [VoronoiVertex<'a, V>; 2])
        requires
            self.wf(),
        ensures
            match r[0] {
                VoronoiVertex::Inner(f) => f.fix_spec()@ == self.mesh().face(
                    2 * self.delaunay_edge()@ + 1,
                ) && f.fix_spec()@ != 0 && f.mesh() == self.mesh(),
                VoronoiVertex::Outer(e) => self.mesh().face(2 * self.delaunay_edge()@ + 1) == 0
                    && e.delaunay_edge()@ == 2 * self.delaunay_edge()@ + 1 && e.mesh()
                    == self.mesh(),
            },
            match r[1] {
                VoronoiVertex::Inner(f) => f.fix_spec()@ == self.mesh().face(
                    2 * self.delaunay_edge()@,
                ) && f.fix_spec()@ != 0 && f.mesh() == self.mesh(),
                VoronoiVertex::Outer(e) => self.mesh().face(2 * self.delaunay_edge()@) == 0
                    && e.delaunay_edge()@ == 2 * self.delaunay_edge()@ && e.mesh() == self.mesh(),
            },
    {
        [self.as_directed().from(), self.as_directed().to()]
    }

    /// Converts this undirected edge into one of its two directed edges.
    pub fn as_directed(&self) -> (r: DirectedVoronoiEdge<'a, V>)
        requires
            self.wf(),
        ensures
            r.wf(),
            r.mesh() == self.mesh(),
            r.delaunay_edge()@ == 2 * self.delaunay_edge()@,
    {
        self.as_delaunay_edge().as_directed().as_voronoi_edge()
    }

    /// Returns the corresponding edge of the triangulation.
    pub fn as_delaunay_edge(&self) -> (r: UndirectedEdgeHandle<'a, V>)
        requires
            self.wf(),
        ensures
            r.wf(),
            r.mesh() == self.mesh(),
            r.fix_spec() == self.delaunay_edge(),
    {
        proof {
            self.dcel.lemma_wf();
        }
        DynamicHandleImpl::new(self.dcel, self.handle)
    }
}


impl<'a, V: HasPosition> DirectedEdgeHandle<'a, V> {
    /// The position of the origin of the edge.
    pub open spec fn from_position(&self) -> Point2 {
        position_at(self.vertex_data(), self.mesh().origin(self.fix_spec()@))
    }

    /// The position of the target of the edge.
    pub open spec fn to_position(&self) -> Point2 {
        position_at(self.vertex_data(), self.mesh().target(self.fix_spec()@))
    }

    /// Returns the squared distance of a point to this edge, as an exact
    /// quotient.
    pub fn distance_2(&self, query_point: Point2) -> (r: Ratio)
        requires
            self.wf(),
            positions_in_range(self.vertex_data()),
            query_point.in_range(),
        ensures
            (r.num as int, r.den as int) == distance_2_spec(
                self.from_position(),
                self.to_position(),
                query_point,
            ),
            r.den > 0,
    {
        let p1: Point2 = self.from().position();
        let p2: Point2 = self.to().position();
        distance_2(p1, p2, query_point)
    }

    /// Yields the nearest point on this edge, with exact coordinates.
    pub fn nearest_point(&self, query_point: Point2) -> (r: RatioPoint)
        requires
            self.wf(),
            positions_in_range(self.vertex_data()),
            query_point.in_range(),
        ensures
            (r.x as int, r.y as int, r.den as int) == nearest_point_spec(
                self.from_position(),
                self.to_position(),
                query_point,
            ),
            r.den > 0,
    {
        let p1: Point2 = self.from().position();
        let p2: Point2 = self.to().position();
        nearest_point(p1, p2, query_point)
    }
}

impl<'a, V: HasPosition> UndirectedEdgeHandle<'a, V> {
    /// Returns the squared distance of a point to this edge, as an exact
    /// quotient.
    pub fn distance_2(&self, query_point: Point2) -> (r: Ratio)
        requires
            self.wf(),
            positions_in_range(self.vertex_data()),
            query_point.in_range(),
        ensures
            (r.num as int, r.den as int) == distance_2_spec(
                position_at(self.vertex_data(), self.mesh().origin(2 * self.fix_spec()@)),
                position_at(self.vertex_data(), self.mesh().target(2 * self.fix_spec()@)),
                query_point,
            ),
            r.den > 0,
    {
        self.as_directed().distance_2(query_point)
    }
}

impl<'a, V: HasPosition> FaceHandle<'a, InnerTag, V> {
    /// The positions of the three corners of the face, in counterclockwise
    /// order.
    pub open spec fn corners(&self) -> (Point2, Point2, Point2) {
        let e1 = self.mesh().faces[self.fix_spec()@].edge.unwrap();
        (
            position_at(self.vertex_data(), self.mesh().origin(self.mesh().prev(e1))),
            position_at(self.vertex_data(), self.mesh().origin(e1)),
            position_at(self.vertex_data(), self.mesh().origin(self.mesh().next(e1))),
        )
    }

    /// The face is a triangle with its corners in range and in
    /// counterclockwise order.
    pub open spec fn is_proper_triangle(&self) -> bool {
        &&& self.is_triangle()
        &&& positions_in_range(self.vertex_data())
        &&& orient2d(self.corners().0, self.corners().1, self.corners().2) > 0
    }

    /// Returns the squared distance of a point to this triangle, as an exact
    /// quotient. The distance of a point inside the triangle is zero.
    pub fn distance_2(&self, query_point: Point2) -> (r: Ratio)
        requires
            self.is_triangle(),
            positions_in_range(self.vertex_data()),
            query_point.in_range(),
        ensures
            (r.num as int, r.den as int) == distance_2_triangle_spec(
                self.corners().0,
                self.corners().1,
                self.corners().2,
                query_point,
            ),
            r.den > 0,
    {
        let positions = self.positions();
        proof {
            self.lemma_corners_in_range();
        }
        distance_2_triangle(positions, query_point)
    }

    /// The corners of a face lie in range where all positions do.
    pub proof fn lemma_corners_in_range(&self)
        requires
            self.is_triangle(),
            positions_in_range(self.vertex_data()),
        ensures
            self.corners().0.in_range(),
            self.corners().1.in_range(),
            self.corners().2.in_range(),
    {
        let m = self.mesh();
        assert(m.face_ok(self.fix_spec()@));
        let e1 = m.faces[self.fix_spec()@].edge.unwrap();
        m.lemma_triangle(e1);
        assert(m.edge_ok(e1));
        assert(m.edge_ok(m.prev(e1)));
        assert(m.edge_ok(m.next(e1)));
        assert(self.vertex_data()[m.origin(e1)].position_spec().in_range());
        assert(self.vertex_data()[m.origin(m.prev(e1))].position_spec().in_range());
        assert(self.vertex_data()[m.origin(m.next(e1))].position_spec().in_range());
    }

    /// Returns the face's center point, the average of its corners, with
    /// exact coordinates.
    pub fn center(&self) -> (r: RatioPoint)
        requires
            self.is_triangle(),
            positions_in_range(self.vertex_data()),
        ensures
            r.x == self.corners().0.x + self.corners().1.x + self.corners().2.x,
            r.y == self.corners().0.y + self.corners().1.y + self.corners().2.y,
            r.den == 3,
    {
        let positions = self.positions();
        proof {
            self.lemma_corners_in_range();
        }
        center(positions[0], positions[1], positions[2])
    }

    /// Returns the face's circumcircle: the circle through its three
    /// corners.
    pub fn circumcircle(&self) -> (r: Circle)
        requires
            self.is_proper_triangle(),
        ensures
            (r.center.x as int, r.center.y as int, r.center.den as int) == circumcenter_spec(
                self.corners().0,
                self.corners().1,
                self.corners().2,
            ),
            r.center.den > 0,
            r.offset_x == r.center.x - self.corners().0.x * r.center.den,
            r.offset_y == r.center.y - self.corners().0.y * r.center.den,
    {
        let positions = self.positions();
        proof {
            self.lemma_corners_in_range();
        }
        circumcircle(positions[0], positions[1], positions[2])
    }

    /// Returns the face's circumcenter, the center of its circumcircle, with
    /// exact coordinates.
    pub fn circumcenter(&self) -> (r: RatioPoint)
        requires
            self.is_proper_triangle(),
        ensures
            (r.x as int, r.y as int, r.den as int) == circumcenter_spec(
                self.corners().0,
                self.corners().1,
                self.corners().2,
            ),
            r.den > 0,
    {
        let positions = self.positions();
        proof {
            self.lemma_corners_in_range();
        }
        circumcenter(positions[0], positions[1], positions[2])
    }

    /// Returns the barycentric coordinates of a point relative to this face:
    /// three numerators and their common denominator. The numerators sum up
    /// to the denominator.
    pub fn barycentric_interpolation(&self, coordinate: Point2) -> (r: ([i128; 3], i128))
        requires
            self.is_proper_triangle(),
            coordinate.in_range(),
        ensures
            (r.0[0] as int, r.0[1] as int, r.0[2] as int, r.1 as int) == barycentric_spec(
                self.corners().0,
                self.corners().1,
                self.corners().2,
                coordinate,
            ),
            r.0[0] + r.0[1] + r.0[2] == r.1,
            r.1 > 0,
    {
        let positions = self.positions();
        proof {
            self.lemma_corners_in_range();
        }
        barycentric_interpolation(positions[0], positions[1], positions[2], coordinate)
    }
}

} // verus!
