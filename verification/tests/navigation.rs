use delaunay_mesh::dcel::Dcel;
use delaunay_mesh::delaunay::DelaunayTriangulation;
use delaunay_mesh::handle_impls::{CCWEdgesNextBackFn, VoronoiVertex};
use delaunay_mesh::handles::{
    FixedDirectedEdgeHandle, FixedFaceHandle, FixedUndirectedEdgeHandle, FixedVertexHandle,
};
use delaunay_mesh::math::{Point2, Ratio, RatioPoint};

fn square_with_center() -> DelaunayTriangulation<Point2> {
    let mut t = DelaunayTriangulation::new();
    for (x, y) in [(0, 0), (4, 0), (4, 4), (0, 4), (2, 2)] {
        t.insert(Point2::new(x, y)).unwrap();
    }
    t
}

#[test]
fn undirected_and_directed_handles_convert() {
    let u = FixedUndirectedEdgeHandle::new(7);
    assert_eq!(u.as_directed().index(), 14);
    assert_eq!(u.normalized().index(), 14);
    assert_eq!(u.not_normalized().index(), 15);
    assert_eq!(u.as_directed().as_undirected(), u);
    assert_eq!(u.not_normalized().as_undirected(), u);
    assert_eq!(FixedDirectedEdgeHandle::new(15).normalize_index(), 1);
    assert_eq!(FixedDirectedEdgeHandle::new(14).normalize_index(), 0);
    assert_eq!(FixedDirectedEdgeHandle::new(14).rev().index(), 15);
    assert_eq!(FixedDirectedEdgeHandle::new(15).rev().index(), 14);
}

#[test]
fn face_handles_know_the_outer_face() {
    assert!(FixedFaceHandle::outer().is_outer());
    assert!(FixedFaceHandle::outer().as_inner().is_none());
    let face = FixedFaceHandle::new(3);
    assert!(!face.is_outer());
    assert_eq!(face.as_inner().unwrap().index(), 3);
    assert_eq!(face.as_inner().unwrap().as_possibly_outer().index(), 3);
}

#[test]
fn edges_around_a_vertex_and_a_face() {
    let t = square_with_center();
    let center = t.vertex(FixedVertexHandle::new(4));
    assert_eq!(center.position(), Point2::new(2, 2));
    assert_eq!(*center.data(), Point2::new(2, 2));
    let first = center.out_edge().unwrap();
    assert_eq!(first.from().fix(), FixedVertexHandle::new(4));
    let mut edge = first.ccw();
    let mut targets = vec![first.to().position()];
    let mut steps = 1;
    while edge.fix() != first.fix() {
        assert_eq!(edge.from().fix(), FixedVertexHandle::new(4));
        assert_eq!(edge.cw().ccw().fix(), edge.fix());
        assert_eq!(CCWEdgesNextBackFn::next_back(CCWEdgesNextBackFn::next(t.directed_edge(edge.fix()))).fix(), edge.fix());
        targets.push(edge.to().position());
        edge = edge.ccw();
        steps += 1;
    }
    assert_eq!(steps, 4);
    for corner in [(0, 0), (4, 0), (4, 4), (0, 4)] {
        assert!(targets.contains(&Point2::new(corner.0, corner.1)));
    }
    // Counterclockwise: every neighbour lies on the left of the edge to the one before.
    for i in 0..4 {
        let a = targets[i];
        let b = targets[(i + 1) % 4];
        let det = (a.x - 2) * (b.y - 2) - (a.y - 2) * (b.x - 2);
        assert!(det > 0);
    }
    let face = first.face();
    assert!(!face.is_outer());
    let inner = face.as_inner().unwrap();
    let edges = inner.adjacent_edges();
    assert_eq!(edges[1].fix(), inner.adjacent_edge().fix());
    assert_eq!(edges[0].next().fix(), edges[1].fix());
    assert_eq!(edges[1].next().fix(), edges[2].fix());
    assert_eq!(edges[2].next().fix(), edges[0].fix());
    let corners = inner.vertices();
    let positions = inner.positions();
    for i in 0..3 {
        assert_eq!(corners[i].fix(), edges[i].from().fix());
        assert_eq!(positions[i], corners[i].position());
    }
    assert_eq!(inner.area(), 8);
    assert_eq!(face.adjacent_edge().unwrap().fix(), inner.adjacent_edge().fix());
}

#[test]
fn edge_measures_and_hull() {
    let t = square_with_center();
    let bottom = t
        .get_edge_from_vertices(FixedVertexHandle::new(0), FixedVertexHandle::new(1))
        .unwrap();
    let edge = t.directed_edge(bottom);
    assert_eq!(edge.vertices()[0].position(), Point2::new(0, 0));
    assert_eq!(edge.vertices()[1].position(), Point2::new(4, 0));
    assert_eq!(edge.length_2(), 16);
    assert!(edge.is_part_of_convex_hull());
    assert!(edge.is_outer_edge() != edge.rev().is_outer_edge());
    assert!(edge.side_query(Point2::new(1, 1)).is_on_left_side());
    assert!(edge.side_query(Point2::new(1, -1)).is_on_right_side());
    assert!(edge.side_query(Point2::new(9, 0)).is_on_line());
    let projection = edge.project_point(Point2::new(3, 7));
    assert_eq!(projection.factor(), 12);
    assert_eq!(projection.length_2(), 16);
    let inner_side = if edge.is_outer_edge() { edge.rev() } else { t.directed_edge(bottom) };
    assert_eq!(inner_side.opposite_vertex().unwrap().position(), Point2::new(2, 2));
    assert_eq!(inner_side.opposite_position(), Some(Point2::new(2, 2)));
    assert!(inner_side.rev().opposite_vertex().is_none());
    assert_eq!(inner_side.rev().opposite_position(), None);
    assert!(edge.intersects_edge_non_collinear(Point2::new(2, -3), Point2::new(2, 3)));
    assert!(!edge.intersects_edge_non_collinear(Point2::new(5, -3), Point2::new(5, 3)));
    let undirected = edge.as_undirected();
    assert_eq!(undirected.fix(), bottom.as_undirected());
    assert!(undirected.is_part_of_convex_hull());
    assert_eq!(undirected.length_2(), 16);
    let ends = undirected.positions();
    assert!(ends.contains(&Point2::new(0, 0)) && ends.contains(&Point2::new(4, 0)));
    let both = undirected.vertices();
    assert_eq!(both[0].fix(), undirected.as_directed().from().fix());
    assert_eq!(both[1].fix(), undirected.as_directed().to().fix());
    let spoke = t
        .get_edge_from_vertices(FixedVertexHandle::new(4), FixedVertexHandle::new(2))
        .unwrap();
    assert!(!t.directed_edge(spoke).is_part_of_convex_hull());
    assert!(t
        .get_edge_from_vertices(FixedVertexHandle::new(0), FixedVertexHandle::new(2))
        .is_none());
    assert!(t.infinite_face().is_outer());
}

#[test]
fn voronoi_edges_cross_delaunay_edges() {
    let t = square_with_center();
    let bottom = t
        .get_edge_from_vertices(FixedVertexHandle::new(0), FixedVertexHandle::new(1))
        .unwrap();
    let edge = t.directed_edge(bottom);
    let voronoi = edge.as_voronoi_edge();
    assert_eq!(voronoi.as_delaunay_edge().fix(), bottom);
    assert_eq!(voronoi.rev().as_delaunay_edge().fix(), bottom.rev());
    let inner_face = if edge.is_outer_edge() { edge.rev().face().fix() } else { edge.face().fix() };
    let mut inner = 0;
    let mut outer = 0;
    for end in [voronoi.from(), voronoi.to()] {
        match end {
            VoronoiVertex::Inner(face) => {
                assert_eq!(face.fix().index(), inner_face.index());
                inner += 1;
            }
            VoronoiVertex::Outer(_) => outer += 1,
        }
    }
    assert_eq!((inner, outer), (1, 1));
    let undirected = t.undirected_edge(bottom.as_undirected()).as_voronoi_edge();
    assert_eq!(undirected.as_delaunay_edge().fix(), bottom.as_undirected());
    assert_eq!(undirected.as_directed().as_delaunay_edge().fix(), bottom.as_undirected().as_directed());
    assert_eq!(undirected.vertices().len(), 2);
    let region = t.vertex(FixedVertexHandle::new(4)).as_voronoi_face();
    assert_eq!(region.as_delaunay_vertex().fix(), FixedVertexHandle::new(4));
}

#[test]
fn nearest_neighbor_is_exact() {
    let t = square_with_center();
    assert_eq!(t.nearest_neighbor(Point2::new(2, 3)), Some(FixedVertexHandle::new(4)));
    // Two vertices at the same distance: the first one is returned.
    assert_eq!(t.nearest_neighbor(Point2::new(3, 3)), Some(FixedVertexHandle::new(2)));
    assert_eq!(t.nearest_neighbor(Point2::new(9, 9)), Some(FixedVertexHandle::new(2)));
    // Two vertices at the same distance: the first one is returned.
    assert_eq!(t.nearest_neighbor(Point2::new(2, -5)), Some(FixedVertexHandle::new(0)));
    let empty: DelaunayTriangulation<Point2> = DelaunayTriangulation::new();
    assert_eq!(empty.nearest_neighbor(Point2::new(0, 0)), None);
}

#[test]
fn mesh_edits_keep_the_links() {
    let mut d: Dcel<u8> = Dcel::new();
    let a = d.insert_vertex(1);
    let b = d.insert_vertex(2);
    let c = d.insert_vertex(3);
    assert_eq!((a, b, c), (0, 1, 2));
    assert_eq!(d.num_faces(), 1);
    let ab = d.connect_two_isolated_vertices(a, b, 0);
    assert_eq!(d.origin(ab), a);
    assert_eq!(d.target(ab), b);
    assert_eq!(d.next(ab), d.twin(ab));
    assert_eq!(d.face_cycle(ab), vec![ab, d.twin(ab)]);
    let bc = d.connect_edge_to_isolated_vertex(ab, c);
    assert_eq!(d.origin(bc), b);
    assert_eq!(d.target(bc), c);
    assert_eq!(d.next(ab), bc);
    assert_eq!(d.face_cycle(ab).len(), 4);
    let ca = d.create_face(bc, ab);
    assert_eq!(d.origin(ca), c);
    assert_eq!(d.target(ca), a);
    assert_eq!(d.num_faces(), 2);
    assert_eq!(d.num_edges(), 3);
    assert_eq!(d.face(ca), 1);
    assert_eq!(d.face_cycle(ca), vec![ca, ab, bc]);
    assert_eq!(d.face(d.twin(ca)), 0);
    assert_eq!(d.face_cycle(d.twin(ca)).len(), 3);
    let m = d.insert_vertex(4);
    let mb = d.split_edge(ab, m);
    assert_eq!(d.target(ab), m);
    assert_eq!(d.origin(mb), m);
    assert_eq!(d.target(mb), b);
    assert_eq!(d.face_cycle(ca), vec![ca, ab, mb, bc]);
    assert_eq!(d.out_edges_ccw(m).len(), 2);
    d.update_vertex(m, 9);
    assert_eq!(*d.vertex_data(m), 9);
    let removed = d.remove_vertex(m);
    assert_eq!(removed.data, 9);
    assert_eq!(removed.updated_vertex, None);
    assert_eq!(removed.merged_face, 0);
    assert_eq!(d.num_vertices(), 3);
    assert_eq!(d.num_edges(), 2);
    assert_eq!(d.num_faces(), 1);
    assert_eq!(d.get_edge_from_neighbors(a, b), None);
    assert!(d.get_edge_from_neighbors(b, c).is_some());
    d.clear_edges_and_faces();
    assert_eq!(d.num_edges(), 0);
    assert_eq!(d.num_faces(), 1);
    assert_eq!(d.out_edge(a), None);
    assert_eq!(d.face_edge(0), None);
}

#[test]
fn flip_turns_the_diagonal() {
    let mut d: Dcel<u8> = Dcel::new();
    let a = d.insert_vertex(0);
    let b = d.insert_vertex(1);
    let c = d.insert_vertex(2);
    let e = d.insert_vertex(3);
    let ab = d.connect_two_isolated_vertices(a, b, 0);
    let bc = d.connect_edge_to_isolated_vertex(ab, c);
    let ce = d.connect_edge_to_isolated_vertex(bc, e);
    let ea = d.create_face(ce, ab);
    assert_eq!(d.face_cycle(ea).len(), 4);
    let ca = d.create_face(bc, ab);
    assert_eq!(d.origin(ca), c);
    assert_eq!(d.target(ca), a);
    assert_eq!(d.num_faces(), 3);
    d.flip_cw(ca);
    let ends = (d.origin(ca), d.target(ca));
    assert!(ends == (b, e) || ends == (e, b));
    assert_eq!(d.face_cycle(ca).len(), 3);
    assert_eq!(d.face_cycle(d.twin(ca)).len(), 3);
    assert_eq!(d.num_faces(), 3);
    assert_eq!(d.num_edges(), 5);
}

#[test]
fn exact_measures_of_edges_and_faces() {
    let t = square_with_center();
    let bottom = t
        .get_edge_from_vertices(FixedVertexHandle::new(0), FixedVertexHandle::new(1))
        .unwrap();
    let edge = t.directed_edge(bottom);
    assert_eq!(edge.distance_2(Point2::new(1, 3)), Ratio { num: 144, den: 16 });
    assert_eq!(edge.distance_2(Point2::new(-3, 4)), Ratio { num: 25, den: 1 });
    assert_eq!(edge.as_undirected().distance_2(Point2::new(7, 4)), Ratio { num: 25, den: 1 });
    assert_eq!(edge.nearest_point(Point2::new(1, 3)), RatioPoint { x: 16, y: 0, den: 16 });
    let inner_edge = if edge.is_outer_edge() { edge.rev() } else { t.directed_edge(bottom) };
    let face = inner_edge.face().as_inner().unwrap();
    let corners = face.positions();
    assert_eq!(face.center().den, 3);
    assert_eq!(face.center().x, (corners[0].x + corners[1].x + corners[2].x) as i128);
    assert_eq!(face.center().x, 6);
    assert_eq!(face.center().y, 2);
    assert_eq!(face.distance_2(Point2::new(2, 1)), Ratio { num: 0, den: 1 });
    assert_eq!(face.distance_2(Point2::new(2, -3)).num, 9 * face.distance_2(Point2::new(2, -3)).den);
    let center = face.circumcenter();
    assert_eq!((center.x, center.y), (2 * center.den, 0));
    let circle = face.circumcircle();
    assert_eq!(circle.center, center);
    assert_eq!(
        circle.offset_x * circle.offset_x + circle.offset_y * circle.offset_y,
        4 * center.den * center.den
    );
    let (lambdas, den) = face.barycentric_interpolation(Point2::new(2, 1));
    assert_eq!(lambdas[0] + lambdas[1] + lambdas[2], den);
    assert!(lambdas.iter().all(|l| *l > 0));
    for (i, corner) in corners.iter().enumerate() {
        let (at_corner, den) = face.barycentric_interpolation(*corner);
        for j in 0..3 {
            assert_eq!(at_corner[j], if i == j { den } else { 0 });
        }
    }
}
