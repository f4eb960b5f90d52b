use delaunay_mesh::delaunay::{
    DelaunayTriangulation, InsertionError, PositionInTriangulation,
};
use delaunay_mesh::handles::{FixedDirectedEdgeHandle, FixedVertexHandle};
use delaunay_mesh::math::Point2;

fn triangulation(points: &[(i64, i64)]) -> DelaunayTriangulation<Point2> {
    let mut t = DelaunayTriangulation::new();
    for &(x, y) in points {
        t.insert(Point2::new(x, y)).unwrap();
    }
    t
}

fn has_edge(t: &DelaunayTriangulation<Point2>, a: (i64, i64), b: (i64, i64)) -> bool {
    let a = Point2::new(a.0, a.1);
    let b = Point2::new(b.0, b.1);
    for e in 0..2 * t.num_edges() {
        let edge = t.directed_edge(FixedDirectedEdgeHandle::new(e));
        if edge.from().position() == a && edge.to().position() == b {
            return true;
        }
    }
    false
}

/// The invariants that can be decided on a triangulation.
fn check(t: &DelaunayTriangulation<Point2>) {
    assert!(t.is_delaunay());
    assert!(t.has_counterclockwise_faces());
    assert!(t.is_planar());
    assert_eq!(t.vertices().len(), t.num_vertices());
    assert_eq!(t.edges().len(), t.num_edges());
    assert_eq!(t.triangles().len(), t.num_triangles());
    if t.all_points_on_line() {
        assert_eq!(t.num_faces(), 1);
        assert_eq!(t.num_edges(), 0);
    } else {
        assert_eq!(t.num_faces(), 1 + t.num_triangles());
    }
    assert!(!t.has_stopped_short());
    for v in 0..t.num_vertices() {
        let vertex = t.vertex(FixedVertexHandle::new(v));
        assert_eq!(vertex.out_edge().is_none(), t.all_points_on_line());
        let p = vertex.position();
        assert_eq!(
            t.locate(p),
            Some(PositionInTriangulation::OnPoint(FixedVertexHandle::new(v)))
        );
    }
    for e in 0..2 * t.num_edges() {
        let edge = t.directed_edge(FixedDirectedEdgeHandle::new(e));
        assert_ne!(edge.from().fix(), edge.to().fix());
        assert!(edge.length_2() > 0);
        assert!(!(edge.is_outer_edge() && edge.rev().is_outer_edge()));
        assert_eq!(edge.rev().rev().fix(), edge.fix());
        assert_eq!(edge.rev().from().fix(), edge.to().fix());
        assert_eq!(edge.next().prev().fix(), edge.fix());
        assert_eq!(edge.next().from().fix(), edge.to().fix());
        assert_eq!(edge.next().face().fix(), edge.face().fix());
        if !edge.is_outer_edge() {
            assert_eq!(edge.next().next().next().fix(), edge.fix());
        }
    }
}

#[test]
fn empty_triangulation() {
    let t: DelaunayTriangulation<Point2> = DelaunayTriangulation::new();
    assert_eq!(t.num_vertices(), 0);
    assert_eq!(t.num_faces(), 1);
    assert!(t.all_points_on_line());
    assert_eq!(
        t.locate(Point2::new(3, 4)),
        Some(PositionInTriangulation::NoTriangulationPresent)
    );
    check(&t);
}

#[test]
fn single_vertex() {
    let mut t = DelaunayTriangulation::new();
    let v0 = t.insert(Point2::new(0, 0)).unwrap();
    assert_eq!(t.num_vertices(), 1);
    assert_eq!(t.num_faces(), 1);
    assert_eq!(t.locate(Point2::new(0, 0)), Some(PositionInTriangulation::OnPoint(v0)));
    assert_eq!(
        t.locate(Point2::new(1, 1)),
        Some(PositionInTriangulation::NoTriangulationPresent)
    );
    check(&t);
}

#[test]
fn collinear_then_break() {
    let mut t = triangulation(&[(0, 0), (1, 0), (2, 0)]);
    assert!(t.all_points_on_line());
    assert_eq!(t.num_faces(), 1);
    check(&t);
    t.insert(Point2::new(1, 1)).unwrap();
    assert!(!t.all_points_on_line());
    assert_eq!(t.num_vertices(), 4);
    assert_eq!(t.num_triangles(), 2);
    assert_eq!(t.num_faces(), 3);
    assert!(has_edge(&t, (1, 1), (0, 0)));
    assert!(has_edge(&t, (1, 1), (1, 0)));
    assert!(has_edge(&t, (1, 1), (2, 0)));
    assert!(has_edge(&t, (0, 0), (1, 0)));
    assert!(has_edge(&t, (1, 0), (2, 0)));
    assert!(!has_edge(&t, (0, 0), (2, 0)));
    check(&t);
}

#[test]
fn collinear_then_break_from_the_other_side() {
    let mut t = triangulation(&[(2, 0), (0, 0), (1, 0), (5, 0)]);
    assert!(t.all_points_on_line());
    t.insert(Point2::new(1, -3)).unwrap();
    assert!(!t.all_points_on_line());
    assert_eq!(t.num_vertices(), 5);
    assert_eq!(t.num_triangles(), 3);
    assert_eq!(t.num_edges(), 7);
    check(&t);
}

#[test]
fn unit_square() {
    let t = triangulation(&[(0, 0), (1, 0), (1, 1), (0, 1)]);
    assert_eq!(t.num_triangles(), 2);
    assert_eq!(t.num_edges(), 5);
    assert!(has_edge(&t, (0, 0), (1, 1)) != has_edge(&t, (0, 1), (1, 0)));
    check(&t);
}

#[test]
fn cocircular_square_with_center() {
    let t = triangulation(&[(0, 0), (2, 0), (2, 2), (0, 2), (1, 1)]);
    assert_eq!(t.num_vertices(), 5);
    assert_eq!(t.num_triangles(), 4);
    for corner in [(0, 0), (2, 0), (2, 2), (0, 2)] {
        assert!(has_edge(&t, (1, 1), corner));
        assert!(has_edge(&t, corner, (1, 1)));
    }
    check(&t);
}

#[test]
fn locate_finds_every_inserted_point() {
    let points = [
        (0, 0),
        (10, 0),
        (10, 10),
        (0, 10),
        (5, 5),
        (3, 7),
        (20, -4),
        (-6, 3),
        (5, 0),
        (10, 5),
        (7, 7),
        (-1, -9),
    ];
    let mut t = DelaunayTriangulation::new();
    let mut handles = Vec::new();
    for &(x, y) in &points {
        handles.push(t.insert(Point2::new(x, y)).unwrap());
        check(&t);
    }
    assert_eq!(t.num_vertices(), points.len());
    for (i, &(x, y)) in points.iter().enumerate() {
        assert_eq!(
            t.locate(Point2::new(x, y)),
            Some(PositionInTriangulation::OnPoint(handles[i]))
        );
        for hint in 0..points.len() {
            assert_eq!(
                t.locate_with_hint(Point2::new(x, y), FixedVertexHandle::new(hint)),
                Some(PositionInTriangulation::OnPoint(handles[i]))
            );
        }
    }
}

#[test]
fn inserting_a_position_twice_keeps_the_vertex() {
    let mut t = triangulation(&[(0, 0), (4, 0), (0, 4), (1, 1)]);
    let n = t.num_vertices();
    let first = t.insert(Point2::new(3, 3)).unwrap();
    assert_eq!(t.num_vertices(), n + 1);
    let second = t.insert(Point2::new(3, 3)).unwrap();
    assert_eq!(first, second);
    assert_eq!(t.num_vertices(), n + 1);
    let again = t.insert(Point2::new(0, 0)).unwrap();
    assert_eq!(again, FixedVertexHandle::new(0));
    assert_eq!(t.num_vertices(), n + 1);
    check(&t);
}

#[test]
fn inserting_a_position_twice_while_degenerate() {
    let mut t = triangulation(&[(0, 0), (4, 0)]);
    let v = t.insert(Point2::new(4, 0)).unwrap();
    assert_eq!(v, FixedVertexHandle::new(1));
    assert_eq!(t.num_vertices(), 2);
    assert!(t.all_points_on_line());
}

#[test]
fn locate_reports_triangle_edge_and_outside() {
    let t = triangulation(&[(0, 0), (8, 0), (0, 8)]);
    assert_eq!(t.num_triangles(), 1);
    match t.locate(Point2::new(2, 2)) {
        Some(PositionInTriangulation::InTriangle(f)) => assert_eq!(f.index(), 1),
        other => panic!("unexpected location {:?}", other),
    }
    match t.locate(Point2::new(4, 0)) {
        Some(PositionInTriangulation::OnEdge(e)) => {
            let edge = t.directed_edge(e);
            assert!(!edge.is_outer_edge());
            let ends = [edge.from().position(), edge.to().position()];
            assert!(ends.contains(&Point2::new(0, 0)));
            assert!(ends.contains(&Point2::new(8, 0)));
        }
        other => panic!("unexpected location {:?}", other),
    }
    match t.locate(Point2::new(9, 9)) {
        Some(PositionInTriangulation::OutsideConvexHull(e)) => {
            let edge = t.directed_edge(e);
            assert!(edge.is_outer_edge());
            assert!(edge.side_query(Point2::new(9, 9)).is_on_left_side());
        }
        other => panic!("unexpected location {:?}", other),
    }
}

#[test]
fn insert_on_hull_edge_and_on_inner_edge() {
    let mut t = triangulation(&[(0, 0), (8, 0), (0, 8), (8, 8)]);
    assert_eq!(t.num_triangles(), 2);
    t.insert(Point2::new(4, 0)).unwrap();
    assert_eq!(t.num_triangles(), 3);
    check(&t);
    t.insert(Point2::new(4, 4)).unwrap();
    assert_eq!(t.num_triangles(), 5);
    assert_eq!(t.num_vertices(), 6);
    check(&t);
}

#[test]
fn insertion_rejects_coordinates_out_of_range() {
    let mut t = triangulation(&[(0, 0), (8, 0), (0, 8)]);
    let before = t.num_vertices();
    assert_eq!(
        t.insert(Point2::new(0x2000_0001, 0)),
        Err(InsertionError::CoordinateOutOfRange)
    );
    assert_eq!(t.num_vertices(), before);
    assert_eq!(t.num_triangles(), 1);
    check(&t);
}

#[test]
fn grid_of_points_is_delaunay() {
    let mut t = DelaunayTriangulation::new();
    let mut count = 0;
    for i in 0..7 {
        for j in 0..7 {
            let x = (i * 37 + j * 11) % 50 - 25;
            let y = (i * 17 + j * 29) % 50 - 25;
            if t.locate(Point2::new(x, y))
                .map_or(false, |p| matches!(p, PositionInTriangulation::OnPoint(_)))
            {
                continue;
            }
            t.insert(Point2::new(x, y)).unwrap();
            count += 1;
            check(&t);
        }
    }
    assert_eq!(t.num_vertices(), count);
    assert!(!t.all_points_on_line());
}

#[test]
fn hull_edges_that_see_a_point() {
    let t = triangulation(&[(0, 0), (8, 0), (8, 8), (0, 8)]);
    let p = Point2::new(20, 20);
    let first = match t.locate(p) {
        Some(PositionInTriangulation::OutsideConvexHull(e)) => e,
        other => panic!("unexpected location {:?}", other),
    };
    let run = t.get_convex_hull_edges_for_point(first, p);
    assert_eq!(run.len(), 2);
    let edges = run.to_vec();
    assert!(edges.contains(&first.index()));
    assert_eq!(run.get(0), Some(edges[0]));
    assert_eq!(run.get(2), None);
    let a = t.directed_edge(FixedDirectedEdgeHandle::new(edges[0]));
    let b = t.directed_edge(FixedDirectedEdgeHandle::new(edges[1]));
    assert_eq!(a.next().fix(), b.fix());
    assert!(a.is_outer_edge() && b.is_outer_edge());
    assert!(a.side_query(p).is_on_left_side());
    assert!(b.side_query(p).is_on_left_side());
    assert!(!b.next().side_query(p).is_on_left_side());
    assert!(!a.prev().side_query(p).is_on_left_side());
    assert_eq!(a.to().position(), Point2::new(8, 8));
    // The run is the same whichever of its edges it starts from.
    for &start in &edges {
        let again = t.get_convex_hull_edges_for_point(FixedDirectedEdgeHandle::new(start), p);
        assert_eq!(again.to_vec(), edges);
    }
}

#[test]
fn triangles_beside_an_edge() {
    let t = triangulation(&[(0, 0), (8, 0), (8, 8), (0, 8), (4, 3)]);
    let center = FixedVertexHandle::new(4);
    let corner = FixedVertexHandle::new(0);
    let left = t.get_left_triangle(center, corner).unwrap();
    let right = t.get_right_triangle(center, corner).unwrap();
    assert_eq!(t.vertex(left).position(), Point2::new(8, 0));
    assert_eq!(t.vertex(right).position(), Point2::new(0, 8));
    // The edge from (0, 0) to (8, 0) has a triangle on one side only.
    let a = FixedVertexHandle::new(0);
    let b = FixedVertexHandle::new(1);
    assert_eq!(t.get_left_triangle(a, b), Some(center));
    assert_eq!(t.get_right_triangle(a, b), None);
    assert_eq!(t.get_left_triangle(b, a), None);
}

#[test]
fn insert_outside_joins_all_visible_corners() {
    let mut t = triangulation(&[(0, 0), (8, 0), (8, 8), (0, 8)]);
    let v = t.insert(Point2::new(20, 20)).unwrap();
    assert_eq!(t.num_vertices(), 5);
    assert_eq!(t.num_triangles(), 4);
    let ring = t.vertex(v).out_edges();
    assert_eq!(ring.len(), 3);
    let mut ends: Vec<Point2> = ring.iter().map(|e| t.directed_edge(*e).to().position()).collect();
    ends.sort_by_key(|p| (p.x, p.y));
    assert_eq!(ends, vec![Point2::new(0, 8), Point2::new(8, 0), Point2::new(8, 8)]);
    check(&t);
}

#[test]
fn vertices_edges_and_triangles_are_listed() {
    let t = triangulation(&[(0, 0), (8, 0), (8, 8), (0, 8)]);
    assert_eq!(
        t.vertices(),
        vec![
            FixedVertexHandle::new(0),
            FixedVertexHandle::new(1),
            FixedVertexHandle::new(2),
            FixedVertexHandle::new(3)
        ]
    );
    assert_eq!(t.edges().len(), 5);
    assert_eq!(t.edges()[4].index(), 4);
    let triangles = t.triangles();
    assert_eq!(triangles.len(), 2);
    assert_eq!(triangles[0].index(), 1);
    assert_eq!(triangles[1].index(), 2);
}

#[test]
fn a_walk_from_a_vertex_finds_that_vertex() {
    let t = triangulation(&[(0, 0), (9, 0), (9, 9), (0, 9), (4, 5), (2, 7), (7, 1), (12, 4)]);
    for i in 0..t.num_vertices() {
        let v = FixedVertexHandle::new(i);
        let p = t.vertex(v).position();
        assert_eq!(t.locate_with_hint(p, v), Some(PositionInTriangulation::OnPoint(v)));
    }
}

#[test]
fn insert_on_either_half_of_a_hull_edge() {
    for flip in [false, true] {
        let mut t = triangulation(&[(0, 0), (8, 0), (0, 8)]);
        let e = t
            .get_edge_from_vertices(FixedVertexHandle::new(0), FixedVertexHandle::new(1))
            .unwrap();
        let e = if flip { e.rev() } else { e };
        let v = t.insert_on_edge(e, Point2::new(4, 0));
        assert_eq!(v, FixedVertexHandle::new(3));
        assert_eq!(t.num_triangles(), 2);
        assert!(has_edge(&t, (4, 0), (0, 8)));
        assert!(!has_edge(&t, (0, 0), (8, 0)));
        check(&t);
    }
}

#[test]
fn every_vertex_is_found_from_every_start_after_removals() {
    let mut t = triangulation(&[(0, 0), (9, 0), (9, 9), (0, 9), (4, 5), (2, 7), (7, 1), (12, 4)]);
    assert!(t.checked_remove(FixedVertexHandle::new(1)).is_some());
    assert!(t.checked_remove(FixedVertexHandle::new(4)).is_some());
    for i in 0..t.num_vertices() {
        let v = FixedVertexHandle::new(i);
        let p = t.vertex(v).position();
        for j in 0..t.num_vertices() {
            let start = FixedVertexHandle::new(j);
            assert_eq!(t.locate_with_hint(p, start), Some(PositionInTriangulation::OnPoint(v)));
        }
        assert_eq!(t.locate(p), Some(PositionInTriangulation::OnPoint(v)));
    }
    let n = t.num_vertices();
    let p = t.vertex(FixedVertexHandle::new(1)).position();
    assert_eq!(t.insert(p), Ok(FixedVertexHandle::new(1)));
    assert_eq!(t.num_vertices(), n);
    // A removed position is no longer found as a vertex.
    assert!(!matches!(
        t.locate(Point2::new(9, 0)),
        Some(PositionInTriangulation::OnPoint(_))
    ));
    check(&t);
}

#[test]
fn a_search_finds_the_place_that_the_walk_finds() {
    let t = triangulation(&[(0, 0), (8, 0), (8, 8), (0, 8), (4, 3), (2, 6), (6, 5)]);
    for x in -2..11 {
        for y in -2..11 {
            let p = Point2::new(x, y);
            let walked = t.locate(p).unwrap();
            let searched = t.locate_by_search(p).unwrap();
            match (walked, searched) {
                (
                    PositionInTriangulation::OnPoint(a),
                    PositionInTriangulation::OnPoint(b),
                ) => assert_eq!(a, b),
                (
                    PositionInTriangulation::InTriangle(a),
                    PositionInTriangulation::InTriangle(b),
                ) => assert_eq!(a, b),
                (
                    PositionInTriangulation::OnEdge(a),
                    PositionInTriangulation::OnEdge(b),
                ) => assert_eq!(a.as_undirected(), b.as_undirected()),
                (
                    PositionInTriangulation::OutsideConvexHull(a),
                    PositionInTriangulation::OutsideConvexHull(b),
                ) => {
                    assert!(t.directed_edge(a).side_query(p).is_on_left_side());
                    assert!(t.directed_edge(b).side_query(p).is_on_left_side());
                    assert!(t.directed_edge(b).is_outer_edge());
                }
                other => panic!("different places for {:?}: {:?}", p, other),
            }
        }
    }
    assert_eq!(
        t.locate_by_search(Point2::new(4, 3)),
        Some(PositionInTriangulation::OnPoint(FixedVertexHandle::new(4)))
    );
    assert_eq!(
        t.locate_by_search(Point2::new(4, 0)),
        t.get_edge_from_vertices(FixedVertexHandle::new(0), FixedVertexHandle::new(1))
            .map(|e| PositionInTriangulation::OnEdge(if t.directed_edge(e).is_outer_edge() {
                e.rev()
            } else {
                e
            }))
    );
}
