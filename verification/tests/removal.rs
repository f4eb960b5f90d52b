use delaunay_mesh::delaunay::{DelaunayTriangulation, PositionInTriangulation};
use delaunay_mesh::handles::{FixedDirectedEdgeHandle, FixedVertexHandle};
use delaunay_mesh::math::Point2;

fn build(points: &[(i64, i64)]) -> DelaunayTriangulation<Point2> {
    let mut t = DelaunayTriangulation::new();
    for &(x, y) in points {
        t.insert(Point2::new(x, y)).unwrap();
    }
    t
}

fn vertex_at(t: &DelaunayTriangulation<Point2>, p: (i64, i64)) -> FixedVertexHandle {
    match t.locate(Point2::new(p.0, p.1)) {
        Some(PositionInTriangulation::OnPoint(v)) => v,
        other => panic!("no vertex at {:?}: {:?}", p, other),
    }
}

fn joined(t: &DelaunayTriangulation<Point2>, a: (i64, i64), b: (i64, i64)) -> bool {
    let a = Point2::new(a.0, a.1);
    let b = Point2::new(b.0, b.1);
    (0..2 * t.num_edges()).any(|e| {
        let edge = t.directed_edge(FixedDirectedEdgeHandle::new(e));
        edge.from().position() == a && edge.to().position() == b
    })
}

fn verify(t: &DelaunayTriangulation<Point2>) {
    assert!(t.is_delaunay());
    assert!(t.has_counterclockwise_faces());
    assert!(t.is_planar());
    if t.all_points_on_line() {
        assert_eq!(t.num_faces(), 1);
        assert_eq!(t.num_edges(), 0);
    }
    assert!(!t.has_stopped_short());
    for e in 0..2 * t.num_edges() {
        let edge = t.directed_edge(FixedDirectedEdgeHandle::new(e));
        assert_ne!(edge.from().fix(), edge.to().fix());
        assert!(edge.length_2() > 0);
        assert!(!(edge.is_outer_edge() && edge.rev().is_outer_edge()));
        assert_eq!(edge.next().prev().fix(), edge.fix());
        assert_eq!(edge.next().from().fix(), edge.to().fix());
        if !edge.is_outer_edge() {
            assert_eq!(edge.next().next().next().fix(), edge.fix());
        }
    }
    for v in 0..t.num_vertices() {
        let handle = FixedVertexHandle::new(v);
        let p = t.vertex(handle).position();
        assert_eq!(t.vertex(handle).out_edge().is_none(), t.all_points_on_line());
        assert_eq!(t.locate(p), Some(PositionInTriangulation::OnPoint(handle)));
    }
}

#[test]
fn remove_center_of_square() {
    let mut t = build(&[(0, 0), (2, 0), (2, 2), (0, 2), (1, 1)]);
    assert_eq!(t.num_triangles(), 4);
    let center = vertex_at(&t, (1, 1));
    let removed = t.checked_remove(center).unwrap();
    assert_eq!(removed, Point2::new(1, 1));
    assert_eq!(t.num_vertices(), 4);
    assert_eq!(t.num_triangles(), 2);
    assert_eq!(t.num_edges(), 5);
    assert!(joined(&t, (0, 0), (2, 2)) != joined(&t, (2, 0), (0, 2)));
    verify(&t);
}

#[test]
fn remove_vertex_of_hull() {
    let mut t = build(&[(0, 0), (4, 0), (4, 4), (0, 4), (2, 1)]);
    verify(&t);
    let corner = vertex_at(&t, (4, 4));
    assert_eq!(t.checked_remove(corner), Some(Point2::new(4, 4)));
    assert_eq!(t.num_vertices(), 4);
    verify(&t);
    assert!(!t.all_points_on_line());
}

#[test]
fn remove_hull_vertex_over_a_pocket() {
    // The vertex at the top hides a dent of the hull below it.
    let mut t = build(&[(0, 0), (10, 0), (5, 10), (5, 3), (4, 1), (6, 1)]);
    verify(&t);
    let top = vertex_at(&t, (5, 10));
    assert_eq!(t.checked_remove(top), Some(Point2::new(5, 10)));
    assert_eq!(t.num_vertices(), 5);
    verify(&t);
    assert!(joined(&t, (0, 0), (5, 3)));
    assert!(joined(&t, (5, 3), (10, 0)));
}

#[test]
fn remove_until_degenerate_and_empty() {
    let mut t = build(&[(0, 0), (4, 0), (0, 4)]);
    assert_eq!(t.num_triangles(), 1);
    assert_eq!(t.checked_remove(FixedVertexHandle::new(2)), Some(Point2::new(0, 4)));
    assert!(t.all_points_on_line());
    assert_eq!(t.num_vertices(), 2);
    assert_eq!(t.num_faces(), 1);
    assert_eq!(t.num_edges(), 0);
    assert_eq!(t.checked_remove(FixedVertexHandle::new(0)), Some(Point2::new(0, 0)));
    assert_eq!(t.num_vertices(), 1);
    assert_eq!(t.locate(Point2::new(4, 0)), Some(PositionInTriangulation::OnPoint(FixedVertexHandle::new(0))));
    assert_eq!(t.checked_remove(FixedVertexHandle::new(0)), Some(Point2::new(4, 0)));
    assert_eq!(t.num_vertices(), 0);
    assert!(t.all_points_on_line());
    assert_eq!(t.checked_remove(FixedVertexHandle::new(0)), None);
}

#[test]
fn removal_reports_the_moved_vertex_by_its_new_handle() {
    let mut t = build(&[(0, 0), (8, 0), (0, 8), (8, 8), (3, 4)]);
    let first = vertex_at(&t, (0, 0));
    assert_eq!(first, FixedVertexHandle::new(0));
    t.checked_remove(first).unwrap();
    assert_eq!(vertex_at(&t, (3, 4)), FixedVertexHandle::new(0));
    assert_eq!(t.vertex(FixedVertexHandle::new(0)).position(), Point2::new(3, 4));
    verify(&t);
}

fn scattered(count: usize) -> Vec<(i64, i64)> {
    let mut points = Vec::new();
    let mut state: u64 = 0x2545_f491_4f6c_dd1d;
    while points.len() < count {
        state ^= state << 13;
        state ^= state >> 7;
        state ^= state << 17;
        let x = (state % 61) as i64 - 30;
        let y = ((state >> 16) % 61) as i64 - 30;
        if !points.contains(&(x, y)) {
            points.push((x, y));
        }
    }
    points
}

#[test]
fn insert_then_remove_in_insertion_order() {
    let points = scattered(40);
    let mut t = build(&points);
    assert_eq!(t.num_vertices(), points.len());
    verify(&t);
    for (i, &p) in points.iter().enumerate() {
        let v = vertex_at(&t, p);
        assert_eq!(t.checked_remove(v), Some(Point2::new(p.0, p.1)));
        assert_eq!(t.num_vertices(), points.len() - i - 1);
        verify(&t);
    }
    assert_eq!(t.num_vertices(), 0);
    assert!(t.all_points_on_line());
    assert_eq!(t.num_faces(), 1);
}

#[test]
fn insert_then_remove_in_reverse_and_mixed_order() {
    let points = scattered(30);
    let mut t = build(&points);
    for &p in points.iter().rev() {
        let v = vertex_at(&t, p);
        t.checked_remove(v).unwrap();
        verify(&t);
    }
    assert_eq!(t.num_vertices(), 0);
    let mut t = build(&points);
    let mut order: Vec<usize> = (0..points.len()).collect();
    order.sort_by_key(|&i| (i * 7) % 11);
    for &i in &order {
        let v = vertex_at(&t, points[i]);
        t.checked_remove(v).unwrap();
        verify(&t);
    }
    assert_eq!(t.num_vertices(), 0);
    assert!(t.all_points_on_line());
}

#[test]
fn remove_inner_vertices_keeps_the_hull() {
    let mut points = vec![(-40, -40), (40, -40), (40, 40), (-40, 40)];
    points.extend(scattered(25));
    let mut t = build(&points);
    for &p in points[4..].iter() {
        let v = vertex_at(&t, p);
        t.checked_remove(v).unwrap();
        verify(&t);
    }
    assert_eq!(t.num_vertices(), 4);
    assert_eq!(t.num_triangles(), 2);
    assert_eq!(t.num_edges(), 5);
}

#[test]
fn removable_vertices_are_recognized() {
    let t = build(&[(0, 0), (8, 0), (0, 8), (8, 8), (3, 4)]);
    for v in 0..5 {
        assert!(t.can_remove(FixedVertexHandle::new(v)));
    }
    assert!(!t.can_remove(FixedVertexHandle::new(5)));
}

#[test]
fn remove_hull_vertex_that_owns_every_triangle() {
    // Both triangles of the kite meet at (2, -1) and at (2, 3).
    for gone in [(2, -1), (2, 3)] {
        let mut t = build(&[(0, 0), (4, 0), (2, 3), (2, -1)]);
        assert_eq!(t.num_triangles(), 2);
        assert!(joined(&t, (2, 3), (2, -1)));
        let v = vertex_at(&t, gone);
        t.checked_remove(v).unwrap();
        assert_eq!(t.num_vertices(), 3);
        assert!(!t.all_points_on_line());
        assert_eq!(t.num_triangles(), 1);
        assert_eq!(t.num_edges(), 3);
        verify(&t);
    }
}

#[test]
fn remove_then_insert_again() {
    let points = scattered(20);
    let mut t = build(&points);
    for round in 0..3 {
        for (i, &p) in points.iter().enumerate() {
            if (i + round) % 3 == 0 {
                let v = vertex_at(&t, p);
                t.checked_remove(v).unwrap();
                verify(&t);
            }
        }
        for &p in points.iter() {
            t.insert(Point2::new(p.0, p.1)).unwrap();
            verify(&t);
        }
        assert_eq!(t.num_vertices(), points.len());
    }
}

#[test]
fn shrink_to_a_line_and_grow_again() {
    let mut t = build(&[(0, 0), (4, 0), (8, 0), (3, 5)]);
    assert_eq!(t.num_triangles(), 2);
    let apex = vertex_at(&t, (3, 5));
    t.checked_remove(apex).unwrap();
    assert!(t.all_points_on_line());
    assert_eq!(t.num_vertices(), 3);
    verify(&t);
    t.insert(Point2::new(5, -2)).unwrap();
    assert!(!t.all_points_on_line());
    assert_eq!(t.num_triangles(), 2);
    verify(&t);
}

#[test]
fn every_vertex_of_a_grown_triangulation_can_be_removed() {
    let points = [(0, 0), (9, 0), (9, 9), (0, 9), (4, 5), (2, 7), (7, 1), (12, 4), (5, 2)];
    for i in 0..points.len() {
        let mut t = build(&points);
        assert!(t.can_remove(FixedVertexHandle::new(i)));
        let p = t.remove(FixedVertexHandle::new(i));
        assert_eq!(p, Point2::new(points[i].0, points[i].1));
        assert_eq!(t.num_vertices(), points.len() - 1);
        verify(&t);
    }
}

#[test]
fn the_triangulation_stays_in_order_through_insertions_and_removals() {
    let mut t = DelaunayTriangulation::new();
    assert!(t.is_oriented());
    let points = scattered(40);
    for &(x, y) in &points {
        t.insert(Point2::new(x, y)).unwrap();
        assert!(t.is_oriented());
        assert!(!t.has_stopped_short());
    }
    assert!(t.is_solid());
    let mut left = t.num_vertices();
    while left > 0 {
        let v = FixedVertexHandle::new((left * 7) % left);
        t.remove(v);
        left -= 1;
        assert_eq!(t.num_vertices(), left);
        assert!(!t.has_stopped_short());
        assert!(t.is_oriented());
        assert_eq!(t.is_on_one_line(), t.all_points_on_line());
    }
}
