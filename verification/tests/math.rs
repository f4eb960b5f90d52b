use delaunay_mesh::math::{
    barycentric_interpolation, center, circumcenter, circumcircle, contained_in_circumference,
    distance_2, distance_2_triangle, intersects_edge_non_collinear, is_ordered_ccw,
    nearest_point, project_point, side_query, LineSideInfo, Point2, Ratio, RatioPoint,
};

/// A point of the grid with a hundred steps to the unit.
fn pt(x: f64, y: f64) -> Point2 {
    Point2::new((x * 100.0).round() as i64, (y * 100.0).round() as i64)
}

/// A point of the grid with a million steps to the unit.
fn fine(x: f64, y: f64) -> Point2 {
    Point2::new((x * 1.0e6).round() as i64, (y * 1.0e6).round() as i64)
}

#[test]
fn test_edge_side() {
    let p1 = pt(0.0, 0.0);
    let p2 = pt(1.0, 1.0);

    assert!(side_query(p1, p2, pt(1.0, 0.0)).is_on_right_side());
    assert!(side_query(p1, p2, pt(0.0, 1.0)).is_on_left_side());
    assert!(side_query(p1, p2, pt(0.5, 0.5)).is_on_line());
}

#[test]
fn test_intersects_middle() {
    let (f0, t0) = (pt(0., 0.), pt(5., 5.0));
    let (f1, t1) = (pt(-1.5, 1.), pt(1.0, -1.5));
    let (f2, t2) = (pt(0.5, 4.), pt(0.5, -4.));

    assert!(!intersects_edge_non_collinear(f0, t0, f1, t1));
    assert!(!intersects_edge_non_collinear(f1, t1, f0, t0));
    assert!(intersects_edge_non_collinear(f0, t0, f2, t2));
    assert!(intersects_edge_non_collinear(f2, t2, f0, t0));
    assert!(intersects_edge_non_collinear(f1, t1, f2, t2));
    assert!(intersects_edge_non_collinear(f2, t2, f1, t1));
}

#[test]
fn test_intersects_end_points() {
    // Check for intersection of one endpoint touching another edge
    let (f1, t1) = (pt(0.33f64, 0.33f64), pt(1.0, 0.0));
    let (f2, t2) = (pt(0.33, -1.0), pt(0.33, 1.0));
    assert!(intersects_edge_non_collinear(f1, t1, f2, t2));
    assert!(intersects_edge_non_collinear(f2, t2, f1, t1));
    let (f3, t3) = (pt(0.0, -1.0), pt(2.0, 1.0));
    assert!(intersects_edge_non_collinear(f1, t1, f3, t3));
    assert!(intersects_edge_non_collinear(f3, t3, f1, t1));

    // Check for intersection if only end points overlap
    let (f4, t4) = (pt(0.33, 0.33), pt(0.0, 2.0));
    assert!(intersects_edge_non_collinear(f1, t1, f4, t4));
    assert!(intersects_edge_non_collinear(f4, t4, f1, t1));
}

#[test]
fn test_contained_in_circumference() {
    let (a1, a2, a3) = (3f64, 2f64, 1f64);
    let offset = (0.5f64, 0.7f64);
    let on_circle = |a: f64, r: f64| (a.sin() * r + offset.0, a.cos() * r + offset.1);
    let c1 = on_circle(a1, 2.0);
    let c2 = on_circle(a2, 2.0);
    let c3 = on_circle(a3, 2.0);
    let v1 = fine(c1.0, c1.1);
    let v2 = fine(c2.0, c2.1);
    let v3 = fine(c3.0, c3.1);
    assert!(side_query(v1, v2, v3).is_on_left_side());
    assert!(contained_in_circumference(v1, v2, v3, fine(offset.0, offset.1)));
    let shrunk = on_circle(a1, 2.0 * 0.9);
    assert!(contained_in_circumference(v1, v2, v3, fine(shrunk.0, shrunk.1)));
    let expanded = on_circle(a1, 2.0 * 1.1);
    assert!(!contained_in_circumference(v1, v2, v3, fine(expanded.0, expanded.1)));
    assert!(!contained_in_circumference(
        v1,
        v2,
        v3,
        fine(2.0 + offset.0, 2.0 + offset.1)
    ));
    assert!(contained_in_circumference(
        fine(0f64, 0f64),
        fine(0f64, -1f64),
        fine(1f64, 0f64),
        fine(0f64, -0.5f64)
    ));
}

#[test]
fn point_on_the_circle_is_not_contained() {
    let a = Point2::new(0, 0);
    let b = Point2::new(4, 0);
    let c = Point2::new(4, 4);
    assert!(!contained_in_circumference(a, b, c, Point2::new(0, 4)));
    assert!(contained_in_circumference(a, b, c, Point2::new(1, 3)));
    assert!(!contained_in_circumference(a, b, c, Point2::new(-1, 5)));
}

#[test]
fn side_query_reversed_line_mirrors() {
    let p1 = Point2::new(-3, 7);
    let p2 = Point2::new(10, -2);
    for q in [Point2::new(0, 0), Point2::new(50, 50), Point2::new(-3, 7), Point2::new(23, -11)] {
        assert_eq!(side_query(p2, p1, q), side_query(p1, p2, q).reversed());
    }
    assert_eq!(LineSideInfo::Left.reversed(), LineSideInfo::Right);
    assert_eq!(LineSideInfo::OnLine.reversed(), LineSideInfo::OnLine);
}

#[test]
fn ordered_ccw_counts_points_on_the_line() {
    let a = Point2::new(0, 0);
    let b = Point2::new(2, 0);
    assert!(is_ordered_ccw(a, b, Point2::new(1, 1)));
    assert!(is_ordered_ccw(a, b, Point2::new(5, 0)));
    assert!(!is_ordered_ccw(a, b, Point2::new(1, -1)));
}

#[test]
fn projection_factor_and_flags() {
    let p1 = Point2::new(0, 0);
    let p2 = Point2::new(4, 0);
    let inside = project_point(p1, p2, Point2::new(1, 5));
    assert_eq!(inside.factor(), 4);
    assert_eq!(inside.length_2(), 16);
    assert!(inside.is_on_edge());
    assert!(!inside.is_before_edge());
    assert!(!inside.is_after_edge());
    let before = project_point(p1, p2, Point2::new(-2, 1));
    assert_eq!(before.factor(), -8);
    assert!(before.is_before_edge());
    assert!(!before.is_on_edge());
    let after = project_point(p1, p2, Point2::new(7, -3));
    assert_eq!(after.factor(), 28);
    assert!(after.is_after_edge());
    let reversed = inside.reversed();
    assert_eq!(reversed.factor(), 12);
    assert_eq!(reversed.length_2(), 16);
    assert_eq!(reversed.reversed().factor(), 4);
}

#[test]
fn coordinates_in_range() {
    assert!(Point2::new(0, 0).is_in_range());
    assert!(Point2::new(0x2000_0000, -0x2000_0000).is_in_range());
    assert!(!Point2::new(0x2000_0001, 0).is_in_range());
    assert!(!Point2::new(0, -0x2000_0001).is_in_range());
    assert_eq!(Point2::new(1, 2).distance_2(Point2::new(4, 6)), 25);
}

/// The value of a squared distance that was measured on the grid with a
/// hundred steps to the unit.
fn scaled(r: Ratio) -> f64 {
    r.num as f64 / r.den as f64 / 10000.0
}

fn close(a: f64, b: f64) -> bool {
    (a - b).abs() <= 1.0e-12 * a.abs().max(b.abs()).max(1.0)
}

#[test]
fn test_edge_distance() {
    let p1 = pt(0.0, 0.0);
    let p2 = pt(1.0, 1.0);
    assert!(close(scaled(distance_2(p1, p2, pt(1.0, 0.0))), 0.5));
    assert!(close(scaled(distance_2(p1, p2, pt(0.0, 1.))), 0.5));
    assert!(close(scaled(distance_2(p1, p2, pt(-1.0, -1.0))), 2.0));
    assert!(close(scaled(distance_2(p1, p2, pt(2.0, 2.0))), 2.0));
}

#[test]
fn test_triangle_distance() {
    let v1 = pt(0., 0.);
    let v2 = pt(1., 0.);
    let v3 = pt(0., 1.);
    let t = [v1, v2, v3];

    assert_eq!(scaled(distance_2_triangle(t, pt(0.25, 0.25))), 0.);
    assert!(close(scaled(distance_2_triangle(t, pt(-1., -1.))), 2.));
    assert!(close(scaled(distance_2_triangle(t, pt(0., -1.))), 1.));
    assert!(close(scaled(distance_2_triangle(t, pt(-1., 0.))), 1.));
    assert!(close(scaled(distance_2_triangle(t, pt(1., 1.))), 0.5));
    assert!(close(scaled(distance_2_triangle(t, pt(0.5, 0.5))), 0.0));
    assert!(scaled(distance_2_triangle(t, pt(0.6, 0.6))) > 0.001);
}

#[test]
fn distance_to_a_segment_is_an_exact_quotient() {
    let p1 = Point2::new(0, 0);
    let p2 = Point2::new(4, 2);
    assert_eq!(distance_2(p1, p2, Point2::new(1, 3)), Ratio { num: 100, den: 20 });
    assert_eq!(distance_2(p1, p2, Point2::new(-3, 1)), Ratio { num: 10, den: 1 });
    assert_eq!(distance_2(p1, p2, Point2::new(6, 2)), Ratio { num: 4, den: 1 });
    assert_eq!(distance_2(p1, p2, Point2::new(2, 1)), Ratio { num: 0, den: 20 });
    assert_eq!(distance_2(p1, p1, Point2::new(3, 4)), Ratio { num: 25, den: 1 });
}

#[test]
fn nearest_point_of_a_segment() {
    let p1 = Point2::new(0, 0);
    let p2 = Point2::new(4, 2);
    assert_eq!(nearest_point(p1, p2, Point2::new(1, 3)), RatioPoint { x: 40, y: 20, den: 20 });
    assert_eq!(nearest_point(p1, p2, Point2::new(-3, 1)), RatioPoint { x: 0, y: 0, den: 1 });
    assert_eq!(nearest_point(p1, p2, Point2::new(9, 9)), RatioPoint { x: 4, y: 2, den: 1 });
    assert_eq!(project_point(p1, p2, Point2::new(1, 3)).relative_position(), Ratio { num: 10, den: 20 });
}

#[test]
fn circle_through_a_triangle() {
    let a = Point2::new(0, 0);
    let b = Point2::new(4, 0);
    let c = Point2::new(0, 2);
    assert_eq!(circumcenter(a, b, c), RatioPoint { x: 32, y: 16, den: 16 });
    let circle = circumcircle(a, b, c);
    assert_eq!(circle.center, RatioPoint { x: 32, y: 16, den: 16 });
    // The square of the radius is 5.
    assert_eq!(
        circle.offset_x * circle.offset_x + circle.offset_y * circle.offset_y,
        5 * circle.center.den * circle.center.den
    );
    let moved = circumcircle(Point2::new(10, 10), Point2::new(14, 10), Point2::new(10, 12));
    assert_eq!(moved.center, RatioPoint { x: 192, y: 176, den: 16 });
    assert_eq!((moved.offset_x, moved.offset_y), (32, 16));
    assert_eq!(center(a, b, c), RatioPoint { x: 4, y: 2, den: 3 });
}

#[test]
fn barycentric_coordinates_sum_up() {
    let a = Point2::new(0, 0);
    let b = Point2::new(4, 0);
    let c = Point2::new(0, 4);
    assert_eq!(barycentric_interpolation(a, b, c, a), ([16, 0, 0], 16));
    assert_eq!(barycentric_interpolation(a, b, c, b), ([0, 16, 0], 16));
    assert_eq!(barycentric_interpolation(a, b, c, c), ([0, 0, 16], 16));
    assert_eq!(barycentric_interpolation(a, b, c, Point2::new(1, 1)), ([8, 4, 4], 16));
    let (lambdas, den) = barycentric_interpolation(a, b, c, Point2::new(7, -5));
    assert_eq!(lambdas[0] + lambdas[1] + lambdas[2], den);
    assert_eq!(lambdas, [8, 28, -20]);
}
