use planesweep::bench::{benchmark_all, benchmark_single, Algorithm};
use planesweep::brute_force::{analyze, BruteForceHandler};
use planesweep::frac::Frac;
use planesweep::geom::Point2D;
use planesweep::handler::{sanity_checks, SweepError, SweepLineOptions};
use planesweep::line::Line2D;
use planesweep::naive::{count_intersections, css, css_line, get_intersections};
use planesweep::polygon::Polygon;
use planesweep::region::{City, State};

// The orientation predicate.

#[test]
fn ccw_should_return_positive_when_points_form_triangle() {
    let p = Point2D::new(0, 0);
    let q = Point2D::new(4, 0);
    let r = Point2D::new(0, 3);
    assert_eq!(Point2D::ccw(&p, &q, &r), 12);
}

#[test]
fn ccw_should_return_zero_when_points_on_line() {
    let p = Point2D::new(0, 0);
    let q = Point2D::new(4, 0);
    let r = Point2D::new(0, 0);
    assert_eq!(Point2D::ccw(&p, &q, &r), 0);
}

#[test]
fn ccw_should_return_negative_when_points_form_triangle_in_reverse_order() {
    let p = Point2D::new(0, 0);
    let q = Point2D::new(0, 3);
    let r = Point2D::new(4, 0);
    assert_eq!(Point2D::ccw(&p, &q, &r), -12);
}

#[test]
fn ccw_should_return_zero_when_all_all_on_same_point() {
    let p = Point2D::new(0, 0);
    assert_eq!(Point2D::ccw(&p, &p, &p), 0);
}

#[test]
fn ccw_should_return_zero_when_points_are_collinear() {
    let p = Point2D::new(0, 0);
    let q = Point2D::new(1, 1);
    let r = Point2D::new(2, 2);
    assert_eq!(Point2D::ccw(&p, &q, &r), 0);
}

#[test]
fn test_colinear() {
    let p = Point2D::new(0, 0);
    let q = Point2D::new(1, 1);
    let r = Point2D::new(2, 2);
    assert_eq!(Point2D::ccw(&p, &q, &r), 0);
    assert_eq!(Point2D::ccw(&p, &r, &q), 0);
}

#[test]
fn test_clockwise() {
    let p = Point2D::new(0, 0);
    let q = Point2D::new(1, 1);
    let r = Point2D::new(2, 0);
    assert!(Point2D::ccw(&p, &q, &r) < 0);
    assert!(Point2D::ccw(&p, &r, &q) > 0);
}

#[test]
fn test_new_relative() {
    let p1 = Point2D::new(1, 1);
    let p2 = Point2D::new_relative(&p1, 2, 3);
    assert_eq!(p2.x, 3);
    assert_eq!(p2.y, 4);
}

#[test]
fn test_almost_eq() {
    // On the exact grid, approximate point equality collapses to equality.
    let p1 = Point2D::new(0, 0);
    let p2 = Point2D::new(0, 0);
    assert_eq!(p1, p2);
}

#[test]
fn test_point_cmp() {
    let p1 = Point2D::new(1, 2);
    let p2 = Point2D::new(1, 2);
    let p3 = Point2D::new(1, 3);
    let p4 = Point2D::new(2, 2);
    let p5 = Point2D::new(2, 3);

    assert_eq!(p1, p2);
    assert!(p1.lt(&p3));
    assert!(p1.lt(&p4));
    assert!(p1.lt(&p5));
    assert!(p3.lt(&p4));
    assert!(p3.lt(&p5));
    assert!(p4.lt(&p5));
}

#[test]
fn test_point_order_should_order_by_x_then_y() {
    let p1 = Point2D::new(1, 2);
    let p2 = Point2D::new(1, 2);
    let p3 = Point2D::new(1, 3);
    let p4 = Point2D::new(2, 2);
    let p5 = Point2D::new(2, 3);

    let mut points = vec![p5, p1, p4, p3, p2];
    points.sort_by(|a, b| {
        if a.lt(b) {
            std::cmp::Ordering::Less
        } else if b.lt(a) {
            std::cmp::Ordering::Greater
        } else {
            std::cmp::Ordering::Equal
        }
    });
    assert_eq!(points, vec![p1, p2, p3, p4, p5]);
}

// The naive all-pairs intersector.

#[test]
fn empty_vector() {
    let lines = Vec::new();
    let intersections = get_intersections(&lines);
    assert_eq!(intersections.len(), 0)
}

#[test]
fn no_intersections() {
    let lines = vec![Line2D::new(0, 0, 1, 0), Line2D::new(0, 1, 1, 1)];
    let intersections = get_intersections(&lines);
    assert_eq!(intersections.len(), 0);
}

#[test]
fn one_intersection() {
    let lines = vec![Line2D::new(0, 0, 1, 1), Line2D::new(0, 1, 1, 0)];
    let intersections = get_intersections(&lines);
    assert_eq!(intersections.len(), 1);
}

#[test]
fn multiple_intersections() {
    let lines = vec![
        Line2D::new(0, 0, 1, 1),
        Line2D::new(0, 1, 1, 0),
        Line2D::new(0, 0, 0, 1),
    ];
    let intersections = get_intersections(&lines);
    assert_eq!(intersections.len(), 3)
}

#[test]
fn naive_collinear_lines_do_not_intersect() {
    let lines = vec![Line2D::new(0, 0, 10, 10), Line2D::new(15, 15, 25, 25)];
    let intersections = get_intersections(&lines);
    assert_eq!(intersections.len(), 0);
}

#[test]
fn css_counts_strict_straddles_only() {
    let a = Point2D::new(0, 0);
    let b = Point2D::new(4, 0);
    assert!(css(&a, &b, &Point2D::new(2, 2)) != 0);
    assert_eq!(css(&a, &b, &Point2D::new(2, 0)), 0);

    let line1 = Line2D::new(0, 0, 4, 0);
    let crossing = Line2D::new(2, -1, 2, 1);
    let touching = Line2D::new(2, 0, 2, 5);
    assert!(css_line(&line1, &crossing) < 0);
    assert_eq!(css_line(&line1, &touching), 0);

    let lines = vec![
        Line2D::new(0, 0, 4, 0),
        Line2D::new(2, -1, 2, 1),
        Line2D::new(3, 1, 5, 1),
    ];
    assert_eq!(count_intersections(&lines), 1);
}

// The analyzer.

#[test]
fn analyzer_reports_dataset_pathologies() {
    let lines = vec![
        Line2D::new(0, 0, 0, 0),
        Line2D::new(1, 0, 1, 5),
        Line2D::new(0, 2, 9, 2),
        Line2D::new(2, 0, 6, 4),
        Line2D::new(2, 4, 6, 0),
    ];
    let report = analyze(lines);
    assert_eq!(report.line_count, 5);
    assert_eq!(report.zero_length_count, 1);
    // The zero-length segment counts as vertical too: its endpoints share
    // their abscissa.
    assert_eq!(report.vertical_count, 2);
    assert!(report.intersection_count > 0);
}

#[test]
fn analyzer_counts_touchings_and_overlaps() {
    let lines = vec![
        Line2D::new(0, 0, 4, 0),
        Line2D::new(1, 0, 3, 0),
        Line2D::new(2, 0, 2, 3),
    ];
    let mut handler = BruteForceHandler::new(lines);
    handler.run();
    let report = handler.analyze();
    assert_eq!(report.line_count, 3);
    assert!(report.overlapping_count >= 1);
    assert!(report.touching_count >= 1);
}

// The input filter.

#[test]
fn sanitizer_rejects_zero_length_in_strict_mode() {
    let lines = vec![Line2D::new(1, 1, 1, 1), Line2D::new(0, 0, 2, 3)];
    let strict = sanity_checks(&lines, &SweepLineOptions::panic_enabled());
    assert!(matches!(strict, Err(SweepError::ZeroLengthLine { .. })));

    let lenient = sanity_checks(&lines, &SweepLineOptions::panic_disabled()).unwrap();
    assert_eq!(lenient.len(), 1);
    assert_eq!(lenient[0], Line2D::new(0, 0, 2, 3));
}

#[test]
fn sanitizer_orders_endpoints_by_x() {
    let lines = vec![Line2D::new(5, 1, 2, 4)];
    let out = sanity_checks(&lines, &SweepLineOptions::panic_enabled()).unwrap();
    assert_eq!(out[0], Line2D::new(2, 4, 5, 1));
}

// Benchmark rows.

#[test]
fn benchmark_single_counts_intersections() {
    let lines = vec![Line2D::new(0, 0, 10, 10), Line2D::new(1, 9, 9, 2)];
    let row = benchmark_single(lines.clone(), Algorithm::BruteForce, SweepLineOptions::panic_enabled());
    assert_eq!(row.lines, 2);
    assert_eq!(row.intersections, Some(1));

    let row2 = benchmark_single(lines, Algorithm::SweepLine, SweepLineOptions::panic_enabled());
    assert_eq!(row2.lines, 2);
    assert_eq!(row2.intersections, Some(1));
}

#[test]
fn benchmark_all_reports_one_row_per_dataset() {
    let d1 = vec![Line2D::new(1, 1, 3, 3), Line2D::new(1, 3, 3, 1)];
    let d2 = vec![Line2D::new(0, 0, 1, 0)];
    let rows = benchmark_all(vec![d1, d2], Algorithm::BruteForce, SweepLineOptions::panic_enabled());
    assert_eq!(rows.len(), 2);
    assert_eq!(rows[0].intersections, Some(1));
    assert_eq!(rows[1].intersections, Some(0));
}

// The polygon scenarios.

#[test]
fn square_area_and_containment() {
    let mut polygon = Polygon::new();
    polygon.add_point(Point2D::new(0, 0));
    polygon.add_point(Point2D::new(4, 0));
    polygon.add_point(Point2D::new(4, 4));
    polygon.add_point(Point2D::new(0, 4));
    assert!(polygon.get_area().eq_frac(&Frac::from_int(16)));
    assert!(polygon.contains(Point2D::new(2, 2)));
    assert!(!polygon.contains(Point2D::new(5, 5)));
}

#[test]
fn concave_area_and_containment() {
    let mut polygon = Polygon::new();
    polygon.add_point(Point2D::new(0, 0));
    polygon.add_point(Point2D::new(4, 0));
    polygon.add_point(Point2D::new(4, 4));
    polygon.add_point(Point2D::new(2, 2));
    polygon.add_point(Point2D::new(0, 4));
    assert!(polygon.get_area().eq_frac(&Frac::from_int(12)));
    assert!(polygon.contains(Point2D::new(1, 1)));
    assert!(!polygon.contains(Point2D::new(3, 3)));
}

#[test]
fn rectangle_with_square_hole() {
    // The classic holed rectangle, on the doubled grid so that the hole's
    // middle is a grid point: the area is 15 in original units, 60 here.
    let mut outer = Polygon::new();
    outer.add_point(Point2D::new(0, 0));
    outer.add_point(Point2D::new(8, 0));
    outer.add_point(Point2D::new(8, 8));
    outer.add_point(Point2D::new(0, 8));
    let mut hole = Polygon::new();
    hole.add_point(Point2D::new(2, 2));
    hole.add_point(Point2D::new(4, 2));
    hole.add_point(Point2D::new(4, 4));
    hole.add_point(Point2D::new(2, 4));
    let state = State { name: String::from("S"), polygons: vec![outer], holes: vec![hole] };
    assert!(state.get_area().eq_frac(&Frac::from_int(60)));
    let inside_hole = City { name: String::from("C"), location: Point2D::new(3, 3) };
    assert!(!state.contains(&inside_hole));
}

#[test]
fn scaling_scales_the_area_by_the_product() {
    let mut polygon = Polygon::new();
    polygon.add_point(Point2D::new(0, 0));
    polygon.add_point(Point2D::new(4, 0));
    polygon.add_point(Point2D::new(4, 4));
    polygon.add_point(Point2D::new(0, 4));
    polygon.scale(3, 2);
    assert!(polygon.get_area().eq_frac(&Frac::from_int(96)));
}

#[test]
fn area_is_invariant_under_reversal() {
    let mut polygon = Polygon::new();
    polygon.add_point(Point2D::new(0, 0));
    polygon.add_point(Point2D::new(4, 0));
    polygon.add_point(Point2D::new(4, 4));
    polygon.add_point(Point2D::new(2, 2));
    polygon.add_point(Point2D::new(0, 4));
    let mut reversed = Polygon::new();
    reversed.add_point(Point2D::new(0, 4));
    reversed.add_point(Point2D::new(2, 2));
    reversed.add_point(Point2D::new(4, 4));
    reversed.add_point(Point2D::new(4, 0));
    reversed.add_point(Point2D::new(0, 0));
    assert!(polygon.get_area().eq_frac(&reversed.get_area()));
}

#[test]
fn containment_is_preserved_under_uniform_scaling() {
    let mut polygon = Polygon::new();
    polygon.add_point(Point2D::new(0, 0));
    polygon.add_point(Point2D::new(4, 0));
    polygon.add_point(Point2D::new(4, 4));
    polygon.add_point(Point2D::new(2, 2));
    polygon.add_point(Point2D::new(0, 4));
    let inside = Point2D::new(1, 1);
    assert!(polygon.contains(inside));
    let mut scaled = polygon.clone();
    scaled.scale(3, 3);
    assert!(scaled.contains(Point2D::new(3, 3)));
    let outside = Point2D::new(3, 3);
    assert!(!polygon.contains(outside));
    assert!(!scaled.contains(Point2D::new(9, 9)));
}

#[test]
fn nested_polygon_is_detected() {
    let mut outer = Polygon::new();
    outer.add_point(Point2D::new(0, 0));
    outer.add_point(Point2D::new(8, 0));
    outer.add_point(Point2D::new(8, 8));
    outer.add_point(Point2D::new(0, 8));
    let mut inner = Polygon::new();
    inner.add_point(Point2D::new(2, 2));
    inner.add_point(Point2D::new(4, 2));
    inner.add_point(Point2D::new(4, 4));
    assert!(inner.is_nested(&outer));
    assert!(outer.contains_other(&inner));
    assert!(!outer.is_nested(&inner));
}
