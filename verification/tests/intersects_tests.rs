use geo::line_intersection::line_intersection;
use geo::{Coord, Intersects, Line};
use planesweep::line::Line2D;

fn to_geo_line(line: Line2D) -> Line<f64> {
    Line::new(
        Coord { x: line.start.x as f64, y: line.start.y as f64 },
        Coord { x: line.end.x as f64, y: line.end.y as f64 },
    )
}

fn intersect_using_external_library(native_line1: Line2D, native_line2: Line2D) -> bool {
    let geo_line1 = to_geo_line(native_line1);
    let geo_line2 = to_geo_line(native_line2);
    geo_line1.intersects(&geo_line2)
}

#[test]
fn lines_intersect_in_middle() {
    let line1 = Line2D::new(0, 0, 2, 0);
    let line2 = Line2D::new(1, 0, 1, 2);

    let result: bool = line1.intersects(line2);

    assert!(result);
    assert_eq!(result, intersect_using_external_library(line1, line2))
}

#[test]
fn lines_touch_at_edge() {
    let line1 = Line2D::new(0, 0, 2, 0);
    let line2 = Line2D::new(0, 0, 0, 2);

    let result: bool = line1.intersects(line2);

    assert!(result);
    assert_eq!(result, intersect_using_external_library(line1, line2))
}

#[test]
fn lines_dont_intersect() {
    let line1 = Line2D::new(0, 0, 10, 5);
    let line2 = Line2D::new(10, 20, 20, 15);

    let result: bool = line1.intersects(line2);

    assert!(!result);
    assert_eq!(result, intersect_using_external_library(line1, line2))
}

#[test]
fn lines_dont_intersect2() {
    let line1 = Line2D::new(0, 0, 1, 0);
    let line2 = Line2D::new(0, 1, 1, 2);

    let result: bool = line1.intersects(line2);

    assert!(!result);
    assert_eq!(result, intersect_using_external_library(line1, line2))
}

#[test]
fn horizontal_lines_overlap() {
    let line1 = Line2D::new(0, 0, 10, 0);
    let line2 = Line2D::new(5, 0, 20, 0);

    let result: bool = line1.intersects(line2);

    assert!(result);
    assert_eq!(result, intersect_using_external_library(line1, line2))
}

#[test]
fn vertical_lines_overlap() {
    let line1 = Line2D::new(0, 0, 0, 10);
    let line2 = Line2D::new(0, 5, 0, 20);

    let result: bool = line1.intersects(line2);

    assert!(result);
    assert_eq!(result, intersect_using_external_library(line1, line2))
}

#[test]
fn diagonal_lines_overlap() {
    let line1 = Line2D::new(0, 0, 10, 10);
    let line2 = Line2D::new(5, 5, 20, 20);

    let result: bool = line1.intersects(line2);

    assert!(result);
    assert_eq!(result, intersect_using_external_library(line1, line2))
}

#[test]
fn lines_dont_overlap() {
    let line1 = Line2D::new(0, 0, 1, 0);
    let line2 = Line2D::new(2, 0, 3, 0);

    let result: bool = line1.intersects(line2);

    assert!(!result);
    assert_eq!(result, intersect_using_external_library(line1, line2));
}

#[test]
fn lines_parallel() {
    let line1 = Line2D::new(0, 0, 1, 1);
    let line2 = Line2D::new(0, 1, 1, 2);

    let result: bool = line1.intersects(line2);

    assert!(!result);
    assert_eq!(result, intersect_using_external_library(line1, line2))
}

#[test]
fn identical_lines() {
    let line1 = Line2D::new(0, 0, 1, 1);
    let line2 = Line2D::new(0, 0, 1, 1);

    let result: bool = line1.intersects(line2);

    assert!(result);
    assert_eq!(result, intersect_using_external_library(line1, line2))
}

#[test]
fn collinear_lines() {
    let line1 = Line2D::new(0, 0, 10, 10);
    let line2 = Line2D::new(15, 15, 25, 25);

    let result: bool = line1.intersects(line2);

    assert!(!result);
    assert_eq!(result, intersect_using_external_library(line1, line2))
}

#[test]
fn collinear_lines_start_and_end_on_same_point() {
    let line1 = Line2D::new(0, 0, 1, 0);
    let line2 = Line2D::new(1, 0, 2, 0);

    let result: bool = line1.intersects(line2);

    assert!(result);
    assert_eq!(result, intersect_using_external_library(line1, line2))
}

#[test]
fn lines_with_zero_length_on_same_point() {
    let line1 = Line2D::new(0, 0, 0, 0);
    let line2 = Line2D::new(0, 0, 0, 0);

    let result: bool = line1.intersects(line2);

    assert!(result);
    assert_eq!(result, intersect_using_external_library(line1, line2))
}

#[test]
fn lines_with_zero_length_on_different_points() {
    let line1 = Line2D::new(0, 0, 0, 0);
    let line2 = Line2D::new(1, 1, 1, 1);

    let result: bool = line1.intersects(line2);

    assert!(!result);
    assert_eq!(result, intersect_using_external_library(line1, line2))
}

#[test]
fn zero_length_and_non_zero_length_that_dont_intersect() {
    let line1 = Line2D::new(0, 0, 0, 0);
    let line2 = Line2D::new(1, 1, 10, 9);

    let result: bool = line1.intersects(line2);

    assert!(!result);
    assert_eq!(result, intersect_using_external_library(line1, line2))
}

#[test]
fn zero_length_and_non_zero_length_that_dont_intersect_2() {
    // The coordinates of a dataset row that once reported a phantom
    // intersection, written on the ten-thousandth grid.
    let line1 = Line2D::new(100000, 100000, 100000, 100000);
    let line2 = Line2D::new(314980, 95260, 318858, 103111);

    let result: bool = line1.intersects(line2);

    assert!(!result);
    assert_eq!(result, intersect_using_external_library(line1, line2))
}

#[test]
fn parallel_lines_dont_intersect_with_overlapping_bbox() {
    let line1 = Line2D::new(0, 0, 10, 10);
    let line2 = Line2D::new(1, 0, 10, 9);

    let result: bool = line1.intersects(line2);

    assert!(!result);
    assert_eq!(result, intersect_using_external_library(line1, line2))
}

#[test]
fn zero_length_beside_a_segment_does_not_intersect() {
    // The degenerate segment's point lies inside the other's bounding box
    // but not on it: containment decides, not the collinear bbox rule.
    let line1 = Line2D::new(0, 0, 0, 0);
    let line2 = Line2D::new(-1, 0, 1, 1);

    let result: bool = line1.intersects(line2);

    assert!(!result);
    assert_eq!(result, intersect_using_external_library(line1, line2));
    assert!(line1.find_intersection(line2).is_none());
}

#[test]
fn intersects_agrees_with_the_classifier() {
    let segments = vec![
        Line2D::new(0, 0, 0, 0),
        Line2D::new(-1, 0, 1, 1),
        Line2D::new(0, 0, 4, 0),
        Line2D::new(1, 0, 3, 0),
        Line2D::new(2, -1, 2, 1),
        Line2D::new(0, 1, 4, 1),
        Line2D::new(2, 2, 2, 2),
        Line2D::new(0, 4, 4, 0),
    ];
    for a in &segments {
        for b in &segments {
            assert_eq!(a.intersects(*b), a.find_intersection(*b).is_some());
        }
    }
}

#[test]
fn zero_length_on_line() {
    let line1 = Line2D::new(0, 0, 0, 0);
    let line2 = Line2D::new(0, 0, 1, 1);

    let result: bool = line1.intersects(line2);

    assert!(result);
    assert_eq!(result, intersect_using_external_library(line1, line2))
}

#[test]
fn classifier_agrees_with_external_library_on_proper_crossings() {
    let line1 = Line2D::new(1, 1, 3, 3);
    let line2 = Line2D::new(1, 3, 3, 1);
    let ours = line1.find_intersection(line2);
    let theirs = line_intersection(to_geo_line(line1), to_geo_line(line2));
    match (ours, theirs) {
        (
            Some(planesweep::intersection::Intersection::Crossing { point, .. }),
            Some(geo::LineIntersection::SinglePoint { intersection, is_proper: true }),
        ) => {
            assert_eq!(point.x.num as f64 / point.x.den as f64, intersection.x);
            assert_eq!(point.y.num as f64 / point.y.den as f64, intersection.y);
        },
        other => panic!("unexpected classification pair {:?}", other),
    }
}
