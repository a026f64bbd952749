use planesweep::frac::{Frac, RPoint};
use planesweep::geom::Point2D;
use planesweep::intersection::Intersection;
use planesweep::line::Line2D;

fn rp(x: i64, y: i64) -> RPoint {
    RPoint { x: Frac::from_int(x), y: Frac::from_int(y) }
}

#[test]
fn find_intersection_when_crossing_intersection() {
    let line1 = Line2D::new(1, 1, 3, 3);
    let line2 = Line2D::new(1, 3, 3, 1);

    let intersection = line1.find_intersection(line2).unwrap();

    match intersection {
        Intersection::Crossing { point, .. } => {
            assert!(point.eq_rp(&rp(2, 2)))
        },
        _ => panic!("Expected Crossing intersection, but got {:?}", intersection),
    }
}

#[test]
fn find_intersection_when_touching_at_end() {
    let line1 = Line2D::new(0, 1, 3, 1);
    let line2 = Line2D::new(3, 0, 3, 1);

    let intersection = line1.find_intersection(line2).unwrap();

    match intersection {
        Intersection::Touching { point, .. } => {
            assert!(point.eq_rp(&rp(3, 1)))
        },
        _ => panic!("Expected Touching intersection, but got {:?}", intersection),
    }
}

#[test]
fn find_intersection_when_touching_in_middle() {
    let line1 = Line2D::new(0, 1, 3, 1);
    let line2 = Line2D::new(2, 0, 2, 1);

    let intersection = line1.find_intersection(line2).unwrap();

    match intersection {
        Intersection::Touching { point, .. } => {
            assert!(point.eq_rp(&rp(2, 1)))
        },
        _ => panic!("Expected Touching intersection, but got {:?}", intersection),
    }
}

#[test]
fn find_intersection_when_collinear_touching_at_end() {
    let line1 = Line2D::new(1, 1, 2, 2);
    let line2 = Line2D::new(2, 2, 3, 0);

    let intersection = line1.find_intersection(line2).unwrap();

    match intersection {
        Intersection::Touching { point, .. } => assert!(point.eq_rp(&rp(2, 2))),
        _ => panic!("Expected Touching intersection, but got {:?}", intersection),
    }
}

#[test]
fn find_intersection_when_identical() {
    let line1 = Line2D::new(0, 0, 5, 0);

    let intersection = line1.find_intersection(line1).unwrap();

    match intersection {
        Intersection::IdenticalOverlap { overlap, .. } => {
            assert_eq!(overlap, line1)
        },
        _ => panic!("Expected IdenticalOverlap intersection, but got {:?}", intersection),
    }
}

#[test]
fn find_intersection_when_collinear_one_fully_contained() {
    let line1 = Line2D::new(0, 0, 5, 0);
    let line2 = Line2D::new(0, 0, 2, 0);

    let intersection = line1.find_intersection(line2).unwrap();

    match intersection {
        Intersection::ContainedOverlap { overlap, .. } => {
            assert_eq!(overlap, line2)
        },
        _ => panic!("Expected ContainedOverlap intersection, but got {:?}", intersection),
    }
}

#[test]
fn find_intersection_when_collinear_partial_overlap() {
    let line1 = Line2D::new(0, 0, 2, 2);
    let line2 = Line2D::new(1, 1, 3, 3);

    let intersection = line1.find_intersection(line2).unwrap();

    match intersection {
        Intersection::PartialOverlap { overlap, .. } => {
            let expected_overlap = Line2D::new(1, 1, 2, 2);
            assert_eq!(overlap, expected_overlap)
        },
        _ => panic!("Expected PartialOverlap intersection, but got {:?}", intersection),
    }
}

#[test]
fn find_intersection_when_collinear_endpoint_overlap() {
    let line1 = Line2D::new(0, 0, 3, 3);
    let line2 = Line2D::new(3, 3, 5, 5);

    let intersection = line1.find_intersection(line2).unwrap();

    match intersection {
        Intersection::PartialOverlap { overlap, .. } => {
            let expected_overlap = Line2D::new(3, 3, 3, 3);
            assert_eq!(overlap, expected_overlap)
        },
        _ => panic!("Expected PartialOverlap intersection, but got {:?}", intersection),
    }
}

#[test]
fn find_intersection_when_parallel_lines() {
    let line1 = Line2D::new(1, 1, 3, 3);
    let line2 = Line2D::new(1, 2, 3, 4);

    let intersection = line1.find_intersection(line2);
    assert!(intersection.is_none());
}

#[test]
fn find_intersection_when_collinear_no_overlap() {
    let line1 = Line2D::new(1, 1, 2, 2);
    let line2 = Line2D::new(3, 3, 4, 4);

    let intersection = line1.find_intersection(line2);
    assert!(intersection.is_none());
}

#[test]
fn find_intersection_when_no_intersection() {
    let line1 = Line2D::new(1, 1, 2, 2);
    let line2 = Line2D::new(1, 4, 2, 3);

    let intersection = line1.find_intersection(line2);
    assert!(intersection.is_none());
}

#[test]
fn equality() {
    let line1 = Line2D::new(1, 1, 2, 2);
    let line2 = Line2D::new(1, 1, 2, 2);
    let line3 = Line2D::new(1, 1, 3, 3);
    let line4 = Line2D::new(5, 5, 15, 15);

    assert_eq!(line1, line2);
    assert_ne!(line1, line3);
    assert_ne!(line1, line4);

    assert_eq!(line1, line1);
    assert_eq!(line2, line2);
}

#[test]
fn ordering() {
    let line1 = Line2D::new(5, 5, 15, 15);
    let line2 = Line2D::new(10, 10, 20, 20);
    let line3 = Line2D::new(10, 15, 30, 30);
    let line4 = Line2D::new(0, 20, 30, 30);
    let line5 = Line2D::new(20, 20, 10, 10);

    assert!(line1.lt_seg(&line2));
    assert!(line2.lt_seg(&line3));
    assert!(line3.lt_seg(&line4));
    assert!(line4.lt_seg(&line5));

    let mut lines = vec![line4, line1, line3, line2, line5];
    lines.sort_by(|a, b| {
        if a.lt_seg(b) {
            std::cmp::Ordering::Less
        } else if b.lt_seg(a) {
            std::cmp::Ordering::Greater
        } else {
            std::cmp::Ordering::Equal
        }
    });
    assert_eq!(lines, vec![line1, line2, line3, line4, line5]);
}

// The boundary scenarios of the intersection taxonomy.

#[test]
fn touching_reported_at_segment_endpoint_on_other() {
    // A horizontal segment met at (1,0), an endpoint of the vertical one.
    let a = Line2D::new(0, 0, 2, 0);
    let b = Line2D::new(1, 0, 1, 2);
    let intersection = a.find_intersection(b).unwrap();
    match intersection {
        Intersection::Touching { point, .. } => assert!(point.eq_rp(&rp(1, 0))),
        _ => panic!("Expected Touching, but got {:?}", intersection),
    }
}

#[test]
fn crossing_reported_at_proper_interior_point() {
    let a = Line2D::new(1, 1, 3, 3);
    let b = Line2D::new(1, 3, 3, 1);
    let intersection = a.find_intersection(b).unwrap();
    match intersection {
        Intersection::Crossing { point, .. } => assert!(point.eq_rp(&rp(2, 2))),
        _ => panic!("Expected Crossing, but got {:?}", intersection),
    }
}

#[test]
fn identical_overlap_reported_for_equal_segments() {
    let a = Line2D::new(0, 0, 5, 0);
    let b = Line2D::new(0, 0, 5, 0);
    let intersection = a.find_intersection(b).unwrap();
    match intersection {
        Intersection::IdenticalOverlap { overlap, .. } => assert_eq!(overlap, a),
        _ => panic!("Expected IdenticalOverlap, but got {:?}", intersection),
    }
}

#[test]
fn contained_overlap_reports_the_shorter_segment() {
    let a = Line2D::new(0, 0, 5, 0);
    let b = Line2D::new(1, 0, 3, 0);
    let intersection = a.find_intersection(b).unwrap();
    match intersection {
        Intersection::ContainedOverlap { overlap, .. } => assert_eq!(overlap, b),
        _ => panic!("Expected ContainedOverlap, but got {:?}", intersection),
    }
}

#[test]
fn shared_endpoint_of_non_collinear_segments_is_touching() {
    let a = Line2D::new(0, 0, 2, 0);
    let b = Line2D::new(2, 0, 4, 3);
    let intersection = a.find_intersection(b).unwrap();
    match intersection {
        Intersection::Touching { point, .. } => assert!(point.eq_rp(&rp(2, 0))),
        _ => panic!("Expected Touching, but got {:?}", intersection),
    }
}

#[test]
fn collinear_adjacent_segments_give_zero_length_overlap() {
    let a = Line2D::new(0, 0, 2, 2);
    let b = Line2D::new(2, 2, 4, 4);
    let intersection = a.find_intersection(b).unwrap();
    match intersection {
        Intersection::PartialOverlap { overlap, .. } => {
            assert_eq!(overlap, Line2D::new(2, 2, 2, 2));
        },
        _ => panic!("Expected PartialOverlap, but got {:?}", intersection),
    }
}

#[test]
fn zero_length_segment_touches_when_on_other_segment() {
    let a = Line2D::new(1, 1, 1, 1);
    let b = Line2D::new(0, 0, 2, 2);
    let intersection = a.find_intersection(b).unwrap();
    match intersection {
        Intersection::Touching { point, .. } => assert!(point.eq_rp(&rp(1, 1))),
        _ => panic!("Expected Touching, but got {:?}", intersection),
    }
    let c = Line2D::new(5, 5, 5, 5);
    assert!(c.find_intersection(b).is_none());
}

#[test]
fn classification_is_commutative_up_to_pair_swap() {
    let a = Line2D::new(1, 1, 3, 3);
    let b = Line2D::new(1, 3, 3, 1);
    let r1 = a.find_intersection(b).unwrap();
    let r2 = b.find_intersection(a).unwrap();
    assert!(r1.same_intersection(&r2));

    let c = Line2D::new(0, 0, 5, 0);
    let d = Line2D::new(1, 0, 3, 0);
    let r3 = c.find_intersection(d).unwrap();
    let r4 = d.find_intersection(c).unwrap();
    assert!(r3.same_intersection(&r4));
}
