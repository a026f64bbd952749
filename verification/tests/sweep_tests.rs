use planesweep::events::{Event, EventQueue, EventType};
use planesweep::frac::{Frac, RPoint};
use planesweep::handler::{sweep_intersections, Handler, SweepError, SweepLineOptions};
use planesweep::intersection::Intersection;
use planesweep::line::Line2D;
use planesweep::sweep_line::SweepLine;

fn rp(x: i64, y: i64) -> RPoint {
    RPoint { x: Frac::from_int(x), y: Frac::from_int(y) }
}

fn get_options_to_panic() -> SweepLineOptions {
    SweepLineOptions::panic_enabled()
}

fn run_sweep(lines: Vec<Line2D>, options: SweepLineOptions) -> Vec<Intersection> {
    sweep_intersections(&lines, options).expect("sweep failed")
}

#[test]
fn test_intersection_in_middle() {
    let line1 = Line2D::new(10, 10, 40, 40);
    let line2 = Line2D::new(20, 30, 30, 20);

    let intersections = run_sweep(vec![line1, line2], get_options_to_panic());

    let expected_point = rp(25, 25);
    assert!(intersections.iter().any(|i| match i {
        Intersection::Crossing { point, .. } => point.eq_rp(&expected_point),
        _ => false,
    }));
}

#[test]
fn test_no_intersection() {
    let line1 = Line2D::new(1, 1, 2, 2);
    let line2 = Line2D::new(3, 3, 4, 4);

    let intersections = run_sweep(vec![line1, line2], get_options_to_panic());

    assert!(intersections.is_empty());
}

#[test]
fn test_multiple_intersections() {
    let line1 = Line2D::new(0, 2, 10, 2);
    let line2 = Line2D::new(2, 0, 8, 6);
    let line3 = Line2D::new(5, 4, 9, 0);

    let intersections = run_sweep(
        vec![line1, line2, line3],
        SweepLineOptions::panic_disabled(),
    );

    let ip1 = rp(4, 2);
    let ip3 = rp(7, 2);
    // The middle crossing lies at (5.5, 3.5): twice the coordinates in
    // halves.
    let ip2 = RPoint { x: Frac::new(11, 2), y: Frac::new(7, 2) };

    assert_eq!(intersections.len(), 3);
    for expected in [ip1, ip2, ip3] {
        assert!(intersections.iter().any(|i| match i {
            Intersection::Crossing { point, .. } => point.eq_rp(&expected),
            _ => false,
        }));
    }
}

#[test]
fn test_intersection_circle() {
    let line1 = Line2D::new(2, 1, 7, 1);
    let line2 = Line2D::new(6, 0, 8, 6);
    let line3 = Line2D::new(9, 5, 4, 7);
    let line4 = Line2D::new(5, 7, 0, 3);
    let line5 = Line2D::new(1, 4, 3, 0);

    let intersections = run_sweep(
        vec![line1, line2, line3, line4, line5],
        get_options_to_panic(),
    );

    assert_eq!(intersections.len(), 5);
    for i in &intersections {
        assert!(matches!(i, Intersection::Crossing { .. }));
    }
}

#[test]
fn should_panic_when_lines_have_identical_x_coordinates() {
    let line1 = Line2D::new(0, 2, 0, 10);
    let line2 = Line2D::new(1, 0, 2, 6);
    let line3 = Line2D::new(5, 4, 9, 0);

    let result = Handler::new(vec![line1, line2, line3], get_options_to_panic());
    assert!(matches!(result, Err(SweepError::VerticalLine { .. })));

    let line4 = Line2D::new(0, 2, 3, 10);
    let line5 = Line2D::new(3, 0, 5, 6);
    let result2 = Handler::new(vec![line4, line5], get_options_to_panic());
    assert!(matches!(result2, Err(SweepError::DuplicateX { .. })));
}

#[test]
fn should_panic_when_lines_are_vertical() {
    let line1 = Line2D::new(1, 0, 1, 2);
    let line2 = Line2D::new(0, 0, 2, 6);
    let line3 = Line2D::new(5, 4, 9, 0);

    let result = Handler::new(vec![line1, line2, line3], get_options_to_panic());
    assert!(matches!(result, Err(SweepError::VerticalLine { .. })));
}

#[test]
fn should_ignore_lines_with_length_zero() {
    let line1 = Line2D::new(0, 0, 0, 0);
    let line2 = Line2D::new(1, 0, 2, 6);
    let line3 = Line2D::new(5, 4, 9, 0);

    let handler = Handler::new(
        vec![line1, line2, line3],
        SweepLineOptions::panic_disabled(),
    )
    .unwrap();

    // Start and end events for line2 and line3 only.
    assert_eq!(handler.queue.len(), 4);
}

#[test]
fn should_panic_when_multiple_intersections_at_same_point() {
    // Overlapping collinear segments must end a strict-mode run.
    let line1 = Line2D::new(0, 0, 10, 10);
    let line2 = Line2D::new(1, 1, 9, 9);
    let line3 = Line2D::new(2, 5, 8, 5);

    let mut handler = Handler::new(vec![line1, line2, line3], get_options_to_panic()).unwrap();
    let result = handler.run();
    assert!(matches!(
        result,
        Err(SweepError::OverlapFound { .. }) | Err(SweepError::TouchFound { .. })
    ));
}

#[test]
fn sweep_reports_touchings_when_policy_allows() {
    let mut options = SweepLineOptions::panic_disabled();
    options.panic_on_touch = false;
    let a = Line2D::new(0, 0, 4, 0);
    let b = Line2D::new(2, 0, 6, 5);

    let intersections = run_sweep(vec![a, b], options);
    assert_eq!(intersections.len(), 1);
    assert!(matches!(intersections[0], Intersection::Touching { .. }));
}

#[test]
fn sweep_agrees_with_brute_force_on_the_star() {
    // The star in the sweep's normal form (endpoints ordered by x), so the
    // records of both engines carry identical segments.
    let lines = vec![
        Line2D::new(2, 1, 7, 1),
        Line2D::new(6, 0, 8, 6),
        Line2D::new(4, 7, 9, 5),
        Line2D::new(0, 3, 5, 7),
        Line2D::new(1, 4, 3, 0),
    ];
    let sweep = run_sweep(lines.clone(), SweepLineOptions::panic_enabled());
    let mut brute = planesweep::brute_force::BruteForceHandler::new(lines);
    let reference = brute.run();
    assert_eq!(sweep.len(), reference.len());
    for r in &sweep {
        assert!(reference.iter().any(|b| b.same_intersection(r)));
    }
}

#[test]
fn sweeping_twice_gives_equal_result_sets() {
    let lines = vec![
        Line2D::new(2, 1, 7, 1),
        Line2D::new(6, 0, 8, 6),
        Line2D::new(9, 5, 4, 7),
        Line2D::new(5, 7, 0, 3),
        Line2D::new(1, 4, 3, 0),
    ];
    let first = run_sweep(lines.clone(), SweepLineOptions::panic_enabled());
    let second = run_sweep(lines, SweepLineOptions::panic_enabled());
    assert_eq!(first.len(), second.len());
    for r in &first {
        assert!(second.iter().any(|s| s.same_intersection(r)));
    }
}

#[test]
fn test_event_queue_creation_should_contain_sorted_events() {
    let lines = create_test_lines();
    let mut event_queue = EventQueue::new(&lines);

    assert_eq!(event_queue.len(), 6);

    // Popping yields the events in order.
    let mut last: Option<Event> = None;
    while let Some(event) = event_queue.pop() {
        if let Some(prev) = &last {
            assert!(prev.le_event(&event));
        }
        last = Some(event);
    }
}

fn create_test_lines() -> Vec<Line2D> {
    vec![
        Line2D::new(10, 10, 25, 20),
        Line2D::new(15, 20, 20, 10),
        Line2D::new(25, 15, 30, 15),
    ]
}

#[test]
fn test_event_queue_add() {
    let lines = create_test_lines();
    let mut event_queue = EventQueue::new(&lines);

    let new_event = Event::StartEvent { line: Line2D::new(0, 0, 5, 5) };
    event_queue.add(new_event);

    assert_eq!(event_queue.len(), 7);
    let first = event_queue.pop().unwrap();
    assert!(matches!(first, Event::StartEvent { line } if line == Line2D::new(0, 0, 5, 5)));
}

#[test]
fn test_event_queue_pop() {
    let lines = create_test_lines();
    let mut event_queue = EventQueue::new(&lines);

    let first_event = event_queue.pop();
    assert!(first_event.is_some());
    assert_eq!(event_queue.len(), 5);
    assert!(matches!(
        first_event.unwrap(),
        Event::StartEvent { line } if line == Line2D::new(10, 10, 25, 20)
    ));
}

#[test]
fn test_event_queue_is_empty() {
    let lines = vec![];
    let event_queue = EventQueue::new(&lines);

    assert!(event_queue.is_empty());
}

#[test]
fn test_event_equality() {
    let l1 = Line2D::new(1, 2, 2, 3);
    let l2 = Line2D::new(2, 3, 1, 2);

    let se1 = Event::StartEvent { line: l1 };
    let se2 = Event::StartEvent { line: l1 };
    let ee1 = Event::EndEvent { line: l2 };
    let ee2 = Event::EndEvent { line: l2 };

    assert!(matches!((se1, se2), (Event::StartEvent { line: a }, Event::StartEvent { line: b }) if a == b));
    assert!(matches!((ee1, ee2), (Event::EndEvent { line: a }, Event::EndEvent { line: b }) if a == b));
    assert_eq!(se1.event_type(), EventType::Start);
    assert_eq!(ee1.event_type(), EventType::End);
}

#[test]
fn test_event_ordering() {
    let l1 = Line2D::new(10, 10, 25, 20);
    let l2 = Line2D::new(15, 20, 20, 10);
    let l3 = Line2D::new(25, 15, 30, 15);

    let i2 = Intersection::Crossing {
        line1: l1,
        line2: l2,
        point: rp(17, 15),
    };

    let e1 = Event::StartEvent { line: l1 };
    let e2 = Event::EndEvent { line: l1 };
    let e3 = Event::StartEvent { line: l2 };
    let e4 = Event::EndEvent { line: l2 };
    let e5 = Event::StartEvent { line: l3 };
    let e6 = Event::EndEvent { line: l3 };
    let e7 = Event::IntersectionEvent { intersection: i2, smaller: l1, bigger: l2 };

    assert!(e1.le_event(&e2));
    assert!(e3.le_event(&e7));
    assert!(e7.le_event(&e4));
    assert!(e4.le_event(&e5));
    assert!(e5.le_event(&e2));
    assert!(e2.le_event(&e6));
}

#[test]
fn add_and_remove_lines() {
    let line1 = Line2D::new(0, 10, 20, 20);
    let line2 = Line2D::new(0, 5, 20, 15);
    let mut sweepline = SweepLine::new();
    sweepline.set_x(Frac::from_int(0));

    sweepline.add(line1);
    sweepline.add(line2);

    assert!(sweepline.contains(&line1));
    assert!(sweepline.contains(&line2));

    sweepline.remove(&line1);
    assert!(!sweepline.contains(&line1));
    assert!(sweepline.contains(&line2));
}

#[test]
fn get_neighbors() {
    let line1 = Line2D::new(0, 0, 2, 0);
    let line2 = Line2D::new(0, 1, 2, 1);
    let line3 = Line2D::new(0, 2, 2, 2);
    let mut sweepline = SweepLine::new();
    sweepline.set_x(Frac::from_int(0));

    sweepline.add(line1);
    sweepline.add(line2);
    sweepline.add(line3);

    let neighbors1 = sweepline.get_neighbors(&line1);
    assert_eq!(neighbors1.smaller, None);
    assert_eq!(neighbors1.bigger, Some(line2));

    let neighbors2 = sweepline.get_neighbors(&line2);
    assert_eq!(neighbors2.smaller, Some(line1));
    assert_eq!(neighbors2.bigger, Some(line3));

    let neighbors3 = sweepline.get_neighbors(&line3);
    assert_eq!(neighbors3.smaller, Some(line2));
    assert_eq!(neighbors3.bigger, None);
}

#[test]
fn get_neighbours_behind_intersection() {
    // The two crossing segments swap their order at the crossing abscissa:
    // the slope tie-break already reflects the state just past it.
    let line1 = Line2D::new(0, 0, 2, 2);
    let line2 = Line2D::new(0, 2, 2, 0);
    let line3 = Line2D::new(0, 3, 2, 3);

    let mut sweepline = SweepLine::new();
    sweepline.set_x(Frac::from_int(1));

    sweepline.add(line1);
    sweepline.add(line2);
    sweepline.add(line3);

    let neighbors1 = sweepline.get_neighbors(&line1);
    assert_eq!(neighbors1.smaller, Some(line2));
    assert_eq!(neighbors1.bigger, Some(line3));

    let neighbors2 = sweepline.get_neighbors(&line2);
    assert_eq!(neighbors2.smaller, None);
    assert_eq!(neighbors2.bigger, Some(line1));

    let neighbors3 = sweepline.get_neighbors(&line3);
    assert_eq!(neighbors3.smaller, Some(line1));
}

#[test]
fn ordered_line_should_be_ordered_when_y_static() {
    let line1 = Line2D::new(0, 10, 20, 10);
    let line2 = Line2D::new(0, 20, 20, 20);
    let line3 = Line2D::new(0, 30, 20, 30);
    let x = Frac::from_int(0);

    assert!(planesweep::sweep_line::order_below(&line1, &line2, &x));
    assert!(planesweep::sweep_line::order_below(&line2, &line3, &x));
}

#[test]
fn ordered_line_should_be_ordered_according_to_x() {
    let line1 = Line2D::new(0, 0, 2, 2);
    let line2 = Line2D::new(0, 2, 2, 0);

    let x0 = Frac::from_int(0);
    assert!(planesweep::sweep_line::order_below(&line1, &line2, &x0));

    let x2 = Frac::from_int(2);
    assert!(planesweep::sweep_line::order_below(&line2, &line1, &x2));
}
