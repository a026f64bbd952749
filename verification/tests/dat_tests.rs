use planesweep::dat::{parse_coord, parse_dat_fields, DatError, DAT_SCALE};
use planesweep::geom::Point2D;
use planesweep::line::Line2D;
use planesweep::region::{build_polygons, categorize_polygons, parse_path_to_state, PathCmd};

fn bytes(s: &str) -> Vec<u8> {
    s.as_bytes().to_vec()
}

fn fields(row: &str) -> Vec<Vec<u8>> {
    row.split_whitespace().map(|f| bytes(f)).collect()
}

#[test]
fn parse_coord_reads_integers_onto_the_grid() {
    assert_eq!(parse_coord(&bytes("12")), Some(12 * DAT_SCALE));
    assert_eq!(parse_coord(&bytes("0")), Some(0));
    assert_eq!(parse_coord(&bytes("-3")), Some(-3 * DAT_SCALE));
    assert_eq!(parse_coord(&bytes("100")), Some(1_000_000));
}

#[test]
fn parse_coord_reads_decimals_exactly() {
    assert_eq!(parse_coord(&bytes("12.5")), Some(125_000));
    assert_eq!(parse_coord(&bytes("31.4980")), Some(314_980));
    assert_eq!(parse_coord(&bytes("31.8858")), Some(318_858));
    assert_eq!(parse_coord(&bytes("-0.25")), Some(-2_500));
}

#[test]
fn parse_coord_rejects_malformed_or_oversized_text() {
    assert_eq!(parse_coord(&bytes("")), None);
    assert_eq!(parse_coord(&bytes("-")), None);
    assert_eq!(parse_coord(&bytes("1.")), None);
    assert_eq!(parse_coord(&bytes(".5")), None);
    assert_eq!(parse_coord(&bytes("1.23456")), None);
    assert_eq!(parse_coord(&bytes("12a")), None);
    assert_eq!(parse_coord(&bytes("101")), None);
    assert_eq!(parse_coord(&bytes("12345678")), None);
}

#[test]
fn from_dat_rows_become_normalized_segments() {
    let l = parse_dat_fields(&fields("3 4 1 2")).unwrap();
    assert_eq!(l, Line2D::new(DAT_SCALE, 2 * DAT_SCALE, 3 * DAT_SCALE, 4 * DAT_SCALE));

    let bad = parse_dat_fields(&fields("1 2 3"));
    assert!(matches!(bad, Err(DatError::BadFieldCount { found: 3 })));

    let bad2 = parse_dat_fields(&fields("1 2 x 4"));
    assert!(matches!(bad2, Err(DatError::BadNumber { field: 2 })));
}

#[test]
fn build_polygons_follows_the_drawing_commands() {
    let cmds = vec![
        PathCmd::MoveAbs(0, 0),
        PathCmd::LineAbs(4, 0),
        PathCmd::LineRel(0, 4),
        PathCmd::LineAbs(0, 4),
        PathCmd::LineAbs(0, 0),
        PathCmd::Close,
    ];
    let polys = build_polygons(&cmds);
    assert_eq!(polys.len(), 1);
    assert_eq!(
        polys[0].points,
        vec![
            Point2D::new(0, 0),
            Point2D::new(4, 0),
            Point2D::new(4, 4),
            Point2D::new(0, 4),
        ]
    );
}

#[test]
fn categorize_splits_nested_rings_into_holes() {
    let cmds = vec![
        PathCmd::MoveAbs(0, 0),
        PathCmd::LineAbs(8, 0),
        PathCmd::LineAbs(8, 8),
        PathCmd::LineAbs(0, 8),
        PathCmd::MoveAbs(2, 2),
        PathCmd::LineAbs(4, 2),
        PathCmd::LineAbs(4, 4),
        PathCmd::LineAbs(2, 4),
    ];
    let polys = build_polygons(&cmds);
    let (shells, holes) = categorize_polygons(polys);
    assert_eq!(shells.len(), 1);
    assert_eq!(holes.len(), 1);
    assert_eq!(holes[0].points[0], Point2D::new(2, 2));
}

#[test]
fn parse_path_to_state_reports_the_holed_area() {
    let cmds = vec![
        PathCmd::MoveAbs(0, 0),
        PathCmd::LineAbs(8, 0),
        PathCmd::LineAbs(8, 8),
        PathCmd::LineAbs(0, 8),
        PathCmd::MoveAbs(2, 2),
        PathCmd::LineAbs(4, 2),
        PathCmd::LineAbs(4, 4),
        PathCmd::LineAbs(2, 4),
    ];
    let state = parse_path_to_state(String::from("Region"), &cmds);
    assert_eq!(state.name, "Region");
    assert_eq!(state.polygons.len(), 1);
    assert_eq!(state.holes.len(), 1);
    assert!(state
        .get_area()
        .eq_frac(&planesweep::frac::Frac::from_int(60)));
}
