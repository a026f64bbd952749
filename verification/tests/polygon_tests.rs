use planesweep::frac::Frac;
use planesweep::geom::Point2D;
use planesweep::polygon::{Polygon, Triangle};
use planesweep::region::{City, Country, RegionType, State};

fn frac_is(f: &Frac, n: i64) -> bool {
    f.eq_frac(&Frac::from_int(n))
}

fn square4() -> Polygon {
    let mut polygon = Polygon::new();
    polygon.add_point(Point2D::new(0, 0));
    polygon.add_point(Point2D::new(4, 0));
    polygon.add_point(Point2D::new(4, 4));
    polygon.add_point(Point2D::new(0, 4));
    polygon
}

#[test]
fn get_area_should_return_zero_when_polygon_has_no_points() {
    let polygon = Polygon::new();
    assert!(frac_is(&polygon.get_area(), 0));
}

#[test]
fn get_area_should_return_zero_when_polygon_has_one_point() {
    let mut polygon = Polygon::new();
    polygon.add_point(Point2D::new(0, 0));
    assert!(frac_is(&polygon.get_area(), 0));
}

#[test]
fn get_area_should_return_zero_when_polygon_has_two_points() {
    let mut polygon = Polygon::new();
    polygon.add_point(Point2D::new(0, 0));
    polygon.add_point(Point2D::new(1, 1));
    assert!(frac_is(&polygon.get_area(), 0));
}

#[test]
fn get_area_should_return_correct_value_when_polygon_is_triangle() {
    let mut polygon = Polygon::new();
    polygon.add_point(Point2D::new(0, 0));
    polygon.add_point(Point2D::new(4, 0));
    polygon.add_point(Point2D::new(0, 3));
    assert!(frac_is(&polygon.get_area(), 6));
}

#[test]
fn get_area_should_return_correct_value_when_polygon_is_square() {
    let polygon = square4();
    assert!(frac_is(&polygon.get_area(), 16));
}

#[test]
fn get_area_should_return_correct_value_when_polygo_is_irregular() {
    let mut polygon = Polygon::new();
    polygon.add_point(Point2D::new(1, 1));
    polygon.add_point(Point2D::new(4, 1));
    polygon.add_point(Point2D::new(4, 5));
    polygon.add_point(Point2D::new(1, 5));
    polygon.add_point(Point2D::new(3, 3));
    assert!(frac_is(&polygon.get_area(), 8));
}

#[test]
fn get_area_should_return_correct_value_when_polygon_is_cw() {
    let mut polygon = Polygon::new();
    polygon.add_point(Point2D::new(0, 0));
    polygon.add_point(Point2D::new(0, 4));
    polygon.add_point(Point2D::new(4, 4));
    polygon.add_point(Point2D::new(4, 0));
    assert!(frac_is(&polygon.get_area(), 16));
}

#[test]
fn get_area_should_return_correct_value_when_polygon_is_ccw() {
    let polygon = square4();
    assert!(frac_is(&polygon.get_area(), 16));
}

#[test]
fn test_polygon_with_negative_coordinates() {
    let mut polygon = Polygon::new();
    polygon.add_point(Point2D::new(-1, -1));
    polygon.add_point(Point2D::new(4, -1));
    polygon.add_point(Point2D::new(4, 4));
    polygon.add_point(Point2D::new(-1, 4));
    assert!(frac_is(&polygon.get_area(), 25));
}

#[test]
fn contains_should_return_false_when_point_is_outside_polygon() {
    let polygon = square4();
    assert!(!polygon.contains(Point2D::new(2, 6)));
}

#[test]
fn contains_should_return_true_when_point_is_inside_polygon() {
    let polygon = square4();
    assert!(polygon.contains(Point2D::new(2, 2)));
}

#[test]
fn contains_should_return_true_when_point_is_on_edge() {
    let polygon = square4();
    assert!(polygon.contains(Point2D::new(4, 2)));
}

#[test]
fn contains_should_return_true_when_point_is_on_vertex() {
    let polygon = square4();
    assert!(polygon.contains(Point2D::new(4, 4)));
}

#[test]
fn contains_should_return_true_when_inside_but_ray_is_on_edge() {
    let mut polygon = Polygon::new();
    polygon.add_point(Point2D::new(0, 0));
    polygon.add_point(Point2D::new(3, 0));
    polygon.add_point(Point2D::new(3, 3));
    polygon.add_point(Point2D::new(2, 2));
    polygon.add_point(Point2D::new(0, 2));
    assert!(polygon.contains(Point2D::new(1, 1)));
}

#[test]
fn contains_should_return_false_when_point_is_equal_to_comparison_point() {
    let polygon = square4();
    assert!(!polygon.contains(Point2D::new(5, 5)));
}

#[test]
fn is_clockwise_should_return_true_when_polygon_is_cw() {
    let mut polygon = Polygon::new();
    polygon.add_point(Point2D::new(0, 0));
    polygon.add_point(Point2D::new(0, 4));
    polygon.add_point(Point2D::new(4, 4));
    polygon.add_point(Point2D::new(4, 0));
    assert!(polygon.is_clockwise());
}

#[test]
fn is_clockwise_should_return_false_when_polygon_is_ccw() {
    let polygon = square4();
    assert!(!polygon.is_clockwise());
}

#[test]
fn is_clockwise_should_return_true_when_polygon_is_cw_and_has_negative_coordinates() {
    let mut polygon = Polygon::new();
    polygon.add_point(Point2D::new(-1, -1));
    polygon.add_point(Point2D::new(-1, -5));
    polygon.add_point(Point2D::new(-5, -5));
    polygon.add_point(Point2D::new(-5, -1));
    assert!(polygon.is_clockwise());
}

#[test]
fn is_clockwise_should_return_false_when_polygon_is_ccw_and_has_negative_coordinates() {
    let mut polygon = Polygon::new();
    polygon.add_point(Point2D::new(-1, -1));
    polygon.add_point(Point2D::new(-5, -1));
    polygon.add_point(Point2D::new(-5, -5));
    polygon.add_point(Point2D::new(-1, -5));
    assert!(!polygon.is_clockwise());
}

#[test]
fn is_clockwise_should_return_false_when_polygon_is_ccw_and_concave() {
    let mut polygon = Polygon::new();
    polygon.add_point(Point2D::new(0, 0));
    polygon.add_point(Point2D::new(4, 0));
    polygon.add_point(Point2D::new(4, 4));
    polygon.add_point(Point2D::new(2, 2));
    polygon.add_point(Point2D::new(0, 4));
    assert!(!polygon.is_clockwise());
}

#[test]
fn is_clockwise_should_return_true_when_polygon_is_cw_and_concave() {
    let mut polygon = Polygon::new();
    polygon.add_point(Point2D::new(0, 0));
    polygon.add_point(Point2D::new(0, 4));
    polygon.add_point(Point2D::new(4, 4));
    polygon.add_point(Point2D::new(2, 2));
    polygon.add_point(Point2D::new(4, 0));
    assert!(polygon.is_clockwise());
}

#[test]
fn test_point_inside_convex_polygon() {
    let mut polygon = Polygon::new();
    polygon.push(0, 0);
    polygon.push(4, 0);
    polygon.push(4, 4);
    polygon.push(0, 4);
    assert!(polygon.contains(Point2D::new(2, 2)));
}

#[test]
fn test_point_outside_convex_polygon() {
    let mut polygon = Polygon::new();
    polygon.push(0, 0);
    polygon.push(4, 0);
    polygon.push(4, 4);
    polygon.push(0, 4);
    assert!(!polygon.contains(Point2D::new(5, 5)));
}

#[test]
fn test_point_on_edge_of_polygon() {
    let polygon = square4();
    assert!(polygon.contains(Point2D::new(4, 2)));
}

#[test]
fn test_point_at_vertex_of_polygon() {
    let polygon = square4();
    assert!(polygon.contains(Point2D::new(4, 4)));
}

#[test]
fn test_point_inside_concave_polygon() {
    let mut polygon = Polygon::new();
    polygon.push(0, 0);
    polygon.push(4, 0);
    polygon.push(4, 4);
    polygon.push(2, 2);
    polygon.push(0, 4);
    assert!(polygon.contains(Point2D::new(1, 1)));
}

#[test]
fn test_point_outside_concave_polygon() {
    let mut polygon = Polygon::new();
    polygon.push(0, 0);
    polygon.push(4, 0);
    polygon.push(4, 4);
    polygon.push(2, 2);
    polygon.push(0, 4);
    assert!(!polygon.contains(Point2D::new(3, 3)));
}

#[test]
fn test_degenerate_polygon_line() {
    // A two-vertex ring has no interior.  The ray walk treats a vanishing
    // orientation as its own sign class (no sign jump of two), so a point
    // on the degenerate ring is counted with an even number of crossings
    // and reported outside.
    let mut polygon = Polygon::new();
    polygon.push(0, 0);
    polygon.push(4, 0);
    assert!(!polygon.contains(Point2D::new(2, 0)));
}

#[test]
fn test_point_at_vertex_of_concave_polygon() {
    // At the concave ring's extreme vertex the ray from the bounding-box
    // corner passes through collinear vertices; with the zero orientation
    // as its own sign class the walk counts an even number of crossings.
    let mut polygon = Polygon::new();
    polygon.push(0, 0);
    polygon.push(4, 0);
    polygon.push(4, 4);
    polygon.push(2, 2);
    polygon.push(0, 4);
    assert!(!polygon.contains(Point2D::new(4, 4)));
}

#[test]
fn test_degenerate_polygon_point() {
    let mut polygon = Polygon::new();
    polygon.push(0, 0);
    assert!(!polygon.contains(Point2D::new(0, 0)));
}

#[test]
fn test_area_square() {
    let mut polygon = Polygon::new();
    polygon.push(0, 0);
    polygon.push(4, 0);
    polygon.push(4, 4);
    polygon.push(0, 4);
    assert!(frac_is(&polygon.get_area(), 16));
}

#[test]
fn test_area_triangle() {
    let mut polygon = Polygon::new();
    polygon.push(0, 0);
    polygon.push(4, 0);
    polygon.push(2, 4);
    assert!(frac_is(&polygon.get_area(), 8));
}

#[test]
fn test_area_concave_polygon() {
    let mut polygon = Polygon::new();
    polygon.push(0, 0);
    polygon.push(4, 0);
    polygon.push(2, 2);
    polygon.push(4, 4);
    polygon.push(0, 4);
    assert!(frac_is(&polygon.get_area(), 12));
}

#[test]
fn test_area_degenerate_polygon_line() {
    let mut polygon = Polygon::new();
    polygon.push(0, 0);
    polygon.push(4, 0);
    assert!(frac_is(&polygon.get_area(), 0));
}

#[test]
fn test_area_degenerate_polygon_point() {
    let mut polygon = Polygon::new();
    polygon.push(0, 0);
    assert!(frac_is(&polygon.get_area(), 0));
}

#[test]
fn test_area_polygon_with_overlapping_vertices() {
    let mut polygon = Polygon::new();
    polygon.push(0, 0);
    polygon.push(4, 0);
    polygon.push(4, 4);
    polygon.push(4, 0);
    polygon.push(0, 4);
    assert!(frac_is(&polygon.get_area(), 8));
}

#[test]
fn test_area_complex_polygon() {
    let mut polygon = Polygon::new();
    polygon.push(0, 0);
    polygon.push(6, 0);
    polygon.push(6, 6);
    polygon.push(3, 3);
    polygon.push(0, 6);
    assert!(frac_is(&polygon.get_area(), 27));
}

#[test]
fn test_get_area_when_points_form_triangle() {
    let a = Point2D::new(0, 0);
    let b = Point2D::new(4, 0);
    let c = Point2D::new(0, 3);
    let triangle = Triangle::new(a, b, c);
    assert!(frac_is(&triangle.get_area(), 6));
}

#[test]
fn test_get_area_when_points_on_line() {
    let a = Point2D::new(0, 0);
    let b = Point2D::new(4, 0);
    let c = Point2D::new(0, 0);
    let triangle = Triangle::new(a, b, c);
    assert!(frac_is(&triangle.get_area(), 0));
}

#[test]
fn test_contains_point_when_contains_point() {
    let triangle = Triangle::new(Point2D::new(0, 0), Point2D::new(4, 0), Point2D::new(0, 3));
    assert!(triangle.contains_point(Point2D::new(1, 1)));
}

#[test]
fn test_contains_point_when_point_is_outside() {
    let triangle = Triangle::new(Point2D::new(0, 0), Point2D::new(4, 0), Point2D::new(0, 3));
    assert!(!triangle.contains_point(Point2D::new(5, 5)));
}

#[test]
fn test_contains_point_when_point_is_on_edge() {
    let triangle = Triangle::new(Point2D::new(0, 0), Point2D::new(4, 0), Point2D::new(0, 3));
    assert!(triangle.contains_point(Point2D::new(2, 0)));
}

#[test]
fn test_contains_point_when_point_is_vertex() {
    let a = Point2D::new(0, 0);
    let b = Point2D::new(4, 0);
    let c = Point2D::new(0, 3);
    let triangle = Triangle::new(a, b, c);
    assert!(triangle.contains_point(a));
    assert!(triangle.contains_point(b));
    assert!(triangle.contains_point(c));
}

#[test]
fn test_contains_point_when_triangle_is_degenerate() {
    let triangle = Triangle::new(Point2D::new(0, 0), Point2D::new(4, 0), Point2D::new(8, 0));
    assert!(!triangle.contains_point(Point2D::new(5, 5)));
}

#[test]
fn test_contains_point_when_triangle_is_degenerate_and_point_is_on_line() {
    let triangle = Triangle::new(Point2D::new(0, 0), Point2D::new(4, 0), Point2D::new(8, 0));
    assert!(triangle.contains_point(Point2D::new(5, 0)));
}

fn unit_square_state() -> State {
    let mut p = Polygon::new();
    p.add_point(Point2D::new(0, 0));
    p.add_point(Point2D::new(1, 0));
    p.add_point(Point2D::new(1, 1));
    p.add_point(Point2D::new(0, 1));
    State { name: String::from("State"), polygons: vec![p], holes: vec![] }
}

fn city_at(x: i64, y: i64) -> City {
    City { name: "City".to_string(), location: Point2D::new(x, y) }
}

#[test]
fn test_get_area_when_state_has_one_polygon() {
    let state = unit_square_state();
    assert!(frac_is(&state.get_area(), 1));
}

#[test]
fn test_get_area_when_state_has_multiple_polygons() {
    let mut state = unit_square_state();
    let other = unit_square_state();
    state.polygons.push(other.polygons[0].clone());
    assert!(frac_is(&state.get_area(), 2));
}

fn holed_state() -> State {
    let mut outer = Polygon::new();
    outer.add_point(Point2D::new(0, 0));
    outer.add_point(Point2D::new(4, 0));
    outer.add_point(Point2D::new(4, 4));
    outer.add_point(Point2D::new(0, 4));
    let mut hole = Polygon::new();
    hole.add_point(Point2D::new(1, 1));
    hole.add_point(Point2D::new(2, 1));
    hole.add_point(Point2D::new(2, 2));
    hole.add_point(Point2D::new(1, 2));
    State { name: String::from("State"), polygons: vec![outer], holes: vec![hole] }
}

#[test]
fn get_area_should_return_area_when_polygon_has_hole() {
    let state = holed_state();
    assert!(frac_is(&state.get_area(), 15));
}

#[test]
fn contains_should_return_true_when_city_is_inside_polygon() {
    // The query point sits strictly inside the scaled unit square.
    let mut p = Polygon::new();
    p.add_point(Point2D::new(0, 0));
    p.add_point(Point2D::new(2, 0));
    p.add_point(Point2D::new(2, 2));
    p.add_point(Point2D::new(0, 2));
    let state = State { name: String::from("State"), polygons: vec![p], holes: vec![] };
    assert!(state.contains(&city_at(1, 1)));
}

#[test]
fn contains_should_return_true_when_city_is_in_second_polygon() {
    let mut state = unit_square_state();
    let mut p2 = Polygon::new();
    p2.add_point(Point2D::new(2, 2));
    p2.add_point(Point2D::new(4, 2));
    p2.add_point(Point2D::new(4, 4));
    p2.add_point(Point2D::new(2, 4));
    state.polygons.push(p2);
    assert!(state.contains(&city_at(3, 3)));
}

#[test]
fn contains_should_return_false_when_city_is_in_no_polygon() {
    let mut state = unit_square_state();
    let mut p2 = Polygon::new();
    p2.add_point(Point2D::new(2, 2));
    p2.add_point(Point2D::new(3, 2));
    p2.add_point(Point2D::new(3, 3));
    p2.add_point(Point2D::new(2, 3));
    state.polygons.push(p2);
    assert!(!state.contains(&city_at(4, 4)));
}

#[test]
fn contains_should_return_false_when_state_has_no_polygon() {
    let state = State { name: String::from("State"), polygons: vec![], holes: vec![] };
    assert!(!state.contains(&city_at(4, 4)));
}

#[test]
fn contains_should_return_false_when_city_is_in_hole() {
    // The hole is scaled so that its middle is a grid point.
    let mut outer = Polygon::new();
    outer.add_point(Point2D::new(0, 0));
    outer.add_point(Point2D::new(8, 0));
    outer.add_point(Point2D::new(8, 8));
    outer.add_point(Point2D::new(0, 8));
    let mut hole = Polygon::new();
    hole.add_point(Point2D::new(2, 2));
    hole.add_point(Point2D::new(4, 2));
    hole.add_point(Point2D::new(4, 4));
    hole.add_point(Point2D::new(2, 4));
    let state = State { name: String::from("State"), polygons: vec![outer], holes: vec![hole] };
    assert!(!state.contains(&city_at(3, 3)));
}

#[test]
fn contains_should_return_true_when_city_is_on_border_of_hole() {
    let state = holed_state();
    assert!(state.contains(&city_at(1, 1)));
}

#[test]
fn state_new_splits_regions_by_kind() {
    let mut outer = Polygon::new();
    outer.add_point(Point2D::new(0, 0));
    outer.add_point(Point2D::new(4, 0));
    outer.add_point(Point2D::new(4, 4));
    let mut hole = Polygon::new();
    hole.add_point(Point2D::new(1, 1));
    hole.add_point(Point2D::new(2, 1));
    hole.add_point(Point2D::new(2, 2));
    let state = State::new(
        String::from("Region"),
        vec![
            RegionType::OuterBoundary(outer),
            RegionType::ExclusionZone(hole),
            RegionType::UnspecifiedRegion(Polygon::new()),
        ],
    );
    assert_eq!(state.polygons.len(), 2);
    assert_eq!(state.holes.len(), 1);
    assert_eq!(state.name, "Region");
}

#[test]
fn country_accumulates_state_areas() {
    let mut country = Country::new();
    country.add_state(unit_square_state());
    country.add_state(holed_state());
    country.add_city(city_at(0, 0));
    country.compute_area();
    assert!(frac_is(&country.area.unwrap(), 16));
}
