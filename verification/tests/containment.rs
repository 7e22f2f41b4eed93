use overpass_geo::coord_in_polygon_ls;
use overpass_geo::polygons_intersect_ls;
use overpass_geo::Coord;
use overpass_geo::LineString;

fn c(x: i32, y: i32) -> Coord {
    Coord { x, y }
}

// The unit square, at a fixed-point scale of ten per degree.
fn unit_square() -> LineString {
    LineString(vec![c(0, 0), c(10, 0), c(10, 10), c(0, 10), c(0, 0)])
}

#[test]
fn test_coord_in_polygon_ls() {
    let polygon = unit_square();
    let p = c(5, 5);
    assert!(coord_in_polygon_ls(&p, &polygon));
}

#[test]
fn test_coord_in_polygon_ls_not() {
    let polygon = unit_square();
    let p = c(20, 20);
    assert!(!coord_in_polygon_ls(&p, &polygon));
}

#[test]
fn test_coord_in_polygon_ls_on_edge() {
    let polygon = unit_square();
    let p = c(5, 0);
    assert!(coord_in_polygon_ls(&p, &polygon));
    let p = c(0, 5);
    assert!(coord_in_polygon_ls(&p, &polygon));
}

#[test]
fn test_coord_in_polygon_ls_on_vertex() {
    let polygon = unit_square();
    let p = c(0, 0);
    assert!(coord_in_polygon_ls(&p, &polygon));
}

#[test]
fn test_centroid_of_convex_rings_inside() {
    let square = unit_square();
    assert!(coord_in_polygon_ls(&c(5, 5), &square));
    let triangle = LineString(vec![c(0, 0), c(30, 0), c(0, 30), c(0, 0)]);
    assert!(coord_in_polygon_ls(&c(10, 10), &triangle));
    let diamond = LineString(vec![c(10, 0), c(20, 10), c(10, 20), c(0, 10), c(10, 0)]);
    assert!(coord_in_polygon_ls(&c(10, 10), &diamond));
}

#[test]
fn test_far_outside_bounding_box() {
    let square = unit_square();
    assert!(!coord_in_polygon_ls(&c(100, 5), &square));
    assert!(!coord_in_polygon_ls(&c(-100, 5), &square));
    assert!(!coord_in_polygon_ls(&c(5, 100), &square));
    assert!(!coord_in_polygon_ls(&c(5, -100), &square));
    assert!(!coord_in_polygon_ls(&c(-100, -100), &square));
}

#[test]
fn test_polygons_intersect_ls() {
    let outer = unit_square();
    let inner = LineString(vec![c(2, 2), c(8, 2), c(8, 8), c(2, 8), c(2, 2)]);
    assert!(polygons_intersect_ls(&outer, &inner));
    let far = LineString(vec![c(20, 20), c(30, 20), c(30, 30), c(20, 30), c(20, 20)]);
    assert!(!polygons_intersect_ls(&outer, &far));
}
