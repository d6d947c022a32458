use geo::{ConvexHull, CoordsIter, Geometry, MultiPoint, Point};
use geo_tools::document::parse_geometry;
use geo_tools::error::GeoError;
use geo_tools::nodes::{
    check_destination, check_hull_ring, check_point_pair, contains_target, hull_target, lineal,
    polygonal, simplifies, simplify_target,
};
use geo_tools::shape::{Coord, Shape};

const SQUARE: &str = r#"{"type":"Polygon","coordinates":[[[0,0],[4,0],[4,4],[0,4],[0,0]]]}"#;

fn b(x: f64) -> u64 {
    x.to_bits()
}

fn token(r: Result<Shape, GeoError>) -> &'static str {
    match r {
        Ok(_) => "",
        Err(e) => e.token(),
    }
}

fn pair_token(from_lon: f64, from_lat: f64, to_lon: f64, to_lat: f64) -> &'static str {
    match check_point_pair(b(from_lon), b(from_lat), b(to_lon), b(to_lat)) {
        Ok(()) => "",
        Err(e) => e.token(),
    }
}

fn destination_token(lon: f64, lat: f64, bearing: f64, distance: f64) -> &'static str {
    match check_destination(b(lon), b(lat), b(bearing), b(distance)) {
        Ok(()) => "",
        Err(e) => e.token(),
    }
}

// Builds a dense LineString of `n` points alternating y = +4 / -4.
fn sawtooth(n: usize) -> String {
    let mut c = String::from("[0,0]");
    for i in 1..n {
        let x = i as f64 * 0.001;
        let y = if i % 2 == 0 { 4.0 } else { -4.0 };
        c.push_str(&format!(",[{},{}]", x, y));
    }
    format!(r#"{{"type":"LineString","coordinates":[{}]}}"#, c)
}

fn hull_ring_len(geojson: &str) -> usize {
    let g: geojson::Geometry = geojson.parse().unwrap();
    let g: Geometry<f64> = g.try_into().unwrap();
    let pts: Vec<Point<f64>> = g.coords_iter().map(Point::from).collect();
    MultiPoint::new(pts).convex_hull().exterior().0.len()
}

#[test]
fn area_test_test_error_paths() {
    assert_eq!(token(polygonal(parse_geometry(r#"{"type":"LineString","coordinates":[[0,0],[1,1]]}"#))), "WRONG_GEOMETRY_TYPE");
    assert_eq!(token(polygonal(parse_geometry("{bad"))), "INVALID_GEOJSON");
}

#[test]
fn bearing_test_test_error_paths() {
    assert_eq!(pair_token(0.0, 0.0, f64::INFINITY, 0.0), "NON_FINITE_COORD");
    assert_eq!(pair_token(0.0, 0.0, 200.0, 0.0), "OUT_OF_RANGE");
}

#[test]
fn contains_test_test_error_paths() {
    assert_eq!(token(contains_target(b(0.0), b(0.0), parse_geometry(r#"{"type":"Point","coordinates":[0,0]}"#))), "WRONG_GEOMETRY_TYPE");
    assert_eq!(token(contains_target(b(200.0), b(0.0), parse_geometry(SQUARE))), "OUT_OF_RANGE");
    assert_eq!(token(contains_target(b(1.0), b(1.0), parse_geometry("nope"))), "INVALID_GEOJSON");
}

#[test]
fn convex_hull_test_test_error_paths() {
    assert_eq!(token(hull_target(parse_geometry(""))), "EMPTY_INPUT");
    assert_eq!(token(hull_target(parse_geometry("xx"))), "INVALID_GEOJSON");
}

#[test]
fn test_degenerate_hull_is_structured_error() {
    let point = r#"{"type":"Point","coordinates":[3,4]}"#;
    let line = r#"{"type":"LineString","coordinates":[[0,0],[1,1],[2,2]]}"#;
    for g in [point, line] {
        assert!(hull_target(parse_geometry(g)).is_ok());
        assert_eq!(check_hull_ring(hull_ring_len(g)), Err(GeoError::Degenerate));
        assert_eq!(GeoError::Degenerate.token(), "DEGENERATE");
    }
    let square = r#"{"type":"MultiPoint","coordinates":[[0,0],[4,0],[4,4],[0,4],[2,2]]}"#;
    assert_eq!(check_hull_ring(hull_ring_len(square)), Ok(()));
}

#[test]
fn destination_test_test_error_paths() {
    assert_eq!(destination_token(0.0, 91.0, 0.0, 100.0), "OUT_OF_RANGE");
    assert_eq!(destination_token(0.0, 0.0, 0.0, -5.0), "OUT_OF_RANGE");
    assert_eq!(destination_token(0.0, 0.0, f64::NAN, 100.0), "NON_FINITE_COORD");
}

#[test]
fn test_non_finite_is_structured_error() {
    assert_eq!(pair_token(f64::NAN, 0.0, 0.0, 0.0), "NON_FINITE_COORD");
}

#[test]
fn test_out_of_range_latitude_is_structured_error() {
    assert_eq!(pair_token(0.0, 91.0, 0.0, 0.0), "OUT_OF_RANGE");
}

#[test]
fn length_test_test_error_paths() {
    assert_eq!(token(lineal(parse_geometry(r#"{"type":"Point","coordinates":[0,0]}"#))), "WRONG_GEOMETRY_TYPE");
    assert_eq!(token(lineal(parse_geometry("not json"))), "INVALID_GEOJSON");
    assert_eq!(token(lineal(parse_geometry(""))), "EMPTY_INPUT");
}

#[test]
fn simplify_test_test_error_paths() {
    assert_eq!(token(simplify_target(b(-1.0), parse_geometry(r#"{"type":"LineString","coordinates":[[0,0],[1,1]]}"#))), "OUT_OF_RANGE");
    assert_eq!(token(simplify_target(b(0.1), parse_geometry("bad"))), "INVALID_GEOJSON");
}

#[test]
fn test_vertex_cap() {
    assert_eq!(token(simplify_target(b(0.00001), parse_geometry(&sawtooth(10_001)))), "TOO_MANY_COORDS");
}

#[test]
fn test_deep_recursion_does_not_crash() {
    // Checks that a line at the vertex cap is accepted for simplification and
    // handed on whole. The simplification itself is geo's recursive
    // Ramer–Douglas–Peucker, run by the application; on this input it needs
    // more stack than a test thread has.
    let r = simplify_target(b(0.00001), parse_geometry(&sawtooth(10_000)));
    match r {
        Ok(Shape::LineString(v)) => {
            assert_eq!(v.len(), 10_000);
            assert!(simplifies(&Shape::LineString(v)));
        }
        _ => panic!("expected the line string back"),
    }
}

#[test]
fn simplify_passes_points_and_collections_through() {
    assert!(simplifies(&Shape::MultiLineString(vec![])));
    assert!(simplifies(&Shape::Polygon(vec![])));
    assert!(simplifies(&Shape::MultiPolygon(vec![])));
    assert!(!simplifies(&Shape::Point(Coord { x: b(1.0), y: b(2.0) })));
    assert!(!simplifies(&Shape::MultiPoint(vec![])));
    assert!(!simplifies(&Shape::GeometryCollection(vec![])));
}

#[test]
fn simplify_accepts_zero_and_negative_zero_epsilon() {
    let line = r#"{"type":"LineString","coordinates":[[0,0],[5,0.0001],[10,0]]}"#;
    assert_eq!(token(simplify_target(b(0.0), parse_geometry(line))), "");
    assert_eq!(token(simplify_target(b(-0.0), parse_geometry(line))), "");
    assert_eq!(token(simplify_target(b(f64::NAN), parse_geometry(line))), "OUT_OF_RANGE");
    assert_eq!(token(simplify_target(b(f64::INFINITY), parse_geometry(line))), "OUT_OF_RANGE");
}

#[test]
fn simplify_keeps_the_geometry_it_was_given() {
    let line = r#"{"type":"LineString","coordinates":[[0,0],[5,0.0001],[10,0]]}"#;
    match simplify_target(b(0.01), parse_geometry(line)) {
        Ok(Shape::LineString(v)) => {
            assert_eq!(v.len(), 3);
            assert_eq!(v[1], Coord { x: b(5.0), y: b(0.0001) });
        }
        _ => panic!("expected the line string back"),
    }
}

#[test]
fn destination_accepts_negative_zero_distance_and_any_finite_bearing() {
    assert_eq!(destination_token(0.0, 0.0, 720.0, -0.0), "");
    assert_eq!(destination_token(0.0, 0.0, -45.0, 0.0), "");
    assert_eq!(destination_token(0.0, 0.0, 0.0, f64::INFINITY), "NON_FINITE_COORD");
    assert_eq!(destination_token(f64::NAN, 100.0, 0.0, -1.0), "NON_FINITE_COORD");
}

#[test]
fn pair_reports_the_origin_first() {
    assert_eq!(pair_token(200.0, 0.0, f64::NAN, 0.0), "OUT_OF_RANGE");
    assert_eq!(pair_token(0.0, 0.0, 0.0, 90.0), "");
    assert_eq!(pair_token(-180.0, -90.0, 180.0, 90.0), "");
}

#[test]
fn contains_accepts_multipolygon_and_rejects_collection() {
    let mp = r#"{"type":"MultiPolygon","coordinates":[[[[0,0],[4,0],[4,4],[0,0]]]]}"#;
    assert_eq!(token(contains_target(b(1.0), b(1.0), parse_geometry(mp))), "");
    let gc = r#"{"type":"GeometryCollection","geometries":[{"type":"Point","coordinates":[0,0]}]}"#;
    assert_eq!(token(contains_target(b(1.0), b(1.0), parse_geometry(gc))), "WRONG_GEOMETRY_TYPE");
    // The point is checked before the geometry.
    assert_eq!(token(contains_target(b(f64::NAN), b(1.0), parse_geometry("nope"))), "NON_FINITE_COORD");
}

#[test]
fn length_accepts_multilinestring() {
    let mls = r#"{"type":"MultiLineString","coordinates":[[[0,0],[1,1]],[[2,2],[3,3]]]}"#;
    assert_eq!(token(lineal(parse_geometry(mls))), "");
    assert_eq!(token(polygonal(parse_geometry(mls))), "WRONG_GEOMETRY_TYPE");
}

#[test]
fn hull_of_empty_geometry_is_empty_geometry() {
    let empty = r#"{"type":"MultiPoint","coordinates":[]}"#;
    assert_eq!(token(hull_target(parse_geometry(empty))), "EMPTY_GEOMETRY");
    let gc = r#"{"type":"GeometryCollection","geometries":[]}"#;
    assert_eq!(token(hull_target(parse_geometry(gc))), "EMPTY_GEOMETRY");
    assert_eq!(check_hull_ring(3), Err(GeoError::Degenerate));
    assert_eq!(check_hull_ring(4), Ok(()));
}
