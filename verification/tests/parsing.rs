use geo::BoundingRect;
use geo_tools::bbox::{empty_bbox, BoundingBox};
use geo_tools::document::{parse_geometry, MAX_GEOJSON_LEN};
use geo_tools::error::GeoError;
use geo_tools::ieee::{below_zero, finite, less_than, point_in_range};
use geo_tools::nodes::bounding_box;
use geo_tools::shape::{check_coords, count_coords, Coord, Shape, MAX_COORDS};

fn b(x: f64) -> u64 {
    x.to_bits()
}

fn c(x: f64, y: f64) -> Coord {
    Coord { x: b(x), y: b(y) }
}

fn err(text: &str) -> Option<GeoError> {
    parse_geometry(text).err()
}

fn bounds(text: &str) -> (f64, f64, f64, f64) {
    let r = bounding_box(&parse_geometry(text)).unwrap();
    (
        f64::from_bits(r.min.x),
        f64::from_bits(r.min.y),
        f64::from_bits(r.max.x),
        f64::from_bits(r.max.y),
    )
}

#[test]
fn point_in_range_bounds_are_inclusive() {
    assert_eq!(point_in_range(b(180.0), b(90.0)), Ok(()));
    assert_eq!(point_in_range(b(-180.0), b(-90.0)), Ok(()));
    assert_eq!(point_in_range(b(-0.0), b(0.0)), Ok(()));
    assert_eq!(point_in_range(b(180.00000000000003), b(0.0)), Err(GeoError::OutOfRange));
    assert_eq!(point_in_range(b(0.0), b(90.00000000000001)), Err(GeoError::OutOfRange));
    assert_eq!(point_in_range(b(0.0), b(-1e300)), Err(GeoError::OutOfRange));
    assert_eq!(point_in_range(b(1e-320), b(-89.99999999999999)), Ok(()));
}

#[test]
fn point_in_range_reports_non_finite_first() {
    assert_eq!(point_in_range(b(500.0), b(f64::NAN)), Err(GeoError::NonFiniteCoord));
    assert_eq!(point_in_range(b(f64::NEG_INFINITY), b(0.0)), Err(GeoError::NonFiniteCoord));
    assert_eq!(point_in_range(b(0.0), b(91.0)), Err(GeoError::OutOfRange));
}

#[test]
fn float_classification_and_order() {
    assert!(finite(b(1.5)) && finite(b(-0.0)) && finite(b(f64::MAX)) && finite(b(5e-324)));
    assert!(!finite(b(f64::NAN)) && !finite(b(f64::INFINITY)) && !finite(b(f64::NEG_INFINITY)));
    assert!(below_zero(b(-1e-300)) && !below_zero(b(-0.0)) && !below_zero(b(0.0)));
    assert!(less_than(b(-2.0), b(-1.0)) && less_than(b(-1.0), b(0.5)) && less_than(b(0.5), b(1e10)));
    assert!(!less_than(b(-0.0), b(0.0)) && !less_than(b(0.0), b(-0.0)) && !less_than(b(3.0), b(3.0)));
    assert!(less_than(b(-5e-324), b(5e-324)) && !less_than(b(1.0), b(-1.0)));
}

#[test]
fn error_tokens() {
    assert_eq!(GeoError::InputTooLong.token(), "INPUT_TOO_LONG");
    assert_eq!(GeoError::EmptyInput.token(), "EMPTY_INPUT");
    assert_eq!(GeoError::InvalidGeojson.token(), "INVALID_GEOJSON");
    assert_eq!(GeoError::WrongGeometryType.token(), "WRONG_GEOMETRY_TYPE");
    assert_eq!(GeoError::NonFiniteCoord.token(), "NON_FINITE_COORD");
    assert_eq!(GeoError::TooManyCoords.token(), "TOO_MANY_COORDS");
    assert_eq!(GeoError::OutOfRange.token(), "OUT_OF_RANGE");
    assert_eq!(GeoError::EmptyGeometry.token(), "EMPTY_GEOMETRY");
    assert_eq!(GeoError::Degenerate.token(), "DEGENERATE");
}

#[test]
fn parse_blank_and_oversized_input() {
    assert_eq!(err(""), Some(GeoError::EmptyInput));
    assert_eq!(err(" \n\t\u{3000} "), Some(GeoError::EmptyInput));
    let long = " ".repeat(MAX_GEOJSON_LEN + 1);
    assert_eq!(err(&long), Some(GeoError::InputTooLong));
    // The cap counts bytes: 333,334 three-byte characters exceed a million bytes.
    let wide = "\u{3000}".repeat(333_334);
    assert_eq!(err(&wide), Some(GeoError::InputTooLong));
    let at_cap = " ".repeat(MAX_GEOJSON_LEN);
    assert_eq!(err(&at_cap), Some(GeoError::EmptyInput));
}

#[test]
fn parse_accepts_geometry_and_single_feature() {
    let padded = "  \n{\"type\":\"Point\",\"coordinates\":[1.5,-2.25]}\n ";
    match parse_geometry(padded) {
        Ok(Shape::Point(p)) => assert_eq!(p, c(1.5, -2.25)),
        _ => panic!("expected a point"),
    }
    let feature = r#"{"type":"Feature","properties":{},"geometry":{"type":"LineString","coordinates":[[0,0],[1,2,3]]}}"#;
    match parse_geometry(feature) {
        Ok(Shape::LineString(v)) => assert_eq!(v, vec![c(0.0, 0.0), c(1.0, 2.0)]),
        _ => panic!("expected a line string"),
    }
}

#[test]
fn parse_trims_unicode_white_space() {
    // U+3000 is white space to `str::trim` but not to JSON.
    let padded = "\u{3000}\u{2028}{\"type\":\"Point\",\"coordinates\":[1,2]}\u{a0}";
    match parse_geometry(padded) {
        Ok(Shape::Point(p)) => assert_eq!(p, c(1.0, 2.0)),
        _ => panic!("expected a point"),
    }
    assert_eq!(err("\u{200b}{\"type\":\"Point\",\"coordinates\":[1,2]}"), Some(GeoError::InvalidGeojson));
}

#[test]
fn parse_refuses_collections_and_bare_features() {
    let fc = r#"{"type":"FeatureCollection","features":[]}"#;
    assert_eq!(err(fc), Some(GeoError::WrongGeometryType));
    let bare = r#"{"type":"Feature","properties":{},"geometry":null}"#;
    assert_eq!(err(bare), Some(GeoError::EmptyInput));
    assert_eq!(err("[1,2]"), Some(GeoError::InvalidGeojson));
    let short = r#"{"type":"LineString","coordinates":[[0],[1,1]]}"#;
    assert_eq!(err(short), Some(GeoError::InvalidGeojson));
}

#[test]
fn parse_checks_every_coordinate_range() {
    let far = r#"{"type":"Polygon","coordinates":[[[0,0],[181,0],[1,1],[0,0]]]}"#;
    assert_eq!(err(far), Some(GeoError::OutOfRange));
    let deep = r#"{"type":"GeometryCollection","geometries":[{"type":"Point","coordinates":[0,0]},{"type":"GeometryCollection","geometries":[{"type":"Point","coordinates":[0,-90.5]}]}]}"#;
    assert_eq!(err(deep), Some(GeoError::OutOfRange));
    assert_eq!(check_coords(&Shape::Point(c(f64::NAN, 500.0))), Err(GeoError::NonFiniteCoord));
    assert_eq!(check_coords(&Shape::LineString(vec![c(500.0, 0.0), c(0.0, f64::INFINITY)])), Err(GeoError::NonFiniteCoord));
}

#[test]
fn parse_caps_coordinate_count() {
    let mut coords = String::from("[0,0]");
    for _ in 0..MAX_COORDS {
        coords.push_str(",[1,1]");
    }
    let many = format!(r#"{{"type":"MultiPoint","coordinates":[{}]}}"#, coords);
    assert_eq!(err(&many), Some(GeoError::TooManyCoords));
    let pts = vec![c(1.0, 1.0); MAX_COORDS];
    let at_cap = Shape::MultiPoint(pts);
    assert_eq!(check_coords(&at_cap), Ok(()));
    assert_eq!(count_coords(&at_cap, 7), 7);
    assert_eq!(count_coords(&at_cap, MAX_COORDS + 5), MAX_COORDS);
}

#[test]
fn bounding_box_spans_exterior_rings() {
    let poly = r#"{"type":"Polygon","coordinates":[[[0,0],[4,0],[4,3],[0,0]],[[-9,-9],[9,9],[9,-9],[-9,-9]]]}"#;
    assert_eq!(bounds(poly), (0.0, 0.0, 4.0, 3.0));
    let line = r#"{"type":"LineString","coordinates":[[3,-1],[-2,5],[1,2]]}"#;
    assert_eq!(bounds(line), (-2.0, -1.0, 3.0, 5.0));
    let point = r#"{"type":"Point","coordinates":[7,8]}"#;
    assert_eq!(bounds(point), (7.0, 8.0, 7.0, 8.0));
}

#[test]
fn bounding_box_merges_collection_members() {
    let gc = r#"{"type":"GeometryCollection","geometries":[{"type":"Point","coordinates":[10,-5]},{"type":"LineString","coordinates":[]},{"type":"MultiPoint","coordinates":[[-3,2],[1,20]]}]}"#;
    assert_eq!(bounds(gc), (-3.0, -5.0, 10.0, 20.0));
    let nothing = r#"{"type":"GeometryCollection","geometries":[{"type":"LineString","coordinates":[]}]}"#;
    assert_eq!(bounding_box(&parse_geometry(nothing)).err(), Some(GeoError::EmptyGeometry));
    assert_eq!(bounding_box(&parse_geometry("{bad")).err(), Some(GeoError::InvalidGeojson));
}

#[test]
fn bounding_box_ring_is_closed() {
    let r = bounding_box(&parse_geometry(r#"{"type":"MultiPoint","coordinates":[[1,2],[3,4]]}"#)).unwrap();
    let ring = r.to_polygon();
    assert_eq!(ring, vec![c(3.0, 2.0), c(3.0, 4.0), c(1.0, 4.0), c(1.0, 2.0), c(3.0, 2.0)]);
}

#[test]
fn empty_bbox_carries_only_the_error() {
    let e: BoundingBox = empty_bbox("EMPTY_GEOMETRY");
    assert_eq!((e.min_lon, e.min_lat, e.max_lon, e.max_lat), (0, 0, 0, 0));
    assert_eq!(f64::from_bits(e.max_lat), 0.0);
    assert_eq!(e.geojson, "");
    assert_eq!(e.error, "EMPTY_GEOMETRY");
}

fn ring(text: &str) -> Vec<Coord> {
    match parse_geometry(text) {
        Ok(Shape::Polygon(rings)) => rings[0].clone(),
        _ => panic!("expected a polygon"),
    }
}

#[test]
fn polygon_rings_are_closed_as_geo_closes_them() {
    let open = r#"{"type":"Polygon","coordinates":[[[0,0],[1,0],[1,1]]]}"#;
    assert_eq!(ring(open), vec![c(0.0, 0.0), c(1.0, 0.0), c(1.0, 1.0), c(0.0, 0.0)]);
    let closed = r#"{"type":"Polygon","coordinates":[[[0,0],[1,0],[1,1],[0,0]]]}"#;
    assert_eq!(ring(closed).len(), 4);
    // The two zeros compare equal, so this ring is already closed.
    let zeros = r#"{"type":"Polygon","coordinates":[[[-0.0,0],[1,0],[1,1],[0,-0.0]]]}"#;
    assert_eq!(ring(zeros).len(), 4);
    let holes = r#"{"type":"MultiPolygon","coordinates":[[[[0,0],[2,0],[2,2]],[[1,1],[1.5,1],[1.5,1.5]]]]}"#;
    match parse_geometry(holes) {
        Ok(Shape::MultiPolygon(ps)) => {
            assert_eq!(ps[0][0].len(), 4);
            assert_eq!(ps[0][1], vec![c(1.0, 1.0), c(1.5, 1.0), c(1.5, 1.5), c(1.0, 1.0)]);
        }
        _ => panic!("expected a multipolygon"),
    }
    // Line strings are not closed.
    match parse_geometry(r#"{"type":"MultiLineString","coordinates":[[[0,0],[1,0],[1,1]]]}"#) {
        Ok(Shape::MultiLineString(ls)) => assert_eq!(ls[0].len(), 3),
        _ => panic!("expected a multilinestring"),
    }
}

#[test]
fn closing_a_ring_counts_toward_the_cap() {
    let mut coords = String::from("[0,0]");
    for i in 1..MAX_COORDS {
        coords.push_str(if i % 2 == 0 { ",[1,1]" } else { ",[1,0]" });
    }
    let open = format!(r#"{{"type":"Polygon","coordinates":[[{}]]}}"#, coords);
    assert_eq!(err(&open), Some(GeoError::TooManyCoords));
    let line = format!(r#"{{"type":"LineString","coordinates":[{}]}}"#, coords);
    match parse_geometry(&line) {
        Ok(s) => assert_eq!(count_coords(&s, MAX_COORDS + 1), MAX_COORDS),
        Err(e) => panic!("unexpected {:?}", e),
    }
}

#[test]
fn coordinate_cap_is_inclusive() {
    let mut coords = String::from("[0,0]");
    for _ in 1..MAX_COORDS {
        coords.push_str(",[0,0]");
    }
    let at_cap = format!(r#"{{"type":"MultiPoint","coordinates":[{}]}}"#, coords);
    match parse_geometry(&at_cap) {
        Ok(s) => assert_eq!(count_coords(&s, MAX_COORDS + 1), MAX_COORDS),
        Err(e) => panic!("unexpected {:?}", e),
    }
    coords.push_str(",[0,0]");
    let over = format!(r#"{{"type":"MultiPoint","coordinates":[{}]}}"#, coords);
    assert_eq!(err(&over), Some(GeoError::TooManyCoords));
}

#[test]
fn collection_members_keep_document_order() {
    let gc = r#"{"type":"GeometryCollection","geometries":[{"type":"Point","coordinates":[1,2]},{"type":"LineString","coordinates":[[3,4],[5,6]]},{"type":"GeometryCollection","geometries":[{"type":"Point","coordinates":[7,8]}]}]}"#;
    match parse_geometry(gc) {
        Ok(Shape::GeometryCollection(ms)) => {
            assert_eq!(ms.len(), 3);
            assert!(matches!(&ms[0], Shape::Point(p) if *p == c(1.0, 2.0)));
            assert!(matches!(&ms[1], Shape::LineString(v) if *v == vec![c(3.0, 4.0), c(5.0, 6.0)]));
            match &ms[2] {
                Shape::GeometryCollection(inner) => {
                    assert!(matches!(&inner[0], Shape::Point(p) if *p == c(7.0, 8.0)))
                }
                _ => panic!("expected a nested collection"),
            }
        }
        _ => panic!("expected a collection"),
    }
}

#[test]
fn feature_answers_as_its_geometry() {
    let geoms = [
        r#"{"type":"LineString","coordinates":[[0,0],[0,100]]}"#,
        r#"{"type":"Polygon","coordinates":[[[0,0],[1,0],[1,1]]]}"#,
        r#"{"type":"Point","coordinates":[1e400,0]}"#,
        r#"{"type":"Point","coordinates":[5]}"#,
        r#"{"type":"MultiPoint","coordinates":[[1,2],[3,4]]}"#,
    ];
    for g in geoms.iter() {
        let f = format!(r#"{{"type":"Feature","properties":null,"geometry":{}}}"#, g);
        let bare = parse_geometry(g);
        let wrapped = parse_geometry(&f);
        assert_eq!(bare.as_ref().err(), wrapped.as_ref().err());
        if let (Ok(a), Ok(b)) = (&bare, &wrapped) {
            assert_eq!(count_coords(a, 100), count_coords(b, 100));
            assert_eq!(format!("{:?}", a), format!("{:?}", b));
        }
    }
}

#[test]
fn latitude_beyond_ninety_is_out_of_range() {
    let line = r#"{"type":"LineString","coordinates":[[0,0],[0,100]]}"#;
    assert_eq!(err(line), Some(GeoError::OutOfRange));
    let point = r#"{"type":"Point","coordinates":[0,90]}"#;
    assert!(parse_geometry(point).is_ok());
}

#[test]
fn bounding_box_takes_each_bound_from_the_first_coordinate_holding_it() {
    let pos_first = r#"{"type":"MultiPoint","coordinates":[[0.0,5],[-0.0,6],[3,-0.0],[4,0.0]]}"#;
    let r = bounding_box(&parse_geometry(pos_first)).unwrap();
    assert_eq!(r.min.x, b(0.0));
    assert_eq!(r.min.y, b(-0.0));
    let neg_first = r#"{"type":"LineString","coordinates":[[-0.0,1],[0.0,1]]}"#;
    let r = bounding_box(&parse_geometry(neg_first)).unwrap();
    assert_eq!(r.min.x, b(-0.0));
    assert_eq!(r.max.x, b(-0.0));
    assert_eq!((r.min.y, r.max.y), (b(1.0), b(1.0)));
}

#[test]
fn bounding_box_of_a_collection_takes_ties_from_the_last_member() {
    let gc = r#"{"type":"GeometryCollection","geometries":[{"type":"Point","coordinates":[0.0,0.0]},{"type":"Point","coordinates":[-0.0,-0.0]},{"type":"Point","coordinates":[3,4]}]}"#;
    let r = bounding_box(&parse_geometry(gc)).unwrap();
    assert_eq!((r.min.x, r.min.y), (b(-0.0), b(-0.0)));
    assert_eq!((r.max.x, r.max.y), (b(3.0), b(4.0)));
    let flat = r#"{"type":"MultiPoint","coordinates":[[0.0,0.0],[-0.0,-0.0],[3,4]]}"#;
    let r = bounding_box(&parse_geometry(flat)).unwrap();
    assert_eq!((r.min.x, r.min.y), (b(0.0), b(0.0)));
}

#[test]
fn bounding_box_matches_geo_bit_for_bit() {
    let inputs = [
        r#"{"type":"GeometryCollection","geometries":[{"type":"Point","coordinates":[0.0,0.0]},{"type":"Point","coordinates":[-0.0,-0.0]},{"type":"Point","coordinates":[3,4]}]}"#,
        r#"{"type":"GeometryCollection","geometries":[{"type":"Point","coordinates":[-0.0,0.0]},{"type":"Point","coordinates":[0.0,-0.0]}]}"#,
        r#"{"type":"MultiPoint","coordinates":[[0.0,0.0],[-0.0,-0.0],[3,4]]}"#,
        r#"{"type":"LineString","coordinates":[[-0.0,1],[0.0,1]]}"#,
        r#"{"type":"MultiPolygon","coordinates":[[[[0,0],[-0.0,2],[2,2]]],[[[-0.0,-0.0],[1,0],[1,1]]]]}"#,
    ];
    for text in inputs.iter() {
        let ours = bounding_box(&parse_geometry(text)).unwrap();
        let g: geojson::Geometry = text.parse().unwrap();
        let g: geo::Geometry<f64> = g.try_into().unwrap();
        let theirs = g.bounding_rect().unwrap();
        assert_eq!(ours.min.x, theirs.min().x.to_bits(), "{}", text);
        assert_eq!(ours.min.y, theirs.min().y.to_bits(), "{}", text);
        assert_eq!(ours.max.x, theirs.max().x.to_bits(), "{}", text);
        assert_eq!(ours.max.y, theirs.max().y.to_bits(), "{}", text);
    }
}

fn box_text(ring: &[Coord]) -> String {
    let line: geo::LineString<f64> = ring
        .iter()
        .map(|c| geo::Coord { x: f64::from_bits(c.x), y: f64::from_bits(c.y) })
        .collect();
    let poly = geo::Geometry::Polygon(geo::Polygon::new(line, vec![]));
    geojson::Geometry::from(&poly).to_string()
}

#[test]
fn box_polygon_bounds_to_itself() {
    let inputs = [
        r#"{"type":"LineString","coordinates":[[3,-1],[-2,5],[1,2]]}"#,
        r#"{"type":"Point","coordinates":[7,8]}"#,
        r#"{"type":"Polygon","coordinates":[[[0,0],[4,0],[4,3],[0,0]],[[-9,-9],[9,9],[9,-9],[-9,-9]]]}"#,
        r#"{"type":"GeometryCollection","geometries":[{"type":"Point","coordinates":[-0.0,0.0]},{"type":"Point","coordinates":[0.0,-0.0]}]}"#,
        r#"{"type":"MultiPoint","coordinates":[[-0.0,2],[0.0,-1.5]]}"#,
    ];
    for text in inputs.iter() {
        let first = bounding_box(&parse_geometry(text)).unwrap();
        let ring = first.to_polygon();
        let direct = bounding_box(&Ok(Shape::Polygon(vec![ring.clone()]))).unwrap();
        assert_eq!(direct, first, "{}", text);
        let written = box_text(&ring);
        let again = bounding_box(&parse_geometry(&written)).unwrap();
        assert_eq!(again, first, "{}", text);
        assert_eq!(box_text(&again.to_polygon()), written, "{}", text);
    }
}
