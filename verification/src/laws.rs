//! Properties that hold across the operations of the library.
use vstd::prelude::*;

use crate::bbox::{
    bbox_coords, box_ring, first_x, first_y, lemma_first_x_unique, lemma_first_y_unique, lemma_reports_x_unique,
    lemma_reports_y_unique, reports, spans, value_le, Rect,
};
use crate::ieee::scaled_value;
use crate::document::{
    geometry_parts, geometry_result, lemma_read_coords_unique, lemma_read_is_readable, reads_as, document_result,
    Document, MAX_COLLECTION_DEPTH,
};
use crate::error::GeoError;
use crate::ieee::{is_below_zero, is_finite, magnitude_exceeds, point_status};
use crate::nodes::{
    contains_status, hull_status, kind_status, pair_status, parsed_is, simplify_status, destination_status,
    MAX_SIMPLIFY_COORDS,
};
use crate::shape::{coord_count, Shape, coords_pass, coords_status, outcome, shape_coords, Coord, CoordTest, MAX_COORDS};
use crate::text::is_blank;

verus! {

/// Every geometry operation reports a failed parse with the parse's own error,
/// provided its other arguments are valid.
pub proof fn law_parse_errors_pass_through(e: GeoError, lon: u64, lat: u64, epsilon: u64, fits: bool)
    requires
        point_status(lon, lat) is Ok,
        is_finite(epsilon) && !is_below_zero(epsilon),
    ensures
        kind_status(Err(e), fits) == Err::<(), GeoError>(e),
        contains_status(lon, lat, Err(e)) == Err::<(), GeoError>(e),
        simplify_status(epsilon, Err(e)) == Err::<(), GeoError>(e),
        hull_status(Err(e)) == Err::<(), GeoError>(e),
{
}

/// A failed producer emits empty GeoJSON; every consumer then reports
/// `EMPTY_INPUT` (empty text is blank, and `parse_geometry` reports blank text
/// as empty input), not the producer's own cause.
pub proof fn law_empty_output_reads_as_empty_input(lon: u64, lat: u64, epsilon: u64, fits: bool)
    requires
        point_status(lon, lat) is Ok,
        is_finite(epsilon) && !is_below_zero(epsilon),
    ensures
        is_blank(Seq::<char>::empty()),
        kind_status(Err(GeoError::EmptyInput), fits) == Err::<(), GeoError>(GeoError::EmptyInput),
        contains_status(lon, lat, Err(GeoError::EmptyInput)) == Err::<(), GeoError>(GeoError::EmptyInput),
        simplify_status(epsilon, Err(GeoError::EmptyInput)) == Err::<(), GeoError>(GeoError::EmptyInput),
        hull_status(Err(GeoError::EmptyInput)) == Err::<(), GeoError>(GeoError::EmptyInput),
{
    assert(Seq::<char>::empty().skip(0) =~= Seq::<char>::empty());
    assert(Seq::<char>::empty().take(0) =~= Seq::<char>::empty());
}

/// A point is accepted exactly when it is a finite WGS-84 position; a
/// non-finite part is reported before a range violation, whichever part it is.
pub proof fn law_point_validation(lon: u64, lat: u64)
    ensures
        point_status(lon, lat) is Ok <==> is_finite(lon) && is_finite(lat) && !magnitude_exceeds(lat, 90)
            && !magnitude_exceeds(lon, 180),
        (!is_finite(lon) || !is_finite(lat)) ==> point_status(lon, lat) == Err::<(), GeoError>(GeoError::NonFiniteCoord),
{
}

/// Two points are checked origin first: an invalid origin is reported whatever
/// the target is, and a valid origin leaves the verdict to the target.
pub proof fn law_pair_checks_origin_first(from_lon: u64, from_lat: u64, to_lon: u64, to_lat: u64)
    ensures
        point_status(from_lon, from_lat) is Err ==> pair_status(from_lon, from_lat, to_lon, to_lat)
            == point_status(from_lon, from_lat),
        point_status(from_lon, from_lat) is Ok ==> pair_status(from_lon, from_lat, to_lon, to_lat)
            == point_status(to_lon, to_lat),
{
}

/// A destination request with a valid origin and finite arguments is refused
/// only for a distance below zero.
pub proof fn law_destination_refuses_only_negative_distance(lon: u64, lat: u64, bearing: u64, distance: u64)
    requires
        point_status(lon, lat) is Ok,
        is_finite(bearing),
        is_finite(distance),
    ensures
        destination_status(lon, lat, bearing, distance) is Err <==> is_below_zero(distance),
{
}

/// A spanning rectangle is ordered: its minimum is not above its maximum on
/// either axis.
pub proof fn law_rect_is_ordered(r: Rect, cs: Seq<Coord>)
    requires
        cs.len() > 0,
        spans(r, cs),
    ensures
        value_le(r.min.x, r.max.x),
        value_le(r.min.y, r.max.y),
{
    assert(value_le(r.min.x, cs[0].x) && value_le(cs[0].x, r.max.x));
    assert(value_le(r.min.y, cs[0].y) && value_le(cs[0].y, r.max.y));
}

/// The bounding rectangle of a single coordinate is that coordinate: zero
/// width and zero height.
pub proof fn law_single_coordinate_rect(r: Rect, c: Coord)
    requires
        spans(r, seq![c]),
    ensures
        r.min == c,
        r.max == c,
{
    let cs = seq![c];
    let i = choose|i: int| 0 <= i < cs.len() && #[trigger] cs[i].x == r.min.x;
    let j = choose|i: int| 0 <= i < cs.len() && #[trigger] cs[i].x == r.max.x;
    let k = choose|i: int| 0 <= i < cs.len() && #[trigger] cs[i].y == r.min.y;
    let l = choose|i: int| 0 <= i < cs.len() && #[trigger] cs[i].y == r.max.y;
    assert(i == 0 && j == 0 && k == 0 && l == 0);
}

/// A single feature is answered as the geometry it wraps: the same outcome,
/// and on success the same coordinates in the same order.
pub proof fn law_feature_answers_as_its_geometry(
    g: geojson::Geometry,
    bare: Result<Shape, GeoError>,
    wrapped: Result<Shape, GeoError>,
)
    requires
        document_result(Document::Geometry(g), bare),
        document_result(Document::Feature(Some(g)), wrapped),
    ensures
        outcome(bare) == outcome(wrapped),
        bare matches Ok(s1) ==> (wrapped matches Ok(s2) ==> shape_coords(s1) == shape_coords(s2)),
{
    let d = MAX_COLLECTION_DEPTH as nat;
    if crate::document::readable(g, d) {
        let s = choose|s: Shape| #[trigger] reads_as(g, d, s);
        assert(outcome(bare) == coords_status(s));
        assert(outcome(wrapped) == coords_status(s));
        if bare is Ok && wrapped is Ok {
            lemma_read_coords_unique(geometry_parts(g), d, bare->Ok_0, wrapped->Ok_0);
        }
    }
}

/// The coordinate cap: a geometry whose coordinates are all valid WGS-84
/// positions is refused as too many exactly when it holds more than
/// `MAX_COORDS` of them, and is otherwise returned with all of them.
pub proof fn law_coordinate_cap(g: geojson::Geometry, r: Result<Shape, GeoError>, s: Shape)
    requires
        geometry_result(g, r),
        reads_as(g, MAX_COLLECTION_DEPTH as nat, s),
        coords_pass(shape_coords(s), CoordTest::InRange),
    ensures
        r == Err::<Shape, GeoError>(GeoError::TooManyCoords) <==> coord_count(s) > MAX_COORDS,
        coord_count(s) <= MAX_COORDS ==> (r matches Ok(t) && shape_coords(t) == shape_coords(s)),
{
    let d = MAX_COLLECTION_DEPTH as nat;
    lemma_read_is_readable(geometry_parts(g), d, s);
    assert(coords_pass(shape_coords(s), CoordTest::Finite)) by {
        assert forall|i: int| 0 <= i < shape_coords(s).len() implies crate::shape::coord_passes(
            #[trigger] shape_coords(s)[i],
            CoordTest::Finite,
        ) by {
            assert(crate::shape::coord_passes(shape_coords(s)[i], CoordTest::InRange));
        }
    }
    assert(outcome(r) == coords_status(s));
    if r is Ok {
        lemma_read_coords_unique(geometry_parts(g), d, r->Ok_0, s);
    }
}

/// The box polygon bounds to its own box: for a rectangle that bounds some
/// geometry as `bounding_rect` reports it, the polygon whose one ring is the
/// rectangle's closed ring (`to_polygon`) has that same rectangle as its
/// bounding rectangle, bit for bit.
pub proof fn law_box_polygon_bounds_to_itself(s: Shape, r: Rect, rings: Vec<Vec<Coord>>, r2: Rect)
    requires
        spans(r, bbox_coords(s)),
        reports(r, s),
        rings@.len() == 1,
        rings@[0]@ == box_ring(r),
        spans(r2, bbox_coords(Shape::Polygon(rings))),
        reports(r2, Shape::Polygon(rings)),
    ensures
        r2 == r,
{
    let cs = box_ring(r);
    let p = Shape::Polygon(rings);
    assert(bbox_coords(p) == cs);
    let i = choose|i: int| 0 <= i < bbox_coords(s).len() && #[trigger] bbox_coords(s)[i].x == r.min.x;
    law_rect_is_ordered(r, bbox_coords(s));
    if scaled_value(r.min.x) == scaled_value(r.max.x) {
        lemma_reports_x_unique(s, r.min.x, r.max.x);
    }
    if scaled_value(r.min.y) == scaled_value(r.max.y) {
        lemma_reports_y_unique(s, r.min.y, r.max.y);
    }
    assert(cs[0].x == r.max.x && cs[1].x == r.max.x && cs[2].x == r.min.x);
    assert(cs[0].y == r.min.y && cs[1].y == r.max.y);
    assert(first_x(cs, r.max.x));
    assert(first_y(cs, r.min.y));
    assert(first_y(cs, r.max.y));
    if scaled_value(r.min.x) == scaled_value(r.max.x) {
        assert(first_x(cs, r.min.x));
    } else {
        assert(forall|j: int| 0 <= j < 2 ==> scaled_value(#[trigger] cs[j].x) != scaled_value(r.min.x));
        assert(first_x(cs, r.min.x));
    }
    // Each bound of r2 has the value of the same bound of r.
    let a = choose|k: int| 0 <= k < cs.len() && #[trigger] cs[k].x == r2.min.x;
    let b = choose|k: int| 0 <= k < cs.len() && #[trigger] cs[k].x == r2.max.x;
    let c = choose|k: int| 0 <= k < cs.len() && #[trigger] cs[k].y == r2.min.y;
    let d = choose|k: int| 0 <= k < cs.len() && #[trigger] cs[k].y == r2.max.y;
    assert(value_le(r2.min.x, cs[2].x) && value_le(cs[0].x, r2.max.x));
    assert(value_le(r2.min.y, cs[0].y) && value_le(cs[1].y, r2.max.y));
    assert(value_le(r2.min.x, cs[a].x) && value_le(cs[a].x, r2.max.x));
    lemma_first_x_unique(cs, r2.min.x, r.min.x);
    lemma_first_x_unique(cs, r2.max.x, r.max.x);
    lemma_first_y_unique(cs, r2.min.y, r.min.y);
    lemma_first_y_unique(cs, r2.max.y, r.max.y);
}

/// `simplify` takes every kind of geometry: with a finite epsilon not below
/// zero, a parsed geometry of at most `MAX_SIMPLIFY_COORDS` coordinates is
/// handed on unchanged, whatever its kind; it is refused only for a bad
/// epsilon, a failed parse, or too many coordinates.
pub proof fn law_simplify_refuses_only_bad_input(epsilon: u64, parsed: Result<Shape, GeoError>, r: Result<Shape, GeoError>)
    requires
        outcome(r) == simplify_status(epsilon, parsed),
        r matches Ok(s) ==> parsed == Ok::<Shape, GeoError>(s),
    ensures
        is_finite(epsilon) && !is_below_zero(epsilon) ==> (parsed matches Ok(s) ==> (coord_count(s)
            <= MAX_SIMPLIFY_COORDS ==> r == parsed)),
        r is Err ==> !is_finite(epsilon) || is_below_zero(epsilon) || parsed is Err || coord_count(parsed->Ok_0)
            > MAX_SIMPLIFY_COORDS,
        r matches Ok(s) ==> coord_count(s) <= MAX_SIMPLIFY_COORDS,
{
}

/// Two geometries with as many coordinates are answered alike by `simplify`,
/// whatever their kinds.
pub proof fn law_simplify_ignores_kind(
    epsilon: u64,
    s1: Shape,
    s2: Shape,
    r1: Result<Shape, GeoError>,
    r2: Result<Shape, GeoError>,
)
    requires
        outcome(r1) == simplify_status(epsilon, Ok(s1)),
        outcome(r2) == simplify_status(epsilon, Ok(s2)),
        coord_count(s1) == coord_count(s2),
    ensures
        outcome(r1) == outcome(r2),
{
}

/// `convex_hull` refuses a parsed geometry only when it holds no coordinate;
/// any other geometry, of any kind, is handed on unchanged.
pub proof fn law_hull_refuses_only_empty(parsed: Result<Shape, GeoError>, r: Result<Shape, GeoError>)
    requires
        outcome(r) == hull_status(parsed),
        r matches Ok(s) ==> parsed == Ok::<Shape, GeoError>(s),
    ensures
        parsed matches Ok(s) ==> (r == parsed <==> coord_count(s) > 0),
        parsed matches Ok(s) ==> (coord_count(s) == 0 ==> r == Err::<Shape, GeoError>(GeoError::EmptyGeometry)),
        parsed matches Err(e) ==> r == Err::<Shape, GeoError>(e),
{
}

/// `area` measures every Polygon and every MultiPolygon, and refuses exactly
/// the other kinds as the wrong geometry type.
pub proof fn law_area_takes_polygons(parsed: Result<Shape, GeoError>, r: Result<Shape, GeoError>)
    requires
        outcome(r) == kind_status(parsed, parsed_is(parsed, true)),
        r matches Ok(s) ==> parsed == Ok::<Shape, GeoError>(s),
    ensures
        parsed matches Ok(s) ==> (r == parsed <==> (s is Polygon || s is MultiPolygon)),
        parsed matches Ok(s) ==> (!(s is Polygon || s is MultiPolygon) ==> r == Err::<Shape, GeoError>(
            GeoError::WrongGeometryType,
        )),
        parsed matches Err(e) ==> r == Err::<Shape, GeoError>(e),
{
}

/// `length` measures every LineString and every MultiLineString, and refuses
/// exactly the other kinds as the wrong geometry type.
pub proof fn law_length_takes_lines(parsed: Result<Shape, GeoError>, r: Result<Shape, GeoError>)
    requires
        outcome(r) == kind_status(parsed, parsed_is(parsed, false)),
        r matches Ok(s) ==> parsed == Ok::<Shape, GeoError>(s),
    ensures
        parsed matches Ok(s) ==> (r == parsed <==> (s is LineString || s is MultiLineString)),
        parsed matches Ok(s) ==> (!(s is LineString || s is MultiLineString) ==> r == Err::<Shape, GeoError>(
            GeoError::WrongGeometryType,
        )),
        parsed matches Err(e) ==> r == Err::<Shape, GeoError>(e),
{
}

/// `contains` tests a valid WGS-84 point against every Polygon and every
/// MultiPolygon, whatever its number of rings; an invalid point is refused
/// whatever the geometry.
pub proof fn law_contains_takes_any_polygon(
    lon: u64,
    lat: u64,
    parsed: Result<Shape, GeoError>,
    r: Result<Shape, GeoError>,
)
    requires
        outcome(r) == contains_status(lon, lat, parsed),
        r matches Ok(s) ==> parsed == Ok::<Shape, GeoError>(s),
    ensures
        is_finite(lon) && is_finite(lat) && !magnitude_exceeds(lat, 90) && !magnitude_exceeds(lon, 180)
            ==> (parsed matches Ok(s) ==> (r == parsed <==> (s is Polygon || s is MultiPolygon))),
        !(is_finite(lon) && is_finite(lat) && !magnitude_exceeds(lat, 90) && !magnitude_exceeds(lon, 180))
            ==> r is Err,
{
}

/// The box ring is the rectangle: a closed ring of five positions, starting
/// at the lower-right corner and turning counter-clockwise (up to the
/// upper-right corner first), that passes through each of the four corners,
/// holds nothing but corners, and runs along the rectangle's sides.
pub proof fn law_box_ring_is_the_rectangle(rect: Rect, ring: Seq<Coord>)
    requires
        ring == box_ring(rect),
    ensures
        ring.len() == 5,
        ring[0] == ring[4],
        ring[0] == (Coord { x: rect.max.x, y: rect.min.y }),
        ring[1] == (Coord { x: rect.max.x, y: rect.max.y }),
        exists|i: int| 0 <= i < 4 && ring[i] == (Coord { x: rect.min.x, y: rect.min.y }),
        exists|i: int| 0 <= i < 4 && ring[i] == (Coord { x: rect.min.x, y: rect.max.y }),
        exists|i: int| 0 <= i < 4 && ring[i] == (Coord { x: rect.max.x, y: rect.min.y }),
        exists|i: int| 0 <= i < 4 && ring[i] == (Coord { x: rect.max.x, y: rect.max.y }),
        forall|i: int|
            0 <= i < 5 ==> ((#[trigger] ring[i]).x == rect.min.x || ring[i].x == rect.max.x) && (ring[i].y == rect.min.y
                || ring[i].y == rect.max.y),
        forall|i: int| 0 <= i < 4 ==> (#[trigger] ring[i]).x == ring[i + 1].x || ring[i].y == ring[i + 1].y,
{
    assert(ring[0] == (Coord { x: rect.max.x, y: rect.min.y }));
    assert(ring[1] == (Coord { x: rect.max.x, y: rect.max.y }));
    assert(ring[2] == (Coord { x: rect.min.x, y: rect.max.y }));
    assert(ring[3] == (Coord { x: rect.min.x, y: rect.min.y }));
}

} // verus!
