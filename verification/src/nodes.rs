//! The decisions each geometry operation takes around its numeric work: which
//! inputs it refuses, with which error, and which geometry it goes on with.
use vstd::prelude::*;

use crate::bbox::{bbox_coords, bounding_rect, box_ring, reports, spans_opt, Rect};
use crate::error::GeoError;
use crate::ieee::{below_zero, finite, is_below_zero, is_finite, magnitude_exceeds, point_in_range, point_status};
use crate::shape::{coord_count, coords_finite, count_coords, outcome, shape_coords, Coord, Shape};

verus! {

/// Most vertices `simplify` accepts.
pub const MAX_SIMPLIFY_COORDS: usize = 10_000;

/// A parsed geometry as every geometry operation receives it.
pub open spec fn well_parsed(parsed: Result<Shape, GeoError>) -> bool {
    parsed matches Ok(s) ==> coords_finite(shape_coords(s))
}

/// Two points are checked in order; the first failure is reported.
pub open spec fn pair_status(from_lon: u64, from_lat: u64, to_lon: u64, to_lat: u64) -> Result<(), GeoError> {
    match point_status(from_lon, from_lat) {
        Err(e) => Err(e),
        Ok(()) => point_status(to_lon, to_lat),
    }
}

/// The input check of `distance` and `bearing`: the origin, then the target.
pub fn check_point_pair(from_lon: u64, from_lat: u64, to_lon: u64, to_lat: u64) -> (r: Result<(), GeoError>)
    ensures
        r == pair_status(from_lon, from_lat, to_lon, to_lat),
{
    match point_in_range(from_lon, from_lat) {
        Err(e) => Err(e),
        Ok(()) => point_in_range(to_lon, to_lat),
    }
}

/// The outcome of checking a `destination` request.
pub open spec fn destination_status(lon: u64, lat: u64, bearing_deg: u64, distance_m: u64) -> Result<(), GeoError> {
    if point_status(lon, lat) is Err {
        point_status(lon, lat)
    } else if !is_finite(bearing_deg) || !is_finite(distance_m) {
        Err(GeoError::NonFiniteCoord)
    } else if is_below_zero(distance_m) {
        Err(GeoError::OutOfRange)
    } else {
        Ok(())
    }
}

/// The input check of `destination`: the origin, then a finite bearing and
/// distance, then a distance that is not below zero.
pub fn check_destination(lon: u64, lat: u64, bearing_deg: u64, distance_m: u64) -> (r: Result<(), GeoError>)
    ensures
        r == destination_status(lon, lat, bearing_deg, distance_m),
{
    if let Err(e) = point_in_range(lon, lat) {
        return Err(e);
    }
    if !finite(bearing_deg) || !finite(distance_m) {
        return Err(GeoError::NonFiniteCoord);
    }
    if below_zero(distance_m) {
        return Err(GeoError::OutOfRange);
    }
    Ok(())
}

/// A Polygon or MultiPolygon.
pub open spec fn is_polygonal(s: Shape) -> bool {
    s is Polygon || s is MultiPolygon
}

/// A LineString or MultiLineString.
pub open spec fn is_lineal(s: Shape) -> bool {
    s is LineString || s is MultiLineString
}

/// The parse succeeded with a polygonal geometry (`polygons`), or with a
/// lineal one (otherwise).
pub open spec fn parsed_is(parsed: Result<Shape, GeoError>, polygons: bool) -> bool {
    match parsed {
        Ok(s) => if polygons {
            is_polygonal(s)
        } else {
            is_lineal(s)
        },
        Err(_) => false,
    }
}

/// Keeps a parsed geometry of the kind an operation works on; a parse failure
/// passes through unchanged.
pub open spec fn kind_status(parsed: Result<Shape, GeoError>, fits: bool) -> Result<(), GeoError> {
    match parsed {
        Err(e) => Err(e),
        Ok(_) => if fits {
            Ok(())
        } else {
            Err(GeoError::WrongGeometryType)
        },
    }
}

/// The geometry `area` measures: a Polygon or MultiPolygon.
pub fn polygonal(parsed: Result<Shape, GeoError>) -> (r: Result<Shape, GeoError>)
    ensures
        outcome(r) == kind_status(parsed, parsed_is(parsed, true)),
        r matches Ok(s) ==> parsed == Ok::<Shape, GeoError>(s),
        parsed matches Ok(s) ==> ((s is Polygon || s is MultiPolygon) ==> r == parsed),
        parsed matches Ok(s) ==> (!(s is Polygon || s is MultiPolygon) ==> r == Err::<Shape, GeoError>(
            GeoError::WrongGeometryType,
        )),
{
    match parsed {
        Err(e) => Err(e),
        Ok(s) => match s {
            Shape::Polygon(_) | Shape::MultiPolygon(_) => Ok(s),
            _ => Err(GeoError::WrongGeometryType),
        },
    }
}

/// The geometry `length` measures: a LineString or MultiLineString.
pub fn lineal(parsed: Result<Shape, GeoError>) -> (r: Result<Shape, GeoError>)
    ensures
        outcome(r) == kind_status(parsed, parsed_is(parsed, false)),
        r matches Ok(s) ==> parsed == Ok::<Shape, GeoError>(s),
        parsed matches Ok(s) ==> ((s is LineString || s is MultiLineString) ==> r == parsed),
        parsed matches Ok(s) ==> (!(s is LineString || s is MultiLineString) ==> r == Err::<Shape, GeoError>(
            GeoError::WrongGeometryType,
        )),
{
    match parsed {
        Err(e) => Err(e),
        Ok(s) => match s {
            Shape::LineString(_) | Shape::MultiLineString(_) => Ok(s),
            _ => Err(GeoError::WrongGeometryType),
        },
    }
}

/// The outcome of checking a `contains` request: the test point first, then
/// the geometry, which must be a Polygon or MultiPolygon.
pub open spec fn contains_status(lon: u64, lat: u64, parsed: Result<Shape, GeoError>) -> Result<(), GeoError> {
    match point_status(lon, lat) {
        Err(e) => Err(e),
        Ok(()) => kind_status(parsed, parsed_is(parsed, true)),
    }
}

/// The input check of `contains`; yields the polygon to test against.
pub fn contains_target(lon: u64, lat: u64, parsed: Result<Shape, GeoError>) -> (r: Result<Shape, GeoError>)
    ensures
        outcome(r) == contains_status(lon, lat, parsed),
        r matches Ok(s) ==> parsed == Ok::<Shape, GeoError>(s),
        is_finite(lon) && is_finite(lat) && !magnitude_exceeds(lat, 90) && !magnitude_exceeds(lon, 180)
            ==> (parsed matches Ok(s) ==> ((s is Polygon || s is MultiPolygon) ==> r == parsed)),
{
    if let Err(e) = point_in_range(lon, lat) {
        return Err(e);
    }
    polygonal(parsed)
}

/// The outcome of checking a `simplify` request: a finite epsilon not below
/// zero, a parsed geometry, and at most `MAX_SIMPLIFY_COORDS` vertices.
pub open spec fn simplify_status(epsilon: u64, parsed: Result<Shape, GeoError>) -> Result<(), GeoError> {
    if !is_finite(epsilon) || is_below_zero(epsilon) {
        Err(GeoError::OutOfRange)
    } else {
        match parsed {
            Err(e) => Err(e),
            Ok(s) => if coord_count(s) > MAX_SIMPLIFY_COORDS {
                Err(GeoError::TooManyCoords)
            } else {
                Ok(())
            },
        }
    }
}

/// Whether `simplify` simplifies a geometry of this kind: line strings and
/// polygons, single or multiple; every other kind is returned unchanged.
pub fn simplifies(s: &Shape) -> (r: bool)
    ensures
        r == (is_lineal(*s) || is_polygonal(*s)),
{
    match s {
        Shape::LineString(_) | Shape::MultiLineString(_) | Shape::Polygon(_) | Shape::MultiPolygon(_) => true,
        _ => false,
    }
}

/// The input check of `simplify`; yields the geometry to simplify.
pub fn simplify_target(epsilon: u64, parsed: Result<Shape, GeoError>) -> (r: Result<Shape, GeoError>)
    ensures
        outcome(r) == simplify_status(epsilon, parsed),
        r matches Ok(s) ==> parsed == Ok::<Shape, GeoError>(s),
        is_finite(epsilon) && !is_below_zero(epsilon) ==> (parsed matches Ok(s) ==> (coord_count(s)
            <= MAX_SIMPLIFY_COORDS ==> r == parsed)),
{
    if !finite(epsilon) || below_zero(epsilon) {
        return Err(GeoError::OutOfRange);
    }
    match parsed {
        Err(e) => Err(e),
        Ok(s) => {
            if count_coords(&s, MAX_SIMPLIFY_COORDS + 1) > MAX_SIMPLIFY_COORDS {
                Err(GeoError::TooManyCoords)
            } else {
                Ok(s)
            }
        },
    }
}

/// The outcome of checking a `convex_hull` request: a parsed geometry with at
/// least one vertex.
pub open spec fn hull_status(parsed: Result<Shape, GeoError>) -> Result<(), GeoError> {
    match parsed {
        Err(e) => Err(e),
        Ok(s) => if coord_count(s) == 0 {
            Err(GeoError::EmptyGeometry)
        } else {
            Ok(())
        },
    }
}

/// The input check of `convex_hull`; yields the geometry whose vertices are hulled.
pub fn hull_target(parsed: Result<Shape, GeoError>) -> (r: Result<Shape, GeoError>)
    ensures
        outcome(r) == hull_status(parsed),
        r matches Ok(s) ==> parsed == Ok::<Shape, GeoError>(s),
        parsed matches Ok(s) ==> (coord_count(s) > 0 ==> r == parsed),
{
    match parsed {
        Err(e) => Err(e),
        Ok(s) => {
            if count_coords(&s, 1) == 0 {
                Err(GeoError::EmptyGeometry)
            } else {
                Ok(s)
            }
        },
    }
}

/// The check on a computed hull's closed ring: fewer than four positions (a
/// single point or collinear points) cannot bound a polygon.
pub fn check_hull_ring(ring_len: usize) -> (r: Result<(), GeoError>)
    ensures
        r is Err <==> ring_len < 4,
        r is Err ==> r == Err::<(), GeoError>(GeoError::Degenerate),
{
    if ring_len < 4 {
        Err(GeoError::Degenerate)
    } else {
        Ok(())
    }
}

/// The bounding rectangle `bounding_box` reports: a parse failure passes
/// through; a geometry with nothing to span has no box.
pub fn bounding_box(parsed: &Result<Shape, GeoError>) -> (r: Result<Rect, GeoError>)
    requires
        well_parsed(*parsed),
    ensures
        *parsed matches Err(e) ==> r == Err::<Rect, GeoError>(e),
        *parsed matches Ok(s) ==> (r == Err::<Rect, GeoError>(GeoError::EmptyGeometry) <==> bbox_coords(s).len() == 0),
        *parsed matches Ok(s) ==> (r matches Ok(rect) ==> spans_opt(Some(rect), bbox_coords(s))),
        *parsed matches Ok(s) ==> (r matches Ok(rect) ==> reports(rect, s)),
        parsed is Ok ==> (r is Ok || r == Err::<Rect, GeoError>(GeoError::EmptyGeometry)),
{
    match parsed {
        Err(e) => Err(*e),
        Ok(s) => match bounding_rect(s) {
            Some(rect) => Ok(rect),
            None => Err(GeoError::EmptyGeometry),
        },
    }
}

impl Rect {
    /// The closed ring of the rectangle, as `geo`'s `Rect::to_polygon` builds
    /// it: from the lower-right corner counter-clockwise, back to the start.
    pub fn to_polygon(&self) -> (ring: Vec<Coord>)
        ensures
            ring@ == box_ring(*self),
            ring@.len() == 5,
            ring@[0] == ring@[4],
            ring@[0] == (Coord { x: self.max.x, y: self.min.y }),
            ring@[1] == (Coord { x: self.max.x, y: self.max.y }),
            ring@[2] == (Coord { x: self.min.x, y: self.max.y }),
            ring@[3] == (Coord { x: self.min.x, y: self.min.y }),
    {
        let mut ring: Vec<Coord> = Vec::new();
        ring.push(Coord { x: self.max.x, y: self.min.y });
        ring.push(Coord { x: self.max.x, y: self.max.y });
        ring.push(Coord { x: self.min.x, y: self.max.y });
        ring.push(Coord { x: self.min.x, y: self.min.y });
        ring.push(Coord { x: self.max.x, y: self.min.y });
        assert(ring@ =~= seq![
            Coord { x: self.max.x, y: self.min.y },
            Coord { x: self.max.x, y: self.max.y },
            Coord { x: self.min.x, y: self.max.y },
            Coord { x: self.min.x, y: self.min.y },
            Coord { x: self.max.x, y: self.min.y },
        ]);
        ring
    }
}

} // verus!
