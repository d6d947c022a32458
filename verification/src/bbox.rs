//! Axis-aligned bounding rectangles of geometries.
//!
//! The rectangle spans the coordinates that `geo`'s `BoundingRect` spans: every
//! coordinate of points and lines, the exterior ring of each polygon, and the
//! members of a collection. Bounds are compared by exact real value; where
//! coordinates tie in value (the two zeros), the rectangle takes the bits
//! `geo`'s scan keeps: the first coordinate's within a geometry, the last
//! member's within a collection.
use vstd::prelude::*;

use crate::ieee::{is_finite, less_than, scaled_value};
use crate::shape::{
    collection_coords, coords_finite, lemma_finite_concat, polygons_coords, runs_coords, shape_coords, Coord, Shape,
};

verus! {

/// A rectangle given by its lower-left and upper-right corners.
#[derive(Debug, Clone, Copy, PartialEq, Eq, Structural)]
pub struct Rect {
    pub min: Coord,
    pub max: Coord,
}

/// Numeric bounds in degrees (as binary64 bit patterns), the same box as a
/// GeoJSON Polygon, and the error token when there is no box.
pub struct BoundingBox {
    pub min_lon: u64,
    pub min_lat: u64,
    pub max_lon: u64,
    pub max_lat: u64,
    pub geojson: String,
    pub error: String,
}

/// The result for a geometry that has no bounding box: zero bounds, no
/// polygon, and the error token.
pub fn empty_bbox(err: &str) -> (r: BoundingBox)
    ensures
        r.min_lon == 0 && r.min_lat == 0 && r.max_lon == 0 && r.max_lat == 0,
        r.geojson@ == Seq::<char>::empty(),
        r.error@ == err@,
{
    BoundingBox {
        min_lon: 0,
        min_lat: 0,
        max_lon: 0,
        max_lat: 0,
        geojson: String::new(),
        error: err.to_owned(),
    }
}

/// a <= b by real value.
pub open spec fn value_le(a: u64, b: u64) -> bool {
    scaled_value(a) <= scaled_value(b)
}

/// The exterior ring of a polygon given as its rings.
pub open spec fn exterior(rings: Seq<Vec<Coord>>) -> Seq<Coord> {
    if rings.len() == 0 {
        Seq::empty()
    } else {
        rings[0]@
    }
}

/// The exterior rings of a sequence of polygons, one after another.
pub open spec fn exteriors(ps: Seq<Vec<Vec<Coord>>>) -> Seq<Coord>
    decreases ps.len(),
{
    if ps.len() == 0 {
        Seq::empty()
    } else {
        exteriors(ps.drop_last()) + exterior(ps.last()@)
    }
}

/// The coordinates that a geometry's bounding rectangle spans.
pub open spec fn bbox_coords(s: Shape) -> Seq<Coord>
    decreases s,
{
    match s {
        Shape::Point(c) => seq![c],
        Shape::MultiPoint(v) => v@,
        Shape::LineString(v) => v@,
        Shape::MultiLineString(v) => runs_coords(v@),
        Shape::Polygon(v) => exterior(v@),
        Shape::MultiPolygon(v) => exteriors(v@),
        Shape::GeometryCollection(v) => collection_bbox_coords(v@),
    }
}

/// The spanned coordinates of a sequence of geometries, in order.
pub open spec fn collection_bbox_coords(ss: Seq<Shape>) -> Seq<Coord>
    decreases ss,
{
    if ss.len() == 0 {
        Seq::empty()
    } else {
        collection_bbox_coords(ss.drop_last()) + bbox_coords(ss.last())
    }
}

/// The rectangle is the least one holding every coordinate of `cs`: each
/// coordinate lies within it, and each of its four bounds is a coordinate's.
pub open spec fn spans(r: Rect, cs: Seq<Coord>) -> bool {
    &&& forall|i: int|
        0 <= i < cs.len() ==> value_le(r.min.x, #[trigger] cs[i].x) && value_le(cs[i].x, r.max.x)
            && value_le(r.min.y, cs[i].y) && value_le(cs[i].y, r.max.y)
    &&& exists|i: int| 0 <= i < cs.len() && #[trigger] cs[i].x == r.min.x
    &&& exists|i: int| 0 <= i < cs.len() && #[trigger] cs[i].x == r.max.x
    &&& exists|i: int| 0 <= i < cs.len() && #[trigger] cs[i].y == r.min.y
    &&& exists|i: int| 0 <= i < cs.len() && #[trigger] cs[i].y == r.max.y
}

/// `b` is the x part of the first coordinate whose x has `b`'s value.
pub open spec fn first_x(cs: Seq<Coord>, b: u64) -> bool {
    exists|i: int|
        0 <= i < cs.len() && #[trigger] cs[i].x == b && forall|j: int|
            0 <= j < i ==> scaled_value(#[trigger] cs[j].x) != scaled_value(b)
}

/// `b` is the y part of the first coordinate whose y has `b`'s value.
pub open spec fn first_y(cs: Seq<Coord>, b: u64) -> bool {
    exists|i: int|
        0 <= i < cs.len() && #[trigger] cs[i].y == b && forall|j: int|
            0 <= j < i ==> scaled_value(#[trigger] cs[j].y) != scaled_value(b)
}

/// Each bound of the rectangle is taken from the first coordinate that holds
/// its value; this decides between the two zeros.
pub open spec fn bounds_first(r: Option<Rect>, cs: Seq<Coord>) -> bool {
    r matches Some(rect) ==> first_x(cs, rect.min.x) && first_x(cs, rect.max.x) && first_y(cs, rect.min.y)
        && first_y(cs, rect.max.y)
}

proof fn lemma_first_push(cs: Seq<Coord>, c: Coord, vx: u64, vy: u64)
    ensures
        first_x(cs, vx) ==> first_x(cs.push(c), vx),
        first_y(cs, vy) ==> first_y(cs.push(c), vy),
        (forall|j: int| 0 <= j < cs.len() ==> scaled_value(#[trigger] cs[j].x) != scaled_value(c.x))
            ==> first_x(cs.push(c), c.x),
        (forall|j: int| 0 <= j < cs.len() ==> scaled_value(#[trigger] cs[j].y) != scaled_value(c.y))
            ==> first_y(cs.push(c), c.y),
{
    let ds = cs.push(c);
    assert forall|j: int| 0 <= j < cs.len() implies #[trigger] ds[j] == cs[j] by {}
    assert(ds[cs.len() as int] == c);
    if first_x(cs, vx) {
        let i = choose|i: int|
            0 <= i < cs.len() && #[trigger] cs[i].x == vx && forall|j: int|
                0 <= j < i ==> scaled_value(#[trigger] cs[j].x) != scaled_value(vx);
        assert(ds[i].x == vx);
        assert forall|j: int| 0 <= j < i implies scaled_value(#[trigger] ds[j].x) != scaled_value(vx) by {
            assert(ds[j] == cs[j]);
        }
    }
    if first_y(cs, vy) {
        let i = choose|i: int|
            0 <= i < cs.len() && #[trigger] cs[i].y == vy && forall|j: int|
                0 <= j < i ==> scaled_value(#[trigger] cs[j].y) != scaled_value(vy);
        assert(ds[i].y == vy);
        assert forall|j: int| 0 <= j < i implies scaled_value(#[trigger] ds[j].y) != scaled_value(vy) by {
            assert(ds[j] == cs[j]);
        }
    }
    if forall|j: int| 0 <= j < cs.len() ==> scaled_value(#[trigger] cs[j].x) != scaled_value(c.x) {
        assert forall|j: int| 0 <= j < cs.len() implies scaled_value(#[trigger] ds[j].x) != scaled_value(c.x) by {
            assert(ds[j] == cs[j]);
        }
        assert(ds[cs.len() as int].x == c.x);
    }
    if forall|j: int| 0 <= j < cs.len() ==> scaled_value(#[trigger] cs[j].y) != scaled_value(c.y) {
        assert forall|j: int| 0 <= j < cs.len() implies scaled_value(#[trigger] ds[j].y) != scaled_value(c.y) by {
            assert(ds[j] == cs[j]);
        }
        assert(ds[cs.len() as int].y == c.y);
    }
}

/// Some coordinate of the geometry's box has an x of value `v`.
pub open spec fn holds_x(s: Shape, v: int) -> bool {
    exists|i: int| 0 <= i < bbox_coords(s).len() && scaled_value(#[trigger] bbox_coords(s)[i].x) == v
}

/// Some coordinate of the geometry's box has a y of value `v`.
pub open spec fn holds_y(s: Shape, v: int) -> bool {
    exists|i: int| 0 <= i < bbox_coords(s).len() && scaled_value(#[trigger] bbox_coords(s)[i].y) == v
}

/// `b` is the x bound a geometry's box reports for the value of `b`: within a
/// geometry other than a collection, the first coordinate holding that value
/// gives it; within a collection, the last member holding that value does.
pub open spec fn reports_x(s: Shape, b: u64) -> bool
    decreases s,
{
    match s {
        Shape::GeometryCollection(v) => members_report_x(v@, b),
        _ => first_x(bbox_coords(s), b),
    }
}

/// The last of the members holding the x value of `b` reports `b`.
pub open spec fn members_report_x(ss: Seq<Shape>, b: u64) -> bool
    decreases ss,
{
    if ss.len() == 0 {
        false
    } else if holds_x(ss.last(), scaled_value(b)) {
        reports_x(ss.last(), b)
    } else {
        members_report_x(ss.drop_last(), b)
    }
}

/// `b` is the y bound a geometry's box reports for the value of `b` (see `reports_x`).
pub open spec fn reports_y(s: Shape, b: u64) -> bool
    decreases s,
{
    match s {
        Shape::GeometryCollection(v) => members_report_y(v@, b),
        _ => first_y(bbox_coords(s), b),
    }
}

/// The last of the members holding the y value of `b` reports `b`.
pub open spec fn members_report_y(ss: Seq<Shape>, b: u64) -> bool
    decreases ss,
{
    if ss.len() == 0 {
        false
    } else if holds_y(ss.last(), scaled_value(b)) {
        reports_y(ss.last(), b)
    } else {
        members_report_y(ss.drop_last(), b)
    }
}

/// Each bound of the rectangle is the one the geometry reports for its value;
/// this decides between the two zeros.
pub open spec fn reports(r: Rect, s: Shape) -> bool {
    reports_x(s, r.min.x) && reports_x(s, r.max.x) && reports_y(s, r.min.y) && reports_y(s, r.max.y)
}

/// The closed ring of a rectangle as `to_polygon` builds it: from the
/// lower-right corner counter-clockwise, back to the start.
pub open spec fn box_ring(r: Rect) -> Seq<Coord> {
    seq![
        Coord { x: r.max.x, y: r.min.y },
        Coord { x: r.max.x, y: r.max.y },
        Coord { x: r.min.x, y: r.max.y },
        Coord { x: r.min.x, y: r.min.y },
        Coord { x: r.max.x, y: r.min.y },
    ]
}

/// Within a run, one x bound stands for each value: the first coordinate's.
pub proof fn lemma_first_x_unique(cs: Seq<Coord>, b1: u64, b2: u64)
    requires
        first_x(cs, b1),
        first_x(cs, b2),
        scaled_value(b1) == scaled_value(b2),
    ensures
        b1 == b2,
{
    let i1 = choose|i: int|
        0 <= i < cs.len() && #[trigger] cs[i].x == b1 && forall|j: int|
            0 <= j < i ==> scaled_value(#[trigger] cs[j].x) != scaled_value(b1);
    let i2 = choose|i: int|
        0 <= i < cs.len() && #[trigger] cs[i].x == b2 && forall|j: int|
            0 <= j < i ==> scaled_value(#[trigger] cs[j].x) != scaled_value(b2);
    if i1 < i2 {
        assert(scaled_value(cs[i1].x) != scaled_value(b2));
    } else if i2 < i1 {
        assert(scaled_value(cs[i2].x) != scaled_value(b1));
    }
}

/// Within a run, one y bound stands for each value: the first coordinate's.
pub proof fn lemma_first_y_unique(cs: Seq<Coord>, b1: u64, b2: u64)
    requires
        first_y(cs, b1),
        first_y(cs, b2),
        scaled_value(b1) == scaled_value(b2),
    ensures
        b1 == b2,
{
    let i1 = choose|i: int|
        0 <= i < cs.len() && #[trigger] cs[i].y == b1 && forall|j: int|
            0 <= j < i ==> scaled_value(#[trigger] cs[j].y) != scaled_value(b1);
    let i2 = choose|i: int|
        0 <= i < cs.len() && #[trigger] cs[i].y == b2 && forall|j: int|
            0 <= j < i ==> scaled_value(#[trigger] cs[j].y) != scaled_value(b2);
    if i1 < i2 {
        assert(scaled_value(cs[i1].y) != scaled_value(b2));
    } else if i2 < i1 {
        assert(scaled_value(cs[i2].y) != scaled_value(b1));
    }
}

/// A geometry reports one x bound for each value.
pub proof fn lemma_reports_x_unique(s: Shape, b1: u64, b2: u64)
    requires
        reports_x(s, b1),
        reports_x(s, b2),
        scaled_value(b1) == scaled_value(b2),
    ensures
        b1 == b2,
    decreases s,
{
    match s {
        Shape::GeometryCollection(v) => {
            assert(decreases_to!(s => v@));
            lemma_members_x_unique(v@, b1, b2);
        },
        _ => lemma_first_x_unique(bbox_coords(s), b1, b2),
    }
}

proof fn lemma_members_x_unique(ss: Seq<Shape>, b1: u64, b2: u64)
    requires
        members_report_x(ss, b1),
        members_report_x(ss, b2),
        scaled_value(b1) == scaled_value(b2),
    ensures
        b1 == b2,
    decreases ss,
{
    if holds_x(ss.last(), scaled_value(b1)) {
        lemma_reports_x_unique(ss.last(), b1, b2);
    } else {
        lemma_members_x_unique(ss.drop_last(), b1, b2);
    }
}

/// A geometry reports one y bound for each value.
pub proof fn lemma_reports_y_unique(s: Shape, b1: u64, b2: u64)
    requires
        reports_y(s, b1),
        reports_y(s, b2),
        scaled_value(b1) == scaled_value(b2),
    ensures
        b1 == b2,
    decreases s,
{
    match s {
        Shape::GeometryCollection(v) => {
            assert(decreases_to!(s => v@));
            lemma_members_y_unique(v@, b1, b2);
        },
        _ => lemma_first_y_unique(bbox_coords(s), b1, b2),
    }
}

proof fn lemma_members_y_unique(ss: Seq<Shape>, b1: u64, b2: u64)
    requires
        members_report_y(ss, b1),
        members_report_y(ss, b2),
        scaled_value(b1) == scaled_value(b2),
    ensures
        b1 == b2,
    decreases ss,
{
    if holds_y(ss.last(), scaled_value(b1)) {
        lemma_reports_y_unique(ss.last(), b1, b2);
    } else {
        lemma_members_y_unique(ss.drop_last(), b1, b2);
    }
}

/// The lower of two bounds, the second on a tie.
pub open spec fn pick_min(a: u64, b: u64) -> u64 {
    if scaled_value(a) < scaled_value(b) {
        a
    } else {
        b
    }
}

/// The higher of two bounds, the second on a tie.
pub open spec fn pick_max(a: u64, b: u64) -> u64 {
    if scaled_value(b) < scaled_value(a) {
        a
    } else {
        b
    }
}

/// A member added after `ss` keeps what `ss` reports unless it holds the
/// value itself; a member that holds the value reports it.
proof fn lemma_members_push(ss: Seq<Shape>, m: Shape, vx: u64, vy: u64)
    ensures
        members_report_x(ss, vx) && !holds_x(m, scaled_value(vx)) ==> members_report_x(ss.push(m), vx),
        holds_x(m, scaled_value(vx)) && reports_x(m, vx) ==> members_report_x(ss.push(m), vx),
        members_report_y(ss, vy) && !holds_y(m, scaled_value(vy)) ==> members_report_y(ss.push(m), vy),
        holds_y(m, scaled_value(vy)) && reports_y(m, vy) ==> members_report_y(ss.push(m), vy),
{
    assert(ss.push(m).drop_last() =~= ss);
    assert(ss.push(m).last() == m);
}

proof fn lemma_within(b: Rect, cs: Seq<Coord>, i: int)
    requires
        spans(b, cs),
        0 <= i < cs.len(),
    ensures
        value_le(b.min.x, cs[i].x) && value_le(cs[i].x, b.max.x),
        value_le(b.min.y, cs[i].y) && value_le(cs[i].y, b.max.y),
{
    assert(value_le(b.min.x, cs[i].x));
}

/// Outside collections, the bounds a geometry reports are the first ones.
proof fn lemma_reports_first(r: Rect, s: Shape)
    requires
        !(s is GeometryCollection),
        bounds_first(Some(r), bbox_coords(s)),
    ensures
        reports(r, s),
{
}

proof fn lemma_reports_first_opt(r: Option<Rect>, s: Shape)
    requires
        !(s is GeometryCollection),
        bounds_first(r, bbox_coords(s)),
    ensures
        r matches Some(rect) ==> reports(rect, s),
{
    if let Some(rect) = r {
        lemma_reports_first(rect, s);
    }
}

/// Merging the box of a next member into the box of the members before it:
/// the picked bounds are those the members so far report.
proof fn lemma_merge_reports(ss: Seq<Shape>, m: Shape, a: Rect, b: Rect)
    requires
        members_report_x(ss, a.min.x) && members_report_x(ss, a.max.x),
        members_report_y(ss, a.min.y) && members_report_y(ss, a.max.y),
        reports(b, m),
        spans(b, bbox_coords(m)),
    ensures
        members_report_x(ss.push(m), pick_min(a.min.x, b.min.x)),
        members_report_x(ss.push(m), pick_max(a.max.x, b.max.x)),
        members_report_y(ss.push(m), pick_min(a.min.y, b.min.y)),
        members_report_y(ss.push(m), pick_max(a.max.y, b.max.y)),
{
    let cs = bbox_coords(m);
    let i1 = choose|i: int| 0 <= i < cs.len() && #[trigger] cs[i].x == b.min.x;
    let i2 = choose|i: int| 0 <= i < cs.len() && #[trigger] cs[i].x == b.max.x;
    let i3 = choose|i: int| 0 <= i < cs.len() && #[trigger] cs[i].y == b.min.y;
    let i4 = choose|i: int| 0 <= i < cs.len() && #[trigger] cs[i].y == b.max.y;
    assert(scaled_value(cs[i1].x) == scaled_value(b.min.x));
    assert(scaled_value(cs[i2].x) == scaled_value(b.max.x));
    assert(scaled_value(cs[i3].y) == scaled_value(b.min.y));
    assert(scaled_value(cs[i4].y) == scaled_value(b.max.y));
    lemma_members_push(ss, m, a.min.x, a.min.y);
    lemma_members_push(ss, m, a.max.x, a.max.y);
    lemma_members_push(ss, m, b.min.x, b.min.y);
    lemma_members_push(ss, m, b.max.x, b.max.y);
    if scaled_value(a.min.x) < scaled_value(b.min.x) {
        assert forall|i: int| 0 <= i < cs.len() implies scaled_value(#[trigger] cs[i].x) != scaled_value(a.min.x) by {
            lemma_within(b, cs, i);
        }
    }
    if scaled_value(b.max.x) < scaled_value(a.max.x) {
        assert forall|i: int| 0 <= i < cs.len() implies scaled_value(#[trigger] cs[i].x) != scaled_value(a.max.x) by {
            lemma_within(b, cs, i);
        }
    }
    if scaled_value(a.min.y) < scaled_value(b.min.y) {
        assert forall|i: int| 0 <= i < cs.len() implies scaled_value(#[trigger] cs[i].y) != scaled_value(a.min.y) by {
            lemma_within(b, cs, i);
        }
    }
    if scaled_value(b.max.y) < scaled_value(a.max.y) {
        assert forall|i: int| 0 <= i < cs.len() implies scaled_value(#[trigger] cs[i].y) != scaled_value(a.max.y) by {
            lemma_within(b, cs, i);
        }
    }
}

/// No rectangle for no coordinates; otherwise a spanning rectangle.
pub open spec fn spans_opt(r: Option<Rect>, cs: Seq<Coord>) -> bool {
    match r {
        None => cs.len() == 0,
        Some(rect) => cs.len() > 0 && spans(rect, cs),
    }
}

proof fn lemma_runs_finite(v: Seq<Vec<Coord>>)
    requires
        coords_finite(runs_coords(v)),
    ensures
        forall|i: int| 0 <= i < v.len() ==> coords_finite(#[trigger] v[i]@),
    decreases v.len(),
{
    if v.len() > 0 {
        lemma_finite_concat(runs_coords(v.drop_last()), v.last()@);
        lemma_runs_finite(v.drop_last());
        assert forall|i: int| 0 <= i < v.len() implies coords_finite(#[trigger] v[i]@) by {
            if i < v.len() - 1 {
                assert(v[i] == v.drop_last()[i]);
            }
        }
    }
}

proof fn lemma_exteriors_finite(v: Seq<Vec<Vec<Coord>>>)
    requires
        coords_finite(polygons_coords(v)),
    ensures
        coords_finite(exteriors(v)),
    decreases v.len(),
{
    if v.len() > 0 {
        lemma_finite_concat(polygons_coords(v.drop_last()), runs_coords(v.last()@));
        lemma_exteriors_finite(v.drop_last());
        lemma_runs_finite(v.last()@);
        lemma_finite_concat(exteriors(v.drop_last()), exterior(v.last()@));
    }
}

/// The spanned coordinates of a finite geometry are finite.
proof fn lemma_bbox_finite(s: Shape)
    requires
        coords_finite(shape_coords(s)),
    ensures
        coords_finite(bbox_coords(s)),
    decreases s,
{
    match s {
        Shape::Point(c) => {
            assert(seq![c][0] == c);
        },
        Shape::Polygon(v) => {
            lemma_runs_finite(v@);
        },
        Shape::MultiPolygon(v) => {
            lemma_exteriors_finite(v@);
        },
        Shape::GeometryCollection(v) => {
            lemma_collection_bbox_finite(s, v@);
        },
        _ => {},
    }
}

proof fn lemma_collection_bbox_finite(s: Shape, ss: Seq<Shape>)
    requires
        coords_finite(collection_coords(ss)),
        forall|j: int| 0 <= j < ss.len() ==> decreases_to!(s => #[trigger] ss[j]),
    ensures
        coords_finite(collection_bbox_coords(ss)),
    decreases s, ss.len(),
{
    if ss.len() > 0 {
        lemma_finite_concat(collection_coords(ss.drop_last()), shape_coords(ss.last()));
        assert(decreases_to!(s => ss[ss.len() - 1]));
        lemma_bbox_finite(ss.last());
        assert forall|j: int| 0 <= j < ss.drop_last().len() implies decreases_to!(s => #[trigger] ss.drop_last()[j]) by {
            assert(ss.drop_last()[j] == ss[j]);
        }
        lemma_collection_bbox_finite(s, ss.drop_last());
        lemma_finite_concat(collection_bbox_coords(ss.drop_last()), bbox_coords(ss.last()));
    }
}

/// `Rect::new`: orders each axis so that `min` is not above `max`; when the two
/// values are not strictly ordered, the second corner's value becomes the minimum.
fn new_rect(c1: Coord, c2: Coord) -> (r: Rect)
    requires
        is_finite(c1.x) && is_finite(c1.y) && is_finite(c2.x) && is_finite(c2.y),
    ensures
        if scaled_value(c1.x) < scaled_value(c2.x) {
            r.min.x == c1.x && r.max.x == c2.x
        } else {
            r.min.x == c2.x && r.max.x == c1.x
        },
        if scaled_value(c1.y) < scaled_value(c2.y) {
            r.min.y == c1.y && r.max.y == c2.y
        } else {
            r.min.y == c2.y && r.max.y == c1.y
        },
{
    let (min_x, max_x) = if less_than(c1.x, c2.x) {
        (c1.x, c2.x)
    } else {
        (c2.x, c1.x)
    };
    let (min_y, max_y) = if less_than(c1.y, c2.y) {
        (c1.y, c2.y)
    } else {
        (c2.y, c1.y)
    };
    Rect { min: Coord { x: min_x, y: min_y }, max: Coord { x: max_x, y: max_y } }
}

/// Normalising a spanning rectangle keeps it spanning.
proof fn lemma_new_rect_spans(lo: Coord, hi: Coord, r: Rect, cs: Seq<Coord>)
    requires
        cs.len() > 0,
        spans(Rect { min: lo, max: hi }, cs),
        if scaled_value(lo.x) < scaled_value(hi.x) {
            r.min.x == lo.x && r.max.x == hi.x
        } else {
            r.min.x == hi.x && r.max.x == lo.x
        },
        if scaled_value(lo.y) < scaled_value(hi.y) {
            r.min.y == lo.y && r.max.y == hi.y
        } else {
            r.min.y == hi.y && r.max.y == lo.y
        },
    ensures
        spans(r, cs),
{
    assert(value_le(lo.x, cs[0].x) && value_le(cs[0].x, hi.x));
    assert(value_le(lo.y, cs[0].y) && value_le(cs[0].y, hi.y));
    let a = choose|i: int| 0 <= i < cs.len() && #[trigger] cs[i].x == lo.x;
    let b = choose|i: int| 0 <= i < cs.len() && #[trigger] cs[i].x == hi.x;
    let c = choose|i: int| 0 <= i < cs.len() && #[trigger] cs[i].y == lo.y;
    let d = choose|i: int| 0 <= i < cs.len() && #[trigger] cs[i].y == hi.y;
    if scaled_value(lo.x) < scaled_value(hi.x) {
        assert(cs[a].x == r.min.x && cs[b].x == r.max.x);
    } else {
        assert(cs[b].x == r.min.x && cs[a].x == r.max.x);
    }
    if scaled_value(lo.y) < scaled_value(hi.y) {
        assert(cs[c].y == r.min.y && cs[d].y == r.max.y);
    } else {
        assert(cs[d].y == r.min.y && cs[c].y == r.max.y);
    }
}

/// One step of `get_bounding_rect`: widens the running range by a coordinate.
/// A value above the maximum replaces it; otherwise a value below the minimum
/// replaces that.
fn scan_coord(acc: Option<Rect>, c: Coord, Ghost(seen): Ghost<Seq<Coord>>) -> (r: Option<Rect>)
    requires
        spans_opt(acc, seen),
        bounds_first(acc, seen),
        coords_finite(seen),
        is_finite(c.x) && is_finite(c.y),
    ensures
        spans_opt(r, seen.push(c)),
        bounds_first(r, seen.push(c)),
{
    let ghost cs = seen.push(c);
    assert(cs[seen.len() as int] == c);
    match acc {
        None => {
            assert(cs =~= seq![c]);
            assert(cs[0].x == c.x && cs[0].y == c.y);
            Some(Rect { min: c, max: c })
        },
        Some(r) => {
            proof {
                assert(is_finite(seen[0].x) && is_finite(seen[0].y));
                let a = choose|i: int| 0 <= i < seen.len() && #[trigger] seen[i].x == r.min.x;
                let b = choose|i: int| 0 <= i < seen.len() && #[trigger] seen[i].x == r.max.x;
                let cc = choose|i: int| 0 <= i < seen.len() && #[trigger] seen[i].y == r.min.y;
                let d = choose|i: int| 0 <= i < seen.len() && #[trigger] seen[i].y == r.max.y;
                assert(cs[a] == seen[a] && cs[b] == seen[b] && cs[cc] == seen[cc] && cs[d] == seen[d]);
            }
            let (min_x, max_x) = if less_than(r.max.x, c.x) {
                (r.min.x, c.x)
            } else if less_than(c.x, r.min.x) {
                (c.x, r.max.x)
            } else {
                (r.min.x, r.max.x)
            };
            let (min_y, max_y) = if less_than(r.max.y, c.y) {
                (r.min.y, c.y)
            } else if less_than(c.y, r.min.y) {
                (c.y, r.max.y)
            } else {
                (r.min.y, r.max.y)
            };
            let nr = Rect { min: Coord { x: min_x, y: min_y }, max: Coord { x: max_x, y: max_y } };
            assert forall|i: int| 0 <= i < cs.len() implies value_le(nr.min.x, #[trigger] cs[i].x)
                && value_le(cs[i].x, nr.max.x) && value_le(nr.min.y, cs[i].y) && value_le(
                cs[i].y,
                nr.max.y,
            ) by {
                if i < seen.len() {
                    assert(cs[i] == seen[i]);
                }
            }
            proof {
                lemma_first_push(seen, c, r.min.x, r.min.y);
                lemma_first_push(seen, c, r.max.x, r.max.y);
                if scaled_value(r.max.x) < scaled_value(c.x) || scaled_value(c.x) < scaled_value(r.min.x) {
                    assert forall|j: int| 0 <= j < seen.len() implies scaled_value(#[trigger] seen[j].x)
                        != scaled_value(c.x) by {
                        assert(value_le(r.min.x, seen[j].x) && value_le(seen[j].x, r.max.x));
                    }
                }
                if scaled_value(r.max.y) < scaled_value(c.y) || scaled_value(c.y) < scaled_value(r.min.y) {
                    assert forall|j: int| 0 <= j < seen.len() implies scaled_value(#[trigger] seen[j].y)
                        != scaled_value(c.y) by {
                        assert(value_le(r.min.y, seen[j].y) && value_le(seen[j].y, r.max.y));
                    }
                }
            }
            Some(nr)
        },
    }
}

/// Widens the running range by every coordinate of a run, in order.
fn scan_run(acc: Option<Rect>, v: &Vec<Coord>, Ghost(seen): Ghost<Seq<Coord>>) -> (r: Option<Rect>)
    requires
        spans_opt(acc, seen),
        bounds_first(acc, seen),
        coords_finite(seen),
        coords_finite(v@),
    ensures
        spans_opt(r, seen + v@),
        bounds_first(r, seen + v@),
{
    let mut acc = acc;
    let mut i: usize = 0;
    assert(seen + v@.take(0) =~= seen);
    while i < v.len()
        invariant
            i <= v.len(),
            coords_finite(seen),
            coords_finite(v@),
            spans_opt(acc, seen + v@.take(i as int)),
            bounds_first(acc, seen + v@.take(i as int)),
        decreases v.len() - i,
    {
        proof {
            lemma_finite_concat(seen, v@.take(i as int));
            assert(v@[i as int] == v[i as int]);
        }
        acc = scan_coord(acc, v[i], Ghost(seen + v@.take(i as int)));
        assert((seen + v@.take(i as int)).push(v@[i as int]) =~= seen + v@.take(i + 1));
        i = i + 1;
    }
    assert(v@.take(i as int) =~= v@);
    acc
}

/// Widens the running range by every coordinate of a sequence of runs.
fn scan_runs(acc: Option<Rect>, v: &Vec<Vec<Coord>>, Ghost(seen): Ghost<Seq<Coord>>) -> (r: Option<Rect>)
    requires
        spans_opt(acc, seen),
        bounds_first(acc, seen),
        coords_finite(seen),
        coords_finite(runs_coords(v@)),
    ensures
        spans_opt(r, seen + runs_coords(v@)),
        bounds_first(r, seen + runs_coords(v@)),
{
    proof {
        lemma_runs_finite(v@);
    }
    let mut acc = acc;
    let mut i: usize = 0;
    while i < v.len()
        invariant
            i <= v.len(),
            coords_finite(seen),
            forall|k: int| 0 <= k < v@.len() ==> coords_finite(#[trigger] v@[k]@),
            spans_opt(acc, seen + runs_coords(v@.take(i as int))),
            bounds_first(acc, seen + runs_coords(v@.take(i as int))),
            coords_finite(seen + runs_coords(v@.take(i as int))),
        decreases v.len() - i,
    {
        proof {
            assert(v@.take(i + 1).drop_last() =~= v@.take(i as int));
            assert(v@.take(i + 1).last() == v@[i as int]);
        }
        acc = scan_run(acc, &v[i], Ghost(seen + runs_coords(v@.take(i as int))));
        proof {
            assert(seen + runs_coords(v@.take(i as int)) + v@[i as int]@ =~= seen + runs_coords(v@.take(i + 1)));
            lemma_finite_concat(seen + runs_coords(v@.take(i as int)), v@[i as int]@);
        }
        i = i + 1;
    }
    assert(v@.take(i as int) =~= v@);
    acc
}

/// Widens the running range by the exterior ring of every polygon.
fn scan_exteriors(acc: Option<Rect>, v: &Vec<Vec<Vec<Coord>>>, Ghost(seen): Ghost<Seq<Coord>>) -> (r: Option<Rect>)
    requires
        spans_opt(acc, seen),
        bounds_first(acc, seen),
        coords_finite(seen),
        coords_finite(exteriors(v@)),
    ensures
        spans_opt(r, seen + exteriors(v@)),
        bounds_first(r, seen + exteriors(v@)),
{
    proof {
        lemma_exteriors_each_finite(v@);
    }
    let mut acc = acc;
    let mut i: usize = 0;
    while i < v.len()
        invariant
            i <= v.len(),
            coords_finite(seen),
            forall|k: int| 0 <= k < v@.len() ==> coords_finite(exterior(#[trigger] v@[k]@)),
            spans_opt(acc, seen + exteriors(v@.take(i as int))),
            bounds_first(acc, seen + exteriors(v@.take(i as int))),
            coords_finite(seen + exteriors(v@.take(i as int))),
        decreases v.len() - i,
    {
        proof {
            assert(v@.take(i + 1).drop_last() =~= v@.take(i as int));
            assert(v@.take(i + 1).last() == v@[i as int]);
        }
        let ghost before = seen + exteriors(v@.take(i as int));
        if v[i].len() > 0 {
            acc = scan_run(acc, &v[i][0], Ghost(before));
        } else {
            assert(before + exterior(v@[i as int]@) =~= before);
        }
        proof {
            assert(before + exterior(v@[i as int]@) =~= seen + exteriors(v@.take(i + 1)));
            lemma_finite_concat(before, exterior(v@[i as int]@));
        }
        i = i + 1;
    }
    assert(v@.take(i as int) =~= v@);
    acc
}

proof fn lemma_exteriors_each_finite(v: Seq<Vec<Vec<Coord>>>)
    requires
        coords_finite(exteriors(v)),
    ensures
        forall|k: int| 0 <= k < v.len() ==> coords_finite(exterior(#[trigger] v[k]@)),
    decreases v.len(),
{
    if v.len() > 0 {
        lemma_finite_concat(exteriors(v.drop_last()), exterior(v.last()@));
        lemma_exteriors_each_finite(v.drop_last());
        assert forall|k: int| 0 <= k < v.len() implies coords_finite(exterior(#[trigger] v[k]@)) by {
            if k < v.len() - 1 {
                assert(v[k] == v.drop_last()[k]);
            }
        }
    }
}

/// Finishes a scan as `get_bounding_rect` does, with `Rect::new`.
fn finish(acc: Option<Rect>, Ghost(cs): Ghost<Seq<Coord>>) -> (r: Option<Rect>)
    requires
        spans_opt(acc, cs),
        bounds_first(acc, cs),
        coords_finite(cs),
    ensures
        spans_opt(r, cs),
        bounds_first(r, cs),
{
    match acc {
        None => None,
        Some(a) => {
            proof {
                assert(is_finite(cs[0].x) && is_finite(cs[0].y));
                let i = choose|i: int| 0 <= i < cs.len() && #[trigger] cs[i].x == a.min.x;
                let j = choose|i: int| 0 <= i < cs.len() && #[trigger] cs[i].x == a.max.x;
                let k = choose|i: int| 0 <= i < cs.len() && #[trigger] cs[i].y == a.min.y;
                let l = choose|i: int| 0 <= i < cs.len() && #[trigger] cs[i].y == a.max.y;
                assert(is_finite(cs[i].x) && is_finite(cs[j].x) && is_finite(cs[k].y) && is_finite(cs[l].y));
            }
            let r = new_rect(a.min, a.max);
            proof {
                lemma_new_rect_spans(a.min, a.max, r, cs);
            }
            Some(r)
        },
    }
}

/// `bounding_rect_merge`: the smaller minimum and larger maximum of two
/// rectangles (the second's when they tie), normalised with `Rect::new`.
fn merge(a: Rect, b: Rect, Ghost(s1): Ghost<Seq<Coord>>, Ghost(s2): Ghost<Seq<Coord>>) -> (r: Rect)
    requires
        s1.len() > 0 && spans(a, s1) && coords_finite(s1),
        s2.len() > 0 && spans(b, s2) && coords_finite(s2),
    ensures
        spans(r, s1 + s2),
        r.min.x == pick_min(a.min.x, b.min.x) || r.min.x == pick_max(a.max.x, b.max.x),
        r.max.x == pick_min(a.min.x, b.min.x) || r.max.x == pick_max(a.max.x, b.max.x),
        r.min.y == pick_min(a.min.y, b.min.y) || r.min.y == pick_max(a.max.y, b.max.y),
        r.max.y == pick_min(a.min.y, b.min.y) || r.max.y == pick_max(a.max.y, b.max.y),
{
    let ghost cs = s1 + s2;
    proof {
        lemma_finite_concat(s1, s2);
        let i1 = choose|i: int| 0 <= i < s1.len() && #[trigger] s1[i].x == a.min.x;
        let j1 = choose|i: int| 0 <= i < s1.len() && #[trigger] s1[i].x == a.max.x;
        let k1 = choose|i: int| 0 <= i < s1.len() && #[trigger] s1[i].y == a.min.y;
        let l1 = choose|i: int| 0 <= i < s1.len() && #[trigger] s1[i].y == a.max.y;
        let i2 = choose|i: int| 0 <= i < s2.len() && #[trigger] s2[i].x == b.min.x;
        let j2 = choose|i: int| 0 <= i < s2.len() && #[trigger] s2[i].x == b.max.x;
        let k2 = choose|i: int| 0 <= i < s2.len() && #[trigger] s2[i].y == b.min.y;
        let l2 = choose|i: int| 0 <= i < s2.len() && #[trigger] s2[i].y == b.max.y;
        assert(cs[i1] == s1[i1] && cs[j1] == s1[j1] && cs[k1] == s1[k1] && cs[l1] == s1[l1]);
        assert(cs[s1.len() + i2] == s2[i2] && cs[s1.len() + j2] == s2[j2]);
        assert(cs[s1.len() + k2] == s2[k2] && cs[s1.len() + l2] == s2[l2]);
    }
    let min_x = if less_than(a.min.x, b.min.x) { a.min.x } else { b.min.x };
    let min_y = if less_than(a.min.y, b.min.y) { a.min.y } else { b.min.y };
    let max_x = if less_than(b.max.x, a.max.x) { a.max.x } else { b.max.x };
    let max_y = if less_than(b.max.y, a.max.y) { a.max.y } else { b.max.y };
    let lo = Coord { x: min_x, y: min_y };
    let hi = Coord { x: max_x, y: max_y };
    assert forall|i: int| 0 <= i < cs.len() implies value_le(lo.x, #[trigger] cs[i].x)
        && value_le(cs[i].x, hi.x) && value_le(lo.y, cs[i].y) && value_le(cs[i].y, hi.y) by {
        if i < s1.len() {
            assert(cs[i] == s1[i]);
        } else {
            assert(cs[i] == s2[i - s1.len()]);
        }
    }
    let r = new_rect(lo, hi);
    proof {
        lemma_new_rect_spans(lo, hi, r, cs);
    }
    r
}

/// The bounding rectangle of a geometry, as `geo`'s `BoundingRect` computes it:
/// `None` when there is no coordinate to span.
pub fn bounding_rect(s: &Shape) -> (r: Option<Rect>)
    requires
        coords_finite(shape_coords(*s)),
    ensures
        spans_opt(r, bbox_coords(*s)),
        r matches Some(rect) ==> reports(rect, *s),
    decreases s,
{
    proof {
        lemma_bbox_finite(*s);
    }
    let ghost empty = Seq::<Coord>::empty();
    match s {
        Shape::Point(c) => {
            assert(seq![*c][0] == *c);
            let r = new_rect(*c, *c);
            proof {
                let cs = seq![*c];
                assert(cs[0] == *c);
                lemma_new_rect_spans(*c, *c, r, cs);
                assert(bbox_coords(*s) =~= cs);
                assert(first_x(cs, c.x) && first_y(cs, c.y));
                lemma_reports_first(r, *s);
            }
            Some(r)
        },
        Shape::MultiPoint(v) | Shape::LineString(v) => {
            let acc = scan_run(None, v, Ghost(empty));
            assert(empty + v@ =~= v@);
            let res = finish(acc, Ghost(v@));
            proof {
                lemma_reports_first_opt(res, *s);
            }
            res
        },
        Shape::MultiLineString(v) => {
            let acc = scan_runs(None, v, Ghost(empty));
            assert(empty + runs_coords(v@) =~= runs_coords(v@));
            let res = finish(acc, Ghost(runs_coords(v@)));
            proof {
                lemma_reports_first_opt(res, *s);
            }
            res
        },
        Shape::Polygon(v) => {
            if v.len() == 0 {
                None
            } else {
                let acc = scan_run(None, &v[0], Ghost(empty));
                assert(empty + v@[0]@ =~= v@[0]@);
                let res = finish(acc, Ghost(v@[0]@));
                proof {
                    lemma_reports_first_opt(res, *s);
                }
                res
            }
        },
        Shape::MultiPolygon(v) => {
            let acc = scan_exteriors(None, v, Ghost(empty));
            assert(empty + exteriors(v@) =~= exteriors(v@));
            let res = finish(acc, Ghost(exteriors(v@)));
            proof {
                lemma_reports_first_opt(res, *s);
            }
            res
        },
        Shape::GeometryCollection(v) => {
            proof {
                assert forall|j: int| 0 <= j < v@.len() implies decreases_to!(*s => #[trigger] v@[j]) by {
                    assert(decreases_to!(*s => *v));
                    assert(decreases_to!(*v => v@));
                    assert(decreases_to!(v@ => v@[j]));
                }
                lemma_collection_each_finite(v@);
            }
            let mut acc: Option<Rect> = None;
            let mut i: usize = 0;
            while i < v.len()
                invariant
                    i <= v.len(),
                    forall|j: int| 0 <= j < v@.len() ==> decreases_to!(*s => #[trigger] v@[j]),
                    forall|j: int| 0 <= j < v@.len() ==> coords_finite(shape_coords(#[trigger] v@[j])),
                    spans_opt(acc, collection_bbox_coords(v@.take(i as int))),
                    coords_finite(collection_bbox_coords(v@.take(i as int))),
                    acc matches Some(a) ==> members_report_x(v@.take(i as int), a.min.x) && members_report_x(
                        v@.take(i as int),
                        a.max.x,
                    ) && members_report_y(v@.take(i as int), a.min.y) && members_report_y(
                        v@.take(i as int),
                        a.max.y,
                    ),
                decreases v.len() - i,
            {
                let ghost before = collection_bbox_coords(v@.take(i as int));
                let ghost part = bbox_coords(v@[i as int]);
                proof {
                    assert(v@.take(i + 1).drop_last() =~= v@.take(i as int));
                    assert(v@.take(i + 1).last() == v@[i as int]);
                    assert(collection_bbox_coords(v@.take(i + 1)) == before + part);
                    lemma_bbox_finite(v@[i as int]);
                    lemma_finite_concat(before, part);
                }
                let next = bounding_rect(&v[i]);
                let ghost done = v@.take(i as int);
                let ghost m = v@[i as int];
                assert(v@.take(i + 1) =~= done.push(m));
                acc = match (acc, next) {
                    (None, None) => {
                        assert(before + part =~= Seq::<Coord>::empty());
                        None
                    },
                    (Some(r), None) => {
                        assert(before + part =~= before);
                        proof {
                            lemma_members_push(done, m, r.min.x, r.min.y);
                            lemma_members_push(done, m, r.max.x, r.max.y);
                        }
                        Some(r)
                    },
                    (None, Some(r)) => {
                        assert(before + part =~= part);
                        proof {
                            lemma_members_push(done, m, r.min.x, r.min.y);
                            lemma_members_push(done, m, r.max.x, r.max.y);
                        }
                        Some(r)
                    },
                    (Some(r1), Some(r2)) => {
                        proof {
                            lemma_merge_reports(done, m, r1, r2);
                        }
                        Some(merge(r1, r2, Ghost(before), Ghost(part)))
                    },
                };
                i = i + 1;
            }
            assert(v@.take(i as int) =~= v@);
            proof {
                if let Some(a) = acc {
                    assert(members_report_x(v@, a.min.x) && members_report_x(v@, a.max.x));
                    assert(members_report_y(v@, a.min.y) && members_report_y(v@, a.max.y));
                }
            }
            acc
        },
    }
}

proof fn lemma_collection_each_finite(ss: Seq<Shape>)
    requires
        coords_finite(collection_coords(ss)),
    ensures
        forall|j: int| 0 <= j < ss.len() ==> coords_finite(shape_coords(#[trigger] ss[j])),
    decreases ss.len(),
{
    if ss.len() > 0 {
        lemma_finite_concat(collection_coords(ss.drop_last()), shape_coords(ss.last()));
        lemma_collection_each_finite(ss.drop_last());
        assert forall|j: int| 0 <= j < ss.len() implies coords_finite(shape_coords(#[trigger] ss[j])) by {
            if j < ss.len() - 1 {
                assert(ss[j] == ss.drop_last()[j]);
            }
        }
    }
}

} // verus!
