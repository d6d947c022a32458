//! Reading GeoJSON text into the plain-value `Shape` model.
//!
//! The JSON grammar and the GeoJSON object rules are the `geojson` crate's; the
//! caps on the input, the choice of which document kinds are accepted, how a
//! geometry is read (polygon rings are closed as a polygon holds them), and the
//! coordinate checks are this library's.
use vstd::prelude::*;

use geojson::{GeoJson, Position};

use crate::error::GeoError;
use crate::ieee::{equal, float_eq};
use crate::shape::{
    check_coords, collection_coords, coord_count, coords_finite, coords_pass, coords_status, outcome, polygons_coords,
    runs_coords, shape_coords, Coord, CoordTest, Shape, MAX_COORDS,
};
use crate::text::{is_blank, trim, trim_white};

verus! {

/// Most bytes of GeoJSON text accepted, checked on the raw input before any parse.
pub const MAX_GEOJSON_LEN: usize = 1_000_000;

/// Deepest nesting of geometry collections followed; deeper than the JSON
/// parser's own nesting limit admits.
pub const MAX_COLLECTION_DEPTH: usize = 128;

/// `geojson::Geometry`, carried opaquely.
#[verifier::external_type_specification]
#[verifier::external_body]
pub struct ExGeojsonGeometry(geojson::Geometry);

/// `geojson::Position`, a list of numbers; its contents are `position_values`.
#[verifier::external_type_specification]
#[verifier::external_body]
pub struct ExPosition(geojson::Position);

/// `geojson::Error`, the parse failure, carried opaquely.
#[verifier::external_type_specification]
#[verifier::external_body]
pub struct ExGeojsonError(geojson::Error);

/// Whether `geojson` parses the text as a GeoJSON object (a geometry, a
/// feature or a feature collection).
pub uninterp spec fn geojson_accepts(text: Seq<char>) -> bool;

/// The numbers of a GeoJSON position, each as its binary64 bit pattern.
pub uninterp spec fn position_values(p: Position) -> Seq<u64>;

/// The object `geojson` parses an accepted text into, taken apart.
pub uninterp spec fn geojson_document(text: Seq<char>) -> Document;

/// The kind and the coordinates (or members) of a GeoJSON geometry.
pub uninterp spec fn geometry_parts(g: geojson::Geometry) -> GeometryParts;

/// A parsed GeoJSON object, taken apart: a geometry, the geometry of a feature
/// (if it has one), or a feature collection.
pub enum Document {
    Geometry(geojson::Geometry),
    Feature(Option<geojson::Geometry>),
    FeatureCollection,
}

/// The kinds of GeoJSON geometry with their positions.
pub enum GeometryParts {
    Point(Position),
    MultiPoint(Vec<Position>),
    LineString(Vec<Position>),
    MultiLineString(Vec<Vec<Position>>),
    Polygon(Vec<Vec<Position>>),
    MultiPolygon(Vec<Vec<Vec<Position>>>),
    GeometryCollection(Vec<geojson::Geometry>),
}

/// `GeoJson::from_str`, with the variants of `geojson::GeoJson` told apart
/// and a feature's geometry moved out. It succeeds exactly when the text is
/// accepted, and what it yields is a function of the text.
#[verifier::external_body]
fn parse_document(text: &str) -> (r: Result<Document, geojson::Error>)
    ensures
        r is Ok <==> geojson_accepts(text@),
        r matches Ok(d) ==> d == geojson_document(text@),
{
    match text.parse::<GeoJson>() {
        Ok(GeoJson::Geometry(g)) => Ok(Document::Geometry(g)),
        Ok(GeoJson::Feature(f)) => Ok(Document::Feature(f.geometry)),
        Ok(GeoJson::FeatureCollection(_)) => Ok(Document::FeatureCollection),
        Err(e) => Err(e),
    }
}

/// Tells the variants of `geojson::GeometryValue` apart, moving out their
/// coordinates; what it yields is a function of the geometry.
#[verifier::external_body]
fn open_geometry(g: geojson::Geometry) -> (r: GeometryParts)
    ensures
        r == geometry_parts(g),
{
    match g.value {
        geojson::GeometryValue::Point { coordinates } => GeometryParts::Point(coordinates),
        geojson::GeometryValue::MultiPoint { coordinates } => GeometryParts::MultiPoint(coordinates),
        geojson::GeometryValue::LineString { coordinates } => GeometryParts::LineString(coordinates),
        geojson::GeometryValue::MultiLineString { coordinates } => GeometryParts::MultiLineString(coordinates),
        geojson::GeometryValue::Polygon { coordinates } => GeometryParts::Polygon(coordinates),
        geojson::GeometryValue::MultiPolygon { coordinates } => GeometryParts::MultiPolygon(coordinates),
        geojson::GeometryValue::GeometryCollection { geometries } => GeometryParts::GeometryCollection(geometries),
    }
}

/// `Position::len`: how many numbers the position holds.
#[verifier::external_body]
fn position_len(p: &Position) -> (r: usize)
    ensures
        r == position_values(*p).len(),
{
    p.len()
}

/// The `i`-th number of a position (`Position::index`), as its bit pattern.
#[verifier::external_body]
fn position_value(p: &Position, i: usize) -> (r: u64)
    requires
        i < position_values(*p).len(),
    ensures
        r == position_values(*p)[i as int],
{
    p[i].to_bits()
}

/// The coordinate a position stands for: its first two numbers, the longitude
/// and the latitude; a position with fewer than two numbers stands for none.
pub open spec fn coord_from(vals: Seq<u64>) -> Option<Coord> {
    if vals.len() < 2 {
        None
    } else {
        Some(Coord { x: vals[0], y: vals[1] })
    }
}

/// Every position holds at least two numbers.
pub open spec fn run_valid(ps: Seq<Position>) -> bool {
    forall|i: int| 0 <= i < ps.len() ==> position_values(#[trigger] ps[i]).len() >= 2
}

/// The coordinates stand, one for one, for the positions.
pub open spec fn run_matches(ps: Seq<Position>, cs: Seq<Coord>) -> bool {
    &&& ps.len() == cs.len()
    &&& forall|i: int| 0 <= i < ps.len() ==> coord_from(position_values(#[trigger] ps[i])) == Some(cs[i])
}

pub open spec fn runs_valid(pss: Seq<Vec<Position>>) -> bool {
    forall|i: int| 0 <= i < pss.len() ==> run_valid(#[trigger] pss[i]@)
}

pub open spec fn runs_match(pss: Seq<Vec<Position>>, css: Seq<Vec<Coord>>) -> bool {
    &&& pss.len() == css.len()
    &&& forall|i: int| 0 <= i < pss.len() ==> run_matches(#[trigger] pss[i]@, css[i]@)
}

pub open spec fn polygons_valid(p: Seq<Vec<Vec<Position>>>) -> bool {
    forall|i: int| 0 <= i < p.len() ==> runs_valid(#[trigger] p[i]@)
}

pub open spec fn polygons_match(p: Seq<Vec<Vec<Position>>>, c: Seq<Vec<Vec<Coord>>>) -> bool {
    &&& p.len() == c.len()
    &&& forall|i: int| 0 <= i < p.len() ==> rings_match(#[trigger] p[i]@, c[i]@)
}

/// Two coordinates compare equal as pairs of `f64` do.
pub open spec fn coord_eq(a: Coord, b: Coord) -> bool {
    float_eq(a.x, b.x) && float_eq(a.y, b.y)
}

/// A ring as a polygon holds it: a ring whose last coordinate does not equal
/// its first is closed by repeating the first.
pub open spec fn closed_ring(cs: Seq<Coord>) -> Seq<Coord> {
    if cs.len() > 0 && !coord_eq(cs[0], cs.last()) {
        cs.push(cs[0])
    } else {
        cs
    }
}

/// The coordinates a run of positions stands for, one per position.
pub open spec fn position_coords(ps: Seq<Position>) -> Seq<Coord> {
    ps.map_values(|p: Position| coord_from(position_values(p))->0)
}

/// The coordinates are the ring of positions, read and closed.
pub open spec fn ring_matches(ps: Seq<Position>, cs: Seq<Coord>) -> bool {
    run_valid(ps) && cs == closed_ring(position_coords(ps))
}

pub open spec fn rings_match(pss: Seq<Vec<Position>>, css: Seq<Vec<Coord>>) -> bool {
    &&& pss.len() == css.len()
    &&& forall|i: int| 0 <= i < pss.len() ==> ring_matches(#[trigger] pss[i]@, css[i]@)
}

/// A run read one for one is the run's coordinates.
proof fn lemma_run_matches_coords(ps: Seq<Position>, cs: Seq<Coord>)
    requires
        run_matches(ps, cs),
    ensures
        run_valid(ps),
        cs == position_coords(ps),
{
    assert forall|i: int| 0 <= i < ps.len() implies position_values(#[trigger] ps[i]).len() >= 2
        && cs[i] == position_coords(ps)[i] by {
        assert(coord_from(position_values(ps[i])) == Some(cs[i]));
    }
    assert(cs =~= position_coords(ps));
}

/// Reads a position as a coordinate.
pub fn coord_of(p: &Position) -> (r: Option<Coord>)
    ensures
        r == coord_from(position_values(*p)),
{
    if position_len(p) < 2 {
        None
    } else {
        Some(Coord { x: position_value(p, 0), y: position_value(p, 1) })
    }
}

/// Reads a run of positions; `None` if any position is too short.
pub fn run_of(ps: &Vec<Position>) -> (r: Option<Vec<Coord>>)
    ensures
        r is Some <==> run_valid(ps@),
        r matches Some(cs) ==> run_matches(ps@, cs@),
{
    let mut out: Vec<Coord> = Vec::new();
    let mut i: usize = 0;
    while i < ps.len()
        invariant
            i <= ps.len(),
            run_valid(ps@.take(i as int)),
            run_matches(ps@.take(i as int), out@),
        decreases ps.len() - i,
    {
        match coord_of(&ps[i]) {
            Some(c) => {
                out.push(c);
            },
            None => {
                assert(!run_valid(ps@)) by {
                    assert(ps@[i as int] == ps[i as int]);
                }
                return None;
            },
        }
        i = i + 1;
        assert(ps@.take(i as int).drop_last() =~= ps@.take(i - 1));
        assert forall|k: int| 0 <= k < ps@.take(i as int).len() implies coord_from(
            position_values(#[trigger] ps@.take(i as int)[k]),
        ) == Some(out@[k]) by {
            if k < i - 1 {
                assert(ps@.take(i as int)[k] == ps@.take(i - 1)[k]);
            }
        }
    }
    assert(ps@.take(i as int) =~= ps@);
    Some(out)
}

/// Reads a sequence of runs; `None` if any position is too short.
pub fn runs_of(pss: &Vec<Vec<Position>>) -> (r: Option<Vec<Vec<Coord>>>)
    ensures
        r is Some <==> runs_valid(pss@),
        r matches Some(css) ==> runs_match(pss@, css@),
{
    let mut out: Vec<Vec<Coord>> = Vec::new();
    let mut i: usize = 0;
    while i < pss.len()
        invariant
            i <= pss.len(),
            runs_valid(pss@.take(i as int)),
            runs_match(pss@.take(i as int), out@),
        decreases pss.len() - i,
    {
        match run_of(&pss[i]) {
            Some(c) => {
                out.push(c);
            },
            None => {
                assert(!runs_valid(pss@)) by {
                    assert(pss@[i as int] == pss[i as int]);
                }
                return None;
            },
        }
        i = i + 1;
        assert forall|k: int| 0 <= k < pss@.take(i as int).len() implies run_matches(
            #[trigger] pss@.take(i as int)[k]@,
            out@[k]@,
        ) by {
            if k < i - 1 {
                assert(pss@.take(i as int)[k] == pss@.take(i - 1)[k]);
            }
        }
    }
    assert(pss@.take(i as int) =~= pss@);
    Some(out)
}

/// Reads a polygon ring and closes it as a polygon holds it; `None` if any
/// position is too short.
pub fn ring_of(ps: &Vec<Position>) -> (r: Option<Vec<Coord>>)
    ensures
        r is Some <==> run_valid(ps@),
        r matches Some(cs) ==> ring_matches(ps@, cs@),
{
    let mut cs = match run_of(ps) {
        Some(cs) => cs,
        None => return None,
    };
    proof {
        lemma_run_matches_coords(ps@, cs@);
    }
    let n = cs.len();
    if n > 0 {
        let first = cs[0];
        let last = cs[n - 1];
        if !(equal(first.x, last.x) && equal(first.y, last.y)) {
            cs.push(first);
        }
    }
    Some(cs)
}

/// Reads the rings of a polygon; `None` if any position is too short.
pub fn rings_of(pss: &Vec<Vec<Position>>) -> (r: Option<Vec<Vec<Coord>>>)
    ensures
        r is Some <==> runs_valid(pss@),
        r matches Some(css) ==> rings_match(pss@, css@),
{
    let mut out: Vec<Vec<Coord>> = Vec::new();
    let mut i: usize = 0;
    while i < pss.len()
        invariant
            i <= pss.len(),
            runs_valid(pss@.take(i as int)),
            rings_match(pss@.take(i as int), out@),
        decreases pss.len() - i,
    {
        match ring_of(&pss[i]) {
            Some(c) => {
                out.push(c);
            },
            None => {
                assert(!runs_valid(pss@)) by {
                    assert(pss@[i as int] == pss[i as int]);
                }
                return None;
            },
        }
        i = i + 1;
        assert forall|k: int| 0 <= k < pss@.take(i as int).len() implies ring_matches(
            #[trigger] pss@.take(i as int)[k]@,
            out@[k]@,
        ) by {
            if k < i - 1 {
                assert(pss@.take(i as int)[k] == pss@.take(i - 1)[k]);
            }
        }
    }
    assert(pss@.take(i as int) =~= pss@);
    Some(out)
}

/// Reads a sequence of polygons; `None` if any position is too short.
pub fn polygons_of(p: &Vec<Vec<Vec<Position>>>) -> (r: Option<Vec<Vec<Vec<Coord>>>>)
    ensures
        r is Some <==> polygons_valid(p@),
        r matches Some(c) ==> polygons_match(p@, c@),
{
    let mut out: Vec<Vec<Vec<Coord>>> = Vec::new();
    let mut i: usize = 0;
    while i < p.len()
        invariant
            i <= p.len(),
            polygons_valid(p@.take(i as int)),
            polygons_match(p@.take(i as int), out@),
        decreases p.len() - i,
    {
        match rings_of(&p[i]) {
            Some(c) => {
                out.push(c);
            },
            None => {
                assert(!polygons_valid(p@)) by {
                    assert(p@[i as int] == p[i as int]);
                }
                return None;
            },
        }
        i = i + 1;
        assert forall|k: int| 0 <= k < p@.take(i as int).len() implies rings_match(
            #[trigger] p@.take(i as int)[k]@,
            out@[k]@,
        ) by {
            if k < i - 1 {
                assert(p@.take(i as int)[k] == p@.take(i - 1)[k]);
            }
        }
    }
    assert(p@.take(i as int) =~= p@);
    Some(out)
}

/// Whether the parts of a geometry can be read: every position holds at least
/// two numbers, and geometry collections nest at most `d` levels deep.
pub open spec fn parts_readable(parts: GeometryParts, d: nat) -> bool
    decreases d,
{
    match parts {
        GeometryParts::Point(p) => position_values(p).len() >= 2,
        GeometryParts::MultiPoint(ps) => run_valid(ps@),
        GeometryParts::LineString(ps) => run_valid(ps@),
        GeometryParts::MultiLineString(pss) => runs_valid(pss@),
        GeometryParts::Polygon(pss) => runs_valid(pss@),
        GeometryParts::MultiPolygon(p) => polygons_valid(p@),
        GeometryParts::GeometryCollection(ms) => if d == 0 {
            false
        } else {
            forall|i: int|
                0 <= i < ms@.len() ==> parts_readable(geometry_parts(#[trigger] ms@[i]), (d - 1) as nat)
        },
    }
}

/// `s` is what the parts of a geometry read as: the same kind, each position
/// standing for its coordinate, each polygon ring closed, and each member of a
/// collection read in document order, collections nesting at most `d` deep.
pub open spec fn parts_read(parts: GeometryParts, d: nat, s: Shape) -> bool
    decreases d,
{
    match parts {
        GeometryParts::Point(p) => s matches Shape::Point(c) && coord_from(position_values(p)) == Some(c),
        GeometryParts::MultiPoint(ps) => s matches Shape::MultiPoint(cs) && run_matches(ps@, cs@),
        GeometryParts::LineString(ps) => s matches Shape::LineString(cs) && run_matches(ps@, cs@),
        GeometryParts::MultiLineString(pss) => s matches Shape::MultiLineString(css) && runs_match(pss@, css@),
        GeometryParts::Polygon(pss) => s matches Shape::Polygon(css) && rings_match(pss@, css@),
        GeometryParts::MultiPolygon(p) => s matches Shape::MultiPolygon(c) && polygons_match(p@, c@),
        GeometryParts::GeometryCollection(ms) => if d == 0 {
            false
        } else {
            &&& s matches Shape::GeometryCollection(v)
            &&& s->GeometryCollection_0@.len() == ms@.len()
            &&& forall|i: int|
                0 <= i < ms@.len() ==> parts_read(
                    geometry_parts(#[trigger] ms@[i]),
                    (d - 1) as nat,
                    s->GeometryCollection_0@[i],
                )
        },
    }
}

/// Whether a GeoJSON geometry can be read, collections nesting at most `d` deep.
pub open spec fn readable(g: geojson::Geometry, d: nat) -> bool {
    parts_readable(geometry_parts(g), d)
}

/// `s` is what a GeoJSON geometry reads as.
pub open spec fn reads_as(g: geojson::Geometry, d: nat, s: Shape) -> bool {
    parts_read(geometry_parts(g), d, s)
}

/// Reads the parts of a geometry into a `Shape`. A collection is read member by
/// member, up to `depth` levels of nested collections.
#[verifier::loop_isolation(false)]
pub fn shape_of_parts(parts: GeometryParts, depth: usize) -> (r: Option<Shape>)
    ensures
        r is Some <==> parts_readable(parts, depth as nat),
        r matches Some(s) ==> parts_read(parts, depth as nat, s),
    decreases depth, 0usize,
{
    let ghost whole = parts;
    match parts {
        GeometryParts::Point(p) => match coord_of(&p) {
            Some(c) => Some(Shape::Point(c)),
            None => None,
        },
        GeometryParts::MultiPoint(ps) => match run_of(&ps) {
            Some(cs) => Some(Shape::MultiPoint(cs)),
            None => None,
        },
        GeometryParts::LineString(ps) => match run_of(&ps) {
            Some(cs) => Some(Shape::LineString(cs)),
            None => None,
        },
        GeometryParts::MultiLineString(ps) => match runs_of(&ps) {
            Some(cs) => Some(Shape::MultiLineString(cs)),
            None => None,
        },
        GeometryParts::Polygon(ps) => match rings_of(&ps) {
            Some(cs) => Some(Shape::Polygon(cs)),
            None => None,
        },
        GeometryParts::MultiPolygon(ps) => match polygons_of(&ps) {
            Some(cs) => Some(Shape::MultiPolygon(cs)),
            None => None,
        },
        GeometryParts::GeometryCollection(members) => {
            if depth == 0 {
                return None;
            }
            let ghost ms = members@;
            let ghost n = ms.len();
            let ghost d = (depth - 1) as nat;
            // Members are taken from the back, then turned round.
            let mut rest = members;
            let mut backwards: Vec<Shape> = Vec::new();
            while rest.len() > 0
                invariant
                    depth > 0,
                    rest@ == ms.take(rest@.len() as int),
                    rest@.len() + backwards@.len() == n,
                    forall|j: int|
                        #![trigger backwards@[j]]
                        0 <= j < backwards@.len() ==> parts_read(geometry_parts(ms[n - 1 - j]), d, backwards@[j])
                            && parts_readable(geometry_parts(ms[n - 1 - j]), d),
                decreases rest.len(),
            {
                let ghost k = rest@.len();
                let g = rest.pop().unwrap();
                assert(g == ms[k - 1]);
                assert(rest@ =~= ms.take(rest@.len() as int));
                match shape_of_geometry(g, depth - 1) {
                    Some(s) => {
                        let ghost before = backwards@;
                        backwards.push(s);
                        assert(backwards@ == before.push(s));
                        assert forall|j: int| 0 <= j < backwards@.len() implies parts_read(
                            geometry_parts(ms[n - 1 - j]),
                            d,
                            #[trigger] backwards@[j],
                        ) && parts_readable(geometry_parts(ms[n - 1 - j]), d) by {
                            if j < before.len() {
                                assert(backwards@[j] == before[j]);
                            } else {
                                assert(j == n - k);
                                assert(backwards@[j] == s);
                                assert(reads_as(g, d, s));
                            }
                        }
                    },
                    None => {
                        assert(!parts_readable(geometry_parts(ms[k - 1]), d));
                        assert(!parts_readable(whole, depth as nat));
                        return None;
                    },
                }
            }
            let mut shapes: Vec<Shape> = Vec::new();
            while backwards.len() > 0
                invariant
                    depth > 0,
                    shapes@.len() + backwards@.len() == n,
                    forall|j: int|
                        #![trigger backwards@[j]]
                        0 <= j < backwards@.len() ==> parts_read(geometry_parts(ms[n - 1 - j]), d, backwards@[j])
                            && parts_readable(geometry_parts(ms[n - 1 - j]), d),
                    forall|i: int|
                        #![trigger shapes@[i]]
                        0 <= i < shapes@.len() ==> parts_read(geometry_parts(ms[i]), d, shapes@[i])
                            && parts_readable(geometry_parts(ms[i]), d),
                decreases backwards.len(),
            {
                let s = backwards.pop().unwrap();
                shapes.push(s);
            }
            let r = Shape::GeometryCollection(shapes);
            assert forall|i: int| 0 <= i < ms.len() implies parts_readable(geometry_parts(#[trigger] ms[i]), d) by {
                assert(parts_read(geometry_parts(ms[i]), d, shapes@[i]));
            }
            assert(parts_readable(whole, depth as nat));
            assert(parts_read(whole, depth as nat, r));
            Some(r)
        },
    }
}

/// Reads a GeoJSON geometry into a `Shape`; `None` if a position is too short
/// or collections nest deeper than `depth`.
pub fn shape_of_geometry(g: geojson::Geometry, depth: usize) -> (r: Option<Shape>)
    ensures
        r is Some <==> readable(g, depth as nat),
        r matches Some(s) ==> reads_as(g, depth as nat, s),
    decreases depth, 1usize,
{
    let parts = open_geometry(g);
    shape_of_parts(parts, depth)
}

proof fn lemma_runs_coords_eq(a: Seq<Vec<Coord>>, b: Seq<Vec<Coord>>)
    requires
        a.len() == b.len(),
        forall|i: int| 0 <= i < a.len() ==> #[trigger] a[i]@ == b[i]@,
    ensures
        runs_coords(a) == runs_coords(b),
    decreases a.len(),
{
    if a.len() > 0 {
        assert forall|i: int| 0 <= i < a.drop_last().len() implies #[trigger] a.drop_last()[i]@
            == b.drop_last()[i]@ by {
            assert(a[i]@ == b[i]@);
        }
        lemma_runs_coords_eq(a.drop_last(), b.drop_last());
        assert(a[a.len() - 1]@ == b[b.len() - 1]@);
    }
}

proof fn lemma_polygons_coords_eq(a: Seq<Vec<Vec<Coord>>>, b: Seq<Vec<Vec<Coord>>>)
    requires
        a.len() == b.len(),
        forall|i: int| 0 <= i < a.len() ==> runs_coords(#[trigger] a[i]@) == runs_coords(b[i]@),
    ensures
        polygons_coords(a) == polygons_coords(b),
    decreases a.len(),
{
    if a.len() > 0 {
        assert forall|i: int| 0 <= i < a.drop_last().len() implies runs_coords(
            #[trigger] a.drop_last()[i]@,
        ) == runs_coords(b.drop_last()[i]@) by {
            assert(runs_coords(a[i]@) == runs_coords(b[i]@));
        }
        lemma_polygons_coords_eq(a.drop_last(), b.drop_last());
        assert(runs_coords(a[a.len() - 1]@) == runs_coords(b[b.len() - 1]@));
    }
}

proof fn lemma_collection_coords_eq(a: Seq<Shape>, b: Seq<Shape>)
    requires
        a.len() == b.len(),
        forall|i: int| 0 <= i < a.len() ==> shape_coords(#[trigger] a[i]) == shape_coords(b[i]),
    ensures
        collection_coords(a) == collection_coords(b),
    decreases a.len(),
{
    if a.len() > 0 {
        assert forall|i: int| 0 <= i < a.drop_last().len() implies shape_coords(
            #[trigger] a.drop_last()[i],
        ) == shape_coords(b.drop_last()[i]) by {
            assert(shape_coords(a[i]) == shape_coords(b[i]));
        }
        lemma_collection_coords_eq(a.drop_last(), b.drop_last());
        assert(shape_coords(a[a.len() - 1]) == shape_coords(b[b.len() - 1]));
    }
}

/// The parts of a geometry read as one sequence of coordinates: any two shapes
/// they read as hold the same coordinates in the same order.
pub proof fn lemma_read_coords_unique(parts: GeometryParts, d: nat, s1: Shape, s2: Shape)
    requires
        parts_read(parts, d, s1),
        parts_read(parts, d, s2),
    ensures
        shape_coords(s1) == shape_coords(s2),
    decreases d,
{
    match (parts, s1, s2) {
        (GeometryParts::MultiPoint(ps), Shape::MultiPoint(c1), Shape::MultiPoint(c2)) => {
            lemma_run_matches_coords(ps@, c1@);
            lemma_run_matches_coords(ps@, c2@);
        },
        (GeometryParts::LineString(ps), Shape::LineString(c1), Shape::LineString(c2)) => {
            lemma_run_matches_coords(ps@, c1@);
            lemma_run_matches_coords(ps@, c2@);
        },
        (GeometryParts::MultiLineString(pss), Shape::MultiLineString(c1), Shape::MultiLineString(c2)) => {
            assert forall|i: int| 0 <= i < c1@.len() implies #[trigger] c1@[i]@ == c2@[i]@ by {
                lemma_run_matches_coords(pss@[i]@, c1@[i]@);
                lemma_run_matches_coords(pss@[i]@, c2@[i]@);
            }
            lemma_runs_coords_eq(c1@, c2@);
        },
        (GeometryParts::Polygon(pss), Shape::Polygon(c1), Shape::Polygon(c2)) => {
            assert forall|i: int| 0 <= i < c1@.len() implies #[trigger] c1@[i]@ == c2@[i]@ by {
                assert(ring_matches(pss@[i]@, c1@[i]@));
                assert(ring_matches(pss@[i]@, c2@[i]@));
            }
            lemma_runs_coords_eq(c1@, c2@);
        },
        (GeometryParts::MultiPolygon(p), Shape::MultiPolygon(c1), Shape::MultiPolygon(c2)) => {
            assert forall|i: int| 0 <= i < c1@.len() implies runs_coords(#[trigger] c1@[i]@) == runs_coords(
                c2@[i]@,
            ) by {
                assert(rings_match(p@[i]@, c1@[i]@));
                assert(rings_match(p@[i]@, c2@[i]@));
                assert forall|j: int| 0 <= j < c1@[i]@.len() implies #[trigger] c1@[i]@[j]@ == c2@[i]@[j]@ by {
                    assert(ring_matches(p@[i]@[j]@, c1@[i]@[j]@));
                    assert(ring_matches(p@[i]@[j]@, c2@[i]@[j]@));
                }
                lemma_runs_coords_eq(c1@[i]@, c2@[i]@);
            }
            lemma_polygons_coords_eq(c1@, c2@);
        },
        (GeometryParts::GeometryCollection(ms), Shape::GeometryCollection(v1), Shape::GeometryCollection(v2)) => {
            assert forall|i: int| 0 <= i < v1@.len() implies shape_coords(#[trigger] v1@[i]) == shape_coords(
                v2@[i],
            ) by {
                lemma_read_coords_unique(geometry_parts(ms@[i]), (d - 1) as nat, v1@[i], v2@[i]);
            }
            lemma_collection_coords_eq(v1@, v2@);
        },
        _ => {},
    }
}

/// A geometry that reads as some shape can be read.
pub proof fn lemma_read_is_readable(parts: GeometryParts, d: nat, s: Shape)
    requires
        parts_read(parts, d, s),
    ensures
        parts_readable(parts, d),
    decreases d,
{
    match (parts, s) {
        (GeometryParts::MultiPoint(ps), Shape::MultiPoint(c)) => lemma_run_matches_coords(ps@, c@),
        (GeometryParts::LineString(ps), Shape::LineString(c)) => lemma_run_matches_coords(ps@, c@),
        (GeometryParts::MultiLineString(pss), Shape::MultiLineString(c)) => {
            assert forall|i: int| 0 <= i < pss@.len() implies run_valid(#[trigger] pss@[i]@) by {
                lemma_run_matches_coords(pss@[i]@, c@[i]@);
            }
        },
        (GeometryParts::Polygon(pss), Shape::Polygon(c)) => {
            assert forall|i: int| 0 <= i < pss@.len() implies run_valid(#[trigger] pss@[i]@) by {
                assert(ring_matches(pss@[i]@, c@[i]@));
            }
        },
        (GeometryParts::MultiPolygon(p), Shape::MultiPolygon(c)) => {
            assert forall|i: int| 0 <= i < p@.len() implies runs_valid(#[trigger] p@[i]@) by {
                assert(rings_match(p@[i]@, c@[i]@));
                assert forall|j: int| 0 <= j < p@[i]@.len() implies run_valid(#[trigger] p@[i]@[j]@) by {
                    assert(ring_matches(p@[i]@[j]@, c@[i]@[j]@));
                }
            }
        },
        (GeometryParts::GeometryCollection(ms), Shape::GeometryCollection(v)) => {
            assert forall|i: int| 0 <= i < ms@.len() implies parts_readable(
                geometry_parts(#[trigger] ms@[i]),
                (d - 1) as nat,
            ) by {
                lemma_read_is_readable(geometry_parts(ms@[i]), (d - 1) as nat, v@[i]);
            }
        },
        _ => {},
    }
}

/// What is answered for a geometry taken from a document: a geometry that
/// cannot be read is invalid; otherwise the outcome is that of the coordinate
/// checks on what it reads as, and what is returned on success is that reading.
pub open spec fn geometry_result(g: geojson::Geometry, r: Result<Shape, GeoError>) -> bool {
    if !readable(g, MAX_COLLECTION_DEPTH as nat) {
        r == Err::<Shape, GeoError>(GeoError::InvalidGeojson)
    } else {
        &&& exists|s: Shape| #[trigger] reads_as(g, MAX_COLLECTION_DEPTH as nat, s)
        &&& forall|s: Shape| #[trigger]
            reads_as(g, MAX_COLLECTION_DEPTH as nat, s) ==> outcome(r) == coords_status(s)
        &&& r matches Ok(s) ==> reads_as(g, MAX_COLLECTION_DEPTH as nat, s)
    }
}

/// What is answered for a parsed document: a bare geometry and the geometry of
/// a single feature are answered alike; a feature without geometry is empty
/// input; a feature collection is ambiguous and refused.
pub open spec fn document_result(doc: Document, r: Result<Shape, GeoError>) -> bool {
    match doc {
        Document::Geometry(g) => geometry_result(g, r),
        Document::Feature(Some(g)) => geometry_result(g, r),
        Document::Feature(None) => r == Err::<Shape, GeoError>(GeoError::EmptyInput),
        Document::FeatureCollection => r == Err::<Shape, GeoError>(GeoError::WrongGeometryType),
    }
}

/// The geometry a parsed document yields: a bare geometry, or the geometry of
/// a single feature. A feature without geometry is empty input; a feature
/// collection is ambiguous and refused; a geometry that cannot be read is
/// invalid. The coordinates are then checked.
pub fn shape_of_document(doc: Document) -> (r: Result<Shape, GeoError>)
    ensures
        document_result(doc, r),
        r matches Ok(s) ==> coords_finite(shape_coords(s)) && coords_pass(shape_coords(s), CoordTest::InRange)
            && coord_count(s) <= MAX_COORDS,
        r matches Err(e) ==> e == GeoError::WrongGeometryType || e == GeoError::EmptyInput
            || e == GeoError::InvalidGeojson || e == GeoError::NonFiniteCoord || e == GeoError::OutOfRange
            || e == GeoError::TooManyCoords,
{
    let g = match doc {
        Document::Geometry(g) => g,
        Document::Feature(Some(g)) => g,
        Document::Feature(None) => return Err(GeoError::EmptyInput),
        Document::FeatureCollection => return Err(GeoError::WrongGeometryType),
    };
    let ghost taken = g;
    let shape = match shape_of_geometry(g, MAX_COLLECTION_DEPTH) {
        Some(s) => s,
        None => return Err(GeoError::InvalidGeojson),
    };
    let checked = check_coords(&shape);
    proof {
        let d = MAX_COLLECTION_DEPTH as nat;
        assert(reads_as(taken, d, shape));
        assert forall|s: Shape| #[trigger] reads_as(taken, d, s) implies coords_status(s) == coords_status(
            shape,
        ) by {
            lemma_read_coords_unique(geometry_parts(taken), d, s, shape);
        }
    }
    match checked {
        Ok(()) => Ok(shape),
        Err(e) => Err(e),
    }
}

/// Parses GeoJSON text into a geometry, enforcing the input caps and rejecting
/// non-finite coordinates. A bare geometry, or a single Feature wrapping one,
/// is accepted; a FeatureCollection is refused as ambiguous.
pub fn parse_geometry(geojson: &str) -> (r: Result<Shape, GeoError>)
    ensures
        r == Err::<Shape, GeoError>(GeoError::InputTooLong) <==> geojson.len() > MAX_GEOJSON_LEN,
        geojson.len() <= MAX_GEOJSON_LEN && is_blank(geojson@)
            ==> r == Err::<Shape, GeoError>(GeoError::EmptyInput),
        geojson.len() <= MAX_GEOJSON_LEN && !is_blank(geojson@)
            && !geojson_accepts(trim_white(geojson@))
            ==> r == Err::<Shape, GeoError>(GeoError::InvalidGeojson),
        geojson.len() <= MAX_GEOJSON_LEN && !is_blank(geojson@) && geojson_accepts(trim_white(geojson@))
            ==> document_result(geojson_document(trim_white(geojson@)), r),
        r matches Err(e) ==> e == GeoError::InputTooLong || e == GeoError::EmptyInput
            || e == GeoError::InvalidGeojson || e == GeoError::WrongGeometryType
            || e == GeoError::NonFiniteCoord || e == GeoError::OutOfRange || e == GeoError::TooManyCoords,
        r matches Ok(s) ==> coords_finite(shape_coords(s)) && coords_pass(shape_coords(s), CoordTest::InRange)
            && coord_count(s) <= MAX_COORDS,
{
    if geojson.len() > MAX_GEOJSON_LEN {
        return Err(GeoError::InputTooLong);
    }
    let s = trim(geojson);
    if s.is_empty() {
        return Err(GeoError::EmptyInput);
    }
    let doc = match parse_document(s) {
        Ok(d) => d,
        Err(_) => return Err(GeoError::InvalidGeojson),
    };
    shape_of_document(doc)
}

} // verus!
