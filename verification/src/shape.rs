//! A plain-value model of a GeoJSON geometry, with coordinates held as
//! IEEE-754 bit patterns, and the checks that every parsed geometry passes.
use vstd::prelude::*;

use crate::error::GeoError;
use crate::ieee::{finite, is_finite, point_in_range, point_status};

verus! {

/// Most coordinates a parsed geometry may hold.
pub const MAX_COORDS: usize = 100_000;

/// A `[longitude, latitude]` position; each part is a binary64 bit pattern.
#[derive(Debug, Clone, Copy, PartialEq, Eq, Structural)]
pub struct Coord {
    pub x: u64,
    pub y: u64,
}

/// A geometry with the structure of a GeoJSON geometry object.
#[derive(Debug)]
pub enum Shape {
    Point(Coord),
    MultiPoint(Vec<Coord>),
    LineString(Vec<Coord>),
    /// A sequence of line strings.
    MultiLineString(Vec<Vec<Coord>>),
    /// The exterior ring first, then the interior rings.
    Polygon(Vec<Vec<Coord>>),
    MultiPolygon(Vec<Vec<Vec<Coord>>>),
    GeometryCollection(Vec<Shape>),
}

/// The coordinates of a sequence of runs, one run after another.
pub open spec fn runs_coords(rs: Seq<Vec<Coord>>) -> Seq<Coord>
    decreases rs.len(),
{
    if rs.len() == 0 {
        Seq::empty()
    } else {
        runs_coords(rs.drop_last()) + rs.last()@
    }
}

/// The coordinates of a sequence of polygons, ring by ring.
pub open spec fn polygons_coords(ps: Seq<Vec<Vec<Coord>>>) -> Seq<Coord>
    decreases ps.len(),
{
    if ps.len() == 0 {
        Seq::empty()
    } else {
        polygons_coords(ps.drop_last()) + runs_coords(ps.last()@)
    }
}

/// Every coordinate of a geometry, in document order.
pub open spec fn shape_coords(s: Shape) -> Seq<Coord>
    decreases s,
{
    match s {
        Shape::Point(c) => seq![c],
        Shape::MultiPoint(v) => v@,
        Shape::LineString(v) => v@,
        Shape::MultiLineString(v) => runs_coords(v@),
        Shape::Polygon(v) => runs_coords(v@),
        Shape::MultiPolygon(v) => polygons_coords(v@),
        Shape::GeometryCollection(v) => collection_coords(v@),
    }
}

/// Every coordinate of a sequence of geometries, in order.
pub open spec fn collection_coords(ss: Seq<Shape>) -> Seq<Coord>
    decreases ss,
{
    if ss.len() == 0 {
        Seq::empty()
    } else {
        collection_coords(ss.drop_last()) + shape_coords(ss.last())
    }
}

/// A test that every coordinate of a parsed geometry must pass.
#[derive(Debug, Clone, Copy, PartialEq, Eq, Structural)]
pub enum CoordTest {
    /// Both parts are finite.
    Finite,
    /// A valid WGS-84 position: finite, |latitude| <= 90, |longitude| <= 180.
    InRange,
}

/// The coordinate passes the test.
pub open spec fn coord_passes(c: Coord, t: CoordTest) -> bool {
    match t {
        CoordTest::Finite => is_finite(c.x) && is_finite(c.y),
        CoordTest::InRange => point_status(c.x, c.y) is Ok,
    }
}

/// Every coordinate passes the test.
pub open spec fn coords_pass(cs: Seq<Coord>, t: CoordTest) -> bool {
    forall|i: int| #![trigger cs[i]] 0 <= i < cs.len() ==> coord_passes(cs[i], t)
}

/// Both parts of every coordinate are finite.
pub open spec fn coords_finite(cs: Seq<Coord>) -> bool {
    coords_pass(cs, CoordTest::Finite)
}

/// How many coordinates a geometry holds.
pub open spec fn coord_count(s: Shape) -> nat {
    shape_coords(s).len()
}

/// `n`, but no more than `cap`.
pub open spec fn capped(n: nat, cap: nat) -> nat {
    if n < cap {
        n
    } else {
        cap
    }
}

/// Both parts of a concatenation pass a test exactly when the whole does.
pub proof fn lemma_pass_concat(a: Seq<Coord>, b: Seq<Coord>, t: CoordTest)
    ensures
        coords_pass(a + b, t) <==> coords_pass(a, t) && coords_pass(b, t),
{
    if coords_pass(a + b, t) {
        assert forall|i: int| 0 <= i < a.len() implies coord_passes(#[trigger] a[i], t) by {
            assert((a + b)[i] == a[i]);
        }
        assert forall|i: int| 0 <= i < b.len() implies coord_passes(#[trigger] b[i], t) by {
            assert((a + b)[a.len() + i] == b[i]);
        }
    }
    if coords_pass(a, t) && coords_pass(b, t) {
        assert forall|i: int| 0 <= i < (a + b).len() implies coord_passes(#[trigger] (a + b)[i], t) by {
            if i < a.len() {
                assert((a + b)[i] == a[i]);
            } else {
                assert((a + b)[i] == b[i - a.len()]);
            }
        }
    }
}

/// Both parts of a concatenation are finite exactly when the whole is.
pub proof fn lemma_finite_concat(a: Seq<Coord>, b: Seq<Coord>)
    ensures
        coords_finite(a + b) <==> coords_finite(a) && coords_finite(b),
{
    lemma_pass_concat(a, b, CoordTest::Finite);
}

fn coord_test(c: Coord, t: CoordTest) -> (r: bool)
    ensures
        r == coord_passes(c, t),
{
    match t {
        CoordTest::Finite => finite(c.x) && finite(c.y),
        CoordTest::InRange => point_in_range(c.x, c.y).is_ok(),
    }
}

fn run_passes(v: &Vec<Coord>, t: CoordTest) -> (r: bool)
    ensures
        r == coords_pass(v@, t),
{
    let mut i: usize = 0;
    while i < v.len()
        invariant
            i <= v.len(),
            coords_pass(v@.take(i as int), t),
        decreases v.len() - i,
    {
        if !coord_test(v[i], t) {
            assert(!coords_pass(v@, t)) by {
                assert(v@[i as int] == v[i as int]);
            }
            return false;
        }
        proof {
            lemma_pass_concat(v@.take(i as int), seq![v@[i as int]], t);
            assert(v@.take(i as int) + seq![v@[i as int]] =~= v@.take(i + 1));
        }
        i = i + 1;
    }
    assert(v@.take(i as int) =~= v@);
    true
}

fn runs_pass(v: &Vec<Vec<Coord>>, t: CoordTest) -> (r: bool)
    ensures
        r == coords_pass(runs_coords(v@), t),
{
    let mut i: usize = 0;
    let mut ok = true;
    while i < v.len()
        invariant
            i <= v.len(),
            ok == coords_pass(runs_coords(v@.take(i as int)), t),
        decreases v.len() - i,
    {
        let f = run_passes(&v[i], t);
        proof {
            assert(v@.take(i + 1).drop_last() =~= v@.take(i as int));
            lemma_pass_concat(runs_coords(v@.take(i as int)), v@[i as int]@, t);
        }
        ok = ok && f;
        i = i + 1;
    }
    assert(v@.take(i as int) =~= v@);
    ok
}

fn polygons_pass(v: &Vec<Vec<Vec<Coord>>>, t: CoordTest) -> (r: bool)
    ensures
        r == coords_pass(polygons_coords(v@), t),
{
    let mut i: usize = 0;
    let mut ok = true;
    while i < v.len()
        invariant
            i <= v.len(),
            ok == coords_pass(polygons_coords(v@.take(i as int)), t),
        decreases v.len() - i,
    {
        let f = runs_pass(&v[i], t);
        proof {
            assert(v@.take(i + 1).drop_last() =~= v@.take(i as int));
            lemma_pass_concat(polygons_coords(v@.take(i as int)), runs_coords(v@[i as int]@), t);
        }
        ok = ok && f;
        i = i + 1;
    }
    assert(v@.take(i as int) =~= v@);
    ok
}

/// Whether every coordinate of the geometry passes the test.
pub fn shape_passes(s: &Shape, t: CoordTest) -> (r: bool)
    ensures
        r == coords_pass(shape_coords(*s), t),
    decreases s,
{
    match s {
        Shape::Point(c) => {
            assert(seq![*c][0] == *c);
            coord_test(*c, t)
        },
        Shape::MultiPoint(v) => run_passes(v, t),
        Shape::LineString(v) => run_passes(v, t),
        Shape::MultiLineString(v) => runs_pass(v, t),
        Shape::Polygon(v) => runs_pass(v, t),
        Shape::MultiPolygon(v) => polygons_pass(v, t),
        Shape::GeometryCollection(v) => {
            proof {
                assert forall|j: int| 0 <= j < v@.len() implies decreases_to!(*s => #[trigger] v@[j]) by {
                    assert(decreases_to!(*s => *v));
                    assert(decreases_to!(*v => v@));
                    assert(decreases_to!(v@ => v@[j]));
                }
            }
            let mut i: usize = 0;
            let mut ok = true;
            while i < v.len()
                invariant
                    i <= v.len(),
                    forall|j: int| 0 <= j < v@.len() ==> decreases_to!(*s => #[trigger] v@[j]),
                    ok == coords_pass(collection_coords(v@.take(i as int)), t),
                decreases v.len() - i,
            {
                assert(decreases_to!(*s => v@[i as int]));
                let f = shape_passes(&v[i], t);
                proof {
                    assert(v@.take(i + 1).drop_last() =~= v@.take(i as int));
                    lemma_pass_concat(
                        collection_coords(v@.take(i as int)),
                        shape_coords(v@[i as int]),
                        t,
                    );
                }
                ok = ok && f;
                i = i + 1;
            }
            assert(v@.take(i as int) =~= v@);
            ok
        },
    }
}

fn add_capped(a: usize, b: usize, cap: usize) -> (r: usize)
    requires
        a <= cap,
    ensures
        r == capped((a + b) as nat, cap as nat),
{
    if b >= cap - a {
        cap
    } else {
        a + b
    }
}

fn runs_count(v: &Vec<Vec<Coord>>, cap: usize) -> (r: usize)
    ensures
        r == capped(runs_coords(v@).len(), cap as nat),
{
    let mut i: usize = 0;
    let mut n: usize = 0;
    while i < v.len()
        invariant
            i <= v.len(),
            n == capped(runs_coords(v@.take(i as int)).len(), cap as nat),
        decreases v.len() - i,
    {
        proof {
            let t = v@.take(i + 1);
            assert(t.drop_last() =~= v@.take(i as int));
        }
        n = add_capped(n, v[i].len(), cap);
        i = i + 1;
    }
    assert(v@.take(i as int) =~= v@);
    n
}

fn polygons_count(v: &Vec<Vec<Vec<Coord>>>, cap: usize) -> (r: usize)
    ensures
        r == capped(polygons_coords(v@).len(), cap as nat),
{
    let mut i: usize = 0;
    let mut n: usize = 0;
    while i < v.len()
        invariant
            i <= v.len(),
            n == capped(polygons_coords(v@.take(i as int)).len(), cap as nat),
        decreases v.len() - i,
    {
        proof {
            let t = v@.take(i + 1);
            assert(t.drop_last() =~= v@.take(i as int));
        }
        let k = runs_count(&v[i], cap);
        n = add_capped(n, k, cap);
        i = i + 1;
    }
    assert(v@.take(i as int) =~= v@);
    n
}

/// The number of coordinates in the geometry, counted up to `cap`.
pub fn count_coords(s: &Shape, cap: usize) -> (r: usize)
    ensures
        r == capped(coord_count(*s), cap as nat),
    decreases s,
{
    match s {
        Shape::Point(_) => if cap == 0 { 0 } else { 1 },
        Shape::MultiPoint(v) => add_capped(0, v.len(), cap),
        Shape::LineString(v) => add_capped(0, v.len(), cap),
        Shape::MultiLineString(v) => runs_count(v, cap),
        Shape::Polygon(v) => runs_count(v, cap),
        Shape::MultiPolygon(v) => polygons_count(v, cap),
        Shape::GeometryCollection(v) => {
            proof {
                assert forall|j: int| 0 <= j < v@.len() implies decreases_to!(*s => #[trigger] v@[j]) by {
                    assert(decreases_to!(*s => *v));
                    assert(decreases_to!(*v => v@));
                    assert(decreases_to!(v@ => v@[j]));
                }
            }
            let mut i: usize = 0;
            let mut n: usize = 0;
            while i < v.len()
                invariant
                    i <= v.len(),
                    forall|j: int| 0 <= j < v@.len() ==> decreases_to!(*s => #[trigger] v@[j]),
                    n == capped(collection_coords(v@.take(i as int)).len(), cap as nat),
                decreases v.len() - i,
            {
                assert(decreases_to!(*s => v@[i as int]));
                proof {
                    let t = v@.take(i + 1);
                    assert(t.drop_last() =~= v@.take(i as int));
                }
                let k = count_coords(&v[i], cap);
                n = add_capped(n, k, cap);
                i = i + 1;
            }
            assert(v@.take(i as int) =~= v@);
            n
        },
    }
}

/// Success or the error, without the geometry.
pub open spec fn outcome(r: Result<Shape, GeoError>) -> Result<(), GeoError> {
    match r {
        Ok(_) => Ok(()),
        Err(e) => Err(e),
    }
}

/// The outcome of the coordinate checks on a parsed geometry.
pub open spec fn coords_status(s: Shape) -> Result<(), GeoError> {
    if !coords_pass(shape_coords(s), CoordTest::Finite) {
        Err(GeoError::NonFiniteCoord)
    } else if !coords_pass(shape_coords(s), CoordTest::InRange) {
        Err(GeoError::OutOfRange)
    } else if coord_count(s) > MAX_COORDS {
        Err(GeoError::TooManyCoords)
    } else {
        Ok(())
    }
}

/// The coordinate checks that every parsed geometry passes: a non-finite
/// coordinate anywhere is reported first, then a coordinate outside the WGS-84
/// range; otherwise more than `MAX_COORDS` coordinates is too many.
pub fn check_coords(s: &Shape) -> (r: Result<(), GeoError>)
    ensures
        r == coords_status(*s),
        r is Ok ==> coords_pass(shape_coords(*s), CoordTest::InRange),
{
    if !shape_passes(s, CoordTest::Finite) {
        return Err(GeoError::NonFiniteCoord);
    }
    if !shape_passes(s, CoordTest::InRange) {
        return Err(GeoError::OutOfRange);
    }
    if count_coords(s, MAX_COORDS + 1) > MAX_COORDS {
        return Err(GeoError::TooManyCoords);
    }
    Ok(())
}

} // verus!
