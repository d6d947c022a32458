use vstd::prelude::*;

verus! {

/// The machine-readable failure reasons that every operation reports.
#[derive(Debug, Clone, Copy, PartialEq, Eq, Structural)]
pub enum GeoError {
    /// The raw GeoJSON text is longer than the accepted maximum.
    InputTooLong,
    /// The GeoJSON text is blank, or a Feature carries no geometry.
    EmptyInput,
    /// The text is not a GeoJSON object.
    InvalidGeojson,
    /// The geometry kind does not suit the operation.
    WrongGeometryType,
    /// A coordinate or numeric argument is NaN or infinite.
    NonFiniteCoord,
    /// The geometry holds more coordinates than the operation accepts.
    TooManyCoords,
    /// A value lies outside its permitted range.
    OutOfRange,
    /// The geometry has no coordinates to work on.
    EmptyGeometry,
    /// Fewer than three non-collinear points: no polygon can be formed.
    Degenerate,
}

impl GeoError {
    /// The stable token that names this error.
    pub open spec fn spec_token(self) -> Seq<char> {
        match self {
            GeoError::InputTooLong => "INPUT_TOO_LONG"@,
            GeoError::EmptyInput => "EMPTY_INPUT"@,
            GeoError::InvalidGeojson => "INVALID_GEOJSON"@,
            GeoError::WrongGeometryType => "WRONG_GEOMETRY_TYPE"@,
            GeoError::NonFiniteCoord => "NON_FINITE_COORD"@,
            GeoError::TooManyCoords => "TOO_MANY_COORDS"@,
            GeoError::OutOfRange => "OUT_OF_RANGE"@,
            GeoError::EmptyGeometry => "EMPTY_GEOMETRY"@,
            GeoError::Degenerate => "DEGENERATE"@,
        }
    }

    /// The stable token that names this error, e.g. `"OUT_OF_RANGE"`.
    pub fn token(&self) -> (r: &'static str)
        ensures
            r@ == self.spec_token(),
    {
        match self {
            GeoError::InputTooLong => "INPUT_TOO_LONG",
            GeoError::EmptyInput => "EMPTY_INPUT",
            GeoError::InvalidGeojson => "INVALID_GEOJSON",
            GeoError::WrongGeometryType => "WRONG_GEOMETRY_TYPE",
            GeoError::NonFiniteCoord => "NON_FINITE_COORD",
            GeoError::TooManyCoords => "TOO_MANY_COORDS",
            GeoError::OutOfRange => "OUT_OF_RANGE",
            GeoError::EmptyGeometry => "EMPTY_GEOMETRY",
            GeoError::Degenerate => "DEGENERATE",
        }
    }
}

} // verus!
