//! Geospatial geometry checks over GeoJSON input: validation of WGS-84
//! coordinates, parsing of GeoJSON geometries into a plain-value model, and the
//! decisions each geometry operation takes before and after its numeric work.
//!
//! Coordinates are carried as IEEE-754 binary64 bit patterns (`u64`); the
//! `ieee` module gives those patterns their exact real value.

pub mod error;
pub mod ieee;
pub mod shape;
pub mod text;
pub mod document;
pub mod bbox;
pub mod nodes;
pub mod laws;
