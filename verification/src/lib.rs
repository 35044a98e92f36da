//! Conversion of geographic route descriptions into one normalized model.
//!
//! Three producers — a heuristic Google Maps URL extractor, a KML document
//! walker and a decoder for Google's signed-varint polyline format — fill
//! the same [`types::Route`] value, which the GPX writer serializes.
//! Coordinates are held in fixed point: degrees scaled by `1e5`, the
//! native resolution of the polyline format.

pub mod gpx;
pub mod parser;
pub mod text;
pub mod types;
