pub mod kml;
pub mod polyline;
pub mod url;
