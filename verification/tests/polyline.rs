use maps_to_gpx::parser::polyline::{decode, decode_value, PolylineError};

#[test]
fn test_decode_simple() {
    let encoded = "_p~iF~ps|U_ulLnnqC_mqNvxq`@";
    let coords = decode(encoded).unwrap();
    assert_eq!(coords.len(), 3);
    assert!((coords[0].lat_e5 as f64 / 1e5 - 38.5).abs() < 0.001);
    assert!((coords[0].lon_e5 as f64 / 1e5 - (-120.2)).abs() < 0.001);
}

#[test]
fn test_decode_single_point() {
    let encoded = "_p~iF~ps|U";
    let coords = decode(encoded).unwrap();
    assert_eq!(coords.len(), 1);
}

#[test]
fn test_decode_empty_string() {
    let encoded = "";
    let coords = decode(encoded).unwrap();
    assert!(coords.is_empty());
}

#[test]
fn test_decode_invalid_characters() {
    let encoded = "!!!invalid!!!";
    let result = decode(encoded);
    assert!(result.is_err());
}

#[test]
fn test_decode_coordinate_precision() {
    let encoded = "_p~iF~ps|U";
    let coords = decode(encoded).unwrap();
    assert!((coords[0].lat_e5 as f64 / 1e5 - 38.5).abs() < 0.00001);
    assert!((coords[0].lon_e5 as f64 / 1e5 - (-120.2)).abs() < 0.00001);
}

#[test]
fn test_decode_exact_values() {
    // The decoded accumulators are exact fixed-point values.
    let coords = decode("_p~iF~ps|U").unwrap();
    assert_eq!(coords[0].lat_e5, 3850000);
    assert_eq!(coords[0].lon_e5, -12020000);
    assert_eq!(coords[0].ele_e5, None);
}

#[test]
fn test_decode_invalid_byte_kind() {
    // A byte below 63 gives InvalidEncoding, not UnexpectedEnd.
    assert!(matches!(decode("!"), Err(PolylineError::InvalidEncoding)));
    assert!(matches!(decode("_p~iF~ps|U!"), Err(PolylineError::InvalidEncoding)));
}

#[test]
fn test_decode_truncated_value() {
    // '_' (95) opens a continued value that never ends.
    assert!(matches!(decode("_"), Err(PolylineError::UnexpectedEnd)));
    // A complete latitude followed by nothing: the longitude is missing.
    assert!(matches!(decode("_p~iF"), Err(PolylineError::UnexpectedEnd)));
}

#[test]
fn test_decode_deltas_accumulate() {
    let coords = decode("_p~iF~ps|U_ulLnnqC_mqNvxq`@").unwrap();
    assert_eq!(coords[1].lat_e5, 4070000);
    assert_eq!(coords[1].lon_e5, -12095000);
    assert_eq!(coords[2].lat_e5, 4325200);
    assert_eq!(coords[2].lon_e5, -12645300);
}

#[test]
fn test_decode_value_thirteen_chunks() {
    // Twelve zero continuation chunks plus a terminator: a complete value
    // of zero, thirteen chunks wide.
    let bytes = "____________?".as_bytes();
    assert_eq!(decode_value(bytes, 0), Ok((0, 13)));
}

#[test]
fn test_decode_truncation_beyond_twelve_chunks() {
    // Thirteen continuation bytes end mid-value: truncation, not a bad byte.
    assert!(matches!(
        decode("_____________"),
        Err(PolylineError::UnexpectedEnd)
    ));
}

#[test]
fn test_decode_value_beyond_word() {
    // The thirteenth chunk carries weight 2 to the 64th: no delta fits.
    let bytes = "____________O".as_bytes();
    assert!(matches!(
        decode_value(bytes, 0),
        Err(PolylineError::InvalidEncoding)
    ));
}
