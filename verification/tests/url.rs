use maps_to_gpx::parser::url::{find_polyline_in_data, is_likely_polyline, parse, urlencoding_decode, UrlParseError};

#[test]
fn test_parse_simple_dir_url() {
    let url = "https://www.google.com/maps/dir/37.7749,-122.4194/37.7835,-122.4089/@37.78,-122.41,14z";
    let route = parse(url).unwrap();
    assert!(!route.waypoints.is_empty());
}

#[test]
fn test_not_google_maps() {
    let url = "https://www.example.com/maps/dir/";
    let result = parse(url);
    assert!(matches!(result, Err(UrlParseError::NotGoogleMaps)));
}

#[test]
fn test_parse_url_with_two_coordinates() {
    let url = "https://www.google.com/maps/dir/40.7128,-74.0060/40.7580,-73.9855";
    let route = parse(url).unwrap();
    assert_eq!(route.waypoints.len(), 2);
    assert_eq!(route.waypoints[0].name, Some("Start".to_string()));
    assert_eq!(route.waypoints[1].name, Some("End".to_string()));
}

#[test]
fn test_parse_url_creates_track() {
    let url = "https://www.google.com/maps/dir/37.7749,-122.4194/37.7835,-122.4089";
    let route = parse(url).unwrap();
    assert_eq!(route.tracks.len(), 1);
    assert_eq!(route.tracks[0].segments[0].points.len(), 2);
}

#[test]
fn test_invalid_url_format() {
    let url = "not a valid url at all";
    let result = parse(url);
    assert!(matches!(result, Err(UrlParseError::InvalidUrl(_))));
}

#[test]
fn test_google_maps_url_without_dir() {
    let url = "https://www.google.com/maps/@37.7749,-122.4194,14z";
    let result = parse(url);
    assert!(matches!(result, Err(UrlParseError::NoRouteData)));
}

#[test]
fn test_maps_app_goo_gl_domain() {
    let url = "https://maps.app.goo.gl/abc123";
    let result = parse(url);
    assert!(matches!(result, Err(UrlParseError::NoRouteData)));
}

#[test]
fn test_coordinate_validation() {
    let url = "https://www.google.com/maps/dir/91.0,-122.4194/37.7835,-122.4089";
    let route = parse(url).unwrap();
    assert_eq!(route.waypoints.len(), 1);
}

#[test]
fn test_parse_url_with_data_coordinates() {
    let url = "https://www.google.com/maps/dir/Place+A/Place+B/@25.5,84.8,14z/data=!3m1!4b1!4m14!4m13!1m5!1m1!1s0x123!2m2!1d84.8512966!2d25.5356448!1m5!1m1!1s0x456!2m2!1d84.8840545!2d25.591585!3e0";
    let route = parse(url).unwrap();
    assert_eq!(route.waypoints.len(), 2);
    assert!((route.waypoints[0].coord.lat_e5 as f64 / 1e5 - 25.5356448).abs() < 0.0001);
    assert!((route.waypoints[0].coord.lon_e5 as f64 / 1e5 - 84.8512966).abs() < 0.0001);
}

#[test]
fn test_parse_expanded_short_url() {
    let url = "https://www.google.com/maps/dir/IIT+Patna,+Bihta+Kanpa+Road,+Patna,+Dayalpur+Daulatpur,+Bihar/HVWH%2B3W+Bihta+Airport,+Dekuli,+Bihar+801103/@25.5666066,84.8477856,14z/data=!3m1!4b1!4m14!4m13!1m5!1m1!1s0x39ed577f6954a4ab:0x6ce8f1b9fc2aa02a!2m2!1d84.8512966!2d25.5356448!1m5!1m1!1s0x3992ab257eb68047:0x22bc522cc726e04f!2m2!1d84.8840545!2d25.591585!3e0";
    let route = parse(url).unwrap();
    assert_eq!(route.waypoints.len(), 2);
    assert_eq!(route.tracks.len(), 1);
}

#[test]
fn test_polyline_overrides_path_track() {
    // Both /dir/ coordinates and an embedded polyline: the waypoints come
    // from the path, the track geometry from the polyline.
    let url = "https://www.google.com/maps/dir/10.0,20.0/11.0,21.0/data=!4m2!1m1!1s_p~iF~ps|U_ulLnnqC";
    let route = parse(url).unwrap();
    assert_eq!(route.waypoints.len(), 2);
    assert_eq!(route.waypoints[0].name, Some("Start".to_string()));
    assert_eq!(route.waypoints[0].coord.lat_e5, 1000000);
    assert_eq!(route.tracks.len(), 1);
    assert_eq!(route.tracks[0].segments.len(), 1);
    // The decoded polyline points, not the path coordinates.
    assert_eq!(route.tracks[0].segments[0].points.len(), 2);
    assert_eq!(route.tracks[0].segments[0].points[0].lat_e5, 3850000);
    assert_eq!(route.tracks[0].segments[0].points[1].lon_e5, -12095000);
}

#[test]
fn test_data_pairs_ignored_when_path_has_coordinates() {
    let url = "https://www.google.com/maps/dir/40.7128,-74.0060/40.7580,-73.9855/data=!1d84.8512966!2d25.5356448";
    let route = parse(url).unwrap();
    // The fallback pair (25.53…, 84.85…) must not appear.
    assert_eq!(route.waypoints.len(), 2);
    assert_eq!(route.waypoints[0].coord.lat_e5, 4071280);
    assert_eq!(route.waypoints[1].coord.lat_e5, 4075800);
}

#[test]
fn test_host_check_reads_host_only() {
    // A foreign host is rejected even when its path names google.com.
    let url = "https://www.example.com/google.com/dir/38.5,-120.2";
    assert!(matches!(parse(url), Err(UrlParseError::NotGoogleMaps)));
}

#[test]
fn test_dir_in_query_is_not_a_path() {
    // "/dir/" appearing only in the query is not a path strategy hit.
    let url = "https://www.google.com/maps?x=/dir/38.5,-120.2";
    assert!(matches!(parse(url), Err(UrlParseError::NoRouteData)));
}

#[test]
fn test_polyline_from_query_data_parameter() {
    let url = "https://www.google.com/maps?data=!4m2!1m1!1s_p~iF~ps|U_ulLnnqC";
    let route = parse(url).unwrap();
    assert_eq!(route.waypoints.len(), 0);
    assert_eq!(route.tracks.len(), 1);
    assert_eq!(route.tracks[0].segments[0].points.len(), 2);
}

#[test]
fn test_middle_waypoints_are_numbered() {
    let url = "https://www.google.com/maps/dir/38.5,-120.2/39.0,-120.5/40.7,-120.95";
    let route = parse(url).unwrap();
    assert_eq!(route.waypoints.len(), 3);
    assert_eq!(route.waypoints[0].name, Some("Start".to_string()));
    assert_eq!(route.waypoints[1].name, Some("Waypoint 1".to_string()));
    assert_eq!(route.waypoints[2].name, Some("End".to_string()));
}

#[test]
fn test_percent_decoding() {
    assert_eq!(urlencoding_decode("%41%42c"), "ABc".to_string());
    assert_eq!(urlencoding_decode("40%2E7,%2D74"), "40.7,-74".to_string());
    // A malformed escape stays as written.
    assert_eq!(urlencoding_decode("%4"), "%4".to_string());
    assert_eq!(urlencoding_decode("%zz"), "%zz".to_string());
}

#[test]
fn test_percent_encoded_path_coordinate() {
    // The comma written as %2C still reads as a coordinate.
    let url = "https://www.google.com/maps/dir/40.7128%2C-74.0060/40.7580%2C-73.9855";
    let route = parse(url).unwrap();
    assert_eq!(route.waypoints.len(), 2);
    assert_eq!(route.waypoints[0].coord.lon_e5, -7400600);
}

#[test]
fn test_likely_polyline_rejects_slash_and_bang() {
    assert!(is_likely_polyline("_p~iF~ps|U_ulL"));
    assert!(!is_likely_polyline("abc/def_longer"));
    assert!(!is_likely_polyline("abc def_longer"));
}

#[test]
fn test_find_polyline_needs_marker_pair() {
    assert_eq!(
        find_polyline_in_data("!4m2!1m1!1s_p~iF~ps|U_ulL!3e0"),
        Some("_p~iF~ps|U_ulL".to_string())
    );
    // Too short a remainder, or no 1m/2m marker before it: no candidate.
    assert_eq!(find_polyline_in_data("!1m1!1sshort"), None);
    assert_eq!(find_polyline_in_data("!3m1!1s_p~iF~ps|U_ulL"), None);
}
