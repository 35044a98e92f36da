use maps_to_gpx::gpx::writer;
use maps_to_gpx::types::{Coordinate, Route, Track, TrackSegment, Waypoint};

#[test]
fn test_write_simple_gpx() {
    let mut route = Route::with_name("Test Route".to_string());
    route.add_waypoint(Waypoint::with_name(
        Coordinate::new(3777490, -12241940),
        "San Francisco".to_string(),
    ));

    let gpx = writer::write(&route).unwrap();
    assert!(gpx.contains("Test Route"));
    assert!(gpx.contains("37.7749"));
    assert!(gpx.contains("-122.4194"));
    assert!(gpx.contains("San Francisco"));
}

#[test]
fn test_write_track() {
    let mut route = Route::new();
    let segment = TrackSegment::new(vec![
        Coordinate::new(3777490, -12241940),
        Coordinate::new(3778350, -12240890),
    ]);
    route.add_track(Track::new(vec![segment]));

    let gpx = writer::write(&route).unwrap();
    assert!(gpx.contains("<trk>"));
    assert!(gpx.contains("<trkseg>"));
    assert!(gpx.contains("<trkpt"));
}

#[test]
fn test_write_gpx_header() {
    let route = Route::new();
    let gpx = writer::write(&route).unwrap();
    assert!(gpx.starts_with("<?xml version=\"1.0\" encoding=\"UTF-8\"?>"));
    assert!(gpx.contains("version=\"1.1\""));
    assert!(gpx.contains("creator=\"maps-to-gpx\""));
    assert!(gpx.contains("xmlns=\"http://www.topografix.com/GPX/1/1\""));
}

#[test]
fn test_write_waypoint_with_elevation() {
    let mut route = Route::new();
    route.add_waypoint(Waypoint::new(Coordinate::with_elevation(3777490, -12241940, 10050000)));

    let gpx = writer::write(&route).unwrap();
    assert!(gpx.contains("<ele>100.5</ele>"));
}

#[test]
fn test_write_track_with_name() {
    let mut route = Route::new();
    let segment = TrackSegment::new(vec![Coordinate::new(3777490, -12241940)]);
    route.add_track(Track::with_name("My Ride".to_string(), vec![segment]));

    let gpx = writer::write(&route).unwrap();
    assert!(gpx.contains("<name>My Ride</name>"));
}

#[test]
fn test_write_empty_route() {
    let route = Route::new();
    let gpx = writer::write(&route).unwrap();
    assert!(gpx.contains("<gpx"));
    assert!(gpx.contains("</gpx>"));
    assert!(gpx.contains("<metadata>"));
}

#[test]
fn test_write_multiple_tracks() {
    let mut route = Route::new();
    let segment1 = TrackSegment::new(vec![Coordinate::new(3777490, -12241940)]);
    let segment2 = TrackSegment::new(vec![Coordinate::new(4071280, -7400600)]);
    route.add_track(Track::new(vec![segment1]));
    route.add_track(Track::new(vec![segment2]));

    let gpx = writer::write(&route).unwrap();
    let trk_count = gpx.matches("<trk>").count();
    assert_eq!(trk_count, 2);
}

#[test]
fn test_write_track_multiple_segments() {
    let mut route = Route::new();
    let segment1 = TrackSegment::new(vec![Coordinate::new(3777490, -12241940)]);
    let segment2 = TrackSegment::new(vec![Coordinate::new(3778350, -12240890)]);
    route.add_track(Track::new(vec![segment1, segment2]));

    let gpx = writer::write(&route).unwrap();
    let trkseg_count = gpx.matches("<trkseg>").count();
    assert_eq!(trkseg_count, 2);
}

#[test]
fn test_write_exact_document() {
    let mut route = Route::with_name("A".to_string());
    route.add_waypoint(Waypoint::new(Coordinate::new(100000, -50000)));
    let gpx = writer::write(&route).unwrap();
    assert_eq!(
        gpx,
        "<?xml version=\"1.0\" encoding=\"UTF-8\"?>\
         <gpx version=\"1.1\" creator=\"maps-to-gpx\" \
         xmlns=\"http://www.topografix.com/GPX/1/1\" \
         xmlns:xsi=\"http://www.w3.org/2001/XMLSchema-instance\" \
         xsi:schemaLocation=\"http://www.topografix.com/GPX/1/1 \
         http://www.topografix.com/GPX/1/1/gpx.xsd\">\
         <metadata><name>A</name></metadata>\
         <wpt lat=\"1\" lon=\"-0.5\"></wpt></gpx>"
    );
}

#[test]
fn test_write_escapes_name() {
    let mut route = Route::with_name("Fish & Chips <Route>".to_string());
    let gpx = writer::write(&route).unwrap();
    assert!(gpx.contains("<name>Fish &amp; Chips &lt;Route&gt;</name>"));
}

#[test]
fn test_write_zero_coordinate() {
    let mut route = Route::new();
    route.add_waypoint(Waypoint::new(Coordinate::new(0, 0)));
    let gpx = writer::write(&route).unwrap();
    assert!(gpx.contains("<wpt lat=\"0\" lon=\"0\">"));
}

#[test]
fn test_all_coordinates_flattens_tracks() {
    let mut route = Route::new();
    route.add_waypoint(Waypoint::new(Coordinate::new(1, 2)));
    let seg1 = TrackSegment::new(vec![Coordinate::new(100000, 200000)]);
    let seg2 = TrackSegment::new(vec![
        Coordinate::new(300000, 400000),
        Coordinate::new(500000, 600000),
    ]);
    route.add_track(Track::new(vec![seg1]));
    route.add_track(Track::new(vec![seg2]));
    // (lon, lat) pairs in track, segment, point order; waypoints excluded.
    assert_eq!(
        route.all_coordinates(),
        vec![(200000, 100000), (400000, 300000), (600000, 500000)]
    );
}
