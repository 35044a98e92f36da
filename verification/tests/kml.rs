use maps_to_gpx::parser::kml::{parse, walk_events, KmlError, XmlEvent};

#[test]
fn test_parse_simple_kml() {
    let kml = r#"<?xml version="1.0" encoding="UTF-8"?>
<kml xmlns="http://www.opengis.net/kml/2.2">
  <Document>
    <name>Test Route</name>
    <Placemark>
      <name>Start</name>
      <Point>
        <coordinates>-122.4194,37.7749,0</coordinates>
      </Point>
    </Placemark>
    <Placemark>
      <name>Route Path</name>
      <LineString>
        <coordinates>
          -122.4194,37.7749,0
          -122.4089,37.7835,0
          -122.4000,37.7900,0
        </coordinates>
      </LineString>
    </Placemark>
  </Document>
</kml>"#;

    let route = parse(kml).unwrap();
    assert_eq!(route.name, Some("Test Route".to_string()));
    assert_eq!(route.waypoints.len(), 1);
    assert_eq!(route.tracks.len(), 1);
    assert_eq!(route.tracks[0].segments[0].points.len(), 3);
}

#[test]
fn test_kml_axis_order() {
    // KML writes lon,lat,ele; the model stores latitude first.
    let kml = "<Placemark><Point><coordinates>-122.4194,37.7749,0</coordinates></Point></Placemark>";
    let route = parse(kml).unwrap();
    assert_eq!(route.waypoints.len(), 1);
    assert_eq!(route.waypoints[0].coord.lat_e5, 3777490);
    assert_eq!(route.waypoints[0].coord.lon_e5, -12241940);
    assert_eq!(route.waypoints[0].coord.ele_e5, Some(0));
}

#[test]
fn test_kml_name_scoping() {
    // A top-level name goes to the route; one inside a placemark goes to
    // that placemark's waypoint.
    let kml = "<Document><name>Test Route</name><Placemark><name>Pin</name>\
               <Point><coordinates>1.0,2.0</coordinates></Point></Placemark></Document>";
    let route = parse(kml).unwrap();
    assert_eq!(route.name, Some("Test Route".to_string()));
    assert_eq!(route.waypoints[0].name, Some("Pin".to_string()));
}

#[test]
fn test_kml_track_name_scoping() {
    let kml = "<Placemark><name>Path</name><LineString>\
               <coordinates>1.0,2.0 3.0,4.0</coordinates></LineString></Placemark>";
    let route = parse(kml).unwrap();
    assert!(route.name.is_none());
    assert_eq!(route.tracks.len(), 1);
    assert_eq!(route.tracks[0].name, Some("Path".to_string()));
    assert_eq!(route.tracks[0].segments[0].points.len(), 2);
    assert_eq!(route.tracks[0].segments[0].points[0].lat_e5, 200000);
    assert_eq!(route.tracks[0].segments[0].points[0].lon_e5, 100000);
}

#[test]
fn test_kml_malformed_tuples_skipped() {
    // Bad numeric tokens drop the single tuple, never the whole parse.
    let kml = "<Placemark><LineString><coordinates>junk 1.0,2.0 3.0,abc 5.0,6.0</coordinates>\
               </LineString></Placemark>";
    let route = parse(kml).unwrap();
    assert_eq!(route.tracks.len(), 1);
    assert_eq!(route.tracks[0].segments[0].points.len(), 2);
}

#[test]
fn test_kml_malformed_markup_is_fatal() {
    // A mismatched end tag is a tokenizer error.
    let result = parse("<kml><name>Broken</wrong></kml>");
    assert!(matches!(result, Err(KmlError::XmlError(_))));
}

#[test]
fn test_kml_empty_document() {
    let route = parse("").unwrap();
    assert!(route.name.is_none());
    assert!(route.waypoints.is_empty());
    assert!(route.tracks.is_empty());
}

#[test]
fn test_walk_events_directly() {
    // The walk over a hand-built event list matches the tokenized parse.
    let events = vec![
        XmlEvent::Open("Placemark".to_string()),
        XmlEvent::Open("name".to_string()),
        XmlEvent::Text("  Pin  ".to_string()),
        XmlEvent::Open("Point".to_string()),
        XmlEvent::Open("coordinates".to_string()),
        XmlEvent::Text("-122.4194,37.7749".to_string()),
        XmlEvent::Close("coordinates".to_string()),
        XmlEvent::Close("Point".to_string()),
        XmlEvent::Close("Placemark".to_string()),
        XmlEvent::Stop,
    ];
    let route = walk_events(&events).unwrap();
    assert_eq!(route.waypoints.len(), 1);
    assert_eq!(route.waypoints[0].name, Some("Pin".to_string()));
    assert_eq!(route.waypoints[0].coord.ele_e5, None);
}

#[test]
fn test_walk_events_fault_is_fatal() {
    let events = vec![
        XmlEvent::Open("Document".to_string()),
        XmlEvent::Fault("boom".to_string()),
    ];
    assert!(matches!(walk_events(&events), Err(KmlError::XmlError(_))));
}

#[test]
fn test_kml_entity_references_in_names() {
    // Predefined entities are resolved and the fragments joined.
    let kml = "<Document><name>Tom &amp; Jerry &lt;duo&gt;</name></Document>";
    let route = parse(kml).unwrap();
    assert_eq!(route.name, Some("Tom & Jerry <duo>".to_string()));
}

#[test]
fn test_kml_character_references() {
    let kml = "<Document><name>&#65;&#x42;c</name></Document>";
    let route = parse(kml).unwrap();
    assert_eq!(route.name, Some("ABc".to_string()));
}

#[test]
fn test_kml_unknown_reference_contributes_nothing() {
    let kml = "<Document><name>a&nosuch;b</name></Document>";
    let route = parse(kml).unwrap();
    assert_eq!(route.name, Some("ab".to_string()));
}

#[test]
fn test_walk_events_joins_fragments() {
    let events = vec![
        XmlEvent::Open("name".to_string()),
        XmlEvent::Text("Fish ".to_string()),
        XmlEvent::Ref("amp".to_string()),
        XmlEvent::Text(" Chips".to_string()),
        XmlEvent::Close("name".to_string()),
        XmlEvent::Stop,
    ];
    let route = walk_events(&events).unwrap();
    assert_eq!(route.name, Some("Fish & Chips".to_string()));
}
