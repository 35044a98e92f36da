//! Walker over KML documents.
//!
//! The document is read as a stream of start-tag, end-tag, text and
//! reference events; text fragments and resolved references are gathered
//! into one run per element, and a small state machine attributes `<name>`
//! runs to the route or to the open placemark, turns `<coordinates>`
//! inside a `Point` into a waypoint, and `<coordinates>` inside a
//! `LineString` into a one-segment track.  KML writes coordinates in
//! `lon,lat[,ele]` order; the model stores latitude first.
//!
//! Only the tokenizer is taken from the `quick_xml` crate; the walk itself
//! is verified against [`spec_kml_route`].

use vstd::prelude::*;

use crate::text::all_digits;
use crate::text::all_hex_digits;
use crate::text::chars_of;
use crate::text::chars_to_string;
use crate::text::digits_val_capped;
use crate::text::hex_val_capped;
use crate::text::spec_digits_val;
use crate::text::spec_hex_val;
use crate::text::spec_parse_e5;
use crate::text::spec_split_from;
use crate::text::spec_split_ws_from;
use crate::text::spec_trim;
use crate::text::split_char;
use crate::text::split_ws;
use crate::text::str_eq;
use crate::text::trim_chars;
use crate::text::parse_e5;
use crate::types::Coordinate;
use crate::types::Route;
use crate::types::RouteModel;
use crate::types::Track;
use crate::types::TrackModel;
use crate::types::TrackSegment;
use crate::types::Waypoint;
use crate::types::WaypointModel;
use crate::types::empty_route_model;
use crate::types::opt_name_view;

verus! {

#[derive(Debug, Clone, PartialEq)]
pub enum KmlError {
    XmlError(String),
    InvalidCoordinate,
    MissingElement,
}

/// One event of the tokenized document, reduced to what the walk reads.
#[derive(Debug, Clone, PartialEq)]
pub enum XmlEvent {
    /// A start tag, with its raw name.
    Open(String),
    /// An end tag, with its raw name.
    Close(String),
    /// Character data between markup, as written, untrimmed.
    Text(String),
    /// A reference `&name;` inside character data, with the text between
    /// `&` and `;`.
    Ref(String),
    /// End of the document.
    Stop,
    /// Any event the walk passes over: declarations, comments, CDATA,
    /// processing instructions, self-closing tags.  It ends the text run
    /// being gathered, as it did when each fragment stood alone.
    Skip,
    /// A tokenizer error, with its message; it ends the walk.
    Fault(String),
}

/// The event stream a document tokenizes to.  Tokenization is a function
/// of the document text alone.
pub uninterp spec fn xml_events_of(doc: Seq<char>) -> Seq<XmlEvent>;

#[verifier::external_type_specification]
#[verifier::external_body]
#[verifier::reject_recursive_types(R)]
pub struct ExReader<R>(quick_xml::Reader<R>);

/// A tokenizer walking one document, with its ghost read position.
pub struct XmlScan<'a> {
    inner: quick_xml::Reader<&'a [u8]>,
    doc: Ghost<Seq<char>>,
    pos: Ghost<int>,
}

impl<'a> XmlScan<'a> {
    /// The document being tokenized.
    pub closed spec fn doc(&self) -> Seq<char> {
        self.doc@
    }

    /// How many events have been handed out.
    pub closed spec fn pos(&self) -> int {
        self.pos@
    }
}

/// Relies on `quick_xml::Reader::from_str`: the returned reader tokenizes
/// exactly the given document, from its start.
#[verifier::external_body]
fn xml_reader_from<'a>(doc: &'a str) -> (r: quick_xml::Reader<&'a [u8]>)
{
    quick_xml::Reader::from_str(doc)
}

fn xml_scan_new<'a>(doc: &'a str) -> (s: XmlScan<'a>)
    ensures
        s.doc() == doc@,
        s.pos() == 0,
{
    XmlScan { inner: xml_reader_from(doc), doc: Ghost(doc@), pos: Ghost(0int) }
}

/// Relies on `quick_xml::Reader::read_event`: tokenization is a function
/// of the document text alone, so each call hands out the next event of
/// [`xml_events_of`] for this scan's document, and `Stop` for every call
/// after the stream is exhausted.
#[verifier::external_body]
fn xml_scan_next(s: &mut XmlScan) -> (ev: XmlEvent)
    ensures
        final(s).doc() == old(s).doc(),
        ({
            let evs = xml_events_of(old(s).doc());
            if 0 <= old(s).pos() < evs.len() {
                ev == evs[old(s).pos()] && final(s).pos() == old(s).pos() + 1
            } else {
                ev == XmlEvent::Stop && final(s).pos() == old(s).pos()
            }
        }),
{
    match s.inner.read_event() {
        Ok(quick_xml::events::Event::Start(e)) => XmlEvent::Open(
            e.name().into_inner().to_string(),
        ),
        Ok(quick_xml::events::Event::End(e)) => XmlEvent::Close(e.name().into_inner().to_string()),
        Ok(quick_xml::events::Event::Text(e)) => XmlEvent::Text(e.xml10_content().into_owned()),
        Ok(quick_xml::events::Event::GeneralRef(e)) => XmlEvent::Ref(e.into_inner().into_owned()),
        Ok(quick_xml::events::Event::Eof) => XmlEvent::Stop,
        Ok(_) => XmlEvent::Skip,
        Err(e) => XmlEvent::Fault(e.to_string()),
    }
}

// ---------------------------------------------------------------------
// Coordinate text
// ---------------------------------------------------------------------

/// One KML coordinate tuple: `lon,lat[,ele]`, comma separated, tokens
/// trimmed.  A malformed elevation is dropped; a malformed longitude or
/// latitude drops the whole tuple.
pub open spec fn spec_single_coord(text: Seq<char>) -> Option<Coordinate> {
    let parts = spec_split_from(text, ',', 0);
    if parts.len() >= 2 {
        match spec_parse_e5(spec_trim(parts[0])) {
            Some(lon) => match spec_parse_e5(spec_trim(parts[1])) {
                Some(lat) => Some(
                    Coordinate {
                        lat_e5: lat as i64,
                        lon_e5: lon as i64,
                        ele_e5: if parts.len() >= 3 {
                            match spec_parse_e5(spec_trim(parts[2])) {
                                Some(e) => Some(e as i64),
                                None => None,
                            }
                        } else {
                            None
                        },
                    },
                ),
                None => None,
            },
            None => None,
        }
    } else {
        None
    }
}

fn parse_single_coordinate(text: &str) -> (r: Option<Coordinate>)
    ensures
        r == spec_single_coord(text@),
{
    let tv = chars_of(text);
    let parts = split_char(&tv, ',');
    if parts.len() >= 2 {
        proof {
            assert(parts.deep_view()[0] == parts@[0]@);
            assert(parts.deep_view()[1] == parts@[1]@);
        }
        let t0 = trim_chars(&parts[0]);
        let t1 = trim_chars(&parts[1]);
        let lon = match parse_e5(&t0) {
            Some(x) => x,
            None => {
                return None;
            },
        };
        let lat = match parse_e5(&t1) {
            Some(x) => x,
            None => {
                return None;
            },
        };
        let ele: Option<i64> = if parts.len() >= 3 {
            proof {
                assert(parts.deep_view()[2] == parts@[2]@);
            }
            let t2 = trim_chars(&parts[2]);
            parse_e5(&t2)
        } else {
            None
        };
        Some(Coordinate { lat_e5: lat, lon_e5: lon, ele_e5: ele })
    } else {
        None
    }
}

/// The coordinates read from the white-space-separated tuples at `i` on;
/// malformed tuples are passed over.
pub open spec fn spec_kml_coords(tokens: Seq<Seq<char>>, i: int) -> Seq<Coordinate>
    decreases tokens.len() - i,
{
    if i < 0 || i >= tokens.len() {
        Seq::empty()
    } else {
        match spec_single_coord(tokens[i]) {
            Some(c) => seq![c] + spec_kml_coords(tokens, i + 1),
            None => spec_kml_coords(tokens, i + 1),
        }
    }
}

fn parse_coordinates(text: &str) -> (r: Vec<Coordinate>)
    ensures
        r@ == spec_kml_coords(spec_split_ws_from(text@, 0), 0),
{
    let tv = chars_of(text);
    let tokens = split_ws(&tv);
    let ghost tseq = tokens.deep_view();
    let m = tokens.len();
    let mut coords: Vec<Coordinate> = Vec::new();
    let mut i: usize = 0;
    while i < m
        invariant
            i <= m,
            m == tseq.len(),
            tseq == tokens.deep_view(),
            coords@ + spec_kml_coords(tseq, i as int) =~= spec_kml_coords(tseq, 0),
        decreases m - i,
    {
        proof {
            assert(tseq[i as int] == tokens@[i as int]@);
        }
        let s = chars_to_string(&tokens[i]);
        match parse_single_coordinate(s.as_str()) {
            Some(c) => {
                coords.push(c);
            },
            None => {},
        }
        i += 1;
    }
    coords
}

// ---------------------------------------------------------------------
// Character and entity references
// ---------------------------------------------------------------------

/// A Unicode scalar value: what a character reference may name.
pub open spec fn valid_scalar_code(u: int) -> bool {
    (0 <= u && u < 0xD800) || (0xE000 <= u && u <= 0x10FFFF)
}

/// Relies on `char::from_u32`: it returns the character with the given
/// code exactly on Unicode scalar values (not surrogates, nothing past
/// the last plane).
#[verifier::external_body]
fn char_from_code(u: u32) -> (r: Option<char>)
    ensures
        (r is Some) == valid_scalar_code(u as int),
        r matches Some(c) ==> c == (u as char),
{
    char::from_u32(u)
}

/// The replacement text of one reference: the five predefined entities,
/// and decimal or hex character references naming a scalar value.  Any
/// other reference contributes nothing.
pub open spec fn spec_resolve_ref(name: Seq<char>) -> Seq<char> {
    if name == "amp"@ {
        "&"@
    } else if name == "lt"@ {
        "<"@
    } else if name == "gt"@ {
        ">"@
    } else if name == "apos"@ {
        "'"@
    } else if name == "quot"@ {
        "\""@
    } else if name.len() >= 2 && name[0] == '#' {
        let code: Option<int> = if name[1] == 'x' || name[1] == 'X' {
            let digits = name.subrange(2, name.len() as int);
            if digits.len() > 0 && all_hex_digits(digits) {
                Some(spec_hex_val(digits))
            } else {
                None
            }
        } else {
            let digits = name.subrange(1, name.len() as int);
            if digits.len() > 0 && all_digits(digits) {
                Some(spec_digits_val(digits))
            } else {
                None
            }
        };
        match code {
            Some(u) => if valid_scalar_code(u) {
                seq![((u as u32) as char)]
            } else {
                Seq::empty()
            },
            None => Seq::empty(),
        }
    } else {
        Seq::empty()
    }
}

fn resolve_ref_chars(name: &Vec<char>) -> (r: Vec<char>)
    ensures
        r@ == spec_resolve_ref(name@),
{
    let ns = chars_to_string(name);
    if str_eq(ns.as_str(), "amp") {
        let v = vec!['&'];
        proof {
            reveal_strlit("&");
            assert(v@ =~= "&"@);
        }
        return v;
    }
    if str_eq(ns.as_str(), "lt") {
        let v = vec!['<'];
        proof {
            reveal_strlit("<");
            assert(v@ =~= "<"@);
        }
        return v;
    }
    if str_eq(ns.as_str(), "gt") {
        let v = vec!['>'];
        proof {
            reveal_strlit(">");
            assert(v@ =~= ">"@);
        }
        return v;
    }
    if str_eq(ns.as_str(), "apos") {
        let v = vec!['\''];
        proof {
            reveal_strlit("'");
            assert(v@ =~= "'"@);
        }
        return v;
    }
    if str_eq(ns.as_str(), "quot") {
        let v = vec!['"'];
        proof {
            reveal_strlit("\"");
            assert(v@ =~= "\""@);
        }
        return v;
    }
    let n = name.len();
    let empty: Vec<char> = Vec::new();
    proof {
        assert(empty@ =~= Seq::<char>::empty());
    }
    if n >= 2 && name[0] == '#' {
        let code: Option<i64> = if name[1] == 'x' || name[1] == 'X' {
            if n > 2 {
                hex_val_capped(name, 2, n)
            } else {
                None
            }
        } else {
            digits_val_capped(name, 1, n)
        };
        match code {
            Some(u) => {
                if u <= 0x10FFFF {
                    match char_from_code(u as u32) {
                        Some(c) => {
                            let v = vec![c];
                            proof {
                                assert(v@ =~= spec_resolve_ref(name@));
                            }
                            v
                        },
                        None => empty,
                    }
                } else {
                    empty
                }
            },
            None => {
                // Either a stray digit broke the reference, or its value
                // is far past the last plane: no character either way.
                empty
            },
        }
    } else {
        empty
    }
}

// ---------------------------------------------------------------------
// The walk
// ---------------------------------------------------------------------

/// The walker's memory between events.
pub struct KmlState {
    /// The name of the element last opened.
    pub element: Seq<char>,
    /// The open placemark's name, once one of its `<name>` texts was seen.
    pub pending: Option<Seq<char>>,
    pub in_placemark: bool,
    pub in_point: bool,
    pub in_linestring: bool,
    /// The route built so far.
    pub route: RouteModel,
    /// The run of character data gathered since the last markup event:
    /// text fragments and resolved references, joined.
    pub buf: Seq<char>,
}

pub open spec fn kml_init_state() -> KmlState {
    KmlState {
        element: Seq::empty(),
        pending: None,
        in_placemark: false,
        in_point: false,
        in_linestring: false,
        route: empty_route_model(),
        buf: Seq::empty(),
    }
}

/// Closes the gathered text run: non-blank text lands in the slot the
/// current element names, and the run is cleared.
pub open spec fn kml_flush(st: KmlState) -> KmlState {
    let text = spec_trim(st.buf);
    let st0 = KmlState { buf: Seq::empty(), ..st };
    if text.len() == 0 {
        st0
    } else if st.element == "name"@ {
        if st.in_placemark {
            KmlState { pending: Some(text), ..st0 }
        } else {
            KmlState { route: RouteModel { name: Some(text), ..st0.route }, ..st0 }
        }
    } else if st.element == "coordinates"@ {
        if st.in_point {
            match spec_single_coord(text) {
                Some(c) => KmlState {
                    route: RouteModel {
                        waypoints: st0.route.waypoints.push(
                            WaypointModel { coord: c, name: st0.pending },
                        ),
                        ..st0.route
                    },
                    ..st0
                },
                None => st0,
            }
        } else if st.in_linestring {
            let cs = spec_kml_coords(spec_split_ws_from(text, 0), 0);
            if cs.len() > 0 {
                KmlState {
                    route: RouteModel {
                        tracks: st0.route.tracks.push(
                            TrackModel { name: st0.pending, segments: seq![cs] },
                        ),
                        ..st0.route
                    },
                    ..st0
                }
            } else {
                st0
            }
        } else {
            st0
        }
    } else {
        st0
    }
}

/// One transition of the walk.  Markup events first close the gathered
/// text run; start tags then set the current element and the scope flags,
/// end tags clear the flags.  Text and references extend the run.
/// Terminal events are handled by the fold.
pub open spec fn kml_step(st: KmlState, ev: XmlEvent) -> KmlState {
    match ev {
        XmlEvent::Open(name) => {
            let st1 = KmlState { element: name@, ..kml_flush(st) };
            if name@ == "Placemark"@ {
                KmlState { in_placemark: true, pending: None, ..st1 }
            } else if name@ == "Point"@ {
                KmlState { in_point: true, ..st1 }
            } else if name@ == "LineString"@ {
                KmlState { in_linestring: true, ..st1 }
            } else {
                st1
            }
        },
        XmlEvent::Close(name) => {
            let stf = kml_flush(st);
            if name@ == "Placemark"@ {
                KmlState { in_placemark: false, pending: None, ..stf }
            } else if name@ == "Point"@ {
                KmlState { in_point: false, ..stf }
            } else if name@ == "LineString"@ {
                KmlState { in_linestring: false, ..stf }
            } else {
                stf
            }
        },
        XmlEvent::Text(t) => KmlState { buf: st.buf + t@, ..st },
        XmlEvent::Ref(r) => KmlState { buf: st.buf + spec_resolve_ref(r@), ..st },
        XmlEvent::Skip => kml_flush(st),
        _ => st,
    }
}


/// Axis order: a tuple the walk accepts reads its first comma token as
/// the longitude and its second as the latitude — the written order is
/// swapped into the stored `lat`/`lon` fields.
pub proof fn lemma_kml_axis_order(text: Seq<char>)
    ensures
        ({
            let parts = spec_split_from(text, ',', 0);
            spec_single_coord(text) matches Some(c) ==> parts.len() >= 2 && spec_parse_e5(
                spec_trim(parts[0]),
            ) is Some && spec_parse_e5(spec_trim(parts[1])) is Some && c.lon_e5 == spec_parse_e5(
                spec_trim(parts[0]),
            )->Some_0 as i64 && c.lat_e5 == spec_parse_e5(spec_trim(parts[1]))->Some_0 as i64
        }),
{
}

/// Name scoping: a non-blank name run becomes the open placemark's
/// pending name, leaving the route untouched; outside any placemark it
/// becomes the route's name, leaving the pending slot untouched.
pub proof fn lemma_kml_name_scoping(st: KmlState)
    requires
        st.element == "name"@,
        spec_trim(st.buf).len() > 0,
    ensures
        st.in_placemark ==> kml_flush(st).pending == Some(spec_trim(st.buf)) && kml_flush(
            st,
        ).route == st.route,
        !st.in_placemark ==> kml_flush(st).route == (RouteModel {
            name: Some(spec_trim(st.buf)),
            ..st.route
        }) && kml_flush(st).pending == st.pending,
{
}

/// Opening or closing a placemark clears the pending name, so a name can
/// never leak from one placemark into the next.
pub proof fn lemma_kml_placemark_resets_pending(st: KmlState, name: String)
    requires
        name@ == "Placemark"@,
    ensures
        kml_step(st, XmlEvent::Open(name)).pending is None,
        kml_step(st, XmlEvent::Close(name)).pending is None,
{
}

/// A coordinates run inside a `Point` that reads as a tuple appends one
/// waypoint carrying the pending placemark name, and nothing else of the
/// route changes.
pub proof fn lemma_kml_waypoint_takes_pending_name(st: KmlState)
    requires
        st.element == "coordinates"@,
        st.in_point,
        spec_single_coord(spec_trim(st.buf)) is Some,
        spec_trim(st.buf).len() > 0,
    ensures
        ({
            let r = kml_flush(st).route;
            &&& r.waypoints == st.route.waypoints.push(
                WaypointModel {
                    coord: spec_single_coord(spec_trim(st.buf))->Some_0,
                    name: st.pending,
                },
            )
            &&& r.name == st.route.name
            &&& r.tracks == st.route.tracks
        }),
{
    reveal_strlit("name");
    reveal_strlit("coordinates");
    assert("name"@.len() == 4);
    assert("coordinates"@.len() == 11);
    assert("name"@ != "coordinates"@);
}

/// A coordinates run inside a `LineString` with at least one readable
/// tuple appends one track named by the pending placemark name, holding
/// those tuples as its single segment.
pub proof fn lemma_kml_track_takes_pending_name(st: KmlState)
    requires
        st.element == "coordinates"@,
        !st.in_point,
        st.in_linestring,
        spec_trim(st.buf).len() > 0,
        spec_kml_coords(spec_split_ws_from(spec_trim(st.buf), 0), 0).len() > 0,
    ensures
        ({
            let r = kml_flush(st).route;
            &&& r.tracks == st.route.tracks.push(
                TrackModel {
                    name: st.pending,
                    segments: seq![
                        spec_kml_coords(spec_split_ws_from(spec_trim(st.buf), 0), 0)
                    ],
                },
            )
            &&& r.name == st.route.name
            &&& r.waypoints == st.route.waypoints
        }),
{
    reveal_strlit("name");
    reveal_strlit("coordinates");
    assert("name"@.len() == 4);
    assert("coordinates"@.len() == 11);
    assert("name"@ != "coordinates"@);
}

pub open spec fn is_terminal(ev: XmlEvent) -> bool {
    ev is Stop || ev is Fault
}

/// The fold of the walk over `events[i ..]`: the route at the end of the
/// document, or the tokenizer's message where it faulted.
pub open spec fn spec_kml_walk(events: Seq<XmlEvent>, i: int, st: KmlState) -> Result<
    RouteModel,
    Seq<char>,
>
    decreases events.len() - i,
{
    if i < 0 || i >= events.len() {
        Ok(kml_flush(st).route)
    } else {
        match events[i] {
            XmlEvent::Stop => Ok(kml_flush(st).route),
            XmlEvent::Fault(m) => Err(m@),
            _ => spec_kml_walk(events, i + 1, kml_step(st, events[i])),
        }
    }
}

/// The route a tokenized document describes.
pub open spec fn spec_kml_route(events: Seq<XmlEvent>) -> Result<RouteModel, Seq<char>> {
    spec_kml_walk(events, 0, kml_init_state())
}

/// Closes the gathered text run against the current element, exactly as
/// [`kml_flush`] describes, and clears the run.
fn flush_text(
    element: &String,
    pending: &mut Option<String>,
    in_pm: bool,
    in_pt: bool,
    in_ls: bool,
    route: &mut Route,
    buf: &mut Vec<char>,
)
    ensures
        ({
            let st2 = kml_flush(
                KmlState {
                    element: element@,
                    pending: opt_name_view(*old(pending)),
                    in_placemark: in_pm,
                    in_point: in_pt,
                    in_linestring: in_ls,
                    route: old(route)@,
                    buf: old(buf)@,
                },
            );
            &&& opt_name_view(*final(pending)) == st2.pending
            &&& final(route)@ == st2.route
            &&& final(buf)@ == st2.buf
        }),
{
    let trimmed = trim_chars(buf);
    *buf = Vec::new();
    proof {
        assert(buf@ =~= Seq::<char>::empty());
    }
    if trimmed.len() == 0 {
    } else if str_eq(element.as_str(), "name") {
        let s = chars_to_string(&trimmed);
        if in_pm {
            *pending = Some(s);
        } else {
            route.name = Some(s);
        }
    } else if str_eq(element.as_str(), "coordinates") {
        if in_pt {
            let ts = chars_to_string(&trimmed);
            match parse_single_coordinate(ts.as_str()) {
                Some(c) => {
                    let wp = match &*pending {
                        Some(nm) => Waypoint::with_name(c, nm.clone()),
                        None => Waypoint::new(c),
                    };
                    route.add_waypoint(wp);
                },
                None => {},
            }
        } else if in_ls {
            let ts = chars_to_string(&trimmed);
            let cs = parse_coordinates(ts.as_str());
            if cs.len() > 0 {
                let ghost csv = cs@;
                let seg = TrackSegment::new(cs);
                let tr = match &*pending {
                    Some(nm) => Track::with_name(nm.clone(), vec![seg]),
                    None => Track::new(vec![seg]),
                };
                proof {
                    assert(tr@.segments =~= seq![csv]);
                }
                route.add_track(tr);
            }
        }
    }
}

/// Runs the walk over an event list.
pub fn walk_events(events: &Vec<XmlEvent>) -> (r: Result<Route, KmlError>)
    ensures
        match r {
            Ok(route) => spec_kml_route(events@) == Ok::<RouteModel, Seq<char>>(route@),
            Err(e) => (e matches KmlError::XmlError(m) && spec_kml_route(events@) == Err::<
                RouteModel,
                Seq<char>,
            >(m@)),
        },
{
    let n = events.len();
    let mut element: String = String::new();
    let mut pending: Option<String> = None;
    let mut in_pm = false;
    let mut in_pt = false;
    let mut in_ls = false;
    let mut route = Route::new();
    let mut buf: Vec<char> = Vec::new();
    let mut i: usize = 0;
    proof {
        assert(kml_init_state() == (KmlState {
            element: element@,
            pending: opt_name_view(pending),
            in_placemark: in_pm,
            in_point: in_pt,
            in_linestring: in_ls,
            route: route@,
            buf: buf@,
        }));
    }
    while i < n
        invariant
            i <= n,
            n == events@.len(),
            spec_kml_route(events@) == spec_kml_walk(
                events@,
                i as int,
                (KmlState {
                    element: element@,
                    pending: opt_name_view(pending),
                    in_placemark: in_pm,
                    in_point: in_pt,
                    in_linestring: in_ls,
                    route: route@,
                    buf: buf@,
                }),
            ),
        decreases n - i,
    {
        let ghost st = KmlState {
            element: element@,
            pending: opt_name_view(pending),
            in_placemark: in_pm,
            in_point: in_pt,
            in_linestring: in_ls,
            route: route@,
            buf: buf@,
        };
        let ev = &events[i];
        match ev {
            XmlEvent::Stop => {
                flush_text(&element, &mut pending, in_pm, in_pt, in_ls, &mut route, &mut buf);
                return Ok(route);
            },
            XmlEvent::Fault(m) => {
                return Err(KmlError::XmlError(m.clone()));
            },
            XmlEvent::Open(name) => {
                flush_text(&element, &mut pending, in_pm, in_pt, in_ls, &mut route, &mut buf);
                element = name.clone();
                if str_eq(name.as_str(), "Placemark") {
                    in_pm = true;
                    pending = None;
                } else if str_eq(name.as_str(), "Point") {
                    in_pt = true;
                } else if str_eq(name.as_str(), "LineString") {
                    in_ls = true;
                }
            },
            XmlEvent::Close(name) => {
                flush_text(&element, &mut pending, in_pm, in_pt, in_ls, &mut route, &mut buf);
                if str_eq(name.as_str(), "Placemark") {
                    in_pm = false;
                    pending = None;
                } else if str_eq(name.as_str(), "Point") {
                    in_pt = false;
                } else if str_eq(name.as_str(), "LineString") {
                    in_ls = false;
                }
            },
            XmlEvent::Text(t) => {
                let mut tv = chars_of(t.as_str());
                buf.append(&mut tv);
            },
            XmlEvent::Ref(rn) => {
                let nv = chars_of(rn.as_str());
                let mut rv = resolve_ref_chars(&nv);
                buf.append(&mut rv);
            },
            XmlEvent::Skip => {
                flush_text(&element, &mut pending, in_pm, in_pt, in_ls, &mut route, &mut buf);
            },
        }
        proof {
            let st2 = KmlState {
                element: element@,
                pending: opt_name_view(pending),
                in_placemark: in_pm,
                in_point: in_pt,
                in_linestring: in_ls,
                route: route@,
                buf: buf@,
            };
            assert(st2 == kml_step(st, events@[i as int]));
        }
        i += 1;
    }
    flush_text(&element, &mut pending, in_pm, in_pt, in_ls, &mut route, &mut buf);
    Ok(route)
}

proof fn lemma_walk_take_push(evs: Seq<XmlEvent>, t: XmlEvent, p: int, i: int, st: KmlState)
    requires
        0 <= i <= p <= evs.len(),
        forall|j: int| 0 <= j < p ==> !is_terminal(#[trigger] evs[j]),
        is_terminal(t),
        p < evs.len() ==> t == evs[p],
        p == evs.len() ==> t == XmlEvent::Stop,
    ensures
        spec_kml_walk(evs.take(p).push(t), i, st) == spec_kml_walk(evs, i, st),
    decreases p - i,
{
    let col = evs.take(p).push(t);
    assert(col.len() == p + 1);
    if i < p {
        assert(col[i] == evs[i]);
        lemma_walk_take_push(evs, t, p, i + 1, kml_step(st, evs[i]));
    } else {
        assert(col[p] == t);
    }
}

/// Tokenizes a document and walks it into a route.  A tokenizer fault is
/// fatal and carried out as `XmlError`.
pub fn parse(kml_content: &str) -> (r: Result<Route, KmlError>)
    ensures
        match r {
            Ok(route) => spec_kml_route(xml_events_of(kml_content@)) == Ok::<
                RouteModel,
                Seq<char>,
            >(route@),
            Err(e) => (e matches KmlError::XmlError(m) && spec_kml_route(
                xml_events_of(kml_content@),
            ) == Err::<RouteModel, Seq<char>>(m@)),
        },
{
    let ghost evs = xml_events_of(kml_content@);
    let mut scan = xml_scan_new(kml_content);
    let mut events: Vec<XmlEvent> = Vec::new();
    let mut done = false;
    while !done
        invariant
            scan.doc() == kml_content@,
            evs == xml_events_of(kml_content@),
            0 <= scan.pos() <= evs.len(),
            !done ==> events@ == evs.take(scan.pos()),
            !done ==> forall|j: int| 0 <= j < scan.pos() ==> !is_terminal(#[trigger] evs[j]),
            done ==> spec_kml_route(events@) == spec_kml_route(evs),
        decreases evs.len() - scan.pos() + (if done {
            0int
        } else {
            1
        }),
    {
        let ghost p = scan.pos();
        let ev = xml_scan_next(&mut scan);
        let terminal = match &ev {
            XmlEvent::Stop => true,
            XmlEvent::Fault(_) => true,
            _ => false,
        };
        events.push(ev);
        if terminal {
            proof {
                if p < evs.len() {
                    assert(events@ =~= evs.take(p).push(evs[p]));
                    lemma_walk_take_push(evs, evs[p], p, 0, kml_init_state());
                } else {
                    assert(events@ =~= evs.take(p).push(XmlEvent::Stop));
                    lemma_walk_take_push(evs, XmlEvent::Stop, p, 0, kml_init_state());
                }
            }
            done = true;
        } else {
            proof {
                assert(events@ =~= evs.take(scan.pos()));
            }
        }
    }
    walk_events(&events)
}

} // verus!
