//! GPX 1.1 writer: a direct structural mapping from the route model to
//! XML text, one element per waypoint, track, segment and point.
//!
//! Coordinates appear as plain decimals of the `1e5` fixed-point values;
//! names are escaped.  The exact output text is pinned by [`spec_gpx`].

use vstd::prelude::*;
use vstd::string::StringExecFns;

use crate::text::chars_of;
use crate::text::chars_to_string;
use crate::text::format_e5;
use crate::text::spec_format_e5;
use crate::types::Coordinate;
use crate::types::Route;
use crate::types::Waypoint;
use crate::types::RouteModel;
use crate::types::TrackModel;
use crate::types::WaypointModel;

verus! {

#[derive(Debug, Clone, PartialEq)]
pub enum GpxError {
    XmlError(String),
    IoError(String),
}

/// The replacement text a character gets inside XML character data.
pub open spec fn esc_char(c: char) -> Seq<char> {
    if c == '&' {
        "&amp;"@
    } else if c == '<' {
        "&lt;"@
    } else if c == '>' {
        "&gt;"@
    } else if c == '\'' {
        "&apos;"@
    } else if c == '"' {
        "&quot;"@
    } else {
        seq![c]
    }
}

/// The text with every special character replaced by its escape.
pub open spec fn spec_escape(s: Seq<char>) -> Seq<char>
    decreases s.len(),
{
    if s.len() == 0 {
        Seq::empty()
    } else {
        esc_char(s[0]) + spec_escape(s.skip(1))
    }
}

proof fn lemma_escape_push(s: Seq<char>, c: char)
    ensures
        spec_escape(s.push(c)) == spec_escape(s) + esc_char(c),
    decreases s.len(),
{
    if s.len() == 0 {
        assert(s.push(c)[0] == c);
        assert(s.push(c).skip(1) =~= Seq::<char>::empty());
        assert(spec_escape(s.push(c)) == esc_char(c) + spec_escape(Seq::<char>::empty()));
        assert(esc_char(c) + Seq::<char>::empty() =~= esc_char(c));
        assert(Seq::<char>::empty() + esc_char(c) =~= esc_char(c));
    } else {
        assert(s.push(c).skip(1) =~= s.skip(1).push(c));
        lemma_escape_push(s.skip(1), c);
        assert(s.push(c)[0] == s[0]);
        assert(spec_escape(s.push(c)) == esc_char(s[0]) + (spec_escape(s.skip(1)) + esc_char(c)));
        assert(esc_char(s[0]) + (spec_escape(s.skip(1)) + esc_char(c)) =~= (esc_char(s[0])
            + spec_escape(s.skip(1))) + esc_char(c));
    }
}

fn append_escaped(out: &mut String, s: &str)
    ensures
        final(out)@ == old(out)@ + spec_escape(s@),
{
    let v = chars_of(s);
    let n = v.len();
    let mut i: usize = 0;
    while i < n
        invariant
            i <= n,
            n == v@.len(),
            v@ == s@,
            out@ == old(out)@ + spec_escape(s@.take(i as int)),
        decreases n - i,
    {
        let c = v[i];
        if c == '&' {
            out.append("&amp;");
        } else if c == '<' {
            out.append("&lt;");
        } else if c == '>' {
            out.append("&gt;");
        } else if c == '\'' {
            out.append("&apos;");
        } else if c == '"' {
            out.append("&quot;");
        } else {
            let ov = vec![c];
            proof {
                assert(ov@ =~= esc_char(c));
            }
            let one = chars_to_string(&ov);
            out.append(one.as_str());
        }
        proof {
            assert(s@.take(i + 1) =~= s@.take(i as int).push(s@[i as int]));
            lemma_escape_push(s@.take(i as int), s@[i as int]);
            assert(out@ =~= old(out)@ + spec_escape(s@.take(i + 1)));
        }
        i += 1;
    }
    proof {
        assert(s@.take(n as int) =~= s@);
    }
}

/// An `<ele>` child, when the point carries an elevation.
pub open spec fn spec_ele_block(e: Option<i64>) -> Seq<char> {
    match e {
        Some(x) => "<ele>"@ + spec_format_e5(x as int) + "</ele>"@,
        None => Seq::empty(),
    }
}

/// A `<name>` child, when a name is present.
pub open spec fn spec_name_block(n: Option<Seq<char>>) -> Seq<char> {
    match n {
        Some(s) => "<name>"@ + spec_escape(s) + "</name>"@,
        None => Seq::empty(),
    }
}

/// One `<wpt>` element.
pub open spec fn spec_wpt(w: WaypointModel) -> Seq<char> {
    "<wpt lat=\""@ + spec_format_e5(w.coord.lat_e5 as int) + "\" lon=\""@ + spec_format_e5(
        w.coord.lon_e5 as int,
    ) + "\">"@ + spec_ele_block(w.coord.ele_e5) + spec_name_block(w.name) + "</wpt>"@
}

pub open spec fn spec_wpts(ws: Seq<WaypointModel>, i: int) -> Seq<char>
    decreases ws.len() - i,
{
    if i < 0 || i >= ws.len() {
        Seq::empty()
    } else {
        spec_wpt(ws[i]) + spec_wpts(ws, i + 1)
    }
}

/// One `<trkpt>` element.
pub open spec fn spec_trkpt(c: Coordinate) -> Seq<char> {
    "<trkpt lat=\""@ + spec_format_e5(c.lat_e5 as int) + "\" lon=\""@ + spec_format_e5(
        c.lon_e5 as int,
    ) + "\">"@ + spec_ele_block(c.ele_e5) + "</trkpt>"@
}

pub open spec fn spec_trkpts(cs: Seq<Coordinate>, i: int) -> Seq<char>
    decreases cs.len() - i,
{
    if i < 0 || i >= cs.len() {
        Seq::empty()
    } else {
        spec_trkpt(cs[i]) + spec_trkpts(cs, i + 1)
    }
}

/// One `<trkseg>` element.
pub open spec fn spec_trkseg(cs: Seq<Coordinate>) -> Seq<char> {
    "<trkseg>"@ + spec_trkpts(cs, 0) + "</trkseg>"@
}

pub open spec fn spec_trksegs(segs: Seq<Seq<Coordinate>>, i: int) -> Seq<char>
    decreases segs.len() - i,
{
    if i < 0 || i >= segs.len() {
        Seq::empty()
    } else {
        spec_trkseg(segs[i]) + spec_trksegs(segs, i + 1)
    }
}

/// One `<trk>` element.
pub open spec fn spec_trk(t: TrackModel) -> Seq<char> {
    "<trk>"@ + spec_name_block(t.name) + spec_trksegs(t.segments, 0) + "</trk>"@
}

pub open spec fn spec_trks(ts: Seq<TrackModel>, i: int) -> Seq<char>
    decreases ts.len() - i,
{
    if i < 0 || i >= ts.len() {
        Seq::empty()
    } else {
        spec_trk(ts[i]) + spec_trks(ts, i + 1)
    }
}

/// The `<metadata>` element, holding the route's name when it has one.
pub open spec fn spec_metadata(name: Option<Seq<char>>) -> Seq<char> {
    "<metadata>"@ + spec_name_block(name) + "</metadata>"@
}

/// The whole GPX document text of a route.
pub open spec fn spec_gpx(r: RouteModel) -> Seq<char> {
    "<?xml version=\"1.0\" encoding=\"UTF-8\"?><gpx version=\"1.1\" creator=\"maps-to-gpx\" xmlns=\"http://www.topografix.com/GPX/1/1\" xmlns:xsi=\"http://www.w3.org/2001/XMLSchema-instance\" xsi:schemaLocation=\"http://www.topografix.com/GPX/1/1 http://www.topografix.com/GPX/1/1/gpx.xsd\">"@
        + spec_metadata(r.name) + spec_wpts(r.waypoints, 0) + spec_trks(r.tracks, 0) + "</gpx>"@
}

fn append_e5(out: &mut String, v: i64)
    ensures
        final(out)@ == old(out)@ + spec_format_e5(v as int),
{
    let s = chars_to_string(&format_e5(v));
    out.append(s.as_str());
}

fn append_name_block(out: &mut String, name: &Option<String>)
    ensures
        final(out)@ == old(out)@ + spec_name_block(crate::types::opt_name_view(*name)),
{
    match name {
        Some(n) => {
            out.append("<name>");
            append_escaped(out, n.as_str());
            out.append("</name>");
            proof {
                assert(out@ =~= old(out)@ + ("<name>"@ + spec_escape(n@) + "</name>"@));
            }
        },
        None => {
            proof {
                assert(out@ =~= old(out)@ + Seq::<char>::empty());
            }
        },
    }
}

fn append_ele_block(out: &mut String, ele: &Option<i64>)
    ensures
        final(out)@ == old(out)@ + spec_ele_block(*ele),
{
    match ele {
        Some(e) => {
            out.append("<ele>");
            append_e5(out, *e);
            out.append("</ele>");
            proof {
                assert(out@ =~= old(out)@ + ("<ele>"@ + spec_format_e5(*e as int) + "</ele>"@));
            }
        },
        None => {
            proof {
                assert(out@ =~= old(out)@ + Seq::<char>::empty());
            }
        },
    }
}

fn append_wpt(out: &mut String, w: &Waypoint)
    ensures
        final(out)@ == old(out)@ + spec_wpt(w@),
{
    out.append("<wpt lat=\"");
    append_e5(out, w.coord.lat_e5);
    out.append("\" lon=\"");
    append_e5(out, w.coord.lon_e5);
    out.append("\">");
    append_ele_block(out, &w.coord.ele_e5);
    append_name_block(out, &w.name);
    out.append("</wpt>");
    proof {
        assert(out@ =~= old(out)@ + spec_wpt(w@));
    }
}

/// Serializes a route as a GPX 1.1 document.
pub fn write(route: &Route) -> (r: Result<String, GpxError>)
    ensures
        r matches Ok(g) && g@ == spec_gpx(route@),
{
    let mut out = String::new();
    out.append(
        "<?xml version=\"1.0\" encoding=\"UTF-8\"?><gpx version=\"1.1\" creator=\"maps-to-gpx\" xmlns=\"http://www.topografix.com/GPX/1/1\" xmlns:xsi=\"http://www.w3.org/2001/XMLSchema-instance\" xsi:schemaLocation=\"http://www.topografix.com/GPX/1/1 http://www.topografix.com/GPX/1/1/gpx.xsd\">",
    );
    out.append("<metadata>");
    append_name_block(&mut out, &route.name);
    out.append("</metadata>");
    let ghost base1 = out@;
    let nw = route.waypoints.len();
    let mut i: usize = 0;
    while i < nw
        invariant
            i <= nw,
            nw == route@.waypoints.len(),
            out@ + spec_wpts(route@.waypoints, i as int) == base1 + spec_wpts(
                route@.waypoints,
                0,
            ),
        decreases nw - i,
    {
        proof {
            assert(route@.waypoints[i as int] == route.waypoints@[i as int]@);
        }
        append_wpt(&mut out, &route.waypoints[i]);
        proof {
            assert(out@ + spec_wpts(route@.waypoints, i + 1) =~= base1 + spec_wpts(
                route@.waypoints,
                0,
            ));
        }
        i += 1;
    }
    proof {
        assert(out@ =~= base1 + spec_wpts(route@.waypoints, 0));
    }
    let ghost base2 = out@;
    let nt = route.tracks.len();
    let mut t: usize = 0;
    while t < nt
        invariant
            t <= nt,
            nt == route@.tracks.len(),
            out@ + spec_trks(route@.tracks, t as int) == base2 + spec_trks(route@.tracks, 0),
        decreases nt - t,
    {
        proof {
            assert(route@.tracks[t as int] == route.tracks@[t as int]@);
        }
        let ghost pre_trk = out@;
        let track = &route.tracks[t];
        out.append("<trk>");
        append_name_block(&mut out, &track.name);
        let ghost base3 = out@;
        let ns = track.segments.len();
        let mut s: usize = 0;
        while s < ns
            invariant
                s <= ns,
                ns == track@.segments.len(),
                track@ == route@.tracks[t as int],
                out@ + spec_trksegs(track@.segments, s as int) == base3 + spec_trksegs(
                    track@.segments,
                    0,
                ),
            decreases ns - s,
        {
            proof {
                assert(track@.segments[s as int] == track.segments@[s as int]@);
            }
            let ghost pre_seg = out@;
            let seg = &track.segments[s];
            out.append("<trkseg>");
            let ghost base4 = out@;
            let np = seg.points.len();
            let mut p: usize = 0;
            while p < np
                invariant
                    p <= np,
                    np == seg@.len(),
                    seg@ == track@.segments[s as int],
                    out@ + spec_trkpts(seg@, p as int) == base4 + spec_trkpts(seg@, 0),
                decreases np - p,
            {
                let ghost pre_pt = out@;
                let c = seg.points[p];
                out.append("<trkpt lat=\"");
                append_e5(&mut out, c.lat_e5);
                out.append("\" lon=\"");
                append_e5(&mut out, c.lon_e5);
                out.append("\">");
                append_ele_block(&mut out, &c.ele_e5);
                out.append("</trkpt>");
                proof {
                    assert(out@ =~= pre_pt + spec_trkpt(seg@[p as int]));
                    assert(out@ + spec_trkpts(seg@, p + 1) =~= base4 + spec_trkpts(seg@, 0));
                }
                p += 1;
            }
            out.append("</trkseg>");
            proof {
                assert(out@ =~= pre_seg + spec_trkseg(track@.segments[s as int]));
                assert(out@ + spec_trksegs(track@.segments, s + 1) =~= base3 + spec_trksegs(
                    track@.segments,
                    0,
                ));
            }
            s += 1;
        }
        out.append("</trk>");
        proof {
            assert(out@ =~= pre_trk + spec_trk(route@.tracks[t as int]));
            assert(out@ + spec_trks(route@.tracks, t + 1) =~= base2 + spec_trks(route@.tracks, 0));
        }
        t += 1;
    }
    out.append("</gpx>");
    proof {
        assert(out@ =~= spec_gpx(route@));
    }
    Ok(out)
}

} // verus!
