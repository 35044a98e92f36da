//! Heuristic extractor for Google Maps sharing URLs.
//!
//! Three independent strategies fill the route, in a fixed precedence:
//! coordinates written into the `/dir/` part of the path, a polyline hidden
//! in the `data=` blob (which replaces the track geometry), and `!1d`/`!2d`
//! coordinate pairs from the `data=` blob as a fallback when the first two
//! produced nothing.
//!
//! Only the splitting of the URL into host, path, query and serialization
//! is taken from the `url` crate; everything after that split is verified
//! against the specification functions in this module.

use vstd::prelude::*;
use vstd::string::StringExecFns;
use vstd::string::StringSliceAdditionalSpecFns;
use vstd::utf8::encode_utf8;

use crate::parser::polyline;
use crate::parser::polyline::spec_poly_decode;
use crate::text::chars_of;
use crate::text::chars_to_string;
use crate::text::contains_sub;
use crate::text::dec_digits;
use crate::text::find_char_from;
use crate::text::find_sub_from;
use crate::text::hex_val;
use crate::text::hex_val_char;
use crate::text::is_hex_digit;
use crate::text::is_hex_digit_char;
use crate::text::parse_e5;
use crate::text::replace_char;
use crate::text::spec_dec_digits;
use crate::text::spec_find_char_from;
use crate::text::spec_find_sub_from;
use crate::text::spec_has_sub;
use crate::text::spec_parse_e5;
use crate::text::spec_split_from;
use crate::text::spec_starts_with;
use crate::text::spec_trim;
use crate::text::split_char;
use crate::text::starts_with_pat;
use crate::text::subvec;
use crate::text::trim_chars;
use crate::types::Coordinate;
use crate::types::Route;
use crate::types::RouteModel;
use crate::types::Track;
use crate::types::TrackModel;
use crate::types::TrackSegment;
use crate::types::Waypoint;
use crate::types::WaypointModel;
use crate::types::empty_route_model;

verus! {

#[derive(Debug, Clone, PartialEq)]
pub enum UrlParseError {
    InvalidUrl(String),
    NotGoogleMaps,
    NoRouteData,
    DecodeError(String),
}

/// Latitudes are accepted in `[-90, 90]` degrees, in `1e5` fixed point.
pub const LAT_LIMIT_E5: i64 = 9_000_000;

/// Longitudes are accepted in `[-180, 180]` degrees, in `1e5` fixed point.
pub const LON_LIMIT_E5: i64 = 18_000_000;

#[verifier::external_type_specification]
#[verifier::external_body]
pub struct ExUrl(url::Url);

/// A URL split by the `url` crate, together with the text it came from.
pub struct ParsedUrl {
    inner: url::Url,
    src: Ghost<Seq<char>>,
}

impl ParsedUrl {
    /// The text this URL was parsed from.
    pub closed spec fn text(&self) -> Seq<char> {
        self.src@
    }
}

/// Whether `url::Url::parse` accepts the string.
pub uninterp spec fn url_accepts(s: Seq<char>) -> bool;

/// The host of the URL written in `s`, or empty when it has none.
pub uninterp spec fn url_host_of(s: Seq<char>) -> Seq<char>;

/// The serialized path of the URL written in `s`.
pub uninterp spec fn url_path_of(s: Seq<char>) -> Seq<char>;

/// The whole serialization of the URL written in `s`.
pub uninterp spec fn url_full_of(s: Seq<char>) -> Seq<char>;

/// The raw query string of the URL written in `s`, when one is present.
pub uninterp spec fn url_query_of(s: Seq<char>) -> Option<Seq<char>>;

/// Relies on `url::Url::parse`: whether a string is a well-formed URL is a
/// function of the string alone.  The error text is the parser's message.
#[verifier::external_body]
fn url_parse_raw(s: &str) -> (r: Result<url::Url, String>)
    ensures
        (r is Ok) == url_accepts(s@),
{
    match url::Url::parse(s) {
        Ok(u) => Ok(u),
        Err(e) => Err(e.to_string()),
    }
}

fn url_parse(s: &str) -> (r: Result<ParsedUrl, String>)
    ensures
        r matches Ok(p) ==> p.text() == s@ && url_accepts(s@),
        r is Err ==> !url_accepts(s@),
{
    match url_parse_raw(s) {
        Ok(u) => Ok(ParsedUrl { inner: u, src: Ghost(s@) }),
        Err(m) => Err(m),
    }
}

/// Relies on `url::Url::host_str`: the host part of the parsed URL, read
/// as empty when the URL has no host.
#[verifier::external_body]
fn url_host(p: &ParsedUrl) -> (r: String)
    ensures
        r@ == url_host_of(p.text()),
{
    match p.inner.host_str() {
        Some(h) => h.to_string(),
        None => String::new(),
    }
}

/// Relies on `url::Url::path`: the serialized path of the parsed URL.
#[verifier::external_body]
fn url_path(p: &ParsedUrl) -> (r: String)
    ensures
        r@ == url_path_of(p.text()),
{
    p.inner.path().to_string()
}

/// Relies on `url::Url::as_str`: the whole serialization of the parsed URL.
#[verifier::external_body]
fn url_full(p: &ParsedUrl) -> (r: String)
    ensures
        r@ == url_full_of(p.text()),
{
    p.inner.as_str().to_string()
}

/// Relies on `url::Url::query`: the raw query string of the parsed URL.
#[verifier::external_body]
fn url_query(p: &ParsedUrl) -> (r: Option<String>)
    ensures
        (r is Some) == (url_query_of(p.text()) is Some),
        r matches Some(q) ==> url_query_of(p.text()) == Some(q@),
{
    match p.inner.query() {
        Some(q) => Some(q.to_string()),
        None => None,
    }
}

/// The recognised Google Maps host fragments.
pub open spec fn host_is_google(h: Seq<char>) -> bool {
    spec_has_sub(h, "google.com"@) || spec_has_sub(h, "goo.gl"@) || spec_has_sub(
        h,
        "maps.app.goo.gl"@,
    )
}

// ---------------------------------------------------------------------
// Percent decoding
// ---------------------------------------------------------------------

/// The character a `%hh` escape decodes to.
pub open spec fn hex_pair_char(h1: char, h2: char) -> char {
    ((hex_val(h1) * 16 + hex_val(h2)) as u8) as char
}

/// Percent decoding as the extractor applies it: a `%` followed by two hex
/// digits becomes the byte they write, read as one character; a `%` whose
/// following characters are not two hex digits is kept, together with
/// whatever followed it.
pub open spec fn spec_percent_decode_from(s: Seq<char>, i: int) -> Seq<char>
    decreases s.len() - i,
{
    if i < 0 || i >= s.len() {
        Seq::empty()
    } else if s[i] == '%' {
        if i + 2 < s.len() {
            if is_hex_digit(s[i + 1]) && is_hex_digit(s[i + 2]) {
                seq![hex_pair_char(s[i + 1], s[i + 2])] + spec_percent_decode_from(s, i + 3)
            } else {
                seq!['%', s[i + 1], s[i + 2]] + spec_percent_decode_from(s, i + 3)
            }
        } else {
            seq!['%'] + s.subrange(i + 1, s.len() as int)
        }
    } else {
        seq![s[i]] + spec_percent_decode_from(s, i + 1)
    }
}

fn percent_decode_chars(v: &Vec<char>) -> (r: Vec<char>)
    ensures
        r@ == spec_percent_decode_from(v@, 0),
{
    let n = v.len();
    let mut r: Vec<char> = Vec::new();
    let mut i: usize = 0;
    while i < n
        invariant
            i <= n,
            n == v@.len(),
            r@ + spec_percent_decode_from(v@, i as int) =~= spec_percent_decode_from(v@, 0),
        decreases n - i,
    {
        let ghost r0 = r@;
        if v[i] == '%' {
            if n - i > 2 {
                let h1 = v[i + 1];
                let h2 = v[i + 2];
                if is_hex_digit_char(h1) && is_hex_digit_char(h2) {
                    let b: u8 = hex_val_char(h1) * 16 + hex_val_char(h2);
                    r.push(b as char);
                    proof {
                        assert(r@ =~= r0.push(hex_pair_char(h1, h2)));
                    }
                } else {
                    r.push('%');
                    r.push(h1);
                    r.push(h2);
                }
                i += 3;
            } else {
                r.push('%');
                let ghost iold = i as int;
                let mut j = i + 1;
                while j < n
                    invariant
                        0 <= iold,
                        iold + 1 <= j <= n,
                        n == v@.len(),
                        r@ =~= r0.push('%') + v@.subrange(iold + 1, j as int),
                    decreases n - j,
                {
                    r.push(v[j]);
                    j += 1;
                }
                i = n;
                proof {
                    assert(r@ =~= r0 + (seq!['%'] + v@.subrange(iold + 1, n as int)));
                }
            }
        } else {
            r.push(v[i]);
            i += 1;
        }
        proof {
            assert(r@ + spec_percent_decode_from(v@, i as int) =~= spec_percent_decode_from(
                v@,
                0,
            ));
        }
    }
    proof {
        assert(r@ =~= spec_percent_decode_from(v@, 0));
    }
    r
}

/// Decodes `%hh` escapes in a string, keeping malformed escapes verbatim.
pub fn urlencoding_decode(s: &str) -> (r: String)
    ensures
        r@ == spec_percent_decode_from(s@, 0),
{
    let v = chars_of(s);
    let d = percent_decode_chars(&v);
    chars_to_string(&d)
}

// ---------------------------------------------------------------------
// Path strategy
// ---------------------------------------------------------------------

/// One `lat,lon` candidate from a path segment: percent-decoded, `+` read
/// as space, both numbers in range.
pub open spec fn spec_segment_coord(seg: Seq<char>) -> Option<Coordinate> {
    let dec = spec_percent_decode_from(seg, 0);
    let cleaned = dec.map_values(
        |c: char|
            if c == '+' {
                ' '
            } else {
                c
            },
    );
    let parts = spec_split_from(cleaned, ',', 0);
    if parts.len() >= 2 {
        match spec_parse_e5(spec_trim(parts[0])) {
            Some(lat) => match spec_parse_e5(spec_trim(parts[1])) {
                Some(lon) => if -LAT_LIMIT_E5 <= lat <= LAT_LIMIT_E5 && -LON_LIMIT_E5 <= lon
                    <= LON_LIMIT_E5 {
                    Some(Coordinate { lat_e5: lat as i64, lon_e5: lon as i64, ele_e5: None })
                } else {
                    None
                },
                None => None,
            },
            None => None,
        }
    } else {
        None
    }
}

/// Reads one path segment as a coordinate, if it is one.
pub fn parse_coordinate_segment(segment: &str) -> (r: Option<Coordinate>)
    ensures
        r == spec_segment_coord(segment@),
{
    let decoded = urlencoding_decode(segment);
    let dv = chars_of(decoded.as_str());
    let cleaned = replace_char(&dv, '+', ' ');
    let parts = split_char(&cleaned, ',');
    if parts.len() >= 2 {
        proof {
            assert(parts.deep_view()[0] == parts@[0]@);
            assert(parts.deep_view()[1] == parts@[1]@);
        }
        let t0 = trim_chars(&parts[0]);
        let t1 = trim_chars(&parts[1]);
        let lat = match parse_e5(&t0) {
            Some(x) => x,
            None => {
                return None;
            },
        };
        let lon = match parse_e5(&t1) {
            Some(x) => x,
            None => {
                return None;
            },
        };
        if -LAT_LIMIT_E5 <= lat && lat <= LAT_LIMIT_E5 && -LON_LIMIT_E5 <= lon && lon
            <= LON_LIMIT_E5 {
            Some(Coordinate::new(lat, lon))
        } else {
            None
        }
    } else {
        None
    }
}

/// The coordinates collected from the path segments at `i` on: empty and
/// camera (`@`) and `data=` segments are passed over, and so is any
/// segment that does not read as an in-range coordinate.
pub open spec fn spec_segments_coords(parts: Seq<Seq<char>>, i: int) -> Seq<Coordinate>
    decreases parts.len() - i,
{
    if i < 0 || i >= parts.len() {
        Seq::empty()
    } else {
        let seg = parts[i];
        if seg.len() == 0 || seg[0] == '@' || spec_starts_with(seg, "data="@) {
            spec_segments_coords(parts, i + 1)
        } else {
            match spec_segment_coord(seg) {
                Some(c) => seq![c] + spec_segments_coords(parts, i + 1),
                None => spec_segments_coords(parts, i + 1),
            }
        }
    }
}

/// The coordinates written into the `/dir/` part of the path, when there
/// is such a part and at least one segment reads as a coordinate.
pub open spec fn spec_path_coords(path: Seq<char>) -> Option<Seq<Coordinate>> {
    match spec_find_sub_from(path, "/dir/"@, 0) {
        None => None,
        Some(i) => {
            let start = i + 5;
            let dirpart = match spec_find_sub_from(path, "/dir/"@, start) {
                Some(j) => path.subrange(start, j),
                None => path.subrange(start, path.len() as int),
            };
            let coords = spec_segments_coords(spec_split_from(dirpart, '/', 0), 0);
            if coords.len() == 0 {
                None
            } else {
                Some(coords)
            }
        },
    }
}

fn extract_coordinates_from_path(pu: &ParsedUrl) -> (r: Option<Vec<Coordinate>>)
    ensures
        match r {
            Some(v) => spec_path_coords(url_path_of(pu.text())) == Some(v@),
            None => spec_path_coords(url_path_of(pu.text())) is None,
        },
{
    let path = url_path(pu);
    let pv = chars_of(path.as_str());
    proof {
        reveal_strlit("/dir/");
    }
    // Naming the length as a machine word keeps the index sums below it.
    let pvn: usize = pv.len();
    let start = match find_sub_from(&pv, "/dir/", 0) {
        Some(i) => i + 5,
        None => {
            return None;
        },
    };
    let stop = match find_sub_from(&pv, "/dir/", start) {
        Some(j) => j,
        None => pv.len(),
    };
    let dirpart = subvec(&pv, start, stop);
    let parts = split_char(&dirpart, '/');
    let ghost pseq = parts.deep_view();
    let mut coords: Vec<Coordinate> = Vec::new();
    let mut k: usize = 0;
    let m = parts.len();
    while k < m
        invariant
            k <= m,
            m == pseq.len(),
            pseq == parts.deep_view(),
            coords@ + spec_segments_coords(pseq, k as int) =~= spec_segments_coords(pseq, 0),
        decreases m - k,
    {
        proof {
            assert(pseq[k as int] == parts@[k as int]@);
        }
        let seg = &parts[k];
        let skip = seg.len() == 0 || seg[0] == '@' || starts_with_pat(seg, "data=");
        if !skip {
            let s = chars_to_string(seg);
            match parse_coordinate_segment(s.as_str()) {
                Some(c) => {
                    coords.push(c);
                },
                None => {},
            }
        }
        k += 1;
    }
    if coords.len() == 0 {
        None
    } else {
        Some(coords)
    }
}

// ---------------------------------------------------------------------
// Polyline strategy
// ---------------------------------------------------------------------

/// Printable, not `!`, not `/`: what a polyline candidate may hold.
pub open spec fn likely_polyline_char(c: char) -> bool {
    33 <= c as u32 <= 126 && c != '!' && c != '/'
}

pub open spec fn spec_likely_polyline(s: Seq<char>) -> bool {
    forall|j: int| 0 <= j < s.len() ==> likely_polyline_char(#[trigger] s[j])
}

/// Whether every character of the string may sit inside an encoded
/// polyline.
pub fn is_likely_polyline(s: &str) -> (r: bool)
    ensures
        r == spec_likely_polyline(s@),
{
    let v = chars_of(s);
    let n = v.len();
    let mut i: usize = 0;
    while i < n
        invariant
            i <= n,
            n == v@.len(),
            v@ == s@,
            forall|j: int| 0 <= j < i ==> likely_polyline_char(#[trigger] s@[j]),
        decreases n - i,
    {
        let c = v[i];
        let u = c as u32;
        if !(33 <= u && u <= 126) || c == '!' || c == '/' {
            return false;
        }
        i += 1;
    }
    true
}

/// The first polyline candidate among the `!`-separated parts at `i` on: a
/// `1m`/`2m` part followed by a `1s`/`2s` part whose remainder is longer
/// than ten characters and looks like a polyline.
pub open spec fn spec_poly_token(parts: Seq<Seq<char>>, i: int) -> Option<Seq<char>>
    decreases parts.len() - i,
{
    if i < 0 || i + 1 >= parts.len() {
        None
    } else {
        let p = parts[i];
        let nxt = parts[i + 1];
        if (spec_starts_with(p, "1m"@) || spec_starts_with(p, "2m"@)) && (spec_starts_with(
            nxt,
            "1s"@,
        ) || spec_starts_with(nxt, "2s"@)) && nxt.len() > 12 && spec_likely_polyline(nxt.skip(2)) {
            Some(nxt.skip(2))
        } else {
            spec_poly_token(parts, i + 1)
        }
    }
}

/// The first polyline candidate in a `data=` blob.
pub open spec fn spec_find_polyline(data: Seq<char>) -> Option<Seq<char>> {
    spec_poly_token(spec_split_from(data, '!', 0), 0)
}

/// Searches a `data=` blob for an encoded polyline token.
pub fn find_polyline_in_data(data: &str) -> (r: Option<String>)
    ensures
        match r {
            Some(p) => spec_find_polyline(data@) == Some(p@),
            None => spec_find_polyline(data@) is None,
        },
{
    let dv = chars_of(data);
    let parts = split_char(&dv, '!');
    let ghost pseq = parts.deep_view();
    let m = parts.len();
    if m == 0 {
        return None;
    }
    let mut i: usize = 0;
    while i < m - 1
        invariant
            i <= m,
            m >= 1,
            m == pseq.len(),
            pseq == parts.deep_view(),
            pseq == spec_split_from(data@, '!', 0),
            spec_poly_token(pseq, 0) == spec_poly_token(pseq, i as int),
        decreases m - i,
    {
        proof {
            assert(pseq[i as int] == parts@[i as int]@);
            assert(pseq[i + 1] == parts@[i + 1]@);
        }
        let p = &parts[i];
        let nxt = &parts[i + 1];
        if (starts_with_pat(p, "1m") || starts_with_pat(p, "2m")) && (starts_with_pat(nxt, "1s")
            || starts_with_pat(nxt, "2s")) && nxt.len() > 12 {
            let rest = subvec(nxt, 2, nxt.len());
            let rs = chars_to_string(&rest);
            if is_likely_polyline(rs.as_str()) {
                proof {
                    assert(rest@ =~= pseq[i as int + 1].skip(2));
                }
                return Some(rs);
            }
        }
        i += 1;
    }
    None
}

/// The polyline candidate of a URL: from the decoded `data` query
/// parameter when one is present, else from a `data=` block embedded in
/// the path, cut at the next `/`.
pub open spec fn spec_url_poly_candidate(s: Seq<char>) -> Option<Seq<char>> {
    let via_query = match url_query_of(s) {
        Some(q) => spec_query_data_param(q),
        None => None,
    };
    match via_query {
        Some(v) => spec_find_polyline(v),
        None => {
            let path = url_path_of(s);
            match spec_find_sub_from(path, "data="@, 0) {
                Some(i) => {
                    let start = i + 5;
                    let block = match spec_find_char_from(path, '/', start) {
                        Some(j) => path.subrange(start, j),
                        None => path.subrange(start, path.len() as int),
                    };
                    spec_find_polyline(block)
                },
                None => None,
            }
        },
    }
}

/// Form decoding of one query token: `+` as space, then percent escapes.
pub open spec fn spec_form_decode(s: Seq<char>) -> Seq<char> {
    spec_percent_decode_from(
        s.map_values(
            |c: char|
                if c == '+' {
                    ' '
                } else {
                    c
                },
        ),
        0,
    )
}

/// The decoded value of the first `data` parameter among the
/// `&`-separated query pairs at `i` on.
pub open spec fn spec_query_pairs_data(pairs: Seq<Seq<char>>, i: int) -> Option<Seq<char>>
    decreases pairs.len() - i,
{
    if i < 0 || i >= pairs.len() {
        None
    } else {
        let pair = pairs[i];
        let key = match spec_find_char_from(pair, '=', 0) {
            Some(e) => pair.subrange(0, e),
            None => pair,
        };
        let value = match spec_find_char_from(pair, '=', 0) {
            Some(e) => pair.subrange(e + 1, pair.len() as int),
            None => Seq::empty(),
        };
        if spec_form_decode(key) == "data"@ {
            Some(spec_form_decode(value))
        } else {
            spec_query_pairs_data(pairs, i + 1)
        }
    }
}

/// The decoded `data` parameter of a query string, when present.
pub open spec fn spec_query_data_param(q: Seq<char>) -> Option<Seq<char>> {
    spec_query_pairs_data(spec_split_from(q, '&', 0), 0)
}

fn form_decode(v: &Vec<char>) -> (r: Vec<char>)
    ensures
        r@ == spec_form_decode(v@),
{
    let replaced = replace_char(v, '+', ' ');
    percent_decode_chars(&replaced)
}

fn query_data_param(q: &str) -> (r: Option<String>)
    ensures
        match r {
            Some(v) => spec_query_data_param(q@) == Some(v@),
            None => spec_query_data_param(q@) is None,
        },
{
    let qv = chars_of(q);
    let pairs = split_char(&qv, '&');
    let ghost pseq = pairs.deep_view();
    let m = pairs.len();
    let mut i: usize = 0;
    while i < m
        invariant
            i <= m,
            m == pseq.len(),
            pseq == pairs.deep_view(),
            pseq == spec_split_from(q@, '&', 0),
            spec_query_pairs_data(pseq, 0) == spec_query_pairs_data(pseq, i as int),
        decreases m - i,
    {
        proof {
            assert(pseq[i as int] == pairs@[i as int]@);
        }
        let pair = &pairs[i];
        // Naming the length as a machine word keeps the index sums below it.
        let pn: usize = pair.len();
        let (key, value): (Vec<char>, Vec<char>) = match find_char_from(pair, '=', 0) {
            Some(e) => (subvec(pair, 0, e), subvec(pair, e + 1, pn)),
            None => (subvec(pair, 0, pair.len()), Vec::new()),
        };
        proof {
            if spec_find_char_from(pair@, '=', 0) is None {
                assert(key@ =~= pair@);
                assert(value@ =~= Seq::<char>::empty());
            }
        }
        let dk = form_decode(&key);
        let ks = chars_to_string(&dk);
        if crate::text::str_eq(ks.as_str(), "data") {
            let dv = form_decode(&value);
            return Some(chars_to_string(&dv));
        }
        i += 1;
    }
    None
}

/// Searches the URL's `data` parameter, or a `data=` block in its path,
/// for an encoded polyline.
pub fn extract_polyline_from_data(pu: &ParsedUrl) -> (r: Option<String>)
    ensures
        match r {
            Some(p) => spec_url_poly_candidate(pu.text()) == Some(p@),
            None => spec_url_poly_candidate(pu.text()) is None,
        },
{
    let data_param = match url_query(pu) {
        Some(q) => query_data_param(q.as_str()),
        None => None,
    };
    match data_param {
        Some(v) => find_polyline_in_data(v.as_str()),
        None => {
            let path = url_path(pu);
            let pv = chars_of(path.as_str());
            proof {
                reveal_strlit("data=");
            }
            // Naming the length as a machine word keeps the index sums below it.
            let pvn: usize = pv.len();
            match find_sub_from(&pv, "data=", 0) {
                Some(i) => {
                    let start = i + 5;
                    let stop = match find_char_from(&pv, '/', start) {
                        Some(j) => j,
                        None => pv.len(),
                    };
                    let block = subvec(&pv, start, stop);
                    let bs = chars_to_string(&block);
                    find_polyline_in_data(bs.as_str())
                },
                None => None,
            }
        },
    }
}

// ---------------------------------------------------------------------
// data= coordinate pair fallback
// ---------------------------------------------------------------------

/// The coordinates collected from `!`-separated parts at `i` on: a `1d`
/// part buffers a longitude, a `2d` part closes it into a coordinate when
/// both numbers read and sit in range.
pub open spec fn spec_scan_1d2d(parts: Seq<Seq<char>>, i: int, pending: Option<int>) -> Seq<
    Coordinate,
>
    decreases parts.len() - i,
{
    if i < 0 || i >= parts.len() {
        Seq::empty()
    } else {
        let p = parts[i];
        if spec_starts_with(p, "1d"@) {
            match spec_parse_e5(p.skip(2)) {
                Some(lon) => spec_scan_1d2d(parts, i + 1, Some(lon)),
                None => spec_scan_1d2d(parts, i + 1, pending),
            }
        } else if spec_starts_with(p, "2d"@) {
            match pending {
                Some(lon) => match spec_parse_e5(p.skip(2)) {
                    Some(lat) => if -LAT_LIMIT_E5 <= lat <= LAT_LIMIT_E5 && -LON_LIMIT_E5 <= lon
                        <= LON_LIMIT_E5 {
                        seq![Coordinate { lat_e5: lat as i64, lon_e5: lon as i64, ele_e5: None }]
                            + spec_scan_1d2d(parts, i + 1, None)
                    } else {
                        spec_scan_1d2d(parts, i + 1, None)
                    },
                    None => spec_scan_1d2d(parts, i + 1, pending),
                },
                None => spec_scan_1d2d(parts, i + 1, pending),
            }
        } else {
            spec_scan_1d2d(parts, i + 1, pending)
        }
    }
}

/// The coordinate pairs of the `data=` blob of a serialized URL.
pub open spec fn spec_data_coords(full: Seq<char>) -> Option<Seq<Coordinate>> {
    match spec_find_sub_from(full, "data="@, 0) {
        None => None,
        Some(i) => {
            let coords = spec_scan_1d2d(
                spec_split_from(full.subrange(i, full.len() as int), '!', 0),
                0,
                None,
            );
            if coords.len() == 0 {
                None
            } else {
                Some(coords)
            }
        },
    }
}

fn extract_coordinates_from_data(pu: &ParsedUrl) -> (r: Option<Vec<Coordinate>>)
    ensures
        match r {
            Some(v) => spec_data_coords(url_full_of(pu.text())) == Some(v@),
            None => spec_data_coords(url_full_of(pu.text())) is None,
        },
{
    let full = url_full(pu);
    let fv = chars_of(full.as_str());
    let dstart = match find_sub_from(&fv, "data=", 0) {
        Some(i) => i,
        None => {
            return None;
        },
    };
    let datastr = subvec(&fv, dstart, fv.len());
    let parts = split_char(&datastr, '!');
    let ghost pseq = parts.deep_view();
    let m = parts.len();
    let mut coords: Vec<Coordinate> = Vec::new();
    let mut pending: Option<i64> = None;
    let mut i: usize = 0;
    while i < m
        invariant
            i <= m,
            m == pseq.len(),
            pseq == parts.deep_view(),
            match pending {
                Some(x) => spec_scan_1d2d(pseq, i as int, Some(x as int)) == spec_scan_1d2d(
                    pseq,
                    i as int,
                    spec_pending_view(pending),
                ),
                None => true,
            },
            coords@ + spec_scan_1d2d(pseq, i as int, spec_pending_view(pending))
                =~= spec_scan_1d2d(pseq, 0, None),
        decreases m - i,
    {
        proof {
            reveal_strlit("1d");
            reveal_strlit("2d");
            assert(pseq[i as int] == parts@[i as int]@);
        }
        let p = &parts[i];
        if starts_with_pat(p, "1d") {
            let rest = subvec(p, 2, p.len());
            proof {
                assert(rest@ =~= pseq[i as int].skip(2));
            }
            match parse_e5(&rest) {
                Some(lon) => {
                    pending = Some(lon);
                },
                None => {},
            }
        } else if starts_with_pat(p, "2d") {
            let rest = subvec(p, 2, p.len());
            proof {
                assert(rest@ =~= pseq[i as int].skip(2));
            }
            match pending {
                Some(lon) => match parse_e5(&rest) {
                    Some(lat) => {
                        if -LAT_LIMIT_E5 <= lat && lat <= LAT_LIMIT_E5 && -LON_LIMIT_E5 <= lon
                            && lon <= LON_LIMIT_E5 {
                            coords.push(Coordinate::new(lat, lon));
                        }
                        pending = None;
                    },
                    None => {},
                },
                None => {},
            }
        }
        i += 1;
    }
    if coords.len() == 0 {
        None
    } else {
        Some(coords)
    }
}

pub open spec fn spec_pending_view(p: Option<i64>) -> Option<int> {
    match p {
        Some(x) => Some(x as int),
        None => None,
    }
}

// ---------------------------------------------------------------------
// Merge and entry point
// ---------------------------------------------------------------------

/// The waypoint name by position: the first is `Start`, the last is `End`,
/// and every other is `Waypoint` with its index.
pub open spec fn spec_wp_name(i: int, n: int) -> Seq<char> {
    if i == 0 {
        "Start"@
    } else if i == n - 1 {
        "End"@
    } else {
        "Waypoint "@ + spec_dec_digits(i)
    }
}

/// The waypoints made of `coords[i ..]`, named by position.
pub open spec fn spec_named_waypoints(coords: Seq<Coordinate>, i: int) -> Seq<WaypointModel>
    decreases coords.len() - i,
{
    if i < 0 || i >= coords.len() {
        Seq::empty()
    } else {
        seq![
            WaypointModel {
                coord: coords[i],
                name: Some(spec_wp_name(i, coords.len() as int)),
            }
        ] + spec_named_waypoints(coords, i + 1)
    }
}

/// An unnamed track holding the coordinates as its one segment.
pub open spec fn spec_track_of(coords: Seq<Coordinate>) -> TrackModel {
    TrackModel { name: None, segments: seq![coords] }
}

/// The merge of the three extraction strategies, in precedence order:
/// path coordinates name the waypoints and lay a track when there are two
/// or more; a decoded polyline replaces the first track's geometry, or
/// lays the track itself; the `data=` pairs are used only when the first
/// two strategies produced nothing at all.  `None` when the route stays
/// empty.
pub open spec fn spec_build_route(
    path: Option<Seq<Coordinate>>,
    poly: Option<Seq<Coordinate>>,
    data: Option<Seq<Coordinate>>,
) -> Option<RouteModel> {
    let r1 = match path {
        Some(cs) => RouteModel {
            name: None,
            waypoints: spec_named_waypoints(cs, 0),
            tracks: if cs.len() >= 2 {
                seq![spec_track_of(cs)]
            } else {
                Seq::empty()
            },
        },
        None => empty_route_model(),
    };
    let r2 = match poly {
        Some(ps) => if r1.tracks.len() == 0 {
            RouteModel { tracks: seq![spec_track_of(ps)], ..r1 }
        } else {
            RouteModel {
                tracks: r1.tracks.update(
                    0,
                    TrackModel { name: r1.tracks[0].name, segments: seq![ps] },
                ),
                ..r1
            }
        },
        None => r1,
    };
    let r3 = if r2.waypoints.len() == 0 && r2.tracks.len() == 0 {
        match data {
            Some(cs) => RouteModel {
                name: None,
                waypoints: spec_named_waypoints(cs, 0),
                tracks: if cs.len() >= 2 {
                    seq![spec_track_of(cs)]
                } else {
                    Seq::empty()
                },
            },
            None => r2,
        }
    } else {
        r2
    };
    if r3.waypoints.len() == 0 && r3.tracks.len() == 0 {
        None
    } else {
        Some(r3)
    }
}

/// The decoded, non-empty polyline geometry of the URL, when its `data=`
/// blob holds one.
pub open spec fn spec_url_poly_coords(s: Seq<char>) -> Option<Seq<Coordinate>> {
    match spec_url_poly_candidate(s) {
        Some(cand) => match spec_poly_decode(encode_utf8(cand)) {
            Ok(cs) => if cs.len() > 0 {
                Some(cs)
            } else {
                None
            },
            Err(_) => None,
        },
        None => None,
    }
}

/// The route a Google Maps URL describes, by the three-strategy merge.
pub open spec fn spec_url_route(s: Seq<char>) -> Option<RouteModel> {
    spec_build_route(
        spec_path_coords(url_path_of(s)),
        spec_url_poly_coords(s),
        spec_data_coords(url_full_of(s)),
    )
}

fn named_waypoints(coords: &Vec<Coordinate>) -> (r: Vec<Waypoint>)
    ensures
        r@.map_values(|w: Waypoint| w@) == spec_named_waypoints(coords@, 0),
{
    let n = coords.len();
    let mut r: Vec<Waypoint> = Vec::new();
    let mut i: usize = 0;
    while i < n
        invariant
            i <= n,
            n == coords@.len(),
            r@.map_values(|w: Waypoint| w@) + spec_named_waypoints(coords@, i as int)
                =~= spec_named_waypoints(coords@, 0),
        decreases n - i,
    {
        let ghost r0 = r@.map_values(|w: Waypoint| w@);
        let name: String = if i == 0 {
            "Start".to_owned()
        } else if i == n - 1 {
            "End".to_owned()
        } else {
            let mut s = "Waypoint ".to_owned();
            let d = chars_to_string(&dec_digits(i as u64));
            s.append(d.as_str());
            s
        };
        proof {
            assert(name@ == spec_wp_name(i as int, n as int));
        }
        r.push(Waypoint::with_name(coords[i], name));
        proof {
            assert(r@.map_values(|w: Waypoint| w@) =~= r0.push(
                WaypointModel {
                    coord: coords@[i as int],
                    name: Some(spec_wp_name(i as int, n as int)),
                },
            ));
            assert(r@.map_values(|w: Waypoint| w@) + spec_named_waypoints(coords@, i + 1)
                =~= spec_named_waypoints(coords@, 0));
        }
        i += 1;
    }
    proof {
        assert(r@.map_values(|w: Waypoint| w@) =~= spec_named_waypoints(coords@, 0));
    }
    r
}

fn single_segment_track(coords: Vec<Coordinate>) -> (r: Track)
    ensures
        r@ == spec_track_of(coords@),
{
    let segment = TrackSegment::new(coords);
    let ghost sview = segment@;
    let track = Track::new(vec![segment]);
    proof {
        assert(track@.segments =~= seq![sview]);
        assert(track@ =~= spec_track_of(sview));
    }
    track
}

pub open spec fn opt_coords_view(o: Option<Vec<Coordinate>>) -> Option<Seq<Coordinate>> {
    match o {
        Some(v) => Some(v@),
        None => None,
    }
}

fn build_route(
    path: Option<Vec<Coordinate>>,
    poly: Option<Vec<Coordinate>>,
    data: Option<Vec<Coordinate>>,
) -> (r: Option<Route>)
    ensures
        match r {
            Some(route) => spec_build_route(
                opt_coords_view(path),
                opt_coords_view(poly),
                opt_coords_view(data),
            ) == Some(route@),
            None => spec_build_route(
                opt_coords_view(path),
                opt_coords_view(poly),
                opt_coords_view(data),
            ) is None,
        },
{
    let ghost spath = opt_coords_view(path);
    let ghost spoly = opt_coords_view(poly);
    let ghost sdata = opt_coords_view(data);
    let mut route = Route::new();
    match path {
        Some(cs) => {
            let ghost csv = cs@;
            let mut wps = named_waypoints(&cs);
            let two = cs.len() >= 2;
            route.waypoints = wps;
            if two {
                let t = single_segment_track(cs);
                route.tracks.push(t);
            }
            proof {
                assert(route@.waypoints =~= spec_named_waypoints(csv, 0));
                if csv.len() >= 2 {
                    assert(route@.tracks =~= seq![spec_track_of(csv)]);
                } else {
                    assert(route@.tracks =~= Seq::<TrackModel>::empty());
                }
            }
        },
        None => {},
    }
    let ghost r1 = match spath {
        Some(cs) => RouteModel {
            name: None,
            waypoints: spec_named_waypoints(cs, 0),
            tracks: if cs.len() >= 2 {
                seq![spec_track_of(cs)]
            } else {
                Seq::empty()
            },
        },
        None => empty_route_model(),
    };
    proof {
        assert(route@ =~= r1);
    }
    match poly {
        Some(ps) => {
            let ghost psv = ps@;
            let t = single_segment_track(ps);
            if route.tracks.len() == 0 {
                route.tracks.push(t);
                proof {
                    assert(route@.tracks =~= seq![spec_track_of(psv)]);
                }
            } else {
                let name = route.tracks[0].name.clone();
                let mut segments = t.segments;
                let replaced = Track { name, segments };
                route.tracks.set(0, replaced);
                proof {
                    assert(route@.tracks =~= r1.tracks.update(
                        0,
                        TrackModel { name: r1.tracks[0].name, segments: seq![psv] },
                    ));
                }
            }
        },
        None => {},
    }
    let ghost r2 = match spoly {
        Some(ps) => if r1.tracks.len() == 0 {
            RouteModel { tracks: seq![spec_track_of(ps)], ..r1 }
        } else {
            RouteModel {
                tracks: r1.tracks.update(
                    0,
                    TrackModel { name: r1.tracks[0].name, segments: seq![ps] },
                ),
                ..r1
            }
        },
        None => r1,
    };
    proof {
        assert(route@ =~= r2);
    }
    if route.waypoints.len() == 0 && route.tracks.len() == 0 {
        match data {
            Some(cs) => {
                let ghost csv = cs@;
                let wps = named_waypoints(&cs);
                let two = cs.len() >= 2;
                route.waypoints = wps;
                if two {
                    let t = single_segment_track(cs);
                    route.tracks.push(t);
                }
                proof {
                    assert(route@.waypoints =~= spec_named_waypoints(csv, 0));
                    if csv.len() >= 2 {
                        assert(route@.tracks =~= r2.tracks + seq![spec_track_of(csv)]);
                        assert(route@.tracks =~= seq![spec_track_of(csv)]);
                    } else {
                        assert(route@.tracks =~= Seq::<TrackModel>::empty());
                    }
                }
            },
            None => {},
        }
    }
    let ghost r3 = if r2.waypoints.len() == 0 && r2.tracks.len() == 0 {
        match sdata {
            Some(cs) => RouteModel {
                name: None,
                waypoints: spec_named_waypoints(cs, 0),
                tracks: if cs.len() >= 2 {
                    seq![spec_track_of(cs)]
                } else {
                    Seq::empty()
                },
            },
            None => r2,
        }
    } else {
        r2
    };
    proof {
        assert(route@ =~= r3);
    }
    if route.waypoints.len() == 0 && route.tracks.len() == 0 {
        None
    } else {
        Some(route)
    }
}

/// Parses a Google Maps sharing URL into the route it describes.
///
/// A string the URL parser refuses is `InvalidUrl`; a URL whose host names
/// none of the known Google Maps domains is `NotGoogleMaps`; a Google Maps
/// URL from which no strategy recovers geometry is `NoRouteData`.
pub fn parse(url_str: &str) -> (r: Result<Route, UrlParseError>)
    ensures
        !url_accepts(url_str@) ==> (r matches Err(e) && e matches UrlParseError::InvalidUrl(_)),
        url_accepts(url_str@) && !host_is_google(url_host_of(url_str@)) ==> r == Err::<
            Route,
            UrlParseError,
        >(UrlParseError::NotGoogleMaps),
        url_accepts(url_str@) && host_is_google(url_host_of(url_str@)) ==> match spec_url_route(
            url_str@,
        ) {
            Some(m) => r matches Ok(route) && route@ == m,
            None => r == Err::<Route, UrlParseError>(UrlParseError::NoRouteData),
        },
{
    let pu = match url_parse(url_str) {
        Ok(p) => p,
        Err(m) => {
            return Err(UrlParseError::InvalidUrl(m));
        },
    };
    let host = url_host(&pu);
    let hv = chars_of(host.as_str());
    if !(contains_sub(&hv, "google.com") || contains_sub(&hv, "goo.gl") || contains_sub(
        &hv,
        "maps.app.goo.gl",
    )) {
        return Err(UrlParseError::NotGoogleMaps);
    }
    let path_coords = extract_coordinates_from_path(&pu);
    let poly: Option<Vec<Coordinate>> = match extract_polyline_from_data(&pu) {
        Some(encoded) => {
            match polyline::decode(encoded.as_str()) {
                Ok(cs) => {
                    if cs.len() > 0 {
                        Some(cs)
                    } else {
                        None
                    }
                },
                Err(_) => None,
            }
        },
        None => None,
    };
    let data_coords = extract_coordinates_from_data(&pu);
    match build_route(path_coords, poly, data_coords) {
        Some(route) => Ok(route),
        None => Err(UrlParseError::NoRouteData),
    }
}

// ---------------------------------------------------------------------
// Laws of the merge
// ---------------------------------------------------------------------

/// Polyline precedence: when the path yields waypoints and the `data=`
/// blob a decoded polyline, the waypoints come from the path, yet the one
/// track's geometry is the polyline, not the path coordinates.
pub proof fn lemma_polyline_precedence(
    path: Seq<Coordinate>,
    poly: Seq<Coordinate>,
    data: Option<Seq<Coordinate>>,
)
    requires
        path.len() >= 1,
        poly.len() >= 1,
    ensures
        ({
            let r = spec_build_route(Some(path), Some(poly), data);
            &&& r is Some
            &&& r->Some_0.waypoints == spec_named_waypoints(path, 0)
            &&& r->Some_0.tracks.len() == 1
            &&& r->Some_0.tracks[0].segments == seq![poly]
        }),
{
    assert(spec_named_waypoints(path, 0).len() >= 1);
    if path.len() >= 2 {
        let r = spec_build_route(Some(path), Some(poly), data);
        assert(r->Some_0.tracks =~= seq![spec_track_of(path)].update(
            0,
            TrackModel { name: spec_track_of(path).name, segments: seq![poly] },
        ));
    }
}

/// The `data=` fallback fills the route when the path and the polyline
/// both produced nothing.
pub proof fn lemma_data_fallback_used(data: Seq<Coordinate>)
    requires
        data.len() >= 1,
    ensures
        ({
            let r = spec_build_route(None, None, Some(data));
            &&& r is Some
            &&& r->Some_0.waypoints == spec_named_waypoints(data, 0)
            &&& r->Some_0.tracks == if data.len() >= 2 {
                seq![spec_track_of(data)]
            } else {
                Seq::<TrackModel>::empty()
            }
        }),
{
    assert(spec_named_waypoints(data, 0).len() >= 1);
}

/// The `data=` fallback is ignored whenever the path or the polyline
/// produced anything: the merge does not depend on it then.
pub proof fn lemma_data_fallback_ignored(
    path: Option<Seq<Coordinate>>,
    poly: Option<Seq<Coordinate>>,
    d1: Option<Seq<Coordinate>>,
    d2: Option<Seq<Coordinate>>,
)
    requires
        ({
            let a = match path {
                Some(p) => p.len() >= 1,
                None => false,
            };
            let b = match poly {
                Some(q) => q.len() >= 1,
                None => false,
            };
            a || b
        }),
    ensures
        spec_build_route(path, poly, d1) == spec_build_route(path, poly, d2),
{
    match path {
        Some(p) => {
            if p.len() >= 1 {
                assert(spec_named_waypoints(p, 0).len() >= 1);
            }
        },
        None => {},
    }
}

} // verus!
