//! The normalized route model shared by every producer.
//!
//! Latitudes and longitudes are stored as degrees scaled by `1e5` in an
//! `i64` (the resolution of the polyline wire format); elevations use the
//! same scale.  The type itself does not restrict the stored range: the
//! extractors check ranges at their parse boundaries.

use vstd::prelude::*;

verus! {

/// One geographic position in fixed point: degrees scaled by `1e5`.
#[derive(Debug, Clone, Copy, PartialEq, Eq, Structural)]
pub struct Coordinate {
    pub lat_e5: i64,
    pub lon_e5: i64,
    pub ele_e5: Option<i64>,
}

impl Coordinate {
    pub fn new(lat_e5: i64, lon_e5: i64) -> (r: Self)
        ensures
            r == (Coordinate { lat_e5, lon_e5, ele_e5: None }),
    {
        Self { lat_e5, lon_e5, ele_e5: None }
    }

    pub fn with_elevation(lat_e5: i64, lon_e5: i64, ele_e5: i64) -> (r: Self)
        ensures
            r == (Coordinate { lat_e5, lon_e5, ele_e5: Some(ele_e5) }),
    {
        Self { lat_e5, lon_e5, ele_e5: Some(ele_e5) }
    }
}

/// The name field of a waypoint, track or route, as a sequence of characters.
pub open spec fn opt_name_view(o: Option<String>) -> Option<Seq<char>> {
    match o {
        Some(s) => Some(s@),
        None => None,
    }
}

/// A single named or anonymous point of interest.
#[derive(Debug, Clone, PartialEq)]
pub struct Waypoint {
    pub coord: Coordinate,
    pub name: Option<String>,
}

/// Mathematical image of a [`Waypoint`].
pub struct WaypointModel {
    pub coord: Coordinate,
    pub name: Option<Seq<char>>,
}

impl View for Waypoint {
    type V = WaypointModel;

    open spec fn view(&self) -> WaypointModel {
        WaypointModel { coord: self.coord, name: opt_name_view(self.name) }
    }
}

impl Waypoint {
    pub fn new(coord: Coordinate) -> (r: Self)
        ensures
            r@ == (WaypointModel { coord, name: None::<Seq<char>> }),
    {
        Self { coord, name: None }
    }

    pub fn with_name(coord: Coordinate, name: String) -> (r: Self)
        ensures
            r@ == (WaypointModel { coord, name: Some(name@) }),
    {
        Self { coord, name: Some(name) }
    }
}

/// A contiguous run of track points; order is significant and kept.
#[derive(Debug, Clone, PartialEq)]
pub struct TrackSegment {
    pub points: Vec<Coordinate>,
}

impl View for TrackSegment {
    type V = Seq<Coordinate>;

    open spec fn view(&self) -> Seq<Coordinate> {
        self.points@
    }
}

impl TrackSegment {
    pub fn new(points: Vec<Coordinate>) -> (r: Self)
        ensures
            r@ == points@,
    {
        Self { points }
    }
}

/// An ordered list of segments under one optional name.
#[derive(Debug, Clone, PartialEq)]
pub struct Track {
    pub name: Option<String>,
    pub segments: Vec<TrackSegment>,
}

/// Mathematical image of a [`Track`].
pub struct TrackModel {
    pub name: Option<Seq<char>>,
    pub segments: Seq<Seq<Coordinate>>,
}

impl View for Track {
    type V = TrackModel;

    open spec fn view(&self) -> TrackModel {
        TrackModel {
            name: opt_name_view(self.name),
            segments: self.segments@.map_values(|s: TrackSegment| s@),
        }
    }
}

impl Track {
    pub fn new(segments: Vec<TrackSegment>) -> (r: Self)
        ensures
            r@ == (TrackModel {
                name: None::<Seq<char>>,
                segments: segments@.map_values(|s: TrackSegment| s@),
            }),
    {
        Self { name: None, segments }
    }

    pub fn with_name(name: String, segments: Vec<TrackSegment>) -> (r: Self)
        ensures
            r@ == (TrackModel {
                name: Some(name@),
                segments: segments@.map_values(|s: TrackSegment| s@),
            }),
    {
        Self { name: Some(name), segments }
    }
}

/// The unit exchanged between the producers and the GPX writer.
#[derive(Debug, Clone, PartialEq)]
pub struct Route {
    pub name: Option<String>,
    pub waypoints: Vec<Waypoint>,
    pub tracks: Vec<Track>,
}

/// Mathematical image of a [`Route`].
pub struct RouteModel {
    pub name: Option<Seq<char>>,
    pub waypoints: Seq<WaypointModel>,
    pub tracks: Seq<TrackModel>,
}

impl View for Route {
    type V = RouteModel;

    open spec fn view(&self) -> RouteModel {
        RouteModel {
            name: opt_name_view(self.name),
            waypoints: self.waypoints@.map_values(|w: Waypoint| w@),
            tracks: self.tracks@.map_values(|t: Track| t@),
        }
    }
}

/// The empty route model, before any producer has filled it.
pub open spec fn empty_route_model() -> RouteModel {
    RouteModel {
        name: None,
        waypoints: Seq::empty(),
        tracks: Seq::empty(),
    }
}

impl Route {
    pub fn new() -> (r: Self)
        ensures
            r@ == empty_route_model(),
    {
        let r = Self { name: None, waypoints: Vec::new(), tracks: Vec::new() };
        proof {
            assert(r@.waypoints =~= Seq::<WaypointModel>::empty());
            assert(r@.tracks =~= Seq::<TrackModel>::empty());
            assert(r@ =~= empty_route_model());
        }
        r
    }

    pub fn with_name(name: String) -> (r: Self)
        ensures
            r@ == (RouteModel {
                name: Some(name@),
                waypoints: Seq::<WaypointModel>::empty(),
                tracks: Seq::<TrackModel>::empty(),
            }),
    {
        let r = Self { name: Some(name), waypoints: Vec::new(), tracks: Vec::new() };
        proof {
            assert(r@.waypoints =~= Seq::<WaypointModel>::empty());
            assert(r@.tracks =~= Seq::<TrackModel>::empty());
        }
        r
    }

    pub fn add_waypoint(&mut self, waypoint: Waypoint)
        ensures
            final(self)@ == (RouteModel {
                waypoints: old(self)@.waypoints.push(waypoint@),
                ..old(self)@
            }),
    {
        self.waypoints.push(waypoint);
        proof {
            assert(final(self)@.waypoints =~= old(self)@.waypoints.push(waypoint@));
            assert(final(self)@ =~= (RouteModel {
                waypoints: old(self)@.waypoints.push(waypoint@),
                ..old(self)@
            }));
        }
    }

    pub fn add_track(&mut self, track: Track)
        ensures
            final(self)@ == (RouteModel {
                tracks: old(self)@.tracks.push(track@),
                ..old(self)@
            }),
    {
        self.tracks.push(track);
        proof {
            assert(final(self)@.tracks =~= old(self)@.tracks.push(track@));
            assert(final(self)@ =~= (RouteModel {
                tracks: old(self)@.tracks.push(track@),
                ..old(self)@
            }));
        }
    }
}

/// The `(lon, lat)` pairs of one segment's points, from `k` on.
pub open spec fn spec_seg_pairs(pts: Seq<Coordinate>, k: int) -> Seq<(i64, i64)>
    decreases pts.len() - k,
{
    if k < 0 || k >= pts.len() {
        Seq::empty()
    } else {
        seq![(pts[k].lon_e5, pts[k].lat_e5)] + spec_seg_pairs(pts, k + 1)
    }
}

/// The `(lon, lat)` pairs of one track's segments, from `j` on.
pub open spec fn spec_track_pairs(segs: Seq<Seq<Coordinate>>, j: int) -> Seq<(i64, i64)>
    decreases segs.len() - j,
{
    if j < 0 || j >= segs.len() {
        Seq::empty()
    } else {
        spec_seg_pairs(segs[j], 0) + spec_track_pairs(segs, j + 1)
    }
}

/// The `(lon, lat)` pairs of all tracks, from `i` on.
pub open spec fn spec_route_pairs(tracks: Seq<TrackModel>, i: int) -> Seq<(i64, i64)>
    decreases tracks.len() - i,
{
    if i < 0 || i >= tracks.len() {
        Seq::empty()
    } else {
        spec_track_pairs(tracks[i].segments, 0) + spec_route_pairs(tracks, i + 1)
    }
}

impl Route {
    /// Every track point of the route as a `(lon, lat)` pair, in track,
    /// segment and point order.  Waypoints are not included.
    pub fn all_coordinates(&self) -> (r: Vec<(i64, i64)>)
        ensures
            r@ == spec_route_pairs(self@.tracks, 0),
    {
        let mut coords: Vec<(i64, i64)> = Vec::new();
        let nt = self.tracks.len();
        let mut i: usize = 0;
        while i < nt
            invariant
                i <= nt,
                nt == self@.tracks.len(),
                coords@ + spec_route_pairs(self@.tracks, i as int) =~= spec_route_pairs(
                    self@.tracks,
                    0,
                ),
            decreases nt - i,
        {
            proof {
                assert(self@.tracks[i as int] == self.tracks@[i as int]@);
            }
            let ghost base_t = coords@;
            let track = &self.tracks[i];
            let ns = track.segments.len();
            let mut j: usize = 0;
            while j < ns
                invariant
                    j <= ns,
                    ns == track@.segments.len(),
                    track@ == self@.tracks[i as int],
                    coords@ + spec_track_pairs(track@.segments, j as int) =~= base_t
                        + spec_track_pairs(track@.segments, 0),
                decreases ns - j,
            {
                proof {
                    assert(track@.segments[j as int] == track.segments@[j as int]@);
                }
                let ghost base_s = coords@;
                let seg = &track.segments[j];
                let np = seg.points.len();
                let mut k: usize = 0;
                while k < np
                    invariant
                        k <= np,
                        np == seg@.len(),
                        seg@ == track@.segments[j as int],
                        coords@ + spec_seg_pairs(seg@, k as int) =~= base_s + spec_seg_pairs(
                            seg@,
                            0,
                        ),
                    decreases np - k,
                {
                    let p = seg.points[k];
                    coords.push((p.lon_e5, p.lat_e5));
                    k += 1;
                }
                proof {
                    assert(coords@ + spec_track_pairs(track@.segments, j + 1) =~= base_t
                        + spec_track_pairs(track@.segments, 0));
                }
                j += 1;
            }
            proof {
                assert(spec_track_pairs(track@.segments, ns as int) =~= Seq::<(
                    i64,
                    i64,
                )>::empty());
                assert(coords@ =~= base_t + spec_track_pairs(track@.segments, 0));
                assert(spec_route_pairs(self@.tracks, i as int) == spec_track_pairs(
                    self@.tracks[i as int].segments,
                    0,
                ) + spec_route_pairs(self@.tracks, i + 1));
                assert(coords@ + spec_route_pairs(self@.tracks, i + 1) =~= spec_route_pairs(
                    self@.tracks,
                    0,
                ));
            }
            i += 1;
        }
        coords
    }
}

impl Default for Route {
    fn default() -> (r: Self)
        ensures
            r@ == empty_route_model(),
    {
        Self::new()
    }
}

} // verus!
