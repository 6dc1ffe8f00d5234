//! The normalised records: track points, laps with unit-tagged quantities,
//! sports and activity summaries, and the adapter that makes them from
//! decoded session records.

use vstd::prelude::*;

use crate::error::Error;
use crate::id::Id;
use crate::tcx;
use crate::units::{Duration, Length, Timestamp};

verus! {

/// A geographic position, in billionths of a degree.
#[derive(Clone, Copy, Debug, PartialEq, Eq, Structural)]
pub struct GeoPoint {
    pub lat: i64,
    pub lon: i64,
}

/// One sample of a lap; `position` is absent when there was no fix.
#[derive(Clone, Copy, Debug, PartialEq, Eq, Structural)]
pub struct TrackPoint {
    pub time: Timestamp,
    pub heart_rate: i32,
    pub position: Option<GeoPoint>,
}

/// One lap: elapsed time, distance, and samples in recording order.
#[derive(Clone, Debug)]
pub struct Lap {
    pub total_time: Duration,
    pub distance: Length,
    pub track_points: Vec<TrackPoint>,
}

/// What a lap holds, as values.
pub struct LapView {
    pub total_time: Duration,
    pub distance: Length,
    pub track_points: Seq<TrackPoint>,
}

impl View for Lap {
    type V = LapView;

    open spec fn view(&self) -> LapView {
        LapView {
            total_time: self.total_time,
            distance: self.distance,
            track_points: self.track_points@,
        }
    }
}

/// What some laps hold, as values.
pub open spec fn lap_views(laps: Seq<Lap>) -> Seq<LapView> {
    laps.map_values(|l: Lap| l@)
}

/// The kind of exercise of a session.
#[derive(Clone, Copy, Debug, PartialEq, Eq, Structural)]
pub enum Sport {
    Running,
    Biking,
    Other,
}

/// The summary of one session: its sport, identifier, mean heart rate (in
/// millionths of a beat per minute) and total distance.
#[derive(Clone, Copy, Debug)]
pub struct Activity {
    pub sport: Sport,
    pub id: Id,
    pub average_heart_rate: i64,
    pub total_distance: Length,
}

/// What an activity summary holds, as values.
pub struct ActivityView {
    pub sport: Sport,
    pub id: Seq<u8>,
    pub average_heart_rate: i64,
    pub total_distance: Length,
}

impl View for Activity {
    type V = ActivityView;

    open spec fn view(&self) -> ActivityView {
        ActivityView {
            sport: self.sport,
            id: self.id@,
            average_heart_rate: self.average_heart_rate,
            total_distance: self.total_distance,
        }
    }
}

/// The position a decoded fix stands for.
pub open spec fn geo_point_of(p: tcx::Position) -> GeoPoint {
    GeoPoint { lat: p.lat, lon: p.lon }
}

/// The track point a decoded sample stands for: its time and heart rate,
/// and its position when it has one.
pub open spec fn track_point_of(s: tcx::Sample) -> TrackPoint {
    TrackPoint {
        time: s.time,
        heart_rate: s.heart_rate.value,
        position: match s.position {
            Some(p) => Some(geo_point_of(p)),
            None => None,
        },
    }
}

/// The track points of some decoded samples, in order.
pub open spec fn track_points_of(samples: Seq<tcx::Sample>) -> Seq<TrackPoint> {
    samples.map_values(|s: tcx::Sample| track_point_of(s))
}

/// The lap a decoded lap stands for, keeping every sample; none when its
/// time or distance is negative.
pub open spec fn lap_of(lap: tcx::Lap) -> Option<LapView> {
    if lap.total_time_ms < 0 || lap.distance_mm < 0 {
        None
    } else {
        Some(
            LapView {
                total_time: Duration { milliseconds: lap.total_time_ms as u64 },
                distance: Length { millimeters: lap.distance_mm as u64 },
                track_points: track_points_of(lap.track.samples@),
            },
        )
    }
}

/// The sport a token names; a token that names none is `Other`.
pub open spec fn sport_of(token: Seq<char>) -> Sport {
    if token == "Running"@ {
        Sport::Running
    } else if token == "Biking"@ {
        Sport::Biking
    } else {
        Sport::Other
    }
}

/// A token that names neither running nor biking is classified as `Other`:
/// an unknown sport is never refused.
pub proof fn lemma_unknown_sport_is_other(token: Seq<char>)
    requires
        token != "Running"@,
        token != "Biking"@,
    ensures
        sport_of(token) == Sport::Other,
{
}

/// Whether two texts hold the same characters.
fn same_text(a: &str, b: &str) -> (r: bool)
    ensures
        r == (a@ == b@),
{
    let n = a.unicode_len();
    if n != b.unicode_len() {
        return false;
    }
    let mut i: usize = 0;
    while i < n
        invariant
            n == a@.len(),
            n == b@.len(),
            i <= n,
            forall|j: int| 0 <= j < i ==> a@[j] == b@[j],
        decreases n - i,
    {
        if a.get_char(i) != b.get_char(i) {
            return false;
        }
        i += 1;
    }
    assert(a@ =~= b@);
    true
}

impl Sport {
    /// The sport a decoded sport token names; unknown tokens give `Other`.
    pub fn from_token(token: &str) -> (r: Sport)
        ensures
            r == sport_of(token@),
    {
        if same_text(token, "Running") {
            Sport::Running
        } else if same_text(token, "Biking") {
            Sport::Biking
        } else {
            Sport::Other
        }
    }
}

impl GeoPoint {
    /// The position a decoded fix stands for.
    pub fn from(p: tcx::Position) -> (r: GeoPoint)
        ensures
            r == geo_point_of(p),
    {
        GeoPoint { lat: p.lat, lon: p.lon }
    }
}

impl TrackPoint {
    /// Normalises a decoded sample: time and heart rate are kept, and the
    /// position is kept when there is one and left absent otherwise.
    pub fn from(sample: tcx::Sample) -> (r: TrackPoint)
        ensures
            r == track_point_of(sample),
            r.time == sample.time,
            r.heart_rate == sample.heart_rate.value,
            r.position is None <==> sample.position is None,
    {
        let position = match sample.position {
            Some(p) => Some(GeoPoint::from(p)),
            None => None,
        };
        TrackPoint { time: sample.time, heart_rate: sample.heart_rate.value, position }
    }
}

impl Lap {
    /// Normalises a decoded lap, giving its time and distance their units
    /// and keeping every sample in order. A negative time or distance is
    /// malformed.
    pub fn from(lap: &tcx::Lap) -> (r: Result<Lap, Error>)
        ensures
            r is Ok <==> lap_of(*lap) is Some,
            r matches Ok(l) ==> l@ == lap_of(*lap)->0,
            r matches Err(e) ==> e == Error::MalformedSession,
    {
        if lap.total_time_ms < 0 || lap.distance_mm < 0 {
            return Err(Error::MalformedSession);
        }
        let samples = &lap.track.samples;
        let mut track_points: Vec<TrackPoint> = Vec::new();
        let mut i: usize = 0;
        while i < samples.len()
            invariant
                i <= samples@.len(),
                samples == &lap.track.samples,
                track_points@ == track_points_of(samples@.subrange(0, i as int)),
            decreases samples@.len() - i,
        {
            track_points.push(TrackPoint::from(samples[i]));
            assert(track_points@ =~= track_points_of(samples@.subrange(0, i + 1)));
            i += 1;
        }
        assert(samples@.subrange(0, i as int) =~= samples@);
        Ok(
            Lap {
                total_time: Duration { milliseconds: lap.total_time_ms as u64 },
                distance: Length { millimeters: lap.distance_mm as u64 },
                track_points,
            },
        )
    }
}

} // verus!
