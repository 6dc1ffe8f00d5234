//! The samples of an activity that can be drawn on a map: those with a
//! position, in recording order. Samples without a position are left out,
//! never given a made-up one.

use vstd::prelude::*;

use crate::common::{lap_views, GeoPoint, Lap, LapView, TrackPoint};

verus! {

/// A sample that has a position.
#[derive(Clone, Copy, Debug, PartialEq, Eq, Structural)]
pub struct MapSample {
    pub position: GeoPoint,
    pub heart_rate: i32,
}

/// The map sample a track point gives, if it has a position.
pub open spec fn map_sample_of(p: TrackPoint) -> Option<MapSample> {
    match p.position {
        Some(position) => Some(MapSample { position, heart_rate: p.heart_rate }),
        None => None,
    }
}

/// The map samples of some track points, in order.
pub open spec fn located(points: Seq<TrackPoint>) -> Seq<MapSample>
    decreases points.len(),
{
    if points.len() == 0 {
        Seq::empty()
    } else {
        let earlier = located(points.drop_last());
        match map_sample_of(points.last()) {
            Some(s) => earlier.push(s),
            None => earlier,
        }
    }
}

/// The map samples of some laps, lap after lap.
pub open spec fn located_in_laps(laps: Seq<LapView>) -> Seq<MapSample>
    decreases laps.len(),
{
    if laps.len() == 0 {
        Seq::empty()
    } else {
        located_in_laps(laps.drop_last()) + located(laps.last().track_points)
    }
}

/// Whether a track point has a position.
pub open spec fn has_position(p: TrackPoint) -> bool {
    p.position is Some
}

/// The map sample of a track point known to have a position.
pub open spec fn as_map_sample(p: TrackPoint) -> MapSample {
    MapSample { position: p.position->0, heart_rate: p.heart_rate }
}

/// Exactly the track points with a position reach the map, each with its own
/// position and heart rate, in their order: the others are dropped, not
/// given a position.
pub proof fn lemma_located_keeps_positioned(points: Seq<TrackPoint>)
    ensures
        located(points) == points.filter(|p: TrackPoint| has_position(p)).map_values(
            |p: TrackPoint| as_map_sample(p),
        ),
    decreases points.len(),
{
    reveal(Seq::filter);
    if points.len() > 0 {
        lemma_located_keeps_positioned(points.drop_last());
        let f = points.filter(|p: TrackPoint| has_position(p));
        let g = points.drop_last().filter(|p: TrackPoint| has_position(p));
        if has_position(points.last()) {
            assert(f == g.push(points.last()));
            assert(f.map_values(|p: TrackPoint| as_map_sample(p)) =~= g.map_values(
                |p: TrackPoint| as_map_sample(p),
            ).push(as_map_sample(points.last())));
        } else {
            assert(f == g);
        }
    }
}

impl MapSample {
    /// The map sample of a track point; none when it has no position.
    pub fn from(p: &TrackPoint) -> (r: Option<MapSample>)
        ensures
            r == map_sample_of(*p),
    {
        match p.position {
            Some(position) => Some(MapSample { position, heart_rate: p.heart_rate }),
            None => None,
        }
    }
}

/// The samples of some laps that have a position, lap after lap, each in
/// recording order.
pub fn map_samples(laps: &Vec<Lap>) -> (r: Vec<MapSample>)
    ensures
        r@ == located_in_laps(lap_views(laps@)),
{
    let ghost views = lap_views(laps@);
    let mut samples: Vec<MapSample> = Vec::new();
    let mut i: usize = 0;
    while i < laps.len()
        invariant
            i <= laps@.len(),
            views == lap_views(laps@),
            samples@ == located_in_laps(views.subrange(0, i as int)),
        decreases laps@.len() - i,
    {
        let points = &laps[i].track_points;
        assert(views[i as int].track_points == points@);
        let ghost before = samples@;
        let mut j: usize = 0;
        while j < points.len()
            invariant
                j <= points@.len(),
                samples@ == before + located(points@.subrange(0, j as int)),
            decreases points@.len() - j,
        {
            assert(points@.subrange(0, j + 1).drop_last() =~= points@.subrange(0, j as int));
            match MapSample::from(&points[j]) {
                Some(s) => {
                    samples.push(s);
                    assert(samples@ =~= before + located(points@.subrange(0, j + 1)));
                },
                None => {},
            }
            j += 1;
        }
        assert(points@.subrange(0, j as int) =~= points@);
        assert(views.subrange(0, i + 1).drop_last() =~= views.subrange(0, i as int));
        i += 1;
    }
    assert(views.subrange(0, i as int) =~= views);
    samples
}

} // verus!
