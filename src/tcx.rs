//! Session records as the training-file decoder hands them over: plain
//! values, not yet checked or given units.

use vstd::prelude::*;

use crate::units::Timestamp;

verus! {

/// A heart-rate reading, in beats per minute.
#[derive(Clone, Copy, Debug, PartialEq, Eq, Structural)]
pub struct HeartRate {
    pub value: i32,
}

/// A position fix, in billionths of a degree.
#[derive(Clone, Copy, Debug, PartialEq, Eq, Structural)]
pub struct Position {
    pub lat: i64,
    pub lon: i64,
}

/// One recorded sample; `position` is absent when there was no fix.
#[derive(Clone, Copy, Debug, PartialEq, Eq, Structural)]
pub struct Sample {
    pub time: Timestamp,
    pub position: Option<Position>,
    pub heart_rate: HeartRate,
}

/// The samples of one lap, in recording order.
#[derive(Clone, Debug)]
pub struct Track {
    pub samples: Vec<Sample>,
}

/// One lap as recorded: its elapsed time in milliseconds, its distance in
/// millimetres, and its samples.
#[derive(Clone, Debug)]
pub struct Lap {
    pub total_time_ms: i64,
    pub distance_mm: i64,
    pub track: Track,
}

/// One recorded session: the sport token as written in the file, the natural
/// key (the session's start time as text), and its laps.
#[derive(Clone, Debug)]
pub struct Activity {
    pub sport: String,
    pub id: String,
    pub laps: Vec<Lap>,
}

/// The wrapper that a training file puts round each session.
#[derive(Clone, Debug)]
pub struct Activities {
    pub activity: Activity,
}

/// The decoded contents of one training file.
#[derive(Clone, Debug)]
pub struct TrainingCenterDatabase {
    pub activities: Vec<Activities>,
}

/// The sessions of a file, in file order.
pub open spec fn activities_of(db: TrainingCenterDatabase) -> Seq<Activity> {
    db.activities@.map_values(|a: Activities| a.activity)
}

/// Takes the sessions of a decoded file out of their wrappers, keeping their
/// order.
pub fn read_activities(db: TrainingCenterDatabase) -> (r: Vec<Activity>)
    ensures
        r@ == activities_of(db),
{
    let ghost all = db.activities@;
    let mut rest = db.activities;
    let mut taken: Vec<Activity> = Vec::new();
    while rest.len() > 0
        invariant
            taken@.len() + rest@.len() == all.len(),
            rest@ == all.subrange(taken@.len() as int, all.len() as int),
            taken@ == all.subrange(0, taken@.len() as int).map_values(|a: Activities| a.activity),
        decreases rest@.len(),
    {
        let ghost k = taken@.len() as int;
        let wrapped = rest.remove(0);
        taken.push(wrapped.activity);
        assert(all.subrange(0, k + 1) =~= all.subrange(0, k).push(all[k]));
        assert(taken@ =~= all.subrange(0, k + 1).map_values(|a: Activities| a.activity));
        assert(rest@ =~= all.subrange(k + 1, all.len() as int));
    }
    assert(all.subrange(0, all.len() as int) =~= all);
    taken
}

} // verus!
