use activity_store::common::{Activity, Sport};
use activity_store::database::{Database, DuplicatePolicy};
use activity_store::error::Error;
use activity_store::id::Id;
use activity_store::tcx;
use activity_store::units::Timestamp;

fn sample(seconds: i64, heart_rate: i32) -> tcx::Sample {
    tcx::Sample {
        time: Timestamp { seconds, nanos: 0 },
        position: None,
        heart_rate: tcx::HeartRate { value: heart_rate },
    }
}

fn raw_lap(distance_mm: i64, heart_rates: &[i32]) -> tcx::Lap {
    let samples = heart_rates.iter().enumerate().map(|(i, hr)| sample(i as i64, *hr)).collect();
    tcx::Lap { total_time_ms: 600_000, distance_mm, track: tcx::Track { samples } }
}

fn session(sport: &str, key: &str, laps: Vec<tcx::Lap>) -> tcx::Activity {
    tcx::Activity { sport: sport.to_string(), id: key.to_string(), laps }
}

fn file(sessions: Vec<tcx::Activity>) -> tcx::TrainingCenterDatabase {
    tcx::TrainingCenterDatabase {
        activities: sessions.into_iter().map(|activity| tcx::Activities { activity }).collect(),
    }
}

fn ids(activities: &[Activity]) -> Vec<String> {
    activities.iter().map(|a| a.id.to_hex()).collect()
}

#[test]
fn end_to_end_one_file_one_activity() {
    let mut db = Database::new(DuplicatePolicy::KeepAll);
    let f = file(vec![session(
        "Running",
        "2021-05-01T10:00:00Z",
        vec![raw_lap(5_000_000, &[140, 160])],
    )]);
    db.ingest(f).unwrap();
    let activities = db.activities();
    assert_eq!(activities.len(), 1);
    let a = activities[0];
    assert_eq!(a.sport, Sport::Running);
    assert_eq!(a.average_heart_rate, 150_000_000);
    assert_eq!(a.total_distance.millimeters, 5_000_000);
    assert_eq!(a.id.hash, Id::new("2021-05-01T10:00:00Z").hash);
    let laps = db.laps_by_hex(&a.id.to_hex()).unwrap();
    assert_eq!(laps.len(), 1);
    let rates: Vec<i32> = laps[0].track_points.iter().map(|p| p.heart_rate).collect();
    assert_eq!(rates, vec![140, 160]);
}

#[test]
fn new_database_is_empty() {
    let db = Database::new(DuplicatePolicy::LastWins);
    assert!(db.activities().is_empty());
    assert!(db.laps(&Id::new("x")).is_none());
}

#[test]
fn read_activities_keeps_file_order() {
    let f = file(vec![
        session("Running", "a", vec![]),
        session("Biking", "b", vec![]),
        session("Other", "c", vec![]),
    ]);
    let keys: Vec<String> = tcx::read_activities(f).into_iter().map(|a| a.id).collect();
    assert_eq!(keys, vec!["a", "b", "c"]);
}

#[test]
fn laps_map_and_summaries_have_the_same_ids() {
    let mut db = Database::new(DuplicatePolicy::KeepAll);
    db.ingest(file(vec![
        session("Running", "k1", vec![raw_lap(1, &[100])]),
        session("Biking", "k2", vec![raw_lap(2, &[110])]),
    ]))
    .unwrap();
    db.ingest(file(vec![session("Swimming", "k3", vec![raw_lap(3, &[120])])])).unwrap();
    let activities = db.activities();
    assert_eq!(activities.len(), 3);
    assert_eq!(activities[2].sport, Sport::Other);
    for a in activities.iter() {
        assert!(db.laps(&a.id).is_some());
    }
    assert!(db.laps(&Id::new("k4")).is_none());
}

#[test]
fn duplicate_id_keeps_both_summaries_and_later_laps() {
    let mut db = Database::new(DuplicatePolicy::KeepAll);
    db.ingest(file(vec![session("Running", "same", vec![raw_lap(1_000, &[100])])])).unwrap();
    db.ingest(file(vec![session("Biking", "same", vec![raw_lap(2_000, &[200]), raw_lap(3_000, &[100])])]))
        .unwrap();
    let activities = db.activities();
    assert_eq!(activities.len(), 2);
    assert_eq!(ids(activities)[0], ids(activities)[1]);
    assert_eq!(activities[0].sport, Sport::Running);
    assert_eq!(activities[1].sport, Sport::Biking);
    let laps = db.laps(&Id::new("same")).unwrap();
    assert_eq!(laps.len(), 2);
    assert_eq!(laps[0].distance.millimeters, 2_000);
}

#[test]
fn duplicate_id_last_wins_for_both() {
    let mut db = Database::new(DuplicatePolicy::LastWins);
    db.ingest(file(vec![
        session("Running", "first", vec![raw_lap(10, &[90])]),
        session("Running", "same", vec![raw_lap(1_000, &[100])]),
        session("Running", "last", vec![raw_lap(20, &[95])]),
    ]))
    .unwrap();
    db.ingest(file(vec![session("Biking", "same", vec![raw_lap(2_000, &[200])])])).unwrap();
    let activities = db.activities();
    assert_eq!(activities.len(), 3);
    assert_eq!(activities[1].id.hash, Id::new("same").hash);
    assert_eq!(activities[1].sport, Sport::Biking);
    assert_eq!(activities[1].average_heart_rate, 200_000_000);
    assert_eq!(activities[1].total_distance.millimeters, 2_000);
    let laps = db.laps(&Id::new("same")).unwrap();
    assert_eq!(laps.len(), 1);
    assert_eq!(laps[0].distance.millimeters, 2_000);
}

#[test]
fn failing_file_adds_nothing() {
    let mut db = Database::new(DuplicatePolicy::KeepAll);
    let result = db.ingest(file(vec![
        session("Running", "good", vec![raw_lap(1, &[100])]),
        session("Running", "empty", vec![]),
        session("Running", "bad", vec![raw_lap(-1, &[100])]),
    ]));
    assert_eq!(result, Err(Error::EmptyAggregationInput));
    assert!(db.activities().is_empty());
    assert!(db.laps(&Id::new("good")).is_none());
}

#[test]
fn first_failure_in_file_order_is_reported() {
    let mut db = Database::new(DuplicatePolicy::KeepAll);
    let result = db.ingest(file(vec![
        session("Running", "bad", vec![raw_lap(-1, &[100])]),
        session("Running", "empty", vec![raw_lap(1, &[])]),
    ]));
    assert_eq!(result, Err(Error::MalformedSession));
}

#[test]
fn lookup_of_malformed_text_is_invalid_identifier() {
    let db = Database::new(DuplicatePolicy::KeepAll);
    assert_eq!(db.laps_by_hex("not-an-id").unwrap_err(), Error::InvalidIdentifier);
}

#[test]
fn lookup_of_unknown_id_is_not_found() {
    let mut db = Database::new(DuplicatePolicy::KeepAll);
    db.ingest(file(vec![session("Running", "k", vec![raw_lap(1, &[100])])])).unwrap();
    let other = Id::new("other").to_hex();
    assert_eq!(db.laps_by_hex(&other).unwrap_err(), Error::NotFound);
    assert!(db.laps_by_hex(&Id::new("k").to_hex().to_uppercase()).is_ok());
}
