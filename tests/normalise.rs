use activity_store::common::{GeoPoint, Lap, Sport, TrackPoint};
use activity_store::error::Error;
use activity_store::route::{map_samples, MapSample};
use activity_store::tcx;
use activity_store::units::{Duration, Length, Timestamp};

fn sample(seconds: i64, heart_rate: i32, position: Option<(i64, i64)>) -> tcx::Sample {
    tcx::Sample {
        time: Timestamp { seconds, nanos: 500 },
        position: position.map(|(lat, lon)| tcx::Position { lat, lon }),
        heart_rate: tcx::HeartRate { value: heart_rate },
    }
}

fn raw_lap(total_time_ms: i64, distance_mm: i64, samples: Vec<tcx::Sample>) -> tcx::Lap {
    tcx::Lap { total_time_ms, distance_mm, track: tcx::Track { samples } }
}

#[test]
fn sample_without_position_is_kept() {
    let p = TrackPoint::from(sample(1_620_000_000, 142, None));
    assert_eq!(p.time, Timestamp { seconds: 1_620_000_000, nanos: 500 });
    assert_eq!(p.heart_rate, 142);
    assert_eq!(p.position, None);
}

#[test]
fn sample_position_is_carried_over() {
    let p = TrackPoint::from(sample(7, 99, Some((49_000_000_000, 8_400_000_000))));
    assert_eq!(p.position, Some(GeoPoint { lat: 49_000_000_000, lon: 8_400_000_000 }));
    assert_eq!(p.heart_rate, 99);
}

#[test]
fn negative_heart_rate_is_kept() {
    let p = TrackPoint::from(sample(4, -1, None));
    assert_eq!(p.heart_rate, -1);
    assert_eq!(p.time, Timestamp { seconds: 4, nanos: 500 });
    assert_eq!(p.position, None);
    let q = TrackPoint::from(sample(5, -7, Some((1, 2))));
    assert_eq!(q.heart_rate, -7);
    assert_eq!(q.position, Some(GeoPoint { lat: 1, lon: 2 }));
}

#[test]
fn lap_gets_units_and_keeps_sample_order() {
    let raw = raw_lap(
        90_500,
        1_234_567,
        vec![sample(3, 120, None), sample(1, 110, Some((1, 2))), sample(2, 130, None)],
    );
    let lap = Lap::from(&raw).unwrap();
    assert_eq!(lap.total_time, Duration { milliseconds: 90_500 });
    assert_eq!(lap.distance, Length { millimeters: 1_234_567 });
    let rates: Vec<i32> = lap.track_points.iter().map(|p| p.heart_rate).collect();
    assert_eq!(rates, vec![120, 110, 130]);
    assert_eq!(lap.track_points[0].time.seconds, 3);
}

#[test]
fn negative_distance_is_malformed() {
    let raw = raw_lap(1_000, -1, vec![sample(0, 120, None)]);
    assert_eq!(Lap::from(&raw).unwrap_err(), Error::MalformedSession);
}

#[test]
fn negative_time_is_malformed() {
    let raw = raw_lap(-5, 10, vec![sample(0, 120, None)]);
    assert_eq!(Lap::from(&raw).unwrap_err(), Error::MalformedSession);
}

#[test]
fn lap_keeps_every_sample_whatever_its_heart_rate() {
    let raw = raw_lap(5, 10, vec![sample(0, 120, None), sample(1, -3, None)]);
    let lap = Lap::from(&raw).unwrap();
    assert_eq!(lap.track_points.len(), 2);
    assert_eq!(lap.track_points[1].heart_rate, -3);
    assert_eq!(lap.track_points[1].time.seconds, 1);
}

#[test]
fn lap_without_samples_is_accepted() {
    let lap = Lap::from(&raw_lap(0, 0, vec![])).unwrap();
    assert!(lap.track_points.is_empty());
}

#[test]
fn known_sport_tokens() {
    assert_eq!(Sport::from_token("Running"), Sport::Running);
    assert_eq!(Sport::from_token("Biking"), Sport::Biking);
    assert_eq!(Sport::from_token("Other"), Sport::Other);
}

#[test]
fn unknown_sport_token_is_other() {
    assert_eq!(Sport::from_token("Swimming"), Sport::Other);
    assert_eq!(Sport::from_token("running"), Sport::Other);
    assert_eq!(Sport::from_token("Runnings"), Sport::Other);
    assert_eq!(Sport::from_token(""), Sport::Other);
}

#[test]
fn map_samples_skip_points_without_position() {
    let first = Lap::from(&raw_lap(
        0,
        0,
        vec![sample(0, 100, Some((10, 20))), sample(1, 101, None), sample(2, 102, Some((11, 21)))],
    ))
    .unwrap();
    let second = Lap::from(&raw_lap(0, 0, vec![sample(3, 103, None), sample(4, 104, Some((12, 22)))]))
        .unwrap();
    let samples = map_samples(&vec![first, second]);
    assert_eq!(
        samples,
        vec![
            MapSample { position: GeoPoint { lat: 10, lon: 20 }, heart_rate: 100 },
            MapSample { position: GeoPoint { lat: 11, lon: 21 }, heart_rate: 102 },
            MapSample { position: GeoPoint { lat: 12, lon: 22 }, heart_rate: 104 },
        ]
    );
}

#[test]
fn map_sample_of_point_without_position_is_none() {
    let p = TrackPoint { time: Timestamp { seconds: 0, nanos: 0 }, heart_rate: 80, position: None };
    assert_eq!(MapSample::from(&p), None);
}
