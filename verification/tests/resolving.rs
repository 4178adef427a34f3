use synchro::error::Error;
use synchro::event_marker::EventMarker;
use synchro::event_marker::EventMarkerSequence;
use synchro::position::Position;
use synchro::position::PositionSeries;
use synchro::resolver::GpsEpochResolver;

fn marker(datetime: i64, number: i32) -> EventMarker {
    EventMarker { datetime, number }
}

fn sample(time: i64) -> Position {
    Position { time, longitude: 11, latitude: 22, height: 33, roll: 44, pitch: 55, yaw: 66 }
}

#[test]
fn resolver_applies_constant_offset() {
    let markers = EventMarkerSequence::new(vec![marker(1000, 1)]).unwrap();
    let resolver = GpsEpochResolver::new(&markers, 400).unwrap();
    assert_eq!(resolver.resolve(50), Some(650));
    assert_eq!(resolver.resolve(0), Some(600));
}

#[test]
fn resolver_anchors_to_first_marker() {
    let markers = EventMarkerSequence::new(vec![marker(1000, 1), marker(9999, 2)]).unwrap();
    let resolver = GpsEpochResolver::new(&markers, 1000).unwrap();
    assert_eq!(resolver.resolve(123), Some(123));
}

#[test]
fn resolver_requires_an_event_marker() {
    let markers = EventMarkerSequence::new(vec![]).unwrap();
    let err = GpsEpochResolver::new(&markers, 0).unwrap_err();
    assert_eq!(err, Error::NoEventMarkers);
}

#[test]
fn resolver_rejects_calendar_overflow() {
    let markers = EventMarkerSequence::new(vec![marker(i64::MAX, 1)]).unwrap();
    let resolver = GpsEpochResolver::new(&markers, 0).unwrap();
    assert_eq!(resolver.resolve(0), Some(i64::MAX));
    assert_eq!(resolver.resolve(1), None);
}

#[test]
fn resolve_series_shifts_every_sample_time() {
    let markers = EventMarkerSequence::new(vec![marker(1000, 1)]).unwrap();
    let resolver = GpsEpochResolver::new(&markers, 400).unwrap();
    let series = PositionSeries::new(vec![sample(10), sample(20)]).unwrap();
    let resolved = resolver.resolve_series(&series).unwrap();
    assert_eq!(resolved.len(), 2);
    assert_eq!(resolved.get(0).time, 610);
    assert_eq!(resolved.get(1).time, 620);
    // The pose components are untouched.
    assert_eq!(resolved.get(0).longitude, 11);
    assert_eq!(resolved.get(1).yaw, 66);
}

#[test]
fn resolve_series_fails_on_any_overflow() {
    let markers = EventMarkerSequence::new(vec![marker(100, 1)]).unwrap();
    let resolver = GpsEpochResolver::new(&markers, 0).unwrap();
    let series = PositionSeries::new(vec![sample(10), sample(i64::MAX)]).unwrap();
    assert!(resolver.resolve_series(&series).is_none());
}

#[test]
fn position_datetime_resolves_through_the_offset() {
    let markers = EventMarkerSequence::new(vec![marker(5000, 1)]).unwrap();
    let resolver = GpsEpochResolver::new(&markers, 2000).unwrap();
    assert_eq!(sample(70).datetime(&resolver), Some(3070));
}
