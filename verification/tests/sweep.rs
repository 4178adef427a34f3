use synchro::error::Error;
use synchro::event_marker::EventMarker;
use synchro::event_marker::EventMarkerSequence;
use synchro::interpolate::interpolate;
use synchro::position::Position;
use synchro::position::PositionSeries;
use synchro::synchronizer::SynchronizedRecord;
use synchro::synchronizer::Synchronizer;

fn marker(datetime: i64, number: i32) -> EventMarker {
    EventMarker { datetime, number }
}

fn pose(
    time: i64,
    longitude: i64,
    latitude: i64,
    height: i64,
    roll: i64,
    pitch: i64,
    yaw: i64,
) -> Position {
    Position { time, longitude, latitude, height, roll, pitch, yaw }
}

fn images(names: &[&str]) -> Vec<String> {
    names.iter().map(|n| n.to_string()).collect()
}

fn synchronizer_for(
    markers: Vec<EventMarker>,
    image_names: Vec<String>,
    positions: Vec<Position>,
) -> Result<Synchronizer, Error> {
    let markers = EventMarkerSequence::new(markers).unwrap();
    let trajectory = PositionSeries::new(positions).unwrap();
    Synchronizer::new(markers, image_names, trajectory)
}

#[test]
fn scenario_a_one_bracket_two_triggers() {
    let synchronizer = synchronizer_for(
        vec![marker(10, 1), marker(20, 2)],
        images(&["a.jpg", "b.jpg"]),
        vec![pose(5, 0, 100, 1000, -40, 8, 200), pose(25, 200, 300, 3000, 40, -8, 0)],
    )
    .unwrap();
    let records = synchronizer.run();
    assert_eq!(
        records,
        vec![
            SynchronizedRecord {
                file_name: "a.jpg".to_string(),
                datetime: 10,
                longitude: 50,
                latitude: 150,
                height: 1500,
                roll: -20,
                pitch: 4,
                yaw: 150,
            },
            SynchronizedRecord {
                file_name: "b.jpg".to_string(),
                datetime: 20,
                longitude: 150,
                latitude: 250,
                height: 2500,
                roll: 20,
                pitch: -4,
                yaw: 50,
            },
        ]
    );
}

#[test]
fn scenario_b_trailing_trigger_dropped() {
    let synchronizer = synchronizer_for(
        vec![marker(30, 1)],
        images(&["a.jpg"]),
        vec![pose(5, 0, 0, 0, 0, 0, 0), pose(25, 100, 100, 100, 100, 100, 100)],
    )
    .unwrap();
    assert_eq!(synchronizer.run(), vec![]);
}

#[test]
fn scenario_c_count_mismatch() {
    let markers = EventMarkerSequence::new(vec![marker(10, 1), marker(20, 2)]).unwrap();
    let trajectory =
        PositionSeries::new(vec![pose(5, 0, 0, 0, 0, 0, 0), pose(25, 0, 0, 0, 0, 0, 0)]).unwrap();
    let err = Synchronizer::new(markers, images(&["a.jpg", "b.jpg", "c.jpg"]), trajectory)
        .unwrap_err();
    match err {
        Error::CountMismatch { event_markers, images } => {
            assert_eq!(event_markers.len(), 2);
            assert_eq!(images.len(), 3);
        }
        other => panic!("expected CountMismatch, got {:?}", other),
    }
}

#[test]
fn scenario_d_event_marker_slip_names_the_pair() {
    let err = EventMarkerSequence::new(vec![marker(20, 1), marker(10, 2)]).unwrap_err();
    assert_eq!(err, Error::EventMarkerSlip { before: marker(20, 1), after: marker(10, 2) });
}

#[test]
fn scenario_e_single_sample_trajectory() {
    let markers = EventMarkerSequence::new(vec![marker(10, 1)]).unwrap();
    let trajectory = PositionSeries::new(vec![pose(5, 0, 0, 0, 0, 0, 0)]).unwrap();
    let err = Synchronizer::new(markers, images(&["a.jpg"]), trajectory).unwrap_err();
    assert_eq!(err, Error::EmptyTrajectory);
}

#[test]
fn empty_trajectory_without_samples() {
    let markers = EventMarkerSequence::new(vec![marker(10, 1)]).unwrap();
    let trajectory = PositionSeries::new(vec![]).unwrap();
    let err = Synchronizer::new(markers, images(&["a.jpg"]), trajectory).unwrap_err();
    assert_eq!(err, Error::EmptyTrajectory);
}

#[test]
fn no_event_markers() {
    let markers = EventMarkerSequence::new(vec![]).unwrap();
    let trajectory =
        PositionSeries::new(vec![pose(5, 0, 0, 0, 0, 0, 0), pose(25, 0, 0, 0, 0, 0, 0)]).unwrap();
    let err = Synchronizer::new(markers, images(&[]), trajectory).unwrap_err();
    assert_eq!(err, Error::NoEventMarkers);
}

#[test]
fn count_mismatch_before_no_event_markers() {
    // The count check comes first when several preconditions fail at once.
    let markers = EventMarkerSequence::new(vec![]).unwrap();
    let trajectory = PositionSeries::new(vec![]).unwrap();
    let err = Synchronizer::new(markers, images(&["a.jpg"]), trajectory).unwrap_err();
    assert!(matches!(err, Error::CountMismatch { .. }));
}

#[test]
fn count_invariant_partial_coverage() {
    // One trigger before all coverage, one inside: one record for two
    // triggers.
    let synchronizer = synchronizer_for(
        vec![marker(1, 1), marker(10, 2)],
        images(&["a.jpg", "b.jpg"]),
        vec![pose(5, 0, 0, 0, 0, 0, 0), pose(25, 100, 0, 0, 0, 0, 0)],
    )
    .unwrap();
    let records = synchronizer.run();
    assert_eq!(records.len(), 1);
    assert_eq!(records[0].file_name, "b.jpg");
    assert_eq!(records[0].datetime, 10);
}

#[test]
fn count_invariant_full_coverage() {
    // Every trigger is covered: exactly one record per trigger.
    let synchronizer = synchronizer_for(
        vec![marker(5, 1), marker(10, 2), marker(25, 3)],
        images(&["a.jpg", "b.jpg", "c.jpg"]),
        vec![pose(5, 0, 0, 0, 0, 0, 0), pose(20, 100, 0, 0, 0, 0, 0), pose(25, 0, 0, 0, 0, 0, 0)],
    )
    .unwrap();
    assert_eq!(synchronizer.run().len(), 3);
}

#[test]
fn run_twice_is_byte_identical() {
    let synchronizer = synchronizer_for(
        vec![marker(7, 1), marker(13, 2)],
        images(&["a.jpg", "b.jpg"]),
        vec![pose(0, 3, 1, 4, 1, 5, 9), pose(20, 62, -11, 27, -9, 35, 89)],
    )
    .unwrap();
    let first = synchronizer.run();
    let second = synchronizer.run();
    assert_eq!(first, second);
}

#[test]
fn interpolate_boundary_exactness() {
    let before = pose(5, 1, 2, 3, 4, 5, 6);
    let after = pose(25, 101, -102, 103, -104, 105, -106);
    assert_eq!(interpolate(&before, &after, 5), before);
    assert_eq!(interpolate(&before, &after, 25), after);
}

#[test]
fn interpolate_rounds_toward_zero() {
    let before = pose(0, 0, 10, 0, 0, 0, 0);
    let after = pose(3, 10, 0, 0, 0, 0, 0);
    let p = interpolate(&before, &after, 1);
    // 10 * 1 / 3 truncates to 3, in both directions of change.
    assert_eq!(p.longitude, 3);
    assert_eq!(p.latitude, 7);
}

#[test]
fn degenerate_bracket_keeps_before_values() {
    let synchronizer = synchronizer_for(
        vec![marker(10, 1)],
        images(&["a.jpg"]),
        vec![pose(10, 1, 2, 3, 4, 5, 6), pose(10, 7, 8, 9, 10, 11, 12)],
    )
    .unwrap();
    let records = synchronizer.run();
    assert_eq!(records.len(), 1);
    assert_eq!(records[0].longitude, 1);
    assert_eq!(records[0].yaw, 6);
}

#[test]
fn equal_marker_times_are_in_order() {
    let synchronizer = synchronizer_for(
        vec![marker(10, 1), marker(10, 2)],
        images(&["a.jpg", "b.jpg"]),
        vec![pose(0, 0, 0, 0, 0, 0, 0), pose(20, 20, 0, 0, 0, 0, 0)],
    )
    .unwrap();
    assert_eq!(synchronizer.run().len(), 2);
}

#[test]
fn new_synchronizer() {
    assert!(synchronizer_for(
        vec![marker(10, 1), marker(20, 2)],
        images(&["a.jpg", "b.jpg"]),
        vec![pose(5, 0, 0, 0, 0, 0, 0), pose(25, 0, 0, 0, 0, 0, 0)],
    )
    .is_ok());
}

#[test]
fn event_marker_time_slip() {
    // Moving the last marker to the front breaks the order.
    let mut markers = vec![marker(10, 1), marker(20, 2), marker(30, 3)];
    let last = markers.pop().unwrap();
    markers.insert(0, last);
    let err = EventMarkerSequence::new(markers).unwrap_err();
    assert_eq!(err, Error::EventMarkerSlip { before: marker(30, 3), after: marker(10, 1) });
}

#[test]
fn count_mismatch() {
    let markers = EventMarkerSequence::new(vec![marker(10, 1), marker(20, 2)]).unwrap();
    let trajectory =
        PositionSeries::new(vec![pose(5, 0, 0, 0, 0, 0, 0), pose(25, 0, 0, 0, 0, 0, 0)]).unwrap();
    assert!(Synchronizer::new(markers, images(&["a.jpg"]), trajectory).is_err());
}

#[test]
fn gps_week_time_slip() {
    // Moving the last sample to the front breaks the order, and the error
    // names the first offending pair.
    let mut positions = vec![
        pose(10, 1, 0, 0, 0, 0, 0),
        pose(20, 2, 0, 0, 0, 0, 0),
        pose(30, 3, 0, 0, 0, 0, 0),
    ];
    let last = positions.pop().unwrap();
    positions.insert(0, last);
    let err = PositionSeries::new(positions.clone()).unwrap_err();
    assert_eq!(err, Error::GpsWeekTimeSlip { before: positions[0], after: positions[1] });
}
