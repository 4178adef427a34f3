//! The validation failures of this library.

use vstd::prelude::*;

verus! {

use crate::event_marker::EventMarker;
use crate::position::Position;

/// Every validation failure is fatal to the current run; none is retried,
/// and no partial output is emitted after one.
#[derive(Debug, PartialEq)]
pub enum Error {
    /// The trigger count and the image count differ.  Carries both inputs
    /// back so the caller can report the counts.
    CountMismatch { event_markers: Vec<EventMarker>, images: Vec<String> },
    /// The trajectory has fewer than two samples, so no bracket is possible.
    EmptyTrajectory,
    /// The trigger log is not time-ordered; carries the first offending
    /// adjacent pair.
    EventMarkerSlip { before: EventMarker, after: EventMarker },
    /// The trajectory is not time-ordered; carries the first offending
    /// adjacent pair.
    GpsWeekTimeSlip { before: Position, after: Position },
    /// A trigger line does not have the expected shape, or a field of it
    /// cannot be parsed.  Carries the raw line.
    InvalidEventMarker(Vec<u8>),
    /// The trigger log is empty.  Also blocks clock-offset resolution.
    NoEventMarkers,
}

} // verus!
