//! Anchors continuous-clock (GPS-week) sample times to calendar time.

use vstd::prelude::*;

verus! {

use crate::error::Error;
use crate::event_marker::EventMarker;
use crate::event_marker::EventMarkerSequence;
use crate::position::Position;
use crate::position::PositionSeries;
use crate::position::positions_ordered;

/// Trigger logs record calendar time; trajectory logs often record
/// continuous within-week seconds.  The two clocks are reconciled by one
/// constant offset: the difference between a single reference event
/// marker's calendar datetime and the continuous-clock instant it is known
/// to correspond to.  The offset is then applied to every sample time.
#[derive(Debug)]
pub struct GpsEpochResolver {
    offset: i128,
}

impl GpsEpochResolver {
    /// The constant calendar-minus-continuous-clock offset, in microseconds.
    pub closed spec fn offset_micros(&self) -> int {
        self.offset as int
    }

    /// The offset is a difference of two values of the calendar range, so
    /// shifting any sample time stays inside 128-bit arithmetic.
    pub closed spec fn wf(&self) -> bool {
        -0xffff_ffff_ffff_ffff <= self.offset <= 0xffff_ffff_ffff_ffff
    }

    /// Anchors to the first event marker: its calendar datetime is taken to
    /// correspond to `anchor_clock_time` on the trajectory's continuous
    /// clock.  Fails with `NoEventMarkers` when no marker exists to anchor
    /// the offset; this is checked before any position comparison occurs.
    pub fn new(markers: &EventMarkerSequence, anchor_clock_time: i64) -> (r: Result<
        GpsEpochResolver,
        Error,
    >)
        ensures
            r is Ok <==> markers@.len() > 0,
            r matches Ok(g) ==> g.wf() && g.offset_micros() == markers@[0].datetime
                - anchor_clock_time,
            r matches Err(e) ==> e == Error::NoEventMarkers,
    {
        if markers.len() == 0 {
            return Err(Error::NoEventMarkers);
        }
        let first: EventMarker = markers.get(0);
        Ok(GpsEpochResolver { offset: first.datetime as i128 - anchor_clock_time as i128 })
    }

    /// The calendar datetime of one continuous-clock instant; `None` when
    /// the shifted value leaves the calendar range.
    pub fn resolve(&self, time: i64) -> (r: Option<i64>)
        requires
            self.wf(),
        ensures
            r is Some <==> i64::MIN <= time + self.offset_micros() <= i64::MAX,
            r matches Some(t) ==> t == time + self.offset_micros(),
    {
        let shifted: i128 = time as i128 + self.offset;
        if i64::MIN as i128 <= shifted && shifted <= i64::MAX as i128 {
            Some(shifted as i64)
        } else {
            None
        }
    }

    /// Applies the constant offset to every sample time, leaving the pose
    /// components unchanged.  `None` when any shifted time leaves the
    /// calendar range.  A constant shift preserves the time order, so the
    /// result is again a valid series.
    pub fn resolve_series(&self, series: &PositionSeries) -> (r: Option<PositionSeries>)
        requires
            self.wf(),
            series.wf(),
        ensures
            r is Some <==> forall|k: int|
                0 <= k < series@.len() ==> i64::MIN <= (#[trigger] series@[k].time)
                    + self.offset_micros() <= i64::MAX,
            r matches Some(out) ==> {
                &&& out.wf()
                &&& out@.len() == series@.len()
                &&& forall|k: int|
                    0 <= k < series@.len() ==> (#[trigger] out@[k]) == (Position {
                        time: (series@[k].time + self.offset_micros()) as i64,
                        ..series@[k]
                    })
            },
    {
        let n: usize = series.len();
        let mut resolved: Vec<Position> = Vec::new();
        let mut idx: usize = 0;
        while idx < n
            invariant
                self.wf(),
                idx <= n,
                n == series@.len(),
                resolved@.len() == idx,
                forall|k: int|
                    0 <= k < idx ==> i64::MIN <= (#[trigger] series@[k].time)
                        + self.offset_micros() <= i64::MAX,
                forall|k: int|
                    0 <= k < idx ==> (#[trigger] resolved@[k]) == (Position {
                        time: (series@[k].time + self.offset_micros()) as i64,
                        ..series@[k]
                    }),
            decreases n - idx,
        {
            let sample: Position = series.get(idx);
            match self.resolve(sample.time) {
                Some(t) => {
                    resolved.push(Position { time: t, ..sample });
                },
                None => {
                    return None;
                },
            }
            idx = idx + 1;
        }
        proof {
            assert forall|i: int, j: int|
                0 <= i <= j < resolved@.len() implies resolved@[i].time <= resolved@[j].time by {
                assert(series@[i].time <= series@[j].time);
            }
        }
        Some(PositionSeries::from_ordered(resolved))
    }
}

impl Position {
    /// This sample's calendar datetime under a resolved clock offset.
    pub fn datetime(&self, resolver: &GpsEpochResolver) -> (r: Option<i64>)
        requires
            resolver.wf(),
        ensures
            r is Some <==> i64::MIN <= self.time + resolver.offset_micros() <= i64::MAX,
            r matches Some(t) ==> t == self.time + resolver.offset_micros(),
    {
        resolver.resolve(self.time)
    }
}

} // verus!
