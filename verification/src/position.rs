//! Geo-pose samples and their time-ordered series.

use vstd::prelude::*;

verus! {

use crate::error::Error;

/// One trajectory sample: a time and six pose components.
///
/// `time` is either continuous-clock (GPS-week) microseconds or calendar
/// microseconds — the series uses one unit consistently, and
/// [`crate::resolver::GpsEpochResolver`] moves a series from the former to
/// the latter.  The pose components are fixed-point integers in whatever
/// scale the caller chose when reading the trajectory.
#[derive(Clone, Copy, Debug, PartialEq, Eq, Structural)]
pub struct Position {
    pub time: i64,
    pub longitude: i64,
    pub latitude: i64,
    pub height: i64,
    pub roll: i64,
    pub pitch: i64,
    pub yaw: i64,
}

/// The sample times are non-decreasing over the whole series.
pub open spec fn positions_ordered(s: Seq<Position>) -> bool {
    forall|i: int, j: int| 0 <= i <= j < s.len() ==> s[i].time <= s[j].time
}

/// `k` is the first adjacent pair that breaks the time order.
pub open spec fn position_slip_at(s: Seq<Position>, k: int) -> bool {
    &&& 0 <= k < s.len() - 1
    &&& s[k].time > s[k + 1].time
    &&& forall|l: int| 0 <= l < k ==> (#[trigger] s[l].time) <= s[l + 1].time
}

proof fn lemma_position_pair_ordered(s: Seq<Position>, i: int, j: int)
    requires
        forall|l: int| 0 <= l < s.len() - 1 ==> (#[trigger] s[l].time) <= s[l + 1].time,
        0 <= i <= j < s.len(),
    ensures
        s[i].time <= s[j].time,
    decreases j - i,
{
    if i < j {
        lemma_position_pair_ordered(s, i, j - 1);
        assert(s[j - 1].time <= s[j].time);
    }
}

proof fn lemma_positions_adjacent_implies_ordered(s: Seq<Position>)
    requires
        forall|l: int| 0 <= l < s.len() - 1 ==> (#[trigger] s[l].time) <= s[l + 1].time,
    ensures
        positions_ordered(s),
{
    assert forall|i: int, j: int| 0 <= i <= j < s.len() implies s[i].time <= s[j].time by {
        lemma_position_pair_ordered(s, i, j);
    }
}

/// An ordered series of pose samples, validated for non-decreasing sample
/// time at construction.  It does not say whether the times are raw
/// continuous-clock values or calendar values; it only enforces the order in
/// whichever unit is present.
#[derive(Debug)]
pub struct PositionSeries {
    positions: Vec<Position>,
}

impl View for PositionSeries {
    type V = Seq<Position>;

    closed spec fn view(&self) -> Seq<Position> {
        self.positions@
    }
}

impl PositionSeries {
    pub open spec fn wf(&self) -> bool {
        positions_ordered(self@)
    }

    /// Validates the time order.  Fails with `GpsWeekTimeSlip` identifying
    /// the first offending adjacent pair; nothing is silently corrected.
    pub fn new(positions: Vec<Position>) -> (r: Result<PositionSeries, Error>)
        ensures
            r is Ok <==> positions_ordered(positions@),
            r matches Ok(s) ==> s@ == positions@ && s.wf(),
            r matches Err(e) ==> exists|k: int|
                #[trigger] position_slip_at(positions@, k) && e == (Error::GpsWeekTimeSlip {
                    before: positions@[k],
                    after: positions@[k + 1],
                }),
    {
        let n: usize = positions.len();
        let mut idx: usize = 1;
        while idx < n
            invariant
                1 <= idx,
                n == positions@.len(),
                forall|l: int| 0 <= l < idx - 1 ==> (#[trigger] positions@[l].time)
                    <= positions@[l + 1].time,
            decreases n - idx,
        {
            if positions[idx - 1].time > positions[idx].time {
                let before: Position = positions[idx - 1];
                let after: Position = positions[idx];
                proof {
                    assert(position_slip_at(positions@, idx - 1));
                }
                return Err(Error::GpsWeekTimeSlip { before, after });
            }
            idx = idx + 1;
        }
        proof {
            lemma_positions_adjacent_implies_ordered(positions@);
        }
        Ok(PositionSeries { positions })
    }

    /// Wraps samples already known to be in order, without re-validating.
    pub(crate) fn from_ordered(positions: Vec<Position>) -> (s: PositionSeries)
        requires
            positions_ordered(positions@),
        ensures
            s@ == positions@,
            s.wf(),
    {
        PositionSeries { positions }
    }

    pub fn len(&self) -> (n: usize)
        ensures
            n == self@.len(),
    {
        self.positions.len()
    }

    pub fn get(&self, i: usize) -> (p: Position)
        requires
            i < self@.len(),
        ensures
            p == self@[i as int],
    {
        self.positions[i]
    }
}

} // verus!
