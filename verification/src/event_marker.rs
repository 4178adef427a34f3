//! Camera trigger records and their time-ordered sequence.

use vstd::prelude::*;

verus! {

use crate::error::Error;

/// One camera trigger: a calendar timestamp in microseconds since the Unix
/// epoch, and the trigger's integer sequence number.
#[derive(Clone, Copy, Debug, PartialEq, Eq, Structural)]
pub struct EventMarker {
    pub datetime: i64,
    pub number: i32,
}

/// The timestamps are non-decreasing over the whole sequence.
pub open spec fn markers_ordered(s: Seq<EventMarker>) -> bool {
    forall|i: int, j: int| 0 <= i <= j < s.len() ==> s[i].datetime <= s[j].datetime
}

/// `k` is the first adjacent pair that breaks the time order.
pub open spec fn marker_slip_at(s: Seq<EventMarker>, k: int) -> bool {
    &&& 0 <= k < s.len() - 1
    &&& s[k].datetime > s[k + 1].datetime
    &&& forall|l: int| 0 <= l < k ==> (#[trigger] s[l].datetime) <= s[l + 1].datetime
}

proof fn lemma_marker_pair_ordered(s: Seq<EventMarker>, i: int, j: int)
    requires
        forall|l: int| 0 <= l < s.len() - 1 ==> (#[trigger] s[l].datetime) <= s[l + 1].datetime,
        0 <= i <= j < s.len(),
    ensures
        s[i].datetime <= s[j].datetime,
    decreases j - i,
{
    if i < j {
        lemma_marker_pair_ordered(s, i, j - 1);
        assert(s[j - 1].datetime <= s[j].datetime);
    }
}

proof fn lemma_markers_adjacent_implies_ordered(s: Seq<EventMarker>)
    requires
        forall|l: int| 0 <= l < s.len() - 1 ==> (#[trigger] s[l].datetime) <= s[l + 1].datetime,
    ensures
        markers_ordered(s),
{
    assert forall|i: int, j: int| 0 <= i <= j < s.len() implies s[i].datetime
        <= s[j].datetime by {
        lemma_marker_pair_ordered(s, i, j);
    }
}

/// An ordered collection of trigger records, validated for non-decreasing
/// timestamps at construction.  Downstream consumers rely on the order and
/// never re-check it.
#[derive(Debug)]
pub struct EventMarkerSequence {
    markers: Vec<EventMarker>,
}

impl View for EventMarkerSequence {
    type V = Seq<EventMarker>;

    closed spec fn view(&self) -> Seq<EventMarker> {
        self.markers@
    }
}

impl EventMarkerSequence {
    pub open spec fn wf(&self) -> bool {
        markers_ordered(self@)
    }

    /// Validates the time order.  Fails with `EventMarkerSlip` identifying
    /// the first offending adjacent pair; nothing is silently corrected.
    pub fn new(markers: Vec<EventMarker>) -> (r: Result<EventMarkerSequence, Error>)
        ensures
            r is Ok <==> markers_ordered(markers@),
            r matches Ok(s) ==> s@ == markers@ && s.wf(),
            r matches Err(e) ==> exists|k: int|
                #[trigger] marker_slip_at(markers@, k) && e == (Error::EventMarkerSlip {
                    before: markers@[k],
                    after: markers@[k + 1],
                }),
    {
        let n: usize = markers.len();
        let mut idx: usize = 1;
        while idx < n
            invariant
                1 <= idx,
                n == markers@.len(),
                forall|l: int| 0 <= l < idx - 1 ==> (#[trigger] markers@[l].datetime)
                    <= markers@[l + 1].datetime,
            decreases n - idx,
        {
            if markers[idx - 1].datetime > markers[idx].datetime {
                let before: EventMarker = markers[idx - 1];
                let after: EventMarker = markers[idx];
                proof {
                    assert(marker_slip_at(markers@, idx - 1));
                }
                return Err(Error::EventMarkerSlip { before, after });
            }
            idx = idx + 1;
        }
        proof {
            lemma_markers_adjacent_implies_ordered(markers@);
        }
        Ok(EventMarkerSequence { markers })
    }

    pub fn len(&self) -> (n: usize)
        ensures
            n == self@.len(),
    {
        self.markers.len()
    }

    pub fn get(&self, i: usize) -> (m: EventMarker)
        requires
            i < self@.len(),
        ensures
            m == self@[i as int],
    {
        self.markers[i]
    }

    /// Gives the validated records back, for an error that carries them.
    pub fn into_vec(self) -> (v: Vec<EventMarker>)
        ensures
            v@ == self@,
    {
        self.markers
    }
}

} // verus!
