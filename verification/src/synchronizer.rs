//! The merge engine: pairs each trigger with its image name, locates the
//! bracketing pose samples, and interpolates a pose at each trigger
//! instant, in one forward two-pointer sweep over both streams.

use vstd::prelude::*;

verus! {

use crate::error::Error;
use crate::event_marker::EventMarker;
use crate::event_marker::EventMarkerSequence;
use crate::event_marker::markers_ordered;
use crate::interpolate::interpolate;
use crate::interpolate::lerp;
use crate::position::Position;
use crate::position::PositionSeries;
use crate::position::positions_ordered;

/// The output record: an image name with the pose interpolated at the
/// image's trigger instant.
#[derive(Debug, PartialEq)]
pub struct SynchronizedRecord {
    pub file_name: String,
    pub datetime: i64,
    pub longitude: i64,
    pub latitude: i64,
    pub height: i64,
    pub roll: i64,
    pub pitch: i64,
    pub yaw: i64,
}

/// The mathematical value of one output record.
pub struct RecordModel {
    pub file_name: Seq<char>,
    pub datetime: int,
    pub longitude: int,
    pub latitude: int,
    pub height: int,
    pub roll: int,
    pub pitch: int,
    pub yaw: int,
}

impl View for SynchronizedRecord {
    type V = RecordModel;

    open spec fn view(&self) -> RecordModel {
        RecordModel {
            file_name: self.file_name@,
            datetime: self.datetime as int,
            longitude: self.longitude as int,
            latitude: self.latitude as int,
            height: self.height as int,
            roll: self.roll as int,
            pitch: self.pitch as int,
            yaw: self.yaw as int,
        }
    }
}

/// The record owed for one trigger bracketed by `b` and `a`: the image name,
/// the trigger instant, and each pose component linearly interpolated at
/// that instant.
pub open spec fn record_model(m: EventMarker, img: Seq<char>, b: Position, a: Position) -> RecordModel {
    RecordModel {
        file_name: img,
        datetime: m.datetime as int,
        longitude: lerp(b.time as int, a.time as int, b.longitude as int, a.longitude as int, m.datetime as int),
        latitude: lerp(b.time as int, a.time as int, b.latitude as int, a.latitude as int, m.datetime as int),
        height: lerp(b.time as int, a.time as int, b.height as int, a.height as int, m.datetime as int),
        roll: lerp(b.time as int, a.time as int, b.roll as int, a.roll as int, m.datetime as int),
        pitch: lerp(b.time as int, a.time as int, b.pitch as int, a.pitch as int, m.datetime as int),
        yaw: lerp(b.time as int, a.time as int, b.yaw as int, a.yaw as int, m.datetime as int),
    }
}

/// What the sweep emits from the state "trigger `i`, bracket `(j, j + 1)`"
/// onward.  At each step the trigger instant is compared with the current
/// bracket: inside it, a record is emitted and the trigger advances; before
/// it, the trigger is unrecoverable and advances without a record; past it,
/// the bracket advances.  The three cases are exhaustive and mutually
/// exclusive, and the sweep ends when either stream runs out.
pub open spec fn sweep_spec(
    ms: Seq<EventMarker>,
    ims: Seq<Seq<char>>,
    ps: Seq<Position>,
    i: int,
    j: int,
) -> Seq<RecordModel>
    decreases ms.len() - i + ps.len() - j,
{
    if i < 0 || j < 0 || i >= ms.len() || j + 1 >= ps.len() {
        Seq::empty()
    } else {
        let t = ms[i].datetime;
        let b = ps[j];
        let a = ps[j + 1];
        if b.time <= t && t <= a.time {
            seq![record_model(ms[i], ims[i], b, a)] + sweep_spec(ms, ims, ps, i + 1, j)
        } else if b.time > t {
            sweep_spec(ms, ims, ps, i + 1, j)
        } else {
            sweep_spec(ms, ims, ps, i, j + 1)
        }
    }
}

/// The mathematical values of a sequence of output records.
pub open spec fn models(rs: Seq<SynchronizedRecord>) -> Seq<RecordModel> {
    rs.map_values(|r: SynchronizedRecord| r@)
}

/// A trigger instant lies within the trajectory's coverage: some adjacent
/// pair of the time-ordered series brackets it, which for an ordered series
/// is exactly lying between the first and the last sample time.
pub open spec fn covered(t: i64, ps: Seq<Position>) -> bool {
    ps.len() >= 2 && ps[0].time <= t && t <= ps[ps.len() - 1].time
}

proof fn lemma_sweep_count_from(
    ms: Seq<EventMarker>,
    ims: Seq<Seq<char>>,
    ps: Seq<Position>,
    i: int,
    j: int,
)
    requires
        markers_ordered(ms),
        positions_ordered(ps),
        ps.len() >= 2,
        0 <= i <= ms.len(),
        0 <= j <= ps.len() - 2,
    ensures
        sweep_spec(ms, ims, ps, i, j).len() <= ms.len() - i,
        sweep_spec(ms, ims, ps, i, j).len() == ms.len() - i <==> forall|k: int|
            i <= k < ms.len() ==> ps[j].time <= (#[trigger] ms[k].datetime) <= ps[ps.len()
                - 1].time,
    decreases ms.len() - i + ps.len() - j,
{
    let rhs = forall|k: int|
        i <= k < ms.len() ==> ps[j].time <= (#[trigger] ms[k].datetime) <= ps[ps.len() - 1].time;
    if i == ms.len() {
        assert(sweep_spec(ms, ims, ps, i, j) =~= Seq::<RecordModel>::empty());
    } else {
        let t = ms[i].datetime;
        let b = ps[j];
        let a = ps[j + 1];
        if b.time <= t && t <= a.time {
            lemma_sweep_count_from(ms, ims, ps, i + 1, j);
            let rec_rhs = forall|k: int|
                i + 1 <= k < ms.len() ==> ps[j].time <= (#[trigger] ms[k].datetime) <= ps[ps.len()
                    - 1].time;
            assert(ps[j + 1].time <= ps[ps.len() - 1].time);
            if rhs {
                assert(rec_rhs);
            }
            if rec_rhs {
                assert forall|k: int| i <= k < ms.len() implies ps[j].time <= (#[trigger] ms[
                    k].datetime) <= ps[ps.len() - 1].time by {
                    if k == i {
                        assert(t <= a.time);
                    }
                }
            }
            assert(sweep_spec(ms, ims, ps, i, j).len() == 1 + sweep_spec(
                ms,
                ims,
                ps,
                i + 1,
                j,
            ).len());
        } else if b.time > t {
            lemma_sweep_count_from(ms, ims, ps, i + 1, j);
            assert(!(ps[j].time <= ms[i].datetime));
            assert(!rhs);
            assert(sweep_spec(ms, ims, ps, i, j).len() < ms.len() - i);
        } else {
            if j + 1 <= ps.len() - 2 {
                lemma_sweep_count_from(ms, ims, ps, i, j + 1);
                let rec_rhs = forall|k: int|
                    i <= k < ms.len() ==> ps[j + 1].time <= (#[trigger] ms[k].datetime) <= ps[
                        ps.len() - 1].time;
                assert(ps[j].time <= ps[j + 1].time);
                if rhs {
                    assert forall|k: int| i <= k < ms.len() implies ps[j + 1].time <= (
                    #[trigger] ms[k].datetime) <= ps[ps.len() - 1].time by {
                        assert(ms[i].datetime <= ms[k].datetime);
                        assert(a.time < t);
                    }
                    assert(rec_rhs);
                }
                if rec_rhs {
                    assert forall|k: int| i <= k < ms.len() implies ps[j].time <= (#[trigger] ms[
                        k].datetime) <= ps[ps.len() - 1].time by {}
                    assert(rhs);
                }
            } else {
                assert(sweep_spec(ms, ims, ps, i, j + 1) =~= Seq::<RecordModel>::empty());
                assert(sweep_spec(ms, ims, ps, i, j).len() == 0);
                assert(a == ps[ps.len() - 1]);
                assert(!(ms[i].datetime <= ps[ps.len() - 1].time));
                assert(!rhs);
            }
        }
    }
}

/// Count invariant: the sweep emits at most one record per trigger, and
/// exactly one per trigger if and only if every trigger instant falls
/// within the trajectory's coverage.
pub proof fn lemma_sweep_count(ms: Seq<EventMarker>, ims: Seq<Seq<char>>, ps: Seq<Position>)
    requires
        markers_ordered(ms),
        positions_ordered(ps),
        ps.len() >= 2,
    ensures
        sweep_spec(ms, ims, ps, 0, 0).len() <= ms.len(),
        sweep_spec(ms, ims, ps, 0, 0).len() == ms.len() <==> forall|k: int|
            0 <= k < ms.len() ==> #[trigger] covered(ms[k].datetime, ps),
{
    lemma_sweep_count_from(ms, ims, ps, 0, 0);
    let bounds = forall|k: int|
        0 <= k < ms.len() ==> ps[0].time <= (#[trigger] ms[k].datetime) <= ps[ps.len() - 1].time;
    let cov = forall|k: int| 0 <= k < ms.len() ==> #[trigger] covered(ms[k].datetime, ps);
    if bounds {
        assert forall|k: int| 0 <= k < ms.len() implies #[trigger] covered(
            ms[k].datetime,
            ps,
        ) by {
            assert(ps[0].time <= ms[k].datetime <= ps[ps.len() - 1].time);
        }
        assert(cov);
    }
    if cov {
        assert forall|k: int| 0 <= k < ms.len() implies ps[0].time <= (#[trigger] ms[k].datetime)
            <= ps[ps.len() - 1].time by {
            assert(covered(ms[k].datetime, ps));
        }
        assert(bounds);
    }
}

/// Idempotence: the sweep is a pure function of its validated inputs, so
/// two passes over equal inputs owe identical output sequences; together
/// with `Synchronizer::run`'s exact postcondition this makes repeated runs
/// byte-identical.
pub proof fn lemma_sweep_idempotent(
    ms1: Seq<EventMarker>,
    ims1: Seq<Seq<char>>,
    ps1: Seq<Position>,
    ms2: Seq<EventMarker>,
    ims2: Seq<Seq<char>>,
    ps2: Seq<Position>,
)
    requires
        ms1 == ms2,
        ims1 == ims2,
        ps1 == ps2,
    ensures
        sweep_spec(ms1, ims1, ps1, 0, 0) == sweep_spec(ms2, ims2, ps2, 0, 0),
{
}

impl SynchronizedRecord {
    /// Builds the record owed for one trigger from its image name and its
    /// bracketing samples.
    pub fn new(
        event_marker: EventMarker,
        file_name: String,
        before: Position,
        after: Position,
    ) -> (r: SynchronizedRecord)
        requires
            before.time <= event_marker.datetime <= after.time,
        ensures
            r@ == record_model(event_marker, file_name@, before, after),
    {
        let pose: Position = interpolate(&before, &after, event_marker.datetime);
        SynchronizedRecord {
            file_name,
            datetime: event_marker.datetime,
            longitude: pose.longitude,
            latitude: pose.latitude,
            height: pose.height,
            roll: pose.roll,
            pitch: pose.pitch,
            yaw: pose.yaw,
        }
    }
}

/// Owns the three validated input streams for the duration of one merge
/// pass and runs the sweep over them.
#[derive(Debug)]
pub struct Synchronizer {
    event_markers: EventMarkerSequence,
    images: Vec<String>,
    trajectory: PositionSeries,
}

impl Synchronizer {
    pub closed spec fn marker_seq(&self) -> Seq<EventMarker> {
        self.event_markers@
    }

    pub closed spec fn image_seq(&self) -> Seq<Seq<char>> {
        self.images.deep_view()
    }

    pub closed spec fn position_seq(&self) -> Seq<Position> {
        self.trajectory@
    }

    pub open spec fn wf(&self) -> bool {
        &&& markers_ordered(self.marker_seq())
        &&& positions_ordered(self.position_seq())
        &&& self.marker_seq().len() == self.image_seq().len()
        &&& self.marker_seq().len() > 0
        &&& self.position_seq().len() >= 2
    }

    /// Checks the cross-stream preconditions once, at construction: as many
    /// images as triggers (else `CountMismatch`, carrying both inputs
    /// back), at least one trigger (else `NoEventMarkers`), and at least
    /// one bracket in the trajectory (else `EmptyTrajectory`).
    pub fn new(
        event_markers: EventMarkerSequence,
        images: Vec<String>,
        trajectory: PositionSeries,
    ) -> (r: Result<Synchronizer, Error>)
        requires
            event_markers.wf(),
            trajectory.wf(),
        ensures
            r is Ok <==> event_markers@.len() == images@.len() && event_markers@.len() > 0
                && trajectory@.len() >= 2,
            r matches Ok(s) ==> s.wf() && s.marker_seq() == event_markers@ && s.image_seq()
                == images.deep_view() && s.position_seq() == trajectory@,
            event_markers@.len() != images@.len() ==> (r matches Err(e) && (e matches
                Error::CountMismatch { event_markers: em, images: im } && em@ == event_markers@
                && im == images)),
            event_markers@.len() == images@.len() && event_markers@.len() == 0 ==> r == Err::<
                Synchronizer,
                Error,
            >(Error::NoEventMarkers),
            event_markers@.len() == images@.len() && event_markers@.len() > 0 && trajectory@.len()
                < 2 ==> r == Err::<Synchronizer, Error>(Error::EmptyTrajectory),
    {
        if event_markers.len() != images.len() {
            return Err(Error::CountMismatch { event_markers: event_markers.into_vec(), images });
        }
        if event_markers.len() == 0 {
            return Err(Error::NoEventMarkers);
        }
        if trajectory.len() < 2 {
            return Err(Error::EmptyTrajectory);
        }
        Ok(Synchronizer { event_markers, images, trajectory })
    }

    /// The merge pass: one in-order two-pointer sweep, O(N + M) total work,
    /// never backtracking either cursor.  Emits exactly what `sweep_spec`
    /// says; triggers outside the trajectory's coverage are dropped
    /// silently, as a documented best-effort policy, never reported as
    /// errors.
    pub fn run(&self) -> (out: Vec<SynchronizedRecord>)
        requires
            self.wf(),
        ensures
            models(out@) == sweep_spec(
                self.marker_seq(),
                self.image_seq(),
                self.position_seq(),
                0,
                0,
            ),
    {
        let ghost ms = self.marker_seq();
        let ghost ims = self.image_seq();
        let ghost ps = self.position_seq();
        let n: usize = self.event_markers.len();
        let mm: usize = self.trajectory.len();
        let mut out: Vec<SynchronizedRecord> = Vec::new();
        let mut i: usize = 0;
        let mut j: usize = 0;
        proof {
            assert(models(out@) + sweep_spec(ms, ims, ps, 0, 0) =~= sweep_spec(ms, ims, ps, 0, 0));
        }
        while i < n && j + 1 < mm
            invariant
                self.wf(),
                ms == self.marker_seq(),
                ims == self.image_seq(),
                ps == self.position_seq(),
                n == ms.len(),
                mm == ps.len(),
                n == ims.len(),
                n == self.image_seq().len(),
                i <= n,
                j < mm,
                models(out@) + sweep_spec(ms, ims, ps, i as int, j as int) == sweep_spec(
                    ms,
                    ims,
                    ps,
                    0,
                    0,
                ),
            decreases n - i + mm - j,
        {
            let marker: EventMarker = self.event_markers.get(i);
            let before: Position = self.trajectory.get(j);
            let after: Position = self.trajectory.get(j + 1);
            let ghost prev = out@;
            if before.time <= marker.datetime && marker.datetime <= after.time {
                let file_name: String = self.images[i].clone();
                let record: SynchronizedRecord = SynchronizedRecord::new(
                    marker,
                    file_name,
                    before,
                    after,
                );
                out.push(record);
                proof {
                    assert(record@ == record_model(ms[i as int], ims[i as int], before, after));
                    assert(models(out@) =~= models(prev).push(record@));
                    assert(models(prev).push(record@) + sweep_spec(ms, ims, ps, i + 1, j as int)
                        =~= models(prev) + sweep_spec(ms, ims, ps, i as int, j as int));
                }
                i = i + 1;
            } else if before.time > marker.datetime {
                i = i + 1;
            } else {
                j = j + 1;
            }
        }
        proof {
            assert(sweep_spec(ms, ims, ps, i as int, j as int) =~= Seq::<RecordModel>::empty());
            assert(models(out@) + Seq::<RecordModel>::empty() =~= models(out@));
        }
        out
    }
}

} // verus!
