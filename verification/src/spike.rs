//! The capture-and-encode run: when the bitrate is retuned and a keyframe
//! forced, and the tallies its report is made from.

use vstd::prelude::*;
use crate::encoder::EncodedFrame;
use crate::text::{repeat_seq, str_repeat};

verus! {

pub const FPS: u32 = 30;
pub const START_BITRATE: u32 = 4_000_000;
/// Second 5: drop the bitrate hard. Second 10: put it back.
pub const BITRATE_DROP_AT_SECS: u64 = 5;
pub const BITRATE_RESTORE_AT_SECS: u64 = 10;
/// Second 8: demand a keyframe and check one actually arrives.
pub const FORCE_KEYFRAME_AT_SECS: u64 = 8;
pub const RUN_SECS: u64 = 15;

/// One step of the exercise the run performs on the encoder.
#[derive(Clone, Copy, Debug, PartialEq, Eq, Structural)]
pub enum Exercise {
    /// Retune to a fifth of the starting bitrate.
    DropBitrate,
    /// Demand a keyframe.
    ForceKeyframe,
    /// Retune back to the starting bitrate.
    RestoreBitrate,
}

/// The bitrate an exercise retunes to, if it retunes.
pub fn exercise_bitrate(e: Exercise) -> (bps: Option<u32>)
    ensures
        bps == match e {
            Exercise::DropBitrate => Some(START_BITRATE / 5),
            Exercise::RestoreBitrate => Some(START_BITRATE),
            Exercise::ForceKeyframe => None::<u32>,
        },
{
    match e {
        Exercise::DropBitrate => Some(START_BITRATE / 5),
        Exercise::RestoreBitrate => Some(START_BITRATE),
        Exercise::ForceKeyframe => None,
    }
}

/// Which exercises have been carried out.
#[derive(Clone, Copy, Debug, PartialEq, Eq, Structural)]
pub struct Schedule {
    pub did_drop: bool,
    pub did_force_key: bool,
    pub did_restore: bool,
}

/// The exercise due at second `secs`, in the order drop, keyframe, restore.
pub open spec fn spec_next_exercise(s: Schedule, secs: u64) -> Option<Exercise> {
    if secs >= BITRATE_DROP_AT_SECS && !s.did_drop {
        Some(Exercise::DropBitrate)
    } else if secs >= FORCE_KEYFRAME_AT_SECS && !s.did_force_key {
        Some(Exercise::ForceKeyframe)
    } else if secs >= BITRATE_RESTORE_AT_SECS && !s.did_restore {
        Some(Exercise::RestoreBitrate)
    } else {
        None
    }
}

pub open spec fn spec_mark_done(s: Schedule, e: Exercise) -> Schedule {
    match e {
        Exercise::DropBitrate => Schedule { did_drop: true, ..s },
        Exercise::ForceKeyframe => Schedule { did_force_key: true, ..s },
        Exercise::RestoreBitrate => Schedule { did_restore: true, ..s },
    }
}

impl Schedule {
    pub fn new() -> (s: Schedule)
        ensures
            s == (Schedule { did_drop: false, did_force_key: false, did_restore: false }),
    {
        Schedule { did_drop: false, did_force_key: false, did_restore: false }
    }

    /// The exercise to carry out now, `secs` seconds into the run.
    pub fn next_exercise(&self, secs: u64) -> (e: Option<Exercise>)
        ensures
            e == spec_next_exercise(*self, secs),
    {
        if secs >= BITRATE_DROP_AT_SECS && !self.did_drop {
            Some(Exercise::DropBitrate)
        } else if secs >= FORCE_KEYFRAME_AT_SECS && !self.did_force_key {
            Some(Exercise::ForceKeyframe)
        } else if secs >= BITRATE_RESTORE_AT_SECS && !self.did_restore {
            Some(Exercise::RestoreBitrate)
        } else {
            None
        }
    }

    /// The encoder carried out `e`.
    pub fn mark_done(&mut self, e: Exercise)
        ensures
            *final(self) == spec_mark_done(*old(self), e),
    {
        match e {
            Exercise::DropBitrate => self.did_drop = true,
            Exercise::ForceKeyframe => self.did_force_key = true,
            Exercise::RestoreBitrate => self.did_restore = true,
        }
    }
}

/// Law: each exercise is carried out at most once. Once done, an exercise is
/// never due again, whatever the time.
pub proof fn law_exercise_once(s: Schedule, e: Exercise, secs: u64)
    ensures
        spec_next_exercise(spec_mark_done(s, e), secs) != Some(e),
{
}

/// Law: nothing is due before its second, and everything is due once its
/// second has come and it has not been done.
pub proof fn law_exercise_timing(s: Schedule, secs: u64)
    ensures
        secs < BITRATE_DROP_AT_SECS ==> spec_next_exercise(s, secs) is None,
        secs >= BITRATE_RESTORE_AT_SECS && !(s.did_drop && s.did_force_key && s.did_restore)
            ==> spec_next_exercise(s, secs) is Some,
        s.did_drop && s.did_force_key && s.did_restore ==> spec_next_exercise(s, secs) is None,
{
}

// ── A whole run ──────────────────────────────────────────────────────────────

/// How many exercises are still to be carried out.
pub open spec fn undone(s: Schedule) -> nat {
    (if s.did_drop { 0nat } else { 1nat }) + (if s.did_force_key { 0nat } else { 1nat }) + (
    if s.did_restore {
        0nat
    } else {
        1nat
    })
}

/// The exercises one frame carries out, `secs` seconds into the run: each
/// due exercise in turn, marked done as it succeeds, until none is due.
pub open spec fn frame_exercises(s: Schedule, secs: u64) -> Seq<Exercise>
    decreases undone(s),
{
    match spec_next_exercise(s, secs) {
        Some(e) => seq![e] + frame_exercises(spec_mark_done(s, e), secs),
        None => Seq::empty(),
    }
}

/// The schedule after one frame has carried out its exercises.
pub open spec fn after_frame(s: Schedule, secs: u64) -> Schedule
    decreases undone(s),
{
    match spec_next_exercise(s, secs) {
        Some(e) => after_frame(spec_mark_done(s, e), secs),
        None => s,
    }
}

/// The schedule after the first `k` frames of a run whose frames arrive at
/// `secs`.
pub open spec fn schedule_after(secs: Seq<u64>, k: nat) -> Schedule
    decreases k,
{
    if k == 0 {
        Schedule { did_drop: false, did_force_key: false, did_restore: false }
    } else {
        after_frame(schedule_after(secs, (k - 1) as nat), secs[k - 1])
    }
}

/// The exercises whose second lies after `prev` and at or before `now`, in
/// the order drop, keyframe, restore.
pub open spec fn due_between(prev: int, now: u64) -> Seq<Exercise> {
    (if prev < BITRATE_DROP_AT_SECS <= now {
        seq![Exercise::DropBitrate]
    } else {
        Seq::empty()
    }) + (if prev < FORCE_KEYFRAME_AT_SECS <= now {
        seq![Exercise::ForceKeyframe]
    } else {
        Seq::empty()
    }) + (if prev < BITRATE_RESTORE_AT_SECS <= now {
        seq![Exercise::RestoreBitrate]
    } else {
        Seq::empty()
    })
}

/// The schedule of a run whose last frame came at second `prev` (-1 before
/// the first): what is past is done, nothing else.
pub open spec fn done_by(prev: int) -> Schedule {
    Schedule {
        did_drop: prev >= BITRATE_DROP_AT_SECS,
        did_force_key: prev >= FORCE_KEYFRAME_AT_SECS,
        did_restore: prev >= BITRATE_RESTORE_AT_SECS,
    }
}

proof fn lemma_one_frame(prev: int, now: u64)
    requires
        prev <= now,
    ensures
        frame_exercises(done_by(prev), now) == due_between(prev, now),
        after_frame(done_by(prev), now) == done_by(now as int),
{
    reveal_with_fuel(frame_exercises, 4);
    reveal_with_fuel(after_frame, 4);
    let s0 = done_by(prev);
    assert(frame_exercises(s0, now) =~= due_between(prev, now));
}

/// Law: over a run whose frames arrive at non-decreasing seconds, with every
/// exercise succeeding, each frame carries out exactly the exercises whose
/// second has come since the previous frame, in the order drop, keyframe,
/// restore. So the bitrate drop happens once, in the first frame at or after
/// second 5, the keyframe once, in the first at or after second 8, and the
/// restore once, in the first at or after second 10.
pub proof fn law_run_schedule(secs: Seq<u64>, k: nat)
    requires
        k < secs.len(),
        forall|i: int, j: int| 0 <= i <= j < secs.len() ==> secs[i] <= secs[j],
    ensures
        frame_exercises(schedule_after(secs, k), secs[k as int]) == due_between(
            if k == 0 {
                -1
            } else {
                secs[k - 1] as int
            },
            secs[k as int],
        ),
    decreases k,
{
    lemma_schedule_after(secs, k);
    let prev = if k == 0 {
        -1
    } else {
        secs[k - 1] as int
    };
    if k > 0 {
        assert(secs[k - 1] <= secs[k as int]);
    }
    lemma_one_frame(prev, secs[k as int]);
}

proof fn lemma_schedule_after(secs: Seq<u64>, k: nat)
    requires
        k <= secs.len(),
        forall|i: int, j: int| 0 <= i <= j < secs.len() ==> secs[i] <= secs[j],
    ensures
        schedule_after(secs, k) == done_by(
            if k == 0 {
                -1
            } else {
                secs[k - 1] as int
            },
        ),
    decreases k,
{
    if k > 0 {
        lemma_schedule_after(secs, (k - 1) as nat);
        let prev = if k == 1 {
            -1
        } else {
            secs[k - 2] as int
        };
        if k > 1 {
            assert(secs[k - 2] <= secs[k - 1]);
        }
        lemma_one_frame(prev, secs[k - 1]);
    }
}

// ── Tallies ──────────────────────────────────────────────────────────────────

/// What the run has counted so far.
pub struct RunStats {
    pub frames_in: u64,
    pub frames_out: u64,
    pub keyframes: u64,
    pub bytes: u64,
    /// Bytes per wall-clock second, so the bitrate change is visible in data
    /// rather than inferred from the API not erroring.
    pub per_second: Vec<u64>,
    pub dropped_no_demand: u64,
    pub last_pts: i64,
    pub pts_regressions: u64,
}

impl RunStats {
    pub fn new() -> (s: RunStats)
        ensures
            s.frames_in == 0,
            s.frames_out == 0,
            s.keyframes == 0,
            s.bytes == 0,
            s.per_second@ == Seq::new((RUN_SECS + 2) as nat, |i: int| 0u64),
            s.dropped_no_demand == 0,
            s.last_pts == -1,
            s.pts_regressions == 0,
    {
        let mut per_second: Vec<u64> = Vec::new();
        let mut i: u64 = 0;
        while i < RUN_SECS + 2
            invariant
                i <= RUN_SECS + 2,
                per_second@ == Seq::new(i as nat, |j: int| 0u64),
            decreases RUN_SECS + 2 - i,
        {
            per_second.push(0);
            i += 1;
        }
        RunStats {
            frames_in: 0,
            frames_out: 0,
            keyframes: 0,
            bytes: 0,
            per_second,
            dropped_no_demand: 0,
            last_pts: -1,
            pts_regressions: 0,
        }
    }

    /// A frame was handed to the encoder.
    pub fn record_submitted(&mut self)
        requires
            old(self).frames_in < u64::MAX,
        ensures
            final(self).frames_in == old(self).frames_in + 1,
            final(self).frames_out == old(self).frames_out,
            final(self).keyframes == old(self).keyframes,
            final(self).bytes == old(self).bytes,
            final(self).per_second == old(self).per_second,
            final(self).dropped_no_demand == old(self).dropped_no_demand,
            final(self).last_pts == old(self).last_pts,
            final(self).pts_regressions == old(self).pts_regressions,
    {
        self.frames_in += 1;
    }

    /// A captured frame was skipped because the encoder was busy. Not an
    /// error: a large number here means the encoder cannot keep up.
    pub fn record_skipped(&mut self)
        requires
            old(self).dropped_no_demand < u64::MAX,
        ensures
            final(self).dropped_no_demand == old(self).dropped_no_demand + 1,
            final(self).frames_in == old(self).frames_in,
            final(self).frames_out == old(self).frames_out,
            final(self).keyframes == old(self).keyframes,
            final(self).bytes == old(self).bytes,
            final(self).per_second == old(self).per_second,
            final(self).last_pts == old(self).last_pts,
            final(self).pts_regressions == old(self).pts_regressions,
    {
        self.dropped_no_demand += 1;
    }

    /// An encoded frame was written, `secs` seconds into the run.
    /// Presentation timestamps must not go backwards: when they do the file
    /// still writes happily and only fails later, in the decoder, so each
    /// step back is counted.
    pub fn record_output(&mut self, f: &EncodedFrame, secs: u64)
        requires
            old(self).pts_regressions < u64::MAX,
            old(self).frames_out < u64::MAX,
            old(self).keyframes < u64::MAX,
            old(self).bytes + f.data@.len() <= u64::MAX,
            secs < old(self).per_second@.len() ==> old(self).per_second@[secs as int]
                + f.data@.len() <= u64::MAX,
        ensures
            final(self).pts_regressions == old(self).pts_regressions + if f.timestamp
                < old(self).last_pts {
                1int
            } else {
                0int
            },
            final(self).last_pts == f.timestamp,
            final(self).bytes == old(self).bytes + f.data@.len(),
            final(self).frames_out == old(self).frames_out + 1,
            final(self).keyframes == old(self).keyframes + if f.keyframe {
                1int
            } else {
                0int
            },
            final(self).per_second@ == if secs < old(self).per_second@.len() {
                old(self).per_second@.update(
                    secs as int,
                    (old(self).per_second@[secs as int] + f.data@.len()) as u64,
                )
            } else {
                old(self).per_second@
            },
            final(self).frames_in == old(self).frames_in,
            final(self).dropped_no_demand == old(self).dropped_no_demand,
    {
        if f.timestamp < self.last_pts {
            self.pts_regressions += 1;
        }
        self.last_pts = f.timestamp;
        let len = f.data.len() as u64;
        self.bytes += len;
        self.frames_out += 1;
        if f.keyframe {
            self.keyframes += 1;
        }
        if secs < self.per_second.len() as u64 {
            let slot = secs as usize;
            let v = self.per_second[slot] + len;
            self.per_second.set(slot, v);
        }
    }
}

// ── The report ───────────────────────────────────────────────────────────────

/// The length of a histogram bar: one block per 4 KiB, at most 60.
pub open spec fn spec_histogram_blocks(bytes: u64) -> nat {
    if bytes / 4096 < 60 {
        (bytes / 4096) as nat
    } else {
        60
    }
}

pub fn histogram_blocks(bytes: u64) -> (n: usize)
    ensures
        n == spec_histogram_blocks(bytes),
{
    let n = bytes / 4096;
    if n < 60 {
        n as usize
    } else {
        60
    }
}

/// A bar of `blocks` full-block characters.
pub fn bar(blocks: usize) -> (b: String)
    ensures
        b@ == repeat_seq("\u{2588}"@, blocks as nat),
{
    str_repeat("\u{2588}", blocks)
}

} // verus!
