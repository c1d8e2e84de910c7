use naqix_remote_support::encoder::EncodedFrame;
use naqix_remote_support::spike::{
    bar, exercise_bitrate, histogram_blocks, Exercise, RunStats, Schedule, RUN_SECS, START_BITRATE,
};

fn run_schedule(s: &mut Schedule, secs: u64) -> Vec<Exercise> {
    let mut done = Vec::new();
    while let Some(e) = s.next_exercise(secs) {
        s.mark_done(e);
        done.push(e);
    }
    done
}

#[test]
fn exercises_happen_at_their_seconds_once() {
    let mut s = Schedule::new();
    let mut log = Vec::new();
    for secs in 0..RUN_SECS {
        for e in run_schedule(&mut s, secs) {
            log.push((secs, e));
        }
    }
    assert_eq!(
        log,
        vec![(5, Exercise::DropBitrate), (8, Exercise::ForceKeyframe), (10, Exercise::RestoreBitrate)]
    );
}

#[test]
fn a_late_first_frame_catches_up_in_order() {
    let mut s = Schedule::new();
    assert_eq!(
        run_schedule(&mut s, 12),
        vec![Exercise::DropBitrate, Exercise::ForceKeyframe, Exercise::RestoreBitrate]
    );
    assert_eq!(s.next_exercise(14), None);
}

#[test]
fn exercise_bitrates() {
    assert_eq!(exercise_bitrate(Exercise::DropBitrate), Some(800_000));
    assert_eq!(exercise_bitrate(Exercise::RestoreBitrate), Some(START_BITRATE));
    assert_eq!(exercise_bitrate(Exercise::ForceKeyframe), None);
}

#[test]
fn output_is_tallied_per_second() {
    let mut st = RunStats::new();
    assert_eq!(st.per_second.len(), (RUN_SECS + 2) as usize);
    st.record_output(&EncodedFrame { data: vec![0; 100], timestamp: 10, keyframe: true }, 0);
    st.record_output(&EncodedFrame { data: vec![0; 50], timestamp: 20, keyframe: false }, 0);
    st.record_output(&EncodedFrame { data: vec![0; 7], timestamp: 15, keyframe: false }, 3);
    st.record_output(&EncodedFrame { data: vec![0; 9], timestamp: 30, keyframe: false }, 99);
    assert_eq!(st.bytes, 166);
    assert_eq!(st.frames_out, 4);
    assert_eq!(st.keyframes, 1);
    assert_eq!(st.pts_regressions, 1);
    assert_eq!(st.last_pts, 30);
    assert_eq!(st.per_second[0], 150);
    assert_eq!(st.per_second[3], 7);
    assert_eq!(st.per_second.iter().sum::<u64>(), 157);
}

#[test]
fn submissions_and_skips_are_counted() {
    let mut st = RunStats::new();
    st.record_submitted();
    st.record_submitted();
    st.record_skipped();
    assert_eq!(st.frames_in, 2);
    assert_eq!(st.dropped_no_demand, 1);
    assert_eq!(st.last_pts, -1);
}

#[test]
fn histogram_bars() {
    assert_eq!(histogram_blocks(0), 0);
    assert_eq!(histogram_blocks(4095), 0);
    assert_eq!(histogram_blocks(3 * 4096 + 1), 3);
    assert_eq!(histogram_blocks(u64::MAX), 60);
    assert_eq!(bar(3), "███");
    assert_eq!(bar(0), "");
}

#[test]
fn a_run_with_gaps_does_each_exercise_once_in_order() {
    let mut s = Schedule::new();
    let mut per_frame = Vec::new();
    for secs in [0u64, 0, 4, 7, 7, 9, 14, 14] {
        per_frame.push(run_schedule(&mut s, secs));
    }
    assert_eq!(
        per_frame,
        vec![
            vec![],
            vec![],
            vec![],
            vec![Exercise::DropBitrate],
            vec![],
            vec![Exercise::ForceKeyframe],
            vec![Exercise::RestoreBitrate],
            vec![],
        ]
    );
}
