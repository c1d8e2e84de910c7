use naqix_remote_support::helper::{frame_file_name, out_dir, reports_progress, should_skip_frame};
use naqix_remote_support::log::{log_line, log_path, LocalTime};
use std::path::PathBuf;

#[test]
fn log_and_frames_live_in_program_data() {
    assert_eq!(log_path(), PathBuf::from(r"C:\ProgramData\naqix-spike-a\spike.log"));
    assert_eq!(out_dir(), PathBuf::from(r"C:\ProgramData\naqix-spike-a\frames"));
}

#[test]
fn log_line_is_stamped_and_padded() {
    let t = LocalTime { year: 2026, month: 3, day: 7, hour: 9, minute: 5, second: 1, millis: 42 };
    assert_eq!(
        log_line(t, "service", 1234, "service started"),
        "2026-03-07 09:05:01.042 [service] pid=1234 service started\n"
    );
    let t = LocalTime { year: 12345, month: 12, day: 31, hour: 23, minute: 59, second: 59, millis: 999 };
    assert_eq!(log_line(t, "", 0, ""), "12345-12-31 23:59:59.999 [] pid=0 \n");
}

#[test]
fn frames_are_throttled_after_the_first() {
    assert!(!should_skip_frame(0, 0));
    assert!(should_skip_frame(199, 1));
    assert!(!should_skip_frame(200, 1));
    assert!(!should_skip_frame(5000, 7));
}

#[test]
fn frame_names_are_zero_padded() {
    assert_eq!(frame_file_name("manual", 7), "manual-00007.png");
    assert_eq!(frame_file_name("winlogon-s1", 123456), "winlogon-s1-123456.png");
}

#[test]
fn progress_every_five_seconds_of_frames() {
    assert!(reports_progress(25));
    assert!(reports_progress(50));
    assert!(!reports_progress(26));
}
