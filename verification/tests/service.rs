use naqix_remote_support::service::{answer_control, ControlReply, ControlRequest};
use naqix_remote_support::launch::Desktop;
use naqix_remote_support::service::{
    helper_args, helper_tag, target_desktop, Step, Supervisor, NO_CONSOLE_SESSION, SERVICE_NAME,
};

fn relaunch(step: Step) -> (Desktop, String) {
    match step {
        Step::Relaunch { target, tag } => (target, tag),
        _ => panic!("expected a relaunch"),
    }
}

#[test]
fn first_poll_starts_a_helper() {
    let mut s = Supervisor::new();
    let (target, tag) = relaunch(s.observe(1, "Default"));
    assert_eq!(target, Desktop::Default);
    assert_eq!(tag, "default-s1");
}

#[test]
fn no_respawn_while_nothing_changes() {
    let mut s = Supervisor::new();
    relaunch(s.observe(1, "Default"));
    s.launched("Default", 1);
    assert!(matches!(s.observe(1, "Default"), Step::Unchanged));
    assert!(matches!(s.observe(1, "Default"), Step::Unchanged));
}

#[test]
fn lock_screen_moves_the_helper_to_winlogon() {
    let mut s = Supervisor::new();
    s.launched("Default", 1);
    let (target, tag) = relaunch(s.observe(1, "Winlogon"));
    assert_eq!(target, Desktop::Winlogon);
    assert_eq!(tag, "winlogon-s1");
    // a failed launch leaves the old helper recorded, so the next poll retries
    let (target, _) = relaunch(s.observe(1, "Winlogon"));
    assert_eq!(target, Desktop::Winlogon);
}

#[test]
fn session_switch_respawns() {
    let mut s = Supervisor::new();
    s.launched("Default", 1);
    let (target, tag) = relaunch(s.observe(2, "Default"));
    assert_eq!(target, Desktop::Default);
    assert_eq!(tag, "default-s2");
}

#[test]
fn lost_console_session_drops_the_helper() {
    let mut s = Supervisor::new();
    s.launched("Default", 1);
    assert!(matches!(s.observe(NO_CONSOLE_SESSION, "Default"), Step::NoSession { dropped: true }));
    assert!(matches!(s.observe(NO_CONSOLE_SESSION, "Default"), Step::NoSession { dropped: false }));
    // whatever comes back gets a fresh helper, even the same desktop and session
    relaunch(s.observe(1, "Default"));
}

#[test]
fn winlogon_matches_ignoring_ascii_case() {
    assert_eq!(target_desktop("winlogon"), Desktop::Winlogon);
    assert_eq!(target_desktop("WINLOGON"), Desktop::Winlogon);
    assert_eq!(target_desktop("Winlogon2"), Desktop::Default);
    assert_eq!(target_desktop("Screen-saver"), Desktop::Default);
}

#[test]
fn tags_and_arguments() {
    assert_eq!(helper_tag("winlogon", 4294967294), "winlogon-s4294967294");
    assert_eq!(helper_args("default-s1"), "helper default-s1");
    assert_eq!(SERVICE_NAME, "NaqixSpikeA");
    let mut s = Supervisor::new();
    let (_, tag) = relaunch(s.observe(3, "WinLogon"));
    assert_eq!(tag, "winlogon-s3");
}

#[test]
fn control_requests_are_answered() {
    assert_eq!(answer_control(ControlRequest::Stop), (ControlReply::NoError, true));
    assert_eq!(answer_control(ControlRequest::Shutdown), (ControlReply::NoError, true));
    assert_eq!(answer_control(ControlRequest::Interrogate), (ControlReply::NoError, false));
    assert_eq!(answer_control(ControlRequest::SessionChange), (ControlReply::NoError, false));
    assert_eq!(answer_control(ControlRequest::Other), (ControlReply::NotImplemented, false));
}
