use naqix_remote_support::encoder::{
    pack_ratio, EncodedFrame, EncoderEvent, InputDemand, PollAction, SubmitError,
};

#[test]
fn ratios_pack_high_then_low() {
    assert_eq!(pack_ratio(1920, 1080), (1920u64 << 32) | 1080);
    assert_eq!(pack_ratio(30, 1), 0x0000_001E_0000_0001);
    let p = pack_ratio(u32::MAX, 7);
    assert_eq!((p >> 32) as u32, u32::MAX);
    assert_eq!(p as u32, 7);
}

#[test]
fn submit_is_refused_until_input_is_requested() {
    let d = InputDemand::new();
    assert!(!d.wants_input());
    assert_eq!(d.check_submit(), Err(SubmitError::NotRequested));
}

#[test]
fn each_request_admits_one_frame() {
    let mut d = InputDemand::new();
    assert_eq!(d.on_event(EncoderEvent::NeedInput), PollAction::Continue);
    assert_eq!(d.on_event(EncoderEvent::NeedInput), PollAction::Continue);
    assert_eq!(d.pending(), 2);
    assert!(d.check_submit().is_ok());
    d.submitted();
    assert!(d.wants_input());
    d.submitted();
    assert!(!d.wants_input());
    assert_eq!(d.check_submit(), Err(SubmitError::NotRequested));
}

#[test]
fn events_map_to_actions() {
    let mut d = InputDemand::new();
    assert_eq!(d.on_event(EncoderEvent::HaveOutput), PollAction::TakeOutput);
    assert_eq!(d.on_event(EncoderEvent::DrainComplete), PollAction::Stop);
    assert_eq!(d.on_event(EncoderEvent::Other), PollAction::Continue);
    assert_eq!(d.pending(), 0);
}

#[test]
fn encoded_frame_fields() {
    let f = EncodedFrame { data: vec![0, 0, 1, 0x65], timestamp: 333_333, keyframe: true };
    assert_eq!(f.data.len(), 4);
    assert_eq!(f.timestamp, 333_333);
    assert!(f.keyframe);
}

#[test]
fn open_requests_are_requests_minus_accepted_frames() {
    let mut d = InputDemand::new();
    let mut requests = 0u32;
    let mut accepted = 0u32;
    let script = [true, false, false, true, true, false, false, false, true];
    for need in script {
        if need {
            d.on_event(EncoderEvent::NeedInput);
            requests += 1;
        } else if d.check_submit().is_ok() {
            d.submitted();
            accepted += 1;
        }
        assert_eq!(d.pending(), requests - accepted);
        assert_eq!(d.wants_input(), requests > accepted);
    }
    assert_eq!((requests, accepted), (4, 3));
}
