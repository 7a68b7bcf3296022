use phonecam::pipeline::{
    accepts_applied_profile, all_profiles, common_profiles, end_status, listen_port_for, next_request_id,
    qualification_check, qualified_output_profiles, resolve_profile, setup_failure_status, CodecPreference,
    PipelineStatus, SetupFailure, StreamExit, DEFAULT_LISTEN_PORT,
};
use phonecam::protocol::{StreamProfile, VideoCodec};

#[test]
fn default_status_and_port_are_stable() {
    let status = PipelineStatus::disconnected();
    assert!(!status.connected);
    assert_eq!(status.state, "disconnected");
    assert!(status.supported_profiles.is_empty());
    assert_eq!(DEFAULT_LISTEN_PORT, 7_878);
}

#[test]
fn auto_prefers_hevc_and_falls_back_to_h264() {
    let h264 = StreamProfile::h264_720p30();
    let hevc = StreamProfile { codec: VideoCodec::Hevc, ..h264 };
    assert_eq!(resolve_profile(&[h264, hevc], 1280, 720, 30, CodecPreference::Auto), Ok(hevc));
    assert_eq!(resolve_profile(&[h264], 1280, 720, 30, CodecPreference::Auto), Ok(h264));
}

#[test]
fn applied_result_accepts_exact_tuple_and_codec_fallback_only_when_common() {
    let requested = StreamProfile { codec: VideoCodec::Hevc, width: 3840, height: 2160, fps: 60 };
    let fallback = StreamProfile { codec: VideoCodec::H264, ..requested };
    assert!(accepts_applied_profile(&[requested, fallback], requested, requested));
    assert!(accepts_applied_profile(&[requested, fallback], requested, fallback));
    assert!(!accepts_applied_profile(&[requested], requested, fallback));
    assert!(!accepts_applied_profile(&[requested, fallback], requested, StreamProfile { fps: 30, ..fallback }));
}

#[test]
fn request_ids_wrap_without_zero() {
    let mut counter = u32::MAX;
    assert_eq!(next_request_id(&mut counter), 1);
}

#[test]
fn request_ids_count_up() {
    let mut counter = 0;
    assert_eq!(next_request_id(&mut counter), 1);
    assert_eq!(next_request_id(&mut counter), 2);
    assert_eq!(counter, 2);
}

#[test]
fn unresolvable_requests_name_the_tuple() {
    let h264 = StreamProfile::h264_720p30();
    assert_eq!(
        resolve_profile(&[h264], 1280, 720, 30, CodecPreference::Hevc),
        Err("unsupported common stream profile 1280x720@30".to_string())
    );
}

#[test]
fn common_profiles_keep_local_order() {
    let a = StreamProfile::h264_720p30();
    let b = StreamProfile { codec: VideoCodec::Hevc, ..a };
    let c = StreamProfile { fps: 60, ..a };
    assert_eq!(common_profiles(&[a, b, c], &[c, a]), vec![a, c]);
}

#[test]
fn qualification_needs_the_mandatory_profile() {
    let candidates = all_profiles();
    assert_eq!(candidates.len(), 30);
    let mut accepted = vec![false; 30];
    accepted[4] = true;
    let qualified = qualified_output_profiles(&candidates, &accepted);
    assert_eq!(qualified, vec![StreamProfile::h264_720p30()]);
    assert!(qualification_check(&qualified).is_ok());
    assert_eq!(
        qualification_check(&[]),
        Err("decoder/output qualification rejected mandatory H.264 720p30".to_string())
    );
}

#[test]
fn setup_failures_and_stream_end_set_the_status() {
    let s = setup_failure_status(SetupFailure::Bind, 7878, "address in use");
    assert_eq!(s.state, "error");
    assert_eq!(s.last_error.as_deref(), Some("transport bind failed on 0.0.0.0:7878: address in use"));
    assert_eq!(
        setup_failure_status(SetupFailure::Advertise, 1, "x").last_error.as_deref(),
        Some("mDNS advertisement failed: x")
    );
    assert_eq!(end_status(Ok(StreamExit::PeerDisconnected)).state, "disconnected");
    assert_eq!(end_status(Err("gone".to_string())).last_error.as_deref(), Some("gone"));
    assert_eq!(listen_port_for(0), 7878);
    assert_eq!(listen_port_for(9000), 9000);
}
