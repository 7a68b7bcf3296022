use phonecam::address::IpAddress;
use phonecam::discovery::{parse_qr_code_uri, DiscoveredService};
use phonecam::messages::Message;
use phonecam::mobile::{
    configure_endpoint, control_command_json, counts_as_connected, current_endpoint, ffi_test_message,
    format_discovered_services, format_qr_record, is_streaming_enabled, profile_from_ffi, set_streaming_enabled,
    transport_init_host, CoreConfig, MobileSession, PollAction, VideoConfig,
};
use phonecam::protocol::{
    CameraControl, Disconnect, StatusUpdate, StreamConfigurationOutcome, StreamProfile, VideoCodec,
};
use phonecam::transport::ConnectionState;

fn hevc_4k60() -> StreamProfile {
    StreamProfile { codec: VideoCodec::Hevc, width: 3840, height: 2160, fps: 60 }
}

#[test]
fn video_config_json_requires_exact_valid_profiles() {
    let h264 = StreamProfile::h264_720p30();
    let valid = VideoConfig { active_profile: h264, supported_profiles: vec![h264, hevc_4k60()] };
    assert!(valid.validate());

    let empty = VideoConfig { active_profile: h264, supported_profiles: vec![] };
    assert!(!empty.validate());
    let missing_active = VideoConfig { active_profile: h264, supported_profiles: vec![hevc_4k60()] };
    assert!(!missing_active.validate());
    let odd = StreamProfile { codec: VideoCodec::H264, width: 1024, height: 768, fps: 30 };
    let unsupported = VideoConfig { active_profile: odd, supported_profiles: vec![odd] };
    assert!(!unsupported.validate());
}

#[test]
fn control_json_has_typed_profiles_and_request_id_zero() {
    let cases = [
        (CameraControl::SwitchCamera { front: true }, r#"{"type":"switch_camera","front":true}"#),
        (CameraControl::RequestKeyframe, r#"{"type":"request_keyframe"}"#),
        (
            CameraControl::ConfigureStream { request_id: 0, profile: hevc_4k60() },
            r#"{"type":"configure_stream","request_id":0,"profile":{"codec":"hevc","width":3840,"height":2160,"fps":60}}"#,
        ),
    ];
    for (control, expected) in cases {
        let json = control_command_json(&control);
        assert_eq!(
            serde_json::from_str::<serde_json::Value>(&json).unwrap(),
            serde_json::from_str::<serde_json::Value>(expected).unwrap()
        );
    }
}

#[test]
fn returned_json_string_uses_shared_free_function() {
    assert_eq!(control_command_json(&CameraControl::RequestKeyframe), r#"{"type":"request_keyframe"}"#);
}

#[test]
fn profile_queries_reject_unknown_codec_and_disconnected_peer() {
    assert!(profile_from_ffi(0, 1280, 720, 30).is_some());
    assert!(profile_from_ffi(1, 3840, 2160, 60).is_some());
    assert!(profile_from_ffi(2, 1280, 720, 30).is_none());
    let h264 = StreamProfile::h264_720p30();
    let session = MobileSession::new(VideoConfig { active_profile: h264, supported_profiles: vec![h264] }, vec![]);
    assert!(!session.peer_supports_profile(0, 1280, 720, 30));
}

#[test]
fn parse_qr_and_discovery_formats_remain_stable() {
    let parsed = parse_qr_code_uri("phonecam://192.168.0.42:7878?name=Desktop").unwrap();
    assert_eq!(format_qr_record(&parsed), "192.168.0.42|7878|Desktop");

    let services = vec![DiscoveredService {
        name: "Office|Desktop".to_owned(),
        ip: IpAddress::V4([192, 168, 1, 20]),
        port: 7878,
        version: "0.1.0".to_owned(),
    }];
    assert_eq!(format_discovered_services(&services), "Office Desktop|192.168.1.20|7878|0.1.0");
}

#[test]
fn malformed_init_does_not_change_endpoint_or_open_transport() {
    let mut config = CoreConfig::default();
    configure_endpoint(&mut config, "127.0.0.1".to_owned(), 7878);
    assert_eq!(transport_init_host("203.0.113.1", 0), None);
    assert_eq!(transport_init_host("   ", 9999), None);
    assert_eq!(transport_init_host(" 203.0.113.1 ", 9999), Some("203.0.113.1".to_string()));
    configure_endpoint(&mut config, "  ".to_owned(), 9999);
    assert_eq!(current_endpoint(&config), "127.0.0.1:7878");
}

#[test]
fn endpoint_and_streaming_settings() {
    let mut config = CoreConfig::default();
    assert_eq!(current_endpoint(&config), "127.0.0.1:7878");
    assert!(!is_streaming_enabled(&config));
    configure_endpoint(&mut config, "phone.local".to_owned(), 9000);
    set_streaming_enabled(&mut config, true);
    assert_eq!(current_endpoint(&config), "phone.local:9000");
    assert!(is_streaming_enabled(&config));
    assert_eq!(ffi_test_message(), "phonecam-mobile-core ffi ok");
    assert!(counts_as_connected(ConnectionState::Handshaking));
    assert!(counts_as_connected(ConnectionState::Streaming));
    assert!(!counts_as_connected(ConnectionState::Connecting));
}

#[test]
fn polling_and_reports_follow_the_pending_request() {
    let h264 = StreamProfile::h264_720p30();
    let mut session = MobileSession::new(
        VideoConfig { active_profile: h264, supported_profiles: vec![h264, hevc_4k60()] },
        vec![h264, hevc_4k60()],
    );
    assert!(!session.poll_blocked());
    let status = Message::StatusUpdate(StatusUpdate { status: "x".to_string() });
    assert_eq!(session.poll_message(&status), PollAction::Continue);
    let bad = Message::CameraControl(CameraControl::ConfigureStream {
        request_id: 3,
        profile: StreamProfile { fps: 24, ..h264 },
    });
    assert_eq!(session.poll_message(&bad), PollAction::Continue);
    let good = CameraControl::ConfigureStream { request_id: 4, profile: hevc_4k60() };
    assert_eq!(session.poll_message(&Message::CameraControl(good)), PollAction::Emit(good));
    assert!(session.poll_blocked());

    assert_eq!(session.configuration_report(5, 1, 0, 0, 0, 0), None);
    assert_eq!(session.configuration_report(4, 9, 0, 0, 0, 0), None);
    let (result, applied) = session.configuration_report(4, 0, 1, 3840, 2160, 60).unwrap();
    assert_eq!(result.request_id, 4);
    assert_eq!(result.result, StreamConfigurationOutcome::Applied(hevc_4k60()));
    session.configuration_reported(4, applied);
    assert_eq!(session.active_profile, hevc_4k60());
    assert!(!session.poll_blocked());
    let (failed, none) = session.configuration_report(0, 2, 0, 0, 0, 0).unwrap();
    assert_eq!(failed.result, StreamConfigurationOutcome::CaptureConfigurationFailed);
    assert_eq!(none, None);
    assert_eq!(session.poll_message(&Message::Disconnect(Disconnect { reason: None })), PollAction::DropSession);
}

#[test]
fn frames_and_capabilities_are_checked_against_the_active_profile() {
    let h264 = StreamProfile::h264_720p30();
    let mut session = MobileSession::new(VideoConfig { active_profile: h264, supported_profiles: vec![h264] }, vec![h264]);
    assert!(session.frame_to_send(0, 1, 0, 1280, 720, true).is_none());
    assert!(session.frame_to_send(10, 1, 1, 1280, 720, true).is_none());
    assert!(session.frame_to_send(10, 1, 5, 1280, 720, true).is_none());
    let meta = session.frame_to_send(10, 1, 0, 1280, 720, true).unwrap();
    session.frame_sent(meta);
    assert_eq!(session.last_frame, Some(meta));
    assert!(!session.capabilities_acceptable(&vec![hevc_4k60()]));
    assert!(session.capabilities_acceptable(&vec![h264, hevc_4k60()]));
    session.capabilities_sent(vec![h264, hevc_4k60()]);
    assert_eq!(session.supported_profiles.len(), 2);
}
