use phonecam::framing::MAX_FRAME_BYTES;
use phonecam::messages::Message;
use phonecam::protocol::{Handshake, ProfileValidationError, StatusUpdate, StreamProfile, VideoCodec, PROTOCOL_VERSION};
use phonecam::transport::{
    accept_peer_handshake, check_frame_length, inbound_action, keepalive_message, validate_common_active_profiles,
    InboundAction, TransportError,
};

fn handshake(supported: Vec<StreamProfile>, active: Option<StreamProfile>) -> Handshake {
    Handshake { version: PROTOCOL_VERSION, device_name: "d".to_string(), supported_profiles: supported, active_profile: active }
}

#[test]
fn active_profiles_must_be_common() {
    let h264 = StreamProfile::h264_720p30();
    let hevc = StreamProfile { codec: VideoCodec::Hevc, ..h264 };
    let local = handshake(vec![h264], None);
    assert!(validate_common_active_profiles(&local, &handshake(vec![h264, hevc], Some(h264))).is_ok());
    assert!(matches!(
        validate_common_active_profiles(&local, &handshake(vec![h264, hevc], Some(hevc))),
        Err(TransportError::ActiveProfileNotCommon(p)) if p == hevc
    ));
}

#[test]
fn the_first_peer_message_must_be_a_valid_handshake() {
    let h264 = StreamProfile::h264_720p30();
    let local = handshake(vec![h264], None);
    let status = Message::StatusUpdate(StatusUpdate { status: "hi".to_string() });
    assert!(matches!(accept_peer_handshake(&local, status), Err(TransportError::ExpectedHandshake)));
    let mut old = handshake(vec![h264], Some(h264));
    old.version = 1;
    assert!(matches!(
        accept_peer_handshake(&local, Message::Handshake(old)),
        Err(TransportError::InvalidHandshake(ProfileValidationError::UnsupportedProtocolVersion { actual: 1, expected: 2 }))
    ));
    let peer = handshake(vec![h264], Some(h264));
    assert_eq!(accept_peer_handshake(&local, Message::Handshake(peer.clone())).unwrap(), peer);
}

#[test]
fn frame_lengths_over_the_limit_are_refused() {
    assert_eq!(check_frame_length([0, 0, 0, 9]).unwrap(), 9);
    let over = ((MAX_FRAME_BYTES as u32) + 1).to_be_bytes();
    assert!(matches!(check_frame_length(over), Err(TransportError::FrameTooLarge(n)) if n == MAX_FRAME_BYTES + 1));
    assert_eq!(check_frame_length((MAX_FRAME_BYTES as u32).to_be_bytes()).unwrap(), MAX_FRAME_BYTES);
}

#[test]
fn reader_skips_keepalives_and_refuses_second_handshakes() {
    assert_eq!(inbound_action(&keepalive_message()), InboundAction::Skip);
    let status = Message::StatusUpdate(StatusUpdate { status: "streaming".to_string() });
    assert_eq!(inbound_action(&status), InboundAction::Deliver);
    let h = Message::Handshake(handshake(vec![StreamProfile::h264_720p30()], None));
    assert_eq!(inbound_action(&h), InboundAction::Fail);
}
