use phonecam::framing::{decode_frame, encode_frame, FrameError, MAX_FRAME_BYTES};
use phonecam::messages::{Message, MessageType};
use phonecam::protocol::{
    Handshake, ProfileValidationError, StreamProfile, VideoCapabilitiesUpdate, VideoCodec, VideoFrame, PROTOCOL_VERSION,
};

fn profile(codec: VideoCodec, width: u16, height: u16, fps: u8) -> StreamProfile {
    StreamProfile { codec, width, height, fps }
}

#[test]
fn exact_profile_validation_rejects_invalid_handshakes() {
    let active = StreamProfile::h264_720p30();
    let valid = Handshake {
        version: PROTOCOL_VERSION,
        device_name: "phone".to_owned(),
        supported_profiles: vec![active],
        active_profile: Some(active),
    };
    assert_eq!(valid.validate(), Ok(()));

    let mut invalid = valid.clone();
    invalid.version = 1;
    assert!(matches!(invalid.validate(), Err(ProfileValidationError::UnsupportedProtocolVersion { .. })));

    invalid = valid.clone();
    invalid.supported_profiles.clear();
    assert_eq!(invalid.validate(), Err(ProfileValidationError::EmptySupportedProfiles));

    invalid = valid.clone();
    invalid.supported_profiles.push(active);
    assert_eq!(invalid.validate(), Err(ProfileValidationError::DuplicateProfile(active)));

    invalid = valid.clone();
    invalid.supported_profiles[0].width = 1024;
    assert!(matches!(invalid.validate(), Err(ProfileValidationError::InvalidDimensions { .. })));

    invalid = valid.clone();
    invalid.supported_profiles[0].fps = 24;
    assert_eq!(invalid.validate(), Err(ProfileValidationError::InvalidFrameRate(24)));

    invalid = valid;
    invalid.active_profile = Some(profile(VideoCodec::Hevc, 1280, 720, 30));
    assert!(matches!(invalid.validate(), Err(ProfileValidationError::ActiveProfileUnsupported(_))));
}

#[test]
fn capability_updates_are_exact_and_retain_active_profile() {
    let active = StreamProfile::h264_720p30();
    let update = VideoCapabilitiesUpdate { supported_profiles: vec![active, profile(VideoCodec::Hevc, 2560, 1440, 60)] };
    assert_eq!(update.validate(active), Ok(()));
    assert!(matches!(
        update.validate(profile(VideoCodec::H264, 640, 480, 30)),
        Err(ProfileValidationError::ActiveProfileUnsupported(_))
    ));
}

#[test]
fn frames_must_match_the_committed_profile() {
    let frame = VideoFrame { data: Vec::new(), pts_us: 0, codec: VideoCodec::Hevc, width: 1280, height: 720, is_keyframe: false };
    assert_eq!(frame.validate_against(profile(VideoCodec::Hevc, 1280, 720, 60)), Ok(()));
    assert!(matches!(
        frame.validate_against(StreamProfile::h264_720p30()),
        Err(ProfileValidationError::FrameProfileMismatch { .. })
    ));
}

#[test]
fn message_type_bytes_remain_stable_and_extend_v2() {
    assert_eq!(MessageType::Handshake.code(), 1);
    assert_eq!(MessageType::VideoFrame.code(), 2);
    assert_eq!(MessageType::AudioFrame.code(), 3);
    assert_eq!(MessageType::CameraControl.code(), 4);
    assert_eq!(MessageType::StatusUpdate.code(), 5);
    assert_eq!(MessageType::Disconnect.code(), 6);
    assert_eq!(MessageType::StreamConfigurationResult.code(), 7);
    assert_eq!(MessageType::VideoCapabilitiesUpdate.code(), 8);
}

#[test]
fn sixteen_mib_video_frame_is_accepted() {
    let message = Message::VideoFrame(VideoFrame {
        data: vec![0xAA; 16 * 1024 * 1024],
        pts_us: 9,
        codec: VideoCodec::Hevc,
        width: 3840,
        height: 2160,
        is_keyframe: true,
    });
    let payload = vec![0xAA; 16 * 1024 * 1024 + 32];
    let encoded = encode_frame(&message, &payload).expect("16 MiB payload should encode");
    let decoded = decode_frame(&encoded).expect("16 MiB payload should decode");
    assert_eq!(decoded.message_type, MessageType::VideoFrame);
    assert_eq!(decoded.payload, payload);
}

#[test]
fn messages_over_thirty_two_mib_are_rejected() {
    let message = Message::VideoFrame(VideoFrame {
        data: vec![0; MAX_FRAME_BYTES],
        pts_us: 0,
        codec: VideoCodec::H264,
        width: 1280,
        height: 720,
        is_keyframe: false,
    });
    assert!(matches!(encode_frame(&message, &[]), Err(FrameError::FrameTooLarge(_))));

    let declared = (MAX_FRAME_BYTES as u32 + 1).to_be_bytes();
    let mut oversized = Vec::from(declared);
    oversized.push(MessageType::VideoFrame.code());
    assert!(matches!(decode_frame(&oversized), Err(FrameError::FrameTooLarge(_))));
}

#[test]
fn framing_uses_big_endian_length_and_explicit_type_byte() {
    let message = Message::Handshake(Handshake {
        version: PROTOCOL_VERSION,
        device_name: "Frame Test".to_owned(),
        supported_profiles: vec![StreamProfile::h264_720p30()],
        active_profile: None,
    });
    let payload = vec![1u8, 2, 3, 4, 5];
    let encoded = encode_frame(&message, &payload).expect("frame should encode");
    let declared_len = u32::from_be_bytes(encoded[0..4].try_into().expect("length bytes")) as usize;
    assert_eq!(declared_len, encoded.len() - 4);
    assert_eq!(encoded[4], MessageType::Handshake.code());
}

#[test]
fn frames_round_trip_and_bad_frames_are_refused() {
    let message = Message::Handshake(Handshake {
        version: PROTOCOL_VERSION,
        device_name: "x".to_owned(),
        supported_profiles: vec![],
        active_profile: None,
    });
    let encoded = encode_frame(&message, &[9, 8]).unwrap();
    assert_eq!(encoded, vec![0, 0, 0, 3, 1, 9, 8]);
    let raw = decode_frame(&encoded).unwrap();
    assert_eq!((raw.message_type, raw.payload), (MessageType::Handshake, vec![9, 8]));
    assert_eq!(decode_frame(&[0, 0, 0, 1]), Err(FrameError::FrameTooShort));
    assert_eq!(
        decode_frame(&[0, 0, 0, 5, 1, 0]),
        Err(FrameError::LengthMismatch { declared: 5, actual: 2 })
    );
    assert!(decode_frame(&[0, 0, 0, 1, 9]).is_err());
}

#[test]
fn validation_errors_read_as_messages() {
    assert_eq!(
        ProfileValidationError::UnsupportedProtocolVersion { actual: 1, expected: 2 }.message(),
        "unsupported protocol version 1; expected 2"
    );
    assert_eq!(
        ProfileValidationError::DuplicateProfile(StreamProfile::h264_720p30()).message(),
        "duplicate supported profile: StreamProfile { codec: H264, width: 1280, height: 720, fps: 30 }"
    );
    assert_eq!(VideoCodec::try_from_id(2), Err(ProfileValidationError::InvalidCodec(2)));
    assert_eq!(VideoCodec::Hevc.id(), 1);
}
