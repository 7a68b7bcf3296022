use phonecam::decode::Nv12Frame;
use phonecam::output::{
    packed_nv12, NativeFormatEvent, NativeOutputFormat, NativePixelFormat, OutputKind, OutputState, FORMAT_EVENT_SIZE,
};
use phonecam::protocol::{StreamProfile, VideoCodec};

#[test]
fn native_output_packs_strided_nv12_planes() {
    let frame = Nv12Frame {
        width: 2,
        height: 2,
        pts_us: 0,
        y_stride: 4,
        uv_stride: 4,
        y_plane: vec![1, 2, 0, 0, 3, 4, 0, 0],
        uv_plane: vec![5, 6, 0, 0],
    };

    assert_eq!(packed_nv12(&frame).unwrap(), vec![1, 2, 3, 4, 5, 6]);
}

#[test]
fn native_format_event_round_trips_exact_tuple() {
    let event = NativeFormatEvent {
        format: NativeOutputFormat { width: 3840, height: 2160, fps: 60, pixel_format: NativePixelFormat::Nv12 },
    };
    let bytes = event.encode();
    assert_eq!(bytes.len(), FORMAT_EVENT_SIZE);
    assert_eq!(NativeFormatEvent::parse(&bytes), Ok(event));
}

#[test]
fn native_format_event_rejects_invalid_tuples_and_reserved_bytes() {
    let event = NativeFormatEvent {
        format: NativeOutputFormat { width: 1920, height: 1080, fps: 30, pixel_format: NativePixelFormat::Yuyv },
    };
    let mut bytes = event.encode();
    bytes[12] = 59;
    assert!(NativeFormatEvent::parse(&bytes).is_err());
    bytes = event.encode();
    bytes[15] = 1;
    assert!(NativeFormatEvent::parse(&bytes).is_err());
}

#[test]
fn native_format_event_errors_say_what_is_wrong() {
    assert_eq!(NativeFormatEvent::parse(&[0; 3]), Err("invalid native format event header".to_string()));
    let event = NativeFormatEvent {
        format: NativeOutputFormat { width: 1280, height: 720, fps: 30, pixel_format: NativePixelFormat::Nv12 },
    };
    let mut bytes = event.encode();
    bytes[13] = 7;
    assert_eq!(NativeFormatEvent::parse(&bytes), Err("unsupported native pixel format".to_string()));
    bytes = event.encode();
    bytes[6] = 1;
    assert_eq!(NativeFormatEvent::parse(&bytes), Err("native format event width exceeds u16".to_string()));
}

#[test]
fn output_state_checks_commits_and_frames() {
    let profile = StreamProfile { codec: VideoCodec::H264, width: 1280, height: 720, fps: 30 };
    let mut state = OutputState::new(OutputKind::Cmio);
    assert_eq!(state.output_format(), None);
    assert_eq!(state.check_frame(1280, 720), Err("output profile has not been committed".to_string()));
    let other = NativeFormatEvent {
        format: NativeOutputFormat { width: 1280, height: 720, fps: 60, pixel_format: NativePixelFormat::Nv12 },
    };
    assert_eq!(
        state.check_native_event(&profile, other),
        Err("CMIO selected 1280x720@60 Nv12, not requested 1280x720@30 NV12".to_string())
    );
    state.committed(profile);
    assert_eq!(
        state.output_format(),
        Some(NativeOutputFormat { width: 1280, height: 720, fps: 30, pixel_format: NativePixelFormat::Nv12 })
    );
    assert_eq!(state.check_frame(1280, 720), Ok(profile));
    let mut linux = OutputState::new(OutputKind::V4l2);
    linux.committed(profile);
    assert_eq!(
        linux.check_frame(640, 480),
        Err("decoded frame 640x480 does not match committed input 1280x720".to_string())
    );
    assert_eq!(
        OutputState::preflight_profile(&StreamProfile { codec: VideoCodec::H264, width: 1024, height: 768, fps: 30 }),
        Err("unsupported output profile: unsupported dimensions: 1024x768".to_string())
    );
}

#[test]
fn accepted_format_events_are_in_their_own_encoding() {
    let good: [u8; FORMAT_EVENT_SIZE] = [0x50, 0x43, 0x46, 0x4d, 0x00, 0x0a, 0, 0, 0xa0, 0x05, 0, 0, 60, 0, 0, 0];
    let event = NativeFormatEvent::parse(&good).expect("a well-formed event parses");
    assert_eq!(event.format.width, 2560);
    assert_eq!(event.format.height, 1440);
    assert_eq!(event.encode(), good);
    let mut high_width = good;
    high_width[6] = 1;
    assert!(NativeFormatEvent::parse(&high_width).is_err());
}
