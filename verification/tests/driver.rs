use phonecam::driver::{
    check_applied_format, check_applied_interval, ensure_v4l2loopback_loaded_in, format_accepted, intervals_allow,
    is_v4l2loopback_loaded_in, module_check, DriverError, FrameInterval, OutputFormat, PixelFormat,
};
use phonecam::native_driver::{
    after_open_failure, after_wait_failure, check_nv12_payload, expected_nv12_payload_len, frame_header,
    map_connect_error, windows_wide_string, PipeErrorKind,
};

#[test]
fn module_not_loaded_returns_structured_error_with_installation_help() {
    let err = module_check(false).expect_err("must fail");
    let DriverError::ModuleNotLoaded { instructions } = err else {
        panic!("unexpected error variant");
    };
    assert!(instructions.contains("apt-get install v4l2loopback-dkms"));
    assert!(instructions.contains("dnf install v4l2loopback"));
    assert!(instructions.contains("pacman -S v4l2loopback-dkms"));
    assert!(instructions.contains("exclusive_caps=1"));
    assert!(module_check(true).is_ok());
}

#[test]
fn missing_module_directory_means_not_loaded() {
    assert!(!is_v4l2loopback_loaded_in("/nonexistent/phonecam/sys/module"));
    assert!(ensure_v4l2loopback_loaded_in("/nonexistent/phonecam/sys/module").is_err());
}

#[test]
fn driver_formats_are_checked_exactly() {
    let yuyv = OutputFormat { width: 1280, height: 720, fourcc: *b"YUYV", size: 1280 * 720 * 2 };
    assert!(format_accepted(1280, 720, PixelFormat::YUYV, yuyv));
    assert!(!format_accepted(1280, 720, PixelFormat::NV12, yuyv));
    assert!(check_applied_format(1280, 720, PixelFormat::YUYV, yuyv).is_ok());
    let small = OutputFormat { size: 10, ..yuyv };
    assert!(matches!(
        check_applied_format(1280, 720, PixelFormat::YUYV, small),
        Err(DriverError::InvalidFormat(m)) if m == "driver returned 1280x720 YUYV size 10, requested 1280x720 YUYV size at least 1843200"
    ));
    assert!(matches!(
        check_applied_format(70000, 70000, PixelFormat::YUYV, yuyv),
        Err(DriverError::InvalidFormat(m)) if m == "frame size overflows u32"
    ));
    assert!(check_applied_interval(1, 30, 30).is_ok());
    assert!(matches!(
        check_applied_interval(1, 25, 30),
        Err(DriverError::InvalidFormat(m)) if m == "driver returned interval 1/25, requested 1/30"
    ));
    assert_eq!(PixelFormat::MJPEG.fourcc_bytes(), *b"MJPG");
}

#[test]
fn frame_intervals_allow_the_rate() {
    assert!(intervals_allow(&[], 30));
    assert!(intervals_allow(&[FrameInterval::Discrete { numerator: 1, denominator: 30 }], 30));
    assert!(!intervals_allow(&[FrameInterval::Discrete { numerator: 1, denominator: 25 }], 30));
    let range = FrameInterval::Stepwise { min_numerator: 1, min_denominator: 60, max_numerator: 1, max_denominator: 15 };
    assert!(intervals_allow(&[range], 30));
    assert!(!intervals_allow(&[range], 120));
    assert!(!intervals_allow(&[range], 10));
}

#[test]
fn native_frames_have_exact_sizes_and_headers() {
    assert_eq!(expected_nv12_payload_len(4, 2), Ok(12));
    assert_eq!(expected_nv12_payload_len(0, 2), Err("frame dimensions must be greater than zero".to_string()));
    assert_eq!(expected_nv12_payload_len(3, 2), Err("NV12 frame dimensions must be even".to_string()));
    assert_eq!(
        check_nv12_payload(4, 2, 11),
        Err("invalid NV12 payload size for 4x2: expected 12 bytes, got 11".to_string())
    );
    assert_eq!(
        frame_header(0x0102_0304, 2, 0x0102_0304_0506_0708),
        vec![4, 3, 2, 1, 2, 0, 0, 0, 8, 7, 6, 5, 4, 3, 2, 1]
    );
}

#[test]
fn pipe_names_and_errors() {
    assert_eq!(windows_wide_string("A\u{1F600}"), vec![0x41, 0xd83d, 0xde00, 0]);
    let (kind, m) = map_connect_error(Some(2), "os error 2");
    assert_eq!(kind, PipeErrorKind::NotFound);
    assert_eq!(m, r"named pipe \\.\pipe\PhoneCam is unavailable (is the DirectShow filter running?): os error 2");
    assert!(after_open_failure(Some(231), "busy").is_none());
    let (kind, m) = after_wait_failure(Some(121), "timeout");
    assert_eq!(kind, PipeErrorKind::WouldBlock);
    assert_eq!(m, r"named pipe \\.\pipe\PhoneCam is busy and did not become available within 1000ms");
    let (kind, _) = after_wait_failure(Some(5), "denied");
    assert_eq!(kind, PipeErrorKind::Unchanged);
}
