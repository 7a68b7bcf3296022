use phonecam::address::IpAddress;
use phonecam::desktop::{
    connection_target_from_input, desktop_device_name, generate_qr_code, local_interface_ips, qr_code_outcome,
    qr_connection_uris, status_of, validate_stream_configuration, ConnectionTarget,
};
use phonecam::pipeline::PipelineStatus;

#[test]
fn stream_configuration_only_accepts_v1_presets() {
    assert!(validate_stream_configuration(640, 480, 15).is_ok());
    assert!(validate_stream_configuration(1280, 720, 30).is_ok());
    assert!(validate_stream_configuration(1920, 1080, 60).is_ok());
    assert!(validate_stream_configuration(800, 600, 30).is_err());
    assert!(validate_stream_configuration(1280, 720, 24).is_err());
}

#[test]
fn stream_configuration_errors_name_the_rejected_value() {
    assert_eq!(validate_stream_configuration(800, 600, 30), Err("unsupported resolution 800x600".to_string()));
    assert_eq!(validate_stream_configuration(1280, 720, 24), Err("unsupported frame rate 24".to_string()));
}

#[test]
fn stream_configuration_accepts_1440p_and_4k() {
    for (width, height) in [(2560, 1440), (3840, 2160)] {
        for fps in [15, 30, 60] {
            assert_eq!(validate_stream_configuration(width, height, fps), Ok(()));
        }
    }
    assert_eq!(validate_stream_configuration(3840, 2160, 24), Err("unsupported frame rate 24".to_string()));
}

#[test]
fn connection_field_selects_usb_or_wifi() {
    assert_eq!(connection_target_from_input(" usb: ABC "), ConnectionTarget::Usb { serial: Some("ABC".to_string()) });
    assert_eq!(connection_target_from_input("adb://XYZ"), ConnectionTarget::Usb { serial: Some("//XYZ".to_string()) });
    assert_eq!(connection_target_from_input("USB"), ConnectionTarget::Usb { serial: None });
    assert_eq!(connection_target_from_input("localhost"), ConnectionTarget::Usb { serial: None });
    assert_eq!(connection_target_from_input("127.0.0.1"), ConnectionTarget::Usb { serial: None });
    assert_eq!(connection_target_from_input("usb:  "), ConnectionTarget::Wifi);
    assert_eq!(connection_target_from_input("192.168.1.2"), ConnectionTarget::Wifi);
}

#[test]
fn device_name_prefers_hostname_and_falls_back() {
    assert_eq!(desktop_device_name(Some(" box "), Some("pc")), "box");
    assert_eq!(desktop_device_name(None, Some("pc")), "pc");
    assert_eq!(desktop_device_name(Some("  "), Some("pc")), "PhoneCam Desktop");
    assert_eq!(desktop_device_name(None, None), "PhoneCam Desktop");
}

#[test]
fn interface_addresses_are_ordered_and_loopback_free() {
    let found = vec![
        IpAddress::V6([0xfe80, 0, 0, 0, 0, 0, 0, 1]),
        IpAddress::V4([192, 168, 1, 20]),
        IpAddress::V4([127, 0, 0, 1]),
        IpAddress::V4([10, 0, 0, 2]),
        IpAddress::V4([192, 168, 1, 20]),
        IpAddress::V6([0, 0, 0, 0, 0, 0, 0, 1]),
    ];
    assert_eq!(
        local_interface_ips(&found).unwrap(),
        vec![
            IpAddress::V4([10, 0, 0, 2]),
            IpAddress::V4([192, 168, 1, 20]),
            IpAddress::V6([0xfe80, 0, 0, 0, 0, 0, 0, 1]),
        ]
    );
    assert_eq!(
        local_interface_ips(&[IpAddress::V4([127, 1, 2, 3])]),
        Err("no non-loopback local network interface detected".to_string())
    );
}

#[test]
fn qr_uris_use_the_default_port() {
    let uris = qr_connection_uris("Desk", &[IpAddress::V4([10, 0, 0, 2]), IpAddress::V6([0, 0, 0, 0, 0, 0, 0, 1])]);
    assert_eq!(uris, vec!["phonecam://10.0.0.2:7878?name=Desk", "phonecam://[::1]:7878?name=Desk"]);
}

#[test]
fn qr_code_is_drawn_for_the_first_uri() {
    assert_eq!(generate_qr_code(&[]), Err("no QR connection URI available".to_string()));
    let svg = generate_qr_code(&["phonecam://10.0.0.2:7878?name=Desk".to_string()]).unwrap();
    assert!(svg.contains("<svg"));
    assert_eq!(qr_code_outcome(Err("data too long".to_string())), Err("failed to generate QR code: data too long".to_string()));
}

#[test]
fn window_status_mirrors_the_pipeline() {
    let status = status_of(&PipelineStatus::error("boom".to_string()));
    assert!(!status.connected);
    assert_eq!(status.state, "error");
    assert_eq!(status.last_error, Some("boom".to_string()));
}
