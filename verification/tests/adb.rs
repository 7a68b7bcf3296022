use phonecam::adb::{parse_devices_output, AdbDevice, AdbDeviceState};
use phonecam::adb_monitor::{device_events, device_map, AdbDeviceEventKind};
use phonecam::adb_search::{adb_binary_name, adb_candidates, join_path, probe_output_is_adb, push_candidate, AdbSearchEnv};
use phonecam::adb_select::{
    check_forward_ports, check_local_port, explicit_serial, forward_args, kill_forward_args, resolve_target_serial,
    reverse_args, AdbError,
};

#[test]
fn parse_devices_output_extracts_connected_devices() {
    let output = r#"
List of devices attached
ABC123DEF456    device product:model device:device transport_id:1
XYZ789ABC012\tdevice product:model2 device:device2 transport_id:2
"#;

    let devices = parse_devices_output(output);
    assert_eq!(devices.len(), 2);

    assert_eq!(devices[0].serial, "ABC123DEF456");
    assert_eq!(devices[0].state, AdbDeviceState::Device);
    assert_eq!(devices[0].product.as_deref(), Some("model"));
    assert_eq!(devices[0].device.as_deref(), Some("device"));
    assert_eq!(devices[0].transport_id, Some(1));

    assert_eq!(devices[1].serial, "XYZ789ABC012");
    assert_eq!(devices[1].state, AdbDeviceState::Device);
    assert_eq!(devices[1].product.as_deref(), Some("model2"));
    assert_eq!(devices[1].device.as_deref(), Some("device2"));
    assert_eq!(devices[1].transport_id, Some(2));
}

#[test]
fn parse_devices_output_tracks_unauthorized_state() {
    let output = r#"
List of devices attached
ABC123DEF456 unauthorized usb:1 transport_id:3
"#;

    let devices = parse_devices_output(output);
    assert_eq!(devices.len(), 1);
    assert_eq!(devices[0].serial, "ABC123DEF456");
    assert_eq!(devices[0].state, AdbDeviceState::Unauthorized);
    assert_eq!(devices[0].transport_id, Some(3));
}

#[test]
fn parse_devices_output_ignores_daemon_banner_lines() {
    let output = r#"
* daemon not running; starting now at tcp:5037
* daemon started successfully
List of devices attached

"#;

    let devices = parse_devices_output(output);
    assert!(devices.is_empty());
}

#[test]
fn device_states_are_read_case_insensitively_and_unknown_ones_kept() {
    assert_eq!(AdbDeviceState::from_token(" OFFLINE "), AdbDeviceState::Offline);
    assert_eq!(AdbDeviceState::from_token("Recovery"), AdbDeviceState::Recovery);
    assert_eq!(AdbDeviceState::from_token(" no permissions "), AdbDeviceState::Unknown("no permissions".to_string()));
    assert_eq!(AdbDeviceState::Unknown("host".to_string()).to_text(), "host");
    assert_eq!(AdbDeviceState::Sideload.to_text(), "sideload");
}

#[test]
fn later_properties_win_and_bad_transport_ids_are_dropped() {
    let devices = parse_devices_output("S1 device model:a model:b transport_id:99999999999 junk :x y:\n");
    assert_eq!(devices.len(), 1);
    assert_eq!(devices[0].model.as_deref(), Some("b"));
    assert_eq!(devices[0].transport_id, None);
    assert_eq!(devices[0].properties.len(), 2);
}

fn device(serial: &str, state: AdbDeviceState) -> AdbDevice {
    AdbDevice {
        serial: serial.to_string(),
        state,
        product: None,
        model: None,
        device: None,
        transport_id: None,
        properties: Vec::new(),
    }
}

#[test]
fn target_selection_covers_every_outcome() {
    assert!(matches!(resolve_target_serial(&[], None), Err(AdbError::NoDevices)));
    let one = vec![device("A", AdbDeviceState::Device)];
    assert_eq!(resolve_target_serial(&one, None).unwrap(), "A");
    assert_eq!(resolve_target_serial(&one, Some("  A ")).unwrap(), "A");
    assert!(matches!(resolve_target_serial(&one, Some("B")), Err(AdbError::DeviceNotFound(s)) if s == "B"));
    let two = vec![device("A", AdbDeviceState::Device), device("B", AdbDeviceState::Device)];
    assert!(matches!(resolve_target_serial(&two, Some(" ")), Err(AdbError::MultipleDevices(v)) if v == vec!["A", "B"]));
    let waiting = vec![device("A", AdbDeviceState::Unauthorized), device("B", AdbDeviceState::Offline)];
    assert!(matches!(resolve_target_serial(&waiting, None), Err(AdbError::UnauthorizedDevices(v)) if v == vec!["A"]));
    assert!(matches!(resolve_target_serial(&waiting, Some("A")), Err(AdbError::UnauthorizedDevices(v)) if v == vec!["A"]));
    assert!(matches!(
        resolve_target_serial(&waiting, Some("B")),
        Err(AdbError::DeviceUnavailable { serial, state: AdbDeviceState::Offline }) if serial == "B"
    ));
    let offline = vec![device("B", AdbDeviceState::Offline)];
    assert!(matches!(resolve_target_serial(&offline, None), Err(AdbError::NoDevices)));
}

#[test]
fn error_messages_match_the_cli_texts() {
    assert_eq!(AdbError::InvalidPort(0).message(), "invalid TCP port 0");
    assert_eq!(AdbError::NotFound { searched: vec![] }.message(), "ADB binary not found");
    assert_eq!(
        AdbError::NotFound { searched: vec!["adb".to_string(), "/opt/adb".to_string()] }.message(),
        "ADB binary not found (searched: adb, /opt/adb)"
    );
    assert_eq!(
        AdbError::UnauthorizedDevices(vec![]).message(),
        "device is unauthorized; allow USB debugging on the phone"
    );
    assert_eq!(
        AdbError::UnauthorizedDevices(vec!["A".to_string(), "B".to_string()]).message(),
        "unauthorized device(s): A, B (allow USB debugging on the phone)"
    );
    assert_eq!(
        AdbError::MultipleDevices(vec!["A".to_string(), "B".to_string()]).message(),
        "multiple Android devices connected (specify serial): A, B"
    );
    assert_eq!(AdbError::DeviceNotFound("X".to_string()).message(), "ADB device not found: X");
    assert_eq!(
        AdbError::DeviceUnavailable { serial: "X".to_string(), state: AdbDeviceState::Offline }.message(),
        "ADB device X is not ready (state: offline)"
    );
    assert_eq!(
        AdbError::CommandFailed {
            command: "adb devices".to_string(),
            code: Some(-1),
            stdout: "  \n".to_string(),
            stderr: " boom ".to_string(),
        }
        .message(),
        "ADB command failed: `adb devices` (exit: Some(-1)); stderr: boom"
    );
    assert_eq!(
        AdbError::CommandFailed { command: "c".to_string(), code: None, stdout: "out".to_string(), stderr: String::new() }
            .message(),
        "ADB command failed: `c` (exit: None); stdout: out"
    );
    assert_eq!(AdbError::NoDevices.message(), "no Android devices detected");
}

#[test]
fn forward_commands_and_port_checks() {
    assert!(matches!(check_forward_ports(0, 5), Err(AdbError::InvalidPort(0))));
    assert!(matches!(check_forward_ports(5, 0), Err(AdbError::InvalidPort(0))));
    assert!(check_forward_ports(5, 6).is_ok());
    assert!(matches!(check_local_port(0), Err(AdbError::InvalidPort(0))));
    let t = "SER".to_string();
    assert_eq!(forward_args(&t, 7878, 9000), vec!["-s", "SER", "forward", "tcp:7878", "tcp:9000"]);
    assert_eq!(kill_forward_args(&t, 7878), vec!["-s", "SER", "forward", "--remove", "tcp:7878"]);
    assert_eq!(reverse_args(&t, 7878, 7878), vec!["-s", "SER", "reverse", "tcp:7878", "tcp:7878"]);
    assert_eq!(explicit_serial(Some("  ")), None);
    assert_eq!(explicit_serial(Some(" Q ")), Some("Q".to_string()));
}

#[test]
fn monitor_reports_arrivals_changes_and_departures() {
    let previous = device_map(vec![device("A", AdbDeviceState::Device), device("B", AdbDeviceState::Offline)]);
    let current = device_map(vec![
        device("C", AdbDeviceState::Device),
        device("B", AdbDeviceState::Unauthorized),
        device("B", AdbDeviceState::Device),
    ]);
    assert_eq!(current.len(), 2);
    let events = device_events(&previous, &current);
    let summary: Vec<(String, AdbDeviceEventKind)> = events.iter().map(|e| (e.serial.clone(), e.kind)).collect();
    assert_eq!(
        summary,
        vec![
            ("B".to_string(), AdbDeviceEventKind::StateChanged),
            ("C".to_string(), AdbDeviceEventKind::Connected),
            ("A".to_string(), AdbDeviceEventKind::Disconnected),
        ]
    );
    assert_eq!(events[0].previous_state, Some(AdbDeviceState::Offline));
    assert_eq!(events[0].current_state, Some(AdbDeviceState::Device));
    assert_eq!(events[2].current_state, None);
    assert!(device_events(&current, &current).is_empty());
}

#[test]
fn adb_search_places_are_tried_in_order_once() {
    let env = AdbSearchEnv {
        adb_path: Some("adb".to_string()),
        android_home: Some("/sdk/".to_string()),
        android_sdk_root: Some("/sdk".to_string()),
        home: Some("/home/u".to_string()),
        local_app_data: Some("C:\\Local".to_string()),
        exe_dir: Some("/app/bin".to_string()),
        exe_parent: Some("/app".to_string()),
        windows: false,
    };
    assert_eq!(
        adb_candidates(&env),
        vec![
            "adb",
            "adb/adb",
            "/sdk/platform-tools/adb",
            "/home/u/Android/Sdk/platform-tools/adb",
            "/app/bin/adb",
            "/app/bin/platform-tools/adb",
            "/app/bin/resources/platform-tools/adb",
            "/app/Resources/platform-tools/adb",
        ]
    );
    assert_eq!(adb_binary_name(true), "adb.exe");
    assert_eq!(join_path("C:\\x", "y", true), "C:\\x\\y");
    let mut list = vec!["a".to_string()];
    push_candidate(&mut list, "a".to_string());
    push_candidate(&mut list, "b".to_string());
    assert_eq!(list, vec!["a", "b"]);
}

#[test]
fn probe_accepts_only_a_successful_android_debug_bridge() {
    assert!(probe_output_is_adb(true, "Android Debug Bridge version 1.0.41", ""));
    assert!(probe_output_is_adb(true, "", "x Android Debug Bridge"));
    assert!(!probe_output_is_adb(false, "Android Debug Bridge", ""));
    assert!(!probe_output_is_adb(true, "Android Debug", "Bridge"));
}

#[test]
fn joined_outputs_list_the_devices_of_both() {
    let a = "List of devices attached\nAAA device model:X";
    let b = "* daemon started successfully\n\nBBB unauthorized\nCCC offline transport_id:3\n";
    let joined = format!("{a}\n{b}");
    let serials = |devices: Vec<AdbDevice>| devices.into_iter().map(|d| d.serial).collect::<Vec<_>>();
    let mut both = serials(parse_devices_output(a));
    both.extend(serials(parse_devices_output(b)));
    assert_eq!(serials(parse_devices_output(&joined)), both);
    assert_eq!(both, vec!["AAA".to_string(), "BBB".to_string(), "CCC".to_string()]);
}
