use phonecam::address::{parse_socket_addr, IpAddress};
use phonecam::discovery::{
    build_host_name, format_qr_code_uri, host_name_with, instance_name_from_fullname, order_services,
    parse_name_from_query, parse_qr_code_uri, sanitize_dns_label, DiscoveredService, DiscoveryError,
    QrCodeConnectionInfo,
};

#[test]
fn qr_code_uri_format() {
    let ipv4_info = QrCodeConnectionInfo { name: "Pixel7".to_string(), ip: IpAddress::V4([192, 168, 0, 42]), port: 5_555 };

    let ipv4_uri = format_qr_code_uri(ipv4_info.ip, ipv4_info.port, &ipv4_info.name);
    assert_eq!(ipv4_uri, "phonecam://192.168.0.42:5555?name=Pixel7");

    let parsed_ipv4 = parse_qr_code_uri(&ipv4_uri).expect("must parse ipv4 qr uri");
    assert_eq!(parsed_ipv4, ipv4_info);

    let ipv6_info = QrCodeConnectionInfo { name: "iPhone15".to_string(), ip: IpAddress::V6([0, 0, 0, 0, 0, 0, 0, 1]), port: 6_666 };

    let ipv6_uri = format_qr_code_uri(ipv6_info.ip, ipv6_info.port, &ipv6_info.name);
    assert_eq!(ipv6_uri, "phonecam://[::1]:6666?name=iPhone15");

    let parsed_ipv6 = parse_qr_code_uri(&ipv6_uri).expect("must parse ipv6 qr uri");
    assert_eq!(parsed_ipv6, ipv6_info);
}

fn invalid(uri: &str) -> String {
    match parse_qr_code_uri(uri) {
        Err(DiscoveryError::InvalidQrCodeUri(m)) => m,
        other => panic!("expected an invalid URI, got {other:?}"),
    }
}

#[test]
fn qr_code_uri_errors_name_the_missing_part() {
    assert_eq!(invalid("http://1.2.3.4:5?name=a"), "missing phonecam:// scheme");
    assert_eq!(invalid("phonecam://1.2.3.4:5"), "missing ?name=DEVICE_NAME query parameter");
    assert_eq!(invalid("phonecam://1.2.3.4?name=a"), "expected host:port authority");
    assert_eq!(invalid("phonecam://01.2.3.4:5?name=a"), "expected host:port authority");
    assert_eq!(invalid("phonecam://1.2.3.4:5?x=1&nam=2"), "missing required name query parameter");
    let info = parse_qr_code_uri("phonecam://10.0.0.1:80?x=1&name=Desk&name=Other").unwrap();
    assert_eq!(info.name, "Desk");
    assert_eq!(
        DiscoveryError::InvalidQrCodeUri("x".to_string()).message(),
        "invalid QR code URI: x"
    );
}

#[test]
fn ipv6_text_compresses_the_longest_zero_run() {
    let uri = format_qr_code_uri(IpAddress::V6([0x2001, 0xdb8, 0, 0, 1, 0, 0, 0]), 1, "n");
    assert_eq!(uri, "phonecam://[2001:db8:0:0:1::]:1?name=n");
    let mapped = format_qr_code_uri(IpAddress::V6([0, 0, 0, 0, 0, 0xffff, 0xc0a8, 0x0001]), 2, "n");
    assert_eq!(mapped, "phonecam://[::ffff:192.168.0.1]:2?name=n");
    let single = format_qr_code_uri(IpAddress::V6([1, 0, 2, 3, 4, 5, 6, 7]), 3, "n");
    assert_eq!(single, "phonecam://[1:0:2:3:4:5:6:7]:3?name=n");
}

#[test]
fn qr_codes_of_ipv6_desktops_read_back() {
    let addresses = [
        IpAddress::V6([0x2001, 0xdb8, 0, 0, 1, 0, 0, 0]),
        IpAddress::V6([0, 0, 0, 0, 0, 0xffff, 0xc0a8, 0x0001]),
        IpAddress::V6([1, 0, 2, 3, 4, 5, 6, 7]),
        IpAddress::V6([0, 0, 0, 0, 0, 0, 0, 0]),
        IpAddress::V6([0xfe80, 0, 0, 0, 0xabcd, 0, 0, 0xffff]),
    ];
    for ip in addresses {
        let uri = format_qr_code_uri(ip, 65_535, "Desk Top");
        let info = parse_qr_code_uri(&uri).expect("a formatted QR code reads back");
        assert_eq!(info, QrCodeConnectionInfo { name: "Desk Top".to_string(), ip, port: 65_535 }, "{uri}");
    }
}

#[test]
fn socket_addresses_parse_like_the_standard_library() {
    let text: Vec<char> = "[fe80::1%3]:8080".chars().collect();
    assert_eq!(parse_socket_addr(&text), Some((IpAddress::V6([0xfe80, 0, 0, 0, 0, 0, 0, 1]), 8080)));
    let mapped: Vec<char> = "[::ffff:1.2.3.4]:1".chars().collect();
    assert_eq!(parse_socket_addr(&mapped), Some((IpAddress::V6([0, 0, 0, 0, 0, 0xffff, 0x0102, 0x0304]), 1)));
    let full: Vec<char> = "[1:2:3:4:5:6:7:8]:0".chars().collect();
    assert_eq!(parse_socket_addr(&full), Some((IpAddress::V6([1, 2, 3, 4, 5, 6, 7, 8]), 0)));
    for bad in ["1.2.3.256:1", "1.2.3:1", "[1::2::3]:1", "1.2.3.4:65536", "[::1]", "1.2.3.4:1 "] {
        let chars: Vec<char> = bad.chars().collect();
        assert_eq!(parse_socket_addr(&chars), None, "{bad}");
    }
}

#[test]
fn dns_labels_are_sanitized() {
    assert_eq!(sanitize_dns_label("My Phone!!Cam"), "my-phone-cam");
    assert_eq!(sanitize_dns_label("--"), "phonecam");
    assert_eq!(sanitize_dns_label(""), "phonecam");
    assert_eq!(sanitize_dns_label(&"a".repeat(60)).len(), 48);
    assert_eq!(host_name_with("Desk Top", 42), "desk-top-42.local.");
    assert_eq!(host_name_with("D", u128::MAX), format!("d-{}.local.", u128::MAX));
    let host = build_host_name("Desk");
    assert!(host.starts_with("desk-") && host.ends_with(".local."));
}

#[test]
fn instance_names_drop_the_service_type() {
    assert_eq!(instance_name_from_fullname("Office._phonecam._tcp.local."), "Office");
    assert_eq!(instance_name_from_fullname("Office..."), "Office");
    assert_eq!(instance_name_from_fullname("other._http._tcp.local."), "other._http._tcp.local");
    assert_eq!(parse_name_from_query("a=1&name=x&name=y"), Some("x".to_string()));
    assert_eq!(parse_name_from_query("name="), Some(String::new()));
    assert_eq!(parse_name_from_query("names=1"), None);
}

#[test]
fn services_are_ordered_and_deduplicated() {
    let svc = |name: &str, ip: IpAddress, port: u16| DiscoveredService {
        name: name.to_string(),
        ip,
        port,
        version: "1".to_string(),
    };
    let found = vec![
        svc("b", IpAddress::V4([10, 0, 0, 1]), 1),
        svc("a", IpAddress::V4([10, 0, 0, 2]), 1),
        svc("a", IpAddress::V4([10, 0, 0, 10]), 1),
        svc("b", IpAddress::V4([10, 0, 0, 1]), 1),
    ];
    let ordered = order_services(found);
    let keys: Vec<(String, u8)> = ordered
        .iter()
        .map(|s| (s.name.clone(), match s.ip { IpAddress::V4(o) => o[3], IpAddress::V6(_) => 0 }))
        .collect();
    assert_eq!(keys, vec![("a".to_string(), 10), ("a".to_string(), 2), ("b".to_string(), 1)]);
}
