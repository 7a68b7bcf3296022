//! The desktop's user commands: where to connect and which stream settings the
//! controls offer.
use vstd::prelude::*;
use crate::address::{ip_text, IpAddress};
use crate::discovery::{format_qr_code_uri, qr_code_uri};
use crate::keyed::{chars_lt, lemma_seq_lt_total, lemma_seq_lt_transitive, seq_lt};
use crate::pipeline::{PipelineStatus, DEFAULT_LISTEN_PORT};
use crate::protocol::{is_supported_dimensions, is_supported_frame_rate, supported_dimensions, supported_frame_rates};
use crate::text::{
    owned, texts, chars_of, decimal, eq_ignore_ascii_case, equals, equals_ignore_ascii_case, has_prefix, push_decimal,
    push_str, starts_with, string_from_chars, trim, trimmed,
};

verus! {

broadcast use vstd::string::group_string_axioms;

/// How the desktop reaches the phone.
#[derive(Debug, Clone, PartialEq, Eq)]
pub enum ConnectionTarget {
    Wifi,
    Usb { serial: Option<String> },
}

/// The device serial named after a `usb:`, `adb:`, `usb://` or `adb://`
/// prefix (the first of these that matches), trimmed, if it is not empty.
pub open spec fn serial_after_prefix(t: Seq<char>) -> Option<Seq<char>> {
    let rest = if has_prefix(t, "usb:"@) {
        Some(t.skip(4))
    } else if has_prefix(t, "adb:"@) {
        Some(t.skip(4))
    } else if has_prefix(t, "usb://"@) {
        Some(t.skip(6))
    } else if has_prefix(t, "adb://"@) {
        Some(t.skip(6))
    } else {
        None
    };
    match rest {
        Some(r) => if trim(r).len() > 0 {
            Some(trim(r))
        } else {
            None
        },
        None => None,
    }
}

/// Whether the input names the USB link without a serial.
pub open spec fn names_usb(t: Seq<char>) -> bool {
    eq_ignore_ascii_case(t, "usb"@) || eq_ignore_ascii_case(t, "adb"@) || eq_ignore_ascii_case(
        t,
        "localhost"@,
    ) || t == "127.0.0.1"@
}

fn skip_chars(s: &Vec<char>, n: usize) -> (out: Vec<char>)
    requires
        n <= s@.len(),
    ensures
        out@ == s@.skip(n as int),
{
    let out = crate::text::slice_chars(s.as_slice(), n, s.len());
    assert(out@ =~= s@.skip(n as int));
    out
}

/// Reads the connect field: a USB serial after a `usb:` or `adb:` prefix,
/// the words `usb`, `adb` or `localhost` in any case, or `127.0.0.1` select
/// the USB link; anything else means Wi-Fi.
pub fn connection_target_from_input(ip: &str) -> (target: ConnectionTarget)
    ensures
        ({
            let t = trim(ip@);
            match serial_after_prefix(t) {
                Some(serial) => target matches ConnectionTarget::Usb { serial: Some(s) } && s@ == serial,
                None => if names_usb(t) {
                    target matches ConnectionTarget::Usb { serial: None }
                } else {
                    target matches ConnectionTarget::Wifi
                },
            }
        }),
{
    proof {
        reveal_strlit("usb:");
        reveal_strlit("adb:");
        reveal_strlit("usb://");
        reveal_strlit("adb://");
    }
    let all = chars_of(ip);
    let t = trimmed(all.as_slice());
    let rest: Option<Vec<char>> = if starts_with(t.as_slice(), "usb:") {
        Some(skip_chars(&t, 4))
    } else if starts_with(t.as_slice(), "adb:") {
        Some(skip_chars(&t, 4))
    } else if starts_with(t.as_slice(), "usb://") {
        Some(skip_chars(&t, 6))
    } else if starts_with(t.as_slice(), "adb://") {
        Some(skip_chars(&t, 6))
    } else {
        None
    };
    if let Some(r) = rest {
        let serial = trimmed(r.as_slice());
        if serial.len() > 0 {
            return ConnectionTarget::Usb { serial: Some(string_from_chars(serial.as_slice())) };
        }
    }
    if equals_ignore_ascii_case(t.as_slice(), "usb") || equals_ignore_ascii_case(t.as_slice(), "adb")
        || equals_ignore_ascii_case(t.as_slice(), "localhost") || equals(t.as_slice(), "127.0.0.1") {
        return ConnectionTarget::Usb { serial: None };
    }
    ConnectionTarget::Wifi
}

/// Accepts the resolutions and frame rates the protocol defines, which the
/// controls offer: 480p to 4K, at 15, 30 or 60 frames per second.
pub fn validate_stream_configuration(width: u16, height: u16, fps: u8) -> (res: Result<(), String>)
    ensures
        !supported_dimensions().contains((width, height)) ==> (res matches Err(m) && m@
            == "unsupported resolution "@ + decimal(width as nat) + "x"@ + decimal(height as nat)),
        supported_dimensions().contains((width, height)) && !supported_frame_rates().contains(fps) ==> (
        res matches Err(m) && m@ == "unsupported frame rate "@ + decimal(fps as nat)),
        supported_dimensions().contains((width, height)) && supported_frame_rates().contains(fps) ==> res
            is Ok,
{
    if !is_supported_dimensions(width, height) {
        let mut m: Vec<char> = Vec::new();
        push_str(&mut m, "unsupported resolution ");
        push_decimal(&mut m, width as u64);
        push_str(&mut m, "x");
        push_decimal(&mut m, height as u64);
        return Err(string_from_chars(m.as_slice()));
    }
    if !is_supported_frame_rate(fps) {
        let mut m: Vec<char> = Vec::new();
        push_str(&mut m, "unsupported frame rate ");
        push_decimal(&mut m, fps as u64);
        return Err(string_from_chars(m.as_slice()));
    }
    Ok(())
}

/// What the desktop's window shows of the pipeline.
#[derive(Debug, Clone, PartialEq, Eq)]
pub struct Status {
    pub connected: bool,
    pub state: String,
    pub last_error: Option<String>,
}

/// The window's view of a pipeline status.
pub fn status_of(p: &PipelineStatus) -> (s: Status)
    ensures
        s.connected == p.connected,
        s.state == p.state,
        s.last_error == p.last_error,
{
    Status {
        connected: p.connected,
        state: p.state.clone(),
        last_error: match &p.last_error {
            Some(e) => Some(e.clone()),
            None => None,
        },
    }
}

/// The name a desktop gives itself in its QR code: the `HOSTNAME`
/// variable, or else `COMPUTERNAME`, trimmed; `PhoneCam Desktop` when the
/// chosen one is blank or neither is set.
pub open spec fn device_name(hostname: Option<Seq<char>>, computername: Option<Seq<char>>) -> Seq<char> {
    let chosen = match hostname {
        Some(h) => Some(h),
        None => computername,
    };
    match chosen {
        Some(n) => if trim(n).len() > 0 {
            trim(n)
        } else {
            "PhoneCam Desktop"@
        },
        None => "PhoneCam Desktop"@,
    }
}

/// The name a desktop gives itself, from the values of `HOSTNAME` and
/// `COMPUTERNAME` (absent when unset).
pub fn desktop_device_name(hostname: Option<&str>, computername: Option<&str>) -> (n: String)
    ensures
        n@ == device_name(
            match hostname {
                Some(h) => Some(h@),
                None => None,
            },
            match computername {
                Some(c) => Some(c@),
                None => None,
            },
        ),
{
    let chosen = match hostname {
        Some(h) => Some(h),
        None => computername,
    };
    match chosen {
        Some(n) => {
            let c = chars_of(n);
            let t = trimmed(c.as_slice());
            if t.len() > 0 {
                string_from_chars(t.as_slice())
            } else {
                owned("PhoneCam Desktop")
            }
        },
        None => owned("PhoneCam Desktop"),
    }
}

/// Whether an address is the loopback one (`127.0.0.0/8` or `::1`).
pub open spec fn is_loopback(ip: IpAddress) -> bool {
    match ip {
        IpAddress::V4(o) => o@[0] == 127,
        IpAddress::V6(g) => g@ == seq![0u16, 0, 0, 0, 0, 0, 0, 1],
    }
}

/// IPv4 addresses sort before IPv6 ones.
pub open spec fn family_rank(ip: IpAddress) -> nat {
    match ip {
        IpAddress::V4(_) => 0,
        IpAddress::V6(_) => 1,
    }
}

/// The order of listed addresses: IPv4 first, then by text.
pub open spec fn ip_lt(a: IpAddress, b: IpAddress) -> bool {
    family_rank(a) < family_rank(b) || (family_rank(a) == family_rank(b) && seq_lt(ip_text(a), ip_text(b)))
}

fn loopback(ip: IpAddress) -> (b: bool)
    ensures
        b == is_loopback(ip),
{
    match ip {
        IpAddress::V4(o) => o[0] == 127,
        IpAddress::V6(g) => {
            let r = g[0] == 0 && g[1] == 0 && g[2] == 0 && g[3] == 0 && g[4] == 0 && g[5] == 0 && g[6] == 0 && g[7]
                == 1;
            assert(r == (g@ =~= seq![0u16, 0, 0, 0, 0, 0, 0, 1]));
            r
        },
    }
}

fn ip_before(a: IpAddress, b: IpAddress) -> (r: bool)
    ensures
        r == ip_lt(a, b),
{
    let fa: u8 = match a {
        IpAddress::V4(_) => 0,
        IpAddress::V6(_) => 1,
    };
    let fb: u8 = match b {
        IpAddress::V4(_) => 0,
        IpAddress::V6(_) => 1,
    };
    if fa != fb {
        return fa < fb;
    }
    let mut x: Vec<char> = Vec::new();
    crate::address::push_ip(&mut x, a);
    let mut y: Vec<char> = Vec::new();
    crate::address::push_ip(&mut y, b);
    assert(x@ =~= ip_text(a));
    assert(y@ =~= ip_text(b));
    chars_lt(x.as_slice(), y.as_slice())
}

/// The message when the desktop has no address to show.
pub open spec fn no_interface_text() -> Seq<char> {
    "no non-loopback local network interface detected"@
}

/// Whether addresses are in strictly ascending order.
pub open spec fn ips_sorted(s: Seq<IpAddress>) -> bool {
    forall|i: int, j: int| 0 <= i < j < s.len() ==> ip_lt(#[trigger] s[i], #[trigger] s[j])
}

/// The addresses the desktop offers in its QR codes, from those of its
/// network interfaces: loopback ones left out, IPv4 first, each in text
/// order and once. None left is an error.
pub fn local_interface_ips(found: &[IpAddress]) -> (r: Result<Vec<IpAddress>, String>)
    ensures
        match r {
            Ok(v) => {
                &&& v@.len() > 0
                &&& ips_sorted(v@)
                &&& forall|i: int| 0 <= i < v@.len() ==> found@.contains(#[trigger] v@[i]) && !is_loopback(v@[i])
                &&& forall|j: int| 0 <= j < found@.len() && !is_loopback(#[trigger] found@[j]) ==> exists|i: int|
                    0 <= i < v@.len() && !ip_lt(v@[i], found@[j]) && !ip_lt(found@[j], v@[i])
            },
            Err(m) => m@ == no_interface_text() && forall|j: int| 0 <= j < found@.len() ==> is_loopback(
                #[trigger] found@[j],
            ),
        },
{
    let mut out: Vec<IpAddress> = Vec::new();
    let mut k: usize = 0;
    while k < found.len()
        invariant
            k <= found@.len(),
            ips_sorted(out@),
            forall|i: int| 0 <= i < out@.len() ==> found@.contains(#[trigger] out@[i]) && !is_loopback(out@[i]),
            forall|j: int| 0 <= j < k && !is_loopback(#[trigger] found@[j]) ==> exists|i: int|
                0 <= i < out@.len() && !ip_lt(out@[i], found@[j]) && !ip_lt(found@[j], out@[i]),
        decreases found@.len() - k,
    {
        let ip = found[k];
        if !loopback(ip) {
            let mut pos: usize = 0;
            while pos < out.len() && ip_before(out[pos], ip)
                invariant
                    pos <= out@.len(),
                    forall|i: int| 0 <= i < pos ==> ip_lt(#[trigger] out@[i], ip),
                decreases out@.len() - pos,
            {
                pos = pos + 1;
            }
            let ghost before = out@;
            if pos < out.len() && !ip_before(ip, out[pos]) {
                assert(!ip_lt(before[pos as int], ip));
            } else {
                out.insert(pos, ip);
                proof {
                    let after = out@;
                    assert(after =~= before.insert(pos as int, ip));
                    assert forall|a: int, b: int| 0 <= a < b < after.len() implies ip_lt(
                        #[trigger] after[a],
                        #[trigger] after[b],
                    ) by {
                        if b < pos {
                            assert(after[a] == before[a] && after[b] == before[b]);
                        } else if b == pos {
                            assert(after[a] == before[a]);
                        } else if a == pos {
                            assert(after[b] == before[b - 1]);
                            lemma_ip_lt_total(ip, before[pos as int]);
                            if b - 1 > pos {
                                lemma_ip_lt_transitive(ip, before[pos as int], before[b - 1]);
                            }
                        } else if a < pos {
                            assert(after[a] == before[a] && after[b] == before[b - 1]);
                        } else {
                            assert(after[a] == before[a - 1] && after[b] == before[b - 1]);
                        }
                    }
                    assert forall|i: int| 0 <= i < after.len() implies found@.contains(#[trigger] after[i])
                        && !is_loopback(after[i]) by {
                        if i < pos {
                            assert(after[i] == before[i]);
                        } else if i == pos {
                            assert(after[i] == found@[k as int]);
                        } else {
                            assert(after[i] == before[i - 1]);
                        }
                    }
                    assert forall|j: int| 0 <= j < k && !is_loopback(#[trigger] found@[j]) implies exists|i: int|
                        0 <= i < after.len() && !ip_lt(after[i], found@[j]) && !ip_lt(found@[j], after[i]) by {
                        let i = choose|i: int|
                            0 <= i < before.len() && !ip_lt(before[i], found@[j]) && !ip_lt(found@[j], before[i]);
                        if i < pos {
                            assert(after[i] == before[i]);
                        } else {
                            assert(after[i + 1] == before[i]);
                        }
                    }
                    assert(after[pos as int] == ip);
                    lemma_ip_lt_total(ip, ip);
                }
            }
        }
        k = k + 1;
    }
    if out.len() == 0 {
        proof {
            assert forall|j: int| 0 <= j < found@.len() implies is_loopback(#[trigger] found@[j]) by {
                if !is_loopback(found@[j]) {
                    let i = choose|i: int| 0 <= i < out@.len() && !ip_lt(out@[i], found@[j]) && !ip_lt(
                        found@[j],
                        out@[i],
                    );
                }
            }
        }
        return Err(owned("no non-loopback local network interface detected"));
    }
    Ok(out)
}

/// Law: the order of listed addresses is strict and total up to equal keys.
pub proof fn lemma_ip_lt_total(a: IpAddress, b: IpAddress)
    ensures
        !(ip_lt(a, b) && ip_lt(b, a)),
        !ip_lt(a, a),
{
    lemma_seq_lt_total(ip_text(a), ip_text(b));
    lemma_seq_lt_total(ip_text(a), ip_text(a));
}

/// Law: the order of listed addresses is transitive.
pub proof fn lemma_ip_lt_transitive(a: IpAddress, b: IpAddress, c: IpAddress)
    requires
        ip_lt(a, b),
        ip_lt(b, c),
    ensures
        ip_lt(a, c),
{
    if family_rank(a) == family_rank(b) && family_rank(b) == family_rank(c) {
        lemma_seq_lt_transitive(ip_text(a), ip_text(b), ip_text(c));
    }
}

/// The QR code URIs of the desktop, one per address, on the default port.
pub fn qr_connection_uris(device_name: &str, ips: &[IpAddress]) -> (uris: Vec<String>)
    ensures
        uris@.len() == ips@.len(),
        forall|i: int| 0 <= i < ips@.len() ==> (#[trigger] uris@[i])@ == qr_code_uri(
            ips@[i],
            DEFAULT_LISTEN_PORT,
            device_name@,
        ),
{
    let mut uris: Vec<String> = Vec::new();
    let mut i: usize = 0;
    while i < ips.len()
        invariant
            i <= ips@.len(),
            uris@.len() == i,
            forall|j: int| 0 <= j < i ==> (#[trigger] uris@[j])@ == qr_code_uri(ips@[j], DEFAULT_LISTEN_PORT, device_name@),
        decreases ips@.len() - i,
    {
        uris.push(format_qr_code_uri(ips[i], DEFAULT_LISTEN_PORT, device_name));
        i = i + 1;
    }
    uris
}

/// The SVG image that the `qrcode` crate draws for `data` (at least 240 by
/// 240 pixels), or its error text.
pub uninterp spec fn qr_svg(data: Seq<u8>) -> Result<Seq<char>, Seq<char>>;

/// Draws `data` as a QR code with the `qrcode` crate: `QrCode::new`, then
/// `render::<svg::Color>()`, `min_dimensions(240, 240)` and `build()`; the
/// error is `QrError`'s text. Believed: the result is a function of the data.
#[verifier::external_body]
fn render_qr_svg(data: &[u8]) -> (r: Result<String, String>)
    ensures
        match r {
            Ok(svg) => qr_svg(data@) == Ok::<Seq<char>, Seq<char>>(svg@),
            Err(e) => qr_svg(data@) == Err::<Seq<char>, Seq<char>>(e@),
        },
{
    match qrcode::QrCode::new(data) {
        Ok(code) => Ok(code.render::<qrcode::render::svg::Color>().min_dimensions(240, 240).build()),
        Err(error) => Err(error.to_string()),
    }
}

/// What the QR code command answers, given what drawing the code gave.
pub fn qr_code_outcome(drawn: Result<String, String>) -> (r: Result<String, String>)
    ensures
        match (drawn, r) {
            (Ok(a), Ok(b)) => a == b,
            (Err(e), Err(m)) => m@ == "failed to generate QR code: "@ + e@,
            _ => false,
        },
{
    match drawn {
        Ok(svg) => Ok(svg),
        Err(e) => {
            let mut out: Vec<char> = Vec::new();
            push_str(&mut out, "failed to generate QR code: ");
            push_str(&mut out, e.as_str());
            let m = string_from_chars(out.as_slice());
            assert(m@ =~= "failed to generate QR code: "@ + e@);
            Err(m)
        },
    }
}

/// The QR code of the first URI, as SVG.
pub fn generate_qr_code(uris: &[String]) -> (r: Result<String, String>)
    ensures
        uris@.len() == 0 ==> (r matches Err(m) && m@ == "no QR connection URI available"@),
        uris@.len() > 0 ==> match (qr_svg(vstd::utf8::encode_utf8(uris@[0]@)), r) {
            (Ok(a), Ok(b)) => a == b@,
            (Err(e), Err(m)) => m@ == "failed to generate QR code: "@ + e,
            _ => false,
        },
{
    if uris.len() == 0 {
        return Err(owned("no QR connection URI available"));
    }
    let bytes = uris[0].as_str().as_bytes();
    qr_code_outcome(render_qr_svg(bytes))
}

} // verus!
