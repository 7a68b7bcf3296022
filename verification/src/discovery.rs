//! Finding PhoneCam desktops: the mDNS names a desktop advertises, and the
//! QR code that carries its address.
use vstd::prelude::*;
use crate::adb::{index_of};
use crate::keyed::{chars_lt, lemma_seq_lt_total, lemma_seq_lt_transitive, seq_lt, string_lt};
use crate::address::{ipv4_text, ipv6_text, lemma_decimal_shape, lemma_ipv4_socket_addr_roundtrip,
    lemma_ipv6_socket_addr_roundtrip, lemma_ipv6_text_chars, ip_text, ip_view, parse_socket_addr, push_ip, socket_addr,
    IpAddress};
use crate::text::{ascii_lower, chars_of, decimal, has_prefix, owned, push_chars, push_decimal, push_decimal_wide, push_str, starts_with,
    string_from_chars, to_ascii_lowercase};

verus! {

broadcast use vstd::string::group_string_axioms;

/// The DNS-SD service type of a PhoneCam desktop.
pub open spec fn service_type() -> Seq<char> {
    "_phonecam._tcp.local."@
}

/// The TXT property that carries the desktop's version.
pub open spec fn version_property_key() -> Seq<char> {
    "version"@
}

/// The mDNS port used unless another is given.
pub const DEFAULT_MDNS_PORT: u16 = 5353;

/// Whether `c` is an ASCII letter or digit.
pub open spec fn is_ascii_alnum(c: char) -> bool {
    ('a' <= c && c <= 'z') || ('A' <= c && c <= 'Z') || ('0' <= c && c <= '9')
}

/// The longest a DNS label is allowed to grow before it is cut.
pub open spec fn label_limit() -> nat {
    48
}

/// The label built from `chars` and whether it ends in a dash: letters and
/// digits lower-cased, every run of other characters one dash, and no more
/// characters once it is 48 long.
pub open spec fn label_run(chars: Seq<char>) -> (Seq<char>, bool)
    decreases chars.len(),
{
    if chars.len() == 0 {
        (seq![], false)
    } else {
        let (out, dash) = label_run(chars.drop_last());
        let c = chars.last();
        if out.len() >= label_limit() {
            (out, dash)
        } else if is_ascii_alnum(c) {
            (out.push(ascii_lower(c)), false)
        } else if !dash {
            (out.push('-'), true)
        } else {
            (out, dash)
        }
    }
}

/// `s` without leading dashes.
pub open spec fn strip_leading_dashes(s: Seq<char>) -> Seq<char>
    decreases s.len(),
{
    if s.len() > 0 && s[0] == '-' {
        strip_leading_dashes(s.drop_first())
    } else {
        s
    }
}

/// `s` without trailing dashes.
pub open spec fn strip_trailing_dashes(s: Seq<char>) -> Seq<char>
    decreases s.len(),
{
    if s.len() > 0 && s.last() == '-' {
        strip_trailing_dashes(s.drop_last())
    } else {
        s
    }
}

/// The DNS label made from a device name: `phonecam` when nothing is left.
pub open spec fn dns_label(name: Seq<char>) -> Seq<char> {
    let t = strip_trailing_dashes(strip_leading_dashes(label_run(name).0));
    if t.len() == 0 {
        "phonecam"@
    } else {
        t
    }
}

fn strip_dashes(s: &Vec<char>) -> (t: Vec<char>)
    ensures
        t@ == strip_trailing_dashes(strip_leading_dashes(s@)),
{
    let mut start: usize = 0;
    assert(s@.skip(0) =~= s@);
    while start < s.len() && s[start] == '-'
        invariant
            start <= s@.len(),
            strip_leading_dashes(s@) == strip_leading_dashes(s@.skip(start as int)),
        decreases s@.len() - start,
    {
        assert(s@.skip(start as int).drop_first() =~= s@.skip(start + 1));
        start = start + 1;
    }
    let ghost rest = s@.skip(start as int);
    assert(strip_leading_dashes(rest) == rest);
    let mut end: usize = s.len();
    assert(rest.take(end - start) =~= rest);
    while end > start && s[end - 1] == '-'
        invariant
            start <= end <= s@.len(),
            rest == s@.skip(start as int),
            strip_trailing_dashes(rest) == strip_trailing_dashes(rest.take(end - start)),
        decreases end - start,
    {
        assert(rest.take(end - start).drop_last() =~= rest.take(end - start - 1));
        end = end - 1;
    }
    let t = crate::text::slice_chars(s.as_slice(), start, end);
    assert(t@ =~= rest.take(end - start));
    t
}

/// Makes a DNS label from a device name: ASCII letters and digits, lower-cased,
/// with a single dash for each run of other characters, cut at 48 characters
/// and without dashes at either end; `phonecam` when nothing is left.
pub fn sanitize_dns_label(value: &str) -> (label: String)
    ensures
        label@ == dns_label(value@),
{
    proof {
        reveal_strlit("phonecam");
    }
    let chars = chars_of(value);
    let mut out: Vec<char> = Vec::new();
    let mut last_was_dash = false;
    let mut i: usize = 0;
    while i < chars.len()
        invariant
            i <= chars@.len(),
            chars@ == value@,
            (out@, last_was_dash) == label_run(chars@.take(i as int)),
            out@.len() <= label_limit(),
        decreases chars@.len() - i,
    {
        let ghost before = chars@.take(i as int);
        assert(chars@.take(i + 1).drop_last() =~= before);
        assert(chars@.take(i + 1).last() == chars@[i as int]);
        if out.len() >= 48 {
            proof {
                lemma_label_run_stops(chars@, i as int, chars@.len() as int);
                assert(chars@.take(chars@.len() as int) =~= chars@);
                assert(label_run(value@) == (out@, last_was_dash));
            }
            return finish_label(&out);
        }
        let ch = chars[i];
        if ('a' <= ch && ch <= 'z') || ('A' <= ch && ch <= 'Z') || ('0' <= ch && ch <= '9') {
            last_was_dash = false;
            out.push(to_ascii_lowercase(ch));
        } else if !last_was_dash {
            last_was_dash = true;
            out.push('-');
        }
        i = i + 1;
    }
    assert(chars@.take(chars@.len() as int) =~= chars@);
    finish_label(&out)
}

proof fn lemma_label_run_stops(chars: Seq<char>, i: int, k: int)
    requires
        0 <= i < k <= chars.len(),
        label_run(chars.take(i)).0.len() >= label_limit(),
    ensures
        label_run(chars.take(k)) == label_run(chars.take(i)),
    decreases k - i,
{
    assert(chars.take(k).drop_last() =~= chars.take(k - 1));
    if k - 1 > i {
        lemma_label_run_stops(chars, i, k - 1);
    }
}

fn finish_label(out: &Vec<char>) -> (label: String)
    ensures
        label@ == (if strip_trailing_dashes(strip_leading_dashes(out@)).len() == 0 {
            "phonecam"@
        } else {
            strip_trailing_dashes(strip_leading_dashes(out@))
        }),
{
    let t = strip_dashes(out);
    if t.len() == 0 {
        owned("phonecam")
    } else {
        string_from_chars(t.as_slice())
    }
}

/// Whether `c` may stand in a DNS label made here: a lower-case ASCII
/// letter, a digit or a dash.
pub open spec fn is_label_char(c: char) -> bool {
    ('a' <= c && c <= 'z') || ('0' <= c && c <= '9') || c == '-'
}

proof fn lemma_label_run_valid(chars: Seq<char>)
    ensures
        label_run(chars).0.len() <= label_limit(),
        forall|i: int| 0 <= i < label_run(chars).0.len() ==> is_label_char(#[trigger] label_run(chars).0[i]),
        label_run(chars).1 ==> label_run(chars).0.len() > 0 && label_run(chars).0.last() == '-',
    decreases chars.len(),
{
    if chars.len() > 0 {
        lemma_label_run_valid(chars.drop_last());
        let (out, dash) = label_run(chars.drop_last());
        let c = chars.last();
        if out.len() < label_limit() && is_ascii_alnum(c) {
            let l = ascii_lower(c);
            if 'A' <= c && c <= 'Z' {
                let v = (c as u32) + 32;
                assert(97 <= v <= 122);
                vstd::utf8::char_u32_cast(l, (l as u32));
                assert(l == v as char);
            }
            assert(is_label_char(l));
            let n = out.push(l);
            assert forall|i: int| 0 <= i < n.len() implies is_label_char(#[trigger] n[i]) by {
                if i < out.len() {
                    assert(n[i] == out[i]);
                }
            }
        } else if out.len() < label_limit() && !dash {
            let n = out.push('-');
            assert forall|i: int| 0 <= i < n.len() implies is_label_char(#[trigger] n[i]) by {
                if i < out.len() {
                    assert(n[i] == out[i]);
                }
            }
        }
    }
}

proof fn lemma_strip_leading(s: Seq<char>)
    ensures
        strip_leading_dashes(s).len() <= s.len(),
        forall|i: int| 0 <= i < strip_leading_dashes(s).len() ==> #[trigger] strip_leading_dashes(s)[i] == s[i + (s.len()
            - strip_leading_dashes(s).len())],
        strip_leading_dashes(s).len() > 0 ==> strip_leading_dashes(s)[0] != '-',
    decreases s.len(),
{
    if s.len() > 0 && s[0] == '-' {
        lemma_strip_leading(s.drop_first());
    }
}

proof fn lemma_strip_trailing(s: Seq<char>)
    ensures
        strip_trailing_dashes(s).len() <= s.len(),
        forall|i: int| 0 <= i < strip_trailing_dashes(s).len() ==> #[trigger] strip_trailing_dashes(s)[i] == s[i],
        strip_trailing_dashes(s).len() > 0 ==> strip_trailing_dashes(s).last() != '-',
    decreases s.len(),
{
    if s.len() > 0 && s.last() == '-' {
        lemma_strip_trailing(s.drop_last());
    }
}

/// Law: the label made from any device name is a valid DNS label: one to
/// 48 characters, each a lower-case letter, a digit or a dash, with no dash
/// at either end.
pub proof fn lemma_dns_label_valid(name: Seq<char>)
    ensures
        1 <= dns_label(name).len() <= 48,
        forall|i: int| 0 <= i < dns_label(name).len() ==> is_label_char(#[trigger] dns_label(name)[i]),
        dns_label(name)[0] != '-',
        dns_label(name).last() != '-',
{
    reveal_strlit("phonecam");
    let out = label_run(name).0;
    lemma_label_run_valid(name);
    let a = strip_leading_dashes(out);
    lemma_strip_leading(out);
    let t = strip_trailing_dashes(a);
    lemma_strip_trailing(a);
    if t.len() > 0 {
        assert forall|i: int| 0 <= i < t.len() implies is_label_char(#[trigger] t[i]) by {
            assert(t[i] == a[i]);
            assert(a[i] == out[i + (out.len() - a.len())]);
        }
        assert(t[0] == a[0]);
    } else {
        let p = "phonecam"@;
        assert forall|i: int| 0 <= i < p.len() implies is_label_char(#[trigger] p[i]) by {}
    }
}

/// The host name a desktop advertises: its label, a dash, a unique number,
/// and `.local.`.
pub open spec fn host_name(device_name: Seq<char>, unique: u128) -> Seq<char> {
    dns_label(device_name) + "-"@ + decimal(unique as nat) + ".local."@
}

/// The host name for `device_name` with the unique number `unique`.
pub fn host_name_with(device_name: &str, unique: u128) -> (h: String)
    ensures
        h@ == host_name(device_name@, unique),
{
    let label = sanitize_dns_label(device_name);
    let mut out: Vec<char> = Vec::new();
    push_str(&mut out, label.as_str());
    push_str(&mut out, "-");
    push_decimal_wide(&mut out, unique);
    push_str(&mut out, ".local.");
    let h = string_from_chars(out.as_slice());
    assert(h@ =~= host_name(device_name@, unique));
    h
}

/// Microseconds since the Unix epoch, from `SystemTime::now` and
/// `duration_since(UNIX_EPOCH)`; 0 when the clock is before the epoch.
/// Nothing is stated of it: it depends on the clock.
#[verifier::external_body]
fn unix_micros() -> (m: u128) {
    std::time::SystemTime::now().duration_since(std::time::UNIX_EPOCH).map(|d| d.as_micros()).unwrap_or_default()
}

/// The host name a desktop advertises, made unique with the current time in
/// microseconds since the Unix epoch.
pub fn build_host_name(device_name: &str) -> (h: String)
    ensures
        exists|unique: u128| h@ == host_name(device_name@, unique),
{
    let unique = unix_micros();
    host_name_with(device_name, unique)
}

/// `s` without trailing dots.
pub open spec fn strip_trailing_dots(s: Seq<char>) -> Seq<char>
    decreases s.len(),
{
    if s.len() > 0 && s.last() == '.' {
        strip_trailing_dots(s.drop_last())
    } else {
        s
    }
}

/// The instance name of a service's full name: the service type taken off
/// the end when it is there, then the trailing dots.
pub open spec fn instance_name(fullname: Seq<char>) -> Seq<char> {
    let st = service_type();
    let base = if st.len() <= fullname.len() && fullname.skip(fullname.len() - st.len()) == st {
        fullname.take(fullname.len() - st.len())
    } else {
        fullname
    };
    strip_trailing_dots(base)
}

/// The instance name of a service's full name.
pub fn instance_name_from_fullname(fullname: &str) -> (name: String)
    ensures
        name@ == instance_name(fullname@),
{
    proof {
        reveal_strlit("_phonecam._tcp.local.");
    }
    let f = chars_of(fullname);
    let st = chars_of("_phonecam._tcp.local.");
    let mut end: usize = f.len();
    if st.len() <= f.len() {
        let start = f.len() - st.len();
        let mut j: usize = 0;
        while j < st.len()
            invariant
                start + st@.len() == f@.len(),
                f@.len() <= usize::MAX,
                j <= st@.len(),
                forall|k: int| 0 <= k < j ==> f@[start + k] == st@[k],
            ensures
                j <= st@.len(),
                forall|k: int| 0 <= k < j ==> f@[start + k] == st@[k],
                j < st@.len() ==> f@[start + j] != st@[j as int],
            decreases st@.len() - j,
        {
            if f[start + j] != st[j] {
                break;
            }
            j = j + 1;
        }
        if j == st.len() {
            assert(f@.skip(start as int) =~= st@);
            end = start;
        } else {
            assert(f@.skip(start as int)[j as int] != st@[j as int]);
        }
    }
    let ghost base = f@.take(end as int);
    assert(base == if service_type().len() <= f@.len() && f@.skip(f@.len() - service_type().len()) == service_type() {
        f@.take(f@.len() - service_type().len())
    } else {
        f@
    }) by {
        if end == f@.len() {
            assert(f@.take(end as int) =~= f@);
        }
    }
    assert(base.take(end as int) =~= base);
    while end > 0 && f[end - 1] == '.'
        invariant
            end <= base.len(),
            base.len() <= f@.len(),
            base == f@.take(base.len() as int),
            strip_trailing_dots(base) == strip_trailing_dots(base.take(end as int)),
        decreases end,
    {
        assert(base.take(end as int).drop_last() =~= base.take(end - 1));
        end = end - 1;
    }
    let out = crate::text::slice_chars(f.as_slice(), 0, end);
    assert(out@ =~= base.take(end as int));
    string_from_chars(out.as_slice())
}

/// The pieces of `s` between the separators `sep`: one more than there are
/// separators, empty ones included.
pub open spec fn split_pieces(s: Seq<char>, sep: char) -> Seq<Seq<char>>
    decreases s.len(),
{
    let n = index_of(s, sep);
    if n >= s.len() {
        seq![s]
    } else {
        seq![s.take(n as int)] + split_pieces(s.skip(n + 1int), sep)
    }
}

/// The value of the first `name=` pair among `pairs`.
pub open spec fn first_name_value(pairs: Seq<Seq<char>>) -> Option<Seq<char>>
    decreases pairs.len(),
{
    if pairs.len() == 0 {
        None
    } else if has_prefix(pairs[0], "name="@) {
        Some(pairs[0].skip(5))
    } else {
        first_name_value(pairs.drop_first())
    }
}

/// The value of the first `name=` pair of a query string split at `&`.
pub fn parse_name_from_query(query: &str) -> (name: Option<String>)
    ensures
        match (name, first_name_value(split_pieces(query@, '&'))) {
            (Some(n), Some(v)) => n@ == v,
            (None, None) => true,
            _ => false,
        },
{
    proof {
        reveal_strlit("name=");
    }
    let q = chars_of(query);
    let mut start: usize = 0;
    assert(q@.skip(0) =~= q@);
    loop
        invariant
            q@ == query@,
            start <= q@.len(),
            first_name_value(split_pieces(query@, '&')) == first_name_value(split_pieces(q@.skip(start as int), '&')),
        decreases q@.len() - start,
    {
        proof {
            reveal_strlit("name=");
        }
        let ghost rest = q@.skip(start as int);
        let sub = crate::text::slice_chars(q.as_slice(), start, q.len());
        assert(sub@ =~= rest);
        let n = crate::adb::find_char(sub.as_slice(), '&');
        proof {
            crate::adb::lemma_index_of(sub@, '&');
        }
        let piece = crate::text::slice_chars(sub.as_slice(), 0, n);
        assert(piece@ =~= rest.take(n as int));
        let ghost pieces = split_pieces(rest, '&');
        proof {
            if n < rest.len() {
                assert(pieces =~= seq![rest.take(n as int)] + split_pieces(rest.skip(n + 1), '&'));
                assert(pieces.drop_first() =~= split_pieces(rest.skip(n + 1), '&'));
            } else {
                assert(pieces =~= seq![rest]);
                assert(rest.take(n as int) =~= rest);
                assert(pieces.drop_first() =~= Seq::<Seq<char>>::empty());
            }
            assert(pieces[0] == piece@);
        }
        if starts_with(piece.as_slice(), "name=") {
            let value = crate::text::slice_chars(piece.as_slice(), 5, piece.len());
            assert(value@ =~= piece@.skip(5));
            assert(first_name_value(pieces) == Some(piece@.skip(5)));
            return Some(string_from_chars(value.as_slice()));
        }
        if n >= sub.len() {
            assert(first_name_value(pieces) == first_name_value(pieces.drop_first()));
            assert(first_name_value(pieces) is None);
            return None;
        }
        assert(rest.skip(n + 1) =~= q@.skip(start + n + 1));
        start = start + n + 1;
    }
}

/// A desktop found on the network: its instance name, one of its addresses,
/// its port and its version.
#[derive(Debug, Clone, PartialEq, Eq, Hash)]
pub struct DiscoveredService {
    pub name: String,
    pub ip: IpAddress,
    pub port: u16,
    pub version: String,
}

/// What a QR code tells a phone: the desktop's name, address and port.
#[derive(Debug, Clone, PartialEq, Eq)]
pub struct QrCodeConnectionInfo {
    pub name: String,
    pub ip: IpAddress,
    pub port: u16,
}

/// Why discovery failed.
#[derive(Debug)]
pub enum DiscoveryError {
    Mdns(String),
    BrowseChannelClosed,
    InvalidQrCodeUri(String),
}

/// The message that describes a discovery error.
pub open spec fn discovery_error_text(e: DiscoveryError) -> Seq<char> {
    match e {
        DiscoveryError::Mdns(m) => "mDNS error: "@ + m@,
        DiscoveryError::BrowseChannelClosed => "mDNS browse channel closed"@,
        DiscoveryError::InvalidQrCodeUri(m) => "invalid QR code URI: "@ + m@,
    }
}

impl DiscoveryError {
    /// The message that describes the error.
    pub fn message(&self) -> (m: String)
        ensures
            m@ == discovery_error_text(*self),
    {
        let mut out: Vec<char> = Vec::new();
        match self {
            DiscoveryError::Mdns(m) => {
                push_str(&mut out, "mDNS error: ");
                push_str(&mut out, m.as_str());
            },
            DiscoveryError::BrowseChannelClosed => push_str(&mut out, "mDNS browse channel closed"),
            DiscoveryError::InvalidQrCodeUri(m) => {
                push_str(&mut out, "invalid QR code URI: ");
                push_str(&mut out, m.as_str());
            },
        }
        let r = string_from_chars(out.as_slice());
        assert(r@ =~= discovery_error_text(*self));
        r
    }
}

/// The host part of a QR code URI: an IPv6 address in brackets.
pub open spec fn uri_host(ip: IpAddress) -> Seq<char> {
    match ip {
        IpAddress::V4(_) => ip_text(ip),
        IpAddress::V6(_) => "["@ + ip_text(ip) + "]"@,
    }
}

/// The QR code URI of a desktop: `phonecam://HOST:PORT?name=NAME`.
pub open spec fn qr_code_uri(ip: IpAddress, port: u16, device_name: Seq<char>) -> Seq<char> {
    "phonecam://"@ + uri_host(ip) + ":"@ + decimal(port as nat) + "?name="@ + device_name
}

/// The QR code URI of a desktop: `phonecam://HOST:PORT?name=NAME`.
pub fn format_qr_code_uri(ip: IpAddress, port: u16, device_name: &str) -> (uri: String)
    ensures
        uri@ == qr_code_uri(ip, port, device_name@),
{
    let mut out: Vec<char> = Vec::new();
    push_str(&mut out, "phonecam://");
    match ip {
        IpAddress::V4(_) => push_ip(&mut out, ip),
        IpAddress::V6(_) => {
            push_str(&mut out, "[");
            push_ip(&mut out, ip);
            push_str(&mut out, "]");
        },
    }
    push_str(&mut out, ":");
    push_decimal(&mut out, port as u64);
    push_str(&mut out, "?name=");
    push_str(&mut out, device_name);
    let uri = string_from_chars(out.as_slice());
    assert(uri@ =~= qr_code_uri(ip, port, device_name@));
    uri
}

/// The messages of the ways a QR code URI can be refused.
pub open spec fn missing_scheme() -> Seq<char> {
    "missing phonecam:// scheme"@
}

pub open spec fn missing_query() -> Seq<char> {
    "missing ?name=DEVICE_NAME query parameter"@
}

pub open spec fn bad_authority() -> Seq<char> {
    "expected host:port authority"@
}

pub open spec fn missing_name() -> Seq<char> {
    "missing required name query parameter"@
}

/// What reading a QR code URI gives: after the `phonecam://` scheme, the
/// text up to the first `?` must be a socket address, and the query after it
/// must hold a `name=` pair. Gives the name, whether the address is IPv6,
/// its octets or groups, and the port; or the message of the first failure.
pub open spec fn qr_code_info(uri: Seq<char>) -> Result<(Seq<char>, bool, Seq<u16>, u16), Seq<char>> {
    let scheme = "phonecam://"@;
    if !has_prefix(uri, scheme) {
        Err(missing_scheme())
    } else {
        let payload = uri.skip(scheme.len() as int);
        let q = index_of(payload, '?');
        if q >= payload.len() {
            Err(missing_query())
        } else {
            match socket_addr(payload.take(q as int)) {
                None => Err(bad_authority()),
                Some((v6, g, port)) => match first_name_value(split_pieces(payload.skip(q + 1int), '&')) {
                    None => Err(missing_name()),
                    Some(name) => Ok((name, v6, g, port)),
                },
            }
        }
    }
}

/// Reads a QR code URI of the form `phonecam://HOST:PORT?name=NAME`.
pub fn parse_qr_code_uri(uri: &str) -> (r: Result<QrCodeConnectionInfo, DiscoveryError>)
    ensures
        match (r, qr_code_info(uri@)) {
            (Ok(info), Ok((name, v6, g, port))) => info.name@ == name && ip_view(info.ip) == (v6, g) && info.port
                == port,
            (Err(DiscoveryError::InvalidQrCodeUri(m)), Err(msg)) => m@ == msg,
            _ => false,
        },
{
    proof {
        reveal_strlit("phonecam://");
    }
    let u = chars_of(uri);
    if !starts_with(u.as_slice(), "phonecam://") {
        return Err(DiscoveryError::InvalidQrCodeUri(owned("missing phonecam:// scheme")));
    }
    let payload = crate::text::slice_chars(u.as_slice(), 11, u.len());
    assert(payload@ =~= u@.skip(11));
    let q = crate::adb::find_char(payload.as_slice(), '?');
    proof {
        crate::adb::lemma_index_of(payload@, '?');
    }
    if q >= payload.len() {
        return Err(DiscoveryError::InvalidQrCodeUri(owned("missing ?name=DEVICE_NAME query parameter")));
    }
    let authority = crate::text::slice_chars(payload.as_slice(), 0, q);
    assert(authority@ =~= payload@.take(q as int));
    let (ip, port) = match parse_socket_addr(authority.as_slice()) {
        Some(x) => x,
        None => return Err(DiscoveryError::InvalidQrCodeUri(owned("expected host:port authority"))),
    };
    let query_chars = crate::text::slice_chars(payload.as_slice(), q + 1, payload.len());
    assert(query_chars@ =~= payload@.skip(q + 1));
    let query = string_from_chars(query_chars.as_slice());
    let name = match parse_name_from_query(query.as_str()) {
        Some(n) => n,
        None => return Err(DiscoveryError::InvalidQrCodeUri(owned("missing required name query parameter"))),
    };
    Ok(QrCodeConnectionInfo { name, ip, port })
}

/// What services are ordered and told apart by: name, address text, port, version.
pub open spec fn service_key(s: DiscoveredService) -> (Seq<char>, Seq<char>, u16, Seq<char>) {
    (s.name@, ip_text(s.ip), s.port, s.version@)
}

/// The order of service keys: by name, then address text, port and version.
pub open spec fn key_lt(a: (Seq<char>, Seq<char>, u16, Seq<char>), b: (Seq<char>, Seq<char>, u16, Seq<char>)) -> bool {
    seq_lt(a.0, b.0) || (a.0 == b.0 && (seq_lt(a.1, b.1) || (a.1 == b.1 && (a.2 < b.2 || (a.2 == b.2 && seq_lt(
        a.3,
        b.3,
    ))))))
}

/// Law: the key order is strict and total.
pub proof fn lemma_key_lt_total(a: (Seq<char>, Seq<char>, u16, Seq<char>), b: (Seq<char>, Seq<char>, u16, Seq<char>))
    ensures
        !(key_lt(a, b) && key_lt(b, a)),
        !key_lt(a, a),
        a != b ==> key_lt(a, b) || key_lt(b, a),
{
    lemma_seq_lt_total(a.0, b.0);
    lemma_seq_lt_total(a.1, b.1);
    lemma_seq_lt_total(a.3, b.3);
}

/// Law: the key order is transitive.
pub proof fn lemma_key_lt_transitive(
    a: (Seq<char>, Seq<char>, u16, Seq<char>),
    b: (Seq<char>, Seq<char>, u16, Seq<char>),
    c: (Seq<char>, Seq<char>, u16, Seq<char>),
)
    requires
        key_lt(a, b),
        key_lt(b, c),
    ensures
        key_lt(a, c),
{
    lemma_seq_lt_total(a.0, b.0);
    lemma_seq_lt_total(b.0, c.0);
    lemma_seq_lt_total(a.1, b.1);
    lemma_seq_lt_total(b.1, c.1);
    if seq_lt(a.0, b.0) && seq_lt(b.0, c.0) {
        lemma_seq_lt_transitive(a.0, b.0, c.0);
    }
    if a.0 == b.0 && b.0 == c.0 {
        if seq_lt(a.1, b.1) && seq_lt(b.1, c.1) {
            lemma_seq_lt_transitive(a.1, b.1, c.1);
        }
        if a.1 == b.1 && b.1 == c.1 && a.2 == b.2 && b.2 == c.2 {
            lemma_seq_lt_transitive(a.3, b.3, c.3);
        }
    }
}

fn ip_chars(ip: IpAddress) -> (t: Vec<char>)
    ensures
        t@ == ip_text(ip),
{
    let mut t: Vec<char> = Vec::new();
    push_ip(&mut t, ip);
    assert(t@ =~= ip_text(ip));
    t
}

fn service_before(a: &DiscoveredService, b: &DiscoveredService) -> (r: bool)
    ensures
        r == key_lt(service_key(*a), service_key(*b)),
{
    if string_lt(&a.name, &b.name) {
        return true;
    }
    if a.name != b.name {
        return false;
    }
    let x = ip_chars(a.ip);
    let y = ip_chars(b.ip);
    if chars_lt(x.as_slice(), y.as_slice()) {
        return true;
    }
    proof {
        lemma_seq_lt_total(x@, y@);
    }
    if chars_lt(y.as_slice(), x.as_slice()) {
        return false;
    }
    if a.port < b.port {
        return true;
    }
    if a.port != b.port {
        return false;
    }
    string_lt(&a.version, &b.version)
}

/// The keys of some services.
pub open spec fn keys_of_services(s: Seq<DiscoveredService>) -> Seq<(Seq<char>, Seq<char>, u16, Seq<char>)> {
    s.map_values(|x: DiscoveredService| service_key(x))
}

/// Whether services are in strictly ascending key order.
pub open spec fn services_sorted(s: Seq<DiscoveredService>) -> bool {
    forall|i: int, j: int| 0 <= i < j < s.len() ==> key_lt(service_key(#[trigger] s[i]), service_key(#[trigger] s[j]))
}

/// The services found, each key once, in key order: by name, then address,
/// port and version.
pub fn order_services(found: Vec<DiscoveredService>) -> (out: Vec<DiscoveredService>)
    ensures
        services_sorted(out@),
        forall|i: int| 0 <= i < out@.len() ==> found@.contains(#[trigger] out@[i]),
        forall|j: int| 0 <= j < found@.len() ==> keys_of_services(out@).contains(service_key(#[trigger] found@[j])),
{
    let ghost all = found@;
    let mut rest = found;
    let mut out: Vec<DiscoveredService> = Vec::new();
    let ghost mut taken: int = 0;
    assert(all.skip(0) =~= all);
    while rest.len() > 0
        invariant
            0 <= taken <= all.len(),
            rest@ == all.skip(taken),
            services_sorted(out@),
            forall|i: int| 0 <= i < out@.len() ==> all.contains(#[trigger] out@[i]),
            forall|j: int| 0 <= j < taken ==> keys_of_services(out@).contains(service_key(#[trigger] all[j])),
        decreases rest@.len(),
    {
        let item = rest.remove(0);
        assert(all.skip(taken + 1) =~= all.skip(taken).drop_first());
        assert(item == all[taken]);
        let ghost k = service_key(item);
        let mut pos: usize = 0;
        while pos < out.len() && service_before(&out[pos], &item)
            invariant
                pos <= out@.len(),
                forall|i: int| 0 <= i < pos ==> key_lt(service_key(#[trigger] out@[i]), k),
                k == service_key(item),
            decreases out@.len() - pos,
        {
            pos = pos + 1;
        }
        let ghost before = out@;
        let duplicate = pos < out.len() && !service_before(&item, &out[pos]);
        if duplicate {
            proof {
                lemma_key_lt_total(k, service_key(before[pos as int]));
                assert(keys_of_services(before)[pos as int] == k);
                assert forall|j: int| 0 <= j < taken + 1 implies keys_of_services(out@).contains(
                    service_key(#[trigger] all[j]),
                ) by {
                    if j == taken {
                        assert(all[j] == item);
                    }
                }
            }
        } else {
            proof {
                if pos < before.len() {
                    lemma_key_lt_total(k, service_key(before[pos as int]));
                }
            }
            out.insert(pos, item);
            proof {
                let after = out@;
                assert(after =~= before.insert(pos as int, item));
                assert(services_sorted(after)) by {
                    assert forall|a: int, b: int| 0 <= a < b < after.len() implies key_lt(
                        service_key(#[trigger] after[a]),
                        service_key(#[trigger] after[b]),
                    ) by {
                        if b < pos {
                            assert(after[a] == before[a] && after[b] == before[b]);
                        } else if b == pos {
                            assert(after[a] == before[a]);
                        } else if a == pos {
                            assert(after[b] == before[b - 1]);
                            if b - 1 > pos {
                                lemma_key_lt_transitive(k, service_key(before[pos as int]), service_key(before[b - 1]));
                            }
                        } else if a < pos {
                            assert(after[a] == before[a] && after[b] == before[b - 1]);
                        } else {
                            assert(after[a] == before[a - 1] && after[b] == before[b - 1]);
                        }
                    }
                }
                assert forall|i: int| 0 <= i < after.len() implies all.contains(#[trigger] after[i]) by {
                    if i < pos {
                        assert(after[i] == before[i]);
                    } else if i == pos {
                        assert(after[i] == all[taken]);
                    } else {
                        assert(after[i] == before[i - 1]);
                    }
                }
                assert forall|j: int| 0 <= j < taken + 1 implies keys_of_services(after).contains(
                    service_key(#[trigger] all[j]),
                ) by {
                    if j == taken {
                        assert(keys_of_services(after)[pos as int] == k);
                    } else {
                        let i = choose|i: int| 0 <= i < keys_of_services(before).len() && keys_of_services(before)[i]
                            == service_key(all[j]);
                        if i < pos {
                            assert(keys_of_services(after)[i] == service_key(all[j]));
                        } else {
                            assert(keys_of_services(after)[i + 1] == service_key(all[j]));
                        }
                    }
                }
            }
        }
        proof {
            taken = taken + 1;
        }
    }
    assert(all.skip(taken).len() == 0);
    out
}

proof fn lemma_index_of_append(a: Seq<char>, b: Seq<char>, c: char)
    requires
        !a.contains(c),
    ensures
        index_of(a + b, c) == a.len() + index_of(b, c),
    decreases a.len(),
{
    if a.len() > 0 {
        assert((a + b)[0] == a[0]);
        assert((a + b).drop_first() =~= a.drop_first() + b);
        assert(!a.drop_first().contains(c)) by {
            if a.drop_first().contains(c) {
                let i = choose|i: int| 0 <= i < a.drop_first().len() && a.drop_first()[i] == c;
                assert(a[i + 1] == c);
            }
        }
        lemma_index_of_append(a.drop_first(), b, c);
    } else {
        assert(a + b =~= b);
    }
}

proof fn lemma_index_of_absent(s: Seq<char>, c: char)
    requires
        !s.contains(c),
    ensures
        index_of(s, c) == s.len(),
{
    lemma_index_of_append(s, Seq::<char>::empty(), c);
    assert(s + Seq::<char>::empty() =~= s);
}

proof fn lemma_digits_lack(n: nat, c: char)
    requires
        !('0' <= c <= '9'),
    ensures
        !decimal(n).contains(c),
{
    lemma_decimal_shape(n);
    if decimal(n).contains(c) {
        let i = choose|i: int| 0 <= i < decimal(n).len() && decimal(n)[i] == c;
        assert('0' <= decimal(n)[i] <= '9');
    }
}

proof fn lemma_address_text_lacks(o: [u8; 4], port: u16, c: char)
    requires
        !('0' <= c <= '9'),
        c != '.',
        c != ':',
    ensures
        !(ipv4_text(o@) + ":"@ + decimal(port as nat)).contains(c),
{
    reveal_strlit(":");
    reveal_strlit(".");
    let d0 = decimal(o@[0] as nat);
    let d1 = decimal(o@[1] as nat);
    let d2 = decimal(o@[2] as nat);
    let d3 = decimal(o@[3] as nat);
    let dp = decimal(port as nat);
    lemma_digits_lack(o@[0] as nat, c);
    lemma_digits_lack(o@[1] as nat, c);
    lemma_digits_lack(o@[2] as nat, c);
    lemma_digits_lack(o@[3] as nat, c);
    lemma_digits_lack(port as nat, c);
    let x = ipv4_text(o@) + ":"@ + dp;
    let parts = d0 + seq!['.'] + d1 + seq!['.'] + d2 + seq!['.'] + d3 + seq![':'] + dp;
    assert(x =~= parts);
    assert(!parts.contains(c)) by {
        if parts.contains(c) {
            let i = choose|i: int| 0 <= i < parts.len() && parts[i] == c;
            let a = d0.len() as int;
            let b = a + 1 + d1.len();
            let e = b + 1 + d2.len();
            let f = e + 1 + d3.len();
            if i < a {
                assert(d0[i] == c);
            } else if a < i < b {
                assert(d1[i - a - 1] == c);
            } else if b < i < e {
                assert(d2[i - b - 1] == c);
            } else if e < i < f {
                assert(d3[i - e - 1] == c);
            } else if i > f {
                assert(dp[i - f - 1] == c);
            }
        }
    }
}

proof fn lemma_query_name(name: Seq<char>)
    requires
        !name.contains('&'),
    ensures
        first_name_value(split_pieces("name="@ + name, '&')) == Some(name),
{
    reveal_strlit("name=");
    let query = "name="@ + name;
    assert(!query.contains('&')) by {
        if query.contains('&') {
            let i = choose|i: int| 0 <= i < query.len() && query[i] == '&';
            if i >= 5 {
                assert(name[i - 5] == '&');
            }
        }
    }
    lemma_index_of_absent(query, '&');
    assert(split_pieces(query, '&') =~= seq![query]);
    assert(query.take(5) =~= "name="@);
    assert(query.skip(5) =~= name);
}

proof fn lemma_qr_uri_v4(o: [u8; 4], port: u16, name: Seq<char>)
    requires
        !name.contains('&'),
    ensures
        qr_code_info(qr_code_uri(IpAddress::V4(o), port, name)) == Ok::<(Seq<char>, bool, Seq<u16>, u16), Seq<char>>(
            (name, false, o@.map_values(|x: u8| x as u16), port),
        ),
{
    reveal_strlit("phonecam://");
    reveal_strlit("?name=");
    let scheme = "phonecam://"@;
    let x = ipv4_text(o@) + ":"@ + decimal(port as nat);
    let q = "?name="@ + name;
    let uri = qr_code_uri(IpAddress::V4(o), port, name);
    assert(uri =~= scheme + (x + q));
    assert(uri.take(scheme.len() as int) =~= scheme);
    let payload = uri.skip(scheme.len() as int);
    assert(payload =~= x + q);
    lemma_address_text_lacks(o, port, '?');
    lemma_index_of_append(x, q, '?');
    assert(q[0] == '?');
    assert(index_of(q, '?') == 0);
    let qi = index_of(payload, '?');
    assert(qi == x.len());
    assert(payload.take(qi as int) =~= x);
    lemma_ipv4_socket_addr_roundtrip(o, port);
    reveal_strlit("name=");
    assert(q.skip(1) =~= "name="@ + name);
    assert(payload.skip(qi + 1int) =~= q.skip(1));
    lemma_query_name(name);
}

proof fn lemma_qr_uri_v6(g: [u16; 8], port: u16, name: Seq<char>)
    requires
        !name.contains('&'),
    ensures
        qr_code_info(qr_code_uri(IpAddress::V6(g), port, name)) == Ok::<(Seq<char>, bool, Seq<u16>, u16), Seq<char>>(
            (name, true, g@, port),
        ),
{
    reveal_strlit("phonecam://");
    reveal_strlit("?name=");
    reveal_strlit("[");
    reveal_strlit("]");
    reveal_strlit(":");
    let scheme = "phonecam://"@;
    let t = ipv6_text(g@);
    let dp = decimal(port as nat);
    let x = "["@ + t + "]"@ + ":"@ + dp;
    let q = "?name="@ + name;
    let uri = qr_code_uri(IpAddress::V6(g), port, name);
    assert(uri =~= scheme + (x + q));
    assert(uri.take(scheme.len() as int) =~= scheme);
    let payload = uri.skip(scheme.len() as int);
    assert(payload =~= x + q);
    lemma_ipv6_text_chars(g@);
    lemma_digits_lack(port as nat, '?');
    assert(!x.contains('?')) by {
        if x.contains('?') {
            let i = choose|i: int| 0 <= i < x.len() && x[i] == '?';
            if 1 <= i < 1 + t.len() {
                assert(x[i] == t[i - 1]);
            } else if i >= 1 + t.len() + 2 {
                assert(x[i] == dp[i - 1 - t.len() - 2]);
            }
        }
    }
    lemma_index_of_append(x, q, '?');
    assert(q[0] == '?');
    assert(index_of(q, '?') == 0);
    let qi = index_of(payload, '?');
    assert(qi == x.len());
    assert(payload.take(qi as int) =~= x);
    lemma_ipv6_socket_addr_roundtrip(g, port);
    reveal_strlit("name=");
    assert(q.skip(1) =~= "name="@ + name);
    assert(payload.skip(qi + 1int) =~= q.skip(1));
    lemma_query_name(name);
}

/// Law: the QR code of a desktop reads back as that desktop's name, address
/// and port, for IPv4 and IPv6 addresses alike, when the name holds no `&`.
pub proof fn lemma_qr_code_uri_roundtrip(ip: IpAddress, port: u16, name: Seq<char>)
    requires
        !name.contains('&'),
    ensures
        qr_code_info(qr_code_uri(ip, port, name)) == Ok::<(Seq<char>, bool, Seq<u16>, u16), Seq<char>>(
            (name, ip_view(ip).0, ip_view(ip).1, port),
        ),
{
    match ip {
        IpAddress::V4(o) => lemma_qr_uri_v4(o, port, name),
        IpAddress::V6(g) => lemma_qr_uri_v6(g, port, name),
    }
}

} // verus!
