//! Android Debug Bridge output parsing and device selection, for the USB link.
use vstd::prelude::*;
use crate::keyed::{get_sorted, insert_sorted, lookup, sorted_keys};
use crate::text::{
    ascii_lower, chars_of, equals, has_prefix, owned, split_whitespace, starts_with, string_from_chars,
    to_ascii_lowercase, trim, trim_end, trim_start, trimmed, words,
};

verus! {

broadcast use vstd::string::group_string_axioms;

/// The state column of `adb devices`.
#[derive(Debug, Clone, PartialEq, Eq)]
pub enum AdbDeviceState {
    Device,
    Unauthorized,
    Offline,
    Recovery,
    Bootloader,
    Sideload,
    Unknown(String),
}

/// `t` with its ASCII letters lower-cased.
pub open spec fn lower(t: Seq<char>) -> Seq<char> {
    t.map_values(|c: char| ascii_lower(c))
}

/// Whether `s` is the state a token names: the known names compared after
/// trimming and lower-casing ASCII letters; any other token is kept, trimmed.
pub open spec fn is_state_of(s: AdbDeviceState, token: Seq<char>) -> bool {
    let t = trim(token);
    let n = lower(t);
    if n == "device"@ {
        s is Device
    } else if n == "unauthorized"@ {
        s is Unauthorized
    } else if n == "offline"@ {
        s is Offline
    } else if n == "recovery"@ {
        s is Recovery
    } else if n == "bootloader"@ {
        s is Bootloader
    } else if n == "sideload"@ {
        s is Sideload
    } else {
        s matches AdbDeviceState::Unknown(u) && u@ == t
    }
}

fn lowercase(t: &Vec<char>) -> (n: Vec<char>)
    ensures
        n@ == lower(t@),
{
    let mut n: Vec<char> = Vec::new();
    let mut i: usize = 0;
    while i < t.len()
        invariant
            i <= t@.len(),
            n@ == lower(t@.take(i as int)),
        decreases t@.len() - i,
    {
        n.push(to_ascii_lowercase(t[i]));
        assert(lower(t@.take(i + 1)) =~= lower(t@.take(i as int)).push(ascii_lower(t@[i as int])));
        i = i + 1;
    }
    assert(t@.take(t@.len() as int) =~= t@);
    n
}

fn state_from_chars(token: &[char]) -> (s: AdbDeviceState)
    ensures
        is_state_of(s, token@),
{
    let t = trimmed(token);
    let n = lowercase(&t);
    if equals(n.as_slice(), "device") {
        AdbDeviceState::Device
    } else if equals(n.as_slice(), "unauthorized") {
        AdbDeviceState::Unauthorized
    } else if equals(n.as_slice(), "offline") {
        AdbDeviceState::Offline
    } else if equals(n.as_slice(), "recovery") {
        AdbDeviceState::Recovery
    } else if equals(n.as_slice(), "bootloader") {
        AdbDeviceState::Bootloader
    } else if equals(n.as_slice(), "sideload") {
        AdbDeviceState::Sideload
    } else {
        AdbDeviceState::Unknown(string_from_chars(t.as_slice()))
    }
}

/// The text of a state, as `adb` prints it.
pub open spec fn state_text(s: AdbDeviceState) -> Seq<char> {
    match s {
        AdbDeviceState::Device => "device"@,
        AdbDeviceState::Unauthorized => "unauthorized"@,
        AdbDeviceState::Offline => "offline"@,
        AdbDeviceState::Recovery => "recovery"@,
        AdbDeviceState::Bootloader => "bootloader"@,
        AdbDeviceState::Sideload => "sideload"@,
        AdbDeviceState::Unknown(v) => v@,
    }
}

impl AdbDeviceState {
    /// Reads a state token of `adb devices`.
    pub fn from_token(token: &str) -> (s: Self)
        ensures
            is_state_of(s, token@),
    {
        let chars = chars_of(token);
        state_from_chars(chars.as_slice())
    }

    /// Whether a device in this state accepts commands.
    pub fn is_ready(&self) -> (b: bool)
        ensures
            b == (*self is Device),
    {
        matches!(self, AdbDeviceState::Device)
    }

    /// The state as `adb` prints it.
    pub fn to_text(&self) -> (t: String)
        ensures
            t@ == state_text(*self),
    {
        match self {
            AdbDeviceState::Device => owned("device"),
            AdbDeviceState::Unauthorized => owned("unauthorized"),
            AdbDeviceState::Offline => owned("offline"),
            AdbDeviceState::Recovery => owned("recovery"),
            AdbDeviceState::Bootloader => owned("bootloader"),
            AdbDeviceState::Sideload => owned("sideload"),
            AdbDeviceState::Unknown(value) => value.clone(),
        }
    }
}

/// One device line of `adb devices -l`. The properties are `key:value`
/// pairs, kept sorted by key with the last value given for each key.
#[derive(Debug, Clone, PartialEq, Eq)]
pub struct AdbDevice {
    pub serial: String,
    pub state: AdbDeviceState,
    pub product: Option<String>,
    pub model: Option<String>,
    pub device: Option<String>,
    pub transport_id: Option<u32>,
    pub properties: Vec<(String, String)>,
}

impl AdbDevice {
    /// Whether the device accepts commands.
    pub fn is_ready(&self) -> (b: bool)
        ensures
            b == (self.state is Device),
    {
        self.state.is_ready()
    }
}

/// The position of the first `c` in `s`, or the length of `s`.
pub open spec fn index_of(s: Seq<char>, c: char) -> nat
    decreases s.len(),
{
    if s.len() == 0 || s[0] == c {
        0
    } else {
        1 + index_of(s.drop_first(), c)
    }
}

pub proof fn lemma_index_of(s: Seq<char>, c: char)
    ensures
        index_of(s, c) <= s.len(),
        index_of(s, c) < s.len() ==> s[index_of(s, c) as int] == c,
        forall|j: int| 0 <= j < index_of(s, c) ==> s[j] != c,
    decreases s.len(),
{
    if s.len() > 0 && s[0] != c {
        lemma_index_of(s.drop_first(), c);
        assert forall|j: int| 0 <= j < index_of(s, c) implies s[j] != c by {
            if j > 0 {
                assert(s[j] == s.drop_first()[j - 1]);
            }
        }
    }
}

pub fn find_char(s: &[char], c: char) -> (i: usize)
    ensures
        i == index_of(s@, c),
{
    let mut i: usize = 0;
    assert(s@.skip(0) =~= s@);
    while i < s.len() && s[i] != c
        invariant
            i <= s@.len(),
            index_of(s@, c) == i + index_of(s@.skip(i as int), c),
        decreases s@.len() - i,
    {
        assert(s@.skip(i as int).drop_first() =~= s@.skip(i + 1));
        i = i + 1;
    }
    proof {
        if i == s.len() {
            assert(s@.skip(i as int).len() == 0);
        } else {
            assert(s@.skip(i as int)[0] == c);
        }
    }
    i
}

/// The `key:value` pair a word gives, split at its first colon, when neither
/// side is empty.
pub open spec fn property_of(word: Seq<char>) -> Option<(Seq<char>, Seq<char>)> {
    let i = index_of(word, ':');
    if i >= word.len() {
        None
    } else {
        let key = trim(word.take(i as int));
        let value = trim(word.skip(i + 1int));
        if key.len() > 0 && value.len() > 0 {
            Some((key, value))
        } else {
            None
        }
    }
}

/// The value the last of `words` to name `k` gives it.
pub open spec fn property_value(words: Seq<Seq<char>>, k: Seq<char>) -> Option<Seq<char>>
    decreases words.len(),
{
    if words.len() == 0 {
        None
    } else {
        match property_of(words.last()) {
            Some((key, value)) if key == k => Some(value),
            _ => property_value(words.drop_last(), k),
        }
    }
}

/// The text stored under `k`, if any.
pub open spec fn lookup_text(s: Seq<(String, String)>, k: Seq<char>) -> Option<Seq<char>> {
    match lookup(s, k) {
        Some(v) => Some(v@),
        None => None,
    }
}

/// Whether `c` is a decimal digit.
pub open spec fn is_digit(c: char) -> bool {
    '0' <= c && c <= '9'
}

/// The value of a string of decimal digits.
pub open spec fn digits_value(d: Seq<char>) -> nat
    decreases d.len(),
{
    if d.len() == 0 {
        0
    } else {
        digits_value(d.drop_last()) * 10 + ((d.last() as u32) - ('0' as u32)) as nat
    }
}

/// The digits of a number: the text after an optional leading `+`.
pub open spec fn unsigned_digits(s: Seq<char>) -> Seq<char> {
    if s.len() > 0 && s[0] == '+' {
        s.drop_first()
    } else {
        s
    }
}

/// Whether every character of `d` is a decimal digit.
pub open spec fn all_digits(d: Seq<char>) -> bool {
    forall|i: int| 0 <= i < d.len() ==> is_digit(#[trigger] d[i])
}

/// What `str::parse::<u32>` yields: an optional `+`, then one or more
/// decimal digits whose value fits in a `u32`.
pub open spec fn parse_u32(s: Seq<char>) -> Option<u32> {
    let d = unsigned_digits(s);
    if d.len() > 0 && all_digits(d) && digits_value(d) <= u32::MAX {
        Some(digits_value(d) as u32)
    } else {
        None
    }
}

proof fn lemma_digits_value_grows(d: Seq<char>, k: int)
    requires
        0 <= k <= d.len(),
        forall|i: int| 0 <= i < d.len() ==> is_digit(#[trigger] d[i]),
    ensures
        digits_value(d.take(k)) <= digits_value(d),
    decreases d.len() - k,
{
    if k < d.len() {
        lemma_digits_value_grows(d, k + 1);
        assert(d.take(k + 1).drop_last() =~= d.take(k));
    } else {
        assert(d.take(k) =~= d);
    }
}

fn parse_u32_chars(s: &[char]) -> (r: Option<u32>)
    ensures
        r == parse_u32(s@),
{
    let start: usize = if s.len() > 0 && s[0] == '+' { 1 } else { 0 };
    let ghost d = if s@.len() > 0 && s@[0] == '+' {
        s@.drop_first()
    } else {
        s@
    };
    assert(d =~= s@.skip(start as int));
    if start >= s.len() {
        return None;
    }
    let mut value: u64 = 0;
    let mut i: usize = start;
    while i < s.len()
        invariant
            start <= i <= s@.len(),
            d == s@.skip(start as int),
            d == unsigned_digits(s@),
            value == digits_value(d.take(i - start)),
            value <= u32::MAX,
            forall|j: int| 0 <= j < i - start ==> is_digit(#[trigger] d[j]),
        decreases s@.len() - i,
    {
        let c = s[i];
        assert(d[i - start] == c);
        if !('0' <= c && c <= '9') {
            assert(!is_digit(d[i - start]));
            assert(!all_digits(d));
            assert(parse_u32(s@) is None);
            return None;
        }
        assert(d.take(i - start + 1).drop_last() =~= d.take(i - start));
        assert(d.take(i - start + 1).last() == c);
        value = value * 10 + ((c as u32) - ('0' as u32)) as u64;
        assert(value == digits_value(d.take(i - start + 1)));
        if value > 0xffff_ffff {
            proof {
                if all_digits(d) {
                    lemma_digits_value_grows(d, i - start + 1);
                }
                assert(parse_u32(s@) is None);
            }
            return None;
        }
        i = i + 1;
    }
    assert(d.take(i - start) =~= d);
    Some(value as u32)
}

/// Whether a line is skipped: blank, the list header, or a daemon notice.
pub open spec fn is_banner(t: Seq<char>) -> bool {
    t.len() == 0 || has_prefix(t, "List of devices attached"@) || has_prefix(t, "*"@)
}

/// `s` with each two-character escape `\t` read as a tab.
pub open spec fn tab_escapes(s: Seq<char>) -> Seq<char>
    decreases s.len(),
{
    if s.len() == 0 {
        seq![]
    } else if s.len() >= 2 && s[0] == '\\' && s[1] == 't' {
        seq!['\t'] + tab_escapes(s.skip(2))
    } else {
        seq![s[0]] + tab_escapes(s.drop_first())
    }
}

fn expand_tab_escapes(s: &[char]) -> (out: Vec<char>)
    ensures
        out@ == tab_escapes(s@),
{
    let mut out: Vec<char> = Vec::new();
    let mut i: usize = 0;
    assert(s@.skip(0) =~= s@);
    while i < s.len()
        invariant
            i <= s@.len(),
            out@ + tab_escapes(s@.skip(i as int)) == tab_escapes(s@),
        decreases s@.len() - i,
    {
        let ghost rest = s@.skip(i as int);
        if i + 1 < s.len() && s[i] == '\\' && s[i + 1] == 't' {
            assert(rest[0] == s@[i as int] && rest[1] == s@[i + 1]);
            assert(rest.skip(2) =~= s@.skip(i + 2));
            out.push('\t');
            assert(out@ + tab_escapes(s@.skip(i + 2)) =~= tab_escapes(s@));
            i = i + 2;
        } else {
            assert(rest[0] == s@[i as int]);
            assert(rest.drop_first() =~= s@.skip(i + 1));
            out.push(s[i]);
            assert(out@ + tab_escapes(s@.skip(i + 1)) =~= tab_escapes(s@));
            i = i + 1;
        }
    }
    assert(s@.skip(i as int) =~= Seq::<char>::empty());
    assert(out@ + Seq::<char>::empty() =~= out@);
    out
}

/// The words of a device line, when it is one: not a banner, with at least
/// a serial and a state. A `\t` escape in the line separates words as a tab does.
pub open spec fn device_line_words(line: Seq<char>) -> Option<Seq<Seq<char>>> {
    let t = trim(tab_escapes(line));
    if is_banner(t) || words(t).len() < 2 {
        None
    } else {
        Some(words(t))
    }
}

/// Whether `d` is what the device line with words `w` describes.
pub open spec fn describes(d: AdbDevice, w: Seq<Seq<char>>) -> bool {
    let props = w.skip(2);
    &&& d.serial@ == w[0]
    &&& is_state_of(d.state, w[1])
    &&& sorted_keys(d.properties@)
    &&& forall|k: Seq<char>| #[trigger] lookup_text(d.properties@, k) == property_value(props, k)
    &&& opt_text(d.product) == property_value(props, "product"@)
    &&& opt_text(d.model) == property_value(props, "model"@)
    &&& opt_text(d.device) == property_value(props, "device"@)
    &&& d.transport_id == match property_value(props, "transport_id"@) {
        Some(v) => parse_u32(v),
        None => None,
    }
}

/// The text of an optional string.
pub open spec fn opt_text(s: Option<String>) -> Option<Seq<char>> {
    match s {
        Some(v) => Some(v@),
        None => None,
    }
}

fn lookup_property(props: &Vec<(String, String)>, key: &str) -> (v: Option<String>)
    requires
        sorted_keys(props@),
    ensures
        opt_text(v) == lookup_text(props@, key@),
{
    let k = owned(key);
    match get_sorted(props, &k) {
        Some(v) => Some(v.clone()),
        None => None,
    }
}

/// Reads one line of `adb devices -l`; banners, blank lines and lines
/// without a serial and a state give nothing.
pub fn parse_device_line(line: &[char]) -> (res: Option<AdbDevice>)
    ensures
        match device_line_words(line@) {
            None => res is None,
            Some(w) => res matches Some(d) && describes(d, w),
        },
{
    proof {
        reveal_strlit("List of devices attached");
        reveal_strlit("*");
    }
    let expanded = expand_tab_escapes(line);
    let t = trimmed(expanded.as_slice());
    if t.len() == 0 || starts_with(t.as_slice(), "List of devices attached") || starts_with(
        t.as_slice(),
        "*",
    ) {
        return None;
    }
    let parts = split_whitespace(t.as_slice());
    if parts.len() < 2 {
        return None;
    }
    let ghost w = words(t@);
    let ghost props = w.skip(2);
    let serial = string_from_chars(parts[0].as_slice());
    let state = state_from_chars(parts[1].as_slice());
    let mut properties: Vec<(String, String)> = Vec::new();
    let mut i: usize = 2;
    while i < parts.len()
        invariant
            2 <= i <= parts@.len(),
            parts@.len() == w.len(),
            forall|j: int| 0 <= j < parts@.len() ==> (#[trigger] parts@[j])@ == w[j],
            props == w.skip(2),
            sorted_keys(properties@),
            forall|k: Seq<char>| #[trigger] lookup_text(properties@, k) == property_value(props.take(i - 2), k),
        decreases parts@.len() - i,
    {
        let part = &parts[i];
        assert(part@ == w[i as int]);
        assert(props.take(i - 1).drop_last() =~= props.take(i - 2));
        assert(props.take(i - 1).last() == w[i as int]);
        let colon = find_char(part.as_slice(), ':');
        if colon < part.len() {
            let key = trimmed(crate::text::slice_chars(part.as_slice(), 0, colon).as_slice());
            let value = trimmed(crate::text::slice_chars(part.as_slice(), colon + 1, part.len()).as_slice());
            proof {
                assert(part@.subrange(0, colon as int) =~= part@.take(colon as int));
                assert(part@.subrange(colon + 1, part@.len() as int) =~= part@.skip(colon + 1));
            }
            if key.len() > 0 && value.len() > 0 {
                let ghost before = properties@;
                insert_sorted(&mut properties, string_from_chars(key.as_slice()), string_from_chars(value.as_slice()));
                proof {
                    assert forall|k: Seq<char>| #[trigger] lookup_text(properties@, k) == property_value(props.take(i - 1), k) by {
                        assert(lookup_text(before, k) == property_value(props.take(i - 2), k));
                    }
                }
            } else {
                assert forall|k: Seq<char>| #[trigger] lookup_text(properties@, k) == property_value(props.take(i - 1), k) by {
                    assert(lookup_text(properties@, k) == property_value(props.take(i - 2), k));
                }
            }
        } else {
            assert forall|k: Seq<char>| #[trigger] lookup_text(properties@, k) == property_value(props.take(i - 1), k) by {
                assert(lookup_text(properties@, k) == property_value(props.take(i - 2), k));
            }
        }
        i = i + 1;
    }
    assert(props.take(parts@.len() - 2) =~= props);
    let transport_id = match lookup_property(&properties, "transport_id") {
        Some(v) => {
            let vc = chars_of(v.as_str());
            parse_u32_chars(vc.as_slice())
        },
        None => None,
    };
    let product = lookup_property(&properties, "product");
    let model = lookup_property(&properties, "model");
    let device = lookup_property(&properties, "device");
    Some(AdbDevice { serial, state, product, model, device, transport_id, properties })
}

/// The lines of `s`: the pieces between newlines, without an empty piece
/// after a final newline. (A carriage return before a newline stays in its
/// piece; device lines are trimmed, so it makes no difference.)
pub open spec fn line_pieces(s: Seq<char>) -> Seq<Seq<char>>
    decreases s.len(),
{
    if s.len() == 0 {
        seq![]
    } else {
        let n = index_of(s, '\n');
        if n >= s.len() {
            seq![s]
        } else {
            seq![s.take(n as int)] + line_pieces(s.skip(n + 1int))
        }
    }
}

/// The device lines among `lines`, in order.
pub open spec fn device_lines(lines: Seq<Seq<char>>) -> Seq<Seq<char>> {
    lines.filter(|l: Seq<char>| device_line_words(l) is Some)
}

/// The first `c` in `a + b`: the first in `a`, or else the first in `b`
/// after all of `a`.
proof fn lemma_index_of_concat(a: Seq<char>, b: Seq<char>, c: char)
    ensures
        index_of(a + b, c) == if index_of(a, c) < a.len() {
            index_of(a, c)
        } else {
            a.len() + index_of(b, c)
        },
    decreases a.len(),
{
    lemma_index_of(a, c);
    if a.len() == 0 {
        assert(a + b =~= b);
    } else {
        assert((a + b)[0] == a[0]);
        if a[0] != c {
            assert((a + b).drop_first() =~= a.drop_first() + b);
            lemma_index_of_concat(a.drop_first(), b, c);
        }
    }
}

/// Law: the devices of two outputs joined by a line break are those of the
/// first, then those of the second: every device line of either is read,
/// in order, and nothing else is.
pub proof fn lemma_device_lines_join(a: Seq<char>, b: Seq<char>)
    ensures
        device_lines(line_pieces(a + seq!['\n'] + b)) == device_lines(line_pieces(a)) + device_lines(line_pieces(b)),
    decreases a.len(),
{
    broadcast use Seq::filter_distributes_over_add;
    let s = a + seq!['\n'] + b;
    let rest = seq!['\n'] + b;
    assert(s =~= a + rest);
    lemma_index_of_concat(a, rest, '\n');
    lemma_index_of(a, '\n');
    assert(index_of(rest, '\n') == 0);
    let n = index_of(a, '\n');
    if n < a.len() {
        let a2 = a.skip(n + 1int);
        lemma_device_lines_join(a2, b);
        assert(s.take(n as int) =~= a.take(n as int));
        assert(s.skip(n + 1int) =~= a2 + seq!['\n'] + b);
        assert(line_pieces(s) == seq![a.take(n as int)] + line_pieces(a2 + seq!['\n'] + b));
        assert(line_pieces(a) == seq![a.take(n as int)] + line_pieces(a2));
        assert(device_lines(line_pieces(s)) =~= device_lines(seq![a.take(n as int)]) + (device_lines(
            line_pieces(a2),
        ) + device_lines(line_pieces(b))));
        assert(device_lines(line_pieces(a)) =~= device_lines(seq![a.take(n as int)]) + device_lines(
            line_pieces(a2),
        ));
        assert(device_lines(line_pieces(s)) =~= device_lines(line_pieces(a)) + device_lines(line_pieces(b)));
    } else {
        assert(s.take(a.len() as int) =~= a);
        assert(s.skip(a.len() + 1int) =~= b);
        assert(line_pieces(s) == seq![a] + line_pieces(b));
        if a.len() == 0 {
            let e = Seq::<char>::empty();
            assert(a =~= e);
            assert(tab_escapes(e) == e);
            assert(trim_start(e) == e);
            assert(trim_end(e) == e);
            assert(device_line_words(e) is None);
            reveal(Seq::filter);
            assert(seq![e].drop_last() =~= Seq::<Seq<char>>::empty());
            assert(device_lines(seq![e]) =~= Seq::<Seq<char>>::empty());
            assert(line_pieces(a) =~= Seq::<Seq<char>>::empty());
            assert(device_lines(line_pieces(a)) =~= Seq::<Seq<char>>::empty());
        } else {
            assert(line_pieces(a) == seq![a]);
        }
        assert(device_lines(seq![a] + line_pieces(b)) == device_lines(seq![a]) + device_lines(line_pieces(b)));
        assert(device_lines(line_pieces(s)) =~= device_lines(line_pieces(a)) + device_lines(line_pieces(b)));
    }
}

/// Reads the output of `adb devices -l`: one device per device line, in order.
pub fn parse_devices_output(output: &str) -> (devices: Vec<AdbDevice>)
    ensures
        devices@.len() == device_lines(line_pieces(output@)).len(),
        forall|j: int| 0 <= j < devices@.len() ==> describes(
            #[trigger] devices@[j],
            device_line_words(device_lines(line_pieces(output@))[j])->Some_0,
        ),
{
    let s = chars_of(output);
    let ghost pred = |l: Seq<char>| device_line_words(l) is Some;
    let ghost mut lines: Seq<Seq<char>> = seq![];
    let mut devices: Vec<AdbDevice> = Vec::new();
    let mut i: usize = 0;
    proof {
        assert(s@.skip(0) =~= s@);
    }
    while i < s.len()
        invariant
            s@ == output@,
            i <= s@.len(),
            pred == (|l: Seq<char>| device_line_words(l) is Some),
            line_pieces(s@) == lines + line_pieces(s@.skip(i as int)),
            devices@.len() == lines.filter(pred).len(),
            forall|j: int| 0 <= j < devices@.len() ==> describes(
                #[trigger] devices@[j],
                device_line_words(lines.filter(pred)[j])->Some_0,
            ),
        decreases s@.len() - i,
    {
        let sub = crate::text::slice_chars(s.as_slice(), i, s.len());
        let rest_len = find_char(sub.as_slice(), '\n');
        proof {
            lemma_index_of(sub@, '\n');
        }
        let end = i + rest_len;
        let line = crate::text::slice_chars(s.as_slice(), i, end);
        let ghost r = s@.skip(i as int);
        proof {
            assert(s@.subrange(i as int, s@.len() as int) =~= r);
            lemma_index_of(r, '\n');
            assert(line@ =~= r.take(rest_len as int));
        }
        let parsed = parse_device_line(line.as_slice());
        proof {
            lines.lemma_filter_push(line@, pred);
        }
        match parsed {
            Some(d) => {
                devices.push(d);
            },
            None => {},
        }
        proof {
            let old_lines = lines;
            lines = lines.push(line@);
            assert(lines.filter(pred) == if pred(line@) { old_lines.filter(pred).push(line@) } else { old_lines.filter(pred) });
        }
        if end < s.len() {
            proof {
                assert(r.skip(rest_len + 1) =~= s@.skip(end + 1));
                assert(line_pieces(r) =~= seq![line@] + line_pieces(s@.skip(end + 1)));
                assert(line_pieces(s@) =~= lines + line_pieces(s@.skip(end + 1)));
            }
            i = end + 1;
        } else {
            proof {
                assert(line_pieces(r) =~= seq![line@]);
                assert(s@.skip(end as int) =~= Seq::<char>::empty());
                assert(line_pieces(s@) =~= lines + line_pieces(s@.skip(end as int)));
            }
            i = end;
        }
    }
    proof {
        assert(s@.skip(i as int) =~= Seq::<char>::empty());
        assert(lines + line_pieces(s@.skip(i as int)) =~= lines);
    }
    devices
}

} // verus!
