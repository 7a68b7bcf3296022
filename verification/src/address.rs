//! IP addresses and ports in text: the forms the standard library prints and
//! the forms it reads back as a socket address.
use vstd::prelude::*;
use crate::text::{decimal, digit_char, push_decimal, push_str};

verus! {

/// An IPv4 address by its four octets, or an IPv6 address by its eight
/// 16-bit groups.
#[derive(Debug, Clone, Copy, PartialEq, Eq, Hash)]
pub enum IpAddress {
    V4([u8; 4]),
    V6([u16; 8]),
}

/// The lower-case hexadecimal digit for `d`, which is below sixteen.
pub open spec fn hex_digit(d: nat) -> char {
    if d < 10 {
        digit_char(d)
    } else {
        (('a' as u32) + (d - 10)) as char
    }
}

/// The lower-case hexadecimal notation of `n`, without leading zeros.
pub open spec fn hex(n: nat) -> Seq<char>
    decreases n,
{
    if n < 16 {
        seq![hex_digit(n)]
    } else {
        hex(n / 16).push(hex_digit(n % 16))
    }
}

/// Dotted-decimal notation of four octets.
pub open spec fn ipv4_text(o: Seq<u8>) -> Seq<char> {
    decimal(o[0] as nat) + "."@ + decimal(o[1] as nat) + "."@ + decimal(o[2] as nat) + "."@ + decimal(
        o[3] as nat,
    )
}

/// Groups in hexadecimal, separated by colons.
pub open spec fn groups_text(g: Seq<u16>) -> Seq<char>
    decreases g.len(),
{
    if g.len() == 0 {
        seq![]
    } else if g.len() == 1 {
        hex(g[0] as nat)
    } else {
        groups_text(g.drop_last()) + ":"@ + hex(g.last() as nat)
    }
}

/// The longest run of zero groups seen so far (the first one of its length),
/// and the run that the last groups make, each as a start and a length.
pub open spec fn zero_scan(g: Seq<u16>) -> ((int, int), (int, int))
    decreases g.len(),
{
    if g.len() == 0 {
        ((0, 0), (0, 0))
    } else {
        let (longest, current) = zero_scan(g.drop_last());
        if g.last() == 0 {
            let c = if current.1 == 0 {
                (g.len() - 1, 1int)
            } else {
                (current.0, current.1 + 1)
            };
            (if c.1 > longest.1 {
                c
            } else {
                longest
            }, c)
        } else {
            (longest, (0, 0))
        }
    }
}

/// Whether eight groups hold an IPv4-mapped address (`::ffff:a.b.c.d`).
pub open spec fn is_ipv4_mapped(g: Seq<u16>) -> bool {
    g[0] == 0 && g[1] == 0 && g[2] == 0 && g[3] == 0 && g[4] == 0 && g[5] == 0xffff
}

/// The text of eight groups: an IPv4-mapped address as `::ffff:` and the
/// dotted IPv4 address; otherwise the groups in hexadecimal, with the first
/// longest run of two or more zero groups written as `::`.
pub open spec fn ipv6_text(g: Seq<u16>) -> Seq<char> {
    if is_ipv4_mapped(g) {
        "::ffff:"@ + ipv4_text(seq![(g[6] / 256) as u8, (g[6] % 256) as u8, (g[7] / 256) as u8, (g[7] % 256) as u8])
    } else {
        let (start, len) = zero_scan(g).0;
        if len > 1 {
            groups_text(g.take(start)) + "::"@ + groups_text(g.skip(start + len))
        } else {
            groups_text(g)
        }
    }
}

/// The text of an address, as the standard library prints it.
pub open spec fn ip_text(ip: IpAddress) -> Seq<char> {
    match ip {
        IpAddress::V4(o) => ipv4_text(o@),
        IpAddress::V6(g) => ipv6_text(g@),
    }
}

fn hex_char(d: u16) -> (c: char)
    requires
        d < 16,
    ensures
        c == hex_digit(d as nat),
{
    if d < 10 {
        crate::text::digit(d as u64)
    } else {
        let base: u32 = 'a' as u32;
        let v: u32 = base + (d as u32) - 10;
        assert(v == ('a' as u32) + (d - 10));
        assert(0x61 <= v <= 0x66);
        char_of(v)
    }
}

fn char_of(v: u32) -> (c: char)
    requires
        0x61 <= v <= 0x66,
    ensures
        c == v as char,
{
    if v == 0x61 {
        'a'
    } else if v == 0x62 {
        'b'
    } else if v == 0x63 {
        'c'
    } else if v == 0x64 {
        'd'
    } else if v == 0x65 {
        'e'
    } else {
        'f'
    }
}

/// Appends `n` in lower-case hexadecimal.
pub fn push_hex(out: &mut Vec<char>, n: u16)
    ensures
        final(out)@ == old(out)@ + hex(n as nat),
    decreases n,
{
    if n >= 16 {
        push_hex(out, n / 16);
    }
    out.push(hex_char(n % 16));
    proof {
        if n >= 16 {
            assert(old(out)@ + hex(n as nat) =~= old(out)@ + hex((n / 16) as nat) + seq![hex_digit((n % 16) as nat)]);
        }
    }
}

/// Appends four octets in dotted-decimal notation.
pub fn push_ipv4(out: &mut Vec<char>, o: [u8; 4])
    ensures
        final(out)@ == old(out)@ + ipv4_text(o@),
{
    push_decimal(out, o[0] as u64);
    push_str(out, ".");
    push_decimal(out, o[1] as u64);
    push_str(out, ".");
    push_decimal(out, o[2] as u64);
    push_str(out, ".");
    push_decimal(out, o[3] as u64);
    assert(final(out)@ =~= old(out)@ + ipv4_text(o@));
}

fn push_groups(out: &mut Vec<char>, g: &[u16], start: usize, end: usize)
    requires
        start <= end <= g@.len(),
    ensures
        final(out)@ == old(out)@ + groups_text(g@.subrange(start as int, end as int)),
{
    let mut i: usize = start;
    assert(g@.subrange(start as int, start as int) =~= Seq::<u16>::empty());
    while i < end
        invariant
            start <= i <= end <= g@.len(),
            out@ == old(out)@ + groups_text(g@.subrange(start as int, i as int)),
        decreases end - i,
    {
        let ghost before = out@;
        if i > start {
            push_str(out, ":");
        }
        push_hex(out, g[i]);
        proof {
            let s = g@.subrange(start as int, i + 1);
            assert(s.drop_last() =~= g@.subrange(start as int, i as int));
            assert(s.last() == g@[i as int]);
            if i == start {
                assert(s.len() == 1);
            }
            assert(out@ =~= old(out)@ + groups_text(s));
        }
        i = i + 1;
    }
}

/// Appends eight groups as the standard library prints an IPv6 address.
pub fn push_ipv6(out: &mut Vec<char>, g: [u16; 8])
    ensures
        final(out)@ == old(out)@ + ipv6_text(g@),
{
    if g[0] == 0 && g[1] == 0 && g[2] == 0 && g[3] == 0 && g[4] == 0 && g[5] == 0xffff {
        push_str(out, "::ffff:");
        let o: [u8; 4] = [(g[6] / 256) as u8, (g[6] % 256) as u8, (g[7] / 256) as u8, (g[7] % 256) as u8];
        push_ipv4(out, o);
        assert(o@ =~= seq![(g@[6] / 256) as u8, (g@[6] % 256) as u8, (g@[7] / 256) as u8, (g@[7] % 256) as u8]);
        assert(final(out)@ =~= old(out)@ + ipv6_text(g@));
        return;
    }
    let mut longest_start: usize = 0;
    let mut longest_len: usize = 0;
    let mut current_start: usize = 0;
    let mut current_len: usize = 0;
    let mut i: usize = 0;
    while i < 8
        invariant
            i <= 8,
            g@.len() == 8,
            zero_scan(g@.take(i as int)) == ((longest_start as int, longest_len as int), (
                current_start as int,
                current_len as int,
            )),
            longest_len <= i,
            current_len <= i,
        decreases 8 - i,
    {
        assert(g@.take(i + 1).drop_last() =~= g@.take(i as int));
        if g[i] == 0 {
            if current_len == 0 {
                current_start = i;
            }
            current_len = current_len + 1;
            if current_len > longest_len {
                longest_start = current_start;
                longest_len = current_len;
            }
        } else {
            current_start = 0;
            current_len = 0;
        }
        i = i + 1;
    }
    assert(g@.take(8) =~= g@);
    proof {
        lemma_zero_scan_bounds(g@);
    }
    if longest_len > 1 {
        push_groups(out, &g, 0, longest_start);
        push_str(out, "::");
        push_groups(out, &g, longest_start + longest_len, 8);
        assert(g@.subrange(0, longest_start as int) =~= g@.take(longest_start as int));
        assert(g@.subrange(longest_start + longest_len, 8) =~= g@.skip(longest_start + longest_len));
    } else {
        push_groups(out, &g, 0, 8);
        assert(g@.subrange(0, 8) =~= g@);
    }
    assert(final(out)@ =~= old(out)@ + ipv6_text(g@));
}

proof fn lemma_zero_scan_bounds(g: Seq<u16>)
    ensures
        0 <= zero_scan(g).0.0,
        0 <= zero_scan(g).0.1,
        zero_scan(g).0.0 + zero_scan(g).0.1 <= g.len(),
        0 <= zero_scan(g).1.0,
        0 <= zero_scan(g).1.1,
        zero_scan(g).1.1 > 0 ==> zero_scan(g).1.0 + zero_scan(g).1.1 == g.len(),
    decreases g.len(),
{
    if g.len() > 0 {
        lemma_zero_scan_bounds(g.drop_last());
    }
}

/// Appends the text of an address.
pub fn push_ip(out: &mut Vec<char>, ip: IpAddress)
    ensures
        final(out)@ == old(out)@ + ip_text(ip),
{
    match ip {
        IpAddress::V4(o) => push_ipv4(out, o),
        IpAddress::V6(g) => push_ipv6(out, g),
    }
}

/// The value of `c` as a digit in base `radix` (10 or 16), if it is one.
pub open spec fn digit_value(c: char, radix: nat) -> Option<nat> {
    if '0' <= c && c <= '9' {
        Some(((c as nat) - ('0' as nat)) as nat)
    } else if radix == 16 && 'a' <= c && c <= 'f' {
        Some(((c as nat) - ('a' as nat) + 10) as nat)
    } else if radix == 16 && 'A' <= c && c <= 'F' {
        Some(((c as nat) - ('A' as nat) + 10) as nat)
    } else {
        None
    }
}

/// How many digits `t` begins with.
pub open spec fn digit_count(t: Seq<char>, radix: nat) -> nat
    decreases t.len(),
{
    if t.len() == 0 || digit_value(t[0], radix) is None {
        0
    } else {
        1 + digit_count(t.drop_first(), radix)
    }
}

/// The value of the first `k` digits of `t`.
pub open spec fn number_value(t: Seq<char>, radix: nat, k: nat) -> nat
    decreases k,
{
    if k == 0 {
        0
    } else {
        number_value(t, radix, (k - 1) as nat) * radix + digit_value(t[k - 1], radix).unwrap_or(0)
    }
}

/// Reads a number at `pos`: all the digits there, at least one, at most
/// `max_digits` of them (no limit when 0), a value of at most `max_value`,
/// and no leading zero unless that is allowed. Gives the value and the
/// position after it.
pub open spec fn read_number(
    s: Seq<char>,
    pos: int,
    radix: nat,
    max_digits: nat,
    allow_zero_prefix: bool,
    max_value: nat,
) -> Option<(nat, int)> {
    let t = s.skip(pos);
    let d = digit_count(t, radix);
    if d == 0 {
        None
    } else if max_digits > 0 && d > max_digits {
        None
    } else if number_value(t, radix, d) > max_value {
        None
    } else if !allow_zero_prefix && t[0] == '0' && d > 1 {
        None
    } else {
        Some((number_value(t, radix, d), pos + d))
    }
}

proof fn lemma_number_value_grows(t: Seq<char>, radix: nat, k: nat)
    requires
        radix >= 1,
    ensures
        number_value(t, radix, k + 1) >= number_value(t, radix, k),
{
    let v = number_value(t, radix, k);
    assert(v * radix >= v) by (nonlinear_arith)
        requires
            radix >= 1,
    ;
}

proof fn lemma_digit_count_step(t: Seq<char>, radix: nat, k: int)
    requires
        0 <= k < t.len(),
        digit_value(t[k], radix) is Some,
    ensures
        digit_count(t.skip(k), radix) == 1 + digit_count(t.skip(k + 1), radix),
{
    assert(t.skip(k)[0] == t[k]);
    assert(t.skip(k).drop_first() =~= t.skip(k + 1));
}

proof fn lemma_digit_count_prefix(t: Seq<char>, radix: nat, k: int)
    requires
        0 <= k <= t.len(),
        forall|j: int| 0 <= j < k ==> digit_value(#[trigger] t[j], radix) is Some,
    ensures
        digit_count(t, radix) == k + digit_count(t.skip(k), radix),
    decreases k,
{
    if k == 0 {
        assert(t.skip(0) =~= t);
    } else {
        lemma_digit_count_prefix(t, radix, k - 1);
        lemma_digit_count_step(t, radix, k - 1);
    }
}

fn char_digit(c: char, radix: u32) -> (d: Option<u32>)
    requires
        radix == 10 || radix == 16,
    ensures
        match (d, digit_value(c, radix as nat)) {
            (Some(x), Some(y)) => x == y && x < radix,
            (None, None) => true,
            _ => false,
        },
{
    if '0' <= c && c <= '9' {
        Some((c as u32) - ('0' as u32))
    } else if radix == 16 && 'a' <= c && c <= 'f' {
        Some((c as u32) - ('a' as u32) + 10)
    } else if radix == 16 && 'A' <= c && c <= 'F' {
        Some((c as u32) - ('A' as u32) + 10)
    } else {
        None
    }
}

fn read_number_at(
    s: &[char],
    pos: usize,
    radix: u32,
    max_digits: usize,
    allow_zero_prefix: bool,
    max_value: u64,
) -> (r: Option<(u64, usize)>)
    requires
        pos <= s@.len(),
        radix == 10 || radix == 16,
        max_value <= u32::MAX,
    ensures
        match (r, read_number(s@, pos as int, radix as nat, max_digits as nat, allow_zero_prefix, max_value as nat)) {
            (Some((v, p)), Some((w, q))) => v == w && p == q && p <= s@.len(),
            (None, None) => true,
            _ => false,
        },
{
    let ghost t = s@.skip(pos as int);
    let mut count: usize = 0;
    let mut value: u64 = 0;
    let mut over = false;
    let n = s.len();
    while pos + count < n
        invariant
            n == s@.len(),
            pos + count <= s@.len(),
            t == s@.skip(pos as int),
            radix == 10 || radix == 16,
            max_value <= u32::MAX,
            forall|j: int| 0 <= j < count ==> digit_value(#[trigger] t[j], radix as nat) is Some,
            !over ==> value == number_value(t, radix as nat, count as nat) && value <= max_value,
            over ==> number_value(t, radix as nat, count as nat) > max_value,
            max_digits > 0 ==> count <= max_digits,
        ensures
            pos + count <= s@.len(),
            forall|j: int| 0 <= j < count ==> digit_value(#[trigger] t[j], radix as nat) is Some,
            !over ==> value == number_value(t, radix as nat, count as nat) && value <= max_value,
            over ==> number_value(t, radix as nat, count as nat) > max_value,
            max_digits > 0 ==> count <= max_digits,
            pos + count < s@.len() ==> digit_value(t[count as int], radix as nat) is None,
        decreases s@.len() - (pos + count),
    {
        let c = s[pos + count];
        assert(t[count as int] == c);
        let d = match char_digit(c, radix) {
            Some(d) => d,
            None => break,
        };
        proof {
            lemma_number_value_grows(t, radix as nat, count as nat);
        }
        if !over {
            assert(value * (radix as u64) <= 0xffff_ffffu64 * 16) by (nonlinear_arith)
                requires
                    value <= 0xffff_ffffu64,
                    radix <= 16,
            ;
            value = value * (radix as u64) + (d as u64);
            if value > max_value {
                over = true;
            }
        }
        count = count + 1;
        if max_digits > 0 && count > max_digits {
            proof {
                lemma_digit_count_prefix(t, radix as nat, count as int);
            }
            return None;
        }
    }
    proof {
        lemma_digit_count_prefix(t, radix as nat, count as int);
        if pos + count < s@.len() {
            assert(t.skip(count as int)[0] == t[count as int]);
        }
    }
    if count == 0 || over {
        return None;
    }
    if !allow_zero_prefix && s[pos] == '0' && count > 1 {
        assert(t[0] == s@[pos as int]);
        return None;
    }
    Some((value, pos + count))
}

/// Reads a dotted-decimal IPv4 address at `pos`: four octets of at most
/// three digits each, without leading zeros.
pub open spec fn read_ipv4(s: Seq<char>, pos: int) -> Option<(Seq<u16>, int)> {
    match read_number(s, pos, 10, 3, false, 255) {
        None => None,
        Some((a, p1)) => if p1 < s.len() && s[p1] == '.' {
            match read_number(s, p1 + 1, 10, 3, false, 255) {
                None => None,
                Some((b, p2)) => if p2 < s.len() && s[p2] == '.' {
                    match read_number(s, p2 + 1, 10, 3, false, 255) {
                        None => None,
                        Some((c, p3)) => if p3 < s.len() && s[p3] == '.' {
                            match read_number(s, p3 + 1, 10, 3, false, 255) {
                                None => None,
                                Some((d, p4)) => Some((seq![a as u16, b as u16, c as u16, d as u16], p4)),
                            }
                        } else {
                            None
                        },
                    }
                } else {
                    None
                },
            }
        } else {
            None
        },
    }
}

fn read_octet_after(s: &[char], pos: usize) -> (r: Option<(u64, usize)>)
    requires
        pos <= s@.len(),
    ensures
        match r {
            Some((v, p)) => pos < s@.len() && s@[pos as int] == '.' && read_number(s@, pos + 1, 10, 3, false, 255)
                == Some((v as nat, p as int)) && p <= s@.len(),
            None => !(pos < s@.len() && s@[pos as int] == '.') || read_number(s@, pos + 1, 10, 3, false, 255)
                is None,
        },
{
    if pos < s.len() && s[pos] == '.' {
        read_number_at(s, pos + 1, 10, 3, false, 255)
    } else {
        None
    }
}

fn read_ipv4_at(s: &[char], pos: usize) -> (r: Option<([u8; 4], usize)>)
    requires
        pos <= s@.len(),
    ensures
        match (r, read_ipv4(s@, pos as int)) {
            (Some((o, p)), Some((w, q))) => o@.map_values(|x: u8| x as u16) == w && p == q && p <= s@.len(),
            (None, None) => true,
            _ => false,
        },
{
    let (a, p1) = match read_number_at(s, pos, 10, 3, false, 255) {
        Some(x) => x,
        None => return None,
    };
    let (b, p2) = match read_octet_after(s, p1) {
        Some(x) => x,
        None => return None,
    };
    let (c, p3) = match read_octet_after(s, p2) {
        Some(x) => x,
        None => return None,
    };
    let (d, p4) = match read_octet_after(s, p3) {
        Some(x) => x,
        None => return None,
    };
    let o: [u8; 4] = [a as u8, b as u8, c as u8, d as u8];
    assert(o@.map_values(|x: u8| x as u16) =~= seq![a as u16, b as u16, c as u16, d as u16]);
    Some((o, p4))
}

/// Reads up to `limit - i` colon-separated groups at `pos` (the `i`-th and
/// later groups; groups after the first are preceded by a colon). Where two
/// or more groups remain, a dotted IPv4 address may stand for the next two,
/// and it ends the reading. Gives the groups, whether an IPv4 address ended
/// them, and the position after them.
pub open spec fn read_groups(s: Seq<char>, pos: int, i: nat, limit: nat) -> (Seq<u16>, bool, int)
    decreases limit - i,
{
    if i >= limit {
        (seq![], false, pos)
    } else {
        let start = if i > 0 {
            if 0 <= pos < s.len() && s[pos] == ':' {
                pos + 1
            } else {
                -1
            }
        } else {
            pos
        };
        if start < 0 {
            (seq![], false, pos)
        } else {
            let v4 = if i + 1 < limit {
                read_ipv4(s, start)
            } else {
                None
            };
            match v4 {
                Some((o, p)) => (seq![(o[0] * 256 + o[1]) as u16, (o[2] * 256 + o[3]) as u16], true, p),
                None => match read_number(s, start, 16, 4, true, 0xffff) {
                    Some((g, p)) => {
                        let r = read_groups(s, p, i + 1, limit);
                        (seq![g as u16] + r.0, r.1, r.2)
                    },
                    None => (seq![], false, pos),
                },
            }
        }
    }
}

/// Eight groups made of `head`, zero groups, and `tail`.
pub open spec fn fill_groups(head: Seq<u16>, tail: Seq<u16>) -> Seq<u16> {
    head + Seq::new((8 - head.len() - tail.len()) as nat, |k: int| 0u16) + tail
}

/// Reads an IPv6 address at `pos`: eight groups, or fewer groups, `::`,
/// and fewer groups again, the `::` standing for at least one zero group.
pub open spec fn read_ipv6(s: Seq<char>, pos: int) -> Option<(Seq<u16>, int)> {
    let (head, ended_by_ipv4, p) = read_groups(s, pos, 0, 8);
    if head.len() == 8 {
        Some((head, p))
    } else if ended_by_ipv4 {
        None
    } else if 0 <= p && p + 1 < s.len() && s[p] == ':' && s[p + 1] == ':' {
        let (tail, _, q) = read_groups(s, p + 2, 0, (7 - head.len()) as nat);
        Some((fill_groups(head, tail), q))
    } else {
        None
    }
}

proof fn lemma_read_groups_bounds(s: Seq<char>, pos: int, i: nat, limit: nat)
    requires
        0 <= pos <= s.len(),
    ensures
        read_groups(s, pos, i, limit).0.len() <= if i <= limit { limit - i } else { 0 },
        pos <= read_groups(s, pos, i, limit).2 <= s.len(),
    decreases limit - i,
{
    if i < limit {
        let start = if i > 0 { pos + 1 } else { pos };
        if i == 0 || (pos < s.len() && s[pos] == ':') {
            match read_number(s, start, 16, 4, true, 0xffff) {
                Some((g, p)) => {
                    lemma_read_number_bounds(s, start, 16, 4, true, 0xffff);
                    lemma_read_groups_bounds(s, p, i + 1, limit);
                },
                None => {},
            }
            lemma_read_ipv4_bounds(s, start);
        }
    }
}

proof fn lemma_read_number_bounds(s: Seq<char>, pos: int, radix: nat, max_digits: nat, z: bool, max_value: nat)
    requires
        0 <= pos <= s.len(),
    ensures
        read_number(s, pos, radix, max_digits, z, max_value) matches Some((v, p)) ==> pos < p <= s.len()
            && v <= max_value,
{
    lemma_digit_count_bound(s.skip(pos), radix);
}

proof fn lemma_digit_count_bound(t: Seq<char>, radix: nat)
    ensures
        digit_count(t, radix) <= t.len(),
    decreases t.len(),
{
    if t.len() > 0 && digit_value(t[0], radix) is Some {
        lemma_digit_count_bound(t.drop_first(), radix);
    }
}

proof fn lemma_read_ipv4_bounds(s: Seq<char>, pos: int)
    requires
        0 <= pos <= s.len(),
    ensures
        read_ipv4(s, pos) matches Some((o, p)) ==> pos < p <= s.len() && o.len() == 4 && o[0] <= 255 && o[1]
            <= 255 && o[2] <= 255 && o[3] <= 255,
{
    lemma_read_number_bounds(s, pos, 10, 3, false, 255);
    if let Some((a, p1)) = read_number(s, pos, 10, 3, false, 255) {
        if p1 < s.len() {
            lemma_read_number_bounds(s, p1 + 1, 10, 3, false, 255);
            if let Some((b, p2)) = read_number(s, p1 + 1, 10, 3, false, 255) {
                if p2 < s.len() {
                    lemma_read_number_bounds(s, p2 + 1, 10, 3, false, 255);
                    if let Some((c, p3)) = read_number(s, p2 + 1, 10, 3, false, 255) {
                        if p3 < s.len() {
                            lemma_read_number_bounds(s, p3 + 1, 10, 3, false, 255);
                        }
                    }
                }
            }
        }
    }
}

fn read_groups_at(s: &[char], pos: usize, i: usize, limit: usize) -> (r: (Vec<u16>, bool, usize))
    requires
        pos <= s@.len(),
        i <= limit <= 8,
    ensures
        (r.0@, r.1, r.2 as int) == read_groups(s@, pos as int, i as nat, limit as nat),
    decreases limit - i,
{
    if i >= limit {
        return (Vec::new(), false, pos);
    }
    let start: usize = if i > 0 {
        if pos < s.len() && s[pos] == ':' {
            pos + 1
        } else {
            return (Vec::new(), false, pos);
        }
    } else {
        pos
    };
    if i + 1 < limit {
        match read_ipv4_at(s, start) {
            Some((o, p)) => {
                let mut v: Vec<u16> = Vec::new();
                v.push((o[0] as u16) * 256 + (o[1] as u16));
                v.push((o[2] as u16) * 256 + (o[3] as u16));
                proof {
                    let w = read_ipv4(s@, start as int)->Some_0.0;
                    assert(w[0] == o@[0] as u16 && w[1] == o@[1] as u16 && w[2] == o@[2] as u16 && w[3] == o@[3] as u16);
                    assert(v@ =~= seq![(w[0] * 256 + w[1]) as u16, (w[2] * 256 + w[3]) as u16]);
                }
                return (v, true, p);
            },
            None => {},
        }
    }
    match read_number_at(s, start, 16, 4, true, 0xffff) {
        Some((g, p)) => {
            let (rest, ended, q) = read_groups_at(s, p, i + 1, limit);
            let mut v: Vec<u16> = Vec::new();
            v.push(g as u16);
            let mut k: usize = 0;
            while k < rest.len()
                invariant
                    k <= rest@.len(),
                    v@ == seq![g as u16] + rest@.take(k as int),
                decreases rest@.len() - k,
            {
                v.push(rest[k]);
                assert(rest@.take(k + 1) =~= rest@.take(k as int).push(rest@[k as int]));
                k = k + 1;
            }
            assert(rest@.take(rest@.len() as int) =~= rest@);
            (v, ended, q)
        },
        None => (Vec::new(), false, pos),
    }
}

/// Reads an IPv6 address at `pos`.
fn read_ipv6_at(s: &[char], pos: usize) -> (r: Option<([u16; 8], usize)>)
    requires
        pos <= s@.len(),
    ensures
        match (r, read_ipv6(s@, pos as int)) {
            (Some((g, p)), Some((w, q))) => g@ == w && p == q && p <= s@.len(),
            (None, None) => true,
            _ => false,
        },
{
    let (head, ended, p) = read_groups_at(s, pos, 0, 8);
    proof {
        lemma_read_groups_bounds(s@, pos as int, 0, 8);
    }
    if head.len() == 8 {
        let g: [u16; 8] = [head[0], head[1], head[2], head[3], head[4], head[5], head[6], head[7]];
        assert(g@ =~= head@);
        return Some((g, p));
    }
    if ended {
        return None;
    }
    if !(p < s.len() && s[p] == ':' && p + 1 < s.len() && s[p + 1] == ':') {
        return None;
    }
    let (tail, _, q) = read_groups_at(s, p + 2, 0, 7 - head.len());
    proof {
        lemma_read_groups_bounds(s@, p + 2, 0, (7 - head@.len()) as nat);
    }
    let mut all: Vec<u16> = Vec::new();
    let mut k: usize = 0;
    let zeros: usize = 8 - head.len() - tail.len();
    while k < 8
        invariant
            k <= 8,
            head@.len() + tail@.len() <= 7,
            zeros == 8 - head@.len() - tail@.len(),
            all@ == fill_groups(head@, tail@).take(k as int),
        decreases 8 - k,
    {
        let ghost f = fill_groups(head@, tail@);
        let x: u16 = if k < head.len() {
            head[k]
        } else if k < head.len() + zeros {
            0
        } else {
            tail[k - head.len() - zeros]
        };
        assert(f.len() == 8);
        assert(x == f[k as int]);
        all.push(x);
        assert(all@ =~= f.take(k + 1));
        k = k + 1;
    }
    let g: [u16; 8] = [all[0], all[1], all[2], all[3], all[4], all[5], all[6], all[7]];
    assert(g@ =~= fill_groups(head@, tail@));
    Some((g, q))
}

/// Reads `:` and a port number at `pos`.
pub open spec fn read_port(s: Seq<char>, pos: int) -> Option<(nat, int)> {
    if 0 <= pos < s.len() && s[pos] == ':' {
        read_number(s, pos + 1, 10, 0, true, 0xffff)
    } else {
        None
    }
}

/// The position after an optional `%` and scope number at `pos`.
pub open spec fn skip_scope(s: Seq<char>, pos: int) -> int {
    if 0 <= pos < s.len() && s[pos] == '%' {
        match read_number(s, pos + 1, 10, 0, true, 0xffff_ffff) {
            Some((_, q)) => q,
            None => pos,
        }
    } else {
        pos
    }
}

/// What `s` holds as a socket address, when all of it is one: an IPv4
/// address and a port, or a bracketed IPv6 address (with an optional scope)
/// and a port. Gives whether the address is IPv6, its octets or groups, and
/// the port.
#[verifier::opaque]
pub open spec fn socket_addr(s: Seq<char>) -> Option<(bool, Seq<u16>, u16)> {
    match read_ipv4(s, 0) {
        Some((o, p)) if read_port(s, p) is Some => {
            let (port, q) = read_port(s, p)->Some_0;
            if q == s.len() {
                Some((false, o, port as u16))
            } else {
                None
            }
        },
        _ => if s.len() > 0 && s[0] == '[' {
            match read_ipv6(s, 1) {
                Some((g, p)) => {
                    let p2 = skip_scope(s, p);
                    if 0 <= p2 < s.len() && s[p2] == ']' {
                        match read_port(s, p2 + 1) {
                            Some((port, q)) => if q == s.len() {
                                Some((true, g, port as u16))
                            } else {
                                None
                            },
                            None => None,
                        }
                    } else {
                        None
                    }
                },
                None => None,
            }
        } else {
            None
        },
    }
}

/// Whether an address is IPv6, and its octets or groups.
pub open spec fn ip_view(ip: IpAddress) -> (bool, Seq<u16>) {
    match ip {
        IpAddress::V4(o) => (false, o@.map_values(|x: u8| x as u16)),
        IpAddress::V6(g) => (true, g@),
    }
}

fn read_port_at(s: &[char], pos: usize) -> (r: Option<(u64, usize)>)
    requires
        pos <= s@.len(),
    ensures
        match (r, read_port(s@, pos as int)) {
            (Some((v, p)), Some((w, q))) => v == w && p == q && p <= s@.len(),
            (None, None) => true,
            _ => false,
        },
{
    if pos < s.len() && s[pos] == ':' {
        read_number_at(s, pos + 1, 10, 0, true, 0xffff)
    } else {
        None
    }
}

/// Reads a socket address: an IPv4 address and a port, or a bracketed IPv6
/// address, with an optional scope, and a port; the whole text must be one.
pub fn parse_socket_addr(text: &[char]) -> (r: Option<(IpAddress, u16)>)
    ensures
        match (r, socket_addr(text@)) {
            (Some((ip, port)), Some((v6, g, p))) => ip_view(ip) == (v6, g) && port == p,
            (None, None) => true,
            _ => false,
        },
{
    reveal(socket_addr);
    let s = text;
    match read_ipv4_at(s, 0) {
        Some((o, p)) => {
            match read_port_at(s, p) {
                Some((port, q)) => {
                    if q == s.len() {
                        return Some((IpAddress::V4(o), port as u16));
                    } else {
                        return None;
                    }
                },
                None => {},
            }
        },
        None => {},
    }
    if !(s.len() > 0 && s[0] == '[') {
        return None;
    }
    let (g, p) = match read_ipv6_at(s, 1) {
        Some(x) => x,
        None => return None,
    };
    let mut p2 = p;
    if p < s.len() && s[p] == '%' {
        match read_number_at(s, p + 1, 10, 0, true, 0xffff_ffff) {
            Some((_, q)) => {
                p2 = q;
            },
            None => {},
        }
    }
    if !(p2 < s.len() && s[p2] == ']') {
        return None;
    }
    match read_port_at(s, p2 + 1) {
        Some((port, q)) => {
            if q == s.len() {
                Some((IpAddress::V6(g), port as u16))
            } else {
                None
            }
        },
        None => None,
    }
}

proof fn lemma_digit_char_value(d: nat)
    requires
        d < 10,
    ensures
        digit_value(digit_char(d), 10) == Some(d),
        '0' <= digit_char(d) <= '9',
{
}

/// The decimal notation of a number is made of digits, has no leading
/// zero, and has at most three digits below 1000.
pub proof fn lemma_decimal_shape(n: nat)
    ensures
        decimal(n).len() >= 1,
        forall|i: int| 0 <= i < decimal(n).len() ==> '0' <= #[trigger] decimal(n)[i] <= '9',
        n >= 10 ==> decimal(n)[0] != '0',
        n < 10 ==> decimal(n).len() == 1,
        n < 100 ==> decimal(n).len() <= 2,
        n < 1000 ==> decimal(n).len() <= 3,
    decreases n,
{
    if n >= 10 {
        lemma_decimal_shape(n / 10);
        lemma_digit_char_value(n % 10);
        let p = decimal(n / 10);
        assert forall|i: int| 0 <= i < decimal(n).len() implies '0' <= #[trigger] decimal(n)[i] <= '9' by {
            if i < p.len() {
                assert(decimal(n)[i] == p[i]);
            }
        }
        assert(decimal(n)[0] == p[0]);
        if n / 10 < 10 {
            lemma_digit_char_value(n / 10);
        }
    } else {
        lemma_digit_char_value(n);
    }
}

proof fn lemma_number_value_take(t: Seq<char>, u: Seq<char>, radix: nat, k: nat)
    requires
        k <= t.len(),
        k <= u.len(),
        t.take(k as int) == u.take(k as int),
    ensures
        number_value(t, radix, k) == number_value(u, radix, k),
    decreases k,
{
    if k > 0 {
        assert(t.take(k - 1) =~= t.take(k as int).take(k - 1));
        assert(u.take(k - 1) =~= u.take(k as int).take(k - 1));
        assert(t[k - 1] == t.take(k as int)[k - 1]);
        assert(u[k - 1] == u.take(k as int)[k - 1]);
        lemma_number_value_take(t, u, radix, (k - 1) as nat);
    }
}

/// The digits of `decimal(n)` read back as `n`, whatever follows them.
pub proof fn lemma_decimal_value(n: nat, rest: Seq<char>)
    ensures
        number_value(decimal(n) + rest, 10, decimal(n).len()) == n,
    decreases n,
{
    let t = decimal(n) + rest;
    lemma_decimal_shape(n);
    if n < 10 {
        lemma_digit_char_value(n);
        assert(t[0] == digit_char(n));
        assert(decimal(n).len() == 1);
        assert(number_value(t, 10, 0) == 0);
        assert(number_value(t, 10, 1) == number_value(t, 10, 0) * 10 + digit_value(t[0], 10).unwrap_or(0));
    } else {
        let p = decimal(n / 10);
        let k = decimal(n).len();
        lemma_decimal_value(n / 10, seq![digit_char(n % 10)] + rest);
        assert(p + (seq![digit_char(n % 10)] + rest) =~= t);
        assert(t[k - 1] == digit_char(n % 10));
        lemma_digit_char_value(n % 10);
        assert(number_value(t, 10, (k - 1) as nat) == n / 10);
        assert(number_value(t, 10, k) == number_value(t, 10, (k - 1) as nat) * 10 + digit_value(t[k - 1], 10).unwrap_or(0));
        assert((n / 10) * 10 + n % 10 == n) by (nonlinear_arith);
    }
}

/// Reading a number where `decimal(n)` stands, followed by a non-digit or
/// by nothing, gives `n` and the position after its digits.
pub proof fn lemma_read_decimal(
    s: Seq<char>,
    pos: int,
    n: nat,
    rest: Seq<char>,
    max_digits: nat,
    allow_zero_prefix: bool,
    max_value: nat,
)
    requires
        0 <= pos <= s.len(),
        s.skip(pos) == decimal(n) + rest,
        rest.len() == 0 || digit_value(rest[0], 10) is None,
        n <= max_value,
        max_digits == 0 || decimal(n).len() <= max_digits,
    ensures
        read_number(s, pos, 10, max_digits, allow_zero_prefix, max_value) == Some((n, pos + decimal(n).len())),
{
    let t = s.skip(pos);
    let k = decimal(n).len();
    lemma_decimal_shape(n);
    assert forall|j: int| 0 <= j < k implies digit_value(#[trigger] t[j], 10) is Some by {
        assert(t[j] == decimal(n)[j]);
    }
    lemma_digit_count_prefix(t, 10, k as int);
    assert(t.skip(k as int) =~= rest);
    if rest.len() > 0 {
        assert(t.skip(k as int)[0] == rest[0]);
    }
    lemma_decimal_value(n, rest);
    assert(t[0] == decimal(n)[0]);
}

proof fn lemma_after_prefix(a: Seq<char>, c: char, b: Seq<char>)
    ensures
        (a + (seq![c] + b))[a.len() as int] == c,
        (a + (seq![c] + b)).skip(a.len() + 1int) == b,
{
    assert((a + (seq![c] + b)).skip(a.len() + 1int) =~= b);
}

proof fn lemma_skip_more(s: Seq<char>, i: int, j: int)
    requires
        0 <= i,
        0 <= j,
        i + j <= s.len(),
    ensures
        s.skip(i).skip(j) == s.skip(i + j),
{
    assert(s.skip(i).skip(j) =~= s.skip(i + j));
}

/// An octet, then a non-digit, reads back at `pos`.
proof fn lemma_octet_at(s: Seq<char>, pos: int, x: u8, c: char, rest: Seq<char>)
    requires
        0 <= pos <= s.len(),
        s.skip(pos) == decimal(x as nat) + (seq![c] + rest),
        c == '.' || c == ':',
    ensures
        read_number(s, pos, 10, 3, false, 255) == Some((x as nat, pos + decimal(x as nat).len())),
        s[pos + decimal(x as nat).len()] == c,
        s.skip(pos + decimal(x as nat).len() + 1) == rest,
{
    lemma_decimal_shape(x as nat);
    lemma_read_decimal(s, pos, x as nat, seq![c] + rest, 3, false, 255);
    let d = decimal(x as nat);
    lemma_after_prefix(d, c, rest);
    assert(s[pos + d.len()] == s.skip(pos)[d.len() as int]);
    lemma_skip_more(s, pos, d.len() + 1int);
}

/// Law: the text of an IPv4 address and a port reads back as that address and port.
#[verifier::rlimit(100)]
pub proof fn lemma_ipv4_socket_addr_roundtrip(o: [u8; 4], port: u16)
    ensures
        socket_addr(ipv4_text(o@) + ":"@ + decimal(port as nat)) == Some(
            (false, o@.map_values(|x: u8| x as u16), port),
        ),
{
    reveal_strlit(".");
    reveal_strlit(":");
    let d0 = decimal(o@[0] as nat);
    let d1 = decimal(o@[1] as nat);
    let d2 = decimal(o@[2] as nat);
    let d3 = decimal(o@[3] as nat);
    let dp = decimal(port as nat);
    let r3 = dp;
    let r2 = d3 + (seq![':'] + r3);
    let r1 = d2 + (seq!['.'] + r2);
    let r0 = d1 + (seq!['.'] + r1);
    let s = d0 + (seq!['.'] + r0);
    assert(ipv4_text(o@) + ":"@ + dp =~= s);
    assert(s.skip(0) =~= s);
    lemma_octet_at(s, 0, o@[0], '.', r0);
    let p1: int = d0.len() + 1int;
    lemma_octet_at(s, p1, o@[1], '.', r1);
    let p2: int = p1 + d1.len() + 1;
    lemma_octet_at(s, p2, o@[2], '.', r2);
    let p3: int = p2 + d2.len() + 1;
    lemma_octet_at(s, p3, o@[3], ':', r3);
    let p4: int = p3 + d3.len();
    lemma_decimal_shape(port as nat);
    assert(s.skip(p4 + 1) =~= dp + Seq::<char>::empty());
    lemma_read_decimal(s, p4 + 1, port as nat, Seq::<char>::empty(), 0, true, 0xffff);
    assert(s.len() == p4 + 1 + dp.len());
    let w = seq![o@[0] as nat as u16, o@[1] as nat as u16, o@[2] as nat as u16, o@[3] as nat as u16];
    assert(read_ipv4(s, 0) == Some((w, p4)));
    assert(read_port(s, p4) == Some((port as nat, s.len() as int))) by {
        assert(s[p4] == ':');
    }
    lemma_socket_addr_v4(s, w, p4, port as nat);
    lemma_octets_view(o);
}

proof fn lemma_socket_addr_v4(s: Seq<char>, w: Seq<u16>, p: int, port: nat)
    requires
        read_ipv4(s, 0) == Some((w, p)),
        read_port(s, p) == Some((port, s.len() as int)),
    ensures
        socket_addr(s) == Some((false, w, port as u16)),
{
    reveal(socket_addr);
}

proof fn lemma_octets_view(o: [u8; 4])
    ensures
        seq![o@[0] as nat as u16, o@[1] as nat as u16, o@[2] as nat as u16, o@[3] as nat as u16] == o@.map_values(
            |x: u8| x as u16,
        ),
{
    assert(seq![o@[0] as nat as u16, o@[1] as nat as u16, o@[2] as nat as u16, o@[3] as nat as u16] =~= o@.map_values(
        |x: u8| x as u16,
    ));
}


proof fn lemma_hex_digit_value(d: nat)
    requires
        d < 16,
    ensures
        digit_value(hex_digit(d), 16) == Some(d),
        digit_value(hex_digit(d), 10) is None || d < 10,
{
    if d < 10 {
        lemma_digit_char_value(d);
    } else {
        let c = hex_digit(d);
        assert(c as nat == 97 + d - 10);
        assert('a' <= c <= 'f');
    }
}

/// Hexadecimal notation below `0x10000`: one to four hexadecimal digits.
proof fn lemma_hex_shape(n: nat)
    requires
        n <= 0xffff,
    ensures
        1 <= hex(n).len() <= 4,
        n < 16 ==> hex(n).len() == 1,
        n < 256 ==> hex(n).len() <= 2,
        n < 4096 ==> hex(n).len() <= 3,
        forall|i: int| 0 <= i < hex(n).len() ==> digit_value(#[trigger] hex(n)[i], 16) is Some,
    decreases n,
{
    lemma_hex_digit_value(n % 16);
    if n >= 16 {
        lemma_hex_shape(n / 16);
        let p = hex(n / 16);
        assert forall|i: int| 0 <= i < hex(n).len() implies digit_value(#[trigger] hex(n)[i], 16) is Some by {
            if i < p.len() {
                assert(hex(n)[i] == p[i]);
            }
        }
    }
}

/// The digits of `hex(n)` read back as `n`, whatever follows them.
proof fn lemma_hex_value(n: nat, rest: Seq<char>)
    ensures
        number_value(hex(n) + rest, 16, hex(n).len()) == n,
    decreases n,
{
    let t = hex(n) + rest;
    lemma_hex_digit_value(n % 16);
    if n < 16 {
        assert(t[0] == hex_digit(n));
        assert(number_value(t, 16, 0) == 0);
        assert(number_value(t, 16, 1) == number_value(t, 16, 0) * 16 + digit_value(t[0], 16).unwrap_or(0));
    } else {
        let p = hex(n / 16);
        let k = hex(n).len();
        lemma_hex_value(n / 16, seq![hex_digit(n % 16)] + rest);
        assert(p + (seq![hex_digit(n % 16)] + rest) =~= t);
        assert(t[k - 1] == hex_digit(n % 16));
        assert(number_value(t, 16, (k - 1) as nat) == n / 16);
        assert(number_value(t, 16, k) == number_value(t, 16, (k - 1) as nat) * 16 + digit_value(t[k - 1], 16).unwrap_or(0));
        assert((n / 16) * 16 + n % 16 == n) by (nonlinear_arith);
    }
}

/// Reading a group where `hex(n)` stands, followed by a non-digit or by
/// nothing, gives `n` and the position after its digits.
proof fn lemma_read_hex(s: Seq<char>, pos: int, n: nat, rest: Seq<char>)
    requires
        0 <= pos <= s.len(),
        n <= 0xffff,
        s.skip(pos) == hex(n) + rest,
        rest.len() == 0 || digit_value(rest[0], 16) is None,
    ensures
        read_number(s, pos, 16, 4, true, 0xffff) == Some((n, pos + hex(n).len())),
{
    let t = s.skip(pos);
    let k = hex(n).len();
    lemma_hex_shape(n);
    assert forall|j: int| 0 <= j < k implies digit_value(#[trigger] t[j], 16) is Some by {
        assert(t[j] == hex(n)[j]);
    }
    lemma_digit_count_prefix(t, 16, k as int);
    assert(t.skip(k as int) =~= rest);
    if rest.len() > 0 {
        assert(t.skip(k as int)[0] == rest[0]);
    }
    lemma_hex_value(n, rest);
}

/// Groups in hexadecimal, each one preceded by a colon.
spec fn colon_groups(h: Seq<u16>) -> Seq<char>
    decreases h.len(),
{
    if h.len() == 0 {
        seq![]
    } else {
        seq![':'] + hex(h[0] as nat) + colon_groups(h.drop_first())
    }
}

proof fn lemma_colon_groups_last(h: Seq<u16>)
    requires
        h.len() > 0,
    ensures
        colon_groups(h) == colon_groups(h.drop_last()) + seq![':'] + hex(h.last() as nat),
    decreases h.len(),
{
    if h.len() == 1 {
        assert(h.drop_first() =~= Seq::<u16>::empty());
        assert(h.drop_last() =~= Seq::<u16>::empty());
        assert(colon_groups(h) =~= seq![':'] + hex(h.last() as nat));
    } else {
        let r = h.drop_first();
        lemma_colon_groups_last(r);
        assert(r.drop_last() =~= h.drop_last().drop_first());
        assert(h.drop_last()[0] == h[0]);
        assert(r.last() == h.last());
        assert(colon_groups(h) =~= colon_groups(h.drop_last()) + seq![':'] + hex(h.last() as nat));
    }
}

/// Groups text read from the left: the first group, then each further one
/// after a colon.
proof fn lemma_groups_text_first(h: Seq<u16>)
    requires
        h.len() > 0,
    ensures
        groups_text(h) == hex(h[0] as nat) + colon_groups(h.drop_first()),
    decreases h.len(),
{
    reveal_strlit(":");
    if h.len() == 1 {
        assert(h.drop_first() =~= Seq::<u16>::empty());
        assert(groups_text(h) =~= hex(h[0] as nat) + colon_groups(h.drop_first()));
    } else {
        let d = h.drop_last();
        lemma_groups_text_first(d);
        lemma_colon_groups_last(h.drop_first());
        assert(h.drop_first().drop_last() =~= d.drop_first());
        assert(d[0] == h[0]);
        assert(h.drop_first().last() == h.last());
        assert(groups_text(h) =~= hex(h[0] as nat) + colon_groups(h.drop_first()));
    }
}

/// Every character of a groups text is a hexadecimal digit or a colon.
proof fn lemma_groups_text_chars(h: Seq<u16>)
    ensures
        forall|i: int| 0 <= i < groups_text(h).len() ==> (#[trigger] groups_text(h)[i] == ':' || digit_value(
            groups_text(h)[i],
            16,
        ) is Some),
    decreases h.len(),
{
    reveal_strlit(":");
    if h.len() == 1 {
        lemma_hex_shape(h[0] as nat);
    } else if h.len() > 1 {
        lemma_groups_text_chars(h.drop_last());
        lemma_hex_shape(h.last() as nat);
        let a = groups_text(h.drop_last());
        let b = hex(h.last() as nat);
        assert forall|i: int| 0 <= i < groups_text(h).len() implies (#[trigger] groups_text(h)[i] == ':'
            || digit_value(groups_text(h)[i], 16) is Some) by {
            if i < a.len() {
                assert(groups_text(h)[i] == a[i]);
            } else if i > a.len() {
                assert(groups_text(h)[i] == b[i - a.len() - 1]);
            }
        }
    }
}

/// No dotted address can be read from text without a dot.
proof fn lemma_no_dot_no_ipv4(s: Seq<char>, pos: int)
    requires
        0 <= pos <= s.len(),
        !s.contains('.'),
    ensures
        read_ipv4(s, pos) is None,
{
    lemma_read_number_bounds(s, pos, 10, 3, false, 255);
    if let Some((a, p1)) = read_number(s, pos, 10, 3, false, 255) {
        if p1 < s.len() && s[p1] == '.' {
            assert(s.contains('.'));
        }
    }
}

/// Nothing is read as a number where no digit stands.
proof fn lemma_no_digit_no_number(s: Seq<char>, pos: int, radix: nat, max_digits: nat, z: bool, max_value: nat)
    requires
        0 <= pos <= s.len(),
        pos == s.len() || digit_value(s[pos], radix) is None,
    ensures
        read_number(s, pos, radix, max_digits, z, max_value) is None,
{
    if pos < s.len() {
        assert(s.skip(pos)[0] == s[pos]);
    } else {
        assert(s.skip(pos) =~= Seq::<char>::empty());
    }
}

/// Groups after the first, each after a colon, read back in a text without
/// dots, where what follows them ends the reading.
#[verifier::spinoff_prover]
#[verifier::rlimit(60)]
proof fn lemma_read_colon_groups(s: Seq<char>, pos: int, i: nat, limit: nat, h: Seq<u16>, after: Seq<char>)
    requires
        0 < i,
        i + h.len() <= limit,
        0 <= pos <= s.len(),
        s.skip(pos) == colon_groups(h) + after,
        !s.contains('.'),
        after.len() == 0 || digit_value(after[0], 16) is None,
        i + h.len() < limit ==> (after.len() == 0 || after[0] != ':' || after.len() == 1 || digit_value(
            after[1],
            16,
        ) is None),
    ensures
        read_groups(s, pos, i, limit) == (h, false, pos + colon_groups(h).len()),
    decreases h.len(),
{
    if h.len() == 0 {
        assert(s.skip(pos) =~= after);
        if i < limit && pos < s.len() && s[pos] == ':' {
            assert(after[0] == s[pos]);
            lemma_no_dot_no_ipv4(s, pos + 1);
            if pos + 1 < s.len() {
                assert(s[pos + 1] == after[1]);
            }
            lemma_no_digit_no_number(s, pos + 1, 16, 4, true, 0xffff);
        }
    } else {
        let r = h.drop_first();
        let x = hex(h[0] as nat);
        let tail = colon_groups(r) + after;
        assert(colon_groups(h) + after =~= seq![':'] + (x + tail));
        assert(s.skip(pos)[0] == ':');
        assert(s.skip(pos)[0] == s[pos]);
        lemma_skip_more(s, pos, 1);
        assert((seq![':'] + (x + tail)).skip(1) =~= x + tail);
        lemma_no_dot_no_ipv4(s, pos + 1);
        lemma_hex_shape(h[0] as nat);
        if tail.len() > 0 {
            if r.len() > 0 {
                assert(tail[0] == ':');
            } else {
                assert(tail[0] == after[0]);
            }
        }
        lemma_read_hex(s, pos + 1, h[0] as nat, tail);
        let p = pos + 1 + x.len();
        lemma_skip_more(s, pos + 1, x.len() as int);
        assert((x + tail).skip(x.len() as int) =~= tail);
        lemma_read_colon_groups(s, p, i + 1, limit, r, after);
        assert(seq![h[0] as nat as u16] + r =~= h);
    }
}

/// Groups read back from the start of a text without dots, where what
/// follows them ends the reading.
#[verifier::spinoff_prover]
#[verifier::rlimit(40)]
proof fn lemma_read_first_groups(s: Seq<char>, pos: int, limit: nat, h: Seq<u16>, after: Seq<char>)
    requires
        0 < h.len() <= limit,
        0 <= pos <= s.len(),
        s.skip(pos) == groups_text(h) + after,
        !s.contains('.'),
        after.len() == 0 || digit_value(after[0], 16) is None,
        h.len() < limit ==> (after.len() == 0 || after[0] != ':' || after.len() == 1 || digit_value(after[1], 16) is None),
    ensures
        read_groups(s, pos, 0, limit) == (h, false, pos + groups_text(h).len()),
{
    let r = h.drop_first();
    let x = hex(h[0] as nat);
    lemma_groups_text_first(h);
    let tail = colon_groups(r) + after;
    assert(groups_text(h) + after =~= x + tail);
    lemma_no_dot_no_ipv4(s, pos);
    if tail.len() > 0 {
        if r.len() > 0 {
            assert(tail[0] == ':');
        } else {
            assert(tail[0] == after[0]);
        }
    }
    lemma_read_hex(s, pos, h[0] as nat, tail);
    let p = pos + x.len();
    lemma_skip_more(s, pos, x.len() as int);
    assert((x + tail).skip(x.len() as int) =~= tail);
    lemma_read_colon_groups(s, p, 1, limit, r, after);
    assert(seq![h[0] as nat as u16] + r =~= h);
}

/// Both runs that the scan keeps lie within the groups and hold only zeros;
/// the current run ends at the last group.
proof fn lemma_zero_scan(g: Seq<u16>)
    ensures
        ({
            let (l, c) = zero_scan(g);
            &&& 0 <= l.0 && 0 <= l.1 && l.0 + l.1 <= g.len()
            &&& forall|k: int| l.0 <= k < l.0 + l.1 ==> g[k] == 0
            &&& 0 <= c.0 && 0 <= c.1 && c.0 + c.1 <= g.len()
            &&& forall|k: int| c.0 <= k < c.0 + c.1 ==> g[k] == 0
            &&& c.1 > 0 ==> c.0 + c.1 == g.len()
        }),
    decreases g.len(),
{
    if g.len() > 0 {
        let d = g.drop_last();
        lemma_zero_scan(d);
        assert forall|k: int| 0 <= k < d.len() implies d[k] == g[k] by {}
    }
}

/// Eight groups rebuilt from those before and after a run of zeros.
proof fn lemma_fill_zero_run(g: Seq<u16>, st: int, ln: int)
    requires
        g.len() == 8,
        0 <= st,
        0 <= ln,
        st + ln <= 8,
        forall|k: int| st <= k < st + ln ==> g[k] == 0,
    ensures
        fill_groups(g.take(st), g.skip(st + ln)) == g,
{
    let f = fill_groups(g.take(st), g.skip(st + ln));
    assert(f.len() == 8);
    assert forall|k: int| 0 <= k < 8 implies f[k] == g[k] by {
        if k < st {
        } else if k < st + ln {
        } else {
            assert(f[k] == g.skip(st + ln)[k - st - ln]);
        }
    }
    assert(f =~= g);
}

/// An IPv6 address not written in the dotted form reads back, up to the
/// closing bracket that follows it.
#[verifier::spinoff_prover]
#[verifier::rlimit(60)]
proof fn lemma_read_ipv6_plain(s: Seq<char>, g: Seq<u16>, rest: Seq<char>)
    requires
        g.len() == 8,
        !is_ipv4_mapped(g),
        1 <= s.len(),
        s.skip(1) == ipv6_text(g) + rest,
        rest.len() > 0,
        rest[0] == ']',
        !s.contains('.'),
    ensures
        read_ipv6(s, 1) == Some((g, 1 + ipv6_text(g).len() as int)),
{
    reveal_strlit("::");
    lemma_zero_scan(g);
    let (st, ln) = zero_scan(g).0;
    let t = ipv6_text(g);
    if ln > 1 {
        let head = g.take(st);
        let tail = g.skip(st + ln);
        let ht = groups_text(head);
        let tt = groups_text(tail);
        let after_head = seq![':', ':'] + (tt + rest);
        assert(t == ht + "::"@ + tt);
        assert(t + rest =~= ht + after_head);
        let hl: int = ht.len() as int;
        let p: int = 1 + hl;
        if st > 0 {
            lemma_read_first_groups(s, 1, 8, head, after_head);
        } else {
            assert(ht.len() == 0);
            assert(s.skip(1)[0] == s[1]);
            lemma_no_dot_no_ipv4(s, 1);
            lemma_no_digit_no_number(s, 1, 16, 4, true, 0xffff);
        }
        assert(read_groups(s, 1, 0, 8) == (head, false, p));
        assert(s.skip(1)[hl] == s[p]);
        assert(s.skip(1)[hl + 1] == s[p + 1]);
        assert(s[p] == ':' && s[p + 1] == ':');
        lemma_skip_more(s, 1, hl + 2);
        assert((ht + after_head).skip(hl + 2) =~= tt + rest);
        assert(s.skip(p + 2) == tt + rest);
        if tail.len() > 0 {
            lemma_read_first_groups(s, p + 2, (7 - st) as nat, tail, rest);
        } else {
            assert(tt.len() == 0);
            assert(s.skip(p + 2)[0] == s[p + 2]);
            lemma_no_dot_no_ipv4(s, p + 2);
            lemma_no_digit_no_number(s, p + 2, 16, 4, true, 0xffff);
        }
        assert(read_groups(s, p + 2, 0, (7 - st) as nat) == (tail, false, p + 2 + tt.len()));
        lemma_fill_zero_run(g, st, ln);
        assert(1 + t.len() == p + 2 + tt.len());
    } else {
        assert(t == groups_text(g));
        lemma_read_first_groups(s, 1, 8, g, rest);
    }
}

/// The group `0xffff` in hexadecimal.
proof fn lemma_hex_ffff()
    ensures
        hex(0xffff) == seq!['f', 'f', 'f', 'f'],
{
    assert(hex_digit(15) == 'f');
    reveal_with_fuel(hex, 4);
    assert(hex(0xffff) =~= seq!['f', 'f', 'f', 'f']);
}

/// A 16-bit group split into its two octets and joined again.
proof fn lemma_octets_join(x: u16)
    ensures
        ((x / 256) as u8) as nat * 256 + ((x % 256) as u8) as nat == x,
{
    assert((x / 256) * 256 + x % 256 == x) by (nonlinear_arith);
}

/// A dotted IPv4 address reads back, up to the closing bracket that follows it.
#[verifier::spinoff_prover]
#[verifier::rlimit(40)]
proof fn lemma_read_dotted(s: Seq<char>, pos: int, o: Seq<u8>, rest: Seq<char>)
    requires
        o.len() == 4,
        0 <= pos <= s.len(),
        s.skip(pos) == ipv4_text(o) + rest,
        rest.len() > 0,
        rest[0] == ']',
    ensures
        read_ipv4(s, pos) == Some((
            seq![o[0] as nat as u16, o[1] as nat as u16, o[2] as nat as u16, o[3] as nat as u16],
            pos + ipv4_text(o).len() as int,
        )),
{
    reveal_strlit(".");
    let d0 = decimal(o[0] as nat);
    let d1 = decimal(o[1] as nat);
    let d2 = decimal(o[2] as nat);
    let d3 = decimal(o[3] as nat);
    let r2 = d3 + rest;
    let r1 = d2 + (seq!['.'] + r2);
    let r0 = d1 + (seq!['.'] + r1);
    assert(ipv4_text(o) + rest =~= d0 + (seq!['.'] + r0));
    lemma_octet_at(s, pos, o[0], '.', r0);
    let p1: int = pos + d0.len() as int + 1;
    lemma_octet_at(s, p1, o[1], '.', r1);
    let p2: int = p1 + d1.len() + 1;
    lemma_octet_at(s, p2, o[2], '.', r2);
    let p3: int = p2 + d2.len() + 1;
    lemma_decimal_shape(o[3] as nat);
    lemma_read_decimal(s, p3, o[3] as nat, rest, 3, false, 255);
}

/// An IPv4-mapped IPv6 address in its dotted form reads back, up to the
/// closing bracket that follows it.
#[verifier::spinoff_prover]
#[verifier::rlimit(60)]
proof fn lemma_read_ipv6_mapped(s: Seq<char>, g: Seq<u16>, rest: Seq<char>)
    requires
        g.len() == 8,
        is_ipv4_mapped(g),
        1 <= s.len(),
        s.skip(1) == ipv6_text(g) + rest,
        rest.len() > 0,
        rest[0] == ']',
    ensures
        read_ipv6(s, 1) == Some((g, 1 + ipv6_text(g).len() as int)),
{
    reveal_strlit("::ffff:");
    lemma_hex_ffff();
    let o0 = (g[6] / 256) as u8;
    let o1 = (g[6] % 256) as u8;
    let o2 = (g[7] / 256) as u8;
    let o3 = (g[7] % 256) as u8;
    let o = seq![o0, o1, o2, o3];
    let v4 = ipv4_text(o) + rest;
    let hexf = seq!['f', 'f', 'f', 'f'];
    assert(ipv6_text(g) + rest =~= seq![':', ':'] + (hexf + (seq![':'] + v4)));
    // No group before the `::`.
    assert(s.skip(1)[0] == s[1]);
    assert(s[1] == ':');
    lemma_no_digit_no_number(s, 1, 10, 3, false, 255);
    lemma_no_digit_no_number(s, 1, 16, 4, true, 0xffff);
    assert(read_groups(s, 1, 0, 8) == (Seq::<u16>::empty(), false, 1int));
    assert(s.skip(1)[1] == s[2]);
    // The group `ffff`.
    lemma_skip_more(s, 1, 2);
    assert((seq![':', ':'] + (hexf + (seq![':'] + v4))).skip(2) =~= hexf + (seq![':'] + v4));
    assert(s.skip(3)[0] == s[3]);
    lemma_no_digit_no_number(s, 3, 10, 3, false, 255);
    lemma_read_hex(s, 3, 0xffff, seq![':'] + v4);
    assert(s.skip(3)[4] == s[7]);
    assert(s[7] == ':');
    lemma_skip_more(s, 3, 5);
    assert((hexf + (seq![':'] + v4)).skip(5) =~= v4);
    // The dotted address.
    lemma_read_dotted(s, 8, o, rest);
    let p4: int = 8 + ipv4_text(o).len() as int;
    let w = seq![o0 as nat as u16, o1 as nat as u16, o2 as nat as u16, o3 as nat as u16];
    lemma_octets_join(g[6]);
    lemma_octets_join(g[7]);
    let pair = seq![(w[0] * 256 + w[1]) as u16, (w[2] * 256 + w[3]) as u16];
    assert(pair == seq![g[6], g[7]]);
    assert(read_groups(s, 7, 1, 7) == (pair, true, p4));
    assert(read_groups(s, 3, 0, 7) == (seq![0xffffu16] + pair, true, p4));
    let tail = seq![0xffffu16] + pair;
    assert(fill_groups(Seq::<u16>::empty(), tail) =~= g);
    assert(p4 == 1 + ipv6_text(g).len());
}

/// The text of an IPv6 address not in the dotted form holds no dot.
proof fn lemma_plain_text_no_dot(g: Seq<u16>)
    requires
        g.len() == 8,
        !is_ipv4_mapped(g),
    ensures
        forall|i: int| 0 <= i < ipv6_text(g).len() ==> #[trigger] ipv6_text(g)[i] != '.',
{
    reveal_strlit("::");
    let t = ipv6_text(g);
    let (st, ln) = zero_scan(g).0;
    if ln > 1 {
        let ht = groups_text(g.take(st));
        let tt = groups_text(g.skip(st + ln));
        lemma_groups_text_chars(g.take(st));
        lemma_groups_text_chars(g.skip(st + ln));
        assert forall|i: int| 0 <= i < t.len() implies #[trigger] t[i] != '.' by {
            if i < ht.len() {
                assert(t[i] == ht[i]);
            } else if i >= ht.len() + 2 {
                assert(t[i] == tt[i - ht.len() - 2]);
            }
        }
    } else {
        lemma_groups_text_chars(g);
    }
}

proof fn lemma_socket_addr_v6(s: Seq<char>, g: Seq<u16>, p: int, port: nat)
    requires
        s.len() > 0,
        s[0] == '[',
        read_ipv4(s, 0) is None,
        read_ipv6(s, 1) == Some((g, p)),
        0 <= p < s.len(),
        s[p] == ']',
        read_port(s, p + 1) == Some((port, s.len() as int)),
    ensures
        socket_addr(s) == Some((true, g, port as u16)),
{
    reveal(socket_addr);
}

/// Law: the text of an IPv6 address in brackets and a port reads back as
/// that address and port.
#[verifier::spinoff_prover]
#[verifier::rlimit(60)]
pub proof fn lemma_ipv6_socket_addr_roundtrip(g: [u16; 8], port: u16)
    ensures
        socket_addr("["@ + ipv6_text(g@) + "]"@ + ":"@ + decimal(port as nat)) == Some((true, g@, port)),
{
    reveal_strlit("[");
    reveal_strlit("]");
    reveal_strlit(":");
    let t = ipv6_text(g@);
    let dp = decimal(port as nat);
    let rest = seq![']', ':'] + dp;
    let s = seq!['['] + (t + rest);
    assert("["@ + t + "]"@ + ":"@ + dp =~= s);
    assert(s.skip(1) =~= t + rest);
    lemma_decimal_shape(port as nat);
    if is_ipv4_mapped(g@) {
        lemma_read_ipv6_mapped(s, g@, rest);
    } else {
        lemma_plain_text_no_dot(g@);
        assert forall|i: int| 0 <= i < s.len() implies #[trigger] s[i] != '.' by {
            if 1 <= i < 1 + t.len() {
                assert(s[i] == t[i - 1]);
            } else if i >= 1 + t.len() + 2 {
                assert(s[i] == dp[i - 1 - t.len() - 2]);
            }
        }
        lemma_read_ipv6_plain(s, g@, rest);
    }
    let p: int = 1 + t.len() as int;
    assert(s[p] == ']');
    assert(s[p + 1] == ':');
    assert(s.skip(p + 2) =~= dp + Seq::<char>::empty());
    lemma_read_decimal(s, p + 2, port as nat, Seq::<char>::empty(), 0, true, 0xffff);
    assert(read_port(s, p + 1) == Some((port as nat, s.len() as int)));
    lemma_no_digit_no_number(s, 0, 10, 3, false, 255);
    lemma_socket_addr_v6(s, g@, p, port as nat);
}

/// Every character of an IPv6 address's text is a hexadecimal digit, a
/// colon or a dot.
pub proof fn lemma_ipv6_text_chars(g: Seq<u16>)
    requires
        g.len() == 8,
    ensures
        forall|i: int| 0 <= i < ipv6_text(g).len() ==> (#[trigger] ipv6_text(g)[i] == ':' || ipv6_text(g)[i] == '.'
            || digit_value(ipv6_text(g)[i], 16) is Some),
{
    let t = ipv6_text(g);
    if is_ipv4_mapped(g) {
        reveal_strlit("::ffff:");
        reveal_strlit(".");
        let o = seq![(g[6] / 256) as u8, (g[6] % 256) as u8, (g[7] / 256) as u8, (g[7] % 256) as u8];
        let d0 = decimal(o[0] as nat);
        let d1 = decimal(o[1] as nat);
        let d2 = decimal(o[2] as nat);
        let d3 = decimal(o[3] as nat);
        lemma_decimal_shape(o[0] as nat);
        lemma_decimal_shape(o[1] as nat);
        lemma_decimal_shape(o[2] as nat);
        lemma_decimal_shape(o[3] as nat);
        let parts = seq![':', ':', 'f', 'f', 'f', 'f', ':'] + d0 + seq!['.'] + d1 + seq!['.'] + d2 + seq!['.'] + d3;
        assert(t =~= parts);
        assert forall|i: int| 0 <= i < t.len() implies (#[trigger] t[i] == ':' || t[i] == '.' || digit_value(
            t[i],
            16,
        ) is Some) by {
            let a: int = 7 + d0.len() as int;
            let b: int = a + 1 + d1.len();
            let e: int = b + 1 + d2.len();
            if 7 <= i < a {
                assert(t[i] == d0[i - 7]);
            } else if a < i < b {
                assert(t[i] == d1[i - a - 1]);
            } else if b < i < e {
                assert(t[i] == d2[i - b - 1]);
            } else if i > e {
                assert(t[i] == d3[i - e - 1]);
            }
        }
    } else {
        reveal_strlit("::");
        let (st, ln) = zero_scan(g).0;
        if ln > 1 {
            let ht = groups_text(g.take(st));
            let tt = groups_text(g.skip(st + ln));
            lemma_groups_text_chars(g.take(st));
            lemma_groups_text_chars(g.skip(st + ln));
            assert forall|i: int| 0 <= i < t.len() implies (#[trigger] t[i] == ':' || t[i] == '.' || digit_value(
                t[i],
                16,
            ) is Some) by {
                if i < ht.len() {
                    assert(t[i] == ht[i]);
                } else if i >= ht.len() + 2 {
                    assert(t[i] == tt[i - ht.len() - 2]);
                }
            }
        } else {
            lemma_groups_text_chars(g);
        }
    }
}

} // verus!
