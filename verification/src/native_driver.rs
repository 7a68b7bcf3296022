//! The frame channel of the macOS and Windows virtual cameras: the NV12
//! payload size, the frame header, and the named pipe's name and errors.
use vstd::prelude::*;
use crate::text::{chars_of, decimal, owned, push_decimal, push_str, string_from_chars};

verus! {

broadcast use vstd::string::group_string_axioms;

/// Bytes of the header before each frame.
pub const FRAME_HEADER_SIZE: usize = 16;

/// The size of an NV12 frame of `width` by `height`: a luma byte per pixel
/// and half as many chroma bytes; both dimensions must be non-zero and even,
/// and the size must fit in a `usize`.
pub open spec fn nv12_payload_len(width: u32, height: u32) -> Result<nat, Seq<char>> {
    if width == 0 || height == 0 {
        Err("frame dimensions must be greater than zero"@)
    } else if width % 2 != 0 || height % 2 != 0 {
        Err("NV12 frame dimensions must be even"@)
    } else if width * height > usize::MAX {
        Err("frame dimensions overflow"@)
    } else if width * height + (width * height) / 2 > usize::MAX {
        Err("NV12 payload size overflow"@)
    } else {
        Ok((width * height + (width * height) / 2) as nat)
    }
}

/// The size of an NV12 frame of `width` by `height`, or why there is none.
pub fn expected_nv12_payload_len(width: u32, height: u32) -> (r: Result<usize, String>)
    ensures
        match (r, nv12_payload_len(width, height)) {
            (Ok(n), Ok(m)) => n == m,
            (Err(e), Err(m)) => e@ == m,
            _ => false,
        },
{
    if width == 0 || height == 0 {
        return Err(owned("frame dimensions must be greater than zero"));
    }
    if width % 2 != 0 || height % 2 != 0 {
        return Err(owned("NV12 frame dimensions must be even"));
    }
    assert((width as u64) * (height as u64) <= 0xffff_ffffu64 * 0xffff_ffffu64) by (nonlinear_arith)
        requires
            width <= 0xffff_ffffu32,
            height <= 0xffff_ffffu32,
    ;
    let pixels64: u64 = (width as u64) * (height as u64);
    if pixels64 > usize::MAX as u64 {
        return Err(owned("frame dimensions overflow"));
    }
    let pixels = pixels64 as usize;
    let chroma = pixels / 2;
    if pixels > usize::MAX - chroma {
        return Err(owned("NV12 payload size overflow"));
    }
    Ok(pixels + chroma)
}

/// The message of a payload whose size is not the frame's.
pub open spec fn payload_size_text(width: u32, height: u32, expected: nat, got: nat) -> Seq<char> {
    "invalid NV12 payload size for "@ + decimal(width as nat) + "x"@ + decimal(height as nat) + ": expected "@
        + decimal(expected) + " bytes, got "@ + decimal(got)
}

/// Checks that `len` bytes make an NV12 frame of `width` by `height`.
pub fn check_nv12_payload(width: u32, height: u32, len: usize) -> (r: Result<(), String>)
    ensures
        match nv12_payload_len(width, height) {
            Err(m) => r matches Err(e) && e@ == m,
            Ok(n) => if n == len {
                r is Ok
            } else {
                r matches Err(e) && e@ == payload_size_text(width, height, n, len as nat)
            },
        },
{
    let expected = match expected_nv12_payload_len(width, height) {
        Ok(n) => n,
        Err(e) => return Err(e),
    };
    if len == expected {
        return Ok(());
    }
    let mut out: Vec<char> = Vec::new();
    push_str(&mut out, "invalid NV12 payload size for ");
    push_decimal(&mut out, width as u64);
    push_str(&mut out, "x");
    push_decimal(&mut out, height as u64);
    push_str(&mut out, ": expected ");
    push_decimal(&mut out, expected as u64);
    push_str(&mut out, " bytes, got ");
    push_decimal(&mut out, len as u64);
    let e = string_from_chars(out.as_slice());
    assert(e@ =~= payload_size_text(width, height, expected as nat, len as nat));
    Err(e)
}

/// The little-endian bytes of `n`, lowest first.
pub open spec fn le_bytes(n: nat, count: nat) -> Seq<u8>
    decreases count,
{
    if count == 0 {
        seq![]
    } else {
        seq![(n % 256) as u8] + le_bytes(n / 256, (count - 1) as nat)
    }
}

fn push_le(out: &mut Vec<u8>, n: u64, count: usize)
    requires
        count <= 8,
    ensures
        final(out)@ == old(out)@ + le_bytes(n as nat, count as nat),
    decreases count,
{
    if count == 0 {
        assert(final(out)@ =~= old(out)@ + le_bytes(n as nat, 0));
        return;
    }
    out.push((n % 256) as u8);
    let ghost mid = out@;
    push_le(out, n / 256, count - 1);
    assert(final(out)@ =~= old(out)@ + le_bytes(n as nat, count as nat));
}

/// The header before each frame: width and height as 32-bit and the
/// timestamp as 64-bit little-endian numbers.
pub fn frame_header(width: u32, height: u32, timestamp_ns: u64) -> (h: Vec<u8>)
    ensures
        h@ == le_bytes(width as nat, 4) + le_bytes(height as nat, 4) + le_bytes(timestamp_ns as nat, 8),
        h@.len() == FRAME_HEADER_SIZE,
{
    let mut h: Vec<u8> = Vec::new();
    push_le(&mut h, width as u64, 4);
    push_le(&mut h, height as u64, 4);
    push_le(&mut h, timestamp_ns, 8);
    proof {
        lemma_le_bytes_len(width as nat, 4);
        lemma_le_bytes_len(height as nat, 4);
        lemma_le_bytes_len(timestamp_ns as nat, 8);
    }
    assert(h@ =~= le_bytes(width as nat, 4) + le_bytes(height as nat, 4) + le_bytes(timestamp_ns as nat, 8));
    h
}

proof fn lemma_le_bytes_len(n: nat, count: nat)
    ensures
        le_bytes(n, count).len() == count,
    decreases count,
{
    if count > 0 {
        lemma_le_bytes_len(n / 256, (count - 1) as nat);
    }
}

/// The UTF-16 code units of one character.
pub open spec fn utf16_of(c: char) -> Seq<u16> {
    let v = (c as u32) as nat;
    if v < 0x10000 {
        seq![v as u16]
    } else {
        let w = (v - 0x10000) as nat;
        seq![(0xd800 + w / 0x400) as u16, (0xdc00 + w % 0x400) as u16]
    }
}

/// The UTF-16 code units of a text.
pub open spec fn utf16(s: Seq<char>) -> Seq<u16>
    decreases s.len(),
{
    if s.len() == 0 {
        seq![]
    } else {
        utf16(s.drop_last()) + utf16_of(s.last())
    }
}

/// A text as the wide, NUL-terminated string Windows functions take.
pub fn windows_wide_string(value: &str) -> (w: Vec<u16>)
    ensures
        w@ == utf16(value@).push(0u16),
{
    let c = chars_of(value);
    let mut w: Vec<u16> = Vec::new();
    let mut i: usize = 0;
    while i < c.len()
        invariant
            i <= c@.len(),
            c@ == value@,
            w@ == utf16(c@.take(i as int)),
        decreases c@.len() - i,
    {
        let ch = c[i];
        let v: u32 = ch as u32;
        proof {
            vstd::utf8::char_is_scalar(ch);
        }
        assert(v <= 0x10ffff);
        if v < 0x10000 {
            w.push(v as u16);
        } else {
            let x: u32 = v - 0x10000;
            w.push((0xd800 + x / 0x400) as u16);
            w.push((0xdc00 + x % 0x400) as u16);
        }
        assert(c@.take(i + 1).drop_last() =~= c@.take(i as int));
        assert(w@ =~= utf16(c@.take(i + 1)));
        i = i + 1;
    }
    assert(c@.take(c@.len() as int) =~= c@);
    w.push(0);
    w
}

/// The name of the DirectShow filter's pipe.
pub open spec fn pipe_name() -> Seq<char> {
    "\\\\.\\pipe\\PhoneCam"@
}

/// The kind of error a failed pipe connection is reported as.
#[derive(Debug, Clone, Copy, PartialEq, Eq, Structural)]
pub enum PipeErrorKind {
    /// The pipe is not there.
    NotFound,
    /// The pipe is busy.
    WouldBlock,
    /// The kind of the system error.
    Unchanged,
}

/// Windows error codes the pipe connection tells apart.
pub const ERROR_FILE_NOT_FOUND: i32 = 2;
pub const ERROR_PATH_NOT_FOUND: i32 = 3;
pub const ERROR_SEM_TIMEOUT: i32 = 121;
pub const ERROR_PIPE_BUSY: i32 = 231;

/// How a failed connection to the pipe is reported, given the system error
/// code and the system error's text.
pub open spec fn connect_error(code: Option<i32>, source: Seq<char>) -> (PipeErrorKind, Seq<char>) {
    if code == Some(ERROR_FILE_NOT_FOUND) || code == Some(ERROR_PATH_NOT_FOUND) {
        (
            PipeErrorKind::NotFound,
            "named pipe "@ + pipe_name() + " is unavailable (is the DirectShow filter running?): "@ + source,
        )
    } else if code == Some(ERROR_PIPE_BUSY) {
        (PipeErrorKind::WouldBlock, "named pipe "@ + pipe_name() + " is currently busy: "@ + source)
    } else {
        (PipeErrorKind::Unchanged, "failed to connect to named pipe "@ + pipe_name() + ": "@ + source)
    }
}

/// How a failed connection to the pipe is reported.
pub fn map_connect_error(code: Option<i32>, source: &str) -> (r: (PipeErrorKind, String))
    ensures
        (r.0, r.1@) == connect_error(code, source@),
{
    let mut out: Vec<char> = Vec::new();
    let kind = if code == Some(ERROR_FILE_NOT_FOUND) || code == Some(ERROR_PATH_NOT_FOUND) {
        push_str(&mut out, "named pipe \\\\.\\pipe\\PhoneCam is unavailable (is the DirectShow filter running?): ");
        PipeErrorKind::NotFound
    } else if code == Some(ERROR_PIPE_BUSY) {
        push_str(&mut out, "named pipe \\\\.\\pipe\\PhoneCam is currently busy: ");
        PipeErrorKind::WouldBlock
    } else {
        push_str(&mut out, "failed to connect to named pipe \\\\.\\pipe\\PhoneCam: ");
        PipeErrorKind::Unchanged
    };
    proof {
        reveal_strlit("named pipe \\\\.\\pipe\\PhoneCam is unavailable (is the DirectShow filter running?): ");
        reveal_strlit("named pipe \\\\.\\pipe\\PhoneCam is currently busy: ");
        reveal_strlit("failed to connect to named pipe \\\\.\\pipe\\PhoneCam: ");
        reveal_strlit("named pipe ");
        reveal_strlit("\\\\.\\pipe\\PhoneCam");
        reveal_strlit(" is unavailable (is the DirectShow filter running?): ");
        reveal_strlit(" is currently busy: ");
        reveal_strlit("failed to connect to named pipe ");
        reveal_strlit(": ");
    }
    push_str(&mut out, source);
    let m = string_from_chars(out.as_slice());
    assert(m@ =~= connect_error(code, source@).1);
    (kind, m)
}

/// What to do after opening the pipe failed with `code`: wait for a busy
/// pipe, or report the error.
pub fn after_open_failure(code: Option<i32>, source: &str) -> (r: Option<(PipeErrorKind, String)>)
    ensures
        code == Some(ERROR_PIPE_BUSY) ==> r is None,
        code != Some(ERROR_PIPE_BUSY) ==> (r matches Some(e) && (e.0, e.1@) == connect_error(code, source@)),
{
    if code == Some(ERROR_PIPE_BUSY) {
        return None;
    }
    Some(map_connect_error(code, source))
}

/// The message of a pipe that stayed busy through the wait.
pub open spec fn still_busy_text() -> Seq<char> {
    "named pipe "@ + pipe_name() + " is busy and did not become available within 1000ms"@
}

/// How a failed wait for the pipe is reported: a timeout means the pipe
/// stayed busy.
pub fn after_wait_failure(code: Option<i32>, source: &str) -> (r: (PipeErrorKind, String))
    ensures
        code == Some(ERROR_SEM_TIMEOUT) ==> r.0 == PipeErrorKind::WouldBlock && r.1@ == still_busy_text(),
        code != Some(ERROR_SEM_TIMEOUT) ==> (r.0, r.1@) == connect_error(code, source@),
{
    if code == Some(ERROR_SEM_TIMEOUT) {
        proof {
            reveal_strlit("named pipe \\\\.\\pipe\\PhoneCam is busy and did not become available within 1000ms");
            reveal_strlit("named pipe ");
            reveal_strlit("\\\\.\\pipe\\PhoneCam");
            reveal_strlit(" is busy and did not become available within 1000ms");
        }
        let m = owned("named pipe \\\\.\\pipe\\PhoneCam is busy and did not become available within 1000ms");
        assert(m@ =~= still_busy_text());
        return (PipeErrorKind::WouldBlock, m);
    }
    map_connect_error(code, source)
}

} // verus!
