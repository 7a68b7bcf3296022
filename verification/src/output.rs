//! Native output formats, the format events a native camera driver reports,
//! and the packing of NV12 pictures for those drivers.
use vstd::prelude::*;
use crate::arith::lemma_mul_le;
use crate::text::{decimal, owned, push_decimal, push_str, string_from_chars};
use crate::decode::{copy_plane_rows, copy_rows_error, is_tight_rows, Nv12Frame};
use crate::protocol::{
    profile_check, validation_error_text,
    is_supported_dimensions, is_supported_frame_rate, supported_dimensions,
    supported_frame_rates, StreamProfile,
};

verus! {

broadcast use vstd::string::group_string_axioms;

/// Pixel layouts the native outputs take.
#[derive(Debug, Clone, Copy, PartialEq, Eq, Structural)]
pub enum NativePixelFormat {
    Nv12,
    Yuyv,
}

/// The exact format a native output was committed to.
#[derive(Debug, Clone, Copy, PartialEq, Eq, Structural)]
pub struct NativeOutputFormat {
    pub width: u16,
    pub height: u16,
    pub fps: u8,
    pub pixel_format: NativePixelFormat,
}

/// A native driver's report of the format its consumer selected.
#[derive(Debug, Clone, Copy, PartialEq, Eq, Structural)]
pub struct NativeFormatEvent {
    pub format: NativeOutputFormat,
}

/// Size in bytes of a format event.
pub const FORMAT_EVENT_SIZE: usize = 16;

/// The little-endian value of four bytes.
pub open spec fn le_u32_value(b0: u8, b1: u8, b2: u8, b3: u8) -> nat {
    b0 as nat + 256 * b1 as nat + 65536 * b2 as nat + 16777216 * b3 as nat
}

/// The little-endian bytes of a value below 2^32.
pub open spec fn le_u32_bytes(n: nat) -> Seq<u8> {
    seq![(n % 256) as u8, ((n / 256) % 256) as u8, ((n / 65536) % 256) as u8, ((n / 16777216) % 256) as u8]
}

/// The tag that opens every format event: "PCFM".
pub open spec fn format_event_magic() -> Seq<u8> {
    seq![0x50u8, 0x43u8, 0x46u8, 0x4du8]
}

/// The wire code of a pixel format.
pub open spec fn pixel_format_code(p: NativePixelFormat) -> u8 {
    match p {
        NativePixelFormat::Nv12 => 0,
        NativePixelFormat::Yuyv => 1,
    }
}

/// The 16 bytes of a format event.
pub open spec fn format_event_bytes(e: NativeFormatEvent) -> Seq<u8> {
    format_event_magic() + le_u32_bytes(e.format.width as nat) + le_u32_bytes(e.format.height as nat)
        + seq![e.format.fps, pixel_format_code(e.format.pixel_format), 0u8, 0u8]
}

/// What parsing a format event yields: the header, the two sizes, the
/// supported tuple, the pixel format and the reserved bytes, in that order.
pub open spec fn parse_format_event_result(b: Seq<u8>) -> Result<NativeFormatEvent, Seq<char>> {
    if b.len() != 16 || b.take(4) != format_event_magic() {
        Err("invalid native format event header"@)
    } else {
        let width = le_u32_value(b[4], b[5], b[6], b[7]);
        let height = le_u32_value(b[8], b[9], b[10], b[11]);
        if width > 0xffff {
            Err("native format event width exceeds u16"@)
        } else if height > 0xffff {
            Err("native format event height exceeds u16"@)
        } else if !supported_dimensions().contains((width as u16, height as u16))
            || !supported_frame_rates().contains(b[12]) {
            Err("unsupported native format event tuple"@)
        } else if b[13] > 1 {
            Err("unsupported native pixel format"@)
        } else if b[14] != 0 || b[15] != 0 {
            Err("native format event reserved bytes must be zero"@)
        } else {
            Ok(
                NativeFormatEvent {
                    format: NativeOutputFormat {
                        width: width as u16,
                        height: height as u16,
                        fps: b[12],
                        pixel_format: if b[13] == 0 {
                            NativePixelFormat::Nv12
                        } else {
                            NativePixelFormat::Yuyv
                        },
                    },
                },
            )
        }
    }
}

fn le_u32(b0: u8, b1: u8, b2: u8, b3: u8) -> (n: u32)
    ensures
        n == le_u32_value(b0, b1, b2, b3),
{
    b0 as u32 + 256 * (b1 as u32) + 65536 * (b2 as u32) + 16777216 * (b3 as u32)
}

impl NativeFormatEvent {
    /// Reads a 16-byte format event: "PCFM", width and height as little-endian
    /// `u32`, the frame rate, the pixel format code and two zero bytes. Only
    /// the protocol's resolutions and frame rates are accepted.
    pub fn parse(bytes: &[u8]) -> (res: Result<Self, String>)
        ensures
            match (res, parse_format_event_result(bytes@)) {
                (Ok(e), Ok(f)) => e == f,
                (Err(m), Err(n)) => m@ == n,
                _ => false,
            },
    {
        proof {
            reveal_strlit("invalid native format event header");
            reveal_strlit("native format event width exceeds u16");
            reveal_strlit("native format event height exceeds u16");
            reveal_strlit("unsupported native format event tuple");
            reveal_strlit("unsupported native pixel format");
            reveal_strlit("native format event reserved bytes must be zero");
        }
        if bytes.len() != FORMAT_EVENT_SIZE || bytes[0] != 0x50 || bytes[1] != 0x43 || bytes[2]
            != 0x46 || bytes[3] != 0x4d {
            proof {
                if bytes@.len() == 16 && bytes@.take(4) == format_event_magic() {
                    assert(bytes@.take(4)[0] == bytes@[0]);
                    assert(bytes@.take(4)[1] == bytes@[1]);
                    assert(bytes@.take(4)[2] == bytes@[2]);
                    assert(bytes@.take(4)[3] == bytes@[3]);
                }
            }
            return Err("invalid native format event header".to_owned());
        }
        assert(bytes@.take(4) =~= format_event_magic());
        let width_u32 = le_u32(bytes[4], bytes[5], bytes[6], bytes[7]);
        let height_u32 = le_u32(bytes[8], bytes[9], bytes[10], bytes[11]);
        if width_u32 > 0xffff {
            return Err("native format event width exceeds u16".to_owned());
        }
        if height_u32 > 0xffff {
            return Err("native format event height exceeds u16".to_owned());
        }
        let width = width_u32 as u16;
        let height = height_u32 as u16;
        let fps = bytes[12];
        if !is_supported_dimensions(width, height) || !is_supported_frame_rate(fps) {
            return Err("unsupported native format event tuple".to_owned());
        }
        let pixel_format = if bytes[13] == 0 {
            NativePixelFormat::Nv12
        } else if bytes[13] == 1 {
            NativePixelFormat::Yuyv
        } else {
            return Err("unsupported native pixel format".to_owned());
        };
        if bytes[14] != 0 || bytes[15] != 0 {
            return Err("native format event reserved bytes must be zero".to_owned());
        }
        Ok(Self { format: NativeOutputFormat { width, height, fps, pixel_format } })
    }

    /// Writes this event in the layout that `parse` reads.
    pub fn encode(self) -> (bytes: [u8; 16])
        ensures
            bytes@ == format_event_bytes(self),
    {
        let w = self.format.width;
        let h = self.format.height;
        let code: u8 = match self.format.pixel_format {
            NativePixelFormat::Nv12 => 0,
            NativePixelFormat::Yuyv => 1,
        };
        let bytes: [u8; 16] = [
            0x50,
            0x43,
            0x46,
            0x4d,
            (w % 256) as u8,
            (w / 256) as u8,
            0,
            0,
            (h % 256) as u8,
            (h / 256) as u8,
            0,
            0,
            self.format.fps,
            code,
            0,
            0,
        ];
        assert(bytes@ =~= format_event_bytes(self));
        bytes
    }
}

/// Law: a format event for one of the protocol's resolutions and frame rates
/// reads back as itself.
pub proof fn lemma_format_event_roundtrip(e: NativeFormatEvent)
    requires
        supported_dimensions().contains((e.format.width, e.format.height)),
        supported_frame_rates().contains(e.format.fps),
    ensures
        parse_format_event_result(format_event_bytes(e)) == Ok::<NativeFormatEvent, Seq<char>>(e),
{
    let b = format_event_bytes(e);
    assert(b.take(4) =~= format_event_magic());
    assert(le_u32_value(b[4], b[5], b[6], b[7]) == e.format.width as nat);
    assert(le_u32_value(b[8], b[9], b[10], b[11]) == e.format.height as nat);
}

/// Four bytes read as a little-endian value and written back are the same bytes.
proof fn lemma_le_u32_bytes_value(b0: u8, b1: u8, b2: u8, b3: u8)
    ensures
        le_u32_bytes(le_u32_value(b0, b1, b2, b3)) == seq![b0, b1, b2, b3],
{
    let v = le_u32_value(b0, b1, b2, b3) as int;
    let q1 = b1 as int + 256 * b2 as int + 65536 * b3 as int;
    let q2 = b2 as int + 256 * b3 as int;
    assert(v == q1 * 256 + b0 as int);
    vstd::arithmetic::div_mod::lemma_fundamental_div_mod_converse(v, 256, q1, b0 as int);
    assert(q1 == q2 * 256 + b1 as int);
    vstd::arithmetic::div_mod::lemma_fundamental_div_mod_converse(q1, 256, q2, b1 as int);
    assert(v == q2 * 65536 + (b0 as int + 256 * b1 as int));
    vstd::arithmetic::div_mod::lemma_fundamental_div_mod_converse(v, 65536, q2, b0 as int + 256 * b1 as int);
    assert(q2 == b3 as int * 256 + b2 as int);
    vstd::arithmetic::div_mod::lemma_fundamental_div_mod_converse(q2, 256, b3 as int, b2 as int);
    assert(v == b3 as int * 16777216 + (b0 as int + 256 * b1 as int + 65536 * b2 as int));
    vstd::arithmetic::div_mod::lemma_fundamental_div_mod_converse(
        v,
        16777216,
        b3 as int,
        b0 as int + 256 * b1 as int + 65536 * b2 as int,
    );
    vstd::arithmetic::div_mod::lemma_fundamental_div_mod_converse(b3 as int, 256, 0, b3 as int);
    assert(le_u32_bytes(v as nat) =~= seq![b0, b1, b2, b3]);
}

/// Law: a format event is accepted only in its own encoding: every byte
/// string that parses is exactly the bytes of the event it parses to.
pub proof fn lemma_format_event_canonical(b: Seq<u8>)
    requires
        parse_format_event_result(b) is Ok,
    ensures
        format_event_bytes(parse_format_event_result(b)->Ok_0) == b,
{
    let e = parse_format_event_result(b)->Ok_0;
    lemma_le_u32_bytes_value(b[4], b[5], b[6], b[7]);
    lemma_le_u32_bytes_value(b[8], b[9], b[10], b[11]);
    assert(b.take(4) == format_event_magic());
    assert(b[0] == b.take(4)[0] && b[1] == b.take(4)[1] && b[2] == b.take(4)[2] && b[3] == b.take(4)[3]);
    assert(format_event_bytes(e) =~= b);
}

/// The messages of `packed_nv12`'s checks, in order.
pub open spec fn packed_nv12_error(f: Nv12Frame) -> Option<Seq<char>> {
    let w = f.width as int;
    let h = f.height as int;
    if w == 0 || h == 0 || w % 2 != 0 || h % 2 != 0 || f.y_stride < w || f.uv_stride < w {
        Some("invalid NV12 frame layout for native output driver"@)
    } else if f.y_stride * h > usize::MAX {
        Some("NV12 Y plane size overflow"@)
    } else if f.uv_stride * (h / 2) > usize::MAX {
        Some("NV12 UV plane size overflow"@)
    } else if f.y_plane@.len() < f.y_stride * h || f.uv_plane@.len() < f.uv_stride * (h / 2) {
        Some("NV12 frame planes are shorter than their stride layout"@)
    } else if w * h + (w * h) / 2 > usize::MAX {
        Some("NV12 output size overflow"@)
    } else {
        None
    }
}

fn failure(message: &str) -> (res: Result<Vec<u8>, String>)
    ensures
        res matches Err(m) && m@ == message@,
{
    Err(message.to_owned())
}

/// Packs a strided NV12 picture tightly: the visible luma rows, then the
/// visible chroma rows.
pub fn packed_nv12(frame: &Nv12Frame) -> (res: Result<Vec<u8>, String>)
    ensures
        match packed_nv12_error(*frame) {
            Some(m) => res matches Err(e) && e@ == m,
            None => res matches Ok(data) && exists|y: Seq<u8>, uv: Seq<u8>|
                is_tight_rows(
                    frame.y_plane@,
                    frame.y_stride as int,
                    frame.width as int,
                    frame.height as int,
                    y,
                ) && is_tight_rows(
                    frame.uv_plane@,
                    frame.uv_stride as int,
                    frame.width as int,
                    frame.height as int / 2,
                    uv,
                ) && data@ == y + uv,
        },
{
    proof {
        reveal_strlit("invalid NV12 frame layout for native output driver");
        reveal_strlit("NV12 Y plane size overflow");
        reveal_strlit("NV12 UV plane size overflow");
        reveal_strlit("NV12 frame planes are shorter than their stride layout");
        reveal_strlit("NV12 output size overflow");
    }
    let width = frame.width as usize;
    let height = frame.height as usize;
    if width == 0 || height == 0 || width % 2 != 0 || height % 2 != 0 || frame.y_stride < width
        || frame.uv_stride < width {
        return failure("invalid NV12 frame layout for native output driver");
    }
    let required_y = match frame.y_stride.checked_mul(height) {
        Some(n) => n,
        None => return failure("NV12 Y plane size overflow"),
    };
    let required_uv = match frame.uv_stride.checked_mul(height / 2) {
        Some(n) => n,
        None => return failure("NV12 UV plane size overflow"),
    };
    if frame.y_plane.len() < required_y || frame.uv_plane.len() < required_uv {
        return failure("NV12 frame planes are shorter than their stride layout");
    }
    proof {
        lemma_mul_le(width as int, height as int, frame.y_stride as int, height as int);
    }
    let pixels = width * height;
    if pixels > usize::MAX - pixels / 2 {
        return failure("NV12 output size overflow");
    }
    let y = copy_plane_rows(frame.y_plane.as_slice(), frame.y_stride, width, height);
    let uv = copy_plane_rows(frame.uv_plane.as_slice(), frame.uv_stride, width, height / 2);
    match (y, uv) {
        (Ok(mut data), Ok(uv)) => {
            let ghost y_rows = data@;
            let mut i: usize = 0;
            while i < uv.len()
                invariant
                    i <= uv@.len(),
                    data@ == y_rows + uv@.take(i as int),
                decreases uv@.len() - i,
            {
                data.push(uv[i]);
                assert(uv@.take(i + 1) =~= uv@.take(i as int).push(uv@[i as int]));
                i = i + 1;
            }
            assert(uv@.take(uv@.len() as int) =~= uv@);
            Ok(data)
        },
        _ => {
            proof {
                assert(copy_rows_error(frame.y_plane@.len() as int, frame.y_stride as int, width as int, height as int) is None);
                assert(copy_rows_error(frame.uv_plane@.len() as int, frame.uv_stride as int, width as int, (height / 2) as int) is None);
            }
            failure("NV12 output size overflow")
        },
    }
}

/// Which native output a device drives: the Linux virtual camera, which
/// takes YUYV, or the macOS or Windows one, which take NV12.
#[derive(Debug, Clone, Copy, PartialEq, Eq, Structural)]
pub enum OutputKind {
    V4l2,
    Cmio,
    DirectShow,
}

/// The pixel layout an output takes.
pub open spec fn kind_pixel_format(k: OutputKind) -> NativePixelFormat {
    match k {
        OutputKind::V4l2 => NativePixelFormat::Yuyv,
        _ => NativePixelFormat::Nv12,
    }
}

/// What an output device knows of its stream: its kind and the profile it
/// was committed to.
#[derive(Debug, Clone, Copy, PartialEq, Eq, Structural)]
pub struct OutputState {
    pub kind: OutputKind,
    pub committed_profile: Option<StreamProfile>,
}

/// The message of a profile the output cannot take.
pub open spec fn unsupported_output_text(p: StreamProfile) -> Option<Seq<char>> {
    match profile_check(p) {
        Err(e) => Some("unsupported output profile: "@ + validation_error_text(e)),
        Ok(()) => None,
    }
}

/// The `Debug` text of a pixel layout.
pub open spec fn pixel_format_text(p: NativePixelFormat) -> Seq<char> {
    match p {
        NativePixelFormat::Nv12 => "Nv12"@,
        NativePixelFormat::Yuyv => "Yuyv"@,
    }
}

/// The name under which a native output reports its choice.
pub open spec fn kind_name(k: OutputKind) -> Seq<char> {
    match k {
        OutputKind::V4l2 => "V4L2"@,
        OutputKind::Cmio => "CMIO"@,
        OutputKind::DirectShow => "DirectShow"@,
    }
}

/// The message of a native output that chose another format than asked.
pub open spec fn native_mismatch_text(k: OutputKind, event: NativeFormatEvent, p: StreamProfile) -> Seq<char> {
    kind_name(k) + " selected "@ + decimal(event.format.width as nat) + "x"@ + decimal(event.format.height as nat)
        + "@"@ + decimal(event.format.fps as nat) + " "@ + pixel_format_text(event.format.pixel_format)
        + ", not requested "@ + decimal(p.width as nat) + "x"@ + decimal(p.height as nat) + "@"@ + decimal(
        p.fps as nat,
    ) + " NV12"@
}

impl OutputState {
    /// An output of `kind` with nothing committed.
    pub fn new(kind: OutputKind) -> (s: Self)
        ensures
            s.kind == kind,
            s.committed_profile is None,
    {
        OutputState { kind, committed_profile: None }
    }

    /// Checks that the output could take `profile`: it must be a supported one.
    pub fn preflight_profile(profile: &StreamProfile) -> (r: Result<(), String>)
        ensures
            match unsupported_output_text(*profile) {
                Some(m) => r matches Err(e) && e@ == m,
                None => r is Ok,
            },
    {
        match profile.validate() {
            Ok(()) => Ok(()),
            Err(e) => {
                let mut out: Vec<char> = Vec::new();
                push_str(&mut out, "unsupported output profile: ");
                let t = e.message();
                push_str(&mut out, t.as_str());
                let m = string_from_chars(out.as_slice());
                assert(m@ =~= "unsupported output profile: "@ + validation_error_text(e));
                Err(m)
            },
        }
    }

    /// Checks the format a native output reports it selected against the
    /// profile being committed: the same size and rate, in NV12.
    pub fn check_native_event(&self, profile: &StreamProfile, event: NativeFormatEvent) -> (r: Result<(), String>)
        ensures
            (event.format.width == profile.width && event.format.height == profile.height && event.format.fps
                == profile.fps && event.format.pixel_format == NativePixelFormat::Nv12) ==> r is Ok,
            !(event.format.width == profile.width && event.format.height == profile.height && event.format.fps
                == profile.fps && event.format.pixel_format == NativePixelFormat::Nv12) ==> (r matches Err(m)
                && m@ == native_mismatch_text(self.kind, event, *profile)),
    {
        let f = event.format;
        if f.width == profile.width && f.height == profile.height && f.fps == profile.fps && f.pixel_format
            == NativePixelFormat::Nv12 {
            return Ok(());
        }
        let mut out: Vec<char> = Vec::new();
        match self.kind {
            OutputKind::V4l2 => push_str(&mut out, "V4L2"),
            OutputKind::Cmio => push_str(&mut out, "CMIO"),
            OutputKind::DirectShow => push_str(&mut out, "DirectShow"),
        }
        push_str(&mut out, " selected ");
        push_decimal(&mut out, f.width as u64);
        push_str(&mut out, "x");
        push_decimal(&mut out, f.height as u64);
        push_str(&mut out, "@");
        push_decimal(&mut out, f.fps as u64);
        push_str(&mut out, " ");
        match f.pixel_format {
            NativePixelFormat::Nv12 => push_str(&mut out, "Nv12"),
            NativePixelFormat::Yuyv => push_str(&mut out, "Yuyv"),
        }
        push_str(&mut out, ", not requested ");
        push_decimal(&mut out, profile.width as u64);
        push_str(&mut out, "x");
        push_decimal(&mut out, profile.height as u64);
        push_str(&mut out, "@");
        push_decimal(&mut out, profile.fps as u64);
        push_str(&mut out, " NV12");
        let m = string_from_chars(out.as_slice());
        assert(m@ =~= native_mismatch_text(self.kind, event, *profile));
        Err(m)
    }

    /// Records that the output now runs `profile`.
    pub fn committed(&mut self, profile: StreamProfile)
        ensures
            final(self).kind == old(self).kind,
            final(self).committed_profile == Some(profile),
    {
        self.committed_profile = Some(profile);
    }

    /// The format the output runs, once committed.
    pub fn output_format(&self) -> (f: Option<NativeOutputFormat>)
        ensures
            match self.committed_profile {
                Some(p) => f == Some(
                    NativeOutputFormat {
                        width: p.width,
                        height: p.height,
                        fps: p.fps,
                        pixel_format: kind_pixel_format(self.kind),
                    },
                ),
                None => f is None,
            },
    {
        match self.committed_profile {
            Some(p) => Some(
                NativeOutputFormat {
                    width: p.width,
                    height: p.height,
                    fps: p.fps,
                    pixel_format: match self.kind {
                        OutputKind::V4l2 => NativePixelFormat::Yuyv,
                        _ => NativePixelFormat::Nv12,
                    },
                },
            ),
            None => None,
        }
    }

    /// Checks that a decoded picture fits the committed profile before it
    /// is written.
    pub fn check_frame(&self, width: u32, height: u32) -> (r: Result<StreamProfile, String>)
        ensures
            match self.committed_profile {
                None => r matches Err(m) && m@ == "output profile has not been committed"@,
                Some(p) => if width == p.width && height == p.height {
                    r == Ok::<StreamProfile, String>(p)
                } else {
                    r matches Err(m) && m@ == frame_mismatch_text(self.kind, width, height, p)
                },
            },
    {
        let p = match self.committed_profile {
            Some(p) => p,
            None => return Err(owned("output profile has not been committed")),
        };
        if width == p.width as u32 && height == p.height as u32 {
            return Ok(p);
        }
        match self.kind {
            OutputKind::V4l2 => {
                let mut out: Vec<char> = Vec::new();
                push_str(&mut out, "decoded frame ");
                push_decimal(&mut out, width as u64);
                push_str(&mut out, "x");
                push_decimal(&mut out, height as u64);
                push_str(&mut out, " does not match committed input ");
                push_decimal(&mut out, p.width as u64);
                push_str(&mut out, "x");
                push_decimal(&mut out, p.height as u64);
                let m = string_from_chars(out.as_slice());
                assert(m@ =~= frame_mismatch_text(self.kind, width, height, p));
                Err(m)
            },
            _ => Err(owned("decoded frame does not match committed input profile")),
        }
    }
}

/// The message of a decoded picture that does not fit the committed profile.
pub open spec fn frame_mismatch_text(k: OutputKind, width: u32, height: u32, p: StreamProfile) -> Seq<char> {
    match k {
        OutputKind::V4l2 => "decoded frame "@ + decimal(width as nat) + "x"@ + decimal(height as nat)
            + " does not match committed input "@ + decimal(p.width as nat) + "x"@ + decimal(p.height as nat),
        _ => "decoded frame does not match committed input profile"@,
    }
}

} // verus!
