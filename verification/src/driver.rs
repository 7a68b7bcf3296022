//! The Linux virtual camera: the v4l2loopback module check, pixel formats,
//! and the checks on what the driver reports back.
use vstd::prelude::*;
use crate::adb_search::join_path;
use crate::text::{decimal, owned, push_chars, push_decimal, push_str, string_from_chars};

verus! {

broadcast use vstd::string::group_string_axioms;

/// Pixel formats the virtual camera can be given.
#[derive(Debug, Clone, Copy, PartialEq, Eq, Structural)]
pub enum PixelFormat {
    YUYV,
    MJPEG,
    RGB24,
    NV12,
}

/// The four-character code of a pixel format, as bytes.
pub open spec fn fourcc_of(f: PixelFormat) -> Seq<u8> {
    match f {
        PixelFormat::YUYV => seq![0x59u8, 0x55u8, 0x59u8, 0x56u8],
        PixelFormat::MJPEG => seq![0x4du8, 0x4au8, 0x50u8, 0x47u8],
        PixelFormat::RGB24 => seq![0x52u8, 0x47u8, 0x42u8, 0x33u8],
        PixelFormat::NV12 => seq![0x4eu8, 0x56u8, 0x31u8, 0x32u8],
    }
}

/// The four-character code of a pixel format, as text.
pub open spec fn fourcc_name(f: PixelFormat) -> Seq<char> {
    match f {
        PixelFormat::YUYV => "YUYV"@,
        PixelFormat::MJPEG => "MJPG"@,
        PixelFormat::RGB24 => "RGB3"@,
        PixelFormat::NV12 => "NV12"@,
    }
}

impl PixelFormat {
    /// The four-character code (`YUYV`, `MJPG`, `RGB3`, `NV12`) as bytes.
    pub fn fourcc_bytes(self) -> (b: [u8; 4])
        ensures
            b@ == fourcc_of(self),
    {
        let b: [u8; 4] = match self {
            PixelFormat::YUYV => [0x59, 0x55, 0x59, 0x56],
            PixelFormat::MJPEG => [0x4d, 0x4a, 0x50, 0x47],
            PixelFormat::RGB24 => [0x52, 0x47, 0x42, 0x33],
            PixelFormat::NV12 => [0x4e, 0x56, 0x31, 0x32],
        };
        assert(b@ =~= fourcc_of(self));
        b
    }
}

/// What went wrong with the virtual camera.
#[derive(Debug)]
pub enum DriverError {
    V4l2Error(String),
    DeviceNotFound(String),
    InvalidFormat(String),
    DriverNotLoaded,
    ModuleNotLoaded { instructions: String },
    OperationFailed(String),
}

/// The message that describes a driver error.
pub open spec fn driver_error_text(e: DriverError) -> Seq<char> {
    match e {
        DriverError::V4l2Error(m) => "V4L2 error: "@ + m@,
        DriverError::DeviceNotFound(m) => "Device not found: "@ + m@,
        DriverError::InvalidFormat(m) => "Invalid format: "@ + m@,
        DriverError::DriverNotLoaded => "Driver not loaded"@,
        DriverError::ModuleNotLoaded { instructions } => "v4l2loopback module not loaded. Instructions: "@
            + instructions@,
        DriverError::OperationFailed(m) => "Operation failed: "@ + m@,
    }
}

impl DriverError {
    /// The message that describes the error.
    pub fn message(&self) -> (m: String)
        ensures
            m@ == driver_error_text(*self),
    {
        let mut out: Vec<char> = Vec::new();
        match self {
            DriverError::V4l2Error(m) => {
                push_str(&mut out, "V4L2 error: ");
                push_str(&mut out, m.as_str());
            },
            DriverError::DeviceNotFound(m) => {
                push_str(&mut out, "Device not found: ");
                push_str(&mut out, m.as_str());
            },
            DriverError::InvalidFormat(m) => {
                push_str(&mut out, "Invalid format: ");
                push_str(&mut out, m.as_str());
            },
            DriverError::DriverNotLoaded => push_str(&mut out, "Driver not loaded"),
            DriverError::ModuleNotLoaded { instructions } => {
                push_str(&mut out, "v4l2loopback module not loaded. Instructions: ");
                push_str(&mut out, instructions.as_str());
            },
            DriverError::OperationFailed(m) => {
                push_str(&mut out, "Operation failed: ");
                push_str(&mut out, m.as_str());
            },
        }
        let r = string_from_chars(out.as_slice());
        assert(r@ =~= driver_error_text(*self));
        r
    }
}

/// `std::path::Path::exists` on `path`. Nothing is stated of the result: it
/// depends on what is on disk.
#[verifier::external_body]
fn path_exists(path: &str) -> (b: bool) {
    std::path::Path::new(path).exists()
}

/// Whether the v4l2loopback module shows under the module directory `module_root`.
pub fn is_v4l2loopback_loaded_in(module_root: &str) -> (b: bool) {
    let path = join_path(module_root, "v4l2loopback", false);
    path_exists(path.as_str())
}

/// Whether the v4l2loopback module is loaded, as `/sys/module` shows it.
pub fn is_v4l2loopback_loaded() -> (b: bool) {
    is_v4l2loopback_loaded_in("/sys/module")
}

/// How to install and load the module.
pub open spec fn install_instructions() -> Seq<char> {
    "v4l2loopback module not found. Please install it:\n- Ubuntu/Debian: sudo apt-get install v4l2loopback-dkms\n- Fedora: sudo dnf install v4l2loopback\n- Arch: sudo pacman -S v4l2loopback-dkms\nThen load it with: sudo modprobe v4l2loopback exclusive_caps=1"@
}

/// The outcome of the module check: an error with installation help when
/// the module is missing.
pub fn module_check(loaded: bool) -> (r: Result<(), DriverError>)
    ensures
        loaded ==> r is Ok,
        !loaded ==> (r matches Err(DriverError::ModuleNotLoaded { instructions }) && instructions@
            == install_instructions()),
{
    if loaded {
        Ok(())
    } else {
        Err(
            DriverError::ModuleNotLoaded {
                instructions: owned(
                    "v4l2loopback module not found. Please install it:\n- Ubuntu/Debian: sudo apt-get install v4l2loopback-dkms\n- Fedora: sudo dnf install v4l2loopback\n- Arch: sudo pacman -S v4l2loopback-dkms\nThen load it with: sudo modprobe v4l2loopback exclusive_caps=1",
                ),
            },
        )
    }
}

/// Checks that the module shows under `module_root`.
pub fn ensure_v4l2loopback_loaded_in(module_root: &str) -> (r: Result<(), DriverError>)
    ensures
        r is Ok || (r matches Err(DriverError::ModuleNotLoaded { instructions }) && instructions@
            == install_instructions()),
{
    module_check(is_v4l2loopback_loaded_in(module_root))
}

/// Checks that the module is loaded, as `/sys/module` shows it.
pub fn ensure_v4l2loopback_loaded() -> (r: Result<(), DriverError>)
    ensures
        r is Ok || (r matches Err(DriverError::ModuleNotLoaded { instructions }) && instructions@
            == install_instructions()),
{
    ensure_v4l2loopback_loaded_in("/sys/module")
}

/// The format the driver reports for the output: size, code and bytes per frame.
#[derive(Debug, Clone, Copy, PartialEq, Eq)]
pub struct OutputFormat {
    pub width: u32,
    pub height: u32,
    pub fourcc: [u8; 4],
    pub size: u32,
}

/// `a * b`, or the largest `u32` when it does not fit.
pub open spec fn saturating_product(a: nat, b: nat) -> nat {
    if a * b > u32::MAX {
        u32::MAX as nat
    } else {
        a * b
    }
}

/// Whether the format the driver settled on is the one asked for, with room
/// for at least two bytes per pixel (the product saturating at the largest `u32`).
pub open spec fn format_accepted_spec(width: u32, height: u32, pixel_format: PixelFormat, actual: OutputFormat) -> bool {
    actual.width == width && actual.height == height && actual.fourcc@ == fourcc_of(pixel_format) && actual.size
        >= saturating_product(saturating_product(width as nat, height as nat), 2)
}

fn wide_mul(a: u32, b: u32) -> (p: u64)
    ensures
        p == a * b,
{
    assert((a as u64) * (b as u64) <= 0xffff_ffffu64 * 0xffff_ffffu64) by (nonlinear_arith)
        requires
            a <= 0xffff_ffffu32,
            b <= 0xffff_ffffu32,
    ;
    (a as u64) * (b as u64)
}

fn saturating_mul(a: u32, b: u32) -> (r: u32)
    ensures
        r == saturating_product(a as nat, b as nat),
{
    let p: u64 = wide_mul(a, b);
    if p > 0xffff_ffff {
        0xffff_ffff
    } else {
        p as u32
    }
}

/// Whether the format the driver settled on is the one asked for.
pub fn format_accepted(width: u32, height: u32, pixel_format: PixelFormat, actual: OutputFormat) -> (b: bool)
    ensures
        b == format_accepted_spec(width, height, pixel_format, actual),
{
    let f = pixel_format.fourcc_bytes();
    let same_code = actual.fourcc[0] == f[0] && actual.fourcc[1] == f[1] && actual.fourcc[2] == f[2]
        && actual.fourcc[3] == f[3];
    assert(same_code == (actual.fourcc@ =~= fourcc_of(pixel_format)));
    actual.width == width && actual.height == height && same_code && actual.size >= saturating_mul(
        saturating_mul(width, height),
        2,
    )
}

/// A frame interval the driver offers: an exact one, or a range.
#[derive(Debug, Clone, Copy, PartialEq, Eq, Structural)]
pub enum FrameInterval {
    Discrete { numerator: u32, denominator: u32 },
    Stepwise { min_numerator: u32, min_denominator: u32, max_numerator: u32, max_denominator: u32 },
}

/// Whether `num / den` is at most `1 / fps` (a zero denominator reads as
/// infinite, or as no number for 0/0).
pub open spec fn ratio_at_most_period(num: u32, den: u32, fps: u32) -> bool {
    den > 0 && num * fps <= den
}

/// Whether `1 / fps` is at most `num / den` (a zero denominator reads as
/// infinite, or as no number for 0/0).
pub open spec fn period_at_most_ratio(num: u32, den: u32, fps: u32) -> bool {
    if den == 0 {
        num > 0
    } else {
        den <= num * fps
    }
}

/// Whether an offered interval allows `fps` frames per second: an exact
/// interval must be `1/fps`, a range must hold it.
pub open spec fn interval_allows(i: FrameInterval, fps: u32) -> bool {
    match i {
        FrameInterval::Discrete { numerator, denominator } => numerator * fps == denominator,
        FrameInterval::Stepwise { min_numerator, min_denominator, max_numerator, max_denominator } =>
            ratio_at_most_period(min_numerator, min_denominator, fps) && period_at_most_ratio(
            max_numerator,
            max_denominator,
            fps,
        ),
    }
}

/// Whether the offered intervals allow `fps`: any of them does, or the
/// driver offers none.
pub fn intervals_allow(intervals: &[FrameInterval], fps: u32) -> (b: bool)
    requires
        fps > 0,
    ensures
        b == (intervals@.len() == 0 || exists|k: int| 0 <= k < intervals@.len() && interval_allows(
            #[trigger] intervals@[k],
            fps,
        )),
{
    if intervals.len() == 0 {
        return true;
    }
    let mut k: usize = 0;
    while k < intervals.len()
        invariant
            k <= intervals@.len(),
            forall|j: int| 0 <= j < k ==> !interval_allows(#[trigger] intervals@[j], fps),
        decreases intervals@.len() - k,
    {
        let ok = match intervals[k] {
            FrameInterval::Discrete { numerator, denominator } => wide_mul(numerator, fps) == denominator as u64,
            FrameInterval::Stepwise { min_numerator, min_denominator, max_numerator, max_denominator } => {
                let low = min_denominator > 0 && wide_mul(min_numerator, fps) <= min_denominator as u64;
                let high = if max_denominator == 0 {
                    max_numerator > 0
                } else {
                    max_denominator as u64 <= wide_mul(max_numerator, fps)
                };
                low && high
            },
        };
        if ok {
            return true;
        }
        k = k + 1;
    }
    false
}

/// Whether a format request can be met at all: no dimension or rate is zero.
pub fn format_request_valid(width: u32, height: u32, fps: u32) -> (b: bool)
    ensures
        b == (width != 0 && height != 0 && fps != 0),
{
    width != 0 && height != 0 && fps != 0
}

/// What `std::str::from_utf8` makes of some bytes: their characters when
/// they are valid UTF-8, nothing otherwise.
pub open spec fn utf8_text(bytes: Seq<u8>) -> Option<Seq<char>> {
    if vstd::utf8::valid_utf8(bytes) {
        Some(vstd::utf8::decode_utf8(bytes))
    } else {
        None
    }
}

/// `std::str::from_utf8` on `bytes`, the text made an owned string.
/// Believed: it succeeds exactly on valid UTF-8 (vstd's `valid_utf8`), with
/// the characters that vstd's `decode_utf8` reads from the bytes.
#[verifier::external_body]
fn decode_utf8(bytes: &[u8]) -> (r: Option<String>)
    ensures
        match r {
            Some(t) => utf8_text(bytes@) == Some(t@),
            None => utf8_text(bytes@) is None,
        },
{
    std::str::from_utf8(bytes).ok().map(|t| t.to_string())
}

/// How a four-character code prints: its text when it is valid UTF-8, else nothing.
pub open spec fn fourcc_display(code: Seq<u8>) -> Seq<char> {
    match utf8_text(code) {
        Some(t) => t,
        None => seq![],
    }
}

/// The message of a format the driver changed.
pub open spec fn format_mismatch_text(width: u32, height: u32, pixel_format: PixelFormat, actual: OutputFormat, minimum: nat) -> Seq<char> {
    "driver returned "@ + decimal(actual.width as nat) + "x"@ + decimal(actual.height as nat) + " "@
        + fourcc_display(actual.fourcc@) + " size "@ + decimal(actual.size as nat) + ", requested "@ + decimal(
        width as nat,
    ) + "x"@ + decimal(height as nat) + " "@ + fourcc_name(pixel_format) + " size at least "@ + decimal(minimum)
}

/// Checks the format the driver set: the size of a frame, two bytes per
/// pixel, must fit in a `u32`, and the driver must have kept the size and
/// code asked for, with room for such a frame.
pub fn check_applied_format(width: u32, height: u32, pixel_format: PixelFormat, actual: OutputFormat) -> (r: Result<
    (),
    DriverError,
>)
    ensures
        width * height * 2 > u32::MAX ==> (r matches Err(DriverError::InvalidFormat(m)) && m@
            == "frame size overflows u32"@),
        width * height * 2 <= u32::MAX ==> if actual.width == width && actual.height == height && actual.fourcc@
            == fourcc_of(pixel_format) && actual.size >= width * height * 2 {
            r is Ok
        } else {
            r matches Err(DriverError::InvalidFormat(m)) && m@ == format_mismatch_text(
                width,
                height,
                pixel_format,
                actual,
                (width * height * 2) as nat,
            )
        },
{
    let pixels = wide_mul(width, height);
    if pixels > 0x7fff_ffff {
        return Err(DriverError::InvalidFormat(owned("frame size overflows u32")));
    }
    let minimum: u32 = (pixels * 2) as u32;
    let f = pixel_format.fourcc_bytes();
    let same_code = actual.fourcc[0] == f[0] && actual.fourcc[1] == f[1] && actual.fourcc[2] == f[2]
        && actual.fourcc[3] == f[3];
    assert(same_code == (actual.fourcc@ =~= fourcc_of(pixel_format)));
    if actual.width == width && actual.height == height && same_code && actual.size >= minimum {
        return Ok(());
    }
    let mut out: Vec<char> = Vec::new();
    push_str(&mut out, "driver returned ");
    push_decimal(&mut out, actual.width as u64);
    push_str(&mut out, "x");
    push_decimal(&mut out, actual.height as u64);
    push_str(&mut out, " ");
    match decode_utf8(&actual.fourcc) {
        Some(t) => push_str(&mut out, t.as_str()),
        None => {},
    }
    push_str(&mut out, " size ");
    push_decimal(&mut out, actual.size as u64);
    push_str(&mut out, ", requested ");
    push_decimal(&mut out, width as u64);
    push_str(&mut out, "x");
    push_decimal(&mut out, height as u64);
    push_str(&mut out, " ");
    match pixel_format {
        PixelFormat::YUYV => push_str(&mut out, "YUYV"),
        PixelFormat::MJPEG => push_str(&mut out, "MJPG"),
        PixelFormat::RGB24 => push_str(&mut out, "RGB3"),
        PixelFormat::NV12 => push_str(&mut out, "NV12"),
    }
    push_str(&mut out, " size at least ");
    push_decimal(&mut out, minimum as u64);
    let m = string_from_chars(out.as_slice());
    assert(m@ =~= format_mismatch_text(width, height, pixel_format, actual, (width * height * 2) as nat));
    Err(DriverError::InvalidFormat(m))
}

/// The message of a frame interval the driver changed.
pub open spec fn interval_mismatch_text(numerator: u32, denominator: u32, fps: u32) -> Seq<char> {
    "driver returned interval "@ + decimal(numerator as nat) + "/"@ + decimal(denominator as nat) + ", requested 1/"@
        + decimal(fps as nat)
}

/// Checks the frame interval the driver set: it must be `1/fps`.
pub fn check_applied_interval(numerator: u32, denominator: u32, fps: u32) -> (r: Result<(), DriverError>)
    ensures
        numerator * fps == denominator ==> r is Ok,
        numerator * fps != denominator ==> (r matches Err(DriverError::InvalidFormat(m)) && m@
            == interval_mismatch_text(numerator, denominator, fps)),
{
    if wide_mul(numerator, fps) == denominator as u64 {
        return Ok(());
    }
    let mut out: Vec<char> = Vec::new();
    push_str(&mut out, "driver returned interval ");
    push_decimal(&mut out, numerator as u64);
    push_str(&mut out, "/");
    push_decimal(&mut out, denominator as u64);
    push_str(&mut out, ", requested 1/");
    push_decimal(&mut out, fps as u64);
    let m = string_from_chars(out.as_slice());
    assert(m@ =~= interval_mismatch_text(numerator, denominator, fps));
    Err(DriverError::InvalidFormat(m))
}

} // verus!
