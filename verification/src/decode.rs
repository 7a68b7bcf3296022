//! Decoded pictures and the byte-level work around the video decoders.
use vstd::prelude::*;
use crate::arith::{lemma_grid_index, lemma_mul_le, lemma_row_bound};
use crate::protocol::{StreamProfile, VideoCodec};
use crate::text::{decimal, push_decimal, push_str, string_from_chars};

verus! {

/// A decoded picture in NV12: a luma plane and an interleaved chroma plane,
/// each laid out in rows of the given stride.
#[derive(Debug, Clone, PartialEq, Eq)]
pub struct Nv12Frame {
    pub width: u32,
    pub height: u32,
    pub pts_us: u64,
    pub y_stride: usize,
    pub uv_stride: usize,
    pub y_plane: Vec<u8>,
    pub uv_plane: Vec<u8>,
}

/// The luma sample of row `r`, column `x`.
pub open spec fn luma_at(f: Nv12Frame, r: int, x: int) -> u8 {
    f.y_plane@[r * f.y_stride + x]
}

/// The interleaved chroma byte that serves row `r`, byte column `x`.
pub open spec fn chroma_at(f: Nv12Frame, r: int, x: int) -> u8 {
    f.uv_plane@[(r / 2) * f.uv_stride + x]
}


/// What the decoder worker reports.
#[derive(Debug, Clone, PartialEq, Eq)]
pub enum DecodeEvent {
    Frame(Nv12Frame),
    RecoveryRequired,
    Error(String),
}

/// Why decoding failed.
#[derive(Debug, Clone, PartialEq, Eq)]
pub enum DecodeError {
    DecoderUnavailable,
    DecodeFailed(String),
    Main10Unsupported,
    WorkerStopped,
}

/// Whether `out` holds the first `count` rows of `width` bytes of a plane
/// laid out with `stride` bytes per row, packed tightly.
pub open spec fn is_tight_rows(source: Seq<u8>, stride: int, width: int, count: int, out: Seq<u8>) -> bool {
    &&& out.len() == width * count
    &&& forall|r: int, x: int|
        #![trigger out[r * width + x]]
        0 <= r < count && 0 <= x < width ==> out[r * width + x] == source[r * stride + x]
}

/// The checks `copy_plane_rows` makes, in order.
pub open spec fn copy_rows_error(source_len: int, stride: int, width: int, count: int) -> Option<Seq<char>> {
    if stride < width {
        Some("decoded plane stride is smaller than visible width"@)
    } else if stride * count > usize::MAX {
        Some("decoded plane size overflow"@)
    } else if source_len < stride * count {
        Some("decoded plane is shorter than its stride layout"@)
    } else {
        None
    }
}

fn failed(message: &str) -> (e: DecodeError)
    ensures
        e matches DecodeError::DecodeFailed(m) && m@ == message@,
{
    DecodeError::DecodeFailed(message.to_owned())
}

/// Copies the visible `row_width` bytes of each of `row_count` rows out of a
/// strided plane.
pub fn copy_plane_rows(source: &[u8], source_stride: usize, row_width: usize, row_count: usize) -> (res:
    Result<Vec<u8>, DecodeError>)
    ensures
        match copy_rows_error(source@.len() as int, source_stride as int, row_width as int, row_count as int) {
            Some(m) => res matches Err(DecodeError::DecodeFailed(e)) && e@ == m,
            None => res matches Ok(out) && is_tight_rows(
                source@,
                source_stride as int,
                row_width as int,
                row_count as int,
                out@,
            ),
        },
{
    proof {
        reveal_strlit("decoded plane stride is smaller than visible width");
        reveal_strlit("decoded plane size overflow");
        reveal_strlit("decoded plane is shorter than its stride layout");
    }
    if source_stride < row_width {
        return Err(failed("decoded plane stride is smaller than visible width"));
    }
    let required = match source_stride.checked_mul(row_count) {
        Some(n) => n,
        None => return Err(failed("decoded plane size overflow")),
    };
    if source.len() < required {
        return Err(failed("decoded plane is shorter than its stride layout"));
    }
    proof {
        lemma_mul_le(row_width as int, row_count as int, source_stride as int, row_count as int);
        assert(source_stride * row_count == row_count * source_stride) by (nonlinear_arith);
        assert(row_width * row_count == row_count * row_width) by (nonlinear_arith);
    }
    let capacity = row_width * row_count;
    let mut output: Vec<u8> = Vec::with_capacity(capacity);
    let ghost w = row_width as int;
    let ghost st = source_stride as int;
    let mut row: usize = 0;
    while row < row_count
        invariant
            w == row_width,
            st == source_stride,
            row <= row_count,
            row_width <= source_stride,
            row_count * source_stride <= source@.len(),
            row_count * source_stride <= usize::MAX,
            row_count * row_width <= usize::MAX,
            output@.len() == row * w,
            forall|r: int, x: int|
                #![trigger output@[r * w + x]]
                0 <= r < row && 0 <= x < w ==> output@[r * w + x] == source@[r * st + x],
        decreases row_count - row,
    {
        proof {
            lemma_row_bound(row as int, row_count as int, st);
            lemma_row_bound(row as int, row_count as int, w);
        }
        let start = row * source_stride;
        let ghost before = output@;
        let mut x: usize = 0;
        while x < row_width
            invariant
                w == row_width,
                st == source_stride,
                row < row_count,
                row_width <= source_stride,
                start == row * st,
                start + st <= source@.len(),
                start + st <= usize::MAX,
                output@.len() == row * w + x,
                x <= row_width,
                before.len() == row * w,
                forall|i: int| 0 <= i < row * w ==> output@[i] == before[i],
                forall|j: int| #![trigger output@[row * w + j]] 0 <= j < x ==> output@[row * w + j] == source@[start + j],
            decreases row_width - x,
        {
            output.push(source[start + x]);
            x = x + 1;
        }
        proof {
            assert forall|r: int, x: int|
                #![trigger output@[r * w + x]]
                0 <= r < row + 1 && 0 <= x < w implies output@[r * w + x] == source@[r * st + x] by {
                if r < row {
                    lemma_grid_index(r, x, row as int, w);
                    assert(before[r * w + x] == source@[r * st + x]);
                }
            }
            crate::arith::lemma_next_row(row as int, w);
        }
        row = row + 1;
    }
    Ok(output)
}

/// Whether `uv` interleaves `u` and `v` sample by sample.
pub open spec fn is_interleaved(u: Seq<u8>, v: Seq<u8>, uv: Seq<u8>) -> bool {
    &&& uv.len() == 2 * u.len()
    &&& forall|i: int| #![trigger u[i]] 0 <= i < u.len() ==> uv[2 * i] == u[i] && uv[2 * i + 1] == v[i]
}

fn interleave(u: &Vec<u8>, v: &Vec<u8>) -> (uv: Vec<u8>)
    requires
        u@.len() == v@.len(),
        2 * u@.len() <= usize::MAX,
    ensures
        is_interleaved(u@, v@, uv@),
{
    let mut uv: Vec<u8> = Vec::with_capacity(2 * u.len());
    let mut i: usize = 0;
    while i < u.len()
        invariant
            u@.len() == v@.len(),
            i <= u@.len(),
            uv@.len() == 2 * i,
            forall|j: int| #![trigger u@[j]] 0 <= j < i ==> uv@[2 * j] == u@[j] && uv@[2 * j + 1] == v@[j],
        decreases u@.len() - i,
    {
        let ghost before = uv@;
        uv.push(u[i]);
        uv.push(v[i]);
        assert forall|j: int| #![trigger u@[j]] 0 <= j < i + 1 implies uv@[2 * j] == u@[j] && uv@[2 * j + 1] == v@[j] by {
            if j < i {
                assert(before[2 * j] == u@[j]);
            }
        }
        i = i + 1;
    }
    uv
}

/// The message for a decoded picture whose size NV12 cannot carry.
pub open spec fn invalid_dimensions_message(width: u32, height: u32) -> Seq<char> {
    "decoder produced invalid dimensions "@ + decimal(width as nat) + "x"@ + decimal(height as nat)
}

/// The first check a planar picture fails on its way to NV12: its size,
/// then the luma plane, then each chroma plane, half as wide and high.
pub open spec fn planar_error(
    width: u32,
    height: u32,
    y_len: int,
    y_stride: int,
    u_len: int,
    u_stride: int,
    v_len: int,
    v_stride: int,
) -> Option<Seq<char>> {
    if width == 0 || height == 0 || width % 2 != 0 || height % 2 != 0 {
        Some(invalid_dimensions_message(width, height))
    } else if copy_rows_error(y_len, y_stride, width as int, height as int) is Some {
        copy_rows_error(y_len, y_stride, width as int, height as int)
    } else if copy_rows_error(u_len, u_stride, (width / 2) as int, (height / 2) as int) is Some {
        copy_rows_error(u_len, u_stride, (width / 2) as int, (height / 2) as int)
    } else {
        copy_rows_error(v_len, v_stride, (width / 2) as int, (height / 2) as int)
    }
}

/// Whether `f` is the tight NV12 form of the planar picture `y`, `u`, `v`.
pub open spec fn is_nv12_of(
    f: Nv12Frame,
    width: u32,
    height: u32,
    pts_us: u64,
    y: Seq<u8>,
    y_stride: int,
    u: Seq<u8>,
    u_stride: int,
    v: Seq<u8>,
    v_stride: int,
) -> bool {
    let w = width as int;
    let h = height as int;
    &&& f.width == width && f.height == height && f.pts_us == pts_us
    &&& f.y_stride == w && f.uv_stride == w
    &&& is_tight_rows(y, y_stride, w, h, f.y_plane@)
    &&& exists|up: Seq<u8>, vp: Seq<u8>|
        is_tight_rows(u, u_stride, w / 2, h / 2, up) && is_tight_rows(v, v_stride, w / 2, h / 2, vp)
            && is_interleaved(up, vp, f.uv_plane@)
}

/// Turns a planar 4:2:0 picture into tight NV12: the luma rows copied, the
/// two chroma planes interleaved.
pub fn planar_to_nv12(
    width: u32,
    height: u32,
    pts_us: u64,
    y: &[u8],
    y_stride: usize,
    u: &[u8],
    u_stride: usize,
    v: &[u8],
    v_stride: usize,
) -> (res: Result<Nv12Frame, DecodeError>)
    ensures
        match planar_error(
            width,
            height,
            y@.len() as int,
            y_stride as int,
            u@.len() as int,
            u_stride as int,
            v@.len() as int,
            v_stride as int,
        ) {
            Some(m) => res matches Err(DecodeError::DecodeFailed(e)) && e@ == m,
            None => res matches Ok(f) && is_nv12_of(
                f,
                width,
                height,
                pts_us,
                y@,
                y_stride as int,
                u@,
                u_stride as int,
                v@,
                v_stride as int,
            ),
        },
{
    let width_usize = width as usize;
    let height_usize = height as usize;
    if width == 0 || height == 0 || width % 2 != 0 || height % 2 != 0 {
        let mut m: Vec<char> = Vec::new();
        push_str(&mut m, "decoder produced invalid dimensions ");
        push_decimal(&mut m, width as u64);
        push_str(&mut m, "x");
        push_decimal(&mut m, height as u64);
        return Err(DecodeError::DecodeFailed(string_from_chars(m.as_slice())));
    }
    let y_plane = match copy_plane_rows(y, y_stride, width_usize, height_usize) {
        Ok(p) => p,
        Err(e) => return Err(e),
    };
    let chroma_width = width_usize / 2;
    let chroma_height = height_usize / 2;
    proof {
        lemma_mul_le(width_usize as int, height_usize as int, y_stride as int, height_usize as int);
    }
    let u_plane = match copy_plane_rows(u, u_stride, chroma_width, chroma_height) {
        Ok(p) => p,
        Err(e) => return Err(e),
    };
    let v_plane = match copy_plane_rows(v, v_stride, chroma_width, chroma_height) {
        Ok(p) => p,
        Err(e) => return Err(e),
    };
    proof {
        assert(u_plane@.len() == chroma_width * chroma_height);
        assert(v_plane@.len() == chroma_width * chroma_height);
        assert(2 * (chroma_width * chroma_height) <= width_usize * height_usize) by (nonlinear_arith)
            requires
                chroma_width * 2 == width_usize,
                chroma_height * 2 == height_usize,
        ;
    }
    let uv_plane = interleave(&u_plane, &v_plane);
    let ghost up = u_plane@;
    let ghost vp = v_plane@;
    let ghost w = width as int;
    let ghost h = height as int;
    assert(is_tight_rows(u@, u_stride as int, w / 2, h / 2, up));
    assert(is_tight_rows(v@, v_stride as int, w / 2, h / 2, vp));
    assert(is_interleaved(up, vp, uv_plane@));
    let frame = Nv12Frame {
            width,
            height,
            pts_us,
            y_stride: width_usize,
            uv_stride: width_usize,
            y_plane,
            uv_plane,
        };
    assert(is_tight_rows(y@, y_stride as int, w, h, frame.y_plane@));
    assert(frame.width == width && frame.height == height && frame.pts_us == pts_us);
    assert(frame.y_stride == w && frame.uv_stride == w);
    assert(is_interleaved(up, vp, frame.uv_plane@));
    assert(exists|a: Seq<u8>, b: Seq<u8>|
        is_tight_rows(u@, u_stride as int, w / 2, h / 2, a) && is_tight_rows(v@, v_stride as int, w / 2, h / 2, b)
            && is_interleaved(a, b, frame.uv_plane@));
    assert(is_nv12_of(frame, width, height, pts_us, y@, y_stride as int, u@, u_stride as int, v@, v_stride as int));
    Ok(frame)
}

/// Whether an H.264 NAL header byte is one the decoder accepts: the
/// forbidden bit clear and a type from 1 to 23.
pub open spec fn valid_h264_header(b: u8) -> bool {
    b & 0x80 == 0 && 1 <= (b & 0x1f) <= 23
}

/// Whether a three- or four-byte start code begins at `i`.
pub open spec fn start_code_len(data: Seq<u8>, i: int) -> int {
    if i + 4 <= data.len() && data[i] == 0 && data[i + 1] == 0 && data[i + 2] == 0 && data[i + 3] == 1 {
        4
    } else if i + 3 <= data.len() && data[i] == 0 && data[i + 1] == 0 && data[i + 2] == 1 {
        3
    } else {
        0
    }
}

/// Scans Annex-B data from `cursor`: each start code met must be followed by
/// a valid NAL header byte, after which the scan resumes behind that byte;
/// the data passes when every such header is valid and at least one start
/// code was met (`found` records one met before `cursor`).
pub open spec fn annex_b_scan(data: Seq<u8>, cursor: int, found: bool) -> bool
    decreases data.len() - cursor,
{
    if cursor < 0 || cursor + 3 > data.len() {
        found
    } else {
        let n = start_code_len(data, cursor);
        if n == 0 {
            annex_b_scan(data, cursor + 1, found)
        } else {
            let header = cursor + n;
            if header >= data.len() || !valid_h264_header(data[header]) {
                false
            } else {
                annex_b_scan(data, header + 1, true)
            }
        }
    }
}

/// Checks that H.264 Annex-B data holds at least one start code and that
/// every start code is followed by a valid NAL header.
pub fn validate_h264_annex_b(data: &[u8]) -> (ok: bool)
    ensures
        ok == annex_b_scan(data@, 0, false),
{
    let mut cursor: usize = 0;
    let mut found = false;
    while data.len() >= 3 && cursor <= data.len() - 3
        invariant
            cursor <= data@.len() + 1,
            annex_b_scan(data@, 0, false) == annex_b_scan(data@, cursor as int, found),
        decreases data@.len() + 1 - cursor,
    {
        let code_len: usize = if data[cursor] == 0 && data.len() - cursor >= 4 && data[cursor
            + 1] == 0 && data[cursor + 2] == 0 && data[cursor + 3] == 1 {
            4
        } else if data[cursor] == 0 && data[cursor + 1] == 0 && data[cursor + 2] == 1 {
            3
        } else {
            cursor = cursor + 1;
            continue;
        };
        assert(code_len == start_code_len(data@, cursor as int));
        let header = cursor + code_len;
        if header >= data.len() || data[header] & 0x80 != 0 || !(1 <= (data[header] & 0x1f)
            && (data[header] & 0x1f) <= 23) {
            return false;
        }
        found = true;
        cursor = header + 1;
    }
    found
}

/// What normalizing a frame's H.264 data into Annex-B form yields.
pub open spec fn normalized_h264(data: Seq<u8>) -> Option<Seq<u8>> {
    if data.len() == 0 {
        None
    } else if start_code_len(data, 0) != 0 {
        if annex_b_scan(data, 0, false) {
            Some(data)
        } else {
            None
        }
    } else if valid_h264_header(data[0]) {
        Some(seq![0u8, 0u8, 0u8, 1u8] + data)
    } else {
        None
    }
}

/// Accepts Annex-B data whose start codes all lead to valid NAL headers, or a
/// single raw NAL unit, which gets a four-byte start code in front.
pub fn normalize_h264_annex_b(data: &[u8]) -> (res: Option<Vec<u8>>)
    ensures
        match (res, normalized_h264(data@)) {
            (Some(v), Some(s)) => v@ == s,
            (None, None) => true,
            _ => false,
        },
{
    if data.len() == 0 {
        return None;
    }
    let starts3 = data.len() >= 3 && data[0] == 0 && data[1] == 0 && data[2] == 1;
    let starts4 = data.len() >= 4 && data[0] == 0 && data[1] == 0 && data[2] == 0 && data[3] == 1;
    if starts3 || starts4 {
        if validate_h264_annex_b(data) {
            let mut out: Vec<u8> = Vec::new();
            let mut i: usize = 0;
            while i < data.len()
                invariant
                    i <= data@.len(),
                    out@ == data@.take(i as int),
                decreases data@.len() - i,
            {
                out.push(data[i]);
                assert(data@.take(i + 1) =~= data@.take(i as int).push(data@[i as int]));
                i = i + 1;
            }
            assert(data@.take(data@.len() as int) =~= data@);
            return Some(out);
        }
        return None;
    }
    if data[0] & 0x80 == 0 && 1 <= (data[0] & 0x1f) && (data[0] & 0x1f) <= 23 {
        let mut annex_b: Vec<u8> = Vec::with_capacity(4);
        annex_b.push(0);
        annex_b.push(0);
        annex_b.push(0);
        annex_b.push(1);
        let mut i: usize = 0;
        while i < data.len()
            invariant
                i <= data@.len(),
                annex_b@ == seq![0u8, 0u8, 0u8, 1u8] + data@.take(i as int),
            decreases data@.len() - i,
        {
            annex_b.push(data[i]);
            assert(data@.take(i + 1) =~= data@.take(i as int).push(data@[i as int]));
            i = i + 1;
        }
        assert(data@.take(data@.len() as int) =~= data@);
        return Some(annex_b);
    }
    None
}

/// The position, in ascending order, of the 95th-percentile timing among `n`.
pub open spec fn p95_index(n: nat) -> nat {
    let q = (n * 95 + 99) / 100;
    if q == 0 {
        0
    } else {
        (q - 1) as nat
    }
}

/// Whether a decode time fits in 80% of the frame period at `fps`.
pub open spec fn within_budget(nanos: u64, fps: u8) -> bool {
    nanos * fps * 5 <= 4_000_000_000
}

/// How many timings fit the budget.
pub open spec fn count_within(timings: Seq<u64>, fps: u8) -> nat
    decreases timings.len(),
{
    if timings.len() == 0 {
        0
    } else {
        count_within(timings.drop_last(), fps) + if within_budget(timings.last(), fps) {
            1nat
        } else {
            0nat
        }
    }
}

/// Law: a decode time fits the budget exactly when it is at most 80% of
/// the profile's own frame period, `1 / fps` seconds: `nanos * fps` at most
/// 800,000,000.
pub proof fn lemma_budget_is_eighty_percent_of_period(nanos: u64, fps: u8)
    ensures
        within_budget(nanos, fps) <==> nanos as int * fps as int <= 800_000_000,
{
}

/// Law: the count of timings that fit the budget is the number of timings
/// `t` with `t * fps` at most 800,000,000, that is, at most 80% of the
/// profile's own frame period.
pub proof fn lemma_count_within_counts(timings: Seq<u64>, fps: u8)
    ensures
        count_within(timings, fps) == timings.filter(|t: u64| t as int * fps as int <= 800_000_000).len(),
    decreases timings.len(),
{
    let fits = |t: u64| t as int * fps as int <= 800_000_000;
    reveal(Seq::filter);
    if timings.len() > 0 {
        lemma_count_within_counts(timings.drop_last(), fps);
        assert(within_budget(timings.last(), fps) == fits(timings.last()));
    }
}

/// Law: the 95th-percentile position among `n > 0` timings is the
/// ceiling of 95% of `n`, less one: a valid position.
pub proof fn lemma_p95_position(n: nat)
    requires
        n > 0,
    ensures
        p95_index(n) < n,
        100 * (p95_index(n) + 1) >= 95 * n,
        100 * p95_index(n) < 95 * n,
{
}

proof fn lemma_count_within_bounds(timings: Seq<u64>, fps: u8)
    ensures
        (forall|i: int| 0 <= i < timings.len() ==> #[trigger] timings[i] as int * fps as int <= 800_000_000)
            ==> count_within(timings, fps) == timings.len(),
        (forall|i: int| 0 <= i < timings.len() ==> #[trigger] timings[i] as int * fps as int > 800_000_000)
            ==> count_within(timings, fps) == 0,
    decreases timings.len(),
{
    if timings.len() > 0 {
        let d = timings.drop_last();
        lemma_count_within_bounds(d, fps);
        if forall|i: int| 0 <= i < timings.len() ==> #[trigger] timings[i] as int * fps as int <= 800_000_000 {
            assert forall|i: int| 0 <= i < d.len() implies #[trigger] d[i] as int * fps as int <= 800_000_000 by {
                assert(d[i] == timings[i]);
            }
            assert(timings.last() == timings[timings.len() - 1]);
        }
        if forall|i: int| 0 <= i < timings.len() ==> #[trigger] timings[i] as int * fps as int > 800_000_000 {
            assert forall|i: int| 0 <= i < d.len() implies #[trigger] d[i] as int * fps as int > 800_000_000 by {
                assert(d[i] == timings[i]);
            }
            assert(timings.last() == timings[timings.len() - 1]);
        }
    }
}

/// Law: when every timing fits 80% of the profile's frame period the
/// decoder keeps up; when none does, it does not.
pub proof fn lemma_timings_decide(timings: Seq<u64>, fps: u8)
    requires
        timings.len() > 0,
        fps > 0,
    ensures
        (forall|i: int| 0 <= i < timings.len() ==> #[trigger] timings[i] as int * fps as int <= 800_000_000)
            ==> count_within(timings, fps) > p95_index(timings.len()),
        (forall|i: int| 0 <= i < timings.len() ==> #[trigger] timings[i] as int * fps as int > 800_000_000)
            ==> !(count_within(timings, fps) > p95_index(timings.len())),
{
    lemma_count_within_bounds(timings, fps);
    lemma_p95_position(timings.len());
}

proof fn lemma_count_within_le_len(timings: Seq<u64>, fps: u8)
    ensures
        count_within(timings, fps) <= timings.len(),
    decreases timings.len(),
{
    if timings.len() > 0 {
        lemma_count_within_le_len(timings.drop_last(), fps);
    }
}

proof fn lemma_count_within_concat(a: Seq<u64>, b: Seq<u64>, fps: u8)
    ensures
        count_within(a + b, fps) == count_within(a, fps) + count_within(b, fps),
    decreases b.len(),
{
    if b.len() == 0 {
        assert(a + b =~= a);
    } else {
        lemma_count_within_concat(a, b.drop_last(), fps);
        assert((a + b).drop_last() =~= a + b.drop_last());
        assert((a + b).last() == b.last());
    }
}

proof fn lemma_count_within_remove(s: Seq<u64>, i: int, fps: u8)
    requires
        0 <= i < s.len(),
    ensures
        count_within(s, fps) == count_within(s.remove(i), fps) + if within_budget(s[i], fps) {
            1nat
        } else {
            0nat
        },
{
    let front = s.take(i);
    let one = seq![s[i]];
    let back = s.skip(i + 1);
    assert(s =~= front + (one + back));
    assert(s.remove(i) =~= front + back);
    assert(one.drop_last() =~= Seq::<u64>::empty());
    assert(count_within(one.drop_last(), fps) == 0);
    assert(one.last() == s[i]);
    lemma_count_within_concat(front, one + back, fps);
    lemma_count_within_concat(one, back, fps);
    lemma_count_within_concat(front, back, fps);
}

/// Law: how many timings fit the budget does not depend on their order:
/// two lists with the same timings, each as often, give the same count.
pub proof fn lemma_count_within_any_order(timings: Seq<u64>, other: Seq<u64>, fps: u8)
    requires
        timings.to_multiset() == other.to_multiset(),
    ensures
        count_within(timings, fps) == count_within(other, fps),
    decreases timings.len(),
{
    broadcast use vstd::seq_lib::group_to_multiset_ensures;
    broadcast use vstd::multiset::group_multiset_axioms;

    vstd::seq_lib::to_multiset_len(timings);
    vstd::seq_lib::to_multiset_len(other);
    if timings.len() == 0 {
        assert(other.len() == 0);
    } else {
        let rest = timings.drop_last();
        let x = timings.last();
        assert(timings =~= rest.push(x));
        assert(timings.to_multiset() =~= rest.to_multiset().insert(x));
        assert(other.to_multiset().count(x) > 0);
        assert(other.contains(x));
        let k = choose|k: int| 0 <= k < other.len() && other[k] == x;
        assert(other.remove(k).to_multiset() == other.to_multiset().remove(x));
        assert(rest.to_multiset().insert(x).remove(x) =~= rest.to_multiset());
        lemma_count_within_any_order(rest, other.remove(k), fps);
        lemma_count_within_remove(other, k, fps);
    }
}

proof fn lemma_sorted_count_within(s: Seq<u64>, fps: u8)
    requires
        forall|i: int, j: int| 0 <= i <= j < s.len() ==> s[i] <= s[j],
    ensures
        forall|k: int| 0 <= k < s.len() ==> (count_within(s, fps) > k <==> within_budget(#[trigger] s[k], fps)),
    decreases s.len(),
{
    if s.len() > 0 {
        let rest = s.drop_last();
        lemma_sorted_count_within(rest, fps);
        lemma_count_within_le_len(rest, fps);
        if within_budget(s.last(), fps) {
            assert forall|k: int| 0 <= k < s.len() implies within_budget(#[trigger] s[k], fps) by {
                let a = s[k];
                let b = s.last();
                assert(a <= b);
                assert(a * fps <= b * fps) by (nonlinear_arith)
                    requires
                        a <= b,
                ;
            }
            if rest.len() > 0 {
                assert(within_budget(rest[rest.len() - 1], fps)) by {
                    assert(rest[rest.len() - 1] == s[rest.len() - 1]);
                }
            }
        } else {
            assert forall|k: int| 0 <= k < s.len() implies (count_within(s, fps) > k <==> within_budget(
                #[trigger] s[k],
                fps,
            )) by {
                if k < rest.len() {
                    assert(rest[k] == s[k]);
                }
            }
        }
    }
}

/// Law: the decision is the 95th-percentile rule on the timings in
/// ascending order: with `sorted` the same timings in ascending order, more
/// timings fit the budget than the 95th-percentile position exactly when the
/// timing at that position is at most 80% of the profile's frame period.
pub proof fn lemma_meets_timing_is_sorted_p95(timings: Seq<u64>, sorted: Seq<u64>, fps: u8)
    requires
        timings.len() > 0,
        sorted.to_multiset() == timings.to_multiset(),
        forall|i: int, j: int| 0 <= i <= j < sorted.len() ==> sorted[i] <= sorted[j],
    ensures
        p95_index(timings.len()) < sorted.len(),
        count_within(timings, fps) > p95_index(timings.len()) <==> sorted[p95_index(timings.len()) as int] as int
            * fps as int <= 800_000_000,
{
    broadcast use vstd::seq_lib::group_to_multiset_ensures;

    vstd::seq_lib::to_multiset_len(timings);
    vstd::seq_lib::to_multiset_len(sorted);
    assert(sorted.len() == timings.len());
    lemma_p95_position(timings.len());
    lemma_count_within_any_order(timings, sorted, fps);
    lemma_sorted_count_within(sorted, fps);
    let k = p95_index(timings.len()) as int;
    assert(count_within(sorted, fps) > k <==> within_budget(sorted[k], fps));
}

/// Whether a profile's decode timings (in nanoseconds) show that the decoder
/// keeps up: in ascending order, the timing at the 95th percentile must fit
/// in 80% of the frame period. Equivalently, more timings than that
/// position fit the budget.
pub fn profile_meets_timing(profile: StreamProfile, timings: &[u64]) -> (ok: bool)
    requires
        timings@.len() * 95 + 99 <= usize::MAX,
    ensures
        ok == (timings@.len() > 0 && profile.fps > 0 && count_within(timings@, profile.fps) > p95_index(
            timings@.len(),
        )),
{
    if timings.len() == 0 || profile.fps == 0 {
        return false;
    }
    let q = (timings.len() * 95 + 99) / 100;
    let p95 = if q == 0 { 0 } else { q - 1 };
    let mut count: usize = 0;
    let mut i: usize = 0;
    while i < timings.len()
        invariant
            i <= timings@.len(),
            count == count_within(timings@.take(i as int), profile.fps),
            count <= i,
        decreases timings@.len() - i,
    {
        assert(timings@.take(i + 1).drop_last() =~= timings@.take(i as int));
        assert((timings[i as int] as u128) * (profile.fps as u128) * 5 <= 0xffff_ffff_ffff_ffff * 255 * 5) by (nonlinear_arith)
            requires
                timings[i as int] <= 0xffff_ffff_ffff_ffffu64,
                profile.fps <= 255,
        ;
        if (timings[i] as u128) * (profile.fps as u128) * 5 <= 4_000_000_000 {
            count = count + 1;
        }
        i = i + 1;
    }
    assert(timings@.take(timings@.len() as int) =~= timings@);
    count > p95
}

#[verifier::external_type_specification]
#[verifier::external_body]
pub struct ExInstant(std::time::Instant);

/// `std::time::Instant::now`: the present moment. Nothing is stated of it.
#[verifier::external_body]
fn now() -> (t: std::time::Instant) {
    std::time::Instant::now()
}

/// `Instant::elapsed` of `started`, in nanoseconds (`Duration::as_nanos`).
/// Nothing is stated of it: it depends on the clock.
#[verifier::external_body]
fn elapsed_nanos(started: &std::time::Instant) -> (n: u128) {
    started.elapsed().as_nanos()
}

/// How many of the calibration decodes are run, and how many of the first
/// ones are left out of the timings as warm-up.
pub const CALIBRATION_RUNS: usize = 60;
pub const CALIBRATION_WARMUP: usize = 5;

/// Whether a call of `decode` on `i` can have succeeded.
pub open spec fn decoded_ok<F: Fn(usize) -> Result<(), DecodeError>>(decode: F, i: usize) -> bool {
    exists|r: Result<(), DecodeError>| r is Ok && #[trigger] call_ensures(decode, (i,), r)
}

/// Runs `decode` on the indices 0 to 59 in order and times each call, in
/// nanoseconds (saturated to `u64`); the first five are warm-up and are
/// not kept. The first error stops the run and is returned.
pub fn measure_decode_times<F>(decode: F) -> (res: Result<Vec<u64>, DecodeError>)
    where
        F: Fn(usize) -> Result<(), DecodeError>,
    requires
        forall|i: usize| i < CALIBRATION_RUNS ==> call_requires(decode, (i,)),
    ensures
        res matches Ok(t) ==> t@.len() == CALIBRATION_RUNS - CALIBRATION_WARMUP && forall|i: usize| i
            < CALIBRATION_RUNS ==> decoded_ok(decode, i),
        res matches Err(e) ==> exists|k: usize|
            k < CALIBRATION_RUNS && #[trigger] call_ensures(decode, (k,), Err::<(), DecodeError>(e))
                && forall|i: usize| i < k ==> decoded_ok(decode, i),
{
    let mut timings: Vec<u64> = Vec::new();
    let mut index: usize = 0;
    while index < CALIBRATION_RUNS
        invariant
            index <= CALIBRATION_RUNS,
            forall|i: usize| i < CALIBRATION_RUNS ==> call_requires(decode, (i,)),
            timings@.len() == if index <= CALIBRATION_WARMUP { 0 } else { index - CALIBRATION_WARMUP },
            forall|i: usize| i < index ==> decoded_ok(decode, i),
        decreases CALIBRATION_RUNS - index,
    {
        let started = now();
        let outcome = decode(index);
        if outcome.is_err() {
            return match outcome {
                Ok(()) => Ok(timings),
                Err(e) => Err(e),
            };
        }
        assert(outcome is Ok && call_ensures(decode, (index,), outcome));
        if index >= CALIBRATION_WARMUP {
            let n = elapsed_nanos(&started);
            let t: u64 = if n > 0xffff_ffff_ffff_ffff { 0xffff_ffff_ffff_ffff } else { n as u64 };
            timings.push(t);
        }
        index = index + 1;
    }
    Ok(timings)
}

} // verus!
