//! NV12 to YUYV (4:2:2 packed) conversion for V4L2 output.
use vstd::prelude::*;
use crate::arith::{lemma_grid_index, lemma_mul_le, lemma_next_row};
use crate::decode::{chroma_at, luma_at, Nv12Frame};

verus! {

/// A packed YUYV picture: for each pair of pixels, Y0 U Y1 V.
#[derive(Debug, Clone, PartialEq, Eq)]
pub struct YuyvFrame {
    pub width: u32,
    pub height: u32,
    pub data: Vec<u8>,
}

/// Why a conversion was refused.
#[derive(Debug, Clone, PartialEq, Eq)]
pub enum ConvertError {
    InvalidDimensions,
    InvalidPlaneLayout,
    ConversionFailed(String),
}

/// Converts NV12 pictures of one fixed, even size to YUYV.
pub struct Nv12ToYuyvConverter {
    width: u32,
    height: u32,
}

/// Dimensions that a converter accepts: both non-zero and even.
pub open spec fn valid_converter_dimensions(width: u32, height: u32) -> bool {
    width != 0 && height != 0 && width % 2 == 0 && height % 2 == 0
}

/// The YUYV byte at pixel row `r`, column `x`: byte `k` of the pixel is its
/// luma when `k == 0` and the shared chroma byte of its column when `k == 1`.
pub open spec fn yuyv_index(width: int, r: int, x: int) -> int {
    2 * (r * width + x)
}

/// Whether `data` holds the YUYV form of `f`, of `width` by `height` pixels,
/// for the first `rows` rows and, in row `rows`, the first `cols` pixels.
pub open spec fn yuyv_prefix(f: Nv12Frame, width: int, data: Seq<u8>, rows: int, cols: int) -> bool {
    &&& forall|r: int, x: int|
        #![trigger data[yuyv_index(width, r, x)]]
        0 <= r < rows && 0 <= x < width ==> data[yuyv_index(width, r, x)] == luma_at(f, r, x)
            && data[yuyv_index(width, r, x) + 1] == chroma_at(f, r, x)
    &&& forall|x: int|
        #![trigger data[yuyv_index(width, rows, x)]]
        0 <= x < cols ==> data[yuyv_index(width, rows, x)] == luma_at(f, rows, x) && data[yuyv_index(
            width,
            rows,
            x,
        ) + 1] == chroma_at(f, rows, x)
}

/// Whether `data` is exactly the YUYV form of `f` at `width` by `height`.
pub open spec fn is_yuyv_of(f: Nv12Frame, width: int, height: int, data: Seq<u8>) -> bool {
    &&& data.len() == 2 * width * height
    &&& forall|r: int, x: int|
        #![trigger data[yuyv_index(width, r, x)]]
        0 <= r < height && 0 <= x < width ==> data[yuyv_index(width, r, x)] == luma_at(f, r, x)
            && data[yuyv_index(width, r, x) + 1] == chroma_at(f, r, x)
}

/// The checks `convert` makes, in order, before it writes any pixel.
pub open spec fn convert_check(conv_w: u32, conv_h: u32, f: Nv12Frame) -> Option<ConvertError> {
    let w = conv_w as int;
    let h = conv_h as int;
    if f.width != conv_w || f.height != conv_h || f.y_stride < w || f.uv_stride < w {
        Some(ConvertError::InvalidDimensions)
    } else if f.y_stride * h > usize::MAX || f.uv_stride * (h / 2) > usize::MAX {
        Some(ConvertError::InvalidPlaneLayout)
    } else if f.y_plane@.len() < f.y_stride * h || f.uv_plane@.len() < f.uv_stride * (h / 2) {
        Some(ConvertError::InvalidPlaneLayout)
    } else if w * h * 2 > usize::MAX {
        Some(ConvertError::InvalidDimensions)
    } else {
        None
    }
}

impl Nv12ToYuyvConverter {
    /// Every converter is for a non-zero, even size.
    #[verifier::type_invariant]
    spec fn dims_valid(self) -> bool {
        valid_converter_dimensions(self.width, self.height)
    }

    /// The width and height this converter was made for.
    pub closed spec fn dims(&self) -> (u32, u32) {
        (self.width, self.height)
    }

    /// Makes a converter for pictures of `width` by `height`; both must be
    /// non-zero and even.
    pub fn new(width: u32, height: u32) -> (res: Result<Self, ConvertError>)
        ensures
            valid_converter_dimensions(width, height) ==> (res matches Ok(c) && c.dims() == (
                width,
                height,
            )),
            !valid_converter_dimensions(width, height) ==> res matches Err(
                ConvertError::InvalidDimensions,
            ),
    {
        if width == 0 || height == 0 || width % 2 != 0 || height % 2 != 0 {
            return Err(ConvertError::InvalidDimensions);
        }
        Ok(Self { width, height })
    }

    /// Repacks a picture of this converter's size into YUYV, reading each
    /// plane by its stride.
    pub fn convert(&mut self, frame: &Nv12Frame) -> (res: Result<YuyvFrame, ConvertError>)
        ensures
            final(self).dims() == old(self).dims(),
            match convert_check(old(self).dims().0, old(self).dims().1, *frame) {
                Some(e) => res == Err::<YuyvFrame, ConvertError>(e),
                None => (res matches Ok(out) && out.width == old(self).dims().0 && out.height == old(
                    self,
                ).dims().1 && is_yuyv_of(
                    *frame,
                    old(self).dims().0 as int,
                    old(self).dims().1 as int,
                    out.data@,
                )),
            },
    {
        proof {
            use_type_invariant(&*self);
        }
        if frame.width != self.width || frame.height != self.height || frame.y_stride
            < self.width as usize || frame.uv_stride < self.width as usize {
            return Err(ConvertError::InvalidDimensions);
        }
        let height = self.height as usize;
        let width = self.width as usize;
        let required_y_len = match frame.y_stride.checked_mul(height) {
            Some(n) => n,
            None => return Err(ConvertError::InvalidPlaneLayout),
        };
        let required_uv_len = match frame.uv_stride.checked_mul(height / 2) {
            Some(n) => n,
            None => return Err(ConvertError::InvalidPlaneLayout),
        };
        if frame.y_plane.len() < required_y_len || frame.uv_plane.len() < required_uv_len {
            return Err(ConvertError::InvalidPlaneLayout);
        }
        let output_len = match width.checked_mul(height) {
            Some(pixels) => match pixels.checked_mul(2) {
                Some(n) => n,
                None => return Err(ConvertError::InvalidDimensions),
            },
            None => return Err(ConvertError::InvalidDimensions),
        };
        proof {
            if (width * height) as int > usize::MAX {
                lemma_mul_le(1, width * height, 2, width * height);
            }
        }
        let mut data: Vec<u8> = Vec::with_capacity(output_len);
        let ghost f = *frame;
        let ghost w = width as int;
        let ghost h = height as int;
        proof {
            assert(frame.y_stride * h == h * frame.y_stride) by (nonlinear_arith);
            assert(frame.uv_stride * (h / 2) == (h / 2) * frame.uv_stride) by (nonlinear_arith);
            assert(w * h * 2 == 2 * (h * w)) by (nonlinear_arith);
        }
        let mut row: usize = 0;
        while row < height
            invariant
                f == *frame,
                w == width,
                h == height,
                w % 2 == 0,
                h % 2 == 0,
                0 < w,
                0 < h,
                row <= height,
                frame.y_stride >= width,
                frame.uv_stride >= width,
                h * frame.y_stride <= frame.y_plane@.len(),
                (h / 2) * frame.uv_stride <= frame.uv_plane@.len(),
                h * frame.y_stride <= usize::MAX,
                (h / 2) * frame.uv_stride <= usize::MAX,
                2 * (h * w) <= usize::MAX,
                data@.len() == 2 * (row * w),
                yuyv_prefix(f, w, data@, row as int, 0),
            decreases height - row,
        {
            proof {
                lemma_grid_index(row as int, 0, h, w);
                lemma_grid_index(row as int, 0, h, frame.y_stride as int);
                lemma_grid_index(row as int / 2, 0, h / 2, frame.uv_stride as int);
            }
            let y_row_start = row * frame.y_stride;
            let uv_row_start = (row / 2) * frame.uv_stride;
            let mut column: usize = 0;
            while column < width
                invariant
                    f == *frame,
                    w == width,
                    h == height,
                    w % 2 == 0,
                    0 < w,
                    row < height,
                    column <= width,
                    column % 2 == 0,
                    frame.y_stride >= width,
                    frame.uv_stride >= width,
                    y_row_start == row * frame.y_stride,
                    uv_row_start == (row / 2) * frame.uv_stride,
                    y_row_start + frame.y_stride <= frame.y_plane@.len(),
                    uv_row_start + frame.uv_stride <= frame.uv_plane@.len(),
                    y_row_start + frame.y_stride <= usize::MAX,
                    uv_row_start + frame.uv_stride <= usize::MAX,
                    2 * (row * w + w) <= usize::MAX,
                    data@.len() == 2 * (row * w + column),
                    yuyv_prefix(f, w, data@, row as int, column as int),
                decreases width - column,
            {
                let ghost old_data = data@;
                data.push(frame.y_plane[y_row_start + column]);
                data.push(frame.uv_plane[uv_row_start + column]);
                data.push(frame.y_plane[y_row_start + column + 1]);
                data.push(frame.uv_plane[uv_row_start + column + 1]);
                proof {
                    let r = row as int;
                    let c = column as int;
                    assert(yuyv_index(w, r, c) == 2 * (r * w + c));
                    assert(yuyv_index(w, r, c + 1) == 2 * (r * w + c) + 2);
                    assert(data@[yuyv_index(w, r, c)] == luma_at(f, r, c));
                    assert(data@[yuyv_index(w, r, c) + 1] == chroma_at(f, r, c));
                    assert(data@[yuyv_index(w, r, c + 1)] == luma_at(f, r, c + 1));
                    assert(data@[yuyv_index(w, r, c + 1) + 1] == chroma_at(f, r, c + 1));
                    assert forall|rr: int, x: int|
                        #![trigger data@[yuyv_index(w, rr, x)]]
                        0 <= rr < r && 0 <= x < w implies data@[yuyv_index(w, rr, x)] == luma_at(
                            f,
                            rr,
                            x,
                        ) && data@[yuyv_index(w, rr, x) + 1] == chroma_at(f, rr, x) by {
                        lemma_grid_index(rr, x, r, w);
                        assert(old_data[yuyv_index(w, rr, x)] == luma_at(f, rr, x));
                    }
                    assert forall|x: int|
                        #![trigger data@[yuyv_index(w, r, x)]]
                        0 <= x < c + 2 implies data@[yuyv_index(w, r, x)] == luma_at(f, r, x)
                            && data@[yuyv_index(w, r, x) + 1] == chroma_at(f, r, x) by {
                        if x < c {
                            assert(old_data[yuyv_index(w, r, x)] == luma_at(f, r, x));
                        }
                    }
                    assert(yuyv_prefix(f, w, data@, r, c + 2));
                }
                column = column + 2;
            }
            proof {
                let r = row as int;
                lemma_next_row(r, w);
                assert forall|rr: int, x: int|
                    #![trigger data@[yuyv_index(w, rr, x)]]
                    0 <= rr < r + 1 && 0 <= x < w implies data@[yuyv_index(w, rr, x)] == luma_at(
                        f,
                        rr,
                        x,
                    ) && data@[yuyv_index(w, rr, x) + 1] == chroma_at(f, rr, x) by {
                    if rr < r {
                    } else {
                        assert(data@[yuyv_index(w, r, x)] == luma_at(f, r, x));
                    }
                }
            }
            row = row + 1;
        }
        proof {
            assert(row * w == h * w);
            assert(2 * (h * w) == 2 * w * h) by (nonlinear_arith);
        }
        Ok(YuyvFrame { width: self.width, height: self.height, data })
    }
}

/// Law: in the YUYV form of an NV12 picture, pixel `x` of row `r` is its
/// luma byte `y_plane[r * y_stride + x]` followed by the byte
/// `uv_plane[(r / 2) * uv_stride + x]` of the interleaved U/V pair of its
/// 2x2 block: U for an even column, V for an odd one.
pub proof fn lemma_yuyv_pixel(f: Nv12Frame, width: int, height: int, data: Seq<u8>, r: int, x: int)
    requires
        is_yuyv_of(f, width, height, data),
        0 <= r < height,
        0 <= x < width,
    ensures
        data.len() == 2 * width * height,
        data[2 * (r * width + x)] == f.y_plane@[r * f.y_stride + x],
        data[2 * (r * width + x) + 1] == f.uv_plane@[(r / 2) * f.uv_stride + x],
{
    assert(data[yuyv_index(width, r, x)] == luma_at(f, r, x));
}

} // verus!
