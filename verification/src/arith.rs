//! Small facts about products used by the image-layout proofs.
use vstd::prelude::*;

verus! {

/// A position in row `r`, column `x` of a row-major grid lies before the
/// end of a grid of `rows` rows of `width` entries.
pub proof fn lemma_grid_index(r: int, x: int, rows: int, width: int)
    requires
        0 <= r < rows,
        0 <= x < width,
    ensures
        0 <= r * width,
        r * width + x < rows * width,
        r * width + width <= rows * width,
{
    assert(0 <= r * width) by (nonlinear_arith)
        requires
            0 <= r,
            0 <= width,
    ;
    assert(r * width + width <= rows * width) by (nonlinear_arith)
        requires
            r < rows,
            0 <= width,
    ;
}

/// Row `r` of a grid of `rows` rows of `width` entries ends within the grid.
pub proof fn lemma_row_bound(r: int, rows: int, width: int)
    requires
        0 <= r < rows,
        0 <= width,
    ensures
        0 <= r * width,
        r * width + width <= rows * width,
{
    assert(0 <= r * width) by (nonlinear_arith)
        requires
            0 <= r,
            0 <= width,
    ;
    assert(r * width + width <= rows * width) by (nonlinear_arith)
        requires
            r < rows,
            0 <= width,
    ;
}

/// Row `r + 1` starts `width` entries after row `r`.
pub proof fn lemma_next_row(r: int, width: int)
    ensures
        (r + 1) * width == r * width + width,
{
    assert((r + 1) * width == r * width + width) by (nonlinear_arith);
}

/// Products of bounded factors are bounded.
pub proof fn lemma_mul_le(a: int, b: int, c: int, d: int)
    requires
        0 <= a <= c,
        0 <= b <= d,
    ensures
        0 <= a * b <= c * d,
{
    assert(0 <= a * b <= c * d) by (nonlinear_arith)
        requires
            0 <= a <= c,
            0 <= b <= d,
    ;
}

} // verus!
