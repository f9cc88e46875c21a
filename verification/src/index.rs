use vstd::prelude::*;

verus! {

/// Row-major position of cell `(x, y)` in a grid `w` cells wide.
pub open spec fn cell(w: int, x: int, y: int) -> int {
    y * w + x
}

/// A cell inside a `w` by `h` grid has a position in `0 .. w * h`.
pub proof fn lemma_cell_in_grid(w: int, h: int, x: int, y: int)
    requires
        0 <= x < w,
        0 <= y < h,
    ensures
        0 <= cell(w, x, y) < w * h,
        cell(w, x, y) + 1 <= w * h,
{
    assert(0 <= y * w) by (nonlinear_arith)
        requires
            0 <= y,
            0 <= w,
    ;
    assert(y * w + x < w * h) by (nonlinear_arith)
        requires
            0 <= x < w,
            0 <= y < h,
    ;
}

/// Distinct cells of a grid have distinct positions.
pub proof fn lemma_cell_injective(w: int, x1: int, y1: int, x2: int, y2: int)
    requires
        0 <= x1 < w,
        0 <= x2 < w,
        0 <= y1,
        0 <= y2,
        cell(w, x1, y1) == cell(w, x2, y2),
    ensures
        x1 == x2,
        y1 == y2,
{
    if y1 < y2 {
        assert(y1 * w + w <= y2 * w) by (nonlinear_arith)
            requires
                y1 < y2,
                0 <= w,
        ;
    } else if y2 < y1 {
        assert(y2 * w + w <= y1 * w) by (nonlinear_arith)
            requires
                y2 < y1,
                0 <= w,
        ;
    }
}

/// Four-byte groups of distinct cells do not overlap.
pub proof fn lemma_cell4_disjoint(w: int, x1: int, y1: int, c1: int, x2: int, y2: int, c2: int)
    requires
        0 <= x1 < w,
        0 <= x2 < w,
        0 <= y1,
        0 <= y2,
        0 <= c1 < 4,
        0 <= c2 < 4,
        x1 != x2 || y1 != y2,
    ensures
        4 * cell(w, x1, y1) + c1 != 4 * cell(w, x2, y2) + c2,
{
    if cell(w, x1, y1) == cell(w, x2, y2) {
        lemma_cell_injective(w, x1, y1, x2, y2);
    }
}

/// Every position of a `w` by `h` grid (with `w > 0`) is the position of a cell.
pub proof fn lemma_position_is_cell(w: int, h: int, p: int)
    requires
        0 < w,
        0 <= p < w * h,
    ensures
        0 <= p % w < w,
        0 <= p / w < h,
        cell(w, p % w, p / w) == p,
{
    assert(p == w * (p / w) + p % w) by (nonlinear_arith)
        requires
            0 < w,
    ;
    assert(p / w < h) by (nonlinear_arith)
        requires
            0 < w,
            0 <= p < w * h,
    ;
    assert(0 <= p / w) by (nonlinear_arith)
        requires
            0 < w,
            0 <= p,
    ;
    assert((p / w) * w == w * (p / w)) by (nonlinear_arith);
}

} // verus!
