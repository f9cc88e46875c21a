use vstd::prelude::*;

verus! {

/// Sum of `f(x, y)` over `x0 <= x < x1`.
pub open spec fn row_sum(f: spec_fn(int, int) -> int, y: int, x0: int, x1: int) -> int
    decreases x1 - x0,
{
    if x1 <= x0 {
        0
    } else {
        row_sum(f, y, x0, x1 - 1) + f(x1 - 1, y)
    }
}

/// Sum of `f(x, y)` over `x0 <= x < x1`, `y0 <= y < y1`, row by row.
pub open spec fn win_sum(f: spec_fn(int, int) -> int, x0: int, x1: int, y0: int, y1: int) -> int
    decreases y1 - y0,
{
    if y1 <= y0 {
        0
    } else {
        win_sum(f, x0, x1, y0, y1 - 1) + row_sum(f, y1 - 1, x0, x1)
    }
}

/// Number of integers of `a0 .. a1` that lie in `0 .. n`.
pub open spec fn overlap(a0: int, a1: int, n: int) -> int {
    let lo = if a0 >= 0 { a0 } else { 0 };
    let hi = if a1 <= n { a1 } else { n };
    if hi > lo { hi - lo } else { 0 }
}

/// Indicator of the grid `0 .. w` by `0 .. h`.
pub open spec fn inside(w: int, h: int) -> spec_fn(int, int) -> int {
    |x: int, y: int| if 0 <= x < w && 0 <= y < h { 1int } else { 0int }
}

pub proof fn lemma_row_le(f: spec_fn(int, int) -> int, g: spec_fn(int, int) -> int, y: int, x0: int, x1: int)
    requires
        forall|x: int| x0 <= x < x1 ==> #[trigger] f(x, y) <= g(x, y),
    ensures
        row_sum(f, y, x0, x1) <= row_sum(g, y, x0, x1),
    decreases x1 - x0,
{
    if x1 > x0 {
        lemma_row_le(f, g, y, x0, x1 - 1);
    }
}

/// A pointwise bound carries over to window sums.
pub proof fn lemma_win_le(
    f: spec_fn(int, int) -> int,
    g: spec_fn(int, int) -> int,
    x0: int,
    x1: int,
    y0: int,
    y1: int,
)
    requires
        forall|x: int, y: int| x0 <= x < x1 && y0 <= y < y1 ==> #[trigger] f(x, y) <= g(x, y),
    ensures
        win_sum(f, x0, x1, y0, y1) <= win_sum(g, x0, x1, y0, y1),
    decreases y1 - y0,
{
    if y1 > y0 {
        lemma_win_le(f, g, x0, x1, y0, y1 - 1);
        lemma_row_le(f, g, y1 - 1, x0, x1);
    }
}

pub proof fn lemma_row_scale(f: spec_fn(int, int) -> int, g: spec_fn(int, int) -> int, k: int, y: int, x0: int, x1: int)
    requires
        forall|x: int| x0 <= x < x1 ==> #[trigger] f(x, y) == k * g(x, y),
    ensures
        row_sum(f, y, x0, x1) == k * row_sum(g, y, x0, x1),
    decreases x1 - x0,
{
    if x1 > x0 {
        lemma_row_scale(f, g, k, y, x0, x1 - 1);
        let a = row_sum(g, y, x0, x1 - 1);
        let b = g(x1 - 1, y);
        assert(k * a + k * b == k * (a + b)) by (nonlinear_arith);
    }
}

/// Terms that are `k` times other terms sum to `k` times their sum.
pub proof fn lemma_win_scale(f: spec_fn(int, int) -> int, g: spec_fn(int, int) -> int, k: int, x0: int, x1: int, y0: int, y1: int)
    requires
        forall|x: int, y: int| x0 <= x < x1 && y0 <= y < y1 ==> #[trigger] f(x, y) == k * g(x, y),
    ensures
        win_sum(f, x0, x1, y0, y1) == k * win_sum(g, x0, x1, y0, y1),
    decreases y1 - y0,
{
    if y1 > y0 {
        lemma_win_scale(f, g, k, x0, x1, y0, y1 - 1);
        lemma_row_scale(f, g, k, y1 - 1, x0, x1);
        let a = win_sum(g, x0, x1, y0, y1 - 1);
        let b = row_sum(g, y1 - 1, x0, x1);
        assert(k * a + k * b == k * (a + b)) by (nonlinear_arith);
    }
}

pub proof fn lemma_row_nonneg(f: spec_fn(int, int) -> int, y: int, x0: int, x1: int)
    requires
        forall|x: int| x0 <= x < x1 ==> #[trigger] f(x, y) >= 0,
    ensures
        row_sum(f, y, x0, x1) >= 0,
    decreases x1 - x0,
{
    if x1 > x0 {
        lemma_row_nonneg(f, y, x0, x1 - 1);
    }
}

/// A window sum of non-negative terms is non-negative.
pub proof fn lemma_win_nonneg(f: spec_fn(int, int) -> int, x0: int, x1: int, y0: int, y1: int)
    requires
        forall|x: int, y: int| x0 <= x < x1 && y0 <= y < y1 ==> #[trigger] f(x, y) >= 0,
    ensures
        win_sum(f, x0, x1, y0, y1) >= 0,
    decreases y1 - y0,
{
    if y1 > y0 {
        lemma_win_nonneg(f, x0, x1, y0, y1 - 1);
        lemma_row_nonneg(f, y1 - 1, x0, x1);
    }
}

/// A partial row of non-negative terms is at most the whole row.
pub proof fn lemma_row_prefix_le(f: spec_fn(int, int) -> int, y: int, x0: int, xm: int, x1: int)
    requires
        x0 <= xm <= x1,
        forall|x: int| x0 <= x < x1 ==> #[trigger] f(x, y) >= 0,
    ensures
        row_sum(f, y, x0, xm) <= row_sum(f, y, x0, x1),
    decreases x1 - xm,
{
    if xm < x1 {
        lemma_row_prefix_le(f, y, x0, xm, x1 - 1);
    }
}

/// The rows before `ym` plus a prefix of row `ym` is at most the whole window,
/// when all terms are non-negative.
pub proof fn lemma_win_prefix_le(
    f: spec_fn(int, int) -> int,
    x0: int,
    xm: int,
    x1: int,
    y0: int,
    ym: int,
    y1: int,
)
    requires
        x0 <= xm <= x1,
        y0 <= ym < y1,
        forall|x: int, y: int| x0 <= x < x1 && y0 <= y < y1 ==> #[trigger] f(x, y) >= 0,
    ensures
        win_sum(f, x0, x1, y0, ym) + row_sum(f, ym, x0, xm) <= win_sum(f, x0, x1, y0, y1),
    decreases y1 - ym,
{
    lemma_row_prefix_le(f, ym, x0, xm, x1);
    if ym + 1 < y1 {
        lemma_win_prefix_le(f, x0, x1, x1, y0, ym + 1, y1);
        lemma_row_nonneg(f, ym + 1, x0, x1);
    }
}

pub proof fn lemma_row_inside(w: int, h: int, y: int, x0: int, x1: int)
    requires
        x0 <= x1,
    ensures
        row_sum(inside(w, h), y, x0, x1) == if 0 <= y < h { overlap(x0, x1, w) } else { 0 },
    decreases x1 - x0,
{
    if x1 > x0 {
        lemma_row_inside(w, h, y, x0, x1 - 1);
    }
}

/// Counting the cells of a window that lie in a `w` by `h` grid.
pub proof fn lemma_win_inside(w: int, h: int, x0: int, x1: int, y0: int, y1: int)
    requires
        x0 <= x1,
        y0 <= y1,
    ensures
        win_sum(inside(w, h), x0, x1, y0, y1) == overlap(x0, x1, w) * overlap(y0, y1, h),
    decreases y1 - y0,
{
    if y1 > y0 {
        lemma_win_inside(w, h, x0, x1, y0, y1 - 1);
        lemma_row_inside(w, h, y1 - 1, x0, x1);
        let a = overlap(x0, x1, w);
        assert(a * overlap(y0, y1 - 1, h) + (if 0 <= y1 - 1 < h { a } else { 0 }) == a * overlap(
            y0,
            y1,
            h,
        )) by (nonlinear_arith)
            requires
                overlap(y0, y1, h) == overlap(y0, y1 - 1, h) + (if 0 <= y1 - 1 < h { 1int } else { 0int }),
        ;
    }
}

/// Terms that vanish from `xm` on add nothing to a row.
pub proof fn lemma_row_zero_tail(f: spec_fn(int, int) -> int, y: int, x0: int, xm: int, x1: int)
    requires
        x0 <= xm <= x1,
        forall|x: int| xm <= x < x1 ==> #[trigger] f(x, y) == 0,
    ensures
        row_sum(f, y, x0, x1) == row_sum(f, y, x0, xm),
    decreases x1 - xm,
{
    if x1 > xm {
        lemma_row_zero_tail(f, y, x0, xm, x1 - 1);
    }
}

/// Rows whose terms all vanish from `ym` on add nothing to a window.
pub proof fn lemma_win_zero_tail(f: spec_fn(int, int) -> int, x0: int, x1: int, y0: int, ym: int, y1: int)
    requires
        x0 <= x1,
        y0 <= ym <= y1,
        forall|x: int, y: int| ym <= y < y1 ==> #[trigger] f(x, y) == 0,
    ensures
        win_sum(f, x0, x1, y0, y1) == win_sum(f, x0, x1, y0, ym),
    decreases y1 - ym,
{
    if y1 > ym {
        lemma_win_zero_tail(f, x0, x1, y0, ym, y1 - 1);
        lemma_row_zero_tail(f, y1 - 1, x0, x0, x1);
    }
}

/// The overlap of a window of half-width `r` centred on a grid cell is between 1 and
/// `min(2r + 1, n)`.
pub proof fn lemma_overlap_centred(c: int, r: int, n: int)
    requires
        0 <= c < n,
        0 <= r,
    ensures
        1 <= overlap(c - r, c + r + 1, n) <= 2 * r + 1,
        overlap(c - r, c + r + 1, n) <= n,
{
}

} // verus!

verus! {

/// Largest `f(x, y)` over `x0 <= x < x1`, and 0 over an empty range.
pub open spec fn row_max(f: spec_fn(int, int) -> int, y: int, x0: int, x1: int) -> int
    decreases x1 - x0,
{
    if x1 <= x0 {
        0
    } else {
        let a = row_max(f, y, x0, x1 - 1);
        let b = f(x1 - 1, y);
        if a >= b { a } else { b }
    }
}

/// Largest `f(x, y)` over a window, and 0 over an empty window.
pub open spec fn win_max(f: spec_fn(int, int) -> int, x0: int, x1: int, y0: int, y1: int) -> int
    decreases y1 - y0,
{
    if y1 <= y0 {
        0
    } else {
        let a = win_max(f, x0, x1, y0, y1 - 1);
        let b = row_max(f, y1 - 1, x0, x1);
        if a >= b { a } else { b }
    }
}

/// Smallest `f(x, y)` over `x0 <= x < x1`, and 255 over an empty range.
pub open spec fn row_min(f: spec_fn(int, int) -> int, y: int, x0: int, x1: int) -> int
    decreases x1 - x0,
{
    if x1 <= x0 {
        255
    } else {
        let a = row_min(f, y, x0, x1 - 1);
        let b = f(x1 - 1, y);
        if a <= b { a } else { b }
    }
}

/// Smallest `f(x, y)` over a window, and 255 over an empty window.
pub open spec fn win_min(f: spec_fn(int, int) -> int, x0: int, x1: int, y0: int, y1: int) -> int
    decreases y1 - y0,
{
    if y1 <= y0 {
        255
    } else {
        let a = win_min(f, x0, x1, y0, y1 - 1);
        let b = row_min(f, y1 - 1, x0, x1);
        if a <= b { a } else { b }
    }
}

} // verus!
