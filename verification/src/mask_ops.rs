use vstd::prelude::*;
use crate::index::{cell, lemma_cell_in_grid, lemma_position_is_cell};
use crate::masks::Mask;
use crate::filters::mean;
use crate::window::{
    inside, lemma_overlap_centred, lemma_row_zero_tail, lemma_win_zero_tail, lemma_win_inside, lemma_win_prefix_le, overlap, row_max, row_min,
    row_sum, win_max, win_min, win_sum,
};

verus! {

/// The values of a `w` by `h` grid as a function of position, 0 outside the grid.
pub open spec fn grid_term(w: int, h: int, data: Seq<u8>) -> spec_fn(int, int) -> int {
    |x: int, y: int| if 0 <= x < w && 0 <= y < h { data[cell(w, x, y)] as int } else { 0int }
}

/// Mean of the grid values within `r` of `(x, y)` (the mask box blur).
pub open spec fn grid_mean(w: int, h: int, data: Seq<u8>, r: int, x: int, y: int) -> int {
    mean(
        win_sum(grid_term(w, h, data), x - r, x + r + 1, y - r, y + r + 1),
        win_sum(inside(w, h), x - r, x + r + 1, y - r, y + r + 1),
    )
}

/// The mask cells after a box blur of half-width `r` (unchanged for `r == 0`).
pub open spec fn blur_cells(w: int, h: int, data: Seq<u8>, r: int) -> Seq<u8> {
    if r == 0 {
        data
    } else {
        Seq::new((w * h) as nat, |i: int| grid_mean(w, h, data, r, i % w, i / w) as u8)
    }
}

/// Largest value among `(x, y)` and its eight neighbours inside the grid.
pub open spec fn grid_dilate_at(w: int, h: int, data: Seq<u8>, x: int, y: int) -> int {
    win_max(grid_term(w, h, data), x - 1, x + 2, y - 1, y + 2)
}

/// Smallest value among `(x, y)` and its eight neighbours, reading 0 outside the grid.
pub open spec fn grid_erode_at(w: int, h: int, data: Seq<u8>, x: int, y: int) -> int {
    win_min(grid_term(w, h, data), x - 1, x + 2, y - 1, y + 2)
}

/// The grid after one dilation step.
pub open spec fn dilate_cells(w: int, h: int, data: Seq<u8>) -> Seq<u8> {
    Seq::new((w * h) as nat, |i: int| grid_dilate_at(w, h, data, i % w, i / w) as u8)
}

/// The grid after one erosion step.
pub open spec fn erode_cells(w: int, h: int, data: Seq<u8>) -> Seq<u8> {
    Seq::new((w * h) as nat, |i: int| grid_erode_at(w, h, data, i % w, i / w) as u8)
}

/// The grid after `n` dilation steps.
pub open spec fn dilate_times(w: int, h: int, data: Seq<u8>, n: nat) -> Seq<u8>
    decreases n,
{
    if n == 0 { data } else { dilate_cells(w, h, dilate_times(w, h, data, (n - 1) as nat)) }
}

/// The grid after `n` erosion steps.
pub open spec fn erode_times(w: int, h: int, data: Seq<u8>, n: nat) -> Seq<u8>
    decreases n,
{
    if n == 0 { data } else { erode_cells(w, h, erode_times(w, h, data, (n - 1) as nat)) }
}

/// A mask whose cells equal `f` cell by cell has exactly the data `Seq::new(w * h, ..)`.
pub proof fn lemma_cells_equal(m: &Mask, f: spec_fn(int, int) -> u8, expected: Seq<u8>)
    requires
        m.wf(),
        m.width >= 1,
        expected.len() == m.width * m.height,
        forall|x: int, y: int| m.in_range(x, y) ==> #[trigger] m.at(x, y) == f(x, y),
        forall|i: int| 0 <= i < expected.len() ==> #[trigger] expected[i] == f(i % (m.width as int), i / (m.width as int)),
    ensures
        m.data@ == expected,
{
    let w = m.width as int;
    assert forall|i: int| 0 <= i < expected.len() implies m.data@[i] == expected[i] by {
        lemma_position_is_cell(w, m.height as int, i);
        assert(m.at(i % w, i / w) == f(i % w, i / w));
    }
    assert(m.data@ =~= expected);
}

/// Sum and count of the mask window of half-width `r` around `(x, y)`.
fn mask_window_total(m: &Mask, x: i64, y: i64, r: i64) -> (res: (u64, u64))
    requires
        m.wf(),
        m.in_range(x as int, y as int),
        m.width <= i32::MAX,
        m.height <= i32::MAX,
        0 <= r <= u32::MAX,
    ensures
        res.0 == win_sum(
            grid_term(m.width as int, m.height as int, m.data@),
            x - r,
            x + r + 1,
            y - r,
            y + r + 1,
        ),
        res.1 == win_sum(inside(m.width as int, m.height as int), x - r, x + r + 1, y - r, y + r + 1),
        res.1 >= 1,
        res.0 <= 255 * res.1,
{
    let ghost w = m.width as int;
    let ghost h = m.height as int;
    let ghost ind = inside(w, h);
    let ghost term = grid_term(w, h, m.data@);
    let ghost x0 = x - r;
    let ghost x1 = x + r + 1;
    let ghost y0 = y - r;
    let ghost y1 = y + r + 1;
    let ghost total = overlap(x0, x1, w) * overlap(y0, y1, h);
    proof {
        lemma_win_inside(w, h, x0, x1, y0, y1);
        lemma_overlap_centred(x as int, r as int, w);
        lemma_overlap_centred(y as int, r as int, h);
        let ox = overlap(x0, x1, w);
        let oy = overlap(y0, y1, h);
        assert(ox * oy <= w * h) by (nonlinear_arith)
            requires
                1 <= ox <= w,
                1 <= oy <= h,
        ;
        assert(1 <= ox * oy) by (nonlinear_arith)
            requires
                1 <= ox,
                1 <= oy,
        ;
    }
    let mut sum: u64 = 0;
    let mut count: u64 = 0;
    // Only the rows and columns of the window that meet the mask hold cells.
    let ylo: i64 = if y - r < 0 { 0 } else { y - r };
    let yhi: i64 = if y + r + 1 < m.height as i64 { y + r + 1 } else { m.height as i64 };
    let xlo: i64 = if x - r < 0 { 0 } else { x - r };
    let xhi: i64 = if x + r + 1 < m.width as i64 { x + r + 1 } else { m.width as i64 };
    proof {
        lemma_win_zero_tail(ind, x0, x1, y0, y0, ylo as int);
        lemma_win_zero_tail(term, x0, x1, y0, y0, ylo as int);
    }
    let mut yy: i64 = ylo;
    while yy < yhi
        invariant
            m.wf(),
            w == m.width,
            h == m.height,
            ind == inside(w, h),
            term == grid_term(w, h, m.data@),
            x0 == x - r,
            x1 == x + r + 1,
            y0 == y - r,
            y1 == y + r + 1,
            0 <= x < w <= i32::MAX,
            0 <= y < h <= i32::MAX,
            0 <= r <= u32::MAX,
            y0 <= ylo <= yy <= yhi <= y1,
            yhi == y1 || yhi == h,
            x0 <= xlo <= xhi <= x1,
            xlo == x0 || xlo == 0,
            xhi == x1 || xhi == w,
            0 <= ylo,
            yhi <= h,
            0 <= xlo,
            xhi <= w,
            total == win_sum(ind, x0, x1, y0, y1),
            total <= u32::MAX,
            count == win_sum(ind, x0, x1, y0, yy as int),
            count <= total,
            sum == win_sum(term, x0, x1, y0, yy as int),
            sum <= 255 * count,
        decreases yhi - yy,
    {
        proof {
            lemma_row_zero_tail(ind, yy as int, x0, x0, xlo as int);
            lemma_row_zero_tail(term, yy as int, x0, x0, xlo as int);
        }
        let mut xx: i64 = xlo;
        while xx < xhi
            invariant
                m.wf(),
                w == m.width,
                h == m.height,
                ind == inside(w, h),
                term == grid_term(w, h, m.data@),
                x0 == x - r,
                x1 == x + r + 1,
                y0 == y - r,
                y1 == y + r + 1,
                0 <= x < w <= i32::MAX,
                0 <= y < h <= i32::MAX,
                0 <= r <= u32::MAX,
                y0 <= yy < y1,
                0 <= yy < h,
                x0 <= xlo <= xx <= xhi <= x1,
                0 <= xlo,
                xhi <= w,
                total == win_sum(ind, x0, x1, y0, y1),
                total <= u32::MAX,
                count == win_sum(ind, x0, x1, y0, yy as int) + row_sum(ind, yy as int, x0, xx as int),
                count <= total,
                sum == win_sum(term, x0, x1, y0, yy as int) + row_sum(term, yy as int, x0, xx as int),
                sum <= 255 * count,
            decreases xhi - xx,
        {
            proof {
                assert forall|a: int, b: int| x0 <= a < x1 && y0 <= b < y1 implies #[trigger] ind(a, b) >= 0 by {}
                lemma_win_prefix_le(ind, x0, xx + 1, x1, y0, yy as int, y1);
                lemma_cell_in_grid(w, h, xx as int, yy as int);
            }
            let v = m.get(xx as u32, yy as u32);
            sum = sum + v as u64;
            count = count + 1;
            xx += 1;
        }
        proof {
            lemma_row_zero_tail(ind, yy as int, x0, xhi as int, x1);
            lemma_row_zero_tail(term, yy as int, x0, xhi as int, x1);
        }
        yy += 1;
    }
    proof {
        lemma_win_zero_tail(ind, x0, x1, y0, yhi as int, y1);
        lemma_win_zero_tail(term, x0, x1, y0, yhi as int, y1);
    }
    (sum, count)
}

/// Box blur of a mask with half-width `radius`: every cell becomes the mean of the cells
/// of the mask within `radius` in both directions.
pub fn blur_mask(mask: &Mask, radius: u32) -> (out: Mask)
    requires
        mask.wf(),
        mask.width <= i32::MAX,
        mask.height <= i32::MAX,
    ensures
        out.wf(),
        out.same_shape(mask),
        out.data@ == blur_cells(mask.width as int, mask.height as int, mask.data@, radius as int),
        radius == 0 ==> out.data@ == mask.data@,
        radius > 0 ==> forall|x: int, y: int|
            mask.in_range(x, y) ==> #[trigger] out.at(x, y) == grid_mean(
                mask.width as int,
                mask.height as int,
                mask.data@,
                radius as int,
                x,
                y,
            ),
{
    if radius == 0 {
        return mask.duplicate();
    }
    let mut out = Mask::new(mask.width, mask.height, 0);
    if mask.width == 0 || mask.height == 0 {
        assert(mask.width * mask.height == 0) by (nonlinear_arith)
            requires
                mask.width == 0 || mask.height == 0,
        ;
        assert(out.data@ =~= mask.data@);
        assert(out.data@ =~= blur_cells(mask.width as int, mask.height as int, mask.data@, radius as int));
        return out;
    }
    assert(mask.width <= mask.width * mask.height && mask.height <= mask.width * mask.height) by (nonlinear_arith)
        requires
            mask.width >= 1,
            mask.height >= 1,
    ;
    let r = radius as i64;
    let w = mask.width as i64;
    let h = mask.height as i64;
    let mut y: i64 = 0;
    while y < h
        invariant
            mask.wf(),
            out.wf(),
            out.same_shape(mask),
            w == mask.width,
            h == mask.height,
            1 <= w <= i32::MAX,
            1 <= h <= i32::MAX,
            r == radius,
            0 < r <= u32::MAX,
            0 <= y <= h,
            forall|px: int, py: int|
                mask.in_range(px, py) && py < y ==> #[trigger] out.at(px, py) == grid_mean(
                    w as int,
                    h as int,
                    mask.data@,
                    r as int,
                    px,
                    py,
                ),
        decreases h - y,
    {
        let mut x: i64 = 0;
        while x < w
            invariant
                mask.wf(),
                out.wf(),
                out.same_shape(mask),
                w == mask.width,
                h == mask.height,
                1 <= w <= i32::MAX,
                1 <= h <= i32::MAX,
                r == radius,
                0 < r <= u32::MAX,
                0 <= y < h,
                0 <= x <= w,
                forall|px: int, py: int|
                    mask.in_range(px, py) && (py < y || (py == y && px < x)) ==> #[trigger] out.at(px, py)
                        == grid_mean(w as int, h as int, mask.data@, r as int, px, py),
            decreases w - x,
        {
            let (sum, count) = mask_window_total(mask, x, y, r);
            assert(sum / count <= 255) by (nonlinear_arith)
                requires
                    sum <= 255 * count,
                    count >= 1,
            ;
            out.set(x as u32, y as u32, (sum / count) as u8);
            x += 1;
        }
        y += 1;
    }
    proof {
        let wi = mask.width as int;
        let hi = mask.height as int;
        lemma_cells_equal(
            &out,
            |px: int, py: int| grid_mean(wi, hi, mask.data@, radius as int, px, py) as u8,
            blur_cells(wi, hi, mask.data@, radius as int),
        );
    }
    out
}

/// One dilation step: every cell becomes the largest value among itself and its eight
/// neighbours inside the mask.
pub fn dilate(mask: &Mask) -> (out: Mask)
    requires
        mask.wf(),
        mask.width <= i32::MAX,
        mask.height <= i32::MAX,
    ensures
        out.wf(),
        out.same_shape(mask),
        out.data@ == dilate_cells(mask.width as int, mask.height as int, mask.data@),
{
    neighbourhood(mask, true)
}

/// One erosion step: every cell becomes the smallest value among itself and its eight
/// neighbours, where a neighbour outside the mask counts as 0.
pub fn erode(mask: &Mask) -> (out: Mask)
    requires
        mask.wf(),
        mask.width <= i32::MAX,
        mask.height <= i32::MAX,
    ensures
        out.wf(),
        out.same_shape(mask),
        out.data@ == erode_cells(mask.width as int, mask.height as int, mask.data@),
{
    neighbourhood(mask, false)
}

/// The 3 by 3 maximum (`grow`) or minimum of `mask`.
fn neighbourhood(mask: &Mask, grow: bool) -> (out: Mask)
    requires
        mask.wf(),
        mask.width <= i32::MAX,
        mask.height <= i32::MAX,
    ensures
        out.wf(),
        out.same_shape(mask),
        grow ==> out.data@ == dilate_cells(mask.width as int, mask.height as int, mask.data@),
        !grow ==> out.data@ == erode_cells(mask.width as int, mask.height as int, mask.data@),
{
    let mut out = mask.duplicate();
    let ghost wi = mask.width as int;
    let ghost hi = mask.height as int;
    let ghost term = grid_term(wi, hi, mask.data@);
    if mask.width == 0 || mask.height == 0 {
        assert(mask.width * mask.height == 0) by (nonlinear_arith)
            requires
                mask.width == 0 || mask.height == 0,
        ;
        assert(out.data@ =~= dilate_cells(wi, hi, mask.data@));
        assert(out.data@ =~= erode_cells(wi, hi, mask.data@));
        return out;
    }
    assert(mask.width <= mask.width * mask.height && mask.height <= mask.width * mask.height) by (nonlinear_arith)
        requires
            mask.width >= 1,
            mask.height >= 1,
    ;
    let w = mask.width as i64;
    let h = mask.height as i64;
    let mut y: i64 = 0;
    while y < h
        invariant
            mask.wf(),
            out.wf(),
            out.same_shape(mask),
            w == mask.width,
            h == mask.height,
            wi == w,
            hi == h,
            term == grid_term(wi, hi, mask.data@),
            1 <= w <= i32::MAX,
            1 <= h <= i32::MAX,
            w <= w * h <= u32::MAX,
            h <= w * h,
            0 <= y <= h,
            forall|px: int, py: int|
                mask.in_range(px, py) && py < y ==> #[trigger] out.at(px, py) == if grow {
                    grid_dilate_at(wi, hi, mask.data@, px, py)
                } else {
                    grid_erode_at(wi, hi, mask.data@, px, py)
                },
        decreases h - y,
    {
        let mut x: i64 = 0;
        while x < w
            invariant
                mask.wf(),
                out.wf(),
                out.same_shape(mask),
                w == mask.width,
                h == mask.height,
                wi == w,
                hi == h,
                term == grid_term(wi, hi, mask.data@),
                1 <= w <= i32::MAX,
                1 <= h <= i32::MAX,
                w <= w * h <= u32::MAX,
                h <= w * h,
                0 <= y < h,
                0 <= x <= w,
                forall|px: int, py: int|
                    mask.in_range(px, py) && (py < y || (py == y && px < x)) ==> #[trigger] out.at(px, py)
                        == if grow {
                        grid_dilate_at(wi, hi, mask.data@, px, py)
                    } else {
                        grid_erode_at(wi, hi, mask.data@, px, py)
                    },
            decreases w - x,
        {
            let mut v: u8 = if grow { 0 } else { 255 };
            let mut yy: i64 = y - 1;
            while yy <= y + 1
                invariant
                    mask.wf(),
                    w == mask.width,
                    h == mask.height,
                    wi == w,
                    hi == h,
                    term == grid_term(wi, hi, mask.data@),
                    1 <= w <= i32::MAX,
                    1 <= h <= i32::MAX,
                    w <= w * h <= u32::MAX,
                    h <= w * h,
                    0 <= y < h,
                    0 <= x < w,
                    y - 1 <= yy <= y + 2,
                    grow ==> v == win_max(term, x - 1, x + 2, y - 1, yy as int),
                    !grow ==> v == win_min(term, x - 1, x + 2, y - 1, yy as int),
                decreases y + 2 - yy,
            {
                let mut xx: i64 = x - 1;
                let ghost before = v;
                while xx <= x + 1
                    invariant
                        mask.wf(),
                        w == mask.width,
                        h == mask.height,
                        wi == w,
                        hi == h,
                        term == grid_term(wi, hi, mask.data@),
                        1 <= w <= i32::MAX,
                        1 <= h <= i32::MAX,
                        w <= w * h <= u32::MAX,
                        h <= w * h,
                        0 <= y < h,
                        0 <= x < w,
                        y - 1 <= yy <= y + 1,
                        x - 1 <= xx <= x + 2,
                        grow ==> before == win_max(term, x - 1, x + 2, y - 1, yy as int),
                        !grow ==> before == win_min(term, x - 1, x + 2, y - 1, yy as int),
                        grow ==> v == (if before >= row_max(term, yy as int, x - 1, xx as int) {
                            before as int
                        } else {
                            row_max(term, yy as int, x - 1, xx as int)
                        }),
                        !grow ==> v == (if before <= row_min(term, yy as int, x - 1, xx as int) {
                            before as int
                        } else {
                            row_min(term, yy as int, x - 1, xx as int)
                        }),
                    decreases x + 2 - xx,
                {
                    let inside = xx >= 0 && yy >= 0 && xx < w && yy < h;
                    let c: u8 = if inside {
                        proof {
                            lemma_cell_in_grid(wi, hi, xx as int, yy as int);
                        }
                        mask.get(xx as u32, yy as u32)
                    } else {
                        0
                    };
                    assert(c == term(xx as int, yy as int));
                    if grow {
                        if c > v {
                            v = c;
                        }
                    } else {
                        if c < v {
                            v = c;
                        }
                    }
                    xx += 1;
                }
                yy += 1;
            }
            proof {
                lemma_cell_in_grid(wi, hi, x as int, y as int);
            }
            out.set(x as u32, y as u32, v);
            x += 1;
        }
        y += 1;
    }
    proof {
        if grow {
            lemma_cells_equal(&out, |px: int, py: int| grid_dilate_at(wi, hi, mask.data@, px, py) as u8,
                dilate_cells(wi, hi, mask.data@));
        } else {
            lemma_cells_equal(&out, |px: int, py: int| grid_erode_at(wi, hi, mask.data@, px, py) as u8,
                erode_cells(wi, hi, mask.data@));
        }
    }
    out
}

} // verus!
