use vstd::prelude::*;
use crate::color::{color_distance, dist2, lemma_distance_within};
use crate::geometry::RectI;
use crate::index::lemma_cell_in_grid;
use crate::pixels::{PixelBuffer, lemma_wide_image_is_empty, tchan, triple};
use crate::window::{inside, lemma_row_zero_tail, lemma_win_inside, lemma_win_le, lemma_win_nonneg, lemma_win_prefix_le, lemma_win_zero_tail, overlap, row_sum, win_sum};

verus! {

/// Which pixels of a window take part in a neighbourhood average.
#[derive(Clone, Copy, Debug)]
pub enum Pick {
    /// Every pixel of the image.
    Every,
    /// Pixels whose colour lies within the given integer distance of the given colour.
    NearColor([u8; 4], u8),
    /// Opaque-ish pixels (alpha not zero) outside the given rectangle.
    FillSource(RectI),
    /// Pixels whose channel (first field, 0 to 3) is at most the given value.
    AtMost(u8, u8),
}

/// The four channels of pixel `(x, y)`.
pub open spec fn pixel_at(img: (u32, u32, Seq<u8>), x: int, y: int) -> Seq<u8> {
    seq![tchan(img, x, y, 0), tchan(img, x, y, 1), tchan(img, x, y, 2), tchan(img, x, y, 3)]
}

/// Pixel `(x, y)` is in the image and chosen by `pick`. "Within distance `t`" means a
/// rounded-down Euclidean RGB distance of at most `t`, that is a squared distance below
/// `(t + 1)^2`.
pub open spec fn picked(pick: Pick, img: (u32, u32, Seq<u8>), x: int, y: int) -> bool {
    &&& 0 <= x < img.0
    &&& 0 <= y < img.1
    &&& match pick {
        Pick::Every => true,
        Pick::NearColor(center, t) => dist2(pixel_at(img, x, y), center@) < (t + 1) * (t + 1),
        Pick::FillSource(area) => !area.has(x, y) && tchan(img, x, y, 3) != 0,
        Pick::AtMost(c, v) => tchan(img, x, y, c as int) <= v,
    }
}

/// Channel `c` of the picked pixels, 0 elsewhere.
pub open spec fn picked_term(pick: Pick, img: (u32, u32, Seq<u8>), c: int) -> spec_fn(int, int) -> int {
    |x: int, y: int| if picked(pick, img, x, y) { tchan(img, x, y, c) as int } else { 0int }
}

/// 1 at the picked pixels, 0 elsewhere.
pub open spec fn picked_count(pick: Pick, img: (u32, u32, Seq<u8>)) -> spec_fn(int, int) -> int {
    |x: int, y: int| if picked(pick, img, x, y) { 1int } else { 0int }
}

/// `sum / count` for a positive count, else 0 (integer division).
pub open spec fn picked_mean(pick: Pick, img: (u32, u32, Seq<u8>), x0: int, x1: int, y0: int, y1: int, c: int) -> int {
    let n = win_sum(picked_count(pick, img), x0, x1, y0, y1);
    if n >= 1 { win_sum(picked_term(pick, img, c), x0, x1, y0, y1) / n } else { 0 }
}

/// Whether `pick` chooses pixel `(x, y)` of `img` (a pixel of the image).
fn pick_admits(img: &PixelBuffer, pick: Pick, x: u32, y: u32) -> (r: bool)
    requires
        img.wf(),
        img.in_range(x as int, y as int),
        pick matches Pick::FillSource(area) ==> area.edges_fit(),
        pick matches Pick::AtMost(c, v) ==> c < 4,
    ensures
        r == picked(pick, triple(*img), x as int, y as int),
{
    proof {
        lemma_wide_image_is_empty(img);
        lemma_cell_in_grid(img.width as int, img.height as int, x as int, y as int);
    }
    let p = img.get(x, y);
    match pick {
        Pick::Every => true,
        Pick::NearColor(center, t) => {
            let d = color_distance(p, center);
            proof {
                assert(dist2(p@, center@) == dist2(pixel_at(triple(*img), x as int, y as int), center@));
                lemma_distance_within(d as int, dist2(p@, center@), t as int);
            }
            d <= t as i32
        },
        Pick::FillSource(area) => !area.contains(x as i32, y as i32) && p[3] != 0,
        Pick::AtMost(c, v) => p[c as usize] <= v,
    }
}

/// Channel sums and count of the pixels that `pick` chooses in the window
/// `x0 <= x < x1`, `y0 <= y < y1`.
pub fn pick_totals(img: &PixelBuffer, pick: Pick, x0: i64, x1: i64, y0: i64, y1: i64) -> (res: ([u64; 4], u64))
    requires
        img.wf(),
        x0 <= x1,
        y0 <= y1,
        -0x4000_0000_0000 <= x0 && x1 <= 0x4000_0000_0000,
        -0x4000_0000_0000 <= y0 && y1 <= 0x4000_0000_0000,
        pick matches Pick::FillSource(area) ==> area.edges_fit(),
        pick matches Pick::AtMost(c, v) ==> c < 4,
    ensures
        res.1 == win_sum(picked_count(pick, triple(*img)), x0 as int, x1 as int, y0 as int, y1 as int),
        forall|c: int|
            0 <= c < 4 ==> #[trigger] res.0@[c] == win_sum(picked_term(pick, triple(*img), c), x0 as int, x1 as int, y0 as int, y1 as int),
        forall|c: int| 0 <= c < 4 ==> #[trigger] res.0@[c] <= 255 * res.1,
{
    proof {
        lemma_wide_image_is_empty(img);
    }
    let ghost t = triple(*img);
    let ghost w = img.width as int;
    let ghost h = img.height as int;
    let ghost cnt = picked_count(pick, t);
    let ghost total = win_sum(cnt, x0 as int, x1 as int, y0 as int, y1 as int);
    proof {
        lemma_win_le(cnt, inside(w, h), x0 as int, x1 as int, y0 as int, y1 as int);
        lemma_win_nonneg(cnt, x0 as int, x1 as int, y0 as int, y1 as int);
        lemma_win_inside(w, h, x0 as int, x1 as int, y0 as int, y1 as int);
        let ox = overlap(x0 as int, x1 as int, w);
        let oy = overlap(y0 as int, y1 as int, h);
        assert(ox * oy <= w * h) by (nonlinear_arith)
            requires
                0 <= ox <= w,
                0 <= oy <= h,
        ;
    }
    let mut sums: [u64; 4] = [0, 0, 0, 0];
    let mut count: u64 = 0;
    // Only the rows and columns of the window that meet the image hold chosen pixels.
    let hh = img.height as i64;
    let ww = img.width as i64;
    let ylo: i64 = if y0 < 0 { if y1 < 0 { y1 } else { 0 } } else { y0 };
    let yhi: i64 = if y1 < hh { if y1 < ylo { ylo } else { y1 } } else { if hh < ylo { ylo } else { hh } };
    let xlo: i64 = if x0 < 0 { if x1 < 0 { x1 } else { 0 } } else { x0 };
    let xhi: i64 = if x1 < ww { if x1 < xlo { xlo } else { x1 } } else { if ww < xlo { xlo } else { ww } };
    proof {
        assert forall|c: int| 0 <= c < 4 implies win_sum(#[trigger] picked_term(pick, t, c), x0 as int, x1 as int, y0 as int, ylo as int) == 0 by {
            lemma_win_zero_tail(picked_term(pick, t, c), x0 as int, x1 as int, y0 as int, y0 as int, ylo as int);
        }
        lemma_win_zero_tail(cnt, x0 as int, x1 as int, y0 as int, y0 as int, ylo as int);
    }
    let mut yy: i64 = ylo;
    while yy < yhi
        invariant
            img.wf(),
            t == triple(*img),
            w == img.width,
            h == img.height,
            ww == w,
            hh == h,
            w * h <= 0x3fff_ffff,
            cnt == picked_count(pick, t),
            pick matches Pick::FillSource(area) ==> area.edges_fit(),
            pick matches Pick::AtMost(c, v) ==> c < 4,
            y0 <= ylo <= yy <= yhi <= y1,
            x0 <= xlo <= xhi <= x1,
            xlo == x0 || xlo <= 0,
            xhi == x1 || xhi >= w,
            yhi == y1 || yhi >= h,
            -0x4000_0000_0000 <= x0 && x1 <= 0x4000_0000_0000,
            -0x4000_0000_0000 <= y0 && y1 <= 0x4000_0000_0000,
            total == win_sum(cnt, x0 as int, x1 as int, y0 as int, y1 as int),
            total <= w * h,
            count == win_sum(cnt, x0 as int, x1 as int, y0 as int, yy as int),
            count <= total,
            forall|c: int|
                0 <= c < 4 ==> #[trigger] sums@[c] == win_sum(picked_term(pick, t, c), x0 as int, x1 as int, y0 as int, yy as int),
            forall|c: int| 0 <= c < 4 ==> #[trigger] sums@[c] <= 255 * count,
        decreases yhi - yy,
    {
        proof {
            assert forall|c: int| 0 <= c < 4 implies row_sum(#[trigger] picked_term(pick, t, c), yy as int, x0 as int, xlo as int) == 0 by {
                lemma_row_zero_tail(picked_term(pick, t, c), yy as int, x0 as int, x0 as int, xlo as int);
            }
            lemma_row_zero_tail(cnt, yy as int, x0 as int, x0 as int, xlo as int);
        }
        let mut xx: i64 = xlo;
        while xx < xhi
            invariant
                img.wf(),
                t == triple(*img),
                w == img.width,
                h == img.height,
                ww == w,
                hh == h,
                w * h <= 0x3fff_ffff,
                cnt == picked_count(pick, t),
                pick matches Pick::FillSource(area) ==> area.edges_fit(),
                pick matches Pick::AtMost(c, v) ==> c < 4,
                y0 <= yy < y1,
                x0 <= xlo <= xx <= xhi <= x1,
                xhi == x1 || xhi >= w,
                -0x4000_0000_0000 <= x0 && x1 <= 0x4000_0000_0000,
                -0x4000_0000_0000 <= y0 && y1 <= 0x4000_0000_0000,
                total == win_sum(cnt, x0 as int, x1 as int, y0 as int, y1 as int),
                total <= w * h,
                count == win_sum(cnt, x0 as int, x1 as int, y0 as int, yy as int) + row_sum(cnt, yy as int, x0 as int, xx as int),
                count <= total,
                forall|c: int|
                    0 <= c < 4 ==> #[trigger] sums@[c] == win_sum(picked_term(pick, t, c), x0 as int, x1 as int, y0 as int, yy as int)
                        + row_sum(picked_term(pick, t, c), yy as int, x0 as int, xx as int),
                forall|c: int| 0 <= c < 4 ==> #[trigger] sums@[c] <= 255 * count,
            decreases xhi - xx,
        {
            proof {
                assert forall|a: int, b: int| x0 <= a < x1 && y0 <= b < y1 implies #[trigger] cnt(a, b) >= 0 by {}
                lemma_win_prefix_le(cnt, x0 as int, xx + 1, x1 as int, y0 as int, yy as int, y1 as int);
            }
            if 0 <= xx && xx < img.width as i64 && 0 <= yy && yy < img.height as i64 {
                if pick_admits(img, pick, xx as u32, yy as u32) {
                    proof {
                        lemma_cell_in_grid(w, h, xx as int, yy as int);
                    }
                    let p = img.get(xx as u32, yy as u32);
                    sums = [sums[0] + p[0] as u64, sums[1] + p[1] as u64, sums[2] + p[2] as u64, sums[3] + p[3] as u64];
                    count = count + 1;
                }
            }
            xx += 1;
        }
        proof {
            assert forall|c: int| 0 <= c < 4 implies row_sum(#[trigger] picked_term(pick, t, c), yy as int, x0 as int, x1 as int)
                == row_sum(picked_term(pick, t, c), yy as int, x0 as int, xhi as int) by {
                lemma_row_zero_tail(picked_term(pick, t, c), yy as int, x0 as int, xhi as int, x1 as int);
            }
            lemma_row_zero_tail(cnt, yy as int, x0 as int, xhi as int, x1 as int);
        }
        yy += 1;
    }
    proof {
        assert forall|c: int| 0 <= c < 4 implies win_sum(#[trigger] picked_term(pick, t, c), x0 as int, x1 as int, y0 as int, y1 as int)
            == win_sum(picked_term(pick, t, c), x0 as int, x1 as int, y0 as int, yhi as int) by {
            lemma_win_zero_tail(picked_term(pick, t, c), x0 as int, x1 as int, y0 as int, yhi as int, y1 as int);
        }
        lemma_win_zero_tail(cnt, x0 as int, x1 as int, y0 as int, yhi as int, y1 as int);
    }
    (sums, count)
}

/// Mean colour of the pixels that `pick` chooses in a window (0 in each channel when
/// none is chosen), and how many were chosen.
pub fn pick_mean(img: &PixelBuffer, pick: Pick, x0: i64, x1: i64, y0: i64, y1: i64) -> (res: ([u8; 4], u64))
    requires
        img.wf(),
        x0 <= x1,
        y0 <= y1,
        -0x4000_0000_0000 <= x0 && x1 <= 0x4000_0000_0000,
        -0x4000_0000_0000 <= y0 && y1 <= 0x4000_0000_0000,
        pick matches Pick::FillSource(area) ==> area.edges_fit(),
        pick matches Pick::AtMost(c, v) ==> c < 4,
    ensures
        res.1 == win_sum(picked_count(pick, triple(*img)), x0 as int, x1 as int, y0 as int, y1 as int),
        forall|c: int|
            0 <= c < 4 ==> #[trigger] res.0@[c] == picked_mean(pick, triple(*img), x0 as int, x1 as int, y0 as int, y1 as int, c),
{
    let (sums, count) = pick_totals(img, pick, x0, x1, y0, y1);
    if count == 0 {
        return ([0, 0, 0, 0], 0);
    }
    proof {
        assert forall|c: int| 0 <= c < 4 implies #[trigger] sums@[c] / count <= 255 by {
            assert(sums@[c] / count <= 255) by (nonlinear_arith)
                requires
                    sums@[c] <= 255 * count,
                    count >= 1,
            ;
        }
    }
    ([(sums[0] / count) as u8, (sums[1] / count) as u8, (sums[2] / count) as u8, (sums[3] / count) as u8], count)
}

} // verus!
