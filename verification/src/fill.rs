use vstd::prelude::*;
use crate::geometry::RectI;
use crate::index::lemma_cell_in_grid;
use crate::pixels::{PixelBuffer, lemma_wide_image_is_empty, tchan, triple};
use crate::sampling::{Pick, pick_mean, picked_count, picked_mean, picked_term};
use crate::window::win_sum;

verus! {

/// Number of fill sources (pixels outside `area` with non-zero alpha) in the 5 by 5
/// neighbourhood of `(x, y)`.
pub open spec fn fill_sources(img: (u32, u32, Seq<u8>), area: RectI, x: int, y: int) -> int {
    win_sum(picked_count(Pick::FillSource(area), img), x - 2, x + 3, y - 2, y + 3)
}

/// Channel `c` of pixel `(x, y)` after a content-aware fill of `area`: inside the area,
/// the mean of the fill sources of its 5 by 5 neighbourhood when it has any; the pixel's
/// own value otherwise.
pub open spec fn filled_chan(img: (u32, u32, Seq<u8>), area: RectI, x: int, y: int, c: int) -> u8 {
    if area.has(x, y) && fill_sources(img, area, x, y) >= 1 {
        picked_mean(Pick::FillSource(area), img, x - 2, x + 3, y - 2, y + 3, c) as u8
    } else {
        tchan(img, x, y, c)
    }
}

/// Once an image has been filled, filling it again changes nothing: the sources lie
/// outside the area, where a fill keeps every pixel.
pub proof fn lemma_fill_settles(orig: (u32, u32, Seq<u8>), next: (u32, u32, Seq<u8>), area: RectI)
    requires
        next.0 == orig.0,
        next.1 == orig.1,
        forall|x: int, y: int, c: int|
            0 <= x < orig.0 && 0 <= y < orig.1 && 0 <= c < 4 ==> #[trigger] tchan(next, x, y, c) == filled_chan(orig, area, x, y, c),
    ensures
        forall|x: int, y: int, c: int|
            0 <= x < orig.0 && 0 <= y < orig.1 && 0 <= c < 4 ==> #[trigger] filled_chan(next, area, x, y, c) == tchan(next, x, y, c),
{
    let pick = Pick::FillSource(area);
    assert forall|x: int, y: int|
        0 <= x < orig.0 && 0 <= y < orig.1 && !area.has(x, y) implies forall|c: int| 0 <= c < 4 ==> #[trigger] tchan(next, x, y, c) == tchan(orig, x, y, c) by {
        assert forall|c: int| 0 <= c < 4 implies #[trigger] tchan(next, x, y, c) == tchan(orig, x, y, c) by {
            assert(tchan(next, x, y, c) == filled_chan(orig, area, x, y, c));
        }
    }
    assert(picked_count(pick, next) =~= picked_count(pick, orig)) by {
        assert forall|x: int, y: int| #[trigger] picked_count(pick, next)(x, y) == picked_count(pick, orig)(x, y) by {
            if 0 <= x < orig.0 && 0 <= y < orig.1 && !area.has(x, y) {
                assert(tchan(next, x, y, 3) == tchan(orig, x, y, 3));
            }
        }
    }
    assert forall|c: int| 0 <= c < 4 implies #[trigger] picked_term(pick, next, c) =~= picked_term(pick, orig, c) by {
        assert forall|x: int, y: int| #[trigger] picked_term(pick, next, c)(x, y) == picked_term(pick, orig, c)(x, y) by {
            if 0 <= x < orig.0 && 0 <= y < orig.1 && !area.has(x, y) {
                assert(tchan(next, x, y, 3) == tchan(orig, x, y, 3));
                assert(tchan(next, x, y, c) == tchan(orig, x, y, c));
            }
        }
    }
    assert forall|x: int, y: int, c: int|
        0 <= x < orig.0 && 0 <= y < orig.1 && 0 <= c < 4 implies #[trigger] filled_chan(next, area, x, y, c) == tchan(next, x, y, c) by {
        assert(tchan(next, x, y, c) == filled_chan(orig, area, x, y, c));
        assert(picked_term(pick, next, c) == picked_term(pick, orig, c));
    }
}

/// One fill pass over `area` (see `filled_chan`), reading the image as it was before the pass.
fn fill_pass(img: &mut PixelBuffer, area: RectI)
    requires
        old(img).wf(),
        area.edges_fit(),
    ensures
        final(img).wf(),
        final(img).same_shape(old(img)),
        forall|x: int, y: int, c: int|
            old(img).in_range(x, y) && 0 <= c < 4 ==> #[trigger] final(img).chan(x, y, c) == filled_chan(triple(*old(img)), area, x, y, c),
{
    let before = img.duplicate();
    let ghost orig = triple(before);
    proof {
        lemma_wide_image_is_empty(&before);
    }
    let w = img.width as i64;
    let h = img.height as i64;
    let area_right = area.right() as i64;
    let area_bottom = area.bottom() as i64;
    let y_lo: i64 = if area.y as i64 >= 0 { area.y as i64 } else { 0 };
    let y_hi: i64 = if area_bottom <= h { area_bottom } else { h };
    let x_lo: i64 = if area.x as i64 >= 0 { area.x as i64 } else { 0 };
    let x_hi: i64 = if area_right <= w { area_right } else { w };
    if y_lo >= y_hi || x_lo >= x_hi {
        assert forall|x: int, y: int, c: int|
            old(img).in_range(x, y) && 0 <= c < 4 implies #[trigger] img.chan(x, y, c) == filled_chan(orig, area, x, y, c) by {}
        return;
    }
    let mut y: i64 = y_lo;
    while y < y_hi
        invariant
            img.wf(),
            before.wf(),
            orig == triple(before),
            img.same_shape(&before),
            triple(*old(img)) == orig,
            area.edges_fit(),
            w == img.width,
            h == img.height,
            w * h <= 0x3fff_ffff,
            area_right == area.right_spec(),
            area_bottom == area.bottom_spec(),
            y_lo == (if area.y >= 0 { area.y as int } else { 0 }),
            y_hi == (if area_bottom <= h { area_bottom } else { h }),
            x_lo == (if area.x >= 0 { area.x as int } else { 0 }),
            x_hi == (if area_right <= w { area_right } else { w }),
            x_lo < x_hi,
            y_lo <= y <= y_hi,
            forall|px: int, py: int, c: int|
                0 <= px < w && 0 <= py < h && 0 <= c < 4 ==> #[trigger] img.chan(px, py, c) == if py < y {
                    filled_chan(orig, area, px, py, c)
                } else {
                    tchan(orig, px, py, c)
                },
        decreases y_hi - y,
    {
        let mut x: i64 = x_lo;
        while x < x_hi
            invariant
                img.wf(),
                before.wf(),
                orig == triple(before),
                img.same_shape(&before),
                area.edges_fit(),
                w == img.width,
                h == img.height,
                w * h <= 0x3fff_ffff,
                area_right == area.right_spec(),
                area_bottom == area.bottom_spec(),
                y_lo == (if area.y >= 0 { area.y as int } else { 0 }),
                y_hi == (if area_bottom <= h { area_bottom } else { h }),
                x_lo == (if area.x >= 0 { area.x as int } else { 0 }),
                x_hi == (if area_right <= w { area_right } else { w }),
                x_lo <= x <= x_hi,
                y_lo <= y < y_hi,
                forall|px: int, py: int, c: int|
                    0 <= px < w && 0 <= py < h && 0 <= c < 4 ==> #[trigger] img.chan(px, py, c) == if py < y || (py == y
                        && px < x) {
                        filled_chan(orig, area, px, py, c)
                    } else {
                        tchan(orig, px, py, c)
                    },
            decreases x_hi - x,
        {
            proof {
                lemma_cell_in_grid(w as int, h as int, x as int, y as int);
            }
            let (mean, count) = pick_mean(&before, Pick::FillSource(area), x - 2, x + 3, y - 2, y + 3);
            if count > 0 {
                let ghost img0 = *img;
                img.set(x as u32, y as u32, mean);
            }
            x += 1;
        }
        y += 1;
    }
}

/// Fills `area` from its surroundings: each pixel of the area (within the image) becomes
/// the mean of the pixels outside the area with non-zero alpha in its 5 by 5
/// neighbourhood, when there are any (see `filled_chan`). Every pass reads the same
/// pixels outside the area, so the result does not depend on `passes`.
pub fn content_aware_fill_simple(img: &mut PixelBuffer, area: RectI, passes: u32)
    requires
        old(img).wf(),
        area.edges_fit(),
    ensures
        final(img).wf(),
        final(img).same_shape(old(img)),
        forall|x: int, y: int, c: int|
            old(img).in_range(x, y) && 0 <= c < 4 ==> #[trigger] final(img).chan(x, y, c) == filled_chan(triple(*old(img)), area, x, y, c),
{
    let ghost orig = triple(*img);
    let n = if passes >= 1 { passes } else { 1 };
    fill_pass(img, area);
    let mut i: u32 = 1;
    while i < n
        invariant
            img.wf(),
            img.width == orig.0,
            img.height == orig.1,
            area.edges_fit(),
            1 <= i <= n,
            forall|x: int, y: int, c: int|
                0 <= x < orig.0 && 0 <= y < orig.1 && 0 <= c < 4 ==> #[trigger] img.chan(x, y, c) == filled_chan(orig, area, x, y, c),
        decreases n - i,
    {
        let ghost prev = triple(*img);
        proof {
            assert forall|x: int, y: int, c: int|
                0 <= x < orig.0 && 0 <= y < orig.1 && 0 <= c < 4 implies #[trigger] tchan(prev, x, y, c) == filled_chan(orig, area, x, y, c) by {
                assert(img.chan(x, y, c) == tchan(prev, x, y, c));
            }
            lemma_fill_settles(orig, prev, area);
        }
        fill_pass(img, area);
        proof {
            assert forall|x: int, y: int, c: int|
                0 <= x < orig.0 && 0 <= y < orig.1 && 0 <= c < 4 implies #[trigger] img.chan(x, y, c) == filled_chan(orig, area, x, y, c) by {
                assert(img.chan(x, y, c) == filled_chan(prev, area, x, y, c));
                assert(filled_chan(prev, area, x, y, c) == tchan(prev, x, y, c));
                assert(tchan(prev, x, y, c) == filled_chan(orig, area, x, y, c));
            }
        }
        i += 1;
    }
}

} // verus!
