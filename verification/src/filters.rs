use vstd::prelude::*;
use crate::pixels::{PixelBuffer, build_image, tchan, triple};
use crate::sampling::{Pick, pick_mean, picked_count, picked_mean, picked_term};
use crate::window::{inside, lemma_overlap_centred, lemma_win_inside, overlap, win_sum};

verus! {

/// Channel `c` of `img` as a function of position, 0 outside the image.
pub open spec fn chan_term(img: (u32, u32, Seq<u8>), c: int) -> spec_fn(int, int) -> int {
    |x: int, y: int| if 0 <= x < img.0 && 0 <= y < img.1 { tchan(img, x, y, c) as int } else { 0int }
}

/// `sum / count` with a zero count read as one (integer division).
pub open spec fn mean(sum: int, count: int) -> int {
    sum / (if count >= 1 { count } else { 1 })
}

/// Channel `c` of the box-blurred pixel `(x, y)`: the mean of that channel over the
/// pixels of the image within `r` of `(x, y)` in both directions.
pub open spec fn box_mean(img: (u32, u32, Seq<u8>), r: int, x: int, y: int, c: int) -> int {
    mean(
        win_sum(chan_term(img, c), (x - r) as int, (x + r + 1) as int, (y - r) as int, (y + r + 1) as int),
        win_sum(inside(img.0 as int, img.1 as int), (x - r) as int, (x + r + 1) as int, (y - r) as int, (y + r + 1) as int),
    )
}

/// Box blur of half-width `radius`: each channel of each pixel becomes the mean of that
/// channel over the pixels of the image within `radius` in both directions.
pub fn box_blur(src: &PixelBuffer, radius: u32) -> (out: PixelBuffer)
    requires
        src.wf(),
    ensures
        out.wf(),
        out.same_shape(src),
        radius == 0 ==> out.data@ == src.data@,
        radius > 0 ==> forall|x: int, y: int, c: int|
            src.in_range(x, y) && 0 <= c < 4 ==> #[trigger] out.chan(x, y, c) == box_mean(triple(*src), radius as int, x, y, c),
{
    if radius == 0 {
        return src.duplicate();
    }
    let r = radius as i64;
    let g = |x: u32, y: u32| -> (p: [u8; 4])
        requires
            src.wf(),
            x < src.width && y < src.height,
            0 < r <= u32::MAX,
        ensures
            forall|c: int| 0 <= c < 4 ==> #[trigger] p@[c] == box_mean(triple(*src), r as int, x as int, y as int, c),
        {
            let (mean, _n) = pick_mean(src, Pick::Every, x as i64 - r, x as i64 + r + 1, y as i64 - r, y as i64 + r + 1);
            proof {
                lemma_every_is_box(src, r as int, x as int, y as int);
            }
            mean
        };
    let out = build_image(src.width, src.height, g);
    assert forall|x: int, y: int, c: int|
        src.in_range(x, y) && 0 <= c < 4 implies #[trigger] out.chan(x, y, c) == box_mean(triple(*src), radius as int, x, y, c) by {
        assert(out.in_range(x, y));
        let p = choose|p: [u8; 4]| #[trigger] g.ensures((x as u32, y as u32), p) && forall|c: int| 0 <= c < 4 ==> #[trigger] out.chan(x, y, c) == p@[c];
        assert(out.chan(x, y, c) == p@[c]);
    }
    out
}

/// Averaging every pixel of a window around a pixel of the image is the box mean.
proof fn lemma_every_is_box(src: &PixelBuffer, r: int, x: int, y: int)
    requires
        0 <= r,
        src.in_range(x, y),
    ensures
        forall|c: int| 0 <= c < 4 ==> #[trigger] picked_mean(Pick::Every, triple(*src), x - r, x + r + 1, y - r, y + r + 1, c)
            == box_mean(triple(*src), r, x, y, c),
{
    let img = triple(*src);
    let ind = inside(img.0 as int, img.1 as int);
    assert(picked_count(Pick::Every, img) =~= ind);
    assert forall|c: int| 0 <= c < 4 implies #[trigger] picked_mean(Pick::Every, img, x - r, x + r + 1, y - r, y + r + 1, c)
        == box_mean(img, r, x, y, c) by {
        assert(picked_term(Pick::Every, img, c) =~= chan_term(img, c));
        lemma_overlap_centred(x, r, img.0 as int);
        lemma_overlap_centred(y, r, img.1 as int);
        lemma_win_inside(img.0 as int, img.1 as int, x - r, x + r + 1, y - r, y + r + 1);
        let ox = overlap(x - r, x + r + 1, img.0 as int);
        let oy = overlap(y - r, y + r + 1, img.1 as int);
        assert(ox * oy >= 1) by (nonlinear_arith)
            requires
                ox >= 1,
                oy >= 1,
        ;
    }
}

} // verus!
