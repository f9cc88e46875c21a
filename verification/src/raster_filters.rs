use vstd::prelude::*;
use crate::color::{dist2, lemma_mix_same, mix_channel};
use crate::compose::{blend_selected, clamped_coverage, deref_opt};
use crate::document::{PhotoEngineDocument, push_model};
use crate::filters::{box_blur, box_mean};
use crate::history::with_state;
use crate::index::lemma_cell_in_grid;
use crate::masks::{nearest_index, nearest_source};
use crate::pixels::{PixelBuffer, build_image, lemma_wide_image_is_empty, tchan, triple};
use crate::sampling::{Pick, pick_mean, pick_totals, picked, picked_count, picked_mean, picked_term, pixel_at};
use crate::window::{inside, lemma_overlap_centred, lemma_win_inside, lemma_win_le, lemma_win_scale, overlap, win_sum};
use crate::layer::KindView;
use crate::raster_edit::{raster_of, raster_target, selection_readable, with_raster};

verus! {

/// A filter's output channel `c` at pixel `(x, y)`, as a function of the input image.
pub type FilterOp = spec_fn((u32, u32, Seq<u8>), int, int, int) -> u8;

/// The outcome of a whole-image filter `op` applied to the document: nothing changes
/// unless the selected layer is an unlocked raster; then the content is recorded and each
/// pixel of that layer becomes `mix(old, op(old image), coverage)` under the selection.
pub open spec fn filter_done(before: PhotoEngineDocument, after: PhotoEngineDocument, op: FilterOp) -> bool {
    match raster_target(before.state()) {
        None => after.model() == before.model(),
        Some(p) => {
            let old_img = raster_of(before.state().layers[p]);
            let new_img = raster_of(after.state().layers[p]);
            &&& after.model() == with_state(push_model(before.model()), with_raster(before.state(), p, new_img))
            &&& new_img.0 == old_img.0
            &&& new_img.1 == old_img.1
            &&& new_img.2.len() == old_img.2.len()
            &&& forall|x: int, y: int, c: int|
                0 <= x < old_img.0 && 0 <= y < old_img.1 && 0 <= c < 4 ==> #[trigger] tchan(new_img, x, y, c) == mix_channel(
                    tchan(old_img, x, y, c),
                    op(old_img, x, y, c),
                    clamped_coverage(before.selection.mask, x, y),
                )
        },
    }
}

/// The raster edits can run on the document: it is well formed and its selection can be
/// read where the edits need it (see `selection_readable`).
pub open spec fn filterable(doc: PhotoEngineDocument) -> bool {
    doc.wf() && selection_readable(doc.state())
}

/// Runs the whole-image filter `f` on the selected raster layer and blends its output in
/// under the selection, recording the previous content first (see `filter_done`).
fn apply_raster_filter<F: Fn(&PixelBuffer) -> PixelBuffer>(doc: &mut PhotoEngineDocument, f: F, Ghost(op): Ghost<FilterOp>)
    requires
        filterable(*old(doc)),
        raster_target(old(doc).state()) matches Some(p) ==> forall|b: PixelBuffer|
            b.wf() && triple(b) == raster_of(old(doc).state().layers[p]) ==> #[trigger] f.requires((&b,)),
        forall|b: &PixelBuffer, o: PixelBuffer| #[trigger] f.ensures((b,), o) ==> {
            &&& o.wf()
            &&& o.same_shape(b)
            &&& forall|x: int, y: int, c: int| b.in_range(x, y) && 0 <= c < 4 ==> #[trigger] o.chan(x, y, c) == op(triple(*b), x, y, c)
        },
    ensures
        final(doc).wf(),
        filter_done(*old(doc), *final(doc), op),
{
    let selection = doc.selection_copy();
    let p = match doc.raster_target_index() {
        Some(p) => p,
        None => {
            return;
        },
    };
    proof {
        crate::raster_edit::lemma_raster_target_ok(doc.state());
    }
    doc.push_history();
    let mut img = doc.raster_copy(p);
    let ghost before = img;
    let filtered = f(&img);
    let sel_ref = selection.as_ref();
    assert(deref_opt(sel_ref) == selection);
    blend_selected(&mut img, &filtered, sel_ref);
    doc.replace_raster(p, img);
    proof {
        let pi = p as int;
        let s = with_raster(push_model(old(doc).model()).state, pi, triple(img));
        assert(s.layers[pi].kind == crate::layer::KindView::Raster(img.width, img.height, img.data@));
        assert(raster_of(doc.state().layers[pi]) == triple(img));
        let old_img = raster_of(old(doc).state().layers[pi]);
        let new_img = triple(img);
        let msk = old(doc).selection.mask;
        assert(old_img == triple(before));
        assert forall|x: int, y: int, c: int|
            0 <= x < old_img.0 && 0 <= y < old_img.1 && 0 <= c < 4 implies #[trigger] tchan(new_img, x, y, c) == mix_channel(
                tchan(old_img, x, y, c),
                op(old_img, x, y, c),
                clamped_coverage(msk, x, y),
            ) by {
            assert(clamped_coverage(selection, x, y) == clamped_coverage(msk, x, y));
            assert(img.chan(x, y, c) == tchan(new_img, x, y, c));
            assert(before.chan(x, y, c) == tchan(old_img, x, y, c));
            assert(filtered.chan(x, y, c) == op(triple(before), x, y, c));
        }
    }
}

/// What the blur of half-width `r` makes of channel `c` of pixel `(x, y)`: the pixel
/// itself for `r == 0`, else the mean of its window (see `box_mean`).
pub open spec fn blur_op(r: u32) -> FilterOp {
    |img: (u32, u32, Seq<u8>), x: int, y: int, c: int| if r == 0 {
        tchan(img, x, y, c)
    } else {
        box_mean(img, r as int, x, y, c) as u8
    }
}

/// Blurs the selected raster layer with a box blur of half-width `radius` under the
/// selection (see `blur_op`, `filter_done`).
pub fn gaussian_blur(doc: &mut PhotoEngineDocument, radius: u32)
    requires
        filterable(*old(doc)),
    ensures
        final(doc).wf(),
        filter_done(*old(doc), *final(doc), blur_op(radius)),
{
    let f = |src: &PixelBuffer| -> (out: PixelBuffer)
        requires
            src.wf(),
        ensures
            out.wf(),
            out.same_shape(src),
            forall|x: int, y: int, c: int| src.in_range(x, y) && 0 <= c < 4 ==> #[trigger] out.chan(x, y, c) == blur_op(radius)(triple(*src), x, y, c),
        {
            let out = box_blur(src, radius);
            assert forall|x: int, y: int, c: int| src.in_range(x, y) && 0 <= c < 4 implies #[trigger] out.chan(x, y, c) == blur_op(radius)(triple(*src), x, y, c) by {
                if radius == 0 {
                    assert(out.chan(x, y, c) == src.chan(x, y, c));
                }
            }
            out
        };
    apply_raster_filter(doc, f, Ghost(blur_op(radius)));
}

/// `v` clamped to `0 ..= 255`.
pub open spec fn clamp_byte(v: int) -> u8 {
    if v < 0 { 0 } else if v > 255 { 255 } else { v as u8 }
}

/// What the high-pass filter of half-width `r` makes of channel `c`: for colour
/// channels, `pixel - blurred + 128` clamped to a byte; alpha is kept.
pub open spec fn high_pass_op(r: u32) -> FilterOp {
    |img: (u32, u32, Seq<u8>), x: int, y: int, c: int| if c == 3 {
        tchan(img, x, y, 3)
    } else {
        clamp_byte(tchan(img, x, y, c) - blur_op(r)(img, x, y, c) + 128)
    }
}

/// `a - b + 128` clamped to a byte.
fn offset_difference(a: u8, b: u8) -> (r: u8)
    ensures
        r == clamp_byte(a - b + 128),
{
    let v: i32 = a as i32 - b as i32 + 128;
    if v < 0 {
        0
    } else if v > 255 {
        255
    } else {
        v as u8
    }
}

/// The high-pass image of `src` (see `high_pass_op`).
pub fn high_pass_image(src: &PixelBuffer, radius: u32) -> (out: PixelBuffer)
    requires
        src.wf(),
    ensures
        out.wf(),
        out.same_shape(src),
        forall|x: int, y: int, c: int| src.in_range(x, y) && 0 <= c < 4 ==> #[trigger] out.chan(x, y, c) == high_pass_op(radius)(triple(*src), x, y, c),
{
    let blur = box_blur(src, radius);
    let g = |x: u32, y: u32| -> (p: [u8; 4])
        requires
            x < src.width && y < src.height,
        ensures
            forall|c: int| 0 <= c < 4 ==> #[trigger] p@[c] == high_pass_op(radius)(triple(*src), x as int, y as int, c),
        {
            proof {
                lemma_cell_in_grid(src.width as int, src.height as int, x as int, y as int);
            }
            let a = src.get(x, y);
            let b = blur.get(x, y);
            proof {
                assert forall|c: int| 0 <= c < 4 implies #[trigger] b@[c] == blur_op(radius)(triple(*src), x as int, y as int, c) by {
                    assert(b@[c] == blur.chan(x as int, y as int, c));
                    if radius == 0 {
                        assert(blur.chan(x as int, y as int, c) == src.chan(x as int, y as int, c));
                    }
                }
                assert forall|c: int| 0 <= c < 4 implies #[trigger] a@[c] == tchan(triple(*src), x as int, y as int, c) by {
                    assert(a@[c] == src.chan(x as int, y as int, c));
                }
            }
            [offset_difference(a[0], b[0]), offset_difference(a[1], b[1]), offset_difference(a[2], b[2]), a[3]]
        };
    let out = build_image(src.width, src.height, g);
    assert forall|x: int, y: int, c: int| src.in_range(x, y) && 0 <= c < 4 implies #[trigger] out.chan(x, y, c) == high_pass_op(radius)(triple(*src), x, y, c) by {
        assert(out.in_range(x, y));
        let p = choose|p: [u8; 4]| #[trigger] g.ensures((x as u32, y as u32), p) && forall|c: int| 0 <= c < 4 ==> #[trigger] out.chan(x, y, c) == p@[c];
        assert(out.chan(x, y, c) == p@[c]);
    }
    out
}

/// Replaces the selected raster layer by its high-pass image (detail around mid grey)
/// under the selection (see `high_pass_op`, `filter_done`).
pub fn high_pass(doc: &mut PhotoEngineDocument, radius: u32)
    requires
        filterable(*old(doc)),
    ensures
        final(doc).wf(),
        filter_done(*old(doc), *final(doc), high_pass_op(radius)),
{
    let f = |src: &PixelBuffer| -> (out: PixelBuffer)
        requires
            src.wf(),
        ensures
            out.wf(),
            out.same_shape(src),
            forall|x: int, y: int, c: int| src.in_range(x, y) && 0 <= c < 4 ==> #[trigger] out.chan(x, y, c) == high_pass_op(radius)(triple(*src), x, y, c),
        { high_pass_image(src, radius) };
    apply_raster_filter(doc, f, Ghost(high_pass_op(radius)));
}

/// Pixel `(xx, yy)` is in the image and its colour lies within integer distance `t` of
/// the colour of pixel `(x, y)` (squared RGB distance below `(t + 1)^2`).
pub open spec fn similar(img: (u32, u32, Seq<u8>), x: int, y: int, xx: int, yy: int, t: u8) -> bool {
    0 <= xx < img.0 && 0 <= yy < img.1 && dist2(pixel_at(img, xx, yy), pixel_at(img, x, y)) < (t + 1) * (t + 1)
}

/// 1 at the pixels similar to `(x, y)`, 0 elsewhere.
pub open spec fn similar_count(img: (u32, u32, Seq<u8>), x: int, y: int, t: u8) -> spec_fn(int, int) -> int {
    |xx: int, yy: int| if similar(img, x, y, xx, yy, t) { 1int } else { 0int }
}

/// Channel `c` at the pixels similar to `(x, y)`, 0 elsewhere.
pub open spec fn similar_term(img: (u32, u32, Seq<u8>), x: int, y: int, t: u8, c: int) -> spec_fn(int, int) -> int {
    |xx: int, yy: int| if similar(img, x, y, xx, yy, t) { tchan(img, xx, yy, c) as int } else { 0int }
}

/// Picking colours near that of pixel `(x, y)` picks the pixels similar to it.
proof fn lemma_similar_pick(src: &PixelBuffer, x: int, y: int, center: [u8; 4], t: u8)
    requires
        forall|k: int| 0 <= k < 4 ==> #[trigger] center@[k] == tchan(triple(*src), x, y, k),
    ensures
        picked_count(Pick::NearColor(center, t), triple(*src)) == similar_count(triple(*src), x, y, t),
        forall|c: int|
            0 <= c < 4 ==> #[trigger] picked_term(Pick::NearColor(center, t), triple(*src), c) == similar_term(triple(*src), x, y, t, c),
{
    let img = triple(*src);
    let pick = Pick::NearColor(center, t);
    assert(center@ =~= pixel_at(img, x, y));
    assert(picked_count(pick, img) =~= similar_count(img, x, y, t)) by {
        assert forall|xx: int, yy: int| #[trigger] picked_count(pick, img)(xx, yy) == similar_count(img, x, y, t)(xx, yy) by {
            assert(picked(pick, img, xx, yy) == similar(img, x, y, xx, yy, t));
        }
    }
    assert forall|c: int| 0 <= c < 4 implies #[trigger] picked_term(pick, img, c) == similar_term(img, x, y, t, c) by {
        assert(picked_term(pick, img, c) =~= similar_term(img, x, y, t, c)) by {
            assert forall|xx: int, yy: int| #[trigger] picked_term(pick, img, c)(xx, yy) == similar_term(img, x, y, t, c)(xx, yy) by {
                assert(picked(pick, img, xx, yy) == similar(img, x, y, xx, yy, t));
            }
        }
    }
}

/// What the surface blur makes of channel `c` of pixel `(x, y)`: the mean of that channel
/// over the pixels within `r` of `(x, y)` in both directions whose colour is within
/// `threshold` of the colour of `(x, y)` (the pixel itself always is).
pub open spec fn surface_op(r: u32, threshold: u8) -> FilterOp {
    |img: (u32, u32, Seq<u8>), x: int, y: int, c: int| {
        let n = win_sum(similar_count(img, x, y, threshold), x - r, x + r + 1, y - r, y + r + 1);
        let s = win_sum(similar_term(img, x, y, threshold, c), x - r, x + r + 1, y - r, y + r + 1);
        (if n >= 1 { s / n } else { 0 }) as u8
    }
}

/// The surface-blurred image of `src` (see `surface_op`).
pub fn surface_blur_image(src: &PixelBuffer, radius: u32, threshold: u8) -> (out: PixelBuffer)
    requires
        src.wf(),
    ensures
        out.wf(),
        out.same_shape(src),
        forall|x: int, y: int, c: int|
            src.in_range(x, y) && 0 <= c < 4 ==> #[trigger] out.chan(x, y, c) == surface_op(radius, threshold)(triple(*src), x, y, c),
{
    let r = radius as i64;
    let g = |x: u32, y: u32| -> (p: [u8; 4])
        requires
            x < src.width && y < src.height,
        ensures
            forall|c: int| 0 <= c < 4 ==> #[trigger] p@[c] == surface_op(radius, threshold)(triple(*src), x as int, y as int, c),
        {
            proof {
                lemma_cell_in_grid(src.width as int, src.height as int, x as int, y as int);
            }
            let center = src.get(x, y);
            let pick = Pick::NearColor(center, threshold);
            proof {
                assert forall|k: int| 0 <= k < 4 implies #[trigger] center@[k] == tchan(triple(*src), x as int, y as int, k) by {
                    assert(center@[k] == src.chan(x as int, y as int, k));
                }
                lemma_similar_pick(src, x as int, y as int, center, threshold);
            }
            let (mean, _count) = pick_mean(src, pick, x as i64 - r, x as i64 + r + 1, y as i64 - r, y as i64 + r + 1);
            proof {
                assert forall|c: int| 0 <= c < 4 implies #[trigger] mean@[c] == surface_op(radius, threshold)(triple(*src), x as int, y as int, c) by {
                    assert(picked_term(pick, triple(*src), c) == similar_term(triple(*src), x as int, y as int, threshold, c));
                }
            }
            mean
        };
    let out = build_image(src.width, src.height, g);
    assert forall|x: int, y: int, c: int|
        src.in_range(x, y) && 0 <= c < 4 implies #[trigger] out.chan(x, y, c) == surface_op(radius, threshold)(triple(*src), x, y, c) by {
        assert(out.in_range(x, y));
        let p = choose|p: [u8; 4]| #[trigger] g.ensures((x as u32, y as u32), p) && forall|c: int| 0 <= c < 4 ==> #[trigger] out.chan(x, y, c) == p@[c];
        assert(out.chan(x, y, c) == p@[c]);
    }
    out
}

/// Smooths the selected raster layer while keeping edges: each pixel becomes the mean
/// of the nearby pixels of similar colour, under the selection (see `surface_op`,
/// `filter_done`).
pub fn surface_blur(doc: &mut PhotoEngineDocument, radius: u32, threshold: u8)
    requires
        filterable(*old(doc)),
    ensures
        final(doc).wf(),
        filter_done(*old(doc), *final(doc), surface_op(radius, threshold)),
{
    let f = |src: &PixelBuffer| -> (out: PixelBuffer)
        requires
            src.wf(),
        ensures
            out.wf(),
            out.same_shape(src),
            forall|x: int, y: int, c: int|
                src.in_range(x, y) && 0 <= c < 4 ==> #[trigger] out.chan(x, y, c) == surface_op(radius, threshold)(triple(*src), x, y, c),
        { surface_blur_image(src, radius, threshold) };
    apply_raster_filter(doc, f, Ghost(surface_op(radius, threshold)));
}

/// Number of pixels within `r` of `(x, y)` (both directions) whose channel `c` is at most `v`.
pub open spec fn count_at_most(img: (u32, u32, Seq<u8>), r: int, x: int, y: int, c: int, v: int) -> int {
    win_sum(picked_count(Pick::AtMost(c as u8, v as u8), img), x - r, x + r + 1, y - r, y + r + 1)
}

/// Number of pixels of the image within `r` of `(x, y)` in both directions.
pub open spec fn window_len(img: (u32, u32, Seq<u8>), r: int, x: int, y: int) -> int {
    win_sum(picked_count(Pick::Every, img), x - r, x + r + 1, y - r, y + r + 1)
}

/// The smallest value from `v` up to 255 at which more than half of the window (rounded
/// down) has channel `c` at most that value; 255 if there is none.
pub open spec fn rank_from(img: (u32, u32, Seq<u8>), r: int, x: int, y: int, c: int, v: int) -> int
    decreases 255 - v,
{
    if v >= 255 || count_at_most(img, r, x, y, c, v) > window_len(img, r, x, y) / 2 {
        v
    } else {
        rank_from(img, r, x, y, c, v + 1)
    }
}

/// What the median filter makes of channel `c` of pixel `(x, y)`: the middle value of
/// the window's values of that channel sorted in increasing order (the one at index
/// `len / 2` counting from 0), that is the smallest value that more than `len / 2` of
/// them do not exceed.
pub open spec fn median_op(r: u32) -> FilterOp {
    |img: (u32, u32, Seq<u8>), x: int, y: int, c: int| rank_from(img, r as int, x, y, c, 0) as u8
}

/// More values are at most a larger bound.
proof fn lemma_count_monotone(img: (u32, u32, Seq<u8>), r: int, x: int, y: int, c: int, v1: int, v2: int)
    requires
        0 <= v1 <= v2 <= 255,
        0 <= c < 4,
    ensures
        count_at_most(img, r, x, y, c, v1) <= count_at_most(img, r, x, y, c, v2),
{
    lemma_win_le(
        picked_count(Pick::AtMost(c as u8, v1 as u8), img),
        picked_count(Pick::AtMost(c as u8, v2 as u8), img),
        x - r,
        x + r + 1,
        y - r,
        y + r + 1,
    );
}

/// The value found by search is the one `rank_from` describes.
proof fn lemma_rank_found(img: (u32, u32, Seq<u8>), r: int, x: int, y: int, c: int, v: int, m: int)
    requires
        0 <= v <= m <= 255,
        0 <= c < 4,
        count_at_most(img, r, x, y, c, m) > window_len(img, r, x, y) / 2,
        m == 0 || count_at_most(img, r, x, y, c, m - 1) <= window_len(img, r, x, y) / 2,
    ensures
        rank_from(img, r, x, y, c, v) == m,
    decreases m - v,
{
    if v < m {
        lemma_count_monotone(img, r, x, y, c, v, m - 1);
        lemma_rank_found(img, r, x, y, c, v + 1, m);
    }
}

/// The median of channel `c` over the window of half-width `r` around `(x, y)`.
fn window_median(src: &PixelBuffer, r: i64, x: u32, y: u32, c: u8) -> (m: u8)
    requires
        src.wf(),
        0 <= r <= u32::MAX,
        x < src.width && y < src.height,
        c < 4,
    ensures
        m == median_op(r as u32)(triple(*src), x as int, y as int, c as int),
{
    let ghost img = triple(*src);
    let x0 = x as i64 - r;
    let x1 = x as i64 + r + 1;
    let y0 = y as i64 - r;
    let y1 = y as i64 + r + 1;
    let (_s, len) = pick_totals(src, Pick::Every, x0, x1, y0, y1);
    let k = len / 2;
    proof {
        assert(picked_count(Pick::Every, img) =~= inside(src.width as int, src.height as int));
        lemma_win_inside(src.width as int, src.height as int, x0 as int, x1 as int, y0 as int, y1 as int);
        lemma_overlap_centred(x as int, r as int, src.width as int);
        lemma_overlap_centred(y as int, r as int, src.height as int);
        let ox = overlap(x0 as int, x1 as int, src.width as int);
        let oy = overlap(y0 as int, y1 as int, src.height as int);
        assert(ox * oy >= 1) by (nonlinear_arith)
            requires
                ox >= 1,
                oy >= 1,
        ;
        assert(picked_count(Pick::AtMost(c, 255u8), img) =~= picked_count(Pick::Every, img));
    }
    let mut lo: u32 = 0;
    let mut hi: u32 = 255;
    while lo < hi
        invariant
            src.wf(),
            img == triple(*src),
            0 <= r <= u32::MAX,
            x < src.width && y < src.height,
            c < 4,
            x0 == x - r && x1 == x + r + 1 && y0 == y - r && y1 == y + r + 1,
            len == window_len(img, r as int, x as int, y as int),
            k == len / 2,
            lo <= hi <= 255,
            count_at_most(img, r as int, x as int, y as int, c as int, hi as int) > k,
            lo == 0 || count_at_most(img, r as int, x as int, y as int, c as int, lo - 1) <= k,
        decreases hi - lo,
    {
        let mid = lo + (hi - lo) / 2;
        let (_s2, cnt) = pick_totals(src, Pick::AtMost(c, mid as u8), x0, x1, y0, y1);
        if cnt > k {
            hi = mid;
        } else {
            lo = mid + 1;
        }
    }
    proof {
        lemma_rank_found(img, r as int, x as int, y as int, c as int, 0, lo as int);
    }
    lo as u8
}

/// The median-filtered image of `src` (see `median_op`).
pub fn median_image(src: &PixelBuffer, radius: u32) -> (out: PixelBuffer)
    requires
        src.wf(),
    ensures
        out.wf(),
        out.same_shape(src),
        forall|x: int, y: int, c: int| src.in_range(x, y) && 0 <= c < 4 ==> #[trigger] out.chan(x, y, c) == median_op(radius)(triple(*src), x, y, c),
{
    let r = radius as i64;
    let g = |x: u32, y: u32| -> (p: [u8; 4])
        requires
            x < src.width && y < src.height,
        ensures
            forall|c: int| 0 <= c < 4 ==> #[trigger] p@[c] == median_op(radius)(triple(*src), x as int, y as int, c),
        {
            let p = [window_median(src, r, x, y, 0), window_median(src, r, x, y, 1), window_median(src, r, x, y, 2), window_median(src, r, x, y, 3)];
            assert(forall|c: int| 0 <= c < 4 ==> #[trigger] p@[c] == median_op(radius)(triple(*src), x as int, y as int, c));
            p
        };
    let out = build_image(src.width, src.height, g);
    assert forall|x: int, y: int, c: int| src.in_range(x, y) && 0 <= c < 4 implies #[trigger] out.chan(x, y, c) == median_op(radius)(triple(*src), x, y, c) by {
        assert(out.in_range(x, y));
        let p = choose|p: [u8; 4]| #[trigger] g.ensures((x as u32, y as u32), p) && forall|c: int| 0 <= c < 4 ==> #[trigger] out.chan(x, y, c) == p@[c];
        assert(out.chan(x, y, c) == p@[c]);
    }
    out
}

/// Replaces each pixel of the selected raster layer by the channel-wise median of its
/// window, under the selection (see `median_op`, `filter_done`).
pub fn median(doc: &mut PhotoEngineDocument, radius: u32)
    requires
        filterable(*old(doc)),
    ensures
        final(doc).wf(),
        filter_done(*old(doc), *final(doc), median_op(radius)),
{
    let f = |src: &PixelBuffer| -> (out: PixelBuffer)
        requires
            src.wf(),
        ensures
            out.wf(),
            out.same_shape(src),
            forall|x: int, y: int, c: int| src.in_range(x, y) && 0 <= c < 4 ==> #[trigger] out.chan(x, y, c) == median_op(radius)(triple(*src), x, y, c),
        { median_image(src, radius) };
    apply_raster_filter(doc, f, Ghost(median_op(radius)));
}

/// Start of the block of size `cell` (at least 1) that contains `v`.
pub open spec fn block_start(v: int, cell: int) -> int {
    let k = if cell >= 1 { cell } else { 1 };
    (v / k) * k
}

/// What the mosaic filter with blocks of `cell` pixels (at least 1) makes of channel `c`
/// of pixel `(x, y)`: the mean of that channel over the block of the image containing it.
pub open spec fn mosaic_op(cell: u32) -> FilterOp {
    |img: (u32, u32, Seq<u8>), x: int, y: int, c: int| {
        let k: int = if cell >= 1 { cell as int } else { 1 };
        let bx = block_start(x, cell as int);
        let by = block_start(y, cell as int);
        picked_mean(
            Pick::Every,
            img,
            bx,
            if bx + k <= img.0 { bx + k } else { img.0 as int },
            by,
            if by + k <= img.1 { by + k } else { img.1 as int },
            c,
        ) as u8
    }
}

/// A value in the block that starts at the multiple `b` of `cell` has its block start at `b`.
proof fn lemma_block_start(v: int, b: int, cell: int)
    requires
        cell >= 1,
        b % cell == 0,
        0 <= b <= v < b + cell,
    ensures
        block_start(v, cell) == b,
{
    assert((v / cell) * cell == b) by (nonlinear_arith)
        requires
            cell >= 1,
            b % cell == 0,
            0 <= b <= v < b + cell,
    ;
}

/// The mosaic image of `src` (see `mosaic_op`).
pub fn mosaic_image(src: &PixelBuffer, cell: u32) -> (out: PixelBuffer)
    requires
        src.wf(),
    ensures
        out.wf(),
        out.same_shape(src),
        forall|x: int, y: int, c: int| src.in_range(x, y) && 0 <= c < 4 ==> #[trigger] out.chan(x, y, c) == mosaic_op(cell)(triple(*src), x, y, c),
{
    proof {
        lemma_wide_image_is_empty(src);
    }
    let ghost img = triple(*src);
    let k: u64 = if cell >= 1 { cell as u64 } else { 1 };
    let w = src.width as u64;
    let h = src.height as u64;
    let mut out = src.duplicate();
    let mut by: u64 = 0;
    while by < h
        invariant
            src.wf(),
            img == triple(*src),
            out.wf(),
            out.same_shape(src),
            w == src.width,
            h == src.height,
            w * h <= 0x3fff_ffff,
            k == (if cell >= 1 { cell as int } else { 1 }),
            by % k == 0,
            by <= h + k,
            forall|px: int, py: int, c: int|
                src.in_range(px, py) && 0 <= c < 4 ==> #[trigger] out.chan(px, py, c) == if py < by {
                    mosaic_op(cell)(img, px, py, c)
                } else {
                    src.chan(px, py, c)
                },
        decreases h + k - by,
    {
        let ye = if by + k <= h { by + k } else { h };
        let mut bx: u64 = 0;
        while bx < w
            invariant
                src.wf(),
                img == triple(*src),
                out.wf(),
                out.same_shape(src),
                w == src.width,
                h == src.height,
                w * h <= 0x3fff_ffff,
                k == (if cell >= 1 { cell as int } else { 1 }),
                by % k == 0,
                by < h,
                ye == (if by + k <= h { by + k } else { h as int }),
                bx % k == 0,
                bx <= w + k,
                forall|px: int, py: int, c: int|
                    src.in_range(px, py) && 0 <= c < 4 ==> #[trigger] out.chan(px, py, c) == if py < by || (py < ye
                        && px < bx) {
                        mosaic_op(cell)(img, px, py, c)
                    } else {
                        src.chan(px, py, c)
                    },
            decreases w + k - bx,
        {
            let xe = if bx + k <= w { bx + k } else { w };
            let (avg, _n) = pick_mean(src, Pick::Every, bx as i64, xe as i64, by as i64, ye as i64);
            proof {
                assert forall|px: int, py: int, c: int|
                    bx <= px < xe && by <= py < ye && 0 <= c < 4 implies #[trigger] mosaic_op(cell)(img, px, py, c) == avg@[c] by {
                    lemma_block_start(px, bx as int, k as int);
                    lemma_block_start(py, by as int, k as int);
                }
            }
            let mut yy: u64 = by;
            while yy < ye
                invariant
                    src.wf(),
                    img == triple(*src),
                    out.wf(),
                    out.same_shape(src),
                    w == src.width,
                    h == src.height,
                    w * h <= 0x3fff_ffff,
                    by < h,
                    ye == (if by + k <= h { by + k } else { h as int }),
                    xe == (if bx + k <= w { bx + k } else { w as int }),
                    bx < xe,
                    by <= yy <= ye,
                    forall|px: int, py: int, c: int|
                        bx <= px < xe && by <= py < ye && 0 <= c < 4 ==> #[trigger] mosaic_op(cell)(img, px, py, c) == avg@[c],
                    forall|px: int, py: int, c: int|
                        src.in_range(px, py) && 0 <= c < 4 ==> #[trigger] out.chan(px, py, c) == if py < by || (py < ye
                            && px < bx) || (by <= py < yy && bx <= px < xe) {
                            mosaic_op(cell)(img, px, py, c)
                        } else {
                            src.chan(px, py, c)
                        },
                decreases ye - yy,
            {
                let mut xx: u64 = bx;
                while xx < xe
                    invariant
                        src.wf(),
                        img == triple(*src),
                        out.wf(),
                        out.same_shape(src),
                        w == src.width,
                        h == src.height,
                        w * h <= 0x3fff_ffff,
                        by < h,
                        ye == (if by + k <= h { by + k } else { h as int }),
                        xe == (if bx + k <= w { bx + k } else { w as int }),
                        by <= yy < ye,
                        bx <= xx <= xe,
                        forall|px: int, py: int, c: int|
                            bx <= px < xe && by <= py < ye && 0 <= c < 4 ==> #[trigger] mosaic_op(cell)(img, px, py, c) == avg@[c],
                        forall|px: int, py: int, c: int|
                            src.in_range(px, py) && 0 <= c < 4 ==> #[trigger] out.chan(px, py, c) == if py < by || (py
                                < ye && px < bx) || (by <= py < yy && bx <= px < xe) || (py == yy && bx <= px < xx) {
                                mosaic_op(cell)(img, px, py, c)
                            } else {
                                src.chan(px, py, c)
                            },
                    decreases xe - xx,
                {
                    proof {
                        lemma_cell_in_grid(w as int, h as int, xx as int, yy as int);
                    }
                    out.set(xx as u32, yy as u32, avg);
                    xx += 1;
                }
                yy += 1;
            }
            proof {
                assert((bx + k) % (k as int) == 0) by (nonlinear_arith)
                    requires
                        bx % k == 0,
                        k >= 1,
                ;
            }
            bx = bx + k;
        }
        proof {
            assert((by + k) % (k as int) == 0) by (nonlinear_arith)
                requires
                    by % k == 0,
                    k >= 1,
            ;
        }
        by = by + k;
    }
    out
}

/// Turns the selected raster layer into blocks of `cell` pixels, each the mean colour of
/// its block, under the selection (see `mosaic_op`, `filter_done`).
pub fn mosaic(doc: &mut PhotoEngineDocument, cell: u32)
    requires
        filterable(*old(doc)),
    ensures
        final(doc).wf(),
        filter_done(*old(doc), *final(doc), mosaic_op(cell)),
{
    let f = |src: &PixelBuffer| -> (out: PixelBuffer)
        requires
            src.wf(),
        ensures
            out.wf(),
            out.same_shape(src),
            forall|x: int, y: int, c: int| src.in_range(x, y) && 0 <= c < 4 ==> #[trigger] out.chan(x, y, c) == mosaic_op(cell)(triple(*src), x, y, c),
        { mosaic_image(src, cell) };
    apply_raster_filter(doc, f, Ghost(mosaic_op(cell)));
}

impl PixelBuffer {
    /// Nearest-neighbour resize to `width` by `height` (each at least 1): target pixel
    /// `(x, y)` copies the source pixel under its centre (see `nearest_source`).
    pub fn resize_nearest(&self, width: u32, height: u32) -> (out: Self)
        requires
            self.wf(),
            self.width >= 1,
            self.height >= 1,
            4 * ((if width >= 1 { width as int } else { 1 }) * (if height >= 1 { height as int } else { 1 })) <= u32::MAX,
        ensures
            out.wf(),
            out.width == (if width >= 1 { width } else { 1 }),
            out.height == (if height >= 1 { height } else { 1 }),
            forall|x: int, y: int, c: int|
                out.in_range(x, y) && 0 <= c < 4 ==> #[trigger] out.chan(x, y, c) == self.chan(
                    nearest_source(x, self.width as int, out.width as int),
                    nearest_source(y, self.height as int, out.height as int),
                    c,
                ),
            forall|x: int, y: int|
                #[trigger] out.in_range(x, y) ==> exists|sx: int, sy: int|
                    self.in_range(sx, sy) && out.pixel(x, y) == #[trigger] self.pixel(sx, sy),
    {
        let ow = if width >= 1 { width } else { 1 };
        let oh = if height >= 1 { height } else { 1 };
        let g = |x: u32, y: u32| -> (p: [u8; 4])
            requires
                self.wf(),
                self.width >= 1,
                self.height >= 1,
            ensures
                forall|c: int| 0 <= c < 4 ==> #[trigger] p@[c] == self.chan(
                    nearest_source(x as int, self.width as int, ow as int),
                    nearest_source(y as int, self.height as int, oh as int),
                    c,
                ),
            {
                let sx = nearest_index(x, self.width, ow);
                let sy = nearest_index(y, self.height, oh);
                proof {
                    lemma_cell_in_grid(self.width as int, self.height as int, sx as int, sy as int);
                }
                let p = self.get(sx, sy);
                assert(forall|c: int| 0 <= c < 4 ==> #[trigger] p@[c] == self.chan(sx as int, sy as int, c));
                p
            };
        let out = build_image(ow, oh, g);
        assert forall|x: int, y: int, c: int|
            out.in_range(x, y) && 0 <= c < 4 implies #[trigger] out.chan(x, y, c) == self.chan(
                nearest_source(x, self.width as int, out.width as int),
                nearest_source(y, self.height as int, out.height as int),
                c,
            ) by {
            let p = choose|p: [u8; 4]| #[trigger] g.ensures((x as u32, y as u32), p) && forall|c: int| 0 <= c < 4 ==> #[trigger] out.chan(x, y, c) == p@[c];
            assert(out.chan(x, y, c) == p@[c]);
        }
        assert forall|x: int, y: int| #[trigger] out.in_range(x, y) implies exists|sx: int, sy: int|
            self.in_range(sx, sy) && out.pixel(x, y) == #[trigger] self.pixel(sx, sy) by {
            let sx = nearest_source(x, self.width as int, out.width as int);
            let sy = nearest_source(y, self.height as int, out.height as int);
            crate::masks::lemma_nearest_in_range(x, self.width as int, out.width as int);
            crate::masks::lemma_nearest_in_range(y, self.height as int, out.height as int);
            lemma_cell_in_grid(out.width as int, out.height as int, x, y);
            lemma_cell_in_grid(self.width as int, self.height as int, sx, sy);
            assert forall|c: int| 0 <= c < 4 implies #[trigger] out.pixel(x, y)[c] == self.pixel(sx, sy)[c] by {
                assert(out.chan(x, y, c) == self.chan(sx, sy, c));
            }
            assert(out.pixel(x, y) =~= self.pixel(sx, sy));
            assert(self.in_range(sx, sy));
        }
        out
    }
}

/// Channel `c` of every pixel of `img` is `v`.
pub open spec fn uniform_channel(img: (u32, u32, Seq<u8>), c: int, v: int) -> bool {
    forall|x: int, y: int| 0 <= x < img.0 && 0 <= y < img.1 ==> #[trigger] tchan(img, x, y, c) == v
}

/// Every pixel of `img` has the colour `col`.
pub open spec fn uniform_image(img: (u32, u32, Seq<u8>), col: Seq<u8>) -> bool {
    forall|c: int| 0 <= c < 4 ==> #[trigger] uniform_channel(img, c, col[c] as int)
}

/// The mean of a channel that is `v` everywhere, over a window holding at least one
/// pixel of the image, is `v`.
proof fn lemma_uniform_mean(img: (u32, u32, Seq<u8>), c: int, v: int, x0: int, x1: int, y0: int, y1: int)
    requires
        uniform_channel(img, c, v),
        0 <= v,
        x0 <= x1,
        y0 <= y1,
        overlap(x0, x1, img.0 as int) >= 1,
        overlap(y0, y1, img.1 as int) >= 1,
    ensures
        win_sum(inside(img.0 as int, img.1 as int), x0, x1, y0, y1) >= 1,
        win_sum(picked_count(Pick::Every, img), x0, x1, y0, y1) == win_sum(inside(img.0 as int, img.1 as int), x0, x1, y0, y1),
        picked_mean(Pick::Every, img, x0, x1, y0, y1, c) == v,
        crate::filters::mean(
            win_sum(crate::filters::chan_term(img, c), x0, x1, y0, y1),
            win_sum(inside(img.0 as int, img.1 as int), x0, x1, y0, y1),
        ) == v,
{
    let ind = inside(img.0 as int, img.1 as int);
    lemma_win_inside(img.0 as int, img.1 as int, x0, x1, y0, y1);
    let ox = overlap(x0, x1, img.0 as int);
    let oy = overlap(y0, y1, img.1 as int);
    assert(ox * oy >= 1) by (nonlinear_arith)
        requires
            ox >= 1,
            oy >= 1,
    ;
    let n = win_sum(ind, x0, x1, y0, y1);
    assert(picked_count(Pick::Every, img) =~= ind);
    lemma_win_scale(crate::filters::chan_term(img, c), ind, v, x0, x1, y0, y1);
    lemma_win_scale(picked_term(Pick::Every, img, c), ind, v, x0, x1, y0, y1);
    assert((v * n) / n == v) by (nonlinear_arith)
        requires
            n >= 1,
    ;
}

/// Blurring leaves a channel that is the same everywhere as it is.
pub proof fn lemma_blur_of_uniform(img: (u32, u32, Seq<u8>), r: u32, c: int, v: u8, x: int, y: int)
    requires
        uniform_channel(img, c, v as int),
        0 <= x < img.0,
        0 <= y < img.1,
    ensures
        blur_op(r)(img, x, y, c) == v,
{
    if r != 0 {
        lemma_overlap_centred(x, r as int, img.0 as int);
        lemma_overlap_centred(y, r as int, img.1 as int);
        lemma_uniform_mean(img, c, v as int, x - r, x + r + 1, y - r, y + r + 1);
    }
}

/// The mosaic of a channel that is the same everywhere is that channel.
pub proof fn lemma_mosaic_of_uniform(img: (u32, u32, Seq<u8>), cell: u32, c: int, v: u8, x: int, y: int)
    requires
        uniform_channel(img, c, v as int),
        0 <= x < img.0,
        0 <= y < img.1,
    ensures
        mosaic_op(cell)(img, x, y, c) == v,
{
    let k: int = if cell >= 1 { cell as int } else { 1 };
    let bx = block_start(x, cell as int);
    let by = block_start(y, cell as int);
    assert(bx <= x < bx + k && 0 <= bx) by (nonlinear_arith)
        requires
            k >= 1,
            bx == (x / k) * k,
            0 <= x,
    ;
    assert(by <= y < by + k && 0 <= by) by (nonlinear_arith)
        requires
            k >= 1,
            by == (y / k) * k,
            0 <= y,
    ;
    let xe = if bx + k <= img.0 { bx + k } else { img.0 as int };
    let ye = if by + k <= img.1 { by + k } else { img.1 as int };
    lemma_uniform_mean(img, c, v as int, bx, xe, by, ye);
}

/// The median of a channel that is the same everywhere is that value.
pub proof fn lemma_median_of_uniform(img: (u32, u32, Seq<u8>), r: u32, c: int, v: u8, x: int, y: int)
    requires
        uniform_channel(img, c, v as int),
        0 <= c < 4,
        0 <= x < img.0,
        0 <= y < img.1,
    ensures
        median_op(r)(img, x, y, c) == v,
{
    let ri = r as int;
    let ind = inside(img.0 as int, img.1 as int);
    lemma_overlap_centred(x, ri, img.0 as int);
    lemma_overlap_centred(y, ri, img.1 as int);
    lemma_uniform_mean(img, c, v as int, x - ri, x + ri + 1, y - ri, y + ri + 1);
    let n = window_len(img, ri, x, y);
    assert(picked_count(Pick::AtMost(c as u8, v), img) =~= ind);
    if v > 0 {
        let below = picked_count(Pick::AtMost(c as u8, (v - 1) as u8), img);
        lemma_win_scale(below, ind, 0, x - ri, x + ri + 1, y - ri, y + ri + 1);
        assert(count_at_most(img, ri, x, y, c, v - 1) == 0);
    }
    lemma_rank_found(img, ri, x, y, c, 0, v as int);
}

/// The surface blur of an image of one colour is that colour.
pub proof fn lemma_surface_of_uniform(img: (u32, u32, Seq<u8>), r: u32, t: u8, col: Seq<u8>, x: int, y: int, c: int)
    requires
        uniform_image(img, col),
        col.len() == 4,
        0 <= c < 4,
        0 <= x < img.0,
        0 <= y < img.1,
    ensures
        surface_op(r, t)(img, x, y, c) == col[c],
{
    let ri = r as int;
    let ind = inside(img.0 as int, img.1 as int);
    assert(uniform_channel(img, c, col[c] as int));
    assert forall|xx: int, yy: int| 0 <= xx < img.0 && 0 <= yy < img.1 implies #[trigger] pixel_at(img, xx, yy) == pixel_at(img, x, y) by {
        assert(uniform_channel(img, 0, col[0] as int));
        assert(uniform_channel(img, 1, col[1] as int));
        assert(uniform_channel(img, 2, col[2] as int));
        assert(uniform_channel(img, 3, col[3] as int));
        assert(pixel_at(img, xx, yy) =~= pixel_at(img, x, y));
    }
    assert(similar_count(img, x, y, t) =~= ind) by {
        assert forall|xx: int, yy: int| #[trigger] similar_count(img, x, y, t)(xx, yy) == ind(xx, yy) by {
            if 0 <= xx < img.0 && 0 <= yy < img.1 {
                assert(pixel_at(img, xx, yy) == pixel_at(img, x, y));
                let a = pixel_at(img, x, y);
                assert(dist2(a, a) == 0);
                assert((t + 1) * (t + 1) >= 1) by (nonlinear_arith);
                assert(similar(img, x, y, xx, yy, t));
            }
        }
    }
    lemma_overlap_centred(x, ri, img.0 as int);
    lemma_overlap_centred(y, ri, img.1 as int);
    lemma_uniform_mean(img, c, col[c] as int, x - ri, x + ri + 1, y - ri, y + ri + 1);
    lemma_win_scale(similar_term(img, x, y, t, c), ind, col[c] as int, x - ri, x + ri + 1, y - ri, y + ri + 1);
    let n = win_sum(ind, x - ri, x + ri + 1, y - ri, y + ri + 1);
    assert((col[c] * n) / n == col[c]) by (nonlinear_arith)
        requires
            n >= 1,
    ;
}

/// A filter that maps every pixel of the target layer to itself leaves the content as it
/// was; only the history records the step.
pub proof fn lemma_filter_keeps_content(before: PhotoEngineDocument, after: PhotoEngineDocument, op: FilterOp)
    requires
        before.wf(),
        filter_done(before, after, op),
        raster_target(before.state()) matches Some(p) ==> forall|x: int, y: int, c: int|
            0 <= x < raster_of(before.state().layers[p]).0 && 0 <= y < raster_of(before.state().layers[p]).1 && 0 <= c < 4
                ==> #[trigger] op(raster_of(before.state().layers[p]), x, y, c) == tchan(raster_of(before.state().layers[p]), x, y, c),
    ensures
        raster_target(before.state()) is Some ==> after.model() == with_state(push_model(before.model()), before.state()),
        raster_target(before.state()) is None ==> after.model() == before.model(),
{
    if let Some(p) = raster_target(before.state()) {
        crate::raster_edit::lemma_raster_target_ok(before.state());
        let s = before.state();
        let old_img = raster_of(s.layers[p]);
        let new_img = raster_of(after.state().layers[p]);
        let w = old_img.0 as int;
        let h = old_img.1 as int;
        assert forall|i: int| 0 <= i < old_img.2.len() implies #[trigger] new_img.2[i] == old_img.2[i] by {
            let q = i / 4;
            let c = i % 4;
            assert(0 <= q < w * h && i == 4 * q + c && 0 <= c < 4) by (nonlinear_arith)
                requires
                    0 <= i < 4 * (w * h),
                    q == i / 4,
                    c == i % 4,
            ;
            crate::index::lemma_position_is_cell(w, h, q);
            let x = q % w;
            let y = q / w;
            lemma_mix_same(tchan(old_img, x, y, c), clamped_coverage(before.selection.mask, x, y));
            assert(tchan(new_img, x, y, c) == tchan(old_img, x, y, c));
        }
        assert(new_img.2 =~= old_img.2);
        assert(with_raster(s, p, new_img) =~= s) by {
            assert(s.layers.update(p, crate::layer::LayerView { kind: KindView::Raster(new_img.0, new_img.1, new_img.2), ..s.layers[p] })
                =~= s.layers);
        }
    }
}

/// Blurring a layer of one colour changes nothing but the history.
pub proof fn lemma_blur_keeps_uniform_layer(before: PhotoEngineDocument, after: PhotoEngineDocument, radius: u32, col: Seq<u8>)
    requires
        before.wf(),
        filter_done(before, after, blur_op(radius)),
        col.len() == 4,
        raster_target(before.state()) matches Some(p) ==> uniform_image(raster_of(before.state().layers[p]), col),
    ensures
        raster_target(before.state()) is Some ==> after.model() == with_state(push_model(before.model()), before.state()),
{
    if let Some(p) = raster_target(before.state()) {
        let img = raster_of(before.state().layers[p]);
        assert forall|x: int, y: int, c: int| 0 <= x < img.0 && 0 <= y < img.1 && 0 <= c < 4 implies #[trigger] blur_op(radius)(img, x, y, c)
            == tchan(img, x, y, c) by {
            assert(uniform_channel(img, c, col[c] as int));
            lemma_blur_of_uniform(img, radius, c, col[c], x, y);
        }
        lemma_filter_keeps_content(before, after, blur_op(radius));
    }
}


/// The high-pass image of a channel that is the same everywhere is mid grey (128) in the
/// colour channels.
pub proof fn lemma_high_pass_of_uniform(img: (u32, u32, Seq<u8>), r: u32, c: int, v: u8, x: int, y: int)
    requires
        uniform_channel(img, c, v as int),
        0 <= c < 3,
        0 <= x < img.0,
        0 <= y < img.1,
    ensures
        high_pass_op(r)(img, x, y, c) == 128,
{
    lemma_blur_of_uniform(img, r, c, v, x, y);
}

} // verus!
