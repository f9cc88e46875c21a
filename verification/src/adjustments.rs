use vstd::prelude::*;
use crate::color::{dist2, mix_channel, mix_rgba};
use crate::compose::{clamped_coverage, deref_opt, sampleable, selected_coverage};
use crate::document::{PhotoEngineDocument, push_model};
use crate::history::with_state;
use crate::index::lemma_cell_in_grid;
use crate::masks::Mask;
use crate::pixels::{PixelBuffer, tchan, triple};
use crate::raster_edit::{raster_of, raster_target, selection_readable, with_raster};

verus! {

/// Applies `f` to every pixel of `img` with non-zero selection coverage, blending the
/// result in by that coverage; pixels with zero coverage are kept.
pub fn map_pixels<F: Fn([u8; 4], u32, u32) -> [u8; 4]>(img: &mut PixelBuffer, selection: Option<&Mask>, f: F)
    requires
        old(img).wf(),
        old(img).width >= 1 && old(img).height >= 1 ==> sampleable(deref_opt(selection)),
        forall|p: [u8; 4], x: u32, y: u32| #[trigger] f.requires((p, x, y)),
    ensures
        final(img).wf(),
        final(img).same_shape(old(img)),
        forall|x: int, y: int, c: int|
            old(img).in_range(x, y) && 0 <= c < 4 && clamped_coverage(deref_opt(selection), x, y) == 0
                ==> #[trigger] final(img).chan(x, y, c) == old(img).chan(x, y, c),
        forall|x: int, y: int|
            old(img).in_range(x, y) && clamped_coverage(deref_opt(selection), x, y) != 0 ==> exists|p: [u8; 4], n: [u8; 4]|
                #[trigger] f.ensures((p, x as u32, y as u32), n) && p@ == old(img).pixel(x, y) && forall|c: int|
                    0 <= c < 4 ==> #[trigger] final(img).chan(x, y, c) == mix_channel(
                        p@[c],
                        n@[c],
                        clamped_coverage(deref_opt(selection), x, y),
                    ),
{
    let ghost start = *img;
    let ghost sel = deref_opt(selection);
    if img.width == 0 || img.height == 0 {
        return;
    }
    let mut y: u32 = 0;
    while y < img.height
        invariant
            img.wf(),
            start.wf(),
            img.same_shape(&start),
            start == *old(img),
            sel == deref_opt(selection),
            sampleable(sel),
            y <= img.height,
            forall|p: [u8; 4], x: u32, y: u32| #[trigger] f.requires((p, x, y)),
            forall|px: int, py: int, c: int|
                start.in_range(px, py) && 0 <= c < 4 && (py >= y || clamped_coverage(sel, px, py) == 0)
                    ==> #[trigger] img.chan(px, py, c) == start.chan(px, py, c),
            forall|px: int, py: int|
                start.in_range(px, py) && py < y && clamped_coverage(sel, px, py) != 0 ==> exists|p: [u8; 4], n: [u8; 4]|
                    #[trigger] f.ensures((p, px as u32, py as u32), n) && p@ == start.pixel(px, py) && forall|c: int|
                        0 <= c < 4 ==> #[trigger] img.chan(px, py, c) == mix_channel(p@[c], n@[c], clamped_coverage(sel, px, py)),
        decreases start.height - y,
    {
        let mut x: u32 = 0;
        while x < img.width
            invariant
                img.wf(),
                start.wf(),
                img.same_shape(&start),
                sel == deref_opt(selection),
                sampleable(sel),
                y < img.height,
                x <= img.width,
                forall|p: [u8; 4], x: u32, y: u32| #[trigger] f.requires((p, x, y)),
                forall|px: int, py: int, c: int|
                    start.in_range(px, py) && 0 <= c < 4 && (py > y || (py == y && px >= x) || clamped_coverage(sel, px, py) == 0)
                        ==> #[trigger] img.chan(px, py, c) == start.chan(px, py, c),
                forall|px: int, py: int|
                    start.in_range(px, py) && (py < y || (py == y && px < x)) && clamped_coverage(sel, px, py) != 0
                        ==> exists|p: [u8; 4], n: [u8; 4]|
                        #[trigger] f.ensures((p, px as u32, py as u32), n) && p@ == start.pixel(px, py) && forall|c: int|
                            0 <= c < 4 ==> #[trigger] img.chan(px, py, c) == mix_channel(p@[c], n@[c], clamped_coverage(sel, px, py)),
            decreases start.width - x,
        {
            let cov = selected_coverage(selection, x, y);
            if cov != 0 {
                proof {
                    lemma_cell_in_grid(img.width as int, img.height as int, x as int, y as int);
                }
                let old_px = img.get(x, y);
                let new_px = f(old_px, x, y);
                let mixed = mix_rgba(old_px, new_px, cov);
                proof {
                    let off = start.offset(x as int, y as int);
                    assert(off + 4 <= start.data@.len());
                    assert forall|c: int| 0 <= c < 4 implies #[trigger] old_px@[c] == start.pixel(x as int, y as int)[c] by {
                        assert(old_px@[c] == img.chan(x as int, y as int, c));
                        assert(start.pixel(x as int, y as int)[c] == start.data@[off + c]);
                    }
                    assert(old_px@ =~= start.pixel(x as int, y as int));
                }
                let ghost img0 = *img;
                img.set(x, y, mixed);
                proof {
                    assert(f.ensures((old_px, x, y), new_px));
                    assert forall|px: int, py: int|
                        start.in_range(px, py) && (py < y || (py == y && px < x + 1)) && clamped_coverage(sel, px, py) != 0
                            implies exists|p: [u8; 4], n: [u8; 4]|
                            #[trigger] f.ensures((p, px as u32, py as u32), n) && p@ == start.pixel(px, py) && forall|c: int|
                                0 <= c < 4 ==> #[trigger] img.chan(px, py, c) == mix_channel(p@[c], n@[c], clamped_coverage(sel, px, py)) by {
                        if px == x && py == y {
                            assert(forall|c: int| 0 <= c < 4 ==> #[trigger] img.chan(px, py, c) == mix_channel(old_px@[c], new_px@[c], clamped_coverage(sel, px, py)));
                            assert(f.ensures((old_px, px as u32, py as u32), new_px));
                        } else {
                            let (p, n) = choose|p: [u8; 4], n: [u8; 4]|
                                #[trigger] f.ensures((p, px as u32, py as u32), n) && p@ == start.pixel(px, py) && forall|c: int|
                                    0 <= c < 4 ==> #[trigger] img0.chan(px, py, c) == mix_channel(p@[c], n@[c], clamped_coverage(sel, px, py));
                            assert(forall|c: int| 0 <= c < 4 ==> #[trigger] img.chan(px, py, c) == img0.chan(px, py, c));
                            assert(forall|c: int| 0 <= c < 4 ==> #[trigger] img.chan(px, py, c) == mix_channel(p@[c], n@[c], clamped_coverage(sel, px, py)));
                        }
                    }
                }
            }
            x += 1;
        }
        y += 1;
    }
}

/// The photographic negative of a pixel (alpha kept).
pub open spec fn inverted(px: Seq<u8>) -> Seq<u8> {
    seq![(255 - px[0]) as u8, (255 - px[1]) as u8, (255 - px[2]) as u8, px[3]]
}

/// Black or white by luminance `(54 r + 183 g + 19 b) / 256` against `level` (alpha kept).
pub open spec fn thresholded(px: Seq<u8>, level: u8) -> Seq<u8> {
    let luma = (54 * px[0] + 183 * px[1] + 19 * px[2]) / 256;
    let v: u8 = if luma >= level { 255 } else { 0 };
    seq![v, v, v, px[3]]
}

/// `to`'s colour (with the pixel's own alpha) when the pixel's RGB distance to `from` is at
/// most `tolerance`; the pixel itself otherwise.
pub open spec fn color_replaced(px: Seq<u8>, from: Seq<u8>, to: Seq<u8>, tolerance: u8) -> Seq<u8> {
    if dist2(px, from) <= tolerance * tolerance { seq![to[0], to[1], to[2], px[3]] } else { px }
}

/// What a per-pixel adjustment does to a raster: every pixel with non-zero coverage
/// becomes `mix(old, op(old), coverage)`, the others are kept.
pub open spec fn adjusted(
    old_img: (u32, u32, Seq<u8>),
    new_img: (u32, u32, Seq<u8>),
    sel: Option<Mask>,
    op: spec_fn(Seq<u8>) -> Seq<u8>,
) -> bool {
    &&& new_img.0 == old_img.0
    &&& new_img.1 == old_img.1
    &&& new_img.2.len() == old_img.2.len()
    &&& forall|x: int, y: int, c: int|
        0 <= x < old_img.0 && 0 <= y < old_img.1 && 0 <= c < 4 ==> #[trigger] tchan(new_img, x, y, c) == mix_channel(
            tchan(old_img, x, y, c),
            op(old_img.2.subrange(4 * crate::index::cell(old_img.0 as int, x, y), 4 * crate::index::cell(old_img.0 as int, x, y) + 4))[c],
            clamped_coverage(sel, x, y),
        )
}

/// The outcome of a per-pixel adjustment `op` of the document: nothing changes unless the
/// selected layer is an unlocked raster; then the content is recorded and that layer's
/// pixels are adjusted under the selection.
pub open spec fn adjustment_done(
    before: PhotoEngineDocument,
    after: PhotoEngineDocument,
    op: spec_fn(Seq<u8>) -> Seq<u8>,
) -> bool {
    match raster_target(before.state()) {
        None => after.model() == before.model(),
        Some(p) => {
            let new_img = raster_of(after.state().layers[p]);
            &&& after.model() == with_state(push_model(before.model()), with_raster(before.state(), p, new_img))
            &&& adjusted(raster_of(before.state().layers[p]), new_img, before.selection.mask, op)
        },
    }
}


/// `new_img` is `old_img` with `f` applied under the selection (see `map_pixels`).
pub open spec fn mapped_by<F: Fn([u8; 4], u32, u32) -> [u8; 4]>(
    f: F,
    old_img: (u32, u32, Seq<u8>),
    new_img: (u32, u32, Seq<u8>),
    sel: Option<Mask>,
) -> bool {
    &&& new_img.0 == old_img.0
    &&& new_img.1 == old_img.1
    &&& new_img.2.len() == old_img.2.len()
    &&& forall|x: int, y: int, c: int|
        0 <= x < old_img.0 && 0 <= y < old_img.1 && 0 <= c < 4 && clamped_coverage(sel, x, y) == 0
            ==> #[trigger] tchan(new_img, x, y, c) == tchan(old_img, x, y, c)
    &&& forall|x: int, y: int|
        0 <= x < old_img.0 && 0 <= y < old_img.1 && clamped_coverage(sel, x, y) != 0 ==> exists|p: [u8; 4], n: [u8; 4]|
            #[trigger] f.ensures((p, x as u32, y as u32), n) && p@ == old_img.2.subrange(
                4 * crate::index::cell(old_img.0 as int, x, y),
                4 * crate::index::cell(old_img.0 as int, x, y) + 4,
            ) && forall|c: int| 0 <= c < 4 ==> #[trigger] tchan(new_img, x, y, c) == mix_channel(p@[c], n@[c], clamped_coverage(sel, x, y))
}

/// Applies the per-pixel function `f(pixel, x, y)` to the selected raster layer under the
/// selection (see `map_pixels`), recording the previous content first. Does nothing unless
/// the selected layer is an unlocked raster layer.
pub fn apply_to_selected_raster<F: Fn([u8; 4], u32, u32) -> [u8; 4]>(doc: &mut PhotoEngineDocument, f: F)
    requires
        old(doc).wf(),
        selection_readable(old(doc).state()),
        forall|p: [u8; 4], x: u32, y: u32| #[trigger] f.requires((p, x, y)),
    ensures
        final(doc).wf(),
        raster_target(old(doc).state()) is None ==> final(doc).model() == old(doc).model(),
        raster_target(old(doc).state()) matches Some(p) ==> {
            let new_img = raster_of(final(doc).state().layers[p]);
            &&& final(doc).model() == with_state(push_model(old(doc).model()), with_raster(old(doc).state(), p, new_img))
            &&& mapped_by(f, raster_of(old(doc).state().layers[p]), new_img, old(doc).selection.mask)
        },
{
    let selection = doc.selection_copy();
    let p = match doc.raster_target_index() {
        Some(p) => p,
        None => {
            return;
        },
    };
    proof {
        crate::raster_edit::lemma_raster_target_ok(doc.state());
    }
    doc.push_history();
    let mut img = doc.raster_copy(p);
    let ghost before = img;
    let sel_ref = selection.as_ref();
    assert(deref_opt(sel_ref) == selection);
    map_pixels(&mut img, sel_ref, f);
    doc.replace_raster(p, img);
    proof {
        let pi = p as int;
        let s = with_raster(push_model(old(doc).model()).state, pi, triple(img));
        assert(s.layers[pi].kind == crate::layer::KindView::Raster(img.width, img.height, img.data@));
        assert(raster_of(doc.state().layers[pi]) == triple(img));
        let old_img = raster_of(old(doc).state().layers[pi]);
        let new_img = triple(img);
        let msk = old(doc).selection.mask;
        assert(old_img == triple(before));
        assert forall|x: int, y: int, c: int|
            0 <= x < old_img.0 && 0 <= y < old_img.1 && 0 <= c < 4 && clamped_coverage(msk, x, y) == 0
                implies #[trigger] tchan(new_img, x, y, c) == tchan(old_img, x, y, c) by {
            assert(clamped_coverage(selection, x, y) == clamped_coverage(msk, x, y));
            assert(img.chan(x, y, c) == before.chan(x, y, c));
        }
        assert forall|x: int, y: int|
            0 <= x < old_img.0 && 0 <= y < old_img.1 && clamped_coverage(msk, x, y) != 0 implies exists|pp: [u8; 4], n: [u8; 4]|
                #[trigger] f.ensures((pp, x as u32, y as u32), n) && pp@ == old_img.2.subrange(
                    4 * crate::index::cell(old_img.0 as int, x, y),
                    4 * crate::index::cell(old_img.0 as int, x, y) + 4,
                ) && forall|c: int| 0 <= c < 4 ==> #[trigger] tchan(new_img, x, y, c) == mix_channel(pp@[c], n@[c], clamped_coverage(msk, x, y)) by {
            assert(clamped_coverage(selection, x, y) == clamped_coverage(msk, x, y));
            assert(before.in_range(x, y));
            let (pp, n) = choose|pp: [u8; 4], n: [u8; 4]|
                #[trigger] f.ensures((pp, x as u32, y as u32), n) && pp@ == before.pixel(x, y) && forall|c: int|
                    0 <= c < 4 ==> #[trigger] img.chan(x, y, c) == mix_channel(pp@[c], n@[c], clamped_coverage(selection, x, y));
            assert(forall|c: int| 0 <= c < 4 ==> #[trigger] tchan(new_img, x, y, c) == img.chan(x, y, c));
            assert(forall|c: int| 0 <= c < 4 ==> #[trigger] tchan(new_img, x, y, c) == mix_channel(pp@[c], n@[c], clamped_coverage(msk, x, y)));
        }
    }
}

/// Inverts the colours of the selected raster layer under the selection (see
/// `adjustment_done`).
pub fn invert(doc: &mut PhotoEngineDocument)
    requires
        old(doc).wf(),
        selection_readable(old(doc).state()),
    ensures
        final(doc).wf(),
        adjustment_done(*old(doc), *final(doc), |px: Seq<u8>| inverted(px)),
{
    let f = |c: [u8; 4], x: u32, y: u32| -> (r: [u8; 4])
        ensures
            r@ == inverted(c@),
        {
            let r = [255 - c[0], 255 - c[1], 255 - c[2], c[3]];
            assert(r@ =~= inverted(c@));
            r
        };
    apply_to_selected_raster(doc, f);
    proof {
        lemma_adjustment(*old(doc), *doc, f, |px: Seq<u8>| inverted(px));
    }
}

/// Sets each pixel of the selected raster layer to black or white by luminance against
/// `level`, under the selection (see `thresholded`, `adjustment_done`).
pub fn threshold(doc: &mut PhotoEngineDocument, level: u8)
    requires
        old(doc).wf(),
        selection_readable(old(doc).state()),
    ensures
        final(doc).wf(),
        adjustment_done(*old(doc), *final(doc), |px: Seq<u8>| thresholded(px, level)),
{
    let f = |c: [u8; 4], x: u32, y: u32| -> (r: [u8; 4])
        ensures
            r@ == thresholded(c@, level),
        {
            let luma: u16 = (c[0] as u16 * 54 + c[1] as u16 * 183 + c[2] as u16 * 19) / 256;
            let v: u8 = if luma as u8 >= level { 255 } else { 0 };
            let r = [v, v, v, c[3]];
            assert(r@ =~= thresholded(c@, level));
            r
        };
    apply_to_selected_raster(doc, f);
    proof {
        lemma_adjustment(*old(doc), *doc, f, |px: Seq<u8>| thresholded(px, level));
    }
}

/// Replaces the colour of the pixels of the selected raster layer within `tolerance` of
/// `from` by `to` (alpha kept), under the selection (see `color_replaced`).
pub fn replace_color(doc: &mut PhotoEngineDocument, from: [u8; 4], to: [u8; 4], tolerance: u8)
    requires
        old(doc).wf(),
        selection_readable(old(doc).state()),
    ensures
        final(doc).wf(),
        adjustment_done(*old(doc), *final(doc), |px: Seq<u8>| color_replaced(px, from@, to@, tolerance)),
{
    let f = |c: [u8; 4], x: u32, y: u32| -> (r: [u8; 4])
        ensures
            r@ == color_replaced(c@, from@, to@, tolerance),
        {
            let dr = c[0] as i32 - from[0] as i32;
            let dg = c[1] as i32 - from[1] as i32;
            let db = c[2] as i32 - from[2] as i32;
            assert(dr * dr <= 65025 && dg * dg <= 65025 && db * db <= 65025 && 0 <= dr * dr && 0 <= dg * dg
                && 0 <= db * db) by (nonlinear_arith)
                requires
                    -255 <= dr <= 255,
                    -255 <= dg <= 255,
                    -255 <= db <= 255,
            ;
            let d2 = dr * dr + dg * dg + db * db;
            assert(d2 == dist2(c@, from@));
            let t = tolerance as i32;
            assert(t * t <= 65025) by (nonlinear_arith)
                requires
                    0 <= t <= 255,
            ;
            if d2 <= t * t {
                let r = [to[0], to[1], to[2], c[3]];
                assert(r@ =~= color_replaced(c@, from@, to@, tolerance));
                r
            } else {
                c
            }
        };
    apply_to_selected_raster(doc, f);
    proof {
        lemma_adjustment(*old(doc), *doc, f, |px: Seq<u8>| color_replaced(px, from@, to@, tolerance));
    }
}

/// A per-pixel function that always computes `op` yields `adjustment_done` for `op`.
proof fn lemma_adjustment<F: Fn([u8; 4], u32, u32) -> [u8; 4]>(
    before: PhotoEngineDocument,
    after: PhotoEngineDocument,
    f: F,
    op: spec_fn(Seq<u8>) -> Seq<u8>,
)
    requires
        before.wf(),
        forall|c: [u8; 4], x: u32, y: u32, r: [u8; 4]| #[trigger] f.ensures((c, x, y), r) ==> r@ == op(c@),
        raster_target(before.state()) is None ==> after.model() == before.model(),
        raster_target(before.state()) matches Some(p) ==> {
            let new_img = raster_of(after.state().layers[p]);
            &&& after.model() == with_state(push_model(before.model()), with_raster(before.state(), p, new_img))
            &&& mapped_by(f, raster_of(before.state().layers[p]), new_img, before.selection.mask)
        },
    ensures
        adjustment_done(before, after, op),
{
    if let Some(p) = raster_target(before.state()) {
        crate::raster_edit::lemma_raster_target_ok(before.state());
        let old_img = raster_of(before.state().layers[p]);
        let new_img = raster_of(after.state().layers[p]);
        let sel = before.selection.mask;
        assert forall|x: int, y: int, c: int|
            0 <= x < old_img.0 && 0 <= y < old_img.1 && 0 <= c < 4 implies #[trigger] tchan(new_img, x, y, c) == mix_channel(
                tchan(old_img, x, y, c),
                op(old_img.2.subrange(4 * crate::index::cell(old_img.0 as int, x, y), 4 * crate::index::cell(old_img.0 as int, x, y) + 4))[c],
                clamped_coverage(sel, x, y),
            ) by {
            let i = 4 * crate::index::cell(old_img.0 as int, x, y);
            if clamped_coverage(sel, x, y) == 0 {
                crate::color::lemma_mix_ends(tchan(old_img, x, y, c), op(old_img.2.subrange(i, i + 4))[c]);
            } else {
                let (pp, n) = choose|pp: [u8; 4], n: [u8; 4]|
                    #[trigger] f.ensures((pp, x as u32, y as u32), n) && pp@ == old_img.2.subrange(i, i + 4) && forall|c: int|
                        0 <= c < 4 ==> #[trigger] tchan(new_img, x, y, c) == mix_channel(pp@[c], n@[c], clamped_coverage(sel, x, y));
                assert(n@ == op(pp@));
                assert(0 <= crate::index::cell(old_img.0 as int, x, y) < old_img.0 * old_img.1) by {
                    lemma_cell_in_grid(old_img.0 as int, old_img.1 as int, x, y);
                }
                assert(pp@[c] == old_img.2[i + c]);
            }
        }
    }
}


/// Inverting a pixel twice gives it back.
pub proof fn lemma_invert_twice(px: Seq<u8>)
    requires
        px.len() == 4,
    ensures
        inverted(inverted(px)) == px,
{
    assert(inverted(inverted(px)) =~= px);
}

/// Thresholding makes a pixel pure black or pure white, keeping its alpha.
pub proof fn lemma_threshold_black_or_white(px: Seq<u8>, level: u8)
    requires
        px.len() == 4,
    ensures
        thresholded(px, level).len() == 4,
        thresholded(px, level)[0] == 0 || thresholded(px, level)[0] == 255,
        thresholded(px, level)[1] == thresholded(px, level)[0],
        thresholded(px, level)[2] == thresholded(px, level)[0],
        thresholded(px, level)[3] == px[3],
{
}

/// The luminance that thresholding compares with `level` weighs green most, then red, then
/// blue, with weights summing to one: a grey pixel turns white exactly when its level
/// reaches `level`; pure red (luminance 53), pure green (182) and pure blue (18) turn white
/// exactly when `level` is at most their luminance; and swapping the red and blue of a
/// pixel that has more red than blue never turns black into white.
pub proof fn lemma_threshold_luminance(v: u8, a: u8, level: u8, r: u8, g: u8, b: u8)
    ensures
        (thresholded(seq![v, v, v, a], level)[0] == 255) <==> v >= level,
        (thresholded(seq![255u8, 0u8, 0u8, a], level)[0] == 255) <==> level <= 53,
        (thresholded(seq![0u8, 255u8, 0u8, a], level)[0] == 255) <==> level <= 182,
        (thresholded(seq![0u8, 0u8, 255u8, a], level)[0] == 255) <==> level <= 18,
        r >= b && thresholded(seq![b, g, r, a], level)[0] == 255 ==> thresholded(seq![r, g, b, a], level)[0] == 255,
{
    assert((54 * v + 183 * v + 19 * v) / 256 == v) by (nonlinear_arith);
    assert((54 * 255int + 183 * 0int + 19 * 0int) / 256 == 53);
    assert((54 * 0int + 183 * 255int + 19 * 0int) / 256 == 182);
    assert((54 * 0int + 183 * 0int + 19 * 255int) / 256 == 18);
    if r >= b {
        assert((54 * b + 183 * g + 19 * r) / 256 <= (54 * r + 183 * g + 19 * b) / 256) by (nonlinear_arith)
            requires
                r >= b,
        ;
    }
}

} // verus!
