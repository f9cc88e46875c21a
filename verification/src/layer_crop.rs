use vstd::prelude::*;
use crate::document::{PhotoEngineDocument, StateView, push_model};
use crate::geometry::{RectI, clip_rect};
use crate::history::with_state;
use crate::layer::{KindView, MaskView, mask_view};
use crate::layer_masks::with_mask;
use crate::pixels::{tchan, triple};
use crate::raster_edit::{lemma_raster_target_ok, raster_of, raster_target, with_raster};
use crate::regions::sub_mask;
use crate::selection::mv_value;

verus! {

/// `new_img` is the part of `old_img` under `rect` (see `clip_rect`).
pub open spec fn cropped_image(old_img: (u32, u32, Seq<u8>), new_img: (u32, u32, Seq<u8>), rect: RectI) -> bool {
    let r = clip_rect(old_img.0, old_img.1, rect);
    &&& new_img.0 == r.w
    &&& new_img.1 == r.h
    &&& new_img.2.len() == 4 * (r.w * r.h)
    &&& forall|x: int, y: int, c: int|
        0 <= x < r.w && 0 <= y < r.h && 0 <= c < 4 ==> #[trigger] tchan(new_img, x, y, c) == tchan(old_img, r.x + x, r.y + y, c)
}

/// `new_m` is the part of `old_m` under `rect` (see `clip_rect`).
pub open spec fn cropped_mask(old_m: MaskView, new_m: MaskView, rect: RectI) -> bool {
    let r = clip_rect(old_m.0, old_m.1, rect);
    &&& new_m.0 == r.w
    &&& new_m.1 == r.h
    &&& new_m.2.len() == r.w * r.h
    &&& forall|x: int, y: int| 0 <= x < r.w && 0 <= y < r.h ==> #[trigger] mv_value(new_m, x, y) == mv_value(old_m, r.x + x, r.y + y)
}

/// Cropping can read what it copies: `rect`'s edges fit an `i32`, and the target raster
/// layer and its mask, if any, have at least one cell each way.
pub open spec fn crop_ok(s: StateView, rect: RectI) -> bool {
    &&& rect.edges_fit()
    &&& raster_target(s) matches Some(p) ==> {
        &&& raster_of(s.layers[p]).0 >= 1
        &&& raster_of(s.layers[p]).1 >= 1
        &&& (s.layers[p].mask matches Some(m) ==> m.0 >= 1 && m.1 >= 1)
    }
}

/// Crops the pixels (and the mask, if any) of the selected raster layer to `rect`; the
/// previous content is recorded. Does nothing unless the selected layer is an unlocked
/// raster layer.
pub fn free_crop_layer_pixels(doc: &mut PhotoEngineDocument, rect: RectI)
    requires
        old(doc).wf(),
        crop_ok(old(doc).state(), rect),
    ensures
        final(doc).wf(),
        raster_target(old(doc).state()) is None ==> final(doc).model() == old(doc).model(),
        raster_target(old(doc).state()) matches Some(p) ==> {
            let before = old(doc).state().layers[p];
            let after = final(doc).state().layers[p];
            &&& final(doc).model() == with_state(
                push_model(old(doc).model()),
                with_mask(with_raster(old(doc).state(), p, raster_of(after)), p, after.mask),
            )
            &&& cropped_image(raster_of(before), raster_of(after), rect)
            &&& (before.mask is None ==> after.mask is None)
            &&& (before.mask matches Some(m) ==> after.mask matches Some(n) && cropped_mask(m, n, rect))
        },
{
    let p = match doc.raster_target_index() {
        Some(p) => p,
        None => {
            return;
        },
    };
    proof {
        lemma_raster_target_ok(doc.state());
    }
    doc.push_history();
    let img = doc.raster_copy(p);
    let old_mask = doc.mask_copy(p);
    let sub = img.sub_image(rect);
    doc.replace_raster(p, sub);
    let ghost s0 = old(doc).state();
    let ghost pi = p as int;
    let ghost s1 = with_raster(s0, pi, triple(sub));
    proof {
        assert(s1.layers[pi].kind == KindView::Raster(sub.width, sub.height, sub.data@));
        assert(raster_of(s1.layers[pi]) == triple(sub));
        let r = clip_rect(img.width, img.height, rect);
        assert forall|x: int, y: int, c: int|
            0 <= x < r.w && 0 <= y < r.h && 0 <= c < 4 implies #[trigger] tchan(triple(sub), x, y, c) == tchan(
                triple(img),
                r.x + x,
                r.y + y,
                c,
            ) by {
            assert(sub.chan(x, y, c) == img.chan(r.x + x, r.y + y, c));
        }
    }
    match old_mask {
        Some(m) => {
            let nm = sub_mask(&m, rect);
            doc.set_layer_mask(p, Some(nm));
            proof {
                let r = clip_rect(m.width, m.height, rect);
                assert forall|x: int, y: int| 0 <= x < r.w && 0 <= y < r.h implies #[trigger] mv_value(mask_view(nm), x, y)
                    == mv_value(mask_view(m), r.x + x, r.y + y) by {
                    assert(nm.at(x, y) == m.at(r.x + x, r.y + y));
                }
                let s2 = with_mask(s1, pi, Some(mask_view(nm)));
                assert(raster_of(s2.layers[pi]) == triple(sub));
            }
        },
        None => {
            proof {
                assert(with_mask(s1, pi, None) =~= s1) by {
                    assert(s1.layers.update(pi, crate::layer::LayerView { mask: None, ..s1.layers[pi] }) =~= s1.layers);
                }
            }
        },
    }
}

} // verus!
