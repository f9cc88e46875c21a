use vstd::prelude::*;
use crate::compose::{apply_layer_mask, masked_value};
use crate::document::{HistoryView, PhotoEngineDocument, StateView, layer_ok, layers_view, mask_ok, push_model, state_ok};
use crate::history::with_state;
use crate::layer::{KindView, LayerView, MaskView, mask_view, opt_mask_view};
use crate::mask_ops::{blur_cells, blur_mask};
use crate::masks::Mask;
use crate::regions::build_mask;
use crate::pixels::{tchan, triple};
use crate::raster_edit::{raster_of, with_raster};
use crate::selection::mv_value;
use crate::stack::{lemma_find_first_range, selected_position};

verus! {

/// Position of the layer whose mask the mask edits apply to: the selected layer, when it
/// is unlocked and has a mask.
pub open spec fn mask_target(s: StateView) -> Option<int> {
    match selected_position(s) {
        Some(p) => if !s.layers[p].locked && s.layers[p].mask is Some { Some(p) } else { None },
        None => None,
    }
}

/// The mask of layer `p`.
pub open spec fn mask_of(s: StateView, p: int) -> MaskView {
    s.layers[p].mask->0
}

/// The content with layer `p`'s mask replaced by `m`.
pub open spec fn with_mask(s: StateView, p: int, m: Option<MaskView>) -> StateView {
    StateView { layers: s.layers.update(p, LayerView { mask: m, ..s.layers[p] }), ..s }
}

/// A mask with every value `v` replaced by `255 - v`.
pub open spec fn inverted_mask(m: MaskView) -> MaskView {
    (m.0, m.1, m.2.map_values(|v: u8| (255 - v) as u8))
}

/// Mask value read for pixel `(x, y)` when a mask is applied: the cell at the coordinates
/// clamped to the mask.
pub open spec fn clamped_mask_value(m: MaskView, x: int, y: int) -> int {
    mv_value(m, if x <= m.0 - 1 { x } else { m.0 - 1 }, if y <= m.1 - 1 { y } else { m.1 - 1 }) as int
}

/// The content after a layer's mask is merged into its pixels: the mask is removed and,
/// for a raster layer, each pixel's alpha becomes `alpha * m / 255` (`m` the clamped mask
/// value at the pixel).
pub open spec fn mask_merged(s: StateView, p: int, new_img: (u32, u32, Seq<u8>)) -> bool {
    let m = mask_of(s, p);
    let old_img = raster_of(s.layers[p]);
    let unmasked = with_mask(s, p, None);
    if s.layers[p].kind is Raster {
        &&& new_img.0 == old_img.0
        &&& new_img.1 == old_img.1
        &&& new_img.2.len() == old_img.2.len()
        &&& forall|x: int, y: int, c: int|
            0 <= x < old_img.0 && 0 <= y < old_img.1 && 0 <= c < 4 ==> #[trigger] tchan(new_img, x, y, c) == if c == 3 {
                (tchan(old_img, x, y, 3) * clamped_mask_value(m, x, y) / 255) as u8
            } else {
                tchan(old_img, x, y, c)
            }
    } else {
        true
    }
}

impl PhotoEngineDocument {
    /// Position of the layer the mask edits apply to (see `mask_target`).
    pub fn mask_target_index(&self) -> (r: Option<usize>)
        ensures
            match r {
                Some(p) => mask_target(self.state()) == Some(p as int) && p < self.layers@.len(),
                None => mask_target(self.state()) is None,
            },
    {
        let p = match self.selected_index() {
            Some(p) => p,
            None => {
                return None;
            },
        };
        if self.layers[p].locked || self.layers[p].mask.is_none() {
            None
        } else {
            Some(p)
        }
    }

    /// A copy of layer `p`'s mask.
    pub fn mask_copy(&self, p: usize) -> (m: Option<Mask>)
        requires
            p < self.layers@.len(),
        ensures
            opt_mask_view(m) == self.state().layers[p as int].mask,
            state_ok(self.state()) ==> (m matches Some(q) ==> q.wf() && q.width <= i32::MAX && q.height <= i32::MAX),
    {
        proof {
            if state_ok(self.state()) {
                assert(layer_ok(self.state().layers[p as int]));
            }
        }
        match &self.layers[p].mask {
            Some(m) => Some(m.duplicate()),
            None => None,
        }
    }

    /// Replaces layer `p`'s mask by `m`, keeping everything else.
    pub fn set_layer_mask(&mut self, p: usize, m: Option<Mask>)
        requires
            p < old(self).layers@.len(),
            old(self).wf(),
            m matches Some(q) ==> q.wf() && q.width <= i32::MAX && q.height <= i32::MAX,
        ensures
            final(self).model() == (HistoryView { state: with_mask(old(self).state(), p as int, opt_mask_view(m)), ..old(self).model() }),
            final(self).wf(),
            final(self).layers@.len() == old(self).layers@.len(),
    {
        let mut layer = self.layers.remove(p);
        layer.mask = m;
        self.layers.insert(p, layer);
        proof {
            let s = old(self).state();
            assert(layers_view(self.layers@) =~= s.layers.update(p as int, LayerView { mask: opt_mask_view(m), ..s.layers[p as int] }));
            assert(layer_ok(s.layers[p as int]));
            assert(self.state() =~= with_mask(s, p as int, opt_mask_view(m)));
        }
    }
}

/// The layer mask edits find a layer of the document with a well-formed mask.
pub proof fn lemma_mask_target_ok(s: StateView)
    requires
        state_ok(s),
        mask_target(s) is Some,
    ensures
        0 <= mask_target(s)->0 < s.layers.len(),
        mask_ok(mask_of(s, mask_target(s)->0)),
{
    lemma_find_first_range(s.layers, s.selected_layer->0, 0);
    assert(layer_ok(s.layers[mask_target(s)->0]));
}

/// Inverts the mask of the selected layer; the previous content is recorded. Does nothing
/// unless the selected layer is unlocked and has a mask.
pub fn invert_layer_mask(doc: &mut PhotoEngineDocument)
    requires
        old(doc).wf(),
    ensures
        final(doc).wf(),
        mask_target(old(doc).state()) is None ==> final(doc).model() == old(doc).model(),
        mask_target(old(doc).state()) matches Some(p) ==> final(doc).model() == with_state(
            push_model(old(doc).model()),
            with_mask(old(doc).state(), p, Some(inverted_mask(mask_of(old(doc).state(), p)))),
        ),
{
    let p = match doc.mask_target_index() {
        Some(p) => p,
        None => {
            return;
        },
    };
    doc.push_history();
    let mut m = match doc.mask_copy(p) {
        Some(m) => m,
        None => {
            return;
        },
    };
    let ghost before = m;
    m.invert();
    proof {
        let mv = mask_of(old(doc).state(), p as int);
        assert(mask_view(before) == mv);
        assert(mask_view(m) =~= inverted_mask(mv));
    }
    doc.set_layer_mask(p, Some(m));
}

/// Removes the mask of the selected layer; the previous content is recorded. Does nothing
/// unless the selected layer is unlocked and has a mask.
pub fn delete_layer_mask(doc: &mut PhotoEngineDocument)
    requires
        old(doc).wf(),
    ensures
        final(doc).wf(),
        mask_target(old(doc).state()) is None ==> final(doc).model() == old(doc).model(),
        mask_target(old(doc).state()) matches Some(p) ==> final(doc).model() == with_state(
            push_model(old(doc).model()),
            with_mask(old(doc).state(), p, None),
        ),
{
    let p = match doc.mask_target_index() {
        Some(p) => p,
        None => {
            return;
        },
    };
    doc.push_history();
    doc.set_layer_mask(p, None);
}

/// Softens the mask of the selected layer with a box blur of half-width `radius`; the
/// previous content is recorded. Does nothing unless the selected layer is unlocked and
/// has a mask.
pub fn feather_layer_mask(doc: &mut PhotoEngineDocument, radius: u32)
    requires
        old(doc).wf(),
    ensures
        final(doc).wf(),
        mask_target(old(doc).state()) is None ==> final(doc).model() == old(doc).model(),
        mask_target(old(doc).state()) matches Some(p) ==> final(doc).model() == with_state(
            push_model(old(doc).model()),
            with_mask(
                old(doc).state(),
                p,
                Some(
                    (
                        mask_of(old(doc).state(), p).0,
                        mask_of(old(doc).state(), p).1,
                        blur_cells(
                            mask_of(old(doc).state(), p).0 as int,
                            mask_of(old(doc).state(), p).1 as int,
                            mask_of(old(doc).state(), p).2,
                            radius as int,
                        ),
                    ),
                ),
            ),
        ),
{
    let p = match doc.mask_target_index() {
        Some(p) => p,
        None => {
            return;
        },
    };
    proof {
        lemma_mask_target_ok(doc.state());
    }
    doc.push_history();
    let m = match doc.mask_copy(p) {
        Some(m) => m,
        None => {
            return;
        },
    };
    let blurred = blur_mask(&m, radius);
    doc.set_layer_mask(p, Some(blurred));
}

/// Merging the mask can read it for every pixel: when the layer is a raster with pixels,
/// its mask has at least one cell each way.
pub open spec fn mask_mergeable(s: StateView) -> bool {
    mask_target(s) matches Some(p) ==> (s.layers[p].kind matches KindView::Raster(w, h, d) && w >= 1 && h >= 1
        ==> mask_of(s, p).0 >= 1 && mask_of(s, p).1 >= 1)
}

/// Merges the selected layer's mask into its pixels (for a raster layer, alpha is scaled
/// by the mask) and removes the mask; the previous content is recorded. Does nothing
/// unless the selected layer is unlocked and has a mask (see `mask_merged`).
pub fn apply_layer_mask_destructive(doc: &mut PhotoEngineDocument)
    requires
        old(doc).wf(),
        mask_mergeable(old(doc).state()),
    ensures
        final(doc).wf(),
        mask_target(old(doc).state()) is None ==> final(doc).model() == old(doc).model(),
        mask_target(old(doc).state()) matches Some(p) ==> {
            let unmasked = with_mask(old(doc).state(), p, None);
            let new_img = raster_of(final(doc).state().layers[p]);
            &&& final(doc).model() == with_state(
                push_model(old(doc).model()),
                if old(doc).state().layers[p].kind is Raster { with_raster(unmasked, p, new_img) } else { unmasked },
            )
            &&& mask_merged(old(doc).state(), p, new_img)
        },
{
    let p = match doc.mask_target_index() {
        Some(p) => p,
        None => {
            return;
        },
    };
    proof {
        lemma_mask_target_ok(doc.state());
    }
    let m = match doc.mask_copy(p) {
        Some(m) => m,
        None => {
            return;
        },
    };
    doc.push_history();
    doc.set_layer_mask(p, None);
    let is_raster = match &doc.layers[p].kind {
        crate::layer::LayerKind::Raster(_) => true,
        _ => false,
    };
    if is_raster {
        let mut img = doc.raster_copy(p);
        let ghost before = img;
        apply_layer_mask(&mut img, Some(&m));
        doc.replace_raster(p, img);
        proof {
            let pi = p as int;
            let s0 = old(doc).state();
            let unmasked = with_mask(s0, pi, None);
            let mv = mask_of(s0, pi);
            assert(mask_view(m) == mv);
            let old_img = raster_of(s0.layers[pi]);
            assert(old_img == triple(before));
            let s = with_raster(unmasked, pi, triple(img));
            assert(s.layers[pi].kind == KindView::Raster(img.width, img.height, img.data@));
            assert(raster_of(doc.state().layers[pi]) == triple(img));
            assert forall|x: int, y: int, c: int|
                0 <= x < old_img.0 && 0 <= y < old_img.1 && 0 <= c < 4 implies #[trigger] tchan(triple(img), x, y, c) == if c == 3 {
                    (tchan(old_img, x, y, 3) * clamped_mask_value(mv, x, y) / 255) as u8
                } else {
                    tchan(old_img, x, y, c)
                } by {
                assert(img.chan(x, y, c) == tchan(triple(img), x, y, c));
                assert(before.chan(x, y, c) == tchan(old_img, x, y, c));
                assert(masked_value(m, x, y) == clamped_mask_value(mv, x, y));
            }
        }
    }
}

/// Position of the layer a new mask is added to: the selected layer, when it is unlocked.
pub open spec fn unlocked_target(s: StateView) -> Option<int> {
    match selected_position(s) {
        Some(p) => if !s.layers[p].locked { Some(p) } else { None },
        None => None,
    }
}

/// Size of the mask a layer gets: its pixel size for a raster layer, its width and height
/// for a shape, and `text_extent` (the size its text rasterizes to) for a text layer.
pub open spec fn layer_extent(l: LayerView, text_extent: (u32, u32)) -> (u32, u32) {
    match l.kind {
        KindView::Raster(w, h, _) => (w, h),
        KindView::TextPlaceholder(_, _, _) => text_extent,
        KindView::ShapeRect(w, h, _, _, _) => (w, h),
        KindView::ShapeEllipse(w, h, _, _, _) => (w, h),
    }
}

/// A mask of this size can be held: its cells fit a `u32` count and its sides an `i32`.
pub open spec fn extent_fits(e: (u32, u32)) -> bool {
    e.0 * e.1 <= u32::MAX && e.0 <= i32::MAX && e.1 <= i32::MAX
}

/// A new mask for the target layer can be held (see `extent_fits`).
pub open spec fn new_mask_fits(s: StateView, text_extent: (u32, u32)) -> bool {
    unlocked_target(s) matches Some(p) ==> extent_fits(layer_extent(s.layers[p], text_extent))
}

/// A mask of size `e` with every cell `v`.
pub open spec fn uniform_mask(e: (u32, u32), v: u8) -> MaskView {
    (e.0, e.1, Seq::new((e.0 * e.1) as nat, |i: int| v))
}

impl PhotoEngineDocument {
    /// Position of the layer a new mask is added to (see `unlocked_target`).
    pub fn unlocked_target_index(&self) -> (r: Option<usize>)
        ensures
            match r {
                Some(p) => unlocked_target(self.state()) == Some(p as int) && p < self.layers@.len(),
                None => unlocked_target(self.state()) is None,
            },
    {
        let p = match self.selected_index() {
            Some(p) => p,
            None => {
                return None;
            },
        };
        if self.layers[p].locked {
            None
        } else {
            Some(p)
        }
    }

    /// The size of the mask layer `p` gets (see `layer_extent`).
    pub fn layer_extent_of(&self, p: usize, text_extent: (u32, u32)) -> (e: (u32, u32))
        requires
            p < self.layers@.len(),
        ensures
            e == layer_extent(self.state().layers[p as int], text_extent),
    {
        match &self.layers[p].kind {
            crate::layer::LayerKind::Raster(img) => (img.width, img.height),
            crate::layer::LayerKind::TextPlaceholder { .. } => text_extent,
            crate::layer::LayerKind::ShapeRect { width, height, .. } => (*width, *height),
            crate::layer::LayerKind::ShapeEllipse { width, height, .. } => (*width, *height),
        }
    }
}

/// Gives the selected layer a mask of its size with every cell `value`, replacing any mask
/// it had; the previous content is recorded. Does nothing unless the selected layer is
/// unlocked.
fn add_uniform_mask(doc: &mut PhotoEngineDocument, text_extent: (u32, u32), value: u8)
    requires
        old(doc).wf(),
        new_mask_fits(old(doc).state(), text_extent),
    ensures
        final(doc).wf(),
        unlocked_target(old(doc).state()) is None ==> final(doc).model() == old(doc).model(),
        unlocked_target(old(doc).state()) matches Some(p) ==> final(doc).model() == with_state(
            push_model(old(doc).model()),
            with_mask(old(doc).state(), p, Some(uniform_mask(layer_extent(old(doc).state().layers[p], text_extent), value))),
        ),
{
    let p = match doc.unlocked_target_index() {
        Some(p) => p,
        None => {
            return;
        },
    };
    let (w, h) = doc.layer_extent_of(p, text_extent);
    doc.push_history();
    let m = Mask::new(w, h, value);
    doc.set_layer_mask(p, Some(m));
}

/// Gives the selected layer a mask that shows all of it (every cell 255), sized like the
/// layer (see `layer_extent`); the previous content is recorded. Does nothing unless the
/// selected layer is unlocked.
pub fn add_reveal_all_mask(doc: &mut PhotoEngineDocument, text_extent: (u32, u32))
    requires
        old(doc).wf(),
        new_mask_fits(old(doc).state(), text_extent),
    ensures
        final(doc).wf(),
        unlocked_target(old(doc).state()) is None ==> final(doc).model() == old(doc).model(),
        unlocked_target(old(doc).state()) matches Some(p) ==> final(doc).model() == with_state(
            push_model(old(doc).model()),
            with_mask(old(doc).state(), p, Some(uniform_mask(layer_extent(old(doc).state().layers[p], text_extent), 255))),
        ),
{
    add_uniform_mask(doc, text_extent, 255);
}

/// Gives the selected layer a mask that hides all of it (every cell 0), sized like the
/// layer (see `layer_extent`); the previous content is recorded. Does nothing unless the
/// selected layer is unlocked.
pub fn add_hide_all_mask(doc: &mut PhotoEngineDocument, text_extent: (u32, u32))
    requires
        old(doc).wf(),
        new_mask_fits(old(doc).state(), text_extent),
    ensures
        final(doc).wf(),
        unlocked_target(old(doc).state()) is None ==> final(doc).model() == old(doc).model(),
        unlocked_target(old(doc).state()) matches Some(p) ==> final(doc).model() == with_state(
            push_model(old(doc).model()),
            with_mask(old(doc).state(), p, Some(uniform_mask(layer_extent(old(doc).state().layers[p], text_extent), 0))),
        ),
{
    add_uniform_mask(doc, text_extent, 0);
}

/// The cells of a `e.0` by `e.1` mask sampled from `sel` with clamped coordinates.
pub open spec fn sampled_mask(sel: MaskView, e: (u32, u32)) -> MaskView {
    (e.0, e.1, Seq::new((e.0 * e.1) as nat, |i: int| clamped_mask_value(sel, i % (e.0 as int), i / (e.0 as int)) as u8))
}

/// A `w` by `h` mask whose cell `(x, y)` is `sel`'s cell at the coordinates clamped to `sel`.
fn sample_clamped(sel: &Mask, w: u32, h: u32) -> (out: Mask)
    requires
        sel.wf(),
        sel.width >= 1,
        sel.height >= 1,
        w * h <= u32::MAX,
    ensures
        out.wf(),
        out.width == w,
        out.height == h,
        forall|x: int, y: int| out.in_range(x, y) ==> #[trigger] out.at(x, y) == clamped_mask_value(mask_view(*sel), x, y),
{
    let f = |x: u32, y: u32| -> (v: u8)
        requires
            sel.wf(),
            sel.width >= 1,
            sel.height >= 1,
        ensures
            v == clamped_mask_value(mask_view(*sel), x as int, y as int),
        {
            let mx = if x <= sel.width - 1 { x } else { sel.width - 1 };
            let my = if y <= sel.height - 1 { y } else { sel.height - 1 };
            sel.get(mx, my)
        };
    build_mask(w, h, f, Ghost(|x: int, y: int| clamped_mask_value(mask_view(*sel), x, y) as u8))
}

/// Gives the selected layer a mask sized like the layer (see `layer_extent`) holding the
/// selection, sampled with clamped coordinates; the previous content is recorded. Does
/// nothing without a selection or unless the selected layer is unlocked.
pub fn add_mask_from_selection(doc: &mut PhotoEngineDocument, text_extent: (u32, u32))
    requires
        old(doc).wf(),
        old(doc).state().selection matches Some(m) ==> (unlocked_target(old(doc).state()) matches Some(p) ==> (
        layer_extent(old(doc).state().layers[p], text_extent).0 >= 1 && layer_extent(old(doc).state().layers[p], text_extent).1
            >= 1 ==> m.0 >= 1 && m.1 >= 1)),
        new_mask_fits(old(doc).state(), text_extent),
    ensures
        final(doc).wf(),
        old(doc).state().selection is None || unlocked_target(old(doc).state()) is None ==> final(doc).model() == old(
            doc,
        ).model(),
        old(doc).state().selection matches Some(sel) ==> (unlocked_target(old(doc).state()) matches Some(p)
            ==> final(doc).model() == with_state(
            push_model(old(doc).model()),
            with_mask(old(doc).state(), p, Some(sampled_mask(sel, layer_extent(old(doc).state().layers[p], text_extent)))),
        )),
{
    let sel = match doc.selection_copy() {
        Some(m) => m,
        None => {
            return;
        },
    };
    let p = match doc.unlocked_target_index() {
        Some(p) => p,
        None => {
            return;
        },
    };
    let (w, h) = doc.layer_extent_of(p, text_extent);
    doc.push_history();
    let m = if w == 0 || h == 0 {
        Mask::new(w, h, 0)
    } else {
        sample_clamped(&sel, w, h)
    };
    proof {
        let e = (w, h);
        let selv = old(doc).state().selection->0;
        assert(mask_view(sel) == selv);
        assert(mask_view(m) =~= sampled_mask(selv, e)) by {
            assert forall|i: int| 0 <= i < w * h implies #[trigger] m.data@[i] == sampled_mask(selv, e).2[i] by {
                crate::index::lemma_position_is_cell(w as int, h as int, i);
                assert(m.at(i % (w as int), i / (w as int)) == m.data@[i]);
            }
        }
    }
    doc.set_layer_mask(p, Some(m));
}


/// Inverting a mask twice gives it back.
pub proof fn lemma_invert_mask_twice(m: MaskView)
    ensures
        inverted_mask(inverted_mask(m)) == m,
{
    assert(inverted_mask(inverted_mask(m)).2 =~= m.2);
}

} // verus!
