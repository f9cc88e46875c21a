use vstd::prelude::*;
use crate::compose::{clamped_coverage, sampleable};
use crate::document::{PhotoEngineDocument, StateView, layer_ok, layers_view, state_ok};
use crate::layer::{KindView, LayerKind, LayerView, duplicate_mask};
use crate::masks::Mask;
use crate::pixels::{PixelBuffer, triple};
use crate::stack::selected_position;

verus! {

/// Position of the layer that raster edits apply to: the selected layer, when it is an
/// unlocked raster layer.
pub open spec fn raster_target(s: StateView) -> Option<int> {
    match selected_position(s) {
        Some(p) => if !s.layers[p].locked && s.layers[p].kind is Raster { Some(p) } else { None },
        None => None,
    }
}

/// The layer raster edits apply to is a layer of the document with well-formed pixels.
pub proof fn lemma_raster_target_ok(s: StateView)
    requires
        state_ok(s),
        raster_target(s) is Some,
    ensures
        0 <= raster_target(s)->0 < s.layers.len(),
        crate::document::image_ok(
            raster_of(s.layers[raster_target(s)->0]).0,
            raster_of(s.layers[raster_target(s)->0]).1,
            raster_of(s.layers[raster_target(s)->0]).2,
        ),
{
    crate::stack::lemma_find_first_range(s.layers, s.selected_layer->0, 0);
    assert(layer_ok(s.layers[raster_target(s)->0]));
}

/// The pixel buffer of a raster layer view, as `(width, height, bytes)`.
pub open spec fn raster_of(l: LayerView) -> (u32, u32, Seq<u8>) {
    match l.kind {
        KindView::Raster(w, h, d) => (w, h, d),
        _ => (0, 0, Seq::empty()),
    }
}

/// The content with layer `p`'s pixels replaced by `img` (width, height, bytes).
pub open spec fn with_raster(s: StateView, p: int, img: (u32, u32, Seq<u8>)) -> StateView {
    StateView {
        layers: s.layers.update(p, LayerView { kind: KindView::Raster(img.0, img.1, img.2), ..s.layers[p] }),
        ..s
    }
}

/// The selection mask as the pixel filters see it: absent, or well formed and not empty.
pub open spec fn selection_sampleable(s: StateView) -> bool {
    s.selection matches Some(m) ==> m.0 >= 1 && m.1 >= 1
}

/// The raster edits can read the selection wherever they need it: when the target raster
/// layer has pixels, the selection, if any, has at least one cell each way.
pub open spec fn selection_readable(s: StateView) -> bool {
    raster_target(s) matches Some(p) ==> (raster_of(s.layers[p]).0 >= 1 && raster_of(s.layers[p]).1 >= 1
        ==> selection_sampleable(s))
}

impl PhotoEngineDocument {
    /// Position of the layer raster edits apply to (see `raster_target`).
    pub fn raster_target_index(&self) -> (r: Option<usize>)
        ensures
            match r {
                Some(p) => raster_target(self.state()) == Some(p as int) && p < self.layers@.len(),
                None => raster_target(self.state()) is None,
            },
    {
        let p = match self.selected_index() {
            Some(p) => p,
            None => {
                return None;
            },
        };
        if self.layers[p].locked {
            return None;
        }
        match &self.layers[p].kind {
            LayerKind::Raster(_) => Some(p),
            _ => None,
        }
    }

    /// A copy of layer `p`'s pixels.
    pub fn raster_copy(&self, p: usize) -> (img: PixelBuffer)
        requires
            p < self.layers@.len(),
            self.layers@[p as int].kind is Raster,
        ensures
            (img.width, img.height, img.data@) == raster_of(self.state().layers[p as int]),
            state_ok(self.state()) ==> img.wf(),
    {
        proof {
            if state_ok(self.state()) {
                assert(layer_ok(self.state().layers[p as int]));
            }
        }
        match &self.layers[p].kind {
            LayerKind::Raster(img) => img.duplicate(),
            _ => PixelBuffer::new(0, 0),
        }
    }

    /// A copy of the selection mask.
    pub fn selection_copy(&self) -> (m: Option<Mask>)
        ensures
            m == self.selection.mask || (m matches Some(q) && self.selection.mask matches Some(s) && q.width
                == s.width && q.height == s.height && q.data@ == s.data@),
            m is Some <==> self.selection.mask is Some,
            state_ok(self.state()) && selection_sampleable(self.state()) ==> sampleable(m),
            forall|x: int, y: int| clamped_coverage(m, x, y) == clamped_coverage(self.selection.mask, x, y),
    {
        duplicate_mask(&self.selection.mask)
    }

    /// Replaces the pixels of layer `p` by `img`, keeping everything else.
    pub fn replace_raster(&mut self, p: usize, img: PixelBuffer)
        requires
            p < old(self).layers@.len(),
            old(self).wf(),
            img.wf(),
        ensures
            final(self).model() == (crate::document::HistoryView {
                state: with_raster(old(self).state(), p as int, triple(img)),
                ..old(self).model()
            }),
            final(self).wf(),
    {
        let mut layer = self.layers.remove(p);
        layer.kind = LayerKind::Raster(img);
        self.layers.insert(p, layer);
        proof {
            let s = old(self).state();
            assert(layers_view(self.layers@) =~= s.layers.update(
                p as int,
                LayerView { kind: KindView::Raster(img.width, img.height, img.data@), ..s.layers[p as int] },
            ));
            assert(layer_ok(s.layers[p as int]));
            assert(self.state() =~= with_raster(s, p as int, triple(img)));
        }
    }
}

} // verus!
