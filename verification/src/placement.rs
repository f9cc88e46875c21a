use vstd::prelude::*;
use crate::document::{HistoryView, PhotoEngineDocument, StateView, layer_ok, layers_view, push_model};
use crate::history::with_state;
use crate::layer::{F32_ONE, F32_ZERO, LayerView};
use crate::layer_masks::unlocked_target;

verus! {

/// The content with layer `p` placed at the origin, unscaled, unrotated and unskewed
/// (as single-precision bit patterns: 0.0 and 1.0).
pub open spec fn with_placement_reset(s: StateView, p: int) -> StateView {
    StateView {
        layers: s.layers.update(
            p,
            LayerView {
                x: F32_ZERO,
                y: F32_ZERO,
                scale_x: F32_ONE,
                scale_y: F32_ONE,
                rotation_degrees: F32_ZERO,
                skew_x: F32_ZERO,
                skew_y: F32_ZERO,
                ..s.layers[p]
            },
        ),
        ..s
    }
}

/// Puts the selected layer back at the origin, unscaled, unrotated and unskewed; the
/// previous content is recorded. Does nothing unless the selected layer is unlocked.
pub fn reset_selected_transform(doc: &mut PhotoEngineDocument)
    requires
        old(doc).wf(),
    ensures
        final(doc).wf(),
        unlocked_target(old(doc).state()) is None ==> final(doc).model() == old(doc).model(),
        unlocked_target(old(doc).state()) matches Some(p) ==> final(doc).model() == with_state(
            push_model(old(doc).model()),
            with_placement_reset(old(doc).state(), p),
        ),
{
    let p = match doc.unlocked_target_index() {
        Some(p) => p,
        None => {
            return;
        },
    };
    doc.push_history();
    let ghost s = doc.state();
    let mut layer = doc.layers.remove(p);
    layer.x = F32_ZERO;
    layer.y = F32_ZERO;
    layer.scale_x = F32_ONE;
    layer.scale_y = F32_ONE;
    layer.rotation_degrees = F32_ZERO;
    layer.skew_x = F32_ZERO;
    layer.skew_y = F32_ZERO;
    doc.layers.insert(p, layer);
    proof {
        assert(layers_view(doc.layers@) =~= with_placement_reset(s, p as int).layers);
        assert(layer_ok(s.layers[p as int]));
        assert(doc.state() =~= with_placement_reset(s, p as int));
        assert(doc.model() == (HistoryView { state: with_placement_reset(s, p as int), ..push_model(old(doc).model()) }));
    }
}

} // verus!
