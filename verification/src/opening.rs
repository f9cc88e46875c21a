use vstd::prelude::*;
use crate::document::{PhotoEngineDocument, StateView, canvas_ok, layers_view};
use crate::layer::{F32_ZERO, KindView, Layer, fresh_layer};
use crate::pixels::PixelBuffer;
use crate::stack::{id_candidate, id_taken, selected_position};

verus! {

/// The content of a document opened from an image: a canvas of the image's size (each
/// side at least 1) named `name`, holding the image as its one raster layer
/// "Background" with id `background_1`, which is selected.
pub open spec fn opened_state(img: PixelBuffer, name: Seq<char>) -> StateView {
    let id = id_candidate("background"@, 1);
    StateView {
        width: if img.width >= 1 { img.width } else { 1 },
        height: if img.height >= 1 { img.height } else { 1 },
        name,
        background: [0u8, 0u8, 0u8, 0u8],
        layers: seq![fresh_layer(id, "Background"@, KindView::Raster(img.width, img.height, img.data@), F32_ZERO, F32_ZERO)],
        selected_layer: Some(id),
        selection: None,
    }
}

/// The document for an image that was just read: see `opened_state`; its history is
/// empty.
pub fn document_from_image(img: PixelBuffer, name: String) -> (doc: PhotoEngineDocument)
    requires
        img.wf(),
        canvas_ok(if img.width >= 1 { img.width } else { 1 }, if img.height >= 1 { img.height } else { 1 }),
    ensures
        doc.wf(),
        doc.state() == opened_state(img, name@),
        doc.model().undo.len() == 0,
        doc.model().redo.len() == 0,
        doc.history_limit == 50,
{
    let ghost img_v = img;
    let ghost name_v = name@;
    let mut doc = PhotoEngineDocument::new(img.width, img.height, name);
    let id = doc.next_id("background");
    proof {
        let n = choose|n: nat|
            #![trigger id_candidate("background"@, n)]
            n >= 1 && id@ == id_candidate("background"@, n) && !id_taken(doc.state().layers, id@) && forall|m: nat|
                1 <= m < n ==> id_taken(doc.state().layers, #[trigger] id_candidate("background"@, m));
        if n > 1 {
            assert(id_taken(doc.state().layers, id_candidate("background"@, 1)));
        }
    }
    let layer = Layer::raster(id.clone(), String::from_str("Background"), img);
    doc.layers.push(layer);
    doc.selected_layer = Some(id);
    proof {
        reveal_strlit("Background");
        assert(layers_view(doc.layers@) =~= opened_state(img_v, name_v).layers);
        assert(doc.state() =~= opened_state(img_v, name_v));
    }
    doc
}

impl PhotoEngineDocument {
    /// Position of the selected layer, or why there is none: "no selected layer" when no id
    /// is selected, "selected layer not found" when no layer has the selected id.
    pub fn locate_selected_layer(&self) -> (r: Result<usize, String>)
        ensures
            match r {
                Ok(p) => selected_position(self.state()) == Some(p as int) && p < self.layers@.len(),
                Err(e) => selected_position(self.state()) is None && (if self.selected_layer is None {
                    e@ == "no selected layer"@
                } else {
                    e@ == "selected layer not found"@
                }),
            },
    {
        if self.selected_layer.is_none() {
            return Err(String::from_str("no selected layer"));
        }
        match self.selected_index() {
            Some(p) => Ok(p),
            None => Err(String::from_str("selected layer not found")),
        }
    }
}

} // verus!
