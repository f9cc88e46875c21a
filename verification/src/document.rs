use vstd::prelude::*;
use crate::layer::{Layer, LayerKind, LayerView, KindView, MaskView, duplicate_mask, opt_mask_view};
use crate::masks::{Mask, Selection};

verus! {

/// The document as plain values, without its history.
pub struct StateView {
    pub width: u32,
    pub height: u32,
    pub name: Seq<char>,
    pub background: [u8; 4],
    pub layers: Seq<LayerView>,
    pub selected_layer: Option<Seq<char>>,
    pub selection: Option<MaskView>,
}

/// The document with its history, as plain values.
pub struct HistoryView {
    pub state: StateView,
    pub undo: Seq<StateView>,
    pub redo: Seq<StateView>,
    pub limit: nat,
}

pub open spec fn layers_view(layers: Seq<Layer>) -> Seq<LayerView> {
    layers.map_values(|l: Layer| l@)
}

pub open spec fn opt_string_view(s: Option<String>) -> Option<Seq<char>> {
    match s {
        Some(s) => Some(s@),
        None => None,
    }
}

/// Image bytes match the dimensions and all offsets fit in a `u32`.
pub open spec fn image_ok(w: u32, h: u32, data: Seq<u8>) -> bool {
    data.len() == 4 * (w * h) && 4 * (w * h) <= u32::MAX
}

/// Mask cells match the dimensions and all offsets fit in a `u32`.
pub open spec fn mask_ok(m: MaskView) -> bool {
    m.2.len() == m.0 * m.1 && m.0 * m.1 <= u32::MAX && m.0 <= i32::MAX && m.1 <= i32::MAX
}

pub open spec fn layer_ok(l: LayerView) -> bool {
    &&& (l.kind matches KindView::Raster(w, h, d) ==> image_ok(w, h, d))
    &&& (l.mask matches Some(m) ==> mask_ok(m))
}

/// Canvas dimensions the document supports: at least one pixel each way, and a full
/// RGBA canvas addressable with `u32` offsets.
pub open spec fn canvas_ok(w: u32, h: u32) -> bool {
    1 <= w && 1 <= h && 4 * (w * h) <= u32::MAX
}

pub open spec fn state_ok(s: StateView) -> bool {
    &&& canvas_ok(s.width, s.height)
    &&& forall|i: int| 0 <= i < s.layers.len() ==> layer_ok(#[trigger] s.layers[i])
    &&& (s.selection matches Some(m) ==> mask_ok(m))
}

/// `undo` after recording `s`, keeping at most `limit` entries (the oldest are dropped).
pub open spec fn bounded_push(undo: Seq<StateView>, s: StateView, limit: nat) -> Seq<StateView> {
    let p = undo.push(s);
    if p.len() > limit { p.subrange(1, p.len() as int) } else { p }
}

/// Recording the current state for undo: the undo list gains it (bounded by the limit)
/// and the redo list is cleared.
pub open spec fn push_model(m: HistoryView) -> HistoryView {
    HistoryView { state: m.state, undo: bounded_push(m.undo, m.state, m.limit), redo: Seq::empty(), limit: m.limit }
}

/// Undo: the last recorded state comes back and the current one moves to the redo list;
/// nothing happens when there is nothing to undo.
pub open spec fn undo_model(m: HistoryView) -> HistoryView {
    if m.undo.len() == 0 {
        m
    } else {
        HistoryView { state: m.undo.last(), undo: m.undo.drop_last(), redo: m.redo.push(m.state), limit: m.limit }
    }
}

/// Redo: the last undone state comes back and the current one moves to the undo list;
/// nothing happens when there is nothing to redo.
pub open spec fn redo_model(m: HistoryView) -> HistoryView {
    if m.redo.len() == 0 {
        m
    } else {
        HistoryView { state: m.redo.last(), undo: m.undo.push(m.state), redo: m.redo.drop_last(), limit: m.limit }
    }
}

/// A saved copy of a document's content.
#[derive(Clone, Debug)]
pub struct DocumentSnapshot {
    pub width: u32,
    pub height: u32,
    pub name: String,
    pub background: [u8; 4],
    pub layers: Vec<Layer>,
    pub selected_layer: Option<String>,
    pub selection: Selection,
}

impl View for DocumentSnapshot {
    type V = StateView;

    open spec fn view(&self) -> StateView {
        StateView {
            width: self.width,
            height: self.height,
            name: self.name@,
            background: self.background,
            layers: layers_view(self.layers@),
            selected_layer: opt_string_view(self.selected_layer),
            selection: opt_mask_view(self.selection.mask),
        }
    }
}

/// A layered raster document with undo and redo.
#[derive(Clone, Debug)]
pub struct PhotoEngineDocument {
    pub width: u32,
    pub height: u32,
    pub name: String,
    pub background: [u8; 4],
    pub layers: Vec<Layer>,
    pub selected_layer: Option<String>,
    pub selection: Selection,
    pub undo_stack: Vec<DocumentSnapshot>,
    pub redo_stack: Vec<DocumentSnapshot>,
    pub history_limit: usize,
}

pub open spec fn snapshots_view(s: Seq<DocumentSnapshot>) -> Seq<StateView> {
    s.map_values(|d: DocumentSnapshot| d@)
}

/// An exact copy of a layer list.
pub fn duplicate_layers(layers: &Vec<Layer>) -> (r: Vec<Layer>)
    ensures
        layers_view(r@) == layers_view(layers@),
{
    let mut r: Vec<Layer> = Vec::new();
    let mut i: usize = 0;
    while i < layers.len()
        invariant
            i <= layers.len(),
            r@.len() == i,
            forall|j: int| 0 <= j < i ==> #[trigger] r@[j]@ == layers@[j]@,
        decreases layers.len() - i,
    {
        r.push(layers[i].duplicate());
        i += 1;
    }
    assert(layers_view(r@) =~= layers_view(layers@));
    r
}

pub fn duplicate_opt_string(s: &Option<String>) -> (r: Option<String>)
    ensures
        opt_string_view(r) == opt_string_view(*s),
{
    match s {
        Some(s) => Some(s.clone()),
        None => None,
    }
}

proof fn lemma_u32_area(a: u32, b: u32)
    ensures
        0 <= a * b <= 0xffff_fffe_0000_0001,
{
    assert(0 <= a * b <= 0xffff_fffe_0000_0001) by (nonlinear_arith)
        requires
            a <= 0xffff_ffff,
            b <= 0xffff_ffff,
    ;
}

/// Whether an image of `w` by `h` pixels with `len` bytes is well formed (see `image_ok`).
fn image_fits(w: u32, h: u32, len: usize) -> (r: bool)
    ensures
        forall|d: Seq<u8>| d.len() == len ==> (r == image_ok(w, h, d)),
{
    proof {
        lemma_u32_area(w, h);
    }
    let area = w as u64 * h as u64;
    if area > 0x3fff_ffff {
        return false;
    }
    len as u64 == 4 * area
}

/// Whether an optional mask is well formed (see `mask_ok`).
fn opt_mask_fits(m: &Option<Mask>) -> (r: bool)
    ensures
        r == (opt_mask_view(*m) matches Some(v) ==> mask_ok(v)),
{
    match m {
        None => true,
        Some(m) => {
            proof {
                lemma_u32_area(m.width, m.height);
            }
            let area = m.width as u64 * m.height as u64;
            area <= 0xffff_ffff && m.data.len() as u64 == area && m.width <= 0x7fff_ffff && m.height <= 0x7fff_ffff
        },
    }
}

/// Whether a layer is well formed (see `layer_ok`).
pub fn layer_fits(l: &Layer) -> (r: bool)
    ensures
        r == layer_ok(l@),
{
    let kind_ok = match &l.kind {
        LayerKind::Raster(p) => image_fits(p.width, p.height, p.data.len()),
        _ => true,
    };
    kind_ok && opt_mask_fits(&l.mask)
}

/// Whether a document content with these parts is well formed (see `state_ok`).
fn parts_fit(width: u32, height: u32, layers: &Vec<Layer>, selection: &Option<Mask>) -> (r: bool)
    ensures
        r == (canvas_ok(width, height) && (forall|i: int|
            0 <= i < layers@.len() ==> layer_ok(#[trigger] layers_view(layers@)[i])) && (opt_mask_view(*selection) matches Some(
            m,
        ) ==> mask_ok(m))),
{
    proof {
        lemma_u32_area(width, height);
    }
    if width == 0 || height == 0 || width as u64 * height as u64 > 0x3fff_ffff {
        return false;
    }
    let mut i: usize = 0;
    while i < layers.len()
        invariant
            i <= layers.len(),
            canvas_ok(width, height),
            forall|j: int| 0 <= j < i ==> layer_ok(#[trigger] layers_view(layers@)[j]),
        decreases layers.len() - i,
    {
        if !layer_fits(&layers[i]) {
            assert(!layer_ok(layers_view(layers@)[i as int]));
            return false;
        }
        i += 1;
    }
    opt_mask_fits(selection)
}

impl DocumentSnapshot {
    /// Whether the saved content is well formed (see `state_ok`).
    pub fn fits(&self) -> (r: bool)
        ensures
            r == state_ok(self@),
    {
        let r = parts_fit(self.width, self.height, &self.layers, &self.selection.mask);
        proof {
            let s = self@;
            assert(s.layers == layers_view(self.layers@));
            assert(s.layers.len() == self.layers@.len());
            if r {
                assert(state_ok(s));
            } else {
                if canvas_ok(s.width, s.height) && (s.selection matches Some(m) ==> mask_ok(m)) {
                    let i = choose|i: int| 0 <= i < self.layers@.len() && !layer_ok(#[trigger] layers_view(self.layers@)[i]);
                    assert(!layer_ok(s.layers[i]));
                }
            }
        }
        r
    }
}

impl PhotoEngineDocument {
    /// The current content as plain values.
    pub open spec fn state(&self) -> StateView {
        StateView {
            width: self.width,
            height: self.height,
            name: self.name@,
            background: self.background,
            layers: layers_view(self.layers@),
            selected_layer: opt_string_view(self.selected_layer),
            selection: opt_mask_view(self.selection.mask),
        }
    }

    /// Content and history as plain values.
    pub open spec fn model(&self) -> HistoryView {
        HistoryView {
            state: self.state(),
            undo: snapshots_view(self.undo_stack@),
            redo: snapshots_view(self.redo_stack@),
            limit: self.history_limit as nat,
        }
    }

    /// The current content and every recorded state are well formed.
    pub open spec fn wf(&self) -> bool {
        &&& state_ok(self.state())
        &&& forall|i: int| 0 <= i < self.undo_stack@.len() ==> state_ok(#[trigger] self.undo_stack@[i]@)
        &&& forall|i: int| 0 <= i < self.redo_stack@.len() ==> state_ok(#[trigger] self.redo_stack@[i]@)
    }

    /// An empty document (each dimension at least 1) with a transparent background and a
    /// history limit of 50 states.
    pub fn new(width: u32, height: u32, name: String) -> (r: Self)
        ensures
            r.state() == (StateView {
                width: if width >= 1 { width } else { 1 },
                height: if height >= 1 { height } else { 1 },
                name: name@,
                background: [0u8, 0u8, 0u8, 0u8],
                layers: Seq::empty(),
                selected_layer: None,
                selection: None,
            }),
            r.model().undo.len() == 0,
            r.model().redo.len() == 0,
            r.history_limit == 50,
            r.wf() <==> canvas_ok(r.width, r.height),
    {
        let r = PhotoEngineDocument {
            width: if width >= 1 { width } else { 1 },
            height: if height >= 1 { height } else { 1 },
            name,
            background: [0, 0, 0, 0],
            layers: Vec::new(),
            selected_layer: None,
            selection: Selection::empty(),
            undo_stack: Vec::new(),
            redo_stack: Vec::new(),
            history_limit: 50,
        };
        assert(r.state().layers =~= Seq::<LayerView>::empty());
        r
    }

    /// A copy of the current content.
    pub fn snapshot(&self) -> (s: DocumentSnapshot)
        ensures
            s@ == self.state(),
    {
        DocumentSnapshot {
            width: self.width,
            height: self.height,
            name: self.name.clone(),
            background: self.background,
            layers: duplicate_layers(&self.layers),
            selected_layer: duplicate_opt_string(&self.selected_layer),
            selection: Selection { mask: duplicate_mask(&self.selection.mask) },
        }
    }

    /// Replaces the current content by `s`; the history is kept.
    pub fn restore(&mut self, s: DocumentSnapshot)
        ensures
            final(self).state() == s@,
            final(self).undo_stack@ == old(self).undo_stack@,
            final(self).redo_stack@ == old(self).redo_stack@,
            final(self).history_limit == old(self).history_limit,
    {
        self.width = s.width;
        self.height = s.height;
        self.name = s.name;
        self.background = s.background;
        self.layers = s.layers;
        self.selected_layer = s.selected_layer;
        self.selection = s.selection;
    }

    /// Records the current content for undo (dropping the oldest record beyond
    /// `history_limit`) and clears the redo list.
    pub fn push_history(&mut self)
        ensures
            final(self).model() == push_model(old(self).model()),
            old(self).wf() ==> final(self).wf(),
            final(self).layers@ == old(self).layers@,
            final(self).width == old(self).width,
            final(self).height == old(self).height,
            final(self).selected_layer == old(self).selected_layer,
            final(self).selection == old(self).selection,
            final(self).name == old(self).name,
            final(self).background == old(self).background,
    {
        let s = self.snapshot();
        self.undo_stack.push(s);
        let ghost pushed = self.undo_stack@;
        if self.undo_stack.len() > self.history_limit {
            self.undo_stack.remove(0);
            assert(snapshots_view(self.undo_stack@) =~= snapshots_view(pushed).subrange(1, pushed.len() as int));
        }
        self.redo_stack.clear();
        assert(snapshots_view(self.redo_stack@) =~= Seq::<StateView>::empty());
        assert(snapshots_view(pushed) =~= snapshots_view(old(self).undo_stack@).push(old(self).state()));
        assert(self.model() =~= push_model(old(self).model()));
    }
}

impl PhotoEngineDocument {
    /// Whether the document is well formed (see `wf`): a run-time check for callers that
    /// did not build the document through this library.
    pub fn is_wf(&self) -> (r: bool)
        ensures
            r == self.wf(),
    {
        let ok = parts_fit(self.width, self.height, &self.layers, &self.selection.mask);
        proof {
            let s = self.state();
            assert(s.layers.len() == self.layers@.len());
            if ok {
                assert(state_ok(s));
            } else {
                if canvas_ok(s.width, s.height) && (s.selection matches Some(m) ==> mask_ok(m)) {
                    let i = choose|i: int| 0 <= i < self.layers@.len() && !layer_ok(#[trigger] layers_view(self.layers@)[i]);
                    assert(!layer_ok(s.layers[i]));
                }
            }
        }
        if !ok {
            return false;
        }
        let mut i: usize = 0;
        while i < self.undo_stack.len()
            invariant
                i <= self.undo_stack.len(),
                state_ok(self.state()),
                forall|j: int| 0 <= j < i ==> state_ok(#[trigger] self.undo_stack@[j]@),
            decreases self.undo_stack.len() - i,
        {
            if !self.undo_stack[i].fits() {
                assert(!state_ok(self.undo_stack@[i as int]@));
                return false;
            }
            i += 1;
        }
        let mut k: usize = 0;
        while k < self.redo_stack.len()
            invariant
                k <= self.redo_stack.len(),
                state_ok(self.state()),
                forall|j: int| 0 <= j < self.undo_stack@.len() ==> state_ok(#[trigger] self.undo_stack@[j]@),
                forall|j: int| 0 <= j < k ==> state_ok(#[trigger] self.redo_stack@[j]@),
            decreases self.redo_stack.len() - k,
        {
            if !self.redo_stack[k].fits() {
                assert(!state_ok(self.redo_stack@[k as int]@));
                return false;
            }
            k += 1;
        }
        true
    }
}

} // verus!
