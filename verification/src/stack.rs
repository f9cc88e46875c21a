use vstd::prelude::*;
use crate::document::{PhotoEngineDocument, StateView, layer_ok, layers_view, push_model, state_ok};
use crate::history::with_state;
use crate::layer::{F32_ONE, F32_ZERO, BlendMode, KindView, Layer, LayerKind, LayerView, fresh_layer};
use crate::pixels::PixelBuffer;
use crate::text::{decimal, lemma_decimal_injective, push_decimal};

verus! {

/// Position of the first layer with id `id` at or after `start`, or -1.
pub open spec fn find_first(layers: Seq<LayerView>, id: Seq<char>, start: int) -> int
    decreases layers.len() - start,
{
    if start < 0 || start >= layers.len() {
        -1
    } else if layers[start].id == id {
        start
    } else {
        find_first(layers, id, start + 1)
    }
}

/// Position of the selected layer: the first layer whose id is the selected id.
pub open spec fn selected_position(s: StateView) -> Option<int> {
    match s.selected_layer {
        Some(id) => if find_first(s.layers, id, 0) >= 0 { Some(find_first(s.layers, id, 0)) } else { None },
        None => None,
    }
}

/// Some layer has id `id`.
pub open spec fn id_taken(layers: Seq<LayerView>, id: Seq<char>) -> bool {
    exists|i: int| 0 <= i < layers.len() && #[trigger] layers[i].id == id
}

/// The id `<prefix>_<n>`.
pub open spec fn id_candidate(prefix: Seq<char>, n: nat) -> Seq<char> {
    prefix + seq!['_'] + decimal(n)
}

/// `id` is `<prefix>_<n>` for the least `n >= 1` that no layer uses.
pub open spec fn is_next_id(layers: Seq<LayerView>, prefix: Seq<char>, id: Seq<char>) -> bool {
    exists|n: nat|
        #![trigger id_candidate(prefix, n)]
        n >= 1 && id == id_candidate(prefix, n) && !id_taken(layers, id) && forall|m: nat|
            1 <= m < n ==> id_taken(layers, #[trigger] id_candidate(prefix, m))
}

/// The layers without those whose id is `id`, order kept.
pub open spec fn without_id(layers: Seq<LayerView>, id: Seq<char>) -> Seq<LayerView>
    decreases layers.len(),
{
    if layers.len() == 0 {
        layers
    } else {
        let rest = without_id(layers.drop_last(), id);
        if layers.last().id == id { rest } else { rest.push(layers.last()) }
    }
}

/// Where `move_selected_layer` puts the layer at `idx` for a move by `delta`, among `len` layers.
pub open spec fn moved_index(idx: int, delta: int, len: int) -> int {
    if delta > 0 {
        let t = idx + delta;
        let last = if len >= 1 { len - 1 } else { 0 };
        if t <= last { t } else { last }
    } else {
        if idx >= -delta { idx + delta } else { 0 }
    }
}

/// Moving a layer by `delta` places among `len` layers lands on a place of the stack, in
/// the direction of `delta`, at most `|delta|` places away, and exactly `delta` places away
/// when that place exists; a layer already at the end it is moved towards stays put.
pub proof fn lemma_moved_index(idx: int, delta: int, len: int)
    requires
        0 <= idx < len,
    ensures
        0 <= moved_index(idx, delta, len) < len,
        delta >= 0 ==> idx <= moved_index(idx, delta, len) <= idx + delta,
        delta <= 0 ==> idx + delta <= moved_index(idx, delta, len) <= idx,
        0 <= idx + delta < len ==> moved_index(idx, delta, len) == idx + delta,
        idx + delta < 0 ==> moved_index(idx, delta, len) == 0,
        idx + delta >= len ==> moved_index(idx, delta, len) == len - 1,
{
}

pub proof fn lemma_find_first_skip(layers: Seq<LayerView>, id: Seq<char>, i: int)
    requires
        0 <= i <= layers.len(),
        forall|j: int| 0 <= j < i ==> layers[j].id != id,
    ensures
        find_first(layers, id, 0) == find_first(layers, id, i),
    decreases i,
{
    if i > 0 {
        lemma_find_first_skip(layers, id, i - 1);
    }
}

pub proof fn lemma_find_first_range(layers: Seq<LayerView>, id: Seq<char>, i: int)
    ensures
        find_first(layers, id, i) == -1 || (i <= find_first(layers, id, i) < layers.len()
            && layers[find_first(layers, id, i)].id == id),
    decreases layers.len() - i,
{
    if 0 <= i < layers.len() && layers[i].id != id {
        lemma_find_first_range(layers, id, i + 1);
    }
}

/// Candidates for different numbers differ.
pub proof fn lemma_candidate_injective(prefix: Seq<char>, a: nat, b: nat)
    requires
        id_candidate(prefix, a) == id_candidate(prefix, b),
    ensures
        a == b,
{
    let k = prefix.len() as int + 1;
    assert(id_candidate(prefix, a).subrange(k, id_candidate(prefix, a).len() as int) =~= decimal(a));
    assert(id_candidate(prefix, b).subrange(k, id_candidate(prefix, b).len() as int) =~= decimal(b));
    lemma_decimal_injective(a, b);
}

/// Among `len + 1` candidates at least one is free when there are only `len` layers.
pub proof fn lemma_some_candidate_free(layers: Seq<LayerView>, prefix: Seq<char>)
    ensures
        exists|n: nat| 1 <= n <= layers.len() + 1 && !id_taken(layers, #[trigger] id_candidate(prefix, n)),
{
    if forall|n: nat| 1 <= n <= layers.len() + 1 ==> id_taken(layers, #[trigger] id_candidate(prefix, n)) {
        let ids = layers.map_values(|l: LayerView| l.id);
        let ns = vstd::set_lib::set_int_range(1, layers.len() as int + 2);
        let f = |i: int| id_candidate(prefix, i as nat);
        let cands = ns.map(f);
        vstd::set_lib::lemma_int_range(1, layers.len() as int + 2);
        assert forall|a: int, b: int| ns.contains(a) && ns.contains(b) && f(a) == f(b) implies a == b by {
            lemma_candidate_injective(prefix, a as nat, b as nat);
        }
        vstd::set_lib::lemma_map_size(ns, cands, f);
        assert forall|c: Seq<char>| cands.contains(c) implies ids.to_set().contains(c) by {
            let n = choose|n: int| ns.contains(n) && f(n) == c;
            assert(id_taken(layers, id_candidate(prefix, n as nat)));
            let i = choose|i: int| 0 <= i < layers.len() && #[trigger] layers[i].id == id_candidate(prefix, n as nat);
            assert(ids[i] == c);
        }
        ids.lemma_cardinality_of_set();
        vstd::set_lib::lemma_len_subset(cands, ids.to_set());
        assert(false);
    }
}

/// No two layers share an id.
pub open spec fn ids_distinct(layers: Seq<LayerView>) -> bool {
    forall|i: int, j: int| 0 <= i < j < layers.len() ==> layers[i].id != layers[j].id
}

/// Putting on top a layer whose id is the next free one keeps the ids pairwise distinct.
pub proof fn lemma_next_id_keeps_ids_distinct(layers: Seq<LayerView>, prefix: Seq<char>, l: LayerView)
    requires
        ids_distinct(layers),
        is_next_id(layers, prefix, l.id),
    ensures
        ids_distinct(layers.push(l)),
{
    let n = choose|n: nat|
        #![trigger id_candidate(prefix, n)]
        n >= 1 && l.id == id_candidate(prefix, n) && !id_taken(layers, l.id) && forall|m: nat|
            1 <= m < n ==> id_taken(layers, #[trigger] id_candidate(prefix, m));
    let ext = layers.push(l);
    assert forall|i: int, j: int| 0 <= i < j < ext.len() implies ext[i].id != ext[j].id by {
        if j == layers.len() {
            assert(ext[i] == layers[i]);
            if layers[i].id == l.id {
                assert(id_taken(layers, l.id));
            }
        } else {
            assert(ext[i] == layers[i] && ext[j] == layers[j]);
        }
    }
}

/// Every layer left by `without_id` is a layer of the input, and none has id `id`.
pub proof fn lemma_without_id_members(layers: Seq<LayerView>, id: Seq<char>)
    ensures
        without_id(layers, id).len() <= layers.len(),
        forall|k: int| 0 <= k < without_id(layers, id).len() ==> #[trigger] without_id(layers, id)[k].id != id,
        forall|k: int|
            0 <= k < without_id(layers, id).len() ==> exists|j: int|
                0 <= j < layers.len() && layers[j] == #[trigger] without_id(layers, id)[k],
    decreases layers.len(),
{
    if layers.len() > 0 {
        let front = layers.drop_last();
        lemma_without_id_members(front, id);
        let rest = without_id(front, id);
        assert forall|k: int| 0 <= k < rest.len() implies exists|j: int|
            0 <= j < layers.len() && layers[j] == #[trigger] rest[k] by {
            let j = choose|j: int| 0 <= j < front.len() && front[j] == rest[k];
            assert(layers[j] == front[j]);
        }
        if layers.last().id != id {
            let r = rest.push(layers.last());
            assert forall|k: int| 0 <= k < r.len() implies exists|j: int|
                0 <= j < layers.len() && layers[j] == #[trigger] r[k] by {
                if k == rest.len() {
                    assert(layers[layers.len() - 1] == r[k]);
                } else {
                    assert(r[k] == rest[k]);
                }
            }
        }
    }
}

/// Removing the layers with a given id keeps the ids of the others pairwise distinct.
pub proof fn lemma_without_id_keeps_ids_distinct(layers: Seq<LayerView>, id: Seq<char>)
    requires
        ids_distinct(layers),
    ensures
        ids_distinct(without_id(layers, id)),
    decreases layers.len(),
{
    if layers.len() > 0 {
        let front = layers.drop_last();
        assert(ids_distinct(front));
        lemma_without_id_keeps_ids_distinct(front, id);
        lemma_without_id_members(front, id);
        let rest = without_id(front, id);
        if layers.last().id != id {
            let r = rest.push(layers.last());
            assert forall|i: int, j: int| 0 <= i < j < r.len() implies r[i].id != r[j].id by {
                if j == rest.len() {
                    assert(r[i] == rest[i]);
                    let a = choose|a: int| 0 <= a < front.len() && front[a] == rest[i];
                    assert(layers[a] == front[a]);
                    assert(layers[layers.len() - 1] == r[j]);
                } else {
                    assert(r[i] == rest[i] && r[j] == rest[j]);
                }
            }
        }
    }
}

/// Swapping two layers keeps the ids pairwise distinct.
pub proof fn lemma_swap_keeps_ids_distinct(layers: Seq<LayerView>, p: int, q: int)
    requires
        ids_distinct(layers),
        0 <= p < layers.len(),
        0 <= q < layers.len(),
    ensures
        ids_distinct(layers.update(p, layers[q]).update(q, layers[p])),
{
    let s = layers.update(p, layers[q]).update(q, layers[p]);
    let f = |i: int| if i == q { p } else if i == p { q } else { i };
    assert forall|i: int| 0 <= i < s.len() implies #[trigger] s[i] == layers[f(i)] && 0 <= f(i) < layers.len() by {}
    assert forall|i: int, j: int| 0 <= i < j < s.len() implies s[i].id != s[j].id by {
        assert(s[i] == layers[f(i)]);
        assert(s[j] == layers[f(j)]);
        assert(f(i) != f(j));
        if f(i) < f(j) {
        } else {
        }
    }
}

impl PhotoEngineDocument {
    /// Position of the first layer whose id is `id`.
    pub fn position_of(&self, id: &String) -> (r: Option<usize>)
        ensures
            match r {
                Some(i) => i == find_first(self.state().layers, id@, 0),
                None => find_first(self.state().layers, id@, 0) < 0,
            },
    {
        let ghost ls = self.state().layers;
        let mut i: usize = 0;
        while i < self.layers.len()
            invariant
                ls == layers_view(self.layers@),
                i <= self.layers.len(),
                forall|j: int| 0 <= j < i ==> ls[j].id != id@,
            decreases self.layers.len() - i,
        {
            if self.layers[i].id == *id {
                proof {
                    lemma_find_first_skip(ls, id@, i as int);
                }
                return Some(i);
            }
            i += 1;
        }
        proof {
            lemma_find_first_skip(ls, id@, i as int);
        }
        None
    }

    /// Position of the selected layer.
    pub fn selected_index(&self) -> (r: Option<usize>)
        ensures
            match r {
                Some(i) => selected_position(self.state()) == Some(i as int) && i < self.layers@.len(),
                None => selected_position(self.state()) is None,
            },
    {
        match &self.selected_layer {
            Some(id) => {
                proof {
                    lemma_find_first_range(self.state().layers, id@, 0);
                }
                self.position_of(id)
            },
            None => None,
        }
    }

    /// The selected layer, if the selected id names one.
    pub fn selected_layer_ref(&self) -> (r: Option<&Layer>)
        ensures
            match r {
                Some(l) => selected_position(self.state()) matches Some(i) && l@ == self.state().layers[i],
                None => selected_position(self.state()) is None,
            },
    {
        match self.selected_index() {
            Some(i) => Some(&self.layers[i]),
            None => None,
        }
    }

    /// Some layer has id `id`.
    fn has_id(&self, id: &String) -> (r: bool)
        ensures
            r == id_taken(self.state().layers, id@),
    {
        let ghost ls = self.state().layers;
        let mut i: usize = 0;
        while i < self.layers.len()
            invariant
                ls == layers_view(self.layers@),
                i <= self.layers.len(),
                forall|j: int| 0 <= j < i ==> ls[j].id != id@,
            decreases self.layers.len() - i,
        {
            if self.layers[i].id == *id {
                assert(ls[i as int].id == id@);
                return true;
            }
            i += 1;
        }
        false
    }

    /// The id `<prefix>_<n>` for the least `n >= 1` that no layer uses.
    pub fn next_id(&self, prefix: &str) -> (r: String)
        requires
            self.layers@.len() < usize::MAX,
        ensures
            is_next_id(self.state().layers, prefix@, r@),
    {
        let ghost ls = self.state().layers;
        proof {
            lemma_some_candidate_free(ls, prefix@);
        }
        let mut n: usize = 1;
        loop
            invariant
                ls == self.state().layers,
                1 <= n <= ls.len() + 1,
                ls.len() == self.layers@.len(),
                self.layers@.len() < usize::MAX,
                forall|m: nat| 1 <= m < n ==> id_taken(ls, #[trigger] id_candidate(prefix@, m)),
                exists|k: nat| 1 <= k <= ls.len() + 1 && !id_taken(ls, #[trigger] id_candidate(prefix@, k)),
            decreases ls.len() + 1 - n,
        {
            let mut id = String::from_str(prefix);
            id.append("_");
            push_decimal(&mut id, n);
            proof {
                reveal_strlit("_");
                assert(id@ =~= id_candidate(prefix@, n as nat));
            }
            if !self.has_id(&id) {
                return id;
            }
            proof {
                if n == ls.len() + 1 {
                    let k = choose|k: nat| 1 <= k <= ls.len() + 1 && !id_taken(ls, #[trigger] id_candidate(prefix@, k));
                    assert(id_taken(ls, id_candidate(prefix@, k)));
                }
                assert(n <= ls.len());
            }
            n += 1;
        }
    }
}


/// The content with `l` added on top and selected.
pub open spec fn with_layer_added(s: StateView, l: LayerView) -> StateView {
    StateView { layers: s.layers.push(l), selected_layer: Some(l.id), ..s }
}

/// The content after deleting the layers whose id is `id`; the new top layer (if any)
/// becomes the selected one.
pub open spec fn with_layer_deleted(s: StateView, id: Seq<char>) -> StateView {
    let rest = without_id(s.layers, id);
    StateView {
        layers: rest,
        selected_layer: if rest.len() > 0 { Some(rest.last().id) } else { None },
        ..s
    }
}

/// Bit pattern of the single-precision number 64.0, the placeholder text size.
pub const TEXT_SIZE: u32 = 0x4280_0000;

impl PhotoEngineDocument {
    /// Records history, then puts `layer` on top and selects it.
    fn push_new_layer(&mut self, layer: Layer)
        ensures
            final(self).model() == with_state(old(self).model(), with_layer_added(old(self).state(), layer@)),
            old(self).wf() && layer_ok(layer@) ==> final(self).wf(),
    {
        let id = layer.id.clone();
        self.layers.push(layer);
        self.selected_layer = Some(id);
        proof {
            assert(layers_view(self.layers@) =~= layers_view(old(self).layers@).push(layer@));
            assert(self.model() =~= with_state(old(self).model(), with_layer_added(old(self).state(), layer@)));
        }
    }

    /// Adds a raster layer holding `pixels` on top, names it `name`, gives it the id
    /// `raster_<n>` and selects it; the previous content is recorded for undo.
    pub fn add_raster_layer(&mut self, name: String, pixels: PixelBuffer) -> (id: String)
        requires
            old(self).layers@.len() < usize::MAX,
        ensures
            is_next_id(old(self).state().layers, "raster"@, id@),
            final(self).model() == with_state(
                push_model(old(self).model()),
                with_layer_added(
                    old(self).state(),
                    fresh_layer(id@, name@, KindView::Raster(pixels.width, pixels.height, pixels.data@), F32_ZERO, F32_ZERO),
                ),
            ),
            ids_distinct(old(self).state().layers) ==> ids_distinct(final(self).state().layers),
            old(self).wf() && pixels.wf() ==> final(self).wf(),
    {
        self.push_history();
        let id = self.next_id("raster");
        let layer = Layer::raster(id.clone(), name, pixels);
        let ghost lv = layer@;
        self.push_new_layer(layer);
        proof {
            if ids_distinct(old(self).state().layers) {
                lemma_next_id_keeps_ids_distinct(old(self).state().layers, "raster"@, lv);
            }
        }
        id
    }

    /// Adds a transparent raster layer the size of the canvas (see `add_raster_layer`).
    pub fn add_empty_raster_layer(&mut self, name: String) -> (id: String)
        requires
            old(self).wf(),
            old(self).layers@.len() < usize::MAX,
        ensures
            is_next_id(old(self).state().layers, "raster"@, id@),
            final(self).model() == with_state(
                push_model(old(self).model()),
                with_layer_added(
                    old(self).state(),
                    fresh_layer(
                        id@,
                        name@,
                        KindView::Raster(
                            old(self).width,
                            old(self).height,
                            Seq::new((4 * (old(self).width * old(self).height)) as nat, |i: int| 0u8),
                        ),
                        F32_ZERO,
                        F32_ZERO,
                    ),
                ),
            ),
            ids_distinct(old(self).state().layers) ==> ids_distinct(final(self).state().layers),
            final(self).wf(),
    {
        let pixels = PixelBuffer::new(self.width, self.height);
        self.add_raster_layer(name, pixels)
    }

    /// Adds a white text placeholder of size 64 named "Text Layer" at `(x, y)` (single-precision
    /// bit patterns), with id `text_<n>`, and selects it; the previous content is recorded.
    pub fn add_text_layer(&mut self, text: String, x: u32, y: u32) -> (id: String)
        requires
            old(self).layers@.len() < usize::MAX,
        ensures
            is_next_id(old(self).state().layers, "text"@, id@),
            final(self).model() == with_state(
                push_model(old(self).model()),
                with_layer_added(
                    old(self).state(),
                    fresh_layer(id@, "Text Layer"@, KindView::TextPlaceholder(text@, TEXT_SIZE, [255u8, 255u8, 255u8, 255u8]), x, y),
                ),
            ),
            ids_distinct(old(self).state().layers) ==> ids_distinct(final(self).state().layers),
            old(self).wf() ==> final(self).wf(),
    {
        self.push_history();
        let id = self.next_id("text");
        let layer = new_layer(id.clone(), String::from_str("Text Layer"), LayerKind::TextPlaceholder {
            text,
            size: TEXT_SIZE,
            color: [255, 255, 255, 255],
        }, x, y);
        let ghost lv = layer@;
        self.push_new_layer(layer);
        proof {
            if ids_distinct(old(self).state().layers) {
                lemma_next_id_keeps_ids_distinct(old(self).state().layers, "text"@, lv);
            }
        }
        id
    }

    /// Adds a `width` by `height` rectangle filled with `fill`, without stroke, named
    /// "Rectangle", at `(x, y)`, with id `shape_<n>`, and selects it.
    pub fn add_shape_rect(&mut self, width: u32, height: u32, fill: [u8; 4], x: u32, y: u32) -> (id: String)
        requires
            old(self).layers@.len() < usize::MAX,
        ensures
            is_next_id(old(self).state().layers, "shape"@, id@),
            final(self).model() == with_state(
                push_model(old(self).model()),
                with_layer_added(
                    old(self).state(),
                    fresh_layer(id@, "Rectangle"@, KindView::ShapeRect(width, height, fill, [0u8, 0u8, 0u8, 0u8], 0), x, y),
                ),
            ),
            ids_distinct(old(self).state().layers) ==> ids_distinct(final(self).state().layers),
            old(self).wf() ==> final(self).wf(),
    {
        self.push_history();
        let id = self.next_id("shape");
        let layer = new_layer(id.clone(), String::from_str("Rectangle"), LayerKind::ShapeRect {
            width,
            height,
            fill,
            stroke: [0, 0, 0, 0],
            stroke_width: 0,
        }, x, y);
        let ghost lv = layer@;
        self.push_new_layer(layer);
        proof {
            if ids_distinct(old(self).state().layers) {
                lemma_next_id_keeps_ids_distinct(old(self).state().layers, "shape"@, lv);
            }
        }
        id
    }

    /// Adds a `width` by `height` ellipse filled with `fill`, without stroke, named
    /// "Ellipse", at `(x, y)`, with id `shape_<n>`, and selects it.
    pub fn add_shape_ellipse(&mut self, width: u32, height: u32, fill: [u8; 4], x: u32, y: u32) -> (id: String)
        requires
            old(self).layers@.len() < usize::MAX,
        ensures
            is_next_id(old(self).state().layers, "shape"@, id@),
            final(self).model() == with_state(
                push_model(old(self).model()),
                with_layer_added(
                    old(self).state(),
                    fresh_layer(id@, "Ellipse"@, KindView::ShapeEllipse(width, height, fill, [0u8, 0u8, 0u8, 0u8], 0), x, y),
                ),
            ),
            ids_distinct(old(self).state().layers) ==> ids_distinct(final(self).state().layers),
            old(self).wf() ==> final(self).wf(),
    {
        self.push_history();
        let id = self.next_id("shape");
        let layer = new_layer(id.clone(), String::from_str("Ellipse"), LayerKind::ShapeEllipse {
            width,
            height,
            fill,
            stroke: [0, 0, 0, 0],
            stroke_width: 0,
        }, x, y);
        let ghost lv = layer@;
        self.push_new_layer(layer);
        proof {
            if ids_distinct(old(self).state().layers) {
                lemma_next_id_keeps_ids_distinct(old(self).state().layers, "shape"@, lv);
            }
        }
        id
    }

    /// Deletes every layer with the selected id and selects the new top layer; the
    /// previous content is recorded. Does nothing when no layer id is selected.
    pub fn delete_selected_layer(&mut self)
        requires
        ensures
            old(self).selected_layer is None ==> final(self).model() == old(self).model(),
            old(self).state().selected_layer matches Some(id) ==> final(self).model() == with_state(
                push_model(old(self).model()),
                with_layer_deleted(old(self).state(), id),
            ),
            ids_distinct(old(self).state().layers) ==> ids_distinct(final(self).state().layers),
            old(self).wf() ==> final(self).wf(),
    {
        let id = match &self.selected_layer {
            Some(id) => id.clone(),
            None => {
                return;
            },
        };
        self.push_history();
        let ghost before = self.model();
        let ghost ls = layers_view(self.layers@);
        let mut kept: Vec<Layer> = Vec::new();
        let mut i: usize = 0;
        while i < self.layers.len()
            invariant
                ls == layers_view(self.layers@),
                before == self.model(),
                old(self).wf() ==> state_ok(before.state),
                i <= self.layers.len(),
                layers_view(kept@) == without_id(ls.take(i as int), id@),
                old(self).wf() ==> forall|j: int| 0 <= j < kept@.len() ==> layer_ok(#[trigger] kept@[j]@),
            decreases self.layers.len() - i,
        {
            proof {
                assert(ls.take(i + 1).drop_last() =~= ls.take(i as int));
            }
            if self.layers[i].id != id {
                let l = self.layers[i].duplicate();
                kept.push(l);
                proof {
                    assert(layers_view(kept@) =~= without_id(ls.take(i as int), id@).push(ls[i as int]));
                    assert(before.state.layers == ls);
                    if old(self).wf() {
                        assert(layer_ok(before.state.layers[i as int]));
                    }
                }
            }
            i += 1;
        }
        proof {
            assert(ls.take(ls.len() as int) =~= ls);
        }
        self.layers = kept;
        self.selected_layer = if self.layers.len() > 0 {
            Some(self.layers[self.layers.len() - 1].id.clone())
        } else {
            None
        };
        proof {
            assert(self.model() =~= with_state(before, with_layer_deleted(before.state, id@)));
            if ids_distinct(before.state.layers) {
                lemma_without_id_keeps_ids_distinct(before.state.layers, id@);
            }
        }
    }

    /// Puts a copy of the selected layer on top at `(x, y)` (single-precision bit patterns),
    /// named "<name> Copy", with id `copy_<n>`, selects it and returns its id; the previous
    /// content is recorded. Does nothing and returns `None` when no layer is selected.
    pub fn duplicate_selected_layer(&mut self, x: u32, y: u32) -> (r: Option<String>)
        requires
            old(self).layers@.len() < usize::MAX,
        ensures
            selected_position(old(self).state()) is None ==> r is None && final(self).model() == old(self).model(),
            selected_position(old(self).state()) matches Some(p) ==> r matches Some(id) && is_next_id(
                old(self).state().layers,
                "copy"@,
                id@,
            ) && final(self).model() == with_state(
                push_model(old(self).model()),
                with_layer_added(
                    old(self).state(),
                    LayerView {
                        id: id@,
                        name: old(self).state().layers[p].name + " Copy"@,
                        x,
                        y,
                        ..old(self).state().layers[p]
                    },
                ),
            ),
            ids_distinct(old(self).state().layers) ==> ids_distinct(final(self).state().layers),
            old(self).wf() ==> final(self).wf(),
    {
        let p = match self.selected_index() {
            Some(p) => p,
            None => {
                return None;
            },
        };
        let mut copy = self.layers[p].duplicate();
        self.push_history();
        copy.id = self.next_id("copy");
        copy.name.append(" Copy");
        copy.x = x;
        copy.y = y;
        let new_id = copy.id.clone();
        proof {
            if old(self).wf() {
                assert(layer_ok(old(self).state().layers[p as int]));
            }
        }
        let ghost lv = copy@;
        self.push_new_layer(copy);
        proof {
            if ids_distinct(old(self).state().layers) {
                lemma_next_id_keeps_ids_distinct(old(self).state().layers, "copy"@, lv);
            }
        }
        Some(new_id)
    }

    /// Moves the selected layer `delta` places up (towards the top) or down, stopping at
    /// the ends, by swapping it with the layer at the target place; the previous content
    /// is recorded when the layer moves. Does nothing when no layer is selected.
    pub fn move_selected_layer(&mut self, delta: i32)
        requires
            delta > i32::MIN,
            old(self).layers@.len() + i32::MAX <= usize::MAX,
        ensures
            selected_position(old(self).state()) is None ==> final(self).model() == old(self).model(),
            selected_position(old(self).state()) matches Some(p) ==> {
                let q = moved_index(p, delta as int, old(self).layers@.len() as int);
                let ls = old(self).state().layers;
                if q == p {
                    final(self).model() == old(self).model()
                } else {
                    final(self).model() == with_state(
                        push_model(old(self).model()),
                        StateView { layers: ls.update(p, ls[q]).update(q, ls[p]), ..old(self).state() },
                    )
                }
            },
            ids_distinct(old(self).state().layers) ==> ids_distinct(final(self).state().layers),
            old(self).wf() ==> final(self).wf(),
    {
        let idx = match self.selected_index() {
            Some(p) => p,
            None => {
                return;
            },
        };
        let len = self.layers.len();
        let new_idx = if delta > 0 {
            let t = idx + delta as usize;
            let last = if len >= 1 { len - 1 } else { 0 };
            if t <= last { t } else { last }
        } else {
            let back = (-delta) as usize;
            if idx >= back { idx - back } else { 0 }
        };
        if idx != new_idx {
            self.push_history();
            let ghost before = self.model();
            let a = self.layers[idx].duplicate();
            let b = self.layers[new_idx].duplicate();
            self.layers.set(idx, b);
            self.layers.set(new_idx, a);
            proof {
                let ls = before.state.layers;
                assert(layers_view(self.layers@) =~= ls.update(idx as int, ls[new_idx as int]).update(new_idx as int, ls[idx as int]));
                assert(self.model() =~= with_state(before, StateView { layers: ls.update(idx as int, ls[new_idx as int]).update(new_idx as int, ls[idx as int]), ..before.state }));
                if ids_distinct(ls) {
                    lemma_swap_keeps_ids_distinct(ls, idx as int, new_idx as int);
                }
            }
        }
    }
}

/// A fresh layer (see `fresh_layer`) with the given id, name, content and position.
fn new_layer(id: String, name: String, kind: LayerKind, x: u32, y: u32) -> (r: Layer)
    ensures
        r@ == fresh_layer(id@, name@, kind.view(), x, y),
        r.wf() == kind.wf(),
{
    let r = Layer {
        id,
        name,
        visible: true,
        locked: false,
        opacity: F32_ONE,
        blend_mode: BlendMode::Normal,
        x,
        y,
        scale_x: F32_ONE,
        scale_y: F32_ONE,
        rotation_degrees: F32_ZERO,
        skew_x: F32_ZERO,
        skew_y: F32_ZERO,
        mask: None,
        clip_to_below: false,
        effects: Vec::new(),
        kind,
    };
    assert(r@.effects =~= Seq::<crate::layer::LayerEffect>::empty());
    r
}

} // verus!

verus! {

impl PhotoEngineDocument {
    /// The selected layer, for editing in place.
    pub fn selected_layer_mut(&mut self) -> (r: Option<&mut Layer>)
        ensures
            match selected_position(old(self).state()) {
                None => r is None && *final(self) == *old(self),
                Some(p) => r matches Some(l) && *l == old(self).layers@[p] && final(self).layers@ == old(
                    self,
                ).layers@.update(p, *final(l)),
            },
            final(self).width == old(self).width,
            final(self).height == old(self).height,
            final(self).name == old(self).name,
            final(self).background == old(self).background,
            final(self).selected_layer == old(self).selected_layer,
            final(self).selection == old(self).selection,
            final(self).undo_stack == old(self).undo_stack,
            final(self).redo_stack == old(self).redo_stack,
            final(self).history_limit == old(self).history_limit,
    {
        match self.selected_index() {
            Some(i) => Some(&mut self.layers[i]),
            None => None,
        }
    }
}

} // verus!
