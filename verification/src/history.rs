use vstd::prelude::*;
use crate::document::{
    HistoryView, PhotoEngineDocument, StateView, push_model, redo_model, snapshots_view, undo_model,
};

verus! {

/// Steps back to the last recorded state; the current content goes to the redo list.
/// Returns whether there was anything to undo.
pub fn undo(doc: &mut PhotoEngineDocument) -> (r: bool)
    ensures
        r == (old(doc).model().undo.len() > 0),
        final(doc).model() == undo_model(old(doc).model()),
        old(doc).wf() ==> final(doc).wf(),
{
    let previous = match doc.undo_stack.pop() {
        Some(p) => p,
        None => {
            return false;
        },
    };
    let current = doc.snapshot();
    doc.redo_stack.push(current);
    doc.restore(previous);
    proof {
        assert(snapshots_view(doc.undo_stack@) =~= snapshots_view(old(doc).undo_stack@).drop_last());
        assert(snapshots_view(doc.redo_stack@) =~= snapshots_view(old(doc).redo_stack@).push(old(doc).state()));
        assert(doc.model() =~= undo_model(old(doc).model()));
        assert(old(doc).undo_stack@[old(doc).undo_stack@.len() - 1]@ == old(doc).model().undo.last());
    }
    true
}

/// Steps forward to the last undone state; the current content goes to the undo list.
/// Returns whether there was anything to redo.
pub fn redo(doc: &mut PhotoEngineDocument) -> (r: bool)
    ensures
        r == (old(doc).model().redo.len() > 0),
        final(doc).model() == redo_model(old(doc).model()),
        old(doc).wf() ==> final(doc).wf(),
{
    let next = match doc.redo_stack.pop() {
        Some(p) => p,
        None => {
            return false;
        },
    };
    let current = doc.snapshot();
    doc.undo_stack.push(current);
    doc.restore(next);
    proof {
        assert(snapshots_view(doc.redo_stack@) =~= snapshots_view(old(doc).redo_stack@).drop_last());
        assert(snapshots_view(doc.undo_stack@) =~= snapshots_view(old(doc).undo_stack@).push(old(doc).state()));
        assert(doc.model() =~= redo_model(old(doc).model()));
        assert(old(doc).redo_stack@[old(doc).redo_stack@.len() - 1]@ == old(doc).model().redo.last());
    }
    true
}

/// Forgets all undo and redo records; the content is kept.
pub fn clear_history(doc: &mut PhotoEngineDocument)
    ensures
        final(doc).state() == old(doc).state(),
        final(doc).model().undo.len() == 0,
        final(doc).model().redo.len() == 0,
        final(doc).history_limit == old(doc).history_limit,
        old(doc).wf() ==> final(doc).wf(),
{
    doc.undo_stack.clear();
    doc.redo_stack.clear();
}

/// The content after an edit: same history, new content.
pub open spec fn with_state(m: HistoryView, s: StateView) -> HistoryView {
    HistoryView { state: s, ..m }
}

/// Undo after recording the state and editing brings back the state from before the edit,
/// whatever the edit did, provided the history keeps at least one record; and redo then
/// brings back the edited state.
pub proof fn lemma_undo_reverts_edit(m: HistoryView, edited: StateView)
    requires
        m.limit >= 1,
    ensures
        undo_model(with_state(push_model(m), edited)).state == m.state,
        redo_model(undo_model(with_state(push_model(m), edited))).state == edited,
{
    let p = with_state(push_model(m), edited);
    assert(p.undo.len() >= 1);
    assert(p.undo.last() == m.state);
}

/// Redo undoes an undo: when there was something to undo, undo followed by redo gives
/// back the document and its history exactly.
pub proof fn lemma_redo_after_undo(m: HistoryView)
    requires
        m.undo.len() > 0,
    ensures
        redo_model(undo_model(m)) == m,
{
    let u = undo_model(m);
    assert(u.redo.last() == m.state);
    assert(u.redo.drop_last() =~= m.redo);
    assert(u.undo.push(u.state) =~= m.undo);
    assert(redo_model(u) =~= m);
}

/// Undo undoes a redo: when there was something to redo, redo followed by undo gives
/// back the document and its history exactly.
pub proof fn lemma_undo_after_redo(m: HistoryView)
    requires
        m.redo.len() > 0,
    ensures
        undo_model(redo_model(m)) == m,
{
    let r = redo_model(m);
    assert(r.undo.last() == m.state);
    assert(r.undo.drop_last() =~= m.undo);
    assert(r.redo.push(r.state) =~= m.redo);
    assert(undo_model(r) =~= m);
}

/// Recording a state never lets the undo list grow beyond the history limit, and always
/// leaves nothing to redo.
pub proof fn lemma_history_bounded(m: HistoryView)
    requires
        m.undo.len() <= m.limit,
    ensures
        push_model(m).undo.len() <= m.limit,
        push_model(m).redo.len() == 0,
        m.limit >= 1 ==> push_model(m).undo.last() == m.state,
{
}

/// With nothing recorded, undo and redo change nothing.
pub proof fn lemma_empty_history_is_inert(m: HistoryView)
    ensures
        m.undo.len() == 0 ==> undo_model(m) == m,
        m.redo.len() == 0 ==> redo_model(m) == m,
{
}

} // verus!
