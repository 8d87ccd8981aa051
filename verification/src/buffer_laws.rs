use vstd::prelude::*;
use crate::buffer::{Buffer, NodeRef, NodeView, recorded, undone, redone, transform, is_anc, parent, step_undo, lemma_anc_le};
use crate::change::{spec_offset_redo, spec_offset_undo};
use vstd::math::min;

verus! {

/// Undoing an edit gives back the text, and the place in the history, from
/// before the edit.
pub proof fn law_undo_reverts_edit(a: &Buffer, b: &Buffer, c: &Buffer, n: NodeView)
    requires
        a.wf(),
        b.wf(),
        c.wf(),
        recorded(a, b, n),
        undone(b, c),
    ensures
        c@ == a@,
        c.current() == a.current(),
        c.history_view() == a.history_view().push(n),
{
    a.lemma_wf_facts();
    b.lemma_wf_facts();
    c.lemma_wf_facts();
    let pb = b.current_path();
    let k = pb.len() - 2;
    assert(pb[k + 1] == b.current());
    assert(b.history_view()[pb[k + 1] as int].pred == Some(pb[k]));
    assert(pb[k] == a.current_path().last());
}

/// Redoing right after an undo gives back the text, and the place in the
/// history, from before the undo.
pub proof fn law_redo_reverts_undo(a: &Buffer, b: &Buffer, c: &Buffer)
    requires
        a.wf(),
        b.wf(),
        c.wf(),
        undone(a, b),
        redone(b, c),
    ensures
        c@ == a@,
        c.current() == a.current(),
        c.history_view() == a.history_view(),
{
    a.lemma_wf_facts();
    b.lemma_wf_facts();
    c.lemma_wf_facts();
    let pa = a.current_path();
    let k = pa.len() - 2;
    assert(pa[k + 1] == a.current());
    assert(a.last_child_of(pa[k] as int) == Some(pa[k + 1]));
    assert(pa[k] == b.current_path().last());
    assert(b.last_child_of(b.current() as int) == a.last_child_of(b.current() as int));
}

/// Undoing right after a redo gives back the text, and the place in the
/// history, from before the redo.
pub proof fn law_undo_reverts_redo(a: &Buffer, b: &Buffer, c: &Buffer)
    requires
        a.wf(),
        b.wf(),
        c.wf(),
        redone(a, b),
        undone(b, c),
    ensures
        c@ == a@,
        c.current() == a.current(),
        c.history_view() == a.history_view(),
{
    a.lemma_wf_facts();
    b.lemma_wf_facts();
    c.lemma_wf_facts();
}

/// After a new edit there is nothing to redo.
pub proof fn law_nothing_to_redo_after_edit(a: &Buffer, b: &Buffer, n: NodeView)
    requires
        a.wf(),
        b.wf(),
        recorded(a, b, n),
    ensures
        b.last_child_of(b.current() as int) is None,
{
    b.lemma_wf_facts();
    if b.last_child_of(b.current() as int) is Some {
        assert(b.current() < b.history_view().len());
    }
}

/// The node an edit records is a child of the node it was made at.
proof fn lemma_recorded_parent(a: &Buffer, b: &Buffer, n: NodeView)
    requires
        a.wf(),
        b.wf(),
        recorded(a, b, n),
    ensures
        n.pred == Some(a.current() as usize),
        b.history_view()[b.current() as int] == n,
        a.current() < b.current(),
{
    a.lemma_wf_facts();
    b.lemma_wf_facts();
    let pb = b.current_path();
    let k = pb.len() - 2;
    assert(pb[k + 1] == b.current());
    assert(b.history_view()[pb[k + 1] as int].pred == Some(pb[k]));
    assert(pb[k] == a.current_path().last());
}

/// Moving a cursor from a node to its child applies the child's edit.
proof fn lemma_transform_to_child(h: Seq<NodeView>, x: usize, y: int, loc: int)
    requires
        0 <= x < y < h.len(),
        h[y].pred == Some(x),
    ensures
        transform(h, x as int, y, loc) == crate::buffer::step_redo(h, y, loc),
{
    assert(parent(h, y) == x);
    assert(is_anc(h, x as int, x as int));
    assert(is_anc(h, x as int, y));
    assert(transform(h, x as int, x as int, loc) == loc);
}

/// A cursor that was up to date before an edit follows it: past inserted
/// text when it stood at or after the insertion point, back over deleted
/// text, and where it was when the edit is after it.
pub proof fn law_cursor_follows_edit(a: &Buffer, b: &Buffer, n: NodeView, loc: usize)
    requires
        a.wf(),
        b.wf(),
        recorded(a, b, n),
    ensures
        b.updated_location(a.state_of(), loc) == min(
            spec_offset_redo(n.is_insert, n.loc as int, n.len as int, loc as int),
            usize::MAX as int,
        ),
        b.updated_state(a.state_of()) == b.state_of(),
{
    a.lemma_history_len();
    lemma_recorded_parent(a, b, n);
    lemma_transform_to_child(b.history_view(), a.current() as usize, b.current() as int, loc as int);
}

/// Right after an edit there is nothing to redo; undoing it can then be
/// redone, which brings back the text and the place in the history after
/// the edit, and after that there is again nothing to redo (a change is
/// never applied twice).
pub proof fn law_edit_undo_redo(a: &Buffer, b: &Buffer, c: &Buffer, d: &Buffer, n: NodeView)
    requires
        a.wf(),
        b.wf(),
        c.wf(),
        d.wf(),
        recorded(a, b, n),
        undone(b, c),
        redone(c, d),
    ensures
        b.last_child_of(b.current() as int) is None,
        b.current() != 0,
        c.last_child_of(c.current() as int) == Some(b.current() as usize),
        d@ == b@,
        d.current() == b.current(),
        d.history_view() == b.history_view(),
        d.last_child_of(d.current() as int) is None,
{
    law_nothing_to_redo_after_edit(a, b, n);
    law_redo_reverts_undo(b, c, d);
    b.lemma_wf_facts();
    c.lemma_wf_facts();
    let pb = b.current_path();
    let k = pb.len() - 2;
    assert(pb[k + 1] == b.current());
    assert(b.last_child_of(pb[k] as int) == Some(pb[k + 1]));
    assert(pb[k] == c.current_path().last());
    assert(c.last_child_of(c.current() as int) == b.last_child_of(c.current() as int));
    assert(d.last_child_of(d.current() as int) == c.last_child_of(d.current() as int));
    assert(c.last_child_of(d.current() as int) == b.last_child_of(b.current() as int));
}

/// A cursor that was up to date before an undo follows it: the edit of the
/// node left is reverted on it (back before inserted text, past text that a
/// deletion put back).
pub proof fn law_cursor_follows_undo(b: &Buffer, c: &Buffer, loc: usize)
    requires
        b.wf(),
        c.wf(),
        undone(b, c),
    ensures
        b.current() != 0,
        c.updated_location(b.state_of(), loc) == min(
            spec_offset_undo(
                b.history_view()[b.current() as int].is_insert,
                b.history_view()[b.current() as int].loc as int,
                b.history_view()[b.current() as int].len as int,
                loc as int,
            ),
            usize::MAX as int,
        ),
        c.updated_state(b.state_of()) == c.state_of(),
{
    b.lemma_wf_facts();
    c.lemma_wf_facts();
    let h = b.history_view();
    let x = b.current() as int;
    let p = c.current() as int;
    assert(x != 0);
    assert(h[x].pred == Some(p as usize));
    assert(p < x);
    lemma_anc_le(h, x, p);
    assert(!is_anc(h, x, p));
    assert(parent(h, x) == p);
    assert(transform(h, p, p, step_undo(h, x, loc as int)) == step_undo(h, x, loc as int));
}

} // verus!
