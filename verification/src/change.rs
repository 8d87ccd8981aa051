use vstd::prelude::*;

verus! {

/// One edit recorded in a buffer's history: `len_chars` characters,
/// `s`, inserted at or deleted from position `loc`.
pub struct Change {
    pub loc: usize,
    pub s: Vec<char>,
    pub len_chars: usize,
    pub is_insert: bool,
}

/// Where a cursor at `cursor` ends up once an edit is applied.
pub open spec fn spec_offset_redo(is_insert: bool, loc: int, len: int, cursor: int) -> int {
    if is_insert {
        if cursor >= loc { cursor + len } else { cursor }
    } else {
        if cursor > loc + len {
            cursor - len
        } else if cursor > loc {
            loc
        } else {
            cursor
        }
    }
}

/// Where a cursor at `cursor` ends up once an edit is reverted.
pub open spec fn spec_offset_undo(is_insert: bool, loc: int, len: int, cursor: int) -> int {
    spec_offset_redo(!is_insert, loc, len, cursor)
}

/// Undoing an insertion brings every cursor back to where it stood before
/// the insertion moved it.
pub proof fn law_undo_offset_reverts_insert(loc: int, len: int, cursor: int)
    requires
        len >= 0,
    ensures
        spec_offset_undo(true, loc, len, spec_offset_redo(true, loc, len, cursor)) == cursor,
{
}

/// The text `t` with the `len` characters at `loc` taken out.
pub open spec fn text_without(t: Seq<char>, loc: int, len: int) -> Seq<char> {
    t.subrange(0, loc) + t.subrange(loc + len, t.len() as int)
}

/// The text `t` with `s` put in at `loc`.
pub open spec fn text_with(t: Seq<char>, loc: int, s: Seq<char>) -> Seq<char> {
    t.subrange(0, loc) + s + t.subrange(loc, t.len() as int)
}

/// Deleting `len` characters at `loc` of the text `t`: a cursor before the
/// deleted text stays, a cursor inside it goes to where the deletion
/// happened, and a cursor after it keeps the text that followed it. The
/// cursor stays within the text left.
pub proof fn law_cursor_over_deletion(t: Seq<char>, loc: int, len: int, cursor: int)
    requires
        0 <= loc,
        0 <= len,
        loc + len <= t.len(),
        0 <= cursor <= t.len(),
    ensures
        ({
            let r = spec_offset_redo(false, loc, len, cursor);
            let n = text_without(t, loc, len);
            &&& 0 <= r <= n.len()
            &&& cursor <= loc ==> r == cursor
            &&& loc < cursor < loc + len ==> r == loc
            &&& cursor >= loc + len ==> n.subrange(r, n.len() as int) == t.subrange(cursor, t.len() as int)
                && n.subrange(0, r) == t.subrange(0, loc) + t.subrange(loc + len, cursor)
        }),
{
    let r = spec_offset_redo(false, loc, len, cursor);
    let n = text_without(t, loc, len);
    if cursor >= loc + len {
        assert(n.subrange(r, n.len() as int) =~= t.subrange(cursor, t.len() as int));
        assert(n.subrange(0, r) =~= t.subrange(0, loc) + t.subrange(loc + len, cursor));
    }
}

/// Inserting `s` at `loc` of the text `t`: a cursor before the insertion
/// stays, and a cursor at or after it keeps the text that followed it, so
/// it ends after the inserted text.
pub proof fn law_cursor_over_insertion(t: Seq<char>, loc: int, s: Seq<char>, cursor: int)
    requires
        0 <= loc <= t.len(),
        0 <= cursor <= t.len(),
    ensures
        ({
            let r = spec_offset_redo(true, loc, s.len() as int, cursor);
            let n = text_with(t, loc, s);
            &&& 0 <= r <= n.len()
            &&& cursor < loc ==> r == cursor
            &&& cursor >= loc ==> n.subrange(r, n.len() as int) == t.subrange(cursor, t.len() as int)
                && n.subrange(0, r) == t.subrange(0, loc) + s + t.subrange(loc, cursor)
        }),
{
    let r = spec_offset_redo(true, loc, s.len() as int, cursor);
    let n = text_with(t, loc, s);
    if cursor >= loc {
        assert(n.subrange(r, n.len() as int) =~= t.subrange(cursor, t.len() as int));
        assert(n.subrange(0, r) =~= t.subrange(0, loc) + s + t.subrange(loc, cursor));
    }
}

/// Undoing the insertion of `len` characters at `loc` (the text `t` holds
/// them) takes them out again: a cursor inside them goes to `loc`, and the
/// others keep their place in the text around them.
pub proof fn law_cursor_over_undone_insertion(t: Seq<char>, loc: int, len: int, cursor: int)
    requires
        0 <= loc,
        0 <= len,
        loc + len <= t.len(),
        0 <= cursor <= t.len(),
    ensures
        ({
            let r = spec_offset_undo(true, loc, len, cursor);
            let n = text_without(t, loc, len);
            &&& 0 <= r <= n.len()
            &&& cursor <= loc ==> r == cursor
            &&& loc < cursor < loc + len ==> r == loc
            &&& cursor >= loc + len ==> n.subrange(r, n.len() as int) == t.subrange(cursor, t.len() as int)
        }),
{
    law_cursor_over_deletion(t, loc, len, cursor);
}

/// Undoing the deletion of `s` at `loc` puts it back in: a cursor before it
/// stays, and a cursor at or after it keeps the text that followed it.
pub proof fn law_cursor_over_undone_deletion(t: Seq<char>, loc: int, s: Seq<char>, cursor: int)
    requires
        0 <= loc <= t.len(),
        0 <= cursor <= t.len(),
    ensures
        ({
            let r = spec_offset_undo(false, loc, s.len() as int, cursor);
            let n = text_with(t, loc, s);
            &&& 0 <= r <= n.len()
            &&& cursor < loc ==> r == cursor
            &&& cursor >= loc ==> n.subrange(r, n.len() as int) == t.subrange(cursor, t.len() as int)
        }),
{
    law_cursor_over_insertion(t, loc, s, cursor);
}

impl Change {
    /// The change recorded at the root of every history: it edits nothing.
    pub fn empty() -> (c: Change)
        ensures
            c.loc == 0,
            c.s@ == Seq::<char>::empty(),
            c.len_chars == 0,
            !c.is_insert,
    {
        Change { loc: 0, s: Vec::new(), len_chars: 0, is_insert: false }
    }

    /// A cursor's new position after this change has been applied.
    pub fn offset_cursor_redo(&self, cursor: usize) -> (r: usize)
        requires
            self.is_insert && cursor >= self.loc ==> cursor + self.len_chars <= usize::MAX,
            !self.is_insert ==> self.loc + self.len_chars <= usize::MAX,
        ensures
            r == spec_offset_redo(self.is_insert, self.loc as int, self.len_chars as int, cursor as int),
    {
        if self.is_insert {
            if cursor >= self.loc {
                cursor + self.len_chars
            } else {
                cursor
            }
        } else {
            if cursor > self.loc + self.len_chars {
                cursor - self.len_chars
            } else if cursor > self.loc {
                self.loc
            } else {
                cursor
            }
        }
    }

    /// A cursor's new position after this change has been reverted.
    pub fn offset_cursor_undo(&self, cursor: usize) -> (r: usize)
        requires
            !self.is_insert && cursor >= self.loc ==> cursor + self.len_chars <= usize::MAX,
            self.is_insert ==> self.loc + self.len_chars <= usize::MAX,
        ensures
            r == spec_offset_undo(self.is_insert, self.loc as int, self.len_chars as int, cursor as int),
    {
        if !self.is_insert {
            if cursor >= self.loc {
                cursor + self.len_chars
            } else {
                cursor
            }
        } else {
            if cursor > self.loc + self.len_chars {
                cursor - self.len_chars
            } else if cursor > self.loc {
                self.loc
            } else {
                cursor
            }
        }
    }
}

} // verus!
