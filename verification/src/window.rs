use vstd::prelude::*;
use crate::buffer::{
    Buffer, NodeView, recorded, error_is, clamp, ERROR_READ_ONLY, ERROR_INSERT_OUT_OF_BOUNDS,
    ERROR_INSERT_STR_OUT_OF_BOUNDS, ERROR_DELETE_OUT_OF_BOUNDS, ERROR_DELETE_REGION_OUT_OF_BOUNDS,
};
use crate::cursor::{Cursor, clamp_to};

verus! {

/// What inserting `s` at `loc` does to a buffer `a`, giving `b` and `r`:
/// a read-only buffer, or a place past the end, refuses it with the error
/// `msg` and is left as it was; otherwise the edit is made and recorded.
pub open spec fn insert_outcome(a: &Buffer, b: &Buffer, loc: usize, s: Seq<char>, msg: &str, r: Result<(), String>) -> bool {
    &&& b.wf()
    &&& a.spec_read_only() ==> error_is(r, ERROR_READ_ONLY) && *b == *a
    &&& !a.spec_read_only() && loc > a@.len() ==> error_is(r, msg) && *b == *a
    &&& !a.spec_read_only() && loc <= a@.len() ==> r is Ok && recorded(
        a,
        b,
        NodeView {
            pred: Some(a.current() as usize),
            is_insert: true,
            loc: loc as nat,
            s,
            len: s.len(),
            text: a@.take(loc as int) + s + a@.skip(loc as int),
        },
    )
}

/// What deleting the region from `begin` up to `end` does to a buffer `a`,
/// giving `b` and `r`: the region is cut to the text; a read-only buffer,
/// or a non-empty region that starts past the end, refuses it.
pub open spec fn delete_region_outcome(a: &Buffer, b: &Buffer, begin: usize, end: usize, r: Result<(), String>) -> bool {
    &&& b.wf()
    &&& a.spec_read_only() ==> error_is(r, ERROR_READ_ONLY) && *b == *a
    &&& !a.spec_read_only() && begin < end && begin > a@.len() ==> error_is(r, ERROR_DELETE_REGION_OUT_OF_BOUNDS)
        && *b == *a
    &&& !a.spec_read_only() && (begin == end || begin <= a@.len()) ==> r is Ok && recorded(
        a,
        b,
        NodeView {
            pred: Some(a.current() as usize),
            is_insert: false,
            loc: begin as nat,
            s: a@.subrange(clamp(begin as int, a@.len()), clamp(end as int, a@.len())),
            len: (clamp(end as int, a@.len()) - clamp(begin as int, a@.len())) as nat,
            text: if begin <= a@.len() {
                a@.take(begin as int) + a@.skip(clamp(end as int, a@.len()))
            } else {
                a@
            },
        },
    )
}

/// What deleting the character at `loc` does to a buffer `a`, giving `b`
/// and `r`: a read-only buffer, or a place at or past the end, refuses it;
/// otherwise the edit is made and recorded.
pub open spec fn delete_outcome(a: &Buffer, b: &Buffer, loc: usize, r: Result<(), String>) -> bool {
    &&& b.wf()
    &&& a.spec_read_only() ==> error_is(r, ERROR_READ_ONLY) && *b == *a
    &&& !a.spec_read_only() && loc >= a@.len() ==> error_is(r, ERROR_DELETE_OUT_OF_BOUNDS) && *b == *a
    &&& !a.spec_read_only() && loc < a@.len() ==> r is Ok && recorded(
        a,
        b,
        NodeView {
            pred: Some(a.current() as usize),
            is_insert: false,
            loc: loc as nat,
            s: seq![a@[loc as int]],
            len: 1,
            text: a@.remove(loc as int),
        },
    )
}

/// The texts that were killed from a window, and the one that `paste`
/// inserts.
pub struct KillRing {
    ring: Vec<String>,
    pos: usize,
}

impl KillRing {
    /// The killed texts, oldest first.
    pub closed spec fn texts(&self) -> Seq<Seq<char>> {
        self.ring@.map_values(|s: String| s@)
    }

    /// The place of the text that `paste` inserts.
    pub closed spec fn position(&self) -> nat {
        self.pos as nat
    }

    pub open spec fn wf(&self) -> bool {
        &&& self.texts().len() == 0 || self.position() < self.texts().len()
        &&& self.texts().len() <= usize::MAX
    }

    /// An empty ring.
    pub fn new() -> (k: Self)
        ensures
            k.wf(),
            k.texts().len() == 0,
            k.position() == 0,
    {
        let k = KillRing { ring: Vec::new(), pos: 0 };
        assert(k.texts() =~= Seq::<Seq<char>>::empty());
        k
    }

    /// The number of killed texts.
    pub fn len(&self) -> (n: usize)
        ensures
            n == self.texts().len(),
    {
        self.ring.len()
    }

    /// The text that `paste` inserts.
    pub fn current(&self) -> (s: &String)
        requires
            self.wf(),
            self.texts().len() > 0,
        ensures
            s@ == self.texts()[self.position() as int],
    {
        &self.ring[self.pos]
    }

    /// Adds `s` as the newest text and makes it the one `paste` inserts.
    pub fn push(&mut self, s: String)
        requires
            old(self).texts().len() < usize::MAX,
        ensures
            final(self).wf(),
            final(self).texts() == old(self).texts().push(s@),
            final(self).position() == old(self).texts().len(),
    {
        self.ring.push(s);
        self.pos = self.ring.len() - 1;
        assert(self.texts() =~= old(self).texts().push(s@));
    }

    /// Moves the text that `paste` inserts `times` places back, round the
    /// ring.
    pub fn rotate(&mut self, times: isize)
        requires
            old(self).wf(),
        ensures
            final(self).wf(),
            final(self).texts() == old(self).texts(),
            old(self).texts().len() == 0 ==> final(self).position() == old(self).position(),
            old(self).texts().len() > 0 ==> final(self).position() == (old(self).position() - times) % (
            old(self).texts().len() as int),
    {
        let len = self.ring.len();
        if len == 0 {
            return ;
        }
        let m: u128 = len as u128;
        let p: u128 = self.pos as u128;
        let q: u128 = if times >= 0 {
            let r: u128 = (times as u128) % m;
            proof {
                vstd::arithmetic::div_mod::lemma_sub_mod_noop_right(p as int, times as int, m as int);
                vstd::arithmetic::div_mod::lemma_mod_add_multiples_vanish(p - r, m as int);
            }
            (p + m - r) % m
        } else {
            let back: u128 = (-(times as i128)) as u128;
            proof {
                vstd::arithmetic::div_mod::lemma_add_mod_noop_right(p as int, back as int, m as int);
            }
            (p + back % m) % m
        };
        self.pos = q as usize;
    }
}

/// A view into a buffer: its cursor, its mark, and what was killed in it.
pub struct Window {
    /// The index of the buffer among the state's buffers.
    pub buffer: usize,
    pub cursor: Cursor,
    /// The modes turned on in this window.
    pub window_modes: Vec<usize>,
    /// The other end of the region, when one is marked.
    pub mark: Option<Cursor>,
    pub kill_ring: KillRing,
}

impl Window {
    pub open spec fn wf(&self) -> bool {
        self.kill_ring.wf()
    }

    /// `self` with its cursor brought up to date with `b` from `old`'s.
    pub open spec fn cursor_follows(&self, old: &Window, b: &Buffer) -> bool {
        &&& self.cursor.location() == b.updated_location(old.cursor.node(), old.cursor.location())
        &&& self.cursor.node() == b.updated_state(old.cursor.node())
        &&& self.same_but_cursor(old)
    }

    /// Everything of the window but its cursor is as in `old`.
    pub open spec fn same_but_cursor(&self, old: &Window) -> bool {
        &&& self.buffer == old.buffer
        &&& self.window_modes@ == old.window_modes@
        &&& self.mark == old.mark
        &&& self.kill_ring == old.kill_ring
    }

    /// A window onto buffer `buffer` with its cursor at the start.
    pub fn new(buffer: usize) -> (w: Self)
        ensures
            w.wf(),
            w.buffer == buffer,
            w.cursor.location() == 0,
            w.cursor.node() is None,
            w.window_modes@.len() == 0,
            w.mark is None,
            w.kill_ring.texts().len() == 0,
    {
        Window {
            buffer,
            cursor: Cursor::new(),
            window_modes: Vec::new(),
            mark: None,
            kill_ring: KillRing::new(),
        }
    }

    /// Moves the cursor by `offset`, staying within the text.
    pub fn increment_cursor(&mut self, buffer: &Buffer, offset: isize)
        requires
            buffer.wf(),
            offset > isize::MIN,
        ensures
            final(self).cursor.location() == clamp_to(
                buffer.updated_location(old(self).cursor.node(), old(self).cursor.location()) + offset,
                buffer@.len() as int,
            ),
            final(self).cursor.node() == buffer.updated_state(old(self).cursor.node()),
            final(self).same_but_cursor(old(self)),
    {
        self.cursor.increment(buffer, offset)
    }

    /// Puts the cursor at `location`, or at the end of the text if that is
    /// past it.
    pub fn set_cursor(&mut self, buffer: &Buffer, location: usize)
        requires
            buffer.wf(),
        ensures
            final(self).cursor.location() == clamp_to(location as int, buffer@.len() as int),
            final(self).cursor.node() == buffer.updated_state(old(self).cursor.node()),
            final(self).same_but_cursor(old(self)),
    {
        self.cursor.set(buffer, location)
    }

    /// Brings the cursor up to date with the edits made to `buffer`.
    pub fn update_cursor(&mut self, buffer: &Buffer)
        requires
            buffer.wf(),
        ensures
            final(self).cursor_follows(old(self), buffer),
    {
        self.cursor.update(buffer)
    }

    /// Inserts `c` at the cursor, then brings the cursor up to date.
    pub fn insert(&mut self, buffer: &mut Buffer, c: char) -> (r: Result<(), String>)
        requires
            old(buffer).wf(),
            old(buffer)@.len() + 1 <= usize::MAX,
        ensures
            insert_outcome(old(buffer), final(buffer), old(self).cursor.location(), seq![c], ERROR_INSERT_OUT_OF_BOUNDS, r),
            r is Ok ==> final(self).cursor_follows(old(self), final(buffer)),
            r is Err ==> *final(self) == *old(self),
    {
        let ghost b0 = *buffer;
        let r = buffer.insert(self.cursor.get(), c);
        assert(b0@.insert(self.cursor.location() as int, c) =~= b0@.take(self.cursor.location() as int) + seq![c]
            + b0@.skip(self.cursor.location() as int));
        match r {
            Ok(()) => {
                self.cursor.update(buffer);
                Ok(())
            },
            Err(e) => Err(e),
        }
    }

    /// Inserts `s` at the cursor, then brings the cursor up to date.
    pub fn insert_str(&mut self, buffer: &mut Buffer, s: &str) -> (r: Result<(), String>)
        requires
            old(buffer).wf(),
            old(buffer)@.len() + s@.len() <= usize::MAX,
        ensures
            insert_outcome(old(buffer), final(buffer), old(self).cursor.location(), s@, ERROR_INSERT_STR_OUT_OF_BOUNDS, r),
            r is Ok ==> final(self).cursor_follows(old(self), final(buffer)),
            r is Err ==> *final(self) == *old(self),
    {
        let r = buffer.insert_str(self.cursor.get(), s);
        match r {
            Ok(()) => {
                self.cursor.update(buffer);
                Ok(())
            },
            Err(e) => Err(e),
        }
    }

    /// Deletes the character at the cursor, then brings the cursor up to
    /// date.
    pub fn delete_1(&mut self, buffer: &mut Buffer) -> (r: Result<(), String>)
        requires
            old(buffer).wf(),
        ensures
            delete_outcome(old(buffer), final(buffer), old(self).cursor.location(), r),
            r is Ok ==> final(self).cursor_follows(old(self), final(buffer)),
            r is Err ==> *final(self) == *old(self),
    {
        let r = buffer.delete(self.cursor.get());
        match r {
            Ok(()) => {
                self.cursor.update(buffer);
                Ok(())
            },
            Err(e) => Err(e),
        }
    }

    /// Deletes `n` characters at the cursor, then brings the cursor up to
    /// date.
    pub fn delete_n(&mut self, buffer: &mut Buffer, n: usize) -> (r: Result<(), String>)
        requires
            old(buffer).wf(),
            old(self).cursor.location() + n <= usize::MAX,
        ensures
            delete_region_outcome(
                old(buffer),
                final(buffer),
                old(self).cursor.location(),
                (old(self).cursor.location() + n) as usize,
                r,
            ),
            r is Ok ==> final(self).cursor_follows(old(self), final(buffer)),
            r is Err ==> *final(self) == *old(self),
    {
        let end = self.cursor.get() + n;
        self.delete_until(buffer, end)
    }

    /// Deletes the text from the cursor up to `end`, then brings the cursor
    /// up to date.
    pub fn delete_until(&mut self, buffer: &mut Buffer, end: usize) -> (r: Result<(), String>)
        requires
            old(buffer).wf(),
            old(self).cursor.location() <= end,
        ensures
            delete_region_outcome(old(buffer), final(buffer), old(self).cursor.location(), end, r),
            r is Ok ==> final(self).cursor_follows(old(self), final(buffer)),
            r is Err ==> *final(self) == *old(self),
    {
        let r = buffer.delete_region(self.cursor.get(), end);
        match r {
            Ok(()) => {
                self.cursor.update(buffer);
                Ok(())
            },
            Err(e) => Err(e),
        }
    }
}

/// Another window onto the same buffer, with its cursor where this one's
/// is; it has no mark, no modes and nothing killed yet.
pub fn clone_window(window: &Window) -> (w: Window)
    ensures
        w.wf(),
        w.buffer == window.buffer,
        w.cursor == window.cursor,
        w.window_modes@.len() == 0,
        w.mark is None,
        w.kill_ring.texts().len() == 0,
{
    Window {
        buffer: window.buffer,
        cursor: window.cursor,
        window_modes: Vec::new(),
        mark: None,
        kill_ring: KillRing::new(),
    }
}

} // verus!
