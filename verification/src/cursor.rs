use vstd::prelude::*;
use crate::buffer::{Buffer, NodeRef, update_cursor, is_updated_cursor};

verus! {

/// `x` kept within `0..=hi`.
pub open spec fn clamp_to(x: int, hi: int) -> int {
    if x < 0 {
        0
    } else if x > hi {
        hi
    } else {
        x
    }
}

/// A position in a buffer together with the history node it refers to.
///
/// When the buffer is edited the cursor stays where it was until `update`
/// carries it over the edits made since.
#[derive(Clone, Copy, PartialEq, Eq, Structural, Debug)]
pub struct Cursor {
    location: usize,
    state: Option<NodeRef>,
}

/// `c` is `old` brought up to date with the edits made to `b`.
pub open spec fn follows(c: Cursor, old: Cursor, b: &Buffer) -> bool {
    &&& c.location() == b.updated_location(old.node(), old.location())
    &&& c.node() == b.updated_state(old.node())
}

impl Cursor {
    /// The position the cursor holds.
    pub closed spec fn location(&self) -> usize {
        self.location
    }

    /// The history node the position refers to; `None` for the first
    /// node of any history.
    pub closed spec fn node(&self) -> Option<NodeRef> {
        self.state
    }

    /// A cursor at position 0 of the first node of any history.
    pub fn new() -> (c: Self)
        ensures
            c.location() == 0,
            c.node() is None,
    {
        Cursor { location: 0, state: None }
    }

    /// The position the cursor holds.
    pub fn get(&self) -> (r: usize)
        ensures
            r == self.location(),
    {
        self.location
    }

    /// Carries the cursor over the edits made to `buffer` since it was last
    /// brought up to date.
    pub fn update(&mut self, buffer: &Buffer)
        requires
            buffer.wf(),
        ensures
            final(self).location() == buffer.updated_location(old(self).node(), old(self).location()),
            final(self).node() == buffer.updated_state(old(self).node()),
    {
        update_cursor(buffer, &mut self.state, &mut self.location);
    }

    /// The cursor carried over the edits made to `buffer`.
    pub fn updated(self, buffer: &Buffer) -> (c: Self)
        requires
            buffer.wf(),
        ensures
            c.location() == buffer.updated_location(self.node(), self.location()),
            c.node() == buffer.updated_state(self.node()),
    {
        let mut c = self;
        c.update(buffer);
        c
    }

    /// Brings the cursor up to date, then moves it by `offset`, staying
    /// within the text.
    pub fn increment(&mut self, buffer: &Buffer, offset: isize)
        requires
            buffer.wf(),
            offset > isize::MIN,
        ensures
            final(self).location() == clamp_to(
                buffer.updated_location(old(self).node(), old(self).location()) + offset,
                buffer@.len() as int,
            ),
            final(self).node() == buffer.updated_state(old(self).node()),
    {
        self.update(buffer);
        let len = buffer.len();
        if offset < 0 && self.location < (-offset) as usize {
            self.location = 0;
        } else {
            let new_location: i128 = self.location as i128 + offset as i128;
            if new_location > len as i128 {
                self.location = len;
            } else {
                self.location = new_location as usize;
            }
        }
    }

    /// Brings the cursor up to date, then puts it at `location`, or at the
    /// end of the text if that is past it.
    pub fn set(&mut self, buffer: &Buffer, location: usize)
        requires
            buffer.wf(),
        ensures
            final(self).location() == clamp_to(location as int, buffer@.len() as int),
            final(self).node() == buffer.updated_state(old(self).node()),
    {
        self.update(buffer);
        let len = buffer.len();
        if location > len {
            self.location = len;
        } else {
            self.location = location;
        }
    }

    /// Whether the cursor refers to `buffer`'s current node.
    pub fn is_updated(&self, buffer: &Buffer) -> (r: bool)
        requires
            buffer.wf(),
        ensures
            r == (buffer.current() == if buffer.cursor_alive(self.node()) {
                self.node()->0.node as nat
            } else {
                0
            }),
    {
        is_updated_cursor(buffer, &self.state)
    }
}

impl Default for Cursor {
    fn default() -> (c: Self)
        ensures
            c.location() == 0,
            c.node() is None,
    {
        Cursor::new()
    }
}

} // verus!
