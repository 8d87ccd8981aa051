use vstd::prelude::*;
use crate::buffer::{Buffer, clamp, ERROR_INSERT_STR_OUT_OF_BOUNDS};
use crate::cursor::{Cursor, follows};
use crate::window::{Window, KillRing, insert_outcome, delete_region_outcome};

verus! {

/// Whether the window has a mark.
pub fn is_mark_active(window: &Window) -> (r: bool)
    ensures
        r == window.mark is Some,
{
    window.mark.is_some()
}

/// The window's mark, if it has one.
pub fn get_mark(window: &Window) -> (r: Option<Cursor>)
    ensures
        r == window.mark,
{
    window.mark
}

/// Marks `cursor` as the other end of the window's region.
pub fn set_mark(window: &mut Window, cursor: Cursor)
    ensures
        final(window).mark == Some(cursor),
        final(window).cursor == old(window).cursor,
        final(window).buffer == old(window).buffer,
        final(window).window_modes@ == old(window).window_modes@,
        final(window).kill_ring == old(window).kill_ring,
{
    window.mark = Some(cursor);
}

/// Forgets the window's mark.
pub fn remove_mark(window: &mut Window)
    ensures
        final(window).mark is None,
        final(window).cursor == old(window).cursor,
        final(window).buffer == old(window).buffer,
        final(window).window_modes@ == old(window).window_modes@,
        final(window).kill_ring == old(window).kill_ring,
{
    window.mark = None;
}

/// The region between the mark and the cursor, the lower position first;
/// without a mark, the empty region at the cursor.
pub open spec fn spec_region(window: &Window) -> (Cursor, Cursor) {
    match window.mark {
        Some(m) => if m.location() < window.cursor.location() {
            (m, window.cursor)
        } else {
            (window.cursor, m)
        },
        None => (window.cursor, window.cursor),
    }
}

/// The region between the mark and the cursor.
pub fn get_region(window: &Window) -> (r: (Cursor, Cursor))
    ensures
        r == spec_region(window),
{
    match window.mark {
        Some(mark) => {
            let cursor = window.cursor;
            if mark.get() < cursor.get() {
                (mark, cursor)
            } else {
                (cursor, mark)
            }
        },
        None => (window.cursor, window.cursor),
    }
}

/// Where the ends of the region stand once brought up to date with `b`.
pub open spec fn region_start(window: &Window, b: &Buffer) -> int {
    b.updated_location(spec_region(window).0.node(), spec_region(window).0.location())
}

pub open spec fn region_end(window: &Window, b: &Buffer) -> int {
    b.updated_location(spec_region(window).1.node(), spec_region(window).1.location())
}

/// The region's ends brought up to date with `buffer`, and the text
/// between them.
pub fn substring_region(window: &Window, buffer: &Buffer) -> (r: ((Cursor, Cursor), String))
    requires
        buffer.wf(),
        region_start(window, buffer) <= region_end(window, buffer),
    ensures
        follows(r.0.0, spec_region(window).0, buffer),
        follows(r.0.1, spec_region(window).1, buffer),
        r.1@ == buffer@.subrange(
            clamp(region_start(window, buffer), buffer@.len()),
            clamp(region_end(window, buffer), buffer@.len()),
        ),
{
    let (mut start, mut end) = get_region(window);
    start.update(buffer);
    end.update(buffer);
    let s = match buffer.substring(start.get(), end.get()) {
        Ok(s) => s,
        Err(_) => {
            assert(false);
            String::new()
        },
    };
    ((start, end), s)
}

/// Adds `substring` to the window's killed texts, as the one to paste.
pub fn insert_kill(window: &mut Window, substring: String)
    requires
        old(window).kill_ring.texts().len() < usize::MAX,
    ensures
        final(window).kill_ring.wf(),
        final(window).kill_ring.texts() == old(window).kill_ring.texts().push(substring@),
        final(window).kill_ring.position() == old(window).kill_ring.texts().len(),
        final(window).cursor == old(window).cursor,
        final(window).mark == old(window).mark,
        final(window).buffer == old(window).buffer,
        final(window).window_modes@ == old(window).window_modes@,
{
    window.kill_ring.push(substring);
}

/// Keeps the text of the region for pasting.
pub fn copy_region(window: &mut Window, buffer: &Buffer)
    requires
        buffer.wf(),
        region_start(old(window), buffer) <= region_end(old(window), buffer),
        old(window).kill_ring.texts().len() < usize::MAX,
    ensures
        final(window).kill_ring.wf(),
        final(window).kill_ring.texts() == old(window).kill_ring.texts().push(
            buffer@.subrange(
                clamp(region_start(old(window), buffer), buffer@.len()),
                clamp(region_end(old(window), buffer), buffer@.len()),
            ),
        ),
        final(window).kill_ring.position() == old(window).kill_ring.texts().len(),
        final(window).cursor == old(window).cursor,
        final(window).mark == old(window).mark,
        final(window).buffer == old(window).buffer,
        final(window).window_modes@ == old(window).window_modes@,
{
    let (_, substring) = substring_region(window, buffer);
    insert_kill(window, substring);
}

/// Deletes the region and keeps its text for pasting.
pub fn kill_region(window: &mut Window, buffer: &mut Buffer)
    requires
        old(buffer).wf(),
        region_start(old(window), old(buffer)) <= region_end(old(window), old(buffer)),
        !old(buffer).spec_read_only(),
        region_start(old(window), old(buffer)) <= old(buffer)@.len(),
        old(window).kill_ring.texts().len() < usize::MAX,
    ensures
        delete_region_outcome(
            old(buffer),
            final(buffer),
            region_start(old(window), old(buffer)) as usize,
            region_end(old(window), old(buffer)) as usize,
            Ok(()),
        ),
        final(window).kill_ring.wf(),
        final(window).kill_ring.texts() == old(window).kill_ring.texts().push(
            old(buffer)@.subrange(
                region_start(old(window), old(buffer)),
                clamp(region_end(old(window), old(buffer)), old(buffer)@.len()),
            ),
        ),
        final(window).kill_ring.position() == old(window).kill_ring.texts().len(),
        final(window).cursor == old(window).cursor,
        final(window).mark == old(window).mark,
        final(window).buffer == old(window).buffer,
        final(window).window_modes@ == old(window).window_modes@,
{
    let ((start, end), substring) = substring_region(window, buffer);
    let r = buffer.delete_region(start.get(), end.get());
    insert_kill(window, substring);
}

/// Inserts the text to paste at the window's cursor, brought up to date;
/// nothing happens where nothing was killed in the window.
pub fn paste(window: &Window, buffer: &mut Buffer)
    requires
        old(buffer).wf(),
        window.kill_ring.wf(),
        window.kill_ring.texts().len() > 0 ==> {
            &&& !old(buffer).spec_read_only()
            &&& old(buffer).updated_location(window.cursor.node(), window.cursor.location()) <= old(buffer)@.len()
            &&& old(buffer)@.len() + window.kill_ring.texts()[window.kill_ring.position() as int].len() <= usize::MAX
        },
    ensures
        final(buffer).wf(),
        window.kill_ring.texts().len() == 0 ==> *final(buffer) == *old(buffer),
        window.kill_ring.texts().len() > 0 ==> insert_outcome(
            old(buffer),
            final(buffer),
            old(buffer).updated_location(window.cursor.node(), window.cursor.location()) as usize,
            window.kill_ring.texts()[window.kill_ring.position() as int],
            ERROR_INSERT_STR_OUT_OF_BOUNDS,
            Ok(()),
        ),
{
    if window.kill_ring.len() > 0 {
        let pos = window.cursor.updated(buffer).get();
        let s = window.kill_ring.current();
        let r = buffer.insert_str(pos, s.as_str());
    }
}

/// Moves the text to paste `times` places back among the killed texts,
/// round the ring.
pub fn paste_pop(window: &mut Window, times: isize)
    requires
        old(window).kill_ring.wf(),
    ensures
        final(window).kill_ring.wf(),
        final(window).kill_ring.texts() == old(window).kill_ring.texts(),
        old(window).kill_ring.texts().len() > 0 ==> final(window).kill_ring.position() == (
        old(window).kill_ring.position() - times) % (old(window).kill_ring.texts().len() as int),
        final(window).cursor == old(window).cursor,
        final(window).mark == old(window).mark,
        final(window).buffer == old(window).buffer,
        final(window).window_modes@ == old(window).window_modes@,
{
    window.kill_ring.rotate(times);
}

/// What `copy_region` or `kill_region` kept is what `paste` inserts next:
/// after the text `kept` is added to a ring, the text to paste is `kept`.
pub proof fn law_paste_gives_kept_text(before: KillRing, after: KillRing, kept: Seq<char>)
    requires
        before.texts().len() < usize::MAX,
        after.texts() == before.texts().push(kept),
        after.position() == before.texts().len(),
    ensures
        after.wf(),
        after.texts().len() > 0,
        after.texts()[after.position() as int] == kept,
{
}

/// Popping `a` places and then `b` places goes where popping `a + b`
/// places goes, and popping once round the whole ring comes back to the
/// same text.
pub proof fn law_paste_pop_adds_up(n: int, p: int, a: int, b: int)
    requires
        0 <= p < n,
    ensures
        ((p - a) % n - b) % n == (p - (a + b)) % n,
        (p - n) % n == p,
{
    vstd::arithmetic::div_mod::lemma_sub_mod_noop(p - a, b, n);
    vstd::arithmetic::div_mod::lemma_sub_mod_noop_right((p - a) % n, b, n);
    vstd::arithmetic::div_mod::lemma_mod_sub_multiples_vanish(p, n);
    vstd::arithmetic::div_mod::lemma_small_mod(p as nat, n as nat);
}

} // verus!
