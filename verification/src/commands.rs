use vstd::prelude::*;
use vstd::string::StrSliceExecFns;
use crate::buffer::{Buffer, error_is, undone, redone, undo_fails, ERROR_READ_ONLY, ERROR_INSERT_OUT_OF_BOUNDS, ERROR_UNDO_OUT_OF_BOUNDS};
use crate::command::Command;
use crate::cursor::clamp_to;
use crate::movement::{
    begin_of_line, end_of_line, forward_line, forward_word, forward_group, up_group, line_start,
    line_end, forward_line_spec, forward_word_spec, forward_group_spec, up_group_spec, ups_ok,
};
use crate::state::{State, Frame};
use crate::layout::{Layout, lemma_split_keeps};
use crate::window_order::{clockwise, counter_clockwise, closed, close_window, other_window_clockwise, other_window_counter_clockwise, lemma_other_window_in, lemma_close_window_keeps};
use crate::window::{Window, insert_outcome, delete_outcome, delete_region_outcome, clone_window};
use crate::region::{spec_region, region_start, region_end, get_region, set_mark, remove_mark, copy_region, kill_region, paste, paste_pop};
use crate::buffer::{clamp, BufferName, spec_path_parent, ERROR_DELETE_REGION_OUT_OF_BOUNDS, ERROR_INSERT_STR_OUT_OF_BOUNDS};
use crate::git::{spec_highlighted_file, get_highlighted_file, get_highlighted_file_staged, get_highlighted_file_unstaged, ERROR_FILE_PATH_NONE, ERROR_NOT_IN_GIT_MODE, ERROR_STAGED, ERROR_UNSTAGED};

verus! {

broadcast use vstd::string::group_string_axioms;

/// The error of a command that would work on a cursor past the end of its
/// buffer's text.
pub const ERROR_CURSOR_OUT_OF_BOUNDS: &'static str = "Error: Cursor is past the end of the buffer";

/// The error of a command that would make a text longer than can be held.
pub const ERROR_BUFFER_FULL: &'static str = "Error: Buffer is full";

/// The error of a command on a region whose ends have crossed since they
/// were set.
pub const ERROR_REGION_CROSSED: &'static str = "Error: The ends of the region have crossed";

/// The error of a command that would keep one more killed text than can be
/// held.
pub const ERROR_KILL_RING_FULL: &'static str = "Error: Too many killed texts";

/// The message of the command that closes the editor.
pub const CLOSED_SUCCESSFULLY: &'static str = "Closed Successfully";

/// The file that the open-file command opens.
pub const OPEN_FILE_PATH: &'static str = "/home/czipperz/ted/src/main.rs";

/// The error of saving a buffer that shows no file.
pub const ERROR_NO_FILE_PATH: &'static str = "Error: Buffer has no file";

/// The error of opening the git repository of a buffer that shows no file.
pub const ERROR_CANNOT_OPEN_GIT_REPOSITORY: &'static str = "Error: Cannot open git repository";

/// Work that a command leaves to the program around the library: reading
/// and writing files and asking git.
#[derive(Debug, PartialEq, Eq)]
pub enum Request {
    /// Read the file at the path and show it in the selected window.
    OpenFile(String),
    /// Write the text to the file at the path.
    SaveFile { path: String, contents: String },
    /// List the git repository around the path and show the listing in the
    /// selected window (with spaced headings if `spaced`).
    GitOpenRepository { path: String, spaced: bool },
    /// List the git repository at the path again into buffer `buffer`.
    GitRefreshRepository { path: String, buffer: usize, spaced: bool },
    /// Stage `file` of the repository at `path`, then refresh `buffer`.
    GitAdd { path: String, file: String, buffer: usize },
    /// Unstage `file` of the repository at `path`, then refresh `buffer`.
    GitUnstage { path: String, file: String, buffer: usize },
    /// Show the changes of `file` of the repository at `path` (those staged
    /// if `staged`) in the selected window, then refresh `buffer`.
    GitDiff { path: String, file: String, staged: bool, buffer: usize },
}

/// Everything of `b` but its buffers and windows is as in `a`.
pub open spec fn rest_same(a: &State, b: &State) -> bool {
    &&& b.key_maps@ == a.key_maps@
    &&& b.modes@ == a.modes@
    &&& b.default_key_map == a.default_key_map
    &&& b.global_modes@ == a.global_modes@
    &&& b.display.frames@ == a.display.frames@
    &&& b.display.selected_frame == a.display.selected_frame
    &&& b.closed_successfully == a.closed_successfully
    &&& b.logger == a.logger
    &&& b.git_mode == a.git_mode
}

/// `b` is `a` with the selected window replaced by `w`.
pub open spec fn window_replaced(a: &State, b: &State, w: Window) -> bool {
    &&& b.windows@ == a.windows@.update(a.selected() as int, w)
    &&& b.buffers@ == a.buffers@
    &&& rest_same(a, b)
}

/// `b` is `a` with the selected window replaced by `w` and its buffer by
/// `buf`.
pub open spec fn window_buffer_replaced(a: &State, b: &State, w: Window, buf: Buffer) -> bool {
    &&& b.windows@ == a.windows@.update(a.selected() as int, w)
    &&& b.buffers@ == a.buffers@.update(a.selected_buffer() as int, buf)
    &&& rest_same(a, b)
}

/// `b` is `a` with the selected buffer replaced by `buf`.
pub open spec fn buffer_replaced(a: &State, b: &State, buf: Buffer) -> bool {
    &&& b.windows@ == a.windows@
    &&& b.buffers@ == a.buffers@.update(a.selected_buffer() as int, buf)
    &&& rest_same(a, b)
}

/// The selected window and its buffer in `a`.
pub open spec fn sel_window(a: &State) -> Window {
    a.windows@[a.selected() as int]
}

pub open spec fn sel_buffer(a: &State) -> Buffer {
    a.buffers@[a.selected_buffer() as int]
}

/// `b` is `a` with the selected window's cursor brought up to date and put
/// at `loc`, kept within the text.
pub open spec fn cursor_set(a: &State, b: &State, loc: int) -> bool {
    let w = sel_window(a);
    let w2 = b.windows@[a.selected() as int];
    let buf = sel_buffer(a);
    &&& window_replaced(a, b, w2)
    &&& w2.same_but_cursor(&w)
    &&& w2.cursor.location() == clamp_to(loc, buf@.len() as int)
    &&& w2.cursor.node() == buf.updated_state(w.cursor.node())
}

/// `b` is `a` with the selected window's cursor brought up to date and
/// moved by `offset`, kept within the text.
pub open spec fn cursor_moved(a: &State, b: &State, offset: int) -> bool {
    let w = sel_window(a);
    let buf = sel_buffer(a);
    cursor_set(a, b, buf.updated_location(w.cursor.node(), w.cursor.location()) + offset)
}

/// The outcome of a command that moves the cursor to `f` of its (not yet
/// updated) position: where that position is past the end of the text the
/// command fails.
pub open spec fn moved_by(a: &State, b: &State, r: Result<Option<Request>, String>, target: int) -> bool {
    moved_checked(a, b, r, target, true)
}

/// The same, where the move can only be made when `fits` holds of the
/// size of the text; otherwise the command fails for want of room.
pub open spec fn moved_checked(a: &State, b: &State, r: Result<Option<Request>, String>, target: int, fits: bool) -> bool {
    let loc = sel_window(a).cursor.location();
    let len = sel_buffer(a)@.len();
    &&& loc > len ==> error_is(r, ERROR_CURSOR_OUT_OF_BOUNDS) && *b == *a
    &&& loc <= len && !fits ==> error_is(r, ERROR_BUFFER_FULL) && *b == *a
    &&& loc <= len && fits ==> (r matches Ok(None) && cursor_set(a, b, target))
}

impl State {
    pub proof fn lemma_selected(&self)
        requires
            self.wf(),
        ensures
            self.selected() < self.windows@.len(),
            self.selected_buffer() < self.buffers@.len(),
            sel_window(self).wf(),
            sel_buffer(self).wf(),
    {
        assert(self.frame_ok(self.display.frames@[self.display.selected_frame as int]));
        assert(self.windows@[self.selected() as int].wf());
        assert(self.buffers@[self.selected_buffer() as int].wf());
    }

    /// Sets the selected window's cursor to `location`.
    fn set_selected_cursor(&mut self, location: usize)
        requires
            old(self).wf(),
        ensures
            final(self).wf(),
            cursor_set(old(self), final(self), location as int),
    {
        proof {
            self.lemma_selected();
        }
        let w = self.selected_window();
        let b = self.windows[w].buffer;
        self.windows[w].set_cursor(&self.buffers[b], location);
        proof {
            self.lemma_windows_kept(old(self), w as int);
        }
    }

    /// Well-formedness survives replacing buffer `b` by a well-formed one.
    pub proof fn lemma_buffer_kept(&self, old: &State, b: int)
        requires
            old.wf(),
            0 <= b < old.buffers@.len(),
            self.buffers@ == old.buffers@.update(b, self.buffers@[b]),
            self.buffers@[b].wf(),
            self.windows@ == old.windows@,
            rest_same(old, self),
        ensures
            self.wf(),
    {
        assert forall|i: int| 0 <= i < self.buffers@.len() implies #[trigger] self.buffers@[i].wf() by {
            if i != b {
                assert(old.buffers@[i].wf());
            }
        }
        assert forall|f: int| 0 <= f < self.display.frames@.len() implies #[trigger] self.frame_ok(
            self.display.frames@[f],
        ) by {
            assert(old.frame_ok(old.display.frames@[f]));
        }
        assert forall|i: int| 0 <= i < self.windows@.len() implies #[trigger] self.windows@[i].wf()
            && self.windows@[i].buffer < self.buffers@.len() by {
            assert(old.windows@[i].wf());
        }
    }

    /// Well-formedness survives replacing window `w` by one onto the same
    /// buffer and buffer `b` by a well-formed one.
    proof fn lemma_window_buffer_kept(&self, old: &State, w: int, b: int)
        requires
            old.wf(),
            0 <= w < old.windows@.len(),
            0 <= b < old.buffers@.len(),
            self.windows@ == old.windows@.update(w, self.windows@[w]),
            self.buffers@ == old.buffers@.update(b, self.buffers@[b]),
            self.windows@[w].buffer == old.windows@[w].buffer,
            self.windows@[w].wf(),
            self.buffers@[b].wf(),
            rest_same(old, self),
        ensures
            self.wf(),
    {
        assert forall|i: int| 0 <= i < self.buffers@.len() implies #[trigger] self.buffers@[i].wf() by {
            if i != b {
                assert(old.buffers@[i].wf());
            }
        }
        self.lemma_windows_kept(old, w);
    }

    /// Well-formedness survives replacing window `w` by one onto the same
    /// buffer whose killed texts are in order.
    proof fn lemma_windows_kept(&self, old: &State, w: int)
        requires
            old.wf(),
            0 <= w < old.windows@.len(),
            self.windows@ == old.windows@.update(w, self.windows@[w]),
            self.windows@[w].buffer == old.windows@[w].buffer,
            self.windows@[w].wf(),
            self.buffers@.len() == old.buffers@.len(),
            forall|b: int| 0 <= b < self.buffers@.len() ==> #[trigger] self.buffers@[b].wf(),
            rest_same(old, self),
        ensures
            self.wf(),
    {
        assert forall|f: int| 0 <= f < self.display.frames@.len() implies #[trigger] self.frame_ok(
            self.display.frames@[f],
        ) by {
            assert(old.frame_ok(old.display.frames@[f]));
        }
        assert forall|i: int| 0 <= i < self.windows@.len() implies #[trigger] self.windows@[i].wf()
            && self.windows@[i].buffer < self.buffers@.len() by {
            if i != w {
                assert(old.windows@[i].wf());
            } else {
                assert(old.windows@[w].wf());
            }
        }
    }
}

// ---------------------------------------------------------------- commands

/// What running `BackwardCharCommand` from `a` to `b` with result `r` does.
pub open spec fn backward_char_done(a: &State, b: &State, r: Result<Option<Request>, String>) -> bool {
    &&& r matches Ok(None)
    &&& cursor_moved(a, b, -1)
}

/// Moves the cursor back one character.
pub struct BackwardCharCommand;

impl BackwardCharCommand {
    pub fn execute(&self, state: &mut State) -> (r: Result<Option<Request>, String>)
        requires
            old(state).wf(),
        ensures
            final(state).wf(),
            backward_char_done(old(state), final(state), r),
    {
        proof {
            state.lemma_selected();
        }
        let w = state.selected_window();
        let b = state.windows[w].buffer;
        state.windows[w].increment_cursor(&state.buffers[b], -1);
        proof {
            state.lemma_windows_kept(old(state), w as int);
        }
        Ok(None)
    }
}

/// What running `ForwardCharCommand` from `a` to `b` with result `r` does.
pub open spec fn forward_char_done(a: &State, b: &State, r: Result<Option<Request>, String>) -> bool {
    &&& r matches Ok(None)
    &&& cursor_moved(a, b, 1)
}

/// Moves the cursor forward one character.
pub struct ForwardCharCommand;

impl ForwardCharCommand {
    pub fn execute(&self, state: &mut State) -> (r: Result<Option<Request>, String>)
        requires
            old(state).wf(),
        ensures
            final(state).wf(),
            forward_char_done(old(state), final(state), r),
    {
        proof {
            state.lemma_selected();
        }
        let w = state.selected_window();
        let b = state.windows[w].buffer;
        state.windows[w].increment_cursor(&state.buffers[b], 1);
        proof {
            state.lemma_windows_kept(old(state), w as int);
        }
        Ok(None)
    }
}

/// What running `BeginOfLineCommand` from `a` to `b` with result `r` does.
pub open spec fn begin_of_line_done(a: &State, b: &State, r: Result<Option<Request>, String>) -> bool {
    &&& moved_by( a, b, r, line_start(sel_buffer(a)@, sel_window(a).cursor.location() as int), )
}

/// Moves the cursor to the start of its line.
pub struct BeginOfLineCommand;

impl BeginOfLineCommand {
    pub fn execute(&self, state: &mut State) -> (r: Result<Option<Request>, String>)
        requires
            old(state).wf(),
        ensures
            final(state).wf(),
            begin_of_line_done(old(state), final(state), r),
    {
        proof {
            state.lemma_selected();
        }
        let w = state.selected_window();
        let b = state.windows[w].buffer;
        let loc = state.windows[w].cursor.get();
        if loc > state.buffers[b].len() {
            return Err(String::from_str(ERROR_CURSOR_OUT_OF_BOUNDS));
        }
        let new_location = begin_of_line(&state.buffers[b], loc);
        state.set_selected_cursor(new_location);
        Ok(None)
    }
}

/// What running `EndOfLineCommand` from `a` to `b` with result `r` does.
pub open spec fn end_of_line_done(a: &State, b: &State, r: Result<Option<Request>, String>) -> bool {
    &&& moved_by( a, b, r, line_end(sel_buffer(a)@, sel_window(a).cursor.location() as int), )
}

/// Moves the cursor to the end of its line.
pub struct EndOfLineCommand;

impl EndOfLineCommand {
    pub fn execute(&self, state: &mut State) -> (r: Result<Option<Request>, String>)
        requires
            old(state).wf(),
        ensures
            final(state).wf(),
            end_of_line_done(old(state), final(state), r),
    {
        proof {
            state.lemma_selected();
        }
        let w = state.selected_window();
        let b = state.windows[w].buffer;
        let loc = state.windows[w].cursor.get();
        if loc > state.buffers[b].len() {
            return Err(String::from_str(ERROR_CURSOR_OUT_OF_BOUNDS));
        }
        let new_location = end_of_line(&state.buffers[b], loc);
        state.set_selected_cursor(new_location);
        Ok(None)
    }
}

/// Moves the cursor `times` lines down (up where negative), keeping its
/// column where the line is long enough.
fn line_command(state: &mut State, times: isize) -> (r: Result<Option<Request>, String>)
    requires
        old(state).wf(),
    ensures
        final(state).wf(),
        moved_checked(
            old(state),
            final(state),
            r,
            forward_line_spec(sel_buffer(old(state))@, sel_window(old(state)).cursor.location() as int, times as int),
            sel_buffer(old(state))@.len() + sel_window(old(state)).cursor.location() <= usize::MAX,
        ),
{
    proof {
        state.lemma_selected();
    }
    let w = state.selected_window();
    let b = state.windows[w].buffer;
    let loc = state.windows[w].cursor.get();
    let len = state.buffers[b].len();
    if loc > len {
        return Err(String::from_str(ERROR_CURSOR_OUT_OF_BOUNDS));
    }
    if len > usize::MAX - loc {
        return Err(String::from_str(ERROR_BUFFER_FULL));
    }
    let new_location = forward_line(&state.buffers[b], loc, times);
    state.set_selected_cursor(new_location);
    Ok(None)
}

/// What running `ForwardLineCommand` from `a` to `b` with result `r` does.
pub open spec fn forward_line_done(a: &State, b: &State, r: Result<Option<Request>, String>) -> bool {
    &&& moved_checked( a, b, r, forward_line_spec(sel_buffer(a)@, sel_window(a).cursor.location() as int, 1), sel_buffer(a)@.len() + sel_window(a).cursor.location() <= usize::MAX, )
}

/// Moves the cursor to the next line.
pub struct ForwardLineCommand;

impl ForwardLineCommand {
    pub fn execute(&self, state: &mut State) -> (r: Result<Option<Request>, String>)
        requires
            old(state).wf(),
        ensures
            final(state).wf(),
            forward_line_done(old(state), final(state), r),
    {
        line_command(state, 1)
    }
}

/// What running `BackwardLineCommand` from `a` to `b` with result `r` does.
pub open spec fn backward_line_done(a: &State, b: &State, r: Result<Option<Request>, String>) -> bool {
    &&& moved_checked( a, b, r, forward_line_spec(sel_buffer(a)@, sel_window(a).cursor.location() as int, -1), sel_buffer(a)@.len() + sel_window(a).cursor.location() <= usize::MAX, )
}

/// Moves the cursor to the previous line.
pub struct BackwardLineCommand;

impl BackwardLineCommand {
    pub fn execute(&self, state: &mut State) -> (r: Result<Option<Request>, String>)
        requires
            old(state).wf(),
        ensures
            final(state).wf(),
            backward_line_done(old(state), final(state), r),
    {
        line_command(state, -1)
    }
}

/// Moves the cursor `times` words forward (back where negative).
fn word_command(state: &mut State, times: isize) -> (r: Result<Option<Request>, String>)
    requires
        old(state).wf(),
    ensures
        final(state).wf(),
        moved_checked(
            old(state),
            final(state),
            r,
            forward_word_spec(sel_buffer(old(state))@, sel_window(old(state)).cursor.location() as int, times as int),
            sel_buffer(old(state))@.len() < usize::MAX,
        ),
{
    proof {
        state.lemma_selected();
    }
    let w = state.selected_window();
    let b = state.windows[w].buffer;
    let loc = state.windows[w].cursor.get();
    let len = state.buffers[b].len();
    if loc > len {
        return Err(String::from_str(ERROR_CURSOR_OUT_OF_BOUNDS));
    }
    if len == usize::MAX {
        return Err(String::from_str(ERROR_BUFFER_FULL));
    }
    let new_location = forward_word(&state.buffers[b], loc, times);
    state.set_selected_cursor(new_location);
    Ok(None)
}

/// What running `ForwardWordCommand` from `a` to `b` with result `r` does.
pub open spec fn forward_word_done(a: &State, b: &State, r: Result<Option<Request>, String>) -> bool {
    &&& moved_checked( a, b, r, forward_word_spec(sel_buffer(a)@, sel_window(a).cursor.location() as int, 1), sel_buffer(a)@.len() < usize::MAX, )
}

/// Moves the cursor past the next word.
pub struct ForwardWordCommand;

impl ForwardWordCommand {
    pub fn execute(&self, state: &mut State) -> (r: Result<Option<Request>, String>)
        requires
            old(state).wf(),
        ensures
            final(state).wf(),
            forward_word_done(old(state), final(state), r),
    {
        word_command(state, 1)
    }
}

/// What running `BackwardWordCommand` from `a` to `b` with result `r` does.
pub open spec fn backward_word_done(a: &State, b: &State, r: Result<Option<Request>, String>) -> bool {
    &&& moved_checked( a, b, r, forward_word_spec(sel_buffer(a)@, sel_window(a).cursor.location() as int, -1), sel_buffer(a)@.len() < usize::MAX, )
}

/// Moves the cursor to the start of the previous word.
pub struct BackwardWordCommand;

impl BackwardWordCommand {
    pub fn execute(&self, state: &mut State) -> (r: Result<Option<Request>, String>)
        requires
            old(state).wf(),
        ensures
            final(state).wf(),
            backward_word_done(old(state), final(state), r),
    {
        word_command(state, -1)
    }
}

/// Moves the cursor over `times` groups forward (back where negative).
fn group_command(state: &mut State, times: isize) -> (r: Result<Option<Request>, String>)
    requires
        old(state).wf(),
    ensures
        final(state).wf(),
        moved_checked(
            old(state),
            final(state),
            r,
            forward_group_spec(sel_buffer(old(state))@, sel_window(old(state)).cursor.location() as int, times as int),
            sel_buffer(old(state))@.len() < usize::MAX,
        ),
{
    proof {
        state.lemma_selected();
    }
    let w = state.selected_window();
    let b = state.windows[w].buffer;
    let loc = state.windows[w].cursor.get();
    let len = state.buffers[b].len();
    if loc > len {
        return Err(String::from_str(ERROR_CURSOR_OUT_OF_BOUNDS));
    }
    if len == usize::MAX {
        return Err(String::from_str(ERROR_BUFFER_FULL));
    }
    let new_location = forward_group(&state.buffers[b], loc, times);
    state.set_selected_cursor(new_location);
    Ok(None)
}

/// What running `ForwardGroupCommand` from `a` to `b` with result `r` does.
pub open spec fn forward_group_done(a: &State, b: &State, r: Result<Option<Request>, String>) -> bool {
    &&& moved_checked( a, b, r, forward_group_spec(sel_buffer(a)@, sel_window(a).cursor.location() as int, 1), sel_buffer(a)@.len() < usize::MAX, )
}

/// Moves the cursor over the next group.
pub struct ForwardGroupCommand;

impl ForwardGroupCommand {
    pub fn execute(&self, state: &mut State) -> (r: Result<Option<Request>, String>)
        requires
            old(state).wf(),
        ensures
            final(state).wf(),
            forward_group_done(old(state), final(state), r),
    {
        group_command(state, 1)
    }
}

/// What running `BackwardGroupCommand` from `a` to `b` with result `r` does.
pub open spec fn backward_group_done(a: &State, b: &State, r: Result<Option<Request>, String>) -> bool {
    &&& moved_checked( a, b, r, forward_group_spec(sel_buffer(a)@, sel_window(a).cursor.location() as int, -1), sel_buffer(a)@.len() < usize::MAX, )
}

/// Moves the cursor back over the previous group.
pub struct BackwardGroupCommand;

impl BackwardGroupCommand {
    pub fn execute(&self, state: &mut State) -> (r: Result<Option<Request>, String>)
        requires
            old(state).wf(),
        ensures
            final(state).wf(),
            backward_group_done(old(state), final(state), r),
    {
        group_command(state, -1)
    }
}

/// What running `UpGroupCommand` from `a` to `b` with result `r` does.
pub open spec fn up_group_done(a: &State, b: &State, r: Result<Option<Request>, String>) -> bool {
    &&& moved_checked( a, b, r, up_group_spec(sel_buffer(a)@, sel_window(a).cursor.location() as int, 1), sel_buffer(a)@.len() < usize::MAX, )
}

/// Moves the cursor to the bracket that opens the group around it.
pub struct UpGroupCommand;

impl UpGroupCommand {
    pub fn execute(&self, state: &mut State) -> (r: Result<Option<Request>, String>)
        requires
            old(state).wf(),
        ensures
            final(state).wf(),
            up_group_done(old(state), final(state), r),
    {
        proof {
            state.lemma_selected();
            reveal_with_fuel(crate::movement::ups_ok, 2);
        }
        let w = state.selected_window();
        let b = state.windows[w].buffer;
        let loc = state.windows[w].cursor.get();
        let len = state.buffers[b].len();
        if loc > len {
            return Err(String::from_str(ERROR_CURSOR_OUT_OF_BOUNDS));
        }
        if len == usize::MAX {
            return Err(String::from_str(ERROR_BUFFER_FULL));
        }
        let new_location = up_group(&state.buffers[b], loc, 1);
        state.set_selected_cursor(new_location);
        Ok(None)
    }
}

/// What running `BeginOfBufferCommand` from `a` to `b` with result `r` does.
pub open spec fn begin_of_buffer_done(a: &State, b: &State, r: Result<Option<Request>, String>) -> bool {
    &&& r matches Ok(None)
    &&& cursor_set(a, b, 0)
}

/// Moves the cursor to the start of the buffer.
pub struct BeginOfBufferCommand;

impl BeginOfBufferCommand {
    pub fn execute(&self, state: &mut State) -> (r: Result<Option<Request>, String>)
        requires
            old(state).wf(),
        ensures
            final(state).wf(),
            begin_of_buffer_done(old(state), final(state), r),
    {
        state.set_selected_cursor(0);
        Ok(None)
    }
}

/// What running `EndOfBufferCommand` from `a` to `b` with result `r` does.
pub open spec fn end_of_buffer_done(a: &State, b: &State, r: Result<Option<Request>, String>) -> bool {
    &&& r matches Ok(None)
    &&& cursor_set(a, b, sel_buffer(a)@.len() as int)
}

/// Moves the cursor to the end of the buffer.
pub struct EndOfBufferCommand;

impl EndOfBufferCommand {
    pub fn execute(&self, state: &mut State) -> (r: Result<Option<Request>, String>)
        requires
            old(state).wf(),
        ensures
            final(state).wf(),
            end_of_buffer_done(old(state), final(state), r),
    {
        proof {
            state.lemma_selected();
        }
        let b = state.selected_window_buffer();
        let len = state.buffers[b].len();
        state.set_selected_cursor(len);
        Ok(None)
    }
}

/// A command's result without what it asks of the program around it.
pub open spec fn as_unit(r: Result<Option<Request>, String>) -> Result<(), String> {
    match r {
        Ok(_) => Ok(()),
        Err(e) => Err(e),
    }
}

/// What running `InsertCommand` from `a` to `b` with result `r` does.
pub open spec fn insert_done(a: &State, b: &State, r: Result<Option<Request>, String>, key: char) -> bool {
    &&& r is Ok ==> (r matches Ok(None))
    &&& sel_buffer(a)@.len() == usize::MAX ==> error_is(r, ERROR_BUFFER_FULL) && *b == *a
    &&& sel_buffer(a)@.len() < usize::MAX ==> {
        let w2 = b.windows@[a.selected() as int];
        let buf2 = b.buffers@[a.selected_buffer() as int];
        &&& window_buffer_replaced(a, b, w2, buf2)
        &&& insert_outcome(
            &sel_buffer(a),
            &buf2,
            sel_window(a).cursor.location(),
            seq![key],
            ERROR_INSERT_OUT_OF_BOUNDS,
            as_unit(r),
        )
        &&& r is Ok ==> w2.cursor_follows(&sel_window(a), &buf2)
        &&& r is Err ==> w2 == sel_window(a)
    }
}

/// Inserts a character at the cursor.
pub struct InsertCommand(pub char);

impl InsertCommand {
    pub fn execute(&self, state: &mut State) -> (r: Result<Option<Request>, String>)
        requires
            old(state).wf(),
        ensures
            final(state).wf(),
            insert_done(old(state), final(state), r, self.0),
    {
        proof {
            state.lemma_selected();
        }
        let w = state.selected_window();
        let b = state.windows[w].buffer;
        if state.buffers[b].len() == usize::MAX {
            return Err(String::from_str(ERROR_BUFFER_FULL));
        }
        let r = state.windows[w].insert(&mut state.buffers[b], self.0);
        proof {
            state.lemma_window_buffer_kept(old(state), w as int, b as int);
        }
        match r {
            Ok(()) => Ok(None),
            Err(e) => Err(e),
        }
    }
}

/// The outcome of deleting the character at `loc` of the selected buffer
/// and then bringing the selected window's cursor up to date.
pub open spec fn deleted_at(a: &State, b: &State, loc: usize, r: Result<Option<Request>, String>) -> bool {
    let w2 = b.windows@[a.selected() as int];
    let buf2 = b.buffers@[a.selected_buffer() as int];
    &&& r is Ok ==> (r matches Ok(None))
    &&& window_buffer_replaced(a, b, w2, buf2)
    &&& delete_outcome(&sel_buffer(a), &buf2, loc, as_unit(r))
    &&& r is Ok ==> w2.cursor_follows(&sel_window(a), &buf2)
    &&& r is Err ==> w2 == sel_window(a)
}

/// Deletes the character at `loc` of the selected buffer and brings the
/// selected window's cursor up to date.
fn delete_at(state: &mut State, loc: usize) -> (r: Result<Option<Request>, String>)
    requires
        old(state).wf(),
    ensures
        final(state).wf(),
        deleted_at(old(state), final(state), loc, r),
{
    proof {
        state.lemma_selected();
    }
    let w = state.selected_window();
    let b = state.windows[w].buffer;
    let r = state.buffers[b].delete(loc);
    match r {
        Ok(()) => {
            state.windows[w].update_cursor(&state.buffers[b]);
            proof {
                state.lemma_window_buffer_kept(old(state), w as int, b as int);
            }
            Ok(None)
        },
        Err(e) => {
            proof {
                state.lemma_buffer_kept(old(state), b as int);
                assert(state.windows@ =~= old(state).windows@.update(w as int, state.windows@[w as int]));
            }
            Err(e)
        },
    }
}

/// What running `DeleteBackwardCharCommand` from `a` to `b` with result `r` does.
pub open spec fn delete_backward_char_done(a: &State, b: &State, r: Result<Option<Request>, String>) -> bool {
    &&& sel_window(a).cursor.location() == 0 ==> (r matches Ok(None)) && *b == *a
    &&& sel_window(a).cursor.location() > 0 ==> deleted_at( a, b, (sel_window(a).cursor.location() - 1) as usize, r, )
}

/// Deletes the character before the cursor.
pub struct DeleteBackwardCharCommand;

impl DeleteBackwardCharCommand {
    pub fn execute(&self, state: &mut State) -> (r: Result<Option<Request>, String>)
        requires
            old(state).wf(),
        ensures
            final(state).wf(),
            delete_backward_char_done(old(state), final(state), r),
    {
        proof {
            state.lemma_selected();
        }
        let w = state.selected_window();
        let loc = state.windows[w].cursor.get();
        if loc != 0 {
            delete_at(state, loc - 1)
        } else {
            Ok(None)
        }
    }
}

/// What running `DeleteForwardCharCommand` from `a` to `b` with result `r` does.
pub open spec fn delete_forward_char_done(a: &State, b: &State, r: Result<Option<Request>, String>) -> bool {
    &&& sel_window(a).cursor.location() == sel_buffer(a)@.len() ==> (r matches Ok(None)) && *b == *a
    &&& sel_window(a).cursor.location() != sel_buffer(a)@.len() ==> deleted_at( a, b, sel_window(a).cursor.location(), r, )
}

/// Deletes the character at the cursor.
pub struct DeleteForwardCharCommand;

impl DeleteForwardCharCommand {
    pub fn execute(&self, state: &mut State) -> (r: Result<Option<Request>, String>)
        requires
            old(state).wf(),
        ensures
            final(state).wf(),
            delete_forward_char_done(old(state), final(state), r),
    {
        proof {
            state.lemma_selected();
        }
        let w = state.selected_window();
        let b = state.windows[w].buffer;
        let loc = state.windows[w].cursor.get();
        if loc != state.buffers[b].len() {
            delete_at(state, loc)
        } else {
            Ok(None)
        }
    }
}

/// What undoing does to the selected buffer `a`, giving `b`: a read-only
/// buffer refuses; at the first node nothing happens; an edit that cannot
/// be reverted fails; otherwise the buffer moves back to the parent node.
pub open spec fn undo_outcome(a: &Buffer, b: &Buffer, r: Result<Option<Request>, String>) -> bool {
    &&& b.wf()
    &&& a.spec_read_only() ==> error_is(r, ERROR_READ_ONLY) && *b == *a
    &&& !a.spec_read_only() && a.current() == 0 ==> (r matches Ok(None)) && *b == *a
    &&& !a.spec_read_only() && a.current() != 0 && undo_fails(a.history_view()[a.current() as int]) ==> error_is(
        r,
        ERROR_UNDO_OUT_OF_BOUNDS,
    ) && *b == *a
    &&& !a.spec_read_only() && a.current() != 0 && !undo_fails(a.history_view()[a.current() as int]) ==> (r matches Ok(
        None,
    )) && undone(a, b)
}

/// What redoing does to the selected buffer `a`, giving `b`.
pub open spec fn redo_outcome(a: &Buffer, b: &Buffer, r: Result<Option<Request>, String>) -> bool {
    &&& b.wf()
    &&& a.spec_read_only() ==> error_is(r, ERROR_READ_ONLY) && *b == *a
    &&& !a.spec_read_only() && a.last_child_of(a.current() as int) is None ==> (r matches Ok(None)) && *b == *a
    &&& !a.spec_read_only() && a.last_child_of(a.current() as int) is Some ==> (r matches Ok(None)) && redone(a, b)
}

/// What running `UndoCommand` from `a` to `b` with result `r` does.
pub open spec fn undo_done(a: &State, b: &State, r: Result<Option<Request>, String>) -> bool {
    &&& buffer_replaced(a, b, b.buffers@[a.selected_buffer() as int])
    &&& undo_outcome(&sel_buffer(a), &b.buffers@[a.selected_buffer() as int], r)
}

/// Undoes the last edit of the selected window's buffer.
pub struct UndoCommand;

impl UndoCommand {
    pub fn execute(&self, state: &mut State) -> (r: Result<Option<Request>, String>)
        requires
            old(state).wf(),
        ensures
            final(state).wf(),
            undo_done(old(state), final(state), r),
    {
        proof {
            state.lemma_selected();
        }
        let b = state.selected_window_buffer();
        let r = state.buffers[b].undo();
        proof {
            state.lemma_buffer_kept(old(state), b as int);
        }
        match r {
            Ok(_) => Ok(None),
            Err(e) => Err(e),
        }
    }
}

/// What running `RedoCommand` from `a` to `b` with result `r` does.
pub open spec fn redo_done(a: &State, b: &State, r: Result<Option<Request>, String>) -> bool {
    &&& buffer_replaced(a, b, b.buffers@[a.selected_buffer() as int])
    &&& redo_outcome(&sel_buffer(a), &b.buffers@[a.selected_buffer() as int], r)
}

/// Redoes what the last undo reverted in the selected window's buffer.
pub struct RedoCommand;

impl RedoCommand {
    pub fn execute(&self, state: &mut State) -> (r: Result<Option<Request>, String>)
        requires
            old(state).wf(),
        ensures
            final(state).wf(),
            redo_done(old(state), final(state), r),
    {
        proof {
            state.lemma_selected();
        }
        let b = state.selected_window_buffer();
        let r = state.buffers[b].redo();
        proof {
            state.lemma_buffer_kept(old(state), b as int);
        }
        match r {
            Ok(_) => Ok(None),
            Err(e) => Err(e),
        }
    }
}

/// What running `ToggleReadOnly` from `a` to `b` with result `r` does.
pub open spec fn toggle_read_only_done(a: &State, b: &State, r: Result<Option<Request>, String>) -> bool {
    &&& r matches Ok(None)
    &&& buffer_replaced(a, b, b.buffers@[a.selected_buffer() as int])
    &&& b.buffers@[a.selected_buffer() as int].same_but_read_only(&sel_buffer(a))
    &&& b.buffers@[a.selected_buffer() as int].spec_read_only() == !sel_buffer(a).spec_read_only()
}

/// Makes the selected window's buffer read-only, or writable again.
pub struct ToggleReadOnly;

impl ToggleReadOnly {
    pub fn execute(&self, state: &mut State) -> (r: Result<Option<Request>, String>)
        requires
            old(state).wf(),
        ensures
            final(state).wf(),
            toggle_read_only_done(old(state), final(state), r),
    {
        proof {
            state.lemma_selected();
        }
        let b = state.selected_window_buffer();
        let ro = state.buffers[b].is_read_only();
        state.buffers[b].set_read_only(!ro);
        proof {
            state.lemma_buffer_kept(old(state), b as int);
        }
        Ok(None)
    }
}

/// What running `CloseTedCommand` from `a` to `b` with result `r` does.
pub open spec fn close_ted_done(a: &State, b: &State, r: Result<Option<Request>, String>) -> bool {
    &&& error_is(r, CLOSED_SUCCESSFULLY)
    &&& b.closed_successfully
    &&& b.buffers@ == a.buffers@
    &&& b.windows@ == a.windows@
    &&& b.display.frames@ == a.display.frames@
    &&& b.display.selected_frame == a.display.selected_frame
    &&& b.key_maps@ == a.key_maps@
    &&& b.modes@ == a.modes@
    &&& b.global_modes@ == a.global_modes@
    &&& b.default_key_map == a.default_key_map
    &&& b.git_mode == a.git_mode
}

/// Asks the editor to close: the state records it, and the command fails
/// with the message `Closed Successfully`, which ends the main loop.
pub struct CloseTedCommand;

impl CloseTedCommand {
    pub fn execute(&self, state: &mut State) -> (r: Result<Option<Request>, String>)
        requires
            old(state).wf(),
        ensures
            final(state).wf(),
            close_ted_done(old(state), final(state), r),
    {
        state.closed_successfully = true;
        proof {
            assert forall|f: int| 0 <= f < state.display.frames@.len() implies #[trigger] state.frame_ok(
                state.display.frames@[f],
            ) by {
                assert(old(state).frame_ok(state.display.frames@[f]));
            }
        }
        Err(String::from_str(CLOSED_SUCCESSFULLY))
    }
}

/// Whether the editor was asked to close.
pub fn was_closed_successfully(state: &State) -> (r: bool)
    ensures
        r == state.closed_successfully,
{
    state.closed_successfully
}

/// `b` is `a` with the selected frame replaced by `f`; the windows may
/// have grown.
pub open spec fn frame_replaced(a: &State, b: &State, f: Frame) -> bool {
    &&& b.display.frames@ == a.display.frames@.update(a.display.selected_frame as int, f)
    &&& b.display.selected_frame == a.display.selected_frame
    &&& b.buffers@ == a.buffers@
    &&& b.key_maps@ == a.key_maps@
    &&& b.modes@ == a.modes@
    &&& b.default_key_map == a.default_key_map
    &&& b.global_modes@ == a.global_modes@
    &&& b.closed_successfully == a.closed_successfully
    &&& b.logger == a.logger
    &&& b.git_mode == a.git_mode
}

/// The selected frame of `b`.
pub open spec fn new_frame(a: &State, b: &State) -> Frame {
    b.display.frames@[a.display.selected_frame as int]
}

impl State {
    /// Well-formedness survives replacing the selected frame by a good one,
    /// with the windows kept or grown.
    pub proof fn lemma_frame_kept(&self, old: &State)
        requires
            old.wf(),
            self.windows@.len() >= old.windows@.len(),
            self.windows@.take(old.windows@.len() as int) == old.windows@,
            forall|w: int| old.windows@.len() <= w < self.windows@.len() ==> #[trigger] self.windows@[w].wf()
                && self.windows@[w].buffer < self.buffers@.len(),
            frame_replaced(old, self, self.display.frames@[old.display.selected_frame as int]),
            self.frame_ok(self.display.frames@[old.display.selected_frame as int]),
        ensures
            self.wf(),
    {
        assert forall|f: int| 0 <= f < self.display.frames@.len() implies #[trigger] self.frame_ok(
            self.display.frames@[f],
        ) by {
            if f != old.display.selected_frame {
                assert(old.frame_ok(old.display.frames@[f]));
            }
        }
        assert forall|b: int| 0 <= b < self.buffers@.len() implies #[trigger] self.buffers@[b].wf() by {
            assert(old.buffers@[b].wf());
        }
        assert forall|w: int| 0 <= w < self.windows@.len() implies #[trigger] self.windows@[w].wf()
            && self.windows@[w].buffer < self.buffers@.len() by {
            if w < old.windows@.len() {
                assert(self.windows@[w] == self.windows@.take(old.windows@.len() as int)[w]);
                assert(old.windows@[w].wf());
            }
        }
    }
}

/// The outcome of splitting the selected window: a new window onto the
/// same buffer, with the same cursor, takes the second half of its place;
/// the selected window stays selected.
pub open spec fn split_outcome(a: &State, b: &State, vertical: bool) -> bool {
    let w = a.selected();
    let n = a.windows@.len() as usize;
    let f = a.frame();
    let part = if vertical {
        Layout::VSplit { left: Box::new(Layout::Window(w)), right: Box::new(Layout::Window(n)) }
    } else {
        Layout::HSplit { top: Box::new(Layout::Window(w)), bottom: Box::new(Layout::Window(n)) }
    };
    &&& b.windows@.len() == a.windows@.len() + 1
    &&& b.windows@.take(a.windows@.len() as int) == a.windows@
    &&& b.windows@[n as int].buffer == sel_window(a).buffer
    &&& b.windows@[n as int].cursor == sel_window(a).cursor
    &&& b.windows@[n as int].window_modes@.len() == 0
    &&& b.windows@[n as int].mark is None
    &&& b.windows@[n as int].kill_ring.texts().len() == 0
    &&& frame_replaced(a, b, Frame { layout: f.layout.replaced(w, part), ..f })
}

fn split(state: &mut State, vertical: bool)
    requires
        old(state).wf(),
    ensures
        final(state).wf(),
        split_outcome(old(state), final(state), vertical),
{
    proof {
        state.lemma_selected();
    }
    let w = state.selected_window();
    let nw = clone_window(&state.windows[w]);
    let id = state.add_window(nw);
    let f = state.display.selected_frame;
    let part = if vertical {
        Layout::VSplit { left: Box::new(Layout::Window(w)), right: Box::new(Layout::Window(id)) }
    } else {
        Layout::HSplit { top: Box::new(Layout::Window(w)), bottom: Box::new(Layout::Window(id)) }
    };
    let ghost frame0 = state.display.frames@[f as int];
    let ghost partv = part;
    proof {
        assert(Layout::Window(w).windows() == seq![w]);
        assert(Layout::Window(id).windows() == seq![id]);
        assert(part.windows() =~= seq![w, id]);
    }
    state.display.frames[f].layout.replace_selected_window(w, part);
    proof {
        assert(old(state).frame_ok(frame0));
        lemma_split_keeps(frame0.layout, w, id, partv);
        assert(state.windows@.take(old(state).windows@.len() as int) =~= old(state).windows@);
        assert(new_frame(old(state), state) == Frame { layout: frame0.layout.replaced(w, partv), ..frame0 });
        assert(state.display.frames@ =~= old(state).display.frames@.update(f as int, state.display.frames@[f as int]));
        assert(state.frame_ok(new_frame(old(state), state)));
        state.lemma_frame_kept(old(state));
    }
}

/// What running `VerticalSplitCommand` from `a` to `b` with result `r` does.
pub open spec fn vertical_split_done(a: &State, b: &State, r: Result<Option<Request>, String>) -> bool {
    &&& r matches Ok(None)
    &&& split_outcome(a, b, true)
}

/// Splits the selected window into a left and a right part.
pub struct VerticalSplitCommand;

impl VerticalSplitCommand {
    pub fn execute(&self, state: &mut State) -> (r: Result<Option<Request>, String>)
        requires
            old(state).wf(),
        ensures
            final(state).wf(),
            vertical_split_done(old(state), final(state), r),
    {
        split(state, true);
        Ok(None)
    }
}

/// What running `HorizontalSplitCommand` from `a` to `b` with result `r` does.
pub open spec fn horizontal_split_done(a: &State, b: &State, r: Result<Option<Request>, String>) -> bool {
    &&& r matches Ok(None)
    &&& split_outcome(a, b, false)
}

/// Splits the selected window into a top and a bottom part.
pub struct HorizontalSplitCommand;

impl HorizontalSplitCommand {
    pub fn execute(&self, state: &mut State) -> (r: Result<Option<Request>, String>)
        requires
            old(state).wf(),
        ensures
            final(state).wf(),
            horizontal_split_done(old(state), final(state), r),
    {
        split(state, false);
        Ok(None)
    }
}

/// What running `CloseWindowCommand` from `a` to `b` with result `r` does.
pub open spec fn close_window_done(a: &State, b: &State, r: Result<Option<Request>, String>) -> bool {
    &&& r matches Ok(None)
    &&& b.windows@ == a.windows@
    &&& frame_replaced( a, b, Frame { layout: closed(a.frame().layout, a.selected()).1, selected_window: closed(a.frame().layout, a.selected()).2, ..a.frame() }, )
}

/// Closes the selected window (see `close_window`).
pub struct CloseWindowCommand;

impl CloseWindowCommand {
    pub fn execute(&self, state: &mut State) -> (r: Result<Option<Request>, String>)
        requires
            old(state).wf(),
        ensures
            final(state).wf(),
            close_window_done(old(state), final(state), r),
    {
        proof {
            state.lemma_selected();
        }
        let f = state.display.selected_frame;
        let ghost frame0 = state.display.frames@[f as int];
        let mut layout = Layout::Window(0);
        let mut selected = state.display.frames[f].selected_window;
        std::mem::swap(&mut layout, &mut state.display.frames[f].layout);
        let ghost l0 = layout;
        close_window(&mut layout, &mut selected);
        std::mem::swap(&mut layout, &mut state.display.frames[f].layout);
        state.display.frames[f].selected_window = selected;
        proof {
            assert(old(state).frame_ok(frame0));
            assert(l0 == frame0.layout);
            lemma_close_window_keeps(frame0.layout, frame0.selected_window);
            let nf = new_frame(old(state), state);
            assert(nf == Frame {
                layout: closed(frame0.layout, frame0.selected_window).1,
                selected_window: closed(frame0.layout, frame0.selected_window).2,
                ..frame0
            });
            assert forall|i: int| 0 <= i < nf.layout.windows().len() implies #[trigger] nf.layout.windows()[i]
                < state.windows@.len() by {
                assert(nf.layout.windows().contains(nf.layout.windows()[i]));
                assert(frame0.layout.windows().contains(nf.layout.windows()[i]));
            }
            if nf.selected_window != frame0.selected_window {
                let j = choose|j: int| 0 <= j < nf.layout.windows().len() && nf.layout.windows()[j] == nf.selected_window;
                assert(nf.layout.windows()[j] < state.windows@.len());
            }
            assert(state.frame_ok(nf));
            assert(state.display.frames@ =~= old(state).display.frames@.update(f as int, nf));
            assert(state.windows@.take(old(state).windows@.len() as int) =~= old(state).windows@);
            state.lemma_frame_kept(old(state));
        }
        Ok(None)
    }
}

/// What running `CloseOtherWindowsCommand` from `a` to `b` with result `r` does.
pub open spec fn close_other_windows_done(a: &State, b: &State, r: Result<Option<Request>, String>) -> bool {
    &&& r matches Ok(None)
    &&& b.windows@ == a.windows@
    &&& frame_replaced( a, b, Frame { layout: Layout::Window(a.selected()), ..a.frame() }, )
}

/// Leaves only the selected window in the layout.
pub struct CloseOtherWindowsCommand;

impl CloseOtherWindowsCommand {
    pub fn execute(&self, state: &mut State) -> (r: Result<Option<Request>, String>)
        requires
            old(state).wf(),
        ensures
            final(state).wf(),
            close_other_windows_done(old(state), final(state), r),
    {
        proof {
            state.lemma_selected();
        }
        let f = state.display.selected_frame;
        let w = state.display.frames[f].selected_window;
        let ghost frame0 = state.display.frames@[f as int];
        state.display.frames[f].layout = Layout::Window(w);
        proof {
            assert(old(state).frame_ok(frame0));
            let nf = new_frame(old(state), state);
            assert(nf == Frame { layout: Layout::Window(w), ..frame0 });
            assert(nf.layout.windows() == seq![w]);
            assert(state.display.frames@ =~= old(state).display.frames@.update(f as int, nf));
            assert(state.frame_ok(nf));
            assert(state.display.frames@ =~= old(state).display.frames@.update(f as int, nf));
            assert(state.windows@.take(old(state).windows@.len() as int) =~= old(state).windows@);
            state.lemma_frame_kept(old(state));
        }
        Ok(None)
    }
}

/// Selects the window after the selected one, going clockwise.
fn other_window(state: &mut State, clockwise_way: bool)
    requires
        old(state).wf(),
    ensures
        final(state).wf(),
        final(state).windows@ == old(state).windows@,
        frame_replaced(
            old(state),
            final(state),
            Frame {
                selected_window: if clockwise_way {
                    clockwise(old(state).frame().layout, old(state).selected(), true).1
                } else {
                    counter_clockwise(old(state).frame().layout, old(state).selected(), true).1
                },
                ..old(state).frame()
            },
        ),
{
    proof {
        state.lemma_selected();
    }
    let f = state.display.selected_frame;
    let ghost frame0 = state.display.frames@[f as int];
    let mut selected = state.display.frames[f].selected_window;
    if clockwise_way {
        other_window_clockwise(&state.display.frames[f].layout, &mut selected);
    } else {
        other_window_counter_clockwise(&state.display.frames[f].layout, &mut selected);
    }
    state.display.frames[f].selected_window = selected;
    proof {
        assert(old(state).frame_ok(frame0));
        lemma_other_window_in(frame0.layout, frame0.selected_window);
        let nf = new_frame(old(state), state);
        assert(nf == Frame { selected_window: selected, ..frame0 });
        if nf.selected_window != frame0.selected_window {
            let j = choose|j: int| 0 <= j < nf.layout.windows().len() && nf.layout.windows()[j] == nf.selected_window;
            assert(nf.layout.windows()[j] < state.windows@.len());
        }
        assert(state.frame_ok(nf));
        assert(state.display.frames@ =~= old(state).display.frames@.update(f as int, nf));
        assert(state.windows@.take(old(state).windows@.len() as int) =~= old(state).windows@);
        state.lemma_frame_kept(old(state));
    }
}

/// What running `OtherWindowClockwiseCommand` from `a` to `b` with result `r` does.
pub open spec fn other_window_clockwise_done(a: &State, b: &State, r: Result<Option<Request>, String>) -> bool {
    &&& r matches Ok(None)
    &&& b.windows@ == a.windows@
    &&& frame_replaced( a, b, Frame { selected_window: clockwise(a.frame().layout, a.selected(), true).1, ..a.frame() }, )
}

/// Selects the next window, going clockwise.
pub struct OtherWindowClockwiseCommand;

impl OtherWindowClockwiseCommand {
    pub fn execute(&self, state: &mut State) -> (r: Result<Option<Request>, String>)
        requires
            old(state).wf(),
        ensures
            final(state).wf(),
            other_window_clockwise_done(old(state), final(state), r),
    {
        other_window(state, true);
        Ok(None)
    }
}

/// What running `OtherWindowCounterClockwiseCommand` from `a` to `b` with result `r` does.
pub open spec fn other_window_counter_clockwise_done(a: &State, b: &State, r: Result<Option<Request>, String>) -> bool {
    &&& r matches Ok(None)
    &&& b.windows@ == a.windows@
    &&& frame_replaced( a, b, Frame { selected_window: counter_clockwise(a.frame().layout, a.selected(), true).1, ..a.frame() }, )
}

/// Selects the previous window, going counter clockwise.
pub struct OtherWindowCounterClockwiseCommand;

impl OtherWindowCounterClockwiseCommand {
    pub fn execute(&self, state: &mut State) -> (r: Result<Option<Request>, String>)
        requires
            old(state).wf(),
        ensures
            final(state).wf(),
            other_window_counter_clockwise_done(old(state), final(state), r),
    {
        other_window(state, false);
        Ok(None)
    }
}

/// What running `SetMarkCommand` from `a` to `b` with result `r` does.
pub open spec fn set_mark_done(a: &State, b: &State, r: Result<Option<Request>, String>) -> bool {
    &&& r matches Ok(None)
    &&& window_replaced( a, b, Window { mark: Some(sel_window(a).cursor), ..sel_window(a) }, )
}

/// Marks the cursor as the other end of the region.
pub struct SetMarkCommand;

impl SetMarkCommand {
    pub fn execute(&self, state: &mut State) -> (r: Result<Option<Request>, String>)
        requires
            old(state).wf(),
        ensures
            final(state).wf(),
            set_mark_done(old(state), final(state), r),
    {
        proof {
            state.lemma_selected();
        }
        let w = state.selected_window();
        let c = state.windows[w].cursor;
        state.windows[w].mark = Some(c);
        proof {
            state.lemma_windows_kept(old(state), w as int);
        }
        Ok(None)
    }
}

/// What running `RemoveMarkCommand` from `a` to `b` with result `r` does.
pub open spec fn remove_mark_done(a: &State, b: &State, r: Result<Option<Request>, String>) -> bool {
    &&& r matches Ok(None)
    &&& window_replaced(a, b, Window { mark: None, ..sel_window(a) })
}

/// Forgets the mark.
pub struct RemoveMarkCommand;

impl RemoveMarkCommand {
    pub fn execute(&self, state: &mut State) -> (r: Result<Option<Request>, String>)
        requires
            old(state).wf(),
        ensures
            final(state).wf(),
            remove_mark_done(old(state), final(state), r),
    {
        proof {
            state.lemma_selected();
        }
        let w = state.selected_window();
        state.windows[w].mark = None;
        proof {
            state.lemma_windows_kept(old(state), w as int);
        }
        Ok(None)
    }
}

/// What running `PastePopCommand` from `a` to `b` with result `r` does.
pub open spec fn paste_pop_done(a: &State, b: &State, r: Result<Option<Request>, String>) -> bool {
    &&& r matches Ok(None)
    &&& window_replaced(a, b, b.windows@[a.selected() as int])
    &&& {
        let w = sel_window(a);
        let w2 = b.windows@[a.selected() as int];
        &&& w2.cursor == w.cursor
        &&& w2.mark == w.mark
        &&& w2.buffer == w.buffer
        &&& w2.window_modes@ == w.window_modes@
        &&& w2.kill_ring.texts() == w.kill_ring.texts()
        &&& w.kill_ring.texts().len() > 0 ==> w2.kill_ring.position() == (w.kill_ring.position() - 1) % (
        w.kill_ring.texts().len() as int)
    }
}

/// Makes the text before the one to paste the one to paste, round the
/// killed texts.
pub struct PastePopCommand;

impl PastePopCommand {
    pub fn execute(&self, state: &mut State) -> (r: Result<Option<Request>, String>)
        requires
            old(state).wf(),
        ensures
            final(state).wf(),
            paste_pop_done(old(state), final(state), r),
    {
        proof {
            state.lemma_selected();
        }
        let w = state.selected_window();
        paste_pop(&mut state.windows[w], 1);
        proof {
            state.lemma_windows_kept(old(state), w as int);
        }
        Ok(None)
    }
}

/// Where the region's ends stand once brought up to date, computed.
fn updated_region(window: &Window, buffer: &Buffer) -> (r: (usize, usize))
    requires
        buffer.wf(),
    ensures
        r.0 == region_start(window, buffer),
        r.1 == region_end(window, buffer),
{
    let (start, end) = get_region(window);
    (start.updated(buffer).get(), end.updated(buffer).get())
}

/// What running `CopyRegionCommand` from `a` to `b` with result `r` does.
pub open spec fn copy_region_done(a: &State, b: &State, r: Result<Option<Request>, String>) -> bool {
    let w = sel_window(a);
    let buf = sel_buffer(a);
    let w2 = b.windows@[a.selected() as int];
    let start = region_start(&w, &buf);
    let end = region_end(&w, &buf);
    &&& start > end ==> error_is(r, ERROR_REGION_CROSSED) && *b == *a
    &&& start <= end && w.kill_ring.texts().len() == usize::MAX ==> error_is(r, ERROR_KILL_RING_FULL) && *b == *a
    &&& start <= end && w.kill_ring.texts().len() < usize::MAX ==> {
        &&& r matches Ok(None)
        &&& window_replaced(a, b, w2)
        &&& w2.cursor == w.cursor && w2.mark == w.mark && w2.buffer == w.buffer
        &&& w2.window_modes@ == w.window_modes@
        &&& w2.kill_ring.texts() == w.kill_ring.texts().push(
            buf@.subrange(clamp(start, buf@.len()), clamp(end, buf@.len())),
        )
        &&& w2.kill_ring.position() == w.kill_ring.texts().len()
    }
}

/// Keeps the text of the region for pasting.
pub struct CopyRegionCommand;

impl CopyRegionCommand {
    pub fn execute(&self, state: &mut State) -> (r: Result<Option<Request>, String>)
        requires
            old(state).wf(),
        ensures
            final(state).wf(),
            copy_region_done(old(state), final(state), r),
    {
        proof {
            state.lemma_selected();
        }
        let w = state.selected_window();
        let b = state.windows[w].buffer;
        let (start, end) = updated_region(&state.windows[w], &state.buffers[b]);
        if start > end {
            return Err(String::from_str(ERROR_REGION_CROSSED));
        }
        if state.windows[w].kill_ring.len() == usize::MAX {
            return Err(String::from_str(ERROR_KILL_RING_FULL));
        }
        copy_region(&mut state.windows[w], &state.buffers[b]);
        proof {
            state.lemma_windows_kept(old(state), w as int);
        }
        Ok(None)
    }
}

/// What running `KillRegionCommand` from `a` to `b` with result `r` does.
pub open spec fn kill_region_done(a: &State, b: &State, r: Result<Option<Request>, String>) -> bool {
    let w = sel_window(a);
    let buf = sel_buffer(a);
    let w2 = b.windows@[a.selected() as int];
    let buf2 = b.buffers@[a.selected_buffer() as int];
    let start = region_start(&w, &buf);
    let end = region_end(&w, &buf);
    let fits = start <= end && !buf.spec_read_only() && start <= buf@.len();
    &&& start > end ==> error_is(r, ERROR_REGION_CROSSED) && *b == *a
    &&& start <= end && buf.spec_read_only() ==> error_is(r, ERROR_READ_ONLY) && *b == *a
    &&& start <= end && !buf.spec_read_only() && start > buf@.len() ==> error_is(
        r,
        ERROR_DELETE_REGION_OUT_OF_BOUNDS,
    ) && *b == *a
    &&& fits && w.kill_ring.texts().len() == usize::MAX ==> error_is(r, ERROR_KILL_RING_FULL) && *b == *a
    &&& fits && w.kill_ring.texts().len() < usize::MAX ==> {
        &&& r matches Ok(None)
        &&& window_buffer_replaced(a, b, w2, buf2)
        &&& delete_region_outcome(&buf, &buf2, start as usize, end as usize, Ok(()))
        &&& w2.cursor.location() == buf2.updated_location(w.cursor.node(), w.cursor.location())
        &&& w2.cursor.node() == buf2.updated_state(w.cursor.node())
        &&& w2.mark == w.mark && w2.buffer == w.buffer && w2.window_modes@ == w.window_modes@
        &&& w2.kill_ring.texts() == w.kill_ring.texts().push(buf@.subrange(start, clamp(end, buf@.len())))
        &&& w2.kill_ring.position() == w.kill_ring.texts().len()
    }
}

/// Deletes the region, keeps its text for pasting, and brings the cursor
/// up to date.
pub struct KillRegionCommand;

impl KillRegionCommand {
    pub fn execute(&self, state: &mut State) -> (r: Result<Option<Request>, String>)
        requires
            old(state).wf(),
        ensures
            final(state).wf(),
            kill_region_done(old(state), final(state), r),
    {
        proof {
            state.lemma_selected();
        }
        let w = state.selected_window();
        let b = state.windows[w].buffer;
        let (start, end) = updated_region(&state.windows[w], &state.buffers[b]);
        if start > end {
            return Err(String::from_str(ERROR_REGION_CROSSED));
        }
        if state.buffers[b].is_read_only() {
            return Err(String::from_str(ERROR_READ_ONLY));
        }
        if start > state.buffers[b].len() {
            return Err(String::from_str(ERROR_DELETE_REGION_OUT_OF_BOUNDS));
        }
        if state.windows[w].kill_ring.len() == usize::MAX {
            return Err(String::from_str(ERROR_KILL_RING_FULL));
        }
        kill_region(&mut state.windows[w], &mut state.buffers[b]);
        let ghost w1 = state.windows@[w as int];
        state.windows[w].update_cursor(&state.buffers[b]);
        proof {
            assert(state.windows@ =~= old(state).windows@.update(w as int, state.windows@[w as int]));
            assert(state.windows@[w as int].cursor_follows(&w1, &state.buffers@[b as int]));
            assert(w1.cursor == sel_window(old(state)).cursor);
            state.lemma_window_buffer_kept(old(state), w as int, b as int);
        }
        Ok(None)
    }
}

/// What running `PasteCommand` from `a` to `b` with result `r` does.
pub open spec fn paste_done(a: &State, b: &State, r: Result<Option<Request>, String>) -> bool {
    let w = sel_window(a);
    let buf = sel_buffer(a);
    let w2 = b.windows@[a.selected() as int];
    let buf2 = b.buffers@[a.selected_buffer() as int];
    let at = buf.updated_location(w.cursor.node(), w.cursor.location());
    let n = w.kill_ring.texts().len();
    let text = w.kill_ring.texts()[w.kill_ring.position() as int];
    &&& n > 0 && buf.spec_read_only() ==> error_is(r, ERROR_READ_ONLY) && *b == *a
    &&& n > 0 && !buf.spec_read_only() && at > buf@.len() ==> error_is(r, ERROR_INSERT_STR_OUT_OF_BOUNDS)
        && *b == *a
    &&& n > 0 && !buf.spec_read_only() && at <= buf@.len() && buf@.len() + text.len() > usize::MAX ==> error_is(
        r,
        ERROR_BUFFER_FULL,
    ) && *b == *a
    &&& n == 0 || (!buf.spec_read_only() && at <= buf@.len() && buf@.len() + text.len() <= usize::MAX) ==> {
        &&& r matches Ok(None)
        &&& window_buffer_replaced(a, b, w2, buf2)
        &&& n == 0 ==> buf2 == buf
        &&& n > 0 ==> insert_outcome(&buf, &buf2, at as usize, text, ERROR_INSERT_STR_OUT_OF_BOUNDS, Ok(()))
        &&& w2.cursor_follows(&w, &buf2)
    }
}

/// Inserts the text to paste at the cursor, then brings the cursor up to
/// date.
pub struct PasteCommand;

impl PasteCommand {
    pub fn execute(&self, state: &mut State) -> (r: Result<Option<Request>, String>)
        requires
            old(state).wf(),
        ensures
            final(state).wf(),
            paste_done(old(state), final(state), r),
    {
        proof {
            state.lemma_selected();
        }
        let w = state.selected_window();
        let b = state.windows[w].buffer;
        if state.windows[w].kill_ring.len() > 0 {
            if state.buffers[b].is_read_only() {
                return Err(String::from_str(ERROR_READ_ONLY));
            }
            let at = state.windows[w].cursor.updated(&state.buffers[b]).get();
            let len = state.buffers[b].len();
            if at > len {
                return Err(String::from_str(ERROR_INSERT_STR_OUT_OF_BOUNDS));
            }
            let n = state.windows[w].kill_ring.current().as_str().unicode_len();
            if n > usize::MAX - len {
                return Err(String::from_str(ERROR_BUFFER_FULL));
            }
        }
        paste(&state.windows[w], &mut state.buffers[b]);
        state.windows[w].update_cursor(&state.buffers[b]);
        proof {
            state.lemma_window_buffer_kept(old(state), w as int, b as int);
        }
        Ok(None)
    }
}

/// What running `OpenFileCommand` from `a` to `b` with result `r` does.
pub open spec fn open_file_done(a: &State, b: &State, r: Result<Option<Request>, String>) -> bool {
    &&& *b == *a
    &&& r matches Ok(Some(Request::OpenFile(p))) && p@ == OPEN_FILE_PATH@
}

/// Asks for the file `OPEN_FILE_PATH` to be opened in the selected window.
pub struct OpenFileCommand;

impl OpenFileCommand {
    pub fn execute(&self, state: &mut State) -> (r: Result<Option<Request>, String>)
        requires
            old(state).wf(),
        ensures
            final(state).wf(),
            open_file_done(old(state), final(state), r),
    {
        Ok(Some(Request::OpenFile(String::from_str(OPEN_FILE_PATH))))
    }
}

/// What running `SaveFileCommand` from `a` to `b` with result `r` does.
pub open spec fn save_file_done(a: &State, b: &State, r: Result<Option<Request>, String>) -> bool {
    &&& *b == *a
    &&& match sel_buffer(a).spec_name().path {
        Some(p) => r matches Ok(Some(Request::SaveFile { path, contents })) && path == p && contents@ == sel_buffer(
            a,
        )@,
        None => error_is(r, ERROR_NO_FILE_PATH),
    }
}

/// Asks for the selected buffer to be written to its file.
pub struct SaveFileCommand;

impl SaveFileCommand {
    pub fn execute(&self, state: &mut State) -> (r: Result<Option<Request>, String>)
        requires
            old(state).wf(),
        ensures
            final(state).wf(),
            save_file_done(old(state), final(state), r),
    {
        proof {
            state.lemma_selected();
        }
        let b = state.selected_window_buffer();
        let buffer = &state.buffers[b];
        match &buffer.name().path {
            Some(p) => Ok(Some(Request::SaveFile { path: p.clone(), contents: buffer.to_string() })),
            None => Err(String::from_str(ERROR_NO_FILE_PATH)),
        }
    }
}

/// What asking to open the git repository of the selected buffer gives:
/// the directory of its file, or an error where it shows no file.
pub open spec fn open_repository_request(a: &State, r: Result<Option<Request>, String>, spaced: bool) -> bool {
    match sel_buffer(a).spec_name().path {
        Some(p) => match spec_path_parent(p@) {
            Some(d) => r matches Ok(Some(Request::GitOpenRepository { path, spaced: sp })) && path@ == d && sp
                == spaced,
            None => error_is(r, ERROR_CANNOT_OPEN_GIT_REPOSITORY),
        },
        None => error_is(r, ERROR_CANNOT_OPEN_GIT_REPOSITORY),
    }
}

fn open_repository(state: &State, spaced: bool) -> (r: Result<Option<Request>, String>)
    requires
        state.wf(),
    ensures
        open_repository_request(state, r, spaced),
{
    proof {
        state.lemma_selected();
    }
    let b = state.selected_window_buffer();
    match state.buffers[b].name().parent() {
        Some(path) => Ok(Some(Request::GitOpenRepository { path, spaced })),
        None => Err(String::from_str(ERROR_CANNOT_OPEN_GIT_REPOSITORY)),
    }
}

/// What running `OpenGitRepository` from `a` to `b` with result `r` does.
pub open spec fn open_git_repository_done(a: &State, b: &State, r: Result<Option<Request>, String>) -> bool {
    &&& *b == *a
    &&& open_repository_request(a, r, true)
}

/// Asks for the git repository around the selected buffer's file to be
/// listed in the selected window, with spaced headings.
pub struct OpenGitRepository;

impl OpenGitRepository {
    pub fn execute(&self, state: &mut State) -> (r: Result<Option<Request>, String>)
        requires
            old(state).wf(),
        ensures
            final(state).wf(),
            open_git_repository_done(old(state), final(state), r),
    {
        open_repository(state, true)
    }
}

/// What running `GitOpenRepositoryCommand` from `a` to `b` with result `r` does.
pub open spec fn git_open_repository_done(a: &State, b: &State, r: Result<Option<Request>, String>) -> bool {
    &&& *b == *a
    &&& open_repository_request(a, r, false)
}

/// Asks for the git repository around the selected buffer's file to be
/// listed in the selected window.
pub struct GitOpenRepositoryCommand;

impl GitOpenRepositoryCommand {
    pub fn execute(&self, state: &mut State) -> (r: Result<Option<Request>, String>)
        requires
            old(state).wf(),
        ensures
            final(state).wf(),
            git_open_repository_done(old(state), final(state), r),
    {
        open_repository(state, false)
    }
}

/// What asking to refresh the listing in the selected buffer gives: the
/// repository it shows, or an error where it shows none.
pub open spec fn refresh_request(a: &State, r: Result<Option<Request>, String>, spaced: bool) -> bool {
    match sel_buffer(a).spec_name().path {
        Some(p) => r matches Ok(Some(Request::GitRefreshRepository { path, buffer, spaced: sp })) && path == p
            && buffer == a.selected_buffer() && sp == spaced,
        None => error_is(r, ERROR_FILE_PATH_NONE),
    }
}

fn refresh_repository(state: &State, spaced: bool) -> (r: Result<Option<Request>, String>)
    requires
        state.wf(),
    ensures
        refresh_request(state, r, spaced),
{
    proof {
        state.lemma_selected();
    }
    let b = state.selected_window_buffer();
    match &state.buffers[b].name().path {
        Some(p) => Ok(Some(Request::GitRefreshRepository { path: p.clone(), buffer: b, spaced })),
        None => Err(String::from_str(ERROR_FILE_PATH_NONE)),
    }
}

/// What running `RefreshGitRepository` from `a` to `b` with result `r` does.
pub open spec fn refresh_git_repository_done(a: &State, b: &State, r: Result<Option<Request>, String>) -> bool {
    &&& *b == *a
    &&& refresh_request(a, r, true)
}

/// Asks for the listing in the selected buffer to be made again, with
/// spaced headings.
pub struct RefreshGitRepository;

impl RefreshGitRepository {
    pub fn execute(&self, state: &mut State) -> (r: Result<Option<Request>, String>)
        requires
            old(state).wf(),
        ensures
            final(state).wf(),
            refresh_git_repository_done(old(state), final(state), r),
    {
        refresh_repository(state, true)
    }
}

/// What running `GitRefreshRepositoryCommand` from `a` to `b` with result `r` does.
pub open spec fn git_refresh_repository_done(a: &State, b: &State, r: Result<Option<Request>, String>) -> bool {
    &&& *b == *a
    &&& refresh_request(a, r, false)
}

/// Asks for the listing in the selected buffer to be made again.
pub struct GitRefreshRepositoryCommand;

impl GitRefreshRepositoryCommand {
    pub fn execute(&self, state: &mut State) -> (r: Result<Option<Request>, String>)
        requires
            old(state).wf(),
        ensures
            final(state).wf(),
            git_refresh_repository_done(old(state), final(state), r),
    {
        refresh_repository(state, false)
    }
}

/// Whether the selected buffer is in the git mode.
pub open spec fn in_git_mode(a: &State) -> bool {
    a.git_mode matches Some(g) && sel_buffer(a).spec_modes().contains(g)
}

/// The file on the cursor's line of the selected listing, for a command
/// that fails with `path_error` where the buffer shows no repository: its
/// path, or the error; the cursor must stand within the text.
pub open spec fn highlighted(a: &State, path_error: &str) -> Result<(Seq<char>, bool), Seq<char>> {
    let buf = sel_buffer(a);
    let c = sel_window(a).cursor.location();
    if buf.spec_name().path is None {
        Err(path_error@)
    } else if c > buf@.len() {
        Err(ERROR_CURSOR_OUT_OF_BOUNDS@)
    } else if buf@.len() + c > usize::MAX {
        Err(ERROR_BUFFER_FULL@)
    } else {
        spec_highlighted_file(buf@, c as int, in_git_mode(a))
    }
}

/// The repository of the selected listing and the file on the cursor's
/// line, with whether it is staged.
fn highlighted_exec(state: &State, path_error: &str) -> (r: Result<(String, String, bool), String>)
    requires
        state.wf(),
    ensures
        match highlighted(state, path_error) {
            Ok((f, st)) => r matches Ok((p, file, staged)) && Some(p) == sel_buffer(state).spec_name().path
                && file@ == f && staged == st,
            Err(e) => r matches Err(x) && x@ == e,
        },
{
    proof {
        state.lemma_selected();
    }
    let w = state.selected_window();
    let b = state.windows[w].buffer;
    let buffer = &state.buffers[b];
    let path = match &buffer.name().path {
        Some(p) => p.clone(),
        None => {
            return Err(String::from_str(path_error));
        },
    };
    let c = state.windows[w].cursor.get();
    if c > buffer.len() {
        return Err(String::from_str(ERROR_CURSOR_OUT_OF_BOUNDS));
    }
    if buffer.len() > usize::MAX - c {
        return Err(String::from_str(ERROR_BUFFER_FULL));
    }
    let mode = match state.git_mode {
        Some(g) => g,
        None => {
            proof {
                assert(!in_git_mode(state));
            }
            return Err(String::from_str(ERROR_NOT_IN_GIT_MODE));
        },
    };
    match get_highlighted_file(buffer, c, mode) {
        Ok((file, staged)) => Ok((path, file, staged)),
        Err(e) => Err(e),
    }
}

/// What running `GitAddCommand` from `a` to `b` with result `r` does.
pub open spec fn git_add_done(a: &State, b: &State, r: Result<Option<Request>, String>) -> bool {
    &&& *b == *a
    &&& match highlighted(a, ERROR_CANNOT_OPEN_GIT_REPOSITORY) {
        Ok((f, false)) => r matches Ok(Some(Request::GitAdd { path, file, buffer })) && Some(path) == sel_buffer(
            a,
        ).spec_name().path && file@ == f && buffer == a.selected_buffer(),
        Ok((_, true)) => error_is(r, ERROR_STAGED),
        Err(e) => r matches Err(x) && x@ == e,
    }
}

/// Asks for the unstaged file on the cursor's line to be staged.
pub struct GitAddCommand;

impl GitAddCommand {
    pub fn execute(&self, state: &mut State) -> (r: Result<Option<Request>, String>)
        requires
            old(state).wf(),
        ensures
            final(state).wf(),
            git_add_done(old(state), final(state), r),
    {
        let (path, file, staged) = highlighted_exec(state, ERROR_CANNOT_OPEN_GIT_REPOSITORY)?;
        if staged {
            return Err(String::from_str(ERROR_STAGED));
        }
        let buffer = state.selected_window_buffer();
        Ok(Some(Request::GitAdd { path, file, buffer }))
    }
}

/// What running `GitUnstageCommand` from `a` to `b` with result `r` does.
pub open spec fn git_unstage_done(a: &State, b: &State, r: Result<Option<Request>, String>) -> bool {
    &&& *b == *a
    &&& match highlighted(a, ERROR_CANNOT_OPEN_GIT_REPOSITORY) {
        Ok((f, true)) => r matches Ok(Some(Request::GitUnstage { path, file, buffer })) && Some(path) == sel_buffer(
            a,
        ).spec_name().path && file@ == f && buffer == a.selected_buffer(),
        Ok((_, false)) => error_is(r, ERROR_UNSTAGED),
        Err(e) => r matches Err(x) && x@ == e,
    }
}

/// Asks for the staged file on the cursor's line to be unstaged.
pub struct GitUnstageCommand;

impl GitUnstageCommand {
    pub fn execute(&self, state: &mut State) -> (r: Result<Option<Request>, String>)
        requires
            old(state).wf(),
        ensures
            final(state).wf(),
            git_unstage_done(old(state), final(state), r),
    {
        let (path, file, staged) = highlighted_exec(state, ERROR_CANNOT_OPEN_GIT_REPOSITORY)?;
        if !staged {
            return Err(String::from_str(ERROR_UNSTAGED));
        }
        let buffer = state.selected_window_buffer();
        Ok(Some(Request::GitUnstage { path, file, buffer }))
    }
}

/// What running `GitDiffCommand` from `a` to `b` with result `r` does.
pub open spec fn git_diff_done(a: &State, b: &State, r: Result<Option<Request>, String>) -> bool {
    &&& *b == *a
    &&& match highlighted(a, ERROR_FILE_PATH_NONE) {
        Ok((f, st)) => r matches Ok(Some(Request::GitDiff { path, file, staged, buffer })) && Some(path)
            == sel_buffer(a).spec_name().path && file@ == f && staged == st && buffer == a.selected_buffer(),
        Err(e) => r matches Err(x) && x@ == e,
    }
}

/// Asks for the changes of the file on the cursor's line to be shown.
pub struct GitDiffCommand;

impl GitDiffCommand {
    pub fn execute(&self, state: &mut State) -> (r: Result<Option<Request>, String>)
        requires
            old(state).wf(),
        ensures
            final(state).wf(),
            git_diff_done(old(state), final(state), r),
    {
        let (path, file, staged) = highlighted_exec(state, ERROR_FILE_PATH_NONE)?;
        let buffer = state.selected_window_buffer();
        Ok(Some(Request::GitDiff { path, file, staged, buffer }))
    }
}

} // verus!
