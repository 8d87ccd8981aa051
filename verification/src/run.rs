use vstd::prelude::*;
use crate::command::Command;
use crate::state::{State, Frame};
use crate::input::{Input, input_text};
use crate::text::{chars_of, string_from_chars};
use std::collections::VecDeque;
use crate::window_order::{clockwise, counter_clockwise, distinct_seq, law_clockwise_round_trip};
use crate::layout::Layout;
use crate::region::{region_start, region_end};
use crate::commands::{
    Request,
    window_replaced,
    sel_window,
    sel_buffer,
    InsertCommand,
    insert_done,
    UndoCommand,
    undo_done,
    RedoCommand,
    redo_done,
    CloseTedCommand,
    close_ted_done,
    DeleteBackwardCharCommand,
    delete_backward_char_done,
    DeleteForwardCharCommand,
    delete_forward_char_done,
    BackwardCharCommand,
    backward_char_done,
    ForwardCharCommand,
    forward_char_done,
    BeginOfLineCommand,
    begin_of_line_done,
    EndOfLineCommand,
    end_of_line_done,
    ForwardLineCommand,
    forward_line_done,
    BackwardLineCommand,
    backward_line_done,
    ForwardWordCommand,
    forward_word_done,
    BackwardWordCommand,
    backward_word_done,
    BeginOfBufferCommand,
    begin_of_buffer_done,
    EndOfBufferCommand,
    end_of_buffer_done,
    ForwardGroupCommand,
    forward_group_done,
    BackwardGroupCommand,
    backward_group_done,
    UpGroupCommand,
    up_group_done,
    VerticalSplitCommand,
    vertical_split_done,
    HorizontalSplitCommand,
    horizontal_split_done,
    CloseWindowCommand,
    close_window_done,
    CloseOtherWindowsCommand,
    close_other_windows_done,
    OtherWindowClockwiseCommand,
    other_window_clockwise_done,
    OtherWindowCounterClockwiseCommand,
    other_window_counter_clockwise_done,
    ToggleReadOnly,
    toggle_read_only_done,
    OpenFileCommand,
    open_file_done,
    SaveFileCommand,
    save_file_done,
    CopyRegionCommand,
    copy_region_done,
    KillRegionCommand,
    kill_region_done,
    PasteCommand,
    paste_done,
    PastePopCommand,
    paste_pop_done,
    SetMarkCommand,
    set_mark_done,
    RemoveMarkCommand,
    remove_mark_done,
    OpenGitRepository,
    open_git_repository_done,
    GitOpenRepositoryCommand,
    git_open_repository_done,
    RefreshGitRepository,
    refresh_git_repository_done,
    GitRefreshRepositoryCommand,
    git_refresh_repository_done,
    GitAddCommand,
    git_add_done,
    GitUnstageCommand,
    git_unstage_done,
    GitDiffCommand,
    git_diff_done,
};

verus! {

/// `b` is `a` with window `w` selected in the selected frame.
pub open spec fn reselected(a: &State, b: &State, w: usize) -> bool {
    &&& a.display.selected_frame < a.display.frames@.len()
    &&& b.windows@ == a.windows@
    &&& b.display.frames@ == a.display.frames@.update(
        a.display.selected_frame as int,
        Frame { selected_window: w, ..a.frame() },
    )
    &&& b.display.selected_frame == a.display.selected_frame
    &&& b.buffers@ == a.buffers@
    &&& b.key_maps@ == a.key_maps@
    &&& b.modes@ == a.modes@
    &&& b.default_key_map == a.default_key_map
    &&& b.global_modes@ == a.global_modes@
    &&& b.closed_successfully == a.closed_successfully
    &&& b.logger == a.logger
    &&& b.git_mode == a.git_mode
}

/// How many times `c` is wrapped to run in the window clockwise from the
/// selected one.
pub open spec fn depth(c: Command) -> nat
    decreases c,
{
    match c {
        Command::WithOtherWindowClockwise(inner) => 1 + depth(*inner),
        _ => 0,
    }
}

/// The command inside all the wrappers of `c`.
pub open spec fn base(c: Command) -> Command
    decreases c,
{
    match c {
        Command::WithOtherWindowClockwise(inner) => base(*inner),
        _ => c,
    }
}

/// The window `n` steps clockwise from `w` in layout `l`.
pub open spec fn clockwise_n(l: Layout, w: usize, n: nat) -> usize
    decreases n,
{
    if n == 0 {
        w
    } else {
        clockwise_n(l, clockwise(l, w, true).1, (n - 1) as nat)
    }
}

/// What running the unwrapped command `c` from `a` to `b` with result `r`
/// does.
pub open spec fn base_executed(c: Command, a: State, b: State, r: Result<Option<Request>, String>) -> bool {
    match c {
        Command::Blank => r matches Ok(None) && b == a,
        Command::Insert(key) => insert_done(&a, &b, r, key),
        Command::Undo => undo_done(&a, &b, r),
        Command::Redo => redo_done(&a, &b, r),
        Command::CloseTed => close_ted_done(&a, &b, r),
        Command::DeleteBackwardChar => delete_backward_char_done(&a, &b, r),
        Command::DeleteForwardChar => delete_forward_char_done(&a, &b, r),
        Command::BackwardChar => backward_char_done(&a, &b, r),
        Command::ForwardChar => forward_char_done(&a, &b, r),
        Command::BeginOfLine => begin_of_line_done(&a, &b, r),
        Command::EndOfLine => end_of_line_done(&a, &b, r),
        Command::ForwardLine => forward_line_done(&a, &b, r),
        Command::BackwardLine => backward_line_done(&a, &b, r),
        Command::ForwardWord => forward_word_done(&a, &b, r),
        Command::BackwardWord => backward_word_done(&a, &b, r),
        Command::BeginOfBuffer => begin_of_buffer_done(&a, &b, r),
        Command::EndOfBuffer => end_of_buffer_done(&a, &b, r),
        Command::ForwardGroup => forward_group_done(&a, &b, r),
        Command::BackwardGroup => backward_group_done(&a, &b, r),
        Command::UpGroup => up_group_done(&a, &b, r),
        Command::VerticalSplit => vertical_split_done(&a, &b, r),
        Command::HorizontalSplit => horizontal_split_done(&a, &b, r),
        Command::CloseWindow => close_window_done(&a, &b, r),
        Command::CloseOtherWindows => close_other_windows_done(&a, &b, r),
        Command::OtherWindowClockwise => other_window_clockwise_done(&a, &b, r),
        Command::OtherWindowCounterClockwise => other_window_counter_clockwise_done(&a, &b, r),
        Command::ToggleReadOnly => toggle_read_only_done(&a, &b, r),
        Command::OpenFile => open_file_done(&a, &b, r),
        Command::SaveFile => save_file_done(&a, &b, r),
        Command::CopyRegion => copy_region_done(&a, &b, r),
        Command::KillRegion => kill_region_done(&a, &b, r),
        Command::Paste => paste_done(&a, &b, r),
        Command::PastePop => paste_pop_done(&a, &b, r),
        Command::SetMark => set_mark_done(&a, &b, r),
        Command::RemoveMark => remove_mark_done(&a, &b, r),
        Command::OpenGitRepository => open_git_repository_done(&a, &b, r),
        Command::GitOpenRepository => git_open_repository_done(&a, &b, r),
        Command::RefreshGitRepository => refresh_git_repository_done(&a, &b, r),
        Command::GitRefreshRepository => git_refresh_repository_done(&a, &b, r),
        Command::GitAdd => git_add_done(&a, &b, r),
        Command::GitUnstage => git_unstage_done(&a, &b, r),
        Command::GitDiff => git_diff_done(&a, &b, r),
        Command::WithOtherWindowClockwise(_) => false,
    }
}

/// What running command `c` from `a` to `b` with result `r` does.
///
/// A command wrapped `n` times in `WithOtherWindowClockwise` runs with the
/// window `n` steps clockwise from the selected one selected; the selection
/// is then put back, whatever the command did.
pub open spec fn executed(c: Command, a: State, b: State, r: Result<Option<Request>, String>) -> bool {
    if depth(c) == 0 {
        base_executed(c, a, b, r)
    } else {
        exists|a2: State, m: State|
            #![trigger base_executed(base(c), a2, m, r)]
            reselected(&a, &a2, clockwise_n(a.frame().layout, a.selected(), depth(c)))
                && base_executed(base(c), a2, m, r) && reselected(&m, &b, a.selected())
    }
}

/// Selecting one window and then another is selecting the second.
proof fn lemma_reselected_twice(a: &State, b: &State, c: &State, w1: usize, w2: usize)
    requires
        reselected(a, b, w1),
        reselected(b, c, w2),
    ensures
        reselected(a, c, w2),
{
    assert(b.frame() == Frame { selected_window: w1, ..a.frame() });
    assert(c.display.frames@ =~= a.display.frames@.update(
        a.display.selected_frame as int,
        Frame { selected_window: w2, ..a.frame() },
    ));
}

/// Selects window `w` in the selected frame.
fn select_window(state: &mut State, w: usize)
    requires
        old(state).wf(),
        w < old(state).windows@.len(),
    ensures
        final(state).wf(),
        reselected(old(state), final(state), w),
{
    let f = state.display.selected_frame;
    let ghost frame0 = state.display.frames@[f as int];
    state.display.frames[f].selected_window = w;
    proof {
        assert(old(state).frame_ok(frame0));
        assert(state.display.frames@[f as int] == Frame { selected_window: w, ..frame0 });
        assert(state.frame_ok(state.display.frames@[f as int]));
        assert(state.windows@.take(old(state).windows@.len() as int) =~= old(state).windows@);
        state.lemma_frame_kept(old(state));
    }
}

impl Command {
    /// Runs the command on the state; what is left to do outside the
    /// editor is returned as a request.
    #[verifier::spinoff_prover]
    pub fn execute(&self, state: &mut State) -> (r: Result<Option<Request>, String>)
        requires
            old(state).wf(),
        ensures
            final(state).wf(),
            executed(*self, *old(state), *final(state), r),
            final(state).windows@.len() >= old(state).windows@.len(),
            final(state).display.frames@.len() == old(state).display.frames@.len(),
            final(state).display.selected_frame == old(state).display.selected_frame,
        decreases self,
    {
        proof {
            state.lemma_selected();
        }
        match self {
            Command::Blank => {
                assert(executed(*self, *old(state), *state, Ok(None)));
                Ok(None)
            },
            Command::Insert(key) => {
                proof {
                    state.buffers@[state.selected_buffer() as int].lemma_len_bound();
                }
                let r = InsertCommand(*key).execute(state);
                assert(executed(*self, *old(state), *state, r));
                assert(state.windows@.len() >= old(state).windows@.len());
                assert(state.display.frames@.len() == old(state).display.frames@.len());
                r
            },
            Command::Undo => UndoCommand.execute(state),
            Command::Redo => RedoCommand.execute(state),
            Command::CloseTed => CloseTedCommand.execute(state),
            Command::DeleteBackwardChar => DeleteBackwardCharCommand.execute(state),
            Command::DeleteForwardChar => DeleteForwardCharCommand.execute(state),
            Command::BackwardChar => BackwardCharCommand.execute(state),
            Command::ForwardChar => ForwardCharCommand.execute(state),
            Command::BeginOfLine => BeginOfLineCommand.execute(state),
            Command::EndOfLine => EndOfLineCommand.execute(state),
            Command::ForwardLine => ForwardLineCommand.execute(state),
            Command::BackwardLine => BackwardLineCommand.execute(state),
            Command::ForwardWord => ForwardWordCommand.execute(state),
            Command::BackwardWord => BackwardWordCommand.execute(state),
            Command::BeginOfBuffer => BeginOfBufferCommand.execute(state),
            Command::EndOfBuffer => EndOfBufferCommand.execute(state),
            Command::ForwardGroup => ForwardGroupCommand.execute(state),
            Command::BackwardGroup => BackwardGroupCommand.execute(state),
            Command::UpGroup => UpGroupCommand.execute(state),
            Command::VerticalSplit => VerticalSplitCommand.execute(state),
            Command::HorizontalSplit => HorizontalSplitCommand.execute(state),
            Command::CloseWindow => CloseWindowCommand.execute(state),
            Command::CloseOtherWindows => CloseOtherWindowsCommand.execute(state),
            Command::OtherWindowClockwise => OtherWindowClockwiseCommand.execute(state),
            Command::OtherWindowCounterClockwise => OtherWindowCounterClockwiseCommand.execute(state),
            Command::ToggleReadOnly => ToggleReadOnly.execute(state),
            Command::OpenFile => OpenFileCommand.execute(state),
            Command::SaveFile => SaveFileCommand.execute(state),
            Command::CopyRegion => {
                let r = CopyRegionCommand.execute(state);
                proof {
                    let w = sel_window(old(state));
                    let buf = sel_buffer(old(state));
                    assert(copy_region_done(old(state), state, r));
                    if region_start(&w, &buf) > region_end(&w, &buf) {
                        assert(*state == *old(state));
                    } else if w.kill_ring.texts().len() == usize::MAX {
                        assert(*state == *old(state));
                    } else {
                        assert(window_replaced(old(state), state, state.windows@[old(state).selected() as int]));
                    }
                }
                assert(executed(*self, *old(state), *state, r));
                assert(state.windows@.len() >= old(state).windows@.len());
                assert(state.display.frames@.len() == old(state).display.frames@.len());
                r
            },
            Command::KillRegion => KillRegionCommand.execute(state),
            Command::Paste => PasteCommand.execute(state),
            Command::PastePop => PastePopCommand.execute(state),
            Command::SetMark => SetMarkCommand.execute(state),
            Command::RemoveMark => RemoveMarkCommand.execute(state),
            Command::OpenGitRepository => OpenGitRepository.execute(state),
            Command::GitOpenRepository => GitOpenRepositoryCommand.execute(state),
            Command::RefreshGitRepository => RefreshGitRepository.execute(state),
            Command::GitRefreshRepository => GitRefreshRepositoryCommand.execute(state),
            Command::GitAdd => GitAddCommand.execute(state),
            Command::GitUnstage => GitUnstageCommand.execute(state),
            Command::GitDiff => GitDiffCommand.execute(state),
            Command::WithOtherWindowClockwise(inner) => {
                let started_in = state.selected_window();
                let _ = OtherWindowClockwiseCommand.execute(state);
                let ghost a2 = *state;
                let r = inner.execute(state);
                let ghost m = *state;
                select_window(state, started_in);
                proof {
                    let cw = clockwise(old(state).frame().layout, old(state).selected(), true).1;
                    assert(reselected(old(state), &a2, cw));
                    assert(a2.frame().layout == old(state).frame().layout);
                    assert(a2.selected() == cw);
                    assert(depth(*self) == 1 + depth(**inner));
                    assert(base(*self) == base(**inner));
                    if depth(**inner) == 0 {
                        assert(base(*self) == **inner);
                        assert(base_executed(base(*self), a2, m, r));
                    } else {
                        let (x, y) = choose|x: State, y: State|
                            #![trigger base_executed(base(**inner), x, y, r)]
                            reselected(&a2, &x, clockwise_n(a2.frame().layout, a2.selected(), depth(**inner)))
                                && base_executed(base(**inner), x, y, r) && reselected(&y, &m, a2.selected());
                        assert(clockwise_n(old(state).frame().layout, old(state).selected(), depth(*self))
                            == clockwise_n(a2.frame().layout, a2.selected(), depth(**inner)));
                        lemma_reselected_twice(old(state), &a2, &x, cw, clockwise_n(a2.frame().layout, a2.selected(), depth(**inner)));
                        lemma_reselected_twice(&y, &m, state, a2.selected(), old(state).selected());
                        assert(base_executed(base(*self), x, y, r));
                    }
                    assert(executed(*self, *old(state), *state, r));
                }
                assert(state.windows@.len() >= old(state).windows@.len());
                assert(state.display.frames@.len() == old(state).display.frames@.len());
                r
            },
        }
    }
}

/// The start of the line logged for a key that is bound to nothing and
/// cannot be inserted.
pub const INVALID_INPUT: &'static str = "Invalid input ";

/// The line logged for the key `i` that runs nothing.
pub open spec fn invalid_input_line(i: Input) -> Seq<char> {
    INVALID_INPUT@ + input_text(i)
}

/// `b` is `a` with the line for the key `rejected` logged, if there is one.
pub open spec fn rejection_logged(a: &State, b: &State, rejected: Option<Input>) -> bool {
    &&& *b == State { logger: b.logger, ..*a }
    &&& b.logger.keeps_debug() == a.logger.keeps_debug()
    &&& b.logger.logged() == match rejected {
        Some(i) => a.logger.logged().push(invalid_input_line(i)),
        None => a.logger.logged(),
    }
}

/// The line logged for the key `i` that runs nothing.
fn invalid_input_message(i: Input) -> (s: String)
    ensures
        s@ == invalid_input_line(i),
{
    let mut v = chars_of(INVALID_INPUT);
    let mut w = chars_of(i.debug_string().as_str());
    v.append(&mut w);
    string_from_chars(&v)
}

/// What a key read does: it is put after the keys read before (`inputs`)
/// and they are looked up. A command found is run (its result is
/// returned); keys bound to nothing give `Ok(None)`, and a key that could
/// not be inserted either is logged; where more keys are needed, nothing
/// is returned and the keys wait in `inputs`.
pub fn input_step(state: &mut State, inputs: &mut VecDeque<Input>, input: Input) -> (r: Option<
    Result<Option<Request>, String>,
>)
    requires
        old(state).wf(),
        old(state).lookup_ends(old(inputs)@.push(input)),
    ensures
        final(state).wf(),
        final(inputs)@ == old(state).looked_up(old(inputs)@.push(input)).1,
        match old(state).looked_up(old(inputs)@.push(input)).0 {
            Ok(c) => r matches Some(res) && executed(c, *old(state), *final(state), res),
            Err(Ok(())) => r is None && *final(state) == *old(state),
            Err(Err(())) => r == Some(Ok::<Option<Request>, String>(None)) && rejection_logged(
                old(state),
                final(state),
                old(state).rejected(old(inputs)@.push(input)),
            ),
        },
{
    inputs.push_back(input);
    let (found, rejected) = state.lookup_reporting(inputs);
    match found {
        Ok(c) => Some(c.execute(state)),
        Err(Ok(())) => None,
        Err(Err(())) => {
            if let Some(i) = rejected {
                let line = invalid_input_message(i);
                state.logger.log(line);
            }
            proof {
                assert(state.frame() == old(state).frame());
                assert forall|f: int| 0 <= f < state.display.frames@.len() implies #[trigger] state.frame_ok(
                    state.display.frames@[f],
                ) by {
                    assert(old(state).frame_ok(old(state).display.frames@[f]));
                }
            }
            Some(Ok(None))
        },
    }
}

/// The error of starting the editor with more than one argument.
pub const ERROR_TOO_MANY_ARGUMENTS: &'static str = "Error: Too many arguments";

/// What the editor's command line `args` (the program's name first) asks
/// it to open: nothing without arguments, the file or directory named by
/// a single argument, and more arguments are an error.
pub fn parse_parameters(args: &Vec<String>) -> (r: Result<Option<String>, String>)
    ensures
        args@.len() == 1 ==> r == Ok::<Option<String>, String>(None),
        args@.len() == 2 ==> (r matches Ok(Some(p)) && p@ == args@[1]@),
        args@.len() != 1 && args@.len() != 2 ==> (r matches Err(e) && e@ == ERROR_TOO_MANY_ARGUMENTS@),
{
    if args.len() == 1 {
        Ok(None)
    } else if args.len() == 2 {
        Ok(Some(args[1].clone()))
    } else {
        Err(String::from_str(ERROR_TOO_MANY_ARGUMENTS))
    }
}

/// `b` is `a` with `message` added to the messages of the selected frame.
pub open spec fn message_added(a: &State, b: &State, message: Seq<char>) -> bool {
    let f = a.frame();
    &&& b.display.frames@ == a.display.frames@.update(
        a.display.selected_frame as int,
        Frame { messages: b.frame().messages, ..f },
    )
    &&& b.frame().messages.queue() == f.messages.queue().push(message)
    &&& b.frame().messages.showing() == f.messages.showing()
    &&& b.display.selected_frame == a.display.selected_frame
    &&& b.buffers@ == a.buffers@
    &&& b.windows@ == a.windows@
    &&& b.key_maps@ == a.key_maps@
    &&& b.modes@ == a.modes@
    &&& b.default_key_map == a.default_key_map
    &&& b.global_modes@ == a.global_modes@
    &&& b.closed_successfully == a.closed_successfully
    &&& b.logger == a.logger
    &&& b.git_mode == a.git_mode
}

/// What the main loop does with the outcome `r` of a round of keys: an
/// error after the editor was asked to close ends the loop (`false`); any
/// other error is added to the messages of the selected frame. The loop
/// goes on otherwise.
pub fn after_round(state: &mut State, r: Result<(), String>) -> (go_on: bool)
    requires
        old(state).wf(),
    ensures
        final(state).wf(),
        match r {
            Ok(()) => go_on && *final(state) == *old(state),
            Err(m) => if old(state).closed_successfully {
                !go_on && *final(state) == *old(state)
            } else {
                go_on && message_added(old(state), final(state), m@)
            },
        },
{
    match r {
        Ok(()) => true,
        Err(m) => {
            if state.closed_successfully {
                false
            } else {
                let f = state.display.selected_frame;
                assert(state.frame_ok(state.display.frames@[f as int]));
                state.display.frames[f].add_message(m);
                proof {
                    assert forall|i: int| 0 <= i < state.display.frames@.len() implies #[trigger] state.frame_ok(
                        state.display.frames@[i],
                    ) by {
                        assert(old(state).frame_ok(old(state).display.frames@[i]));
                    }
                    assert(state.frame().messages.queue() == old(state).frame().messages.queue().push(m@));
                    assert(state.display.frames@ =~= old(state).display.frames@.update(
                        f as int,
                        Frame { messages: state.frame().messages, ..old(state).frame() },
                    ));
                }
                true
            }
        },
    }
}

/// A command that does nothing.
pub struct BlankCommand;

impl BlankCommand {
    pub fn execute(&self, state: &mut State) -> (r: Result<Option<Request>, String>)
        requires
            old(state).wf(),
        ensures
            *final(state) == *old(state),
            r matches Ok(None),
    {
        Ok(None)
    }
}

/// Runs `command` with the window clockwise from the selected one selected,
/// then selects the window that was selected again.
pub struct WithOtherWindowClockwiseCommand {
    pub command: Command,
}

impl WithOtherWindowClockwiseCommand {
    pub fn execute(&self, state: &mut State) -> (r: Result<Option<Request>, String>)
        requires
            old(state).wf(),
        ensures
            final(state).wf(),
            executed(Command::WithOtherWindowClockwise(Box::new(self.command)), *old(state), *final(state), r),
    {
        let c = Command::WithOtherWindowClockwise(Box::new(self.command.copy()));
        c.execute(state)
    }
}

/// Running the command that selects the next window clockwise and then the
/// one that selects the next window counter clockwise comes back to the
/// window selected first, where it is one of the layout's windows.
pub proof fn law_other_window_commands_round_trip(
    a: &State,
    b: &State,
    c: &State,
    r1: Result<Option<Request>, String>,
    r2: Result<Option<Request>, String>,
)
    requires
        a.wf(),
        a.frame().layout.windows().contains(a.selected()),
        other_window_clockwise_done(a, b, r1),
        other_window_counter_clockwise_done(b, c, r2),
    ensures
        c.selected() == a.selected(),
        c.frame().layout == a.frame().layout,
        c.display.frames@ == a.display.frames@,
{
    let l = a.frame().layout;
    assert(a.frame_ok(a.frame()));
    assert(distinct_seq(l.windows())) by {
        assert forall|i: int, j: int| 0 <= i < l.windows().len() && 0 <= j < l.windows().len() && i != j implies l.windows()[i]
            != l.windows()[j] by {
            if i < j {
            } else {
                assert(l.windows()[j] != l.windows()[i]);
            }
        }
    }
    law_clockwise_round_trip(l, a.selected());
    assert(b.frame() == Frame { selected_window: clockwise(l, a.selected(), true).1, ..a.frame() });
    assert(c.display.frames@ =~= a.display.frames@);
}

} // verus!
