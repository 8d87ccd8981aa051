use vstd::prelude::*;

verus! {

/// What a key can be bound to run.
#[derive(PartialEq, Eq, Debug)]
pub enum Command {
    /// Does nothing.
    Blank,
    /// Inserts the character at the cursor.
    Insert(char),
    Undo,
    Redo,
    CloseTed,
    DeleteBackwardChar,
    DeleteForwardChar,
    BackwardChar,
    ForwardChar,
    BeginOfLine,
    EndOfLine,
    ForwardLine,
    BackwardLine,
    ForwardWord,
    BackwardWord,
    BeginOfBuffer,
    EndOfBuffer,
    ForwardGroup,
    BackwardGroup,
    UpGroup,
    VerticalSplit,
    HorizontalSplit,
    CloseWindow,
    CloseOtherWindows,
    OtherWindowClockwise,
    OtherWindowCounterClockwise,
    ToggleReadOnly,
    OpenFile,
    SaveFile,
    CopyRegion,
    KillRegion,
    Paste,
    PastePop,
    SetMark,
    RemoveMark,
    OpenGitRepository,
    GitOpenRepository,
    RefreshGitRepository,
    GitRefreshRepository,
    GitAdd,
    GitUnstage,
    GitDiff,
    /// Runs the command in the window clockwise from the selected one.
    WithOtherWindowClockwise(Box<Command>),
}

impl Command {
    /// A copy of the command.
    pub fn copy(&self) -> (c: Command)
        ensures
            c == *self,
        decreases self,
    {
        match self {
            Command::Blank => Command::Blank,
            Command::Insert(c) => Command::Insert(*c),
            Command::Undo => Command::Undo,
            Command::Redo => Command::Redo,
            Command::CloseTed => Command::CloseTed,
            Command::DeleteBackwardChar => Command::DeleteBackwardChar,
            Command::DeleteForwardChar => Command::DeleteForwardChar,
            Command::BackwardChar => Command::BackwardChar,
            Command::ForwardChar => Command::ForwardChar,
            Command::BeginOfLine => Command::BeginOfLine,
            Command::EndOfLine => Command::EndOfLine,
            Command::ForwardLine => Command::ForwardLine,
            Command::BackwardLine => Command::BackwardLine,
            Command::ForwardWord => Command::ForwardWord,
            Command::BackwardWord => Command::BackwardWord,
            Command::BeginOfBuffer => Command::BeginOfBuffer,
            Command::EndOfBuffer => Command::EndOfBuffer,
            Command::ForwardGroup => Command::ForwardGroup,
            Command::BackwardGroup => Command::BackwardGroup,
            Command::UpGroup => Command::UpGroup,
            Command::VerticalSplit => Command::VerticalSplit,
            Command::HorizontalSplit => Command::HorizontalSplit,
            Command::CloseWindow => Command::CloseWindow,
            Command::CloseOtherWindows => Command::CloseOtherWindows,
            Command::OtherWindowClockwise => Command::OtherWindowClockwise,
            Command::OtherWindowCounterClockwise => Command::OtherWindowCounterClockwise,
            Command::ToggleReadOnly => Command::ToggleReadOnly,
            Command::OpenFile => Command::OpenFile,
            Command::SaveFile => Command::SaveFile,
            Command::CopyRegion => Command::CopyRegion,
            Command::KillRegion => Command::KillRegion,
            Command::Paste => Command::Paste,
            Command::PastePop => Command::PastePop,
            Command::SetMark => Command::SetMark,
            Command::RemoveMark => Command::RemoveMark,
            Command::OpenGitRepository => Command::OpenGitRepository,
            Command::RefreshGitRepository => Command::RefreshGitRepository,
            Command::GitOpenRepository => Command::GitOpenRepository,
            Command::GitRefreshRepository => Command::GitRefreshRepository,
            Command::GitAdd => Command::GitAdd,
            Command::GitUnstage => Command::GitUnstage,
            Command::GitDiff => Command::GitDiff,
            Command::WithOtherWindowClockwise(inner) => Command::WithOtherWindowClockwise(
                Box::new((**inner).copy()),
            ),
        }
    }
}

/// The command that inserts `key` at the cursor.
pub fn insert_command(key: char) -> (c: Command)
    ensures
        c == Command::Insert(key),
{
    Command::Insert(key)
}

/// The command that undoes the last change of the selected buffer.
pub fn undo_command() -> (c: Command)
    ensures
        c == Command::Undo,
{
    Command::Undo
}

/// The command that redoes the last change undone in the selected buffer.
pub fn redo_command() -> (c: Command)
    ensures
        c == Command::Redo,
{
    Command::Redo
}

/// The command that closes the editor.
pub fn close_ted_command() -> (c: Command)
    ensures
        c == Command::CloseTed,
{
    Command::CloseTed
}

/// The command that deletes the character before the cursor.
pub fn delete_backward_char_command() -> (c: Command)
    ensures
        c == Command::DeleteBackwardChar,
{
    Command::DeleteBackwardChar
}

/// The command that deletes the character at the cursor.
pub fn delete_forward_char_command() -> (c: Command)
    ensures
        c == Command::DeleteForwardChar,
{
    Command::DeleteForwardChar
}

/// The command that moves the cursor back one character.
pub fn backward_char_command() -> (c: Command)
    ensures
        c == Command::BackwardChar,
{
    Command::BackwardChar
}

/// The command that moves the cursor forward one character.
pub fn forward_char_command() -> (c: Command)
    ensures
        c == Command::ForwardChar,
{
    Command::ForwardChar
}

/// The command that moves the cursor to the start of its line.
pub fn begin_of_line_command() -> (c: Command)
    ensures
        c == Command::BeginOfLine,
{
    Command::BeginOfLine
}

/// The command that moves the cursor to the end of its line.
pub fn end_of_line_command() -> (c: Command)
    ensures
        c == Command::EndOfLine,
{
    Command::EndOfLine
}

/// The command that moves the cursor down a line.
pub fn forward_line_command() -> (c: Command)
    ensures
        c == Command::ForwardLine,
{
    Command::ForwardLine
}

/// The command that moves the cursor up a line.
pub fn backward_line_command() -> (c: Command)
    ensures
        c == Command::BackwardLine,
{
    Command::BackwardLine
}

/// The command that moves the cursor past the next word.
pub fn forward_word_command() -> (c: Command)
    ensures
        c == Command::ForwardWord,
{
    Command::ForwardWord
}

/// The command that moves the cursor back over the previous word.
pub fn backward_word_command() -> (c: Command)
    ensures
        c == Command::BackwardWord,
{
    Command::BackwardWord
}

/// The command that moves the cursor to the start of the buffer.
pub fn begin_of_buffer_command() -> (c: Command)
    ensures
        c == Command::BeginOfBuffer,
{
    Command::BeginOfBuffer
}

/// The command that moves the cursor to the end of the buffer.
pub fn end_of_buffer_command() -> (c: Command)
    ensures
        c == Command::EndOfBuffer,
{
    Command::EndOfBuffer
}

/// The command that moves the cursor past the next group.
pub fn forward_group_command() -> (c: Command)
    ensures
        c == Command::ForwardGroup,
{
    Command::ForwardGroup
}

/// The command that moves the cursor back over the previous group.
pub fn backward_group_command() -> (c: Command)
    ensures
        c == Command::BackwardGroup,
{
    Command::BackwardGroup
}

/// The command that moves the cursor out of the group around it.
pub fn up_group_command() -> (c: Command)
    ensures
        c == Command::UpGroup,
{
    Command::UpGroup
}

/// The command that splits the selected window into a left and a right part.
pub fn vertical_split_command() -> (c: Command)
    ensures
        c == Command::VerticalSplit,
{
    Command::VerticalSplit
}

/// The command that splits the selected window into a top and a bottom part.
pub fn horizontal_split_command() -> (c: Command)
    ensures
        c == Command::HorizontalSplit,
{
    Command::HorizontalSplit
}

/// The command that closes the selected window.
pub fn close_window_command() -> (c: Command)
    ensures
        c == Command::CloseWindow,
{
    Command::CloseWindow
}

/// The command that closes every window but the selected one.
pub fn close_other_windows_command() -> (c: Command)
    ensures
        c == Command::CloseOtherWindows,
{
    Command::CloseOtherWindows
}

/// The command that selects the window clockwise from the selected one.
pub fn other_window_clockwise_command() -> (c: Command)
    ensures
        c == Command::OtherWindowClockwise,
{
    Command::OtherWindowClockwise
}

/// The command that selects the window counter clockwise from the selected one.
pub fn other_window_counter_clockwise_command() -> (c: Command)
    ensures
        c == Command::OtherWindowCounterClockwise,
{
    Command::OtherWindowCounterClockwise
}

/// The command that makes the selected buffer read only, or writable again.
pub fn toggle_read_only_command() -> (c: Command)
    ensures
        c == Command::ToggleReadOnly,
{
    Command::ToggleReadOnly
}

/// The command that opens a file in the selected window.
pub fn open_file_command() -> (c: Command)
    ensures
        c == Command::OpenFile,
{
    Command::OpenFile
}

/// The command that writes the selected buffer to its file.
pub fn save_file_command() -> (c: Command)
    ensures
        c == Command::SaveFile,
{
    Command::SaveFile
}

/// The command that keeps the text of the region for pasting.
pub fn copy_region_command() -> (c: Command)
    ensures
        c == Command::CopyRegion,
{
    Command::CopyRegion
}

/// The command that deletes the region and keeps its text for pasting.
pub fn kill_region_command() -> (c: Command)
    ensures
        c == Command::KillRegion,
{
    Command::KillRegion
}

/// The command that inserts the text kept for pasting.
pub fn paste_command() -> (c: Command)
    ensures
        c == Command::Paste,
{
    Command::Paste
}

/// The command that makes the text kept before the one to paste the one to paste.
pub fn paste_pop_command() -> (c: Command)
    ensures
        c == Command::PastePop,
{
    Command::PastePop
}

/// The command that marks the cursor's place as the other end of the region.
pub fn set_mark_command() -> (c: Command)
    ensures
        c == Command::SetMark,
{
    Command::SetMark
}

/// The command that forgets the mark.
pub fn remove_mark_command() -> (c: Command)
    ensures
        c == Command::RemoveMark,
{
    Command::RemoveMark
}

/// The command that lists the git repository of the selected buffer's file, with spaced headings.
pub fn open_git_repository_command() -> (c: Command)
    ensures
        c == Command::OpenGitRepository,
{
    Command::OpenGitRepository
}

/// The command that lists the git repository of the selected buffer's file.
pub fn git_open_repository_command() -> (c: Command)
    ensures
        c == Command::GitOpenRepository,
{
    Command::GitOpenRepository
}

/// The command that lists the repository in the selected buffer again, with spaced headings.
pub fn refresh_git_repository_command() -> (c: Command)
    ensures
        c == Command::RefreshGitRepository,
{
    Command::RefreshGitRepository
}

/// The command that lists the repository in the selected buffer again.
pub fn git_refresh_repository_command() -> (c: Command)
    ensures
        c == Command::GitRefreshRepository,
{
    Command::GitRefreshRepository
}

/// The command that stages the file on the cursor's line.
pub fn git_add_command() -> (c: Command)
    ensures
        c == Command::GitAdd,
{
    Command::GitAdd
}

/// The command that unstages the file on the cursor's line.
pub fn git_unstage_command() -> (c: Command)
    ensures
        c == Command::GitUnstage,
{
    Command::GitUnstage
}

/// The command that shows the changes of the file on the cursor's line.
pub fn git_diff_command() -> (c: Command)
    ensures
        c == Command::GitDiff,
{
    Command::GitDiff
}

/// `command`, run in the window clockwise from the selected one.
pub fn with_other_window_clockwise(command: Command) -> (c: Command)
    ensures
        c == Command::WithOtherWindowClockwise(Box::new(command)),
{
    Command::WithOtherWindowClockwise(Box::new(command))
}

/// The command that does nothing.
pub fn blank_command() -> (c: Command)
    ensures
        c == Command::Blank,
{
    Command::Blank
}

} // verus!
