use ted::buffer::{Buffer, BufferName, ERROR_READ_ONLY};
use ted::commands::{
    GitAddCommand, GitDiffCommand, GitOpenRepositoryCommand, GitUnstageCommand, InsertCommand, OpenFileCommand,
    OpenGitRepository, RefreshGitRepository, Request, SaveFileCommand, ToggleReadOnly, UndoCommand, RedoCommand,
    ERROR_CANNOT_OPEN_GIT_REPOSITORY, ERROR_NO_FILE_PATH,
};
use ted::finish::show_buffer;
use ted::git::ERROR_FILE_PATH_NONE;
use ted::state::State;

fn with_file() -> State {
    let mut state = State::new();
    let b = Buffer::new_with_contents(BufferName::from_path("/home/user/notes.txt".to_string()), "text");
    show_buffer(&mut state, b);
    state
}

#[test]
fn a_buffer_without_a_file_cannot_be_saved() {
    let mut state = State::new();
    assert_eq!(SaveFileCommand.execute(&mut state), Err(ERROR_NO_FILE_PATH.to_string()));
}

#[test]
fn saving_asks_for_the_text_to_be_written() {
    let mut state = with_file();
    assert_eq!(
        SaveFileCommand.execute(&mut state),
        Ok(Some(Request::SaveFile { path: "/home/user/notes.txt".to_string(), contents: "text".to_string() }))
    );
}

#[test]
fn opening_a_file_asks_for_it() {
    let mut state = State::new();
    assert!(matches!(OpenFileCommand.execute(&mut state), Ok(Some(Request::OpenFile(_)))));
}

#[test]
fn git_commands_need_a_file() {
    let mut state = State::new();
    assert_eq!(OpenGitRepository.execute(&mut state), Err(ERROR_CANNOT_OPEN_GIT_REPOSITORY.to_string()));
    assert_eq!(GitOpenRepositoryCommand.execute(&mut state), Err(ERROR_CANNOT_OPEN_GIT_REPOSITORY.to_string()));
    assert_eq!(RefreshGitRepository.execute(&mut state), Err(ERROR_FILE_PATH_NONE.to_string()));
    assert_eq!(GitAddCommand.execute(&mut state), Err(ERROR_CANNOT_OPEN_GIT_REPOSITORY.to_string()));
    assert_eq!(GitUnstageCommand.execute(&mut state), Err(ERROR_CANNOT_OPEN_GIT_REPOSITORY.to_string()));
    assert_eq!(GitDiffCommand.execute(&mut state), Err(ERROR_FILE_PATH_NONE.to_string()));
}

#[test]
fn opening_the_repository_of_a_file_asks_for_its_directory() {
    let mut state = with_file();
    assert_eq!(
        OpenGitRepository.execute(&mut state),
        Ok(Some(Request::GitOpenRepository { path: "/home/user".to_string(), spaced: true }))
    );
    assert_eq!(
        GitOpenRepositoryCommand.execute(&mut state),
        Ok(Some(Request::GitOpenRepository { path: "/home/user".to_string(), spaced: false }))
    );
}

#[test]
fn read_only_buffers_refuse_keys() {
    let mut state = State::new();
    assert_eq!(ToggleReadOnly.execute(&mut state), Ok(None));
    assert_eq!(InsertCommand('x').execute(&mut state), Err(ERROR_READ_ONLY.to_string()));
    assert_eq!(ToggleReadOnly.execute(&mut state), Ok(None));
    assert_eq!(InsertCommand('x').execute(&mut state), Ok(None));
    assert_eq!(state.buffers[0].to_string(), "x");
}

#[test]
fn undo_and_redo_commands() {
    let mut state = State::new();
    InsertCommand('a').execute(&mut state).unwrap();
    InsertCommand('b').execute(&mut state).unwrap();
    assert_eq!(UndoCommand.execute(&mut state), Ok(None));
    assert_eq!(state.buffers[0].to_string(), "a");
    assert_eq!(RedoCommand.execute(&mut state), Ok(None));
    assert_eq!(state.buffers[0].to_string(), "ab");
}
