use std::collections::VecDeque;
use ted::buffer::{Buffer, BufferName};
use ted::commands::{GitAddCommand, GitRefreshRepositoryCommand, GitUnstageCommand, Request};
use ted::finish::{
    finish_git_diff, finish_git_open_repository, finish_git_refresh, finish_open_file, git_mode, open_file,
    show_buffer, FileContents, ERROR_NO_FILE_NAME,
};
use ted::git::{RepositoryListing, StatusEntry, ERROR_UNSTAGED, INDEX_NEW, WT_MODIFIED};
use ted::input::{Input, Key};
use ted::layout::Layout;
use ted::run::input_step;
use ted::state::State;

fn selected_text(state: &State) -> String {
    state.buffers[state.selected_window_buffer()].to_string()
}

fn listing() -> RepositoryListing {
    RepositoryListing {
        workdir: Some("/home/user/repo/".to_string()),
        workdir_name: Some(Some("repo".to_string())),
        state: "Clean".to_string(),
        statuses: Ok(vec![
            StatusEntry { path: "a.rs".to_string(), status: INDEX_NEW },
            StatusEntry { path: "b.rs".to_string(), status: WT_MODIFIED },
        ]),
    }
}

const LISTED: &str = "/home/user/repo/: Clean\n\nStaged files:\nN a.rs\n\nUnstaged files:\nM b.rs\n";

fn letter(c: char) -> Input {
    Input { control: false, alt: false, key: Key::Key(c) }
}

#[test]
fn open_file_with_text() {
    let b = open_file("/home/user/notes.txt".to_string(), FileContents::Text("hello\n".to_string()));
    assert_eq!(b.to_string(), "hello\n");
    assert_eq!(b.name().name, "notes.txt");
    assert_eq!(b.name().path, Some("/home/user/notes.txt".to_string()));
    assert!(!b.is_read_only());
}

#[test]
fn open_file_lists_a_directory_sorted() {
    let entries = vec!["zeta".to_string(), "Alpha".to_string(), "beta".to_string(), "alpha".to_string()];
    let b = open_file("/home/user".to_string(), FileContents::Directory(entries));
    assert_eq!(b.to_string(), "/home/user:\n..\nAlpha\nalpha\nbeta\nzeta\n");
    assert_eq!(b.name().name, "user");
}

#[test]
fn open_file_undo_empties_the_buffer() {
    let mut b = open_file("/f".to_string(), FileContents::Text("abc".to_string()));
    assert_eq!(b.undo(), Ok(true));
    assert_eq!(b.to_string(), "");
}

#[test]
fn finish_open_file_shows_the_file() {
    let mut state = State::new();
    finish_open_file(&mut state, "/tmp/x.txt".to_string(), Ok(FileContents::Text("xyz".to_string()))).unwrap();
    assert_eq!(state.buffers.len(), 2);
    assert_eq!(state.windows.len(), 2);
    assert_eq!(state.selected_window(), 1);
    assert_eq!(selected_text(&state), "xyz");
    let f = &state.display.frames[state.display.selected_frame];
    assert!(matches!(f.layout, Layout::Window(1)));
}

#[test]
fn finish_open_file_errors() {
    let mut state = State::new();
    assert_eq!(finish_open_file(&mut state, "/x".to_string(), Err("denied".to_string())), Err("denied".to_string()));
    assert_eq!(
        finish_open_file(&mut state, "/".to_string(), Ok(FileContents::Text("t".to_string()))),
        Err(ERROR_NO_FILE_NAME.to_string())
    );
    assert_eq!(state.buffers.len(), 1);
    assert_eq!(state.windows.len(), 1);
}

#[test]
fn show_buffer_replaces_the_selected_window() {
    let mut state = State::new();
    let w = show_buffer(&mut state, Buffer::new_with_contents(BufferName::from_name("b"), "text"));
    assert_eq!(w, 1);
    assert_eq!(state.selected_window(), 1);
    assert_eq!(state.windows[1].buffer, 1);
    assert_eq!(state.windows[1].cursor.get(), 0);
    assert_eq!(selected_text(&state), "text");
}

#[test]
fn git_mode_is_made_once() {
    let mut state = State::new();
    let g = git_mode(&mut state);
    assert_eq!(g, 0);
    assert_eq!(state.modes.len(), 1);
    assert_eq!(state.key_maps.len(), 2);
    let again = git_mode(&mut state);
    assert_eq!(again, g);
    assert_eq!(state.modes.len(), 1);
    assert_eq!(state.key_maps.len(), 2);
}

#[test]
fn finish_git_open_repository_lists_it() {
    let mut state = State::new();
    finish_git_open_repository(&mut state, "/home/user/repo".to_string(), Ok(listing()), false).unwrap();
    assert_eq!(selected_text(&state), LISTED);
    let b = state.selected_window_buffer();
    assert_eq!(state.buffers[b].name().name, "*git* repo");
    assert!(state.buffers[b].is_read_only());
    assert!(state.buffers[b].has_mode(state.git_mode.unwrap()));
}

#[test]
fn git_commands_ask_for_git_work() {
    let mut state = State::new();
    finish_git_open_repository(&mut state, "/home/user/repo".to_string(), Ok(listing()), false).unwrap();
    let b = state.selected_window_buffer();
    let w = state.selected_window();
    let line = LISTED.find("M b.rs").unwrap();
    state.windows[w].set_cursor(&state.buffers[b], line);
    assert_eq!(
        GitAddCommand.execute(&mut state),
        Ok(Some(Request::GitAdd { path: "/home/user/repo/".to_string(), file: "b.rs".to_string(), buffer: b }))
    );
    assert_eq!(GitUnstageCommand.execute(&mut state), Err(ERROR_UNSTAGED.to_string()));
    assert_eq!(
        GitRefreshRepositoryCommand.execute(&mut state),
        Ok(Some(Request::GitRefreshRepository { path: "/home/user/repo/".to_string(), buffer: b, spaced: false }))
    );
}

#[test]
fn keys_go_by_the_global_modes_only() {
    let mut state = State::new();
    finish_git_open_repository(&mut state, "/home/user/repo".to_string(), Ok(listing()), false).unwrap();
    let mut inputs = VecDeque::new();
    let r = input_step(&mut state, &mut inputs, letter('a'));
    assert_eq!(r, Some(Err("Error: Buffer is read only".to_string())));
}

#[test]
fn finish_git_refresh_relists() {
    let mut state = State::new();
    let b = state.selected_window_buffer();
    finish_git_refresh(&mut state, b, Ok(listing()), true).unwrap();
    assert_eq!(
        state.buffers[b].to_string(),
        "/home/user/repo/: Clean\n\nStaged files: \nN a.rs\n\nUnstaged files: \nM b.rs\n"
    );
    assert_eq!(finish_git_refresh(&mut state, b, Err("gone".to_string()), true), Err("gone".to_string()));
}

#[test]
fn finish_git_diff_shows_the_changes() {
    let mut state = State::new();
    finish_git_open_repository(&mut state, "/home/user/repo".to_string(), Ok(listing()), false).unwrap();
    let listing_buffer = state.selected_window_buffer();
    finish_git_diff(
        &mut state,
        "/home/user/repo".to_string(),
        "b.rs".to_string(),
        Ok("-old\n+new\n".to_string()),
        listing_buffer,
        Ok(listing()),
    )
    .unwrap();
    let d = state.selected_window_buffer();
    assert_ne!(d, listing_buffer);
    assert_eq!(selected_text(&state), "-old\n+new\n");
    assert_eq!(state.buffers[d].name().name, "*git diff* /home/user/repo/b.rs");
    assert_eq!(state.buffers[d].name().path, Some("/home/user/repo/b.rs".to_string()));
    assert!(state.buffers[d].is_read_only());
    assert_eq!(state.buffers[listing_buffer].to_string(), LISTED);
}

#[test]
fn finish_git_diff_error_changes_nothing() {
    let mut state = State::new();
    let r = finish_git_diff(&mut state, "/r".to_string(), "f".to_string(), Err("bad".to_string()), 0, Ok(listing()));
    assert_eq!(r, Err("bad".to_string()));
    assert_eq!(state.buffers.len(), 1);
}
