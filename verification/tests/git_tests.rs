use ted::buffer::{Buffer, BufferName};
use ted::git::{
    check, check_if_in_git_mode, diff_text, get_highlighted_file, get_highlighted_file_staged,
    get_highlighted_file_unstaged, git_refresh_repository, refresh_git_repository, status_text, toggle_git_mode,
    DiffPart, RepositoryListing, StatusEntry, ERROR_NOT_IN_GIT_MODE, ERROR_NO_FILE_HIGHLIGHTED,
    ERROR_REPOSITORY_WORKDIR_NONE, ERROR_REPOSITORY_WORKDIR_TO_STR_NONE, ERROR_STAGED, ERROR_UNSTAGED, IGNORED,
    INDEX_MODIFIED, INDEX_NEW, WT_DELETED, WT_MODIFIED, WT_NEW,
};

const GIT_MODE: usize = 3;

fn entry(path: &str, status: u32) -> StatusEntry {
    StatusEntry { path: path.to_string(), status }
}

fn listing(statuses: Vec<StatusEntry>) -> RepositoryListing {
    RepositoryListing {
        workdir: Some("/home/user/repo/".to_string()),
        workdir_name: Some(Some("repo".to_string())),
        state: "Clean".to_string(),
        statuses: Ok(statuses),
    }
}

fn listed_buffer() -> Buffer {
    let mut buffer = Buffer::new(BufferName::from_name("*git*"));
    git_refresh_repository(
        &mut buffer,
        GIT_MODE,
        Ok(listing(vec![entry("a.rs", INDEX_NEW), entry("b.rs", WT_MODIFIED), entry("c.rs", INDEX_MODIFIED | WT_DELETED)])),
    )
    .unwrap();
    buffer
}

const LISTED: &str = "/home/user/repo/: Clean\n\nStaged files:\nN a.rs\nM c.rs\n\nUnstaged files:\nM b.rs\nD c.rs\n";

#[test]
fn check_keeps_success() {
    let r: Result<u32, git2::Error> = Ok(7);
    assert_eq!(check(r), Ok(7));
}

#[test]
fn check_gives_the_error_text() {
    let r: Result<u32, git2::Error> = Err(git2::Error::from_str("no such repository"));
    assert_eq!(check(r), Err("no such repository".to_string()));
}

#[test]
fn status_text_without_changes() {
    let s = status_text("/r/", "Clean", &vec![], false);
    assert_eq!(s, "/r/: Clean\n");
}

#[test]
fn status_text_lists_staged_then_unstaged() {
    let statuses = vec![entry("a.rs", INDEX_NEW), entry("b.rs", WT_MODIFIED), entry("c.rs", INDEX_MODIFIED | WT_DELETED)];
    assert_eq!(status_text("/home/user/repo/", "Clean", &statuses, false), LISTED);
}

#[test]
fn status_text_with_spaces_after_headings() {
    let statuses = vec![entry("a.rs", INDEX_NEW), entry("n.rs", WT_NEW)];
    assert_eq!(
        status_text("/r/", "Merge", &statuses, true),
        "/r/: Merge\n\nStaged files: \nN a.rs\n\nUnstaged files: \nN n.rs\n"
    );
}

#[test]
fn status_text_leaves_out_ignored_files() {
    let statuses = vec![entry("x.o", WT_NEW | IGNORED)];
    assert_eq!(status_text("/r/", "Clean", &statuses, false), "/r/: Clean\n");
}

#[test]
fn refresh_lists_the_repository() {
    let buffer = listed_buffer();
    assert_eq!(buffer.to_string(), LISTED);
    assert_eq!(buffer.name().name, "*git* repo");
    assert_eq!(buffer.name().path, Some("/home/user/repo/".to_string()));
    assert!(buffer.is_read_only());
    assert!(buffer.has_mode(GIT_MODE));
    assert!(check_if_in_git_mode(&buffer, GIT_MODE).is_ok());
}

#[test]
fn refresh_with_spaces() {
    let mut buffer = Buffer::new(BufferName::from_name("*git*"));
    refresh_git_repository(&mut buffer, GIT_MODE, Ok(listing(vec![entry("a.rs", INDEX_NEW)]))).unwrap();
    assert_eq!(buffer.to_string(), "/home/user/repo/: Clean\n\nStaged files: \nN a.rs\n");
}

#[test]
fn refresh_errors() {
    let mut buffer = Buffer::new(BufferName::from_name("*git*"));
    assert_eq!(git_refresh_repository(&mut buffer, GIT_MODE, Err("boom".to_string())), Err("boom".to_string()));
    let mut l = listing(vec![]);
    l.workdir = None;
    assert_eq!(
        git_refresh_repository(&mut buffer, GIT_MODE, Ok(l)),
        Err(ERROR_REPOSITORY_WORKDIR_NONE.to_string())
    );
    let mut l = listing(vec![]);
    l.workdir_name = Some(None);
    assert_eq!(
        git_refresh_repository(&mut buffer, GIT_MODE, Ok(l)),
        Err(ERROR_REPOSITORY_WORKDIR_TO_STR_NONE.to_string())
    );
    let mut l = listing(vec![]);
    l.workdir_name = None;
    assert_eq!(
        git_refresh_repository(&mut buffer, GIT_MODE, Ok(l)),
        Err(ERROR_REPOSITORY_WORKDIR_NONE.to_string())
    );
    assert_eq!(buffer.to_string(), "");
    assert!(buffer.has_mode(GIT_MODE));
}

#[test]
fn highlighted_file_under_each_heading() {
    let buffer = listed_buffer();
    let staged_line = LISTED.find("M c.rs").unwrap();
    let unstaged_line = LISTED.find("D c.rs").unwrap();
    let unstaged_b = LISTED.find("M b.rs").unwrap();
    assert_eq!(get_highlighted_file(&buffer, staged_line + 3, GIT_MODE), Ok(("c.rs".to_string(), true)));
    assert_eq!(get_highlighted_file(&buffer, unstaged_line, GIT_MODE), Ok(("c.rs".to_string(), false)));
    assert_eq!(get_highlighted_file_staged(&buffer, staged_line, GIT_MODE), Ok("c.rs".to_string()));
    assert_eq!(get_highlighted_file_unstaged(&buffer, unstaged_b, GIT_MODE), Ok("b.rs".to_string()));
    assert_eq!(get_highlighted_file_staged(&buffer, unstaged_b, GIT_MODE), Err(ERROR_UNSTAGED.to_string()));
    assert_eq!(get_highlighted_file_unstaged(&buffer, staged_line, GIT_MODE), Err(ERROR_STAGED.to_string()));
}

#[test]
fn highlighted_file_errors() {
    let buffer = listed_buffer();
    assert_eq!(get_highlighted_file(&buffer, 0, GIT_MODE), Err(ERROR_NO_FILE_HIGHLIGHTED.to_string()));
    let heading = LISTED.find("Staged files:").unwrap();
    assert_eq!(get_highlighted_file(&buffer, heading, GIT_MODE), Err(ERROR_NO_FILE_HIGHLIGHTED.to_string()));
    assert_eq!(get_highlighted_file(&buffer, 0, GIT_MODE + 1), Err(ERROR_NOT_IN_GIT_MODE.to_string()));
}

#[test]
fn git_mode_toggles() {
    let mut buffer = Buffer::new(BufferName::from_name("b"));
    assert_eq!(check_if_in_git_mode(&buffer, GIT_MODE), Err(ERROR_NOT_IN_GIT_MODE.to_string()));
    toggle_git_mode(&mut buffer, GIT_MODE);
    assert!(check_if_in_git_mode(&buffer, GIT_MODE).is_ok());
    toggle_git_mode(&mut buffer, GIT_MODE);
    assert!(check_if_in_git_mode(&buffer, GIT_MODE).is_err());
}

#[test]
fn diff_text_shows_each_part() {
    let parts = vec![
        DiffPart::File { old: "a.rs".to_string(), new: "a.rs".to_string(), same: true },
        DiffPart::File { old: "a.rs".to_string(), new: "b.rs".to_string(), same: false },
        DiffPart::Hunk("@@ -1 +1 @@\n".to_string()),
        DiffPart::Line { origin: '-', content: "old\n".to_string() },
        DiffPart::Line { origin: '+', content: "new\n".to_string() },
        DiffPart::Binary,
    ];
    assert_eq!(diff_text(&parts), "a.rs\na.rs vs b.rs\n@@ -1 +1 @@\n-old\n+new\nBinary file changed");
    assert_eq!(diff_text(&vec![]), "");
}

#[test]
fn refresh_names_the_buffer_before_reading_statuses() {
    let mut buffer = Buffer::new(BufferName::from_name("*git*"));
    let mut l = listing(vec![]);
    l.statuses = Err("cannot read".to_string());
    assert_eq!(git_refresh_repository(&mut buffer, GIT_MODE, Ok(l)), Err("cannot read".to_string()));
    assert_eq!(buffer.name().name, "*git* repo");
    assert_eq!(buffer.to_string(), "");
    assert!(!buffer.is_read_only());
}
