use vstd::prelude::*;
use vstd::string::StrSliceExecFns;
use crate::buffer::{Buffer, BufferName, error_is};
use crate::movement::{begin_of_line, end_of_line, forward_line, line_start, line_end, lemma_line_start, lemma_line_end, forward_line_spec};
use crate::text::chars_equal;
use crate::text::{chars_of, string_from_chars};

verus! {

broadcast use vstd::string::group_string_axioms;

pub const ERROR_FILE_PATH_NONE: &'static str = "Error: Not a git repository";

pub const ERROR_REPOSITORY_WORKDIR_NONE: &'static str = "Error: Git repository has no associated directory";

pub const ERROR_REPOSITORY_WORKDIR_TO_STR_NONE: &'static str = "Error: Git repository directory is not valid unicode";

pub const ERROR_NOT_IN_GIT_MODE: &'static str = "Error: Not in git mode";

pub const ERROR_NO_FILE_HIGHLIGHTED: &'static str = "Error: Place the cursor on the line of a file before adding";

pub const ERROR_STAGED: &'static str = "Error: File is staged";

pub const ERROR_UNSTAGED: &'static str = "Error: File is unstaged";

/// The bits of git's file statuses (`git2::Status`), as libgit2 numbers
/// them.
pub const INDEX_NEW: u32 = 1;

pub const INDEX_MODIFIED: u32 = 2;

pub const INDEX_DELETED: u32 = 4;

pub const INDEX_RENAMED: u32 = 8;

pub const INDEX_TYPECHANGE: u32 = 16;

pub const WT_NEW: u32 = 128;

pub const WT_MODIFIED: u32 = 256;

pub const WT_DELETED: u32 = 512;

pub const WT_TYPECHANGE: u32 = 1024;

pub const WT_RENAMED: u32 = 2048;

pub const IGNORED: u32 = 16384;

#[verifier::external_type_specification]
#[verifier::external_body]
pub struct ExGitError(git2::Error);

/// The text of a git error, as `git2::Error`'s `Display` writes it: its
/// message, then its class and its code where these are not the generic
/// ones. The contract leaves the text unstated.
#[verifier::external_body]
fn git_error_text(e: &git2::Error) -> (s: String) {
    e.to_string()
}

/// Keeps a success as it is and turns a git error into its text.
pub fn check<O>(r: Result<O, git2::Error>) -> (c: Result<O, String>)
    ensures
        r is Ok <==> c is Ok,
        r matches Ok(o) ==> c matches Ok(p) && p == o,
{
    match r {
        Ok(o) => Ok(o),
        Err(e) => Err(git_error_text(&e)),
    }
}

/// Whether the status `bits` has the flag `flag`.
pub open spec fn has_flag(bits: u32, flag: u32) -> bool {
    bits & flag != 0
}

/// `git2::Status::is_index_new` on the status with bits `bits`.
#[verifier::external_body]
fn status_is_index_new(bits: u32) -> (r: bool)
    ensures
        r == has_flag(bits, INDEX_NEW),
{
    git2::Status::from_bits_retain(bits).is_index_new()
}

/// `git2::Status::is_index_modified` on the status with bits `bits`.
#[verifier::external_body]
fn status_is_index_modified(bits: u32) -> (r: bool)
    ensures
        r == has_flag(bits, INDEX_MODIFIED),
{
    git2::Status::from_bits_retain(bits).is_index_modified()
}

/// `git2::Status::is_index_deleted` on the status with bits `bits`.
#[verifier::external_body]
fn status_is_index_deleted(bits: u32) -> (r: bool)
    ensures
        r == has_flag(bits, INDEX_DELETED),
{
    git2::Status::from_bits_retain(bits).is_index_deleted()
}

/// `git2::Status::is_index_renamed` on the status with bits `bits`.
#[verifier::external_body]
fn status_is_index_renamed(bits: u32) -> (r: bool)
    ensures
        r == has_flag(bits, INDEX_RENAMED),
{
    git2::Status::from_bits_retain(bits).is_index_renamed()
}

/// `git2::Status::is_index_typechange` on the status with bits `bits`.
#[verifier::external_body]
fn status_is_index_typechange(bits: u32) -> (r: bool)
    ensures
        r == has_flag(bits, INDEX_TYPECHANGE),
{
    git2::Status::from_bits_retain(bits).is_index_typechange()
}

/// `git2::Status::is_wt_new` on the status with bits `bits`.
#[verifier::external_body]
fn status_is_wt_new(bits: u32) -> (r: bool)
    ensures
        r == has_flag(bits, WT_NEW),
{
    git2::Status::from_bits_retain(bits).is_wt_new()
}

/// `git2::Status::is_wt_modified` on the status with bits `bits`.
#[verifier::external_body]
fn status_is_wt_modified(bits: u32) -> (r: bool)
    ensures
        r == has_flag(bits, WT_MODIFIED),
{
    git2::Status::from_bits_retain(bits).is_wt_modified()
}

/// `git2::Status::is_wt_deleted` on the status with bits `bits`.
#[verifier::external_body]
fn status_is_wt_deleted(bits: u32) -> (r: bool)
    ensures
        r == has_flag(bits, WT_DELETED),
{
    git2::Status::from_bits_retain(bits).is_wt_deleted()
}

/// `git2::Status::is_wt_typechange` on the status with bits `bits`.
#[verifier::external_body]
fn status_is_wt_typechange(bits: u32) -> (r: bool)
    ensures
        r == has_flag(bits, WT_TYPECHANGE),
{
    git2::Status::from_bits_retain(bits).is_wt_typechange()
}

/// `git2::Status::is_wt_renamed` on the status with bits `bits`.
#[verifier::external_body]
fn status_is_wt_renamed(bits: u32) -> (r: bool)
    ensures
        r == has_flag(bits, WT_RENAMED),
{
    git2::Status::from_bits_retain(bits).is_wt_renamed()
}

/// `git2::Status::is_ignored` on the status with bits `bits`.
#[verifier::external_body]
fn status_is_ignored(bits: u32) -> (r: bool)
    ensures
        r == has_flag(bits, IGNORED),
{
    git2::Status::from_bits_retain(bits).is_ignored()
}

/// A file that git reports on: its path and its status bits.
pub struct StatusEntry {
    pub path: String,
    pub status: u32,
}

/// What git tells of a repository.
pub struct RepositoryListing {
    /// The working directory, as shown, if the repository has one.
    pub workdir: Option<String>,
    /// The last component of the working directory: `None` if it has none,
    /// `Some(None)` if it is not valid unicode.
    pub workdir_name: Option<Option<String>>,
    /// The state of the repository, as shown.
    pub state: String,
    /// The status of each file, or the error of reading them.
    pub statuses: Result<Vec<StatusEntry>, String>,
}

/// The file is changed in the index.
pub open spec fn is_staged(bits: u32) -> bool {
    has_flag(bits, INDEX_NEW) || has_flag(bits, INDEX_MODIFIED) || has_flag(bits, INDEX_DELETED)
        || has_flag(bits, INDEX_TYPECHANGE) || has_flag(bits, INDEX_RENAMED)
}

/// The file is changed in the working directory, and not ignored.
pub open spec fn is_unstaged(bits: u32) -> bool {
    (has_flag(bits, WT_NEW) || has_flag(bits, WT_MODIFIED) || has_flag(bits, WT_DELETED) || has_flag(
        bits,
        WT_TYPECHANGE,
    ) || has_flag(bits, WT_RENAMED)) && !has_flag(bits, IGNORED)
}

/// The letter that tells how a staged file changed.
pub open spec fn staged_code(bits: u32) -> char {
    if has_flag(bits, INDEX_NEW) {
        'N'
    } else if has_flag(bits, INDEX_MODIFIED) {
        'M'
    } else if has_flag(bits, INDEX_DELETED) {
        'D'
    } else if has_flag(bits, INDEX_TYPECHANGE) {
        'T'
    } else {
        'R'
    }
}

/// The letter that tells how an unstaged file changed.
pub open spec fn unstaged_code(bits: u32) -> char {
    if has_flag(bits, WT_NEW) {
        'N'
    } else if has_flag(bits, WT_MODIFIED) {
        'M'
    } else if has_flag(bits, WT_DELETED) {
        'D'
    } else if has_flag(bits, WT_TYPECHANGE) {
        'T'
    } else {
        'R'
    }
}

/// The kinds of change of a file in the index, each with its status bit and
/// the letter that names it, in the order in which they are looked for.
pub open spec fn index_kinds() -> Seq<(u32, char)> {
    seq![(INDEX_NEW, 'N'), (INDEX_MODIFIED, 'M'), (INDEX_DELETED, 'D'), (INDEX_TYPECHANGE, 'T'), (INDEX_RENAMED, 'R')]
}

/// The kinds of change of a file in the working directory, the same way.
pub open spec fn worktree_kinds() -> Seq<(u32, char)> {
    seq![(WT_NEW, 'N'), (WT_MODIFIED, 'M'), (WT_DELETED, 'D'), (WT_TYPECHANGE, 'T'), (WT_RENAMED, 'R')]
}

/// `bits` has kind `i` of `kinds` and none of the kinds before it.
pub open spec fn first_kind(kinds: Seq<(u32, char)>, bits: u32, i: int) -> bool {
    &&& 0 <= i < kinds.len()
    &&& has_flag(bits, kinds[i].0)
    &&& forall|j: int| 0 <= j < i ==> !has_flag(bits, #[trigger] kinds[j].0)
}

/// The letter of a staged file names the first of its kinds of change in
/// the index, and the letter of an unstaged file the first of its kinds of
/// change in the working directory; a file with a single kind of change is
/// listed with that kind's letter, and different kinds get different
/// letters.
pub proof fn law_status_letters(bits: u32, i: int, j: int)
    ensures
        first_kind(index_kinds(), bits, i) ==> staged_code(bits) == index_kinds()[i].1,
        first_kind(worktree_kinds(), bits, i) ==> unstaged_code(bits) == worktree_kinds()[i].1,
        0 <= i < 5 ==> staged_code(index_kinds()[i].0) == index_kinds()[i].1 && unstaged_code(
            worktree_kinds()[i].0,
        ) == worktree_kinds()[i].1,
        0 <= i < 5 && 0 <= j < 5 && i != j ==> staged_code(index_kinds()[i].0) != staged_code(index_kinds()[j].0)
            && unstaged_code(worktree_kinds()[i].0) != unstaged_code(worktree_kinds()[j].0),
{
    let ik = index_kinds();
    let wk = worktree_kinds();
    if first_kind(ik, bits, i) {
        assert(i >= 1 ==> !has_flag(bits, ik[0].0));
        assert(i >= 2 ==> !has_flag(bits, ik[1].0));
        assert(i >= 3 ==> !has_flag(bits, ik[2].0));
        assert(i >= 4 ==> !has_flag(bits, ik[3].0));
    }
    if first_kind(wk, bits, i) {
        assert(i >= 1 ==> !has_flag(bits, wk[0].0));
        assert(i >= 2 ==> !has_flag(bits, wk[1].0));
        assert(i >= 3 ==> !has_flag(bits, wk[2].0));
        assert(i >= 4 ==> !has_flag(bits, wk[3].0));
    }
    assert(1u32 & 1u32 != 0 && 2u32 & 1u32 == 0 && 2u32 & 2u32 != 0 && 4u32 & 1u32 == 0 && 4u32 & 2u32 == 0
        && 4u32 & 4u32 != 0 && 16u32 & 1u32 == 0 && 16u32 & 2u32 == 0 && 16u32 & 4u32 == 0 && 16u32 & 16u32 != 0
        && 8u32 & 1u32 == 0 && 8u32 & 2u32 == 0 && 8u32 & 4u32 == 0 && 8u32 & 16u32 == 0) by (bit_vector);
    assert(128u32 & 128u32 != 0 && 256u32 & 128u32 == 0 && 256u32 & 256u32 != 0 && 512u32 & 128u32 == 0
        && 512u32 & 256u32 == 0 && 512u32 & 512u32 != 0 && 1024u32 & 128u32 == 0 && 1024u32 & 256u32 == 0
        && 1024u32 & 512u32 == 0 && 1024u32 & 1024u32 != 0 && 2048u32 & 128u32 == 0 && 2048u32 & 256u32 == 0
        && 2048u32 & 512u32 == 0 && 2048u32 & 1024u32 == 0) by (bit_vector);
}

/// The lines of the staged files among `entries`: the letter, a space,
/// the path and a newline each, in order.
pub open spec fn staged_lines(entries: Seq<(Seq<char>, u32)>) -> Seq<char>
    decreases entries.len(),
{
    if entries.len() == 0 {
        Seq::empty()
    } else {
        let e = entries.last();
        staged_lines(entries.drop_last()) + if is_staged(e.1) {
            seq![staged_code(e.1), ' '] + e.0 + seq!['\n']
        } else {
            Seq::empty()
        }
    }
}

/// The lines of the unstaged files among `entries`.
pub open spec fn unstaged_lines(entries: Seq<(Seq<char>, u32)>) -> Seq<char>
    decreases entries.len(),
{
    if entries.len() == 0 {
        Seq::empty()
    } else {
        let e = entries.last();
        unstaged_lines(entries.drop_last()) + if is_unstaged(e.1) {
            seq![unstaged_code(e.1), ' '] + e.0 + seq!['\n']
        } else {
            Seq::empty()
        }
    }
}

/// The listing of a repository: the working directory and the state, then
/// the staged files and the unstaged files, each under its heading where
/// there are any. `space` adds a space at the end of the headings.
pub open spec fn listing_text(workdir: Seq<char>, state: Seq<char>, entries: Seq<(Seq<char>, u32)>, space: bool) -> Seq<
    char,
> {
    let sl = staged_lines(entries);
    let ul = unstaged_lines(entries);
    let sp: Seq<char> = if space { seq![' '] } else { Seq::empty() };
    workdir + seq![':', ' '] + state + seq!['\n'] + (if sl.len() > 0 {
        "\nStaged files:"@ + sp + seq!['\n'] + sl
    } else {
        Seq::empty()
    }) + (if ul.len() > 0 {
        "\nUnstaged files:"@ + sp + seq!['\n'] + ul
    } else {
        Seq::empty()
    })
}

/// What a contract sees of the statuses.
pub open spec fn entries_view(v: Seq<StatusEntry>) -> Seq<(Seq<char>, u32)> {
    v.map_values(|e: StatusEntry| (e.path@, e.status))
}

fn push_all(v: &mut Vec<char>, s: &Vec<char>)
    ensures
        final(v)@ == old(v)@ + s@,
{
    let mut i: usize = 0;
    while i < s.len()
        invariant
            i <= s@.len(),
            v@ == old(v)@ + s@.take(i as int),
        decreases s.len() - i,
    {
        v.push(s[i]);
        assert(v@ =~= old(v)@ + s@.take(i + 1));
        i = i + 1;
    }
    assert(s@.take(i as int) =~= s@);
}

fn staged_code_exec(bits: u32) -> (c: char)
    ensures
        c == staged_code(bits),
{
    if status_is_index_new(bits) {
        'N'
    } else if status_is_index_modified(bits) {
        'M'
    } else if status_is_index_deleted(bits) {
        'D'
    } else if status_is_index_typechange(bits) {
        'T'
    } else {
        'R'
    }
}

fn unstaged_code_exec(bits: u32) -> (c: char)
    ensures
        c == unstaged_code(bits),
{
    if status_is_wt_new(bits) {
        'N'
    } else if status_is_wt_modified(bits) {
        'M'
    } else if status_is_wt_deleted(bits) {
        'D'
    } else if status_is_wt_typechange(bits) {
        'T'
    } else {
        'R'
    }
}

/// The listing of a repository (see `listing_text`).
pub fn status_text(workdir: &str, state: &str, statuses: &Vec<StatusEntry>, space: bool) -> (s: String)
    ensures
        s@ == listing_text(workdir@, state@, entries_view(statuses@), space),
{
    let ghost ev = entries_view(statuses@);
    let mut staged: Vec<char> = Vec::new();
    let mut unstaged: Vec<char> = Vec::new();
    let mut i: usize = 0;
    while i < statuses.len()
        invariant
            i <= statuses@.len(),
            ev == entries_view(statuses@),
            staged@ == staged_lines(ev.take(i as int)),
            unstaged@ == unstaged_lines(ev.take(i as int)),
        decreases statuses.len() - i,
    {
        let bits = statuses[i].status;
        let path = chars_of(statuses[i].path.as_str());
        assert(ev.take(i + 1).drop_last() =~= ev.take(i as int));
        assert(ev.take(i + 1).last() == (statuses@[i as int].path@, bits));
        let st = status_is_index_new(bits) || status_is_index_modified(bits) || status_is_index_deleted(bits)
            || status_is_index_typechange(bits) || status_is_index_renamed(bits);
        if st {
            let c = staged_code_exec(bits);
            let ghost before = staged@;
            staged.push(c);
            staged.push(' ');
            push_all(&mut staged, &path);
            staged.push('\n');
            assert(staged@ =~= before + (seq![c, ' '] + path@ + seq!['\n']));
        }
        let un = (status_is_wt_new(bits) || status_is_wt_modified(bits) || status_is_wt_deleted(bits)
            || status_is_wt_typechange(bits) || status_is_wt_renamed(bits)) && !status_is_ignored(bits);
        if un {
            let c = unstaged_code_exec(bits);
            let ghost before = unstaged@;
            unstaged.push(c);
            unstaged.push(' ');
            push_all(&mut unstaged, &path);
            unstaged.push('\n');
            assert(unstaged@ =~= before + (seq![c, ' '] + path@ + seq!['\n']));
        }
        assert(staged@ =~= staged_lines(ev.take(i + 1)));
        assert(unstaged@ =~= unstaged_lines(ev.take(i + 1)));
        i = i + 1;
    }
    assert(ev.take(i as int) =~= ev);
    let mut out = chars_of(workdir);
    out.push(':');
    out.push(' ');
    let st = chars_of(state);
    push_all(&mut out, &st);
    out.push('\n');
    let ghost head = out@;
    assert(head =~= workdir@ + seq![':', ' '] + state@ + seq!['\n']);
    if staged.len() > 0 {
        let h = chars_of("\nStaged files:");
        push_all(&mut out, &h);
        if space {
            out.push(' ');
        }
        out.push('\n');
        push_all(&mut out, &staged);
    }
    let ghost mid = out@;
    if unstaged.len() > 0 {
        let h = chars_of("\nUnstaged files:");
        push_all(&mut out, &h);
        if space {
            out.push(' ');
        }
        out.push('\n');
        push_all(&mut out, &unstaged);
    }
    proof {
        let sp: Seq<char> = if space { seq![' '] } else { Seq::empty() };
        let a = if staged@.len() > 0 { "\nStaged files:"@ + sp + seq!['\n'] + staged@ } else { Seq::empty() };
        let b = if unstaged@.len() > 0 { "\nUnstaged files:"@ + sp + seq!['\n'] + unstaged@ } else { Seq::empty() };
        assert(mid =~= head + a);
        assert(out@ =~= head + a + b);
    }
    string_from_chars(&out)
}

/// Fails unless the git mode `git_mode` is on in the buffer.
pub fn check_if_in_git_mode(buffer: &Buffer, git_mode: usize) -> (r: Result<(), String>)
    ensures
        buffer.spec_modes().contains(git_mode) ==> r is Ok,
        !buffer.spec_modes().contains(git_mode) ==> error_is(r, ERROR_NOT_IN_GIT_MODE),
{
    if buffer.has_mode(git_mode) {
        Ok(())
    } else {
        Err(String::from_str(ERROR_NOT_IN_GIT_MODE))
    }
}

/// Turns the git mode on in the buffer, unless it is on already.
pub fn turn_on_git_mode(buffer: &mut Buffer, git_mode: usize)
    requires
        old(buffer).wf(),
    ensures
        final(buffer).wf(),
        final(buffer).same_but_modes(old(buffer)),
        final(buffer).spec_modes() == if old(buffer).spec_modes().contains(git_mode) {
            old(buffer).spec_modes()
        } else {
            old(buffer).spec_modes().push(git_mode)
        },
{
    if !buffer.has_mode(git_mode) {
        buffer.add_mode(git_mode);
    }
}

/// Turns the git mode off in the buffer.
pub fn turn_off_git_mode(buffer: &mut Buffer, git_mode: usize)
    requires
        old(buffer).wf(),
    ensures
        final(buffer).wf(),
        final(buffer).same_but_modes(old(buffer)),
        final(buffer).spec_modes() == if old(buffer).spec_modes().contains(git_mode) {
            crate::buffer::without(old(buffer).spec_modes(), git_mode)
        } else {
            old(buffer).spec_modes()
        },
{
    if buffer.has_mode(git_mode) {
        buffer.remove_mode(git_mode);
    }
}

/// Turns the git mode off in the buffer if it is on, and on if it is off.
pub fn toggle_git_mode(buffer: &mut Buffer, git_mode: usize)
    requires
        old(buffer).wf(),
    ensures
        final(buffer).wf(),
        final(buffer).same_but_modes(old(buffer)),
        final(buffer).spec_modes() == if old(buffer).spec_modes().contains(git_mode) {
            crate::buffer::without(old(buffer).spec_modes(), git_mode)
        } else {
            old(buffer).spec_modes().push(git_mode)
        },
{
    if buffer.has_mode(git_mode) {
        buffer.remove_mode(git_mode);
    } else {
        buffer.add_mode(git_mode);
    }
}

/// `prefix` followed by `s`.
pub(crate) fn prefixed(prefix: &str, s: &str) -> (r: String)
    ensures
        r@ == prefix@ + s@,
{
    let mut v = chars_of(prefix);
    let w = chars_of(s);
    push_all(&mut v, &w);
    string_from_chars(&v)
}

/// What refreshing the listing of a repository does to the buffer that
/// shows it, from what git told (`listing`): the buffer is made writable
/// and the git mode is turned on (once more); where git failed, or the
/// repository has no usable working directory, that error is returned.
/// Otherwise the buffer is named after the working directory, holds the
/// listing (see `listing_text`, with `space` as there) with no history, and
/// is made read-only.
pub open spec fn refreshed(a: &Buffer, b: &Buffer, git_mode: usize, listing: Result<RepositoryListing, String>, space: bool, r: Result<(), String>) -> bool {
    &&& b.wf()
    &&& b.spec_modes() == a.spec_modes().push(git_mode)
    &&& b.id() != a.id() || r is Err
    &&& match listing {
        Err(e) => r == Err::<(), String>(e) && !b.spec_read_only() && b@ == a@ && b.history_view() == a.history_view()
            && b.spec_name() == a.spec_name(),
        Ok(l) => match (l.workdir, l.workdir_name) {
            (None, _) => error_is(r, ERROR_REPOSITORY_WORKDIR_NONE) && !b.spec_read_only() && b@ == a@
                && b.history_view() == a.history_view() && b.spec_name() == a.spec_name(),
            (Some(_), None) => error_is(r, ERROR_REPOSITORY_WORKDIR_NONE) && !b.spec_read_only() && b@ == a@
                && b.history_view() == a.history_view() && b.spec_name() == a.spec_name(),
            (Some(_), Some(None)) => error_is(r, ERROR_REPOSITORY_WORKDIR_TO_STR_NONE) && !b.spec_read_only() && b@
                == a@ && b.history_view() == a.history_view() && b.spec_name() == a.spec_name(),
            (Some(w), Some(Some(n))) => {
                &&& b.spec_name().name@ == "*git* "@ + n@
                &&& b.spec_name().path == Some(w)
                &&& match l.statuses {
                    Err(e) => r == Err::<(), String>(e) && !b.spec_read_only() && b@ == a@ && b.history_view()
                        == a.history_view(),
                    Ok(st) => {
                        &&& r is Ok
                        &&& b@ == listing_text(w@, l.state@, entries_view(st@), space)
                        &&& b.history_view().len() == 1
                        &&& b.current() == 0
                        &&& b.spec_read_only()
                    },
                }
            },
        },
    }
}

/// The listing of a repository from its statuses, or the error of
/// reading them.
fn status_text_of(workdir: &str, state: &str, statuses: &Result<Vec<StatusEntry>, String>, space: bool) -> (r: Result<
    String,
    String,
>)
    ensures
        match statuses {
            Ok(st) => r matches Ok(s) && s@ == listing_text(workdir@, state@, entries_view(st@), space),
            Err(e) => r == Err::<String, String>(*e),
        },
{
    match statuses {
        Ok(st) => Ok(status_text(workdir, state, st, space)),
        Err(e) => Err(e.clone()),
    }
}

/// Refreshes the buffer showing a repository from what git told of it, with
/// a space after the headings if `space` (see `refreshed`).
pub fn refresh(buffer: &mut Buffer, git_mode: usize, listing: Result<RepositoryListing, String>, space: bool) -> (r: Result<(), String>)
    requires
        old(buffer).wf(),
    ensures
        refreshed(old(buffer), final(buffer), git_mode, listing, space, r),
{
    buffer.set_read_only(false);
    buffer.add_mode(git_mode);
    let l = match listing {
        Ok(l) => l,
        Err(e) => {
            return Err(e);
        },
    };
    let workdir = match l.workdir {
        Some(w) => w,
        None => {
            return Err(String::from_str(ERROR_REPOSITORY_WORKDIR_NONE));
        },
    };
    let name = match l.workdir_name {
        Some(Some(n)) => n,
        Some(None) => {
            return Err(String::from_str(ERROR_REPOSITORY_WORKDIR_TO_STR_NONE));
        },
        None => {
            return Err(String::from_str(ERROR_REPOSITORY_WORKDIR_NONE));
        },
    };
    let full_name = prefixed("*git* ", name.as_str());
    let text = status_text_of(workdir.as_str(), l.state.as_str(), &l.statuses, space);
    buffer.set_name(BufferName { name: full_name, path: Some(workdir) });
    let text = match text {
        Ok(t) => t,
        Err(e) => {
            return Err(e);
        },
    };
    let _ = buffer.clear();
    let chars = chars_of(text.as_str());
    proof {
        assert(chars@.len() == chars.len());
    }
    let _ = buffer.insert_chars(0, chars);
    buffer.erase_history();
    buffer.set_read_only(true);
    proof {
        assert(Seq::<char>::empty().take(0) + text@ + Seq::<char>::empty().skip(0) =~= text@);
    }
    Ok(())
}

/// Refreshes the buffer showing a repository from what git told of it
/// (see `refreshed`).
pub fn git_refresh_repository(buffer: &mut Buffer, git_mode: usize, listing: Result<RepositoryListing, String>) -> (r: Result<(), String>)
    requires
        old(buffer).wf(),
    ensures
        refreshed(old(buffer), final(buffer), git_mode, listing, false, r),
{
    refresh(buffer, git_mode, listing, false)
}

/// The same, with a space after the headings, for a repository known to
/// have a working directory with a unicode name.
pub fn refresh_git_repository(buffer: &mut Buffer, git_mode: usize, listing: Result<RepositoryListing, String>) -> (r: Result<(), String>)
    requires
        old(buffer).wf(),
        listing matches Ok(l) ==> l.workdir is Some && l.workdir_name matches Some(Some(_)),
    ensures
        refreshed(old(buffer), final(buffer), git_mode, listing, true, r),
{
    refresh(buffer, git_mode, listing, true)
}

/// Going up from the line that starts at `c` (and then on up), the
/// heading met first: `Some(true)` under `Staged files:`, `Some(false)`
/// under `Unstaged files:`, `None` if the top is reached first.
pub open spec fn find_heading(t: Seq<char>, c: int) -> Option<bool>
    decreases c,
{
    if c < 0 || c > t.len() {
        None
    } else {
        let line = t.subrange(c, line_end(t, c));
        if line == "Staged files:"@ {
            Some(true)
        } else if line == "Unstaged files:"@ {
            Some(false)
        } else if c == 0 {
            None
        } else {
            proof {
                lemma_line_start(t, c - 1);
            }
            find_heading(t, line_start(t, c - 1))
        }
    }
}

/// The file on the line of `cursor` in a git listing: the line without its
/// first two characters (the letter and the space), and whether it is
/// under the staged files. It fails outside the git mode, on the first line,
/// where no heading is above, and on a line too short to name a file.
pub open spec fn spec_highlighted_file(t: Seq<char>, cursor: int, in_git_mode: bool) -> Result<(Seq<char>, bool), Seq<char>> {
    if !in_git_mode {
        Err(ERROR_NOT_IN_GIT_MODE@)
    } else {
        let b = line_start(t, cursor);
        if b == 0 {
            Err(ERROR_NO_FILE_HIGHLIGHTED@)
        } else {
            match find_heading(t, line_start(t, b - 1)) {
                None => Err(ERROR_NO_FILE_HIGHLIGHTED@),
                Some(staged) => {
                    let e = line_end(t, cursor);
                    if b + 2 > e {
                        Err(ERROR_NO_FILE_HIGHLIGHTED@)
                    } else {
                        Ok((t.subrange(b + 2, e), staged))
                    }
                },
            }
        }
    }
}

/// Moving up a line from the start of a line goes to the start of the
/// line before, or stays on the first line.
proof fn lemma_line_up(t: Seq<char>, c: int)
    requires
        0 <= c <= t.len(),
        line_start(t, c) == c,
    ensures
        c == 0 ==> forward_line_spec(t, c, -1) == 0,
        c > 0 ==> forward_line_spec(t, c, -1) == line_start(t, c - 1) && line_start(t, c - 1) < c && line_start(
            t,
            line_start(t, c - 1),
        ) == line_start(t, c - 1),
{
    if c > 0 {
        lemma_line_start(t, c - 1);
        let s = line_start(t, c - 1);
        lemma_line_end(t, s);
        assert(crate::movement::lines_up(t, s, 0, 0) == crate::movement::clamp_to_line(t, s, 0));
    } else {
        lemma_line_end(t, 0);
    }
}

/// Whether the buffer's characters from `begin` up to `end` are `s`.
fn region_is(buffer: &Buffer, begin: usize, end: usize, s: &str) -> (r: bool)
    requires
        buffer.wf(),
        begin <= end <= buffer@.len(),
    ensures
        r == (buffer@.subrange(begin as int, end as int) == s@),
{
    let text = match buffer.substring(begin, end) {
        Ok(t) => t,
        Err(_) => {
            return false;
        },
    };
    let a = chars_of(text.as_str());
    let b = chars_of(s);
    chars_equal(&a, &b)
}

/// The file on the line of `cursor` in a git listing, and whether it is
/// staged (see `spec_highlighted_file`).
pub fn get_highlighted_file(buffer: &Buffer, cursor: usize, git_mode: usize) -> (r: Result<(String, bool), String>)
    requires
        buffer.wf(),
        cursor <= buffer@.len(),
        buffer@.len() + cursor <= usize::MAX,
    ensures
        match r {
            Ok((p, staged)) => spec_highlighted_file(buffer@, cursor as int, buffer.spec_modes().contains(git_mode))
                == Ok::<(Seq<char>, bool), Seq<char>>((p@, staged)),
            Err(e) => spec_highlighted_file(buffer@, cursor as int, buffer.spec_modes().contains(git_mode)) == Err::<
                (Seq<char>, bool),
                Seq<char>,
            >(e@),
        },
{
    let ghost t = buffer@;
    let initial_cursor = cursor;
    match check_if_in_git_mode(buffer, git_mode) {
        Ok(()) => {},
        Err(e) => {
            return Err(e);
        },
    }
    let mut c = begin_of_line(buffer, cursor);
    proof {
        lemma_line_start(t, initial_cursor as int);
        lemma_line_start(t, c as int);
        if c > 0 {
            assert(t[c - 1] == '\n');
        }
        lemma_line_up(t, c as int);
    }
    let prev_line = forward_line(buffer, c, -1);
    if prev_line == c {
        return Err(String::from_str(ERROR_NO_FILE_HIGHLIGHTED));
    }
    let b0 = c;
    assert(b0 == line_start(t, initial_cursor as int));
    c = prev_line;
    let mut is_staged = false;
    loop
        invariant
            buffer.wf(),
            t == buffer@,
            c <= t.len(),
            line_start(t, c as int) == c,
            t.len() + c <= usize::MAX,
            find_heading(t, c as int) == find_heading(t, line_start(t, b0 - 1)),
            initial_cursor == cursor,
            b0 == line_start(t, cursor as int),
            b0 > 0,
            buffer.spec_modes().contains(git_mode),
        ensures
            find_heading(t, line_start(t, b0 - 1)) == Some(is_staged),
        decreases c,
    {
        let e = end_of_line(buffer, c);
        proof {
            lemma_line_end(t, c as int);
        }
        if region_is(buffer, c, e, "Staged files:") {
            is_staged = true;
            break;
        }
        if region_is(buffer, c, e, "Unstaged files:") {
            is_staged = false;
            break;
        }
        if c == 0 {
            assert(find_heading(t, c as int) == None::<bool>);
            assert(b0 == line_start(t, initial_cursor as int));
            return Err(String::from_str(ERROR_NO_FILE_HIGHLIGHTED));
        }
        proof {
            lemma_line_up(t, c as int);
        }
        c = forward_line(buffer, c, -1);
    }
    let begin = begin_of_line(buffer, initial_cursor);
    let end = end_of_line(buffer, initial_cursor);
    proof {
        lemma_line_end(t, initial_cursor as int);
    }
    if begin + 2 > end {
        return Err(String::from_str(ERROR_NO_FILE_HIGHLIGHTED));
    }
    match buffer.substring(begin + 2, end) {
        Ok(path) => Ok((path, is_staged)),
        Err(e) => Err(e),
    }
}

/// The staged file on the line of `cursor`; an unstaged one is refused.
pub fn get_highlighted_file_staged(buffer: &Buffer, cursor: usize, git_mode: usize) -> (r: Result<String, String>)
    requires
        buffer.wf(),
        cursor <= buffer@.len(),
        buffer@.len() + cursor <= usize::MAX,
    ensures
        match spec_highlighted_file(buffer@, cursor as int, buffer.spec_modes().contains(git_mode)) {
            Ok((p, true)) => r matches Ok(s) && s@ == p,
            Ok((_, false)) => error_is(r, ERROR_UNSTAGED),
            Err(e) => r matches Err(x) && x@ == e,
        },
{
    let (path, is_staged) = get_highlighted_file(buffer, cursor, git_mode)?;
    if !is_staged {
        return Err(String::from_str(ERROR_UNSTAGED));
    }
    Ok(path)
}

/// The unstaged file on the line of `cursor`; a staged one is refused.
pub fn get_highlighted_file_unstaged(buffer: &Buffer, cursor: usize, git_mode: usize) -> (r: Result<String, String>)
    requires
        buffer.wf(),
        cursor <= buffer@.len(),
        buffer@.len() + cursor <= usize::MAX,
    ensures
        match spec_highlighted_file(buffer@, cursor as int, buffer.spec_modes().contains(git_mode)) {
            Ok((p, false)) => r matches Ok(s) && s@ == p,
            Ok((_, true)) => error_is(r, ERROR_STAGED),
            Err(e) => r matches Err(x) && x@ == e,
        },
{
    let (path, is_staged) = get_highlighted_file(buffer, cursor, git_mode)?;
    if is_staged {
        return Err(String::from_str(ERROR_STAGED));
    }
    Ok(path)
}

/// One thing that git reports while it walks the changes of a file.
pub enum DiffPart {
    /// A changed file: its old and new paths, and whether the two are the
    /// same path.
    File { old: String, new: String, same: bool },
    /// A binary file changed.
    Binary,
    /// The header of a block of changed lines.
    Hunk(String),
    /// A line, with the character that tells how it changed.
    Line { origin: char, content: String },
}

/// How a part of the changes is shown.
pub open spec fn diff_part_text(d: DiffPart) -> Seq<char> {
    match d {
        DiffPart::File { old, new, same } => if same {
            old@ + seq!['\n']
        } else {
            old@ + seq![' ', 'v', 's', ' '] + new@ + seq!['\n']
        },
        DiffPart::Binary => seq![
            'B', 'i', 'n', 'a', 'r', 'y', ' ', 'f', 'i', 'l', 'e', ' ', 'c', 'h', 'a', 'n', 'g', 'e', 'd'
        ],
        DiffPart::Hunk(h) => h@,
        DiffPart::Line { origin, content } => seq![origin] + content@,
    }
}

/// How the changes are shown: each part, in order.
pub open spec fn diff_text_of(ds: Seq<DiffPart>) -> Seq<char>
    decreases ds.len(),
{
    if ds.len() == 0 {
        Seq::empty()
    } else {
        diff_text_of(ds.drop_last()) + diff_part_text(ds.last())
    }
}

/// The text that shows the changes that git reported.
pub fn diff_text(parts: &Vec<DiffPart>) -> (t: String)
    ensures
        t@ == diff_text_of(parts@),
{
    let mut v: Vec<char> = Vec::new();
    let mut i: usize = 0;
    proof {
        assert(parts@.take(0) =~= Seq::<DiffPart>::empty());
    }
    while i < parts.len()
        invariant
            i <= parts@.len(),
            v@ == diff_text_of(parts@.take(i as int)),
        decreases parts.len() - i,
    {
        let ghost before = v@;
        match &parts[i] {
            DiffPart::File { old, new, same } => {
                push_all(&mut v, &chars_of(old.as_str()));
                if !*same {
                    v.push(' ');
                    v.push('v');
                    v.push('s');
                    v.push(' ');
                    push_all(&mut v, &chars_of(new.as_str()));
                }
                v.push('\n');
            },
            DiffPart::Binary => {
                push_all(&mut v, &chars_of("Binary file changed"));
                proof {
                    reveal_strlit("Binary file changed");
                }
            },
            DiffPart::Hunk(h) => {
                push_all(&mut v, &chars_of(h.as_str()));
            },
            DiffPart::Line { origin, content } => {
                v.push(*origin);
                push_all(&mut v, &chars_of(content.as_str()));
            },
        }
        proof {
            assert(v@ =~= before + diff_part_text(parts@[i as int]));
            assert(parts@.take(i + 1).drop_last() =~= parts@.take(i as int));
        }
        i = i + 1;
    }
    proof {
        assert(parts@.take(i as int) =~= parts@);
    }
    string_from_chars(&v)
}

} // verus!
