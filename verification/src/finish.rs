use vstd::prelude::*;
use crate::buffer::{Buffer, BufferName, NodeView, root_node, spec_file_name, spec_path_join, path_join, error_is};
use crate::command::Command;
use crate::git::{RepositoryListing, refreshed, refresh, prefixed};
use crate::input::{Input, Key};
use crate::key_map::{KeyMap, BindView, maps_view, maps_wf, with_binding, find, lemma_bind_single};
use crate::layout::{Layout, lemma_replace_keeps};
use crate::listing::{directory_shown, directory_text};
use crate::state::{State, Frame, Mode, FallthroughBehavior};
use crate::text::{chars_of, string_from_chars};
use crate::window::Window;

verus! {

broadcast use vstd::string::group_string_axioms;

pub const ERROR_NO_FILE_NAME: &'static str = "Error: Path has no file name";

/// A window onto buffer `buffer` as made new: cursor at the start, no modes,
/// no mark, nothing killed.
pub open spec fn fresh_window(w: Window, buffer: usize) -> bool {
    &&& w.buffer == buffer
    &&& w.cursor.location() == 0
    &&& w.cursor.node() is None
    &&& w.window_modes@.len() == 0
    &&& w.mark is None
    &&& w.kill_ring.texts().len() == 0
}

/// `b` is `a` with buffer `buf` added and shown in a new window that takes
/// the place of the selected window, and is selected.
pub open spec fn shown(a: &State, b: &State, buf: Buffer) -> bool {
    let nw = a.windows@.len() as usize;
    let f = a.frame();
    &&& b.buffers@ == a.buffers@.push(buf)
    &&& b.windows@.len() == a.windows@.len() + 1
    &&& b.windows@.take(a.windows@.len() as int) == a.windows@
    &&& fresh_window(b.windows@[nw as int], a.buffers@.len() as usize)
    &&& b.display.frames@ == a.display.frames@.update(
        a.display.selected_frame as int,
        Frame {
            layout: f.layout.replaced(f.selected_window, Layout::Window(nw)),
            selected_window: nw,
            messages: f.messages,
        },
    )
    &&& b.display.selected_frame == a.display.selected_frame
    &&& b.key_maps@ == a.key_maps@
    &&& b.modes@ == a.modes@
    &&& b.default_key_map == a.default_key_map
    &&& b.global_modes@ == a.global_modes@
    &&& b.closed_successfully == a.closed_successfully
    &&& b.logger == a.logger
    &&& b.git_mode == a.git_mode
}

/// Shows `buffer` in a new window in the place of the selected window, and
/// selects that window; its index is returned.
pub fn show_buffer(state: &mut State, buffer: Buffer) -> (w: usize)
    requires
        old(state).wf(),
        buffer.wf(),
    ensures
        final(state).wf(),
        shown(old(state), final(state), buffer),
        w == old(state).windows@.len(),
{
    proof {
        state.lemma_selected();
    }
    let b = state.add_buffer(buffer);
    let w = state.add_window(Window::new(b));
    let f = state.display.selected_frame;
    let ghost frame0 = state.display.frames@[f as int];
    let ghost mid = *state;
    state.display.frames[f].replace_selected_window(w);
    proof {
        assert(old(state).frame_ok(frame0));
        lemma_replace_keeps(frame0.layout, frame0.selected_window, w);
        let nf = state.display.frames@[f as int];
        assert(state.frame_ok(nf));
        assert forall|g: int| 0 <= g < state.display.frames@.len() implies #[trigger] state.frame_ok(
            state.display.frames@[g],
        ) by {
            if g != f {
                assert(mid.frame_ok(mid.display.frames@[g]));
            }
        }
        assert forall|i: int| 0 <= i < state.buffers@.len() implies #[trigger] state.buffers@[i].wf() by {
            assert(mid.buffers@[i].wf());
        }
        assert forall|i: int| 0 <= i < state.windows@.len() implies #[trigger] state.windows@[i].wf()
            && state.windows@[i].buffer < state.buffers@.len() by {
            assert(mid.windows@[i].wf());
        }
        assert(state.windows@.take(old(state).windows@.len() as int) =~= old(state).windows@);
        assert(fresh_window(state.windows@[w as int], old(state).buffers@.len() as usize));
        assert(frame0 == old(state).frame());
        assert(state.display.frames@ =~= old(state).display.frames@.update(
            old(state).display.selected_frame as int,
            Frame {
                layout: frame0.layout.replaced(frame0.selected_window, Layout::Window(w)),
                selected_window: w,
                messages: frame0.messages,
            },
        ));
        assert(mid.wf());
        assert(state.wf());
    }
    w
}

/// What the editor was given for a path: the text of a file, or the names
/// in a directory.
pub enum FileContents {
    Text(String),
    Directory(Vec<String>),
}

/// `t` is what is shown of the path `path` holding `contents`.
pub open spec fn opened(path: Seq<char>, contents: FileContents, t: Seq<char>) -> bool {
    match contents {
        FileContents::Text(s) => t == s@,
        FileContents::Directory(es) => directory_shown(path, es@.map_values(|s: String| s@), t),
    }
}

/// A buffer as `new_with_contents` makes it: named `name`, holding `t`,
/// whose history records `t` being inserted into an empty text.
pub open spec fn made_with(b: &Buffer, name: BufferName, t: Seq<char>) -> bool {
    &&& b.wf()
    &&& b@ == t
    &&& b.history_view() == seq![root_node(Seq::empty()), NodeView {
        pred: Some(0usize),
        is_insert: true,
        loc: 0,
        s: t,
        len: t.len(),
        text: t,
    }]
    &&& b.current() == 1
    &&& b.spec_name() == name
    &&& !b.spec_read_only()
    &&& b.spec_modes().len() == 0
}

/// A buffer showing the file or directory at `path` (which has a last
/// component), given what it holds.
pub fn open_file(path: String, contents: FileContents) -> (b: Buffer)
    requires
        spec_file_name(path@) is Some,
    ensures
        opened(path@, contents, b@),
        made_with(&b, b.spec_name(), b@),
        b.spec_name().name@ == spec_file_name(path@)->0,
        b.spec_name().path == Some(path),
{
    let name = BufferName::from_path(path.clone());
    let text = match contents {
        FileContents::Text(s) => s,
        FileContents::Directory(es) => directory_text(path.as_str(), es),
    };
    let b = Buffer::new_with_contents(name, text.as_str());
    b
}

/// Shows in the selected window's place the file or directory at `path`,
/// given what reading it gave: the error of reading it, or what it holds.
/// A path with no last component is refused.
pub fn finish_open_file(state: &mut State, path: String, contents: Result<FileContents, String>) -> (r: Result<
    (),
    String,
>)
    requires
        old(state).wf(),
    ensures
        final(state).wf(),
        match contents {
            Err(e) => r == Err::<(), String>(e) && *final(state) == *old(state),
            Ok(c) => if spec_file_name(path@) is None {
                error_is(r, ERROR_NO_FILE_NAME) && *final(state) == *old(state)
            } else {
                let b = final(state).buffers@.last();
                &&& r is Ok
                &&& shown(old(state), final(state), b)
                &&& opened(path@, c, b@)
                &&& made_with(&b, b.spec_name(), b@)
                &&& b.spec_name().name@ == spec_file_name(path@)->0
                &&& b.spec_name().path == Some(path)
            },
        },
{
    let c = match contents {
        Err(e) => {
            return Err(e);
        },
        Ok(c) => c,
    };
    if BufferName::try_from_path(path.clone()).is_none() {
        return Err(String::from_str(ERROR_NO_FILE_NAME));
    }
    let b = open_file(path, c);
    show_buffer(state, b);
    Ok(())
}

/// The letter keys, unmodified, that the git mode binds.
pub open spec fn letter(c: char) -> Input {
    Input { control: false, alt: false, key: Key::Key(c) }
}

/// The key map of the git mode: `g` lists the repository again, `a` stages
/// the file on the cursor's line, `u` unstages it, `d` shows its changes.
pub open spec fn git_key_bindings() -> Seq<(Input, BindView)> {
    seq![
        (letter('g'), BindView::Command(Command::GitRefreshRepository)),
        (letter('a'), BindView::Command(Command::GitAdd)),
        (letter('u'), BindView::Command(Command::GitUnstage)),
        (letter('d'), BindView::Command(Command::GitDiff)),
    ]
}

fn letter_exec(c: char) -> (i: Input)
    ensures
        i == letter(c),
{
    Input { control: false, alt: false, key: Key::Key(c) }
}

/// Binds the unmodified key `c` to `command` in key map `k`.
fn bind_letter(maps: &mut Vec<KeyMap>, k: usize, c: char, command: Command)
    requires
        maps_wf(maps_view(old(maps)@)),
        k < old(maps)@.len(),
    ensures
        maps_wf(maps_view(final(maps)@)),
        final(maps)@.len() == old(maps)@.len(),
        maps_view(final(maps)@) == maps_view(old(maps)@).update(
            k as int,
            with_binding(maps_view(old(maps)@)[k as int], letter(c), BindView::Command(command)),
        ),
{
    let mut keys: Vec<Input> = Vec::new();
    keys.push(letter_exec(c));
    proof {
        lemma_bind_single(maps_view(maps@), k, letter(c), BindView::Command(command));
        assert(keys@ =~= seq![letter(c)]);
    }
    KeyMap::bind(maps, k, keys, command);
    proof {
        assert(maps_view(maps@).len() == maps@.len());
    }
}

/// `b` is `a` with the git mode, `g`, made if it was not yet.
pub open spec fn git_mode_made(a: &State, b: &State, g: usize) -> bool {
    &&& b.git_mode == Some(g)
    &&& a.git_mode matches Some(x) ==> g == x && *b == *a
    &&& a.git_mode is None ==> {
        &&& g == a.modes@.len()
        &&& b.modes@ == a.modes@.push(
            Mode { key_map: a.key_maps@.len() as usize, fallthrough_behavior: FallthroughBehavior::Continue },
        )
        &&& maps_view(b.key_maps@) == maps_view(a.key_maps@).push(git_key_bindings())
        &&& b.buffers@ == a.buffers@
        &&& b.windows@ == a.windows@
        &&& b.display.frames@ == a.display.frames@
        &&& b.display.selected_frame == a.display.selected_frame
        &&& b.global_modes@ == a.global_modes@
        &&& b.default_key_map == a.default_key_map
        &&& b.closed_successfully == a.closed_successfully
        &&& b.logger == a.logger
    }
}

/// The mode of buffers that list a git repository; it is made, with its
/// key map, the first time it is asked for.
pub fn git_mode(state: &mut State) -> (g: usize)
    requires
        old(state).wf(),
    ensures
        final(state).wf(),
        git_mode_made(old(state), final(state), g),
{
    if let Some(g) = state.git_mode {
        return g;
    }
    proof {
        assert(state.key_maps@.len() == state.key_maps.len());
    }
    let g = state.add_mode(FallthroughBehavior::Continue);
    let k = state.modes[g].key_map;
    let ghost m0 = maps_view(state.key_maps@);
    proof {
        assert(k == old(state).key_maps@.len());
        assert(state.key_maps@[k as int] == state.key_maps@.last());
        assert(m0[k as int] == state.key_maps@[k as int]@);
        assert(m0[k as int] =~= Seq::<(Input, BindView)>::empty());
        assert forall|i: int| 0 <= i < k implies #[trigger] m0[i] == maps_view(old(state).key_maps@)[i] by {
            assert(state.key_maps@.take(k as int)[i] == state.key_maps@[i]);
        }
        assert(maps_view(old(state).key_maps@) =~= m0.take(k as int));
    }
    bind_letter(&mut state.key_maps, k, 'g', Command::GitRefreshRepository);
    bind_letter(&mut state.key_maps, k, 'a', Command::GitAdd);
    bind_letter(&mut state.key_maps, k, 'u', Command::GitUnstage);
    bind_letter(&mut state.key_maps, k, 'd', Command::GitDiff);
    state.git_mode = Some(g);
    proof {
        reveal_with_fuel(find, 5);
        let e = Seq::<(Input, BindView)>::empty();
        let s1 = with_binding(e, letter('g'), BindView::Command(Command::GitRefreshRepository));
        assert(s1 =~= git_key_bindings().take(1));
        let s2 = with_binding(s1, letter('a'), BindView::Command(Command::GitAdd));
        assert(s2 =~= git_key_bindings().take(2));
        let s3 = with_binding(s2, letter('u'), BindView::Command(Command::GitUnstage));
        assert(s3 =~= git_key_bindings().take(3));
        let s4 = with_binding(s3, letter('d'), BindView::Command(Command::GitDiff));
        assert(s4 =~= git_key_bindings());
        assert(maps_view(state.key_maps@) =~= maps_view(old(state).key_maps@).push(git_key_bindings()));
        assert forall|f: int| 0 <= f < state.display.frames@.len() implies #[trigger] state.frame_ok(
            state.display.frames@[f],
        ) by {
            assert(old(state).frame_ok(state.display.frames@[f]));
        }
    }
    g
}

/// A buffer as `Buffer::new` makes it, named after the file at `path`.
pub open spec fn empty_buffer_at(b: &Buffer, path: String) -> bool {
    &&& b.wf()
    &&& b@ == Seq::<char>::empty()
    &&& b.history_view() == seq![root_node(Seq::empty())]
    &&& b.current() == 0
    &&& b.spec_name().name@ == spec_file_name(path@)->0
    &&& b.spec_name().path == Some(path)
    &&& !b.spec_read_only()
    &&& b.spec_modes().len() == 0
}

/// Lists the git repository at `path` in a new buffer shown in the
/// selected window's place, from what git told of it (`listing`). The git
/// mode is made first if need be; where the listing fails, its error is
/// returned and nothing else changes.
pub fn finish_git_open_repository(
    state: &mut State,
    path: String,
    listing: Result<RepositoryListing, String>,
    spaced: bool,
) -> (r: Result<(), String>)
    requires
        old(state).wf(),
    ensures
        final(state).wf(),
        spec_file_name(path@) is None ==> error_is(r, ERROR_NO_FILE_NAME) && *final(state) == *old(state),
        spec_file_name(path@) is Some ==> exists|mid: State, b0: Buffer, b1: Buffer|
            #![trigger refreshed(&b0, &b1, final(state).git_mode->0, listing, spaced, r), git_mode_made(old(state), &mid, final(state).git_mode->0)]
            git_mode_made(old(state), &mid, final(state).git_mode->0) && empty_buffer_at(&b0, path)
                && refreshed(&b0, &b1, final(state).git_mode->0, listing, spaced, r) && (r is Ok ==> shown(
                &mid,
                final(state),
                b1,
            )) && (r is Err ==> *final(state) == mid),
{
    let name = match BufferName::try_from_path(path.clone()) {
        Some(n) => n,
        None => {
            return Err(String::from_str(ERROR_NO_FILE_NAME));
        },
    };
    let g = git_mode(state);
    let ghost mid = *state;
    let mut buffer = Buffer::new(name);
    let ghost b0 = buffer;
    let r = refresh(&mut buffer, g, listing, spaced);
    let ghost b1 = buffer;
    if r.is_err() {
        proof {
            assert(git_mode_made(old(state), &mid, state.git_mode->0));
            assert(refreshed(&b0, &b1, state.git_mode->0, listing, spaced, r));
        }
        return r;
    }
    show_buffer(state, buffer);
    proof {
        assert(git_mode_made(old(state), &mid, state.git_mode->0));
        assert(refreshed(&b0, &b1, state.git_mode->0, listing, spaced, r));
    }
    r
}

/// `b` is `a` with the git mode made if need be and buffer `buffer` listing
/// its repository again from what git told (`listing`).
pub open spec fn git_refresh_done(
    a: &State,
    b: &State,
    buffer: usize,
    listing: Result<RepositoryListing, String>,
    spaced: bool,
    r: Result<(), String>,
) -> bool {
    exists|mid: State|
        #![trigger git_mode_made(a, &mid, b.git_mode->0)]
        git_mode_made(a, &mid, b.git_mode->0) && b.buffers@ == mid.buffers@.update(buffer as int, b.buffers@[buffer as int])
            && refreshed(&mid.buffers@[buffer as int], &b.buffers@[buffer as int], b.git_mode->0, listing, spaced, r)
            && b.windows@ == mid.windows@ && b.display.frames@ == mid.display.frames@ && b.display.selected_frame
            == mid.display.selected_frame && b.key_maps@ == mid.key_maps@ && b.modes@ == mid.modes@
            && b.default_key_map == mid.default_key_map && b.global_modes@ == mid.global_modes@
            && b.closed_successfully == mid.closed_successfully && b.logger == mid.logger && b.git_mode == mid.git_mode
}

/// Lists again, in buffer `buffer`, the repository it shows, from what git
/// told of it (`listing`); the git mode is made first if need be.
pub fn finish_git_refresh(
    state: &mut State,
    buffer: usize,
    listing: Result<RepositoryListing, String>,
    spaced: bool,
) -> (r: Result<(), String>)
    requires
        old(state).wf(),
        buffer < old(state).buffers@.len(),
    ensures
        final(state).wf(),
        git_refresh_done(old(state), final(state), buffer, listing, spaced, r),
{
    let g = git_mode(state);
    let ghost mid = *state;
    let r = refresh(&mut state.buffers[buffer], g, listing, spaced);
    proof {
        assert(state.buffers@ =~= mid.buffers@.update(buffer as int, state.buffers@[buffer as int]));
        state.lemma_buffer_kept(&mid, buffer as int);
        assert(git_mode_made(old(state), &mid, state.git_mode->0));
    }
    r
}

/// The buffer that shows the changes `t` of `file` in the repository at
/// `path`: named after the file, holding `t`, read only.
pub open spec fn diff_buffer(b: &Buffer, path: Seq<char>, file: Seq<char>, t: Seq<char>) -> bool {
    &&& b.wf()
    &&& b@ == t
    &&& b.history_view() == seq![root_node(Seq::empty()), NodeView {
        pred: Some(0usize),
        is_insert: true,
        loc: 0,
        s: t,
        len: t.len(),
        text: t,
    }]
    &&& b.current() == 1
    &&& b.spec_name().name@ == "*git diff* "@ + spec_path_join(path, file)
    &&& b.spec_name().path matches Some(p) && p@ == spec_path_join(path, file)
    &&& b.spec_read_only()
    &&& b.spec_modes().len() == 0
}

/// Shows the changes of `file` in the repository at `path` in a new
/// buffer in the selected window's place, then lists again the repository
/// in buffer `buffer`, from what git told of them (`diff`, `listing`).
pub fn finish_git_diff(
    state: &mut State,
    path: String,
    file: String,
    diff: Result<String, String>,
    buffer: usize,
    listing: Result<RepositoryListing, String>,
) -> (r: Result<(), String>)
    requires
        old(state).wf(),
        buffer < old(state).buffers@.len(),
    ensures
        final(state).wf(),
        match diff {
            Err(e) => r == Err::<(), String>(e) && *final(state) == *old(state),
            Ok(t) => exists|mid: State|
                #![trigger shown(old(state), &mid, mid.buffers@.last())]
                shown(old(state), &mid, mid.buffers@.last()) && diff_buffer(&mid.buffers@.last(), path@, file@, t@)
                    && git_refresh_done(&mid, final(state), buffer, listing, false, r),
        },
{
    let t = match diff {
        Err(e) => {
            return Err(e);
        },
        Ok(t) => t,
    };
    let joined = path_join(&path, &file);
    let name = BufferName { name: prefixed("*git diff* ", joined.as_str()), path: Some(joined) };
    let mut b = Buffer::new_with_contents(name, t.as_str());
    b.set_read_only(true);
    show_buffer(state, b);
    let ghost mid = *state;
    let r = finish_git_refresh(state, buffer, listing, false);
    proof {
        assert(shown(old(state), &mid, mid.buffers@.last()));
    }
    r
}

} // verus!
