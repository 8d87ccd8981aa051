use vstd::prelude::*;
use crate::buffer_contents::{BufferContents, BufferContentsIterator};
use crate::change::{Change, spec_offset_redo, spec_offset_undo};
use crate::text::{chars_of, string_from_chars};

verus! {

broadcast use vstd::string::group_string_axioms;

pub const ERROR_READ_ONLY: &'static str = "Error: Buffer is read only";

pub const ERROR_INSERT_OUT_OF_BOUNDS: &'static str = "Error: Index out of bounds in Buffer::insert()";

pub const ERROR_INSERT_STR_OUT_OF_BOUNDS: &'static str = "Error: Index out of bounds in Buffer::insert_str()";

pub const ERROR_DELETE_OUT_OF_BOUNDS: &'static str = "Error: Index out of bounds in Buffer::delete()";

pub const ERROR_DELETE_REGION_OUT_OF_BOUNDS: &'static str =
    "Error: Index out of bounds in Buffer::delete_region()";

/// The name of a buffer, and the file it shows if any.
pub struct BufferName {
    pub name: String,
    pub path: Option<String>,
}

/// What `Path::parent` gives for a path.
pub uninterp spec fn spec_path_parent(p: Seq<char>) -> Option<Seq<char>>;

/// `Path::parent`: the path without its last component, if it has one.
/// The contract names the result and claims only that it depends on the
/// path alone.
#[verifier::external_body]
fn path_parent(p: &String) -> (r: Option<String>)
    ensures
        match r {
            Some(s) => spec_path_parent(p@) == Some(s@),
            None => spec_path_parent(p@) is None,
        },
{
    std::path::Path::new(p.as_str()).parent().map(|q| q.to_string_lossy().into_owned())
}

/// What `Path::file_name` gives for a path: its last component, if it
/// has one.
pub uninterp spec fn spec_file_name(p: Seq<char>) -> Option<Seq<char>>;

/// `Path::file_name`: the last component of the path, if there is one (a
/// path that ends in `..`, or is only a root, has none). The contract names
/// the result; it depends on the path alone.
#[verifier::external_body]
fn path_file_name(p: &String) -> (r: Option<String>)
    ensures
        match r {
            Some(s) => spec_file_name(p@) == Some(s@),
            None => spec_file_name(p@) is None,
        },
{
    std::path::Path::new(p.as_str()).file_name().map(|n| n.to_string_lossy().into_owned())
}

/// What `Path::join` gives for a path and a path to put after it, as shown.
pub uninterp spec fn spec_path_join(base: Seq<char>, p: Seq<char>) -> Seq<char>;

/// `Path::join`: `p` put after `base` (or `p` alone where it is absolute),
/// as shown. The contract names the result; it depends on the two paths
/// alone.
#[verifier::external_body]
pub(crate) fn path_join(base: &String, p: &String) -> (r: String)
    ensures
        r@ == spec_path_join(base@, p@),
{
    std::path::Path::new(base.as_str()).join(p.as_str()).display().to_string()
}

impl BufferName {
    /// The name of the file at `path`: its last component, with the path.
    pub fn from_path(path: String) -> (b: BufferName)
        requires
            spec_file_name(path@) is Some,
        ensures
            b.name@ == spec_file_name(path@)->0,
            b.path == Some(path),
    {
        match path_file_name(&path) {
            Some(name) => BufferName { name, path: Some(path) },
            None => BufferName { name: String::new(), path: Some(path) },
        }
    }

    /// The name of the file at `path`, if the path has a last component.
    pub fn try_from_path(path: String) -> (b: Option<BufferName>)
        ensures
            spec_file_name(path@) is None ==> b is None,
            spec_file_name(path@) is Some ==> (b matches Some(n) && n.name@ == spec_file_name(path@)->0 && n.path
                == Some(path)),
    {
        match path_file_name(&path) {
            Some(_) => Some(BufferName::from_path(path)),
            None => None,
        }
    }

    /// The name shown for the buffer.
    pub fn display_name(&self) -> (s: &String)
        ensures
            s == self.name,
    {
        &self.name
    }

    /// A name that is not tied to a file.
    pub fn from_name(name: &str) -> (b: BufferName)
        ensures
            b.name@ == name@,
            b.path is None,
    {
        BufferName { name: String::from_str(name), path: None }
    }

    /// The directory that holds the buffer's file, if it has one.
    pub fn parent(&self) -> (r: Option<String>)
        ensures
            self.path is None ==> r is None,
            self.path matches Some(p) ==> match r {
                Some(s) => spec_path_parent(p@) == Some(s@),
                None => spec_path_parent(p@) is None,
            },
    {
        match &self.path {
            Some(p) => path_parent(p),
            None => None,
        }
    }
}

/// Refers to one node of one buffer's history.
#[derive(Clone, Copy, PartialEq, Eq, Structural, Debug)]
pub struct NodeRef {
    pub history: u64,
    pub node: usize,
}

/// A node of the history tree: the edit that led to it from its parent.
pub struct StateNode {
    pub pred: Option<usize>,
    pub change: Change,
    /// The text as it stands at this node.
    pub text: Ghost<Seq<char>>,
}

/// What a contract sees of a history node.
pub ghost struct NodeView {
    pub pred: Option<usize>,
    pub is_insert: bool,
    pub loc: nat,
    pub s: Seq<char>,
    pub len: nat,
    pub text: Seq<char>,
}

/// `x`, or `len` if `x` is past it.
pub open spec fn clamp(x: int, len: nat) -> int {
    if x <= len { x } else { len as int }
}

/// The parent of node `i`, or -1 at the root.
pub open spec fn parent(h: Seq<NodeView>, i: int) -> int {
    match h[i].pred {
        Some(p) => p as int,
        None => -1,
    }
}

/// `a` lies on the path from the root to `b` (or is `b`).
pub open spec fn is_anc(h: Seq<NodeView>, a: int, b: int) -> bool
    decreases b,
{
    if b < 0 || b >= h.len() {
        false
    } else if a == b {
        true
    } else if 0 <= parent(h, b) < b {
        is_anc(h, a, parent(h, b))
    } else {
        false
    }
}

/// A cursor position after node `i`'s edit, kept within `usize`.
pub open spec fn step_redo(h: Seq<NodeView>, i: int, loc: int) -> int {
    let x = spec_offset_redo(h[i].is_insert, h[i].loc as int, h[i].len as int, loc);
    if x > usize::MAX { usize::MAX as int } else { x }
}

/// A cursor position after node `i`'s edit is reverted, kept within `usize`.
pub open spec fn step_undo(h: Seq<NodeView>, i: int, loc: int) -> int {
    let x = spec_offset_undo(h[i].is_insert, h[i].loc as int, h[i].len as int, loc);
    if x > usize::MAX { usize::MAX as int } else { x }
}

/// Where a cursor at `loc` in the text of node `a` is in the text of node
/// `b`: the edits on the path of the tree from `a` to `b` are reverted on
/// the way up and applied on the way down.
pub open spec fn transform(h: Seq<NodeView>, a: int, b: int, loc: int) -> int
    decreases a + b,
{
    if a < 0 || b < 0 || a == b {
        loc
    } else if is_anc(h, a, b) {
        if 0 <= parent(h, b) < b {
            step_redo(h, b, transform(h, a, parent(h, b), loc))
        } else {
            loc
        }
    } else if 0 <= parent(h, a) < a {
        transform(h, parent(h, a), b, step_undo(h, a, loc))
    } else {
        loc
    }
}

/// Reverts every edit from node `a` up to the root.
pub open spec fn undo_to_root(h: Seq<NodeView>, a: int, loc: int) -> int {
    transform(h, a, 0, loc)
}

/// The text and the history of edits that produced it.
///
/// All locations count characters.
pub struct Buffer {
    buffer_contents: BufferContents,
    history: Vec<StateNode>,
    last_child: Vec<Option<usize>>,
    current_state: usize,
    history_id: u64,
    path: Ghost<Seq<usize>>,
    /// The name of the buffer.
    pub name: BufferName,
    /// The modes turned on in this buffer.
    pub buffer_modes: Vec<usize>,
    pub read_only: bool,
}

/// `s` without the elements equal to `m`.
pub open spec fn without(s: Seq<usize>, m: usize) -> Seq<usize>
    decreases s.len(),
{
    if s.len() == 0 {
        s
    } else if s.last() == m {
        without(s.drop_last(), m)
    } else {
        without(s.drop_last(), m).push(s.last())
    }
}

/// The root of a history whose text starts as `t`: it records no edit.
pub open spec fn root_node(t: Seq<char>) -> NodeView {
    NodeView { pred: None, is_insert: false, loc: 0, s: Seq::empty(), len: 0, text: t }
}

pub open spec fn node_view(n: StateNode) -> NodeView {
    NodeView {
        pred: n.pred,
        is_insert: n.change.is_insert,
        loc: n.change.loc as nat,
        s: n.change.s@,
        len: n.change.len_chars as nat,
        text: n.text@,
    }
}

/// The text of a child node follows from its parent's by the child's edit.
/// (An empty region deleted past the end of the text is recorded too; it
/// changes nothing.)
pub open spec fn edit_applies(n: NodeView, before: Seq<char>) -> bool {
    &&& n.len == n.s.len()
    &&& if n.is_insert {
        &&& n.loc <= before.len()
        &&& n.text == before.take(n.loc as int) + n.s + before.skip(n.loc as int)
    } else if n.loc > before.len() {
        &&& n.len == 0
        &&& n.text == before
    } else {
        &&& n.loc + n.len <= before.len()
        &&& before.subrange(n.loc as int, (n.loc + n.len) as int) == n.s
        &&& n.text == before.take(n.loc as int) + before.skip((n.loc + n.len) as int)
    }
}

impl Buffer {
    pub closed spec fn history_view(&self) -> Seq<NodeView> {
        self.history@.map_values(|n: StateNode| node_view(n))
    }

    /// The node whose text the buffer holds.
    pub closed spec fn current(&self) -> nat {
        self.current_state as nat
    }

    /// Tells histories apart: it changes when the history is erased.
    pub closed spec fn id(&self) -> u64 {
        self.history_id
    }

    /// The child that `redo` moves to from node `i`.
    pub closed spec fn last_child_of(&self, i: int) -> Option<usize> {
        self.last_child@[i]
    }

    /// The path from the root to the current node.
    pub closed spec fn current_path(&self) -> Seq<usize> {
        self.path@
    }

    pub closed spec fn spec_name(&self) -> BufferName {
        self.name
    }

    pub closed spec fn spec_read_only(&self) -> bool {
        self.read_only
    }

    pub closed spec fn spec_modes(&self) -> Seq<usize> {
        self.buffer_modes@
    }

    pub closed spec fn wf(&self) -> bool {
        &&& self.wf_history()
        &&& self.buffer_contents.wf()
        &&& self.buffer_contents@ == self.history_view()[self.current_state as int].text
    }

    /// The history is a tree whose nodes' texts follow from one another by
    /// their edits, and the path from its root to the current node goes
    /// through the children that `redo` picks.
    pub closed spec fn wf_history(&self) -> bool {
        let h = self.history_view();
        let p = self.path@;
        &&& h.len() >= 1
        &&& self.last_child@.len() == h.len()
        &&& self.current_state < h.len()
        &&& h[0].pred is None
        &&& h[0].len == 0 && h[0].loc == 0 && !h[0].is_insert && h[0].s.len() == 0
        &&& forall|i: int| 0 < i < h.len() ==> (#[trigger] h[i].pred matches Some(q) && q < i
            && edit_applies(h[i], h[q as int].text))
        &&& forall|i: int| 0 <= i < h.len() ==> #[trigger] h[i].text.len() <= usize::MAX
        &&& forall|i: int| 0 <= i < h.len() ==> (#[trigger] self.last_child@[i] matches Some(c) ==> (i
            < c < h.len() && h[c as int].pred == Some(i as usize)))
        &&& p.len() >= 1
        &&& p[0] == 0
        &&& p.last() == self.current_state
        &&& forall|k: int| 0 <= k < p.len() ==> #[trigger] p[k] < h.len()
        &&& forall|k: int| 0 <= k < p.len() - 1 ==> h[#[trigger] p[k + 1] as int].pred == Some(p[k])
            && self.last_child@[p[k] as int] == Some(p[k + 1])
        &&& forall|j: int, k: int| 0 <= j < k < p.len() ==> #[trigger] p[j] < #[trigger] p[k]
    }
}

impl View for Buffer {
    type V = Seq<char>;

    closed spec fn view(&self) -> Seq<char> {
        self.buffer_contents@
    }
}

pub open spec fn error_is<T>(r: Result<T, String>, msg: &str) -> bool {
    r matches Err(e) && e@ == msg@
}

pub const ERROR_UNDO_OUT_OF_BOUNDS: &'static str = "Error: Index out of bounds in Buffer::undo()";

/// `b` is `a` with one more edit, `n`, recorded and applied.
pub open spec fn recorded(a: &Buffer, b: &Buffer, n: NodeView) -> bool {
    &&& b.history_view() == a.history_view().push(n)
    &&& b.current() == a.history_view().len()
    &&& b.current_path() == a.current_path().push(a.history_view().len() as usize)
    &&& b@ == n.text
    &&& b.id() == a.id()
    &&& b.spec_name() == a.spec_name()
    &&& b.spec_modes() == a.spec_modes()
    &&& b.spec_read_only() == a.spec_read_only()
}

/// `b` is `a` moved back to the parent of its current node.
pub open spec fn undone(a: &Buffer, b: &Buffer) -> bool {
    &&& a.history_view()[a.current() as int].pred == Some(b.current() as usize)
    &&& b@ == a.history_view()[b.current() as int].text
    &&& b.history_view() == a.history_view()
    &&& b.current_path() == a.current_path().drop_last()
    &&& b.id() == a.id()
    &&& b.spec_name() == a.spec_name()
    &&& b.spec_modes() == a.spec_modes()
    &&& b.spec_read_only() == a.spec_read_only()
    &&& forall|i: int| #![trigger b.last_child_of(i)] 0 <= i < b.history_view().len() ==> b.last_child_of(i) == a.last_child_of(i)
}

/// `b` is `a` moved forward to the child that `redo` picks.
pub open spec fn redone(a: &Buffer, b: &Buffer) -> bool {
    &&& a.last_child_of(a.current() as int) == Some(b.current() as usize)
    &&& b@ == a.history_view()[b.current() as int].text
    &&& b.history_view() == a.history_view()
    &&& b.current_path() == a.current_path().push(b.current() as usize)
    &&& b.id() == a.id()
    &&& b.spec_name() == a.spec_name()
    &&& b.spec_modes() == a.spec_modes()
    &&& b.spec_read_only() == a.spec_read_only()
    &&& forall|i: int| #![trigger b.last_child_of(i)] 0 <= i < b.history_view().len() ==> b.last_child_of(i) == a.last_child_of(i)
}

/// Reverting the edit of node `n` fails: it deleted an empty region past
/// the end of the text.
pub open spec fn undo_fails(n: NodeView) -> bool {
    !n.is_insert && n.loc > n.text.len()
}

impl Buffer {
    proof fn lemma_node_view(&self, i: int)
        requires
            0 <= i < self.history@.len(),
        ensures
            self.history_view()[i] == node_view(self.history@[i]),
            self.history_view().len() == self.history@.len(),
    {
    }

    /// A buffer holding `contents`: its history records their insertion
    /// into an empty text, so that cursors made before it move past them.
    pub fn new_with_contents(name: BufferName, contents: &str) -> (b: Self)
        ensures
            b.wf(),
            b@ == contents@,
            b.history_view() == seq![root_node(Seq::empty()), NodeView {
                pred: Some(0usize),
                is_insert: true,
                loc: 0,
                s: contents@,
                len: contents@.len(),
                text: contents@,
            }],
            b.current() == 1,
            b.current_path() == seq![0usize, 1usize],
            b.spec_name() == name,
            !b.spec_read_only(),
            b.spec_modes().len() == 0,
    {
        let mut b = Self::new(name);
        let chars = chars_of(contents);
        proof {
            assert(chars@.len() == chars.len());
        }
        let r = b.insert_chars(0, chars);
        proof {
            assert(Seq::<char>::empty().take(0) + contents@ + Seq::<char>::empty().skip(0) =~= contents@);
            assert(b.current_path() =~= seq![0usize, 1usize]);
        }
        b
    }

    /// An empty buffer with an empty history.
    pub fn new(name: BufferName) -> (b: Self)
        ensures
            b.wf(),
            b@ == Seq::<char>::empty(),
            b.history_view() == seq![root_node(Seq::empty())],
            b.current() == 0,
            b.current_path() == seq![0usize],
            b.spec_name() == name,
            !b.spec_read_only(),
            b.spec_modes().len() == 0,
    {
        Self::new_with_buffer_contents(name, BufferContents::new())
    }

    fn new_with_buffer_contents(name: BufferName, contents: BufferContents) -> (b: Self)
        requires
            contents.wf(),
        ensures
            b.wf(),
            b@ == contents@,
            b.history_view() == seq![root_node(contents@)],
            b.current() == 0,
            b.current_path() == seq![0usize],
            b.spec_name() == name,
            !b.spec_read_only(),
            b.spec_modes().len() == 0,
    {
        let ghost t = contents@;
        let mut history: Vec<StateNode> = Vec::new();
        history.push(StateNode { pred: None, change: Change::empty(), text: Ghost(t) });
        let mut last_child: Vec<Option<usize>> = Vec::new();
        last_child.push(None);
        let b = Buffer {
            buffer_contents: contents,
            history,
            last_child,
            current_state: 0,
            history_id: 0,
            path: Ghost(Seq::<usize>::empty().push(0usize)),
            name,
            buffer_modes: Vec::new(),
            read_only: false,
        };
        proof {
            b.lemma_node_view(0);
            b.buffer_contents.lemma_len_bound();
        }
        b
    }

    /// The number of characters.
    pub fn len(&self) -> (l: usize)
        requires
            self.wf(),
        ensures
            l == self@.len(),
    {
        self.buffer_contents.len()
    }

    /// An iterator over the characters.
    pub fn iter(&self) -> (it: BufferContentsIterator)
        requires
            self.wf(),
        ensures
            it.wf(),
            it.remaining() == self@,
    {
        self.buffer_contents.iter()
    }

    /// The character at `loc`.
    pub fn get(&self, loc: usize) -> (r: Result<char, ()>)
        requires
            self.wf(),
        ensures
            loc < self@.len() ==> r == Ok::<char, ()>(self@[loc as int]),
            loc >= self@.len() ==> r is Err,
    {
        self.buffer_contents.get(loc)
    }

    /// The text from `begin` up to `end`, both cut to the length of the text.
    pub fn substring(&self, begin: usize, end: usize) -> (r: Result<String, String>)
        requires
            self.wf(),
            begin <= end,
        ensures
            r matches Ok(s) && s@ == self@.subrange(
                if begin <= self@.len() { begin as int } else { self@.len() as int },
                if end <= self@.len() { end as int } else { self@.len() as int },
            ),
    {
        match self.buffer_contents.substring(begin, end) {
            Ok(s) => Ok(s),
            Err(()) => Err(String::from_str("Error: Index out of bounds in Buffer::substring()")),
        }
    }

    /// The whole text.
    pub fn to_string(&self) -> (s: String)
        requires
            self.wf(),
        ensures
            s@ == self@,
    {
        self.buffer_contents.to_string()
    }

    /// Records `change`, which turned the current node's text into the
    /// text now held, as a new child of the current node and moves to it.
    fn add_change(&mut self, change: Change)
        requires
            old(self).wf_history(),
            old(self).buffer_contents.wf(),
            edit_applies(
                NodeView {
                    pred: Some(old(self).current_state),
                    is_insert: change.is_insert,
                    loc: change.loc as nat,
                    s: change.s@,
                    len: change.len_chars as nat,
                    text: old(self).buffer_contents@,
                },
                old(self).history_view()[old(self).current_state as int].text,
            ),
        ensures
            final(self).wf(),
            final(self)@ == old(self)@,
            final(self).history_view() == old(self).history_view().push(
                NodeView {
                    pred: Some(old(self).current_state),
                    is_insert: change.is_insert,
                    loc: change.loc as nat,
                    s: change.s@,
                    len: change.len_chars as nat,
                    text: old(self).buffer_contents@,
                },
            ),
            final(self).current() == old(self).history_view().len(),
            final(self).id() == old(self).id(),
            final(self).spec_name() == old(self).spec_name(),
            final(self).spec_modes() == old(self).spec_modes(),
            final(self).spec_read_only() == old(self).spec_read_only(),
            final(self).current_path() == old(self).current_path().push(old(self).history_view().len() as usize),
    {
        let idx = self.history.len();
        let cur = self.current_state;
        let ghost h0 = self.history_view();
        let ghost nv = NodeView {
            pred: Some(cur),
            is_insert: change.is_insert,
            loc: change.loc as nat,
            s: change.s@,
            len: change.len_chars as nat,
            text: self.buffer_contents@,
        };
        let ghost t = self.buffer_contents@;
        self.history.push(StateNode { pred: Some(cur), change, text: Ghost(t) });
        self.last_child.push(None);
        self.last_child.set(cur, Some(idx));
        self.current_state = idx;
        proof {
            self.buffer_contents.lemma_len_bound();
            self.path@ = self.path@.push(idx);
            assert(self.history_view() =~= h0.push(nv)) by {
                assert forall|i: int| 0 <= i < self.history_view().len() implies #[trigger] self.history_view()[i]
                    == h0.push(nv)[i] by {
                    if i < h0.len() {
                        assert(self.history@[i] == old(self).history@[i]);
                    }
                }
            }
            let h = self.history_view();
            let p = self.path@;
            let p0 = old(self).path@;
            assert forall|i: int| 0 <= i < h.len() implies (#[trigger] self.last_child@[i] matches Some(c) ==> (i
                < c < h.len() && h[c as int].pred == Some(i as usize))) by {
                if i < h0.len() && i != cur {
                    assert(self.last_child@[i] == old(self).last_child@[i]);
                    if let Some(c) = self.last_child@[i] {
                        assert(h[c as int] == h0[c as int]);
                    }
                }
            }
            assert forall|k: int| 0 <= k < p.len() - 1 implies h[#[trigger] p[k + 1] as int].pred == Some(p[k])
                && self.last_child@[p[k] as int] == Some(p[k + 1]) by {
                if k < p.len() - 2 {
                    assert(p[k] == p0[k]);
                    assert(p[k + 1] == p0[k + 1]);
                    assert(p0[k] < p0[p0.len() - 1]);
                    assert(h[p[k + 1] as int] == h0[p0[k + 1] as int]);
                }
            }
            assert forall|k: int| 0 <= k < p.len() implies #[trigger] p[k] < h.len() by {
                if k < p.len() - 1 {
                    assert(p[k] == p0[k]);
                }
            }
            assert forall|j: int, k: int| 0 <= j < k < p.len() implies #[trigger] p[j] < #[trigger] p[k] by {
                if k < p.len() - 1 {
                    assert(p[j] == p0[j]);
                    assert(p[k] == p0[k]);
                } else {
                    assert(p[j] == p0[j]);
                }
            }
            assert forall|i: int| 0 < i < h.len() implies (#[trigger] h[i].pred matches Some(q) && q < i
                && edit_applies(h[i], h[q as int].text)) by {
                if i < h0.len() {
                    assert(h[i] == h0[i]);
                    assert(h0[i].pred matches Some(q) && h[q as int] == h0[q as int]);
                }
            }
            assert forall|i: int| 0 <= i < h.len() implies #[trigger] h[i].text.len() <= usize::MAX by {
                if i < h0.len() {
                    assert(h[i] == h0[i]);
                }
            }
        }
    }

    /// Inserts `c` at `loc` and records the edit.
    pub fn insert(&mut self, loc: usize, c: char) -> (r: Result<(), String>)
        requires
            old(self).wf(),
            old(self)@.len() + 1 <= usize::MAX,
        ensures
            final(self).wf(),
            old(self).spec_read_only() ==> error_is(r, ERROR_READ_ONLY) && *final(self) == *old(self),
            !old(self).spec_read_only() && loc > old(self)@.len() ==> error_is(r, ERROR_INSERT_OUT_OF_BOUNDS)
                && *final(self) == *old(self),
            !old(self).spec_read_only() && loc <= old(self)@.len() ==> r is Ok && recorded(
                old(self),
                final(self),
                NodeView {
                    pred: Some(old(self).current() as usize),
                    is_insert: true,
                    loc: loc as nat,
                    s: seq![c],
                    len: 1,
                    text: old(self)@.insert(loc as int, c),
                },
            ),
    {
        if self.read_only {
            return Err(String::from_str(ERROR_READ_ONLY));
        }
        let ghost before = self@;
        let r = self.buffer_contents.insert(loc, c);
        if r.is_err() {
            return Err(String::from_str(ERROR_INSERT_OUT_OF_BOUNDS));
        }
        let mut s: Vec<char> = Vec::new();
        s.push(c);
        assert(self@ =~= before.take(loc as int) + s@ + before.skip(loc as int));
        self.add_change(Change { loc, s, len_chars: 1, is_insert: true });
        assert(seq![c] =~= Seq::<char>::empty().push(c));
        Ok(())
    }

    /// Inserts `s` at `loc` and records the edit.
    pub fn insert_str(&mut self, loc: usize, s: &str) -> (r: Result<(), String>)
        requires
            old(self).wf(),
            old(self)@.len() + s@.len() <= usize::MAX,
        ensures
            final(self).wf(),
            old(self).spec_read_only() ==> error_is(r, ERROR_READ_ONLY) && *final(self) == *old(self),
            !old(self).spec_read_only() && loc > old(self)@.len() ==> error_is(r, ERROR_INSERT_STR_OUT_OF_BOUNDS)
                && *final(self) == *old(self),
            !old(self).spec_read_only() && loc <= old(self)@.len() ==> r is Ok && recorded(
                old(self),
                final(self),
                NodeView {
                    pred: Some(old(self).current() as usize),
                    is_insert: true,
                    loc: loc as nat,
                    s: s@,
                    len: s@.len(),
                    text: old(self)@.take(loc as int) + s@ + old(self)@.skip(loc as int),
                },
            ),
    {
        let chars = chars_of(s);
        self.insert_chars(loc, chars)
    }

    /// Inserts the characters `chars` at `loc` and records the edit.
    pub(crate) fn insert_chars(&mut self, loc: usize, chars: Vec<char>) -> (r: Result<(), String>)
        requires
            old(self).wf(),
            old(self)@.len() + chars@.len() <= usize::MAX,
        ensures
            final(self).wf(),
            old(self).spec_read_only() ==> error_is(r, ERROR_READ_ONLY) && *final(self) == *old(self),
            !old(self).spec_read_only() && loc > old(self)@.len() ==> error_is(r, ERROR_INSERT_STR_OUT_OF_BOUNDS)
                && *final(self) == *old(self),
            !old(self).spec_read_only() && loc <= old(self)@.len() ==> r is Ok && recorded(
                old(self),
                final(self),
                NodeView {
                    pred: Some(old(self).current() as usize),
                    is_insert: true,
                    loc: loc as nat,
                    s: chars@,
                    len: chars@.len(),
                    text: old(self)@.take(loc as int) + chars@ + old(self)@.skip(loc as int),
                },
            ),
    {
        if self.read_only {
            return Err(String::from_str(ERROR_READ_ONLY));
        }
        let r = self.buffer_contents.insert_chars(loc, &chars);
        if r.is_err() {
            return Err(String::from_str(ERROR_INSERT_STR_OUT_OF_BOUNDS));
        }
        let len_chars = chars.len();
        self.add_change(Change { loc, s: chars, len_chars, is_insert: true });
        Ok(())
    }

    /// Deletes the character at `loc` and records the edit.
    pub fn delete(&mut self, loc: usize) -> (r: Result<(), String>)
        requires
            old(self).wf(),
        ensures
            final(self).wf(),
            old(self).spec_read_only() ==> error_is(r, ERROR_READ_ONLY) && *final(self) == *old(self),
            !old(self).spec_read_only() && loc >= old(self)@.len() ==> error_is(r, ERROR_DELETE_OUT_OF_BOUNDS)
                && *final(self) == *old(self),
            !old(self).spec_read_only() && loc < old(self)@.len() ==> r is Ok && recorded(
                old(self),
                final(self),
                NodeView {
                    pred: Some(old(self).current() as usize),
                    is_insert: false,
                    loc: loc as nat,
                    s: seq![old(self)@[loc as int]],
                    len: 1,
                    text: old(self)@.remove(loc as int),
                },
            ),
    {
        if self.read_only {
            return Err(String::from_str(ERROR_READ_ONLY));
        }
        let c = match self.buffer_contents.get(loc) {
            Ok(c) => c,
            Err(()) => {
                return Err(String::from_str(ERROR_DELETE_OUT_OF_BOUNDS));
            },
        };
        let ghost before = self@;
        let _ = self.buffer_contents.delete(loc);
        let mut s: Vec<char> = Vec::new();
        s.push(c);
        assert(before.subrange(loc as int, loc + 1) =~= s@);
        assert(self@ =~= before.take(loc as int) + before.skip(loc + 1));
        self.add_change(Change { loc, s, len_chars: 1, is_insert: false });
        assert(seq![c] =~= Seq::<char>::empty().push(c));
        assert(before.remove(loc as int) =~= before.take(loc as int) + before.skip(loc + 1));
        Ok(())
    }

    /// Deletes the text from `begin` up to `end` and records the edit.
    /// A region that runs past the end of the text stops at the end.
    pub fn delete_region(&mut self, begin: usize, end: usize) -> (r: Result<(), String>)
        requires
            old(self).wf(),
            begin <= end,
        ensures
            final(self).wf(),
            old(self).spec_read_only() ==> error_is(r, ERROR_READ_ONLY) && *final(self) == *old(self),
            !old(self).spec_read_only() && begin < end && begin > old(self)@.len() ==> error_is(
                r,
                ERROR_DELETE_REGION_OUT_OF_BOUNDS,
            ) && *final(self) == *old(self),
            !old(self).spec_read_only() && (begin == end || begin <= old(self)@.len()) ==> r is Ok
                && recorded(
                old(self),
                final(self),
                NodeView {
                    pred: Some(old(self).current() as usize),
                    is_insert: false,
                    loc: begin as nat,
                    s: old(self)@.subrange(clamp(begin as int, old(self)@.len()), clamp(end as int, old(self)@.len())),
                    len: (clamp(end as int, old(self)@.len()) - clamp(begin as int, old(self)@.len())) as nat,
                    text: if begin <= old(self)@.len() {
                        old(self)@.take(begin as int) + old(self)@.skip(clamp(end as int, old(self)@.len()))
                    } else {
                        old(self)@
                    },
                },
            ),
    {
        if self.read_only {
            return Err(String::from_str(ERROR_READ_ONLY));
        }
        let ghost before = self@;
        let s = self.buffer_contents.substring_chars(begin, end);
        let r = self.buffer_contents.delete_region(begin, end);
        if r.is_err() {
            return Err(String::from_str(ERROR_DELETE_REGION_OUT_OF_BOUNDS));
        }
        let len_chars = s.len();
        proof {
            if begin == end && begin <= before.len() {
                assert(before =~= before.take(begin as int) + before.skip(begin as int));
            }
        }
        self.add_change(Change { loc: begin, s, len_chars, is_insert: false });
        Ok(())
    }

    /// Deletes the whole text and records the edit.
    pub fn clear(&mut self) -> (r: Result<(), String>)
        requires
            old(self).wf(),
        ensures
            final(self).wf(),
            old(self).spec_read_only() ==> error_is(r, ERROR_READ_ONLY) && *final(self) == *old(self),
            !old(self).spec_read_only() ==> r is Ok && recorded(
                old(self),
                final(self),
                NodeView {
                    pred: Some(old(self).current() as usize),
                    is_insert: false,
                    loc: 0,
                    s: old(self)@,
                    len: old(self)@.len(),
                    text: Seq::empty(),
                },
            ),
    {
        let len = self.len();
        let ghost before = self@;
        let r = self.delete_region(0, len);
        assert(before.subrange(0, len as int) =~= before);
        assert(before.take(0) + before.skip(len as int) =~= Seq::<char>::empty());
        r
    }

    /// Reverts the edit that led to the current node and moves to its
    /// parent. Answers whether there was an edit to revert.
    pub fn undo(&mut self) -> (r: Result<bool, String>)
        requires
            old(self).wf(),
        ensures
            final(self).wf(),
            old(self).spec_read_only() ==> error_is(r, ERROR_READ_ONLY) && *final(self) == *old(self),
            !old(self).spec_read_only() && old(self).current() == 0 ==> r == Ok::<bool, String>(false)
                && *final(self) == *old(self),
            !old(self).spec_read_only() && old(self).current() != 0 && undo_fails(
                old(self).history_view()[old(self).current() as int],
            ) ==> error_is(r, ERROR_UNDO_OUT_OF_BOUNDS) && *final(self) == *old(self),
            !old(self).spec_read_only() && old(self).current() != 0 && !undo_fails(
                old(self).history_view()[old(self).current() as int],
            ) ==> r == Ok::<bool, String>(true) && undone(old(self), final(self)),
    {
        if self.read_only {
            return Err(String::from_str(ERROR_READ_ONLY));
        }
        let cur = self.current_state;
        let pred = match self.history[cur].pred {
            Some(p) => p,
            None => {
                proof {
                    self.lemma_node_view(cur as int);
                    if cur > 0 {
                        assert(self.history_view()[cur as int].pred is Some);
                    }
                }
                return Ok(false);
            },
        };
        proof {
            self.lemma_node_view(cur as int);
            self.lemma_node_view(pred as int);
            self.buffer_contents.lemma_len_bound();
        }
        let ghost h = self.history_view();
        assert(h[cur as int].pred == Some(pred));
        let ghost before = h[pred as int].text;
        let loc = self.history[cur].change.loc;
        let len = self.history[cur].change.len_chars;
        if self.history[cur].change.is_insert {
            let _ = self.buffer_contents.delete_region(loc, loc + len);
            assert(self@ =~= before);
        } else {
            let r = self.buffer_contents.insert_chars(loc, &self.history[cur].change.s);
            if r.is_err() {
                return Err(String::from_str(ERROR_UNDO_OUT_OF_BOUNDS));
            }
            assert(self@ =~= before);
        }
        self.current_state = pred;
        proof {
            let p = self.path@;
            assert(p.len() >= 2);
            let k = p.len() - 2;
            assert(h[p[k + 1] as int].pred == Some(p[k]));
            self.path@ = p.drop_last();
        }
        Ok(true)
    }

    /// Re-applies the edit of the child that the last `undo` left, or the
    /// newest child, and moves to it. Answers whether there was one.
    pub fn redo(&mut self) -> (r: Result<bool, String>)
        requires
            old(self).wf(),
        ensures
            final(self).wf(),
            old(self).spec_read_only() ==> error_is(r, ERROR_READ_ONLY) && *final(self) == *old(self),
            !old(self).spec_read_only() && old(self).last_child_of(old(self).current() as int) is None ==> r
                == Ok::<bool, String>(false) && *final(self) == *old(self),
            !old(self).spec_read_only() && old(self).last_child_of(old(self).current() as int) is Some ==> r
                == Ok::<bool, String>(true) && redone(old(self), final(self)),
    {
        if self.read_only {
            return Err(String::from_str(ERROR_READ_ONLY));
        }
        let cur = self.current_state;
        let next = match self.last_child[cur] {
            Some(n) => n,
            None => {
                return Ok(false);
            },
        };
        proof {
            self.lemma_node_view(cur as int);
            self.lemma_node_view(next as int);
        }
        let ghost h = self.history_view();
        let ghost after = h[next as int].text;
        assert(h[next as int].pred == Some(cur));
        assert(edit_applies(h[next as int], h[cur as int].text));
        assert(after.len() <= usize::MAX);
        let loc = self.history[next].change.loc;
        let len = self.history[next].change.len_chars;
        if !self.history[next].change.is_insert {
            let _ = self.buffer_contents.delete_region(loc, loc + len);
            assert(self@ =~= after);
        } else {
            let _ = self.buffer_contents.insert_chars(loc, &self.history[next].change.s);
            assert(self@ =~= after);
        }
        self.current_state = next;
        proof {
            self.path@ = self.path@.push(next);
            let p = self.path@;
            assert forall|j: int, k: int| 0 <= j < k < p.len() implies #[trigger] p[j] < #[trigger] p[k] by {
                if k == p.len() - 1 && j < k {
                    assert(p[j] <= cur);
                }
            }
        }
        Ok(true)
    }

    /// Everything of `other` but whether it is read-only is as in `self`.
    pub open spec fn same_but_read_only(&self, other: &Buffer) -> bool {
        &&& self@ == other@
        &&& self.history_view() == other.history_view()
        &&& self.current() == other.current()
        &&& self.current_path() == other.current_path()
        &&& self.id() == other.id()
        &&& self.spec_name() == other.spec_name()
        &&& self.spec_modes() == other.spec_modes()
        &&& forall|i: int| #![trigger self.last_child_of(i)] self.last_child_of(i) == other.last_child_of(i)
    }

    /// Makes the buffer read-only, or not.
    pub fn set_read_only(&mut self, read_only: bool)
        requires
            old(self).wf(),
        ensures
            final(self).wf(),
            final(self).spec_read_only() == read_only,
            final(self).same_but_read_only(old(self)),
    {
        self.read_only = read_only;
    }

    /// Whether the buffer is read-only.
    pub fn is_read_only(&self) -> (r: bool)
        ensures
            r == self.spec_read_only(),
    {
        self.read_only
    }

    /// Everything of `other` but its modes is as in `self`.
    pub open spec fn same_but_modes(&self, other: &Buffer) -> bool {
        &&& self@ == other@
        &&& self.history_view() == other.history_view()
        &&& self.current() == other.current()
        &&& self.current_path() == other.current_path()
        &&& self.id() == other.id()
        &&& self.spec_name() == other.spec_name()
        &&& self.spec_read_only() == other.spec_read_only()
        &&& forall|i: int| #![trigger self.last_child_of(i)] self.last_child_of(i) == other.last_child_of(i)
    }

    /// Whether mode `m` is on in the buffer.
    pub fn has_mode(&self, m: usize) -> (r: bool)
        ensures
            r == self.spec_modes().contains(m),
    {
        let mut i: usize = 0;
        while i < self.buffer_modes.len()
            invariant
                i <= self.buffer_modes@.len(),
                forall|j: int| 0 <= j < i ==> self.buffer_modes@[j] != m,
            decreases self.buffer_modes.len() - i,
        {
            if self.buffer_modes[i] == m {
                assert(self.spec_modes()[i as int] == m);
                return true;
            }
            i = i + 1;
        }
        false
    }

    /// Turns mode `m` on (once more).
    pub fn add_mode(&mut self, m: usize)
        requires
            old(self).wf(),
        ensures
            final(self).wf(),
            final(self).spec_modes() == old(self).spec_modes().push(m),
            final(self).same_but_modes(old(self)),
    {
        self.buffer_modes.push(m);
    }

    /// Turns mode `m` off.
    pub fn remove_mode(&mut self, m: usize)
        requires
            old(self).wf(),
        ensures
            final(self).wf(),
            final(self).spec_modes() == without(old(self).spec_modes(), m),
            final(self).same_but_modes(old(self)),
    {
        let mut kept: Vec<usize> = Vec::new();
        let mut i: usize = 0;
        while i < self.buffer_modes.len()
            invariant
                i <= self.buffer_modes@.len(),
                kept@ == without(self.buffer_modes@.take(i as int), m),
            decreases self.buffer_modes.len() - i,
        {
            let x = self.buffer_modes[i];
            proof {
                let s = self.buffer_modes@.take(i + 1);
                assert(s.drop_last() =~= self.buffer_modes@.take(i as int));
            }
            if x != m {
                kept.push(x);
            }
            i = i + 1;
        }
        assert(self.buffer_modes@.take(i as int) =~= self.buffer_modes@);
        self.buffer_modes = kept;
    }

    /// Renames the buffer.
    pub fn set_name(&mut self, name: BufferName)
        requires
            old(self).wf(),
        ensures
            final(self).wf(),
            final(self).spec_name() == name,
            final(self)@ == old(self)@,
            final(self).history_view() == old(self).history_view(),
            final(self).current() == old(self).current(),
            final(self).id() == old(self).id(),
            final(self).spec_read_only() == old(self).spec_read_only(),
            final(self).spec_modes() == old(self).spec_modes(),
    {
        self.name = name;
    }

    /// The buffer's name.
    pub fn name(&self) -> (n: &BufferName)
        ensures
            *n == self.spec_name(),
    {
        &self.name
    }

    /// Forgets every edit: the current text becomes the root of a new history.
    pub fn erase_history(&mut self)
        requires
            old(self).wf(),
        ensures
            final(self).wf(),
            final(self)@ == old(self)@,
            final(self).history_view().len() == 1,
            final(self).current() == 0,
            final(self).id() != old(self).id(),
            final(self).spec_name() == old(self).spec_name(),
            final(self).spec_modes() == old(self).spec_modes(),
            final(self).spec_read_only() == old(self).spec_read_only(),
    {
        let ghost t = self.buffer_contents@;
        let mut history: Vec<StateNode> = Vec::new();
        history.push(StateNode { pred: None, change: Change::empty(), text: Ghost(t) });
        let mut last_child: Vec<Option<usize>> = Vec::new();
        last_child.push(None);
        self.history = history;
        self.last_child = last_child;
        self.current_state = 0;
        self.history_id = self.history_id.wrapping_add(1);
        proof {
            self.path@ = Seq::<usize>::empty().push(0usize);
            self.lemma_node_view(0);
            self.buffer_contents.lemma_len_bound();
        }
    }

    /// A history has at most `usize::MAX` nodes.
    /// The text fits in memory.
    pub proof fn lemma_len_bound(&self)
        requires
            self.wf(),
        ensures
            self@.len() <= usize::MAX,
    {
        self.buffer_contents.lemma_len_bound();
    }

    pub proof fn lemma_history_len(&self)
        ensures
            self.history_view().len() <= usize::MAX,
    {
        assert(self.history_view().len() == self.history@.len());
        assert(self.history@.len() == self.history.len());
    }

    /// What well-formedness tells of the history: the text is that of the
    /// current node, and the path from the root to it goes from parent to
    /// child through the children that `redo` picks.
    pub proof fn lemma_wf_facts(&self)
        requires
            self.wf(),
        ensures
            self.current() < self.history_view().len(),
            self@ == self.history_view()[self.current() as int].text,
            self.history_view()[0].pred is None,
            self.current_path().len() >= 1,
            self.current_path()[0] == 0,
            self.current_path().last() == self.current(),
            forall|k: int| #![trigger self.current_path()[k]]
                0 <= k < self.current_path().len() - 1 ==> self.history_view()[self.current_path()[k + 1] as int].pred
                    == Some(self.current_path()[k]) && self.last_child_of(self.current_path()[k] as int) == Some(
                    self.current_path()[k + 1],
                ),
            forall|i: int| #![trigger self.last_child_of(i)]
                0 <= i < self.history_view().len() ==> (self.last_child_of(i) matches Some(c) ==> i < c
                    < self.history_view().len() && self.history_view()[c as int].pred == Some(i as usize)),
            forall|i: int| #![trigger self.history_view()[i].pred]
                0 < i < self.history_view().len() ==> (self.history_view()[i].pred matches Some(q) && q < i),
    {
        let p = self.path@;
        assert forall|k: int| #![trigger self.current_path()[k]]
            0 <= k < self.current_path().len() - 1 implies self.history_view()[self.current_path()[k + 1] as int].pred
                == Some(self.current_path()[k]) && self.last_child_of(self.current_path()[k] as int) == Some(
                self.current_path()[k + 1],
            ) by {
            assert(self.history_view()[#[trigger] p[k + 1] as int].pred == Some(p[k]));
        }
    }

    proof fn lemma_tree(&self)
        requires
            self.wf_history(),
        ensures
            tree_ok(self.history_view()),
    {
    }

    /// Whether node `a` lies on the path from the root to node `b`.
    fn is_ancestor_exec(&self, a: usize, b: usize) -> (r: bool)
        requires
            self.wf_history(),
            a < self.history_view().len(),
            b < self.history_view().len(),
        ensures
            r == is_anc(self.history_view(), a as int, b as int),
    {
        let ghost h = self.history_view();
        proof {
            self.lemma_tree();
        }
        let mut y = b;
        while y > a
            invariant
                self.wf_history(),
                h == self.history_view(),
                tree_ok(h),
                y < h.len(),
                is_anc(h, a as int, b as int) == is_anc(h, a as int, y as int),
            decreases y,
        {
            proof {
                self.lemma_node_view(y as int);
            }
            match self.history[y].pred {
                Some(p) => {
                    y = p;
                },
                None => {
                    assert(false);
                    return false;
                },
            }
        }
        proof {
            if y < a {
                lemma_anc_le(h, a as int, y as int);
            }
        }
        y == a
    }

    /// A cursor position after node `i`'s edit, kept within `usize`.
    fn step_redo_exec(&self, i: usize, loc: usize) -> (r: usize)
        requires
            self.wf_history(),
            i < self.history_view().len(),
        ensures
            r == step_redo(self.history_view(), i as int, loc as int),
    {
        proof {
            self.lemma_edit_bounds(i as int);
        }
        let c = &self.history[i].change;
        if c.is_insert && loc >= c.loc && loc > usize::MAX - c.len_chars {
            usize::MAX
        } else {
            c.offset_cursor_redo(loc)
        }
    }

    /// A cursor position after node `i`'s edit is reverted, kept within `usize`.
    fn step_undo_exec(&self, i: usize, loc: usize) -> (r: usize)
        requires
            self.wf_history(),
            i < self.history_view().len(),
        ensures
            r == step_undo(self.history_view(), i as int, loc as int),
    {
        proof {
            self.lemma_edit_bounds(i as int);
        }
        let c = &self.history[i].change;
        if !c.is_insert && loc >= c.loc && loc > usize::MAX - c.len_chars {
            usize::MAX
        } else {
            c.offset_cursor_undo(loc)
        }
    }

    proof fn lemma_edit_bounds(&self, i: int)
        requires
            self.wf_history(),
            0 <= i < self.history_view().len(),
        ensures
            self.history_view()[i].loc + self.history_view()[i].len <= usize::MAX,
            self.history_view()[i] == node_view(self.history@[i]),
    {
        let h = self.history_view();
        self.lemma_node_view(i);
        if i > 0 {
            let q = h[i].pred->0 as int;
            assert(edit_applies(h[i], h[q].text));
            assert(h[q].text.len() <= usize::MAX);
            assert(h[i].text.len() <= usize::MAX);
        }
    }

    /// Moves a cursor position from the text of node `a` to the text of the
    /// current node along the path between them in the history tree.
    fn transform_exec(&self, a: usize, loc: usize) -> (r: usize)
        requires
            self.wf_history(),
            a < self.history_view().len(),
        ensures
            r == transform(self.history_view(), a as int, self.current() as int, loc as int),
    {
        let ghost h = self.history_view();
        let b = self.current_state;
        proof {
            self.lemma_tree();
        }
        let mut x = a;
        let mut l = loc;
        while !self.is_ancestor_exec(x, b)
            invariant
                self.wf_history(),
                h == self.history_view(),
                tree_ok(h),
                b == self.current_state,
                x < h.len(),
                b < h.len(),
                transform(h, a as int, b as int, loc as int) == transform(h, x as int, b as int, l as int),
            decreases x,
        {
            proof {
                self.lemma_node_view(x as int);
                lemma_root_anc(h, b as int);
                assert(is_anc(h, b as int, b as int));
            }
            let p = match self.history[x].pred {
                Some(p) => p,
                None => {
                    assert(false);
                    0
                },
            };
            l = self.step_undo_exec(x, l);
            x = p;
        }
        let mut path: Vec<usize> = Vec::new();
        let mut y = b;
        while y != x
            invariant
                self.wf_history(),
                h == self.history_view(),
                tree_ok(h),
                x < h.len(),
                y < h.len(),
                b < h.len(),
                is_anc(h, x as int, y as int),
                is_anc(h, x as int, b as int),
                path@.len() == 0 ==> y == b,
                path@.len() > 0 ==> path@[0] == b,
                forall|k: int| 0 <= k < path@.len() ==> #[trigger] path@[k] < h.len() && path@[k] != x
                    && is_anc(h, x as int, path@[k] as int)
                    && parent(h, path@[k] as int) == (if k + 1 < path@.len() { path@[k + 1] as int } else { y as int })
                    && 0 <= parent(h, path@[k] as int) < path@[k],
            decreases y,
        {
            proof {
                self.lemma_node_view(y as int);
                lemma_anc_le(h, x as int, y as int);
            }
            let p = match self.history[y].pred {
                Some(p) => p,
                None => {
                    assert(false);
                    0
                },
            };
            path.push(y);
            y = p;
        }
        let ghost lx = l;
        let mut k = path.len();
        while k > 0
            invariant
                self.wf_history(),
                h == self.history_view(),
                k <= path@.len(),
                y == x,
                forall|m: int| 0 <= m < path@.len() ==> #[trigger] path@[m] < h.len() && path@[m] != x
                    && is_anc(h, x as int, path@[m] as int)
                    && parent(h, path@[m] as int) == (if m + 1 < path@.len() { path@[m + 1] as int } else { y as int })
                    && 0 <= parent(h, path@[m] as int) < path@[m],
                l == transform(h, x as int, if k < path@.len() { path@[k as int] as int } else { x as int }, lx as int),
            decreases k,
        {
            k = k - 1;
            l = self.step_redo_exec(path[k], l);
        }
        l
    }

    /// Moves a cursor position from the text of node `a` to the root's
    /// text, reverting every edit on the way (the root's own edit is empty).
    fn undo_to_root_exec(&self, a: usize, loc: usize) -> (r: usize)
        requires
            self.wf_history(),
            a < self.history_view().len(),
        ensures
            r == transform(self.history_view(), a as int, 0, loc as int),
    {
        let ghost h = self.history_view();
        proof {
            self.lemma_tree();
        }
        let mut x = a;
        let mut l = loc;
        loop
            invariant
                self.wf_history(),
                h == self.history_view(),
                tree_ok(h),
                x < h.len(),
                transform(h, a as int, 0, loc as int) == transform(h, x as int, 0, l as int),
            decreases x,
        {
            proof {
                self.lemma_node_view(x as int);
            }
            let ghost l0 = l;
            l = self.step_undo_exec(x, l);
            match self.history[x].pred {
                Some(p) => {
                    proof {
                        if is_anc(h, x as int, 0) {
                            lemma_anc_le(h, x as int, 0);
                        }
                    }
                    x = p;
                },
                None => {
                    assert(x == 0);
                    return l;
                },
            }
        }
    }

    /// The state of a cursor that is up to date with this buffer: none at
    /// the root of the history, else the current node.
    pub open spec fn state_of(&self) -> Option<NodeRef> {
        if self.current() == 0 {
            None
        } else {
            Some(NodeRef { history: self.id(), node: self.current() as usize })
        }
    }

    /// Whether a cursor's state refers to a node of this buffer's history.
    pub open spec fn cursor_alive(&self, state: Option<NodeRef>) -> bool {
        state matches Some(r) && r.history == self.id() && r.node < self.history_view().len()
    }

    /// Where `update_cursor` moves a cursor at `loc` with state `state`.
    pub open spec fn updated_location(&self, state: Option<NodeRef>, loc: usize) -> int {
        if self.cursor_alive(state) {
            transform(self.history_view(), state->0.node as int, self.current() as int, loc as int)
        } else if self.current() != 0 {
            step_redo(self.history_view(), self.current() as int, loc as int)
        } else {
            loc as int
        }
    }

    /// The state that `update_cursor` gives a cursor with state `state`.
    pub open spec fn updated_state(&self, state: Option<NodeRef>) -> Option<NodeRef> {
        if self.cursor_alive(state) {
            if self.current() == 0 {
                None
            } else {
                Some(NodeRef { history: self.id(), node: self.current() as usize })
            }
        } else if self.current() != 0 {
            Some(NodeRef { history: self.id(), node: self.current() as usize })
        } else {
            state
        }
    }
}

/// `a` is a tree whose every node but the root has an earlier parent.
pub open spec fn tree_ok(h: Seq<NodeView>) -> bool {
    &&& h.len() >= 1
    &&& h[0].pred is None
    &&& forall|i: int| 0 < i < h.len() ==> (#[trigger] h[i].pred matches Some(q) && q < i)
}

pub proof fn lemma_anc_le(h: Seq<NodeView>, a: int, b: int)
    ensures
        is_anc(h, a, b) ==> a <= b,
    decreases b,
{
    if b >= 0 && b < h.len() && a != b && 0 <= parent(h, b) < b {
        lemma_anc_le(h, a, parent(h, b));
    }
}

pub proof fn lemma_root_anc(h: Seq<NodeView>, b: int)
    requires
        tree_ok(h),
        0 <= b < h.len(),
    ensures
        is_anc(h, 0, b),
    decreases b,
{
    if b > 0 {
        assert(h[b].pred is Some);
        lemma_root_anc(h, parent(h, b));
    }
}

/// Brings a cursor, kept as a state and a location, up to date with the
/// buffer's current node.
pub fn update_cursor(buffer: &Buffer, ret_state: &mut Option<NodeRef>, ret_location: &mut usize)
    requires
        buffer.wf(),
    ensures
        *final(ret_location) == buffer.updated_location(*old(ret_state), *old(ret_location)),
        *final(ret_state) == buffer.updated_state(*old(ret_state)),
{
    let alive = match *ret_state {
        Some(r) => r.history == buffer.history_id && r.node < buffer.history.len(),
        None => false,
    };
    proof {
        buffer.lemma_tree();
    }
    if !alive {
        if buffer.current_state != 0 {
            *ret_location = buffer.step_redo_exec(buffer.current_state, *ret_location);
            *ret_state = Some(NodeRef { history: buffer.history_id, node: buffer.current_state });
        }
        return ;
    }
    let node = match *ret_state {
        Some(r) => r.node,
        None => 0,
    };
    if buffer.current_state == 0 {
        *ret_location = buffer.undo_to_root_exec(node, *ret_location);
        *ret_state = None;
        return ;
    }
    *ret_location = buffer.transform_exec(node, *ret_location);
    *ret_state = Some(NodeRef { history: buffer.history_id, node: buffer.current_state });
}

/// Whether a cursor with state `state` is up to date with the buffer.
pub fn is_updated_cursor(buffer: &Buffer, state: &Option<NodeRef>) -> (r: bool)
    requires
        buffer.wf(),
    ensures
        r == (buffer.current() == if buffer.cursor_alive(*state) { state->0.node as nat } else { 0 }),
{
    match *state {
        Some(s) => {
            if s.history == buffer.history_id && s.node < buffer.history.len() {
                buffer.current_state == s.node
            } else {
                buffer.current_state == 0
            }
        },
        None => buffer.current_state == 0,
    }
}

} // verus!
