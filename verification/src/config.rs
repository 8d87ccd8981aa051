use vstd::prelude::*;
use crate::command::Command;
use crate::input::{Input, Key};
use crate::key_map::{KeyMap, BindView, LookupError, maps_view, maps_wf, with_binding, bound, spec_lookup, lemma_bind_single, lemma_with_binding_new, lemma_bind_pair_new, lemma_bind_pair_through, lemma_bound_distinct, no_mappings, assigned, lemma_with_binding_entries, lemma_bound_entry, law_with_binding};
use crate::state::State;

verus! {

/// The key `c` with control held.
pub open spec fn ctrl(c: char) -> Input {
    Input { control: true, alt: false, key: Key::Key(c) }
}

/// The key `c` with alt held.
pub open spec fn meta(c: char) -> Input {
    Input { control: false, alt: true, key: Key::Key(c) }
}

/// The key `c` with control and alt held.
pub open spec fn ctrl_meta(c: char) -> Input {
    Input { control: true, alt: true, key: Key::Key(c) }
}

/// The key `c` alone.
pub open spec fn plain(c: char) -> Input {
    Input { control: false, alt: false, key: Key::Key(c) }
}

fn ctrl_key(c: char) -> (i: Input)
    ensures
        i == ctrl(c),
{
    Input { control: true, alt: false, key: Key::Key(c) }
}

fn meta_key(c: char) -> (i: Input)
    ensures
        i == meta(c),
{
    Input { control: false, alt: true, key: Key::Key(c) }
}

fn ctrl_meta_key(c: char) -> (i: Input)
    ensures
        i == ctrl_meta(c),
{
    Input { control: true, alt: true, key: Key::Key(c) }
}

fn plain_key(c: char) -> (i: Input)
    ensures
        i == plain(c),
{
    Input { control: false, alt: false, key: Key::Key(c) }
}

/// The default key map once set up; `C-x` leads to key map `cx`.
pub open spec fn default_top(cx: usize) -> Seq<(Input, BindView)> {
    seq![
        (ctrl('a'), BindView::Command(Command::BeginOfLine)),
        (ctrl('b'), BindView::Command(Command::BackwardChar)),
        (meta('b'), BindView::Command(Command::BackwardWord)),
        (ctrl_meta('b'), BindView::Command(Command::BackwardGroup)),
        (ctrl('d'), BindView::Command(Command::DeleteForwardChar)),
        (ctrl('e'), BindView::Command(Command::EndOfLine)),
        (ctrl('f'), BindView::Command(Command::ForwardChar)),
        (meta('f'), BindView::Command(Command::ForwardWord)),
        (ctrl_meta('f'), BindView::Command(Command::ForwardGroup)),
        (ctrl('g'), BindView::Command(Command::RemoveMark)),
        (ctrl('n'), BindView::Command(Command::ForwardLine)),
        (ctrl('p'), BindView::Command(Command::BackwardLine)),
        (ctrl_meta('u'), BindView::Command(Command::UpGroup)),
        (ctrl('w'), BindView::Command(Command::KillRegion)),
        (meta('w'), BindView::Command(Command::CopyRegion)),
        (ctrl('y'), BindView::Command(Command::Paste)),
        (meta('y'), BindView::Command(Command::PastePop)),
        (ctrl('x'), BindView::SubMap(cx)),
        (ctrl('z'), BindView::Command(Command::Undo)),
        (meta('z'), BindView::Command(Command::Redo)),
        (plain('\x7f'), BindView::Command(Command::DeleteBackwardChar)),
        (ctrl('@'), BindView::Command(Command::SetMark)),
    ]
}

/// The key map of the keys after `C-x`.
pub open spec fn cx_bindings() -> Seq<(Input, BindView)> {
    seq![
        (plain('1'), BindView::Command(Command::CloseOtherWindows)),
        (plain('2'), BindView::Command(Command::HorizontalSplit)),
        (plain('3'), BindView::Command(Command::VerticalSplit)),
        (plain('0'), BindView::Command(Command::CloseWindow)),
        (ctrl('c'), BindView::Command(Command::CloseTed)),
        (ctrl('f'), BindView::Command(Command::OpenFile)),
        (plain('g'), BindView::Command(Command::OpenGitRepository)),
        (plain('n'), BindView::Command(Command::EndOfBuffer)),
        (plain('p'), BindView::Command(Command::BeginOfBuffer)),
        (plain('o'), BindView::Command(Command::OtherWindowClockwise)),
        (ctrl('o'), BindView::Command(Command::OtherWindowCounterClockwise)),
    ]
}

/// The keys that each command is bound to by default, in the order they
/// are bound.
pub open spec fn default_key_bindings() -> Seq<(Seq<Input>, Command)> {
    seq![
        (seq![ctrl('a')], Command::BeginOfLine),
        (seq![ctrl('b')], Command::BackwardChar),
        (seq![meta('b')], Command::BackwardWord),
        (seq![ctrl_meta('b')], Command::BackwardGroup),
        (seq![ctrl('d')], Command::DeleteForwardChar),
        (seq![ctrl('e')], Command::EndOfLine),
        (seq![ctrl('f')], Command::ForwardChar),
        (seq![meta('f')], Command::ForwardWord),
        (seq![ctrl_meta('f')], Command::ForwardGroup),
        (seq![ctrl('g')], Command::RemoveMark),
        (seq![ctrl('n')], Command::ForwardLine),
        (seq![ctrl('p')], Command::BackwardLine),
        (seq![ctrl_meta('u')], Command::UpGroup),
        (seq![ctrl('w')], Command::KillRegion),
        (seq![meta('w')], Command::CopyRegion),
        (seq![ctrl('y')], Command::Paste),
        (seq![meta('y')], Command::PastePop),
        (seq![ctrl('x'), plain('1')], Command::CloseOtherWindows),
        (seq![ctrl('x'), plain('2')], Command::HorizontalSplit),
        (seq![ctrl('x'), plain('3')], Command::VerticalSplit),
        (seq![ctrl('x'), plain('0')], Command::CloseWindow),
        (seq![ctrl('x'), ctrl('c')], Command::CloseTed),
        (seq![ctrl('x'), ctrl('f')], Command::OpenFile),
        (seq![ctrl('x'), plain('g')], Command::OpenGitRepository),
        (seq![ctrl('x'), plain('n')], Command::EndOfBuffer),
        (seq![ctrl('x'), plain('p')], Command::BeginOfBuffer),
        (seq![ctrl('x'), plain('o')], Command::OtherWindowClockwise),
        (seq![ctrl('x'), ctrl('o')], Command::OtherWindowCounterClockwise),
        (seq![ctrl('z')], Command::Undo),
        (seq![meta('z')], Command::Redo),
        (seq![plain('\x7f')], Command::DeleteBackwardChar),
        (seq![ctrl('@')], Command::SetMark),
    ]
}

/// The key maps after binding each key sequence of `bs` to its command, in
/// order, from key map `k`.
pub open spec fn bind_all(maps: Seq<Seq<(Input, BindView)>>, k: usize, bs: Seq<(Seq<Input>, Command)>) -> Seq<
    Seq<(Input, BindView)>,
>
    decreases bs.len(),
{
    if bs.len() == 0 {
        maps
    } else {
        assigned(bind_all(maps, k, bs.drop_last()), k, bs.last().0, BindView::Command(bs.last().1))
    }
}

proof fn lemma_bind_all_take(maps: Seq<Seq<(Input, BindView)>>, k: usize, bs: Seq<(Seq<Input>, Command)>, j: int)
    requires
        0 <= j < bs.len(),
    ensures
        bind_all(maps, k, bs.take(j + 1)) == assigned(
            bind_all(maps, k, bs.take(j)),
            k,
            bs[j].0,
            BindView::Command(bs[j].1),
        ),
{
    assert(bs.take(j + 1).drop_last() =~= bs.take(j));
}

/// The key sequence of one key.
fn one_key(i: Input) -> (v: Vec<Input>)
    ensures
        v@ == seq![i],
{
    let mut v: Vec<Input> = Vec::new();
    v.push(i);
    assert(v@ =~= seq![i]);
    v
}

/// The key sequence of two keys.
fn two_keys(i1: Input, i2: Input) -> (v: Vec<Input>)
    ensures
        v@ == seq![i1, i2],
{
    let mut v: Vec<Input> = Vec::new();
    v.push(i1);
    v.push(i2);
    assert(v@ =~= seq![i1, i2]);
    v
}

/// Binding `b`, which is no mapping, in key map `k` of key maps without
/// mappings leaves them without mappings.
proof fn lemma_bound_keeps_no_mappings(
    maps: Seq<Seq<(Input, BindView)>>,
    k: int,
    i: Input,
    b: BindView,
    added: Seq<Seq<(Input, BindView)>>,
)
    requires
        no_mappings(maps),
        0 <= k < maps.len(),
        !(b is Mapping),
        no_mappings(added),
    ensures
        no_mappings((maps + added).update(k, with_binding(maps[k], i, b))),
{
    lemma_with_binding_entries(maps[k], i, b);
    let r = (maps + added).update(k, with_binding(maps[k], i, b));
    assert forall|m: int, e: int| 0 <= m < r.len() && 0 <= e < r[m].len() implies !((#[trigger] r[m][e]).1 is Mapping) by {
        if m == k {
            if with_binding(maps[k], i, b)[e] != (i, b) {
                assert(maps[k][e] == r[m][e]);
            }
        } else if m < maps.len() {
            assert(r[m] == maps[m]);
        } else {
            assert(r[m] == added[m - maps.len()]);
        }
    }
}

/// Binds `keys`, one key or two, to `command` from key map `k`, in key maps
/// where no key stands for other keys.
fn bind_default(maps: &mut Vec<KeyMap>, k: usize, keys: Vec<Input>, command: Command)
    requires
        maps_wf(maps_view(old(maps)@)),
        no_mappings(maps_view(old(maps)@)),
        k < old(maps)@.len(),
        old(maps)@.len() < usize::MAX,
        1 <= keys@.len() <= 2,
    ensures
        maps_wf(maps_view(final(maps)@)),
        no_mappings(maps_view(final(maps)@)),
        maps_view(final(maps)@) == assigned(maps_view(old(maps)@), k, keys@, BindView::Command(command)),
        old(maps)@.len() <= final(maps)@.len() <= old(maps)@.len() + 1,
{
    let ghost m = maps_view(maps@);
    let ghost b = BindView::Command(command);
    proof {
        let none = Seq::<Seq<(Input, BindView)>>::empty();
        assert(m + none =~= m);
        if keys@.len() == 1 {
            assert(keys@ =~= seq![keys@[0]]);
            lemma_bind_single(m, k, keys@[0], b);
            lemma_bound_keeps_no_mappings(m, k as int, keys@[0], b, none);
        } else {
            assert(keys@ =~= seq![keys@[0], keys@[1]]);
            lemma_bound_entry(m[k as int], keys@[0]);
            match bound(m[k as int], keys@[0]) {
                Some(BindView::SubMap(s)) => {
                    assert(s < m.len());
                    lemma_bind_pair_through(m, k, keys@[0], keys@[1], b, s);
                    lemma_bound_keeps_no_mappings(m, s as int, keys@[1], b, none);
                },
                _ => {
                    let added = seq![seq![(keys@[1], b)]];
                    lemma_bind_pair_new(m, k, keys@[0], keys@[1], b);
                    assert(no_mappings(added));
                    lemma_bound_keeps_no_mappings(m, k as int, keys@[0], BindView::SubMap(m.len() as usize), added);
                    assert(m + added =~= m.push(seq![(keys@[1], b)]));
                },
            }
        }
    }
    KeyMap::bind(maps, k, keys, command);
    proof {
        assert(maps_view(maps@).len() == maps@.len());
    }
}

/// Binding a key that is not among `used`, which holds every key of `top`,
/// adds it at the end.
proof fn lemma_fresh_key(top: Seq<(Input, BindView)>, used: Set<Input>, i: Input, b: BindView)
    requires
        forall|j: int| 0 <= j < top.len() ==> used.contains(#[trigger] top[j].0),
        !used.contains(i),
    ensures
        with_binding(top, i, b) == top.push((i, b)),
        forall|j: int| 0 <= j < top.push((i, b)).len() ==> used.insert(i).contains(#[trigger] top.push((i, b))[j].0),
        bound(top, i) is None,
{
    assert forall|j: int| 0 <= j < top.len() implies (#[trigger] top[j]).0 != i by {
        assert(used.contains(top[j].0));
    }
    lemma_with_binding_new(top, i, b);
}

/// The default bindings, one by one.
proof fn lemma_default_entries()
    ensures
        default_key_bindings().len() == 32,
        default_key_bindings()[0] == (seq![ctrl('a')], Command::BeginOfLine),
        default_key_bindings()[1] == (seq![ctrl('b')], Command::BackwardChar),
        default_key_bindings()[2] == (seq![meta('b')], Command::BackwardWord),
        default_key_bindings()[3] == (seq![ctrl_meta('b')], Command::BackwardGroup),
        default_key_bindings()[4] == (seq![ctrl('d')], Command::DeleteForwardChar),
        default_key_bindings()[5] == (seq![ctrl('e')], Command::EndOfLine),
        default_key_bindings()[6] == (seq![ctrl('f')], Command::ForwardChar),
        default_key_bindings()[7] == (seq![meta('f')], Command::ForwardWord),
        default_key_bindings()[8] == (seq![ctrl_meta('f')], Command::ForwardGroup),
        default_key_bindings()[9] == (seq![ctrl('g')], Command::RemoveMark),
        default_key_bindings()[10] == (seq![ctrl('n')], Command::ForwardLine),
        default_key_bindings()[11] == (seq![ctrl('p')], Command::BackwardLine),
        default_key_bindings()[12] == (seq![ctrl_meta('u')], Command::UpGroup),
        default_key_bindings()[13] == (seq![ctrl('w')], Command::KillRegion),
        default_key_bindings()[14] == (seq![meta('w')], Command::CopyRegion),
        default_key_bindings()[15] == (seq![ctrl('y')], Command::Paste),
        default_key_bindings()[16] == (seq![meta('y')], Command::PastePop),
        default_key_bindings()[17] == (seq![ctrl('x'), plain('1')], Command::CloseOtherWindows),
        default_key_bindings()[18] == (seq![ctrl('x'), plain('2')], Command::HorizontalSplit),
        default_key_bindings()[19] == (seq![ctrl('x'), plain('3')], Command::VerticalSplit),
        default_key_bindings()[20] == (seq![ctrl('x'), plain('0')], Command::CloseWindow),
        default_key_bindings()[21] == (seq![ctrl('x'), ctrl('c')], Command::CloseTed),
        default_key_bindings()[22] == (seq![ctrl('x'), ctrl('f')], Command::OpenFile),
        default_key_bindings()[23] == (seq![ctrl('x'), plain('g')], Command::OpenGitRepository),
        default_key_bindings()[24] == (seq![ctrl('x'), plain('n')], Command::EndOfBuffer),
        default_key_bindings()[25] == (seq![ctrl('x'), plain('p')], Command::BeginOfBuffer),
        default_key_bindings()[26] == (seq![ctrl('x'), plain('o')], Command::OtherWindowClockwise),
        default_key_bindings()[27] == (seq![ctrl('x'), ctrl('o')], Command::OtherWindowCounterClockwise),
        default_key_bindings()[28] == (seq![ctrl('z')], Command::Undo),
        default_key_bindings()[29] == (seq![meta('z')], Command::Redo),
        default_key_bindings()[30] == (seq![plain('\x7f')], Command::DeleteBackwardChar),
        default_key_bindings()[31] == (seq![ctrl('@')], Command::SetMark),
{
}

/// The key sequence and the command of the default binding `j`.
fn default_binding(j: usize) -> (r: (Vec<Input>, Command))
    requires
        j < default_key_bindings().len(),
    ensures
        (r.0@, r.1) == default_key_bindings()[j as int],
{
    proof {
        lemma_default_entries();
    }
    match j {
        0 => (one_key(ctrl_key('a')), Command::BeginOfLine),
        1 => (one_key(ctrl_key('b')), Command::BackwardChar),
        2 => (one_key(meta_key('b')), Command::BackwardWord),
        3 => (one_key(ctrl_meta_key('b')), Command::BackwardGroup),
        4 => (one_key(ctrl_key('d')), Command::DeleteForwardChar),
        5 => (one_key(ctrl_key('e')), Command::EndOfLine),
        6 => (one_key(ctrl_key('f')), Command::ForwardChar),
        7 => (one_key(meta_key('f')), Command::ForwardWord),
        8 => (one_key(ctrl_meta_key('f')), Command::ForwardGroup),
        9 => (one_key(ctrl_key('g')), Command::RemoveMark),
        10 => (one_key(ctrl_key('n')), Command::ForwardLine),
        11 => (one_key(ctrl_key('p')), Command::BackwardLine),
        12 => (one_key(ctrl_meta_key('u')), Command::UpGroup),
        13 => (one_key(ctrl_key('w')), Command::KillRegion),
        14 => (one_key(meta_key('w')), Command::CopyRegion),
        15 => (one_key(ctrl_key('y')), Command::Paste),
        16 => (one_key(meta_key('y')), Command::PastePop),
        17 => (two_keys(ctrl_key('x'), plain_key('1')), Command::CloseOtherWindows),
        18 => (two_keys(ctrl_key('x'), plain_key('2')), Command::HorizontalSplit),
        19 => (two_keys(ctrl_key('x'), plain_key('3')), Command::VerticalSplit),
        20 => (two_keys(ctrl_key('x'), plain_key('0')), Command::CloseWindow),
        21 => (two_keys(ctrl_key('x'), ctrl_key('c')), Command::CloseTed),
        22 => (two_keys(ctrl_key('x'), ctrl_key('f')), Command::OpenFile),
        23 => (two_keys(ctrl_key('x'), plain_key('g')), Command::OpenGitRepository),
        24 => (two_keys(ctrl_key('x'), plain_key('n')), Command::EndOfBuffer),
        25 => (two_keys(ctrl_key('x'), plain_key('p')), Command::BeginOfBuffer),
        26 => (two_keys(ctrl_key('x'), plain_key('o')), Command::OtherWindowClockwise),
        27 => (two_keys(ctrl_key('x'), ctrl_key('o')), Command::OtherWindowCounterClockwise),
        28 => (one_key(ctrl_key('z')), Command::Undo),
        29 => (one_key(meta_key('z')), Command::Redo),
        30 => (one_key(plain_key('\x7f')), Command::DeleteBackwardChar),
        _ => (one_key(ctrl_key('@')), Command::SetMark),
    }
}

/// One default binding of a single key, not yet bound, in the default key
/// map `top` of `maps`.
proof fn lemma_fresh_single(
    m0: Seq<Seq<(Input, BindView)>>,
    d: usize,
    j: int,
    maps: Seq<Seq<(Input, BindView)>>,
    top: Seq<(Input, BindView)>,
    used: Set<Input>,
    i: Input,
    c: Command,
)
    requires
        0 <= j < default_key_bindings().len(),
        default_key_bindings()[j] == (seq![i], c),
        bind_all(m0, d, default_key_bindings().take(j)) == maps,
        d < maps.len(),
        maps[d as int] == top,
        forall|e: int| 0 <= e < top.len() ==> used.contains(#[trigger] top[e].0),
        !used.contains(i),
    ensures
        bind_all(m0, d, default_key_bindings().take(j + 1)) == maps.update(
            d as int,
            top.push((i, BindView::Command(c))),
        ),
        forall|e: int|
            0 <= e < top.push((i, BindView::Command(c))).len() ==> used.insert(i).contains(
                #[trigger] top.push((i, BindView::Command(c)))[e].0,
            ),
{
    lemma_bind_all_take(m0, d, default_key_bindings(), j);
    lemma_fresh_key(top, used, i, BindView::Command(c));
    lemma_bind_single(maps, d, i, BindView::Command(c));
}

/// One default binding of a key after `C-x`, which leads to key map `n`,
/// whose entries are `cx`.
proof fn lemma_fresh_after_x(
    m0: Seq<Seq<(Input, BindView)>>,
    d: usize,
    j: int,
    maps: Seq<Seq<(Input, BindView)>>,
    n: usize,
    cx: Seq<(Input, BindView)>,
    used: Set<Input>,
    i: Input,
    c: Command,
)
    requires
        0 <= j < default_key_bindings().len(),
        default_key_bindings()[j] == (seq![ctrl('x'), i], c),
        bind_all(m0, d, default_key_bindings().take(j)) == maps,
        d < maps.len(),
        n < maps.len(),
        bound(maps[d as int], ctrl('x')) == Some(BindView::SubMap(n)),
        maps[n as int] == cx,
        forall|e: int| 0 <= e < cx.len() ==> used.contains(#[trigger] cx[e].0),
        !used.contains(i),
    ensures
        bind_all(m0, d, default_key_bindings().take(j + 1)) == maps.update(
            n as int,
            cx.push((i, BindView::Command(c))),
        ),
        forall|e: int|
            0 <= e < cx.push((i, BindView::Command(c))).len() ==> used.insert(i).contains(
                #[trigger] cx.push((i, BindView::Command(c)))[e].0,
            ),
{
    lemma_bind_all_take(m0, d, default_key_bindings(), j);
    lemma_fresh_key(cx, used, i, BindView::Command(c));
    lemma_bind_pair_through(maps, d, ctrl('x'), i, BindView::Command(c), n);
}

/// The first default binding after `C-x`, which is not yet bound: it gets
/// a new key map at the end.
proof fn lemma_fresh_first_x(
    m0: Seq<Seq<(Input, BindView)>>,
    d: usize,
    j: int,
    maps: Seq<Seq<(Input, BindView)>>,
    top: Seq<(Input, BindView)>,
    used: Set<Input>,
    i: Input,
    c: Command,
)
    requires
        0 <= j < default_key_bindings().len(),
        default_key_bindings()[j] == (seq![ctrl('x'), i], c),
        bind_all(m0, d, default_key_bindings().take(j)) == maps,
        d < maps.len(),
        maps.len() < usize::MAX,
        maps[d as int] == top,
        forall|e: int| 0 <= e < top.len() ==> used.contains(#[trigger] top[e].0),
        !used.contains(ctrl('x')),
    ensures
        bind_all(m0, d, default_key_bindings().take(j + 1)) == maps.push(seq![(i, BindView::Command(c))]).update(
            d as int,
            top.push((ctrl('x'), BindView::SubMap(maps.len() as usize))),
        ),
        bound(top.push((ctrl('x'), BindView::SubMap(maps.len() as usize))), ctrl('x')) == Some(
            BindView::SubMap(maps.len() as usize),
        ),
        forall|e: int|
            0 <= e < top.push((ctrl('x'), BindView::SubMap(maps.len() as usize))).len() ==> used.insert(
                ctrl('x'),
            ).contains(#[trigger] top.push((ctrl('x'), BindView::SubMap(maps.len() as usize)))[e].0),
{
    lemma_bind_all_take(m0, d, default_key_bindings(), j);
    lemma_fresh_key(top, used, ctrl('x'), BindView::SubMap(maps.len() as usize));
    lemma_bind_pair_new(maps, d, ctrl('x'), i, BindView::Command(c));
    law_with_binding(top, ctrl('x'), BindView::SubMap(maps.len() as usize), ctrl('x'));
}

/// With an empty default key map, binding the default keys gives the
/// default key map `default_top` and the key map `cx_bindings` after `C-x`,
/// added at the end.
#[verifier::spinoff_prover]
#[verifier::rlimit(50)]
proof fn lemma_fresh_defaults(m0: Seq<Seq<(Input, BindView)>>, d: usize)
    requires
        d < m0.len(),
        m0[d as int].len() == 0,
        m0.len() < usize::MAX,
    ensures
        bind_all(m0, d, default_key_bindings()) == m0.push(cx_bindings()).update(
            d as int,
            default_top(m0.len() as usize),
        ),
{
    lemma_default_entries();
    let bs = default_key_bindings();
    let n = m0.len() as usize;
    let mut maps = m0;
    let mut top: Seq<(Input, BindView)> = Seq::empty();
    let mut used: Set<Input> = Set::empty();
    let mut cx: Seq<(Input, BindView)> = Seq::empty();
    let mut cx_used: Set<Input> = Set::empty();
    assert(m0[d as int] =~= top);
    assert(bs.take(0) =~= Seq::<(Seq<Input>, Command)>::empty());
    lemma_fresh_single(m0, d, 0, maps, top, used, ctrl('a'), Command::BeginOfLine);
    maps = maps.update(d as int, top.push((ctrl('a'), BindView::Command(Command::BeginOfLine))));
    top = top.push((ctrl('a'), BindView::Command(Command::BeginOfLine)));
    used = used.insert(ctrl('a'));
    lemma_fresh_single(m0, d, 1, maps, top, used, ctrl('b'), Command::BackwardChar);
    maps = maps.update(d as int, top.push((ctrl('b'), BindView::Command(Command::BackwardChar))));
    top = top.push((ctrl('b'), BindView::Command(Command::BackwardChar)));
    used = used.insert(ctrl('b'));
    lemma_fresh_single(m0, d, 2, maps, top, used, meta('b'), Command::BackwardWord);
    maps = maps.update(d as int, top.push((meta('b'), BindView::Command(Command::BackwardWord))));
    top = top.push((meta('b'), BindView::Command(Command::BackwardWord)));
    used = used.insert(meta('b'));
    lemma_fresh_single(m0, d, 3, maps, top, used, ctrl_meta('b'), Command::BackwardGroup);
    maps = maps.update(d as int, top.push((ctrl_meta('b'), BindView::Command(Command::BackwardGroup))));
    top = top.push((ctrl_meta('b'), BindView::Command(Command::BackwardGroup)));
    used = used.insert(ctrl_meta('b'));
    lemma_fresh_single(m0, d, 4, maps, top, used, ctrl('d'), Command::DeleteForwardChar);
    maps = maps.update(d as int, top.push((ctrl('d'), BindView::Command(Command::DeleteForwardChar))));
    top = top.push((ctrl('d'), BindView::Command(Command::DeleteForwardChar)));
    used = used.insert(ctrl('d'));
    lemma_fresh_single(m0, d, 5, maps, top, used, ctrl('e'), Command::EndOfLine);
    maps = maps.update(d as int, top.push((ctrl('e'), BindView::Command(Command::EndOfLine))));
    top = top.push((ctrl('e'), BindView::Command(Command::EndOfLine)));
    used = used.insert(ctrl('e'));
    lemma_fresh_single(m0, d, 6, maps, top, used, ctrl('f'), Command::ForwardChar);
    maps = maps.update(d as int, top.push((ctrl('f'), BindView::Command(Command::ForwardChar))));
    top = top.push((ctrl('f'), BindView::Command(Command::ForwardChar)));
    used = used.insert(ctrl('f'));
    lemma_fresh_single(m0, d, 7, maps, top, used, meta('f'), Command::ForwardWord);
    maps = maps.update(d as int, top.push((meta('f'), BindView::Command(Command::ForwardWord))));
    top = top.push((meta('f'), BindView::Command(Command::ForwardWord)));
    used = used.insert(meta('f'));
    lemma_fresh_single(m0, d, 8, maps, top, used, ctrl_meta('f'), Command::ForwardGroup);
    maps = maps.update(d as int, top.push((ctrl_meta('f'), BindView::Command(Command::ForwardGroup))));
    top = top.push((ctrl_meta('f'), BindView::Command(Command::ForwardGroup)));
    used = used.insert(ctrl_meta('f'));
    lemma_fresh_single(m0, d, 9, maps, top, used, ctrl('g'), Command::RemoveMark);
    maps = maps.update(d as int, top.push((ctrl('g'), BindView::Command(Command::RemoveMark))));
    top = top.push((ctrl('g'), BindView::Command(Command::RemoveMark)));
    used = used.insert(ctrl('g'));
    lemma_fresh_single(m0, d, 10, maps, top, used, ctrl('n'), Command::ForwardLine);
    maps = maps.update(d as int, top.push((ctrl('n'), BindView::Command(Command::ForwardLine))));
    top = top.push((ctrl('n'), BindView::Command(Command::ForwardLine)));
    used = used.insert(ctrl('n'));
    lemma_fresh_single(m0, d, 11, maps, top, used, ctrl('p'), Command::BackwardLine);
    maps = maps.update(d as int, top.push((ctrl('p'), BindView::Command(Command::BackwardLine))));
    top = top.push((ctrl('p'), BindView::Command(Command::BackwardLine)));
    used = used.insert(ctrl('p'));
    lemma_fresh_single(m0, d, 12, maps, top, used, ctrl_meta('u'), Command::UpGroup);
    maps = maps.update(d as int, top.push((ctrl_meta('u'), BindView::Command(Command::UpGroup))));
    top = top.push((ctrl_meta('u'), BindView::Command(Command::UpGroup)));
    used = used.insert(ctrl_meta('u'));
    lemma_fresh_single(m0, d, 13, maps, top, used, ctrl('w'), Command::KillRegion);
    maps = maps.update(d as int, top.push((ctrl('w'), BindView::Command(Command::KillRegion))));
    top = top.push((ctrl('w'), BindView::Command(Command::KillRegion)));
    used = used.insert(ctrl('w'));
    lemma_fresh_single(m0, d, 14, maps, top, used, meta('w'), Command::CopyRegion);
    maps = maps.update(d as int, top.push((meta('w'), BindView::Command(Command::CopyRegion))));
    top = top.push((meta('w'), BindView::Command(Command::CopyRegion)));
    used = used.insert(meta('w'));
    lemma_fresh_single(m0, d, 15, maps, top, used, ctrl('y'), Command::Paste);
    maps = maps.update(d as int, top.push((ctrl('y'), BindView::Command(Command::Paste))));
    top = top.push((ctrl('y'), BindView::Command(Command::Paste)));
    used = used.insert(ctrl('y'));
    lemma_fresh_single(m0, d, 16, maps, top, used, meta('y'), Command::PastePop);
    maps = maps.update(d as int, top.push((meta('y'), BindView::Command(Command::PastePop))));
    top = top.push((meta('y'), BindView::Command(Command::PastePop)));
    used = used.insert(meta('y'));
    lemma_fresh_first_x(m0, d, 17, maps, top, used, plain('1'), Command::CloseOtherWindows);
    maps = maps.push(seq![(plain('1'), BindView::Command(Command::CloseOtherWindows))]).update(d as int, top.push((ctrl('x'), BindView::SubMap(n))));
    top = top.push((ctrl('x'), BindView::SubMap(n)));
    used = used.insert(ctrl('x'));
    cx = seq![(plain('1'), BindView::Command(Command::CloseOtherWindows))];
    cx_used = set![plain('1')];
    assert(maps[n as int] == cx);
    lemma_fresh_after_x(m0, d, 18, maps, n, cx, cx_used, plain('2'), Command::HorizontalSplit);
    maps = maps.update(n as int, cx.push((plain('2'), BindView::Command(Command::HorizontalSplit))));
    cx = cx.push((plain('2'), BindView::Command(Command::HorizontalSplit)));
    cx_used = cx_used.insert(plain('2'));
    lemma_fresh_after_x(m0, d, 19, maps, n, cx, cx_used, plain('3'), Command::VerticalSplit);
    maps = maps.update(n as int, cx.push((plain('3'), BindView::Command(Command::VerticalSplit))));
    cx = cx.push((plain('3'), BindView::Command(Command::VerticalSplit)));
    cx_used = cx_used.insert(plain('3'));
    lemma_fresh_after_x(m0, d, 20, maps, n, cx, cx_used, plain('0'), Command::CloseWindow);
    maps = maps.update(n as int, cx.push((plain('0'), BindView::Command(Command::CloseWindow))));
    cx = cx.push((plain('0'), BindView::Command(Command::CloseWindow)));
    cx_used = cx_used.insert(plain('0'));
    lemma_fresh_after_x(m0, d, 21, maps, n, cx, cx_used, ctrl('c'), Command::CloseTed);
    maps = maps.update(n as int, cx.push((ctrl('c'), BindView::Command(Command::CloseTed))));
    cx = cx.push((ctrl('c'), BindView::Command(Command::CloseTed)));
    cx_used = cx_used.insert(ctrl('c'));
    lemma_fresh_after_x(m0, d, 22, maps, n, cx, cx_used, ctrl('f'), Command::OpenFile);
    maps = maps.update(n as int, cx.push((ctrl('f'), BindView::Command(Command::OpenFile))));
    cx = cx.push((ctrl('f'), BindView::Command(Command::OpenFile)));
    cx_used = cx_used.insert(ctrl('f'));
    lemma_fresh_after_x(m0, d, 23, maps, n, cx, cx_used, plain('g'), Command::OpenGitRepository);
    maps = maps.update(n as int, cx.push((plain('g'), BindView::Command(Command::OpenGitRepository))));
    cx = cx.push((plain('g'), BindView::Command(Command::OpenGitRepository)));
    cx_used = cx_used.insert(plain('g'));
    lemma_fresh_after_x(m0, d, 24, maps, n, cx, cx_used, plain('n'), Command::EndOfBuffer);
    maps = maps.update(n as int, cx.push((plain('n'), BindView::Command(Command::EndOfBuffer))));
    cx = cx.push((plain('n'), BindView::Command(Command::EndOfBuffer)));
    cx_used = cx_used.insert(plain('n'));
    lemma_fresh_after_x(m0, d, 25, maps, n, cx, cx_used, plain('p'), Command::BeginOfBuffer);
    maps = maps.update(n as int, cx.push((plain('p'), BindView::Command(Command::BeginOfBuffer))));
    cx = cx.push((plain('p'), BindView::Command(Command::BeginOfBuffer)));
    cx_used = cx_used.insert(plain('p'));
    lemma_fresh_after_x(m0, d, 26, maps, n, cx, cx_used, plain('o'), Command::OtherWindowClockwise);
    maps = maps.update(n as int, cx.push((plain('o'), BindView::Command(Command::OtherWindowClockwise))));
    cx = cx.push((plain('o'), BindView::Command(Command::OtherWindowClockwise)));
    cx_used = cx_used.insert(plain('o'));
    lemma_fresh_after_x(m0, d, 27, maps, n, cx, cx_used, ctrl('o'), Command::OtherWindowCounterClockwise);
    maps = maps.update(n as int, cx.push((ctrl('o'), BindView::Command(Command::OtherWindowCounterClockwise))));
    cx = cx.push((ctrl('o'), BindView::Command(Command::OtherWindowCounterClockwise)));
    cx_used = cx_used.insert(ctrl('o'));
    lemma_fresh_single(m0, d, 28, maps, top, used, ctrl('z'), Command::Undo);
    maps = maps.update(d as int, top.push((ctrl('z'), BindView::Command(Command::Undo))));
    top = top.push((ctrl('z'), BindView::Command(Command::Undo)));
    used = used.insert(ctrl('z'));
    lemma_fresh_single(m0, d, 29, maps, top, used, meta('z'), Command::Redo);
    maps = maps.update(d as int, top.push((meta('z'), BindView::Command(Command::Redo))));
    top = top.push((meta('z'), BindView::Command(Command::Redo)));
    used = used.insert(meta('z'));
    lemma_fresh_single(m0, d, 30, maps, top, used, plain('\x7f'), Command::DeleteBackwardChar);
    maps = maps.update(d as int, top.push((plain('\x7f'), BindView::Command(Command::DeleteBackwardChar))));
    top = top.push((plain('\x7f'), BindView::Command(Command::DeleteBackwardChar)));
    used = used.insert(plain('\x7f'));
    lemma_fresh_single(m0, d, 31, maps, top, used, ctrl('@'), Command::SetMark);
    maps = maps.update(d as int, top.push((ctrl('@'), BindView::Command(Command::SetMark))));
    top = top.push((ctrl('@'), BindView::Command(Command::SetMark)));
    used = used.insert(ctrl('@'));
    assert(top =~= default_top(n));
    assert(cx =~= cx_bindings());
    assert(bs.take(32) =~= bs);
    assert(maps =~= m0.push(cx_bindings()).update(d as int, default_top(n)));
}

/// Binds the default keys in the default key map, one after the other
/// (see `default_key_bindings`); from an empty default key map this gives
/// `default_top` and `cx_bindings`. The key maps must hold no mapping, for
/// a binding that meets one could go on forever.
pub fn setup_state(state: &mut State)
    requires
        old(state).wf(),
        no_mappings(maps_view(old(state).key_maps@)),
        old(state).key_maps@.len() + default_key_bindings().len() < usize::MAX,
    ensures
        final(state).wf(),
        no_mappings(maps_view(final(state).key_maps@)),
        maps_view(final(state).key_maps@) == bind_all(
            maps_view(old(state).key_maps@),
            old(state).default_key_map,
            default_key_bindings(),
        ),
        maps_view(old(state).key_maps@)[old(state).default_key_map as int].len() == 0 ==> maps_view(
            final(state).key_maps@,
        ) == maps_view(old(state).key_maps@).push(cx_bindings()).update(
            old(state).default_key_map as int,
            default_top(old(state).key_maps@.len() as usize),
        ),
        final(state).buffers@ == old(state).buffers@,
        final(state).windows@ == old(state).windows@,
        final(state).modes@ == old(state).modes@,
        final(state).default_key_map == old(state).default_key_map,
        final(state).global_modes@ == old(state).global_modes@,
        final(state).display.frames@ == old(state).display.frames@,
        final(state).display.selected_frame == old(state).display.selected_frame,
        final(state).closed_successfully == old(state).closed_successfully,
        final(state).logger == old(state).logger,
        final(state).git_mode == old(state).git_mode,
{
    let d = state.default_key_map;
    let ghost m0 = maps_view(state.key_maps@);
    let ghost bs = default_key_bindings();
    proof {
        lemma_default_entries();
        assert(bs.take(0) =~= Seq::<(Seq<Input>, Command)>::empty());
    }
    let mut j: usize = 0;
    while j < 32
        invariant
            old(state).wf(),
            j <= 32,
            bs == default_key_bindings(),
            bs.len() == 32,
            d == old(state).default_key_map,
            m0 == maps_view(old(state).key_maps@),
            m0.len() + 32 < usize::MAX,
            maps_wf(maps_view(state.key_maps@)),
            no_mappings(maps_view(state.key_maps@)),
            maps_view(state.key_maps@) == bind_all(m0, d, bs.take(j as int)),
            m0.len() <= state.key_maps@.len() <= m0.len() + j,
            state.buffers@ == old(state).buffers@,
            state.windows@ == old(state).windows@,
            state.modes@ == old(state).modes@,
            state.default_key_map == d,
            state.global_modes@ == old(state).global_modes@,
            state.display == old(state).display,
            state.closed_successfully == old(state).closed_successfully,
            state.logger == old(state).logger,
            state.git_mode == old(state).git_mode,
        decreases 32 - j,
    {
        let (keys, command) = default_binding(j);
        proof {
            lemma_bind_all_take(m0, d, bs, j as int);
        }
        bind_default(&mut state.key_maps, d, keys, command);
        j = j + 1;
    }
    proof {
        assert(bs.take(32) =~= bs);
        if m0[d as int].len() == 0 {
            lemma_fresh_defaults(m0, d);
        }
        assert forall|f: int| 0 <= f < state.display.frames@.len() implies #[trigger] state.frame_ok(
            state.display.frames@[f],
        ) by {
            assert(old(state).frame_ok(state.display.frames@[f]));
        }
    }
}

/// Once the default keys are bound, each default key sequence runs its
/// command and is taken whole.
#[verifier::spinoff_prover]
#[verifier::rlimit(40)]
pub proof fn law_default_bindings(maps: Seq<Seq<(Input, BindView)>>, d: usize, k: int)
    requires
        d < maps.len(),
        maps.len() < usize::MAX,
        0 <= k < default_key_bindings().len(),
    ensures
        spec_lookup(
            maps.push(cx_bindings()).update(d as int, default_top(maps.len() as usize)),
            d,
            default_key_bindings()[k].0,
            false,
        ) == (Ok::<Command, LookupError>(default_key_bindings()[k].1), Seq::<Input>::empty()),
{
    reveal_with_fuel(crate::key_map::find, 23);
    reveal_with_fuel(spec_lookup, 3);
    let n = maps.len() as usize;
    let m = maps.push(cx_bindings()).update(d as int, default_top(n));
    assert(m[d as int] == default_top(n));
    assert(m[n as int] == cx_bindings());
    let keys = default_key_bindings()[k].0;
    let c = default_key_bindings()[k].1;
    if k < 17 || k >= 28 {
        assert(keys.len() == 1);
        assert(bound(default_top(n), keys[0]) == Some(BindView::Command(c)));
        assert(keys.skip(1) =~= Seq::<Input>::empty());
    } else {
        assert(keys.len() == 2);
        assert(keys[0] == ctrl('x'));
        assert(bound(default_top(n), ctrl('x')) == Some(BindView::SubMap(n)));
        assert(bound(cx_bindings(), keys[1]) == Some(BindView::Command(c)));
        assert(keys.skip(1) =~= seq![keys[1]]);
        assert(keys.skip(1).skip(1) =~= Seq::<Input>::empty());
        assert(keys.skip(1)[0] == keys[1]);
        assert(spec_lookup(m, n, keys.skip(1), false) == (Ok::<Command, LookupError>(c), Seq::<Input>::empty()));
    }
}

} // verus!
