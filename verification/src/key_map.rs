use vstd::prelude::*;
use std::collections::VecDeque;
use crate::command::Command;
use crate::input::Input;

verus! {

/// What a key is bound to.
pub enum KeyBind {
    /// Run a command when the key is pressed.
    Command(Command),
    /// Go on in another key map (by its index among the key maps) with the
    /// next key.
    SubMap(usize),
    /// The key stands for this sequence of keys.
    Mapping(Vec<Input>),
}

/// What a contract sees of a binding.
pub ghost enum BindView {
    Command(Command),
    SubMap(usize),
    Mapping(Seq<Input>),
}

impl KeyBind {
    pub open spec fn view(&self) -> BindView {
        match self {
            KeyBind::Command(c) => BindView::Command(*c),
            KeyBind::SubMap(m) => BindView::SubMap(*m),
            KeyBind::Mapping(v) => BindView::Mapping(v@),
        }
    }
}

/// Why a lookup found no command.
#[derive(PartialEq, Eq, Debug)]
pub enum LookupError {
    /// The keys so far begin a bound sequence; more are needed.
    NotEnoughInput,
    /// The keys are bound to nothing; the key that was not found, when it
    /// was the first one.
    UnboundInput(Option<Input>),
    /// The keys stood for other keys, which now stand in their place.
    InputWasMapped,
}

/// Maps keys to what they are bound to. Key maps refer to one another by
/// their index among all the key maps.
pub struct KeyMap {
    bindings: Vec<(Input, KeyBind)>,
}

/// The place of the first entry for `i`, or -1.
pub open spec fn find(s: Seq<(Input, BindView)>, i: Input) -> int
    decreases s.len(),
{
    if s.len() == 0 {
        -1
    } else if find(s.drop_last(), i) >= 0 {
        find(s.drop_last(), i)
    } else if s.last().0 == i {
        s.len() - 1
    } else {
        -1
    }
}

/// What `i` is bound to in the entries `s`.
pub open spec fn bound(s: Seq<(Input, BindView)>, i: Input) -> Option<BindView> {
    if find(s, i) >= 0 {
        Some(s[find(s, i)].1)
    } else {
        None
    }
}

/// The entries `s` with `i` bound to `b`: an entry for `i` is replaced,
/// else one is added.
pub open spec fn with_binding(s: Seq<(Input, BindView)>, i: Input, b: BindView) -> Seq<(Input, BindView)> {
    if find(s, i) >= 0 {
        s.update(find(s, i), (i, b))
    } else {
        s.push((i, b))
    }
}

pub proof fn lemma_find(s: Seq<(Input, BindView)>, i: Input)
    ensures
        -1 <= find(s, i) < s.len(),
        find(s, i) >= 0 ==> s[find(s, i)].0 == i,
        find(s, i) >= 0 ==> forall|j: int| 0 <= j < find(s, i) ==> s[j].0 != i,
        find(s, i) < 0 ==> forall|j: int| 0 <= j < s.len() ==> s[j].0 != i,
    decreases s.len(),
{
    if s.len() > 0 {
        lemma_find(s.drop_last(), i);
        assert forall|j: int| 0 <= j < s.len() - 1 implies s.drop_last()[j] == s[j] by {}
    }
}

/// No key of the key maps stands for other keys.
pub open spec fn no_mappings(maps: Seq<Seq<(Input, BindView)>>) -> bool {
    forall|m: int, e: int|
        0 <= m < maps.len() && 0 <= e < maps[m].len() ==> !((#[trigger] maps[m][e]).1 is Mapping)
}

/// Each entry after binding `i` is the new one or the entry that was at
/// its place.
pub proof fn lemma_with_binding_entries(s: Seq<(Input, BindView)>, i: Input, b: BindView)
    ensures
        s.len() <= with_binding(s, i, b).len() <= s.len() + 1,
        forall|j: int|
            0 <= j < with_binding(s, i, b).len() ==> #[trigger] with_binding(s, i, b)[j] == (i, b) || (j < s.len()
                && with_binding(s, i, b)[j] == s[j]),
{
    lemma_find(s, i);
}

/// What a key is bound to is what one of the entries says.
pub proof fn lemma_bound_entry(s: Seq<(Input, BindView)>, i: Input)
    ensures
        bound(s, i) matches Some(x) ==> 0 <= find(s, i) < s.len() && s[find(s, i)].1 == x,
{
    lemma_find(s, i);
}

/// Binding `i` makes it bound to `b` and leaves every other key as it was.
pub proof fn law_with_binding(s: Seq<(Input, BindView)>, i: Input, b: BindView, j: Input)
    ensures
        bound(with_binding(s, i, b), i) == Some(b),
        j != i ==> bound(with_binding(s, i, b), j) == bound(s, j),
{
    let t = with_binding(s, i, b);
    lemma_find(s, i);
    lemma_find(s, j);
    lemma_find(t, i);
    lemma_find(t, j);
    if find(s, i) >= 0 {
        assert(t.len() == s.len());
        lemma_find_unique(t, i, find(s, i));
        if j != i {
            if find(s, j) >= 0 {
                assert(t[find(s, j)] == s[find(s, j)]);
                lemma_find_unique(t, j, find(s, j));
            } else {
                assert forall|k: int| 0 <= k < t.len() implies t[k].0 != j by {
                    if k != find(s, i) {
                        assert(t[k] == s[k]);
                    }
                }
            }
        }
    } else {
        lemma_find_unique(t, i, s.len() as int);
        if j != i {
            if find(s, j) >= 0 {
                assert(t[find(s, j)] == s[find(s, j)]);
                lemma_find_unique(t, j, find(s, j));
            } else {
                assert forall|k: int| 0 <= k < t.len() implies t[k].0 != j by {
                    if k < s.len() {
                        assert(t[k] == s[k]);
                    }
                }
            }
        }
    }
}

/// The first entry for `i` is the one at `k` when none before it is.
proof fn lemma_find_unique(s: Seq<(Input, BindView)>, i: Input, k: int)
    requires
        0 <= k < s.len(),
        s[k].0 == i,
        forall|j: int| 0 <= j < k ==> s[j].0 != i,
    ensures
        find(s, i) == k,
    decreases s.len(),
{
    lemma_find(s, i);
    if find(s, i) >= 0 && find(s, i) != k {
        assert(find(s, i) > k);
    }
    if find(s, i) < 0 {
        assert(s[k].0 != i);
    }
}

/// The views of the key maps.
pub open spec fn maps_view(maps: Seq<KeyMap>) -> Seq<Seq<(Input, BindView)>> {
    maps.map_values(|m: KeyMap| m@)
}

/// Every key map that a binding refers to exists.
pub open spec fn maps_wf(maps: Seq<Seq<(Input, BindView)>>) -> bool {
    forall|m: int, e: int|
        0 <= m < maps.len() && 0 <= e < maps[m].len() ==> ((#[trigger] maps[m][e]).1 matches BindView::SubMap(s)
            ==> s < maps.len())
}

/// What looking up the keys `inputs` from key map `k` gives, and the keys
/// left afterwards.
///
/// The keys that lead to a command are taken. Keys that stand for other
/// keys are replaced by them. Where no command is found because more keys
/// are needed, the keys are left as they were; where the keys are bound to
/// nothing, the keys read are put back if `save` is set.
pub open spec fn spec_lookup(maps: Seq<Seq<(Input, BindView)>>, k: usize, inputs: Seq<Input>, save: bool) -> (
    Result<Command, LookupError>,
    Seq<Input>,
)
    decreases inputs.len(),
{
    if inputs.len() == 0 {
        (Err(LookupError::NotEnoughInput), inputs)
    } else {
        let input = inputs[0];
        let rest = inputs.skip(1);
        match bound(maps[k as int], input) {
            Some(BindView::Command(c)) => (Ok(c), rest),
            Some(BindView::SubMap(s)) => {
                let (r, after) = spec_lookup(maps, s, rest, save);
                match r {
                    Ok(c) => (Ok(c), after),
                    Err(e) => {
                        let after2 = if save { seq![input] + after } else { after };
                        match e {
                            LookupError::NotEnoughInput => (
                                Err(LookupError::NotEnoughInput),
                                if save { after2 } else { seq![input] + after2 },
                            ),
                            LookupError::UnboundInput(_) => (Err(LookupError::UnboundInput(None)), after2),
                            LookupError::InputWasMapped => (Err(LookupError::InputWasMapped), after2),
                        }
                    },
                }
            },
            Some(BindView::Mapping(m)) => (Err(LookupError::InputWasMapped), m + rest),
            None => (Err(LookupError::UnboundInput(Some(input))), if save { inputs } else { rest }),
        }
    }
}

/// The key maps after the keys `rest` are bound to `b` through new key
/// maps, and what the first of them is bound to.
pub open spec fn spec_create_bind(maps: Seq<Seq<(Input, BindView)>>, rest: Seq<Input>, b: BindView) -> (
    Seq<Seq<(Input, BindView)>>,
    BindView,
)
    decreases rest.len(),
{
    if rest.len() == 0 {
        (maps, b)
    } else {
        let (maps1, inner) = spec_create_bind(maps, rest.skip(1), b);
        (maps1.push(seq![(rest[0], inner)]), BindView::SubMap(maps1.len() as usize))
    }
}

/// One pass of binding the keys `inputs` to `b` from key map `k`: the
/// key maps afterwards, whether it is done, and the keys left. A key bound
/// to a key map goes on in it; a key that stands for other keys (with more
/// keys after it) is replaced by them and the binding starts over;
/// otherwise the key is bound, through new key maps for the keys after it.
pub open spec fn spec_assign_step(maps: Seq<Seq<(Input, BindView)>>, k: usize, inputs: Seq<Input>, b: BindView) -> (
    Seq<Seq<(Input, BindView)>>,
    bool,
    Seq<Input>,
)
    decreases inputs.len(),
{
    if inputs.len() == 0 {
        (maps, true, inputs)
    } else {
        let input = inputs[0];
        let rest = inputs.skip(1);
        match bound(maps[k as int], input) {
            Some(BindView::SubMap(s)) if rest.len() > 0 => spec_assign_step(maps, s, rest, b),
            Some(BindView::Mapping(m)) if rest.len() > 0 => (maps, false, m + rest),
            _ => {
                let (maps1, inner) = spec_create_bind(maps, rest, b);
                (maps1.update(k as int, with_binding(maps1[k as int], input, inner)), true, Seq::empty())
            },
        }
    }
}

/// Binding the keys `inputs` to `b` in key map `top`, over at most `fuel`
/// passes: the key maps afterwards, or `None` if the passes do not end.
pub open spec fn spec_assign(maps: Seq<Seq<(Input, BindView)>>, top: usize, inputs: Seq<Input>, b: BindView, fuel: nat) -> Option<
    Seq<Seq<(Input, BindView)>>,
>
    decreases fuel,
{
    if fuel == 0 {
        None
    } else {
        let (maps1, done, inputs1) = spec_assign_step(maps, top, inputs, b);
        if done {
            Some(maps1)
        } else {
            spec_assign(maps1, top, inputs1, b, (fuel - 1) as nat)
        }
    }
}

/// Binding ends after some number of passes (it goes on forever where keys
/// stand for keys that lead back to them).
pub open spec fn assign_ends(maps: Seq<Seq<(Input, BindView)>>, top: usize, inputs: Seq<Input>, b: BindView) -> bool {
    exists|fuel: nat| #[trigger] spec_assign(maps, top, inputs, b, fuel) is Some
}

/// The key maps once the binding has ended.
pub open spec fn assigned(maps: Seq<Seq<(Input, BindView)>>, top: usize, inputs: Seq<Input>, b: BindView) -> Seq<
    Seq<(Input, BindView)>,
> {
    spec_assign(maps, top, inputs, b, choose|fuel: nat| #[trigger] spec_assign(maps, top, inputs, b, fuel) is Some)->0
}

impl KeyMap {
    pub closed spec fn view(&self) -> Seq<(Input, BindView)> {
        self.bindings@.map_values(|e: (Input, KeyBind)| (e.0, e.1@))
    }

    /// A key map with no bindings.
    pub fn new() -> (m: KeyMap)
        ensures
            m@ == Seq::<(Input, BindView)>::empty(),
    {
        let m = KeyMap { bindings: Vec::new() };
        assert(m@ =~= Seq::<(Input, BindView)>::empty());
        m
    }

    /// The place of the first entry for `i`.
    fn find_exec(&self, i: Input) -> (r: Option<usize>)
        ensures
            match r {
                Some(k) => k == find(self@, i),
                None => find(self@, i) < 0,
            },
    {
        proof {
            lemma_find(self@, i);
        }
        let mut k: usize = 0;
        while k < self.bindings.len()
            invariant
                k <= self.bindings@.len(),
                self@.len() == self.bindings@.len(),
                -1 <= find(self@, i) < self@.len(),
                find(self@, i) >= 0 ==> self@[find(self@, i)].0 == i && forall|j: int|
                    0 <= j < find(self@, i) ==> self@[j].0 != i,
                find(self@, i) < 0 ==> forall|j: int| 0 <= j < self@.len() ==> self@[j].0 != i,
                forall|j: int| 0 <= j < k ==> self@[j].0 != i,
            decreases self.bindings.len() - k,
        {
            assert(self@[k as int].0 == self.bindings@[k as int].0);
            if self.bindings[k].0 == i {
                proof {
                    if find(self@, i) >= 0 && find(self@, i) != k {
                        assert(find(self@, i) > k);
                    }
                }
                return Some(k);
            }
            k = k + 1;
        }
        None
    }

    /// Sets the binding of `i` to `b`.
    fn set_binding(&mut self, i: Input, b: KeyBind)
        ensures
            final(self)@ == with_binding(old(self)@, i, b@),
    {
        proof {
            lemma_find(self@, i);
        }
        match self.find_exec(i) {
            Some(k) => {
                self.bindings.set(k, (i, b));
                assert(self@ =~= with_binding(old(self)@, i, b@));
            },
            None => {
                self.bindings.push((i, b));
                assert(self@ =~= with_binding(old(self)@, i, b@));
            },
        }
    }

    /// Looks up the keys `inputs` from key map `key_map` (see `spec_lookup`).
    pub fn lookup(maps: &Vec<KeyMap>, key_map: usize, inputs: &mut VecDeque<Input>, save_input_on_error: bool) -> (r: Result<
        Command,
        LookupError,
    >)
        requires
            maps_wf(maps_view(maps@)),
            key_map < maps@.len(),
        ensures
            (r, final(inputs)@) == spec_lookup(maps_view(maps@), key_map, old(inputs)@, save_input_on_error),
        decreases old(inputs)@.len(),
    {
        let ghost mv = maps_view(maps@);
        let ghost before = inputs@;
        match inputs.pop_front() {
            Some(input) => {
                assert(inputs@ =~= before.skip(1));
                assert(mv[key_map as int] == maps@[key_map as int]@);
                let km = &maps[key_map];
                match km.find_exec(input) {
                    Some(k) => {
                        proof {
                            lemma_find(mv[key_map as int], input);
                        }
                        assert(km@[k as int] == (km.bindings@[k as int].0, km.bindings@[k as int].1@));
                        match &km.bindings[k].1 {
                            KeyBind::Command(command) => Ok(command.copy()),
                            KeyBind::SubMap(sub_map) => {
                                assert(mv[key_map as int][k as int].1 == BindView::SubMap(*sub_map));
                                let r = KeyMap::lookup(maps, *sub_map, inputs, save_input_on_error);
                                match r {
                                    Ok(c) => Ok(c),
                                    Err(e) => {
                                        if save_input_on_error {
                                            inputs.push_front(input);
                                        }
                                        match e {
                                            LookupError::NotEnoughInput => {
                                                if !save_input_on_error {
                                                    inputs.push_front(input);
                                                }
                                                Err(LookupError::NotEnoughInput)
                                            },
                                            LookupError::UnboundInput(_) => Err(LookupError::UnboundInput(None)),
                                            LookupError::InputWasMapped => Err(LookupError::InputWasMapped),
                                        }
                                    },
                                }
                            },
                            KeyBind::Mapping(mapping) => {
                                let ghost rest = inputs@;
                                let mut j = mapping.len();
                                while j > 0
                                    invariant
                                        j <= mapping@.len(),
                                        inputs@ == mapping@.skip(j as int) + rest,
                                    decreases j,
                                {
                                    j = j - 1;
                                    inputs.push_front(mapping[j]);
                                    assert(inputs@ =~= mapping@.skip(j as int) + rest);
                                }
                                assert(mapping@.skip(0) =~= mapping@);
                                Err(LookupError::InputWasMapped)
                            },
                        }
                    },
                    None => {
                        if save_input_on_error {
                            inputs.push_front(input);
                            assert(inputs@ =~= before);
                        }
                        Err(LookupError::UnboundInput(Some(input)))
                    },
                }
            },
            None => Err(LookupError::NotEnoughInput),
        }
    }

    /// Binds the keys `inputs` to `key_bind` through new key maps, which
    /// are added; the binding for the first key is returned.
    fn create_bind(maps: &mut Vec<KeyMap>, inputs: &mut VecDeque<Input>, key_bind: KeyBind) -> (b: KeyBind)
        ensures
            (maps_view(final(maps)@), b@) == spec_create_bind(maps_view(old(maps)@), old(inputs)@, key_bind@),
            final(inputs)@.len() == 0,
        decreases old(inputs)@.len(),
    {
        let ghost before = inputs@;
        let ghost mv0 = maps_view(maps@);
        match inputs.pop_front() {
            Some(input) => {
                assert(inputs@ =~= before.skip(1));
                let inner = KeyMap::create_bind(maps, inputs, key_bind);
                let ghost mv1 = maps_view(maps@);
                let mut m = KeyMap::new();
                let ghost iv = inner@;
                m.bindings.push((input, inner));
                assert(m@ =~= seq![(input, iv)]);
                let id = maps.len();
                maps.push(m);
                assert(maps_view(maps@) =~= mv1.push(seq![(input, iv)]));
                KeyBind::SubMap(id)
            },
            None => key_bind,
        }
    }

    /// One pass of binding (see `spec_assign_step`); `Err` gives the
    /// binding back to start over with.
    fn assign_step(maps: &mut Vec<KeyMap>, key_map: usize, inputs: &mut VecDeque<Input>, key_bind: KeyBind) -> (r: Result<
        (),
        KeyBind,
    >)
        requires
            maps_wf(maps_view(old(maps)@)),
            key_map < old(maps)@.len(),
            old(inputs)@.len() > 0,
            key_bind@ matches BindView::SubMap(s) ==> s < old(maps)@.len(),
        ensures
            maps_wf(maps_view(final(maps)@)),
            final(maps)@.len() >= old(maps)@.len(),
            (maps_view(final(maps)@), r is Ok, final(inputs)@) == spec_assign_step(
                maps_view(old(maps)@),
                key_map,
                old(inputs)@,
                key_bind@,
            ),
            r matches Err(b) ==> b@ == key_bind@,
            r is Err ==> final(inputs)@.len() > 0,
        decreases old(inputs)@.len(),
    {
        let ghost mv = maps_view(maps@);
        let ghost before = inputs@;
        let input = match inputs.pop_front() {
            Some(i) => i,
            None => {
                return Ok(());
            },
        };
        assert(inputs@ =~= before.skip(1));
        assert(mv[key_map as int] == maps@[key_map as int]@);
        proof {
            lemma_find(mv[key_map as int], input);
        }
        match maps[key_map].find_exec(input) {
            Some(k) => {
                let km = &maps[key_map];
                assert(km@[k as int] == (km.bindings@[k as int].0, km.bindings@[k as int].1@));
                let nonempty = inputs.len() > 0;
                match &km.bindings[k].1 {
                    KeyBind::SubMap(sub_map) => {
                        if nonempty {
                            let s = *sub_map;
                            assert(mv[key_map as int][k as int].1 == BindView::SubMap(s));
                            return KeyMap::assign_step(maps, s, inputs, key_bind);
                        }
                    },
                    KeyBind::Mapping(mapping) => {
                        if nonempty {
                            let ghost rest = inputs@;
                            let mut j = mapping.len();
                            while j > 0
                                invariant
                                    j <= mapping@.len(),
                                    inputs@ == mapping@.skip(j as int) + rest,
                                decreases j,
                            {
                                j = j - 1;
                                inputs.push_front(mapping[j]);
                                assert(inputs@ =~= mapping@.skip(j as int) + rest);
                            }
                            assert(mapping@.skip(0) =~= mapping@);
                            return Err(key_bind);
                        }
                    },
                    KeyBind::Command(_) => {},
                }
            },
            None => {},
        }
        let ghost rest = inputs@;
        let inner = KeyMap::create_bind(maps, inputs, key_bind);
        proof {
            lemma_create_bind_wf(mv, rest, key_bind@);
        }
        let ghost mv1 = maps_view(maps@);
        let ghost iv = inner@;
        maps[key_map].set_binding(input, inner);
        proof {
            assert(maps_view(maps@) =~= mv1.update(key_map as int, with_binding(mv1[key_map as int], input, iv)));
            lemma_with_binding_wf(mv1, key_map as int, input, iv);
        }
        Ok(())
    }

    /// Binds the keys `inputs` to `key_bind` in key map `key_map`, pass
    /// after pass (see `spec_assign`).
    fn assign(maps: &mut Vec<KeyMap>, key_map: usize, inputs: &mut VecDeque<Input>, key_bind: KeyBind)
        requires
            maps_wf(maps_view(old(maps)@)),
            key_map < old(maps)@.len(),
            old(inputs)@.len() > 0,
            key_bind@ matches BindView::SubMap(s) ==> s < old(maps)@.len(),
            assign_ends(maps_view(old(maps)@), key_map, old(inputs)@, key_bind@),
        ensures
            maps_wf(maps_view(final(maps)@)),
            maps_view(final(maps)@) == assigned(maps_view(old(maps)@), key_map, old(inputs)@, key_bind@),
    {
        let ghost b = key_bind@;
        let ghost fuel0 = choose|fuel: nat| #[trigger] spec_assign(maps_view(maps@), key_map, inputs@, b, fuel) is Some;
        let ghost target = assigned(maps_view(maps@), key_map, inputs@, b);
        let ghost mut fuel: nat = fuel0;
        let mut kb = key_bind;
        loop
            invariant
                maps_wf(maps_view(maps@)),
                key_map < maps@.len(),
                inputs@.len() > 0,
                kb@ == b,
                key_bind@ == b,
                b matches BindView::SubMap(s) ==> s < maps@.len(),
                spec_assign(maps_view(maps@), key_map, inputs@, b, fuel) == Some(target),
                target == assigned(maps_view(old(maps)@), key_map, old(inputs)@, b),
            decreases fuel,
        {
            let ghost mv = maps_view(maps@);
            let ghost inp = inputs@;
            match KeyMap::assign_step(maps, key_map, inputs, kb) {
                Ok(()) => {
                    assert(fuel > 0);
                    assert(spec_assign(mv, key_map, inp, b, fuel) == Some(maps_view(maps@)));
                    return ;
                },
                Err(back) => {
                    kb = back;
                    proof {
                        fuel = (fuel - 1) as nat;
                    }
                },
            }
        }
    }

    /// Binds the keys `inputs`, from key map `key_map`, to run `command`.
    pub fn bind(maps: &mut Vec<KeyMap>, key_map: usize, inputs: Vec<Input>, command: Command)
        requires
            maps_wf(maps_view(old(maps)@)),
            key_map < old(maps)@.len(),
            inputs@.len() > 0,
            assign_ends(maps_view(old(maps)@), key_map, inputs@, BindView::Command(command)),
        ensures
            maps_wf(maps_view(final(maps)@)),
            maps_view(final(maps)@) == assigned(maps_view(old(maps)@), key_map, inputs@, BindView::Command(command)),
    {
        let mut queue = to_queue(&inputs);
        KeyMap::assign(maps, key_map, &mut queue, KeyBind::Command(command));
    }

    /// Binds the keys `inputs`, from key map `key_map`, to go on in key map
    /// `sub_map`.
    pub fn bind_key_map(maps: &mut Vec<KeyMap>, key_map: usize, inputs: Vec<Input>, sub_map: usize)
        requires
            maps_wf(maps_view(old(maps)@)),
            key_map < old(maps)@.len(),
            sub_map < old(maps)@.len(),
            inputs@.len() > 0,
            assign_ends(maps_view(old(maps)@), key_map, inputs@, BindView::SubMap(sub_map)),
        ensures
            maps_wf(maps_view(final(maps)@)),
            maps_view(final(maps)@) == assigned(maps_view(old(maps)@), key_map, inputs@, BindView::SubMap(sub_map)),
    {
        let mut queue = to_queue(&inputs);
        KeyMap::assign(maps, key_map, &mut queue, KeyBind::SubMap(sub_map));
    }

    /// Makes the keys `inputs`, from key map `key_map`, stand for the keys
    /// `mapping`.
    pub fn map(maps: &mut Vec<KeyMap>, key_map: usize, inputs: Vec<Input>, mapping: Vec<Input>)
        requires
            maps_wf(maps_view(old(maps)@)),
            key_map < old(maps)@.len(),
            inputs@.len() > 0,
            assign_ends(maps_view(old(maps)@), key_map, inputs@, BindView::Mapping(mapping@)),
        ensures
            maps_wf(maps_view(final(maps)@)),
            maps_view(final(maps)@) == assigned(maps_view(old(maps)@), key_map, inputs@, BindView::Mapping(mapping@)),
    {
        let mut queue = to_queue(&inputs);
        KeyMap::assign(maps, key_map, &mut queue, KeyBind::Mapping(mapping));
    }
}

impl KeyMap {
    /// One pass of binding (see `spec_assign_step`) that only reads the key
    /// maps: whether the pass would bind the keys, and where it would not,
    /// the keys it starts over with.
    fn assign_walk(maps: &Vec<KeyMap>, key_map: usize, inputs: &mut VecDeque<Input>, Ghost(b): Ghost<BindView>) -> (done:
        bool)
        requires
            maps_wf(maps_view(maps@)),
            key_map < maps@.len(),
        ensures
            done == spec_assign_step(maps_view(maps@), key_map, old(inputs)@, b).1,
            !done ==> final(inputs)@ == spec_assign_step(maps_view(maps@), key_map, old(inputs)@, b).2,
        decreases old(inputs)@.len(),
    {
        let ghost mv = maps_view(maps@);
        let ghost before = inputs@;
        let input = match inputs.pop_front() {
            Some(i) => i,
            None => {
                return true;
            },
        };
        assert(inputs@ =~= before.skip(1));
        assert(mv[key_map as int] == maps@[key_map as int]@);
        proof {
            lemma_find(mv[key_map as int], input);
        }
        match maps[key_map].find_exec(input) {
            Some(k) => {
                let km = &maps[key_map];
                assert(km@[k as int] == (km.bindings@[k as int].0, km.bindings@[k as int].1@));
                let nonempty = inputs.len() > 0;
                match &km.bindings[k].1 {
                    KeyBind::SubMap(sub_map) => {
                        if nonempty {
                            let s = *sub_map;
                            assert(mv[key_map as int][k as int].1 == BindView::SubMap(s));
                            return KeyMap::assign_walk(maps, s, inputs, Ghost(b));
                        }
                    },
                    KeyBind::Mapping(mapping) => {
                        if nonempty {
                            let ghost rest = inputs@;
                            let mut j = mapping.len();
                            while j > 0
                                invariant
                                    j <= mapping@.len(),
                                    inputs@ == mapping@.skip(j as int) + rest,
                                decreases j,
                            {
                                j = j - 1;
                                inputs.push_front(mapping[j]);
                                assert(inputs@ =~= mapping@.skip(j as int) + rest);
                            }
                            assert(mapping@.skip(0) =~= mapping@);
                            return false;
                        }
                    },
                    KeyBind::Command(_) => {},
                }
            },
            None => {},
        }
        true
    }

    /// Whether binding the keys `inputs` from key map `key_map` ends within
    /// `fuel` passes, whatever they are bound to; where it does, binding
    /// them ends (`assign_ends`), so `bind`, `bind_key_map` and `map` may
    /// be called with them.
    pub fn assign_ends_within(maps: &Vec<KeyMap>, key_map: usize, inputs: &Vec<Input>, fuel: usize) -> (r: bool)
        requires
            maps_wf(maps_view(maps@)),
            key_map < maps@.len(),
        ensures
            forall|b: BindView| r == (#[trigger] spec_assign(maps_view(maps@), key_map, inputs@, b, fuel as nat) is Some),
            r ==> forall|b: BindView| #[trigger] assign_ends(maps_view(maps@), key_map, inputs@, b),
    {
        let ghost mv = maps_view(maps@);
        let ghost any = BindView::SubMap(0);
        let mut q = to_queue(inputs);
        let mut f: usize = fuel;
        loop
            invariant
                maps_wf(mv),
                mv == maps_view(maps@),
                key_map < maps@.len(),
                f <= fuel,
                forall|b: BindView|
                    (#[trigger] spec_assign(mv, key_map, q@, b, f as nat) is Some) == (spec_assign(
                        mv,
                        key_map,
                        inputs@,
                        b,
                        fuel as nat,
                    ) is Some),
            decreases f,
        {
            if f == 0 {
                proof {
                    assert forall|b: BindView| !(#[trigger] spec_assign(mv, key_map, inputs@, b, fuel as nat) is Some) by {
                        assert(spec_assign(mv, key_map, q@, b, 0) is None);
                    }
                }
                return false;
            }
            let ghost q0 = q@;
            let done = KeyMap::assign_walk(maps, key_map, &mut q, Ghost(any));
            if done {
                proof {
                    assert forall|b: BindView| #[trigger] spec_assign(mv, key_map, inputs@, b, fuel as nat) is Some by {
                        lemma_assign_step_pending(mv, key_map, q0, any, b);
                        assert(spec_assign(mv, key_map, q0, b, f as nat) is Some);
                    }
                    assert forall|b: BindView| #[trigger] assign_ends(mv, key_map, inputs@, b) by {
                        assert(spec_assign(mv, key_map, inputs@, b, fuel as nat) is Some);
                    }
                }
                return true;
            }
            proof {
                assert forall|b: BindView|
                    (#[trigger] spec_assign(mv, key_map, q@, b, (f - 1) as nat) is Some) == (spec_assign(
                        mv,
                        key_map,
                        inputs@,
                        b,
                        fuel as nat,
                    ) is Some) by {
                    lemma_assign_step_pending(mv, key_map, q0, b, any);
                    assert(spec_assign(mv, key_map, q0, b, f as nat) == spec_assign(mv, key_map, q@, b, (f - 1) as nat));
                }
            }
            f = f - 1;
        }
    }
}

/// A pass that does not bind leaves the key maps as they were, and whether
/// a pass binds, and the keys it starts over with, do not depend on what
/// the keys are bound to.
proof fn lemma_assign_step_pending(maps: Seq<Seq<(Input, BindView)>>, k: usize, inputs: Seq<Input>, b: BindView, b2: BindView)
    ensures
        spec_assign_step(maps, k, inputs, b).1 == spec_assign_step(maps, k, inputs, b2).1,
        !spec_assign_step(maps, k, inputs, b).1 ==> spec_assign_step(maps, k, inputs, b).0 == maps
            && spec_assign_step(maps, k, inputs, b).2 == spec_assign_step(maps, k, inputs, b2).2,
    decreases inputs.len(),
{
    if inputs.len() > 0 {
        let rest = inputs.skip(1);
        match bound(maps[k as int], inputs[0]) {
            Some(BindView::SubMap(s)) => {
                if rest.len() > 0 {
                    lemma_assign_step_pending(maps, s, rest, b, b2);
                }
            },
            _ => {},
        }
    }
}

/// The keys of `v`, in order, as a queue.
fn to_queue(v: &Vec<Input>) -> (q: VecDeque<Input>)
    ensures
        q@ == v@,
{
    let mut q: VecDeque<Input> = VecDeque::new();
    let mut i: usize = 0;
    while i < v.len()
        invariant
            i <= v@.len(),
            q@ == v@.take(i as int),
        decreases v.len() - i,
    {
        q.push_back(v[i]);
        assert(q@ =~= v@.take(i + 1));
        i = i + 1;
    }
    assert(v@.take(i as int) =~= v@);
    q
}

/// New key maps only refer to key maps that exist, and the binding they
/// hand back does too.
proof fn lemma_create_bind_wf(maps: Seq<Seq<(Input, BindView)>>, rest: Seq<Input>, b: BindView)
    requires
        maps_wf(maps),
        b matches BindView::SubMap(s) ==> s < maps.len(),
    ensures
        maps_wf(spec_create_bind(maps, rest, b).0),
        spec_create_bind(maps, rest, b).0.len() >= maps.len(),
        forall|m: int| 0 <= m < maps.len() ==> #[trigger] spec_create_bind(maps, rest, b).0[m] == maps[m],
        spec_create_bind(maps, rest, b).1 matches BindView::SubMap(s) ==> s < spec_create_bind(maps, rest, b).0.len(),
    decreases rest.len(),
{
    if rest.len() > 0 {
        lemma_create_bind_wf(maps, rest.skip(1), b);
        let (maps1, inner) = spec_create_bind(maps, rest.skip(1), b);
        let m2 = maps1.push(seq![(rest[0], inner)]);
        assert forall|m: int, e: int| 0 <= m < m2.len() && 0 <= e < m2[m].len() implies ((#[trigger] m2[m][e]).1 matches BindView::SubMap(s) ==> s < m2.len()) by {
            if m < maps1.len() {
                assert(m2[m] == maps1[m]);
            }
        }
    }
}

/// Setting a binding that refers to existing key maps keeps every
/// reference good.
proof fn lemma_with_binding_wf(maps: Seq<Seq<(Input, BindView)>>, k: int, i: Input, b: BindView)
    requires
        maps_wf(maps),
        0 <= k < maps.len(),
        b matches BindView::SubMap(s) ==> s < maps.len(),
    ensures
        maps_wf(maps.update(k, with_binding(maps[k], i, b))),
{
    let m2 = maps.update(k, with_binding(maps[k], i, b));
    lemma_find(maps[k], i);
    assert forall|m: int, e: int| 0 <= m < m2.len() && 0 <= e < m2[m].len() implies ((#[trigger] m2[m][e]).1 matches BindView::SubMap(s) ==> s < m2.len()) by {
        if m == k {
            if find(maps[k], i) >= 0 {
                if e != find(maps[k], i) {
                    assert(m2[m][e] == maps[k][e]);
                }
            } else {
                if e < maps[k].len() {
                    assert(m2[m][e] == maps[k][e]);
                }
            }
        } else {
            assert(m2[m] == maps[m]);
        }
    }
}

/// The key maps that binding makes anew lead, key by key, to the binding.
proof fn lemma_create_bind_lookup(
    maps: Seq<Seq<(Input, BindView)>>,
    rest: Seq<Input>,
    more: Seq<Input>,
    c: Command,
    save: bool,
    later: Seq<Seq<(Input, BindView)>>,
)
    requires
        rest.len() > 0,
        maps.len() + rest.len() <= usize::MAX,
        later.len() >= spec_create_bind(maps, rest, BindView::Command(c)).0.len(),
        forall|m: int|
            maps.len() <= m < spec_create_bind(maps, rest, BindView::Command(c)).0.len() ==> #[trigger] later[m]
                == spec_create_bind(maps, rest, BindView::Command(c)).0[m],
    ensures
        spec_create_bind(maps, rest, BindView::Command(c)).1 matches BindView::SubMap(id) && maps.len() <= id
            && spec_lookup(later, id, rest + more, save) == (Ok::<Command, LookupError>(c), more),
    decreases rest.len(),
{
    let b = BindView::Command(c);
    let (maps1, inner) = spec_create_bind(maps, rest.skip(1), b);
    let id = maps1.len() as usize;
    lemma_create_bind_wf_len(maps, rest.skip(1), b);
    assert(later[id as int] == seq![(rest[0], inner)]);
    lemma_find_unique(later[id as int], rest[0], 0);
    assert((rest + more)[0] == rest[0]);
    assert((rest + more).skip(1) =~= rest.skip(1) + more);
    if rest.len() > 1 {
        lemma_create_bind_lookup(maps, rest.skip(1), more, c, save, later);
        assert(rest.skip(1).len() > 0);
    } else {
        assert(rest.skip(1).len() == 0);
        assert(rest.skip(1) + more =~= more);
    }
}

proof fn lemma_create_bind_wf_len(maps: Seq<Seq<(Input, BindView)>>, rest: Seq<Input>, b: BindView)
    ensures
        spec_create_bind(maps, rest, b).0.len() == maps.len() + rest.len(),
        forall|m: int| 0 <= m < maps.len() ==> #[trigger] spec_create_bind(maps, rest, b).0[m] == maps[m],
    decreases rest.len(),
{
    if rest.len() > 0 {
        lemma_create_bind_wf_len(maps, rest.skip(1), b);
    }
}

/// After the keys `inputs`, whose first key was bound to nothing, are bound
/// to a command, looking up those keys followed by any others (`more`)
/// finds that command and takes just the bound keys.
pub proof fn law_bind_then_lookup(
    maps: Seq<Seq<(Input, BindView)>>,
    k: usize,
    inputs: Seq<Input>,
    more: Seq<Input>,
    c: Command,
    save: bool,
)
    requires
        k < maps.len(),
        inputs.len() > 0,
        maps.len() + inputs.len() <= usize::MAX,
        bound(maps[k as int], inputs[0]) is None,
    ensures
        assign_ends(maps, k, inputs, BindView::Command(c)),
        spec_lookup(assigned(maps, k, inputs, BindView::Command(c)), k, inputs + more, save) == (
            Ok::<Command, LookupError>(c),
            more,
        ),
{
    let b = BindView::Command(c);
    let rest = inputs.skip(1);
    let (maps1, inner) = spec_create_bind(maps, rest, b);
    let after = maps1.update(k as int, with_binding(maps1[k as int], inputs[0], inner));
    assert(spec_assign_step(maps, k, inputs, b) == (after, true, Seq::<Input>::empty()));
    assert(spec_assign(maps, k, inputs, b, 1) == Some(after));
    let f = choose|fuel: nat| #[trigger] spec_assign(maps, k, inputs, b, fuel) is Some;
    assert(f > 0);
    assert(spec_assign(maps, k, inputs, b, f) == Some(after));
    lemma_create_bind_wf_len(maps, rest, b);
    law_with_binding(maps1[k as int], inputs[0], inner, inputs[0]);
    assert((inputs + more)[0] == inputs[0]);
    assert((inputs + more).skip(1) =~= rest + more);
    if rest.len() > 0 {
        lemma_create_bind_lookup(maps, rest, more, c, save, after);
    } else {
        assert(rest + more =~= more);
    }
}

/// A key map with nothing bound gives nothing; the key is put back when
/// `save` is set.
pub proof fn law_lookup_unbound(maps: Seq<Seq<(Input, BindView)>>, k: usize, inputs: Seq<Input>, save: bool)
    requires
        k < maps.len(),
        inputs.len() > 0,
        bound(maps[k as int], inputs[0]) is None,
    ensures
        spec_lookup(maps, k, inputs, save) == (
            Err::<Command, LookupError>(LookupError::UnboundInput(Some(inputs[0]))),
            if save { inputs } else { inputs.skip(1) },
        ),
{
}

/// `after` is what is left of `inputs` once some keys are taken from its
/// front.
pub open spec fn is_suffix(after: Seq<Input>, inputs: Seq<Input>) -> bool {
    after.len() <= inputs.len() && after == inputs.skip(inputs.len() - after.len())
}

/// The keys a lookup leaves: a lookup that finds a command takes the keys
/// that lead to it; one that needs more keys leaves them all; one that finds
/// the keys bound to nothing puts back every key it read when `save` is set,
/// and otherwise uses them all up, leaving only keys after them.
pub proof fn law_lookup_keys_left(maps: Seq<Seq<(Input, BindView)>>, k: usize, inputs: Seq<Input>, save: bool)
    ensures
        ({
            let (r, after) = spec_lookup(maps, k, inputs, save);
            &&& r is Ok ==> after.len() < inputs.len() && is_suffix(after, inputs)
            &&& r == Err::<Command, LookupError>(LookupError::NotEnoughInput) ==> after == inputs
            &&& r matches Err(LookupError::UnboundInput(_)) ==> if save {
                after == inputs
            } else {
                after.len() < inputs.len() && is_suffix(after, inputs)
            }
        }),
    decreases inputs.len(),
{
    if inputs.len() > 0 {
        let input = inputs[0];
        let rest = inputs.skip(1);
        assert(seq![input] + rest =~= inputs);
        match bound(maps[k as int], input) {
            Some(BindView::Command(c)) => {
                assert(rest =~= inputs.skip(inputs.len() - rest.len()));
            },
            Some(BindView::SubMap(sm)) => {
                law_lookup_keys_left(maps, sm, rest, save);
                let after = spec_lookup(maps, sm, rest, save).1;
                if after.len() <= rest.len() {
                    assert(rest.skip(rest.len() - after.len()) =~= inputs.skip(inputs.len() - after.len()));
                }
            },
            Some(BindView::Mapping(m)) => {},
            None => {
                assert(rest =~= inputs.skip(inputs.len() - rest.len()));
            },
        }
    }
}

/// Binding a single key sets its binding in the key map and changes
/// nothing else.
pub proof fn lemma_bind_single(maps: Seq<Seq<(Input, BindView)>>, k: usize, i: Input, b: BindView)
    requires
        k < maps.len(),
    ensures
        assign_ends(maps, k, seq![i], b),
        assigned(maps, k, seq![i], b) == maps.update(k as int, with_binding(maps[k as int], i, b)),
{
    let inputs = seq![i];
    assert(inputs.skip(1) =~= Seq::<Input>::empty());
    let after = maps.update(k as int, with_binding(maps[k as int], i, b));
    assert(spec_create_bind(maps, inputs.skip(1), b) == (maps, b));
    assert(spec_assign_step(maps, k, inputs, b) == (after, true, Seq::<Input>::empty()));
    assert(spec_assign(maps, k, inputs, b, 1) == Some(after));
    let f = choose|fuel: nat| #[trigger] spec_assign(maps, k, inputs, b, fuel) is Some;
    assert(f > 0);
    assert(spec_assign(maps, k, inputs, b, f) == Some(after));
}

/// Binding a key that no entry has adds an entry at the end.
pub proof fn lemma_with_binding_new(s: Seq<(Input, BindView)>, i: Input, b: BindView)
    requires
        forall|j: int| 0 <= j < s.len() ==> (#[trigger] s[j]).0 != i,
    ensures
        with_binding(s, i, b) == s.push((i, b)),
        bound(s, i) is None,
{
    lemma_find(s, i);
}

/// Binding two keys, the first bound to nothing or to a command, puts the
/// second in a new key map at the end, which the first is bound to.
pub proof fn lemma_bind_pair_new(maps: Seq<Seq<(Input, BindView)>>, k: usize, i1: Input, i2: Input, b: BindView)
    requires
        k < maps.len(),
        maps.len() < usize::MAX,
        !(bound(maps[k as int], i1) matches Some(BindView::SubMap(_))),
        !(bound(maps[k as int], i1) matches Some(BindView::Mapping(_))),
    ensures
        assign_ends(maps, k, seq![i1, i2], b),
        assigned(maps, k, seq![i1, i2], b) == maps.push(seq![(i2, b)]).update(
            k as int,
            with_binding(maps[k as int], i1, BindView::SubMap(maps.len() as usize)),
        ),
{
    let inputs = seq![i1, i2];
    let rest = inputs.skip(1);
    assert(rest =~= seq![i2]);
    assert(rest.skip(1) =~= Seq::<Input>::empty());
    assert(spec_create_bind(maps, rest.skip(1), b) == (maps, b));
    assert(spec_create_bind(maps, rest, b) == (maps.push(seq![(i2, b)]), BindView::SubMap(maps.len() as usize)));
    let after = maps.push(seq![(i2, b)]).update(
        k as int,
        with_binding(maps[k as int], i1, BindView::SubMap(maps.len() as usize)),
    );
    assert(maps.push(seq![(i2, b)])[k as int] == maps[k as int]);
    assert(spec_assign_step(maps, k, inputs, b) == (after, true, Seq::<Input>::empty()));
    assert(spec_assign(maps, k, inputs, b, 1) == Some(after));
    let f = choose|fuel: nat| #[trigger] spec_assign(maps, k, inputs, b, fuel) is Some;
    assert(f > 0);
    assert(spec_assign(maps, k, inputs, b, f) == Some(after));
}

/// Binding two keys, the first bound to key map `s`, binds the second in
/// `s`.
pub proof fn lemma_bind_pair_through(
    maps: Seq<Seq<(Input, BindView)>>,
    k: usize,
    i1: Input,
    i2: Input,
    b: BindView,
    s: usize,
)
    requires
        k < maps.len(),
        s < maps.len(),
        bound(maps[k as int], i1) == Some(BindView::SubMap(s)),
    ensures
        assign_ends(maps, k, seq![i1, i2], b),
        assigned(maps, k, seq![i1, i2], b) == maps.update(s as int, with_binding(maps[s as int], i2, b)),
{
    let inputs = seq![i1, i2];
    let rest = inputs.skip(1);
    assert(rest =~= seq![i2]);
    assert(rest.skip(1) =~= Seq::<Input>::empty());
    assert(spec_create_bind(maps, rest.skip(1), b) == (maps, b));
    let after = maps.update(s as int, with_binding(maps[s as int], i2, b));
    assert(spec_assign_step(maps, s, rest, b) == (after, true, Seq::<Input>::empty()));
    assert(spec_assign_step(maps, k, inputs, b) == (after, true, Seq::<Input>::empty()));
    assert(spec_assign(maps, k, inputs, b, 1) == Some(after));
    let f = choose|fuel: nat| #[trigger] spec_assign(maps, k, inputs, b, fuel) is Some;
    assert(f > 0);
    assert(spec_assign(maps, k, inputs, b, f) == Some(after));
}

/// In a key map whose entries have distinct keys, each key is bound to
/// what its entry says.
pub proof fn lemma_bound_distinct(s: Seq<(Input, BindView)>, k: int)
    requires
        0 <= k < s.len(),
        forall|a: int, c: int| 0 <= a < c < s.len() ==> (#[trigger] s[a]).0 != (#[trigger] s[c]).0,
    ensures
        bound(s, s[k].0) == Some(s[k].1),
    decreases s.len(),
{
    lemma_find(s, s[k].0);
    if find(s, s[k].0) != k {
        assert(find(s, s[k].0) >= 0);
        let f = find(s, s[k].0);
        assert(s[f].0 == s[k].0);
        if f < k {
        } else {
        }
    }
}

/// Without keys that stand for other keys, a lookup never finds one.
pub proof fn lemma_lookup_not_mapped(maps: Seq<Seq<(Input, BindView)>>, k: usize, inputs: Seq<Input>, save: bool)
    requires
        maps_wf(maps),
        no_mappings(maps),
        k < maps.len(),
    ensures
        !(spec_lookup(maps, k, inputs, save).0 matches Err(LookupError::InputWasMapped)),
    decreases inputs.len(),
{
    if inputs.len() > 0 {
        lemma_bound_entry(maps[k as int], inputs[0]);
        match bound(maps[k as int], inputs[0]) {
            Some(BindView::SubMap(s)) => {
                lemma_lookup_not_mapped(maps, s, inputs.skip(1), save);
            },
            _ => {},
        }
    }
}

impl KeyMap {
    /// Whether a key of this key map stands for other keys.
    pub fn holds_mapping(&self) -> (r: bool)
        ensures
            r == exists|e: int| 0 <= e < self@.len() && (#[trigger] self@[e]).1 is Mapping,
    {
        let mut i: usize = 0;
        while i < self.bindings.len()
            invariant
                i <= self.bindings@.len(),
                self@.len() == self.bindings@.len(),
                forall|e: int| 0 <= e < i ==> !((#[trigger] self@[e]).1 is Mapping),
            decreases self.bindings@.len() - i,
        {
            let found = match &self.bindings[i].1 {
                KeyBind::Mapping(_) => true,
                _ => false,
            };
            if found {
                assert(self@[i as int].1 is Mapping);
                return true;
            }
            i = i + 1;
        }
        false
    }
}

/// Whether no key of the key maps `maps` stands for other keys.
pub fn no_mapping_in(maps: &Vec<KeyMap>) -> (r: bool)
    ensures
        r == no_mappings(maps_view(maps@)),
{
    let mut i: usize = 0;
    while i < maps.len()
        invariant
            i <= maps@.len(),
            forall|m: int, e: int|
                0 <= m < i && 0 <= e < maps_view(maps@)[m].len() ==> !((#[trigger] maps_view(maps@)[m][e]).1 is Mapping),
        decreases maps@.len() - i,
    {
        if maps[i].holds_mapping() {
            assert(!no_mappings(maps_view(maps@))) by {
                let e = choose|e: int| 0 <= e < maps@[i as int]@.len() && (#[trigger] maps@[i as int]@[e]).1 is Mapping;
                assert(maps_view(maps@)[i as int][e].1 is Mapping);
            }
            return false;
        }
        i = i + 1;
    }
    true
}

} // verus!
