use vstd::prelude::*;
use std::collections::VecDeque;
use crate::buffer::{Buffer, BufferName};
use crate::chars::{is_control, spec_is_control};
use crate::command::{Command, insert_command};
use crate::input::{Input, Key};
use crate::key_map::{KeyMap, LookupError, maps_view, maps_wf, spec_lookup, BindView, no_mappings, no_mapping_in, lemma_lookup_not_mapped};
use crate::layout::Layout;
use crate::logger::Logger;
use crate::messages::Messages;
use crate::window::Window;

verus! {

/// What a mode does with a key that its key map does not bind.
#[derive(Clone, Copy, PartialEq, Eq, Structural, Debug)]
pub enum FallthroughBehavior {
    /// Go on looking in the next mode. This is the default.
    Continue,
    /// Insert the key that was pressed into the buffer.
    InsertKey,
    /// Stop looking.
    Stop,
}

/// A key map that applies only part of the time, where the mode is on.
#[derive(Clone, Copy, PartialEq, Eq, Structural, Debug)]
pub struct Mode {
    /// The index of its key map among the state's key maps.
    pub key_map: usize,
    /// What happens if `key_map` has an unbound key.
    pub fallthrough_behavior: FallthroughBehavior,
}

impl Mode {
    /// A mode with key map `key_map` that lets unbound keys fall through.
    pub fn new(key_map: usize) -> (m: Self)
        ensures
            m.key_map == key_map,
            m.fallthrough_behavior == FallthroughBehavior::Continue,
    {
        Mode { key_map, fallthrough_behavior: FallthroughBehavior::Continue }
    }
}

/// A screen: how it is split between windows, the window selected, and
/// the messages to show.
pub struct Frame {
    pub layout: Layout,
    pub selected_window: usize,
    pub messages: Messages,
}

impl Frame {
    /// A frame showing only window `selected_window`.
    pub fn new(selected_window: usize) -> (f: Self)
        ensures
            f.layout == Layout::Window(selected_window),
            f.selected_window == selected_window,
            f.messages.wf(),
            f.messages.queue().len() == 0,
    {
        Frame { layout: Layout::Window(selected_window), selected_window, messages: Messages::new() }
    }

    /// Puts window `window` in the place of the selected window, and
    /// selects it.
    pub fn replace_selected_window(&mut self, window: usize)
        ensures
            final(self).layout == old(self).layout.replaced(old(self).selected_window, Layout::Window(window)),
            final(self).selected_window == window,
            final(self).messages == old(self).messages,
    {
        self.layout.replace_selected_window(self.selected_window, Layout::Window(window));
        self.selected_window = window;
    }

    /// Adds a message to show.
    pub fn add_message(&mut self, message: String)
        requires
            old(self).messages.wf(),
        ensures
            final(self).messages.wf(),
            final(self).messages.queue() == old(self).messages.queue().push(message@),
            final(self).messages.showing() == old(self).messages.showing(),
            final(self).layout == old(self).layout,
            final(self).selected_window == old(self).selected_window,
    {
        self.messages.add(message);
    }
}

/// The frames, and the one selected.
pub struct Display {
    pub frames: Vec<Frame>,
    pub selected_frame: usize,
}

impl Display {
    /// One frame showing window `selected_window`.
    pub fn new(selected_window: usize) -> (d: Self)
        ensures
            d.frames@.len() == 1,
            d.selected_frame == 0,
            d.frames@[0].layout == Layout::Window(selected_window),
            d.frames@[0].selected_window == selected_window,
            d.frames@[0].messages.wf(),
            d.frames@[0].messages.queue().len() == 0,
    {
        let mut frames: Vec<Frame> = Vec::new();
        frames.push(Frame::new(selected_window));
        Display { frames, selected_frame: 0 }
    }

    /// The window selected in the selected frame.
    pub fn selected_window(&self) -> (w: usize)
        requires
            self.selected_frame < self.frames@.len(),
        ensures
            w == self.frames@[self.selected_frame as int].selected_window,
    {
        self.frames[self.selected_frame].selected_window
    }
}

/// Everything the editor holds: the buffers, the windows onto them, the
/// key maps and modes, and the frames that show the windows.
///
/// Buffers, windows, key maps and modes refer to one another by their
/// index in these lists.
pub struct State {
    pub buffers: Vec<Buffer>,
    pub windows: Vec<Window>,
    pub key_maps: Vec<KeyMap>,
    pub modes: Vec<Mode>,
    /// The key map used when no mode binds a key.
    pub default_key_map: usize,
    /// The modes that are on everywhere, looked at first.
    pub global_modes: Vec<usize>,
    pub display: Display,
    /// Set once the editor was asked to close.
    pub closed_successfully: bool,
    pub logger: Logger,
    /// The mode of buffers that list a git repository, once it is made.
    pub git_mode: Option<usize>,
}

impl State {
    /// Every index refers to something that exists, and each part is well
    /// formed.
    pub open spec fn wf(&self) -> bool {
        &&& forall|b: int| 0 <= b < self.buffers@.len() ==> #[trigger] self.buffers@[b].wf()
        &&& forall|w: int| 0 <= w < self.windows@.len() ==> #[trigger] self.windows@[w].wf()
            && self.windows@[w].buffer < self.buffers@.len()
        &&& maps_wf(maps_view(self.key_maps@))
        &&& self.default_key_map < self.key_maps@.len()
        &&& forall|m: int| 0 <= m < self.modes@.len() ==> #[trigger] self.modes@[m].key_map < self.key_maps@.len()
        &&& forall|g: int| 0 <= g < self.global_modes@.len() ==> #[trigger] self.global_modes@[g] < self.modes@.len()
        &&& self.display.frames@.len() > 0
        &&& self.display.selected_frame < self.display.frames@.len()
        &&& forall|f: int| 0 <= f < self.display.frames@.len() ==> #[trigger] self.frame_ok(self.display.frames@[f])
        &&& self.git_mode matches Some(g) ==> g < self.modes@.len()
    }

    /// A frame refers to existing windows, each once.
    pub open spec fn frame_ok(&self, f: Frame) -> bool {
        &&& f.selected_window < self.windows@.len()
        &&& forall|i: int| 0 <= i < f.layout.windows().len() ==> #[trigger] f.layout.windows()[i] < self.windows@.len()
        &&& f.layout.distinct()
        &&& f.messages.wf()
    }

    /// The selected frame.
    pub open spec fn frame(&self) -> Frame {
        self.display.frames@[self.display.selected_frame as int]
    }

    /// The index of the selected window.
    pub open spec fn selected(&self) -> usize {
        self.frame().selected_window
    }

    /// The index of the buffer of the selected window.
    pub open spec fn selected_buffer(&self) -> usize {
        self.windows@[self.selected() as int].buffer
    }

    /// An editor with an empty buffer, `*scratch*`, shown in one window,
    /// and an empty key map.
    pub fn new() -> (s: Self)
        ensures
            s.wf(),
            s.buffers@.len() == 1,
            s.buffers@[0]@ == Seq::<char>::empty(),
            s.buffers@[0].spec_name().name@ == "*scratch*"@,
            s.windows@.len() == 1,
            s.windows@[0].buffer == 0,
            s.windows@[0].cursor.location() == 0,
            s.key_maps@.len() == 1,
            s.key_maps@[0]@.len() == 0,
            s.default_key_map == 0,
            s.modes@.len() == 0,
            s.global_modes@.len() == 0,
            s.display.frames@.len() == 1,
            s.selected() == 0,
            s.frame().layout == Layout::Window(0),
            !s.closed_successfully,
            s.logger.logged().len() == 0,
            !s.logger.keeps_debug(),
            s.git_mode is None,
    {
        let mut buffers: Vec<Buffer> = Vec::new();
        buffers.push(Buffer::new(BufferName::from_name("*scratch*")));
        let mut windows: Vec<Window> = Vec::new();
        windows.push(Window::new(0));
        let mut key_maps: Vec<KeyMap> = Vec::new();
        key_maps.push(KeyMap::new());
        let s = State {
            buffers,
            windows,
            key_maps,
            modes: Vec::new(),
            default_key_map: 0,
            global_modes: Vec::new(),
            display: Display::new(0),
            closed_successfully: false,
            logger: Logger::new(false),
            git_mode: None,
        };
        proof {
            assert(maps_view(s.key_maps@) =~= seq![Seq::<(Input, BindView)>::empty()]);
            assert(s.frame_ok(s.display.frames@[0]));
        }
        s
    }

    /// The index of the selected window.
    pub fn selected_window(&self) -> (w: usize)
        requires
            self.wf(),
        ensures
            w == self.selected(),
            w < self.windows@.len(),
    {
        proof {
            assert(self.frame_ok(self.display.frames@[self.display.selected_frame as int]));
        }
        self.display.selected_window()
    }

    /// The index of the buffer of the selected window.
    pub fn selected_window_buffer(&self) -> (b: usize)
        requires
            self.wf(),
        ensures
            b == self.selected_buffer(),
            b < self.buffers@.len(),
    {
        let w = self.selected_window();
        assert(self.windows@[w as int].wf());
        self.windows[w].buffer
    }

    /// Adds a buffer; its index is returned.
    pub fn add_buffer(&mut self, buffer: Buffer) -> (b: usize)
        requires
            old(self).wf(),
            buffer.wf(),
        ensures
            final(self).wf(),
            b == old(self).buffers@.len(),
            final(self).buffers@ == old(self).buffers@.push(buffer),
            final(self).windows@ == old(self).windows@,
            final(self).display.frames@ == old(self).display.frames@,
            final(self).display.selected_frame == old(self).display.selected_frame,
            final(self).key_maps@ == old(self).key_maps@,
            final(self).modes@ == old(self).modes@,
            final(self).global_modes@ == old(self).global_modes@,
            final(self).default_key_map == old(self).default_key_map,
            final(self).closed_successfully == old(self).closed_successfully,
            final(self).logger == old(self).logger,
            final(self).git_mode == old(self).git_mode,
    {
        let b = self.buffers.len();
        self.buffers.push(buffer);
        proof {
            assert forall|f: int| 0 <= f < self.display.frames@.len() implies #[trigger] self.frame_ok(
                self.display.frames@[f],
            ) by {
                assert(old(self).frame_ok(self.display.frames@[f]));
            }
        }
        b
    }

    /// Adds a window; its index is returned.
    pub fn add_window(&mut self, window: Window) -> (w: usize)
        requires
            old(self).wf(),
            window.wf(),
            window.buffer < old(self).buffers@.len(),
        ensures
            final(self).wf(),
            w == old(self).windows@.len(),
            final(self).windows@ == old(self).windows@.push(window),
            final(self).buffers@ == old(self).buffers@,
            final(self).display.frames@ == old(self).display.frames@,
            final(self).display.selected_frame == old(self).display.selected_frame,
            final(self).key_maps@ == old(self).key_maps@,
            final(self).modes@ == old(self).modes@,
            final(self).global_modes@ == old(self).global_modes@,
            final(self).default_key_map == old(self).default_key_map,
            final(self).closed_successfully == old(self).closed_successfully,
            final(self).logger == old(self).logger,
            final(self).git_mode == old(self).git_mode,
    {
        let w = self.windows.len();
        self.windows.push(window);
        proof {
            assert forall|f: int| 0 <= f < self.display.frames@.len() implies #[trigger] self.frame_ok(
                self.display.frames@[f],
            ) by {
                assert(old(self).frame_ok(self.display.frames@[f]));
            }
        }
        w
    }

    /// Adds a mode with a new, empty key map; the index of the mode is
    /// returned.
    pub fn add_mode(&mut self, fallthrough_behavior: FallthroughBehavior) -> (m: usize)
        requires
            old(self).wf(),
        ensures
            final(self).wf(),
            m == old(self).modes@.len(),
            final(self).modes@ == old(self).modes@.push(
                Mode { key_map: old(self).key_maps@.len() as usize, fallthrough_behavior },
            ),
            final(self).key_maps@.len() == old(self).key_maps@.len() + 1,
            final(self).key_maps@.take(old(self).key_maps@.len() as int) == old(self).key_maps@,
            final(self).key_maps@.last()@.len() == 0,
            final(self).buffers@ == old(self).buffers@,
            final(self).windows@ == old(self).windows@,
            final(self).display.frames@ == old(self).display.frames@,
            final(self).display.selected_frame == old(self).display.selected_frame,
            final(self).global_modes@ == old(self).global_modes@,
            final(self).default_key_map == old(self).default_key_map,
            final(self).closed_successfully == old(self).closed_successfully,
            final(self).logger == old(self).logger,
            final(self).git_mode == old(self).git_mode,
    {
        let k = self.key_maps.len();
        let ghost mv = maps_view(self.key_maps@);
        let km = KeyMap::new();
        self.key_maps.push(km);
        assert(maps_view(self.key_maps@) =~= mv.push(Seq::<(Input, BindView)>::empty()));
        assert(self.key_maps@.take(old(self).key_maps@.len() as int) =~= old(self).key_maps@);
        let m = self.modes.len();
        self.modes.push(Mode { key_map: k, fallthrough_behavior });
        proof {
            let v = maps_view(self.key_maps@);
            assert forall|m: int, e: int| 0 <= m < v.len() && 0 <= e < v[m].len() implies ((#[trigger] v[m][e]).1 matches BindView::SubMap(s) ==> s < v.len()) by {
                if m < mv.len() {
                    assert(v[m] == mv[m]);
                }
            }
            assert forall|f: int| 0 <= f < self.display.frames@.len() implies #[trigger] self.frame_ok(
                self.display.frames@[f],
            ) by {
                assert(old(self).frame_ok(self.display.frames@[f]));
            }
        }
        m
    }
}

/// Whether `c` can be shown: the newline, the tab, and every character that
/// is not a control code.
pub open spec fn spec_is_displayable(c: char) -> bool {
    c == '\n' || c == '\t' || !spec_is_control(c)
}

/// Whether `c` can be shown.
pub fn is_displayable(c: char) -> (r: bool)
    ensures
        r == spec_is_displayable(c),
{
    c == '\n' || c == '\t' || !is_control(c)
}

/// What an unbound key does when it is to be inserted: a displayable key
/// pressed alone inserts itself; any other input is refused.
pub open spec fn spec_insert_key_behavior(input: Input) -> Result<Command, Result<(), ()>> {
    match input.key {
        Key::Key(c) => if !input.control && !input.alt && spec_is_displayable(c) {
            Ok(Command::Insert(c))
        } else {
            Err(Err(()))
        },
        Key::Function(_) => Err(Err(())),
    }
}

/// The command that inserts an unbound key, if it can be inserted.
pub fn insert_key_behavior(input: Input) -> (r: Result<Command, Result<(), ()>>)
    ensures
        r == spec_insert_key_behavior(input),
{
    match input.key {
        Key::Key(c) => {
            if !input.control && !input.alt && is_displayable(c) {
                Ok(insert_command(c))
            } else {
                Err(Err(()))
            }
        },
        Key::Function(_) => Err(Err(())),
    }
}

/// Looking up the keys `inputs` in the global modes from the `i`-th on,
/// then in the default key map, where keys that stand for other keys are
/// replaced at most `fuel` times (each time the lookup starts over): the
/// command found (`Ok`), `Err(Ok(()))` if more keys are needed, or
/// `Err(Err(()))` if the keys run nothing; and the keys left. `None` if
/// the replacements go on past `fuel`.
pub open spec fn spec_state_lookup(
    maps: Seq<Seq<(Input, BindView)>>,
    modes: Seq<Mode>,
    global: Seq<usize>,
    default: usize,
    i: int,
    inputs: Seq<Input>,
    fuel: nat,
) -> Option<(Result<Command, Result<(), ()>>, Seq<Input>)>
    decreases fuel, global.len() - i,
{
    if i < 0 || i >= global.len() {
        let (r, after) = spec_lookup(maps, default, inputs, false);
        match r {
            Ok(c) => Some((Ok(c), after)),
            Err(LookupError::NotEnoughInput) => Some((Err(Ok(())), after)),
            Err(LookupError::UnboundInput(Some(x))) => Some((spec_insert_key_behavior(x), after)),
            Err(LookupError::UnboundInput(None)) => Some((Err(Err(())), after)),
            Err(LookupError::InputWasMapped) => if fuel == 0 {
                None
            } else {
                spec_state_lookup(maps, modes, global, default, 0, after, (fuel - 1) as nat)
            },
        }
    } else {
        let mode = modes[global[i] as int];
        let (r, after) = spec_lookup(maps, mode.key_map, inputs, true);
        match r {
            Ok(c) => Some((Ok(c), after)),
            Err(LookupError::NotEnoughInput) => Some((Err(Ok(())), after)),
            Err(LookupError::UnboundInput(_)) => match mode.fallthrough_behavior {
                FallthroughBehavior::Continue => spec_state_lookup(maps, modes, global, default, i + 1, after, fuel),
                FallthroughBehavior::InsertKey => Some((spec_insert_key_behavior(after[0]), after.skip(1))),
                FallthroughBehavior::Stop => Some((Err(Err(())), after)),
            },
            Err(LookupError::InputWasMapped) => if fuel == 0 {
                None
            } else {
                spec_state_lookup(maps, modes, global, default, 0, after, (fuel - 1) as nat)
            },
        }
    }
}

/// The key that the lookup of `inputs` (see `spec_state_lookup`) found
/// bound to nothing and could not insert either, if it ended so.
pub open spec fn spec_state_rejected(
    maps: Seq<Seq<(Input, BindView)>>,
    modes: Seq<Mode>,
    global: Seq<usize>,
    default: usize,
    i: int,
    inputs: Seq<Input>,
    fuel: nat,
) -> Option<Input>
    decreases fuel, global.len() - i,
{
    if i < 0 || i >= global.len() {
        let (r, after) = spec_lookup(maps, default, inputs, false);
        match r {
            Err(LookupError::UnboundInput(Some(x))) => if spec_insert_key_behavior(x) is Err {
                Some(x)
            } else {
                None
            },
            Err(LookupError::InputWasMapped) => if fuel == 0 {
                None
            } else {
                spec_state_rejected(maps, modes, global, default, 0, after, (fuel - 1) as nat)
            },
            _ => None,
        }
    } else {
        let mode = modes[global[i] as int];
        let (r, after) = spec_lookup(maps, mode.key_map, inputs, true);
        match r {
            Err(LookupError::UnboundInput(_)) => match mode.fallthrough_behavior {
                FallthroughBehavior::Continue => spec_state_rejected(maps, modes, global, default, i + 1, after, fuel),
                FallthroughBehavior::InsertKey => if spec_insert_key_behavior(after[0]) is Err {
                    Some(after[0])
                } else {
                    None
                },
                FallthroughBehavior::Stop => None,
            },
            Err(LookupError::InputWasMapped) => if fuel == 0 {
                None
            } else {
                spec_state_rejected(maps, modes, global, default, 0, after, (fuel - 1) as nat)
            },
            _ => None,
        }
    }
}

/// A key that a lookup that keeps the keys finds bound to nothing is left
/// in place.
proof fn lemma_unbound_saved(maps: Seq<Seq<(Input, BindView)>>, k: usize, inputs: Seq<Input>)
    ensures
        spec_lookup(maps, k, inputs, true).0 matches Err(LookupError::UnboundInput(_)) ==> spec_lookup(
            maps,
            k,
            inputs,
            true,
        ).1 == inputs && inputs.len() > 0,
    decreases inputs.len(),
{
    if inputs.len() > 0 {
        match crate::key_map::bound(maps[k as int], inputs[0]) {
            Some(BindView::SubMap(s)) => {
                lemma_unbound_saved(maps, s, inputs.skip(1));
                assert(seq![inputs[0]] + inputs.skip(1) =~= inputs);
            },
            _ => {},
        }
    }
}

impl State {
    /// The lookup of the keys `inputs` ends: keys that stand for other keys
    /// do not lead back to themselves.
    pub open spec fn lookup_ends(&self, inputs: Seq<Input>) -> bool {
        exists|fuel: nat| #[trigger] spec_state_lookup(
            maps_view(self.key_maps@),
            self.modes@,
            self.global_modes@,
            self.default_key_map,
            0,
            inputs,
            fuel,
        ) is Some
    }

    /// What the lookup of `inputs` gives, once it ends.
    pub open spec fn looked_up(&self, inputs: Seq<Input>) -> (Result<Command, Result<(), ()>>, Seq<Input>) {
        spec_state_lookup(
            maps_view(self.key_maps@),
            self.modes@,
            self.global_modes@,
            self.default_key_map,
            0,
            inputs,
            choose|fuel: nat| #[trigger] spec_state_lookup(
                maps_view(self.key_maps@),
                self.modes@,
                self.global_modes@,
                self.default_key_map,
                0,
                inputs,
                fuel,
            ) is Some,
        )->0
    }

    /// The key that the lookup of `inputs` found bound to nothing and could
    /// not insert, once it ends, if it ended so.
    pub open spec fn rejected(&self, inputs: Seq<Input>) -> Option<Input> {
        spec_state_rejected(
            maps_view(self.key_maps@),
            self.modes@,
            self.global_modes@,
            self.default_key_map,
            0,
            inputs,
            choose|fuel: nat| #[trigger] spec_state_lookup(
                maps_view(self.key_maps@),
                self.modes@,
                self.global_modes@,
                self.default_key_map,
                0,
                inputs,
                fuel,
            ) is Some,
        )
    }

    /// Looks up the command that the keys `inputs` run: first in the global
    /// modes, in order, then in the default key map (see
    /// `spec_state_lookup`).
    pub fn lookup(&self, inputs: &mut VecDeque<Input>) -> (r: Result<Command, Result<(), ()>>)
        requires
            self.wf(),
            self.lookup_ends(old(inputs)@),
        ensures
            (r, final(inputs)@) == self.looked_up(old(inputs)@),
    {
        self.lookup_reporting(inputs).0
    }

    /// The lookup of the keys `inputs` (see `lookup`), with the key that
    /// it found bound to nothing and could not insert, if any.
    pub fn lookup_reporting(&self, inputs: &mut VecDeque<Input>) -> (r: (Result<Command, Result<(), ()>>, Option<Input>))
        requires
            self.wf(),
            self.lookup_ends(old(inputs)@),
        ensures
            (r.0, final(inputs)@) == self.looked_up(old(inputs)@),
            r.1 == self.rejected(old(inputs)@),
    {
        let ghost maps = maps_view(self.key_maps@);
        let ghost fuel0 = choose|fuel: nat| #[trigger] spec_state_lookup(
            maps,
            self.modes@,
            self.global_modes@,
            self.default_key_map,
            0,
            inputs@,
            fuel,
        ) is Some;
        let ghost target = self.looked_up(inputs@);
        let ghost target_rejected = self.rejected(inputs@);
        let ghost mut fuel: nat = fuel0;
        let mut i: usize = 0;
        loop
            invariant
                self.wf(),
                maps == maps_view(self.key_maps@),
                i <= self.global_modes@.len(),
                spec_state_lookup(maps, self.modes@, self.global_modes@, self.default_key_map, i as int, inputs@, fuel)
                    == Some(target),
                target == self.looked_up(old(inputs)@),
                spec_state_rejected(maps, self.modes@, self.global_modes@, self.default_key_map, i as int, inputs@, fuel)
                    == target_rejected,
                target_rejected == self.rejected(old(inputs)@),
            decreases fuel, self.global_modes@.len() - i,
        {
            let ghost before = inputs@;
            if i < self.global_modes.len() {
                let mode = self.modes[self.global_modes[i]];
                assert(mode == self.modes@[self.global_modes@[i as int] as int]);
                let r = KeyMap::lookup(&self.key_maps, mode.key_map, inputs, true);
                match r {
                    Ok(c) => {
                        return (Ok(c), None);
                    },
                    Err(LookupError::NotEnoughInput) => {
                        return (Err(Ok(())), None);
                    },
                    Err(LookupError::UnboundInput(_)) => {
                        proof {
                            lemma_unbound_saved(maps, mode.key_map, before);
                        }
                        match mode.fallthrough_behavior {
                            FallthroughBehavior::Continue => {
                                i = i + 1;
                            },
                            FallthroughBehavior::InsertKey => {
                                let ghost after = inputs@;
                                let input = match inputs.pop_front() {
                                    Some(x) => x,
                                    None => {
                                        return (Err(Err(())), None);
                                    },
                                };
                                assert(inputs@ =~= after.skip(1));
                                let r = insert_key_behavior(input);
                                let rejected = if r.is_err() {
                                    Some(input)
                                } else {
                                    None
                                };
                                return (r, rejected);
                            },
                            FallthroughBehavior::Stop => {
                                return (Err(Err(())), None);
                            },
                        }
                    },
                    Err(LookupError::InputWasMapped) => {
                        proof {
                            fuel = (fuel - 1) as nat;
                        }
                        i = 0;
                    },
                }
            } else {
                let r = KeyMap::lookup(&self.key_maps, self.default_key_map, inputs, false);
                match r {
                    Ok(c) => {
                        return (Ok(c), None);
                    },
                    Err(LookupError::NotEnoughInput) => {
                        return (Err(Ok(())), None);
                    },
                    Err(LookupError::UnboundInput(Some(x))) => {
                        let r = insert_key_behavior(x);
                        let rejected = if r.is_err() {
                            Some(x)
                        } else {
                            None
                        };
                        return (r, rejected);
                    },
                    Err(LookupError::UnboundInput(None)) => {
                        return (Err(Err(())), None);
                    },
                    Err(LookupError::InputWasMapped) => {
                        proof {
                            fuel = (fuel - 1) as nat;
                        }
                        i = 0;
                    },
                }
            }
        }
    }
}

/// Without keys that stand for other keys, the lookup from the `i`-th
/// global mode on ends without any replacement.
proof fn lemma_state_lookup_ends(
    maps: Seq<Seq<(Input, BindView)>>,
    modes: Seq<Mode>,
    global: Seq<usize>,
    default: usize,
    i: int,
    inputs: Seq<Input>,
)
    requires
        maps_wf(maps),
        no_mappings(maps),
        default < maps.len(),
        forall|m: int| 0 <= m < modes.len() ==> #[trigger] modes[m].key_map < maps.len(),
        forall|g: int| 0 <= g < global.len() ==> #[trigger] global[g] < modes.len(),
        0 <= i,
    ensures
        spec_state_lookup(maps, modes, global, default, i, inputs, 0) is Some,
    decreases global.len() - i,
{
    if i >= global.len() {
        lemma_lookup_not_mapped(maps, default, inputs, false);
    } else {
        let mode = modes[global[i] as int];
        assert(global[i] < modes.len());
        lemma_lookup_not_mapped(maps, mode.key_map, inputs, true);
        let after = spec_lookup(maps, mode.key_map, inputs, true).1;
        lemma_state_lookup_ends(maps, modes, global, default, i + 1, after);
    }
}

impl State {
    /// Where no key stands for other keys, every lookup ends.
    pub proof fn lemma_lookup_ends(&self, inputs: Seq<Input>)
        requires
            self.wf(),
            no_mappings(maps_view(self.key_maps@)),
        ensures
            self.lookup_ends(inputs),
    {
        lemma_state_lookup_ends(
            maps_view(self.key_maps@),
            self.modes@,
            self.global_modes@,
            self.default_key_map,
            0,
            inputs,
        );
    }

    /// Whether no key of the key maps stands for other keys, so that every
    /// lookup ends (see `lemma_lookup_ends`).
    pub fn lookups_end(&self) -> (r: bool)
        requires
            self.wf(),
        ensures
            r == no_mappings(maps_view(self.key_maps@)),
            r ==> forall|inputs: Seq<Input>| #[trigger] self.lookup_ends(inputs),
    {
        let r = no_mapping_in(&self.key_maps);
        proof {
            if r {
                assert forall|inputs: Seq<Input>| #[trigger] self.lookup_ends(inputs) by {
                    self.lemma_lookup_ends(inputs);
                }
            }
        }
        r
    }
}

/// A copy of the keys `q`.
fn copy_queue(q: &VecDeque<Input>) -> (c: VecDeque<Input>)
    ensures
        c@ == q@,
{
    let mut c: VecDeque<Input> = VecDeque::new();
    let mut i: usize = 0;
    while i < q.len()
        invariant
            i <= q@.len(),
            c@ == q@.take(i as int),
        decreases q@.len() - i,
    {
        c.push_back(q[i]);
        assert(c@ =~= q@.take(i + 1));
        i = i + 1;
    }
    assert(q@.take(i as int) =~= q@);
    c
}

impl State {
    /// Whether the lookup of the keys `inputs` ends within `fuel`
    /// replacements of keys that stand for other keys; where it does, the
    /// lookup ends (`lookup_ends`).
    pub fn lookup_ends_within(&self, inputs: &VecDeque<Input>, fuel: usize) -> (r: bool)
        requires
            self.wf(),
        ensures
            r == (spec_state_lookup(
                maps_view(self.key_maps@),
                self.modes@,
                self.global_modes@,
                self.default_key_map,
                0,
                inputs@,
                fuel as nat,
            ) is Some),
            r ==> self.lookup_ends(inputs@),
    {
        let ghost maps = maps_view(self.key_maps@);
        let ghost goal = spec_state_lookup(
            maps,
            self.modes@,
            self.global_modes@,
            self.default_key_map,
            0,
            inputs@,
            fuel as nat,
        ) is Some;
        let mut q = copy_queue(inputs);
        let mut f: usize = fuel;
        let mut i: usize = 0;
        loop
            invariant
                self.wf(),
                maps == maps_view(self.key_maps@),
                i <= self.global_modes@.len(),
                (spec_state_lookup(maps, self.modes@, self.global_modes@, self.default_key_map, i as int, q@, f as nat)
                    is Some) == goal,
                goal == (spec_state_lookup(
                    maps,
                    self.modes@,
                    self.global_modes@,
                    self.default_key_map,
                    0,
                    inputs@,
                    fuel as nat,
                ) is Some),
            decreases f, self.global_modes@.len() - i,
        {
            if i < self.global_modes.len() {
                let mode = self.modes[self.global_modes[i]];
                assert(mode == self.modes@[self.global_modes@[i as int] as int]);
                let r = KeyMap::lookup(&self.key_maps, mode.key_map, &mut q, true);
                match r {
                    Err(LookupError::UnboundInput(_)) => {
                        match mode.fallthrough_behavior {
                            FallthroughBehavior::Continue => {
                                i = i + 1;
                            },
                            _ => {
                                return true;
                            },
                        }
                    },
                    Err(LookupError::InputWasMapped) => {
                        if f == 0 {
                            return false;
                        }
                        f = f - 1;
                        i = 0;
                    },
                    _ => {
                        return true;
                    },
                }
            } else {
                let r = KeyMap::lookup(&self.key_maps, self.default_key_map, &mut q, false);
                match r {
                    Err(LookupError::InputWasMapped) => {
                        if f == 0 {
                            return false;
                        }
                        f = f - 1;
                        i = 0;
                    },
                    _ => {
                        return true;
                    },
                }
            }
        }
    }
}

} // verus!
