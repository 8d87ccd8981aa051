use vstd::prelude::*;
use std::collections::VecDeque;
use crate::draw::{Character, Attribute, DrawOp, fits, layout_fits, rect_ops, draw, update_window_cursors, cursors_updated};
use crate::state::State;
use crate::input::Input;

verus! {

/// The rows of the screen of a `DebugRenderer`.
pub const DEBUG_ROWS: usize = 15;

/// The columns of the screen of a `DebugRenderer`.
pub const DEBUG_COLUMNS: usize = 20;

/// What a screen shows: its cells, row by row, and where the cursors of the
/// selected window and of the others were marked.
pub struct ScreenView {
    pub grid: Seq<Seq<char>>,
    pub selected_cursors: Seq<(usize, usize)>,
    pub unselected_cursors: Seq<(usize, usize)>,
}

/// The character a cell shows for `ch`.
pub open spec fn shown_char(ch: Character) -> char {
    match ch {
        Character::Character(c) => c,
        Character::VLine => '|',
        Character::HLine => '-',
    }
}

/// A grid of `rows` rows of `cols` spaces.
pub open spec fn blank_grid(rows: nat, cols: nat) -> Seq<Seq<char>> {
    Seq::new(rows, |i: int| Seq::new(cols, |j: int| ' '))
}

/// The grid `g` with every cell a space.
pub open spec fn blanked(g: Seq<Seq<char>>) -> Seq<Seq<char>> {
    Seq::new(g.len(), |i: int| Seq::new(g[i].len(), |j: int| ' '))
}

/// The screen after one drawing step, or `None` where the step puts a
/// character outside the grid.
pub open spec fn step(s: ScreenView, op: DrawOp) -> Option<ScreenView> {
    match op {
        DrawOp::Erase => Some(ScreenView { grid: blanked(s.grid), selected_cursors: Seq::empty(), unselected_cursors: Seq::empty() }),
        DrawOp::Put { y, x, ch } => if y < s.grid.len() && x < s.grid[y as int].len() {
            Some(ScreenView { grid: s.grid.update(y as int, s.grid[y as int].update(x as int, shown_char(ch))), ..s })
        } else {
            None
        },
        DrawOp::Mark { y, x, at } => match at {
            Attribute::SelectedCursor => Some(ScreenView { selected_cursors: s.selected_cursors.push((y, x)), ..s }),
            Attribute::UnselectedCursor => Some(ScreenView { unselected_cursors: s.unselected_cursors.push((y, x)), ..s }),
            Attribute::Inverted => Some(s),
        },
    }
}

/// The screen after the steps `ops`, and whether they all could be done;
/// the steps stop at the first that cannot.
pub open spec fn run(s: ScreenView, ops: Seq<DrawOp>) -> (ScreenView, bool)
    decreases ops.len(),
{
    if ops.len() == 0 {
        (s, true)
    } else {
        let (s1, ok) = run(s, ops.drop_last());
        if !ok {
            (s1, false)
        } else {
            match step(s1, ops.last()) {
                Some(s2) => (s2, true),
                None => (s1, false),
            }
        }
    }
}

/// A screen of characters in memory, fed keys from a queue: for testing
/// and debugging. It has `DEBUG_ROWS` rows and `DEBUG_COLUMNS` columns.
pub struct DebugRenderer {
    /// The keys that `getch` hands out, first to last.
    pub inputs: VecDeque<Input>,
    pub buffer: Vec<Vec<char>>,
    pub selected_cursors: Vec<(usize, usize)>,
    pub unselected_cursors: Vec<(usize, usize)>,
}

/// A row of `n` spaces.
fn blank_row(n: usize) -> (row: Vec<char>)
    ensures
        row@ == Seq::new(n as nat, |j: int| ' '),
{
    let mut row: Vec<char> = Vec::new();
    let mut c: usize = 0;
    while c < n
        invariant
            c <= n,
            row@ == Seq::new(c as nat, |j: int| ' '),
        decreases n - c,
    {
        row.push(' ');
        assert(row@ =~= Seq::new((c + 1) as nat, |j: int| ' '));
        c = c + 1;
    }
    row
}

impl DebugRenderer {
    pub open spec fn view(&self) -> ScreenView {
        ScreenView {
            grid: self.buffer@.map_values(|r: Vec<char>| r@),
            selected_cursors: self.selected_cursors@,
            unselected_cursors: self.unselected_cursors@,
        }
    }

    /// A blank screen with no keys to hand out.
    pub fn new() -> (r: Self)
        ensures
            r.view().grid == blank_grid(DEBUG_ROWS as nat, DEBUG_COLUMNS as nat),
            r.view().selected_cursors.len() == 0,
            r.view().unselected_cursors.len() == 0,
            r.inputs@.len() == 0,
    {
        Self::from_inputs(Vec::new())
    }

    /// A blank screen that hands out the keys `inputs`, first to last.
    pub fn from_inputs(inputs: Vec<Input>) -> (r: Self)
        ensures
            r.view().grid == blank_grid(DEBUG_ROWS as nat, DEBUG_COLUMNS as nat),
            r.view().selected_cursors.len() == 0,
            r.view().unselected_cursors.len() == 0,
            r.inputs@ == inputs@,
    {
        let mut queue: VecDeque<Input> = VecDeque::new();
        let mut i: usize = 0;
        while i < inputs.len()
            invariant
                i <= inputs@.len(),
                queue@ == inputs@.take(i as int),
            decreases inputs.len() - i,
        {
            queue.push_back(inputs[i]);
            assert(inputs@.take(i + 1) =~= inputs@.take(i as int).push(inputs@[i as int]));
            i = i + 1;
        }
        assert(inputs@.take(i as int) =~= inputs@);
        let mut rows: Vec<Vec<char>> = Vec::new();
        let mut r: usize = 0;
        while r < DEBUG_ROWS
            invariant
                r <= DEBUG_ROWS,
                rows@.len() == r,
                rows@.map_values(|v: Vec<char>| v@) == blank_grid(r as nat, DEBUG_COLUMNS as nat),
            decreases DEBUG_ROWS - r,
        {
            let ghost old_map = rows@.map_values(|v: Vec<char>| v@);
            rows.push(blank_row(DEBUG_COLUMNS));
            proof {
                let new_map = rows@.map_values(|v: Vec<char>| v@);
                let blank = blank_grid((r + 1) as nat, DEBUG_COLUMNS as nat);
                assert forall|k: int| 0 <= k < r + 1 implies #[trigger] new_map[k] == blank[k] by {
                    if k < r {
                        assert(new_map[k] == old_map[k]);
                        assert(old_map[k] == blank_grid(r as nat, DEBUG_COLUMNS as nat)[k]);
                    }
                    assert(new_map[k] =~= blank[k]);
                }
                assert(new_map =~= blank);
            }
            r = r + 1;
        }
        DebugRenderer { inputs: queue, buffer: rows, selected_cursors: Vec::new(), unselected_cursors: Vec::new() }
    }

    /// The next key, if any is left.
    pub fn getch(&mut self) -> (r: Option<Input>)
        ensures
            old(self).inputs@.len() == 0 ==> r is None && final(self).inputs@ == old(self).inputs@,
            old(self).inputs@.len() > 0 ==> r == Some(old(self).inputs@[0]) && final(self).inputs@
                == old(self).inputs@.drop_first(),
            final(self).view() == old(self).view(),
    {
        self.inputs.pop_front()
    }
}

/// The screen `after` is what the step `op` makes of `before`, and `ok`
/// tells whether it could be done; a step that cannot be done changes
/// nothing.
pub open spec fn stepped(before: ScreenView, after: ScreenView, op: DrawOp, ok: bool) -> bool {
    match step(before, op) {
        Some(v) => ok && after == v,
        None => !ok && after == before,
    }
}

/// A screen that drawing steps can be performed on. A renderer that
/// models what it shows says so with `models_screen`, and its steps then
/// do to `screen` what `step` says; one that does not claims nothing.
pub trait DrawableRenderer {
    /// Whether `screen` tells what the screen shows.
    open spec fn models_screen(&self) -> bool {
        false
    }

    /// What the screen shows, where `models_screen` holds.
    open spec fn screen(&self) -> ScreenView {
        arbitrary()
    }

    /// Clears the screen.
    fn erase(&mut self) -> (r: Result<(), ()>)
        ensures
            final(self).models_screen() == old(self).models_screen(),
            old(self).models_screen() ==> stepped(old(self).screen(), final(self).screen(), DrawOp::Erase, r is Ok),
    ;

    /// Puts `ch` at row `y`, column `x`.
    fn putch(&mut self, y: usize, x: usize, ch: Character) -> (r: Result<(), ()>)
        ensures
            final(self).models_screen() == old(self).models_screen(),
            old(self).models_screen() ==> stepped(old(self).screen(), final(self).screen(), DrawOp::Put { y, x, ch }, r is Ok),
    ;

    /// Marks the cell at row `y`, column `x`.
    fn set_attribute(&mut self, y: usize, x: usize, at: Attribute) -> (r: Result<(), ()>)
        ensures
            final(self).models_screen() == old(self).models_screen(),
            old(self).models_screen() ==> stepped(old(self).screen(), final(self).screen(), DrawOp::Mark { y, x, at }, r is Ok),
    ;
}

/// Performs the drawing steps `ops` on `d`, stopping at the first that
/// fails: the screen becomes what `run` makes of it, and the result tells
/// whether every step was done.
pub fn render<D: DrawableRenderer>(d: &mut D, ops: &Vec<DrawOp>) -> (r: Result<(), ()>)
    ensures
        final(d).models_screen() == old(d).models_screen(),
        old(d).models_screen() ==> final(d).screen() == run(old(d).screen(), ops@).0,
        old(d).models_screen() ==> (r is Ok == run(old(d).screen(), ops@).1),
{
    let mut i: usize = 0;
    proof {
        assert(ops@.take(0) =~= Seq::<DrawOp>::empty());
    }
    while i < ops.len()
        invariant
            i <= ops@.len(),
            d.models_screen() == old(d).models_screen(),
            old(d).models_screen() ==> d.screen() == run(old(d).screen(), ops@.take(i as int)).0,
            old(d).models_screen() ==> run(old(d).screen(), ops@.take(i as int)).1,
        decreases ops.len() - i,
    {
        let op = ops[i];
        let r = match op {
            DrawOp::Erase => d.erase(),
            DrawOp::Put { y, x, ch } => d.putch(y, x, ch),
            DrawOp::Mark { y, x, at } => d.set_attribute(y, x, at),
        };
        proof {
            assert(ops@.take(i + 1).drop_last() =~= ops@.take(i as int));
            assert(ops@.take(i + 1).last() == op);
        }
        if r.is_err() {
            proof {
                if old(d).models_screen() {
                    lemma_run_stops(old(d).screen(), ops@, i as int);
                }
            }
            return r;
        }
        i = i + 1;
    }
    proof {
        assert(ops@.take(i as int) =~= ops@);
    }
    Ok(())
}

impl DrawableRenderer for DebugRenderer {
    open spec fn models_screen(&self) -> bool {
        true
    }

    open spec fn screen(&self) -> ScreenView {
        self.view()
    }

    fn erase(&mut self) -> (r: Result<(), ()>)
        ensures
            r is Ok,
            final(self).view() == step(old(self).view(), DrawOp::Erase)->0,
            final(self).inputs == old(self).inputs,
    {
        self.selected_cursors.clear();
        self.unselected_cursors.clear();
        let ghost g0 = old(self).view().grid;
        let mut r: usize = 0;
        while r < self.buffer.len()
            invariant
                r <= self.buffer@.len(),
                self.buffer@.len() == g0.len(),
                self.selected_cursors@.len() == 0,
                self.unselected_cursors@.len() == 0,
                self.inputs == old(self).inputs,
                forall|k: int| 0 <= k < r ==> #[trigger] self.buffer@[k]@ == Seq::new(g0[k].len(), |j: int| ' '),
                forall|k: int| r <= k < g0.len() ==> #[trigger] self.buffer@[k]@ == g0[k],
            decreases self.buffer@.len() - r,
        {
            let n = self.buffer[r].len();
            let mut c: usize = 0;
            while c < n
                invariant
                    c <= n,
                    r < self.buffer@.len(),
                    self.selected_cursors@.len() == 0,
                    self.unselected_cursors@.len() == 0,
                    self.inputs == old(self).inputs,
                    self.buffer@.len() == g0.len(),
                    n == g0[r as int].len(),
                    self.buffer@[r as int]@.len() == n,
                    forall|j: int| 0 <= j < c ==> #[trigger] self.buffer@[r as int]@[j] == ' ',
                    forall|j: int| c <= j < n ==> #[trigger] self.buffer@[r as int]@[j] == g0[r as int][j],
                    forall|k: int| 0 <= k < r ==> #[trigger] self.buffer@[k]@ == Seq::new(g0[k].len(), |j: int| ' '),
                    forall|k: int| r < k < g0.len() ==> #[trigger] self.buffer@[k]@ == g0[k],
                decreases n - c,
            {
                self.buffer[r].set(c, ' ');
                c = c + 1;
            }
            assert(self.buffer@[r as int]@ =~= Seq::new(g0[r as int].len(), |j: int| ' '));
            r = r + 1;
        }
        proof {
            let g = self.buffer@.map_values(|v: Vec<char>| v@);
            assert forall|k: int| 0 <= k < g.len() implies #[trigger] g[k] == blanked(g0)[k] by {
                assert(g[k] =~= blanked(g0)[k]);
            }
            assert(g =~= blanked(g0));
            assert(self.selected_cursors@ =~= Seq::<(usize, usize)>::empty());
            assert(self.unselected_cursors@ =~= Seq::<(usize, usize)>::empty());
        }
        Ok(())
    }

    fn putch(&mut self, y: usize, x: usize, ch: Character) -> (r: Result<(), ()>)
        ensures
            match step(old(self).view(), DrawOp::Put { y, x, ch }) {
                Some(v) => r is Ok && final(self).view() == v,
                None => r is Err && final(self).view() == old(self).view(),
            },
            final(self).inputs == old(self).inputs,
    {
        let c = match ch {
            Character::Character(c) => c,
            Character::VLine => '|',
            Character::HLine => '-',
        };
        if y >= self.buffer.len() {
            return Err(());
        }
        if x >= self.buffer[y].len() {
            return Err(());
        }
        let ghost g0 = self.view().grid;
        self.buffer[y].set(x, c);
        proof {
            let g = self.buffer@.map_values(|v: Vec<char>| v@);
            assert(g =~= g0.update(y as int, g0[y as int].update(x as int, c)));
        }
        Ok(())
    }

    fn set_attribute(&mut self, y: usize, x: usize, at: Attribute) -> (r: Result<(), ()>)
        ensures
            r is Ok,
            final(self).view() == step(old(self).view(), DrawOp::Mark { y, x, at })->0,
            final(self).inputs == old(self).inputs,
    {
        match at {
            Attribute::SelectedCursor => self.selected_cursors.push((y, x)),
            Attribute::UnselectedCursor => self.unselected_cursors.push((y, x)),
            Attribute::Inverted => {},
        }
        Ok(())
    }
}

impl DebugRenderer {
    /// Performs the drawing steps `ops`, stopping at the first that fails.
    pub fn show(&mut self, ops: &Vec<DrawOp>) -> (r: Result<(), ()>)
        ensures
            final(self).view() == run(old(self).view(), ops@).0,
            r is Ok == run(old(self).view(), ops@).1,
            final(self).inputs == old(self).inputs,
    {
        let mut i: usize = 0;
        proof {
            assert(ops@.take(0) =~= Seq::<DrawOp>::empty());
        }
        while i < ops.len()
            invariant
                i <= ops@.len(),
                self.view() == run(old(self).view(), ops@.take(i as int)).0,
                run(old(self).view(), ops@.take(i as int)).1,
                self.inputs == old(self).inputs,
            decreases ops.len() - i,
        {
            let op = ops[i];
            let r = match op {
                DrawOp::Erase => self.erase(),
                DrawOp::Put { y, x, ch } => self.putch(y, x, ch),
                DrawOp::Mark { y, x, at } => self.set_attribute(y, x, at),
            };
            proof {
                assert(ops@.take(i + 1).drop_last() =~= ops@.take(i as int));
                assert(ops@.take(i + 1).last() == op);
            }
            if r.is_err() {
                proof {
                    lemma_run_stops(old(self).view(), ops@, i as int);
                }
                return r;
            }
            i = i + 1;
        }
        proof {
            assert(ops@.take(i as int) =~= ops@);
        }
        Ok(())
    }
}

impl DebugRenderer {
    /// Brings the cursors of the selected frame's windows up to date, then
    /// draws the frame on the screen; a layout too big for the screen is
    /// not drawn.
    pub fn show_state(&mut self, state: &mut State) -> (r: Result<(), ()>)
        requires
            old(state).wf(),
        ensures
            final(state).wf(),
            cursors_updated(old(state), final(state), old(state).frame().layout.windows()),
            final(self).inputs == old(self).inputs,
            fits(old(state).frame().layout, DEBUG_ROWS as nat, DEBUG_COLUMNS as nat) ==> {
                let ops = seq![DrawOp::Erase] + rect_ops(
                    final(state),
                    final(state).frame().layout,
                    final(state).selected(),
                    0,
                    0,
                    DEBUG_ROWS as nat,
                    DEBUG_COLUMNS as nat,
                );
                &&& final(self).view() == run(old(self).view(), ops).0
                &&& r is Ok == run(old(self).view(), ops).1
            },
            !fits(old(state).frame().layout, DEBUG_ROWS as nat, DEBUG_COLUMNS as nat) ==> r is Err
                && final(self).view() == old(self).view(),
    {
        update_window_cursors(state);
        let f = state.display.selected_frame;
        if !layout_fits(&state.display.frames[f].layout, DEBUG_ROWS, DEBUG_COLUMNS) {
            return Err(());
        }
        let ops = draw(state, DEBUG_ROWS, DEBUG_COLUMNS);
        self.show(&ops)
    }
}

/// Once a step fails, the steps after it are not done.
proof fn lemma_run_stops(s: ScreenView, ops: Seq<DrawOp>, i: int)
    requires
        0 <= i < ops.len(),
        !run(s, ops.take(i + 1)).1,
    ensures
        run(s, ops) == run(s, ops.take(i + 1)),
    decreases ops.len() - i,
{
    if i + 1 < ops.len() {
        assert(ops.take(i + 2).drop_last() =~= ops.take(i + 1));
        lemma_run_stops(s, ops, i + 1);
    } else {
        assert(ops.take(i + 1) =~= ops);
    }
}

} // verus!
