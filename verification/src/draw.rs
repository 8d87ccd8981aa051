use vstd::prelude::*;
use crate::layout::Layout;
use crate::state::State;
use crate::window::Window;
use crate::buffer::Buffer;
use crate::text::chars_of;
use crate::commands::rest_same;

verus! {

/// What is put in one cell of the screen.
#[derive(Clone, Copy, PartialEq, Eq, Structural, Debug)]
pub enum Character {
    Character(char),
    /// The line between a left and a right window.
    VLine,
    /// The line between a top and a bottom window.
    HLine,
}

/// How one cell of the screen is marked.
#[derive(Clone, Copy, PartialEq, Eq, Structural, Debug)]
pub enum Attribute {
    /// The cursor of the selected window.
    SelectedCursor,
    /// The cursor of another window.
    UnselectedCursor,
    /// Shown with colours swapped (the line with a window's name).
    Inverted,
}

/// One step of drawing a frame.
#[derive(Clone, Copy, PartialEq, Eq, Structural, Debug)]
pub enum DrawOp {
    /// Clear the screen.
    Erase,
    /// Put a character at row `y`, column `x`.
    Put { y: usize, x: usize, ch: Character },
    /// Mark the cell at row `y`, column `x`.
    Mark { y: usize, x: usize, at: Attribute },
}

/// A layout can be drawn in `rows` rows and `cols` columns: each window
/// gets a row for its name, and each split a row or column for its line.
pub open spec fn fits(l: Layout, rows: nat, cols: nat) -> bool
    decreases l,
{
    match l {
        Layout::Window(_) => rows >= 1,
        Layout::VSplit { left, right } => cols >= 1 && fits(*left, rows, cols / 2) && fits(
            *right,
            rows,
            ((cols - 1) as nat) / 2,
        ),
        Layout::HSplit { top, bottom } => rows >= 1 && fits(*top, rows / 2, cols) && fits(
            *bottom,
            ((rows - 1) as nat) / 2,
            cols,
        ),
    }
}

/// Whether the layout can be drawn in `rows` rows and `cols` columns.
pub fn layout_fits(l: &Layout, rows: usize, cols: usize) -> (r: bool)
    ensures
        r == fits(*l, rows as nat, cols as nat),
    decreases l,
{
    match l {
        Layout::Window(_) => rows >= 1,
        Layout::VSplit { left, right } => cols >= 1 && layout_fits(left, rows, cols / 2) && layout_fits(
            right,
            rows,
            (cols - 1) / 2,
        ),
        Layout::HSplit { top, bottom } => rows >= 1 && layout_fits(top, rows / 2, cols) && layout_fits(
            bottom,
            (rows - 1) / 2,
            cols,
        ),
    }
}

/// The steps that draw text `t`, with the cursor at `cursor` marked `at`,
/// in the rows above the last of a window of `rows` rows and `cols`
/// columns at (`y`, `x`), going on from character `loc` at row `row`,
/// column `col`. A new line goes to the next row; a row that is full
/// goes on in the next; what does not fit is left out.
pub open spec fn text_ops(
    t: Seq<char>,
    cursor: nat,
    at: Attribute,
    y: nat,
    x: nat,
    rows: nat,
    cols: nat,
    loc: nat,
    row: nat,
    col: nat,
) -> Seq<DrawOp>
    decreases t.len() - loc,
{
    if row + 1 >= rows {
        Seq::empty()
    } else {
        let mark = if cursor == loc {
            seq![DrawOp::Mark { y: (y + row) as usize, x: (x + col) as usize, at }]
        } else {
            Seq::empty()
        };
        if loc >= t.len() {
            mark
        } else if t[loc as int] == '\n' {
            mark + text_ops(t, cursor, at, y, x, rows, cols, loc + 1, row + 1, 0)
        } else {
            let put = seq![DrawOp::Put { y: (y + row) as usize, x: (x + col) as usize, ch: Character::Character(t[loc as int]) }];
            if col + 1 >= cols {
                mark + put + text_ops(t, cursor, at, y, x, rows, cols, loc + 1, row + 1, 0)
            } else {
                mark + put + text_ops(t, cursor, at, y, x, rows, cols, loc + 1, row, col + 1)
            }
        }
    }
}

/// Puts of the first `n` characters of `name` along row `y` from column
/// `x`.
pub open spec fn name_puts(name: Seq<char>, y: nat, x: nat, n: nat) -> Seq<DrawOp>
    decreases n,
{
    if n == 0 {
        Seq::empty()
    } else {
        name_puts(name, y, x, (n - 1) as nat).push(
            DrawOp::Put { y: y as usize, x: (x + n - 1) as usize, ch: Character::Character(name[n - 1]) },
        )
    }
}

/// Marks `at` on `n` cells along row `y` from column `x`.
pub open spec fn row_marks(y: nat, x: nat, n: nat, at: Attribute) -> Seq<DrawOp>
    decreases n,
{
    if n == 0 {
        Seq::empty()
    } else {
        row_marks(y, x, (n - 1) as nat, at).push(DrawOp::Mark { y: y as usize, x: (x + n - 1) as usize, at })
    }
}

/// Puts `ch` on `n` cells along row `y` from column `x`.
pub open spec fn row_puts(y: nat, x: nat, n: nat, ch: Character) -> Seq<DrawOp>
    decreases n,
{
    if n == 0 {
        Seq::empty()
    } else {
        row_puts(y, x, (n - 1) as nat, ch).push(DrawOp::Put { y: y as usize, x: (x + n - 1) as usize, ch })
    }
}

/// Puts `ch` on `n` cells down column `x` from row `y`.
pub open spec fn column_puts(y: nat, x: nat, n: nat, ch: Character) -> Seq<DrawOp>
    decreases n,
{
    if n == 0 {
        Seq::empty()
    } else {
        column_puts(y, x, (n - 1) as nat, ch).push(DrawOp::Put { y: (y + n - 1) as usize, x: x as usize, ch })
    }
}

/// The steps that draw the last row of a window: its name, cut to the
/// width, then the whole row inverted.
pub open spec fn name_ops(name: Seq<char>, y: nat, x: nat, cols: nat) -> Seq<DrawOp> {
    let n = if name.len() < cols { name.len() } else { cols };
    name_puts(name, y, x, n) + row_marks(y, x, cols, Attribute::Inverted)
}

/// The steps that draw window `w` of `st` in `rows` rows and `cols`
/// columns at (`y`, `x`); its cursor is marked as selected if `w` is
/// `selected`.
pub open spec fn window_ops(st: &State, w: usize, selected: usize, y: nat, x: nat, rows: nat, cols: nat) -> Seq<DrawOp> {
    let win = st.windows@[w as int];
    let buf = st.buffers@[win.buffer as int];
    let at = if w == selected { Attribute::SelectedCursor } else { Attribute::UnselectedCursor };
    text_ops(buf@, win.cursor.location() as nat, at, y, x, rows, cols, 0, 0, 0) + name_ops(
        buf.spec_name().name@,
        (y + rows - 1) as nat,
        x,
        cols,
    )
}

/// The steps that draw layout `l` of `st` in `rows` rows and `cols`
/// columns at (`y`, `x`): a left part gets half the columns and a right
/// part what is left after the line between them; a top part gets half
/// the rows, a bottom part what is left after the line.
pub open spec fn rect_ops(st: &State, l: Layout, selected: usize, y: nat, x: nat, rows: nat, cols: nat) -> Seq<DrawOp>
    decreases l,
{
    match l {
        Layout::Window(w) => window_ops(st, w, selected, y, x, rows, cols),
        Layout::VSplit { left, right } => rect_ops(st, *left, selected, y, x, rows, cols / 2) + column_puts(
            y,
            x + cols / 2,
            rows,
            Character::VLine,
        ) + rect_ops(st, *right, selected, y, x + cols / 2 + 1, rows, ((cols - 1) as nat) / 2),
        Layout::HSplit { top, bottom } => rect_ops(st, *top, selected, y, x, rows / 2, cols) + row_puts(
            y + rows / 2,
            x,
            cols,
            Character::HLine,
        ) + rect_ops(st, *bottom, selected, y + rows / 2 + 1, x, ((rows - 1) as nat) / 2, cols),
    }
}

/// The character at `i`.
fn char_at(t: &Vec<char>, i: usize) -> (c: char)
    requires
        i < t@.len(),
    ensures
        c == t@[i as int],
{
    t[i]
}

/// Draws one character of a window's text (and the cursor if it stands
/// there), moving on to the next place; `true` if the text has ended.
fn text_step(
    ops: &mut Vec<DrawOp>,
    t: &Vec<char>,
    cursor: usize,
    at: Attribute,
    y: usize,
    x: usize,
    rows: usize,
    cols: usize,
    loc: &mut usize,
    row: &mut usize,
    col: &mut usize,
) -> (done: bool)
    requires
        *old(row) + 1 < rows,
        *old(loc) <= t@.len(),
        *old(col) == 0 || *old(col) < cols,
        y + rows <= usize::MAX,
        x + cols <= usize::MAX,
    ensures
        done ==> *final(loc) == *old(loc) && *final(row) == *old(row) && *final(col) == *old(col),
        done ==> final(ops)@ == old(ops)@ + text_ops(t@, cursor as nat, at, y as nat, x as nat, rows as nat, cols as nat, *old(loc) as nat, *old(row) as nat, *old(col) as nat),
        !done ==> {
            &&& final(ops)@ + text_ops(t@, cursor as nat, at, y as nat, x as nat, rows as nat, cols as nat, *final(loc) as nat, *final(row) as nat, *final(col) as nat)
                == old(ops)@ + text_ops(t@, cursor as nat, at, y as nat, x as nat, rows as nat, cols as nat, *old(loc) as nat, *old(row) as nat, *old(col) as nat)
            &&& *final(loc) == *old(loc) + 1
            &&& *final(loc) <= t@.len()
            &&& *final(row) < rows
            &&& *final(col) == 0 || *final(col) < cols
        },
{
    let ghost tv = t@;
    let ghost l0 = *loc;
    let ghost r0 = *row;
    let ghost c0 = *col;
    let ghost mark: Seq<DrawOp> = if cursor == *loc {
        seq![DrawOp::Mark { y: (y + *row) as usize, x: (x + *col) as usize, at }]
    } else {
        Seq::empty()
    };
    if cursor == *loc {
        ops.push(DrawOp::Mark { y: y + *row, x: x + *col, at });
    }
    assert(ops@ =~= old(ops)@ + mark);
    if *loc >= t.len() {
        assert(text_ops(tv, cursor as nat, at, y as nat, x as nat, rows as nat, cols as nat, l0 as nat, r0 as nat, c0 as nat) =~= mark);
        return true;
    }
    let c = char_at(t, *loc);
    if c == '\n' {
        *col = 0;
        *row = *row + 1;
        *loc = *loc + 1;
        proof {
            let old_ops = text_ops(tv, cursor as nat, at, y as nat, x as nat, rows as nat, cols as nat, l0 as nat, r0 as nat, c0 as nat);
            let new_ops = text_ops(tv, cursor as nat, at, y as nat, x as nat, rows as nat, cols as nat, *loc as nat, *row as nat, *col as nat);
            assert(old_ops =~= mark + new_ops);
            assert(ops@ + new_ops =~= old(ops)@ + old_ops);
        }
        return false;
    }
    let put = DrawOp::Put { y: y + *row, x: x + *col, ch: Character::Character(c) };
    ops.push(put);
    assert(ops@ =~= old(ops)@ + mark + seq![put]);
    *col = *col + 1;
    if *col >= cols {
        *row = *row + 1;
        *col = 0;
    }
    *loc = *loc + 1;
    proof {
        let old_ops = text_ops(tv, cursor as nat, at, y as nat, x as nat, rows as nat, cols as nat, l0 as nat, r0 as nat, c0 as nat);
        let new_ops = text_ops(tv, cursor as nat, at, y as nat, x as nat, rows as nat, cols as nat, *loc as nat, *row as nat, *col as nat);
        assert(old_ops =~= mark + seq![put] + new_ops);
        assert(ops@ + new_ops =~= old(ops)@ + old_ops);
    }
    false
}

/// Adds the steps that draw window `w` of `st` to `ops`.
fn draw_window(
    st: &State,
    w: usize,
    selected: usize,
    y: usize,
    x: usize,
    rows: usize,
    cols: usize,
    ops: &mut Vec<DrawOp>,
)
    requires
        st.wf(),
        w < st.windows@.len(),
        rows >= 1,
        y + rows <= usize::MAX,
        x + cols <= usize::MAX,
    ensures
        final(ops)@ == old(ops)@ + window_ops(st, w, selected, y as nat, x as nat, rows as nat, cols as nat),
{
    let win = &st.windows[w];
    assert(st.windows@[w as int].wf());
    assert(win.buffer < st.buffers@.len());
    let buf = &st.buffers[win.buffer];
    assert(st.buffers@[win.buffer as int].wf());
    let t = chars_of(buf.to_string().as_str());
    let cursor = win.cursor.get();
    let at = if w == selected { Attribute::SelectedCursor } else { Attribute::UnselectedCursor };
    let ghost start = ops@;
    let ghost full = text_ops(t@, cursor as nat, at, y as nat, x as nat, rows as nat, cols as nat, 0, 0, 0);
    let mut loc: usize = 0;
    let mut row: usize = 0;
    let mut col: usize = 0;
    while row + 1 < rows
        invariant_except_break
            ops@ + text_ops(t@, cursor as nat, at, y as nat, x as nat, rows as nat, cols as nat, loc as nat, row as nat, col as nat) == start + full,
        invariant
            row < rows,
            col == 0 || col < cols,
            loc <= t@.len(),
            y + rows <= usize::MAX,
            x + cols <= usize::MAX,
        ensures
            ops@ == start + full,
        decreases t@.len() - loc,
    {
        let ghost before = ops@;
        let ghost l0 = loc;
        let ghost r0 = row;
        let ghost c0 = col;
        let done = text_step(ops, &t, cursor, at, y, x, rows, cols, &mut loc, &mut row, &mut col);
        if done {
            break;
        }
        proof {
            let old_ops = text_ops(t@, cursor as nat, at, y as nat, x as nat, rows as nat, cols as nat, l0 as nat, r0 as nat, c0 as nat);
            let new_ops = text_ops(t@, cursor as nat, at, y as nat, x as nat, rows as nat, cols as nat, loc as nat, row as nat, col as nat);
            assert(ops@ + new_ops =~= before + old_ops);
        }
    }
    let name = chars_of(buf.name().display_name().as_str());
    let ghost after_text = ops@;
    let last = y + rows - 1;
    let mut i: usize = 0;
    while i < name.len() && i < cols
        invariant
            i <= name@.len(),
            i <= cols,
            x + cols <= usize::MAX,
            ops@ == after_text + name_puts(name@, last as nat, x as nat, i as nat),
        decreases cols - i,
    {
        ops.push(DrawOp::Put { y: last, x: x + i, ch: Character::Character(char_at(&name, i)) });
        i = i + 1;
    }
    let ghost after_name = ops@;
    let mut c: usize = 0;
    while c < cols
        invariant
            c <= cols,
            x + cols <= usize::MAX,
            ops@ == after_name + row_marks(last as nat, x as nat, c as nat, Attribute::Inverted),
        decreases cols - c,
    {
        ops.push(DrawOp::Mark { y: last, x: x + c, at: Attribute::Inverted });
        c = c + 1;
    }
    proof {
        assert(ops@ =~= old(ops)@ + window_ops(st, w, selected, y as nat, x as nat, rows as nat, cols as nat));
    }
}

/// Adds the steps that draw layout `l` of `st` to `ops`.
fn draw_rect(
    st: &State,
    l: &Layout,
    selected: usize,
    y: usize,
    x: usize,
    rows: usize,
    cols: usize,
    ops: &mut Vec<DrawOp>,
)
    requires
        st.wf(),
        fits(*l, rows as nat, cols as nat),
        forall|i: int| 0 <= i < l.windows().len() ==> #[trigger] l.windows()[i] < st.windows@.len(),
        y + rows <= usize::MAX,
        x + cols <= usize::MAX,
    ensures
        final(ops)@ == old(ops)@ + rect_ops(st, *l, selected, y as nat, x as nat, rows as nat, cols as nat),
    decreases l,
{
    match l {
        Layout::Window(w) => {
            assert(l.windows()[0] == *w);
            draw_window(st, *w, selected, y, x, rows, cols, ops);
        },
        Layout::VSplit { left, right } => {
            proof {
                let lw = left.windows();
                let rw = right.windows();
                assert forall|i: int| 0 <= i < lw.len() implies #[trigger] lw[i] < st.windows@.len() by {
                    assert(l.windows()[i] == lw[i]);
                }
                assert forall|i: int| 0 <= i < rw.len() implies #[trigger] rw[i] < st.windows@.len() by {
                    assert(l.windows()[lw.len() + i] == rw[i]);
                }
            }
            draw_rect(st, left, selected, y, x, rows, cols / 2, ops);
            let line = x + cols / 2;
            let ghost before = ops@;
            let mut r: usize = 0;
            while r < rows
                invariant
                    r <= rows,
                    y + rows <= usize::MAX,
                    ops@ == before + column_puts(y as nat, line as nat, r as nat, Character::VLine),
                decreases rows - r,
            {
                ops.push(DrawOp::Put { y: y + r, x: line, ch: Character::VLine });
                r = r + 1;
            }
            draw_rect(st, right, selected, y, x + cols / 2 + 1, rows, (cols - 1) / 2, ops);
            proof {
                assert(ops@ =~= old(ops)@ + rect_ops(st, *l, selected, y as nat, x as nat, rows as nat, cols as nat));
            }
        },
        Layout::HSplit { top, bottom } => {
            proof {
                let tw = top.windows();
                let bw = bottom.windows();
                assert forall|i: int| 0 <= i < tw.len() implies #[trigger] tw[i] < st.windows@.len() by {
                    assert(l.windows()[i] == tw[i]);
                }
                assert forall|i: int| 0 <= i < bw.len() implies #[trigger] bw[i] < st.windows@.len() by {
                    assert(l.windows()[tw.len() + i] == bw[i]);
                }
            }
            draw_rect(st, top, selected, y, x, rows / 2, cols, ops);
            let line = y + rows / 2;
            let ghost before = ops@;
            let mut c: usize = 0;
            while c < cols
                invariant
                    c <= cols,
                    x + cols <= usize::MAX,
                    ops@ == before + row_puts(line as nat, x as nat, c as nat, Character::HLine),
                decreases cols - c,
            {
                ops.push(DrawOp::Put { y: line, x: x + c, ch: Character::HLine });
                c = c + 1;
            }
            draw_rect(st, bottom, selected, y + rows / 2 + 1, x, (rows - 1) / 2, cols, ops);
            proof {
                assert(ops@ =~= old(ops)@ + rect_ops(st, *l, selected, y as nat, x as nat, rows as nat, cols as nat));
            }
        },
    }
}

/// The steps that draw the selected frame of `st` in `rows` rows and
/// `cols` columns: the screen is cleared, then the layout drawn.
pub fn draw(st: &State, rows: usize, cols: usize) -> (ops: Vec<DrawOp>)
    requires
        st.wf(),
        fits(st.frame().layout, rows as nat, cols as nat),
    ensures
        ops@ == seq![DrawOp::Erase] + rect_ops(st, st.frame().layout, st.selected(), 0, 0, rows as nat, cols as nat),
{
    let f = &st.display.frames[st.display.selected_frame];
    assert(st.frame_ok(*f));
    let mut ops: Vec<DrawOp> = Vec::new();
    ops.push(DrawOp::Erase);
    draw_rect(st, &f.layout, f.selected_window, 0, 0, rows, cols, &mut ops);
    ops
}

/// One column of a message box at column `x`: on row `top` an inverted
/// `ch`, on the row below an inverted `below`.
pub open spec fn box_column(top: nat, x: nat, ch: Character, below: Character) -> Seq<DrawOp> {
    seq![
        DrawOp::Mark { y: top as usize, x: x as usize, at: Attribute::Inverted },
        DrawOp::Put { y: top as usize, x: x as usize, ch },
        DrawOp::Mark { y: (top + 1) as usize, x: x as usize, at: Attribute::Inverted },
        DrawOp::Put { y: (top + 1) as usize, x: x as usize, ch: below },
    ]
}

/// The `n` middle columns of a message box from column `x`: a line above
/// a blank.
pub open spec fn box_middle(top: nat, x: nat, n: nat) -> Seq<DrawOp>
    decreases n,
{
    if n == 0 {
        Seq::empty()
    } else {
        box_middle(top, x, (n - 1) as nat) + box_column(
            top,
            (x + n - 1) as nat,
            Character::HLine,
            Character::Character(' '),
        )
    }
}

/// The steps that show `message` in a box over the bottom of a screen of
/// `rows` rows and `cols` columns: the box takes rows `rows - 3` and
/// `rows - 2` from column 9 to column `cols - 9`, inverted, with a dot at
/// each top corner; the message is put on its lower row from column 10,
/// cut to `cols - 20` characters.
pub open spec fn message_ops(message: Seq<char>, rows: nat, cols: nat) -> Seq<DrawOp> {
    let top = (rows - 3) as nat;
    let n = if message.len() < cols - 20 { message.len() } else { (cols - 20) as nat };
    box_column(top, 9, Character::Character('.'), Character::VLine) + box_middle(top, 10, (cols - 19) as nat)
        + box_column(top, (cols - 9) as nat, Character::Character('.'), Character::VLine) + name_puts(
        message,
        top + 1,
        10,
        n,
    )
}

fn push_box_column(ops: &mut Vec<DrawOp>, top: usize, x: usize, ch: Character, below: Character)
    requires
        top < usize::MAX,
    ensures
        final(ops)@ == old(ops)@ + box_column(top as nat, x as nat, ch, below),
{
    ops.push(DrawOp::Mark { y: top, x, at: Attribute::Inverted });
    ops.push(DrawOp::Put { y: top, x, ch });
    ops.push(DrawOp::Mark { y: top + 1, x, at: Attribute::Inverted });
    ops.push(DrawOp::Put { y: top + 1, x, ch: below });
    proof {
        assert(final(ops)@ =~= old(ops)@ + box_column(top as nat, x as nat, ch, below));
    }
}

/// The steps that show `message` in a box (see `message_ops`).
pub fn message_box(message: &str, rows: usize, cols: usize) -> (ops: Vec<DrawOp>)
    requires
        rows >= 3,
        cols >= 20,
    ensures
        ops@ == message_ops(message@, rows as nat, cols as nat),
{
    let top = rows - 3;
    let mut ops: Vec<DrawOp> = Vec::new();
    push_box_column(&mut ops, top, 9, Character::Character('.'), Character::VLine);
    let ghost first = ops@;
    let mut i: usize = 10;
    while i <= cols - 10
        invariant
            10 <= i <= cols - 9,
            cols >= 20,
            top == rows - 3,
            rows >= 3,
            ops@ == first + box_middle(top as nat, 10, (i - 10) as nat),
        decreases cols - i,
    {
        push_box_column(&mut ops, top, i, Character::HLine, Character::Character(' '));
        i = i + 1;
    }
    push_box_column(&mut ops, top, cols - 9, Character::Character('.'), Character::VLine);
    let m = chars_of(message);
    let ghost before = ops@;
    let width = cols - 20;
    let mut k: usize = 0;
    while k < m.len() && k < width
        invariant
            k <= m@.len(),
            k <= width,
            width == cols - 20,
            cols >= 20,
            top == rows - 3,
            rows >= 3,
            m@ == message@,
            ops@ == before + name_puts(m@, (top + 1) as nat, 10, k as nat),
        decreases width - k,
    {
        ops.push(DrawOp::Put { y: top + 1, x: 10 + k, ch: Character::Character(char_at(&m, k)) });
        k = k + 1;
    }
    proof {
        assert(ops@ =~= message_ops(message@, rows as nat, cols as nat));
    }
    ops
}

/// The windows of `l`, in order.
pub fn window_list(l: &Layout) -> (v: Vec<usize>)
    ensures
        v@ == l.windows(),
    decreases l,
{
    match l {
        Layout::Window(w) => {
            let mut v: Vec<usize> = Vec::new();
            v.push(*w);
            v
        },
        Layout::VSplit { left, right } => {
            let mut v = window_list(left);
            let mut r = window_list(right);
            v.append(&mut r);
            v
        },
        Layout::HSplit { top, bottom } => {
            let mut v = window_list(top);
            let mut r = window_list(bottom);
            v.append(&mut r);
            v
        },
    }
}

/// `b` is `a` with the cursors of the windows `ws` brought up to date with
/// their buffers.
pub open spec fn cursors_updated(a: &State, b: &State, ws: Seq<usize>) -> bool {
    &&& b.windows@.len() == a.windows@.len()
    &&& forall|w: usize|
        #![trigger b.windows@[w as int]]
        w < a.windows@.len() ==> if ws.contains(w) {
            b.windows@[w as int].cursor_follows(&a.windows@[w as int], &a.buffers@[a.windows@[w as int].buffer as int])
        } else {
            b.windows@[w as int] == a.windows@[w as int]
        }
    &&& b.buffers@ == a.buffers@
    &&& rest_same(a, b)
}

/// Brings the cursors of the windows of the selected frame up to date with
/// their buffers, before drawing.
#[verifier::spinoff_prover]
pub fn update_window_cursors(state: &mut State)
    requires
        old(state).wf(),
    ensures
        final(state).wf(),
        cursors_updated(old(state), final(state), old(state).frame().layout.windows()),
{
    let f = state.display.selected_frame;
    assert(state.frame_ok(state.display.frames@[f as int]));
    let list = window_list(&state.display.frames[f].layout);
    let ghost ws = list@;
    let mut i: usize = 0;
    while i < list.len()
        invariant
            i <= list@.len(),
            ws == list@,
            ws == old(state).frame().layout.windows(),
            old(state).frame_ok(old(state).frame()),
            state.wf(),
            cursors_updated(old(state), state, ws.take(i as int)),
        decreases list.len() - i,
    {
        let w = list[i];
        proof {
            assert(ws[i as int] < old(state).windows@.len());
            assert(!ws.take(i as int).contains(w)) by {
                if ws.take(i as int).contains(w) {
                    let j = choose|j: int| 0 <= j < i && ws.take(i as int)[j] == w;
                    assert(ws[j] == ws[i as int]);
                }
            }
            assert(state.windows@[w as int] == old(state).windows@[w as int]);
            assert(state.windows@[w as int].wf());
        }
        let b = state.windows[w].buffer;
        assert(state.buffers@[b as int].wf());
        let ghost mid = *state;
        state.windows[w].update_cursor(&state.buffers[b]);
        proof {
            assert(ws.take(i + 1) =~= ws.take(i as int).push(w));
            assert(state.windows@ =~= mid.windows@.update(w as int, state.windows@[w as int]));
            assert forall|v: usize|
                #![trigger state.windows@[v as int]]
                v < old(state).windows@.len() implies if ws.take(i + 1).contains(v) {
                state.windows@[v as int].cursor_follows(&old(state).windows@[v as int], &old(state).buffers@[old(state).windows@[v as int].buffer as int])
            } else {
                state.windows@[v as int] == old(state).windows@[v as int]
            } by {
                if v != w {
                    assert(state.windows@[v as int] == mid.windows@[v as int]);
                    assert(ws.take(i + 1).contains(v) == ws.take(i as int).contains(v));
                } else {
                    assert(ws.take(i + 1).contains(v)) by {
                        assert(ws.take(i + 1)[i as int] == w);
                    }
                }
            }
            assert forall|v: int| 0 <= v < state.windows@.len() implies #[trigger] state.windows@[v].wf()
                && state.windows@[v].buffer < state.buffers@.len() by {
                assert(mid.windows@[v].wf());
            }
            assert forall|g: int| 0 <= g < state.display.frames@.len() implies #[trigger] state.frame_ok(
                state.display.frames@[g],
            ) by {
                assert(mid.frame_ok(mid.display.frames@[g]));
            }
            assert forall|k: int| 0 <= k < state.buffers@.len() implies #[trigger] state.buffers@[k].wf() by {
                assert(mid.buffers@[k].wf());
            }
            assert(state.key_maps@ == mid.key_maps@);
            assert(state.wf());
        }
        i = i + 1;
    }
    proof {
        assert(ws.take(i as int) =~= ws);
    }
}

} // verus!
