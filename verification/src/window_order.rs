use vstd::prelude::*;
use crate::layout::{Layout, lemma_contains_concat};

verus! {

/// The first window of a layout.
pub open spec fn first_of(l: Layout) -> usize {
    l.windows()[0]
}

/// The last window of a layout.
pub open spec fn last_of(l: Layout) -> usize {
    l.windows().last()
}

/// One step of moving clockwise from `w` in `l`: whether `w` is the last
/// window of `l` (and so the move is left to the enclosing split), and the
/// window selected so far. At the top of the layout the last window moves
/// on to the first.
pub open spec fn clockwise(l: Layout, w: usize, top: bool) -> (bool, usize)
    decreases l,
{
    match l {
        Layout::Window(x) => (x == w, w),
        Layout::VSplit { left, right } => {
            let ra = clockwise(*left, w, false);
            if ra.0 {
                (false, first_of(*right))
            } else {
                let rb = clockwise(*right, ra.1, false);
                if rb.0 {
                    (true, if top { first_of(*left) } else { rb.1 })
                } else {
                    (false, rb.1)
                }
            }
        },
        Layout::HSplit { top: t, bottom } => {
            let ra = clockwise(*t, w, false);
            if ra.0 {
                (false, first_of(*bottom))
            } else {
                let rb = clockwise(*bottom, ra.1, false);
                if rb.0 {
                    (true, if top { first_of(*t) } else { rb.1 })
                } else {
                    (false, rb.1)
                }
            }
        },
    }
}

/// The same, counter clockwise: from the first window of a split the move
/// goes to the last window before it, and at the top from the first window
/// of the layout to the last.
pub open spec fn counter_clockwise(l: Layout, w: usize, top: bool) -> (bool, usize)
    decreases l,
{
    match l {
        Layout::Window(x) => (x == w, w),
        Layout::VSplit { left, right } => {
            let rb = counter_clockwise(*right, w, false);
            if rb.0 {
                (false, last_of(*left))
            } else {
                let ra = counter_clockwise(*left, rb.1, false);
                if ra.0 {
                    (true, if top { last_of(*right) } else { ra.1 })
                } else {
                    (false, ra.1)
                }
            }
        },
        Layout::HSplit { top: t, bottom } => {
            let rb = counter_clockwise(*bottom, w, false);
            if rb.0 {
                (false, last_of(*t))
            } else {
                let ra = counter_clockwise(*t, rb.1, false);
                if ra.0 {
                    (true, if top { last_of(*bottom) } else { ra.1 })
                } else {
                    (false, ra.1)
                }
            }
        },
    }
}

/// Closing window `w` in `l`: whether `l` is just that window (which the
/// enclosing split then gives up), the layout left, and the window selected
/// afterwards: the first window of what takes the closed window's split.
pub open spec fn closed(l: Layout, w: usize) -> (bool, Layout, usize)
    decreases l,
{
    match l {
        Layout::Window(x) => (x == w, l, w),
        Layout::VSplit { left, right } => {
            let ra = closed(*left, w);
            if ra.0 {
                (false, *right, first_of(*right))
            } else {
                let rb = closed(*right, ra.2);
                if rb.0 {
                    (false, ra.1, first_of(ra.1))
                } else {
                    (false, Layout::VSplit { left: Box::new(ra.1), right: Box::new(rb.1) }, rb.2)
                }
            }
        },
        Layout::HSplit { top, bottom } => {
            let ra = closed(*top, w);
            if ra.0 {
                (false, *bottom, first_of(*bottom))
            } else {
                let rb = closed(*bottom, ra.2);
                if rb.0 {
                    (false, ra.1, first_of(ra.1))
                } else {
                    (false, Layout::HSplit { top: Box::new(ra.1), bottom: Box::new(rb.1) }, rb.2)
                }
            }
        },
    }
}

fn clockwise_exec(l: &Layout, w: usize, top: bool) -> (r: (bool, usize))
    ensures
        r == clockwise(*l, w, top),
    decreases l,
{
    match l {
        Layout::Window(x) => (*x == w, w),
        Layout::VSplit { left, right } => {
            let ra = clockwise_exec(left, w, false);
            if ra.0 {
                (false, right.first_window())
            } else {
                let rb = clockwise_exec(right, ra.1, false);
                if rb.0 {
                    (true, if top { left.first_window() } else { rb.1 })
                } else {
                    (false, rb.1)
                }
            }
        },
        Layout::HSplit { top: t, bottom } => {
            let ra = clockwise_exec(t, w, false);
            if ra.0 {
                (false, bottom.first_window())
            } else {
                let rb = clockwise_exec(bottom, ra.1, false);
                if rb.0 {
                    (true, if top { t.first_window() } else { rb.1 })
                } else {
                    (false, rb.1)
                }
            }
        },
    }
}

fn counter_clockwise_exec(l: &Layout, w: usize, top: bool) -> (r: (bool, usize))
    ensures
        r == counter_clockwise(*l, w, top),
    decreases l,
{
    match l {
        Layout::Window(x) => (*x == w, w),
        Layout::VSplit { left, right } => {
            let rb = counter_clockwise_exec(right, w, false);
            if rb.0 {
                (false, left.last_window())
            } else {
                let ra = counter_clockwise_exec(left, rb.1, false);
                if ra.0 {
                    (true, if top { right.last_window() } else { ra.1 })
                } else {
                    (false, ra.1)
                }
            }
        },
        Layout::HSplit { top: t, bottom } => {
            let rb = counter_clockwise_exec(bottom, w, false);
            if rb.0 {
                (false, t.last_window())
            } else {
                let ra = counter_clockwise_exec(t, rb.1, false);
                if ra.0 {
                    (true, if top { bottom.last_window() } else { ra.1 })
                } else {
                    (false, ra.1)
                }
            }
        },
    }
}

fn closed_exec(l: Layout, w: usize) -> (r: (bool, Layout, usize))
    ensures
        r == closed(l, w),
    decreases l,
{
    match l {
        Layout::Window(x) => (x == w, Layout::Window(x), w),
        Layout::VSplit { left, right } => {
            let ra = closed_exec(*left, w);
            if ra.0 {
                let f = right.first_window();
                (false, *right, f)
            } else {
                let rb = closed_exec(*right, ra.2);
                if rb.0 {
                    let f = ra.1.first_window();
                    (false, ra.1, f)
                } else {
                    (false, Layout::VSplit { left: Box::new(ra.1), right: Box::new(rb.1) }, rb.2)
                }
            }
        },
        Layout::HSplit { top, bottom } => {
            let ra = closed_exec(*top, w);
            if ra.0 {
                let f = bottom.first_window();
                (false, *bottom, f)
            } else {
                let rb = closed_exec(*bottom, ra.2);
                if rb.0 {
                    let f = ra.1.first_window();
                    (false, ra.1, f)
                } else {
                    (false, Layout::HSplit { top: Box::new(ra.1), bottom: Box::new(rb.1) }, rb.2)
                }
            }
        },
    }
}

/// Closes the window `window`: the split that holds it gives way to the
/// other side, whose first window becomes selected. A layout that is only
/// that window is left alone, and the answer is then `true`.
pub fn close_window(layout: &mut Layout, window: &mut usize) -> (r: bool)
    ensures
        r == closed(*old(layout), *old(window)).0,
        *final(layout) == closed(*old(layout), *old(window)).1,
        *final(window) == closed(*old(layout), *old(window)).2,
{
    let mut tmp = Layout::Window(0);
    std::mem::swap(&mut tmp, layout);
    let (r, l, w) = closed_exec(tmp, *window);
    *layout = l;
    *window = w;
    r
}

/// Selects the window after `window`, going clockwise.
pub fn other_window_clockwise(layout: &Layout, window: &mut usize)
    ensures
        *final(window) == clockwise(*layout, *old(window), true).1,
{
    let r = clockwise_exec(layout, *window, true);
    *window = r.1;
}

/// Selects the window before `window`, going counter clockwise.
pub fn other_window_counter_clockwise(layout: &Layout, window: &mut usize)
    ensures
        *final(window) == counter_clockwise(*layout, *old(window), true).1,
{
    let r = counter_clockwise_exec(layout, *window, true);
    *window = r.1;
}

// ---------------------------------------------------------------- laws

pub open spec fn distinct_seq(s: Seq<usize>) -> bool {
    forall|i: int, j: int| 0 <= i < s.len() && 0 <= j < s.len() && i != j ==> s[i] != s[j]
}

/// In windows that are all different, a window of one side of a split is
/// not on the other side.
proof fn lemma_not_on_other_side(sa: Seq<usize>, sb: Seq<usize>, k: int)
    requires
        distinct_seq(sa + sb),
        0 <= k < (sa + sb).len(),
    ensures
        k < sa.len() ==> !sb.contains((sa + sb)[k]),
        k >= sa.len() ==> !sa.contains((sa + sb)[k]),
{
    let s = sa + sb;
    if k < sa.len() && sb.contains(s[k]) {
        let j = choose|j: int| 0 <= j < sb.len() && sb[j] == s[k];
        assert(s[sa.len() + j] == s[k]);
    }
    if k >= sa.len() && sa.contains(s[k]) {
        let j = choose|j: int| 0 <= j < sa.len() && sa[j] == s[k];
        assert(s[j] == s[k]);
    }
}

proof fn lemma_distinct_sides(sa: Seq<usize>, sb: Seq<usize>)
    requires
        distinct_seq(sa + sb),
    ensures
        distinct_seq(sa),
        distinct_seq(sb),
{
    let s = sa + sb;
    assert forall|i: int, j: int| 0 <= i < sa.len() && 0 <= j < sa.len() && i != j implies sa[i] != sa[j] by {
        assert(s[i] == sa[i] && s[j] == sa[j]);
    }
    assert forall|i: int, j: int| 0 <= i < sb.len() && 0 <= j < sb.len() && i != j implies sb[i] != sb[j] by {
        assert(s[sa.len() + i] == sb[i] && s[sa.len() + j] == sb[j]);
    }
}

/// Moving from a window that a layout does not hold changes nothing in it.
proof fn lemma_clockwise_absent(l: Layout, w: usize)
    requires
        !l.windows().contains(w),
    ensures
        clockwise(l, w, false) == (false, w),
        counter_clockwise(l, w, false) == (false, w),
        clockwise(l, w, true) == (false, w),
        counter_clockwise(l, w, true) == (false, w),
    decreases l,
{
    match l {
        Layout::Window(x) => {
            assert(l.windows()[0] == x);
        },
        Layout::VSplit { left, right } => {
            lemma_contains_concat(left.windows(), right.windows(), w);
            lemma_clockwise_absent(*left, w);
            lemma_clockwise_absent(*right, w);
        },
        Layout::HSplit { top, bottom } => {
            lemma_contains_concat(top.windows(), bottom.windows(), w);
            lemma_clockwise_absent(*top, w);
            lemma_clockwise_absent(*bottom, w);
        },
    }
}

/// A clockwise step below the top, from the window at place `k`: to the
/// next window, or handed up from the last one.
proof fn lemma_clockwise_at(l: Layout, w: usize, k: int)
    requires
        distinct_seq(l.windows()),
        0 <= k < l.windows().len(),
        l.windows()[k] == w,
    ensures
        clockwise(l, w, false) == if k < l.windows().len() - 1 {
            (false, l.windows()[k + 1])
        } else {
            (true, w)
        },
    decreases l,
{
    match l {
        Layout::Window(x) => {},
        Layout::VSplit { left, right } => {
            let (a, b) = (*left, *right);
            let (sa, sb) = (a.windows(), b.windows());
            a.lemma_windows_nonempty();
            b.lemma_windows_nonempty();
            lemma_distinct_sides(sa, sb);
            if k < sa.len() {
                assert(sa[k] == w);
                lemma_clockwise_at(a, w, k);
                if k < sa.len() - 1 {
                    lemma_not_on_other_side(sa, sb, k + 1);
                    lemma_clockwise_absent(b, sa[k + 1]);
                }
            } else {
                lemma_not_on_other_side(sa, sb, k);
                lemma_clockwise_absent(a, w);
                assert(sb[k - sa.len()] == w);
                lemma_clockwise_at(b, w, k - sa.len());
            }
        },
        Layout::HSplit { top, bottom } => {
            let (a, b) = (*top, *bottom);
            let (sa, sb) = (a.windows(), b.windows());
            a.lemma_windows_nonempty();
            b.lemma_windows_nonempty();
            lemma_distinct_sides(sa, sb);
            if k < sa.len() {
                assert(sa[k] == w);
                lemma_clockwise_at(a, w, k);
                if k < sa.len() - 1 {
                    lemma_not_on_other_side(sa, sb, k + 1);
                    lemma_clockwise_absent(b, sa[k + 1]);
                }
            } else {
                lemma_not_on_other_side(sa, sb, k);
                lemma_clockwise_absent(a, w);
                assert(sb[k - sa.len()] == w);
                lemma_clockwise_at(b, w, k - sa.len());
            }
        },
    }
}

proof fn lemma_next_index(k: int, n: int)
    requires
        0 <= k < n,
    ensures
        (k + 1) % n == if k < n - 1 { k + 1 } else { 0 },
        (k + n - 1) % n == if k > 0 { k - 1 } else { n - 1 },
{
    if k < n - 1 {
        vstd::arithmetic::div_mod::lemma_small_mod((k + 1) as nat, n as nat);
    } else {
        vstd::arithmetic::div_mod::lemma_mod_self_0(n);
    }
    if k > 0 {
        vstd::arithmetic::div_mod::lemma_mod_add_multiples_vanish(k - 1, n);
        vstd::arithmetic::div_mod::lemma_small_mod((k - 1) as nat, n as nat);
    } else {
        vstd::arithmetic::div_mod::lemma_small_mod((n - 1) as nat, n as nat);
    }
}

/// Clockwise from a window of a layout that holds each window once goes to
/// the next window in the order, and from the last one back to the first.
pub proof fn law_clockwise_next(l: Layout, w: usize, k: int)
    requires
        distinct_seq(l.windows()),
        0 <= k < l.windows().len(),
        l.windows()[k] == w,
    ensures
        clockwise(l, w, true).1 == l.windows()[(k + 1) % (l.windows().len() as int)],
{
    lemma_next_index(k, l.windows().len() as int);
    match l {
        Layout::Window(x) => {},
        Layout::VSplit { left, right } => {
            let (a, b) = (*left, *right);
            let (sa, sb) = (a.windows(), b.windows());
            a.lemma_windows_nonempty();
            b.lemma_windows_nonempty();
            lemma_distinct_sides(sa, sb);
            if k < sa.len() {
                assert(sa[k] == w);
                lemma_clockwise_at(a, w, k);
                if k < sa.len() - 1 {
                    lemma_not_on_other_side(sa, sb, k + 1);
                    lemma_clockwise_absent(b, sa[k + 1]);
                }
            } else {
                lemma_not_on_other_side(sa, sb, k);
                lemma_clockwise_absent(a, w);
                assert(sb[k - sa.len()] == w);
                lemma_clockwise_at(b, w, k - sa.len());
            }
        },
        Layout::HSplit { top, bottom } => {
            let (a, b) = (*top, *bottom);
            let (sa, sb) = (a.windows(), b.windows());
            a.lemma_windows_nonempty();
            b.lemma_windows_nonempty();
            lemma_distinct_sides(sa, sb);
            if k < sa.len() {
                assert(sa[k] == w);
                lemma_clockwise_at(a, w, k);
                if k < sa.len() - 1 {
                    lemma_not_on_other_side(sa, sb, k + 1);
                    lemma_clockwise_absent(b, sa[k + 1]);
                }
            } else {
                lemma_not_on_other_side(sa, sb, k);
                lemma_clockwise_absent(a, w);
                assert(sb[k - sa.len()] == w);
                lemma_clockwise_at(b, w, k - sa.len());
            }
        },
    }
}

/// A counter clockwise step below the top, from the window at place `k`:
/// to the previous window, or handed up from the first one.
proof fn lemma_counter_clockwise_at(l: Layout, w: usize, k: int)
    requires
        distinct_seq(l.windows()),
        0 <= k < l.windows().len(),
        l.windows()[k] == w,
    ensures
        counter_clockwise(l, w, false) == if k > 0 {
            (false, l.windows()[k - 1])
        } else {
            (true, w)
        },
    decreases l,
{
    match l {
        Layout::Window(x) => {},
        Layout::VSplit { left, right } => {
            let (a, b) = (*left, *right);
            let (sa, sb) = (a.windows(), b.windows());
            a.lemma_windows_nonempty();
            b.lemma_windows_nonempty();
            lemma_distinct_sides(sa, sb);
            if k >= sa.len() {
                assert(sb[k - sa.len()] == w);
                lemma_counter_clockwise_at(b, w, k - sa.len());
                if k > sa.len() {
                    lemma_not_on_other_side(sa, sb, k - 1);
                    lemma_clockwise_absent(a, sb[k - 1 - sa.len()]);
                }
            } else {
                lemma_not_on_other_side(sa, sb, k);
                lemma_clockwise_absent(b, w);
                assert(sa[k] == w);
                lemma_counter_clockwise_at(a, w, k);
            }
        },
        Layout::HSplit { top, bottom } => {
            let (a, b) = (*top, *bottom);
            let (sa, sb) = (a.windows(), b.windows());
            a.lemma_windows_nonempty();
            b.lemma_windows_nonempty();
            lemma_distinct_sides(sa, sb);
            if k >= sa.len() {
                assert(sb[k - sa.len()] == w);
                lemma_counter_clockwise_at(b, w, k - sa.len());
                if k > sa.len() {
                    lemma_not_on_other_side(sa, sb, k - 1);
                    lemma_clockwise_absent(a, sb[k - 1 - sa.len()]);
                }
            } else {
                lemma_not_on_other_side(sa, sb, k);
                lemma_clockwise_absent(b, w);
                assert(sa[k] == w);
                lemma_counter_clockwise_at(a, w, k);
            }
        },
    }
}

/// Counter clockwise from a window of a layout that holds each window once
/// goes to the previous window in the order, and from the first one to the
/// last.
pub proof fn law_counter_clockwise_previous(l: Layout, w: usize, k: int)
    requires
        distinct_seq(l.windows()),
        0 <= k < l.windows().len(),
        l.windows()[k] == w,
    ensures
        counter_clockwise(l, w, true).1 == l.windows()[(k + l.windows().len() - 1) % (
        l.windows().len() as int)],
{
    lemma_next_index(k, l.windows().len() as int);
    match l {
        Layout::Window(x) => {},
        Layout::VSplit { left, right } => {
            let (a, b) = (*left, *right);
            let (sa, sb) = (a.windows(), b.windows());
            a.lemma_windows_nonempty();
            b.lemma_windows_nonempty();
            lemma_distinct_sides(sa, sb);
            if k >= sa.len() {
                assert(sb[k - sa.len()] == w);
                lemma_counter_clockwise_at(b, w, k - sa.len());
                if k > sa.len() {
                    lemma_not_on_other_side(sa, sb, k - 1);
                    lemma_clockwise_absent(a, sb[k - 1 - sa.len()]);
                }
            } else {
                lemma_not_on_other_side(sa, sb, k);
                lemma_clockwise_absent(b, w);
                assert(sa[k] == w);
                lemma_counter_clockwise_at(a, w, k);
            }
        },
        Layout::HSplit { top, bottom } => {
            let (a, b) = (*top, *bottom);
            let (sa, sb) = (a.windows(), b.windows());
            a.lemma_windows_nonempty();
            b.lemma_windows_nonempty();
            lemma_distinct_sides(sa, sb);
            if k >= sa.len() {
                assert(sb[k - sa.len()] == w);
                lemma_counter_clockwise_at(b, w, k - sa.len());
                if k > sa.len() {
                    lemma_not_on_other_side(sa, sb, k - 1);
                    lemma_clockwise_absent(a, sb[k - 1 - sa.len()]);
                }
            } else {
                lemma_not_on_other_side(sa, sb, k);
                lemma_clockwise_absent(b, w);
                assert(sa[k] == w);
                lemma_counter_clockwise_at(a, w, k);
            }
        },
    }
}

/// Closing a window that a layout does not hold changes nothing.
proof fn lemma_close_absent(l: Layout, w: usize)
    requires
        !l.windows().contains(w),
    ensures
        closed(l, w) == (false, l, w),
    decreases l,
{
    match l {
        Layout::Window(x) => {
            assert(l.windows()[0] == x);
        },
        Layout::VSplit { left, right } => {
            lemma_contains_concat(left.windows(), right.windows(), w);
            lemma_close_absent(*left, w);
            lemma_close_absent(*right, w);
        },
        Layout::HSplit { top, bottom } => {
            lemma_contains_concat(top.windows(), bottom.windows(), w);
            lemma_close_absent(*top, w);
            lemma_close_absent(*bottom, w);
        },
    }
}

/// What closing does to the order of the windows.
pub open spec fn close_order(l: Layout, w: usize, k: int) -> bool {
    let r = closed(l, w);
    if l.windows().len() == 1 {
        r == (true, l, w)
    } else {
        &&& !r.0
        &&& r.1.windows() == l.windows().remove(k)
        &&& r.1.windows().contains(r.2)
    }
}

proof fn lemma_remove_concat(sa: Seq<usize>, sb: Seq<usize>, k: int)
    requires
        0 <= k < (sa + sb).len(),
    ensures
        k < sa.len() ==> (sa + sb).remove(k) == sa.remove(k) + sb,
        k >= sa.len() ==> (sa + sb).remove(k) == sa + sb.remove(k - sa.len()),
{
    if k < sa.len() {
        assert((sa + sb).remove(k) =~= sa.remove(k) + sb);
    } else {
        assert((sa + sb).remove(k) =~= sa + sb.remove(k - sa.len()));
    }
}

/// In a layout that holds each window once, closing a window takes it out
/// of the order of the windows and selects one of those left; a layout of
/// one window is left alone.
pub proof fn law_close_window(l: Layout, w: usize, k: int)
    requires
        distinct_seq(l.windows()),
        0 <= k < l.windows().len(),
        l.windows()[k] == w,
    ensures
        close_order(l, w, k),
    decreases l,
{
    match l {
        Layout::Window(x) => {},
        Layout::VSplit { left, right } => {
            let (a, b) = (*left, *right);
            let (sa, sb) = (a.windows(), b.windows());
            a.lemma_windows_nonempty();
            b.lemma_windows_nonempty();
            lemma_distinct_sides(sa, sb);
            lemma_remove_concat(sa, sb, k);
            lemma_contains_concat(sa.remove(k), sb, closed(a, w).2);
            if k < sa.len() {
                assert(sa[k] == w);
                law_close_window(a, w, k);
                if sa.len() > 1 {
                    let w2 = closed(a, w).2;
                    let i = choose|i: int| 0 <= i < sa.remove(k).len() && sa.remove(k)[i] == w2;
                    let i2 = if i < k { i } else { i + 1 };
                    assert(sa[i2] == w2);
                    lemma_not_on_other_side(sa, sb, i2);
                    lemma_close_absent(b, w2);
                    lemma_contains_concat(sa.remove(k), sb, w2);
                } else {
                    assert(sa.remove(k) =~= Seq::<usize>::empty());
                    assert(sb.contains(sb[0]));
                }
            } else {
                lemma_not_on_other_side(sa, sb, k);
                lemma_close_absent(a, w);
                assert(sb[k - sa.len()] == w);
                law_close_window(b, w, k - sa.len());
                if sb.len() > 1 {
                    lemma_contains_concat(sa, sb.remove(k - sa.len()), closed(b, w).2);
                } else {
                    assert(sb.remove(k - sa.len()) =~= Seq::<usize>::empty());
                    assert(sa + Seq::<usize>::empty() =~= sa);
                    assert(sa.contains(sa[0]));
                }
            }
        },
        Layout::HSplit { top, bottom } => {
            let (a, b) = (*top, *bottom);
            let (sa, sb) = (a.windows(), b.windows());
            a.lemma_windows_nonempty();
            b.lemma_windows_nonempty();
            lemma_distinct_sides(sa, sb);
            lemma_remove_concat(sa, sb, k);
            lemma_contains_concat(sa.remove(k), sb, closed(a, w).2);
            if k < sa.len() {
                assert(sa[k] == w);
                law_close_window(a, w, k);
                if sa.len() > 1 {
                    let w2 = closed(a, w).2;
                    let i = choose|i: int| 0 <= i < sa.remove(k).len() && sa.remove(k)[i] == w2;
                    let i2 = if i < k { i } else { i + 1 };
                    assert(sa[i2] == w2);
                    lemma_not_on_other_side(sa, sb, i2);
                    lemma_close_absent(b, w2);
                    lemma_contains_concat(sa.remove(k), sb, w2);
                } else {
                    assert(sa.remove(k) =~= Seq::<usize>::empty());
                    assert(sb.contains(sb[0]));
                }
            } else {
                lemma_not_on_other_side(sa, sb, k);
                lemma_close_absent(a, w);
                assert(sb[k - sa.len()] == w);
                law_close_window(b, w, k - sa.len());
                if sb.len() > 1 {
                    lemma_contains_concat(sa, sb.remove(k - sa.len()), closed(b, w).2);
                } else {
                    assert(sb.remove(k - sa.len()) =~= Seq::<usize>::empty());
                    assert(sa + Seq::<usize>::empty() =~= sa);
                    assert(sa.contains(sa[0]));
                }
            }
        },
    }
}

/// The layout that shares a split with window `w`: the other side of the
/// split of which `w` alone is one side.
pub open spec fn sibling(l: Layout, w: usize) -> Option<Layout>
    decreases l,
{
    match l {
        Layout::Window(_) => None,
        Layout::VSplit { left, right } => {
            if *left == Layout::Window(w) {
                Some(*right)
            } else if *right == Layout::Window(w) {
                Some(*left)
            } else if left.windows().contains(w) {
                sibling(*left, w)
            } else {
                sibling(*right, w)
            }
        },
        Layout::HSplit { top, bottom } => {
            if *top == Layout::Window(w) {
                Some(*bottom)
            } else if *bottom == Layout::Window(w) {
                Some(*top)
            } else if top.windows().contains(w) {
                sibling(*top, w)
            } else {
                sibling(*bottom, w)
            }
        },
    }
}

/// In a layout that holds each window once, closing window `w` (not the
/// only window) selects the first window of the layout that shared its
/// split, which takes the split's place.
pub proof fn law_close_selects_sibling(l: Layout, w: usize)
    requires
        distinct_seq(l.windows()),
        l.windows().contains(w),
        l != Layout::Window(w),
    ensures
        sibling(l, w) matches Some(s) && closed(l, w).2 == s.windows()[0] && !closed(l, w).0,
    decreases l,
{
    match l {
        Layout::Window(x) => {
            let i = choose|i: int| 0 <= i < l.windows().len() && l.windows()[i] == w;
            assert(l.windows() == seq![x]);
            assert(x == w);
        },
        Layout::VSplit { left, right } => {
            let (a, b) = (*left, *right);
            lemma_close_sibling_side(a, b, w);
            if a == Layout::Window(w) {
                assert(closed(l, w).2 == b.windows()[0]);
            } else if b == Layout::Window(w) {
                assert(b.windows()[0] == w);
                assert(b.windows().contains(w));
                assert(!a.windows().contains(w));
                assert(closed(a, w) == (false, a, w));
                assert(closed(b, w).0);
                assert(closed(l, w).2 == a.windows()[0]);
            } else if a.windows().contains(w) {
                law_close_selects_sibling(a, w);
                lemma_close_sibling_rest(a, b, w);
                assert(closed(l, w).2 == closed(a, w).2);
            } else {
                law_close_selects_sibling(b, w);
                assert(closed(l, w).2 == closed(b, w).2);
            }
        },
        Layout::HSplit { top, bottom } => {
            let (a, b) = (*top, *bottom);
            lemma_close_sibling_side(a, b, w);
            if a == Layout::Window(w) {
                assert(closed(l, w).2 == b.windows()[0]);
            } else if b == Layout::Window(w) {
                assert(b.windows()[0] == w);
                assert(b.windows().contains(w));
                assert(!a.windows().contains(w));
                assert(closed(a, w) == (false, a, w));
                assert(closed(b, w).0);
                assert(closed(l, w).2 == a.windows()[0]);
            } else if a.windows().contains(w) {
                law_close_selects_sibling(a, w);
                lemma_close_sibling_rest(a, b, w);
                assert(closed(l, w).2 == closed(a, w).2);
            } else {
                law_close_selects_sibling(b, w);
                assert(closed(l, w).2 == closed(b, w).2);
            }
        },
    }
}

/// The facts about the two sides of a split that closing `w` in it needs.
proof fn lemma_close_sibling_side(a: Layout, b: Layout, w: usize)
    requires
        distinct_seq(a.windows() + b.windows()),
        (a.windows() + b.windows()).contains(w),
    ensures
        distinct_seq(a.windows()),
        distinct_seq(b.windows()),
        a.windows().contains(w) || b.windows().contains(w),
        !(a.windows().contains(w) && b.windows().contains(w)),
        !a.windows().contains(w) ==> closed(a, w) == (false, a, w),
        !b.windows().contains(w) ==> closed(b, w) == (false, b, w),
        a != Layout::Window(w) && a.windows().contains(w) ==> !closed(a, w).0,
        b != Layout::Window(w) && b.windows().contains(w) ==> !closed(b, w).0,
{
    let (sa, sb) = (a.windows(), b.windows());
    lemma_distinct_sides(sa, sb);
    lemma_contains_concat(sa, sb, w);
    let s = sa + sb;
    let k = choose|k: int| 0 <= k < s.len() && s[k] == w;
    lemma_not_on_other_side(sa, sb, k);
    if !sa.contains(w) {
        lemma_close_absent(a, w);
    } else {
        let i = choose|i: int| 0 <= i < sa.len() && sa[i] == w;
        law_close_window(a, w, i);
        if sa.len() == 1 {
            if let Layout::Window(x) = a {
            } else {
                a.lemma_windows_nonempty();
                lemma_split_has_two(a);
            }
        }
    }
    if !sb.contains(w) {
        lemma_close_absent(b, w);
    } else {
        let i = choose|i: int| 0 <= i < sb.len() && sb[i] == w;
        law_close_window(b, w, i);
        if sb.len() == 1 {
            if let Layout::Window(x) = b {
            } else {
                lemma_split_has_two(b);
            }
        }
    }
}

/// A split holds at least two windows.
proof fn lemma_split_has_two(l: Layout)
    ensures
        !(l is Window) ==> l.windows().len() >= 2,
{
    match l {
        Layout::Window(_) => {},
        Layout::VSplit { left, right } => {
            left.lemma_windows_nonempty();
            right.lemma_windows_nonempty();
        },
        Layout::HSplit { top, bottom } => {
            top.lemma_windows_nonempty();
            bottom.lemma_windows_nonempty();
        },
    }
}

/// Once `w` is closed on side `a`, the window selected there is not on side
/// `b`, so `b` is left as it was.
proof fn lemma_close_sibling_rest(a: Layout, b: Layout, w: usize)
    requires
        distinct_seq(a.windows() + b.windows()),
        a.windows().contains(w),
        a != Layout::Window(w),
    ensures
        closed(b, closed(a, w).2) == (false, b, closed(a, w).2),
{
    let (sa, sb) = (a.windows(), b.windows());
    lemma_distinct_sides(sa, sb);
    let k = choose|k: int| 0 <= k < sa.len() && sa[k] == w;
    law_close_window(a, w, k);
    if sa.len() == 1 {
        if let Layout::Window(x) = a {
            assert(sa[0] == x);
        } else {
            lemma_split_has_two(a);
        }
    }
    let w2 = closed(a, w).2;
    let i = choose|i: int| 0 <= i < sa.remove(k).len() && sa.remove(k)[i] == w2;
    let i2 = if i < k { i } else { i + 1 };
    assert(sa[i2] == w2);
    assert((sa + sb)[i2] == w2);
    lemma_not_on_other_side(sa, sb, i2);
    lemma_close_absent(b, w2);
}

/// Moving clockwise or counter clockwise selects the window it started
/// from or another window of the layout.
pub proof fn lemma_other_window_in(l: Layout, w: usize)
    requires
        l.distinct(),
    ensures
        clockwise(l, w, true).1 == w || l.windows().contains(clockwise(l, w, true).1),
        counter_clockwise(l, w, true).1 == w || l.windows().contains(counter_clockwise(l, w, true).1),
{
    let s = l.windows();
    if s.contains(w) {
        let k = choose|k: int| 0 <= k < s.len() && s[k] == w;
        assert(distinct_seq(s));
        law_clockwise_next(l, w, k);
        law_counter_clockwise_previous(l, w, k);
        lemma_next_index(k, s.len() as int);
        assert(s.contains(s[(k + 1) % (s.len() as int)]));
        assert(s.contains(s[(k + s.len() - 1) % (s.len() as int)]));
    } else {
        lemma_clockwise_absent(l, w);
    }
}

/// Closing a window keeps the windows of the layout each once, takes none
/// in that was not there, and selects the window it started from or one of
/// those left.
pub proof fn lemma_close_window_keeps(l: Layout, w: usize)
    requires
        l.distinct(),
    ensures
        closed(l, w).1.distinct(),
        forall|x: usize| closed(l, w).1.windows().contains(x) ==> l.windows().contains(x),
        closed(l, w).2 == w || closed(l, w).1.windows().contains(closed(l, w).2),
{
    let s = l.windows();
    if s.contains(w) {
        let k = choose|k: int| 0 <= k < s.len() && s[k] == w;
        assert(distinct_seq(s));
        law_close_window(l, w, k);
        if s.len() > 1 {
            let t = s.remove(k);
            assert forall|i: int, j: int| 0 <= i < j < t.len() implies t[i] != t[j] by {
                let i2 = if i < k { i } else { i + 1 };
                let j2 = if j < k { j } else { j + 1 };
                assert(t[i] == s[i2] && t[j] == s[j2]);
            }
            assert forall|x: usize| t.contains(x) implies s.contains(x) by {
                let i = choose|i: int| 0 <= i < t.len() && t[i] == x;
                let i2 = if i < k { i } else { i + 1 };
                assert(s[i2] == x);
            }
        }
    } else {
        lemma_close_absent(l, w);
    }
}

/// In a layout that holds each window once, going counter clockwise from
/// the window that clockwise selected comes back to where one started, and
/// the other way round.
pub proof fn law_clockwise_round_trip(l: Layout, w: usize)
    requires
        distinct_seq(l.windows()),
        l.windows().contains(w),
    ensures
        counter_clockwise(l, clockwise(l, w, true).1, true).1 == w,
        clockwise(l, counter_clockwise(l, w, true).1, true).1 == w,
{
    let s = l.windows();
    let n = s.len() as int;
    let k = choose|k: int| 0 <= k < n && s[k] == w;
    lemma_next_index(k, n);
    law_clockwise_next(l, w, k);
    let j = (k + 1) % n;
    lemma_next_index(j, n);
    law_counter_clockwise_previous(l, s[j], j);
    law_counter_clockwise_previous(l, w, k);
    let i = (k + n - 1) % n;
    lemma_next_index(i, n);
    law_clockwise_next(l, s[i], i);
}

} // verus!
