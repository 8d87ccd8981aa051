use vstd::prelude::*;

verus! {

/// How the screen is split between windows.
///
/// Each window is named by its index among the state's windows.
#[derive(Debug)]
pub enum Layout {
    /// A single window is at this point in the `Layout`.
    Window(usize),
    /// The screen is split into two vertical regions: the `left` and `right`.
    VSplit { left: Box<Layout>, right: Box<Layout> },
    /// The screen is split into two horizontal regions: the `top` and `bottom`.
    HSplit { top: Box<Layout>, bottom: Box<Layout> },
}

impl Layout {
    /// The windows of the layout, from the top left to the bottom right
    /// (the order in which the screen is drawn).
    pub open spec fn windows(self) -> Seq<usize>
        decreases self,
    {
        match self {
            Layout::Window(w) => seq![w],
            Layout::VSplit { left, right } => left.windows() + right.windows(),
            Layout::HSplit { top, bottom } => top.windows() + bottom.windows(),
        }
    }

    /// Whether window `w` is in the layout.
    pub open spec fn has(self, w: usize) -> bool {
        self.windows().contains(w)
    }

    /// No window is in the layout twice.
    pub open spec fn distinct(self) -> bool {
        forall|i: int, j: int| 0 <= i < j < self.windows().len() ==> self.windows()[i] != self.windows()[j]
    }

    /// The layout with the first place that holds window `w` replaced by
    /// `n`.
    pub open spec fn replaced(self, w: usize, n: Layout) -> Layout
        decreases self,
    {
        match self {
            Layout::Window(x) => if x == w { n } else { self },
            Layout::VSplit { left, right } => if left.has(w) {
                Layout::VSplit { left: Box::new(left.replaced(w, n)), right }
            } else {
                Layout::VSplit { left, right: Box::new(right.replaced(w, n)) }
            },
            Layout::HSplit { top, bottom } => if top.has(w) {
                Layout::HSplit { top: Box::new(top.replaced(w, n)), bottom }
            } else {
                Layout::HSplit { top, bottom: Box::new(bottom.replaced(w, n)) }
            },
        }
    }

    pub proof fn lemma_windows_nonempty(self)
        ensures
            self.windows().len() >= 1,
        decreases self,
    {
        match self {
            Layout::Window(_) => {},
            Layout::VSplit { left, right } => {
                left.lemma_windows_nonempty();
                right.lemma_windows_nonempty();
            },
            Layout::HSplit { top, bottom } => {
                top.lemma_windows_nonempty();
                bottom.lemma_windows_nonempty();
            },
        }
    }

    /// The window of a layout that is a single window.
    pub fn unwrap_window(&self) -> (w: usize)
        requires
            self is Window,
        ensures
            w == self->Window_0,
    {
        match self {
            Layout::Window(w) => *w,
            _ => 0,
        }
    }

    /// The window at the top left.
    pub fn first_window(&self) -> (w: usize)
        ensures
            self.windows().len() >= 1,
            w == self.windows()[0],
        decreases self,
    {
        proof {
            self.lemma_windows_nonempty();
        }
        match self {
            Layout::Window(w) => *w,
            Layout::VSplit { left, right } => {
                proof {
                    right.lemma_windows_nonempty();
                }
                left.first_window()
            },
            Layout::HSplit { top, bottom } => {
                proof {
                    bottom.lemma_windows_nonempty();
                }
                top.first_window()
            },
        }
    }

    /// The window at the bottom right.
    pub fn last_window(&self) -> (w: usize)
        ensures
            self.windows().len() >= 1,
            w == self.windows().last(),
        decreases self,
    {
        proof {
            self.lemma_windows_nonempty();
        }
        match self {
            Layout::Window(w) => *w,
            Layout::VSplit { left, right } => {
                proof {
                    left.lemma_windows_nonempty();
                }
                right.last_window()
            },
            Layout::HSplit { top, bottom } => {
                proof {
                    top.lemma_windows_nonempty();
                }
                bottom.last_window()
            },
        }
    }

    /// Whether window `w` is in the layout.
    pub fn contains_window(&self, w: usize) -> (r: bool)
        ensures
            r == self.has(w),
        decreases self,
    {
        match self {
            Layout::Window(x) => {
                assert(self.windows() == seq![*x]);
                assert(self.windows()[0] == *x);
                *x == w
            },
            Layout::VSplit { left, right } => {
                let r = left.contains_window(w) || right.contains_window(w);
                proof {
                    lemma_contains_concat(left.windows(), right.windows(), w);
                }
                r
            },
            Layout::HSplit { top, bottom } => {
                let r = top.contains_window(w) || bottom.contains_window(w);
                proof {
                    lemma_contains_concat(top.windows(), bottom.windows(), w);
                }
                r
            },
        }
    }

    /// The layout with the first place that holds `selected` replaced by
    /// `new_layout`; where `selected` is not in it, it is left as it is.
    fn replaced_exec(self, selected: usize, new_layout: Layout) -> (r: Layout)
        ensures
            r == self.replaced(selected, new_layout),
        decreases self,
    {
        match self {
            Layout::Window(x) => {
                if x == selected {
                    new_layout
                } else {
                    Layout::Window(x)
                }
            },
            Layout::VSplit { left, right } => {
                if left.contains_window(selected) {
                    Layout::VSplit { left: Box::new((*left).replaced_exec(selected, new_layout)), right }
                } else {
                    Layout::VSplit { left, right: Box::new((*right).replaced_exec(selected, new_layout)) }
                }
            },
            Layout::HSplit { top, bottom } => {
                if top.contains_window(selected) {
                    Layout::HSplit { top: Box::new((*top).replaced_exec(selected, new_layout)), bottom }
                } else {
                    Layout::HSplit { top, bottom: Box::new((*bottom).replaced_exec(selected, new_layout)) }
                }
            },
        }
    }

    /// Replaces the first place that holds `selected` with `new_layout`.
    pub fn replace_selected_window(&mut self, selected: usize, new_layout: Layout)
        ensures
            *final(self) == old(self).replaced(selected, new_layout),
    {
        let mut tmp = Layout::Window(0);
        std::mem::swap(&mut tmp, self);
        *self = tmp.replaced_exec(selected, new_layout);
    }
}

pub proof fn lemma_contains_concat(a: Seq<usize>, b: Seq<usize>, w: usize)
    ensures
        (a + b).contains(w) == (a.contains(w) || b.contains(w)),
{
    if a.contains(w) {
        let i = choose|i: int| 0 <= i < a.len() && a[i] == w;
        assert((a + b)[i] == w);
    }
    if b.contains(w) {
        let i = choose|i: int| 0 <= i < b.len() && b[i] == w;
        assert((a + b)[a.len() + i] == w);
    }
    if (a + b).contains(w) {
        let i = choose|i: int| 0 <= i < (a + b).len() && (a + b)[i] == w;
        if i < a.len() {
            assert(a[i] == w);
        } else {
            assert(b[i - a.len()] == w);
        }
    }
}

/// `n`'s windows stand, in `l` with `w`'s first place replaced, where that
/// place stood in `l`'s order.
pub open spec fn replace_order(l: Layout, w: usize, n: Layout) -> bool {
    exists|k: int|
        #![trigger l.windows()[k]]
        0 <= k < l.windows().len() && l.windows()[k] == w && !l.windows().take(k).contains(w)
            && l.replaced(w, n).windows() == l.windows().take(k) + n.windows() + l.windows().skip(k + 1)
}

/// Replacing a window's place puts the new layout's windows where that
/// window first stood in the order, and leaves the rest as they were.
pub proof fn law_replace_window_order(l: Layout, w: usize, n: Layout)
    requires
        l.has(w),
    ensures
        replace_order(l, w, n),
    decreases l,
{
    match l {
        Layout::Window(x) => {
            assert(l.windows()[0] == w);
            assert(l.windows().take(0) =~= Seq::<usize>::empty());
            assert(l.windows().skip(1) =~= Seq::<usize>::empty());
            assert(n.windows() =~= Seq::<usize>::empty() + n.windows() + Seq::<usize>::empty());
        },
        Layout::VSplit { left, right } => {
            lemma_contains_concat(left.windows(), right.windows(), w);
            if left.has(w) {
                law_replace_window_order(*left, w, n);
            } else {
                law_replace_window_order(*right, w, n);
            }
            lemma_replace_split(*left, *right, w, n);
            assert(l.replaced(w, n).windows() == (if left.has(w) {
                left.replaced(w, n).windows() + right.windows()
            } else {
                left.windows() + right.replaced(w, n).windows()
            }));
        },
        Layout::HSplit { top, bottom } => {
            lemma_contains_concat(top.windows(), bottom.windows(), w);
            if top.has(w) {
                law_replace_window_order(*top, w, n);
            } else {
                law_replace_window_order(*bottom, w, n);
            }
            lemma_replace_split(*top, *bottom, w, n);
            assert(l.replaced(w, n).windows() == (if top.has(w) {
                top.replaced(w, n).windows() + bottom.windows()
            } else {
                top.windows() + bottom.replaced(w, n).windows()
            }));
        },
    }
}

proof fn lemma_replace_split(a: Layout, b: Layout, w: usize, n: Layout)
    requires
        (a.windows() + b.windows()).contains(w),
        a.has(w) ==> replace_order(a, w, n),
        !a.has(w) ==> replace_order(b, w, n),
    ensures
        exists|k: int|
            #![trigger (a.windows() + b.windows())[k]]
            0 <= k < (a.windows() + b.windows()).len() && (a.windows() + b.windows())[k] == w && !(a.windows()
                + b.windows()).take(k).contains(w) && (if a.has(w) {
                a.replaced(w, n).windows() + b.windows()
            } else {
                a.windows() + b.replaced(w, n).windows()
            }) == (a.windows() + b.windows()).take(k) + n.windows() + (a.windows() + b.windows()).skip(k + 1),
{
    let s = a.windows() + b.windows();
    lemma_contains_concat(a.windows(), b.windows(), w);
    if a.has(w) {
        let k = choose|k: int|
            #![trigger a.windows()[k]]
            0 <= k < a.windows().len() && a.windows()[k] == w && !a.windows().take(k).contains(w)
                && a.replaced(w, n).windows() == a.windows().take(k) + n.windows() + a.windows().skip(k + 1);
        assert(s[k] == w);
        assert(s.take(k) =~= a.windows().take(k));
        assert(s.skip(k + 1) =~= a.windows().skip(k + 1) + b.windows());
        assert(a.replaced(w, n).windows() + b.windows() =~= s.take(k) + n.windows() + s.skip(k + 1));
    } else {
        let j = choose|j: int|
            #![trigger b.windows()[j]]
            0 <= j < b.windows().len() && b.windows()[j] == w && !b.windows().take(j).contains(w)
                && b.replaced(w, n).windows() == b.windows().take(j) + n.windows() + b.windows().skip(j + 1);
        let k = a.windows().len() + j;
        assert(s[k] == w);
        assert(s.take(k) =~= a.windows() + b.windows().take(j));
        assert(s.skip(k + 1) =~= b.windows().skip(j + 1));
        lemma_contains_concat(a.windows(), b.windows().take(j), w);
        assert(a.windows() + b.replaced(w, n).windows() =~= s.take(k) + n.windows() + s.skip(k + 1));
    }
}

/// Replacing a window that the layout does not hold changes nothing.
pub proof fn lemma_replaced_absent(l: Layout, w: usize, n: Layout)
    requires
        !l.has(w),
    ensures
        l.replaced(w, n) == l,
    decreases l,
{
    match l {
        Layout::Window(x) => {
            assert(l.windows()[0] == x);
        },
        Layout::VSplit { left, right } => {
            lemma_contains_concat(left.windows(), right.windows(), w);
            lemma_replaced_absent(*left, w, n);
            lemma_replaced_absent(*right, w, n);
        },
        Layout::HSplit { top, bottom } => {
            lemma_contains_concat(top.windows(), bottom.windows(), w);
            lemma_replaced_absent(*top, w, n);
            lemma_replaced_absent(*bottom, w, n);
        },
    }
}

/// Splitting window `w` of a layout that holds each window once, all below
/// `fresh`, into `w` and `fresh` keeps each window once, all below
/// `fresh + 1`.
pub proof fn lemma_split_keeps(l: Layout, w: usize, fresh: usize, n: Layout)
    requires
        l.distinct(),
        forall|i: int| 0 <= i < l.windows().len() ==> #[trigger] l.windows()[i] < fresh,
        w < fresh,
        n.windows() == seq![w, fresh],
    ensures
        l.replaced(w, n).distinct(),
        forall|i: int| 0 <= i < l.replaced(w, n).windows().len() ==> #[trigger] l.replaced(w, n).windows()[i]
            <= fresh,
{
    let s = l.windows();
    if l.has(w) {
        law_replace_window_order(l, w, n);
        let k = choose|k: int|
            #![trigger l.windows()[k]]
            0 <= k < l.windows().len() && l.windows()[k] == w && !l.windows().take(k).contains(w)
                && l.replaced(w, n).windows() == l.windows().take(k) + n.windows() + l.windows().skip(k + 1);
        let t = l.replaced(w, n).windows();
        assert(t.len() == s.len() + 1);
        assert forall|i: int| 0 <= i < t.len() implies #[trigger] t[i] <= fresh by {
            if i < k {
                assert(t[i] == s[i]);
            } else if i > k + 1 {
                assert(t[i] == s[i - 1]);
            }
        }
        assert forall|i: int, j: int| 0 <= i < j < t.len() implies t[i] != t[j] by {
            let ti = if i < k { s[i] } else if i == k { w } else if i == k + 1 { fresh } else { s[i - 1] };
            let tj = if j < k { s[j] } else if j == k { w } else if j == k + 1 { fresh } else { s[j - 1] };
            assert(t[i] == ti && t[j] == tj);
            let si = if i <= k { i } else if i == k + 1 { -1 } else { i - 1 };
            let sj = if j <= k { j } else if j == k + 1 { -1 } else { j - 1 };
            if si >= 0 && sj >= 0 {
                assert(s[si] == ti);
                assert(s[sj] == tj);
                assert(s[k] == w);
            }
        }
    } else {
        lemma_replaced_absent(l, w, n);
    }
}

/// Putting window `fresh` in the place of window `w` of a layout that
/// holds each window once, all below `fresh`, keeps each window once, all
/// below `fresh + 1`.
pub proof fn lemma_replace_keeps(l: Layout, w: usize, fresh: usize)
    requires
        l.distinct(),
        forall|i: int| 0 <= i < l.windows().len() ==> #[trigger] l.windows()[i] < fresh,
    ensures
        l.replaced(w, Layout::Window(fresh)).distinct(),
        forall|i: int| 0 <= i < l.replaced(w, Layout::Window(fresh)).windows().len() ==> #[trigger] l.replaced(
            w,
            Layout::Window(fresh),
        ).windows()[i] <= fresh,
{
    let n = Layout::Window(fresh);
    let s = l.windows();
    assert(n.windows() == seq![fresh]);
    if l.has(w) {
        law_replace_window_order(l, w, n);
        let k = choose|k: int|
            #![trigger l.windows()[k]]
            0 <= k < l.windows().len() && l.windows()[k] == w && !l.windows().take(k).contains(w)
                && l.replaced(w, n).windows() == l.windows().take(k) + n.windows() + l.windows().skip(k + 1);
        let t = l.replaced(w, n).windows();
        assert(t.len() == s.len());
        assert forall|i: int| 0 <= i < t.len() implies #[trigger] t[i] <= fresh by {
            if i < k {
                assert(t[i] == s[i]);
            } else if i > k {
                assert(t[i] == s[i]);
            }
        }
        assert forall|i: int, j: int| 0 <= i < j < t.len() implies t[i] != t[j] by {
            if i != k && j != k {
                assert(t[i] == s[i] && t[j] == s[j]);
            } else if i == k {
                assert(t[j] == s[j]);
            } else {
                assert(t[i] == s[i]);
            }
        }
    } else {
        lemma_replaced_absent(l, w, n);
    }
}

} // verus!
