use vstd::prelude::*;
use vstd::seq_lib::to_multiset_insert;
use vstd::seq_lib::to_multiset_build;
use crate::text::{chars_of, string_from_chars};

verus! {

/// `a` comes before `b` in the order of their characters' code points,
/// comparing from index `i` on; a text comes before those it begins.
pub open spec fn lex_lt_from(a: Seq<char>, b: Seq<char>, i: int) -> bool
    decreases a.len() - i,
{
    if i < 0 || i >= a.len() {
        i >= 0 && i < b.len()
    } else if i >= b.len() {
        false
    } else if a[i] != b[i] {
        (a[i] as int) < (b[i] as int)
    } else {
        lex_lt_from(a, b, i + 1)
    }
}

/// `a` comes before `b`: the order in which `str` compares texts.
pub open spec fn lex_lt(a: Seq<char>, b: Seq<char>) -> bool {
    lex_lt_from(a, b, 0)
}

/// Each text comes no later than those after it.
pub open spec fn sorted(s: Seq<Seq<char>>) -> bool {
    forall|i: int, j: int| 0 <= i < j < s.len() ==> !lex_lt(#[trigger] s[j], #[trigger] s[i])
}

proof fn lemma_lex_from_transitive(a: Seq<char>, b: Seq<char>, c: Seq<char>, i: int)
    requires
        0 <= i,
        a.take(i) == b.take(i),
        b.take(i) == c.take(i),
        i <= a.len() && i <= b.len() && i <= c.len(),
        lex_lt_from(a, b, i),
        lex_lt_from(b, c, i),
    ensures
        lex_lt_from(a, c, i),
    decreases a.len() - i,
{
    if i < a.len() && i < b.len() && i < c.len() && a[i] == b[i] && b[i] == c[i] {
        assert(a.take(i + 1) =~= a.take(i).push(a[i]));
        assert(b.take(i + 1) =~= b.take(i).push(b[i]));
        assert(c.take(i + 1) =~= c.take(i).push(c[i]));
        lemma_lex_from_transitive(a, b, c, i + 1);
    }
}

proof fn lemma_lex_from_total(a: Seq<char>, b: Seq<char>, i: int)
    requires
        0 <= i,
        i <= a.len() && i <= b.len(),
        a.take(i) == b.take(i),
    ensures
        a == b || lex_lt_from(a, b, i) || lex_lt_from(b, a, i),
        !(lex_lt_from(a, b, i) && lex_lt_from(b, a, i)),
        !lex_lt_from(a, a, i),
    decreases a.len() - i,
{
    if i < a.len() && i < b.len() && a[i] == b[i] {
        assert(a.take(i + 1) =~= a.take(i).push(a[i]));
        assert(b.take(i + 1) =~= b.take(i).push(b[i]));
        assert(a.take(i + 1) =~= b.take(i + 1));
        lemma_lex_from_total(a, b, i + 1);
    } else if i == a.len() && i == b.len() {
        assert(a =~= a.take(i));
        assert(b =~= b.take(i));
    } else if i < a.len() && i < b.len() {
        assert((a[i] as int) != (b[i] as int));
    }
    if i < a.len() {
        lemma_lex_from_self(a, i);
    }
}

proof fn lemma_lex_from_self(a: Seq<char>, i: int)
    requires
        0 <= i,
    ensures
        !lex_lt_from(a, a, i),
    decreases a.len() - i,
{
    if i < a.len() {
        lemma_lex_from_self(a, i + 1);
    }
}

/// The order of texts is a strict total order.
pub proof fn lemma_lex_order(a: Seq<char>, b: Seq<char>, c: Seq<char>)
    ensures
        !lex_lt(a, a),
        !(lex_lt(a, b) && lex_lt(b, a)),
        a == b || lex_lt(a, b) || lex_lt(b, a),
        lex_lt(a, b) && lex_lt(b, c) ==> lex_lt(a, c),
{
    assert(a.take(0) =~= b.take(0));
    assert(b.take(0) =~= c.take(0));
    lemma_lex_from_self(a, 0);
    lemma_lex_from_total(a, b, 0);
    if lex_lt(a, b) && lex_lt(b, c) {
        lemma_lex_from_transitive(a, b, c, 0);
    }
}

/// Whether `a` comes before `b`.
pub fn chars_less(a: &Vec<char>, b: &Vec<char>) -> (r: bool)
    ensures
        r == lex_lt(a@, b@),
{
    let mut i: usize = 0;
    while i < a.len() && i < b.len()
        invariant
            i <= a.len() && i <= b.len(),
            lex_lt(a@, b@) == lex_lt_from(a@, b@, i as int),
        decreases a.len() - i,
    {
        if a[i] != b[i] {
            return a[i] < b[i];
        }
        i = i + 1;
    }
    i < b.len()
}

/// The texts `entries` in order: sorted, and holding each text as often.
pub fn sort_texts(entries: Vec<String>) -> (r: Vec<String>)
    ensures
        sorted(r@.map_values(|s: String| s@)),
        r@.map_values(|s: String| s@).to_multiset() == entries@.map_values(|s: String| s@).to_multiset(),
{
    let ghost input = entries@.map_values(|s: String| s@);
    let mut out: Vec<String> = Vec::new();
    let mut keys: Vec<Vec<char>> = Vec::new();
    let mut i: usize = 0;
    proof {
        assert(out@.map_values(|s: String| s@) =~= Seq::<Seq<char>>::empty());
        assert(input.take(0) =~= Seq::<Seq<char>>::empty());
    }
    while i < entries.len()
        invariant
            i <= entries.len(),
            input == entries@.map_values(|s: String| s@),
            out@.len() == keys@.len(),
            forall|k: int| 0 <= k < out@.len() ==> #[trigger] keys@[k]@ == out@[k]@,
            sorted(out@.map_values(|s: String| s@)),
            out@.map_values(|s: String| s@).to_multiset() == input.take(i as int).to_multiset(),
        decreases entries.len() - i,
    {
        let x = entries[i].clone();
        let xk = chars_of(x.as_str());
        let mut p: usize = 0;
        while p < out.len() && !chars_less(&xk, &keys[p])
            invariant
                p <= out@.len(),
                out@.len() == keys@.len(),
                forall|k: int| 0 <= k < out@.len() ==> #[trigger] keys@[k]@ == out@[k]@,
                forall|k: int| 0 <= k < p ==> !lex_lt(xk@, #[trigger] out@[k]@),
            decreases out.len() - p,
        {
            p = p + 1;
        }
        let ghost before = out@.map_values(|s: String| s@);
        proof {
            assert(x@ == input[i as int]);
            assert forall|k: int| p <= k < before.len() implies lex_lt(xk@, #[trigger] before[k]) by {
                assert(lex_lt(xk@, before[p as int]));
                if k > p {
                    lemma_lex_order(xk@, before[p as int], before[k]);
                    lemma_lex_order(before[p as int], before[k], xk@);
                    assert(!lex_lt(before[k], before[p as int]));
                }
            }
        }
        let ghost old_out = out@;
        let ghost old_keys = keys@;
        out.insert(p, x);
        keys.insert(p, xk);
        proof {
            let after = out@.map_values(|s: String| s@);
            assert(after =~= before.insert(p as int, xk@));
            to_multiset_insert(before, p as int, xk@);
            assert(input.take(i + 1) =~= input.take(i as int).push(input[i as int]));
            to_multiset_build(input.take(i as int), input[i as int]);
            assert forall|a: int, b: int| 0 <= a < b < after.len() implies !lex_lt(#[trigger] after[b], #[trigger] after[a]) by {
                if a == p {
                    lemma_lex_order(xk@, before[b - 1], xk@);
                } else if b == p {
                    assert(!lex_lt(xk@, old_out[a]@));
                } else if a < p && b > p {
                    assert(after[a] == before[a] && after[b] == before[b - 1]);
                } else if a > p {
                    assert(after[a] == before[a - 1] && after[b] == before[b - 1]);
                }
            }
            assert forall|k: int| 0 <= k < out@.len() implies #[trigger] keys@[k]@ == out@[k]@ by {
                if k < p {
                    assert(keys@[k] == old_keys[k] && out@[k] == old_out[k]);
                } else if k > p {
                    assert(keys@[k] == old_keys[k - 1] && out@[k] == old_out[k - 1]);
                }
            }
        }
        i = i + 1;
    }
    proof {
        assert(input.take(entries@.len() as int) =~= input);
    }
    out
}

/// The texts of `s`, each followed by a new line.
pub open spec fn lines(s: Seq<Seq<char>>) -> Seq<char>
    decreases s.len(),
{
    if s.len() == 0 {
        Seq::empty()
    } else {
        lines(s.drop_last()) + s.last() + seq!['\n']
    }
}

/// What a directory is shown as: its path, a line for the directory above
/// it, and the names `entries` in order, a line each.
pub open spec fn directory_shown(path: Seq<char>, entries: Seq<Seq<char>>, t: Seq<char>) -> bool {
    exists|s: Seq<Seq<char>>|
        #![trigger lines(s)]
        sorted(s) && s.to_multiset() == entries.to_multiset() && t == path + seq![':', '\n', '.', '.', '\n']
            + lines(s)
}

/// The text shown for the directory at `path` holding `entries`.
pub fn directory_text(path: &str, entries: Vec<String>) -> (t: String)
    ensures
        directory_shown(path@, entries@.map_values(|s: String| s@), t@),
{
    let sorted_entries = sort_texts(entries);
    let ghost sv = sorted_entries@.map_values(|s: String| s@);
    let mut out = chars_of(path);
    out.push(':');
    out.push('\n');
    out.push('.');
    out.push('.');
    out.push('\n');
    let ghost head = out@;
    proof {
        assert(head =~= path@ + seq![':', '\n', '.', '.', '\n']);
        assert(sv.take(0) =~= Seq::<Seq<char>>::empty());
        assert(out@ =~= head + lines(sv.take(0)));
    }
    let mut i: usize = 0;
    while i < sorted_entries.len()
        invariant
            i <= sorted_entries@.len(),
            sv == sorted_entries@.map_values(|s: String| s@),
            out@ == head + lines(sv.take(i as int)),
        decreases sorted_entries.len() - i,
    {
        let e = chars_of(sorted_entries[i].as_str());
        let mut j: usize = 0;
        let ghost start = out@;
        while j < e.len()
            invariant
                j <= e@.len(),
                out@ == start + e@.take(j as int),
            decreases e.len() - j,
        {
            out.push(e[j]);
            assert(e@.take(j + 1) =~= e@.take(j as int).push(e@[j as int]));
            j = j + 1;
        }
        out.push('\n');
        proof {
            assert(e@.take(j as int) =~= e@);
            assert(sv.take(i + 1).drop_last() =~= sv.take(i as int));
            assert(sv.take(i + 1).last() == sv[i as int]);
            assert(out@ =~= head + lines(sv.take(i + 1)));
        }
        i = i + 1;
    }
    proof {
        assert(sv.take(i as int) =~= sv);
    }
    string_from_chars(&out)
}

} // verus!
