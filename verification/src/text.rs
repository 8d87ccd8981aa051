use vstd::prelude::*;
use vstd::std_specs::iter::IteratorSpec;

verus! {

broadcast use vstd::string::group_string_axioms;

/// Appends `c` to `s` (`String::push`).
#[verifier::external_body]
fn push_char(s: &mut String, c: char)
    ensures
        final(s)@ == old(s)@.push(c),
{
    s.push(c)
}

/// The characters of `s`, in order.
pub fn chars_of(s: &str) -> (v: Vec<char>)
    ensures
        v@ == s@,
{
    let mut v: Vec<char> = Vec::new();
    for c in it: s.chars()
        invariant
            v@ == it.seq().take(it.index() as int),
    {
        v.push(c);
    }
    assert(v@ =~= s@);
    v
}

/// A `String` holding the characters of `v`.
pub fn string_from_chars(v: &Vec<char>) -> (s: String)
    ensures
        s@ == v@,
{
    let mut s = String::new();
    let mut i: usize = 0;
    while i < v.len()
        invariant
            i <= v.len(),
            s@ == v@.take(i as int),
        decreases v.len() - i,
    {
        push_char(&mut s, v[i]);
        assert(s@ =~= v@.take(i + 1));
        i = i + 1;
    }
    assert(v@.take(i as int) =~= v@);
    s
}

/// The characters of `v` from `a` up to `b`.
pub fn sub_chars(v: &Vec<char>, a: usize, b: usize) -> (r: Vec<char>)
    requires
        a <= b <= v.len(),
    ensures
        r@ == v@.subrange(a as int, b as int),
{
    let mut r: Vec<char> = Vec::new();
    let mut i = a;
    while i < b
        invariant
            a <= i <= b <= v.len(),
            r@ == v@.subrange(a as int, i as int),
        decreases b - i,
    {
        r.push(v[i]);
        assert(r@ =~= v@.subrange(a as int, i + 1));
        i = i + 1;
    }
    r
}

/// `v` with the characters of `s` placed at position `at`.
pub fn splice_chars(v: &Vec<char>, at: usize, s: &Vec<char>) -> (r: Vec<char>)
    requires
        at <= v.len(),
    ensures
        r@ == v@.take(at as int) + s@ + v@.skip(at as int),
{
    let mut r = sub_chars(v, 0, at);
    let mut i: usize = 0;
    while i < s.len()
        invariant
            i <= s.len(),
            r@ == v@.take(at as int) + s@.take(i as int),
        decreases s.len() - i,
    {
        r.push(s[i]);
        assert(r@ =~= v@.take(at as int) + s@.take(i + 1));
        i = i + 1;
    }
    let mut j = at;
    assert(s@.take(i as int) =~= s@);
    while j < v.len()
        invariant
            at <= j <= v.len(),
            r@ == v@.take(at as int) + s@ + v@.subrange(at as int, j as int),
        decreases v.len() - j,
    {
        r.push(v[j]);
        assert(r@ =~= v@.take(at as int) + s@ + v@.subrange(at as int, j + 1));
        j = j + 1;
    }
    assert(v@.subrange(at as int, j as int) =~= v@.skip(at as int));
    r
}

/// `v` without the character at position `at`.
pub fn remove_char_at(v: &Vec<char>, at: usize) -> (r: Vec<char>)
    requires
        at < v.len(),
    ensures
        r@ == v@.remove(at as int),
{
    let mut r = sub_chars(v, 0, at);
    let mut j = at + 1;
    while j < v.len()
        invariant
            at < j <= v.len(),
            r@ == v@.take(at as int) + v@.subrange(at + 1, j as int),
        decreases v.len() - j,
    {
        r.push(v[j]);
        assert(r@ =~= v@.take(at as int) + v@.subrange(at + 1, j + 1));
        j = j + 1;
    }
    assert(r@ =~= v@.remove(at as int));
    r
}

/// Whether `a` and `b` hold the same characters.
pub fn chars_equal(a: &Vec<char>, b: &Vec<char>) -> (r: bool)
    ensures
        r == (a@ == b@),
{
    if a.len() != b.len() {
        return false;
    }
    let mut i: usize = 0;
    while i < a.len()
        invariant
            a.len() == b.len(),
            i <= a.len(),
            a@.take(i as int) == b@.take(i as int),
        decreases a.len() - i,
    {
        if a[i] != b[i] {
            assert(a@[i as int] != b@[i as int]);
            return false;
        }
        assert(a@.take(i + 1) =~= b@.take(i + 1)) by {
            assert(a@.take(i as int) =~= b@.take(i as int));
        }
        i = i + 1;
    }
    assert(a@ =~= a@.take(i as int));
    assert(b@ =~= b@.take(i as int));
    true
}

} // verus!
