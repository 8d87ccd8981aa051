use vstd::prelude::*;
use crate::text::{chars_of, string_from_chars};

verus! {

broadcast use vstd::string::group_string_axioms;

/// A key value.
#[derive(Clone, Copy, PartialEq, Eq, Structural, Debug, Hash)]
pub enum Key {
    Key(char),
    Function(i8),
}

/// A user input event.
#[derive(Clone, Copy, PartialEq, Eq, Structural, Debug, Hash)]
pub struct Input {
    /// Was control held
    pub control: bool,
    /// Was alt held
    pub alt: bool,
    /// The key
    pub key: Key,
}

/// The character of the key that deletes backwards.
pub const BACKSPACE_CHAR: char = '\x7f';

/// The key that deletes backwards.
pub fn backspace() -> (k: Key)
    ensures
        k == Key::Key(BACKSPACE_CHAR),
{
    Key::Key(BACKSPACE_CHAR)
}

impl Input {
    /// Whether neither control nor alt was held.
    pub fn is_unmodified(&self) -> (r: bool)
        ensures
            r == (!self.control && !self.alt),
    {
        !self.control && !self.alt
    }
}

/// The character a terminal sends for the escape key.
pub const ESCAPE_CHAR: char = '\x1b';

/// One character read from a terminal, while an escape is waiting
/// (`stalling_escape`) or not: an escape makes the next character an alt
/// key and gives no input yet; any other character gives its input (see
/// `spec_convert_to_key`) and ends the waiting. The first part of the
/// result tells whether an escape waits afterwards.
pub fn escape_step(stalling_escape: bool, c: char) -> (r: (bool, Option<Input>))
    ensures
        c == ESCAPE_CHAR ==> r == (true, None::<Input>),
        c != ESCAPE_CHAR ==> r == (false, Some(spec_convert_to_key(c, stalling_escape))),
{
    if c == ESCAPE_CHAR {
        (true, None)
    } else {
        (false, Some(convert_to_key(c, stalling_escape)))
    }
}

/// The input a terminal's character `c` stands for: the control codes 1 to
/// 26 are control and a letter, 0 is control and `@`, anything else (the
/// newline among them) is the key itself. `alt` tells whether an escape
/// came before it.
pub open spec fn spec_convert_to_key(c: char, alt: bool) -> Input {
    if c == '\n' {
        Input { control: false, alt, key: Key::Key(c) }
    } else if c == '\0' {
        Input { control: true, alt, key: Key::Key('@') }
    } else if '\u{1}' <= c <= '\u{1a}' {
        Input { control: true, alt, key: Key::Key((c as int - 1 + 'a' as int) as char) }
    } else {
        Input { control: false, alt, key: Key::Key(c) }
    }
}

/// Turns a character read from a terminal into an input.
pub fn convert_to_key(c: char, alt: bool) -> (r: Input)
    ensures
        r == spec_convert_to_key(c, alt),
{
    if c == '\n' {
        Input { control: false, alt, key: Key::Key(c) }
    } else if c == '\0' {
        Input { control: true, alt, key: Key::Key('@') }
    } else if c >= '\u{1}' && c <= '\u{1a}' {
        let code: u8 = c as u8;
        let letter: u8 = code - 1 + ('a' as u8);
        Input { control: true, alt, key: Key::Key(letter as char) }
    } else {
        Input { control: false, alt, key: Key::Key(c) }
    }
}

// ---------------------------------------------------------------- numbers

pub open spec fn is_digit(c: char) -> bool {
    '0' <= c <= '9'
}

pub open spec fn digit_value(c: char) -> int {
    c as int - '0' as int
}

pub open spec fn all_digits(s: Seq<char>) -> bool {
    forall|i: int| 0 <= i < s.len() ==> #[trigger] is_digit(s[i])
}

/// The number that the decimal digits `s` write.
pub open spec fn digits_value(s: Seq<char>) -> int
    decreases s.len(),
{
    if s.len() == 0 {
        0
    } else {
        digits_value(s.drop_last()) * 10 + digit_value(s.last())
    }
}

/// What parsing `s` as an `i8` gives: an optional sign and at least one
/// decimal digit, with a value in range.
pub open spec fn parse_i8(s: Seq<char>) -> Option<i8> {
    if s.len() == 0 {
        None
    } else if s[0] == '-' {
        let d = s.skip(1);
        if d.len() > 0 && all_digits(d) && digits_value(d) <= 128 {
            Some((-digits_value(d)) as i8)
        } else {
            None
        }
    } else {
        let d = if s[0] == '+' { s.skip(1) } else { s };
        if d.len() > 0 && all_digits(d) && digits_value(d) <= 127 {
            Some(digits_value(d) as i8)
        } else {
            None
        }
    }
}

proof fn lemma_digits_value_nonneg(s: Seq<char>)
    requires
        all_digits(s),
    ensures
        digits_value(s) >= 0,
    decreases s.len(),
{
    if s.len() > 0 {
        assert(is_digit(s[s.len() - 1]));
        assert(all_digits(s.drop_last())) by {
            assert forall|i: int| 0 <= i < s.drop_last().len() implies #[trigger] is_digit(
                s.drop_last()[i],
            ) by {
                assert(is_digit(s[i]));
            }
        }
        lemma_digits_value_nonneg(s.drop_last());
    }
}

/// The value of the digits `v[start..]`, or `None` if one is not a digit or
/// the value passes `limit`.
fn digits_up_to(v: &Vec<char>, start: usize, limit: u32) -> (r: Option<u32>)
    requires
        start <= v.len(),
        limit <= 1000,
    ensures
        match r {
            Some(n) => all_digits(v@.skip(start as int)) && n == digits_value(v@.skip(start as int)) && n
                <= limit,
            None => !(all_digits(v@.skip(start as int)) && digits_value(v@.skip(start as int)) <= limit),
        },
{
    let mut n: u32 = 0;
    let mut i = start;
    while i < v.len()
        invariant
            start <= i <= v.len(),
            limit <= 1000,
            all_digits(v@.subrange(start as int, i as int)),
            n == digits_value(v@.subrange(start as int, i as int)),
            n <= limit,
        decreases v.len() - i,
    {
        let c = v[i];
        let ghost prefix = v@.subrange(start as int, i as int);
        let ghost next = v@.subrange(start as int, i + 1);
        assert(next.drop_last() =~= prefix);
        if c < '0' || c > '9' {
            proof {
                assert(!is_digit(v@.skip(start as int)[i - start]));
            }
            return None;
        }
        let d = (c as u32) - ('0' as u32);
        n = n * 10 + d;
        assert(all_digits(next));
        if n > limit {
            proof {
                if all_digits(v@.skip(start as int)) {
                    lemma_digits_more(v@.skip(start as int), i + 1 - start);
                    assert(v@.skip(start as int).take(i + 1 - start) =~= next);
                }
            }
            return None;
        }
        i = i + 1;
    }
    assert(v@.subrange(start as int, i as int) =~= v@.skip(start as int));
    Some(n)
}

/// Appending digits never makes the value smaller.
proof fn lemma_digits_more(s: Seq<char>, k: int)
    requires
        0 <= k <= s.len(),
        all_digits(s),
    ensures
        digits_value(s) >= digits_value(s.take(k)),
    decreases s.len(),
{
    if k < s.len() {
        let t = s.drop_last();
        assert(all_digits(t)) by {
            assert forall|i: int| 0 <= i < t.len() implies #[trigger] is_digit(t[i]) by {
                assert(is_digit(s[i]));
            }
        }
        assert(is_digit(s[s.len() - 1]));
        lemma_digits_value_nonneg(t);
        lemma_digits_more(t, k);
        assert(t.take(k) =~= s.take(k));
    } else {
        assert(s.take(k) =~= s);
    }
}

// ---------------------------------------------------------------- kbd

pub open spec fn starts_with(s: Seq<char>, p: Seq<char>) -> bool {
    p.len() <= s.len() && s.take(p.len() as int) == p
}

/// The input that `kbd` makes of `s`, or `None` where `s` names none: a
/// sequence of `C-` and `A-` prefixes, then `Backspace`, `F` and a number,
/// or a single character.
pub open spec fn spec_kbd(s: Seq<char>) -> Option<Input>
    decreases s.len(),
{
    if starts_with(s, seq!['C', '-']) {
        match spec_kbd(s.skip(2)) {
            Some(i) => Some(Input { control: true, ..i }),
            None => None,
        }
    } else if starts_with(s, seq!['A', '-']) {
        match spec_kbd(s.skip(2)) {
            Some(i) => Some(Input { alt: true, ..i }),
            None => None,
        }
    } else if s == seq!['B', 'a', 'c', 'k', 's', 'p', 'a', 'c', 'e'] {
        Some(Input { control: false, alt: false, key: Key::Key(BACKSPACE_CHAR) })
    } else if s.len() > 0 && s[0] == 'F' {
        match parse_i8(s.skip(1)) {
            Some(n) => Some(Input { control: false, alt: false, key: Key::Function(n) }),
            None => None,
        }
    } else if s.len() == 1 {
        Some(Input { control: false, alt: false, key: Key::Key(s[0]) })
    } else {
        None
    }
}

/// A `C-` before a key's name adds control to it, an `A-` adds alt, and
/// the order of the two prefixes does not matter.
pub proof fn law_kbd_prefixes(k: Seq<char>)
    ensures
        spec_kbd(seq!['C', '-'] + k) == match spec_kbd(k) {
            Some(i) => Some(Input { control: true, ..i }),
            None => None,
        },
        spec_kbd(seq!['A', '-'] + k) == match spec_kbd(k) {
            Some(i) => Some(Input { alt: true, ..i }),
            None => None,
        },
        spec_kbd(seq!['A', '-', 'C', '-'] + k) == spec_kbd(seq!['C', '-', 'A', '-'] + k),
{
    let c = seq!['C', '-'] + k;
    let a = seq!['A', '-'] + k;
    assert(c.skip(2) =~= k);
    assert(a.skip(2) =~= k);
    assert(c.take(2) =~= seq!['C', '-']);
    assert(a.take(2) =~= seq!['A', '-']);
    assert(starts_with(c, seq!['C', '-']));
    assert(starts_with(a, seq!['A', '-']));
    assert(!starts_with(a, seq!['C', '-'])) by {
        assert(a.take(2)[0] == 'A');
    }
    let ac = seq!['A', '-', 'C', '-'] + k;
    let ca = seq!['C', '-', 'A', '-'] + k;
    assert(ac.skip(2) =~= c);
    assert(ca.skip(2) =~= a);
    assert(ac.take(2) =~= seq!['A', '-']);
    assert(ca.take(2) =~= seq!['C', '-']);
    assert(starts_with(ac, seq!['A', '-']));
    assert(starts_with(ca, seq!['C', '-']));
    assert(!starts_with(ac, seq!['C', '-'])) by {
        assert(ac.take(2)[0] == 'A');
    }
}

fn parse_i8_exec(v: &Vec<char>, start: usize) -> (r: Option<i8>)
    requires
        start <= v.len(),
    ensures
        r == parse_i8(v@.skip(start as int)),
{
    let ghost s = v@.skip(start as int);
    if start == v.len() {
        return None;
    }
    if v[start] == '-' {
        assert(s.skip(1) =~= v@.skip(start + 1));
        if start + 1 == v.len() {
            return None;
        }
        match digits_up_to(v, start + 1, 128) {
            Some(n) => {
                let r: i8 = if n == 128 { -128 } else { -(n as i8) };
                Some(r)
            },
            None => None,
        }
    } else {
        let first = if v[start] == '+' { start + 1 } else { start };
        assert(v@.skip(first as int) =~= if s[0] == '+' { s.skip(1) } else { s });
        if first == v.len() {
            return None;
        }
        match digits_up_to(v, first, 127) {
            Some(n) => Some(n as i8),
            None => None,
        }
    }
}

/// The input that a key description such as `"C-A-a"`, `"F1"` or
/// `"Backspace"` names.
pub fn kbd(k: &str) -> (r: Input)
    requires
        spec_kbd(k@) is Some,
    ensures
        r == spec_kbd(k@)->0,
{
    let v = chars_of(k);
    let mut i: usize = 0;
    let mut control = false;
    let mut alt = false;
    assert(v@.skip(0) =~= v@);
    // The prefixes come first; the rest names the key.
    loop
        invariant
            i <= v.len(),
            v@ == k@,
            spec_kbd(v@.skip(i as int)) is Some,
            spec_kbd(k@) == match spec_kbd(v@.skip(i as int)) {
                Some(x) => Some(Input { control: x.control || control, alt: x.alt || alt, key: x.key }),
                None => None::<Input>,
            },
        ensures
            !starts_with(v@.skip(i as int), seq!['C', '-']),
            !starts_with(v@.skip(i as int), seq!['A', '-']),
        decreases v.len() - i,
    {
        let ghost s = v@.skip(i as int);
        if v.len() - i >= 2 && v[i + 1] == '-' && (v[i] == 'C' || v[i] == 'A') {
            assert(s.take(2) =~= seq![v@[i as int], '-']);
            assert(s.skip(2) =~= v@.skip(i + 2));
            if v[i] == 'C' {
                control = true;
            } else {
                assert(!starts_with(s, seq!['C', '-']));
                alt = true;
            }
            i = i + 2;
        } else {
            proof {
                if starts_with(s, seq!['C', '-']) || starts_with(s, seq!['A', '-']) {
                    assert(s.take(2)[1] == s[1]);
                    assert(s.take(2)[0] == s[0]);
                    assert(s[1] == v@[i + 1]);
                    assert(s[0] == v@[i as int]);
                }
            }
            break;
        }
    }
    let ghost s = v@.skip(i as int);
    let key = if v.len() - i == 9 && is_backspace_word(&v, i) {
        assert(s =~= seq!['B', 'a', 'c', 'k', 's', 'p', 'a', 'c', 'e']);
        backspace()
    } else {
        proof {
            if s.len() == 9 {
                if s == seq!['B', 'a', 'c', 'k', 's', 'p', 'a', 'c', 'e'] {
                    assert(is_backspace_at(v@, i as int));
                }
            }
        }
        if v[i] == 'F' {
            assert(s.skip(1) =~= v@.skip(i + 1));
            match parse_i8_exec(&v, i + 1) {
                Some(n) => Key::Function(n),
                None => {
                    assert(false);
                    Key::Key(' ')
                },
            }
        } else {
            Key::Key(v[i])
        }
    };
    assert(!starts_with(s, seq!['C', '-']) && !starts_with(s, seq!['A', '-']));
    assert(spec_kbd(s) == Some(Input { control: false, alt: false, key }));
    Input { control, alt, key }
}

pub open spec fn is_backspace_at(v: Seq<char>, i: int) -> bool {
    &&& i + 9 == v.len()
    &&& v[i] == 'B'
    &&& v[i + 1] == 'a'
    &&& v[i + 2] == 'c'
    &&& v[i + 3] == 'k'
    &&& v[i + 4] == 's'
    &&& v[i + 5] == 'p'
    &&& v[i + 6] == 'a'
    &&& v[i + 7] == 'c'
    &&& v[i + 8] == 'e'
}

fn is_backspace_word(v: &Vec<char>, i: usize) -> (r: bool)
    requires
        i + 9 == v.len(),
    ensures
        r == is_backspace_at(v@, i as int),
{
    v[i] == 'B' && v[i + 1] == 'a' && v[i + 2] == 'c' && v[i + 3] == 'k' && v[i + 4] == 's' && v[i + 5]
        == 'p' && v[i + 6] == 'a' && v[i + 7] == 'c' && v[i + 8] == 'e'
}

// ---------------------------------------------------------------- text

/// The decimal digits of `n`.
pub open spec fn decimal(n: nat) -> Seq<char>
    decreases n,
{
    if n < 10 {
        seq![(n + '0' as nat) as char]
    } else {
        decimal(n / 10).push(((n % 10) + '0' as nat) as char)
    }
}

/// How an `i8` is written in decimal.
pub open spec fn i8_text(n: i8) -> Seq<char> {
    if n < 0 {
        seq!['-'] + decimal((-n) as nat)
    } else {
        decimal(n as nat)
    }
}

/// How a key is written: the character itself, or `F` and the number.
pub open spec fn key_text(k: Key) -> Seq<char> {
    match k {
        Key::Key(c) => seq![c],
        Key::Function(n) => seq!['F'] + i8_text(n),
    }
}

/// How an input is written: `C-` if control was held, `A-` if alt was,
/// then the key.
pub open spec fn input_text(i: Input) -> Seq<char> {
    (if i.control { seq!['C', '-'] } else { Seq::empty() }) + (if i.alt { seq!['A', '-'] } else { Seq::empty() })
        + key_text(i.key)
}

fn push_decimal(v: &mut Vec<char>, n: u8)
    ensures
        final(v)@ == old(v)@ + decimal(n as nat),
    decreases n,
{
    if n >= 10 {
        push_decimal(v, n / 10);
    }
    let d = n % 10;
    let c: char = if d == 0 {
        '0'
    } else if d == 1 {
        '1'
    } else if d == 2 {
        '2'
    } else if d == 3 {
        '3'
    } else if d == 4 {
        '4'
    } else if d == 5 {
        '5'
    } else if d == 6 {
        '6'
    } else if d == 7 {
        '7'
    } else if d == 8 {
        '8'
    } else {
        '9'
    };
    assert(c == ((n % 10) as nat + '0' as nat) as char);
    v.push(c);
    proof {
        if n >= 10 {
            assert(decimal(n as nat) == decimal((n / 10) as nat).push(c));
        }
    }
}

impl Key {
    /// How the key is written.
    pub fn debug_string(&self) -> (s: String)
        ensures
            s@ == key_text(*self),
    {
        let mut v: Vec<char> = Vec::new();
        self.push_text(&mut v);
        assert(v@ =~= key_text(*self));
        string_from_chars(&v)
    }

    fn push_text(&self, v: &mut Vec<char>)
        ensures
            final(v)@ == old(v)@ + key_text(*self),
    {
        let ghost v0 = v@;
        match *self {
            Key::Key(c) => {
                v.push(c);
            },
            Key::Function(n) => {
                v.push('F');
                if n < 0 {
                    v.push('-');
                    let m: u8 = if n == -128 { 128 } else { (-n) as u8 };
                    push_decimal(v, m);
                    assert(v@ =~= v0 + (seq!['F'] + (seq!['-'] + decimal((-n) as nat))));
                } else {
                    push_decimal(v, n as u8);
                    assert(v@ =~= v0 + (seq!['F'] + decimal(n as nat)));
                }
            },
        }
        assert(v@ =~= v0 + key_text(*self));
    }
}

impl Input {
    /// How the input is written, as in `"C-A-F1"`.
    pub fn debug_string(&self) -> (s: String)
        ensures
            s@ == input_text(*self),
    {
        let mut v: Vec<char> = Vec::new();
        if self.control {
            v.push('C');
            v.push('-');
        }
        if self.alt {
            v.push('A');
            v.push('-');
        }
        let ghost v1 = v@;
        self.key.push_text(&mut v);
        assert(v@ =~= input_text(*self));
        string_from_chars(&v)
    }
}

} // verus!
