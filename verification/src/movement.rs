use vstd::prelude::*;
use crate::buffer::Buffer;
use crate::chars::{
    is_alphanumeric,
    is_whitespace,
    spec_is_alphanumeric,
    spec_is_whitespace,
    is_open_bracket,
    is_close_bracket,
};

verus! {

// ---------------------------------------------------------------- lines

/// The start of the line that holds position `loc`.
pub open spec fn line_start(t: Seq<char>, loc: int) -> int
    decreases loc,
{
    if loc <= 0 {
        0
    } else if t[loc - 1] == '\n' {
        loc
    } else {
        line_start(t, loc - 1)
    }
}

/// The end of the line that holds position `loc`: the next newline, or
/// the end of the text.
pub open spec fn line_end(t: Seq<char>, loc: int) -> int
    decreases t.len() - loc,
{
    if loc >= t.len() {
        loc
    } else if t[loc] == '\n' {
        loc
    } else {
        line_end(t, loc + 1)
    }
}

pub proof fn lemma_line_start(t: Seq<char>, loc: int)
    requires
        0 <= loc <= t.len(),
    ensures
        0 <= line_start(t, loc) <= loc,
        line_start(t, loc) == 0 || t[line_start(t, loc) - 1] == '\n',
        forall|i: int| line_start(t, loc) <= i < loc ==> t[i] != '\n',
    decreases loc,
{
    if loc > 0 && t[loc - 1] != '\n' {
        lemma_line_start(t, loc - 1);
    }
}

pub proof fn lemma_line_end(t: Seq<char>, loc: int)
    requires
        0 <= loc <= t.len(),
    ensures
        loc <= line_end(t, loc) <= t.len(),
        line_end(t, loc) == t.len() || t[line_end(t, loc)] == '\n',
        forall|i: int| loc <= i < line_end(t, loc) ==> t[i] != '\n',
    decreases t.len() - loc,
{
    if loc < t.len() && t[loc] != '\n' {
        lemma_line_end(t, loc + 1);
    }
}

proof fn lemma_line_start_across(t: Seq<char>, c: int, e: int)
    requires
        0 <= c <= e <= t.len(),
        forall|i: int| c <= i < e ==> t[i] != '\n',
    ensures
        line_start(t, e) == line_start(t, c),
    decreases e - c,
{
    if e > c {
        lemma_line_start_across(t, c, e - 1);
    }
}

proof fn lemma_line_end_across(t: Seq<char>, s: int, c: int)
    requires
        0 <= s <= c <= t.len(),
        forall|i: int| s <= i < c ==> t[i] != '\n',
    ensures
        line_end(t, s) == line_end(t, c),
    decreases c - s,
{
    if s < c {
        lemma_line_end_across(t, s + 1, c);
    }
}

/// The beginning and the end of a line stay where they are when asked
/// again, and both are those of every position of the line.
pub proof fn law_line_bounds(t: Seq<char>, c: int)
    requires
        0 <= c <= t.len(),
    ensures
        line_start(t, line_start(t, c)) == line_start(t, c),
        line_end(t, line_end(t, c)) == line_end(t, c),
        line_start(t, line_end(t, c)) == line_start(t, c),
        line_end(t, line_start(t, c)) == line_end(t, c),
{
    lemma_line_start(t, c);
    lemma_line_end(t, c);
    lemma_line_start_across(t, c, line_end(t, c));
    lemma_line_end_across(t, line_start(t, c), c);
}

/// The character at `i`.
fn char_at(buffer: &Buffer, i: usize) -> (c: char)
    requires
        buffer.wf(),
        i < buffer@.len(),
    ensures
        c == buffer@[i as int],
{
    match buffer.get(i) {
        Ok(c) => c,
        Err(()) => {
            assert(false);
            ' '
        },
    }
}

/// The start of the line that holds `location`.
pub fn begin_of_line(buffer: &Buffer, location: usize) -> (r: usize)
    requires
        buffer.wf(),
        location <= buffer@.len(),
    ensures
        r == line_start(buffer@, location as int),
{
    let mut l = location;
    while l > 0
        invariant
            buffer.wf(),
            l <= location <= buffer@.len(),
            line_start(buffer@, location as int) == line_start(buffer@, l as int),
        decreases l,
    {
        if char_at(buffer, l - 1) == '\n' {
            return l;
        }
        l = l - 1;
    }
    0
}

/// The end of the line that holds `location`.
pub fn end_of_line(buffer: &Buffer, location: usize) -> (r: usize)
    requires
        buffer.wf(),
        location <= buffer@.len(),
    ensures
        r == line_end(buffer@, location as int),
{
    let buffer_len = buffer.len();
    let mut l = location;
    while l < buffer_len
        invariant
            buffer.wf(),
            buffer_len == buffer@.len(),
            location <= l <= buffer_len,
            line_end(buffer@, location as int) == line_end(buffer@, l as int),
        decreases buffer_len - l,
    {
        if char_at(buffer, l) == '\n' {
            return l;
        }
        l = l + 1;
    }
    l
}

/// `new + offset`, but no further than the end of the line at `new`.
pub open spec fn clamp_to_line(t: Seq<char>, new: int, offset: int) -> int {
    if new + offset <= line_end(t, new) {
        new + offset
    } else {
        line_end(t, new)
    }
}

/// Moving down `n` lines from the line starting at `new`, `offset`
/// characters in. Past the last line the column is kept even beyond the
/// line's end.
pub open spec fn lines_down(t: Seq<char>, new: int, offset: int, n: nat) -> int
    decreases n,
{
    if n == 0 {
        clamp_to_line(t, new, offset)
    } else if line_end(t, new) == t.len() {
        line_start(t, line_end(t, new)) + offset
    } else {
        lines_down(t, line_end(t, new) + 1, offset, (n - 1) as nat)
    }
}

/// Moving up `n` lines from the line starting at `new`, `offset`
/// characters in; the first line stops the move.
pub open spec fn lines_up(t: Seq<char>, new: int, offset: int, n: nat) -> int
    decreases n,
{
    if n == 0 || new <= 0 {
        clamp_to_line(t, new, offset)
    } else {
        lines_up(t, line_start(t, new - 1), offset, (n - 1) as nat)
    }
}

/// Where moving `times` lines down (up if negative) from `loc` lands,
/// keeping the column where the line is long enough.
pub open spec fn forward_line_spec(t: Seq<char>, loc: int, times: int) -> int {
    let b = line_start(t, loc);
    if times < 0 {
        lines_up(t, b, loc - b, (-times) as nat)
    } else {
        lines_down(t, b, loc - b, times as nat)
    }
}

fn clamp_to_line_exec(buffer: &Buffer, new: usize, offset: usize) -> (r: usize)
    requires
        buffer.wf(),
        new <= buffer@.len(),
    ensures
        r == clamp_to_line(buffer@, new as int, offset as int),
{
    let e = end_of_line(buffer, new);
    proof {
        lemma_line_end(buffer@, new as int);
    }
    if offset <= e - new {
        new + offset
    } else {
        e
    }
}

/// The position `times` lines below `location` (above if negative), in
/// the same column where the line is long enough.
pub fn forward_line(buffer: &Buffer, location: usize, times: isize) -> (r: usize)
    requires
        buffer.wf(),
        location <= buffer@.len(),
        buffer@.len() + location <= usize::MAX,
    ensures
        r == forward_line_spec(buffer@, location as int, times as int),
{
    let ghost t = buffer@;
    let begin = begin_of_line(buffer, location);
    proof {
        lemma_line_start(t, location as int);
    }
    let mut new_location = begin;
    let offset = location - begin;
    let buffer_len = buffer.len();
    if times < 0 {
        let mut k: isize = times;
        while k < 0
            invariant
                buffer.wf(),
                t == buffer@,
                times <= k <= 0,
                new_location <= t.len(),
                forward_line_spec(t, location as int, times as int) == lines_up(
                    t,
                    new_location as int,
                    offset as int,
                    (-k) as nat,
                ),
            decreases -k,
        {
            if new_location == 0 {
                return clamp_to_line_exec(buffer, new_location, offset);
            }
            proof {
                lemma_line_start(t, new_location - 1);
            }
            new_location = begin_of_line(buffer, new_location - 1);
            k = k + 1;
        }
    } else {
        let mut k: isize = 0;
        while k < times
            invariant
                buffer.wf(),
                t == buffer@,
                buffer_len == t.len(),
                0 <= k <= times,
                new_location <= t.len(),
                offset <= location,
                t.len() + location <= usize::MAX,
                forward_line_spec(t, location as int, times as int) == lines_down(
                    t,
                    new_location as int,
                    offset as int,
                    (times - k) as nat,
                ),
            decreases times - k,
        {
            proof {
                lemma_line_end(t, new_location as int);
            }
            new_location = end_of_line(buffer, new_location);
            if new_location == buffer_len {
                proof {
                    lemma_line_start(t, new_location as int);
                }
                return begin_of_line(buffer, new_location) + offset;
            }
            new_location = new_location + 1;
            k = k + 1;
        }
    }
    clamp_to_line_exec(buffer, new_location, offset)
}

// ---------------------------------------------------------------- words

/// A character of a word: alphanumeric, or, with `ident`, an underscore
/// (words of identifiers).
pub open spec fn is_word_char(c: char, ident: bool) -> bool {
    spec_is_alphanumeric(c) || (ident && c == '_')
}

fn word_char(c: char, ident: bool) -> (r: bool)
    ensures
        r == is_word_char(c, ident),
{
    is_alphanumeric(c) || (ident && c == '_')
}

/// Scanning forward from `loc` while characters are (or, with `alnum`
/// false, are not) word characters: the first position where that stops,
/// or -1 if the text ends first.
pub open spec fn scan_fwd(t: Seq<char>, loc: int, alnum: bool, ident: bool) -> int
    decreases t.len() - loc,
{
    if loc < 0 || loc >= t.len() {
        -1
    } else if is_word_char(t[loc], ident) != alnum {
        loc
    } else if loc + 1 >= t.len() {
        -1
    } else {
        scan_fwd(t, loc + 1, alnum, ident)
    }
}

/// Scanning backward from `loc` the same way; -1 if the start is reached.
pub open spec fn scan_bwd(t: Seq<char>, loc: int, alnum: bool, ident: bool) -> int
    decreases loc,
{
    if loc < 0 || loc >= t.len() {
        -1
    } else if is_word_char(t[loc], ident) != alnum {
        loc
    } else if loc == 0 {
        -1
    } else {
        scan_bwd(t, loc - 1, alnum, ident)
    }
}

/// Moving forward `n` words: past non-alphanumeric characters, then past
/// alphanumeric ones. Reaching the last character ends at the end of the text.
pub open spec fn words_fwd(t: Seq<char>, loc: int, n: nat, ident: bool) -> int
    decreases n,
{
    if n == 0 {
        loc
    } else if loc + 1 >= t.len() {
        t.len() as int
    } else {
        let a = scan_fwd(t, loc, false, ident);
        if a < 0 {
            t.len() as int
        } else {
            let b = scan_fwd(t, a, true, ident);
            if b < 0 {
                t.len() as int
            } else {
                words_fwd(t, b, (n - 1) as nat, ident)
            }
        }
    }
}

/// Moving backward `n` words to the start of each; the start of the text
/// stops the move.
pub open spec fn words_bwd(t: Seq<char>, loc: int, n: nat, ident: bool) -> int
    decreases n,
{
    if n == 0 {
        loc
    } else if loc <= 0 {
        0
    } else {
        let a = scan_bwd(t, loc - 1, false, ident);
        if a < 0 {
            0
        } else {
            let b = scan_bwd(t, a, true, ident);
            if b < 0 {
                0
            } else {
                words_bwd(t, b + 1, (n - 1) as nat, ident)
            }
        }
    }
}

/// Moving `times` words (backward, if negative), with or without
/// underscores in words.
pub open spec fn word_move_spec(t: Seq<char>, loc: int, times: int, ident: bool) -> int {
    if times < 0 {
        words_bwd(t, loc, (-times) as nat, ident)
    } else {
        words_fwd(t, loc, times as nat, ident)
    }
}

pub open spec fn forward_word_spec(t: Seq<char>, loc: int, times: int) -> int {
    word_move_spec(t, loc, times, false)
}

pub proof fn lemma_scan_fwd(t: Seq<char>, loc: int, alnum: bool, ident: bool)
    ensures
        scan_fwd(t, loc, alnum, ident) >= 0 ==> loc <= scan_fwd(t, loc, alnum, ident) < t.len(),
    decreases t.len() - loc,
{
    if 0 <= loc < t.len() && is_word_char(t[loc], ident) == alnum && loc + 1 < t.len() {
        lemma_scan_fwd(t, loc + 1, alnum, ident);
    }
}

pub proof fn lemma_scan_bwd(t: Seq<char>, loc: int, alnum: bool, ident: bool)
    ensures
        scan_bwd(t, loc, alnum, ident) >= 0 ==> 0 <= scan_bwd(t, loc, alnum, ident) <= loc < t.len(),
    decreases loc,
{
    if 0 <= loc < t.len() && is_word_char(t[loc], ident) == alnum && loc > 0 {
        lemma_scan_bwd(t, loc - 1, alnum, ident);
    }
}

/// Scans forward while `is_alphanumeric` equals `alnum`; None where the
/// text ends first.
fn scan_fwd_exec(buffer: &Buffer, loc: usize, alnum: bool, ident: bool) -> (r: Option<usize>)
    requires
        buffer.wf(),
        loc < buffer@.len(),
    ensures
        match r {
            Some(x) => x == scan_fwd(buffer@, loc as int, alnum, ident),
            None => scan_fwd(buffer@, loc as int, alnum, ident) == -1,
        },
{
    let len = buffer.len();
    let mut l = loc;
    while word_char(char_at(buffer, l), ident) == alnum
        invariant
            buffer.wf(),
            len == buffer@.len(),
            loc <= l < len,
            scan_fwd(buffer@, loc as int, alnum, ident) == scan_fwd(buffer@, l as int, alnum, ident),
        decreases len - l,
    {
        if l + 1 >= len {
            return None;
        }
        l = l + 1;
    }
    Some(l)
}

/// Scans backward while `is_alphanumeric` equals `alnum`; None where the
/// start is reached first.
fn scan_bwd_exec(buffer: &Buffer, loc: usize, alnum: bool, ident: bool) -> (r: Option<usize>)
    requires
        buffer.wf(),
        loc < buffer@.len(),
    ensures
        match r {
            Some(x) => x == scan_bwd(buffer@, loc as int, alnum, ident),
            None => scan_bwd(buffer@, loc as int, alnum, ident) == -1,
        },
{
    let mut l = loc;
    while word_char(char_at(buffer, l), ident) == alnum
        invariant
            buffer.wf(),
            l <= loc < buffer@.len(),
            scan_bwd(buffer@, loc as int, alnum, ident) == scan_bwd(buffer@, l as int, alnum, ident),
        decreases l,
    {
        if l == 0 {
            return None;
        }
        l = l - 1;
    }
    Some(l)
}

/// The position `times` words after `location` (before, if negative).
pub fn forward_word(buffer: &Buffer, location: usize, times: isize) -> (r: usize)
    requires
        buffer.wf(),
        times < 0 ==> location <= buffer@.len(),
        times > 0 ==> location < usize::MAX,
        buffer@.len() < usize::MAX,
    ensures
        r == forward_word_spec(buffer@, location as int, times as int),
{
    word_move(buffer, location, times, false)
}

/// The position `times` words after `location` (before, if negative),
/// with underscores in words if `ident`.
fn word_move(buffer: &Buffer, location: usize, times: isize, ident: bool) -> (r: usize)
    requires
        buffer.wf(),
        times < 0 ==> location <= buffer@.len(),
        times > 0 ==> location < usize::MAX,
        buffer@.len() < usize::MAX,
    ensures
        r == word_move_spec(buffer@, location as int, times as int, ident),
{
    let ghost t = buffer@;
    let mut l = location;
    if times < 0 {
        let mut k: isize = times;
        while k < 0
            invariant
                buffer.wf(),
                t == buffer@,
                times <= k <= 0,
                l <= t.len(),
                word_move_spec(t, location as int, times as int, ident) == words_bwd(
                    t,
                    l as int,
                    (-k) as nat,
                    ident,
                ),
            decreases -k,
        {
            if l == 0 {
                return 0;
            }
            let a = match scan_bwd_exec(buffer, l - 1, false, ident) {
                Some(a) => a,
                None => {
                    return 0;
                },
            };
            proof {
                lemma_scan_bwd(t, l - 1, false, ident);
            }
            let b = match scan_bwd_exec(buffer, a, true, ident) {
                Some(b) => b,
                None => {
                    return 0;
                },
            };
            proof {
                lemma_scan_bwd(t, a as int, true, ident);
            }
            l = b + 1;
            k = k + 1;
        }
    } else {
        let buffer_len = buffer.len();
        let mut k: isize = 0;
        while k < times
            invariant
                buffer.wf(),
                t == buffer@,
                buffer_len == t.len(),
                t.len() < usize::MAX,
                0 <= k <= times,
                k == 0 ==> l == location,
                k > 0 ==> l <= t.len(),
                times > 0 ==> l < usize::MAX,
                word_move_spec(t, location as int, times as int, ident) == words_fwd(
                    t,
                    l as int,
                    (times - k) as nat,
                    ident,
                ),
            decreases times - k,
        {
            if l + 1 >= buffer_len {
                return buffer_len;
            }
            let a = match scan_fwd_exec(buffer, l, false, ident) {
                Some(a) => a,
                None => {
                    return buffer_len;
                },
            };
            proof {
                lemma_scan_fwd(t, l as int, false, ident);
            }
            let b = match scan_fwd_exec(buffer, a, true, ident) {
                Some(b) => b,
                None => {
                    return buffer_len;
                },
            };
            proof {
                lemma_scan_fwd(t, a as int, true, ident);
            }
            l = b;
            k = k + 1;
        }
    }
    l
}

// ---------------------------------------------------------------- groups

/// Skipping whitespace forward from `loc`: the first other character, or
/// -1 if the text ends first.
pub open spec fn skip_ws_fwd(t: Seq<char>, loc: int) -> int
    decreases t.len() - loc,
{
    if loc < 0 || loc >= t.len() {
        -1
    } else if !spec_is_whitespace(t[loc]) {
        loc
    } else if loc + 1 == t.len() {
        -1
    } else {
        skip_ws_fwd(t, loc + 1)
    }
}

/// Skipping whitespace backward from `loc`: the position just after the
/// first other character, or -1 if the start is reached first.
pub open spec fn skip_ws_bwd(t: Seq<char>, loc: int) -> int
    decreases loc,
{
    if loc <= 0 || loc > t.len() {
        -1
    } else if !spec_is_whitespace(t[loc - 1]) {
        loc
    } else if loc - 1 == 0 {
        -1
    } else {
        skip_ws_bwd(t, loc - 1)
    }
}

/// Depth of brackets after reading `c` going forward.
pub open spec fn depth_after_fwd(c: char, depth: int) -> int {
    if is_open_bracket(c) {
        depth + 1
    } else if is_close_bracket(c) {
        depth - 1
    } else {
        depth
    }
}

/// Depth of brackets after reading `c` going backward.
pub open spec fn depth_after_bwd(c: char, depth: int) -> int {
    if is_close_bracket(c) {
        depth + 1
    } else if is_open_bracket(c) {
        depth - 1
    } else {
        depth
    }
}

/// Reading forward from `loc` at bracket depth `depth`: the position just
/// after the bracket that brings the depth to zero, or -1 at the end.
pub open spec fn group_fwd(t: Seq<char>, loc: int, depth: int) -> int
    decreases t.len() - loc,
{
    if loc < 0 || loc >= t.len() {
        -1
    } else if depth_after_fwd(t[loc], depth) == 0 {
        loc + 1
    } else if loc + 1 == t.len() {
        -1
    } else {
        group_fwd(t, loc + 1, depth_after_fwd(t[loc], depth))
    }
}

/// Reading backward from `loc` at bracket depth `depth`: the position of
/// the bracket that brings the depth to zero, or -1 at the start.
pub open spec fn group_bwd(t: Seq<char>, loc: int, depth: int) -> int
    decreases loc,
{
    if loc <= 0 || loc > t.len() {
        -1
    } else if depth_after_bwd(t[loc - 1], depth) == 0 {
        loc - 1
    } else if loc - 1 == 0 {
        -1
    } else {
        group_bwd(t, loc - 1, depth_after_bwd(t[loc - 1], depth))
    }
}

/// Moving forward over `n` groups (a bracketed group or a word); where no
/// further group can be passed, the move stops at the last one passed, `ret`.
pub open spec fn groups_fwd(t: Seq<char>, loc: int, ret: int, n: nat) -> int
    decreases n,
{
    if n == 0 {
        loc
    } else if loc + 1 >= t.len() {
        ret
    } else {
        let a = skip_ws_fwd(t, loc);
        if a < 0 {
            ret
        } else if is_open_bracket(t[a]) {
            let g = group_fwd(t, a, 0);
            if g < 0 {
                ret
            } else {
                groups_fwd(t, g, g, (n - 1) as nat)
            }
        } else if is_close_bracket(t[a]) {
            ret
        } else {
            let w = words_fwd(t, a, 1, true);
            groups_fwd(t, w, w, (n - 1) as nat)
        }
    }
}

/// Moving backward over `n` groups, the same way.
pub open spec fn groups_bwd(t: Seq<char>, loc: int, ret: int, n: nat) -> int
    decreases n,
{
    if n == 0 {
        loc
    } else if loc <= 0 {
        ret
    } else {
        let a = skip_ws_bwd(t, loc);
        if a < 0 {
            ret
        } else if is_close_bracket(t[a - 1]) {
            let g = group_bwd(t, a, 0);
            if g < 0 {
                ret
            } else {
                groups_bwd(t, g, g, (n - 1) as nat)
            }
        } else if is_open_bracket(t[a - 1]) {
            ret
        } else {
            let w = words_bwd(t, a, 1, true);
            groups_bwd(t, w, w, (n - 1) as nat)
        }
    }
}

pub open spec fn forward_group_spec(t: Seq<char>, loc: int, times: int) -> int {
    if times < 0 {
        groups_bwd(t, loc, loc, (-times) as nat)
    } else {
        groups_fwd(t, loc, loc, times as nat)
    }
}

pub proof fn lemma_skip_ws_fwd(t: Seq<char>, loc: int)
    ensures
        skip_ws_fwd(t, loc) >= 0 ==> loc <= skip_ws_fwd(t, loc) < t.len(),
    decreases t.len() - loc,
{
    if 0 <= loc < t.len() && spec_is_whitespace(t[loc]) && loc + 1 != t.len() {
        lemma_skip_ws_fwd(t, loc + 1);
    }
}

pub proof fn lemma_skip_ws_bwd(t: Seq<char>, loc: int)
    ensures
        skip_ws_bwd(t, loc) >= 0 ==> 0 < skip_ws_bwd(t, loc) <= loc <= t.len(),
    decreases loc,
{
    if 0 < loc <= t.len() && spec_is_whitespace(t[loc - 1]) && loc - 1 != 0 {
        lemma_skip_ws_bwd(t, loc - 1);
    }
}

pub proof fn lemma_group_fwd(t: Seq<char>, loc: int, depth: int)
    ensures
        group_fwd(t, loc, depth) >= 0 ==> loc < group_fwd(t, loc, depth) <= t.len(),
    decreases t.len() - loc,
{
    if 0 <= loc < t.len() && depth_after_fwd(t[loc], depth) != 0 && loc + 1 != t.len() {
        lemma_group_fwd(t, loc + 1, depth_after_fwd(t[loc], depth));
    }
}

pub proof fn lemma_group_bwd(t: Seq<char>, loc: int, depth: int)
    ensures
        group_bwd(t, loc, depth) >= 0 ==> 0 <= group_bwd(t, loc, depth) < loc <= t.len(),
    decreases loc,
{
    if 0 < loc <= t.len() && depth_after_bwd(t[loc - 1], depth) != 0 && loc - 1 != 0 {
        lemma_group_bwd(t, loc - 1, depth_after_bwd(t[loc - 1], depth));
    }
}

pub proof fn lemma_words(t: Seq<char>, loc: int)
    requires
        0 <= loc <= t.len(),
    ensures
        0 <= words_fwd(t, loc, 1, true) <= t.len(),
        0 <= words_bwd(t, loc, 1, true) <= t.len(),
{
    reveal_with_fuel(words_fwd, 2);
    reveal_with_fuel(words_bwd, 2);
    lemma_scan_fwd(t, loc, false, true);
    if loc > 0 {
        lemma_scan_bwd(t, loc - 1, false, true);
        let a = scan_bwd(t, loc - 1, false, true);
        if a >= 0 {
            lemma_scan_bwd(t, a, true, true);
        }
    }
    let a = scan_fwd(t, loc, false, true);
    if a >= 0 {
        lemma_scan_fwd(t, a, true, true);
    }
}

fn is_open(c: char) -> (r: bool)
    ensures
        r == is_open_bracket(c),
{
    c == '(' || c == '[' || c == '{'
}

fn is_close(c: char) -> (r: bool)
    ensures
        r == is_close_bracket(c),
{
    c == ')' || c == ']' || c == '}'
}

/// The position just after the group that opens at `a`, if it closes.
fn group_fwd_exec(buffer: &Buffer, a: usize) -> (r: Option<usize>)
    requires
        buffer.wf(),
        a < buffer@.len(),
        is_open_bracket(buffer@[a as int]),
    ensures
        match r {
            Some(x) => x == group_fwd(buffer@, a as int, 0),
            None => group_fwd(buffer@, a as int, 0) == -1,
        },
{
    let len = buffer.len();
    let mut depth: usize = 0;
    let mut l = a;
    loop
        invariant
            buffer.wf(),
            len == buffer@.len(),
            a <= l < len,
            is_open_bracket(buffer@[a as int]),
            depth <= l - a,
            l == a ==> depth == 0,
            l > a ==> depth >= 1,
            group_fwd(buffer@, a as int, 0) == group_fwd(buffer@, l as int, depth as int),
        decreases len - l,
    {
        let c = char_at(buffer, l);
        if is_open(c) {
            depth = depth + 1;
        } else if is_close(c) {
            depth = depth - 1;
        }
        l = l + 1;
        if depth == 0 {
            return Some(l);
        }
        if l == len {
            return None;
        }
    }
}

/// The position of the bracket that opens the group closing just before `a`.
fn group_bwd_exec(buffer: &Buffer, a: usize) -> (r: Option<usize>)
    requires
        buffer.wf(),
        0 < a <= buffer@.len(),
        is_close_bracket(buffer@[a - 1]),
    ensures
        match r {
            Some(x) => x == group_bwd(buffer@, a as int, 0),
            None => group_bwd(buffer@, a as int, 0) == -1,
        },
{
    let mut depth: usize = 0;
    let mut l = a;
    loop
        invariant
            buffer.wf(),
            0 < l <= a <= buffer@.len(),
            is_close_bracket(buffer@[a - 1]),
            depth <= a - l,
            l == a ==> depth == 0,
            l < a ==> depth >= 1,
            group_bwd(buffer@, a as int, 0) == group_bwd(buffer@, l as int, depth as int),
        decreases l,
    {
        let c = char_at(buffer, l - 1);
        if is_close(c) {
            depth = depth + 1;
        } else if is_open(c) {
            depth = depth - 1;
        }
        l = l - 1;
        if depth == 0 {
            return Some(l);
        }
        if l == 0 {
            return None;
        }
    }
}

/// The position `times` groups after `ret_location` (before, if
/// negative); a group is a bracketed group or a word.
pub fn forward_group(buffer: &Buffer, ret_location: usize, times: isize) -> (r: usize)
    requires
        buffer.wf(),
        times < 0 ==> ret_location <= buffer@.len(),
        times > 0 ==> ret_location < usize::MAX,
        buffer@.len() < usize::MAX,
    ensures
        r == forward_group_spec(buffer@, ret_location as int, times as int),
{
    let ghost t = buffer@;
    let mut ret = ret_location;
    let mut l = ret_location;
    if times < 0 {
        let mut k: isize = times;
        while k < 0
            invariant
                buffer.wf(),
                t == buffer@,
                t.len() < usize::MAX,
                times <= k <= 0,
                l <= t.len(),
                ret == l,
                forward_group_spec(t, ret_location as int, times as int) == groups_bwd(
                    t,
                    l as int,
                    ret as int,
                    (-k) as nat,
                ),
            decreases -k,
        {
            if l == 0 {
                return ret;
            }
            proof {
                lemma_skip_ws_bwd(t, l as int);
            }
            let mut a = l;
            while is_whitespace(char_at(buffer, a - 1))
                invariant
                    buffer.wf(),
                    t == buffer@,
                    0 < a <= l <= t.len(),
                    skip_ws_bwd(t, l as int) == skip_ws_bwd(t, a as int),
                    times <= k < 0,
                    ret == l,
                    forward_group_spec(t, ret_location as int, times as int) == groups_bwd(
                        t,
                        l as int,
                        ret as int,
                        (-k) as nat,
                    ),
                decreases a,
            {
                a = a - 1;
                if a == 0 {
                    return ret;
                }
            }
            let c = char_at(buffer, a - 1);
            if is_close(c) {
                proof {
                    lemma_group_bwd(t, a as int, 0);
                }
                match group_bwd_exec(buffer, a) {
                    Some(g) => {
                        l = g;
                    },
                    None => {
                        return ret;
                    },
                }
            } else if is_open(c) {
                return ret;
            } else {
                proof {
                    lemma_words(t, a as int);
                }
                l = word_move(buffer, a, -1, true);
            }
            ret = l;
            k = k + 1;
        }
    } else {
        let buffer_len = buffer.len();
        let mut k: isize = 0;
        while k < times
            invariant
                buffer.wf(),
                t == buffer@,
                buffer_len == t.len(),
                t.len() < usize::MAX,
                0 <= k <= times,
                k > 0 ==> l <= t.len(),
                times > 0 ==> l < usize::MAX,
                ret == l || k == 0,
                k == 0 ==> ret == ret_location && l == ret_location,
                forward_group_spec(t, ret_location as int, times as int) == groups_fwd(
                    t,
                    l as int,
                    ret as int,
                    (times - k) as nat,
                ),
            decreases times - k,
        {
            if l + 1 >= buffer_len {
                return ret;
            }
            proof {
                lemma_skip_ws_fwd(t, l as int);
            }
            let mut a = l;
            while is_whitespace(char_at(buffer, a))
                invariant
                    buffer.wf(),
                    t == buffer@,
                    buffer_len == t.len(),
                    l <= a < t.len(),
                    l + 1 < t.len(),
                    skip_ws_fwd(t, l as int) == skip_ws_fwd(t, a as int),
                    0 <= k < times,
                    forward_group_spec(t, ret_location as int, times as int) == groups_fwd(
                        t,
                        l as int,
                        ret as int,
                        (times - k) as nat,
                    ),
                decreases buffer_len - a,
            {
                a = a + 1;
                if a == buffer_len {
                    return ret;
                }
            }
            let c = char_at(buffer, a);
            if is_open(c) {
                proof {
                    lemma_group_fwd(t, a as int, 0);
                }
                match group_fwd_exec(buffer, a) {
                    Some(g) => {
                        l = g;
                    },
                    None => {
                        return ret;
                    },
                }
            } else if is_close(c) {
                return ret;
            } else {
                proof {
                    lemma_words(t, a as int);
                }
                l = word_move(buffer, a, 1, true);
            }
            ret = l;
            k = k + 1;
        }
    }
    l
}

/// Leaving `n` enclosing groups; where the start is reached first, the
/// move stops at the last group left, `ret`.
pub open spec fn ups(t: Seq<char>, loc: int, ret: int, n: nat) -> int
    decreases n,
{
    if n == 0 {
        loc
    } else if group_bwd(t, loc, 1) < 0 {
        ret
    } else {
        ups(t, group_bwd(t, loc, 1), group_bwd(t, loc, 1), (n - 1) as nat)
    }
}

/// No group is left from the very start of the text (which would read
/// before it).
pub open spec fn ups_ok(t: Seq<char>, loc: int, n: nat) -> bool
    decreases n,
{
    if n == 0 {
        true
    } else if loc <= 0 {
        false
    } else if group_bwd(t, loc, 1) < 0 {
        true
    } else {
        ups_ok(t, group_bwd(t, loc, 1), (n - 1) as nat)
    }
}

pub open spec fn up_group_spec(t: Seq<char>, loc: int, times: nat) -> int {
    if loc == 0 {
        loc
    } else {
        ups(t, loc, loc, times)
    }
}

/// The position of the bracket that opens the group `times` levels around
/// `location`.
pub fn up_group(buffer: &Buffer, location: usize, times: usize) -> (r: usize)
    requires
        buffer.wf(),
        location <= buffer@.len(),
        buffer@.len() < usize::MAX,
        location == 0 || ups_ok(buffer@, location as int, times as nat),
    ensures
        r == up_group_spec(buffer@, location as int, times as nat),
{
    let ghost t = buffer@;
    let mut l = location;
    let mut ret = location;
    if l == 0 {
        return ret;
    }
    let mut k: usize = 0;
    while k < times
        invariant
            buffer.wf(),
            t == buffer@,
            t.len() < usize::MAX,
            k <= times,
            l <= t.len(),
            ups_ok(t, l as int, (times - k) as nat),
            up_group_spec(t, location as int, times as nat) == ups(t, l as int, ret as int, (times - k) as nat),
        decreases times - k,
    {
        let mut depth: usize = 1;
        let mut found = false;
        let ghost l0 = l;
        proof {
            lemma_group_bwd(t, l as int, 1);
        }
        loop
            invariant_except_break
                !found,
                0 < l,
                1 <= depth <= 1 + (l0 - l),
                group_bwd(t, l0 as int, 1) == group_bwd(t, l as int, depth as int),
            invariant
                buffer.wf(),
                t == buffer@,
                t.len() < usize::MAX,
                l <= l0 <= t.len(),
            ensures
                found ==> l as int == group_bwd(t, l0 as int, 1),
                !found ==> group_bwd(t, l0 as int, 1) < 0,
                l <= t.len(),
            decreases l,
        {
            let c = char_at(buffer, l - 1);
            if is_close(c) {
                depth = depth + 1;
            } else if is_open(c) {
                depth = depth - 1;
            }
            l = l - 1;
            if depth == 0 {
                found = true;
                break;
            }
            if l == 0 {
                break;
            }
        }
        if !found {
            return ret;
        }
        ret = l;
        k = k + 1;
    }
    l
}

/// How much a character closes brackets: 1 for a closing bracket, -1 for
/// an opening one, 0 otherwise.
pub open spec fn closing(c: char) -> int {
    if is_close_bracket(c) {
        1
    } else if is_open_bracket(c) {
        -1
    } else {
        0
    }
}

/// The closing brackets less the opening brackets among `t[from..to]`.
pub open spec fn bracket_balance(t: Seq<char>, from: int, to: int) -> int
    decreases to - from,
{
    if to <= from {
        0
    } else {
        bracket_balance(t, from, to - 1) + closing(t[to - 1])
    }
}

/// The opening bracket at `p` encloses position `loc`: it comes before
/// `loc` and the group it opens is not closed before `loc` (every stretch
/// from it up to `loc` opens more brackets than it closes).
pub open spec fn encloses(t: Seq<char>, p: int, loc: int) -> bool {
    &&& 0 <= p < loc <= t.len()
    &&& is_open_bracket(t[p])
    &&& forall|q: int| p < q <= loc ==> #[trigger] bracket_balance(t, p, q) < 0
}

/// The balance of a stretch is the sum of the balances of its two parts.
proof fn lemma_balance_split(t: Seq<char>, a: int, b: int, c: int)
    requires
        a <= b <= c,
    ensures
        bracket_balance(t, a, c) == bracket_balance(t, a, b) + bracket_balance(t, b, c),
    decreases c - b,
{
    if c > b {
        lemma_balance_split(t, a, b, c - 1);
    }
}

/// Reading backward from `loc` at depth `depth` stops at the first place
/// where the depth, with the brackets read, comes to zero, which is an
/// opening bracket; where it does not stop, the depth never comes to zero.
proof fn lemma_group_bwd_balance(t: Seq<char>, loc: int, depth: int)
    requires
        0 <= loc <= t.len(),
        depth >= 1,
    ensures
        group_bwd(t, loc, depth) >= 0 ==> {
            let p = group_bwd(t, loc, depth);
            &&& 0 <= p < loc
            &&& is_open_bracket(t[p])
            &&& depth + bracket_balance(t, p, loc) == 0
            &&& forall|q: int| p < q <= loc ==> depth + #[trigger] bracket_balance(t, q, loc) >= 1
        },
        group_bwd(t, loc, depth) < 0 ==> forall|q: int|
            0 <= q <= loc ==> depth + #[trigger] bracket_balance(t, q, loc) >= 1,
    decreases loc,
{
    if loc > 0 {
        let c = depth_after_bwd(t[loc - 1], depth);
        assert(c == depth + closing(t[loc - 1]));
        assert forall|q: int| 0 <= q <= loc - 1 implies #[trigger] bracket_balance(t, q, loc) == bracket_balance(
            t,
            q,
            loc - 1,
        ) + closing(t[loc - 1]) by {}
        assert(bracket_balance(t, loc, loc) == 0);
        if c == 0 {
        } else if loc - 1 == 0 {
            assert(bracket_balance(t, 0, 0) == 0);
        } else {
            lemma_group_bwd_balance(t, loc - 1, c);
        }
    }
}

/// Enclosing is transitive: a bracket around one that encloses `loc`
/// encloses `loc` too.
proof fn lemma_encloses_trans(t: Seq<char>, a: int, b: int, c: int)
    requires
        encloses(t, a, b),
        encloses(t, b, c),
    ensures
        encloses(t, a, c),
{
    assert forall|q: int| a < q <= c implies #[trigger] bracket_balance(t, a, q) < 0 by {
        if q > b {
            lemma_balance_split(t, a, b, q);
            assert(bracket_balance(t, a, b) < 0);
            assert(bracket_balance(t, b, q) < 0);
        }
    }
}

/// The first bracket found going backward from `loc` is the innermost one
/// that encloses `loc`; where none is found, nothing encloses `loc`.
proof fn lemma_group_bwd_encloses(t: Seq<char>, loc: int)
    requires
        0 <= loc <= t.len(),
    ensures
        group_bwd(t, loc, 1) >= 0 ==> encloses(t, group_bwd(t, loc, 1), loc),
        forall|p: int| #[trigger] encloses(t, p, loc) ==> p <= group_bwd(t, loc, 1),
{
    lemma_group_bwd_balance(t, loc, 1);
    let g = group_bwd(t, loc, 1);
    if g >= 0 {
        assert forall|q: int| g < q <= loc implies #[trigger] bracket_balance(t, g, q) < 0 by {
            lemma_balance_split(t, g, q, loc);
            assert(1 + bracket_balance(t, q, loc) >= 1);
        }
    }
    assert forall|p: int| #[trigger] encloses(t, p, loc) implies p <= g by {
        assert(bracket_balance(t, p, loc) < 0);
        if p > g {
            assert(1 + bracket_balance(t, p, loc) >= 1);
        }
    }
}

/// Leaving `n` groups from `l` ends at `l` or at a bracket that encloses it.
proof fn lemma_ups_encloses(t: Seq<char>, l: int, n: nat)
    requires
        0 <= l <= t.len(),
    ensures
        ups(t, l, l, n) == l || encloses(t, ups(t, l, l, n), l),
    decreases n,
{
    if n > 0 && group_bwd(t, l, 1) >= 0 {
        let g = group_bwd(t, l, 1);
        lemma_group_bwd_encloses(t, l);
        lemma_ups_encloses(t, g, (n - 1) as nat);
        let r = ups(t, g, g, (n - 1) as nat);
        if r != g {
            lemma_encloses_trans(t, r, g, l);
        }
    }
}

/// Moving up out of groups from `loc` ends at `loc` itself or at an opening
/// bracket that encloses `loc`. Where some bracket encloses `loc`, a move of
/// at least one level leaves it, and a move of one level goes to the
/// innermost such bracket. Where none does, the cursor stays.
pub proof fn law_up_group_encloses(t: Seq<char>, loc: int, times: nat)
    requires
        0 <= loc <= t.len(),
    ensures
        up_group_spec(t, loc, times) == loc || encloses(t, up_group_spec(t, loc, times), loc),
        (forall|p: int| !#[trigger] encloses(t, p, loc)) ==> up_group_spec(t, loc, times) == loc,
        times > 0 && (exists|p: int| #[trigger] encloses(t, p, loc)) ==> encloses(
            t,
            up_group_spec(t, loc, times),
            loc,
        ),
        times == 1 ==> forall|p: int| #[trigger] encloses(t, p, loc) ==> p <= up_group_spec(t, loc, times),
{
    let r = up_group_spec(t, loc, times);
    if loc > 0 {
        lemma_ups_encloses(t, loc, times);
        lemma_group_bwd_encloses(t, loc);
    }
    if r != loc {
        assert(encloses(t, r, loc));
    }
    if times > 0 && (exists|p: int| #[trigger] encloses(t, p, loc)) {
        let p = choose|p: int| #[trigger] encloses(t, p, loc);
        let g = group_bwd(t, loc, 1);
        assert(g >= 0);
        lemma_group_bwd_balance(t, loc, 1);
        assert(r == ups(t, g, g, (times - 1) as nat));
        lemma_ups_encloses(t, g, (times - 1) as nat);
    }
    if times == 1 && loc > 0 {
        let g = group_bwd(t, loc, 1);
        reveal_with_fuel(ups, 2);
        assert forall|p: int| #[trigger] encloses(t, p, loc) implies p <= r by {
            assert(p <= g);
        }
    }
}

} // verus!
