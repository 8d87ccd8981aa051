use vstd::prelude::*;

verus! {

/// What `char::is_alphanumeric` answers for `c`.
pub uninterp spec fn spec_is_alphanumeric(c: char) -> bool;

/// What `char::is_whitespace` answers for `c`.
pub uninterp spec fn spec_is_whitespace(c: char) -> bool;

/// The Unicode general category `Cc` (control codes): U+0000 to U+001F
/// and U+007F to U+009F.
pub open spec fn spec_is_control(c: char) -> bool {
    c <= '\u{1f}' || ('\u{7f}' <= c && c <= '\u{9f}')
}

/// `char::is_alphanumeric`: whether `c` has the Unicode property
/// `Alphabetic` or a numeric general category. The contract names the
/// answer without stating the Unicode tables.
#[verifier::external_body]
pub(crate) fn is_alphanumeric(c: char) -> (r: bool)
    ensures
        r == spec_is_alphanumeric(c),
{
    c.is_alphanumeric()
}

/// `char::is_whitespace`: whether `c` has the Unicode `White_Space`
/// property. The contract names the answer without stating the table.
#[verifier::external_body]
pub(crate) fn is_whitespace(c: char) -> (r: bool)
    ensures
        r == spec_is_whitespace(c),
{
    c.is_whitespace()
}

/// Whether `c` is a control code: general category `Cc`, as
/// `char::is_control` answers.
pub(crate) fn is_control(c: char) -> (r: bool)
    ensures
        r == spec_is_control(c),
{
    c <= '\u{1f}' || ('\u{7f}' <= c && c <= '\u{9f}')
}

pub open spec fn is_open_bracket(c: char) -> bool {
    c == '(' || c == '[' || c == '{'
}

pub open spec fn is_close_bracket(c: char) -> bool {
    c == ')' || c == ']' || c == '}'
}

} // verus!
