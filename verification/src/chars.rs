use vstd::prelude::*;

verus! {

// Character classes of the language's surface syntax. Identifier characters
// cover ASCII letters, digits, underscore, and the Cyrillic letters in the
// two contiguous ranges U+0410..=U+042F and U+0430..=U+044F.

pub open spec fn spec_is_digit(c: char) -> bool {
    '0' <= c && c <= '9'
}

pub open spec fn spec_is_digit_or_dot(c: char) -> bool {
    spec_is_digit(c) || c == '.'
}

pub open spec fn spec_is_quote(c: char) -> bool {
    c == '"' || c == '\''
}

pub open spec fn spec_is_ident_start(c: char) -> bool {
    ||| c == '_'
    ||| ('a' <= c && c <= 'z')
    ||| ('A' <= c && c <= 'Z')
    ||| ('\u{0430}' <= c && c <= '\u{044F}')
    ||| ('\u{0410}' <= c && c <= '\u{042F}')
}

pub open spec fn spec_is_ident_continue(c: char) -> bool {
    spec_is_ident_start(c) || spec_is_digit(c)
}

/// Space, tab and carriage return are skipped by the scanner; the newline is
/// not among them, it produces a token of its own.
pub open spec fn spec_is_blank(c: char) -> bool {
    c == ' ' || c == '\t' || c == '\r'
}

#[verifier::when_used_as_spec(spec_is_digit_or_dot)]
pub fn is_digit_or_dot(c: char) -> (r: bool)
    ensures
        r == spec_is_digit_or_dot(c),
{
    ('0' <= c && c <= '9') || c == '.'
}

#[verifier::when_used_as_spec(spec_is_quote)]
pub fn is_quote(c: char) -> (r: bool)
    ensures
        r == spec_is_quote(c),
{
    c == '"' || c == '\''
}

#[verifier::when_used_as_spec(spec_is_ident_start)]
pub fn is_ident_start(c: char) -> (r: bool)
    ensures
        r == spec_is_ident_start(c),
{
    c == '_' || ('a' <= c && c <= 'z') || ('A' <= c && c <= 'Z')
        || ('\u{0430}' <= c && c <= '\u{044F}') || ('\u{0410}' <= c && c <= '\u{042F}')
}

#[verifier::when_used_as_spec(spec_is_ident_continue)]
pub fn is_ident_continue(c: char) -> (r: bool)
    ensures
        r == spec_is_ident_continue(c),
{
    is_ident_start(c) || ('0' <= c && c <= '9')
}

#[verifier::when_used_as_spec(spec_is_blank)]
pub fn is_blank(c: char) -> (r: bool)
    ensures
        r == spec_is_blank(c),
{
    c == ' ' || c == '\t' || c == '\r'
}

} // verus!
