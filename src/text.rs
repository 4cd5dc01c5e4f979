use vstd::prelude::*;

verus! {

/// What `char::is_whitespace` answers for a character (Unicode `White_Space`).
pub uninterp spec fn white_space(c: char) -> bool;

/// What `char::is_alphabetic` answers for a character (Unicode `Alphabetic`).
pub uninterp spec fn alphabetic(c: char) -> bool;

pub open spec fn is_ascii_letter(c: char) -> bool {
    ('a' <= c && c <= 'z') || ('A' <= c && c <= 'Z')
}

pub open spec fn is_digit(c: char) -> bool {
    '0' <= c && c <= '9'
}

/// Relies on `char::is_whitespace`: the answer depends on the character alone;
/// the ASCII space and tab are white space, letters and digits are not.
#[verifier::external_body]
pub(crate) fn is_space(c: char) -> (r: bool)
    ensures
        r == white_space(c),
        c == ' ' || c == '\t' ==> r,
        is_ascii_letter(c) || is_digit(c) ==> !r,
{
    c.is_whitespace()
}

/// Relies on `char::is_alphabetic`: the answer depends on the character alone;
/// ASCII letters are alphabetic, ASCII digits and the space are not.
#[verifier::external_body]
pub(crate) fn is_alpha(c: char) -> (r: bool)
    ensures
        r == alphabetic(c),
        is_ascii_letter(c) ==> r,
        is_digit(c) || c == ' ' ==> !r,
{
    c.is_alphabetic()
}

/// Relies on `str::chars`: the characters of the text, in order.
#[verifier::external_body]
pub(crate) fn chars_of(s: &str) -> (r: Vec<char>)
    ensures
        r@ == s@,
{
    s.chars().collect()
}

/// Relies on `String`'s `FromIterator<char>`: the text of the characters, in order.
#[verifier::external_body]
pub(crate) fn string_of(v: &[char]) -> (r: String)
    ensures
        r@ == v@,
{
    v.iter().collect()
}

} // verus!
