//! The crate's only trusted boundary: four small wrappers around character
//! and string functions of std whose behaviour vstd does not specify.

use vstd::prelude::*;

verus! {

/// The Unicode alphanumeric class of a character; the result depends on the
/// character alone.
pub uninterp spec fn alphanumeric(c: char) -> bool;

/// The Unicode whitespace class of a character; the result depends on the
/// character alone.
pub uninterp spec fn whitespace(c: char) -> bool;

/// Relies on char::is_alphanumeric: the Unicode class of the character.
#[verifier::external_body]
pub fn char_is_alphanumeric(c: char) -> (r: bool)
    ensures
        r == alphanumeric(c),
{
    c.is_alphanumeric()
}

/// Relies on char::is_whitespace: the Unicode class of the character.
#[verifier::external_body]
pub fn char_is_whitespace(c: char) -> (r: bool)
    ensures
        r == whitespace(c),
{
    c.is_whitespace()
}

/// Relies on str::chars: it yields exactly the characters of the string, in
/// order.
#[verifier::external_body]
pub fn str_chars(s: &str) -> (r: Vec<char>)
    ensures
        r@ == s@,
{
    s.chars().collect()
}

/// Relies on String's FromIterator over characters: the collected string
/// holds exactly the characters handed to it, in order.
#[verifier::external_body]
pub fn string_from_chars(v: &Vec<char>) -> (r: String)
    ensures
        r@ == v@,
{
    v.iter().collect()
}

} // verus!
