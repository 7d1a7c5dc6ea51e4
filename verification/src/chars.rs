//! Trusted character classification and string building. Unicode character
//! properties live in std's tables; their results are named and everything
//! built on them is verified.

use vstd::prelude::*;

verus! {

/// Names the result of `char::is_whitespace` (the Unicode `White_Space`
/// property).
pub uninterp spec fn char_is_whitespace(c: char) -> bool;

/// Names the result of `char::is_alphanumeric` (Unicode `Alphabetic` or one
/// of the numeric general categories).
pub uninterp spec fn char_is_alphanumeric(c: char) -> bool;

/// Relies on `char::is_whitespace`: the result depends on the character
/// alone.
#[verifier::external_body]
pub(crate) fn is_whitespace_exec(c: char) -> (r: bool)
    ensures
        r == char_is_whitespace(c),
{
    c.is_whitespace()
}

/// Relies on `char::is_alphanumeric`: the result depends on the character
/// alone.
#[verifier::external_body]
pub(crate) fn is_alphanumeric_exec(c: char) -> (r: bool)
    ensures
        r == char_is_alphanumeric(c),
{
    c.is_alphanumeric()
}

/// Relies on `String`'s `FromIterator<char>`: the collected string holds
/// exactly the given characters in order.
#[verifier::external_body]
pub(crate) fn chars_to_string(v: &Vec<char>) -> (s: String)
    ensures
        s@ == v@,
{
    v.iter().collect()
}

/// Relies on `char::to_string`: a one-character string holding exactly the
/// given character.
#[verifier::external_body]
pub(crate) fn char_to_string(c: char) -> (s: String)
    ensures
        s@ == seq![c],
{
    c.to_string()
}

} // verus!
