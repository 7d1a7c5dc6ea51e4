//! Trusted view of the `ropey` rope that stores buffer content. The rope's
//! characters are named by `rope_text`; every wrapper states its effect on
//! that sequence, following what `ropey`'s documentation promises. The crate
//! is built with line breaks on `'\n'` alone, which is what the line
//! functions of `crate::model` count.

use vstd::prelude::*;

use crate::model::{line_count, line_of, line_start, raw_line};

verus! {

#[verifier::external_type_specification]
#[verifier::external_body]
pub struct ExRope(ropey::Rope);

/// Names the contents of a `ropey::Rope`: its characters in order.
pub uninterp spec fn rope_text(r: ropey::Rope) -> Seq<char>;

/// Relies on `ropey::Rope::from_str`: the rope holds exactly the characters
/// of `s`. A rope's character count is always reported as a `usize`.
#[verifier::external_body]
pub(crate) fn rope_from_str(s: &str) -> (r: ropey::Rope)
    ensures
        rope_text(r) == s@,
        rope_text(r).len() <= usize::MAX,
{
    ropey::Rope::from_str(s)
}

/// Relies on `ropey::Rope::len_chars`: the total number of characters.
#[verifier::external_body]
pub(crate) fn rope_len_chars(r: &ropey::Rope) -> (n: usize)
    ensures
        n as int == rope_text(*r).len(),
{
    r.len_chars()
}

/// Relies on `ropey::Rope::len_lines`: one more than the number of line
/// breaks, which here are `'\n'` characters alone.
#[verifier::external_body]
pub(crate) fn rope_len_lines(r: &ropey::Rope) -> (n: usize)
    ensures
        n as int == line_count(rope_text(*r)),
{
    r.len_lines()
}

/// Relies on `ropey::Rope::char_to_line`: the number of line breaks before
/// the given character offset.
#[verifier::external_body]
pub(crate) fn rope_char_to_line(r: &ropey::Rope, off: usize) -> (li: usize)
    requires
        off as int <= rope_text(*r).len(),
    ensures
        li as int == line_of(rope_text(*r), off as int),
{
    r.char_to_line(off)
}

/// Relies on `ropey::Rope::line_to_char`: the character offset of the first
/// character of the given line.
#[verifier::external_body]
pub(crate) fn rope_line_to_char(r: &ropey::Rope, li: usize) -> (off: usize)
    requires
        (li as int) < line_count(rope_text(*r)),
    ensures
        off as int == line_start(rope_text(*r), li as int),
{
    r.line_to_char(li)
}

/// Relies on `ropey::Rope::line`: the given line's characters, terminator
/// included.
#[verifier::external_body]
pub(crate) fn rope_line_chars(r: &ropey::Rope, li: usize) -> (v: Vec<char>)
    requires
        (li as int) < line_count(rope_text(*r)),
    ensures
        v@ == raw_line(rope_text(*r), li as int),
{
    r.line(li).chars().collect()
}

/// Relies on `ropey::Rope::chars`: all characters in order.
#[verifier::external_body]
pub(crate) fn rope_to_chars(r: &ropey::Rope) -> (v: Vec<char>)
    ensures
        v@ == rope_text(*r),
{
    r.chars().collect()
}

/// Relies on `ropey::Rope::insert`: inserts the string's characters at the
/// given character offset.
#[verifier::external_body]
pub(crate) fn rope_insert(r: &mut ropey::Rope, off: usize, s: &str)
    requires
        off as int <= rope_text(*old(r)).len(),
    ensures
        rope_text(*final(r)) == rope_text(*old(r)).subrange(0, off as int) + s@ + rope_text(
            *old(r),
        ).subrange(off as int, rope_text(*old(r)).len() as int),
        rope_text(*final(r)).len() <= usize::MAX,
{
    r.insert(off, s)
}

/// Relies on `ropey::Rope::remove`: removes the character range
/// `[start, end)`.
#[verifier::external_body]
pub(crate) fn rope_remove(r: &mut ropey::Rope, start: usize, end: usize)
    requires
        start <= end,
        end as int <= rope_text(*old(r)).len(),
    ensures
        rope_text(*final(r)) == rope_text(*old(r)).subrange(0, start as int) + rope_text(
            *old(r),
        ).subrange(end as int, rope_text(*old(r)).len() as int),
{
    r.remove(start..end)
}

} // verus!
