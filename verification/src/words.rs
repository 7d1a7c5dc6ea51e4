//! Word-motion scans. The vim-style word motions are built from a handful
//! of character scans; each spec function here states one scan exactly, and
//! each executable helper is proved to compute it. The motion targets are
//! the composition of the scans; the before/after tables in the tests pin
//! the intended boundary behavior.

use vstd::prelude::*;

use crate::chars::{char_is_whitespace, is_whitespace_exec};
use crate::cursor::{char_class_spec, get_char_class, CharClass};

verus! {

/// The class of the character at `i`, taking the end of the buffer as
/// whitespace.
pub open spec fn class_at(s: Seq<char>, i: int, big: bool) -> CharClass {
    if i < s.len() {
        char_class_spec(s[i], big)
    } else {
        CharClass::Whitespace
    }
}

/// First position at or after `off` whose character leaves class `c0` (or
/// the end of the text).
pub open spec fn skip_class_fwd(s: Seq<char>, off: int, c0: CharClass, big: bool) -> int
    decreases s.len() - off when 0 <= off <= s.len()
{
    if off >= s.len() || char_class_spec(s[off], big) != c0 {
        off
    } else {
        skip_class_fwd(s, off + 1, c0, big)
    }
}

/// Skip whitespace forward; crossing a line break onto indentation (a tab
/// or space right after the `'\n'`) stops there.
pub open spec fn skip_ws_fwd(s: Seq<char>, off: int, big: bool) -> int
    decreases s.len() - off when 0 <= off <= s.len()
{
    if off >= s.len() || !char_is_whitespace(s[off]) {
        off
    } else if s[off] == '\n' && off + 1 < s.len() && (s[off + 1] == '\t' || s[off + 1] == ' ') {
        off + 1
    } else {
        skip_ws_fwd(s, off + 1, big)
    }
}

/// Skip whitespace forward without crossing a line break.
pub open spec fn skip_ws_nolf(s: Seq<char>, off: int) -> int
    decreases s.len() - off when 0 <= off <= s.len()
{
    if off >= s.len() || !char_is_whitespace(s[off]) || s[off] == '\n' {
        off
    } else {
        skip_ws_nolf(s, off + 1)
    }
}

/// Extend over the run of class `c0` that follows `off`, stopping before a
/// line break.
pub open spec fn extend_run_fwd(s: Seq<char>, off: int, c0: CharClass, big: bool) -> int
    decreases s.len() - off when 0 <= off <= s.len()
{
    if off + 1 >= s.len() || s[off + 1] == '\n' || char_class_spec(s[off + 1], big) != c0 {
        off
    } else {
        extend_run_fwd(s, off + 1, c0, big)
    }
}

/// Extend over the run of class `c0` that follows `off` (line breaks stop
/// it only through their own class).
pub open spec fn extend_run_end(s: Seq<char>, off: int, c0: CharClass, big: bool) -> int
    decreases s.len() - off when 0 <= off <= s.len()
{
    if off + 1 >= s.len() || char_class_spec(s[off + 1], big) != c0 {
        off
    } else {
        extend_run_end(s, off + 1, c0, big)
    }
}

/// Where a forward word motion starting on `off0` lands, or `None` when it
/// would run off the end of the buffer: leave the current class run, skip
/// whitespace (stopping on indentation after a line break), extend over the
/// landed run, with a single trailing whitespace step after punctuation,
/// then step past a line break and, for big words, trailing blanks.
pub open spec fn word_fwd_target(s: Seq<char>, off0: int, big: bool) -> Option<int> {
    if off0 >= s.len() {
        None
    } else {
        let c0 = char_class_spec(s[off0], big);
        let o1 = skip_class_fwd(s, off0, c0, big);
        if o1 >= s.len() {
            None
        } else {
            let o2 = skip_ws_fwd(s, o1, big);
            if o2 >= s.len() {
                None
            } else {
                let lc = char_class_spec(s[o2], big);
                let o3 = if lc is Word {
                    let e = extend_run_fwd(s, o2, CharClass::Word, big);
                    if c0 is Punctuation && e + 1 < s.len() && s[e + 1] != '\n'
                        && char_class_spec(s[e + 1], big) is Whitespace {
                        e + 1
                    } else {
                        e
                    }
                } else if lc is Punctuation {
                    let e = extend_run_fwd(s, o2, CharClass::Punctuation, big);
                    if e + 1 < s.len() && s[e + 1] != '\n' && char_class_spec(
                        s[e + 1],
                        big,
                    ) is Whitespace {
                        e + 1
                    } else {
                        e
                    }
                } else {
                    o2
                };
                let o4 = if o3 < s.len() && s[o3] == '\n' && o3 + 1 < s.len() {
                    o3 + 1
                } else {
                    o3
                };
                let o5 = if big {
                    skip_ws_nolf(s, o4)
                } else {
                    o4
                };
                if o5 >= s.len() {
                    None
                } else {
                    Some(o5)
                }
            }
        }
    }
}

/// Where a forward word motion anchors a fresh selection: past the
/// starting class run and the whitespace after it, at the start of the
/// landed region. The leading run is not part of what gets selected.
pub open spec fn word_fwd_anchor(s: Seq<char>, off0: int, big: bool) -> int {
    skip_ws_fwd(s, skip_class_fwd(s, off0, char_class_spec(s[off0], big), big), big)
}

/// Scan back to the start of the run of class `c0` ending before `off`
/// (whitespace and line breaks stop the scan).
pub open spec fn scan_back_same(s: Seq<char>, off: int, c0: CharClass, big: bool) -> int
    decreases off when 0 <= off <= s.len()
{
    if off <= 0 || char_is_whitespace(s[off - 1]) || s[off - 1] == '\n' || char_class_spec(
        s[off - 1],
        big,
    ) != c0 {
        off
    } else {
        scan_back_same(s, off - 1, c0, big)
    }
}

/// Scan back over whitespace without crossing a line break.
pub open spec fn scan_back_ws(s: Seq<char>, off: int) -> int
    decreases off when 0 <= off <= s.len()
{
    if off <= 0 || !char_is_whitespace(s[off - 1]) || s[off - 1] == '\n' {
        off
    } else {
        scan_back_ws(s, off - 1)
    }
}

/// Characters a line-start punctuation scan recognizes as openers.
pub open spec fn is_opener(c: char) -> bool {
    c == '"' || c == '\'' || c == '(' || c == '[' || c == '{' || c == '<'
}

/// Scan back through a punctuation run looking for an opener; if none is
/// found before whitespace, a line break or another class, stay at `off0`.
pub open spec fn scan_opener(s: Seq<char>, scan: int, off0: int, big: bool) -> int
    decreases scan when 0 <= scan < s.len()
{
    if scan <= 0 {
        off0
    } else if char_is_whitespace(s[scan]) || s[scan] == '\n' {
        off0
    } else if char_class_spec(s[scan], big) !is Punctuation {
        off0
    } else if is_opener(s[scan]) {
        scan
    } else {
        scan_opener(s, scan - 1, off0, big)
    }
}

/// Where a backward word motion starting on offset `off0` (column `col0`)
/// lands. In the middle of a word it goes to the word's start; on a word
/// start it crosses the boundary before it and scans to the start of what
/// it lands on, with special cases for single blanks between runs and for
/// punctuation runs at a line start.
pub open spec fn word_back_target(s: Seq<char>, off0: int, col0: int, big: bool) -> int {
    let cur_cls = class_at(s, off0, big);
    let prev = s[off0 - 1];
    let prev_cls = char_class_spec(prev, big);
    let at_word_start = char_is_whitespace(prev) || prev == '\n' || (!big
        && cur_cls is Punctuation) || (cur_cls != prev_cls);
    if !at_word_start {
        if !big && cur_cls is Punctuation {
            off0
        } else {
            scan_back_same(s, off0, cur_cls, big)
        }
    } else {
        let o1 = off0 - 1;
        let o2 = if s[o1] == '\n' && o1 > 0 {
            o1 - 1
        } else {
            o1
        };
        let lc = char_class_spec(s[o2], big);
        if lc is Whitespace {
            let ws_start = o2;
            let o3 = scan_back_ws(s, o2);
            let ws_len = ws_start - o3 + 1;
            let at_line_beginning = o3 == 0 || s[o3 - 1] == '\n';
            if ws_len == 1 && !at_line_beginning && o3 > 0 {
                let o4 = o3 - 1;
                let nc = char_class_spec(s[o4], big);
                if nc is Word {
                    scan_back_same(s, o4, CharClass::Word, big)
                } else if nc is Punctuation && !big {
                    scan_back_same(s, o4, CharClass::Punctuation, big)
                } else {
                    o4
                }
            } else {
                o3
            }
        } else if lc is Punctuation {
            if col0 == 0 && !big {
                scan_opener(s, o2, o2, big)
            } else {
                scan_back_same(s, o2, CharClass::Punctuation, big)
            }
        } else {
            scan_back_same(s, o2, lc, big)
        }
    }
}

/// Where a word-end motion starting on offset `off0` lands, or `None` at
/// the end of the buffer: step one character, skip whitespace, then go to
/// the end of the landed class run.
pub open spec fn word_end_target(s: Seq<char>, off0: int, big: bool) -> Option<int> {
    if off0 >= s.len() {
        None
    } else if off0 + 1 >= s.len() {
        None
    } else {
        let o1 = off0 + 1;
        let o2 = skip_class_fwd(s, o1, CharClass::Whitespace, big);
        if o2 >= s.len() {
            None
        } else {
            let cc = char_class_spec(s[o2], big);
            Some(extend_run_end(s, o2, cc, big))
        }
    }
}

//
// Executable scans, each proved against its spec function.
//

pub(crate) fn scan_class_fwd_exec(chars: &Vec<char>, off: usize, c0: CharClass, big: bool) -> (r:
    usize)
    requires
        off <= chars@.len(),
    ensures
        r as int == skip_class_fwd(chars@, off as int, c0, big),
        off <= r <= chars@.len(),
{
    let ghost s = chars@;
    let mut off = off;
    let ghost off0 = off as int;
    while off < chars.len() && get_char_class(chars[off], big) == c0
        invariant
            off0 <= off as int && off as int <= s.len(),
            chars@ == s,
            skip_class_fwd(s, off as int, c0, big) == skip_class_fwd(s, off0, c0, big),
        decreases s.len() - off,
    {
        off = off + 1;
    }
    off
}

pub(crate) fn scan_ws_fwd_exec(chars: &Vec<char>, off: usize, big: bool) -> (r: usize)
    requires
        off <= chars@.len(),
    ensures
        r as int == skip_ws_fwd(chars@, off as int, big),
        off <= r <= chars@.len(),
{
    let ghost s = chars@;
    let mut off = off;
    let ghost off0 = off as int;
    let mut done: bool = false;
    while !done
        invariant
            off0 <= off as int && off as int <= s.len(),
            chars@ == s,
            !done ==> skip_ws_fwd(s, off as int, big) == skip_ws_fwd(s, off0, big),
            done ==> off as int == skip_ws_fwd(s, off0, big),
        decreases (if done {
            0int
        } else {
            1int
        }), s.len() - off,
    {
        if off >= chars.len() {
            done = true;
        } else if !is_whitespace_exec(chars[off]) {
            done = true;
        } else if chars[off] == '\n' && off + 1 < chars.len() && (chars[off + 1] == '\t' || chars[
            off + 1] == ' ') {
            off = off + 1;
            done = true;
        } else {
            off = off + 1;
        }
    }
    off
}

pub(crate) fn scan_ws_nolf_exec(chars: &Vec<char>, off: usize) -> (r: usize)
    requires
        off <= chars@.len(),
    ensures
        r as int == skip_ws_nolf(chars@, off as int),
        off <= r <= chars@.len(),
{
    let ghost s = chars@;
    let mut off = off;
    let ghost off0 = off as int;
    while off < chars.len() && is_whitespace_exec(chars[off]) && chars[off] != '\n'
        invariant
            off0 <= off as int && off as int <= s.len(),
            chars@ == s,
            skip_ws_nolf(s, off as int) == skip_ws_nolf(s, off0),
        decreases s.len() - off,
    {
        off = off + 1;
    }
    off
}

pub(crate) fn extend_run_fwd_exec(chars: &Vec<char>, off: usize, c0: CharClass, big: bool) -> (r:
    usize)
    requires
        (off as int) < chars@.len(),
    ensures
        r as int == extend_run_fwd(chars@, off as int, c0, big),
        off <= r < chars@.len(),
{
    let ghost s = chars@;
    let n = chars.len();
    let mut off = off;
    let ghost off0 = off as int;
    while off + 1 < n && chars[off + 1] != '\n' && get_char_class(chars[off + 1], big) == c0
        invariant
            n as int == s.len(),
            off0 <= off as int && (off as int) < s.len(),
            chars@ == s,
            extend_run_fwd(s, off as int, c0, big) == extend_run_fwd(s, off0, c0, big),
        decreases s.len() - off,
    {
        off = off + 1;
    }
    off
}

pub(crate) fn extend_run_end_exec(chars: &Vec<char>, off: usize, c0: CharClass, big: bool) -> (r:
    usize)
    requires
        (off as int) < chars@.len(),
    ensures
        r as int == extend_run_end(chars@, off as int, c0, big),
        off <= r < chars@.len(),
{
    let ghost s = chars@;
    let n = chars.len();
    let mut off = off;
    let ghost off0 = off as int;
    while off + 1 < n && get_char_class(chars[off + 1], big) == c0
        invariant
            n as int == s.len(),
            off0 <= off as int && (off as int) < s.len(),
            chars@ == s,
            extend_run_end(s, off as int, c0, big) == extend_run_end(s, off0, c0, big),
        decreases s.len() - off,
    {
        off = off + 1;
    }
    off
}

pub(crate) fn scan_back_same_exec(chars: &Vec<char>, off: usize, c0: CharClass, big: bool) -> (r:
    usize)
    requires
        off <= chars@.len(),
    ensures
        r as int == scan_back_same(chars@, off as int, c0, big),
        r <= off,
{
    let ghost s = chars@;
    let mut off = off;
    let ghost off0 = off as int;
    while off > 0 && !is_whitespace_exec(chars[off - 1]) && chars[off - 1] != '\n'
        && get_char_class(chars[off - 1], big) == c0
        invariant
            0 <= off as int && off as int <= off0,
            off0 <= s.len(),
            chars@ == s,
            scan_back_same(s, off as int, c0, big) == scan_back_same(s, off0, c0, big),
        decreases off,
    {
        off = off - 1;
    }
    off
}

pub(crate) fn scan_back_ws_exec(chars: &Vec<char>, off: usize) -> (r: usize)
    requires
        off <= chars@.len(),
    ensures
        r as int == scan_back_ws(chars@, off as int),
        r <= off,
{
    let ghost s = chars@;
    let mut off = off;
    let ghost off0 = off as int;
    while off > 0 && is_whitespace_exec(chars[off - 1]) && chars[off - 1] != '\n'
        invariant
            0 <= off as int && off as int <= off0,
            off0 <= s.len(),
            chars@ == s,
            scan_back_ws(s, off as int) == scan_back_ws(s, off0),
        decreases off,
    {
        off = off - 1;
    }
    off
}

fn is_opener_exec(c: char) -> (r: bool)
    ensures
        r == is_opener(c),
{
    c == '"' || c == '\'' || c == '(' || c == '[' || c == '{' || c == '<'
}

pub(crate) fn scan_opener_exec(chars: &Vec<char>, scan0: usize, off0: usize, big: bool) -> (r:
    usize)
    requires
        (scan0 as int) < chars@.len(),
        off0 <= chars@.len(),
    ensures
        r as int == scan_opener(chars@, scan0 as int, off0 as int, big),
        r <= chars@.len(),
{
    let ghost s = chars@;
    let mut scan = scan0;
    let mut res: usize = off0;
    let mut done: bool = false;
    while !done
        invariant
            0 <= scan as int && scan as int <= scan0 as int,
            (scan0 as int) < s.len(),
            off0 <= s.len(),
            chars@ == s,
            !done ==> scan_opener(s, scan as int, off0 as int, big) == scan_opener(
                s,
                scan0 as int,
                off0 as int,
                big,
            ),
            done ==> res as int == scan_opener(s, scan0 as int, off0 as int, big) && res
                <= s.len(),
        decreases (if done {
            0int
        } else {
            1int
        }), scan,
    {
        if scan == 0 {
            res = off0;
            done = true;
        } else if is_whitespace_exec(chars[scan]) || chars[scan] == '\n' {
            res = off0;
            done = true;
        } else if !matches!(get_char_class(chars[scan], big), CharClass::Punctuation) {
            res = off0;
            done = true;
        } else if is_opener_exec(chars[scan]) {
            res = scan;
            done = true;
        } else {
            scan = scan - 1;
        }
    }
    res
}

} // verus!
