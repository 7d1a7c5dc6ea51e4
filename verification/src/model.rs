//! The mathematical model of buffer text: a sequence of characters split into
//! lines by `'\n'`. All contracts of the library speak in terms of these
//! functions.

use vstd::prelude::*;

use crate::cursor::TextPosition;
use crate::graphemes::{col_floor, grapheme_count, lemma_col_floor_from, lemma_col_floor_of_nth,
    lemma_gcount_le_len, lemma_nth_break_bounds, lemma_nth_in_range, nth_break};

verus! {

/// Number of `'\n'` characters among the first `i` characters of `s`.
pub open spec fn newlines_upto(s: Seq<char>, i: int) -> int
    decreases i,
{
    if i <= 0 {
        0
    } else {
        newlines_upto(s, i - 1) + if 0 <= i - 1 < s.len() && s[i - 1] == '\n' {
            1int
        } else {
            0int
        }
    }
}

/// Total number of lines: one more than the number of line breaks.
/// An empty text still has one (empty) line.
pub open spec fn line_count(s: Seq<char>) -> int {
    newlines_upto(s, s.len() as int) + 1
}

/// The line a character offset falls on: the number of breaks before it.
pub open spec fn line_of(s: Seq<char>, off: int) -> int {
    newlines_upto(s, off)
}

/// First position `j >= i` holding `'\n'`, or `s.len()` if there is none.
pub open spec fn scan_line_end(s: Seq<char>, i: int) -> int
    decreases s.len() - i when 0 <= i <= s.len()
{
    if i >= s.len() {
        s.len() as int
    } else if s[i] == '\n' {
        i
    } else {
        scan_line_end(s, i + 1)
    }
}

/// Character offset where line `li` starts: position 0, or one past the
/// break that ends the previous line.
pub open spec fn line_start(s: Seq<char>, li: int) -> int
    decreases li,
{
    if li <= 0 {
        0
    } else {
        scan_line_end(s, line_start(s, li - 1)) + 1
    }
}

/// Position of the break that ends line `li`, or `s.len()` for the last line.
pub open spec fn line_end(s: Seq<char>, li: int) -> int {
    scan_line_end(s, line_start(s, li))
}

/// Line `li` as stored, terminator included.
pub open spec fn raw_line(s: Seq<char>, li: int) -> Seq<char> {
    if line_end(s, li) < s.len() {
        s.subrange(line_start(s, li), line_end(s, li) + 1)
    } else {
        s.subrange(line_start(s, li), s.len() as int)
    }
}

/// Drop the trailing run of `'\r'` and `'\n'` characters.
pub open spec fn strip_line_breaks(l: Seq<char>) -> Seq<char>
    decreases l.len(),
{
    if l.len() > 0 && (l.last() == '\n' || l.last() == '\r') {
        strip_line_breaks(l.drop_last())
    } else {
        l
    }
}

/// Line `li` as shown: the stored line with its terminator stripped.
pub open spec fn visible_line(s: Seq<char>, li: int) -> Seq<char> {
    strip_line_breaks(raw_line(s, li))
}

pub proof fn lemma_newlines_upto_bounds(s: Seq<char>, i: int)
    ensures
        0 <= newlines_upto(s, i),
        newlines_upto(s, i) <= if i <= 0 { 0int } else { i },
    decreases i,
{
    if i > 0 {
        lemma_newlines_upto_bounds(s, i - 1);
    }
}

/// Counting breaks is monotone, and grows by at most the distance.
pub proof fn lemma_newlines_upto_monotone(s: Seq<char>, i: int, j: int)
    requires
        i <= j,
    ensures
        newlines_upto(s, i) <= newlines_upto(s, j),
        newlines_upto(s, j) - newlines_upto(s, i) <= j - i,
    decreases j - i,
{
    if i < j {
        lemma_newlines_upto_monotone(s, i, j - 1);
    }
}

/// If there is no break in `[i, j)`, the count does not change.
pub proof fn lemma_newlines_upto_same(s: Seq<char>, i: int, j: int)
    requires
        0 <= i <= j,
        forall|k: int| i <= k < j ==> !(0 <= k < s.len() && s[k] == '\n'),
    ensures
        newlines_upto(s, j) == newlines_upto(s, i),
    decreases j - i,
{
    if i < j {
        lemma_newlines_upto_same(s, i, j - 1);
    }
}

pub proof fn lemma_scan_line_end(s: Seq<char>, i: int)
    requires
        0 <= i <= s.len(),
    ensures
        i <= scan_line_end(s, i) <= s.len(),
        forall|k: int| i <= k < scan_line_end(s, i) ==> s[k] != '\n',
        scan_line_end(s, i) < s.len() ==> s[scan_line_end(s, i)] == '\n',
    decreases s.len() - i,
{
    if i < s.len() && s[i] != '\n' {
        lemma_scan_line_end(s, i + 1);
    }
}

/// Line starts are in range and sit right after exactly `li` breaks.
pub proof fn lemma_line_start(s: Seq<char>, li: int)
    requires
        0 <= li < line_count(s),
    ensures
        0 <= line_start(s, li) <= s.len(),
        newlines_upto(s, line_start(s, li)) == li,
        li > 0 ==> line_start(s, li) >= 1 && s[line_start(s, li) - 1] == '\n',
    decreases li,
{
    if li == 0 {
    } else {
        lemma_line_count_bound(s, li - 1);
        lemma_line_start(s, li - 1);
        let p = line_start(s, li - 1);
        let e = scan_line_end(s, p);
        lemma_scan_line_end(s, p);
        lemma_newlines_upto_same(s, p, e);
        // e < s.len(): otherwise line li - 1 would be the last line.
        if e == s.len() {
            assert(newlines_upto(s, s.len() as int) == li - 1);
            assert(line_count(s) == li);
            assert(false);
        }
        assert(newlines_upto(s, e + 1) == newlines_upto(s, e) + 1);
    }
}

/// If line `li` is not the last line, lines `0..=li` all exist.
pub proof fn lemma_line_count_bound(s: Seq<char>, li: int)
    requires
        0 <= li,
        li + 1 < line_count(s) + 1,
    ensures
        li < line_count(s),
{
}

/// Every offset within a line's span is assigned to that line.
pub proof fn lemma_line_of_in_line(s: Seq<char>, li: int, off: int)
    requires
        0 <= li < line_count(s),
        line_start(s, li) <= off <= line_end(s, li),
    ensures
        line_of(s, off) == li,
{
    lemma_line_start(s, li);
    lemma_scan_line_end(s, line_start(s, li));
    lemma_newlines_upto_same(s, line_start(s, li), off);
}

/// Conversely, each offset lies in the span of its own line.
pub proof fn lemma_line_of_bounds(s: Seq<char>, off: int)
    requires
        0 <= off <= s.len(),
    ensures
        0 <= line_of(s, off) < line_count(s),
        line_start(s, line_of(s, off)) <= off <= line_end(s, line_of(s, off)),
{
    let li = line_of(s, off);
    lemma_newlines_upto_bounds(s, off);
    lemma_newlines_upto_monotone(s, off, s.len() as int);
    assert(0 <= li < line_count(s));
    lemma_line_start(s, li);
    let st = line_start(s, li);
    if st > off {
        // Then the break just before `st` lies at or after `off`.
        assert(s[st - 1] == '\n' || li == 0);
        if li == 0 {
            assert(st == 0);
            assert(false);
        } else {
            lemma_newlines_upto_monotone(s, off, st - 1);
            assert(newlines_upto(s, st) == newlines_upto(s, st - 1) + 1);
            assert(newlines_upto(s, st - 1) >= li);
            assert(false);
        }
    }
    let e = line_end(s, li);
    lemma_scan_line_end(s, st);
    if off > e {
        // The break at `e` would be counted before `off`.
        assert(e < s.len() && s[e] == '\n');
        lemma_newlines_upto_same(s, st, e);
        assert(newlines_upto(s, e + 1) == li + 1);
        lemma_newlines_upto_monotone(s, e + 1, off);
        assert(false);
    }
}

/// The visible line is a prefix of the stored line and holds no `'\n'`.
pub proof fn lemma_strip_prefix(l: Seq<char>)
    ensures
        strip_line_breaks(l).len() <= l.len(),
        strip_line_breaks(l) == l.subrange(0, strip_line_breaks(l).len() as int),
    decreases l.len(),
{
    if l.len() > 0 && (l.last() == '\n' || l.last() == '\r') {
        lemma_strip_prefix(l.drop_last());
        let v = strip_line_breaks(l);
        assert(l.drop_last().subrange(0, v.len() as int) =~= l.subrange(0, v.len() as int));
    } else {
        assert(l =~= l.subrange(0, l.len() as int));
    }
}

pub proof fn lemma_visible_line_shape(s: Seq<char>, li: int)
    requires
        0 <= li < line_count(s),
    ensures
        0 <= line_start(s, li),
        line_start(s, li) + visible_line(s, li).len() <= line_end(s, li) <= s.len(),
        visible_line(s, li) == s.subrange(
            line_start(s, li),
            line_start(s, li) + visible_line(s, li).len(),
        ),
        forall|k: int| 0 <= k < visible_line(s, li).len() ==> visible_line(s, li)[k] != '\n',
{
    let st = line_start(s, li);
    let e = line_end(s, li);
    lemma_line_start(s, li);
    lemma_scan_line_end(s, st);
    let raw = raw_line(s, li);
    let vis = visible_line(s, li);
    lemma_strip_prefix(raw);
    assert(vis == raw.subrange(0, vis.len() as int));
    if e < s.len() {
        // raw includes the final break; stripping removes at least that break.
        assert(raw.len() == e + 1 - st);
        assert(raw.last() == s[e]);
        assert(strip_line_breaks(raw) == strip_line_breaks(raw.drop_last()));
        lemma_strip_prefix(raw.drop_last());
        assert(vis == raw.drop_last().subrange(0, vis.len() as int));
        assert(vis.len() <= e - st);
    } else {
        assert(raw.len() == s.len() - st);
    }
    assert(vis =~= s.subrange(st, st + vis.len()));
    assert forall|k: int| 0 <= k < vis.len() implies vis[k] != '\n' by {
        assert(vis[k] == s[st + k]);
    }
}

/// Number of grapheme clusters on the visible part of line `li`: the unit
/// cursor columns are measured in.
pub open spec fn line_grapheme_count(s: Seq<char>, li: int) -> int {
    grapheme_count(visible_line(s, li))
}

/// Absolute character offset of grapheme column `col` on line `li`.
pub open spec fn col_offset(s: Seq<char>, li: int, col: int) -> int {
    line_start(s, li) + nth_break(visible_line(s, li), col)
}

/// The coordinate invariant every `TextPosition` must satisfy: the line
/// exists, the column is at most one past the last cluster, and the offset
/// is exactly what the line and column denote.
pub open spec fn pos_valid(s: Seq<char>, p: TextPosition) -> bool {
    &&& (p.line as int) < line_count(s)
    &&& (p.col as int) <= line_grapheme_count(s, p.line as int)
    &&& (p.offset as int) == col_offset(s, p.line as int, p.col as int)
}

/// The canonical position for a character offset: its line, the widest
/// grapheme column that ends at or before it on that line, and the offset of
/// that column (the offset itself whenever it sits on a cluster boundary).
pub open spec fn pos_of_offset(s: Seq<char>, off: int) -> TextPosition {
    let li = line_of(s, off);
    let rel = off - line_start(s, li);
    let v = visible_line(s, li);
    let col = col_floor(v, rel);
    TextPosition {
        line: li as usize,
        col: col as usize,
        offset: (line_start(s, li) + nth_break(v, col)) as usize,
    }
}

/// The canonical position of any in-range offset satisfies the coordinate
/// invariant and never lies past the given offset.
pub proof fn lemma_pos_of_offset_valid(s: Seq<char>, off: int)
    requires
        0 <= off <= s.len(),
        s.len() <= usize::MAX,
    ensures
        pos_valid(s, pos_of_offset(s, off)),
        pos_of_offset(s, off).offset <= off,
        pos_of_offset(s, off).line as int == line_of(s, off),
{
    let li = line_of(s, off);
    lemma_newlines_upto_bounds(s, s.len() as int);
    lemma_line_of_bounds(s, off);
    lemma_line_start(s, li);
    let st = line_start(s, li);
    let rel = off - st;
    let v = visible_line(s, li);
    lemma_visible_line_shape(s, li);
    lemma_gcount_le_len(v);
    lemma_nth_in_range(v, 0);
    lemma_col_floor_from(v, 0, rel);
    let col = col_floor(v, rel);
    lemma_nth_break_bounds(v, col);
    assert(0 <= li <= s.len());
    assert(0 <= col <= v.len());
    assert(0 <= st + nth_break(v, col) <= off);
}

/// A valid position's offset lies within the buffer, at or after its line's
/// start.
pub proof fn lemma_pos_valid_offset_bound(s: Seq<char>, p: TextPosition)
    requires
        pos_valid(s, p),
    ensures
        p.offset as int <= s.len(),
        line_start(s, p.line as int) <= p.offset as int,
{
    lemma_line_start(s, p.line as int);
    lemma_visible_line_shape(s, p.line as int);
    lemma_nth_break_bounds(visible_line(s, p.line as int), p.col as int);
}

/// Round-trip: converting a valid (line, column) pair to its offset and that
/// offset back to a position recovers the same line and column, and the
/// offset itself.
pub proof fn lemma_offset_round_trip(s: Seq<char>, li: int, col: int)
    requires
        0 <= li < line_count(s),
        0 <= col <= line_grapheme_count(s, li),
        s.len() <= usize::MAX,
    ensures
        pos_of_offset(s, col_offset(s, li, col)) == (TextPosition {
            line: li as usize,
            col: col as usize,
            offset: col_offset(s, li, col) as usize,
        }),
{
    let st = line_start(s, li);
    let v = visible_line(s, li);
    let off = col_offset(s, li, col);
    lemma_line_start(s, li);
    lemma_visible_line_shape(s, li);
    lemma_nth_in_range(v, col);
    lemma_line_of_in_line(s, li, off);
    lemma_col_floor_of_nth(v, col);
}

} // verus!
