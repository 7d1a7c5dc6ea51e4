//! Grapheme-cluster boundaries. What counts as a boundary is decided by the
//! `unicode-segmentation` crate; the library names that decision with the
//! uninterpreted function `grapheme_break` and builds every derived notion
//! (next/previous boundary, cluster count, column positions) on top of it by
//! ordinary recursion, so that the relations between them are proved, not
//! assumed.

use vstd::prelude::*;

verus! {

/// Names the result of `unicode_segmentation::GraphemeCursor::is_boundary`
/// (extended grapheme clusters) on the text `s` at character position `i`:
/// whether `i` is a grapheme-cluster boundary of `s`.
pub uninterp spec fn grapheme_break(s: Seq<char>, i: int) -> bool;

/// The first boundary strictly after `o` (or `s.len()`, which is always a
/// boundary, if no interior boundary follows).
pub open spec fn next_break(s: Seq<char>, o: int) -> int
    decreases s.len() - o when 0 <= o <= s.len()
{
    if o + 1 >= s.len() {
        s.len() as int
    } else if grapheme_break(s, o + 1) {
        o + 1
    } else {
        next_break(s, o + 1)
    }
}

/// The last boundary strictly before `o` (position 0 is always a boundary).
pub open spec fn prev_break(s: Seq<char>, o: int) -> int
    decreases o when 0 <= o <= s.len()
{
    if o <= 1 {
        0
    } else if grapheme_break(s, o - 1) {
        o - 1
    } else {
        prev_break(s, o - 1)
    }
}

pub proof fn lemma_next_break_bounds(s: Seq<char>, o: int)
    requires
        0 <= o <= s.len(),
    ensures
        o < s.len() ==> o < next_break(s, o) <= s.len(),
        o == s.len() ==> next_break(s, o) == s.len(),
        forall|j: int| o < j < next_break(s, o) ==> !grapheme_break(s, j),
        next_break(s, o) < s.len() ==> grapheme_break(s, next_break(s, o)),
    decreases s.len() - o,
{
    if o + 1 < s.len() && !grapheme_break(s, o + 1) {
        lemma_next_break_bounds(s, o + 1);
    }
}

pub proof fn lemma_prev_break_bounds(s: Seq<char>, o: int)
    requires
        0 < o <= s.len(),
    ensures
        0 <= prev_break(s, o) < o,
        forall|j: int| prev_break(s, o) < j < o ==> !grapheme_break(s, j),
        prev_break(s, o) > 0 ==> grapheme_break(s, prev_break(s, o)),
    decreases o,
{
    if o > 1 && !grapheme_break(s, o - 1) {
        lemma_prev_break_bounds(s, o - 1);
    }
}

/// A position with the "first boundary after `off`" properties is exactly
/// `next_break(s, off)`.
pub proof fn lemma_next_break_unique(s: Seq<char>, off: int, r: int)
    requires
        0 <= off < s.len(),
        off < r <= s.len(),
        forall|j: int| off < j < r ==> !grapheme_break(s, j),
        r < s.len() ==> grapheme_break(s, r),
    ensures
        next_break(s, off) == r,
    decreases r - off,
{
    if off + 1 >= s.len() {
    } else if grapheme_break(s, off + 1) {
        if r != off + 1 {
            assert(!grapheme_break(s, off + 1));
        }
    } else {
        if r == off + 1 {
            assert(false);
        }
        lemma_next_break_unique(s, off + 1, r);
    }
}

/// A position with the "last boundary before `off`" properties is exactly
/// `prev_break(s, off)`.
pub proof fn lemma_prev_break_unique(s: Seq<char>, off: int, r: int)
    requires
        0 < off <= s.len(),
        0 <= r < off,
        forall|j: int| r < j < off ==> !grapheme_break(s, j),
        r > 0 ==> grapheme_break(s, r),
    ensures
        prev_break(s, off) == r,
    decreases off,
{
    if off <= 1 {
    } else if grapheme_break(s, off - 1) {
        if r != off - 1 {
            assert(!grapheme_break(s, off - 1));
        }
    } else {
        if r == off - 1 {
            assert(false);
        }
        lemma_prev_break_unique(s, off - 1, r);
    }
}

/// Position just past the first `k` grapheme clusters of `s`.
pub open spec fn nth_break(s: Seq<char>, k: int) -> int
    decreases k,
{
    if k <= 0 {
        0
    } else {
        next_break(s, nth_break(s, k - 1))
    }
}

pub proof fn lemma_nth_break_bounds(s: Seq<char>, k: int)
    requires
        k >= 0,
    ensures
        0 <= nth_break(s, k) <= s.len(),
        nth_break(s, k) < s.len() ==> nth_break(s, k) >= k,
    decreases k,
{
    if k > 0 {
        lemma_nth_break_bounds(s, k - 1);
        lemma_next_break_bounds(s, nth_break(s, k - 1));
    }
}

/// Number of grapheme clusters from position `o` to the end.
pub open spec fn count_from(s: Seq<char>, o: int) -> int
    decreases s.len() - o when 0 <= o <= s.len() via count_from_decreases
{
    if o >= s.len() {
        0
    } else {
        1 + count_from(s, next_break(s, o))
    }
}

#[via_fn]
proof fn count_from_decreases(s: Seq<char>, o: int) {
    if o < s.len() {
        lemma_next_break_bounds(s, o);
    }
}

/// Number of grapheme clusters in `s`.
pub open spec fn grapheme_count(s: Seq<char>) -> int {
    count_from(s, 0)
}

pub proof fn lemma_count_from_nonneg(s: Seq<char>, o: int)
    requires
        0 <= o <= s.len(),
    ensures
        count_from(s, o) >= 0,
        o < s.len() ==> count_from(s, o) >= 1,
    decreases s.len() - o,
{
    if o < s.len() {
        lemma_next_break_bounds(s, o);
        lemma_count_from_nonneg(s, next_break(s, o));
    }
}

/// After `k` clusters, `count_from` has gone down by exactly `k`.
pub proof fn lemma_nth_count(s: Seq<char>, k: int)
    requires
        0 <= k <= grapheme_count(s),
    ensures
        0 <= nth_break(s, k) <= s.len(),
        count_from(s, nth_break(s, k)) == grapheme_count(s) - k,
    decreases k,
{
    lemma_count_from_nonneg(s, 0);
    if k > 0 {
        lemma_nth_count(s, k - 1);
        let p = nth_break(s, k - 1);
        assert(count_from(s, p) == grapheme_count(s) - (k - 1));
        assert(count_from(s, p) >= 1);
        assert(p < s.len());
        lemma_next_break_bounds(s, p);
    }
}

pub proof fn lemma_nth_in_range(s: Seq<char>, k: int)
    requires
        0 <= k <= grapheme_count(s),
    ensures
        0 <= nth_break(s, k) <= s.len(),
        k < grapheme_count(s) <==> nth_break(s, k) < s.len(),
        k == grapheme_count(s) <==> nth_break(s, k) == s.len(),
{
    lemma_nth_count(s, k);
    let p = nth_break(s, k);
    if p < s.len() {
        lemma_count_from_nonneg(s, p);
    }
}

/// Cluster-end positions strictly increase while clusters remain.
pub proof fn lemma_nth_monotone(s: Seq<char>, k1: int, k2: int)
    requires
        0 <= k1 <= k2 <= grapheme_count(s),
    ensures
        nth_break(s, k1) <= nth_break(s, k2),
        k1 < k2 ==> nth_break(s, k1) < nth_break(s, k2),
    decreases k2 - k1,
{
    if k1 < k2 {
        lemma_nth_monotone(s, k1, k2 - 1);
        lemma_nth_in_range(s, k2 - 1);
        lemma_next_break_bounds(s, nth_break(s, k2 - 1));
    }
}

/// The column (number of whole clusters) that fits within `rel` characters,
/// counting from position `o`.
pub open spec fn col_floor_from(s: Seq<char>, o: int, rel: int) -> int
    decreases s.len() - o when 0 <= o <= s.len() via col_floor_from_decreases
{
    if o >= s.len() || next_break(s, o) > rel {
        0
    } else {
        1 + col_floor_from(s, next_break(s, o), rel)
    }
}

#[via_fn]
proof fn col_floor_from_decreases(s: Seq<char>, o: int, rel: int) {
    if o < s.len() {
        lemma_next_break_bounds(s, o);
    }
}

/// The widest column whose end sits at or before `rel`.
pub open spec fn col_floor(s: Seq<char>, rel: int) -> int {
    col_floor_from(s, 0, rel)
}

/// Walking `col_floor_from` from the end of cluster `k` lands on the last
/// cluster end at or before `rel`.
pub proof fn lemma_col_floor_from(s: Seq<char>, k: int, rel: int)
    requires
        0 <= k <= grapheme_count(s),
        nth_break(s, k) <= rel,
    ensures
        ({
            let c = col_floor_from(s, nth_break(s, k), rel);
            &&& c >= 0
            &&& k + c <= grapheme_count(s)
            &&& nth_break(s, k + c) <= rel
            &&& (k + c < grapheme_count(s) ==> nth_break(s, k + c + 1) > rel)
        }),
    decreases grapheme_count(s) - k,
{
    let o = nth_break(s, k);
    lemma_nth_in_range(s, k);
    if o >= s.len() {
        assert(k == grapheme_count(s));
        assert(col_floor_from(s, o, rel) == 0);
    } else {
        assert(k < grapheme_count(s));
        assert(next_break(s, o) == nth_break(s, k + 1));
        if next_break(s, o) > rel {
            assert(col_floor_from(s, o, rel) == 0);
        } else {
            lemma_nth_in_range(s, k + 1);
            lemma_col_floor_from(s, k + 1, rel);
            assert(col_floor_from(s, o, rel) == 1 + col_floor_from(
                s,
                nth_break(s, k + 1),
                rel,
            ));
        }
    }
}

/// `col_floor` inverts `nth_break` on cluster boundaries.
pub proof fn lemma_col_floor_of_nth(s: Seq<char>, col: int)
    requires
        0 <= col <= grapheme_count(s),
    ensures
        col_floor(s, nth_break(s, col)) == col,
{
    let rel = nth_break(s, col);
    lemma_nth_in_range(s, 0);
    assert(nth_break(s, 0) == 0);
    lemma_nth_monotone(s, 0, col);
    lemma_col_floor_from(s, 0, rel);
    let c = col_floor(s, rel);
    if c < col {
        lemma_nth_monotone(s, c + 1, col);
        assert(nth_break(s, c + 1) <= rel);
        assert(c < grapheme_count(s));
        assert(false);
    }
    if c > col {
        lemma_nth_monotone(s, col + 1, c);
        lemma_nth_monotone(s, col, col + 1);
        assert(nth_break(s, c) > rel);
        assert(false);
    }
}

/// A text has at most as many grapheme clusters as characters.
pub proof fn lemma_gcount_le_len(s: Seq<char>)
    ensures
        0 <= grapheme_count(s) <= s.len(),
{
    lemma_count_from_nonneg(s, 0);
    let g = grapheme_count(s);
    if g >= 1 {
        lemma_nth_in_range(s, g - 1);
        lemma_nth_break_bounds(s, g - 1);
    }
}

/// Relies on `unicode_segmentation::GraphemeCursor::next_boundary` with the
/// whole string as one chunk: it returns the first grapheme boundary after
/// the given position.
#[verifier::external_body]
fn seg_next_boundary(chars: &Vec<char>, off: usize) -> (r: usize)
    requires
        (off as int) < chars@.len(),
    ensures
        off < r <= chars@.len(),
        grapheme_break(chars@, r as int),
        forall|j: int| off < j < r ==> !grapheme_break(chars@, j),
{
    let s: String = chars.iter().collect();
    let byte: usize = s.char_indices().nth(off).map(|(b, _)| b).unwrap();
    let mut cur = unicode_segmentation::GraphemeCursor::new(byte, s.len(), true);
    let next = cur.next_boundary(&s, 0).unwrap().unwrap();
    s[..next].chars().count()
}

/// Relies on `unicode_segmentation::GraphemeCursor::prev_boundary` with the
/// whole string as one chunk: it returns the last grapheme boundary before
/// the given position (position 0 counts as a boundary).
#[verifier::external_body]
fn seg_prev_boundary(chars: &Vec<char>, off: usize) -> (r: usize)
    requires
        0 < off,
        off <= chars@.len(),
    ensures
        r < off,
        grapheme_break(chars@, r as int),
        forall|j: int| (r as int) < j < off ==> !grapheme_break(chars@, j),
{
    let s: String = chars.iter().collect();
    let byte: usize = s.char_indices().nth(off).map(|(b, _)| b).unwrap_or(s.len());
    let mut cur = unicode_segmentation::GraphemeCursor::new(byte, s.len(), true);
    let prev = cur.prev_boundary(&s, 0).unwrap().unwrap();
    s[..prev].chars().count()
}

pub fn next_break_exec(chars: &Vec<char>, off: usize) -> (r: usize)
    requires
        (off as int) < chars@.len(),
    ensures
        r as int == next_break(chars@, off as int),
        off < r <= chars@.len(),
{
    let r = seg_next_boundary(chars, off);
    proof {
        lemma_next_break_unique(chars@, off as int, r as int);
    }
    r
}

pub fn prev_break_exec(chars: &Vec<char>, off: usize) -> (r: usize)
    requires
        0 < off,
        off <= chars@.len(),
    ensures
        r as int == prev_break(chars@, off as int),
        r < off,
{
    let r = seg_prev_boundary(chars, off);
    proof {
        lemma_prev_break_unique(chars@, off as int, r as int);
    }
    r
}

pub fn grapheme_count_exec(chars: &Vec<char>) -> (r: usize)
    ensures
        r as int == grapheme_count(chars@),
{
    let ghost s = chars@;
    proof {
        lemma_gcount_le_len(s);
    }
    let mut off: usize = 0;
    let mut cnt: usize = 0;
    while off < chars.len()
        invariant
            chars@ == s,
            0 <= cnt as int <= grapheme_count(s),
            nth_break(s, cnt as int) == off as int,
            off as int <= s.len(),
            grapheme_count(s) <= s.len(),
        decreases s.len() - off,
    {
        proof {
            lemma_nth_in_range(s, cnt as int);
        }
        let next = next_break_exec(chars, off);
        off = next;
        cnt = cnt + 1;
    }
    proof {
        lemma_nth_in_range(s, cnt as int);
    }
    cnt
}

pub fn nth_break_exec(chars: &Vec<char>, col: usize) -> (r: usize)
    requires
        col as int <= grapheme_count(chars@),
    ensures
        r as int == nth_break(chars@, col as int),
        r <= chars@.len(),
{
    let ghost s = chars@;
    let mut off: usize = 0;
    let mut k: usize = 0;
    while k < col
        invariant
            chars@ == s,
            k <= col,
            col as int <= grapheme_count(s),
            nth_break(s, k as int) == off as int,
            off as int <= s.len(),
        decreases col - k,
    {
        proof {
            lemma_nth_in_range(s, k as int);
            lemma_nth_monotone(s, k as int, col as int);
        }
        let next = next_break_exec(chars, off);
        off = next;
        k = k + 1;
    }
    proof {
        lemma_nth_break_bounds(s, col as int);
    }
    off
}

/// Returns the widest column ending at or before `rel`, together with the
/// character position where that column ends.
pub fn col_floor_exec(chars: &Vec<char>, rel: usize) -> (r: (usize, usize))
    ensures
        r.0 as int == col_floor(chars@, rel as int),
        r.1 as int == nth_break(chars@, r.0 as int),
        r.1 <= rel,
        r.1 <= chars@.len(),
        r.0 as int <= grapheme_count(chars@),
{
    let ghost s = chars@;
    proof {
        lemma_gcount_le_len(s);
    }
    let mut off: usize = 0;
    let mut col: usize = 0;
    let mut done: bool = false;
    while !done
        invariant
            chars@ == s,
            0 <= col as int <= grapheme_count(s),
            nth_break(s, col as int) == off as int,
            off as int <= s.len(),
            off <= rel,
            grapheme_count(s) <= s.len(),
            col_floor(s, rel as int) == col as int + col_floor_from(s, off as int, rel as int),
            done ==> (off as int >= s.len() || next_break(s, off as int) > rel as int),
        decreases (if done { 0int } else { 1int }), s.len() - off,
    {
        if off >= chars.len() {
            done = true;
        } else {
            proof {
                lemma_nth_in_range(s, col as int);
            }
            let next = next_break_exec(chars, off);
            if next > rel {
                done = true;
            } else {
                off = next;
                col = col + 1;
            }
        }
    }
    proof {
        if off as int >= s.len() {
            assert(col_floor_from(s, off as int, rel as int) == 0);
        } else {
            assert(col_floor_from(s, off as int, rel as int) == 0);
        }
    }
    (col, off)
}

} // verus!
