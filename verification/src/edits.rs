//! Batched edits: one edit applied at every cursor of a set. Insertions are
//! applied in ascending offset order and deletions in descending order, so
//! that not-yet-processed offsets stay meaningful; afterwards every cursor
//! is placed at its canonical position and overlaps are merged.

use vstd::prelude::*;
use vstd::string::StrSliceExecFns;

use crate::buffer::Buffer;
use crate::chars::char_to_string;
use crate::cursor::Cursor;
use crate::model::{lemma_pos_of_offset_valid, lemma_pos_valid_offset_bound, pos_of_offset,
    pos_valid};
use crate::multi_cursor::{cursors_valid, lemma_merge_spec_props, merge_spec,
    offsets_sorted_strict, MultiCursor};
use crate::rope::{rope_insert, rope_remove};

verus! {

/// The active offsets of a cursor sequence, as integers.
pub open spec fn offsets_of(cs: Seq<Cursor>) -> Seq<int> {
    cs.map_values(|c: Cursor| c.active.offset as int)
}

/// `t` spliced into `s` at position `p`.
pub open spec fn ins_at(s: Seq<char>, p: int, t: Seq<char>) -> Seq<char> {
    s.subrange(0, p) + t + s.subrange(p, s.len() as int)
}

/// The text after the first `k` insertions of an ascending batch: the
/// `i`-th insertion lands at its cursor's original offset plus the length
/// already inserted before it.
pub open spec fn multi_insert_upto(s: Seq<char>, offs: Seq<int>, t: Seq<char>, k: int) -> Seq<char>
    decreases k,
{
    if k <= 0 {
        s
    } else {
        let prev = multi_insert_upto(s, offs, t, k - 1);
        ins_at(prev, offs[k - 1] + (k - 1) * t.len(), t)
    }
}

/// The text after inserting `t` at every offset of `offs`, in ascending
/// order.
pub open spec fn multi_insert(s: Seq<char>, offs: Seq<int>, t: Seq<char>) -> Seq<char> {
    multi_insert_upto(s, offs, t, offs.len() as int)
}

/// A collapsed cursor at the canonical position of `off` in `t1`, with the
/// sticky column set there.
pub open spec fn collapsed_at(t1: Seq<char>, off: int) -> Cursor {
    let np = pos_of_offset(t1, off);
    Cursor { active: np, anchor: np, preferred_column: Some(np.col) }
}

/// Where each cursor of an ascending insertion batch ends: one past its own
/// insertion, shifted by everything inserted up to and including it.
pub open spec fn inserted_cursors(t1: Seq<char>, offs: Seq<int>, l: int) -> Seq<Cursor> {
    Seq::new(offs.len(), |i: int| collapsed_at(t1, offs[i] + (i + 1) * l))
}

pub proof fn lemma_multi_insert_len(s: Seq<char>, offs: Seq<int>, t: Seq<char>, k: int)
    requires
        0 <= k,
        forall|i: int| 0 <= i < offs.len() ==> 0 <= #[trigger] offs[i] <= s.len(),
        k <= offs.len(),
    ensures
        multi_insert_upto(s, offs, t, k).len() == s.len() + k * t.len(),
    decreases k,
{
    if k > 0 {
        lemma_multi_insert_len(s, offs, t, k - 1);
        let prev = multi_insert_upto(s, offs, t, k - 1);
        assert(offs[k - 1] + (k - 1) * t.len() <= prev.len()) by (nonlinear_arith)
            requires
                prev.len() == s.len() + (k - 1) * t.len(),
                0 <= offs[k - 1] <= s.len(),
                t.len() >= 0,
                k >= 1,
        ;
        assert((k - 1) * t.len() >= 0) by (nonlinear_arith)
            requires
                k >= 1,
                t.len() >= 0,
        ;
        assert((k - 1) * t.len() + t.len() == k * t.len()) by (nonlinear_arith);
        let p = offs[k - 1] + (k - 1) * t.len();
        assert(multi_insert_upto(s, offs, t, k) == ins_at(prev, p, t));
        assert(prev.subrange(0, p).len() == p);
        assert(prev.subrange(p, prev.len() as int).len() == prev.len() - p);
        assert(ins_at(prev, p, t).len() == prev.len() + t.len());
        assert(multi_insert_upto(s, offs, t, k).len() == s.len() + k * t.len());
    } else {
        assert(multi_insert_upto(s, offs, t, k) == s);
        assert(k == 0);
        assert(k * t.len() == 0) by (nonlinear_arith)
            requires
                k == 0,
        ;
    }
}

/// Inserting `t` at the offsets one at a time, rightmost first, each at
/// its original offset (offsets to the left need no re-derivation, since
/// every earlier insertion lies to their right).
pub open spec fn desc_insert(s: Seq<char>, offs: Seq<int>, t: Seq<char>) -> Seq<char>
    decreases offs.len(),
{
    if offs.len() == 0 {
        s
    } else {
        desc_insert(ins_at(s, offs.last(), t), offs.drop_last(), t)
    }
}

/// Two insertions commute: splicing at `p2` and then at `p1 <= p2` equals
/// splicing at `p1` first and then at `p2` shifted by the spliced length.
pub proof fn lemma_ins_at_swap(m: Seq<char>, p1: int, p2: int, t: Seq<char>)
    requires
        0 <= p1 <= p2 <= m.len(),
    ensures
        ins_at(ins_at(m, p2, t), p1, t) == ins_at(ins_at(m, p1, t), p2 + t.len(), t),
{
    assert(ins_at(ins_at(m, p2, t), p1, t) =~= ins_at(ins_at(m, p1, t), p2 + t.len(), t));
}

/// The first `k` insertions only read the first `k` offsets.
pub proof fn lemma_multi_insert_prefix(
    s: Seq<char>,
    offs1: Seq<int>,
    offs2: Seq<int>,
    t: Seq<char>,
    k: int,
)
    requires
        0 <= k <= offs1.len(),
        k <= offs2.len(),
        forall|i: int| 0 <= i < k ==> offs1[i] == offs2[i],
    ensures
        multi_insert_upto(s, offs1, t, k) == multi_insert_upto(s, offs2, t, k),
    decreases k,
{
    if k > 0 {
        lemma_multi_insert_prefix(s, offs1, offs2, t, k - 1);
    }
}

/// An insertion beyond every batch offset commutes with the whole batch,
/// its own position shifting by everything the batch inserted.
pub proof fn lemma_insert_commute(s: Seq<char>, offs: Seq<int>, t: Seq<char>, o: int, k: int)
    requires
        0 <= k <= offs.len(),
        forall|i: int| 0 <= i < offs.len() ==> 0 <= #[trigger] offs[i] <= s.len(),
        forall|i: int| 0 <= i < offs.len() ==> #[trigger] offs[i] <= o,
        o <= s.len(),
    ensures
        multi_insert_upto(ins_at(s, o, t), offs, t, k) == ins_at(
            multi_insert_upto(s, offs, t, k),
            o + k * t.len(),
            t,
        ),
    decreases k,
{
    if k == 0 {
        assert(k * t.len() == 0) by (nonlinear_arith)
            requires
                k == 0,
        ;
    } else {
        lemma_insert_commute(s, offs, t, o, k - 1);
        let prev = multi_insert_upto(s, offs, t, k - 1);
        lemma_multi_insert_len(s, offs, t, k - 1);
        assert((k - 1) * t.len() >= 0) by (nonlinear_arith)
            requires
                k >= 1,
                t.len() >= 0,
        ;
        let p1 = offs[k - 1] + (k - 1) * t.len();
        let p2 = o + (k - 1) * t.len();
        lemma_ins_at_swap(prev, p1, p2, t);
        assert(k * t.len() == (k - 1) * t.len() + t.len()) by (nonlinear_arith);
        assert(multi_insert_upto(ins_at(s, o, t), offs, t, k) == ins_at(
            multi_insert_upto(ins_at(s, o, t), offs, t, k - 1),
            p1,
            t,
        ));
        assert(multi_insert_upto(ins_at(s, o, t), offs, t, k - 1) == ins_at(prev, p2, t));
    }
}

/// Ordering correctness: inserting the same text at an ascending batch of
/// offsets, left to right with shifted insertion points, yields the same
/// text as inserting one at a time from the rightmost offset to the
/// leftmost, re-deriving nothing (each original offset is still right).
pub proof fn lemma_insert_order_irrelevant(s: Seq<char>, offs: Seq<int>, t: Seq<char>)
    requires
        forall|i: int, j: int| 0 <= i < j < offs.len() ==> offs[i] < offs[j],
        forall|i: int| 0 <= i < offs.len() ==> 0 <= #[trigger] offs[i] <= s.len(),
    ensures
        multi_insert(s, offs, t) == desc_insert(s, offs, t),
    decreases offs.len(),
{
    if offs.len() > 0 {
        let n = offs.len() as int;
        let o = offs.last();
        let rest = offs.drop_last();
        let s1 = ins_at(s, o, t);
        assert(s1.len() == s.len() + t.len());
        assert forall|i: int, j: int| 0 <= i < j < rest.len() implies rest[i] < rest[j] by {
            assert(rest[i] == offs[i]);
            assert(rest[j] == offs[j]);
        }
        assert forall|i: int| 0 <= i < rest.len() implies 0 <= #[trigger] rest[i] <= s1.len()
            && rest[i] <= o && rest[i] <= s.len() by {
            assert(rest[i] == offs[i]);
            assert(offs[i] < offs[n - 1]);
        }
        lemma_insert_order_irrelevant(s1, rest, t);
        lemma_insert_commute(s, rest, t, o, n - 1);
        lemma_multi_insert_prefix(s, offs, rest, t, n - 1);
        assert(multi_insert(s, offs, t) == ins_at(
            multi_insert_upto(s, offs, t, n - 1),
            offs[n - 1] + (n - 1) * t.len(),
            t,
        ));
        assert(desc_insert(s, offs, t) == desc_insert(s1, rest, t));
        assert(multi_insert(s1, rest, t) == multi_insert_upto(ins_at(s, o, t), rest, t, n - 1));
    }
}

/// Positions and anchors survive a merge: every merged cursor is one of
/// the cursors that went in.
pub proof fn lemma_merged_valid(s: Seq<char>, pre: Seq<Cursor>)
    requires
        cursors_valid(s, pre),
    ensures
        cursors_valid(s, merge_spec(pre)),
{
    lemma_merge_spec_props(pre);
    assert forall|k: int| 0 <= k < merge_spec(pre).len() implies pos_valid(
        s,
        (#[trigger] merge_spec(pre)[k]).active,
    ) && pos_valid(s, merge_spec(pre)[k].anchor) by {
        let j0 = choose|j0: int| 0 <= j0 < pre.len() && pre[j0] == merge_spec(pre)[k];
        assert(merge_spec(pre)[k] == pre[j0]);
    }
}

/// Valid cursors have offsets within the text.
pub proof fn lemma_offsets_bounded(s: Seq<char>, cs: Seq<Cursor>)
    requires
        cursors_valid(s, cs),
    ensures
        forall|k: int| 0 <= k < cs.len() ==> 0 <= #[trigger] offsets_of(cs)[k] <= s.len(),
{
    assert forall|k: int| 0 <= k < cs.len() implies 0 <= #[trigger] offsets_of(cs)[k]
        <= s.len() by {
        lemma_pos_valid_offset_bound(s, cs[k].active);
    }
}

/// The cursors an insertion batch places are all valid.
pub proof fn lemma_inserted_cursors_valid(t1: Seq<char>, goffs: Seq<int>, l: int, base: int)
    requires
        l >= 0,
        t1.len() <= usize::MAX,
        t1.len() == base + goffs.len() * l,
        forall|k: int| 0 <= k < goffs.len() ==> 0 <= #[trigger] goffs[k] <= base,
    ensures
        cursors_valid(t1, inserted_cursors(t1, goffs, l)),
{
    let out = inserted_cursors(t1, goffs, l);
    assert forall|k: int| 0 <= k < out.len() implies pos_valid(t1, (#[trigger] out[k]).active)
        && pos_valid(t1, out[k].anchor) by {
        let n = goffs.len() as int;
        assert(0 <= (k + 1) * l <= n * l) by (nonlinear_arith)
            requires
                0 <= k + 1 <= n,
                l >= 0,
        ;
        lemma_pos_of_offset_valid(t1, goffs[k] + (k + 1) * l);
    }
}


/// `s` with the character range `[st, en)` removed.
pub open spec fn remove_range(s: Seq<char>, st: int, en: int) -> Seq<char> {
    s.subrange(0, st) + s.subrange(en, s.len() as int)
}

/// How removing `[st, en)` moves an offset: positions past the range shift
/// left by its length, positions inside it clamp to its start, positions
/// before it stay.
pub open spec fn shift_del(x: int, st: int, en: int) -> int {
    if x >= en {
        x - (en - st)
    } else if x > st {
        st
    } else {
        x
    }
}

pub open spec fn shift_all(offs: Seq<int>, st: int, en: int) -> Seq<int> {
    offs.map_values(|x: int| shift_del(x, st, en))
}

/// Shifting by a removal keeps offsets within the shortened text.
pub proof fn lemma_shift_del_bound(x: int, st: int, en: int, l: int)
    requires
        0 <= st <= en <= l,
        0 <= x <= l,
    ensures
        0 <= shift_del(x, st, en) <= l - (en - st),
{
}

/// Text and offsets after the first `k` steps of a descending backspace
/// batch: cursors are processed from the highest offset down; a cursor at
/// offset 0 is skipped, any other deletes the grapheme before it, and every
/// offset is shifted by the removal.
pub open spec fn backspace_fold(s0: Seq<char>, offs0: Seq<int>, k: int) -> (Seq<char>, Seq<int>)
    decreases k,
{
    if k <= 0 {
        (s0, offs0)
    } else {
        let prev = backspace_fold(s0, offs0, k - 1);
        let idx = offs0.len() - k;
        let off = prev.1[idx];
        if off == 0 {
            prev
        } else {
            let st = crate::graphemes::prev_break(prev.0, off);
            (remove_range(prev.0, st, off), shift_all(prev.1, st, off))
        }
    }
}

/// Whether the backspace batch touched cursor `i`: its offset was not 0
/// when its turn came.
pub open spec fn bs_touched(s0: Seq<char>, offs0: Seq<int>, i: int) -> bool {
    backspace_fold(s0, offs0, offs0.len() - 1 - i).1[i] != 0
}

/// Where a backspace batch leaves cursor `i`: collapsed at its final
/// offset, with the sticky column updated only if it actually deleted.
pub open spec fn bs_cursors(s0: Seq<char>, offs0: Seq<int>, sorted: Seq<Cursor>) -> Seq<Cursor> {
    Seq::new(
        offs0.len(),
        |i: int|
            {
                let fin = backspace_fold(s0, offs0, offs0.len() as int);
                let np = pos_of_offset(fin.0, fin.1[i]);
                Cursor {
                    active: np,
                    anchor: np,
                    preferred_column: if bs_touched(s0, offs0, i) {
                        Some(np.col)
                    } else {
                        sorted[i].preferred_column
                    },
                }
            },
    )
}

/// Text and offsets after the first `k` steps of a descending delete
/// batch: each cursor removes the grapheme under it (nothing at the buffer
/// end), and every offset is shifted by the removal.
pub open spec fn delete_fold(s0: Seq<char>, offs0: Seq<int>, k: int) -> (Seq<char>, Seq<int>)
    decreases k,
{
    if k <= 0 {
        (s0, offs0)
    } else {
        let prev = delete_fold(s0, offs0, k - 1);
        let idx = offs0.len() - k;
        let off = prev.1[idx];
        let en = crate::buffer::next_grapheme_spec(prev.0, off);
        (remove_range(prev.0, off, en), shift_all(prev.1, off, en))
    }
}

/// Where a delete batch leaves cursor `i`: collapsed at its final offset,
/// sticky column untouched.
pub open spec fn del_cursors(s0: Seq<char>, offs0: Seq<int>, sorted: Seq<Cursor>) -> Seq<Cursor> {
    Seq::new(
        offs0.len(),
        |i: int|
            {
                let fin = delete_fold(s0, offs0, offs0.len() as int);
                let np = pos_of_offset(fin.0, fin.1[i]);
                Cursor { active: np, anchor: np, preferred_column: sorted[i].preferred_column }
            },
    )
}

/// Anchor/active offset pairs after the first `k` steps of a descending
/// selection deletion: each cursor removes its inclusive selection (the
/// active end extended by one grapheme) and collapses to the range start;
/// both ends of every pair shift with each removal.
pub open spec fn del_sel_fold(s0: Seq<char>, pairs0: Seq<(int, int)>, k: int) -> (
    Seq<char>,
    Seq<(int, int)>,
)
    decreases k,
{
    if k <= 0 {
        (s0, pairs0)
    } else {
        let prev = del_sel_fold(s0, pairs0, k - 1);
        let idx = pairs0.len() - k;
        let pa = prev.1[idx].0;
        let pb = prev.1[idx].1;
        let lo = if pa <= pb {
            pa
        } else {
            pb
        };
        let hi = if pa <= pb {
            pb
        } else {
            pa
        };
        let en = crate::buffer::next_grapheme_spec(prev.0, hi);
        (
            remove_range(prev.0, lo, en),
            prev.1.map_values(
                |p: (int, int)| (shift_del(p.0, lo, en), shift_del(p.1, lo, en)),
            ),
        )
    }
}

/// Where a selection deletion leaves cursor `i`: its (shifted) anchor and
/// active pair turned back into positions; the edited cursor's own pair has
/// collapsed onto the start of what it removed.
pub open spec fn del_sel_cursors(
    s0: Seq<char>,
    pairs0: Seq<(int, int)>,
    sorted: Seq<Cursor>,
) -> Seq<Cursor> {
    Seq::new(
        pairs0.len(),
        |i: int|
            {
                let fin = del_sel_fold(s0, pairs0, pairs0.len() as int);
                Cursor {
                    anchor: pos_of_offset(fin.0, fin.1[i].0),
                    active: pos_of_offset(fin.0, fin.1[i].1),
                    preferred_column: sorted[i].preferred_column,
                }
            },
    )
}

/// The anchor/active offset pairs of a cursor sequence.
pub open spec fn pairs_of(cs: Seq<Cursor>) -> Seq<(int, int)> {
    cs.map_values(|c: Cursor| (c.anchor.offset as int, c.active.offset as int))
}

pub proof fn lemma_backspace_fold_len(s0: Seq<char>, offs0: Seq<int>, k: int)
    requires
        0 <= k,
    ensures
        backspace_fold(s0, offs0, k).1.len() == offs0.len(),
    decreases k,
{
    if k > 0 {
        lemma_backspace_fold_len(s0, offs0, k - 1);
    }
}

pub proof fn lemma_delete_fold_len(s0: Seq<char>, offs0: Seq<int>, k: int)
    requires
        0 <= k,
    ensures
        delete_fold(s0, offs0, k).1.len() == offs0.len(),
    decreases k,
{
    if k > 0 {
        lemma_delete_fold_len(s0, offs0, k - 1);
    }
}

pub proof fn lemma_del_sel_fold_len(s0: Seq<char>, pairs0: Seq<(int, int)>, k: int)
    requires
        0 <= k,
    ensures
        del_sel_fold(s0, pairs0, k).1.len() == pairs0.len(),
    decreases k,
{
    if k > 0 {
        lemma_del_sel_fold_len(s0, pairs0, k - 1);
    }
}

/// Every pair of a selection-deletion fold stays within the shrinking
/// text.
pub proof fn lemma_del_sel_fold_bounds(s0: Seq<char>, pairs0: Seq<(int, int)>, k: int)
    requires
        0 <= k <= pairs0.len(),
        forall|j: int|
            0 <= j < pairs0.len() ==> 0 <= (#[trigger] pairs0[j]).0 <= s0.len() && 0
                <= pairs0[j].1 <= s0.len(),
    ensures
        del_sel_fold(s0, pairs0, k).1.len() == pairs0.len(),
        forall|j: int|
            0 <= j < pairs0.len() ==> 0 <= (#[trigger] del_sel_fold(s0, pairs0, k).1[j]).0
                <= del_sel_fold(s0, pairs0, k).0.len() && 0 <= del_sel_fold(s0, pairs0, k).1[j].1
                <= del_sel_fold(s0, pairs0, k).0.len(),
    decreases k,
{
    if k > 0 {
        lemma_del_sel_fold_bounds(s0, pairs0, k - 1);
        let prev = del_sel_fold(s0, pairs0, k - 1);
        let idx = pairs0.len() - k;
        {
            let pa = prev.1[idx].0;
            let pb = prev.1[idx].1;
            let lo = if pa <= pb {
                pa
            } else {
                pb
            };
            let hi = if pa <= pb {
                pb
            } else {
                pa
            };
            let en = crate::buffer::next_grapheme_spec(prev.0, hi);
            if hi < prev.0.len() {
                crate::graphemes::lemma_next_break_bounds(prev.0, hi);
            }
            assert(lo <= en <= prev.0.len());
            let out = del_sel_fold(s0, pairs0, k);
            assert(out.0 =~= remove_range(prev.0, lo, en));
            assert(prev.0.subrange(0, lo).len() == lo);
            assert(out.0.len() == prev.0.len() - (en - lo));
            assert forall|j: int|
                0 <= j < pairs0.len() implies 0 <= (#[trigger] out.1[j]).0 <= out.0.len() && 0
                <= out.1[j].1 <= out.0.len() by {
                assert(out.1[j].0 == shift_del(prev.1[j].0, lo, en));
                assert(out.1[j].1 == shift_del(prev.1[j].1, lo, en));
                lemma_shift_del_bound(prev.1[j].0, lo, en, prev.0.len() as int);
                lemma_shift_del_bound(prev.1[j].1, lo, en, prev.0.len() as int);
            }
        }
    }
}

/// What an ascending insertion batch of text `t` leaves behind: the buffer
/// holds `multi_insert` of the sorted cursor offsets, and each cursor sits
/// collapsed one insertion past its own spot, duplicates merged.
pub open spec fn insert_post(
    b0: Buffer,
    m0: MultiCursor,
    t: Seq<char>,
    b1: Buffer,
    m1: MultiCursor,
) -> bool {
    let sorted = merge_spec(m0.cursors@);
    let offs = offsets_of(sorted);
    let t1 = multi_insert(b0.text(), offs, t);
    &&& b1.text() == t1
    &&& b1.name@ == b0.name@
    &&& b1.wf()
    &&& m1.cursors@ == merge_spec(inserted_cursors(t1, offs, t.len() as int))
    &&& offsets_sorted_strict(m1.cursors@)
    &&& m1.wf(t1)
    &&& exists|p1: int|
        0 <= p1 < sorted.len() && (#[trigger] sorted[p1]).active.offset
            == m0.cursors@[m0.primary_index as int].active.offset
            && m1.cursors@[m1.primary_index as int].active.offset == inserted_cursors(
            t1,
            offs,
            t.len() as int,
        )[p1].active.offset
}

pub open spec fn seq_ints(offs: Seq<usize>) -> Seq<int> {
    offs.map_values(|x: usize| x as int)
}

impl Buffer {
    /// Insert `s` at each offset in turn, left to right; each insertion
    /// point is shifted by what was already inserted before it.
    #[verifier::spinoff_prover]
    fn splice_all(&mut self, offs: &Vec<usize>, s: &str)
        requires
            old(self).wf(),
            forall|k: int|
                0 <= k < offs@.len() ==> (#[trigger] offs@[k]) as int <= old(self).text().len(),
        ensures
            final(self).text() == multi_insert(old(self).text(), seq_ints(offs@), s@),
            final(self).name@ == old(self).name@,
            final(self).wf(),
            final(self).text().len() == old(self).text().len() + offs@.len() * s@.len(),
    {
        let ghost s0 = self.text();
        let ghost goffs = seq_ints(offs@);
        let l = s.unicode_len();
        let n = offs.len();
        let mut shift: usize = 0;
        let mut i: usize = 0;
        while i < n
            invariant
                i <= n,
                n == goffs.len(),
                offs@.len() == n,
                goffs == seq_ints(offs@),
                forall|k: int| 0 <= k < n ==> 0 <= #[trigger] goffs[k] <= s0.len(),
                l as int == s@.len(),
                shift as int == (i as int) * (l as int),
                self.text() == multi_insert_upto(s0, goffs, s@, i as int),
                self.text().len() == s0.len() + (i as int) * (l as int),
                self.wf(),
                self.name@ == old(self).name@,
            decreases n - i,
        {
            proof {
                assert(goffs[i as int] + shift as int <= self.text().len());
            }
            let at = offs[i] + shift;
            rope_insert(&mut self.content, at, s);
            proof {
                assert(self.text() =~= multi_insert_upto(s0, goffs, s@, i as int + 1));
                assert((i as int + 1) * (l as int) == (i as int) * (l as int) + l as int)
                    by (nonlinear_arith);
            }
            shift = shift + l;
            i = i + 1;
        }
        proof {
            assert((n as int) * (l as int) == (n as int) * (s@.len() as int));
        }
    }

    /// Place cursor `k` collapsed at the canonical position of
    /// `offs[k] + (k + 1) * l` — one insertion past its own spot.
    #[verifier::spinoff_prover]
    fn place_cursors(&self, mc: &mut MultiCursor, offs: &Vec<usize>, l: usize)
        requires
            self.wf(),
            old(mc).cursors@.len() == offs@.len(),
            (old(mc).primary_index as int) < offs@.len(),
            forall|k: int|
                0 <= k < offs@.len() ==> 0 <= (#[trigger] offs@[k]) as int + (k + 1) * (l as int)
                    <= self.text().len(),
        ensures
            final(mc).cursors@ == inserted_cursors(self.text(), seq_ints(offs@), l as int),
            final(mc).primary_index == old(mc).primary_index,
            final(mc).cursors@.len() == offs@.len(),
    {
        let ghost t1 = self.text();
        let ghost goffs = seq_ints(offs@);
        let n = offs.len();
        let mut shift2: usize = 0;
        let mut j: usize = 0;
        while j < n
            invariant
                j <= n,
                n == goffs.len(),
                offs@.len() == n,
                goffs == seq_ints(offs@),
                forall|k: int|
                    0 <= k < n ==> 0 <= (#[trigger] offs@[k]) as int + (k + 1) * (l as int)
                        <= t1.len(),
                shift2 as int == (j as int) * (l as int),
                t1 == self.text(),
                self.wf(),
                mc.cursors@.len() == n,
                mc.primary_index == old(mc).primary_index,
                forall|k: int|
                    0 <= k < j ==> #[trigger] mc.cursors@[k] == inserted_cursors(
                        t1,
                        goffs,
                        l as int,
                    )[k],
            decreases n - j,
        {
            proof {
                assert((j as int + 1) * (l as int) == (j as int) * (l as int) + l as int)
                    by (nonlinear_arith);
                assert(goffs[j as int] + (j as int + 1) * (l as int) <= t1.len());
            }
            let off_new = offs[j] + shift2 + l;
            let np = self.position_for_offset(off_new);
            let nc = Cursor { active: np, anchor: np, preferred_column: Some(np.col) };
            mc.cursors.set(j, nc);
            proof {
                assert(mc.cursors@[j as int] == inserted_cursors(t1, goffs, l as int)[j as int]);
            }
            shift2 = shift2 + l;
            j = j + 1;
        }
        proof {
            assert(mc.cursors@ =~= inserted_cursors(t1, goffs, l as int));
        }
    }

    /// The ascending insertion protocol shared by every insert operation:
    /// sort the cursors by offset, insert left to right, place every cursor
    /// one insertion past its own spot, and merge overlaps.
    #[verifier::rlimit(100)]
    #[verifier::spinoff_prover]
    fn insert_batch(&mut self, mc: &mut MultiCursor, s: &str)
        requires
            old(self).wf(),
            old(mc).wf(old(self).text()),
        ensures
            insert_post(*old(self), *old(mc), s@, *final(self), *final(mc)),
    {
        let ghost s0 = self.text();
        let ghost cs0 = mc.cursors@;
        let l = s.unicode_len();
        mc.merge_overlapping();
        let ghost sorted = mc.cursors@;
        let ghost p1 = mc.primary_index as int;
        proof {
            lemma_merged_valid(s0, cs0);
            lemma_offsets_bounded(s0, sorted);
        }
        let ghost goffs = offsets_of(sorted);
        let n = mc.cursors.len();
        let mut offs: Vec<usize> = Vec::new();
        let mut i: usize = 0;
        while i < n
            invariant
                i <= n,
                n == mc.cursors@.len(),
                mc.cursors@ == sorted,
                goffs == offsets_of(sorted),
                offs@.len() == i,
                forall|k: int| 0 <= k < i ==> (#[trigger] offs@[k]) as int == goffs[k],
            decreases n - i,
        {
            let c = mc.cursors[i].position();
            offs.push(c.offset);
            i = i + 1;
        }
        proof {
            assert(seq_ints(offs@) =~= goffs);
        }
        self.splice_all(&offs, s);
        let ghost t1 = self.text();
        proof {
            assert(t1 == multi_insert(s0, goffs, s@));
            assert forall|k: int| 0 <= k < offs@.len() implies 0 <= (#[trigger] offs@[k]) as int
                + (k + 1) * (l as int) <= t1.len() by {
                assert((k + 1) * (l as int) <= (n as int) * (l as int) && 0 <= (k + 1) * (
                l as int)) by (nonlinear_arith)
                    requires
                        0 <= k + 1 <= n as int,
                        l as int >= 0,
                ;
            }
        }
        self.place_cursors(mc, &offs, l);
        let ghost pre = mc.cursors@;
        mc.merge_overlapping();
        proof {
            lemma_inserted_cursors_valid(t1, goffs, l as int, s0.len() as int);
            lemma_merged_valid(t1, pre);
        }
    }

    /// Insert one character at every cursor, ascending; each cursor ends
    /// just past its own insertion.
    pub fn insert_char(&mut self, mc: &mut MultiCursor, c: char)
        requires
            old(self).wf(),
            old(mc).wf(old(self).text()),
        ensures
            insert_post(*old(self), *old(mc), seq![c], *final(self), *final(mc)),
    {
        let s = char_to_string(c);
        self.insert_batch(mc, s.as_str())
    }

    /// Insert a string at every cursor, ascending; each cursor ends just
    /// past its own insertion.
    pub fn insert_text(&mut self, mc: &mut MultiCursor, s: &str)
        requires
            old(self).wf(),
            old(mc).wf(old(self).text()),
        ensures
            insert_post(*old(self), *old(mc), s@, *final(self), *final(mc)),
    {
        self.insert_batch(mc, s)
    }

    /// Insert a line break at every cursor, ascending; each cursor ends at
    /// the start of its new line.
    pub fn insert_newline(&mut self, mc: &mut MultiCursor)
        requires
            old(self).wf(),
            old(mc).wf(old(self).text()),
        ensures
            insert_post(*old(self), *old(mc), seq!['\n'], *final(self), *final(mc)),
    {
        proof {
            reveal_strlit("\n");
            assert("\n"@ =~= seq!['\n']);
        }
        self.insert_batch(mc, "\n")
    }
}

/// Apply `shift_del` to every entry.
fn shift_vec(offs: &mut Vec<usize>, st: usize, en: usize)
    requires
        st <= en,
    ensures
        final(offs)@.len() == old(offs)@.len(),
        forall|j: int|
            0 <= j < old(offs)@.len() ==> (#[trigger] final(offs)@[j]) as int == shift_del(
                old(offs)@[j] as int,
                st as int,
                en as int,
            ),
{
    let ghost v0 = offs@;
    let n = offs.len();
    let mut j: usize = 0;
    while j < n
        invariant
            j <= n,
            n == offs@.len(),
            v0.len() == n,
            st <= en,
            forall|k: int|
                0 <= k < j ==> (#[trigger] offs@[k]) as int == shift_del(
                    v0[k] as int,
                    st as int,
                    en as int,
                ),
            forall|k: int| j <= k < n ==> offs@[k] == v0[k],
        decreases n - j,
    {
        let x = offs[j];
        let v = if x >= en {
            x - (en - st)
        } else if x > st {
            st
        } else {
            x
        };
        offs.set(j, v);
        j = j + 1;
    }
}

impl Buffer {
    /// Backspace at every cursor, processed from the highest offset down:
    /// each cursor (except any at offset 0) removes the grapheme before it
    /// and lands where that grapheme started; all other offsets shift with
    /// each removal, and overlaps are merged.
    #[verifier::rlimit(100)]
    #[verifier::spinoff_prover]
    pub fn backspace(&mut self, mc: &mut MultiCursor)
        requires
            old(self).wf(),
            old(mc).wf(old(self).text()),
        ensures
            ({
                let s0 = old(self).text();
                let sorted = merge_spec(old(mc).cursors@);
                let offs = offsets_of(sorted);
                let fin = backspace_fold(s0, offs, offs.len() as int);
                &&& final(self).text() == fin.0
                &&& final(self).name@ == old(self).name@
                &&& final(self).wf()
                &&& final(mc).cursors@ == merge_spec(bs_cursors(s0, offs, sorted))
                &&& offsets_sorted_strict(final(mc).cursors@)
                &&& final(mc).wf(fin.0)
            }),
    {
        let ghost s0 = self.text();
        let ghost cs0 = mc.cursors@;
        mc.merge_overlapping();
        let ghost sorted = mc.cursors@;
        proof {
            lemma_merged_valid(s0, cs0);
            lemma_offsets_bounded(s0, sorted);
        }
        let ghost goffs = offsets_of(sorted);
        let n = mc.cursors.len();
        let mut offs: Vec<usize> = Vec::new();
        let mut touched: Vec<bool> = Vec::new();
        let mut i: usize = 0;
        while i < n
            invariant
                i <= n,
                n == mc.cursors@.len(),
                mc.cursors@ == sorted,
                goffs == offsets_of(sorted),
                offs@.len() == i,
                touched@.len() == i,
                forall|k: int| 0 <= k < i ==> (#[trigger] offs@[k]) as int == goffs[k],
                forall|k: int| 0 <= k < i ==> (#[trigger] touched@[k]) == false,
            decreases n - i,
        {
            let c = mc.cursors[i].position();
            offs.push(c.offset);
            touched.push(false);
            i = i + 1;
        }
        proof {
            assert(seq_ints(offs@) =~= goffs);
            assert(seq_ints(offs@) =~= backspace_fold(s0, goffs, 0).1);
        }
        let mut k: usize = 0;
        while k < n
            invariant
                k <= n,
                n == goffs.len(),
                offs@.len() == n,
                touched@.len() == n,
                self.wf(),
                self.name@ == old(self).name@,
                self.text() == backspace_fold(s0, goffs, k as int).0,
                seq_ints(offs@) == backspace_fold(s0, goffs, k as int).1,
                forall|j: int|
                    0 <= j < n ==> (#[trigger] offs@[j]) as int <= self.text().len(),
                forall|j: int|
                    n - k <= j < n ==> (#[trigger] touched@[j]) == bs_touched(s0, goffs, j),
                forall|j: int| 0 <= j < n - k ==> (#[trigger] touched@[j]) == false,
            decreases n - k,
        {
            let idx = n - 1 - k;
            let off = offs[idx];
            let ghost prev_text = self.text();
            let ghost prev_offs = seq_ints(offs@);
            proof {
                lemma_backspace_fold_len(s0, goffs, k as int);
                lemma_backspace_fold_len(s0, goffs, k as int + 1);
                assert(prev_offs[idx as int] == offs@[idx as int] as int);
                assert(bs_touched(s0, goffs, idx as int) == (off != 0));
            }
            if off != 0 {
                touched.set(idx, off != 0);
                let st = self.prev_grapheme_offset(off);
                proof {
                    crate::graphemes::lemma_prev_break_bounds(prev_text, off as int);
                }
                rope_remove(&mut self.content, st, off);
                let ghost v0 = offs@;
                shift_vec(&mut offs, st, off);
                proof {
                    assert(self.text() =~= remove_range(prev_text, st as int, off as int));
                    assert(seq_ints(offs@) =~= shift_all(prev_offs, st as int, off as int));
                    assert(self.text() == backspace_fold(s0, goffs, k as int + 1).0);
                    assert(seq_ints(offs@) == backspace_fold(s0, goffs, k as int + 1).1);
                    let dl = off as int - st as int;
                    assert(self.text().len() == prev_text.len() - dl);
                    assert forall|j: int|
                        0 <= j < n implies (#[trigger] offs@[j]) as int <= self.text().len() by {
                        assert(offs@[j] as int == shift_del(v0[j] as int, st as int, off as int));
                    }
                }
            } else {
                proof {
                    assert(backspace_fold(s0, goffs, k as int + 1) == backspace_fold(
                        s0,
                        goffs,
                        k as int,
                    ));
                }
            }
            k = k + 1;
        }
        let ghost fin = backspace_fold(s0, goffs, n as int);
        proof {
            lemma_backspace_fold_len(s0, goffs, n as int);
        }
        let ghost t1 = self.text();
        let ghost p1 = mc.primary_index as int;
        let mut j: usize = 0;
        while j < n
            invariant
                j <= n,
                n == mc.cursors@.len(),
                n == goffs.len(),
                offs@.len() == n,
                touched@.len() == n,
                t1 == self.text(),
                t1 == fin.0,
                fin.1.len() == n,
                self.wf(),
                seq_ints(offs@) == fin.1,
                fin == backspace_fold(s0, goffs, n as int),
                forall|x: int| 0 <= x < n ==> (#[trigger] offs@[x]) as int <= t1.len(),
                forall|x: int| 0 <= x < n ==> (#[trigger] touched@[x]) == bs_touched(s0, goffs, x),
                mc.primary_index as int == p1,
                p1 < n,
                forall|x: int|
                    0 <= x < j ==> #[trigger] mc.cursors@[x] == bs_cursors(s0, goffs, sorted)[x],
                forall|x: int| j <= x < n ==> #[trigger] mc.cursors@[x] == sorted[x],
            decreases n - j,
        {
            let c = mc.cursors[j];
            let np = self.position_for_offset(offs[j]);
            let pref = if touched[j] {
                Some(np.col)
            } else {
                c.preferred_column
            };
            mc.cursors.set(j, Cursor { active: np, anchor: np, preferred_column: pref });
            proof {
                assert(fin.1[j as int] == offs@[j as int] as int);
                assert(np == pos_of_offset(fin.0, fin.1[j as int]));
                assert(mc.cursors@[j as int] == bs_cursors(s0, goffs, sorted)[j as int]);
            }
            j = j + 1;
        }
        proof {
            assert(mc.cursors@ =~= bs_cursors(s0, goffs, sorted));
        }
        let ghost pre = mc.cursors@;
        mc.merge_overlapping();
        proof {
            assert forall|x: int| 0 <= x < pre.len() implies pos_valid(
                t1,
                (#[trigger] pre[x]).active,
            ) && pos_valid(t1, pre[x].anchor) by {
                lemma_pos_of_offset_valid(t1, fin.1[x]);
            }
            lemma_merged_valid(t1, pre);
        }
    }

    /// Delete the grapheme under every cursor, processed from the highest
    /// offset down (a cursor at the buffer end deletes nothing); every
    /// offset shifts with each removal, and overlaps are merged.
    #[verifier::rlimit(100)]
    #[verifier::spinoff_prover]
    pub fn delete(&mut self, mc: &mut MultiCursor)
        requires
            old(self).wf(),
            old(mc).wf(old(self).text()),
        ensures
            ({
                let s0 = old(self).text();
                let sorted = merge_spec(old(mc).cursors@);
                let offs = offsets_of(sorted);
                let fin = delete_fold(s0, offs, offs.len() as int);
                &&& final(self).text() == fin.0
                &&& final(self).name@ == old(self).name@
                &&& final(self).wf()
                &&& final(mc).cursors@ == merge_spec(del_cursors(s0, offs, sorted))
                &&& offsets_sorted_strict(final(mc).cursors@)
                &&& final(mc).wf(fin.0)
            }),
    {
        let ghost s0 = self.text();
        let ghost cs0 = mc.cursors@;
        mc.merge_overlapping();
        let ghost sorted = mc.cursors@;
        proof {
            lemma_merged_valid(s0, cs0);
            lemma_offsets_bounded(s0, sorted);
        }
        let ghost goffs = offsets_of(sorted);
        let n = mc.cursors.len();
        let mut offs: Vec<usize> = Vec::new();
        let mut i: usize = 0;
        while i < n
            invariant
                i <= n,
                n == mc.cursors@.len(),
                mc.cursors@ == sorted,
                goffs == offsets_of(sorted),
                offs@.len() == i,
                forall|k: int| 0 <= k < i ==> (#[trigger] offs@[k]) as int == goffs[k],
            decreases n - i,
        {
            let c = mc.cursors[i].position();
            offs.push(c.offset);
            i = i + 1;
        }
        proof {
            assert(seq_ints(offs@) =~= goffs);
            assert(seq_ints(offs@) =~= delete_fold(s0, goffs, 0).1);
        }
        let mut k: usize = 0;
        while k < n
            invariant
                k <= n,
                n == goffs.len(),
                offs@.len() == n,
                self.wf(),
                self.name@ == old(self).name@,
                self.text() == delete_fold(s0, goffs, k as int).0,
                seq_ints(offs@) == delete_fold(s0, goffs, k as int).1,
                forall|j: int|
                    0 <= j < n ==> (#[trigger] offs@[j]) as int <= self.text().len(),
            decreases n - k,
        {
            let idx = n - 1 - k;
            let off = offs[idx];
            let ghost prev_text = self.text();
            let ghost prev_offs = seq_ints(offs@);
            proof {
                lemma_delete_fold_len(s0, goffs, k as int);
                lemma_delete_fold_len(s0, goffs, k as int + 1);
                assert(prev_offs[idx as int] == offs@[idx as int] as int);
            }
            let en = self.next_grapheme_offset(off);
            rope_remove(&mut self.content, off, en);
            let ghost v0 = offs@;
            shift_vec(&mut offs, off, en);
            proof {
                assert(self.text() =~= remove_range(prev_text, off as int, en as int));
                assert(seq_ints(offs@) =~= shift_all(prev_offs, off as int, en as int));
                assert(self.text() == delete_fold(s0, goffs, k as int + 1).0);
                assert(seq_ints(offs@) == delete_fold(s0, goffs, k as int + 1).1);
                assert forall|j: int|
                    0 <= j < n implies (#[trigger] offs@[j]) as int <= self.text().len() by {
                    assert(offs@[j] as int == shift_del(v0[j] as int, off as int, en as int));
                }
            }
            k = k + 1;
        }
        let ghost fin = delete_fold(s0, goffs, n as int);
        proof {
            lemma_delete_fold_len(s0, goffs, n as int);
        }
        let ghost t1 = self.text();
        let ghost p1 = mc.primary_index as int;
        let mut j: usize = 0;
        while j < n
            invariant
                j <= n,
                n == mc.cursors@.len(),
                n == goffs.len(),
                offs@.len() == n,
                t1 == self.text(),
                t1 == fin.0,
                fin.1.len() == n,
                self.wf(),
                seq_ints(offs@) == fin.1,
                fin == delete_fold(s0, goffs, n as int),
                forall|x: int| 0 <= x < n ==> (#[trigger] offs@[x]) as int <= t1.len(),
                mc.primary_index as int == p1,
                p1 < n,
                forall|x: int|
                    0 <= x < j ==> #[trigger] mc.cursors@[x] == del_cursors(s0, goffs, sorted)[x],
                forall|x: int| j <= x < n ==> #[trigger] mc.cursors@[x] == sorted[x],
            decreases n - j,
        {
            let c = mc.cursors[j];
            let np = self.position_for_offset(offs[j]);
            mc.cursors.set(
                j,
                Cursor { active: np, anchor: np, preferred_column: c.preferred_column },
            );
            proof {
                assert(fin.1[j as int] == offs@[j as int] as int);
                assert(np == pos_of_offset(fin.0, fin.1[j as int]));
                assert(mc.cursors@[j as int] == del_cursors(s0, goffs, sorted)[j as int]);
            }
            j = j + 1;
        }
        proof {
            assert(mc.cursors@ =~= del_cursors(s0, goffs, sorted));
        }
        let ghost pre = mc.cursors@;
        mc.merge_overlapping();
        proof {
            assert forall|x: int| 0 <= x < pre.len() implies pos_valid(
                t1,
                (#[trigger] pre[x]).active,
            ) && pos_valid(t1, pre[x].anchor) by {
                lemma_pos_of_offset_valid(t1, fin.1[x]);
            }
            lemma_merged_valid(t1, pre);
        }
    }

    /// Delete every cursor's inclusive selection (the active end extended
    /// by one grapheme), processed from the highest active offset down;
    /// each cursor collapses to the start of what it removed, other pairs
    /// shift with each removal, and overlaps are merged.
    #[verifier::rlimit(100)]
    #[verifier::spinoff_prover]
    pub fn delete_selection(&mut self, mc: &mut MultiCursor)
        requires
            old(self).wf(),
            old(mc).wf(old(self).text()),
        ensures
            ({
                let s0 = old(self).text();
                let sorted = merge_spec(old(mc).cursors@);
                let pairs = pairs_of(sorted);
                let fin = del_sel_fold(s0, pairs, pairs.len() as int);
                &&& final(self).text() == fin.0
                &&& final(self).name@ == old(self).name@
                &&& final(self).wf()
                &&& final(mc).cursors@ == merge_spec(del_sel_cursors(s0, pairs, sorted))
                &&& offsets_sorted_strict(final(mc).cursors@)
                &&& final(mc).wf(fin.0)
            }),
    {
        let ghost s0 = self.text();
        let ghost cs0 = mc.cursors@;
        mc.merge_overlapping();
        let ghost sorted = mc.cursors@;
        proof {
            lemma_merged_valid(s0, cs0);
            assert forall|x: int| 0 <= x < sorted.len() implies 0 <= (
            #[trigger] pairs_of(sorted)[x]).0 <= s0.len() && 0 <= pairs_of(sorted)[x].1
                <= s0.len() by {
                lemma_pos_valid_offset_bound(s0, sorted[x].active);
                lemma_pos_valid_offset_bound(s0, sorted[x].anchor);
            }
        }
        let ghost gpairs = pairs_of(sorted);
        let n = mc.cursors.len();
        let mut anc: Vec<usize> = Vec::new();
        let mut act: Vec<usize> = Vec::new();
        let mut i: usize = 0;
        while i < n
            invariant
                i <= n,
                n == mc.cursors@.len(),
                mc.cursors@ == sorted,
                gpairs == pairs_of(sorted),
                anc@.len() == i,
                act@.len() == i,
                forall|k: int| 0 <= k < i ==> (#[trigger] anc@[k]) as int == gpairs[k].0,
                forall|k: int| 0 <= k < i ==> (#[trigger] act@[k]) as int == gpairs[k].1,
            decreases n - i,
        {
            let c = mc.cursors[i];
            anc.push(c.anchor.offset);
            act.push(c.active.offset);
            i = i + 1;
        }
        let mut k: usize = 0;
        while k < n
            invariant
                k <= n,
                n == gpairs.len(),
                anc@.len() == n,
                act@.len() == n,
                self.wf(),
                self.name@ == old(self).name@,
                self.text() == del_sel_fold(s0, gpairs, k as int).0,
                forall|j: int|
                    0 <= j < n ==> (#[trigger] anc@[j]) as int == del_sel_fold(
                        s0,
                        gpairs,
                        k as int,
                    ).1[j].0,
                forall|j: int|
                    0 <= j < n ==> (#[trigger] act@[j]) as int == del_sel_fold(
                        s0,
                        gpairs,
                        k as int,
                    ).1[j].1,
                forall|j: int|
                    0 <= j < gpairs.len() ==> 0 <= (#[trigger] gpairs[j]).0 <= s0.len() && 0
                        <= gpairs[j].1 <= s0.len(),
            decreases n - k,
        {
            let idx = n - 1 - k;
            proof {
                lemma_del_sel_fold_len(s0, gpairs, k as int);
                lemma_del_sel_fold_len(s0, gpairs, k as int + 1);
                lemma_del_sel_fold_bounds(s0, gpairs, k as int);
            }
            let pa = anc[idx];
            let pb = act[idx];
            let lo = if pa <= pb {
                pa
            } else {
                pb
            };
            let hi = if pa <= pb {
                pb
            } else {
                pa
            };
            let ghost prev_text = self.text();
            let ghost prev_anc = anc@;
            let ghost prev_act = act@;
            let en = self.next_grapheme_offset(hi);
            rope_remove(&mut self.content, lo, en);
            shift_vec(&mut anc, lo, en);
            shift_vec(&mut act, lo, en);
            proof {
                assert(self.text() =~= remove_range(prev_text, lo as int, en as int));
                assert(self.text() == del_sel_fold(s0, gpairs, k as int + 1).0);
                assert(prev_text.subrange(0, lo as int).len() == lo as int);
                assert(self.text().len() == prev_text.len() - (en as int - lo as int));
                assert forall|j: int|
                    0 <= j < n implies (#[trigger] anc@[j]) as int == del_sel_fold(
                    s0,
                    gpairs,
                    k as int + 1,
                ).1[j].0 && (#[trigger] act@[j]) as int == del_sel_fold(
                    s0,
                    gpairs,
                    k as int + 1,
                ).1[j].1 by {
                    assert(anc@[j] as int == shift_del(prev_anc[j] as int, lo as int, en as int));
                    assert(act@[j] as int == shift_del(prev_act[j] as int, lo as int, en as int));
                }
            }
            k = k + 1;
        }
        let ghost fin = del_sel_fold(s0, gpairs, n as int);
        proof {
            lemma_del_sel_fold_len(s0, gpairs, n as int);
        }
        let ghost t1 = self.text();
        let ghost p1 = mc.primary_index as int;
        let mut j: usize = 0;
        while j < n
            invariant
                j <= n,
                n == mc.cursors@.len(),
                n == gpairs.len(),
                anc@.len() == n,
                act@.len() == n,
                t1 == self.text(),
                t1 == fin.0,
                fin.1.len() == n,
                self.wf(),
                fin == del_sel_fold(s0, gpairs, n as int),
                forall|x: int| 0 <= x < n ==> (#[trigger] anc@[x]) as int == fin.1[x].0,
                forall|x: int| 0 <= x < n ==> (#[trigger] act@[x]) as int == fin.1[x].1,
                forall|x: int|
                    0 <= x < gpairs.len() ==> 0 <= (#[trigger] gpairs[x]).0 <= s0.len() && 0
                        <= gpairs[x].1 <= s0.len(),
                mc.primary_index as int == p1,
                p1 < n,
                forall|x: int|
                    0 <= x < j ==> #[trigger] mc.cursors@[x] == del_sel_cursors(
                        s0,
                        gpairs,
                        sorted,
                    )[x],
                forall|x: int| j <= x < n ==> #[trigger] mc.cursors@[x] == sorted[x],
            decreases n - j,
        {
            proof {
                lemma_del_sel_fold_bounds(s0, gpairs, n as int);
            }
            let c = mc.cursors[j];
            let na = self.position_for_offset(anc[j]);
            let nb = self.position_for_offset(act[j]);
            mc.cursors.set(
                j,
                Cursor { anchor: na, active: nb, preferred_column: c.preferred_column },
            );
            proof {
                assert(na == pos_of_offset(fin.0, fin.1[j as int].0));
                assert(nb == pos_of_offset(fin.0, fin.1[j as int].1));
                assert(mc.cursors@[j as int] == del_sel_cursors(s0, gpairs, sorted)[j as int]);
            }
            j = j + 1;
        }
        proof {
            assert(mc.cursors@ =~= del_sel_cursors(s0, gpairs, sorted));
        }
        let ghost pre = mc.cursors@;
        mc.merge_overlapping();
        proof {
            assert forall|x: int| 0 <= x < pre.len() implies pos_valid(
                t1,
                (#[trigger] pre[x]).active,
            ) && pos_valid(t1, pre[x].anchor) by {
                lemma_del_sel_fold_bounds(s0, gpairs, n as int);
                lemma_pos_of_offset_valid(t1, fin.1[x].0);
                lemma_pos_of_offset_valid(t1, fin.1[x].1);
            }
            lemma_merged_valid(t1, pre);
        }
    }
}

} // verus!
