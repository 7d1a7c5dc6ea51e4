//! An ordered collection of cursors editing one buffer together: broadcast
//! motions, overlap merging, and offset re-synchronization. The invariant
//! the merge maintains is that no two cursors share an active offset.

use vstd::prelude::*;

use crate::EditorMode;
use crate::buffer::Buffer;
use crate::cursor::{char_class_spec, clamp_pos, max_col_spec, vertical_target, Cursor, MoveOpts,
    TextPosition};
use crate::model::{col_offset, line_count, line_grapheme_count, pos_of_offset, pos_valid};
use crate::words::{word_back_target, word_end_target, word_fwd_target};

verus! {

/// Active offsets strictly increase along the sequence; in particular no
/// two cursors share one.
pub open spec fn offsets_sorted_strict(cs: Seq<Cursor>) -> bool {
    forall|i: int, j: int|
        0 <= i < j < cs.len() ==> cs[i].active.offset < cs[j].active.offset
}

/// All active offsets are pairwise distinct.
pub open spec fn offsets_distinct(cs: Seq<Cursor>) -> bool {
    forall|i: int, j: int|
        0 <= i < j < cs.len() ==> cs[i].active.offset != cs[j].active.offset
}

/// Insert `c` into the offset-sorted `res`: before the first cursor with a
/// larger offset, or nowhere if its offset is already present.
pub open spec fn merge_insert(res: Seq<Cursor>, c: Cursor) -> Seq<Cursor>
    decreases res.len(),
{
    if res.len() == 0 {
        seq![c]
    } else if c.active.offset < res[0].active.offset {
        seq![c] + res
    } else if c.active.offset == res[0].active.offset {
        res
    } else {
        seq![res[0]] + merge_insert(res.drop_first(), c)
    }
}

pub open spec fn merge_fold(cs: Seq<Cursor>, i: int) -> Seq<Cursor>
    decreases i,
{
    if i <= 0 {
        Seq::<Cursor>::empty()
    } else {
        merge_insert(merge_fold(cs, i - 1), cs[i - 1])
    }
}

/// What merging leaves: the cursors sorted by active offset, the first
/// occurrence of each offset kept, later duplicates dropped.
pub open spec fn merge_spec(cs: Seq<Cursor>) -> Seq<Cursor> {
    merge_fold(cs, cs.len() as int)
}

pub proof fn lemma_merge_insert_props(res: Seq<Cursor>, c: Cursor)
    requires
        offsets_sorted_strict(res),
    ensures
        offsets_sorted_strict(merge_insert(res, c)),
        res.len() <= merge_insert(res, c).len() <= res.len() + 1,
        forall|i: int|
            #![trigger merge_insert(res, c)[i]]
            0 <= i < merge_insert(res, c).len() ==> merge_insert(res, c)[i] == c || exists|j: int|
                0 <= j < res.len() && #[trigger] res[j] == merge_insert(res, c)[i],
        forall|j: int|
            #![trigger res[j]]
            0 <= j < res.len() ==> exists|i: int|
                0 <= i < merge_insert(res, c).len() && (#[trigger] merge_insert(
                    res,
                    c,
                )[i]).active.offset == res[j].active.offset,
        exists|i: int|
            0 <= i < merge_insert(res, c).len() && merge_insert(res, c)[i].active.offset
                == c.active.offset,
    decreases res.len(),
{
    let out = merge_insert(res, c);
    if res.len() == 0 {
        assert(out[0] == c);
    } else if c.active.offset < res[0].active.offset {
        assert(out[0] == c);
        assert forall|j: int| #![trigger res[j]] 0 <= j < res.len() implies exists|i: int|
            0 <= i < out.len() && (#[trigger] out[i]).active.offset == res[j].active.offset by {
            assert(out[j + 1] == res[j]);
        }
    } else if c.active.offset == res[0].active.offset {
        assert(out[0].active.offset == c.active.offset);
    } else {
        let tail = res.drop_first();
        assert(offsets_sorted_strict(tail)) by {
            assert forall|i: int, j: int|
                0 <= i < j < tail.len() implies tail[i].active.offset
                < tail[j].active.offset by {
                assert(tail[i] == res[i + 1]);
                assert(tail[j] == res[j + 1]);
            }
        }
        lemma_merge_insert_props(tail, c);
        let sub = merge_insert(tail, c);
        assert(out == seq![res[0]] + sub);
        // Every element of `sub` is `c` or from the tail, both with offsets
        // above `res[0]`'s.
        assert forall|i: int, j: int|
            0 <= i < j < out.len() implies out[i].active.offset < out[j].active.offset by {
            if i == 0 {
                assert(out[j] == sub[j - 1]);
                assert(sub[j - 1] == c || exists|k: int| 0 <= k < tail.len() && tail[k] == sub[j
                    - 1]);
                if sub[j - 1] != c {
                    let k = choose|k: int| 0 <= k < tail.len() && tail[k] == sub[j - 1];
                    assert(tail[k] == res[k + 1]);
                }
            } else {
                assert(out[i] == sub[i - 1]);
                assert(out[j] == sub[j - 1]);
            }
        }
        assert forall|i: int|
            #![trigger out[i]]
            0 <= i < out.len() implies out[i] == c || exists|j: int|
            0 <= j < res.len() && #[trigger] res[j] == out[i] by {
            if i == 0 {
                assert(res[0] == out[0]);
            } else {
                assert(out[i] == sub[i - 1]);
                if sub[i - 1] != c {
                    let k = choose|k: int| 0 <= k < tail.len() && tail[k] == sub[i - 1];
                    assert(res[k + 1] == out[i]);
                }
            }
        }
        assert forall|j: int| #![trigger res[j]] 0 <= j < res.len() implies exists|i: int|
            0 <= i < out.len() && (#[trigger] out[i]).active.offset == res[j].active.offset by {
            if j == 0 {
                assert(out[0].active.offset == res[0].active.offset);
            } else {
                let i0 = choose|i: int|
                    0 <= i < sub.len() && sub[i].active.offset == tail[j - 1].active.offset;
                assert(out[i0 + 1].active.offset == res[j].active.offset);
            }
        }
        let ic = choose|i: int| 0 <= i < sub.len() && sub[i].active.offset == c.active.offset;
        assert(out[ic + 1].active.offset == c.active.offset);
    }
}

/// Appending a cursor beyond every present offset is plain insertion at the
/// end.
pub proof fn lemma_merge_insert_append(res: Seq<Cursor>, c: Cursor)
    requires
        forall|i: int| 0 <= i < res.len() ==> res[i].active.offset < c.active.offset,
    ensures
        merge_insert(res, c) == res.push(c),
    decreases res.len(),
{
    if res.len() == 0 {
        assert(merge_insert(res, c) =~= res.push(c));
    } else {
        let tail = res.drop_first();
        lemma_merge_insert_append(tail, c);
        assert(merge_insert(res, c) =~= res.push(c));
    }
}

/// Inserting an offset that is already present changes nothing.
pub proof fn lemma_merge_insert_present(res: Seq<Cursor>, c: Cursor)
    requires
        offsets_sorted_strict(res),
        exists|j: int| 0 <= j < res.len() && res[j].active.offset == c.active.offset,
    ensures
        merge_insert(res, c) == res,
    decreases res.len(),
{
    let j = choose|j: int| 0 <= j < res.len() && res[j].active.offset == c.active.offset;
    if j == 0 {
    } else {
        assert(res[0].active.offset < res[j].active.offset);
        let tail = res.drop_first();
        assert(offsets_sorted_strict(tail)) by {
            assert forall|i: int, k: int|
                0 <= i < k < tail.len() implies tail[i].active.offset
                < tail[k].active.offset by {
                assert(tail[i] == res[i + 1]);
                assert(tail[k] == res[k + 1]);
            }
        }
        assert(tail[j - 1].active.offset == c.active.offset);
        lemma_merge_insert_present(tail, c);
        assert(merge_insert(res, c) =~= res);
    }
}

/// Merging depends only on the processed prefix.
pub proof fn lemma_merge_fold_prefix(cs1: Seq<Cursor>, cs2: Seq<Cursor>, i: int)
    requires
        0 <= i <= cs1.len(),
        i <= cs2.len(),
        forall|k: int| 0 <= k < i ==> cs1[k] == cs2[k],
    ensures
        merge_fold(cs1, i) == merge_fold(cs2, i),
    decreases i,
{
    if i > 0 {
        lemma_merge_fold_prefix(cs1, cs2, i - 1);
    }
}

/// The properties of a finished merge: sorted and duplicate-free offsets,
/// every cursor kept comes from the input, and every input offset is still
/// represented.
pub proof fn lemma_merge_spec_props(cs: Seq<Cursor>)
    ensures
        offsets_sorted_strict(merge_spec(cs)),
        merge_spec(cs).len() <= cs.len(),
        cs.len() >= 1 ==> merge_spec(cs).len() >= 1,
        forall|i: int|
            #![trigger merge_spec(cs)[i]]
            0 <= i < merge_spec(cs).len() ==> exists|j: int|
                0 <= j < cs.len() && #[trigger] cs[j] == merge_spec(cs)[i],
        forall|j: int|
            #![trigger cs[j]]
            0 <= j < cs.len() ==> exists|i: int|
                0 <= i < merge_spec(cs).len() && (#[trigger] merge_spec(cs)[i]).active.offset
                    == cs[j].active.offset,
{
    lemma_merge_fold_props(cs, cs.len() as int);
    let out = merge_fold(cs, cs.len() as int);
    assert(merge_spec(cs) == out);
    assert forall|j: int| #![trigger cs[j]] 0 <= j < cs.len() implies exists|i: int|
        0 <= i < merge_spec(cs).len() && (#[trigger] merge_spec(cs)[i]).active.offset
            == cs[j].active.offset by {
        let i0 = choose|i: int|
            0 <= i < out.len() && (#[trigger] out[i]).active.offset == cs[j].active.offset;
        assert(merge_spec(cs)[i0].active.offset == cs[j].active.offset);
    }
}

#[verifier::rlimit(100)]
#[verifier::spinoff_prover]
proof fn lemma_merge_fold_props(cs: Seq<Cursor>, n: int)
    requires
        0 <= n <= cs.len(),
    ensures
        offsets_sorted_strict(merge_fold(cs, n)),
        merge_fold(cs, n).len() <= n,
        n >= 1 ==> merge_fold(cs, n).len() >= 1,
        forall|i: int|
            #![trigger merge_fold(cs, n)[i]]
            0 <= i < merge_fold(cs, n).len() ==> exists|j: int|
                0 <= j < n && #[trigger] cs[j] == merge_fold(cs, n)[i],
        forall|j: int|
            #![trigger cs[j]]
            0 <= j < n ==> exists|i: int|
                0 <= i < merge_fold(cs, n).len() && (#[trigger] merge_fold(cs, n)[i]).active.offset
                    == cs[j].active.offset,
    decreases n,
{
    if n > 0 {
        lemma_merge_fold_props(cs, n - 1);
        let prev = merge_fold(cs, n - 1);
        lemma_merge_insert_props(prev, cs[n - 1]);
        let out = merge_fold(cs, n);
        assert forall|i: int| #![trigger out[i]] 0 <= i < out.len() implies exists|j: int|
            0 <= j < n && #[trigger] cs[j] == out[i] by {
            if out[i] == cs[n - 1] {
            } else {
                let k = choose|k: int| 0 <= k < prev.len() && prev[k] == out[i];
                let j = choose|j: int| 0 <= j < n - 1 && cs[j] == prev[k];
                assert(cs[j] == out[i]);
            }
        }
        assert forall|j: int| #![trigger cs[j]] 0 <= j < n implies exists|i: int|
            0 <= i < out.len() && (#[trigger] out[i]).active.offset == cs[j].active.offset by {
            if j == n - 1 {
            } else {
                let k = choose|k: int|
                    0 <= k < prev.len() && prev[k].active.offset == cs[j].active.offset;
                let i0 = choose|i0: int|
                    0 <= i0 < out.len() && out[i0].active.offset == prev[k].active.offset;
                assert(out[i0].active.offset == cs[j].active.offset);
            }
        }
    }
}

/// Merging an already-merged cursor sequence is a no-op.
pub proof fn lemma_merge_idempotent(cs: Seq<Cursor>)
    requires
        offsets_sorted_strict(cs),
    ensures
        merge_spec(cs) == cs,
{
    lemma_merge_fold_id(cs, cs.len() as int);
    assert(merge_spec(cs) =~= cs);
}

proof fn lemma_merge_fold_id(cs: Seq<Cursor>, n: int)
    requires
        offsets_sorted_strict(cs),
        0 <= n <= cs.len(),
    ensures
        merge_fold(cs, n) == cs.subrange(0, n),
    decreases n,
{
    if n == 0 {
        assert(merge_fold(cs, 0) =~= cs.subrange(0, 0));
    } else {
        lemma_merge_fold_id(cs, n - 1);
        let prev = cs.subrange(0, n - 1);
        lemma_merge_insert_append(prev, cs[n - 1]);
        assert(prev.push(cs[n - 1]) =~= cs.subrange(0, n));
    }
}

/// Adding a cursor whose offset is already present leaves a merged
/// sequence unchanged.
pub proof fn lemma_merge_absorbs_duplicate(cs: Seq<Cursor>, c: Cursor)
    requires
        offsets_sorted_strict(cs),
        exists|j: int| 0 <= j < cs.len() && cs[j].active.offset == c.active.offset,
    ensures
        merge_spec(cs.push(c)) == cs,
{
    let ext = cs.push(c);
    lemma_merge_fold_prefix(ext, cs, cs.len() as int);
    lemma_merge_fold_id(cs, cs.len() as int);
    assert(cs.subrange(0, cs.len() as int) =~= cs);
    assert(merge_fold(ext, cs.len() as int) == cs);
    assert(ext[ext.len() - 1] == c);
    lemma_merge_insert_present(cs, c);
}

/// Characterizes `merge_insert` by the insertion point `j`: the index of
/// the first cursor whose offset is not below `c`'s.
pub proof fn lemma_merge_insert_at(res: Seq<Cursor>, c: Cursor, j: int)
    requires
        0 <= j <= res.len(),
        forall|k: int| 0 <= k < j ==> res[k].active.offset < c.active.offset,
        j < res.len() ==> res[j].active.offset >= c.active.offset,
    ensures
        merge_insert(res, c) == if j < res.len() && res[j].active.offset == c.active.offset {
            res
        } else {
            res.subrange(0, j).push(c) + res.subrange(j, res.len() as int)
        },
    decreases res.len(),
{
    if res.len() == 0 {
        assert(merge_insert(res, c) =~= res.subrange(0, j).push(c) + res.subrange(
            j,
            res.len() as int,
        ));
    } else if j == 0 {
        if res[0].active.offset == c.active.offset {
        } else {
            assert(merge_insert(res, c) =~= res.subrange(0, 0).push(c) + res.subrange(
                0,
                res.len() as int,
            ));
        }
    } else {
        let tail = res.drop_first();
        assert forall|k: int| 0 <= k < j - 1 implies (#[trigger] tail[k]).active.offset
            < c.active.offset by {
            assert(tail[k] == res[k + 1]);
        }
        lemma_merge_insert_at(tail, c, j - 1);
        if j < res.len() && res[j].active.offset == c.active.offset {
            assert(merge_insert(res, c) =~= res);
        } else {
            assert(merge_insert(res, c) =~= res.subrange(0, j).push(c) + res.subrange(
                j,
                res.len() as int,
            ));
        }
    }
}

/// Which single-cursor motion a broadcast applies; the word motions carry
/// their big-word flag.
#[derive(Debug, Clone, Copy, PartialEq, Eq, Structural)]
pub enum MotionKind {
    Left,
    Right,
    Up,
    Down,
    WordForward(bool),
    WordBackward(bool),
    WordEnd(bool),
}

/// The cursor a single motion leaves behind, exactly as the corresponding
/// `Cursor` method describes it.
pub open spec fn cursor_after_motion(s: Seq<char>, mode: EditorMode, kind: MotionKind, c: Cursor)
    -> Cursor {
    match kind {
        MotionKind::Left => {
            if c.active.col == 0 {
                c
            } else {
                let np = TextPosition {
                    line: c.active.line,
                    col: (c.active.col - 1) as usize,
                    offset: col_offset(s, c.active.line as int, c.active.col - 1) as usize,
                };
                Cursor {
                    active: np,
                    anchor: if mode is Visual {
                        c.anchor
                    } else {
                        np
                    },
                    preferred_column: Some(np.col),
                }
            }
        },
        MotionKind::Right => {
            let maxc = max_col_spec(s, mode, c.active.line as int);
            if c.active.col >= maxc {
                c
            } else {
                let np = TextPosition {
                    line: c.active.line,
                    col: (c.active.col + 1) as usize,
                    offset: col_offset(s, c.active.line as int, c.active.col + 1) as usize,
                };
                Cursor {
                    active: np,
                    anchor: if mode is Visual {
                        c.anchor
                    } else {
                        np
                    },
                    preferred_column: Some(np.col),
                }
            }
        },
        MotionKind::Up => {
            if c.active.line == 0 {
                c
            } else {
                let np = vertical_target(s, mode, c, c.active.line - 1);
                Cursor {
                    active: np,
                    anchor: if mode is Visual {
                        c.anchor
                    } else {
                        np
                    },
                    preferred_column: c.preferred_column,
                }
            }
        },
        MotionKind::Down => {
            if c.active.line + 1 >= line_count(s) {
                c
            } else {
                let np = vertical_target(s, mode, c, c.active.line + 1);
                Cursor {
                    active: np,
                    anchor: if mode is Visual {
                        c.anchor
                    } else {
                        np
                    },
                    preferred_column: c.preferred_column,
                }
            }
        },
        MotionKind::WordForward(big) => {
            match word_fwd_target(s, c.active.offset as int, big) {
                None => c,
                Some(t) => {
                    let np = pos_of_offset(s, t);
                    Cursor {
                        active: np,
                        anchor: if mode is Visual && char_class_spec(s[c.active.offset as int], big)
                            == char_class_spec(s[t], big) {
                            c.anchor
                        } else {
                            pos_of_offset(s, crate::words::word_fwd_anchor(s, c.active.offset as int, big))
                        },
                        preferred_column: Some(np.col),
                    }
                },
            }
        },
        MotionKind::WordBackward(big) => {
            if c.active.offset == 0 {
                c
            } else {
                let t = word_back_target(s, c.active.offset as int, c.active.col as int, big);
                let np = pos_of_offset(s, t);
                Cursor {
                    active: np,
                    anchor: if mode is Visual {
                        c.anchor
                    } else {
                        c.active
                    },
                    preferred_column: Some(np.col),
                }
            }
        },
        MotionKind::WordEnd(big) => {
            match word_end_target(s, c.active.offset as int, big) {
                None => c,
                Some(t) => {
                    let np = pos_of_offset(s, t);
                    Cursor {
                        active: np,
                        anchor: if mode is Visual {
                            c.anchor
                        } else {
                            c.active
                        },
                        preferred_column: Some(np.col),
                    }
                },
            }
        },
    }
}

/// What one broadcast leaves: every cursor moved, then the set merged.
pub open spec fn broadcast_spec(s: Seq<char>, mode: EditorMode, kind: MotionKind, cs: Seq<Cursor>)
    -> Seq<Cursor> {
    merge_spec(cs.map_values(|c: Cursor| cursor_after_motion(s, mode, kind, c)))
}

/// Every cursor position (active and anchor alike) satisfies the
/// coordinate invariant against text `s`.
pub open spec fn cursors_valid(s: Seq<char>, cs: Seq<Cursor>) -> bool {
    forall|i: int|
        0 <= i < cs.len() ==> pos_valid(s, (#[trigger] cs[i]).active) && pos_valid(s, cs[i].anchor)
}

/// A collection of cursors that are moved and edited together. The cursor
/// at `primary_index` drives single-cursor concerns of the surrounding
/// editor.
pub struct MultiCursor {
    pub cursors: Vec<Cursor>,
    pub primary_index: usize,
}

impl MultiCursor {
    /// There is always at least one cursor, and the primary index points at
    /// one of them.
    pub open spec fn inv(&self) -> bool {
        &&& self.cursors@.len() >= 1
        &&& (self.primary_index as int) < self.cursors@.len()
    }

    /// The full well-formedness of the set against buffer text `s`: shape,
    /// valid positions, and pairwise distinct active offsets.
    pub open spec fn wf(&self, s: Seq<char>) -> bool {
        &&& self.inv()
        &&& cursors_valid(s, self.cursors@)
        &&& offsets_distinct(self.cursors@)
    }

    /// A set holding one cursor at the buffer start.
    pub fn new() -> (r: Self)
        ensures
            r.cursors@.len() == 1,
            r.cursors@[0].active == (TextPosition { line: 0, col: 0, offset: 0 }),
            r.cursors@[0].anchor == r.cursors@[0].active,
            r.cursors@[0].preferred_column is None,
            r.primary_index == 0,
            r.inv(),
    {
        let mut cursors: Vec<Cursor> = Vec::new();
        cursors.push(Cursor::new());
        MultiCursor { cursors, primary_index: 0 }
    }

    /// Immutable access to all cursors.
    pub fn all_cursors(&self) -> (r: &Vec<Cursor>)
        ensures
            r@ == self.cursors@,
    {
        &self.cursors
    }

    /// Mutable access to all cursors. A caller that moves one is
    /// responsible for restoring the set's invariant, for example by
    /// merging overlaps afterwards.
    pub fn all_cursors_mut(&mut self) -> (r: &mut Vec<Cursor>)
        ensures
            *r == old(self).cursors,
            final(self).cursors == *final(r),
            final(self).primary_index == old(self).primary_index,
    {
        &mut self.cursors
    }

    /// The primary cursor.
    pub fn primary(&self) -> (r: &Cursor)
        requires
            self.inv(),
        ensures
            *r == self.cursors@[self.primary_index as int],
    {
        &self.cursors[self.primary_index]
    }

    /// The primary cursor, mutably.
    pub fn primary_mut(&mut self) -> (r: &mut Cursor)
        requires
            old(self).inv(),
        ensures
            *r == old(self).cursors@[old(self).primary_index as int],
            final(self).cursors@ == old(self).cursors@.update(
                old(self).primary_index as int,
                *final(r),
            ),
            final(self).primary_index == old(self).primary_index,
    {
        let i = self.primary_index;
        &mut self.cursors[i]
    }

    /// The primary cursor's active position.
    pub fn position(&self) -> (r: TextPosition)
        requires
            self.inv(),
        ensures
            r == self.cursors@[self.primary_index as int].active,
    {
        self.primary().position()
    }

    /// Remove every cursor but the primary one.
    pub fn clear_secondary_cursors(&mut self)
        requires
            old(self).inv(),
        ensures
            old(self).cursors@.len() > 1 ==> final(self).cursors@ == seq![
                old(self).cursors@[old(self).primary_index as int],
            ] && final(self).primary_index == 0,
            old(self).cursors@.len() <= 1 ==> *final(self) == *old(self),
            final(self).inv(),
    {
        if self.cursors.len() > 1 {
            let primary_cursor = self.cursors[self.primary_index];
            let mut cursors: Vec<Cursor> = Vec::new();
            cursors.push(primary_cursor);
            self.cursors = cursors;
            self.primary_index = 0;
        }
    }

    /// Sort the cursors by active offset and collapse duplicates, keeping
    /// the first occurrence of each offset. The primary cursor is recovered
    /// by its offset; merging a set that is already sorted and
    /// duplicate-free changes nothing.
    #[verifier::rlimit(100)]
    pub fn merge_overlapping(&mut self)
        requires
            old(self).inv(),
        ensures
            final(self).cursors@ == merge_spec(old(self).cursors@),
            offsets_sorted_strict(final(self).cursors@),
            final(self).inv(),
            final(self).cursors@[final(self).primary_index as int].active.offset == old(
                self,
            ).cursors@[old(self).primary_index as int].active.offset,
            offsets_sorted_strict(old(self).cursors@) ==> final(self).cursors@ == old(
                self,
            ).cursors@ && final(self).primary_index == old(self).primary_index,
    {
        let ghost cs0 = self.cursors@;
        proof {
            lemma_merge_spec_props(cs0);
        }
        if self.cursors.len() <= 1 {
            proof {
                assert(offsets_sorted_strict(cs0));
                lemma_merge_idempotent(cs0);
            }
            return ;
        }
        let ghost p0 = self.primary_index as int;
        let primary_offset = self.cursors[self.primary_index].active.offset;
        let merged = merge_cursors_exec(&self.cursors);
        self.cursors = merged;
        let idx = find_first_offset(&self.cursors, primary_offset);
        self.primary_index = idx;
        proof {
            if offsets_sorted_strict(cs0) {
                lemma_merge_idempotent(cs0);
                if idx as int != p0 {
                    assert(self.cursors@[idx as int].active.offset
                        == self.cursors@[p0].active.offset);
                    assert(false);
                }
            }
        }
    }
}

/// Fold every cursor of `v` through `merge_insert`.
fn merge_cursors_exec(v: &Vec<Cursor>) -> (out: Vec<Cursor>)
    ensures
        out@ == merge_spec(v@),
        offsets_sorted_strict(out@),
{
    let ghost cs0 = v@;
    let mut result: Vec<Cursor> = Vec::new();
    let mut i: usize = 0;
    while i < v.len()
        invariant
            v@ == cs0,
            i <= cs0.len(),
            result@ == merge_fold(cs0, i as int),
            offsets_sorted_strict(result@),
        decreases cs0.len() - i,
    {
        let c = v[i];
        let ghost rpre = result@;
        merge_insert_exec(&mut result, c);
        proof {
            lemma_merge_insert_props(rpre, c);
        }
        i = i + 1;
    }
    result
}

/// The least index holding the given active offset.
fn find_first_offset(v: &Vec<Cursor>, off: usize) -> (idx: usize)
    requires
        exists|i: int| 0 <= i < v@.len() && (#[trigger] v@[i]).active.offset == off,
    ensures
        idx < v@.len(),
        v@[idx as int].active.offset == off,
        forall|k: int| 0 <= k < idx ==> (#[trigger] v@[k]).active.offset != off,
{
    let n = v.len();
    let mut idx: usize = 0;
    while idx < n && v[idx].active.offset != off
        invariant
            idx <= n,
            n == v@.len(),
            forall|k: int| 0 <= k < idx ==> (#[trigger] v@[k]).active.offset != off,
        decreases n - idx,
    {
        idx = idx + 1;
    }
    proof {
        if idx >= n {
            let i0 = choose|i: int| 0 <= i < v@.len() && (#[trigger] v@[i]).active.offset == off;
            assert(v@[i0].active.offset != off);
            assert(false);
        }
    }
    idx
}

impl MultiCursor {
    /// Apply one motion to every cursor, then merge overlaps. This is the
    /// common shape of all broadcast motions.
    #[verifier::rlimit(100)]
    #[verifier::spinoff_prover]
    pub fn broadcast_motion(&mut self, buffer: &Buffer, mode: &EditorMode, kind: MotionKind)
        requires
            buffer.wf(),
            old(self).inv(),
            cursors_valid(buffer.text(), old(self).cursors@),
        ensures
            final(self).cursors@ == broadcast_spec(buffer.text(), *mode, kind, old(self).cursors@),
            offsets_sorted_strict(final(self).cursors@),
            cursors_valid(buffer.text(), final(self).cursors@),
            final(self).inv(),
            final(self).cursors@[final(self).primary_index as int].active.offset
                == cursor_after_motion(
                buffer.text(),
                *mode,
                kind,
                old(self).cursors@[old(self).primary_index as int],
            ).active.offset,
    {
        let ghost s = buffer.text();
        let ghost cs0 = self.cursors@;
        let ghost mapped = cs0.map_values(|c: Cursor| cursor_after_motion(s, *mode, kind, c));
        let n = self.cursors.len();
        let mut i: usize = 0;
        while i < n
            invariant
                buffer.wf(),
                s == buffer.text(),
                n == self.cursors@.len(),
                cs0.len() == n,
                i <= n,
                mapped == cs0.map_values(|c: Cursor| cursor_after_motion(s, *mode, kind, c)),
                cursors_valid(s, cs0),
                self.primary_index == old(self).primary_index,
                (old(self).primary_index as int) < n,
                forall|k: int|
                    0 <= k < i ==> self.cursors@[k] == mapped[k] && pos_valid(
                        s,
                        (#[trigger] self.cursors@[k]).active,
                    ) && pos_valid(s, self.cursors@[k].anchor),
                forall|k: int| i <= k < n ==> self.cursors@[k] == cs0[k],
            decreases n - i,
        {
            let mut c = self.cursors[i];
            match kind {
                MotionKind::Left => {
                    c.move_left(buffer, mode);
                },
                MotionKind::Right => {
                    c.move_right(buffer, mode);
                },
                MotionKind::Up => {
                    c.move_up(buffer, mode);
                },
                MotionKind::Down => {
                    c.move_down(buffer, mode);
                },
                MotionKind::WordForward(big) => {
                    c.move_word_forward(buffer, big, mode);
                },
                MotionKind::WordBackward(big) => {
                    c.move_word_backward(buffer, big, mode);
                },
                MotionKind::WordEnd(big) => {
                    c.move_word_end(buffer, big, mode);
                },
            }
            proof {
                assert(c == cursor_after_motion(s, *mode, kind, cs0[i as int]));
                assert(mapped[i as int] == cursor_after_motion(s, *mode, kind, cs0[i as int]));
            }
            self.cursors.set(i, c);
            i = i + 1;
        }
        proof {
            assert(self.cursors@ =~= mapped);
        }
        let ghost pre = self.cursors@;
        self.merge_overlapping();
        proof {
            lemma_merge_spec_props(pre);
            assert forall|k: int| 0 <= k < self.cursors@.len() implies pos_valid(
                s,
                (#[trigger] self.cursors@[k]).active,
            ) && pos_valid(s, self.cursors@[k].anchor) by {
                let j = choose|j: int| 0 <= j < pre.len() && pre[j] == merge_spec(pre)[k];
                assert(self.cursors@[k] == pre[j]);
            }
        }
    }

    /// Move every cursor one grapheme left, then merge overlaps.
    pub fn move_left(&mut self, buffer: &Buffer, mode: &EditorMode)
        requires
            buffer.wf(),
            old(self).inv(),
            cursors_valid(buffer.text(), old(self).cursors@),
        ensures
            final(self).cursors@ == broadcast_spec(
                buffer.text(),
                *mode,
                MotionKind::Left,
                old(self).cursors@,
            ),
            offsets_sorted_strict(final(self).cursors@),
            cursors_valid(buffer.text(), final(self).cursors@),
            final(self).inv(),
    {
        self.broadcast_motion(buffer, mode, MotionKind::Left)
    }

    /// Move every cursor one grapheme right, then merge overlaps.
    pub fn move_right(&mut self, buffer: &Buffer, mode: &EditorMode)
        requires
            buffer.wf(),
            old(self).inv(),
            cursors_valid(buffer.text(), old(self).cursors@),
        ensures
            final(self).cursors@ == broadcast_spec(
                buffer.text(),
                *mode,
                MotionKind::Right,
                old(self).cursors@,
            ),
            offsets_sorted_strict(final(self).cursors@),
            cursors_valid(buffer.text(), final(self).cursors@),
            final(self).inv(),
    {
        self.broadcast_motion(buffer, mode, MotionKind::Right)
    }

    /// Move every cursor one line up, then merge overlaps.
    pub fn move_up(&mut self, buffer: &Buffer, mode: &EditorMode)
        requires
            buffer.wf(),
            old(self).inv(),
            cursors_valid(buffer.text(), old(self).cursors@),
        ensures
            final(self).cursors@ == broadcast_spec(
                buffer.text(),
                *mode,
                MotionKind::Up,
                old(self).cursors@,
            ),
            offsets_sorted_strict(final(self).cursors@),
            cursors_valid(buffer.text(), final(self).cursors@),
            final(self).inv(),
    {
        self.broadcast_motion(buffer, mode, MotionKind::Up)
    }

    /// Move every cursor one line down, then merge overlaps.
    pub fn move_down(&mut self, buffer: &Buffer, mode: &EditorMode)
        requires
            buffer.wf(),
            old(self).inv(),
            cursors_valid(buffer.text(), old(self).cursors@),
        ensures
            final(self).cursors@ == broadcast_spec(
                buffer.text(),
                *mode,
                MotionKind::Down,
                old(self).cursors@,
            ),
            offsets_sorted_strict(final(self).cursors@),
            cursors_valid(buffer.text(), final(self).cursors@),
            final(self).inv(),
    {
        self.broadcast_motion(buffer, mode, MotionKind::Down)
    }

    /// Forward word motion on every cursor, then merge overlaps.
    pub fn move_word_forward(&mut self, buffer: &Buffer, big_word: bool, mode: &EditorMode)
        requires
            buffer.wf(),
            old(self).inv(),
            cursors_valid(buffer.text(), old(self).cursors@),
        ensures
            final(self).cursors@ == broadcast_spec(
                buffer.text(),
                *mode,
                MotionKind::WordForward(big_word),
                old(self).cursors@,
            ),
            offsets_sorted_strict(final(self).cursors@),
            cursors_valid(buffer.text(), final(self).cursors@),
            final(self).inv(),
    {
        self.broadcast_motion(buffer, mode, MotionKind::WordForward(big_word))
    }

    /// Backward word motion on every cursor, then merge overlaps.
    pub fn move_word_backward(&mut self, buffer: &Buffer, big_word: bool, mode: &EditorMode)
        requires
            buffer.wf(),
            old(self).inv(),
            cursors_valid(buffer.text(), old(self).cursors@),
        ensures
            final(self).cursors@ == broadcast_spec(
                buffer.text(),
                *mode,
                MotionKind::WordBackward(big_word),
                old(self).cursors@,
            ),
            offsets_sorted_strict(final(self).cursors@),
            cursors_valid(buffer.text(), final(self).cursors@),
            final(self).inv(),
    {
        self.broadcast_motion(buffer, mode, MotionKind::WordBackward(big_word))
    }

    /// Word-end motion on every cursor, then merge overlaps.
    pub fn move_word_end(&mut self, buffer: &Buffer, big_word: bool, mode: &EditorMode)
        requires
            buffer.wf(),
            old(self).inv(),
            cursors_valid(buffer.text(), old(self).cursors@),
        ensures
            final(self).cursors@ == broadcast_spec(
                buffer.text(),
                *mode,
                MotionKind::WordEnd(big_word),
                old(self).cursors@,
            ),
            offsets_sorted_strict(final(self).cursors@),
            cursors_valid(buffer.text(), final(self).cursors@),
            final(self).inv(),
    {
        self.broadcast_motion(buffer, mode, MotionKind::WordEnd(big_word))
    }

    /// Clamp every cursor for the given mode (used when leaving insert
    /// mode); no merge, as clamping never makes offsets collide that did
    /// not already.
    pub fn adjust_for_mode(&mut self, buffer: &Buffer, mode: &EditorMode)
        requires
            buffer.wf(),
            old(self).inv(),
            cursors_valid(buffer.text(), old(self).cursors@),
        ensures
            final(self).cursors@ == old(self).cursors@.map_values(
                |c: Cursor| cursor_after_adjust(buffer.text(), *mode, c),
            ),
            final(self).primary_index == old(self).primary_index,
            final(self).inv(),
            forall|k: int|
                0 <= k < final(self).cursors@.len() ==> pos_valid(
                    buffer.text(),
                    (#[trigger] final(self).cursors@[k]).active,
                ),
    {
        let ghost s = buffer.text();
        let ghost cs0 = self.cursors@;
        let ghost mapped = cs0.map_values(|c: Cursor| cursor_after_adjust(s, *mode, c));
        let n = self.cursors.len();
        let mut i: usize = 0;
        while i < n
            invariant
                buffer.wf(),
                s == buffer.text(),
                n == self.cursors@.len(),
                cs0.len() == n,
                i <= n,
                mapped == cs0.map_values(|c: Cursor| cursor_after_adjust(s, *mode, c)),
                cursors_valid(s, cs0),
                self.primary_index == old(self).primary_index,
                forall|k: int|
                    0 <= k < i ==> self.cursors@[k] == mapped[k] && pos_valid(
                        s,
                        (#[trigger] self.cursors@[k]).active,
                    ),
                forall|k: int| i <= k < n ==> self.cursors@[k] == cs0[k],
            decreases n - i,
        {
            let mut c = self.cursors[i];
            c.adjust_for_mode(buffer, mode);
            proof {
                assert(c == cursor_after_adjust(s, *mode, cs0[i as int]));
            }
            self.cursors.set(i, c);
            i = i + 1;
        }
        proof {
            assert(self.cursors@ =~= mapped);
        }
    }

    /// Add a cursor at `pos` (clamped as `move_to` clamps) and resolve any
    /// overlap at once: adding a duplicate offset leaves the set unchanged.
    pub fn add_cursor(&mut self, pos: TextPosition, buffer: &Buffer)
        requires
            buffer.wf(),
            old(self).inv(),
        ensures
            ({
                let nc = added_cursor(buffer.text(), pos);
                &&& final(self).cursors@ == merge_spec(old(self).cursors@.push(nc))
                &&& offsets_sorted_strict(final(self).cursors@)
                &&& final(self).inv()
                &&& (offsets_sorted_strict(old(self).cursors@) && (exists|j: int|
                    0 <= j < old(self).cursors@.len() && (#[trigger] old(
                        self,
                    ).cursors@[j]).active.offset == nc.active.offset) ==> final(self).cursors@
                    == old(self).cursors@)
            }),
    {
        let ghost s = buffer.text();
        let ghost cs0 = self.cursors@;
        let mut cursor = Cursor::new();
        cursor.move_to(pos, MoveOpts { anchor: None, update_preferred_col: false }, buffer);
        proof {
            assert(cursor == added_cursor(s, pos));
        }
        self.cursors.push(cursor);
        self.merge_overlapping();
        proof {
            if offsets_sorted_strict(cs0) && (exists|j: int|
                0 <= j < cs0.len() && (#[trigger] cs0[j]).active.offset
                    == added_cursor(s, pos).active.offset) {
                lemma_merge_absorbs_duplicate(cs0, added_cursor(s, pos));
            }
        }
    }

    /// Replace every cursor by `f` of it, then merge overlaps. The caller's
    /// `f` decides the new cursors; the set only guarantees the merge
    /// invariant afterwards.
    pub fn apply_to_all<F: Fn(&Cursor) -> Cursor>(&mut self, f: F)
        requires
            old(self).inv(),
            forall|c: Cursor| #[trigger] f.requires((&c,)),
        ensures
            final(self).inv(),
            offsets_sorted_strict(final(self).cursors@),
            exists|mid: Seq<Cursor>|
                {
                    &&& mid.len() == old(self).cursors@.len()
                    &&& (forall|i: int|
                        0 <= i < mid.len() ==> call_ensures(
                            f,
                            (&old(self).cursors@[i],),
                            #[trigger] mid[i],
                        ))
                    &&& final(self).cursors@ == merge_spec(mid)
                },
    {
        let ghost cs0 = self.cursors@;
        let n = self.cursors.len();
        let mut i: usize = 0;
        while i < n
            invariant
                n == self.cursors@.len(),
                cs0.len() == n,
                i <= n,
                self.primary_index == old(self).primary_index,
                (old(self).primary_index as int) < n,
                forall|c: Cursor| #[trigger] f.requires((&c,)),
                forall|k: int|
                    0 <= k < i ==> call_ensures(f, (&cs0[k],), #[trigger] self.cursors@[k]),
                forall|k: int| i <= k < n ==> self.cursors@[k] == cs0[k],
            decreases n - i,
        {
            let c = f(&self.cursors[i]);
            self.cursors.set(i, c);
            i = i + 1;
        }
        let ghost mid = self.cursors@;
        self.merge_overlapping();
        proof {
            assert(mid.len() == cs0.len() && (forall|k: int|
                0 <= k < mid.len() ==> call_ensures(f, (&cs0[k],), #[trigger] mid[k]))
                && final(self).cursors@ == merge_spec(mid));
        }
    }

    /// Recompute every cursor's offset from its stored line and column; a
    /// cursor whose offset was already right is untouched, a stale one is
    /// collapsed at its corrected position.
    pub fn refresh_positions(&mut self, buffer: &Buffer)
        requires
            buffer.wf(),
            old(self).inv(),
            forall|i: int|
                0 <= i < old(self).cursors@.len() ==> line_col_in_range(
                    buffer.text(),
                    (#[trigger] old(self).cursors@[i]).active,
                ),
        ensures
            final(self).cursors@ == old(self).cursors@.map_values(
                |c: Cursor| refreshed_cursor(buffer.text(), c),
            ),
            final(self).primary_index == old(self).primary_index,
            final(self).inv(),
            forall|k: int|
                0 <= k < final(self).cursors@.len() ==> pos_valid(
                    buffer.text(),
                    (#[trigger] final(self).cursors@[k]).active,
                ),
    {
        let ghost s = buffer.text();
        let ghost cs0 = self.cursors@;
        let ghost mapped = cs0.map_values(|c: Cursor| refreshed_cursor(s, c));
        let n = self.cursors.len();
        let mut i: usize = 0;
        while i < n
            invariant
                buffer.wf(),
                s == buffer.text(),
                n == self.cursors@.len(),
                cs0.len() == n,
                i <= n,
                mapped == cs0.map_values(|c: Cursor| refreshed_cursor(s, c)),
                self.primary_index == old(self).primary_index,
                forall|k: int|
                    0 <= k < cs0.len() ==> line_col_in_range(s, (#[trigger] cs0[k]).active),
                forall|k: int|
                    0 <= k < i ==> self.cursors@[k] == mapped[k] && pos_valid(
                        s,
                        (#[trigger] self.cursors@[k]).active,
                    ),
                forall|k: int| i <= k < n ==> self.cursors@[k] == cs0[k],
            decreases n - i,
        {
            let c = self.cursors[i];
            let correct_offset = buffer.grapheme_col_to_offset(c.active.line, c.active.col);
            if c.active.offset != correct_offset {
                let np = TextPosition {
                    line: c.active.line,
                    col: c.active.col,
                    offset: correct_offset,
                };
                let mut c2 = c;
                c2.move_to(np, MoveOpts { anchor: None, update_preferred_col: false }, buffer);
                proof {
                    assert(c2 == refreshed_cursor(s, cs0[i as int]));
                }
                self.cursors.set(i, c2);
            } else {
                proof {
                    assert(c == refreshed_cursor(s, cs0[i as int]));
                }
            }
            i = i + 1;
        }
        proof {
            assert(self.cursors@ =~= mapped);
        }
    }
}

/// A line/column pair that exists in text `s` (the offset may be stale).
pub open spec fn line_col_in_range(s: Seq<char>, p: TextPosition) -> bool {
    &&& (p.line as int) < line_count(s)
    &&& (p.col as int) <= line_grapheme_count(s, p.line as int)
}

/// The cursor `refresh_positions` leaves for `c`: untouched when its offset
/// matches its line and column, else collapsed at the corrected position.
pub open spec fn refreshed_cursor(s: Seq<char>, c: Cursor) -> Cursor {
    let correct = col_offset(s, c.active.line as int, c.active.col as int);
    if c.active.offset as int == correct {
        c
    } else {
        let np = TextPosition { line: c.active.line, col: c.active.col, offset: correct as usize };
        Cursor { active: np, anchor: np, preferred_column: c.preferred_column }
    }
}

/// The cursor `add_cursor` constructs before merging: collapsed at the
/// clamped position, with no sticky column.
pub open spec fn added_cursor(s: Seq<char>, pos: TextPosition) -> Cursor {
    let np = clamp_pos(s, pos);
    Cursor { active: np, anchor: np, preferred_column: None }
}

/// The cursor `adjust_for_mode` leaves for `c`.
pub open spec fn cursor_after_adjust(s: Seq<char>, mode: EditorMode, c: Cursor) -> Cursor {
    let lgc = line_grapheme_count(s, c.active.line as int);
    if mode is Normal && lgc > 0 && c.active.col >= lgc {
        let np = TextPosition {
            line: c.active.line,
            col: (lgc - 1) as usize,
            offset: col_offset(s, c.active.line as int, lgc - 1) as usize,
        };
        Cursor { active: np, anchor: np, preferred_column: Some(np.col) }
    } else {
        c
    }
}

/// Insert `c` into the offset-sorted `res` as `merge_insert` describes.
fn merge_insert_exec(res: &mut Vec<Cursor>, c: Cursor)
    ensures
        final(res)@ == merge_insert(old(res)@, c),
{
    let ghost r0 = res@;
    let n = res.len();
    let mut j: usize = 0;
    while j < n && res[j].active.offset < c.active.offset
        invariant
            j <= n,
            n == res.len(),
            res@ == r0,
            forall|k: int| 0 <= k < j ==> (#[trigger] r0[k]).active.offset < c.active.offset,
        decreases n - j,
    {
        j = j + 1;
    }
    proof {
        lemma_merge_insert_at(r0, c, j as int);
    }
    if j < n && res[j].active.offset == c.active.offset {
    } else {
        res.insert(j, c);
        proof {
            assert(res@ =~= r0.subrange(0, j as int).push(c) + r0.subrange(j as int, n as int));
        }
    }
}

} // verus!
