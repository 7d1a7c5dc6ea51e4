//! The text store: owns the buffer content and translates between lines,
//! grapheme columns and absolute character offsets.

use vstd::prelude::*;
use vstd::string::StringExecFns;

use crate::chars::chars_to_string;
use crate::cursor::TextPosition;
use crate::graphemes::{col_floor_exec, grapheme_count, grapheme_count_exec, lemma_nth_monotone,
    next_break, next_break_exec, nth_break, nth_break_exec, prev_break, prev_break_exec};
use crate::model::{col_offset, line_count, line_grapheme_count, line_of, line_start,
    lemma_line_of_bounds, lemma_line_start, lemma_newlines_upto_bounds, lemma_pos_of_offset_valid,
    lemma_visible_line_shape, pos_of_offset, pos_valid, strip_line_breaks, visible_line};
use crate::rope::{rope_char_to_line, rope_from_str, rope_len_chars, rope_len_lines,
    rope_line_chars, rope_line_to_char, rope_text, rope_to_chars};

verus! {

/// Where stepping one grapheme back from `offset` lands: the previous
/// cluster boundary, saturating at the buffer start.
pub open spec fn prev_grapheme_spec(s: Seq<char>, offset: int) -> int {
    if offset == 0 {
        0
    } else {
        prev_break(s, offset)
    }
}

/// Where stepping one grapheme forward from `offset` lands: the next
/// cluster boundary, saturating at the buffer end.
pub open spec fn next_grapheme_spec(s: Seq<char>, offset: int) -> int {
    if offset >= s.len() {
        s.len() as int
    } else {
        next_break(s, offset)
    }
}

/// Stepping back one grapheme and forward again returns to the same
/// place: for every grapheme boundary `o > 0` of `s`,
/// `next_grapheme_spec(s, prev_grapheme_spec(s, o)) == o`.
pub proof fn lemma_grapheme_step_round_trip(s: Seq<char>, o: int)
    requires
        0 < o <= s.len(),
        crate::graphemes::grapheme_break(s, o),
    ensures
        next_grapheme_spec(s, prev_grapheme_spec(s, o)) == o,
{
    crate::graphemes::lemma_prev_break_bounds(s, o);
    let p = prev_break(s, o);
    crate::graphemes::lemma_next_break_unique(s, p, o);
}

/// A text buffer: the stored content plus a display name.
pub struct Buffer {
    pub content: ropey::Rope,
    pub name: String,
}

impl Buffer {
    /// The characters the buffer holds.
    pub open spec fn text(&self) -> Seq<char> {
        rope_text(self.content)
    }

    /// The buffer's contents can be indexed by `usize` offsets.
    pub open spec fn wf(&self) -> bool {
        self.text().len() <= usize::MAX
    }

    pub fn new(content: &str, name: &str) -> (r: Self)
        ensures
            r.text() == content@,
            r.name@ == name@,
            r.wf(),
    {
        Buffer { content: rope_from_str(content), name: String::from_str(name) }
    }

    /// The characters of line `line` with its terminator stripped.
    pub(crate) fn visible_line_chars(&self, line: usize) -> (v: Vec<char>)
        requires
            (line as int) < line_count(self.text()),
        ensures
            v@ == visible_line(self.text(), line as int),
    {
        let mut v = rope_line_chars(&self.content, line);
        let ghost target = visible_line(self.text(), line as int);
        while v.len() > 0 && (v[v.len() - 1] == '\n' || v[v.len() - 1] == '\r')
            invariant
                strip_line_breaks(v@) == target,
            decreases v.len(),
        {
            proof {
                assert(v@.last() == v@[v@.len() - 1]);
                assert(strip_line_breaks(v@) == strip_line_breaks(v@.drop_last()));
            }
            v.pop();
        }
        proof {
            assert(strip_line_breaks(v@) == v@);
        }
        v
    }

    /// Line `line` as shown, terminator characters stripped. Faults if the
    /// line does not exist; callers check `total_lines` first.
    pub fn visible_line_content(&self, line: usize) -> (s: String)
        requires
            (line as int) < line_count(self.text()),
        ensures
            s@ == visible_line(self.text(), line as int),
    {
        let v = self.visible_line_chars(line);
        chars_to_string(&v)
    }

    /// Number of characters on the visible part of `line`.
    pub fn visual_line_length(&self, line: usize) -> (n: usize)
        requires
            (line as int) < line_count(self.text()),
        ensures
            n as int == visible_line(self.text(), line as int).len(),
    {
        let v = self.visible_line_chars(line);
        v.len()
    }

    /// Number of lines in the buffer; at least one, even when empty.
    pub fn total_lines(&self) -> (n: usize)
        ensures
            n as int == line_count(self.text()),
            n >= 1,
    {
        proof {
            lemma_newlines_upto_bounds(self.text(), self.text().len() as int);
        }
        rope_len_lines(&self.content)
    }

    /// Total number of characters in the buffer.
    pub fn total_chars(&self) -> (n: usize)
        ensures
            n as int == self.text().len(),
    {
        rope_len_chars(&self.content)
    }

    /// Number of grapheme clusters on the visible part of `line`: the unit
    /// cursor columns are measured in.
    pub fn grapheme_len(&self, line: usize) -> (n: usize)
        requires
            (line as int) < line_count(self.text()),
        ensures
            n as int == line_grapheme_count(self.text(), line as int),
    {
        let v = self.visible_line_chars(line);
        grapheme_count_exec(&v)
    }

    /// The grapheme clusters `[start, start + len)` of the visible part of
    /// `line`, as one string; cluster indices past the end clamp to the
    /// end.
    pub fn grapheme_substring(&self, line: usize, start: usize, len: usize) -> (r: String)
        requires
            (line as int) < line_count(self.text()),
        ensures
            ({
                let v = visible_line(self.text(), line as int);
                let g = grapheme_count(v);
                let k0 = if start as int <= g {
                    start as int
                } else {
                    g
                };
                let k1 = if start as int + len as int <= g {
                    start as int + len as int
                } else {
                    g
                };
                r@ == v.subrange(nth_break(v, k0), nth_break(v, k1))
            }),
    {
        let chars = self.visible_line_chars(line);
        let ghost v = chars@;
        let g = grapheme_count_exec(&chars);
        let k0 = if start < g {
            start
        } else {
            g
        };
        let rem = g - k0;
        let take = if len < rem {
            len
        } else {
            rem
        };
        let k1 = k0 + take;
        proof {
            lemma_nth_monotone(v, k0 as int, k1 as int);
        }
        let lo = nth_break_exec(&chars, k0);
        let hi = nth_break_exec(&chars, k1);
        let mut out: Vec<char> = Vec::new();
        let mut i = lo;
        while i < hi
            invariant
                lo <= i <= hi,
                hi <= chars@.len(),
                chars@ == v,
                out@ == v.subrange(lo as int, i as int),
            decreases hi - i,
        {
            out.push(chars[i]);
            proof {
                assert(out@ =~= v.subrange(lo as int, i as int + 1));
            }
            i = i + 1;
        }
        proof {
            assert(out@ =~= v.subrange(lo as int, hi as int));
        }
        chars_to_string(&out)
    }

    /// Translate (line, grapheme column) to an absolute character offset.
    /// `col == grapheme_len(line)` is valid: one past the last cluster.
    pub fn grapheme_col_to_offset(&self, line: usize, col: usize) -> (off: usize)
        requires
            self.wf(),
            (line as int) < line_count(self.text()),
            col as int <= line_grapheme_count(self.text(), line as int),
        ensures
            off as int == col_offset(self.text(), line as int, col as int),
            off as int <= self.text().len(),
    {
        let ghost s = self.text();
        let v = self.visible_line_chars(line);
        let rel = nth_break_exec(&v, col);
        let st = rope_line_to_char(&self.content, line);
        proof {
            lemma_visible_line_shape(s, line as int);
            crate::model::lemma_scan_line_end(s, line_start(s, line as int));
        }
        st + rel
    }

    /// The canonical position for `offset`: its line, the widest grapheme
    /// column ending at or before it, and that column's own offset.
    pub fn position_for_offset(&self, offset: usize) -> (p: TextPosition)
        requires
            self.wf(),
            offset as int <= self.text().len(),
        ensures
            p == pos_of_offset(self.text(), offset as int),
            pos_valid(self.text(), p),
    {
        let ghost s = self.text();
        proof {
            lemma_pos_of_offset_valid(s, offset as int);
            lemma_line_of_bounds(s, offset as int);
        }
        let li = rope_char_to_line(&self.content, offset);
        let st = rope_line_to_char(&self.content, li);
        let v = self.visible_line_chars(li);
        let r = col_floor_exec(&v, offset - st);
        TextPosition { line: li, col: r.0, offset: st + r.1 }
    }

    /// The previous grapheme boundary before `offset`; 0 stays 0.
    pub fn prev_grapheme_offset(&self, offset: usize) -> (r: usize)
        requires
            offset as int <= self.text().len(),
        ensures
            r as int == prev_grapheme_spec(self.text(), offset as int),
            r <= offset,
    {
        if offset == 0 {
            0
        } else {
            let chars = rope_to_chars(&self.content);
            prev_break_exec(&chars, offset)
        }
    }

    /// The next grapheme boundary after `offset`; the end of the buffer
    /// stays where it is.
    pub fn next_grapheme_offset(&self, offset: usize) -> (r: usize)
        requires
            offset as int <= self.text().len(),
        ensures
            r as int == next_grapheme_spec(self.text(), offset as int),
            offset <= r,
            r as int <= self.text().len(),
    {
        let total = rope_len_chars(&self.content);
        if offset >= total {
            total
        } else {
            let chars = rope_to_chars(&self.content);
            next_break_exec(&chars, offset)
        }
    }

    /// Whether `pos` satisfies the coordinate invariant against the current
    /// content. Callers outside the library check this before handing a
    /// position in; a `false` is the caller's bookkeeping error.
    pub fn validate_position(&self, pos: &TextPosition) -> (r: bool)
        requires
            self.wf(),
        ensures
            r == pos_valid(self.text(), *pos),
    {
        let lines = self.total_lines();
        if pos.line >= lines {
            return false;
        }
        let gl = self.grapheme_len(pos.line);
        if pos.col > gl {
            return false;
        }
        let off = self.grapheme_col_to_offset(pos.line, pos.col);
        pos.offset == off
    }

    /// Whether `offset` is within the buffer (the end is included).
    pub fn validate_offset(&self, offset: usize) -> (r: bool)
        ensures
            r == (offset as int <= self.text().len()),
    {
        offset <= rope_len_chars(&self.content)
    }
}

} // verus!
