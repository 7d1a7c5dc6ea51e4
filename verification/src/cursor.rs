//! A single editing point: an anchor/active pair of positions plus a sticky
//! preferred column. The pair is collapsed (`anchor == active`) when no
//! selection exists.

use vstd::prelude::*;

use crate::EditorMode;
use crate::buffer::Buffer;
use crate::chars::{char_is_alphanumeric, char_is_whitespace, is_alphanumeric_exec,
    is_whitespace_exec};
use crate::model::{col_offset, lemma_pos_valid_offset_bound, line_count, line_grapheme_count,
    pos_of_offset, pos_valid};
use crate::rope::rope_to_chars;
use crate::words::{word_fwd_anchor, extend_run_end_exec, extend_run_fwd_exec, scan_back_same_exec,
    scan_back_ws_exec, scan_class_fwd_exec, scan_opener_exec, scan_ws_fwd_exec, scan_ws_nolf_exec,
    word_back_target, word_end_target, word_fwd_target};

verus! {

/// A position in the text buffer. The three coordinates are bound together:
/// `offset` must always equal what `line` and `col` denote (see
/// `crate::model::pos_valid`).
#[derive(Debug, Copy, Clone, PartialEq, Eq, Structural)]
pub struct TextPosition {
    pub line: usize,
    pub col: usize,
    pub offset: usize,
}

impl TextPosition {
    /// Create a new position from line, column and absolute offset.
    pub fn new(line: usize, col: usize, offset: usize) -> (r: Self)
        ensures
            r == (TextPosition { line, col, offset }),
    {
        TextPosition { line, col, offset }
    }
}

/// How a cursor move should behave: whether a selection is kept (and from
/// which anchor) and whether the sticky column is updated.
#[derive(Clone, Copy)]
pub struct MoveOpts {
    /// `Some(anchor)`: keep or start a selection from `anchor` to the
    /// destination. `None`: collapse the selection at the destination.
    pub anchor: Option<TextPosition>,
    pub update_preferred_col: bool,
}

/// The classes that drive word motions.
#[derive(Debug, Copy, Clone, PartialEq, Eq, Structural)]
pub enum CharClass {
    Whitespace,
    Word,
    Punctuation,
}

/// The class of `c` for word motions: in big-word mode everything that is
/// not whitespace counts as one word.
pub open spec fn char_class_spec(c: char, big_word: bool) -> CharClass {
    if char_is_whitespace(c) {
        CharClass::Whitespace
    } else if big_word || char_is_alphanumeric(c) || c == '_' {
        CharClass::Word
    } else {
        CharClass::Punctuation
    }
}

pub fn get_char_class(c: char, big_word: bool) -> (r: CharClass)
    ensures
        r == char_class_spec(c, big_word),
{
    if is_whitespace_exec(c) {
        CharClass::Whitespace
    } else if big_word || is_alphanumeric_exec(c) || c == '_' {
        CharClass::Word
    } else {
        CharClass::Punctuation
    }
}

/// Where `move_to` actually lands: the destination with its line clamped to
/// the last line, its column clamped to that line's grapheme length, and
/// its offset recomputed from the clamped pair.
pub open spec fn clamp_pos(s: Seq<char>, dest: TextPosition) -> TextPosition {
    let li = if (dest.line as int) < line_count(s) {
        dest.line as int
    } else {
        line_count(s) - 1
    };
    let g = line_grapheme_count(s, li);
    let col = if (dest.col as int) < g {
        dest.col as int
    } else {
        g
    };
    TextPosition { line: li as usize, col: col as usize, offset: col_offset(s, li, col) as usize }
}

/// The rightmost column a cursor may reach on line `li`: one past the last
/// cluster in insert mode, the last cluster otherwise.
pub open spec fn max_col_spec(s: Seq<char>, mode: EditorMode, li: int) -> int {
    let g = line_grapheme_count(s, li);
    if mode is Insert {
        g
    } else {
        if g == 0 {
            0
        } else {
            g - 1
        }
    }
}

/// Where a vertical motion of cursor `c` to line `li` lands: the preferred
/// column if set (else the current column), clamped to the line's reachable
/// maximum.
pub open spec fn vertical_target(s: Seq<char>, mode: EditorMode, c: Cursor, li: int) -> TextPosition {
    let tc = match c.preferred_column {
        Some(p) => p as int,
        None => c.active.col as int,
    };
    let m = max_col_spec(s, mode, li);
    let col = if tc < m {
        tc
    } else {
        m
    };
    TextPosition { line: li as usize, col: col as usize, offset: col_offset(s, li, col) as usize }
}

/// One editing point.
#[derive(Debug, Copy, Clone, PartialEq, Eq)]
pub struct Cursor {
    pub anchor: TextPosition,
    pub active: TextPosition,
    pub preferred_column: Option<usize>,
}

impl Cursor {
    /// A collapsed cursor at the start of the buffer.
    pub fn new() -> (r: Self)
        ensures
            r.active == (TextPosition { line: 0, col: 0, offset: 0 }),
            r.anchor == r.active,
            r.preferred_column is None,
    {
        let pos = TextPosition { line: 0, col: 0, offset: 0 };
        Cursor { anchor: pos, active: pos, preferred_column: None }
    }

    /// The active (moving) end of the cursor.
    pub fn position(&self) -> (r: TextPosition)
        ensures
            r == self.active,
    {
        self.active
    }

    /// The sticky column consulted by vertical motions.
    pub fn get_preferred_column(&self) -> (r: Option<usize>)
        ensures
            r == self.preferred_column,
    {
        self.preferred_column
    }

    /// Collapse any selection onto the active position.
    pub fn collapse_selection(&mut self)
        ensures
            final(self).anchor == old(self).active,
            final(self).active == old(self).active,
            final(self).preferred_column == old(self).preferred_column,
    {
        self.anchor = self.active;
    }

    /// Begin a fresh selection anchored at the active position.
    pub fn start_selection(&mut self)
        ensures
            final(self).anchor == old(self).active,
            final(self).active == old(self).active,
            final(self).preferred_column == old(self).preferred_column,
    {
        self.anchor = self.active;
    }

    /// Drop any selection and forget the sticky column.
    pub fn clear_selection(&mut self)
        ensures
            final(self).anchor == old(self).active,
            final(self).active == old(self).active,
            final(self).preferred_column is None,
    {
        self.anchor = self.active;
        self.preferred_column = None;
    }

    /// A selection exists exactly when the two ends differ.
    pub fn has_selection(&self) -> (r: bool)
        ensures
            r == (self.anchor != self.active),
    {
        !(self.anchor == self.active)
    }

    /// Move the cursor to `dest`, optionally keeping a selection and
    /// updating the sticky column. `dest` is clamped onto the buffer: the
    /// line to the last line, the column to the line's grapheme length, and
    /// the offset is recomputed from the clamped pair. Returns the position
    /// that was reached.
    pub fn move_to(&mut self, dest: TextPosition, opts: MoveOpts, buffer: &Buffer) -> (r: Option<
        TextPosition,
    >)
        requires
            buffer.wf(),
        ensures
            final(self).active == clamp_pos(buffer.text(), dest),
            pos_valid(buffer.text(), final(self).active),
            final(self).anchor == match opts.anchor {
                Some(a) => a,
                None => final(self).active,
            },
            final(self).preferred_column == if opts.update_preferred_col {
                Some(final(self).active.col)
            } else {
                old(self).preferred_column
            },
            r == Some(final(self).active),
            pos_valid(buffer.text(), dest) ==> final(self).active == dest,
    {
        let ghost s = buffer.text();
        let lines = buffer.total_lines();
        let line = if dest.line < lines {
            dest.line
        } else {
            lines - 1
        };
        let gl = buffer.grapheme_len(line);
        let col = if dest.col < gl {
            dest.col
        } else {
            gl
        };
        let off = buffer.grapheme_col_to_offset(line, col);
        let clamped = TextPosition { line, col, offset: off };
        proof {
            if pos_valid(s, dest) {
                assert(clamped == dest);
            }
        }
        self.active = clamped;
        self.anchor = match opts.anchor {
            Some(a) => a,
            None => clamped,
        };
        if opts.update_preferred_col {
            self.preferred_column = Some(clamped.col);
        }
        Some(clamped)
    }

    /// One grapheme to the left on the current line; `None` (and no change)
    /// at column 0.
    pub fn move_left(&mut self, buffer: &Buffer, editor_mode: &EditorMode) -> (r: Option<
        TextPosition,
    >)
        requires
            buffer.wf(),
            pos_valid(buffer.text(), old(self).active),
        ensures
            pos_valid(buffer.text(), final(self).active),
            old(self).active.col == 0 ==> r is None && *final(self) == *old(self),
            old(self).active.col > 0 ==> {
                let np = TextPosition {
                    line: old(self).active.line,
                    col: (old(self).active.col - 1) as usize,
                    offset: col_offset(
                        buffer.text(),
                        old(self).active.line as int,
                        old(self).active.col - 1,
                    ) as usize,
                };
                &&& r == Some(np)
                &&& final(self).active == np
                &&& final(self).anchor == (if editor_mode is Visual {
                    old(self).anchor
                } else {
                    np
                })
                &&& final(self).preferred_column == Some(np.col)
            },
    {
        let cur = self.position();
        if cur.col == 0 {
            return None;
        }
        let new_col = cur.col - 1;
        let new_off = buffer.grapheme_col_to_offset(cur.line, new_col);
        let new_pos = TextPosition { line: cur.line, col: new_col, offset: new_off };
        let keep_anchor = matches!(editor_mode, EditorMode::Visual);
        self.move_to(
            new_pos,
            MoveOpts {
                anchor: if keep_anchor {
                    Some(self.anchor)
                } else {
                    None
                },
                update_preferred_col: true,
            },
            buffer,
        );
        Some(new_pos)
    }

    /// One grapheme to the right on the current line; in insert mode the
    /// reachable maximum is one past the last cluster, otherwise the last
    /// cluster. `None` (and no change) at that maximum.
    pub fn move_right(&mut self, buffer: &Buffer, editor_mode: &EditorMode) -> (r: Option<
        TextPosition,
    >)
        requires
            buffer.wf(),
            pos_valid(buffer.text(), old(self).active),
        ensures
            pos_valid(buffer.text(), final(self).active),
            ({
                let maxc = max_col_spec(buffer.text(), *editor_mode, old(self).active.line as int);
                &&& old(self).active.col >= maxc ==> r is None && *final(self) == *old(self)
                &&& old(self).active.col < maxc ==> {
                    let np = TextPosition {
                        line: old(self).active.line,
                        col: (old(self).active.col + 1) as usize,
                        offset: col_offset(
                            buffer.text(),
                            old(self).active.line as int,
                            old(self).active.col + 1,
                        ) as usize,
                    };
                    &&& r == Some(np)
                    &&& final(self).active == np
                    &&& final(self).anchor == (if editor_mode is Visual {
                        old(self).anchor
                    } else {
                        np
                    })
                    &&& final(self).preferred_column == Some(np.col)
                }
            }),
    {
        let cur = self.position();
        let max_col = self.get_max_col(editor_mode, buffer, cur.line);
        if cur.col >= max_col {
            return None;
        }
        let new_col = cur.col + 1;
        let new_off = buffer.grapheme_col_to_offset(cur.line, new_col);
        let new_pos = TextPosition { line: cur.line, col: new_col, offset: new_off };
        let keep_anchor = matches!(editor_mode, EditorMode::Visual);
        self.move_to(
            new_pos,
            MoveOpts {
                anchor: if keep_anchor {
                    Some(self.anchor)
                } else {
                    None
                },
                update_preferred_col: true,
            },
            buffer,
        );
        Some(new_pos)
    }

    /// To the previous line, at the preferred column if one is set, clamped
    /// to that line's reachable maximum. Does not update the sticky column.
    /// `None` (and no change) on the first line.
    pub fn move_up(&mut self, buffer: &Buffer, editor_mode: &EditorMode) -> (r: Option<
        TextPosition,
    >)
        requires
            buffer.wf(),
            pos_valid(buffer.text(), old(self).active),
        ensures
            pos_valid(buffer.text(), final(self).active),
            old(self).active.line == 0 ==> r is None && *final(self) == *old(self),
            old(self).active.line > 0 ==> {
                let np = vertical_target(
                    buffer.text(),
                    *editor_mode,
                    *old(self),
                    old(self).active.line - 1,
                );
                &&& r == Some(np)
                &&& final(self).active == np
                &&& final(self).anchor == (if editor_mode is Visual {
                    old(self).anchor
                } else {
                    np
                })
                &&& final(self).preferred_column == old(self).preferred_column
            },
    {
        let cur = self.position();
        if cur.line == 0 {
            return None;
        }
        let target_line = cur.line - 1;
        let target_col = match self.preferred_column {
            Some(c) => c,
            None => cur.col,
        };
        let max_col = self.get_max_col(editor_mode, buffer, target_line);
        let new_col = if target_col < max_col {
            target_col
        } else {
            max_col
        };
        let new_off = buffer.grapheme_col_to_offset(target_line, new_col);
        let new_pos = TextPosition { line: target_line, col: new_col, offset: new_off };
        let keep_anchor = matches!(editor_mode, EditorMode::Visual);
        self.move_to(
            new_pos,
            MoveOpts {
                anchor: if keep_anchor {
                    Some(self.anchor)
                } else {
                    None
                },
                update_preferred_col: false,
            },
            buffer,
        );
        Some(new_pos)
    }

    /// To the next line, at the preferred column if one is set, clamped to
    /// that line's reachable maximum. Does not update the sticky column.
    /// `None` (and no change) on the last line.
    pub fn move_down(&mut self, buffer: &Buffer, editor_mode: &EditorMode) -> (r: Option<
        TextPosition,
    >)
        requires
            buffer.wf(),
            pos_valid(buffer.text(), old(self).active),
        ensures
            pos_valid(buffer.text(), final(self).active),
            old(self).active.line + 1 >= line_count(buffer.text()) ==> r is None && *final(self)
                == *old(self),
            old(self).active.line + 1 < line_count(buffer.text()) ==> {
                let np = vertical_target(
                    buffer.text(),
                    *editor_mode,
                    *old(self),
                    old(self).active.line + 1,
                );
                &&& r == Some(np)
                &&& final(self).active == np
                &&& final(self).anchor == (if editor_mode is Visual {
                    old(self).anchor
                } else {
                    np
                })
                &&& final(self).preferred_column == old(self).preferred_column
            },
    {
        let cur = self.position();
        let lines = buffer.total_lines();
        if cur.line + 1 >= lines {
            return None;
        }
        let target_line = cur.line + 1;
        let target_col = match self.preferred_column {
            Some(c) => c,
            None => cur.col,
        };
        let max_col = self.get_max_col(editor_mode, buffer, target_line);
        let new_col = if target_col < max_col {
            target_col
        } else {
            max_col
        };
        let new_off = buffer.grapheme_col_to_offset(target_line, new_col);
        let new_pos = TextPosition { line: target_line, col: new_col, offset: new_off };
        let keep_anchor = matches!(editor_mode, EditorMode::Visual);
        self.move_to(
            new_pos,
            MoveOpts {
                anchor: if keep_anchor {
                    Some(self.anchor)
                } else {
                    None
                },
                update_preferred_col: false,
            },
            buffer,
        );
        Some(new_pos)
    }

    /// When landing in normal mode with the cursor one past the last
    /// cluster (an insert-mode-only position), clamp back onto the last
    /// cluster. Other modes are left alone.
    pub fn adjust_for_mode(&mut self, buffer: &Buffer, editor_mode: &EditorMode)
        requires
            buffer.wf(),
            pos_valid(buffer.text(), old(self).active),
        ensures
            pos_valid(buffer.text(), final(self).active),
            ({
                let lgc = line_grapheme_count(buffer.text(), old(self).active.line as int);
                if editor_mode is Normal && lgc > 0 && old(self).active.col >= lgc {
                    let np = TextPosition {
                        line: old(self).active.line,
                        col: (lgc - 1) as usize,
                        offset: col_offset(
                            buffer.text(),
                            old(self).active.line as int,
                            lgc - 1,
                        ) as usize,
                    };
                    &&& final(self).active == np
                    &&& final(self).anchor == np
                    &&& final(self).preferred_column == Some(np.col)
                } else {
                    *final(self) == *old(self)
                }
            }),
    {
        match editor_mode {
            EditorMode::Normal => {
                let cur = self.position();
                let line_len = buffer.grapheme_len(cur.line);
                if line_len > 0 && cur.col >= line_len {
                    let new_col = line_len - 1;
                    let new_off = buffer.grapheme_col_to_offset(cur.line, new_col);
                    let new_pos = TextPosition { line: cur.line, col: new_col, offset: new_off };
                    self.move_to(
                        new_pos,
                        MoveOpts { anchor: None, update_preferred_col: true },
                        buffer,
                    );
                }
            },
            _ => {},
        }
    }

    /// Forward word motion: see `crate::words::word_fwd_target` for the
    /// exact landing rule. Selects from the starting position (or keeps the
    /// selection in visual mode while the landing class matches); `None`
    /// (and no change) when the motion would run off the buffer end.
    pub fn move_word_forward(&mut self, buffer: &Buffer, big_word: bool, editor_mode: &EditorMode)
        -> (r: Option<TextPosition>)
        requires
            buffer.wf(),
            pos_valid(buffer.text(), old(self).active),
            pos_valid(buffer.text(), old(self).anchor),
        ensures
            pos_valid(buffer.text(), final(self).active),
            pos_valid(buffer.text(), final(self).anchor),
            ({
                let s = buffer.text();
                match word_fwd_target(s, old(self).active.offset as int, big_word) {
                    None => r is None && *final(self) == *old(self),
                    Some(t) => {
                        let np = pos_of_offset(s, t);
                        &&& r == Some(np)
                        &&& final(self).active == np
                        &&& final(self).anchor == (if editor_mode is Visual && char_class_spec(
                            s[old(self).active.offset as int],
                            big_word,
                        ) == char_class_spec(s[t], big_word) {
                            old(self).anchor
                        } else {
                            pos_of_offset(s, word_fwd_anchor(s, old(self).active.offset as int, big_word))
                        })
                        &&& final(self).preferred_column == Some(np.col)
                    },
                }
            }),
    {
        let ghost s = buffer.text();
        let total = buffer.total_chars();
        let start = self.position();
        proof {
            lemma_pos_valid_offset_bound(s, start);
        }
        let mut off = start.offset;
        if off >= total {
            return None;
        }
        let chars = rope_to_chars(&buffer.content);
        let cur_class = get_char_class(chars[off], big_word);
        off = scan_class_fwd_exec(&chars, off, cur_class, big_word);
        if off >= total {
            return None;
        }
        off = scan_ws_fwd_exec(&chars, off, big_word);
        if off >= total {
            return None;
        }
        let anchor_off = off;
        let landed_class = get_char_class(chars[off], big_word);
        match landed_class {
            CharClass::Word => {
                off = extend_run_fwd_exec(&chars, off, CharClass::Word, big_word);
                if matches!(cur_class, CharClass::Punctuation) && off + 1 < total && chars[off + 1]
                    != '\n' && matches!(
                    get_char_class(chars[off + 1], big_word),
                    CharClass::Whitespace,
                ) {
                    off = off + 1;
                }
            },
            CharClass::Punctuation => {
                off = extend_run_fwd_exec(&chars, off, CharClass::Punctuation, big_word);
                if off + 1 < total && chars[off + 1] != '\n' && matches!(
                    get_char_class(chars[off + 1], big_word),
                    CharClass::Whitespace,
                ) {
                    off = off + 1;
                }
            },
            CharClass::Whitespace => {},
        }
        if off < total && chars[off] == '\n' && off + 1 < total {
            off = off + 1;
        }
        if big_word {
            off = scan_ws_nolf_exec(&chars, off);
        }
        if off >= total {
            return None;
        }
        proof {
            assert(off as int == word_fwd_target(s, start.offset as int, big_word)->Some_0);
        }
        let dest = buffer.position_for_offset(off);
        let new_anchor = buffer.position_for_offset(anchor_off);
        let keep_anchor = matches!(editor_mode, EditorMode::Visual) && get_char_class(
            chars[start.offset],
            big_word,
        ) == get_char_class(chars[off], big_word);
        self.move_to(
            dest,
            MoveOpts {
                anchor: if keep_anchor {
                    Some(self.anchor)
                } else {
                    Some(new_anchor)
                },
                update_preferred_col: true,
            },
            buffer,
        )
    }

    /// Backward word motion: see `crate::words::word_back_target` for the
    /// exact landing rule. `None` (and no change) at the buffer start.
    pub fn move_word_backward(&mut self, buffer: &Buffer, big_word: bool, editor_mode: &EditorMode)
        -> (r: Option<TextPosition>)
        requires
            buffer.wf(),
            pos_valid(buffer.text(), old(self).active),
        ensures
            pos_valid(buffer.text(), final(self).active),
            old(self).active.offset == 0 ==> r is None && *final(self) == *old(self),
            old(self).active.offset > 0 ==> ({
                let s = buffer.text();
                let t = word_back_target(
                    s,
                    old(self).active.offset as int,
                    old(self).active.col as int,
                    big_word,
                );
                let np = pos_of_offset(s, t);
                &&& r == Some(np)
                &&& final(self).active == np
                &&& final(self).anchor == (if editor_mode is Visual {
                    old(self).anchor
                } else {
                    old(self).active
                })
                &&& final(self).preferred_column == Some(np.col)
            }),
    {
        let ghost s = buffer.text();
        let start = self.position();
        proof {
            lemma_pos_valid_offset_bound(s, start);
        }
        if start.offset == 0 {
            return None;
        }
        let total = buffer.total_chars();
        let chars = rope_to_chars(&buffer.content);
        let mut off = start.offset;
        let cur_class = if off < total {
            get_char_class(chars[off], big_word)
        } else {
            CharClass::Whitespace
        };
        let prev_char = chars[off - 1];
        let prev_class = get_char_class(prev_char, big_word);
        let at_word_start = is_whitespace_exec(prev_char) || prev_char == '\n' || (!big_word
            && matches!(cur_class, CharClass::Punctuation)) || !(cur_class == prev_class);
        if !at_word_start {
            if !big_word && matches!(cur_class, CharClass::Punctuation) {
                // A mid-run punctuation cursor stays put here; the word-start
                // test above already routed every punctuation cursor away in
                // small-word mode.
            } else {
                off = scan_back_same_exec(&chars, off, cur_class, big_word);
            }
        } else {
            off = off - 1;
            if chars[off] == '\n' && off > 0 {
                off = off - 1;
            }
            let landed_class = get_char_class(chars[off], big_word);
            match landed_class {
                CharClass::Whitespace => {
                    let ws_start = off;
                    off = scan_back_ws_exec(&chars, off);
                    let ws_len = ws_start - off + 1;
                    let at_line_beginning = off == 0 || chars[off - 1] == '\n';
                    if ws_len == 1 && !at_line_beginning && off > 0 {
                        off = off - 1;
                        let new_class = get_char_class(chars[off], big_word);
                        match new_class {
                            CharClass::Word => {
                                off = scan_back_same_exec(&chars, off, CharClass::Word, big_word);
                            },
                            CharClass::Punctuation => {
                                if !big_word {
                                    off = scan_back_same_exec(
                                        &chars,
                                        off,
                                        CharClass::Punctuation,
                                        big_word,
                                    );
                                }
                            },
                            CharClass::Whitespace => {},
                        }
                    }
                },
                CharClass::Punctuation => {
                    if start.col == 0 && !big_word {
                        off = scan_opener_exec(&chars, off, off, big_word);
                    } else {
                        off = scan_back_same_exec(&chars, off, CharClass::Punctuation, big_word);
                    }
                },
                CharClass::Word => {
                    off = scan_back_same_exec(&chars, off, CharClass::Word, big_word);
                },
            }
        }
        proof {
            assert(off as int == word_back_target(
                s,
                start.offset as int,
                start.col as int,
                big_word,
            ));
        }
        let dest = buffer.position_for_offset(off);
        let keep_anchor = matches!(editor_mode, EditorMode::Visual);
        self.move_to(
            dest,
            MoveOpts {
                anchor: if keep_anchor {
                    Some(self.anchor)
                } else {
                    Some(start)
                },
                update_preferred_col: true,
            },
            buffer,
        )
    }

    /// Word-end motion: see `crate::words::word_end_target` for the exact
    /// landing rule. `None` (and no change) at the buffer end.
    pub fn move_word_end(&mut self, buffer: &Buffer, big_word: bool, editor_mode: &EditorMode)
        -> (r: Option<TextPosition>)
        requires
            buffer.wf(),
            pos_valid(buffer.text(), old(self).active),
        ensures
            pos_valid(buffer.text(), final(self).active),
            ({
                let s = buffer.text();
                match word_end_target(s, old(self).active.offset as int, big_word) {
                    None => r is None && *final(self) == *old(self),
                    Some(t) => {
                        let np = pos_of_offset(s, t);
                        &&& r == Some(np)
                        &&& final(self).active == np
                        &&& final(self).anchor == (if editor_mode is Visual {
                            old(self).anchor
                        } else {
                            old(self).active
                        })
                        &&& final(self).preferred_column == Some(np.col)
                    },
                }
            }),
    {
        let ghost s = buffer.text();
        let total = buffer.total_chars();
        let start = self.position();
        proof {
            lemma_pos_valid_offset_bound(s, start);
        }
        let mut idx = start.offset;
        if idx >= total {
            return None;
        }
        if idx + 1 < total {
            idx = idx + 1;
        } else {
            return None;
        }
        let chars = rope_to_chars(&buffer.content);
        idx = scan_class_fwd_exec(&chars, idx, CharClass::Whitespace, big_word);
        if idx >= total {
            return None;
        }
        let current_class = get_char_class(chars[idx], big_word);
        let last = extend_run_end_exec(&chars, idx, current_class, big_word);
        proof {
            assert(last as int == word_end_target(s, start.offset as int, big_word)->Some_0);
        }
        let dest = buffer.position_for_offset(last);
        let keep_anchor = matches!(editor_mode, EditorMode::Visual);
        self.move_to(
            dest,
            MoveOpts {
                anchor: if keep_anchor {
                    Some(self.anchor)
                } else {
                    Some(start)
                },
                update_preferred_col: true,
            },
            buffer,
        )
    }

    /// The rightmost reachable column of `target` in this mode.
    fn get_max_col(&self, editor_mode: &EditorMode, buffer: &Buffer, target: usize) -> (r: usize)
        requires
            (target as int) < line_count(buffer.text()),
        ensures
            r as int == max_col_spec(buffer.text(), *editor_mode, target as int),
    {
        match editor_mode {
            EditorMode::Normal | EditorMode::Visual => {
                let line_len = buffer.grapheme_len(target);
                if line_len == 0 {
                    0
                } else {
                    line_len - 1
                }
            },
            EditorMode::Insert => buffer.grapheme_len(target),
        }
    }

    /// The selection's two ends ordered by offset: the smaller first.
    pub fn get_selection_range(&self) -> (r: (TextPosition, TextPosition))
        ensures
            r.0.offset <= r.1.offset,
            (r.0 == self.anchor && r.1 == self.active) || (r.0 == self.active && r.1
                == self.anchor),
            self.anchor.offset <= self.active.offset ==> r == (self.anchor, self.active),
            self.anchor.offset > self.active.offset ==> r == (self.active, self.anchor),
    {
        if self.anchor.offset <= self.active.offset {
            (self.anchor, self.active)
        } else {
            (self.active, self.anchor)
        }
    }
}

} // verus!
