//! Key-to-action translation for the modal layer: motions and operators as
//! plain values, and the small parser that folds counts, pending operators
//! and motion keys into one action.

use vstd::prelude::*;

use crate::EditorMode;

verus! {

/// An upper bound on pending counts; further digits saturate here instead
/// of overflowing.
pub const COUNT_LIMIT: usize = 100000000;

/// A cursor motion a key can ask for; word motions carry their big-word
/// flag.
#[derive(Debug, Clone, Copy, PartialEq, Eq, Structural)]
pub enum Motion {
    CharLeft,
    CharRight,
    CharUp,
    CharDown,
    ToLineStart,
    ToLineEnd,
    NextWordStart(bool),
    NextWordEnd(bool),
    PrevWord(bool),
}

pub open spec fn from_hjkl_spec(c: char) -> Option<Motion> {
    if c == 'h' {
        Some(Motion::CharLeft)
    } else if c == 'j' {
        Some(Motion::CharDown)
    } else if c == 'k' {
        Some(Motion::CharUp)
    } else if c == 'l' {
        Some(Motion::CharRight)
    } else if c == 'w' {
        Some(Motion::NextWordStart(false))
    } else if c == 'W' {
        Some(Motion::NextWordStart(true))
    } else if c == 'b' {
        Some(Motion::PrevWord(false))
    } else if c == 'B' {
        Some(Motion::PrevWord(true))
    } else if c == 'e' {
        Some(Motion::NextWordEnd(false))
    } else if c == 'E' {
        Some(Motion::NextWordEnd(true))
    } else {
        None
    }
}

impl Motion {
    /// The motion a plain key asks for, if any.
    pub fn from_hjkl(c: char) -> (r: Option<Motion>)
        ensures
            r == from_hjkl_spec(c),
    {
        match c {
            'h' => Some(Motion::CharLeft),
            'j' => Some(Motion::CharDown),
            'k' => Some(Motion::CharUp),
            'l' => Some(Motion::CharRight),
            'w' => Some(Motion::NextWordStart(false)),
            'W' => Some(Motion::NextWordStart(true)),
            'b' => Some(Motion::PrevWord(false)),
            'B' => Some(Motion::PrevWord(true)),
            'e' => Some(Motion::NextWordEnd(false)),
            'E' => Some(Motion::NextWordEnd(true)),
            _ => None,
        }
    }
}

/// An operator awaiting a motion.
#[derive(Debug, Clone, Copy, PartialEq, Eq, Structural)]
pub enum Operator {
    Delete,
    Yank,
    Change,
}

pub open spec fn from_char_spec(c: char) -> Option<Operator> {
    if c == 'd' {
        Some(Operator::Delete)
    } else if c == 'y' {
        Some(Operator::Yank)
    } else if c == 'c' {
        Some(Operator::Change)
    } else {
        None
    }
}

impl Operator {
    /// The operator a key asks for, if any.
    pub fn from_char(c: char) -> (r: Option<Operator>)
        ensures
            r == from_char_spec(c),
    {
        match c {
            'd' => Some(Operator::Delete),
            'y' => Some(Operator::Yank),
            'c' => Some(Operator::Change),
            _ => None,
        }
    }
}

/// The mode state the vim parser tracks.
#[derive(Debug, Clone, Copy, PartialEq, Eq, Structural)]
pub enum VimMode {
    Normal,
    Insert,
}

/// One complete editing action for the editor to execute.
#[derive(Debug, Clone, PartialEq, Eq)]
pub enum VimAction {
    InsertChar(char),
    InsertText(String),
    InsertNewline,
    Move { motion: Motion, count: usize },
    Operate { op: Operator, motion: Motion, count: usize },
    ChangeMode(VimMode),
    RepeatLast,
    Backspace,
    Delete,
}

/// One complete editing action against a cursor set, mode changes
/// included.
#[derive(Debug, Clone, PartialEq, Eq)]
pub enum Action {
    InsertChar(char),
    InsertText(String),
    InsertNewline,
    Move { motion: Motion, count: usize },
    Operate { op: Operator, motion: Motion, count: usize },
    ChangeMode(EditorMode),
    RepeatLast,
    Backspace,
    Delete,
    DeleteSelection,
    AddCursor,
    RemoveSecondaryCursors,
}

/// The pending pieces of a normal-mode command.
#[derive(Debug, Clone, PartialEq, Eq)]
pub struct Parser {
    pub count: Option<usize>,
    pub pending_op: Option<Operator>,
}

pub open spec fn is_count_digit(p: Parser, c: char) -> bool {
    48 <= c as int <= 57 && !(c == '0' && p.count is None)
}

/// A digit folds into the pending count, saturating at `COUNT_LIMIT`.
pub open spec fn folded_count(p: Parser, c: char) -> usize {
    let cur = match p.count {
        Some(n) => n as int,
        None => 0int,
    };
    if cur >= COUNT_LIMIT {
        cur as usize
    } else {
        (cur * 10 + (c as int - 48)) as usize
    }
}

/// What one key does to the parser: the new state and at most one action.
pub open spec fn feed_key_spec(p: Parser, c: char) -> (Parser, Option<VimAction>) {
    if is_count_digit(p, c) {
        (Parser { count: Some(folded_count(p, c)), pending_op: p.pending_op }, None)
    } else if from_char_spec(c) is Some {
        match p.pending_op {
            Some(pending) => (
                Parser { count: None, pending_op: None },
                Some(
                    VimAction::Operate {
                        op: pending,
                        motion: Motion::ToLineStart,
                        count: count_or_one(p),
                    },
                ),
            ),
            None => (
                Parser { count: p.count, pending_op: from_char_spec(c) },
                None,
            ),
        }
    } else if from_hjkl_spec(c) is Some {
        match p.pending_op {
            Some(op) => (
                Parser { count: None, pending_op: None },
                Some(
                    VimAction::Operate {
                        op,
                        motion: from_hjkl_spec(c)->Some_0,
                        count: count_or_one(p),
                    },
                ),
            ),
            None => (
                Parser { count: None, pending_op: None },
                Some(
                    VimAction::Move { motion: from_hjkl_spec(c)->Some_0, count: count_or_one(p) },
                ),
            ),
        }
    } else if c == 'i' {
        (p, Some(VimAction::ChangeMode(VimMode::Insert)))
    } else if c == '\u{1b}' {
        (p, Some(VimAction::ChangeMode(VimMode::Normal)))
    } else if c == '.' {
        (p, Some(VimAction::RepeatLast))
    } else if c == 'x' {
        (p, Some(VimAction::Delete))
    } else {
        (Parser { count: None, pending_op: None }, None)
    }
}

/// The pending count, defaulting to one.
pub open spec fn count_or_one(p: Parser) -> usize {
    match p.count {
        Some(n) => n,
        None => 1usize,
    }
}

impl Parser {
    /// A parser with nothing pending.
    pub fn new() -> (r: Self)
        ensures
            r.count is None,
            r.pending_op is None,
    {
        Parser { count: None, pending_op: None }
    }

    /// Feed one key; returns a complete action when one is finished.
    pub fn feed_key(&mut self, c: char) -> (r: Option<VimAction>)
        ensures
            *final(self) == feed_key_spec(*old(self), c).0,
            r == feed_key_spec(*old(self), c).1,
    {
        let d = c as u32;
        let is_digit = d >= 48 && d <= 57;
        if is_digit && !(c == '0' && self.count.is_none()) {
            let cur: usize = match self.count {
                Some(n) => n,
                None => 0,
            };
            let newc: usize = if cur >= COUNT_LIMIT {
                cur
            } else {
                cur * 10 + ((d - 48) as usize)
            };
            self.count = Some(newc);
            return None;
        }
        if let Some(op) = Operator::from_char(c) {
            // A second operator key completes the doubled form (the
            // line-start motion stands in for the whole-line motion).
            if let Some(pending) = self.pending_op {
                let count = match self.count {
                    Some(n) => n,
                    None => 1,
                };
                self.count = None;
                self.pending_op = None;
                return Some(
                    VimAction::Operate { op: pending, motion: Motion::ToLineStart, count },
                );
            }
            self.pending_op = Some(op);
            return None;
        }
        if let Some(motion) = Motion::from_hjkl(c) {
            let count = match self.count {
                Some(n) => n,
                None => 1,
            };
            self.count = None;
            if let Some(op) = self.pending_op {
                self.pending_op = None;
                return Some(VimAction::Operate { op, motion, count });
            }
            self.pending_op = None;
            return Some(VimAction::Move { motion, count });
        }
        match c {
            'i' => {
                return Some(VimAction::ChangeMode(VimMode::Insert));
            },
            '\u{1b}' => {
                return Some(VimAction::ChangeMode(VimMode::Normal));
            },
            '.' => {
                return Some(VimAction::RepeatLast);
            },
            'x' => {
                return Some(VimAction::Delete);
            },
            _ => {},
        }
        self.reset();
        None
    }

    /// Clear any pending count and operator.
    pub fn reset(&mut self)
        ensures
            final(self).count is None,
            final(self).pending_op is None,
    {
        self.count = None;
        self.pending_op = None;
    }
}

} // verus!
