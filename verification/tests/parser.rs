use atlas_engine::vim::{Motion, Operator, Parser, VimAction, VimMode};

#[test]
fn motion_keys_map_to_motions() {
    assert_eq!(Motion::from_hjkl('h'), Some(Motion::CharLeft));
    assert_eq!(Motion::from_hjkl('j'), Some(Motion::CharDown));
    assert_eq!(Motion::from_hjkl('k'), Some(Motion::CharUp));
    assert_eq!(Motion::from_hjkl('l'), Some(Motion::CharRight));
    assert_eq!(Motion::from_hjkl('w'), Some(Motion::NextWordStart(false)));
    assert_eq!(Motion::from_hjkl('W'), Some(Motion::NextWordStart(true)));
    assert_eq!(Motion::from_hjkl('b'), Some(Motion::PrevWord(false)));
    assert_eq!(Motion::from_hjkl('e'), Some(Motion::NextWordEnd(false)));
    assert_eq!(Motion::from_hjkl('q'), None);
}

#[test]
fn operator_keys_map_to_operators() {
    assert_eq!(Operator::from_char('d'), Some(Operator::Delete));
    assert_eq!(Operator::from_char('y'), Some(Operator::Yank));
    assert_eq!(Operator::from_char('c'), Some(Operator::Change));
    assert_eq!(Operator::from_char('z'), None);
}

#[test]
fn count_then_motion_builds_counted_move() {
    let mut p = Parser::new();
    assert_eq!(p.feed_key('1'), None);
    assert_eq!(p.feed_key('2'), None);
    assert_eq!(
        p.feed_key('w'),
        Some(VimAction::Move { motion: Motion::NextWordStart(false), count: 12 })
    );
    // The count was consumed.
    assert_eq!(
        p.feed_key('j'),
        Some(VimAction::Move { motion: Motion::CharDown, count: 1 })
    );
}

#[test]
fn operator_then_motion_builds_operate() {
    let mut p = Parser::new();
    assert_eq!(p.feed_key('d'), None);
    assert_eq!(
        p.feed_key('w'),
        Some(VimAction::Operate {
            op: Operator::Delete,
            motion: Motion::NextWordStart(false),
            count: 1
        })
    );
}

#[test]
fn doubled_operator_uses_line_motion() {
    let mut p = Parser::new();
    assert_eq!(p.feed_key('2'), None);
    assert_eq!(p.feed_key('d'), None);
    assert_eq!(
        p.feed_key('d'),
        Some(VimAction::Operate { op: Operator::Delete, motion: Motion::ToLineStart, count: 2 })
    );
}

#[test]
fn leading_zero_is_not_a_count() {
    let mut p = Parser::new();
    // '0' with no pending count is not a digit key here; it falls through
    // and resets the parser.
    assert_eq!(p.feed_key('0'), None);
    assert_eq!(
        p.feed_key('w'),
        Some(VimAction::Move { motion: Motion::NextWordStart(false), count: 1 })
    );
}

#[test]
fn mode_keys_and_simple_actions() {
    let mut p = Parser::new();
    assert_eq!(p.feed_key('i'), Some(VimAction::ChangeMode(VimMode::Insert)));
    assert_eq!(p.feed_key('\u{1b}'), Some(VimAction::ChangeMode(VimMode::Normal)));
    assert_eq!(p.feed_key('.'), Some(VimAction::RepeatLast));
    assert_eq!(p.feed_key('x'), Some(VimAction::Delete));
}

#[test]
fn unknown_key_resets_pending_state() {
    let mut p = Parser::new();
    assert_eq!(p.feed_key('3'), None);
    assert_eq!(p.feed_key('d'), None);
    assert_eq!(p.feed_key('?'), None);
    // Count and operator are gone.
    assert_eq!(
        p.feed_key('w'),
        Some(VimAction::Move { motion: Motion::NextWordStart(false), count: 1 })
    );
}

#[test]
fn reset_clears_count_and_operator() {
    let mut p = Parser::new();
    p.feed_key('4');
    p.feed_key('d');
    p.reset();
    assert_eq!(
        p.feed_key('l'),
        Some(VimAction::Move { motion: Motion::CharRight, count: 1 })
    );
}
