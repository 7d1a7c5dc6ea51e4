use atlas_engine::buffer::Buffer;
use atlas_engine::cursor::{MoveOpts, TextPosition};
use atlas_engine::multi_cursor::MultiCursor;
use atlas_engine::EditorMode;

fn buffer_string(buffer: &Buffer) -> String {
    buffer.content.to_string()
}

/// Broadcasting an insertion to two cursors applies it in ascending order:
/// the second insertion point has shifted by the first insertion.
#[test]
fn two_cursor_insert_applies_ascending() {
    let buffer0 = Buffer::new("abcdef", "multi insert");
    let mut buffer = buffer0;
    let mut mc = MultiCursor::new();
    mc.primary_mut().move_to(
        TextPosition::new(0, 2, 2),
        MoveOpts { anchor: None, update_preferred_col: true },
        &buffer,
    );
    mc.add_cursor(TextPosition::new(0, 5, 5), &buffer);
    assert_eq!(mc.all_cursors().len(), 2);

    buffer.insert_char(&mut mc, 'X');

    assert_eq!(buffer_string(&buffer), "abXcdeXf");
    // Both cursors end up one past their inserted 'X'.
    let offsets: Vec<usize> = mc.all_cursors().iter().map(|c| c.position().offset).collect();
    assert_eq!(offsets, vec![3, 7]);
}

/// Backspace at column 0 of a non-first line joins it onto the previous
/// line; the cursor lands at that line's old grapheme length.
#[test]
fn backspace_at_line_start_joins_lines() {
    let mut buffer = Buffer::new("ab\ncd", "join test");
    let mut mc = MultiCursor::new();
    mc.primary_mut().move_to(
        TextPosition::new(1, 0, 3),
        MoveOpts { anchor: None, update_preferred_col: true },
        &buffer,
    );

    buffer.backspace(&mut mc);

    assert_eq!(buffer_string(&buffer), "abcd");
    let pos = mc.position();
    assert_eq!((pos.line, pos.col, pos.offset), (0, 2, 2));
}

/// Deleting a selection that spans two lines removes exactly the inclusive
/// range and collapses the cursor at the range start.
#[test]
fn delete_selection_spanning_lines() {
    let mut buffer = Buffer::new("abc\ndef", "selection test");
    let mut mc = MultiCursor::new();
    mc.primary_mut().move_to(
        TextPosition::new(1, 1, 5),
        MoveOpts { anchor: Some(TextPosition::new(0, 1, 1)), update_preferred_col: false },
        &buffer,
    );

    buffer.delete_selection(&mut mc);

    assert_eq!(buffer_string(&buffer), "af");
    let pos = mc.position();
    assert_eq!((pos.line, pos.col, pos.offset), (0, 1, 1));
    assert!(!mc.primary().has_selection());
}

/// Adding a cursor at an existing cursor's offset leaves the set size
/// unchanged: the merge absorbs the duplicate.
#[test]
fn add_cursor_at_same_offset_is_absorbed() {
    let buffer = Buffer::new("hello", "dup test");
    let mut mc = MultiCursor::new();
    mc.primary_mut().move_to(
        TextPosition::new(0, 3, 3),
        MoveOpts { anchor: None, update_preferred_col: false },
        &buffer,
    );
    mc.merge_overlapping();
    assert_eq!(mc.all_cursors().len(), 1);
    mc.add_cursor(TextPosition::new(0, 3, 3), &buffer);
    assert_eq!(mc.all_cursors().len(), 1);
}

/// After a broadcast motion every active offset is distinct; cursors that
/// collide are merged away.
#[test]
fn broadcast_motion_keeps_offsets_distinct() {
    let buffer = Buffer::new("abc", "distinct test");
    let mut mc = MultiCursor::new();
    mc.primary_mut().move_to(
        TextPosition::new(0, 1, 1),
        MoveOpts { anchor: None, update_preferred_col: false },
        &buffer,
    );
    mc.add_cursor(TextPosition::new(0, 0, 0), &buffer);
    assert_eq!(mc.all_cursors().len(), 2);

    // Both step left; the cursor at 0 cannot move, so they collide at 0.
    mc.move_left(&buffer, &EditorMode::Normal);
    assert_eq!(mc.all_cursors().len(), 1);
    assert_eq!(mc.position().offset, 0);
}

/// Merging an already-merged set changes nothing.
#[test]
fn merge_is_idempotent() {
    let buffer = Buffer::new("abcdef", "merge test");
    let mut mc = MultiCursor::new();
    mc.primary_mut().move_to(
        TextPosition::new(0, 2, 2),
        MoveOpts { anchor: None, update_preferred_col: false },
        &buffer,
    );
    mc.add_cursor(TextPosition::new(0, 5, 5), &buffer);
    mc.merge_overlapping();
    let before: Vec<usize> = mc.all_cursors().iter().map(|c| c.position().offset).collect();
    let primary_before = mc.position().offset;

    mc.merge_overlapping();

    let after: Vec<usize> = mc.all_cursors().iter().map(|c| c.position().offset).collect();
    assert_eq!(before, after);
    assert_eq!(mc.position().offset, primary_before);
}

/// Inserting at two cursors ascending equals inserting one at a time from
/// the rightmost offset to the leftmost at the original offsets.
#[test]
fn ascending_batch_equals_rightmost_first() {
    let mut left = Buffer::new("abcdef", "batch");
    let mut mc = MultiCursor::new();
    mc.primary_mut().move_to(
        TextPosition::new(0, 2, 2),
        MoveOpts { anchor: None, update_preferred_col: false },
        &left,
    );
    mc.add_cursor(TextPosition::new(0, 5, 5), &left);
    left.insert_text(&mut mc, "xy");

    // Rightmost first, original offsets, no re-derivation needed.
    let mut right = Buffer::new("abcdef", "by hand");
    let mut one = MultiCursor::new();
    one.primary_mut().move_to(
        TextPosition::new(0, 5, 5),
        MoveOpts { anchor: None, update_preferred_col: false },
        &right,
    );
    right.insert_text(&mut one, "xy");
    let mut two = MultiCursor::new();
    two.primary_mut().move_to(
        TextPosition::new(0, 2, 2),
        MoveOpts { anchor: None, update_preferred_col: false },
        &right,
    );
    right.insert_text(&mut two, "xy");

    assert_eq!(buffer_string(&left), buffer_string(&right));
    assert_eq!(buffer_string(&left), "abxycdexyf");
}

/// Inserting a line break splits the line and puts the cursor at the new
/// line's start.
#[test]
fn insert_newline_splits_line() {
    let mut buffer = Buffer::new("abcd", "newline test");
    let mut mc = MultiCursor::new();
    mc.primary_mut().move_to(
        TextPosition::new(0, 2, 2),
        MoveOpts { anchor: None, update_preferred_col: false },
        &buffer,
    );
    buffer.insert_newline(&mut mc);
    assert_eq!(buffer_string(&buffer), "ab\ncd");
    let pos = mc.position();
    assert_eq!((pos.line, pos.col, pos.offset), (1, 0, 3));
}

/// Delete removes the grapheme under each cursor and nothing at the buffer
/// end.
#[test]
fn delete_under_cursor() {
    let mut buffer = Buffer::new("abc", "delete test");
    let mut mc = MultiCursor::new();
    mc.primary_mut().move_to(
        TextPosition::new(0, 1, 1),
        MoveOpts { anchor: None, update_preferred_col: false },
        &buffer,
    );
    buffer.delete(&mut mc);
    assert_eq!(buffer_string(&buffer), "ac");
    // At the end of the buffer there is nothing under the cursor.
    let mut end = MultiCursor::new();
    end.primary_mut().move_to(
        TextPosition::new(0, 2, 2),
        MoveOpts { anchor: None, update_preferred_col: false },
        &buffer,
    );
    buffer.delete(&mut end);
    assert_eq!(buffer_string(&buffer), "ac");
}

/// Text inserted at several cursors lands at every cursor, newline
/// included.
#[test]
fn insert_text_with_newline_tracks_lines() {
    let mut buffer = Buffer::new("ab", "text test");
    let mut mc = MultiCursor::new();
    mc.primary_mut().move_to(
        TextPosition::new(0, 1, 1),
        MoveOpts { anchor: None, update_preferred_col: false },
        &buffer,
    );
    buffer.insert_text(&mut mc, "x\ny");
    assert_eq!(buffer_string(&buffer), "ax\nyb");
    let pos = mc.position();
    assert_eq!((pos.line, pos.col, pos.offset), (1, 1, 4));
}

/// Clearing secondary cursors keeps only the primary.
#[test]
fn clear_secondary_keeps_primary() {
    let buffer = Buffer::new("abcdef", "clear test");
    let mut mc = MultiCursor::new();
    mc.primary_mut().move_to(
        TextPosition::new(0, 4, 4),
        MoveOpts { anchor: None, update_preferred_col: false },
        &buffer,
    );
    mc.add_cursor(TextPosition::new(0, 1, 1), &buffer);
    assert_eq!(mc.all_cursors().len(), 2);
    let primary_offset = mc.position().offset;
    mc.clear_secondary_cursors();
    assert_eq!(mc.all_cursors().len(), 1);
    assert_eq!(mc.position().offset, primary_offset);
}

/// Refreshing positions recomputes a stale offset from (line, col).
#[test]
fn refresh_positions_fixes_stale_offset() {
    let buffer = Buffer::new("abc\ndef", "refresh test");
    let mut mc = MultiCursor::new();
    // A position whose (line, col) is right but whose offset is stale.
    mc.primary_mut().move_to(
        TextPosition::new(1, 1, 5),
        MoveOpts { anchor: None, update_preferred_col: false },
        &buffer,
    );
    let cursors = mc.all_cursors_mut();
    cursors[0].active.offset = 4; // knock the offset out of sync
    mc.refresh_positions(&buffer);
    assert_eq!(mc.position().offset, 5);
}

/// Applying a function to every cursor merges the results.
#[test]
fn apply_to_all_merges_results() {
    let buffer = Buffer::new("abcdef", "apply test");
    let mut mc = MultiCursor::new();
    mc.primary_mut().move_to(
        TextPosition::new(0, 2, 2),
        MoveOpts { anchor: None, update_preferred_col: false },
        &buffer,
    );
    mc.add_cursor(TextPosition::new(0, 4, 4), &buffer);
    // Collapse every cursor onto the buffer start; they all collide there.
    mc.apply_to_all(|c| {
        let mut n = *c;
        n.active = TextPosition::new(0, 0, 0);
        n.anchor = n.active;
        n
    });
    assert_eq!(mc.all_cursors().len(), 1);
    assert_eq!(mc.position().offset, 0);
}

/// Selection bookkeeping on a single cursor.
#[test]
fn selection_bookkeeping() {
    let buffer = Buffer::new("abcd", "selection bookkeeping");
    let mut mc = MultiCursor::new();
    let cursor = mc.primary_mut();
    cursor.move_to(
        TextPosition::new(0, 1, 1),
        MoveOpts { anchor: None, update_preferred_col: true },
        &buffer,
    );
    assert_eq!(cursor.get_preferred_column(), Some(1));
    assert!(!cursor.has_selection());
    cursor.start_selection();
    cursor.move_to(
        TextPosition::new(0, 3, 3),
        MoveOpts { anchor: Some(TextPosition::new(0, 1, 1)), update_preferred_col: false },
        &buffer,
    );
    assert!(cursor.has_selection());
    let (lo, hi) = cursor.get_selection_range();
    assert_eq!((lo.offset, hi.offset), (1, 3));
    cursor.collapse_selection();
    assert!(!cursor.has_selection());
    cursor.clear_selection();
    assert_eq!(cursor.get_preferred_column(), None);
}
