use atlas_engine::buffer::Buffer;
use atlas_engine::cursor::{Cursor, MoveOpts, TextPosition};
use atlas_engine::EditorMode;

/// Debug test to understand word movement.
#[test]
fn debug_word_movement() {
    let text = "int main() {\n    printf(\"hello world\");\n}\n";
    let buffer = Buffer::new(text, "debug test");

    let mut cursor = Cursor::new();
    cursor.move_to(
        TextPosition::new(0, 7, 7), // Position at 'n' in "main".
        MoveOpts { anchor: None, update_preferred_col: true },
        &buffer,
    );

    // Try the word movement.
    let result = cursor.move_word_forward(&buffer, false, &EditorMode::Normal);

    // Verify we moved from 'n' to the space after ')'.
    assert!(result.is_some());
    let pos = cursor.position();
    assert_eq!(pos.line, 0);
    assert_eq!(pos.col, 10); // Space after ')'.
}

#[test]
fn visual_w_skips_leading_punct() {
    let buffer = Buffer::new("#include <stdio.h>", "t");
    let mut cur = Cursor::new();

    // put cursor on '#', enter visual mode (anchor == active here)
    cur.move_to(
        TextPosition::new(0, 0, 0),
        MoveOpts { anchor: None, update_preferred_col: true },
        &buffer,
    );

    // pretend we are in Visual mode and press 'w'
    cur.move_word_forward(&buffer, false, &EditorMode::Visual);

    let (sel_start, sel_end) = cur.get_selection_range();
    assert_eq!(
        buffer.content.slice(sel_start.offset..sel_end.offset).to_string(),
        "include"
    );
}

/// Forward-word motion (`w`) over a small C file, pressing `w` repeatedly
/// from the `#` and checking each landing point.
#[test]
fn w_motion_matches_helix() {
    let text = "#include <stdio.h>\n\nint main() {\n\tprintf(\"hello world\");\n}\n";
    let buffer = Buffer::new(text, "helix-w-include test");

    let mut cursor = Cursor::new();
    cursor.move_to(
        TextPosition::new(0, 0, 0),
        MoveOpts { anchor: None, update_preferred_col: true },
        &buffer,
    );

    // Expected (line, col) after each press of 'w'.
    let expected: &[(usize, usize)] = &[
        (0, 8),  // space between 'e' and '<'.
        (0, 9),  // '<'.
        (0, 14), // 'o'  in "stdio".
        (0, 15), // '.'.
        (0, 16), // 'h'.
        (0, 17), // '>'.
        (2, 3),  // space between 't' and 'm'.
        (2, 7),  // 'n' (last char of "main").
        (2, 10), // space between ')' and '{'.
        (2, 11), // '{'.
        (3, 0),  // indent (tab).
        (3, 6),  // 'f' (last char of "printf").
        (3, 8),  // '"'  after '('.
        (3, 14), // space between 'o' and 'w'.
        (3, 19), // 'd'.
        (3, 22), // ';'.
        (4, 0),  // '}'.
    ];

    for (step, &(line, col)) in expected.iter().enumerate() {
        cursor
            .move_word_forward(&buffer, false, &EditorMode::Normal)
            .expect("`w` motion failed");

        let pos = cursor.position();
        assert_eq!(
            (pos.line, pos.col),
            (line, col),
            "step {}: expected cursor at ({}, {}), got ({}, {})",
            step + 1,
            line,
            col,
            pos.line,
            pos.col
        );
    }
}

/// Backward-word motion (`b`) over the same text, starting from the
/// closing brace and checking each landing point.
#[test]
fn b_motion_matches_helix() {
    let text = "#include <stdio.h>\n\nint main() {\n    printf(\"hello world\");\n}\n";
    let buffer = Buffer::new(text, "helix-b test");

    // Place the cursor on the closing '}'.
    let mut cursor = Cursor::new();
    let start_off = buffer.grapheme_col_to_offset(4, 0);
    cursor.move_to(
        TextPosition::new(4, 0, start_off),
        MoveOpts { anchor: None, update_preferred_col: true },
        &buffer,
    );

    let expected: &[(usize, usize)] = &[
        (3, 23), // '"'    after world.
        (3, 18), // 'w'.
        (3, 12), // 'h'.
        (3, 10), // '('.
        (3, 4),  // 'p'.
        (3, 0),  // indent (first space).
        (2, 11), // '{'.
        (2, 8),  // '('.
        (2, 4),  // 'm'.
        (2, 0),  // 'i'.
        (0, 17), // '>'.
        (0, 16), // 'h'.
        (0, 15), // '.'.
        (0, 10), // 's'.
        (0, 9),  // '<'.
        (0, 1),  // 'i'.
        (0, 0),  // '#'.
    ];

    for (step, &(line, col)) in expected.iter().enumerate() {
        let start_pos = cursor.position();
        let start_char = if start_pos.offset < buffer.content.len_chars() {
            buffer.content.char(start_pos.offset)
        } else {
            '\0'
        };
        println!(
            "Step {}: Starting from ({},{}) char='{}' offset={}",
            step + 1,
            start_pos.line,
            start_pos.col,
            if start_char == '\n' { '\\' } else { start_char },
            start_pos.offset
        );

        cursor
            .move_word_backward(&buffer, false, &EditorMode::Normal)
            .expect("`b` motion failed");

        let pos = cursor.position();
        let end_char = if pos.offset < buffer.content.len_chars() {
            buffer.content.char(pos.offset)
        } else {
            '\0'
        };
        println!(
            "Step {}: Ended at ({},{}) char='{}' offset={}",
            step + 1,
            pos.line,
            pos.col,
            if end_char == '\n' { '\\' } else { end_char },
            pos.offset
        );

        assert_eq!(
            (pos.line, pos.col),
            (line, col),
            "step {}: expected cursor at ({}, {}), got ({}, {})",
            step + 1,
            line,
            col,
            pos.line,
            pos.col
        );
    }
}

/// Word-end motion (`e`) lands on the last character of the next word.
#[test]
fn word_end_motion_lands_on_word_end() {
    let buffer = Buffer::new("int main() {", "e test");
    let mut cursor = Cursor::new();
    cursor.move_to(
        TextPosition::new(0, 0, 0),
        MoveOpts { anchor: None, update_preferred_col: true },
        &buffer,
    );
    cursor.move_word_end(&buffer, false, &EditorMode::Normal).expect("`e` motion failed");
    let pos = cursor.position();
    assert_eq!((pos.line, pos.col), (0, 2)); // 't' of "int"

    cursor.move_word_end(&buffer, false, &EditorMode::Normal).expect("`e` motion failed");
    let pos = cursor.position();
    assert_eq!((pos.line, pos.col), (0, 7)); // 'n' of "main"
}

/// Vertical motion keeps the sticky column across a short line.
#[test]
fn vertical_motion_preserves_preferred_column() {
    let buffer = Buffer::new("abcdef\nab\nabcdef", "sticky test");
    let mut cursor = Cursor::new();
    cursor.move_to(
        TextPosition::new(0, 4, 4),
        MoveOpts { anchor: None, update_preferred_col: true },
        &buffer,
    );
    cursor.move_down(&buffer, &EditorMode::Normal).expect("down failed");
    assert_eq!((cursor.position().line, cursor.position().col), (1, 1));
    cursor.move_down(&buffer, &EditorMode::Normal).expect("down failed");
    assert_eq!((cursor.position().line, cursor.position().col), (2, 4));
    cursor.move_up(&buffer, &EditorMode::Normal).expect("up failed");
    cursor.move_up(&buffer, &EditorMode::Normal).expect("up failed");
    assert_eq!((cursor.position().line, cursor.position().col), (0, 4));
}

/// Horizontal motion saturates at the line edges.
#[test]
fn horizontal_motion_boundaries() {
    let buffer = Buffer::new("ab", "edge test");
    let mut cursor = Cursor::new();
    assert!(cursor.move_left(&buffer, &EditorMode::Normal).is_none());
    assert!(cursor.move_right(&buffer, &EditorMode::Normal).is_some());
    // In normal mode the rightmost reachable column is the last character.
    assert!(cursor.move_right(&buffer, &EditorMode::Normal).is_none());
    // Insert mode may sit one past it.
    assert!(cursor.move_right(&buffer, &EditorMode::Insert).is_some());
    assert_eq!(cursor.position().col, 2);
    // Leaving insert mode clamps back onto the last character.
    cursor.adjust_for_mode(&buffer, &EditorMode::Normal);
    assert_eq!(cursor.position().col, 1);
}
