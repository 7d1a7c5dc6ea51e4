use atlas_engine::buffer::Buffer;
use atlas_engine::cursor::TextPosition;

/// Round trip: a valid (line, col) pair mapped to its offset and back
/// comes out unchanged, also for multi-character grapheme clusters.
#[test]
fn offset_round_trip() {
    let buffer = Buffer::new("int main() {\n    x;\n}\n", "roundtrip");
    let lines = buffer.total_lines();
    let mut line = 0;
    while line < lines {
        let glen = buffer.grapheme_len(line);
        let mut col = 0;
        while col <= glen {
            let off = buffer.grapheme_col_to_offset(line, col);
            let p = buffer.position_for_offset(off);
            assert_eq!((p.line, p.col, p.offset), (line, col, off));
            col += 1;
        }
        line += 1;
    }
}

/// A combining sequence is one column but two characters.
#[test]
fn combining_sequence_is_one_column() {
    let buffer = Buffer::new("e\u{301}x", "cluster test");
    assert_eq!(buffer.visual_line_length(0), 3);
    assert_eq!(buffer.grapheme_len(0), 2);
    assert_eq!(buffer.grapheme_col_to_offset(0, 1), 2);
    let p = buffer.position_for_offset(2);
    assert_eq!((p.line, p.col, p.offset), (0, 1, 2));
}

/// Grapheme stepping round trip: one step back and one step forward from a
/// cluster boundary returns to it.
#[test]
fn grapheme_step_round_trip() {
    let buffer = Buffer::new("ae\u{301}b", "step test");
    // Boundaries are 0, 1, 3, 4.
    assert_eq!(buffer.prev_grapheme_offset(3), 1);
    assert_eq!(buffer.next_grapheme_offset(1), 3);
    assert_eq!(buffer.next_grapheme_offset(buffer.prev_grapheme_offset(3)), 3);
    assert_eq!(buffer.next_grapheme_offset(buffer.prev_grapheme_offset(4)), 4);
    // Saturation at the edges.
    assert_eq!(buffer.prev_grapheme_offset(0), 0);
    assert_eq!(buffer.next_grapheme_offset(4), 4);
}

/// Visible line content strips the terminator, including a carriage
/// return.
#[test]
fn visible_line_strips_terminators() {
    let buffer = Buffer::new("ab\r\ncd\n", "strip test");
    assert_eq!(buffer.visible_line_content(0), "ab");
    assert_eq!(buffer.visible_line_content(1), "cd");
    assert_eq!(buffer.total_lines(), 3);
    assert_eq!(buffer.visible_line_content(2), "");
}

/// Grapheme substrings slice by cluster, not by character.
#[test]
fn grapheme_substring_slices_clusters() {
    let buffer = Buffer::new("ae\u{301}bc", "substr test");
    assert_eq!(buffer.grapheme_substring(0, 1, 2), "e\u{301}b");
    assert_eq!(buffer.grapheme_substring(0, 3, 5), "c");
    assert_eq!(buffer.grapheme_substring(0, 9, 2), "");
}

/// The coordinate validator accepts exactly the in-sync triples.
#[test]
fn validate_position_checks_the_invariant() {
    let buffer = Buffer::new("ab\ncd", "validate test");
    assert!(buffer.validate_position(&TextPosition::new(1, 1, 4)));
    assert!(!buffer.validate_position(&TextPosition::new(1, 1, 3)));
    assert!(!buffer.validate_position(&TextPosition::new(2, 0, 5)));
    assert!(!buffer.validate_position(&TextPosition::new(0, 3, 3)));
    assert!(buffer.validate_offset(5));
    assert!(!buffer.validate_offset(6));
}

/// An empty buffer still has one (empty) line.
#[test]
fn empty_buffer_has_one_line() {
    let buffer = Buffer::new("", "empty");
    assert_eq!(buffer.total_lines(), 1);
    assert_eq!(buffer.grapheme_len(0), 0);
    assert_eq!(buffer.visible_line_content(0), "");
    assert_eq!(buffer.total_chars(), 0);
}
