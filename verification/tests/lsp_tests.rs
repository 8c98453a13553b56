use patchwork::lsp::{byte_offset_to_position, diagnostic_range, is_word_byte, parse_diagnostic, word_at_position, Position, Range};

#[test]
fn positions_count_lines_and_characters() {
    let text = "ab\ncd\u{e9}f\n";
    assert_eq!(byte_offset_to_position(text, 0), Position::new(0, 0));
    assert_eq!(byte_offset_to_position(text, 2), Position::new(0, 2));
    assert_eq!(byte_offset_to_position(text, 3), Position::new(1, 0));
    // the two-byte character counts as one column
    assert_eq!(byte_offset_to_position(text, 7), Position::new(1, 3));
    // an offset inside a character counts that character
    assert_eq!(byte_offset_to_position(text, 6), Position::new(1, 3));
    assert_eq!(byte_offset_to_position(text, 100), Position::new(2, 0));
}

#[test]
fn word_under_cursor() {
    let text = "worker main() {\r\n  var total_1 = 2\n}";
    let (range, word) = word_at_position(text, Position::new(1, 8)).unwrap();
    assert_eq!(word, "total_1");
    assert_eq!(range, Range { start: Position::new(1, 6), end: Position::new(1, 13) });
    let (_, w) = word_at_position(text, Position::new(0, 0)).unwrap();
    assert_eq!(w, "worker");
    assert!(word_at_position(text, Position::new(0, 6)).is_some());
    assert!(word_at_position(text, Position::new(0, 14)).is_none());
    assert!(word_at_position(text, Position::new(0, 99)).is_none());
    assert!(word_at_position(text, Position::new(5, 0)).is_none());
}

#[test]
fn word_bytes() {
    assert!(is_word_byte(b'a'));
    assert!(is_word_byte(b'Z'));
    assert!(is_word_byte(b'7'));
    assert!(is_word_byte(b'_'));
    assert!(!is_word_byte(b'-'));
    assert!(!is_word_byte(0xc3));
}

#[test]
fn diagnostic_ranges() {
    let text = "a\nbc";
    assert_eq!(
        diagnostic_range(text, Some((2, 2)), None),
        Range { start: Position::new(1, 0), end: Position::new(1, 1) }
    );
    assert_eq!(
        diagnostic_range(text, None, Some(1)),
        Range { start: Position::new(0, 1), end: Position::new(0, 1) }
    );
    assert_eq!(
        diagnostic_range(text, None, None),
        Range { start: Position::new(0, 0), end: Position::new(0, 1) }
    );
    assert!(parse_diagnostic("worker w() {\n}").is_none());
    assert!(parse_diagnostic("worker w( {").is_some());
}
