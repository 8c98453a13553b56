use patchwork::lexer;
use patchwork::strutil::build_line_starts;
use patchwork::token;

#[test]
fn line_starts_after_each_newline() {
    assert_eq!(build_line_starts("a\nbc\n"), vec![0, 2, 5]);
    assert_eq!(build_line_starts(""), vec![0]);
    assert_eq!(build_line_starts("é\nx"), vec![0, 3]);
}

#[test]
fn adapter_offset_of_line_and_column() {
    let input = "ab\ncé\nd";
    let starts = build_line_starts(input);
    assert_eq!(token::position_to_offset(input, &starts, 0, 1), 1);
    assert_eq!(token::position_to_offset(input, &starts, 1, 0), 3);
    assert_eq!(token::position_to_offset(input, &starts, 1, 2), 6);
    // columns run on past the end of the line
    assert_eq!(token::position_to_offset(input, &starts, 1, 3), 7);
    // past the end of the text, its end
    assert_eq!(token::position_to_offset(input, &starts, 2, 5), input.len());
    // past the last line, the end of the text
    assert_eq!(token::position_to_offset(input, &starts, 7, 0), input.len());
}

#[test]
fn lexer_offset_of_line_and_column() {
    let input = "ab\ncé\nd";
    assert_eq!(lexer::position_to_offset(input, 0, 0), 0);
    assert_eq!(lexer::position_to_offset(input, 1, 1), 4);
    assert_eq!(lexer::position_to_offset(input, 2, 0), 7);
    // past the last line, the start of the last line
    assert_eq!(lexer::position_to_offset(input, 9, 3), 7);
    assert_eq!(lexer::position_to_offset("", 0, 4), 0);
}
