use patchwork::codegen::escape_string;
use patchwork::eval::process_escape_sequences;

#[test]
fn escapes_known_sequences() {
    assert_eq!(process_escape_sequences("a\\nb"), "a\nb");
    assert_eq!(process_escape_sequences("\\t\\r\\\\\\\"\\'\\$\\0"), "\t\r\\\"'$\0");
}

#[test]
fn escapes_unknown_kept() {
    assert_eq!(process_escape_sequences("\\q"), "\\q");
}

#[test]
fn escapes_trailing_backslash_kept() {
    assert_eq!(process_escape_sequences("end\\"), "end\\");
}

#[test]
fn escapes_plain_text_unchanged() {
    assert_eq!(process_escape_sequences("héllo wörld"), "héllo wörld");
    assert_eq!(process_escape_sequences(""), "");
}

#[test]
fn escape_then_unescape_round_trip() {
    let s = "line \"one\"\n\tpath\\to\rend";
    assert_eq!(process_escape_sequences(&escape_string(s)), s);
}
