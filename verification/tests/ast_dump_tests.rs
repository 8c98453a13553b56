use patchwork::parser::parse;
use patchwork::ast_dump::dump_program;

#[test]
fn test_dump_simple_function() {
    let input = "fun test(x) { return x }";
    let program = parse(input).unwrap();
    let dump = dump_program(&program);

    // Basic validation - should contain key structural elements
    assert!(dump.contains("Program:"));
    assert!(dump.contains("Function: test"));
    assert!(dump.contains("Params:"));
    assert!(dump.contains("- x"));
    assert!(dump.contains("Return:"));
}

#[test]
fn test_dump_with_types() {
    let input = "type Message = { status: string, code: int }";
    let program = parse(input).unwrap();
    let dump = dump_program(&program);

    assert!(dump.contains("Type: Message"));
    assert!(dump.contains("ObjectType:"));
    assert!(dump.contains("status:"));
    assert!(dump.contains("code:"));
}
