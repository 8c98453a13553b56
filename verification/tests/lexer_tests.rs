use patchwork::lexer::{lex_str, LexerContext, Rule};

#[derive(Debug)]
pub struct LexError;

/// Helper to collect all tokens from input
fn collect_tokens(input: &str) -> Result<Vec<Rule>, LexError> {
    let mut lexer = lex_str(input);
    let mut context = LexerContext::new();
    let mut tokens = Vec::new();

    while let Some(token) = lexer.try_next_with_context(&mut context) {
        tokens.push(token.rule);
    }

    Ok(tokens)
}

#[test]
fn test_empty_input() -> Result<(), LexError> {
    let tokens = collect_tokens("")?;
    assert_eq!(tokens, vec![Rule::End]);
    Ok(())
}

#[test]
fn test_keywords() -> Result<(), LexError> {
    let tokens = collect_tokens("import from var if else for while")?;
    assert_eq!(tokens, vec![
        Rule::Import, Rule::Whitespace,
        Rule::From, Rule::Whitespace,
        Rule::Var, Rule::Whitespace,
        Rule::If, Rule::Whitespace,
        Rule::Else, Rule::Whitespace,
        Rule::For, Rule::Whitespace,
        Rule::While,
        Rule::End
    ]);
    Ok(())
}

#[test]
fn test_keywords_vs_identifiers() -> Result<(), LexError> {
    let tokens = collect_tokens("import imported var variable")?;
    assert_eq!(tokens, vec![
        Rule::Import, Rule::Whitespace,
        Rule::Identifier, Rule::Whitespace,
        Rule::Var, Rule::Whitespace,
        Rule::Identifier,
        Rule::End
    ]);
    Ok(())
}

#[test]
fn test_task_keywords() -> Result<(), LexError> {
    let tokens = collect_tokens("await task skill fun")?;
    assert_eq!(tokens, vec![
        Rule::Await, Rule::Whitespace,
        Rule::Task, Rule::Whitespace,
        Rule::Skill, Rule::Whitespace,
        Rule::Fun,
        Rule::End
    ]);
    Ok(())
}

#[test]
fn test_control_flow_keywords() -> Result<(), LexError> {
    let tokens = collect_tokens("return succeed fail break in")?;
    assert_eq!(tokens, vec![
        Rule::Return, Rule::Whitespace,
        Rule::Succeed, Rule::Whitespace,
        Rule::Fail, Rule::Whitespace,
        Rule::Break, Rule::Whitespace,
        Rule::In,
        Rule::End
    ]);
    Ok(())
}

#[test]
fn test_booleans() -> Result<(), LexError> {
    let tokens = collect_tokens("true false")?;
    assert_eq!(tokens, vec![
        Rule::True, Rule::Whitespace,
        Rule::False,
        Rule::End
    ]);
    Ok(())
}

#[test]
fn test_numbers() -> Result<(), LexError> {
    // Note: Float literals tokenize as Number Dot Number - parser will handle this
    let tokens = collect_tokens("123 456 0 42")?;

    assert_eq!(tokens, vec![
        Rule::Number, Rule::Whitespace,
        Rule::Number, Rule::Whitespace,
        Rule::Number, Rule::Whitespace,
        Rule::Number,
        Rule::End
    ]);
    Ok(())
}

#[test]
fn test_strings_chunked() -> Result<(), LexError> {
    let tokens = collect_tokens(r#""hello""#)?;
    assert_eq!(tokens, vec![
        Rule::StringStart,
        Rule::StringText,
        Rule::StringEnd,
        Rule::End
    ]);
    Ok(())
}

#[test]
fn test_string_empty() -> Result<(), LexError> {
    let tokens = collect_tokens(r#""""#)?;
    assert_eq!(tokens, vec![
        Rule::StringStart,
        Rule::StringEnd,
        Rule::End
    ]);
    Ok(())
}

#[test]
fn test_string_with_escapes() -> Result<(), LexError> {
    let tokens = collect_tokens(r#""with \"quotes\"""#)?;
    assert_eq!(tokens, vec![
        Rule::StringStart,
        Rule::StringText,  // "with \"quotes\""
        Rule::StringEnd,
        Rule::End
    ]);
    Ok(())
}

#[test]
fn test_string_escape_sequences() -> Result<(), LexError> {
    let tokens = collect_tokens(r#""Hello\nworld\t!""#)?;
    assert_eq!(tokens, vec![
        Rule::StringStart,
        Rule::StringText,  // "Hello\nworld\t!"
        Rule::StringEnd,
        Rule::End
    ]);
    Ok(())
}

#[test]
fn test_identifiers() -> Result<(), LexError> {
    let tokens = collect_tokens("foo bar_baz _underscore CamelCase snake_case")?;
    assert_eq!(tokens, vec![
        Rule::Identifier, Rule::Whitespace,
        Rule::Identifier, Rule::Whitespace,
        Rule::Identifier, Rule::Whitespace,
        Rule::Identifier, Rule::Whitespace,
        Rule::Identifier,
        Rule::End
    ]);
    Ok(())
}

#[test]
fn lexer_test_comparison_operators() -> Result<(), LexError> {
    let tokens = collect_tokens("== != < > <= >=")?;
    assert_eq!(tokens, vec![
        Rule::Eq, Rule::Whitespace,
        Rule::Neq, Rule::Whitespace,
        Rule::Lt, Rule::Whitespace,
        Rule::Gt, Rule::Whitespace,
        Rule::Lte, Rule::Whitespace,
        Rule::Gte,
        Rule::End
    ]);
    Ok(())
}

#[test]
fn test_arithmetic_operators() -> Result<(), LexError> {
    let tokens = collect_tokens("+ - * / %")?;
    assert_eq!(tokens, vec![
        Rule::Plus, Rule::Whitespace,
        Rule::Minus, Rule::Whitespace,
        Rule::Star, Rule::Whitespace,
        Rule::Slash, Rule::Whitespace,
        Rule::Percent,
        Rule::End
    ]);
    Ok(())
}

#[test]
fn lexer_test_logical_operators() -> Result<(), LexError> {
    let tokens = collect_tokens("&& || !")?;
    assert_eq!(tokens, vec![
        Rule::AndAnd, Rule::Whitespace,
        Rule::OrOr, Rule::Whitespace,
        Rule::Bang,
        Rule::End
    ]);
    Ok(())
}

#[test]
fn test_other_operators() -> Result<(), LexError> {
    let tokens = collect_tokens("= | & -> ...")?;
    assert_eq!(tokens, vec![
        Rule::Assign, Rule::Whitespace,
        Rule::Pipe, Rule::Whitespace,
        Rule::Ampersand, Rule::Whitespace,
        Rule::Arrow, Rule::Whitespace,
        Rule::Ellipsis,
        Rule::End
    ]);
    Ok(())
}

#[test]
fn test_punctuation() -> Result<(), LexError> {
    let tokens = collect_tokens("{ } ( ) [ ] ; , . : @")?;
    assert_eq!(tokens, vec![
        Rule::LBrace, Rule::Whitespace,
        Rule::RBrace, Rule::Whitespace,
        Rule::LParen, Rule::Whitespace,
        Rule::RParen, Rule::Whitespace,
        Rule::LBracket, Rule::Whitespace,
        Rule::RBracket, Rule::Whitespace,
        Rule::Semicolon, Rule::Whitespace,
        Rule::Comma, Rule::Whitespace,
        Rule::Dot, Rule::Whitespace,
        Rule::Colon, Rule::Whitespace,
        Rule::At,
        Rule::End
    ]);
    Ok(())
}

#[test]
fn test_comments() -> Result<(), LexError> {
    let tokens = collect_tokens("foo # this is a comment\nbar")?;
    assert_eq!(tokens, vec![
        Rule::Identifier,
        Rule::Whitespace,
        Rule::Comment,
        Rule::Newline,
        Rule::Identifier,
        Rule::End
    ]);
    Ok(())
}

#[test]
fn test_simple_code_snippet() -> Result<(), LexError> {
    let input = r#"var x = 42
var name = "Alice"
if x > 10 {
return true
}"#;
    let tokens = collect_tokens(input)?;

    // Just verify it tokenizes without error and contains expected tokens
    assert!(tokens.contains(&Rule::Var));
    assert!(tokens.contains(&Rule::Identifier));
    assert!(tokens.contains(&Rule::Assign));
    assert!(tokens.contains(&Rule::Number));
    assert!(tokens.contains(&Rule::StringStart));
    assert!(tokens.contains(&Rule::StringEnd));
    assert!(tokens.contains(&Rule::If));
    assert!(tokens.contains(&Rule::Gt));
    assert!(tokens.contains(&Rule::LBrace));
    assert!(tokens.contains(&Rule::Return));
    assert!(tokens.contains(&Rule::True));
    assert!(tokens.contains(&Rule::RBrace));
    assert!(tokens.contains(&Rule::End));

    Ok(())
}

#[test]
fn test_historian_example_snippet() -> Result<(), LexError> {
    let input = r#"var timestamp = $(date +%Y%m%d-%H%M%S)
var session_id = "historian-${timestamp}""#;

    let tokens = collect_tokens(input)?;

    // Verify basic tokenization works
    assert!(tokens.contains(&Rule::Var));
    assert!(tokens.contains(&Rule::Identifier));
    assert!(tokens.contains(&Rule::Assign));
    assert!(tokens.contains(&Rule::StringStart));

    Ok(())
}

#[test]
fn lexer_test_simple_think_block() -> Result<(), LexError> {
    let input = "think { Hello world }";
    let tokens = collect_tokens(input)?;

    // PromptText matches non-whitespace sequences, Whitespace is separate
    assert_eq!(tokens, vec![
        Rule::Think,
        Rule::Whitespace,
        Rule::LBrace,
        Rule::Whitespace,
        Rule::PromptText,  // "Hello"
        Rule::Whitespace,
        Rule::PromptText,  // "world"
        Rule::Whitespace,
        Rule::RBrace,
        Rule::End
    ]);
    Ok(())
}

#[test]
fn lexer_test_simple_ask_block() -> Result<(), LexError> {
    let input = "ask { What should I do? }";
    let tokens = collect_tokens(input)?;

    // PromptText matches non-whitespace sequences
    assert_eq!(tokens, vec![
        Rule::Ask,
        Rule::Whitespace,
        Rule::LBrace,
        Rule::Whitespace,
        Rule::PromptText,  // "What"
        Rule::Whitespace,
        Rule::PromptText,  // "should"
        Rule::Whitespace,
        Rule::PromptText,  // "I"
        Rule::Whitespace,
        Rule::PromptText,  // "do?"
        Rule::Whitespace,
        Rule::RBrace,
        Rule::End
    ]);
    Ok(())
}

#[test]
fn test_think_with_do_block() -> Result<(), LexError> {
    let input = "think { Analyze this do { var x = 1 } }";
    let tokens = collect_tokens(input)?;

    // PromptText now matches non-whitespace sequences
    assert_eq!(tokens, vec![
        Rule::Think,
        Rule::Whitespace,
        Rule::LBrace,
        Rule::Whitespace,
        Rule::PromptText,  // "Analyze"
        Rule::Whitespace,
        Rule::PromptText,  // "this"
        Rule::Whitespace,
        Rule::Do,
        Rule::Whitespace,
        Rule::LBrace,
        Rule::Whitespace,
        Rule::Var,
        Rule::Whitespace,
        Rule::Identifier,  // x
        Rule::Whitespace,
        Rule::Assign,
        Rule::Whitespace,
        Rule::Number,  // 1
        Rule::Whitespace,
        Rule::RBrace,  // closes do block
        Rule::Whitespace,
        Rule::RBrace,  // closes think block
        Rule::End
    ]);
    Ok(())
}

#[test]
fn test_do_without_brace_in_prompt() -> Result<(), LexError> {
    let input = "think { What should I do here }";
    let tokens = collect_tokens(input)?;

    // "do" without following "{" stays as Do token but doesn't trigger transition
    assert_eq!(tokens, vec![
        Rule::Think,
        Rule::Whitespace,
        Rule::LBrace,
        Rule::Whitespace,
        Rule::PromptText,  // "What"
        Rule::Whitespace,
        Rule::PromptText,  // "should"
        Rule::Whitespace,
        Rule::PromptText,  // "I"
        Rule::Whitespace,
        Rule::Do,          // "do" - recognized but doesn't transition without {
        Rule::Whitespace,
        Rule::PromptText,  // "here"
        Rule::Whitespace,
        Rule::RBrace,
        Rule::End
    ]);
    Ok(())
}

#[test]
fn test_nested_think_blocks() -> Result<(), LexError> {
    let input = "think { Outer do { think { Inner } } }";
    let tokens = collect_tokens(input)?;

    assert_eq!(tokens, vec![
        Rule::Think,
        Rule::Whitespace,
        Rule::LBrace,
        Rule::Whitespace,
        Rule::PromptText,  // "Outer"
        Rule::Whitespace,
        Rule::Do,
        Rule::Whitespace,
        Rule::LBrace,
        Rule::Whitespace,
        Rule::Think,
        Rule::Whitespace,
        Rule::LBrace,
        Rule::Whitespace,
        Rule::PromptText,  // "Inner"
        Rule::Whitespace,
        Rule::RBrace,  // closes inner think
        Rule::Whitespace,
        Rule::RBrace,  // closes do
        Rule::Whitespace,
        Rule::RBrace,  // closes outer think
        Rule::End
    ]);
    Ok(())
}

#[test]
fn test_do_as_identifier_in_code() -> Result<(), LexError> {
    let input = "var do_something = 1";
    let tokens = collect_tokens(input)?;

    // "do" should work as part of identifier in Code state
    assert_eq!(tokens, vec![
        Rule::Var,
        Rule::Whitespace,
        Rule::Identifier,  // do_something
        Rule::Whitespace,
        Rule::Assign,
        Rule::Whitespace,
        Rule::Number,
        Rule::End
    ]);
    Ok(())
}

#[test]
fn test_bash_substitution() -> Result<(), LexError> {
    let input = r#"var timestamp = $(date +%Y%m%d-%H%M%S)"#;
    let tokens = collect_tokens(input)?;

    // Now tokenizes as individual tokens instead of BashSubst
    assert!(tokens.contains(&Rule::Var));
    assert!(tokens.contains(&Rule::Identifier));
    assert!(tokens.contains(&Rule::Assign));
    assert!(tokens.contains(&Rule::Dollar));
    assert!(tokens.contains(&Rule::LParen));
    assert!(tokens.contains(&Rule::RParen));
    assert!(tokens.contains(&Rule::End));
    Ok(())
}

#[test]
fn test_bash_substitution_complex() -> Result<(), LexError> {
    let input = r#"var current_branch = $(git rev_parse --abbrev_ref HEAD)"#;
    let tokens = collect_tokens(input)?;

    // Now tokenizes as individual tokens
    assert!(tokens.contains(&Rule::Var));
    assert!(tokens.contains(&Rule::Identifier));
    assert!(tokens.contains(&Rule::Assign));
    assert!(tokens.contains(&Rule::Dollar));
    assert!(tokens.contains(&Rule::LParen));
    assert!(tokens.contains(&Rule::RParen));
    assert!(tokens.contains(&Rule::End));
    Ok(())
}





// String interpolation tests
#[test]
fn test_string_interpolation_identifier() -> Result<(), LexError> {
    let input = r#""Hello $name""#;
    let tokens = collect_tokens(input)?;

    assert_eq!(tokens, vec![
        Rule::StringStart,
        Rule::StringText,     // "Hello "
        Rule::Dollar,
        Rule::Identifier,     // name
        Rule::StringEnd,
        Rule::End
    ]);
    Ok(())
}

#[test]
fn lexer_test_string_interpolation_multiple() -> Result<(), LexError> {
    let input = r#""Hello $first $last""#;
    let tokens = collect_tokens(input)?;

    assert_eq!(tokens, vec![
        Rule::StringStart,
        Rule::StringText,     // "Hello "
        Rule::Dollar,
        Rule::Identifier,     // first
        Rule::StringText,     // " "
        Rule::Dollar,
        Rule::Identifier,     // last
        Rule::StringEnd,
        Rule::End
    ]);
    Ok(())
}

#[test]
fn test_string_interpolation_expression() -> Result<(), LexError> {
    let input = r#""Total: ${x + y}""#;
    let tokens = collect_tokens(input)?;

    assert_eq!(tokens, vec![
        Rule::StringStart,
        Rule::StringText,     // "Total: "
        Rule::Dollar,
        Rule::LBrace,
        Rule::Identifier,     // x
        Rule::Whitespace,
        Rule::Plus,
        Rule::Whitespace,
        Rule::Identifier,     // y
        Rule::RBrace,
        Rule::StringEnd,
        Rule::End
    ]);
    Ok(())
}

#[test]
fn test_string_interpolation_command() -> Result<(), LexError> {
    let input = r#""Date: $(date)""#;
    let tokens = collect_tokens(input)?;

    assert_eq!(tokens, vec![
        Rule::StringStart,
        Rule::StringText,     // "Date: "
        Rule::Dollar,
        Rule::LParen,
        Rule::Identifier,     // date
        Rule::RParen,
        Rule::StringEnd,
        Rule::End
    ]);
    Ok(())
}

#[test]
fn test_string_interpolation_complex_expression() -> Result<(), LexError> {
    let input = r#""Result: ${func(x, y)}""#;
    let tokens = collect_tokens(input)?;

    assert_eq!(tokens, vec![
        Rule::StringStart,
        Rule::StringText,     // "Result: "
        Rule::Dollar,
        Rule::LBrace,
        Rule::Identifier,     // func
        Rule::LParen,         // (
        Rule::Identifier,     // x
        Rule::Comma,
        Rule::Whitespace,
        Rule::Identifier,     // y
        Rule::RParen,
        Rule::RBrace,
        Rule::StringEnd,
        Rule::End
    ]);
    Ok(())
}

#[test]
fn test_string_interpolation_nested() -> Result<(), LexError> {
    let input = r#""Outer ${f("inner")}""#;
    let tokens = collect_tokens(input)?;

    assert_eq!(tokens, vec![
        Rule::StringStart,
        Rule::StringText,     // "Outer "
        Rule::Dollar,
        Rule::LBrace,
        Rule::Identifier,     // f
        Rule::LParen,         // (
        Rule::StringStart,    // nested string
        Rule::StringText,     // "inner"
        Rule::StringEnd,      // nested string end
        Rule::RParen,
        Rule::RBrace,
        Rule::StringEnd,
        Rule::End
    ]);
    Ok(())
}

#[test]
fn test_string_only_interpolation() -> Result<(), LexError> {
    let input = r#""$name""#;
    let tokens = collect_tokens(input)?;

    assert_eq!(tokens, vec![
        Rule::StringStart,
        Rule::Dollar,
        Rule::Identifier,     // name
        Rule::StringEnd,
        Rule::End
    ]);
    Ok(())
}

#[test]
fn test_string_interpolation_mixed() -> Result<(), LexError> {
    let input = r#""Name: $name, Age: ${age + 1}, Date: $(date)""#;
    let tokens = collect_tokens(input)?;

    // Verify it contains all the expected token types
    assert!(tokens.contains(&Rule::StringStart));
    assert!(tokens.contains(&Rule::StringEnd));
    assert!(tokens.contains(&Rule::Dollar));
    assert!(tokens.contains(&Rule::Identifier));
    assert!(tokens.contains(&Rule::LBrace));
    assert!(tokens.contains(&Rule::RBrace));
    assert!(tokens.contains(&Rule::LParen));
    assert!(tokens.contains(&Rule::RParen));
    assert!(tokens.contains(&Rule::Plus));
    assert!(tokens.contains(&Rule::End));

    Ok(())
}

#[test]
fn test_string_interpolation_deeply_nested() -> Result<(), LexError> {
    // Test mixed nesting: ${ ... $( ... ) ... }
    let input = r#""Result: ${x + $(cmd)}""#;
    let tokens = collect_tokens(input)?;

    assert_eq!(tokens, vec![
        Rule::StringStart,
        Rule::StringText,     // "Result: "
        Rule::Dollar,
        Rule::LBrace,         // Start ${
        Rule::Identifier,     // x
        Rule::Whitespace,
        Rule::Plus,
        Rule::Whitespace,
        Rule::Dollar,
        Rule::LParen,         // Start $(
        Rule::Identifier,     // cmd
        Rule::RParen,         // End $) - should stay in Code mode
        Rule::RBrace,         // End $} - should return to InString
        Rule::StringEnd,
        Rule::End
    ]);
    Ok(())
}

#[test]
fn test_string_interpolation_triple_nested() -> Result<(), LexError> {
    // Test deep nesting: ${ ... $( ... ${ ... } ... ) ... }
    let input = r#""A: ${a + $(b + ${c})}""#;
    let tokens = collect_tokens(input)?;

    assert_eq!(tokens, vec![
        Rule::StringStart,
        Rule::StringText,     // "A: "
        Rule::Dollar,
        Rule::LBrace,         // Start ${a...}
        Rule::Identifier,     // a
        Rule::Whitespace,
        Rule::Plus,
        Rule::Whitespace,
        Rule::Dollar,
        Rule::LParen,         // Start $(b...)
        Rule::Identifier,     // b
        Rule::Whitespace,
        Rule::Plus,
        Rule::Whitespace,
        Rule::Dollar,
        Rule::LBrace,         // Start ${c}
        Rule::Identifier,     // c
        Rule::RBrace,         // End ${c} - back to Code mode (inside $(...))
        Rule::RParen,         // End $(...) - back to Code mode (inside ${...})
        Rule::RBrace,         // End ${...} - back to InString
        Rule::StringEnd,
        Rule::End
    ]);
    Ok(())
}

#[test]
fn test_string_escaped_dollar() -> Result<(), LexError> {
    // Test \$ escape for literal dollar sign
    let tokens = collect_tokens(r#""Price: \$100""#)?;
    assert_eq!(tokens, vec![
        Rule::StringStart,
        Rule::StringText,  // "Price: \$100" - includes escaped dollar
        Rule::StringEnd,
        Rule::End
    ]);
    Ok(())
}

#[test]
fn test_string_escaped_dollar_mixed() -> Result<(), LexError> {
    // Test \$ escape mixed with actual interpolation
    let tokens = collect_tokens(r#""Price: \$${amount}""#)?;
    assert_eq!(tokens, vec![
        Rule::StringStart,
        Rule::StringText,  // "Price: \$"
        Rule::Dollar,
        Rule::LBrace,
        Rule::Identifier,  // amount
        Rule::RBrace,
        Rule::StringEnd,
        Rule::End
    ]);
    Ok(())
}

#[test]
fn test_single_quote_string_simple() -> Result<(), LexError> {
    // Test simple single-quoted string
    let tokens = collect_tokens(r#"'hello world'"#)?;
    assert_eq!(tokens, vec![
        Rule::SingleQuoteString,
        Rule::End
    ]);
    Ok(())
}

#[test]
fn test_single_quote_string_no_interpolation() -> Result<(), LexError> {
    // Test that $var is literal in single-quoted strings
    let tokens = collect_tokens(r#"'Price: $100 for ${item}'"#)?;
    assert_eq!(tokens, vec![
        Rule::SingleQuoteString,  // Contains literal "$100 for ${item}"
        Rule::End
    ]);
    Ok(())
}

#[test]
fn test_single_quote_string_with_escapes() -> Result<(), LexError> {
    // Test escape sequences in single-quoted strings
    let tokens = collect_tokens(r#"'can\'t and \\ backslash'"#)?;
    assert_eq!(tokens, vec![
        Rule::SingleQuoteString,  // Contains "can\'t and \\ backslash"
        Rule::End
    ]);
    Ok(())
}

#[test]
fn test_single_vs_double_quotes() -> Result<(), LexError> {
    // Test difference between single and double quotes
    let tokens = collect_tokens(r#"'$name' "$name""#)?;
    assert_eq!(tokens, vec![
        Rule::SingleQuoteString,  // '$name' - literal
        Rule::Whitespace,
        Rule::StringStart,
        Rule::Dollar,             // "$name" - interpolated
        Rule::Identifier,
        Rule::StringEnd,
        Rule::End
    ]);
    Ok(())
}

#[test]
fn test_prompt_interpolation_identifier() -> Result<(), LexError> {
    // Test $identifier in prompt context
    let input = r#"think { Analyze $filename }"#;
    let tokens = collect_tokens(input)?;

    assert_eq!(tokens, vec![
        Rule::Think,
        Rule::Whitespace,
        Rule::LBrace,
        Rule::Whitespace,
        Rule::PromptText,      // "Analyze"
        Rule::Whitespace,
        Rule::Dollar,
        Rule::Identifier,      // filename
        Rule::Whitespace,
        Rule::RBrace,
        Rule::End
    ]);
    Ok(())
}

#[test]
fn test_prompt_interpolation_expression() -> Result<(), LexError> {
    // Test ${expression} in prompt context
    let input = r#"think { Check ${x + y} items }"#;
    let tokens = collect_tokens(input)?;

    assert_eq!(tokens, vec![
        Rule::Think,
        Rule::Whitespace,
        Rule::LBrace,
        Rule::Whitespace,
        Rule::PromptText,      // "Check"
        Rule::Whitespace,
        Rule::Dollar,
        Rule::LBrace,
        Rule::Identifier,      // x
        Rule::Whitespace,
        Rule::Plus,
        Rule::Whitespace,
        Rule::Identifier,      // y
        Rule::RBrace,
        Rule::Whitespace,
        Rule::PromptText,      // "items"
        Rule::Whitespace,
        Rule::RBrace,
        Rule::End
    ]);
    Ok(())
}

#[test]
fn test_prompt_interpolation_command() -> Result<(), LexError> {
    // Test $(command) in prompt context
    let input = r#"ask { What is $(date) today? }"#;
    let tokens = collect_tokens(input)?;

    assert_eq!(tokens, vec![
        Rule::Ask,
        Rule::Whitespace,
        Rule::LBrace,
        Rule::Whitespace,
        Rule::PromptText,      // "What"
        Rule::Whitespace,
        Rule::PromptText,      // "is"
        Rule::Whitespace,
        Rule::Dollar,
        Rule::LParen,
        Rule::ShellArg,        // date (in Shell mode now, not Code mode)
        Rule::RParen,
        Rule::Whitespace,
        Rule::PromptText,      // "today?"
        Rule::Whitespace,
        Rule::RBrace,
        Rule::End
    ]);
    Ok(())
}

#[test]
fn test_prompt_interpolation_mixed() -> Result<(), LexError> {
    // Test multiple interpolation forms in one prompt
    let input = r#"think { Process $file with ${count} items from $(source) }"#;
    let tokens = collect_tokens(input)?;

    // Verify it contains all the expected token types
    assert!(tokens.contains(&Rule::Think));
    assert!(tokens.contains(&Rule::PromptText));
    assert!(tokens.contains(&Rule::Dollar));
    assert!(tokens.contains(&Rule::Identifier));
    assert!(tokens.contains(&Rule::LBrace));
    assert!(tokens.contains(&Rule::RBrace));
    assert!(tokens.contains(&Rule::LParen));
    assert!(tokens.contains(&Rule::RParen));
    assert!(tokens.contains(&Rule::Plus) == false);  // count not used in expression here
    assert!(tokens.contains(&Rule::End));
    Ok(())
}

// Shell mode tests (Milestone 10)
#[test]
fn test_shell_mode_basic() -> Result<(), LexError> {
    let input = "$ mkdir work_dir\n";
    let tokens = collect_tokens(input)?;

    assert_eq!(tokens, vec![
        Rule::Dollar,
        Rule::Whitespace,
        Rule::ShellArg,      // "mkdir"
        Rule::Whitespace,
        Rule::ShellArg,      // "work_dir"
        Rule::Newline,
        Rule::End
    ]);
    Ok(())
}

#[test]
fn test_shell_mode_with_flags() -> Result<(), LexError> {
    let input = "$ mkdir -p work_dir\n";
    let tokens = collect_tokens(input)?;

    // Should tokenize flags as shell args
    assert!(tokens.contains(&Rule::Dollar));
    assert!(tokens.contains(&Rule::ShellArg));
    assert!(tokens.contains(&Rule::Newline));
    assert!(tokens.contains(&Rule::End));
    Ok(())
}

#[test]
fn lexer_test_shell_command_substitution() -> Result<(), LexError> {
    let input = r#"var branch = $(git rev_parse HEAD)"#;
    let tokens = collect_tokens(input)?;

    // $(command) should enter shell mode
    assert!(tokens.contains(&Rule::Var));
    assert!(tokens.contains(&Rule::Identifier));  // branch
    assert!(tokens.contains(&Rule::Assign));
    assert!(tokens.contains(&Rule::Dollar));
    assert!(tokens.contains(&Rule::LParen));
    assert!(tokens.contains(&Rule::ShellArg));    // git, rev_parse, HEAD
    assert!(tokens.contains(&Rule::RParen));
    assert!(tokens.contains(&Rule::End));
    Ok(())
}

#[test]
fn test_shell_expression_form() -> Result<(), LexError> {
    let input = r#"if ($ test -f file.txt) { }"#;
    let tokens = collect_tokens(input)?;

    // ($ command) should enter shell mode
    assert!(tokens.contains(&Rule::If));
    assert!(tokens.contains(&Rule::LParen));
    assert!(tokens.contains(&Rule::Dollar));
    assert!(tokens.contains(&Rule::ShellArg));    // test, -f, file.txt
    assert!(tokens.contains(&Rule::RParen));
    assert!(tokens.contains(&Rule::LBrace));
    assert!(tokens.contains(&Rule::RBrace));
    assert!(tokens.contains(&Rule::End));
    Ok(())
}

#[test]
fn test_shell_mode_dollar_interpolation() -> Result<(), LexError> {
    // Test actual usage pattern: ${} inside quoted strings in shell commands
    let input = "$ git diff \"${base_commit}\"..HEAD\n";
    let tokens = collect_tokens(input)?;
    // ${base_commit} works because it's inside a quoted string
    // Sequence: $ git diff " ${ base_commit } " ..HEAD newline
    assert!(tokens.contains(&Rule::Dollar));       // initial $
    assert!(tokens.contains(&Rule::ShellArg));     // git, diff, ..HEAD
    assert!(tokens.contains(&Rule::StringStart));  // opening "
    assert!(tokens.contains(&Rule::LBrace));       // ${ interpolation
    assert!(tokens.contains(&Rule::Identifier));   // base_commit in Code mode
    assert!(tokens.contains(&Rule::RBrace));       // } closes interpolation
    assert!(tokens.contains(&Rule::StringEnd));    // closing "
    assert!(tokens.contains(&Rule::Newline));
    Ok(())
}

#[test]
fn string_closes_back_into_code() {
    let toks = patchwork::lexer::tokenize("\"a\" b");
    let rules: Vec<Rule> = toks.iter().map(|t| t.rule).collect();
    assert_eq!(rules, vec![
        Rule::StringStart, Rule::StringText, Rule::StringEnd,
        Rule::Whitespace, Rule::Identifier, Rule::End
    ]);
}

#[test]
fn prompt_closes_back_into_code() {
    let toks = patchwork::lexer::tokenize("think { hi } x");
    let rules: Vec<Rule> = toks.iter().map(|t| t.rule).collect();
    assert_eq!(rules, vec![
        Rule::Think, Rule::Whitespace, Rule::LBrace, Rule::Whitespace,
        Rule::PromptText, Rule::Whitespace, Rule::RBrace,
        Rule::Whitespace, Rule::Identifier, Rule::End
    ]);
}

#[test]
fn tokens_tile_the_text() {
    let text = "var x = $(ls -la) # done";
    let toks = patchwork::lexer::tokenize(text);
    let mut pos = 0;
    for t in &toks {
        let sp = t.span.unwrap();
        assert_eq!(sp.start, pos);
        pos = sp.end;
    }
    assert_eq!(pos, text.len());
}

#[test]
fn lib_test_shell_command_substitution() -> Result<(), LexError> {
    let input = r#"var branch = $(git rev_parse HEAD)"#;
    let tokens = collect_tokens(input)?;

    // $(command) should enter shell mode
    assert!(tokens.contains(&Rule::Var));
    assert!(tokens.contains(&Rule::Identifier));  // branch
    assert!(tokens.contains(&Rule::Assign));
    assert!(tokens.contains(&Rule::Dollar));
    assert!(tokens.contains(&Rule::LParen));
    assert!(tokens.contains(&Rule::ShellArg));    // git, rev_parse, HEAD
    assert!(tokens.contains(&Rule::RParen));
    assert!(tokens.contains(&Rule::End));
    Ok(())
}
