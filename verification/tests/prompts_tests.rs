use patchwork::ast::{Expr, PromptBlock, PromptItem};
use patchwork::prompts::{extract_prompt_template, PromptKind};

#[test]
fn test_extract_simple_text() {
    let block = PromptBlock {
        items: vec![
            PromptItem::Text("Hello, world!"),
        ],
    };

    let template = extract_prompt_template(&block, PromptKind::Think, "think_0".into(), "test_worker".into()).unwrap();
    assert_eq!(template.markdown, "Hello, world!");
    assert_eq!(template.worker_name, "test_worker");
    assert!(template.required_bindings.is_empty());
}

#[test]
fn test_extract_with_interpolation() {
    let block = PromptBlock {
        items: vec![
            PromptItem::Text("Hello, "),
            PromptItem::Interpolation(Expr::Identifier("name")),
            PromptItem::Text("!"),
        ],
    };

    let template = extract_prompt_template(&block, PromptKind::Think, "think_0".into(), "example".into()).unwrap();
    assert_eq!(template.markdown, "Hello, ${name}!");
    assert_eq!(template.worker_name, "example");
    assert!(template.required_bindings.contains("name"));
}

#[test]
fn test_extract_member_access() {
    let block = PromptBlock {
        items: vec![
            PromptItem::Text("User: "),
            PromptItem::Interpolation(Expr::Member {
                object: Box::new(Expr::Identifier("user")),
                field: "name",
            }),
        ],
    };

    let template = extract_prompt_template(&block, PromptKind::Ask, "ask_0".into(), "greeter".into()).unwrap();
    assert_eq!(template.markdown, "User: ${user.name}");
    assert_eq!(template.worker_name, "greeter");
    // Should only bind "user", not "name"
    assert!(template.required_bindings.contains("user"));
    assert_eq!(template.required_bindings.len(), 1);
}

#[test]
fn prompt_word_after_interpolation_is_separated() {
    let block = PromptBlock {
        items: vec![
            PromptItem::Text("Greet"),
            PromptItem::Interpolation(Expr::Identifier("name")),
            PromptItem::Text("politely"),
        ],
    };
    let template = extract_prompt_template(&block, PromptKind::Think, "think_1".into(), "w".into()).unwrap();
    assert_eq!(template.markdown, "Greet ${name} politely");
    assert_eq!(template.id, "think_1");
    assert_eq!(template.kind, PromptKind::Think);
}

#[test]
fn prompt_bindings_are_collected_once_in_order() {
    let block = PromptBlock {
        items: vec![
            PromptItem::Interpolation(Expr::Index {
                object: Box::new(Expr::Identifier("items")),
                index: Box::new(Expr::Identifier("i")),
            }),
            PromptItem::Text(" and "),
            PromptItem::Interpolation(Expr::Identifier("items")),
        ],
    };
    let template = extract_prompt_template(&block, PromptKind::Ask, "ask_2".into(), "w".into()).unwrap();
    assert_eq!(template.markdown, "${items[i]} and ${items}");
    assert_eq!(template.required_bindings.len(), 2);
    let names: Vec<String> = template.required_bindings.names().clone();
    assert_eq!(names, vec!["items".to_string(), "i".to_string()]);
}

#[test]
fn prompt_with_code_block_is_unsupported() {
    let block = PromptBlock {
        items: vec![
            PromptItem::Text("x"),
            PromptItem::Code(patchwork::ast::Block { statements: vec![] }),
        ],
    };
    let err = extract_prompt_template(&block, PromptKind::Think, "think_0".into(), "w".into()).unwrap_err();
    assert_eq!(err.message(), "Unsupported feature: Embedded code blocks (do { }) in prompts not yet supported ");
}

#[test]
fn prompt_with_complex_placeholder_is_unsupported() {
    let block = PromptBlock {
        items: vec![PromptItem::Interpolation(Expr::Call {
            callee: Box::new(Expr::Identifier("f")),
            args: vec![],
        })],
    };
    let err = extract_prompt_template(&block, PromptKind::Think, "think_0".into(), "w".into()).unwrap_err();
    assert!(err.message().contains("Complex expressions in prompt placeholders"));
}

#[test]
fn prompt_with_await_is_unsupported() {
    let block = PromptBlock {
        items: vec![PromptItem::Interpolation(Expr::Await(Box::new(Expr::Identifier("x"))))],
    };
    let err = extract_prompt_template(&block, PromptKind::Think, "think_0".into(), "w".into()).unwrap_err();
    assert!(err.message().contains("Complex expressions in prompt interpolations"));
}

#[test]
fn prompt_kind_names() {
    assert_eq!(PromptKind::Think.as_str(), "think");
    assert_eq!(PromptKind::Ask.as_str(), "ask");
}
