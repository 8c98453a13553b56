use patchwork::acp::{
    ActiveSessions,
    augment_prompt_with_type_hint, extract_code_fence, extract_response_value, is_patchwork_code,
    DoArg, RedirectEvent, ResponseValue, Route, SessionAction, SessionEvent, ThinkSession, ThinkerStack,
};

#[test]
fn test_extract_code_fence_text() {
    let response = r#"Here's the cleaned transcript:

```text
Hello world, this is the content.
Multiple lines work too.
```

That's all!"#;

    let result = extract_code_fence(response, "```text");
    assert_eq!(
        result,
        Some("Hello world, this is the content.\nMultiple lines work too.".to_string())
    );
}

#[test]
fn test_extract_code_fence_json() {
    let response = r#"Here's the data:

```json
{"name": "test", "value": 42}
```
"#;

    let result = extract_code_fence(response, "```json");
    assert_eq!(result, Some(r#"{"name": "test", "value": 42}"#.to_string()));
}

#[test]
fn test_extract_code_fence_no_fence() {
    let response = "Just plain text without any code fences";
    let result = extract_code_fence(response, "```text");
    assert_eq!(result, None);
}

#[test]
fn test_augment_prompt_string() {
    let prompt = "Explain Rust";
    let result = augment_prompt_with_type_hint(prompt, "string");
    assert!(result.contains("Explain Rust"));
    assert!(result.contains("```text"));
}

#[test]
fn test_augment_prompt_json() {
    let prompt = "Give me data";
    let result = augment_prompt_with_type_hint(prompt, "json");
    assert!(result.contains("Give me data"));
    assert!(result.contains("```json"));
}

#[test]
fn augment_prompt_other_expectation_is_unchanged() {
    assert_eq!(augment_prompt_with_type_hint("Hi", "number"), "Hi");
}

#[test]
fn code_fence_without_closing_is_none() {
    assert_eq!(extract_code_fence("```text\nopen only", "```text"), None);
    assert_eq!(extract_code_fence("```text", "```text"), None);
}

#[test]
fn code_fence_content_is_trimmed() {
    assert_eq!(
        extract_code_fence("```text extra\n  \u{a0}body \n\t```", "```text"),
        Some("body".to_string())
    );
}

#[test]
fn test_extract_response_value_string() {
    let response = "```text\nHello world\n```";
    let result = extract_response_value(response, "string");
    assert!(matches!(result, ResponseValue::Text(s) if s == "Hello world"));
}

#[test]
fn test_extract_response_value_json() {
    let response = r#"```json
{"key": "value"}
```"#;
    let result = extract_response_value(response, "json");
    match result {
        ResponseValue::Json(text) => assert!(text.contains("\"key\"")),
        _ => panic!("Expected Object"),
    }
}

#[test]
fn test_extract_response_value_fallback() {
    let response = "Just plain text";
    let result = extract_response_value(response, "string");
    assert!(matches!(result, ResponseValue::Text(s) if s == "Just plain text"));
}

#[test]
fn patchwork_code_starts_with_brace() {
    assert!(is_patchwork_code("  \n{ think { hi } }"));
    assert!(!is_patchwork_code("hello {"));
    assert!(!is_patchwork_code("   "));
}

#[test]
fn thinker_stack_routes_to_innermost() {
    let mut st = ThinkerStack::new();
    assert_eq!(st.handle(RedirectEvent::Incoming), Route::Discard);
    assert_eq!(st.handle(RedirectEvent::PushThinker(1)), Route::Updated);
    assert_eq!(st.handle(RedirectEvent::PushThinker(2)), Route::Updated);
    assert_eq!(st.handle(RedirectEvent::Incoming), Route::Deliver(2));
    assert_eq!(st.handle(RedirectEvent::PopThinker), Route::Updated);
    assert_eq!(st.handle(RedirectEvent::Incoming), Route::Deliver(1));
    assert_eq!(st.active(), Some(1));
    st.handle(RedirectEvent::PopThinker);
    st.handle(RedirectEvent::PopThinker);
    assert_eq!(st.active(), None);
}

#[test]
fn think_session_gathers_text_and_finishes() {
    let mut s = ThinkSession::new();
    assert_eq!(s.handle(SessionEvent::TextChunk(String::from("```text\nHi"))), SessionAction::Continue);
    assert_eq!(s.handle(SessionEvent::OtherUpdate), SessionAction::Continue);
    assert_eq!(s.handle(SessionEvent::TextChunk(String::from(" there\n```"))), SessionAction::Continue);
    assert_eq!(
        s.handle(SessionEvent::DoInvocation(DoArg { number: 12 })),
        SessionAction::ReplyDo(String::from("do(12) not yet implemented"))
    );
    assert_eq!(s.handle(SessionEvent::PromptResponse), SessionAction::Finish);
    assert_eq!(s.text(), "```text\nHi there\n```");
    assert_eq!(s.result("string"), ResponseValue::Text(String::from("Hi there")));
}

#[test]
fn active_sessions_one_evaluation_per_session() {
    let mut s = ActiveSessions::new();
    assert!(!s.has_active_evaluation("a"));
    s.start_evaluation("a");
    s.start_evaluation("b");
    s.start_evaluation("a");
    assert!(s.has_active_evaluation("a"));
    assert!(s.has_active_evaluation("b"));
    s.end_evaluation("a");
    assert!(!s.has_active_evaluation("a"));
    assert!(s.has_active_evaluation("b"));
    s.end_evaluation("zzz");
    assert!(s.has_active_evaluation("b"));
}
