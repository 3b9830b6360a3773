use airp_core::adapter::{parse_anthropic_delta_line, parse_openai_sse_line, BackendEngine, MessageRole, Provider};

#[test]
fn test_parse_openai_delta_content() {
    let line = r#"data: {"choices":[{"delta":{"content":"hello"}}]}"#;
    assert_eq!(parse_openai_sse_line(line).unwrap(), Some("hello".to_string()));
}

#[test]
fn test_parse_openai_done_marker() {
    assert_eq!(parse_openai_sse_line("data: [DONE]").unwrap(), None);
}

#[test]
fn test_parse_openai_ignores_non_data_lines() {
    assert_eq!(parse_openai_sse_line(": heartbeat").unwrap(), None);
    assert_eq!(parse_openai_sse_line("event: ping").unwrap(), None);
}

#[test]
fn test_parse_openai_no_content_delta() {
    let line = r#"data: {"choices":[{"delta":{"role":"assistant"}}]}"#;
    assert_eq!(parse_openai_sse_line(line).unwrap(), None);
}

#[test]
fn test_parse_openai_invalid_json_is_error() {
    let res = parse_openai_sse_line("data: not-json");
    assert!(res.is_err());
}

#[test]
fn test_backend_engine_default_is_direct() {
    assert_eq!(BackendEngine::default(), BackendEngine::Direct);
    assert_eq!(Provider::default(), Provider::OpenAI);
}

#[test]
fn test_parse_anthropic_delta_line_extracts_text() {
    let line = r#"data: {"type":"content_block_delta","index":0,"delta":{"type":"text_delta","text":"Hello"}}"#;
    assert_eq!(parse_anthropic_delta_line(line), Some("Hello".to_string()));
}

#[test]
fn test_parse_anthropic_delta_line_no_text_returns_none() {
    let line = r#"data: {"type":"message_start","message":{}}"#;
    assert_eq!(parse_anthropic_delta_line(line), None);
}

#[test]
fn test_parse_anthropic_delta_line_invalid_json_returns_none() {
    assert_eq!(parse_anthropic_delta_line("data: notjson"), None);
}

#[test]
fn message_role_wire_names() {
    assert_eq!(MessageRole::User.as_wire(), "user");
    assert_eq!(MessageRole::Assistant.as_wire(), "assistant");
    assert_eq!(MessageRole::System.as_wire(), "system");
}
