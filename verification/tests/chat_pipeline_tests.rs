use airp_core::adapter::{ChatMessage, MessageRole, Provider, ProviderConfig};
use airp_core::chat_pipeline::{
    build_conversation, build_stream_fsm, extract_state_content, finalize_reply, is_inline_card,
    is_inline_lorebook, lorebook_scan_text, maintenance_due, preset_model, resolve_model,
    resolve_provider_config,
};
use airp_core::json::JsonLookup;

fn hp(state: &airp_core::json::JsonDoc, key: &str) -> JsonLookup {
    state.lookup(key)
}

#[test]
fn no_tag_unchanged() {
    let (text, state) = extract_state_content("Hello world");
    assert_eq!(text, "Hello world");
    assert!(state.is_none());
}

#[test]
fn single_tag_stripped_and_parsed() {
    let (text, state) = extract_state_content("Turn\n<state>{\"hp\":100}</state>\nEnd");
    assert!(!text.contains("<state>"));
    assert_eq!(text, "Turn\n\nEnd");
    assert_eq!(hp(&state.unwrap(), "/hp"), JsonLookup::Int(100));
}

#[test]
fn multiple_tags_last_wins() {
    let (text, state) =
        extract_state_content("<state>{\"hp\":50}</state>mid<state>{\"hp\":99}</state>tail");
    assert_eq!(text, "midtail");
    assert_eq!(hp(&state.unwrap(), "/hp"), JsonLookup::Int(99));
}

#[test]
fn invalid_json_block_removed_state_none() {
    let (text, state) = extract_state_content("<state>not json</state>content");
    assert_eq!(text, "content");
    assert!(state.is_none());
}

#[test]
fn unclosed_tag_kept_in_text() {
    let (text, state) = extract_state_content("before<state>unclosed");
    assert!(text.contains("<state>unclosed"), "text={:?}", text);
    assert!(state.is_none());
}

#[test]
fn mixed_valid_invalid_takes_last_valid() {
    let input = "<state>bad</state>sep<state>{\"x\":1}</state>sep2<state>bad2</state>end";
    let (text, state) = extract_state_content(input);
    assert_eq!(text, "sepsep2end");
    assert_eq!(hp(&state.unwrap(), "/x"), JsonLookup::Int(1));
}

#[test]
fn state_block_is_trimmed_before_parsing() {
    let (text, state) = extract_state_content("a<state>\n  {\"k\": \"v\"}  \n</state>b");
    assert_eq!(text, "ab");
    assert_eq!(hp(&state.unwrap(), "/k"), JsonLookup::Str("v".to_string()));
}

#[test]
fn finalize_keeps_message_unless_blank() {
    let (m, s) = finalize_reply("<state>{\"a\":1}</state>  \n");
    assert!(m.is_none());
    assert!(s.is_some());
    let (m2, s2) = finalize_reply("hi<state>x</state>");
    assert_eq!(m2, Some("hi".to_string()));
    assert!(s2.is_none());
}

#[test]
fn maintenance_schedule() {
    assert!(!maintenance_due(0, 3));
    assert!(maintenance_due(3, 3));
    assert!(!maintenance_due(4, 3));
    assert!(maintenance_due(7, 0));
}

#[test]
fn inline_sources() {
    assert!(is_inline_card("  {\"name\":\"x\"}  "));
    assert!(!is_inline_card("cards/x.json"));
    assert!(!is_inline_card("   "));
    assert!(is_inline_lorebook("\n{\"entries\":[]}"));
    assert!(!is_inline_lorebook("world/lorebook.json"));
}

#[test]
fn scan_text_and_conversation() {
    let history = vec![
        ChatMessage { role: MessageRole::User, content: "a".to_string() },
        ChatMessage { role: MessageRole::Assistant, content: "b".to_string() },
    ];
    assert_eq!(lorebook_scan_text("m", &history), "m a b");
    assert_eq!(lorebook_scan_text("m", &vec![]), "m");
    let conv = build_conversation(None, Some(&history), "now");
    assert_eq!(conv.len(), 3);
    assert_eq!(conv[2].role, MessageRole::User);
    assert_eq!(conv[2].content, "now");
    let conv2 = build_conversation(Some(&vec![]), Some(&history), "now");
    assert_eq!(conv2.len(), 1);
}

#[test]
fn settings_priority() {
    assert_eq!(resolve_model(Some("r"), Some("p"), "d"), "r");
    assert_eq!(resolve_model(None, Some("p"), "d"), "p");
    assert_eq!(resolve_model(None, None, "d"), "d");
    assert_eq!(preset_model(r#"{"model":"gpt","temperature":0.7}"#), Some("gpt".to_string()));
    assert_eq!(preset_model("[]"), None);
    let defaults = ProviderConfig {
        provider: Provider::OpenAI,
        endpoint: "https://default".to_string(),
        api_key: Some("dk".to_string()),
    };
    let c = resolve_provider_config(None, Some("https://req"), None, &defaults);
    assert_eq!(c.endpoint, "https://req");
    assert_eq!(c.api_key, Some("dk".to_string()));
    let c2 = resolve_provider_config(Some(Provider::OpenAI), None, Some("rk"), &defaults);
    assert_eq!(c2.endpoint, "https://default");
    assert_eq!(c2.api_key, Some("rk".to_string()));
}

#[test]
fn stream_fsm_filters_state_and_volume_tags() {
    let mut fsm = build_stream_fsm(None, &vec![], &vec![], "U", Some("C"));
    let mut out = fsm.process_chunk("a<state>{\"x\":1}</state>b<卷评估 x/>c");
    out.push_str(&fsm.finish());
    assert_eq!(out, "abc");
}
