use airp_core::adapter::MessageRole;
use airp_core::mcp_tools::check_state_delta;
use airp_core::mcp_tools::state_history_entries;
use airp_core::mcp_tools::{clamp_count, parse_role};
use airp_core::mcp_tools::{tool_from_name, McpTool};
use airp_core::mcp_tools::all_tools;
use airp_core::mcp_tools::{merge_state, update_live_state, MergedState};
use airp_core::json::JsonDoc;

#[test]
fn tool_names_route() {
    assert_eq!(tool_from_name("ping"), Ok(McpTool::Ping));
    assert_eq!(tool_from_name("seal_volume"), Ok(McpTool::SealVolume));
    assert_eq!(tool_from_name("get_state_history"), Ok(McpTool::GetStateHistory));
    assert_eq!(
        tool_from_name("frobnicate"),
        Err("unknown tool: `frobnicate` (use `airp-core list-tools --format summary` to enumerate)".to_string())
    );
}

#[test]
fn roles_and_counts() {
    assert_eq!(parse_role("user"), Ok(MessageRole::User));
    assert_eq!(parse_role("assistant"), Ok(MessageRole::Assistant));
    assert_eq!(parse_role("system"), Ok(MessageRole::System));
    assert_eq!(parse_role("bot"), Err("未知 role 'bot': 必须为 user / assistant / system".to_string()));
    assert_eq!(clamp_count(0), 1);
    assert_eq!(clamp_count(5), 5);
    assert_eq!(clamp_count(5000), 1000);
}

#[test]
fn test_ds8_update_state_invalid_json() {
    let e = match check_state_delta("not json") {
        Err(e) => e,
        Ok(_) => panic!("error expected"),
    };
    assert!(e.contains("非合法 JSON"));
}

#[test]
fn test_ds8_update_state_not_object() {
    let e = match check_state_delta("[1,2,3]") {
        Err(e) => e,
        Ok(_) => panic!("error expected"),
    };
    assert!(e.contains("JSON 对象"));
    assert_eq!(e, "state_json 必须是 JSON 对象（{...}）");
    assert!(check_state_delta("{\"hp\":1}").is_ok());
}

#[test]
fn state_history_newest_first() {
    let text = "{\"a\":1}\nnot json\n{\"a\":2}\n{\"a\":3}\n";
    assert_eq!(state_history_entries(text, 2), vec!["{\"a\":3}".to_string(), "{\"a\":2}".to_string()]);
    assert_eq!(state_history_entries(text, 10).len(), 3);
    assert!(state_history_entries("", 5).is_empty());
}

#[test]
fn every_tool_name_calls_its_tool() {
    let tools = all_tools();
    assert_eq!(tools.len(), 33);
    for t in tools {
        assert_eq!(tool_from_name(t.name()), Ok(t));
    }
}

fn merged_value(stored: Option<&str>, delta: &str, overwrite: bool) -> Option<serde_json::Value> {
    let stored_doc = stored.and_then(JsonDoc::parse);
    let delta_doc = check_state_delta(delta).unwrap();
    match merge_state(stored_doc.as_ref(), &delta_doc, overwrite) {
        MergedState::Members(m) => Some(serde_json::Value::Object(m)),
        MergedState::KeepExisting => None,
    }
}

fn value(text: &str) -> serde_json::Value {
    serde_json::from_str(text).unwrap()
}

#[test]
fn update_lays_members_over_the_stored_state() {
    let merged = merged_value(Some(r#"{"hp":80,"mp":20,"bag":{"a":1}}"#), r#"{"hp":75,"gold":3,"bag":[]}"#, false);
    assert_eq!(merged, Some(value(r#"{"hp":75,"mp":20,"gold":3,"bag":[]}"#)));
}

#[test]
fn update_with_overwrite_replaces_the_state() {
    let merged = merged_value(Some(r#"{"hp":80,"mp":20}"#), r#"{"hp":1}"#, true);
    assert_eq!(merged, Some(value(r#"{"hp":1}"#)));
}

#[test]
fn update_without_stored_state_is_the_update() {
    assert_eq!(merged_value(None, r#"{"a/b":1,"~x":2}"#, false), Some(value(r#"{"a/b":1,"~x":2}"#)));
    assert_eq!(merged_value(Some("not json"), r#"{"k":true}"#, false), Some(value(r#"{"k":true}"#)));
}

#[test]
fn update_keeps_a_stored_state_that_is_not_an_object() {
    assert_eq!(merged_value(Some("[1,2]"), r#"{"k":true}"#, false), None);
    assert_eq!(merged_value(Some("[1,2]"), r#"{"k":true}"#, true), Some(value(r#"{"k":true}"#)));
}

#[test]
fn update_request_checks_then_merges() {
    let (ms, n) = update_live_state(Some("\u{feff}{\"hp\":80,\"mp\":20}"), r#"{"hp":75,"gold":3}"#, false).unwrap();
    assert_eq!(n, 2);
    match ms {
        MergedState::Members(m) => assert_eq!(serde_json::Value::Object(m), value(r#"{"hp":75,"mp":20,"gold":3}"#)),
        MergedState::KeepExisting => panic!("expected members"),
    }
    assert!(update_live_state(None, "[1]", false).is_err());
    assert_eq!(
        update_live_state(None, "[1]", false).err(),
        Some("state_json 必须是 JSON 对象（{...}）".to_string())
    );
    assert!(update_live_state(None, "{", false).err().unwrap().starts_with("state_json 非合法 JSON: "));
}
