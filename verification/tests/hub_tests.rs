use airp_core::error::AirpError;
use airp_core::hub::{echo_reply, hub_protocol_version, load_manifest, parse_manifest, plugin_reply, EchoReply};
use airp_core::hub::{WireError, WireResponse};

#[test]
fn manifest_parse_ok_and_defaults() {
    let m = load_manifest("p", Some(r#"{"command":"python","args":["a.py"]}"#), "/d/plugins/p/hub.json").unwrap();
    assert_eq!(m.command, "python");
    assert_eq!(m.args, vec!["a.py"]);
    assert!(m.cwd.is_none());
    let m2 = parse_manifest(r#"{"command":"node","cwd":"sub","description":null}"#, "x").unwrap();
    assert!(m2.args.is_empty());
    assert_eq!(m2.cwd, Some("sub".to_string()));
}

#[test]
fn manifest_empty_command_rejected() {
    match load_manifest("p", Some(r#"{"command":"   "}"#), "/d/plugins/p/hub.json") {
        Err(AirpError::Config(m)) => assert_eq!(m, "\"/d/plugins/p/hub.json\" 的 command 为空"),
        other => panic!("unexpected {:?}", other),
    }
}

#[test]
fn load_manifest_missing_is_notfound() {
    assert!(matches!(load_manifest("dataonly", None, "x"), Err(AirpError::NotFound(_))));
}

#[test]
fn load_manifest_rejects_bad_id() {
    assert!(load_manifest("../escape", Some(r#"{"command":"x"}"#), "x").is_err());
}

#[test]
fn broken_manifest_is_json_error() {
    assert!(matches!(parse_manifest("{ not json", "x"), Err(AirpError::Json(_))));
    assert!(matches!(parse_manifest(r#"{"command":"x","args":[1]}"#, "x"), Err(AirpError::Json(_))));
    assert!(matches!(parse_manifest(r#"{"args":[]}"#, "x"), Err(AirpError::Json(_))));
}

#[test]
fn echo_handler_methods() {
    assert_eq!(echo_reply("initialize"), EchoReply::Initialized);
    assert_eq!(hub_protocol_version(), "fed-1");
    assert_eq!(echo_reply("echo"), EchoReply::Echoed);
    match echo_reply("nope") {
        EchoReply::Failed { code, message } => {
            assert_eq!(code, -32601);
            assert_eq!(message, "method not found: nope");
        }
        other => panic!("unexpected {:?}", other),
    }
}

fn reply(result: Option<&str>, error: Option<(i64, &str)>) -> Result<WireResponse, String> {
    Ok(WireResponse {
        jsonrpc: "2.0".to_string(),
        id: 1,
        result: result.map(|r| r.to_string()),
        error: error.map(|(code, message)| WireError { code, message: message.to_string(), data: None }),
    })
}

#[test]
fn plugin_replies() {
    let line = r#"  {"jsonrpc":"2.0","id":1,"result":{"x":42}}  "#;
    assert_eq!(plugin_reply("p", line, &reply(Some(r#"{"x":42}"#), None)).unwrap(), r#"{"x":42}"#);
    assert_eq!(plugin_reply("p", r#"{"jsonrpc":"2.0","id":1}"#, &reply(None, None)).unwrap(), "null");
    match plugin_reply("p", "{...}", &reply(None, Some((-32601, "nope")))) {
        Err(AirpError::Internal(m)) => assert_eq!(m, "插件 `p` 返回错误 [-32601]: nope"),
        other => panic!("unexpected {:?}", other),
    }
    match plugin_reply("p", "   ", &reply(Some("1"), None)) {
        Err(AirpError::Internal(m)) => assert_eq!(m, "插件 `p` 未返回响应（stdout 空，可能已崩溃）"),
        other => panic!("unexpected {:?}", other),
    }
    match plugin_reply("p", " oops ", &Err("expected value at line 1 column 1".to_string())) {
        Err(AirpError::Internal(m)) => {
            assert_eq!(m, "插件 `p` 响应非合法 JSON-RPC: expected value at line 1 column 1 | raw=oops");
        }
        other => panic!("unexpected {:?}", other),
    }
}

#[test]
fn reply_error_codes_keep_their_sign() {
    match plugin_reply("p", "x", &reply(Some("1"), Some((i64::MIN, "m")))) {
        Err(AirpError::Internal(m)) => assert_eq!(m, "插件 `p` 返回错误 [-9223372036854775808]: m"),
        other => panic!("unexpected {:?}", other),
    }
    match plugin_reply("p", "x", &reply(None, Some((7, "")))) {
        Err(AirpError::Internal(m)) => assert_eq!(m, "插件 `p` 返回错误 [7]: "),
        other => panic!("unexpected {:?}", other),
    }
}
