use airp_core::resources::{paginate_text, parse_offset_limit, route_resource, ResourceRoute};

#[test]
fn offset_and_limit_from_query() {
    assert_eq!(parse_offset_limit("airp://presets/p/raw"), (0, 100000));
    assert_eq!(parse_offset_limit("airp://presets/p/raw?offset=5&limit=10"), (5, 10));
    assert_eq!(parse_offset_limit("x?limit=+7&offset=bad&offset=3"), (3, 7));
    assert_eq!(parse_offset_limit("x?offset=-1&limit="), (0, 100000));
    assert_eq!(parse_offset_limit("x?offset=99999999999999999999999"), (0, 100000));
}

#[test]
fn short_text_is_whole_without_header() {
    assert_eq!(paginate_text("hello", "airp://x"), "hello");
}

#[test]
fn paging_respects_char_boundaries() {
    // "一" is three bytes in UTF-8
    let text = "一二三四";
    assert_eq!(
        paginate_text(text, "u?offset=1&limit=4"),
        "[PARTIAL: total=12 chars, offset=1, limit=4 — append ?offset=N&limit=M to URI to page]\n二三"
    );
    assert_eq!(paginate_text(text, "u?limit=3"), "一");
    assert_eq!(
        paginate_text(text, "u?offset=100"),
        "[PARTIAL: total=12 chars, offset=100, limit=100000 — append ?offset=N&limit=M to URI to page]\n"
    );
}

#[test]
fn long_text_gets_header() {
    let text = "a".repeat(100001);
    let out = paginate_text(&text, "u");
    assert!(out.starts_with("[PARTIAL: total=100001 chars, offset=0, limit=100000"));
    assert!(out.ends_with(&"a".repeat(100000)));
}

#[test]
fn routes() {
    assert_eq!(route_resource("airp://presets"), Ok(ResourceRoute::Presets));
    assert_eq!(route_resource("airp://presets/p1/raw?offset=3"), Ok(ResourceRoute::PresetRaw("p1".to_string())));
    assert_eq!(route_resource("airp://presets/p1/artifacts"), Ok(ResourceRoute::PresetArtifacts("p1".to_string())));
    assert_eq!(route_resource("airp://presets/p1/regex"), Ok(ResourceRoute::PresetRegex("p1".to_string())));
    assert_eq!(route_resource("airp://characters"), Ok(ResourceRoute::Characters));
    assert_eq!(route_resource("airp://plugins"), Ok(ResourceRoute::Plugins));
    assert_eq!(route_resource("airp://plugins/pl/files"), Ok(ResourceRoute::PluginFiles("pl".to_string())));
    assert_eq!(
        route_resource("airp://plugins/pl/data/a/b.txt?limit=1"),
        Ok(ResourceRoute::PluginData("pl".to_string(), "a/b.txt".to_string()))
    );
    assert_eq!(route_resource("airp://users"), Ok(ResourceRoute::Users));
    assert_eq!(route_resource("airp://users/u1/persona"), Ok(ResourceRoute::UserPersona("u1".to_string())));
    assert_eq!(route_resource("airp://users/u1/state/live"), Ok(ResourceRoute::UserLiveState("u1".to_string())));
    assert_eq!(route_resource("airp://characters/c/card"), Ok(ResourceRoute::CharacterCard("c".to_string())));
    assert_eq!(
        route_resource("airp://characters/c/world/lorebook"),
        Ok(ResourceRoute::CharacterLorebook("c".to_string()))
    );
    assert_eq!(route_resource("airp://characters/c/artifacts"), Ok(ResourceRoute::CharacterArtifacts("c".to_string())));
    assert_eq!(route_resource("airp://characters/c/history"), Ok(ResourceRoute::CharacterHistory("c".to_string())));
    assert_eq!(route_resource("airp://characters/c/state/live"), Ok(ResourceRoute::CharacterLiveState("c".to_string())));
}

#[test]
fn route_errors() {
    assert_eq!(route_resource("http://x"), Err("未知 URI: http://x".to_string()));
    assert_eq!(
        route_resource("airp://presets/p1/bogus"),
        Err("未知预设子资源 'bogus' (URI=airp://presets/p1/bogus)".to_string())
    );
    assert_eq!(
        route_resource("airp://characters/c/card?x=1"),
        Err("未知子资源 'card?x=1' (URI=airp://characters/c/card?x=1)".to_string())
    );
    assert_eq!(
        route_resource("airp://characters/../card"),
        Err("非法 character_id: 非法请求: 非法 ID: ..".to_string())
    );
    assert_eq!(
        route_resource("airp://plugins/a:b/files"),
        Err("非法 plugin_name: 非法请求: ID 含非法字符 ':': a:b".to_string())
    );
    assert_eq!(
        route_resource("airp://users/u1/other"),
        Err("未知用户子资源 'other' (URI=airp://users/u1/other)".to_string())
    );
}

#[test]
fn small_text_comes_back_whole() {
    let text = "角色卡正文 with ascii";
    assert_eq!(paginate_text(text, "airp://characters/alice/card"), text);
}

#[test]
fn pages_meet_at_offset_plus_limit() {
    let text = "一二三";
    assert_eq!(paginate_text(text, "u?offset=0&limit=4"), "一二");
    assert_eq!(
        paginate_text(text, "u?offset=4&limit=4"),
        "[PARTIAL: total=9 chars, offset=4, limit=4 — append ?offset=N&limit=M to URI to page]\n三"
    );
}
