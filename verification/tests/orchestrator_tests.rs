use airp_core::orchestrator::{CharacterFiles, Orchestrator};
use airp_core::preset::{assemble_preset_prompts, render_macros};
use airp_core::error::AirpError;

#[test]
fn test_orchestrator_build() {
    let card_json = r#"{
            "spec": "chara_card_v2",
            "data": {
                "name": "艾米丽",
                "personality": "温柔, 善良",
                "description": "一头金发，手持{{weapon}}",
                "scenario": "酒馆"
            }
        }"#;

    let lorebook_json = r#"{
            "entries": [
                {
                    "keys": ["长剑", "精钢长剑"],
                    "content": "精钢长剑是精炼钢制成的武器，极其锋利。",
                    "enabled": true,
                    "priority": 100
                }
            ]
        }"#;

    let orchestrator = Orchestrator::new(Some(card_json), Some(lorebook_json)).unwrap();

    let triggered = orchestrator.trigger_lorebook("我亮出了一柄精钢长剑。");
    assert!(triggered.contains("精钢长剑是精炼钢制成的武器"));

    let vars = vec![("weapon".to_string(), "精钢长剑".to_string())];

    let system_prompt = orchestrator.build_system_prompt("小明", &vars, &triggered);

    assert!(system_prompt.contains("You are going to roleplay as 艾米丽"));
    assert!(system_prompt.contains("一头金发，手持精钢长剑"));
    assert!(system_prompt.contains("精钢长剑是精炼钢制成的武器"));
}

#[test]
fn test_preset_rendering() {
    let preset_json = r#"{
            "prompts": [
                {
                    "identifier": "init-vars",
                    "name": "Init Variables",
                    "enabled": true,
                    "role": "system",
                    "content": "{{setvar::style::日轻}}{{setvar::writer::{{char}}}}"
                },
                {
                    "identifier": "main-prompt",
                    "name": "Main Prompt",
                    "enabled": true,
                    "role": "system",
                    "content": "作者是{{getvar::writer}}。写作风格是{{getvar::style}}。最后一句话是: {{lastUserMessage}}"
                },
                {
                    "identifier": "disabled-prompt",
                    "name": "Disabled",
                    "enabled": false,
                    "role": "system",
                    "content": "这里是禁用的条目"
                }
            ]
        }"#;

    let result = assemble_preset_prompts(preset_json, None, "Konata", "User", "你好啊");

    assert!(result.contains("作者是Konata"));
    assert!(result.contains("写作风格是日轻"));
    assert!(result.contains("最后一句话是: 你好啊"));
    assert!(!result.contains("这里是禁用的条目"));
}

#[test]
fn preset_rendering_exact_text() {
    let preset_json = r#"{"prompts":[
        {"identifier":"a","enabled":true,"content":"{{setvar::style::日轻}}{{setvar::writer::{{char}}}}"},
        {"identifier":"b","enabled":true,"content":"作者是{{getvar::writer}}。风格{{getvar::style}}。{{getvar::none}}|{{lastUserMessage}}"},
        {"identifier":"c","enabled":false,"content":"off"},
        {"identifier":"d","enabled":true}
    ]}"#;
    let result = assemble_preset_prompts(preset_json, None, "Konata", "User", "你好啊");
    assert_eq!(result, "\n作者是Konata。风格日轻。|你好啊\n");
}

#[test]
fn preset_overrides_replace_flags() {
    let preset_json = r#"{"prompts":[
        {"identifier":"a","enabled":true,"content":"A"},
        {"identifier":"b","enabled":false,"content":"B"}
    ]}"#;
    let ids = vec!["b".to_string()];
    assert_eq!(assemble_preset_prompts(preset_json, Some(&ids), "c", "u", "m"), "B\n");
    assert_eq!(assemble_preset_prompts(preset_json, None, "c", "u", "m"), "A\n");
}

#[test]
fn preset_without_prompts_or_not_json_gives_nothing() {
    assert_eq!(assemble_preset_prompts("{}", None, "c", "u", "m"), "");
    assert_eq!(assemble_preset_prompts("not json", None, "c", "u", "m"), "");
    assert_eq!(assemble_preset_prompts(r#"{"prompts":[{"enabled":true}]}"#, None, "c", "u", "m"), "");
}

#[test]
fn macros_later_setvar_wins_and_unknown_is_empty() {
    let r = render_macros("{{setvar::x::1}}{{setvar::x::2}}[{{getvar::x}}][{{getvar::y}}]{{user}}", "C", "U", "L");
    assert_eq!(r, "[2][]U");
    // an unterminated macro stays as it is
    assert_eq!(render_macros("{{getvar::x", "C", "U", "L"), "{{getvar::x");
    assert_eq!(Orchestrator::render_macros("{{char}}/{{user}}", "C", "U", "L"), "C/U");
}

#[test]
fn orchestrator_new_errors() {
    match Orchestrator::new(Some("[1,2]"), None) {
        Err(AirpError::Orchestrator(m)) => {
            assert_eq!(m, "无法解析角色卡 JSON，格式不符合 Tavern V2 或内层结构")
        }
        _ => panic!("card error expected"),
    }
    match Orchestrator::new(None, Some("{\"entries\": 5}")) {
        Err(AirpError::Orchestrator(m)) => assert!(m.starts_with("解析世界书 JSON 失败: ")),
        _ => panic!("lorebook error expected"),
    }
    match Orchestrator::new(None, Some("{oops")) {
        Err(AirpError::Orchestrator(m)) => assert!(m.starts_with("解析世界书 JSON 失败: ")),
        _ => panic!("lorebook error expected"),
    }
    let o = Orchestrator::new(None, None).unwrap();
    assert!(o.card.is_none() && o.lorebook.is_none());
    assert_eq!(o.trigger_lorebook("anything"), "");
}

#[test]
fn card_inner_object_and_defaults() {
    let o = Orchestrator::new(Some(r#"{"name":"Bob","system_prompt":"SYS"}"#), None).unwrap();
    let p = o.build_system_prompt("U", &vec![], "");
    assert_eq!(p, "SYS\n");
    let none = Orchestrator::new(None, None).unwrap();
    let p2 = none.build_system_prompt("U", &vec![], "LORE");
    assert_eq!(
        p2,
        "You are going to roleplay as AI. Always stay in character and act naturally.\nLORE\n"
    );
}

#[test]
fn system_prompt_sections_and_variables() {
    let card = r#"{"data":{"name":"N","personality":"P {{user}}","description":"D","scenario":"S {{char}}"}}"#;
    let o = Orchestrator::new(Some(card), None).unwrap();
    let vars = vec![("char".to_string(), "ignored".to_string()), ("k".to_string(), "v".to_string())];
    let p = o.build_system_prompt("U", &vars, "L {{k}}");
    assert_eq!(
        p,
        "You are going to roleplay as N. Always stay in character and act naturally.\n\
         [N's Personality]:\nP U\n\n[N's Appearance & Description]:\nD\n\n[Scenario]:\nS N\n\nL v\n"
    );
}

#[test]
fn system_prompt_with_preset_and_character_files() {
    let card = r#"{"data":{"name":"N"}}"#;
    let o = Orchestrator::new(Some(card), None).unwrap();
    let files = CharacterFiles {
        id: "n".to_string(),
        checkpoints: Some("- 当前关卡: CP-2\n".to_string()),
        known: Some("a\nsecret b\nc".to_string()),
        disclosure: Some(r#"{"CP-2":{"forbidden_keys":["secret"]}}"#.to_string()),
        live_state: None,
        state_schema: None,
    };
    let preset = r#"{"prompts":[{"identifier":"x","enabled":true,"content":"PRE {{char}}"}]}"#;
    let p = o.build_system_prompt_with_preset(Some(&files), "U", &vec![], "", Some(preset), None, "m");
    assert_eq!(
        p,
        "You are going to roleplay as N. Always stay in character and act naturally.\n\
         \n[N's Known Information & Clues (Current CP: CP-2)]:\na\nc\n\nPRE N\n\n"
    );
}

#[test]
fn test_ls4_inject_live_state_no_file() {
    let mut prompt = String::from("Base.");
    airp_core::orchestrator::inject_live_state(None, None, &mut prompt);
    assert_eq!(prompt, "Base.", "no live.json → prompt unchanged");
}

#[test]
fn test_ls4_inject_live_state_injects_block() {
    let mut prompt = String::from("Base.");
    airp_core::orchestrator::inject_live_state_for_test(Some(r#"{"hp":80,"mp":20}"#), None, &mut prompt);
    assert!(prompt.contains("[Current State]"), "should inject [Current State] header");
    assert!(prompt.contains("\"hp\": 80"), "should include state values");
    assert!(prompt.contains("<state>"), "should include state tag instruction");
}

#[test]
fn test_ls8_inject_live_state_uses_schema_labels() {
    let schema = r#"{
            "fields": [
                {"key": "hp", "type": "number", "min": 0, "max": 100, "label": "生命值"},
                {"key": "location", "type": "string", "label": "当前位置"}
            ]
        }"#;
    let mut prompt = String::from("Base.");
    airp_core::orchestrator::inject_live_state(
        Some(r#"{"hp":75,"hp_max":100,"location":"tavern"}"#),
        Some(schema),
        &mut prompt,
    );
    assert!(prompt.contains("[Current State]"), "should inject [Current State] header");
    assert!(prompt.contains("生命值 (hp)"), "should use schema label");
    assert!(prompt.contains("当前位置 (location)"), "should use schema label for string field");
    assert!(prompt.contains("75/100"), "should show hp/max");
    assert!(prompt.contains("keys: hp, location"), "should list expected keys in instruction");
    assert!(prompt.contains("<state>"), "should include state tag instruction");
}

#[test]
fn test_ls4_inject_live_state_invalid_json_noop() {
    let mut prompt = String::from("Base.");
    airp_core::orchestrator::inject_live_state(Some("not json"), None, &mut prompt);
    assert_eq!(prompt, "Base.", "invalid JSON → prompt unchanged");
}

#[test]
fn live_state_exact_rows() {
    let mut prompt = String::new();
    airp_core::orchestrator::inject_live_state(
        Some(r#"{"hp":75,"loc":"inn"}"#),
        Some(r#"{"fields":[{"key":"hp","max":90},{"key":"loc","label":"L"},{"key":"gone"},{"label":"x"}]}"#),
        &mut prompt,
    );
    assert_eq!(
        prompt,
        "[Current State]:\n- hp (hp): 75/90\n- L (loc): \"inn\"\n(raw: {\"hp\":75,\"loc\":\"inn\"})\n\
         When any state value changes, output the complete updated state at the very end as: \
         <state>{...}</state> (keys: hp, loc, gone)\n\n"
    );
}

#[test]
fn plain_text_renders_unchanged() {
    let text = "没有宏的正文 {single} brace }} and {char}";
    assert_eq!(render_macros(text, "Konata", "User", "hi"), text);
}
