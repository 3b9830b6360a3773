use airp_core::auto_converter::{convert_preset_json, convert_worldbook_json, parse_legacy_preset};

const SAMPLE_WB: &str = r#"{
        "entries": {
            "0": {
                "keys": ["天剑阁"],
                "content": "天剑阁是江湖第一大派",
                "order": 10,
                "position": 0,
                "enabled": true
            }
        }
    }"#;

const HEADER: &str = "# 世界书 lorebook\n\n此世界书由 Legacy JSON 格式自动转换，以 Markdown 表格渲染，人类与 Agent 可直接读写编辑。\n\n| 触发关键词 | 排序 (Order) | 激活位置 (Position) | 启用状态 | 提示词设定内容 (Prompt) |\n| :--- | :--- | :--- | :--- | :--- |\n";

#[test]
fn worldbook_sample_converts() {
    let md = convert_worldbook_json(SAMPLE_WB).unwrap();
    assert!(md.contains("天剑阁"));
    assert_eq!(md, format!("{}| 天剑阁 | 10 | before (0) | true | 天剑阁是江湖第一大派 |\n", HEADER));
}

#[test]
fn worldbook_array_sorted_by_order_with_defaults() {
    let wb = "\u{FEFF}[{\"keys\":[\"b\",\"c\"],\"content\":\"x\\ny\"},{\"keys\":[\"a\"],\"content\":\"z\",\"order\":-5,\"enabled\":false},{\"bad\":1}]";
    let md = convert_worldbook_json(wb).unwrap();
    assert_eq!(
        md,
        format!("{}| a | -5 | after (1) | false | z |\n| b, c | 100 | after (1) | true | x<br>y |\n", HEADER)
    );
}

#[test]
fn worldbook_not_json() {
    let e = convert_worldbook_json("{nope").unwrap_err();
    assert!(e.starts_with("Failed to parse Worldbook JSON: "));
}

#[test]
fn preset_converts_to_markdown() {
    let json = r#"{"name":"My \"P\"","prompts":[{"name":"Main","value":"Hello","enabled":true,"identifier":"main"},{"name":"Off","value":"x\n","enabled":false,"identifier":"off"}]}"#;
    let md = convert_preset_json(json).unwrap();
    assert_eq!(
        md,
        "---\nname: \"My \\\"P\\\"\"\n---\n\n# My \"P\"\n\n此预设由 Legacy JSON 格式自动转换。您可直接在此 Markdown 中修改条目内容，或增删条目。\n\n\
## [main] Main\n- Enabled: true\n- Content:\n```markdown\nHello\n```\n\n\
## [off] Off\n- Enabled: false\n- Content:\n```markdown\nx\n```\n\n"
    );
}

#[test]
fn preset_errors() {
    assert!(parse_legacy_preset(r#"{"name":"x"}"#).is_none());
    let e = convert_preset_json(r#"{"name":"x","prompts":[{"name":"a"}]}"#).unwrap_err();
    assert!(e.starts_with("Failed to parse Preset JSON: "));
}
