use airp_core::prompts::{
    analyze_character_card_prompt, analyze_preset_prompt, filter_text_prompt, state_update_prompt,
    state_update_prompt_for_test,
};

#[test]
fn test_mcp4_filter_text_prompt_static() {
    let t = filter_text_prompt();
    assert!(t.contains("文本筛选 Agent"));
    assert!(t.contains("<think>"));
}

#[test]
fn test_mcp4_state_update_prompt_static() {
    let t = state_update_prompt();
    assert!(t.contains("<state>"));
    assert_eq!(state_update_prompt_for_test(), t);
}

#[test]
fn test_mca_analyze_character_card_prompt_contains_steps() {
    let p = analyze_character_card_prompt("凌欺霜");
    assert!(p.contains("airp://characters/凌欺霜/card"));
    assert!(p.contains("analysis/profile.md"));
    assert!(p.contains("analysis/tier.json"));
    assert!(p.contains("tier.json 格式"));
    assert!(p.contains("airp://characters/凌欺霜/artifacts"));
}

#[test]
fn test_mca_analyze_preset_prompt_contains_steps() {
    let p = analyze_preset_prompt("my_preset");
    assert!(p.contains("airp://presets/my_preset/raw"));
    assert!(p.contains("analysis/summary.md"));
    assert!(p.contains("analysis/regex_scripts.json"));
    assert!(p.contains("airp://presets/my_preset/artifacts"));
}
