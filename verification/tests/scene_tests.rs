use airp_core::scene::{build_multi_char_system_prompt, CharacterEntry, CharacterRole, SceneConfig};
use airp_core::scene::{joins_lorebook, lorebook_characters, LorebookMerge};

fn scene(description: &str, characters: Vec<CharacterEntry>, format_hint: &str) -> SceneConfig {
    SceneConfig {
        scene_id: "s".to_string(),
        description: description.to_string(),
        characters,
        narrator_style: String::new(),
        format_hint: format_hint.to_string(),
        lorebook_merge: LorebookMerge::Union,
    }
}

#[test]
fn test_ms9_multi_char_prompt_contains_all_character_sections() {
    let scene = SceneConfig {
        scene_id: "tavern".to_string(),
        description: "茶馆初春".to_string(),
        characters: vec![
            CharacterEntry { character_id: "alice".to_string(), role: CharacterRole::Primary, intro: "剑客".to_string() },
            CharacterEntry { character_id: "bob".to_string(), role: CharacterRole::Npc, intro: "掌柜".to_string() },
        ],
        narrator_style: "third_person_limited".to_string(),
        format_hint: "角色名：台词".to_string(),
        lorebook_merge: LorebookMerge::Union,
    };

    let alice_card = r#"{"spec":"chara_card_v2","data":{"name":"爱丽丝","personality":"勇敢","description":"女剑客"}}"#;
    let bob_card = r#"{"spec":"chara_card_v2","data":{"name":"鲍勃","personality":"谨慎","description":"茶馆掌柜"}}"#;

    let cards = vec![
        ("alice".to_string(), Some(alice_card.to_string())),
        ("bob".to_string(), Some(bob_card.to_string())),
    ];
    let prompt = build_multi_char_system_prompt(&scene, &cards, "", "user");

    assert!(prompt.contains("[场景设定]"), "should have scene section");
    assert!(prompt.contains("茶馆初春"), "should have scene description");
    assert!(prompt.contains("[在场角色]"), "should have characters section");
    assert!(prompt.contains("爱丽丝"), "should have alice's name from card");
    assert!(prompt.contains("（主视角）"), "should mark primary role");
    assert!(prompt.contains("鲍勃"), "should have bob's name from card");
    assert!(prompt.contains("（NPC）"), "should mark npc role");
    assert!(prompt.contains("[格式规则]"), "should have format hint section");
    assert!(prompt.contains("user"), "should mention user name");
}

#[test]
fn test_ms9_multi_char_prompt_no_cards_uses_ids() {
    let s = scene(
        "",
        vec![CharacterEntry { character_id: "char1".to_string(), role: CharacterRole::Npc, intro: String::new() }],
        "",
    );
    let prompt = build_multi_char_system_prompt(&s, &vec![], "", "User");
    assert!(prompt.contains("char1"), "should fall back to character_id when no card");
}

#[test]
fn test_ms9_multi_char_prompt_includes_triggered_lore() {
    let s = scene(
        "",
        vec![CharacterEntry { character_id: "x".to_string(), role: CharacterRole::Primary, intro: String::new() }],
        "",
    );
    let lore = "这里是传说中的禁地";
    let prompt = build_multi_char_system_prompt(&s, &vec![], lore, "user");
    assert!(prompt.contains("[世界书信息]"), "should have lore section");
    assert!(prompt.contains("禁地"), "should include lore content");
}

#[test]
fn multi_char_prompt_exact() {
    let s = scene(
        "D",
        vec![CharacterEntry { character_id: "a".to_string(), role: CharacterRole::Primary, intro: "I".to_string() }],
        "F",
    );
    let cards = vec![("a".to_string(), Some(r#"{"name":"A","scenario":"S"}"#.to_string()))];
    let prompt = build_multi_char_system_prompt(&s, &cards, "L", "U");
    assert_eq!(
        prompt,
        "[场景设定]\nD\n\n[在场角色]\n## A（主视角）\nI\n[场景设定]: S\n\n[世界书信息]\nL\n\n[格式规则]\nF\n用户扮演 U，AI 不代写用户台词。\n"
    );
}

#[test]
fn merge_mode_picks_whose_lorebooks_join() {
    let entry = |id: &str, role: CharacterRole| CharacterEntry { character_id: id.to_string(), role, intro: String::new() };
    let mut sc = scene(
        "",
        vec![entry("npc1", CharacterRole::Npc), entry("hero", CharacterRole::Primary), entry("npc2", CharacterRole::Npc)],
        "",
    );
    assert_eq!(lorebook_characters(&sc), vec!["npc1".to_string(), "hero".to_string(), "npc2".to_string()]);
    sc.lorebook_merge = LorebookMerge::PrimaryOnly;
    assert_eq!(lorebook_characters(&sc), vec!["hero".to_string()]);
    assert!(joins_lorebook(LorebookMerge::Union, CharacterRole::Npc));
    assert!(!joins_lorebook(LorebookMerge::PrimaryOnly, CharacterRole::Npc));
    assert!(joins_lorebook(LorebookMerge::PrimaryOnly, CharacterRole::Primary));
}
