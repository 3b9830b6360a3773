use airp_core::index_parser::{
    append_volume_to_line, apply_diff, extract_diff_block, extract_volume_number,
    find_entity_line, parse_index_diff, parse_named_with_paren, parse_sections, serialize_sections,
    EntityCategory, IndexDiff, IndexSections, PromoteMode, ThreadStatus, ThreadUpdate,
};

#[test]
fn test_extract_diff_block() {
    let raw = "前置文本\n<全局index更新>\n[人物] 提升: 艾莉娅(卷6)\n</全局index更新>\n后续文本";
    let body = extract_diff_block(raw).unwrap();
    assert!(body.contains("[人物] 提升: 艾莉娅"));
}

#[test]
fn test_extract_volume_number() {
    assert_eq!(extract_volume_number("卷6"), Some(6));
    assert_eq!(extract_volume_number("卷12·身份揭晓"), Some(12));
    assert_eq!(extract_volume_number("没有卷号"), None);
}

#[test]
fn test_parse_named_with_paren() {
    let p = parse_named_with_paren("艾莉娅(卷6·身份揭晓)");
    assert_eq!(p.name, "艾莉娅");
    assert_eq!(p.volume, Some(6));
    assert_eq!(p.note, "身份揭晓");

    let p = parse_named_with_paren("玩家");
    assert_eq!(p.name, "玩家");
    assert_eq!(p.volume, None);
    assert_eq!(p.note, "");
}

#[test]
fn test_parse_index_diff() {
    let raw = r#"<全局index更新>
[人物] 提升: 艾莉娅(卷6·身份揭晓)
[人物] 仅本卷: 路过的观众
[物品] 提升: 神殿地图(卷6·转交玩家)
[地点] 提升: 古神殿(卷6·首次进入)
[线索] 艾莉娅身份 → 卷6(已解)
[线索] 神殿内部机关 → [新增·未解]
</全局index更新>"#;

    let diff = parse_index_diff(raw);

    assert_eq!(diff.entities.len(), 4);

    let ai = diff.entities.iter().find(|e| e.name == "艾莉娅").unwrap();
    assert_eq!(ai.category, EntityCategory::Character);
    assert_eq!(ai.mode, PromoteMode::Promote);
    assert_eq!(ai.volume, Some(6));
    assert_eq!(ai.note, "身份揭晓");

    let onlooker = diff.entities.iter().find(|e| e.name == "路过的观众").unwrap();
    assert_eq!(onlooker.mode, PromoteMode::LocalOnly);

    let map = diff.entities.iter().find(|e| e.name == "神殿地图").unwrap();
    assert_eq!(map.category, EntityCategory::Item);

    let temple = diff.entities.iter().find(|e| e.name == "古神殿").unwrap();
    assert_eq!(temple.category, EntityCategory::Location);

    assert_eq!(diff.threads.len(), 2);
    let resolved = diff.threads.iter().find(|t| t.name == "艾莉娅身份").unwrap();
    assert_eq!(resolved.status, ThreadStatus::Resolved);
    assert_eq!(resolved.volume, Some(6));

    let new_thread = diff.threads.iter().find(|t| t.name == "神殿内部机关").unwrap();
    assert_eq!(new_thread.status, ThreadStatus::NewOpen);
}

#[test]
fn test_apply_diff_new_entries() {
    let initial = r#"# 全局索引

## 人物

## 物品

## 悬挂线索

## 地点

## [已归档]
"#;

    let diff = parse_index_diff(
        r#"<全局index更新>
[人物] 提升: 艾莉娅(卷2·初登场)
[物品] 提升: 神殿地图(卷2)
[线索] 艾莉娅身份 → [新增·未解]
</全局index更新>"#,
    );

    let updated = apply_diff(initial, &diff);
    assert!(updated.contains("- 艾莉娅: 卷2(初登场)"));
    assert!(updated.contains("- 神殿地图: 卷2"));
    assert!(updated.contains("艾莉娅身份"));
}

#[test]
fn test_apply_diff_append_to_existing() {
    let initial = r#"# 全局索引

## 人物
- 艾莉娅: 卷2(初登场), 卷4(夜间独行)

## 物品

## 悬挂线索
- 艾莉娅身份: 卷2(提出) → [未解]

## 地点

## [已归档]
"#;

    let diff = parse_index_diff(
        r#"<全局index更新>
[人物] 提升: 艾莉娅(卷6·身份揭晓)
[线索] 艾莉娅身份 → 卷6(已解)
</全局index更新>"#,
    );

    let updated = apply_diff(initial, &diff);
    assert!(updated.contains("- 艾莉娅: 卷2(初登场), 卷4(夜间独行), 卷6(身份揭晓)"));
    assert!(updated.contains("## [已归档]"));
    let archived_section = updated.split("## [已归档]").nth(1).unwrap();
    assert!(archived_section.contains("艾莉娅身份"));
    assert!(archived_section.contains("已解"));
}

#[test]
fn test_local_only_not_promoted() {
    let initial = "# 全局索引\n\n## 人物\n\n## 物品\n\n## 悬挂线索\n\n## 地点\n\n## [已归档]\n";
    let diff = parse_index_diff(
        r#"<全局index更新>
[人物] 仅本卷: 路过的观众, 录音棚工程师
</全局index更新>"#,
    );
    let updated = apply_diff(initial, &diff);
    assert!(!updated.contains("路过的观众"));
    assert!(!updated.contains("录音棚工程师"));
}

// ── further cases ──────────────────────────────────────────────────────────

#[test]
fn volume_number_edge_cases() {
    assert_eq!(extract_volume_number("卷 12"), Some(12));
    assert_eq!(extract_volume_number("卷012"), Some(12));
    assert_eq!(extract_volume_number("卷x 卷7"), Some(7));
    assert_eq!(extract_volume_number("卷4294967296"), None);
    assert_eq!(extract_volume_number("卷4294967295"), Some(4294967295));
    assert_eq!(extract_volume_number("卷"), None);
}

#[test]
fn named_ref_drops_volume_parts_from_note() {
    let p = parse_named_with_paren("  神殿地图 (转交·卷6·玩家)  ");
    assert_eq!(p.name, "神殿地图");
    assert_eq!(p.volume, Some(6));
    assert_eq!(p.note, "转交·玩家");
    let p = parse_named_with_paren("怪)名(");
    assert_eq!(p.name, "怪)名(");
    assert_eq!(p.volume, None);
}

#[test]
fn diff_without_block_reads_whole_text() {
    let diff = parse_index_diff("[物品] 提升：钥匙(卷3)，地图(卷3)\n[线索] 钥匙 -> 卷3(推进)");
    assert_eq!(diff.entities.len(), 2);
    assert_eq!(diff.entities[0].name, "钥匙");
    assert_eq!(diff.entities[1].name, "地图");
    assert_eq!(diff.threads.len(), 1);
    assert_eq!(diff.threads[0].name, "钥匙");
    assert_eq!(diff.threads[0].status, ThreadStatus::Progressed);
    assert_eq!(diff.threads[0].note, "卷3(推进)");
}

#[test]
fn malformed_lines_are_skipped() {
    let diff = parse_index_diff("[人物]\n[人 物] 提升: 甲(卷1)\n[未知] 提升: 乙(卷1)\n[人物] 提升:\n[线索] 没有箭头");
    assert_eq!(diff, IndexDiff::default());
}

#[test]
fn sections_round_trip_concrete() {
    let s = IndexSections {
        characters: vec!["- 艾莉娅: 卷2".to_string()],
        items: vec![],
        locations: vec!["  - 古神殿: 卷6".to_string()],
        threads: vec!["- 谜团: 卷1(提出) → [未解]".to_string()],
        archived: vec![],
    };
    let text = serialize_sections(&s);
    assert_eq!(
        text,
        "# 全局索引\n\n## 人物\n- 艾莉娅: 卷2\n\n## 物品\n\n## 悬挂线索\n- 谜团: 卷1(提出) → [未解]\n\n## 地点\n  - 古神殿: 卷6\n\n## [已归档]\n"
    );
    let back = parse_sections(&text);
    assert_eq!(back.characters, s.characters);
    assert_eq!(back.items, s.items);
    assert_eq!(back.locations, s.locations);
    assert_eq!(back.threads, s.threads);
    assert_eq!(back.archived, s.archived);
}

#[test]
fn parse_sections_keeps_lines_and_strips_crlf() {
    let s = parse_sections("## 人物\r\n- 甲: 卷1\r\n不是条目\n## 其他\n- 乙: 卷2\n## 地点\n- 丙: 卷3");
    assert_eq!(s.characters, vec!["- 甲: 卷1".to_string()]);
    assert_eq!(s.locations, vec!["- 丙: 卷3".to_string()]);
    assert!(s.items.is_empty());
}

#[test]
fn new_thread_recorded_once() {
    let initial = "# 全局索引\n\n## 人物\n\n## 物品\n\n## 悬挂线索\n\n## 地点\n\n## [已归档]\n";
    let diff = IndexDiff {
        entities: vec![],
        threads: vec![ThreadUpdate {
            name: "秘密".to_string(),
            volume: Some(3),
            status: ThreadStatus::NewOpen,
            note: String::new(),
        }],
    };
    let once = apply_diff(initial, &diff);
    assert!(once.contains("- 秘密: 卷3(提出) → [未解]"));
    let twice = apply_diff(&once, &diff);
    assert_eq!(once, twice);
}

#[test]
fn progressed_and_resolved_threads() {
    let initial = "## 悬挂线索\n- 秘密: 卷1(提出) → [未解]\n";
    let diff = IndexDiff {
        entities: vec![],
        threads: vec![
            ThreadUpdate {
                name: "秘密".to_string(),
                volume: Some(2),
                status: ThreadStatus::Progressed,
                note: "卷2线索".to_string(),
            },
            ThreadUpdate {
                name: "新谜".to_string(),
                volume: None,
                status: ThreadStatus::Resolved,
                note: String::new(),
            },
        ],
    };
    let out = apply_diff(initial, &diff);
    assert!(out.contains("- 秘密: 卷1(提出) → [未解], 卷2(2线索)"));
    let archived = out.split("## [已归档]").nth(1).unwrap();
    assert!(archived.contains("- 新谜: (已解)"));
}

#[test]
fn append_volume_and_find_entity() {
    assert_eq!(append_volume_to_line("- 甲:  ", "卷1"), "- 甲: 卷1");
    assert_eq!(append_volume_to_line("- 甲：", "卷1"), "- 甲： 卷1");
    assert_eq!(append_volume_to_line("- 甲: 卷1", "卷2"), "- 甲: 卷1, 卷2");
    assert_eq!(append_volume_to_line("- 甲: 卷1 ", ""), "- 甲: 卷1 ");
    let lines = vec!["- 甲乙: 卷1".to_string(), "  - 甲: 卷2".to_string(), "- 丙".to_string()];
    assert_eq!(find_entity_line(&lines, "甲"), Some(1));
    assert_eq!(find_entity_line(&lines, "丙"), Some(2));
    assert_eq!(find_entity_line(&lines, "丁"), None);
}

#[test]
fn category_tags_and_titles() {
    assert_eq!(EntityCategory::from_tag("人物"), Some(EntityCategory::Character));
    assert_eq!(EntityCategory::from_tag("物品"), Some(EntityCategory::Item));
    assert_eq!(EntityCategory::from_tag("地点"), Some(EntityCategory::Location));
    assert_eq!(EntityCategory::from_tag("线索"), None);
    assert_eq!(EntityCategory::Character.section_title(), "人物");
    assert_eq!(EntityCategory::Item.section_title(), "物品");
    assert_eq!(EntityCategory::Location.section_title(), "地点");
}

#[test]
fn resolving_a_thread_archives_it() {
    let initial = "## 人物\n- 甲: 卷1\n\n## 悬挂线索\n- 谜: 卷1(提出)\n- 谜: 卷2(提出)\n\n## [已归档]\n- 旧: 卷0(已解)\n";
    let diff = IndexDiff {
        entities: vec![],
        threads: vec![ThreadUpdate { name: "谜".to_string(), volume: Some(4), status: ThreadStatus::Resolved, note: String::new() }],
    };
    let before = parse_sections(initial);
    let after = parse_sections(&apply_diff(initial, &diff));
    assert_eq!(after.characters, before.characters);
    assert_eq!(after.threads, vec!["- 谜: 卷2(提出)".to_string()]);
    assert_eq!(after.archived.len(), 2);
    assert!(after.archived[1].starts_with("- 谜: 卷1(提出)"));
    assert!(after.archived[1].ends_with("卷4(已解)"));
    let absent = IndexDiff {
        entities: vec![],
        threads: vec![ThreadUpdate { name: "新".to_string(), volume: None, status: ThreadStatus::Resolved, note: String::new() }],
    };
    let after2 = parse_sections(&apply_diff(initial, &absent));
    assert_eq!(after2.archived.last().unwrap(), "- 新: (已解)");
}
