use airp_core::volume_inject::{
    collect_matched_vols, find_top_level_colon, inject_current_context, inject_volume_context,
    parse_entity_line, related_volumes, EntityRecord,
};

#[test]
fn test_parse_entity_line_basic() {
    let r = parse_entity_line("- 艾莉娅: 卷2(初登场), 卷4, 卷6(身份揭晓)").unwrap();
    assert_eq!(r.name, "艾莉娅");
    assert!(r.aliases.is_empty());
    assert_eq!(r.vols, vec![2, 4, 6]);

    let r = parse_entity_line("- 神殿地图: 卷3").unwrap();
    assert_eq!(r.name, "神殿地图");
    assert_eq!(r.vols, vec![3]);

    assert!(parse_entity_line("- 不规则行").is_none());
    assert!(parse_entity_line("- 名字: 无卷号").is_none());
}

#[test]
fn test_parse_entity_line_with_aliases() {
    let r = parse_entity_line("- 艾莉娅 (别名: 莉娅, 小艾): 卷2(初登场)").unwrap();
    assert_eq!(r.name, "艾莉娅");
    assert_eq!(r.aliases, vec!["莉娅".to_string(), "小艾".to_string()]);
    assert_eq!(r.vols, vec![2]);

    let r = parse_entity_line("- 莱昂 (别名: Leo，老莱): 卷5").unwrap();
    assert_eq!(r.aliases, vec!["Leo".to_string(), "老莱".to_string()]);

    let r = parse_entity_line("- Elias (aliases: Eli): 卷7").unwrap();
    assert_eq!(r.name, "Elias");
    assert_eq!(r.aliases, vec!["Eli".to_string()]);
}

#[test]
fn entity_line_details() {
    // The alias keyword is case-insensitive and needs the `aliase` stem.
    let r = parse_entity_line("- Ann (ALIASE: An): 卷1").unwrap();
    assert_eq!(r.name, "Ann");
    assert_eq!(r.aliases, vec!["An".to_string()]);
    let r = parse_entity_line("- Bo (alias: B): 卷1").unwrap();
    assert_eq!(r.name, "Bo (alias: B)");
    assert!(r.aliases.is_empty());
    // A colon inside parentheses is not the separator; overflowing volumes are skipped.
    let r = parse_entity_line("- - 甲（注：乙）: 卷99999999999, 卷 8").unwrap();
    assert_eq!(r.name, "甲（注：乙）");
    assert_eq!(r.vols, vec![8]);
    assert_eq!(find_top_level_colon(&"a(b:c):d".chars().collect()), Some(6));
    assert_eq!(find_top_level_colon(&"a)b：c".chars().collect()), Some(3));
    assert_eq!(find_top_level_colon(&"(a:b".chars().collect()), None);
}

fn rec(name: &str, aliases: &[&str], vols: &[u32]) -> EntityRecord {
    EntityRecord {
        name: name.to_string(),
        aliases: aliases.iter().map(|s| s.to_string()).collect(),
        vols: vols.to_vec(),
    }
}

#[test]
fn test_collect_length_desc_priority() {
    let records = vec![rec("艾莉娅", &[], &[10]), rec("艾", &[], &[20])];
    let matched = collect_matched_vols("我去找艾莉娅", &records);
    assert!(matched.contains(&10));
    assert!(!matched.contains(&20));
}

#[test]
fn test_collect_alias_resolves_to_canonical() {
    let records = vec![rec("艾莉娅", &["莉娅"], &[3, 5])];
    let matched = collect_matched_vols("莉娅最近怎么样？", &records);
    assert!(matched.contains(&3));
    assert!(matched.contains(&5));
}

#[test]
fn test_collect_non_overlapping_independent_matches() {
    let records = vec![rec("艾莉娅", &[], &[1]), rec("莱昂", &[], &[2])];
    let matched = collect_matched_vols("艾莉娅和莱昂在小镇相遇", &records);
    assert!(matched.contains(&1));
    assert!(matched.contains(&2));
}

#[test]
fn collect_gives_sorted_unique_volumes() {
    let records = vec![rec("甲", &[], &[7, 3, 7]), rec("乙", &["B"], &[5, 3])];
    assert_eq!(collect_matched_vols("B 与 甲", &records), vec![3, 5, 7]);
    assert!(collect_matched_vols("无", &records).is_empty());
    assert!(collect_matched_vols("甲", &vec![]).is_empty());
}

#[test]
fn test_inject_current_context() {
    let mut prompt = String::from("Base prompt.");
    inject_current_context("  \n", &mut prompt);
    assert_eq!(prompt, "Base prompt.");
    inject_current_context("玩家走进了森林。", &mut prompt);
    assert_eq!(prompt, "Base prompt.\n[Recent Context]\n玩家走进了森林。\n");
    let mut p2 = String::new();
    inject_current_context("一行\n", &mut p2);
    assert_eq!(p2, "\n[Recent Context]\n一行\n");
}

#[test]
fn test_inject_volume_context_matches_keyword() {
    let idx = "# 全局索引\n\n## 人物\n- 艾莉娅: 卷2(初登场), 卷4(夜间独行)\n\n## 物品\n\n## 悬挂线索\n\n## 地点\n\n## [已归档]\n";
    let vols = related_volumes(idx, "我去找艾莉娅聊聊");
    assert_eq!(vols, vec![2, 4]);
    let headers = vec![
        Some("# 卷2\n\n## [卷索引]\n- 登场: 艾莉娅\n- 事件: 初遇\n".to_string()),
        Some("# 卷4\n\n## [卷索引]\n- 登场: 艾莉娅\n- 事件: 夜间独行\n".to_string()),
    ];
    let mut prompt = String::new();
    inject_volume_context(&vols, &headers, &mut prompt);
    assert!(prompt.contains("[Related History]"));
    assert!(prompt.contains("--- 卷2 ---"));
    assert!(prompt.contains("--- 卷4 ---"));
    assert!(prompt.contains("初遇"));
    assert_eq!(
        prompt,
        "\n[Related History]\n--- 卷2 ---\n# 卷2\n\n## [卷索引]\n- 登场: 艾莉娅\n- 事件: 初遇\n--- 卷4 ---\n# 卷4\n\n## [卷索引]\n- 登场: 艾莉娅\n- 事件: 夜间独行\n"
    );
}

#[test]
fn test_inject_volume_context_alias_end_to_end() {
    let idx = "# 全局索引\n\n## 人物\n- 艾莉娅 (别名: 莉娅): 卷3\n\n## 物品\n\n## 悬挂线索\n\n## 地点\n\n## [已归档]\n";
    let vols = related_volumes(idx, "莉娅今天来访");
    assert_eq!(vols, vec![3]);
    let mut prompt = String::new();
    inject_volume_context(&vols, &vec![Some("# 卷3\n".to_string())], &mut prompt);
    assert!(prompt.contains("--- 卷3 ---"));
}

#[test]
fn test_inject_volume_context_no_match() {
    let idx = "# 全局索引\n\n## 人物\n- 艾莉娅: 卷2\n\n## 物品\n\n## 悬挂线索\n\n## 地点\n\n## [已归档]\n";
    let vols = related_volumes(idx, "今天天气真好");
    let mut prompt = String::new();
    inject_volume_context(&vols, &vec![], &mut prompt);
    assert!(!prompt.contains("[Related History]"));
    assert!(prompt.is_empty());
}

#[test]
fn unreadable_headers_are_skipped() {
    let mut prompt = String::new();
    inject_volume_context(&vec![1, 2], &vec![None, Some("头  \n".to_string())], &mut prompt);
    assert_eq!(prompt, "\n[Related History]\n--- 卷2 ---\n头\n");
}
