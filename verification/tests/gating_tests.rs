use airp_core::gating::{checkpoints_template, timeline_template};
use airp_core::gating::{
    advance_checkpoints, advance_gating, advance_timeline, checkpoint_of, filter_known, timeline_slot,
};
use airp_core::orchestrator::Orchestrator;

#[test]
fn test_gating_filtering() {
    let checkpoints = "# 剧情进度\n- 当前关卡: CP-2\n- 进度: 20%\n";
    let known_content = "普通背景信息A\n这是测试NPC的秘密武器，杀伤力极大\n普通背景信息B\n这行是剧透内容，绝对不能说！\n普通背景信息C";
    let disclosure_content = r#"{
            "CP-1": { "forbidden_keys": ["剧透内容"] },
            "CP-2": { "forbidden_keys": ["秘密武器", "剧透内容"] }
        }"#;

    let cp = Orchestrator::get_current_checkpoint("test_npc", Some(checkpoints));
    assert_eq!(cp, "CP-2");

    let filtered = Orchestrator::load_filtered_known(Some(known_content), Some(disclosure_content), &cp);
    assert!(filtered.contains("普通背景信息A"));
    assert!(filtered.contains("普通背景信息B"));
    assert!(filtered.contains("普通背景信息C"));
    assert!(!filtered.contains("秘密武器"));
    assert!(!filtered.contains("剧透内容"));
    assert_eq!(filtered, "普通背景信息A\n普通背景信息B\n普通背景信息C");
}

#[test]
fn test_audit_4_get_current_checkpoint_empty_id() {
    assert_eq!(Orchestrator::get_current_checkpoint("", Some("- 当前关卡: CP-3")), "CP-1");
    assert_eq!(Orchestrator::get_current_checkpoint("a", None), "CP-1");
}

#[test]
fn checkpoint_needs_line_start() {
    assert_eq!(checkpoint_of("x - 当前关卡: CP-9\n"), "CP-1");
    assert_eq!(checkpoint_of("\n  \n  -  当前关卡:   CP-7 tail"), "CP-7");
}

#[test]
fn known_without_rules_or_keys_is_whole() {
    assert_eq!(filter_known(None, None, "CP-1"), "");
    assert_eq!(filter_known(Some("a\nb"), None, "CP-1"), "a\nb");
    assert_eq!(filter_known(Some("a\nb"), Some("not json"), "CP-1"), "a\nb");
    assert_eq!(filter_known(Some("a\nb"), Some(r#"{"CP-2":{"forbidden_keys":["a"]}}"#), "CP-1"), "a\nb");
    assert_eq!(filter_known(Some("a\r\nb\n"), Some(r#"{"CP-1":{"forbidden_keys":["b", 3]}}"#), "CP-1"), "a");
}

#[test]
fn advance_from_missing_timeline() {
    let u = Orchestrator::advance_timeline_and_checkpoint("alice", "", None).unwrap();
    assert_eq!(u.slot, 1);
    assert_eq!(
        u.timeline,
        "# 时间线与时槽追踪 timeline\n\n## 统计数据\n- 累计消耗时槽: 1\n\n\n## 历史事件日志\n- [时槽 1] 推进了剧情对话一轮。\n"
    );
    assert!(u.checkpoints.is_none());
    assert!(Orchestrator::advance_timeline_and_checkpoint("", "", None).is_none());
}

#[test]
fn test_timeline_and_checkpoint_advancement() {
    let mut timeline = "# 时间线与时槽追踪 timeline\n- 累计消耗时槽: 0\n## 历史事件日志\n".to_string();
    let mut checkpoints =
        "# 剧情关卡 checkpoints (CP)\n- 当前关卡: CP-1\n- 进度百分比: 0%\n- [ ] CP-1: 探索期\n- [ ] CP-2: 对峙期\n".to_string();
    let step = |timeline: &mut String, checkpoints: &mut String| {
        let u = Orchestrator::advance_timeline_and_checkpoint("alice", timeline, Some(checkpoints)).unwrap();
        *timeline = u.timeline;
        *checkpoints = u.checkpoints.unwrap();
    };

    step(&mut timeline, &mut checkpoints);
    assert_eq!(Orchestrator::get_current_checkpoint("alice", Some(&checkpoints)), "CP-1");
    assert!(timeline.contains("- 累计消耗时槽: 1"));

    for _ in 0..4 {
        step(&mut timeline, &mut checkpoints);
    }
    assert_eq!(Orchestrator::get_current_checkpoint("alice", Some(&checkpoints)), "CP-2");
    assert!(checkpoints.contains("- 当前关卡: CP-2"));
    assert!(checkpoints.contains("- [x] CP-1:"));
    assert!(checkpoints.contains("- [ ] CP-2:"));

    for _ in 0..5 {
        step(&mut timeline, &mut checkpoints);
    }
    assert_eq!(Orchestrator::get_current_checkpoint("alice", Some(&checkpoints)), "CP-3");
    assert!(checkpoints.contains("- 当前关卡: CP-3"));
    assert!(checkpoints.contains("- [x] CP-2:"));
    assert_eq!(timeline_slot(&timeline), 10);
}

#[test]
fn advance_exact_texts() {
    let timeline = "# 时间线与时槽追踪 timeline\n\n## 统计数据\n- 累计消耗时槽: 4\n\n## 历史事件日志\n- [时槽 4] x\n";
    let checkpoints = "- 当前关卡: CP-1\n- 进度百分比: 40%\n- [ ] CP-1: a\n- [ ] CP-2: b\n";
    assert_eq!(timeline_slot(timeline), 4);
    let u = advance_gating(timeline, Some(checkpoints));
    assert_eq!(u.slot, 5);
    assert_eq!(
        u.timeline,
        "# 时间线与时槽追踪 timeline\n\n## 统计数据\n- 累计消耗时槽: 5\n\n## 历史事件日志\n- [时槽 5] 推进了剧情对话一轮。\n\n- [时槽 4] x\n"
    );
    assert_eq!(
        u.checkpoints.unwrap(),
        "- 当前关卡: CP-2\n- 进度百分比: 50%\n- [x] CP-1: a\n- [ ] CP-2: b\n"
    );
    assert_eq!(
        advance_checkpoints(checkpoints, 10),
        "- 当前关卡: CP-3\n- 进度百分比: 100%\n- [x] CP-1: a\n- [x] CP-2: b\n"
    );
    assert_eq!(
        advance_checkpoints(checkpoints, 3),
        "- 当前关卡: CP-1\n- 进度百分比: 30%\n- [ ] CP-1: a\n- [ ] CP-2: b\n"
    );
}

#[test]
fn timeline_overflowing_slot_counts_as_zero() {
    assert_eq!(timeline_slot("- 累计消耗时槽: 99999999999"), 0);
    assert_eq!(advance_timeline("- 累计消耗时槽: 99999999999", 1), "- 累计消耗时槽: 1\n## 历史事件日志\n- [时槽 1] 推进了剧情对话一轮。\n");
}

#[test]
fn test_cf4_template_initialized_when_absent() {
    // A new character starts from the templates; one turn later it is still at CP-1.
    let u = Orchestrator::advance_timeline_and_checkpoint("dave", timeline_template(), Some(checkpoints_template()))
        .unwrap();
    assert_eq!(u.slot, 1);
    let cp = Orchestrator::get_current_checkpoint("dave", u.checkpoints.as_deref());
    assert_eq!(cp, "CP-1");
    assert!(u.timeline.contains("- 累计消耗时槽: 1"));
}

#[test]
fn advanced_slot_reads_back() {
    let once = advance_timeline(timeline_template(), 7);
    assert_eq!(timeline_slot(&once), 7);
    let twice = advance_timeline(&once, 8);
    assert_eq!(timeline_slot(&twice), 8);
    let no_item = advance_timeline("## 历史事件日志\nold\n", 3);
    assert_eq!(timeline_slot(&no_item), 3);
    let heading_first = advance_timeline("## 历史事件日志\n- 累计消耗时槽: 4\n", 5);
    assert_eq!(timeline_slot(&heading_first), 5);
}

#[test]
fn advanced_checkpoint_reads_back() {
    for slot in 0..13u32 {
        let expected = if slot >= 10 {
            "CP-3"
        } else if slot >= 5 {
            "CP-2"
        } else {
            "CP-1"
        };
        let c = advance_checkpoints(checkpoints_template(), slot);
        assert_eq!(checkpoint_of(&c), expected);
    }
    let laid_out = "# CP\n  - 当前关卡: CP-1 (开场)\n- 进度百分比: 0%\n- [ ] CP-1: a\n- [ ] CP-2: b\n";
    assert_eq!(checkpoint_of(&advance_checkpoints(laid_out, 11)), "CP-3");
    let progress_first = "- 进度百分比: 0%\n- 当前关卡: CP-1\n";
    assert_eq!(checkpoint_of(&advance_checkpoints(progress_first, 7)), "CP-2");
}

#[test]
fn each_turn_costs_one_slot() {
    let mut timeline = String::from("## 历史事件日志\n- 累计消耗时槽: 4\n");
    for n in 1..=6u32 {
        let update = advance_gating(&timeline, None);
        assert_eq!(update.slot, 4 + n);
        timeline = update.timeline;
        assert_eq!(timeline_slot(&timeline), 4 + n);
    }
    assert_eq!(timeline.matches("推进了剧情对话一轮").count(), 6);
}

#[test]
fn turns_reach_each_checkpoint_at_its_slot() {
    let mut timeline = timeline_template().to_string();
    let mut checkpoints = checkpoints_template().to_string();
    for n in 1..=12u32 {
        let update = advance_gating(&timeline, Some(&checkpoints));
        assert_eq!(update.slot, n);
        timeline = update.timeline;
        checkpoints = update.checkpoints.unwrap();
        let expected = if n >= 10 { "CP-3" } else if n >= 5 { "CP-2" } else { "CP-1" };
        assert_eq!(checkpoint_of(&checkpoints), expected);
        assert_eq!(checkpoints.contains("- [x] CP-1:"), n >= 5);
        assert_eq!(checkpoints.contains("- [x] CP-2:"), n >= 10);
    }
    assert!(checkpoints.contains("- 进度百分比: 100%"));
}
