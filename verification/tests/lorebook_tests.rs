use airp_core::lorebook::{merge_lorebooks, Lorebook, LorebookEntry};

fn entry(keys: &[&str], content: &str, priority: Option<i32>) -> LorebookEntry {
    LorebookEntry {
        keys: keys.iter().map(|s| s.to_string()).collect(),
        content: content.to_string(),
        enabled: None,
        priority,
        comment: None,
    }
}

#[test]
fn trigger_single_match() {
    let lb = Lorebook { entries: vec![entry(&["艾莉娅"], "艾莉娅是冒险者", None)] };
    let out = lb.trigger("我去找艾莉娅");
    assert!(out.contains("艾莉娅是冒险者"));
}

#[test]
fn trigger_no_match_returns_empty() {
    let lb = Lorebook { entries: vec![entry(&["龙王"], "...", None)] };
    assert_eq!(lb.trigger("今天天气不错"), "");
}

#[test]
fn trigger_disabled_entry_ignored() {
    let lb = Lorebook {
        entries: vec![LorebookEntry {
            keys: vec!["艾莉娅".to_string()],
            content: "should not appear".to_string(),
            enabled: Some(false),
            priority: None,
            comment: None,
        }],
    };
    assert_eq!(lb.trigger("艾莉娅来了"), "");
}

#[test]
fn trigger_priority_sort_desc() {
    let lb = Lorebook {
        entries: vec![entry(&["A"], "low-prio-A", Some(1)), entry(&["B"], "high-prio-B", Some(100))],
    };
    let out = lb.trigger("A 和 B");
    let pos_a = out.find("low-prio-A").unwrap();
    let pos_b = out.find("high-prio-B").unwrap();
    assert!(pos_b < pos_a, "priority 100 应排在 1 之前: {}", out);
}

#[test]
fn trigger_multiple_keys_or_semantic() {
    let lb = Lorebook { entries: vec![entry(&["龙王", "Dragon Lord"], "传说中的龙王", None)] };
    assert!(lb.trigger("Dragon Lord 现身").contains("传说中的龙王"));
    assert!(lb.trigger("龙王降临").contains("传说中的龙王"));
    assert_eq!(lb.trigger("普通的一天"), "");
}

#[test]
fn trigger_skips_empty_keys() {
    let lb = Lorebook { entries: vec![entry(&["", "实key"], "命中", None)] };
    assert!(lb.trigger("含实key 的文本").contains("命中"));
    assert_eq!(lb.trigger("无关文本"), "");
}

#[test]
fn trigger_stress_many_entries() {
    let mut entries = Vec::new();
    for i in 0..200 {
        entries.push(entry(
            &[&format!("人物{}", i), &format!("alias{}_a", i), &format!("alias{}_b", i)],
            &format!("人物{}的设定", i),
            None,
        ));
    }
    let lb = Lorebook { entries };
    let text = "人物42 与 alias88_b 在 alias199_a 处相遇";
    let out = lb.trigger(text);
    assert!(out.contains("人物42的设定"));
    assert!(out.contains("人物88的设定"));
    assert!(out.contains("人物199的设定"));
    assert!(!out.contains("人物0的设定"));
}

#[test]
fn trigger_exact_text_and_longest_key_wins() {
    let lb = Lorebook {
        entries: vec![
            entry(&["人物4"], "四", Some(5)),
            entry(&["人物42"], "四十二", Some(5)),
            entry(&["灯"], "灯火", Some(7)),
        ],
    };
    assert_eq!(
        lb.trigger("人物42提着灯"),
        "\n[World Info/Lorebook Information]:\n灯火\n四十二\n"
    );
}

#[test]
fn trigger_equal_priorities_keep_entry_order() {
    let lb = Lorebook {
        entries: vec![entry(&["b"], "B", None), entry(&["a"], "A", None), entry(&["c"], "C", Some(10))],
    };
    assert_eq!(lb.trigger("c a b"), "\n[World Info/Lorebook Information]:\nB\nA\nC\n");
}

#[test]
fn trigger_matches_takes_pattern_indices() {
    let lb = Lorebook { entries: vec![entry(&["x", "y"], "XY", None), entry(&["z"], "Z", Some(1))] };
    assert_eq!(lb.trigger_matches(&vec![2, 1]), "\n[World Info/Lorebook Information]:\nXY\nZ\n");
    assert_eq!(lb.trigger_matches(&vec![]), "");
}

#[test]
fn test_ms5_merge_lorebooks_deduplicates_by_content() {
    let lb1 = Lorebook { entries: vec![entry(&["A"], "shared content", Some(10))] };
    let lb2 = Lorebook { entries: vec![entry(&["B"], "shared content", Some(20))] };
    let merged = merge_lorebooks(&[lb1, lb2]);
    assert_eq!(merged.entries.len(), 1, "duplicate content should be deduped");
}

#[test]
fn test_ms5_merge_lorebooks_preserves_all_unique() {
    let lb1 = Lorebook { entries: vec![entry(&["A"], "content A", Some(5))] };
    let lb2 = Lorebook { entries: vec![entry(&["B"], "content B", Some(50))] };
    let merged = merge_lorebooks(&[lb1, lb2]);
    assert_eq!(merged.entries.len(), 2);
    assert_eq!(merged.entries[0].content, "content B");
    assert_eq!(merged.entries[1].content, "content A");
}

#[test]
fn test_ms5_merge_lorebooks_empty() {
    let merged = merge_lorebooks(&[]);
    assert!(merged.entries.is_empty());
}

#[test]
fn merge_keeps_first_of_equal_contents_and_is_stable() {
    let lb1 = Lorebook {
        entries: vec![entry(&["k1"], "one", None), entry(&["k2"], "two", Some(10)), entry(&["k3"], "one", Some(99))],
    };
    let lb2 = Lorebook { entries: vec![entry(&["k4"], "three", Some(-1)), entry(&["k5"], "four", Some(11))] };
    let merged = merge_lorebooks(&[lb1, lb2]);
    let contents: Vec<&str> = merged.entries.iter().map(|e| e.content.as_str()).collect();
    assert_eq!(contents, vec!["four", "one", "two", "three"]);
    assert_eq!(merged.entries[1].keys, vec!["k1".to_string()]);
}

#[test]
fn merge_keeps_equal_priorities_in_book_order() {
    let a = Lorebook { entries: vec![entry(&["k"], "a1", None), entry(&["k"], "hi", Some(20)), entry(&["k"], "a2", Some(10))] };
    let b = Lorebook { entries: vec![entry(&["k"], "b1", Some(10)), entry(&["k"], "a1", Some(99)), entry(&["k"], "b2", None)] };
    let m = merge_lorebooks(&[a, b]);
    let contents: Vec<&str> = m.entries.iter().map(|e| e.content.as_str()).collect();
    assert_eq!(contents, vec!["hi", "a1", "a2", "b1", "b2"]);
}

#[test]
fn trigger_matches_do_not_overlap() {
    let lb = Lorebook { entries: vec![entry(&["abc"], "ABC", None), entry(&["cd"], "CD", None)] };
    assert_eq!(lb.trigger("abcd"), "\n[World Info/Lorebook Information]:\nABC\n");
    assert_eq!(lb.trigger("xcd abc"), "\n[World Info/Lorebook Information]:\nABC\nCD\n");
}
