use airp_core::fsm::{RegexFilter, StreamingFsm};

fn vars(pairs: &[(&str, &str)]) -> Vec<(String, String)> {
    pairs.iter().map(|(k, v)| (k.to_string(), v.to_string())).collect()
}

fn run_fsm(filters: Vec<RegexFilter>, v: Vec<(String, String)>, chunks: &[&str]) -> String {
    let mut fsm = StreamingFsm::new(filters, v);
    let mut out = String::new();
    for c in chunks {
        out.push_str(&fsm.process_chunk(c));
    }
    out.push_str(&fsm.finish());
    out
}

#[test]
fn test_regex_filter_parser() {
    let f1 = RegexFilter::from_regex("<thought>[\\s\\S]*?<\\/thought>");
    assert_eq!(f1.start, "<thought>");
    assert_eq!(f1.end, "</thought>");

    let f2 = RegexFilter::from_regex("\\[系统提示:[\\s\\S]*?\\]");
    assert_eq!(f2.start, "[系统提示:");
    assert_eq!(f2.end, "]");
}

#[test]
fn test_variable_replacement() {
    let v = vars(&[("user", "小明"), ("weapon", "精钢长剑")]);
    let mut fsm = StreamingFsm::new(vec![], v);
    let out1 = fsm.process_chunk("我手持 {{weapon}} 指向他。");
    let out2 = fsm.finish();
    assert_eq!(out1 + &out2, "我手持 精钢长剑 指向他。");
}

#[test]
fn test_filtering() {
    let f1 = RegexFilter::from_regex("<thought>[\\s\\S]*?<\\/thought>");
    let mut fsm = StreamingFsm::new(vec![f1], vec![]);
    let out1 = fsm.process_chunk("你好，人类。<thought>他在看我</thought>我是AI。");
    let out2 = fsm.finish();
    assert_eq!(out1 + &out2, "你好，人类。我是AI。");
}

#[test]
fn test_chunk_boundaries() {
    let f1 = RegexFilter::from_regex("<thought>[\\s\\S]*?<\\/thought>");
    let v = vars(&[("char", "艾米丽")]);
    let chunks = vec![
        "我的名字叫 ",
        "{",
        "{ch",
        "ar}}",
        "。 <tho",
        "ught> 思考",
        "一下 </th",
        "ought> 很高兴见到你",
    ];
    let result = run_fsm(vec![f1], v, &chunks);
    assert_eq!(result, "我的名字叫 艾米丽。  很高兴见到你");
}

#[test]
fn test_rollback_on_false_positive() {
    let f1 = RegexFilter::from_regex("<thought>[\\s\\S]*?<\\/thought>");
    let mut fsm = StreamingFsm::new(vec![f1], vec![]);
    let out1 = fsm.process_chunk("这是一个 <though 这是一个测试");
    let out2 = fsm.finish();
    assert_eq!(out1 + &out2, "这是一个 <though 这是一个测试");
}

#[test]
fn test_self_closing_volume_seal_tag() {
    let f = RegexFilter::from_regex("<卷评估[\\s\\S]*?\\/>");
    assert_eq!(f.start, "<卷评估");
    assert_eq!(f.end, "/>");
    let mut fsm = StreamingFsm::new(vec![f], vec![]);
    let out1 = fsm.process_chunk("剧情正文。<卷评估 封存=\"true\" 原因=\"晋级决赛\"/>结尾。");
    let out2 = fsm.finish();
    assert_eq!(out1 + &out2, "剧情正文。结尾。");
}

#[test]
fn test_state_tag_filter() {
    let f = RegexFilter::from_regex("<state>[\\s\\S]*?</state>");
    assert_eq!(f.start, "<state>");
    assert_eq!(f.end, "</state>");
    let mut fsm = StreamingFsm::new(vec![f], vec![]);
    let out1 = fsm.process_chunk("Turn end.<state>{\"hp\":80}</state>Next.");
    let out2 = fsm.finish();
    assert_eq!(out1 + &out2, "Turn end.Next.");
}

#[test]
fn test_state_tag_across_chunks() {
    let f = RegexFilter::from_regex("<state>[\\s\\S]*?</state>");
    let out = run_fsm(vec![f], vec![], &["text.<sta", "te>{\"x", "\":1}</sta", "te>end"]);
    assert_eq!(out, "text.end");
}

#[test]
fn test_seal_tag_across_chunks() {
    let f = RegexFilter::from_regex("<卷评估[\\s\\S]*?\\/>");
    let chunks = vec![
        "今天结束了。<卷评",
        "估 封存=\"true\"",
        " 原因=\"重大转",
        "折\"/>",
        "明天继续。",
    ];
    let out = run_fsm(vec![f], vec![], &chunks);
    assert_eq!(out, "今天结束了。明天继续。");
}

#[test]
fn test_multibyte_in_buffering_no_panic() {
    let f1 = RegexFilter::from_regex("<thought>[\\s\\S]*?<\\/thought>");
    let out = run_fsm(vec![f1], vec![], &["<th", "字"]);
    assert_eq!(out, "<th字");
}

#[test]
fn test_nested_or_adjacent_patterns() {
    let f1 = RegexFilter::from_regex("<thought>[\\s\\S]*?<\\/thought>");
    let v = vars(&[("user", "小明")]);
    let result = run_fsm(vec![f1], v, &["我看着 <tho", "{{user}}"]);
    assert_eq!(result, "我看着 <tho小明");
}

#[test]
fn fsm_chunking_law_on_concrete_split() {
    // The same stream, whole and cut at every character, gives the same output.
    let text = "a{{user}}b<thought>x</thought>c{{nope";
    let f = RegexFilter::from_regex("<thought>.*?</thought>");
    let v = vars(&[("user", "ALICE")]);
    let whole = run_fsm(vec![f.clone()], v.clone(), &[text]);
    let pieces: Vec<String> = text.chars().map(|c| c.to_string()).collect();
    let refs: Vec<&str> = pieces.iter().map(|s| s.as_str()).collect();
    let split = run_fsm(vec![f], v, &refs);
    assert_eq!(whole, split);
    assert_eq!(whole, "aALICEbc{{nope");
}

#[test]
fn fsm_unknown_variable_is_kept() {
    let out = run_fsm(vec![], vec![], &["x {{ who }} y"]);
    assert_eq!(out, "x {{ who }} y");
}

#[test]
fn fsm_invalid_variable_char_falls_back() {
    let out = run_fsm(vec![], vars(&[("a", "1")]), &["{{a-b}}"]);
    assert_eq!(out, "{{a-b}}");
}

#[test]
fn fsm_later_binding_wins() {
    let out = run_fsm(vec![], vars(&[("a", "1"), ("a", "2")]), &["{{a}}"]);
    assert_eq!(out, "2");
}

#[test]
fn fsm_from_regex_without_lazy_part() {
    let f = RegexFilter::from_regex("\\[OOC\\]");
    assert_eq!(f.start, "[OOC]");
    assert_eq!(f.end, "");
    let g = RegexFilter::from_regex("<a>.*?</a>");
    assert_eq!(g.start, "<a>");
    assert_eq!(g.end, "</a>");
}

#[test]
fn fsm_process_char_single_steps() {
    let mut fsm = StreamingFsm::new(vec![], vars(&[("u", "Z")]));
    assert_eq!(fsm.process_char('a'), "a");
    assert_eq!(fsm.process_char('{'), "");
    assert_eq!(fsm.process_char('{'), "");
    assert_eq!(fsm.process_char('u'), "");
    assert_eq!(fsm.process_char('}'), "");
    assert_eq!(fsm.process_char('}'), "Z");
    assert_eq!(fsm.finish(), "");
}

#[test]
fn no_filters_no_vars_is_identity() {
    let text = "a {{x}} b {{a-b { c {{名字}} {{abcdefghijabcdefghijabcdefghijabcdefghijabcdefghijabcdefghijabcdefghij}} end {";
    for cut in [1usize, 2, 3, 7] {
        let mut f = StreamingFsm::new(vec![], vec![]);
        let chars: Vec<char> = text.chars().collect();
        let mut out = String::new();
        for piece in chars.chunks(cut) {
            let s: String = piece.iter().collect();
            out.push_str(&f.process_chunk(&s));
        }
        out.push_str(&f.finish());
        assert_eq!(out, text);
    }
    let mut g = StreamingFsm::new(vec![], vec![]);
    let mut per_char = String::new();
    for c in text.chars() {
        per_char.push_str(&g.process_char(c));
    }
    per_char.push_str(&g.finish());
    assert_eq!(per_char, text);
}
