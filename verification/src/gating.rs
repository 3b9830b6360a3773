//! Story gating: the time-slot counter of `timeline.md`, the checkpoint of
//! `checkpoints.md`, and what `known.md` may reveal at a checkpoint.
//!
//! These functions take the files' text and give back the text to write; the
//! reading and writing happen at the caller.
use vstd::prelude::*;
use crate::index_parser::{digit_run_end, digits_at, is_ascii_digit_exec, skip_ws, skip_ws_exec};
use crate::json::{json_at, json_valid, push_token, JsonDoc, JsonLookup, LookupModel};
use crate::text::{
    char_is_whitespace, chars_of, contains_seq, decimal, digit_char, digits_value, find_from_exec,
    is_ascii_digit, replace_from,
    is_white_space, lines_of, occurs_at, occurs_at_exec, push_char, push_chars, push_chars_range,
    push_decimal, push_str, replace, replace_all, split_lines, views,
};

verus! {

broadcast use vstd::string::group_string_axioms;

/// From this many slots on, the story is at `CP-2`.
pub const SLOTS_PER_CP_2: u32 = 5;

/// From this many slots on, the story is at `CP-3`.
pub const SLOTS_PER_CP_3: u32 = 10;

// ---------------------------------------------------------------------------
// `- LABEL VALUE` items
// ---------------------------------------------------------------------------

/// The index just past the run of non-whitespace characters at `i`.
pub open spec fn word_end(s: Seq<char>, i: int) -> int
    decreases s.len() - i,
{
    if 0 <= i < s.len() && !is_white_space(s[i]) {
        word_end(s, i + 1)
    } else {
        i
    }
}

/// The value of an item `-`, whitespace, `label`, whitespace, value that
/// starts at `i`, as the bounds of the value: one or more ASCII digits when
/// `digits`, else one or more non-whitespace characters.
pub open spec fn item_at(s: Seq<char>, i: int, label: Seq<char>, digits: bool) -> Option<(int, int)> {
    if 0 <= i < s.len() && s[i] == '-' {
        let a = skip_ws(s, i + 1);
        if occurs_at(s, label, a) {
            let b = skip_ws(s, a + label.len());
            let e = if digits {
                digit_run_end(s, b)
            } else {
                word_end(s, b)
            };
            if e > b {
                Some((b, e))
            } else {
                None
            }
        } else {
            None
        }
    } else {
        None
    }
}

/// The first item at or after `i`, as `(start, value start, value end)`.
pub open spec fn first_item(s: Seq<char>, i: int, label: Seq<char>, digits: bool) -> Option<
    (int, int, int),
>
    decreases s.len() - i,
{
    if i < 0 || i >= s.len() {
        None
    } else {
        match item_at(s, i, label, digits) {
            Some((b, e)) => Some((i, b, e)),
            None => first_item(s, i + 1, label, digits),
        }
    }
}

/// `s` with its first item replaced by `rep` (unchanged when it has none).
pub open spec fn replace_first_item(s: Seq<char>, label: Seq<char>, digits: bool, rep: Seq<char>) -> Seq<char> {
    match first_item(s, 0, label, digits) {
        Some((a, _b, e)) => s.subrange(0, a) + rep + s.subrange(e, s.len() as int),
        None => s,
    }
}

/// `i` is where a line starts.
pub open spec fn line_start(s: Seq<char>, i: int) -> bool {
    i == 0 || (0 < i <= s.len() && s[i - 1] == '\n')
}

/// The value of the first item that stands at the start of a line after
/// nothing but whitespace, searching from `p`.
pub open spec fn first_line_item(s: Seq<char>, p: int, label: Seq<char>) -> Option<(int, int)>
    decreases s.len() + 1 - p,
{
    if p < 0 || p > s.len() {
        None
    } else if line_start(s, p) && item_at(s, skip_ws(s, p), label, false) is Some {
        item_at(s, skip_ws(s, p), label, false)
    } else if p == s.len() {
        None
    } else {
        first_line_item(s, p + 1, label)
    }
}

/// The index just past the non-whitespace run at `i`.
fn word_end_exec(cs: &Vec<char>, i: usize) -> (r: usize)
    requires
        i <= cs.len(),
    ensures
        r == word_end(cs@, i as int),
        i <= r <= cs.len(),
{
    let mut k = i;
    while k < cs.len() && !char_is_whitespace(cs[k])
        invariant
            i <= k <= cs.len(),
            word_end(cs@, i as int) == word_end(cs@, k as int),
        decreases cs.len() - k,
    {
        k = k + 1;
    }
    k
}

/// The index just past the ASCII digit run at `i`.
fn digit_end_exec(cs: &Vec<char>, i: usize) -> (r: usize)
    requires
        i <= cs.len(),
    ensures
        r == digit_run_end(cs@, i as int),
        i <= r <= cs.len(),
{
    let mut k = i;
    while k < cs.len() && is_ascii_digit_exec(cs[k])
        invariant
            i <= k <= cs.len(),
            digit_run_end(cs@, i as int) == digit_run_end(cs@, k as int),
        decreases cs.len() - k,
    {
        k = k + 1;
    }
    k
}

/// `item_at` computed.
fn item_at_exec(cs: &Vec<char>, i: usize, label: &Vec<char>, digits: bool) -> (r: Option<
    (usize, usize),
>)
    requires
        i < cs.len(),
    ensures
        r matches Some((b, e)) ==> item_at(cs@, i as int, label@, digits) == Some(
            (b as int, e as int),
        ) && i < b < e <= cs.len(),
        r is None ==> item_at(cs@, i as int, label@, digits) is None,
{
    if cs[i] != '-' {
        return None;
    }
    let a = skip_ws_exec(cs, i + 1);
    if !occurs_at_exec(cs, label, a) {
        return None;
    }
    let b = skip_ws_exec(cs, a + label.len());
    let e = if digits {
        digit_end_exec(cs, b)
    } else {
        word_end_exec(cs, b)
    };
    if e > b {
        Some((b, e))
    } else {
        None
    }
}

/// `first_item(cs, 0, ..)` computed.
fn first_item_exec(cs: &Vec<char>, label: &Vec<char>, digits: bool) -> (r: Option<
    (usize, usize, usize),
>)
    ensures
        r matches Some((a, b, e)) ==> first_item(cs@, 0, label@, digits) == Some(
            (a as int, b as int, e as int),
        ) && a < b < e <= cs.len() && item_at(cs@, a as int, label@, digits) == Some(
            (b as int, e as int),
        ),
        r is None ==> first_item(cs@, 0, label@, digits) is None,
{
    let mut i: usize = 0;
    while i < cs.len()
        invariant
            i <= cs.len(),
            first_item(cs@, 0, label@, digits) == first_item(cs@, i as int, label@, digits),
        decreases cs.len() - i,
    {
        match item_at_exec(cs, i, label, digits) {
            Some((b, e)) => {
                return Some((i, b, e));
            },
            None => {},
        }
        i = i + 1;
    }
    None
}

/// `replace_first_item` computed.
fn replace_first_item_exec(s: &str, label: &str, digits: bool, rep: &str) -> (r: String)
    ensures
        r@ == replace_first_item(s@, label@, digits, rep@),
{
    let cs = chars_of(s);
    let ls = chars_of(label);
    match first_item_exec(&cs, &ls, digits) {
        Some((a, _b, e)) => {
            let mut out = String::new();
            push_chars_range(&mut out, &cs, 0, a);
            push_str(&mut out, rep);
            push_chars_range(&mut out, &cs, e, cs.len());
            assert(out@ =~= cs@.subrange(0, a as int) + rep@ + cs@.subrange(e as int, cs@.len() as int));
            out
        },
        None => {
            let mut out = String::new();
            push_chars(&mut out, &cs);
            assert(out@ =~= cs@);
            out
        },
    }
}

// ---------------------------------------------------------------------------
// The checkpoint
// ---------------------------------------------------------------------------

/// The current checkpoint that `checkpoints.md` names on a line
/// `- 当前关卡: NAME`, or `CP-1` when it names none.
pub open spec fn checkpoint_in(content: Seq<char>) -> Seq<char> {
    match first_line_item(content, 0, "当前关卡:"@) {
        Some((b, e)) => content.subrange(b, e),
        None => "CP-1"@,
    }
}

/// The current checkpoint named in `content` (see [`checkpoint_in`]).
pub fn checkpoint_of(content: &str) -> (r: String)
    ensures
        r@ == checkpoint_in(content@),
{
    let cs = chars_of(content);
    let label = chars_of("当前关卡:");
    let mut p: usize = 0;
    loop
        invariant
            p <= cs.len(),
            cs@ == content@,
            label@ == "当前关卡:"@,
            first_line_item(cs@, 0, label@) == first_line_item(cs@, p as int, label@),
        decreases cs.len() - p,
    {
        if p == 0 || cs[p - 1] == '\n' {
            let d = skip_ws_exec(&cs, p);
            if d < cs.len() {
                match item_at_exec(&cs, d, &label, false) {
                    Some((b, e)) => {
                        let mut out = String::new();
                        push_chars_range(&mut out, &cs, b, e);
                        assert(out@ =~= cs@.subrange(b as int, e as int));
                        return out;
                    },
                    None => {},
                }
            } else {
                assert(item_at(cs@, d as int, label@, false) is None);
            }
        }
        if p == cs.len() {
            let mut out = String::new();
            push_str(&mut out, "CP-1");
            assert(out@ =~= "CP-1"@);
            return out;
        }
        p = p + 1;
    }
}

// ---------------------------------------------------------------------------
// What may be known
// ---------------------------------------------------------------------------

/// The strings among the first `n` elements of the array at `base`.
pub open spec fn strings_in(text: Seq<char>, base: Seq<char>, n: nat) -> Seq<Seq<char>>
    decreases n,
{
    if n == 0 {
        Seq::empty()
    } else {
        let prev = strings_in(text, base, (n - 1) as nat);
        match json_at(text, base + seq!['/'] + decimal((n - 1) as nat)) {
            LookupModel::Str(k) => prev.push(k),
            _ => prev,
        }
    }
}

/// The pointer to the rules of the checkpoint `cp`.
pub open spec fn rules_pointer(cp: Seq<char>) -> Seq<char> {
    seq!['/'] + crate::json::escape_token(cp)
}

/// The keys that the disclosure rules `text` forbid at `cp`: the strings of
/// the array `forbidden_keys` in the object under the key `cp` of the
/// top-level object; none when any of these is missing or of another kind, or
/// when `text` is not JSON.
pub open spec fn forbidden_keys(text: Seq<char>, cp: Seq<char>) -> Seq<Seq<char>> {
    let rules = rules_pointer(cp);
    let list = rules + "/forbidden_keys"@;
    if json_valid(text) && json_at(text, Seq::empty()) is Object && json_at(text, rules) is Object {
        match json_at(text, list) {
            LookupModel::Array(n) => strings_in(text, list, n),
            _ => Seq::empty(),
        }
    } else {
        Seq::empty()
    }
}

/// Whether `line` contains one of `keys`.
pub open spec fn mentions_any(line: Seq<char>, keys: Seq<Seq<char>>) -> bool {
    exists|j: int| 0 <= j < keys.len() && contains_seq(line, #[trigger] keys[j])
}

/// The lines that mention none of `keys`, in order.
pub open spec fn kept_lines(lines: Seq<Seq<char>>, keys: Seq<Seq<char>>) -> Seq<Seq<char>>
    decreases lines.len(),
{
    if lines.len() == 0 {
        Seq::empty()
    } else {
        let prev = kept_lines(lines.drop_last(), keys);
        if mentions_any(lines.last(), keys) {
            prev
        } else {
            prev.push(lines.last())
        }
    }
}

/// The lines kept are exactly the lines, in order, that contain none of the
/// keys (`lines.filter(|l| !keys.iter().any(|k| l.contains(k)))`).
pub proof fn lemma_kept_lines_filter(lines: Seq<Seq<char>>, keys: Seq<Seq<char>>)
    ensures
        kept_lines(lines, keys) == lines.filter(|l: Seq<char>| !mentions_any(l, keys)),
    decreases lines.len(),
{
    reveal(Seq::filter);
    if lines.len() > 0 {
        lemma_kept_lines_filter(lines.drop_last(), keys);
    }
}

/// The lines joined with line feeds between them.
pub open spec fn joined_lines(lines: Seq<Seq<char>>) -> Seq<char>
    decreases lines.len(),
{
    if lines.len() == 0 {
        Seq::empty()
    } else if lines.len() == 1 {
        lines[0]
    } else {
        joined_lines(lines.drop_last()) + seq!['\n'] + lines.last()
    }
}

/// What `known.md` may reveal at `cp`: nothing without the file; all of it
/// without disclosure rules or when they forbid nothing at `cp`; else its
/// lines that mention no forbidden key, joined with line feeds.
pub open spec fn filtered_known(known: Option<Seq<char>>, disclosure: Option<Seq<char>>, cp: Seq<char>) -> Seq<char> {
    match known {
        None => Seq::empty(),
        Some(raw) => match disclosure {
            None => raw,
            Some(d) => {
                let keys = forbidden_keys(d, cp);
                if keys.len() == 0 {
                    raw
                } else {
                    joined_lines(kept_lines(lines_of(raw), keys))
                }
            },
        },
    }
}

/// `forbidden_keys` computed.
fn forbidden_keys_exec(disclosure: &str, cp: &str) -> (r: Vec<String>)
    ensures
        crate::text::string_views(r@) == forbidden_keys(disclosure@, cp@),
{
    let doc = match JsonDoc::parse(disclosure) {
        Some(d) => d,
        None => return Vec::new(),
    };
    proof {
        reveal_strlit("");
    }
    let top = doc.lookup("");
    assert(""@ =~= Seq::<char>::empty());
    match top {
        JsonLookup::Object => {},
        _ => return Vec::new(),
    }
    let mut rules = String::new();
    push_token(&mut rules, cp);
    assert(rules@ =~= rules_pointer(cp@));
    match doc.lookup(rules.as_str()) {
        JsonLookup::Object => {},
        _ => return Vec::new(),
    }
    let mut list = crate::text::string_from(rules.as_str());
    push_str(&mut list, "/forbidden_keys");
    let n = match doc.lookup(list.as_str()) {
        JsonLookup::Array(n) => n,
        _ => return Vec::new(),
    };
    let ghost text = disclosure@;
    let mut out: Vec<String> = Vec::new();
    let mut i: usize = 0;
    while i < n
        invariant
            i <= n,
            doc.source() == text,
            crate::text::string_views(out@) == strings_in(text, list@, i as nat),
        decreases n - i,
    {
        let p = crate::json::index_pointer(list.as_str(), i);
        let ghost before = crate::text::string_views(out@);
        let found = doc.lookup(p.as_str());
        proof {
            assert(strings_in(text, list@, (i + 1) as nat) == match json_at(
                text,
                list@ + seq!['/'] + decimal(i as nat),
            ) {
                LookupModel::Str(k) => strings_in(text, list@, i as nat).push(k),
                _ => strings_in(text, list@, i as nat),
            });
        }
        match found {
            JsonLookup::Str(k) => {
                let ghost kv = k@;
                out.push(k);
                assert(crate::text::string_views(out@) =~= before.push(kv));
            },
            _ => {},
        }
        i = i + 1;
    }
    out
}

/// Whether `line` contains one of `keys`.
fn mentions_any_exec(line: &Vec<char>, keys: &Vec<Vec<char>>) -> (r: bool)
    ensures
        r == mentions_any(line@, views(keys@)),
{
    let mut j: usize = 0;
    while j < keys.len()
        invariant
            j <= keys.len(),
            forall|x: int| 0 <= x < j ==> !contains_seq(line@, #[trigger] views(keys@)[x]),
        decreases keys.len() - j,
    {
        if find_from_exec(line, &keys[j], 0).is_some() {
            assert(contains_seq(line@, views(keys@)[j as int]));
            return true;
        }
        j = j + 1;
    }
    false
}

/// What `known.md` may reveal at `current_cp` (see [`filtered_known`]).
pub fn filter_known(known_md: Option<&str>, disclosure_json: Option<&str>, current_cp: &str) -> (r:
    String)
    ensures
        r@ == filtered_known(
            match known_md {
                Some(k) => Some(k@),
                None => None,
            },
            match disclosure_json {
                Some(d) => Some(d@),
                None => None,
            },
            current_cp@,
        ),
{
    let raw = match known_md {
        None => return String::new(),
        Some(k) => k,
    };
    let d = match disclosure_json {
        None => return crate::text::string_from(raw),
        Some(d) => d,
    };
    let keys_s = forbidden_keys_exec(d, current_cp);
    if keys_s.len() == 0 {
        return crate::text::string_from(raw);
    }
    let mut keys: Vec<Vec<char>> = Vec::new();
    let mut t: usize = 0;
    while t < keys_s.len()
        invariant
            t <= keys_s.len(),
            views(keys@) == crate::text::string_views(keys_s@).take(t as int),
        decreases keys_s.len() - t,
    {
        let ghost before = views(keys@);
        keys.push(chars_of(keys_s[t].as_str()));
        assert(views(keys@) =~= before.push(keys_s@[t as int]@));
        assert(crate::text::string_views(keys_s@).take(t + 1) =~= crate::text::string_views(
            keys_s@,
        ).take(t as int).push(keys_s@[t as int]@));
        t = t + 1;
    }
    assert(crate::text::string_views(keys_s@).take(t as int) =~= crate::text::string_views(keys_s@));
    let ghost kv = views(keys@);
    let cs = chars_of(raw);
    let lines = split_lines(&cs);
    let ghost lv = views(lines@);
    let mut out = String::new();
    let mut first = true;
    let mut i: usize = 0;
    while i < lines.len()
        invariant
            i <= lines.len(),
            kv == views(keys@),
            lv == views(lines@),
            out@ == joined_lines(kept_lines(lv.take(i as int), kv)),
            first == (kept_lines(lv.take(i as int), kv).len() == 0),
        decreases lines.len() - i,
    {
        proof {
            assert(lv.take(i + 1).drop_last() =~= lv.take(i as int));
            assert(lv.take(i + 1).last() == lv[i as int]);
        }
        if !mentions_any_exec(&lines[i], &keys) {
            if !first {
                push_char(&mut out, '\n');
            }
            push_chars(&mut out, &lines[i]);
            proof {
                let k = kept_lines(lv.take(i as int), kv);
                let k2 = k.push(lv[i as int]);
                assert(k2.drop_last() =~= k);
                if k.len() == 0 {
                    assert(out@ =~= lv[i as int]);
                }
            }
            first = false;
        }
        i = i + 1;
    }
    assert(lv.take(lines.len() as int) =~= lv);
    out
}

// ---------------------------------------------------------------------------
// Advancing the time slot
// ---------------------------------------------------------------------------

/// The label of the slot counter.
pub open spec fn slot_label() -> Seq<char> {
    "累计消耗时槽:"@
}

/// The slot count that `timeline.md` records: the digits of its first
/// `- 累计消耗时槽: N` item, or 0 when it has none or the number does not
/// fit in a `u32`.
pub open spec fn timeline_slot_in(content: Seq<char>) -> u32 {
    match first_item(content, 0, slot_label(), true) {
        Some((_a, b, e)) => {
            let v = digits_value(content.subrange(b, e));
            if v <= u32::MAX {
                v as u32
            } else {
                0
            }
        },
        None => 0,
    }
}

/// The slot count recorded in `timeline.md` (see [`timeline_slot_in`]).
pub fn timeline_slot(content: &str) -> (r: u32)
    ensures
        r == timeline_slot_in(content@),
{
    let cs = chars_of(content);
    let label = chars_of("累计消耗时槽:");
    match first_item_exec(&cs, &label, true) {
        Some((_a, b, e)) => {
            match digits_at(&cs, b) {
                Some(v) => v,
                None => 0,
            }
        },
        None => 0,
    }
}

/// The title line of `timeline.md`.
pub open spec fn timeline_title() -> Seq<char> {
    "# 时间线与时槽追踪 timeline"@
}

/// The heading of the event log.
pub open spec fn log_heading() -> Seq<char> {
    "## 历史事件日志"@
}

/// The slot item for `slot`.
pub open spec fn slot_item(slot: nat) -> Seq<char> {
    "- 累计消耗时槽: "@ + decimal(slot)
}

/// The log line for `slot`.
pub open spec fn log_line(slot: nat) -> Seq<char> {
    "- [时槽 "@ + decimal(slot) + "] 推进了剧情对话一轮。\n"@
}

/// The header put before a `timeline.md` that has no slot item.
pub open spec fn timeline_header() -> Seq<char> {
    "# 时间线与时槽追踪 timeline\n\n## 统计数据\n"@
}

/// `timeline.md` with its slot item set to `slot`: updated in place, or,
/// without one, a fresh header with it put before the old text, whose title
/// is removed.
pub open spec fn counted_timeline(content: Seq<char>, slot: nat) -> Seq<char> {
    match first_item(content, 0, slot_label(), true) {
        Some((a, _b, e)) => content.subrange(0, a) + slot_item(slot) + content.subrange(
            e,
            content.len() as int,
        ),
        None => timeline_header() + slot_item(slot) + "\n\n"@ + replace_all(
            content,
            timeline_title(),
            Seq::empty(),
        ),
    }
}

/// `timeline.md` after one more slot: the slot item set (see
/// [`counted_timeline`]), and the log line added under every log heading (or,
/// without one, a new log section at the end).
pub open spec fn advanced_timeline(content: Seq<char>, slot: nat) -> Seq<char> {
    let c1 = counted_timeline(content, slot);
    if contains_seq(c1, log_heading()) {
        replace_all(c1, log_heading(), log_heading() + seq!['\n'] + log_line(slot))
    } else {
        c1 + seq!['\n'] + log_heading() + seq!['\n'] + log_line(slot)
    }
}

/// The checkpoint reached after `slot` slots.
pub open spec fn checkpoint_for(slot: nat) -> Seq<char> {
    if slot >= SLOTS_PER_CP_3 {
        "CP-3"@
    } else if slot >= SLOTS_PER_CP_2 {
        "CP-2"@
    } else {
        "CP-1"@
    }
}

/// The progress shown after `slot` slots.
pub open spec fn progress_for(slot: nat) -> Seq<char> {
    if slot >= SLOTS_PER_CP_3 {
        "100%"@
    } else if slot >= SLOTS_PER_CP_2 {
        "50%"@
    } else {
        decimal(slot * 10) + "%"@
    }
}

/// `checkpoints.md` after `slot` slots: the first checkpoint item and the
/// first progress item rewritten, and the boxes of the checkpoints passed
/// ticked.
pub open spec fn advanced_checkpoints(content: Seq<char>, slot: nat) -> Seq<char> {
    let c1 = replace_first_item(content, "当前关卡:"@, false, "- 当前关卡: "@ + checkpoint_for(slot));
    let c2 = replace_first_item(c1, "进度百分比:"@, false, "- 进度百分比: "@ + progress_for(slot));
    let c3 = if slot >= SLOTS_PER_CP_2 {
        replace_all(c2, "- [ ] CP-1:"@, "- [x] CP-1:"@)
    } else {
        c2
    };
    if slot >= SLOTS_PER_CP_3 {
        replace_all(c3, "- [ ] CP-2:"@, "- [x] CP-2:"@)
    } else {
        c3
    }
}

/// What one turn of the story writes back.
pub struct GatingUpdate {
    /// The slot count after the turn.
    pub slot: u32,
    /// The new text of `timeline.md`.
    pub timeline: String,
    /// The new text of `checkpoints.md`, when there was one.
    pub checkpoints: Option<String>,
}

/// `timeline.md` after one more slot (see [`advanced_timeline`]).
pub fn advance_timeline(content: &str, slot: u32) -> (r: String)
    ensures
        r@ == advanced_timeline(content@, slot as nat),
{
    proof {
        reveal_strlit("## 历史事件日志");
        reveal_strlit("# 时间线与时槽追踪 timeline");
        reveal_strlit("");
    }
    assert(""@ =~= Seq::<char>::empty());
    let cs = chars_of(content);
    let label = chars_of("累计消耗时槽:");
    let mut item = String::new();
    push_str(&mut item, "- 累计消耗时槽: ");
    push_decimal(&mut item, slot as u64);
    assert(item@ == slot_item(slot as nat));
    let mut c1 = String::new();
    match first_item_exec(&cs, &label, true) {
        Some((a, _b, e)) => {
            push_chars_range(&mut c1, &cs, 0, a);
            push_str(&mut c1, item.as_str());
            push_chars_range(&mut c1, &cs, e, cs.len());
            assert(c1@ =~= content@.subrange(0, a as int) + slot_item(slot as nat) + content@.subrange(
                e as int,
                content@.len() as int,
            ));
        },
        None => {
            push_str(&mut c1, "# 时间线与时槽追踪 timeline\n\n## 统计数据\n");
            push_str(&mut c1, item.as_str());
            push_str(&mut c1, "\n\n");
            let rest = replace(content, "# 时间线与时槽追踪 timeline", "");
            push_str(&mut c1, rest.as_str());
            assert(c1@ =~= "# 时间线与时槽追踪 timeline\n\n## 统计数据\n"@ + slot_item(slot as nat)
                + "\n\n"@ + replace_all(content@, timeline_title(), Seq::empty()));
        },
    }
    assert(c1@ == counted_timeline(content@, slot as nat));
    let mut line = String::new();
    push_str(&mut line, "- [时槽 ");
    push_decimal(&mut line, slot as u64);
    push_str(&mut line, "] 推进了剧情对话一轮。\n");
    assert(line@ == log_line(slot as nat));
    let c1c = chars_of(c1.as_str());
    let heading = chars_of("## 历史事件日志");
    let ghost c1v = c1@;
    if find_from_exec(&c1c, &heading, 0).is_some() {
        assert(contains_seq(c1v, log_heading()));
        let mut rep = String::new();
        push_str(&mut rep, "## 历史事件日志");
        push_char(&mut rep, '\n');
        push_str(&mut rep, line.as_str());
        assert(rep@ =~= log_heading() + seq!['\n'] + log_line(slot as nat));
        replace(c1.as_str(), "## 历史事件日志", rep.as_str())
    } else {
        assert(!contains_seq(c1v, log_heading()));
        push_char(&mut c1, '\n');
        push_str(&mut c1, "## 历史事件日志");
        push_char(&mut c1, '\n');
        push_str(&mut c1, line.as_str());
        assert(c1@ =~= c1v + seq!['\n'] + log_heading() + seq!['\n'] + log_line(slot as nat));
        c1
    }
}

/// `checkpoints.md` after `slot` slots (see [`advanced_checkpoints`]).
pub fn advance_checkpoints(content: &str, slot: u32) -> (r: String)
    ensures
        r@ == advanced_checkpoints(content@, slot as nat),
{
    proof {
        reveal_strlit("- [ ] CP-1:");
        reveal_strlit("- [ ] CP-2:");
    }
    let mut cp_item = String::new();
    push_str(&mut cp_item, "- 当前关卡: ");
    if slot >= SLOTS_PER_CP_3 {
        push_str(&mut cp_item, "CP-3");
    } else if slot >= SLOTS_PER_CP_2 {
        push_str(&mut cp_item, "CP-2");
    } else {
        push_str(&mut cp_item, "CP-1");
    }
    let mut progress = String::new();
    push_str(&mut progress, "- 进度百分比: ");
    if slot >= SLOTS_PER_CP_3 {
        push_str(&mut progress, "100%");
    } else if slot >= SLOTS_PER_CP_2 {
        push_str(&mut progress, "50%");
    } else {
        push_decimal(&mut progress, (slot * 10) as u64);
        push_str(&mut progress, "%");
    }
    let c1 = replace_first_item_exec(content, "当前关卡:", false, cp_item.as_str());
    let c2 = replace_first_item_exec(c1.as_str(), "进度百分比:", false, progress.as_str());
    let c3 = if slot >= SLOTS_PER_CP_2 {
        replace(c2.as_str(), "- [ ] CP-1:", "- [x] CP-1:")
    } else {
        c2
    };
    if slot >= SLOTS_PER_CP_3 {
        replace(c3.as_str(), "- [ ] CP-2:", "- [x] CP-2:")
    } else {
        c3
    }
}

/// One turn of the story: the slot count read from `timeline_md` (empty when
/// the file is missing) goes up by one, the timeline records it, and
/// `checkpoints_md`, when there is one, moves to the checkpoint reached.
pub fn advance_gating(timeline_md: &str, checkpoints_md: Option<&str>) -> (r: GatingUpdate)
    requires
        timeline_slot_in(timeline_md@) < u32::MAX,
    ensures
        r.slot == timeline_slot_in(timeline_md@) + 1,
        r.timeline@ == advanced_timeline(timeline_md@, r.slot as nat),
        match checkpoints_md {
            Some(c) => r.checkpoints matches Some(n) && n@ == advanced_checkpoints(c@, r.slot as nat),
            None => r.checkpoints is None,
        },
{
    let slot = timeline_slot(timeline_md) + 1;
    let timeline = advance_timeline(timeline_md, slot);
    let checkpoints = match checkpoints_md {
        Some(c) => Some(advance_checkpoints(c, slot)),
        None => None,
    };
    GatingUpdate { slot, timeline, checkpoints }
}


/// The `checkpoints.md` a new character starts with.
pub fn checkpoints_template() -> (r: &'static str)
    ensures
        r@ == "# 剧情关卡 checkpoints (CP)\n\n## 当前进度\n- 当前关卡: CP-1\n- 进度百分比: 0%\n\n## 关卡清单\n- [ ] CP-1: 探索期。\n- [ ] CP-2: 对峙期。\n- [ ] CP-3: 决战期。\n"@,
{
    "# 剧情关卡 checkpoints (CP)\n\n## 当前进度\n- 当前关卡: CP-1\n- 进度百分比: 0%\n\n## 关卡清单\n- [ ] CP-1: 探索期。\n- [ ] CP-2: 对峙期。\n- [ ] CP-3: 决战期。\n"
}

/// The `timeline.md` a new character starts with.
pub fn timeline_template() -> (r: &'static str)
    ensures
        r@ == "# 时间线与时槽追踪 timeline\n\n## 统计数据\n- 累计消耗时槽: 0\n\n## 历史事件日志\n"@,
{
    "# 时间线与时槽追踪 timeline\n\n## 统计数据\n- 累计消耗时槽: 0\n\n## 历史事件日志\n"
}

// ---------------------------------------------------------------------------
// The slot read back after a turn
// ---------------------------------------------------------------------------

/// A character at which the reading of a slot item stops: not whitespace,
/// not an ASCII digit, and not a character of the label.
spec fn stops_item(c: char) -> bool {
    &&& !is_white_space(c)
    &&& !is_ascii_digit(c)
    &&& c != '累' && c != '计' && c != '消' && c != '耗' && c != '时' && c != '槽' && c != ':'
}

/// `s1[k]` is `s2[k + d]` for every `k` from `lo` through `j`.
spec fn agree_shift(s1: Seq<char>, s2: Seq<char>, d: int, lo: int, j: int) -> bool {
    &&& 0 <= lo
    &&& 0 <= lo + d
    &&& j < s1.len()
    &&& j + d < s2.len()
    &&& forall|k: int| lo <= k <= j ==> #[trigger] s1[k] == s2[k + d]
}

proof fn lemma_label_chars()
    ensures
        slot_label() == seq!['累', '计', '消', '耗', '时', '槽', ':'],
        slot_label().len() == 7,
        forall|k: int| 0 <= k < 7 ==> !stops_item(#[trigger] slot_label()[k]),
{
    reveal_strlit("累计消耗时槽:");
    assert(slot_label() =~= seq!['累', '计', '消', '耗', '时', '槽', ':']);
}

proof fn lemma_skip_ws_step(s: Seq<char>, i: int)
    requires
        0 <= i < s.len(),
    ensures
        is_white_space(s[i]) ==> skip_ws(s, i) == skip_ws(s, i + 1),
        !is_white_space(s[i]) ==> skip_ws(s, i) == i,
{
    let t = s.subrange(i, s.len() as int);
    assert(t[0] == s[i]);
    if is_white_space(s[i]) {
        assert(t.drop_first() =~= s.subrange(i + 1, s.len() as int));
    }
}

proof fn lemma_skip_ws_bound(s: Seq<char>, i: int)
    requires
        0 <= i <= s.len(),
    ensures
        i <= skip_ws(s, i) <= s.len(),
{
    crate::text::lemma_lead_ws(s.subrange(i, s.len() as int));
}

proof fn lemma_skip_ws_shift(s1: Seq<char>, s2: Seq<char>, d: int, i: int, j: int)
    requires
        i <= j,
        agree_shift(s1, s2, d, i, j),
        !is_white_space(s1[j]),
    ensures
        skip_ws(s2, i + d) == skip_ws(s1, i) + d,
        skip_ws(s1, i) <= j,
    decreases j - i,
{
    lemma_skip_ws_step(s1, i);
    lemma_skip_ws_step(s2, i + d);
    assert(s1[i] == s2[i + d]);
    if is_white_space(s1[i]) {
        lemma_skip_ws_shift(s1, s2, d, i + 1, j);
        assert(i + 1 + d == i + d + 1);
    }
}

proof fn lemma_digit_run_shift(s1: Seq<char>, s2: Seq<char>, d: int, b: int, j: int)
    requires
        b <= j,
        agree_shift(s1, s2, d, b, j),
        !is_ascii_digit(s1[j]),
    ensures
        digit_run_end(s2, b + d) == digit_run_end(s1, b) + d,
        digit_run_end(s1, b) <= j,
    decreases j - b,
{
    assert(s1[b] == s2[b + d]);
    if is_ascii_digit(s1[b]) {
        lemma_digit_run_shift(s1, s2, d, b + 1, j);
        assert(b + 1 + d == b + d + 1);
    }
}

/// Whether a slot item starts at `i < j` depends only on the text from `i`
/// up to a character `j` at which the reading stops, wherever that text
/// stands.
proof fn lemma_item_shift(s1: Seq<char>, s2: Seq<char>, d: int, i: int, j: int)
    requires
        i < j,
        agree_shift(s1, s2, d, i, j),
        stops_item(s1[j]),
    ensures
        (item_at(s1, i, slot_label(), true) is None) == (item_at(s2, i + d, slot_label(), true) is None),
{
    lemma_label_chars();
    let l = slot_label();
    assert(s1[i] == s2[i + d]);
    if s1[i] == '-' {
        lemma_skip_ws_shift(s1, s2, d, i + 1, j);
        let a = skip_ws(s1, i + 1);
        assert(skip_ws(s2, i + d + 1) == a + d);
        if occurs_at(s1, l, a) || occurs_at(s2, l, a + d) {
            if a <= j && j < a + 7 {
                if occurs_at(s1, l, a) {
                    assert(s1[j] == s1.subrange(a, a + 7)[j - a]);
                } else {
                    assert(s2[j + d] == s2.subrange(a + d, a + d + 7)[j - a]);
                    assert(s1[j] == s2[j + d]);
                }
                assert(!stops_item(l[j - a]));
            }
            assert(a + 7 <= j);
            assert(s1.subrange(a, a + 7) =~= s2.subrange(a + d, a + d + 7)) by {
                assert forall|k: int| 0 <= k < 7 implies #[trigger] s1.subrange(a, a + 7)[k] == s2.subrange(
                    a + d,
                    a + d + 7,
                )[k] by {
                    assert(s1[a + k] == s2[a + k + d]);
                }
            }
            lemma_skip_ws_shift(s1, s2, d, a + 7, j);
            assert(skip_ws(s2, a + d + 7) == skip_ws(s1, a + 7) + d);
            lemma_digit_run_shift(s1, s2, d, skip_ws(s1, a + 7), j);
        }
    }
}

proof fn lemma_first_item_at(
    s: Seq<char>,
    i: int,
    label: Seq<char>,
    digits: bool,
    a: int,
    b: int,
    e: int,
)
    requires
        0 <= i <= a < s.len(),
        item_at(s, a, label, digits) == Some((b, e)),
        forall|k: int| i <= k < a ==> #[trigger] item_at(s, k, label, digits) is None,
    ensures
        first_item(s, i, label, digits) == Some((a, b, e)),
    decreases a - i,
{
    if i < a {
        assert(item_at(s, i, label, digits) is None);
        lemma_first_item_at(s, i + 1, label, digits, a, b, e);
    }
}

proof fn lemma_first_item_found(
    s: Seq<char>,
    i: int,
    label: Seq<char>,
    digits: bool,
    a: int,
    b: int,
    e: int,
)
    requires
        0 <= i,
        first_item(s, i, label, digits) == Some((a, b, e)),
    ensures
        i <= a < s.len(),
        item_at(s, a, label, digits) == Some((b, e)),
        forall|k: int| i <= k < a ==> #[trigger] item_at(s, k, label, digits) is None,
    decreases s.len() - i,
{
    if item_at(s, i, label, digits) is None {
        lemma_first_item_found(s, i + 1, label, digits, a, b, e);
    }
}

proof fn lemma_digit_char(d: nat)
    requires
        d < 10,
    ensures
        digit_char(d) as nat == 48 + d,
        is_ascii_digit(digit_char(d)),
{
}

/// `decimal(n)` is a non-empty run of ASCII digits whose value is `n`.
proof fn lemma_decimal_digits(n: nat)
    ensures
        decimal(n).len() >= 1,
        forall|k: int| 0 <= k < decimal(n).len() ==> is_ascii_digit(#[trigger] decimal(n)[k]),
        digits_value(decimal(n)) == n,
    decreases n,
{
    if n < 10 {
        lemma_digit_char(n);
        let x = decimal(n);
        assert(x.drop_last() =~= Seq::<char>::empty());
        assert(x.last() == digit_char(n));
        assert(digits_value(x) == digits_value(x.drop_last()) * 10 + ((x.last() as nat) - 48) as nat);
    } else {
        lemma_decimal_digits(n / 10);
        lemma_digit_char(n % 10);
        let x = decimal(n / 10);
        let y = x.push(digit_char(n % 10));
        assert(y.drop_last() =~= x);
        assert(decimal(n) == y);
        assert(y.last() == digit_char(n % 10));
        assert(digits_value(y) == digits_value(x) * 10 + ((y.last() as nat) - 48) as nat);
        assert(n == (n / 10) * 10 + n % 10);
        assert forall|k: int| 0 <= k < y.len() implies is_ascii_digit(#[trigger] y[k]) by {
            if k < x.len() {
                assert(y[k] == x[k]);
            }
        }
    }
}

proof fn lemma_digit_run_exact(s: Seq<char>, b: int, e: int)
    requires
        0 <= b <= e <= s.len(),
        forall|k: int| b <= k < e ==> is_ascii_digit(#[trigger] s[k]),
        e < s.len() ==> !is_ascii_digit(s[e]),
    ensures
        digit_run_end(s, b) == e,
    decreases e - b,
{
    if b < e {
        lemma_digit_run_exact(s, b + 1, e);
    }
}

proof fn lemma_digit_run_stops(s: Seq<char>, b: int)
    requires
        0 <= b <= s.len(),
    ensures
        b <= digit_run_end(s, b) <= s.len(),
        digit_run_end(s, b) < s.len() ==> !is_ascii_digit(s[digit_run_end(s, b)]),
    decreases s.len() - b,
{
    if b < s.len() && is_ascii_digit(s[b]) {
        lemma_digit_run_stops(s, b + 1);
    }
}

/// The slot item for `slot` stands at `a`, no slot item starts before it,
/// and no ASCII digit follows it.
spec fn slot_item_first(t: Seq<char>, a: int, slot: nat) -> bool {
    let n = slot_item(slot).len() as int;
    &&& 0 <= a
    &&& a + n <= t.len()
    &&& t.subrange(a, a + n) == slot_item(slot)
    &&& (a + n < t.len() ==> !is_ascii_digit(t[a + n]))
    &&& forall|k: int| 0 <= k < a ==> #[trigger] item_at(t, k, slot_label(), true) is None
}

proof fn lemma_slot_item_chars(slot: nat)
    ensures
        slot_item(slot).len() == 10 + decimal(slot).len(),
        slot_item(slot)[0] == '-',
        slot_item(slot)[1] == ' ',
        slot_item(slot)[9] == ' ',
        forall|k: int| 0 <= k < 7 ==> #[trigger] slot_item(slot)[k + 2] == slot_label()[k],
        forall|k: int| 10 <= k < slot_item(slot).len() ==> #[trigger] slot_item(slot)[k] == decimal(slot)[k - 10],
        forall|k: int| 0 <= k < slot_item(slot).len() ==> #[trigger] slot_item(slot)[k] != '#',
{
    reveal_strlit("- 累计消耗时槽: ");
    lemma_label_chars();
    lemma_decimal_digits(slot);
    let pre = "- 累计消耗时槽: "@;
    assert(pre =~= seq!['-', ' ', '累', '计', '消', '耗', '时', '槽', ':', ' ']);
    let si = slot_item(slot);
    assert(pre.subrange(2, 9) =~= slot_label());
    assert forall|k: int| 0 <= k < 7 implies #[trigger] si[k + 2] == slot_label()[k] by {
        assert(si[k + 2] == pre[k + 2]);
        assert(pre[k + 2] == pre.subrange(2, 9)[k]);
    }
    assert forall|k: int| 0 <= k < si.len() implies #[trigger] si[k] != '#' by {
        if k >= 10 {
            assert(si[k] == decimal(slot)[k - 10]);
        }
    }
}

/// What a slot item that stands first reads back as.
proof fn lemma_slot_item_read(t: Seq<char>, a: int, slot: nat)
    requires
        slot_item_first(t, a, slot),
        slot <= u32::MAX,
    ensures
        timeline_slot_in(t) == slot,
{
    lemma_slot_item_chars(slot);
    lemma_label_chars();
    lemma_decimal_digits(slot);
    let d = decimal(slot);
    let si = slot_item(slot);
    let n = si.len() as int;
    let l = slot_label();
    assert forall|k: int| 0 <= k < n implies t[a + k] == #[trigger] si[k] by {
        assert(t[a + k] == t.subrange(a, a + n)[k]);
    }
    assert(t[a] == si[0]);
    assert(t[a + 1] == si[1]);
    assert(t[a + 9] == si[9]);
    lemma_skip_ws_step(t, a + 1);
    assert(t[a + 2] == si[2]);
    assert(si[2] == l[0]) by { assert(si[0int + 2] == l[0]); }
    lemma_skip_ws_step(t, a + 2);
    assert(t.subrange(a + 2, a + 9) =~= l) by {
        assert forall|k: int| 0 <= k < 7 implies t.subrange(a + 2, a + 9)[k] == l[k] by {
            assert(t[a + 2 + k] == si[k + 2]);
        }
    }
    lemma_skip_ws_step(t, a + 9);
    assert(t[a + 10] == si[10]);
    assert(si[10] == d[0]);
    lemma_skip_ws_step(t, a + 10);
    assert forall|k: int| a + 10 <= k < a + n implies is_ascii_digit(#[trigger] t[k]) by {
        assert(t[k] == si[k - a]);
        assert(si[k - a] == d[k - a - 10]);
    }
    lemma_digit_run_exact(t, a + 10, a + n);
    assert(skip_ws(t, a + 1) == a + 2);
    assert(occurs_at(t, l, a + 2));
    assert(skip_ws(t, a + 9) == a + 10);
    assert(digit_run_end(t, a + 10) == a + n);
    assert(item_at(t, a, l, true) == Some((a + 10, a + n)));
    lemma_first_item_at(t, 0, l, true, a, a + 10, a + n);
    assert(t.subrange(a + 10, a + n) =~= d) by {
        assert forall|k: int| 0 <= k < d.len() implies t.subrange(a + 10, a + n)[k] == d[k] by {
            assert(t[a + 10 + k] == si[10 + k]);
        }
    }
}

proof fn lemma_header_chars()
    ensures
        timeline_header().len() == 29,
        forall|k: int| 0 <= k < 29 ==> #[trigger] timeline_header()[k] != '-' && timeline_header()[k] != '历',
{
    reveal_strlit("# 时间线与时槽追踪 timeline\n\n## 统计数据\n");
    assert(timeline_header() =~= seq![
        '#', ' ', '时', '间', '线', '与', '时', '槽', '追', '踪', ' ', 't', 'i', 'm', 'e', 'l', 'i',
        'n', 'e', '\n', '\n', '#', '#', ' ', '统', '计', '数', '据', '\n',
    ]);
}

proof fn lemma_heading_chars()
    ensures
        log_heading().len() == 9,
        log_heading()[0] == '#',
        log_heading()[3] == '历',
        forall|k: int| 0 <= k < 9 ==> #[trigger] log_heading()[k] != '-',
{
    reveal_strlit("## 历史事件日志");
    assert(log_heading() =~= seq!['#', '#', ' ', '历', '史', '事', '件', '日', '志']);
}

/// The slot item of the counted timeline stands first.
proof fn lemma_counted_timeline(content: Seq<char>, slot: nat) -> (a: int)
    ensures
        slot_item_first(counted_timeline(content, slot), a, slot),
{
    lemma_slot_item_chars(slot);
    lemma_heading_chars();
    lemma_label_chars();
    let c1 = counted_timeline(content, slot);
    let si = slot_item(slot);
    let n = si.len() as int;
    let h = log_heading();
    match first_item(content, 0, slot_label(), true) {
        Some((a, b, e)) => {
            lemma_first_item_found(content, 0, slot_label(), true, a, b, e);
            let x = content.subrange(0, a);
            let z = content.subrange(e, content.len() as int);
            assert(c1 == x + si + z);
            assert(content[a] == '-');
            assert(b <= content.len()) by {
                lemma_skip_ws_bound(content, a + 1);
                lemma_skip_ws_bound(content, skip_ws(content, a + 1) + 7);
            }
            lemma_digit_run_stops(content, b);
            assert(c1.subrange(a, a + n) =~= si);
            if a + n < c1.len() {
                assert(c1[a + n] == content[e]);
            }
            assert(c1[a] == '-');
            assert forall|k: int| 0 <= k < a implies #[trigger] item_at(c1, k, slot_label(), true) is None by {
                assert(agree_shift(content, c1, 0, k, a));
                lemma_item_shift(content, c1, 0, k, a);
            }
            a
        },
        None => {
            lemma_header_chars();
            let hd = timeline_header();
            let rest = replace_all(content, timeline_title(), Seq::empty());
            assert(c1 == hd + si + "\n\n"@ + rest);
            reveal_strlit("\n\n");
            assert(c1.subrange(29, 29 + n) =~= si);
            assert(c1[29 + n] == '\n');
            assert forall|k: int| 0 <= k < 29 implies #[trigger] item_at(c1, k, slot_label(), true) is None by {
                assert(c1[k] == hd[k]);
            }
            29
        },
    }
}

/// What a turn writes under each log heading.
spec fn log_insert(slot: nat) -> Seq<char> {
    log_heading() + seq!['\n'] + log_line(slot)
}

proof fn lemma_log_insert_chars(slot: nat)
    ensures
        log_insert(slot).len() > 12,
        log_insert(slot)[0] == '#',
        log_insert(slot)[10] == '-',
        log_insert(slot)[11] == ' ',
        log_insert(slot)[12] == '[',
        forall|k: int| 0 <= k < log_insert(slot).len() && k != 10 ==> #[trigger] log_insert(slot)[k] != '-',
{
    lemma_heading_chars();
    lemma_decimal_digits(slot);
    reveal_strlit("- [时槽 ");
    reveal_strlit("] 推进了剧情对话一轮。\n");
    let pre = "- [时槽 "@;
    let post = "] 推进了剧情对话一轮。\n"@;
    assert(pre =~= seq!['-', ' ', '[', '时', '槽', ' ']);
    assert(post =~= seq!['}', ' ', '推', '进', '了', '剧', '情', '对', '话', '一', '轮', '。', '\n'].update(0, ']'));
    let d = decimal(slot);
    let r = log_insert(slot);
    assert(r =~= log_heading() + seq!['\n'] + pre + d + post);
    assert forall|k: int| 0 <= k < r.len() && k != 10 implies #[trigger] r[k] != '-' by {
        if k < 9 {
            assert(r[k] == log_heading()[k]);
        } else if k == 9 {
        } else if k < 16 {
            assert(r[k] == pre[k - 10]);
        } else if k < 16 + d.len() {
            assert(r[k] == d[k - 16]);
        } else {
            assert(r[k] == post[k - 16 - d.len()]);
        }
    }
    assert(r[10] == pre[0]);
    assert(r[11] == pre[1]);
    assert(r[12] == pre[2]);
}

/// Scanning `t` for log headings from `i`, no later than its first slot item
/// at `a`, the text that replacing gives keeps the slot item first; it agrees
/// with `t[i..]` up to a character at which the reading of an item stops.
proof fn lemma_scan_keeps_slot_first(t: Seq<char>, a: int, slot: nat, i: int) -> (r: (int, int))
    requires
        slot_item_first(t, a, slot),
        0 <= i <= a,
    ensures
        slot_item_first(replace_from(t, log_heading(), log_insert(slot), i), r.0, slot),
        0 <= r.1 <= r.0,
        i + r.1 <= a,
        stops_item(replace_from(t, log_heading(), log_insert(slot), i)[r.1]),
        forall|m: int| 0 <= m <= r.1 ==> #[trigger] replace_from(t, log_heading(), log_insert(slot), i)[m] == t[i + m],
    decreases a - i,
{
    lemma_slot_item_chars(slot);
    lemma_heading_chars();
    lemma_log_insert_chars(slot);
    lemma_label_chars();
    let h = log_heading();
    let ins = log_insert(slot);
    let si = slot_item(slot);
    let n = si.len() as int;
    let s_i = replace_from(t, h, ins, i);
    assert(t[a] == t.subrange(a, a + n)[0]);
    assert(t[a] == '-');
    if i == a {
        assert forall|k: int| a <= k < a + n implies !#[trigger] occurs_at(t, h, k) by {
            if occurs_at(t, h, k) {
                assert(t[k] == t.subrange(k, k + 9)[0]);
                assert(t[k] == t.subrange(a, a + n)[k - a]);
            }
        }
        crate::text::lemma_replace_from_copy(t, h, ins, a, a + n);
        assert(s_i == t.subrange(a, a + n) + replace_from(t, h, ins, a + n));
        assert(s_i.subrange(0, n) =~= si);
        if n < s_i.len() {
            if occurs_at(t, h, a + n) {
                assert(s_i[n] == ins[0]);
            } else {
                assert(s_i[n] == t[a + n]);
            }
        }
        assert(s_i[0] == t[a + 0]);
        (0, 0)
    } else if occurs_at(t, h, i) {
        if i + 9 > a {
            assert(t[a] == t.subrange(i, i + 9)[a - i]);
        }
        let rest = replace_from(t, h, ins, i + 9);
        assert(s_i == ins + rest);
        let (a1, b1) = lemma_scan_keeps_slot_first(t, a, slot, i + 9);
        let w = ins.len() as int;
        let ai = w + a1;
        assert(s_i.subrange(ai, ai + n) =~= rest.subrange(a1, a1 + n));
        if ai + n < s_i.len() {
            assert(s_i[ai + n] == rest[a1 + n]);
        }
        assert(rest[a1] == rest.subrange(a1, a1 + n)[0]);
        assert forall|k: int| 0 <= k < ai implies #[trigger] item_at(s_i, k, slot_label(), true) is None by {
            if k < w {
                assert(s_i[k] == ins[k]);
                if k == 10 {
                    assert(s_i[11] == ins[11]);
                    assert(s_i[12] == ins[12]);
                    lemma_skip_ws_step(s_i, 11);
                    lemma_skip_ws_step(s_i, 12);
                    assert(skip_ws(s_i, 11) == 12);
                    if occurs_at(s_i, slot_label(), 12) {
                        assert(s_i[12] == s_i.subrange(12, 19)[0]);
                    }
                }
            } else {
                assert(agree_shift(rest, s_i, w, k - w, a1));
                lemma_item_shift(rest, s_i, w, k - w, a1);
            }
        }
        assert(s_i[0] == ins[0]);
        assert(t[i] == t.subrange(i, i + 9)[0]);
        assert(s_i[0] == t[i + 0]);
        (ai, 0)
    } else {
        let rest = replace_from(t, h, ins, i + 1);
        assert(s_i == seq![t[i]] + rest);
        let (a1, b1) = lemma_scan_keeps_slot_first(t, a, slot, i + 1);
        let ai = a1 + 1;
        let bi = b1 + 1;
        assert(s_i.subrange(ai, ai + n) =~= rest.subrange(a1, a1 + n));
        if ai + n < s_i.len() {
            assert(s_i[ai + n] == rest[a1 + n]);
        }
        assert(rest[a1] == rest.subrange(a1, a1 + n)[0]);
        assert forall|m: int| 0 <= m <= bi implies #[trigger] s_i[m] == t[i + m] by {
            if m > 0 {
                assert(s_i[m] == rest[m - 1]);
                assert(rest[m - 1] == t[i + 1 + (m - 1)]);
            }
        }
        assert(s_i[bi] == rest[b1]);
        assert forall|k: int| 0 <= k < ai implies #[trigger] item_at(s_i, k, slot_label(), true) is None by {
            if k == 0 {
                assert(agree_shift(t, s_i, -i, i, i + bi)) by {
                    assert forall|q: int| i <= q <= i + bi implies #[trigger] t[q] == s_i[q + -i] by {
                        assert(s_i[q - i] == t[i + (q - i)]);
                    }
                }
                assert(t[i + bi] == s_i[bi]);
                assert(item_at(t, i, slot_label(), true) is None);
                lemma_item_shift(t, s_i, -i, i, i + bi);
            } else {
                assert(agree_shift(rest, s_i, 1, k - 1, a1));
                lemma_item_shift(rest, s_i, 1, k - 1, a1);
            }
        }
        (ai, bi)
    }
}

/// The slot that `timeline.md` records after a turn is the slot the turn
/// wrote.
pub proof fn lemma_advanced_slot_reads_back(content: Seq<char>, slot: nat)
    requires
        slot <= u32::MAX,
    ensures
        timeline_slot_in(advanced_timeline(content, slot)) == slot,
{
    let a = lemma_counted_timeline(content, slot);
    lemma_slot_item_chars(slot);
    lemma_heading_chars();
    let c1 = counted_timeline(content, slot);
    let si = slot_item(slot);
    let n = si.len() as int;
    let h = log_heading();
    let t = advanced_timeline(content, slot);
    assert(c1[a] == c1.subrange(a, a + n)[0]);
    if contains_seq(c1, h) {
        assert(t == replace_from(c1, h, log_insert(slot), 0));
        let (a0, _b0) = lemma_scan_keeps_slot_first(c1, a, slot, 0);
        lemma_slot_item_read(t, a0, slot);
    } else {
        assert(t == c1 + seq!['\n'] + h + seq!['\n'] + log_line(slot));
        assert(t.subrange(a, a + n) =~= si);
        if a + n < t.len() {
            if a + n < c1.len() {
                assert(t[a + n] == c1[a + n]);
            } else {
                assert(t[a + n] == '\n');
            }
        }
        assert forall|k: int| 0 <= k < a implies #[trigger] item_at(t, k, slot_label(), true) is None by {
            assert(agree_shift(c1, t, 0, k, a));
            lemma_item_shift(c1, t, 0, k, a);
        }
        lemma_slot_item_read(t, a, slot);
    }
}

/// `timeline.md` after `n` turns of [`advance_gating`] from `content`: each
/// turn reads the slot count and records one more.
pub open spec fn timeline_after_turns(content: Seq<char>, n: nat) -> Seq<char>
    decreases n,
{
    if n == 0 {
        content
    } else {
        let prev = timeline_after_turns(content, (n - 1) as nat);
        advanced_timeline(prev, (timeline_slot_in(prev) + 1) as nat)
    }
}

/// Every turn costs exactly one slot: after `n` turns the timeline records
/// `n` slots more than it started with, while the count fits in a `u32`.
pub proof fn lemma_turns_count_slots(content: Seq<char>, n: nat)
    requires
        timeline_slot_in(content) + n <= u32::MAX,
    ensures
        timeline_slot_in(timeline_after_turns(content, n)) == timeline_slot_in(content) + n,
    decreases n,
{
    if n > 0 {
        lemma_turns_count_slots(content, (n - 1) as nat);
        let prev = timeline_after_turns(content, (n - 1) as nat);
        lemma_advanced_slot_reads_back(prev, (timeline_slot_in(prev) + 1) as nat);
    }
}

// ---------------------------------------------------------------------------
// The checkpoint read back after a turn
// ---------------------------------------------------------------------------

/// The label of the current checkpoint.
spec fn cp_label() -> Seq<char> {
    "当前关卡:"@
}

/// The label of the progress.
spec fn progress_label() -> Seq<char> {
    "进度百分比:"@
}

/// The checklist box of `CP-1`, unticked.
spec fn box_cp1() -> Seq<char> {
    "- [ ] CP-1:"@
}

/// The checklist box of `CP-2`, unticked.
spec fn box_cp2() -> Seq<char> {
    "- [ ] CP-2:"@
}

/// The checkpoint item written after `slot` slots.
spec fn cp_item(slot: nat) -> Seq<char> {
    "- 当前关卡: "@ + checkpoint_for(slot)
}

/// `checkpoints.md` is laid out like the template as far as a turn cares:
/// its first `- 当前关卡:` item is the first thing on a line, and the value
/// of its first progress item, if that comes before, is not that item's dash.
pub open spec fn checkpoint_item_leads(content: Seq<char>) -> bool {
    match first_item(content, 0, "当前关卡:"@, false) {
        Some((a, _b, _e)) => {
            &&& exists|p: int| 0 <= p <= a && line_start(content, p) && skip_ws(content, p) == a
            &&& match first_item(content, 0, "进度百分比:"@, false) {
                Some((a2, b2, _e2)) => a2 > a || b2 != a,
                None => true,
            }
        },
        None => false,
    }
}

/// The checkpoint item for `slot` stands at `a`, first on the line that
/// starts at `p`, with no checkpoint item before it and whitespace (or the
/// end) after it.
spec fn cp_item_first(t: Seq<char>, p: int, a: int, slot: nat) -> bool {
    &&& 0 <= p <= a
    &&& a + 12 <= t.len()
    &&& line_start(t, p)
    &&& skip_ws(t, p) == a
    &&& t.subrange(a, a + 12) == cp_item(slot)
    &&& (a + 12 < t.len() ==> is_white_space(t[a + 12]))
    &&& forall|k: int| 0 <= k < a ==> #[trigger] item_at(t, k, cp_label(), false) is None
}

proof fn lemma_cp_literals(slot: nat)
    ensures
        cp_label() == seq!['当', '前', '关', '卡', ':'],
        progress_label() == seq!['进', '度', '百', '分', '比', ':'],
        cp_item(slot).len() == 12,
        cp_item(slot)[0] == '-',
        cp_item(slot)[1] == ' ',
        cp_item(slot)[7] == ' ',
        cp_item(slot).subrange(2, 7) == cp_label(),
        cp_item(slot).subrange(8, 12) == checkpoint_for(slot),
        cp_item(slot)[8] == 'C',
        cp_item(slot)[10] == '-',
        '1' <= cp_item(slot)[11] <= '3',
        forall|k: int| 0 <= k < 12 && k != 0 && k != 10 ==> #[trigger] cp_item(slot)[k] != '-',
        forall|k: int| 0 <= k < 12 ==> #[trigger] cp_item(slot)[k] != '[',
        forall|k: int| 8 <= k < 12 ==> !is_white_space(#[trigger] cp_item(slot)[k]),
{
    reveal_strlit("当前关卡:");
    reveal_strlit("进度百分比:");
    reveal_strlit("- 当前关卡: ");
    reveal_strlit("CP-1");
    reveal_strlit("CP-2");
    reveal_strlit("CP-3");
    let pre = "- 当前关卡: "@;
    assert(pre =~= seq!['-', ' ', '当', '前', '关', '卡', ':', ' ']);
    let cp = checkpoint_for(slot);
    let n: char = if slot >= SLOTS_PER_CP_3 {
        '3'
    } else if slot >= SLOTS_PER_CP_2 {
        '2'
    } else {
        '1'
    };
    assert(cp =~= seq!['C', 'P', '-', n]);
    assert(cp_item(slot) =~= seq!['-', ' ', '当', '前', '关', '卡', ':', ' ', 'C', 'P', '-', n]);
    assert(cp_item(slot).subrange(2, 7) =~= cp_label());
    assert(cp_item(slot).subrange(8, 12) =~= cp);
}

proof fn lemma_word_end_exact(s: Seq<char>, i: int, e: int)
    requires
        0 <= i <= e <= s.len(),
        forall|k: int| i <= k < e ==> !is_white_space(#[trigger] s[k]),
        e < s.len() ==> is_white_space(s[e]),
    ensures
        word_end(s, i) == e,
    decreases e - i,
{
    if i < e {
        lemma_word_end_exact(s, i + 1, e);
    }
}

proof fn lemma_word_end_stops(s: Seq<char>, i: int)
    requires
        0 <= i <= s.len(),
    ensures
        i <= word_end(s, i) <= s.len(),
        word_end(s, i) < s.len() ==> is_white_space(s[word_end(s, i)]),
        forall|m: int| i <= m < word_end(s, i) ==> !is_white_space(#[trigger] s[m]),
    decreases s.len() - i,
{
    if i < s.len() && !is_white_space(s[i]) {
        lemma_word_end_stops(s, i + 1);
    }
}

/// A place where no word item of `label` starts stays so wherever the text
/// from it up to a dash at `j` is moved.
proof fn lemma_word_item_none(s1: Seq<char>, s2: Seq<char>, label: Seq<char>, d: int, k: int, j: int)
    requires
        0 <= k < j,
        agree_shift(s1, s2, d, k, j),
        s1[j] == '-',
        forall|m: int| 0 <= m < label.len() ==> #[trigger] label[m] != '-',
        item_at(s1, k, label, false) is None,
    ensures
        item_at(s2, k + d, label, false) is None,
{
    assert(s1[k] == s2[k + d]);
    if s1[k] == '-' {
        lemma_skip_ws_shift(s1, s2, d, k + 1, j);
        let la = skip_ws(s1, k + 1);
        assert(skip_ws(s2, k + d + 1) == la + d);
        if occurs_at(s2, label, la + d) {
            if la + label.len() > j {
                assert(s2[j + d] == s2.subrange(la + d, la + d + label.len())[j - la]);
                assert(s1[j] == s2[j + d]);
            }
            assert(s1.subrange(la, la + label.len()) =~= s2.subrange(la + d, la + d + label.len())) by {
                assert forall|m: int| 0 <= m < label.len() implies #[trigger] s1.subrange(
                    la,
                    la + label.len(),
                )[m] == s2.subrange(la + d, la + d + label.len())[m] by {
                    assert(s1[la + m] == s2[la + m + d]);
                }
            }
            let lb = skip_ws(s1, la + label.len());
            crate::text::lemma_lead_ws(s1.subrange(la + label.len(), s1.len() as int));
            lemma_skip_ws_shift(s1, s2, d, la + label.len(), j);
            assert(lb < s1.len());
            assert(!is_white_space(s1[lb])) by {
                assert(s1[lb] == s1.subrange(la + label.len(), s1.len() as int)[lb - (la + label.len())]);
            }
            lemma_word_end_stops(s1, lb);
            assert(word_end(s1, lb) > lb);
        }
    }
}

/// An item whose reading ends on whitespace at `e` reads the same wherever
/// the text through `e` is the same.
proof fn lemma_word_item_same(s1: Seq<char>, s2: Seq<char>, label: Seq<char>, k: int, b: int, e: int)
    requires
        0 <= k,
        item_at(s1, k, label, false) == Some((b, e)),
        agree_shift(s1, s2, 0, k, e),
        label.len() > 0,
        forall|m: int| 0 <= m < label.len() ==> !is_white_space(#[trigger] label[m]),
    ensures
        item_at(s2, k, label, false) == Some((b, e)),
{
    assert(s1[k] == s2[k + 0]);
    let la = skip_ws(s1, k + 1);
    lemma_skip_ws_bound(s1, k + 1);
    assert(s1[la] == s1.subrange(la, la + label.len())[0]);
    assert(!is_white_space(label[0]));
    lemma_word_end_stops(s1, b);
    lemma_skip_ws_first(s1, la + label.len());
    assert(la < b);
    lemma_skip_ws_shift(s1, s2, 0, k + 1, la);
    assert(s1.subrange(la, la + label.len()) =~= s2.subrange(la, la + label.len())) by {
        assert forall|m: int| 0 <= m < label.len() implies #[trigger] s1.subrange(la, la + label.len())[m]
            == s2.subrange(la, la + label.len())[m] by {
            assert(s1[la + m] == s2[la + m + 0]);
        }
    }
    assert(!is_white_space(s1[b]));
    lemma_skip_ws_shift(s1, s2, 0, la + label.len(), b);
    assert forall|m: int| b <= m < e implies !is_white_space(#[trigger] s2[m]) by {
        assert(s1[m] == s2[m + 0]);
        assert(!is_white_space(s1[m]));
    }
    assert(s1[e] == s2[e + 0]);
    lemma_word_end_exact(s2, b, e);
}

proof fn lemma_first_item_none(s: Seq<char>, i: int, label: Seq<char>, digits: bool, k: int)
    requires
        0 <= i <= k,
        first_item(s, i, label, digits) is None,
    ensures
        item_at(s, k, label, digits) is None,
    decreases s.len() - i,
{
    if i < s.len() {
        if i < k {
            lemma_first_item_none(s, i + 1, label, digits, k);
        }
    } else {
        assert(!(0 <= k < s.len() && s[k] == '-'));
    }
}

/// Where the checkpoint item stands first, reading gives its checkpoint.
proof fn lemma_cp_item_read(t: Seq<char>, p: int, a: int, slot: nat)
    requires
        cp_item_first(t, p, a, slot),
    ensures
        checkpoint_in(t) == checkpoint_for(slot),
{
    lemma_cp_literals(slot);
    let ci = cp_item(slot);
    assert forall|k: int| 0 <= k < 12 implies t[a + k] == #[trigger] ci[k] by {
        assert(t[a + k] == t.subrange(a, a + 12)[k]);
    }
    assert(t[a] == ci[0]);
    assert(t[a + 1] == ci[1]);
    assert(t[a + 7] == ci[7]);
    assert(t[a + 2] == ci[2]);
    assert(ci[2] == ci.subrange(2, 7)[0]);
    lemma_skip_ws_step(t, a + 1);
    lemma_skip_ws_step(t, a + 2);
    assert(skip_ws(t, a + 1) == a + 2);
    assert(t.subrange(a + 2, a + 7) =~= cp_label()) by {
        assert forall|m: int| 0 <= m < 5 implies #[trigger] t.subrange(a + 2, a + 7)[m] == cp_label()[m] by {
            assert(t[a + 2 + m] == ci[2 + m]);
            assert(ci[2 + m] == ci.subrange(2, 7)[m]);
        }
    }
    assert(occurs_at(t, cp_label(), a + 2));
    lemma_skip_ws_step(t, a + 7);
    assert(t[a + 8] == ci[8]);
    lemma_skip_ws_step(t, a + 8);
    assert(skip_ws(t, a + 7) == a + 8);
    assert forall|k: int| a + 8 <= k < a + 12 implies !is_white_space(#[trigger] t[k]) by {
        assert(t[k] == ci[k - a]);
    }
    lemma_word_end_exact(t, a + 8, a + 12);
    assert(item_at(t, a, cp_label(), false) == Some((a + 8, a + 12)));
    lemma_cp_line_search(t, p, a, 0);
    assert(t.subrange(a + 8, a + 12) =~= checkpoint_for(slot)) by {
        assert forall|m: int| 0 <= m < 4 implies #[trigger] t.subrange(a + 8, a + 12)[m] == checkpoint_for(slot)[m] by {
            assert(t[a + 8 + m] == ci[8 + m]);
            assert(ci[8 + m] == ci.subrange(8, 12)[m]);
        }
    }
}

/// Searching the lines from `q <= p` finds the item at `a`.
proof fn lemma_cp_line_search(t: Seq<char>, p: int, a: int, q: int)
    requires
        0 <= q <= p <= a < t.len(),
        line_start(t, p),
        skip_ws(t, p) == a,
        item_at(t, a, cp_label(), false) is Some,
        forall|k: int| 0 <= k < a ==> #[trigger] item_at(t, k, cp_label(), false) is None,
    ensures
        first_line_item(t, q, cp_label()) == item_at(t, a, cp_label(), false),
    decreases p - q,
{
    if q < p {
        lemma_skip_ws_bound(t, q);
        crate::text::lemma_lead_ws(t.subrange(q, t.len() as int));
        if skip_ws(t, q) > a {
            assert(t[a] == t.subrange(q, t.len() as int)[a - q]);
            assert(t[a] == '-');
        }
        lemma_cp_line_search(t, p, a, q + 1);
    }
}

/// `replace_first_item` written out at its item.
proof fn lemma_replace_first_at(s: Seq<char>, label: Seq<char>, rep: Seq<char>, a: int, b: int, e: int)
    requires
        first_item(s, 0, label, false) == Some((a, b, e)),
    ensures
        replace_first_item(s, label, false, rep) == s.subrange(0, a) + rep + s.subrange(e, s.len() as int),
{
}

/// The progress item written after `slot` slots.
spec fn progress_item(slot: nat) -> Seq<char> {
    "- 进度百分比: "@ + progress_for(slot)
}

proof fn lemma_progress_literals(slot: nat)
    ensures
        progress_item(slot).len() > 9,
        progress_item(slot)[0] == '-',
        progress_item(slot)[1] == ' ',
        progress_item(slot)[2] == '进',
        forall|q: int| 1 <= q < progress_item(slot).len() ==> #[trigger] progress_item(slot)[q] != '-',
        forall|q: int| 0 <= q < 6 ==> !is_white_space(#[trigger] progress_label()[q]),
        progress_label().len() == 6,
        forall|q: int| 0 <= q < 6 ==> #[trigger] progress_label()[q] != '-',
{
    reveal_strlit("- 进度百分比: ");
    reveal_strlit("100%");
    reveal_strlit("50%");
    reveal_strlit("%");
    reveal_strlit("进度百分比:");
    let pre = "- 进度百分比: "@;
    assert(pre =~= seq!['-', ' ', '进', '度', '百', '分', '比', ':', ' ']);
    assert(progress_label() =~= seq!['进', '度', '百', '分', '比', ':']);
    let pr = progress_for(slot);
    lemma_decimal_digits(slot * 10);
    assert forall|q: int| 0 <= q < pr.len() implies #[trigger] pr[q] != '-' by {
        if slot < SLOTS_PER_CP_2 {
            let dd = decimal(slot * 10);
            assert(pr == dd + "%"@);
            if q < dd.len() {
                assert(pr[q] == dd[q]);
            } else {
                assert(pr[q] == "%"@[q - dd.len()]);
            }
        }
    }
    let pg = progress_item(slot);
    assert forall|q: int| 1 <= q < pg.len() implies #[trigger] pg[q] != '-' by {
        if q < 9 {
            assert(pg[q] == pre[q]);
        } else {
            assert(pg[q] == pr[q - 9]);
        }
    }
    assert(pg[0] == pre[0]);
    assert(pg[1] == pre[1]);
    assert(pg[2] == pre[2]);
}

/// A progress item that starts before the checkpoint item, its value not on
/// that item's dash, ends on an earlier line.
proof fn lemma_progress_before(c: Seq<char>, p: int, a: int, a2: int, b2: int, e2: int)
    requires
        0 <= p <= a < c.len(),
        line_start(c, p),
        skip_ws(c, p) == a,
        c[a] == '-',
        0 <= a2 < a,
        b2 != a,
        item_at(c, a2, progress_label(), false) == Some((b2, e2)),
    ensures
        a2 < e2 < p,
{
    lemma_progress_literals(0);
    let l = progress_label();
    lemma_skip_ws_first(c, p);
    if a2 >= p {
        assert(is_white_space(c[a2]));
    }
    assert(p > 0);
    assert(c[p - 1] == '\n');
    let la = skip_ws(c, a2 + 1);
    lemma_skip_ws_first(c, a2 + 1);
    assert(c[la] == c.subrange(la, la + 6)[0]);
    if la >= p {
        if la < a {
            assert(is_white_space(c[la]));
        } else if la > a {
            assert(is_white_space(c[a]));
        }
    }
    if la + 6 > p - 1 {
        assert(c[p - 1] == c.subrange(la, la + 6)[p - 1 - la]);
    }
    lemma_skip_ws_first(c, la + 6);
    if b2 >= p {
        if b2 < a {
            assert(is_white_space(c[b2]));
        } else if b2 > a {
            assert(is_white_space(c[a]));
        }
    }
    lemma_word_end_stops(c, b2);
    if e2 > p - 1 {
        assert(!is_white_space(c[p - 1]));
    }
}

/// No progress item starts in the checkpoint item or just after it.
proof fn lemma_no_progress_in_cp_item(c1: Seq<char>, a: int, slot: nat, k: int)
    requires
        0 <= a,
        a + 12 <= c1.len(),
        c1.subrange(a, a + 12) == cp_item(slot),
        a + 12 < c1.len() ==> is_white_space(c1[a + 12]),
        a <= k <= a + 12,
    ensures
        item_at(c1, k, progress_label(), false) is None,
{
    lemma_cp_literals(slot);
    lemma_progress_literals(slot);
    let ci = cp_item(slot);
    assert forall|q: int| 0 <= q < 12 implies c1[a + q] == #[trigger] ci[q] by {
        assert(c1[a + q] == c1.subrange(a, a + 12)[q]);
    }
    if k < a + 12 {
        assert(c1[k] == ci[k - a]);
        if k == a {
            assert(c1[a + 1] == ci[1]);
            assert(c1[a + 2] == ci[2]);
            assert(ci[2] == ci.subrange(2, 7)[0]);
            lemma_skip_ws_step(c1, a + 1);
            lemma_skip_ws_step(c1, a + 2);
            if occurs_at(c1, progress_label(), a + 2) {
                assert(c1[a + 2] == c1.subrange(a + 2, a + 8)[0]);
            }
        } else if k == a + 10 {
            assert(c1[a + 11] == ci[11]);
            lemma_skip_ws_step(c1, a + 11);
            if occurs_at(c1, progress_label(), a + 11) {
                assert(c1[a + 11] == c1.subrange(a + 11, a + 17)[0]);
            }
        }
    }
}

/// The checkpoint item of the first rewrite stands first, and the first
/// progress item after it comes past it or ends before its line.
proof fn lemma_cp_step_one(c: Seq<char>, slot: nat) -> (r: (int, int))
    requires
        checkpoint_item_leads(c),
    ensures
        cp_item_first(replace_first_item(c, cp_label(), false, cp_item(slot)), r.0, r.1, slot),
        match first_item(replace_first_item(c, cp_label(), false, cp_item(slot)), 0, progress_label(), false) {
            Some((a2, _b2, e2)) => a2 >= r.1 + 12 || e2 < r.0,
            None => true,
        },
{
    lemma_cp_literals(slot);
    lemma_progress_literals(slot);
    reveal_strlit("当前关卡:");
    reveal_strlit("进度百分比:");
    let (a, b, e) = first_item(c, 0, cp_label(), false)->0;
    lemma_first_item_found(c, 0, cp_label(), false, a, b, e);
    let p = choose|p: int| 0 <= p <= a && line_start(c, p) && skip_ws(c, p) == a;
    let ci = cp_item(slot);
    let c1 = replace_first_item(c, cp_label(), false, ci);
    lemma_replace_first_at(c, cp_label(), ci, a, b, e);
    assert(c1 == c.subrange(0, a) + ci + c.subrange(e, c.len() as int));
    assert(c[a] == '-');
    lemma_label_bounds(c, a, b);
    lemma_word_end_stops(c, b);
    assert(c1.subrange(a, a + 12) =~= ci);
    if a + 12 < c1.len() {
        assert(c1[a + 12] == c[e]);
    }
    assert forall|k: int| 0 <= k <= a implies #[trigger] c1[k] == c[k] by {
        if k < a {
            assert(c1[k] == c.subrange(0, a)[k]);
        } else {
            assert(c1[a] == ci[0]);
        }
    }
    assert(agree_shift(c, c1, 0, p, a));
    lemma_skip_ws_shift(c, c1, 0, p, a);
    if p > 0 {
        assert(c1[p - 1] == c[p - 1]);
    }
    assert forall|k: int| 0 <= k < a implies #[trigger] item_at(c1, k, cp_label(), false) is None by {
        assert(agree_shift(c, c1, 0, k, a));
        lemma_word_item_none(c, c1, cp_label(), 0, k, a);
    }
    // where the first progress item of the rewrite lies
    let pl = progress_label();
    let early = match first_item(c, 0, pl, false) {
        Some((a2, _b2, _e2)) => a2 < a,
        None => false,
    };
    if early {
        let (a2, b2, e2) = first_item(c, 0, pl, false)->0;
        lemma_first_item_found(c, 0, pl, false, a2, b2, e2);
        lemma_progress_before(c, p, a, a2, b2, e2);
        assert(agree_shift(c, c1, 0, a2, e2));
        lemma_word_item_same(c, c1, pl, a2, b2, e2);
        assert forall|k: int| 0 <= k < a2 implies #[trigger] item_at(c1, k, pl, false) is None by {
            assert(agree_shift(c, c1, 0, k, a));
            lemma_word_item_none(c, c1, pl, 0, k, a);
        }
        lemma_first_item_at(c1, 0, pl, false, a2, b2, e2);
    } else {
        assert forall|k: int| 0 <= k < a implies #[trigger] item_at(c, k, pl, false) is None by {
            match first_item(c, 0, pl, false) {
                Some((a2, b2, e2)) => {
                    lemma_first_item_found(c, 0, pl, false, a2, b2, e2);
                },
                None => {
                    lemma_first_item_none(c, 0, pl, false, k);
                },
            }
        }
        match first_item(c1, 0, pl, false) {
            Some((a3, b3, e3)) => {
                lemma_first_item_found(c1, 0, pl, false, a3, b3, e3);
                if a3 < a {
                    assert(agree_shift(c, c1, 0, a3, a));
                    lemma_word_item_none(c, c1, pl, 0, a3, a);
                } else if a3 <= a + 12 {
                    lemma_no_progress_in_cp_item(c1, a, slot, a3);
                }
            },
            None => {},
        }
    }
    (p, a)
}

/// Where the item for `label` at `b` is read, its label and value lie within
/// the text.
proof fn lemma_label_bounds(c: Seq<char>, a: int, b: int)
    requires
        item_at(c, a, cp_label(), false) matches Some((bb, _)) && bb == b,
    ensures
        b <= c.len(),
{
    lemma_cp_literals(0);
    lemma_skip_ws_bound(c, a + 1);
    lemma_skip_ws_bound(c, skip_ws(c, a + 1) + 5);
}

/// The progress rewrite leaves the checkpoint item first, moved by what the
/// rewrite adds or removes before it.
proof fn lemma_cp_step_two(c1: Seq<char>, p: int, a: int, slot: nat) -> (r: (int, int))
    requires
        cp_item_first(c1, p, a, slot),
        match first_item(c1, 0, progress_label(), false) {
            Some((a2, _b2, e2)) => a2 >= a + 12 || e2 < p,
            None => true,
        },
    ensures
        cp_item_first(replace_first_item(c1, progress_label(), false, progress_item(slot)), r.0, r.1, slot),
{
    lemma_cp_literals(slot);
    lemma_progress_literals(slot);
    let pg = progress_item(slot);
    let c2 = replace_first_item(c1, progress_label(), false, pg);
    let ci = cp_item(slot);
    assert forall|k: int| 0 <= k < 12 implies c1[a + k] == #[trigger] ci[k] by {
        assert(c1[a + k] == c1.subrange(a, a + 12)[k]);
    }
    assert(c1[a] == ci[0]);
    match first_item(c1, 0, progress_label(), false) {
        None => (p, a),
        Some((a2, b2, e2)) => {
            lemma_first_item_found(c1, 0, progress_label(), false, a2, b2, e2);
            lemma_replace_first_at(c1, progress_label(), pg, a2, b2, e2);
            assert(c2 == c1.subrange(0, a2) + pg + c1.subrange(e2, c1.len() as int));
            if a2 >= a + 12 {
                if a2 == a + 12 {
                    assert(is_white_space(c1[a + 12]));
                }
                assert forall|k: int| 0 <= k < a + 13 && k < a2 implies #[trigger] c2[k] == c1[k] by {
                    assert(c2[k] == c1.subrange(0, a2)[k]);
                }
                assert(c2.subrange(a, a + 12) =~= c1.subrange(a, a + 12));
                if a + 12 < c2.len() {
                    assert(c2[a + 12] == c1[a + 12]);
                }
                assert(agree_shift(c1, c2, 0, p, a));
                lemma_skip_ws_shift(c1, c2, 0, p, a);
                if p > 0 {
                    assert(c2[p - 1] == c1[p - 1]);
                }
                assert forall|k: int| 0 <= k < a implies #[trigger] item_at(c2, k, cp_label(), false) is None by {
                    assert(agree_shift(c1, c2, 0, k, a));
                    lemma_word_item_none(c1, c2, cp_label(), 0, k, a);
                }
                (p, a)
            } else {
                lemma_cp_step_two_moved(c1, p, a, slot, a2, b2, e2)
            }
        },
    }
}

/// The progress item lies on earlier lines than the checkpoint item:
/// everything from its end on moves by what the rewrite adds or removes.
proof fn lemma_cp_step_two_moved(c1: Seq<char>, p: int, a: int, slot: nat, a2: int, b2: int, e2: int) -> (r: (int, int))
    requires
        cp_item_first(c1, p, a, slot),
        item_at(c1, a2, progress_label(), false) == Some((b2, e2)),
        0 <= a2,
        e2 < p,
    ensures
        cp_item_first(c1.subrange(0, a2) + progress_item(slot) + c1.subrange(e2, c1.len() as int), r.0, r.1, slot),
{
    lemma_cp_literals(slot);
    lemma_progress_literals(slot);
    let pg = progress_item(slot);
    let c2 = c1.subrange(0, a2) + pg + c1.subrange(e2, c1.len() as int);
    let ci = cp_item(slot);
    assert forall|k: int| 0 <= k < 12 implies c1[a + k] == #[trigger] ci[k] by {
        assert(c1[a + k] == c1.subrange(a, a + 12)[k]);
    }
    assert(c1[a] == ci[0]);
    let w = pg.len() as int;
    let d = w - (e2 - a2);
    lemma_skip_ws_bound(c1, a2 + 1);
    lemma_word_end_stops(c1, b2);
    assert(a2 < e2);
    assert(p > 0);
    assert forall|m: int| e2 <= m < c1.len() implies #[trigger] c2[m + d] == c1[m] by {
        assert(c2[m + d] == c1.subrange(e2, c1.len() as int)[m - e2]);
    }
    assert forall|m: int| 0 <= m < a2 implies #[trigger] c2[m] == c1[m] by {
        assert(c2[m] == c1.subrange(0, a2)[m]);
    }
    assert forall|q: int| 0 <= q < w implies #[trigger] c2[a2 + q] == pg[q] by {
        assert(c2[a2 + q] == pg[q]);
    }
    assert(c2[p - 1 + d] == c1[p - 1]);
    assert(agree_shift(c1, c2, d, p, a));
    lemma_skip_ws_shift(c1, c2, d, p, a);
    assert(c2.subrange(a + d, a + d + 12) =~= c1.subrange(a, a + 12)) by {
        assert forall|q: int| 0 <= q < 12 implies #[trigger] c2.subrange(a + d, a + d + 12)[q]
            == c1.subrange(a, a + 12)[q] by {
            assert(c2[a + q + d] == c1[a + q]);
        }
    }
    if a + d + 12 < c2.len() {
        assert(c2[a + 12 + d] == c1[a + 12]);
    }
    assert(c2[a2] == pg[0]);
    assert(c1[a2] == '-');
    assert forall|k: int| 0 <= k < a + d implies #[trigger] item_at(c2, k, cp_label(), false) is None by {
        if k < a2 {
            assert(agree_shift(c1, c2, 0, k, a2));
            lemma_word_item_none(c1, c2, cp_label(), 0, k, a2);
        } else if k < a2 + w {
            if k == a2 {
                assert(c2[a2 + 1] == pg[1]);
                assert(c2[a2 + 2] == pg[2]);
                lemma_skip_ws_step(c2, a2 + 1);
                lemma_skip_ws_step(c2, a2 + 2);
                if occurs_at(c2, cp_label(), a2 + 2) {
                    assert(c2[a2 + 2] == c2.subrange(a2 + 2, a2 + 7)[0]);
                }
            } else {
                assert(c2[k] == pg[k - a2]);
            }
        } else {
            assert(agree_shift(c1, c2, d, k - d, a));
            lemma_word_item_none(c1, c2, cp_label(), d, k - d, a);
        }
    }
    (p + d, a + d)
}

/// A box and its ticked form: eleven characters, alike but for a space
/// after `[` that becomes `x`.
spec fn tick_pair(bx: Seq<char>, ticked: Seq<char>) -> bool {
    &&& bx.len() == 11
    &&& ticked.len() == 11
    &&& bx[2] == '['
    &&& bx[3] == ' '
    &&& ticked[3] == 'x'
    &&& forall|q: int| 0 <= q < 11 && q != 3 ==> #[trigger] ticked[q] == bx[q]
}

proof fn lemma_tick_pairs()
    ensures
        tick_pair(box_cp1(), "- [x] CP-1:"@),
        tick_pair(box_cp2(), "- [x] CP-2:"@),
{
    reveal_strlit("- [ ] CP-1:");
    reveal_strlit("- [ ] CP-2:");
    reveal_strlit("- [x] CP-1:");
    reveal_strlit("- [x] CP-2:");
}

/// Ticking keeps the length, and changes only spaces just after a `[`, into
/// `x`.
proof fn lemma_tick_chars(s: Seq<char>, bx: Seq<char>, ticked: Seq<char>, j: int)
    requires
        0 <= j <= s.len(),
        tick_pair(bx, ticked),
    ensures
        replace_from(s, bx, ticked, j).len() == s.len() - j,
        forall|q: int| 0 <= q < s.len() - j ==> #[trigger] replace_from(s, bx, ticked, j)[q] == s[q + j]
            || (s[q + j] == ' ' && replace_from(s, bx, ticked, j)[q] == 'x' && 0 < q + j && s[q + j - 1] == '['),
    decreases s.len() - j,
{
    let r = replace_from(s, bx, ticked, j);
    if j < s.len() {
        if occurs_at(s, bx, j) {
            lemma_tick_chars(s, bx, ticked, j + 11);
            let rest = replace_from(s, bx, ticked, j + 11);
            assert(r == ticked + rest);
            assert forall|q: int| 0 <= q < s.len() - j implies #[trigger] r[q] == s[q + j] || (s[q + j]
                == ' ' && r[q] == 'x' && 0 < q + j && s[q + j - 1] == '[') by {
                if q < 11 {
                    assert(s[q + j] == s.subrange(j, j + 11)[q]);
                    if q == 3 {
                        assert(s[q + j - 1] == s.subrange(j, j + 11)[2]);
                    }
                } else {
                    assert(r[q] == rest[q - 11]);
                    assert(q - 11 + (j + 11) == q + j);
                }
            }
        } else {
            lemma_tick_chars(s, bx, ticked, j + 1);
            let rest = replace_from(s, bx, ticked, j + 1);
            assert(r == seq![s[j]] + rest);
            assert forall|q: int| 0 <= q < s.len() - j implies #[trigger] r[q] == s[q + j] || (s[q + j]
                == ' ' && r[q] == 'x' && 0 < q + j && s[q + j - 1] == '[') by {
                if q > 0 {
                    assert(r[q] == rest[q - 1]);
                    assert(q - 1 + (j + 1) == q + j);
                }
            }
        }
    }
}

proof fn lemma_skip_ws_exact(s: Seq<char>, i: int, r: int)
    requires
        0 <= i <= r <= s.len(),
        forall|m: int| i <= m < r ==> is_white_space(#[trigger] s[m]),
        r < s.len() ==> !is_white_space(s[r]),
    ensures
        skip_ws(s, i) == r,
    decreases r - i,
{
    if i < r {
        lemma_skip_ws_step(s, i);
        lemma_skip_ws_exact(s, i + 1, r);
    } else if r < s.len() {
        lemma_skip_ws_step(s, r);
    } else {
        assert(s.subrange(r, s.len() as int) =~= Seq::<char>::empty());
    }
}

proof fn lemma_skip_ws_first(s: Seq<char>, i: int)
    requires
        0 <= i <= s.len(),
    ensures
        i <= skip_ws(s, i) <= s.len(),
        forall|m: int| i <= m < skip_ws(s, i) ==> is_white_space(#[trigger] s[m]),
        skip_ws(s, i) < s.len() ==> !is_white_space(s[skip_ws(s, i)]),
{
    let t = s.subrange(i, s.len() as int);
    crate::text::lemma_lead_ws(t);
    assert forall|m: int| i <= m < skip_ws(s, i) implies is_white_space(#[trigger] s[m]) by {
        assert(s[m] == t[m - i]);
    }
    if skip_ws(s, i) < s.len() {
        assert(s[skip_ws(s, i)] == t[skip_ws(s, i) - i]);
    }
}

/// Turning spaces into `x` creates no checkpoint item before a dash at `j`.
proof fn lemma_tick_item_none(s1: Seq<char>, s2: Seq<char>, k: int, j: int)
    requires
        0 <= k < j < s1.len(),
        s2.len() == s1.len(),
        s1[j] == '-',
        forall|m: int| 0 <= m < s1.len() ==> #[trigger] s2[m] == s1[m] || (s1[m] == ' ' && s2[m] == 'x'),
        item_at(s1, k, cp_label(), false) is None,
    ensures
        item_at(s2, k, cp_label(), false) is None,
{
    lemma_cp_literals(0);
    let l = cp_label();
    if s2[k] == '-' {
        assert(s1[k] == '-');
        lemma_skip_ws_first(s1, k + 1);
        lemma_skip_ws_first(s2, k + 1);
        let la1 = skip_ws(s1, k + 1);
        let la2 = skip_ws(s2, k + 1);
        if la1 > j {
            assert(is_white_space(s1[j]));
        }
        if la2 > la1 {
            assert(is_white_space(s2[la1]));
            assert(s2[la1] == s1[la1]);
        }
        if la2 < la1 {
            assert(is_white_space(s1[la2]));
            assert(s2[la2] == 'x');
            if occurs_at(s2, l, la2) {
                assert(s2[la2] == s2.subrange(la2, la2 + 5)[0]);
            }
        } else if occurs_at(s2, l, la2) {
            assert(s1.subrange(la1, la1 + 5) =~= l) by {
                assert forall|q: int| 0 <= q < 5 implies #[trigger] s1.subrange(la1, la1 + 5)[q] == l[q] by {
                    assert(s2[la1 + q] == s2.subrange(la1, la1 + 5)[q]);
                    assert(s2[la1 + q] == s1[la1 + q] || (s1[la1 + q] == ' ' && s2[la1 + q] == 'x'));
                }
            }
            assert(occurs_at(s1, l, la1));
            if la1 + 5 > j {
                assert(s1[j] == s1.subrange(la1, la1 + 5)[j - la1]);
            }
            lemma_skip_ws_first(s1, la1 + 5);
            let lb = skip_ws(s1, la1 + 5);
            if lb > j {
                assert(is_white_space(s1[j]));
            }
            lemma_word_end_stops(s1, lb);
            assert(word_end(s1, lb) > lb);
        }
    }
}

/// Ticking boxes leaves the checkpoint item first.
proof fn lemma_cp_step_ticks(c2: Seq<char>, p: int, a: int, slot: nat, bx: Seq<char>, ticked: Seq<char>)
    requires
        cp_item_first(c2, p, a, slot),
        tick_pair(bx, ticked),
    ensures
        cp_item_first(replace_all(c2, bx, ticked), p, a, slot),
{
    lemma_cp_literals(slot);
    lemma_tick_chars(c2, bx, ticked, 0);
    let c3 = replace_all(c2, bx, ticked);
    let ci = cp_item(slot);
    assert forall|k: int| 0 <= k < 12 implies c2[a + k] == #[trigger] ci[k] by {
        assert(c2[a + k] == c2.subrange(a, a + 12)[k]);
    }
    assert forall|m: int| 0 <= m < c2.len() implies #[trigger] c3[m] == c2[m] || (c2[m] == ' ' && c3[m] == 'x') by {
        assert(c3[m] == c2[m + 0] || (c2[m + 0] == ' ' && c3[m] == 'x' && 0 < m + 0 && c2[m + 0 - 1] == '['));
    }
    lemma_skip_ws_first(c2, p);
    // nothing changes from the end of the line before the item through the
    // character after it
    assert forall|m: int| p - 1 <= m <= a + 12 && 0 <= m < c2.len() implies #[trigger] c3[m] == c2[m] by {
        assert(c3[m] == c2[m + 0] || (c2[m + 0] == ' ' && c3[m] == 'x' && 0 < m + 0 && c2[m + 0 - 1] == '['));
        if c3[m] != c2[m] {
            if m == p - 1 {
                assert(c2[p - 1] == '\n');
            } else if m < a {
                if m - 1 >= p {
                    assert(is_white_space(c2[m - 1]));
                } else {
                    assert(c2[p - 1] == '\n');
                }
            } else if m < a + 12 {
                assert(c2[m] == ci[m - a]);
                if m - 1 >= a {
                    assert(c2[m - 1] == ci[m - 1 - a]);
                } else {
                    assert(is_white_space(c2[m - 1]));
                }
            } else {
                assert(c2[m - 1] == ci[11]);
            }
        }
    }
    assert(c3.subrange(a, a + 12) =~= c2.subrange(a, a + 12));
    if a + 12 < c3.len() {
        assert(c3[a + 12] == c2[a + 12]);
    }
    assert(agree_shift(c2, c3, 0, p, a));
    lemma_skip_ws_shift(c2, c3, 0, p, a);
    if p > 0 {
        assert(c3[p - 1] == c2[p - 1]);
    }
    assert(c2[a] == ci[0]);
    assert forall|k: int| 0 <= k < a implies #[trigger] item_at(c3, k, cp_label(), false) is None by {
        lemma_tick_item_none(c2, c3, k, a);
    }
}

/// After a turn, the current checkpoint that `checkpoints.md` names is the
/// one the slot count reached, for every file whose first `- 当前关卡:` item
/// is the first thing on its line with no progress item before it (as in the
/// template).
pub proof fn lemma_advanced_checkpoint_reads_back(content: Seq<char>, slot: nat)
    requires
        checkpoint_item_leads(content),
    ensures
        checkpoint_in(advanced_checkpoints(content, slot)) == checkpoint_for(slot),
{
    lemma_cp_literals(slot);
    let (p1, a1) = lemma_cp_step_one(content, slot);
    let c1 = replace_first_item(content, "当前关卡:"@, false, "- 当前关卡: "@ + checkpoint_for(slot));
    assert(c1 == replace_first_item(content, cp_label(), false, cp_item(slot)));
    let (p, a) = lemma_cp_step_two(c1, p1, a1, slot);
    let c2 = replace_first_item(c1, "进度百分比:"@, false, "- 进度百分比: "@ + progress_for(slot));
    assert(c2 == replace_first_item(c1, progress_label(), false, progress_item(slot)));
    lemma_tick_pairs();
    let t1 = "- [x] CP-1:"@;
    let t2 = "- [x] CP-2:"@;
    let c3 = if slot >= SLOTS_PER_CP_2 {
        replace_all(c2, box_cp1(), t1)
    } else {
        c2
    };
    if slot >= SLOTS_PER_CP_2 {
        lemma_cp_step_ticks(c2, p, a, slot, box_cp1(), t1);
    }
    if slot >= SLOTS_PER_CP_3 {
        lemma_cp_step_ticks(c3, p, a, slot, box_cp2(), t2);
        lemma_cp_item_read(replace_all(c3, box_cp2(), t2), p, a, slot);
    } else {
        lemma_cp_item_read(c3, p, a, slot);
    }
}

/// `checkpoints.md` after `n` turns of [`advance_gating`] that start from
/// `timeline.md` at `timeline` and `checkpoints.md` at `checkpoints`: each
/// turn writes the checkpoint of the slot count that turn reaches.
pub open spec fn checkpoints_after_turns(timeline: Seq<char>, checkpoints: Seq<char>, n: nat) -> Seq<char>
    decreases n,
{
    if n == 0 {
        checkpoints
    } else {
        let prev = timeline_after_turns(timeline, (n - 1) as nat);
        advanced_checkpoints(
            checkpoints_after_turns(timeline, checkpoints, (n - 1) as nat),
            (timeline_slot_in(prev) + 1) as nat,
        )
    }
}

/// After `n` turns the checkpoint named is the one of the slot count then
/// reached (`CP-2` from 5 slots, `CP-3` from 10), whenever the file the last
/// turn rewrote was laid out like the template (see
/// [`checkpoint_item_leads`]).
pub proof fn lemma_turns_reach_checkpoint(timeline: Seq<char>, checkpoints: Seq<char>, n: nat)
    requires
        n > 0,
        timeline_slot_in(timeline) + n <= u32::MAX,
        checkpoint_item_leads(checkpoints_after_turns(timeline, checkpoints, (n - 1) as nat)),
    ensures
        checkpoint_in(checkpoints_after_turns(timeline, checkpoints, n)) == checkpoint_for(
            (timeline_slot_in(timeline) + n) as nat,
        ),
{
    lemma_turns_count_slots(timeline, (n - 1) as nat);
    let prev = timeline_after_turns(timeline, (n - 1) as nat);
    lemma_advanced_checkpoint_reads_back(
        checkpoints_after_turns(timeline, checkpoints, (n - 1) as nat),
        (timeline_slot_in(prev) + 1) as nat,
    );
}

} // verus!
