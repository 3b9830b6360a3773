//! Early JSON assets (presets, world books) turned into the Markdown that the
//! current version reads. Finding the files and writing the results happens
//! at the caller.
use vstd::prelude::*;
use crate::hub::signed_decimal;
use crate::json::{
    escape_token, index_pointer, json_at, json_error, json_keys, json_valid, opt_bool, opt_i32,
    pointer_to, push_token, read_opt_bool, read_opt_i32, JsonDoc, JsonLookup, LookupModel,
};
use crate::lorebook::{ints, ints64, sort_desc, sort_desc_exec};
use crate::orchestrator::comma_joined;
use crate::security::{strip_utf8_bom, without_bom};
use crate::text::{
    chars_of, decimal, push_char, push_str, replace, replace_all, string_from, string_views,
};

verus! {

broadcast use vstd::string::group_string_axioms;

/// One prompt of an early SillyTavern preset.
#[derive(Debug, Clone, PartialEq)]
pub struct LegacyPresetPrompt {
    pub name: String,
    pub value: String,
    pub enabled: bool,
    pub identifier: String,
}

/// An early SillyTavern preset.
#[derive(Debug, Clone, PartialEq)]
pub struct LegacyPreset {
    pub name: String,
    pub prompts: Vec<LegacyPresetPrompt>,
}

/// One entry of an early SillyTavern world book.
#[derive(Debug, Clone, PartialEq)]
pub struct LegacyLorebookEntry {
    pub keys: Vec<String>,
    pub content: String,
    pub order: Option<i32>,
    /// 0 = before the user message, 1 = after.
    pub position: Option<i32>,
    pub enabled: Option<bool>,
}

pub struct LegacyPromptModel {
    pub name: Seq<char>,
    pub value: Seq<char>,
    pub enabled: bool,
    pub identifier: Seq<char>,
}

pub struct LegacyEntryModel {
    pub keys: Seq<Seq<char>>,
    pub content: Seq<char>,
    pub order: Option<i32>,
    pub position: Option<i32>,
    pub enabled: Option<bool>,
}

impl View for LegacyPresetPrompt {
    type V = LegacyPromptModel;

    open spec fn view(&self) -> LegacyPromptModel {
        LegacyPromptModel {
            name: self.name@,
            value: self.value@,
            enabled: self.enabled,
            identifier: self.identifier@,
        }
    }
}

impl View for LegacyLorebookEntry {
    type V = LegacyEntryModel;

    open spec fn view(&self) -> LegacyEntryModel {
        LegacyEntryModel {
            keys: string_views(self.keys@),
            content: self.content@,
            order: self.order,
            position: self.position,
            enabled: self.enabled,
        }
    }
}

pub open spec fn legacy_prompt_views(s: Seq<LegacyPresetPrompt>) -> Seq<LegacyPromptModel> {
    s.map_values(|p: LegacyPresetPrompt| p@)
}

pub open spec fn legacy_entry_views(s: Seq<LegacyLorebookEntry>) -> Seq<LegacyEntryModel> {
    s.map_values(|e: LegacyLorebookEntry| e@)
}

// ---------------------------------------------------------------------------
// Presets
// ---------------------------------------------------------------------------

pub open spec fn bool_text(b: bool) -> Seq<char> {
    if b {
        "true"@
    } else {
        "false"@
    }
}

/// `v`, with a line feed added when it does not end with one.
pub open spec fn with_final_newline(v: Seq<char>) -> Seq<char> {
    if v.len() > 0 && v.last() == '\n' {
        v
    } else {
        v.push('\n')
    }
}

/// The Markdown section of one prompt.
pub open spec fn prompt_block(p: LegacyPromptModel) -> Seq<char> {
    "## ["@ + p.identifier + "] "@ + p.name + "\n"@ + "- Enabled: "@ + bool_text(p.enabled) + "\n"@
        + "- Content:\n```markdown\n"@ + with_final_newline(p.value) + "```\n\n"@
}

/// The sections of the first `n` prompts.
pub open spec fn prompt_blocks(ps: Seq<LegacyPromptModel>, n: nat) -> Seq<char>
    decreases n,
{
    if n == 0 {
        Seq::empty()
    } else {
        prompt_blocks(ps, (n - 1) as nat) + prompt_block(ps[n - 1])
    }
}

/// The Markdown of a preset: a front matter with its name (inner quotes
/// escaped), a title, a note, and a section per prompt.
pub open spec fn preset_markdown_of(name: Seq<char>, prompts: Seq<LegacyPromptModel>) -> Seq<char> {
    "---\n"@ + "name: \""@ + replace_all(name, seq!['"'], seq!['\\', '"']) + "\"\n"@ + "---\n\n"@
        + "# "@ + name + "\n\n"@
        + "此预设由 Legacy JSON 格式自动转换。您可直接在此 Markdown 中修改条目内容，或增删条目。\n\n"@
        + prompt_blocks(prompts, prompts.len())
}

/// The Markdown of a preset (see [`preset_markdown_of`]).
pub fn preset_markdown(preset: &LegacyPreset) -> (r: String)
    ensures
        r@ == preset_markdown_of(preset.name@, legacy_prompt_views(preset.prompts@)),
{
    proof {
        reveal_strlit("\"");
        reveal_strlit("\\\"");
    }
    let ghost ps = legacy_prompt_views(preset.prompts@);
    let mut md = String::new();
    push_str(&mut md, "---\n");
    push_str(&mut md, "name: \"");
    let escaped = replace(preset.name.as_str(), "\"", "\\\"");
    assert("\""@ =~= seq!['"']);
    assert("\\\""@ =~= seq!['\\', '"']);
    push_str(&mut md, escaped.as_str());
    push_str(&mut md, "\"\n");
    push_str(&mut md, "---\n\n");
    push_str(&mut md, "# ");
    push_str(&mut md, preset.name.as_str());
    push_str(&mut md, "\n\n");
    push_str(
        &mut md,
        "此预设由 Legacy JSON 格式自动转换。您可直接在此 Markdown 中修改条目内容，或增删条目。\n\n",
    );
    let ghost head = md@;
    let mut i: usize = 0;
    while i < preset.prompts.len()
        invariant
            i <= preset.prompts.len(),
            ps == legacy_prompt_views(preset.prompts@),
            md@ == head + prompt_blocks(ps, i as nat),
        decreases preset.prompts.len() - i,
    {
        let ghost before = md@;
        push_prompt_block(&mut md, &preset.prompts[i]);
        assert(md@ =~= before + prompt_block(ps[i as int]));
        i = i + 1;
    }
    md
}

/// Appends the section of one prompt (see [`prompt_block`]).
fn push_prompt_block(md: &mut String, p: &LegacyPresetPrompt)
    ensures
        final(md)@ == old(md)@ + prompt_block(p@),
{
    let ghost before = md@;
    push_str(md, "## [");
    push_str(md, p.identifier.as_str());
    push_str(md, "] ");
    push_str(md, p.name.as_str());
    push_str(md, "\n");
    push_str(md, "- Enabled: ");
    if p.enabled {
        push_str(md, "true");
    } else {
        push_str(md, "false");
    }
    push_str(md, "\n");
    push_str(md, "- Content:\n```markdown\n");
    let ghost mid = md@;
    let v = chars_of(p.value.as_str());
    push_str(md, p.value.as_str());
    if !(v.len() > 0 && v[v.len() - 1] == '\n') {
        push_char(md, '\n');
    }
    assert(md@ =~= mid + with_final_newline(p.value@));
    push_str(md, "```\n\n");
    assert(md@ =~= before + prompt_block(p@));
}

/// The `i`-th prompt of an early preset: an object with strings `name`,
/// `value`, `identifier` and a boolean `enabled`.
pub open spec fn legacy_prompt_at(text: Seq<char>, i: nat) -> Option<LegacyPromptModel> {
    let base = "/prompts"@ + seq!['/'] + decimal(i);
    match (
        json_at(text, base),
        json_at(text, base + "/name"@),
        json_at(text, base + "/value"@),
        json_at(text, base + "/enabled"@),
        json_at(text, base + "/identifier"@),
    ) {
        (LookupModel::Object, LookupModel::Str(n), LookupModel::Str(v), LookupModel::Bool(e), LookupModel::Str(id)) => Some(
            LegacyPromptModel { name: n, value: v, enabled: e, identifier: id },
        ),
        _ => None,
    }
}

/// The first `n` prompts, when all read.
pub open spec fn legacy_prompts(text: Seq<char>, n: nat) -> Option<Seq<LegacyPromptModel>>
    decreases n,
{
    if n == 0 {
        Some(Seq::empty())
    } else {
        match (legacy_prompts(text, (n - 1) as nat), legacy_prompt_at(text, (n - 1) as nat)) {
            (Some(s), Some(p)) => Some(s.push(p)),
            _ => None,
        }
    }
}

/// The early preset `text` describes: an object with a string `name` and
/// an array `prompts` of prompts.
pub open spec fn legacy_preset_of(text: Seq<char>) -> Option<(Seq<char>, Seq<LegacyPromptModel>)> {
    if json_valid(text) && json_at(text, Seq::empty()) is Object {
        match (json_at(text, "/name"@), json_at(text, "/prompts"@)) {
            (LookupModel::Str(n), LookupModel::Array(k)) => match legacy_prompts(text, k) {
                Some(ps) => Some((n, ps)),
                None => None,
            },
            _ => None,
        }
    } else {
        None
    }
}

pub proof fn lemma_legacy_prompts_none(text: Seq<char>, m: nat, k: nat)
    requires
        m <= k,
        legacy_prompts(text, m) is None,
    ensures
        legacy_prompts(text, k) is None,
    decreases k - m,
{
    if m < k {
        lemma_legacy_prompts_none(text, (m + 1) as nat, k);
    }
}

/// What follows `Failed to parse Preset JSON: ` for text that reads as no preset.
pub open spec fn preset_error_detail(text: Seq<char>) -> Seq<char> {
    if json_valid(text) {
        "expected an object with a string `name` and an array `prompts` of {name, value, enabled, identifier}"@
    } else {
        json_error(text)
    }
}

/// The early preset of `text` (see [`legacy_preset_of`]).
pub fn parse_legacy_preset(text: &str) -> (r: Option<LegacyPreset>)
    ensures
        match legacy_preset_of(text@) {
            Some((n, ps)) => r matches Some(p) && p.name@ == n && legacy_prompt_views(p.prompts@)
                == ps,
            None => r is None,
        },
{
    let doc = match JsonDoc::parse(text) {
        Some(d) => d,
        None => return None,
    };
    let ghost t = text@;
    proof {
        reveal_strlit("");
    }
    let top = doc.lookup("");
    assert(""@ =~= Seq::<char>::empty());
    match top {
        JsonLookup::Object => {},
        _ => return None,
    }
    let name = match doc.lookup("/name") {
        JsonLookup::Str(n) => n,
        _ => return None,
    };
    let k = match doc.lookup("/prompts") {
        JsonLookup::Array(k) => k,
        _ => return None,
    };
    let mut prompts: Vec<LegacyPresetPrompt> = Vec::new();
    let mut i: usize = 0;
    while i < k
        invariant
            i <= k,
            doc.source() == t,
            t == text@,
            legacy_prompts(t, i as nat) == Some(legacy_prompt_views(prompts@)),
            legacy_preset_of(t) == match legacy_prompts(t, k as nat) {
                Some(ps) => Some((name@, ps)),
                None => None,
            },
        decreases k - i,
    {
        let base = index_pointer("/prompts", i);
        let np = pointer_to(&base, "/name");
        let vp = pointer_to(&base, "/value");
        let ep = pointer_to(&base, "/enabled");
        let ip = pointer_to(&base, "/identifier");
        let read = match (
            doc.lookup(base.as_str()),
            doc.lookup(np.as_str()),
            doc.lookup(vp.as_str()),
            doc.lookup(ep.as_str()),
            doc.lookup(ip.as_str()),
        ) {
            (JsonLookup::Object, JsonLookup::Str(n), JsonLookup::Str(v), JsonLookup::Bool(e), JsonLookup::Str(id)) => Some(
                LegacyPresetPrompt { name: n, value: v, enabled: e, identifier: id },
            ),
            _ => None,
        };
        match read {
            Some(p) => {
                let ghost before = legacy_prompt_views(prompts@);
                let ghost pv = p@;
                assert(legacy_prompt_at(t, i as nat) == Some(pv));
                prompts.push(p);
                assert(legacy_prompt_views(prompts@) =~= before.push(pv));
            },
            None => {
                proof {
                    assert(legacy_prompt_at(t, i as nat) is None);
                    lemma_legacy_prompts_none(t, (i + 1) as nat, k as nat);
                }
                return None;
            },
        }
        i = i + 1;
    }
    Some(LegacyPreset { name, prompts })
}

/// The Markdown of an early preset file's text (a leading byte-order mark is
/// ignored), or why it reads as no preset.
pub fn convert_preset_json(raw: &str) -> (r: Result<String, String>)
    ensures
        match legacy_preset_of(without_bom(raw@)) {
            Some((n, ps)) => r matches Ok(md) && md@ == preset_markdown_of(n, ps),
            None => r matches Err(e) && e@ == "Failed to parse Preset JSON: "@ + preset_error_detail(
                without_bom(raw@),
            ),
        },
{
    let text = strip_utf8_bom(raw);
    match parse_legacy_preset(text) {
        Some(p) => Ok(preset_markdown(&p)),
        None => {
            let mut e = string_from("Failed to parse Preset JSON: ");
            match JsonDoc::parse_or_error(text) {
                Err(m) => push_str(&mut e, m.as_str()),
                Ok(_) => push_str(
                    &mut e,
                    "expected an object with a string `name` and an array `prompts` of {name, value, enabled, identifier}",
                ),
            }
            Err(e)
        },
    }
}


// ---------------------------------------------------------------------------
// World books
// ---------------------------------------------------------------------------

/// The entry at `base`: an object with an array of string `keys`, a string
/// `content`, and optional `order`, `position` (integers within `i32`) and
/// `enabled` (boolean). Entries of another shape are skipped.
pub open spec fn legacy_entry_at(text: Seq<char>, base: Seq<char>) -> Option<LegacyEntryModel> {
    let o = opt_i32(json_at(text, base + "/order"@));
    let p = opt_i32(json_at(text, base + "/position"@));
    let e = opt_bool(json_at(text, base + "/enabled"@));
    if json_at(text, base) is Object && o is Some && p is Some && e is Some {
        match (json_at(text, base + "/keys"@), json_at(text, base + "/content"@)) {
            (LookupModel::Array(m), LookupModel::Str(c)) => match crate::orchestrator::strings_at(
                text,
                base + "/keys"@,
                m,
            ) {
                Some(ks) => Some(
                    LegacyEntryModel { keys: ks, content: c, order: o->0, position: p->0, enabled: e->0 },
                ),
                None => None,
            },
            _ => None,
        }
    } else {
        None
    }
}

/// Where the entries stand: the `entries` member when there is one, else
/// the whole document.
pub open spec fn entries_root(text: Seq<char>) -> Seq<char> {
    if json_at(text, "/entries"@) is Missing {
        Seq::empty()
    } else {
        "/entries"@
    }
}

/// How many members the entries' container has: the keys of an object, the
/// elements of an array, none otherwise.
pub open spec fn member_count(text: Seq<char>, c: Seq<char>) -> nat {
    match json_at(text, c) {
        LookupModel::Object => json_keys(text, c).len(),
        LookupModel::Array(n) => n,
        _ => 0,
    }
}

/// The pointer to the `i`-th member of the container `c`.
pub open spec fn member_pointer(text: Seq<char>, c: Seq<char>, i: nat) -> Seq<char> {
    match json_at(text, c) {
        LookupModel::Object => c + seq!['/'] + escape_token(json_keys(text, c)[i as int]),
        _ => c + seq!['/'] + decimal(i),
    }
}

/// The members among the first `n` that read as entries, in order.
pub open spec fn read_entries(text: Seq<char>, c: Seq<char>, n: nat) -> Seq<LegacyEntryModel>
    decreases n,
{
    if n == 0 {
        Seq::empty()
    } else {
        let prev = read_entries(text, c, (n - 1) as nat);
        match legacy_entry_at(text, member_pointer(text, c, (n - 1) as nat)) {
            Some(e) => prev.push(e),
            None => prev,
        }
    }
}

/// The entries of the world book `text`.
pub open spec fn worldbook_entries(text: Seq<char>) -> Seq<LegacyEntryModel> {
    let c = entries_root(text);
    read_entries(text, c, member_count(text, c))
}

/// The order an entry sorts by (100 when it has none).
pub open spec fn order_key(e: LegacyEntryModel) -> int {
    match e.order {
        Some(o) => o as int,
        None => 100,
    }
}

/// The entries by their order, smallest first, keeping the given order
/// among equals.
pub open spec fn entries_by_order(es: Seq<LegacyEntryModel>) -> Seq<LegacyEntryModel> {
    let idx = sort_desc(Seq::new(es.len(), |i: int| i), Seq::new(es.len(), |i: int| -order_key(es[i])));
    Seq::new(idx.len(), |k: int| es[idx[k]])
}

/// The position shown for an entry.
pub open spec fn position_text(p: Option<i32>) -> Seq<char> {
    match p {
        Some(v) => if v == 0 {
            "before (0)"@
        } else {
            "after (1)"@
        },
        None => "after (1)"@,
    }
}

/// The table row of one entry; line feeds in its content become `<br>`.
pub open spec fn entry_row(e: LegacyEntryModel) -> Seq<char> {
    "| "@ + comma_joined(e.keys) + " | "@ + signed_decimal(order_key(e)) + " | "@ + position_text(
        e.position,
    ) + " | "@ + bool_text(
        match e.enabled {
            Some(b) => b,
            None => true,
        },
    ) + " | "@ + replace_all(e.content, seq!['\n'], "<br>"@) + " |\n"@
}

/// The rows of the first `n` entries.
pub open spec fn entry_rows(es: Seq<LegacyEntryModel>, n: nat) -> Seq<char>
    decreases n,
{
    if n == 0 {
        Seq::empty()
    } else {
        entry_rows(es, (n - 1) as nat) + entry_row(es[n - 1])
    }
}

/// The header of a converted world book.
pub open spec fn worldbook_header() -> Seq<char> {
    "# 世界书 lorebook\n\n"@
        + "此世界书由 Legacy JSON 格式自动转换，以 Markdown 表格渲染，人类与 Agent 可直接读写编辑。\n\n"@
        + "| 触发关键词 | 排序 (Order) | 激活位置 (Position) | 启用状态 | 提示词设定内容 (Prompt) |\n"@
        + "| :--- | :--- | :--- | :--- | :--- |\n"@
}

/// The Markdown table of a world book's entries, by order.
pub open spec fn worldbook_markdown_of(es: Seq<LegacyEntryModel>) -> Seq<char> {
    let sorted = entries_by_order(es);
    worldbook_header() + entry_rows(sorted, sorted.len())
}

/// Reads the entry at `base` (see [`legacy_entry_at`]).
fn read_legacy_entry(doc: &JsonDoc, base: &String) -> (r: Option<LegacyLorebookEntry>)
    ensures
        match legacy_entry_at(doc.source(), base@) {
            Some(m) => r matches Some(e) && e@ == m,
            None => r is None,
        },
{
    let op = pointer_to(base, "/order");
    let pp = pointer_to(base, "/position");
    let ep = pointer_to(base, "/enabled");
    let kp = pointer_to(base, "/keys");
    let cp = pointer_to(base, "/content");
    let is_obj = match doc.lookup(base.as_str()) {
        JsonLookup::Object => true,
        _ => false,
    };
    let (order, position, enabled) = match (is_obj, read_opt_i32(doc, &op), read_opt_i32(doc, &pp), read_opt_bool(doc, &ep)) {
        (true, Some(o), Some(p), Some(e)) => (o, p, e),
        _ => return None,
    };
    let m = match doc.lookup(kp.as_str()) {
        JsonLookup::Array(m) => m,
        _ => return None,
    };
    let content = match doc.lookup(cp.as_str()) {
        JsonLookup::Str(c) => c,
        _ => return None,
    };
    let keys = match read_string_array(doc, &kp, m) {
        Some(k) => k,
        None => return None,
    };
    Some(LegacyLorebookEntry { keys, content, order, position, enabled })
}

/// Reads the string array at `base` of `m` elements.
fn read_string_array(doc: &JsonDoc, base: &String, m: usize) -> (r: Option<Vec<String>>)
    ensures
        r matches Some(v) ==> crate::orchestrator::strings_at(doc.source(), base@, m as nat) == Some(
            string_views(v@),
        ),
        r is None ==> crate::orchestrator::strings_at(doc.source(), base@, m as nat) is None,
{
    let ghost text = doc.source();
    let mut out: Vec<String> = Vec::new();
    let mut j: usize = 0;
    while j < m
        invariant
            j <= m,
            text == doc.source(),
            crate::orchestrator::strings_at(text, base@, j as nat) == Some(string_views(out@)),
        decreases m - j,
    {
        let p = index_pointer(base.as_str(), j);
        let ghost before = string_views(out@);
        match doc.lookup(p.as_str()) {
            JsonLookup::Str(k) => {
                let ghost kv = k@;
                out.push(k);
                assert(string_views(out@) =~= before.push(kv));
            },
            _ => {
                proof {
                    crate::orchestrator::lemma_strings_at_none(text, base@, (j + 1) as nat, m as nat);
                }
                return None;
            },
        }
        j = j + 1;
    }
    Some(out)
}

/// The entries of a parsed world book (see [`worldbook_entries`]).
fn collect_entries(doc: &JsonDoc) -> (r: Vec<LegacyLorebookEntry>)
    ensures
        legacy_entry_views(r@) == worldbook_entries(doc.source()),
{
    let ghost t = doc.source();
    let has_entries = match doc.lookup("/entries") {
        JsonLookup::Missing => false,
        _ => true,
    };
    let root = if has_entries {
        string_from("/entries")
    } else {
        proof {
            reveal_strlit("");
        }
        let e = string_from("");
        assert(""@ =~= Seq::<char>::empty());
        e
    };
    assert(root@ == entries_root(t));
    let (is_object, n) = match doc.lookup(root.as_str()) {
        JsonLookup::Object => (true, 0usize),
        JsonLookup::Array(n) => (false, n),
        _ => (false, 0usize),
    };
    let keys: Vec<String> = if is_object {
        doc.keys(root.as_str())
    } else {
        Vec::new()
    };
    let count = if is_object {
        keys.len()
    } else {
        n
    };
    assert(count == member_count(t, root@));
    let mut out: Vec<LegacyLorebookEntry> = Vec::new();
    let mut i: usize = 0;
    while i < count
        invariant
            i <= count,
            t == doc.source(),
            root@ == entries_root(t),
            count == member_count(t, root@),
            is_object == (json_at(t, root@) is Object),
            is_object ==> string_views(keys@) == json_keys(t, root@),
            legacy_entry_views(out@) == read_entries(t, root@, i as nat),
        decreases count - i,
    {
        let ptr = if is_object {
            let mut p = string_from(root.as_str());
            push_token(&mut p, keys[i].as_str());
            p
        } else {
            index_pointer(root.as_str(), i)
        };
        assert(ptr@ == member_pointer(t, root@, i as nat));
        let ghost before = legacy_entry_views(out@);
        match read_legacy_entry(doc, &ptr) {
            Some(e) => {
                let ghost ev = e@;
                out.push(e);
                assert(legacy_entry_views(out@) =~= before.push(ev));
            },
            None => {},
        }
        i = i + 1;
    }
    out
}

/// Appends the row of one entry (see [`entry_row`]).
fn push_entry_row(md: &mut String, e: &LegacyLorebookEntry)
    ensures
        final(md)@ == old(md)@ + entry_row(e@),
{
    proof {
        reveal_strlit("\n");
    }
    let ghost before = md@;
    push_str(md, "| ");
    let mut i: usize = 0;
    let ghost ks = string_views(e.keys@);
    while i < e.keys.len()
        invariant
            i <= e.keys.len(),
            ks == string_views(e.keys@),
            md@ == before + "| "@ + comma_joined(ks.take(i as int)),
        decreases e.keys.len() - i,
    {
        proof {
            assert(ks.take(i + 1).drop_last() =~= ks.take(i as int));
        }
        if i > 0 {
            push_str(md, ", ");
        }
        push_str(md, e.keys[i].as_str());
        proof {
            if i == 0 {
                assert(ks.take(1) =~= seq![ks[0]]);
            }
        }
        i = i + 1;
    }
    assert(ks.take(e.keys.len() as int) =~= ks);
    push_str(md, " | ");
    let order: i32 = match e.order {
        Some(o) => o,
        None => 100,
    };
    crate::hub::push_signed_decimal(md, order as i64);
    push_str(md, " | ");
    let pos: i32 = match e.position {
        Some(p) => p,
        None => 1,
    };
    if pos == 0 {
        push_str(md, "before (0)");
    } else {
        push_str(md, "after (1)");
    }
    push_str(md, " | ");
    let enabled = match e.enabled {
        Some(b) => b,
        None => true,
    };
    if enabled {
        push_str(md, "true");
    } else {
        push_str(md, "false");
    }
    push_str(md, " | ");
    let clean = replace(e.content.as_str(), "\n", "<br>");
    assert("\n"@ =~= seq!['\n']);
    push_str(md, clean.as_str());
    push_str(md, " |\n");
    assert(md@ =~= before + entry_row(e@));
}

/// The Markdown of an early world book file's text (a leading byte-order
/// mark is ignored): a table of the entries that read, by order; or why the
/// text is not JSON.
pub fn convert_worldbook_json(raw: &str) -> (r: Result<String, String>)
    ensures
        ({
            let t = without_bom(raw@);
            if json_valid(t) {
                r matches Ok(md) && md@ == worldbook_markdown_of(worldbook_entries(t))
            } else {
                r matches Err(e) && e@ == "Failed to parse Worldbook JSON: "@ + json_error(t)
            }
        }),
{
    let text = strip_utf8_bom(raw);
    let doc = match JsonDoc::parse_or_error(text) {
        Ok(d) => d,
        Err(m) => {
            let mut e = string_from("Failed to parse Worldbook JSON: ");
            push_str(&mut e, m.as_str());
            return Err(e);
        },
    };
    let entries = collect_entries(&doc);
    let ghost es = legacy_entry_views(entries@);
    let mut idxs: Vec<usize> = Vec::new();
    let mut keys: Vec<i64> = Vec::new();
    let mut i: usize = 0;
    while i < entries.len()
        invariant
            i <= entries.len(),
            es == legacy_entry_views(entries@),
            idxs.len() == i,
            keys.len() == i,
            forall|x: int| 0 <= x < i ==> #[trigger] idxs@[x] == x,
            forall|x: int| 0 <= x < i ==> #[trigger] keys@[x] == -order_key(es[x]),
        decreases entries.len() - i,
    {
        idxs.push(i);
        let o: i64 = match entries[i].order {
            Some(o) => o as i64,
            None => 100,
        };
        keys.push(-o);
        i = i + 1;
    }
    assert(ints(idxs@) =~= Seq::new(es.len(), |x: int| x));
    assert(ints64(keys@) =~= Seq::new(es.len(), |x: int| -order_key(es[x])));
    let order = sort_desc_exec(&idxs, &keys);
    let ghost sorted = entries_by_order(es);
    assert(ints(order@) == sort_desc(Seq::new(es.len(), |x: int| x), Seq::new(es.len(), |x: int| -order_key(es[x]))));
    let mut md = String::new();
    push_str(&mut md, "# 世界书 lorebook\n\n");
    push_str(
        &mut md,
        "此世界书由 Legacy JSON 格式自动转换，以 Markdown 表格渲染，人类与 Agent 可直接读写编辑。\n\n",
    );
    push_str(&mut md, "| 触发关键词 | 排序 (Order) | 激活位置 (Position) | 启用状态 | 提示词设定内容 (Prompt) |\n");
    push_str(&mut md, "| :--- | :--- | :--- | :--- | :--- |\n");
    assert(md@ =~= worldbook_header());
    let mut k: usize = 0;
    while k < order.len()
        invariant
            k <= order.len(),
            es == legacy_entry_views(entries@),
            sorted == entries_by_order(es),
            ints(order@) == sort_desc(Seq::new(es.len(), |x: int| x), Seq::new(es.len(), |x: int| -order_key(es[x]))),
            forall|x: int| 0 <= x < order.len() ==> order@[x] < idxs.len(),
            idxs.len() == entries.len(),
            md@ == worldbook_header() + entry_rows(sorted, k as nat),
        decreases order.len() - k,
    {
        let e = &entries[order[k]];
        assert(sorted[k as int] == e@);
        push_entry_row(&mut md, e);
        k = k + 1;
    }
    Ok(md)
}

} // verus!
