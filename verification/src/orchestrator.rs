//! The orchestrator: a character card and a lorebook, read from JSON, and the
//! system prompt assembled from them.
//!
//! The prompt is the card's system prompt (or a role-play opening), the
//! known information gated by the story's checkpoint, the card's
//! personality, description and scenario, the triggered lore, the live game
//! state, and the preset's prompts; finally every `{{name}}` of the
//! variables, `{{char}}` and `{{user}}` is replaced.
use vstd::prelude::*;
use crate::error::AirpError;
use crate::gating::{checkpoint_in, checkpoint_of, filter_known, filtered_known};
use crate::json::{
    escape_token, index_pointer, json_at, json_compact, json_pretty, json_valid, opt_bool, opt_i32,
    opt_str, pointer_to, push_token, read_opt_bool, read_opt_i32, read_opt_str, JsonDoc, JsonLookup,
    LookupModel,
};
use crate::lorebook::{entry_views, trigger_result, EntryModel, Lorebook, LorebookEntry};
use crate::preset::{joined_prompts, override_view, preset_prompts_of, rendered};
use crate::text::{
    chars_eq, chars_of, decimal, push_char, push_str, replace, replace_all, string_from,
    string_views,
};

verus! {

broadcast use vstd::string::group_string_axioms;

// ---------------------------------------------------------------------------
// The card
// ---------------------------------------------------------------------------

/// The fields of a character card that the prompt uses.
#[derive(Debug, Clone)]
pub struct CharacterData {
    pub name: Option<String>,
    pub description: Option<String>,
    pub personality: Option<String>,
    pub scenario: Option<String>,
    pub system_prompt: Option<String>,
}

pub struct CardModel {
    pub name: Option<Seq<char>>,
    pub description: Option<Seq<char>>,
    pub personality: Option<Seq<char>>,
    pub scenario: Option<Seq<char>>,
    pub system_prompt: Option<Seq<char>>,
}

pub open spec fn opt_view(o: Option<String>) -> Option<Seq<char>> {
    match o {
        Some(s) => Some(s@),
        None => None,
    }
}

impl View for CharacterData {
    type V = CardModel;

    open spec fn view(&self) -> CardModel {
        CardModel {
            name: opt_view(self.name),
            description: opt_view(self.description),
            personality: opt_view(self.personality),
            scenario: opt_view(self.scenario),
            system_prompt: opt_view(self.system_prompt),
        }
    }
}

/// The card fields of the object at `base` in `text`: `None` unless it is an
/// object whose five fields are each absent, null or a string.
pub open spec fn card_at(text: Seq<char>, base: Seq<char>) -> Option<CardModel> {
    let n = opt_str(json_at(text, base + "/name"@));
    let d = opt_str(json_at(text, base + "/description"@));
    let p = opt_str(json_at(text, base + "/personality"@));
    let s = opt_str(json_at(text, base + "/scenario"@));
    let y = opt_str(json_at(text, base + "/system_prompt"@));
    if json_at(text, base) is Object && n is Some && d is Some && p is Some && s is Some && y is Some {
        Some(
            CardModel {
                name: n->0,
                description: d->0,
                personality: p->0,
                scenario: s->0,
                system_prompt: y->0,
            },
        )
    } else {
        None
    }
}

/// The card `text` describes: a V2 card's `data` when it reads as card
/// fields, else the top level when that does; `None` when neither does or
/// `text` is not JSON.
pub open spec fn card_of(text: Seq<char>) -> Option<CardModel> {
    if !json_valid(text) {
        None
    } else if card_at(text, "/data"@) is Some {
        card_at(text, "/data"@)
    } else {
        card_at(text, Seq::empty())
    }
}

/// Reads the card fields at `base` (see [`card_at`]).
fn read_card_at(doc: &JsonDoc, base: &str) -> (r: Option<CharacterData>)
    ensures
        r matches Some(c) ==> card_at(doc.source(), base@) == Some(c@),
        r is None ==> card_at(doc.source(), base@) is None,
{
    let b = string_from(base);
    let np = pointer_to(&b, "/name");
    let dp = pointer_to(&b, "/description");
    let pp = pointer_to(&b, "/personality");
    let sp = pointer_to(&b, "/scenario");
    let yp = pointer_to(&b, "/system_prompt");
    let is_obj = match doc.lookup(base) {
        JsonLookup::Object => true,
        _ => false,
    };
    match (is_obj, read_opt_str(doc, &np), read_opt_str(doc, &dp), read_opt_str(doc, &pp), read_opt_str(doc, &sp), read_opt_str(doc, &yp)) {
        (true, Some(name), Some(description), Some(personality), Some(scenario), Some(system_prompt)) => {
            let c = CharacterData { name, description, personality, scenario, system_prompt };
            Some(c)
        },
        _ => None,
    }
}

/// Reads a character card (see [`card_of`]).
pub fn parse_card(card_json: &str) -> (r: Option<CharacterData>)
    ensures
        r matches Some(c) ==> card_of(card_json@) == Some(c@),
        r is None ==> card_of(card_json@) is None,
{
    let doc = match JsonDoc::parse(card_json) {
        Some(d) => d,
        None => return None,
    };
    match read_card_at(&doc, "/data") {
        Some(c) => Some(c),
        None => {
            proof {
                reveal_strlit("");
            }
            assert(""@ =~= Seq::<char>::empty());
            read_card_at(&doc, "")
        },
    }
}

// ---------------------------------------------------------------------------
// The lorebook
// ---------------------------------------------------------------------------

/// The pointer to the `i`-th entry.
pub open spec fn entry_base(i: nat) -> Seq<char> {
    "/entries"@ + seq!['/'] + decimal(i)
}

/// The first `m` elements of the array at `base`, when all are strings.
pub open spec fn strings_at(text: Seq<char>, base: Seq<char>, m: nat) -> Option<Seq<Seq<char>>>
    decreases m,
{
    if m == 0 {
        Some(Seq::empty())
    } else {
        match (
            strings_at(text, base, (m - 1) as nat),
            json_at(text, base + seq!['/'] + decimal((m - 1) as nat)),
        ) {
            (Some(ks), LookupModel::Str(k)) => Some(ks.push(k)),
            _ => None,
        }
    }
}

/// The `i`-th entry of the lorebook `text`: an object with an array of
/// string `keys`, a string `content`, and optional `enabled` (boolean),
/// `priority` (integer within `i32`) and `comment` (string).
pub open spec fn entry_at(text: Seq<char>, i: nat) -> Option<EntryModel> {
    let base = entry_base(i);
    let e = opt_bool(json_at(text, base + "/enabled"@));
    let p = opt_i32(json_at(text, base + "/priority"@));
    let c = opt_str(json_at(text, base + "/comment"@));
    if json_at(text, base) is Object && e is Some && p is Some && c is Some {
        match (json_at(text, base + "/keys"@), json_at(text, base + "/content"@)) {
            (LookupModel::Array(m), LookupModel::Str(content)) => match strings_at(
                text,
                base + "/keys"@,
                m,
            ) {
                Some(keys) => Some(
                    EntryModel {
                        keys,
                        content,
                        enabled: e->0,
                        priority: p->0,
                        comment: c->0,
                    },
                ),
                None => None,
            },
            _ => None,
        }
    } else {
        None
    }
}

/// The first `n` entries, or `None` when one of them reads as no entry.
pub open spec fn entries_at(text: Seq<char>, n: nat) -> Option<Seq<EntryModel>>
    decreases n,
{
    if n == 0 {
        Some(Seq::empty())
    } else {
        match (entries_at(text, (n - 1) as nat), entry_at(text, (n - 1) as nat)) {
            (Some(s), Some(e)) => Some(s.push(e)),
            _ => None,
        }
    }
}

/// The entries of the lorebook `text`: `None` unless it is a JSON object
/// whose `entries` is an array of entries.
pub open spec fn lorebook_of(text: Seq<char>) -> Option<Seq<EntryModel>> {
    if !json_valid(text) || !(json_at(text, Seq::empty()) is Object) {
        None
    } else {
        match json_at(text, "/entries"@) {
            LookupModel::Array(n) => entries_at(text, n),
            _ => None,
        }
    }
}

pub proof fn lemma_entries_at_none(text: Seq<char>, m: nat, k: nat)
    requires
        m <= k,
        entries_at(text, m) is None,
    ensures
        entries_at(text, k) is None,
    decreases k - m,
{
    if m < k {
        lemma_entries_at_none(text, (m + 1) as nat, k);
    }
}

pub proof fn lemma_strings_at_none(text: Seq<char>, base: Seq<char>, m: nat, k: nat)
    requires
        m <= k,
        strings_at(text, base, m) is None,
    ensures
        strings_at(text, base, k) is None,
    decreases k - m,
{
    if m < k {
        lemma_strings_at_none(text, base, (m + 1) as nat, k);
    }
}

/// Reads the string array at `base` of `m` elements (see [`strings_at`]).
fn read_strings(doc: &JsonDoc, base: &String, m: usize) -> (r: Option<Vec<String>>)
    ensures
        r matches Some(v) ==> strings_at(doc.source(), base@, m as nat) == Some(string_views(v@)),
        r is None ==> strings_at(doc.source(), base@, m as nat) is None,
{
    let ghost text = doc.source();
    let mut out: Vec<String> = Vec::new();
    let mut j: usize = 0;
    while j < m
        invariant
            j <= m,
            text == doc.source(),
            strings_at(text, base@, j as nat) == Some(string_views(out@)),
        decreases m - j,
    {
        let p = index_pointer(base.as_str(), j);
        let ghost before = string_views(out@);
        match doc.lookup(p.as_str()) {
            JsonLookup::Str(k) => {
                let ghost kv = k@;
                out.push(k);
                assert(string_views(out@) =~= before.push(kv));
            },
            _ => {
                proof {
                    lemma_strings_at_none(text, base@, (j + 1) as nat, m as nat);
                }
                return None;
            },
        }
        j = j + 1;
    }
    Some(out)
}

/// Reads the `i`-th entry (see [`entry_at`]).
fn read_entry(doc: &JsonDoc, i: usize) -> (r: Option<LorebookEntry>)
    ensures
        r matches Some(e) ==> entry_at(doc.source(), i as nat) == Some(e@),
        r is None ==> entry_at(doc.source(), i as nat) is None,
{
    let base = index_pointer("/entries", i);
    assert(base@ == entry_base(i as nat));
    let ep = pointer_to(&base, "/enabled");
    let pp = pointer_to(&base, "/priority");
    let cp = pointer_to(&base, "/comment");
    let kp = pointer_to(&base, "/keys");
    let tp = pointer_to(&base, "/content");
    let is_obj = match doc.lookup(base.as_str()) {
        JsonLookup::Object => true,
        _ => false,
    };
    let enabled = read_opt_bool(doc, &ep);
    let priority = read_opt_i32(doc, &pp);
    let comment = read_opt_str(doc, &cp);
    let (enabled, priority, comment) = match (is_obj, enabled, priority, comment) {
        (true, Some(e), Some(p), Some(c)) => (e, p, c),
        _ => return None,
    };
    let m = match doc.lookup(kp.as_str()) {
        JsonLookup::Array(m) => m,
        _ => return None,
    };
    let content = match doc.lookup(tp.as_str()) {
        JsonLookup::Str(c) => c,
        _ => return None,
    };
    let keys = match read_strings(doc, &kp, m) {
        Some(k) => k,
        None => return None,
    };
    let e = LorebookEntry { keys, content, enabled, priority, comment };
    Some(e)
}

/// Reads a lorebook (see [`lorebook_of`]).
pub fn parse_lorebook(lorebook_json: &str) -> (r: Option<Lorebook>)
    ensures
        r matches Some(lb) ==> lorebook_of(lorebook_json@) == Some(lb@),
        r is None ==> lorebook_of(lorebook_json@) is None,
{
    let doc = match JsonDoc::parse(lorebook_json) {
        Some(d) => d,
        None => return None,
    };
    let ghost text = lorebook_json@;
    proof {
        reveal_strlit("");
    }
    let top = doc.lookup("");
    assert(""@ =~= Seq::<char>::empty());
    match top {
        JsonLookup::Object => {},
        _ => return None,
    }
    let n = match doc.lookup("/entries") {
        JsonLookup::Array(n) => n,
        _ => return None,
    };
    let mut out: Vec<LorebookEntry> = Vec::new();
    let mut i: usize = 0;
    while i < n
        invariant
            i <= n,
            doc.source() == text,
            text == lorebook_json@,
            entries_at(text, i as nat) == Some(entry_views(out@)),
            lorebook_of(text) == entries_at(text, n as nat),
        decreases n - i,
    {
        let ghost before = entry_views(out@);
        match read_entry(&doc, i) {
            Some(e) => {
                let ghost ev = e@;
                out.push(e);
                assert(entry_views(out@) =~= before.push(ev));
            },
            None => {
                proof {
                    lemma_entries_at_none(text, (i + 1) as nat, n as nat);
                }
                return None;
            },
        }
        i = i + 1;
    }
    Some(Lorebook { entries: out })
}

// ---------------------------------------------------------------------------
// The orchestrator
// ---------------------------------------------------------------------------

/// A character card and a lorebook, each optional.
pub struct Orchestrator {
    pub card: Option<CharacterData>,
    pub lorebook: Option<Lorebook>,
}

/// The message when a card reads as neither form.
pub open spec fn card_error_text() -> Seq<char> {
    "无法解析角色卡 JSON，格式不符合 Tavern V2 或内层结构"@
}

/// What follows the prefix of a lorebook error: the parser's message for
/// text that is not JSON, else a description of the expected shape.
pub open spec fn lorebook_error_detail(text: Seq<char>) -> Seq<char> {
    if json_valid(text) {
        "entries 须为条目数组，每个条目含字符串数组 keys 与字符串 content"@
    } else {
        crate::json::json_error(text)
    }
}

/// The card of `card_json`, when given.
pub open spec fn card_model(card: Option<CharacterData>) -> Option<CardModel> {
    match card {
        Some(c) => Some(c@),
        None => None,
    }
}

/// The fields the prompt takes from a card, with their fallbacks.
pub struct CardFields {
    pub char_name: Seq<char>,
    pub description: Seq<char>,
    pub personality: Seq<char>,
    pub scenario: Seq<char>,
    pub system_override: Option<Seq<char>>,
}

pub open spec fn or_empty(o: Option<Seq<char>>) -> Seq<char> {
    match o {
        Some(s) => s,
        None => Seq::empty(),
    }
}

/// The card's fields: a missing name reads `AI`, other missing texts read
/// empty; without a card, all of these.
pub open spec fn card_fields(card: Option<CardModel>) -> CardFields {
    match card {
        Some(c) => CardFields {
            char_name: match c.name {
                Some(n) => n,
                None => "AI"@,
            },
            description: or_empty(c.description),
            personality: or_empty(c.personality),
            scenario: or_empty(c.scenario),
            system_override: c.system_prompt,
        },
        None => CardFields {
            char_name: "AI"@,
            description: Seq::empty(),
            personality: Seq::empty(),
            scenario: Seq::empty(),
            system_override: None,
        },
    }
}

/// The opening of the prompt: the card's own system prompt, or the
/// role-play instruction.
pub open spec fn prompt_head(f: CardFields) -> Seq<char> {
    match f.system_override {
        Some(ov) => ov + seq!['\n'],
        None => "You are going to roleplay as "@ + f.char_name
            + ". Always stay in character and act naturally.\n"@,
    }
}

/// The section `[HEAD]:` with `text`, when `text` is not empty.
pub open spec fn section(head: Seq<char>, text: Seq<char>) -> Seq<char> {
    if text.len() > 0 {
        "["@ + head + "]:\n"@ + text + "\n\n"@
    } else {
        Seq::empty()
    }
}

/// The personality, description and scenario sections, each only when
/// non-empty.
pub open spec fn card_sections(f: CardFields) -> Seq<char> {
    section(f.char_name + "'s Personality"@, f.personality) + section(
        f.char_name + "'s Appearance & Description"@,
        f.description,
    ) + section("Scenario"@, f.scenario)
}

/// The triggered lore and a line feed, when there is any.
pub open spec fn lore_section(lore: Seq<char>) -> Seq<char> {
    if lore.len() > 0 {
        lore + seq!['\n']
    } else {
        Seq::empty()
    }
}

/// The macro `{{key}}`.
pub open spec fn macro_of(key: Seq<char>) -> Seq<char> {
    "{{"@ + key + "}}"@
}

pub open spec fn pair_views(v: Seq<(String, String)>) -> Seq<(Seq<char>, Seq<char>)> {
    v.map_values(|p: (String, String)| (p.0@, p.1@))
}

/// `p` with `{{key}}` replaced by the value of each variable in turn, the
/// keys `char` and `user` left out.
pub open spec fn with_variables(p: Seq<char>, vars: Seq<(Seq<char>, Seq<char>)>) -> Seq<char>
    decreases vars.len(),
{
    if vars.len() == 0 {
        p
    } else {
        let prev = with_variables(p, vars.drop_last());
        let (k, v) = vars.last();
        if k == "char"@ || k == "user"@ {
            prev
        } else {
            replace_all(prev, macro_of(k), v)
        }
    }
}

/// `p` after the variables, then `{{char}}` and `{{user}}`, are replaced.
pub open spec fn substituted(p: Seq<char>, vars: Seq<(Seq<char>, Seq<char>)>, char_name: Seq<char>, user_name: Seq<char>) -> Seq<char> {
    replace_all(
        replace_all(with_variables(p, vars), macro_of("char"@), char_name),
        macro_of("user"@),
        user_name,
    )
}

/// The basic system prompt.
pub open spec fn system_prompt(card: Option<CardModel>, user_name: Seq<char>, vars: Seq<(Seq<char>, Seq<char>)>, lore: Seq<char>) -> Seq<char> {
    let f = card_fields(card);
    substituted(prompt_head(f) + card_sections(f) + lore_section(lore), vars, f.char_name, user_name)
}

/// What the files of a character hold, each `None` when it could not be read.
pub struct CharacterFiles {
    /// The character's id.
    pub id: String,
    /// `gating/checkpoints.md` (or the older `checkpoints.md`).
    pub checkpoints: Option<String>,
    /// `known.md`.
    pub known: Option<String>,
    /// `disclosure.json`.
    pub disclosure: Option<String>,
    /// `state/live.json`.
    pub live_state: Option<String>,
    /// `state/schema.json`.
    pub state_schema: Option<String>,
}

/// The current checkpoint of a character: `CP-1` for an empty id or without
/// the file, else what the file names (see [`checkpoint_in`]).
pub open spec fn current_checkpoint(id: Seq<char>, checkpoints: Option<Seq<char>>) -> Seq<char> {
    match checkpoints {
        Some(c) => if id.len() == 0 {
            "CP-1"@
        } else {
            checkpoint_in(c)
        },
        None => "CP-1"@,
    }
}

/// The known-information section of a character: what may be known at its
/// current checkpoint, under a header naming it, when that is not empty.
pub open spec fn known_section(name: Seq<char>, files: CharacterFiles) -> Seq<char> {
    let cp = current_checkpoint(files.id@, opt_view(files.checkpoints));
    let known = filtered_known(opt_view(files.known), opt_view(files.disclosure), cp);
    if known.len() > 0 {
        "\n["@ + name + "'s Known Information & Clues (Current CP: "@ + cp + ")]:\n"@ + known
            + "\n\n"@
    } else {
        Seq::empty()
    }
}

/// The preset's prompts and a line feed, when they give any text.
pub open spec fn preset_section(preset: Option<Seq<char>>, overrides: Option<Seq<Seq<char>>>, char_name: Seq<char>, user_name: Seq<char>, last_message: Seq<char>) -> Seq<char> {
    match preset {
        None => Seq::empty(),
        Some(p) => {
            let pp = match preset_prompts_of(p) {
                None => Seq::empty(),
                Some(ps) => rendered(joined_prompts(ps, overrides), char_name, user_name, last_message),
            };
            if pp.len() > 0 {
                pp + seq!['\n']
            } else {
                Seq::empty()
            }
        },
    }
}

// ---------------------------------------------------------------------------
// The live game state
// ---------------------------------------------------------------------------

/// The pointer to the `i`-th field of a state schema.
pub open spec fn field_base(i: nat) -> Seq<char> {
    "/fields"@ + seq!['/'] + decimal(i)
}

/// The `key` of the `i`-th field, or nothing.
pub open spec fn field_key(schema: Seq<char>, i: nat) -> Seq<char> {
    match json_at(schema, field_base(i) + "/key"@) {
        LookupModel::Str(k) => k,
        _ => Seq::empty(),
    }
}

/// The `label` of the `i`-th field, or its key.
pub open spec fn field_label(schema: Seq<char>, i: nat) -> Seq<char> {
    match json_at(schema, field_base(i) + "/label"@) {
        LookupModel::Str(l) => l,
        _ => field_key(schema, i),
    }
}

/// The pointer to the member `key` of the top-level object.
pub open spec fn key_pointer(key: Seq<char>) -> Seq<char> {
    seq!['/'] + escape_token(key)
}

pub open spec fn is_number(l: LookupModel) -> bool {
    l is Int || l is BigUint || l is OtherNumber
}

/// The state is an object with a member `key`.
pub open spec fn state_has(state: Seq<char>, key: Seq<char>) -> bool {
    json_at(state, Seq::empty()) is Object && !(json_at(state, key_pointer(key)) is Missing)
}

/// The maximum shown beside the `i`-th field: the state's `KEY_max` when the
/// state has it (if it is a number), else the field's own `max` (if a number).
pub open spec fn field_max(state: Seq<char>, schema: Seq<char>, i: nat) -> Option<Seq<char>> {
    let kmax = field_key(schema, i) + "_max"@;
    if state_has(state, kmax) {
        if is_number(json_at(state, key_pointer(kmax))) {
            Some(json_compact(state, key_pointer(kmax)))
        } else {
            None
        }
    } else {
        let mp = field_base(i) + "/max"@;
        if is_number(json_at(schema, mp)) {
            Some(json_compact(schema, mp))
        } else {
            None
        }
    }
}

/// The row of the `i`-th field, when the state has its key:
/// `- LABEL (KEY): VALUE` and `/MAX` when there is a maximum.
pub open spec fn field_row(state: Seq<char>, schema: Seq<char>, i: nat) -> Seq<char> {
    let key = field_key(schema, i);
    if state_has(state, key) {
        "- "@ + field_label(schema, i) + " ("@ + key + "): "@ + json_compact(state, key_pointer(key))
            + match field_max(state, schema, i) {
            Some(m) => seq!['/'] + m,
            None => Seq::empty(),
        } + seq!['\n']
    } else {
        Seq::empty()
    }
}

/// The rows of the first `n` fields.
pub open spec fn field_rows(state: Seq<char>, schema: Seq<char>, n: nat) -> Seq<char>
    decreases n,
{
    if n == 0 {
        Seq::empty()
    } else {
        field_rows(state, schema, (n - 1) as nat) + field_row(state, schema, (n - 1) as nat)
    }
}

/// The keys of the first `n` fields that are strings, in order.
pub open spec fn string_keys(schema: Seq<char>, n: nat) -> Seq<Seq<char>>
    decreases n,
{
    if n == 0 {
        Seq::empty()
    } else {
        let prev = string_keys(schema, (n - 1) as nat);
        match json_at(schema, field_base((n - 1) as nat) + "/key"@) {
            LookupModel::Str(k) => prev.push(k),
            _ => prev,
        }
    }
}

/// The texts joined with `, ` between them.
pub open spec fn comma_joined(ls: Seq<Seq<char>>) -> Seq<char>
    decreases ls.len(),
{
    if ls.len() == 0 {
        Seq::empty()
    } else if ls.len() == 1 {
        ls[0]
    } else {
        comma_joined(ls.drop_last()) + ", "@ + ls.last()
    }
}

/// The number of fields of a schema that is JSON with a `fields` array.
pub open spec fn schema_fields(schema: Option<Seq<char>>) -> Option<nat> {
    match schema {
        Some(s) => if json_valid(s) {
            match json_at(s, "/fields"@) {
                LookupModel::Array(n) => Some(n),
                _ => None,
            }
        } else {
            None
        },
        None => None,
    }
}

/// The live-state section: nothing unless the state is JSON; with a schema,
/// a labelled row per field, the raw state and the list of keys to update;
/// without one, the state as indented JSON and the update instruction.
pub open spec fn live_state_section(state: Option<Seq<char>>, schema: Option<Seq<char>>) -> Seq<char> {
    match state {
        None => Seq::empty(),
        Some(st) => if !json_valid(st) {
            Seq::empty()
        } else {
            "[Current State]:\n"@ + match schema_fields(schema) {
                Some(n) => field_rows(st, schema->0, n) + "(raw: "@ + json_compact(st, Seq::empty())
                    + ")\n"@
                    + "When any state value changes, output the complete updated state at the very end as: <state>{...}</state> (keys: "@
                    + comma_joined(string_keys(schema->0, n)) + ")\n\n"@,
                None => "```json\n"@ + json_pretty(st) + "\n```\n"@
                    + "When any state value changes during your response, output the complete updated state at the very end of your response as: <state>{...}</state>\n\n"@,
            }
        },
    }
}

/// The full system prompt with a character's files and a preset.
pub open spec fn system_prompt_with_preset(
    card: Option<CardModel>,
    files: Option<CharacterFiles>,
    user_name: Seq<char>,
    vars: Seq<(Seq<char>, Seq<char>)>,
    lore: Seq<char>,
    preset: Option<Seq<char>>,
    overrides: Option<Seq<Seq<char>>>,
    last_message: Seq<char>,
) -> Seq<char> {
    let f = card_fields(card);
    let known = match files {
        Some(fs) => known_section(f.char_name, fs),
        None => Seq::empty(),
    };
    let live = match files {
        Some(fs) => live_state_section(opt_view(fs.live_state), opt_view(fs.state_schema)),
        None => Seq::empty(),
    };
    substituted(
        prompt_head(f) + known + card_sections(f) + lore_section(lore) + live + preset_section(
            preset,
            overrides,
            f.char_name,
            user_name,
            last_message,
        ),
        vars,
        f.char_name,
        user_name,
    )
}


// ---------------------------------------------------------------------------
// Computing the prompt
// ---------------------------------------------------------------------------

/// The macro `{{key}}` for `key`.
fn macro_pattern(key: &str) -> (r: String)
    ensures
        r@ == macro_of(key@),
        r@.len() > 0,
{
    proof {
        reveal_strlit("{{");
        reveal_strlit("}}");
    }
    let mut p = String::new();
    push_str(&mut p, "{{");
    push_str(&mut p, key);
    push_str(&mut p, "}}");
    p
}

/// Whether the text `s` is exactly `t`.
fn same_text(s: &str, t: &str) -> (r: bool)
    ensures
        r == (s@ == t@),
{
    let a = chars_of(s);
    let b = chars_of(t);
    chars_eq(&a, &b)
}

/// `p` after the variables, `{{char}}` and `{{user}}` are replaced (see
/// [`substituted`]).
fn substitute(p: String, vars: &Vec<(String, String)>, char_name: &str, user_name: &str) -> (r:
    String)
    ensures
        r@ == substituted(p@, pair_views(vars@), char_name@, user_name@),
{
    let ghost pv = pair_views(vars@);
    let ghost p0 = p@;
    let mut cur = p;
    let mut i: usize = 0;
    while i < vars.len()
        invariant
            i <= vars.len(),
            pv == pair_views(vars@),
            cur@ == with_variables(p0, pv.take(i as int)),
        decreases vars.len() - i,
    {
        proof {
            assert(pv.take(i + 1).drop_last() =~= pv.take(i as int));
            assert(pv.take(i + 1).last() == pv[i as int]);
        }
        let k = &vars[i].0;
        let v = &vars[i].1;
        if !same_text(k.as_str(), "char") && !same_text(k.as_str(), "user") {
            let pat = macro_pattern(k.as_str());
            cur = replace(cur.as_str(), pat.as_str(), v.as_str());
        }
        i = i + 1;
    }
    assert(pv.take(vars.len() as int) =~= pv);
    let pc = macro_pattern("char");
    let cur = replace(cur.as_str(), pc.as_str(), char_name);
    let pu = macro_pattern("user");
    replace(cur.as_str(), pu.as_str(), user_name)
}

/// A copy of an optional string.
fn copy_opt(o: &Option<String>) -> (r: Option<String>)
    ensures
        opt_view(r) == opt_view(*o),
{
    match o {
        Some(s) => Some(string_from(s.as_str())),
        None => None,
    }
}

/// The text of an optional string, or nothing.
fn text_or_empty(o: &Option<String>) -> (r: String)
    ensures
        r@ == or_empty(opt_view(*o)),
{
    match o {
        Some(s) => string_from(s.as_str()),
        None => String::new(),
    }
}

/// Appends the section `[HEAD]:\nTEXT\n\n` when `text` is not empty.
fn push_section(p: &mut String, head: &String, text: &String)
    ensures
        final(p)@ == old(p)@ + section(head@, text@),
{
    if !text.as_str().is_empty() {
        push_str(p, "[");
        push_str(p, head.as_str());
        push_str(p, "]:\n");
        push_str(p, text.as_str());
        push_str(p, "\n\n");
        assert(p@ =~= old(p)@ + section(head@, text@));
    } else {
        assert(p@ =~= old(p)@ + Seq::<char>::empty());
    }
}

/// `name` followed by `suffix`.
fn concat(name: &String, suffix: &str) -> (r: String)
    ensures
        r@ == name@ + suffix@,
{
    let mut s = string_from(name.as_str());
    push_str(&mut s, suffix);
    s
}

/// Appends the value of `key` in the state, when it has one (see [`field_row`]).
fn push_field_row(
    p: &mut String,
    state: &JsonDoc,
    state_is_object: bool,
    schema: &JsonDoc,
    i: usize,
    key: &String,
    label: &String,
)
    requires
        state_is_object == (json_at(state.source(), Seq::empty()) is Object),
        key@ == field_key(schema.source(), i as nat),
        label@ == field_label(schema.source(), i as nat),
    ensures
        final(p)@ == old(p)@ + field_row(state.source(), schema.source(), i as nat),
{
    let ghost st = state.source();
    let ghost sc = schema.source();
    let mut kptr = String::new();
    push_token(&mut kptr, key.as_str());
    assert(kptr@ =~= key_pointer(key@));
    let found = if state_is_object {
        match state.lookup(kptr.as_str()) {
            JsonLookup::Missing => false,
            _ => true,
        }
    } else {
        false
    };
    if !found {
        assert(p@ =~= old(p)@ + Seq::<char>::empty());
        return;
    }
    let val = state.compact(kptr.as_str());
    let kmax = concat(key, "_max");
    let mut mptr = String::new();
    push_token(&mut mptr, kmax.as_str());
    assert(mptr@ =~= key_pointer(kmax@));
    let has_max_in_state = match state.lookup(mptr.as_str()) {
        JsonLookup::Missing => false,
        _ => true,
    };
    let max_text: Option<String> = if has_max_in_state {
        match state.lookup(mptr.as_str()) {
            JsonLookup::Int(_) | JsonLookup::BigUint(_) | JsonLookup::OtherNumber => Some(state.compact(mptr.as_str())),
            _ => None,
        }
    } else {
        let fb = index_pointer("/fields", i);
        let fmp = pointer_to(&fb, "/max");
        match schema.lookup(fmp.as_str()) {
            JsonLookup::Int(_) | JsonLookup::BigUint(_) | JsonLookup::OtherNumber => Some(schema.compact(fmp.as_str())),
            _ => None,
        }
    };
    assert(match max_text {
        Some(m) => field_max(st, sc, i as nat) == Some(m@),
        None => field_max(st, sc, i as nat) is None,
    });
    let ghost before = p@;
    push_str(p, "- ");
    push_str(p, label.as_str());
    push_str(p, " (");
    push_str(p, key.as_str());
    push_str(p, "): ");
    push_str(p, val.as_str());
    match &max_text {
        Some(m) => {
            push_char(p, '/');
            push_str(p, m.as_str());
        },
        None => {},
    }
    push_char(p, '\n');
    assert(p@ =~= before + field_row(st, sc, i as nat));
}

/// Appends the live-state section (see [`live_state_section`]); without a
/// state, or with one that is not JSON, the prompt is left as it was.
#[verifier::rlimit(40)]
#[verifier::spinoff_prover]
pub fn inject_live_state(state_json: Option<&str>, schema_json: Option<&str>, prompt: &mut String)
    ensures
        final(prompt)@ == old(prompt)@ + live_state_section(
            match state_json {
                Some(s) => Some(s@),
                None => None,
            },
            match schema_json {
                Some(s) => Some(s@),
                None => None,
            },
        ),
        (match state_json {
            Some(s) => !json_valid(s@),
            None => true,
        }) ==> final(prompt)@ == old(prompt)@,
{
    let ghost schema_v = match schema_json {
        Some(s) => Some(s@),
        None => None,
    };
    let st_text = match state_json {
        None => {
            assert(prompt@ =~= old(prompt)@ + Seq::<char>::empty());
            return;
        },
        Some(s) => s,
    };
    let state = match JsonDoc::parse(st_text) {
        None => {
            assert(prompt@ =~= old(prompt)@ + Seq::<char>::empty());
            return;
        },
        Some(d) => d,
    };
    let ghost st = st_text@;
    proof {
        reveal_strlit("");
    }
    assert(""@ =~= Seq::<char>::empty());
    let state_is_object = match state.lookup("") {
        JsonLookup::Object => true,
        _ => false,
    };
    let schema: Option<(JsonDoc, usize)> = match schema_json {
        None => None,
        Some(t) => match JsonDoc::parse(t) {
            None => None,
            Some(d) => match d.lookup("/fields") {
                JsonLookup::Array(n) => Some((d, n)),
                _ => None,
            },
        },
    };
    assert(match schema {
        Some((d, n)) => schema_fields(schema_v) == Some(n as nat) && d.source() == schema_v->0,
        None => schema_fields(schema_v) is None,
    });
    let ghost start = prompt@;
    push_str(prompt, "[Current State]:\n");
    match schema {
        Some((sd, n)) => {
            let ghost sc = sd.source();
            let mut keys = String::new();
            let mut any_key = false;
            let mut i: usize = 0;
            while i < n
                invariant
                    i <= n,
                    sc == sd.source(),
                    st == state.source(),
                    state_is_object == (json_at(st, Seq::empty()) is Object),
                    prompt@ == start + "[Current State]:\n"@ + field_rows(st, sc, i as nat),
                    keys@ == comma_joined(string_keys(sc, i as nat)),
                    any_key == (string_keys(sc, i as nat).len() > 0),
                decreases n - i,
            {
                let fb = index_pointer("/fields", i);
                assert(fb@ == field_base(i as nat));
                let kp = pointer_to(&fb, "/key");
                let lp = pointer_to(&fb, "/label");
                let (key, is_str) = match sd.lookup(kp.as_str()) {
                    JsonLookup::Str(k) => (k, true),
                    _ => (String::new(), false),
                };
                let label = match sd.lookup(lp.as_str()) {
                    JsonLookup::Str(l) => l,
                    _ => string_from(key.as_str()),
                };
                push_field_row(prompt, &state, state_is_object, &sd, i, &key, &label);
                if is_str {
                    let ghost ks = string_keys(sc, i as nat);
                    if any_key {
                        push_str(&mut keys, ", ");
                    }
                    push_str(&mut keys, key.as_str());
                    proof {
                        let ks2 = ks.push(key@);
                        assert(ks2.drop_last() =~= ks);
                        if ks.len() == 0 {
                            assert(keys@ =~= key@);
                        }
                    }
                    any_key = true;
                }
                i = i + 1;
            }
            let raw = state.compact("");
            push_str(prompt, "(raw: ");
            push_str(prompt, raw.as_str());
            push_str(prompt, ")\n");
            push_str(
                prompt,
                "When any state value changes, output the complete updated state at the very end as: <state>{...}</state> (keys: ",
            );
            push_str(prompt, keys.as_str());
            push_str(prompt, ")\n\n");
        },
        None => {
            let pretty = state.pretty();
            push_str(prompt, "```json\n");
            push_str(prompt, pretty.as_str());
            push_str(prompt, "\n```\n");
            push_str(
                prompt,
                "When any state value changes during your response, output the complete updated state at the very end of your response as: <state>{...}</state>\n\n",
            );
        },
    }
    assert(prompt@ =~= old(prompt)@ + live_state_section(Some(st), schema_v));
}

/// [`inject_live_state`], under the name the tests use.
pub fn inject_live_state_for_test(state_json: Option<&str>, schema_json: Option<&str>, prompt: &mut String)
    ensures
        final(prompt)@ == old(prompt)@ + live_state_section(
            match state_json {
                Some(s) => Some(s@),
                None => None,
            },
            match schema_json {
                Some(s) => Some(s@),
                None => None,
            },
        ),
{
    inject_live_state(state_json, schema_json, prompt);
}

/// The fields of an optional card, computed (see [`card_fields`]).
fn fields_of(card: &Option<CharacterData>) -> (r: (String, String, String, String, Option<String>))
    ensures
        r.0@ == card_fields(card_model(*card)).char_name,
        r.1@ == card_fields(card_model(*card)).description,
        r.2@ == card_fields(card_model(*card)).personality,
        r.3@ == card_fields(card_model(*card)).scenario,
        opt_view(r.4) == card_fields(card_model(*card)).system_override,
{
    match card {
        Some(c) => {
            let name = match &c.name {
                Some(n) => string_from(n.as_str()),
                None => string_from("AI"),
            };
            (
                name,
                text_or_empty(&c.description),
                text_or_empty(&c.personality),
                text_or_empty(&c.scenario),
                copy_opt(&c.system_prompt),
            )
        },
        None => (string_from("AI"), String::new(), String::new(), String::new(), None),
    }
}

/// Appends the head of the prompt (see [`prompt_head`]).
fn push_head(p: &mut String, name: &String, system_override: &Option<String>)
    ensures
        final(p)@ == old(p)@ + prompt_head(
            CardFields {
                char_name: name@,
                description: Seq::empty(),
                personality: Seq::empty(),
                scenario: Seq::empty(),
                system_override: opt_view(*system_override),
            },
        ),
{
    match system_override {
        Some(ov) => {
            push_str(p, ov.as_str());
            push_char(p, '\n');
        },
        None => {
            push_str(p, "You are going to roleplay as ");
            push_str(p, name.as_str());
            push_str(p, ". Always stay in character and act naturally.\n");
        },
    }
}

/// Appends the card sections and the lore (see [`card_sections`], [`lore_section`]).
fn push_card_sections(
    p: &mut String,
    name: &String,
    description: &String,
    personality: &String,
    scenario: &String,
    lore: &str,
)
    ensures
        final(p)@ == old(p)@ + card_sections(
            CardFields {
                char_name: name@,
                description: description@,
                personality: personality@,
                scenario: scenario@,
                system_override: None,
            },
        ) + lore_section(lore@),
{
    let ghost before = p@;
    let h1 = concat(name, "'s Personality");
    push_section(p, &h1, personality);
    let h2 = concat(name, "'s Appearance & Description");
    push_section(p, &h2, description);
    let h3 = string_from("Scenario");
    push_section(p, &h3, scenario);
    let ghost mid = p@;
    if !lore.is_empty() {
        push_str(p, lore);
        push_char(p, '\n');
    }
    assert(p@ =~= before + card_sections(
        CardFields {
            char_name: name@,
            description: description@,
            personality: personality@,
            scenario: scenario@,
            system_override: None,
        },
    ) + lore_section(lore@));
}

/// What the orchestrator owes for a card and a lorebook: the error for an
/// unreadable card, else the one for an unreadable lorebook, else nothing.
pub open spec fn new_error(card_json: Option<Seq<char>>, lorebook_json: Option<Seq<char>>) -> Option<Seq<char>> {
    match card_json {
        Some(c) if card_of(c) is None => Some(card_error_text()),
        _ => match lorebook_json {
            Some(l) if lorebook_of(l) is None => Some(
                "解析世界书 JSON 失败: "@ + lorebook_error_detail(l),
            ),
            _ => None,
        },
    }
}

impl Orchestrator {
    /// Reads the card (a V2 card or its inner object) and the lorebook, each
    /// when given.
    pub fn new(card_json: Option<&str>, lorebook_json: Option<&str>) -> (r: Result<
        Orchestrator,
        AirpError,
    >)
        ensures
            ({
                let cj = match card_json {
                    Some(c) => Some(c@),
                    None => None,
                };
                let lj = match lorebook_json {
                    Some(l) => Some(l@),
                    None => None,
                };
                match new_error(cj, lj) {
                    Some(m) => r matches Err(AirpError::Orchestrator(e)) && e@ == m,
                    None => r matches Ok(o) && card_model(o.card) == (match cj {
                        Some(c) => card_of(c),
                        None => None,
                    }) && (match o.lorebook {
                        Some(lb) => lj matches Some(l) && lorebook_of(l) == Some(lb@),
                        None => lj is None,
                    }),
                }
            }),
    {
        let card = match card_json {
            Some(json) => match parse_card(json) {
                Some(c) => Some(c),
                None => {
                    let m = string_from("无法解析角色卡 JSON，格式不符合 Tavern V2 或内层结构");
                    return Err(AirpError::Orchestrator(m));
                },
            },
            None => None,
        };
        let lorebook = match lorebook_json {
            Some(json) => match parse_lorebook(json) {
                Some(lb) => Some(lb),
                None => {
                    let mut m = string_from("解析世界书 JSON 失败: ");
                    match JsonDoc::parse_or_error(json) {
                        Err(e) => push_str(&mut m, e.as_str()),
                        Ok(_) => push_str(
                            &mut m,
                            "entries 须为条目数组，每个条目含字符串数组 keys 与字符串 content",
                        ),
                    }
                    return Err(AirpError::Orchestrator(m));
                },
            },
            None => None,
        };
        Ok(Orchestrator { card, lorebook })
    }

    /// The lore that `text` triggers, or nothing without a lorebook.
    pub fn trigger_lorebook(&self, text: &str) -> (r: String)
        ensures
            r@ == match self.lorebook {
                Some(lb) => trigger_result(lb@, text@),
                None => Seq::empty(),
            },
    {
        match &self.lorebook {
            Some(lb) => lb.trigger(text),
            None => String::new(),
        }
    }

    /// The current checkpoint of the character `character_id`, from the text
    /// of its `checkpoints.md` when it could be read.
    pub fn get_current_checkpoint(character_id: &str, checkpoints_md: Option<&str>) -> (r: String)
        ensures
            r@ == current_checkpoint(
                character_id@,
                match checkpoints_md {
                    Some(c) => Some(c@),
                    None => None,
                },
            ),
    {
        match checkpoints_md {
            Some(c) => if character_id.is_empty() {
                string_from("CP-1")
            } else {
                checkpoint_of(c)
            },
            None => string_from("CP-1"),
        }
    }

    /// What `known.md` may reveal at `current_cp` (see [`filtered_known`]).
    pub fn load_filtered_known(known_md: Option<&str>, disclosure_json: Option<&str>, current_cp: &str) -> (r: String)
        ensures
            r@ == filtered_known(
                match known_md {
                    Some(k) => Some(k@),
                    None => None,
                },
                match disclosure_json {
                    Some(d) => Some(d@),
                    None => None,
                },
                current_cp@,
            ),
    {
        filter_known(known_md, disclosure_json, current_cp)
    }

    /// One turn of the story for `character_id` (see
    /// [`crate::gating::advance_gating`]); nothing for an empty id.
    pub fn advance_timeline_and_checkpoint(
        character_id: &str,
        timeline_md: &str,
        checkpoints_md: Option<&str>,
    ) -> (r: Option<crate::gating::GatingUpdate>)
        requires
            character_id@.len() > 0 ==> crate::gating::timeline_slot_in(timeline_md@) < u32::MAX,
        ensures
            character_id@.len() == 0 ==> r is None,
            character_id@.len() > 0 ==> (r matches Some(u) && u.slot
                == crate::gating::timeline_slot_in(timeline_md@) + 1 && u.timeline@
                == crate::gating::advanced_timeline(timeline_md@, u.slot as nat) && match checkpoints_md {
                Some(c) => u.checkpoints matches Some(n) && n@ == crate::gating::advanced_checkpoints(
                    c@,
                    u.slot as nat,
                ),
                None => u.checkpoints is None,
            }),
    {
        if character_id.is_empty() {
            return None;
        }
        Some(crate::gating::advance_gating(timeline_md, checkpoints_md))
    }

    /// The preset's prompts that are on, joined and rendered (see
    /// [`crate::preset::assemble_preset_prompts`]).
    pub fn assemble_preset_prompts(
        preset_json: &str,
        enabled_override_ids: Option<&Vec<String>>,
        char_name: &str,
        user_name: &str,
        last_message: &str,
    ) -> (r: String)
        ensures
            r@ == match preset_prompts_of(preset_json@) {
                None => Seq::empty(),
                Some(ps) => rendered(
                    joined_prompts(ps, override_view(enabled_override_ids)),
                    char_name@,
                    user_name@,
                    last_message@,
                ),
            },
    {
        crate::preset::assemble_preset_prompts(
            preset_json,
            enabled_override_ids,
            char_name,
            user_name,
            last_message,
        )
    }

    /// The macros of `text` expanded (see [`crate::preset::render_macros`]).
    pub fn render_macros(text: &str, char_name: &str, user_name: &str, last_message: &str) -> (r:
        String)
        ensures
            r@ == rendered(text@, char_name@, user_name@, last_message@),
    {
        crate::preset::render_macros(text, char_name, user_name, last_message)
    }

    /// The basic system prompt (see [`system_prompt`]): the variables are
    /// substituted in the order given.
    pub fn build_system_prompt(
        &self,
        user_name: &str,
        variables: &Vec<(String, String)>,
        triggered_lore: &str,
    ) -> (r: String)
        ensures
            r@ == system_prompt(card_model(self.card), user_name@, pair_views(variables@), triggered_lore@),
    {
        let (name, description, personality, scenario, system_override) = fields_of(&self.card);
        let mut prompt = String::new();
        push_head(&mut prompt, &name, &system_override);
        push_card_sections(&mut prompt, &name, &description, &personality, &scenario, triggered_lore);
        let ghost f = card_fields(card_model(self.card));
        assert(prompt@ =~= prompt_head(f) + card_sections(f) + lore_section(triggered_lore@));
        substitute(prompt, variables, name.as_str(), user_name)
    }

    /// The system prompt with a character's files and a preset (see
    /// [`system_prompt_with_preset`]).
    pub fn build_system_prompt_with_preset(
        &self,
        character: Option<&CharacterFiles>,
        user_name: &str,
        variables: &Vec<(String, String)>,
        triggered_lore: &str,
        preset_json: Option<&str>,
        enabled_override_ids: Option<&Vec<String>>,
        last_message: &str,
    ) -> (r: String)
        ensures
            r@ == system_prompt_with_preset(
                card_model(self.card),
                match character {
                    Some(c) => Some(*c),
                    None => None,
                },
                user_name@,
                pair_views(variables@),
                triggered_lore@,
                match preset_json {
                    Some(p) => Some(p@),
                    None => None,
                },
                override_view(enabled_override_ids),
                last_message@,
            ),
    {
        let (name, description, personality, scenario, system_override) = fields_of(&self.card);
        let ghost f = card_fields(card_model(self.card));
        let mut prompt = String::new();
        push_head(&mut prompt, &name, &system_override);
        let ghost p1 = prompt@;
        match character {
            Some(files) => {
                let cp = Orchestrator::get_current_checkpoint(
                    files.id.as_str(),
                    match &files.checkpoints {
                        Some(c) => Some(c.as_str()),
                        None => None,
                    },
                );
                let known = filter_known(
                    match &files.known {
                        Some(k) => Some(k.as_str()),
                        None => None,
                    },
                    match &files.disclosure {
                        Some(d) => Some(d.as_str()),
                        None => None,
                    },
                    cp.as_str(),
                );
                if !known.as_str().is_empty() {
                    push_str(&mut prompt, "\n[");
                    push_str(&mut prompt, name.as_str());
                    push_str(&mut prompt, "'s Known Information & Clues (Current CP: ");
                    push_str(&mut prompt, cp.as_str());
                    push_str(&mut prompt, ")]:\n");
                    push_str(&mut prompt, known.as_str());
                    push_str(&mut prompt, "\n\n");
                }
                assert(prompt@ =~= p1 + known_section(f.char_name, *files));
            },
            None => {},
        }
        let ghost p2 = prompt@;
        push_card_sections(&mut prompt, &name, &description, &personality, &scenario, triggered_lore);
        let ghost p3 = prompt@;
        match character {
            Some(files) => {
                inject_live_state(
                    match &files.live_state {
                        Some(s) => Some(s.as_str()),
                        None => None,
                    },
                    match &files.state_schema {
                        Some(s) => Some(s.as_str()),
                        None => None,
                    },
                    &mut prompt,
                );
            },
            None => {},
        }
        let ghost p4 = prompt@;
        match preset_json {
            Some(json) => {
                let pp = crate::preset::assemble_preset_prompts(
                    json,
                    enabled_override_ids,
                    name.as_str(),
                    user_name,
                    last_message,
                );
                if !pp.as_str().is_empty() {
                    push_str(&mut prompt, pp.as_str());
                    push_char(&mut prompt, '\n');
                }
            },
            None => {},
        }
        assert(prompt@ =~= prompt_head(f) + (match character {
            Some(fs) => known_section(f.char_name, *fs),
            None => Seq::<char>::empty(),
        }) + card_sections(f) + lore_section(triggered_lore@) + (match character {
            Some(fs) => live_state_section(opt_view(fs.live_state), opt_view(fs.state_schema)),
            None => Seq::<char>::empty(),
        }) + preset_section(
            match preset_json {
                Some(p) => Some(p@),
                None => None,
            },
            override_view(enabled_override_ids),
            f.char_name,
            user_name@,
            last_message@,
        ));
        substitute(prompt, variables, name.as_str(), user_name)
    }
}

} // verus!
