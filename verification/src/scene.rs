//! Multi-character scenes: the system prompt that introduces every
//! character present.
use vstd::prelude::*;
use crate::json::{json_at, json_valid, JsonDoc, JsonLookup, LookupModel};
use crate::orchestrator::{card_fields, card_of, parse_card, CardFields};
use crate::text::{chars_eq, chars_of, push_char, push_str, string_from};

verus! {

broadcast use vstd::string::group_string_axioms;

/// Whose eyes the scene is seen through.
#[derive(Debug, Clone, Copy, PartialEq, Eq)]
pub enum CharacterRole {
    Primary,
    Npc,
}

/// A character present in a scene.
#[derive(Debug, Clone)]
pub struct CharacterEntry {
    pub character_id: String,
    pub role: CharacterRole,
    /// A short introduction written into the prompt.
    pub intro: String,
}

/// Which characters' own lorebooks a scene uses.
#[derive(Debug, Clone, Copy, PartialEq, Eq)]
pub enum LorebookMerge {
    /// Every character's.
    Union,
    /// The primary character's only.
    PrimaryOnly,
}

/// A scene: its setting, who is present, how lines are formatted, and whose
/// lorebooks it uses.
#[derive(Debug, Clone)]
pub struct SceneConfig {
    pub scene_id: String,
    pub description: String,
    pub characters: Vec<CharacterEntry>,
    pub narrator_style: String,
    pub format_hint: String,
    pub lorebook_merge: LorebookMerge,
}

/// Whether the own lorebook of a character with `role` joins the scene's
/// under `mode`: always with `Union`, for the primary character alone with
/// `PrimaryOnly`.
pub open spec fn joins_lorebook_spec(mode: LorebookMerge, role: CharacterRole) -> bool {
    match mode {
        LorebookMerge::Union => true,
        LorebookMerge::PrimaryOnly => role == CharacterRole::Primary,
    }
}

/// Whether the own lorebook of a character with `role` joins the scene's
/// (see [`joins_lorebook_spec`]).
pub fn joins_lorebook(mode: LorebookMerge, role: CharacterRole) -> (r: bool)
    ensures
        r == joins_lorebook_spec(mode, role),
{
    match mode {
        LorebookMerge::Union => true,
        LorebookMerge::PrimaryOnly => match role {
            CharacterRole::Primary => true,
            CharacterRole::Npc => false,
        },
    }
}

/// The ids of the characters among `es` whose own lorebooks join, in order.
pub open spec fn lorebook_ids(es: Seq<CharacterEntry>, mode: LorebookMerge) -> Seq<Seq<char>>
    decreases es.len(),
{
    if es.len() == 0 {
        Seq::empty()
    } else {
        let prev = lorebook_ids(es.drop_last(), mode);
        if joins_lorebook_spec(mode, es.last().role) {
            prev.push(es.last().character_id@)
        } else {
            prev
        }
    }
}

/// The characters whose own lorebooks the scene uses, in the scene's order
/// (see [`lorebook_ids`]). The scene's own lorebook is used whatever the
/// mode, after theirs.
pub fn lorebook_characters(scene: &SceneConfig) -> (r: Vec<String>)
    ensures
        crate::text::string_views(r@) == lorebook_ids(scene.characters@, scene.lorebook_merge),
{
    let es = &scene.characters;
    let mut r: Vec<String> = Vec::new();
    let mut i: usize = 0;
    while i < es.len()
        invariant
            i <= es.len(),
            es == &scene.characters,
            crate::text::string_views(r@) == lorebook_ids(es@.take(i as int), scene.lorebook_merge),
        decreases es.len() - i,
    {
        proof {
            assert(es@.take(i + 1).drop_last() =~= es@.take(i as int));
            assert(es@.take(i + 1).last() == es@[i as int]);
        }
        if joins_lorebook(scene.lorebook_merge, es[i].role) {
            let id = string_from(es[i].character_id.as_str());
            let ghost before = crate::text::string_views(r@);
            r.push(id);
            assert(crate::text::string_views(r@) =~= before.push(es@[i as int].character_id@));
        }
        i = i + 1;
    }
    proof {
        assert(es@.take(es.len() as int) =~= es@);
    }
    r
}

/// The card text given for `id`: that of the first pair whose id is `id`.
pub open spec fn card_for(cards: Seq<(String, Option<String>)>, id: Seq<char>) -> Option<Seq<char>>
    decreases cards.len(),
{
    if cards.len() == 0 {
        None
    } else if cards[0].0@ == id {
        match cards[0].1 {
            Some(j) => Some(j@),
            None => None,
        }
    } else {
        card_for(cards.drop_first(), id)
    }
}

/// The name a card gives: `data.name`, else `name`, when it is JSON and
/// that member is a string.
pub open spec fn card_name(json: Seq<char>) -> Option<Seq<char>> {
    if !json_valid(json) {
        None
    } else {
        match json_at(json, "/data/name"@) {
            LookupModel::Str(n) => Some(n),
            _ => match json_at(json, "/name"@) {
                LookupModel::Str(n) => Some(n),
                _ => None,
            },
        }
    }
}

/// `head` and `text` on one line, when `text` is not empty.
pub open spec fn labelled(head: Seq<char>, text: Seq<char>) -> Seq<char> {
    if text.len() > 0 {
        head + text + seq!['\n']
    } else {
        Seq::empty()
    }
}

/// The section of one character: its name (from its card, else its id) and
/// role, its introduction, and the personality, description and scenario of
/// its card when the card reads.
pub open spec fn character_section(e: CharacterEntry, cards: Seq<(String, Option<String>)>) -> Seq<char> {
    let card = card_for(cards, e.character_id@);
    section_head(e, card) + labelled(Seq::empty(), e.intro@) + card_lines(card) + seq!['\n']
}

/// The heading of a character's section: its name and its role.
pub open spec fn section_head(e: CharacterEntry, card: Option<Seq<char>>) -> Seq<char> {
    let name = match card {
        Some(j) => match card_name(j) {
            Some(n) => n,
            None => e.character_id@,
        },
        None => e.character_id@,
    };
    let label = if e.role == CharacterRole::Primary {
        "（主视角）"@
    } else {
        "（NPC）"@
    };
    "## "@ + name + label + seq!['\n']
}

/// The personality, description and scenario lines of a card that reads.
pub open spec fn card_lines(card: Option<Seq<char>>) -> Seq<char> {
    match card {
        Some(j) => match card_of(j) {
            Some(c) => {
                let f = card_fields(Some(c));
                labelled("[性格]: "@, f.personality) + labelled("[描述]: "@, f.description)
                    + labelled("[场景设定]: "@, f.scenario)
            },
            None => Seq::empty(),
        },
        None => Seq::empty(),
    }
}

/// The sections of the first `n` characters.
pub open spec fn character_sections(es: Seq<CharacterEntry>, cards: Seq<(String, Option<String>)>, n: nat) -> Seq<char>
    decreases n,
{
    if n == 0 {
        Seq::empty()
    } else {
        character_sections(es, cards, (n - 1) as nat) + character_section(es[n - 1], cards)
    }
}

/// The system prompt of a scene.
pub open spec fn multi_char_prompt(
    description: Seq<char>,
    characters: Seq<CharacterEntry>,
    format_hint: Seq<char>,
    cards: Seq<(String, Option<String>)>,
    lore: Seq<char>,
    user_name: Seq<char>,
) -> Seq<char> {
    (if description.len() > 0 {
        "[场景设定]\n"@ + description + "\n\n"@
    } else {
        Seq::empty()
    }) + "[在场角色]\n"@ + character_sections(characters, cards, characters.len()) + (if lore.len()
        > 0 {
        "[世界书信息]\n"@ + lore + "\n\n"@
    } else {
        Seq::empty()
    }) + (if format_hint.len() > 0 {
        "[格式规则]\n"@ + format_hint + seq!['\n']
    } else {
        Seq::empty()
    }) + "用户扮演 "@ + user_name + "，AI 不代写用户台词。\n"@
}

/// The card text given for `id` (see [`card_for`]).
fn card_for_exec(cards: &Vec<(String, Option<String>)>, id: &String) -> (r: Option<String>)
    ensures
        match card_for(cards@, id@) {
            Some(j) => r matches Some(s) && s@ == j,
            None => r is None,
        },
{
    let idc = chars_of(id.as_str());
    let mut i: usize = 0;
    assert(cards@.skip(0) =~= cards@);
    while i < cards.len()
        invariant
            i <= cards.len(),
            idc@ == id@,
            card_for(cards@, id@) == card_for(cards@.skip(i as int), id@),
        decreases cards.len() - i,
    {
        proof {
            assert(cards@.skip(i as int)[0] == cards@[i as int]);
            assert(cards@.skip(i as int).drop_first() =~= cards@.skip(i + 1));
        }
        let c = chars_of(cards[i].0.as_str());
        if chars_eq(&c, &idc) {
            return match &cards[i].1 {
                Some(j) => Some(string_from(j.as_str())),
                None => None,
            };
        }
        i = i + 1;
    }
    assert(cards@.skip(i as int) =~= Seq::<(String, Option<String>)>::empty());
    None
}

/// The name a card gives (see [`card_name`]).
fn card_name_exec(json: &str) -> (r: Option<String>)
    ensures
        match card_name(json@) {
            Some(n) => r matches Some(s) && s@ == n,
            None => r is None,
        },
{
    let doc = match JsonDoc::parse(json) {
        Some(d) => d,
        None => return None,
    };
    match doc.lookup("/data/name") {
        JsonLookup::Str(n) => Some(n),
        _ => match doc.lookup("/name") {
            JsonLookup::Str(n) => Some(n),
            _ => None,
        },
    }
}

/// Appends `head` and `text` on one line, when `text` is not empty.
fn push_labelled(p: &mut String, head: &str, text: &str)
    ensures
        final(p)@ == old(p)@ + labelled(head@, text@),
{
    if !text.is_empty() {
        push_str(p, head);
        push_str(p, text);
        push_char(p, '\n');
    } else {
        assert(p@ =~= old(p)@ + Seq::<char>::empty());
    }
}

/// Appends the section of one character (see [`character_section`]).
fn push_character_section(p: &mut String, e: &CharacterEntry, cards: &Vec<(String, Option<String>)>)
    ensures
        final(p)@ == old(p)@ + character_section(*e, cards@),
{
    proof {
        reveal_strlit("");
    }
    let card = card_for_exec(cards, &e.character_id);
    push_section_head(p, e, &card);
    push_labelled(p, "", e.intro.as_str());
    assert(""@ =~= Seq::<char>::empty());
    push_card_lines(p, &card);
    push_char(p, '\n');
    assert(p@ =~= old(p)@ + character_section(*e, cards@));
}

/// Appends the heading of a character's section (see [`section_head`]).
fn push_section_head(p: &mut String, e: &CharacterEntry, card: &Option<String>)
    ensures
        final(p)@ == old(p)@ + section_head(*e, crate::orchestrator::opt_view(*card)),
{
    let name = match card {
        Some(j) => match card_name_exec(j.as_str()) {
            Some(n) => n,
            None => string_from(e.character_id.as_str()),
        },
        None => string_from(e.character_id.as_str()),
    };
    let ghost start = p@;
    push_str(p, "## ");
    push_str(p, name.as_str());
    match e.role {
        CharacterRole::Primary => push_str(p, "（主视角）"),
        CharacterRole::Npc => push_str(p, "（NPC）"),
    }
    push_char(p, '\n');
    assert(p@ =~= start + section_head(*e, crate::orchestrator::opt_view(*card)));
}

/// Appends the lines of a card (see [`card_lines`]).
fn push_card_lines(p: &mut String, card: &Option<String>)
    ensures
        final(p)@ == old(p)@ + card_lines(crate::orchestrator::opt_view(*card)),
{
    match card {
        Some(j) => match parse_card(j.as_str()) {
            Some(c) => {
                let personality = match &c.personality {
                    Some(s) => string_from(s.as_str()),
                    None => String::new(),
                };
                let description = match &c.description {
                    Some(s) => string_from(s.as_str()),
                    None => String::new(),
                };
                let scenario = match &c.scenario {
                    Some(s) => string_from(s.as_str()),
                    None => String::new(),
                };
                let ghost start = p@;
                push_labelled(p, "[性格]: ", personality.as_str());
                push_labelled(p, "[描述]: ", description.as_str());
                push_labelled(p, "[场景设定]: ", scenario.as_str());
                assert(p@ =~= start + card_lines(crate::orchestrator::opt_view(*card)));
            },
            None => {
                assert(p@ =~= old(p)@ + Seq::<char>::empty());
            },
        },
        None => {
            assert(p@ =~= old(p)@ + Seq::<char>::empty());
        },
    }
}

/// The system prompt of a scene (see [`multi_char_prompt`]).
pub fn build_multi_char_system_prompt(
    scene: &SceneConfig,
    cards: &Vec<(String, Option<String>)>,
    triggered_lore: &str,
    user_name: &str,
) -> (r: String)
    ensures
        r@ == multi_char_prompt(
            scene.description@,
            scene.characters@,
            scene.format_hint@,
            cards@,
            triggered_lore@,
            user_name@,
        ),
{
    let mut p = String::new();
    if !scene.description.as_str().is_empty() {
        push_str(&mut p, "[场景设定]\n");
        push_str(&mut p, scene.description.as_str());
        push_str(&mut p, "\n\n");
    }
    push_str(&mut p, "[在场角色]\n");
    let ghost head = p@;
    let mut i: usize = 0;
    while i < scene.characters.len()
        invariant
            i <= scene.characters.len(),
            p@ == head + character_sections(scene.characters@, cards@, i as nat),
        decreases scene.characters.len() - i,
    {
        push_character_section(&mut p, &scene.characters[i], cards);
        i = i + 1;
    }
    if !triggered_lore.is_empty() {
        push_str(&mut p, "[世界书信息]\n");
        push_str(&mut p, triggered_lore);
        push_str(&mut p, "\n\n");
    }
    if !scene.format_hint.as_str().is_empty() {
        push_str(&mut p, "[格式规则]\n");
        push_str(&mut p, scene.format_hint.as_str());
        push_char(&mut p, '\n');
    }
    push_str(&mut p, "用户扮演 ");
    push_str(&mut p, user_name);
    push_str(&mut p, "，AI 不代写用户台词。\n");
    p
}

} // verus!
