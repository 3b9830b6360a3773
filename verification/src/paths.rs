//! Where things live under the data root.
//!
//! Paths are UTF-8 text joined the way `PathBuf::join` joins on Unix: a
//! segment that starts with `/` replaces the path, otherwise a `/` is put
//! between the two unless the path is empty or already ends with one.
use vstd::prelude::*;
use crate::error::AirpError;
use crate::text::{chars_of, push_char, push_str, string_of};

verus! {

broadcast use vstd::string::group_string_axioms;

/// `base` joined with `seg`, as `PathBuf::join` does on Unix.
pub open spec fn join_spec(base: Seq<char>, seg: Seq<char>) -> Seq<char> {
    if seg.len() > 0 && seg[0] == '/' {
        seg
    } else if base.len() == 0 || base.last() == '/' {
        base + seg
    } else {
        base + seq!['/'] + seg
    }
}

/// `base` joined with `seg` (see [`join_spec`]).
pub fn path_join(base: &str, seg: &str) -> (r: String)
    ensures
        r@ == join_spec(base@, seg@),
{
    let b = chars_of(base);
    let s = chars_of(seg);
    if s.len() > 0 && s[0] == '/' {
        return string_of(&s);
    }
    let mut out = string_of(&b);
    if b.len() > 0 && b[b.len() - 1] != '/' {
        push_char(&mut out, '/');
    }
    push_str(&mut out, seg);
    out
}

/// `root/characters/{id}`
pub open spec fn char_dir_spec(root: Seq<char>, id: Seq<char>) -> Seq<char> {
    join_spec(join_spec(root, "characters"@), id)
}

/// `root/users/{id}`
pub open spec fn user_dir_spec(root: Seq<char>, id: Seq<char>) -> Seq<char> {
    join_spec(join_spec(root, "users"@), id)
}

/// `root/scenes/{id}`
pub open spec fn scene_dir_spec(root: Seq<char>, id: Seq<char>) -> Seq<char> {
    join_spec(join_spec(root, "scenes"@), id)
}

/// `root/presets/{id}`
pub open spec fn preset_dir_spec(root: Seq<char>, id: Seq<char>) -> Seq<char> {
    join_spec(join_spec(root, "presets"@), id)
}

fn char_dir(root: &str, character_id: &str) -> (r: String)
    ensures
        r@ == char_dir_spec(root@, character_id@),
{
    let d = path_join(root, "characters");
    path_join(d.as_str(), character_id)
}

/// `characters/{id}/state/`: where a character's live state is kept.
pub fn char_state_dir(root: &str, character_id: &str) -> (r: String)
    ensures
        r@ == join_spec(char_dir_spec(root@, character_id@), "state"@),
{
    let d = char_dir(root, character_id);
    path_join(d.as_str(), "state")
}

/// `characters/{id}/state/history.jsonl`: the state snapshots.
pub fn char_state_history_path(root: &str, character_id: &str) -> (r: String)
    ensures
        r@ == join_spec(join_spec(char_dir_spec(root@, character_id@), "state"@), "history.jsonl"@),
{
    let d = char_state_dir(root, character_id);
    path_join(d.as_str(), "history.jsonl")
}

/// `characters/{id}/world/lorebook.json`: the character's lorebook.
pub fn char_world_lorebook_path(root: &str, character_id: &str) -> (r: String)
    ensures
        r@ == join_spec(join_spec(char_dir_spec(root@, character_id@), "world"@), "lorebook.json"@),
{
    let d = char_dir(root, character_id);
    let w = path_join(d.as_str(), "world");
    path_join(w.as_str(), "lorebook.json")
}

/// `presets/{id}/preset.json`: the preset itself.
pub fn preset_json_path(root: &str, preset_id: &str) -> (r: String)
    ensures
        r@ == join_spec(preset_dir_spec(root@, preset_id@), "preset.json"@),
{
    let p = path_join(root, "presets");
    let d = path_join(p.as_str(), preset_id);
    path_join(d.as_str(), "preset.json")
}

/// `presets/{id}/meta.json`: the preset's metadata.
pub fn preset_meta_path(root: &str, preset_id: &str) -> (r: String)
    ensures
        r@ == join_spec(preset_dir_spec(root@, preset_id@), "meta.json"@),
{
    let p = path_join(root, "presets");
    let d = path_join(p.as_str(), preset_id);
    path_join(d.as_str(), "meta.json")
}

/// `users/{id}`: a user's directory.
pub fn user_dir(root: &str, user_id: &str) -> (r: String)
    ensures
        r@ == user_dir_spec(root@, user_id@),
{
    let d = path_join(root, "users");
    path_join(d.as_str(), user_id)
}

/// `users/{id}/persona.json`: the sealed base persona.
pub fn user_persona_path(root: &str, user_id: &str) -> (r: String)
    ensures
        r@ == join_spec(user_dir_spec(root@, user_id@), "persona.json"@),
{
    let d = user_dir(root, user_id);
    path_join(d.as_str(), "persona.json")
}

/// `users/{id}/persona.lock`: present once the persona is sealed.
pub fn user_persona_lock_path(root: &str, user_id: &str) -> (r: String)
    ensures
        r@ == join_spec(user_dir_spec(root@, user_id@), "persona.lock"@),
{
    let d = user_dir(root, user_id);
    path_join(d.as_str(), "persona.lock")
}

/// `users/{id}/state/live.json`: the user's current variables.
pub fn user_state_live_path(root: &str, user_id: &str) -> (r: String)
    ensures
        r@ == join_spec(join_spec(user_dir_spec(root@, user_id@), "state"@), "live.json"@),
{
    let d = user_dir(root, user_id);
    let s = path_join(d.as_str(), "state");
    path_join(s.as_str(), "live.json")
}

/// `users/{id}/state/history.jsonl`: the user's state snapshots.
pub fn user_state_history_path(root: &str, user_id: &str) -> (r: String)
    ensures
        r@ == join_spec(join_spec(user_dir_spec(root@, user_id@), "state"@), "history.jsonl"@),
{
    let d = user_dir(root, user_id);
    let s = path_join(d.as_str(), "state");
    path_join(s.as_str(), "history.jsonl")
}

/// `scenes/{id}`: a scene's directory.
pub fn scene_dir(root: &str, scene_id: &str) -> (r: String)
    ensures
        r@ == scene_dir_spec(root@, scene_id@),
{
    let d = path_join(root, "scenes");
    path_join(d.as_str(), scene_id)
}

/// `scenes/{id}/scene.json`: the scene's configuration.
pub fn scene_json_path(root: &str, scene_id: &str) -> (r: String)
    ensures
        r@ == join_spec(scene_dir_spec(root@, scene_id@), "scene.json"@),
{
    let d = scene_dir(root, scene_id);
    path_join(d.as_str(), "scene.json")
}

/// `scenes/{id}/world/lorebook.json`: the scene's lorebook.
pub fn scene_world_lorebook_path(root: &str, scene_id: &str) -> (r: String)
    ensures
        r@ == join_spec(join_spec(scene_dir_spec(root@, scene_id@), "world"@), "lorebook.json"@),
{
    let d = scene_dir(root, scene_id);
    let w = path_join(d.as_str(), "world");
    path_join(w.as_str(), "lorebook.json")
}

/// The data root a request works in: the root itself without a user (or
/// with an empty one), else `users/{id}` once the id is a valid segment; an
/// invalid id gives the error [`crate::security::validate_id_segment`] gives.
pub fn resolve_effective_root(root: &str, user_id: Option<&str>) -> (r: Result<String, AirpError>)
    ensures
        match user_id {
            None => r matches Ok(p) && p@ == root@,
            Some(uid) => if uid@.len() == 0 {
                r matches Ok(p) && p@ == root@
            } else {
                match crate::security::id_rejection(uid@) {
                    None => r matches Ok(p) && p@ == user_dir_spec(root@, uid@),
                    Some(m) => r matches Err(AirpError::BadRequest(s)) && s@ == m,
                }
            },
        },
{
    match user_id {
        None => Ok(string_of(&chars_of(root))),
        Some(uid) => {
            if uid.unicode_len() == 0 {
                return Ok(string_of(&chars_of(root)));
            }
            match crate::security::validate_id_segment(uid) {
                Ok(()) => Ok(user_dir(root, uid)),
                Err(e) => Err(e),
            }
        },
    }
}

} // verus!
