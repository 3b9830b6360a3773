//! The MCP tools, by name: which tool a name calls, and the message for a
//! name that calls none.
use vstd::prelude::*;
use crate::adapter::MessageRole;
use crate::security::{strip_utf8_bom, without_bom};
use crate::json::{
    doc_members, insert_member, json_at, json_error, json_keys, json_valid, map_members, object_map, JsonDoc,
    JsonLookup, LookupModel,
};
use crate::text::{chars_eq, chars_of, lines_of, push_str, split_lines, string_of, string_views, views};

verus! {

broadcast use vstd::string::group_string_axioms;

/// The tools the server offers.
#[derive(Debug, Clone, Copy, PartialEq, Eq)]
pub enum McpTool {
    Ping,
    ImportCard,
    ImportPreset,
    ApplyLorebook,
    StartSession,
    GetRecentContext,
    AppendMessage,
    UpdateState,
    RollbackMessages,
    ListSessions,
    GetStateHistory,
    ListPresetRegexScripts,
    RemovePresetRegexScript,
    SetPresetRegexEnabled,
    WritePresetArtifact,
    WriteCharacterArtifact,
    ImportUserPersona,
    LockUserPersona,
    GetUserPersona,
    UpdateUserState,
    GetUserStateHistory,
    ListCharacters,
    ListUsers,
    GetCharacter,
    GetLiveState,
    DeleteCharacter,
    ListScenes,
    GetScene,
    CreateScene,
    AddSceneCharacter,
    ListVolumes,
    ReadVolume,
    SealVolume,
}

/// The tool called `name`.
pub open spec fn tool_of(name: Seq<char>) -> Option<McpTool> {
    if name == "ping"@ {
        Some(McpTool::Ping)
    } else if name == "import_card"@ {
        Some(McpTool::ImportCard)
    } else if name == "import_preset"@ {
        Some(McpTool::ImportPreset)
    } else if name == "apply_lorebook"@ {
        Some(McpTool::ApplyLorebook)
    } else if name == "start_session"@ {
        Some(McpTool::StartSession)
    } else if name == "get_recent_context"@ {
        Some(McpTool::GetRecentContext)
    } else if name == "append_message"@ {
        Some(McpTool::AppendMessage)
    } else if name == "update_state"@ {
        Some(McpTool::UpdateState)
    } else if name == "rollback_messages"@ {
        Some(McpTool::RollbackMessages)
    } else if name == "list_sessions"@ {
        Some(McpTool::ListSessions)
    } else if name == "get_state_history"@ {
        Some(McpTool::GetStateHistory)
    } else if name == "list_preset_regex_scripts"@ {
        Some(McpTool::ListPresetRegexScripts)
    } else if name == "remove_preset_regex_script"@ {
        Some(McpTool::RemovePresetRegexScript)
    } else if name == "set_preset_regex_enabled"@ {
        Some(McpTool::SetPresetRegexEnabled)
    } else if name == "write_preset_artifact"@ {
        Some(McpTool::WritePresetArtifact)
    } else if name == "write_character_artifact"@ {
        Some(McpTool::WriteCharacterArtifact)
    } else if name == "import_user_persona"@ {
        Some(McpTool::ImportUserPersona)
    } else if name == "lock_user_persona"@ {
        Some(McpTool::LockUserPersona)
    } else if name == "get_user_persona"@ {
        Some(McpTool::GetUserPersona)
    } else if name == "update_user_state"@ {
        Some(McpTool::UpdateUserState)
    } else if name == "get_user_state_history"@ {
        Some(McpTool::GetUserStateHistory)
    } else if name == "list_characters"@ {
        Some(McpTool::ListCharacters)
    } else if name == "list_users"@ {
        Some(McpTool::ListUsers)
    } else if name == "get_character"@ {
        Some(McpTool::GetCharacter)
    } else if name == "get_live_state"@ {
        Some(McpTool::GetLiveState)
    } else if name == "delete_character"@ {
        Some(McpTool::DeleteCharacter)
    } else if name == "list_scenes"@ {
        Some(McpTool::ListScenes)
    } else if name == "get_scene"@ {
        Some(McpTool::GetScene)
    } else if name == "create_scene"@ {
        Some(McpTool::CreateScene)
    } else if name == "add_scene_character"@ {
        Some(McpTool::AddSceneCharacter)
    } else if name == "list_volumes"@ {
        Some(McpTool::ListVolumes)
    } else if name == "read_volume"@ {
        Some(McpTool::ReadVolume)
    } else if name == "seal_volume"@ {
        Some(McpTool::SealVolume)
    } else {
        None
    }
}

/// The name a tool is called by.
pub open spec fn tool_name(t: McpTool) -> Seq<char> {
    match t {
        McpTool::Ping => "ping"@,
        McpTool::ImportCard => "import_card"@,
        McpTool::ImportPreset => "import_preset"@,
        McpTool::ApplyLorebook => "apply_lorebook"@,
        McpTool::StartSession => "start_session"@,
        McpTool::GetRecentContext => "get_recent_context"@,
        McpTool::AppendMessage => "append_message"@,
        McpTool::UpdateState => "update_state"@,
        McpTool::RollbackMessages => "rollback_messages"@,
        McpTool::ListSessions => "list_sessions"@,
        McpTool::GetStateHistory => "get_state_history"@,
        McpTool::ListPresetRegexScripts => "list_preset_regex_scripts"@,
        McpTool::RemovePresetRegexScript => "remove_preset_regex_script"@,
        McpTool::SetPresetRegexEnabled => "set_preset_regex_enabled"@,
        McpTool::WritePresetArtifact => "write_preset_artifact"@,
        McpTool::WriteCharacterArtifact => "write_character_artifact"@,
        McpTool::ImportUserPersona => "import_user_persona"@,
        McpTool::LockUserPersona => "lock_user_persona"@,
        McpTool::GetUserPersona => "get_user_persona"@,
        McpTool::UpdateUserState => "update_user_state"@,
        McpTool::GetUserStateHistory => "get_user_state_history"@,
        McpTool::ListCharacters => "list_characters"@,
        McpTool::ListUsers => "list_users"@,
        McpTool::GetCharacter => "get_character"@,
        McpTool::GetLiveState => "get_live_state"@,
        McpTool::DeleteCharacter => "delete_character"@,
        McpTool::ListScenes => "list_scenes"@,
        McpTool::GetScene => "get_scene"@,
        McpTool::CreateScene => "create_scene"@,
        McpTool::AddSceneCharacter => "add_scene_character"@,
        McpTool::ListVolumes => "list_volumes"@,
        McpTool::ReadVolume => "read_volume"@,
        McpTool::SealVolume => "seal_volume"@,
    }
}

impl McpTool {
    /// The name the tool is called by (see [`tool_name`]).
    pub fn name(&self) -> (r: &'static str)
        ensures
            r@ == tool_name(*self),
    {
        match self {
            McpTool::Ping => "ping",
            McpTool::ImportCard => "import_card",
            McpTool::ImportPreset => "import_preset",
            McpTool::ApplyLorebook => "apply_lorebook",
            McpTool::StartSession => "start_session",
            McpTool::GetRecentContext => "get_recent_context",
            McpTool::AppendMessage => "append_message",
            McpTool::UpdateState => "update_state",
            McpTool::RollbackMessages => "rollback_messages",
            McpTool::ListSessions => "list_sessions",
            McpTool::GetStateHistory => "get_state_history",
            McpTool::ListPresetRegexScripts => "list_preset_regex_scripts",
            McpTool::RemovePresetRegexScript => "remove_preset_regex_script",
            McpTool::SetPresetRegexEnabled => "set_preset_regex_enabled",
            McpTool::WritePresetArtifact => "write_preset_artifact",
            McpTool::WriteCharacterArtifact => "write_character_artifact",
            McpTool::ImportUserPersona => "import_user_persona",
            McpTool::LockUserPersona => "lock_user_persona",
            McpTool::GetUserPersona => "get_user_persona",
            McpTool::UpdateUserState => "update_user_state",
            McpTool::GetUserStateHistory => "get_user_state_history",
            McpTool::ListCharacters => "list_characters",
            McpTool::ListUsers => "list_users",
            McpTool::GetCharacter => "get_character",
            McpTool::GetLiveState => "get_live_state",
            McpTool::DeleteCharacter => "delete_character",
            McpTool::ListScenes => "list_scenes",
            McpTool::GetScene => "get_scene",
            McpTool::CreateScene => "create_scene",
            McpTool::AddSceneCharacter => "add_scene_character",
            McpTool::ListVolumes => "list_volumes",
            McpTool::ReadVolume => "read_volume",
            McpTool::SealVolume => "seal_volume",
        }
    }
}

/// Every tool, in the order the server lists them.
pub open spec fn tool_list() -> Seq<McpTool> {
    seq![McpTool::Ping, McpTool::ImportCard, McpTool::ImportPreset, McpTool::ApplyLorebook, McpTool::StartSession, McpTool::GetRecentContext, McpTool::AppendMessage, McpTool::UpdateState, McpTool::RollbackMessages, McpTool::ListSessions, McpTool::GetStateHistory, McpTool::ListPresetRegexScripts, McpTool::RemovePresetRegexScript, McpTool::SetPresetRegexEnabled, McpTool::WritePresetArtifact, McpTool::WriteCharacterArtifact, McpTool::ImportUserPersona, McpTool::LockUserPersona, McpTool::GetUserPersona, McpTool::UpdateUserState, McpTool::GetUserStateHistory, McpTool::ListCharacters, McpTool::ListUsers, McpTool::GetCharacter, McpTool::GetLiveState, McpTool::DeleteCharacter, McpTool::ListScenes, McpTool::GetScene, McpTool::CreateScene, McpTool::AddSceneCharacter, McpTool::ListVolumes, McpTool::ReadVolume, McpTool::SealVolume]
}

/// Every tool (see [`tool_list`]).
pub fn all_tools() -> (r: Vec<McpTool>)
    ensures
        r@ == tool_list(),
{
    let r = vec![McpTool::Ping, McpTool::ImportCard, McpTool::ImportPreset, McpTool::ApplyLorebook, McpTool::StartSession, McpTool::GetRecentContext, McpTool::AppendMessage, McpTool::UpdateState, McpTool::RollbackMessages, McpTool::ListSessions, McpTool::GetStateHistory, McpTool::ListPresetRegexScripts, McpTool::RemovePresetRegexScript, McpTool::SetPresetRegexEnabled, McpTool::WritePresetArtifact, McpTool::WriteCharacterArtifact, McpTool::ImportUserPersona, McpTool::LockUserPersona, McpTool::GetUserPersona, McpTool::UpdateUserState, McpTool::GetUserStateHistory, McpTool::ListCharacters, McpTool::ListUsers, McpTool::GetCharacter, McpTool::GetLiveState, McpTool::DeleteCharacter, McpTool::ListScenes, McpTool::GetScene, McpTool::CreateScene, McpTool::AddSceneCharacter, McpTool::ListVolumes, McpTool::ReadVolume, McpTool::SealVolume];
    assert(r@ =~= tool_list());
    r
}

/// Each tool's name calls that tool.
pub proof fn lemma_tool_names_round_trip(t: McpTool)
    ensures
        tool_of(tool_name(t)) == Some(t),
{
    reveal_strlit("ping");
    reveal_strlit("import_card");
    reveal_strlit("import_preset");
    reveal_strlit("apply_lorebook");
    reveal_strlit("start_session");
    reveal_strlit("get_recent_context");
    reveal_strlit("append_message");
    reveal_strlit("update_state");
    reveal_strlit("rollback_messages");
    reveal_strlit("list_sessions");
    reveal_strlit("get_state_history");
    reveal_strlit("list_preset_regex_scripts");
    reveal_strlit("remove_preset_regex_script");
    reveal_strlit("set_preset_regex_enabled");
    reveal_strlit("write_preset_artifact");
    reveal_strlit("write_character_artifact");
    reveal_strlit("import_user_persona");
    reveal_strlit("lock_user_persona");
    reveal_strlit("get_user_persona");
    reveal_strlit("update_user_state");
    reveal_strlit("get_user_state_history");
    reveal_strlit("list_characters");
    reveal_strlit("list_users");
    reveal_strlit("get_character");
    reveal_strlit("get_live_state");
    reveal_strlit("delete_character");
    reveal_strlit("list_scenes");
    reveal_strlit("get_scene");
    reveal_strlit("create_scene");
    reveal_strlit("add_scene_character");
    reveal_strlit("list_volumes");
    reveal_strlit("read_volume");
    reveal_strlit("seal_volume");
    assert("ping"@.len() == 4);
    assert("import_card"@.len() == 11);
    assert("import_preset"@.len() == 13);
    assert("apply_lorebook"@.len() == 14);
    assert("start_session"@.len() == 13);
    assert("get_recent_context"@.len() == 18);
    assert("append_message"@.len() == 14);
    assert("update_state"@.len() == 12);
    assert("rollback_messages"@.len() == 17);
    assert("list_sessions"@.len() == 13);
    assert("get_state_history"@.len() == 17);
    assert("list_preset_regex_scripts"@.len() == 25);
    assert("remove_preset_regex_script"@.len() == 26);
    assert("set_preset_regex_enabled"@.len() == 24);
    assert("write_preset_artifact"@.len() == 21);
    assert("write_character_artifact"@.len() == 24);
    assert("import_user_persona"@.len() == 19);
    assert("lock_user_persona"@.len() == 17);
    assert("get_user_persona"@.len() == 16);
    assert("update_user_state"@.len() == 17);
    assert("get_user_state_history"@.len() == 22);
    assert("list_characters"@.len() == 15);
    assert("list_users"@.len() == 10);
    assert("get_character"@.len() == 13);
    assert("get_live_state"@.len() == 14);
    assert("delete_character"@.len() == 16);
    assert("list_scenes"@.len() == 11);
    assert("get_scene"@.len() == 9);
    assert("create_scene"@.len() == 12);
    assert("add_scene_character"@.len() == 19);
    assert("list_volumes"@.len() == 12);
    assert("read_volume"@.len() == 11);
    assert("seal_volume"@.len() == 11);
    match t {
        McpTool::Ping => {
            assert(tool_of("ping"@) == Some(McpTool::Ping));
        },
        McpTool::ImportCard => {
            assert(tool_of("import_card"@) == Some(McpTool::ImportCard));
        },
        McpTool::ImportPreset => {
            assert(tool_of("import_preset"@) == Some(McpTool::ImportPreset));
        },
        McpTool::ApplyLorebook => {
            assert(tool_of("apply_lorebook"@) == Some(McpTool::ApplyLorebook));
        },
        McpTool::StartSession => {
            assert("start_session"@[0] != "import_preset"@[0]);
            assert(tool_of("start_session"@) == Some(McpTool::StartSession));
        },
        McpTool::GetRecentContext => {
            assert(tool_of("get_recent_context"@) == Some(McpTool::GetRecentContext));
        },
        McpTool::AppendMessage => {
            assert("append_message"@[3] != "apply_lorebook"@[3]);
            assert(tool_of("append_message"@) == Some(McpTool::AppendMessage));
        },
        McpTool::UpdateState => {
            assert(tool_of("update_state"@) == Some(McpTool::UpdateState));
        },
        McpTool::RollbackMessages => {
            assert(tool_of("rollback_messages"@) == Some(McpTool::RollbackMessages));
        },
        McpTool::ListSessions => {
            assert("list_sessions"@[0] != "import_preset"@[0]);
            assert("list_sessions"@[0] != "start_session"@[0]);
            assert(tool_of("list_sessions"@) == Some(McpTool::ListSessions));
        },
        McpTool::GetStateHistory => {
            assert("get_state_history"@[0] != "rollback_messages"@[0]);
            assert(tool_of("get_state_history"@) == Some(McpTool::GetStateHistory));
        },
        McpTool::ListPresetRegexScripts => {
            assert(tool_of("list_preset_regex_scripts"@) == Some(McpTool::ListPresetRegexScripts));
        },
        McpTool::RemovePresetRegexScript => {
            assert(tool_of("remove_preset_regex_script"@) == Some(McpTool::RemovePresetRegexScript));
        },
        McpTool::SetPresetRegexEnabled => {
            assert(tool_of("set_preset_regex_enabled"@) == Some(McpTool::SetPresetRegexEnabled));
        },
        McpTool::WritePresetArtifact => {
            assert(tool_of("write_preset_artifact"@) == Some(McpTool::WritePresetArtifact));
        },
        McpTool::WriteCharacterArtifact => {
            assert("write_character_artifact"@[0] != "set_preset_regex_enabled"@[0]);
            assert(tool_of("write_character_artifact"@) == Some(McpTool::WriteCharacterArtifact));
        },
        McpTool::ImportUserPersona => {
            assert(tool_of("import_user_persona"@) == Some(McpTool::ImportUserPersona));
        },
        McpTool::LockUserPersona => {
            assert("lock_user_persona"@[0] != "rollback_messages"@[0]);
            assert("lock_user_persona"@[0] != "get_state_history"@[0]);
            assert(tool_of("lock_user_persona"@) == Some(McpTool::LockUserPersona));
        },
        McpTool::GetUserPersona => {
            assert(tool_of("get_user_persona"@) == Some(McpTool::GetUserPersona));
        },
        McpTool::UpdateUserState => {
            assert("update_user_state"@[0] != "rollback_messages"@[0]);
            assert("update_user_state"@[0] != "get_state_history"@[0]);
            assert("update_user_state"@[0] != "lock_user_persona"@[0]);
            assert(tool_of("update_user_state"@) == Some(McpTool::UpdateUserState));
        },
        McpTool::GetUserStateHistory => {
            assert(tool_of("get_user_state_history"@) == Some(McpTool::GetUserStateHistory));
        },
        McpTool::ListCharacters => {
            assert(tool_of("list_characters"@) == Some(McpTool::ListCharacters));
        },
        McpTool::ListUsers => {
            assert(tool_of("list_users"@) == Some(McpTool::ListUsers));
        },
        McpTool::GetCharacter => {
            assert("get_character"@[0] != "import_preset"@[0]);
            assert("get_character"@[0] != "start_session"@[0]);
            assert("get_character"@[0] != "list_sessions"@[0]);
            assert(tool_of("get_character"@) == Some(McpTool::GetCharacter));
        },
        McpTool::GetLiveState => {
            assert("get_live_state"@[0] != "apply_lorebook"@[0]);
            assert("get_live_state"@[0] != "append_message"@[0]);
            assert(tool_of("get_live_state"@) == Some(McpTool::GetLiveState));
        },
        McpTool::DeleteCharacter => {
            assert("delete_character"@[0] != "get_user_persona"@[0]);
            assert(tool_of("delete_character"@) == Some(McpTool::DeleteCharacter));
        },
        McpTool::ListScenes => {
            assert("list_scenes"@[0] != "import_card"@[0]);
            assert(tool_of("list_scenes"@) == Some(McpTool::ListScenes));
        },
        McpTool::GetScene => {
            assert(tool_of("get_scene"@) == Some(McpTool::GetScene));
        },
        McpTool::CreateScene => {
            assert("create_scene"@[0] != "update_state"@[0]);
            assert(tool_of("create_scene"@) == Some(McpTool::CreateScene));
        },
        McpTool::AddSceneCharacter => {
            assert("add_scene_character"@[0] != "import_user_persona"@[0]);
            assert(tool_of("add_scene_character"@) == Some(McpTool::AddSceneCharacter));
        },
        McpTool::ListVolumes => {
            assert("list_volumes"@[0] != "update_state"@[0]);
            assert("list_volumes"@[0] != "create_scene"@[0]);
            assert(tool_of("list_volumes"@) == Some(McpTool::ListVolumes));
        },
        McpTool::ReadVolume => {
            assert("read_volume"@[0] != "import_card"@[0]);
            assert("read_volume"@[0] != "list_scenes"@[0]);
            assert(tool_of("read_volume"@) == Some(McpTool::ReadVolume));
        },
        McpTool::SealVolume => {
            assert("seal_volume"@[0] != "import_card"@[0]);
            assert("seal_volume"@[0] != "list_scenes"@[0]);
            assert("seal_volume"@[0] != "read_volume"@[0]);
            assert(tool_of("seal_volume"@) == Some(McpTool::SealVolume));
        },
    }
}

/// The message for a name that calls no tool.
pub open spec fn unknown_tool_message(name: Seq<char>) -> Seq<char> {
    "unknown tool: `"@ + name + "` (use `airp-core list-tools --format summary` to enumerate)"@
}

fn same(cs: &Vec<char>, lit: &str) -> (r: bool)
    ensures
        r == (cs@ == lit@),
{
    let l = chars_of(lit);
    chars_eq(cs, &l)
}

/// The tool called `name`, or the message that there is none.
pub fn tool_from_name(name: &str) -> (r: Result<McpTool, String>)
    ensures
        match tool_of(name@) {
            Some(t) => r == Ok::<McpTool, String>(t),
            None => r matches Err(m) && m@ == unknown_tool_message(name@),
        },
{
    let cs = chars_of(name);
    if same(&cs, "ping") {
        return Ok(McpTool::Ping);
    }
    if same(&cs, "import_card") {
        return Ok(McpTool::ImportCard);
    }
    if same(&cs, "import_preset") {
        return Ok(McpTool::ImportPreset);
    }
    if same(&cs, "apply_lorebook") {
        return Ok(McpTool::ApplyLorebook);
    }
    if same(&cs, "start_session") {
        return Ok(McpTool::StartSession);
    }
    if same(&cs, "get_recent_context") {
        return Ok(McpTool::GetRecentContext);
    }
    if same(&cs, "append_message") {
        return Ok(McpTool::AppendMessage);
    }
    if same(&cs, "update_state") {
        return Ok(McpTool::UpdateState);
    }
    if same(&cs, "rollback_messages") {
        return Ok(McpTool::RollbackMessages);
    }
    if same(&cs, "list_sessions") {
        return Ok(McpTool::ListSessions);
    }
    if same(&cs, "get_state_history") {
        return Ok(McpTool::GetStateHistory);
    }
    if same(&cs, "list_preset_regex_scripts") {
        return Ok(McpTool::ListPresetRegexScripts);
    }
    if same(&cs, "remove_preset_regex_script") {
        return Ok(McpTool::RemovePresetRegexScript);
    }
    if same(&cs, "set_preset_regex_enabled") {
        return Ok(McpTool::SetPresetRegexEnabled);
    }
    if same(&cs, "write_preset_artifact") {
        return Ok(McpTool::WritePresetArtifact);
    }
    if same(&cs, "write_character_artifact") {
        return Ok(McpTool::WriteCharacterArtifact);
    }
    if same(&cs, "import_user_persona") {
        return Ok(McpTool::ImportUserPersona);
    }
    if same(&cs, "lock_user_persona") {
        return Ok(McpTool::LockUserPersona);
    }
    if same(&cs, "get_user_persona") {
        return Ok(McpTool::GetUserPersona);
    }
    if same(&cs, "update_user_state") {
        return Ok(McpTool::UpdateUserState);
    }
    if same(&cs, "get_user_state_history") {
        return Ok(McpTool::GetUserStateHistory);
    }
    if same(&cs, "list_characters") {
        return Ok(McpTool::ListCharacters);
    }
    if same(&cs, "list_users") {
        return Ok(McpTool::ListUsers);
    }
    if same(&cs, "get_character") {
        return Ok(McpTool::GetCharacter);
    }
    if same(&cs, "get_live_state") {
        return Ok(McpTool::GetLiveState);
    }
    if same(&cs, "delete_character") {
        return Ok(McpTool::DeleteCharacter);
    }
    if same(&cs, "list_scenes") {
        return Ok(McpTool::ListScenes);
    }
    if same(&cs, "get_scene") {
        return Ok(McpTool::GetScene);
    }
    if same(&cs, "create_scene") {
        return Ok(McpTool::CreateScene);
    }
    if same(&cs, "add_scene_character") {
        return Ok(McpTool::AddSceneCharacter);
    }
    if same(&cs, "list_volumes") {
        return Ok(McpTool::ListVolumes);
    }
    if same(&cs, "read_volume") {
        return Ok(McpTool::ReadVolume);
    }
    if same(&cs, "seal_volume") {
        return Ok(McpTool::SealVolume);
    }
    let mut m = String::new();
    push_str(&mut m, "unknown tool: `");
    push_str(&mut m, name);
    push_str(&mut m, "` (use `airp-core list-tools --format summary` to enumerate)");
    Err(m)
}


/// The role a message is appended with.
pub open spec fn role_of(role: Seq<char>) -> Option<MessageRole> {
    if role == "user"@ {
        Some(MessageRole::User)
    } else if role == "assistant"@ {
        Some(MessageRole::Assistant)
    } else if role == "system"@ {
        Some(MessageRole::System)
    } else {
        None
    }
}

/// The role named `role`, or the message that it names none.
pub fn parse_role(role: &str) -> (r: Result<MessageRole, String>)
    ensures
        match role_of(role@) {
            Some(x) => r == Ok::<MessageRole, String>(x),
            None => r matches Err(m) && m@ == "未知 role '"@ + role@
                + "': 必须为 user / assistant / system"@,
        },
{
    let cs = chars_of(role);
    if same(&cs, "user") {
        Ok(MessageRole::User)
    } else if same(&cs, "assistant") {
        Ok(MessageRole::Assistant)
    } else if same(&cs, "system") {
        Ok(MessageRole::System)
    } else {
        let mut m = String::new();
        push_str(&mut m, "未知 role '");
        push_str(&mut m, role);
        push_str(&mut m, "': 必须为 user / assistant / system");
        Err(m)
    }
}

/// A requested count held between 1 and 1000.
pub fn clamp_count(n: usize) -> (r: usize)
    ensures
        r == if n < 1 {
            1
        } else if n > 1000 {
            1000
        } else {
            n
        },
{
    if n < 1 {
        1
    } else if n > 1000 {
        1000
    } else {
        n
    }
}

/// Why a state update's JSON is refused, if it is: not JSON, or not an
/// object.
pub open spec fn state_delta_error(text: Seq<char>) -> Option<Seq<char>> {
    if !json_valid(text) {
        Some("state_json 非合法 JSON: "@ + json_error(text))
    } else if !(json_at(text, Seq::empty()) is Object) {
        Some("state_json 必须是 JSON 对象（{...}）"@)
    } else {
        None
    }
}

/// Checks a state update's JSON (see [`state_delta_error`]); the parsed
/// object when it passes.
pub fn check_state_delta(state_json: &str) -> (r: Result<JsonDoc, String>)
    ensures
        match state_delta_error(state_json@) {
            Some(m) => r matches Err(x) && x@ == m,
            None => r matches Ok(d) && d.source() == state_json@,
        },
{
    let doc = match JsonDoc::parse_or_error(state_json) {
        Ok(d) => d,
        Err(e) => {
            let mut m = String::new();
            push_str(&mut m, "state_json 非合法 JSON: ");
            push_str(&mut m, e.as_str());
            return Err(m);
        },
    };
    proof {
        reveal_strlit("");
    }
    let top = doc.lookup("");
    assert(""@ =~= Seq::<char>::empty());
    match top {
        JsonLookup::Object => Ok(doc),
        _ => {
            let mut m = String::new();
            push_str(&mut m, "state_json 必须是 JSON 对象（{...}）");
            Err(m)
        },
    }
}

/// The live state after an update.
pub enum MergedState {
    /// An object with the members of this map.
    Members(serde_json::Map<String, serde_json::Value>),
    /// The stored state stays as it was: it is JSON but not an object, so
    /// the update has no members to lay its own over.
    KeepExisting,
}

/// The members of the live state after an update whose JSON is `delta` (an
/// object): with `overwrite`, the update's own; else the stored state's with
/// the update's laid over them, member by member (the update's members alone
/// when nothing is stored or what is stored is not JSON). `None` when the
/// stored state is JSON but not an object: it is kept.
pub open spec fn merged_members(stored: Option<Seq<char>>, delta: Seq<char>, overwrite: bool) -> Option<
    Map<Seq<char>, Seq<char>>,
> {
    if overwrite {
        Some(doc_members(delta))
    } else {
        match stored {
            Some(e) => if json_at(e, Seq::empty()) is Object {
                Some(doc_members(e).union_prefer_right(doc_members(delta)))
            } else {
                None
            },
            None => Some(doc_members(delta)),
        }
    }
}

/// Lays a state update over the stored state (see [`merged_members`]);
/// `stored` is the parsed `state/live.json`, `None` when it is missing or not
/// JSON.
pub fn merge_state(stored: Option<&JsonDoc>, delta: &JsonDoc, overwrite: bool) -> (r: MergedState)
    requires
        json_at(delta.source(), Seq::empty()) is Object,
    ensures
        match merged_members(
            match stored {
                Some(e) => Some(e.source()),
                None => None,
            },
            delta.source(),
            overwrite,
        ) {
            Some(ms) => r matches MergedState::Members(m) && map_members(m) == ms,
            None => r is KeepExisting,
        },
{
    if overwrite {
        return MergedState::Members(object_map(delta));
    }
    let e = match stored {
        None => return MergedState::Members(object_map(delta)),
        Some(e) => e,
    };
    proof {
        reveal_strlit("");
    }
    assert(""@ =~= Seq::<char>::empty());
    match e.lookup("") {
        JsonLookup::Object => {},
        _ => return MergedState::KeepExisting,
    }
    let ghost es = e.source();
    let ghost ds = delta.source();
    let ghost em = doc_members(es);
    let ghost dm = doc_members(ds);
    let mut m = object_map(e);
    let from = object_map(delta);
    let keys = delta.keys("");
    let ghost ks = string_views(keys@);
    let mut i: usize = 0;
    while i < keys.len()
        invariant
            i <= keys.len(),
            ks == string_views(keys@),
            ks == json_keys(ds, Seq::empty()),
            dm == doc_members(ds),
            map_members(from) == dm,
            forall|k: Seq<char>| #[trigger]
                map_members(m).dom().contains(k) <==> (em.dom().contains(k) || ks.take(i as int).contains(k)),
            forall|k: Seq<char>| #[trigger]
                map_members(m).dom().contains(k) ==> map_members(m)[k] == if ks.take(i as int).contains(k) {
                    dm[k]
                } else {
                    em[k]
                },
        decreases keys.len() - i,
    {
        let ghost before = map_members(m);
        let ghost k = keys@[i as int]@;
        assert(ks[i as int] == k);
        assert(dm.dom().contains(k));
        insert_member(&mut m, &from, keys[i].as_str());
        proof {
            let ti = ks.take(i as int);
            let t2 = ks.take(i + 1);
            assert(t2 =~= ti.push(k));
            let after = map_members(m);
            assert(after == before.insert(k, dm[k]));
            assert forall|q: Seq<char>| t2.contains(q) <==> (ti.contains(q) || q == k) by {
                if ti.contains(q) {
                    let j = choose|j: int| 0 <= j < ti.len() && ti[j] == q;
                    assert(t2[j] == q);
                }
                if q == k {
                    assert(t2[i as int] == k);
                }
                if t2.contains(q) && q != k {
                    let j = choose|j: int| 0 <= j < t2.len() && t2[j] == q;
                    assert(ti[j] == q);
                }
            }
            assert forall|q: Seq<char>| #[trigger]
                after.dom().contains(q) <==> (em.dom().contains(q) || t2.contains(q)) by {}
            assert forall|q: Seq<char>| #[trigger] after.dom().contains(q) implies after[q] == if t2.contains(q) {
                dm[q]
            } else {
                em[q]
            } by {
                if q != k {
                    assert(before.dom().contains(q));
                }
            }
        }
        i = i + 1;
    }
    assert(ks.take(keys.len() as int) =~= ks);
    assert(map_members(m) =~= em.union_prefer_right(dm));
    MergedState::Members(m)
}

/// The stored state as the update sees it: the text of `state/live.json`
/// without a byte-order mark, when the file was read and that text is JSON.
pub open spec fn stored_state(stored: Option<Seq<char>>) -> Option<Seq<char>> {
    match stored {
        Some(t) => if json_valid(without_bom(t)) {
            Some(without_bom(t))
        } else {
            None
        },
        None => None,
    }
}

/// A state update from its request: the update's JSON is checked (see
/// [`state_delta_error`]) and laid over `stored`, the text of
/// `state/live.json` when it could be read (see [`merge_state`]); with the
/// merged state comes the number of members the update names.
pub fn update_live_state(stored: Option<&str>, state_json: &str, overwrite: bool) -> (r: Result<
    (MergedState, usize),
    String,
>)
    ensures
        match state_delta_error(state_json@) {
            Some(m) => r matches Err(x) && x@ == m,
            None => r matches Ok((ms, n)) && n == json_keys(state_json@, Seq::empty()).len() && match merged_members(
                stored_state(
                    match stored {
                        Some(t) => Some(t@),
                        None => None,
                    },
                ),
                state_json@,
                overwrite,
            ) {
                Some(members) => ms matches MergedState::Members(m) && map_members(m) == members,
                None => ms is KeepExisting,
            },
        },
{
    let delta = check_state_delta(state_json)?;
    proof {
        reveal_strlit("");
    }
    assert(""@ =~= Seq::<char>::empty());
    let n = delta.keys("").len();
    let stored_doc = match stored {
        Some(t) => JsonDoc::parse(strip_utf8_bom(t)),
        None => None,
    };
    let merged = merge_state(
        match &stored_doc {
            Some(d) => Some(d),
            None => None,
        },
        &delta,
        overwrite,
    );
    Ok((merged, n))
}

/// The lines of `ls` that are JSON, in order.
pub open spec fn json_lines(ls: Seq<Seq<char>>) -> Seq<Seq<char>>
    decreases ls.len(),
{
    if ls.len() == 0 {
        Seq::empty()
    } else {
        let prev = json_lines(ls.drop_last());
        if json_valid(ls.last()) {
            prev.push(ls.last())
        } else {
            prev
        }
    }
}

/// The newest `n` snapshots of a state history: its lines that are JSON,
/// last first, at most `n` of them.
pub open spec fn newest_snapshots(text: Seq<char>, n: nat) -> Seq<Seq<char>> {
    let valid = json_lines(lines_of(text));
    let rev = valid.reverse();
    if n < rev.len() {
        rev.take(n as int)
    } else {
        rev
    }
}

/// The newest `n` snapshots of a state history (see [`newest_snapshots`]).
pub fn state_history_entries(text: &str, n: usize) -> (r: Vec<String>)
    ensures
        crate::text::string_views(r@) == newest_snapshots(text@, n as nat),
{
    let cs = chars_of(text);
    let lines = split_lines(&cs);
    let ghost lv = views(lines@);
    let mut valid: Vec<String> = Vec::new();
    let mut i: usize = 0;
    while i < lines.len()
        invariant
            i <= lines.len(),
            lv == views(lines@),
            crate::text::string_views(valid@) == json_lines(lv.take(i as int)),
        decreases lines.len() - i,
    {
        proof {
            assert(lv.take(i + 1).drop_last() =~= lv.take(i as int));
            assert(lv.take(i + 1).last() == lines@[i as int]@);
        }
        let line = string_of(&lines[i]);
        let ghost before = crate::text::string_views(valid@);
        if JsonDoc::parse(line.as_str()).is_some() {
            let ghost lvv = line@;
            valid.push(line);
            assert(crate::text::string_views(valid@) =~= before.push(lvv));
        }
        i = i + 1;
    }
    assert(lv.take(lines.len() as int) =~= lv);
    let ghost vv = crate::text::string_views(valid@);
    let mut out: Vec<String> = Vec::new();
    let mut k: usize = valid.len();
    while k > 0 && out.len() < n
        invariant
            k <= valid.len(),
            vv == crate::text::string_views(valid@),
            out.len() == valid.len() - k,
            out.len() <= n,
            crate::text::string_views(out@) == vv.reverse().take((valid.len() - k) as int),
        decreases k,
    {
        let ghost before = crate::text::string_views(out@);
        let s = crate::text::string_from(valid[k - 1].as_str());
        let ghost sv = s@;
        out.push(s);
        proof {
            assert(vv.reverse()[(valid.len() - k) as int] == vv[k - 1]);
            assert(crate::text::string_views(out@) =~= before.push(sv));
            assert(vv.reverse().take((valid.len() - k + 1) as int) =~= vv.reverse().take(
                (valid.len() - k) as int,
            ).push(vv[k - 1]));
        }
        k = k - 1;
    }
    proof {
        if n < vv.len() {
            assert(out.len() == n);
        } else {
            assert(k == 0);
            assert(vv.reverse().take(vv.len() as int) =~= vv.reverse());
        }
    }
    out
}

} // verus!
