//! The shapes of the requests the HTTP daemon and the MCP tools accept,
//! the plugin manifest, and the legacy import formats, with the defaults
//! their optional fields take.
use vstd::prelude::*;

verus! {

// ---------------------------------------------------------------------------
// Daemon
// ---------------------------------------------------------------------------

/// The user of a chat request: a name and template variables (a later
/// binding of a name overrides an earlier one).
#[derive(Debug, Clone, PartialEq)]
pub struct UserProfile {
    pub name: String,
    pub variables: Vec<(String, String)>,
}

/// One streamed piece of an answer.
#[derive(Debug, Clone, PartialEq)]
pub struct ChatResponseChunk {
    pub text: String,
}

/// Roll a character's log back to a message.
#[derive(Debug, Clone, PartialEq)]
pub struct RollbackRequest {
    pub character_id: String,
    pub message_index: usize,
}

/// Regenerate the last answer of a character.
#[derive(Debug, Clone, PartialEq)]
pub struct RegenRequest {
    pub character_id: String,
}

/// Read a character's history.
#[derive(Debug, Clone, PartialEq)]
pub struct HistoryQuery {
    pub character_id: String,
}

// ---------------------------------------------------------------------------
// MCP tools
// ---------------------------------------------------------------------------

/// The user name a session gets when none is given.
pub fn default_user_name() -> (r: String)
    ensures
        r@ == "User"@,
{
    let mut s = String::new();
    crate::text::push_str(&mut s, "User");
    s
}

/// How many recent messages are read back when no count is given.
pub fn default_context_n() -> (r: usize)
    ensures
        r == 10,
{
    10
}

/// How many messages a rollback removes when no count is given.
pub fn default_rollback_n() -> (r: usize)
    ensures
        r == 1,
{
    1
}

/// How many state snapshots are read back when no count is given.
pub fn default_state_history_n() -> (r: usize)
    ensures
        r == 10,
{
    10
}

#[derive(Debug, Clone, PartialEq)]
pub struct PingRequest {}

#[derive(Debug, Clone, PartialEq)]
pub struct ImportCardRequest {
    pub character_id: String,
    pub card_json: Option<String>,
    pub card_png_base64: Option<String>,
}

#[derive(Debug, Clone, PartialEq)]
pub struct ApplyLorebookRequest {
    pub character_id: String,
    pub text: String,
}

#[derive(Debug, Clone, PartialEq)]
pub struct StartSessionRequest {
    pub character_id: String,
    pub session_id: Option<String>,
    pub preset_id: Option<String>,
    pub user_name: String,
}

#[derive(Debug, Clone, PartialEq)]
pub struct GetRecentContextRequest {
    pub character_id: String,
    pub n: usize,
    pub session_id: Option<String>,
}

#[derive(Debug, Clone, PartialEq)]
pub struct AppendMessageRequest {
    pub character_id: String,
    pub role: String,
    pub content: String,
    pub session_id: Option<String>,
}

#[derive(Debug, Clone, PartialEq)]
pub struct UpdateStateRequest {
    pub character_id: String,
    pub state_json: String,
    pub overwrite: bool,
}

#[derive(Debug, Clone, PartialEq)]
pub struct WritePresetArtifactRequest {
    pub preset_id: String,
    pub artifact_path: String,
    pub content: String,
}

#[derive(Debug, Clone, PartialEq)]
pub struct WriteCharacterArtifactRequest {
    pub character_id: String,
    pub artifact_path: String,
    pub content: String,
}

#[derive(Debug, Clone, PartialEq)]
pub struct ImportPresetRequest {
    pub preset_id: String,
    pub preset_json: String,
}

#[derive(Debug, Clone, PartialEq)]
pub struct ListPresetRegexScriptsRequest {
    pub preset_id: String,
}

#[derive(Debug, Clone, PartialEq)]
pub struct RemovePresetRegexScriptRequest {
    pub preset_id: String,
    pub filename: String,
}

#[derive(Debug, Clone, PartialEq)]
pub struct SetPresetRegexEnabledRequest {
    pub preset_id: String,
    pub filename: String,
    pub enabled: bool,
}

#[derive(Debug, Clone, PartialEq)]
pub struct RollbackMessagesRequest {
    pub character_id: String,
    pub n: usize,
}

#[derive(Debug, Clone, PartialEq)]
pub struct ListSessionsRequest {
    pub character_id: String,
}

#[derive(Debug, Clone, PartialEq)]
pub struct GetStateHistoryRequest {
    pub character_id: String,
    pub n: usize,
}

// ---------------------------------------------------------------------------
// Plugins
// ---------------------------------------------------------------------------

/// How to start an executable plugin (`hub.json`).
#[derive(Debug, Clone, PartialEq)]
pub struct PluginManifest {
    /// The executable or interpreter.
    pub command: String,
    pub args: Vec<String>,
    /// Working directory, relative to the plugin's directory.
    pub cwd: Option<String>,
    pub description: Option<String>,
}

/// A plugin found under `data/plugins/`.
#[derive(Debug, Clone, PartialEq)]
pub struct DiscoveredPlugin {
    /// The plugin's directory name.
    pub name: String,
    pub manifest: PluginManifest,
}

} // verus!
