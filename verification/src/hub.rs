//! The plugin hub's rules: reading a plugin's launch manifest, reading the
//! one-line JSON-RPC reply of a plugin, and what the reference echo plugin
//! answers. Spawning the plugin and moving the lines happen at the caller.
use vstd::prelude::*;
use crate::error::{debug_quoted, AirpError};
use crate::json::{json_at, json_error, json_valid, opt_str, JsonDoc, JsonLookup, LookupModel};
use crate::requests::PluginManifest;
use crate::security::id_rejection;
use crate::text::{decimal, push_char, push_str, string_from, string_views, trim, trim_string};

verus! {

broadcast use vstd::string::group_string_axioms;

/// The version of the wire protocol.
pub fn hub_protocol_version() -> (r: &'static str)
    ensures
        r@ == "fed-1"@,
{
    "fed-1"
}

/// The name of a plugin's launch manifest.
pub fn hub_manifest_name() -> (r: &'static str)
    ensures
        r@ == "hub.json"@,
{
    "hub.json"
}

pub struct ManifestModel {
    pub command: Seq<char>,
    pub args: Seq<Seq<char>>,
    pub cwd: Option<Seq<char>>,
    pub description: Option<Seq<char>>,
}

pub open spec fn manifest_view(m: PluginManifest) -> ManifestModel {
    ManifestModel {
        command: m.command@,
        args: string_views(m.args@),
        cwd: crate::orchestrator::opt_view(m.cwd),
        description: crate::orchestrator::opt_view(m.description),
    }
}

/// The first `n` elements of the array `/args`, when all are strings.
pub open spec fn args_at(text: Seq<char>, n: nat) -> Option<Seq<Seq<char>>>
    decreases n,
{
    if n == 0 {
        Some(Seq::empty())
    } else {
        match (args_at(text, (n - 1) as nat), json_at(text, "/args"@ + seq!['/'] + decimal((n - 1) as nat))) {
            (Some(a), LookupModel::Str(s)) => Some(a.push(s)),
            _ => None,
        }
    }
}

/// The manifest `text` describes: an object with a string `command`, an
/// optional array of strings `args` (none when absent), and optional
/// strings `cwd` and `description`.
pub open spec fn manifest_of(text: Seq<char>) -> Option<ManifestModel> {
    let cwd = opt_str(json_at(text, "/cwd"@));
    let desc = opt_str(json_at(text, "/description"@));
    let args = match json_at(text, "/args"@) {
        LookupModel::Missing => Some(Seq::empty()),
        LookupModel::Array(n) => args_at(text, n),
        _ => None,
    };
    if json_valid(text) && json_at(text, Seq::empty()) is Object && cwd is Some && desc is Some
        && args is Some {
        match json_at(text, "/command"@) {
            LookupModel::Str(c) => Some(
                ManifestModel { command: c, args: args->0, cwd: cwd->0, description: desc->0 },
            ),
            _ => None,
        }
    } else {
        None
    }
}

/// What follows `JSON 错误: ` for a manifest that reads as none.
pub open spec fn manifest_error_detail(text: Seq<char>) -> Seq<char> {
    if json_valid(text) {
        "hub.json 须为对象：字符串 command，可选字符串数组 args，可选字符串 cwd / description"@
    } else {
        json_error(text)
    }
}

pub proof fn lemma_manifest_args_none(text: Seq<char>, m: nat, k: nat)
    requires
        m <= k,
        args_at(text, m) is None,
    ensures
        args_at(text, k) is None,
    decreases k - m,
{
    if m < k {
        lemma_manifest_args_none(text, (m + 1) as nat, k);
    }
}

/// Reads a plugin's launch manifest `text`, found at the path `path_text`:
/// a JSON error when it is not a manifest, a configuration error when its
/// command is blank.
pub fn parse_manifest(text: &str, path_text: &str) -> (r: Result<PluginManifest, AirpError>)
    ensures
        match manifest_of(text@) {
            None => r matches Err(AirpError::Json(m)) && m@ == manifest_error_detail(text@),
            Some(mm) => if trim(mm.command).len() == 0 {
                r matches Err(AirpError::Config(m)) && m@ == debug_quoted(path_text@)
                    + " 的 command 为空"@
            } else {
                r matches Ok(x) && manifest_view(x) == mm
            },
        },
{
    let ghost t = text@;
    let doc = match JsonDoc::parse_or_error(text) {
        Ok(d) => d,
        Err(e) => return Err(AirpError::Json(e)),
    };
    proof {
        reveal_strlit("");
    }
    let top = doc.lookup("");
    assert(""@ =~= Seq::<char>::empty());
    let shape_error = string_from(
        "hub.json 须为对象：字符串 command，可选字符串数组 args，可选字符串 cwd / description",
    );
    assert(shape_error@ == manifest_error_detail(t));
    let is_obj = match top {
        JsonLookup::Object => true,
        _ => false,
    };
    let cwd = crate::json::read_opt_str(&doc, &string_from("/cwd"));
    let description = crate::json::read_opt_str(&doc, &string_from("/description"));
    let command = match doc.lookup("/command") {
        JsonLookup::Str(c) => Some(c),
        _ => None,
    };
    let (cwd, description, command) = match (is_obj, cwd, description, command) {
        (true, Some(c), Some(d), Some(cm)) => (c, d, cm),
        _ => return Err(AirpError::Json(shape_error)),
    };
    let mut args: Vec<String> = Vec::new();
    match doc.lookup("/args") {
        JsonLookup::Missing => {
            assert(string_views(args@) =~= Seq::<Seq<char>>::empty());
        },
        JsonLookup::Array(n) => {
            let mut i: usize = 0;
            while i < n
                invariant
                    i <= n,
                    doc.source() == t,
                    t == text@,
                    json_valid(t),
                    shape_error@ == manifest_error_detail(t),
                    args_at(t, i as nat) == Some(string_views(args@)),
                    json_at(t, "/args"@) == LookupModel::Array(n as nat),
                decreases n - i,
            {
                let p = crate::json::index_pointer("/args", i);
                let ghost before = string_views(args@);
                match doc.lookup(p.as_str()) {
                    JsonLookup::Str(s) => {
                        let ghost sv = s@;
                        args.push(s);
                        assert(string_views(args@) =~= before.push(sv));
                    },
                    _ => {
                        proof {
                            lemma_manifest_args_none(t, (i + 1) as nat, n as nat);
                        }
                        return Err(AirpError::Json(shape_error));
                    },
                }
                i = i + 1;
            }
        },
        _ => return Err(AirpError::Json(shape_error)),
    }
    assert(string_views(args@) =~= string_views(args@));
    let blank = trim_string(command.as_str());
    if blank.as_str().is_empty() {
        let mut m = String::new();
        push_debug(&mut m, path_text);
        push_str(&mut m, " 的 command 为空");
        return Err(AirpError::Config(m));
    }
    Ok(PluginManifest { command, args, cwd, description })
}

/// Appends `s` in double quotes (see [`debug_quoted`]).
fn push_debug(out: &mut String, s: &str)
    ensures
        final(out)@ == old(out)@ + debug_quoted(s@),
{
    let e = AirpError::PathEscape(string_from(s));
    let m = e.message();
    let cs = crate::text::chars_of(m.as_str());
    proof {
        reveal_strlit("路径越出 data_root: ");
    }
    let skip: usize = 16;
    assert("路径越出 data_root: "@.len() == 16);
    crate::text::push_chars_range(out, &cs, skip, cs.len());
    assert(cs@.subrange(16, cs@.len() as int) =~= debug_quoted(s@));
}

/// Reads the manifest of the plugin `name`: a bad name is a bad request, a
/// missing manifest (`None`) is not found, else see [`parse_manifest`].
pub fn load_manifest(name: &str, manifest_text: Option<&str>, path_text: &str) -> (r: Result<
    PluginManifest,
    AirpError,
>)
    ensures
        match id_rejection(name@) {
            Some(why) => r matches Err(AirpError::BadRequest(m)) && m@ == why,
            None => match manifest_text {
                None => r matches Err(AirpError::NotFound(m)) && m@ == "插件 `"@ + name@
                    + "` 无 hub.json（非可执行插件，或插件不存在）"@,
                Some(t) => match manifest_of(t@) {
                    None => r matches Err(AirpError::Json(m)) && m@ == manifest_error_detail(t@),
                    Some(mm) => if trim(mm.command).len() == 0 {
                        r matches Err(AirpError::Config(m)) && m@ == debug_quoted(path_text@)
                            + " 的 command 为空"@
                    } else {
                        r matches Ok(x) && manifest_view(x) == mm
                    },
                },
            },
        },
{
    match crate::security::validate_id_segment(name) {
        Err(e) => return Err(e),
        Ok(()) => {},
    }
    match manifest_text {
        None => {
            let mut m = String::new();
            push_str(&mut m, "插件 `");
            push_str(&mut m, name);
            push_str(&mut m, "` 无 hub.json（非可执行插件，或插件不存在）");
            Err(AirpError::NotFound(m))
        },
        Some(t) => parse_manifest(t, path_text),
    }
}

// ---------------------------------------------------------------------------
// A plugin's reply
// ---------------------------------------------------------------------------

/// `v` in decimal, with a minus sign when negative.
pub open spec fn signed_decimal(v: int) -> Seq<char> {
    if v < 0 {
        seq!['-'] + decimal((-v) as nat)
    } else {
        decimal(v as nat)
    }
}

/// The error of a JSON-RPC response.
#[derive(Debug, Clone, PartialEq, Eq)]
pub struct WireError {
    pub code: i64,
    pub message: String,
    /// The compact JSON text of the extra data, when there is any.
    pub data: Option<String>,
}

/// A plugin's reply line read as a JSON-RPC response.
#[derive(Debug, Clone, PartialEq, Eq)]
pub struct WireResponse {
    pub jsonrpc: String,
    pub id: u64,
    /// The compact JSON text of the result; `None` when it is absent or null.
    pub result: Option<String>,
    pub error: Option<WireError>,
}

/// What the hub makes of a plugin's reply line, given `parsed`, the reading
/// of the trimmed line as a [`WireResponse`] (or the reader's error text):
/// the result's JSON text (`null` when there is none), or the error to
/// report.
pub open spec fn reply_result(name: Seq<char>, line: Seq<char>, parsed: Result<WireResponse, String>) -> Result<
    Seq<char>,
    Seq<char>,
> {
    let t = trim(line);
    if t.len() == 0 {
        Err("插件 `"@ + name + "` 未返回响应（stdout 空，可能已崩溃）"@)
    } else {
        match parsed {
            Err(e) => Err("插件 `"@ + name + "` 响应非合法 JSON-RPC: "@ + e@ + " | raw="@ + t),
            Ok(resp) => match resp.error {
                Some(err) => Err("插件 `"@ + name + "` 返回错误 ["@ + signed_decimal(err.code as int) + "]: "@
                    + err.message@),
                None => match resp.result {
                    Some(v) => Ok(v@),
                    None => Ok("null"@),
                },
            },
        }
    }
}

/// Appends `v` in decimal, with a minus sign when negative (see
/// [`signed_decimal`]).
pub fn push_signed_decimal(s: &mut String, v: i64)
    ensures
        final(s)@ == old(s)@ + signed_decimal(v as int),
{
    if v < 0 {
        push_char(s, '-');
        let m: u64 = ((-(v + 1)) as u64) + 1;
        crate::text::push_decimal(s, m);
    } else {
        crate::text::push_decimal(s, v as u64);
    }
}

/// What the hub makes of a plugin's reply line (see [`reply_result`]);
/// errors are internal errors. `parsed` is the reading of the trimmed line.
pub fn plugin_reply(name: &str, line: &str, parsed: &Result<WireResponse, String>) -> (r: Result<String, AirpError>)
    ensures
        match reply_result(name@, line@, *parsed) {
            Ok(v) => r matches Ok(x) && x@ == v,
            Err(m) => r matches Err(AirpError::Internal(x)) && x@ == m,
        },
{
    let t = trim_string(line);
    let mut m = String::new();
    push_str(&mut m, "插件 `");
    push_str(&mut m, name);
    if t.as_str().is_empty() {
        push_str(&mut m, "` 未返回响应（stdout 空，可能已崩溃）");
        return Err(AirpError::Internal(m));
    }
    match parsed {
        Err(e) => {
            push_str(&mut m, "` 响应非合法 JSON-RPC: ");
            push_str(&mut m, e.as_str());
            push_str(&mut m, " | raw=");
            push_str(&mut m, t.as_str());
            Err(AirpError::Internal(m))
        },
        Ok(resp) => match &resp.error {
            Some(err) => {
                push_str(&mut m, "` 返回错误 [");
                push_signed_decimal(&mut m, err.code);
                push_str(&mut m, "]: ");
                push_str(&mut m, err.message.as_str());
                Err(AirpError::Internal(m))
            },
            None => match &resp.result {
                Some(v) => Ok(string_from(v.as_str())),
                None => Ok(string_from("null")),
            },
        },
    }
}

// ---------------------------------------------------------------------------
// The reference echo plugin
// ---------------------------------------------------------------------------

/// What the echo plugin answers a method.
#[derive(Debug, Clone, PartialEq, Eq)]
pub enum EchoReply {
    /// `initialize`: its name, version and protocol.
    Initialized,
    /// `echo`: the request's parameters (null when none).
    Echoed,
    /// Any other method: JSON-RPC error `code` with `message`.
    Failed { code: i64, message: String },
}

/// What the echo plugin answers `method`.
pub fn echo_reply(method: &str) -> (r: EchoReply)
    ensures
        method@ == "initialize"@ ==> r == EchoReply::Initialized,
        method@ == "echo"@ ==> r == EchoReply::Echoed,
        method@ != "initialize"@ && method@ != "echo"@ ==> (r matches EchoReply::Failed {
            code,
            message,
        } && code == -32601 && message@ == "method not found: "@ + method@),
{
    proof {
        reveal_strlit("initialize");
        reveal_strlit("echo");
        assert("echo"@.len() == 4);
        assert("initialize"@.len() == 10);
        assert("echo"@ != "initialize"@);
    }
    let cs = crate::text::chars_of(method);
    if crate::text::str_eq_chars("initialize", &cs) {
        EchoReply::Initialized
    } else if crate::text::str_eq_chars("echo", &cs) {
        EchoReply::Echoed
    } else {
        let mut m = String::new();
        push_str(&mut m, "method not found: ");
        push_str(&mut m, method);
        EchoReply::Failed { code: -32601, message: m }
    }
}

} // verus!
