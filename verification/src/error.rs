//! The library's error type and how each kind maps to an HTTP status.
use vstd::prelude::*;
use crate::text::push_str;

verus! {

/// What went wrong. Each variant carries the text its message shows.
#[derive(Debug, Clone, PartialEq, Eq)]
pub enum AirpError {
    /// File I/O failed.
    Io(String),
    /// JSON could not be read or written.
    Json(String),
    /// The upstream HTTP call itself failed.
    Http(String),
    /// A user-supplied filter pattern was not a valid regex.
    Regex(String),
    /// The request was malformed (missing field, bad id, ...).
    BadRequest(String),
    /// A character, preset, volume or session does not exist.
    NotFound(String),
    /// A user path resolved outside the data root.
    PathEscape(String),
    /// The upstream model API answered with a non-2xx status.
    Upstream { status: u16, body: String },
    /// Configuration broke an invariant.
    Config(String),
    /// Assembling the prompt (card, lorebook, preset) failed.
    Orchestrator(String),
    /// The volume system failed.
    Volume(String),
    /// The streaming filter broke its state machine.
    Fsm(String),
    /// Any other broken invariant.
    Internal(String),
    /// The user's daily quota is used up.
    QuotaExceeded(String),
}

/// The HTTP status of each kind of error.
pub open spec fn status_of(e: AirpError) -> u16 {
    match e {
        AirpError::BadRequest(_) | AirpError::PathEscape(_) => 400,
        AirpError::NotFound(_) => 404,
        AirpError::Upstream { .. } => 502,
        AirpError::QuotaExceeded(_) => 429,
        _ => 500,
    }
}

impl AirpError {
    /// The HTTP status code the error maps to: 400 for a bad request or a
    /// path escape, 404 for a missing resource, 502 for an upstream status,
    /// 429 for a spent quota and 500 for everything else.
    pub fn status(&self) -> (r: u16)
        ensures
            r == status_of(*self),
    {
        match self {
            AirpError::BadRequest(_) | AirpError::PathEscape(_) => 400,
            AirpError::NotFound(_) => 404,
            AirpError::Upstream { .. } => 502,
            AirpError::QuotaExceeded(_) => 429,
            _ => 500,
        }
    }

    /// The message shown for the error: a fixed label for its kind followed
    /// by its text (an upstream error shows its status and body).
    pub fn message(&self) -> (r: String)
        ensures
            match *self {
                AirpError::Io(m) => r@ == "I/O 错误: "@ + m@,
                AirpError::Json(m) => r@ == "JSON 错误: "@ + m@,
                AirpError::Http(m) => r@ == "HTTP 错误: "@ + m@,
                AirpError::Regex(m) => r@ == "正则编译错误: "@ + m@,
                AirpError::BadRequest(m) => r@ == "非法请求: "@ + m@,
                AirpError::NotFound(m) => r@ == "资源不存在: "@ + m@,
                AirpError::PathEscape(m) => r@ == "路径越出 data_root: "@ + debug_quoted(m@),
                AirpError::Upstream { status, body } => r@ == "上游 API 返回 "@
                    + crate::text::decimal(status as nat) + ": "@ + body@,
                AirpError::Config(m) => r@ == "配置错误: "@ + m@,
                AirpError::Orchestrator(m) => r@ == "编排器错误: "@ + m@,
                AirpError::Volume(m) => r@ == "卷系统错误: "@ + m@,
                AirpError::Fsm(m) => r@ == "FSM 错误: "@ + m@,
                AirpError::Internal(m) => r@ == "内部错误: "@ + m@,
                AirpError::QuotaExceeded(m) => r@ == "配额超限: "@ + m@,
            },
    {
        let mut out = String::new();
        match self {
            AirpError::Io(m) => {
                push_str(&mut out, "I/O 错误: ");
                push_str(&mut out, m.as_str());
            },
            AirpError::Json(m) => {
                push_str(&mut out, "JSON 错误: ");
                push_str(&mut out, m.as_str());
            },
            AirpError::Http(m) => {
                push_str(&mut out, "HTTP 错误: ");
                push_str(&mut out, m.as_str());
            },
            AirpError::Regex(m) => {
                push_str(&mut out, "正则编译错误: ");
                push_str(&mut out, m.as_str());
            },
            AirpError::BadRequest(m) => {
                push_str(&mut out, "非法请求: ");
                push_str(&mut out, m.as_str());
            },
            AirpError::NotFound(m) => {
                push_str(&mut out, "资源不存在: ");
                push_str(&mut out, m.as_str());
            },
            AirpError::PathEscape(m) => {
                push_str(&mut out, "路径越出 data_root: ");
                push_debug_quoted(&mut out, m.as_str());
            },
            AirpError::Upstream { status, body } => {
                push_str(&mut out, "上游 API 返回 ");
                crate::text::push_decimal(&mut out, *status as u64);
                push_str(&mut out, ": ");
                push_str(&mut out, body.as_str());
            },
            AirpError::Config(m) => {
                push_str(&mut out, "配置错误: ");
                push_str(&mut out, m.as_str());
            },
            AirpError::Orchestrator(m) => {
                push_str(&mut out, "编排器错误: ");
                push_str(&mut out, m.as_str());
            },
            AirpError::Volume(m) => {
                push_str(&mut out, "卷系统错误: ");
                push_str(&mut out, m.as_str());
            },
            AirpError::Fsm(m) => {
                push_str(&mut out, "FSM 错误: ");
                push_str(&mut out, m.as_str());
            },
            AirpError::Internal(m) => {
                push_str(&mut out, "内部错误: ");
                push_str(&mut out, m.as_str());
            },
            AirpError::QuotaExceeded(m) => {
                push_str(&mut out, "配额超限: ");
                push_str(&mut out, m.as_str());
            },
        }
        out
    }
}


/// How `{:?}` writes one character inside a quoted path: `"` and `\` and
/// the common control characters escaped with a backslash.
pub open spec fn debug_escaped(c: char) -> Seq<char> {
    if c == '"' {
        seq!['\\', '"']
    } else if c == '\\' {
        seq!['\\', '\\']
    } else if c == '\n' {
        seq!['\\', 'n']
    } else if c == '\r' {
        seq!['\\', 'r']
    } else if c == '\t' {
        seq!['\\', 't']
    } else if c == '\0' {
        seq!['\\', '0']
    } else {
        seq![c]
    }
}

/// The characters of `s`, each escaped (see [`debug_escaped`]).
pub open spec fn debug_body(s: Seq<char>) -> Seq<char>
    decreases s.len(),
{
    if s.len() == 0 {
        Seq::empty()
    } else {
        debug_body(s.drop_last()) + debug_escaped(s.last())
    }
}

/// `s` in double quotes, as `{:?}` writes a path.
pub open spec fn debug_quoted(s: Seq<char>) -> Seq<char> {
    seq!['"'] + debug_body(s) + seq!['"']
}

/// Appends `s` in double quotes (see [`debug_quoted`]).
fn push_debug_quoted(out: &mut String, s: &str)
    ensures
        final(out)@ == old(out)@ + debug_quoted(s@),
{
    let cs = crate::text::chars_of(s);
    let ghost start = out@;
    crate::text::push_char(out, '"');
    let mut i: usize = 0;
    while i < cs.len()
        invariant
            i <= cs.len(),
            cs@ == s@,
            out@ == start + seq!['"'] + debug_body(cs@.take(i as int)),
        decreases cs.len() - i,
    {
        proof {
            assert(cs@.take(i + 1).drop_last() =~= cs@.take(i as int));
        }
        let c = cs[i];
        let ghost before = out@;
        if c == '"' {
            crate::text::push_char(out, '\\');
            crate::text::push_char(out, '"');
        } else if c == '\\' {
            crate::text::push_char(out, '\\');
            crate::text::push_char(out, '\\');
        } else if c == '\n' {
            crate::text::push_char(out, '\\');
            crate::text::push_char(out, 'n');
        } else if c == '\r' {
            crate::text::push_char(out, '\\');
            crate::text::push_char(out, 'r');
        } else if c == '\t' {
            crate::text::push_char(out, '\\');
            crate::text::push_char(out, 't');
        } else if c == '\0' {
            crate::text::push_char(out, '\\');
            crate::text::push_char(out, '0');
        } else {
            crate::text::push_char(out, c);
        }
        assert(out@ =~= before + debug_escaped(c));
        i = i + 1;
    }
    assert(cs@.take(cs.len() as int) =~= cs@);
    crate::text::push_char(out, '"');
    assert(out@ =~= start + debug_quoted(s@));
}

} // verus!
