//! The upstream model protocol: which backend and provider to call, the
//! messages of a conversation, and the reading of one line of a streamed
//! (server-sent events) answer.
use vstd::prelude::*;
use crate::json::{json_at, json_error, json_valid, JsonDoc, JsonLookup, LookupModel};
use crate::text::{
    chars_of, push_str, starts_with, string_of, sub_chars, trim, trim_bounds, utf8_len,
    utf8_width_exec,
};

verus! {

broadcast use vstd::string::group_string_axioms;

/// How the service calls the upstream model.
#[derive(Debug, Clone, Copy, PartialEq, Eq)]
pub enum BackendEngine {
    /// OpenAI-compatible `/v1/chat/completions` streaming (the default).
    Direct,
    /// Anthropic's `/v1/messages` streaming API.
    AnthropicMessages,
    /// Reserved; not implemented.
    ClaudeCodeSdk,
}

impl Default for BackendEngine {
    fn default() -> (r: BackendEngine)
        ensures
            r == BackendEngine::Direct,
    {
        BackendEngine::Direct
    }
}

/// The provider protocol; every endpoint speaks the OpenAI-compatible one.
#[derive(Debug, Clone, Copy, PartialEq, Eq)]
#[non_exhaustive]
pub enum Provider {
    OpenAI,
}

impl Default for Provider {
    fn default() -> (r: Provider)
        ensures
            r == Provider::OpenAI,
    {
        Provider::OpenAI
    }
}

/// Where and how to connect to the model service.
#[derive(Debug, Clone)]
pub struct ProviderConfig {
    pub provider: Provider,
    /// Full endpoint URL, with the `/chat/completions` path.
    pub endpoint: String,
    /// No `Authorization` header is sent when absent.
    pub api_key: Option<String>,
}

/// Who wrote a message.
#[derive(Debug, Clone, Copy, PartialEq, Eq)]
pub enum MessageRole {
    User,
    Assistant,
    System,
}

impl MessageRole {
    /// The lower-case wire name (`user`, `assistant`, `system`).
    pub fn as_wire(&self) -> (r: &'static str)
        ensures
            r@ == match *self {
                MessageRole::User => "user"@,
                MessageRole::Assistant => "assistant"@,
                MessageRole::System => "system"@,
            },
    {
        match self {
            MessageRole::User => "user",
            MessageRole::Assistant => "assistant",
            MessageRole::System => "system",
        }
    }
}

/// One message of a conversation.
#[derive(Debug, Clone, PartialEq)]
pub struct ChatMessage {
    pub role: MessageRole,
    pub content: String,
}

pub struct MessageModel {
    pub role: MessageRole,
    pub content: Seq<char>,
}

impl View for ChatMessage {
    type V = MessageModel;

    open spec fn view(&self) -> MessageModel {
        MessageModel { role: self.role, content: self.content@ }
    }
}

impl ChatMessage {
    /// A copy with the same role and text.
    pub fn copy(&self) -> (r: ChatMessage)
        ensures
            r@ == self@,
    {
        ChatMessage { role: self.role, content: string_of(&chars_of(self.content.as_str())) }
    }
}

// ---------------------------------------------------------------------------
// Streamed lines
// ---------------------------------------------------------------------------

/// `data:`
pub open spec fn data_prefix() -> Seq<char> {
    seq!['d', 'a', 't', 'a', ':']
}

/// `[DONE]`
pub open spec fn done_marker() -> Seq<char> {
    seq!['[', 'D', 'O', 'N', 'E', ']']
}

/// The payload of a `data:` line, trimmed.
pub open spec fn data_payload(line: Seq<char>) -> Seq<char> {
    trim(line.subrange(5, line.len() as int))
}

/// What an OpenAI stream line gives: nothing for a line that is not
/// `data:` or is the `[DONE]` marker; an error for a payload that is not
/// JSON; otherwise the string at `/choices/0/delta/content`, if there is one.
pub open spec fn openai_line_result(line: Seq<char>) -> Result<Option<Seq<char>>, Seq<char>> {
    if !starts_with(line, data_prefix()) {
        Ok(None)
    } else {
        let d = data_payload(line);
        if d == done_marker() {
            Ok(None)
        } else if !json_valid(d) {
            Err("解析 OpenAI data JSON 失败: "@ + json_error(d) + "，原始行: "@ + line)
        } else {
            match json_at(d, "/choices/0/delta/content"@) {
                LookupModel::Str(s) => Ok(Some(s)),
                _ => Ok(None),
            }
        }
    }
}

pub open spec fn result_view(r: Result<Option<String>, String>) -> Result<Option<Seq<char>>, Seq<char>> {
    match r {
        Ok(Some(s)) => Ok(Some(s@)),
        Ok(None) => Ok(None),
        Err(e) => Err(e@),
    }
}

/// Reads one line of an OpenAI-compatible stream (see [`openai_line_result`]).
pub fn parse_openai_sse_line(line: &str) -> (r: Result<Option<String>, String>)
    ensures
        result_view(r) == openai_line_result(line@),
{
    let cs = chars_of(line);
    let dp: Vec<char> = vec!['d', 'a', 't', 'a', ':'];
    assert(dp@ =~= data_prefix());
    if !crate::text::starts_with_exec(&cs, &dp) {
        return Ok(None);
    }
    let (a, b) = trim_bounds(&cs, 5, cs.len());
    let d = sub_chars(&cs, a, b);
    let done: Vec<char> = vec!['[', 'D', 'O', 'N', 'E', ']'];
    assert(done@ =~= done_marker());
    if crate::text::chars_eq(&d, &done) {
        return Ok(None);
    }
    let ds = string_of(&d);
    match JsonDoc::parse_or_error(ds.as_str()) {
        Err(e) => {
            let mut m = String::new();
            push_str(&mut m, "解析 OpenAI data JSON 失败: ");
            push_str(&mut m, e.as_str());
            push_str(&mut m, "，原始行: ");
            push_str(&mut m, line);
            Err(m)
        },
        Ok(doc) => match doc.lookup("/choices/0/delta/content") {
            JsonLookup::Str(s) => Ok(Some(s)),
            _ => Ok(None),
        },
    }
}

/// The line's first five bytes are whole characters (slicing at byte 5 is
/// valid).
pub open spec fn cut_at_five_bytes(line: Seq<char>) -> bool {
    exists|k: int| 0 <= k <= line.len() && utf8_len(line.subrange(0, k)) == 5
}

/// The characters that fill the first five bytes.
pub open spec fn five_byte_chars(line: Seq<char>) -> int {
    choose|k: int| 0 <= k <= line.len() && utf8_len(line.subrange(0, k)) == 5
}

/// What an Anthropic stream line gives: the string at `/delta/text` of the
/// JSON after the first five bytes (the `data:` field name), if the payload
/// is JSON and has one.
pub open spec fn anthropic_line_result(line: Seq<char>) -> Option<Seq<char>> {
    let d = trim(line.subrange(five_byte_chars(line), line.len() as int));
    if !json_valid(d) {
        None
    } else {
        match json_at(d, "/delta/text"@) {
            LookupModel::Str(s) => Some(s),
            _ => None,
        }
    }
}

proof fn lemma_utf8_len_strict(s: Seq<char>, i: int, j: int)
    requires
        0 <= i < j <= s.len(),
    ensures
        crate::text::utf8_len(s.subrange(0, i)) < crate::text::utf8_len(s.subrange(0, j)),
    decreases j - i,
{
    assert(s.subrange(0, j).drop_last() =~= s.subrange(0, j - 1));
    if i < j - 1 {
        lemma_utf8_len_strict(s, i, j - 1);
    }
}

/// Reads one line of an Anthropic stream (see [`anthropic_line_result`]).
/// The caller passes a line whose first five bytes are whole characters.
pub fn parse_anthropic_delta_line(line: &str) -> (r: Option<String>)
    requires
        cut_at_five_bytes(line@),
    ensures
        match r {
            Some(s) => anthropic_line_result(line@) == Some(s@),
            None => anthropic_line_result(line@) is None,
        },
{
    let cs = chars_of(line);
    let ghost k = five_byte_chars(line@);
    let mut bytes: usize = 0;
    let mut i: usize = 0;
    while bytes < 5
        invariant
            i <= cs.len(),
            cs@ == line@,
            0 <= k <= cs.len(),
            utf8_len(cs@.subrange(0, k)) == 5,
            bytes == utf8_len(cs@.subrange(0, i as int)),
            bytes <= 5,
            i <= k,
        decreases k - i,
    {
        proof {
            assert(i != k);
            assert(i < k);
            lemma_utf8_len_strict(cs@, i as int, k);
            assert(cs@.subrange(0, i + 1).drop_last() =~= cs@.subrange(0, i as int));
            if i + 1 < k {
                lemma_utf8_len_strict(cs@, i + 1, k);
            }
        }
        bytes = bytes + utf8_width_exec(cs[i]);
        i = i + 1;
    }
    proof {
        if i < k {
            lemma_utf8_len_strict(cs@, i as int, k);
        }
        assert(i == k);
    }
    let (a, b) = trim_bounds(&cs, i, cs.len());
    let d = string_of(&sub_chars(&cs, a, b));
    match JsonDoc::parse(d.as_str()) {
        None => None,
        Some(doc) => match doc.lookup("/delta/text") {
            JsonLookup::Str(s) => Some(s),
            _ => None,
        },
    }
}

} // verus!
