//! The decisions of the chat pipeline: where the card and lorebook come
//! from, what the lorebook scans, which messages go upstream, which settings
//! win, which filters the stream passes through, and what the finalizer
//! keeps of the reply (`<state>` blocks are removed from it and the last
//! valid one becomes the live state).
use vstd::prelude::*;
use crate::adapter::{ChatMessage, MessageModel, Provider, ProviderConfig};
use crate::fsm::{filter_of_regex, filters_model, vars_model, RegexFilter, StreamingFsm};
use crate::json::{json_at, json_valid, JsonDoc, JsonLookup, LookupModel};
use crate::text::{
    chars_of, contains_seq, find_from, find_from_exec, is_white_space, push_char, push_chars_range, push_str,
    skip_ws_forward, string_from, string_of_range, string_views, trim, trim_start, trim_string,
};

verus! {

broadcast use vstd::string::group_string_axioms;

// ---------------------------------------------------------------------------
// Sources
// ---------------------------------------------------------------------------

/// A card id that, trimmed, starts with `{` is the card's JSON itself.
pub open spec fn card_is_inline(card_id: Seq<char>) -> bool {
    trim(card_id).len() > 0 && trim(card_id)[0] == '{'
}

/// A lorebook path that, without its leading whitespace, starts with `{` is
/// the lorebook's JSON itself.
pub open spec fn lorebook_is_inline(path: Seq<char>) -> bool {
    trim_start(path).len() > 0 && trim_start(path)[0] == '{'
}

/// Whether the card id is the card's JSON itself.
pub fn is_inline_card(card_id: &str) -> (r: bool)
    ensures
        r == card_is_inline(card_id@),
{
    let t = trim_string(card_id);
    let cs = chars_of(t.as_str());
    cs.len() > 0 && cs[0] == '{'
}

/// Whether the lorebook path is the lorebook's JSON itself.
pub fn is_inline_lorebook(path: &str) -> (r: bool)
    ensures
        r == lorebook_is_inline(path@),
{
    let cs = chars_of(path);
    let a = skip_ws_forward(&cs, 0, cs.len());
    proof {
        assert(cs@.subrange(0, cs.len() as int) =~= cs@);
        crate::text::lemma_lead_ws(cs@);
    }
    a < cs.len() && cs[a] == '{'
}

// ---------------------------------------------------------------------------
// What the lorebook scans; what goes upstream
// ---------------------------------------------------------------------------

pub open spec fn message_views(v: Seq<ChatMessage>) -> Seq<MessageModel> {
    v.map_values(|m: ChatMessage| m@)
}

/// The message followed by a space and the content of each history message.
pub open spec fn scan_text(message: Seq<char>, history: Seq<MessageModel>) -> Seq<char>
    decreases history.len(),
{
    if history.len() == 0 {
        message
    } else {
        scan_text(message, history.drop_last()) + seq![' '] + history.last().content
    }
}

/// The text the lorebook scans (see [`scan_text`]).
pub fn lorebook_scan_text(message: &str, history: &Vec<ChatMessage>) -> (r: String)
    ensures
        r@ == scan_text(message@, message_views(history@)),
{
    let ghost hv = message_views(history@);
    let mut s = string_from(message);
    let mut i: usize = 0;
    while i < history.len()
        invariant
            i <= history.len(),
            hv == message_views(history@),
            s@ == scan_text(message@, hv.take(i as int)),
        decreases history.len() - i,
    {
        proof {
            assert(hv.take(i + 1).drop_last() =~= hv.take(i as int));
            assert(hv.take(i + 1).last() == history@[i as int]@);
        }
        push_char(&mut s, ' ');
        push_str(&mut s, history[i].content.as_str());
        i = i + 1;
    }
    assert(hv.take(history.len() as int) =~= hv);
    s
}

/// The messages sent upstream: the client's history, else the stored one,
/// else none; then the user's message.
pub open spec fn conversation_of(history: Option<Seq<MessageModel>>, stored: Option<Seq<MessageModel>>, message: Seq<char>) -> Seq<MessageModel> {
    let base = match history {
        Some(h) => h,
        None => match stored {
            Some(s) => s,
            None => Seq::empty(),
        },
    };
    base.push(MessageModel { role: crate::adapter::MessageRole::User, content: message })
}

/// The conversation sent upstream is the chosen history (the client's, else
/// the stored one, else none) message by message in its own order, followed
/// by the user's message.
pub proof fn lemma_conversation_keeps_history(
    history: Option<Seq<MessageModel>>,
    stored: Option<Seq<MessageModel>>,
    message: Seq<char>,
)
    ensures
        ({
            let c = conversation_of(history, stored, message);
            let chosen = match history {
                Some(h) => h,
                None => match stored {
                    Some(s) => s,
                    None => Seq::<MessageModel>::empty(),
                },
            };
            &&& c.len() == chosen.len() + 1
            &&& forall|i: int| 0 <= i < chosen.len() ==> #[trigger] c[i] == chosen[i]
            &&& c[chosen.len() as int] == (MessageModel { role: crate::adapter::MessageRole::User, content: message })
        }),
{
}

pub open spec fn opt_messages(v: Option<&Vec<ChatMessage>>) -> Option<Seq<MessageModel>> {
    match v {
        Some(x) => Some(message_views(x@)),
        None => None,
    }
}

/// Copies of the messages.
fn copy_messages(v: &Vec<ChatMessage>) -> (r: Vec<ChatMessage>)
    ensures
        message_views(r@) == message_views(v@),
{
    let mut out: Vec<ChatMessage> = Vec::new();
    let mut i: usize = 0;
    while i < v.len()
        invariant
            i <= v.len(),
            message_views(out@) == message_views(v@).take(i as int),
        decreases v.len() - i,
    {
        let ghost before = message_views(out@);
        let m = v[i].copy();
        out.push(m);
        assert(message_views(out@) =~= before.push(v@[i as int]@));
        assert(message_views(v@).take(i + 1) =~= message_views(v@).take(i as int).push(v@[i as int]@));
        i = i + 1;
    }
    assert(message_views(v@).take(v.len() as int) =~= message_views(v@));
    out
}

/// The messages sent upstream (see [`conversation_of`]).
pub fn build_conversation(
    history: Option<&Vec<ChatMessage>>,
    stored: Option<&Vec<ChatMessage>>,
    message: &str,
) -> (r: Vec<ChatMessage>)
    ensures
        message_views(r@) == conversation_of(opt_messages(history), opt_messages(stored), message@),
        r.len() >= 1,
        message_views(r@).last() == (MessageModel { role: crate::adapter::MessageRole::User, content: message@ }),
        history matches Some(h) ==> r.len() == h.len() + 1 && forall|i: int|
            0 <= i < h.len() ==> #[trigger] message_views(r@)[i] == message_views(h@)[i],
        history is None ==> (stored matches Some(s) ==> r.len() == s.len() + 1 && forall|i: int|
            0 <= i < s.len() ==> #[trigger] message_views(r@)[i] == message_views(s@)[i]),
        history is None && stored is None ==> r.len() == 1,
{
    proof {
        lemma_conversation_keeps_history(opt_messages(history), opt_messages(stored), message@);
    }
    let mut list = match history {
        Some(h) => copy_messages(h),
        None => match stored {
            Some(s) => copy_messages(s),
            None => Vec::new(),
        },
    };
    let ghost before = message_views(list@);
    let m = ChatMessage { role: crate::adapter::MessageRole::User, content: string_from(message) };
    list.push(m);
    assert(message_views(list@) =~= before.push(m@));
    list
}

// ---------------------------------------------------------------------------
// Which settings win
// ---------------------------------------------------------------------------

/// The model named by the preset: the `model` string of a preset that is a
/// JSON object.
pub open spec fn preset_model_of(preset: Seq<char>) -> Option<Seq<char>> {
    if json_valid(preset) && json_at(preset, Seq::empty()) is Object {
        match json_at(preset, "/model"@) {
            LookupModel::Str(m) => Some(m),
            _ => None,
        }
    } else {
        None
    }
}

/// The model the preset names (see [`preset_model_of`]).
pub fn preset_model(preset_json: &str) -> (r: Option<String>)
    ensures
        match preset_model_of(preset_json@) {
            Some(m) => r matches Some(x) && x@ == m,
            None => r is None,
        },
{
    let doc = match JsonDoc::parse(preset_json) {
        Some(d) => d,
        None => return None,
    };
    proof {
        reveal_strlit("");
    }
    let top = doc.lookup("");
    assert(""@ =~= Seq::<char>::empty());
    match top {
        JsonLookup::Object => {},
        _ => return None,
    }
    match doc.lookup("/model") {
        JsonLookup::Str(m) => Some(m),
        _ => None,
    }
}

/// The model: the request's, else the preset's, else the default.
pub fn resolve_model(request: Option<&str>, preset: Option<&str>, default: &str) -> (r: String)
    ensures
        r@ == match request {
            Some(m) => m@,
            None => match preset {
                Some(m) => m@,
                None => default@,
            },
        },
{
    match request {
        Some(m) => string_from(m),
        None => match preset {
            Some(m) => string_from(m),
            None => string_from(default),
        },
    }
}

/// The connection: each of provider, endpoint and key from the request when
/// it gives one, else from the defaults.
pub fn resolve_provider_config(
    provider: Option<Provider>,
    endpoint: Option<&str>,
    api_key: Option<&str>,
    defaults: &ProviderConfig,
) -> (r: ProviderConfig)
    ensures
        r.provider == match provider {
            Some(p) => p,
            None => defaults.provider,
        },
        r.endpoint@ == match endpoint {
            Some(e) => e@,
            None => defaults.endpoint@,
        },
        crate::orchestrator::opt_view(r.api_key) == match api_key {
            Some(k) => Some(k@),
            None => crate::orchestrator::opt_view(defaults.api_key),
        },
{
    ProviderConfig {
        provider: match provider {
            Some(p) => p,
            None => defaults.provider,
        },
        endpoint: match endpoint {
            Some(e) => string_from(e),
            None => string_from(defaults.endpoint.as_str()),
        },
        api_key: match api_key {
            Some(k) => Some(string_from(k)),
            None => match &defaults.api_key {
                Some(k) => Some(string_from(k.as_str())),
                None => None,
            },
        },
    }
}

// ---------------------------------------------------------------------------
// The stream's filters
// ---------------------------------------------------------------------------

/// The filter that removes volume-evaluation tags.
pub open spec fn volume_eval_pattern() -> Seq<char> {
    "<卷评估[\\s\\S]*?/>"@
}

/// The filter that removes `<state>` blocks.
pub open spec fn state_pattern() -> Seq<char> {
    "<state>[\\s\\S]*?</state>"@
}

/// The patterns the stream is filtered with: the request's, the preset's,
/// and the two fixed ones.
pub open spec fn filter_patterns(request: Seq<Seq<char>>, preset: Seq<Seq<char>>) -> Seq<Seq<char>> {
    request + preset + seq![volume_eval_pattern(), state_pattern()]
}

/// The variables the stream fills in: the user's, then `user`, then `char`
/// when the card names the character (a later entry wins).
pub open spec fn runtime_vars(vars: Seq<(Seq<char>, Seq<char>)>, user_name: Seq<char>, char_name: Option<Seq<char>>) -> Seq<(Seq<char>, Seq<char>)> {
    let v = vars.push(("user"@, user_name));
    match char_name {
        Some(n) => v.push(("char"@, n)),
        None => v,
    }
}

fn copy_pairs(v: &Vec<(String, String)>) -> (r: Vec<(String, String)>)
    ensures
        vars_model(r@) == vars_model(v@),
{
    let mut out: Vec<(String, String)> = Vec::new();
    let mut i: usize = 0;
    while i < v.len()
        invariant
            i <= v.len(),
            out.len() == i,
            forall|x: int| 0 <= x < i ==> #[trigger] out@[x].0@ == v@[x].0@ && out@[x].1@ == v@[x].1@,
        decreases v.len() - i,
    {
        let a = string_from(v[i].0.as_str());
        let b = string_from(v[i].1.as_str());
        out.push((a, b));
        i = i + 1;
    }
    assert(vars_model(out@) =~= vars_model(v@));
    out
}

/// The streaming filter of a chat: filters from the request's patterns, the
/// preset's patterns and the two fixed ones, in that order; the variables
/// of [`runtime_vars`].
pub fn build_stream_fsm(
    request_filters: Option<&Vec<String>>,
    preset_filters: &Vec<String>,
    variables: &Vec<(String, String)>,
    user_name: &str,
    char_name: Option<&str>,
) -> (r: StreamingFsm)
    ensures
        r.wf(),
        ({
            let pats = filter_patterns(
                match request_filters {
                    Some(v) => string_views(v@),
                    None => Seq::empty(),
                },
                string_views(preset_filters@),
            );
            r.filters() == Seq::new(pats.len(), |i: int| filter_of_regex(pats[i]))
        }),
        r.vars() == runtime_vars(
            vars_model(variables@),
            user_name@,
            match char_name {
                Some(n) => Some(n@),
                None => None,
            },
        ),
{
    let mut pats: Vec<String> = Vec::new();
    match request_filters {
        Some(v) => {
            let mut i: usize = 0;
            while i < v.len()
                invariant
                    i <= v.len(),
                    string_views(pats@) =~= string_views(v@).take(i as int),
                decreases v.len() - i,
            {
                let ghost before = string_views(pats@);
                let x = string_from(v[i].as_str());
                pats.push(x);
                assert(string_views(pats@) =~= before.push(v@[i as int]@));
                assert(string_views(v@).take(i + 1 as int) =~= string_views(v@).take(i as int).push(
                    v@[i as int]@,
                ));
                i = i + 1;
            }
            assert(string_views(v@).take(v.len() as int) =~= string_views(v@));
        },
        None => {},
    }
    let ghost p0 = string_views(pats@);
    let mut j: usize = 0;
    while j < preset_filters.len()
        invariant
            j <= preset_filters.len(),
            string_views(pats@) =~= p0 + string_views(preset_filters@).take(j as int),
        decreases preset_filters.len() - j,
    {
        let ghost before = string_views(pats@);
        let x = string_from(preset_filters[j].as_str());
        pats.push(x);
        assert(string_views(pats@) =~= before.push(preset_filters@[j as int]@));
        assert(string_views(preset_filters@).take(j + 1 as int) =~= string_views(preset_filters@).take(
            j as int,
        ).push(preset_filters@[j as int]@));
        j = j + 1;
    }
    assert(string_views(preset_filters@).take(preset_filters.len() as int) =~= string_views(
        preset_filters@,
    ));
    pats.push(string_from("<卷评估[\\s\\S]*?/>"));
    pats.push(string_from("<state>[\\s\\S]*?</state>"));
    let ghost want = filter_patterns(
        match request_filters {
            Some(v) => string_views(v@),
            None => Seq::empty(),
        },
        string_views(preset_filters@),
    );
    assert(string_views(pats@) =~= want);
    let mut filters: Vec<RegexFilter> = Vec::new();
    let mut k: usize = 0;
    while k < pats.len()
        invariant
            k <= pats.len(),
            string_views(pats@) == want,
            filters.len() == k,
            forall|x: int| 0 <= x < k ==> (#[trigger] filters@[x].start@, filters@[x].end@)
                == filter_of_regex(want[x]),
        decreases pats.len() - k,
    {
        let f = RegexFilter::from_regex(pats[k].as_str());
        filters.push(f);
        k = k + 1;
    }
    let mut vars = copy_pairs(variables);
    let ghost v0 = vars_model(vars@);
    vars.push((string_from("user"), string_from(user_name)));
    match char_name {
        Some(n) => {
            vars.push((string_from("char"), string_from(n)));
        },
        None => {},
    }
    assert(vars_model(vars@) =~= runtime_vars(
        vars_model(variables@),
        user_name@,
        match char_name {
            Some(n) => Some(n@),
            None => None,
        },
    ));
    let fsm = StreamingFsm::new(filters, vars);
    assert(fsm.filters() =~= Seq::new(want.len(), |i: int| filter_of_regex(want[i])));
    fsm
}

// ---------------------------------------------------------------------------
// `<state>` blocks
// ---------------------------------------------------------------------------

pub open spec fn state_open() -> Seq<char> {
    "<state>"@
}

pub open spec fn state_close() -> Seq<char> {
    "</state>"@
}

/// `s[pos..]` without its `<state>…</state>` blocks (an unclosed `<state>`
/// and what follows it stay), and the trimmed content of its last block
/// that is valid JSON.
pub open spec fn strip_states(s: Seq<char>, pos: int) -> (Seq<char>, Option<Seq<char>>)
    decreases s.len() + 1 - pos,
{
    if pos < 0 || pos > s.len() {
        (Seq::empty(), None)
    } else {
        match find_from(s, state_open(), pos) {
            None => (s.subrange(pos, s.len() as int), None),
            Some(t) => match find_from(s, state_close(), t + state_open().len()) {
                None => (s.subrange(pos, s.len() as int), None),
                Some(c) => if c + state_close().len() > pos && c + state_close().len() <= s.len() {
                    let (rest, later) = strip_states(s, c + state_close().len());
                    let inner = trim(s.subrange(t + state_open().len(), c));
                    (
                        s.subrange(pos, t) + rest,
                        if later is Some {
                            later
                        } else if json_valid(inner) {
                            Some(inner)
                        } else {
                            None
                        },
                    )
                } else {
                    (Seq::empty(), None)
                },
            },
        }
    }
}

/// The source of an optional document.
pub open spec fn doc_source(d: Option<JsonDoc>) -> Option<Seq<char>> {
    match d {
        Some(x) => Some(x.source()),
        None => None,
    }
}

/// The text without its `<state>` blocks, and the last block that is valid
/// JSON, parsed (see [`strip_states`]).
pub fn extract_state_content(text: &str) -> (r: (String, Option<JsonDoc>))
    ensures
        r.0@ == strip_states(text@, 0).0,
        match strip_states(text@, 0).1 {
            Some(inner) => r.1 matches Some(d) && d.source() == inner,
            None => r.1 is None,
        },
{
    proof {
        reveal_strlit("<state>");
        reveal_strlit("</state>");
    }
    let cs = chars_of(text);
    let open = chars_of("<state>");
    let close = chars_of("</state>");
    assert(open@.len() == 7);
    assert(close@.len() == 8);
    let mut out = String::new();
    let mut last: Option<JsonDoc> = None;
    let mut pos: usize = 0;
    let ghost s = cs@;
    // Walk forward; the state of the last valid block seen so far is kept.
    loop
        invariant
            pos <= cs.len(),
            s == cs@,
            s == text@,
            open@ == state_open(),
            close@ == state_close(),
            open@.len() == 7,
            close@.len() == 8,
            strip_states(s, 0).0 == out@ + strip_states(s, pos as int).0,
            strip_states(s, 0).1 == match strip_states(s, pos as int).1 {
                Some(x) => Some(x),
                None => doc_source(last),
            },
        decreases cs.len() + 1 - pos,
    {
        let ghost before = out@;
        match find_from_exec(&cs, &open, pos) {
            None => {
                push_chars_range(&mut out, &cs, pos, cs.len());
                return (out, last);
            },
            Some(t) => {
                proof {
                    crate::text::lemma_find_from_bounds(s, state_open(), pos as int);
                }
                match find_from_exec(&cs, &close, t + open.len()) {
                    None => {
                        push_chars_range(&mut out, &cs, pos, cs.len());
                        return (out, last);
                    },
                    Some(c) => {
                        proof {
                            crate::text::lemma_find_from_bounds(s, state_close(), t + 7);
                        }
                        push_chars_range(&mut out, &cs, pos, t);
                        let inner = string_of_range(&cs, t + open.len(), c);
                        let trimmed = trim_string(inner.as_str());
                        let parsed = JsonDoc::parse(trimmed.as_str());
                        match parsed {
                            Some(d) => {
                                last = Some(d);
                            },
                            None => {},
                        }
                        proof {
                            assert(before + (s.subrange(pos as int, t as int) + strip_states(
                                s,
                                c + 8,
                            ).0) =~= out@ + strip_states(s, c + 8).0);
                        }
                        pos = c + close.len();
                    },
                }
            },
        }
    }
}

// ---------------------------------------------------------------------------
// What the finalizer keeps
// ---------------------------------------------------------------------------

/// What the finalizer writes for a reply: the reply without its `<state>`
/// blocks as the assistant's message, unless that is only whitespace; and
/// the live state, when a block held valid JSON.
pub fn finalize_reply(cleaned: &str) -> (r: (Option<String>, Option<JsonDoc>))
    ensures
        match r.0 {
            Some(m) => m@ == strip_states(cleaned@, 0).0 && trim(m@).len() > 0,
            None => trim(strip_states(cleaned@, 0).0).len() == 0,
        },
        match strip_states(cleaned@, 0).1 {
            Some(inner) => r.1 matches Some(d) && d.source() == inner,
            None => r.1 is None,
        },
{
    let (stripped, state) = extract_state_content(cleaned);
    let t = trim_string(stripped.as_str());
    if t.as_str().is_empty() {
        (None, state)
    } else {
        (Some(stripped), state)
    }
}

/// Whether the maintenance task runs after turn `turn_count`: on every
/// `interval`-th turn (an interval of 0 counts as 1).
pub fn maintenance_due(turn_count: u64, interval: u32) -> (r: bool)
    ensures
        r == (turn_count > 0 && turn_count % (if interval == 0 {
            1u64
        } else {
            interval as u64
        }) == 0),
{
    let every: u64 = if interval == 0 {
        1
    } else {
        interval as u64
    };
    turn_count > 0 && turn_count % every == 0
}


/// A reply without `<state>` is kept whole and gives no state.
pub proof fn lemma_no_state_tag_unchanged(text: Seq<char>)
    requires
        !contains_seq(text, state_open()),
    ensures
        strip_states(text, 0).0 == text,
        strip_states(text, 0).1 is None,
{
    assert(text.subrange(0, text.len() as int) =~= text);
}

} // verus!
