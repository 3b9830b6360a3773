//! The MCP resources: which resource an `airp://` URI names, and the paging
//! of long texts with `?offset=N&limit=M`.
//!
//! Reading the files a route names happens at the caller.
use vstd::prelude::*;
use crate::security::{id_rejection, validate_id_segment};
use crate::text::{
    char_in, chars_of, decimal, digits_value, first_of, first_of_exec, is_ascii_digit,
    lemma_first_of, lemma_utf8_len_prefix_mono, occurs_at, occurs_at_exec, push_chars_range,
    push_decimal, push_str, split_by, split_chars, string_of_range, utf8_len, utf8_width,
    utf8_width_exec, views,
};

verus! {

broadcast use vstd::string::group_string_axioms;

/// The page size when the URI asks for none, in bytes.
pub const DEFAULT_LIMIT: usize = 100000;

// ---------------------------------------------------------------------------
// `?offset=N&limit=M`
// ---------------------------------------------------------------------------

/// What `usize::from_str` gives for `s`: an optional `+` followed by one or
/// more ASCII digits whose value fits in a `usize`.
pub open spec fn parse_usize_spec(s: Seq<char>) -> Option<nat> {
    let d = unsigned_digits(s);
    if d.len() > 0 && all_digits(d) && digits_value(d) <= usize::MAX {
        Some(digits_value(d))
    } else {
        None
    }
}

/// `s` without one leading `+`.
pub open spec fn unsigned_digits(s: Seq<char>) -> Seq<char> {
    if s.len() > 0 && s[0] == '+' {
        s.skip(1)
    } else {
        s
    }
}

/// Every character of `d` is an ASCII digit.
pub open spec fn all_digits(d: Seq<char>) -> bool {
    forall|i: int| 0 <= i < d.len() ==> is_ascii_digit(#[trigger] d[i])
}

/// The query of `uri`: what follows its first `?`, or nothing.
pub open spec fn query_of(uri: Seq<char>) -> Seq<char> {
    let q = first_of(uri, '?', 0);
    if q < uri.len() {
        uri.skip(q + 1)
    } else {
        Seq::empty()
    }
}

/// The value of the first `&`-separated piece of `pieces` that starts with
/// `key` and whose rest parses as a `usize`.
pub open spec fn param_value(pieces: Seq<Seq<char>>, key: Seq<char>) -> Option<nat>
    decreases pieces.len(),
{
    if pieces.len() == 0 {
        None
    } else {
        let p = pieces[0];
        if occurs_at(p, key, 0) && parse_usize_spec(p.skip(key.len() as int)) is Some {
            parse_usize_spec(p.skip(key.len() as int))
        } else {
            param_value(pieces.drop_first(), key)
        }
    }
}

/// The offset (0 by default) and limit (100 000 by default) that `uri` asks for.
pub open spec fn offset_limit(uri: Seq<char>) -> (nat, nat) {
    let pieces = split_by(query_of(uri), seq!['&']);
    (
        match param_value(pieces, "offset="@) {
            Some(v) => v,
            None => 0,
        },
        match param_value(pieces, "limit="@) {
            Some(v) => v,
            None => DEFAULT_LIMIT as nat,
        },
    )
}

/// `usize::from_str` on `cs[from..to]`.
fn parse_usize(cs: &Vec<char>, from: usize, to: usize) -> (r: Option<usize>)
    requires
        from <= to <= cs.len(),
    ensures
        match parse_usize_spec(cs@.subrange(from as int, to as int)) {
            Some(v) => r == Some(v as usize),
            None => r is None,
        },
{
    let ghost s = cs@.subrange(from as int, to as int);
    let mut i = from;
    if i < to && cs[i] == '+' {
        i = i + 1;
    }
    let ghost d = cs@.subrange(i as int, to as int);
    assert(d =~= unsigned_digits(s));
    if i == to {
        return None;
    }
    let mut v: usize = 0;
    let mut k = i;
    while k < to
        invariant
            i <= k <= to <= cs.len(),
            i < to,
            d == cs@.subrange(i as int, to as int),
            s == cs@.subrange(from as int, to as int),
            d == unsigned_digits(s),
            forall|j: int| i <= j < k ==> is_ascii_digit(cs@[j]),
            v == digits_value(cs@.subrange(i as int, k as int)),
        decreases to - k,
    {
        let c = cs[k];
        if !('0' <= c && c <= '9') {
            assert(!is_ascii_digit(d[k - i]));
            assert(!all_digits(d));
            assert(parse_usize_spec(s) is None);
            return None;
        }
        let dig: usize = (c as u32 - 48) as usize;
        proof {
            assert(cs@.subrange(i as int, k + 1).drop_last() =~= cs@.subrange(i as int, k as int));
        }
        if v > (usize::MAX - dig) / 10 {
            proof {
                assert(v * 10 + dig > usize::MAX) by (nonlinear_arith)
                    requires
                        v > (usize::MAX - dig) / 10,
                        dig <= 9,
                ;
                assert(digits_value(cs@.subrange(i as int, k + 1)) > usize::MAX);
                if all_digits(d) {
                    lemma_digits_value_prefix(d, (k + 1 - i) as nat);
                    assert(d.take(k + 1 - i) =~= cs@.subrange(i as int, k + 1));
                }
                assert(parse_usize_spec(s) is None);
            }
            return None;
        }
        proof {
            assert(v * 10 + dig <= usize::MAX) by (nonlinear_arith)
                requires
                    v <= (usize::MAX - dig) / 10,
                    dig <= 9,
            ;
        }
        v = v * 10 + dig;
        k = k + 1;
    }
    assert(cs@.subrange(i as int, k as int) =~= d);
    assert(all_digits(d));
    assert(parse_usize_spec(s) == Some(v as nat));
    Some(v)
}

/// The value of a run of digits is at least the value of each of its prefixes.
pub proof fn lemma_digits_value_prefix(d: Seq<char>, n: nat)
    requires
        n <= d.len(),
        forall|i: int| 0 <= i < d.len() ==> is_ascii_digit(#[trigger] d[i]),
    ensures
        digits_value(d.take(n as int)) <= digits_value(d),
    decreases d.len() - n,
{
    if n < d.len() {
        lemma_digits_value_prefix(d, n + 1);
        assert(d.take(n + 1 as int).drop_last() =~= d.take(n as int));
    } else {
        assert(d.take(n as int) =~= d);
    }
}

/// The first piece of `pieces[from..]` that gives a value for `key`.
fn param_value_exec(pieces: &Vec<Vec<char>>, key: &Vec<char>) -> (r: Option<usize>)
    ensures
        match param_value(views(pieces@), key@) {
            Some(v) => r == Some(v as usize) && v <= usize::MAX,
            None => r is None,
        },
{
    let ghost pv = views(pieces@);
    let mut i: usize = 0;
    assert(pv.skip(0) =~= pv);
    while i < pieces.len()
        invariant
            i <= pieces.len(),
            pv == views(pieces@),
            param_value(pv, key@) == param_value(pv.skip(i as int), key@),
        decreases pieces.len() - i,
    {
        let p = &pieces[i];
        proof {
            assert(pv.skip(i as int)[0] == p@);
            assert(pv.skip(i as int).drop_first() =~= pv.skip(i + 1));
        }
        if occurs_at_exec(p, key, 0) {
            match parse_usize(p, key.len(), p.len()) {
                Some(v) => {
                    assert(p@.skip(key@.len() as int) =~= p@.subrange(key@.len() as int, p@.len() as int));
                    return Some(v);
                },
                None => {
                    assert(p@.skip(key@.len() as int) =~= p@.subrange(key@.len() as int, p@.len() as int));
                },
            }
        }
        i = i + 1;
    }
    assert(pv.skip(i as int) =~= Seq::<Seq<char>>::empty());
    None
}

/// The offset and limit that `uri` asks for (see [`offset_limit`]).
pub fn parse_offset_limit(uri: &str) -> (r: (usize, usize))
    ensures
        r.0 == offset_limit(uri@).0,
        r.1 == offset_limit(uri@).1,
{
    let cs = chars_of(uri);
    let q = first_of_exec(&cs, '?', 0);
    let query: Vec<char> = if q < cs.len() {
        crate::text::sub_chars(&cs, q + 1, cs.len())
    } else {
        Vec::new()
    };
    assert(query@ =~= query_of(uri@));
    let seps: Vec<char> = vec!['&'];
    assert(seps@ =~= seq!['&']);
    let pieces = split_chars(&query, &seps);
    let ok = chars_of("offset=");
    let lk = chars_of("limit=");
    let offset = match param_value_exec(&pieces, &ok) {
        Some(v) => v,
        None => 0,
    };
    let limit = match param_value_exec(&pieces, &lk) {
        Some(v) => v,
        None => DEFAULT_LIMIT,
    };
    (offset, limit)
}

// ---------------------------------------------------------------------------
// Paging
// ---------------------------------------------------------------------------

/// The first character index `k >= i` of `s` at which the UTF-8 length of
/// `s[..k]` reaches `b`, or `s.len()`.
pub open spec fn boundary_from(s: Seq<char>, i: int, b: nat) -> int
    decreases s.len() - i,
{
    if i < 0 || i >= s.len() || utf8_len(s.take(i)) >= b {
        i
    } else {
        boundary_from(s, i + 1, b)
    }
}

/// The character indices where the page at byte `offset` with at most
/// `limit` bytes starts and ends: it starts at the first character that
/// starts at or after `offset` (clamped to the text), and ends at the first
/// character boundary at or after `limit` bytes further (clamped likewise).
pub open spec fn page_bounds(text: Seq<char>, offset: nat, limit: nat) -> (int, int) {
    let total = utf8_len(text);
    let start = if offset < total {
        offset
    } else {
        total
    };
    let k = boundary_from(text, 0, start);
    let slice = text.skip(k);
    let end = if limit < utf8_len(slice) {
        limit
    } else {
        utf8_len(slice)
    };
    (k, k + boundary_from(slice, 0, end))
}

/// The page of `text` that `uri` asks for: from the first character that
/// starts at or after byte `offset` (clamped to the text), at most `limit`
/// bytes, cut back to the first character boundary at or after that; with a
/// `[PARTIAL: …]` line in front when the text is longer than the default
/// page or the offset is not zero.
pub open spec fn paginated(text: Seq<char>, uri: Seq<char>) -> Seq<char> {
    let (offset, limit) = offset_limit(uri);
    let total = utf8_len(text);
    let (k, j) = page_bounds(text, offset, limit);
    let page = text.subrange(k, j);
    if total > DEFAULT_LIMIT || offset > 0 {
        "[PARTIAL: total="@ + decimal(total) + " chars, offset="@ + decimal(offset) + ", limit="@
            + decimal(limit) + " — append ?offset=N&limit=M to URI to page]\n"@ + page
    } else {
        page
    }
}

pub proof fn lemma_utf8_len_split(s: Seq<char>, k: int)
    requires
        0 <= k <= s.len(),
    ensures
        utf8_len(s) == utf8_len(s.take(k)) + utf8_len(s.skip(k)),
    decreases s.len(),
{
    if k == s.len() {
        assert(s.take(k) =~= s);
        assert(s.skip(k) =~= Seq::<char>::empty());
    } else {
        lemma_utf8_len_split(s.drop_last(), k);
        assert(s.drop_last().take(k) =~= s.take(k));
        assert(s.skip(k).drop_last() =~= s.drop_last().skip(k));
        assert(s.skip(k).last() == s.last());
    }
}

proof fn lemma_boundary_at_end(s: Seq<char>, i: int)
    requires
        0 <= i <= s.len(),
    ensures
        boundary_from(s, i, utf8_len(s)) == s.len(),
    decreases s.len() - i,
{
    if i < s.len() {
        lemma_utf8_len_split(s, i);
        let rest = s.skip(i);
        assert(rest.len() > 0);
        assert(utf8_len(rest) == utf8_len(rest.drop_last()) + utf8_width(rest.last()));
        lemma_boundary_at_end(s, i + 1);
    }
}

/// A text no longer than the default page, read through a URI without a
/// query, comes back whole and without a header.
pub proof fn lemma_small_text_whole(text: Seq<char>, uri: Seq<char>)
    requires
        utf8_len(text) <= DEFAULT_LIMIT,
        !uri.contains('?'),
    ensures
        paginated(text, uri) == text,
{
    reveal_strlit("offset=");
    reveal_strlit("limit=");
    lemma_first_of(uri, '?', 0);
    if first_of(uri, '?', 0) < uri.len() {
        assert(uri[first_of(uri, '?', 0)] == '?');
    }
    assert(query_of(uri) == Seq::<char>::empty());
    let pieces = split_by(Seq::<char>::empty(), seq!['&']);
    assert(pieces == seq![Seq::<char>::empty()]);
    assert(pieces.drop_first() =~= Seq::<Seq<char>>::empty());
    assert(!occurs_at(pieces[0], "offset="@, 0));
    assert(!occurs_at(pieces[0], "limit="@, 0));
    assert(param_value(pieces.drop_first(), "offset="@) is None);
    assert(param_value(pieces.drop_first(), "limit="@) is None);
    assert(param_value(pieces, "offset="@) is None);
    assert(param_value(pieces, "limit="@) is None);
    assert(offset_limit(uri) == (0nat, DEFAULT_LIMIT as nat));
    assert(text.take(0) =~= Seq::<char>::empty());
    assert(boundary_from(text, 0, 0) == 0);
    assert(text.skip(0) =~= text);
    lemma_boundary_at_end(text, 0);
    assert(text.take(text.len() as int) =~= text);
}

proof fn lemma_boundary_char(s: Seq<char>, i: int, b: nat)
    requires
        0 <= i <= s.len(),
    ensures
        i <= boundary_from(s, i, b) <= s.len(),
        forall|j: int| i <= j < boundary_from(s, i, b) ==> utf8_len(#[trigger] s.take(j)) < b,
        boundary_from(s, i, b) < s.len() ==> utf8_len(s.take(boundary_from(s, i, b))) >= b,
    decreases s.len() - i,
{
    if i < s.len() && utf8_len(s.take(i)) < b {
        lemma_boundary_char(s, i + 1, b);
    }
}

proof fn lemma_boundary_unique(s: Seq<char>, i: int, b: nat, j0: int)
    requires
        0 <= i <= j0 <= s.len(),
        forall|j: int| i <= j < j0 ==> utf8_len(#[trigger] s.take(j)) < b,
        j0 == s.len() || utf8_len(s.take(j0)) >= b,
    ensures
        boundary_from(s, i, b) == j0,
    decreases j0 - i,
{
    if i < j0 {
        assert(utf8_len(s.take(i)) < b);
        lemma_boundary_unique(s, i + 1, b, j0);
    }
}

/// The bytes of `s[k..k + i]` are those of `s[..k + i]` less those of `s[..k]`.
proof fn lemma_utf8_len_window(s: Seq<char>, k: int, i: int)
    requires
        0 <= k,
        0 <= i,
        k + i <= s.len(),
    ensures
        utf8_len(s.skip(k).take(i)) == utf8_len(s.take(k + i)) - utf8_len(s.take(k)),
{
    let w = s.take(k + i);
    lemma_utf8_len_split(w, k);
    assert(w.take(k) =~= s.take(k));
    assert(w.skip(k) =~= s.skip(k).take(i));
}

/// A page that starts on a character boundary ends exactly where the page at
/// `offset + limit` starts: paging on from there neither skips nor repeats
/// any text.
pub proof fn lemma_pages_meet(text: Seq<char>, offset: nat, limit: nat, next_limit: nat)
    requires
        utf8_len(text.take(page_bounds(text, offset, limit).0)) == offset,
    ensures
        page_bounds(text, offset, limit).1 == page_bounds(text, offset + limit, next_limit).0,
{
    let total = utf8_len(text);
    let k1 = page_bounds(text, offset, limit).0;
    let start1 = if offset < total {
        offset
    } else {
        total
    };
    lemma_boundary_char(text, 0, start1);
    assert(k1 == boundary_from(text, 0, start1));
    lemma_utf8_len_split(text, k1);
    assert(start1 == offset);
    let slice = text.skip(k1);
    assert(utf8_len(slice) == total - offset);
    let end1 = if limit < utf8_len(slice) {
        limit
    } else {
        utf8_len(slice)
    };
    let m = boundary_from(slice, 0, end1);
    lemma_boundary_char(slice, 0, end1);
    let x: nat = if offset + limit < total {
        (offset + limit) as nat
    } else {
        total
    };
    assert(x == offset + end1);
    assert forall|j: int| 0 <= j < k1 + m implies utf8_len(#[trigger] text.take(j)) < x by {
        if j < k1 {
            assert(utf8_len(text.take(j)) < start1);
        } else {
            lemma_utf8_len_window(text, k1, j - k1);
            assert(utf8_len(slice.take(j - k1)) < end1);
        }
    }
    if k1 + m < text.len() {
        lemma_utf8_len_window(text, k1, m);
    }
    lemma_boundary_unique(text, 0, x, k1 + m);
    assert(page_bounds(text, offset, limit).1 == k1 + m);
}

/// The UTF-8 length of `cs`.
fn utf8_total(cs: &Vec<char>) -> (r: usize)
    requires
        utf8_len(cs@) <= usize::MAX,
    ensures
        r == utf8_len(cs@),
{
    let mut total: usize = 0;
    let mut i: usize = 0;
    proof {
        assert(cs@.subrange(0, 0) =~= Seq::<char>::empty());
    }
    while i < cs.len()
        invariant
            i <= cs.len(),
            utf8_len(cs@) <= usize::MAX,
            total == utf8_len(cs@.subrange(0, i as int)),
        decreases cs.len() - i,
    {
        assert(cs@.subrange(0, i + 1).drop_last() =~= cs@.subrange(0, i as int));
        proof {
            lemma_utf8_len_prefix_mono(cs@, i + 1);
        }
        total = total + utf8_width_exec(cs[i]);
        i = i + 1;
    }
    assert(cs@.subrange(0, cs.len() as int) =~= cs@);
    total
}

/// The first character index of `cs[from..]` at which the UTF-8 length of
/// `cs[from..k]` reaches `b`, with that length.
fn boundary_exec(cs: &Vec<char>, from: usize, b: usize) -> (r: (usize, usize))
    requires
        from <= cs.len(),
        utf8_len(cs@.skip(from as int)) <= usize::MAX,
    ensures
        from <= r.0 <= cs.len(),
        r.0 - from == boundary_from(cs@.skip(from as int), 0, b as nat),
        r.1 == utf8_len(cs@.subrange(from as int, r.0 as int)),
{
    let ghost s = cs@.skip(from as int);
    let mut i = from;
    let mut bytes: usize = 0;
    proof {
        assert(cs@.subrange(from as int, from as int) =~= Seq::<char>::empty());
    }
    while i < cs.len() && bytes < b
        invariant
            from <= i <= cs.len(),
            s == cs@.skip(from as int),
            utf8_len(s) <= usize::MAX,
            bytes == utf8_len(cs@.subrange(from as int, i as int)),
            boundary_from(s, 0, b as nat) == boundary_from(s, i - from, b as nat),
        decreases cs.len() - i,
    {
        proof {
            assert(s.take(i - from) =~= cs@.subrange(from as int, i as int));
            assert(s.subrange(0, i - from + 1) =~= cs@.subrange(from as int, i + 1));
            assert(cs@.subrange(from as int, i + 1).drop_last() =~= cs@.subrange(from as int, i as int));
            lemma_utf8_len_prefix_mono(s, i - from + 1);
        }
        let w = utf8_width_exec(cs[i]);
        bytes = bytes + w;
        i = i + 1;
    }
    proof {
        assert(s.take(i - from) =~= cs@.subrange(from as int, i as int));
    }
    (i, bytes)
}

/// The page of `text` that `uri` asks for (see [`paginated`]).
pub fn paginate_text(text: &str, uri: &str) -> (r: String)
    requires
        utf8_len(text@) <= usize::MAX,
    ensures
        r@ == paginated(text@, uri@),
{
    let (offset, limit) = parse_offset_limit(uri);
    let cs = chars_of(text);
    proof {
        assert(cs@.skip(0) =~= cs@);
    }
    let total = utf8_total(&cs);
    let start = if offset < total {
        offset
    } else {
        total
    };
    let (k, kb) = boundary_exec(&cs, 0, start);
    proof {
        lemma_utf8_len_split(cs@, k as int);
        assert(cs@.take(k as int) =~= cs@.subrange(0, k as int));
    }
    let ghost slice = cs@.skip(k as int);
    let slice_bytes = total - kb;
    let end = if limit < slice_bytes {
        limit
    } else {
        slice_bytes
    };
    let (m, _) = boundary_exec(&cs, k, end);
    let mut out = String::new();
    if total > DEFAULT_LIMIT || offset > 0 {
        push_str(&mut out, "[PARTIAL: total=");
        push_decimal(&mut out, total as u64);
        push_str(&mut out, " chars, offset=");
        push_decimal(&mut out, offset as u64);
        push_str(&mut out, ", limit=");
        push_decimal(&mut out, limit as u64);
        push_str(&mut out, " — append ?offset=N&limit=M to URI to page]\n");
    }
    let ghost head = out@;
    push_chars_range(&mut out, &cs, k, m);
    proof {
        assert(cs@.subrange(k as int, m as int) =~= slice.take(m - k));
    }
    out
}

// ---------------------------------------------------------------------------
// Routing
// ---------------------------------------------------------------------------

/// The resource an `airp://` URI names.
#[derive(Debug, Clone, PartialEq, Eq)]
pub enum ResourceRoute {
    /// `airp://presets`: the preset ids.
    Presets,
    /// `airp://presets/{id}/raw`: the preset's JSON, paged.
    PresetRaw(String),
    /// `airp://presets/{id}/artifacts`: the files written for the preset.
    PresetArtifacts(String),
    /// `airp://presets/{id}/regex`: the preset's regex scripts.
    PresetRegex(String),
    /// `airp://characters`: the character ids.
    Characters,
    /// `airp://plugins`: the plugin namespaces.
    Plugins,
    /// `airp://plugins/{name}/files`: the plugin's files.
    PluginFiles(String),
    /// `airp://plugins/{name}/data/{path}`: one file of the plugin, paged.
    PluginData(String, String),
    /// `airp://users`: the user ids.
    Users,
    /// `airp://users/{id}/persona`.
    UserPersona(String),
    /// `airp://users/{id}/state/live`.
    UserLiveState(String),
    /// `airp://characters/{id}/card`.
    CharacterCard(String),
    /// `airp://characters/{id}/world/lorebook`.
    CharacterLorebook(String),
    /// `airp://characters/{id}/artifacts`.
    CharacterArtifacts(String),
    /// `airp://characters/{id}/history`.
    CharacterHistory(String),
    /// `airp://characters/{id}/state/live`.
    CharacterLiveState(String),
}

pub enum RouteModel {
    Presets,
    PresetRaw(Seq<char>),
    PresetArtifacts(Seq<char>),
    PresetRegex(Seq<char>),
    Characters,
    Plugins,
    PluginFiles(Seq<char>),
    PluginData(Seq<char>, Seq<char>),
    Users,
    UserPersona(Seq<char>),
    UserLiveState(Seq<char>),
    CharacterCard(Seq<char>),
    CharacterLorebook(Seq<char>),
    CharacterArtifacts(Seq<char>),
    CharacterHistory(Seq<char>),
    CharacterLiveState(Seq<char>),
}

impl View for ResourceRoute {
    type V = RouteModel;

    open spec fn view(&self) -> RouteModel {
        match self {
            ResourceRoute::Presets => RouteModel::Presets,
            ResourceRoute::PresetRaw(i) => RouteModel::PresetRaw(i@),
            ResourceRoute::PresetArtifacts(i) => RouteModel::PresetArtifacts(i@),
            ResourceRoute::PresetRegex(i) => RouteModel::PresetRegex(i@),
            ResourceRoute::Characters => RouteModel::Characters,
            ResourceRoute::Plugins => RouteModel::Plugins,
            ResourceRoute::PluginFiles(n) => RouteModel::PluginFiles(n@),
            ResourceRoute::PluginData(n, p) => RouteModel::PluginData(n@, p@),
            ResourceRoute::Users => RouteModel::Users,
            ResourceRoute::UserPersona(i) => RouteModel::UserPersona(i@),
            ResourceRoute::UserLiveState(i) => RouteModel::UserLiveState(i@),
            ResourceRoute::CharacterCard(i) => RouteModel::CharacterCard(i@),
            ResourceRoute::CharacterLorebook(i) => RouteModel::CharacterLorebook(i@),
            ResourceRoute::CharacterArtifacts(i) => RouteModel::CharacterArtifacts(i@),
            ResourceRoute::CharacterHistory(i) => RouteModel::CharacterHistory(i@),
            ResourceRoute::CharacterLiveState(i) => RouteModel::CharacterLiveState(i@),
        }
    }
}

/// The segment before the first `/` of `rest`.
pub open spec fn first_segment(rest: Seq<char>) -> Seq<char> {
    rest.take(first_of(rest, '/', 0))
}

/// What follows the first `/` of `rest`, or nothing.
pub open spec fn after_segment(rest: Seq<char>) -> Seq<char> {
    let j = first_of(rest, '/', 0);
    if j < rest.len() {
        rest.skip(j + 1)
    } else {
        Seq::empty()
    }
}

/// `s` up to its first `?`.
pub open spec fn before_query(s: Seq<char>) -> Seq<char> {
    s.take(first_of(s, '?', 0))
}

/// `rest` when `s` starts with `prefix`.
pub open spec fn strip_prefix(s: Seq<char>, prefix: Seq<char>) -> Option<Seq<char>> {
    if occurs_at(s, prefix, 0) {
        Some(s.skip(prefix.len() as int))
    } else {
        None
    }
}

/// The message for an id that fails validation.
pub open spec fn bad_id(what: Seq<char>, why: Seq<char>) -> Seq<char> {
    "非法 "@ + what + ": 非法请求: "@ + why
}

/// The message for an unknown sub-resource.
pub open spec fn unknown_sub(kind: Seq<char>, sub: Seq<char>, uri: Seq<char>) -> Seq<char> {
    "未知"@ + kind + "子资源 '"@ + sub + "' (URI="@ + uri + ")"@
}

/// The route of a preset URI's rest.
pub open spec fn preset_route(uri: Seq<char>, rest: Seq<char>) -> Result<RouteModel, Seq<char>> {
    let id = first_segment(rest);
    let sub = before_query(after_segment(rest));
    match id_rejection(id) {
        Some(why) => Err(bad_id("preset_id"@, why)),
        None => if sub == "raw"@ {
            Ok(RouteModel::PresetRaw(id))
        } else if sub == "artifacts"@ {
            Ok(RouteModel::PresetArtifacts(id))
        } else if sub == "regex"@ {
            Ok(RouteModel::PresetRegex(id))
        } else {
            Err(unknown_sub("预设"@, sub, uri))
        },
    }
}

/// The route of a plugin URI's rest.
pub open spec fn plugin_route(uri: Seq<char>, rest: Seq<char>) -> Result<RouteModel, Seq<char>> {
    let name = first_segment(rest);
    let sub = before_query(after_segment(rest));
    match id_rejection(name) {
        Some(why) => Err(bad_id("plugin_name"@, why)),
        None => if sub == "files"@ {
            Ok(RouteModel::PluginFiles(name))
        } else {
            match strip_prefix(sub, "data/"@) {
                Some(p) => Ok(RouteModel::PluginData(name, p)),
                None => Err(unknown_sub("插件"@, sub, uri)),
            }
        },
    }
}

/// The route of a user URI's rest.
pub open spec fn user_route(uri: Seq<char>, rest: Seq<char>) -> Result<RouteModel, Seq<char>> {
    let id = first_segment(rest);
    let sub = before_query(after_segment(rest));
    match id_rejection(id) {
        Some(why) => Err(bad_id("user_id"@, why)),
        None => if sub == "persona"@ {
            Ok(RouteModel::UserPersona(id))
        } else if sub == "state/live"@ {
            Ok(RouteModel::UserLiveState(id))
        } else {
            Err(unknown_sub("用户"@, sub, uri))
        },
    }
}

/// The route of a character URI's rest (its query is not removed).
pub open spec fn character_route(uri: Seq<char>, rest: Seq<char>) -> Result<RouteModel, Seq<char>> {
    let id = first_segment(rest);
    let sub = after_segment(rest);
    match id_rejection(id) {
        Some(why) => Err(bad_id("character_id"@, why)),
        None => if sub == "card"@ {
            Ok(RouteModel::CharacterCard(id))
        } else if sub == "world/lorebook"@ {
            Ok(RouteModel::CharacterLorebook(id))
        } else if sub == "artifacts"@ {
            Ok(RouteModel::CharacterArtifacts(id))
        } else if sub == "history"@ {
            Ok(RouteModel::CharacterHistory(id))
        } else if sub == "state/live"@ {
            Ok(RouteModel::CharacterLiveState(id))
        } else {
            Err(unknown_sub(Seq::empty(), sub, uri))
        },
    }
}

/// The resource `uri` names, or the message of why it names none.
pub open spec fn route_of(uri: Seq<char>) -> Result<RouteModel, Seq<char>> {
    if uri == "airp://presets"@ {
        Ok(RouteModel::Presets)
    } else if strip_prefix(uri, "airp://presets/"@) is Some {
        preset_route(uri, strip_prefix(uri, "airp://presets/"@)->0)
    } else if uri == "airp://characters"@ {
        Ok(RouteModel::Characters)
    } else if uri == "airp://plugins"@ {
        Ok(RouteModel::Plugins)
    } else if strip_prefix(uri, "airp://plugins/"@) is Some {
        plugin_route(uri, strip_prefix(uri, "airp://plugins/"@)->0)
    } else if uri == "airp://users"@ {
        Ok(RouteModel::Users)
    } else if strip_prefix(uri, "airp://users/"@) is Some {
        user_route(uri, strip_prefix(uri, "airp://users/"@)->0)
    } else if strip_prefix(uri, "airp://characters/"@) is Some {
        character_route(uri, strip_prefix(uri, "airp://characters/"@)->0)
    } else {
        Err("未知 URI: "@ + uri)
    }
}


/// Whether `cs` is the text `lit`.
fn is_text(cs: &Vec<char>, lit: &str) -> (r: bool)
    ensures
        r == (cs@ == lit@),
{
    let l = chars_of(lit);
    crate::text::chars_eq(cs, &l)
}

/// `cs` without `prefix`, when it starts with it.
fn strip_prefix_exec(cs: &Vec<char>, prefix: &str) -> (r: Option<Vec<char>>)
    ensures
        match strip_prefix(cs@, prefix@) {
            Some(t) => r matches Some(v) && v@ == t,
            None => r is None,
        },
{
    let p = chars_of(prefix);
    if occurs_at_exec(cs, &p, 0) {
        let rest = crate::text::sub_chars(cs, p.len(), cs.len());
        assert(rest@ =~= cs@.skip(p@.len() as int));
        Some(rest)
    } else {
        None
    }
}

/// The first segment of `rest` and what follows its `/`.
fn split_segment(rest: &Vec<char>) -> (r: (Vec<char>, Vec<char>))
    ensures
        r.0@ == first_segment(rest@),
        r.1@ == after_segment(rest@),
{
    let j = first_of_exec(rest, '/', 0);
    proof {
        lemma_first_of(rest@, '/', 0);
    }
    let head = crate::text::sub_chars(rest, 0, j);
    assert(head@ =~= rest@.take(j as int));
    let tail = if j < rest.len() {
        let t = crate::text::sub_chars(rest, j + 1, rest.len());
        assert(t@ =~= rest@.skip(j + 1));
        t
    } else {
        Vec::new()
    };
    (head, tail)
}

/// `s` up to its first `?`.
fn before_query_exec(s: &Vec<char>) -> (r: Vec<char>)
    ensures
        r@ == before_query(s@),
{
    let q = first_of_exec(s, '?', 0);
    proof {
        lemma_first_of(s@, '?', 0);
    }
    let r = crate::text::sub_chars(s, 0, q);
    assert(r@ =~= s@.take(q as int));
    r
}

/// The id as a string, or the message for why it is refused.
fn checked_id(id: &Vec<char>, what: &str) -> (r: Result<String, String>)
    ensures
        match id_rejection(id@) {
            None => r matches Ok(s) && s@ == id@,
            Some(why) => r matches Err(m) && m@ == bad_id(what@, why),
        },
{
    let s = crate::text::string_of(id);
    match validate_id_segment(s.as_str()) {
        Ok(()) => Ok(s),
        Err(e) => {
            let mut m = String::new();
            push_str(&mut m, "非法 ");
            push_str(&mut m, what);
            push_str(&mut m, ": 非法请求: ");
            match e {
                crate::error::AirpError::BadRequest(why) => push_str(&mut m, why.as_str()),
                _ => {},
            }
            Err(m)
        },
    }
}

/// The message for an unknown sub-resource.
fn unknown_sub_exec(kind: &str, sub: &Vec<char>, uri: &str) -> (r: String)
    ensures
        r@ == unknown_sub(kind@, sub@, uri@),
{
    let mut m = String::new();
    push_str(&mut m, "未知");
    push_str(&mut m, kind);
    push_str(&mut m, "子资源 '");
    crate::text::push_chars(&mut m, sub);
    push_str(&mut m, "' (URI=");
    push_str(&mut m, uri);
    push_str(&mut m, ")");
    m
}

fn preset_route_exec(uri: &str, rest: &Vec<char>) -> (r: Result<ResourceRoute, String>)
    ensures
        match preset_route(uri@, rest@) {
            Ok(m) => r matches Ok(x) && x@ == m,
            Err(e) => r matches Err(x) && x@ == e,
        },
{
    let (id, tail) = split_segment(rest);
    let sub = before_query_exec(&tail);
    let id = match checked_id(&id, "preset_id") {
        Ok(s) => s,
        Err(m) => return Err(m),
    };
    if is_text(&sub, "raw") {
        Ok(ResourceRoute::PresetRaw(id))
    } else if is_text(&sub, "artifacts") {
        Ok(ResourceRoute::PresetArtifacts(id))
    } else if is_text(&sub, "regex") {
        Ok(ResourceRoute::PresetRegex(id))
    } else {
        Err(unknown_sub_exec("预设", &sub, uri))
    }
}

fn plugin_route_exec(uri: &str, rest: &Vec<char>) -> (r: Result<ResourceRoute, String>)
    ensures
        match plugin_route(uri@, rest@) {
            Ok(m) => r matches Ok(x) && x@ == m,
            Err(e) => r matches Err(x) && x@ == e,
        },
{
    let (name, tail) = split_segment(rest);
    let sub = before_query_exec(&tail);
    let name = match checked_id(&name, "plugin_name") {
        Ok(s) => s,
        Err(m) => return Err(m),
    };
    if is_text(&sub, "files") {
        return Ok(ResourceRoute::PluginFiles(name));
    }
    match strip_prefix_exec(&sub, "data/") {
        Some(p) => Ok(ResourceRoute::PluginData(name, crate::text::string_of(&p))),
        None => Err(unknown_sub_exec("插件", &sub, uri)),
    }
}

fn user_route_exec(uri: &str, rest: &Vec<char>) -> (r: Result<ResourceRoute, String>)
    ensures
        match user_route(uri@, rest@) {
            Ok(m) => r matches Ok(x) && x@ == m,
            Err(e) => r matches Err(x) && x@ == e,
        },
{
    let (id, tail) = split_segment(rest);
    let sub = before_query_exec(&tail);
    let id = match checked_id(&id, "user_id") {
        Ok(s) => s,
        Err(m) => return Err(m),
    };
    if is_text(&sub, "persona") {
        Ok(ResourceRoute::UserPersona(id))
    } else if is_text(&sub, "state/live") {
        Ok(ResourceRoute::UserLiveState(id))
    } else {
        Err(unknown_sub_exec("用户", &sub, uri))
    }
}

fn character_route_exec(uri: &str, rest: &Vec<char>) -> (r: Result<ResourceRoute, String>)
    ensures
        match character_route(uri@, rest@) {
            Ok(m) => r matches Ok(x) && x@ == m,
            Err(e) => r matches Err(x) && x@ == e,
        },
{
    let (id, sub) = split_segment(rest);
    let id = match checked_id(&id, "character_id") {
        Ok(s) => s,
        Err(m) => return Err(m),
    };
    if is_text(&sub, "card") {
        Ok(ResourceRoute::CharacterCard(id))
    } else if is_text(&sub, "world/lorebook") {
        Ok(ResourceRoute::CharacterLorebook(id))
    } else if is_text(&sub, "artifacts") {
        Ok(ResourceRoute::CharacterArtifacts(id))
    } else if is_text(&sub, "history") {
        Ok(ResourceRoute::CharacterHistory(id))
    } else if is_text(&sub, "state/live") {
        Ok(ResourceRoute::CharacterLiveState(id))
    } else {
        proof {
            reveal_strlit("");
        }
        let r = unknown_sub_exec("", &sub, uri);
        assert(""@ =~= Seq::<char>::empty());
        Err(r)
    }
}

/// The resource `uri` names, or the message of why it names none (see
/// [`route_of`]).
pub fn route_resource(uri: &str) -> (r: Result<ResourceRoute, String>)
    ensures
        match route_of(uri@) {
            Ok(m) => r matches Ok(x) && x@ == m,
            Err(e) => r matches Err(x) && x@ == e,
        },
{
    let cs = chars_of(uri);
    if is_text(&cs, "airp://presets") {
        return Ok(ResourceRoute::Presets);
    }
    match strip_prefix_exec(&cs, "airp://presets/") {
        Some(rest) => return preset_route_exec(uri, &rest),
        None => {},
    }
    if is_text(&cs, "airp://characters") {
        return Ok(ResourceRoute::Characters);
    }
    if is_text(&cs, "airp://plugins") {
        return Ok(ResourceRoute::Plugins);
    }
    match strip_prefix_exec(&cs, "airp://plugins/") {
        Some(rest) => return plugin_route_exec(uri, &rest),
        None => {},
    }
    if is_text(&cs, "airp://users") {
        return Ok(ResourceRoute::Users);
    }
    match strip_prefix_exec(&cs, "airp://users/") {
        Some(rest) => return user_route_exec(uri, &rest),
        None => {},
    }
    match strip_prefix_exec(&cs, "airp://characters/") {
        Some(rest) => return character_route_exec(uri, &rest),
        None => {},
    }
    let mut m = String::new();
    push_str(&mut m, "未知 URI: ");
    push_str(&mut m, uri);
    Err(m)
}


/// The id a route names, if it names one (for a plugin file, the plugin's name).
pub open spec fn route_id(m: RouteModel) -> Option<Seq<char>> {
    match m {
        RouteModel::PresetRaw(i) => Some(i),
        RouteModel::PresetArtifacts(i) => Some(i),
        RouteModel::PresetRegex(i) => Some(i),
        RouteModel::PluginFiles(n) => Some(n),
        RouteModel::PluginData(n, _) => Some(n),
        RouteModel::UserPersona(i) => Some(i),
        RouteModel::UserLiveState(i) => Some(i),
        RouteModel::CharacterCard(i) => Some(i),
        RouteModel::CharacterLorebook(i) => Some(i),
        RouteModel::CharacterArtifacts(i) => Some(i),
        RouteModel::CharacterHistory(i) => Some(i),
        RouteModel::CharacterLiveState(i) => Some(i),
        _ => None,
    }
}

/// Every id that a routed URI names is a valid path segment: no route
/// carries an empty id, a dot id, a separator or `..` towards the files.
pub proof fn lemma_routed_ids_are_valid(uri: Seq<char>)
    ensures
        route_of(uri) matches Ok(m) ==> (route_id(m) matches Some(i) ==> id_rejection(i) is None),
{
}

} // verus!
