//! Context from the volume system for the system prompt: the running
//! `current.md` and the headers of the volumes that the user's message
//! mentions through the global index.
//!
//! An index entry line reads `- 艾莉娅 (别名: 莉娅, 小艾): 卷2(初登场), 卷4`:
//! a name, an optional alias group, a colon outside parentheses, and the
//! volumes. Names and aliases are matched in the message with the same
//! leftmost-longest scan as the lorebook, so `艾莉娅` hides `艾` where both fit.
use vstd::prelude::*;
use crate::index_parser::{
    digit_run_end, digits_at, first_vol_mark, is_ascii_digit_exec, sections_of, skip_ws,
    skip_ws_exec, trimmed, vol_mark_at,
};
use crate::lorebook::{
    ac_builds, all_nonempty, find_leftmost_longest, lemma_nonempty_keys, lemma_unmatched_scan, leftmost_longest,
    nonempty_keys, occurs_in,
};
use crate::text::{
    chars_of, digits_value, is_ascii_digit, is_white_space, push_char, push_str, split_by, split_chars, string_of,
    string_views, sub_chars, trim, trim_bounds, trim_end, views,
};

verus! {

broadcast use vstd::string::group_string_axioms;

/// One entity of the index: its name, the aliases that stand for it, and
/// the volumes it appears in.
#[derive(Debug, Clone, PartialEq)]
pub struct EntityRecord {
    pub name: String,
    pub aliases: Vec<String>,
    pub vols: Vec<u32>,
}

pub struct RecordModel {
    pub name: Seq<char>,
    pub aliases: Seq<Seq<char>>,
    pub vols: Seq<u32>,
}

impl View for EntityRecord {
    type V = RecordModel;

    open spec fn view(&self) -> RecordModel {
        RecordModel { name: self.name@, aliases: string_views(self.aliases@), vols: self.vols@ }
    }
}

pub open spec fn record_views(s: Seq<EntityRecord>) -> Seq<RecordModel> {
    s.map_values(|r: EntityRecord| r@)
}

// ---------------------------------------------------------------------------
// Current context
// ---------------------------------------------------------------------------

/// What the running context adds to the prompt: nothing when it is blank,
/// else a `[Recent Context]` header and the text, ending with a line feed.
pub open spec fn current_context_text(content: Seq<char>) -> Seq<char> {
    if trim(content).len() == 0 {
        Seq::empty()
    } else if content.len() > 0 && content.last() == '\n' {
        "\n[Recent Context]\n"@ + content
    } else {
        "\n[Recent Context]\n"@ + content + seq!['\n']
    }
}

/// Appends the running context (the text of `current.md`) to the prompt
/// (see [`current_context_text`]).
pub fn inject_current_context(content: &str, prompt: &mut String)
    ensures
        final(prompt)@ == old(prompt)@ + current_context_text(content@),
{
    let cs = chars_of(content);
    let (a, b) = trim_bounds(&cs, 0, cs.len());
    proof {
        assert(cs@.subrange(0, cs.len() as int) =~= cs@);
    }
    if a == b {
        assert(prompt@ =~= old(prompt)@ + Seq::<char>::empty());
        return;
    }
    push_str(prompt, "\n[Recent Context]\n");
    push_str(prompt, content);
    if !(cs.len() > 0 && cs[cs.len() - 1] == '\n') {
        push_char(prompt, '\n');
    }
}

// ---------------------------------------------------------------------------
// Entity lines
// ---------------------------------------------------------------------------

/// `s` without every leading copy of `p` (`str::trim_start_matches`).
pub open spec fn strip_prefixes(s: Seq<char>, p: Seq<char>) -> Seq<char>
    decreases s.len(),
{
    if p.len() > 0 && p.len() <= s.len() && s.subrange(0, p.len() as int) == p {
        strip_prefixes(s.subrange(p.len() as int, s.len() as int), p)
    } else {
        s
    }
}

/// The first colon (`:` or `：`) outside parentheses (`(`/`（` open one,
/// `)`/`）` close one when one is open), searching from `i` at depth `depth`.
pub open spec fn top_level_colon(s: Seq<char>, i: int, depth: int) -> Option<int>
    decreases s.len() - i,
{
    if i < 0 || i >= s.len() {
        None
    } else {
        let c = s[i];
        if c == '(' || c == '（' {
            top_level_colon(s, i + 1, depth + 1)
        } else if (c == ')' || c == '）') && depth > 0 {
            top_level_colon(s, i + 1, depth - 1)
        } else if (c == ':' || c == '：') && depth == 0 {
            Some(i)
        } else {
            top_level_colon(s, i + 1, depth)
        }
    }
}

/// `c` matches the lower-case ASCII letter `l` without regard to case, as
/// the regex crate folds case (`s` also matches `ſ`).
pub open spec fn ci_eq(c: char, l: char) -> bool {
    c == l || (c as u32) + 32 == (l as u32) || (l == 's' && c == 'ſ')
}

/// `aliase` (any case) at `i`.
pub open spec fn aliase_at(s: Seq<char>, i: int) -> bool {
    &&& 0 <= i && i + 6 <= s.len()
    &&& ci_eq(s[i], 'a') && ci_eq(s[i + 1], 'l') && ci_eq(s[i + 2], 'i')
    &&& ci_eq(s[i + 3], 'a') && ci_eq(s[i + 4], 's') && ci_eq(s[i + 5], 'e')
}

/// The end of the alias keyword (`别名`, `aliase` or `aliases`) at `j`.
pub open spec fn alias_keyword_end(s: Seq<char>, j: int) -> Option<int> {
    if 0 <= j && j + 2 <= s.len() && s[j] == '别' && s[j + 1] == '名' {
        Some(j + 2)
    } else if aliase_at(s, j) {
        if j + 6 < s.len() && ci_eq(s[j + 6], 's') {
            Some(j + 7)
        } else {
            Some(j + 6)
        }
    } else {
        None
    }
}

/// The first `)` at or after `i`.
pub open spec fn close_paren_from(s: Seq<char>, i: int) -> Option<int>
    decreases s.len() - i,
{
    if i < 0 || i >= s.len() {
        None
    } else if s[i] == ')' {
        Some(i)
    } else {
        close_paren_from(s, i + 1)
    }
}

/// An alias group `(别名: a, b)` starting at `i`: the bounds of its list
/// and the end of the group.
pub open spec fn alias_group_at(s: Seq<char>, i: int) -> Option<(int, int, int)> {
    if 0 <= i < s.len() && s[i] == '(' {
        match alias_keyword_end(s, skip_ws(s, i + 1)) {
            None => None,
            Some(k) => {
                let j = skip_ws(s, k);
                if j < s.len() && (s[j] == ':' || s[j] == '：') {
                    let g = skip_ws(s, j + 1);
                    match close_paren_from(s, g) {
                        Some(p) => Some((g, p, p + 1)),
                        None => None,
                    }
                } else {
                    None
                }
            },
        }
    } else {
        None
    }
}

/// The first alias group starting at or after `i`, with its start.
pub open spec fn first_alias_group(s: Seq<char>, i: int) -> Option<(int, int, int, int)>
    decreases s.len() - i,
{
    if i < 0 || i >= s.len() {
        None
    } else {
        match alias_group_at(s, i) {
            Some((g, p, e)) => Some((i, g, p, e)),
            None => first_alias_group(s, i + 1),
        }
    }
}

/// `s[i..]` with every alias group removed, scanning left to right.
pub open spec fn without_alias_groups(s: Seq<char>, i: int) -> Seq<char>
    decreases s.len() - i,
{
    if i < 0 || i >= s.len() {
        Seq::empty()
    } else {
        match first_alias_group(s, i) {
            None => s.subrange(i, s.len() as int),
            Some((st, g, p, e)) => if i <= st && st < e && e <= s.len() {
                s.subrange(i, st) + without_alias_groups(s, e)
            } else {
                Seq::empty()
            },
        }
    }
}

/// The trimmed, non-empty pieces of a list split at `,` and `，`.
pub open spec fn alias_list(pieces: Seq<Seq<char>>) -> Seq<Seq<char>>
    decreases pieces.len(),
{
    if pieces.len() == 0 {
        Seq::empty()
    } else if trim(pieces.last()).len() > 0 {
        alias_list(pieces.drop_last()).push(trim(pieces.last()))
    } else {
        alias_list(pieces.drop_last())
    }
}

/// The numbers of all volume marks of `s[i..]`, in order; a mark whose
/// digits do not fit in a `u32` is skipped.
pub open spec fn vol_numbers_from(s: Seq<char>, i: int) -> Seq<u32>
    decreases s.len() - i,
{
    if i < 0 || i >= s.len() {
        Seq::empty()
    } else {
        match first_vol_mark(s, i) {
            None => Seq::empty(),
            Some(j) => {
                let d = skip_ws(s, j + 1);
                let e = digit_run_end(s, d);
                let v = digits_value(s.subrange(d, e));
                if i < e && e <= s.len() {
                    if v <= u32::MAX {
                        seq![v as u32] + vol_numbers_from(s, e)
                    } else {
                        vol_numbers_from(s, e)
                    }
                } else {
                    Seq::empty()
                }
            },
        }
    }
}

/// The entity that an index line names: after `- ` prefixes and trimming,
/// the text before the first top-level colon is the name (alias groups
/// removed) with the aliases of its first alias group; the volumes are the
/// marks after the colon. No entity without a colon, a name or a volume.
pub open spec fn entity_of_line(line: Seq<char>) -> Option<RecordModel> {
    let l = trim(strip_prefixes(trim(line), seq!['-', ' ']));
    match top_level_colon(l, 0, 0) {
        None => None,
        Some(c) => {
            let left = l.subrange(0, c);
            let rest = l.subrange(c + 1, l.len() as int);
            let aliases = match first_alias_group(left, 0) {
                Some((st, g, p, e)) => alias_list(split_by(left.subrange(g, p), seq![',', '，'])),
                None => Seq::empty(),
            };
            let name = trim(without_alias_groups(left, 0));
            let vols = vol_numbers_from(rest, 0);
            if name.len() == 0 || vols.len() == 0 {
                None
            } else {
                Some(RecordModel { name: name, aliases: aliases, vols: vols })
            }
        },
    }
}

// ---------------------------------------------------------------------------
// Reading entity lines
// ---------------------------------------------------------------------------

/// Where the text starts once every leading `- ` is skipped.
fn strip_prefixes_exec(cs: &Vec<char>, from: usize, to: usize) -> (r: usize)
    requires
        from <= to <= cs.len(),
    ensures
        from <= r <= to,
        cs@.subrange(r as int, to as int) == strip_prefixes(cs@.subrange(from as int, to as int), seq!['-', ' ']),
{
    let mut i = from;
    while i < to && to - i > 1 && cs[i] == '-' && cs[i + 1] == ' '
        invariant
            from <= i <= to <= cs.len(),
            strip_prefixes(cs@.subrange(from as int, to as int), seq!['-', ' ']) == strip_prefixes(
                cs@.subrange(i as int, to as int),
                seq!['-', ' '],
            ),
        decreases to - i,
    {
        proof {
            let t = cs@.subrange(i as int, to as int);
            assert(t.subrange(0, 2) =~= seq!['-', ' ']);
            assert(t.subrange(2, t.len() as int) =~= cs@.subrange(i + 2, to as int));
        }
        i = i + 2;
    }
    proof {
        let t = cs@.subrange(i as int, to as int);
        if 2 <= t.len() && t.subrange(0, 2) == seq!['-', ' '] {
            assert(t.subrange(0, 2)[0] == '-' && t.subrange(0, 2)[1] == ' ');
        }
    }
    i
}

/// `top_level_colon(cs, 0, 0)` computed.
pub fn find_top_level_colon(cs: &Vec<char>) -> (r: Option<usize>)
    ensures
        r matches Some(i) ==> top_level_colon(cs@, 0, 0) == Some(i as int) && i < cs.len(),
        r is None ==> top_level_colon(cs@, 0, 0) is None,
{
    let mut depth: usize = 0;
    let mut i: usize = 0;
    while i < cs.len()
        invariant
            i <= cs.len(),
            depth <= i,
            top_level_colon(cs@, 0, 0) == top_level_colon(cs@, i as int, depth as int),
        decreases cs.len() - i,
    {
        let c = cs[i];
        if c == '(' || c == '（' {
            depth = depth + 1;
        } else if (c == ')' || c == '）') && depth > 0 {
            depth = depth - 1;
        } else if (c == ':' || c == '：') && depth == 0 {
            return Some(i);
        }
        i = i + 1;
    }
    None
}

fn ci_eq_exec(c: char, l: char) -> (r: bool)
    requires
        l == 'a' || l == 'l' || l == 'i' || l == 's' || l == 'e',
    ensures
        r == ci_eq(c, l),
{
    c == l || (c as u32) + 32 == (l as u32) || (l == 's' && c == 'ſ')
}

fn alias_keyword_end_exec(s: &Vec<char>, j: usize) -> (r: Option<usize>)
    requires
        j <= s.len(),
    ensures
        r matches Some(k) ==> alias_keyword_end(s@, j as int) == Some(k as int) && k <= s.len(),
        r is None ==> alias_keyword_end(s@, j as int) is None,
{
    if s.len() - j >= 2 && s[j] == '别' && s[j + 1] == '名' {
        return Some(j + 2);
    }
    if s.len() - j >= 6 && ci_eq_exec(s[j], 'a') && ci_eq_exec(s[j + 1], 'l') && ci_eq_exec(
        s[j + 2],
        'i',
    ) && ci_eq_exec(s[j + 3], 'a') && ci_eq_exec(s[j + 4], 's') && ci_eq_exec(s[j + 5], 'e') {
        if j + 6 < s.len() && ci_eq_exec(s[j + 6], 's') {
            return Some(j + 7);
        } else {
            return Some(j + 6);
        }
    }
    None
}

fn close_paren_from_exec(s: &Vec<char>, i: usize) -> (r: Option<usize>)
    ensures
        r matches Some(p) ==> close_paren_from(s@, i as int) == Some(p as int) && i <= p < s.len(),
        r is None ==> close_paren_from(s@, i as int) is None,
{
    let mut k = i;
    while k < s.len()
        invariant
            i <= k,
            close_paren_from(s@, i as int) == close_paren_from(s@, k as int),
        decreases s.len() - k,
    {
        if s[k] == ')' {
            return Some(k);
        }
        k = k + 1;
    }
    None
}

fn alias_group_at_exec(s: &Vec<char>, i: usize) -> (r: Option<(usize, usize, usize)>)
    ensures
        r matches Some((g, p, e)) ==> alias_group_at(s@, i as int) == Some((g as int, p as int, e as int))
            && i < g <= p < e <= s.len(),
        r is None ==> alias_group_at(s@, i as int) is None,
{
    if i < s.len() && s[i] == '(' {
        let j1 = skip_ws_exec(s, i + 1);
        match alias_keyword_end_exec(s, j1) {
            None => None,
            Some(k) => {
                let j = skip_ws_exec(s, k);
                if j < s.len() && (s[j] == ':' || s[j] == '：') {
                    let g = skip_ws_exec(s, j + 1);
                    match close_paren_from_exec(s, g) {
                        Some(p) => Some((g, p, p + 1)),
                        None => None,
                    }
                } else {
                    None
                }
            },
        }
    } else {
        None
    }
}

fn first_alias_group_exec(s: &Vec<char>, i: usize) -> (r: Option<(usize, usize, usize, usize)>)
    ensures
        r matches Some((st, g, p, e)) ==> first_alias_group(s@, i as int) == Some(
            (st as int, g as int, p as int, e as int),
        ) && i <= st < g <= p < e <= s.len(),
        r is None ==> first_alias_group(s@, i as int) is None,
{
    let mut k = i;
    while k < s.len()
        invariant
            i <= k,
            first_alias_group(s@, i as int) == first_alias_group(s@, k as int),
        decreases s.len() - k,
    {
        match alias_group_at_exec(s, k) {
            Some((g, p, e)) => {
                return Some((k, g, p, e));
            },
            None => {},
        }
        k = k + 1;
    }
    None
}

fn without_alias_groups_exec(s: &Vec<char>) -> (r: Vec<char>)
    ensures
        r@ == without_alias_groups(s@, 0),
{
    let mut out: Vec<char> = Vec::new();
    let mut i: usize = 0;
    proof {
        assert(out@ + without_alias_groups(s@, 0) =~= without_alias_groups(s@, 0));
    }
    while i < s.len()
        invariant
            i <= s.len(),
            out@ + without_alias_groups(s@, i as int) == without_alias_groups(s@, 0),
        decreases s.len() - i,
    {
        match first_alias_group_exec(s, i) {
            None => {
                let ghost before = out@;
                let mut k = i;
                while k < s.len()
                    invariant
                        i <= k <= s.len(),
                        out@ == before + s@.subrange(i as int, k as int),
                    decreases s.len() - k,
                {
                    out.push(s[k]);
                    k = k + 1;
                    assert(out@ =~= before + s@.subrange(i as int, k as int));
                }
                assert(without_alias_groups(s@, s.len() as int) =~= Seq::<char>::empty());
                assert(out@ + without_alias_groups(s@, s.len() as int) =~= out@);
                i = s.len();
            },
            Some((st, _g, _p, e)) => {
                let ghost before = out@;
                let mut k = i;
                while k < st
                    invariant
                        i <= k <= st <= s.len(),
                        out@ == before + s@.subrange(i as int, k as int),
                    decreases st - k,
                {
                    out.push(s[k]);
                    k = k + 1;
                    assert(out@ =~= before + s@.subrange(i as int, k as int));
                }
                assert(before + (s@.subrange(i as int, st as int) + without_alias_groups(s@, e as int))
                    =~= out@ + without_alias_groups(s@, e as int));
                i = e;
            },
        }
    }
    proof {
        assert(without_alias_groups(s@, i as int) =~= Seq::<char>::empty());
        assert(out@ + Seq::<char>::empty() =~= out@);
    }
    out
}

fn alias_list_exec(pieces: &Vec<Vec<char>>) -> (r: Vec<String>)
    ensures
        string_views(r@) == alias_list(views(pieces@)),
{
    let ghost ps = views(pieces@);
    let mut out: Vec<String> = Vec::new();
    let mut k: usize = 0;
    proof {
        assert(ps.take(0) =~= Seq::<Seq<char>>::empty());
        assert(string_views(out@) =~= Seq::<Seq<char>>::empty());
    }
    while k < pieces.len()
        invariant
            k <= pieces.len(),
            ps == views(pieces@),
            string_views(out@) == alias_list(ps.take(k as int)),
        decreases pieces.len() - k,
    {
        proof {
            assert(ps.take(k + 1).drop_last() =~= ps.take(k as int));
            assert(ps.take(k + 1).last() == pieces@[k as int]@);
        }
        let p = &pieces[k];
        let t = trimmed(p, 0, p.len());
        proof {
            assert(p@.subrange(0, p.len() as int) =~= p@);
        }
        if t.len() > 0 {
            let ghost before = out@;
            out.push(string_of(&t));
            assert(string_views(out@) =~= string_views(before).push(t@));
        }
        k = k + 1;
    }
    proof {
        assert(ps.take(pieces.len() as int) =~= ps);
    }
    out
}

fn digit_run_end_exec(s: &Vec<char>, d: usize) -> (r: usize)
    requires
        d <= s.len(),
    ensures
        r == digit_run_end(s@, d as int),
        d <= r <= s.len(),
{
    let mut k = d;
    while k < s.len() && is_ascii_digit_exec(s[k])
        invariant
            d <= k <= s.len(),
            digit_run_end(s@, d as int) == digit_run_end(s@, k as int),
        decreases s.len() - k,
    {
        k = k + 1;
    }
    k
}

fn first_vol_mark_exec(s: &Vec<char>, i: usize) -> (r: Option<usize>)
    ensures
        r matches Some(j) ==> first_vol_mark(s@, i as int) == Some(j as int) && i <= j < s.len()
            && vol_mark_at(s@, j as int),
        r is None ==> first_vol_mark(s@, i as int) is None,
{
    let mut k = i;
    while k < s.len()
        invariant
            i <= k,
            first_vol_mark(s@, i as int) == first_vol_mark(s@, k as int),
        decreases s.len() - k,
    {
        if s[k] == '卷' {
            let d = skip_ws_exec(s, k + 1);
            if d < s.len() && is_ascii_digit_exec(s[d]) {
                assert(vol_mark_at(s@, k as int));
                return Some(k);
            }
        }
        k = k + 1;
    }
    None
}

fn vol_numbers_exec(s: &Vec<char>) -> (r: Vec<u32>)
    ensures
        r@ == vol_numbers_from(s@, 0),
{
    let mut out: Vec<u32> = Vec::new();
    let mut i: usize = 0;
    proof {
        assert(out@ + vol_numbers_from(s@, 0) =~= vol_numbers_from(s@, 0));
    }
    while i < s.len()
        invariant
            i <= s.len(),
            out@ + vol_numbers_from(s@, i as int) == vol_numbers_from(s@, 0),
        decreases s.len() - i,
    {
        match first_vol_mark_exec(s, i) {
            None => {
                assert(vol_numbers_from(s@, i as int) =~= Seq::<u32>::empty());
                assert(out@ + Seq::<u32>::empty() =~= out@);
                assert(vol_numbers_from(s@, s.len() as int) =~= Seq::<u32>::empty());
                i = s.len();
            },
            Some(j) => {
                let d = skip_ws_exec(s, j + 1);
                let e = digit_run_end_exec(s, d);
                assert(e > j) by {
                    assert(is_ascii_digit(s@[d as int]));
                }
                let ghost before = out@;
                match digits_at(s, d) {
                    Some(v) => {
                        out.push(v);
                        assert(before + (seq![v] + vol_numbers_from(s@, e as int)) =~= out@
                            + vol_numbers_from(s@, e as int));
                    },
                    None => {},
                }
                i = e;
            },
        }
    }
    proof {
        assert(vol_numbers_from(s@, i as int) =~= Seq::<u32>::empty());
        assert(out@ + Seq::<u32>::empty() =~= out@);
    }
    out
}

/// Reads an index entry line into the entity it names (see
/// [`entity_of_line`]): `- 艾莉娅 (别名: 莉娅, 小艾): 卷2(初登场), 卷4` gives
/// the name 艾莉娅, the aliases 莉娅 and 小艾 and the volumes 2 and 4.
pub fn parse_entity_line(line: &str) -> (r: Option<EntityRecord>)
    ensures
        match entity_of_line(line@) {
            None => r is None,
            Some(m) => r matches Some(e) && e@ == m,
        },
{
    let cs = chars_of(line);
    let (a, b) = trim_bounds(&cs, 0, cs.len());
    proof {
        assert(cs@.subrange(0, cs.len() as int) =~= cs@);
    }
    let st = strip_prefixes_exec(&cs, a, b);
    let l = trimmed(&cs, st, b);
    let c = match find_top_level_colon(&l) {
        None => return None,
        Some(c) => c,
    };
    let left = sub_chars(&l, 0, c);
    let rest = sub_chars(&l, c + 1, l.len());
    let aliases = match first_alias_group_exec(&left, 0) {
        Some((_st, g, p, _e)) => {
            let list = sub_chars(&left, g, p);
            let seps: Vec<char> = vec![',', '，'];
            assert(seps@ =~= seq![',', '，']);
            let pieces = split_chars(&list, &seps);
            alias_list_exec(&pieces)
        },
        None => {
            let v: Vec<String> = Vec::new();
            assert(string_views(v@) =~= Seq::<Seq<char>>::empty());
            v
        },
    };
    let stripped = without_alias_groups_exec(&left);
    let name = trimmed(&stripped, 0, stripped.len());
    proof {
        assert(stripped@.subrange(0, stripped.len() as int) =~= stripped@);
    }
    let vols = vol_numbers_exec(&rest);
    if name.len() == 0 || vols.len() == 0 {
        return None;
    }
    Some(EntityRecord { name: string_of(&name), aliases: aliases, vols: vols })
}

// ---------------------------------------------------------------------------
// Matching the message against the index
// ---------------------------------------------------------------------------

/// The names and aliases that are not empty, with the record of each.
pub open spec fn record_patterns(rs: Seq<RecordModel>) -> (Seq<Seq<char>>, Seq<int>)
    decreases rs.len(),
{
    if rs.len() == 0 {
        (Seq::empty(), Seq::empty())
    } else {
        let (p, m) = record_patterns(rs.drop_last());
        let r = rs.last();
        let ks = crate::lorebook::nonempty_keys(seq![r.name] + r.aliases);
        (p + ks, m + Seq::new(ks.len(), |x: int| rs.len() - 1))
    }
}

/// `v` is a volume of a record that one of the matches `ids` belongs to.
pub open spec fn is_matched_vol(rs: Seq<RecordModel>, owner: Seq<int>, ids: Seq<usize>, v: u32) -> bool {
    exists|k: int, j: int|
        0 <= k < ids.len() && 0 <= j < rs[owner[ids[k] as int]].vols.len() && rs[owner[ids[k] as int]].vols[j] == v
}

pub open spec fn strictly_increasing(s: Seq<u32>) -> bool {
    forall|a: int, b: int| 0 <= a < b < s.len() ==> s[a] < s[b]
}

proof fn lemma_step_contains(
    before: Seq<u32>,
    after: Seq<u32>,
    start: Seq<u32>,
    vols: Seq<u32>,
    j: int,
    x: u32,
    v: u32,
)
    requires
        0 <= j < vols.len(),
        vols[j] == x,
        before.contains(v) <==> (start.contains(v) || exists|b: int| 0 <= b < j && vols[b] == v),
        after.contains(v) <==> (before.contains(v) || v == x),
    ensures
        after.contains(v) <==> (start.contains(v) || exists|b: int| 0 <= b < j + 1 && vols[b] == v),
{
    if exists|b: int| 0 <= b < j + 1 && vols[b] == v {
        let b = choose|b: int| 0 <= b < j + 1 && vols[b] == v;
        if b < j {
            assert(exists|b: int| 0 <= b < j && vols[b] == v);
        }
    }
    if after.contains(v) && !start.contains(v) {
        if v == x {
            assert(0 <= j < j + 1 && vols[j] == v);
        } else {
            let b = choose|b: int| 0 <= b < j && vols[b] == v;
            assert(0 <= b < j + 1 && vols[b] == v);
        }
    }
}

/// Puts `x` into the strictly increasing `v` unless it is there.
fn insert_sorted_unique(v: &mut Vec<u32>, x: u32)
    requires
        strictly_increasing(old(v)@),
    ensures
        strictly_increasing(final(v)@),
        forall|y: u32| final(v)@.contains(y) <==> (old(v)@.contains(y) || y == x),
{
    let mut j: usize = 0;
    while j < v.len() && v[j] < x
        invariant
            j <= v.len(),
            strictly_increasing(v@),
            forall|a: int| 0 <= a < j ==> v@[a] < x,
        decreases v.len() - j,
    {
        j = j + 1;
    }
    if j < v.len() && v[j] == x {
        return;
    }
    let ghost before = v@;
    v.insert(j, x);
    proof {
        before.insert_ensures(j as int, x);
        assert forall|a: int, b: int| 0 <= a < b < v@.len() implies v@[a] < v@[b] by {
            if b < j {
            } else if a > j {
                assert(v@[a] == before[a - 1] && v@[b] == before[b - 1]);
            } else if a == j {
                assert(v@[b] == before[b - 1]);
                assert(before[j as int] > x);
            } else if b == j {
            } else {
                assert(v@[b] == before[b - 1]);
                assert(before[j as int] > x);
            }
        }
        assert forall|y: u32| v@.contains(y) <==> (before.contains(y) || y == x) by {
            if v@.contains(y) {
                let i = choose|i: int| 0 <= i < v@.len() && v@[i] == y;
                if i < j {
                    assert(before[i] == y);
                } else if i > j {
                    assert(before[i - 1] == y);
                }
            }
            if before.contains(y) {
                let i = choose|i: int| 0 <= i < before.len() && before[i] == y;
                if i < j {
                    assert(v@[i] == y);
                } else {
                    assert(v@[i + 1] == y);
                }
            }
            if y == x {
                assert(v@[j as int] == y);
            }
        }
    }
}

/// The patterns and owners of the records.
fn record_patterns_exec(records: &Vec<EntityRecord>) -> (r: (Vec<String>, Vec<usize>))
    ensures
        string_views(r.0@) == record_patterns(record_views(records@)).0,
        crate::lorebook::ints(r.1@) == record_patterns(record_views(records@)).1,
{
    let ghost rs = record_views(records@);
    let mut pats: Vec<String> = Vec::new();
    let mut owner: Vec<usize> = Vec::new();
    let mut i: usize = 0;
    proof {
        assert(rs.take(0) =~= Seq::<RecordModel>::empty());
        assert(string_views(pats@) =~= Seq::<Seq<char>>::empty());
        assert(crate::lorebook::ints(owner@) =~= Seq::<int>::empty());
    }
    while i < records.len()
        invariant
            i <= records.len(),
            rs == record_views(records@),
            string_views(pats@) == record_patterns(rs.take(i as int)).0,
            crate::lorebook::ints(owner@) == record_patterns(rs.take(i as int)).1,
        decreases records.len() - i,
    {
        let r = &records[i];
        proof {
            assert(rs.take(i + 1).drop_last() =~= rs.take(i as int));
            assert(rs.take(i + 1).last() == r@);
        }
        let ghost p0 = string_views(pats@);
        let ghost m0 = crate::lorebook::ints(owner@);
        let ghost ks = seq![r@.name] + r@.aliases;
        proof {
            assert(ks.take(0) =~= Seq::<Seq<char>>::empty());
            assert(ks.take(1).drop_last() =~= ks.take(0));
            assert(ks.take(1).last() == r@.name);
        }
        if r.name.unicode_len() > 0 {
            let ghost bp = pats@;
            let ghost bo = owner@;
            pats.push(string_of(&chars_of(r.name.as_str())));
            owner.push(i);
            proof {
                assert(string_views(pats@) =~= string_views(bp).push(r@.name));
                assert(crate::lorebook::ints(owner@) =~= crate::lorebook::ints(bo).push(i as int));
            }
        }
        proof {
            let n1 = crate::lorebook::nonempty_keys(ks.take(1)).len();
            assert(crate::lorebook::nonempty_keys(ks.take(0)) =~= Seq::<Seq<char>>::empty());
            if r@.name.len() > 0 {
                assert(crate::lorebook::nonempty_keys(ks.take(1)) =~= seq![r@.name]);
            } else {
                assert(crate::lorebook::nonempty_keys(ks.take(1)) =~= Seq::<Seq<char>>::empty());
            }
            assert(string_views(pats@) =~= p0 + crate::lorebook::nonempty_keys(ks.take(1)));
            assert(crate::lorebook::ints(owner@) =~= m0 + Seq::new(n1, |x: int| i as int));
        }
        let mut j: usize = 0;
        while j < r.aliases.len()
            invariant
                j <= r.aliases.len(),
                ks == seq![r@.name] + r@.aliases,
                ks.len() == r.aliases.len() + 1,
                string_views(pats@) == p0 + crate::lorebook::nonempty_keys(ks.take(j + 1)),
                crate::lorebook::ints(owner@) == m0 + Seq::new(
                    crate::lorebook::nonempty_keys(ks.take(j + 1)).len(),
                    |x: int| i as int,
                ),
            decreases r.aliases.len() - j,
        {
            let k: &String = &r.aliases[j];
            proof {
                assert(ks.take(j + 2).drop_last() =~= ks.take(j + 1));
                assert(ks.take(j + 2).last() == k@);
            }
            if k.unicode_len() > 0 {
                let ghost bp = pats@;
                let ghost bo = owner@;
                pats.push(string_of(&chars_of(k.as_str())));
                owner.push(i);
                proof {
                    assert(string_views(pats@) =~= string_views(bp).push(k@));
                    assert(crate::lorebook::ints(owner@) =~= crate::lorebook::ints(bo).push(i as int));
                    let n0 = crate::lorebook::nonempty_keys(ks.take(j + 1)).len();
                    assert(Seq::new(n0 + 1, |x: int| i as int) =~= Seq::new(n0, |x: int| i as int).push(
                        i as int,
                    ));
                }
            }
            j = j + 1;
        }
        proof {
            assert(ks.take(r.aliases.len() + 1) =~= ks);
        }
        i = i + 1;
    }
    proof {
        assert(rs.take(records.len() as int) =~= rs);
    }
    (pats, owner)
}

proof fn lemma_record_patterns_len(rs: Seq<RecordModel>)
    ensures
        record_patterns(rs).0.len() == record_patterns(rs).1.len(),
        forall|x: int|
            0 <= x < record_patterns(rs).1.len() ==> 0 <= #[trigger] record_patterns(rs).1[x] < rs.len(),
    decreases rs.len(),
{
    if rs.len() > 0 {
        lemma_record_patterns_len(rs.drop_last());
    }
}

/// The volumes that the matches `ids` (indices into the records' patterns)
/// point to, ascending and without repeats.
pub fn matched_vols(records: &Vec<EntityRecord>, ids: &Vec<usize>) -> (r: Vec<u32>)
    requires
        forall|k: int| 0 <= k < ids.len() ==> ids@[k] < record_patterns(record_views(records@)).0.len(),
    ensures
        strictly_increasing(r@),
        forall|v: u32|
            r@.contains(v) <==> is_matched_vol(
                record_views(records@),
                record_patterns(record_views(records@)).1,
                ids@,
                v,
            ),
{
    let ghost rs = record_views(records@);
    let (_pats, owner) = record_patterns_exec(records);
    let ghost m = record_patterns(rs).1;
    proof {
        lemma_record_patterns_len(rs);
    }
    let mut out: Vec<u32> = Vec::new();
    let mut k: usize = 0;
    while k < ids.len()
        invariant
            k <= ids.len(),
            rs == record_views(records@),
            m == record_patterns(rs).1,
            crate::lorebook::ints(owner@) == m,
            m.len() == record_patterns(rs).0.len(),
            forall|x: int| 0 <= x < m.len() ==> 0 <= #[trigger] m[x] < records.len(),
            forall|x: int| 0 <= x < ids.len() ==> ids@[x] < record_patterns(rs).0.len(),
            strictly_increasing(out@),
            forall|v: u32|
                out@.contains(v) <==> exists|a: int, j: int|
                    0 <= a < k && 0 <= j < rs[m[ids@[a] as int]].vols.len() && rs[m[ids@[a] as int]].vols[j] == v,
        decreases ids.len() - k,
    {
        let id = ids[k];
        assert(m[id as int] == owner@[id as int] as int);
        let rec = owner[id];
        let vols = &records[rec].vols;
        assert(rs[m[ids@[k as int] as int]].vols == vols@);
        let mut j: usize = 0;
        let ghost start = out@;
        while j < vols.len()
            invariant
                j <= vols.len(),
                strictly_increasing(out@),
                forall|v: u32| #[trigger] out@.contains(v) <==> (start.contains(v) || exists|b: int| 0 <= b < j && vols@[b] == v),
            decreases vols.len() - j,
        {
            let ghost before = out@;
            let x = vols[j];
            insert_sorted_unique(&mut out, x);
            proof {
                assert forall|v: u32| out@.contains(v) <==> (start.contains(v) || exists|b: int|
                    0 <= b < j + 1 && vols@[b] == v) by {
                    assert(before.contains(v) <==> (start.contains(v) || exists|b: int| 0 <= b < j && vols@[b] == v));
                    lemma_step_contains(before, out@, start, vols@, j as int, x, v);
                }
            }
            j = j + 1;
        }
        proof {
            assert forall|v: u32| out@.contains(v) <==> exists|a: int, j2: int|
                0 <= a < k + 1 && 0 <= j2 < rs[m[ids@[a] as int]].vols.len() && rs[m[ids@[a] as int]].vols[j2] == v by {
                if exists|a: int, j2: int|
                    0 <= a < k + 1 && 0 <= j2 < rs[m[ids@[a] as int]].vols.len() && rs[m[ids@[a] as int]].vols[j2] == v {
                    let (a, j2) = choose|a: int, j2: int|
                        0 <= a < k + 1 && 0 <= j2 < rs[m[ids@[a] as int]].vols.len() && rs[m[ids@[a] as int]].vols[j2] == v;
                    if a == k {
                        assert(vols@[j2] == v);
                    } else {
                        assert(start.contains(v));
                    }
                }
                if out@.contains(v) && !start.contains(v) {
                    let b = choose|b: int| 0 <= b < vols.len() && vols@[b] == v;
                    assert(0 <= k < k + 1 && 0 <= b < rs[m[ids@[k as int] as int]].vols.len() && rs[m[ids@[k as int] as int]].vols[b] == v);
                }
                if start.contains(v) {
                    let (a, j2) = choose|a: int, j2: int|
                        0 <= a < k && 0 <= j2 < rs[m[ids@[a] as int]].vols.len() && rs[m[ids@[a] as int]].vols[j2] == v;
                    assert(0 <= a < k + 1 && 0 <= j2 < rs[m[ids@[a] as int]].vols.len() && rs[m[ids@[a] as int]].vols[j2] == v);
                }
            }
        }
        k = k + 1;
    }
    out
}

/// The volumes that `user_message` mentions through `records`: every name
/// or alias the leftmost-longest scan finds brings in the volumes of its
/// record; ascending, without repeats. Nothing when there is no pattern or
/// no automaton can be built.
pub fn collect_matched_vols(user_message: &str, records: &Vec<EntityRecord>) -> (r: Vec<u32>)
    ensures
        ({
            let (pats, owner) = record_patterns(record_views(records@));
            if pats.len() == 0 || !ac_builds(pats) {
                r@ == Seq::<u32>::empty()
            } else {
                strictly_increasing(r@) && forall|v: u32|
                    r@.contains(v) <==> is_matched_vol(
                        record_views(records@),
                        owner,
                        leftmost_longest(pats, user_message@),
                        v,
                    )
            }
        }),
        ({
            let pats = record_patterns(record_views(records@)).0;
            (forall|k: int| 0 <= k < pats.len() ==> !occurs_in(user_message@, #[trigger] pats[k])) ==> r@.len()
                == 0
        }),
{
    let (pats, _owner) = record_patterns_exec(records);
    if pats.len() == 0 {
        return Vec::new();
    }
    match find_leftmost_longest(&pats, user_message) {
        None => Vec::new(),
        Some(ids) => {
            let r = matched_vols(records, &ids);
            proof {
                let rs = record_views(records@);
                let ps = record_patterns(rs).0;
                lemma_record_patterns_nonempty(rs);
                if forall|k: int| 0 <= k < ps.len() ==> !occurs_in(user_message@, #[trigger] ps[k]) {
                    lemma_unmatched_scan(ps, user_message@, ids@);
                    if r@.len() > 0 {
                        assert(r@.contains(r@[0]));
                    }
                }
            }
            r
        },
    }
}

proof fn lemma_record_patterns_nonempty(rs: Seq<RecordModel>)
    ensures
        all_nonempty(record_patterns(rs).0),
    decreases rs.len(),
{
    if rs.len() > 0 {
        lemma_record_patterns_nonempty(rs.drop_last());
        let r = rs.last();
        let ks = nonempty_keys(seq![r.name] + r.aliases);
        lemma_nonempty_keys(seq![r.name] + r.aliases);
        let p = record_patterns(rs.drop_last()).0;
        assert forall|i: int| 0 <= i < (p + ks).len() implies #[trigger] (p + ks)[i].len() > 0 by {
            if i >= p.len() {
                assert((p + ks)[i] == ks[i - p.len()]);
            }
        }
    }
}

// ---------------------------------------------------------------------------
// Related history
// ---------------------------------------------------------------------------

/// The entities of the lines that name one, in order.
pub open spec fn records_of_lines(lines: Seq<Seq<char>>) -> Seq<RecordModel>
    decreases lines.len(),
{
    if lines.len() == 0 {
        Seq::empty()
    } else {
        match entity_of_line(lines.last()) {
            Some(r) => records_of_lines(lines.drop_last()).push(r),
            None => records_of_lines(lines.drop_last()),
        }
    }
}

/// The entities of an `index.md`: those of its characters, items and places
/// sections, in that order.
pub open spec fn index_records(md: Seq<char>) -> Seq<RecordModel> {
    let m = sections_of(md);
    records_of_lines(m.characters + m.items + m.locations)
}

/// Adds the entities of `lines` to `out`.
fn push_records(out: &mut Vec<EntityRecord>, lines: &Vec<String>)
    ensures
        record_views(final(out)@) == record_views(old(out)@) + records_of_lines(string_views(lines@)),
{
    let ghost ls = string_views(lines@);
    let ghost base = record_views(out@);
    let mut k: usize = 0;
    proof {
        assert(ls.take(0) =~= Seq::<Seq<char>>::empty());
        assert(base + records_of_lines(ls.take(0)) =~= base);
    }
    while k < lines.len()
        invariant
            k <= lines.len(),
            ls == string_views(lines@),
            record_views(out@) == base + records_of_lines(ls.take(k as int)),
        decreases lines.len() - k,
    {
        proof {
            assert(ls.take(k + 1).drop_last() =~= ls.take(k as int));
            assert(ls.take(k + 1).last() == lines@[k as int]@);
        }
        match parse_entity_line(lines[k].as_str()) {
            Some(r) => {
                let ghost before = record_views(out@);
                let ghost rv = r@;
                out.push(r);
                assert(record_views(out@) =~= before.push(rv));
            },
            None => {},
        }
        k = k + 1;
    }
    proof {
        assert(ls.take(lines.len() as int) =~= ls);
    }
}

proof fn lemma_records_concat(a: Seq<Seq<char>>, b: Seq<Seq<char>>)
    ensures
        records_of_lines(a + b) == records_of_lines(a) + records_of_lines(b),
    decreases b.len(),
{
    if b.len() == 0 {
        assert(a + b =~= a);
        assert(records_of_lines(a) + Seq::<RecordModel>::empty() =~= records_of_lines(a));
    } else {
        lemma_records_concat(a, b.drop_last());
        assert((a + b).drop_last() =~= a + b.drop_last());
        assert((a + b).last() == b.last());
        match entity_of_line(b.last()) {
            Some(r) => {
                assert(records_of_lines(a) + records_of_lines(b.drop_last()).push(r) =~= (
                records_of_lines(a) + records_of_lines(b.drop_last())).push(r));
            },
            None => {},
        }
    }
}

/// Every line that names an entity gives its record.
proof fn lemma_line_records(ls: Seq<Seq<char>>)
    ensures
        forall|l: Seq<char>|
            ls.contains(l) && entity_of_line(l) is Some ==> #[trigger] records_of_lines(ls).contains(
                entity_of_line(l)->0,
            ),
    decreases ls.len(),
{
    if ls.len() > 0 {
        let init = ls.drop_last();
        lemma_line_records(init);
        assert forall|l: Seq<char>|
            ls.contains(l) && entity_of_line(l) is Some implies #[trigger] records_of_lines(ls).contains(
                entity_of_line(l)->0,
            ) by {
            let prev = records_of_lines(init);
            if l == ls.last() {
                assert(records_of_lines(ls) == prev.push(entity_of_line(l)->0));
                assert(records_of_lines(ls)[prev.len() as int] == entity_of_line(l)->0);
            } else {
                let j = choose|j: int| 0 <= j < ls.len() && ls[j] == l;
                assert(init[j] == l);
                assert(init.contains(l));
                assert(prev.contains(entity_of_line(l)->0));
                let q = choose|q: int| 0 <= q < prev.len() && prev[q] == entity_of_line(l)->0;
                match entity_of_line(ls.last()) {
                    Some(r) => {
                        assert(records_of_lines(ls) == prev.push(r));
                        assert(records_of_lines(ls)[q] == prev[q]);
                    },
                    None => {
                        assert(records_of_lines(ls) == prev);
                    },
                }
            }
        }
    }
}

/// The entities of `index.md` are those of its characters section, then its
/// items section, then its places section, section by section in order; so
/// every line of those three sections that names an entity gives a record.
pub proof fn lemma_index_records_by_section(md: Seq<char>)
    ensures
        ({
            let m = sections_of(md);
            index_records(md) == records_of_lines(m.characters) + records_of_lines(m.items) + records_of_lines(
                m.locations,
            )
        }),
        ({
            let m = sections_of(md);
            forall|l: Seq<char>|
                (m.characters.contains(l) || m.items.contains(l) || m.locations.contains(l)) && entity_of_line(l) is Some
                    ==> #[trigger] index_records(md).contains(entity_of_line(l)->0)
        }),
{
    let m = sections_of(md);
    lemma_records_concat(m.characters, m.items);
    lemma_records_concat(m.characters + m.items, m.locations);
    lemma_line_records(m.characters + m.items + m.locations);
    assert forall|l: Seq<char>|
        (m.characters.contains(l) || m.items.contains(l) || m.locations.contains(l)) && entity_of_line(l) is Some
            implies #[trigger] index_records(md).contains(entity_of_line(l)->0) by {
        let all = m.characters + m.items + m.locations;
        if m.characters.contains(l) {
            let j = choose|j: int| 0 <= j < m.characters.len() && m.characters[j] == l;
            assert(all[j] == l);
        } else if m.items.contains(l) {
            let j = choose|j: int| 0 <= j < m.items.len() && m.items[j] == l;
            assert(all[m.characters.len() + j] == l);
        } else {
            let j = choose|j: int| 0 <= j < m.locations.len() && m.locations[j] == l;
            assert(all[m.characters.len() + m.items.len() + j] == l);
        }
        assert(all.contains(l));
    }
}

/// The entities named in the characters, items and places sections of the
/// text of `index.md`.
pub fn index_records_of(index_md: &str) -> (r: Vec<EntityRecord>)
    ensures
        record_views(r@) == index_records(index_md@),
        ({
            let m = sections_of(index_md@);
            record_views(r@) == records_of_lines(m.characters) + records_of_lines(m.items) + records_of_lines(
                m.locations,
            )
        }),
{
    proof {
        lemma_index_records_by_section(index_md@);
    }
    let sections = crate::index_parser::parse_sections(index_md);
    let mut out: Vec<EntityRecord> = Vec::new();
    assert(record_views(out@) =~= Seq::<RecordModel>::empty());
    push_records(&mut out, &sections.characters);
    push_records(&mut out, &sections.items);
    push_records(&mut out, &sections.locations);
    proof {
        let m = sections@;
        lemma_records_concat(m.characters, m.items);
        lemma_records_concat(m.characters + m.items, m.locations);
        assert(Seq::<RecordModel>::empty() + records_of_lines(m.characters) =~= records_of_lines(
            m.characters,
        ));
    }
    out
}

/// The volumes that `user_message` mentions through the entities of the
/// index (see [`collect_matched_vols`]), ascending, without repeats.
pub fn related_volumes(index_md: &str, user_message: &str) -> (r: Vec<u32>)
    ensures
        ({
            let rs = index_records(index_md@);
            let (pats, owner) = record_patterns(rs);
            if pats.len() == 0 || !ac_builds(pats) {
                r@ == Seq::<u32>::empty()
            } else {
                strictly_increasing(r@) && forall|v: u32|
                    r@.contains(v) <==> is_matched_vol(
                        rs,
                        owner,
                        leftmost_longest(pats, user_message@),
                        v,
                    )
            }
        }),
        ({
            let pats = record_patterns(index_records(index_md@)).0;
            (forall|k: int| 0 <= k < pats.len() ==> !occurs_in(user_message@, #[trigger] pats[k])) ==> r@.len()
                == 0
        }),
{
    let records = index_records_of(index_md);
    collect_matched_vols(user_message, &records)
}

pub open spec fn opt_views(s: Seq<Option<String>>) -> Seq<Option<Seq<char>>> {
    s.map_values(|o: Option<String>| match o {
        Some(h) => Some(h@),
        None => None,
    })
}

/// `--- 卷N ---`, a line feed, the header without trailing whitespace and a
/// line feed, for each volume whose header could be read.
pub open spec fn history_block(vols: Seq<u32>, headers: Seq<Option<Seq<char>>>) -> Seq<char>
    decreases vols.len(),
{
    if vols.len() == 0 || headers.len() != vols.len() {
        Seq::empty()
    } else {
        let prev = history_block(vols.drop_last(), headers.drop_last());
        match headers.last() {
            Some(h) => prev + seq!['-', '-', '-', ' ', '卷'] + crate::text::decimal(vols.last() as nat)
                + seq![' ', '-', '-', '-', '\n'] + trim_end(h) + seq!['\n'],
            None => prev,
        }
    }
}

/// Appends the `[Related History]` section for the related volumes: nothing
/// when there are none; else a header, then for each volume (ascending)
/// whose header was read (`headers[i]` is the header of `volumes[i]`) its
/// `--- 卷N ---` line and trimmed header.
pub fn inject_volume_context(volumes: &Vec<u32>, headers: &Vec<Option<String>>, prompt: &mut String)
    requires
        headers.len() == volumes.len(),
    ensures
        final(prompt)@ == if volumes.len() == 0 {
            old(prompt)@
        } else {
            old(prompt)@ + "\n[Related History]\n"@ + history_block(volumes@, opt_views(headers@))
        },
{
    if volumes.len() == 0 {
        return;
    }
    push_str(prompt, "\n[Related History]\n");
    let ghost base = prompt@;
    let ghost hs = opt_views(headers@);
    let mut i: usize = 0;
    proof {
        assert(volumes@.take(0) =~= Seq::<u32>::empty());
        assert(base + history_block(volumes@.take(0), hs.take(0)) =~= base);
    }
    while i < volumes.len()
        invariant
            i <= volumes.len(),
            headers.len() == volumes.len(),
            hs == opt_views(headers@),
            prompt@ == base + history_block(volumes@.take(i as int), hs.take(i as int)),
        decreases volumes.len() - i,
    {
        proof {
            assert(volumes@.take(i + 1).drop_last() =~= volumes@.take(i as int));
            assert(hs.take(i + 1).drop_last() =~= hs.take(i as int));
            assert(volumes@.take(i + 1).last() == volumes@[i as int]);
            assert(hs.take(i + 1).last() == hs[i as int]);
        }
        match &headers[i] {
            Some(h) => {
                push_char(prompt, '-');
                push_char(prompt, '-');
                push_char(prompt, '-');
                push_char(prompt, ' ');
                push_char(prompt, '卷');
                crate::text::push_decimal(prompt, volumes[i] as u64);
                push_char(prompt, ' ');
                push_char(prompt, '-');
                push_char(prompt, '-');
                push_char(prompt, '-');
                push_char(prompt, '\n');
                let hc = chars_of(h.as_str());
                let b = crate::text::skip_ws_backward(&hc, 0, hc.len());
                crate::text::push_chars_range(prompt, &hc, 0, b);
                push_char(prompt, '\n');
                proof {
                    assert(hc@.subrange(0, hc.len() as int) =~= hc@);
                    assert(hc@.subrange(0, b as int) =~= trim_end(h@));
                    assert(prompt@ =~= base + history_block(volumes@.take(i + 1), hs.take(i + 1)));
                }
            },
            None => {},
        }
        i = i + 1;
    }
    proof {
        assert(volumes@.take(volumes.len() as int) =~= volumes@);
        assert(hs.take(volumes.len() as int) =~= hs);
    }
}

} // verus!
