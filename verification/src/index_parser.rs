//! The global `index.md` of a story and the increments that close each volume.
//!
//! When a volume is sealed the model writes a `<全局index更新>` block, one
//! instruction per line:
//!
//! ```text
//! <全局index更新>
//! [人物] 提升: 艾莉娅(卷6·身份揭晓)
//! [人物] 仅本卷: 路过的观众
//! [线索] 艾莉娅身份 → 卷6(已解)
//! [线索] 神殿内部机关 → [新增·未解]
//! </全局index更新>
//! ```
//!
//! [`parse_index_diff`] reads such a block into an [`IndexDiff`]; [`apply_diff`]
//! merges it into the text of `index.md`. The grammar of a line is given by the
//! spec functions below (`split_line`, `promote_split`, `thread_split`), each of
//! which states which characters form the tag, the mode and the payload.
use vstd::prelude::*;
use crate::text::{
    char_is_whitespace, chars_eq, chars_of, contains_seq, decimal, digits_value, find_from, find_from_exec,
    is_ascii_digit, is_white_space, lead_ws, lemma_find_from_bounds, lemma_lead_ws,
    lemma_split_by_len, lines_of, occurs_at, occurs_at_exec, push_char, push_chars, push_decimal,
    push_str, skip_ws_forward, split_by, split_chars, split_lines, string_of, string_views,
    strip_cr, sub_chars, trim, trim_bounds, trim_end, trim_start, views,
};

verus! {

broadcast use vstd::string::group_string_axioms;

// ---------------------------------------------------------------------------
// Types
// ---------------------------------------------------------------------------

/// The kind of an entity; `index.md` keeps one `##` section per kind.
#[derive(Debug, Clone, Copy, PartialEq, Eq)]
pub enum EntityCategory {
    /// A character (`人物`).
    Character,
    /// An item (`物品`).
    Item,
    /// A place (`地点`).
    Location,
}

/// Whether an entity goes into the global index or stays with its volume.
#[derive(Debug, Clone, Copy, PartialEq, Eq)]
pub enum PromoteMode {
    /// `提升`: recorded in the global index.
    Promote,
    /// `仅本卷`: kept for the volume only, never written to the global index.
    LocalOnly,
}

/// One entity named by a volume.
#[derive(Debug, Clone, PartialEq)]
pub struct EntityEntry {
    pub category: EntityCategory,
    pub mode: PromoteMode,
    pub name: String,
    /// The volume it is tied to, if the entry names one.
    pub volume: Option<u32>,
    /// Free remarks (`初登场`, `失踪`, ...).
    pub note: String,
}

/// How an open thread (`悬挂线索`) changed.
#[derive(Debug, Clone, Copy, PartialEq, Eq)]
pub enum ThreadStatus {
    /// A new open thread (`[新增·未解]`).
    NewOpen,
    /// An existing thread moved on.
    Progressed,
    /// The thread was resolved (`已解`).
    Resolved,
}

/// One thread update named by a volume.
#[derive(Debug, Clone, PartialEq)]
pub struct ThreadUpdate {
    pub name: String,
    pub volume: Option<u32>,
    pub status: ThreadStatus,
    pub note: String,
}

/// Everything one `<全局index更新>` block says.
#[derive(Debug, Clone, PartialEq)]
pub struct IndexDiff {
    pub entities: Vec<EntityEntry>,
    pub threads: Vec<ThreadUpdate>,
}

/// A name with its optional `(卷N·remark)` part taken apart.
#[derive(Debug, Clone, PartialEq)]
pub struct ParsedNamedRef {
    pub name: String,
    pub volume: Option<u32>,
    pub note: String,
}

// ---------------------------------------------------------------------------
// Models
// ---------------------------------------------------------------------------

pub struct EntityModel {
    pub category: EntityCategory,
    pub mode: PromoteMode,
    pub name: Seq<char>,
    pub volume: Option<u32>,
    pub note: Seq<char>,
}

pub struct ThreadModel {
    pub name: Seq<char>,
    pub volume: Option<u32>,
    pub status: ThreadStatus,
    pub note: Seq<char>,
}

pub struct DiffModel {
    pub entities: Seq<EntityModel>,
    pub threads: Seq<ThreadModel>,
}

pub struct NamedModel {
    pub name: Seq<char>,
    pub volume: Option<u32>,
    pub note: Seq<char>,
}

impl View for EntityEntry {
    type V = EntityModel;

    open spec fn view(&self) -> EntityModel {
        EntityModel {
            category: self.category,
            mode: self.mode,
            name: self.name@,
            volume: self.volume,
            note: self.note@,
        }
    }
}

impl View for ThreadUpdate {
    type V = ThreadModel;

    open spec fn view(&self) -> ThreadModel {
        ThreadModel {
            name: self.name@,
            volume: self.volume,
            status: self.status,
            note: self.note@,
        }
    }
}

impl View for IndexDiff {
    type V = DiffModel;

    open spec fn view(&self) -> DiffModel {
        DiffModel {
            entities: self.entities@.map_values(|e: EntityEntry| e@),
            threads: self.threads@.map_values(|t: ThreadUpdate| t@),
        }
    }
}

impl View for ParsedNamedRef {
    type V = NamedModel;

    open spec fn view(&self) -> NamedModel {
        NamedModel { name: self.name@, volume: self.volume, note: self.note@ }
    }
}

pub open spec fn empty_diff() -> DiffModel {
    DiffModel { entities: Seq::empty(), threads: Seq::empty() }
}

impl Default for IndexDiff {
    fn default() -> (r: IndexDiff)
        ensures
            r@ == empty_diff(),
    {
        let r = IndexDiff { entities: Vec::new(), threads: Vec::new() };
        assert(r@.entities =~= Seq::<EntityModel>::empty());
        assert(r@.threads =~= Seq::<ThreadModel>::empty());
        r
    }
}

// ---------------------------------------------------------------------------
// Keywords
// ---------------------------------------------------------------------------

pub open spec fn tag_character() -> Seq<char> {
    seq!['人', '物']
}

pub open spec fn tag_item() -> Seq<char> {
    seq!['物', '品']
}

pub open spec fn tag_location() -> Seq<char> {
    seq!['地', '点']
}

pub open spec fn tag_thread() -> Seq<char> {
    seq!['线', '索']
}

pub open spec fn kw_promote() -> Seq<char> {
    seq!['提', '升']
}

pub open spec fn kw_local_only() -> Seq<char> {
    seq!['仅', '本', '卷']
}

/// `<全局index更新>`
pub open spec fn block_open() -> Seq<char> {
    seq!['<', '全', '局', 'i', 'n', 'd', 'e', 'x', '更', '新', '>']
}

/// `</全局index更新>`
pub open spec fn block_close() -> Seq<char> {
    seq!['<', '/', '全', '局', 'i', 'n', 'd', 'e', 'x', '更', '新', '>']
}

/// `[新增`
pub open spec fn mark_new_bracket() -> Seq<char> {
    seq!['[', '新', '增']
}

/// `新增·`
pub open spec fn mark_new_dot() -> Seq<char> {
    seq!['新', '增', '·']
}

/// `已解`
pub open spec fn mark_resolved() -> Seq<char> {
    seq!['已', '解']
}

// ---------------------------------------------------------------------------
// Grammar
// ---------------------------------------------------------------------------

/// The index just past the whitespace run that starts at `i`.
pub open spec fn skip_ws(s: Seq<char>, i: int) -> int {
    i + lead_ws(s.subrange(i, s.len() as int))
}

/// The index just past the run of ASCII digits that starts at `i`.
pub open spec fn digit_run_end(s: Seq<char>, i: int) -> int
    decreases s.len() - i,
{
    if 0 <= i < s.len() && is_ascii_digit(s[i]) {
        digit_run_end(s, i + 1)
    } else {
        i
    }
}

/// A volume mark starts at `i`: `卷`, optional whitespace, then a digit.
pub open spec fn vol_mark_at(s: Seq<char>, i: int) -> bool {
    &&& 0 <= i < s.len()
    &&& s[i] == '卷'
    &&& skip_ws(s, i + 1) < s.len()
    &&& is_ascii_digit(s[skip_ws(s, i + 1)])
}

/// The first volume mark at or after `i`.
pub open spec fn first_vol_mark(s: Seq<char>, i: int) -> Option<int>
    decreases s.len() - i,
{
    if i < 0 || i >= s.len() {
        None
    } else if vol_mark_at(s, i) {
        Some(i)
    } else {
        first_vol_mark(s, i + 1)
    }
}

/// The number of the first volume mark of `s` (`卷 12` gives 12), when `s`
/// has one and its digits fit in a `u32`.
pub open spec fn volume_number(s: Seq<char>) -> Option<u32> {
    match first_vol_mark(s, 0) {
        None => None,
        Some(i) => {
            let d = skip_ws(s, i + 1);
            let v = digits_value(s.subrange(d, digit_run_end(s, d)));
            if v <= u32::MAX {
                Some(v as u32)
            } else {
                None
            }
        },
    }
}

/// The first index of `c` in `s`.
pub open spec fn first_index_of(s: Seq<char>, c: char, i: int) -> Option<int>
    decreases s.len() - i,
{
    if i < 0 || i >= s.len() {
        None
    } else if s[i] == c {
        Some(i)
    } else {
        first_index_of(s, c, i + 1)
    }
}

/// The last index of `c` in `s[..j]`.
pub open spec fn last_index_of(s: Seq<char>, c: char, j: int) -> Option<int>
    decreases j,
{
    if j <= 0 || j > s.len() {
        None
    } else if s[j - 1] == c {
        Some(j - 1)
    } else {
        last_index_of(s, c, j - 1)
    }
}

/// The pieces that name no volume.
pub open spec fn pieces_without_volume(ps: Seq<Seq<char>>) -> Seq<Seq<char>>
    decreases ps.len(),
{
    if ps.len() == 0 {
        Seq::empty()
    } else {
        let prev = pieces_without_volume(ps.drop_last());
        if volume_number(ps.last()) is None {
            prev.push(ps.last())
        } else {
            prev
        }
    }
}

/// The pieces joined with `sep` between each two of them.
pub open spec fn join_with(ps: Seq<Seq<char>>, sep: Seq<char>) -> Seq<char>
    decreases ps.len(),
{
    if ps.len() == 0 {
        Seq::empty()
    } else if ps.len() == 1 {
        ps[0]
    } else {
        join_with(ps.drop_last(), sep) + sep + ps.last()
    }
}

/// `名字(卷6·备注)` read as name, volume and note: the parenthesis runs from the
/// first `(` to the last `)`; the note is what is left of its `·`-separated
/// parts once those naming a volume are dropped.
pub open spec fn named_ref(input: Seq<char>) -> NamedModel {
    let t = trim(input);
    match (first_index_of(t, '(', 0), last_index_of(t, ')', t.len() as int)) {
        (Some(open), Some(close)) if close > open => {
            let inside = t.subrange(open + 1, close);
            NamedModel {
                name: trim(t.subrange(0, open)),
                volume: volume_number(inside),
                note: trim(join_with(pieces_without_volume(split_by(inside, seq!['·'])), seq!['·'])),
            }
        },
        _ => NamedModel { name: t, volume: None, note: Seq::empty() },
    }
}

/// The `]` that closes the tag of a line whose `[` stands at `first - 1`:
/// the tag is one or more non-whitespace characters, the shortest such that
/// something follows the `]`.
pub open spec fn tag_close_from(l: Seq<char>, first: int, k: int) -> Option<int>
    decreases l.len() - k,
{
    if k < first || k + 1 >= l.len() {
        None
    } else if is_white_space(l[k]) {
        None
    } else if k > first && l[k] == ']' {
        Some(k)
    } else {
        tag_close_from(l, first, k + 1)
    }
}

/// A line `[tag] rest` taken apart; `rest` is trimmed.
pub open spec fn split_line(l: Seq<char>) -> Option<(Seq<char>, Seq<char>)> {
    let a = skip_ws(l, 0);
    if a < l.len() && l[a] == '[' {
        match tag_close_from(l, a + 1, a + 1) {
            Some(k) => Some((l.subrange(a + 1, k), trim(l.subrange(k + 1, l.len() as int)))),
            None => None,
        }
    } else {
        None
    }
}

/// `提升: payload` or `仅本卷: payload` (either colon, any whitespace around
/// it); the payload is trimmed.
pub open spec fn promote_split(r: Seq<char>) -> Option<(PromoteMode, Seq<char>)> {
    let a = skip_ws(r, 0);
    let head: Option<(PromoteMode, int)> = if occurs_at(r, kw_promote(), a) {
        Some((PromoteMode::Promote, a + 2))
    } else if occurs_at(r, kw_local_only(), a) {
        Some((PromoteMode::LocalOnly, a + 3))
    } else {
        None
    };
    match head {
        None => None,
        Some((mode, k)) => {
            let j = skip_ws(r, k);
            if j < r.len() && j + 1 < r.len() && (r[j] == ':' || r[j] == '：') {
                Some((mode, trim(r.subrange(j + 1, r.len() as int))))
            } else {
                None
            }
        },
    }
}

/// The end of an arrow (`→` or `->`) that starts at `p`.
pub open spec fn arrow_end(r: Seq<char>, p: int) -> Option<int> {
    if 0 <= p < r.len() && r[p] == '→' {
        Some(p + 1)
    } else if 0 <= p && p + 1 < r.len() && r[p] == '-' && r[p + 1] == '>' {
        Some(p + 2)
    } else {
        None
    }
}

/// The shortest name end `e` (at or after `e`) followed by whitespace, an
/// arrow and something more; gives `e` and the end of the arrow.
pub open spec fn arrow_cut_from(r: Seq<char>, e: int) -> Option<(int, int)>
    decreases r.len() - e,
{
    if e < 0 || e >= r.len() {
        None
    } else {
        match arrow_end(r, skip_ws(r, e)) {
            Some(q) if q < r.len() => Some((e, q)),
            _ => arrow_cut_from(r, e + 1),
        }
    }
}

/// `name → status` (or `->`), both trimmed.
pub open spec fn thread_split(r: Seq<char>) -> Option<(Seq<char>, Seq<char>)> {
    let a = skip_ws(r, 0);
    match arrow_cut_from(r, a + 1) {
        Some((e, q)) => Some((trim(r.subrange(a, e)), trim(r.subrange(q, r.len() as int)))),
        None => None,
    }
}

/// The category a tag names.
pub open spec fn category_of(tag: Seq<char>) -> Option<EntityCategory> {
    if tag == tag_character() {
        Some(EntityCategory::Character)
    } else if tag == tag_item() {
        Some(EntityCategory::Item)
    } else if tag == tag_location() {
        Some(EntityCategory::Location)
    } else {
        None
    }
}

/// The update a thread line gives.
pub open spec fn thread_of(name: Seq<char>, status: Seq<char>) -> ThreadModel {
    ThreadModel {
        name: name,
        volume: volume_number(status),
        status: if contains_seq(status, mark_new_bracket()) || contains_seq(status, mark_new_dot()) {
            ThreadStatus::NewOpen
        } else if contains_seq(status, mark_resolved()) {
            ThreadStatus::Resolved
        } else {
            ThreadStatus::Progressed
        },
        note: status,
    }
}

/// The entities named by the comma-separated pieces of a payload; empty
/// pieces and pieces with an empty name are skipped.
pub open spec fn entities_of(cat: EntityCategory, mode: PromoteMode, pieces: Seq<Seq<char>>) -> Seq<
    EntityModel,
>
    decreases pieces.len(),
{
    if pieces.len() == 0 {
        Seq::empty()
    } else {
        let prev = entities_of(cat, mode, pieces.drop_last());
        let p = trim(pieces.last());
        let n = named_ref(p);
        if p.len() == 0 || n.name.len() == 0 {
            prev
        } else {
            prev.push(
                EntityModel { category: cat, mode: mode, name: n.name, volume: n.volume, note: n.note },
            )
        }
    }
}

/// `,` and `，`
pub open spec fn payload_seps() -> Seq<char> {
    seq![',', '，']
}

/// What one (trimmed) line adds to a diff.
pub open spec fn apply_line(d: DiffModel, l: Seq<char>) -> DiffModel {
    if l.len() == 0 {
        d
    } else {
        match split_line(l) {
            None => d,
            Some((tag, rest)) => if tag == tag_thread() {
                match thread_split(rest) {
                    Some((name, status)) => DiffModel {
                        entities: d.entities,
                        threads: d.threads.push(thread_of(name, status)),
                    },
                    None => d,
                }
            } else {
                match (category_of(tag), promote_split(rest)) {
                    (Some(cat), Some((mode, payload))) => DiffModel {
                        entities: d.entities + entities_of(cat, mode, split_by(payload, payload_seps())),
                        threads: d.threads,
                    },
                    _ => d,
                }
            },
        }
    }
}

/// The diff that a sequence of lines gives, read in order.
pub open spec fn diff_of_lines(lines: Seq<Seq<char>>) -> DiffModel
    decreases lines.len(),
{
    if lines.len() == 0 {
        empty_diff()
    } else {
        apply_line(diff_of_lines(lines.drop_last()), trim(lines.last()))
    }
}

/// The inside of the first `<全局index更新>…</全局index更新>` block.
pub open spec fn diff_block(raw: Seq<char>) -> Option<Seq<char>> {
    match find_from(raw, block_open(), 0) {
        None => None,
        Some(i) => match find_from(raw, block_close(), i + block_open().len()) {
            None => None,
            Some(j) => Some(raw.subrange(i + block_open().len(), j)),
        },
    }
}

/// The diff that `raw` states: the lines of its block, or of all of `raw`
/// when it has no block.
pub open spec fn index_diff_of(raw: Seq<char>) -> DiffModel {
    let body = match diff_block(raw) {
        Some(b) => b,
        None => raw,
    };
    diff_of_lines(lines_of(body))
}

// ---------------------------------------------------------------------------
// Reading the grammar
// ---------------------------------------------------------------------------

/// `skip_ws(cs, i)` computed.
pub(crate) fn skip_ws_exec(cs: &Vec<char>, i: usize) -> (r: usize)
    requires
        i <= cs.len(),
    ensures
        r == skip_ws(cs@, i as int),
        i <= r <= cs.len(),
{
    skip_ws_forward(cs, i, cs.len())
}

pub(crate) fn is_ascii_digit_exec(c: char) -> (r: bool)
    ensures
        r == is_ascii_digit(c),
{
    '0' <= c && c <= '9'
}

/// The value of the digit run at `d`, when it fits in a `u32`.
pub(crate) fn digits_at(cs: &Vec<char>, d: usize) -> (r: Option<u32>)
    requires
        d <= cs.len(),
    ensures
        ({
            let v = digits_value(cs@.subrange(d as int, digit_run_end(cs@, d as int)));
            if v <= u32::MAX {
                r == Some(v as u32)
            } else {
                r is None
            }
        }),
{
    let mut v: u64 = 0;
    let mut over = false;
    let mut k = d;
    while k < cs.len() && is_ascii_digit_exec(cs[k])
        invariant
            d <= k <= cs.len(),
            digit_run_end(cs@, d as int) == digit_run_end(cs@, k as int),
            !over ==> v == digits_value(cs@.subrange(d as int, k as int)) && v <= u32::MAX,
            over ==> digits_value(cs@.subrange(d as int, k as int)) > u32::MAX,
        decreases cs.len() - k,
    {
        let c = cs[k];
        let dig: u64 = (c as u32 - 48) as u64;
        proof {
            assert(cs@.subrange(d as int, k + 1).drop_last() =~= cs@.subrange(d as int, k as int));
            assert(cs@.subrange(d as int, k + 1).last() == c);
        }
        if !over {
            let nv = v * 10 + dig;
            if nv > 0xFFFF_FFFF {
                over = true;
            } else {
                v = nv;
            }
        }
        k = k + 1;
    }
    if over {
        None
    } else {
        Some(v as u32)
    }
}

/// `volume_number(cs)` computed.
fn volume_number_exec(cs: &Vec<char>) -> (r: Option<u32>)
    ensures
        r == volume_number(cs@),
{
    let mut i: usize = 0;
    while i < cs.len()
        invariant
            i <= cs.len(),
            first_vol_mark(cs@, 0) == first_vol_mark(cs@, i as int),
        decreases cs.len() - i,
    {
        if cs[i] == '卷' {
            let d = skip_ws_exec(cs, i + 1);
            if d < cs.len() && is_ascii_digit_exec(cs[d]) {
                assert(vol_mark_at(cs@, i as int));
                return digits_at(cs, d);
            }
        }
        i = i + 1;
    }
    None
}

/// The number of the first `卷N` mark of `s`, when there is one and it fits
/// in a `u32` (`"卷12·身份揭晓"` gives 12).
pub fn extract_volume_number(s: &str) -> (r: Option<u32>)
    ensures
        r == volume_number(s@),
{
    let cs = chars_of(s);
    volume_number_exec(&cs)
}

fn first_index_of_exec(cs: &Vec<char>, c: char) -> (r: Option<usize>)
    ensures
        r matches Some(i) ==> first_index_of(cs@, c, 0) == Some(i as int) && i < cs.len(),
        r is None ==> first_index_of(cs@, c, 0) is None,
{
    let mut i: usize = 0;
    while i < cs.len()
        invariant
            i <= cs.len(),
            first_index_of(cs@, c, 0) == first_index_of(cs@, c, i as int),
        decreases cs.len() - i,
    {
        if cs[i] == c {
            return Some(i);
        }
        i = i + 1;
    }
    None
}

fn last_index_of_exec(cs: &Vec<char>, c: char) -> (r: Option<usize>)
    ensures
        r matches Some(i) ==> last_index_of(cs@, c, cs.len() as int) == Some(i as int) && i
            < cs.len(),
        r is None ==> last_index_of(cs@, c, cs.len() as int) is None,
{
    let mut j: usize = cs.len();
    while j > 0
        invariant
            j <= cs.len(),
            last_index_of(cs@, c, cs.len() as int) == last_index_of(cs@, c, j as int),
        decreases j,
    {
        if cs[j - 1] == c {
            return Some(j - 1);
        }
        j = j - 1;
    }
    None
}

/// The trimmed text of `cs[from..to]` as a vector.
pub(crate) fn trimmed(cs: &Vec<char>, from: usize, to: usize) -> (r: Vec<char>)
    requires
        from <= to <= cs.len(),
    ensures
        r@ == trim(cs@.subrange(from as int, to as int)),
{
    let (a, b) = trim_bounds(cs, from, to);
    sub_chars(cs, a, b)
}

/// The volume-free pieces of `pieces`, joined with `·`.
fn join_note_pieces(pieces: &Vec<Vec<char>>) -> (r: Vec<char>)
    ensures
        r@ == join_with(pieces_without_volume(views(pieces@)), seq!['·']),
{
    let mut acc: Vec<char> = Vec::new();
    let mut kept: usize = 0;
    let mut k: usize = 0;
    while k < pieces.len()
        invariant
            k <= pieces.len(),
            kept == pieces_without_volume(views(pieces@).take(k as int)).len(),
            kept <= k,
            acc@ == join_with(pieces_without_volume(views(pieces@).take(k as int)), seq!['·']),
        decreases pieces.len() - k,
    {
        let p = &pieces[k];
        let ghost prev = pieces_without_volume(views(pieces@).take(k as int));
        proof {
            assert(views(pieces@).take(k + 1).drop_last() =~= views(pieces@).take(k as int));
            assert(views(pieces@).take(k + 1).last() == p@);
        }
        if volume_number_exec(p).is_none() {
            if kept > 0 {
                acc.push('·');
            }
            let mut i: usize = 0;
            let ghost base = acc@;
            while i < p.len()
                invariant
                    i <= p.len(),
                    acc@ == base + p@.subrange(0, i as int),
                decreases p.len() - i,
            {
                acc.push(p[i]);
                i = i + 1;
                assert(acc@ =~= base + p@.subrange(0, i as int));
            }
            proof {
                assert(p@.subrange(0, p.len() as int) =~= p@);
                let next = prev.push(p@);
                assert(next.drop_last() =~= prev);
                if kept == 0 {
                    assert(join_with(prev, seq!['·']) =~= Seq::<char>::empty());
                    assert(acc@ =~= p@);
                } else {
                    assert(acc@ =~= join_with(prev, seq!['·']) + seq!['·'] + p@);
                }
            }
            kept = kept + 1;
        }
        k = k + 1;
    }
    proof {
        assert(views(pieces@).take(pieces.len() as int) =~= views(pieces@));
    }
    acc
}

/// `named_ref(cs)` computed.
fn named_ref_exec(input: &Vec<char>) -> (r: ParsedNamedRef)
    ensures
        r@ == named_ref(input@),
{
    let t = trimmed(input, 0, input.len());
    proof {
        assert(input@.subrange(0, input.len() as int) =~= input@);
    }
    let open = first_index_of_exec(&t, '(');
    let close = last_index_of_exec(&t, ')');
    match (open, close) {
        (Some(o), Some(c)) => {
            if c > o {
                let name = trimmed(&t, 0, o);
                let inside = sub_chars(&t, o + 1, c);
                let volume = volume_number_exec(&inside);
                let seps: Vec<char> = vec!['·'];
                let pieces = split_chars(&inside, &seps);
                assert(seps@ =~= seq!['·']);
                let joined = join_note_pieces(&pieces);
                let note = trimmed(&joined, 0, joined.len());
                proof {
                    assert(joined@.subrange(0, joined.len() as int) =~= joined@);
                }
                return ParsedNamedRef {
                    name: string_of(&name),
                    volume: volume,
                    note: string_of(&note),
                };
            }
        },
        _ => {},
    }
    ParsedNamedRef { name: string_of(&t), volume: None, note: String::new() }
}

/// `名字(卷6·备注)` taken apart into name, volume and note (see [`named_ref`]).
pub fn parse_named_with_paren(input: &str) -> (r: ParsedNamedRef)
    ensures
        r@ == named_ref(input@),
{
    let cs = chars_of(input);
    named_ref_exec(&cs)
}

/// `split_line(l)` computed.
fn split_line_exec(l: &Vec<char>) -> (r: Option<(Vec<char>, Vec<char>)>)
    ensures
        r matches Some((t, rest)) ==> split_line(l@) == Some((t@, rest@)),
        r is None ==> split_line(l@) is None,
{
    let a = skip_ws_exec(l, 0);
    if a < l.len() && l[a] == '[' {
        let first = a + 1;
        let mut k = first;
        while k < l.len() && k + 1 < l.len()
            invariant
                first <= k <= l.len(),
                first == a + 1,
                a < l.len(),
                a == skip_ws(l@, 0),
                l@[a as int] == '[',
                tag_close_from(l@, first as int, first as int) == tag_close_from(
                    l@,
                    first as int,
                    k as int,
                ),
            decreases l.len() - k,
        {
            if char_is_whitespace(l[k]) {
                assert(tag_close_from(l@, first as int, k as int) is None);
                return None;
            }
            if k > first && l[k] == ']' {
                let tag = sub_chars(l, first, k);
                let rest = trimmed(l, k + 1, l.len());
                return Some((tag, rest));
            }
            k = k + 1;
        }
        assert(tag_close_from(l@, first as int, k as int) is None);
        assert(split_line(l@) is None);
        None
    } else {
        None
    }
}

/// `promote_split(r)` computed.
fn promote_split_exec(r: &Vec<char>) -> (out: Option<(PromoteMode, Vec<char>)>)
    ensures
        out matches Some((m, p)) ==> promote_split(r@) == Some((m, p@)),
        out is None ==> promote_split(r@) is None,
{
    let a = skip_ws_exec(r, 0);
    let promote: Vec<char> = vec!['提', '升'];
    let local: Vec<char> = vec!['仅', '本', '卷'];
    assert(promote@ =~= kw_promote());
    assert(local@ =~= kw_local_only());
    let (mode, k) = if occurs_at_exec(r, &promote, a) {
        (PromoteMode::Promote, a + 2)
    } else if occurs_at_exec(r, &local, a) {
        (PromoteMode::LocalOnly, a + 3)
    } else {
        return None;
    };
    let j = skip_ws_exec(r, k);
    if j < r.len() && j + 1 < r.len() && (r[j] == ':' || r[j] == '：') {
        let payload = trimmed(r, j + 1, r.len());
        Some((mode, payload))
    } else {
        None
    }
}

/// `arrow_end(r, p)` computed.
fn arrow_end_exec(r: &Vec<char>, p: usize) -> (out: Option<usize>)
    ensures
        out matches Some(q) ==> arrow_end(r@, p as int) == Some(q as int),
        out is None ==> arrow_end(r@, p as int) is None,
{
    if p < r.len() && r[p] == '→' {
        Some(p + 1)
    } else if p < r.len() && p + 1 < r.len() && r[p] == '-' && r[p + 1] == '>' {
        Some(p + 2)
    } else {
        None
    }
}

/// `thread_split(r)` computed.
fn thread_split_exec(r: &Vec<char>) -> (out: Option<(Vec<char>, Vec<char>)>)
    ensures
        out matches Some((n, st)) ==> thread_split(r@) == Some((n@, st@)),
        out is None ==> thread_split(r@) is None,
{
    let a = skip_ws_exec(r, 0);
    if a >= r.len() {
        return None;
    }
    let mut e = a + 1;
    while e < r.len()
        invariant
            a < e,
            a <= r.len(),
            a == skip_ws(r@, 0),
            arrow_cut_from(r@, a + 1) == arrow_cut_from(r@, e as int),
        decreases r.len() - e,
    {
        let p = skip_ws_exec(r, e);
        match arrow_end_exec(r, p) {
            Some(q) => {
                if q < r.len() {
                    assert(arrow_cut_from(r@, e as int) == Some((e as int, q as int)));
                    let name = trimmed(r, a, e);
                    let status = trimmed(r, q, r.len());
                    return Some((name, status));
                }
            },
            None => {},
        }
        e = e + 1;
    }
    None
}

/// `category_of(tag)` computed.
fn category_of_exec(tag: &Vec<char>) -> (r: Option<EntityCategory>)
    ensures
        r == category_of(tag@),
{
    let c: Vec<char> = vec!['人', '物'];
    let i: Vec<char> = vec!['物', '品'];
    let l: Vec<char> = vec!['地', '点'];
    assert(c@ =~= tag_character());
    assert(i@ =~= tag_item());
    assert(l@ =~= tag_location());
    if chars_eq(tag, &c) {
        Some(EntityCategory::Character)
    } else if chars_eq(tag, &i) {
        Some(EntityCategory::Item)
    } else if chars_eq(tag, &l) {
        Some(EntityCategory::Location)
    } else {
        None
    }
}

impl EntityCategory {
    /// The category a tag names (`人物`, `物品`, `地点`).
    pub fn from_tag(tag: &str) -> (r: Option<EntityCategory>)
        ensures
            r == category_of(tag@),
    {
        let cs = chars_of(tag);
        category_of_exec(&cs)
    }

    /// The `##` title of the category's section in `index.md`.
    pub fn section_title(&self) -> (r: &'static str)
        ensures
            r@ == match *self {
                EntityCategory::Character => tag_character(),
                EntityCategory::Item => tag_item(),
                EntityCategory::Location => tag_location(),
            },
    {
        match self {
            EntityCategory::Character => {
                proof {
                    reveal_strlit("人物");
                }
                "人物"
            },
            EntityCategory::Item => {
                proof {
                    reveal_strlit("物品");
                }
                "物品"
            },
            EntityCategory::Location => {
                proof {
                    reveal_strlit("地点");
                }
                "地点"
            },
        }
    }
}

/// Whether `p` occurs in `cs`.
fn contains_exec(cs: &Vec<char>, p: &Vec<char>) -> (r: bool)
    ensures
        r == contains_seq(cs@, p@),
{
    find_from_exec(cs, p, 0).is_some()
}

/// `thread_of(name, status)` as a value.
fn thread_of_exec(name: Vec<char>, status: Vec<char>) -> (r: ThreadUpdate)
    ensures
        r@ == thread_of(name@, status@),
{
    let nb: Vec<char> = vec!['[', '新', '增'];
    let nd: Vec<char> = vec!['新', '增', '·'];
    let rs: Vec<char> = vec!['已', '解'];
    assert(nb@ =~= mark_new_bracket());
    assert(nd@ =~= mark_new_dot());
    assert(rs@ =~= mark_resolved());
    let st = if contains_exec(&status, &nb) || contains_exec(&status, &nd) {
        ThreadStatus::NewOpen
    } else if contains_exec(&status, &rs) {
        ThreadStatus::Resolved
    } else {
        ThreadStatus::Progressed
    };
    let volume = volume_number_exec(&status);
    ThreadUpdate { name: string_of(&name), volume: volume, status: st, note: string_of(&status) }
}

/// Pushes the entities named by `payload` onto `entities`.
fn push_entities(
    entities: &mut Vec<EntityEntry>,
    cat: EntityCategory,
    mode: PromoteMode,
    payload: &Vec<char>,
)
    ensures
        final(entities)@.map_values(|e: EntityEntry| e@) == old(entities)@.map_values(
            |e: EntityEntry| e@,
        ) + entities_of(cat, mode, split_by(payload@, payload_seps())),
{
    let seps: Vec<char> = vec![',', '，'];
    assert(seps@ =~= payload_seps());
    let pieces = split_chars(payload, &seps);
    let ghost ps = views(pieces@);
    let ghost base = old(entities)@.map_values(|e: EntityEntry| e@);
    let mut k: usize = 0;
    while k < pieces.len()
        invariant
            k <= pieces.len(),
            ps == views(pieces@),
            ps == split_by(payload@, payload_seps()),
            entities@.map_values(|e: EntityEntry| e@) == base + entities_of(cat, mode, ps.take(k as int)),
        decreases pieces.len() - k,
    {
        let ghost before = entities@.map_values(|e: EntityEntry| e@);
        proof {
            assert(ps.take(k + 1).drop_last() =~= ps.take(k as int));
            assert(ps.take(k + 1).last() == pieces[k as int]@);
        }
        let piece = &pieces[k];
        let p = trimmed(piece, 0, piece.len());
        proof {
            assert(piece@.subrange(0, piece.len() as int) =~= piece@);
        }
        if p.len() > 0 {
            let parsed = named_ref_exec(&p);
            if parsed.name.unicode_len() > 0 {
                let e = EntityEntry {
                    category: cat,
                    mode: mode,
                    name: parsed.name,
                    volume: parsed.volume,
                    note: parsed.note,
                };
                entities.push(e);
                proof {
                    assert(entities@.map_values(|e: EntityEntry| e@) =~= before.push(e@));
                    assert(base + entities_of(cat, mode, ps.take(k + 1)) =~= (base + entities_of(
                        cat,
                        mode,
                        ps.take(k as int),
                    )).push(e@));
                }
            } else {
                proof {
                    assert(entities_of(cat, mode, ps.take(k + 1)) == entities_of(
                        cat,
                        mode,
                        ps.take(k as int),
                    ));
                }
            }
        } else {
            proof {
                assert(entities_of(cat, mode, ps.take(k + 1)) == entities_of(
                    cat,
                    mode,
                    ps.take(k as int),
                ));
            }
        }
        k = k + 1;
    }
    proof {
        assert(ps.take(pieces.len() as int) =~= ps);
    }
}

/// Adds what the trimmed line `l` says to `d`.
fn apply_line_exec(d: &mut IndexDiff, l: &Vec<char>)
    ensures
        final(d)@ == apply_line(old(d)@, l@),
{
    if l.len() == 0 {
        return;
    }
    match split_line_exec(l) {
        None => {},
        Some((tag, rest)) => {
            let th: Vec<char> = vec!['线', '索'];
            assert(th@ =~= tag_thread());
            if chars_eq(&tag, &th) {
                match thread_split_exec(&rest) {
                    Some((name, status)) => {
                        let t = thread_of_exec(name, status);
                        let ghost before = d@;
                        d.threads.push(t);
                        assert(d@.threads =~= before.threads.push(t@));
                    },
                    None => {},
                }
            } else {
                match category_of_exec(&tag) {
                    Some(cat) => match promote_split_exec(&rest) {
                        Some((mode, payload)) => {
                            push_entities(&mut d.entities, cat, mode, &payload);
                        },
                        None => {},
                    },
                    None => {},
                }
            }
        },
    }
}

/// The `(start, end)` of the inside of the first diff block of `cs`.
fn diff_block_bounds(cs: &Vec<char>) -> (r: Option<(usize, usize)>)
    ensures
        r matches Some((a, b)) ==> a <= b <= cs.len() && diff_block(cs@) == Some(
            cs@.subrange(a as int, b as int),
        ),
        r is None ==> diff_block(cs@) is None,
{
    let open: Vec<char> = vec!['<', '全', '局', 'i', 'n', 'd', 'e', 'x', '更', '新', '>'];
    let close: Vec<char> = vec!['<', '/', '全', '局', 'i', 'n', 'd', 'e', 'x', '更', '新', '>'];
    assert(open@ =~= block_open());
    assert(close@ =~= block_close());
    match find_from_exec(cs, &open, 0) {
        None => None,
        Some(i) => {
            proof {
                lemma_find_from_bounds(cs@, open@, 0);
                assert(occurs_at(cs@, open@, i as int));
                assert(i + open@.len() <= cs@.len());
            }
            let n = cs.len();
            assert(i + open@.len() <= n);
            let a = i + open.len();
            match find_from_exec(cs, &close, a) {
                None => None,
                Some(j) => {
                    proof {
                        lemma_find_from_bounds(cs@, close@, a as int);
                    }
                    Some((a, j))
                },
            }
        },
    }
}

/// The inside of the first `<全局index更新>…</全局index更新>` block of `raw`.
pub fn extract_diff_block(raw: &str) -> (r: Option<String>)
    ensures
        r matches Some(b) ==> diff_block(raw@) == Some(b@),
        r is None ==> diff_block(raw@) is None,
{
    let cs = chars_of(raw);
    match diff_block_bounds(&cs) {
        Some((a, b)) => Some(crate::text::string_of_range(&cs, a, b)),
        None => None,
    }
}

/// Reads a `<全局index更新>` block (or, when `raw` holds none, all of `raw`)
/// into the entities and thread updates it names.
pub fn parse_index_diff(raw: &str) -> (r: IndexDiff)
    ensures
        r@ == index_diff_of(raw@),
{
    let cs = chars_of(raw);
    let body = match diff_block_bounds(&cs) {
        Some((a, b)) => sub_chars(&cs, a, b),
        None => sub_chars(&cs, 0, cs.len()),
    };
    proof {
        assert(cs@.subrange(0, cs.len() as int) =~= cs@);
    }
    let lines = split_lines(&body);
    let ghost ls = views(lines@);
    let mut diff = IndexDiff { entities: Vec::new(), threads: Vec::new() };
    proof {
        assert(diff@.entities =~= Seq::<EntityModel>::empty());
        assert(diff@.threads =~= Seq::<ThreadModel>::empty());
        assert(ls.take(0) =~= Seq::<Seq<char>>::empty());
    }
    let mut k: usize = 0;
    while k < lines.len()
        invariant
            k <= lines.len(),
            ls == views(lines@),
            ls == lines_of(body@),
            diff@ == diff_of_lines(ls.take(k as int)),
        decreases lines.len() - k,
    {
        let line = &lines[k];
        let l = trimmed(line, 0, line.len());
        proof {
            assert(line@.subrange(0, line.len() as int) =~= line@);
            assert(ls.take(k + 1).drop_last() =~= ls.take(k as int));
            assert(ls.take(k + 1).last() == line@);
        }
        apply_line_exec(&mut diff, &l);
        k = k + 1;
    }
    proof {
        assert(ls.take(lines.len() as int) =~= ls);
    }
    diff
}

// ---------------------------------------------------------------------------
// index.md sections
// ---------------------------------------------------------------------------

/// The entry lines of `index.md`, kept verbatim, by section.
#[derive(Debug, Clone)]
pub struct IndexSections {
    /// Lines under `## 人物`.
    pub characters: Vec<String>,
    /// Lines under `## 物品`.
    pub items: Vec<String>,
    /// Lines under `## 地点`.
    pub locations: Vec<String>,
    /// Lines under `## 悬挂线索`.
    pub threads: Vec<String>,
    /// Lines under `## [已归档]`.
    pub archived: Vec<String>,
}

pub struct SectionsModel {
    pub characters: Seq<Seq<char>>,
    pub items: Seq<Seq<char>>,
    pub locations: Seq<Seq<char>>,
    pub threads: Seq<Seq<char>>,
    pub archived: Seq<Seq<char>>,
}

impl View for IndexSections {
    type V = SectionsModel;

    open spec fn view(&self) -> SectionsModel {
        SectionsModel {
            characters: string_views(self.characters@),
            items: string_views(self.items@),
            locations: string_views(self.locations@),
            threads: string_views(self.threads@),
            archived: string_views(self.archived@),
        }
    }
}

pub open spec fn empty_sections() -> SectionsModel {
    SectionsModel {
        characters: Seq::empty(),
        items: Seq::empty(),
        locations: Seq::empty(),
        threads: Seq::empty(),
        archived: Seq::empty(),
    }
}

impl Default for IndexSections {
    fn default() -> (r: IndexSections)
        ensures
            r@ == empty_sections(),
    {
        let r = IndexSections {
            characters: Vec::new(),
            items: Vec::new(),
            locations: Vec::new(),
            threads: Vec::new(),
            archived: Vec::new(),
        };
        assert(r@.characters =~= Seq::<Seq<char>>::empty());
        assert(r@.items =~= Seq::<Seq<char>>::empty());
        assert(r@.locations =~= Seq::<Seq<char>>::empty());
        assert(r@.threads =~= Seq::<Seq<char>>::empty());
        assert(r@.archived =~= Seq::<Seq<char>>::empty());
        r
    }
}

/// The section a `##` heading opens.
#[derive(Debug, Clone, Copy, PartialEq, Eq)]
pub enum SectionKind {
    Characters,
    Items,
    Locations,
    Threads,
    Archived,
    Unknown,
}

/// `## `
pub open spec fn heading_prefix() -> Seq<char> {
    seq!['#', '#', ' ']
}

/// `- `
pub open spec fn item_prefix() -> Seq<char> {
    seq!['-', ' ']
}

pub open spec fn title_threads() -> Seq<char> {
    seq!['悬', '挂', '线', '索']
}

pub open spec fn title_archived() -> Seq<char> {
    seq!['[', '已', '归', '档', ']']
}

/// The section a (trimmed) heading title opens.
pub open spec fn heading_kind(title: Seq<char>) -> SectionKind {
    if title == tag_character() {
        SectionKind::Characters
    } else if title == tag_item() {
        SectionKind::Items
    } else if title == tag_location() {
        SectionKind::Locations
    } else if title == title_threads() {
        SectionKind::Threads
    } else if title == title_archived() {
        SectionKind::Archived
    } else {
        SectionKind::Unknown
    }
}

/// `m` with `line` added to the section `kind` (nothing for `Unknown`).
pub open spec fn add_to_section(m: SectionsModel, kind: SectionKind, line: Seq<char>) -> SectionsModel {
    match kind {
        SectionKind::Characters => SectionsModel { characters: m.characters.push(line), ..m },
        SectionKind::Items => SectionsModel { items: m.items.push(line), ..m },
        SectionKind::Locations => SectionsModel { locations: m.locations.push(line), ..m },
        SectionKind::Threads => SectionsModel { threads: m.threads.push(line), ..m },
        SectionKind::Archived => SectionsModel { archived: m.archived.push(line), ..m },
        SectionKind::Unknown => m,
    }
}

/// One line of `index.md` read: a `## ` heading switches the section; a
/// `- ` entry (after leading whitespace) is kept verbatim in the current
/// section; anything else is skipped.
pub open spec fn sections_step(st: (SectionsModel, SectionKind), line: Seq<char>) -> (
    SectionsModel,
    SectionKind,
) {
    let t = trim_start(line);
    if crate::text::starts_with(t, heading_prefix()) {
        (st.0, heading_kind(trim(t.subrange(3, t.len() as int))))
    } else if !crate::text::starts_with(t, item_prefix()) {
        st
    } else {
        (add_to_section(st.0, st.1, line), st.1)
    }
}

/// The state after reading `lines` from the state `st`.
pub open spec fn sections_fold(st: (SectionsModel, SectionKind), lines: Seq<Seq<char>>) -> (
    SectionsModel,
    SectionKind,
)
    decreases lines.len(),
{
    if lines.len() == 0 {
        st
    } else {
        sections_step(sections_fold(st, lines.drop_last()), lines.last())
    }
}

/// The sections (and the section last opened) after reading `lines`.
pub open spec fn sections_of_lines(lines: Seq<Seq<char>>) -> (SectionsModel, SectionKind) {
    sections_fold((empty_sections(), SectionKind::Unknown), lines)
}

/// The sections of the text of `index.md`.
pub open spec fn sections_of(md: Seq<char>) -> SectionsModel {
    sections_of_lines(lines_of(md)).0
}

fn heading_kind_exec(title: &Vec<char>) -> (r: SectionKind)
    ensures
        r == heading_kind(title@),
{
    let c: Vec<char> = vec!['人', '物'];
    let i: Vec<char> = vec!['物', '品'];
    let l: Vec<char> = vec!['地', '点'];
    let t: Vec<char> = vec!['悬', '挂', '线', '索'];
    let a: Vec<char> = vec!['[', '已', '归', '档', ']'];
    assert(c@ =~= tag_character());
    assert(i@ =~= tag_item());
    assert(l@ =~= tag_location());
    assert(t@ =~= title_threads());
    assert(a@ =~= title_archived());
    if chars_eq(title, &c) {
        SectionKind::Characters
    } else if chars_eq(title, &i) {
        SectionKind::Items
    } else if chars_eq(title, &l) {
        SectionKind::Locations
    } else if chars_eq(title, &t) {
        SectionKind::Threads
    } else if chars_eq(title, &a) {
        SectionKind::Archived
    } else {
        SectionKind::Unknown
    }
}

/// Splits the text of `index.md` into its sections, each entry line kept
/// verbatim (see [`sections_step`]).
pub fn parse_sections(md: &str) -> (r: IndexSections)
    ensures
        r@ == sections_of(md@),
{
    let cs = chars_of(md);
    let lines = split_lines(&cs);
    let ghost ls = views(lines@);
    let mut s = IndexSections::default();
    let mut current = SectionKind::Unknown;
    let hp: Vec<char> = vec!['#', '#', ' '];
    let ip: Vec<char> = vec!['-', ' '];
    assert(hp@ =~= heading_prefix());
    assert(ip@ =~= item_prefix());
    proof {
        assert(ls.take(0) =~= Seq::<Seq<char>>::empty());
    }
    let mut k: usize = 0;
    while k < lines.len()
        invariant
            k <= lines.len(),
            ls == views(lines@),
            ls == lines_of(cs@),
            cs@ == md@,
            hp@ == heading_prefix(),
            ip@ == item_prefix(),
            (s@, current) == sections_of_lines(ls.take(k as int)),
        decreases lines.len() - k,
    {
        let line = &lines[k];
        proof {
            assert(ls.take(k + 1).drop_last() =~= ls.take(k as int));
            assert(ls.take(k + 1).last() == line@);
        }
        let a = skip_ws_forward(line, 0, line.len());
        let t = sub_chars(line, a, line.len());
        proof {
            assert(line@.subrange(0, line.len() as int) =~= line@);
            assert(t@ =~= trim_start(line@));
        }
        if crate::text::starts_with_exec(&t, &hp) {
            let title = trimmed(&t, 3, t.len());
            current = heading_kind_exec(&title);
        } else if crate::text::starts_with_exec(&t, &ip) {
            let text = string_of(line);
            let ghost before = s@;
            match current {
                SectionKind::Characters => {
                    s.characters.push(text);
                },
                SectionKind::Items => {
                    s.items.push(text);
                },
                SectionKind::Locations => {
                    s.locations.push(text);
                },
                SectionKind::Threads => {
                    s.threads.push(text);
                },
                SectionKind::Archived => {
                    s.archived.push(text);
                },
                SectionKind::Unknown => {},
            }
            proof {
                assert(s@.characters =~= add_to_section(before, current, line@).characters);
                assert(s@.items =~= add_to_section(before, current, line@).items);
                assert(s@.locations =~= add_to_section(before, current, line@).locations);
                assert(s@.threads =~= add_to_section(before, current, line@).threads);
                assert(s@.archived =~= add_to_section(before, current, line@).archived);
            }
        }
        k = k + 1;
    }
    proof {
        assert(ls.take(lines.len() as int) =~= ls);
    }
    s
}

/// `# 全局索引` and a blank line.
pub open spec fn doc_title() -> Seq<char> {
    seq!['#', ' ', '全', '局', '索', '引', '\n', '\n']
}

/// `## title` and a line feed.
pub open spec fn heading_line(title: Seq<char>) -> Seq<char> {
    heading_prefix() + title + seq!['\n']
}

/// Each line followed by a line feed.
pub open spec fn block_of(lines: Seq<Seq<char>>) -> Seq<char>
    decreases lines.len(),
{
    if lines.len() == 0 {
        Seq::empty()
    } else {
        block_of(lines.drop_last()) + lines.last() + seq!['\n']
    }
}

/// The text of `index.md` for the sections `m`, in the order characters,
/// items, threads, places, archive.
pub open spec fn serialized(m: SectionsModel) -> Seq<char> {
    doc_title() + heading_line(tag_character()) + block_of(m.characters) + seq!['\n']
        + heading_line(tag_item()) + block_of(m.items) + seq!['\n'] + heading_line(
        title_threads(),
    ) + block_of(m.threads) + seq!['\n'] + heading_line(tag_location()) + block_of(m.locations)
        + seq!['\n'] + heading_line(title_archived()) + block_of(m.archived)
}

/// Appends `cs` to `out`.
fn push_vec(out: &mut String, cs: Vec<char>)
    ensures
        final(out)@ == old(out)@ + cs@,
{
    push_chars(out, &cs);
}

/// Appends each line of `lines` with a line feed to `out`.
fn push_block(out: &mut String, lines: &Vec<String>)
    ensures
        final(out)@ == old(out)@ + block_of(string_views(lines@)),
{
    let ghost base = out@;
    let ghost ls = string_views(lines@);
    let mut k: usize = 0;
    proof {
        assert(ls.take(0) =~= Seq::<Seq<char>>::empty());
        assert(base + block_of(ls.take(0)) =~= base);
    }
    while k < lines.len()
        invariant
            k <= lines.len(),
            ls == string_views(lines@),
            out@ == base + block_of(ls.take(k as int)),
        decreases lines.len() - k,
    {
        proof {
            assert(ls.take(k + 1).drop_last() =~= ls.take(k as int));
            assert(ls.take(k + 1).last() == lines[k as int]@);
        }
        push_str(out, lines[k].as_str());
        push_char(out, '\n');
        proof {
            assert(out@ =~= base + block_of(ls.take(k + 1)));
        }
        k = k + 1;
    }
    proof {
        assert(ls.take(lines.len() as int) =~= ls);
    }
}

/// Writes the sections back as the text of `index.md` (see [`serialized`]).
pub fn serialize_sections(s: &IndexSections) -> (r: String)
    ensures
        r@ == serialized(s@),
{
    let mut out = String::new();
    push_vec(&mut out, vec!['#', ' ', '全', '局', '索', '引', '\n', '\n']);
    push_vec(&mut out, vec!['#', '#', ' ', '人', '物', '\n']);
    push_block(&mut out, &s.characters);
    push_char(&mut out, '\n');
    push_vec(&mut out, vec!['#', '#', ' ', '物', '品', '\n']);
    push_block(&mut out, &s.items);
    push_char(&mut out, '\n');
    push_vec(&mut out, vec!['#', '#', ' ', '悬', '挂', '线', '索', '\n']);
    push_block(&mut out, &s.threads);
    push_char(&mut out, '\n');
    push_vec(&mut out, vec!['#', '#', ' ', '地', '点', '\n']);
    push_block(&mut out, &s.locations);
    push_char(&mut out, '\n');
    push_vec(&mut out, vec!['#', '#', ' ', '[', '已', '归', '档', ']', '\n']);
    push_block(&mut out, &s.archived);
    proof {
        assert(doc_title() =~= seq!['#', ' ', '全', '局', '索', '引', '\n', '\n']);
        assert(heading_line(tag_character()) =~= seq!['#', '#', ' ', '人', '物', '\n']);
        assert(heading_line(tag_item()) =~= seq!['#', '#', ' ', '物', '品', '\n']);
        assert(heading_line(title_threads()) =~= seq!['#', '#', ' ', '悬', '挂', '线', '索', '\n']);
        assert(heading_line(tag_location()) =~= seq!['#', '#', ' ', '地', '点', '\n']);
        assert(heading_line(title_archived()) =~= seq![
            '#',
            '#',
            ' ',
            '[',
            '已',
            '归',
            '档',
            ']',
            '\n',
        ]);
        assert(out@ =~= serialized(s@));
    }
    out
}

/// The line is the entry for `name`: after leading whitespace it starts
/// with `- name:` or is exactly `- name`.
pub open spec fn is_entry_for(line: Seq<char>, name: Seq<char>) -> bool {
    let l = trim_start(line);
    crate::text::starts_with(l, item_prefix() + name + seq![':']) || l == item_prefix() + name
}

/// The first line from `i` on that is the entry for `name`.
pub open spec fn find_entry(lines: Seq<Seq<char>>, name: Seq<char>, i: int) -> Option<int>
    decreases lines.len() - i,
{
    if i < 0 || i >= lines.len() {
        None
    } else if is_entry_for(lines[i], name) {
        Some(i)
    } else {
        find_entry(lines, name, i + 1)
    }
}

pub proof fn lemma_find_entry(lines: Seq<Seq<char>>, name: Seq<char>, i: int)
    requires
        0 <= i,
    ensures
        find_entry(lines, name, i) matches Some(j) ==> i <= j < lines.len() && is_entry_for(
            lines[j],
            name,
        ),
    decreases lines.len() - i,
{
    if i < lines.len() && !is_entry_for(lines[i], name) {
        lemma_find_entry(lines, name, i + 1);
    }
}

/// Whether `line` is the entry for `name`.
fn is_entry_for_exec(line: &str, name: &Vec<char>) -> (r: bool)
    ensures
        r == is_entry_for(line@, name@),
{
    let cs = chars_of(line);
    let a = skip_ws_forward(&cs, 0, cs.len());
    let l = sub_chars(&cs, a, cs.len());
    proof {
        assert(cs@.subrange(0, cs.len() as int) =~= cs@);
        assert(l@ =~= trim_start(line@));
    }
    let mut p: Vec<char> = vec!['-', ' '];
    let mut i: usize = 0;
    while i < name.len()
        invariant
            i <= name.len(),
            p@ == item_prefix() + name@.subrange(0, i as int),
        decreases name.len() - i,
    {
        p.push(name[i]);
        i = i + 1;
        assert(p@ =~= item_prefix() + name@.subrange(0, i as int));
    }
    proof {
        assert(name@.subrange(0, name.len() as int) =~= name@);
    }
    let exact = chars_eq(&l, &p);
    p.push(':');
    assert(p@ =~= item_prefix() + name@ + seq![':']);
    let prefixed = crate::text::starts_with_exec(&l, &p);
    prefixed || exact
}

/// The index of the first line of `lines` that is the entry for `name`
/// (see [`is_entry_for`]).
pub fn find_entity_line(lines: &Vec<String>, name: &str) -> (r: Option<usize>)
    ensures
        r matches Some(i) ==> find_entry(string_views(lines@), name@, 0) == Some(i as int),
        r is None ==> find_entry(string_views(lines@), name@, 0) is None,
{
    let nm = chars_of(name);
    let ghost ls = string_views(lines@);
    let mut i: usize = 0;
    while i < lines.len()
        invariant
            i <= lines.len(),
            ls == string_views(lines@),
            nm@ == name@,
            find_entry(ls, name@, 0) == find_entry(ls, name@, i as int),
        decreases lines.len() - i,
    {
        if is_entry_for_exec(lines[i].as_str(), &nm) {
            return Some(i);
        }
        i = i + 1;
    }
    None
}

/// `line` with `piece` added: after a trailing colon with a space, else
/// after a comma; the line's trailing whitespace is dropped first.
pub open spec fn appended(line: Seq<char>, piece: Seq<char>) -> Seq<char> {
    if piece.len() == 0 {
        line
    } else {
        let t = trim_end(line);
        if t.len() > 0 && (t.last() == ':' || t.last() == '：') {
            t + seq![' '] + piece
        } else {
            t + seq![',', ' '] + piece
        }
    }
}

/// Adds a volume piece to an entry line (see [`appended`]): `- 艾莉娅: 卷2`
/// with `卷6(身份揭晓)` gives `- 艾莉娅: 卷2, 卷6(身份揭晓)`.
pub fn append_volume_to_line(line: &str, new_piece: &str) -> (r: String)
    ensures
        r@ == appended(line@, new_piece@),
{
    let pc = chars_of(new_piece);
    let cs = chars_of(line);
    if pc.len() == 0 {
        return string_of(&cs);
    }
    let b = crate::text::skip_ws_backward(&cs, 0, cs.len());
    let mut out = crate::text::string_of_range(&cs, 0, b);
    proof {
        assert(cs@.subrange(0, cs.len() as int) =~= cs@);
        assert(out@ =~= trim_end(line@));
    }
    if b > 0 && (cs[b - 1] == ':' || cs[b - 1] == '：') {
        push_char(&mut out, ' ');
    } else {
        push_char(&mut out, ',');
        push_char(&mut out, ' ');
    }
    push_chars(&mut out, &pc);
    out
}

// ---------------------------------------------------------------------------
// Merging a diff into index.md
// ---------------------------------------------------------------------------

/// `卷N`, with `(note)` when the note is not empty.
pub open spec fn volume_piece(v: u32, note: Seq<char>) -> Seq<char> {
    if note.len() == 0 {
        seq!['卷'] + decimal(v as nat)
    } else {
        seq!['卷'] + decimal(v as nat) + seq!['('] + note + seq![')']
    }
}

/// A fresh entry line `- name: piece`.
pub open spec fn entry_line(name: Seq<char>, piece: Seq<char>) -> Seq<char> {
    item_prefix() + name + seq![':', ' '] + piece
}

/// `lines` with `piece` added to the entry for `name`, or with a fresh entry
/// line for it at the end.
pub open spec fn upsert(lines: Seq<Seq<char>>, name: Seq<char>, piece: Seq<char>) -> Seq<Seq<char>> {
    match find_entry(lines, name, 0) {
        Some(i) => lines.update(i, appended(lines[i], piece)),
        None => lines.push(entry_line(name, piece)),
    }
}

/// What one entity does to the sections: only promoted entities that name a
/// volume are recorded, in the section of their category.
pub open spec fn apply_entity(m: SectionsModel, e: EntityModel) -> SectionsModel {
    match (e.mode, e.volume) {
        (PromoteMode::Promote, Some(v)) => {
            let piece = volume_piece(v, e.note);
            match e.category {
                EntityCategory::Character => SectionsModel {
                    characters: upsert(m.characters, e.name, piece),
                    ..m
                },
                EntityCategory::Item => SectionsModel { items: upsert(m.items, e.name, piece), ..m },
                EntityCategory::Location => SectionsModel {
                    locations: upsert(m.locations, e.name, piece),
                    ..m
                },
            }
        },
        _ => m,
    }
}

/// `s` without any `卷`.
pub open spec fn without_vol_char(s: Seq<char>) -> Seq<char>
    decreases s.len(),
{
    if s.len() == 0 {
        Seq::empty()
    } else if s.last() == '卷' {
        without_vol_char(s.drop_last())
    } else {
        without_vol_char(s.drop_last()).push(s.last())
    }
}

/// The line a new open thread gets.
pub open spec fn new_thread_line(name: Seq<char>, volume: Option<u32>) -> Seq<char> {
    match volume {
        Some(v) => item_prefix() + name + seq![':', ' ', '卷'] + decimal(v as nat) + seq![
            '(',
            '提',
            '出',
            ')',
            ' ',
            '→',
            ' ',
            '[',
            '未',
            '解',
            ']',
        ],
        None => item_prefix() + name + seq![':', ' ', '[', '新', '增', '·', '未', '解', ']'],
    }
}

/// The piece a progressed thread gets.
pub open spec fn progress_piece(volume: Option<u32>, note: Seq<char>) -> Seq<char> {
    match volume {
        Some(v) => seq!['卷'] + decimal(v as nat) + seq!['('] + without_vol_char(note) + seq![')'],
        None => note,
    }
}

/// The piece a resolved thread gets.
pub open spec fn resolved_piece(volume: Option<u32>) -> Seq<char> {
    match volume {
        Some(v) => seq!['卷'] + decimal(v as nat) + seq!['(', '已', '解', ')'],
        None => seq!['(', '已', '解', ')'],
    }
}

/// What one thread update does to the sections: a new thread is added once;
/// a progressed one gets its piece; a resolved one leaves the threads and is
/// archived with its piece.
pub open spec fn apply_thread(m: SectionsModel, t: ThreadModel) -> SectionsModel {
    match t.status {
        ThreadStatus::NewOpen => if find_entry(m.threads, t.name, 0) is Some {
            m
        } else {
            SectionsModel { threads: m.threads.push(new_thread_line(t.name, t.volume)), ..m }
        },
        ThreadStatus::Progressed => SectionsModel {
            threads: upsert(m.threads, t.name, progress_piece(t.volume, t.note)),
            ..m
        },
        ThreadStatus::Resolved => {
            let piece = resolved_piece(t.volume);
            match find_entry(m.threads, t.name, 0) {
                Some(i) => SectionsModel {
                    threads: m.threads.remove(i),
                    archived: m.archived.push(appended(m.threads[i], piece)),
                    ..m
                },
                None => SectionsModel {
                    archived: m.archived.push(entry_line(t.name, piece)),
                    ..m
                },
            }
        },
    }
}

pub open spec fn apply_entities(m: SectionsModel, es: Seq<EntityModel>) -> SectionsModel
    decreases es.len(),
{
    if es.len() == 0 {
        m
    } else {
        apply_entity(apply_entities(m, es.drop_last()), es.last())
    }
}

pub open spec fn apply_threads(m: SectionsModel, ts: Seq<ThreadModel>) -> SectionsModel
    decreases ts.len(),
{
    if ts.len() == 0 {
        m
    } else {
        apply_thread(apply_threads(m, ts.drop_last()), ts.last())
    }
}

/// The sections after a diff: its entities in order, then its threads.
pub open spec fn merged(m: SectionsModel, d: DiffModel) -> SectionsModel {
    apply_threads(apply_entities(m, d.entities), d.threads)
}

/// `lines` with `piece` added to the entry for `name` (see [`upsert`]).
fn upsert_exec(lines: &mut Vec<String>, name: &String, piece: &String)
    ensures
        string_views(final(lines)@) == upsert(string_views(old(lines)@), name@, piece@),
{
    let ghost before = string_views(lines@);
    match find_entity_line(lines, name.as_str()) {
        Some(i) => {
            proof {
                lemma_find_entry(before, name@, 0);
            }
            let merged = append_volume_to_line(lines[i].as_str(), piece.as_str());
            lines[i] = merged;
            assert(string_views(lines@) =~= before.update(i as int, appended(before[i as int], piece@)));
        },
        None => {
            let mut l = String::new();
            push_char(&mut l, '-');
            push_char(&mut l, ' ');
            push_str(&mut l, name.as_str());
            push_char(&mut l, ':');
            push_char(&mut l, ' ');
            push_str(&mut l, piece.as_str());
            assert(l@ =~= entry_line(name@, piece@));
            lines.push(l);
            assert(string_views(lines@) =~= before.push(entry_line(name@, piece@)));
        },
    }
}

/// `卷N` or `卷N(note)`.
fn volume_piece_exec(v: u32, note: &String) -> (r: String)
    ensures
        r@ == volume_piece(v, note@),
{
    let mut p = String::new();
    push_char(&mut p, '卷');
    push_decimal(&mut p, v as u64);
    if note.unicode_len() > 0 {
        push_char(&mut p, '(');
        push_str(&mut p, note.as_str());
        push_char(&mut p, ')');
    }
    p
}

/// Records one entity in the sections (see [`apply_entity`]).
fn apply_entity_exec(s: &mut IndexSections, e: &EntityEntry)
    ensures
        final(s)@ == apply_entity(old(s)@, e@),
{
    match (e.mode, e.volume) {
        (PromoteMode::Promote, Some(v)) => {
            let piece = volume_piece_exec(v, &e.note);
            match e.category {
                EntityCategory::Character => upsert_exec(&mut s.characters, &e.name, &piece),
                EntityCategory::Item => upsert_exec(&mut s.items, &e.name, &piece),
                EntityCategory::Location => upsert_exec(&mut s.locations, &e.name, &piece),
            }
        },
        _ => {},
    }
}

/// `s` with every `卷` removed.
fn without_vol_char_exec(s: &String) -> (r: String)
    ensures
        r@ == without_vol_char(s@),
{
    let cs = chars_of(s.as_str());
    let mut out = String::new();
    let mut i: usize = 0;
    while i < cs.len()
        invariant
            i <= cs.len(),
            cs@ == s@,
            out@ == without_vol_char(cs@.subrange(0, i as int)),
        decreases cs.len() - i,
    {
        proof {
            assert(cs@.subrange(0, i + 1).drop_last() =~= cs@.subrange(0, i as int));
        }
        if cs[i] != '卷' {
            push_char(&mut out, cs[i]);
        }
        i = i + 1;
    }
    proof {
        assert(cs@.subrange(0, cs.len() as int) =~= cs@);
    }
    out
}

/// Applies one thread update to the sections (see [`apply_thread`]).
fn apply_thread_exec(s: &mut IndexSections, t: &ThreadUpdate)
    ensures
        final(s)@ == apply_thread(old(s)@, t@),
{
    let ghost m = s@;
    match t.status {
        ThreadStatus::NewOpen => {
            if find_entity_line(&s.threads, t.name.as_str()).is_some() {
                return;
            }
            let mut l = String::new();
            push_char(&mut l, '-');
            push_char(&mut l, ' ');
            push_str(&mut l, t.name.as_str());
            push_char(&mut l, ':');
            push_char(&mut l, ' ');
            match t.volume {
                Some(v) => {
                    push_char(&mut l, '卷');
                    push_decimal(&mut l, v as u64);
                    push_vec(&mut l, vec!['(', '提', '出', ')', ' ', '→', ' ', '[', '未', '解', ']']);
                },
                None => {
                    push_vec(&mut l, vec!['[', '新', '增', '·', '未', '解', ']']);
                },
            }
            assert(l@ =~= new_thread_line(t.name@, t.volume));
            s.threads.push(l);
            assert(s@.threads =~= m.threads.push(new_thread_line(t.name@, t.volume)));
        },
        ThreadStatus::Progressed => {
            let piece = match t.volume {
                Some(v) => {
                    let mut p = String::new();
                    push_char(&mut p, '卷');
                    push_decimal(&mut p, v as u64);
                    push_char(&mut p, '(');
                    let stripped = without_vol_char_exec(&t.note);
                    push_str(&mut p, stripped.as_str());
                    push_char(&mut p, ')');
                    p
                },
                None => string_of(&chars_of(t.note.as_str())),
            };
            assert(piece@ =~= progress_piece(t.volume, t.note@));
            upsert_exec(&mut s.threads, &t.name, &piece);
        },
        ThreadStatus::Resolved => {
            let mut piece = String::new();
            match t.volume {
                Some(v) => {
                    push_char(&mut piece, '卷');
                    push_decimal(&mut piece, v as u64);
                },
                None => {},
            }
            push_vec(&mut piece, vec!['(', '已', '解', ')']);
            assert(piece@ =~= resolved_piece(t.volume));
            match find_entity_line(&s.threads, t.name.as_str()) {
                Some(i) => {
                    proof {
                        lemma_find_entry(m.threads, t.name@, 0);
                    }
                    let merged = append_volume_to_line(s.threads[i].as_str(), piece.as_str());
                    let _removed = s.threads.remove(i);
                    s.archived.push(merged);
                    assert(s@.threads =~= m.threads.remove(i as int));
                    assert(s@.archived =~= m.archived.push(appended(m.threads[i as int], piece@)));
                },
                None => {
                    let mut l = String::new();
                    push_char(&mut l, '-');
                    push_char(&mut l, ' ');
                    push_str(&mut l, t.name.as_str());
                    push_char(&mut l, ':');
                    push_char(&mut l, ' ');
                    push_str(&mut l, piece.as_str());
                    assert(l@ =~= entry_line(t.name@, piece@));
                    s.archived.push(l);
                    assert(s@.archived =~= m.archived.push(entry_line(t.name@, piece@)));
                },
            }
        },
    }
}

/// Merges `diff` into the text of `index.md` and returns the new text:
/// promoted entities with a volume are added to (or appended on) their
/// entry, `仅本卷` entities are left out, new threads are added once,
/// progressed threads get their piece and resolved ones move to the archive.
pub fn apply_diff(index_md: &str, diff: &IndexDiff) -> (r: String)
    ensures
        r@ == serialized(merged(sections_of(index_md@), diff@)),
{
    let mut sections = parse_sections(index_md);
    let ghost m0 = sections@;
    let ghost es = diff@.entities;
    let ghost ts = diff@.threads;
    let mut k: usize = 0;
    proof {
        assert(es.take(0) =~= Seq::<EntityModel>::empty());
    }
    while k < diff.entities.len()
        invariant
            k <= diff.entities.len(),
            es == diff@.entities,
            sections@ == apply_entities(m0, es.take(k as int)),
        decreases diff.entities.len() - k,
    {
        proof {
            assert(es.take(k + 1).drop_last() =~= es.take(k as int));
            assert(es.take(k + 1).last() == diff.entities[k as int]@);
        }
        apply_entity_exec(&mut sections, &diff.entities[k]);
        k = k + 1;
    }
    proof {
        assert(es.take(diff.entities.len() as int) =~= es);
        assert(ts.take(0) =~= Seq::<ThreadModel>::empty());
    }
    let ghost m1 = sections@;
    let mut k: usize = 0;
    while k < diff.threads.len()
        invariant
            k <= diff.threads.len(),
            ts == diff@.threads,
            sections@ == apply_threads(m1, ts.take(k as int)),
        decreases diff.threads.len() - k,
    {
        proof {
            assert(ts.take(k + 1).drop_last() =~= ts.take(k as int));
            assert(ts.take(k + 1).last() == diff.threads[k as int]@);
        }
        apply_thread_exec(&mut sections, &diff.threads[k]);
        k = k + 1;
    }
    proof {
        assert(ts.take(diff.threads.len() as int) =~= ts);
    }
    serialize_sections(&sections)
}

// ---------------------------------------------------------------------------
// Laws
// ---------------------------------------------------------------------------

/// The entities that are promoted, in order.
pub open spec fn promoted_only(es: Seq<EntityModel>) -> Seq<EntityModel>
    decreases es.len(),
{
    if es.len() == 0 {
        Seq::empty()
    } else if es.last().mode == PromoteMode::Promote {
        promoted_only(es.drop_last()).push(es.last())
    } else {
        promoted_only(es.drop_last())
    }
}

proof fn lemma_apply_entities_promoted(m: SectionsModel, es: Seq<EntityModel>)
    ensures
        apply_entities(m, es) == apply_entities(m, promoted_only(es)),
    decreases es.len(),
{
    if es.len() > 0 {
        lemma_apply_entities_promoted(m, es.drop_last());
        if es.last().mode == PromoteMode::Promote {
            let p = promoted_only(es.drop_last()).push(es.last());
            assert(p.drop_last() =~= promoted_only(es.drop_last()));
        }
    }
}

/// Entities kept for their volume only (`仅本卷`) never reach the global
/// index: merging a diff gives the same sections as merging it without them.
pub proof fn lemma_local_only_not_promoted(m: SectionsModel, d: DiffModel)
    ensures
        merged(m, d) == merged(
            m,
            DiffModel { entities: promoted_only(d.entities), threads: d.threads },
        ),
{
    lemma_apply_entities_promoted(m, d.entities);
}

/// The entities that are promoted and name their volume, in order.
pub open spec fn promoted_with_volume(es: Seq<EntityModel>) -> Seq<EntityModel>
    decreases es.len(),
{
    if es.len() == 0 {
        Seq::empty()
    } else if es.last().mode == PromoteMode::Promote && es.last().volume is Some {
        promoted_with_volume(es.drop_last()).push(es.last())
    } else {
        promoted_with_volume(es.drop_last())
    }
}

proof fn lemma_apply_entities_with_volume(m: SectionsModel, es: Seq<EntityModel>)
    ensures
        apply_entities(m, es) == apply_entities(m, promoted_with_volume(es)),
    decreases es.len(),
{
    if es.len() > 0 {
        lemma_apply_entities_with_volume(m, es.drop_last());
        if es.last().mode == PromoteMode::Promote && es.last().volume is Some {
            let p = promoted_with_volume(es.drop_last()).push(es.last());
            assert(p.drop_last() =~= promoted_with_volume(es.drop_last()));
        }
    }
}

/// Only the entities that are promoted and name a volume change the index:
/// merging a diff gives the same sections as merging it with the others
/// (kept for their volume only, or promoted without a volume) left out.
pub proof fn lemma_only_promoted_with_volume_count(m: SectionsModel, d: DiffModel)
    ensures
        merged(m, d) == merged(
            m,
            DiffModel { entities: promoted_with_volume(d.entities), threads: d.threads },
        ),
{
    lemma_apply_entities_with_volume(m, d.entities);
}

/// Resolving a thread moves its entry from the threads to the archive: the
/// first thread line that is its entry leaves the threads and comes back at
/// the end of the archive with the resolution added (or, without such a line,
/// a fresh archive line for the thread is added); the other sections stay as
/// they were. When the result is well formed, reading the merged `index.md`
/// back gives exactly these sections.
pub proof fn lemma_resolving_archives_thread(m: SectionsModel, t: ThreadModel)
    requires
        t.status == ThreadStatus::Resolved,
    ensures
        ({
            let r = merged(m, DiffModel { entities: Seq::empty(), threads: seq![t] });
            &&& r.characters == m.characters
            &&& r.items == m.items
            &&& r.locations == m.locations
            &&& match find_entry(m.threads, t.name, 0) {
                Some(i) => {
                    &&& 0 <= i < m.threads.len()
                    &&& is_entry_for(m.threads[i], t.name)
                    &&& forall|j: int| 0 <= j < i ==> !is_entry_for(#[trigger] m.threads[j], t.name)
                    &&& r.threads == m.threads.remove(i)
                    &&& r.archived == m.archived.push(appended(m.threads[i], resolved_piece(t.volume)))
                },
                None => {
                    &&& forall|j: int| 0 <= j < m.threads.len() ==> !is_entry_for(#[trigger] m.threads[j], t.name)
                    &&& r.threads == m.threads
                    &&& r.archived == m.archived.push(entry_line(t.name, resolved_piece(t.volume)))
                },
            }
            &&& (well_formed_sections(r) ==> sections_of(serialized(r)) == r)
        }),
{
    let d = DiffModel { entities: Seq::<EntityModel>::empty(), threads: seq![t] };
    let r = merged(m, d);
    assert(apply_entities(m, d.entities) == m);
    assert(d.threads.drop_last() =~= Seq::<ThreadModel>::empty());
    assert(apply_threads(m, d.threads.drop_last()) == m);
    assert(r == apply_thread(m, t));
    lemma_find_entry(m.threads, t.name, 0);
    lemma_find_entry_none(m.threads, t.name, 0);
    if well_formed_sections(r) {
        lemma_sections_round_trip(r);
    }
}

proof fn lemma_find_entry_none(lines: Seq<Seq<char>>, name: Seq<char>, i: int)
    requires
        0 <= i,
    ensures
        find_entry(lines, name, i) is None ==> forall|j: int| i <= j < lines.len() ==> !is_entry_for(#[trigger] lines[j], name),
        find_entry(lines, name, i) matches Some(k) ==> forall|j: int| i <= j < k ==> !is_entry_for(#[trigger] lines[j], name),
    decreases lines.len() - i,
{
    if i < lines.len() && !is_entry_for(lines[i], name) {
        lemma_find_entry_none(lines, name, i + 1);
    }
}

/// A line that a section of `index.md` can hold and give back unchanged: a
/// single line (no line feed, no trailing carriage return) that starts with
/// `- ` after its leading whitespace.
pub open spec fn is_entry_text(l: Seq<char>) -> bool {
    &&& !l.contains('\n')
    &&& !(l.len() > 0 && l.last() == '\r')
    &&& crate::text::starts_with(trim_start(l), item_prefix())
}

pub open spec fn all_entries(ls: Seq<Seq<char>>) -> bool {
    forall|i: int| 0 <= i < ls.len() ==> is_entry_text(#[trigger] ls[i])
}

/// Every line of every section is an entry line.
pub open spec fn well_formed_sections(m: SectionsModel) -> bool {
    &&& all_entries(m.characters)
    &&& all_entries(m.items)
    &&& all_entries(m.locations)
    &&& all_entries(m.threads)
    &&& all_entries(m.archived)
}

/// `m` with `ls` added at the end of the section `kind`.
pub open spec fn add_all(m: SectionsModel, kind: SectionKind, ls: Seq<Seq<char>>) -> SectionsModel {
    match kind {
        SectionKind::Characters => SectionsModel { characters: m.characters + ls, ..m },
        SectionKind::Items => SectionsModel { items: m.items + ls, ..m },
        SectionKind::Locations => SectionsModel { locations: m.locations + ls, ..m },
        SectionKind::Threads => SectionsModel { threads: m.threads + ls, ..m },
        SectionKind::Archived => SectionsModel { archived: m.archived + ls, ..m },
        SectionKind::Unknown => m,
    }
}

proof fn lemma_fold_concat(
    st: (SectionsModel, SectionKind),
    xs: Seq<Seq<char>>,
    ys: Seq<Seq<char>>,
)
    ensures
        sections_fold(st, xs + ys) == sections_fold(sections_fold(st, xs), ys),
    decreases ys.len(),
{
    if ys.len() == 0 {
        assert(xs + ys =~= xs);
    } else {
        lemma_fold_concat(st, xs, ys.drop_last());
        assert((xs + ys).drop_last() =~= xs + ys.drop_last());
        assert((xs + ys).last() == ys.last());
    }
}

proof fn lemma_fold_entries(m: SectionsModel, kind: SectionKind, ls: Seq<Seq<char>>)
    requires
        all_entries(ls),
    ensures
        sections_fold((m, kind), ls) == (add_all(m, kind, ls), kind),
    decreases ls.len(),
{
    if ls.len() == 0 {
        assert(m.characters + ls =~= m.characters);
        assert(m.items + ls =~= m.items);
        assert(m.locations + ls =~= m.locations);
        assert(m.threads + ls =~= m.threads);
        assert(m.archived + ls =~= m.archived);
    } else {
        let init = ls.drop_last();
        assert forall|i: int| 0 <= i < init.len() implies is_entry_text(#[trigger] init[i]) by {
            assert(init[i] == ls[i]);
        }
        lemma_fold_entries(m, kind, init);
        let l = ls.last();
        assert(is_entry_text(ls[ls.len() - 1]));
        let t = trim_start(l);
        assert(t[0] == '-');
        assert(!crate::text::starts_with(t, heading_prefix())) by {
            if crate::text::starts_with(t, heading_prefix()) {
                assert(t.subrange(0, 3)[0] == '#');
            }
        }
        assert(m.characters + init.push(l) =~= (m.characters + init).push(l));
        assert(m.items + init.push(l) =~= (m.items + init).push(l));
        assert(m.locations + init.push(l) =~= (m.locations + init).push(l));
        assert(m.threads + init.push(l) =~= (m.threads + init).push(l));
        assert(m.archived + init.push(l) =~= (m.archived + init).push(l));
        assert(init.push(l) =~= ls);
    }
}

/// A title that trims to itself: its ends are not whitespace.
pub open spec fn plain_title(t: Seq<char>) -> bool {
    t.len() > 0 && !is_white_space(t[0]) && !is_white_space(t.last())
}

proof fn lemma_heading_step(st: (SectionsModel, SectionKind), title: Seq<char>)
    requires
        plain_title(title),
    ensures
        sections_step(st, heading_prefix() + title) == (st.0, heading_kind(title)),
{
    let h = heading_prefix() + title;
    assert(lead_ws(h) == 0);
    assert(trim_start(h) =~= h);
    assert(h.subrange(0, 3) =~= heading_prefix());
    assert(h.subrange(3, h.len() as int) =~= title);
    assert(lead_ws(title) == 0);
    assert(crate::text::trail_ws(title) == 0);
    assert(trim(title) =~= title);
}

proof fn lemma_skip_step(st: (SectionsModel, SectionKind), l: Seq<char>)
    requires
        l.len() == 0 || (l.len() >= 2 && l[0] == '#' && l[1] == ' '),
    ensures
        sections_step(st, l) == st,
{
    if l.len() > 0 {
        assert(lead_ws(l) == 0);
        assert(trim_start(l) =~= l);
        assert(!crate::text::starts_with(l, heading_prefix())) by {
            if crate::text::starts_with(l, heading_prefix()) {
                assert(l.subrange(0, 3)[1] == '#');
            }
        }
        assert(!crate::text::starts_with(l, item_prefix())) by {
            if crate::text::starts_with(l, item_prefix()) {
                assert(l.subrange(0, 2)[0] == '-');
            }
        }
    } else {
        assert(trim_start(l) =~= l);
    }
}

proof fn lemma_lines_block(ls: Seq<Seq<char>>)
    requires
        all_entries(ls),
    ensures
        lines_of(block_of(ls)) == ls,
        block_of(ls).len() == 0 || block_of(ls).last() == '\n',
    decreases ls.len(),
{
    if ls.len() == 0 {
        assert(lines_of(Seq::<char>::empty()) =~= Seq::<Seq<char>>::empty());
    } else {
        let init = ls.drop_last();
        assert forall|i: int| 0 <= i < init.len() implies is_entry_text(#[trigger] init[i]) by {
            assert(init[i] == ls[i]);
        }
        lemma_lines_block(init);
        let l = ls.last();
        assert(is_entry_text(ls[ls.len() - 1]));
        crate::text::lemma_lines_single(l);
        assert(block_of(ls) =~= block_of(init) + (l + seq!['\n']));
        crate::text::lemma_lines_concat(block_of(init), l + seq!['\n']);
        assert(strip_cr(l) == l);
        assert(init + seq![l] =~= ls);
    }
}

/// `x + y` ends with a line feed when `x` does and `y` is empty or does.
proof fn lemma_ends_nl(x: Seq<char>, y: Seq<char>)
    requires
        x.len() > 0 && x.last() == '\n',
        y.len() == 0 || y.last() == '\n',
    ensures
        (x + y).len() > 0 && (x + y).last() == '\n',
{
    if y.len() == 0 {
        assert(x + y =~= x);
    } else {
        assert((x + y).last() == y.last());
    }
}

proof fn lemma_lines_heading(title: Seq<char>)
    requires
        !title.contains('\n'),
        plain_title(title),
    ensures
        lines_of(heading_line(title)) == seq![heading_prefix() + title],
{
    let h = heading_prefix() + title;
    assert(!h.contains('\n')) by {
        if h.contains('\n') {
            let i = choose|i: int| 0 <= i < h.len() && h[i] == '\n';
            if i >= 3 {
                assert(title[i - 3] == '\n');
                assert(title.contains('\n'));
            }
        }
    }
    crate::text::lemma_lines_single(h);
    assert(heading_line(title) =~= h + seq!['\n']);
    assert(!is_white_space(title.last()));
    assert(h.last() == title.last());
    assert(strip_cr(h) == h);
}

/// `# 全局索引`
pub open spec fn title_text() -> Seq<char> {
    seq!['#', ' ', '全', '局', '索', '引']
}

/// The lines of the text that [`serialized`] gives.
pub open spec fn serialized_lines(m: SectionsModel) -> Seq<Seq<char>> {
    let blank: Seq<Seq<char>> = seq![Seq::<char>::empty()];
    seq![title_text(), Seq::<char>::empty()] + seq![heading_prefix() + tag_character()]
        + m.characters + blank + seq![heading_prefix() + tag_item()] + m.items + blank + seq![
        heading_prefix() + title_threads(),
    ] + m.threads + blank + seq![heading_prefix() + tag_location()] + m.locations + blank + seq![
        heading_prefix() + title_archived(),
    ] + m.archived
}

proof fn lemma_no_newline_titles()
    ensures
        !title_text().contains('\n'),
        !tag_character().contains('\n'),
        !tag_item().contains('\n'),
        !tag_location().contains('\n'),
        !title_threads().contains('\n'),
        !title_archived().contains('\n'),
{
    assert(!title_text().contains('\n')) by {
        if title_text().contains('\n') {
            let i = choose|i: int| 0 <= i < 6 && title_text()[i] == '\n';
        }
    }
    assert(!tag_character().contains('\n')) by {
        if tag_character().contains('\n') {
            let i = choose|i: int| 0 <= i < 2 && tag_character()[i] == '\n';
        }
    }
    assert(!tag_item().contains('\n')) by {
        if tag_item().contains('\n') {
            let i = choose|i: int| 0 <= i < 2 && tag_item()[i] == '\n';
        }
    }
    assert(!tag_location().contains('\n')) by {
        if tag_location().contains('\n') {
            let i = choose|i: int| 0 <= i < 2 && tag_location()[i] == '\n';
        }
    }
    assert(!title_threads().contains('\n')) by {
        if title_threads().contains('\n') {
            let i = choose|i: int| 0 <= i < 4 && title_threads()[i] == '\n';
        }
    }
    assert(!title_archived().contains('\n')) by {
        if title_archived().contains('\n') {
            let i = choose|i: int| 0 <= i < 5 && title_archived()[i] == '\n';
        }
    }
}

#[verifier::rlimit(40)]
proof fn lemma_serialized_lines(m: SectionsModel)
    requires
        well_formed_sections(m),
    ensures
        lines_of(serialized(m)) == serialized_lines(m),
{
    let nl: Seq<char> = seq!['\n'];
    let t0 = title_text();
    lemma_no_newline_titles();
    crate::text::lemma_lines_single(t0);
    crate::text::lemma_lines_single(Seq::<char>::empty());
    assert(Seq::<char>::empty() + nl =~= nl);
    assert(doc_title() =~= (t0 + nl) + nl);
    crate::text::lemma_lines_concat(t0 + nl, nl);
    assert(strip_cr(t0) == t0);
    assert(strip_cr(Seq::<char>::empty()) == Seq::<char>::empty());
    assert(lines_of(doc_title()) =~= seq![t0, Seq::<char>::empty()]);
    assert(lines_of(nl) =~= seq![Seq::<char>::empty()]);
    lemma_lines_heading(tag_character());
    lemma_lines_heading(tag_item());
    lemma_lines_heading(tag_location());
    lemma_lines_heading(title_threads());
    lemma_lines_heading(title_archived());
    lemma_lines_block(m.characters);
    lemma_lines_block(m.items);
    lemma_lines_block(m.threads);
    lemma_lines_block(m.locations);
    lemma_lines_block(m.archived);
    let h1 = heading_line(tag_character());
    let h2 = heading_line(tag_item());
    let h3 = heading_line(title_threads());
    let h4 = heading_line(tag_location());
    let h5 = heading_line(title_archived());
    let x1 = doc_title() + h1;
    let x2 = x1 + block_of(m.characters);
    let x3 = x2 + nl;
    let x4 = x3 + h2;
    let x5 = x4 + block_of(m.items);
    let x6 = x5 + nl;
    let x7 = x6 + h3;
    let x8 = x7 + block_of(m.threads);
    let x9 = x8 + nl;
    let x10 = x9 + h4;
    let x11 = x10 + block_of(m.locations);
    let x12 = x11 + nl;
    let x13 = x12 + h5;
    assert(serialized(m) =~= x13 + block_of(m.archived));
    assert(doc_title().last() == '\n');
    assert(h1.last() == '\n' && h2.last() == '\n' && h3.last() == '\n' && h4.last() == '\n'
        && h5.last() == '\n');
    lemma_ends_nl(doc_title(), h1);
    crate::text::lemma_lines_concat(doc_title(), h1);
    lemma_ends_nl(x1, block_of(m.characters));
    crate::text::lemma_lines_concat(x1, block_of(m.characters));
    lemma_ends_nl(x2, nl);
    crate::text::lemma_lines_concat(x2, nl);
    lemma_ends_nl(x3, h2);
    crate::text::lemma_lines_concat(x3, h2);
    lemma_ends_nl(x4, block_of(m.items));
    crate::text::lemma_lines_concat(x4, block_of(m.items));
    lemma_ends_nl(x5, nl);
    crate::text::lemma_lines_concat(x5, nl);
    lemma_ends_nl(x6, h3);
    crate::text::lemma_lines_concat(x6, h3);
    lemma_ends_nl(x7, block_of(m.threads));
    crate::text::lemma_lines_concat(x7, block_of(m.threads));
    lemma_ends_nl(x8, nl);
    crate::text::lemma_lines_concat(x8, nl);
    lemma_ends_nl(x9, h4);
    crate::text::lemma_lines_concat(x9, h4);
    lemma_ends_nl(x10, block_of(m.locations));
    crate::text::lemma_lines_concat(x10, block_of(m.locations));
    lemma_ends_nl(x11, nl);
    crate::text::lemma_lines_concat(x11, nl);
    lemma_ends_nl(x12, h5);
    crate::text::lemma_lines_concat(x12, h5);
    crate::text::lemma_lines_concat(x13, block_of(m.archived));
}

proof fn lemma_fold_one(st: (SectionsModel, SectionKind), l: Seq<char>)
    ensures
        sections_fold(st, seq![l]) == sections_step(st, l),
{
    let one: Seq<Seq<char>> = seq![l];
    assert(one.drop_last() =~= Seq::<Seq<char>>::empty());
    assert(one.last() == l);
    assert(sections_fold(st, Seq::<Seq<char>>::empty()) == st);
    assert(sections_fold(st, one) == sections_step(sections_fold(st, one.drop_last()), one.last()));
}

/// Reading a heading for `kind`, its entry lines and (optionally) a blank line.
proof fn lemma_fold_part(
    mm: SectionsModel,
    k0: SectionKind,
    title: Seq<char>,
    ls: Seq<Seq<char>>,
    before: Seq<Seq<char>>,
)
    requires
        plain_title(title),
        all_entries(ls),
        sections_fold((empty_sections(), SectionKind::Unknown), before) == (mm, k0),
    ensures
        sections_fold(
            (empty_sections(), SectionKind::Unknown),
            before + seq![heading_prefix() + title] + ls,
        ) == (add_all(mm, heading_kind(title), ls), heading_kind(title)),
        sections_fold(
            (empty_sections(), SectionKind::Unknown),
            before + seq![heading_prefix() + title] + ls + seq![Seq::<char>::empty()],
        ) == (add_all(mm, heading_kind(title), ls), heading_kind(title)),
{
    let init = (empty_sections(), SectionKind::Unknown);
    let g = seq![heading_prefix() + title];
    let kind = heading_kind(title);
    lemma_fold_concat(init, before, g);
    lemma_fold_one((mm, k0), heading_prefix() + title);
    lemma_heading_step((mm, k0), title);
    lemma_fold_concat(init, before + g, ls);
    lemma_fold_entries(mm, kind, ls);
    let blank = seq![Seq::<char>::empty()];
    lemma_fold_concat(init, before + g + ls, blank);
    lemma_fold_one((add_all(mm, kind, ls), kind), Seq::<char>::empty());
    lemma_skip_step((add_all(mm, kind, ls), kind), Seq::<char>::empty());
}

#[verifier::rlimit(40)]
proof fn lemma_fold_serialized(m: SectionsModel)
    requires
        well_formed_sections(m),
    ensures
        sections_of_lines(serialized_lines(m)).0 == m,
{
    let init = (empty_sections(), SectionKind::Unknown);
    let t0 = title_text();
    let e: Seq<char> = Seq::empty();
    let blank: Seq<Seq<char>> = seq![e];
    let l_title = seq![t0, e];
    assert(l_title =~= seq![t0] + blank);
    lemma_fold_one(init, t0);
    lemma_skip_step(init, t0);
    lemma_fold_concat(init, seq![t0], blank);
    lemma_fold_one(init, e);
    lemma_skip_step(init, e);
    assert(sections_fold(init, l_title) == init);
    assert(plain_title(tag_character()));
    assert(plain_title(tag_item()));
    assert(plain_title(title_threads()));
    assert(plain_title(tag_location()));
    assert(plain_title(title_archived()));
    let m1 = add_all(empty_sections(), SectionKind::Characters, m.characters);
    let m2 = add_all(m1, SectionKind::Items, m.items);
    let m3 = add_all(m2, SectionKind::Threads, m.threads);
    let m4 = add_all(m3, SectionKind::Locations, m.locations);
    let m5 = add_all(m4, SectionKind::Archived, m.archived);
    let p1 = l_title + seq![heading_prefix() + tag_character()] + m.characters + blank;
    lemma_fold_part(empty_sections(), SectionKind::Unknown, tag_character(), m.characters, l_title);
    let p2 = p1 + seq![heading_prefix() + tag_item()] + m.items + blank;
    lemma_fold_part(m1, SectionKind::Characters, tag_item(), m.items, p1);
    let p3 = p2 + seq![heading_prefix() + title_threads()] + m.threads + blank;
    lemma_fold_part(m2, SectionKind::Items, title_threads(), m.threads, p2);
    let p4 = p3 + seq![heading_prefix() + tag_location()] + m.locations + blank;
    lemma_fold_part(m3, SectionKind::Threads, tag_location(), m.locations, p3);
    let p5 = p4 + seq![heading_prefix() + title_archived()] + m.archived;
    lemma_fold_part(m4, SectionKind::Locations, title_archived(), m.archived, p4);
    assert(p5 =~= serialized_lines(m));
    assert(m5.characters =~= m.characters);
    assert(m5.items =~= m.items);
    assert(m5.threads =~= m.threads);
    assert(m5.locations =~= m.locations);
    assert(m5.archived =~= m.archived);
}

/// Writing well-formed sections out as `index.md` and reading the text back
/// gives the same sections.
pub proof fn lemma_sections_round_trip(m: SectionsModel)
    requires
        well_formed_sections(m),
    ensures
        sections_of(serialized(m)) == m,
{
    lemma_serialized_lines(m);
    lemma_fold_serialized(m);
}

proof fn lemma_find_entry_some(lines: Seq<Seq<char>>, name: Seq<char>, i: int, j: int)
    requires
        0 <= i <= j < lines.len(),
        is_entry_for(lines[j], name),
    ensures
        find_entry(lines, name, i) is Some,
    decreases j - i,
{
    if !is_entry_for(lines[i], name) {
        lemma_find_entry_some(lines, name, i + 1, j);
    }
}

/// An open thread is recorded once: applying the same new-thread update a
/// second time changes nothing.
pub proof fn lemma_new_thread_once(m: SectionsModel, t: ThreadModel)
    requires
        t.status == ThreadStatus::NewOpen,
    ensures
        apply_thread(apply_thread(m, t), t) == apply_thread(m, t),
{
    if find_entry(m.threads, t.name, 0) is None {
        let line = new_thread_line(t.name, t.volume);
        let ls = m.threads.push(line);
        assert(lead_ws(line) == 0);
        assert(trim_start(line) =~= line);
        let p = item_prefix() + t.name + seq![':'];
        assert(line.subrange(0, p.len() as int) =~= p);
        assert(is_entry_for(ls[ls.len() - 1], t.name));
        lemma_find_entry_some(ls, t.name, 0, ls.len() - 1);
    }
}

} // verus!
