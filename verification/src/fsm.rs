//! Character-level streaming filter: strips `start…end` regions and
//! substitutes `{{name}}` variables while text arrives in arbitrary chunks.
//!
//! The machine is specified by [`step`] (one character) and [`run`] (a whole
//! text); [`lemma_run_concat`] proves that splitting the input into chunks
//! never changes the output.
use vstd::prelude::*;
use crate::text::{
    ends_with_exec, chars_eq, chars_of, ends_with, find_from, find_from_exec, is_alphanumeric, char_is_alphanumeric,
    lemma_find_from_bounds, push_char, push_chars, push_chars_range, starts_with, string_of, trim,
    trim_bounds, utf8_len, utf8_len_exceeds,
};

verus! {

broadcast use vstd::string::group_string_axioms;

/// A filter region: everything from `start` through the next `end` is dropped.
#[derive(Debug, Clone)]
pub struct RegexFilter {
    pub start: String,
    pub end: String,
}

/// `(start, end)` of each filter, as text.
pub type FilterModel = Seq<(Seq<char>, Seq<char>)>;

/// `(name, value)` pairs of the variable table; a later pair for the same
/// name overrides an earlier one.
pub type VarModel = Seq<(Seq<char>, Seq<char>)>;

/// `{{`
pub open spec fn open_braces() -> Seq<char> {
    seq!['{', '{']
}

/// `}}`
pub open spec fn close_braces() -> Seq<char> {
    seq!['}', '}']
}

// ---------------------------------------------------------------------------
// Parsing a filter out of a regular expression of the form START…END
// ---------------------------------------------------------------------------

/// The characters that a backslash escapes in a filter pattern.
pub open spec fn is_escapable(c: char) -> bool {
    c == '[' || c == ']' || c == '(' || c == ')' || c == '{' || c == '}' || c == '*' || c == '+'
        || c == '?' || c == '|' || c == '^' || c == '$' || c == '\\' || c == '.' || c == '/'
}

/// `s` with regex escapes (`\<` → `<`, `\[` → `[`, …) undone; any other
/// backslash is kept.
pub open spec fn unescape(s: Seq<char>) -> Seq<char>
    decreases s.len(),
{
    if s.len() == 0 {
        Seq::empty()
    } else if s[0] == '\\' && s.len() >= 2 && is_escapable(s[1]) {
        seq![s[1]] + unescape(s.subrange(2, s.len() as int))
    } else {
        seq![s[0]] + unescape(s.subrange(1, s.len() as int))
    }
}

/// `[\s\S]*?`
pub open spec fn lazy_any_class() -> Seq<char> {
    seq!['[', '\\', 's', '\\', 'S', ']', '*', '?']
}

/// `.*?`
pub open spec fn lazy_any_dot() -> Seq<char> {
    seq!['.', '*', '?']
}

/// The first two pieces of `s` split at `sep`, when `sep` occurs in `s`.
pub open spec fn split_two(s: Seq<char>, sep: Seq<char>) -> Option<(Seq<char>, Seq<char>)> {
    match find_from(s, sep, 0) {
        Some(p) => {
            let q = match find_from(s, sep, p + sep.len()) {
                Some(q) => q,
                None => s.len() as int,
            };
            Some((s.subrange(0, p), s.subrange(p + sep.len(), q)))
        },
        None => None,
    }
}

/// The `(start, end)` that [`RegexFilter::from_regex`] reads out of `s`.
pub open spec fn filter_of_regex(s: Seq<char>) -> (Seq<char>, Seq<char>) {
    match split_two(s, lazy_any_class()) {
        Some((a, b)) => (unescape(a), unescape(b)),
        None => match split_two(s, lazy_any_dot()) {
            Some((a, b)) => (unescape(a), unescape(b)),
            None => (unescape(s), Seq::empty()),
        },
    }
}

fn is_escapable_exec(c: char) -> (r: bool)
    ensures
        r == is_escapable(c),
{
    c == '[' || c == ']' || c == '(' || c == ')' || c == '{' || c == '}' || c == '*' || c == '+'
        || c == '?' || c == '|' || c == '^' || c == '$' || c == '\\' || c == '.' || c == '/'
}

/// `unescape(cs[from..to])`.
fn unescape_range(cs: &Vec<char>, from: usize, to: usize) -> (r: String)
    requires
        from <= to <= cs.len(),
    ensures
        r@ == unescape(cs@.subrange(from as int, to as int)),
{
    let mut out = String::new();
    let mut i = from;
    while i < to
        invariant
            from <= i <= to <= cs.len(),
            unescape(cs@.subrange(from as int, to as int)) == out@ + unescape(
                cs@.subrange(i as int, to as int),
            ),
        decreases to - i,
    {
        let ghost rest = cs@.subrange(i as int, to as int);
        let ghost out0 = out@;
        let c = cs[i];
        if c == '\\' && i + 1 < to && is_escapable_exec(cs[i + 1]) {
            assert(rest.subrange(2, rest.len() as int) =~= cs@.subrange(i + 2, to as int));
            push_char(&mut out, cs[i + 1]);
            i = i + 2;
            assert(out0 + (seq![cs@[i - 1]] + unescape(cs@.subrange(i as int, to as int)))
                =~= out@ + unescape(cs@.subrange(i as int, to as int)));
        } else {
            assert(rest.subrange(1, rest.len() as int) =~= cs@.subrange(i + 1, to as int));
            push_char(&mut out, c);
            i = i + 1;
            assert(out0 + (seq![c] + unescape(cs@.subrange(i as int, to as int))) =~= out@
                + unescape(cs@.subrange(i as int, to as int)));
        }
    }
    assert(cs@.subrange(i as int, to as int) =~= Seq::<char>::empty());
    assert(out@ + Seq::<char>::empty() =~= out@);
    out
}

fn lazy_any_class_exec() -> (r: Vec<char>)
    ensures
        r@ == lazy_any_class(),
{
    let r = vec!['[', '\\', 's', '\\', 'S', ']', '*', '?'];
    assert(r@ =~= lazy_any_class());
    r
}

fn lazy_any_dot_exec() -> (r: Vec<char>)
    ensures
        r@ == lazy_any_dot(),
{
    let r = vec!['.', '*', '?'];
    assert(r@ =~= lazy_any_dot());
    r
}

/// `split_two(cs, sep)` as bounds: `(p, q)` with the pieces `cs[..p]` and `cs[p+|sep|..q]`.
fn split_two_exec(cs: &Vec<char>, sep: &Vec<char>) -> (r: Option<(usize, usize)>)
    requires
        sep.len() > 0,
    ensures
        r is None ==> split_two(cs@, sep@) is None,
        r matches Some((p, q)) ==> p + sep.len() <= q <= cs.len() && split_two(cs@, sep@) == Some(
            (cs@.subrange(0, p as int), cs@.subrange(p + sep.len(), q as int)),
        ),
{
    match find_from_exec(cs, sep, 0) {
        None => None,
        Some(p) => {
            proof {
                lemma_find_from_bounds(cs@, sep@, 0);
                assert(crate::text::occurs_at(cs@, sep@, p as int));
                assert(p + sep@.len() <= cs@.len());
            }
            assert(p + sep.len() <= cs.len());
            let after: usize = p + sep.len();
            let q = match find_from_exec(cs, sep, after) {
                Some(q) => {
                    proof {
                        lemma_find_from_bounds(cs@, sep@, p + sep.len());
                    }
                    q
                },
                None => cs.len(),
            };
            Some((p, q))
        },
    }
}

impl RegexFilter {
    /// Reads the start and end text out of a pattern of the form
    /// `START[\s\S]*?END` or `START.*?END`, undoing regex escapes; any other
    /// pattern becomes a filter whose start is the whole (unescaped) pattern and
    /// whose end is empty.
    pub fn from_regex(regex_str: &str) -> (r: RegexFilter)
        ensures
            (r.start@, r.end@) == filter_of_regex(regex_str@),
    {
        let cs = chars_of(regex_str);
        let sep1 = lazy_any_class_exec();
        match split_two_exec(&cs, &sep1) {
            Some((p, q)) => {
                let start = unescape_range(&cs, 0, p);
                let end = unescape_range(&cs, p + sep1.len(), q);
                return RegexFilter { start, end };
            },
            None => {},
        }
        let sep2 = lazy_any_dot_exec();
        match split_two_exec(&cs, &sep2) {
            Some((p, q)) => {
                let start = unescape_range(&cs, 0, p);
                let end = unescape_range(&cs, p + sep2.len(), q);
                RegexFilter { start, end }
            },
            None => {
                let start = unescape_range(&cs, 0, cs.len());
                assert(cs@.subrange(0, cs@.len() as int) =~= cs@);
                RegexFilter { start, end: String::new() }
            },
        }
    }
}


// ---------------------------------------------------------------------------
// The machine
// ---------------------------------------------------------------------------

/// Where the machine stands between two characters.
pub enum Mode {
    /// Passing text through.
    Normal,
    /// Holding text that may be the beginning of `{{` or of a filter start.
    Buffering(Seq<char>),
    /// After `{{`: collecting a variable name.
    Variable(Seq<char>),
    /// Inside filter `i`: the text seen so far, cut to the length of its end.
    Filtering(int, Seq<char>),
}

/// `s` is a non-empty beginning of `{{` or of a non-empty filter start.
pub open spec fn is_special_prefix(f: FilterModel, s: Seq<char>) -> bool {
    ||| starts_with(open_braces(), s)
    ||| exists|i: int| 0 <= i < f.len() && f[i].0.len() > 0 && starts_with(#[trigger] f[i].0, s)
}

/// The first filter at or after `i` whose start is exactly `s`.
pub open spec fn first_start(f: FilterModel, s: Seq<char>, i: int) -> Option<int>
    decreases f.len() - i,
{
    if i < 0 || i >= f.len() {
        None
    } else if f[i].0 == s {
        Some(i)
    } else {
        first_start(f, s, i + 1)
    }
}

/// What the machine enters once it holds the text `m`: a variable name after
/// `{{`, filter `i` after its start, or else buffering `m`.
pub open spec fn enter(f: FilterModel, m: Seq<char>) -> Mode {
    if m == open_braces() {
        Mode::Variable(Seq::empty())
    } else {
        match first_start(f, m, 0) {
            Some(i) => Mode::Filtering(i, Seq::empty()),
            None => Mode::Buffering(m),
        }
    }
}

/// The first `k` in `[from, |t|)` such that `t[k..]` is a special prefix.
pub open spec fn first_special_suffix(f: FilterModel, t: Seq<char>, from: int) -> Option<int>
    decreases t.len() - from,
{
    if from < 1 || from >= t.len() {
        None
    } else if is_special_prefix(f, t.subrange(from, t.len() as int)) {
        Some(from)
    } else {
        first_special_suffix(f, t, from + 1)
    }
}

/// The value bound to `name` (the last binding wins).
pub open spec fn lookup_var(vars: VarModel, name: Seq<char>) -> Option<Seq<char>>
    decreases vars.len(),
{
    if vars.len() == 0 {
        None
    } else if vars.last().0 == name {
        Some(vars.last().1)
    } else {
        lookup_var(vars.drop_last(), name)
    }
}

/// Characters allowed in a variable name while it is being collected.
pub open spec fn is_var_char(c: char) -> bool {
    is_alphanumeric(c) || c == '_' || c == ' ' || c == '}'
}

/// The longest variable text collected before giving up, in UTF-8 bytes.
pub open spec fn max_var_bytes() -> nat {
    64
}

/// One character through the machine: the next mode and the text it releases.
pub open spec fn step(f: FilterModel, vars: VarModel, mode: Mode, c: char) -> (Mode, Seq<char>) {
    match mode {
        Mode::Normal => {
            let s = seq![c];
            if is_special_prefix(f, s) {
                (enter(f, s), Seq::empty())
            } else {
                (Mode::Normal, s)
            }
        },
        Mode::Buffering(b) => {
            let t = b.push(c);
            if is_special_prefix(f, t) {
                (enter(f, t), Seq::empty())
            } else {
                match first_special_suffix(f, t, 1) {
                    Some(k) => (enter(f, t.subrange(k, t.len() as int)), t.subrange(0, k)),
                    None => (Mode::Normal, t),
                }
            }
        },
        Mode::Variable(v) => {
            let t = v.push(c);
            if ends_with(t, close_braces()) {
                let name = t.subrange(0, t.len() - 2);
                (
                    Mode::Normal,
                    match lookup_var(vars, trim(name)) {
                        Some(val) => val,
                        None => open_braces() + name + close_braces(),
                    },
                )
            } else if !(forall|j: int| 0 <= j < t.len() ==> is_var_char(#[trigger] t[j])) || utf8_len(t)
                > max_var_bytes() {
                (Mode::Normal, open_braces() + t)
            } else {
                (Mode::Variable(t), Seq::empty())
            }
        },
        Mode::Filtering(i, e) => {
            let t = e.push(c);
            let end = f[i].1;
            if ends_with(t, end) {
                (Mode::Normal, Seq::empty())
            } else if t.len() > end.len() {
                (Mode::Filtering(i, t.subrange(t.len() - end.len(), t.len() as int)), Seq::empty())
            } else {
                (Mode::Filtering(i, t), Seq::empty())
            }
        },
    }
}

/// A whole text through the machine: the final mode and everything released.
pub open spec fn run(f: FilterModel, vars: VarModel, mode: Mode, s: Seq<char>) -> (Mode, Seq<char>)
    decreases s.len(),
{
    if s.len() == 0 {
        (mode, Seq::empty())
    } else {
        let (m1, o1) = run(f, vars, mode, s.drop_last());
        let (m2, o2) = step(f, vars, m1, s.last());
        (m2, o1 + o2)
    }
}

/// What the end of the stream releases from `mode`.
pub open spec fn flush(mode: Mode) -> Seq<char> {
    match mode {
        Mode::Normal => Seq::empty(),
        Mode::Buffering(b) => b,
        Mode::Variable(v) => open_braces() + v,
        Mode::Filtering(_, _) => Seq::empty(),
    }
}

/// A whole stream, given as chunks, through the machine from `mode`, then
/// flushed: the text that comes out.
pub open spec fn run_chunks(f: FilterModel, vars: VarModel, mode: Mode, chunks: Seq<Seq<char>>) -> (Mode, Seq<char>)
    decreases chunks.len(),
{
    if chunks.len() == 0 {
        (mode, Seq::empty())
    } else {
        let (m1, o1) = run_chunks(f, vars, mode, chunks.drop_last());
        let (m2, o2) = run(f, vars, m1, chunks.last());
        (m2, o1 + o2)
    }
}

/// The concatenation of `chunks`.
pub open spec fn concat_all(chunks: Seq<Seq<char>>) -> Seq<char>
    decreases chunks.len(),
{
    if chunks.len() == 0 {
        Seq::empty()
    } else {
        concat_all(chunks.drop_last()) + chunks.last()
    }
}

/// Feeding `a` and then `b` leaves the machine where feeding `a + b` does, and
/// releases the same text.
pub proof fn lemma_run_concat(f: FilterModel, vars: VarModel, mode: Mode, a: Seq<char>, b: Seq<char>)
    ensures
        run(f, vars, mode, a + b) == ({
            let (m1, o1) = run(f, vars, mode, a);
            let (m2, o2) = run(f, vars, m1, b);
            (m2, o1 + o2)
        }),
    decreases b.len(),
{
    if b.len() == 0 {
        assert(a + b =~= a);
        assert(run(f, vars, mode, a).1 + Seq::<char>::empty() =~= run(f, vars, mode, a).1);
    } else {
        assert((a + b).drop_last() =~= a + b.drop_last());
        assert((a + b).last() == b.last());
        lemma_run_concat(f, vars, mode, a, b.drop_last());
        let (m1, o1) = run(f, vars, mode, a);
        let (m2, o2) = run(f, vars, m1, b.drop_last());
        let (m3, o3) = step(f, vars, m2, b.last());
        assert(o1 + o2 + o3 =~= o1 + (o2 + o3));
    }
}

/// Chunk-boundary independence: however a stream is cut into chunks, the
/// machine ends in the same mode and releases the same text as when the whole
/// stream arrives at once — and so the flushed output is the same too.
pub proof fn lemma_chunking_is_invisible(f: FilterModel, vars: VarModel, mode: Mode, chunks: Seq<Seq<char>>)
    ensures
        run_chunks(f, vars, mode, chunks) == run(f, vars, mode, concat_all(chunks)),
        run_chunks(f, vars, mode, chunks).1 + flush(run_chunks(f, vars, mode, chunks).0)
            == run(f, vars, mode, concat_all(chunks)).1 + flush(run(f, vars, mode, concat_all(chunks)).0),
    decreases chunks.len(),
{
    if chunks.len() > 0 {
        lemma_chunking_is_invisible(f, vars, mode, chunks.drop_last());
        lemma_run_concat(f, vars, mode, concat_all(chunks.drop_last()), chunks.last());
    }
}

/// Text none of whose characters can begin `{{` or a filter start passes
/// through a machine in normal mode unchanged.
pub proof fn lemma_plain_text_passes(f: FilterModel, vars: VarModel, s: Seq<char>)
    requires
        forall|i: int| 0 <= i < s.len() ==> !is_special_prefix(f, seq![#[trigger] s[i]]),
    ensures
        run(f, vars, Mode::Normal, s) == (Mode::Normal, s),
    decreases s.len(),
{
    if s.len() > 0 {
        let p = s.drop_last();
        assert forall|i: int| 0 <= i < p.len() implies !is_special_prefix(f, seq![#[trigger] p[i]]) by {
            assert(p[i] == s[i]);
        }
        lemma_plain_text_passes(f, vars, p);
        assert(!is_special_prefix(f, seq![s[s.len() - 1]]));
        assert(p + seq![s.last()] =~= s);
    }
}


/// `s` cut into chunks of one character each.
pub open spec fn single_chars(s: Seq<char>) -> Seq<Seq<char>> {
    Seq::new(s.len(), |i: int| seq![s[i]])
}

proof fn lemma_single_chars_concat(s: Seq<char>)
    ensures
        concat_all(single_chars(s)) == s,
    decreases s.len(),
{
    if s.len() > 0 {
        lemma_single_chars_concat(s.drop_last());
        assert(single_chars(s).drop_last() =~= single_chars(s.drop_last()));
        assert(concat_all(single_chars(s.drop_last())) + seq![s.last()] =~= s);
    }
}

/// Feeding a text one character at a time, each character one step of the
/// machine, leaves it where feeding the text at once does and releases the
/// same text: the chunk method is the character method run along the chunk.
pub proof fn lemma_chunk_is_per_char(f: FilterModel, vars: VarModel, mode: Mode, s: Seq<char>)
    ensures
        run_chunks(f, vars, mode, single_chars(s)) == run(f, vars, mode, s),
        forall|m: Mode, c: char| #[trigger] run(f, vars, m, seq![c]) == step(f, vars, m, c),
{
    lemma_chunking_is_invisible(f, vars, mode, single_chars(s));
    lemma_single_chars_concat(s);
    assert forall|m: Mode, c: char| #[trigger] run(f, vars, m, seq![c]) == step(f, vars, m, c) by {
        assert(seq![c].drop_last() =~= Seq::<char>::empty());
        assert(run(f, vars, m, seq![c].drop_last()) == (m, Seq::<char>::empty()));
        assert(seq![c].last() == c);
        let (m2, o2) = step(f, vars, m, c);
        assert(Seq::<char>::empty() + o2 =~= o2);
    }
}

/// Feeding any chunks one after another and feeding their characters one at
/// a time release the same text and leave the machine in the same mode, so
/// the same text is flushed at the end.
pub proof fn lemma_chunks_match_chars(f: FilterModel, vars: VarModel, mode: Mode, chunks: Seq<Seq<char>>)
    ensures
        run_chunks(f, vars, mode, chunks) == run_chunks(f, vars, mode, single_chars(concat_all(chunks))),
{
    lemma_chunking_is_invisible(f, vars, mode, chunks);
    lemma_chunk_is_per_char(f, vars, mode, concat_all(chunks));
}

proof fn lemma_identity_step(f: FilterModel, vars: VarModel, mode: Mode, c: char)
    requires
        f.len() == 0,
        vars.len() == 0,
        !(mode is Filtering),
    ensures
        !(step(f, vars, mode, c).0 is Filtering),
        step(f, vars, mode, c).1 + flush(step(f, vars, mode, c).0) == flush(mode) + seq![c],
{
    assert forall|m: Seq<char>| #[trigger] first_start(f, m, 0) is None by {}
    assert forall|m: Seq<char>| !(#[trigger] enter(f, m) is Filtering) by {}
    match mode {
        Mode::Normal => {
            assert(flush(mode) + seq![c] =~= seq![c]);
            if is_special_prefix(f, seq![c]) {
                if seq![c] == open_braces() {
                    assert(seq![c].len() == 1);
                }
                assert(enter(f, seq![c]) == Mode::Buffering(seq![c]));
                assert(Seq::<char>::empty() + seq![c] =~= seq![c]);
            } else {
                assert(seq![c] + Seq::<char>::empty() =~= seq![c]);
            }
        },
        Mode::Buffering(b) => {
            let t = b.push(c);
            assert(flush(mode) + seq![c] =~= t);
            if is_special_prefix(f, t) {
                if t == open_braces() {
                    assert(Seq::<char>::empty() + (open_braces() + Seq::<char>::empty()) =~= t);
                } else {
                    assert(Seq::<char>::empty() + t =~= t);
                }
            } else {
                match first_special_suffix(f, t, 1) {
                    Some(k) => {
                        lemma_first_special_suffix_range(f, t, 1);
                        let r = t.subrange(k, t.len() as int);
                        if r == open_braces() {
                            assert(t.subrange(0, k) + (open_braces() + Seq::<char>::empty()) =~= t);
                        } else {
                            assert(t.subrange(0, k) + r =~= t);
                        }
                    },
                    None => {
                        assert(t + Seq::<char>::empty() =~= t);
                    },
                }
            }
        },
        Mode::Variable(v) => {
            let t = v.push(c);
            assert(flush(mode) + seq![c] =~= open_braces() + t);
            if ends_with(t, close_braces()) {
                let name = t.subrange(0, t.len() - 2);
                assert(lookup_var(vars, trim(name)) is None);
                assert(t.subrange(t.len() - 2, t.len() as int) == close_braces());
                assert(name + close_braces() =~= t);
                assert(open_braces() + name + close_braces() + Seq::<char>::empty() =~= open_braces() + t);
            } else if !(forall|j: int| 0 <= j < t.len() ==> is_var_char(#[trigger] t[j])) || utf8_len(t)
                > max_var_bytes() {
                assert(open_braces() + t + Seq::<char>::empty() =~= open_braces() + t);
            } else {
                assert(Seq::<char>::empty() + (open_braces() + t) =~= open_braces() + t);
            }
        },
        Mode::Filtering(_, _) => {},
    }
}

proof fn lemma_first_special_suffix_range(f: FilterModel, t: Seq<char>, from: int)
    requires
        1 <= from,
    ensures
        first_special_suffix(f, t, from) matches Some(k) ==> from <= k < t.len(),
    decreases t.len() - from,
{
    if from < t.len() && !is_special_prefix(f, t.subrange(from, t.len() as int)) {
        lemma_first_special_suffix_range(f, t, from + 1);
    }
}

/// With no filters and no variables the machine hands back exactly what it
/// is given, once the end of the stream releases what it still holds:
/// unknown `{{x}}`, broken `{{a-b`, a lone `{` and over-long names included.
pub proof fn lemma_no_filters_no_vars_is_identity(f: FilterModel, vars: VarModel, s: Seq<char>)
    requires
        f.len() == 0,
        vars.len() == 0,
    ensures
        !(run(f, vars, Mode::Normal, s).0 is Filtering),
        run(f, vars, Mode::Normal, s).1 + flush(run(f, vars, Mode::Normal, s).0) == s,
    decreases s.len(),
{
    if s.len() > 0 {
        lemma_no_filters_no_vars_is_identity(f, vars, s.drop_last());
        let (m1, o1) = run(f, vars, Mode::Normal, s.drop_last());
        lemma_identity_step(f, vars, m1, s.last());
        let (m2, o2) = step(f, vars, m1, s.last());
        assert(o1 + o2 + flush(m2) =~= o1 + (o2 + flush(m2)));
        assert(o1 + (flush(m1) + seq![s.last()]) =~= (o1 + flush(m1)) + seq![s.last()]);
        assert(s.drop_last() + seq![s.last()] =~= s);
    } else {
        assert(Seq::<char>::empty() + Seq::<char>::empty() =~= s);
    }
}

// ---------------------------------------------------------------------------
// The executable machine
// ---------------------------------------------------------------------------

enum FsmState {
    Normal,
    Buffering { buffer: Vec<char> },
    VariableBuffering { var_name_buffer: Vec<char> },
    Filtering { filter_index: usize, end_match_buffer: Vec<char> },
}

impl FsmState {
    spec fn model(&self) -> Mode {
        match self {
            FsmState::Normal => Mode::Normal,
            FsmState::Buffering { buffer } => Mode::Buffering(buffer@),
            FsmState::VariableBuffering { var_name_buffer } => Mode::Variable(var_name_buffer@),
            FsmState::Filtering { filter_index, end_match_buffer } => Mode::Filtering(
                *filter_index as int,
                end_match_buffer@,
            ),
        }
    }
}

/// Character-level stream filter. `process_chunk` takes raw text and returns
/// the cleaned text; `finish` releases what is still held at the end.
pub struct StreamingFsm {
    state: FsmState,
    starts: Vec<Vec<char>>,
    ends: Vec<Vec<char>>,
    var_names: Vec<Vec<char>>,
    var_values: Vec<Vec<char>>,
}

/// The filter model of a list of filters.
pub open spec fn filters_model(filters: Seq<RegexFilter>) -> FilterModel {
    Seq::new(filters.len(), |i: int| (filters[i].start@, filters[i].end@))
}

/// The variable model of a list of `(name, value)` pairs.
pub open spec fn vars_model(vars: Seq<(String, String)>) -> VarModel {
    Seq::new(vars.len(), |i: int| (vars[i].0@, vars[i].1@))
}

impl StreamingFsm {
    /// The filters, as text.
    pub closed spec fn filters(&self) -> FilterModel {
        Seq::new(self.starts@.len(), |i: int| (self.starts[i]@, self.ends[i]@))
    }

    /// The variable table, as text.
    pub closed spec fn vars(&self) -> VarModel {
        Seq::new(self.var_names@.len(), |i: int| (self.var_names[i]@, self.var_values[i]@))
    }

    /// The current mode.
    pub closed spec fn mode(&self) -> Mode {
        self.state.model()
    }

    /// Internal consistency of the cached tables and the state.
    pub closed spec fn wf(&self) -> bool {
        &&& self.starts.len() == self.ends.len()
        &&& self.var_names.len() == self.var_values.len()
        &&& (self.state matches FsmState::Filtering { filter_index, .. } ==> filter_index
            < self.starts.len())
    }

    /// A machine in normal mode over `filters` and the variable table `variables`
    /// (a later pair for the same name overrides an earlier one).
    pub fn new(filters: Vec<RegexFilter>, variables: Vec<(String, String)>) -> (r: StreamingFsm)
        ensures
            r.wf(),
            r.mode() == Mode::Normal,
            r.filters() == filters_model(filters@),
            r.vars() == vars_model(variables@),
    {
        let mut starts: Vec<Vec<char>> = Vec::new();
        let mut ends: Vec<Vec<char>> = Vec::new();
        let mut i: usize = 0;
        while i < filters.len()
            invariant
                i <= filters.len(),
                starts.len() == i,
                ends.len() == i,
                forall|j: int| 0 <= j < i ==> starts[j]@ == filters@[j].start@ && ends[j]@
                    == filters@[j].end@,
            decreases filters.len() - i,
        {
            starts.push(chars_of(filters[i].start.as_str()));
            ends.push(chars_of(filters[i].end.as_str()));
            i = i + 1;
        }
        let mut var_names: Vec<Vec<char>> = Vec::new();
        let mut var_values: Vec<Vec<char>> = Vec::new();
        let mut k: usize = 0;
        while k < variables.len()
            invariant
                k <= variables.len(),
                var_names.len() == k,
                var_values.len() == k,
                forall|j: int| 0 <= j < k ==> var_names[j]@ == variables@[j].0@ && var_values[j]@
                    == variables@[j].1@,
            decreases variables.len() - k,
        {
            var_names.push(chars_of(variables[k].0.as_str()));
            var_values.push(chars_of(variables[k].1.as_str()));
            k = k + 1;
        }
        let r = StreamingFsm { state: FsmState::Normal, starts, ends, var_names, var_values };
        assert(r.filters() =~= filters_model(filters@));
        assert(r.vars() =~= vars_model(variables@));
        r
    }

    /// Whether `t[from..]` is a special prefix.
    fn is_special_prefix_from(&self, t: &Vec<char>, from: usize) -> (r: bool)
        requires
            self.wf(),
            from < t.len(),
        ensures
            r == is_special_prefix(self.filters(), t@.subrange(from as int, t.len() as int)),
    {
        let ghost s = t@.subrange(from as int, t.len() as int);
        let n = t.len() - from;
        let mut all_open = n <= 2;
        let mut j: usize = 0;
        while j < n && all_open
            invariant
                n == t.len() - from,
                from < t.len(),
                j <= n,
                s == t@.subrange(from as int, t.len() as int),
                all_open ==> n <= 2 && forall|q: int| 0 <= q < j ==> s[q] == '{',
                !all_open ==> !starts_with(open_braces(), s),
            decreases n - j,
        {
            if t[from + j] != '{' {
                all_open = false;
                assert(!starts_with(open_braces(), s)) by {
                    if starts_with(open_braces(), s) {
                        assert(open_braces().subrange(0, s.len() as int)[j as int] == s[j as int]);
                    }
                }
            }
            j = j + 1;
        }
        if all_open {
            assert(open_braces().subrange(0, s.len() as int) =~= s);
            return true;
        }
        let mut i: usize = 0;
        while i < self.starts.len()
            invariant
                self.wf(),
                i <= self.starts.len(),
                from < t.len(),
                n == t.len() - from,
                s == t@.subrange(from as int, t.len() as int),
                !starts_with(open_braces(), s),
                forall|q: int| 0 <= q < i ==> !(self.filters()[q].0.len() > 0 && starts_with(
                    #[trigger] self.filters()[q].0, s)),
            decreases self.starts.len() - i,
        {
            let st = &self.starts[i];
            if st.len() > 0 && st.len() >= n {
                let mut ok = true;
                let mut q: usize = 0;
                while q < n
                    invariant
                        n == t.len() - from,
                        n <= st.len(),
                        from < t.len(),
                        q <= n,
                        s == t@.subrange(from as int, t.len() as int),
                        ok <==> forall|z: int| 0 <= z < q ==> st@[z] == s[z],
                    decreases n - q,
                {
                    assert(s[q as int] == t@[from + q]);
                    if st[q] != t[from + q] {
                        ok = false;
                    }
                    q = q + 1;
                }
                if ok {
                    assert(st@.subrange(0, s.len() as int) =~= s);
                    assert(self.filters()[i as int].0 == st@);
                    return true;
                }
                assert(!starts_with(st@, s)) by {
                    if starts_with(st@, s) {
                        assert forall|z: int| 0 <= z < n implies st@[z] == s[z] by {
                            assert(st@.subrange(0, s.len() as int)[z] == st@[z]);
                        }
                    }
                }
            }
            assert(self.filters()[i as int].0 == st@);
            assert(!(self.filters()[i as int].0.len() > 0 && starts_with(self.filters()[i as int].0, s)));
            i = i + 1;
        }
        false
    }

    /// `first_start(filters, s, 0)`.
    fn first_start_exec(&self, s: &Vec<char>) -> (r: Option<usize>)
        requires
            self.wf(),
        ensures
            r is None ==> first_start(self.filters(), s@, 0) is None,
            r matches Some(i) ==> first_start(self.filters(), s@, 0) == Some(i as int) && i
                < self.starts.len(),
    {
        let mut i: usize = 0;
        while i < self.starts.len()
            invariant
                self.wf(),
                i <= self.starts.len(),
                first_start(self.filters(), s@, 0) == first_start(self.filters(), s@, i as int),
            decreases self.starts.len() - i,
        {
            assert(self.filters()[i as int].0 == self.starts[i as int]@);
            if chars_eq(&self.starts[i], s) {
                return Some(i);
            }
            i = i + 1;
        }
        None
    }

    /// The state entered once the machine holds `m`.
    fn enter_exec(&self, m: Vec<char>) -> (r: FsmState)
        requires
            self.wf(),
        ensures
            r.model() == enter(self.filters(), m@),
            r matches FsmState::Filtering { filter_index, .. } ==> filter_index < self.starts.len(),
    {
        if m.len() == 2 && m[0] == '{' && m[1] == '{' {
            assert(m@ =~= open_braces());
            return FsmState::VariableBuffering { var_name_buffer: Vec::new() };
        }
        assert(m@ != open_braces()) by {
            if m@ == open_braces() {
                assert(m@[0] == '{' && m@[1] == '{');
            }
        }
        match self.first_start_exec(&m) {
            Some(i) => FsmState::Filtering { filter_index: i, end_match_buffer: Vec::new() },
            None => FsmState::Buffering { buffer: m },
        }
    }

    /// The value bound to `name`.
    fn lookup_var_exec(&self, name: &Vec<char>) -> (r: Option<Vec<char>>)
        requires
            self.wf(),
        ensures
            r is None ==> lookup_var(self.vars(), name@) is None,
            r matches Some(v) ==> lookup_var(self.vars(), name@) == Some(v@),
    {
        let mut k = self.var_names.len();
        assert(self.vars().subrange(0, k as int) =~= self.vars());
        while k > 0
            invariant
                self.wf(),
                k <= self.var_names.len(),
                lookup_var(self.vars(), name@) == lookup_var(self.vars().subrange(0, k as int), name@),
            decreases k,
        {
            let ghost pre = self.vars().subrange(0, k as int);
            assert(pre.drop_last() =~= self.vars().subrange(0, k - 1));
            assert(pre.last() == (self.var_names[k - 1]@, self.var_values[k - 1]@));
            if chars_eq(&self.var_names[k - 1], name) {
                return Some(self.var_values[k - 1].clone());
            }
            k = k - 1;
        }
        None
    }

    /// One character through the machine; returns the text it releases.
    pub fn process_char(&mut self, c: char) -> (r: String)
        requires
            old(self).wf(),
        ensures
            final(self).wf(),
            final(self).filters() == old(self).filters(),
            final(self).vars() == old(self).vars(),
            (final(self).mode(), r@) == step(old(self).filters(), old(self).vars(), old(self).mode(), c),
    {
        let out = self.step_exec(c);
        string_of(&out)
    }

    fn step_exec(&mut self, c: char) -> (r: Vec<char>)
        requires
            old(self).wf(),
        ensures
            final(self).wf(),
            final(self).starts == old(self).starts,
            final(self).ends == old(self).ends,
            final(self).var_names == old(self).var_names,
            final(self).var_values == old(self).var_values,
            (final(self).mode(), r@) == step(old(self).filters(), old(self).vars(), old(self).mode(), c),
    {
        let mut st = FsmState::Normal;
        std::mem::swap(&mut st, &mut self.state);
        let (next, out) = match st {
            FsmState::Normal => self.step_normal(c),
            FsmState::Buffering { buffer } => self.step_buffering(buffer, c),
            FsmState::VariableBuffering { var_name_buffer } => self.step_variable(var_name_buffer, c),
            FsmState::Filtering { filter_index, end_match_buffer } => self.step_filtering(
                filter_index,
                end_match_buffer,
                c,
            ),
        };
        self.state = next;
        out
    }

    fn step_normal(&self, c: char) -> (r: (FsmState, Vec<char>))
        requires
            self.wf(),
        ensures
            (r.0.model(), r.1@) == step(self.filters(), self.vars(), Mode::Normal, c),
            r.0 matches FsmState::Filtering { filter_index, .. } ==> filter_index < self.starts.len(),
    {
        let s = vec![c];
        assert(s@ =~= seq![c]);
        assert(s@.subrange(0, 1) =~= s@);
        if self.is_special_prefix_from(&s, 0) {
            (self.enter_exec(s), Vec::new())
        } else {
            (FsmState::Normal, s)
        }
    }

    fn step_buffering(&self, buffer: Vec<char>, c: char) -> (r: (FsmState, Vec<char>))
        requires
            self.wf(),
        ensures
            (r.0.model(), r.1@) == step(self.filters(), self.vars(), Mode::Buffering(buffer@), c),
            r.0 matches FsmState::Filtering { filter_index, .. } ==> filter_index < self.starts.len(),
    {
        let ghost f = self.filters();
        let mut temp = buffer;
        temp.push(c);
        assert(temp@ == buffer@.push(c));
        assert(temp@.subrange(0, temp@.len() as int) =~= temp@);
        if self.is_special_prefix_from(&temp, 0) {
            return (self.enter_exec(temp), Vec::new());
        }
        let mut k: usize = 1;
        let mut found = false;
        while k < temp.len() && !found
            invariant
                self.wf(),
                self.filters() == f,
                1 <= k <= temp.len(),
                first_special_suffix(f, temp@, 1) == first_special_suffix(f, temp@, k as int),
                found ==> k < temp.len() && is_special_prefix(
                    f,
                    temp@.subrange(k as int, temp@.len() as int),
                ),
            decreases temp.len() - k, if found { 0int } else { 1int },
        {
            if self.is_special_prefix_from(&temp, k) {
                found = true;
            } else {
                k = k + 1;
            }
        }
        if found {
            assert(first_special_suffix(f, temp@, 1) == Some(k as int));
            let mut head: Vec<char> = Vec::new();
            let mut tail: Vec<char> = Vec::new();
            let mut q: usize = 0;
            while q < temp.len()
                invariant
                    k <= temp.len(),
                    q <= temp.len(),
                    head@ == temp@.subrange(0, if q < k { q as int } else { k as int }),
                    tail@ == temp@.subrange(k as int, if q < k { k as int } else { q as int }),
                decreases temp.len() - q,
            {
                if q < k {
                    head.push(temp[q]);
                } else {
                    tail.push(temp[q]);
                }
                q = q + 1;
                assert(head@ =~= temp@.subrange(0, if q < k { q as int } else { k as int }));
                assert(tail@ =~= temp@.subrange(k as int, if q < k { k as int } else { q as int }));
            }
            (self.enter_exec(tail), head)
        } else {
            assert(first_special_suffix(f, temp@, k as int) is None);
            (FsmState::Normal, temp)
        }
    }

    fn step_variable(&self, var_name_buffer: Vec<char>, c: char) -> (r: (FsmState, Vec<char>))
        requires
            self.wf(),
        ensures
            (r.0.model(), r.1@) == step(self.filters(), self.vars(), Mode::Variable(var_name_buffer@), c),
            r.0 matches FsmState::Filtering { filter_index, .. } ==> filter_index < self.starts.len(),
    {
        let mut temp = var_name_buffer;
        temp.push(c);
        assert(temp@ == var_name_buffer@.push(c));
        let n = temp.len();
        if n >= 2 && temp[n - 2] == '}' && temp[n - 1] == '}' {
            assert(temp@.subrange(n - 2, n as int) =~= close_braces());
            let mut name: Vec<char> = Vec::new();
            let mut q: usize = 0;
            while q < n - 2
                invariant
                    n == temp.len(),
                    n >= 2,
                    q <= n - 2,
                    name@ == temp@.subrange(0, q as int),
                decreases n - 2 - q,
            {
                name.push(temp[q]);
                q = q + 1;
                assert(name@ =~= temp@.subrange(0, q as int));
            }
            let (a, b) = trim_bounds(&name, 0, name.len());
            assert(name@.subrange(0, name@.len() as int) =~= name@);
            let mut trimmed: Vec<char> = Vec::new();
            let mut z = a;
            while z < b
                invariant
                    a <= z <= b <= name.len(),
                    trimmed@ == name@.subrange(a as int, z as int),
                decreases b - z,
            {
                trimmed.push(name[z]);
                z = z + 1;
                assert(trimmed@ =~= name@.subrange(a as int, z as int));
            }
            match self.lookup_var_exec(&trimmed) {
                Some(v) => (FsmState::Normal, v),
                None => {
                    let mut o = vec!['{', '{'];
                    assert(o@ =~= open_braces() + name@.subrange(0, 0));
                    let mut q2: usize = 0;
                    while q2 < name.len()
                        invariant
                            q2 <= name.len(),
                            o@ == open_braces() + name@.subrange(0, q2 as int),
                        decreases name.len() - q2,
                    {
                        o.push(name[q2]);
                        q2 = q2 + 1;
                        assert(o@ =~= open_braces() + name@.subrange(0, q2 as int));
                    }
                    o.push('}');
                    o.push('}');
                    assert(o@ =~= open_braces() + name@ + close_braces());
                    (FsmState::Normal, o)
                },
            }
        } else {
            assert(!ends_with(temp@, close_braces())) by {
                if ends_with(temp@, close_braces()) {
                    assert(temp@.subrange(n - 2, n as int)[0] == temp@[n - 2]);
                    assert(temp@.subrange(n - 2, n as int)[1] == temp@[n - 1]);
                }
            }
            let mut valid = true;
            let mut q: usize = 0;
            while q < n
                invariant
                    n == temp.len(),
                    q <= n,
                    valid <==> forall|j: int| 0 <= j < q ==> is_var_char(#[trigger] temp@[j]),
                decreases n - q,
            {
                let ch = temp[q];
                let ok = char_is_alphanumeric(ch) || ch == '_' || ch == ' ' || ch == '}';
                if !ok {
                    valid = false;
                }
                q = q + 1;
            }
            if !valid || utf8_len_exceeds(&temp, 64) {
                let mut o = vec!['{', '{'];
                assert(o@ =~= open_braces() + temp@.subrange(0, 0));
                let mut q2: usize = 0;
                while q2 < n
                    invariant
                        n == temp.len(),
                        q2 <= n,
                        o@ == open_braces() + temp@.subrange(0, q2 as int),
                    decreases n - q2,
                {
                    o.push(temp[q2]);
                    q2 = q2 + 1;
                    assert(o@ =~= open_braces() + temp@.subrange(0, q2 as int));
                }
                assert(temp@.subrange(0, n as int) =~= temp@);
                (FsmState::Normal, o)
            } else {
                (FsmState::VariableBuffering { var_name_buffer: temp }, Vec::new())
            }
        }
    }

    fn step_filtering(&self, filter_index: usize, end_match_buffer: Vec<char>, c: char) -> (r: (
        FsmState,
        Vec<char>,
    ))
        requires
            self.wf(),
            filter_index < self.starts.len(),
        ensures
            (r.0.model(), r.1@) == step(
                self.filters(),
                self.vars(),
                Mode::Filtering(filter_index as int, end_match_buffer@),
                c,
            ),
            r.0 matches FsmState::Filtering { filter_index, .. } ==> filter_index < self.starts.len(),
    {
        let mut temp = end_match_buffer;
        temp.push(c);
        assert(temp@ == end_match_buffer@.push(c));
        let end = &self.ends[filter_index];
        assert(self.filters()[filter_index as int].1 == end@);
        if ends_with_exec(&temp, end) {
            (FsmState::Normal, Vec::new())
        } else if temp.len() > end.len() {
            let skip = temp.len() - end.len();
            let mut kept: Vec<char> = Vec::new();
            let mut q = skip;
            while q < temp.len()
                invariant
                    skip <= q <= temp.len(),
                    kept@ == temp@.subrange(skip as int, q as int),
                decreases temp.len() - q,
            {
                kept.push(temp[q]);
                q = q + 1;
                assert(kept@ =~= temp@.subrange(skip as int, q as int));
            }
            (FsmState::Filtering { filter_index, end_match_buffer: kept }, Vec::new())
        } else {
            (FsmState::Filtering { filter_index, end_match_buffer: temp }, Vec::new())
        }
    }

    /// A chunk of text through the machine; returns the cleaned text.
    pub fn process_chunk(&mut self, chunk: &str) -> (r: String)
        requires
            old(self).wf(),
        ensures
            final(self).wf(),
            final(self).filters() == old(self).filters(),
            final(self).vars() == old(self).vars(),
            (final(self).mode(), r@) == run(old(self).filters(), old(self).vars(), old(self).mode(), chunk@),
    {
        let cs = chars_of(chunk);
        let ghost f = self.filters();
        let ghost vars = self.vars();
        let ghost m0 = self.mode();
        let mut out: Vec<char> = Vec::new();
        let mut i: usize = 0;
        assert(cs@.subrange(0, 0) =~= Seq::<char>::empty());
        while i < cs.len()
            invariant
                self.wf(),
                self.filters() == f,
                self.vars() == vars,
                i <= cs.len(),
                (self.mode(), out@) == run(f, vars, m0, cs@.subrange(0, i as int)),
            decreases cs.len() - i,
        {
            let piece = self.step_exec(cs[i]);
            assert(self.filters() =~= f);
            assert(self.vars() =~= vars);
            assert(cs@.subrange(0, i + 1).drop_last() =~= cs@.subrange(0, i as int));
            assert(cs@.subrange(0, i + 1).last() == cs@[i as int]);
            let mut q: usize = 0;
            let ghost out0 = out@;
            while q < piece.len()
                invariant
                    q <= piece.len(),
                    out@ == out0 + piece@.subrange(0, q as int),
                decreases piece.len() - q,
            {
                out.push(piece[q]);
                q = q + 1;
                assert(out@ =~= out0 + piece@.subrange(0, q as int));
            }
            assert(piece@.subrange(0, piece@.len() as int) =~= piece@);
            i = i + 1;
        }
        assert(cs@.subrange(0, cs@.len() as int) =~= cs@);
        string_of(&out)
    }

    /// Ends the stream: returns what is still held and resets to normal mode.
    pub fn finish(&mut self) -> (r: String)
        requires
            old(self).wf(),
        ensures
            final(self).wf(),
            final(self).filters() == old(self).filters(),
            final(self).vars() == old(self).vars(),
            final(self).mode() == Mode::Normal,
            r@ == flush(old(self).mode()),
    {
        let mut st = FsmState::Normal;
        std::mem::swap(&mut st, &mut self.state);
        match st {
            FsmState::Normal => String::new(),
            FsmState::Buffering { buffer } => string_of(&buffer),
            FsmState::VariableBuffering { var_name_buffer } => {
                let mut s = String::new();
                push_char(&mut s, '{');
                push_char(&mut s, '{');
                push_chars(&mut s, &var_name_buffer);
                assert(s@ =~= open_braces() + var_name_buffer@);
                s
            },
            FsmState::Filtering { .. } => String::new(),
        }
    }
}

} // verus!
