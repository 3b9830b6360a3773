//! Character-level text utilities shared by the parsers and prompt builders.
//!
//! Text is modelled as `Seq<char>` (the view of `str` / `String`); the
//! executable helpers work on `Vec<char>` and convert at the edges.
use vstd::prelude::*;
use vstd::std_specs::iter::IteratorSpec;

verus! {

broadcast use vstd::string::group_string_axioms;

// ---------------------------------------------------------------------------
// Names for what std's Unicode character classes return.
// ---------------------------------------------------------------------------

/// Whether `c` has the Unicode `White_Space` property, which is what
/// `char::is_whitespace` tests and what `str::trim` strips: U+0009–U+000D,
/// U+0020, U+0085, U+00A0, U+1680, U+2000–U+200A, U+2028, U+2029, U+202F,
/// U+205F and U+3000.
pub open spec fn is_white_space(c: char) -> bool {
    let u = c as u32;
    (0x09 <= u && u <= 0x0D) || u == 0x20 || u == 0x85 || u == 0xA0 || u == 0x1680 || (0x2000 <= u
        && u <= 0x200A) || u == 0x2028 || u == 0x2029 || u == 0x202F || u == 0x205F || u == 0x3000
}

/// Whether a character beyond ASCII is Unicode alphabetic or numeric (what
/// `char::is_alphanumeric` returns for it).
pub uninterp spec fn non_ascii_alphanumeric(c: char) -> bool;

/// Whether `c` is Unicode alphabetic or numeric (what `char::is_alphanumeric`
/// returns): within ASCII exactly the letters and the digits.
pub open spec fn is_alphanumeric(c: char) -> bool {
    if (c as u32) < 0x80 {
        ('a' <= c && c <= 'z') || ('A' <= c && c <= 'Z') || ('0' <= c && c <= '9')
    } else {
        non_ascii_alphanumeric(c)
    }
}

/// Calls `char::is_whitespace`. The contract claims that the result is
/// `is_white_space(c)`: std documents the method as testing the Unicode
/// `White_Space` property, whose code points that spec function lists.
#[verifier::external_body]
pub(crate) fn char_is_whitespace(c: char) -> (r: bool)
    ensures
        r == is_white_space(c),
{
    c.is_whitespace()
}

/// Calls `char::is_alphanumeric`. The contract claims that the result is
/// `is_alphanumeric(c)`: std documents the method as `is_alphabetic() ||
/// is_numeric()`, which within ASCII holds of the letters and the digits
/// alone; beyond ASCII, which characters it holds of is left to std.
#[verifier::external_body]
pub(crate) fn char_is_alphanumeric(c: char) -> (r: bool)
    ensures
        r == is_alphanumeric(c),
        (c as u32) >= 0x80 ==> r == non_ascii_alphanumeric(c),
{
    c.is_alphanumeric()
}

/// Calls `String::push`: the contract claims that `c` is appended to the string.
#[verifier::external_body]
pub(crate) fn push_char(s: &mut String, c: char)
    ensures
        final(s)@ == old(s)@.push(c),
{
    s.push(c);
}

// ---------------------------------------------------------------------------
// Conversions
// ---------------------------------------------------------------------------

/// The characters of `s`, in order.
pub fn chars_of(s: &str) -> (r: Vec<char>)
    ensures
        r@ == s@,
{
    let mut out: Vec<char> = Vec::new();
    for c in it: s.chars()
        invariant
            out@ == it.seq().take(it.index()),
            it.seq() == s@,
    {
        out.push(c);
    }
    out
}

/// Appends the characters `cs[from..to]` to `s`.
pub(crate) fn push_chars_range(s: &mut String, cs: &Vec<char>, from: usize, to: usize)
    requires
        from <= to <= cs.len(),
    ensures
        final(s)@ == old(s)@ + cs@.subrange(from as int, to as int),
{
    let mut i = from;
    while i < to
        invariant
            from <= i <= to <= cs.len(),
            s@ == old(s)@ + cs@.subrange(from as int, i as int),
        decreases to - i,
    {
        push_char(s, cs[i]);
        i = i + 1;
        assert(cs@.subrange(from as int, i as int) =~= cs@.subrange(from as int, i - 1).push(
            cs@[i - 1],
        ));
    }
}

/// Appends all characters of `cs` to `s`.
pub(crate) fn push_chars(s: &mut String, cs: &Vec<char>)
    ensures
        final(s)@ == old(s)@ + cs@,
{
    push_chars_range(s, cs, 0, cs.len());
    assert(cs@.subrange(0, cs@.len() as int) =~= cs@);
}

/// Appends the text of `t` to `s`.
pub fn push_str(s: &mut String, t: &str)
    ensures
        final(s)@ == old(s)@ + t@,
{
    let cs = chars_of(t);
    push_chars(s, &cs);
}

/// A string holding exactly the characters of `cs`.
pub fn string_of(cs: &Vec<char>) -> (r: String)
    ensures
        r@ == cs@,
{
    let mut s = String::new();
    push_chars(&mut s, cs);
    assert(Seq::<char>::empty() + cs@ =~= cs@);
    s
}

/// A string holding exactly the characters of `cs[from..to]`.
pub fn string_of_range(cs: &Vec<char>, from: usize, to: usize) -> (r: String)
    requires
        from <= to <= cs.len(),
    ensures
        r@ == cs@.subrange(from as int, to as int),
{
    let mut s = String::new();
    push_chars_range(&mut s, cs, from, to);
    assert(Seq::<char>::empty() + cs@.subrange(from as int, to as int) =~= cs@.subrange(
        from as int,
        to as int,
    ));
    s
}

/// A copy of `t` as an owned string.
pub fn string_from(t: &str) -> (r: String)
    ensures
        r@ == t@,
{
    let cs = chars_of(t);
    string_of(&cs)
}

// ---------------------------------------------------------------------------
// Sequence predicates
// ---------------------------------------------------------------------------

/// `p` is a prefix of `s`.
pub open spec fn starts_with(s: Seq<char>, p: Seq<char>) -> bool {
    p.len() <= s.len() && s.subrange(0, p.len() as int) == p
}

/// `p` is a suffix of `s`.
pub open spec fn ends_with(s: Seq<char>, p: Seq<char>) -> bool {
    p.len() <= s.len() && s.subrange(s.len() - p.len(), s.len() as int) == p
}

/// `p` occurs in `s` starting at position `i`.
pub open spec fn occurs_at(s: Seq<char>, p: Seq<char>, i: int) -> bool {
    0 <= i && i + p.len() <= s.len() && s.subrange(i, i + p.len()) == p
}

/// The first position at or after `i` where `p` occurs in `s`.
pub open spec fn find_from(s: Seq<char>, p: Seq<char>, i: int) -> Option<int>
    decreases s.len() + 1 - i,
{
    if i < 0 || i + p.len() > s.len() {
        None
    } else if occurs_at(s, p, i) {
        Some(i)
    } else {
        find_from(s, p, i + 1)
    }
}

/// `p` occurs somewhere in `s`.
pub open spec fn contains_seq(s: Seq<char>, p: Seq<char>) -> bool {
    find_from(s, p, 0) is Some
}

pub proof fn lemma_find_from_bounds(s: Seq<char>, p: Seq<char>, i: int)
    requires
        0 <= i,
    ensures
        find_from(s, p, i) matches Some(j) ==> (i <= j && occurs_at(s, p, j) && forall|k: int|
            i <= k < j ==> !occurs_at(s, p, k)),
        find_from(s, p, i) is None ==> forall|k: int| i <= k ==> !occurs_at(s, p, k),
    decreases s.len() + 1 - i,
{
    if i + p.len() > s.len() {
    } else if occurs_at(s, p, i) {
    } else {
        lemma_find_from_bounds(s, p, i + 1);
    }
}

/// Whether `cs[i..]` begins with `p`.
pub fn occurs_at_exec(cs: &Vec<char>, p: &Vec<char>, i: usize) -> (r: bool)
    ensures
        r == occurs_at(cs@, p@, i as int),
{
    if i > cs.len() || p.len() > cs.len() - i {
        return false;
    }
    let mut k: usize = 0;
    while k < p.len()
        invariant
            i + p.len() <= cs.len(),
            k <= p.len(),
            forall|j: int| 0 <= j < k ==> cs@[i + j] == p@[j],
        decreases p.len() - k,
    {
        if cs[i + k] != p[k] {
            assert(cs@.subrange(i as int, i + p.len())[k as int] != p@[k as int]);
            return false;
        }
        k = k + 1;
    }
    assert(cs@.subrange(i as int, i + p.len()) =~= p@);
    true
}

/// The first position at or after `from` where `p` occurs in `cs`.
pub fn find_from_exec(cs: &Vec<char>, p: &Vec<char>, from: usize) -> (r: Option<usize>)
    ensures
        r matches Some(j) ==> find_from(cs@, p@, from as int) == Some(j as int),
        r is None ==> find_from(cs@, p@, from as int) is None,
{
    let mut i = from;
    loop
        invariant
            from <= i,
            find_from(cs@, p@, from as int) == find_from(cs@, p@, i as int),
        decreases cs.len() + 1 - i,
    {
        if i > cs.len() || p.len() > cs.len() - i {
            return None;
        }
        if occurs_at_exec(cs, p, i) {
            return Some(i);
        }
        if i == cs.len() {
            assert(find_from(cs@, p@, i as int + 1) is None);
            return None;
        }
        i = i + 1;
    }
}

/// Whether `cs` begins with `p`.
pub fn starts_with_exec(cs: &Vec<char>, p: &Vec<char>) -> (r: bool)
    ensures
        r == starts_with(cs@, p@),
{
    let r = occurs_at_exec(cs, p, 0);
    r
}

/// Whether `cs` ends with `p`.
pub fn ends_with_exec(cs: &Vec<char>, p: &Vec<char>) -> (r: bool)
    ensures
        r == ends_with(cs@, p@),
{
    if p.len() > cs.len() {
        return false;
    }
    let r = occurs_at_exec(cs, p, cs.len() - p.len());
    r
}

/// Whether two character vectors hold the same text.
pub fn chars_eq(a: &Vec<char>, b: &Vec<char>) -> (r: bool)
    ensures
        r == (a@ == b@),
{
    if a.len() != b.len() {
        return false;
    }
    let r = occurs_at_exec(a, b, 0);
    assert(a@.subrange(0, b@.len() as int) =~= a@);
    r
}

/// Whether the text `s` equals `cs`.
pub fn str_eq_chars(s: &str, cs: &Vec<char>) -> (r: bool)
    ensures
        r == (s@ == cs@),
{
    let v = chars_of(s);
    chars_eq(&v, cs)
}

// ---------------------------------------------------------------------------
// Trimming (Unicode `White_Space`, as `str::trim` does)
// ---------------------------------------------------------------------------

/// Number of leading whitespace characters of `s`.
pub open spec fn lead_ws(s: Seq<char>) -> nat
    decreases s.len(),
{
    if s.len() > 0 && is_white_space(s[0]) {
        1 + lead_ws(s.drop_first())
    } else {
        0
    }
}

/// Number of trailing whitespace characters of `s`.
pub open spec fn trail_ws(s: Seq<char>) -> nat
    decreases s.len(),
{
    if s.len() > 0 && is_white_space(s.last()) {
        1 + trail_ws(s.drop_last())
    } else {
        0
    }
}

/// `s` without leading whitespace (`str::trim_start`).
pub open spec fn trim_start(s: Seq<char>) -> Seq<char> {
    s.subrange(lead_ws(s) as int, s.len() as int)
}

/// `s` without trailing whitespace (`str::trim_end`).
pub open spec fn trim_end(s: Seq<char>) -> Seq<char> {
    s.subrange(0, s.len() - trail_ws(s))
}

/// `s` without leading and trailing whitespace (`str::trim`).
pub open spec fn trim(s: Seq<char>) -> Seq<char> {
    trim_end(trim_start(s))
}

pub proof fn lemma_lead_ws(s: Seq<char>)
    ensures
        lead_ws(s) <= s.len(),
        forall|i: int| 0 <= i < lead_ws(s) ==> is_white_space(#[trigger] s[i]),
        lead_ws(s) < s.len() ==> !is_white_space(s[lead_ws(s) as int]),
    decreases s.len(),
{
    if s.len() > 0 && is_white_space(s[0]) {
        lemma_lead_ws(s.drop_first());
        assert forall|i: int| 0 <= i < lead_ws(s) implies is_white_space(#[trigger] s[i]) by {
            if i > 0 {
                assert(s[i] == s.drop_first()[i - 1]);
            }
        }
    }
}

pub proof fn lemma_trail_ws(s: Seq<char>)
    ensures
        trail_ws(s) <= s.len(),
        forall|i: int| s.len() - trail_ws(s) <= i < s.len() ==> is_white_space(#[trigger] s[i]),
        trail_ws(s) < s.len() ==> !is_white_space(s[s.len() - trail_ws(s) - 1]),
    decreases s.len(),
{
    if s.len() > 0 && is_white_space(s.last()) {
        lemma_trail_ws(s.drop_last());
        assert forall|i: int| s.len() - trail_ws(s) <= i < s.len() implies is_white_space(
            #[trigger] s[i],
        ) by {
            if i < s.len() - 1 {
                assert(s[i] == s.drop_last()[i]);
            }
        }
    }
}

/// The first index of `cs[from..to]` that is not whitespace (or `to`).
pub fn skip_ws_forward(cs: &Vec<char>, from: usize, to: usize) -> (r: usize)
    requires
        from <= to <= cs.len(),
    ensures
        from <= r <= to,
        r == from + lead_ws(cs@.subrange(from as int, to as int)),
{
    let mut i = from;
    while i < to && char_is_whitespace(cs[i])
        invariant
            from <= i <= to <= cs.len(),
            lead_ws(cs@.subrange(from as int, to as int)) == (i - from) + lead_ws(
                cs@.subrange(i as int, to as int),
            ),
        decreases to - i,
    {
        assert(cs@.subrange(i + 1, to as int) =~= cs@.subrange(i as int, to as int).drop_first());
        i = i + 1;
    }
    i
}

/// One past the last index of `cs[from..to]` that is not whitespace (or `from`).
pub fn skip_ws_backward(cs: &Vec<char>, from: usize, to: usize) -> (r: usize)
    requires
        from <= to <= cs.len(),
    ensures
        from <= r <= to,
        r == to - trail_ws(cs@.subrange(from as int, to as int)),
{
    let mut j = to;
    while j > from && char_is_whitespace(cs[j - 1])
        invariant
            from <= j <= to <= cs.len(),
            trail_ws(cs@.subrange(from as int, to as int)) == (to - j) + trail_ws(
                cs@.subrange(from as int, j as int),
            ),
        decreases j - from,
    {
        assert(cs@.subrange(from as int, j - 1) =~= cs@.subrange(from as int, j as int).drop_last());
        j = j - 1;
    }
    j
}

/// The bounds `(a, b)` of `trim(cs[from..to])` inside `cs`.
pub fn trim_bounds(cs: &Vec<char>, from: usize, to: usize) -> (r: (usize, usize))
    requires
        from <= to <= cs.len(),
    ensures
        from <= r.0 <= r.1 <= to,
        cs@.subrange(r.0 as int, r.1 as int) == trim(cs@.subrange(from as int, to as int)),
{
    let a = skip_ws_forward(cs, from, to);
    let b = skip_ws_backward(cs, a, to);
    proof {
        let s = cs@.subrange(from as int, to as int);
        lemma_lead_ws(s);
        assert(trim_start(s) =~= cs@.subrange(a as int, to as int));
        lemma_trail_ws(cs@.subrange(a as int, to as int));
        assert(cs@.subrange(a as int, b as int) =~= trim_end(trim_start(s)));
    }
    (a, b)
}

/// `trim(s)` as an owned string.
pub fn trim_string(s: &str) -> (r: String)
    ensures
        r@ == trim(s@),
{
    let cs = chars_of(s);
    let (a, b) = trim_bounds(&cs, 0, cs.len());
    assert(cs@.subrange(0, cs@.len() as int) =~= cs@);
    string_of_range(&cs, a, b)
}

// ---------------------------------------------------------------------------
// UTF-8 byte lengths
// ---------------------------------------------------------------------------

/// The number of bytes that UTF-8 uses for `c`.
pub open spec fn utf8_width(c: char) -> nat {
    if (c as u32) < 0x80 {
        1
    } else if (c as u32) < 0x800 {
        2
    } else if (c as u32) < 0x10000 {
        3
    } else {
        4
    }
}

/// The number of bytes that UTF-8 uses for `s`.
pub open spec fn utf8_len(s: Seq<char>) -> nat
    decreases s.len(),
{
    if s.len() == 0 {
        0
    } else {
        utf8_len(s.drop_last()) + utf8_width(s.last())
    }
}

/// `utf8_width(c)` computed.
pub fn utf8_width_exec(c: char) -> (r: usize)
    ensures
        r == utf8_width(c),
{
    let v = c as u32;
    if v < 0x80 {
        1
    } else if v < 0x800 {
        2
    } else if v < 0x10000 {
        3
    } else {
        4
    }
}

/// Whether `utf8_len(cs) > bound`.
pub fn utf8_len_exceeds(cs: &Vec<char>, bound: usize) -> (r: bool)
    requires
        bound < usize::MAX - 4,
    ensures
        r == (utf8_len(cs@) > bound),
{
    let mut total: usize = 0;
    let mut i: usize = 0;
    while i < cs.len()
        invariant
            i <= cs.len(),
            total == utf8_len(cs@.subrange(0, i as int)),
            total <= bound,
            bound < usize::MAX - 4,
        decreases cs.len() - i,
    {
        assert(cs@.subrange(0, i + 1).drop_last() =~= cs@.subrange(0, i as int));
        total = total + utf8_width_exec(cs[i]);
        i = i + 1;
        if total > bound {
            proof { lemma_utf8_len_prefix_mono(cs@, i as int); }
            return true;
        }
    }
    assert(cs@.subrange(0, cs.len() as int) =~= cs@);
    false
}

pub proof fn lemma_utf8_len_prefix_mono(s: Seq<char>, i: int)
    requires
        0 <= i <= s.len(),
    ensures
        utf8_len(s.subrange(0, i)) <= utf8_len(s),
    decreases s.len() - i,
{
    if i < s.len() {
        lemma_utf8_len_prefix_mono(s, i + 1);
        assert(s.subrange(0, i + 1).drop_last() =~= s.subrange(0, i));
    } else {
        assert(s.subrange(0, i) =~= s);
    }
}

// ---------------------------------------------------------------------------
// Sub-sequences, lines and pieces
// ---------------------------------------------------------------------------

/// The characters `cs[from..to]` as a vector of their own.
pub fn sub_chars(cs: &Vec<char>, from: usize, to: usize) -> (r: Vec<char>)
    requires
        from <= to <= cs.len(),
    ensures
        r@ == cs@.subrange(from as int, to as int),
{
    let mut out: Vec<char> = Vec::new();
    let mut i = from;
    while i < to
        invariant
            from <= i <= to <= cs.len(),
            out@ == cs@.subrange(from as int, i as int),
        decreases to - i,
    {
        out.push(cs[i]);
        i = i + 1;
        assert(out@ =~= cs@.subrange(from as int, i as int));
    }
    out
}

/// The text of each vector, in order.
pub open spec fn views(v: Seq<Vec<char>>) -> Seq<Seq<char>> {
    v.map_values(|x: Vec<char>| x@)
}

/// The text of each string, in order.
pub open spec fn string_views(v: Seq<String>) -> Seq<Seq<char>> {
    v.map_values(|x: String| x@)
}

/// `s` without one trailing carriage return, if it ends with one.
pub open spec fn strip_cr(s: Seq<char>) -> Seq<char> {
    if s.len() > 0 && s.last() == '\r' {
        s.drop_last()
    } else {
        s
    }
}

/// The first index at or after `i` that holds a line feed, or `s.len()`.
pub open spec fn next_newline(s: Seq<char>, i: int) -> int
    decreases s.len() - i,
{
    if i < 0 || i >= s.len() {
        s.len() as int
    } else if s[i] == '\n' {
        i
    } else {
        next_newline(s, i + 1)
    }
}

/// The lines of `s[i..]`, as `str::lines` yields them: the pieces between line
/// feeds, without an empty piece after a final line feed, and with one carriage
/// return removed where it stands right before a line feed.
pub open spec fn lines_from(s: Seq<char>, i: int) -> Seq<Seq<char>>
    decreases s.len() - i,
{
    if i < 0 || i >= s.len() {
        Seq::empty()
    } else {
        let j = next_newline(s, i);
        if j < s.len() {
            proof {
                lemma_next_newline(s, i);
            }
            seq![strip_cr(s.subrange(i, j))] + lines_from(s, j + 1)
        } else {
            seq![s.subrange(i, s.len() as int)]
        }
    }
}

/// The lines of `s` (`str::lines`).
pub open spec fn lines_of(s: Seq<char>) -> Seq<Seq<char>> {
    lines_from(s, 0)
}

pub proof fn lemma_next_newline(s: Seq<char>, i: int)
    requires
        0 <= i <= s.len(),
    ensures
        i <= next_newline(s, i) <= s.len(),
        next_newline(s, i) < s.len() ==> s[next_newline(s, i)] == '\n',
        forall|k: int| i <= k < next_newline(s, i) ==> s[k] != '\n',
    decreases s.len() - i,
{
    if i < s.len() && s[i] != '\n' {
        lemma_next_newline(s, i + 1);
    }
}

/// The lines of `cs` (`str::lines`).
pub fn split_lines(cs: &Vec<char>) -> (r: Vec<Vec<char>>)
    ensures
        views(r@) == lines_of(cs@),
{
    let mut out: Vec<Vec<char>> = Vec::new();
    let mut i: usize = 0;
    let mut start: usize = 0;
    while start < cs.len()
        invariant
            start <= cs.len(),
            views(out@) + lines_from(cs@, start as int) == lines_of(cs@),
        decreases cs.len() - start,
    {
        i = start;
        while i < cs.len() && cs[i] != '\n'
            invariant
                start <= i <= cs.len(),
                next_newline(cs@, start as int) == next_newline(cs@, i as int),
            decreases cs.len() - i,
        {
            i = i + 1;
        }
        let ghost old_out = views(out@);
        if i < cs.len() {
            let mut end = i;
            if end > start && cs[end - 1] == '\r' {
                end = end - 1;
            }
            let line = sub_chars(cs, start, end);
            proof {
                assert(line@ == strip_cr(cs@.subrange(start as int, i as int)));
            }
            out.push(line);
            proof {
                assert(views(out@) =~= old_out.push(line@));
                assert(lines_from(cs@, start as int) == seq![line@] + lines_from(cs@, i + 1));
                assert(old_out + (seq![line@] + lines_from(cs@, i + 1)) =~= old_out.push(line@)
                    + lines_from(cs@, i + 1));
            }
            start = i + 1;
        } else {
            let line = sub_chars(cs, start, cs.len());
            out.push(line);
            proof {
                assert(views(out@) =~= old_out.push(line@));
                assert(lines_from(cs@, start as int) == seq![line@]);
                assert(lines_from(cs@, cs.len() as int) =~= Seq::<Seq<char>>::empty());
                assert(old_out + seq![line@] =~= old_out.push(line@) + lines_from(
                    cs@,
                    cs.len() as int,
                ));
            }
            start = cs.len();
        }
    }
    proof {
        assert(lines_from(cs@, start as int) =~= Seq::<Seq<char>>::empty());
        assert(views(out@) + Seq::<Seq<char>>::empty() =~= views(out@));
    }
    out
}

/// The pieces of `s` between the separator characters `seps`, as `str::split`
/// with a set of characters yields them (`n` separators give `n + 1` pieces).
pub open spec fn split_by(s: Seq<char>, seps: Seq<char>) -> Seq<Seq<char>>
    decreases s.len(),
{
    if s.len() == 0 {
        seq![Seq::empty()]
    } else {
        let p = split_by(s.drop_last(), seps);
        if seps.contains(s.last()) {
            p.push(Seq::empty())
        } else {
            p.update(p.len() - 1, p.last().push(s.last()))
        }
    }
}

pub proof fn lemma_split_by_len(s: Seq<char>, seps: Seq<char>)
    ensures
        split_by(s, seps).len() >= 1,
    decreases s.len(),
{
    if s.len() > 0 {
        lemma_split_by_len(s.drop_last(), seps);
    }
}

/// Whether `c` is one of `seps`.
pub fn char_in(c: char, seps: &Vec<char>) -> (r: bool)
    ensures
        r == seps@.contains(c),
{
    let mut i: usize = 0;
    while i < seps.len()
        invariant
            i <= seps.len(),
            forall|k: int| 0 <= k < i ==> seps@[k] != c,
        decreases seps.len() - i,
    {
        if seps[i] == c {
            assert(seps@[i as int] == c);
            return true;
        }
        i = i + 1;
    }
    false
}

/// The pieces of `cs` between the separator characters `seps` (`str::split`).
pub fn split_chars(cs: &Vec<char>, seps: &Vec<char>) -> (r: Vec<Vec<char>>)
    ensures
        views(r@) == split_by(cs@, seps@),
{
    let mut done: Vec<Vec<char>> = Vec::new();
    let mut cur: Vec<char> = Vec::new();
    let mut i: usize = 0;
    while i < cs.len()
        invariant
            i <= cs.len(),
            views(done@).push(cur@) == split_by(cs@.subrange(0, i as int), seps@),
        decreases cs.len() - i,
    {
        let c = cs[i];
        let ghost before = views(done@).push(cur@);
        proof {
            assert(cs@.subrange(0, i + 1).drop_last() =~= cs@.subrange(0, i as int));
            lemma_split_by_len(cs@.subrange(0, i as int), seps@);
        }
        if char_in(c, seps) {
            let mut fresh: Vec<char> = Vec::new();
            std::mem::swap(&mut fresh, &mut cur);
            done.push(fresh);
            proof {
                assert(views(done@).push(cur@) =~= before.push(Seq::empty()));
            }
        } else {
            cur.push(c);
            proof {
                assert(views(done@).push(cur@) =~= before.update(
                    before.len() - 1,
                    before.last().push(c),
                ));
            }
        }
        i = i + 1;
    }
    done.push(cur);
    proof {
        assert(cs@.subrange(0, cs.len() as int) =~= cs@);
    }
    done
}

pub proof fn lemma_next_newline_shift(a: Seq<char>, b: Seq<char>, j: int)
    requires
        0 <= j <= b.len(),
    ensures
        next_newline(a + b, a.len() + j) == a.len() + next_newline(b, j),
    decreases b.len() - j,
{
    if j < b.len() {
        assert((a + b)[a.len() + j] == b[j]);
        if b[j] != '\n' {
            lemma_next_newline_shift(a, b, j + 1);
        }
    }
}

pub proof fn lemma_lines_shift(a: Seq<char>, b: Seq<char>, j: int)
    requires
        0 <= j <= b.len(),
    ensures
        lines_from(a + b, a.len() + j) == lines_from(b, j),
    decreases b.len() - j,
{
    if j < b.len() {
        lemma_next_newline_shift(a, b, j);
        lemma_next_newline(b, j);
        let k = next_newline(b, j);
        if k < b.len() {
            assert((a + b).subrange(a.len() + j, a.len() + k) =~= b.subrange(j, k));
            lemma_lines_shift(a, b, k + 1);
            assert(lines_from(a + b, a.len() + j) == seq![strip_cr(b.subrange(j, k))] + lines_from(
                a + b,
                a.len() + k + 1,
            ));
        } else {
            assert((a + b).subrange(a.len() + j, (a + b).len() as int) =~= b.subrange(
                j,
                b.len() as int,
            ));
        }
    }
}

proof fn lemma_lines_concat_from(a: Seq<char>, b: Seq<char>, i: int)
    requires
        0 <= i <= a.len(),
        a.len() == 0 || a.last() == '\n',
    ensures
        lines_from(a + b, i) == lines_from(a, i) + lines_from(b, 0),
    decreases a.len() - i,
{
    if i == a.len() {
        lemma_lines_shift(a, b, 0);
        assert(lines_from(a, i) =~= Seq::<Seq<char>>::empty());
        assert(lines_from(a, i) + lines_from(b, 0) =~= lines_from(b, 0));
    } else {
        lemma_next_newline(a, i);
        let k = next_newline(a, i);
        assert(k < a.len()) by {
            if k == a.len() {
                assert(a[a.len() - 1] == '\n');
            }
        }
        assert forall|t: int| i <= t <= k implies next_newline(a + b, t) == next_newline(a, t) by {
            lemma_next_newline_agree(a, b, t, k);
        }
        assert((a + b).subrange(i, k) =~= a.subrange(i, k));
        lemma_lines_concat_from(a, b, k + 1);
        assert(lines_from(a + b, i) == seq![strip_cr(a.subrange(i, k))] + lines_from(a + b, k + 1));
        assert(lines_from(a, i) == seq![strip_cr(a.subrange(i, k))] + lines_from(a, k + 1));
        assert(seq![strip_cr(a.subrange(i, k))] + (lines_from(a, k + 1) + lines_from(b, 0))
            =~= (seq![strip_cr(a.subrange(i, k))] + lines_from(a, k + 1)) + lines_from(b, 0));
    }
}

proof fn lemma_next_newline_agree(a: Seq<char>, b: Seq<char>, t: int, k: int)
    requires
        0 <= t <= k < a.len(),
        a[k] == '\n',
    ensures
        next_newline(a + b, t) == next_newline(a, t),
    decreases k - t,
{
    assert((a + b)[t] == a[t]);
    if a[t] != '\n' {
        lemma_next_newline_agree(a, b, t + 1, k);
    }
}

/// The lines of two texts, the first of which ends with a line feed (or is
/// empty), are the lines of each.
pub proof fn lemma_lines_concat(a: Seq<char>, b: Seq<char>)
    requires
        a.len() == 0 || a.last() == '\n',
    ensures
        lines_of(a + b) == lines_of(a) + lines_of(b),
{
    lemma_lines_concat_from(a, b, 0);
}

/// A text without line feeds, followed by one, is one line.
pub proof fn lemma_lines_single(l: Seq<char>)
    requires
        !l.contains('\n'),
    ensures
        lines_of(l + seq!['\n']) == seq![strip_cr(l)],
{
    let s = l + seq!['\n'];
    assert forall|t: int| 0 <= t <= l.len() implies next_newline(s, t) == l.len() by {
        lemma_next_newline_single(l, t);
    }
    assert(s.subrange(0, l.len() as int) =~= l);
    assert(lines_from(s, l.len() + 1int) =~= Seq::<Seq<char>>::empty());
    assert(seq![strip_cr(l)] + Seq::<Seq<char>>::empty() =~= seq![strip_cr(l)]);
}

proof fn lemma_next_newline_single(l: Seq<char>, t: int)
    requires
        !l.contains('\n'),
        0 <= t <= l.len(),
    ensures
        next_newline(l + seq!['\n'], t) == l.len(),
    decreases l.len() - t,
{
    let s = l + seq!['\n'];
    if t < l.len() {
        assert(s[t] == l[t]);
        assert(l[t] != '\n') by {
            if l[t] == '\n' {
                assert(l.contains('\n'));
            }
        }
        lemma_next_newline_single(l, t + 1);
    } else {
        assert(s[t] == '\n');
    }
}

// ---------------------------------------------------------------------------
// Decimal numbers
// ---------------------------------------------------------------------------

/// `c` is one of the ASCII digits `0`–`9`.
pub open spec fn is_ascii_digit(c: char) -> bool {
    '0' <= c && c <= '9'
}

/// The value of a run of ASCII digits, most significant first.
pub open spec fn digits_value(d: Seq<char>) -> nat
    decreases d.len(),
{
    if d.len() == 0 {
        0
    } else {
        digits_value(d.drop_last()) * 10 + ((d.last() as nat) - 48) as nat
    }
}

/// The ASCII digit for `d < 10`.
pub open spec fn digit_char(d: nat) -> char {
    ((48 + d) as u8) as char
}

/// The decimal representation of `n` (no sign, no leading zeros), as
/// `u32`'s `Display` writes it.
pub open spec fn decimal(n: nat) -> Seq<char>
    decreases n,
{
    if n < 10 {
        seq![digit_char(n)]
    } else {
        decimal(n / 10).push(digit_char(n % 10))
    }
}

/// Appends the decimal representation of `n` to `s`.
pub fn push_decimal(s: &mut String, n: u64)
    ensures
        final(s)@ == old(s)@ + decimal(n as nat),
    decreases n,
{
    if n >= 10 {
        push_decimal(s, n / 10);
    }
    let d: u8 = (n % 10) as u8;
    let c: char = (48u8 + d) as char;
    push_char(s, c);
    proof {
        if n >= 10 {
            assert(decimal(n as nat) == decimal((n / 10) as nat).push(digit_char((n % 10) as nat)));
        } else {
            assert(decimal(n as nat) == seq![digit_char(n as nat)]);
        }
    }
}


// ---------------------------------------------------------------------------
// Searching for one character; replacing every occurrence of a pattern
// ---------------------------------------------------------------------------

/// The first index at or after `i` that holds `c`, or `s.len()`.
pub open spec fn first_of(s: Seq<char>, c: char, i: int) -> int
    decreases s.len() - i,
{
    if i < 0 || i >= s.len() {
        s.len() as int
    } else if s[i] == c {
        i
    } else {
        first_of(s, c, i + 1)
    }
}

pub proof fn lemma_first_of(s: Seq<char>, c: char, i: int)
    requires
        0 <= i <= s.len(),
    ensures
        i <= first_of(s, c, i) <= s.len(),
        first_of(s, c, i) < s.len() ==> s[first_of(s, c, i)] == c,
        forall|k: int| i <= k < first_of(s, c, i) ==> s[k] != c,
    decreases s.len() - i,
{
    if i < s.len() && s[i] != c {
        lemma_first_of(s, c, i + 1);
    }
}

/// The first index at or after `from` that holds `c`, or `cs.len()`.
pub fn first_of_exec(cs: &Vec<char>, c: char, from: usize) -> (r: usize)
    requires
        from <= cs.len(),
    ensures
        r == first_of(cs@, c, from as int),
{
    let mut i = from;
    while i < cs.len() && cs[i] != c
        invariant
            from <= i <= cs.len(),
            first_of(cs@, c, from as int) == first_of(cs@, c, i as int),
        decreases cs.len() - i,
    {
        i = i + 1;
    }
    i
}

/// `s[i..]` with every occurrence of `p` replaced by `r`, scanning from the
/// left without overlaps, as `str::replace` does for a non-empty `p`.
pub open spec fn replace_from(s: Seq<char>, p: Seq<char>, r: Seq<char>, i: int) -> Seq<char>
    decreases s.len() - i,
{
    if i < 0 || i >= s.len() || p.len() == 0 {
        if 0 <= i <= s.len() {
            s.subrange(i, s.len() as int)
        } else {
            Seq::empty()
        }
    } else if occurs_at(s, p, i) {
        r + replace_from(s, p, r, i + p.len())
    } else {
        seq![s[i]] + replace_from(s, p, r, i + 1)
    }
}

/// Where no occurrence of `p` starts in `s[i..m]`, replacing copies it.
pub proof fn lemma_replace_from_copy(s: Seq<char>, p: Seq<char>, r: Seq<char>, i: int, m: int)
    requires
        0 <= i <= m <= s.len(),
        p.len() > 0,
        forall|k: int| i <= k < m ==> !#[trigger] occurs_at(s, p, k),
    ensures
        replace_from(s, p, r, i) == s.subrange(i, m) + replace_from(s, p, r, m),
    decreases m - i,
{
    if i < m {
        assert(!occurs_at(s, p, i));
        lemma_replace_from_copy(s, p, r, i + 1, m);
        assert(s.subrange(i, m) =~= seq![s[i]] + s.subrange(i + 1, m));
    } else {
        assert(s.subrange(i, m) =~= Seq::<char>::empty());
    }
}

/// `s` with every occurrence of the non-empty `p` replaced by `r` (`str::replace`).
pub open spec fn replace_all(s: Seq<char>, p: Seq<char>, r: Seq<char>) -> Seq<char> {
    replace_from(s, p, r, 0)
}

/// `s` with every occurrence of `p` replaced by `r` (`str::replace`).
pub fn replace(s: &str, p: &str, r: &str) -> (out: String)
    requires
        p@.len() > 0,
    ensures
        out@ == replace_all(s@, p@, r@),
{
    let cs = chars_of(s);
    let ps = chars_of(p);
    let mut out = String::new();
    let mut i: usize = 0;
    proof {
        assert(out@ + replace_from(cs@, ps@, r@, 0) =~= replace_from(cs@, ps@, r@, 0));
    }
    while i < cs.len()
        invariant
            i <= cs.len(),
            cs@ == s@,
            ps@ == p@,
            ps@.len() > 0,
            replace_all(s@, p@, r@) == out@ + replace_from(cs@, ps@, r@, i as int),
        decreases cs.len() - i,
    {
        let ghost before = out@;
        if occurs_at_exec(&cs, &ps, i) {
            push_str(&mut out, r);
            proof {
                assert(before + (r@ + replace_from(cs@, ps@, r@, i + ps@.len())) =~= (before
                    + r@) + replace_from(cs@, ps@, r@, i + ps@.len()));
            }
            i = i + ps.len();
        } else {
            push_char(&mut out, cs[i]);
            proof {
                assert(before + (seq![cs@[i as int]] + replace_from(cs@, ps@, r@, i + 1)) =~= before.push(
                    cs@[i as int],
                ) + replace_from(cs@, ps@, r@, i + 1));
            }
            i = i + 1;
        }
    }
    proof {
        assert(replace_from(cs@, ps@, r@, i as int) =~= Seq::<char>::empty());
        assert(out@ + Seq::<char>::empty() =~= out@);
    }
    out
}

} // verus!
