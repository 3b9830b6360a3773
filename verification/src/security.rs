//! Guards on user-supplied ids and paths, and a comparison of secrets whose
//! running time does not depend on where they differ.
//!
//! Every file the service writes goes through these checks: an id must be a
//! single path segment, and a relative path is resolved component by
//! component so that it can never climb above the directory it is joined to.
use vstd::prelude::*;
use crate::error::AirpError;
use crate::text::{
    chars_of, contains_seq, find_from_exec, push_char, push_str, split_by, split_chars, string_of,
    trim, trim_bounds, views,
};

verus! {

broadcast use vstd::string::group_string_axioms;

// ---------------------------------------------------------------------------
// Ids
// ---------------------------------------------------------------------------

/// A character that no id may hold: path separators, NUL and the characters
/// Windows reserves in file names.
pub open spec fn is_forbidden_id_char(c: char) -> bool {
    c == '/' || c == '\\' || c == '\0' || c == ':' || c == '*' || c == '?' || c == '"' || c == '<'
        || c == '>' || c == '|'
}

/// The first forbidden character of `s`, from `i` on.
pub open spec fn first_forbidden(s: Seq<char>, i: int) -> Option<char>
    decreases s.len() - i,
{
    if i < 0 || i >= s.len() {
        None
    } else if is_forbidden_id_char(s[i]) {
        Some(s[i])
    } else {
        first_forbidden(s, i + 1)
    }
}

/// `c` as `{:?}` writes it, for the forbidden characters: in single quotes,
/// with `\` and NUL escaped.
pub open spec fn quoted_char(c: char) -> Seq<char> {
    if c == '\\' {
        seq!['\'', '\\', '\\', '\'']
    } else if c == '\0' {
        seq!['\'', '\\', '0', '\'']
    } else {
        seq!['\'', c, '\'']
    }
}

/// The message of the error for `id`, or `None` when `id` is a valid path
/// segment: not empty, not `.` or `..`, not starting with `.`, free of
/// forbidden characters and of `..`.
pub open spec fn id_rejection(id: Seq<char>) -> Option<Seq<char>> {
    if id.len() == 0 {
        Some("ID 为空"@)
    } else if id == seq!['.'] || id == seq!['.', '.'] {
        Some("非法 ID: "@ + id)
    } else if id[0] == '.' {
        Some("ID 不允许以点开头: "@ + id)
    } else if first_forbidden(id, 0) is Some {
        Some("ID 含非法字符 "@ + quoted_char(first_forbidden(id, 0)->0) + ": "@ + id)
    } else if contains_seq(id, seq!['.', '.']) {
        Some("ID 含 ..: "@ + id)
    } else {
        None
    }
}

/// Accepts `id` when it can stand as one directory name under the data
/// root; otherwise a `BadRequest` that says why (see [`id_rejection`]).
pub fn validate_id_segment(id: &str) -> (r: Result<(), AirpError>)
    ensures
        match id_rejection(id@) {
            None => r is Ok,
            Some(m) => r matches Err(AirpError::BadRequest(s)) && s@ == m,
        },
{
    let cs = chars_of(id);
    if cs.len() == 0 {
        let mut m = String::new();
        push_str(&mut m, "ID 为空");
        return Err(AirpError::BadRequest(m));
    }
    if (cs.len() == 1 && cs[0] == '.') || (cs.len() == 2 && cs[0] == '.' && cs[1] == '.') {
        assert(cs.len() == 1 ==> cs@ =~= seq!['.']);
        assert(cs.len() == 2 ==> cs@ =~= seq!['.', '.']);
        let mut m = String::new();
        push_str(&mut m, "非法 ID: ");
        push_str(&mut m, id);
        return Err(AirpError::BadRequest(m));
    }
    assert(!(cs@ =~= seq!['.']) ==> cs@ != seq!['.']);
    assert(cs@ == seq!['.'] ==> cs.len() == 1 && cs@[0] == '.');
    assert(cs@ == seq!['.', '.'] ==> cs.len() == 2 && cs@[0] == '.' && cs@[1] == '.');
    if cs[0] == '.' {
        let mut m = String::new();
        push_str(&mut m, "ID 不允许以点开头: ");
        push_str(&mut m, id);
        return Err(AirpError::BadRequest(m));
    }
    let mut i: usize = 0;
    while i < cs.len()
        invariant
            i <= cs.len(),
            cs@ == id@,
            cs.len() > 0,
            cs@[0] != '.',
            first_forbidden(cs@, 0) == first_forbidden(cs@, i as int),
        decreases cs.len() - i,
    {
        let c = cs[i];
        if c == '/' || c == '\\' || c == '\0' || c == ':' || c == '*' || c == '?' || c == '"' || c
            == '<' || c == '>' || c == '|' {
            let mut m = String::new();
            push_str(&mut m, "ID 含非法字符 ");
            push_char(&mut m, '\'');
            if c == '\\' {
                push_char(&mut m, '\\');
                push_char(&mut m, '\\');
            } else if c == '\0' {
                push_char(&mut m, '\\');
                push_char(&mut m, '0');
            } else {
                push_char(&mut m, c);
            }
            push_char(&mut m, '\'');
            push_str(&mut m, ": ");
            push_str(&mut m, id);
            assert(m@ =~= "ID 含非法字符 "@ + quoted_char(c) + ": "@ + id@);
            return Err(AirpError::BadRequest(m));
        }
        i = i + 1;
    }
    let dd: Vec<char> = vec!['.', '.'];
    assert(dd@ =~= seq!['.', '.']);
    if find_from_exec(&cs, &dd, 0).is_some() {
        let mut m = String::new();
        push_str(&mut m, "ID 含 ..: ");
        push_str(&mut m, id);
        return Err(AirpError::BadRequest(m));
    }
    Ok(())
}

// ---------------------------------------------------------------------------
// Byte-order mark
// ---------------------------------------------------------------------------

/// `s` without a leading U+FEFF.
pub open spec fn without_bom(s: Seq<char>) -> Seq<char> {
    if s.len() > 0 && s[0] == '\u{FEFF}' {
        s.subrange(1, s.len() as int)
    } else {
        s
    }
}

/// `s` without the UTF-8 byte-order mark (U+FEFF) it may start with.
pub fn strip_utf8_bom(s: &str) -> (r: &str)
    ensures
        r@ == without_bom(s@),
{
    let n = s.unicode_len();
    if n > 0 && s.get_char(0) == '\u{FEFF}' {
        s.substring_char(1, n)
    } else {
        s
    }
}

// ---------------------------------------------------------------------------
// Constant-time comparison
// ---------------------------------------------------------------------------

/// Whether `a` and `b` hold the same bytes. Every byte pair is looked at
/// (differences are OR-ed together), so the time taken depends only on the
/// length.
pub fn constant_time_eq(a: &[u8], b: &[u8]) -> (r: bool)
    ensures
        r == (a@ == b@),
{
    if a.len() != b.len() {
        return false;
    }
    let mut diff: u8 = 0;
    let mut i: usize = 0;
    while i < a.len()
        invariant
            i <= a.len(),
            a.len() == b.len(),
            (diff == 0) == (forall|j: int| 0 <= j < i ==> a@[j] == b@[j]),
        decreases a.len() - i,
    {
        let x = a[i];
        let y = b[i];
        let d = diff | (x ^ y);
        assert((d == 0) == (diff == 0 && x == y)) by (bit_vector)
            requires
                d == diff | (x ^ y),
        ;
        diff = d;
        i = i + 1;
    }
    assert((diff == 0) ==> a@ =~= b@);
    diff == 0
}

// ---------------------------------------------------------------------------
// Relative paths
// ---------------------------------------------------------------------------

/// The path looks absolute: it starts with `/` or `\`, or its second byte is
/// a drive colon (`C:`).
pub open spec fn looks_absolute(t: Seq<char>) -> bool {
    (t.len() > 0 && (t[0] == '/' || t[0] == '\\')) || (t.len() >= 2 && (t[0] as u32) < 0x80 && t[1]
        == ':')
}

/// The state of resolving components: the names kept so far, or an escape
/// above the start.
pub open spec fn resolve_components(parts: Seq<Seq<char>>) -> Option<Seq<Seq<char>>>
    decreases parts.len(),
{
    if parts.len() == 0 {
        Some(Seq::empty())
    } else {
        match resolve_components(parts.drop_last()) {
            None => None,
            Some(stack) => {
                let p = parts.last();
                if p.len() == 0 || p == seq!['.'] {
                    Some(stack)
                } else if p == seq!['.', '.'] {
                    if stack.len() == 0 {
                        None
                    } else {
                        Some(stack.drop_last())
                    }
                } else {
                    Some(stack.push(p))
                }
            },
        }
    }
}

/// Why a user path is refused.
#[derive(Debug, Clone, Copy, PartialEq, Eq)]
pub enum PathRefusal {
    /// Nothing but whitespace.
    Empty,
    /// It starts with a separator or a drive letter.
    Absolute,
    /// It holds a NUL character.
    NulByte,
    /// A `..` climbs above the directory it is resolved in.
    Escapes,
    /// It resolves to the directory itself.
    Nothing,
}

/// The checks every user path must pass, on its trimmed text.
pub open spec fn path_check(user_path: Seq<char>) -> Option<PathRefusal> {
    let t = trim(user_path);
    if t.len() == 0 {
        Some(PathRefusal::Empty)
    } else if looks_absolute(t) {
        Some(PathRefusal::Absolute)
    } else if t.contains('\0') {
        Some(PathRefusal::NulByte)
    } else {
        None
    }
}

/// The error reported for a refusal.
pub open spec fn refusal_error(e: AirpError, why: PathRefusal, user_path: Seq<char>) -> bool {
    match why {
        PathRefusal::Empty => e matches AirpError::BadRequest(m) && m@ == "路径为空"@,
        PathRefusal::Absolute => e matches AirpError::BadRequest(m) && m@ == "拒绝绝对路径: "@
            + user_path,
        PathRefusal::NulByte => e matches AirpError::BadRequest(m) && m@ == "路径包含空字节"@,
        PathRefusal::Escapes => e matches AirpError::PathEscape(p) && p@ == trim(user_path),
        PathRefusal::Nothing => e matches AirpError::BadRequest(m) && m@ == "路径解析为空"@,
    }
}

/// The names a user path resolves to below the directory it is joined to:
/// the components between `/` of the trimmed path, empty ones and `.`
/// dropped, each `..` taking away the name before it.
pub open spec fn resolve_relative_spec(user_path: Seq<char>) -> Result<Seq<Seq<char>>, PathRefusal> {
    match path_check(user_path) {
        Some(why) => Err(why),
        None => match resolve_components(split_by(trim(user_path), seq!['/'])) {
            None => Err(PathRefusal::Escapes),
            Some(names) => if names.len() == 0 {
                Err(PathRefusal::Nothing)
            } else {
                Ok(names)
            },
        },
    }
}

/// Checks a user path before it is resolved against a directory that must
/// exist; gives the trimmed path.
pub fn check_relative_path(user_path: &str) -> (r: Result<String, AirpError>)
    ensures
        match path_check(user_path@) {
            Some(why) => r matches Err(e) && refusal_error(e, why, user_path@),
            None => r matches Ok(t) && t@ == trim(user_path@),
        },
{
    let cs = chars_of(user_path);
    let (a, b) = trim_bounds(&cs, 0, cs.len());
    let t = crate::text::sub_chars(&cs, a, b);
    proof {
        assert(cs@.subrange(0, cs.len() as int) =~= cs@);
    }
    if t.len() == 0 {
        let mut m = String::new();
        push_str(&mut m, "路径为空");
        return Err(AirpError::BadRequest(m));
    }
    if t[0] == '/' || t[0] == '\\' || (t.len() >= 2 && (t[0] as u32) < 0x80 && t[1] == ':') {
        let mut m = String::new();
        push_str(&mut m, "拒绝绝对路径: ");
        push_str(&mut m, user_path);
        return Err(AirpError::BadRequest(m));
    }
    let mut i: usize = 0;
    while i < t.len()
        invariant
            i <= t.len(),
            t@ == trim(user_path@),
            t.len() > 0,
            !looks_absolute(t@),
            forall|j: int| 0 <= j < i ==> t@[j] != '\0',
        decreases t.len() - i,
    {
        if t[i] == '\0' {
            assert(t@.contains('\0'));
            let mut m = String::new();
            push_str(&mut m, "路径包含空字节");
            return Err(AirpError::BadRequest(m));
        }
        i = i + 1;
    }
    Ok(string_of(&t))
}

/// Resolves a user path into the names of the directories and file below
/// the directory it is joined to (see [`resolve_relative_spec`]); a path
/// that climbs above that directory is refused as a `PathEscape` of the
/// trimmed path.
pub fn resolve_relative(user_path: &str) -> (r: Result<Vec<String>, AirpError>)
    ensures
        match resolve_relative_spec(user_path@) {
            Ok(names) => r matches Ok(v) && crate::text::string_views(v@) == names,
            Err(why) => r matches Err(e) && refusal_error(e, why, user_path@),
        },
{
    let t = match check_relative_path(user_path) {
        Ok(t) => t,
        Err(e) => return Err(e),
    };
    let tc = chars_of(t.as_str());
    let sep: Vec<char> = vec!['/'];
    assert(sep@ =~= seq!['/']);
    let parts = split_chars(&tc, &sep);
    let ghost ps = views(parts@);
    let mut stack: Vec<String> = Vec::new();
    let mut k: usize = 0;
    proof {
        assert(ps.take(0) =~= Seq::<Seq<char>>::empty());
        assert(crate::text::string_views(stack@) =~= Seq::<Seq<char>>::empty());
    }
    while k < parts.len()
        invariant
            k <= parts.len(),
            ps == views(parts@),
            ps == split_by(trim(user_path@), seq!['/']),
            path_check(user_path@) is None,
            t@ == trim(user_path@),
            resolve_components(ps.take(k as int)) == Some(crate::text::string_views(stack@)),
        decreases parts.len() - k,
    {
        let p = &parts[k];
        let ghost before = crate::text::string_views(stack@);
        proof {
            assert(ps.take(k + 1).drop_last() =~= ps.take(k as int));
            assert(ps.take(k + 1).last() == p@);
        }
        if p.len() == 0 || (p.len() == 1 && p[0] == '.') {
            assert(p.len() == 1 ==> p@ =~= seq!['.']);
        } else if p.len() == 2 && p[0] == '.' && p[1] == '.' {
            assert(p@ =~= seq!['.', '.']);
            if stack.len() == 0 {
                proof {
                    lemma_resolve_none_extends(ps, k + 1);
                }
                let mut e = String::new();
                push_str(&mut e, t.as_str());
                return Err(AirpError::PathEscape(e));
            }
            let _top = stack.pop();
            assert(crate::text::string_views(stack@) =~= before.drop_last());
        } else {
            assert(p@ != seq!['.']) by {
                if p@ == seq!['.'] {
                    assert(p.len() == 1);
                }
            }
            assert(p@ != seq!['.', '.']) by {
                if p@ == seq!['.', '.'] {
                    assert(p.len() == 2);
                }
            }
            stack.push(string_of(p));
            assert(crate::text::string_views(stack@) =~= before.push(p@));
        }
        k = k + 1;
    }
    proof {
        assert(ps.take(parts.len() as int) =~= ps);
    }
    if stack.len() == 0 {
        let mut m = String::new();
        push_str(&mut m, "路径解析为空");
        return Err(AirpError::BadRequest(m));
    }
    Ok(stack)
}

/// A resolved path never climbs: every name it keeps is a plain name, not
/// empty, not `.` or `..`, and free of `/`, so joining the names to a
/// directory stays below it.
pub proof fn lemma_resolved_names_stay_below(user_path: Seq<char>)
    ensures
        resolve_relative_spec(user_path) matches Ok(names) ==> forall|i: int|
            0 <= i < names.len() ==> {
                let n = #[trigger] names[i];
                n.len() > 0 && n != seq!['.'] && n != seq!['.', '.'] && !n.contains('/')
            },
{
    let parts = split_by(trim(user_path), seq!['/']);
    lemma_split_pieces_have_no_sep(trim(user_path));
    lemma_resolve_keeps_names(parts);
}

proof fn lemma_resolve_none_extends(parts: Seq<Seq<char>>, k: int)
    requires
        0 <= k <= parts.len(),
        resolve_components(parts.take(k)) is None,
    ensures
        resolve_components(parts) is None,
    decreases parts.len() - k,
{
    if k == parts.len() {
        assert(parts.take(k) =~= parts);
    } else {
        assert(parts.take(k + 1).drop_last() =~= parts.take(k));
        lemma_resolve_none_extends(parts, k + 1);
    }
}

pub open spec fn plain_name(n: Seq<char>) -> bool {
    n.len() > 0 && n != seq!['.'] && n != seq!['.', '.'] && !n.contains('/')
}

proof fn lemma_resolve_keeps_names(parts: Seq<Seq<char>>)
    requires
        forall|i: int| 0 <= i < parts.len() ==> !(#[trigger] parts[i]).contains('/'),
    ensures
        resolve_components(parts) matches Some(st) ==> forall|i: int|
            0 <= i < st.len() ==> plain_name(#[trigger] st[i]),
    decreases parts.len(),
{
    if parts.len() > 0 {
        let init = parts.drop_last();
        assert forall|i: int| 0 <= i < init.len() implies !(#[trigger] init[i]).contains('/') by {
            assert(init[i] == parts[i]);
        }
        lemma_resolve_keeps_names(init);
        assert(!parts[parts.len() - 1].contains('/'));
    }
}

proof fn lemma_split_pieces_have_no_sep(s: Seq<char>)
    ensures
        forall|i: int|
            0 <= i < split_by(s, seq!['/']).len() ==> !(#[trigger] split_by(s, seq!['/'])[i]).contains(
                '/',
            ),
    decreases s.len(),
{
    if s.len() > 0 {
        lemma_split_pieces_have_no_sep(s.drop_last());
        crate::text::lemma_split_by_len(s.drop_last(), seq!['/']);
        let p = split_by(s.drop_last(), seq!['/']);
        let q = split_by(s, seq!['/']);
        if seq!['/'].contains(s.last()) {
            assert forall|i: int| 0 <= i < q.len() implies !(#[trigger] q[i]).contains('/') by {
                if i < p.len() {
                    assert(q[i] == p[i]);
                } else {
                    assert(q[i] =~= Seq::<char>::empty());
                }
            }
        } else {
            assert(s.last() != '/') by {
                if s.last() == '/' {
                    assert(seq!['/'][0] == '/');
                }
            }
            assert forall|i: int| 0 <= i < q.len() implies !(#[trigger] q[i]).contains('/') by {
                if i < p.len() - 1 {
                    assert(q[i] == p[i]);
                } else {
                    let last = p[p.len() - 1];
                    assert(q[i] == last.push(s.last()));
                    assert(!last.contains('/'));
                    if q[i].contains('/') {
                        let j = choose|j: int| 0 <= j < q[i].len() && q[i][j] == '/';
                        if j < last.len() {
                            assert(last[j] == '/');
                        }
                    }
                }
            }
        }
    }
}

} // verus!
