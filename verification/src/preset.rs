//! Preset prompts: which prompts of a preset are switched on, and the macros
//! expanded in them.
//!
//! `{{char}}`, `{{user}}` and `{{lastUserMessage}}` are replaced first. Then
//! every `{{setvar::NAME::VALUE}}` is removed from the text and remembered
//! (a later one for the same name wins), and every `{{getvar::NAME}}` is
//! replaced by the remembered value, or by nothing.
use vstd::prelude::*;
use crate::json::{
    index_pointer, json_at, json_valid, opt_str, pointer_to, read_opt_str, JsonDoc, JsonLookup,
    LookupModel,
};
use crate::text::{
    chars_of, chars_eq, contains_seq, decimal, first_of, first_of_exec, lemma_first_of, occurs_at,
    occurs_at_exec, push_char, push_chars, push_str, replace, replace_all, replace_from, string_from,
    string_views, sub_chars,
};

verus! {

broadcast use vstd::string::group_string_axioms;

/// The opening of a variable assignment.
pub open spec fn setvar_open() -> Seq<char> {
    seq!['{', '{', 's', 'e', 't', 'v', 'a', 'r', ':', ':']
}

/// The opening of a variable read.
pub open spec fn getvar_open() -> Seq<char> {
    seq!['{', '{', 'g', 'e', 't', 'v', 'a', 'r', ':', ':']
}

/// A `{{setvar::NAME::VALUE}}` starting at `i`, as `(j, k)`: NAME is
/// `s[i + 10..j]` (one or more characters, none a colon), VALUE is
/// `s[j + 2..k]` (no closing brace), and the match ends at `k + 2`.
pub open spec fn setvar_at(s: Seq<char>, i: int) -> Option<(int, int)> {
    if occurs_at(s, setvar_open(), i) {
        let j = first_of(s, ':', i + 10);
        if j > i + 10 && j + 1 < s.len() && s[j + 1] == ':' {
            let k = first_of(s, '}', j + 2);
            if k + 1 < s.len() && s[k + 1] == '}' {
                Some((j, k))
            } else {
                None
            }
        } else {
            None
        }
    } else {
        None
    }
}

/// A `{{getvar::NAME}}` starting at `i`, as `k`: NAME is `s[i + 10..k]` (one
/// or more characters, no closing brace) and the match ends at `k + 2`.
pub open spec fn getvar_at(s: Seq<char>, i: int) -> Option<int> {
    if occurs_at(s, getvar_open(), i) {
        let k = first_of(s, '}', i + 10);
        if k > i + 10 && k + 1 < s.len() && s[k + 1] == '}' {
            Some(k)
        } else {
            None
        }
    } else {
        None
    }
}

pub proof fn lemma_setvar_at(s: Seq<char>, i: int)
    requires
        0 <= i,
    ensures
        setvar_at(s, i) matches Some((j, k)) ==> i + 10 < j && j + 2 <= k && k + 2 <= s.len(),
{
    if occurs_at(s, setvar_open(), i) {
        lemma_first_of(s, ':', i + 10);
        let j = first_of(s, ':', i + 10);
        if j > i + 10 && j + 1 < s.len() && s[j + 1] == ':' {
            lemma_first_of(s, '}', j + 2);
        }
    }
}

pub proof fn lemma_getvar_at(s: Seq<char>, i: int)
    requires
        0 <= i,
    ensures
        getvar_at(s, i) matches Some(k) ==> i + 10 < k && k + 2 <= s.len(),
{
    if occurs_at(s, getvar_open(), i) {
        lemma_first_of(s, '}', i + 10);
    }
}

/// `s[i..]` with every variable assignment removed, scanning from the left.
pub open spec fn strip_setvars(s: Seq<char>, i: int) -> Seq<char>
    decreases s.len() - i,
{
    if i < 0 || i >= s.len() {
        Seq::empty()
    } else if setvar_at(s, i) is Some {
        proof {
            lemma_setvar_at(s, i);
        }
        let (_j, k) = setvar_at(s, i)->0;
        strip_setvars(s, k + 2)
    } else {
        seq![s[i]] + strip_setvars(s, i + 1)
    }
}

/// The assignments in `s[i..]`, in order, as `(NAME, VALUE)`.
pub open spec fn setvar_bindings(s: Seq<char>, i: int) -> Seq<(Seq<char>, Seq<char>)>
    decreases s.len() - i,
{
    if i < 0 || i >= s.len() {
        Seq::empty()
    } else if setvar_at(s, i) is Some {
        proof {
            lemma_setvar_at(s, i);
        }
        let (j, k) = setvar_at(s, i)->0;
        seq![(s.subrange(i + 10, j), s.subrange(j + 2, k))] + setvar_bindings(s, k + 2)
    } else {
        setvar_bindings(s, i + 1)
    }
}

/// The value last assigned to `name`, or nothing.
pub open spec fn lookup_binding(b: Seq<(Seq<char>, Seq<char>)>, name: Seq<char>) -> Seq<char>
    decreases b.len(),
{
    if b.len() == 0 {
        Seq::empty()
    } else if b.last().0 == name {
        b.last().1
    } else {
        lookup_binding(b.drop_last(), name)
    }
}

/// `s[i..]` with every variable read replaced by its value under `b`.
pub open spec fn expand_getvars(s: Seq<char>, b: Seq<(Seq<char>, Seq<char>)>, i: int) -> Seq<char>
    decreases s.len() - i,
{
    if i < 0 || i >= s.len() {
        Seq::empty()
    } else if getvar_at(s, i) is Some {
        proof {
            lemma_getvar_at(s, i);
        }
        let k = getvar_at(s, i)->0;
        lookup_binding(b, s.subrange(i + 10, k)) + expand_getvars(s, b, k + 2)
    } else {
        seq![s[i]] + expand_getvars(s, b, i + 1)
    }
}

/// `text` with the name macros replaced by their values.
pub open spec fn names_replaced(text: Seq<char>, char_name: Seq<char>, user_name: Seq<char>, last_message: Seq<char>) -> Seq<char> {
    replace_all(
        replace_all(replace_all(text, "{{char}}"@, char_name), "{{user}}"@, user_name),
        "{{lastUserMessage}}"@,
        last_message,
    )
}

/// `text` with all macros expanded.
pub open spec fn rendered(text: Seq<char>, char_name: Seq<char>, user_name: Seq<char>, last_message: Seq<char>) -> Seq<char> {
    let r = names_replaced(text, char_name, user_name, last_message);
    expand_getvars(strip_setvars(r, 0), setvar_bindings(r, 0), 0)
}

/// The views of name/value pairs.
pub open spec fn binding_views(v: Seq<(Vec<char>, Vec<char>)>) -> Seq<(Seq<char>, Seq<char>)> {
    v.map_values(|p: (Vec<char>, Vec<char>)| (p.0@, p.1@))
}

fn setvar_at_exec(cs: &Vec<char>, open: &Vec<char>, i: usize) -> (r: Option<(usize, usize)>)
    requires
        open@ == setvar_open(),
    ensures
        r matches Some((j, k)) ==> setvar_at(cs@, i as int) == Some((j as int, k as int)),
        r is None ==> setvar_at(cs@, i as int) is None,
{
    if !occurs_at_exec(cs, open, i) {
        return None;
    }
    assert(open@.len() == 10);
    assert(occurs_at(cs@, open@, i as int));
    assert(i + 10 <= cs@.len());
    assert(cs@.len() == cs.len());
    let j = first_of_exec(cs, ':', i + 10);
    proof {
        lemma_first_of(cs@, ':', i + 10);
    }
    if j > i + 10 && j < cs.len() && cs.len() - j > 1 && cs[j + 1] == ':' {
        let k = first_of_exec(cs, '}', j + 2);
        proof {
            lemma_first_of(cs@, '}', j + 2);
        }
        if k < cs.len() && cs.len() - k > 1 && cs[k + 1] == '}' {
            Some((j, k))
        } else {
            None
        }
    } else {
        None
    }
}

fn getvar_at_exec(cs: &Vec<char>, open: &Vec<char>, i: usize) -> (r: Option<usize>)
    requires
        open@ == getvar_open(),
    ensures
        r matches Some(k) ==> getvar_at(cs@, i as int) == Some(k as int),
        r is None ==> getvar_at(cs@, i as int) is None,
{
    if !occurs_at_exec(cs, open, i) {
        return None;
    }
    assert(open@.len() == 10);
    assert(occurs_at(cs@, open@, i as int));
    assert(i + 10 <= cs@.len());
    assert(cs@.len() == cs.len());
    let k = first_of_exec(cs, '}', i + 10);
    proof {
        lemma_first_of(cs@, '}', i + 10);
    }
    if k > i + 10 && k < cs.len() && cs.len() - k > 1 && cs[k + 1] == '}' {
        Some(k)
    } else {
        None
    }
}

/// The text without its assignments, and the assignments.
fn strip_and_bind(cs: &Vec<char>) -> (r: (Vec<char>, Vec<(Vec<char>, Vec<char>)>))
    ensures
        r.0@ == strip_setvars(cs@, 0),
        binding_views(r.1@) == setvar_bindings(cs@, 0),
{
    let open: Vec<char> = vec!['{', '{', 's', 'e', 't', 'v', 'a', 'r', ':', ':'];
    assert(open@ =~= setvar_open());
    let mut out: Vec<char> = Vec::new();
    let mut binds: Vec<(Vec<char>, Vec<char>)> = Vec::new();
    let mut i: usize = 0;
    proof {
        assert(out@ + strip_setvars(cs@, 0) =~= strip_setvars(cs@, 0));
        assert(binding_views(binds@) + setvar_bindings(cs@, 0) =~= setvar_bindings(cs@, 0));
    }
    while i < cs.len()
        invariant
            i <= cs.len(),
            open@ == setvar_open(),
            strip_setvars(cs@, 0) == out@ + strip_setvars(cs@, i as int),
            setvar_bindings(cs@, 0) == binding_views(binds@) + setvar_bindings(cs@, i as int),
        decreases cs.len() - i,
    {
        let ghost before = out@;
        let ghost bbefore = binding_views(binds@);
        match setvar_at_exec(cs, &open, i) {
            Some((j, k)) => {
                proof {
                    lemma_setvar_at(cs@, i as int);
                }
                let name = sub_chars(cs, i + 10, j);
                let value = sub_chars(cs, j + 2, k);
                let ghost pair = (name@, value@);
                binds.push((name, value));
                proof {
                    assert(binding_views(binds@) =~= bbefore.push(pair));
                    assert(bbefore + (seq![pair] + setvar_bindings(cs@, k + 2)) =~= bbefore.push(
                        pair,
                    ) + setvar_bindings(cs@, k + 2));
                }
                i = k + 2;
            },
            None => {
                out.push(cs[i]);
                proof {
                    assert(before + (seq![cs@[i as int]] + strip_setvars(cs@, i + 1)) =~= out@
                        + strip_setvars(cs@, i + 1));
                }
                i = i + 1;
            },
        }
    }
    proof {
        assert(strip_setvars(cs@, i as int) =~= Seq::<char>::empty());
        assert(setvar_bindings(cs@, i as int) =~= Seq::<(Seq<char>, Seq<char>)>::empty());
        assert(out@ + Seq::<char>::empty() =~= out@);
        assert(binding_views(binds@) + Seq::<(Seq<char>, Seq<char>)>::empty() =~= binding_views(
            binds@,
        ));
    }
    (out, binds)
}

/// The value last assigned to `name` in `b`, or nothing.
fn lookup_exec(b: &Vec<(Vec<char>, Vec<char>)>, name: &Vec<char>) -> (r: Vec<char>)
    ensures
        r@ == lookup_binding(binding_views(b@), name@),
{
    let ghost bv = binding_views(b@);
    let mut i = b.len();
    proof {
        assert(bv.take(i as int) =~= bv);
    }
    while i > 0
        invariant
            i <= b.len(),
            bv == binding_views(b@),
            lookup_binding(bv, name@) == lookup_binding(bv.take(i as int), name@),
        decreases i,
    {
        proof {
            assert(bv.take(i as int).drop_last() =~= bv.take(i - 1));
            assert(bv.take(i as int).last() == bv[i - 1]);
        }
        if chars_eq(&b[i - 1].0, name) {
            let v = sub_chars(&b[i - 1].1, 0, b[i - 1].1.len());
            assert(v@ =~= b@[i - 1].1@);
            return v;
        }
        i = i - 1;
    }
    Vec::new()
}

/// `cs` with every variable read replaced by its value under `b`.
fn expand_exec(cs: &Vec<char>, b: &Vec<(Vec<char>, Vec<char>)>) -> (r: String)
    ensures
        r@ == expand_getvars(cs@, binding_views(b@), 0),
{
    let ghost bv = binding_views(b@);
    let open: Vec<char> = vec!['{', '{', 'g', 'e', 't', 'v', 'a', 'r', ':', ':'];
    assert(open@ =~= getvar_open());
    let mut out = String::new();
    let mut i: usize = 0;
    proof {
        assert(out@ + expand_getvars(cs@, bv, 0) =~= expand_getvars(cs@, bv, 0));
    }
    while i < cs.len()
        invariant
            i <= cs.len(),
            open@ == getvar_open(),
            bv == binding_views(b@),
            expand_getvars(cs@, bv, 0) == out@ + expand_getvars(cs@, bv, i as int),
        decreases cs.len() - i,
    {
        let ghost before = out@;
        match getvar_at_exec(cs, &open, i) {
            Some(k) => {
                proof {
                    lemma_getvar_at(cs@, i as int);
                }
                let name = sub_chars(cs, i + 10, k);
                let v = lookup_exec(b, &name);
                push_chars(&mut out, &v);
                proof {
                    assert(before + (v@ + expand_getvars(cs@, bv, k + 2)) =~= out@ + expand_getvars(
                        cs@,
                        bv,
                        k + 2,
                    ));
                }
                i = k + 2;
            },
            None => {
                push_char(&mut out, cs[i]);
                proof {
                    assert(before + (seq![cs@[i as int]] + expand_getvars(cs@, bv, i + 1)) =~= out@
                        + expand_getvars(cs@, bv, i + 1));
                }
                i = i + 1;
            },
        }
    }
    proof {
        assert(expand_getvars(cs@, bv, i as int) =~= Seq::<char>::empty());
        assert(out@ + Seq::<char>::empty() =~= out@);
    }
    out
}

/// Expands the macros of `text` (see the module documentation).
pub fn render_macros(text: &str, char_name: &str, user_name: &str, last_message: &str) -> (r:
    String)
    ensures
        r@ == rendered(text@, char_name@, user_name@, last_message@),
{
    proof {
        reveal_strlit("{{char}}");
        reveal_strlit("{{user}}");
        reveal_strlit("{{lastUserMessage}}");
    }
    let r1 = replace(text, "{{char}}", char_name);
    let r2 = replace(r1.as_str(), "{{user}}", user_name);
    let r3 = replace(r2.as_str(), "{{lastUserMessage}}", last_message);
    let cs = chars_of(r3.as_str());
    let (stripped, binds) = strip_and_bind(&cs);
    expand_exec(&stripped, &binds)
}


// ---------------------------------------------------------------------------
// Text without macros
// ---------------------------------------------------------------------------

/// The opening braces of every macro.
pub open spec fn macro_open() -> Seq<char> {
    seq!['{', '{']
}

proof fn lemma_no_macro_at(s: Seq<char>, p: Seq<char>, i: int)
    requires
        p.len() >= 2,
        p[0] == '{',
        p[1] == '{',
        forall|k: int| 0 <= k ==> !#[trigger] occurs_at(s, macro_open(), k),
    ensures
        !occurs_at(s, p, i),
{
    if occurs_at(s, p, i) {
        assert(s.subrange(i, i + 2) =~= macro_open()) by {
            assert(s[i] == s.subrange(i, i + p.len())[0]);
            assert(s[i + 1] == s.subrange(i, i + p.len())[1]);
        }
        assert(occurs_at(s, macro_open(), i));
    }
}

proof fn lemma_replace_plain(s: Seq<char>, p: Seq<char>, r: Seq<char>)
    requires
        p.len() >= 2,
        p[0] == '{',
        p[1] == '{',
        forall|k: int| 0 <= k ==> !#[trigger] occurs_at(s, macro_open(), k),
    ensures
        replace_all(s, p, r) == s,
{
    assert forall|k: int| 0 <= k < s.len() implies !#[trigger] occurs_at(s, p, k) by {
        lemma_no_macro_at(s, p, k);
    }
    crate::text::lemma_replace_from_copy(s, p, r, 0, s.len() as int);
    assert(s.subrange(0, s.len() as int) =~= s);
    assert(replace_from(s, p, r, s.len() as int) =~= Seq::<char>::empty());
}

proof fn lemma_strip_plain(s: Seq<char>, b: Seq<(Seq<char>, Seq<char>)>, i: int)
    requires
        0 <= i <= s.len(),
        forall|k: int| 0 <= k ==> !#[trigger] occurs_at(s, macro_open(), k),
    ensures
        strip_setvars(s, i) == s.subrange(i, s.len() as int),
        setvar_bindings(s, i) == Seq::<(Seq<char>, Seq<char>)>::empty(),
        expand_getvars(s, b, i) == s.subrange(i, s.len() as int),
    decreases s.len() - i,
{
    if i < s.len() {
        lemma_no_macro_at(s, setvar_open(), i);
        lemma_no_macro_at(s, getvar_open(), i);
        lemma_strip_plain(s, b, i + 1);
        assert(s.subrange(i, s.len() as int) =~= seq![s[i]] + s.subrange(i + 1, s.len() as int));
    } else {
        assert(s.subrange(i, s.len() as int) =~= Seq::<char>::empty());
    }
}

/// Text in which `{{` never occurs comes out of macro expansion unchanged.
pub proof fn lemma_plain_text_renders_unchanged(
    text: Seq<char>,
    char_name: Seq<char>,
    user_name: Seq<char>,
    last_message: Seq<char>,
)
    requires
        !contains_seq(text, macro_open()),
    ensures
        rendered(text, char_name, user_name, last_message) == text,
{
    reveal_strlit("{{char}}");
    reveal_strlit("{{user}}");
    reveal_strlit("{{lastUserMessage}}");
    crate::text::lemma_find_from_bounds(text, macro_open(), 0);
    assert("{{char}}"@.len() >= 2 && "{{char}}"@[0] == '{' && "{{char}}"@[1] == '{');
    assert("{{user}}"@.len() >= 2 && "{{user}}"@[0] == '{' && "{{user}}"@[1] == '{');
    assert("{{lastUserMessage}}"@.len() >= 2 && "{{lastUserMessage}}"@[0] == '{'
        && "{{lastUserMessage}}"@[1] == '{');
    lemma_replace_plain(text, "{{char}}"@, char_name);
    lemma_replace_plain(text, "{{user}}"@, user_name);
    lemma_replace_plain(text, "{{lastUserMessage}}"@, last_message);
    assert(names_replaced(text, char_name, user_name, last_message) == text);
    lemma_strip_plain(text, Seq::empty(), 0);
    assert(text.subrange(0, text.len() as int) =~= text);
}

// ---------------------------------------------------------------------------
// The prompts of a preset
// ---------------------------------------------------------------------------

/// One prompt of a preset.
#[derive(Debug, Clone)]
pub struct TavernPrompt {
    pub identifier: String,
    pub enabled: bool,
    pub content: Option<String>,
}

pub struct PromptModel {
    pub identifier: Seq<char>,
    pub enabled: bool,
    pub content: Option<Seq<char>>,
}

impl View for TavernPrompt {
    type V = PromptModel;

    open spec fn view(&self) -> PromptModel {
        PromptModel {
            identifier: self.identifier@,
            enabled: self.enabled,
            content: match self.content {
                Some(c) => Some(c@),
                None => None,
            },
        }
    }
}

pub open spec fn prompt_views(s: Seq<TavernPrompt>) -> Seq<PromptModel> {
    s.map_values(|p: TavernPrompt| p@)
}

/// The identifiers that switch prompts on in place of their own flags.
pub open spec fn override_view(o: Option<&Vec<String>>) -> Option<Seq<Seq<char>>> {
    match o {
        Some(v) => Some(string_views(v@)),
        None => None,
    }
}

/// Whether a prompt is on: listed among the overrides when there are any,
/// else by its own flag.
pub open spec fn prompt_on(p: PromptModel, overrides: Option<Seq<Seq<char>>>) -> bool {
    match overrides {
        Some(ids) => ids.contains(p.identifier),
        None => p.enabled,
    }
}

/// The content of every prompt that is on and has content, each followed by
/// a line feed, in order.
pub open spec fn joined_prompts(ps: Seq<PromptModel>, overrides: Option<Seq<Seq<char>>>) -> Seq<char>
    decreases ps.len(),
{
    if ps.len() == 0 {
        Seq::empty()
    } else {
        let prev = joined_prompts(ps.drop_last(), overrides);
        let p = ps.last();
        match p.content {
            Some(c) => if prompt_on(p, overrides) {
                prev + c + seq!['\n']
            } else {
                prev
            },
            None => prev,
        }
    }
}

/// Whether `s` is one of `v`.
fn contains_string(v: &Vec<String>, s: &String) -> (r: bool)
    ensures
        r == string_views(v@).contains(s@),
{
    let mut j: usize = 0;
    while j < v.len()
        invariant
            j <= v.len(),
            forall|k: int| 0 <= k < j ==> string_views(v@)[k] != s@,
        decreases v.len() - j,
    {
        let a = chars_of(v[j].as_str());
        let b = chars_of(s.as_str());
        if chars_eq(&a, &b) {
            assert(string_views(v@)[j as int] == s@);
            return true;
        }
        j = j + 1;
    }
    false
}

/// Joins the prompts that are on (see [`joined_prompts`]) and expands the
/// macros of the result.
pub fn assemble_prompts(
    prompts: &Vec<TavernPrompt>,
    enabled_override_ids: Option<&Vec<String>>,
    char_name: &str,
    user_name: &str,
    last_message: &str,
) -> (r: String)
    ensures
        r@ == rendered(
            joined_prompts(prompt_views(prompts@), override_view(enabled_override_ids)),
            char_name@,
            user_name@,
            last_message@,
        ),
{
    let ghost ov = override_view(enabled_override_ids);
    let ghost ps = prompt_views(prompts@);
    let mut full = String::new();
    let mut i: usize = 0;
    while i < prompts.len()
        invariant
            i <= prompts.len(),
            ov == override_view(enabled_override_ids),
            ps == prompt_views(prompts@),
            full@ == joined_prompts(ps.take(i as int), ov),
        decreases prompts.len() - i,
    {
        let p = &prompts[i];
        proof {
            assert(ps.take(i + 1).drop_last() =~= ps.take(i as int));
            assert(ps.take(i + 1).last() == p@);
        }
        let on = match enabled_override_ids {
            Some(ids) => contains_string(ids, &p.identifier),
            None => p.enabled,
        };
        if on {
            match &p.content {
                Some(c) => {
                    push_str(&mut full, c.as_str());
                    push_char(&mut full, '\n');
                },
                None => {},
            }
        }
        i = i + 1;
    }
    assert(ps.take(prompts.len() as int) =~= ps);
    render_macros(full.as_str(), char_name, user_name, last_message)
}

/// The pointer to the `i`-th prompt.
pub open spec fn prompt_base(i: nat) -> Seq<char> {
    "/prompts"@ + seq!['/'] + decimal(i)
}

/// The `i`-th prompt of the preset `text`: an object with a string
/// `identifier`, a boolean `enabled` (absent or null counts as off) and an
/// optional string `content`; `None` when it has another shape.
pub open spec fn prompt_model_at(text: Seq<char>, i: nat) -> Option<PromptModel> {
    let base = prompt_base(i);
    let id = json_at(text, base + "/identifier"@);
    let en = json_at(text, base + "/enabled"@);
    let co = opt_str(json_at(text, base + "/content"@));
    if json_at(text, base) is Object && co is Some {
        match (id, en) {
            (LookupModel::Str(ident), LookupModel::Bool(b)) => Some(
                PromptModel { identifier: ident, enabled: b, content: co->0 },
            ),
            (LookupModel::Str(ident), LookupModel::Missing) => Some(
                PromptModel { identifier: ident, enabled: false, content: co->0 },
            ),
            (LookupModel::Str(ident), LookupModel::Null) => Some(
                PromptModel { identifier: ident, enabled: false, content: co->0 },
            ),
            _ => None,
        }
    } else {
        None
    }
}

/// The first `n` prompts, or `None` when one of them has another shape.
pub open spec fn prompt_models(text: Seq<char>, n: nat) -> Option<Seq<PromptModel>>
    decreases n,
{
    if n == 0 {
        Some(Seq::empty())
    } else {
        match (prompt_models(text, (n - 1) as nat), prompt_model_at(text, (n - 1) as nat)) {
            (Some(s), Some(p)) => Some(s.push(p)),
            _ => None,
        }
    }
}

pub proof fn lemma_prompt_models_none(text: Seq<char>, m: nat, k: nat)
    requires
        m <= k,
        prompt_models(text, m) is None,
    ensures
        prompt_models(text, k) is None,
    decreases k - m,
{
    if m < k {
        lemma_prompt_models_none(text, (m + 1) as nat, k);
    }
}

/// The prompts of the preset `text`: `None` when it is not JSON, not an
/// object, has no `prompts` array, or one of its prompts has another shape.
pub open spec fn preset_prompts_of(text: Seq<char>) -> Option<Seq<PromptModel>> {
    if !json_valid(text) || !(json_at(text, Seq::empty()) is Object) {
        None
    } else {
        match json_at(text, "/prompts"@) {
            LookupModel::Array(n) => prompt_models(text, n),
            _ => None,
        }
    }
}

/// The prompts of the preset `preset_json` (see [`preset_prompts_of`]).
pub fn parse_preset_prompts(preset_json: &str) -> (r: Option<Vec<TavernPrompt>>)
    ensures
        r matches Some(v) ==> preset_prompts_of(preset_json@) == Some(prompt_views(v@)),
        r is None ==> preset_prompts_of(preset_json@) is None,
{
    let doc = match JsonDoc::parse(preset_json) {
        Some(d) => d,
        None => return None,
    };
    let ghost text = preset_json@;
    proof {
        reveal_strlit("");
    }
    let top = doc.lookup("");
    assert(""@ =~= Seq::<char>::empty());
    match top {
        JsonLookup::Object => {},
        _ => return None,
    }
    let n = match doc.lookup("/prompts") {
        JsonLookup::Array(n) => n,
        _ => return None,
    };
    let mut out: Vec<TavernPrompt> = Vec::new();
    let mut i: usize = 0;
    while i < n
        invariant
            i <= n,
            doc.source() == text,
            text == preset_json@,
            prompt_models(text, i as nat) == Some(prompt_views(out@)),
            preset_prompts_of(text) == prompt_models(text, n as nat),
        decreases n - i,
    {
        let base = index_pointer("/prompts", i);
        assert(base@ == prompt_base(i as nat));
        let id_p = pointer_to(&base, "/identifier");
        let en_p = pointer_to(&base, "/enabled");
        let co_p = pointer_to(&base, "/content");
        let ghost before = prompt_views(out@);
        let shape_ok = match doc.lookup(base.as_str()) {
            JsonLookup::Object => true,
            _ => false,
        };
        let content = match read_opt_str(&doc, &co_p) {
            Some(c) if shape_ok => Some(c),
            _ => None,
        };
        let identifier = match doc.lookup(id_p.as_str()) {
            JsonLookup::Str(s) => Some(s),
            _ => None,
        };
        let enabled = match doc.lookup(en_p.as_str()) {
            JsonLookup::Bool(b) => Some(b),
            JsonLookup::Missing => Some(false),
            JsonLookup::Null => Some(false),
            _ => None,
        };
        let (content, identifier, enabled) = match (content, identifier, enabled) {
            (Some(c), Some(id), Some(en)) => (c, id, en),
            _ => {
                proof {
                    assert(prompt_model_at(text, i as nat) is None);
                    assert(prompt_models(text, (i + 1) as nat) is None);
                    lemma_prompt_models_none(text, (i + 1) as nat, n as nat);
                }
                return None;
            },
        };
        let p = TavernPrompt { identifier, enabled, content };
        out.push(p);
        proof {
            assert(prompt_model_at(text, i as nat) == Some(p@));
            assert(prompt_views(out@) =~= before.push(p@));
        }
        i = i + 1;
    }
    Some(out)
}

/// The prompts of the preset that are on, joined and with their macros
/// expanded; nothing when the preset has no usable prompt list.
pub fn assemble_preset_prompts(
    preset_json: &str,
    enabled_override_ids: Option<&Vec<String>>,
    char_name: &str,
    user_name: &str,
    last_message: &str,
) -> (r: String)
    ensures
        r@ == match preset_prompts_of(preset_json@) {
            None => Seq::empty(),
            Some(ps) => rendered(
                joined_prompts(ps, override_view(enabled_override_ids)),
                char_name@,
                user_name@,
                last_message@,
            ),
        },
{
    match parse_preset_prompts(preset_json) {
        None => String::new(),
        Some(prompts) => assemble_prompts(
            &prompts,
            enabled_override_ids,
            char_name,
            user_name,
            last_message,
        ),
    }
}

} // verus!
