//! Reading values out of JSON text with `serde_json`.
//!
//! A document is parsed once ([`JsonDoc::parse`]) and then queried with JSON
//! pointers ([`JsonDoc::lookup`]). What the parser accepts and what a pointer
//! finds are named ([`json_valid`], [`json_at`]): the logic above is verified
//! for every answer they give.
use vstd::prelude::*;
use crate::text::{push_char, push_str, string_from};

verus! {

broadcast use vstd::string::group_string_axioms;

#[verifier::external_type_specification]
#[verifier::external_body]
pub struct ExJsonValue(serde_json::Value);

/// What a pointer finds in a document, by kind.
#[derive(Debug, Clone, PartialEq)]
pub enum JsonLookup {
    /// The pointer names no value.
    Missing,
    Null,
    Bool(bool),
    /// A number that is an integer within `i64`.
    Int(i64),
    /// A number that is an integer above `i64::MAX` within `u64`.
    BigUint(u64),
    /// Any other number.
    OtherNumber,
    Str(String),
    /// An array, with its length.
    Array(usize),
    Object,
}

pub enum LookupModel {
    Missing,
    Null,
    Bool(bool),
    Int(i64),
    BigUint(u64),
    OtherNumber,
    Str(Seq<char>),
    Array(nat),
    Object,
}

impl View for JsonLookup {
    type V = LookupModel;

    open spec fn view(&self) -> LookupModel {
        match self {
            JsonLookup::Missing => LookupModel::Missing,
            JsonLookup::Null => LookupModel::Null,
            JsonLookup::Bool(b) => LookupModel::Bool(*b),
            JsonLookup::Int(i) => LookupModel::Int(*i),
            JsonLookup::BigUint(u) => LookupModel::BigUint(*u),
            JsonLookup::OtherNumber => LookupModel::OtherNumber,
            JsonLookup::Str(s) => LookupModel::Str(s@),
            JsonLookup::Array(n) => LookupModel::Array(*n as nat),
            JsonLookup::Object => LookupModel::Object,
        }
    }
}

/// Whether `serde_json::from_str::<Value>` accepts `text`.
pub uninterp spec fn json_valid(text: Seq<char>) -> bool;

/// The text of the error `serde_json::from_str::<Value>` gives for `text`.
pub uninterp spec fn json_error(text: Seq<char>) -> Seq<char>;

/// What `Value::pointer(pointer)` finds in the document `text`, by kind.
pub uninterp spec fn json_at(text: Seq<char>, pointer: Seq<char>) -> LookupModel;

/// A parsed JSON document, with the text it was parsed from.
pub struct JsonDoc {
    value: serde_json::Value,
    source: Ghost<Seq<char>>,
}

/// Calls `serde_json::from_str::<Value>`. The contract claims that a value
/// comes back exactly when `json_valid(text)` holds, and that otherwise the
/// error's `Display` text is `json_error(text)`.
#[verifier::external_body]
fn parse_value(text: &str) -> (r: Result<serde_json::Value, String>)
    ensures
        r is Ok == json_valid(text@),
        r matches Err(e) ==> e@ == json_error(text@),
{
    serde_json::from_str::<serde_json::Value>(text).map_err(|e| e.to_string())
}

/// Calls `Value::pointer` on the parsed document and tells the kind of what
/// it finds. The contract claims that the answer is `json_at` of the text the
/// document was parsed from and the pointer, and that the empty pointer finds
/// a value (the whole document).
#[verifier::external_body]
fn pointer_lookup(doc: &JsonDoc, pointer: &str) -> (r: JsonLookup)
    ensures
        r@ == json_at(doc.source(), pointer@),
        pointer@.len() == 0 ==> !(r@ is Missing),
{
    match doc.value.pointer(pointer) {
        None => JsonLookup::Missing,
        Some(serde_json::Value::Null) => JsonLookup::Null,
        Some(serde_json::Value::Bool(b)) => JsonLookup::Bool(*b),
        Some(serde_json::Value::Number(n)) => match (n.as_i64(), n.as_u64()) {
            (Some(i), _) => JsonLookup::Int(i),
            (None, Some(u)) => JsonLookup::BigUint(u),
            (None, None) => JsonLookup::OtherNumber,
        },
        Some(serde_json::Value::String(s)) => JsonLookup::Str(s.clone()),
        Some(serde_json::Value::Array(a)) => JsonLookup::Array(a.len()),
        Some(serde_json::Value::Object(_)) => JsonLookup::Object,
    }
}

impl JsonDoc {
    /// The text the document was parsed from.
    pub closed spec fn source(&self) -> Seq<char> {
        self.source@
    }

    /// Parses `text`; `None` when it is not JSON.
    pub fn parse(text: &str) -> (r: Option<JsonDoc>)
        ensures
            r is Some == json_valid(text@),
            r matches Some(d) ==> d.source() == text@,
    {
        match parse_value(text) {
            Ok(v) => Some(JsonDoc { value: v, source: Ghost(text@) }),
            Err(_) => None,
        }
    }

    /// Parses `text`; when it is not JSON, the parser's error text.
    pub fn parse_or_error(text: &str) -> (r: Result<JsonDoc, String>)
        ensures
            r is Ok == json_valid(text@),
            r matches Ok(d) ==> d.source() == text@,
            r matches Err(e) ==> e@ == json_error(text@),
    {
        match parse_value(text) {
            Ok(v) => Ok(JsonDoc { value: v, source: Ghost(text@) }),
            Err(e) => Err(e),
        }
    }

    /// What the pointer finds (see [`json_at`]).
    pub fn lookup(&self, pointer: &str) -> (r: JsonLookup)
        ensures
            r@ == json_at(self.source(), pointer@),
            pointer@.len() == 0 ==> !(r@ is Missing),
    {
        pointer_lookup(self, pointer)
    }
}

/// A key as a JSON-pointer token: `~` written `~0` and `/` written `~1`.
pub open spec fn escape_token(key: Seq<char>) -> Seq<char>
    decreases key.len(),
{
    if key.len() == 0 {
        Seq::empty()
    } else {
        let prev = escape_token(key.drop_last());
        if key.last() == '~' {
            prev + seq!['~', '0']
        } else if key.last() == '/' {
            prev + seq!['~', '1']
        } else {
            prev.push(key.last())
        }
    }
}

/// Appends `/` and the escaped `key` to the pointer `p`.
pub fn push_token(p: &mut String, key: &str)
    ensures
        final(p)@ == old(p)@ + seq!['/'] + escape_token(key@),
{
    push_char(p, '/');
    let cs = crate::text::chars_of(key);
    let ghost base = p@;
    let mut i: usize = 0;
    while i < cs.len()
        invariant
            i <= cs.len(),
            cs@ == key@,
            p@ == base + escape_token(cs@.subrange(0, i as int)),
        decreases cs.len() - i,
    {
        proof {
            assert(cs@.subrange(0, i + 1).drop_last() =~= cs@.subrange(0, i as int));
        }
        let c = cs[i];
        if c == '~' {
            push_char(p, '~');
            push_char(p, '0');
        } else if c == '/' {
            push_char(p, '~');
            push_char(p, '1');
        } else {
            push_char(p, c);
        }
        i = i + 1;
    }
    proof {
        assert(cs@.subrange(0, cs.len() as int) =~= cs@);
    }
}

/// The pointer `/{i}` for an array index.
pub fn index_pointer(prefix: &str, i: usize) -> (r: String)
    ensures
        r@ == prefix@ + seq!['/'] + crate::text::decimal(i as nat),
{
    let mut p = String::new();
    push_str(&mut p, prefix);
    push_char(&mut p, '/');
    crate::text::push_decimal(&mut p, i as u64);
    p
}

/// What an optional string field holds: `Some(None)` when it is absent or
/// null, `Some(Some(s))` for a string, `None` for any other value.
pub open spec fn opt_str(l: LookupModel) -> Option<Option<Seq<char>>> {
    match l {
        LookupModel::Missing => Some(None),
        LookupModel::Null => Some(None),
        LookupModel::Str(s) => Some(Some(s)),
        _ => None,
    }
}

/// `base` followed by `field`.
pub fn pointer_to(base: &String, field: &str) -> (r: String)
    ensures
        r@ == base@ + field@,
{
    let mut p = string_from(base.as_str());
    push_str(&mut p, field);
    p
}

/// Reads an optional string field (see [`opt_str`]).
pub fn read_opt_str(doc: &JsonDoc, pointer: &String) -> (r: Option<Option<String>>)
    ensures
        opt_str(json_at(doc.source(), pointer@)) matches Some(o) ==> (r matches Some(x) && (
        match (x, o) {
            (Some(a), Some(b)) => a@ == b,
            (None, None) => true,
            _ => false,
        })),
        opt_str(json_at(doc.source(), pointer@)) is None ==> r is None,
{
    match doc.lookup(pointer.as_str()) {
        JsonLookup::Missing => Some(None),
        JsonLookup::Null => Some(None),
        JsonLookup::Str(s) => Some(Some(s)),
        _ => None,
    }
}

/// What an optional boolean field holds: `Some(None)` when it is absent or
/// null, `Some(Some(b))` for a boolean, `None` for any other value.
pub open spec fn opt_bool(l: LookupModel) -> Option<Option<bool>> {
    match l {
        LookupModel::Missing => Some(None),
        LookupModel::Null => Some(None),
        LookupModel::Bool(b) => Some(Some(b)),
        _ => None,
    }
}

/// What an optional `i32` field holds: `Some(None)` when it is absent or
/// null, `Some(Some(v))` for an integer within `i32`, `None` for any other
/// value.
pub open spec fn opt_i32(l: LookupModel) -> Option<Option<i32>> {
    match l {
        LookupModel::Missing => Some(None),
        LookupModel::Null => Some(None),
        LookupModel::Int(v) => if i32::MIN <= v <= i32::MAX {
            Some(Some(v as i32))
        } else {
            None
        },
        _ => None,
    }
}

/// Reads an optional boolean field (see [`opt_bool`]).
pub fn read_opt_bool(doc: &JsonDoc, pointer: &String) -> (r: Option<Option<bool>>)
    ensures
        r == opt_bool(json_at(doc.source(), pointer@)),
{
    match doc.lookup(pointer.as_str()) {
        JsonLookup::Missing => Some(None),
        JsonLookup::Null => Some(None),
        JsonLookup::Bool(b) => Some(Some(b)),
        _ => None,
    }
}

/// Reads an optional `i32` field (see [`opt_i32`]).
pub fn read_opt_i32(doc: &JsonDoc, pointer: &String) -> (r: Option<Option<i32>>)
    ensures
        r == opt_i32(json_at(doc.source(), pointer@)),
{
    match doc.lookup(pointer.as_str()) {
        JsonLookup::Missing => Some(None),
        JsonLookup::Null => Some(None),
        JsonLookup::Int(v) => if -2147483648 <= v && v <= 2147483647 {
            Some(Some(v as i32))
        } else {
            None
        },
        _ => None,
    }
}

/// The compact JSON text (`Value`'s `Display`, `serde_json::to_string`) of
/// the value that `pointer` finds in the document `text`.
pub uninterp spec fn json_compact(text: Seq<char>, pointer: Seq<char>) -> Seq<char>;

/// The indented JSON text (`serde_json::to_string_pretty`) of the document `text`.
pub uninterp spec fn json_pretty(text: Seq<char>) -> Seq<char>;

/// Calls `Value::pointer` and writes the value found with `Value`'s
/// `Display`. The contract claims that the text is `json_compact` of the
/// document's source and the pointer, for a pointer that finds a value.
#[verifier::external_body]
fn compact_value(doc: &JsonDoc, pointer: &str) -> (r: String)
    requires
        !(json_at(doc.source(), pointer@) is Missing),
    ensures
        r@ == json_compact(doc.source(), pointer@),
{
    match doc.value.pointer(pointer) {
        Some(v) => v.to_string(),
        None => String::new(),
    }
}

/// Calls `serde_json::to_string_pretty` on the document. The contract claims
/// that the text is `json_pretty` of the document's source.
#[verifier::external_body]
fn pretty_value(doc: &JsonDoc) -> (r: String)
    ensures
        r@ == json_pretty(doc.source()),
{
    serde_json::to_string_pretty(&doc.value).unwrap_or_default()
}

impl JsonDoc {
    /// The compact JSON text of the value `pointer` finds (see [`json_compact`]).
    pub fn compact(&self, pointer: &str) -> (r: String)
        requires
            !(json_at(self.source(), pointer@) is Missing),
        ensures
            r@ == json_compact(self.source(), pointer@),
    {
        compact_value(self, pointer)
    }

    /// The indented JSON text of the document (see [`json_pretty`]).
    pub fn pretty(&self) -> (r: String)
        ensures
            r@ == json_pretty(self.source()),
    {
        pretty_value(self)
    }
}

/// The member names of the object that `pointer` finds in the document
/// `text`, in the order `serde_json`'s map keeps them.
pub uninterp spec fn json_keys(text: Seq<char>, pointer: Seq<char>) -> Seq<Seq<char>>;

/// Calls `Value::pointer` and lists the keys of the object it finds. The
/// contract claims that the names are `json_keys` of the document's source
/// and the pointer.
#[verifier::external_body]
fn object_keys(doc: &JsonDoc, pointer: &str) -> (r: Vec<String>)
    requires
        json_at(doc.source(), pointer@) is Object,
    ensures
        crate::text::string_views(r@) == json_keys(doc.source(), pointer@),
{
    match doc.value.pointer(pointer) {
        Some(serde_json::Value::Object(m)) => m.keys().cloned().collect(),
        _ => Vec::new(),
    }
}

impl JsonDoc {
    /// The member names of the object `pointer` finds (see [`json_keys`]).
    pub fn keys(&self, pointer: &str) -> (r: Vec<String>)
        requires
            json_at(self.source(), pointer@) is Object,
        ensures
            crate::text::string_views(r@) == json_keys(self.source(), pointer@),
    {
        object_keys(self, pointer)
    }
}

#[verifier::external_type_specification]
#[verifier::external_body]
#[verifier::reject_recursive_types(K)]
#[verifier::reject_recursive_types(V)]
pub struct ExJsonMap<K, V>(serde_json::Map<K, V>);

/// The members of a `serde_json` object map: each key with the compact JSON
/// text (`Value`'s `Display`) of its value.
pub uninterp spec fn map_members(m: serde_json::Map<String, serde_json::Value>) -> Map<Seq<char>, Seq<char>>;

/// The JSON pointer token that names the member `k`: `~` written `~0` and
/// `/` written `~1`, every other character as it is.
pub open spec fn pointer_token(k: Seq<char>) -> Seq<char>
    decreases k.len(),
{
    if k.len() == 0 {
        Seq::empty()
    } else {
        let c = k.last();
        pointer_token(k.drop_last()) + if c == '~' {
            seq!['~', '0']
        } else if c == '/' {
            seq!['~', '1']
        } else {
            seq![c]
        }
    }
}

/// The members of the object that the document `text` is: each of its keys
/// with the compact text of the value the key's pointer finds.
pub open spec fn doc_members(text: Seq<char>) -> Map<Seq<char>, Seq<char>> {
    Map::new(
        |k: Seq<char>| json_keys(text, Seq::empty()).contains(k),
        |k: Seq<char>| json_compact(text, seq!['/'] + pointer_token(k)),
    )
}

/// Clones the map of a document that is an object. The contract claims that
/// its members are those of the document: `Value::pointer` unescapes `~1` to
/// `/` and `~0` to `~` in a token and looks the result up in the map.
#[verifier::external_body]
pub(crate) fn object_map(doc: &JsonDoc) -> (r: serde_json::Map<String, serde_json::Value>)
    requires
        json_at(doc.source(), Seq::empty()) is Object,
    ensures
        map_members(r) == doc_members(doc.source()),
{
    match &doc.value {
        serde_json::Value::Object(m) => m.clone(),
        _ => serde_json::Map::new(),
    }
}

/// Calls `Map::insert` with `key` and a clone of the value `from` holds under
/// it. The contract claims that the member `key` is set to that value and
/// that the other members stay.
#[verifier::external_body]
pub(crate) fn insert_member(
    m: &mut serde_json::Map<String, serde_json::Value>,
    from: &serde_json::Map<String, serde_json::Value>,
    key: &str,
)
    requires
        map_members(*from).dom().contains(key@),
    ensures
        map_members(*final(m)) == map_members(*old(m)).insert(key@, map_members(*from)[key@]),
{
    m.insert(key.to_owned(), from[key].clone());
}

} // verus!
