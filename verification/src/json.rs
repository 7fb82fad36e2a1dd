//! JSON documents as the library reads them: the tree that
//! `serde_json` parses a reply into, and the lookups the readers use.
use vstd::prelude::*;
use crate::text::{str_eq, string_of, chars_of};

verus! {

broadcast use vstd::string::group_string_axioms;

#[verifier::external_type_specification]
#[verifier::external_body]
pub struct ExJsonValue(serde_json::Value);

/// A parsed JSON value.
pub enum Json {
    Null,
    Bool(bool),
    /// A number, by its value when it is an unsigned 64-bit integer
    /// (`None` for negative and fractional numbers).
    Number(Option<u64>),
    Str(String),
    Array(Vec<Json>),
    /// An object's members, each key once.
    Object(Vec<(String, Json)>),
}

/// The document `serde_json` parses this text into; `None` when the text
/// is not JSON.
pub uninterp spec fn parsed_json(text: Seq<char>) -> Option<Json>;

/// `serde_json::from_str::<serde_json::Value>`, the value converted member
/// for member (`json_of`). The result is named, not described: it is
/// whatever document serde_json reads from the text.
#[verifier::external_body]
pub(crate) fn parse_json(text: &str) -> (r: Option<Json>)
    ensures
        r == parsed_json(text@),
{
    match serde_json::from_str::<serde_json::Value>(text) {
        Ok(v) => Some(json_of(&v)),
        Err(_) => None,
    }
}

/// A `serde_json::Value` as a `Json`, variant for variant; a number keeps
/// `Number::as_u64`. It states nothing of its own: `parse_json` names what
/// the two give together.
#[verifier::external_body]
fn json_of(v: &serde_json::Value) -> Json {
    match v {
        serde_json::Value::Null => Json::Null,
        serde_json::Value::Bool(b) => Json::Bool(*b),
        serde_json::Value::Number(n) => Json::Number(n.as_u64()),
        serde_json::Value::String(s) => Json::Str(s.clone()),
        serde_json::Value::Array(a) => Json::Array(a.iter().map(json_of).collect()),
        serde_json::Value::Object(m) => Json::Object(m.iter().map(|(k, x)| (k.clone(), json_of(x))).collect()),
    }
}

/// A reply body as a JSON value: the parsed document, `Null` when the body
/// is not JSON.
pub open spec fn reply_json_spec(body: Seq<char>) -> Json {
    match parsed_json(body) {
        Some(j) => j,
        None => Json::Null,
    }
}

/// Read a reply body as JSON (`Null` when it is not JSON).
pub fn reply_json(body: &str) -> (r: Json)
    ensures
        r == reply_json_spec(body@),
{
    match parse_json(body) {
        Some(j) => j,
        None => Json::Null,
    }
}

// ---------------------------------------------------------------------------
// Lookups
// ---------------------------------------------------------------------------

pub open spec fn deref_opt(r: Option<&Json>) -> Option<Json> {
    match r {
        Some(x) => Some(*x),
        None => None,
    }
}

/// The value of the first member named `key`.
pub open spec fn member_spec(es: Seq<(String, Json)>, key: Seq<char>) -> Option<Json>
    decreases es.len(),
{
    if es.len() == 0 {
        None
    } else if es[0].0@ == key {
        Some(es[0].1)
    } else {
        member_spec(es.drop_first(), key)
    }
}

/// `Value::get` with a key: the member of an object, nothing otherwise.
pub open spec fn get_spec(j: Json, key: Seq<char>) -> Option<Json> {
    match j {
        Json::Object(es) => member_spec(es@, key),
        _ => None,
    }
}

pub open spec fn get_opt(j: Option<Json>, key: Seq<char>) -> Option<Json> {
    match j {
        Some(x) => get_spec(x, key),
        None => None,
    }
}

/// `as_str`.
pub open spec fn str_of(j: Option<Json>) -> Option<Seq<char>> {
    match j {
        Some(Json::Str(s)) => Some(s@),
        _ => None,
    }
}

/// `as_bool`.
pub open spec fn bool_of(j: Option<Json>) -> Option<bool> {
    match j {
        Some(Json::Bool(b)) => Some(b),
        _ => None,
    }
}

/// `as_u64`.
pub open spec fn u64_of(j: Option<Json>) -> Option<u64> {
    match j {
        Some(Json::Number(n)) => n,
        _ => None,
    }
}

/// `as_array`.
pub open spec fn items_of(j: Option<Json>) -> Option<Seq<Json>> {
    match j {
        Some(Json::Array(a)) => Some(a@),
        _ => None,
    }
}

/// `as_object`.
pub open spec fn members_of(j: Option<Json>) -> Option<Seq<(String, Json)>> {
    match j {
        Some(Json::Object(es)) => Some(es@),
        _ => None,
    }
}

/// The value of the first member named `key`.
pub fn member<'a>(es: &'a Vec<(String, Json)>, key: &str) -> (r: Option<&'a Json>)
    ensures
        deref_opt(r) == member_spec(es@, key@),
{
    let mut i: usize = 0;
    assert(es@.skip(0) =~= es@);
    while i < es.len()
        invariant
            i <= es.len(),
            member_spec(es@, key@) == member_spec(es@.skip(i as int), key@),
        decreases es.len() - i,
    {
        assert(es@.skip(i as int)[0] == es@[i as int]);
        assert(es@.skip(i as int).drop_first() =~= es@.skip(i + 1));
        let (k, v) = &es[i];
        if str_eq(k.as_str(), key) {
            return Some(v);
        }
        i += 1;
    }
    assert(es@.skip(i as int) =~= Seq::<(String, Json)>::empty());
    None
}

/// `Value::get` with a key.
pub fn get<'a>(j: &'a Json, key: &str) -> (r: Option<&'a Json>)
    ensures
        deref_opt(r) == get_spec(*j, key@),
{
    match j {
        Json::Object(es) => member(es, key),
        _ => None,
    }
}

/// `get` on a value that may be missing.
pub fn get_in<'a>(j: Option<&'a Json>, key: &str) -> (r: Option<&'a Json>)
    ensures
        deref_opt(r) == get_opt(deref_opt(j), key@),
{
    match j {
        Some(x) => get(x, key),
        None => None,
    }
}

/// `as_str`, copied.
pub fn as_str(j: Option<&Json>) -> (r: Option<String>)
    ensures
        r.deep_view() == str_of(deref_opt(j)),
{
    match j {
        Some(Json::Str(s)) => Some(string_of(&chars_of(s.as_str()))),
        _ => None,
    }
}

/// `as_bool`.
pub fn as_bool(j: Option<&Json>) -> (r: Option<bool>)
    ensures
        r == bool_of(deref_opt(j)),
{
    match j {
        Some(Json::Bool(b)) => Some(*b),
        _ => None,
    }
}

/// `as_u64`.
pub fn as_u64(j: Option<&Json>) -> (r: Option<u64>)
    ensures
        r == u64_of(deref_opt(j)),
{
    match j {
        Some(Json::Number(n)) => *n,
        _ => None,
    }
}

/// `as_array`.
pub fn as_array<'a>(j: Option<&'a Json>) -> (r: Option<&'a Vec<Json>>)
    ensures
        match r {
            Some(a) => items_of(deref_opt(j)) == Some(a@),
            None => items_of(deref_opt(j)) is None,
        },
{
    match j {
        Some(Json::Array(a)) => Some(a),
        _ => None,
    }
}

/// `as_object`.
pub fn as_object<'a>(j: Option<&'a Json>) -> (r: Option<&'a Vec<(String, Json)>>)
    ensures
        match r {
            Some(es) => members_of(deref_opt(j)) == Some(es@),
            None => members_of(deref_opt(j)) is None,
        },
{
    match j {
        Some(Json::Object(es)) => Some(es),
        _ => None,
    }
}

} // verus!
