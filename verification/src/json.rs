//! JSON values as the library reads them: `serde_json` parses the text, and
//! the value is taken over one for one into a type of the library.
use vstd::prelude::*;

use crate::manifest::opt_view;

verus! {

#[verifier::external_type_specification]
#[verifier::external_body]
pub struct ExJsonNumber(serde_json::Number);

#[verifier::external_type_specification]
#[verifier::external_body]
pub struct ExJsonValue(serde_json::Value);

/// A JSON value. Numbers are kept as `serde_json` numbers: the library never
/// reads them. Object members come in the order `serde_json` keeps them.
pub enum JsonValue {
    Null,
    Bool(bool),
    Number(serde_json::Number),
    Str(String),
    Array(Vec<JsonValue>),
    Object(Vec<(String, JsonValue)>),
}

/// What `serde_json::from_str::<serde_json::Value>` gives for a text: the
/// value, or the text of the error.
pub uninterp spec fn json_of(text: Seq<char>) -> Result<JsonValue, Seq<char>>;

/// What `serde_json::from_slice::<serde_json::Value>` gives for some bytes:
/// the value, or the text of the error.
pub uninterp spec fn json_of_bytes(data: Seq<u8>) -> Result<JsonValue, Seq<char>>;

/// The text `serde_json` writes for a value (`Value`'s `Display`).
pub uninterp spec fn json_text(v: JsonValue) -> Seq<char>;

/// Takes a `serde_json::Value` over into a `JsonValue`, variant for variant.
#[verifier::external_body]
fn json_from(v: serde_json::Value) -> JsonValue {
    match v {
        serde_json::Value::Null => JsonValue::Null,
        serde_json::Value::Bool(b) => JsonValue::Bool(b),
        serde_json::Value::Number(n) => JsonValue::Number(n),
        serde_json::Value::String(s) => JsonValue::Str(s),
        serde_json::Value::Array(a) => JsonValue::Array(json_from_items(a)),
        serde_json::Value::Object(m) => JsonValue::Object(json_from_members(m.into_iter().collect())),
    }
}

/// `json_from` of each item, in order.
#[verifier::external_body]
fn json_from_items(a: Vec<serde_json::Value>) -> Vec<JsonValue> {
    let mut out = Vec::new();
    for x in a {
        out.push(json_from(x));
    }
    out
}

/// `json_from` of each member's value, in order.
#[verifier::external_body]
fn json_from_members(m: Vec<(String, serde_json::Value)>) -> Vec<(String, JsonValue)> {
    let mut out = Vec::new();
    for (k, x) in m {
        out.push((k, json_from(x)));
    }
    out
}

/// Takes a `JsonValue` back into a `serde_json::Value`, variant for variant.
#[verifier::external_body]
fn json_into(v: &JsonValue) -> serde_json::Value {
    match v {
        JsonValue::Null => serde_json::Value::Null,
        JsonValue::Bool(b) => serde_json::Value::Bool(*b),
        JsonValue::Number(n) => serde_json::Value::Number(n.clone()),
        JsonValue::Str(s) => serde_json::Value::String(s.clone()),
        JsonValue::Array(a) => serde_json::Value::Array(json_into_items(a)),
        JsonValue::Object(m) => serde_json::Value::Object(json_into_members(m).into_iter().collect()),
    }
}

/// `json_into` of each item, in order.
#[verifier::external_body]
fn json_into_items(a: &Vec<JsonValue>) -> Vec<serde_json::Value> {
    let mut out = Vec::new();
    for x in a {
        out.push(json_into(x));
    }
    out
}

/// `json_into` of each member's value, in order.
#[verifier::external_body]
fn json_into_members(m: &Vec<(String, JsonValue)>) -> Vec<(String, serde_json::Value)> {
    let mut out = Vec::new();
    for (k, x) in m {
        out.push((k.clone(), json_into(x)));
    }
    out
}

/// `serde_json::from_str::<serde_json::Value>`: the parsed value, or the
/// error's text (named `json_of`).
#[verifier::external_body]
pub(crate) fn json_parse(text: &str) -> (r: Result<JsonValue, String>)
    ensures
        match r {
            Ok(v) => json_of(text@) == Ok::<JsonValue, Seq<char>>(v),
            Err(e) => json_of(text@) == Err::<JsonValue, Seq<char>>(e@),
        },
{
    match serde_json::from_str::<serde_json::Value>(text) {
        Ok(v) => Ok(json_from(v)),
        Err(e) => Err(e.to_string()),
    }
}

/// `serde_json::from_slice::<serde_json::Value>`: the parsed value, or the
/// error's text (named `json_of_bytes`).
#[verifier::external_body]
pub(crate) fn json_parse_bytes(data: &Vec<u8>) -> (r: Result<JsonValue, String>)
    ensures
        match r {
            Ok(v) => json_of_bytes(data@) == Ok::<JsonValue, Seq<char>>(v),
            Err(e) => json_of_bytes(data@) == Err::<JsonValue, Seq<char>>(e@),
        },
{
    match serde_json::from_slice::<serde_json::Value>(data.as_slice()) {
        Ok(v) => Ok(json_from(v)),
        Err(e) => Err(e.to_string()),
    }
}

/// `serde_json::Value::to_string` (named `json_text`).
#[verifier::external_body]
pub(crate) fn json_to_text(v: &JsonValue) -> (r: String)
    ensures
        r@ == json_text(*v),
{
    json_into(v).to_string()
}

/// The JSON number of an integer (`serde_json::Number::from`).
pub uninterp spec fn json_i64(n: i64) -> JsonValue;

/// `serde_json::Number::from(n)` as a JSON value (named `json_i64`).
#[verifier::external_body]
pub(crate) fn json_from_i64(n: i64) -> (r: JsonValue)
    ensures
        r == json_i64(n),
        r is Number,
{
    JsonValue::Number(serde_json::Number::from(n))
}

/// The value of the first member named `key`.
pub open spec fn member(es: Seq<(String, JsonValue)>, key: Seq<char>) -> Option<JsonValue>
    decreases es.len(),
{
    if es.len() == 0 {
        None
    } else if es[0].0@ == key {
        Some(es[0].1)
    } else {
        member(es.drop_first(), key)
    }
}

/// `Value::get(key)`: the member `key` of an object; nothing for any other value.
pub open spec fn json_get(v: JsonValue, key: Seq<char>) -> Option<JsonValue> {
    match v {
        JsonValue::Object(es) => member(es@, key),
        _ => None,
    }
}

/// `as_str` of an optional value.
pub open spec fn json_str(o: Option<JsonValue>) -> Option<Seq<char>> {
    match o {
        Some(JsonValue::Str(s)) => Some(s@),
        _ => None,
    }
}

/// A string member's value, as the string itself.
pub open spec fn json_string(o: Option<JsonValue>) -> Option<String> {
    match o {
        Some(JsonValue::Str(s)) => Some(s),
        _ => None,
    }
}

/// `as_bool` of an optional value, `false` when it is not a boolean.
pub open spec fn json_flag(o: Option<JsonValue>) -> bool {
    match o {
        Some(JsonValue::Bool(b)) => b,
        _ => false,
    }
}

fn member_ref<'a>(es: &'a Vec<(String, JsonValue)>, key: &str) -> (r: Option<&'a JsonValue>)
    ensures
        match r {
            Some(x) => member(es@, key@) == Some(*x),
            None => member(es@, key@) is None,
        },
{
    let mut i: usize = 0;
    assert(es@.skip(0) =~= es@);
    while i < es.len()
        invariant
            i <= es.len(),
            member(es@, key@) == member(es@.skip(i as int), key@),
        decreases es.len() - i,
    {
        let ghost rest = es@.skip(i as int);
        assert(rest.drop_first() =~= es@.skip(i + 1));
        assert(rest[0] == es@[i as int]);
        if crate::text::str_eq(es[i].0.as_str(), key) {
            return Some(&es[i].1);
        }
        i = i + 1;
    }
    assert(es@.skip(i as int).len() == 0);
    None
}

/// `Value::get(key)`.
pub fn json_get_ref<'a>(v: &'a JsonValue, key: &str) -> (r: Option<&'a JsonValue>)
    ensures
        match r {
            Some(x) => json_get(*v, key@) == Some(*x),
            None => json_get(*v, key@) is None,
        },
{
    match v {
        JsonValue::Object(es) => member_ref(es, key),
        _ => None,
    }
}

/// `as_str` of a member.
pub fn json_get_str(v: &JsonValue, key: &str) -> (r: Option<String>)
    ensures
        opt_view(r) == json_str(json_get(*v, key@)),
{
    match json_get_ref(v, key) {
        Some(JsonValue::Str(s)) => Some(s.clone()),
        _ => None,
    }
}

/// `as_bool` of a member, `false` when it is not a boolean.
pub fn json_get_flag(v: &JsonValue, key: &str) -> (r: bool)
    ensures
        r == json_flag(json_get(*v, key@)),
{
    match json_get_ref(v, key) {
        Some(JsonValue::Bool(b)) => *b,
        _ => false,
    }
}

} // verus!
