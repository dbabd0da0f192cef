//! TOML documents as the library reads them: the `toml` crate parses the
//! text, and the value is taken over into a type of the library.
use vstd::prelude::*;

verus! {

#[verifier::external_type_specification]
#[verifier::external_body]
pub struct ExTomlValue(toml::Value);

/// A TOML value: strings and tables as the library reads them; every other
/// value (integers, floats, booleans, dates, arrays) kept as `toml` holds it.
pub enum TomlValue {
    Str(String),
    Table(Vec<(String, TomlValue)>),
    Other(toml::Value),
}

/// What `toml::from_str::<toml::Value>` gives for a text: the value, or the
/// text of the error.
pub uninterp spec fn toml_of(text: Seq<char>) -> Result<TomlValue, Seq<char>>;

/// Takes a `toml::Value` over into a `TomlValue`, variant for variant.
#[verifier::external_body]
fn toml_from(v: toml::Value) -> TomlValue {
    match v {
        toml::Value::String(s) => TomlValue::Str(s),
        toml::Value::Table(t) => TomlValue::Table(toml_from_entries(t.into_iter().collect())),
        other => TomlValue::Other(other),
    }
}

/// `toml_from` of each entry's value, in order.
#[verifier::external_body]
fn toml_from_entries(t: Vec<(String, toml::Value)>) -> Vec<(String, TomlValue)> {
    let mut out = Vec::new();
    for (k, x) in t {
        out.push((k, toml_from(x)));
    }
    out
}

/// `toml::from_str::<toml::Value>`: the parsed value, or the error's text
/// (named `toml_of`).
#[verifier::external_body]
pub(crate) fn toml_parse(text: &str) -> (r: Result<TomlValue, String>)
    ensures
        match r {
            Ok(v) => toml_of(text@) == Ok::<TomlValue, Seq<char>>(v),
            Err(e) => toml_of(text@) == Err::<TomlValue, Seq<char>>(e@),
        },
{
    match toml::from_str::<toml::Value>(text) {
        Ok(v) => Ok(toml_from(v)),
        Err(e) => Err(e.to_string()),
    }
}

/// The value of the first entry named `key`.
pub open spec fn toml_member(es: Seq<(String, TomlValue)>, key: Seq<char>) -> Option<TomlValue>
    decreases es.len(),
{
    if es.len() == 0 {
        None
    } else if es[0].0@ == key {
        Some(es[0].1)
    } else {
        toml_member(es.drop_first(), key)
    }
}

/// `Value::get(key)`: the entry `key` of a table; nothing for any other value.
pub open spec fn toml_get(v: TomlValue, key: Seq<char>) -> Option<TomlValue> {
    match v {
        TomlValue::Table(es) => toml_member(es@, key),
        _ => None,
    }
}

/// The entry `key` of a table's entries.
pub fn toml_member_ref<'a>(es: &'a Vec<(String, TomlValue)>, key: &str) -> (r: Option<&'a TomlValue>)
    ensures
        match r {
            Some(x) => toml_member(es@, key@) == Some(*x),
            None => toml_member(es@, key@) is None,
        },
{
    let mut i: usize = 0;
    assert(es@.skip(0) =~= es@);
    while i < es.len()
        invariant
            i <= es.len(),
            toml_member(es@, key@) == toml_member(es@.skip(i as int), key@),
        decreases es.len() - i,
    {
        let ghost rest = es@.skip(i as int);
        assert(rest.drop_first() =~= es@.skip(i + 1));
        assert(rest[0] == es@[i as int]);
        if crate::text::str_eq(es[i].0.as_str(), key) {
            return Some(&es[i].1);
        }
        i = i + 1;
    }
    assert(es@.skip(i as int).len() == 0);
    None
}

/// `Value::get(key)`.
pub fn toml_get_ref<'a>(v: &'a TomlValue, key: &str) -> (r: Option<&'a TomlValue>)
    ensures
        match r {
            Some(x) => toml_get(*v, key@) == Some(*x),
            None => toml_get(*v, key@) is None,
        },
{
    match v {
        TomlValue::Table(es) => toml_member_ref(es, key),
        _ => None,
    }
}

} // verus!
