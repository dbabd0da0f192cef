//! Imports from other registries: the `--config` option of `ak import`.
use vstd::prelude::*;

use crate::errors::AkError;
use crate::json::{json_of, json_parse, JsonValue};
use crate::text::{append_str, chars_of, string_of};

verus! {

/// What `--config` gives an import: no option gives no members; otherwise
/// the members of the JSON object it holds, or the error's text.
pub open spec fn config_members(config: Option<&str>) -> Result<Seq<(String, JsonValue)>, Seq<char>> {
    match config {
        None => Ok(seq![]),
        Some(c) => match json_of(c@) {
            Err(e) => Err("Invalid --config JSON: "@ + e),
            Ok(v) => match v {
                JsonValue::Object(m) => Ok(m@),
                _ => Err("--config must be a JSON object"@),
            },
        },
    }
}

/// The members of the import's `--config` JSON object; none without the
/// option. Text that is not JSON, or JSON that is not an object, is refused.
pub fn parse_config(config: Option<&str>) -> (r: Result<Vec<(String, JsonValue)>, AkError>)
    ensures
        match config_members(config) {
            Ok(m) => r matches Ok(b) && b@ == m,
            Err(msg) => r matches Err(e) && e is ConfigError && e.msg() == msg,
        },
{
    match config {
        None => Ok(Vec::new()),
        Some(raw) => match json_parse(raw) {
            Err(m) => {
                let mut e = chars_of("Invalid --config JSON: ");
                append_str(&mut e, m.as_str());
                Err(AkError::ConfigError(string_of(&e)))
            },
            Ok(v) => match v {
                JsonValue::Object(members) => Ok(members),
                _ => Err(AkError::ConfigError(String::from_str("--config must be a JSON object"))),
            },
        },
    }
}

} // verus!
