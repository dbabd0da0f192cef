//! Lifecycle policies: the request bodies of `ak lifecycle create` and
//! `ak lifecycle update`, checked and built from the command's arguments.
use vstd::prelude::*;

use crate::errors::AkError;
use crate::helpers::{invalid_id_message, parse_optional_uuid, parse_uuid, uuid_bytes, uuid_parses, uuid_text, Uuid};
use crate::json::{json_from_i64, json_i64, json_of, json_parse, JsonValue};
use crate::text::{append_str, chars_of, str_eq, string_of};

verus! {

/// What a member of a request body holds.
pub enum Field {
    Text(Seq<char>),
    Flag(bool),
    Int(i64),
    Json(JsonValue),
}

/// The member value `v` is what `f` describes.
pub open spec fn field_matches(v: JsonValue, f: Field) -> bool {
    match f {
        Field::Text(t) => v matches JsonValue::Str(s) && s@ == t,
        Field::Flag(b) => v == JsonValue::Bool(b),
        Field::Int(n) => v == json_i64(n),
        Field::Json(j) => v == j,
    }
}

/// The body holds exactly the described members, in order.
pub open spec fn body_is(r: Seq<(String, JsonValue)>, e: Seq<(Seq<char>, Field)>) -> bool {
    &&& r.len() == e.len()
    &&& forall|i: int| 0 <= i < r.len() ==> (#[trigger] r[i]).0@ == e[i].0 && field_matches(r[i].1, e[i].1)
}

/// The optional text member `key`.
pub open spec fn text_member(key: Seq<char>, v: Option<&str>) -> Seq<(Seq<char>, Field)> {
    match v {
        Some(t) => seq![(key, Field::Text(t@))],
        None => seq![],
    }
}

/// The optional integer member `key`.
pub open spec fn int_member(key: Seq<char>, v: Option<i32>) -> Seq<(Seq<char>, Field)> {
    match v {
        Some(n) => seq![(key, Field::Int(n as i64))],
        None => seq![],
    }
}

/// What `--config` gives: the parsed JSON object; the parse error, or a
/// complaint about a value that is not an object.
pub open spec fn policy_config(c: Seq<char>) -> Result<JsonValue, Seq<char>> {
    match json_of(c) {
        Err(e) => Err("--config must be a JSON object: "@ + e),
        Ok(v) => if v is Object {
            Ok(v)
        } else {
            Err("--config must be a JSON object"@)
        },
    }
}

fn config_value(c: &str) -> (r: Result<JsonValue, AkError>)
    ensures
        match policy_config(c@) {
            Ok(v) => r == Ok::<JsonValue, AkError>(v),
            Err(m) => r matches Err(e) && e is ConfigError && e.msg() == m,
        },
{
    match json_parse(c) {
        Err(m) => {
            let mut e = chars_of("--config must be a JSON object: ");
            append_str(&mut e, m.as_str());
            Err(AkError::ConfigError(string_of(&e)))
        },
        Ok(v) => match v {
            JsonValue::Object(_) => Ok(v),
            _ => Err(AkError::ConfigError(String::from_str("--config must be a JSON object"))),
        },
    }
}

fn push_text(body: &mut Vec<(String, JsonValue)>, key: &str, v: Option<&str>)
    ensures
        final(body)@.len() == old(body)@.len() + text_member(key@, v).len(),
        forall|i: int| 0 <= i < old(body)@.len() ==> #[trigger] final(body)@[i] == old(body)@[i],
        forall|i: int| 0 <= i < text_member(key@, v).len() ==> final(body)@[old(body)@.len() + i].0@ == text_member(key@, v)[i].0
            && field_matches(final(body)@[old(body)@.len() + i].1, text_member(key@, v)[i].1),
{
    match v {
        Some(t) => {
            body.push((String::from_str(key), JsonValue::Str(String::from_str(t))));
        },
        None => {},
    }
}

fn push_int(body: &mut Vec<(String, JsonValue)>, key: &str, v: Option<i32>)
    ensures
        final(body)@.len() == old(body)@.len() + int_member(key@, v).len(),
        forall|i: int| 0 <= i < old(body)@.len() ==> #[trigger] final(body)@[i] == old(body)@[i],
        forall|i: int| 0 <= i < int_member(key@, v).len() ==> final(body)@[old(body)@.len() + i].0@ == int_member(key@, v)[i].0
            && field_matches(final(body)@[old(body)@.len() + i].1, int_member(key@, v)[i].1),
{
    match v {
        Some(n) => {
            let j = json_from_i64(n as i64);
            body.push((String::from_str(key), j));
        },
        None => {},
    }
}

/// The members of an update, in order: name, enabled (`true` for
/// `--enabled`, else `false` for `--disabled`), priority, description,
/// config, cron schedule; each only when given.
pub open spec fn update_fields(
    name: Option<&str>,
    enabled: bool,
    disabled: bool,
    priority: Option<i32>,
    description: Option<&str>,
    config: Option<JsonValue>,
    cron_schedule: Option<&str>,
) -> Seq<(Seq<char>, Field)> {
    text_member("name"@, name) + (if enabled {
        seq![("enabled"@, Field::Flag(true))]
    } else if disabled {
        seq![("enabled"@, Field::Flag(false))]
    } else {
        seq![]
    }) + int_member("priority"@, priority) + text_member("description"@, description) + (match config {
        Some(v) => seq![("config"@, Field::Json(v))],
        None => seq![],
    }) + text_member("cron_schedule"@, cron_schedule)
}

/// The error for an update that changes nothing.
pub open spec fn no_fields_message() -> Seq<char> {
    "No fields to update; provide at least one of --name/--enabled/--disabled/--priority/--description/--config/--cron-schedule"@
}

proof fn lemma_append_members(
    before: Seq<(String, JsonValue)>,
    after: Seq<(String, JsonValue)>,
    e0: Seq<(Seq<char>, Field)>,
    e1: Seq<(Seq<char>, Field)>,
)
    requires
        body_is(before, e0),
        after.len() == before.len() + e1.len(),
        forall|i: int| 0 <= i < before.len() ==> #[trigger] after[i] == before[i],
        forall|i: int| 0 <= i < e1.len() ==> after[before.len() + i].0@ == e1[i].0 && field_matches(
            after[before.len() + i].1,
            e1[i].1,
        ),
    ensures
        body_is(after, e0 + e1),
{
    assert forall|i: int| 0 <= i < after.len() implies (#[trigger] after[i]).0@ == (e0 + e1)[i].0 && field_matches(
        after[i].1,
        (e0 + e1)[i].1,
    ) by {
        if i >= before.len() {
            let k = i - before.len();
            assert(after[before.len() + k] == after[i]);
        } else {
            assert(after[i] == before[i]);
        }
    }
}

/// The request body of `ak lifecycle update`: the ID must be a UUID,
/// `--config` a JSON object, and at least one field must be given.
pub fn update_policy_body(
    id: &str,
    name: Option<&str>,
    enabled: bool,
    disabled: bool,
    priority: Option<i32>,
    description: Option<&str>,
    config: Option<&str>,
    cron_schedule: Option<&str>,
) -> (r: Result<Vec<(String, JsonValue)>, AkError>)
    ensures
        !uuid_parses(id@) ==> (r matches Err(e) && e is ConfigError && e.msg() == invalid_id_message("policy"@, id@)),
        uuid_parses(id@) ==> match config {
            Some(c) => match policy_config(c@) {
                Err(m) => r matches Err(e) && e is ConfigError && e.msg() == m,
                Ok(v) => r matches Ok(b) && body_is(
                    b@,
                    update_fields(name, enabled, disabled, priority, description, Some(v), cron_schedule),
                ),
            },
            None => if update_fields(name, enabled, disabled, priority, description, None, cron_schedule).len() == 0 {
                r matches Err(e) && e is ConfigError && e.msg() == no_fields_message()
            } else {
                r matches Ok(b) && body_is(
                    b@,
                    update_fields(name, enabled, disabled, priority, description, None, cron_schedule),
                )
            },
        },
{
    match parse_uuid(id, "policy") {
        Err(e) => {
            return Err(e);
        },
        Ok(_) => {},
    }
    let mut body: Vec<(String, JsonValue)> = Vec::new();
    let ghost e0: Seq<(Seq<char>, Field)> = seq![];
    assert(body_is(body@, e0));
    let ghost b0 = body@;
    push_text(&mut body, "name", name);
    proof {
        lemma_append_members(b0, body@, e0, text_member("name"@, name));
    }
    let ghost e1 = e0 + text_member("name"@, name);
    let ghost b1 = body@;
    let ghost en: Seq<(Seq<char>, Field)> = if enabled {
        seq![("enabled"@, Field::Flag(true))]
    } else if disabled {
        seq![("enabled"@, Field::Flag(false))]
    } else {
        seq![]
    };
    if enabled {
        body.push((String::from_str("enabled"), JsonValue::Bool(true)));
    } else if disabled {
        body.push((String::from_str("enabled"), JsonValue::Bool(false)));
    }
    proof {
        lemma_append_members(b1, body@, e1, en);
    }
    let ghost e2 = e1 + en;
    let ghost b2 = body@;
    push_int(&mut body, "priority", priority);
    proof {
        lemma_append_members(b2, body@, e2, int_member("priority"@, priority));
    }
    let ghost e3 = e2 + int_member("priority"@, priority);
    let ghost b3 = body@;
    push_text(&mut body, "description", description);
    proof {
        lemma_append_members(b3, body@, e3, text_member("description"@, description));
    }
    let ghost e4 = e3 + text_member("description"@, description);
    let ghost b4 = body@;
    let ghost cv: Option<JsonValue> = None;
    match config {
        Some(c) => {
            let v = config_value(c)?;
            proof {
                cv = Some(v);
            }
            body.push((String::from_str("config"), v));
        },
        None => {},
    }
    let ghost ec: Seq<(Seq<char>, Field)> = match cv {
        Some(v) => seq![("config"@, Field::Json(v))],
        None => seq![],
    };
    proof {
        lemma_append_members(b4, body@, e4, ec);
    }
    let ghost e5 = e4 + ec;
    let ghost b5 = body@;
    push_text(&mut body, "cron_schedule", cron_schedule);
    proof {
        lemma_append_members(b5, body@, e5, text_member("cron_schedule"@, cron_schedule));
    }
    let ghost e6 = e5 + text_member("cron_schedule"@, cron_schedule);
    assert(e6 =~= update_fields(name, enabled, disabled, priority, description, cv, cron_schedule));
    if body.len() == 0 {
        return Err(
            AkError::ConfigError(
                String::from_str(
                    "No fields to update; provide at least one of --name/--enabled/--disabled/--priority/--description/--config/--cron-schedule",
                ),
            ),
        );
    }
    Ok(body)
}

/// Whether `t` is one of the lifecycle policy types.
pub open spec fn valid_policy_type(t: Seq<char>) -> bool {
    t == "max_age_days"@ || t == "max_versions"@ || t == "no_downloads_days"@ || t == "tag_pattern_keep"@ || t
        == "tag_pattern_delete"@ || t == "size_quota_bytes"@
}

/// The error for an unknown policy type.
pub open spec fn policy_type_message(t: Seq<char>) -> Seq<char> {
    "Invalid policy type '"@ + t
        + "'. Must be one of: max_age_days, max_versions, no_downloads_days, tag_pattern_keep, tag_pattern_delete, size_quota_bytes"@
}

fn is_valid_policy_type(t: &str) -> (b: bool)
    ensures
        b == valid_policy_type(t@),
{
    str_eq(t, "max_age_days") || str_eq(t, "max_versions") || str_eq(t, "no_downloads_days") || str_eq(
        t,
        "tag_pattern_keep",
    ) || str_eq(t, "tag_pattern_delete") || str_eq(t, "size_quota_bytes")
}

/// The members of a new policy, in order: name, policy type, config, then
/// description, priority, repository ID (its hyphenated text) and cron
/// schedule when given.
pub open spec fn create_fields(
    name: &str,
    policy_type: &str,
    config: JsonValue,
    description: Option<&str>,
    priority: Option<i32>,
    repository: Option<Seq<char>>,
    cron_schedule: Option<&str>,
) -> Seq<(Seq<char>, Field)> {
    seq![("name"@, Field::Text(name@)), ("policy_type"@, Field::Text(policy_type@)), ("config"@, Field::Json(config))]
        + text_member("description"@, description) + int_member("priority"@, priority) + (match repository {
        Some(t) => seq![("repository_id"@, Field::Text(t))],
        None => seq![],
    }) + text_member("cron_schedule"@, cron_schedule)
}

/// The request body of `ak lifecycle create`: the policy type must be known,
/// `--config` a JSON object and the repository ID, when given, a UUID.
pub fn create_policy_body(
    name: &str,
    policy_type: &str,
    config: &str,
    description: Option<&str>,
    priority: Option<i32>,
    repo_id: Option<&str>,
    cron_schedule: Option<&str>,
) -> (r: Result<Vec<(String, JsonValue)>, AkError>)
    ensures
        !valid_policy_type(policy_type@) ==> (r matches Err(e) && e is ConfigError && e.msg() == policy_type_message(
            policy_type@,
        )),
        valid_policy_type(policy_type@) ==> match policy_config(config@) {
            Err(m) => r matches Err(e) && e is ConfigError && e.msg() == m,
            Ok(v) => match repo_id {
                Some(rid) => if uuid_parses(rid@) {
                    r matches Ok(b) && body_is(
                        b@,
                        create_fields(
                            name,
                            policy_type,
                            v,
                            description,
                            priority,
                            Some(uuid_text(uuid_bytes(rid@))),
                            cron_schedule,
                        ),
                    )
                } else {
                    r matches Err(e) && e is ConfigError && e.msg() == invalid_id_message("repository"@, rid@)
                },
                None => r matches Ok(b) && body_is(
                    b@,
                    create_fields(name, policy_type, v, description, priority, None, cron_schedule),
                ),
            },
        },
{
    if !is_valid_policy_type(policy_type) {
        let mut e = chars_of("Invalid policy type '");
        append_str(&mut e, policy_type);
        append_str(
            &mut e,
            "'. Must be one of: max_age_days, max_versions, no_downloads_days, tag_pattern_keep, tag_pattern_delete, size_quota_bytes",
        );
        return Err(AkError::ConfigError(string_of(&e)));
    }
    let v = config_value(config)?;
    let repository = parse_optional_uuid(repo_id, "repository")?;
    let mut body: Vec<(String, JsonValue)> = Vec::new();
    body.push((String::from_str("name"), JsonValue::Str(String::from_str(name))));
    body.push((String::from_str("policy_type"), JsonValue::Str(String::from_str(policy_type))));
    let ghost vv = v;
    body.push((String::from_str("config"), v));
    let ghost e0: Seq<(Seq<char>, Field)> = seq![
        ("name"@, Field::Text(name@)),
        ("policy_type"@, Field::Text(policy_type@)),
        ("config"@, Field::Json(vv)),
    ];
    assert(body_is(body@, e0));
    let ghost b0 = body@;
    push_text(&mut body, "description", description);
    proof {
        lemma_append_members(b0, body@, e0, text_member("description"@, description));
    }
    let ghost e1 = e0 + text_member("description"@, description);
    let ghost b1 = body@;
    push_int(&mut body, "priority", priority);
    proof {
        lemma_append_members(b1, body@, e1, int_member("priority"@, priority));
    }
    let ghost e2 = e1 + int_member("priority"@, priority);
    let ghost b2 = body@;
    let ghost rt: Option<Seq<char>> = None;
    match repository {
        Some(u) => {
            let t = u.to_string();
            proof {
                rt = Some(t@);
            }
            body.push((String::from_str("repository_id"), JsonValue::Str(t)));
        },
        None => {},
    }
    let ghost er: Seq<(Seq<char>, Field)> = match rt {
        Some(t) => seq![("repository_id"@, Field::Text(t))],
        None => seq![],
    };
    proof {
        lemma_append_members(b2, body@, e2, er);
    }
    let ghost e3 = e2 + er;
    let ghost b3 = body@;
    push_text(&mut body, "cron_schedule", cron_schedule);
    proof {
        lemma_append_members(b3, body@, e3, text_member("cron_schedule"@, cron_schedule));
    }
    assert(e3 + text_member("cron_schedule"@, cron_schedule) =~= create_fields(
        name,
        policy_type,
        vv,
        description,
        priority,
        rt,
        cron_schedule,
    ));
    Ok(body)
}

} // verus!
