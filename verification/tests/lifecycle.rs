use artifact_keeper_cli::errors::AkError;
use artifact_keeper_cli::import::parse_config;
use artifact_keeper_cli::json::JsonValue;
use artifact_keeper_cli::lifecycle::{create_policy_body, update_policy_body};

const NIL_UUID: &str = "00000000-0000-0000-0000-000000000000";

fn config_error(r: Result<Vec<(String, JsonValue)>, AkError>) -> String {
    match r {
        Err(AkError::ConfigError(m)) => m,
        Err(AkError::ServerError(m)) => panic!("unexpected server error: {m}"),
        Ok(_) => panic!("expected an error"),
    }
}

fn keys(body: &[(String, JsonValue)]) -> Vec<&str> {
    body.iter().map(|(k, _)| k.as_str()).collect()
}

fn member<'a>(body: &'a [(String, JsonValue)], key: &str) -> &'a JsonValue {
    &body.iter().find(|(k, _)| k == key).expect("member present").1
}

fn as_i64(v: &JsonValue) -> Option<i64> {
    match v {
        JsonValue::Number(n) => n.as_i64(),
        _ => None,
    }
}

fn as_str(v: &JsonValue) -> Option<&str> {
    match v {
        JsonValue::Str(s) => Some(s.as_str()),
        _ => None,
    }
}

#[test]
fn parse_config_defaults_empty() {
    let map = parse_config(None).unwrap();
    assert!(map.is_empty());
}

#[test]
fn parse_config_parses_object() {
    let map = parse_config(Some("{\"a\":1}")).unwrap();
    assert_eq!(map.iter().find(|(k, _)| k == "a").and_then(|(_, v)| as_i64(v)), Some(1));
}

#[test]
fn parse_config_rejects_non_object() {
    assert!(parse_config(Some("[1,2,3]")).is_err());
    assert!(parse_config(Some("not json")).is_err());
}

#[test]
fn parse_config_error_messages() {
    assert_eq!(config_error(parse_config(Some("[1,2,3]"))), "--config must be a JSON object");
    assert!(config_error(parse_config(Some("not json"))).starts_with("Invalid --config JSON: "));
}

#[test]
fn update_body_name_and_disabled() {
    let body = update_policy_body(NIL_UUID, Some("renamed"), false, true, Some(5), None, None, None).unwrap();
    assert_eq!(keys(&body), vec!["name", "enabled", "priority"]);
    assert_eq!(as_str(member(&body, "name")), Some("renamed"));
    assert!(matches!(member(&body, "enabled"), JsonValue::Bool(false)));
    assert_eq!(as_i64(member(&body, "priority")), Some(5));
}

#[test]
fn update_body_all_fields_in_order() {
    let body = update_policy_body(
        NIL_UUID,
        Some("renamed"),
        true,
        false,
        Some(-3),
        Some("desc"),
        Some("{\"days\": 60}"),
        Some("0 2 * * *"),
    )
    .unwrap();
    assert_eq!(keys(&body), vec!["name", "enabled", "priority", "description", "config", "cron_schedule"]);
    assert!(matches!(member(&body, "enabled"), JsonValue::Bool(true)));
    assert_eq!(as_i64(member(&body, "priority")), Some(-3));
    match member(&body, "config") {
        JsonValue::Object(m) => {
            assert_eq!(m.len(), 1);
            assert_eq!(m[0].0, "days");
            assert_eq!(as_i64(&m[0].1), Some(60));
        },
        _ => panic!("config is not an object"),
    }
    assert_eq!(as_str(member(&body, "cron_schedule")), Some("0 2 * * *"));
}

#[test]
fn update_body_no_fields() {
    let m = config_error(update_policy_body(NIL_UUID, None, false, false, None, None, None, None));
    assert_eq!(
        m,
        "No fields to update; provide at least one of --name/--enabled/--disabled/--priority/--description/--config/--cron-schedule"
    );
}

#[test]
fn update_body_invalid_config() {
    let m = config_error(update_policy_body(NIL_UUID, None, false, false, None, None, Some("not-json"), None));
    assert!(m.starts_with("--config must be a JSON object: "));
    let m = config_error(update_policy_body(NIL_UUID, Some("x"), false, false, None, None, Some("[1]"), None));
    assert_eq!(m, "--config must be a JSON object");
}

#[test]
fn update_body_invalid_id() {
    let m = config_error(update_policy_body("policy-id", Some("x"), false, false, None, None, None, None));
    assert_eq!(m, "Invalid policy ID: policy-id");
}

#[test]
fn create_body_minimal() {
    let body = create_policy_body("cleanup-old", "max_age_days", "{\"days\": 90}", None, None, None, None).unwrap();
    assert_eq!(keys(&body), vec!["name", "policy_type", "config"]);
    assert_eq!(as_str(member(&body, "name")), Some("cleanup-old"));
    assert_eq!(as_str(member(&body, "policy_type")), Some("max_age_days"));
}

#[test]
fn create_body_all_options() {
    let body = create_policy_body(
        "strict-policy",
        "max_versions",
        "{\"keep\": 5}",
        Some("keep latest 5"),
        Some(10),
        Some("{AAAAAAAA-AAAA-AAAA-AAAA-AAAAAAAAAAAA}"),
        Some("0 2 * * *"),
    )
    .unwrap();
    assert_eq!(
        keys(&body),
        vec!["name", "policy_type", "config", "description", "priority", "repository_id", "cron_schedule"]
    );
    assert_eq!(as_i64(member(&body, "priority")), Some(10));
    assert_eq!(as_str(member(&body, "repository_id")), Some("aaaaaaaa-aaaa-aaaa-aaaa-aaaaaaaaaaaa"));
}

#[test]
fn create_body_invalid_type() {
    let m = config_error(create_policy_body("bad", "not_a_type", "{}", None, None, None, None));
    assert_eq!(
        m,
        "Invalid policy type 'not_a_type'. Must be one of: max_age_days, max_versions, no_downloads_days, tag_pattern_keep, tag_pattern_delete, size_quota_bytes"
    );
}

#[test]
fn create_body_invalid_config() {
    let m = config_error(create_policy_body("bad", "max_age_days", "not-json", None, None, None, None));
    assert!(m.starts_with("--config must be a JSON object: "));
    let m = config_error(create_policy_body("bad", "max_age_days", "7", None, None, None, None));
    assert_eq!(m, "--config must be a JSON object");
}

#[test]
fn create_body_invalid_repository() {
    let m = config_error(create_policy_body("p", "size_quota_bytes", "{}", None, None, Some("repo-id"), None));
    assert_eq!(m, "Invalid repository ID: repo-id");
}
