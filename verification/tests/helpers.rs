use artifact_keeper_cli::cache::{normalize_node_target, parse_node_list};
use artifact_keeper_cli::catalog::normalize_ecosystem;
use artifact_keeper_cli::helpers::{check_status_str, parse_uuid, sdk_err, short_id, Uuid};

#[test]
fn sdk_err_message() {
    let err = sdk_err("list keys", "connection refused");
    assert!(err.to_string().contains("Failed to list keys"));
    assert!(err.to_string().contains("connection refused"));
}

#[test]
fn check_status_str_with_message() {
    assert_eq!(check_status_str("ok", Some("all good")), "ok (all good)");
    assert_eq!(check_status_str("ok", None), "ok");
    assert_eq!(check_status_str("ok", Some("")), "ok");
}

#[test]
fn normalize_and_parse_nodes() {
    assert_eq!(normalize_node_target("18"), "18.0.0");
    assert_eq!(normalize_node_target("v20.11.0"), "20.11.0");
    let nodes = parse_node_list(&vec!["18,20".into(), "18".into()]).unwrap();
    assert_eq!(nodes, vec!["18", "20"]);
}

#[test]
fn normalize_ecosystems() {
    assert_eq!(normalize_ecosystem("NPM").unwrap(), "npm");
    assert_eq!(normalize_ecosystem("golang").unwrap(), "go");
    assert_eq!(normalize_ecosystem("pip").unwrap(), "pypi");
    assert_eq!(normalize_ecosystem("crates").unwrap(), "cargo");
}

#[test]
fn short_id_format() {
    let id = Uuid { bytes: [0u8; 16] };
    assert_eq!(short_id(&id), "00000000");
}

#[test]
fn short_id_of_parsed_uuid() {
    let id = parse_uuid("A1B2C3D4-0000-0000-0000-000000000000", "policy").unwrap();
    assert_eq!(short_id(&id), "a1b2c3d4");
}
