use artifact_keeper_cli::cargo::{parse_cargo_toml_deps, sparse_index_versions_of};
use artifact_keeper_cli::npm::{installed_packages_of, npm_versions_of, parse_package_json_deps};
use artifact_keeper_cli::passes::decode_ctx;

#[test]
fn parse_package_json() {
    let text = r#"{
          "dependencies": { "lodash": "4.17.21" },
          "devDependencies": { "jest": "29.0.0" },
          "optionalDependencies": { "fsevents": "2.3.2" }
        }"#;
    let roots = parse_package_json_deps(text).unwrap();
    assert_eq!(roots.len(), 2);
    assert!(roots.iter().any(|r| r.name == "lodash"));
    assert!(roots.iter().any(|r| r.name == "fsevents"));
}

#[test]
fn package_json_versions_and_errors() {
    let roots = parse_package_json_deps(r#"{"dependencies": {"a": "1.0.0", "b": {"x": 1}}}"#).unwrap();
    assert_eq!(roots.len(), 2);
    assert_eq!(roots[0].version.as_deref(), Some("1.0.0"));
    assert_eq!(roots[1].version, None);
    let e = parse_package_json_deps("{not json").unwrap_err().to_string();
    assert!(e.starts_with("Invalid package.json: "));
}

#[test]
fn parse_cargo_toml() {
    let text = r#"
[package]
name = "demo"
version = "0.1.0"

[dependencies]
serde = "1.0"
tokio = { version = "1.40", features = ["full"] }
local = { path = "../local" }
"#;
    let roots = parse_cargo_toml_deps(text).unwrap();
    assert_eq!(roots.len(), 2);
    assert!(roots.iter().any(|r| r.name == "serde"));
    assert!(roots.iter().any(|r| r.name == "tokio"));
}

#[test]
fn cargo_toml_versions_and_errors() {
    let roots = parse_cargo_toml_deps("[dependencies]\nrand = { version = \"0.8\", path = \"x\" }\nodd = 3\n").unwrap();
    assert_eq!(roots.len(), 2);
    assert_eq!(roots[0].name, "odd");
    assert_eq!(roots[0].version, None);
    assert_eq!(roots[1].version.as_deref(), Some("0.8"));
    assert!(parse_cargo_toml_deps("[dependencies\n").unwrap_err().to_string().starts_with("Invalid Cargo.toml: "));
}

#[test]
fn pass_context_read_back() {
    assert_eq!(
        decode_ctx(r#"{"pack_only":true,"target":"linux-x64","node":null}"#, "target", "node"),
        (true, Some("linux-x64".to_string()), None)
    );
    assert_eq!(decode_ctx(r#"{"platform":"win_amd64","python":"3.12"}"#, "platform", "python"),
        (false, Some("win_amd64".to_string()), Some("3.12".to_string())));
    assert_eq!(decode_ctx("not json", "a", "b"), (false, None, None));
}

#[test]
fn npm_view_versions_shapes() {
    assert_eq!(npm_versions_of(&br#"["1.0.0", 2, "1.1.0"]"#.to_vec(), "x").unwrap(), vec!["1.0.0", "1.1.0"]);
    assert_eq!(npm_versions_of(&br#""3.0.0""#.to_vec(), "x").unwrap(), vec!["3.0.0"]);
    assert_eq!(
        npm_versions_of(&br#"{"a":1}"#.to_vec(), "x").unwrap_err().to_string(),
        "Unexpected npm view versions shape for x: {\"a\":1}"
    );
    assert!(npm_versions_of(&b"oops".to_vec(), "x").unwrap_err().to_string().starts_with("Invalid npm view versions JSON for x: "));
}

#[test]
fn npm_ls_tree_is_walked() {
    let out = br#"{"name":"iso","dependencies":{
        "a":{"version":"1.0.0","dependencies":{"b":{"version":"2.0.0"}}},
        "c":{"version":"3.0.0","resolved":"https://registry.npmjs.org/real/-/real-3.0.0.tgz"}}}"#;
    let pkgs = installed_packages_of(&out.to_vec());
    assert_eq!(
        pkgs,
        vec![
            ("a".to_string(), "1.0.0".to_string()),
            ("b".to_string(), "2.0.0".to_string()),
            ("real".to_string(), "3.0.0".to_string())
        ]
    );
    assert!(installed_packages_of(&b"garbage".to_vec()).is_empty());
}

#[test]
fn sparse_index_lines() {
    let text = "{\"name\":\"x\",\"vers\":\"0.1.0\",\"yanked\":false}\n\n{\"vers\":\"0.2.0\",\"yanked\":true}\r\n{\"vers\":\"0.3.0\"}\n";
    assert_eq!(sparse_index_versions_of(text, "x").unwrap(), vec!["0.1.0", "0.3.0"]);
    let e = sparse_index_versions_of("{\"vers\":\"1\"}\nnot json\n", "x").unwrap_err().to_string();
    assert!(e.starts_with("invalid sparse index line for x: "));
}
