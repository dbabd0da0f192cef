use artifact_keeper_cli::catalog::{
    allow_from_formats, catalog_header, catalog_line_has_entry, entry_from_artifact, entry_from_package, export_entries,
    format_to_ecosystem, next_page, nonzero, normalize_ecosystem, normalize_name, parse_artifact_identity,
    push_unique, ArtifactInfo, CatalogEntry, ServerCatalog,
};

fn entry(eco: &str, name: &str, version: &str) -> CatalogEntry {
    CatalogEntry {
        ecosystem: eco.to_string(),
        name: name.to_string(),
        version: version.to_string(),
        repository_key: None,
        path: None,
        sha256: None,
        source: None,
    }
}

#[test]
fn catalog_roundtrip_entries() {
    let lines = [
        "# comment",
        r#"{"ecosystem":"npm","name":"Lodash","version":"4.17.21"}"#,
        r#"{"ecosystem":"go","name":"github.com/foo/bar","version":"v1.2.3"}"#,
    ];
    assert!(!catalog_line_has_entry(lines[0]));
    assert!(catalog_line_has_entry(lines[1]));
    assert!(!catalog_line_has_entry("   "));
    let entries = vec![entry("npm", "Lodash", "4.17.21"), entry("go", "github.com/foo/bar", "v1.2.3")];
    let cat = ServerCatalog::from_entries(&entries).unwrap();
    assert_eq!(cat.len(), 2);
    assert!(cat.contains("npm", "lodash", "4.17.21"));
    assert!(cat.contains("go", "github.com/foo/bar", "v1.2.3"));
    assert!(!cat.contains("npm", "lodash", "1.0.0"));
}

#[test]
fn catalog_bad_ecosystem_aborts_load() {
    let entries = vec![entry("npm", "a", "1"), entry("maven", "b", "2"), entry("perl", "c", "3")];
    let err = ServerCatalog::from_entries(&entries).err().unwrap();
    assert_eq!(err.to_string(), "Unsupported catalog ecosystem 'maven' (use npm, go, pypi, cargo)");
}

#[test]
fn catalog_add_then_contains_and_normalizes() {
    let mut cat = ServerCatalog::new();
    cat.add_entry(&entry(" PIP ", "Friendly_Id", " 1.0 ")).unwrap();
    assert!(cat.contains("pypi", "friendly-id", "1.0"));
    assert!(cat.contains("python", "FRIENDLY.ID", "1.0 "));
    assert!(!cat.contains("pypi", "friendly-id", ""));
    // blank versions add nothing; repeated entries count once
    cat.add_entry(&entry("npm", "x", "  ")).unwrap();
    cat.add_entry(&entry("pypi", "friendly-id", "1.0")).unwrap();
    assert_eq!(cat.len(), 1);
    assert!(cat.add_entry(&entry("maven", "x", "1")).is_err());
    assert_eq!(cat.len(), 1);
    // go and cargo names are kept as they are
    cat.add_entry(&entry("golang", "github.com/Foo/bar", "v1.0.0")).unwrap();
    assert!(cat.contains("go", "github.com/Foo/bar", "v1.0.0"));
    assert!(!cat.contains("go", "github.com/foo/bar", "v1.0.0"));
}

#[test]
fn catalog_should_skip_respects_force() {
    let mut cat = ServerCatalog::new();
    cat.add_entry(&entry("cargo", "serde", "1.0.0")).unwrap();
    assert!(cat.should_skip(false, "crate", "serde", "1.0.0"));
    assert!(!cat.should_skip(true, "crate", "serde", "1.0.0"));
    assert!(!cat.should_skip(false, "maven", "serde", "1.0.0"));
}

#[test]
fn catalog_clone_keeps_keys() {
    let mut cat = ServerCatalog::new();
    cat.add_entry(&entry("npm", "a", "1")).unwrap();
    let c2 = cat.clone();
    assert_eq!(c2.len(), 1);
    assert!(c2.contains("npm", "a", "1"));
}

#[test]
fn normalize_ecosystem_errors() {
    assert_eq!(normalize_ecosystem("rust").unwrap(), "cargo");
    assert_eq!(normalize_ecosystem(" Python ").unwrap(), "pypi");
    let e = normalize_ecosystem(" Maven ").unwrap_err();
    assert_eq!(e.to_string(), "Unsupported catalog ecosystem 'maven' (use npm, go, pypi, cargo)");
}

#[test]
fn format_names_and_normalized_names() {
    assert_eq!(format_to_ecosystem("Golang"), Some("go"));
    assert_eq!(format_to_ecosystem("pip"), None);
    assert_eq!(format_to_ecosystem("rust"), None);
    assert_eq!(format_to_ecosystem(" crate "), Some("cargo"));
    assert_eq!(normalize_name("npm", "Foo_Bar.js"), "foo-bar-js");
    assert_eq!(normalize_name("cargo", "Foo_Bar"), "Foo_Bar");
    assert_eq!(nonzero("  x  "), Some("x".to_string()));
    assert_eq!(nonzero("   "), None);
}

#[test]
fn artifact_identities() {
    let art = |path: &str, name: &str, version: Option<&str>| ArtifactInfo {
        repository_key: "repo".into(),
        path: path.into(),
        name: name.into(),
        version: version.map(|v| v.to_string()),
        checksum_sha256: "abc".into(),
    };
    let a = art("download/github.com/!foo/bar/@v/v1.2.3.zip", "", None);
    assert_eq!(parse_artifact_identity(&a), Some(("go", "github.com/Foo/bar".to_string(), "v1.2.3".to_string())));
    let a = art("npm/lodash/-/lodash-4.17.21.tgz", "", None);
    assert_eq!(parse_artifact_identity(&a), Some(("npm", "lodash".to_string(), "4.17.21".to_string())));
    let a = art("x/odd.tgz", " left-pad ", Some("1.3.0"));
    assert_eq!(parse_artifact_identity(&a), Some(("npm", "left-pad".to_string(), "1.3.0".to_string())));
    let a = art("pypi/requests/requests-2.31.0-py3-none-any.whl", "", None);
    assert_eq!(parse_artifact_identity(&a), Some(("pypi", "requests".to_string(), "2.31.0".to_string())));
    let a = art("crates/serde/serde-1.0.210.crate", "", None);
    assert_eq!(parse_artifact_identity(&a), Some(("cargo", "serde".to_string(), "1.0.210".to_string())));
    let a = art("maven/foo.jar", "foo", Some("1"));
    assert_eq!(parse_artifact_identity(&a), None);

    let a = art("npm/Left_Pad/-/Left_Pad-1.0.0.tgz", "", None);
    let e = entry_from_artifact(&a, None).unwrap();
    assert_eq!(e.ecosystem, "npm");
    assert_eq!(e.name, "left-pad");
    assert_eq!(e.source.as_deref(), Some("artifacts"));
    assert_eq!(e.path.as_deref(), Some("npm/Left_Pad/-/Left_Pad-1.0.0.tgz"));
    let only_go = vec!["go".to_string()];
    assert!(entry_from_artifact(&a, Some(&only_go)).is_none());
}

#[test]
fn export_helpers() {
    let allow = allow_from_formats(&vec!["NPM".into(), "npm".into(), "golang".into()]).unwrap().unwrap();
    assert_eq!(allow, vec!["npm".to_string(), "go".to_string()]);
    assert!(allow_from_formats(&vec![]).unwrap().is_none());
    let e = allow_from_formats(&vec!["npm".into(), "maven".into()]).unwrap_err();
    assert_eq!(e.to_string(), "Unsupported catalog ecosystem 'maven' (use npm, go, pypi, cargo)");

    let e = entry_from_package("Python", "Jinja2", " 3.1.4 ", "pypi-local", None).unwrap();
    assert_eq!(e.ecosystem, "pypi");
    assert_eq!(e.name, "jinja2");
    assert_eq!(e.version, "3.1.4");
    assert_eq!(e.repository_key.as_deref(), Some("pypi-local"));
    assert_eq!(e.source.as_deref(), Some("packages"));
    assert!(e.path.is_none());
    assert!(entry_from_package("maven", "x", "1", "r", None).is_none());
    assert!(entry_from_package("npm", "x", "  ", "r", None).is_none());
    assert!(entry_from_package("npm", "x", "1", "r", Some(&allow)).is_some());
    assert!(entry_from_package("cargo", "x", "1", "r", Some(&allow)).is_none());

    let mut entries = Vec::new();
    assert!(push_unique(&mut entries, entry("npm", "a", "1")));
    assert!(!push_unique(&mut entries, entry("npm", "a", "1")));
    assert!(push_unique(&mut entries, entry("npm", "a", "2")));
    assert_eq!(entries.len(), 2);

    assert_eq!(next_page(1, 3), Some(2));
    assert_eq!(next_page(3, 3), None);
    assert_eq!(next_page(1, 0), None);
    assert_eq!(
        catalog_header("npm-local", 12, "2026-01-01T00:00:00+00:00"),
        "# ak-catalog v1 repo=npm-local entries=12 exported_at=2026-01-01T00:00:00+00:00"
    );
}

#[test]
fn exported_package_is_found_after_load() {
    let e = entry_from_package("PyPI", "Friendly_Id", " 5.5.1 ", "pypi-local", None).unwrap();
    let mut cat = ServerCatalog::new();
    cat.add_entry(&e).unwrap();
    assert!(cat.should_skip(false, "pypi", "Friendly_Id", "5.5.1"));
    assert!(cat.should_skip(false, "pypi", "friendly-id", " 5.5.1"));
    assert!(!cat.should_skip(true, "pypi", "Friendly_Id", "5.5.1"));
}

#[test]
fn exported_header_is_not_an_entry() {
    let h = catalog_header("go-remote", 0, "2026-02-03T04:05:06+00:00");
    assert!(!catalog_line_has_entry(&h));
    assert!(catalog_line_has_entry("  {\"ecosystem\":\"go\"}"));
}

#[test]
fn export_keeps_first_occurrences() {
    let listed = vec![entry("npm", "a", "1"), entry("npm", "b", "1"), entry("npm", "a", "1"), entry("go", "a", "1")];
    let out = export_entries(listed);
    let keys: Vec<(String, String, String)> =
        out.iter().map(|e| (e.ecosystem.clone(), e.name.clone(), e.version.clone())).collect();
    assert_eq!(
        keys,
        vec![
            ("npm".to_string(), "a".to_string(), "1".to_string()),
            ("npm".to_string(), "b".to_string(), "1".to_string()),
            ("go".to_string(), "a".to_string(), "1".to_string())
        ]
    );
}
