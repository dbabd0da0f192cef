use artifact_keeper_cli::catalog::{CatalogEntry, ServerCatalog};
use artifact_keeper_cli::collect::{
    catalog_skips_pass, decide_module, error_summary, failed_units_error, module_unit, no_roots_error,
    no_versions_error, wrote_line, KnownModules, ModuleDecision,
};
use artifact_keeper_cli::errors::UnitError;
use artifact_keeper_cli::manifest::{FileEntry, ModuleEntry, RootSpec};

fn catalog_with(eco: &str, name: &str, version: &str) -> ServerCatalog {
    let mut c = ServerCatalog::new();
    c.add_entry(&CatalogEntry {
        ecosystem: eco.into(),
        name: name.into(),
        version: version.into(),
        repository_key: None,
        path: None,
        sha256: None,
        source: None,
    })
    .unwrap();
    c
}

#[test]
fn module_recorded_once() {
    let mut known = KnownModules::new();
    let cat = catalog_with("npm", "on-server", "1.0.0");
    assert_eq!(decide_module(&mut known, Some(&cat), false, "npm", "a", "1"), ModuleDecision::Record);
    assert_eq!(decide_module(&mut known, Some(&cat), false, "npm", "a", "1"), ModuleDecision::Duplicate);
    assert_eq!(decide_module(&mut known, Some(&cat), false, "npm", "On_Server", "1.0.0"), ModuleDecision::SkipCatalog);
    // skipped modules are remembered: with --force later the pair is a duplicate, not new
    assert_eq!(decide_module(&mut known, Some(&cat), true, "npm", "On_Server", "1.0.0"), ModuleDecision::Duplicate);
    assert_eq!(decide_module(&mut known, None, false, "npm", "b", "1"), ModuleDecision::Record);
    assert!(known.contains("a", "1") && known.contains("On_Server", "1.0.0") && !known.contains("b", "2"));
}

#[test]
fn known_from_manifest_modules() {
    let m = |n: &str, v: &str| ModuleEntry {
        name: n.into(),
        name_encoded: None,
        version: v.into(),
        files: vec![FileEntry { relpath: "x".into(), sha256: "s".into(), size: 1 }],
        via: "r".into(),
    };
    let mut known = KnownModules::from_modules(&vec![m("a", "1"), m("a", "1"), m("b", "2")]);
    assert!(known.contains("a", "1") && known.contains("b", "2"));
    assert!(!known.insert("b", "2"));
    assert!(known.insert("b", "3"));
}

#[test]
fn all_versions_pass_skips() {
    let cat = catalog_with("pypi", "requests", "2.31.0");
    let r = RootSpec { name: "Requests".into(), version: Some("2.31.0".into()) };
    assert!(catalog_skips_pass(true, Some(&cat), false, "pypi", &r));
    assert!(!catalog_skips_pass(false, Some(&cat), false, "pypi", &r));
    assert!(!catalog_skips_pass(true, Some(&cat), true, "pypi", &r));
    assert!(!catalog_skips_pass(true, None, false, "pypi", &r));
    let blank = RootSpec { name: "requests".into(), version: Some(String::new()) };
    assert!(!catalog_skips_pass(true, Some(&cat), false, "pypi", &blank));
}

#[test]
fn failure_summary_lines() {
    assert!(error_summary("npm", &vec![]).is_empty());
    let long = "x".repeat(450);
    let errs = vec![
        UnitError::new("npm pack a@1".into(), "  line one\r\nline two\n".into()),
        UnitError::new("npm pack b@2".into(), long.clone()),
    ];
    let lines = error_summary("npm", &errs);
    assert_eq!(
        lines[0],
        "=== npm download: 2 failure(s) (skipped; ferry zip still written if anything succeeded) ==="
    );
    assert_eq!(lines[1], "  1. npm pack a@1");
    assert_eq!(lines[2], "     line one");
    assert_eq!(lines[3], "     line two");
    assert_eq!(lines[4], "  2. npm pack b@2");
    assert_eq!(lines[5], format!("     {}…", "x".repeat(400)));
    assert_eq!(lines.len(), 6);
}

#[test]
fn report_messages() {
    assert_eq!(module_unit("hash", "a", "1"), "hash a@1");
    assert_eq!(no_roots_error("go").to_string(), "No go packages/modules found in input");
    assert_eq!(
        no_versions_error("npm").to_string(),
        "No published versions found for listed npm packages/modules"
    );
    assert_eq!(
        failed_units_error(3, "pypi").to_string(),
        "3 pypi unit(s) failed (details above); successful packages are in the ferry output"
    );
    assert_eq!(
        wrote_line("out.zip", 2, 5, "npm", false),
        "Wrote out.zip (2 roots, 5 packages). Upload with:\n  ak artifact push <npm-repo> --from-archive out.zip"
    );
    assert_eq!(
        wrote_line("out", 1, 0, "go", true),
        "Wrote out (1 roots, 0 packages). Upload with:\n  ak artifact push <go-local> --from-dir out --skip-dupe-uploads"
    );
}
