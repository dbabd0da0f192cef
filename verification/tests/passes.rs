use artifact_keeper_cli::manifest::RootSpec;
use artifact_keeper_cli::passes::{default_passes, matrix_note, pass_of, pass_via, plan_passes, resolved_root_version};

fn root(n: &str, v: Option<&str>) -> RootSpec {
    RootSpec { name: n.into(), version: v.map(|s| s.to_string()) }
}

#[test]
fn pass_matrix_roots_targets_runtimes() {
    let roots = vec![root("a", Some("1")), root("b", None)];
    let targets = vec!["linux-x64".to_string(), "darwin-arm64".to_string()];
    let nodes = vec!["18".to_string(), "20".to_string(), "22".to_string()];
    let ps = plan_passes(&roots, false, &targets, &nodes);
    assert_eq!(ps.len(), 12);
    for (k, p) in ps.iter().enumerate() {
        assert_eq!(p.pass_idx, k + 1);
        assert_eq!(p.total, 12);
        assert!(!p.pack_only);
    }
    assert_eq!(ps[0].root.name, "a");
    assert_eq!(ps[0].first.as_deref(), Some("linux-x64"));
    assert_eq!(ps[0].second.as_deref(), Some("18"));
    assert_eq!(ps[2].second.as_deref(), Some("22"));
    assert_eq!(ps[3].first.as_deref(), Some("darwin-arm64"));
    assert_eq!(ps[6].root.name, "b");
    assert!(ps[6].root.version.is_none());
    assert_eq!(ps[11].first.as_deref(), Some("darwin-arm64"));
    assert_eq!(ps[11].second.as_deref(), Some("22"));
}

#[test]
fn pass_matrix_host_defaults_and_all_versions() {
    let roots = vec![root("a", Some("1")), root("a", Some("2"))];
    let ps = plan_passes(&roots, false, &vec![], &vec!["3.11".to_string()]);
    assert_eq!(ps.len(), 2);
    assert!(ps[0].first.is_none());
    assert_eq!(ps[1].second.as_deref(), Some("3.11"));
    let ps = plan_passes(&roots, true, &vec!["linux-x64".to_string()], &vec!["20".to_string()]);
    assert_eq!(ps.len(), 2);
    assert!(ps.iter().all(|p| p.pack_only && p.first.is_none() && p.second.is_none() && p.total == 2));
    assert_eq!(ps[1].root.version.as_deref(), Some("2"));
    assert!(plan_passes(&vec![], false, &vec![], &vec![]).is_empty());

    let rp = pass_of(&ps[1], "{\"pack_only\":true}".to_string());
    assert_eq!((rp.pass_idx, rp.total), (2, 2));
    assert_eq!(rp.context, "{\"pack_only\":true}");
}

#[test]
fn default_pass_numbering() {
    let ps = default_passes(&vec![root("x", None), root("y", Some("1"))]);
    assert_eq!(ps.len(), 2);
    assert_eq!((ps[0].pass_idx, ps[0].total, ps[0].root.name.as_str()), (1, 2, "x"));
    assert_eq!((ps[1].pass_idx, ps[1].context.as_str()), (2, ""));
}

#[test]
fn via_and_closure_versions() {
    assert_eq!(pass_via("lodash@4", Some("linux-x64"), None, "node"), "lodash@4 [linux-x64/node-host]");
    assert_eq!(pass_via("requests", None, Some("3.11"), "py"), "requests [host/py-3.11]");
    let pairs = vec![("Friendly_Id".to_string(), "5.5".to_string()), ("x".to_string(), "1".to_string())];
    assert_eq!(resolved_root_version(&pairs, true, &root("friendly-id", Some(">=5"))), "5.5");
    assert_eq!(resolved_root_version(&pairs, false, &root("friendly-id", Some(">=5"))), ">=5");
    assert_eq!(resolved_root_version(&pairs, false, &root("y", None)), "");
}

#[test]
fn matrix_note_lists_choices_or_host() {
    let t = vec!["linux-x64".to_string(), "darwin-arm64".to_string()];
    let none: Vec<String> = Vec::new();
    assert_eq!(matrix_note(true, false, &t, &none).as_deref(), Some("npm platform targets: linux-x64,darwin-arm64; node: host"));
    let py = vec!["3.11".to_string()];
    assert_eq!(
        matrix_note(false, false, &none, &py).as_deref(),
        Some("pypi platforms: host; python: 3.11")
    );
    assert_eq!(matrix_note(true, false, &none, &none), None);
    assert_eq!(matrix_note(false, true, &none, &none), None);
}

#[test]
fn matrix_note_all_versions_ignores_matrix() {
    let t = vec!["win_amd64".to_string()];
    let none: Vec<String> = Vec::new();
    assert_eq!(
        matrix_note(false, true, &t, &none).as_deref(),
        Some("note: --target/--node are ignored with --all-versions (root dists only, --no-deps)")
    );
    assert!(matrix_note(true, true, &none, &t).unwrap().starts_with("note: --target/--node are ignored with --all-versions (packs root tarballs only)"));
}
