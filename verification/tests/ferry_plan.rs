use std::path::PathBuf;

use artifact_keeper_cli::ecosystem::Ecosystem;
use artifact_keeper_cli::ferry_dir::{
    artifact_path_for, ensure_suffix, infer_ecosystem, rel_components_of, upload_candidates, FerryPushPlan,
    FerryUploadItem,
};
use artifact_keeper_cli::manifest::{FileEntry, ModuleEntry};

fn module(name: &str, version: &str, rels: &[&str]) -> ModuleEntry {
    ModuleEntry {
        name: name.into(),
        name_encoded: None,
        version: version.into(),
        files: rels
            .iter()
            .map(|r| FileEntry { relpath: r.to_string(), sha256: "ab".into(), size: 3 })
            .collect(),
        via: name.into(),
    }
}

#[test]
fn plan_npm_ferry_dir_candidates() {
    let ms = vec![module("lodash", "4.17.21", &["npm/lodash-4.17.21.tgz", "ak-ferry.json"])];
    let cs = upload_candidates(Ecosystem::Npm, &ms);
    assert_eq!(cs.len(), 1);
    assert_eq!(cs[0].parts, vec!["npm".to_string(), "lodash-4.17.21.tgz".to_string()]);
    assert_eq!(cs[0].artifact_path, "lodash/4.17.21/lodash-4.17.21.tgz");
}

#[test]
fn candidates_skip_manifests_go_and_directories() {
    let ms = vec![
        module("a", "1", &["x\\ak-ferry.json", "ak-ferry.jsonl", "", "./", "pkgs/..", "pkgs\\a-1.tgz"]),
        module("b", "2", &["./b-2.crate"]),
    ];
    let cs = upload_candidates(Ecosystem::Cargo, &ms);
    assert_eq!(cs.len(), 2);
    assert_eq!(cs[0].parts, vec!["pkgs".to_string(), "a-1.tgz".to_string()]);
    assert_eq!(cs[0].artifact_path, "a/1/a-1.crate");
    assert_eq!(cs[1].parts, vec!["b-2.crate".to_string()]);
    assert_eq!(cs[1].artifact_path, "b/2/b-2.crate");
    assert!(upload_candidates(Ecosystem::Go, &ms).is_empty());
}

#[test]
fn rel_components_skip_empty_and_dot() {
    assert_eq!(rel_components_of("a//./b/"), vec!["a".to_string(), "b".to_string()]);
    assert!(rel_components_of("./").is_empty());
}

#[test]
fn infer_ecosystem_from_dirs_then_files() {
    let none: Vec<ModuleEntry> = vec![];
    assert_eq!(infer_ecosystem(true, true, false, false, &none).as_deref(), Some("go"));
    assert_eq!(infer_ecosystem(false, true, true, false, &none).as_deref(), Some("npm"));
    assert_eq!(infer_ecosystem(false, false, true, true, &none).as_deref(), Some("pypi"));
    assert_eq!(infer_ecosystem(false, false, false, true, &none).as_deref(), Some("cargo"));
    assert_eq!(infer_ecosystem(false, false, false, false, &none), None);
    let ms = vec![module("a", "1", &["README"]), module("b", "1", &["x\\y-1.crate", "z.tgz"])];
    assert_eq!(infer_ecosystem(false, false, false, false, &ms).as_deref(), Some("cargo"));
    let ms = vec![module("g", "v1", &["download/github.com/x/@v/v1.zip.part"])];
    assert_eq!(infer_ecosystem(false, false, false, false, &ms).as_deref(), Some("go"));
    let ms = vec![module("p", "1", &["p-1.tar.gz"])];
    assert_eq!(infer_ecosystem(false, false, false, false, &ms).as_deref(), Some("pypi"));
}

#[test]
fn plan_constructors() {
    let p = FerryPushPlan::for_go(PathBuf::from("/tmp/x/download"));
    assert_eq!(p.ecosystem, "go");
    assert_eq!(p.go_download_root, Some(PathBuf::from("/tmp/x/download")));
    assert!(p.items.is_empty());
    let e = FerryPushPlan::for_packages("npm".into(), vec![], "/tmp/ferry").unwrap_err();
    assert_eq!(e.to_string(), "Ferry dir /tmp/ferry has no uploadable package files in the manifest");
    let items = vec![FerryUploadItem { local_path: PathBuf::from("a.tgz"), artifact_path: "a/1/a.tgz".into() }];
    let p = FerryPushPlan::for_packages("npm".into(), items, "/tmp/ferry").unwrap();
    assert_eq!(p.items.len(), 1);
    assert!(p.go_download_root.is_none());
}

#[test]
fn suffixes_and_paths() {
    assert_eq!(ensure_suffix("a.tgz", ".tgz"), "a.tgz");
    assert_eq!(ensure_suffix("a", ".tgz"), "a.tgz");
    assert_eq!(artifact_path_for(Ecosystem::Go, "m", "v1", "f"), None);
    assert_eq!(
        artifact_path_for(Ecosystem::Pypi, "--Foo..Bar__", "1.0", "f.whl").as_deref(),
        Some("foo-bar/1.0/f.whl")
    );
}
