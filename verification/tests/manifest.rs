use artifact_keeper_cli::engine::format_root;
use artifact_keeper_cli::manifest::{parse_at_spec, FerryManifest, FileEntry, ModuleEntry, RootSpec, MANIFEST_JSON, MANIFEST_JSONL, MANIFEST_VERSION};

fn module(n: &str, v: &str) -> ModuleEntry {
    ModuleEntry {
        name: n.into(),
        name_encoded: None,
        version: v.into(),
        files: vec![FileEntry { relpath: format!("{n}-{v}.tgz"), sha256: "ab".into(), size: 1 }],
        via: n.into(),
    }
}

#[test]
fn manifest_records_each_module_once() {
    let roots = vec![RootSpec { name: "lodash".into(), version: Some("4.17.21".into()) }];
    let mut m = FerryManifest::new_at("npm", roots, "2026-01-01T00:00:00Z");
    assert_eq!(m.version, MANIFEST_VERSION);
    assert_eq!(m.kind, "ak-ferry");
    assert_eq!(m.created_at, m.updated_at);
    assert!(m.add_module(module("lodash", "4.17.21"), "2026-01-02T00:00:00Z"));
    assert!(!m.add_module(module("lodash", "4.17.21"), "2026-01-03T00:00:00Z"));
    assert!(m.add_module(module("lodash", "4.17.20"), "2026-01-04T00:00:00Z"));
    assert_eq!(m.modules.len(), 2);
    assert_eq!(m.updated_at, "2026-01-04T00:00:00Z");
    assert_eq!(m.created_at, "2026-01-01T00:00:00Z");
    assert!(m.has_module("lodash", "4.17.20"));
    assert!(!m.has_module("lodash", "1.0.0"));
    assert_eq!((MANIFEST_JSON, MANIFEST_JSONL), ("ak-ferry.json", "ak-ferry.jsonl"));
    let fresh = FerryManifest::new("go", vec![]).unwrap();
    assert_eq!(fresh.created_at, fresh.updated_at);
    assert!(fresh.created_at.ends_with("+00:00"));
    assert_eq!(fresh.created_at.as_bytes()[10], b'T');
    assert!(fresh.modules.is_empty());
}

#[test]
fn at_specs_and_root_text() {
    let r = parse_at_spec("@scope/pkg@1.2.3").unwrap();
    assert_eq!((r.name.as_str(), r.version.as_deref()), ("@scope/pkg", Some("1.2.3")));
    let r = parse_at_spec("@scope/pkg").unwrap();
    assert!(r.version.is_none());
    let r = parse_at_spec("lodash@").unwrap();
    assert_eq!(r.name, "lodash");
    assert!(r.version.is_none());
    assert_eq!(format_root(&RootSpec { name: "a".into(), version: Some("1".into()) }), "a@1");
    assert_eq!(format_root(&RootSpec { name: "a".into(), version: None }), "a");
}
