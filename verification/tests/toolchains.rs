use artifact_keeper_cli::cargo::{cargo_home_config, crate_identity, isolate_cargo_toml, lock_version_of};
use artifact_keeper_cli::npm::{
    install_failure_hint, install_flags, installed_packages, packed_tgz_name, target_by_label, NpmLsEntry,
    NpmTarget,
};
use artifact_keeper_cli::pypi::{pip_platform_args, target_python};

fn ls(name: &str, version: Option<&str>, resolved: Option<&str>) -> NpmLsEntry {
    NpmLsEntry {
        logical_name: name.into(),
        version: version.map(|s| s.to_string()),
        resolved: resolved.map(|s| s.to_string()),
    }
}

#[test]
fn npm_installed_tree_packages() {
    let entries = vec![
        ls("string-width-cjs", Some("4.2.3"), Some("https://registry.npmjs.org/string-width/-/string-width-4.2.3.tgz")),
        ls("ansi-regex", Some("5.0.1"), None),
        ls("missing", None, None),
        ls("string-width", Some("4.2.3"), None),
        ls("@koa/cors", Some("5.0.0"), Some("https://registry.npmjs.org/@koa/cors/-/cors-5.0.0.tgz")),
    ];
    let pkgs = installed_packages(&entries);
    let want: Vec<(String, String)> = vec![
        ("@koa/cors".into(), "5.0.0".into()),
        ("ansi-regex".into(), "5.0.1".into()),
        ("string-width".into(), "4.2.3".into()),
    ];
    assert_eq!(pkgs, want);
}

#[test]
fn npm_install_arguments() {
    let t = NpmTarget::parse("linux-arm64-musl").unwrap();
    assert_eq!(
        install_flags(Some(&t), Some("v20")),
        vec!["--os", "linux", "--cpu", "arm64", "--libc", "musl", "--target", "20.0.0"]
    );
    assert!(install_flags(None, None).is_empty());
    assert_eq!(install_failure_hint(Some("linux-x64"), Some("18")), " target=linux-x64 node=18");
    assert_eq!(install_failure_hint(None, None), "");
    let targets = vec![NpmTarget::parse("linux-x64").unwrap(), t.clone()];
    assert_eq!(target_by_label(&targets, "linux-arm64-musl").unwrap().cpu, "arm64");
    assert!(target_by_label(&targets, "win32-x64").is_none());
    assert_eq!(packed_tgz_name("npm notice\n lodash-4.17.21.tgz\r\nnpm notice done\n"), "lodash-4.17.21.tgz");
    // a line with trailing blanks does not end in `.tgz`
    assert_eq!(packed_tgz_name("lodash-4.17.21.tgz  \n"), "");
    assert_eq!(packed_tgz_name("a.tgz\nb.tgz\n"), "b.tgz");
    assert_eq!(packed_tgz_name("nothing here"), "");
}

#[test]
fn pip_platform_arguments() {
    assert_eq!(target_python(Some("3.11"), Some("3.10")), "3.11");
    assert_eq!(target_python(None, Some("3.10")), "3.10");
    assert_eq!(target_python(None, None), "3.12");
    assert_eq!(
        pip_platform_args("manylinux2014_x86_64", "v3.11"),
        vec![
            "--only-binary=:all:",
            "--platform",
            "manylinux2014_x86_64",
            "--python-version",
            "311",
            "--implementation",
            "cp",
            "--abi",
            "cp311"
        ]
    );
}

#[test]
fn cargo_isolate_files() {
    assert_eq!(
        isolate_cargo_toml("serde", Some("1.0.210")),
        "[workspace]\n\n[package]\nname = \"ak-ferry-isolate\"\nversion = \"0.0.0\"\nedition = \"2021\"\n\n[dependencies]\nserde = \"=1.0.210\"\n"
    );
    assert!(isolate_cargo_toml("tokio", None).ends_with("tokio = \"*\"\n"));
    assert_eq!(
        cargo_home_config("sparse+https://x/"),
        "[source.crates-io]\nreplace-with = \"ak-ferry\"\n\n[source.ak-ferry]\nregistry = \"sparse+https://x/\"\n"
    );
    let lock = vec![("my-crate".to_string(), "0.1.0".to_string()), ("my-crate".to_string(), "0.2.0".to_string())];
    assert_eq!(crate_identity("serde-1.0.0.crate", &lock), Some(("serde".into(), "1.0.0".into())));
    assert_eq!(crate_identity("my-crate-0.2.0.crate", &lock), Some(("my-crate".into(), "0.2.0".into())));
    assert_eq!(crate_identity("weird.crate", &lock), None);
    assert_eq!(lock_version_of(&lock, "my-crate").as_deref(), Some("0.1.0"));
    assert_eq!(lock_version_of(&lock, "other"), None);
}
