use artifact_keeper_cli::cargo::{parse_crate_filename, sparse_index_path};
use artifact_keeper_cli::catalog::parse_npm_tarball_path;
use artifact_keeper_cli::go::parse_go_mod_requires;
use artifact_keeper_cli::go_proxy::{decode_go_path, encode_go_path};
use artifact_keeper_cli::manifest::parse_module_list;
use artifact_keeper_cli::npm::{parse_npm_tarball_resolved, parse_npm_targets, NpmTarget};
use artifact_keeper_cli::pypi::{parse_dist_filename, parse_pip_index_versions, parse_requirements_txt};

#[test]
fn sparse_paths() {
    assert_eq!(sparse_index_path("a"), "1/a");
    assert_eq!(sparse_index_path("ab"), "2/ab");
    assert_eq!(sparse_index_path("abc"), "3/a/abc");
    assert_eq!(sparse_index_path("serde"), "se/rd/serde");
    assert_eq!(sparse_index_path("tokio"), "to/ki/tokio");
}

#[test]
fn parse_crate_names() {
    let (n, v) = parse_crate_filename("serde-1.0.210.crate").unwrap();
    assert_eq!(n, "serde");
    assert_eq!(v, "1.0.210");
    let (n, v) = parse_crate_filename("serde_json-1.0.0-alpha.1.crate").unwrap();
    assert_eq!(n, "serde_json");
    assert_eq!(v, "1.0.0-alpha.1");
}

#[test]
fn parse_npm_paths() {
    let (n, v) = parse_npm_tarball_path("npm/lodash/-/lodash-4.17.21.tgz").unwrap();
    assert_eq!(n, "lodash");
    assert_eq!(v, "4.17.21");
    let (n, v) = parse_npm_tarball_path("@scope/pkg/-/pkg-1.0.0.tgz").unwrap();
    assert_eq!(n, "@scope/pkg");
    assert_eq!(v, "1.0.0");
}

#[test]
fn parse_go_mod_direct_only() {
    let text = r#"
module example.com/app

go 1.22

require (
        github.com/foo/bar v1.2.3
        golang.org/x/sync v0.1.0 // indirect
)

require github.com/solo/pkg v0.9.0
"#;
    let roots = parse_go_mod_requires(text);
    assert_eq!(roots.len(), 2);
    assert_eq!(roots[0].name, "github.com/foo/bar");
    assert_eq!(roots[1].name, "github.com/solo/pkg");
}

#[test]
fn parse_list_variants() {
    let text = r#"
# comment
github.com/foo/bar v1.2.3
lodash@4.17.21
bare-module
@scope/pkg@1.2.3
@other/pkg 2.0.0
"#;
    let roots = parse_module_list(text);
    assert_eq!(roots.len(), 5);
    assert_eq!(roots[0].name, "github.com/foo/bar");
    assert_eq!(roots[0].version.as_deref(), Some("v1.2.3"));
    assert_eq!(roots[1].name, "lodash");
    assert_eq!(roots[1].version.as_deref(), Some("4.17.21"));
    assert_eq!(roots[2].name, "bare-module");
    assert!(roots[2].version.is_none());
    assert_eq!(roots[3].name, "@scope/pkg");
    assert_eq!(roots[3].version.as_deref(), Some("1.2.3"));
    assert_eq!(roots[4].name, "@other/pkg");
    assert_eq!(roots[4].version.as_deref(), Some("2.0.0"));
}

#[test]
fn parse_target_variants() {
    let t = NpmTarget::parse("linux-x64").unwrap();
    assert_eq!(t.os, "linux");
    assert_eq!(t.cpu, "x64");
    assert!(t.libc.is_none());

    let t = NpmTarget::parse("linux-arm64-musl").unwrap();
    assert_eq!(t.os, "linux");
    assert_eq!(t.cpu, "arm64");
    assert_eq!(t.libc.as_deref(), Some("musl"));

    let t = NpmTarget::parse("darwin-arm64").unwrap();
    assert_eq!(t.os, "darwin");
    assert_eq!(t.cpu, "arm64");

    let t = NpmTarget::parse("win32-x64").unwrap();
    assert_eq!(t.os, "win32");
    assert_eq!(t.cpu, "x64");

    assert!(NpmTarget::parse("linux").is_err());
}

#[test]
fn parse_targets_comma_and_dedupe() {
    let targets = parse_npm_targets(&["linux-x64,darwin-arm64".into(), "linux-x64".into()]).unwrap();
    assert_eq!(targets.len(), 2);
    assert_eq!(targets[0].label, "linux-x64");
    assert_eq!(targets[1].label, "darwin-arm64");
}

#[test]
fn parse_resolved_tarball_urls() {
    let (n, v) =
        parse_npm_tarball_resolved("https://registry.npmmirror.com/string-width/-/string-width-4.2.3.tgz")
            .unwrap();
    assert_eq!(n, "string-width");
    assert_eq!(v, "4.2.3");

    let (n, v) = parse_npm_tarball_resolved("https://registry.npmjs.org/@koa/cors/-/cors-5.0.0.tgz").unwrap();
    assert_eq!(n, "@koa/cors");
    assert_eq!(v, "5.0.0");
}

#[test]
fn parse_wheel_and_sdist_names() {
    let (n, v) = parse_dist_filename("requests-2.31.0-py3-none-any.whl").unwrap();
    assert_eq!(n, "requests");
    assert_eq!(v, "2.31.0");
    let (n, v) = parse_dist_filename("charset_normalizer-3.3.2-py3-none-any.whl").unwrap();
    assert_eq!(n, "charset-normalizer");
    assert_eq!(v, "3.3.2");
    let (n, v) = parse_dist_filename("requests-2.31.0.tar.gz").unwrap();
    assert_eq!(n, "requests");
    assert_eq!(v, "2.31.0");
}

#[test]
fn parse_requirements() {
    let text = r#"
# comment
requests==2.31.0
urllib3>=2.0
flask[async]==3.0.0 ; python_version>="3.8"
"#;
    let roots = parse_requirements_txt(text);
    assert_eq!(roots.len(), 3);
    assert_eq!(roots[0].name, "requests");
    assert_eq!(roots[0].version.as_deref(), Some("2.31.0"));
    assert_eq!(roots[1].version.as_deref(), Some(">=2.0"));
    assert_eq!(roots[2].name, "flask");
    assert_eq!(roots[2].version.as_deref(), Some("3.0.0"));
}

#[test]
fn parse_pip_index_output() {
    let out = "requests (2.31.0)\nAvailable versions: 2.31.0, 2.30.0, 2.29.0\n";
    let v = parse_pip_index_versions(out).unwrap();
    assert_eq!(v, vec!["2.31.0", "2.30.0", "2.29.0"]);
}

#[test]
fn decode_encode_roundtrip() {
    let raw = "github.com/DataDog/dd-trace-go/v2";
    let enc = encode_go_path(raw);
    assert!(enc.contains("!d"));
    assert_eq!(decode_go_path(&enc), raw);
}

#[test]
fn crate_filename_round_trip() {
    for (n, v) in [("serde", "1.0.210"), ("my-crate-2", "0.3.0-alpha.1"), ("a", "1")] {
        let f = format!("{n}-{v}.crate");
        assert_eq!(parse_crate_filename(&f), Some((n.to_string(), v.to_string())));
    }
    assert_eq!(parse_crate_filename("serde-1.0.210.tar.gz"), None);
}
