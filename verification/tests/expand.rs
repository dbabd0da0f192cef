use artifact_keeper_cli::expand::{no_versions_listed, push_version_roots, sorted_unique, unique_names};
use artifact_keeper_cli::go::{new_versions, selected_version};
use artifact_keeper_cli::manifest::RootSpec;

fn root(n: &str) -> RootSpec {
    RootSpec { name: n.into(), version: None }
}

fn pair(a: &str, b: &str) -> (String, String) {
    (a.to_string(), b.to_string())
}

#[test]
fn names_to_expand() {
    let roots = vec![root("Flask"), root("flask"), root("friendly_id"), root("Friendly.Id")];
    assert_eq!(unique_names(&roots, false), vec!["Flask", "flask", "friendly_id", "Friendly.Id"]);
    assert_eq!(unique_names(&roots, true), vec!["Flask", "friendly_id"]);
    let mut out = vec![root("x")];
    push_version_roots(&mut out, "lodash", &vec!["1.0.0".into(), "2.0.0".into()]);
    assert_eq!(out.len(), 3);
    assert_eq!(out[2].name, "lodash");
    assert_eq!(out[2].version.as_deref(), Some("2.0.0"));
    assert_eq!(
        no_versions_listed("npm view lodash versions").to_string(),
        "npm view lodash versions returned no versions"
    );
}

#[test]
fn sort_and_dedup_pairs() {
    let v = vec![pair("b", "1"), pair("a", "2"), pair("a", "10"), pair("b", "1"), pair("ab", "0"), pair("a", "2")];
    assert_eq!(sorted_unique(&v), vec![pair("a", "10"), pair("a", "2"), pair("ab", "0"), pair("b", "1")]);
    assert!(sorted_unique(&vec![]).is_empty());
}

#[test]
fn go_selected_and_new_versions() {
    assert_eq!(selected_version(&vec![]), "");
    assert_eq!(
        selected_version(&vec!["v1.2.0".into(), "v1.10.0".into(), "v1.9.9".into()]),
        "v1.9.9"
    );
    let before = vec![pair("m", "v1")];
    let after = vec![pair("n", "v2"), pair("m", "v1"), pair("m", "v2")];
    assert_eq!(new_versions(&before, &after), vec![pair("n", "v2"), pair("m", "v2")]);
}
