use artifact_keeper_cli::ferry_dir::{cargo_artifact_path, normalize_pypi_name, npm_artifact_path, pypi_artifact_path};

#[test]
fn npm_path_formula() {
    assert_eq!(
        npm_artifact_path("lodash", "4.17.21", "lodash-4.17.21.tgz"),
        "lodash/4.17.21/lodash-4.17.21.tgz"
    );
    assert_eq!(npm_artifact_path("@scope/pkg", "1.0.0", "pkg-1.0.0"), "@scope/pkg/1.0.0/pkg-1.0.0.tgz");
}

#[test]
fn pypi_path_formula() {
    assert_eq!(
        pypi_artifact_path("Jinja2", "3.1.4", "Jinja2-3.1.4-py3-none-any.whl"),
        "jinja2/3.1.4/Jinja2-3.1.4-py3-none-any.whl"
    );
    assert_eq!(normalize_pypi_name("friendly_id"), "friendly-id");
}

#[test]
fn cargo_path_formula() {
    assert_eq!(
        cargo_artifact_path("Serde", "1.0.210", "serde-1.0.210.crate"),
        "serde/1.0.210/serde-1.0.210.crate"
    );
    assert_eq!(cargo_artifact_path("serde", "1.0.0", "blob"), "serde/1.0.0/serde-1.0.0.crate");
}

#[test]
fn normalize_pypi_name_is_idempotent() {
    for raw in ["Friendly_Id", "zope.interface", "A--B__C..D", "-x-", "Django"] {
        let once = normalize_pypi_name(raw);
        assert_eq!(normalize_pypi_name(&once), once);
        assert!(!once.starts_with('-') && !once.ends_with('-') && !once.contains("--"));
    }
    assert_eq!(normalize_pypi_name("friendly_id"), "friendly-id");
    assert_eq!(normalize_pypi_name("Foo.._-Bar"), "foo-bar");
}
