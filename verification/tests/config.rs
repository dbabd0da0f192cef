use artifact_keeper_cli::config::{config_base, resolve_against};
use artifact_keeper_cli::engine::WorkDirs;
use std::path::{Path, PathBuf};
use artifact_keeper_cli::config::{
    default_job_output, ignored_settings_notes, job_banner, job_source, nonempty, parse_ecosystem, JobSource,
    UpstreamConfig, DEFAULT_CONFIG_NAME,
};
use artifact_keeper_cli::ecosystem::Ecosystem;

#[test]
fn upstream_defaults_and_overrides() {
    let none = UpstreamConfig::from_values(None, Some("  "), None);
    assert!(none.proxy.is_none() && none.sumdb.is_none() && none.registry.is_none());
    assert_eq!(none.goproxy(None), "https://goproxy.cn,direct");
    assert_eq!(none.goproxy(Some("")), "https://goproxy.cn,direct");
    assert_eq!(none.goproxy(Some("https://proxy.golang.org")), "https://proxy.golang.org");
    assert_eq!(none.gosumdb(None), "sum.golang.google.cn");
    assert_eq!(none.npm_registry(None, None), "https://registry.npmmirror.com");
    assert_eq!(none.npm_registry(None, Some("https://r.example")), "https://r.example");
    // an empty lower-case variable hides the upper-case one
    assert_eq!(none.npm_registry(Some(""), Some("https://r.example")), "https://registry.npmmirror.com");
    assert_eq!(none.pypi_index(None), "https://pypi.tuna.tsinghua.edu.cn/simple");
    assert_eq!(
        none.cargo_sparse_registry(None),
        "sparse+https://mirrors.tuna.tsinghua.edu.cn/crates.io-index/"
    );
    assert_eq!(none.cargo_sparse_registry(Some("https://idx.example/")), "sparse+https://idx.example/");
    assert_eq!(none.cargo_crate_dl_base(None), "https://mirrors.tuna.tsinghua.edu.cn/crates.io/crates");
    assert_eq!(none.cargo_crate_dl_base(Some("https://dl.example")), "https://dl.example");

    let cfg = UpstreamConfig::from_values(Some(" https://goproxy.io "), Some("off"), Some("sparse+https://x/"));
    assert_eq!(cfg.goproxy(Some("ignored")), "https://goproxy.io");
    assert_eq!(cfg.gosumdb(Some("ignored")), "off");
    assert_eq!(cfg.pypi_index(Some("ignored")), "sparse+https://x/");
    assert_eq!(cfg.cargo_sparse_registry(Some("ignored")), "sparse+https://x/");
    let cfg = UpstreamConfig::from_values(None, None, Some("http://plain/"));
    assert_eq!(cfg.cargo_sparse_registry(None), "sparse+http://plain/");
    assert_eq!(cfg.cargo_crate_dl_base(None), "https://mirrors.tuna.tsinghua.edu.cn/crates.io/crates");
}

#[test]
fn pypi_index_from_config() {
    let cfg = UpstreamConfig::from_values(None, None, Some("https://pypi.tuna.tsinghua.edu.cn/simple"));
    assert_eq!(cfg.pypi_index(None), "https://pypi.tuna.tsinghua.edu.cn/simple");
}

#[test]
fn parse_ecosystems_of_config() {
    assert_eq!(parse_ecosystem(" GO ").unwrap(), Ecosystem::Go);
    assert_eq!(parse_ecosystem("pip").unwrap(), Ecosystem::Pypi);
    assert_eq!(parse_ecosystem("rust").unwrap(), Ecosystem::Cargo);
    assert_eq!(parse_ecosystem("npm").unwrap(), Ecosystem::Npm);
    let e = parse_ecosystem("crate").unwrap_err();
    assert_eq!(
        e.to_string(),
        "Unsupported ecosystem 'crate' in download.config (supported: go, npm, pypi, cargo)"
    );
}

#[test]
fn job_outputs_and_sources() {
    assert_eq!(DEFAULT_CONFIG_NAME, "download.config");
    assert_eq!(default_job_output("NPM", 0), "ak-ferry-npm-1.zip");
    assert_eq!(default_job_output("cargo", 11), "ak-ferry-cargo-12.zip");
    assert_eq!(job_source(2, false, false, "c").unwrap(), JobSource::Listed);
    assert_eq!(job_source(0, true, true, "c").unwrap(), JobSource::Shorthand);
    let e = job_source(0, true, false, "/x/download.config").unwrap_err();
    assert_eq!(e.to_string(), "/x/download.config: provide [[downloads]] jobs, or top-level ecosystem + input");
    assert_eq!(nonempty(Some("  a ")), Some("a".to_string()));
    assert_eq!(nonempty(Some("   ")), None);
    assert_eq!(nonempty(None), None);
}

#[test]
fn notes_for_ignored_settings() {
    assert_eq!(
        ignored_settings_notes(Ecosystem::Go, true, true, true, true),
        vec![
            "note: targets ignored for go job".to_string(),
            "note: nodes ignored for go job".to_string(),
            "note: registry ignored for go job (use proxy / sumdb)".to_string(),
        ]
    );
    assert_eq!(
        ignored_settings_notes(Ecosystem::Npm, true, true, true, true),
        vec!["note: proxy/sumdb ignored for npm job (use registry)".to_string()]
    );
    assert!(ignored_settings_notes(Ecosystem::Pypi, true, true, true, false).is_empty());
    assert_eq!(ignored_settings_notes(Ecosystem::Cargo, false, true, true, true).len(), 2);
    assert_eq!(job_banner(0, 4, Ecosystem::Npm, "package.json"), "=== job 1/4: Npm <- package.json ===");
}

#[test]
fn resolve_against_and_config_base() {
    assert_eq!(resolve_against(Path::new("plans"), Path::new("mods.txt")), PathBuf::from("plans/mods.txt"));
    assert_eq!(resolve_against(Path::new("plans"), Path::new("/abs/mods.txt")), PathBuf::from("/abs/mods.txt"));
    assert_eq!(config_base(Path::new("conf/download.config")), PathBuf::from("conf"));
    assert_eq!(config_base(Path::new("download.config")), PathBuf::from("."));
}

#[test]
fn gocache_is_below_work() {
    let d = WorkDirs {
        work: PathBuf::from("w"),
        payload: PathBuf::from("w/payload"),
        artifacts: PathBuf::from("w/payload/download"),
        tool_cache: PathBuf::from("w/gomodcache"),
    };
    assert_eq!(d.gocache(), PathBuf::from("w/gocache"));
}
