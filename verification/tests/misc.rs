use artifact_keeper_cli::cli::{
    apply_cli_overrides, check_cli_matrix, config_not_found_error, download_mode, flags_and_config_error,
    no_download_jobs_error, runtime_list, DownloadMode, EcosystemArgs, JobSettings,
};
use artifact_keeper_cli::digest::{file_entry_of, file_matches, sha256_hex};
use artifact_keeper_cli::dt::{format_timestamp, i64_text, timestamp_text};
use artifact_keeper_cli::ecosystem::Ecosystem;
use artifact_keeper_cli::go_proxy::{cache_dir_versions, go_module_url_segments, module_display, module_path_of};

#[test]
fn format_timestamp_zero() {
    assert_eq!(format_timestamp(0), "1970-01-01 00:00");
}

#[test]
fn format_timestamp_epoch_start() {
    assert_eq!(format_timestamp(1000), "1970-01-01 00:00");
}

#[test]
fn format_timestamp_known_date() {
    let result = format_timestamp(1708492800000);
    assert!(result.contains("2024"));
    assert!(result.contains("-"));
}

#[test]
fn format_timestamp_recent() {
    assert!(format_timestamp(1735689600000).starts_with("2025-01-01"));
}

#[test]
fn format_timestamp_negative() {
    assert!(format_timestamp(-86400000).contains("1969"));
}

#[test]
fn format_timestamp_large_value() {
    let result = format_timestamp(4102444800000);
    assert!(result.contains("2099") || result.contains("2100"));
}

#[test]
fn format_timestamp_milliseconds_precision() {
    assert!(format_timestamp(1718451000000).starts_with("2024-06-15"));
}

#[test]
fn timestamp_out_of_range_is_the_number() {
    assert_eq!(format_timestamp(i64::MAX), "9223372036854775807");
    assert_eq!(format_timestamp(i64::MIN), "-9223372036854775808");
    assert_eq!(timestamp_text(None, -5), "-5");
    assert_eq!(i64_text(0), "0");
}

#[test]
fn sha256_digest_hex() {
    assert_eq!(
        sha256_hex(&b"abc".to_vec()),
        "ba7816bf8f01cfea414140de5dae2223b00361a396177a9cb410ff61f20015ad"
    );
    assert_eq!(
        sha256_hex(&vec![]),
        "e3b0c44298fc1c149afbf4c8996fb92427ae41e4649b934ca495991b7852b855"
    );
    let f = file_entry_of("npm\\lodash.tgz", "ab".into(), 3);
    assert_eq!(f.relpath, "npm/lodash.tgz");
    assert!(file_matches(&f, "ab", 3));
    assert!(!file_matches(&f, "ab", 4));
    assert!(!file_matches(&f, "ac", 3));
}

#[test]
fn go_proxy_paths() {
    assert_eq!(
        go_module_url_segments("go-local", "github.com/!foo/bar/", "v1.0.0", "zip"),
        vec!["go", "go-local", "github.com", "!foo", "bar", "@v", "v1.0.0.zip"]
    );
    assert_eq!(module_path_of(&vec!["github.com".into(), "!foo".into(), "bar".into()]), "github.com/!foo/bar");
    assert_eq!(module_display("github.com/!foo/bar", "v1.2.3"), "github.com/Foo/bar@v1.2.3");
}

#[test]
fn go_module_url_builds_path() {
    let segments = go_module_url_segments("go-local", "github.com/!foo/bar", "v1.0.0", "zip");
    let url = format!("{}/{}", "http://127.0.0.1:30080", segments.join("/"));
    assert_eq!(url.as_str(), "http://127.0.0.1:30080/go/go-local/github.com/!foo/bar/@v/v1.0.0.zip");
}

#[test]
fn download_modes_and_checks() {
    let none = EcosystemArgs { go: false, npm: false, pypi: false, cargo: false };
    let npm = EcosystemArgs { go: false, npm: true, pypi: true, cargo: false };
    assert_eq!(npm.selected(), Some(Ecosystem::Npm));
    assert_eq!(download_mode(true, &npm, false).unwrap(), DownloadMode::ExportCatalog);
    assert_eq!(download_mode(false, &npm, true).unwrap(), DownloadMode::CliJob(Ecosystem::Npm));
    assert_eq!(
        download_mode(false, &npm, false).unwrap_err().to_string(),
        "CLI mode requires an input file (or use --config download.config)"
    );
    assert_eq!(download_mode(false, &none, false).unwrap(), DownloadMode::ConfigPlan);
    assert!(download_mode(false, &none, true).is_err());
    assert_eq!(
        check_cli_matrix(Ecosystem::Go, 1, 0).unwrap_err().to_string(),
        "--target is only supported with --npm or --pypi"
    );
    assert_eq!(
        check_cli_matrix(Ecosystem::Cargo, 0, 2).unwrap_err().to_string(),
        "--node is only supported with --npm or --pypi"
    );
    assert!(check_cli_matrix(Ecosystem::Pypi, 3, 3).is_ok());
    assert_eq!(runtime_list(Ecosystem::Pypi, &vec!["3.11, 3.12".into(), "".into()]).unwrap(), vec!["3.11", "3.12"]);
    assert_eq!(runtime_list(Ecosystem::Npm, &vec!["v18,18".into()]).unwrap(), vec!["18"]);
    assert!(runtime_list(Ecosystem::Go, &vec![]).unwrap().is_empty());
    assert!(flags_and_config_error().to_string().contains("not both"));
    assert_eq!(
        config_not_found_error("download.config").to_string(),
        "No ecosystem flag and config not found: download.config (pass --config PATH or create download.config)"
    );
    assert_eq!(no_download_jobs_error("x.config").to_string(), "x.config contains no download jobs");
}

#[test]
fn config_job_overrides() {
    let mut npm = JobSettings { ecosystem: Ecosystem::Npm, all_versions: false, targets: vec![], nodes: vec!["16".into()] };
    apply_cli_overrides(&mut npm, true, &vec!["linux-x64".into()], &vec!["v20,20".into()]).unwrap();
    assert!(npm.all_versions);
    assert_eq!(npm.targets, vec!["linux-x64"]);
    assert_eq!(npm.nodes, vec!["20"]);
    let mut go = JobSettings { ecosystem: Ecosystem::Go, all_versions: false, targets: vec![], nodes: vec![] };
    apply_cli_overrides(&mut go, false, &vec!["linux-x64".into()], &vec!["20".into()]).unwrap();
    assert!(go.targets.is_empty() && go.nodes.is_empty() && !go.all_versions);
    let mut bad = JobSettings { ecosystem: Ecosystem::Npm, all_versions: false, targets: vec![], nodes: vec![] };
    assert!(apply_cli_overrides(&mut bad, false, &vec![], &vec!["2 0".into()]).is_err());
}

#[test]
fn cache_dir_versions_keeps_zip_mod_pairs_under_at_v() {
    let stems: Vec<String> = vec!["v1.0.0".into(), "".into(), "v1.1.0".into(), "v2.0.0".into()];
    let present = vec![true, true, false, true];
    assert_eq!(cache_dir_versions(Some("@v"), &stems, &present), vec!["v1.0.0", "v2.0.0"]);
    assert!(cache_dir_versions(Some("bar"), &stems, &present).is_empty());
    assert!(cache_dir_versions(None, &stems, &present).is_empty());
    assert!(cache_dir_versions(Some("@v"), &vec![], &vec![]).is_empty());
}
