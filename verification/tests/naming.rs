use std::path::PathBuf;

use artifact_keeper_cli::ecosystem::Ecosystem;
use artifact_keeper_cli::naming::{
    append_stats, default_ferry_zip_name, default_ferry_zip_name_with_ts,
    ferry_timestamp_utc, format_ferry_timestamp, opts_suffix, resolve_job_output, sanitize_part, stats_file_name,
};

#[test]
fn basic_name_no_opts() {
    let n = default_ferry_zip_name_with_ts(
        Ecosystem::Go,
        "20260818T010740123Z",
        false,
        &[],
        &[],
        false,
    );
    assert_eq!(n, "ak-ferry-go-20260818T010740123Z.zip");
}

#[test]
fn name_with_av_and_catalog() {
    let n = default_ferry_zip_name_with_ts(
        Ecosystem::Npm,
        "20260818T010740123Z",
        true,
        &["linux-x64".into()],
        &["20".into()],
        true,
    );
    assert_eq!(
        n,
        "ak-ferry-npm-20260818T010740123Z-av-linux-x64-node20-cat.zip"
    );
}

#[test]
fn pypi_python_tag() {
    let n = default_ferry_zip_name_with_ts(
        Ecosystem::Pypi,
        "20260818T010740123Z",
        false,
        &["manylinux2014_x86_64".into()],
        &["3.11".into()],
        false,
    );
    assert_eq!(
        n,
        "ak-ferry-pypi-20260818T010740123Z-manylinux2014_x86_64-py3.11.zip"
    );
}

#[test]
fn append_stats_once() {
    let p = PathBuf::from("out/ak-ferry-go-20260818T010740123Z.zip");
    let with = append_stats(&p, 1, 3);
    assert_eq!(
        with.file_name().unwrap().to_str().unwrap(),
        "ak-ferry-go-20260818T010740123Z-r1-m3.zip"
    );
    let again = append_stats(&with, 9, 9);
    assert_eq!(again, with);
}

#[test]
fn sanitize_drops_path_chars() {
    assert_eq!(sanitize_part("linux/x64"), "linux-x64");
    assert_eq!(sanitize_part("@scope/pkg"), "scope-pkg");
}

#[test]
fn sanitize_lowercases_and_collapses_runs() {
    assert_eq!(sanitize_part("--Linux  X64--"), "linux-x64");
    assert_eq!(sanitize_part("a_b.c"), "a_b.c");
    assert_eq!(sanitize_part("///"), "");
    assert_eq!(sanitize_part(""), "");
}

#[test]
fn opts_suffix_none_when_empty() {
    assert_eq!(opts_suffix(false, &[], &[], false, Ecosystem::Go), None);
    assert_eq!(opts_suffix(false, &["//".into()], &[], false, Ecosystem::Npm), None);
}

#[test]
fn opts_suffix_go_does_not_tag_versions() {
    assert_eq!(
        opts_suffix(false, &[], &["1.22".into()], false, Ecosystem::Go),
        Some("1.22".to_string())
    );
    assert_eq!(
        opts_suffix(false, &[], &["lts".into()], false, Ecosystem::Npm),
        Some("lts".to_string())
    );
}

#[test]
fn append_stats_leaves_other_names() {
    let p = PathBuf::from("out/custom.zip");
    assert_eq!(append_stats(&p, 1, 2), p);
    let p = PathBuf::from("ak-ferry-go-x.tar");
    assert_eq!(append_stats(&p, 1, 2), p);
    let p = PathBuf::from("ak-ferry-go-x.zip");
    assert_eq!(append_stats(&p, 10, 250), PathBuf::from("ak-ferry-go-x-r10-m250.zip"));
}

#[test]
fn stats_file_name_detects_existing_tag() {
    assert_eq!(stats_file_name("ak-ferry-go-x-r1-m2.zip", 3, 4), None);
    assert_eq!(
        stats_file_name("ak-ferry-go-x-rx-m2.zip", 3, 4),
        Some("ak-ferry-go-x-rx-m2-r3-m4.zip".to_string())
    );
    assert_eq!(stats_file_name("other.zip", 3, 4), None);
}

#[test]
fn timestamp_shape() {
    assert_eq!(format_ferry_timestamp("20260818T010740", 7), "20260818T010740007Z");
    assert_eq!(format_ferry_timestamp("20260818T010740", 45), "20260818T010740045Z");
    assert_eq!(format_ferry_timestamp("20260818T010740", 123), "20260818T010740123Z");
    let ts = ferry_timestamp_utc().unwrap();
    assert_eq!(ts.len(), 19);
    assert!(ts.ends_with('Z'));
    let name = default_ferry_zip_name(Ecosystem::Cargo, false, &[], &[], false).unwrap();
    assert!(name.starts_with("ak-ferry-cargo-"));
    assert!(name.ends_with("Z.zip"));
}

#[test]
fn append_stats_keeps_directory() {
    let p = PathBuf::from("out/dir/ak-ferry-npm-20260101T000000000Z.zip");
    assert_eq!(append_stats(&p, 2, 7), PathBuf::from("out/dir/ak-ferry-npm-20260101T000000000Z-r2-m7.zip"));
}

#[test]
fn resolve_job_output_explicit_or_automatic() {
    let dir = PathBuf::from("plans");
    let explicit = PathBuf::from("x/y.zip");
    let (p, auto) = resolve_job_output(Some(&explicit), &dir, Ecosystem::Npm, true, &[], &[], false).unwrap();
    assert_eq!(p, explicit);
    assert!(!auto);
    let (p, auto) = resolve_job_output(None, &dir, Ecosystem::Pypi, true, &[], &[], false).unwrap();
    assert!(auto);
    assert_eq!(p.parent(), Some(dir.as_path()));
    let name = p.file_name().unwrap().to_str().unwrap().to_string();
    assert!(name.starts_with("ak-ferry-pypi-"));
    assert!(name.ends_with("Z-av.zip"));
}

#[test]
fn ferry_timestamp_digits_and_t() {
    let ts = ferry_timestamp_utc().unwrap();
    let b = ts.as_bytes();
    assert_eq!(b[8], b'T');
    for (i, c) in b.iter().enumerate() {
        if i != 8 && i != b.len() - 1 {
            assert!(c.is_ascii_digit());
        }
    }
}

#[test]
fn sanitize_part_is_idempotent_and_dashed() {
    for raw in ["Linux X64--musl", "--A__b..c--", "!!!", "py3.11", "Ünï cödé"] {
        let once = sanitize_part(raw);
        assert_eq!(sanitize_part(&once), once);
        assert!(!once.starts_with('-') && !once.ends_with('-') && !once.contains("--"));
        assert!(once.chars().all(|c| c == '-' || c.is_ascii_lowercase() || c.is_ascii_digit() || c == '.' || c == '_'));
    }
}
