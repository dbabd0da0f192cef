//! Shared ferry download engine: the decisions of list → (optional expand) →
//! concurrent fetch per root → soft-fail → manifest, independent of the
//! toolchain that does the work.
use vstd::prelude::*;
use std::path::PathBuf;

use crate::manifest::{opt_view, RootSpec};
use crate::paths::{joined_text, pathbuf_join, pathbuf_text};
use crate::text::{
    append_str, byte_len, byte_len_upto, char_index_at_byte, chars_of, is_boundary, prefix_bytes,
    slice_of, string_of, trim, trim_chars,
};

verus! {

/// Output format chosen for a command (`--format`).
#[derive(Debug, Clone, Copy, PartialEq, Eq, Structural)]
pub enum OutputFormat {
    Table,
    Json,
    Yaml,
    Quiet,
}

/// How ferry download logs to stderr.
#[derive(Debug, Clone, Copy, PartialEq, Eq, Structural)]
pub enum LogMode {
    /// Per-package detail lines (CLI `--verbose`).
    Verbose,
    /// Progress bar over root passes; suppress per-line detail.
    Progress,
    /// `--format quiet` / `--quiet`: only the final path on stdout.
    Quiet,
}

impl LogMode {
    pub fn resolve(format: &OutputFormat, verbose: bool) -> (m: Self)
        ensures
            *format == OutputFormat::Quiet ==> m == LogMode::Quiet,
            *format != OutputFormat::Quiet && verbose ==> m == LogMode::Verbose,
            *format != OutputFormat::Quiet && !verbose ==> m == LogMode::Progress,
    {
        if *format == OutputFormat::Quiet {
            LogMode::Quiet
        } else if verbose {
            LogMode::Verbose
        } else {
            LogMode::Progress
        }
    }

    pub fn detail(self) -> (b: bool)
        ensures
            b == (self == LogMode::Verbose),
    {
        self == LogMode::Verbose
    }

    pub fn progress_bar(self) -> (b: bool)
        ensures
            b == (self == LogMode::Progress),
    {
        self == LogMode::Progress
    }

    /// `true` when a worker should suppress per-line detail.
    pub fn quiet_workers(self) -> (b: bool)
        ensures
            b == (self != LogMode::Verbose),
    {
        !self.detail()
    }
}

/// Shared paths for one ferry job.
#[derive(Debug, Clone)]
pub struct WorkDirs {
    pub work: PathBuf,
    pub payload: PathBuf,
    /// Ecosystem layout under payload (`npm/`, `download/`, `pypi/`, …)
    pub artifacts: PathBuf,
    /// Shared toolchain cache under work (`npm-cache/`, `gomodcache/`, …)
    pub tool_cache: PathBuf,
}

impl WorkDirs {
    /// Go build cache (separate from module cache): `{work}/gocache`.
    pub fn gocache(&self) -> (r: PathBuf)
        ensures
            pathbuf_text(&r) == joined_text(pathbuf_text(&self.work), "gocache"@),
    {
        pathbuf_join(&self.work, "gocache")
    }
}

/// One module/package version produced by a root fetch.
#[derive(Debug, Clone)]
pub struct FetchedModule {
    pub name: String,
    pub version: String,
    pub name_encoded: Option<String>,
    /// Absolute paths to include in the ferry zip
    pub files: Vec<PathBuf>,
}

/// Result of fetching one root (install / go get / pip download / …).
#[derive(Debug)]
pub struct RootFetchResult {
    pub via: String,
    pub modules: Vec<FetchedModule>,
    /// Soft failures inside an otherwise successful root.
    pub soft_errors: Vec<crate::errors::UnitError>,
}

/// One scheduled fetch unit (usually one root; npm / PyPI may expand to
/// root × target × runtime).
#[derive(Debug, Clone)]
pub struct RootPass {
    pub pass_idx: usize,
    pub total: usize,
    pub root: RootSpec,
    /// Opaque language context.
    pub context: String,
}

/// `name@version`, or `name` when there is no version.
pub open spec fn root_text(name: Seq<char>, version: Option<Seq<char>>) -> Seq<char> {
    match version {
        Some(v) => name + "@"@ + v,
        None => name,
    }
}

pub fn format_root(root: &RootSpec) -> (r: String)
    ensures
        r@ == root_text(root.name@, opt_view(root.version)),
{
    match &root.version {
        Some(v) => {
            let mut s = chars_of(root.name.as_str());
            append_str(&mut s, "@");
            append_str(&mut s, v.as_str());
            string_of(&s)
        },
        None => root.name.clone(),
    }
}

/// The trimmed text, cut to its first `max` bytes and marked with `…` when
/// it is longer than that.
pub open spec fn clip(s: Seq<char>, max: nat) -> Seq<char> {
    let t = trim(s);
    if byte_len(t) > max {
        prefix_bytes(t, max) + "…"@
    } else {
        t
    }
}

/// Trimmed, and cut to 1200 bytes plus `…` when longer (the cut must fall
/// between two characters).
pub fn trim_err(s: &str) -> (r: String)
    requires
        byte_len(trim(s@)) > 1200 ==> is_boundary(trim(s@), 1200),
    ensures
        r@ == clip(s@, 1200),
{
    clip_text(s, 1200)
}

/// `clip` of a string.
pub fn clip_text(s: &str, max: usize) -> (r: String)
    requires
        byte_len(trim(s@)) > max ==> is_boundary(trim(s@), max as nat),
    ensures
        r@ == clip(s@, max as nat),
{
    let v = chars_of(s);
    let t = trim_chars(&v);
    match byte_len_upto(&t, max) {
        Some(_) => string_of(&t),
        None => {
            match char_index_at_byte(&t, max) {
                Some(j) => {
                    let mut cut = slice_of(&t, 0, j);
                    append_str(&mut cut, "…");
                    string_of(&cut)
                },
                None => {
                    assert(false);
                    string_of(&t)
                },
            }
        },
    }
}

/// Default parallel worker count: the machine's available parallelism (4 when
/// unknown), clamped to 1..=16.
pub fn default_jobs(available: Option<usize>) -> (n: usize)
    ensures
        n == default_jobs_spec(available),
{
    match available {
        Some(a) => if a < 1 {
            1
        } else if a > 16 {
            16
        } else {
            a
        },
        None => 4,
    }
}

/// Worker count: an explicit positive count, else the default.
pub fn resolve_jobs(explicit: Option<usize>, available: Option<usize>) -> (n: usize)
    ensures
        n >= 1,
        n == (match explicit {
            Some(e) => if e > 0 {
                e
            } else {
                default_jobs_spec(available)
            },
            None => default_jobs_spec(available),
        }),
{
    match explicit {
        Some(e) if e > 0 => e,
        _ => default_jobs(available),
    }
}

pub open spec fn default_jobs_spec(available: Option<usize>) -> usize {
    match available {
        Some(a) => if a < 1 {
            1
        } else if a > 16 {
            16
        } else {
            a
        },
        None => 4,
    }
}

} // verus!
