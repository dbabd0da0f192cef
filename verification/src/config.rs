//! `download.config`: the declarative multi-ecosystem ferry download plan,
//! and the upstream mirrors a job downloads from.
use vstd::prelude::*;

use crate::ecosystem::Ecosystem;
use crate::errors::AkError;
use crate::text::{
    append_chars, append_str, chars_eq_str, chars_of, dec, dec_chars, lower_chars, lower_str,
    starts_with, starts_with_str, string_of, trim, trim_chars,
};
use std::path::{Path, PathBuf};
use crate::paths::{
    is_absolute_path, joined_text, parent_text_of, path_from, path_is_absolute, path_join_path, path_parent, path_text,
    path_to_buf, pathbuf_is_empty, pathbuf_text,
};

verus! {

pub const DEFAULT_CONFIG_NAME: &'static str = "download.config";

/// The trimmed text of an optional value, when it is not blank.
pub open spec fn nonempty_spec(s: Option<Seq<char>>) -> Option<Seq<char>> {
    match s {
        Some(t) => if trim(t).len() == 0 {
            None
        } else {
            Some(trim(t))
        },
        None => None,
    }
}

/// The view of an optional `&str`.
pub open spec fn opt_str(s: Option<&str>) -> Option<Seq<char>> {
    match s {
        Some(t) => Some(t@),
        None => None,
    }
}

pub fn nonempty(s: Option<&str>) -> (r: Option<String>)
    ensures
        crate::manifest::opt_view(r) == nonempty_spec(opt_str(s)),
{
    match s {
        Some(t) => {
            let v = chars_of(t);
            let tv = trim_chars(&v);
            if tv.len() == 0 {
                None
            } else {
                Some(string_of(&tv))
            }
        },
        None => None,
    }
}

/// An environment value as the upstream settings read it: unset and empty
/// values do not count.
pub open spec fn env_value(s: Option<Seq<char>>) -> Option<Seq<char>> {
    match s {
        Some(t) => if t.len() == 0 {
            None
        } else {
            Some(t)
        },
        None => None,
    }
}

/// Upstream mirrors / registries for one download job.
#[derive(Debug, Clone)]
pub struct UpstreamConfig {
    /// Go `GOPROXY`
    pub proxy: Option<String>,
    /// Go `GOSUMDB`
    pub sumdb: Option<String>,
    /// npm / pypi / cargo registry or index URL
    pub registry: Option<String>,
}

/// `configured`, else the environment value, else `default`.
pub open spec fn pick(configured: Option<Seq<char>>, env: Option<Seq<char>>, default: Seq<char>) -> Seq<char> {
    match configured {
        Some(c) => c,
        None => match env_value(env) {
            Some(e) => e,
            None => default,
        },
    }
}

fn pick_value(configured: &Option<String>, env: Option<&str>, default: &str) -> (r: String)
    ensures
        r@ == pick(crate::manifest::opt_view(*configured), opt_str(env), default@),
{
    match configured {
        Some(c) => c.clone(),
        None => match env {
            Some(e) => {
                let v = chars_of(e);
                if v.len() == 0 {
                    String::from_str(default)
                } else {
                    String::from_str(e)
                }
            },
            None => String::from_str(default),
        },
    }
}

/// The cargo sparse registry with a `sparse+` prefix.
pub open spec fn sparse_registry(raw: Seq<char>) -> Seq<char> {
    if starts_with(raw, "sparse+"@) {
        raw
    } else {
        "sparse+"@ + raw
    }
}

impl UpstreamConfig {
    /// The settings of a job: blank values are dropped, others trimmed.
    pub fn from_values(proxy: Option<&str>, sumdb: Option<&str>, registry: Option<&str>) -> (u: Self)
        ensures
            crate::manifest::opt_view(u.proxy) == nonempty_spec(opt_str(proxy)),
            crate::manifest::opt_view(u.sumdb) == nonempty_spec(opt_str(sumdb)),
            crate::manifest::opt_view(u.registry) == nonempty_spec(opt_str(registry)),
    {
        UpstreamConfig { proxy: nonempty(proxy), sumdb: nonempty(sumdb), registry: nonempty(registry) }
    }

    /// Go `GOPROXY`: config, else the `GOPROXY` environment value, else a
    /// China-friendly default.
    pub fn goproxy(&self, env_goproxy: Option<&str>) -> (r: String)
        ensures
            r@ == pick(crate::manifest::opt_view(self.proxy), opt_str(env_goproxy), "https://goproxy.cn,direct"@),
    {
        pick_value(&self.proxy, env_goproxy, "https://goproxy.cn,direct")
    }

    /// Go `GOSUMDB`: config, else the `GOSUMDB` environment value, else
    /// `sum.golang.google.cn`.
    pub fn gosumdb(&self, env_gosumdb: Option<&str>) -> (r: String)
        ensures
            r@ == pick(crate::manifest::opt_view(self.sumdb), opt_str(env_gosumdb), "sum.golang.google.cn"@),
    {
        pick_value(&self.sumdb, env_gosumdb, "sum.golang.google.cn")
    }

    /// npm registry: config, else `npm_config_registry` (or, when that is
    /// unset, `NPM_CONFIG_REGISTRY`) unless empty, else npmmirror.
    pub fn npm_registry(&self, env_lower: Option<&str>, env_upper: Option<&str>) -> (r: String)
        ensures
            r@ == pick(
                crate::manifest::opt_view(self.registry),
                match env_lower {
                    Some(l) => Some(l@),
                    None => opt_str(env_upper),
                },
                "https://registry.npmmirror.com"@,
            ),
    {
        let env = match env_lower {
            Some(l) => Some(l),
            None => env_upper,
        };
        pick_value(&self.registry, env, "https://registry.npmmirror.com")
    }

    /// pip `--index-url`: config, else `PIP_INDEX_URL`, else Tuna.
    pub fn pypi_index(&self, env_pip_index_url: Option<&str>) -> (r: String)
        ensures
            r@ == pick(
                crate::manifest::opt_view(self.registry),
                opt_str(env_pip_index_url),
                "https://pypi.tuna.tsinghua.edu.cn/simple"@,
            ),
    {
        pick_value(&self.registry, env_pip_index_url, "https://pypi.tuna.tsinghua.edu.cn/simple")
    }

    /// Cargo sparse registry URL, always with the `sparse+` prefix: config,
    /// else `CARGO_REGISTRIES_CRATES_IO_INDEX`, unless empty, else Tuna.
    pub fn cargo_sparse_registry(&self, env_index: Option<&str>) -> (r: String)
        ensures
            r@ == sparse_registry(
                match env_value(
                    match self.registry {
                        Some(c) => Some(c@),
                        None => opt_str(env_index),
                    },
                ) {
                    Some(v) => v,
                    None => "sparse+https://mirrors.tuna.tsinghua.edu.cn/crates.io-index/"@,
                },
            ),
    {
        let raw: String = match &self.registry {
            Some(c) => {
                if c.as_str().is_empty() {
                    String::from_str("sparse+https://mirrors.tuna.tsinghua.edu.cn/crates.io-index/")
                } else {
                    c.clone()
                }
            },
            None => match env_index {
                Some(e) => {
                    if e.is_empty() {
                        String::from_str("sparse+https://mirrors.tuna.tsinghua.edu.cn/crates.io-index/")
                    } else {
                        String::from_str(e)
                    }
                },
                None => String::from_str("sparse+https://mirrors.tuna.tsinghua.edu.cn/crates.io-index/"),
            },
        };
        let v = chars_of(raw.as_str());
        if starts_with_str(&v, "sparse+") {
            raw
        } else {
            let mut w = chars_of("sparse+");
            append_chars(&mut w, &v);
            string_of(&w)
        }
    }

    /// HTTP base for direct `.crate` downloads: `CARGO_CRATE_DL_BASE`, else
    /// the Tuna static mirror (the configured registry is not used).
    pub fn cargo_crate_dl_base(&self, env_dl_base: Option<&str>) -> (r: String)
        ensures
            r@ == pick(None, opt_str(env_dl_base), "https://mirrors.tuna.tsinghua.edu.cn/crates.io/crates"@),
    {
        pick_value(&None, env_dl_base, "https://mirrors.tuna.tsinghua.edu.cn/crates.io/crates")
    }
}

/// The ecosystem a `download.config` names (trimmed, any case).
pub open spec fn config_eco(s: Seq<char>) -> Option<Ecosystem> {
    let t = lower_str(trim(s));
    if t == "go"@ {
        Some(Ecosystem::Go)
    } else if t == "npm"@ {
        Some(Ecosystem::Npm)
    } else if t == "pypi"@ || t == "pip"@ || t == "python"@ {
        Some(Ecosystem::Pypi)
    } else if t == "cargo"@ || t == "crates"@ || t == "rust"@ {
        Some(Ecosystem::Cargo)
    } else {
        None
    }
}

/// The error for an ecosystem `download.config` does not support.
pub open spec fn config_eco_error(s: Seq<char>) -> Seq<char> {
    "Unsupported ecosystem '"@ + lower_str(trim(s)) + "' in download.config (supported: go, npm, pypi, cargo)"@
}

pub fn parse_ecosystem(s: &str) -> (r: Result<Ecosystem, AkError>)
    ensures
        r matches Ok(e) ==> config_eco(s@) == Some(e),
        r matches Err(e) ==> config_eco(s@) is None && e is ConfigError && e.msg() == config_eco_error(s@),
{
    let v = chars_of(s);
    let tv = trim_chars(&v);
    let t = lower_chars(&tv);
    if chars_eq_str(&t, "go") {
        Ok(Ecosystem::Go)
    } else if chars_eq_str(&t, "npm") {
        Ok(Ecosystem::Npm)
    } else if chars_eq_str(&t, "pypi") || chars_eq_str(&t, "pip") || chars_eq_str(&t, "python") {
        Ok(Ecosystem::Pypi)
    } else if chars_eq_str(&t, "cargo") || chars_eq_str(&t, "crates") || chars_eq_str(&t, "rust") {
        Ok(Ecosystem::Cargo)
    } else {
        let mut msg = chars_of("Unsupported ecosystem '");
        append_chars(&mut msg, &t);
        append_str(&mut msg, "' in download.config (supported: go, npm, pypi, cargo)");
        Err(AkError::ConfigError(string_of(&msg)))
    }
}

/// The default output file of the `index`-th job (counted from 0) of a
/// `download.config`: `ak-ferry-{ecosystem}-{index + 1}.zip`.
pub open spec fn job_output_name(ecosystem: Seq<char>, index: nat) -> Seq<char> {
    "ak-ferry-"@ + lower_str(ecosystem) + "-"@ + dec(index + 1) + ".zip"@
}

pub fn default_job_output(ecosystem: &str, index: usize) -> (r: String)
    requires
        index < usize::MAX,
    ensures
        r@ == job_output_name(ecosystem@, index as nat),
{
    let ev = chars_of(ecosystem);
    let low = lower_chars(&ev);
    let mut v = chars_of("ak-ferry-");
    append_chars(&mut v, &low);
    append_str(&mut v, "-");
    let d = dec_chars(index + 1);
    append_chars(&mut v, &d);
    append_str(&mut v, ".zip");
    string_of(&v)
}

/// The message when a `download.config` names no job.
pub open spec fn no_jobs_message(config_display: Seq<char>) -> Seq<char> {
    config_display + ": provide [[downloads]] jobs, or top-level ecosystem + input"@
}

/// Where the jobs of a `download.config` come from.
#[derive(Debug, Clone, Copy, PartialEq, Eq, Structural)]
pub enum JobSource {
    /// The `[[downloads]]` tables.
    Listed,
    /// The top-level `ecosystem` + `input` shorthand.
    Shorthand,
}

/// `[[downloads]]` when there are any, else the top-level shorthand when it
/// names both an ecosystem and an input, else an error.
pub fn job_source(n_downloads: usize, has_ecosystem: bool, has_input: bool, config_display: &str) -> (r: Result<JobSource, AkError>)
    ensures
        n_downloads > 0 ==> r == Ok::<JobSource, AkError>(JobSource::Listed),
        n_downloads == 0 && has_ecosystem && has_input ==> r == Ok::<JobSource, AkError>(JobSource::Shorthand),
        n_downloads == 0 && !(has_ecosystem && has_input) ==> (r matches Err(e) && e is ConfigError && e.msg() == no_jobs_message(config_display@)),
{
    if n_downloads > 0 {
        Ok(JobSource::Listed)
    } else if has_ecosystem && has_input {
        Ok(JobSource::Shorthand)
    } else {
        let mut m = chars_of(config_display);
        append_str(&mut m, ": provide [[downloads]] jobs, or top-level ecosystem + input");
        Err(AkError::ConfigError(string_of(&m)))
    }
}

/// The notes printed for job settings that an ecosystem ignores.
pub open spec fn ignored_notes(eco: Ecosystem, has_targets: bool, has_nodes: bool, has_registry: bool, has_proxy_or_sumdb: bool) -> Seq<Seq<char>> {
    match eco {
        Ecosystem::Go => (if has_targets {
            seq!["note: targets ignored for go job"@]
        } else {
            seq![]
        }) + (if has_nodes {
            seq!["note: nodes ignored for go job"@]
        } else {
            seq![]
        }) + (if has_registry {
            seq!["note: registry ignored for go job (use proxy / sumdb)"@]
        } else {
            seq![]
        }),
        Ecosystem::Npm => if has_proxy_or_sumdb {
            seq!["note: proxy/sumdb ignored for npm job (use registry)"@]
        } else {
            seq![]
        },
        Ecosystem::Pypi => if has_proxy_or_sumdb {
            seq!["note: proxy/sumdb ignored for pypi job (use registry)"@]
        } else {
            seq![]
        },
        Ecosystem::Cargo => (if has_targets {
            seq!["note: targets ignored for cargo job"@]
        } else {
            seq![]
        }) + (if has_nodes {
            seq!["note: nodes ignored for cargo job"@]
        } else {
            seq![]
        }) + (if has_proxy_or_sumdb {
            seq!["note: proxy/sumdb ignored for cargo job (use registry)"@]
        } else {
            seq![]
        }),
    }
}

/// The notes for settings of a `download.config` job that its ecosystem ignores.
pub fn ignored_settings_notes(eco: Ecosystem, has_targets: bool, has_nodes: bool, has_registry: bool, has_proxy_or_sumdb: bool) -> (r: Vec<String>)
    ensures
        crate::text::strs(r@) == ignored_notes(eco, has_targets, has_nodes, has_registry, has_proxy_or_sumdb),
{
    let mut out: Vec<String> = Vec::new();
    match eco {
        Ecosystem::Go => {
            if has_targets {
                out.push(String::from_str("note: targets ignored for go job"));
            }
            if has_nodes {
                out.push(String::from_str("note: nodes ignored for go job"));
            }
            if has_registry {
                out.push(String::from_str("note: registry ignored for go job (use proxy / sumdb)"));
            }
        },
        Ecosystem::Npm => {
            if has_proxy_or_sumdb {
                out.push(String::from_str("note: proxy/sumdb ignored for npm job (use registry)"));
            }
        },
        Ecosystem::Pypi => {
            if has_proxy_or_sumdb {
                out.push(String::from_str("note: proxy/sumdb ignored for pypi job (use registry)"));
            }
        },
        Ecosystem::Cargo => {
            if has_targets {
                out.push(String::from_str("note: targets ignored for cargo job"));
            }
            if has_nodes {
                out.push(String::from_str("note: nodes ignored for cargo job"));
            }
            if has_proxy_or_sumdb {
                out.push(String::from_str("note: proxy/sumdb ignored for cargo job (use registry)"));
            }
        },
    }
    assert(crate::text::strs(out@) =~= ignored_notes(eco, has_targets, has_nodes, has_registry, has_proxy_or_sumdb));
    out
}

/// The name of an ecosystem as the job banner shows it (its `Debug` form).
pub open spec fn eco_debug(eco: Ecosystem) -> Seq<char> {
    match eco {
        Ecosystem::Go => "Go"@,
        Ecosystem::Npm => "Npm"@,
        Ecosystem::Pypi => "Pypi"@,
        Ecosystem::Cargo => "Cargo"@,
    }
}

/// `=== job {index + 1}/{count}: {Ecosystem} <- {input} ===`.
pub open spec fn job_banner_spec(index: nat, count: nat, eco: Ecosystem, input: Seq<char>) -> Seq<char> {
    "=== job "@ + dec(index + 1) + "/"@ + dec(count) + ": "@ + eco_debug(eco) + " <- "@ + input + " ==="@
}

pub fn job_banner(index: usize, count: usize, eco: Ecosystem, input: &str) -> (r: String)
    requires
        index < usize::MAX,
    ensures
        r@ == job_banner_spec(index as nat, count as nat, eco, input@),
{
    let mut v = chars_of("=== job ");
    let a = dec_chars(index + 1);
    append_chars(&mut v, &a);
    append_str(&mut v, "/");
    let b = dec_chars(count);
    append_chars(&mut v, &b);
    append_str(&mut v, ": ");
    match eco {
        Ecosystem::Go => append_str(&mut v, "Go"),
        Ecosystem::Npm => append_str(&mut v, "Npm"),
        Ecosystem::Pypi => append_str(&mut v, "Pypi"),
        Ecosystem::Cargo => append_str(&mut v, "Cargo"),
    }
    append_str(&mut v, " <- ");
    append_str(&mut v, input);
    append_str(&mut v, " ===");
    string_of(&v)
}

/// `path` when it is absolute, else `path` below `base`.
pub fn resolve_against(base: &Path, path: &Path) -> (r: PathBuf)
    ensures
        pathbuf_text(&r) == (if is_absolute_path(path) {
            path_text(path)
        } else {
            joined_text(path_text(base), path_text(path))
        }),
{
    if path_is_absolute(path) {
        path_to_buf(path)
    } else {
        path_join_path(base, path)
    }
}

/// The directory of a config file: its parent, or `.` when it has none (or
/// an empty one).
pub fn config_base(config_path: &Path) -> (r: PathBuf)
    ensures
        pathbuf_text(&r) == (match parent_text_of(config_path) {
            Some(q) => if q.len() > 0 {
                q
            } else {
                "."@
            },
            None => "."@,
        }),
{
    match path_parent(config_path) {
        Some(p) => {
            if pathbuf_is_empty(&p) {
                path_from(".")
            } else {
                p
            }
        },
        None => path_from("."),
    }
}

} // verus!
