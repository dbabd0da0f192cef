//! `ak download` arguments, and how they select and shape the jobs to run.
use vstd::prelude::*;
use std::path::PathBuf;

use crate::cache::{dedupe, node_items, node_list_ok, parse_node_list};
use crate::ecosystem::Ecosystem;
use crate::errors::AkError;
use crate::npm::{comma_items, split_comma_items};
use crate::text::{append_str, chars_of, string_of, strs, views};

verus! {

/// Mutually exclusive ecosystem flags (`--go` / `--npm` / `--pypi` / `--cargo`).
#[derive(Debug, Clone, Copy)]
pub struct EcosystemArgs {
    pub go: bool,
    pub npm: bool,
    pub pypi: bool,
    pub cargo: bool,
}

/// The ecosystem the flags select: the first set of go, npm, pypi, cargo.
pub open spec fn flag_eco(a: EcosystemArgs) -> Option<Ecosystem> {
    if a.go {
        Some(Ecosystem::Go)
    } else if a.npm {
        Some(Ecosystem::Npm)
    } else if a.pypi {
        Some(Ecosystem::Pypi)
    } else if a.cargo {
        Some(Ecosystem::Cargo)
    } else {
        None
    }
}

impl EcosystemArgs {
    pub fn selected(&self) -> (r: Option<Ecosystem>)
        ensures
            r == flag_eco(*self),
    {
        if self.go {
            Some(Ecosystem::Go)
        } else if self.npm {
            Some(Ecosystem::Npm)
        } else if self.pypi {
            Some(Ecosystem::Pypi)
        } else if self.cargo {
            Some(Ecosystem::Cargo)
        } else {
            None
        }
    }
}

/// `ak download catalog`: export the server's package inventory.
#[derive(Debug, Clone)]
pub enum DownloadSubcommand {
    Catalog { repo: String, output: PathBuf, formats: Vec<String>, include_artifacts: bool },
}

/// Build an air-gap ferry zip from a module list / lockfile using native toolchains.
#[derive(Debug)]
pub struct DownloadArgs {
    pub command: Option<DownloadSubcommand>,
    pub ecosystem: EcosystemArgs,
    pub input: Option<PathBuf>,
    pub config: Option<PathBuf>,
    pub catalog: Option<PathBuf>,
    pub output: PathBuf,
    pub work_dir: Option<PathBuf>,
    pub all_versions: bool,
    pub targets: Vec<String>,
    pub nodes: Vec<String>,
    pub force: bool,
    pub jobs: Option<usize>,
    pub cache_db: Option<PathBuf>,
}

/// What `ak download` does with its arguments.
#[derive(Debug, Clone, Copy, PartialEq, Eq, Structural)]
pub enum DownloadMode {
    /// `ak download catalog …`
    ExportCatalog,
    /// One job from the command line.
    CliJob(Ecosystem),
    /// The jobs of a `download.config`.
    ConfigPlan,
}

pub open spec fn mode_spec(has_command: bool, eco: Option<Ecosystem>, has_input: bool) -> Result<DownloadMode, Seq<char>> {
    if has_command {
        Ok(DownloadMode::ExportCatalog)
    } else {
        match eco {
            Some(e) => if has_input {
                Ok(DownloadMode::CliJob(e))
            } else {
                Err("CLI mode requires an input file (or use --config download.config)"@)
            },
            None => if has_input {
                Err(
                    "Input without --go/--npm/--pypi/--cargo: put the plan in download.config, or pass an ecosystem flag"@,
                )
            } else {
                Ok(DownloadMode::ConfigPlan)
            },
        }
    }
}

/// The mode of a run: the catalog subcommand; else a CLI job when an
/// ecosystem flag is set (it needs an input); else the config plan (an input
/// without an ecosystem flag is an error).
pub fn download_mode(has_command: bool, eco: &EcosystemArgs, has_input: bool) -> (r: Result<DownloadMode, AkError>)
    ensures
        r matches Ok(m) ==> mode_spec(has_command, flag_eco(*eco), has_input) == Ok::<DownloadMode, Seq<char>>(m),
        r matches Err(e) ==> e is ConfigError && mode_spec(has_command, flag_eco(*eco), has_input) == Err::<DownloadMode, Seq<char>>(e.msg()),
{
    if has_command {
        return Ok(DownloadMode::ExportCatalog);
    }
    match eco.selected() {
        Some(e) => {
            if has_input {
                Ok(DownloadMode::CliJob(e))
            } else {
                Err(AkError::ConfigError(String::from_str("CLI mode requires an input file (or use --config download.config)")))
            }
        },
        None => {
            if has_input {
                Err(
                    AkError::ConfigError(
                        String::from_str(
                            "Input without --go/--npm/--pypi/--cargo: put the plan in download.config, or pass an ecosystem flag",
                        ),
                    ),
                )
            } else {
                Ok(DownloadMode::ConfigPlan)
            }
        },
    }
}

impl DownloadArgs {
    /// The mode these arguments select.
    pub fn mode(&self) -> (r: Result<DownloadMode, AkError>)
        ensures
            r matches Ok(m) ==> mode_spec(self.command is Some, flag_eco(self.ecosystem), self.input is Some) == Ok::<DownloadMode, Seq<char>>(m),
            r matches Err(e) ==> e is ConfigError && mode_spec(self.command is Some, flag_eco(self.ecosystem), self.input is Some)
                == Err::<DownloadMode, Seq<char>>(e.msg()),
    {
        download_mode(self.command.is_some(), &self.ecosystem, self.input.is_some())
    }
}

/// The error for CLI ecosystem flags given together with `--config`.
pub fn flags_and_config_error() -> (e: AkError)
    ensures
        e is ConfigError,
        e.msg() == "Use either CLI flags (--go/--npm/--pypi/--cargo …) or --config, not both"@,
{
    AkError::ConfigError(String::from_str("Use either CLI flags (--go/--npm/--pypi/--cargo …) or --config, not both"))
}

/// `--target` and `--node` are for npm and PyPI only.
pub open spec fn matrix_error(eco: Ecosystem, n_targets: nat, n_nodes: nat) -> Option<Seq<char>> {
    if (eco == Ecosystem::Go || eco == Ecosystem::Cargo) && n_targets > 0 {
        Some("--target is only supported with --npm or --pypi"@)
    } else if (eco == Ecosystem::Go || eco == Ecosystem::Cargo) && n_nodes > 0 {
        Some("--node is only supported with --npm or --pypi"@)
    } else {
        None
    }
}

pub fn check_cli_matrix(eco: Ecosystem, n_targets: usize, n_nodes: usize) -> (r: Result<(), AkError>)
    ensures
        r is Ok <==> matrix_error(eco, n_targets as nat, n_nodes as nat) is None,
        r matches Err(e) ==> e is ConfigError && matrix_error(eco, n_targets as nat, n_nodes as nat) == Some(e.msg()),
{
    let go_or_cargo = match eco {
        Ecosystem::Go => true,
        Ecosystem::Cargo => true,
        _ => false,
    };
    if go_or_cargo && n_targets > 0 {
        return Err(AkError::ConfigError(String::from_str("--target is only supported with --npm or --pypi")));
    }
    if go_or_cargo && n_nodes > 0 {
        return Err(AkError::ConfigError(String::from_str("--node is only supported with --npm or --pypi")));
    }
    Ok(())
}

/// The runtime list of `--node` values for a job: npm Node targets (parsed
/// and checked), or PyPI Python versions (comma-separated, trimmed, blanks
/// dropped); empty when none are given.
pub fn runtime_list(eco: Ecosystem, nodes: &Vec<String>) -> (r: Result<Vec<String>, AkError>)
    ensures
        nodes@.len() == 0 ==> (r matches Ok(v) && v@.len() == 0),
        nodes@.len() > 0 && eco == Ecosystem::Npm ==> ((r is Ok) == node_list_ok(strs(nodes@))),
        nodes@.len() > 0 && eco == Ecosystem::Npm ==> (r matches Ok(v) ==> strs(v@) == dedupe(node_items(strs(nodes@)))),
        nodes@.len() > 0 && eco != Ecosystem::Npm ==> (r matches Ok(v) && strs(v@) == comma_items(strs(nodes@))),
{
    if nodes.len() == 0 {
        return Ok(Vec::new());
    }
    match eco {
        Ecosystem::Npm => parse_node_list(nodes),
        _ => {
            let items = split_comma_items(nodes.as_slice());
            Ok(strings_of(&items))
        },
    }
}

fn strings_of(items: &Vec<Vec<char>>) -> (r: Vec<String>)
    ensures
        strs(r@) == views(items@),
{
    let mut out: Vec<String> = Vec::new();
    let mut i: usize = 0;
    while i < items.len()
        invariant
            i <= items.len(),
            strs(out@) == views(items@).take(i as int),
        decreases items.len() - i,
    {
        let ghost before = strs(out@);
        out.push(string_of(&items[i]));
        assert(views(items@)[i as int] == items@[i as int]@);
        assert(strs(out@) =~= before.push(views(items@)[i as int]));
        i = i + 1;
        assert(strs(out@) =~= views(items@).take(i as int));
    }
    assert(views(items@).take(items.len() as int) =~= views(items@));
    out
}

/// The settings of a config job that command-line flags can override.
#[derive(Debug)]
pub struct JobSettings {
    pub ecosystem: Ecosystem,
    pub all_versions: bool,
    pub targets: Vec<String>,
    pub nodes: Vec<String>,
}

/// Apply the command-line overrides to one job of a `download.config`:
/// `--all-versions` turns it on for every job; `--target` replaces the
/// targets of npm and PyPI jobs; `--node` replaces the runtimes of npm and
/// PyPI jobs (parsed as for a CLI job).
pub fn apply_cli_overrides(job: &mut JobSettings, all_versions: bool, targets: &Vec<String>, nodes: &Vec<String>) -> (r: Result<(), AkError>)
    ensures
        final(job).ecosystem == old(job).ecosystem,
        final(job).all_versions == (old(job).all_versions || all_versions),
        r is Ok ==> (if targets@.len() > 0 && (old(job).ecosystem == Ecosystem::Npm || old(job).ecosystem == Ecosystem::Pypi) {
            strs(final(job).targets@) == strs(targets@)
        } else {
            final(job).targets == old(job).targets
        }),
        r is Ok && old(job).ecosystem == Ecosystem::Pypi && nodes@.len() > 0 ==> strs(final(job).nodes@) == comma_items(strs(nodes@)),
        r is Ok && old(job).ecosystem != Ecosystem::Npm && old(job).ecosystem != Ecosystem::Pypi ==> final(job).nodes == old(job).nodes,
        r is Ok && nodes@.len() == 0 ==> final(job).nodes == old(job).nodes,
        old(job).ecosystem == Ecosystem::Npm && nodes@.len() > 0 ==> ((r is Ok) == node_list_ok(strs(nodes@))),
        r is Ok && old(job).ecosystem == Ecosystem::Npm && nodes@.len() > 0 ==> strs(final(job).nodes@) == dedupe(node_items(strs(nodes@))),
        old(job).ecosystem != Ecosystem::Npm || nodes@.len() == 0 ==> r is Ok,
{
    if all_versions {
        job.all_versions = true;
    }
    let npm_or_pypi = match job.ecosystem {
        Ecosystem::Npm => true,
        Ecosystem::Pypi => true,
        _ => false,
    };
    if targets.len() > 0 && npm_or_pypi {
        job.targets = copy_strings(targets);
    }
    if nodes.len() > 0 && npm_or_pypi {
        match runtime_list(job.ecosystem, nodes) {
            Ok(v) => {
                job.nodes = v;
            },
            Err(e) => {
                return Err(e);
            },
        }
    }
    Ok(())
}

fn copy_strings(v: &Vec<String>) -> (r: Vec<String>)
    ensures
        strs(r@) == strs(v@),
{
    let mut out: Vec<String> = Vec::new();
    let mut i: usize = 0;
    while i < v.len()
        invariant
            i <= v.len(),
            strs(out@) == strs(v@).take(i as int),
        decreases v.len() - i,
    {
        let ghost before = strs(out@);
        out.push(v[i].clone());
        assert(strs(out@) =~= before.push(v@[i as int]@));
        i = i + 1;
        assert(strs(out@) =~= strs(v@).take(i as int));
    }
    assert(strs(v@).take(v.len() as int) =~= strs(v@));
    out
}

/// The error when no ecosystem flag is given and the config file is missing.
pub fn config_not_found_error(config_display: &str) -> (e: AkError)
    ensures
        e is ConfigError,
        e.msg() == "No ecosystem flag and config not found: "@ + config_display@
            + " (pass --config PATH or create download.config)"@,
{
    let mut v = chars_of("No ecosystem flag and config not found: ");
    append_str(&mut v, config_display);
    append_str(&mut v, " (pass --config PATH or create download.config)");
    AkError::ConfigError(string_of(&v))
}

/// The error for a `download.config` that yields no job.
pub fn no_download_jobs_error(config_display: &str) -> (e: AkError)
    ensures
        e is ConfigError,
        e.msg() == config_display@ + " contains no download jobs"@,
{
    let mut v = chars_of(config_display);
    append_str(&mut v, " contains no download jobs");
    AkError::ConfigError(string_of(&v))
}

} // verus!
