//! Verified core of the `ak download` ferry tooling: naming of ferry packs,
//! parsing of module lists, lockfiles and package filenames for npm, Go,
//! PyPI and Cargo, artifact-path formulas, the server catalog, and the
//! decisions of the download engine.
use vstd::prelude::*;

pub mod text;
pub mod runs;
pub mod clock;
pub mod json;
pub mod toml_doc;
pub mod lifecycle;
pub mod import;
pub mod migrate;
pub mod paths;
pub mod ecosystem;
pub mod naming;
pub mod manifest;
pub mod errors;
pub mod engine;
pub mod go_proxy;
pub mod go;
pub mod cargo;
pub mod pypi;
pub mod npm;
pub mod catalog;
pub mod ferry_dir;
pub mod config;
pub mod cache;
pub mod helpers;
pub mod passes;
pub mod collect;
pub mod expand;
pub mod digest;
pub mod cli;
pub mod dt;

verus! {

} // verus!
