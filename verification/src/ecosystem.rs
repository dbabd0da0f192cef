//! Package ecosystems and the textual names accepted for them.
use vstd::prelude::*;

verus! {

/// The four package ecosystems a ferry job can download.
#[derive(Debug, Clone, Copy, PartialEq, Eq, Structural)]
pub enum Ecosystem {
    Go,
    Npm,
    Pypi,
    Cargo,
}

/// The slug used in file names and manifests.
pub open spec fn slug(eco: Ecosystem) -> Seq<char> {
    match eco {
        Ecosystem::Go => "go"@,
        Ecosystem::Npm => "npm"@,
        Ecosystem::Pypi => "pypi"@,
        Ecosystem::Cargo => "cargo"@,
    }
}

/// Lower-case slug of an ecosystem (`go`, `npm`, `pypi`, `cargo`).
pub fn ecosystem_slug(eco: Ecosystem) -> (r: &'static str)
    ensures
        r@ == slug(eco),
{
    match eco {
        Ecosystem::Go => "go",
        Ecosystem::Npm => "npm",
        Ecosystem::Pypi => "pypi",
        Ecosystem::Cargo => "cargo",
    }
}

} // verus!
