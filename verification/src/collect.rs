//! What a ferry job does with each pass and each fetched module: skip what
//! the server already has, record every (name, version) once, and report
//! the units that failed.
use vstd::prelude::*;

use crate::catalog::{entry_key, ServerCatalog};
use crate::engine::{clip, clip_text};
use crate::errors::UnitError;
use crate::manifest::{module_keys, ModuleEntry, RootSpec};
use crate::text::{
    append_chars, append_str, byte_len, chars_eq, chars_of, copy_chars, dec, dec_chars,
    is_boundary, lines, lines_chars, string_of, trim, views,
};

verus! {

/// A (name, version) pair.
pub type ModKey = (Seq<char>, Seq<char>);

/// The (name, version) pairs already in the ferry output, or skipped
/// because the server has them.
#[derive(Debug)]
pub struct KnownModules {
    pairs: Vec<(String, String)>,
}

impl View for KnownModules {
    type V = Set<ModKey>;

    closed spec fn view(&self) -> Set<ModKey> {
        self.pair_seq().to_set()
    }
}

impl KnownModules {
    spec fn pair_seq(&self) -> Seq<ModKey> {
        self.pairs@.map_values(|p: (String, String)| (p.0@, p.1@))
    }

    #[verifier::type_invariant]
    spec fn distinct(&self) -> bool {
        self.pair_seq().no_duplicates()
    }

    /// Nothing known yet.
    pub fn new() -> (k: Self)
        ensures
            k@ == Set::<ModKey>::empty(),
    {
        let k = KnownModules { pairs: Vec::new() };
        assert(k.pair_seq().to_set() =~= Set::<ModKey>::empty());
        k
    }

    /// Whether the pair is known.
    pub fn contains(&self, name: &str, version: &str) -> (b: bool)
        ensures
            b == self@.contains((name@, version@)),
    {
        let ghost ps = self.pair_seq();
        let nv = chars_of(name);
        let vv = chars_of(version);
        let mut i: usize = 0;
        while i < self.pairs.len()
            invariant
                i <= self.pairs.len(),
                ps == self.pair_seq(),
                nv@ == name@,
                vv@ == version@,
                forall|j: int| 0 <= j < i ==> #[trigger] ps[j] != (name@, version@),
            decreases self.pairs.len() - i,
        {
            let p = &self.pairs[i];
            let a = chars_of(p.0.as_str());
            let b = chars_of(p.1.as_str());
            assert(ps[i as int] == (p.0@, p.1@));
            if chars_eq(&a, &nv) && chars_eq(&b, &vv) {
                assert(ps.contains((name@, version@)));
                return true;
            }
            i = i + 1;
        }
        assert(!ps.contains((name@, version@)));
        false
    }

    /// Add the pair; `true` when it was not known before (as `HashSet::insert`).
    pub fn insert(&mut self, name: &str, version: &str) -> (added: bool)
        ensures
            added == !old(self)@.contains((name@, version@)),
            final(self)@ == old(self)@.insert((name@, version@)),
    {
        if self.contains(name, version) {
            assert(self@.insert((name@, version@)) =~= self@);
            return false;
        }
        proof {
            use_type_invariant(&*self);
        }
        let ghost old_ps = self.pair_seq();
        let ghost key = (name@, version@);
        let mut ps: Vec<(String, String)> = Vec::new();
        std::mem::swap(&mut ps, &mut self.pairs);
        ps.push((String::from_str(name), String::from_str(version)));
        let ghost new_ps = ps@.map_values(|p: (String, String)| (p.0@, p.1@));
        assert(new_ps =~= old_ps.push(key));
        assert(!old_ps.contains(key));
        self.pairs = ps;
        assert(self.pair_seq() =~= old_ps.push(key));
        assert(self.pair_seq().to_set() =~= old_ps.to_set().insert(key)) by {
            broadcast use vstd::seq_lib::group_seq_properties;
        }
        true
    }

    /// The pairs of the modules a manifest already records.
    pub fn from_modules(modules: &Vec<ModuleEntry>) -> (k: Self)
        ensures
            k@ == module_keys(modules@).to_set(),
    {
        let mut k = KnownModules::new();
        let mut i: usize = 0;
        while i < modules.len()
            invariant
                i <= modules.len(),
                k@ == module_keys(modules@).take(i as int).to_set(),
            decreases modules.len() - i,
        {
            let ghost before = k@;
            k.insert(modules[i].name.as_str(), modules[i].version.as_str());
            assert(module_keys(modules@).take(i + 1) =~= module_keys(modules@).take(i as int).push(
                (modules@[i as int].name@, modules@[i as int].version@),
            ));
            assert(k@ =~= module_keys(modules@).take(i + 1).to_set()) by {
                broadcast use vstd::seq_lib::group_seq_properties;
            }
            i = i + 1;
        }
        assert(module_keys(modules@).take(modules.len() as int) =~= module_keys(modules@));
        k
    }
}

/// Whether the server catalog (when given, and `--force` is off) lists this
/// package version.
pub open spec fn catalog_has(catalog: Option<Set<(Seq<char>, Seq<char>, Seq<char>)>>, force: bool, eco: Seq<char>, name: Seq<char>, version: Seq<char>) -> bool {
    match catalog {
        Some(c) => !force && (entry_key(eco, name, version) matches Some(k) && c.contains(k)),
        None => false,
    }
}

/// The view of an optional catalog.
pub open spec fn catalog_view(catalog: Option<&ServerCatalog>) -> Option<Set<(Seq<char>, Seq<char>, Seq<char>)>> {
    match catalog {
        Some(c) => Some(c@),
        None => None,
    }
}

fn catalog_skips(catalog: Option<&ServerCatalog>, force: bool, eco: &str, name: &str, version: &str) -> (b: bool)
    ensures
        b == catalog_has(catalog_view(catalog), force, eco@, name@, version@),
{
    match catalog {
        Some(c) => c.should_skip(force, eco, name, version),
        None => false,
    }
}

/// With `--all-versions` each pass fetches one package version; it is
/// skipped when that version is named and the server catalog lists it.
pub fn catalog_skips_pass(all_versions: bool, catalog: Option<&ServerCatalog>, force: bool, eco: &str, root: &RootSpec) -> (b: bool)
    ensures
        b == (all_versions && (root.version matches Some(v) && (v@.len() > 0 && catalog_has(
            catalog_view(catalog),
            force,
            eco@,
            root.name@,
            v@,
        )))),
{
    if !all_versions {
        return false;
    }
    match &root.version {
        Some(v) => {
            if v.as_str().is_empty() {
                false
            } else {
                catalog_skips(catalog, force, eco, root.name.as_str(), v.as_str())
            }
        },
        None => false,
    }
}

/// What happens to a fetched module.
#[derive(Debug, Clone, Copy, PartialEq, Eq, Structural)]
pub enum ModuleDecision {
    /// The server already has it: left out, but remembered so that another
    /// root's closure does not add it.
    SkipCatalog,
    /// Already in the ferry output.
    Duplicate,
    /// New: hash its files and record it in the manifest.
    Record,
}

/// The decision for a module, from what is known before it and whether the
/// catalog lists it.
pub open spec fn module_decision(known: Set<ModKey>, on_server: bool, k: ModKey) -> ModuleDecision {
    if on_server {
        ModuleDecision::SkipCatalog
    } else if known.contains(k) {
        ModuleDecision::Duplicate
    } else {
        ModuleDecision::Record
    }
}

/// Decide what to do with a fetched module, and remember its pair.
pub fn decide_module(
    known: &mut KnownModules,
    catalog: Option<&ServerCatalog>,
    force: bool,
    eco: &str,
    name: &str,
    version: &str,
) -> (d: ModuleDecision)
    ensures
        d == module_decision(old(known)@, catalog_has(catalog_view(catalog), force, eco@, name@, version@), (name@, version@)),
        final(known)@ == old(known)@.insert((name@, version@)),
{
    if catalog_skips(catalog, force, eco, name, version) {
        known.insert(name, version);
        return ModuleDecision::SkipCatalog;
    }
    if !known.insert(name, version) {
        return ModuleDecision::Duplicate;
    }
    ModuleDecision::Record
}

/// Once a pair is known (recorded, or skipped for the catalog), no later
/// fetched module with that pair is recorded again.
pub proof fn lemma_recorded_once(before: Set<ModKey>, later: Set<ModKey>, on_server: bool, k: ModKey)
    requires
        before.contains(k),
        before.subset_of(later),
    ensures
        module_decision(later, on_server, k) != ModuleDecision::Record,
{
}

/// Starting from the pairs a manifest records, a module decided `Record` is
/// not in the manifest yet, so recording it adds it.
pub proof fn lemma_record_is_new(ms: Seq<ModuleEntry>, on_server: bool, name: Seq<char>, version: Seq<char>)
    requires
        module_decision(module_keys(ms).to_set(), on_server, (name, version)) == ModuleDecision::Record,
    ensures
        !crate::manifest::has_key(ms, name, version),
{
    if crate::manifest::has_key(ms, name, version) {
        let i = choose|i: int| 0 <= i < ms.len() && #[trigger] ms[i].name@ == name && ms[i].version@ == version;
        assert(module_keys(ms)[i] == (name, version));
        assert(module_keys(ms).contains((name, version)));
    }
}

/// Deciding keeps every pair known before and adds the module's own pair.
pub proof fn lemma_known_grows(before: Set<ModKey>, k: ModKey)
    ensures
        before.subset_of(before.insert(k)),
        before.insert(k).contains(k),
{
}

// ---------------------------------------------------------------------------
// Reports
// ---------------------------------------------------------------------------

/// `{prefix} {name}@{version}`: the unit of a module-level failure.
pub open spec fn module_unit_spec(prefix: Seq<char>, name: Seq<char>, version: Seq<char>) -> Seq<char> {
    prefix + " "@ + name + "@"@ + version
}

pub fn module_unit(prefix: &str, name: &str, version: &str) -> (r: String)
    ensures
        r@ == module_unit_spec(prefix@, name@, version@),
{
    let mut v = chars_of(prefix);
    append_str(&mut v, " ");
    append_str(&mut v, name);
    append_str(&mut v, "@");
    append_str(&mut v, version);
    string_of(&v)
}

/// The error when the input names no package.
pub fn no_roots_error(eco: &str) -> (e: crate::errors::AkError)
    ensures
        e is ConfigError,
        e.msg() == "No "@ + eco@ + " packages/modules found in input"@,
{
    let mut v = chars_of("No ");
    append_str(&mut v, eco);
    append_str(&mut v, " packages/modules found in input");
    crate::errors::AkError::ConfigError(string_of(&v))
}

/// The error when `--all-versions` finds no published version.
pub fn no_versions_error(eco: &str) -> (e: crate::errors::AkError)
    ensures
        e is ConfigError,
        e.msg() == "No published versions found for listed "@ + eco@ + " packages/modules"@,
{
    let mut v = chars_of("No published versions found for listed ");
    append_str(&mut v, eco);
    append_str(&mut v, " packages/modules");
    crate::errors::AkError::ConfigError(string_of(&v))
}

/// The error that ends a job in which some units failed.
pub fn failed_units_error(n: usize, eco: &str) -> (e: crate::errors::AkError)
    ensures
        e is ConfigError,
        e.msg() == dec(n as nat) + " "@ + eco@ + " unit(s) failed (details above); successful packages are in the ferry output"@,
{
    let mut v = dec_chars(n);
    append_str(&mut v, " ");
    append_str(&mut v, eco);
    append_str(&mut v, " unit(s) failed (details above); successful packages are in the ferry output");
    crate::errors::AkError::ConfigError(string_of(&v))
}

/// The closing message of a job: where the output is and how to upload it.
pub open spec fn wrote_message(out: Seq<char>, roots: nat, modules: nat, hint: Seq<char>, no_archive: bool) -> Seq<char> {
    "Wrote "@ + out + " ("@ + dec(roots) + " roots, "@ + dec(modules) + " packages). Upload with:\n  ak artifact push <"@
        + hint + (if no_archive {
        "-local> --from-dir "@ + out + " --skip-dupe-uploads"@
    } else {
        "-repo> --from-archive "@ + out
    })
}

pub fn wrote_line(out: &str, roots: usize, modules: usize, hint: &str, no_archive: bool) -> (r: String)
    ensures
        r@ == wrote_message(out@, roots as nat, modules as nat, hint@, no_archive),
{
    let mut v = chars_of("Wrote ");
    append_str(&mut v, out);
    append_str(&mut v, " (");
    let r = dec_chars(roots);
    append_chars(&mut v, &r);
    append_str(&mut v, " roots, ");
    let m = dec_chars(modules);
    append_chars(&mut v, &m);
    append_str(&mut v, " packages). Upload with:\n  ak artifact push <");
    append_str(&mut v, hint);
    if no_archive {
        append_str(&mut v, "-local> --from-dir ");
        append_str(&mut v, out);
        append_str(&mut v, " --skip-dupe-uploads");
    } else {
        append_str(&mut v, "-repo> --from-archive ");
        append_str(&mut v, out);
    }
    string_of(&v)
}

/// The lines that report one failed unit: `  {n}. {unit}`, then each line
/// of its reason, trimmed and cut to 400 bytes, indented.
pub open spec fn error_lines(n: nat, e: UnitError) -> Seq<Seq<char>> {
    seq!["  "@ + dec(n) + ". "@ + e.unit@] + lines(clip(e.reason@, 400)).map_values(
        |l: Seq<char>| "     "@ + l,
    )
}

/// The report lines of the failures `es`, numbered from `1`.
pub open spec fn errors_lines(es: Seq<UnitError>) -> Seq<Seq<char>>
    decreases es.len(),
{
    if es.len() == 0 {
        seq![]
    } else {
        errors_lines(es.drop_last()) + error_lines(es.len(), es.last())
    }
}

/// The failure summary of a job: a header, then the lines of each failure;
/// nothing when no unit failed.
pub open spec fn summary_lines(eco: Seq<char>, es: Seq<UnitError>) -> Seq<Seq<char>> {
    if es.len() == 0 {
        seq![]
    } else {
        seq![
            "=== "@ + eco + " download: "@ + dec(es.len())
                + " failure(s) (skipped; ferry zip still written if anything succeeded) ==="@,
        ] + errors_lines(es)
    }
}

/// Whether every reason can be cut at 400 bytes (its trimmed text is short
/// enough, or byte 400 falls between two characters).
pub open spec fn reasons_cuttable(es: Seq<UnitError>) -> bool {
    forall|i: int| 0 <= i < es.len() ==> (byte_len(trim(#[trigger] es[i].reason@)) > 400 ==> is_boundary(trim(es[i].reason@), 400))
}

/// Whether a text, trimmed, can be cut at `max` bytes: it is not longer, or
/// byte `max` falls between two characters.
pub fn cuttable_at(s: &str, max: usize) -> (b: bool)
    ensures
        b == (byte_len(trim(s@)) > max ==> is_boundary(trim(s@), max as nat)),
{
    let v = chars_of(s);
    let t = crate::text::trim_chars(&v);
    match crate::text::byte_len_upto(&t, max) {
        Some(_) => true,
        None => crate::text::char_index_at_byte(&t, max).is_some(),
    }
}

/// Whether `error_summary` can report these failures (`reasons_cuttable`).
pub fn reasons_fit_summary(errors: &Vec<UnitError>) -> (b: bool)
    ensures
        b == reasons_cuttable(errors@),
{
    let mut i: usize = 0;
    while i < errors.len()
        invariant
            i <= errors.len(),
            forall|j: int| 0 <= j < i ==> (byte_len(trim(#[trigger] errors@[j].reason@)) > 400 ==> is_boundary(trim(errors@[j].reason@), 400)),
        decreases errors.len() - i,
    {
        if !cuttable_at(errors[i].reason.as_str(), 400) {
            return false;
        }
        i = i + 1;
    }
    true
}

/// The failure summary of a job (empty when no unit failed).
pub fn error_summary(eco: &str, errors: &Vec<UnitError>) -> (r: Vec<String>)
    requires
        reasons_cuttable(errors@),
    ensures
        crate::text::strs(r@) == summary_lines(eco@, errors@),
{
    let mut out: Vec<String> = Vec::new();
    if errors.len() == 0 {
        assert(crate::text::strs(out@) =~= summary_lines(eco@, errors@));
        return out;
    }
    let mut h = chars_of("=== ");
    append_str(&mut h, eco);
    append_str(&mut h, " download: ");
    let n = dec_chars(errors.len());
    append_chars(&mut h, &n);
    append_str(&mut h, " failure(s) (skipped; ferry zip still written if anything succeeded) ===");
    out.push(string_of(&h));
    let ghost head = crate::text::strs(out@);
    let mut i: usize = 0;
    while i < errors.len()
        invariant
            i <= errors.len(),
            reasons_cuttable(errors@),
            crate::text::strs(out@) == head + errors_lines(errors@.take(i as int)),
        decreases errors.len() - i,
    {
        assert(errors@.take(i + 1).drop_last() =~= errors@.take(i as int));
        assert(errors@.take(i + 1).last() == errors@[i as int]);
        let e = &errors[i];
        let ghost base = crate::text::strs(out@);
        let mut l = chars_of("  ");
        let num = dec_chars(i + 1);
        append_chars(&mut l, &num);
        append_str(&mut l, ". ");
        append_str(&mut l, e.unit.as_str());
        out.push(string_of(&l));
        assert(byte_len(trim(errors@[i as int].reason@)) > 400 ==> is_boundary(trim(errors@[i as int].reason@), 400));
        let short = clip_text(e.reason.as_str(), 400);
        let sv = chars_of(short.as_str());
        let ls = lines_chars(&sv);
        let ghost mid = crate::text::strs(out@);
        let mut j: usize = 0;
        while j < ls.len()
            invariant
                j <= ls.len(),
                crate::text::strs(out@) == mid + views(ls@).take(j as int).map_values(|x: Seq<char>| "     "@ + x),
            decreases ls.len() - j,
        {
            let mut w = chars_of("     ");
            append_chars(&mut w, &ls[j]);
            let ghost before = crate::text::strs(out@);
            out.push(string_of(&w));
            assert(views(ls@)[j as int] == ls@[j as int]@);
            assert(crate::text::strs(out@) =~= before.push("     "@ + views(ls@)[j as int]));
            j = j + 1;
            assert(crate::text::strs(out@) =~= mid + views(ls@).take(j as int).map_values(|x: Seq<char>| "     "@ + x));
        }
        assert(views(ls@).take(ls.len() as int) =~= views(ls@));
        assert(crate::text::strs(out@) =~= base + error_lines((i + 1) as nat, errors@[i as int]));
        i = i + 1;
    }
    assert(errors@.take(errors.len() as int) =~= errors@);
    out
}

} // verus!
