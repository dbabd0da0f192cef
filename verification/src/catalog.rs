//! Server repository catalog: the package versions already present on the
//! intranet server, used by a ferry download to skip them.
use vstd::prelude::*;

use crate::cargo::{crate_filename, parse_crate_filename};
use crate::errors::AkError;
use crate::go_proxy::{decode_go_path, decode_path};
use crate::pypi::{dist_filename, parse_dist_filename, pypi_folder_name};
use crate::text::{
    after_last_char, after_last_char_chars, append_chars, append_str, chars_eq_str, chars_of,
    contains, copy_chars, ends_with, ends_with_str, find, find_str, lower_chars, lower_str,
    replace_char, replace_char_chars, rfind, rfind_str, rsplit_once, rsplit_once_str, slice_of,
    split_once, split_once_str, starts_with_chars, string_of, strip_prefix, strip_prefix_str,
    strip_suffix, strip_suffix_str, trim, trim_chars, trim_start, trim_start_char, trim_start_char_chars,
};

verus! {

/// One skippable package/module already present on the (intranet) server.
#[derive(Debug, Clone)]
pub struct CatalogEntry {
    pub ecosystem: String,
    pub name: String,
    pub version: String,
    pub repository_key: Option<String>,
    pub path: Option<String>,
    pub sha256: Option<String>,
    /// `packages` or `artifacts`
    pub source: Option<String>,
}

/// The canonical ecosystem of a catalog `ecosystem` value (trimmed, any case).
pub open spec fn catalog_eco(s: Seq<char>) -> Option<Seq<char>> {
    let t = lower_str(trim(s));
    if t == "npm"@ {
        Some("npm"@)
    } else if t == "go"@ || t == "golang"@ {
        Some("go"@)
    } else if t == "pypi"@ || t == "pip"@ || t == "python"@ {
        Some("pypi"@)
    } else if t == "cargo"@ || t == "crates"@ || t == "crate"@ || t == "rust"@ {
        Some("cargo"@)
    } else {
        None
    }
}

/// The error for an unsupported catalog ecosystem.
pub open spec fn catalog_eco_error(s: Seq<char>) -> Seq<char> {
    "Unsupported catalog ecosystem '"@ + lower_str(trim(s)) + "' (use npm, go, pypi, cargo)"@
}

pub fn normalize_ecosystem(s: &str) -> (r: Result<String, AkError>)
    ensures
        r matches Ok(e) ==> catalog_eco(s@) == Some(e@),
        r matches Err(e) ==> catalog_eco(s@) is None && e is ConfigError && e.msg()
            == catalog_eco_error(s@),
{
    let v = chars_of(s);
    let tv = trim_chars(&v);
    let t = lower_chars(&tv);
    if chars_eq_str(&t, "npm") {
        Ok(String::from_str("npm"))
    } else if chars_eq_str(&t, "go") || chars_eq_str(&t, "golang") {
        Ok(String::from_str("go"))
    } else if chars_eq_str(&t, "pypi") || chars_eq_str(&t, "pip") || chars_eq_str(&t, "python") {
        Ok(String::from_str("pypi"))
    } else if chars_eq_str(&t, "cargo") || chars_eq_str(&t, "crates") || chars_eq_str(&t, "crate")
        || chars_eq_str(&t, "rust") {
        Ok(String::from_str("cargo"))
    } else {
        let mut msg = chars_of("Unsupported catalog ecosystem '");
        append_chars(&mut msg, &t);
        append_str(&mut msg, "' (use npm, go, pypi, cargo)");
        Err(AkError::ConfigError(string_of(&msg)))
    }
}

/// The name as the catalog compares it: npm and PyPI names have `_` and `.`
/// turned into `-` and are ASCII lower-cased; others are kept.
pub open spec fn catalog_name(eco: Seq<char>, name: Seq<char>) -> Seq<char> {
    if eco == "npm"@ || eco == "pypi"@ {
        pypi_folder_name(name)
    } else {
        name
    }
}

pub fn normalize_name(ecosystem: &str, name: &str) -> (r: String)
    ensures
        r@ == catalog_name(ecosystem@, name@),
{
    let e = chars_of(ecosystem);
    if chars_eq_str(&e, "npm") || chars_eq_str(&e, "pypi") {
        crate::pypi::normalize_pypi_name(name)
    } else {
        String::from_str(name)
    }
}

/// The ecosystem of a repository format name, when it is one ferry handles.
pub open spec fn format_eco(fmt: Seq<char>) -> Option<Seq<char>> {
    let t = lower_str(trim(fmt));
    if t == "npm"@ {
        Some("npm"@)
    } else if t == "go"@ || t == "golang"@ {
        Some("go"@)
    } else if t == "pypi"@ || t == "python"@ {
        Some("pypi"@)
    } else if t == "cargo"@ || t == "crates"@ || t == "crate"@ {
        Some("cargo"@)
    } else {
        None
    }
}

pub fn format_to_ecosystem(fmt: &str) -> (r: Option<&'static str>)
    ensures
        r matches Some(e) ==> format_eco(fmt@) == Some(e@),
        r is None ==> format_eco(fmt@) is None,
{
    let v = chars_of(fmt);
    let tv = trim_chars(&v);
    let t = lower_chars(&tv);
    if chars_eq_str(&t, "npm") {
        Some("npm")
    } else if chars_eq_str(&t, "go") || chars_eq_str(&t, "golang") {
        Some("go")
    } else if chars_eq_str(&t, "pypi") || chars_eq_str(&t, "python") {
        Some("pypi")
    } else if chars_eq_str(&t, "cargo") || chars_eq_str(&t, "crates") || chars_eq_str(&t, "crate") {
        Some("cargo")
    } else {
        None
    }
}

/// A catalog key: (ecosystem, normalized name, trimmed version).
pub type CatalogKey = (Seq<char>, Seq<char>, Seq<char>);

/// The key an entry adds, if any: `None` for an empty version; the ecosystem
/// must be known.
pub open spec fn entry_key(eco: Seq<char>, name: Seq<char>, version: Seq<char>) -> Option<CatalogKey> {
    match catalog_eco(eco) {
        Some(e) => {
            let v = trim(version);
            if v.len() == 0 {
                None
            } else {
                Some((e, catalog_name(e, name), v))
            }
        },
        None => None,
    }
}

/// In-memory index used to skip modules already on the server.
#[derive(Debug)]
pub struct ServerCatalog {
    /// (ecosystem, normalized_name, version), without repetitions
    keys: Vec<(String, String, String)>,
}

impl View for ServerCatalog {
    type V = Set<CatalogKey>;

    closed spec fn view(&self) -> Set<CatalogKey> {
        self.key_seq().to_set()
    }
}

impl Clone for ServerCatalog {
    fn clone(&self) -> (c: Self)
        ensures
            c@ == self@,
    {
        proof {
            use_type_invariant(self);
        }
        let mut keys: Vec<(String, String, String)> = Vec::new();
        let mut i: usize = 0;
        while i < self.keys.len()
            invariant
                i <= self.keys.len(),
                keys@.len() == i,
                forall|j: int| 0 <= j < i ==> #[trigger] keys@[j].0@ == self.keys@[j].0@ && keys@[j].1@
                    == self.keys@[j].1@ && keys@[j].2@ == self.keys@[j].2@,
            decreases self.keys.len() - i,
        {
            let k = &self.keys[i];
            let ghost before = keys@;
            keys.push((k.0.clone(), k.1.clone(), k.2.clone()));
            assert forall|j: int| 0 <= j < i + 1 implies #[trigger] keys@[j].0@ == self.keys@[j].0@ && keys@[j].1@
                == self.keys@[j].1@ && keys@[j].2@ == self.keys@[j].2@ by {
                if j < i {
                    assert(keys@[j] == before[j]);
                }
            }
            i = i + 1;
        }
        let ghost ks = keys@.map_values(|k: (String, String, String)| (k.0@, k.1@, k.2@));
        assert(ks =~= self.key_seq());
        ServerCatalog { keys }
    }
}

impl ServerCatalog {
    spec fn key_seq(&self) -> Seq<CatalogKey> {
        self.keys@.map_values(|k: (String, String, String)| (k.0@, k.1@, k.2@))
    }

    #[verifier::type_invariant]
    spec fn distinct(&self) -> bool {
        self.key_seq().no_duplicates()
    }

    /// An empty catalog.
    pub fn new() -> (c: Self)
        ensures
            c@ == Set::<CatalogKey>::empty(),
    {
        let c = ServerCatalog { keys: Vec::new() };
        assert(c.key_seq().to_set() =~= Set::<CatalogKey>::empty());
        c
    }

    /// Number of distinct keys.
    pub fn len(&self) -> (n: usize)
        ensures
            n == self@.len(),
    {
        proof {
            use_type_invariant(self);
            self.key_seq().unique_seq_to_set();
        }
        self.keys.len()
    }

    fn has_key(&self, e: &String, n: &String, v: &String) -> (b: bool)
        ensures
            b == self@.contains((e@, n@, v@)),
    {
        let ghost ks = self.key_seq();
        let mut i: usize = 0;
        while i < self.keys.len()
            invariant
                i <= self.keys.len(),
                ks == self.key_seq(),
                forall|j: int| 0 <= j < i ==> #[trigger] ks[j] != (e@, n@, v@),
            decreases self.keys.len() - i,
        {
            let k = &self.keys[i];
            assert(ks[i as int] == (k.0@, k.1@, k.2@));
            if k.0 == *e && k.1 == *n && k.2 == *v {
                assert(ks.contains((e@, n@, v@)));
                return true;
            }
            i = i + 1;
        }
        assert(!ks.contains((e@, n@, v@)));
        false
    }

    /// True when this package/module version is listed as already on the server.
    pub fn contains(&self, ecosystem: &str, name: &str, version: &str) -> (b: bool)
        ensures
            b == (entry_key(ecosystem@, name@, version@) matches Some(k) && (self@.contains(k))),
    {
        let eco = match normalize_ecosystem(ecosystem) {
            Ok(e) => e,
            Err(_) => return false,
        };
        let n = normalize_name(eco.as_str(), name);
        let vv = chars_of(version);
        let vt = trim_chars(&vv);
        if vt.len() == 0 {
            return false;
        }
        let v = string_of(&vt);
        self.has_key(&eco, &n, &v)
    }

    /// Like `contains`, but never skips when `force` is set.
    pub fn should_skip(&self, force: bool, ecosystem: &str, name: &str, version: &str) -> (b: bool)
        ensures
            b == (!force && (entry_key(ecosystem@, name@, version@) matches Some(k) && (
            self@.contains(k)))),
    {
        !force && self.contains(ecosystem, name, version)
    }

    /// Add the key of one catalog entry: its ecosystem must be known; an entry
    /// with an empty version adds nothing.
    pub fn add_entry(&mut self, entry: &CatalogEntry) -> (r: Result<(), AkError>)
        ensures
            r is Ok <==> catalog_eco(entry.ecosystem@) is Some,
            r matches Err(e) ==> e is ConfigError && e.msg() == catalog_eco_error(
                entry.ecosystem@,
            ) && final(self)@ == old(self)@,
            r is Ok ==> final(self)@ == (match entry_key(
                entry.ecosystem@,
                entry.name@,
                entry.version@,
            ) {
                Some(k) => old(self)@.insert(k),
                None => old(self)@,
            }),
    {
        let eco = match normalize_ecosystem(entry.ecosystem.as_str()) {
            Ok(e) => e,
            Err(e) => return Err(e),
        };
        let n = normalize_name(eco.as_str(), entry.name.as_str());
        let vv = chars_of(entry.version.as_str());
        let vt = trim_chars(&vv);
        if vt.len() == 0 {
            return Ok(());
        }
        let v = string_of(&vt);
        if !self.has_key(&eco, &n, &v) {
            proof {
                use_type_invariant(&*self);
            }
            let ghost old_ks = self.key_seq();
            let ghost key = (eco@, n@, v@);
            let mut ks: Vec<(String, String, String)> = Vec::new();
            std::mem::swap(&mut ks, &mut self.keys);
            ks.push((eco, n, v));
            let ghost new_ks = ks@.map_values(|k: (String, String, String)| (k.0@, k.1@, k.2@));
            assert(new_ks =~= old_ks.push(key));
            assert(new_ks.no_duplicates());
            self.keys = ks;
            assert(self.key_seq() =~= old_ks.push(key));
            assert(self.key_seq().to_set() =~= old_ks.to_set().insert(key)) by {
                broadcast use vstd::seq_lib::group_seq_properties;
            }
        } else {
            assert(self@.insert((eco@, n@, v@)) =~= self@);
        }
        Ok(())
    }
}

/// Whether a line of a catalog file carries an entry: it is not blank and
/// does not start with `#` once trimmed.
pub open spec fn is_entry_line(line: Seq<char>) -> bool {
    let t = trim(line);
    t.len() > 0 && t[0] != '#'
}

pub fn catalog_line_has_entry(line: &str) -> (b: bool)
    ensures
        b == is_entry_line(line@),
{
    let v = chars_of(line);
    let t = trim_chars(&v);
    t.len() > 0 && t[0] != '#'
}

/// The keys that a list of entries adds, in order.
pub open spec fn keys_of(es: Seq<CatalogEntry>) -> Set<CatalogKey>
    decreases es.len(),
{
    if es.len() == 0 {
        Set::empty()
    } else {
        let rest = keys_of(es.drop_last());
        let e = es.last();
        match entry_key(e.ecosystem@, e.name@, e.version@) {
            Some(k) => rest.insert(k),
            None => rest,
        }
    }
}

impl ServerCatalog {
    /// The catalog of parsed catalog entries, in file order. The first entry
    /// with an unsupported ecosystem aborts the load with its error.
    pub fn from_entries(entries: &Vec<CatalogEntry>) -> (r: Result<Self, AkError>)
        ensures
            r is Ok <==> forall|i: int| 0 <= i < entries@.len() ==> catalog_eco(#[trigger] entries@[i].ecosystem@) is Some,
            r matches Ok(c) ==> c@ == keys_of(entries@),
            r matches Err(e) ==> (exists|i: int|
                0 <= i < entries@.len() && catalog_eco(#[trigger] entries@[i].ecosystem@) is None
                    && (forall|j: int| 0 <= j < i ==> catalog_eco(#[trigger] entries@[j].ecosystem@) is Some)
                    && e is ConfigError && e.msg() == catalog_eco_error(entries@[i].ecosystem@)),
    {
        let mut cat = ServerCatalog::new();
        let mut i: usize = 0;
        while i < entries.len()
            invariant
                i <= entries.len(),
                cat@ == keys_of(entries@.take(i as int)),
                forall|j: int| 0 <= j < i ==> catalog_eco(#[trigger] entries@[j].ecosystem@) is Some,
            decreases entries.len() - i,
        {
            let ghost before = cat@;
            match cat.add_entry(&entries[i]) {
                Ok(()) => {},
                Err(e) => {
                    return Err(e);
                },
            }
            assert(entries@.take(i + 1).drop_last() =~= entries@.take(i as int));
            i = i + 1;
        }
        assert(entries@.take(i as int) =~= entries@);
        Ok(cat)
    }
}

/// Adding an entry makes the catalog report that entry's package version as
/// present, whenever its ecosystem is known and its version is not blank.
pub proof fn lemma_add_then_contains(before: Set<CatalogKey>, after: Set<CatalogKey>, eco: Seq<char>, name: Seq<char>, version: Seq<char>)
    requires
        catalog_eco(eco) is Some,
        trim(version).len() > 0,
        after == (match entry_key(eco, name, version) {
            Some(k) => before.insert(k),
            None => before,
        }),
    ensures
        entry_key(eco, name, version) matches Some(k) && after.contains(k),
{
}

proof fn lemma_plain_word(e: Seq<char>)
    requires
        e.len() > 0,
        forall|i: int| 0 <= i < e.len() ==> 'a' <= #[trigger] e[i] <= 'z',
    ensures
        trim(e) == e,
        lower_str(e) == e,
{
    assert(!crate::text::is_ws(e[0]));
    assert(trim_start(e) == e);
    assert(!crate::text::is_ws(e.last()));
    assert(crate::text::trim_end(e) == e);
    assert(lower_str(e) =~= e);
}

proof fn lemma_canonical_eco(e: Seq<char>)
    requires
        e == "npm"@ || e == "go"@ || e == "pypi"@ || e == "cargo"@,
    ensures
        catalog_eco(e) == Some(e),
{
    reveal_strlit("npm");
    reveal_strlit("go");
    reveal_strlit("golang");
    reveal_strlit("pypi");
    reveal_strlit("pip");
    reveal_strlit("python");
    reveal_strlit("cargo");
    if e == "npm"@ {
        assert(e =~= seq!['n', 'p', 'm']);
    } else if e == "go"@ {
        assert(e =~= seq!['g', 'o']);
    } else if e == "pypi"@ {
        assert(e =~= seq!['p', 'y', 'p', 'i']);
    } else {
        assert(e =~= seq!['c', 'a', 'r', 'g', 'o']);
    }
    lemma_plain_word(e);
}

proof fn lemma_folder_name_idempotent(n: Seq<char>)
    ensures
        pypi_folder_name(pypi_folder_name(n)) == pypi_folder_name(n),
{
    assert(pypi_folder_name(pypi_folder_name(n)) =~= pypi_folder_name(n));
}

/// What the export writes for a package, a loaded catalog finds again: the
/// key of the exported entry (canonical ecosystem, normalized name, trimmed
/// version) is the key a ferry lookup of that package computes, so after
/// loading the exported file the package is skipped (unless `--force`).
pub proof fn lemma_exported_entry_found(format: Seq<char>, name: Seq<char>, version: Seq<char>)
    requires
        format_eco(format) is Some,
        trim(version).len() > 0,
    ensures
        ({
            let eco = format_eco(format).unwrap();
            &&& entry_key(eco, catalog_name(eco, name), trim(version)) == entry_key(eco, name, version)
            &&& entry_key(eco, name, version) is Some
        }),
{
    let eco = format_eco(format).unwrap();
    reveal_strlit("npm");
    reveal_strlit("go");
    reveal_strlit("pypi");
    reveal_strlit("cargo");
    lemma_canonical_eco(eco);
    crate::text::lemma_trim_idempotent(version);
    lemma_folder_name_idempotent(name);
}

/// Two names the catalog normalizes alike are both present or both absent.
pub proof fn lemma_contains_normalized(cat: Set<CatalogKey>, eco: Seq<char>, n1: Seq<char>, n2: Seq<char>, version: Seq<char>)
    requires
        catalog_eco(eco) matches Some(e) && catalog_name(e, n1) == catalog_name(e, n2),
    ensures
        (entry_key(eco, n1, version) matches Some(k) && cat.contains(k)) == (entry_key(
            eco,
            n2,
            version,
        ) matches Some(k) && cat.contains(k)),
{
}

// ---------------------------------------------------------------------------
// Entries from repository artifacts
// ---------------------------------------------------------------------------

/// The trimmed text, when it is not blank.
pub open spec fn nonzero_spec(s: Seq<char>) -> Option<Seq<char>> {
    let t = trim(s);
    if t.len() == 0 {
        None
    } else {
        Some(t)
    }
}

pub fn nonzero(s: &str) -> (r: Option<String>)
    ensures
        r matches Some(t) ==> nonzero_spec(s@) == Some(t@),
        r is None ==> nonzero_spec(s@) is None,
{
    let v = chars_of(s);
    let t = trim_chars(&v);
    if t.len() == 0 {
        None
    } else {
        Some(string_of(&t))
    }
}

/// The package name of the part of an npm tarball path before `/-/`:
/// `@scope/name` when it has a scope, otherwise its last segment.
pub open spec fn npm_name_part(name_part: Seq<char>) -> Seq<char> {
    if contains(name_part, "/@"@) || contains(name_part, "@"@) {
        match rfind(name_part, "/@"@) {
            Some(idx) => name_part.skip(idx + 1),
            None => match find(name_part, "@"@) {
                Some(idx) => name_part.skip(idx),
                None => after_last_char(name_part, '/'),
            },
        }
    } else {
        after_last_char(name_part, '/')
    }
}

/// (name, version) of an npm tarball path `…/[@scope/]name/-/name-version.tgz`.
pub open spec fn npm_tarball_path(path: Seq<char>) -> Option<(Seq<char>, Seq<char>)> {
    match split_once(path, "/-/"@) {
        Some((name_part, file_part)) => match strip_suffix(file_part, ".tgz"@) {
            Some(file) => {
                let pkg = npm_name_part(name_part);
                let unscoped = after_last_char(pkg, '/');
                match strip_prefix(file, unscoped + "-"@) {
                    Some(version) => if version.len() == 0 {
                        None
                    } else {
                        Some((pkg, version))
                    },
                    None => None,
                }
            },
            None => None,
        },
        None => None,
    }
}

fn npm_name_part_chars(name_part: &Vec<char>) -> (r: Vec<char>)
    ensures
        r@ == npm_name_part(name_part@),
{
    proof {
        crate::text::lemma_rfind(name_part@, "/@"@);
        crate::text::lemma_find(name_part@, "@"@);
        reveal_strlit("/@");
        reveal_strlit("@");
    }
    let has = find_str(name_part, "/@").is_some() || find_str(name_part, "@").is_some();
    if has {
        match rfind_str(name_part, "/@") {
            Some(idx) => {
                assert(idx + 1 <= name_part.len());
                let r = slice_of(name_part, idx + 1, name_part.len());
                assert(r@ =~= name_part@.skip(idx + 1));
                r
            },
            None => match find_str(name_part, "@") {
                Some(idx) => {
                    let r = slice_of(name_part, idx, name_part.len());
                    assert(r@ =~= name_part@.skip(idx as int));
                    r
                },
                None => after_last_char_chars(name_part, '/'),
            },
        }
    } else {
        after_last_char_chars(name_part, '/')
    }
}

pub fn parse_npm_tarball_path(path: &str) -> (r: Option<(String, String)>)
    ensures
        r matches Some((n, v)) ==> npm_tarball_path(path@) == Some((n@, v@)),
        r is None ==> npm_tarball_path(path@) is None,
{
    let p = chars_of(path);
    let (name_part, file_part) = match split_once_str(&p, "/-/") {
        Some(x) => x,
        None => return None,
    };
    let file = match strip_suffix_str(&file_part, ".tgz") {
        Some(f) => f,
        None => return None,
    };
    let pkg = npm_name_part_chars(&name_part);
    let mut unscoped = after_last_char_chars(&pkg, '/');
    append_str(&mut unscoped, "-");
    if !starts_with_chars(&file, &unscoped) {
        return None;
    }
    let version = slice_of(&file, unscoped.len(), file.len());
    assert(version@ =~= file@.skip(unscoped@.len() as int));
    if version.len() == 0 {
        return None;
    }
    Some((string_of(&pkg), string_of(&version)))
}

/// What a repository artifact tells about itself.
#[derive(Debug, Clone)]
pub struct ArtifactInfo {
    pub repository_key: String,
    pub path: String,
    pub name: String,
    pub version: Option<String>,
    pub checksum_sha256: String,
}

/// The Go module version of a proxy-layout path `…/<module>/@v/<version>.zip|.mod|.info`.
pub open spec fn go_identity(path: Seq<char>) -> Option<(Seq<char>, Seq<char>)> {
    match rsplit_once(path, "/@v/"@) {
        Some((module_part, file)) => {
            let ver = match strip_suffix(file, ".zip"@) {
                Some(v) => Some(v),
                None => match strip_suffix(file, ".mod"@) {
                    Some(v) => Some(v),
                    None => strip_suffix(file, ".info"@),
                },
            };
            match ver {
                Some(version) => {
                    let module_encoded = match find(path, "/@v/"@) {
                        Some(idx) => {
                            let raw = path.take(idx);
                            trim_start_char(
                                match strip_prefix(raw, "download/"@) {
                                    Some(r) => r,
                                    None => raw,
                                },
                                '/',
                            )
                        },
                        None => after_last_char(module_part, '/'),
                    };
                    if module_encoded.len() > 0 && version.len() > 0 {
                        Some((decode_path(module_encoded), version))
                    } else {
                        None
                    }
                },
                None => None,
            }
        },
        None => None,
    }
}

/// Best-effort (ecosystem, name, version) of a repository artifact: Go proxy
/// paths, npm tarballs (or the API name and version for a `.tgz`), PyPI
/// wheels and sdists, Cargo `.crate` files; nothing for anything else.
pub open spec fn artifact_identity(path0: Seq<char>, name: Seq<char>, version: Option<Seq<char>>) -> Option<(Seq<char>, Seq<char>, Seq<char>)> {
    let path = replace_char(path0, '\\', "/"@);
    match go_identity(path) {
        Some((n, v)) => Some(("go"@, n, v)),
        None => {
            let npm = if ends_with(path, ".tgz"@) {
                match npm_tarball_path(path) {
                    Some((n, v)) => Some(("npm"@, n, v)),
                    None => match (nonzero_spec(name), version) {
                        (Some(n), Some(v)) => Some(("npm"@, n, v)),
                        _ => None,
                    },
                }
            } else {
                None
            };
            match npm {
                Some(x) => Some(x),
                None => {
                    let fname = after_last_char(path, '/');
                    let py = if ends_with(path, ".whl"@) || ends_with(path, ".tar.gz"@) || ends_with(
                        path,
                        ".zip"@,
                    ) {
                        match dist_filename(fname) {
                            Some((n, v)) => Some(("pypi"@, n, v)),
                            None => None,
                        }
                    } else {
                        None
                    };
                    match py {
                        Some(x) => Some(x),
                        None => if ends_with(path, ".crate"@) {
                            match crate_filename(fname) {
                                Some((n, v)) => Some(("cargo"@, n, v)),
                                None => None,
                            }
                        } else {
                            None
                        },
                    }
                },
            }
        },
    }
}

/// A PyPI distribution (`.whl`, `.tar.gz` or `.zip`) outside a Go proxy
/// layout is identified as its file name reads: the catalog and the PyPI
/// file-name parser agree on every file name the parser accepts.
pub proof fn lemma_artifact_identity_pypi(
    path0: Seq<char>,
    name: Seq<char>,
    version: Option<Seq<char>>,
    n: Seq<char>,
    v: Seq<char>,
)
    requires
        !crate::text::contains(replace_char(path0, '\\', "/"@), "/@v/"@),
        ends_with(replace_char(path0, '\\', "/"@), ".whl"@) || ends_with(replace_char(path0, '\\', "/"@), ".tar.gz"@)
            || ends_with(replace_char(path0, '\\', "/"@), ".zip"@),
        dist_filename(after_last_char(replace_char(path0, '\\', "/"@), '/')) == Some((n, v)),
    ensures
        artifact_identity(path0, name, version) == Some(("pypi"@, n, v)),
{
    reveal_strlit(".whl");
    reveal_strlit(".tar.gz");
    reveal_strlit(".zip");
    reveal_strlit(".tgz");
    let p = replace_char(path0, '\\', "/"@);
    crate::text::lemma_find(p, "/@v/"@);
    crate::text::lemma_rfind(p, "/@v/"@);
    assert(go_identity(p) is None);
    assert(!ends_with(p, ".tgz"@)) by {
        if ends_with(p, ".tgz"@) {
            let l = p.len() as int;
            assert(p.skip(l - 4)[0] == p[l - 4]);
            assert(p.skip(l - 4)[3] == p[l - 1]);
            if ends_with(p, ".whl"@) {
                assert(p.skip(l - 4)[3] == p[l - 1]);
            } else if ends_with(p, ".tar.gz"@) {
                assert(p.skip(l - 7)[3] == p[l - 4]);
            } else {
                assert(p.skip(l - 4)[3] == p[l - 1]);
            }
        }
    }
}

fn go_identity_chars(path: &Vec<char>) -> (r: Option<(String, String)>)
    ensures
        r matches Some((n, v)) ==> go_identity(path@) == Some((n@, v@)),
        r is None ==> go_identity(path@) is None,
{
    let (module_part, file) = match rsplit_once_str(path, "/@v/") {
        Some(x) => x,
        None => return None,
    };
    let version = match strip_suffix_str(&file, ".zip") {
        Some(v) => v,
        None => match strip_suffix_str(&file, ".mod") {
            Some(v) => v,
            None => match strip_suffix_str(&file, ".info") {
                Some(v) => v,
                None => return None,
            },
        },
    };
    proof {
        crate::text::lemma_find(path@, "/@v/"@);
    }
    let module_encoded = match find_str(path, "/@v/") {
        Some(idx) => {
            let raw = slice_of(path, 0, idx);
            let stripped = match strip_prefix_str(&raw, "download/") {
                Some(r) => r,
                None => raw,
            };
            trim_start_char_chars(&stripped, '/')
        },
        None => after_last_char_chars(&module_part, '/'),
    };
    if module_encoded.len() > 0 && version.len() > 0 {
        let me = string_of(&module_encoded);
        let name = decode_go_path(me.as_str());
        Some((name, string_of(&version)))
    } else {
        None
    }
}

/// Best-effort map of an artifact path (and the name and version the API
/// reports) to (ecosystem, name, version).
pub fn parse_artifact_identity(a: &ArtifactInfo) -> (r: Option<(&'static str, String, String)>)
    ensures
        r matches Some((e, n, v)) ==> artifact_identity(
            a.path@,
            a.name@,
            crate::manifest::opt_view(a.version),
        ) == Some((e@, n@, v@)),
        r is None ==> artifact_identity(a.path@, a.name@, crate::manifest::opt_view(a.version))
            is None,
{
    let p0 = chars_of(a.path.as_str());
    let path = replace_char_chars(&p0, '\\', "/");
    match go_identity_chars(&path) {
        Some((n, v)) => return Some(("go", n, v)),
        None => {},
    }
    let ps = string_of(&path);
    if ends_with_str(&path, ".tgz") {
        match parse_npm_tarball_path(ps.as_str()) {
            Some((n, v)) => return Some(("npm", n, v)),
            None => {},
        }
        match (nonzero(a.name.as_str()), &a.version) {
            (Some(n), Some(v)) => return Some(("npm", n, v.clone())),
            _ => {},
        }
    }
    let fv = after_last_char_chars(&path, '/');
    let fname = string_of(&fv);
    if ends_with_str(&path, ".whl") || ends_with_str(&path, ".tar.gz") || ends_with_str(&path, ".zip") {
        match parse_dist_filename(fname.as_str()) {
            Some((n, v)) => return Some(("pypi", n, v)),
            None => {},
        }
    }
    if ends_with_str(&path, ".crate") {
        match parse_crate_filename(fname.as_str()) {
            Some((n, v)) => return Some(("cargo", n, v)),
            None => {},
        }
    }
    None
}

/// Whether `list` holds `eco`.
fn lists(list: &Vec<String>, eco: &str) -> (b: bool)
    ensures
        b == exists|i: int| 0 <= i < list@.len() && #[trigger] list@[i]@ == eco@,
{
    let e = chars_of(eco);
    let mut i: usize = 0;
    while i < list.len()
        invariant
            i <= list.len(),
            e@ == eco@,
            forall|j: int| 0 <= j < i ==> #[trigger] list@[j]@ != eco@,
        decreases list.len() - i,
    {
        if chars_eq_str(&e, list[i].as_str()) {
            assert(list@[i as int]@ == eco@);
            return true;
        }
        i = i + 1;
    }
    false
}

/// Whether `allow` (when given) lists `eco`.
fn allowed(allow: Option<&Vec<String>>, eco: &str) -> (b: bool)
    ensures
        b == (match allow {
            Some(list) => exists|i: int| 0 <= i < list@.len() && #[trigger] list@[i]@ == eco@,
            None => true,
        }),
{
    match allow {
        None => true,
        Some(list) => lists(list, eco),
    }
}

/// The catalog entry of a repository artifact whose identity is known and
/// whose ecosystem is allowed (every ecosystem when `allow` is `None`).
pub fn entry_from_artifact(a: &ArtifactInfo, allow: Option<&Vec<String>>) -> (r: Option<CatalogEntry>)
    ensures
        r matches Some(e) ==> (artifact_identity(
            a.path@,
            a.name@,
            crate::manifest::opt_view(a.version),
        ) matches Some((eco, n, v)) && (e.ecosystem@ == eco && e.name@ == catalog_name(eco, n)
            && e.version@ == v && e.repository_key == Some(a.repository_key) && e.path == Some(
            a.path,
        ) && e.sha256 == Some(a.checksum_sha256) && e.source is Some && e.source.unwrap()@
            == "artifacts"@ && (match allow {
            Some(list) => exists|i: int| 0 <= i < list@.len() && #[trigger] list@[i]@ == eco,
            None => true,
        }))),
        r is None ==> (artifact_identity(a.path@, a.name@, crate::manifest::opt_view(a.version))
            matches Some((eco, _, _)) ==> !(match allow {
            Some(list) => exists|i: int| 0 <= i < list@.len() && #[trigger] list@[i]@ == eco,
            None => true,
        })),
{
    match parse_artifact_identity(a) {
        Some((eco, name, version)) => {
            if !allowed(allow, eco) {
                return None;
            }
            let n = normalize_name(eco, name.as_str());
            Some(CatalogEntry {
                ecosystem: String::from_str(eco),
                name: n,
                version,
                repository_key: Some(a.repository_key.clone()),
                path: Some(a.path.clone()),
                sha256: Some(a.checksum_sha256.clone()),
                source: Some(String::from_str("artifacts")),
            })
        },
        None => None,
    }
}

} // verus!

verus! {

// ---------------------------------------------------------------------------
// Export of the server inventory
// ---------------------------------------------------------------------------

/// The `(ecosystem, name, version)` triple of an entry.
pub open spec fn triple(e: CatalogEntry) -> CatalogKey {
    (e.ecosystem@, e.name@, e.version@)
}

/// Whether no two entries share a triple.
pub open spec fn triples_distinct(es: Seq<CatalogEntry>) -> bool {
    forall|i: int, j: int| 0 <= i < j < es.len() ==> triple(#[trigger] es[i]) != triple(#[trigger] es[j])
}

/// Append `entry` unless an entry with the same triple is already listed;
/// tells whether it was appended.
pub fn push_unique(entries: &mut Vec<CatalogEntry>, entry: CatalogEntry) -> (added: bool)
    ensures
        added == !(exists|i: int| 0 <= i < old(entries)@.len() && triple(#[trigger] old(entries)@[i]) == triple(entry)),
        added ==> final(entries)@ == old(entries)@.push(entry),
        !added ==> final(entries)@ == old(entries)@,
{
    let mut i: usize = 0;
    while i < entries.len()
        invariant
            i <= entries.len(),
            forall|j: int| 0 <= j < i ==> triple(#[trigger] entries@[j]) != triple(entry),
        decreases entries.len() - i,
    {
        let e = &entries[i];
        if e.ecosystem == entry.ecosystem && e.name == entry.name && e.version == entry.version {
            assert(triple(entries@[i as int]) == triple(entry));
            return false;
        }
        i = i + 1;
    }
    entries.push(entry);
    true
}

/// Appending through `push_unique` keeps the triples of the export distinct.
pub proof fn lemma_push_unique_keeps_distinct(before: Seq<CatalogEntry>, after: Seq<CatalogEntry>, entry: CatalogEntry, added: bool)
    requires
        triples_distinct(before),
        added == !(exists|i: int| 0 <= i < before.len() && triple(#[trigger] before[i]) == triple(entry)),
        added ==> after == before.push(entry),
        !added ==> after == before,
    ensures
        triples_distinct(after),
        after.len() <= before.len() + 1,
{
    if added {
        assert forall|i: int, j: int| 0 <= i < j < after.len() implies triple(#[trigger] after[i]) != triple(#[trigger] after[j]) by {
            if j == before.len() {
                assert(after[i] == before[i]);
            } else {
                assert(after[i] == before[i] && after[j] == before[j]);
            }
        }
    }
}

/// The entries an export keeps, in listing order: each (ecosystem, name,
/// version) at its first occurrence.
pub open spec fn first_occurrences(es: Seq<CatalogEntry>) -> Seq<CatalogEntry>
    decreases es.len(),
{
    if es.len() == 0 {
        Seq::empty()
    } else {
        let r = first_occurrences(es.drop_last());
        if exists|i: int| 0 <= i < r.len() && triple(#[trigger] r[i]) == triple(es.last()) {
            r
        } else {
            r.push(es.last())
        }
    }
}

/// The entries of an export, from everything listed over its pages in order:
/// each triple once, at its first occurrence (the header then counts these).
pub fn export_entries(listed: Vec<CatalogEntry>) -> (r: Vec<CatalogEntry>)
    ensures
        r@ == first_occurrences(listed@),
        triples_distinct(r@),
{
    let mut out: Vec<CatalogEntry> = Vec::new();
    let mut i: usize = 0;
    let n = listed.len();
    let ghost all = listed@;
    let mut rest = listed;
    while i < n
        invariant
            n == all.len(),
            i <= all.len(),
            rest@ == all.skip(i as int),
            out@ == first_occurrences(all.take(i as int)),
            triples_distinct(out@),
        decreases all.len() - i,
    {
        let e = rest.remove(0);
        assert(e == all[i as int]);
        assert(rest@ =~= all.skip(i + 1));
        assert(all.take(i + 1).drop_last() =~= all.take(i as int));
        let ghost before = out@;
        let added = push_unique(&mut out, e);
        proof {
            lemma_push_unique_keeps_distinct(before, out@, all[i as int], added);
        }
        i = i + 1;
    }
    assert(all.take(all.len() as int) =~= all);
    out
}

/// Whether `list` holds `e`.
pub open spec fn holds(list: Seq<String>, e: Seq<char>) -> bool {
    exists|i: int| 0 <= i < list.len() && #[trigger] list[i]@ == e
}

/// Whether one of the first `n` format filters names ecosystem `e`.
pub open spec fn filters_name(formats: Seq<String>, n: int, e: Seq<char>) -> bool {
    exists|j: int| 0 <= j < n && catalog_eco(#[trigger] formats[j]@) == Some(e)
}

/// The ecosystems a list of `--format` filters allows, without repetition;
/// `None` (everything allowed) for an empty list.
pub fn allow_from_formats(formats: &Vec<String>) -> (r: Result<Option<Vec<String>>, AkError>)
    ensures
        r is Ok <==> forall|i: int| 0 <= i < formats@.len() ==> catalog_eco(#[trigger] formats@[i]@) is Some,
        formats@.len() == 0 ==> r == Ok::<Option<Vec<String>>, AkError>(None),
        r matches Ok(Some(list)) ==> formats@.len() > 0 && (forall|e: Seq<char>| #[trigger] holds(list@, e) <==> filters_name(formats@, formats@.len() as int, e))
            && (forall|i: int, j: int| 0 <= i < j < list@.len() ==> #[trigger] list@[i]@ != #[trigger] list@[j]@),
        r matches Err(e) ==> (exists|i: int|
            0 <= i < formats@.len() && catalog_eco(#[trigger] formats@[i]@) is None && (forall|j: int|
                0 <= j < i ==> catalog_eco(#[trigger] formats@[j]@) is Some) && e is ConfigError && e.msg()
                == catalog_eco_error(formats@[i]@)),
{
    if formats.len() == 0 {
        return Ok(None);
    }
    let mut list: Vec<String> = Vec::new();
    let mut i: usize = 0;
    while i < formats.len()
        invariant
            i <= formats.len(),
            forall|j: int| 0 <= j < i ==> catalog_eco(#[trigger] formats@[j]@) is Some,
            forall|e: Seq<char>| #[trigger] holds(list@, e) <==> filters_name(formats@, i as int, e),
            forall|a: int, b: int| 0 <= a < b < list@.len() ==> #[trigger] list@[a]@ != #[trigger] list@[b]@,
        decreases formats.len() - i,
    {
        let eco = match normalize_ecosystem(formats[i].as_str()) {
            Ok(e) => e,
            Err(e) => {
                return Err(e);
            },
        };
        let ghost old_list = list@;
        let present = lists(&list, eco.as_str());
        if !present {
            list.push(eco);
            assert forall|a: int, b: int| 0 <= a < b < list@.len() implies #[trigger] list@[a]@ != #[trigger] list@[b]@ by {
                if b == old_list.len() {
                    assert(list@[a] == old_list[a]);
                    assert(holds(old_list, old_list[a]@));
                }
            }
        }
        assert forall|e: Seq<char>| #[trigger] holds(list@, e) <==> filters_name(formats@, i + 1, e) by {
            if holds(list@, e) {
                let k = choose|k: int| 0 <= k < list@.len() && #[trigger] list@[k]@ == e;
                if k < old_list.len() {
                    assert(list@[k] == old_list[k]);
                    assert(holds(old_list, e));
                    let j = choose|j: int| 0 <= j < i && catalog_eco(#[trigger] formats@[j]@) == Some(e);
                    assert(0 <= j < i + 1 && catalog_eco(formats@[j]@) == Some(e));
                } else {
                    assert(catalog_eco(formats@[i as int]@) == Some(e));
                }
            }
            if filters_name(formats@, i + 1, e) {
                let j = choose|j: int| 0 <= j < i + 1 && catalog_eco(#[trigger] formats@[j]@) == Some(e);
                if j < i {
                    assert(filters_name(formats@, i as int, e));
                    assert(holds(old_list, e));
                    let k = choose|k: int| 0 <= k < old_list.len() && #[trigger] old_list[k]@ == e;
                    assert(list@[k] == old_list[k]);
                } else if present {
                    assert(holds(old_list, eco@));
                    let k = choose|k: int| 0 <= k < old_list.len() && #[trigger] old_list[k]@ == eco@;
                    assert(list@[k] == old_list[k]);
                } else {
                    assert(list@[old_list.len() as int]@ == e);
                }
            }
        }
        i = i + 1;
    }
    Ok(Some(list))
}

/// The catalog entry of a package listed by the server, when its format is
/// one ferry handles, the filter allows it and its version is not blank.
pub fn entry_from_package(
    format: &str,
    name: &str,
    version: &str,
    repository_key: &str,
    allow: Option<&Vec<String>>,
) -> (r: Option<CatalogEntry>)
    ensures
        r is Some <==> (format_eco(format@) matches Some(eco) && ((match allow {
            Some(list) => exists|i: int| 0 <= i < list@.len() && #[trigger] list@[i]@ == eco,
            None => true,
        }) && trim(version@).len() > 0)),
        r matches Some(e) ==> (format_eco(format@) matches Some(eco) && (e.ecosystem@ == eco
            && e.name@ == catalog_name(eco, name@) && e.version@ == trim(version@)
            && e.repository_key is Some && e.repository_key.unwrap()@ == repository_key@
            && e.path is None && e.sha256 is None && e.source is Some && e.source.unwrap()@
            == "packages"@)),
{
    let eco = match format_to_ecosystem(format) {
        Some(e) => e,
        None => return None,
    };
    if !allowed(allow, eco) {
        return None;
    }
    let n = normalize_name(eco, name);
    let vv = chars_of(version);
    let vt = trim_chars(&vv);
    if vt.len() == 0 {
        return None;
    }
    Some(CatalogEntry {
        ecosystem: String::from_str(eco),
        name: n,
        version: string_of(&vt),
        repository_key: Some(String::from_str(repository_key)),
        path: None,
        sha256: None,
        source: Some(String::from_str("packages")),
    })
}

/// The page to fetch after `page`, or `None` when `page` was the last.
pub fn next_page(page: i32, total_pages: i32) -> (r: Option<i32>)
    ensures
        r is None <==> (total_pages == 0 || page >= total_pages),
        r matches Some(p) ==> p == page + 1,
{
    if total_pages == 0 || page >= total_pages {
        None
    } else {
        Some(page + 1)
    }
}

/// The first line of an exported catalog file.
pub open spec fn catalog_header_spec(repo: Seq<char>, n: nat, exported_at: Seq<char>) -> Seq<char> {
    "# ak-catalog v1 repo="@ + repo + " entries="@ + crate::text::dec(n) + " exported_at="@ + exported_at
}

pub fn catalog_header(repo: &str, n: usize, exported_at: &str) -> (r: String)
    ensures
        r@ == catalog_header_spec(repo@, n as nat, exported_at@),
{
    let mut v = chars_of("# ak-catalog v1 repo=");
    append_str(&mut v, repo);
    append_str(&mut v, " entries=");
    let d = crate::text::dec_chars(n);
    append_chars(&mut v, &d);
    append_str(&mut v, " exported_at=");
    append_str(&mut v, exported_at);
    string_of(&v)
}


/// The header line of an exported catalog is a comment: loading the file
/// reads no entry from it.
pub proof fn lemma_header_not_entry(repo: Seq<char>, n: nat, exported_at: Seq<char>)
    ensures
        !is_entry_line(catalog_header_spec(repo, n, exported_at)),
{
    let h = catalog_header_spec(repo, n, exported_at);
    reveal_strlit("# ak-catalog v1 repo=");
    assert(h[0] == '#');
    crate::text::lemma_trim_keeps_first(h);
}

} // verus!
