//! A ferry directory tree (`ak download --no-archive`): which of its manifest
//! files are uploaded, and the artifact paths the server stores them under.
use vstd::prelude::*;
use std::path::PathBuf;

use crate::ecosystem::Ecosystem;
use crate::errors::AkError;
use crate::manifest::{FileEntry, ModuleEntry, MANIFEST_JSON, MANIFEST_JSONL};
use crate::runs::{dashed, lemma_dashed_runs, runs_by};
use crate::text::{
    strs,
    append_chars, append_str, chars_eq_str, chars_of, contains, ends_with, ends_with_str,
    find_str, is_alnum, is_upper, join, join_chars, keep_nonempty, lemma_find, lemma_split_char_len,
    lower, lower_chars, lower_str, nonempty_pieces, replace_char, replace_char_chars, split_char,
    split_char_chars, string_of, views,
};

verus! {

/// One package file to upload, and the artifact path it goes to.
#[derive(Debug, Clone)]
pub struct FerryUploadItem {
    pub local_path: PathBuf,
    pub artifact_path: String,
}

/// What pushing a ferry directory uploads.
#[derive(Debug, Clone)]
pub struct FerryPushPlan {
    pub ecosystem: String,
    /// When set, upload via the Go module-proxy protocol from this cache tree.
    pub go_download_root: Option<PathBuf>,
    pub items: Vec<FerryUploadItem>,
}

impl FerryPushPlan {
    /// The plan of a Go ferry directory: the module cache tree at `root` is
    /// pushed through the module-proxy protocol.
    pub fn for_go(root: PathBuf) -> (p: Self)
        ensures
            p.ecosystem@ == "go"@,
            p.go_download_root == Some(root),
            p.items@.len() == 0,
    {
        FerryPushPlan { ecosystem: String::from_str("go"), go_download_root: Some(root), items: Vec::new() }
    }

    /// The plan of an npm, PyPI or Cargo ferry directory; it is an error when
    /// no package file of the manifest is on disk.
    pub fn for_packages(ecosystem: String, items: Vec<FerryUploadItem>, dir_display: &str) -> (r: Result<Self, AkError>)
        ensures
            items@.len() == 0 <==> r is Err,
            r matches Err(e) ==> e is ConfigError && e.msg() == "Ferry dir "@ + dir_display@
                + " has no uploadable package files in the manifest"@,
            r matches Ok(p) ==> p.ecosystem == ecosystem && p.go_download_root is None && p.items == items,
    {
        if items.len() == 0 {
            let mut m = chars_of("Ferry dir ");
            append_str(&mut m, dir_display);
            append_str(&mut m, " has no uploadable package files in the manifest");
            return Err(AkError::ConfigError(string_of(&m)));
        }
        Ok(FerryPushPlan { ecosystem, go_download_root: None, items })
    }
}

// ---------------------------------------------------------------------------
// Artifact path formulas
// ---------------------------------------------------------------------------

/// `name`, with `suffix` appended unless it already ends with it.
pub open spec fn with_suffix(name: Seq<char>, suffix: Seq<char>) -> Seq<char> {
    if ends_with(name, suffix) {
        name
    } else {
        name + suffix
    }
}

pub fn ensure_suffix(name: &str, suffix: &str) -> (r: String)
    ensures
        r@ == with_suffix(name@, suffix@),
{
    let v = chars_of(name);
    if ends_with_str(&v, suffix) {
        String::from_str(name)
    } else {
        let mut w = v;
        append_str(&mut w, suffix);
        string_of(&w)
    }
}

/// `{name}/{version}/{filename}.tgz`, the path under which the server stores
/// an npm module.
pub open spec fn npm_path(name: Seq<char>, version: Seq<char>, filename: Seq<char>) -> Seq<char> {
    name + "/"@ + version + "/"@ + with_suffix(filename, ".tgz"@)
}

pub fn npm_artifact_path(name: &str, version: &str, filename: &str) -> (r: String)
    ensures
        r@ == npm_path(name@, version@, filename@),
{
    let f = ensure_suffix(filename, ".tgz");
    let mut v = chars_of(name);
    append_str(&mut v, "/");
    append_str(&mut v, version);
    append_str(&mut v, "/");
    append_str(&mut v, f.as_str());
    string_of(&v)
}

/// The pieces of `s` between runs of characters that are not ASCII letters
/// or digits.
pub open spec fn alnum_runs(s: Seq<char>) -> Seq<Seq<char>>
    decreases s.len(),
{
    if s.len() == 0 {
        seq![Seq::empty()]
    } else {
        let r = alnum_runs(s.drop_last());
        if !is_alnum(s.last()) {
            r.push(Seq::empty())
        } else {
            r.update(r.len() - 1, r.last().push(s.last()))
        }
    }
}

proof fn lemma_alnum_runs_len(s: Seq<char>)
    ensures
        alnum_runs(s).len() >= 1,
    decreases s.len(),
{
    if s.len() > 0 {
        lemma_alnum_runs_len(s.drop_last());
    }
}

proof fn lemma_alnum_runs_by(s: Seq<char>)
    ensures
        alnum_runs(s) == runs_by(s, |c: char| is_alnum(c)),
    decreases s.len(),
{
    if s.len() > 0 {
        lemma_alnum_runs_by(s.drop_last());
    }
}

/// PEP 503 name: ASCII letters lower-cased, digits kept, every run of other
/// characters turned into one `-`, and no `-` at either end.
pub open spec fn pep503(name: Seq<char>) -> Seq<char> {
    join(nonempty_pieces(alnum_runs(lower_str(name))), "-"@)
}

/// A PEP 503 name holds only lower-case ASCII letters, digits and dashes,
/// never starts or ends with `-` nor has two dashes in a row; and
/// normalizing it again changes nothing.
pub proof fn lemma_pep503_shape(name: Seq<char>)
    ensures
        dashed(pep503(name), |c: char| is_alnum(c) && !is_upper(c)),
        pep503(pep503(name)) == pep503(name),
{
    let p = |c: char| is_alnum(c);
    lemma_alnum_runs_by(lower_str(name));
    lemma_dashed_runs(name, p);
    let t = pep503(name);
    lemma_alnum_runs_by(lower_str(t));
    assert forall|i: int| 0 <= i < t.len() implies (#[trigger] t[i] == '-' || (|c: char| is_alnum(c) && !is_upper(c))(t[i])) by {
        assert(t[i] == '-' || (|c: char| p(c) && !is_upper(c))(t[i]));
    }
}

/// A PEP 503 separator: `-`, `_` or `.`.
pub open spec fn is_name_sep(c: char) -> bool {
    c == '-' || c == '_' || c == '.'
}

/// A valid PyPI project name: ASCII letters, digits, `-`, `_` and `.`,
/// starting and ending with a letter or digit.
pub open spec fn valid_project_name(s: Seq<char>) -> bool {
    &&& s.len() > 0
    &&& is_alnum(s[0])
    &&& is_alnum(s.last())
    &&& forall|i: int| 0 <= i < s.len() ==> is_alnum(#[trigger] s[i]) || is_name_sep(s[i])
}

/// The name lower-cased, with every maximal run of `-`, `_` and `.`
/// replaced by one `-` (PEP 503, `re.sub(r"[-_.]+", "-", name).lower()`).
pub open spec fn collapse_seps(s: Seq<char>) -> Seq<char>
    decreases s.len(),
{
    if s.len() == 0 {
        s
    } else {
        let r = collapse_seps(s.drop_last());
        let c = s.last();
        if !is_name_sep(c) {
            r.push(lower(c))
        } else if s.len() >= 2 && is_name_sep(s[s.len() - 2]) {
            r
        } else {
            r.push('-')
        }
    }
}

proof fn lemma_lower_alnum(c: char)
    ensures
        is_alnum(c) ==> is_alnum(lower(c)),
        is_name_sep(c) ==> lower(c) == c && !is_alnum(c),
{
    if is_upper(c) {
        assert((c as u32) + 32 < 0xD800);
    }
}

/// The prefix invariant: for a non-empty prefix that starts with a letter or
/// digit and holds only name characters, collapsing equals PEP 503 with a
/// trailing `-` when the prefix ends in a separator, and PEP 503 is not empty.
proof fn lemma_pep503_prefix(x: Seq<char>)
    requires
        x.len() > 0,
        is_alnum(x[0]),
        forall|i: int| 0 <= i < x.len() ==> is_alnum(#[trigger] x[i]) || is_name_sep(x[i]),
    ensures
        pep503(x).len() > 0,
        collapse_seps(x) == (if is_name_sep(x.last()) { pep503(x).push('-') } else { pep503(x) }),
        nonempty_pieces(alnum_runs(lower_str(x))).len() > 0,
        (alnum_runs(lower_str(x)).last().len() == 0) == is_name_sep(x.last()),
    decreases x.len(),
{
    reveal_strlit("-");
    let c = x.last();
    lemma_lower_alnum(c);
    let l = lower_str(x);
    let r = alnum_runs(l);
    assert(l.last() == lower(c));
    assert(l.drop_last() =~= lower_str(x.drop_last()));
    if x.len() == 1 {
        let e = Seq::<char>::empty();
        assert(l.drop_last() =~= e);
        assert(alnum_runs(e) =~= seq![e]);
        assert(r =~= seq![seq![lower(c)]]);
        assert(nonempty_pieces(Seq::<Seq<char>>::empty()) =~= Seq::<Seq<char>>::empty());
        assert(nonempty_pieces(r) =~= seq![seq![lower(c)]]) by {
            assert(r.drop_last() =~= Seq::<Seq<char>>::empty());
            assert(r.last().len() == 1);
        }
        assert(collapse_seps(x) =~= seq![lower(c)]) by {
            assert(x.drop_last() =~= e);
            assert(collapse_seps(e) =~= e);
            assert(c == x[0]);
            assert(!is_name_sep(c));
        }
    } else {
        let x0 = x.drop_last();
        assert forall|i: int| 0 <= i < x0.len() implies is_alnum(#[trigger] x0[i]) || is_name_sep(x0[i]) by {
            assert(x0[i] == x[i]);
        }
        assert(x0[0] == x[0]);
        lemma_pep503_prefix(x0);
        assert(x[x.len() - 2] == x0.last());
        assert(is_alnum(c) || is_name_sep(c));
        let r0 = alnum_runs(lower_str(x0));
        let p0 = nonempty_pieces(r0);
        lemma_alnum_runs_len(lower_str(x0));
        if is_name_sep(c) {
            assert(r == r0.push(Seq::empty()));
            assert(r.drop_last() =~= r0);
            assert(nonempty_pieces(r) == p0);
        } else {
            let lc = lower(c);
            assert(r == r0.update(r0.len() - 1, r0.last().push(lc)));
            assert(r.drop_last() =~= r0.drop_last());
            if is_name_sep(x0.last()) {
                assert(r0.last().len() == 0);
                assert(r.last() =~= seq![lc]);
                assert(nonempty_pieces(r0) == nonempty_pieces(r0.drop_last()));
                assert(nonempty_pieces(r) == p0.push(seq![lc]));
                assert(p0.push(seq![lc]).drop_last() =~= p0);
                assert(join(p0.push(seq![lc]), "-"@) == join(p0, "-"@) + "-"@ + seq![lc]);
                assert(join(p0, "-"@) + "-"@ + seq![lc] =~= pep503(x0).push('-').push(lc));
            } else {
                assert(r0.last().len() > 0);
                assert(p0 == nonempty_pieces(r0.drop_last()).push(r0.last()));
                let pn = nonempty_pieces(r0.drop_last()).push(r0.last().push(lc));
                assert(nonempty_pieces(r) == pn);
                assert(pn =~= p0.update(p0.len() - 1, p0.last().push(lc)));
                if p0.len() == 1 {
                    assert(join(pn, "-"@) == pn[0]);
                    assert(join(p0, "-"@) == p0[0]);
                } else {
                    assert(pn.drop_last() =~= p0.drop_last());
                }
                assert(join(pn, "-"@) =~= join(p0, "-"@).push(lc));
            }
        }
    }
}

/// For a valid project name, the PEP 503 form is the name lower-cased with
/// each maximal run of `-`, `_` and `.` replaced by a single `-`.
pub proof fn lemma_pep503_valid_name(name: Seq<char>)
    requires
        valid_project_name(name),
    ensures
        pep503(name) == collapse_seps(name),
{
    lemma_pep503_prefix(name);
    lemma_lower_alnum(name.last());
}

fn alnum_runs_chars(v: &Vec<char>) -> (r: Vec<Vec<char>>)
    ensures
        views(r@) == alnum_runs(v@),
{
    let mut parts: Vec<Vec<char>> = Vec::new();
    let mut cur: Vec<char> = Vec::new();
    let mut i: usize = 0;
    assert(v@.take(0) =~= Seq::<char>::empty());
    assert(views(parts@).push(cur@) =~= alnum_runs(v@.take(0)));
    while i < v.len()
        invariant
            i <= v.len(),
            views(parts@).push(cur@) == alnum_runs(v@.take(i as int)),
        decreases v.len() - i,
    {
        let ghost before = v@.take(i as int);
        assert(v@.take(i + 1).drop_last() =~= before);
        proof {
            lemma_alnum_runs_len(before);
        }
        let c = v[i];
        let keep = ('a' <= c && c <= 'z') || ('A' <= c && c <= 'Z') || ('0' <= c && c <= '9');
        if !keep {
            let done = cur;
            parts.push(done);
            cur = Vec::new();
            assert(views(parts@).push(cur@) =~= alnum_runs(before).push(Seq::empty()));
        } else {
            cur.push(c);
            let ghost r = alnum_runs(before);
            assert(views(parts@).push(cur@) =~= r.update(r.len() - 1, r.last().push(c)));
        }
        i = i + 1;
    }
    assert(v@.take(v.len() as int) =~= v@);
    let ghost old_parts = views(parts@);
    parts.push(cur);
    assert(views(parts@) =~= old_parts.push(cur@));
    parts
}

/// PEP 503 normalization of a PyPI project name.
pub fn normalize_pypi_name(name: &str) -> (r: String)
    ensures
        r@ == pep503(name@),
{
    let v = chars_of(name);
    let low = lower_chars(&v);
    let runs = alnum_runs_chars(&low);
    let kept = keep_nonempty(&runs);
    let out = join_chars(&kept, "-");
    string_of(&out)
}

/// `{pep503 name}/{version}/{filename}`, the path of a PyPI distribution.
pub open spec fn pypi_path(name: Seq<char>, version: Seq<char>, filename: Seq<char>) -> Seq<char> {
    pep503(name) + "/"@ + version + "/"@ + filename
}

pub fn pypi_artifact_path(name: &str, version: &str, filename: &str) -> (r: String)
    ensures
        r@ == pypi_path(name@, version@, filename@),
{
    let n = normalize_pypi_name(name);
    let mut v = chars_of(n.as_str());
    append_str(&mut v, "/");
    append_str(&mut v, version);
    append_str(&mut v, "/");
    append_str(&mut v, filename);
    string_of(&v)
}

/// `{name_lower}/{version}/{file}` where `file` is `filename` when it is a
/// `.crate`, else `{name_lower}-{version}.crate`: the path of a crate.
pub open spec fn cargo_path(name: Seq<char>, version: Seq<char>, filename: Seq<char>) -> Seq<char> {
    let low = lower_str(name);
    let file = if ends_with(filename, ".crate"@) {
        filename
    } else {
        with_suffix(low + "-"@ + version, ".crate"@)
    };
    low + "/"@ + version + "/"@ + file
}

pub fn cargo_artifact_path(name: &str, version: &str, filename: &str) -> (r: String)
    ensures
        r@ == cargo_path(name@, version@, filename@),
{
    let nv = chars_of(name);
    let low = lower_chars(&nv);
    let fv = chars_of(filename);
    let file = if ends_with_str(&fv, ".crate") {
        String::from_str(filename)
    } else {
        let mut b = low.clone();
        append_str(&mut b, "-");
        append_str(&mut b, version);
        let base = string_of(&b);
        ensure_suffix(base.as_str(), ".crate")
    };
    let mut v = low;
    append_str(&mut v, "/");
    append_str(&mut v, version);
    append_str(&mut v, "/");
    append_str(&mut v, file.as_str());
    string_of(&v)
}

/// The artifact path of a package file, for the ecosystems whose files are
/// uploaded one by one (Go modules go through the module proxy instead).
pub open spec fn artifact_path_spec(eco: Ecosystem, name: Seq<char>, version: Seq<char>, filename: Seq<char>) -> Option<Seq<char>> {
    match eco {
        Ecosystem::Npm => Some(npm_path(name, version, filename)),
        Ecosystem::Pypi => Some(pypi_path(name, version, filename)),
        Ecosystem::Cargo => Some(cargo_path(name, version, filename)),
        Ecosystem::Go => None,
    }
}

pub fn artifact_path_for(eco: Ecosystem, name: &str, version: &str, filename: &str) -> (r: Option<String>)
    ensures
        r matches Some(p) ==> artifact_path_spec(eco, name@, version@, filename@) == Some(p@),
        r is None <==> artifact_path_spec(eco, name@, version@, filename@) is None,
{
    match eco {
        Ecosystem::Npm => Some(npm_artifact_path(name, version, filename)),
        Ecosystem::Pypi => Some(pypi_artifact_path(name, version, filename)),
        Ecosystem::Cargo => Some(cargo_artifact_path(name, version, filename)),
        Ecosystem::Go => None,
    }
}

// ---------------------------------------------------------------------------
// Reading the manifest of a ferry directory
// ---------------------------------------------------------------------------

/// A manifest path with `\\` turned into `/`.
pub open spec fn slashed(rel: Seq<char>) -> Seq<char> {
    replace_char(rel, '\\', "/"@)
}

/// Whether a (slashed) relative path names the ferry manifest itself.
pub open spec fn is_manifest_rel(rel: Seq<char>) -> bool {
    rel == "ak-ferry.json"@ || rel == "ak-ferry.jsonl"@ || ends_with(rel, "/ak-ferry.json"@)
}

/// The parts of a path component list that name a directory step: not
/// empty and not `.`.
pub open spec fn real_parts(ps: Seq<Seq<char>>) -> Seq<Seq<char>>
    decreases ps.len(),
{
    if ps.len() == 0 {
        seq![]
    } else {
        let r = real_parts(ps.drop_last());
        if ps.last().len() == 0 || ps.last() == "."@ {
            r
        } else {
            r.push(ps.last())
        }
    }
}

/// The components a relative path adds below a root.
pub open spec fn rel_components(rel: Seq<char>) -> Seq<Seq<char>> {
    real_parts(split_char(rel, '/'))
}

/// The components `rel` adds below a root, in order (`/`-separated; empty
/// parts and `.` are skipped).
pub fn rel_components_of(rel: &str) -> (r: Vec<String>)
    ensures
        strs(r@) == rel_components(rel@),
{
    let v = chars_of(rel);
    let pieces = split_char_chars(&v, '/');
    let mut out: Vec<String> = Vec::new();
    let mut i: usize = 0;
    while i < pieces.len()
        invariant
            i <= pieces.len(),
            strs(out@) == real_parts(views(pieces@).take(i as int)),
        decreases pieces.len() - i,
    {
        assert(views(pieces@).take(i + 1).drop_last() =~= views(pieces@).take(i as int));
        assert(views(pieces@)[i as int] == pieces@[i as int]@);
        let skip = pieces[i].len() == 0 || chars_eq_str(&pieces[i], ".");
        if !skip {
            let ghost before = strs(out@);
            out.push(string_of(&pieces[i]));
            assert(strs(out@) =~= before.push(pieces@[i as int]@));
        }
        i = i + 1;
    }
    assert(views(pieces@).take(pieces.len() as int) =~= views(pieces@));
    out
}

/// A package file named by the manifest that is uploaded when it is found on
/// disk: the components of its path below the ferry root, and its artifact path.
#[derive(Debug, Clone)]
pub struct UploadCandidate {
    pub parts: Vec<String>,
    pub artifact_path: String,
}

/// The upload candidate of one file of a module: manifest files, Go modules
/// and paths that end at a directory (no component, or `..` last) are not uploaded;
/// the file name is the last component.
pub open spec fn file_candidate(eco: Ecosystem, m: ModuleEntry, f: FileEntry) -> Option<(Seq<Seq<char>>, Seq<char>)> {
    let rel = slashed(f.relpath@);
    let parts = rel_components(rel);
    if is_manifest_rel(rel) || parts.len() == 0 || parts.last() == ".."@ {
        None
    } else {
        match artifact_path_spec(eco, m.name@, m.version@, parts.last()) {
            Some(p) => Some((parts, p)),
            None => None,
        }
    }
}

/// The candidates of the first `n` files of module `m`, in order.
pub open spec fn files_candidates(eco: Ecosystem, m: ModuleEntry, fs: Seq<FileEntry>) -> Seq<(Seq<Seq<char>>, Seq<char>)>
    decreases fs.len(),
{
    if fs.len() == 0 {
        seq![]
    } else {
        let r = files_candidates(eco, m, fs.drop_last());
        match file_candidate(eco, m, fs.last()) {
            Some(c) => r.push(c),
            None => r,
        }
    }
}

/// The candidates of all files of all modules, module by module.
pub open spec fn modules_candidates(eco: Ecosystem, ms: Seq<ModuleEntry>) -> Seq<(Seq<Seq<char>>, Seq<char>)>
    decreases ms.len(),
{
    if ms.len() == 0 {
        seq![]
    } else {
        modules_candidates(eco, ms.drop_last()) + files_candidates(eco, ms.last(), ms.last().files@)
    }
}

/// The views of upload candidates.
pub open spec fn candidates_view(cs: Seq<UploadCandidate>) -> Seq<(Seq<Seq<char>>, Seq<char>)> {
    cs.map_values(|c: UploadCandidate| (strs(c.parts@), c.artifact_path@))
}

fn file_candidate_of(eco: Ecosystem, m: &ModuleEntry, f: &FileEntry) -> (r: Option<UploadCandidate>)
    ensures
        r matches Some(c) ==> file_candidate(eco, *m, *f) == Some((strs(c.parts@), c.artifact_path@)),
        r is None ==> file_candidate(eco, *m, *f) is None,
{
    let raw = chars_of(f.relpath.as_str());
    let relv = replace_char_chars(&raw, '\\', "/");
    let rel = string_of(&relv);
    if chars_eq_str(&relv, MANIFEST_JSON) || chars_eq_str(&relv, MANIFEST_JSONL) || ends_with_str(&relv, "/ak-ferry.json") {
        proof {
            reveal_strlit("ak-ferry.json");
            reveal_strlit("ak-ferry.jsonl");
        }
        return None;
    }
    proof {
        reveal_strlit("ak-ferry.json");
        reveal_strlit("ak-ferry.jsonl");
    }
    let parts = rel_components_of(rel.as_str());
    let n = parts.len();
    if n == 0 {
        return None;
    }
    assert(strs(parts@)[n - 1] == parts@[n - 1]@);
    let lastv = chars_of(parts[n - 1].as_str());
    if chars_eq_str(&lastv, "..") {
        return None;
    }
    match artifact_path_for(eco, m.name.as_str(), m.version.as_str(), parts[n - 1].as_str()) {
        Some(p) => Some(UploadCandidate { parts, artifact_path: p }),
        None => None,
    }
}

/// The package files of the manifest's modules that are uploaded when found
/// on disk, with their artifact paths, module by module and file by file.
pub fn upload_candidates(eco: Ecosystem, modules: &Vec<ModuleEntry>) -> (r: Vec<UploadCandidate>)
    ensures
        candidates_view(r@) == modules_candidates(eco, modules@),
{
    let mut out: Vec<UploadCandidate> = Vec::new();
    let mut i: usize = 0;
    while i < modules.len()
        invariant
            i <= modules.len(),
            candidates_view(out@) == modules_candidates(eco, modules@.take(i as int)),
        decreases modules.len() - i,
    {
        let m = &modules[i];
        let ghost base = candidates_view(out@);
        let mut j: usize = 0;
        while j < m.files.len()
            invariant
                j <= m.files.len(),
                candidates_view(out@) == base + files_candidates(eco, *m, m.files@.take(j as int)),
            decreases m.files.len() - j,
        {
            assert(m.files@.take(j + 1).drop_last() =~= m.files@.take(j as int));
            let ghost before = candidates_view(out@);
            match file_candidate_of(eco, m, &m.files[j]) {
                Some(c) => {
                    out.push(c);
                    assert(candidates_view(out@) =~= before.push((strs(c.parts@), c.artifact_path@)));
                },
                None => {},
            }
            j = j + 1;
        }
        assert(m.files@.take(m.files.len() as int) =~= m.files@);
        assert(modules@.take(i + 1).drop_last() =~= modules@.take(i as int));
        i = i + 1;
    }
    assert(modules@.take(modules.len() as int) =~= modules@);
    out
}

/// The ecosystem a (slashed) relative path of a manifest file reveals.
pub open spec fn path_eco(p: Seq<char>) -> Option<Seq<char>> {
    if ends_with(p, ".tgz"@) {
        Some("npm"@)
    } else if ends_with(p, ".crate"@) {
        Some("cargo"@)
    } else if ends_with(p, ".whl"@) || ends_with(p, ".tar.gz"@) {
        Some("pypi"@)
    } else if contains(p, "/@v/"@) {
        Some("go"@)
    } else {
        None
    }
}

/// The ecosystem revealed by the first file that reveals one.
pub open spec fn files_eco(fs: Seq<FileEntry>) -> Option<Seq<char>>
    decreases fs.len(),
{
    if fs.len() == 0 {
        None
    } else {
        match path_eco(slashed(fs[0].relpath@)) {
            Some(e) => Some(e),
            None => files_eco(fs.drop_first()),
        }
    }
}

/// The ecosystem revealed by the first module whose files reveal one.
pub open spec fn modules_eco(ms: Seq<ModuleEntry>) -> Option<Seq<char>>
    decreases ms.len(),
{
    if ms.len() == 0 {
        None
    } else {
        match files_eco(ms[0].files@) {
            Some(e) => Some(e),
            None => modules_eco(ms.drop_first()),
        }
    }
}

/// The ecosystem of a ferry directory without `ak-ferry.json`: its `download`,
/// `npm`, `pypi` or `cargo` subdirectory, in that order, else its files.
pub open spec fn inferred_eco(has_download: bool, has_npm: bool, has_pypi: bool, has_cargo: bool, ms: Seq<ModuleEntry>) -> Option<Seq<char>> {
    if has_download {
        Some("go"@)
    } else if has_npm {
        Some("npm"@)
    } else if has_pypi {
        Some("pypi"@)
    } else if has_cargo {
        Some("cargo"@)
    } else {
        modules_eco(ms)
    }
}

fn path_eco_of(p: &Vec<char>) -> (r: Option<&'static str>)
    ensures
        r matches Some(e) ==> path_eco(p@) == Some(e@),
        r is None ==> path_eco(p@) is None,
{
    proof {
        lemma_find(p@, "/@v/"@);
    }
    if ends_with_str(p, ".tgz") {
        Some("npm")
    } else if ends_with_str(p, ".crate") {
        Some("cargo")
    } else if ends_with_str(p, ".whl") || ends_with_str(p, ".tar.gz") {
        Some("pypi")
    } else if find_str(p, "/@v/").is_some() {
        Some("go")
    } else {
        None
    }
}

fn files_eco_of(fs: &Vec<FileEntry>) -> (r: Option<&'static str>)
    ensures
        r matches Some(e) ==> files_eco(fs@) == Some(e@),
        r is None ==> files_eco(fs@) is None,
{
    let mut i: usize = 0;
    assert(fs@.skip(0) =~= fs@);
    while i < fs.len()
        invariant
            i <= fs.len(),
            files_eco(fs@) == files_eco(fs@.skip(i as int)),
        decreases fs.len() - i,
    {
        assert(fs@.skip(i as int)[0] == fs@[i as int]);
        assert(fs@.skip(i as int).drop_first() =~= fs@.skip(i + 1));
        let raw = chars_of(fs[i].relpath.as_str());
        let p = replace_char_chars(&raw, '\\', "/");
        match path_eco_of(&p) {
            Some(e) => return Some(e),
            None => {},
        }
        i = i + 1;
    }
    assert(fs@.skip(i as int).len() == 0);
    None
}

/// The ecosystem of a ferry directory that has only `ak-ferry.jsonl`, from
/// which of its `download`, `npm`, `pypi`, `cargo` subdirectories exist and
/// from the paths of the recorded files.
pub fn infer_ecosystem(has_download: bool, has_npm: bool, has_pypi: bool, has_cargo: bool, modules: &Vec<ModuleEntry>) -> (r: Option<String>)
    ensures
        r matches Some(e) ==> inferred_eco(has_download, has_npm, has_pypi, has_cargo, modules@) == Some(e@),
        r is None ==> inferred_eco(has_download, has_npm, has_pypi, has_cargo, modules@) is None,
{
    if has_download {
        return Some(String::from_str("go"));
    }
    if has_npm {
        return Some(String::from_str("npm"));
    }
    if has_pypi {
        return Some(String::from_str("pypi"));
    }
    if has_cargo {
        return Some(String::from_str("cargo"));
    }
    let mut i: usize = 0;
    assert(modules@.skip(0) =~= modules@);
    while i < modules.len()
        invariant
            i <= modules.len(),
            !has_download && !has_npm && !has_pypi && !has_cargo,
            modules_eco(modules@) == modules_eco(modules@.skip(i as int)),
        decreases modules.len() - i,
    {
        assert(modules@.skip(i as int)[0] == modules@[i as int]);
        assert(modules@.skip(i as int).drop_first() =~= modules@.skip(i + 1));
        match files_eco_of(&modules[i].files) {
            Some(e) => return Some(String::from_str(e)),
            None => {},
        }
        i = i + 1;
    }
    assert(modules@.skip(i as int).len() == 0);
    None
}

} // verus!
