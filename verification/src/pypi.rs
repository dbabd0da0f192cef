//! PyPI: distribution file names, requirement lines, version pins, the
//! output of `pip index versions`, and the fetch matrix.
use vstd::prelude::*;

use crate::cargo::{name_version, split_name_version};
use crate::errors::AkError;
use crate::manifest::{roots_view, RootSpec};
use crate::text::{
    strs,
    append_chars, append_str, before_char, before_char_chars, chars_eq_str, chars_of, contains,
    copy_chars, ends_with, ends_with_str, find, find_char, find_str, has_any, has_any_chars,
    has_char, is_upper, lines, lines_chars, lower, lower_char, lower_chars, lower_str,
    replace_char, replace_char_chars, slice_of, split_char, split_char_chars, starts_with,
    starts_with_str, string_of, strip_prefix, strip_prefix_str, strip_suffix, strip_suffix_str,
    trim, trim_chars, trim_start_char, trim_start_char_chars, views,
};

verus! {

// ---------------------------------------------------------------------------
// Distribution file names
// ---------------------------------------------------------------------------

/// Name and version of a wheel (`{name}-{ver}(-{build})?-{py}-{abi}-{plat}.whl`)
/// or an sdist (`{name}-{version}.tar.gz|.tar.bz2|.zip`, split at the last `-`
/// followed by a digit); `_` in the name becomes `-`.
pub open spec fn dist_filename(fname: Seq<char>) -> Option<(Seq<char>, Seq<char>)> {
    match strip_suffix(fname, ".whl"@) {
        Some(stem) => {
            let parts = split_char(stem, '-');
            if parts.len() >= 5 {
                Some((replace_char(parts[0], '_', "-"@), parts[1]))
            } else {
                None
            }
        },
        None => match sdist_stem(fname) {
            Some(stem) => match name_version(stem) {
                Some((n, v)) => Some((replace_char(n, '_', "-"@), v)),
                None => None,
            },
            None => None,
        },
    }
}

proof fn lemma_last_version_dash(stem: Seq<char>, d: int, k: int)
    requires
        0 <= d,
        d + 1 <= k <= stem.len(),
        d + 1 < stem.len(),
        stem[d] == '-',
        crate::text::is_digit(stem[d + 1]),
        forall|i: int| d < i < stem.len() ==> #[trigger] stem[i] != '-',
    ensures
        crate::cargo::version_dash_below(stem, k) == Some(d),
    decreases k,
{
    if k > d + 1 {
        assert(stem[k - 1] != '-');
        lemma_last_version_dash(stem, d, k - 1);
    }
}

/// An sdist `{name}-{version}.tar.gz`, whose version starts with a digit and
/// holds no `-`, is read as that name (`_` written `-`) and version.
pub proof fn lemma_sdist_tar_gz(name: Seq<char>, version: Seq<char>)
    requires
        version.len() > 0,
        crate::text::is_digit(version[0]),
        forall|i: int| 0 <= i < version.len() ==> #[trigger] version[i] != '-',
    ensures
        dist_filename(name + "-"@ + version + ".tar.gz"@) == Some((replace_char(name, '_', "-"@), version)),
{
    reveal_strlit("-");
    reveal_strlit(".tar.gz");
    reveal_strlit(".whl");
    let stem = name + "-"@ + version;
    let f = stem + ".tar.gz"@;
    assert(!ends_with(f, ".whl"@)) by {
        if ends_with(f, ".whl"@) {
            assert(f.skip(f.len() - 4)[3] == f[f.len() - 1]);
        }
    }
    assert(f.skip(f.len() - 7) =~= ".tar.gz"@);
    assert(f.take(f.len() - 7) =~= stem);
    let d = name.len() as int;
    assert(stem[d] == '-');
    assert(stem[d + 1] == version[0]);
    assert forall|i: int| d < i < stem.len() implies #[trigger] stem[i] != '-' by {
        assert(stem[i] == version[i - d - 1]);
    }
    lemma_last_version_dash(stem, d, stem.len() as int);
    assert(stem.take(d) =~= name);
    assert(stem.skip(d + 1) =~= version);
}

/// The stem of an sdist file name.
pub open spec fn sdist_stem(fname: Seq<char>) -> Option<Seq<char>> {
    match strip_suffix(fname, ".tar.gz"@) {
        Some(s) => Some(s),
        None => match strip_suffix(fname, ".tar.bz2"@) {
            Some(s) => Some(s),
            None => strip_suffix(fname, ".zip"@),
        },
    }
}

proof fn lemma_suffixes_exclusive(fname: Seq<char>)
    ensures
        strip_suffix(fname, ".tar.gz"@) is Some ==> strip_suffix(fname, ".tar.bz2"@) is None
            && strip_suffix(fname, ".zip"@) is None,
        strip_suffix(fname, ".tar.bz2"@) is Some ==> strip_suffix(fname, ".zip"@) is None,
{
    reveal_strlit(".tar.gz");
    reveal_strlit(".tar.bz2");
    reveal_strlit(".zip");
    if strip_suffix(fname, ".tar.gz"@) is Some {
        let t = fname.skip(fname.len() - 7);
        assert(t == ".tar.gz"@);
        assert(t[6] == fname[fname.len() - 1]);
        assert(fname[fname.len() - 1] == 'z');
        if strip_suffix(fname, ".tar.bz2"@) is Some {
            let u = fname.skip(fname.len() - 8);
            assert(u == ".tar.bz2"@);
            assert(u[7] == fname[fname.len() - 1]);
        }
        if strip_suffix(fname, ".zip"@) is Some {
            let u = fname.skip(fname.len() - 4);
            assert(u == ".zip"@);
            assert(u[3] == fname[fname.len() - 1]);
        }
    }
    if strip_suffix(fname, ".tar.bz2"@) is Some {
        let t = fname.skip(fname.len() - 8);
        assert(t == ".tar.bz2"@);
        assert(t[7] == fname[fname.len() - 1]);
        if strip_suffix(fname, ".zip"@) is Some {
            let u = fname.skip(fname.len() - 4);
            assert(u == ".zip"@);
            assert(u[3] == fname[fname.len() - 1]);
        }
    }
}

/// Parse a wheel / sdist file name into (name, version).
pub fn parse_dist_filename(fname: &str) -> (r: Option<(String, String)>)
    ensures
        r matches Some((n, v)) ==> dist_filename(fname@) == Some((n@, v@)),
        r is None ==> dist_filename(fname@) is None,
{
    let f = chars_of(fname);
    match strip_suffix_str(&f, ".whl") {
        Some(stem) => {
            let parts = split_char_chars(&stem, '-');
            if parts.len() >= 5 {
                assert(views(parts@)[0] == parts@[0]@);
                assert(views(parts@)[1] == parts@[1]@);
                let n = replace_char_chars(&parts[0], '_', "-");
                return Some((string_of(&n), string_of(&parts[1])));
            }
            return None;
        },
        None => {},
    }
    proof {
        lemma_suffixes_exclusive(fname@);
    }
    let stem = match strip_suffix_str(&f, ".tar.gz") {
        Some(s) => s,
        None => match strip_suffix_str(&f, ".tar.bz2") {
            Some(s) => s,
            None => match strip_suffix_str(&f, ".zip") {
                Some(s) => s,
                None => return None,
            },
        },
    };
    match split_name_version(&stem) {
        Some((n, v)) => {
            let nv = chars_of(n.as_str());
            let nn = replace_char_chars(&nv, '_', "-");
            Some((string_of(&nn), v))
        },
        None => None,
    }
}

/// Folder name of a PyPI package: `_` and `.` become `-`, ASCII lower-cased.
pub open spec fn pypi_folder_name(name: Seq<char>) -> Seq<char> {
    name.map_values(|c: char| if c == '_' || c == '.' { '-' } else { lower(c) })
}

/// Folder name of a PyPI package under the artifacts tree.
pub fn sanitize_name(name: &str) -> (r: String)
    ensures
        r@ == pypi_folder_name(name@),
{
    normalize_pypi_name(name)
}

/// `_` and `.` become `-`; ASCII letters are lower-cased.
pub fn normalize_pypi_name(name: &str) -> (r: String)
    ensures
        r@ == pypi_folder_name(name@),
{
    let v = chars_of(name);
    let mut out: Vec<char> = Vec::new();
    let mut i: usize = 0;
    while i < v.len()
        invariant
            i <= v.len(),
            out@ == pypi_folder_name(v@.take(i as int)),
        decreases v.len() - i,
    {
        let c = v[i];
        let m = if c == '_' || c == '.' {
            '-'
        } else {
            lower_char(c)
        };
        out.push(m);
        i = i + 1;
        assert(out@ =~= pypi_folder_name(v@.take(i as int)));
    }
    assert(v@.take(v.len() as int) =~= v@);
    string_of(&out)
}

// ---------------------------------------------------------------------------
// Versions and requirement specifiers
// ---------------------------------------------------------------------------

/// A pinned PyPI version: non-empty after trimming, no comparison or wildcard
/// characters, not a `~` specifier and not `latest` (any case).
pub open spec fn exact_pypi_version(v: Seq<char>) -> bool {
    let t = trim(v);
    t.len() > 0 && !has_any(t, "><!| *"@) && !starts_with(t, "~"@) && lower_str(t) != "latest"@
}

pub fn is_exact_pypi_version(v: &str) -> (b: bool)
    ensures
        b == exact_pypi_version(v@),
{
    let c = chars_of(v);
    let t = trim_chars(&c);
    let lt = lower_chars(&t);
    t.len() > 0 && !has_any_chars(&t, "><!| *") && !starts_with_str(&t, "~") && !chars_eq_str(
        &lt,
        "latest",
    )
}

/// The `pip download` requirement for a root: `name==v` for a pin, `name{v}`
/// when `v` starts with an operator, `name==v` otherwise, and the bare name
/// when there is no (non-blank) version.
pub open spec fn requirement(name: Seq<char>, version: Option<Seq<char>>) -> Seq<char> {
    match version {
        Some(v0) => {
            let v = trim(v0);
            if v.len() == 0 {
                name
            } else if exact_pypi_version(v) {
                name + "=="@ + v
            } else if "=><~!"@.contains(v[0]) {
                name + v
            } else {
                name + "=="@ + v
            }
        },
        None => name,
    }
}

pub fn req_spec(name: &str, version: Option<&str>) -> (r: String)
    ensures
        r@ == requirement(
            name@,
            match version {
                Some(v) => Some(v@),
                None => None,
            },
        ),
{
    let mut out = chars_of(name);
    match version {
        Some(v0) => {
            let c = chars_of(v0);
            let v = trim_chars(&c);
            if v.len() == 0 {
            } else {
                let vs = string_of(&v);
                let ops = chars_of("=><~!");
                if is_exact_pypi_version(vs.as_str()) {
                    append_str(&mut out, "==");
                    append_chars(&mut out, &v);
                } else if has_char(&ops, v[0]) {
                    append_chars(&mut out, &v);
                } else {
                    append_str(&mut out, "==");
                    append_chars(&mut out, &v);
                }
            }
        },
        None => {},
    }
    string_of(&out)
}

/// `--python-version` form of a Python version: trimmed, leading `v`s
/// dropped, dots removed.
pub open spec fn python_version_digits(v: Seq<char>) -> Seq<char> {
    let t = trim_start_char(trim(v), 'v');
    if t.contains('.') {
        replace_char(t, '.', ""@)
    } else {
        t
    }
}

pub fn normalize_python_version(v: &str) -> (r: String)
    ensures
        r@ == python_version_digits(v@),
{
    let c = chars_of(v);
    let t0 = trim_chars(&c);
    let t = trim_start_char_chars(&t0, 'v');
    if has_char(&t, '.') {
        let r = replace_char_chars(&t, '.', "");
        string_of(&r)
    } else {
        string_of(&t)
    }
}

/// pip `--implementation` and `--abi` for a target Python version.
pub fn python_abi_tags(py: &str) -> (r: (&'static str, String))
    ensures
        r.0@ == "cp"@,
        r.1@ == "cp"@ + python_version_digits(py@),
{
    let digits = normalize_python_version(py);
    let mut abi = chars_of("cp");
    append_str(&mut abi, digits.as_str());
    ("cp", string_of(&abi))
}

// ---------------------------------------------------------------------------
// `pip index versions`
// ---------------------------------------------------------------------------

/// The versions of an `Available versions: a, b, …` line (either
/// capitalisation), when it lists at least one.
pub open spec fn line_versions(raw: Seq<char>) -> Option<Seq<Seq<char>>> {
    let line = trim(raw);
    let rest = match strip_prefix(line, "Available versions:"@) {
        Some(r) => Some(r),
        None => strip_prefix(line, "available versions:"@),
    };
    match rest {
        Some(r) => {
            let vers = crate::text::nonempty_pieces(
                split_char(r, ',').map_values(|p: Seq<char>| trim(p)),
            );
            if vers.len() > 0 {
                Some(vers)
            } else {
                None
            }
        },
        None => None,
    }
}

/// The versions of the first line that lists some.
pub open spec fn first_versions(ls: Seq<Seq<char>>) -> Option<Seq<Seq<char>>>
    decreases ls.len(),
{
    if ls.len() == 0 {
        None
    } else {
        match line_versions(ls[0]) {
            Some(v) => Some(v),
            None => first_versions(ls.drop_first()),
        }
    }
}

fn trimmed_pieces(ps: &Vec<Vec<char>>) -> (r: Vec<Vec<char>>)
    ensures
        views(r@) == crate::text::nonempty_pieces(views(ps@).map_values(|p: Seq<char>| trim(p))),
{
    let mut t: Vec<Vec<char>> = Vec::new();
    let mut i: usize = 0;
    while i < ps.len()
        invariant
            i <= ps.len(),
            views(t@) == views(ps@).take(i as int).map_values(|p: Seq<char>| trim(p)),
        decreases ps.len() - i,
    {
        assert(views(ps@)[i as int] == ps@[i as int]@);
        let x = trim_chars(&ps[i]);
        let ghost before = views(t@);
        t.push(x);
        assert(views(t@) =~= before.push(trim(views(ps@)[i as int])));
        i = i + 1;
        assert(views(t@) =~= views(ps@).take(i as int).map_values(|p: Seq<char>| trim(p)));
    }
    assert(views(ps@).take(ps.len() as int) =~= views(ps@));
    crate::text::keep_nonempty(&t)
}

fn line_versions_chars(raw: &Vec<char>) -> (r: Option<Vec<Vec<char>>>)
    ensures
        r matches Some(v) ==> line_versions(raw@) == Some(views(v@)),
        r is None ==> line_versions(raw@) is None,
{
    let line = trim_chars(raw);
    let rest = match strip_prefix_str(&line, "Available versions:") {
        Some(r) => r,
        None => match strip_prefix_str(&line, "available versions:") {
            Some(r) => r,
            None => return None,
        },
    };
    let parts = split_char_chars(&rest, ',');
    let vers = trimmed_pieces(&parts);
    if vers.len() > 0 {
        Some(vers)
    } else {
        None
    }
}

/// The error text when no line lists versions.
pub open spec fn pip_index_error(stdout: Seq<char>) -> Seq<char> {
    "Could not parse pip index versions output:\n"@ + stdout
}

/// The versions listed by `pip index versions` output: those of the first
/// `Available versions:` line that lists any; an error otherwise.
pub fn parse_pip_index_versions(stdout: &str) -> (r: Result<Vec<String>, AkError>)
    ensures
        r matches Ok(v) ==> first_versions(lines(stdout@)) == Some(v@.map_values(|s: String| s@)),
        r matches Err(e) ==> first_versions(lines(stdout@)) is None && e is ConfigError && e.msg()
            == pip_index_error(stdout@),
{
    let t = chars_of(stdout);
    let ls = lines_chars(&t);
    let ghost lv = views(ls@);
    let mut i: usize = 0;
    assert(lv.skip(0) =~= lv);
    while i < ls.len()
        invariant
            i <= ls.len(),
            lv == views(ls@),
            lv == lines(stdout@),
            first_versions(lv) == first_versions(lv.skip(i as int)),
        decreases ls.len() - i,
    {
        assert(lv.skip(i as int)[0] == ls@[i as int]@);
        assert(lv.skip(i as int).drop_first() =~= lv.skip(i + 1));
        match line_versions_chars(&ls[i]) {
            Some(v) => {
                let mut out: Vec<String> = Vec::new();
                let mut k: usize = 0;
                while k < v.len()
                    invariant
                        k <= v.len(),
                        out@.map_values(|s: String| s@) == views(v@).take(k as int),
                    decreases v.len() - k,
                {
                    let ghost before = out@.map_values(|s: String| s@);
                    out.push(string_of(&v[k]));
                    assert(views(v@)[k as int] == v@[k as int]@);
                    assert(out@.map_values(|s: String| s@) =~= before.push(views(v@)[k as int]));
                    k = k + 1;
                    assert(out@.map_values(|s: String| s@) =~= views(v@).take(k as int));
                }
                assert(views(v@).take(v.len() as int) =~= views(v@));
                return Ok(out);
            },
            None => {},
        }
        i = i + 1;
    }
    assert(lv.skip(ls.len() as int) =~= Seq::<Seq<char>>::empty());
    let mut msg = chars_of("Could not parse pip index versions output:\n");
    append_str(&mut msg, stdout);
    Err(AkError::ConfigError(string_of(&msg)))
}

// ---------------------------------------------------------------------------
// requirements.txt
// ---------------------------------------------------------------------------

/// The name and version specifier of one requirement (`name==1.2.3`,
/// `name>=1`, `name[extra]==1.0`, …).
pub open spec fn requirement_line(raw: Seq<char>) -> Option<(Seq<char>, Option<Seq<char>>)> {
    let line = trim(raw);
    if line.len() == 0 {
        None
    } else {
        let (name_part, version) = split_specifier(line);
        let name = trim(before_char(name_part, '['));
        if name.len() == 0 {
            None
        } else {
            Some((name, version))
        }
    }
}

/// The name part and the version specifier of a requirement line.
pub open spec fn split_specifier(line: Seq<char>) -> (Seq<char>, Option<Seq<char>>) {
    match find(line, "=="@) {
        Some(i) => (line.take(i), Some(trim(line.skip(i + 2)))),
        None => match find(line, ">="@) {
            Some(i) => (line.take(i), Some(">="@ + trim(line.skip(i + 2)))),
            None => match find(line, "<="@) {
                Some(i) => (line.take(i), Some("<="@ + trim(line.skip(i + 2)))),
                None => match find(line, "~"@) {
                    Some(i) => if starts_with(line.skip(i), "~="@) {
                        (line.take(i), Some("~="@ + trim(line.skip(i + 2))))
                    } else {
                        (line, None)
                    },
                    None => match find(line, ">"@) {
                        Some(i) => (line.take(i), Some(">"@ + trim(line.skip(i + 1)))),
                        None => match find(line, "<"@) {
                            Some(i) => (line.take(i), Some("<"@ + trim(line.skip(i + 1)))),
                            None => (line, None),
                        },
                    },
                },
            },
        },
    }
}

/// A character that can be part of a version operator.
pub open spec fn operator_char(c: char) -> bool {
    c == '=' || c == '<' || c == '>' || c == '~'
}

/// Text without any character of a version operator.
pub open spec fn operator_free(s: Seq<char>) -> bool {
    forall|i: int| 0 <= i < s.len() ==> !operator_char(#[trigger] s[i])
}

/// The operators a requirement line may use.
pub open spec fn version_operator(op: Seq<char>) -> bool {
    op == "=="@ || op == ">="@ || op == "<="@ || op == "~="@ || op == ">"@ || op == "<"@
}

/// In `a + op + b` with `a` and `b` free of operator characters, a pattern
/// made of operator characters is found exactly where it is found in `op`.
proof fn lemma_find_between(a: Seq<char>, op: Seq<char>, b: Seq<char>, p: Seq<char>)
    requires
        operator_free(a),
        operator_free(b),
        p.len() > 0,
        forall|i: int| 0 <= i < p.len() ==> operator_char(#[trigger] p[i]),
    ensures
        find(a + op + b, p) == (match find(op, p) {
            Some(k) => Some(a.len() + k),
            None => None::<int>,
        }),
{
    let line = a + op + b;
    let n = a.len() as int;
    let m = op.len() as int;
    let pl = p.len() as int;
    assert forall|j: int| #[trigger] crate::text::occurs_at(line, p, j) implies crate::text::occurs_at(op, p, j - n) by {
        assert(line.subrange(j, j + pl)[0] == line[j]);
        if j < n {
            assert(line[j] == a[j]);
            assert(operator_char(p[0]));
        } else if j >= n + m {
            assert(line[j] == b[j - n - m]);
            assert(operator_char(p[0]));
        } else if j + pl > n + m {
            let t = n + m - j;
            assert(line.subrange(j, j + pl)[t] == line[n + m]);
            assert(line[n + m] == b[0]);
            assert(operator_char(p[t]));
        } else {
            assert(op.subrange(j - n, j - n + pl) =~= line.subrange(j, j + pl));
        }
    }
    assert forall|j: int| crate::text::occurs_at(op, p, j - n) implies #[trigger] crate::text::occurs_at(line, p, j) by {
        assert(op.subrange(j - n, j - n + pl) =~= line.subrange(j, j + pl));
    }
    crate::text::lemma_find(line, p);
    crate::text::lemma_find(op, p);
    match find(op, p) {
        Some(k) => {
            assert(crate::text::occurs_at(line, p, n + k));
            match find(line, p) {
                Some(q) => {
                    if q < n + k {
                        assert(crate::text::occurs_at(op, p, q - n));
                        if q - n >= 0 {
                            assert(!crate::text::occurs_at(op, p, q - n));
                        }
                    }
                    if q > n + k {
                        assert(!crate::text::occurs_at(line, p, n + k));
                    }
                },
                None => {},
            }
        },
        None => {
            match find(line, p) {
                Some(q) => {
                    assert(crate::text::occurs_at(op, p, q - n));
                },
                None => {},
            }
        },
    }
}

proof fn lemma_found_at_start(op: Seq<char>, p: Seq<char>)
    requires
        p.len() <= op.len(),
        op.take(p.len() as int) == p,
    ensures
        find(op, p) == Some(0int),
{
    assert(op.subrange(0, p.len() as int) =~= op.take(p.len() as int));
}

proof fn lemma_not_found(op: Seq<char>, p: Seq<char>)
    requires
        1 <= p.len() <= 2,
        forall|j: int| 0 <= j && j + p.len() <= op.len() ==> #[trigger] op[j] != p[0] || (p.len() == 2 && op[j + 1] != p[1]),
    ensures
        find(op, p) is None,
{
    crate::text::lemma_find(op, p);
    match find(op, p) {
        Some(k) => {
            assert(op.subrange(k, k + p.len())[0] == op[k]);
            if p.len() == 2 {
                assert(op.subrange(k, k + p.len())[1] == op[k + 1]);
            }
        },
        None => {},
    }
}

/// A requirement `name OP ver`, whose only operator is `OP` (one of `==`,
/// `>=`, `<=`, `~=`, `>`, `<`), pins `ver` for `==` and keeps the operator
/// in front of the version for every other one.
pub proof fn lemma_split_specifier_operator(name: Seq<char>, op: Seq<char>, ver: Seq<char>)
    requires
        operator_free(name),
        operator_free(ver),
        version_operator(op),
    ensures
        split_specifier(name + op + ver) == (name, Some(if op == "=="@ { trim(ver) } else { op + trim(ver) })),
        op != "=="@ ==> (split_specifier(name + op + ver).1 matches Some(v) && starts_with(v, op)),
{
    reveal_strlit("==");
    reveal_strlit(">=");
    reveal_strlit("<=");
    reveal_strlit("~=");
    reveal_strlit("~");
    reveal_strlit(">");
    reveal_strlit("<");
    let line = name + op + ver;
    let n = name.len() as int;
    lemma_find_between(name, op, ver, "=="@);
    lemma_find_between(name, op, ver, ">="@);
    lemma_find_between(name, op, ver, "<="@);
    lemma_find_between(name, op, ver, "~"@);
    lemma_find_between(name, op, ver, ">"@);
    lemma_find_between(name, op, ver, "<"@);
    assert(line.take(n) =~= name);
    if op.len() == 2 {
        assert(line.skip(n + 2) =~= ver);
    } else {
        assert(line.skip(n + 1) =~= ver);
    }
    if op == "=="@ {
        assert(op.take(2) =~= op);
        lemma_found_at_start(op, "=="@);
    } else {
        lemma_not_found(op, "=="@);
        if op == ">="@ {
            assert(op.take(2) =~= op);
        lemma_found_at_start(op, ">="@);
        } else {
            lemma_not_found(op, ">="@);
            if op == "<="@ {
                assert(op.take(2) =~= op);
        lemma_found_at_start(op, "<="@);
            } else {
                lemma_not_found(op, "<="@);
                if op == "~="@ {
                    assert(op.take(1) =~= "~"@);
                    lemma_found_at_start(op, "~"@);
                    assert(line.skip(n).take(2) =~= "~="@);
                } else {
                    lemma_not_found(op, "~"@);
                    if op == ">"@ {
                        assert(op.take(1) =~= ">"@);
                    lemma_found_at_start(op, ">"@);
                    } else {
                        lemma_not_found(op, ">"@);
                        assert(op.take(1) =~= "<"@);
                    lemma_found_at_start(op, "<"@);
                    }
                }
            }
        }
    }
    if op != "=="@ {
        assert((op + trim(ver)).take(op.len() as int) =~= op);
    }
}

/// One `requirements.txt` line `name OP ver` (a plain name, one operator,
/// no comment, marker or extra) names the root `name` with the version of
/// `lemma_split_specifier_operator`: `ver` for `==`, `OP` and `ver` otherwise.
pub proof fn lemma_requirement_operator(name: Seq<char>, op: Seq<char>, ver: Seq<char>)
    requires
        operator_free(name),
        operator_free(ver),
        version_operator(op),
        name.len() > 0,
        !crate::text::is_ws(name[0]),
        !crate::text::is_ws(name.last()),
        name[0] != '-',
        ver.len() > 0,
        !crate::text::is_ws(ver.last()),
        forall|i: int| 0 <= i < name.len() ==> #[trigger] name[i] != '[' && name[i] != '#' && name[i] != ';',
        forall|i: int| 0 <= i < ver.len() ==> #[trigger] ver[i] != '#' && ver[i] != ';',
    ensures
        requirement_line(name + op + ver) == Some((name, Some(if op == "=="@ { trim(ver) } else { op + trim(ver) }))),
        requirements_entry(name + op + ver) == Some((name, Some(if op == "=="@ { trim(ver) } else { op + trim(ver) }))),
{
    reveal_strlit("==");
    reveal_strlit(">=");
    reveal_strlit("<=");
    reveal_strlit("~=");
    reveal_strlit(">");
    reveal_strlit("<");
    reveal_strlit("-");
    let line = name + op + ver;
    assert(line[0] == name[0]);
    assert(line.last() == ver.last());
    crate::text::lemma_trim_unchanged(line);
    crate::text::lemma_trim_unchanged(name);
    assert forall|i: int| 0 <= i < line.len() implies #[trigger] line[i] != '#' && line[i] != ';' by {
        if i < name.len() {
            assert(line[i] == name[i]);
        } else if i < name.len() + op.len() {
            assert(line[i] == op[i - name.len()]);
        } else {
            assert(line[i] == ver[i - name.len() - op.len()]);
        }
    }
    crate::text::lemma_before_char_absent(line, '#');
    crate::text::lemma_before_char_absent(line, ';');
    crate::text::lemma_before_char_absent(name, '[');
    lemma_split_specifier_operator(name, op, ver);
    assert(!starts_with(line, "-"@)) by {
        assert(line.take(1)[0] == line[0]);
    }
}

fn op_split(line: &Vec<char>, i: usize, oplen: usize, prefix: &str) -> (r: (Vec<char>, Vec<char>))
    requires
        i + oplen <= line.len(),
    ensures
        r.0@ == line@.take(i as int),
        r.1@ == prefix@ + trim(line@.skip(i + oplen)),
{
    let name = slice_of(line, 0, i);
    let rest = slice_of(line, i + oplen, line.len());
    assert(rest@ =~= line@.skip(i + oplen));
    let t = trim_chars(&rest);
    let mut v = chars_of(prefix);
    append_chars(&mut v, &t);
    (name, v)
}

fn split_specifier_chars(line: &Vec<char>) -> (r: (Vec<char>, Option<Vec<char>>))
    ensures
        split_specifier(line@) == (r.0@, match r.1 {
            Some(v) => Some(v@),
            None => None,
        }),
{
    proof {
        crate::text::lemma_find(line@, "=="@);
        crate::text::lemma_find(line@, ">="@);
        crate::text::lemma_find(line@, "<="@);
        crate::text::lemma_find(line@, "~"@);
        crate::text::lemma_find(line@, ">"@);
        crate::text::lemma_find(line@, "<"@);
        reveal_strlit("==");
        reveal_strlit(">=");
        reveal_strlit("<=");
        reveal_strlit("~");
        reveal_strlit(">");
        reveal_strlit("<");
        reveal_strlit("");
        reveal_strlit("~=");
    }
    match find_str(line, "==") {
        Some(i) => {
            let (n, v) = op_split(line, i, 2, "");
            assert(v@ =~= trim(line@.skip(i + 2)));
            return (n, Some(v));
        },
        None => {},
    }
    match find_str(line, ">=") {
        Some(i) => {
            let (n, v) = op_split(line, i, 2, ">=");
            return (n, Some(v));
        },
        None => {},
    }
    match find_str(line, "<=") {
        Some(i) => {
            let (n, v) = op_split(line, i, 2, "<=");
            return (n, Some(v));
        },
        None => {},
    }
    match find_str(line, "~") {
        Some(i) => {
            let tail = slice_of(line, i, line.len());
            assert(tail@ =~= line@.skip(i as int));
            if starts_with_str(&tail, "~=") {
                assert(i + 2 <= line.len()) by {
                    assert(tail@.len() >= 2);
                }
                let (n, v) = op_split(line, i, 2, "~=");
                return (n, Some(v));
            } else {
                return (copy_chars(line), None);
            }
        },
        None => {},
    }
    match find_str(line, ">") {
        Some(i) => {
            let (n, v) = op_split(line, i, 1, ">");
            return (n, Some(v));
        },
        None => {},
    }
    match find_str(line, "<") {
        Some(i) => {
            let (n, v) = op_split(line, i, 1, "<");
            (n, Some(v))
        },
        None => (copy_chars(line), None),
    }
}

fn requirement_line_chars(raw: &Vec<char>) -> (r: Option<RootSpec>)
    ensures
        r matches Some(s) ==> requirement_line(raw@) == Some(s@),
        r is None ==> requirement_line(raw@) is None,
{
    let line = trim_chars(raw);
    if line.len() == 0 {
        return None;
    }
    let (name_part, version) = split_specifier_chars(&line);
    let b = before_char_chars(&name_part, '[');
    let name = trim_chars(&b);
    if name.len() == 0 {
        return None;
    }
    let v = match version {
        Some(v) => Some(string_of(&v)),
        None => None,
    };
    Some(RootSpec { name: string_of(&name), version: v })
}

/// Parse one requirement (`name==1.2.3` / `name>=1` / `name[extra]==1.0`).
pub fn parse_requirement_line(line: &str) -> (r: Option<RootSpec>)
    ensures
        r matches Some(s) ==> requirement_line(line@) == Some(s@),
        r is None ==> requirement_line(line@) is None,
{
    let v = chars_of(line);
    requirement_line_chars(&v)
}

/// The requirement of one `requirements.txt` line: comment after `#` dropped,
/// blank lines and option lines (`-r`, `--index-url`, …) skipped, environment
/// markers after `;` dropped.
pub open spec fn requirements_entry(raw: Seq<char>) -> Option<(Seq<char>, Option<Seq<char>>)> {
    let line = trim(before_char(raw, '#'));
    if line.len() == 0 || starts_with(line, "-"@) {
        None
    } else {
        requirement_line(trim(before_char(line, ';')))
    }
}

/// The roots named by a `requirements.txt`, in order.
pub open spec fn requirements_txt(text: Seq<char>) -> Seq<(Seq<char>, Option<Seq<char>>)> {
    lines(text).filter_map(|l: Seq<char>| requirements_entry(l))
}

fn requirements_entry_chars(raw: &Vec<char>) -> (r: Option<RootSpec>)
    ensures
        r matches Some(s) ==> requirements_entry(raw@) == Some(s@),
        r is None ==> requirements_entry(raw@) is None,
{
    let b = before_char_chars(raw, '#');
    let line = trim_chars(&b);
    if line.len() == 0 || starts_with_str(&line, "-") {
        return None;
    }
    let b2 = before_char_chars(&line, ';');
    let l2 = trim_chars(&b2);
    requirement_line_chars(&l2)
}

/// Parse a `requirements.txt` into roots.
pub fn parse_requirements_txt(text: &str) -> (r: Vec<RootSpec>)
    ensures
        roots_view(r@) == requirements_txt(text@),
{
    let t = chars_of(text);
    let ls = lines_chars(&t);
    let ghost lv = views(ls@);
    let ghost f = |l: Seq<char>| requirements_entry(l);
    let mut out: Vec<RootSpec> = Vec::new();
    let mut i: usize = 0;
    while i < ls.len()
        invariant
            i <= ls.len(),
            lv == views(ls@),
            lv == lines(text@),
            f == (|l: Seq<char>| requirements_entry(l)),
            roots_view(out@) == lv.take(i as int).filter_map(f),
        decreases ls.len() - i,
    {
        proof {
            lv.lemma_filter_map_take_succ(f, i as int);
        }
        assert(lv[i as int] == ls@[i as int]@);
        let ghost before = roots_view(out@);
        match requirements_entry_chars(&ls[i]) {
            Some(spec) => {
                out.push(spec);
                assert(roots_view(out@) =~= before + seq![f(lv[i as int]).unwrap()]);
            },
            None => {
                assert(roots_view(out@) =~= before + Seq::empty());
            },
        }
        i = i + 1;
    }
    assert(lv.take(ls.len() as int) =~= lv);
    out
}

/// A line that pins or bounds a version (`==`, `>=`, `~=`) and is not a comment.
pub open spec fn pins_version(l: Seq<char>) -> bool {
    let t = trim(l);
    t.len() > 0 && !starts_with(t, "#"@) && (contains(t, "=="@) || contains(t, ">="@) || contains(
        t,
        "~="@,
    ))
}

/// The input is read as a `requirements.txt` when its file name is
/// `requirements.txt` (any case), or ends in `.txt` and some line pins or
/// bounds a version; otherwise it is a module list.
pub open spec fn pypi_input_is_requirements(file_name: Seq<char>, text: Seq<char>) -> bool {
    let n = lower_str(file_name);
    n == "requirements.txt"@ || (ends_with(n, ".txt"@) && exists|i: int|
        0 <= i < lines(text).len() && pins_version(#[trigger] lines(text)[i]))
}

fn pins_version_chars(l: &Vec<char>) -> (b: bool)
    ensures
        b == pins_version(l@),
{
    let t = trim_chars(l);
    t.len() > 0 && !starts_with_str(&t, "#") && (find_str(&t, "==").is_some() || find_str(
        &t,
        ">=",
    ).is_some() || find_str(&t, "~=").is_some())
}

pub fn is_requirements_input(file_name: &str, text: &str) -> (b: bool)
    ensures
        b == pypi_input_is_requirements(file_name@, text@),
{
    let n = chars_of(file_name);
    let ln = lower_chars(&n);
    if chars_eq_str(&ln, "requirements.txt") {
        return true;
    }
    if !ends_with_str(&ln, ".txt") {
        return false;
    }
    let t = chars_of(text);
    let ls = lines_chars(&t);
    let ghost lv = views(ls@);
    let mut i: usize = 0;
    while i < ls.len()
        invariant
            i <= ls.len(),
            lv == views(ls@),
            lv == lines(text@),
            ends_with(lower_str(file_name@), ".txt"@),
            forall|j: int| 0 <= j < i ==> !pins_version(#[trigger] lv[j]),
        decreases ls.len() - i,
    {
        assert(lv[i as int] == ls@[i as int]@);
        if pins_version_chars(&ls[i]) {
            assert(pins_version(lines(text@)[i as int]));
            return true;
        }
        i = i + 1;
    }
    false
}

/// The Python version a platform download targets: the requested one,
/// else the host's, else `3.12`.
pub fn target_python(python: Option<&str>, host: Option<&str>) -> (r: String)
    ensures
        r@ == (match python {
            Some(p) => p@,
            None => match host {
                Some(h) => h@,
                None => "3.12"@,
            },
        }),
{
    match python {
        Some(p) => String::from_str(p),
        None => match host {
            Some(h) => String::from_str(h),
            None => String::from_str("3.12"),
        },
    }
}

/// The `pip download` arguments for a platform: binary wheels only, for
/// that platform and the CPython version `py`.
pub open spec fn platform_args_spec(platform: Seq<char>, py: Seq<char>) -> Seq<Seq<char>> {
    seq![
        "--only-binary=:all:"@,
        "--platform"@,
        platform,
        "--python-version"@,
        python_version_digits(py),
        "--implementation"@,
        "cp"@,
        "--abi"@,
        "cp"@ + python_version_digits(py),
    ]
}

pub fn pip_platform_args(platform: &str, py: &str) -> (r: Vec<String>)
    ensures
        strs(r@) == platform_args_spec(platform@, py@),
{
    let (impl_tag, abi) = python_abi_tags(py);
    let mut out: Vec<String> = Vec::new();
    out.push(String::from_str("--only-binary=:all:"));
    out.push(String::from_str("--platform"));
    out.push(String::from_str(platform));
    out.push(String::from_str("--python-version"));
    out.push(normalize_python_version(py));
    out.push(String::from_str("--implementation"));
    out.push(String::from_str(impl_tag));
    out.push(String::from_str("--abi"));
    out.push(abi);
    assert(strs(out@) =~= platform_args_spec(platform@, py@));
    out
}

} // verus!
