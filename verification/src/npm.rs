//! npm: install targets, version pins, tarball URLs and `package.json` roots.
use vstd::prelude::*;

use crate::errors::AkError;
use crate::json::{
    json_get, json_get_ref, json_of, json_string, json_of_bytes, json_parse, json_parse_bytes, json_str, json_text, json_to_text, JsonValue,
};
use crate::manifest::{opt_view, roots_view, RootSpec};
use crate::text::{
    strs,
    after_last_char, after_last_char_chars, append_chars, append_str, chars_eq, chars_eq_str,
    chars_of, has_any, has_any_chars, lower_chars, lower_str, replace_char, replace_char_chars,
    replace_str, replace_str_chars, split_char, split_char_chars, split_once, split_once_str,
    starts_with, starts_with_str, string_of, strip_prefix, strip_suffix, strip_suffix_str,
    trim, trim_chars, trim_start, trim_start_char, trim_start_char_chars, trim_start_chars, views,
};

verus! {

/// A single npm install target (`--os` / `--cpu` / optional `--libc`).
#[derive(Debug, Clone)]
pub struct NpmTarget {
    pub os: String,
    pub cpu: String,
    pub libc: Option<String>,
    /// Original CLI token, e.g. `linux-arm64-musl`
    pub label: String,
}

/// The view of a target: os, cpu, libc, label.
pub open spec fn target_view(t: NpmTarget) -> (Seq<char>, Seq<char>, Option<Seq<char>>, Seq<char>) {
    (t.os@, t.cpu@, opt_view(t.libc), t.label@)
}

/// A target token: `OS-CPU` or `OS-CPU-LIBC` after trimming.
pub open spec fn target_spec(raw: Seq<char>) -> Option<(Seq<char>, Seq<char>, Option<Seq<char>>, Seq<char>)> {
    let s = trim(raw);
    let parts = split_char(s, '-');
    if s.len() == 0 {
        None
    } else if parts.len() == 2 {
        Some((parts[0], parts[1], None, s))
    } else if parts.len() == 3 {
        Some((parts[0], parts[1], Some(parts[2]), s))
    } else {
        None
    }
}

/// The error of an invalid target token.
pub open spec fn target_error(raw: Seq<char>) -> Seq<char> {
    let s = trim(raw);
    if s.len() == 0 {
        "Empty --target"@
    } else {
        "Invalid --target '"@ + s
            + "' (expected OS-CPU or OS-CPU-LIBC, e.g. linux-x64, linux-arm64-musl, darwin-arm64, win32-x64)"@
    }
}

impl NpmTarget {
    pub fn parse(raw: &str) -> (r: Result<Self, AkError>)
        ensures
            r matches Ok(t) ==> target_spec(raw@) == Some(target_view(t)),
            r matches Err(e) ==> target_spec(raw@) is None && e is ConfigError && e.msg()
                == target_error(raw@),
    {
        let v = chars_of(raw);
        let s = trim_chars(&v);
        if s.len() == 0 {
            return Err(AkError::ConfigError(String::from_str("Empty --target")));
        }
        let parts = split_char_chars(&s, '-');
        if parts.len() == 2 {
            assert(views(parts@)[0] == parts@[0]@);
            assert(views(parts@)[1] == parts@[1]@);
            Ok(NpmTarget {
                os: string_of(&parts[0]),
                cpu: string_of(&parts[1]),
                libc: None,
                label: string_of(&s),
            })
        } else if parts.len() == 3 {
            assert(views(parts@)[0] == parts@[0]@);
            assert(views(parts@)[1] == parts@[1]@);
            assert(views(parts@)[2] == parts@[2]@);
            Ok(NpmTarget {
                os: string_of(&parts[0]),
                cpu: string_of(&parts[1]),
                libc: Some(string_of(&parts[2])),
                label: string_of(&s),
            })
        } else {
            let mut msg = chars_of("Invalid --target '");
            append_chars(&mut msg, &s);
            append_str(
                &mut msg,
                "' (expected OS-CPU or OS-CPU-LIBC, e.g. linux-x64, linux-arm64-musl, darwin-arm64, win32-x64)",
            );
            Err(AkError::ConfigError(string_of(&msg)))
        }
    }
}

/// The non-empty trimmed comma-separated items of every raw value, in order.
pub open spec fn comma_items(raw: Seq<Seq<char>>) -> Seq<Seq<char>>
    decreases raw.len(),
{
    if raw.len() == 0 {
        seq![]
    } else {
        comma_items(raw.drop_last()) + crate::text::nonempty_pieces(
            split_char(raw.last(), ',').map_values(|p: Seq<char>| trim(p)),
        )
    }
}


/// The trimmed, non-empty comma-separated items of `raw`, in order.
pub fn split_comma_items(raw: &[String]) -> (r: Vec<Vec<char>>)
    ensures
        views(r@) == comma_items(strs(raw@)),
{
    let ghost rs = strs(raw@);
    let mut out: Vec<Vec<char>> = Vec::new();
    let mut i: usize = 0;
    while i < raw.len()
        invariant
            i <= raw.len(),
            rs == strs(raw@),
            views(out@) == comma_items(rs.take(i as int)),
        decreases raw.len() - i,
    {
        assert(rs.take(i + 1).drop_last() =~= rs.take(i as int));
        assert(rs[i as int] == raw@[i as int]@);
        let v = chars_of(raw[i].as_str());
        let parts = split_char_chars(&v, ',');
        let mut trimmed: Vec<Vec<char>> = Vec::new();
        let mut k: usize = 0;
        while k < parts.len()
            invariant
                k <= parts.len(),
                views(trimmed@) == views(parts@).take(k as int).map_values(|p: Seq<char>| trim(p)),
            decreases parts.len() - k,
        {
            assert(views(parts@)[k as int] == parts@[k as int]@);
            let t = trim_chars(&parts[k]);
            let ghost before = views(trimmed@);
            trimmed.push(t);
            assert(views(trimmed@) =~= before.push(trim(views(parts@)[k as int])));
            k = k + 1;
            assert(views(trimmed@) =~= views(parts@).take(k as int).map_values(
                |p: Seq<char>| trim(p),
            ));
        }
        assert(views(parts@).take(parts.len() as int) =~= views(parts@));
        let kept = crate::text::keep_nonempty(&trimmed);
        let ghost before_out = views(out@);
        let mut j: usize = 0;
        while j < kept.len()
            invariant
                j <= kept.len(),
                views(out@) == before_out + views(kept@).take(j as int),
            decreases kept.len() - j,
        {
            let w = crate::text::copy_chars(&kept[j]);
            let ghost b = views(out@);
            out.push(w);
            assert(views(kept@)[j as int] == kept@[j as int]@);
            assert(views(out@) =~= b.push(views(kept@)[j as int]));
            j = j + 1;
            assert(views(out@) =~= before_out + views(kept@).take(j as int));
        }
        assert(views(kept@).take(kept.len() as int) =~= views(kept@));
        i = i + 1;
    }
    assert(rs.take(raw.len() as int) =~= rs);
    out
}

/// The target views so far with `t` added unless its label is already there.
pub open spec fn add_target(
    acc: Seq<(Seq<char>, Seq<char>, Option<Seq<char>>, Seq<char>)>,
    t: (Seq<char>, Seq<char>, Option<Seq<char>>, Seq<char>),
) -> Seq<(Seq<char>, Seq<char>, Option<Seq<char>>, Seq<char>)> {
    if exists|j: int| 0 <= j < acc.len() && #[trigger] acc[j].3 == t.3 {
        acc
    } else {
        acc.push(t)
    }
}

/// Targets of the items in order, without repeated labels; `None` when some
/// item is not a valid target.
pub open spec fn targets_fold(items: Seq<Seq<char>>) -> Option<
    Seq<(Seq<char>, Seq<char>, Option<Seq<char>>, Seq<char>)>,
>
    decreases items.len(),
{
    if items.len() == 0 {
        Some(seq![])
    } else {
        match targets_fold(items.drop_last()) {
            None => None,
            Some(acc) => match target_spec(items.last()) {
                None => None,
                Some(t) => Some(add_target(acc, t)),
            },
        }
    }
}

/// Index of the first item that is not a valid target.
pub open spec fn first_bad_target(items: Seq<Seq<char>>, i: int) -> int
    decreases items.len() - i,
{
    if i < 0 || i >= items.len() {
        i
    } else if target_spec(items[i]) is None {
        i
    } else {
        first_bad_target(items, i + 1)
    }
}

pub open spec fn targets_view(ts: Seq<NpmTarget>) -> Seq<(Seq<char>, Seq<char>, Option<Seq<char>>, Seq<char>)> {
    ts.map_values(|t: NpmTarget| target_view(t))
}

proof fn lemma_fold_none_after(items: Seq<Seq<char>>, i: int)
    requires
        0 <= i < items.len(),
        target_spec(items[i]) is None,
    ensures
        targets_fold(items) is None,
    decreases items.len(),
{
    if i < items.len() - 1 {
        lemma_fold_none_after(items.drop_last(), i);
    }
}

/// Whether some target in the list has this label.
fn has_label(ts: &Vec<NpmTarget>, label: &String) -> (b: bool)
    ensures
        b == exists|j: int| 0 <= j < ts@.len() && #[trigger] targets_view(ts@)[j].3 == label@,
{
    let mut i: usize = 0;
    while i < ts.len()
        invariant
            i <= ts.len(),
            forall|j: int| 0 <= j < i ==> #[trigger] targets_view(ts@)[j].3 != label@,
        decreases ts.len() - i,
    {
        if ts[i].label == *label {
            assert(targets_view(ts@)[i as int].3 == label@);
            return true;
        }
        i = i + 1;
    }
    false
}

/// Targets from repeated / comma-separated `--target` values: each item
/// parsed, duplicates (by label) dropped, first occurrence kept; the error of
/// the first invalid item otherwise.
pub fn parse_npm_targets(raw: &[String]) -> (r: Result<Vec<NpmTarget>, AkError>)
    ensures
        r matches Ok(ts) ==> targets_fold(comma_items(strs(raw@))) == Some(targets_view(ts@)),
        r matches Err(e) ==> targets_fold(comma_items(strs(raw@))) is None && e is ConfigError
            && e.msg() == target_error(
            comma_items(strs(raw@))[first_bad_target(comma_items(strs(raw@)), 0)],
        ),
{
    let items = split_comma_items(raw);
    let ghost iv = views(items@);
    let mut out: Vec<NpmTarget> = Vec::new();
    let mut i: usize = 0;
    assert(iv.take(0) =~= Seq::<Seq<char>>::empty());
    while i < items.len()
        invariant
            i <= items.len(),
            iv == views(items@),
            iv == comma_items(strs(raw@)),
            targets_fold(iv.take(i as int)) == Some(targets_view(out@)),
            forall|k: int| 0 <= k < i ==> target_spec(#[trigger] iv[k]) is Some,
        decreases items.len() - i,
    {
        assert(iv[i as int] == items@[i as int]@);
        assert(iv.take(i + 1).drop_last() =~= iv.take(i as int));
        let s = string_of(&items[i]);
        match NpmTarget::parse(s.as_str()) {
            Ok(t) => {
                if !has_label(&out, &t.label) {
                    let ghost before = targets_view(out@);
                    out.push(t);
                    assert(targets_view(out@) =~= before.push(target_view(t)));
                }
            },
            Err(e) => {
                proof {
                    lemma_fold_none_after(iv, i as int);
                    lemma_first_bad(iv, 0, i as int);
                }
                return Err(e);
            },
        }
        i = i + 1;
    }
    assert(iv.take(items.len() as int) =~= iv);
    Ok(out)
}

proof fn lemma_first_bad(items: Seq<Seq<char>>, start: int, i: int)
    requires
        0 <= start <= i < items.len(),
        target_spec(items[i]) is None,
        forall|k: int| 0 <= k < i ==> target_spec(#[trigger] items[k]) is Some,
    ensures
        first_bad_target(items, start) == i,
    decreases i - start,
{
    if start < i {
        lemma_first_bad(items, start + 1, i);
    }
}

/// Folder name of an npm package: leading `@`s dropped, `/` becomes `-`.
pub open spec fn npm_folder_name(name: Seq<char>) -> Seq<char> {
    replace_char(trim_start_char(name, '@'), '/', "-"@)
}

pub fn sanitize_name(name: &str) -> (r: String)
    ensures
        r@ == npm_folder_name(name@),
{
    let v = chars_of(name);
    let t = trim_start_char_chars(&v, '@');
    let r = replace_char_chars(&t, '/', "-");
    string_of(&r)
}

/// A pinned npm version: non-empty after trimming, no range characters
/// (`^ ~ * > < | x X` or space), not `latest` (any case).
pub open spec fn exact_npm_version(v: Seq<char>) -> bool {
    let t = trim(v);
    t.len() > 0 && !has_any(t, "^~*><| xX"@) && lower_str(t) != "latest"@
}

pub fn is_exact_npm_version(v: &str) -> (b: bool)
    ensures
        b == exact_npm_version(v@),
{
    let c = chars_of(v);
    let t = trim_chars(&c);
    let lt = lower_chars(&t);
    t.len() > 0 && !has_any_chars(&t, "^~*><| xX") && !chars_eq_str(&lt, "latest")
}

/// `%2F` / `%2f` decoded to `/` (scoped names in resolved URLs).
pub open spec fn percent_decoded(s: Seq<char>) -> Seq<char> {
    replace_str(replace_str(s, "%2F"@, "/"@), "%2f"@, "/"@)
}

pub fn percent_decode_npm(s: &str) -> (r: String)
    ensures
        r@ == percent_decoded(s@),
{
    proof {
        reveal_strlit("%2F");
        reveal_strlit("%2f");
    }
    let v = chars_of(s);
    let a = replace_str_chars(&v, "%2F", "/");
    let b = replace_str_chars(&a, "%2f", "/");
    string_of(&b)
}

/// The URL without its query and fragment (text before the first `?` or `#`).
pub open spec fn url_base(url: Seq<char>) -> Seq<char> {
    crate::text::before_char(crate::text::before_char(url, '?'), '#')
}

/// (name, version) of a resolved registry tarball URL
/// `scheme://host/{name}/-/{unscoped}-{version}.tgz`.
pub open spec fn tarball_resolved(url: Seq<char>) -> Option<(Seq<char>, Seq<char>)> {
    match split_once(url_base(url), "://"@) {
        Some((_, after_scheme)) => match split_once(after_scheme, "/"@) {
            Some((_, path)) => match split_once(path, "/-/"@) {
                Some((name_part, file_part)) => {
                    let name = percent_decoded(name_part);
                    match strip_suffix(file_part, ".tgz"@) {
                        Some(file) => {
                            let unscoped = after_last_char(name, '/');
                            match strip_prefix(file, unscoped + "-"@) {
                                Some(version) => if version.len() == 0 {
                                    None
                                } else {
                                    Some((name, version))
                                },
                                None => None,
                            }
                        },
                        None => None,
                    }
                },
                None => None,
            },
            None => None,
        },
        None => None,
    }
}

/// The text before the first `?` or `#` (`split(['?', '#']).next()`).
fn url_base_chars(v: &Vec<char>) -> (r: Vec<char>)
    ensures
        r@ == url_base(v@),
{
    let a = crate::text::before_char_chars(v, '?');
    crate::text::before_char_chars(&a, '#')
}

/// Parse `https://registry…/string-width/-/string-width-4.2.3.tgz` or scoped
/// `…/@scope/pkg/-/pkg-1.0.0.tgz` into (name, version).
pub fn parse_npm_tarball_resolved(url: &str) -> (r: Option<(String, String)>)
    ensures
        r matches Some((n, v)) ==> tarball_resolved(url@) == Some((n@, v@)),
        r is None ==> tarball_resolved(url@) is None,
{
    let u0 = chars_of(url);
    let u = url_base_chars(&u0);
    let (_, after_scheme) = match split_once_str(&u, "://") {
        Some(p) => p,
        None => return None,
    };
    let (_, path) = match split_once_str(&after_scheme, "/") {
        Some(p) => p,
        None => return None,
    };
    let (name_part, file_part) = match split_once_str(&path, "/-/") {
        Some(p) => p,
        None => return None,
    };
    let nps = string_of(&name_part);
    let name_s = percent_decode_npm(nps.as_str());
    let name = chars_of(name_s.as_str());
    let file = match strip_suffix_str(&file_part, ".tgz") {
        Some(f) => f,
        None => return None,
    };
    let mut unscoped = after_last_char_chars(&name, '/');
    append_str(&mut unscoped, "-");
    let version = match crate::text::starts_with_chars(&file, &unscoped) {
        true => {
            let v = crate::text::slice_of(&file, unscoped.len(), file.len());
            assert(v@ =~= file@.skip(unscoped@.len() as int));
            v
        },
        false => return None,
    };
    if version.len() == 0 {
        return None;
    }
    Some((name_s, string_of(&version)))
}

/// The input is read as a `package.json` when its file name is
/// `package.json` (any case) or its text starts with `{` after leading
/// whitespace.
pub open spec fn npm_input_is_package_json(file_name: Seq<char>, text: Seq<char>) -> bool {
    lower_str(file_name) == "package.json"@ || starts_with(trim_start(text), "{"@)
}

pub fn is_package_json_input(file_name: &str, text: &str) -> (b: bool)
    ensures
        b == npm_input_is_package_json(file_name@, text@),
{
    let n = chars_of(file_name);
    let ln = lower_chars(&n);
    let t = chars_of(text);
    let ts = trim_start_chars(&t);
    chars_eq_str(&ln, "package.json") || starts_with_str(&ts, "{")
}

/// The roots of a `package.json`: every entry of `dependencies`, then every
/// entry of `optionalDependencies`, as (name, version when a string).
pub fn package_json_roots(
    dependencies: &Vec<(String, Option<String>)>,
    optional: &Vec<(String, Option<String>)>,
) -> (r: Vec<RootSpec>)
    ensures
        roots_view(r@) == dependencies@.map_values(
            |d: (String, Option<String>)| (d.0@, opt_view(d.1)),
        ) + optional@.map_values(|d: (String, Option<String>)| (d.0@, opt_view(d.1))),
{
    let mut out: Vec<RootSpec> = Vec::new();
    let mut i: usize = 0;
    while i < dependencies.len()
        invariant
            i <= dependencies.len(),
            roots_view(out@) == dependencies@.take(i as int).map_values(
                |d: (String, Option<String>)| (d.0@, opt_view(d.1)),
            ),
        decreases dependencies.len() - i,
    {
        let (n, v) = &dependencies[i];
        let ghost before = roots_view(out@);
        out.push(RootSpec { name: n.clone(), version: crate::manifest::clone_opt(v) });
        assert(roots_view(out@) =~= before.push((n@, opt_view(*v))));
        i = i + 1;
        assert(roots_view(out@) =~= dependencies@.take(i as int).map_values(
            |d: (String, Option<String>)| (d.0@, opt_view(d.1)),
        ));
    }
    assert(dependencies@.take(dependencies.len() as int) =~= dependencies@);
    let ghost first = roots_view(out@);
    let mut j: usize = 0;
    while j < optional.len()
        invariant
            j <= optional.len(),
            roots_view(out@) == first + optional@.take(j as int).map_values(
                |d: (String, Option<String>)| (d.0@, opt_view(d.1)),
            ),
        decreases optional.len() - j,
    {
        let (n, v) = &optional[j];
        let ghost before = roots_view(out@);
        out.push(RootSpec { name: n.clone(), version: crate::manifest::clone_opt(v) });
        assert(roots_view(out@) =~= before.push((n@, opt_view(*v))));
        j = j + 1;
        assert(roots_view(out@) =~= first + optional@.take(j as int).map_values(
            |d: (String, Option<String>)| (d.0@, opt_view(d.1)),
        ));
    }
    assert(optional@.take(optional.len() as int) =~= optional@);
    out
}

/// The npm program: `npm.cmd` on Windows, `npm` elsewhere.
pub fn npm_program(windows: bool) -> (r: &'static str)
    ensures
        windows ==> r@ == "npm.cmd"@,
        !windows ==> r@ == "npm"@,
{
    if windows {
        "npm.cmd"
    } else {
        "npm"
    }
}

// ---------------------------------------------------------------------------
// The installed tree (`npm ls --all --json`)
// ---------------------------------------------------------------------------

/// One dependency node of the installed tree, visited in tree order (each
/// node before its own dependencies).
#[derive(Debug, Clone)]
pub struct NpmLsEntry {
    /// The key under which the parent lists it (an alias for aliased packages).
    pub logical_name: String,
    pub version: Option<String>,
    /// The tarball URL it was installed from.
    pub resolved: Option<String>,
}

/// The registry identity a node is packed under: from its `resolved` tarball
/// URL when that parses (so aliases pack the real package), else its logical
/// name and version; nothing for a node without a version.
pub open spec fn ls_identity(e: NpmLsEntry) -> Option<(Seq<char>, Seq<char>)> {
    match e.version {
        Some(v) => Some(
            match e.resolved {
                Some(r) => match tarball_resolved(r@) {
                    Some(p) => p,
                    None => (e.logical_name@, v@),
                },
                None => (e.logical_name@, v@),
            },
        ),
        None => None,
    }
}

/// The identities of the nodes, in tree order.
pub open spec fn ls_pairs(es: Seq<NpmLsEntry>) -> Seq<(Seq<char>, Seq<char>)>
    decreases es.len(),
{
    if es.len() == 0 {
        seq![]
    } else {
        let r = ls_pairs(es.drop_last());
        match ls_identity(es.last()) {
            Some(p) => r.push(p),
            None => r,
        }
    }
}

/// The packages of an installed tree: each identity once, in increasing
/// (name, version) order.
pub fn installed_packages(entries: &Vec<NpmLsEntry>) -> (r: Vec<(String, String)>)
    ensures
        crate::expand::strictly_sorted(crate::expand::pairs_view(r@)),
        crate::expand::pairs_view(r@).to_set() == ls_pairs(entries@).to_set(),
{
    let mut walked: Vec<(String, String)> = Vec::new();
    let mut i: usize = 0;
    while i < entries.len()
        invariant
            i <= entries.len(),
            crate::expand::pairs_view(walked@) == ls_pairs(entries@.take(i as int)),
        decreases entries.len() - i,
    {
        assert(entries@.take(i + 1).drop_last() =~= entries@.take(i as int));
        assert(entries@.take(i + 1).last() == entries@[i as int]);
        let e = &entries[i];
        let ghost before = crate::expand::pairs_view(walked@);
        match &e.version {
            Some(v) => {
                let from_url = match &e.resolved {
                    Some(r) => parse_npm_tarball_resolved(r.as_str()),
                    None => None,
                };
                let pair = match from_url {
                    Some(p) => p,
                    None => (e.logical_name.clone(), v.clone()),
                };
                walked.push(pair);
                assert(crate::expand::pairs_view(walked@) =~= before.push(ls_identity(entries@[i as int]).unwrap()));
            },
            None => {},
        }
        i = i + 1;
    }
    assert(entries@.take(entries.len() as int) =~= entries@);
    crate::expand::sorted_unique(&walked)
}

/// The target with this label, if the job has one.
pub fn target_by_label(targets: &Vec<NpmTarget>, label: &str) -> (r: Option<NpmTarget>)
    ensures
        r matches Some(t) ==> t.label@ == label@ && exists|i: int| 0 <= i < targets@.len() && #[trigger] targets@[i] == t,
        r is None ==> forall|i: int| 0 <= i < targets@.len() ==> (#[trigger] targets@[i]).label@ != label@,
{
    let lv = chars_of(label);
    let mut i: usize = 0;
    while i < targets.len()
        invariant
            i <= targets.len(),
            lv@ == label@,
            forall|j: int| 0 <= j < i ==> (#[trigger] targets@[j]).label@ != label@,
        decreases targets.len() - i,
    {
        let t = &targets[i];
        let tv = chars_of(t.label.as_str());
        if chars_eq(&tv, &lv) {
            let c = NpmTarget { os: t.os.clone(), cpu: t.cpu.clone(), libc: crate::manifest::clone_opt(&t.libc), label: t.label.clone() };
            assert(c == targets@[i as int]);
            return Some(c);
        }
        i = i + 1;
    }
    None
}

/// The extra `npm install` arguments of a pass: `--os`, `--cpu` (and
/// `--libc`) for a target, `--target` with the normalized Node version.
pub open spec fn install_flags_spec(target: Option<(Seq<char>, Seq<char>, Option<Seq<char>>)>, node: Option<Seq<char>>) -> Seq<Seq<char>> {
    (match target {
        Some((os, cpu, libc)) => seq!["--os"@, os, "--cpu"@, cpu] + (match libc {
            Some(l) => seq!["--libc"@, l],
            None => seq![],
        }),
        None => seq![],
    }) + (match node {
        Some(n) => seq!["--target"@, crate::cache::node_target(n)],
        None => seq![],
    })
}

pub fn install_flags(target: Option<&NpmTarget>, node: Option<&str>) -> (r: Vec<String>)
    ensures
        strs(r@) == install_flags_spec(
            match target {
                Some(t) => Some((t.os@, t.cpu@, opt_view(t.libc))),
                None => None,
            },
            crate::config::opt_str(node),
        ),
{
    let mut out: Vec<String> = Vec::new();
    match target {
        Some(t) => {
            out.push(String::from_str("--os"));
            out.push(t.os.clone());
            out.push(String::from_str("--cpu"));
            out.push(t.cpu.clone());
            match &t.libc {
                Some(l) => {
                    out.push(String::from_str("--libc"));
                    out.push(l.clone());
                },
                None => {},
            }
        },
        None => {},
    }
    let ghost mid = strs(out@);
    match node {
        Some(n) => {
            out.push(String::from_str("--target"));
            out.push(crate::cache::normalize_node_target(n));
            assert(strs(out@) =~= mid + seq!["--target"@, crate::cache::node_target(n@)]);
        },
        None => {
            assert(strs(out@) =~= mid + Seq::<Seq<char>>::empty());
        },
    }
    assert(strs(out@) =~= install_flags_spec(
        match target {
            Some(t) => Some((t.os@, t.cpu@, opt_view(t.libc))),
            None => None,
        },
        crate::config::opt_str(node),
    ));
    out
}

/// The tarball `npm pack` reports: the last output line ending in `.tgz`,
/// trimmed; empty when there is none.
pub open spec fn packed_name(out: Seq<Seq<char>>) -> Seq<char>
    decreases out.len(),
{
    if out.len() == 0 {
        Seq::empty()
    } else if crate::text::ends_with(out.last(), ".tgz"@) {
        trim(out.last())
    } else {
        packed_name(out.drop_last())
    }
}

pub fn packed_tgz_name(stdout: &str) -> (r: String)
    ensures
        r@ == packed_name(crate::text::lines(stdout@)),
{
    let v = chars_of(stdout);
    let ls = crate::text::lines_chars(&v);
    let ghost lv = views(ls@);
    let mut n: usize = ls.len();
    assert(lv.take(n as int) =~= lv);
    while n > 0
        invariant
            n <= ls.len(),
            lv == views(ls@),
            lv == crate::text::lines(stdout@),
            packed_name(lv) == packed_name(lv.take(n as int)),
        decreases n,
    {
        assert(lv.take(n as int).drop_last() =~= lv.take(n - 1));
        assert(lv.take(n as int).last() == ls@[n - 1]@);
        if crate::text::ends_with_str(&ls[n - 1], ".tgz") {
            let t = trim_chars(&ls[n - 1]);
            return string_of(&t);
        }
        n = n - 1;
    }
    String::new()
}

/// The hint an `npm install` failure message carries: ` target={label}`
/// and ` node={node}` for the choices of the pass.
pub fn install_failure_hint(target_label: Option<&str>, node: Option<&str>) -> (r: String)
    ensures
        r@ == (match target_label {
            Some(l) => " target="@ + l@,
            None => Seq::<char>::empty(),
        }) + (match node {
            Some(n) => " node="@ + n@,
            None => Seq::<char>::empty(),
        }),
{
    let mut v: Vec<char> = Vec::new();
    match target_label {
        Some(l) => {
            append_str(&mut v, " target=");
            append_str(&mut v, l);
        },
        None => {},
    }
    match node {
        Some(n) => {
            append_str(&mut v, " node=");
            append_str(&mut v, n);
        },
        None => {},
    }
    string_of(&v)
}

// ---------------------------------------------------------------------------
// JSON read from `package.json` and npm's output
// ---------------------------------------------------------------------------

/// The members of the object `key` of a `package.json`, as (name, version
/// when the value is a string); none when `key` is not an object.
pub open spec fn json_section(v: JsonValue, key: Seq<char>) -> Seq<(Seq<char>, Option<Seq<char>>)> {
    match json_get(v, key) {
        Some(JsonValue::Object(es)) => es@.map_values(|e: (String, JsonValue)| (e.0@, json_str(Some(e.1)))),
        _ => Seq::empty(),
    }
}

fn section_of(v: &JsonValue, key: &str) -> (r: Vec<(String, Option<String>)>)
    ensures
        r@.map_values(|d: (String, Option<String>)| (d.0@, opt_view(d.1))) == json_section(*v, key@),
{
    let mut out: Vec<(String, Option<String>)> = Vec::new();
    match json_get_ref(v, key) {
        Some(JsonValue::Object(es)) => {
            let mut i: usize = 0;
            while i < es.len()
                invariant
                    i <= es.len(),
                    out@.map_values(|d: (String, Option<String>)| (d.0@, opt_view(d.1))) == es@.take(i as int).map_values(
                        |e: (String, JsonValue)| (e.0@, json_str(Some(e.1))),
                    ),
                decreases es.len() - i,
            {
                let ghost before = out@.map_values(|d: (String, Option<String>)| (d.0@, opt_view(d.1)));
                let ver = match &es[i].1 {
                    JsonValue::Str(s) => Some(s.clone()),
                    _ => None,
                };
                assert(opt_view(ver) == json_str(Some(es@[i as int].1)));
                out.push((es[i].0.clone(), ver));
                assert(out@.map_values(|d: (String, Option<String>)| (d.0@, opt_view(d.1))) =~= before.push(
                    (es@[i as int].0@, json_str(Some(es@[i as int].1))),
                ));
                assert(es@.take(i + 1) =~= es@.take(i as int).push(es@[i as int]));
                assert(out@.map_values(|d: (String, Option<String>)| (d.0@, opt_view(d.1))) =~= es@.take(i + 1).map_values(
                    |e: (String, JsonValue)| (e.0@, json_str(Some(e.1))),
                ));
                i = i + 1;
            }
            assert(es@.take(es.len() as int) =~= es@);
        },
        _ => {
            assert(out@.map_values(|d: (String, Option<String>)| (d.0@, opt_view(d.1))) =~= Seq::empty());
        },
    }
    out
}

/// The roots of a `package.json`: its `dependencies`, then its
/// `optionalDependencies`; an error when the text is not JSON.
pub fn parse_package_json_deps(text: &str) -> (r: Result<Vec<RootSpec>, AkError>)
    ensures
        r is Ok == json_of(text@) is Ok,
        r matches Ok(v) ==> (json_of(text@) matches Ok(j) && roots_view(v@) == json_section(j, "dependencies"@)
            + json_section(j, "optionalDependencies"@)),
        r matches Err(e) ==> (json_of(text@) matches Err(m) && e is ConfigError && e.msg() == "Invalid package.json: "@
            + m),
{
    match json_parse(text) {
        Ok(v) => {
            let deps = section_of(&v, "dependencies");
            let opt = section_of(&v, "optionalDependencies");
            Ok(package_json_roots(&deps, &opt))
        },
        Err(m) => {
            let mut e = chars_of("Invalid package.json: ");
            append_str(&mut e, m.as_str());
            Err(AkError::ConfigError(string_of(&e)))
        },
    }
}

/// The string members of an array, in order.
pub open spec fn json_strings(a: Seq<JsonValue>) -> Seq<Seq<char>> {
    a.filter_map(|x: JsonValue| json_str(Some(x)))
}

/// The versions `npm view {name} versions --json` printed: an array's
/// strings, or the one string; other JSON is an error, and so is output
/// that is not JSON.
pub open spec fn npm_versions_spec(out: Result<JsonValue, Seq<char>>, name: Seq<char>) -> Result<Seq<Seq<char>>, Seq<char>> {
    match out {
        Err(m) => Err("Invalid npm view versions JSON for "@ + name + ": "@ + m),
        Ok(JsonValue::Array(a)) => Ok(json_strings(a@)),
        Ok(JsonValue::Str(s)) => Ok(seq![s@]),
        Ok(other) => Err("Unexpected npm view versions shape for "@ + name + ": "@ + json_text(other)),
    }
}

pub fn npm_versions_of(stdout: &Vec<u8>, name: &str) -> (r: Result<Vec<String>, AkError>)
    ensures
        match r {
            Ok(vs) => npm_versions_spec(json_of_bytes(stdout@), name@) == Ok::<Seq<Seq<char>>, Seq<char>>(strs(vs@)),
            Err(e) => e is ConfigError && npm_versions_spec(json_of_bytes(stdout@), name@) == Err::<Seq<Seq<char>>, Seq<char>>(
                e.msg(),
            ),
        },
{
    match json_parse_bytes(stdout) {
        Err(m) => {
            let mut e = chars_of("Invalid npm view versions JSON for ");
            append_str(&mut e, name);
            append_str(&mut e, ": ");
            append_str(&mut e, m.as_str());
            Err(AkError::ConfigError(string_of(&e)))
        },
        Ok(v) => match v {
            JsonValue::Array(a) => {
                let ghost f = |x: JsonValue| json_str(Some(x));
                let mut out: Vec<String> = Vec::new();
                let mut i: usize = 0;
                while i < a.len()
                    invariant
                        i <= a.len(),
                        f == (|x: JsonValue| json_str(Some(x))),
                        strs(out@) == a@.take(i as int).filter_map(f),
                    decreases a.len() - i,
                {
                    proof {
                        a@.lemma_filter_map_take_succ(f, i as int);
                    }
                    let ghost before = strs(out@);
                    match &a[i] {
                        JsonValue::Str(s) => {
                            out.push(s.clone());
                            assert(strs(out@) =~= before.push(s@));
                        },
                        _ => {},
                    }
                    i = i + 1;
                }
                assert(a@.take(a.len() as int) =~= a@);
                Ok(out)
            },
            JsonValue::Str(s) => {
                let mut out: Vec<String> = Vec::new();
                out.push(s);
                assert(strs(out@) =~= seq![s@]);
                Ok(out)
            },
            other => {
                let t = json_to_text(&other);
                let mut e = chars_of("Unexpected npm view versions shape for ");
                append_str(&mut e, name);
                append_str(&mut e, ": ");
                append_str(&mut e, t.as_str());
                Err(AkError::ConfigError(string_of(&e)))
            },
        },
    }
}

/// The node of `npm ls --json` listed under the key `k` with value `meta`.
pub open spec fn ls_node(k: String, meta: JsonValue) -> NpmLsEntry {
    NpmLsEntry {
        logical_name: k,
        version: json_string(json_get(meta, "version"@)),
        resolved: json_string(json_get(meta, "resolved"@)),
    }
}

/// The nodes below a value of `npm ls --all --json`, in tree order: for each
/// member of its `dependencies` object, that node, then the nodes below it.
pub open spec fn ls_walk(v: JsonValue) -> Seq<NpmLsEntry>
    decreases v,
{
    match v {
        JsonValue::Object(es) => ls_deps(es@),
        _ => Seq::empty(),
    }
}

/// `ls_walk` of an object with these members: the first `dependencies`
/// member, when it is an object.
pub open spec fn ls_deps(es: Seq<(String, JsonValue)>) -> Seq<NpmLsEntry>
    decreases es,
{
    if es.len() == 0 {
        Seq::empty()
    } else if es[0].0@ == "dependencies"@ {
        match es[0].1 {
            JsonValue::Object(ds) => ls_list(ds@),
            _ => Seq::empty(),
        }
    } else {
        ls_deps(es.subrange(1, es.len() as int))
    }
}

/// The nodes of a `dependencies` object's members, each followed by the
/// nodes below it.
pub open spec fn ls_list(ds: Seq<(String, JsonValue)>) -> Seq<NpmLsEntry>
    decreases ds,
{
    if ds.len() == 0 {
        Seq::empty()
    } else {
        seq![ls_node(ds[0].0, ds[0].1)] + ls_walk(ds[0].1) + ls_list(ds.subrange(1, ds.len() as int))
    }
}

fn ls_node_of(k: &String, meta: &JsonValue) -> (r: NpmLsEntry)
    ensures
        r == ls_node(*k, *meta),
{
    let version = match json_get_ref(meta, "version") {
        Some(JsonValue::Str(s)) => Some(s.clone()),
        _ => None,
    };
    let resolved = match json_get_ref(meta, "resolved") {
        Some(JsonValue::Str(s)) => Some(s.clone()),
        _ => None,
    };
    NpmLsEntry { logical_name: k.clone(), version, resolved }
}

fn walk_value(v: &JsonValue, out: &mut Vec<NpmLsEntry>)
    ensures
        final(out)@ == old(out)@ + ls_walk(*v),
    decreases *v, 2nat, 0nat,
{
    match v {
        JsonValue::Object(es) => {
            proof {
                assert(decreases_to!(*v => es@));
            }
            walk_deps(es, 0, out);
            assert(es@.subrange(0, es.len() as int) =~= es@);
        },
        _ => {
            assert(old(out)@ + Seq::<NpmLsEntry>::empty() =~= old(out)@);
        },
    }
}

fn walk_deps(es: &Vec<(String, JsonValue)>, start: usize, out: &mut Vec<NpmLsEntry>)
    requires
        start <= es.len(),
    ensures
        final(out)@ == old(out)@ + ls_deps(es@.subrange(start as int, es.len() as int)),
    decreases es@, 1nat, es.len() - start,
{
    let ghost rest = es@.subrange(start as int, es.len() as int);
    if start == es.len() {
        assert(old(out)@ + Seq::<NpmLsEntry>::empty() =~= old(out)@);
        return;
    }
    assert(rest[0] == es@[start as int]);
    assert(rest.subrange(1, rest.len() as int) =~= es@.subrange(start + 1, es.len() as int));
    if crate::text::str_eq(es[start].0.as_str(), "dependencies") {
        proof {
            reveal_strlit("dependencies");
        }
        match &es[start].1 {
            JsonValue::Object(ds) => {
                proof {
                    assert(decreases_to!(es@ => ds@));
                }
                walk_list(ds, 0, out);
                assert(ds@.subrange(0, ds.len() as int) =~= ds@);
            },
            _ => {
                assert(old(out)@ + Seq::<NpmLsEntry>::empty() =~= old(out)@);
            },
        }
    } else {
        walk_deps(es, start + 1, out);
    }
}

fn walk_list(ds: &Vec<(String, JsonValue)>, start: usize, out: &mut Vec<NpmLsEntry>)
    requires
        start <= ds.len(),
    ensures
        final(out)@ == old(out)@ + ls_list(ds@.subrange(start as int, ds.len() as int)),
    decreases ds@, 0nat, ds.len() - start,
{
    let ghost rest = ds@.subrange(start as int, ds.len() as int);
    if start == ds.len() {
        assert(old(out)@ + Seq::<NpmLsEntry>::empty() =~= old(out)@);
        return;
    }
    assert(rest[0] == ds@[start as int]);
    assert(rest.subrange(1, rest.len() as int) =~= ds@.subrange(start + 1, ds.len() as int));
    let node = ls_node_of(&ds[start].0, &ds[start].1);
    out.push(node);
    let ghost mid = out@;
    proof {
        assert(decreases_to!(ds@ => ds@[start as int].1));
    }
    walk_value(&ds[start].1, out);
    let ghost mid2 = out@;
    walk_list(ds, start + 1, out);
    assert(out@ =~= old(out)@ + ls_list(rest));
}

/// The installed packages of an `npm ls --all --json` output: the nodes of
/// its tree (none when it is not JSON), each identity once, in increasing
/// (name, version) order.
pub fn installed_packages_of(stdout: &Vec<u8>) -> (r: Vec<(String, String)>)
    ensures
        crate::expand::strictly_sorted(crate::expand::pairs_view(r@)),
        crate::expand::pairs_view(r@).to_set() == ls_pairs(
            match json_of_bytes(stdout@) {
                Ok(v) => ls_walk(v),
                Err(_) => Seq::empty(),
            },
        ).to_set(),
{
    let mut entries: Vec<NpmLsEntry> = Vec::new();
    match json_parse_bytes(stdout) {
        Ok(v) => {
            walk_value(&v, &mut entries);
            assert(entries@ =~= ls_walk(v));
        },
        Err(_) => {},
    }
    installed_packages(&entries)
}

} // verus!
