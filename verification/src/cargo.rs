//! Cargo / crates.io: `.crate` file names, `Cargo.lock` packages, sparse
//! index paths, version pins and the texts handed to `cargo`.
use vstd::prelude::*;

use crate::errors::AkError;
use crate::json::{json_flag, json_get, json_get_flag, json_get_ref, json_of, json_parse, json_string, JsonValue};
use crate::manifest::{opt_view, roots_view, RootSpec};
use crate::toml_doc::{toml_get, toml_get_ref, toml_member, toml_member_ref, toml_of, toml_parse, TomlValue};
use crate::text::{
    append_chars, append_str, ends_with, byte_len, byte_len_upto, char_index, char_index_at_byte, chars_eq,
    chars_eq_str, chars_of, copy_chars, has_any, has_any_chars, is_boundary, is_digit, lines,
    lines_chars, lower_chars, lower_str, prefix_bytes, slice_of, starts_with, starts_with_str,
    string_of, strip_prefix, strip_prefix_str, strip_suffix, strip_suffix_str, trim, trim_chars,
    trim_end_char, trim_end_char_chars, trim_matches_char, trim_matches_char_chars, trim_start,
    trim_start_chars, views,
};

verus! {

// ---------------------------------------------------------------------------
// `{name}-{version}` stems
// ---------------------------------------------------------------------------

/// `d` is a `-` followed by a digit.
pub open spec fn is_version_dash(s: Seq<char>, d: int) -> bool {
    0 <= d && d + 1 < s.len() && s[d] == '-' && is_digit(s[d + 1])
}

/// The last version dash below index `i`.
pub open spec fn version_dash_below(s: Seq<char>, i: int) -> Option<int>
    decreases i,
{
    if i <= 0 {
        None
    } else if is_version_dash(s, i - 1) {
        Some(i - 1)
    } else {
        version_dash_below(s, i - 1)
    }
}

/// `(name, version)` split at the last `-` that is followed by a digit.
pub open spec fn name_version(s: Seq<char>) -> Option<(Seq<char>, Seq<char>)> {
    match version_dash_below(s, s.len() as int) {
        Some(d) => Some((s.take(d), s.skip(d + 1))),
        None => None,
    }
}

proof fn lemma_version_dash_below(s: Seq<char>, i: int)
    ensures
        version_dash_below(s, i) matches Some(d) ==> d < i && is_version_dash(s, d),
    decreases i,
{
    if i > 0 && !is_version_dash(s, i - 1) {
        lemma_version_dash_below(s, i - 1);
    }
}

/// Split `{name}-{version}` where the version starts with a digit.
pub fn split_name_version(stem: &Vec<char>) -> (r: Option<(String, String)>)
    ensures
        r matches Some((n, v)) ==> name_version(stem@) == Some((n@, v@)),
        r is None ==> name_version(stem@) is None,
{
    let mut i: usize = stem.len();
    while i > 0
        invariant
            i <= stem.len(),
            version_dash_below(stem@, stem@.len() as int) == version_dash_below(stem@, i as int),
        decreases i,
    {
        let d = i - 1;
        if stem[d] == '-' && d + 1 < stem.len() && '0' <= stem[d + 1] && stem[d + 1] <= '9' {
            let n = slice_of(stem, 0, d);
            let v = slice_of(stem, d + 1, stem.len());
            assert(n@ == stem@.take(d as int));
            assert(v@ =~= stem@.skip(d + 1));
            return Some((string_of(&n), string_of(&v)));
        }
        i = d;
    }
    None
}

/// The crate name and version of a `{name}-{version}.crate` file name.
pub open spec fn crate_filename(fname: Seq<char>) -> Option<(Seq<char>, Seq<char>)> {
    match strip_suffix(fname, ".crate"@) {
        Some(stem) => name_version(stem),
        None => None,
    }
}

/// `{name}-{version}.crate` — the version starts with a digit.
pub fn parse_crate_filename(fname: &str) -> (r: Option<(String, String)>)
    ensures
        r matches Some((n, v)) ==> crate_filename(fname@) == Some((n@, v@)),
        r is None ==> crate_filename(fname@) is None,
{
    let f = chars_of(fname);
    match strip_suffix_str(&f, ".crate") {
        Some(stem) => split_name_version(&stem),
        None => None,
    }
}

/// With no version dash in `[k, i)`, the search from `i` finds what the
/// search from `k` finds.
proof fn lemma_version_dash_skip(s: Seq<char>, k: int, i: int)
    requires
        0 <= k <= i,
        forall|d: int| k <= d < i ==> !is_version_dash(s, d),
    ensures
        version_dash_below(s, i) == version_dash_below(s, k),
    decreases i - k,
{
    if i > k {
        assert(!is_version_dash(s, i - 1));
        lemma_version_dash_skip(s, k, i - 1);
    }
}

/// A version that starts with a digit and has no `-` followed by a digit.
pub open spec fn plain_crate_version(v: Seq<char>) -> bool {
    &&& v.len() > 0
    &&& is_digit(v[0])
    &&& forall|i: int| 0 <= i < v.len() - 1 && v[i] == '-' ==> !is_digit(#[trigger] v[i + 1])
}

/// `parse_crate_filename` reads back what `{name}-{version}.crate` wrote, for
/// a version that starts with a digit and has no `-` followed by a digit;
/// whatever it reads is a name and a digit-led version that spell the file
/// name; and a name without the `.crate` suffix reads as nothing.
pub proof fn lemma_crate_filename_round_trip(n: Seq<char>, v: Seq<char>, fname: Seq<char>)
    ensures
        plain_crate_version(v) ==> crate_filename(n + "-"@ + v + ".crate"@) == Some((n, v)),
        crate_filename(fname) matches Some((n2, v2)) ==> fname == n2 + "-"@ + v2 + ".crate"@ && v2.len() > 0
            && is_digit(v2[0]),
        !ends_with(fname, ".crate"@) ==> crate_filename(fname) is None,
{
    reveal_strlit("-");
    reveal_strlit(".crate");
    if plain_crate_version(v) {
        let stem = n + "-"@ + v;
        let f = stem + ".crate"@;
        assert(f.skip(f.len() - 6) =~= ".crate"@);
        assert(f.take(f.len() - 6) =~= stem);
        let k = n.len() as int;
        assert forall|d: int| k + 1 <= d < stem.len() implies !is_version_dash(stem, d) by {
            assert(stem.len() == k + 1 + v.len());
            if is_version_dash(stem, d) {
                let i = d - k - 1;
                assert(stem[d] == v[i]);
                assert(stem[d + 1] == v[i + 1]);
                assert(0 <= i < v.len() - 1 && v[i] == '-' ==> !is_digit(v[i + 1]));
            }
        }
        lemma_version_dash_skip(stem, k + 1, stem.len() as int);
        assert(stem[k] == '-');
        assert(stem[k + 1] == v[0]);
        assert(is_version_dash(stem, k));
        assert(stem.take(k) =~= n);
        assert(stem.skip(k + 1) =~= v);
    }
    if let Some(stem) = strip_suffix(fname, ".crate"@) {
        lemma_version_dash_below(stem, stem.len() as int);
        if let Some(d) = version_dash_below(stem, stem.len() as int) {
            let n2 = stem.take(d);
            let v2 = stem.skip(d + 1);
            assert(stem =~= n2 + "-"@ + v2);
            assert(fname =~= stem + ".crate"@);
            assert(v2[0] == stem[d + 1]);
        }
    }
}

/// The packages of a lock file as (name, version) pairs, in file order.
pub open spec fn lock_pairs(lock: Seq<(String, String)>) -> Seq<(Seq<char>, Seq<char>)> {
    lock.map_values(|p: (String, String)| (p.0@, p.1@))
}

/// The first locked package whose `{name}-{version}` is the stem of `fname`.
pub open spec fn lock_match(fname: Seq<char>, lock: Seq<(Seq<char>, Seq<char>)>) -> Option<int> {
    match strip_suffix(fname, ".crate"@) {
        Some(stem) => first_match(stem, lock, 0),
        None => None,
    }
}

pub open spec fn first_match(stem: Seq<char>, lock: Seq<(Seq<char>, Seq<char>)>, i: int) -> Option<
    int,
>
    decreases lock.len() - i,
{
    if i < 0 || i >= lock.len() {
        None
    } else if stem == lock[i].0 + "-"@ + lock[i].1 {
        Some(i)
    } else {
        first_match(stem, lock, i + 1)
    }
}

/// Identify a `.crate` file through the packages of a lock file: the first
/// package whose `{name}-{version}` is the file's stem.
pub fn infer_from_lock(fname: &str, lock: &Vec<(String, String)>) -> (r: Option<(String, String)>)
    ensures
        r matches Some((n, v)) ==> lock_match(fname@, lock_pairs(lock@)) matches Some(i) && (n@, v@)
            == lock_pairs(lock@)[i],
        r is None ==> lock_match(fname@, lock_pairs(lock@)) is None,
{
    let f = chars_of(fname);
    let stem = match strip_suffix_str(&f, ".crate") {
        Some(s) => s,
        None => return None,
    };
    let ghost lp = lock_pairs(lock@);
    let mut i: usize = 0;
    while i < lock.len()
        invariant
            i <= lock.len(),
            lp == lock_pairs(lock@),
            lock_match(fname@, lp) == first_match(stem@, lp, i as int),
        decreases lock.len() - i,
    {
        let (n, v) = &lock[i];
        let mut joined = chars_of(n.as_str());
        append_str(&mut joined, "-");
        append_str(&mut joined, v.as_str());
        assert(lp[i as int] == (n@, v@));
        if chars_eq(&stem, &joined) {
            return Some((n.clone(), v.clone()));
        }
        i = i + 1;
    }
    None
}

// ---------------------------------------------------------------------------
// Cargo.lock
// ---------------------------------------------------------------------------

/// State while reading `Cargo.lock`: packages so far, the pending name and
/// version, and whether a `[[package]]` table is open.
pub type LockState = (Seq<(Seq<char>, Seq<char>)>, Option<Seq<char>>, Option<Seq<char>>, bool);

/// The packages with the pending one added when it has both a name and a version.
pub open spec fn lock_flush(st: LockState) -> Seq<(Seq<char>, Seq<char>)> {
    match (st.1, st.2) {
        (Some(n), Some(v)) => st.0.push((n, v)),
        _ => st.0,
    }
}

/// The value of `key = "value"`: trimmed, quotes removed from both ends.
pub open spec fn toml_value(rest: Seq<char>) -> Seq<char> {
    trim_matches_char(trim(rest), '"')
}

pub open spec fn lock_step(st: LockState, raw: Seq<char>) -> LockState {
    let line = trim(raw);
    if line == "[[package]]"@ {
        (lock_flush(st), None, None, true)
    } else if !st.3 {
        st
    } else if starts_with(line, "["@) {
        (lock_flush(st), None, None, false)
    } else {
        match strip_prefix(line, "name = "@) {
            Some(rest) => (st.0, Some(toml_value(rest)), st.2, st.3),
            None => match strip_prefix(line, "version = "@) {
                Some(rest) => (st.0, st.1, Some(toml_value(rest)), st.3),
                None => st,
            },
        }
    }
}

pub open spec fn lock_fold(ls: Seq<Seq<char>>) -> LockState
    decreases ls.len(),
{
    if ls.len() == 0 {
        (seq![], None, None, false)
    } else {
        lock_step(lock_fold(ls.drop_last()), ls.last())
    }
}

/// The (name, version) of every complete `[[package]]` table, in order.
pub open spec fn lock_packages(text: Seq<char>) -> Seq<(Seq<char>, Seq<char>)> {
    lock_flush(lock_fold(lines(text)))
}

/// A quoted TOML string value `"s"`.
pub open spec fn quoted(s: Seq<char>) -> Seq<char> {
    "\""@ + s + "\""@
}

/// The lines of one `[[package]]` table: its header, `name = "…"` and
/// `version = "…"`.
pub open spec fn package_table(name: Seq<char>, version: Seq<char>) -> Seq<Seq<char>> {
    seq!["[[package]]"@, "name = "@ + quoted(name), "version = "@ + quoted(version)]
}

/// The lines of `[[package]]` tables, one for each (name, version) pair, in
/// order and separated by a blank line, as `Cargo.lock` writes them.
pub open spec fn package_tables(ps: Seq<(Seq<char>, Seq<char>)>) -> Seq<Seq<char>>
    decreases ps.len(),
{
    if ps.len() == 0 {
        seq![]
    } else if ps.len() == 1 {
        package_table(ps[0].0, ps[0].1)
    } else {
        package_tables(ps.drop_last()) + seq![Seq::<char>::empty()] + package_table(ps.last().0, ps.last().1)
    }
}

/// A name or version as `Cargo.lock` quotes it: not empty, and neither
/// starting nor ending with a quote.
pub open spec fn lock_value(s: Seq<char>) -> bool {
    s.len() > 0 && s[0] != '"' && s.last() != '"'
}

proof fn lemma_toml_value_quoted(s: Seq<char>)
    requires
        lock_value(s),
    ensures
        toml_value(quoted(s)) == s,
{
    reveal_strlit("\"");
    let q = quoted(s);
    assert(q[0] == '"');
    assert(q.last() == '"');
    crate::text::lemma_trim_unchanged(q);
    assert(q.drop_first() =~= s + "\""@);
    assert((s + "\""@)[0] == s[0]);
    assert(crate::text::trim_start_char(s + "\""@, '"') == s + "\""@);
    assert(crate::text::trim_start_char(q, '"') == crate::text::trim_start_char(q.drop_first(), '"'));
    assert((s + "\""@).drop_last() =~= s);
    assert((s + "\""@).last() == '"');
    assert(crate::text::trim_end_char(s, '"') == s);
    assert(crate::text::trim_end_char(s + "\""@, '"') == crate::text::trim_end_char(s, '"'));
}

proof fn lemma_lock_table_step(st: LockState, n: Seq<char>, v: Seq<char>)
    requires
        lock_value(n),
        lock_value(v),
    ensures
        lock_step(lock_step(lock_step(st, "[[package]]"@), "name = "@ + quoted(n)), "version = "@ + quoted(v)) == (
            lock_flush(st),
            Some(n),
            Some(v),
            true,
        ),
{
    reveal_strlit("[[package]]");
    reveal_strlit("name = ");
    reveal_strlit("version = ");
    reveal_strlit("[");
    reveal_strlit("\"");
    crate::text::lemma_trim_unchanged("[[package]]"@);
    let nl = "name = "@ + quoted(n);
    let vl = "version = "@ + quoted(v);
    assert(nl[0] == 'n');
    assert(nl.last() == '"');
    assert(vl[0] == 'v');
    assert(vl.last() == '"');
    crate::text::lemma_trim_unchanged(nl);
    crate::text::lemma_trim_unchanged(vl);
    assert(nl != "[[package]]"@);
    assert(vl != "[[package]]"@);
    assert(!starts_with(nl, "["@)) by {
        assert(nl.take(1)[0] == nl[0]);
    }
    assert(!starts_with(vl, "["@)) by {
        assert(vl.take(1)[0] == vl[0]);
    }
    assert(nl.take(7) =~= "name = "@);
    assert(nl.skip(7) =~= quoted(n));
    assert(!starts_with(vl, "name = "@)) by {
        assert(vl.take(7)[0] == vl[0]);
    }
    assert(vl.take(10) =~= "version = "@);
    assert(vl.skip(10) =~= quoted(v));
    lemma_toml_value_quoted(n);
    lemma_toml_value_quoted(v);
}

proof fn lemma_lock_fold_append(ls: Seq<Seq<char>>, more: Seq<Seq<char>>)
    ensures
        more.len() == 1 ==> lock_fold(ls + more) == lock_step(lock_fold(ls), more[0]),
{
    if more.len() == 1 {
        assert((ls + more).drop_last() =~= ls);
        assert((ls + more).last() == more[0]);
    }
}

proof fn lemma_lock_fold_table(ls: Seq<Seq<char>>, n: Seq<char>, v: Seq<char>)
    requires
        lock_value(n),
        lock_value(v),
    ensures
        lock_fold(ls + package_table(n, v)) == (lock_flush(lock_fold(ls)), Some(n), Some(v), true),
{
    let t = package_table(n, v);
    lemma_lock_fold_append(ls, seq![t[0]]);
    lemma_lock_fold_append(ls + seq![t[0]], seq![t[1]]);
    lemma_lock_fold_append(ls + seq![t[0]] + seq![t[1]], seq![t[2]]);
    assert(ls + seq![t[0]] + seq![t[1]] + seq![t[2]] =~= ls + t);
    lemma_lock_table_step(lock_fold(ls), n, v);
}

proof fn lemma_lock_fold_tables(ps: Seq<(Seq<char>, Seq<char>)>)
    requires
        ps.len() > 0,
        forall|i: int| 0 <= i < ps.len() ==> lock_value((#[trigger] ps[i]).0) && lock_value(ps[i].1),
    ensures
        lock_fold(package_tables(ps)) == (ps.drop_last(), Some(ps.last().0), Some(ps.last().1), true),
    decreases ps.len(),
{
    assert(lock_value(ps[ps.len() - 1].0) && lock_value(ps[ps.len() - 1].1));
    if ps.len() == 1 {
        let e = Seq::<Seq<char>>::empty();
        assert(e + package_table(ps[0].0, ps[0].1) =~= package_tables(ps));
        lemma_lock_fold_table(e, ps[0].0, ps[0].1);
        assert(ps.drop_last() =~= Seq::<(Seq<char>, Seq<char>)>::empty());
    } else {
        let init = ps.drop_last();
        assert forall|i: int| 0 <= i < init.len() implies lock_value((#[trigger] init[i]).0) && lock_value(init[i].1) by {
            assert(init[i] == ps[i]);
        }
        lemma_lock_fold_tables(init);
        let before = package_tables(init) + seq![Seq::<char>::empty()];
        lemma_lock_fold_append(package_tables(init), seq![Seq::<char>::empty()]);
        // a blank line inside a table changes nothing
        crate::text::lemma_trim_unchanged(Seq::<char>::empty());
        reveal_strlit("[[package]]");
        reveal_strlit("[");
        reveal_strlit("name = ");
        reveal_strlit("version = ");
        assert(lock_fold(before) == lock_fold(package_tables(init)));
        lemma_lock_fold_table(before, ps.last().0, ps.last().1);
        assert(before + package_table(ps.last().0, ps.last().1) =~= package_tables(ps));
        assert(init.drop_last().push(init.last()) =~= init);
    }
}

/// A `Cargo.lock` made of complete `[[package]]` tables, each with one
/// `name` and one `version`, gives exactly their (name, version) pairs, in
/// order: one for every table.
pub proof fn lemma_lock_packages_tables(text: Seq<char>, ps: Seq<(Seq<char>, Seq<char>)>)
    requires
        lines(text) == package_tables(ps),
        forall|i: int| 0 <= i < ps.len() ==> lock_value((#[trigger] ps[i]).0) && lock_value(ps[i].1),
    ensures
        lock_packages(text) == ps,
        lock_packages(text).len() == ps.len(),
{
    if ps.len() == 0 {
        assert(lock_fold(Seq::<Seq<char>>::empty()) == (Seq::<(Seq<char>, Seq<char>)>::empty(), None::<Seq<char>>, None::<Seq<char>>, false));
    } else {
        lemma_lock_fold_tables(ps);
        assert(ps.drop_last().push(ps.last()) =~= ps);
    }
}

fn flush(out: &mut Vec<(String, String)>, name: &Option<Vec<char>>, version: &Option<Vec<char>>)
    ensures
        lock_pairs(final(out)@) == lock_flush(
            (
                lock_pairs(old(out)@),
                match name {
                    Some(n) => Some(n@),
                    None => None,
                },
                match version {
                    Some(v) => Some(v@),
                    None => None,
                },
                false,
            ),
        ),
{
    match (name, version) {
        (Some(n), Some(v)) => {
            out.push((string_of(n), string_of(v)));
            assert(lock_pairs(out@) =~= lock_pairs(old(out)@).push((n@, v@)));
        },
        _ => {},
    }
}

pub open spec fn opt_chars(o: Option<Vec<char>>) -> Option<Seq<char>> {
    match o {
        Some(v) => Some(v@),
        None => None,
    }
}

/// The packages of a `Cargo.lock` text as (name, version) pairs, in order.
pub fn parse_cargo_lock_packages(text: &str) -> (r: Vec<(String, String)>)
    ensures
        lock_pairs(r@) == lock_packages(text@),
{
    let t = chars_of(text);
    let ls = lines_chars(&t);
    let ghost lv = views(ls@);
    let mut out: Vec<(String, String)> = Vec::new();
    let mut name: Option<Vec<char>> = None;
    let mut version: Option<Vec<char>> = None;
    let mut in_package = false;
    let mut i: usize = 0;
    assert(lv.take(0) =~= Seq::<Seq<char>>::empty());
    while i < ls.len()
        invariant
            i <= ls.len(),
            lv == views(ls@),
            lv == lines(text@),
            (lock_pairs(out@), opt_chars(name), opt_chars(version), in_package) == lock_fold(
                lv.take(i as int),
            ),
        decreases ls.len() - i,
    {
        assert(lv.take(i + 1).drop_last() =~= lv.take(i as int));
        assert(lv[i as int] == ls@[i as int]@);
        let line = trim_chars(&ls[i]);
        if chars_eq_str(&line, "[[package]]") {
            flush(&mut out, &name, &version);
            name = None;
            version = None;
            in_package = true;
        } else if !in_package {
        } else if starts_with_str(&line, "[") {
            flush(&mut out, &name, &version);
            name = None;
            version = None;
            in_package = false;
        } else {
            match strip_prefix_str(&line, "name = ") {
                Some(rest) => {
                    let v = trim_chars(&rest);
                    name = Some(trim_matches_char_chars(&v, '"'));
                },
                None => match strip_prefix_str(&line, "version = ") {
                    Some(rest) => {
                        let v = trim_chars(&rest);
                        version = Some(trim_matches_char_chars(&v, '"'));
                    },
                    None => {},
                },
            }
        }
        i = i + 1;
    }
    assert(lv.take(ls.len() as int) =~= lv);
    flush(&mut out, &name, &version);
    out
}

// ---------------------------------------------------------------------------
// Sparse index, versions, texts for cargo
// ---------------------------------------------------------------------------

/// The lower-cased crate name can be cut as `sparse_index_path` cuts it (its
/// first byte, or its first two and four bytes, end on character boundaries).
pub open spec fn sparse_cuttable(name: Seq<char>) -> bool {
    let l = lower_str(name);
    &&& byte_len(l) == 3 ==> is_boundary(l, 1)
    &&& byte_len(l) >= 4 ==> is_boundary(l, 2) && is_boundary(l, 4)
}

/// crates.io sparse index path of a crate name (by byte length of the
/// lower-cased name: `1/{n}`, `2/{n}`, `3/{first}/{n}`, `{ab}/{cd}/{n}`).
pub open spec fn sparse_path(name: Seq<char>) -> Seq<char> {
    let l = lower_str(name);
    let n = byte_len(l);
    if n == 0 {
        l
    } else if n == 1 {
        "1/"@ + l
    } else if n == 2 {
        "2/"@ + l
    } else if n == 3 {
        "3/"@ + prefix_bytes(l, 1) + "/"@ + l
    } else {
        prefix_bytes(l, 2) + "/"@ + l.subrange(char_index(l, 2), char_index(l, 4)) + "/"@ + l
    }
}

/// Whether `sparse_index_path` can cut this name (`sparse_cuttable`).
pub fn is_sparse_cuttable(name: &str) -> (b: bool)
    ensures
        b == sparse_cuttable(name@),
{
    let v = chars_of(name);
    let l = lower_chars(&v);
    match byte_len_upto(&l, 3) {
        Some(n) => {
            if n == 3 {
                char_index_at_byte(&l, 1).is_some()
            } else {
                true
            }
        },
        None => char_index_at_byte(&l, 2).is_some() && char_index_at_byte(&l, 4).is_some(),
    }
}

/// crates.io sparse index path encoding.
pub fn sparse_index_path(name: &str) -> (r: String)
    requires
        sparse_cuttable(name@),
    ensures
        r@ == sparse_path(name@),
{
    let v = chars_of(name);
    let l = lower_chars(&v);
    match byte_len_upto(&l, 3) {
        Some(0) => string_of(&l),
        Some(1) => {
            let mut out = chars_of("1/");
            append_chars(&mut out, &l);
            string_of(&out)
        },
        Some(2) => {
            let mut out = chars_of("2/");
            append_chars(&mut out, &l);
            string_of(&out)
        },
        Some(_) => {
            let j = char_index_at_byte(&l, 1).unwrap();
            let mut out = chars_of("3/");
            let first = slice_of(&l, 0, j);
            append_chars(&mut out, &first);
            append_str(&mut out, "/");
            append_chars(&mut out, &l);
            string_of(&out)
        },
        None => {
            let j2 = char_index_at_byte(&l, 2).unwrap();
            let j4 = char_index_at_byte(&l, 4).unwrap();
            proof {
                if j4 < j2 {
                    crate::text::lemma_byte_len_take_mono(l@, j4 as int, j2 as int);
                }
            }
            let mut out = slice_of(&l, 0, j2);
            append_str(&mut out, "/");
            let mid = slice_of(&l, j2, j4);
            append_chars(&mut out, &mid);
            append_str(&mut out, "/");
            append_chars(&mut out, &l);
            string_of(&out)
        },
    }
}

/// A pinned crate version: non-empty after trimming, no range operators,
/// starting with a digit.
pub open spec fn exact_cargo_version(v: Seq<char>) -> bool {
    let t = trim(v);
    t.len() > 0 && !has_any(t, "*^~><=, "@) && is_digit(t[0])
}

pub fn is_exact_cargo_version(v: &str) -> (b: bool)
    ensures
        b == exact_cargo_version(v@),
{
    let c = chars_of(v);
    let t = trim_chars(&c);
    t.len() > 0 && !has_any_chars(&t, "*^~><=, ") && '0' <= t[0] && t[0] <= '9'
}

/// The input is read as a `Cargo.toml` when its file name is `Cargo.toml`
/// (any case) or its text starts with `[` after leading whitespace.
pub open spec fn cargo_input_is_toml(file_name: Seq<char>, text: Seq<char>) -> bool {
    lower_str(file_name) == "cargo.toml"@ || starts_with(trim_start(text), "["@)
}

pub fn is_cargo_toml_input(file_name: &str, text: &str) -> (b: bool)
    ensures
        b == cargo_input_is_toml(file_name@, text@),
{
    let n = chars_of(file_name);
    let ln = lower_chars(&n);
    let t = chars_of(text);
    let ts = trim_start_chars(&t);
    chars_eq_str(&ln, "cargo.toml") || starts_with_str(&ts, "[")
}

/// One entry of `[dependencies]` as read from `Cargo.toml`: its version
/// requirement (a string value, or the `version` key of a table), and whether
/// it is a table with a `path` or `git` key.
#[derive(Debug, Clone)]
pub struct CargoDep {
    pub name: String,
    pub version: Option<String>,
    pub has_path_or_git: bool,
}

/// A dependency without a version that comes from a path or git is not a root.
pub open spec fn dep_root(d: CargoDep) -> Option<(Seq<char>, Option<Seq<char>>)> {
    if d.version is None && d.has_path_or_git {
        None
    } else {
        Some((d.name@, opt_view(d.version)))
    }
}

/// The roots named by the `[dependencies]` of a `Cargo.toml`, in order.
pub fn cargo_roots_from_deps(deps: &Vec<CargoDep>) -> (r: Vec<RootSpec>)
    ensures
        roots_view(r@) == deps@.filter_map(|d: CargoDep| dep_root(d)),
{
    let ghost f = |d: CargoDep| dep_root(d);
    let mut out: Vec<RootSpec> = Vec::new();
    let mut i: usize = 0;
    while i < deps.len()
        invariant
            i <= deps.len(),
            f == (|d: CargoDep| dep_root(d)),
            roots_view(out@) == deps@.take(i as int).filter_map(f),
        decreases deps.len() - i,
    {
        proof {
            deps@.lemma_filter_map_take_succ(f, i as int);
        }
        let d = &deps[i];
        let ghost before = roots_view(out@);
        if d.version.is_none() && d.has_path_or_git {
            assert(roots_view(out@) =~= before + Seq::empty());
        } else {
            out.push(RootSpec { name: d.name.clone(), version: d.version.clone() });
            assert(roots_view(out@) =~= before + seq![f(deps@[i as int]).unwrap()]);
        }
        i = i + 1;
    }
    assert(deps@.take(deps.len() as int) =~= deps@);
    out
}

/// One line of a crate's sparse index file: its version and whether it is yanked.
#[derive(Debug, Clone)]
pub struct SparseIndexEntry {
    pub vers: Option<String>,
    pub yanked: bool,
}

pub open spec fn sparse_version(e: SparseIndexEntry) -> Option<Seq<char>> {
    if e.yanked {
        None
    } else {
        opt_view(e.vers)
    }
}

/// The published, not yanked versions listed by a sparse index file, in order.
pub fn sparse_index_versions(entries: &Vec<SparseIndexEntry>) -> (r: Vec<String>)
    ensures
        r@.map_values(|s: String| s@) == entries@.filter_map(|e: SparseIndexEntry| sparse_version(e)),
{
    let ghost f = |e: SparseIndexEntry| sparse_version(e);
    let mut out: Vec<String> = Vec::new();
    let mut i: usize = 0;
    while i < entries.len()
        invariant
            i <= entries.len(),
            f == (|e: SparseIndexEntry| sparse_version(e)),
            out@.map_values(|s: String| s@) == entries@.take(i as int).filter_map(f),
        decreases entries.len() - i,
    {
        proof {
            entries@.lemma_filter_map_take_succ(f, i as int);
        }
        let e = &entries[i];
        let ghost before = out@.map_values(|s: String| s@);
        if !e.yanked {
            match &e.vers {
                Some(v) => {
                    out.push(v.clone());
                    assert(out@.map_values(|s: String| s@) =~= before + seq![
                        f(entries@[i as int]).unwrap(),
                    ]);
                },
                None => {
                    assert(out@.map_values(|s: String| s@) =~= before + Seq::empty());
                },
            }
        } else {
            assert(out@.map_values(|s: String| s@) =~= before + Seq::empty());
        }
        i = i + 1;
    }
    assert(entries@.take(entries.len() as int) =~= entries@);
    out
}

/// The URL of a crate's sparse index file: the registry without its
/// `sparse+` prefix and trailing `/`, then `/`, then the index path.
pub open spec fn sparse_index_url_spec(registry: Seq<char>, name: Seq<char>) -> Seq<char> {
    let base = match strip_prefix(registry, "sparse+"@) {
        Some(r) => r,
        None => registry,
    };
    trim_end_char(base, '/') + "/"@ + sparse_path(name)
}

pub fn sparse_index_url(registry: &str, name: &str) -> (r: String)
    requires
        sparse_cuttable(name@),
    ensures
        r@ == sparse_index_url_spec(registry@, name@),
{
    let reg = chars_of(registry);
    let base = match strip_prefix_str(&reg, "sparse+") {
        Some(r) => r,
        None => reg,
    };
    let mut out = trim_end_char_chars(&base, '/');
    append_str(&mut out, "/");
    let p = sparse_index_path(name);
    append_str(&mut out, p.as_str());
    string_of(&out)
}

/// `{base without trailing /}/{name}/{name}-{version}.crate`.
pub fn crate_download_url(base: &str, name: &str, version: &str) -> (r: String)
    ensures
        r@ == trim_end_char(base@, '/') + "/"@ + name@ + "/"@ + name@ + "-"@ + version@
            + ".crate"@,
{
    let b = chars_of(base);
    let mut out = trim_end_char_chars(&b, '/');
    append_str(&mut out, "/");
    append_str(&mut out, name);
    append_str(&mut out, "/");
    append_str(&mut out, name);
    append_str(&mut out, "-");
    append_str(&mut out, version);
    append_str(&mut out, ".crate");
    string_of(&out)
}

/// The crates.io static CDN URL of a `.crate`, used when the mirror fails.
pub fn crate_fallback_url(name: &str, version: &str) -> (r: String)
    ensures
        r@ == "https://static.crates.io/crates/"@ + name@ + "/"@ + name@ + "-"@ + version@
            + ".crate"@,
{
    let mut out = chars_of("https://static.crates.io/crates/");
    append_str(&mut out, name);
    append_str(&mut out, "/");
    append_str(&mut out, name);
    append_str(&mut out, "-");
    append_str(&mut out, version);
    append_str(&mut out, ".crate");
    string_of(&out)
}

/// The `[dependencies]` line of the isolated fetch package: `= pinned` for an
/// exact version, the requirement as given otherwise, `*` when there is none.
pub open spec fn dep_line(name: Seq<char>, version: Option<Seq<char>>) -> Seq<char> {
    match version {
        Some(v) => if exact_cargo_version(v) {
            name + " = \"="@ + v + "\""@
        } else if v.len() > 0 {
            name + " = \""@ + v + "\""@
        } else {
            name + " = \"*\""@
        },
        None => name + " = \"*\""@,
    }
}

pub fn cargo_dep_line(name: &str, version: Option<&str>) -> (r: String)
    ensures
        r@ == dep_line(
            name@,
            match version {
                Some(v) => Some(v@),
                None => None,
            },
        ),
{
    let mut out = chars_of(name);
    match version {
        Some(v) => {
            if is_exact_cargo_version(v) {
                append_str(&mut out, " = \"=");
                append_str(&mut out, v);
                append_str(&mut out, "\"");
            } else if !v.is_empty() {
                append_str(&mut out, " = \"");
                append_str(&mut out, v);
                append_str(&mut out, "\"");
            } else {
                append_str(&mut out, " = \"*\"");
            }
        },
        None => {
            append_str(&mut out, " = \"*\"");
        },
    }
    string_of(&out)
}

/// The `Cargo.toml` of the isolated package that `cargo fetch` resolves
/// one root in: its own workspace, depending on the root alone.
pub open spec fn isolate_manifest(dep: Seq<char>) -> Seq<char> {
    "[workspace]\n\n[package]\nname = \"ak-ferry-isolate\"\nversion = \"0.0.0\"\nedition = \"2021\"\n\n[dependencies]\n"@
        + dep + "\n"@
}

pub fn isolate_cargo_toml(name: &str, version: Option<&str>) -> (r: String)
    ensures
        r@ == isolate_manifest(
            dep_line(
                name@,
                match version {
                    Some(v) => Some(v@),
                    None => None,
                },
            ),
        ),
{
    let dep = cargo_dep_line(name, version);
    let mut v = chars_of(
        "[workspace]\n\n[package]\nname = \"ak-ferry-isolate\"\nversion = \"0.0.0\"\nedition = \"2021\"\n\n[dependencies]\n",
    );
    append_str(&mut v, dep.as_str());
    append_str(&mut v, "\n");
    string_of(&v)
}

/// The `config.toml` of the job's `CARGO_HOME`: crates.io replaced by the
/// given sparse registry.
pub open spec fn cargo_home_config_spec(registry: Seq<char>) -> Seq<char> {
    "[source.crates-io]\nreplace-with = \"ak-ferry\"\n\n[source.ak-ferry]\nregistry = \""@ + registry + "\"\n"@
}

pub fn cargo_home_config(registry: &str) -> (r: String)
    ensures
        r@ == cargo_home_config_spec(registry@),
{
    let mut v = chars_of("[source.crates-io]\nreplace-with = \"ak-ferry\"\n\n[source.ak-ferry]\nregistry = \"");
    append_str(&mut v, registry);
    append_str(&mut v, "\"\n");
    string_of(&v)
}

/// The (name, version) of a downloaded `.crate` file: from its file name,
/// else from the `Cargo.lock` entry it matches.
pub fn crate_identity(fname: &str, lock: &Vec<(String, String)>) -> (r: Option<(String, String)>)
    ensures
        crate_filename(fname@) matches Some(p) ==> (r matches Some((n, v)) && (n@, v@) == p),
        crate_filename(fname@) is None ==> (r matches Some((n, v)) ==> lock_match(fname@, lock_pairs(lock@)) matches Some(i)
            && (n@, v@) == lock_pairs(lock@)[i]),
        crate_filename(fname@) is None ==> (r is None <==> lock_match(fname@, lock_pairs(lock@)) is None),
{
    match parse_crate_filename(fname) {
        Some(p) => Some(p),
        None => infer_from_lock(fname, lock),
    }
}

/// The first version `Cargo.lock` lists for a package name.
pub open spec fn lock_first_version(lock: Seq<(Seq<char>, Seq<char>)>, name: Seq<char>) -> Option<Seq<char>>
    decreases lock.len(),
{
    if lock.len() == 0 {
        None
    } else if lock[0].0 == name {
        Some(lock[0].1)
    } else {
        lock_first_version(lock.drop_first(), name)
    }
}

pub fn lock_version_of(lock: &Vec<(String, String)>, name: &str) -> (r: Option<String>)
    ensures
        crate::manifest::opt_view(r) == lock_first_version(lock_pairs(lock@), name@),
{
    let ghost lp = lock_pairs(lock@);
    let nv = chars_of(name);
    let mut i: usize = 0;
    assert(lp.skip(0) =~= lp);
    while i < lock.len()
        invariant
            i <= lock.len(),
            lp == lock_pairs(lock@),
            nv@ == name@,
            lock_first_version(lp, name@) == lock_first_version(lp.skip(i as int), name@),
        decreases lock.len() - i,
    {
        assert(lp.skip(i as int)[0] == lp[i as int]);
        assert(lp.skip(i as int).drop_first() =~= lp.skip(i + 1));
        let a = chars_of(lock[i].0.as_str());
        if crate::text::chars_eq(&a, &nv) {
            return Some(lock[i].1.clone());
        }
        i = i + 1;
    }
    assert(lp.skip(i as int).len() == 0);
    None
}

// ---------------------------------------------------------------------------
// `Cargo.toml` dependencies and sparse index files
// ---------------------------------------------------------------------------

/// The dependency `name = spec` of a `Cargo.toml`: a string is its version;
/// a table gives its `version` string and whether it has a `path` or `git` key.
pub open spec fn cargo_dep_of(name: String, spec: TomlValue) -> CargoDep {
    match spec {
        TomlValue::Str(s) => CargoDep { name, version: Some(s), has_path_or_git: false },
        TomlValue::Table(t) => CargoDep {
            name,
            version: match toml_member(t@, "version"@) {
                Some(TomlValue::Str(s)) => Some(s),
                _ => None,
            },
            has_path_or_git: toml_member(t@, "path"@) is Some || toml_member(t@, "git"@) is Some,
        },
        TomlValue::Other(_) => CargoDep { name, version: None, has_path_or_git: false },
    }
}

/// The entries of the `[dependencies]` table, in order; none when there is
/// no such table.
pub open spec fn cargo_toml_deps(v: TomlValue) -> Seq<CargoDep> {
    match toml_get(v, "dependencies"@) {
        Some(TomlValue::Table(es)) => es@.map_values(|e: (String, TomlValue)| cargo_dep_of(e.0, e.1)),
        _ => Seq::empty(),
    }
}

fn cargo_dep_from(name: &String, spec: &TomlValue) -> (r: CargoDep)
    ensures
        r == cargo_dep_of(*name, *spec),
{
    match spec {
        TomlValue::Str(s) => CargoDep { name: name.clone(), version: Some(s.clone()), has_path_or_git: false },
        TomlValue::Table(t) => {
            let version = match toml_member_ref(t, "version") {
                Some(TomlValue::Str(s)) => Some(s.clone()),
                _ => None,
            };
            let has = toml_member_ref(t, "path").is_some() || toml_member_ref(t, "git").is_some();
            CargoDep { name: name.clone(), version, has_path_or_git: has }
        },
        TomlValue::Other(_) => CargoDep { name: name.clone(), version: None, has_path_or_git: false },
    }
}

/// The roots of a `Cargo.toml`: its `[dependencies]` (see
/// `cargo_roots_from_deps`); an error when the text is not TOML.
pub fn parse_cargo_toml_deps(text: &str) -> (r: Result<Vec<RootSpec>, AkError>)
    ensures
        r is Ok == toml_of(text@) is Ok,
        r matches Ok(v) ==> (toml_of(text@) matches Ok(t) && roots_view(v@) == cargo_toml_deps(t).filter_map(
            |d: CargoDep| dep_root(d),
        )),
        r matches Err(e) ==> (toml_of(text@) matches Err(m) && e is ConfigError && e.msg() == "Invalid Cargo.toml: "@
            + m),
{
    match toml_parse(text) {
        Err(m) => {
            let mut e = chars_of("Invalid Cargo.toml: ");
            append_str(&mut e, m.as_str());
            Err(AkError::ConfigError(string_of(&e)))
        },
        Ok(v) => {
            let mut deps: Vec<CargoDep> = Vec::new();
            match toml_get_ref(&v, "dependencies") {
                Some(TomlValue::Table(es)) => {
                    let mut i: usize = 0;
                    while i < es.len()
                        invariant
                            i <= es.len(),
                            deps@ == es@.take(i as int).map_values(|e: (String, TomlValue)| cargo_dep_of(e.0, e.1)),
                        decreases es.len() - i,
                    {
                        let d = cargo_dep_from(&es[i].0, &es[i].1);
                        deps.push(d);
                        assert(es@.take(i + 1) =~= es@.take(i as int).push(es@[i as int]));
                        assert(deps@ =~= es@.take(i + 1).map_values(|e: (String, TomlValue)| cargo_dep_of(e.0, e.1)));
                        i = i + 1;
                    }
                    assert(es@.take(es.len() as int) =~= es@);
                },
                _ => {
                    assert(deps@ =~= Seq::<CargoDep>::empty());
                },
            }
            assert(deps@ == cargo_toml_deps(v));
            Ok(cargo_roots_from_deps(&deps))
        },
    }
}

/// The entry of one line of a sparse index file.
pub open spec fn sparse_entry(v: JsonValue) -> SparseIndexEntry {
    SparseIndexEntry { vers: json_string(json_get(v, "vers"@)), yanked: json_flag(json_get(v, "yanked"@)) }
}

/// The entries of a sparse index file's lines, blank lines skipped; the
/// error of the first line that is not JSON.
pub open spec fn sparse_entries(ls: Seq<Seq<char>>) -> Result<Seq<SparseIndexEntry>, Seq<char>>
    decreases ls.len(),
{
    if ls.len() == 0 {
        Ok(Seq::empty())
    } else {
        match sparse_entries(ls.drop_last()) {
            Err(m) => Err(m),
            Ok(es) => {
                let t = trim(ls.last());
                if t.len() == 0 {
                    Ok(es)
                } else {
                    match json_of(t) {
                        Err(m) => Err(m),
                        Ok(v) => Ok(es.push(sparse_entry(v))),
                    }
                }
            },
        }
    }
}

/// The published, not yanked versions a sparse index file lists for the
/// crate `name`, in order; an error naming the crate for a line that is not JSON.
pub fn sparse_index_versions_of(text: &str, name: &str) -> (r: Result<Vec<String>, AkError>)
    ensures
        match sparse_entries(lines(text@)) {
            Ok(es) => r matches Ok(vs) && vs@.map_values(|s: String| s@) == es.filter_map(
                |e: SparseIndexEntry| sparse_version(e),
            ),
            Err(m) => r matches Err(e) && e is ConfigError && e.msg() == "invalid sparse index line for "@ + name@
                + ": "@ + m,
        },
{
    let v = chars_of(text);
    let ls = lines_chars(&v);
    let ghost lv = views(ls@);
    let mut entries: Vec<SparseIndexEntry> = Vec::new();
    let mut i: usize = 0;
    while i < ls.len()
        invariant
            i <= ls.len(),
            lv == views(ls@),
            lv == lines(text@),
            sparse_entries(lv.take(i as int)) == Ok::<Seq<SparseIndexEntry>, Seq<char>>(entries@),
        decreases ls.len() - i,
    {
        assert(lv.take(i + 1).drop_last() =~= lv.take(i as int));
        assert(lv.take(i + 1).last() == ls@[i as int]@);
        let t = trim_chars(&ls[i]);
        if t.len() > 0 {
            let ts = string_of(&t);
            match json_parse(ts.as_str()) {
                Err(m) => {
                    proof {
                        lemma_sparse_error_stays(lv, i as int + 1, m@);
                    }
                    let mut e = chars_of("invalid sparse index line for ");
                    append_str(&mut e, name);
                    append_str(&mut e, ": ");
                    append_str(&mut e, m.as_str());
                    return Err(AkError::ConfigError(string_of(&e)));
                },
                Ok(jv) => {
                    let vers_s = match json_get_ref(&jv, "vers") {
                        Some(JsonValue::Str(s)) => Some(s.clone()),
                        _ => None,
                    };
                    let yanked = json_get_flag(&jv, "yanked");
                    entries.push(SparseIndexEntry { vers: vers_s, yanked });
                },
            }
        }
        i = i + 1;
    }
    assert(lv.take(ls.len() as int) =~= lv);
    Ok(sparse_index_versions(&entries))
}

/// Once a prefix of the lines fails, every longer prefix fails the same way.
proof fn lemma_sparse_error_stays(ls: Seq<Seq<char>>, k: int, m: Seq<char>)
    requires
        0 <= k <= ls.len(),
        sparse_entries(ls.take(k)) == Err::<Seq<SparseIndexEntry>, Seq<char>>(m),
    ensures
        sparse_entries(ls) == Err::<Seq<SparseIndexEntry>, Seq<char>>(m),
    decreases ls.len() - k,
{
    if k == ls.len() {
        assert(ls.take(k) =~= ls);
    } else {
        assert(ls.take(k + 1).drop_last() =~= ls.take(k));
        lemma_sparse_error_stays(ls, k + 1, m);
    }
}

} // verus!
