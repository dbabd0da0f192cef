//! Default ferry zip file names when no output path is given.
//!
//! Pattern: `ak-ferry-{ecosystem}-{timestamp}[-{opts}][-r{n}-m{m}].zip`
//! (no input or package names in the file name).
use vstd::prelude::*;
use std::path::{Path, PathBuf};

use crate::ecosystem::{ecosystem_slug, slug, Ecosystem};
use crate::manifest::opt_view;
use crate::runs::{dashed, lemma_dashed_runs, lemma_dashed_runs_chars, runs_by};
use crate::paths::{
    file_name_of, joined_text, parent_text_of, path_file_name, path_from, path_join, path_parent, path_text, path_to_buf,
    pathbuf_is_empty, pathbuf_join, pathbuf_text,
};
use crate::text::{
    strs,
    all_digits, all_digits_chars, contains, find, lemma_dec_digits, lemma_find, lemma_rfind,
    occurs_at, rfind, ends_with, ends_with_str, find_str, rsplit_once,
    rsplit_once_str, slice_of, split_once, split_once_str, starts_with, starts_with_str,
    append_chars, append_str, chars_of, copy_chars, dec, dec_chars, is_digit, is_lower, join,
    is_upper, join_chars, keep_nonempty, lower_chars, lower_str, nonempty_pieces, string_of, views,
};

verus! {


/// Characters that survive in a sanitized file-name segment (after lower-casing).
pub open spec fn is_kept(c: char) -> bool {
    is_lower(c) || is_digit(c) || c == '.' || c == '_'
}

/// The pieces of `s` between runs of characters that are not kept.
pub open spec fn split_unkept(s: Seq<char>) -> Seq<Seq<char>>
    decreases s.len(),
{
    if s.len() == 0 {
        seq![Seq::empty()]
    } else {
        let r = split_unkept(s.drop_last());
        if !is_kept(s.last()) {
            r.push(Seq::empty())
        } else {
            r.update(r.len() - 1, r.last().push(s.last()))
        }
    }
}

proof fn lemma_split_unkept_len(s: Seq<char>)
    ensures
        split_unkept(s).len() >= 1,
    decreases s.len(),
{
    if s.len() > 0 {
        lemma_split_unkept_len(s.drop_last());
    }
}

proof fn lemma_split_unkept_runs(s: Seq<char>)
    ensures
        split_unkept(s) == runs_by(s, |c: char| is_kept(c)),
    decreases s.len(),
{
    if s.len() > 0 {
        lemma_split_unkept_runs(s.drop_last());
    }
}

/// A sanitized segment: ASCII-lower-cased, only `[a-z0-9._]` kept, every run of
/// other characters turned into one `-`, and no `-` at either end.
pub open spec fn sanitize(s: Seq<char>) -> Seq<char> {
    join(nonempty_pieces(split_unkept(lower_str(s))), "-"@)
}

/// A sanitized segment holds only `[a-z0-9._]` and dashes, never starts or
/// ends with `-` nor has two dashes in a row; without its dashes it is
/// exactly the lower-cased letters, digits, `.` and `_` of the input, in
/// order; and sanitizing it again changes nothing.
pub proof fn lemma_sanitize_shape(s: Seq<char>)
    ensures
        dashed(sanitize(s), |c: char| is_kept(c)),
        sanitize(s).filter(|c: char| c != '-') == lower_str(s).filter(|c: char| is_kept(c)),
        sanitize(sanitize(s)) == sanitize(s),
{
    lemma_dashed_runs_chars(lower_str(s), |c: char| is_kept(c));
    let p = |c: char| is_kept(c);
    lemma_split_unkept_runs(lower_str(s));
    lemma_dashed_runs(s, p);
    let t = sanitize(s);
    lemma_split_unkept_runs(lower_str(t));
    assert forall|i: int| 0 <= i < t.len() implies (#[trigger] t[i] == '-' || p(t[i])) by {
        assert(t[i] == '-' || (|c: char| p(c) && !is_upper(c))(t[i]));
    }
}

fn split_unkept_chars(v: &Vec<char>) -> (r: Vec<Vec<char>>)
    ensures
        views(r@) == split_unkept(v@),
{
    let mut parts: Vec<Vec<char>> = Vec::new();
    let mut cur: Vec<char> = Vec::new();
    let mut i: usize = 0;
    assert(v@.take(0) =~= Seq::<char>::empty());
    assert(views(parts@).push(cur@) =~= split_unkept(v@.take(0)));
    while i < v.len()
        invariant
            i <= v.len(),
            views(parts@).push(cur@) == split_unkept(v@.take(i as int)),
        decreases v.len() - i,
    {
        let ghost before = v@.take(i as int);
        assert(v@.take(i + 1).drop_last() =~= before);
        proof {
            lemma_split_unkept_len(before);
        }
        let c = v[i];
        let kept = ('a' <= c && c <= 'z') || ('0' <= c && c <= '9') || c == '.' || c == '_';
        if !kept {
            let done = cur;
            parts.push(done);
            cur = Vec::new();
            assert(views(parts@).push(cur@) =~= split_unkept(before).push(Seq::empty()));
        } else {
            cur.push(c);
            let ghost r = split_unkept(before);
            assert(views(parts@).push(cur@) =~= r.update(r.len() - 1, r.last().push(c)));
        }
        i = i + 1;
    }
    assert(v@.take(v.len() as int) =~= v@);
    let ghost old_parts = views(parts@);
    parts.push(cur);
    assert(views(parts@) =~= old_parts.push(cur@));
    parts
}

fn sanitize_chars(v: &Vec<char>) -> (r: Vec<char>)
    ensures
        r@ == sanitize(v@),
{
    let low = lower_chars(v);
    let pieces = split_unkept_chars(&low);
    let kept = keep_nonempty(&pieces);
    join_chars(&kept, "-")
}

/// Sanitize one file-name segment: lower-case, keep `[a-z0-9._]`, collapse
/// runs of anything else into a single `-`, and trim `-` from the ends.
pub fn sanitize_part(raw: &str) -> (r: String)
    ensures
        r@ == sanitize(raw@),
{
    let v = chars_of(raw);
    let s = sanitize_chars(&v);
    string_of(&s)
}

/// Every character is an ASCII digit or `.` (a bare runtime version such as `3.11`).
pub open spec fn is_numericish(s: Seq<char>) -> bool {
    forall|i: int| 0 <= i < s.len() ==> is_digit(#[trigger] s[i]) || s[i] == '.'
}

/// A runtime-version segment, prefixed `node` (npm) or `py` (PyPI) when it is
/// a bare version number.
pub open spec fn tag_runtime(s: Seq<char>, eco: Ecosystem) -> Seq<char> {
    if is_numericish(s) {
        match eco {
            Ecosystem::Npm => "node"@ + s,
            Ecosystem::Pypi => "py"@ + s,
            _ => s,
        }
    } else {
        s
    }
}

/// The segments of the options suffix, in order: `av`, each target, each
/// runtime version, then `cat`.
pub open spec fn opts_parts(
    all_versions: bool,
    targets: Seq<Seq<char>>,
    nodes: Seq<Seq<char>>,
    has_catalog: bool,
    eco: Ecosystem,
) -> Seq<Seq<char>> {
    (if all_versions {
        seq!["av"@]
    } else {
        seq![]
    }) + nonempty_pieces(targets.map_values(|t: Seq<char>| sanitize(t))) + nonempty_pieces(
        nodes.map_values(|n: Seq<char>| sanitize(n)),
    ).map_values(|n: Seq<char>| tag_runtime(n, eco)) + (if has_catalog {
        seq!["cat"@]
    } else {
        seq![]
    })
}

/// The options suffix, or nothing when there are no segments.
pub open spec fn opts_spec(
    all_versions: bool,
    targets: Seq<Seq<char>>,
    nodes: Seq<Seq<char>>,
    has_catalog: bool,
    eco: Ecosystem,
) -> Option<Seq<char>> {
    let parts = opts_parts(all_versions, targets, nodes, has_catalog, eco);
    if parts.len() == 0 {
        None
    } else {
        Some(join(parts, "-"@))
    }
}

fn is_numericish_chars(v: &Vec<char>) -> (b: bool)
    ensures
        b == is_numericish(v@),
{
    let mut i: usize = 0;
    while i < v.len()
        invariant
            i <= v.len(),
            forall|j: int| 0 <= j < i ==> is_digit(#[trigger] v@[j]) || v@[j] == '.',
        decreases v.len() - i,
    {
        let c = v[i];
        if !(('0' <= c && c <= '9') || c == '.') {
            return false;
        }
        i = i + 1;
    }
    true
}

fn tag_runtime_chars(v: Vec<char>, eco: Ecosystem) -> (r: Vec<char>)
    ensures
        r@ == tag_runtime(v@, eco),
{
    if is_numericish_chars(&v) {
        match eco {
            Ecosystem::Npm => {
                let mut r = chars_of("node");
                append_chars(&mut r, &v);
                r
            },
            Ecosystem::Pypi => {
                let mut r = chars_of("py");
                append_chars(&mut r, &v);
                r
            },
            _ => v,
        }
    } else {
        v
    }
}

/// Sanitized, non-empty segments of a list of raw values, each passed through
/// `tag_runtime` when `tag` is set.
fn sanitized_segments(raw: &[String], tag: bool, eco: Ecosystem) -> (r: Vec<Vec<char>>)
    ensures
        tag ==> views(r@) == nonempty_pieces(
            strs(raw@).map_values(|n: Seq<char>| sanitize(n)),
        ).map_values(|n: Seq<char>| tag_runtime(n, eco)),
        !tag ==> views(r@) == nonempty_pieces(strs(raw@).map_values(|n: Seq<char>| sanitize(n))),
{
    let ghost sans = strs(raw@).map_values(|n: Seq<char>| sanitize(n));
    let mut out: Vec<Vec<char>> = Vec::new();
    let mut i: usize = 0;
    while i < raw.len()
        invariant
            i <= raw.len(),
            sans == strs(raw@).map_values(|n: Seq<char>| sanitize(n)),
            tag ==> views(out@) == nonempty_pieces(sans.take(i as int)).map_values(
                |n: Seq<char>| tag_runtime(n, eco),
            ),
            !tag ==> views(out@) == nonempty_pieces(sans.take(i as int)),
        decreases raw.len() - i,
    {
        assert(sans.take(i + 1).drop_last() =~= sans.take(i as int));
        let v = chars_of(raw[i].as_str());
        let s = sanitize_chars(&v);
        assert(s@ == sans[i as int]);
        if s.len() > 0 {
            let ghost prev = nonempty_pieces(sans.take(i as int));
            let ghost old_out = views(out@);
            if tag {
                let t = tag_runtime_chars(s, eco);
                out.push(t);
                assert(views(out@) =~= old_out.push(tag_runtime(sans[i as int], eco)));
                assert(prev.push(sans[i as int]).map_values(|n: Seq<char>| tag_runtime(n, eco))
                    =~= prev.map_values(|n: Seq<char>| tag_runtime(n, eco)).push(
                    tag_runtime(sans[i as int], eco),
                ));
            } else {
                out.push(s);
                assert(views(out@) =~= old_out.push(sans[i as int]));
            }
        }
        i = i + 1;
    }
    assert(sans.take(raw.len() as int) =~= sans);
    out
}

fn push_literal(parts: &mut Vec<Vec<char>>, s: &str)
    ensures
        views(final(parts)@) == views(old(parts)@).push(s@),
{
    let v = chars_of(s);
    parts.push(v);
    assert(views(parts@) =~= views(old(parts)@).push(s@));
}

fn extend_parts(parts: &mut Vec<Vec<char>>, more: Vec<Vec<char>>)
    ensures
        views(final(parts)@) == views(old(parts)@) + views(more@),
{
    let ghost m = views(more@);
    let mut k: usize = 0;
    let n = more.len();
    while k < n
        invariant
            k <= n == more.len(),
            m == views(more@),
            views(parts@) == views(old(parts)@) + m.take(k as int),
        decreases n - k,
    {
        let w = copy_chars(&more[k]);
        assert(m[k as int] == more@[k as int]@);
        let ghost before = views(parts@);
        parts.push(w);
        assert(views(parts@) =~= before.push(m[k as int]));
        assert(m.take(k + 1) =~= m.take(k as int).push(m[k as int]));
        k = k + 1;
        assert(views(parts@) =~= views(old(parts)@) + m.take(k as int));
    }
    assert(m.take(n as int) =~= m);
}

/// Optional options segment built from the job knobs (no leading or trailing
/// `-`). Order: `av`, then each target, then each node/python version
/// (prefixed `node`/`py` when purely numeric), then `cat` when a server
/// catalog was used.
pub fn opts_suffix(
    all_versions: bool,
    targets: &[String],
    nodes: &[String],
    has_catalog: bool,
    ecosystem: Ecosystem,
) -> (r: Option<String>)
    ensures
        r matches Some(s) ==> opts_spec(
            all_versions,
            strs(targets@),
            strs(nodes@),
            has_catalog,
            ecosystem,
        ) == Some(s@),
        r is None ==> opts_spec(
            all_versions,
            strs(targets@),
            strs(nodes@),
            has_catalog,
            ecosystem,
        ) is None,
{
    let mut parts: Vec<Vec<char>> = Vec::new();
    if all_versions {
        push_literal(&mut parts, "av");
    }
    let ts = sanitized_segments(targets, false, ecosystem);
    extend_parts(&mut parts, ts);
    let ns = sanitized_segments(nodes, true, ecosystem);
    extend_parts(&mut parts, ns);
    if has_catalog {
        push_literal(&mut parts, "cat");
    }
    proof {
        let p = opts_parts(all_versions, strs(targets@), strs(nodes@), has_catalog, ecosystem);
        assert(views(parts@) =~= p);
    }
    if parts.len() == 0 {
        None
    } else {
        let j = join_chars(&parts, "-");
        Some(string_of(&j))
    }
}

/// The default ferry zip name for a given timestamp.
pub open spec fn zip_name(
    eco: Ecosystem,
    ts: Seq<char>,
    all_versions: bool,
    targets: Seq<Seq<char>>,
    nodes: Seq<Seq<char>>,
    has_catalog: bool,
) -> Seq<char> {
    let base = "ak-ferry-"@ + slug(eco) + "-"@ + ts;
    match opts_spec(all_versions, targets, nodes, has_catalog, eco) {
        Some(o) => base + "-"@ + o + ".zip"@,
        None => base + ".zip"@,
    }
}

/// File name (no directory): `ak-ferry-{eco}-{ts}[-{opts}].zip` (without stats).
pub fn default_ferry_zip_name_with_ts(
    ecosystem: Ecosystem,
    timestamp: &str,
    all_versions: bool,
    targets: &[String],
    nodes: &[String],
    has_catalog: bool,
) -> (r: String)
    ensures
        r@ == zip_name(
            ecosystem,
            timestamp@,
            all_versions,
            strs(targets@),
            strs(nodes@),
            has_catalog,
        ),
{
    let mut name = chars_of("ak-ferry-");
    append_str(&mut name, ecosystem_slug(ecosystem));
    append_str(&mut name, "-");
    append_str(&mut name, timestamp);
    match opts_suffix(all_versions, targets, nodes, has_catalog, ecosystem) {
        Some(o) => {
            append_str(&mut name, "-");
            append_str(&mut name, o.as_str());
        },
        None => {},
    }
    append_str(&mut name, ".zip");
    string_of(&name)
}

/// A three-digit, zero-padded millisecond count (`{:03}`).
pub open spec fn pad3(ms: nat) -> Seq<char> {
    if ms < 10 {
        "00"@ + dec(ms)
    } else if ms < 100 {
        "0"@ + dec(ms)
    } else {
        dec(ms)
    }
}

/// A ferry timestamp from its date-time part (`YYYYMMDDTHHMMSS`) and the
/// milliseconds within the second: `{datetime}{millis:03}Z`.
pub fn format_ferry_timestamp(datetime: &str, millis: u32) -> (r: String)
    ensures
        r@ == datetime@ + pad3(millis as nat) + "Z"@,
{
    let mut v = chars_of(datetime);
    if millis < 10 {
        append_str(&mut v, "00");
    } else if millis < 100 {
        append_str(&mut v, "0");
    }
    let d = dec_chars(millis as usize);
    append_chars(&mut v, &d);
    append_str(&mut v, "Z");
    string_of(&v)
}

/// A `%Y` year as chrono writes it: four digits for the years 1000 to 9999,
/// else a sign and at least five digits (`+10000`).
pub open spec fn year_text(y: Seq<char>) -> bool {
    ||| y.len() == 4 && all_digits(y)
    ||| y.len() >= 6 && y[0] == '+' && all_digits(y.drop_first())
}

/// `%Y%m%dT%H%M%S`: a year, then `MMDD`, `T` and `HHMMSS`.
pub open spec fn stamp_datetime(dt: Seq<char>) -> bool {
    let n = dt.len() as int;
    &&& n >= 15
    &&& dt[n - 7] == 'T'
    &&& forall|i: int| n - 11 <= i < n && i != n - 7 ==> is_digit(#[trigger] dt[i])
    &&& year_text(dt.take(n - 11))
}

/// A ferry timestamp: `YYYYMMDDTHHMMSS`, the milliseconds as three digits,
/// then `Z`.
pub open spec fn is_ferry_stamp(t: Seq<char>) -> bool {
    exists|dt: Seq<char>, ms: nat| ms < 1000 && stamp_datetime(dt) && t == dt + pad3(ms) + "Z"@
}

/// Below 1000 the milliseconds take exactly three digits.
proof fn lemma_pad3(ms: nat)
    requires
        ms < 1000,
    ensures
        pad3(ms).len() == 3,
        all_digits(pad3(ms)),
{
    reveal_strlit("00");
    reveal_strlit("0");
    lemma_dec_digits(ms);
    if ms >= 10 {
        lemma_dec_digits(ms / 10);
        if ms >= 100 {
            lemma_dec_digits(ms / 100);
            assert(ms / 10 / 10 == ms / 100);
        }
    }
    assert(dec(ms).len() == (if ms < 10 { 1nat } else if ms < 100 { 2nat } else { 3nat }));
}

/// `YYYYMMDDTHHMMSSmmmZ`: nineteen characters, `T` at index 8, `Z` last and
/// digits everywhere else.
pub open spec fn common_stamp(t: Seq<char>) -> bool {
    &&& t.len() == 19
    &&& t[8] == 'T'
    &&& t[18] == 'Z'
    &&& forall|i: int| 0 <= i < 18 && i != 8 ==> is_digit(#[trigger] t[i])
}

/// In the common case (a four-digit year) a ferry timestamp
/// has 19 characters, `YYYYMMDDTHHMMSSmmmZ`: `T` at index 8, `Z` last, digits
/// everywhere else.
pub proof fn lemma_stamp_common_shape(dt: Seq<char>, ms: nat)
    requires
        stamp_datetime(dt),
        dt.len() == 15,
        ms < 1000,
    ensures
        (dt + pad3(ms) + "Z"@).len() == 19,
        (dt + pad3(ms) + "Z"@)[8] == 'T',
        (dt + pad3(ms) + "Z"@)[18] == 'Z',
        forall|i: int| 0 <= i < 18 && i != 8 ==> is_digit(#[trigger] (dt + pad3(ms) + "Z"@)[i]),
{
    reveal_strlit("Z");
    lemma_pad3(ms);
    let t = dt + pad3(ms) + "Z"@;
    assert(dt.take(4) =~= dt.take(dt.len() - 11));
    assert forall|i: int| 0 <= i < 18 && i != 8 implies is_digit(#[trigger] t[i]) by {
        if i < 4 {
            assert(dt.take(4)[i] == dt[i]);
        } else if i < 15 {
        } else {
            assert(t[i] == pad3(ms)[i - 15]);
        }
    }
}

/// A Unix time from 1970 to the last second of the year 9999.
pub open spec fn four_digit_year(secs: i64) -> bool {
    0 <= secs < 253402300800
}

/// The UTC date-time `YYYYMMDDTHHMMSS` of a Unix time in whole seconds, when
/// chrono can represent it.
pub uninterp spec fn utc_compact(secs: i64) -> Option<Seq<char>>;

/// `chrono::DateTime::from_timestamp(secs, 0)` formatted with
/// `"%Y%m%dT%H%M%S"` (named `utc_compact`); `None` outside chrono's range.
/// For a time not before 1970 the year has at least four digits, and chrono
/// writes `%Y` as four digits up to 9999 and with a sign after; the other
/// fields are two digits each. From 1970 to the end of 9999 chrono represents
/// every second, and the text then has fifteen characters.
#[verifier::external_body]
fn utc_compact_text(secs: i64) -> (r: Option<String>)
    ensures
        opt_view(r) == utc_compact(secs),
        secs >= 0 ==> (r matches Some(t) ==> stamp_datetime(t@)),
        four_digit_year(secs) ==> r is Some,
        r matches Some(t) ==> (four_digit_year(secs) ==> t@.len() == 15),
{
    match chrono::DateTime::from_timestamp(secs, 0) {
        Some(d) => Some(d.format("%Y%m%dT%H%M%S").to_string()),
        None => None,
    }
}

/// UTC timestamp suitable for file names: `YYYYMMDDTHHMMSSmmmZ`, from the
/// clock's current time. `None` when the clock is set before 1970 or beyond
/// what chrono represents. Before the year 10000 the stamp has nineteen
/// characters: `T` at index 8, `Z` last and digits everywhere else.
pub fn ferry_timestamp_utc() -> (r: Option<String>)
    ensures
        r matches Some(t) ==> is_ferry_stamp(t@),
        r matches Some(t) ==> exists|secs: i64, ms: nat|
            #![trigger utc_compact(secs), pad3(ms)]
            secs >= 0 && ms < 1000 && (utc_compact(secs) matches Some(dt) && t@ == dt + pad3(ms) + "Z"@)
                && (four_digit_year(secs) ==> common_stamp(t@)),
{
    match crate::clock::clock_now() {
        None => None,
        Some((secs, nanos)) => {
            if secs > 0x7fff_ffff_ffff_ffff {
                return None;
            }
            let s: i64 = secs as i64;
            match utc_compact_text(s) {
                None => None,
                Some(dt) => {
                    let ms: u32 = nanos / 1_000_000;
                    let r = format_ferry_timestamp(dt.as_str(), ms);
                    assert(r@ == dt@ + pad3(ms as nat) + "Z"@);
                    assert(is_ferry_stamp(r@)) by {
                        assert(ms < 1000 && stamp_datetime(dt@) && r@ == dt@ + pad3(ms as nat) + "Z"@);
                    }
                    assert((utc_compact(s) matches Some(d) && r@ == d + pad3(ms as nat) + "Z"@));
                    if s < 253402300800 {
                        assert(four_digit_year(s));
                        proof {
                            lemma_stamp_common_shape(dt@, ms as nat);
                        }
                    }
                    Some(r)
                },
            }
        },
    }
}

/// File name (no directory): `ak-ferry-{eco}-{ts}[-{opts}].zip` with the
/// current UTC timestamp; `None` when the clock cannot give one.
pub fn default_ferry_zip_name(
    ecosystem: Ecosystem,
    all_versions: bool,
    targets: &[String],
    nodes: &[String],
    has_catalog: bool,
) -> (r: Option<String>)
    ensures
        r matches Some(n) ==> exists|ts: Seq<char>|
            is_ferry_stamp(ts) && n@ == zip_name(
                ecosystem,
                ts,
                all_versions,
                strs(targets@),
                strs(nodes@),
                has_catalog,
            ),
{
    match ferry_timestamp_utc() {
        Some(ts) => Some(default_ferry_zip_name_with_ts(ecosystem, ts.as_str(), all_versions, targets, nodes, has_catalog)),
        None => None,
    }
}


/// The stem already ends in `-r{digits}-m{digits}`.
pub open spec fn stats_tagged(stem: Seq<char>) -> bool {
    &&& contains(stem, "-r"@)
    &&& rsplit_once(stem, "-m"@) is Some
    &&& match rsplit_once(stem, "-r"@) {
        Some((_, tail)) => match split_once(tail, "-m"@) {
            Some((r, m)) => all_digits(r) && all_digits(m),
            None => false,
        },
        None => false,
    }
}

/// The file name with `-r{roots}-m{modules}` inserted before `.zip`, when it is
/// an automatic ferry name (`ak-ferry-….zip`) that carries no such tag yet.
pub open spec fn stats_name(file: Seq<char>, roots: nat, modules: nat) -> Option<Seq<char>> {
    if !starts_with(file, "ak-ferry-"@) || !ends_with(file, ".zip"@) {
        None
    } else {
        let stem = file.take(file.len() - 4);
        if stats_tagged(stem) {
            None
        } else {
            Some(stem + "-r"@ + dec(roots) + "-m"@ + dec(modules) + ".zip"@)
        }
    }
}

fn stats_tagged_chars(stem: &Vec<char>) -> (b: bool)
    ensures
        b == stats_tagged(stem@),
{
    if find_str(stem, "-r").is_none() {
        return false;
    }
    if rsplit_once_str(stem, "-m").is_none() {
        return false;
    }
    match rsplit_once_str(stem, "-r") {
        Some((_, tail)) => match split_once_str(&tail, "-m") {
            Some((r, m)) => all_digits_chars(&r) && all_digits_chars(&m),
            None => false,
        },
        None => false,
    }
}

/// The new file name for `append_stats`, or `None` when the name is left as it is.
pub fn stats_file_name(file: &str, roots: usize, modules: usize) -> (r: Option<String>)
    ensures
        r matches Some(n) ==> stats_name(file@, roots as nat, modules as nat) == Some(n@),
        r is None ==> stats_name(file@, roots as nat, modules as nat) is None,
{
    let f = chars_of(file);
    if !starts_with_str(&f, "ak-ferry-") || !ends_with_str(&f, ".zip") {
        return None;
    }
    proof {
        reveal_strlit(".zip");
    }
    let stem = slice_of(&f, 0, f.len() - 4);
    assert(stem@ == file@.take(file@.len() - 4));
    if stats_tagged_chars(&stem) {
        return None;
    }
    let mut out = stem;
    append_str(&mut out, "-r");
    let dr = dec_chars(roots);
    append_chars(&mut out, &dr);
    append_str(&mut out, "-m");
    let dm = dec_chars(modules);
    append_chars(&mut out, &dm);
    append_str(&mut out, ".zip");
    Some(string_of(&out))
}

/// The text of `append_stats(path)` for a path with text `p`, file name
/// `file` and parent text `parent`: the parent joined with the tagged name
/// (the name alone when there is no parent or it is empty), or the path
/// unchanged when its name is not an untagged automatic ferry name.
pub open spec fn stats_path_text(
    p: Seq<char>,
    file: Option<Seq<char>>,
    parent: Option<Seq<char>>,
    roots: nat,
    modules: nat,
) -> Seq<char> {
    match file {
        None => p,
        Some(f) => match stats_name(f, roots, modules) {
            None => p,
            Some(n) => match parent {
                Some(q) => if q.len() == 0 {
                    n
                } else {
                    joined_text(q, n)
                },
                None => n,
            },
        },
    }
}

/// Insert `-r{roots}-m{modules}` before `.zip` when the path looks like an
/// automatic ferry name; any other path is returned unchanged.
pub fn append_stats(path: &Path, roots: usize, modules: usize) -> (r: PathBuf)
    ensures
        pathbuf_text(&r) == stats_path_text(
            path_text(path),
            file_name_of(path),
            parent_text_of(path),
            roots as nat,
            modules as nat,
        ),
{
    let file = match path_file_name(path) {
        Some(f) => f,
        None => return path_to_buf(path),
    };
    match stats_file_name(file.as_str(), roots, modules) {
        None => path_to_buf(path),
        Some(new_name) => match path_parent(path) {
            Some(parent) => {
                if pathbuf_is_empty(&parent) {
                    path_from(new_name.as_str())
                } else {
                    pathbuf_join(&parent, new_name.as_str())
                }
            },
            None => path_from(new_name.as_str()),
        },
    }
}

/// Resolve the on-disk output of a job: the explicit `output` when given (and
/// `false`), else an automatic name under `output_dir` (and `true`).
pub fn resolve_job_output(
    explicit: Option<&Path>,
    output_dir: &Path,
    ecosystem: Ecosystem,
    all_versions: bool,
    targets: &[String],
    nodes: &[String],
    has_catalog: bool,
) -> (r: Option<(PathBuf, bool)>)
    ensures
        explicit is Some ==> r is Some,
        r matches Some(o) ==> o.1 == explicit.is_none(),
        explicit matches Some(p) ==> (r matches Some(o) && pathbuf_text(&o.0) == path_text(p)),
        explicit is None ==> (r matches Some(o) ==> exists|ts: Seq<char>|
            is_ferry_stamp(ts) && pathbuf_text(&o.0) == joined_text(
                path_text(output_dir),
                zip_name(ecosystem, ts, all_versions, strs(targets@), strs(nodes@), has_catalog),
            )),
{
    match explicit {
        Some(p) => Some((path_to_buf(p), false)),
        None => match default_ferry_zip_name(ecosystem, all_versions, targets, nodes, has_catalog) {
            Some(name) => Some((path_join(output_dir, name.as_str()), true)),
            None => None,
        },
    }
}


proof fn lemma_tag_parts(stem: Seq<char>, dr: Seq<char>, dm: Seq<char>)
    requires
        dr.len() >= 1,
        dm.len() >= 1,
        all_digits(dr),
        all_digits(dm),
    ensures
        stats_tagged(stem + "-r"@ + dr + "-m"@ + dm),
{
    reveal_strlit("-r");
    reveal_strlit("-m");
    let t = stem + "-r"@ + dr + "-m"@ + dm;
    let a = stem.len() as int;
    let pm = a + 2 + dr.len();
    assert(t.len() == pm + 2 + dm.len());
    // every '-' after the stem is the one of "-m"
    assert forall|j: int| a < j < t.len() && #[trigger] t[j] == '-' implies j == pm by {
        if a + 2 <= j < pm {
            assert(t[j] == dr[j - a - 2]);
            assert(is_digit(dr[j - a - 2]));
        } else if pm + 2 <= j {
            assert(t[j] == dm[j - pm - 2]);
            assert(is_digit(dm[j - pm - 2]));
        }
    }
    assert(t.subrange(a, a + 2) =~= "-r"@);
    assert(occurs_at(t, "-r"@, a));
    assert(t.subrange(pm, pm + 2) =~= "-m"@);
    assert(occurs_at(t, "-m"@, pm));
    lemma_rfind(t, "-r"@);
    lemma_rfind(t, "-m"@);
    lemma_find(t, "-r"@);
    match rfind(t, "-r"@) {
        Some(k) => {
            if k > a {
                assert(t.subrange(k, k + 2)[0] == '-');
                assert(t[k] == '-');
                assert(t.subrange(k, k + 2)[1] == 'r');
                assert(t[k + 1] == 'r');
            }
            assert(k == a);
            let tail = t.skip(a + 2);
            assert(tail =~= dr + "-m"@ + dm);
            let q = dr.len() as int;
            assert(tail.subrange(q, q + 2) =~= "-m"@);
            assert(occurs_at(tail, "-m"@, q));
            lemma_find(tail, "-m"@);
            match find(tail, "-m"@) {
                Some(k2) => {
                    if k2 < q {
                        assert(tail.subrange(k2, k2 + 2)[0] == '-');
                        assert(tail[k2] == dr[k2]);
                        assert(is_digit(dr[k2]));
                    }
                    assert(k2 == q);
                    assert(tail.take(q) =~= dr);
                    assert(tail.skip(q + 2) =~= dm);
                },
                None => {
                    assert(false);
                },
            }
        },
        None => {
            assert(false);
        },
    }
    assert(find(t, "-r"@) is Some);
    assert(rfind(t, "-m"@) is Some);
}

/// An automatic ferry name is tagged with its stats at most once: renaming the
/// result of `append_stats` again leaves it unchanged, whatever the counts.
pub proof fn lemma_append_stats_once(file: Seq<char>, roots: nat, modules: nat, roots2: nat, modules2: nat)
    requires
        stats_name(file, roots, modules) is Some,
    ensures
        stats_name(stats_name(file, roots, modules).unwrap(), roots2, modules2) is None,
{
    reveal_strlit("ak-ferry-");
    reveal_strlit(".zip");
    reveal_strlit("-r");
    reveal_strlit("-m");
    let stem = file.take(file.len() - 4);
    let n = stem + "-r"@ + dec(roots) + "-m"@ + dec(modules) + ".zip"@;
    assert(stats_name(file, roots, modules) == Some(n));
    // the prefix and the suffix of `file` do not overlap, so `stem` keeps the prefix
    if file.len() < 13 {
        let i = file.len() - 4;
        assert(file.skip(file.len() - 4)[0] == '.');
        assert(file[i] == '.');
        assert(file.take(9)[i] == file[i]);
        assert(false);
    }
    assert(n.take(9) =~= file.take(9));
    assert(starts_with(n, "ak-ferry-"@));
    assert(n.skip(n.len() - 4) =~= ".zip"@);
    assert(n.take(n.len() - 4) =~= stem + "-r"@ + dec(roots) + "-m"@ + dec(modules));
    lemma_dec_digits(roots);
    lemma_dec_digits(modules);
    lemma_tag_parts(stem, dec(roots), dec(modules));
}

} // verus!
