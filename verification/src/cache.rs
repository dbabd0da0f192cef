//! Keys of the ferry download cache, the layout of its blob store, and the
//! `--node` target list.
use vstd::prelude::*;

use crate::errors::AkError;
use crate::npm::{comma_items, split_comma_items};
use crate::text::{
    append_chars, append_str, chars_eq, chars_of, copy_chars, is_alnum, is_digit, keep_nonempty,
    nonempty_pieces, split_char, split_char_chars, string_of, strs, trim, trim_chars,
    trim_start_char, trim_start_char_chars, views,
};

verus! {

/// Identity of one cacheable download unit (one package/module version).
#[derive(Debug, Clone)]
pub struct CacheKey {
    pub ecosystem: String,
    pub name: String,
    pub version: String,
    /// npm platform label (`linux-x64`), or empty
    pub target: String,
    /// npm Node major/version label (`18`, `20.11.0`), or empty
    pub node: String,
}

impl View for CacheKey {
    type V = (Seq<char>, Seq<char>, Seq<char>, Seq<char>, Seq<char>);

    open spec fn view(&self) -> Self::V {
        (self.ecosystem@, self.name@, self.version@, self.target@, self.node@)
    }
}

/// The text of an optional label, empty when absent.
pub open spec fn or_empty(s: Option<&str>) -> Seq<char> {
    match s {
        Some(t) => t@,
        None => Seq::empty(),
    }
}

fn or_empty_string(s: Option<&str>) -> (r: String)
    ensures
        r@ == or_empty(s),
{
    match s {
        Some(t) => String::from_str(t),
        None => String::new(),
    }
}

impl CacheKey {
    pub fn npm(name: &str, version: &str, target: Option<&str>, node: Option<&str>) -> (k: Self)
        ensures
            k@ == ("npm"@, name@, version@, or_empty(target), or_empty(node)),
    {
        CacheKey {
            ecosystem: String::from_str("npm"),
            name: String::from_str(name),
            version: String::from_str(version),
            target: or_empty_string(target),
            node: or_empty_string(node),
        }
    }

    pub fn go(name: &str, version: &str) -> (k: Self)
        ensures
            k@ == ("go"@, name@, version@, Seq::<char>::empty(), Seq::<char>::empty()),
    {
        CacheKey {
            ecosystem: String::from_str("go"),
            name: String::from_str(name),
            version: String::from_str(version),
            target: String::new(),
            node: String::new(),
        }
    }

    pub fn pypi(name: &str, version: &str, platform: Option<&str>, python: Option<&str>) -> (k: Self)
        ensures
            k@ == ("pypi"@, name@, version@, or_empty(platform), or_empty(python)),
    {
        CacheKey {
            ecosystem: String::from_str("pypi"),
            name: String::from_str(name),
            version: String::from_str(version),
            target: or_empty_string(platform),
            node: or_empty_string(python),
        }
    }

    pub fn cargo(name: &str, version: &str) -> (k: Self)
        ensures
            k@ == ("cargo"@, name@, version@, Seq::<char>::empty(), Seq::<char>::empty()),
    {
        CacheKey {
            ecosystem: String::from_str("cargo"),
            name: String::from_str(name),
            version: String::from_str(version),
            target: String::new(),
            node: String::new(),
        }
    }
}

/// Characters that cannot stand in a blob-store path segment.
pub open spec fn is_unsafe_seg_char(c: char) -> bool {
    c == '/' || c == '\\' || c == ':' || c == '*' || c == '?' || c == '"' || c == '<' || c == '>'
        || c == '|'
}

/// A path segment with every unsafe character replaced by `_`.
pub open spec fn seg(s: Seq<char>) -> Seq<char> {
    s.map_values(|c: char| if is_unsafe_seg_char(c) { '_' } else { c })
}

pub fn sanitize_seg(s: &str) -> (r: String)
    ensures
        r@ == seg(s@),
{
    let v = chars_of(s);
    let mut out: Vec<char> = Vec::new();
    let mut i: usize = 0;
    while i < v.len()
        invariant
            i <= v.len(),
            out@ == seg(v@.take(i as int)),
        decreases v.len() - i,
    {
        let c = v[i];
        let bad = c == '/' || c == '\\' || c == ':' || c == '*' || c == '?' || c == '"' || c == '<'
            || c == '>' || c == '|';
        if bad {
            out.push('_');
        } else {
            out.push(c);
        }
        i = i + 1;
        assert(out@ =~= seg(v@.take(i as int)));
    }
    assert(v@.take(v.len() as int) =~= v@);
    string_of(&out)
}

/// The blob directory of a key, as path components below the blob root:
/// the ecosystem, each `/`-separated part of the name, the target and
/// `node-{node}` when set, and the version; every part sanitized but the
/// ecosystem.
pub open spec fn blob_parts(k: (Seq<char>, Seq<char>, Seq<char>, Seq<char>, Seq<char>)) -> Seq<Seq<char>> {
    seq![k.0] + split_char(k.1, '/').map_values(|p: Seq<char>| seg(p)) + (if k.3.len() > 0 {
        seq![seg(k.3)]
    } else {
        seq![]
    }) + (if k.4.len() > 0 {
        seq!["node-"@ + seg(k.4)]
    } else {
        seq![]
    }) + seq![seg(k.2)]
}

/// The components of the blob directory of `key` below the blob root.
pub fn blob_dir_parts(key: &CacheKey) -> (r: Vec<String>)
    ensures
        strs(r@) == blob_parts(key@),
{
    let mut out: Vec<String> = Vec::new();
    out.push(key.ecosystem.clone());
    let nv = chars_of(key.name.as_str());
    let pieces = split_char_chars(&nv, '/');
    let ghost first = strs(out@);
    let mut i: usize = 0;
    while i < pieces.len()
        invariant
            i <= pieces.len(),
            strs(out@) == first + views(pieces@).take(i as int).map_values(|p: Seq<char>| seg(p)),
        decreases pieces.len() - i,
    {
        let piece = string_of(&pieces[i]);
        let sp = sanitize_seg(piece.as_str());
        let ghost before = strs(out@);
        out.push(sp);
        assert(views(pieces@)[i as int] == pieces@[i as int]@);
        assert(strs(out@) =~= before.push(seg(views(pieces@)[i as int])));
        i = i + 1;
        assert(strs(out@) =~= first + views(pieces@).take(i as int).map_values(|p: Seq<char>| seg(p)));
    }
    assert(views(pieces@).take(pieces.len() as int) =~= views(pieces@));
    let ghost mid = strs(out@);
    if !key.target.as_str().is_empty() {
        out.push(sanitize_seg(key.target.as_str()));
        assert(strs(out@) =~= mid.push(seg(key.target@)));
        assert(strs(out@) =~= mid + seq![seg(key.target@)]);
    } else {
        assert(strs(out@) =~= mid + Seq::<Seq<char>>::empty());
    }
    let ghost mid2 = strs(out@);
    if !key.node.as_str().is_empty() {
        let mut nd = chars_of("node-");
        let s = sanitize_seg(key.node.as_str());
        let sv = chars_of(s.as_str());
        append_chars(&mut nd, &sv);
        out.push(string_of(&nd));
        assert(strs(out@) =~= mid2.push("node-"@ + seg(key.node@)));
        assert(strs(out@) =~= mid2 + seq!["node-"@ + seg(key.node@)]);
    } else {
        assert(strs(out@) =~= mid2 + Seq::<Seq<char>>::empty());
    }
    let ghost mid3 = strs(out@);
    out.push(sanitize_seg(key.version.as_str()));
    assert(strs(out@) =~= mid3 + seq![seg(key.version@)]);
    assert(strs(out@) =~= blob_parts(key@));
    out
}

// ---------------------------------------------------------------------------
// Recorded closures
// ---------------------------------------------------------------------------

/// The first occurrence of each element, in order.
pub open spec fn dedupe<A>(s: Seq<A>) -> Seq<A>
    decreases s.len(),
{
    if s.len() == 0 {
        seq![]
    } else {
        let r = dedupe(s.drop_last());
        if r.contains(s.last()) {
            r
        } else {
            r.push(s.last())
        }
    }
}

/// `dedupe` keeps exactly the elements of its argument, each once.
pub proof fn lemma_dedupe<A>(s: Seq<A>)
    ensures
        dedupe(s).no_duplicates(),
        forall|x: A| dedupe(s).contains(x) <==> s.contains(x),
        s.len() > 0 ==> dedupe(s).len() > 0 && dedupe(s)[0] == s[0],
    decreases s.len(),
{
    broadcast use vstd::seq_lib::group_seq_properties;
    if s.len() > 0 {
        let p = s.drop_last();
        let r = dedupe(p);
        lemma_dedupe(p);
        assert(s =~= p.push(s.last()));
        assert forall|x: A| dedupe(s).contains(x) <==> s.contains(x) by {
            assert(s.contains(x) <==> (p.contains(x) || x == s.last()));
            assert(r.contains(x) <==> p.contains(x));
            if r.contains(s.last()) {
                assert(dedupe(s) == r);
            } else {
                assert(dedupe(s) == r.push(s.last()));
                assert(r.push(s.last()).contains(x) <==> (r.contains(x) || x == s.last()));
            }
        }
        if s.len() == 1 {
            assert(p.len() == 0);
            assert(r.len() == 0);
            assert(dedupe(s) == r.push(s.last()));
        } else {
            assert(p[0] == s[0]);
        }
    }
}

/// The (name, version) pairs of a recorded closure: the root first, then
/// each recorded dependency once, in the order they were read.
pub fn closure_members_of(root_name: &str, root_version: &str, rows: &Vec<(String, String)>) -> (r: Vec<(String, String)>)
    ensures
        r@.map_values(|p: (String, String)| (p.0@, p.1@)) == dedupe(
            seq![(root_name@, root_version@)] + rows@.map_values(|p: (String, String)| (p.0@, p.1@)),
        ),
{
    let ghost all = seq![(root_name@, root_version@)] + rows@.map_values(
        |p: (String, String)| (p.0@, p.1@),
    );
    let mut out: Vec<(String, String)> = Vec::new();
    out.push((String::from_str(root_name), String::from_str(root_version)));
    assert(all.take(1).drop_last() =~= Seq::<(Seq<char>, Seq<char>)>::empty());
    assert(all.take(1).last() == (root_name@, root_version@));
    assert(dedupe(all.take(1).drop_last()) =~= Seq::<(Seq<char>, Seq<char>)>::empty());
    assert(dedupe(all.take(1)) =~= seq![(root_name@, root_version@)]);
    assert(out@.map_values(|p: (String, String)| (p.0@, p.1@)) =~= dedupe(all.take(1)));
    let mut i: usize = 0;
    while i < rows.len()
        invariant
            i <= rows.len(),
            all == seq![(root_name@, root_version@)] + rows@.map_values(|p: (String, String)| (p.0@, p.1@)),
            out@.map_values(|p: (String, String)| (p.0@, p.1@)) == dedupe(all.take(i + 1)),
        decreases rows.len() - i,
    {
        let ghost cur = out@.map_values(|p: (String, String)| (p.0@, p.1@));
        let ghost item = (rows@[i as int].0@, rows@[i as int].1@);
        assert(all.take(i + 2).drop_last() =~= all.take(i + 1));
        assert(all.take(i + 2).last() == item);
        let mut found = false;
        let mut j: usize = 0;
        while j < out.len()
            invariant
                j <= out.len(),
                cur == out@.map_values(|p: (String, String)| (p.0@, p.1@)),
                item == (rows@[i as int].0@, rows@[i as int].1@),
                i < rows.len(),
                found == exists|k: int| 0 <= k < j && cur[k] == item,
            decreases out.len() - j,
        {
            if out[j].0 == rows[i].0 && out[j].1 == rows[i].1 {
                assert(cur[j as int] == item);
                found = true;
            }
            j = j + 1;
        }
        if !found {
            assert(!cur.contains(item));
            out.push((rows[i].0.clone(), rows[i].1.clone()));
            assert(out@.map_values(|p: (String, String)| (p.0@, p.1@)) =~= cur.push(item));
        } else {
            assert(cur.contains(item));
        }
        i = i + 1;
    }
    assert(all.take(rows.len() + 1) =~= all);
    out
}

/// A recorded closure lists its root first and no member twice.
pub proof fn lemma_closure_members(root: (Seq<char>, Seq<char>), rows: Seq<(Seq<char>, Seq<char>)>)
    ensures
        dedupe(seq![root] + rows).no_duplicates(),
        dedupe(seq![root] + rows)[0] == root,
        forall|x: (Seq<char>, Seq<char>)| dedupe(seq![root] + rows).contains(x) <==> (x == root || rows.contains(x)),
{
    let all = seq![root] + rows;
    lemma_dedupe(all);
    assert forall|x: (Seq<char>, Seq<char>)| all.contains(x) <==> (x == root || rows.contains(x)) by {
        if rows.contains(x) {
            let i = choose|i: int| 0 <= i < rows.len() && rows[i] == x;
            assert(all[i + 1] == x);
        }
        if all.contains(x) && x != root {
            let i = choose|i: int| 0 <= i < all.len() && all[i] == x;
            assert(rows[i - 1] == x);
        }
        if x == root {
            assert(all[0] == x);
        }
    }
}

// ---------------------------------------------------------------------------
// Node targets
// ---------------------------------------------------------------------------

/// A Node label without surrounding blanks or leading `v`s.
pub open spec fn bare_node(raw: Seq<char>) -> Seq<char> {
    trim_start_char(trim(raw), 'v')
}

/// A Node label as npm / node-gyp take it: a bare major such as `18`
/// becomes `18.0.0`.
pub open spec fn node_target(raw: Seq<char>) -> Seq<char> {
    let s = bare_node(raw);
    if s.len() > 0 && (forall|i: int| 0 <= i < s.len() ==> is_digit(#[trigger] s[i])) {
        s + ".0.0"@
    } else {
        s
    }
}

pub fn normalize_node_target(raw: &str) -> (r: String)
    ensures
        r@ == node_target(raw@),
{
    let v = chars_of(raw);
    let t = trim_chars(&v);
    let mut s = trim_start_char_chars(&t, 'v');
    let mut all = true;
    let mut i: usize = 0;
    while i < s.len()
        invariant
            i <= s.len(),
            all == forall|j: int| 0 <= j < i ==> is_digit(#[trigger] s@[j]),
        decreases s.len() - i,
    {
        if !('0' <= s[i] && s[i] <= '9') {
            all = false;
        }
        i = i + 1;
    }
    if s.len() > 0 && all {
        append_str(&mut s, ".0.0");
    }
    string_of(&s)
}

/// Whether a `--node` item passes the light validation: ASCII letters,
/// digits, `.` and `-` only.
pub open spec fn valid_node(p: Seq<char>) -> bool {
    forall|i: int| 0 <= i < p.len() ==> is_alnum(#[trigger] p[i]) || p[i] == '.' || p[i] == '-'
}

/// The `--node` items of the raw values: comma-separated, trimmed, leading
/// `v`s removed, blanks dropped, in order.
pub open spec fn node_items(raw: Seq<Seq<char>>) -> Seq<Seq<char>> {
    nonempty_pieces(comma_items(raw).map_values(|p: Seq<char>| trim_start_char(p, 'v')))
}

/// Whether every `--node` item of the raw values passes validation.
pub open spec fn node_list_ok(raw: Seq<Seq<char>>) -> bool {
    forall|i: int| 0 <= i < node_items(raw).len() ==> valid_node(#[trigger] node_items(raw)[i])
}

/// The error for an invalid `--node` item.
pub open spec fn node_error(p: Seq<char>) -> Seq<char> {
    "Invalid --node '"@ + p + "' (expected major like 18 or version like 20.11.0)"@
}

fn node_items_chars(raw: &Vec<String>) -> (r: Vec<Vec<char>>)
    ensures
        views(r@) == node_items(strs(raw@)),
{
    let items = split_comma_items(raw.as_slice());
    let mut stripped: Vec<Vec<char>> = Vec::new();
    let mut i: usize = 0;
    while i < items.len()
        invariant
            i <= items.len(),
            views(stripped@) == views(items@).take(i as int).map_values(|p: Seq<char>| trim_start_char(p, 'v')),
        decreases items.len() - i,
    {
        let t = trim_start_char_chars(&items[i], 'v');
        let ghost before = views(stripped@);
        stripped.push(t);
        assert(views(items@)[i as int] == items@[i as int]@);
        assert(views(stripped@) =~= before.push(trim_start_char(views(items@)[i as int], 'v')));
        i = i + 1;
        assert(views(stripped@) =~= views(items@).take(i as int).map_values(|p: Seq<char>| trim_start_char(p, 'v')));
    }
    assert(views(items@).take(items.len() as int) =~= views(items@));
    keep_nonempty(&stripped)
}

fn valid_node_chars(p: &Vec<char>) -> (b: bool)
    ensures
        b == valid_node(p@),
{
    let mut i: usize = 0;
    while i < p.len()
        invariant
            i <= p.len(),
            forall|j: int| 0 <= j < i ==> is_alnum(#[trigger] p@[j]) || p@[j] == '.' || p@[j] == '-',
        decreases p.len() - i,
    {
        let c = p[i];
        let ok = ('a' <= c && c <= 'z') || ('A' <= c && c <= 'Z') || ('0' <= c && c <= '9') || c == '.'
            || c == '-';
        if !ok {
            return false;
        }
        i = i + 1;
    }
    true
}

/// The `--node` list: every item once, in order of first appearance; the
/// first item that fails validation is an error.
pub fn parse_node_list(raw: &Vec<String>) -> (r: Result<Vec<String>, AkError>)
    ensures
        r is Ok <==> node_list_ok(strs(raw@)),
        r matches Ok(out) ==> strs(out@) == dedupe(node_items(strs(raw@))),
        r matches Err(e) ==> (exists|i: int| 0 <= i < node_items(strs(raw@)).len() && !valid_node(#[trigger] node_items(strs(raw@))[i])
            && (forall|j: int| 0 <= j < i ==> valid_node(#[trigger] node_items(strs(raw@))[j]))
            && e is ConfigError && e.msg() == node_error(node_items(strs(raw@))[i])),
{
    let items = node_items_chars(raw);
    let ghost its = views(items@);
    let mut out: Vec<String> = Vec::new();
    let mut i: usize = 0;
    while i < items.len()
        invariant
            i <= items.len(),
            its == views(items@),
            its == node_items(strs(raw@)),
            strs(out@) == dedupe(its.take(i as int)),
            forall|j: int| 0 <= j < i ==> valid_node(#[trigger] its[j]),
        decreases items.len() - i,
    {
        assert(its.take(i + 1).drop_last() =~= its.take(i as int));
        assert(its[i as int] == items@[i as int]@);
        let ghost cur = strs(out@);
        let mut seen = false;
        let mut j: usize = 0;
        while j < out.len()
            invariant
                j <= out.len(),
                cur == strs(out@),
                i < items.len(),
                its == views(items@),
                seen == exists|k: int| 0 <= k < j && cur[k] == its[i as int],
            decreases out.len() - j,
        {
            let w = chars_of(out[j].as_str());
            if chars_eq(&w, &items[i]) {
                assert(cur[j as int] == its[i as int]);
                seen = true;
            }
            j = j + 1;
        }
        if seen {
            assert(cur.contains(its[i as int]));
            assert(dedupe(its.take(i + 1)) == cur);
            proof {
                lemma_dedupe(its.take(i as int));
                assert(its.take(i as int).contains(its[i as int]));
                let m = choose|m: int| 0 <= m < i && its.take(i as int)[m] == its[i as int];
                assert(its[m] == its[i as int]);
            }
        } else {
            assert(!cur.contains(its[i as int]));
            if !valid_node_chars(&items[i]) {
                let mut m = chars_of("Invalid --node '");
                append_chars(&mut m, &items[i]);
                append_str(&mut m, "' (expected major like 18 or version like 20.11.0)");
                return Err(AkError::ConfigError(string_of(&m)));
            }
            out.push(string_of(&items[i]));
            assert(strs(out@) =~= cur.push(its[i as int]));
        }
        i = i + 1;
    }
    assert(its.take(items.len() as int) =~= its);
    Ok(out)
}

} // verus!
