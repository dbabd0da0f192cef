//! `--all-versions`: which package names are expanded, and the roots that
//! their published versions become; and what a toolchain run added.
use vstd::prelude::*;

use crate::errors::AkError;
use crate::manifest::{opt_view, RootSpec};
use crate::pypi::{normalize_pypi_name, pypi_folder_name};
use crate::text::{append_str, chars_eq, chars_of, string_of, strs};

verus! {

/// The key under which two root names count as the same package: the
/// PyPI folder name for PyPI, the name itself otherwise.
pub open spec fn name_key(pypi: bool, name: Seq<char>) -> Seq<char> {
    if pypi {
        pypi_folder_name(name)
    } else {
        name
    }
}

/// Each name whose key was not seen before, in order (the first spelling wins).
pub open spec fn unique_by_key(pypi: bool, names: Seq<Seq<char>>) -> Seq<Seq<char>>
    decreases names.len(),
{
    if names.len() == 0 {
        seq![]
    } else {
        let r = unique_by_key(pypi, names.drop_last());
        if exists|i: int| 0 <= i < r.len() && name_key(pypi, #[trigger] r[i]) == name_key(pypi, names.last()) {
            r
        } else {
            r.push(names.last())
        }
    }
}

/// The names of a list of roots.
pub open spec fn root_names(rs: Seq<RootSpec>) -> Seq<Seq<char>> {
    rs.map_values(|r: RootSpec| r.name@)
}

pub fn key_of(pypi: bool, name: &str) -> (r: Vec<char>)
    ensures
        r@ == name_key(pypi, name@),
{
    if pypi {
        let n = normalize_pypi_name(name);
        chars_of(n.as_str())
    } else {
        chars_of(name)
    }
}

/// The package names to expand: each root name once, by first appearance
/// (PyPI names compare by their normalized form).
pub fn unique_names(roots: &Vec<RootSpec>, pypi: bool) -> (r: Vec<String>)
    ensures
        strs(r@) == unique_by_key(pypi, root_names(roots@)),
{
    let mut out: Vec<String> = Vec::new();
    let mut keys: Vec<Vec<char>> = Vec::new();
    let mut i: usize = 0;
    while i < roots.len()
        invariant
            i <= roots.len(),
            strs(out@) == unique_by_key(pypi, root_names(roots@).take(i as int)),
            keys@.len() == out@.len(),
            forall|j: int| 0 <= j < keys@.len() ==> (#[trigger] keys@[j])@ == name_key(pypi, out@[j]@),
        decreases roots.len() - i,
    {
        let ghost names = root_names(roots@).take(i + 1);
        assert(names.drop_last() =~= root_names(roots@).take(i as int));
        assert(names.last() == roots@[i as int].name@);
        let k = key_of(pypi, roots[i].name.as_str());
        let ghost r = strs(out@);
        let mut found = false;
        let mut j: usize = 0;
        while j < keys.len()
            invariant
                j <= keys.len(),
                keys@.len() == out@.len(),
                r == strs(out@),
                k@ == name_key(pypi, roots@[i as int].name@),
                i < roots.len(),
                forall|m: int| 0 <= m < keys@.len() ==> (#[trigger] keys@[m])@ == name_key(pypi, out@[m]@),
                found == exists|m: int| 0 <= m < j && name_key(pypi, #[trigger] r[m]) == k@,
            decreases keys.len() - j,
        {
            if chars_eq(&keys[j], &k) {
                assert(keys@[j as int]@ == name_key(pypi, r[j as int]));
                found = true;
            }
            j = j + 1;
        }
        if !found {
            out.push(roots[i].name.clone());
            keys.push(k);
            assert(strs(out@) =~= r.push(roots@[i as int].name@));
        }
        i = i + 1;
    }
    assert(root_names(roots@).take(roots.len() as int) =~= root_names(roots@));
    out
}

/// The roots of `name` at each of its versions, in order.
pub open spec fn version_roots(name: Seq<char>, versions: Seq<Seq<char>>) -> Seq<(Seq<char>, Option<Seq<char>>)> {
    versions.map_values(|v: Seq<char>| (name, Some(v)))
}

/// Append the roots of `name` at each of `versions`.
pub fn push_version_roots(out: &mut Vec<RootSpec>, name: &str, versions: &Vec<String>)
    ensures
        final(out)@.map_values(|r: RootSpec| r@) == old(out)@.map_values(|r: RootSpec| r@) + version_roots(
            name@,
            strs(versions@),
        ),
{
    let ghost base = out@.map_values(|r: RootSpec| r@);
    let mut i: usize = 0;
    while i < versions.len()
        invariant
            i <= versions.len(),
            out@.map_values(|r: RootSpec| r@) == base + version_roots(name@, strs(versions@).take(i as int)),
        decreases versions.len() - i,
    {
        let ghost before = out@.map_values(|r: RootSpec| r@);
        let r = RootSpec { name: String::from_str(name), version: Some(versions[i].clone()) };
        assert(r@ == (name@, Some(strs(versions@)[i as int])));
        out.push(r);
        assert(out@.map_values(|r: RootSpec| r@) =~= before.push((name@, Some(strs(versions@)[i as int]))));
        i = i + 1;
        assert(version_roots(name@, strs(versions@).take(i as int)) =~= version_roots(
            name@,
            strs(versions@).take(i - 1),
        ).push((name@, Some(strs(versions@)[i - 1]))));
    }
    assert(strs(versions@).take(versions.len() as int) =~= strs(versions@));
}

/// The error when listing the versions of a package found none:
/// `{listing} returned no versions`.
pub fn no_versions_listed(listing: &str) -> (e: AkError)
    ensures
        e is ConfigError,
        e.msg() == listing@ + " returned no versions"@,
{
    let mut v = chars_of(listing);
    append_str(&mut v, " returned no versions");
    AkError::ConfigError(string_of(&v))
}

// ---------------------------------------------------------------------------
// Lexicographic order
// ---------------------------------------------------------------------------

/// `a` sorts strictly before `b` (character by character; a proper prefix
/// first). For UTF-8 text this is the order of `str`'s `Ord`.
pub open spec fn seq_lt(a: Seq<char>, b: Seq<char>) -> bool
    decreases a.len(),
{
    if a.len() == 0 {
        b.len() > 0
    } else if b.len() == 0 {
        false
    } else if a[0] != b[0] {
        a[0] < b[0]
    } else {
        seq_lt(a.drop_first(), b.drop_first())
    }
}

pub proof fn lemma_seq_lt_irreflexive(a: Seq<char>)
    ensures
        !seq_lt(a, a),
    decreases a.len(),
{
    if a.len() > 0 {
        lemma_seq_lt_irreflexive(a.drop_first());
    }
}

pub proof fn lemma_seq_lt_total(a: Seq<char>, b: Seq<char>)
    ensures
        a == b || seq_lt(a, b) || seq_lt(b, a),
    decreases a.len(),
{
    if a.len() > 0 && b.len() > 0 {
        if a[0] == b[0] {
            lemma_seq_lt_total(a.drop_first(), b.drop_first());
            if a.drop_first() == b.drop_first() {
                assert(a =~= seq![a[0]] + a.drop_first());
                assert(b =~= seq![b[0]] + b.drop_first());
            }
        }
    } else if a.len() == 0 && b.len() == 0 {
        assert(a =~= b);
    }
}

pub proof fn lemma_seq_lt_asymmetric(a: Seq<char>, b: Seq<char>)
    requires
        seq_lt(a, b),
    ensures
        !seq_lt(b, a),
    decreases a.len(),
{
    if a.len() > 0 && b.len() > 0 && a[0] == b[0] {
        lemma_seq_lt_asymmetric(a.drop_first(), b.drop_first());
    }
}

pub proof fn lemma_seq_lt_transitive(a: Seq<char>, b: Seq<char>, c: Seq<char>)
    requires
        seq_lt(a, b),
        seq_lt(b, c),
    ensures
        seq_lt(a, c),
    decreases a.len(),
{
    if a.len() > 0 && b.len() > 0 && c.len() > 0 {
        if a[0] == b[0] && b[0] == c[0] {
            lemma_seq_lt_transitive(a.drop_first(), b.drop_first(), c.drop_first());
        }
    }
}

pub fn chars_lt(a: &Vec<char>, b: &Vec<char>) -> (r: bool)
    ensures
        r == seq_lt(a@, b@),
{
    let mut i: usize = 0;
    assert(a@.skip(0) =~= a@);
    assert(b@.skip(0) =~= b@);
    while i < a.len() && i < b.len() && a[i] == b[i]
        invariant
            i <= a.len(),
            i <= b.len(),
            seq_lt(a@, b@) == seq_lt(a@.skip(i as int), b@.skip(i as int)),
        decreases a.len() - i,
    {
        assert(a@.skip(i as int).drop_first() =~= a@.skip(i + 1));
        assert(b@.skip(i as int).drop_first() =~= b@.skip(i + 1));
        i = i + 1;
    }
    if i == a.len() {
        i < b.len()
    } else if i == b.len() {
        false
    } else {
        assert(a@.skip(i as int)[0] == a@[i as int]);
        assert(b@.skip(i as int)[0] == b@[i as int]);
        a[i] < b[i]
    }
}

/// Pairs ordered by name, then version.
pub open spec fn pair_lt(x: (Seq<char>, Seq<char>), y: (Seq<char>, Seq<char>)) -> bool {
    seq_lt(x.0, y.0) || (x.0 == y.0 && seq_lt(x.1, y.1))
}

/// Strictly increasing: sorted, and no pair twice.
pub open spec fn strictly_sorted(s: Seq<(Seq<char>, Seq<char>)>) -> bool {
    forall|i: int, j: int| 0 <= i < j < s.len() ==> pair_lt(#[trigger] s[i], #[trigger] s[j])
}

proof fn lemma_pair_lt_facts(x: (Seq<char>, Seq<char>), y: (Seq<char>, Seq<char>), z: (Seq<char>, Seq<char>))
    ensures
        !pair_lt(x, x),
        x == y || pair_lt(x, y) || pair_lt(y, x),
        pair_lt(x, y) ==> !pair_lt(y, x),
        pair_lt(x, y) && pair_lt(y, z) ==> pair_lt(x, z),
{
    lemma_seq_lt_irreflexive(x.0);
    lemma_seq_lt_irreflexive(x.1);
    lemma_seq_lt_total(x.0, y.0);
    lemma_seq_lt_total(x.1, y.1);
    if seq_lt(x.0, y.0) {
        lemma_seq_lt_asymmetric(x.0, y.0);
    }
    if seq_lt(x.1, y.1) {
        lemma_seq_lt_asymmetric(x.1, y.1);
    }
    if pair_lt(x, y) && pair_lt(y, z) {
        if seq_lt(x.0, y.0) && seq_lt(y.0, z.0) {
            lemma_seq_lt_transitive(x.0, y.0, z.0);
        }
        if seq_lt(x.1, y.1) && seq_lt(y.1, z.1) {
            lemma_seq_lt_transitive(x.1, y.1, z.1);
        }
    }
}

pub open spec fn pairs_view(v: Seq<(String, String)>) -> Seq<(Seq<char>, Seq<char>)> {
    v.map_values(|p: (String, String)| (p.0@, p.1@))
}

/// The pairs in increasing order, each once (`sort` then `dedup`).
pub fn sorted_unique(pairs: &Vec<(String, String)>) -> (r: Vec<(String, String)>)
    ensures
        strictly_sorted(pairs_view(r@)),
        pairs_view(r@).to_set() == pairs_view(pairs@).to_set(),
{
    let mut out: Vec<(String, String)> = Vec::new();
    let mut i: usize = 0;
    while i < pairs.len()
        invariant
            i <= pairs.len(),
            strictly_sorted(pairs_view(out@)),
            pairs_view(out@).to_set() == pairs_view(pairs@).take(i as int).to_set(),
        decreases pairs.len() - i,
    {
        let ghost o = pairs_view(out@);
        let ghost x = (pairs@[i as int].0@, pairs@[i as int].1@);
        let a0 = chars_of(pairs[i].0.as_str());
        let a1 = chars_of(pairs[i].1.as_str());
        // first position whose pair is not below x
        let mut p: usize = 0;
        while p < out.len()
            invariant
                p <= out.len(),
                o == pairs_view(out@),
                a0@ == x.0,
                a1@ == x.1,
                forall|k: int| 0 <= k < p ==> pair_lt(#[trigger] o[k], x),
            ensures
                p <= out.len(),
                forall|k: int| 0 <= k < p ==> pair_lt(#[trigger] o[k], x),
                p < out.len() ==> !pair_lt(o[p as int], x),
            decreases out.len() - p,
        {
            let b0 = chars_of(out[p].0.as_str());
            let b1 = chars_of(out[p].1.as_str());
            let below = chars_lt(&b0, &a0) || (chars_eq(&b0, &a0) && chars_lt(&b1, &a1));
            if !below {
                break;
            }
            p = p + 1;
        }
        let same = if p < out.len() {
            let b0 = chars_of(out[p].0.as_str());
            let b1 = chars_of(out[p].1.as_str());
            chars_eq(&b0, &a0) && chars_eq(&b1, &a1)
        } else {
            false
        };
        proof {
            assert(pairs_view(pairs@).take(i + 1) =~= pairs_view(pairs@).take(i as int).push(x));
            assert(pairs_view(pairs@).take(i + 1).to_set() =~= pairs_view(pairs@).take(i as int).to_set().insert(x)) by {
                broadcast use vstd::seq_lib::group_seq_properties;
            }
        }
        if same {
            proof {
                assert(o[p as int] == x);
                assert(o.to_set().insert(x) =~= o.to_set());
            }
        } else {
            proof {
                if p < out.len() {
                    lemma_pair_lt_facts(o[p as int], x, x);
                    assert(!pair_lt(o[p as int], x));
                    assert(o[p as int] != x);
                    assert(pair_lt(x, o[p as int]));
                }
            }
            out.insert(p, (pairs[i].0.clone(), pairs[i].1.clone()));
            proof {
                let n = pairs_view(out@);
                assert(n =~= o.take(p as int).push(x) + o.skip(p as int));
                assert forall|a: int, b: int| 0 <= a < b < n.len() implies pair_lt(#[trigger] n[a], #[trigger] n[b]) by {
                    if b < p {
                        assert(n[a] == o[a] && n[b] == o[b]);
                    } else if b == p {
                        assert(n[a] == o[a] && n[b] == x);
                    } else if a < p {
                        assert(n[a] == o[a] && n[b] == o[b - 1]);
                        lemma_pair_lt_facts(o[a], o[p as int], o[b - 1]);
                        if b - 1 > p {
                            assert(pair_lt(o[p as int], o[b - 1]));
                        }
                    } else if a == p {
                        assert(n[a] == x && n[b] == o[b - 1]);
                        lemma_pair_lt_facts(x, o[p as int], o[b - 1]);
                        if b - 1 > p {
                            assert(pair_lt(o[p as int], o[b - 1]));
                        }
                    } else {
                        assert(n[a] == o[a - 1] && n[b] == o[b - 1]);
                    }
                }
                assert(n.to_set() =~= o.to_set().insert(x)) by {
                    broadcast use vstd::seq_lib::group_seq_properties;
                    assert forall|y| n.contains(y) <==> (o.contains(y) || y == x) by {
                        if n.contains(y) {
                            let k = choose|k: int| 0 <= k < n.len() && n[k] == y;
                            if k < p {
                                assert(o[k] == y);
                            } else if k > p {
                                assert(o[k - 1] == y);
                            }
                        }
                        if o.contains(y) {
                            let k = choose|k: int| 0 <= k < o.len() && o[k] == y;
                            if k < p {
                                assert(n[k] == y);
                            } else {
                                assert(n[k + 1] == y);
                            }
                        }
                        if y == x {
                            assert(n[p as int] == y);
                        }
                    }
                }
            }
        }
        i = i + 1;
    }
    assert(pairs_view(pairs@).take(pairs.len() as int) =~= pairs_view(pairs@));
    out
}

} // verus!
