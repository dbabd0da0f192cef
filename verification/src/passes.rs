//! Fetch passes: how the roots of a ferry job expand into scheduled fetch
//! units, one per root, or one per root × target × runtime.
use vstd::prelude::*;

use crate::engine::RootPass;
use crate::json::{json_flag, json_get, json_get_flag, json_get_str, json_of, json_parse, json_str};
use crate::manifest::{clone_opt, opt_view, RootSpec};
use crate::text::{append_chars, append_str, chars_of, join, string_of, strs};

verus! {

/// The view of a root.
pub type RootV = (Seq<char>, Option<Seq<char>>);

/// The choices along one axis of the pass matrix: each listed value, or a
/// single "host default" (`None`) when none is listed.
pub open spec fn axis(v: Seq<Seq<char>>) -> Seq<Option<Seq<char>>> {
    if v.len() == 0 {
        seq![None]
    } else {
        v.map_values(|s: Seq<char>| Some(s))
    }
}

/// Every pair of choices, the first axis outermost.
pub open spec fn cross(a: Seq<Option<Seq<char>>>, b: Seq<Option<Seq<char>>>) -> Seq<(Option<Seq<char>>, Option<Seq<char>>)>
    decreases a.len(),
{
    if a.len() == 0 {
        seq![]
    } else {
        cross(a.drop_last(), b) + b.map_values(|y: Option<Seq<char>>| (a.last(), y))
    }
}

/// Every root with every pair of choices, roots outermost.
pub open spec fn matrix(roots: Seq<RootV>, ab: Seq<(Option<Seq<char>>, Option<Seq<char>>)>) -> Seq<(RootV, Option<Seq<char>>, Option<Seq<char>>)>
    decreases roots.len(),
{
    if roots.len() == 0 {
        seq![]
    } else {
        matrix(roots.drop_last(), ab) + ab.map_values(
            |p: (Option<Seq<char>>, Option<Seq<char>>)| (roots.last(), p.0, p.1),
        )
    }
}

/// The passes of a job as (root, pack only, first choice, second choice):
/// with `--all-versions` one pack-only pass per root; otherwise every root
/// with every target / platform and every runtime.
pub open spec fn pass_plan(roots: Seq<RootV>, all_versions: bool, a: Seq<Seq<char>>, b: Seq<Seq<char>>) -> Seq<(RootV, bool, Option<Seq<char>>, Option<Seq<char>>)> {
    if all_versions {
        roots.map_values(|r: RootV| (r, true, None::<Seq<char>>, None::<Seq<char>>))
    } else {
        matrix(roots, cross(axis(a), axis(b))).map_values(
            |t: (RootV, Option<Seq<char>>, Option<Seq<char>>)| (t.0, false, t.1, t.2),
        )
    }
}

/// The number of choices along an axis.
pub open spec fn axis_len(n: nat) -> nat {
    if n == 0 {
        1
    } else {
        n
    }
}

proof fn lemma_cross_len(a: Seq<Option<Seq<char>>>, b: Seq<Option<Seq<char>>>)
    ensures
        cross(a, b).len() == a.len() * b.len(),
    decreases a.len(),
{
    if a.len() > 0 {
        lemma_cross_len(a.drop_last(), b);
        assert((a.len() - 1) * b.len() + b.len() == a.len() * b.len()) by (nonlinear_arith);
    }
}

proof fn lemma_matrix_len(roots: Seq<RootV>, ab: Seq<(Option<Seq<char>>, Option<Seq<char>>)>)
    ensures
        matrix(roots, ab).len() == roots.len() * ab.len(),
    decreases roots.len(),
{
    if roots.len() > 0 {
        lemma_matrix_len(roots.drop_last(), ab);
        assert((roots.len() - 1) * ab.len() + ab.len() == roots.len() * ab.len()) by (nonlinear_arith);
    }
}

/// The number of passes: one per root with `--all-versions`, else one per
/// root, target / platform and runtime, a missing list counting as one.
pub proof fn lemma_pass_count(roots: Seq<RootV>, all_versions: bool, a: Seq<Seq<char>>, b: Seq<Seq<char>>)
    ensures
        pass_plan(roots, all_versions, a, b).len() == (if all_versions {
            roots.len()
        } else {
            roots.len() * (axis_len(a.len()) * axis_len(b.len()))
        }),
{
    lemma_cross_len(axis(a), axis(b));
    lemma_matrix_len(roots, cross(axis(a), axis(b)));
}

/// One fetch pass before its language context is encoded.
#[derive(Debug, Clone)]
pub struct PassPlan {
    pub pass_idx: usize,
    pub total: usize,
    pub root: RootSpec,
    /// `--all-versions`: fetch the root package alone.
    pub pack_only: bool,
    /// npm target label, or PyPI platform tag.
    pub first: Option<String>,
    /// npm Node version, or Python version.
    pub second: Option<String>,
}

pub open spec fn plan_view(p: PassPlan) -> (RootV, bool, Option<Seq<char>>, Option<Seq<char>>) {
    (p.root@, p.pack_only, opt_view(p.first), opt_view(p.second))
}

pub open spec fn plans_view(ps: Seq<PassPlan>) -> Seq<(RootV, bool, Option<Seq<char>>, Option<Seq<char>>)> {
    ps.map_values(|p: PassPlan| plan_view(p))
}

pub open spec fn roots_v(rs: Seq<RootSpec>) -> Seq<RootV> {
    rs.map_values(|r: RootSpec| r@)
}

/// A copy of a root.
pub fn clone_root(r: &RootSpec) -> (c: RootSpec)
    ensures
        c@ == r@,
{
    RootSpec { name: r.name.clone(), version: clone_opt(&r.version) }
}

fn axis_of(v: &Vec<String>) -> (r: Vec<Option<String>>)
    ensures
        r@.map_values(|o: Option<String>| opt_view(o)) == axis(strs(v@)),
{
    let mut out: Vec<Option<String>> = Vec::new();
    if v.len() == 0 {
        out.push(None);
        assert(out@.map_values(|o: Option<String>| opt_view(o)) =~= axis(strs(v@)));
        return out;
    }
    let mut i: usize = 0;
    while i < v.len()
        invariant
            i <= v.len(),
            v.len() > 0,
            out@.map_values(|o: Option<String>| opt_view(o)) == strs(v@).take(i as int).map_values(|s: Seq<char>| Some(s)),
        decreases v.len() - i,
    {
        let ghost before = out@.map_values(|o: Option<String>| opt_view(o));
        let item = Some(v[i].clone());
        assert(opt_view(item) == Some(strs(v@)[i as int]));
        out.push(item);
        assert(out@.map_values(|o: Option<String>| opt_view(o)) =~= before.push(Some(strs(v@)[i as int])));
        i = i + 1;
        assert(out@.map_values(|o: Option<String>| opt_view(o)) =~= strs(v@).take(i as int).map_values(|s: Seq<char>| Some(s)));
    }
    assert(strs(v@).take(v.len() as int) =~= strs(v@));
    out
}

/// The fetch passes of a job, numbered `1..=total` in order. With
/// `all_versions`, one pack-only pass per root; otherwise, for each root in
/// order, each of `first` (or the host default when empty) and, within it,
/// each of `second` (or the host default).
pub fn plan_passes(roots: &Vec<RootSpec>, all_versions: bool, first: &Vec<String>, second: &Vec<String>) -> (r: Vec<PassPlan>)
    requires
        roots.len() * (axis_len(first.len() as nat) * axis_len(second.len() as nat)) <= usize::MAX,
    ensures
        plans_view(r@) == pass_plan(roots_v(roots@), all_versions, strs(first@), strs(second@)),
        forall|k: int| 0 <= k < r@.len() ==> (#[trigger] r@[k]).pass_idx == k + 1 && r@[k].total == r@.len(),
        r@.len() == (if all_versions {
            roots.len() as int
        } else {
            roots.len() * (axis_len(first.len() as nat) * axis_len(second.len() as nat))
        }),
{
    proof {
        lemma_pass_count(roots_v(roots@), all_versions, strs(first@), strs(second@));
    }
    let mut out: Vec<PassPlan> = Vec::new();
    if all_versions {
        let total = roots.len();
        let mut i: usize = 0;
        while i < roots.len()
            invariant
                i <= roots.len(),
                total == roots.len(),
                out@.len() == i,
                plans_view(out@) == roots_v(roots@).take(i as int).map_values(
                    |r: RootV| (r, true, None::<Seq<char>>, None::<Seq<char>>),
                ),
                forall|k: int| 0 <= k < out@.len() ==> (#[trigger] out@[k]).pass_idx == k + 1 && out@[k].total == total,
            decreases roots.len() - i,
        {
            let ghost before = plans_view(out@);
            let p = PassPlan { pass_idx: i + 1, total, root: clone_root(&roots[i]), pack_only: true, first: None, second: None };
            let ghost pv = plan_view(p);
            assert(pv == (roots_v(roots@)[i as int], true, None::<Seq<char>>, None::<Seq<char>>));
            out.push(p);
            assert(plans_view(out@) =~= before.push(pv));
            i = i + 1;
            assert(plans_view(out@) =~= roots_v(roots@).take(i as int).map_values(
                |r: RootV| (r, true, None::<Seq<char>>, None::<Seq<char>>),
            ));
        }
        assert(roots_v(roots@).take(roots.len() as int) =~= roots_v(roots@));
        return out;
    }
    let a = axis_of(first);
    let b = axis_of(second);
    let ghost av = a@.map_values(|o: Option<String>| opt_view(o));
    let ghost bv = b@.map_values(|o: Option<String>| opt_view(o));
    proof {
        lemma_cross_len(av, bv);
        lemma_matrix_len(roots_v(roots@), cross(av, bv));
    }
    // every pair of choices, first axis outermost
    let mut ab: Vec<(Option<String>, Option<String>)> = Vec::new();
    let mut i: usize = 0;
    while i < a.len()
        invariant
            i <= a.len(),
            av == a@.map_values(|o: Option<String>| opt_view(o)),
            bv == b@.map_values(|o: Option<String>| opt_view(o)),
            ab@.map_values(|p: (Option<String>, Option<String>)| (opt_view(p.0), opt_view(p.1))) == cross(av.take(i as int), bv),
        decreases a.len() - i,
    {
        let ghost base = ab@.map_values(|p: (Option<String>, Option<String>)| (opt_view(p.0), opt_view(p.1)));
        assert(av.take(i + 1).drop_last() =~= av.take(i as int));
        assert(av.take(i + 1).last() == av[i as int]);
        let mut j: usize = 0;
        while j < b.len()
            invariant
                j <= b.len(),
                i < a.len(),
                av == a@.map_values(|o: Option<String>| opt_view(o)),
                bv == b@.map_values(|o: Option<String>| opt_view(o)),
                ab@.map_values(|p: (Option<String>, Option<String>)| (opt_view(p.0), opt_view(p.1))) == base + bv.take(j as int).map_values(
                    |y: Option<Seq<char>>| (av[i as int], y),
                ),
            decreases b.len() - j,
        {
            let ghost before = ab@.map_values(|p: (Option<String>, Option<String>)| (opt_view(p.0), opt_view(p.1)));
            let pair = (clone_opt(&a[i]), clone_opt(&b[j]));
            assert((opt_view(pair.0), opt_view(pair.1)) == (av[i as int], bv[j as int]));
            ab.push(pair);
            assert(ab@.map_values(|p: (Option<String>, Option<String>)| (opt_view(p.0), opt_view(p.1))) =~= before.push((av[i as int], bv[j as int])));
            j = j + 1;
            assert(ab@.map_values(|p: (Option<String>, Option<String>)| (opt_view(p.0), opt_view(p.1))) =~= base + bv.take(j as int).map_values(
                |y: Option<Seq<char>>| (av[i as int], y),
            ));
        }
        assert(bv.take(b.len() as int) =~= bv);
        i = i + 1;
    }
    assert(av.take(a.len() as int) =~= av);
    let ghost abv = ab@.map_values(|p: (Option<String>, Option<String>)| (opt_view(p.0), opt_view(p.1)));
    assert(abv.len() == ab.len());
    let total = roots.len() * ab.len();
    let mut r: usize = 0;
    while r < roots.len()
        invariant
            r <= roots.len(),
            total == roots.len() * ab.len(),
            abv == ab@.map_values(|p: (Option<String>, Option<String>)| (opt_view(p.0), opt_view(p.1))),
            out@.len() == r * ab.len(),
            out@.len() <= total,
            plans_view(out@) == matrix(roots_v(roots@).take(r as int), abv).map_values(
                |t: (RootV, Option<Seq<char>>, Option<Seq<char>>)| (t.0, false, t.1, t.2),
            ),
            forall|k: int| 0 <= k < out@.len() ==> (#[trigger] out@[k]).pass_idx == k + 1 && out@[k].total == total,
        decreases roots.len() - r,
    {
        let ghost base = plans_view(out@);
        let ghost rv = roots@[r as int]@;
        assert(roots_v(roots@).take(r + 1).drop_last() =~= roots_v(roots@).take(r as int));
        assert(roots_v(roots@).take(r + 1).last() == rv);
        assert((r + 1) * ab.len() == r * ab.len() + ab.len()) by (nonlinear_arith);
        assert((r + 1) * ab.len() <= roots.len() * ab.len()) by (nonlinear_arith)
            requires r + 1 <= roots.len();
        let mut j: usize = 0;
        while j < ab.len()
            invariant
                j <= ab.len(),
                r < roots.len(),
                total == roots.len() * ab.len(),
                abv == ab@.map_values(|p: (Option<String>, Option<String>)| (opt_view(p.0), opt_view(p.1))),
                out@.len() == r * ab.len() + j,
                r * ab.len() + ab.len() <= total,
                rv == roots@[r as int]@,
                plans_view(out@) == base + abv.take(j as int).map_values(
                    |p: (Option<Seq<char>>, Option<Seq<char>>)| (rv, false, p.0, p.1),
                ),
                forall|k: int| 0 <= k < out@.len() ==> (#[trigger] out@[k]).pass_idx == k + 1 && out@[k].total == total,
            decreases ab.len() - j,
        {
            let idx = out.len() + 1;
            let p = PassPlan {
                pass_idx: idx,
                total,
                root: clone_root(&roots[r]),
                pack_only: false,
                first: clone_opt(&ab[j].0),
                second: clone_opt(&ab[j].1),
            };
            let ghost before = plans_view(out@);
            let ghost pv = plan_view(p);
            assert(pv == (rv, false, abv[j as int].0, abv[j as int].1));
            out.push(p);
            assert(plans_view(out@) =~= before.push(pv));
            j = j + 1;
            assert(plans_view(out@) =~= base + abv.take(j as int).map_values(
                |p: (Option<Seq<char>>, Option<Seq<char>>)| (rv, false, p.0, p.1),
            ));
        }
        assert(abv.take(ab.len() as int) =~= abv);
        r = r + 1;
        assert(plans_view(out@) =~= matrix(roots_v(roots@).take(r as int), abv).map_values(
            |t: (RootV, Option<Seq<char>>, Option<Seq<char>>)| (t.0, false, t.1, t.2),
        ));
    }
    assert(roots_v(roots@).take(roots.len() as int) =~= roots_v(roots@));
    out
}

/// The scheduled pass of a plan, with its language context as encoded by the
/// caller.
pub fn pass_of(plan: &PassPlan, context: String) -> (p: RootPass)
    ensures
        p.pass_idx == plan.pass_idx,
        p.total == plan.total,
        p.root@ == plan.root@,
        p.context == context,
{
    RootPass { pass_idx: plan.pass_idx, total: plan.total, root: clone_root(&plan.root), context }
}

/// The passes of a language with no target axes: one per root, numbered
/// `1..=n`, with an empty context.
pub fn default_passes(roots: &Vec<RootSpec>) -> (r: Vec<RootPass>)
    ensures
        r@.len() == roots@.len(),
        forall|k: int| 0 <= k < r@.len() ==> (#[trigger] r@[k]).pass_idx == k + 1 && r@[k].total == roots@.len()
            && r@[k].root@ == roots@[k]@ && r@[k].context@.len() == 0,
{
    let mut out: Vec<RootPass> = Vec::new();
    let total = roots.len();
    let mut i: usize = 0;
    while i < roots.len()
        invariant
            i <= roots.len(),
            total == roots.len(),
            out@.len() == i,
            forall|k: int| 0 <= k < i ==> (#[trigger] out@[k]).pass_idx == k + 1 && out@[k].total == total
                && out@[k].root@ == roots@[k]@ && out@[k].context@.len() == 0,
        decreases roots.len() - i,
    {
        out.push(RootPass { pass_idx: i + 1, total, root: clone_root(&roots[i]), context: String::new() });
        i = i + 1;
    }
    out
}

/// A choice of the pass matrix as shown to the user: `host` when absent.
pub open spec fn or_host(o: Option<Seq<char>>) -> Seq<char> {
    match o {
        Some(s) => s,
        None => "host"@,
    }
}

/// What a pass records as the `via` of its modules:
/// `{spec} [{first}/{runtime}-{second}]`, `host` standing for an absent choice.
pub open spec fn pass_via_spec(spec: Seq<char>, first: Option<Seq<char>>, second: Option<Seq<char>>, runtime: Seq<char>) -> Seq<char> {
    spec + " ["@ + or_host(first) + "/"@ + runtime + "-"@ + or_host(second) + "]"@
}

pub fn pass_via(spec: &str, first: Option<&str>, second: Option<&str>, runtime: &str) -> (r: String)
    ensures
        r@ == pass_via_spec(spec@, crate::config::opt_str(first), crate::config::opt_str(second), runtime@),
{
    let mut v = chars_of(spec);
    append_str(&mut v, " [");
    match first {
        Some(f) => append_str(&mut v, f),
        None => append_str(&mut v, "host"),
    }
    append_str(&mut v, "/");
    append_str(&mut v, runtime);
    append_str(&mut v, "-");
    match second {
        Some(x) => append_str(&mut v, x),
        None => append_str(&mut v, "host"),
    }
    append_str(&mut v, "]");
    string_of(&v)
}

/// The first resolved pair that is the root package (by name, or by PyPI
/// normalized name), if any.
pub open spec fn first_root_match(pairs: Seq<(Seq<char>, Seq<char>)>, pypi: bool, name: Seq<char>) -> Option<Seq<char>>
    decreases pairs.len(),
{
    if pairs.len() == 0 {
        None
    } else if crate::expand::name_key(pypi, pairs[0].0) == crate::expand::name_key(pypi, name) {
        Some(pairs[0].1)
    } else {
        first_root_match(pairs.drop_first(), pypi, name)
    }
}

/// The version under which a root's closure is recorded: the version the
/// toolchain resolved for the root package, else the requested one, else empty.
pub open spec fn closure_version(pairs: Seq<(Seq<char>, Seq<char>)>, pypi: bool, name: Seq<char>, version: Option<Seq<char>>) -> Seq<char> {
    match first_root_match(pairs, pypi, name) {
        Some(v) => v,
        None => match version {
            Some(v) => v,
            None => Seq::empty(),
        },
    }
}

proof fn lemma_first_root_match_at(pairs: Seq<(Seq<char>, Seq<char>)>, pypi: bool, name: Seq<char>, j: int)
    requires
        0 <= j < pairs.len(),
        crate::expand::name_key(pypi, pairs[j].0) == crate::expand::name_key(pypi, name),
        forall|k: int| 0 <= k < j ==> crate::expand::name_key(pypi, #[trigger] pairs[k].0) != crate::expand::name_key(pypi, name),
    ensures
        first_root_match(pairs, pypi, name) == Some(pairs[j].1),
    decreases j,
{
    if j > 0 {
        assert(crate::expand::name_key(pypi, pairs[0].0) != crate::expand::name_key(pypi, name));
        let rest = pairs.drop_first();
        assert forall|k: int| 0 <= k < j - 1 implies crate::expand::name_key(pypi, #[trigger] rest[k].0)
            != crate::expand::name_key(pypi, name) by {
            assert(rest[k] == pairs[k + 1]);
        }
        assert(rest[j - 1] == pairs[j]);
        lemma_first_root_match_at(rest, pypi, name, j - 1);
    }
}

proof fn lemma_first_root_match_none(pairs: Seq<(Seq<char>, Seq<char>)>, pypi: bool, name: Seq<char>)
    requires
        forall|k: int| 0 <= k < pairs.len() ==> crate::expand::name_key(pypi, #[trigger] pairs[k].0) != crate::expand::name_key(pypi, name),
    ensures
        first_root_match(pairs, pypi, name) is None,
    decreases pairs.len(),
{
    if pairs.len() > 0 {
        let rest = pairs.drop_first();
        assert forall|k: int| 0 <= k < rest.len() implies crate::expand::name_key(pypi, #[trigger] rest[k].0)
            != crate::expand::name_key(pypi, name) by {
            assert(rest[k] == pairs[k + 1]);
        }
        assert(crate::expand::name_key(pypi, pairs[0].0) != crate::expand::name_key(pypi, name));
        lemma_first_root_match_none(rest, pypi, name);
    }
}

/// Outside PyPI, the closure of a root is recorded under the version of the
/// first resolved pair named exactly as the root, whatever was requested.
pub proof fn lemma_closure_version_exact_name(
    pairs: Seq<(Seq<char>, Seq<char>)>,
    name: Seq<char>,
    version: Option<Seq<char>>,
    j: int,
)
    requires
        0 <= j < pairs.len(),
        pairs[j].0 == name,
        forall|k: int| 0 <= k < j ==> (#[trigger] pairs[k]).0 != name,
    ensures
        closure_version(pairs, false, name, version) == pairs[j].1,
{
    lemma_first_root_match_at(pairs, false, name, j);
}

/// For PyPI, the closure of a root is recorded under the version of the
/// first resolved pair whose normalized name is the root's, whatever was
/// requested.
pub proof fn lemma_closure_version_pypi_name(
    pairs: Seq<(Seq<char>, Seq<char>)>,
    name: Seq<char>,
    version: Option<Seq<char>>,
    j: int,
)
    requires
        0 <= j < pairs.len(),
        crate::pypi::pypi_folder_name(pairs[j].0) == crate::pypi::pypi_folder_name(name),
        forall|k: int| 0 <= k < j ==> crate::pypi::pypi_folder_name((#[trigger] pairs[k]).0)
            != crate::pypi::pypi_folder_name(name),
    ensures
        closure_version(pairs, true, name, version) == pairs[j].1,
{
    assert forall|k: int| 0 <= k < j implies crate::expand::name_key(true, #[trigger] pairs[k].0)
        != crate::expand::name_key(true, name) by {
        assert(crate::pypi::pypi_folder_name(pairs[k].0) != crate::pypi::pypi_folder_name(name));
    }
    lemma_first_root_match_at(pairs, true, name, j);
}

/// When no resolved pair is the root (by exact name, or by normalized name
/// for PyPI), the requested version is used, or nothing without one.
pub proof fn lemma_closure_version_unresolved(
    pairs: Seq<(Seq<char>, Seq<char>)>,
    pypi: bool,
    name: Seq<char>,
    version: Option<Seq<char>>,
)
    requires
        !pypi ==> forall|k: int| 0 <= k < pairs.len() ==> (#[trigger] pairs[k]).0 != name,
        pypi ==> forall|k: int| 0 <= k < pairs.len() ==> crate::pypi::pypi_folder_name((#[trigger] pairs[k]).0)
            != crate::pypi::pypi_folder_name(name),
    ensures
        closure_version(pairs, pypi, name, version) == (match version {
            Some(v) => v,
            None => Seq::<char>::empty(),
        }),
{
    assert forall|k: int| 0 <= k < pairs.len() implies crate::expand::name_key(pypi, #[trigger] pairs[k].0)
        != crate::expand::name_key(pypi, name) by {
        if pypi {
            assert(crate::pypi::pypi_folder_name(pairs[k].0) != crate::pypi::pypi_folder_name(name));
        } else {
            assert(pairs[k].0 != name);
        }
    }
    lemma_first_root_match_none(pairs, pypi, name);
}

pub fn resolved_root_version(pairs: &Vec<(String, String)>, pypi: bool, root: &RootSpec) -> (r: String)
    ensures
        r@ == closure_version(crate::expand::pairs_view(pairs@), pypi, root.name@, opt_view(root.version)),
{
    let ghost pv = crate::expand::pairs_view(pairs@);
    let rk = crate::expand::key_of(pypi, root.name.as_str());
    let mut i: usize = 0;
    assert(pv.skip(0) =~= pv);
    while i < pairs.len()
        invariant
            i <= pairs.len(),
            pv == crate::expand::pairs_view(pairs@),
            rk@ == crate::expand::name_key(pypi, root.name@),
            first_root_match(pv, pypi, root.name@) == first_root_match(pv.skip(i as int), pypi, root.name@),
        decreases pairs.len() - i,
    {
        assert(pv.skip(i as int)[0] == pv[i as int]);
        assert(pv.skip(i as int).drop_first() =~= pv.skip(i + 1));
        let k = crate::expand::key_of(pypi, pairs[i].0.as_str());
        if crate::text::chars_eq(&k, &rk) {
            return pairs[i].1.clone();
        }
        i = i + 1;
    }
    assert(pv.skip(i as int).len() == 0);
    match &root.version {
        Some(v) => v.clone(),
        None => String::new(),
    }
}


/// The choices of one matrix axis as a job's note shows them: `host` when
/// none is given, else the choices joined with `,`.
pub open spec fn choices_text(v: Seq<Seq<char>>) -> Seq<char> {
    if v.len() == 0 {
        "host"@
    } else {
        join(v, ","@)
    }
}

/// The note shown before an npm (`npm`) or PyPI job that has a platform /
/// runtime matrix; none when both axes are empty.
pub open spec fn matrix_note_spec(npm: bool, all_versions: bool, first: Seq<Seq<char>>, second: Seq<Seq<char>>) -> Option<Seq<char>> {
    if first.len() == 0 && second.len() == 0 {
        None
    } else if all_versions {
        if npm {
            Some(
                "note: --target/--node are ignored with --all-versions (packs root tarballs only); list platform/ABI packages explicitly if needed"@,
            )
        } else {
            Some("note: --target/--node are ignored with --all-versions (root dists only, --no-deps)"@)
        }
    } else if npm {
        Some("npm platform targets: "@ + choices_text(first) + "; node: "@ + choices_text(second))
    } else {
        Some("pypi platforms: "@ + choices_text(first) + "; python: "@ + choices_text(second))
    }
}

fn choices_chars(v: &Vec<String>) -> (r: Vec<char>)
    ensures
        r@ == choices_text(strs(v@)),
{
    if v.len() == 0 {
        return chars_of("host");
    }
    let mut out: Vec<char> = Vec::new();
    let mut i: usize = 0;
    while i < v.len()
        invariant
            i <= v.len(),
            out@ == join(strs(v@).take(i as int), ","@),
        decreases v.len() - i,
    {
        assert(strs(v@).take(i + 1).drop_last() =~= strs(v@).take(i as int));
        if i > 0 {
            append_str(&mut out, ",");
        } else {
            assert(out@ =~= Seq::<char>::empty());
        }
        append_str(&mut out, v[i].as_str());
        i = i + 1;
        assert(strs(v@).take(i as int).last() == v@[i - 1]@);
    }
    assert(strs(v@).take(v.len() as int) =~= strs(v@));
    out
}

pub fn matrix_note(npm: bool, all_versions: bool, first: &Vec<String>, second: &Vec<String>) -> (r: Option<String>)
    ensures
        opt_view(r) == matrix_note_spec(npm, all_versions, strs(first@), strs(second@)),
{
    if first.len() == 0 && second.len() == 0 {
        return None;
    }
    if all_versions {
        if npm {
            return Some(
                String::from_str(
                    "note: --target/--node are ignored with --all-versions (packs root tarballs only); list platform/ABI packages explicitly if needed",
                ),
            );
        }
        return Some(String::from_str("note: --target/--node are ignored with --all-versions (root dists only, --no-deps)"));
    }
    let mut v = if npm {
        chars_of("npm platform targets: ")
    } else {
        chars_of("pypi platforms: ")
    };
    let a = choices_chars(first);
    append_chars(&mut v, &a);
    if npm {
        append_str(&mut v, "; node: ");
    } else {
        append_str(&mut v, "; python: ");
    }
    let b = choices_chars(second);
    append_chars(&mut v, &b);
    Some(string_of(&v))
}

/// The context of a pass read back from its JSON text: the `pack_only` flag
/// (`false` unless a boolean) and the two string choices (absent unless
/// strings); all absent when the text is not JSON.
pub open spec fn ctx_view(raw: Seq<char>, first_key: Seq<char>, second_key: Seq<char>) -> (
    bool,
    Option<Seq<char>>,
    Option<Seq<char>>,
) {
    match json_of(raw) {
        Ok(v) => (
            json_flag(json_get(v, "pack_only"@)),
            json_str(json_get(v, first_key)),
            json_str(json_get(v, second_key)),
        ),
        Err(_) => (false, None, None),
    }
}

/// Read a pass context back: (pack only, first choice, second choice).
pub fn decode_ctx(raw: &str, first_key: &str, second_key: &str) -> (r: (bool, Option<String>, Option<String>))
    ensures
        (r.0, opt_view(r.1), opt_view(r.2)) == ctx_view(raw@, first_key@, second_key@),
{
    match json_parse(raw) {
        Ok(v) => {
            let pack_only = json_get_flag(&v, "pack_only");
            let first = json_get_str(&v, first_key);
            let second = json_get_str(&v, second_key);
            (pack_only, first, second)
        },
        Err(_) => (false, None, None),
    }
}

} // verus!
