//! Go module roots: `go.mod` `require` directives and module lists.
use vstd::prelude::*;

use crate::manifest::{roots_view, RootSpec};
use crate::text::{
    append_str, before_str, before_str_chars, chars_eq_str, chars_of, contains, find_str, lines,
    lines_chars, lower_chars, lower_str, starts_with, starts_with_str, string_of, strip_prefix,
    strip_prefix_str, trim, trim_chars, trim_start, trim_start_chars, views, words, words_chars,
};

verus! {

/// A root view: name and optional version.
pub type RootV = (Seq<char>, Option<Seq<char>>);

/// The module and version of a `require` line (comments after `//` dropped),
/// when it has at least two words.
pub open spec fn require_entry(rest: Seq<char>) -> Option<RootV> {
    let ws = words(trim(before_str(rest, "//"@)));
    if ws.len() >= 2 {
        Some((ws[0], Some(ws[1])))
    } else {
        None
    }
}

pub open spec fn push_opt(out: Seq<RootV>, e: Option<RootV>) -> Seq<RootV> {
    match e {
        Some(x) => out.push(x),
        None => out,
    }
}

/// One line of `go.mod`: the roots so far and whether a `require ( … )`
/// block is open.
pub open spec fn go_mod_step(st: (Seq<RootV>, bool), raw: Seq<char>) -> (Seq<RootV>, bool) {
    let line = trim(raw);
    if starts_with(line, "require ("@) {
        (st.0, true)
    } else if st.1 {
        if line == ")"@ {
            (st.0, false)
        } else if line.len() == 0 || starts_with(line, "//"@) || contains(line, "// indirect"@) {
            st
        } else {
            (push_opt(st.0, require_entry(line)), true)
        }
    } else {
        match strip_prefix(line, "require "@) {
            Some(rest) => {
                let r = trim(rest);
                if starts_with(r, "("@) || contains(r, "// indirect"@) {
                    st
                } else {
                    (push_opt(st.0, require_entry(r)), false)
                }
            },
            None => st,
        }
    }
}

pub open spec fn go_mod_fold(ls: Seq<Seq<char>>) -> (Seq<RootV>, bool)
    decreases ls.len(),
{
    if ls.len() == 0 {
        (seq![], false)
    } else {
        go_mod_step(go_mod_fold(ls.drop_last()), ls.last())
    }
}

/// The direct requirements of a `go.mod` text (`// indirect` ones skipped).
pub open spec fn go_mod_requires(text: Seq<char>) -> Seq<RootV> {
    go_mod_fold(lines(text)).0
}

proof fn lemma_fold_versioned(ls: Seq<Seq<char>>)
    ensures
        forall|i: int| 0 <= i < go_mod_fold(ls).0.len() ==> (#[trigger] go_mod_fold(ls).0[i]).1 is Some,
    decreases ls.len(),
{
    if ls.len() > 0 {
        lemma_fold_versioned(ls.drop_last());
        let st = go_mod_fold(ls.drop_last());
        let line = trim(ls.last());
        let r = match strip_prefix(line, "require "@) {
            Some(rest) => trim(rest),
            None => line,
        };
        let e = if st.1 { require_entry(line) } else { require_entry(r) };
        assert(e matches Some(x) ==> x.1 is Some);
    }
}

/// Every root read from `go.mod` carries a version: none is returned bare.
pub proof fn lemma_go_mod_roots_versioned(text: Seq<char>)
    ensures
        forall|i: int| 0 <= i < go_mod_requires(text).len() ==> (#[trigger] go_mod_requires(text)[i]).1 is Some,
{
    lemma_fold_versioned(lines(text));
}

/// The single-line directive `require {module} {version}`.
pub open spec fn require_directive(module: Seq<char>, version: Seq<char>) -> Seq<char> {
    "require "@ + module + " "@ + version
}

/// A module and version that a single-line `require` can name: two words,
/// the module not starting a block, and no comment on the line.
pub open spec fn plain_requirement(module: Seq<char>, version: Seq<char>) -> bool {
    &&& module.len() > 0
    &&& version.len() > 0
    &&& crate::text::no_ws(module)
    &&& crate::text::no_ws(version)
    &&& module[0] != '('
    &&& !contains(module + " "@ + version, "//"@)
}

proof fn lemma_require_directive_step(rs: Seq<RootV>, m: Seq<char>, v: Seq<char>)
    requires
        plain_requirement(m, v),
    ensures
        go_mod_step((rs, false), require_directive(m, v)) == (rs.push((m, Some(v))), false),
{
    reveal_strlit("require ");
    reveal_strlit("require (");
    reveal_strlit(" ");
    reveal_strlit("(");
    reveal_strlit("//");
    reveal_strlit("// indirect");
    let e = m + " "@ + v;
    let line = require_directive(m, v);
    assert(line =~= "require "@ + e);
    assert(line[0] == 'r');
    assert(line.last() == v.last());
    assert(!crate::text::is_ws(v[v.len() - 1]));
    assert(!crate::text::is_ws(m[0]));
    crate::text::lemma_trim_unchanged(line);
    assert(line[8] == m[0]);
    assert(!starts_with(line, "require ("@)) by {
        if starts_with(line, "require ("@) {
            assert(line.take(9)[8] == line[8]);
        }
    }
    assert(line.take(8) =~= "require "@);
    assert(line.skip(8) =~= e);
    assert(e[0] == m[0]);
    assert(e.last() == v.last());
    crate::text::lemma_trim_unchanged(e);
    assert(!starts_with(e, "("@)) by {
        if starts_with(e, "("@) {
            assert(e.take(1)[0] == e[0]);
        }
    }
    crate::text::lemma_find(e, "//"@);
    crate::text::lemma_find(e, "// indirect"@);
    assert(!contains(e, "// indirect"@)) by {
        if let Some(k) = crate::text::find(e, "// indirect"@) {
            assert(e.subrange(k, k + 11) == "// indirect"@);
            assert("// indirect"@.take(2) =~= "//"@);
            assert(e.subrange(k, k + 2) =~= e.subrange(k, k + 11).take(2));
            assert(crate::text::occurs_at(e, "//"@, k));
        }
    }
    assert(before_str(e, "//"@) == e);
    crate::text::lemma_words_two(m, v);
    assert(require_entry(e) == Some((m, Some(v))));
}

proof fn lemma_require_directives_fold(ps: Seq<(Seq<char>, Seq<char>)>, k: int)
    requires
        0 <= k <= ps.len(),
        forall|i: int| 0 <= i < ps.len() ==> plain_requirement((#[trigger] ps[i]).0, ps[i].1),
    ensures
        go_mod_fold(ps.map_values(|e: (Seq<char>, Seq<char>)| require_directive(e.0, e.1)).take(k)) == (
            ps.take(k).map_values(|e: (Seq<char>, Seq<char>)| (e.0, Some(e.1))),
            false,
        ),
    decreases k,
{
    let ls = ps.map_values(|e: (Seq<char>, Seq<char>)| require_directive(e.0, e.1));
    if k == 0 {
        assert(ls.take(0) =~= Seq::<Seq<char>>::empty());
        assert(ps.take(0).map_values(|e: (Seq<char>, Seq<char>)| (e.0, Some(e.1))) =~= Seq::<RootV>::empty());
    } else {
        lemma_require_directives_fold(ps, k - 1);
        assert(ls.take(k).drop_last() =~= ls.take(k - 1));
        assert(ls.take(k).last() == require_directive(ps[k - 1].0, ps[k - 1].1));
        lemma_require_directive_step(
            ps.take(k - 1).map_values(|e: (Seq<char>, Seq<char>)| (e.0, Some(e.1))),
            ps[k - 1].0,
            ps[k - 1].1,
        );
        assert(ps.take(k).map_values(|e: (Seq<char>, Seq<char>)| (e.0, Some(e.1))) =~= ps.take(k - 1).map_values(
            |e: (Seq<char>, Seq<char>)| (e.0, Some(e.1)),
        ).push((ps[k - 1].0, Some(ps[k - 1].1))));
    }
}

/// A `go.mod` made of single-line directives `require M_i V_i` names exactly
/// the roots `M_i` at versions `V_i`, in order.
pub proof fn lemma_go_mod_single_requires(text: Seq<char>, ps: Seq<(Seq<char>, Seq<char>)>)
    requires
        lines(text) == ps.map_values(|e: (Seq<char>, Seq<char>)| require_directive(e.0, e.1)),
        forall|i: int| 0 <= i < ps.len() ==> plain_requirement((#[trigger] ps[i]).0, ps[i].1),
    ensures
        go_mod_requires(text) == ps.map_values(|e: (Seq<char>, Seq<char>)| (e.0, Some(e.1))),
{
    lemma_require_directives_fold(ps, ps.len() as int);
    assert(ps.map_values(|e: (Seq<char>, Seq<char>)| require_directive(e.0, e.1)).take(ps.len() as int)
        =~= ps.map_values(|e: (Seq<char>, Seq<char>)| require_directive(e.0, e.1)));
    assert(ps.take(ps.len() as int) =~= ps);
}

/// The line `{module} {version}` of a `require ( … )` block.
pub open spec fn block_requirement(module: Seq<char>, version: Seq<char>) -> Seq<char> {
    module + " "@ + version
}

proof fn lemma_block_line_step(rs: Seq<RootV>, m: Seq<char>, v: Seq<char>)
    requires
        plain_requirement(m, v),
        !starts_with(block_requirement(m, v), "require ("@),
    ensures
        go_mod_step((rs, true), block_requirement(m, v)) == (rs.push((m, Some(v))), true),
{
    reveal_strlit(" ");
    reveal_strlit(")");
    reveal_strlit("//");
    reveal_strlit("// indirect");
    let e = block_requirement(m, v);
    assert(e[0] == m[0]);
    assert(e.last() == v.last());
    assert(!crate::text::is_ws(v[v.len() - 1]));
    crate::text::lemma_trim_unchanged(e);
    assert(e != ")"@) by {
        assert(e.len() >= 3);
    }
    crate::text::lemma_find(e, "//"@);
    crate::text::lemma_find(e, "// indirect"@);
    assert(!starts_with(e, "//"@)) by {
        if starts_with(e, "//"@) {
            assert(e.subrange(0, 2) =~= e.take(2));
            assert(crate::text::occurs_at(e, "//"@, 0));
        }
    }
    assert(!contains(e, "// indirect"@)) by {
        if let Some(k) = crate::text::find(e, "// indirect"@) {
            assert(e.subrange(k, k + 11) == "// indirect"@);
            assert("// indirect"@.take(2) =~= "//"@);
            assert(e.subrange(k, k + 2) =~= e.subrange(k, k + 11).take(2));
            assert(crate::text::occurs_at(e, "//"@, k));
        }
    }
    assert(before_str(e, "//"@) == e);
    crate::text::lemma_words_two(m, v);
    assert(require_entry(e) == Some((m, Some(v))));
}

proof fn lemma_block_fold(ps: Seq<(Seq<char>, Seq<char>)>, k: int)
    requires
        0 <= k <= ps.len(),
        forall|i: int| 0 <= i < ps.len() ==> plain_requirement((#[trigger] ps[i]).0, ps[i].1) && !starts_with(
            block_requirement(ps[i].0, ps[i].1),
            "require ("@,
        ),
    ensures
        go_mod_fold(seq!["require ("@] + ps.map_values(|e: (Seq<char>, Seq<char>)| block_requirement(e.0, e.1)).take(k))
            == (ps.take(k).map_values(|e: (Seq<char>, Seq<char>)| (e.0, Some(e.1))), true),
    decreases k,
{
    reveal_strlit("require (");
    let ls = ps.map_values(|e: (Seq<char>, Seq<char>)| block_requirement(e.0, e.1));
    let head = seq!["require ("@];
    if k == 0 {
        assert(head + ls.take(0) =~= head);
        assert(head.drop_last() =~= Seq::<Seq<char>>::empty());
        crate::text::lemma_trim_unchanged("require ("@);
        assert(starts_with("require ("@, "require ("@)) by {
            assert("require ("@.take(9) =~= "require ("@);
        }
        assert(ps.take(0).map_values(|e: (Seq<char>, Seq<char>)| (e.0, Some(e.1))) =~= Seq::<RootV>::empty());
        assert(head.last() == "require ("@);
        assert(go_mod_fold(Seq::<Seq<char>>::empty()) == (Seq::<RootV>::empty(), false));
        assert(go_mod_fold(head) == go_mod_step(go_mod_fold(Seq::<Seq<char>>::empty()), "require ("@));
        assert(go_mod_step((Seq::<RootV>::empty(), false), "require ("@) == (Seq::<RootV>::empty(), true));
    } else {
        lemma_block_fold(ps, k - 1);
        assert((head + ls.take(k)).drop_last() =~= head + ls.take(k - 1));
        assert((head + ls.take(k)).last() == block_requirement(ps[k - 1].0, ps[k - 1].1));
        lemma_block_line_step(
            ps.take(k - 1).map_values(|e: (Seq<char>, Seq<char>)| (e.0, Some(e.1))),
            ps[k - 1].0,
            ps[k - 1].1,
        );
        assert(ps.take(k).map_values(|e: (Seq<char>, Seq<char>)| (e.0, Some(e.1))) =~= ps.take(k - 1).map_values(
            |e: (Seq<char>, Seq<char>)| (e.0, Some(e.1)),
        ).push((ps[k - 1].0, Some(ps[k - 1].1))));
    }
}

/// A `go.mod` made of one `require ( … )` block whose lines are `M_i V_i`
/// names exactly the roots `M_i` at versions `V_i`, in order.
pub proof fn lemma_go_mod_require_block(text: Seq<char>, ps: Seq<(Seq<char>, Seq<char>)>)
    requires
        lines(text) == seq!["require ("@] + ps.map_values(|e: (Seq<char>, Seq<char>)| block_requirement(e.0, e.1))
            + seq![")"@],
        forall|i: int| 0 <= i < ps.len() ==> plain_requirement((#[trigger] ps[i]).0, ps[i].1) && !starts_with(
            block_requirement(ps[i].0, ps[i].1),
            "require ("@,
        ),
    ensures
        go_mod_requires(text) == ps.map_values(|e: (Seq<char>, Seq<char>)| (e.0, Some(e.1))),
{
    reveal_strlit("require (");
    reveal_strlit(")");
    let ls = ps.map_values(|e: (Seq<char>, Seq<char>)| block_requirement(e.0, e.1));
    lemma_block_fold(ps, ps.len() as int);
    assert(ls.take(ps.len() as int) =~= ls);
    assert(ps.take(ps.len() as int) =~= ps);
    let all = seq!["require ("@] + ls + seq![")"@];
    assert(all.drop_last() =~= seq!["require ("@] + ls);
    assert(all.last() == ")"@);
    crate::text::lemma_trim_unchanged(")"@);
    assert(!starts_with(")"@, "require ("@));
}

fn require_entry_chars(rest: &Vec<char>) -> (r: Option<RootSpec>)
    ensures
        r matches Some(s) ==> require_entry(rest@) == Some(s@),
        r is None ==> require_entry(rest@) is None,
{
    let b = before_str_chars(rest, "//");
    let c = trim_chars(&b);
    let ws = words_chars(&c);
    if ws.len() >= 2 {
        assert(views(ws@)[0] == ws@[0]@);
        assert(views(ws@)[1] == ws@[1]@);
        Some(RootSpec { name: string_of(&ws[0]), version: Some(string_of(&ws[1])) })
    } else {
        None
    }
}

fn push_entry(out: &mut Vec<RootSpec>, e: Option<RootSpec>, ghost_e: Ghost<Option<RootV>>)
    requires
        ghost_e@ == (match e {
            Some(x) => Some(x@),
            None => None,
        }),
    ensures
        roots_view(final(out)@) == push_opt(roots_view(old(out)@), ghost_e@),
{
    match e {
        Some(x) => {
            out.push(x);
            assert(roots_view(out@) =~= roots_view(old(out)@).push(ghost_e@.unwrap()));
        },
        None => {},
    }
}

/// Collect direct `require` entries (skip `indirect`).
pub fn parse_go_mod_requires(text: &str) -> (r: Vec<RootSpec>)
    ensures
        roots_view(r@) == go_mod_requires(text@),
{
    let t = chars_of(text);
    let ls = lines_chars(&t);
    let ghost lv = views(ls@);
    let mut out: Vec<RootSpec> = Vec::new();
    let mut in_block = false;
    let mut i: usize = 0;
    assert(lv.take(0) =~= Seq::<Seq<char>>::empty());
    while i < ls.len()
        invariant
            i <= ls.len(),
            lv == views(ls@),
            lv == lines(text@),
            (roots_view(out@), in_block) == go_mod_fold(lv.take(i as int)),
        decreases ls.len() - i,
    {
        assert(lv.take(i + 1).drop_last() =~= lv.take(i as int));
        assert(lv[i as int] == ls@[i as int]@);
        let line = trim_chars(&ls[i]);
        if starts_with_str(&line, "require (") {
            in_block = true;
        } else if in_block {
            if chars_eq_str(&line, ")") {
                in_block = false;
            } else if line.len() == 0 || starts_with_str(&line, "//") || find_str(
                &line,
                "// indirect",
            ).is_some() {
            } else {
                let e = require_entry_chars(&line);
                push_entry(&mut out, e, Ghost(require_entry(line@)));
            }
        } else {
            match strip_prefix_str(&line, "require ") {
                Some(rest) => {
                    let r = trim_chars(&rest);
                    if starts_with_str(&r, "(") || find_str(&r, "// indirect").is_some() {
                    } else {
                        let e = require_entry_chars(&r);
                        push_entry(&mut out, e, Ghost(require_entry(r@)));
                    }
                },
                None => {},
            }
        }
        i = i + 1;
    }
    assert(lv.take(ls.len() as int) =~= lv);
    out
}

/// The input is read as `go.mod` when its file name is `go.mod` (any case) or
/// its text starts with `module ` after leading whitespace.
pub open spec fn go_input_is_go_mod(file_name: Seq<char>, text: Seq<char>) -> bool {
    lower_str(file_name) == "go.mod"@ || starts_with(trim_start(text), "module "@)
}

pub fn is_go_mod_input(file_name: &str, text: &str) -> (b: bool)
    ensures
        b == go_input_is_go_mod(file_name@, text@),
{
    let n = chars_of(file_name);
    let ln = lower_chars(&n);
    let t = chars_of(text);
    let ts = trim_start_chars(&t);
    chars_eq_str(&ln, "go.mod") || starts_with_str(&ts, "module ")
}

/// The names of the files a module version may have in a proxy `@v`
/// directory: `{version}.zip`, `{version}.mod`, `{version}.info`.
pub fn go_version_file_names(version: &str) -> (r: Vec<String>)
    ensures
        r@.len() == 3,
        r@[0]@ == version@ + ".zip"@,
        r@[1]@ == version@ + ".mod"@,
        r@[2]@ == version@ + ".info"@,
{
    let mut out: Vec<String> = Vec::new();
    let mut a = chars_of(version);
    append_str(&mut a, ".zip");
    out.push(string_of(&a));
    let mut b = chars_of(version);
    append_str(&mut b, ".mod");
    out.push(string_of(&b));
    let mut c = chars_of(version);
    append_str(&mut c, ".info");
    out.push(string_of(&c));
    out
}

/// The version `go get` selected for a module without one: the greatest
/// name among the `.mod` file stems of its `@v` directory, or empty when
/// there are none (`sort` then `pop`).
pub fn selected_version(stems: &Vec<String>) -> (r: String)
    ensures
        stems@.len() == 0 ==> r@.len() == 0,
        stems@.len() > 0 ==> (exists|i: int| 0 <= i < stems@.len() && #[trigger] stems@[i]@ == r@),
        forall|i: int| 0 <= i < stems@.len() ==> !crate::expand::seq_lt(r@, #[trigger] stems@[i]@),
{
    if stems.len() == 0 {
        return String::new();
    }
    let mut best: usize = 0;
    let mut bv = chars_of(stems[0].as_str());
    proof {
        crate::expand::lemma_seq_lt_irreflexive(bv@);
    }
    let mut i: usize = 1;
    while i < stems.len()
        invariant
            1 <= i <= stems.len(),
            best < stems.len(),
            bv@ == stems@[best as int]@,
            forall|j: int| 0 <= j < i ==> !crate::expand::seq_lt(bv@, #[trigger] stems@[j]@),
        decreases stems.len() - i,
    {
        let cv = chars_of(stems[i].as_str());
        if crate::expand::chars_lt(&bv, &cv) {
            proof {
                assert forall|j: int| 0 <= j < i implies !crate::expand::seq_lt(cv@, #[trigger] stems@[j]@) by {
                    if crate::expand::seq_lt(cv@, stems@[j]@) {
                        crate::expand::lemma_seq_lt_transitive(bv@, cv@, stems@[j]@);
                    }
                }
                crate::expand::lemma_seq_lt_irreflexive(cv@);
            }
            best = i;
            bv = cv;
        }
        i = i + 1;
    }
    stems[best].clone()
}

/// The (module, version) pairs present after a `go get` that were not
/// present before it, in the order of `after`.
pub open spec fn added_pairs(before: Seq<(Seq<char>, Seq<char>)>, after: Seq<(Seq<char>, Seq<char>)>) -> Seq<(Seq<char>, Seq<char>)>
    decreases after.len(),
{
    if after.len() == 0 {
        seq![]
    } else {
        let r = added_pairs(before, after.drop_last());
        if before.contains(after.last()) {
            r
        } else {
            r.push(after.last())
        }
    }
}

pub fn new_versions(before: &Vec<(String, String)>, after: &Vec<(String, String)>) -> (r: Vec<(String, String)>)
    ensures
        crate::expand::pairs_view(r@) == added_pairs(crate::expand::pairs_view(before@), crate::expand::pairs_view(after@)),
{
    let ghost bv = crate::expand::pairs_view(before@);
    let ghost av = crate::expand::pairs_view(after@);
    let mut out: Vec<(String, String)> = Vec::new();
    let mut i: usize = 0;
    while i < after.len()
        invariant
            i <= after.len(),
            bv == crate::expand::pairs_view(before@),
            av == crate::expand::pairs_view(after@),
            crate::expand::pairs_view(out@) == added_pairs(bv, av.take(i as int)),
        decreases after.len() - i,
    {
        assert(av.take(i + 1).drop_last() =~= av.take(i as int));
        assert(av.take(i + 1).last() == av[i as int]);
        let mut found = false;
        let mut j: usize = 0;
        while j < before.len()
            invariant
                j <= before.len(),
                i < after.len(),
                bv == crate::expand::pairs_view(before@),
                av == crate::expand::pairs_view(after@),
                found == exists|k: int| 0 <= k < j && bv[k] == av[i as int],
            decreases before.len() - j,
        {
            if before[j].0 == after[i].0 && before[j].1 == after[i].1 {
                assert(bv[j as int] == av[i as int]);
                found = true;
            }
            j = j + 1;
        }
        if !found {
            let ghost prev = crate::expand::pairs_view(out@);
            assert(!bv.contains(av[i as int]));
            out.push((after[i].0.clone(), after[i].1.clone()));
            assert(crate::expand::pairs_view(out@) =~= prev.push(av[i as int]));
        } else {
            assert(bv.contains(av[i as int]));
        }
        i = i + 1;
    }
    assert(av.take(after.len() as int) =~= av);
    out
}

/// The versions `go list -m -versions` prints after the module path.
pub fn parse_go_list_versions(stdout: &str) -> (r: Vec<String>)
    ensures
        words(stdout@).len() == 0 ==> r@.len() == 0,
        words(stdout@).len() > 0 ==> crate::text::strs(r@) == words(stdout@).skip(1),
{
    let v = chars_of(stdout);
    let ws = words_chars(&v);
    let mut out: Vec<String> = Vec::new();
    if ws.len() == 0 {
        return out;
    }
    let ghost wv = views(ws@);
    let mut i: usize = 1;
    while i < ws.len()
        invariant
            1 <= i <= ws.len(),
            wv == views(ws@),
            crate::text::strs(out@) == wv.subrange(1, i as int),
        decreases ws.len() - i,
    {
        let ghost before = crate::text::strs(out@);
        out.push(string_of(&ws[i]));
        assert(wv[i as int] == ws@[i as int]@);
        assert(crate::text::strs(out@) =~= before.push(wv[i as int]));
        i = i + 1;
        assert(crate::text::strs(out@) =~= wv.subrange(1, i as int));
    }
    assert(wv.subrange(1, ws.len() as int) =~= wv.skip(1));
    out
}

/// The argument of `go get` for a root: `{module}@{version}`, or
/// `{module}@latest` without a version.
pub fn go_get_arg(root: &RootSpec) -> (r: String)
    ensures
        r@ == root.name@ + "@"@ + (match root.version {
            Some(v) => if v@.len() > 0 {
                v@
            } else {
                "latest"@
            },
            None => "latest"@,
        }),
{
    let mut v = chars_of(root.name.as_str());
    append_str(&mut v, "@");
    match &root.version {
        Some(ver) => {
            if ver.as_str().is_empty() {
                append_str(&mut v, "latest");
            } else {
                append_str(&mut v, ver.as_str());
            }
        },
        None => append_str(&mut v, "latest"),
    }
    string_of(&v)
}

} // verus!
