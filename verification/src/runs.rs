//! Runs of characters joined with `-`: the shape shared by sanitized file-name
//! segments and PEP 503 names, and the facts the laws about them rest on.
use vstd::prelude::*;

use crate::text::{is_upper, join, lower, lower_str, nonempty_pieces};

verus! {

/// The pieces of `s` between the characters that fail `p` (one piece more
/// than there are such characters; pieces may be empty).
pub open spec fn runs_by(s: Seq<char>, p: spec_fn(char) -> bool) -> Seq<Seq<char>>
    decreases s.len(),
{
    if s.len() == 0 {
        seq![Seq::empty()]
    } else {
        let r = runs_by(s.drop_last(), p);
        if !p(s.last()) {
            r.push(Seq::empty())
        } else {
            r.update(r.len() - 1, r.last().push(s.last()))
        }
    }
}

/// Every character of every piece satisfies `q`.
pub open spec fn pieces_all(ps: Seq<Seq<char>>, q: spec_fn(char) -> bool) -> bool {
    forall|j: int, i: int| 0 <= j < ps.len() && 0 <= i < ps[j].len() ==> q(#[trigger] ps[j][i])
}

/// No piece is empty.
pub open spec fn pieces_nonempty(ps: Seq<Seq<char>>) -> bool {
    forall|j: int| 0 <= j < ps.len() ==> (#[trigger] ps[j]).len() > 0
}

/// A text made of runs joined by single dashes: every character is `-` or
/// satisfies `q`, it neither starts nor ends with `-`, and no `-` follows a `-`.
pub open spec fn dashed(t: Seq<char>, q: spec_fn(char) -> bool) -> bool {
    &&& forall|i: int| 0 <= i < t.len() ==> (#[trigger] t[i] == '-' || q(t[i]))
    &&& t.len() > 0 ==> t[0] != '-' && t.last() != '-'
    &&& forall|i: int| 0 <= i < t.len() - 1 && #[trigger] t[i] == '-' ==> t[i + 1] != '-'
}

pub proof fn lemma_runs_len(s: Seq<char>, p: spec_fn(char) -> bool)
    ensures
        runs_by(s, p).len() >= 1,
    decreases s.len(),
{
    if s.len() > 0 {
        lemma_runs_len(s.drop_last(), p);
    }
}

/// The pieces hold only characters of `s` that satisfy `p`; so whatever holds
/// of every character of `s` holds of every piece character.
pub proof fn lemma_runs_chars(s: Seq<char>, p: spec_fn(char) -> bool, q: spec_fn(char) -> bool)
    requires
        forall|i: int| 0 <= i < s.len() ==> q(#[trigger] s[i]),
    ensures
        pieces_all(runs_by(s, p), |c: char| p(c) && q(c)),
    decreases s.len(),
{
    let pq = |c: char| p(c) && q(c);
    if s.len() > 0 {
        let s0 = s.drop_last();
        assert forall|i: int| 0 <= i < s0.len() implies q(#[trigger] s0[i]) by {
            assert(s0[i] == s[i]);
        }
        lemma_runs_chars(s0, p, q);
        lemma_runs_len(s0, p);
        let r = runs_by(s0, p);
        assert(q(s[s.len() - 1]));
        let rr = runs_by(s, p);
        assert forall|j: int, i: int| 0 <= j < rr.len() && 0 <= i < rr[j].len() implies pq(#[trigger] rr[j][i]) by {
            if p(s.last()) && j == r.len() - 1 {
                if i < r.last().len() {
                    assert(rr[j][i] == r[j][i]);
                } else {
                    assert(rr[j][i] == s.last());
                }
            } else if j < r.len() {
                assert(rr[j] == r[j]);
            }
        }
    }
}

/// `nonempty_pieces` drops only empty pieces: what holds of every piece
/// character still holds, and no piece is empty.
pub proof fn lemma_nonempty_pieces(ps: Seq<Seq<char>>, q: spec_fn(char) -> bool)
    requires
        pieces_all(ps, q),
    ensures
        pieces_all(nonempty_pieces(ps), q),
        pieces_nonempty(nonempty_pieces(ps)),
    decreases ps.len(),
{
    if ps.len() > 0 {
        let p0 = ps.drop_last();
        assert forall|j: int, i: int| 0 <= j < p0.len() && 0 <= i < p0[j].len() implies q(#[trigger] p0[j][i]) by {
            assert(p0[j] == ps[j]);
        }
        lemma_nonempty_pieces(p0, q);
        let r = nonempty_pieces(p0);
        let n = nonempty_pieces(ps);
        if ps.last().len() > 0 {
            assert forall|j: int, i: int| 0 <= j < n.len() && 0 <= i < n[j].len() implies q(#[trigger] n[j][i]) by {
                if j < r.len() {
                    assert(n[j] == r[j]);
                } else {
                    assert(n[j] == ps[ps.len() - 1]);
                }
            }
            assert forall|j: int| 0 <= j < n.len() implies (#[trigger] n[j]).len() > 0 by {
                if j < r.len() {
                    assert(n[j] == r[j]);
                }
            }
        }
    }
}

/// Without empty pieces, `nonempty_pieces` changes nothing.
pub proof fn lemma_nonempty_pieces_id(ps: Seq<Seq<char>>)
    requires
        pieces_nonempty(ps),
    ensures
        nonempty_pieces(ps) == ps,
    decreases ps.len(),
{
    if ps.len() > 0 {
        let p0 = ps.drop_last();
        assert forall|j: int| 0 <= j < p0.len() implies (#[trigger] p0[j]).len() > 0 by {
            assert(p0[j] == ps[j]);
        }
        lemma_nonempty_pieces_id(p0);
        assert(ps.last().len() > 0);
        assert(p0.push(ps.last()) =~= ps);
    }
}

/// Appending characters that satisfy `p` extends the last piece.
proof fn lemma_runs_append(x: Seq<char>, b: Seq<char>, p: spec_fn(char) -> bool)
    requires
        forall|i: int| 0 <= i < b.len() ==> p(#[trigger] b[i]),
    ensures
        runs_by(x + b, p) == runs_by(x, p).update(runs_by(x, p).len() - 1, runs_by(x, p).last() + b),
    decreases b.len(),
{
    lemma_runs_len(x, p);
    let r = runs_by(x, p);
    if b.len() == 0 {
        assert(x + b =~= x);
        assert(r.last() + b =~= r.last());
        assert(r.update(r.len() - 1, r.last()) =~= r);
    } else {
        let b0 = b.drop_last();
        assert forall|i: int| 0 <= i < b0.len() implies p(#[trigger] b0[i]) by {
            assert(b0[i] == b[i]);
        }
        lemma_runs_append(x, b0, p);
        assert((x + b).drop_last() =~= x + b0);
        assert((x + b).last() == b.last());
        assert(p(b[b.len() - 1]));
        let r0 = runs_by(x + b0, p);
        assert(r0.last() == r.last() + b0);
        assert(r0.last().push(b.last()) =~= r.last() + b);
        assert(r0.update(r0.len() - 1, r0.last().push(b.last())) =~= r.update(r.len() - 1, r.last() + b));
    }
}

/// Splitting dash-joined pieces gives the pieces back, when no piece
/// character fails `p` and `-` does.
pub proof fn lemma_runs_of_join(ps: Seq<Seq<char>>, p: spec_fn(char) -> bool)
    requires
        ps.len() >= 1,
        pieces_all(ps, p),
        !p('-'),
    ensures
        runs_by(join(ps, "-"@), p) == ps,
    decreases ps.len(),
{
    reveal_strlit("-");
    let last = ps.last();
    assert forall|i: int| 0 <= i < last.len() implies p(#[trigger] last[i]) by {
        assert(last[i] == ps[ps.len() - 1][i]);
    }
    if ps.len() == 1 {
        let e = Seq::<char>::empty();
        lemma_runs_append(e, last, p);
        assert(e + last =~= last);
        assert(runs_by(e, p) =~= seq![e]);
        assert(seq![e].update(0, e + last) =~= ps);
    } else {
        let p0 = ps.drop_last();
        assert forall|j: int, i: int| 0 <= j < p0.len() && 0 <= i < p0[j].len() implies p(#[trigger] p0[j][i]) by {
            assert(p0[j] == ps[j]);
        }
        lemma_runs_of_join(p0, p);
        let j0 = join(p0, "-"@);
        let jd = j0 + "-"@;
        assert(jd =~= j0.push('-'));
        assert(jd.drop_last() =~= j0);
        assert(runs_by(jd, p) == p0.push(Seq::empty()));
        lemma_runs_append(jd, last, p);
        assert(join(ps, "-"@) == jd + last);
        let e = Seq::<char>::empty();
        assert(e + last =~= last);
        assert(p0.push(e).update(p0.len() as int, e + last) =~= ps);
    }
}

/// Dash-joined non-empty pieces without `-` in them are `dashed`.
pub proof fn lemma_join_dashed(ps: Seq<Seq<char>>, q: spec_fn(char) -> bool)
    requires
        pieces_nonempty(ps),
        pieces_all(ps, q),
        !q('-'),
    ensures
        dashed(join(ps, "-"@), q),
        (join(ps, "-"@).len() == 0) == (ps.len() == 0),
    decreases ps.len(),
{
    reveal_strlit("-");
    if ps.len() == 0 {
    } else if ps.len() == 1 {
        let t = ps[0];
        assert(join(ps, "-"@) == t);
        assert(t.len() > 0);
        assert forall|i: int| 0 <= i < t.len() implies (#[trigger] t[i] == '-' || q(t[i])) by {
            assert(q(ps[0][i]));
        }
        assert(q(ps[0][0]));
        assert(q(ps[0][t.len() - 1]));
    } else {
        let p0 = ps.drop_last();
        assert forall|j: int, i: int| 0 <= j < p0.len() && 0 <= i < p0[j].len() implies q(#[trigger] p0[j][i]) by {
            assert(p0[j] == ps[j]);
        }
        assert forall|j: int| 0 <= j < p0.len() implies (#[trigger] p0[j]).len() > 0 by {
            assert(p0[j] == ps[j]);
        }
        lemma_join_dashed(p0, q);
        let a = join(p0, "-"@);
        let b = ps.last();
        assert(b.len() > 0);
        assert forall|i: int| 0 <= i < b.len() implies q(#[trigger] b[i]) by {
            assert(b[i] == ps[ps.len() - 1][i]);
        }
        let t = join(ps, "-"@);
        assert(t == a + "-"@ + b);
        let n = a.len() as int;
        assert(t.len() == n + 1 + b.len());
        assert(t[n] == '-');
        assert forall|i: int| 0 <= i < t.len() implies (#[trigger] t[i] == '-' || q(t[i])) by {
            if i < n {
                assert(t[i] == a[i]);
            } else if i > n {
                assert(t[i] == b[i - n - 1]);
            }
        }
        assert(t[0] == a[0]);
        assert(t.last() == b.last());
        assert(q(b[b.len() - 1]));
        assert(q(b[0]));
        assert forall|i: int| 0 <= i < t.len() - 1 && #[trigger] t[i] == '-' implies t[i + 1] != '-' by {
            if i < n - 1 {
                assert(t[i] == a[i]);
                assert(t[i + 1] == a[i + 1]);
            } else if i == n - 1 {
                assert(t[i] == a[n - 1]);
            } else if i == n {
                assert(t[i + 1] == b[0]);
            } else {
                assert(t[i] == b[i - n - 1]);
                assert(t[i + 1] == b[i - n]);
            }
        }
    }
}

/// Lower-casing a text with no upper-case letter changes nothing.
pub proof fn lemma_lower_str_id(t: Seq<char>)
    requires
        forall|i: int| 0 <= i < t.len() ==> !is_upper(#[trigger] t[i]),
    ensures
        lower_str(t) == t,
{
    assert(lower_str(t) =~= t) by {
        assert forall|i: int| 0 <= i < t.len() implies lower_str(t)[i] == t[i] by {
            assert(!is_upper(t[i]));
        }
    }
}

/// A lower-cased text has no upper-case letter.
pub proof fn lemma_lower_str_no_upper(s: Seq<char>)
    ensures
        forall|i: int| 0 <= i < lower_str(s).len() ==> !is_upper(#[trigger] lower_str(s)[i]),
{
    assert forall|i: int| 0 <= i < lower_str(s).len() implies !is_upper(#[trigger] lower_str(s)[i]) by {
        let c = s[i];
        assert(lower_str(s)[i] == lower(c));
        if is_upper(c) {
            assert((c as u32) + 32 < 0xD800);
        }
    }
}

/// `join(nonempty_pieces(runs_by(lower_str(s), p)), "-")` — the form of a
/// sanitized segment and of a PEP 503 name — is `dashed` over characters that
/// satisfy `p` and are not upper-case, and applying the same form to it again
/// changes nothing.
pub proof fn lemma_dashed_runs(s: Seq<char>, p: spec_fn(char) -> bool)
    requires
        !p('-'),
    ensures
        dashed(join(nonempty_pieces(runs_by(lower_str(s), p)), "-"@), |c: char| p(c) && !is_upper(c)),
        join(nonempty_pieces(runs_by(lower_str(join(nonempty_pieces(runs_by(lower_str(s), p)), "-"@)), p)), "-"@)
            == join(nonempty_pieces(runs_by(lower_str(s), p)), "-"@),
{
    let q = |c: char| !is_upper(c);
    let pq = |c: char| p(c) && !is_upper(c);
    let l = lower_str(s);
    lemma_lower_str_no_upper(s);
    assert forall|i: int| 0 <= i < l.len() implies q(#[trigger] l[i]) by {}
    lemma_runs_chars(l, p, q);
    let rs = runs_by(l, p);
    assert(pieces_all(rs, pq)) by {
        assert forall|j: int, i: int| 0 <= j < rs.len() && 0 <= i < rs[j].len() implies pq(#[trigger] rs[j][i]) by {
            assert((|c: char| p(c) && q(c))(rs[j][i]));
        }
    }
    lemma_nonempty_pieces(rs, pq);
    let ps = nonempty_pieces(rs);
    assert(!pq('-'));
    lemma_join_dashed(ps, pq);
    let t = join(ps, "-"@);
    assert forall|i: int| 0 <= i < t.len() implies !is_upper(#[trigger] t[i]) by {
        assert(t[i] == '-' || pq(t[i]));
    }
    lemma_lower_str_id(t);
    if ps.len() == 0 {
        assert(t.len() == 0);
        assert(runs_by(t, p) =~= seq![Seq::<char>::empty()]);
        let e = seq![Seq::<char>::empty()];
        assert(e.drop_last() =~= Seq::<Seq<char>>::empty());
        assert(nonempty_pieces(Seq::<Seq<char>>::empty()) =~= Seq::<Seq<char>>::empty());
        assert(e.last().len() == 0);
        assert(nonempty_pieces(e) =~= Seq::<Seq<char>>::empty());
    } else {
        assert(pieces_all(ps, p)) by {
            assert forall|j: int, i: int| 0 <= j < ps.len() && 0 <= i < ps[j].len() implies p(#[trigger] ps[j][i]) by {
                assert(pq(ps[j][i]));
            }
        }
        lemma_runs_of_join(ps, p);
        lemma_nonempty_pieces_id(ps);
    }
}

/// The pieces written one after another.
pub open spec fn concat_pieces(ps: Seq<Seq<char>>) -> Seq<char>
    decreases ps.len(),
{
    if ps.len() == 0 {
        Seq::empty()
    } else {
        concat_pieces(ps.drop_last()) + ps.last()
    }
}

/// The pieces of `s` hold exactly the characters of `s` that satisfy `p`.
proof fn lemma_concat_runs(s: Seq<char>, p: spec_fn(char) -> bool)
    ensures
        concat_pieces(runs_by(s, p)) == s.filter(p),
    decreases s.len(),
{
    reveal(Seq::filter);
    if s.len() == 0 {
        let e = Seq::<char>::empty();
        assert(seq![e].drop_last() =~= Seq::<Seq<char>>::empty());
        assert(concat_pieces(Seq::<Seq<char>>::empty()) =~= e);
        assert(concat_pieces(seq![e]) =~= e);
        assert(s =~= e);
    } else {
        let s0 = s.drop_last();
        lemma_concat_runs(s0, p);
        lemma_runs_len(s0, p);
        let r = runs_by(s0, p);
        if !p(s.last()) {
            assert(r.push(Seq::empty()).drop_last() =~= r);
            assert(concat_pieces(r.push(Seq::empty())) =~= concat_pieces(r));
        } else {
            let r2 = r.update(r.len() - 1, r.last().push(s.last()));
            assert(r2.drop_last() =~= r.drop_last());
            assert(concat_pieces(r2) =~= concat_pieces(r).push(s.last()));
        }
    }
}

/// Dropping empty pieces does not change what they spell.
proof fn lemma_concat_nonempty(ps: Seq<Seq<char>>)
    ensures
        concat_pieces(nonempty_pieces(ps)) == concat_pieces(ps),
    decreases ps.len(),
{
    if ps.len() > 0 {
        lemma_concat_nonempty(ps.drop_last());
        if ps.last().len() == 0 {
            assert(concat_pieces(ps.drop_last()) + ps.last() =~= concat_pieces(ps.drop_last()));
        } else {
            let n0 = nonempty_pieces(ps.drop_last());
            assert(n0.push(ps.last()).drop_last() =~= n0);
        }
    }
}

/// Filtering out what no character fails leaves a text unchanged.
proof fn lemma_filter_all(t: Seq<char>, f: spec_fn(char) -> bool)
    requires
        forall|i: int| 0 <= i < t.len() ==> f(#[trigger] t[i]),
    ensures
        t.filter(f) == t,
    decreases t.len(),
{
    reveal(Seq::filter);
    if t.len() > 0 {
        let t0 = t.drop_last();
        assert forall|i: int| 0 <= i < t0.len() implies f(#[trigger] t0[i]) by {
            assert(t0[i] == t[i]);
        }
        lemma_filter_all(t0, f);
        assert(f(t[t.len() - 1]));
        assert(t0.push(t.last()) =~= t);
    }
}

/// Removing the dashes from dash-joined pieces without dashes spells the pieces.
proof fn lemma_join_undashed(ps: Seq<Seq<char>>)
    requires
        pieces_all(ps, |c: char| c != '-'),
    ensures
        join(ps, "-"@).filter(|c: char| c != '-') == concat_pieces(ps),
    decreases ps.len(),
{
    reveal(Seq::filter);
    reveal_strlit("-");
    let f = |c: char| c != '-';
    if ps.len() == 0 {
    } else {
        let last = ps.last();
        assert forall|i: int| 0 <= i < last.len() implies f(#[trigger] last[i]) by {
            assert(f(ps[ps.len() - 1][i]));
        }
        lemma_filter_all(last, f);
        let p0 = ps.drop_last();
        assert(concat_pieces(p0) + last == concat_pieces(ps));
        if ps.len() == 1 {
            assert(p0 =~= Seq::<Seq<char>>::empty());
            assert(concat_pieces(p0) + last =~= last);
        } else {
            assert forall|j: int, i: int| 0 <= j < p0.len() && 0 <= i < p0[j].len() implies f(#[trigger] p0[j][i]) by {
                assert(p0[j] == ps[j]);
            }
            lemma_join_undashed(p0);
            let a = join(p0, "-"@);
            Seq::filter_distributes_over_add(a + "-"@, last, f);
            Seq::filter_distributes_over_add(a, "-"@, f);
            let d = "-"@;
            assert(d.len() == 1 && d.last() == '-');
            assert(d.drop_last() =~= Seq::<char>::empty());
            assert(Seq::<char>::empty().filter(f) =~= Seq::<char>::empty());
            assert(!f(d.last()));
            assert(d.filter(f) =~= Seq::<char>::empty());
            assert(a.filter(f) + Seq::<char>::empty() =~= a.filter(f));
        }
    }
}

/// Removing the dashes from `join(nonempty_pieces(runs_by(s, p)), "-")`
/// leaves the characters of `s` that satisfy `p`, in order, when `-` fails `p`.
pub proof fn lemma_dashed_runs_chars(s: Seq<char>, p: spec_fn(char) -> bool)
    requires
        !p('-'),
    ensures
        join(nonempty_pieces(runs_by(s, p)), "-"@).filter(|c: char| c != '-') == s.filter(p),
{
    let rs = runs_by(s, p);
    let q = |c: char| true;
    assert forall|i: int| 0 <= i < s.len() implies q(#[trigger] s[i]) by {}
    lemma_runs_chars(s, p, q);
    lemma_nonempty_pieces(rs, |c: char| p(c) && q(c));
    let ps = nonempty_pieces(rs);
    assert(pieces_all(ps, |c: char| c != '-')) by {
        assert forall|j: int, i: int| 0 <= j < ps.len() && 0 <= i < ps[j].len() implies (|c: char| c != '-')(#[trigger] ps[j][i]) by {
            assert((|c: char| p(c) && q(c))(ps[j][i]));
        }
    }
    lemma_join_undashed(ps);
    lemma_concat_nonempty(rs);
    lemma_concat_runs(s, p);
}

} // verus!
