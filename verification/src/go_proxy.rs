//! Go module proxy path encoding (`!a` stands for `A`) and the module
//! versions found in a proxy cache tree.
use vstd::prelude::*;
use std::path::PathBuf;

use crate::text::{append_chars, chars_of, is_lower, is_upper, lower, lower_char, string_of, upper};

verus! {

/// One module version discovered in a Go module download / proxy cache tree.
#[derive(Debug, Clone)]
pub struct GoModuleVersion {
    /// Case-encoded module path as used by the Go proxy protocol / on-disk cache
    /// (e.g. `github.com/!data-!dog/dd-trace-go/v2`).
    pub module_encoded: String,
    pub version: String,
    pub zip_path: PathBuf,
    pub mod_path: PathBuf,
}

/// The Unicode upper-case mapping of a non-ASCII character (`char::to_uppercase`).
pub uninterp spec fn uppercase_of(c: char) -> Seq<char>;

/// Upper-case mapping of a character: ASCII letters map to their ASCII
/// upper-case letter, other ASCII characters to themselves, and other
/// characters follow Unicode (`uppercase_of`).
pub open spec fn to_upper_seq(c: char) -> Seq<char> {
    if (c as u32) < 128 {
        seq![upper(c)]
    } else {
        uppercase_of(c)
    }
}

/// `char::to_uppercase`, collected. The standard library documents that an
/// ASCII letter maps to its ASCII upper-case letter and that other ASCII
/// characters map to themselves; the mapping of other characters is Unicode's
/// and is only named here.
#[verifier::external_body]
fn to_uppercase_chars(c: char) -> (r: Vec<char>)
    ensures
        (c as u32) >= 128 ==> r@ == uppercase_of(c),
        (c as u32) < 128 ==> r@ == seq![upper(c)],
{
    c.to_uppercase().collect()
}

/// Decoded module path: `!x` becomes the upper-case of `x`, a final lone `!`
/// is dropped, every other character is kept.
pub open spec fn decode_path(s: Seq<char>) -> Seq<char>
    decreases s.len(),
{
    if s.len() == 0 {
        s
    } else if s[0] == '!' {
        if s.len() >= 2 {
            to_upper_seq(s[1]) + decode_path(s.skip(2))
        } else {
            Seq::empty()
        }
    } else {
        seq![s[0]] + decode_path(s.drop_first())
    }
}

/// Encoded module path: every ASCII upper-case letter `X` becomes `!x`.
pub open spec fn encode_path(s: Seq<char>) -> Seq<char>
    decreases s.len(),
{
    if s.len() == 0 {
        s
    } else if is_upper(s.last()) {
        encode_path(s.drop_last()) + seq!['!', lower(s.last())]
    } else {
        encode_path(s.drop_last()).push(s.last())
    }
}

/// Decode Go's path encoding (`!a` → `A`) for display.
pub fn decode_go_path(encoded: &str) -> (r: String)
    ensures
        r@ == decode_path(encoded@),
{
    let v = chars_of(encoded);
    let mut out: Vec<char> = Vec::new();
    let mut i: usize = 0;
    assert(v@.skip(0) =~= v@);
    while i < v.len()
        invariant
            i <= v.len(),
            out@ + decode_path(v@.skip(i as int)) == decode_path(v@),
        decreases v.len() - i,
    {
        let ghost rest = v@.skip(i as int);
        if v[i] == '!' {
            if i + 1 < v.len() {
                let up = to_uppercase_chars(v[i + 1]);
                assert(rest.skip(2) =~= v@.skip(i + 2));
                assert(rest[1] == v@[i + 1]);
                append_chars(&mut out, &up);
                i = i + 2;
            } else {
                assert(decode_path(rest) =~= Seq::<char>::empty());
                i = i + 1;
                assert(v@.skip(i as int) =~= Seq::<char>::empty());
            }
        } else {
            assert(rest.drop_first() =~= v@.skip(i + 1));
            out.push(v[i]);
            i = i + 1;
        }
    }
    assert(v@.skip(v.len() as int) =~= Seq::<char>::empty());
    string_of(&out)
}

/// Encode a module path for the Go proxy protocol.
pub fn encode_go_path(path: &str) -> (r: String)
    ensures
        r@ == encode_path(path@),
{
    let v = chars_of(path);
    let mut out: Vec<char> = Vec::new();
    let mut i: usize = 0;
    assert(v@.take(0) =~= Seq::<char>::empty());
    while i < v.len()
        invariant
            i <= v.len(),
            out@ == encode_path(v@.take(i as int)),
        decreases v.len() - i,
    {
        assert(v@.take(i + 1).drop_last() =~= v@.take(i as int));
        let c = v[i];
        if 'A' <= c && c <= 'Z' {
            out.push('!');
            out.push(lower_char(c));
            assert(out@ =~= encode_path(v@.take(i as int)) + seq!['!', lower(c)]);
        } else {
            out.push(c);
        }
        i = i + 1;
    }
    assert(v@.take(v.len() as int) =~= v@);
    string_of(&out)
}

/// Decoding undoes encoding for every path without a `!`.
pub proof fn lemma_decode_encode(s: Seq<char>)
    requires
        !s.contains('!'),
    ensures
        decode_path(encode_path(s)) == s,
    decreases s.len(),
{
    if s.len() > 0 {
        let p = s.drop_last();
        assert(!p.contains('!')) by {
            if p.contains('!') {
                let k = choose|k: int| 0 <= k < p.len() && p[k] == '!';
                assert(s[k] == '!');
            }
        }
        lemma_decode_encode(p);
        lemma_encode_well(p);
        let c = s.last();
        assert(c != '!') by {
            assert(s[s.len() - 1] == c);
        }
        if is_upper(c) {
            lemma_decode_split(encode_path(p), seq!['!', lower(c)]);
            assert(is_lower(lower(c)));
            assert(upper(lower(c)) == c);
            let tail = seq!['!', lower(c)];
            assert(tail.skip(2) =~= Seq::<char>::empty());
            reveal_with_fuel(decode_path, 2);
            assert(decode_path(tail) =~= to_upper_seq(lower(c)) + Seq::<char>::empty());
            assert(s =~= p.push(c));
        } else {
            lemma_decode_split(encode_path(p), seq![c]);
            assert(encode_path(p).push(c) =~= encode_path(p) + seq![c]);
            let tail = seq![c];
            assert(tail.drop_first() =~= Seq::<char>::empty());
            reveal_with_fuel(decode_path, 2);
            assert(decode_path(tail) =~= tail);
            assert(s =~= p.push(c));
        }
    }
}

/// The encoding of a path without `!` is made of whole `!x` pairs and plain
/// characters other than `!`.
pub open spec fn well_encoded(e: Seq<char>) -> bool
    decreases e.len(),
{
    if e.len() == 0 {
        true
    } else if e[0] == '!' {
        e.len() >= 2 && e[1] != '!' && well_encoded(e.skip(2))
    } else {
        well_encoded(e.drop_first())
    }
}

proof fn lemma_well_encoded_concat(a: Seq<char>, b: Seq<char>)
    requires
        well_encoded(a),
        well_encoded(b),
    ensures
        well_encoded(a + b),
    decreases a.len(),
{
    if a.len() > 0 {
        if a[0] == '!' {
            assert((a + b).skip(2) =~= a.skip(2) + b);
            lemma_well_encoded_concat(a.skip(2), b);
        } else {
            assert((a + b).drop_first() =~= a.drop_first() + b);
            lemma_well_encoded_concat(a.drop_first(), b);
        }
    } else {
        assert(a + b =~= b);
    }
}

proof fn lemma_encode_well(s: Seq<char>)
    requires
        !s.contains('!'),
    ensures
        well_encoded(encode_path(s)),
    decreases s.len(),
{
    if s.len() > 0 {
        let p = s.drop_last();
        assert(!p.contains('!')) by {
            if p.contains('!') {
                let k = choose|k: int| 0 <= k < p.len() && p[k] == '!';
                assert(s[k] == '!');
            }
        }
        lemma_encode_well(p);
        let c = s.last();
        assert(c != '!') by {
            assert(s[s.len() - 1] == c);
        }
        if is_upper(c) {
            let t = seq!['!', lower(c)];
            assert(t.skip(2) =~= Seq::<char>::empty());
            assert(is_lower(lower(c)));
            reveal_with_fuel(well_encoded, 2);
            assert(well_encoded(t));
            lemma_well_encoded_concat(encode_path(p), t);
        } else {
            let t = seq![c];
            assert(t.drop_first() =~= Seq::<char>::empty());
            reveal_with_fuel(well_encoded, 2);
            assert(well_encoded(t));
            lemma_well_encoded_concat(encode_path(p), t);
            assert(encode_path(p).push(c) =~= encode_path(p) + t);
        }
    }
}

proof fn lemma_decode_split(a: Seq<char>, b: Seq<char>)
    requires
        well_encoded(a),
    ensures
        decode_path(a + b) == decode_path(a) + decode_path(b),
    decreases a.len(),
{
    if a.len() > 0 {
        if a[0] == '!' {
            assert((a + b).skip(2) =~= a.skip(2) + b);
            lemma_decode_split(a.skip(2), b);
            assert((a + b)[1] == a[1]);
        } else {
            assert((a + b).drop_first() =~= a.drop_first() + b);
            lemma_decode_split(a.drop_first(), b);
        }
        assert(decode_path(a) + decode_path(b) =~= decode_path(a + b));
    } else {
        assert(a + b =~= b);
    }
}

/// The path segments of a module file on the server's Go proxy endpoint:
/// `go/{repo}/{module parts…}/@v/{version}.{suffix}`, empty module parts
/// dropped.
pub open spec fn module_url_segments(repo: Seq<char>, module_encoded: Seq<char>, version: Seq<char>, suffix: Seq<char>) -> Seq<Seq<char>> {
    seq!["go"@, repo] + crate::text::nonempty_pieces(crate::text::split_char(module_encoded, '/')) + seq![
        "@v"@,
        version + "."@ + suffix,
    ]
}

pub fn go_module_url_segments(repo: &str, module_encoded: &str, version: &str, suffix: &str) -> (r: Vec<String>)
    ensures
        crate::text::strs(r@) == module_url_segments(repo@, module_encoded@, version@, suffix@),
{
    let mut out: Vec<String> = Vec::new();
    out.push(String::from_str("go"));
    out.push(String::from_str(repo));
    let mv = chars_of(module_encoded);
    let parts = crate::text::split_char_chars(&mv, '/');
    let kept = crate::text::keep_nonempty(&parts);
    let ghost head = crate::text::strs(out@);
    let mut i: usize = 0;
    while i < kept.len()
        invariant
            i <= kept.len(),
            crate::text::strs(out@) == head + crate::text::views(kept@).take(i as int),
        decreases kept.len() - i,
    {
        let ghost before = crate::text::strs(out@);
        out.push(string_of(&kept[i]));
        assert(crate::text::views(kept@)[i as int] == kept@[i as int]@);
        assert(crate::text::strs(out@) =~= before.push(crate::text::views(kept@)[i as int]));
        i = i + 1;
        assert(crate::text::strs(out@) =~= head + crate::text::views(kept@).take(i as int));
    }
    assert(crate::text::views(kept@).take(kept.len() as int) =~= crate::text::views(kept@));
    let ghost mid = crate::text::strs(out@);
    out.push(String::from_str("@v"));
    let mut f = chars_of(version);
    crate::text::append_str(&mut f, ".");
    crate::text::append_str(&mut f, suffix);
    out.push(string_of(&f));
    assert(crate::text::strs(out@) =~= mid + seq!["@v"@, version@ + "."@ + suffix@]);
    out
}

/// The versions an `@v` directory holds, from the stems of its `.zip` files
/// (in the order given) and whether `{stem}.mod` is a file beside each: the
/// stems that are not empty and have their `.mod` file.
pub open spec fn kept_versions(stems: Seq<Seq<char>>, mod_present: Seq<bool>) -> Seq<Seq<char>>
    decreases stems.len(),
{
    if stems.len() == 0 {
        seq![]
    } else {
        let rest = kept_versions(stems.drop_last(), mod_present.take(stems.len() - 1));
        if stems.last().len() > 0 && mod_present[stems.len() - 1] {
            rest.push(stems.last())
        } else {
            rest
        }
    }
}

/// The module versions a directory of a proxy cache holds, by version: none
/// unless the directory is named `@v`; there, `kept_versions` of its zips.
pub fn cache_dir_versions(dir_name: Option<&str>, zip_stems: &Vec<String>, mod_present: &Vec<bool>) -> (r: Vec<
    String,
>)
    requires
        mod_present.len() == zip_stems.len(),
    ensures
        crate::text::strs(r@) == (if dir_name matches Some(n) && n@ == "@v"@ {
            kept_versions(crate::text::strs(zip_stems@), mod_present@)
        } else {
            seq![]
        }),
{
    let mut out: Vec<String> = Vec::new();
    let is_v = match dir_name {
        Some(n) => crate::text::str_eq(n, "@v"),
        None => false,
    };
    if !is_v {
        assert(crate::text::strs(out@) =~= seq![]);
        return out;
    }
    let ghost stems = crate::text::strs(zip_stems@);
    let mut i: usize = 0;
    while i < zip_stems.len()
        invariant
            i <= zip_stems.len(),
            mod_present.len() == zip_stems.len(),
            stems == crate::text::strs(zip_stems@),
            crate::text::strs(out@) == kept_versions(stems.take(i as int), mod_present@.take(i as int)),
        decreases zip_stems.len() - i,
    {
        let ghost before = crate::text::strs(out@);
        assert(stems.take(i + 1).drop_last() =~= stems.take(i as int));
        assert(mod_present@.take(i + 1).take(i as int) =~= mod_present@.take(i as int));
        assert(stems.take(i + 1).last() == zip_stems@[i as int]@);
        if !zip_stems[i].as_str().is_empty() && mod_present[i] {
            out.push(zip_stems[i].clone());
            assert(crate::text::strs(out@) =~= before.push(zip_stems@[i as int]@));
        }
        i = i + 1;
    }
    assert(stems.take(zip_stems.len() as int) =~= stems);
    assert(mod_present@.take(zip_stems.len() as int) =~= mod_present@);
    out
}

/// The module path of an `@v` directory's parent, from its components below
/// the scanned root, joined with `/`.
pub fn module_path_of(components: &Vec<String>) -> (r: String)
    ensures
        r@ == crate::text::join(crate::text::strs(components@), "/"@),
{
    let mut parts: Vec<Vec<char>> = Vec::new();
    let mut i: usize = 0;
    while i < components.len()
        invariant
            i <= components.len(),
            crate::text::views(parts@) == crate::text::strs(components@).take(i as int),
        decreases components.len() - i,
    {
        let ghost before = crate::text::views(parts@);
        parts.push(chars_of(components[i].as_str()));
        assert(crate::text::views(parts@) =~= before.push(components@[i as int]@));
        i = i + 1;
        assert(crate::text::strs(components@).take(i as int) =~= crate::text::strs(components@).take(i - 1).push(components@[i - 1]@));
    }
    assert(crate::text::strs(components@).take(components.len() as int) =~= crate::text::strs(components@));
    let j = crate::text::join_chars(&parts, "/");
    string_of(&j)
}

/// `{decoded module}@{version}`: a module version as shown to the user.
pub fn module_display(module_encoded: &str, version: &str) -> (r: String)
    ensures
        r@ == decode_path(module_encoded@) + "@"@ + version@,
{
    let d = decode_go_path(module_encoded);
    let mut v = chars_of(d.as_str());
    crate::text::append_str(&mut v, "@");
    crate::text::append_str(&mut v, version);
    string_of(&v)
}

} // verus!
