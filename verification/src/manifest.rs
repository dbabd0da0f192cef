//! Ferry pack manifest (`ak-ferry.json` + append-only `ak-ferry.jsonl`) and
//! the module-list format that names the roots of a ferry job.
use vstd::prelude::*;

use crate::text::{
    before_char, before_char_chars, chars_of, contains, copy_chars, find_char, lines, lines_chars,
    rsplit_once, rsplit_once_str, split_once, split_once_str, starts_with, string_of, trim,
    trim_chars, views, words, words_chars,
};

verus! {

pub const MANIFEST_JSON: &'static str = "ak-ferry.json";

pub const MANIFEST_JSONL: &'static str = "ak-ferry.jsonl";

pub const MANIFEST_VERSION: u32 = 1;

/// The character view of an optional `String`.
pub open spec fn opt_view(o: Option<String>) -> Option<Seq<char>> {
    match o {
        Some(s) => Some(s@),
        None => None,
    }
}

/// A copy of an optional `String`.
pub fn clone_opt(o: &Option<String>) -> (r: Option<String>)
    ensures
        r == *o,
{
    match o {
        Some(s) => Some(s.clone()),
        None => None,
    }
}

/// One root package or module named by the user, with an optional version.
#[derive(Debug, Clone)]
pub struct RootSpec {
    pub name: String,
    pub version: Option<String>,
}

impl View for RootSpec {
    type V = (Seq<char>, Option<Seq<char>>);

    open spec fn view(&self) -> (Seq<char>, Option<Seq<char>>) {
        (self.name@, opt_view(self.version))
    }
}

/// The views of a sequence of roots.
pub open spec fn roots_view(v: Seq<RootSpec>) -> Seq<(Seq<char>, Option<Seq<char>>)> {
    v.map_values(|r: RootSpec| r@)
}

/// One file of a module, relative to the ferry payload root.
#[derive(Debug, Clone)]
pub struct FileEntry {
    pub relpath: String,
    pub sha256: String,
    pub size: u64,
}

/// One downloaded package / module version recorded in the manifest.
#[derive(Debug, Clone)]
pub struct ModuleEntry {
    /// Display / decoded module or package name
    pub name: String,
    pub name_encoded: Option<String>,
    pub version: String,
    /// Paths relative to the ferry payload root (inside the zip)
    pub files: Vec<FileEntry>,
    /// Which user root pulled this in (best-effort)
    pub via: String,
}

/// The manifest of a ferry pack.
#[derive(Debug, Clone)]
pub struct FerryManifest {
    pub version: u32,
    pub kind: String,
    pub ecosystem: String,
    pub created_at: String,
    pub updated_at: String,
    pub roots: Vec<RootSpec>,
    pub modules: Vec<ModuleEntry>,
}

/// The (name, version) identity of each recorded module.
pub open spec fn module_keys(ms: Seq<ModuleEntry>) -> Seq<(Seq<char>, Seq<char>)> {
    ms.map_values(|m: ModuleEntry| (m.name@, m.version@))
}

/// No two recorded modules share a name and version.
pub open spec fn keys_distinct(ms: Seq<ModuleEntry>) -> bool {
    forall|i: int, j: int|
        0 <= i < ms.len() && 0 <= j < ms.len() && i != j ==> (#[trigger] ms[i].name@, ms[i].version@)
            != (#[trigger] ms[j].name@, ms[j].version@)
}

/// Some recorded module has this name and version.
pub open spec fn has_key(ms: Seq<ModuleEntry>, name: Seq<char>, version: Seq<char>) -> bool {
    exists|i: int| 0 <= i < ms.len() && #[trigger] ms[i].name@ == name && ms[i].version@ == version
}

/// The RFC 3339 text of a Unix time given as seconds and nanoseconds, when
/// chrono can represent it.
pub uninterp spec fn utc_rfc3339(secs: i64, nanos: u32) -> Option<Seq<char>>;

/// `chrono::DateTime::from_timestamp(secs, nanos)` written by
/// `DateTime::to_rfc3339` (named `utc_rfc3339`); `None` outside chrono's
/// range.
#[verifier::external_body]
fn utc_rfc3339_text(secs: i64, nanos: u32) -> (r: Option<String>)
    ensures
        opt_view(r) == utc_rfc3339(secs, nanos),
{
    match chrono::DateTime::from_timestamp(secs, nanos) {
        Some(d) => Some(d.to_rfc3339()),
        None => None,
    }
}

/// The current UTC time in RFC 3339 form, or `None` when the clock is set
/// before 1970 or beyond what chrono represents.
pub fn utc_now_rfc3339() -> (r: Option<String>)
    ensures
        r matches Some(t) ==> exists|secs: i64, nanos: u32|
            #![trigger utc_rfc3339(secs, nanos)]
            secs >= 0 && nanos < 1_000_000_000 && utc_rfc3339(secs, nanos) == Some(t@),
{
    match crate::clock::clock_now() {
        None => None,
        Some((secs, nanos)) => {
            if secs > 0x7fff_ffff_ffff_ffff {
                return None;
            }
            let s: i64 = secs as i64;
            let r = utc_rfc3339_text(s, nanos);
            assert(opt_view(r) == utc_rfc3339(s, nanos));
            r
        },
    }
}

impl FerryManifest {
    /// A new, empty manifest created at the given time.
    pub fn new_at(ecosystem: &str, roots: Vec<RootSpec>, now: &str) -> (m: Self)
        ensures
            m.version == MANIFEST_VERSION,
            m.kind@ == "ak-ferry"@,
            m.ecosystem@ == ecosystem@,
            m.created_at@ == now@,
            m.updated_at@ == now@,
            m.roots@ == roots@,
            m.modules@.len() == 0,
    {
        let created = String::from_str(now);
        let updated = String::from_str(now);
        FerryManifest {
            version: MANIFEST_VERSION,
            kind: String::from_str("ak-ferry"),
            ecosystem: String::from_str(ecosystem),
            created_at: created,
            updated_at: updated,
            roots,
            modules: Vec::new(),
        }
    }

    /// A new, empty manifest stamped with the current time; `None` when the
    /// clock cannot give it.
    pub fn new(ecosystem: &str, roots: Vec<RootSpec>) -> (r: Option<Self>)
        ensures
            r matches Some(m) ==> m.version == MANIFEST_VERSION && m.kind@ == "ak-ferry"@ && m.ecosystem@ == ecosystem@
                && m.created_at@ == m.updated_at@ && m.roots@ == roots@ && m.modules@.len() == 0,
            r matches Some(m) ==> exists|secs: i64, nanos: u32|
                #![trigger utc_rfc3339(secs, nanos)]
                secs >= 0 && nanos < 1_000_000_000 && utc_rfc3339(secs, nanos) == Some(m.created_at@),
    {
        match utc_now_rfc3339() {
            Some(now) => Some(Self::new_at(ecosystem, roots, now.as_str())),
            None => None,
        }
    }

    /// Whether a module with this name and version is already recorded.
    pub fn has_module(&self, name: &str, version: &str) -> (b: bool)
        ensures
            b == has_key(self.modules@, name@, version@),
    {
        let mut i: usize = 0;
        while i < self.modules.len()
            invariant
                i <= self.modules.len(),
                forall|j: int|
                    0 <= j < i ==> !(#[trigger] self.modules@[j].name@ == name@
                        && self.modules@[j].version@ == version@),
            decreases self.modules.len() - i,
        {
            let m = &self.modules[i];
            if chars_eq_strs(m.name.as_str(), name) && chars_eq_strs(m.version.as_str(), version) {
                assert(self.modules@[i as int].name@ == name@);
                return true;
            }
            i = i + 1;
        }
        false
    }

    /// Record one module unless one with the same name and version is already
    /// there; `true` when it was added. `updated_at` becomes `now` on an add.
    pub fn add_module(&mut self, entry: ModuleEntry, now: &str) -> (added: bool)
        ensures
            added == !has_key(old(self).modules@, entry.name@, entry.version@),
            added ==> final(self).modules@ == old(self).modules@.push(entry),
            added ==> final(self).updated_at@ == now@,
            !added ==> final(self).modules@ == old(self).modules@,
            !added ==> final(self).updated_at == old(self).updated_at,
            final(self).version == old(self).version,
            final(self).kind == old(self).kind,
            final(self).ecosystem == old(self).ecosystem,
            final(self).created_at == old(self).created_at,
            final(self).roots == old(self).roots,
    {
        if self.has_module(entry.name.as_str(), entry.version.as_str()) {
            return false;
        }
        self.modules.push(entry);
        self.updated_at = String::from_str(now);
        true
    }
}

/// Recording a module keeps the recorded modules free of duplicate
/// (name, version) pairs, and afterwards that pair is recorded.
pub proof fn lemma_add_module_keeps_distinct(before: Seq<ModuleEntry>, entry: ModuleEntry)
    requires
        keys_distinct(before),
    ensures
        keys_distinct(
            if has_key(before, entry.name@, entry.version@) {
                before
            } else {
                before.push(entry)
            },
        ),
        has_key(
            if has_key(before, entry.name@, entry.version@) {
                before
            } else {
                before.push(entry)
            },
            entry.name@,
            entry.version@,
        ),
{
    if !has_key(before, entry.name@, entry.version@) {
        let after = before.push(entry);
        assert forall|i: int, j: int|
            0 <= i < after.len() && 0 <= j < after.len() && i != j implies (
            #[trigger] after[i].name@,
            after[i].version@,
        ) != (#[trigger] after[j].name@, after[j].version@) by {
            if i == before.len() as int {
                assert(after[j] == before[j]);
            } else if j == before.len() as int {
                assert(after[i] == before[i]);
            } else {
                assert(after[i] == before[i]);
                assert(after[j] == before[j]);
            }
        }
        assert(after[before.len() as int] == entry);
    }
}

fn chars_eq_strs(a: &str, b: &str) -> (r: bool)
    ensures
        r == (a@ == b@),
{
    let av = chars_of(a);
    let bv = chars_of(b);
    crate::text::chars_eq(&av, &bv)
}

// ---------------------------------------------------------------------------
// Module lists
// ---------------------------------------------------------------------------

/// The value of an optional version token: `None` when it is empty.
pub open spec fn nonempty_version(v: Seq<char>) -> Option<Seq<char>> {
    if v.len() == 0 {
        None
    } else {
        Some(v)
    }
}

/// One token: `name`, `name@version`, `@scope/name` or `@scope/name@version`.
pub open spec fn at_spec(token: Seq<char>) -> Option<(Seq<char>, Option<Seq<char>>)> {
    if starts_with(token, "@"@) {
        let rest = token.skip(1);
        match rsplit_once(rest, "@"@) {
            Some((path, ver)) => if contains(path, "/"@) {
                Some(("@"@ + path, nonempty_version(ver)))
            } else {
                Some((token, None))
            },
            None => Some((token, None)),
        }
    } else {
        match split_once(token, "@"@) {
            Some((name, ver)) => if trim(name).len() == 0 {
                None
            } else {
                Some((trim(name), nonempty_version(trim(ver))))
            },
            None => Some((token, None)),
        }
    }
}

/// The root named by one line of a module list, if any: comments after `#`
/// are dropped, blank lines name nothing, `name version` gives both, and a
/// single token goes through `at_spec`.
pub open spec fn module_line(raw: Seq<char>) -> Option<(Seq<char>, Option<Seq<char>>)> {
    let line = trim(before_char(raw, '#'));
    let ws = words(line);
    if line.len() == 0 || ws.len() == 0 {
        None
    } else if ws.len() >= 2 {
        Some((ws[0], Some(ws[1])))
    } else {
        at_spec(ws[0])
    }
}

/// The roots named by a module list, in order.
pub open spec fn module_list(text: Seq<char>) -> Seq<(Seq<char>, Option<Seq<char>>)> {
    lines(text).filter_map(|l: Seq<char>| module_line(l))
}

fn version_of(v: Vec<char>) -> (r: Option<String>)
    ensures
        opt_view(r) == nonempty_version(v@),
{
    if v.len() == 0 {
        None
    } else {
        Some(string_of(&v))
    }
}

fn at_spec_chars(token: &Vec<char>) -> (r: Option<RootSpec>)
    ensures
        r matches Some(s) ==> at_spec(token@) == Some(s@),
        r is None ==> at_spec(token@) is None,
{
    proof {
        reveal_strlit("@");
    }
    if crate::text::starts_with_str(token, "@") {
        let rest = crate::text::slice_of(token, 1, token.len());
        assert(rest@ == token@.skip(1));
        match rsplit_once_str(&rest, "@") {
            Some((path, ver)) => {
                if find_char(&path, '/').is_some() {
                    assert(seq!['/'] =~= "/"@) by {
                        reveal_strlit("/");
                    }
                    let mut name = chars_of("@");
                    crate::text::append_chars(&mut name, &path);
                    let v = version_of(ver);
                    Some(RootSpec { name: string_of(&name), version: v })
                } else {
                    assert(seq!['/'] =~= "/"@) by {
                        reveal_strlit("/");
                    }
                    Some(RootSpec { name: string_of(token), version: None })
                }
            },
            None => Some(RootSpec { name: string_of(token), version: None }),
        }
    } else {
        match split_once_str(token, "@") {
            Some((name, ver)) => {
                let n = trim_chars(&name);
                let v = trim_chars(&ver);
                if n.len() == 0 {
                    None
                } else {
                    let vv = version_of(v);
                    Some(RootSpec { name: string_of(&n), version: vv })
                }
            },
            None => Some(RootSpec { name: string_of(token), version: None }),
        }
    }
}

/// Parse one token of a module list (`name`, `name@version`, `@scope/name`,
/// `@scope/name@version`).
pub fn parse_at_spec(token: &str) -> (r: Option<RootSpec>)
    ensures
        r matches Some(s) ==> at_spec(token@) == Some(s@),
        r is None ==> at_spec(token@) is None,
{
    let t = chars_of(token);
    at_spec_chars(&t)
}

fn module_line_chars(raw: &Vec<char>) -> (r: Option<RootSpec>)
    ensures
        r matches Some(s) ==> module_line(raw@) == Some(s@),
        r is None ==> module_line(raw@) is None,
{
    let b = before_char_chars(raw, '#');
    let line = trim_chars(&b);
    let ws = words_chars(&line);
    if line.len() == 0 || ws.len() == 0 {
        return None;
    }
    assert(views(ws@)[0] == ws@[0]@);
    if ws.len() >= 2 {
        assert(views(ws@)[1] == ws@[1]@);
        let n = string_of(&ws[0]);
        let v = string_of(&ws[1]);
        Some(RootSpec { name: n, version: Some(v) })
    } else {
        at_spec_chars(&ws[0])
    }
}

/// Parse `name@version` / `name version` / bare name lines; `#` comments and
/// blank lines are skipped. Scoped npm packages: `@scope/name`,
/// `@scope/name@version`, or `@scope/name 1.2.3`.
pub fn parse_module_list(text: &str) -> (r: Vec<RootSpec>)
    ensures
        roots_view(r@) == module_list(text@),
{
    let t = chars_of(text);
    let ls = lines_chars(&t);
    let ghost lv = views(ls@);
    let ghost f = |l: Seq<char>| module_line(l);
    let mut out: Vec<RootSpec> = Vec::new();
    let mut i: usize = 0;
    while i < ls.len()
        invariant
            i <= ls.len(),
            lv == views(ls@),
            lv == lines(text@),
            f == (|l: Seq<char>| module_line(l)),
            roots_view(out@) == lv.take(i as int).filter_map(f),
        decreases ls.len() - i,
    {
        proof {
            lv.lemma_filter_map_take_succ(f, i as int);
        }
        assert(lv[i as int] == ls@[i as int]@);
        let ghost before = roots_view(out@);
        match module_line_chars(&ls[i]) {
            Some(spec) => {
                out.push(spec);
                assert(roots_view(out@) =~= before + seq![f(lv[i as int]).unwrap()]);
            },
            None => {
                assert(roots_view(out@) =~= before + Seq::empty());
            },
        }
        i = i + 1;
    }
    assert(lv.take(ls.len() as int) =~= lv);
    out
}

} // verus!
