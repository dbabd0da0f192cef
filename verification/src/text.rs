//! Character-sequence toolkit: the string operations that the parsers of this
//! crate are written with, each stated as a spec function over `Seq<char>` and
//! implemented on `Vec<char>`.
use vstd::prelude::*;

verus! {

// ---------------------------------------------------------------------------
// Conversions between `str`/`String` and `Vec<char>`
// ---------------------------------------------------------------------------

/// Appends one character to a `String` (`String::push`).
#[verifier::external_body]
pub(crate) fn push_char(s: &mut String, c: char)
    ensures
        final(s)@ == old(s)@.push(c),
{
    s.push(c);
}

/// Whether two string slices hold the same characters.
pub fn str_eq(a: &str, b: &str) -> (r: bool)
    ensures
        r == (a@ == b@),
{
    let av = chars_of(a);
    let bv = chars_of(b);
    chars_eq(&av, &bv)
}

/// The characters of a string slice, in order.
pub fn chars_of(s: &str) -> (v: Vec<char>)
    ensures
        v@ == s@,
{
    let mut v: Vec<char> = Vec::new();
    for c in it: s.chars()
        invariant
            v@ == it.seq().take(it.index() as int),
    {
        v.push(c);
    }
    v
}

/// A `String` holding exactly the given characters.
pub fn string_of(v: &Vec<char>) -> (s: String)
    ensures
        s@ == v@,
{
    let mut s = String::new();
    let mut i: usize = 0;
    while i < v.len()
        invariant
            i <= v.len(),
            s@ == v@.take(i as int),
        decreases v.len() - i,
    {
        push_char(&mut s, v[i]);
        i = i + 1;
        assert(s@ =~= v@.take(i as int));
    }
    assert(v@.take(v.len() as int) =~= v@);
    s
}

/// A fresh copy of a character vector.
pub fn copy_chars(v: &Vec<char>) -> (r: Vec<char>)
    ensures
        r@ == v@,
{
    let mut r: Vec<char> = Vec::new();
    let mut i: usize = 0;
    while i < v.len()
        invariant
            i <= v.len(),
            r@ == v@.take(i as int),
        decreases v.len() - i,
    {
        r.push(v[i]);
        i = i + 1;
        assert(r@ =~= v@.take(i as int));
    }
    assert(v@.take(v.len() as int) =~= v@);
    r
}

/// The characters `v[a..b]`.
pub fn slice_of(v: &Vec<char>, a: usize, b: usize) -> (r: Vec<char>)
    requires
        a <= b <= v.len(),
    ensures
        r@ == v@.subrange(a as int, b as int),
{
    let mut r: Vec<char> = Vec::new();
    let mut i: usize = a;
    while i < b
        invariant
            a <= i <= b <= v.len(),
            r@ == v@.subrange(a as int, i as int),
        decreases b - i,
    {
        r.push(v[i]);
        i = i + 1;
        assert(r@ =~= v@.subrange(a as int, i as int));
    }
    r
}

/// Appends all characters of `w` to `v`.
pub fn append_chars(v: &mut Vec<char>, w: &Vec<char>)
    ensures
        final(v)@ == old(v)@ + w@,
{
    let mut i: usize = 0;
    while i < w.len()
        invariant
            i <= w.len(),
            v@ == old(v)@ + w@.take(i as int),
        decreases w.len() - i,
    {
        v.push(w[i]);
        i = i + 1;
        assert(v@ =~= old(v)@ + w@.take(i as int));
    }
    assert(w@.take(w.len() as int) =~= w@);
}

/// Appends the characters of a string slice to `v`.
pub fn append_str(v: &mut Vec<char>, s: &str)
    ensures
        final(v)@ == old(v)@ + s@,
{
    let w = chars_of(s);
    append_chars(v, &w);
}

/// Whether two character vectors hold the same characters.
pub fn chars_eq(a: &Vec<char>, b: &Vec<char>) -> (r: bool)
    ensures
        r == (a@ == b@),
{
    if a.len() != b.len() {
        return false;
    }
    let mut i: usize = 0;
    while i < a.len()
        invariant
            i <= a.len() == b.len(),
            forall|j: int| 0 <= j < i ==> a@[j] == b@[j],
        decreases a.len() - i,
    {
        if a[i] != b[i] {
            return false;
        }
        i = i + 1;
    }
    assert(a@ =~= b@);
    true
}

/// Whether a character vector equals a string slice.
pub fn chars_eq_str(a: &Vec<char>, s: &str) -> (r: bool)
    ensures
        r == (a@ == s@),
{
    let b = chars_of(s);
    chars_eq(a, &b)
}

// ---------------------------------------------------------------------------
// Characters
// ---------------------------------------------------------------------------

/// Unicode `White_Space`, the set that `char::is_whitespace` tests.
pub open spec fn is_ws(c: char) -> bool {
    ('\u{9}' <= c && c <= '\u{d}') || c == ' ' || c == '\u{85}' || c == '\u{a0}'
        || c == '\u{1680}' || ('\u{2000}' <= c && c <= '\u{200a}') || c == '\u{2028}'
        || c == '\u{2029}' || c == '\u{202f}' || c == '\u{205f}' || c == '\u{3000}'
}

pub fn is_ws_char(c: char) -> (b: bool)
    ensures
        b == is_ws(c),
{
    ('\u{9}' <= c && c <= '\u{d}') || c == ' ' || c == '\u{85}' || c == '\u{a0}'
        || c == '\u{1680}' || ('\u{2000}' <= c && c <= '\u{200a}') || c == '\u{2028}'
        || c == '\u{2029}' || c == '\u{202f}' || c == '\u{205f}' || c == '\u{3000}'
}

pub open spec fn is_digit(c: char) -> bool {
    '0' <= c && c <= '9'
}

pub open spec fn is_upper(c: char) -> bool {
    'A' <= c && c <= 'Z'
}

pub open spec fn is_lower(c: char) -> bool {
    'a' <= c && c <= 'z'
}

pub open spec fn is_alnum(c: char) -> bool {
    is_digit(c) || is_upper(c) || is_lower(c)
}

/// `char::to_ascii_lowercase`.
pub open spec fn lower(c: char) -> char {
    if is_upper(c) {
        ((c as u32) + 32) as char
    } else {
        c
    }
}

/// `char::to_ascii_uppercase`.
pub open spec fn upper(c: char) -> char {
    if is_lower(c) {
        ((c as u32) - 32) as char
    } else {
        c
    }
}

pub fn lower_char(c: char) -> (r: char)
    ensures
        r == lower(c),
{
    if 'A' <= c && c <= 'Z' {
        let u = (c as u32) + 32;
        assert(u < 0xD800);
        char_from_ascii(u)
    } else {
        c
    }
}

/// The character with a code point below 128.
pub(crate) fn char_from_ascii(u: u32) -> (c: char)
    requires
        u < 128,
    ensures
        c == u as char,
{
    let b = u as u8;
    b as char
}

pub fn is_digit_char(c: char) -> (b: bool)
    ensures
        b == is_digit(c),
{
    '0' <= c && c <= '9'
}

/// `str::to_ascii_lowercase`.
pub open spec fn lower_str(s: Seq<char>) -> Seq<char> {
    s.map_values(|c: char| lower(c))
}

pub fn lower_chars(v: &Vec<char>) -> (r: Vec<char>)
    ensures
        r@ == lower_str(v@),
{
    let mut r: Vec<char> = Vec::new();
    let mut i: usize = 0;
    while i < v.len()
        invariant
            i <= v.len(),
            r@ == lower_str(v@.take(i as int)),
        decreases v.len() - i,
    {
        let c = lower_char(v[i]);
        r.push(c);
        i = i + 1;
        assert(r@ =~= lower_str(v@.take(i as int)));
    }
    assert(v@.take(v.len() as int) =~= v@);
    r
}

/// Every character is an ASCII digit.
pub open spec fn all_digits(s: Seq<char>) -> bool {
    forall|i: int| 0 <= i < s.len() ==> is_digit(#[trigger] s[i])
}

pub fn all_digits_chars(v: &Vec<char>) -> (b: bool)
    ensures
        b == all_digits(v@),
{
    let mut i: usize = 0;
    while i < v.len()
        invariant
            i <= v.len(),
            forall|j: int| 0 <= j < i ==> is_digit(#[trigger] v@[j]),
        decreases v.len() - i,
    {
        if !is_digit_char(v[i]) {
            return false;
        }
        i = i + 1;
    }
    true
}

/// Whether the character occurs in the sequence.
pub fn has_char(v: &Vec<char>, c: char) -> (b: bool)
    ensures
        b == v@.contains(c),
{
    let mut i: usize = 0;
    while i < v.len()
        invariant
            i <= v.len(),
            forall|j: int| 0 <= j < i ==> v@[j] != c,
        decreases v.len() - i,
    {
        if v[i] == c {
            assert(v@[i as int] == c);
            return true;
        }
        i = i + 1;
    }
    false
}

// ---------------------------------------------------------------------------
// Trimming
// ---------------------------------------------------------------------------

/// `str::trim_start`.
pub open spec fn trim_start(s: Seq<char>) -> Seq<char>
    decreases s.len(),
{
    if s.len() > 0 && is_ws(s[0]) {
        trim_start(s.drop_first())
    } else {
        s
    }
}

/// `str::trim_end`.
pub open spec fn trim_end(s: Seq<char>) -> Seq<char>
    decreases s.len(),
{
    if s.len() > 0 && is_ws(s.last()) {
        trim_end(s.drop_last())
    } else {
        s
    }
}

/// `str::trim`.
pub open spec fn trim(s: Seq<char>) -> Seq<char> {
    trim_end(trim_start(s))
}

proof fn lemma_trim_end_prefix(s: Seq<char>)
    ensures
        trim_end(s).len() <= s.len(),
        trim_end(s) =~= s.take(trim_end(s).len() as int),
    decreases s.len(),
{
    if s.len() > 0 && is_ws(s.last()) {
        lemma_trim_end_prefix(s.drop_last());
    }
}

proof fn lemma_trim_end_idempotent(s: Seq<char>)
    ensures
        trim_end(trim_end(s)) == trim_end(s),
    decreases s.len(),
{
    if s.len() > 0 && is_ws(s.last()) {
        lemma_trim_end_idempotent(s.drop_last());
    }
}

proof fn lemma_trim_start_first(s: Seq<char>)
    ensures
        trim_start(s).len() > 0 ==> !is_ws(trim_start(s)[0]),
    decreases s.len(),
{
    if s.len() > 0 && is_ws(s[0]) {
        lemma_trim_start_first(s.drop_first());
    }
}

/// Trimming twice is trimming once.
pub proof fn lemma_trim_idempotent(s: Seq<char>)
    ensures
        trim(trim(s)) == trim(s),
{
    let u = trim_start(s);
    let v = trim_end(u);
    lemma_trim_start_first(s);
    lemma_trim_end_prefix(u);
    lemma_trim_end_idempotent(u);
    if v.len() > 0 {
        assert(v[0] == u[0]);
        assert(trim_start(v) == v);
    } else {
        assert(trim_start(v) == v);
    }
}

/// A text that does not start with whitespace keeps its first character
/// through `trim`.
pub proof fn lemma_trim_keeps_first(s: Seq<char>)
    requires
        s.len() > 0,
        !is_ws(s[0]),
    ensures
        trim(s).len() > 0,
        trim(s)[0] == s[0],
{
    lemma_trim_end_nonblank(s);
    lemma_trim_end_prefix(s);
}

/// A text that neither starts nor ends with whitespace is its own trim.
pub proof fn lemma_trim_unchanged(s: Seq<char>)
    requires
        s.len() > 0 ==> !is_ws(s[0]) && !is_ws(s.last()),
    ensures
        trim(s) == s,
{
    assert(trim_start(s) == s);
    assert(trim_end(s) == s);
}

/// Without any `c`, the text before the first `c` is the whole text.
pub proof fn lemma_before_char_absent(s: Seq<char>, c: char)
    requires
        forall|i: int| 0 <= i < s.len() ==> #[trigger] s[i] != c,
    ensures
        before_char(s, c) == s,
{
    lemma_find(s, seq![c]);
    match find(s, seq![c]) {
        Some(k) => {
            assert(s.subrange(k, k + 1)[0] == s[k]);
        },
        None => {},
    }
}

proof fn lemma_trim_end_nonblank(s: Seq<char>)
    requires
        s.len() > 0,
        !is_ws(s[0]),
    ensures
        trim_end(s).len() > 0,
    decreases s.len(),
{
    if s.len() > 1 && is_ws(s.last()) {
        lemma_trim_end_nonblank(s.drop_last());
    }
}

/// `str::trim_start_matches(c)` for one character.
pub open spec fn trim_start_char(s: Seq<char>, c: char) -> Seq<char>
    decreases s.len(),
{
    if s.len() > 0 && s[0] == c {
        trim_start_char(s.drop_first(), c)
    } else {
        s
    }
}

/// `str::trim_end_matches(c)` for one character.
pub open spec fn trim_end_char(s: Seq<char>, c: char) -> Seq<char>
    decreases s.len(),
{
    if s.len() > 0 && s.last() == c {
        trim_end_char(s.drop_last(), c)
    } else {
        s
    }
}

proof fn lemma_trim_start_skip(s: Seq<char>, i: int)
    requires
        0 <= i <= s.len(),
        forall|j: int| 0 <= j < i ==> is_ws(#[trigger] s[j]),
    ensures
        trim_start(s) == trim_start(s.skip(i)),
    decreases i,
{
    if i > 0 {
        assert(s.drop_first().skip(i - 1) =~= s.skip(i));
        lemma_trim_start_skip(s.drop_first(), i - 1);
    }
    else {
        assert(s.skip(0) =~= s);
    }
}

proof fn lemma_trim_start_char_skip(s: Seq<char>, c: char, i: int)
    requires
        0 <= i <= s.len(),
        forall|j: int| 0 <= j < i ==> #[trigger] s[j] == c,
    ensures
        trim_start_char(s, c) == trim_start_char(s.skip(i), c),
    decreases i,
{
    if i > 0 {
        assert(s.drop_first().skip(i - 1) =~= s.skip(i));
        lemma_trim_start_char_skip(s.drop_first(), c, i - 1);
    }
    else {
        assert(s.skip(0) =~= s);
    }
}

proof fn lemma_trim_end_take(s: Seq<char>, i: int)
    requires
        0 <= i <= s.len(),
        forall|j: int| i <= j < s.len() ==> is_ws(#[trigger] s[j]),
    ensures
        trim_end(s) == trim_end(s.take(i)),
    decreases s.len() - i,
{
    if i < s.len() {
        assert(s.drop_last().take(i) =~= s.take(i));
        lemma_trim_end_take(s.drop_last(), i);
    }
    else {
        assert(s.take(i) =~= s);
    }
}

proof fn lemma_trim_end_char_take(s: Seq<char>, c: char, i: int)
    requires
        0 <= i <= s.len(),
        forall|j: int| i <= j < s.len() ==> #[trigger] s[j] == c,
    ensures
        trim_end_char(s, c) == trim_end_char(s.take(i), c),
    decreases s.len() - i,
{
    if i < s.len() {
        assert(s.drop_last().take(i) =~= s.take(i));
        lemma_trim_end_char_take(s.drop_last(), c, i);
    }
    else {
        assert(s.take(i) =~= s);
    }
}

pub fn trim_start_chars(v: &Vec<char>) -> (r: Vec<char>)
    ensures
        r@ == trim_start(v@),
{
    let mut i: usize = 0;
    while i < v.len() && is_ws_char(v[i])
        invariant
            i <= v.len(),
            forall|j: int| 0 <= j < i ==> is_ws(#[trigger] v@[j]),
        decreases v.len() - i,
    {
        i = i + 1;
    }
    proof {
        lemma_trim_start_skip(v@, i as int);
        assert(v@.skip(i as int) =~= v@.subrange(i as int, v.len() as int));
    }
    slice_of(v, i, v.len())
}

pub fn trim_end_chars(v: &Vec<char>) -> (r: Vec<char>)
    ensures
        r@ == trim_end(v@),
{
    let mut i: usize = v.len();
    while i > 0 && is_ws_char(v[i - 1])
        invariant
            i <= v.len(),
            forall|j: int| i <= j < v.len() ==> is_ws(#[trigger] v@[j]),
        decreases i,
    {
        i = i - 1;
    }
    proof {
        lemma_trim_end_take(v@, i as int);
        assert(v@.take(i as int) =~= v@.subrange(0, i as int));
    }
    slice_of(v, 0, i)
}

pub fn trim_chars(v: &Vec<char>) -> (r: Vec<char>)
    ensures
        r@ == trim(v@),
{
    let a = trim_start_chars(v);
    trim_end_chars(&a)
}

pub fn trim_start_char_chars(v: &Vec<char>, c: char) -> (r: Vec<char>)
    ensures
        r@ == trim_start_char(v@, c),
{
    let mut i: usize = 0;
    while i < v.len() && v[i] == c
        invariant
            i <= v.len(),
            forall|j: int| 0 <= j < i ==> #[trigger] v@[j] == c,
        decreases v.len() - i,
    {
        i = i + 1;
    }
    proof {
        lemma_trim_start_char_skip(v@, c, i as int);
        assert(v@.skip(i as int) =~= v@.subrange(i as int, v.len() as int));
    }
    slice_of(v, i, v.len())
}

pub fn trim_end_char_chars(v: &Vec<char>, c: char) -> (r: Vec<char>)
    ensures
        r@ == trim_end_char(v@, c),
{
    let mut i: usize = v.len();
    while i > 0 && v[i - 1] == c
        invariant
            i <= v.len(),
            forall|j: int| i <= j < v.len() ==> #[trigger] v@[j] == c,
        decreases i,
    {
        i = i - 1;
    }
    proof {
        lemma_trim_end_char_take(v@, c, i as int);
        assert(v@.take(i as int) =~= v@.subrange(0, i as int));
    }
    slice_of(v, 0, i)
}

// ---------------------------------------------------------------------------
// Prefixes, suffixes, searching
// ---------------------------------------------------------------------------

pub open spec fn starts_with(s: Seq<char>, p: Seq<char>) -> bool {
    p.len() <= s.len() && s.take(p.len() as int) == p
}

pub open spec fn ends_with(s: Seq<char>, p: Seq<char>) -> bool {
    p.len() <= s.len() && s.skip(s.len() - p.len()) == p
}

/// `str::strip_prefix`.
pub open spec fn strip_prefix(s: Seq<char>, p: Seq<char>) -> Option<Seq<char>> {
    if starts_with(s, p) {
        Some(s.skip(p.len() as int))
    } else {
        None
    }
}

/// `str::strip_suffix`.
pub open spec fn strip_suffix(s: Seq<char>, p: Seq<char>) -> Option<Seq<char>> {
    if ends_with(s, p) {
        Some(s.take(s.len() - p.len()))
    } else {
        None
    }
}

/// `p` occurs in `s` starting at index `i`.
pub open spec fn occurs_at(s: Seq<char>, p: Seq<char>, i: int) -> bool {
    0 <= i && i + p.len() <= s.len() && s.subrange(i, i + p.len()) == p
}

/// First index `>= i` at which `p` occurs.
pub open spec fn find_from(s: Seq<char>, p: Seq<char>, i: int) -> Option<int>
    decreases s.len() + 1 - i,
{
    if i < 0 || i + p.len() > s.len() {
        None
    } else if occurs_at(s, p, i) {
        Some(i)
    } else {
        find_from(s, p, i + 1)
    }
}

/// `str::find`.
pub open spec fn find(s: Seq<char>, p: Seq<char>) -> Option<int> {
    find_from(s, p, 0)
}

/// Last index `<= i` at which `p` occurs.
pub open spec fn rfind_to(s: Seq<char>, p: Seq<char>, i: int) -> Option<int>
    decreases i + 1,
{
    if i < 0 {
        None
    } else if occurs_at(s, p, i) {
        Some(i)
    } else {
        rfind_to(s, p, i - 1)
    }
}

/// `str::rfind`.
pub open spec fn rfind(s: Seq<char>, p: Seq<char>) -> Option<int> {
    rfind_to(s, p, s.len() - p.len())
}

pub open spec fn contains(s: Seq<char>, p: Seq<char>) -> bool {
    find(s, p) is Some
}

pub proof fn lemma_find_from(s: Seq<char>, p: Seq<char>, i: int)
    requires
        0 <= i,
    ensures
        find_from(s, p, i) matches Some(k) ==> i <= k && occurs_at(s, p, k) && forall|j: int|
            i <= j < k ==> !occurs_at(s, p, j),
        find_from(s, p, i) is None ==> forall|j: int| i <= j ==> !occurs_at(s, p, j),
    decreases s.len() + 1 - i,
{
    if i + p.len() > s.len() {
    } else if occurs_at(s, p, i) {
    } else {
        lemma_find_from(s, p, i + 1);
    }
}

/// `find` gives the first occurrence.
pub proof fn lemma_find(s: Seq<char>, p: Seq<char>)
    ensures
        find(s, p) matches Some(k) ==> 0 <= k && k + p.len() <= s.len() && occurs_at(s, p, k)
            && forall|j: int| 0 <= j < k ==> !occurs_at(s, p, j),
        find(s, p) is None ==> forall|j: int| !occurs_at(s, p, j),
{
    lemma_find_from(s, p, 0);
}

pub proof fn lemma_rfind_to(s: Seq<char>, p: Seq<char>, i: int)
    ensures
        rfind_to(s, p, i) matches Some(k) ==> k <= i && occurs_at(s, p, k) && forall|j: int|
            k < j <= i ==> !occurs_at(s, p, j),
        rfind_to(s, p, i) is None ==> forall|j: int| j <= i ==> !occurs_at(s, p, j),
    decreases i + 1,
{
    if i >= 0 && !occurs_at(s, p, i) {
        lemma_rfind_to(s, p, i - 1);
    }
}

/// `rfind` gives the last occurrence.
pub proof fn lemma_rfind(s: Seq<char>, p: Seq<char>)
    ensures
        rfind(s, p) matches Some(k) ==> 0 <= k && k + p.len() <= s.len() && occurs_at(s, p, k)
            && forall|j: int| k < j ==> !occurs_at(s, p, j),
        rfind(s, p) is None ==> forall|j: int| !occurs_at(s, p, j),
{
    lemma_rfind_to(s, p, s.len() - p.len());
}

/// Whether `p` occurs at index `i` of `v`.
pub fn occurs_at_exec(v: &Vec<char>, p: &Vec<char>, i: usize) -> (b: bool)
    ensures
        b == occurs_at(v@, p@, i as int),
{
    if i > v.len() || p.len() > v.len() - i {
        return false;
    }
    let mut j: usize = 0;
    while j < p.len()
        invariant
            i + p.len() <= v.len(),
            j <= p.len(),
            forall|k: int| 0 <= k < j ==> v@[i + k] == p@[k],
        decreases p.len() - j,
    {
        if v[i + j] != p[j] {
            assert(v@.subrange(i as int, i + p.len())[j as int] != p@[j as int]);
            return false;
        }
        j = j + 1;
    }
    assert(v@.subrange(i as int, i + p.len()) =~= p@);
    true
}

pub fn find_chars(v: &Vec<char>, p: &Vec<char>) -> (r: Option<usize>)
    ensures
        r matches Some(k) ==> find(v@, p@) == Some(k as int),
        r is None ==> find(v@, p@) is None,
{
    if p.len() > v.len() {
        return None;
    }
    let mut i: usize = 0;
    loop
        invariant
            p.len() <= v.len(),
            i <= v.len() - p.len(),
            find(v@, p@) == find_from(v@, p@, i as int),
        decreases v.len() - p.len() - i,
    {
        if occurs_at_exec(v, p, i) {
            return Some(i);
        }
        if i == v.len() - p.len() {
            assert(find_from(v@, p@, i + 1) is None);
            return None;
        }
        i = i + 1;
    }
}

pub fn find_char(v: &Vec<char>, c: char) -> (r: Option<usize>)
    ensures
        r matches Some(k) ==> find(v@, seq![c]) == Some(k as int),
        r is None ==> find(v@, seq![c]) is None,
{
    let mut p: Vec<char> = Vec::new();
    p.push(c);
    assert(p@ =~= seq![c]);
    find_chars(v, &p)
}

pub fn find_str(v: &Vec<char>, s: &str) -> (r: Option<usize>)
    ensures
        r matches Some(k) ==> find(v@, s@) == Some(k as int),
        r is None ==> find(v@, s@) is None,
{
    let p = chars_of(s);
    find_chars(v, &p)
}

pub fn rfind_chars(v: &Vec<char>, p: &Vec<char>) -> (r: Option<usize>)
    ensures
        r matches Some(k) ==> rfind(v@, p@) == Some(k as int),
        r is None ==> rfind(v@, p@) is None,
{
    if p.len() > v.len() {
        proof {
            assert(rfind(v@, p@) == rfind_to(v@, p@, v@.len() - p@.len()));
        }
        return None;
    }
    let mut i: usize = v.len() - p.len();
    loop
        invariant
            p.len() <= v.len(),
            i <= v.len() - p.len(),
            rfind(v@, p@) == rfind_to(v@, p@, i as int),
        decreases i,
    {
        if occurs_at_exec(v, p, i) {
            return Some(i);
        }
        if i == 0 {
            assert(rfind_to(v@, p@, -1) is None);
            return None;
        }
        i = i - 1;
    }
}

pub fn rfind_char(v: &Vec<char>, c: char) -> (r: Option<usize>)
    ensures
        r matches Some(k) ==> rfind(v@, seq![c]) == Some(k as int),
        r is None ==> rfind(v@, seq![c]) is None,
{
    let mut p: Vec<char> = Vec::new();
    p.push(c);
    assert(p@ =~= seq![c]);
    rfind_chars(v, &p)
}

pub fn rfind_str(v: &Vec<char>, s: &str) -> (r: Option<usize>)
    ensures
        r matches Some(k) ==> rfind(v@, s@) == Some(k as int),
        r is None ==> rfind(v@, s@) is None,
{
    let p = chars_of(s);
    rfind_chars(v, &p)
}

pub fn starts_with_chars(v: &Vec<char>, p: &Vec<char>) -> (b: bool)
    ensures
        b == starts_with(v@, p@),
{
    let b = occurs_at_exec(v, p, 0);
    assert(v@.take(p.len() as int) =~= v@.subrange(0, p.len() as int));
    b
}

pub fn starts_with_str(v: &Vec<char>, s: &str) -> (b: bool)
    ensures
        b == starts_with(v@, s@),
{
    let p = chars_of(s);
    starts_with_chars(v, &p)
}

pub fn ends_with_chars(v: &Vec<char>, p: &Vec<char>) -> (b: bool)
    ensures
        b == ends_with(v@, p@),
{
    if p.len() > v.len() {
        return false;
    }
    let b = occurs_at_exec(v, p, v.len() - p.len());
    assert(v@.skip(v.len() - p.len()) =~= v@.subrange(
        (v.len() - p.len()) as int,
        v.len() as int,
    ));
    b
}

pub fn ends_with_str(v: &Vec<char>, s: &str) -> (b: bool)
    ensures
        b == ends_with(v@, s@),
{
    let p = chars_of(s);
    ends_with_chars(v, &p)
}

pub fn strip_prefix_str(v: &Vec<char>, s: &str) -> (r: Option<Vec<char>>)
    ensures
        r matches Some(w) ==> strip_prefix(v@, s@) == Some(w@),
        r is None ==> strip_prefix(v@, s@) is None,
{
    let p = chars_of(s);
    if starts_with_chars(v, &p) {
        proof {
            assert(v@.skip(p@.len() as int) =~= v@.subrange(p@.len() as int, v@.len() as int));
        }
        Some(slice_of(v, p.len(), v.len()))
    } else {
        None
    }
}

pub fn strip_suffix_str(v: &Vec<char>, s: &str) -> (r: Option<Vec<char>>)
    ensures
        r matches Some(w) ==> strip_suffix(v@, s@) == Some(w@),
        r is None ==> strip_suffix(v@, s@) is None,
{
    let p = chars_of(s);
    if ends_with_chars(v, &p) {
        proof {
            assert(v@.take(v@.len() - p@.len()) =~= v@.subrange(0, v@.len() - p@.len()));
        }
        Some(slice_of(v, 0, v.len() - p.len()))
    } else {
        None
    }
}


// ---------------------------------------------------------------------------
// Splitting
// ---------------------------------------------------------------------------

/// The character views of a sequence of `String`s.
pub open spec fn strs(v: Seq<String>) -> Seq<Seq<char>> {
    v.map_values(|t: String| t@)
}

/// The character views of a sequence of character vectors.
pub open spec fn views(v: Seq<Vec<char>>) -> Seq<Seq<char>> {
    v.map_values(|w: Vec<char>| w@)
}

/// `str::split(c)` for one character: the pieces between occurrences of `c`.
pub open spec fn split_char(s: Seq<char>, c: char) -> Seq<Seq<char>>
    decreases s.len(),
{
    if s.len() == 0 {
        seq![Seq::empty()]
    } else {
        let r = split_char(s.drop_last(), c);
        if s.last() == c {
            r.push(Seq::empty())
        } else {
            r.update(r.len() - 1, r.last().push(s.last()))
        }
    }
}

pub proof fn lemma_split_char_len(s: Seq<char>, c: char)
    ensures
        split_char(s, c).len() >= 1,
        split_char(s, c).len() <= s.len() + 1,
    decreases s.len(),
{
    if s.len() > 0 {
        lemma_split_char_len(s.drop_last(), c);
    }
}

/// Splits at every occurrence of `c`.
pub fn split_char_chars(v: &Vec<char>, c: char) -> (r: Vec<Vec<char>>)
    ensures
        views(r@) == split_char(v@, c),
{
    let mut parts: Vec<Vec<char>> = Vec::new();
    let mut cur: Vec<char> = Vec::new();
    let mut i: usize = 0;
    assert(v@.take(0) =~= Seq::<char>::empty());
    assert(views(parts@).push(cur@) =~= split_char(v@.take(0), c));
    while i < v.len()
        invariant
            i <= v.len(),
            views(parts@).push(cur@) == split_char(v@.take(i as int), c),
        decreases v.len() - i,
    {
        let ghost before = v@.take(i as int);
        assert(v@.take(i + 1).drop_last() =~= before);
        proof {
            lemma_split_char_len(before, c);
        }
        if v[i] == c {
            let done = cur;
            parts.push(done);
            cur = Vec::new();
            assert(views(parts@).push(cur@) =~= split_char(before, c).push(Seq::empty()));
        } else {
            cur.push(v[i]);
            let ghost r = split_char(before, c);
            assert(views(parts@).push(cur@) =~= r.update(r.len() - 1, r.last().push(v@[i as int])));
        }
        i = i + 1;
    }
    assert(v@.take(v.len() as int) =~= v@);
    let ghost old_parts = views(parts@);
    parts.push(cur);
    assert(views(parts@) =~= old_parts.push(cur@));
    parts
}

/// Drops a trailing carriage return.
pub open spec fn strip_cr(s: Seq<char>) -> Seq<char> {
    if s.len() > 0 && s.last() == '\r' {
        s.drop_last()
    } else {
        s
    }
}

/// `str::lines`: split at `\n`, drop a final empty piece, and strip the
/// `\r` of each `\r\n` line ending.
pub open spec fn lines(s: Seq<char>) -> Seq<Seq<char>> {
    let parts = split_char(s, '\n');
    let init = parts.take(parts.len() - 1).map_values(|p: Seq<char>| strip_cr(p));
    if parts.last().len() == 0 {
        init
    } else {
        init.push(parts.last())
    }
}

pub fn strip_cr_chars(v: &Vec<char>) -> (r: Vec<char>)
    ensures
        r@ == strip_cr(v@),
{
    if v.len() > 0 && v[v.len() - 1] == '\r' {
        slice_of(v, 0, v.len() - 1)
    } else {
        copy_chars(v)
    }
}

pub fn lines_chars(v: &Vec<char>) -> (r: Vec<Vec<char>>)
    ensures
        views(r@) == lines(v@),
{
    let parts = split_char_chars(v, '\n');
    proof {
        lemma_split_char_len(v@, '\n');
    }
    let ghost ps = split_char(v@, '\n');
    let n = parts.len();
    let mut out: Vec<Vec<char>> = Vec::new();
    let mut i: usize = 0;
    while i + 1 < n
        invariant
            n == parts.len() >= 1,
            views(parts@) == ps,
            i + 1 <= n,
            views(out@) == ps.take(i as int).map_values(|p: Seq<char>| strip_cr(p)),
        decreases n - i,
    {
        assert(views(parts@)[i as int] == parts@[i as int]@);
        let line = strip_cr_chars(&parts[i]);
        let ghost old_out = views(out@);
        out.push(line);
        assert(views(out@) =~= old_out.push(strip_cr(ps[i as int])));
        assert(ps.take(i + 1).map_values(|p: Seq<char>| strip_cr(p)) =~= ps.take(
            i as int,
        ).map_values(|p: Seq<char>| strip_cr(p)).push(strip_cr(ps[i as int])));
        i = i + 1;
    }
    assert(views(parts@)[n - 1] == parts@[n - 1]@);
    if parts[n - 1].len() > 0 {
        let last = copy_chars(&parts[n - 1]);
        out.push(last);
        assert(views(out@) =~= lines(v@));
    } else {
        assert(views(out@) =~= lines(v@));
    }
    out
}

/// `str::split(char::is_whitespace)`.
pub open spec fn split_ws(s: Seq<char>) -> Seq<Seq<char>>
    decreases s.len(),
{
    if s.len() == 0 {
        seq![Seq::empty()]
    } else {
        let r = split_ws(s.drop_last());
        if is_ws(s.last()) {
            r.push(Seq::empty())
        } else {
            r.update(r.len() - 1, r.last().push(s.last()))
        }
    }
}

pub proof fn lemma_split_ws_len(s: Seq<char>)
    ensures
        split_ws(s).len() >= 1,
    decreases s.len(),
{
    if s.len() > 0 {
        lemma_split_ws_len(s.drop_last());
    }
}

/// Text without whitespace.
pub open spec fn no_ws(w: Seq<char>) -> bool {
    forall|i: int| 0 <= i < w.len() ==> !is_ws(#[trigger] w[i])
}

proof fn lemma_split_ws_append_word(p: Seq<char>, w: Seq<char>)
    requires
        no_ws(w),
    ensures
        split_ws(p + w).len() == split_ws(p).len(),
        split_ws(p + w) == split_ws(p).update(split_ws(p).len() - 1, split_ws(p).last() + w),
    decreases w.len(),
{
    lemma_split_ws_len(p);
    if w.len() == 0 {
        assert(p + w =~= p);
        assert(split_ws(p).update(split_ws(p).len() - 1, split_ws(p).last() + w) =~= split_ws(p));
    } else {
        let w0 = w.drop_last();
        assert(no_ws(w0)) by {
            assert forall|i: int| 0 <= i < w0.len() implies !is_ws(#[trigger] w0[i]) by {
                assert(w0[i] == w[i]);
            }
        }
        lemma_split_ws_append_word(p, w0);
        assert((p + w).drop_last() =~= p + w0);
        assert((p + w).last() == w.last());
        assert(!is_ws(w[w.len() - 1]));
        let r = split_ws(p);
        assert((r.last() + w0).push(w.last()) =~= r.last() + w);
        assert(split_ws(p + w) =~= r.update(r.len() - 1, r.last() + w));
    }
}

/// Two words separated by one space are the words of the text.
pub proof fn lemma_words_two(a: Seq<char>, b: Seq<char>)
    requires
        a.len() > 0,
        b.len() > 0,
        no_ws(a),
        no_ws(b),
    ensures
        words(a + " "@ + b) == seq![a, b],
{
    reveal_strlit(" ");
    let e = Seq::<char>::empty();
    lemma_split_ws_append_word(e, a);
    assert(e + a =~= a);
    assert(split_ws(e) == seq![e]);
    assert(split_ws(a) =~= seq![a]);
    let a1 = a + " "@;
    assert(a1.drop_last() =~= a);
    assert(is_ws(a1.last()));
    assert(split_ws(a1) =~= seq![a, e]);
    lemma_split_ws_append_word(a1, b);
    assert(split_ws(a1 + b) =~= seq![a, b]);
    let ps = seq![a, b];
    assert(ps.drop_last() =~= seq![a]);
    assert(seq![a].drop_last() =~= Seq::<Seq<char>>::empty());
    assert(nonempty_pieces(Seq::<Seq<char>>::empty()) =~= Seq::<Seq<char>>::empty());
    assert(seq![a].last() == a);
    assert(nonempty_pieces(seq![a]) =~= Seq::<Seq<char>>::empty().push(a));
    assert(nonempty_pieces(seq![a]) =~= seq![a]);
    assert(ps.last() == b);
    assert(nonempty_pieces(ps) =~= seq![a, b]);
}

/// The non-empty pieces, in order.
pub open spec fn nonempty_pieces(ps: Seq<Seq<char>>) -> Seq<Seq<char>>
    decreases ps.len(),
{
    if ps.len() == 0 {
        seq![]
    } else {
        let r = nonempty_pieces(ps.drop_last());
        if ps.last().len() == 0 {
            r
        } else {
            r.push(ps.last())
        }
    }
}

/// `str::split_whitespace`.
pub open spec fn words(s: Seq<char>) -> Seq<Seq<char>> {
    nonempty_pieces(split_ws(s))
}

pub fn words_chars(v: &Vec<char>) -> (r: Vec<Vec<char>>)
    ensures
        views(r@) == words(v@),
{
    let mut parts: Vec<Vec<char>> = Vec::new();
    let mut cur: Vec<char> = Vec::new();
    let mut i: usize = 0;
    assert(v@.take(0) =~= Seq::<char>::empty());
    assert(views(parts@).push(cur@) =~= split_ws(v@.take(0)));
    while i < v.len()
        invariant
            i <= v.len(),
            views(parts@).push(cur@) == split_ws(v@.take(i as int)),
        decreases v.len() - i,
    {
        let ghost before = v@.take(i as int);
        assert(v@.take(i + 1).drop_last() =~= before);
        proof {
            lemma_split_ws_len(before);
        }
        if is_ws_char(v[i]) {
            let done = cur;
            parts.push(done);
            cur = Vec::new();
            assert(views(parts@).push(cur@) =~= split_ws(before).push(Seq::empty()));
        } else {
            cur.push(v[i]);
            let ghost r = split_ws(before);
            assert(views(parts@).push(cur@) =~= r.update(r.len() - 1, r.last().push(v@[i as int])));
        }
        i = i + 1;
    }
    assert(v@.take(v.len() as int) =~= v@);
    let ghost old_parts = views(parts@);
    parts.push(cur);
    assert(views(parts@) =~= old_parts.push(cur@));
    keep_nonempty(&parts)
}

/// Drops the empty pieces.
pub fn keep_nonempty(ps: &Vec<Vec<char>>) -> (r: Vec<Vec<char>>)
    ensures
        views(r@) == nonempty_pieces(views(ps@)),
{
    let mut out: Vec<Vec<char>> = Vec::new();
    let mut i: usize = 0;
    while i < ps.len()
        invariant
            i <= ps.len(),
            views(out@) == nonempty_pieces(views(ps@).take(i as int)),
        decreases ps.len() - i,
    {
        assert(views(ps@).take(i + 1).drop_last() =~= views(ps@).take(i as int));
        assert(views(ps@)[i as int] == ps@[i as int]@);
        if ps[i].len() > 0 {
            let w = copy_chars(&ps[i]);
            out.push(w);
            assert(views(out@) =~= nonempty_pieces(views(ps@).take(i as int)).push(ps@[i as int]@));
        }
        i = i + 1;
    }
    assert(views(ps@).take(ps.len() as int) =~= views(ps@));
    out
}

/// `s.split(c).next()`: the text before the first `c`.
pub open spec fn before_char(s: Seq<char>, c: char) -> Seq<char> {
    match find(s, seq![c]) {
        Some(i) => s.take(i),
        None => s,
    }
}

pub fn before_char_chars(v: &Vec<char>, c: char) -> (r: Vec<char>)
    ensures
        r@ == before_char(v@, c),
{
    proof {
        lemma_find(v@, seq![c]);
    }
    match find_char(v, c) {
        Some(i) => slice_of(v, 0, i),
        None => copy_chars(v),
    }
}

/// `s.rsplit(c).next()`: the text after the last `c`.
pub open spec fn after_last_char(s: Seq<char>, c: char) -> Seq<char> {
    match rfind(s, seq![c]) {
        Some(i) => s.skip(i + 1),
        None => s,
    }
}

pub fn after_last_char_chars(v: &Vec<char>, c: char) -> (r: Vec<char>)
    ensures
        r@ == after_last_char(v@, c),
{
    proof {
        lemma_rfind(v@, seq![c]);
    }
    match rfind_char(v, c) {
        Some(i) => {
            assert(seq![c].len() == 1);
            assert(occurs_at(v@, seq![c], i as int));
            assert(i + 1 <= v.len());
            assert(v@.skip(i + 1) =~= v@.subrange(i + 1, v@.len() as int));
            slice_of(v, i + 1, v.len())
        },
        None => copy_chars(v),
    }
}

/// `str::split_once(p)`.
pub open spec fn split_once(s: Seq<char>, p: Seq<char>) -> Option<(Seq<char>, Seq<char>)> {
    match find(s, p) {
        Some(i) => Some((s.take(i), s.skip(i + p.len()))),
        None => None,
    }
}

/// `str::rsplit_once(p)`.
pub open spec fn rsplit_once(s: Seq<char>, p: Seq<char>) -> Option<(Seq<char>, Seq<char>)> {
    match rfind(s, p) {
        Some(i) => Some((s.take(i), s.skip(i + p.len()))),
        None => None,
    }
}

pub fn split_once_str(v: &Vec<char>, s: &str) -> (r: Option<(Vec<char>, Vec<char>)>)
    ensures
        r matches Some((a, b)) ==> split_once(v@, s@) == Some((a@, b@)),
        r is None ==> split_once(v@, s@) is None,
{
    let p = chars_of(s);
    proof {
        lemma_find(v@, p@);
    }
    match find_chars(v, &p) {
        Some(i) => {
            let a = slice_of(v, 0, i);
            assert(find(v@, p@) == Some(i as int));
            assert(i + p@.len() <= v@.len());
            let pl = p.len();
            assert(i + pl <= v.len());
            let b = slice_of(v, i + pl, v.len());
            assert(v@.take(i as int) =~= a@);
            assert(v@.skip(i + p@.len()) =~= b@);
            Some((a, b))
        },
        None => None,
    }
}

pub fn rsplit_once_str(v: &Vec<char>, s: &str) -> (r: Option<(Vec<char>, Vec<char>)>)
    ensures
        r matches Some((a, b)) ==> rsplit_once(v@, s@) == Some((a@, b@)),
        r is None ==> rsplit_once(v@, s@) is None,
{
    let p = chars_of(s);
    proof {
        lemma_rfind(v@, p@);
    }
    match rfind_chars(v, &p) {
        Some(i) => {
            let a = slice_of(v, 0, i);
            assert(rfind(v@, p@) == Some(i as int));
            assert(i + p@.len() <= v@.len());
            let pl = p.len();
            assert(i + pl <= v.len());
            let b = slice_of(v, i + pl, v.len());
            assert(v@.take(i as int) =~= a@);
            assert(v@.skip(i + p@.len()) =~= b@);
            Some((a, b))
        },
        None => None,
    }
}

// ---------------------------------------------------------------------------
// Replacing and joining
// ---------------------------------------------------------------------------

/// `str::replace(a, r)` for a one-character pattern.
pub open spec fn replace_char(s: Seq<char>, a: char, r: Seq<char>) -> Seq<char>
    decreases s.len(),
{
    if s.len() == 0 {
        s
    } else if s.last() == a {
        replace_char(s.drop_last(), a, r) + r
    } else {
        replace_char(s.drop_last(), a, r).push(s.last())
    }
}

pub fn replace_char_chars(v: &Vec<char>, a: char, r: &str) -> (out: Vec<char>)
    ensures
        out@ == replace_char(v@, a, r@),
{
    let rv = chars_of(r);
    let mut out: Vec<char> = Vec::new();
    let mut i: usize = 0;
    assert(v@.take(0) =~= Seq::<char>::empty());
    while i < v.len()
        invariant
            i <= v.len(),
            rv@ == r@,
            out@ == replace_char(v@.take(i as int), a, r@),
        decreases v.len() - i,
    {
        assert(v@.take(i + 1).drop_last() =~= v@.take(i as int));
        if v[i] == a {
            append_chars(&mut out, &rv);
        } else {
            out.push(v[i]);
        }
        i = i + 1;
    }
    assert(v@.take(v.len() as int) =~= v@);
    out
}

/// `str::replace(p, r)` for a non-empty pattern: every non-overlapping
/// occurrence of `p`, scanning from the left, is replaced by `r`.
pub open spec fn replace_str(s: Seq<char>, p: Seq<char>, r: Seq<char>) -> Seq<char>
    decreases s.len(),
{
    if p.len() == 0 {
        s
    } else {
        match find(s, p) {
            Some(i) => {
                proof {
                    lemma_find(s, p);
                }
                s.take(i) + r + replace_str(s.skip(i + p.len()), p, r)
            },
            None => s,
        }
    }
}

proof fn lemma_find_from_skip(s: Seq<char>, p: Seq<char>, i: int)
    requires
        0 <= i <= s.len(),
    ensures
        find_from(s, p, i) == (match find(s.skip(i), p) {
            Some(k) => Some(k + i),
            None => None,
        }),
{
    lemma_find_from(s, p, i);
    lemma_find(s.skip(i), p);
    assert forall|j: int| #![auto] 0 <= j ==> (occurs_at(s.skip(i), p, j) <==> occurs_at(s, p, j + i)) by {
        if 0 <= j && j + p.len() <= s.len() - i {
            assert(s.skip(i).subrange(j, j + p.len()) =~= s.subrange(j + i, j + i + p.len()));
        }
    }
    match find_from(s, p, i) {
        Some(k) => {
            assert(occurs_at(s.skip(i), p, k - i));
            match find(s.skip(i), p) {
                Some(m) => {
                    if m < k - i {
                        assert(occurs_at(s, p, m + i));
                    }
                    if k - i < m {
                        assert(!occurs_at(s.skip(i), p, k - i));
                    }
                },
                None => {},
            }
        },
        None => {
            match find(s.skip(i), p) {
                Some(m) => {
                    assert(occurs_at(s, p, m + i));
                },
                None => {},
            }
        },
    }
}

/// First occurrence of `p` at an index `>= start`.
pub fn find_from_chars(v: &Vec<char>, p: &Vec<char>, start: usize) -> (r: Option<usize>)
    requires
        start <= v.len(),
    ensures
        r matches Some(k) ==> find_from(v@, p@, start as int) == Some(k as int),
        r is None ==> find_from(v@, p@, start as int) is None,
{
    if p.len() > v.len() - start {
        return None;
    }
    let mut i: usize = start;
    loop
        invariant
            start <= i <= v.len() - p.len(),
            find_from(v@, p@, start as int) == find_from(v@, p@, i as int),
        decreases v.len() - p.len() - i,
    {
        if occurs_at_exec(v, p, i) {
            return Some(i);
        }
        if i == v.len() - p.len() {
            assert(find_from(v@, p@, i + 1) is None);
            return None;
        }
        i = i + 1;
    }
}

pub fn replace_str_chars(v: &Vec<char>, p: &str, r: &str) -> (out: Vec<char>)
    requires
        p@.len() > 0,
    ensures
        out@ == replace_str(v@, p@, r@),
{
    let pv = chars_of(p);
    let rv = chars_of(r);
    let mut out: Vec<char> = Vec::new();
    let mut i: usize = 0;
    assert(v@.skip(0) =~= v@);
    loop
        invariant
            i <= v.len(),
            pv@ == p@,
            rv@ == r@,
            p@.len() > 0,
            out@ + replace_str(v@.skip(i as int), p@, r@) == replace_str(v@, p@, r@),
        decreases v.len() - i,
    {
        proof {
            lemma_find_from_skip(v@, p@, i as int);
            lemma_find(v@.skip(i as int), p@);
        }
        match find_from_chars(v, &pv, i) {
            Some(k) => {
                let piece = slice_of(v, i, k);
                let ghost rest = v@.skip(i as int);
                assert(rest.take(k - i) =~= piece@);
                assert(rest.skip(k - i + p@.len()) =~= v@.skip(k + p@.len()));
                let ghost old_out = out@;
                assert(find(rest, p@) == Some(k - i));
                assert(replace_str(rest, p@, r@) == rest.take(k - i) + r@ + replace_str(
                    rest.skip(k - i + p@.len()),
                    p@,
                    r@,
                ));
                append_chars(&mut out, &piece);
                append_chars(&mut out, &rv);
                assert(out@ + replace_str(v@.skip(k + p@.len()), p@, r@) =~= old_out
                    + replace_str(rest, p@, r@));
                i = k + pv.len();
            },
            None => {
                let piece = slice_of(v, i, v.len());
                assert(v@.skip(i as int) =~= piece@);
                append_chars(&mut out, &piece);
                return out;
            },
        }
    }
}

/// The pieces joined with `sep` between neighbours (`[String]::join`).
pub open spec fn join(ps: Seq<Seq<char>>, sep: Seq<char>) -> Seq<char>
    decreases ps.len(),
{
    if ps.len() == 0 {
        Seq::empty()
    } else if ps.len() == 1 {
        ps[0]
    } else {
        join(ps.drop_last(), sep) + sep + ps.last()
    }
}

pub fn join_chars(ps: &Vec<Vec<char>>, sep: &str) -> (out: Vec<char>)
    ensures
        out@ == join(views(ps@), sep@),
{
    let sv = chars_of(sep);
    let mut out: Vec<char> = Vec::new();
    let mut i: usize = 0;
    while i < ps.len()
        invariant
            i <= ps.len(),
            sv@ == sep@,
            out@ == join(views(ps@).take(i as int), sep@),
        decreases ps.len() - i,
    {
        assert(views(ps@).take(i + 1).drop_last() =~= views(ps@).take(i as int));
        assert(views(ps@)[i as int] == ps@[i as int]@);
        if i > 0 {
            append_chars(&mut out, &sv);
        } else {
            assert(out@ =~= Seq::<char>::empty());
        }
        append_chars(&mut out, &ps[i]);
        i = i + 1;
        assert(views(ps@).take(i as int).last() == ps@[i - 1]@);
    }
    assert(views(ps@).take(ps.len() as int) =~= views(ps@));
    out
}


// ---------------------------------------------------------------------------
// Decimal numerals
// ---------------------------------------------------------------------------

/// The ASCII digit for `d < 10`.
pub open spec fn digit(d: nat) -> char {
    (48 + d) as char
}

/// Decimal numeral of `n`, without leading zeros (`usize::to_string`).
pub open spec fn dec(n: nat) -> Seq<char>
    decreases n,
{
    if n < 10 {
        seq![digit(n)]
    } else {
        dec(n / 10).push(digit(n % 10))
    }
}

pub proof fn lemma_dec_digits(n: nat)
    ensures
        dec(n).len() >= 1,
        all_digits(dec(n)),
    decreases n,
{
    if n >= 10 {
        lemma_dec_digits(n / 10);
        assert forall|i: int| 0 <= i < dec(n).len() implies is_digit(#[trigger] dec(n)[i]) by {
            if i < dec(n / 10).len() {
                assert(dec(n)[i] == dec(n / 10)[i]);
            }
        }
    }
}

pub fn digit_char(d: usize) -> (c: char)
    requires
        d < 10,
    ensures
        c == digit(d as nat),
{
    char_from_ascii((48 + d) as u32)
}

/// Decimal numeral of `n`.
pub fn dec_chars(n: usize) -> (r: Vec<char>)
    ensures
        r@ == dec(n as nat),
    decreases n,
{
    if n < 10 {
        let mut r: Vec<char> = Vec::new();
        r.push(digit_char(n));
        assert(r@ =~= seq![digit(n as nat)]);
        r
    } else {
        let mut r = dec_chars(n / 10);
        r.push(digit_char(n % 10));
        r
    }
}


/// Decimal numeral of a 64-bit `n`.
pub fn dec_chars_u64(n: u64) -> (r: Vec<char>)
    ensures
        r@ == dec(n as nat),
    decreases n,
{
    if n < 10 {
        let mut r: Vec<char> = Vec::new();
        r.push(digit_char(n as usize));
        assert(r@ =~= seq![digit(n as nat)]);
        r
    } else {
        let mut r = dec_chars_u64(n / 10);
        r.push(digit_char((n % 10) as usize));
        r
    }
}

// ---------------------------------------------------------------------------
// More searching helpers
// ---------------------------------------------------------------------------

/// `s.split(p).next()`: the text before the first occurrence of `p`.
pub open spec fn before_str(s: Seq<char>, p: Seq<char>) -> Seq<char> {
    match find(s, p) {
        Some(i) => s.take(i),
        None => s,
    }
}

pub fn before_str_chars(v: &Vec<char>, p: &str) -> (r: Vec<char>)
    ensures
        r@ == before_str(v@, p@),
{
    let pv = chars_of(p);
    proof {
        lemma_find(v@, p@);
    }
    match find_chars(v, &pv) {
        Some(i) => slice_of(v, 0, i),
        None => copy_chars(v),
    }
}

/// `str::trim_matches(c)`: `c` removed from both ends.
pub open spec fn trim_matches_char(s: Seq<char>, c: char) -> Seq<char> {
    trim_end_char(trim_start_char(s, c), c)
}

pub fn trim_matches_char_chars(v: &Vec<char>, c: char) -> (r: Vec<char>)
    ensures
        r@ == trim_matches_char(v@, c),
{
    let a = trim_start_char_chars(v, c);
    trim_end_char_chars(&a, c)
}

/// Some character of `s` is in `set`.
pub open spec fn has_any(s: Seq<char>, set: Seq<char>) -> bool {
    exists|i: int| 0 <= i < s.len() && set.contains(#[trigger] s[i])
}

pub fn has_any_chars(v: &Vec<char>, set: &str) -> (b: bool)
    ensures
        b == has_any(v@, set@),
{
    let sv = chars_of(set);
    let mut i: usize = 0;
    while i < v.len()
        invariant
            i <= v.len(),
            sv@ == set@,
            forall|j: int| 0 <= j < i ==> !set@.contains(#[trigger] v@[j]),
        decreases v.len() - i,
    {
        if has_char(&sv, v[i]) {
            assert(set@.contains(v@[i as int]));
            return true;
        }
        i = i + 1;
    }
    false
}

// ---------------------------------------------------------------------------
// UTF-8 lengths
// ---------------------------------------------------------------------------

/// Number of bytes of `c` in UTF-8.
pub open spec fn utf8_width(c: char) -> nat {
    if (c as u32) < 0x80 {
        1
    } else if (c as u32) < 0x800 {
        2
    } else if (c as u32) < 0x10000 {
        3
    } else {
        4
    }
}

/// Number of bytes of `s` in UTF-8 (`str::len`).
pub open spec fn byte_len(s: Seq<char>) -> nat
    decreases s.len(),
{
    if s.len() == 0 {
        0
    } else {
        byte_len(s.drop_last()) + utf8_width(s.last())
    }
}

/// Byte offset `k` of `s` falls between two characters.
pub open spec fn is_boundary(s: Seq<char>, k: nat) -> bool {
    exists|j: int| 0 <= j <= s.len() && byte_len(#[trigger] s.take(j)) == k
}

/// The character index at byte offset `k` (meaningful when `is_boundary(s, k)`).
pub open spec fn char_index(s: Seq<char>, k: nat) -> int {
    choose|j: int| 0 <= j <= s.len() && byte_len(#[trigger] s.take(j)) == k
}

/// `s[..k]` for a byte offset `k` on a character boundary.
pub open spec fn prefix_bytes(s: Seq<char>, k: nat) -> Seq<char> {
    s.take(char_index(s, k))
}

pub fn utf8_width_of(c: char) -> (w: usize)
    ensures
        w == utf8_width(c),
{
    let u = c as u32;
    if u < 0x80 {
        1
    } else if u < 0x800 {
        2
    } else if u < 0x10000 {
        3
    } else {
        4
    }
}

pub proof fn lemma_byte_len_take_mono(s: Seq<char>, i: int, j: int)
    requires
        0 <= i < j <= s.len(),
    ensures
        byte_len(s.take(i)) < byte_len(s.take(j)),
    decreases j - i,
{
    assert(s.take(j).drop_last() =~= s.take(j - 1));
    if i < j - 1 {
        lemma_byte_len_take_mono(s, i, j - 1);
    }
}

/// Byte length of `v`, capped: `None` when it exceeds `cap`.
pub fn byte_len_upto(v: &Vec<char>, cap: usize) -> (r: Option<usize>)
    ensures
        r matches Some(n) ==> n == byte_len(v@) && n <= cap,
        r is None ==> byte_len(v@) > cap,
{
    let mut n: usize = 0;
    let mut i: usize = 0;
    while i < v.len()
        invariant
            i <= v.len(),
            n == byte_len(v@.take(i as int)),
            n <= cap,
        decreases v.len() - i,
    {
        assert(v@.take(i + 1).drop_last() =~= v@.take(i as int));
        let w = utf8_width_of(v[i]);
        if w > cap - n {
            proof {
                if i + 1 < v.len() {
                    lemma_byte_len_take_mono(v@, i + 1, v.len() as int);
                }
                assert(v@.take(v.len() as int) =~= v@);
            }
            return None;
        }
        n = n + w;
        i = i + 1;
    }
    assert(v@.take(v.len() as int) =~= v@);
    Some(n)
}

/// The character index at byte offset `k`, when `k` is on a character boundary.
pub fn char_index_at_byte(v: &Vec<char>, k: usize) -> (r: Option<usize>)
    ensures
        r matches Some(j) ==> j <= v.len() && byte_len(v@.take(j as int)) == k && char_index(
            v@,
            k as nat,
        ) == j && is_boundary(v@, k as nat),
        r is None ==> !is_boundary(v@, k as nat),
{
    let mut n: usize = 0;
    let mut i: usize = 0;
    assert(v@.take(0) =~= Seq::<char>::empty());
    loop
        invariant
            i <= v.len(),
            n == byte_len(v@.take(i as int)),
            n <= k,
            forall|j: int| 0 <= j < i ==> byte_len(#[trigger] v@.take(j)) < k,
        decreases v.len() - i,
    {
        if n == k {
            proof {
                assert(is_boundary(v@, k as nat));
                let c = char_index(v@, k as nat);
                if c < i {
                    assert(byte_len(v@.take(c)) < k);
                } else if c > i {
                    lemma_byte_len_take_mono(v@, i as int, c);
                }
            }
            return Some(i);
        }
        if i == v.len() {
            proof {
                assert forall|j: int| 0 <= j <= v.len() implies byte_len(#[trigger] v@.take(j)) != k by {
                    if j < i {
                    }
                }
            }
            return None;
        }
        assert(v@.take(i + 1).drop_last() =~= v@.take(i as int));
        let w = utf8_width_of(v[i]);
        if w > k - n {
            proof {
                assert forall|j: int| 0 <= j <= v.len() implies byte_len(#[trigger] v@.take(j)) != k by {
                    if j > i + 1 {
                        lemma_byte_len_take_mono(v@, i + 1, j);
                    }
                }
            }
            return None;
        }
        n = n + w;
        i = i + 1;
    }
}

} // verus!
