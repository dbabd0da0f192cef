//! Small decisions shared by the commands: server error messages, secrets
//! given on the command line or through stdin, health-check text.
use vstd::prelude::*;

use crate::errors::AkError;
use crate::digest::{hex_digit, hex_lower};
use crate::text::{append_chars, append_str, char_from_ascii, chars_of, lower_str, slice_of, starts_with, string_of};

verus! {

/// A server error for a failed call: `Failed to {action}: {detail}`.
pub fn sdk_err(action: &str, detail: &str) -> (e: AkError)
    ensures
        e is ServerError,
        e.msg() == "Failed to "@ + action@ + ": "@ + detail@,
{
    let mut v = chars_of("Failed to ");
    append_str(&mut v, action);
    append_str(&mut v, ": ");
    append_str(&mut v, detail);
    AkError::ServerError(string_of(&v))
}

/// `None` for an empty secret, so that "just press Enter" and empty piped
/// input both mean "no secret".
pub fn non_empty(secret: String) -> (r: Option<String>)
    ensures
        secret@.len() == 0 ==> r is None,
        secret@.len() > 0 ==> r == Some(secret),
{
    if secret.as_str().is_empty() {
        None
    } else {
        Some(secret)
    }
}

/// Text without its trailing `\r` and `\n` characters.
pub open spec fn without_newlines(s: Seq<char>) -> Seq<char>
    decreases s.len(),
{
    if s.len() > 0 && (s.last() == '\r' || s.last() == '\n') {
        without_newlines(s.drop_last())
    } else {
        s
    }
}

/// A secret read from stdin, without its trailing line breaks.
pub fn trim_secret(buf: &str) -> (r: String)
    ensures
        r@ == without_newlines(buf@),
{
    let v = chars_of(buf);
    let mut n: usize = v.len();
    assert(v@.take(n as int) =~= v@);
    while n > 0 && (v[n - 1] == '\r' || v[n - 1] == '\n')
        invariant
            n <= v.len(),
            without_newlines(v@) == without_newlines(v@.take(n as int)),
        decreases n,
    {
        assert(v@.take(n as int).drop_last() =~= v@.take(n - 1));
        n = n - 1;
    }
    let r = crate::text::slice_of(&v, 0, n);
    assert(r@ =~= v@.take(n as int));
    string_of(&r)
}

/// Whether the long option `flag` appears among the command-line arguments
/// themselves (`--flag value` or `--flag=value`).
pub open spec fn flag_in(flag: Seq<char>, args: Seq<Seq<char>>) -> bool {
    exists|i: int| 0 <= i < args.len() && (#[trigger] args[i] == flag || starts_with(args[i], flag + "="@))
}

/// Whether `flag` was passed on the command line; `args` are the arguments
/// after the program name.
pub fn flag_on_argv(flag: &str, args: &Vec<String>) -> (b: bool)
    ensures
        b == flag_in(flag@, crate::text::strs(args@)),
{
    let mut eq = chars_of(flag);
    append_str(&mut eq, "=");
    let fv = chars_of(flag);
    let mut i: usize = 0;
    while i < args.len()
        invariant
            i <= args.len(),
            eq@ == flag@ + "="@,
            fv@ == flag@,
            forall|j: int| 0 <= j < i ==> !(#[trigger] crate::text::strs(args@)[j] == flag@ || starts_with(
                crate::text::strs(args@)[j],
                flag@ + "="@,
            )),
        decreases args.len() - i,
    {
        let a = chars_of(args[i].as_str());
        assert(crate::text::strs(args@)[i as int] == args@[i as int]@);
        if crate::text::chars_eq(&a, &fv) || crate::text::starts_with_chars(&a, &eq) {
            return true;
        }
        i = i + 1;
    }
    false
}

/// Where a secret-valued option takes its value from.
#[derive(Debug, Clone, Copy, PartialEq, Eq, Structural)]
pub enum SecretSource {
    /// Read it from stdin (trailing line breaks dropped; empty means none).
    Stdin,
    /// The value given on the command line or by its environment variable.
    Given,
    /// Ask interactively, without echo (empty means none).
    Prompt,
    /// No secret.
    Absent,
}

/// Which source a secret option resolves from, in order of precedence:
/// `--<flag>-stdin`; an explicit value; stdin when prompting is allowed and
/// stdin is not a terminal; the prompt unless `--no-input`; else none.
pub fn secret_source(from_stdin: bool, has_value: bool, may_prompt: bool, no_input: bool, stdin_is_tty: bool) -> (s: SecretSource)
    ensures
        from_stdin ==> s == SecretSource::Stdin,
        !from_stdin && has_value ==> s == SecretSource::Given,
        !from_stdin && !has_value && !may_prompt ==> s == SecretSource::Absent,
        !from_stdin && !has_value && may_prompt && !stdin_is_tty ==> s == SecretSource::Stdin,
        !from_stdin && !has_value && may_prompt && stdin_is_tty && no_input ==> s == SecretSource::Absent,
        !from_stdin && !has_value && may_prompt && stdin_is_tty && !no_input ==> s == SecretSource::Prompt,
{
    if from_stdin {
        SecretSource::Stdin
    } else if has_value {
        SecretSource::Given
    } else if !may_prompt {
        SecretSource::Absent
    } else if !stdin_is_tty {
        SecretSource::Stdin
    } else if no_input {
        SecretSource::Absent
    } else {
        SecretSource::Prompt
    }
}

/// The text of one health check: `{status} ({message})`, or the status
/// alone when there is no message or it is empty.
pub open spec fn check_status_spec(status: Seq<char>, message: Option<Seq<char>>) -> Seq<char> {
    match message {
        Some(m) => if m.len() > 0 {
            status + " ("@ + m + ")"@
        } else {
            status
        },
        None => status,
    }
}

pub fn check_status_str(status: &str, message: Option<&str>) -> (r: String)
    ensures
        r@ == check_status_spec(status@, crate::config::opt_str(message)),
{
    match message {
        Some(m) => {
            if !m.is_empty() {
                let mut v = chars_of(status);
                append_str(&mut v, " (");
                append_str(&mut v, m);
                append_str(&mut v, ")");
                string_of(&v)
            } else {
                String::from_str(status)
            }
        },
        None => String::from_str(status),
    }
}

/// An ASCII hexadecimal digit (either case).
pub open spec fn is_hex(c: char) -> bool {
    ('0' <= c && c <= '9') || ('a' <= c && c <= 'f') || ('A' <= c && c <= 'F')
}

/// `8-4-4-4-12` hex digits separated by hyphens.
pub open spec fn hyphenated_uuid(s: Seq<char>) -> bool {
    &&& s.len() == 36
    &&& s[8] == '-' && s[13] == '-' && s[18] == '-' && s[23] == '-'
    &&& forall|i: int| 0 <= i < 36 && i != 8 && i != 13 && i != 18 && i != 23 ==> is_hex(#[trigger] s[i])
}

/// The texts `uuid::Uuid::parse_str` accepts: 32 hex digits; the hyphenated
/// form; that form in braces; or that form after `urn:uuid:` in any case.
pub open spec fn uuid_parses(s: Seq<char>) -> bool {
    ||| s.len() == 32 && (forall|i: int| 0 <= i < 32 ==> is_hex(#[trigger] s[i]))
    ||| hyphenated_uuid(s)
    ||| s.len() == 38 && s[0] == '{' && s[37] == '}' && hyphenated_uuid(s.subrange(1, 37))
    ||| s.len() == 45 && lower_str(s.take(9)) == "urn:uuid:"@ && hyphenated_uuid(s.skip(9))
}

/// The value of a hex digit.
pub open spec fn hex_val(c: char) -> int {
    if '0' <= c && c <= '9' {
        c as int - 48
    } else if 'a' <= c && c <= 'f' {
        c as int - 87
    } else {
        c as int - 55
    }
}

/// The 32 digits of a hyphenated UUID, hyphens left out.
pub open spec fn hyphen_digits(h: Seq<char>) -> Seq<char> {
    h.subrange(0, 8) + h.subrange(9, 13) + h.subrange(14, 18) + h.subrange(19, 23) + h.subrange(24, 36)
}

/// The 32 hex digits of an accepted UUID text, in order.
pub open spec fn uuid_digits(s: Seq<char>) -> Seq<char> {
    if s.len() == 32 {
        s
    } else if s.len() == 36 {
        hyphen_digits(s)
    } else if s.len() == 38 {
        hyphen_digits(s.subrange(1, 37))
    } else {
        hyphen_digits(s.skip(9))
    }
}

/// The 16 bytes an accepted UUID text denotes: each pair of digits, high
/// nibble first.
pub open spec fn uuid_bytes(s: Seq<char>) -> Seq<u8> {
    let d = uuid_digits(s);
    Seq::new(16, |j: int| (hex_val(d[2 * j]) * 16 + hex_val(d[2 * j + 1])) as u8)
}

/// A UUID, as its 16 bytes.
#[derive(Debug, Clone, Copy)]
pub struct Uuid {
    pub bytes: [u8; 16],
}

impl View for Uuid {
    type V = Seq<u8>;

    open spec fn view(&self) -> Seq<u8> {
        self.bytes@
    }
}

/// The hyphenated lower-case text of a UUID: `8-4-4-4-12` hex digits.
pub open spec fn uuid_text(b: Seq<u8>) -> Seq<char> {
    let h = hex_lower(b);
    h.subrange(0, 8) + "-"@ + h.subrange(8, 12) + "-"@ + h.subrange(12, 16) + "-"@ + h.subrange(16, 20) + "-"@
        + h.subrange(20, 32)
}

fn hex_char(d: u8) -> (c: char)
    requires
        d < 16,
    ensures
        c == hex_digit(d),
{
    if d < 10 {
        char_from_ascii((48 + d) as u32)
    } else {
        char_from_ascii((87 + d) as u32)
    }
}

proof fn lemma_hex_lower_len(b: Seq<u8>)
    ensures
        hex_lower(b).len() == 2 * b.len(),
    decreases b.len(),
{
    if b.len() > 0 {
        lemma_hex_lower_len(b.drop_last());
    }
}

impl Uuid {
    /// The hyphenated lower-case text (what `uuid::Uuid` displays).
    pub fn to_string(&self) -> (r: String)
        ensures
            r@ == uuid_text(self@),
    {
        let mut h: Vec<char> = Vec::new();
        let mut i: usize = 0;
        while i < 16
            invariant
                i <= 16,
                h@ == hex_lower(self.bytes@.take(i as int)),
            decreases 16 - i,
        {
            let b = self.bytes[i];
            h.push(hex_char(b / 16));
            h.push(hex_char(b % 16));
            assert(self.bytes@.take(i + 1).drop_last() =~= self.bytes@.take(i as int));
            i = i + 1;
        }
        assert(self.bytes@.take(16) =~= self.bytes@);
        proof {
            lemma_hex_lower_len(self.bytes@);
        }
        let mut out: Vec<char> = slice_of(&h, 0, 8);
        append_str(&mut out, "-");
        let a = slice_of(&h, 8, 12);
        append_chars(&mut out, &a);
        append_str(&mut out, "-");
        let b = slice_of(&h, 12, 16);
        append_chars(&mut out, &b);
        append_str(&mut out, "-");
        let c = slice_of(&h, 16, 20);
        append_chars(&mut out, &c);
        append_str(&mut out, "-");
        let d = slice_of(&h, 20, 32);
        append_chars(&mut out, &d);
        string_of(&out)
    }
}

/// A UUID as an 8-character short ID: the first eight hex digits of its
/// text.
pub fn short_id(id: &Uuid) -> (r: String)
    ensures
        r@ == uuid_text(id@).take(8),
{
    let t = id.to_string();
    let v = chars_of(t.as_str());
    proof {
        lemma_hex_lower_len(id@);
    }
    let head = slice_of(&v, 0, 8);
    string_of(&head)
}

/// `uuid::Uuid::parse_str` (what `str::parse::<Uuid>` calls), the UUID
/// taken by its bytes (`Uuid::as_bytes`): it accepts exactly the forms of
/// `uuid_parses`, and the bytes are the pairs of hex digits, high nibble
/// first (`decode_hex32` in the uuid parser).
#[verifier::external_body]
fn uuid_parse(s: &str) -> (r: Option<[u8; 16]>)
    ensures
        r is Some == uuid_parses(s@),
        r matches Some(b) ==> b@ == uuid_bytes(s@),
{
    match uuid::Uuid::parse_str(s) {
        Ok(u) => Some(*u.as_bytes()),
        Err(_) => None,
    }
}

/// The error for an ID that is not a UUID: `Invalid {label} ID: {id}`.
pub open spec fn invalid_id_message(label: Seq<char>, id: Seq<char>) -> Seq<char> {
    "Invalid "@ + label + " ID: "@ + id
}

/// The UUID of an ID argument, or a configuration error naming the kind
/// of ID (`label`).
pub fn parse_uuid(id: &str, label: &str) -> (r: Result<Uuid, AkError>)
    ensures
        r is Ok == uuid_parses(id@),
        r matches Ok(u) ==> u@ == uuid_bytes(id@),
        r matches Err(e) ==> e is ConfigError && e.msg() == invalid_id_message(label@, id@),
{
    match uuid_parse(id) {
        Some(b) => Ok(Uuid { bytes: b }),
        None => {
            let mut v = chars_of("Invalid ");
            append_str(&mut v, label);
            append_str(&mut v, " ID: ");
            append_str(&mut v, id);
            Err(AkError::ConfigError(string_of(&v)))
        },
    }
}

/// `parse_uuid` of an optional ID argument.
pub fn parse_optional_uuid(id: Option<&str>, label: &str) -> (r: Result<Option<Uuid>, AkError>)
    ensures
        id is None ==> (r matches Ok(o) && o is None),
        id matches Some(s) ==> (r is Ok == uuid_parses(s@)),
        id matches Some(s) ==> (r matches Ok(o) ==> (o matches Some(u) && u@ == uuid_bytes(s@))),
        id matches Some(s) ==> (r matches Err(e) ==> e is ConfigError && e.msg() == invalid_id_message(label@, s@)),
{
    match id {
        None => Ok(None),
        Some(s) => match parse_uuid(s, label) {
            Ok(u) => Ok(Some(u)),
            Err(e) => Err(e),
        },
    }
}

/// Whether a destructive action goes ahead without asking (`--yes`, or
/// `--no-input`).
pub fn skips_confirmation(skip_confirm: bool, no_input: bool) -> (b: bool)
    ensures
        b == (skip_confirm || no_input),
{
    skip_confirm || no_input
}

/// The pagination note `Page {page} of {total_pages} ({total} total {label})`,
/// shown only when there is more than one page.
pub fn page_info(page: i32, total_pages: i32, total: i64, label: &str) -> (r: Option<String>)
    ensures
        total_pages <= 1 ==> r is None,
        total_pages > 1 ==> (r matches Some(t) && t@ == "Page "@ + crate::dt::int_text(page as int) + " of "@
            + crate::dt::int_text(total_pages as int) + " ("@ + crate::dt::int_text(total as int) + " total "@ + label@
            + ")"@),
{
    if total_pages <= 1 {
        return None;
    }
    let mut v = chars_of("Page ");
    let p = crate::dt::i64_text(page as i64);
    append_str(&mut v, p.as_str());
    append_str(&mut v, " of ");
    let tp = crate::dt::i64_text(total_pages as i64);
    append_str(&mut v, tp.as_str());
    append_str(&mut v, " (");
    let t = crate::dt::i64_text(total);
    append_str(&mut v, t.as_str());
    append_str(&mut v, " total ");
    append_str(&mut v, label);
    append_str(&mut v, ")");
    Some(string_of(&v))
}

} // verus!
