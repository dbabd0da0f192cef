//! File digests recorded in the ferry manifest: SHA-256, in lower-case hex.
use vstd::prelude::*;

use crate::manifest::FileEntry;
use crate::text::{chars_of, replace_char, replace_char_chars, string_of};

verus! {

/// The SHA-256 digest of some bytes.
pub uninterp spec fn sha256_of(data: Seq<u8>) -> Seq<u8>;

/// `sha2::Sha256::digest` (trait `sha2::Digest`): the 32-byte SHA-256 digest
/// of `data`. Which bytes it is, is only named (`sha256_of`), not stated.
#[verifier::external_body]
fn sha256_digest(data: &Vec<u8>) -> (r: Vec<u8>)
    ensures
        r@ == sha256_of(data@),
        r@.len() == 32,
{
    <sha2::Sha256 as sha2::Digest>::digest(data.as_slice()).to_vec()
}

/// The lower-case hex digit of a value below 16.
pub open spec fn hex_digit(d: u8) -> char {
    if d < 10 {
        ((48 + d) as u8) as char
    } else {
        ((87 + d) as u8) as char
    }
}

/// Lower-case hex: two digits per byte, high nibble first.
pub open spec fn hex_lower(data: Seq<u8>) -> Seq<char>
    decreases data.len(),
{
    if data.len() == 0 {
        seq![]
    } else {
        hex_lower(data.drop_last()) + seq![hex_digit(data.last() / 16), hex_digit(data.last() % 16)]
    }
}

/// `hex::encode`: the bytes as lower-case hex, two digits per byte, high
/// nibble first (`0123456789abcdef`).
#[verifier::external_body]
fn hex_encode(data: &Vec<u8>) -> (r: String)
    ensures
        r@ == hex_lower(data@),
{
    hex::encode(data.as_slice())
}

/// The SHA-256 digest of `data` in lower-case hex, as the manifest records it.
pub fn sha256_hex(data: &Vec<u8>) -> (r: String)
    ensures
        r@ == hex_lower(sha256_of(data@)),
        r@.len() == 64,
{
    let d = sha256_digest(data);
    proof {
        lemma_hex_len(d@);
    }
    hex_encode(&d)
}

proof fn lemma_hex_len(data: Seq<u8>)
    ensures
        hex_lower(data).len() == 2 * data.len(),
    decreases data.len(),
{
    if data.len() > 0 {
        lemma_hex_len(data.drop_last());
    }
}

/// The manifest entry of a file: its path below the payload root with
/// `\` turned into `/`, its digest and size.
pub fn file_entry_of(rel: &str, sha256: String, size: u64) -> (f: FileEntry)
    ensures
        f.relpath@ == replace_char(rel@, '\\', "/"@),
        f.sha256 == sha256,
        f.size == size,
{
    let v = chars_of(rel);
    let r = replace_char_chars(&v, '\\', "/");
    FileEntry { relpath: string_of(&r), sha256, size }
}

/// Whether a file still matches its manifest entry: same digest and size.
pub fn file_matches(entry: &FileEntry, sha256: &str, size: u64) -> (b: bool)
    ensures
        b == (entry.sha256@ == sha256@ && entry.size == size),
{
    let a = chars_of(entry.sha256.as_str());
    let b = chars_of(sha256);
    crate::text::chars_eq(&a, &b) && entry.size == size
}

} // verus!
