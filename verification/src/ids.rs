//! Identifiers derived from SHA-256 digests, written in lower-case hex.
use vstd::prelude::*;
use vstd::utf8::encode_utf8;
use sha2::{Digest, Sha256};
use std::time::{SystemTime, UNIX_EPOCH};
use crate::text::{format_u128, nat_digits, push_char, push_str, to_chars};

verus! {

/// The SHA-256 digest of `bytes`.
pub uninterp spec fn sha256_of(bytes: Seq<u8>) -> Seq<u8>;

/// The SHA-256 digest of the UTF-8 encoding of `text`.
pub open spec fn text_sha256(text: Seq<char>) -> Seq<u8> {
    sha256_of(encode_utf8(text))
}

/// Calls `sha2::Sha256::digest` on `bytes`.  Claimed: the result is the
/// digest named by `sha256_of`, and it is 32 bytes long (the output size
/// `sha2` gives SHA-256).
#[verifier::external_body]
fn sha256_digest(bytes: &[u8]) -> (r: Vec<u8>)
    ensures
        r@ == sha256_of(bytes@),
        r@.len() == 32,
{
    Sha256::digest(bytes).to_vec()
}

/// Reads the system clock as nanoseconds since the Unix epoch
/// (`SystemTime::now`, zero when the clock is before the epoch).  Nothing is
/// claimed of the value.
#[verifier::external_body]
fn clock_nanos() -> (r: u128) {
    SystemTime::now().duration_since(UNIX_EPOCH).unwrap_or_default().as_nanos()
}

/// Lower-case hex digit of `d` in `0..16`.
pub open spec fn hex_digit(d: int) -> char {
    if d < 10 { (d + '0' as int) as char } else { (d - 10 + 'a' as int) as char }
}

/// Two lower-case hex digits per byte (`{:02x}`).
pub open spec fn hex_of(bytes: Seq<u8>) -> Seq<char>
    decreases bytes.len(),
{
    if bytes.len() == 0 {
        Seq::<char>::empty()
    } else {
        hex_of(bytes.drop_last()).push(hex_digit(bytes.last() as int / 16)).push(
            hex_digit(bytes.last() as int % 16),
        )
    }
}

/// `c` with ASCII upper-case letters made lower-case.
pub open spec fn lower_char(c: char) -> char {
    if 'A' <= c && c <= 'Z' { ((c as int) + 32) as char } else { c }
}

/// `c` with ASCII lower-case letters made upper-case.
pub open spec fn upper_char(c: char) -> char {
    if 'a' <= c && c <= 'z' { ((c as int) - 32) as char } else { c }
}

pub open spec fn ascii_lower(s: Seq<char>) -> Seq<char> {
    s.map_values(|c: char| lower_char(c))
}

pub open spec fn ascii_upper(s: Seq<char>) -> Seq<char> {
    s.map_values(|c: char| upper_char(c))
}

/// `prefix_` and the hex of the first twelve digest bytes of `key`.
pub open spec fn digest_id(prefix: Seq<char>, key: Seq<char>) -> Seq<char> {
    prefix + seq!['_'] + hex_of(text_sha256(key).subrange(0, 12))
}

/// The identifier `unique_id` makes at clock reading `now`.
pub open spec fn id_at(prefix: Seq<char>, material: Seq<char>, now: u128) -> Seq<char> {
    digest_id(prefix, prefix + seq!['|'] + material + seq!['|'] + nat_digits(now as nat))
}

fn hex_char(d: u8) -> (c: char)
    requires
        d < 16,
    ensures
        c == hex_digit(d as int),
{
    if d < 10 { (d + 48) as char } else { (d - 10 + 97) as char }
}

/// Appends the hex of `bytes[0..n]`.
pub fn push_hex(out: &mut String, bytes: &Vec<u8>, n: usize)
    requires
        n <= bytes.len(),
    ensures
        final(out)@ == old(out)@ + hex_of(bytes@.subrange(0, n as int)),
{
    let ghost start = out@;
    let mut i: usize = 0;
    while i < n
        invariant
            i <= n <= bytes.len(),
            out@ == start + hex_of(bytes@.subrange(0, i as int)),
        decreases n - i,
    {
        let b = bytes[i];
        push_char(out, hex_char(b / 16));
        push_char(out, hex_char(b % 16));
        proof {
            let s = bytes@.subrange(0, i + 1);
            assert(s.drop_last() =~= bytes@.subrange(0, i as int));
            assert(s.last() == b);
        }
        i = i + 1;
    }
}

/// Two hex digits per byte.
pub proof fn lemma_hex_of_len(bytes: Seq<u8>)
    ensures
        hex_of(bytes).len() == 2 * bytes.len(),
    decreases bytes.len(),
{
    if bytes.len() > 0 {
        lemma_hex_of_len(bytes.drop_last());
    }
}

/// The SHA-256 digest of the UTF-8 encoding of `text`.
pub fn sha256_bytes(text: &str) -> (r: Vec<u8>)
    ensures
        r@ == text_sha256(text@),
        r@.len() == 32,
{
    sha256_digest(text.as_bytes())
}

/// Lower-case hex of the SHA-256 digest of `bytes` (64 characters).
pub fn hex_sha256(bytes: &[u8]) -> (r: String)
    ensures
        r@ == hex_of(sha256_of(bytes@)),
{
    let hash = sha256_digest(bytes);
    let mut out = String::new();
    push_hex(&mut out, &hash, 32);
    assert(hash@.subrange(0, 32) =~= hash@);
    out
}

/// The identifier `prefix_` followed by the hex of the first twelve bytes
/// of the SHA-256 digest of `key`.
pub fn digest_identifier(prefix: &str, key: &str) -> (r: String)
    ensures
        r@ == digest_id(prefix@, key@),
{
    let hash = sha256_digest(key.as_bytes());
    let mut out = String::new();
    push_str(&mut out, prefix);
    push_char(&mut out, '_');
    push_hex(&mut out, &hash, 12);
    assert(out@ =~= digest_id(prefix@, key@));
    out
}

/// The identifier for `prefix` and `material` at clock reading `now`.
pub fn id_at_time(prefix: &str, material: &str, now: u128) -> (r: String)
    ensures
        r@ == id_at(prefix@, material@, now),
{
    let mut key = String::new();
    push_str(&mut key, prefix);
    push_char(&mut key, '|');
    push_str(&mut key, material);
    push_char(&mut key, '|');
    let digits = format_u128(now);
    push_str(&mut key, digits.as_str());
    assert(key@ =~= prefix@ + seq!['|'] + material@ + seq!['|'] + nat_digits(now as nat));
    digest_identifier(prefix, key.as_str())
}

/// A fresh identifier: `prefix_` and hex of a digest of the prefix, the
/// material and the current time.
pub fn unique_id(prefix: &str, material: &str) -> (r: String)
    ensures
        exists|now: u128| r@ == id_at(prefix@, material@, now),
{
    let now = clock_nanos();
    id_at_time(prefix, material, now)
}

/// ASCII lower-case copy (`str::to_ascii_lowercase`).
pub fn to_ascii_lowercase(s: &str) -> (r: String)
    ensures
        r@ == ascii_lower(s@),
{
    let v = to_chars(s);
    let mut out = String::new();
    let mut i: usize = 0;
    while i < v.len()
        invariant
            v@ == s@,
            i <= v.len(),
            out@ == ascii_lower(s@.subrange(0, i as int)),
        decreases v.len() - i,
    {
        let c = v[i];
        let l = if c >= 'A' && c <= 'Z' { ((c as u32) + 32) as u8 as char } else { c };
        assert(l == lower_char(c));
        push_char(&mut out, l);
        assert(ascii_lower(s@.subrange(0, i + 1)) =~= ascii_lower(s@.subrange(0, i as int)).push(l));
        i = i + 1;
    }
    assert(s@.subrange(0, v.len() as int) =~= s@);
    out
}

/// ASCII upper-case copy (`str::to_ascii_uppercase`).
pub fn to_ascii_uppercase(s: &str) -> (r: String)
    ensures
        r@ == ascii_upper(s@),
{
    let v = to_chars(s);
    let mut out = String::new();
    let mut i: usize = 0;
    while i < v.len()
        invariant
            v@ == s@,
            i <= v.len(),
            out@ == ascii_upper(s@.subrange(0, i as int)),
        decreases v.len() - i,
    {
        let c = v[i];
        let u = if c >= 'a' && c <= 'z' { ((c as u32) - 32) as u8 as char } else { c };
        assert(u == upper_char(c));
        push_char(&mut out, u);
        assert(ascii_upper(s@.subrange(0, i + 1)) =~= ascii_upper(s@.subrange(0, i as int)).push(u));
        i = i + 1;
    }
    assert(s@.subrange(0, v.len() as int) =~= s@);
    out
}

} // verus!
