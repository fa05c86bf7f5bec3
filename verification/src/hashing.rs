//! The cryptographic fingerprint of a thought: SHA-256 over its canonical
//! binary encoding, rendered as lowercase hexadecimal.
use vstd::prelude::*;
use crate::text::string_from_chars;
use vstd::string::*;
use vstd::utf8::encode_utf8;

verus! {

/// The SHA-256 digest of `data`, as `sha2::Sha256` computes it.
pub uninterp spec fn sha256(data: Seq<u8>) -> Seq<u8>;

/// Calls `sha2::Sha256::digest`. The contract names the digest and states
/// its length, which the output type fixes at 32 bytes.
#[verifier::external_body]
pub(crate) fn sha256_digest(data: &[u8]) -> (d: Vec<u8>)
    ensures
        d@ == sha256(data@),
        d@.len() == 32,
{
    <sha2::Sha256 as sha2::Digest>::digest(data).to_vec()
}

/// The lowest `n` bytes of `v`, least significant first.
pub open spec fn le_bytes(v: nat, n: nat) -> Seq<u8>
    decreases n,
{
    if n == 0 {
        Seq::empty()
    } else {
        seq![(v % 256) as u8] + le_bytes(v / 256, (n - 1) as nat)
    }
}

/// bincode's variable-length encoding of an unsigned integer, little-endian:
/// a value up to 250 is its own byte; otherwise a marker (251, 252 or 253)
/// is followed by the value in two, four or eight bytes.
pub open spec fn varint_u64(v: nat) -> Seq<u8> {
    if v <= 250 {
        seq![v as u8]
    } else if v <= 0xffff {
        seq![251u8] + le_bytes(v, 2)
    } else if v <= 0xffff_ffff {
        seq![252u8] + le_bytes(v, 4)
    } else {
        seq![253u8] + le_bytes(v, 8)
    }
}

/// The bytes that bincode's standard configuration writes for a string:
/// the length of its UTF-8 encoding as a variable-length integer, then the
/// UTF-8 bytes.
pub open spec fn bincode_str(s: Seq<char>) -> Seq<u8> {
    varint_u64(encode_utf8(s).len()) + encode_utf8(s)
}

/// Appends the lowest `n` bytes of `v`, least significant first.
fn push_le_bytes(out: &mut Vec<u8>, v: u64, n: usize)
    requires
        n <= 8,
    ensures
        final(out)@ == old(out)@ + le_bytes(v as nat, n as nat),
{
    let mut w: u64 = v;
    let mut i: usize = 0;
    while i < n
        invariant
            i <= n,
            old(out)@ + le_bytes(v as nat, n as nat) == out@ + le_bytes(w as nat, (n - i) as nat),
        decreases n - i,
    {
        let ghost before = out@;
        out.push((w % 256) as u8);
        proof {
            assert(le_bytes(w as nat, (n - i) as nat) == seq![(w % 256) as u8] + le_bytes((w / 256) as nat, (n - i - 1) as nat));
            assert(before + le_bytes(w as nat, (n - i) as nat) =~= out@ + le_bytes((w / 256) as nat, (n - i - 1) as nat));
        }
        w = w / 256;
        i = i + 1;
    }
    assert(out@ + le_bytes(w as nat, 0) =~= out@);
}

/// The bytes bincode's standard configuration writes for a string; see
/// [`bincode_str`].
pub(crate) fn bincode_encode_str(s: &str) -> (b: Vec<u8>)
    ensures
        b@ == bincode_str(s@),
{
    let bytes = s.as_bytes();
    let n = bytes.len() as u64;
    let mut out: Vec<u8> = Vec::new();
    if n <= 250 {
        out.push(n as u8);
    } else if n <= 0xffff {
        out.push(251u8);
        push_le_bytes(&mut out, n, 2);
    } else if n <= 0xffff_ffff {
        out.push(252u8);
        push_le_bytes(&mut out, n, 4);
    } else {
        out.push(253u8);
        push_le_bytes(&mut out, n, 8);
    }
    let ghost head = out@;
    let mut i: usize = 0;
    while i < bytes.len()
        invariant
            i <= bytes@.len(),
            out@ == head + bytes@.subrange(0, i as int),
        decreases bytes@.len() - i,
    {
        out.push(bytes[i]);
        i = i + 1;
        assert(out@ =~= head + bytes@.subrange(0, i as int));
    }
    assert(bytes@.subrange(0, bytes@.len() as int) =~= bytes@);
    proof {
        assert(head =~= varint_u64(encode_utf8(s@).len()));
    }
    out
}

/// Lowercase hexadecimal digit for a value below 16.
pub open spec fn hex_digit(d: int) -> char {
    if d < 10 {
        (48 + d) as char
    } else {
        (87 + d) as char
    }
}

/// Two lowercase hexadecimal digits per byte, high nibble first.
pub open spec fn hex_lower(data: Seq<u8>) -> Seq<char>
    decreases data.len(),
{
    if data.len() == 0 {
        Seq::empty()
    } else {
        hex_lower(data.drop_last()).push(hex_digit(data.last() as int / 16)).push(
            hex_digit(data.last() as int % 16),
        )
    }
}

pub(crate) fn hex_digit_of(d: u8) -> (c: char)
    requires
        d < 16,
    ensures
        c == hex_digit(d as int),
{
    if d < 10 {
        (48 + d) as char
    } else {
        (87 + d) as char
    }
}

/// Renders bytes as lowercase hexadecimal.
pub fn to_hex_lower(data: &[u8]) -> (s: String)
    ensures
        s@ == hex_lower(data@),
        s@.len() == 2 * data@.len(),
{
    let mut v: Vec<char> = Vec::new();
    let mut i: usize = 0;
    while i < data.len()
        invariant
            i <= data@.len(),
            v@ == hex_lower(data@.subrange(0, i as int)),
            v@.len() == 2 * i,
        decreases data@.len() - i,
    {
        let b = data[i];
        v.push(hex_digit_of(b / 16));
        v.push(hex_digit_of(b % 16));
        proof {
            assert(data@.subrange(0, i + 1).drop_last() =~= data@.subrange(0, i as int));
        }
        i = i + 1;
    }
    assert(data@.subrange(0, data@.len() as int) =~= data@);
    string_from_chars(&v)
}

/// The bytes a thought's hash covers: the encoding of its canonical fields
/// up to the previous hash, followed by the encoding of the previous hash.
pub open spec fn canonical_bytes(body: Seq<u8>, prev_hash: Seq<char>) -> Seq<u8> {
    body + bincode_str(prev_hash)
}

/// The hash of a thought whose canonical fields encode to `body` and whose
/// predecessor's hash is `prev_hash`.
pub open spec fn thought_hash(body: Seq<u8>, prev_hash: Seq<char>) -> Seq<char> {
    hex_lower(sha256(canonical_bytes(body, prev_hash)))
}

/// Computes [`thought_hash`].
pub fn compute_thought_hash(body: &[u8], prev_hash: &str) -> (h: String)
    ensures
        h@ == thought_hash(body@, prev_hash@),
        h@.len() == 64,
{
    let mut bytes: Vec<u8> = Vec::new();
    let mut i: usize = 0;
    while i < body.len()
        invariant
            i <= body@.len(),
            bytes@ == body@.subrange(0, i as int),
        decreases body@.len() - i,
    {
        bytes.push(body[i]);
        i = i + 1;
    }
    let tail = bincode_encode_str(prev_hash);
    let mut k: usize = 0;
    while k < tail.len()
        invariant
            k <= tail@.len(),
            bytes@ == body@ + tail@.subrange(0, k as int),
        decreases tail@.len() - k,
    {
        bytes.push(tail[k]);
        k = k + 1;
    }
    assert(tail@.subrange(0, tail@.len() as int) =~= tail@);
    let digest = sha256_digest(&bytes);
    to_hex_lower(&digest)
}


/// The hash the earlier, JSON-based algorithm gives a thought: the
/// lowercase hexadecimal SHA-256 digest of its canonical JSON encoding
/// `json`.
pub fn legacy_thought_hash(json: &[u8]) -> (h: String)
    ensures
        h@ == hex_lower(sha256(json@)),
        h@.len() == 64,
{
    let digest = sha256_digest(json);
    to_hex_lower(digest.as_slice())
}

/// Whether a stored thought still carries the hash of the earlier
/// algorithm: its hash is `legacy_hash` and not the current hash of its
/// body and previous hash.
pub fn carries_legacy_hash(hash: &str, legacy_hash: &str, body: &[u8], prev_hash: &str) -> (r: bool)
    ensures
        r == (hash@ == legacy_hash@ && hash@ != thought_hash(body@, prev_hash@)),
{
    if !crate::text::str_eq(hash, legacy_hash) {
        return false;
    }
    let current = compute_thought_hash(body, prev_hash);
    !crate::text::str_eq(hash, current.as_str())
}

} // verus!
