//! The binary chain file: a sequence of records, each an eight-byte
//! little-endian length followed by that many payload bytes.
use vstd::prelude::*;
use crate::model::ChainError;
use crate::text::{concat_str, decimal, u64_to_decimal};

verus! {

/// Largest payload a record may declare (ten mebibytes).
pub const MAX_THOUGHT_PAYLOAD_BYTES: u64 = 10485760;

/// 256 to the power `k`.
pub open spec fn pow256(k: nat) -> nat
    decreases k,
{
    if k == 0 {
        1
    } else {
        256 * pow256((k - 1) as nat)
    }
}

/// The number whose little-endian bytes are `s`.
pub open spec fn le_value(s: Seq<u8>) -> nat
    decreases s.len(),
{
    if s.len() == 0 {
        0
    } else {
        s[0] as nat + 256 * le_value(s.drop_first())
    }
}

/// The `k` low-order little-endian bytes of `n`.
pub open spec fn le_bytes(n: nat, k: nat) -> Seq<u8>
    decreases k,
{
    if k == 0 {
        Seq::empty()
    } else {
        seq![(n % 256) as u8] + le_bytes(n / 256, (k - 1) as nat)
    }
}

proof fn lemma_le_value_bound(s: Seq<u8>)
    ensures
        le_value(s) < pow256(s.len()),
    decreases s.len(),
{
    if s.len() > 0 {
        lemma_le_value_bound(s.drop_first());
        let r = le_value(s.drop_first());
        let p = pow256(s.drop_first().len());
        assert(s[0] as nat + 256 * r < 256 * p) by (nonlinear_arith)
            requires
                r < p,
                s[0] < 256,
        ;
    }
}

proof fn lemma_pow256_8()
    ensures
        pow256(8) == 0x1_0000_0000_0000_0000,
{
    reveal_with_fuel(pow256, 9);
}

/// Reading back the little-endian bytes of a number gives the number.
pub proof fn lemma_le_roundtrip(n: nat, k: nat)
    requires
        n < pow256(k),
    ensures
        le_bytes(n, k).len() == k,
        le_value(le_bytes(n, k)) == n,
    decreases k,
{
    if k > 0 {
        let q = n / 256;
        assert(q < pow256((k - 1) as nat)) by (nonlinear_arith)
            requires
                n < 256 * pow256((k - 1) as nat),
                q == n / 256,
        ;
        lemma_le_roundtrip(q, (k - 1) as nat);
        let b = le_bytes(n, k);
        assert(b.drop_first() =~= le_bytes(q, (k - 1) as nat));
        assert(n == n % 256 + 256 * q) by (nonlinear_arith)
            requires
                q == n / 256,
        ;
    }
}

/// Decodes eight little-endian bytes starting at `at`.
pub fn read_le_u64(data: &[u8], at: usize) -> (v: u64)
    requires
        at + 8 <= data@.len(),
    ensures
        v == le_value(data@.subrange(at as int, at + 8)),
{
    let ghost s = data@.subrange(at as int, at + 8);
    let len = data.len();
    let mut v: u64 = 0;
    let mut k: usize = 8;
    proof {
        assert(s.subrange(8, 8) =~= Seq::<u8>::empty());
    }
    while k > 0
        invariant
            at + 8 <= data@.len(),
            len == data@.len(),
            s == data@.subrange(at as int, at + 8),
            k <= 8,
            v == le_value(s.subrange(k as int, 8)),
        decreases k,
    {
        k = k - 1;
        let ghost tail = s.subrange(k as int, 8);
        proof {
            assert(tail.drop_first() =~= s.subrange(k + 1, 8));
            lemma_le_value_bound(tail);
            lemma_pow256_8();
            assert(pow256(tail.len()) <= pow256(8)) by {
                lemma_pow256_monotone(tail.len(), 8);
            }
        }
        let b = data[at + k];
        assert(b == tail[0]);
        v = b as u64 + 256 * v;
    }
    assert(s.subrange(0, 8) =~= s);
    v
}

proof fn lemma_pow256_monotone(a: nat, b: nat)
    requires
        a <= b,
    ensures
        pow256(a) <= pow256(b),
    decreases b,
{
    if a < b {
        lemma_pow256_monotone(a, (b - 1) as nat);
    }
}

/// The eight little-endian bytes of `n`.
pub fn write_le_u64(n: u64) -> (b: Vec<u8>)
    ensures
        b@ == le_bytes(n as nat, 8),
{
    let mut b: Vec<u8> = Vec::new();
    let mut m: u64 = n;
    let mut k: usize = 0;
    while k < 8
        invariant
            k <= 8,
            b@ + le_bytes(m as nat, (8 - k) as nat) == le_bytes(n as nat, 8),
        decreases 8 - k,
    {
        proof {
            let rest = le_bytes(m as nat, (8 - k) as nat);
            assert(rest == seq![(m % 256) as u8] + le_bytes((m / 256) as nat, (8 - k - 1) as nat));
            assert(b@.push((m % 256) as u8) + le_bytes((m / 256) as nat, (8 - k - 1) as nat) =~= b@ + rest);
        }
        b.push((m % 256) as u8);
        m = m / 256;
        k = k + 1;
    }
    assert(le_bytes(m as nat, 0) =~= Seq::<u8>::empty());
    assert(b@ + Seq::<u8>::empty() =~= b@);
    b
}

/// One record: the payload's length as eight little-endian bytes, then the payload.
pub open spec fn frame(payload: Seq<u8>) -> Seq<u8> {
    le_bytes(payload.len(), 8) + payload
}

/// The records of `payloads`, one after the other.
pub open spec fn frames(payloads: Seq<Seq<u8>>) -> Seq<u8>
    decreases payloads.len(),
{
    if payloads.len() == 0 {
        Seq::empty()
    } else {
        frame(payloads[0]) + frames(payloads.drop_first())
    }
}

/// Why a byte sequence is not a sequence of records.
pub enum FrameFault {
    /// A record declares a payload longer than the maximum.
    TooLarge(nat),
    /// A record's payload runs past the end of the data.
    Truncated,
}

/// The payloads that sequential reading finds in `d`. Fewer than eight
/// remaining bytes end the sequence, as an end of file does.
pub open spec fn split_frames(d: Seq<u8>) -> Result<Seq<Seq<u8>>, FrameFault>
    decreases d.len(),
{
    if d.len() < 8 {
        Ok(Seq::empty())
    } else {
        let n = le_value(d.subrange(0, 8));
        if n > MAX_THOUGHT_PAYLOAD_BYTES {
            Err(FrameFault::TooLarge(n))
        } else if d.len() - 8 < n {
            Err(FrameFault::Truncated)
        } else {
            match split_frames(d.subrange(8 + n as int, d.len() as int)) {
                Ok(rest) => Ok(seq![d.subrange(8, 8 + n as int)] + rest),
                Err(e) => Err(e),
            }
        }
    }
}

/// Frames a payload as one record.
pub fn encode_record(payload: &[u8]) -> (r: Vec<u8>)
    ensures
        r@ == frame(payload@),
{
    let mut r = write_le_u64(payload.len() as u64);
    let mut i: usize = 0;
    let ghost head = r@;
    while i < payload.len()
        invariant
            i <= payload@.len(),
            r@ == head + payload@.subrange(0, i as int),
        decreases payload@.len() - i,
    {
        r.push(payload[i]);
        i = i + 1;
    }
    assert(payload@.subrange(0, payload@.len() as int) =~= payload@);
    r
}

/// The refusal message for an oversized record.
pub open spec fn too_large_message(n: nat) -> Seq<char> {
    "binary thought payload length "@ + decimal(n) + " exceeds maximum "@ + decimal(MAX_THOUGHT_PAYLOAD_BYTES as nat)
}

fn too_large_error(n: u64) -> (e: ChainError)
    ensures
        e == ChainError::InvalidData(e->InvalidData_0) && e->InvalidData_0@ == too_large_message(n as nat),
{
    let a = u64_to_decimal(n);
    let b = u64_to_decimal(MAX_THOUGHT_PAYLOAD_BYTES);
    let m1 = concat_str("binary thought payload length ", a.as_str());
    let m2 = concat_str(m1.as_str(), " exceeds maximum ");
    ChainError::InvalidData(concat_str(m2.as_str(), b.as_str()))
}

/// Whether a library error reports a frame fault.
pub open spec fn reports(e: ChainError, f: FrameFault) -> bool {
    match f {
        FrameFault::TooLarge(n) => e matches ChainError::InvalidData(m) && m@ == too_large_message(n),
        FrameFault::Truncated => e is UnexpectedEof,
    }
}

/// Reads the record that starts at `at`: `None` when fewer than eight bytes
/// remain, otherwise its payload and the position after it.
pub fn read_next_binary_payload(data: &[u8], at: usize) -> (r: Result<Option<(Vec<u8>, usize)>, ChainError>)
    requires
        at <= data@.len(),
    ensures
        ({
            let d = data@.subrange(at as int, data@.len() as int);
            if d.len() < 8 {
                r == Ok::<Option<(Vec<u8>, usize)>, ChainError>(None)
            } else {
                let n = le_value(d.subrange(0, 8));
                if n > MAX_THOUGHT_PAYLOAD_BYTES {
                    r matches Err(e) && reports(e, FrameFault::TooLarge(n))
                } else if d.len() - 8 < n {
                    r matches Err(e) && reports(e, FrameFault::Truncated)
                } else {
                    r matches Ok(Some((p, next))) && p@ == d.subrange(8, 8 + n as int) && next == at + 8 + n
                }
            }
        }),
{
    let ghost d = data@.subrange(at as int, data@.len() as int);
    if data.len() - at < 8 {
        return Ok(None);
    }
    let n = read_le_u64(data, at);
    assert(d.subrange(0, 8) =~= data@.subrange(at as int, at + 8));
    if n > MAX_THOUGHT_PAYLOAD_BYTES {
        return Err(too_large_error(n));
    }
    if ((data.len() - at - 8) as u64) < n {
        return Err(ChainError::UnexpectedEof(String::from_str("failed to fill whole buffer")));
    }
    let start = at + 8;
    let end = start + n as usize;
    let mut p: Vec<u8> = Vec::new();
    let mut i: usize = start;
    while i < end
        invariant
            start <= i <= end,
            end <= data@.len(),
            p@ == data@.subrange(start as int, i as int),
        decreases end - i,
    {
        p.push(data[i]);
        i = i + 1;
    }
    assert(p@ =~= d.subrange(8, 8 + n as int));
    Ok(Some((p, end)))
}

/// The payloads of all records, read in order from the start of the data.
pub fn split_binary_records(data: &[u8]) -> (r: Result<Vec<Vec<u8>>, ChainError>)
    ensures
        match split_frames(data@) {
            Ok(ps) => r matches Ok(v) && v@.len() == ps.len() && forall|i: int| 0 <= i < ps.len() ==> (#[trigger] v@[i])@ == ps[i],
            Err(f) => r matches Err(e) && reports(e, f),
        },
{
    let mut out: Vec<Vec<u8>> = Vec::new();
    let mut at: usize = 0;
    assert(data@.subrange(0, data@.len() as int) =~= data@);
    loop
        invariant
            at <= data@.len(),
            match split_frames(data@) {
                Ok(ps) => split_frames(data@.subrange(at as int, data@.len() as int)) matches Ok(rest) && ps.len() == out@.len() + rest.len() && (forall|i: int| 0 <= i < out@.len() ==> (#[trigger] out@[i])@ == ps[i]) && (forall|i: int| 0 <= i < rest.len() ==> ps[out@.len() + i] == #[trigger] rest[i]),
                Err(f) => split_frames(data@.subrange(at as int, data@.len() as int)) == Err::<Seq<Seq<u8>>, FrameFault>(f),
            },
        decreases data@.len() - at,
    {
        let ghost d = data@.subrange(at as int, data@.len() as int);
        match read_next_binary_payload(data, at) {
            Ok(Some((p, next))) => {
                proof {
                    let n = le_value(d.subrange(0, 8));
                    assert(data@.subrange(next as int, data@.len() as int) =~= d.subrange(8 + n as int, d.len() as int));
                }
                let ghost o = out@;
                out.push(p);
                proof {
                    if let Ok(ps) = split_frames(data@) {
                        let rest = split_frames(d)->Ok_0;
                        let rest2 = split_frames(data@.subrange(next as int, data@.len() as int))->Ok_0;
                        assert(rest =~= seq![p@] + rest2);
                        assert forall|i: int| 0 <= i < out@.len() implies (#[trigger] out@[i])@ == ps[i] by {
                            if i < o.len() {
                                assert(out@[i] == o[i]);
                            } else {
                                assert(rest[0] == p@);
                            }
                        }
                        assert forall|i: int| 0 <= i < rest2.len() implies ps[out@.len() + i] == #[trigger] rest2[i] by {
                            assert(rest[i + 1] == rest2[i]);
                        }
                    }
                }
                at = next;
            },
            Ok(None) => {
                proof {
                    if let Ok(ps) = split_frames(data@) {
                        assert(forall|i: int| 0 <= i < ps.len() ==> (#[trigger] out@[i])@ == ps[i]);
                    }
                }
                return Ok(out);
            },
            Err(e) => {
                return Err(e);
            },
        }
    }
}

/// Reading back a sequence of records gives their payloads, as long as no
/// payload exceeds the maximum.
pub proof fn lemma_split_frames_roundtrip(payloads: Seq<Seq<u8>>)
    requires
        forall|i: int| 0 <= i < payloads.len() ==> (#[trigger] payloads[i]).len() <= MAX_THOUGHT_PAYLOAD_BYTES,
    ensures
        split_frames(frames(payloads)) == Ok::<Seq<Seq<u8>>, FrameFault>(payloads),
    decreases payloads.len(),
{
    if payloads.len() == 0 {
        assert(frames(payloads) =~= Seq::<u8>::empty());
        assert(payloads =~= Seq::<Seq<u8>>::empty());
    } else {
        let p = payloads[0];
        let rest = payloads.drop_first();
        assert forall|i: int| 0 <= i < rest.len() implies (#[trigger] rest[i]).len() <= MAX_THOUGHT_PAYLOAD_BYTES by {
            assert(rest[i] == payloads[i + 1]);
        }
        lemma_split_frames_roundtrip(rest);
        let d = frames(payloads);
        lemma_pow256_8();
        assert(p.len() < pow256(8));
        lemma_le_roundtrip(p.len(), 8);
        assert(d == frame(p) + frames(rest));
        assert(d.len() == 8 + p.len() + frames(rest).len());
        assert(d.subrange(0, 8) =~= le_bytes(p.len(), 8));
        assert(le_value(d.subrange(0, 8)) == p.len());
        assert(d.subrange(8, 8 + p.len() as int) =~= p);
        assert(d.subrange(8 + p.len() as int, d.len() as int) =~= frames(rest));
        assert(seq![p] + rest =~= payloads);
        assert(split_frames(d) == Ok::<Seq<Seq<u8>>, FrameFault>(seq![p] + rest));
    }
}

/// How a record's payload is laid out, by its schema version.
#[derive(Debug, Clone, Copy, PartialEq, Eq, Structural)]
pub enum StoredLayout {
    /// The current layout.
    Current,
    /// The layout of schema versions zero and one.
    LegacyV0,
    /// The layout of schema version two.
    LegacyV1,
}

/// The refusal message for a schema version newer than this library.
pub open spec fn unknown_version_message(v: nat) -> Seq<char> {
    "Unknown schema version "@ + decimal(v) + "; this version of mentisdb supports up to schema "@
        + decimal(crate::kinds::MENTISDB_CURRENT_VERSION as nat) + ". Please upgrade mentisdb to open this chain."@
}

/// Chooses the payload layout for a schema version: the current one from
/// the current version on, the oldest layout for versions zero and one, the
/// intermediate one for version two.
pub fn layout_for_schema(version: u32) -> (r: Result<StoredLayout, ChainError>)
    ensures
        version >= crate::kinds::MENTISDB_CURRENT_VERSION ==> r == Ok::<StoredLayout, ChainError>(StoredLayout::Current),
        version <= 1 ==> r == Ok::<StoredLayout, ChainError>(StoredLayout::LegacyV0),
        version == 2 ==> r == Ok::<StoredLayout, ChainError>(StoredLayout::LegacyV1),
{
    if version >= crate::kinds::MENTISDB_CURRENT_VERSION {
        Ok(StoredLayout::Current)
    } else if version <= 1 {
        Ok(StoredLayout::LegacyV0)
    } else if version == 2 {
        Ok(StoredLayout::LegacyV1)
    } else {
        let v = u64_to_decimal(version as u64);
        let c = u64_to_decimal(crate::kinds::MENTISDB_CURRENT_VERSION as u64);
        let m1 = concat_str("Unknown schema version ", v.as_str());
        let m2 = concat_str(m1.as_str(), "; this version of mentisdb supports up to schema ");
        let m3 = concat_str(m2.as_str(), c.as_str());
        Err(ChainError::InvalidData(concat_str(m3.as_str(), ". Please upgrade mentisdb to open this chain.")))
    }
}

/// What `bincode::decode_from_slice::<u32, _>` with the standard
/// configuration makes of a payload: the leading variable-length integer,
/// or the text of its error.
pub uninterp spec fn bincode_leading_u32(payload: Seq<u8>) -> Result<u32, Seq<char>>;

/// Calls `bincode::decode_from_slice::<u32, _>` with the standard
/// configuration and keeps the value, or the error's text. The result is
/// named; bincode's source reads a first byte up to 250 as the value itself
/// and refuses an empty payload.
#[verifier::external_body]
fn decode_leading_u32(payload: &[u8]) -> (r: Result<u32, String>)
    ensures
        r matches Ok(v) ==> (bincode_leading_u32(payload@) matches Ok(w) && w == v),
        r matches Err(m) ==> (bincode_leading_u32(payload@) matches Err(t) && t == m@),
        payload@.len() == 0 ==> r is Err,
        r is Ok || payload@.len() == 0 || payload@[0] > 250,
        r matches Ok(v) ==> (v == payload@[0] || payload@[0] > 250),
{
    match bincode::decode_from_slice::<u32, _>(payload, bincode::config::standard()) {
        Ok((v, _)) => Ok(v),
        Err(e) => Err(e.to_string()),
    }
}

/// How many records sequential reading finds: after each header the reader
/// skips the declared payload, so a last record cut short still counts.
pub open spec fn count_frames(d: Seq<u8>) -> Result<nat, nat>
    decreases d.len(),
{
    if d.len() < 8 {
        Ok(0)
    } else {
        let n = le_value(d.subrange(0, 8));
        if n > MAX_THOUGHT_PAYLOAD_BYTES {
            Err(n)
        } else {
            let rest = if d.len() - 8 <= n {
                Seq::<u8>::empty()
            } else {
                d.subrange(8 + n as int, d.len() as int)
            };
            match count_frames(rest) {
                Ok(c) => Ok(c + 1),
                Err(e) => Err(e),
            }
        }
    }
}

/// Counts the records of a binary chain without decoding them; a record
/// that declares a payload over the maximum is refused.
pub fn count_binary_records(data: &[u8]) -> (r: Result<u64, ChainError>)
    ensures
        match count_frames(data@) {
            Ok(c) => r == Ok::<u64, ChainError>(c as u64),
            Err(n) => r matches Err(e) && reports(e, FrameFault::TooLarge(n)),
        },
{
    let len = data.len();
    let mut at: usize = 0;
    let mut count: u64 = 0;
    proof {
        assert(data@.subrange(0, len as int) =~= data@);
    }
    while len - at >= 8
        invariant
            len == data@.len(),
            at <= len,
            count <= at / 8,
            match count_frames(data@) {
                Ok(c) => count_frames(data@.subrange(at as int, len as int)) matches Ok(c2) && c == count + c2,
                Err(n) => count_frames(data@.subrange(at as int, len as int)) == Err::<nat, nat>(n),
            },
        decreases len - at,
    {
        let ghost d = data@.subrange(at as int, len as int);
        let n = read_le_u64(data, at);
        assert(d.subrange(0, 8) =~= data@.subrange(at as int, at + 8));
        if n > MAX_THOUGHT_PAYLOAD_BYTES {
            return Err(too_large_error(n));
        }
        let rem = len - at - 8;
        if (rem as u64) <= n {
            proof {
                assert(count_frames(Seq::<u8>::empty()) == Ok::<nat, nat>(0));
            }
            return Ok(count + 1);
        }
        proof {
            assert(data@.subrange(at + 8 + n, len as int) =~= d.subrange(8 + n as int, d.len() as int));
        }
        at = at + 8 + n as usize;
        count = count + 1;
    }
    proof {
        let d = data@.subrange(at as int, len as int);
        assert(d.len() < 8);
    }
    Ok(count)
}

/// The message of a payload whose schema version cannot be decoded.
pub open spec fn undecodable_version_message(first: bool, detail: Seq<char>) -> Seq<char> {
    if first {
        "Failed to decode schema version from first thought: "@ + detail
    } else {
        "Failed to decode schema version from thought: "@ + detail
    }
}

/// The schema version a record's payload starts with.
pub fn payload_schema_version(payload: &[u8], first: bool) -> (r: Result<u32, ChainError>)
    ensures
        match bincode_leading_u32(payload@) {
            Ok(v) => r == Ok::<u32, ChainError>(v),
            Err(m) => r matches Err(ChainError::InvalidData(t)) && t@ == undecodable_version_message(first, m),
        },
        payload@.len() == 0 ==> r matches Err(ChainError::InvalidData(_)),
        payload@.len() > 0 && payload@[0] <= 250 ==> r == Ok::<u32, ChainError>(payload@[0] as u32),
{
    match decode_leading_u32(payload) {
        Ok(v) => Ok(v),
        Err(m) => {
            let prefix = if first {
                "Failed to decode schema version from first thought: "
            } else {
                "Failed to decode schema version from thought: "
            };
            Err(ChainError::InvalidData(concat_str(prefix, m.as_str())))
        },
    }
}

/// The schema version of the first record of a binary chain, read without
/// decoding the rest: zero when the data holds no complete header; the
/// first record's faults are reported as sequential reading reports them.
pub fn peek_first_schema_version(data: &[u8]) -> (r: Result<u32, ChainError>)
    ensures
        data@.len() < 8 ==> r == Ok::<u32, ChainError>(0),
        data@.len() >= 8 ==> {
            let n = le_value(data@.subrange(0, 8));
            if n > MAX_THOUGHT_PAYLOAD_BYTES {
                r matches Err(e) && reports(e, FrameFault::TooLarge(n))
            } else if data@.len() - 8 < n {
                r matches Err(e) && reports(e, FrameFault::Truncated)
            } else {
                match bincode_leading_u32(data@.subrange(8, 8 + n as int)) {
                    Ok(v) => r == Ok::<u32, ChainError>(v),
                    Err(m) => r matches Err(ChainError::InvalidData(t)) && t@ == undecodable_version_message(true, m),
                }
            }
        },
{
    assert(data@.subrange(0, data@.len() as int) =~= data@);
    match read_next_binary_payload(data, 0) {
        Ok(None) => Ok(0),
        Ok(Some((p, _))) => payload_schema_version(p.as_slice(), true),
        Err(e) => Err(e),
    }
}

/// How the payload of a record is laid out, from the schema version it
/// starts with; versions newer than this library are refused.
pub fn binary_payload_layout(payload: &[u8]) -> (r: Result<StoredLayout, ChainError>)
    ensures
        match bincode_leading_u32(payload@) {
            Ok(v) => {
                &&& v >= crate::kinds::MENTISDB_CURRENT_VERSION ==> r == Ok::<StoredLayout, ChainError>(StoredLayout::Current)
                &&& v <= 1 ==> r == Ok::<StoredLayout, ChainError>(StoredLayout::LegacyV0)
                &&& v == 2 ==> r == Ok::<StoredLayout, ChainError>(StoredLayout::LegacyV1)
            },
            Err(m) => r matches Err(ChainError::InvalidData(t)) && t@ == undecodable_version_message(false, m),
        },
        payload@.len() == 0 ==> r matches Err(ChainError::InvalidData(_)),
        payload@.len() > 0 && payload@[0] <= 250 ==> {
            let v = payload@[0];
            &&& v >= crate::kinds::MENTISDB_CURRENT_VERSION ==> r == Ok::<StoredLayout, ChainError>(StoredLayout::Current)
            &&& v <= 1 ==> r == Ok::<StoredLayout, ChainError>(StoredLayout::LegacyV0)
            &&& v == 2 ==> r == Ok::<StoredLayout, ChainError>(StoredLayout::LegacyV1)
        },
{
    let v = payload_schema_version(payload, false)?;
    layout_for_schema(v)
}

} // verus!
