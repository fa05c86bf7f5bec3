//! File names of a chain and of the files kept beside it, derived from the
//! chain key: a filename-safe form of the key, a fingerprint of the key and
//! the storage kind's extension.
use vstd::prelude::*;
use vstd::string::*;
use vstd::utf8::encode_utf8;
use crate::hashing::{hex_digit, hex_lower, sha256, sha256_digest, to_hex_lower};
use crate::kinds::StorageAdapterKind;
use crate::text::{chars_of, concat_str, is_ascii_alnum, is_ascii_alnum_char, is_ascii_hex_digit, string_from_chars, to_ascii_lower_char, ascii_lower_char};

verus! {

/// File name of the registry of all chains in a directory.
pub const MENTISDB_REGISTRY_FILENAME: &'static str = "mentisdb-registry.json";

/// File name the registry had in earlier releases.
pub const LEGACY_THOUGHTCHAIN_REGISTRY_FILENAME: &'static str = "thoughtchain-registry.json";

/// Whether `char::is_alphanumeric` holds of `c`.
pub uninterp spec fn unicode_alphanumeric(c: char) -> bool;

/// Calls `char::is_alphanumeric` (Unicode `Alphabetic` or `Numeric`). The
/// result is named; of ASCII characters exactly the letters and digits
/// have these properties.
#[verifier::external_body]
fn is_alphanumeric(c: char) -> (r: bool)
    ensures
        r == unicode_alphanumeric(c),
        (c as u32) < 128 ==> (r <==> is_ascii_alnum(c)),
{
    c.is_alphanumeric()
}

/// A key character as a file name keeps it: letters, digits, `-` and `_`
/// stay, anything else becomes `_`.
pub open spec fn safe_char(c: char) -> char {
    if unicode_alphanumeric(c) || c == '-' || c == '_' {
        c
    } else {
        '_'
    }
}

/// Whether the ASCII characters of `key` are kept exactly when they are
/// letters, digits, `-` or `_`, the others becoming `_`.
pub open spec fn ascii_kept(key: Seq<char>) -> bool {
    forall|i: int| 0 <= i < key.len() && (key[i] as u32) < 128 ==> #[trigger] safe_key(key)[i] == (if is_ascii_alnum(key[i])
        || key[i] == '-' || key[i] == '_' { key[i] } else { '_' })
}

/// The filename-safe form of a chain key.
pub open spec fn safe_key(key: Seq<char>) -> Seq<char> {
    Seq::new(key.len(), |i: int| safe_char(key[i]))
}

/// The first sixteen hexadecimal digits of the SHA-256 digest of the key's
/// UTF-8 bytes.
pub open spec fn fingerprint(key: Seq<char>) -> Seq<char> {
    hex_lower(sha256(encode_utf8(key))).take(16)
}

/// The file name of a chain: safe key, `-`, fingerprint, `.`, extension.
pub open spec fn storage_filename(key: Seq<char>, kind: StorageAdapterKind) -> Seq<char> {
    safe_key(key) + "-"@ + fingerprint(key) + "."@ + kind.extension()
}

/// The file name without its extension.
pub open spec fn storage_stem(key: Seq<char>) -> Seq<char> {
    safe_key(key) + "-"@ + fingerprint(key)
}

/// The greatest position of `c` in `s`.
pub open spec fn last_index_of(s: Seq<char>, c: char) -> Option<int>
    decreases s.len(),
{
    if s.len() == 0 {
        None
    } else if s.last() == c {
        Some(s.len() - 1)
    } else {
        last_index_of(s.drop_last(), c)
    }
}

/// The chain key a storage file name carries: the part before the last `-`
/// of the name without its extension, when the extension is a storage
/// kind's and sixteen hexadecimal digits follow that `-`.
pub open spec fn key_from_filename(f: Seq<char>) -> Option<Seq<char>> {
    match last_index_of(f, '.') {
        None => None,
        Some(d) => {
            let stem = f.take(d);
            let ext = f.skip(d + 1);
            if ext != "tcbin"@ && ext != "jsonl"@ {
                None
            } else {
                match last_index_of(stem, '-') {
                    None => None,
                    Some(h) => {
                        let fp = stem.skip(h + 1);
                        if fp.len() == 16 && forall|i: int| 0 <= i < 16 ==> is_ascii_hex_digit(#[trigger] fp[i]) {
                            Some(stem.take(h))
                        } else {
                            None
                        }
                    },
                }
            }
        },
    }
}

/// The greatest position of a character lies in the sequence and holds it.
proof fn lemma_last_index_range(s: Seq<char>, c: char)
    ensures
        last_index_of(s, c) matches Some(i) ==> 0 <= i < s.len() && s[i] == c,
    decreases s.len(),
{
    if s.len() > 0 && s.last() != c {
        lemma_last_index_range(s.drop_last(), c);
    }
}

/// Where the last `c` of `a`, `c`, `b` is, when `b` holds no `c`.
proof fn lemma_last_index_of(a: Seq<char>, c: char, b: Seq<char>)
    requires
        !b.contains(c),
    ensures
        last_index_of(a + seq![c] + b, c) == Some(a.len() as int),
    decreases b.len(),
{
    let s = a + seq![c] + b;
    if b.len() == 0 {
        assert(s.last() == c);
    } else {
        assert(s.last() == b.last());
        assert(b.last() != c) by {
            assert(b.contains(b.last()));
        }
        assert(!b.drop_last().contains(c)) by {
            if b.drop_last().contains(c) {
                let k = choose|k: int| 0 <= k < b.drop_last().len() && b.drop_last()[k] == c;
                assert(b[k] == c);
            }
        }
        assert(s.drop_last() =~= a + seq![c] + b.drop_last());
        lemma_last_index_of(a, c, b.drop_last());
    }
}

/// Hexadecimal renderings are made of hexadecimal digits, two per byte.
proof fn lemma_hex_lower_digits(data: Seq<u8>)
    ensures
        hex_lower(data).len() == 2 * data.len(),
        forall|i: int| 0 <= i < hex_lower(data).len() ==> is_ascii_hex_digit(#[trigger] hex_lower(data)[i]),
    decreases data.len(),
{
    if data.len() > 0 {
        lemma_hex_lower_digits(data.drop_last());
        let hi = data.last() as int / 16;
        let lo = data.last() as int % 16;
        assert(is_ascii_hex_digit(hex_digit(hi)));
        assert(is_ascii_hex_digit(hex_digit(lo)));
        let prev = hex_lower(data.drop_last());
        let cur = hex_lower(data);
        assert forall|i: int| 0 <= i < cur.len() implies is_ascii_hex_digit(#[trigger] cur[i]) by {
            if i < prev.len() {
                assert(cur[i] == prev[i]);
            }
        }
    }
}

/// The key a storage file name carries is the filename-safe form of the
/// key it was made from, for every key and storage kind, given a digest of
/// at least eight bytes and that `.` is not alphanumeric.
proof fn lemma_filename_key_roundtrip(key: Seq<char>, kind: StorageAdapterKind)
    requires
        sha256(encode_utf8(key)).len() >= 8,
        !unicode_alphanumeric('.'),
    ensures
        key_from_filename(storage_filename(key, kind)) == Some(safe_key(key)),
{
    reveal_strlit("-");
    reveal_strlit(".");
    reveal_strlit("tcbin");
    reveal_strlit("jsonl");
    let sk = safe_key(key);
    let fp = fingerprint(key);
    lemma_hex_lower_digits(sha256(encode_utf8(key)));
    assert(fp.len() == 16);
    assert forall|i: int| 0 <= i < 16 implies is_ascii_hex_digit(#[trigger] fp[i]) by {
        assert(fp[i] == hex_lower(sha256(encode_utf8(key)))[i]);
    }
    let ext = kind.extension();
    assert(!ext.contains('.')) by {
        if ext.contains('.') {
            let k = choose|k: int| 0 <= k < ext.len() && ext[k] == '.';
        }
    }
    assert(!fp.contains('.') && !fp.contains('-')) by {
        if fp.contains('.') {
            let k = choose|k: int| 0 <= k < fp.len() && fp[k] == '.';
            assert(is_ascii_hex_digit(fp[k]));
        }
        if fp.contains('-') {
            let k = choose|k: int| 0 <= k < fp.len() && fp[k] == '-';
            assert(is_ascii_hex_digit(fp[k]));
        }
    }
    assert(!sk.contains('.')) by {
        if sk.contains('.') {
            let k = choose|k: int| 0 <= k < sk.len() && sk[k] == '.';
            assert(safe_char(key[k]) == '.');
        }
    }
    let stem = sk + seq!['-'] + fp;
    let f = storage_filename(key, kind);
    assert(f =~= stem + seq!['.'] + ext);
    assert(!(seq!['-'] + fp).contains('.')) by {
        if (seq!['-'] + fp).contains('.') {
            let k = choose|k: int| 0 <= k < (seq!['-'] + fp).len() && (seq!['-'] + fp)[k] == '.';
            if k > 0 {
                assert(fp[k - 1] == '.');
                assert(fp.contains('.'));
            }
        }
    }
    assert(!(sk + seq!['-'] + fp).contains('.')) by {
        if (sk + seq!['-'] + fp).contains('.') {
            let k = choose|k: int| 0 <= k < stem.len() && stem[k] == '.';
            if k < sk.len() {
                assert(sk[k] == '.');
                assert(sk.contains('.'));
            } else if k > sk.len() {
                assert(fp[k - sk.len() - 1] == '.');
                assert(fp.contains('.'));
            }
        }
    }
    lemma_last_index_of(stem, '.', ext);
    assert(f.take(stem.len() as int) =~= stem);
    assert(f.skip(stem.len() as int + 1) =~= ext);
    lemma_last_index_of(sk, '-', fp);
    assert(stem.skip(sk.len() as int + 1) =~= fp);
    assert(stem.take(sk.len() as int) =~= sk);
}

/// The filename-safe form of a key.
fn safe_key_of(key: &str) -> (r: Vec<char>)
    ensures
        r@ == safe_key(key@),
        ascii_kept(key@),
{
    let cs = chars_of(key);
    let mut r: Vec<char> = Vec::new();
    let mut i: usize = 0;
    while i < cs.len()
        invariant
            cs@ == key@,
            i <= cs@.len(),
            r@ == safe_key(key@).take(i as int),
            forall|j: int| 0 <= j < i && (key@[j] as u32) < 128 ==> #[trigger] safe_key(key@)[j] == (if is_ascii_alnum(key@[j])
                || key@[j] == '-' || key@[j] == '_' { key@[j] } else { '_' }),
        decreases cs@.len() - i,
    {
        let c = cs[i];
        let kept = if is_alphanumeric(c) || c == '-' || c == '_' {
            c
        } else {
            '_'
        };
        r.push(kept);
        i = i + 1;
        assert(r@ =~= safe_key(key@).take(i as int));
    }
    assert(safe_key(key@).take(cs@.len() as int) =~= safe_key(key@));
    r
}

/// The file name without extension: safe key, `-`, fingerprint.
pub fn chain_storage_stem(chain_key: &str) -> (r: String)
    ensures
        r@ == storage_stem(chain_key@),
        ascii_kept(chain_key@),
        sha256(encode_utf8(chain_key@)).len() == 32,
{
    let bytes = chain_key.as_bytes();
    let digest = sha256_digest(bytes);
    let hex = to_hex_lower(digest.as_slice());
    let hc = chars_of(hex.as_str());
    let mut fp: Vec<char> = Vec::new();
    let mut i: usize = 0;
    while i < 16
        invariant
            hc@ == hex@,
            hc@.len() == 64,
            i <= 16,
            fp@ == hc@.take(i as int),
        decreases 16 - i,
    {
        fp.push(hc[i]);
        i = i + 1;
        assert(fp@ =~= hc@.take(i as int));
    }
    let mut all = safe_key_of(chain_key);
    all.push('-');
    let mut k: usize = 0;
    let ghost head = all@;
    while k < 16
        invariant
            k <= 16,
            fp@.len() == 16,
            all@ == head + fp@.take(k as int),
        decreases 16 - k,
    {
        all.push(fp[k]);
        k = k + 1;
        assert(all@ =~= head + fp@.take(k as int));
    }
    proof {
        reveal_strlit("-");
        assert(fp@.take(16) =~= fp@);
        assert(all@ =~= storage_stem(chain_key@));
    }
    string_from_chars(&all)
}

/// The stable file name of a chain: the filename-safe key, a fingerprint of
/// the key and the storage kind's extension. The key it carries reads back
/// as the filename-safe key.
pub fn chain_storage_filename(chain_key: &str, kind: StorageAdapterKind) -> (r: String)
    ensures
        r@ == storage_filename(chain_key@, kind),
        key_from_filename(r@) == Some(safe_key(chain_key@)),
        ascii_kept(chain_key@),
        sha256(encode_utf8(chain_key@)).len() == 32,
{
    let stem = chain_storage_stem(chain_key);
    let a = concat_str(stem.as_str(), ".");
    let r = concat_str(a.as_str(), kind.file_extension());
    let dot_is_alphanumeric = is_alphanumeric('.');
    proof {
        assert(!is_ascii_alnum('.'));
        reveal_strlit(".");
        lemma_filename_key_roundtrip(chain_key@, kind);
    }
    r
}

/// The file name of a chain in the default storage kind. It depends on the
/// chain key alone, not on the agent's profile.
pub fn chain_filename(chain_key: &str, _agent_name: &str, _expertise: Option<&str>, _personality: Option<&str>) -> (r: String)
    ensures
        r@ == storage_filename(chain_key@, StorageAdapterKind::Binary),
        ascii_kept(chain_key@),
        sha256(encode_utf8(chain_key@)).len() == 32,
{
    chain_storage_filename(chain_key, StorageAdapterKind::default_kind())
}

/// A key made of ASCII letters, digits, `-` and `_` is its own
/// filename-safe form.
pub proof fn lemma_plain_key_is_safe(key: Seq<char>)
    requires
        ascii_kept(key),
        forall|i: int| 0 <= i < key.len() ==> is_ascii_alnum(#[trigger] key[i]) || key[i] == '-' || key[i] == '_',
    ensures
        safe_key(key) == key,
{
    assert forall|i: int| 0 <= i < key.len() implies safe_key(key)[i] == key[i] by {
        assert(is_ascii_alnum(key[i]) || key[i] == '-' || key[i] == '_');
        assert((key[i] as u32) < 128);
    }
    assert(safe_key(key) =~= key);
}

/// Chains whose keys differ once made filename-safe get different file names.
pub proof fn lemma_distinct_keys_distinct_files(k1: Seq<char>, k2: Seq<char>, kind: StorageAdapterKind)
    requires
        safe_key(k1) != safe_key(k2),
        sha256(encode_utf8(k1)).len() >= 8,
        sha256(encode_utf8(k2)).len() >= 8,
    ensures
        storage_filename(k1, kind) != storage_filename(k2, kind),
{
    let f1 = storage_filename(k1, kind);
    let f2 = storage_filename(k2, kind);
    reveal_strlit("-");
    reveal_strlit(".");
    if f1 == f2 {
        assert(fingerprint(k1).len() == 16 && fingerprint(k2).len() == 16) by {
            lemma_hex_lower_digits(sha256(encode_utf8(k1)));
            lemma_hex_lower_digits(sha256(encode_utf8(k2)));
        }
        assert(f1.len() == safe_key(k1).len() + 18 + kind.extension().len());
        assert(f2.len() == safe_key(k2).len() + 18 + kind.extension().len());
        assert(safe_key(k1).len() == safe_key(k2).len());
        assert(safe_key(k1) =~= safe_key(k2)) by {
            assert forall|i: int| 0 <= i < safe_key(k1).len() implies safe_key(k1)[i] == safe_key(k2)[i] by {
                assert(f1[i] == safe_key(k1)[i]);
                assert(f2[i] == safe_key(k2)[i]);
            }
        }
    }
}

/// The greatest position of `c` in `v`.
fn rfind_char(v: &[char], c: char) -> (r: Option<usize>)
    ensures
        match r {
            Some(i) => last_index_of(v@, c) == Some(i as int),
            None => last_index_of(v@, c) is None,
        },
{
    let mut i: usize = v.len();
    assert(v@.take(i as int) =~= v@);
    while i > 0
        invariant
            i <= v@.len(),
            last_index_of(v@, c) == last_index_of(v@.take(i as int), c),
        decreases i,
    {
        if v[i - 1] == c {
            assert(v@.take(i as int).last() == c);
            return Some(i - 1);
        }
        assert(v@.take(i as int).drop_last() =~= v@.take(i - 1));
        i = i - 1;
    }
    assert(v@.take(0) =~= Seq::<char>::empty());
    None
}

/// Whether every character from `start` on is an ASCII hexadecimal digit.
fn all_hex_from(v: &[char], start: usize) -> (r: bool)
    requires
        start <= v@.len(),
    ensures
        r == forall|k: int| start <= k < v@.len() ==> is_ascii_hex_digit(#[trigger] v@[k]),
{
    let mut k: usize = start;
    while k < v.len()
        invariant
            start <= k <= v@.len(),
            forall|q: int| start <= q < k ==> is_ascii_hex_digit(#[trigger] v@[q]),
        decreases v@.len() - k,
    {
        if !is_ascii_hex_char(v[k]) {
            return false;
        }
        k = k + 1;
    }
    true
}

fn is_ascii_hex_char(c: char) -> (r: bool)
    ensures
        r == is_ascii_hex_digit(c),
{
    ('0' <= c && c <= '9') || ('a' <= c && c <= 'f') || ('A' <= c && c <= 'F')
}

/// The chain key a storage file name carries, as [`key_from_filename`]
/// reads it: names with another extension, or without sixteen hexadecimal
/// digits after the last `-` of the stem, carry none.
pub fn chain_key_from_storage_filename(filename: &str) -> (r: Option<String>)
    ensures
        match r {
            Some(k) => key_from_filename(filename@) == Some(k@),
            None => key_from_filename(filename@) is None,
        },
{
    let f = chars_of(filename);
    let d = match rfind_char(&f, '.') {
        Some(d) => d,
        None => {
            return None;
        },
    };
    proof {
        lemma_last_index_range(f@, '.');
    }
    let flen = f.len();
    let mut stem: Vec<char> = Vec::new();
    let mut i: usize = 0;
    while i < d
        invariant
            d < f@.len(),
            i <= d,
            stem@ == f@.take(i as int),
        decreases d - i,
    {
        stem.push(f[i]);
        i = i + 1;
        assert(stem@ =~= f@.take(i as int));
    }
    let mut ext: Vec<char> = Vec::new();
    assert(d < flen);
    let mut j: usize = d + 1;
    while j < f.len()
        invariant
            d < f@.len(),
            d + 1 <= j <= f@.len(),
            ext@ == f@.subrange(d + 1, j as int),
        decreases f@.len() - j,
    {
        ext.push(f[j]);
        j = j + 1;
        assert(ext@ =~= f@.subrange(d + 1, j as int));
    }
    assert(ext@ =~= f@.skip(d + 1));
    let ext_s = string_from_chars(&ext);
    let known = crate::text::str_eq(ext_s.as_str(), "tcbin") || crate::text::str_eq(ext_s.as_str(), "jsonl");
    if !known {
        return None;
    }
    let h = match rfind_char(&stem, '-') {
        Some(h) => h,
        None => {
            return None;
        },
    };
    proof {
        lemma_last_index_range(stem@, '-');
    }
    let fl = stem.len() - (h + 1);
    if fl != 16 {
        assert(stem@.skip(h + 1).len() == fl);
        return None;
    }
    if !all_hex_from(&stem, h + 1) {
        proof {
            let k = choose|k: int| h + 1 <= k < stem@.len() && !is_ascii_hex_digit(#[trigger] stem@[k]);
            assert(stem@.skip(h + 1)[k - (h + 1)] == stem@[k]);
        }
        return None;
    }
    assert forall|q: int| 0 <= q < 16 implies is_ascii_hex_digit(#[trigger] stem@.skip(h + 1)[q]) by {
        assert(stem@.skip(h + 1)[q] == stem@[h + 1 + q]);
    }
    let mut key: Vec<char> = Vec::new();
    let mut m: usize = 0;
    while m < h
        invariant
            h < stem@.len(),
            m <= h,
            key@ == stem@.take(m as int),
        decreases h - m,
    {
        key.push(stem[m]);
        m = m + 1;
        assert(key@ =~= stem@.take(m as int));
    }
    Some(string_from_chars(&key))
}

/// File name of a chain's agent registry.
pub fn chain_agent_registry_file(chain_key: &str) -> (r: String)
    ensures
        r@ == storage_stem(chain_key@) + ".agents.json"@,
{
    let stem = chain_storage_stem(chain_key);
    concat_str(stem.as_str(), ".agents.json")
}

/// File name of a chain's entity type registry.
pub fn chain_entity_type_registry_file(chain_key: &str) -> (r: String)
    ensures
        r@ == storage_stem(chain_key@) + ".entity-types.json"@,
{
    let stem = chain_storage_stem(chain_key);
    concat_str(stem.as_str(), ".entity-types.json")
}

/// File name of a chain's managed vector sidecar configuration.
pub fn chain_vector_sidecar_config_file(chain_key: &str) -> (r: String)
    ensures
        r@ == storage_stem(chain_key@) + ".vectors.managed.json"@,
{
    let stem = chain_storage_stem(chain_key);
    concat_str(stem.as_str(), ".vectors.managed.json")
}

/// File name of a chain's derived edge overlay.
pub fn chain_auto_edges_file(chain_key: &str) -> (r: String)
    ensures
        r@ == storage_stem(chain_key@) + ".auto_edges.bin"@,
{
    let stem = chain_storage_stem(chain_key);
    concat_str(stem.as_str(), ".auto_edges.bin")
}

/// The characters of a sidecar name component before trimming: ASCII
/// letters and digits lower-cased, everything else `-`.
pub open spec fn dashed(value: Seq<char>) -> Seq<char> {
    Seq::new(value.len(), |i: int| if is_ascii_alnum(value[i]) { ascii_lower_char(value[i]) } else { '-' })
}

/// The first position that does not hold `-`.
pub open spec fn first_kept(m: Seq<char>) -> int {
    choose|a: int| 0 <= a < m.len() && #[trigger] m[a] != '-' && forall|i: int| 0 <= i < a ==> m[i] == '-'
}

/// The last position that does not hold `-`.
pub open spec fn last_kept(m: Seq<char>) -> int {
    choose|b: int| 0 <= b < m.len() && #[trigger] m[b] != '-' && forall|i: int| b < i < m.len() ==> m[i] == '-'
}

/// A component of a sidecar file name: the dashed value without leading or
/// trailing `-`, or `default` when nothing else is left.
pub open spec fn sanitized(value: Seq<char>) -> Seq<char> {
    let m = dashed(value);
    if forall|i: int| 0 <= i < m.len() ==> m[i] == '-' {
        "default"@
    } else {
        m.subrange(first_kept(m), last_kept(m) + 1)
    }
}

/// A value made safe for a sidecar file name component.
pub fn sanitize_sidecar_component(value: &str) -> (r: String)
    ensures
        r@ == sanitized(value@),
{
    let cs = chars_of(value);
    let mut m: Vec<char> = Vec::new();
    let mut i: usize = 0;
    while i < cs.len()
        invariant
            cs@ == value@,
            i <= cs@.len(),
            m@ == dashed(value@).take(i as int),
        decreases cs@.len() - i,
    {
        let c = cs[i];
        let o = if is_ascii_alnum_char(c) {
            to_ascii_lower_char(c)
        } else {
            '-'
        };
        m.push(o);
        i = i + 1;
        assert(m@ =~= dashed(value@).take(i as int));
    }
    assert(m@ =~= dashed(value@));
    let n = m.len();
    let mut a: usize = 0;
    while a < n && m[a] == '-'
        invariant
            n == m@.len(),
            a <= n,
            forall|q: int| 0 <= q < a ==> m@[q] == '-',
        decreases n - a,
    {
        a = a + 1;
    }
    if a == n {
        return String::from_str("default");
    }
    let mut b: usize = n;
    while b > a && m[b - 1] == '-'
        invariant
            n == m@.len(),
            a < n,
            m@[a as int] != '-',
            a < b <= n,
            forall|q: int| b <= q < n ==> m@[q] == '-',
        decreases b,
    {
        b = b - 1;
    }
    proof {
        let mm = m@;
        assert(!(forall|q: int| 0 <= q < mm.len() ==> mm[q] == '-')) by {
            assert(mm[a as int] != '-');
        }
        assert(0 <= a < mm.len() && mm[a as int] != '-' && forall|q: int| 0 <= q < a ==> mm[q] == '-');
        let fa = first_kept(mm);
        assert(fa == a) by {
            if fa < a {
                assert(mm[fa] == '-');
            } else if fa > a {
                assert(mm[a as int] == '-');
            }
        }
        assert(mm[b - 1] != '-');
        assert(0 <= b - 1 < mm.len() && mm[b - 1] != '-' && forall|q: int| b - 1 < q < mm.len() ==> mm[q] == '-');
        let lb = last_kept(mm);
        assert(lb == b - 1) by {
            if lb < b - 1 {
                assert(mm[b - 1] == '-');
            } else if lb > b - 1 {
                assert(mm[lb] == '-');
            }
        }
    }
    let mut t: Vec<char> = Vec::new();
    let mut k: usize = a;
    while k < b
        invariant
            a <= k <= b <= m@.len(),
            t@ == m@.subrange(a as int, k as int),
        decreases b - k,
    {
        t.push(m[k]);
        k = k + 1;
        assert(t@ =~= m@.subrange(a as int, k as int));
    }
    string_from_chars(&t)
}

/// File name of a chain's vector sidecar for an embedding space.
pub fn chain_vector_sidecar_file(chain_key: &str, model_id: &str, embedding_version: &str, dimension: u64) -> (r: String)
    ensures
        r@ == storage_stem(chain_key@) + ".vectors."@ + sanitized(model_id@) + "."@ + sanitized(embedding_version@) + "."@
            + crate::text::decimal(dimension as nat) + "d.json"@,
{
    let stem = chain_storage_stem(chain_key);
    let model = sanitize_sidecar_component(model_id);
    let version = sanitize_sidecar_component(embedding_version);
    let dim = crate::text::u64_to_decimal(dimension);
    let s1 = concat_str(stem.as_str(), ".vectors.");
    let s2 = concat_str(s1.as_str(), model.as_str());
    let s3 = concat_str(s2.as_str(), ".");
    let s4 = concat_str(s3.as_str(), version.as_str());
    let s5 = concat_str(s4.as_str(), ".");
    let s6 = concat_str(s5.as_str(), dim.as_str());
    concat_str(s6.as_str(), "d.json")
}

/// File name of a chain's vector graph for an embedding space.
pub fn chain_vector_hnsw_graph_file(chain_key: &str, model_id: &str, embedding_version: &str, dimension: u64) -> (r: String)
    ensures
        r@ == storage_stem(chain_key@) + ".vectors."@ + sanitized(model_id@) + "."@ + sanitized(embedding_version@) + "."@
            + crate::text::decimal(dimension as nat) + "d.hnsw.bin"@,
{
    let stem = chain_storage_stem(chain_key);
    let model = sanitize_sidecar_component(model_id);
    let version = sanitize_sidecar_component(embedding_version);
    let dim = crate::text::u64_to_decimal(dimension);
    let s1 = concat_str(stem.as_str(), ".vectors.");
    let s2 = concat_str(s1.as_str(), model.as_str());
    let s3 = concat_str(s2.as_str(), ".");
    let s4 = concat_str(s3.as_str(), version.as_str());
    let s5 = concat_str(s4.as_str(), ".");
    let s6 = concat_str(s5.as_str(), dim.as_str());
    concat_str(s6.as_str(), "d.hnsw.bin")
}

} // verus!
