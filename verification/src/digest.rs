//! Content-addressed cache keys and deterministic entry identifiers.
//!
//! A thumbnail's cache key is the SHA-256 digest, in lowercase hex, of the
//! source file's identity and state: inode number, size and modification
//! time, each as eight little-endian bytes. The digest input is injective
//! in the identity, so any change to one of the three fields changes the
//! digested bytes. Entry identifiers are name-based UUIDs of the absolute
//! path, stable across repeated scans.

use vstd::prelude::*;

verus! {

/// What identifies a source file and its current state: a changed file
/// gets a new key, an unchanged one keeps its key.
#[derive(Clone, Copy)]
pub struct FileIdentity {
    /// Inode number of the file.
    pub ino: u64,
    /// Size of the file in bytes.
    pub size: u64,
    /// Modification time, as an unsigned 64-bit value (the OS timestamp
    /// reinterpreted two's-complement).
    pub mtime: u64,
}

/// The eight little-endian bytes of a 64-bit value.
pub open spec fn u64_le_bytes(x: int) -> Seq<u8> {
    seq![
        (x % 256) as u8,
        ((x / 256) % 256) as u8,
        ((x / 65536) % 256) as u8,
        ((x / 16777216) % 256) as u8,
        ((x / 4294967296) % 256) as u8,
        ((x / 1099511627776) % 256) as u8,
        ((x / 281474976710656) % 256) as u8,
        ((x / 72057594037927936) % 256) as u8,
    ]
}

/// The 24 bytes digested for a file's cache key.
pub open spec fn spec_key_bytes(id: FileIdentity) -> Seq<u8> {
    u64_le_bytes(id.ino as int) + u64_le_bytes(id.size as int) + u64_le_bytes(id.mtime as int)
}

proof fn lemma_u64_le_bytes_inverts(x: u64)
    ensures
        x as int == u64_le_bytes(x as int)[0] + 256 * (u64_le_bytes(x as int)[1] + 256 * (
        u64_le_bytes(x as int)[2] + 256 * (u64_le_bytes(x as int)[3] + 256 * (u64_le_bytes(
            x as int,
        )[4] + 256 * (u64_le_bytes(x as int)[5] + 256 * (u64_le_bytes(x as int)[6] + 256
            * u64_le_bytes(x as int)[7])))))),
{
    let n = x as int;
    assert(n / 256 / 256 == n / 65536) by (nonlinear_arith)
        requires
            n >= 0,
    ;
    assert(n / 65536 / 256 == n / 16777216) by (nonlinear_arith)
        requires
            n >= 0,
    ;
    assert(n / 16777216 / 256 == n / 4294967296) by (nonlinear_arith)
        requires
            n >= 0,
    ;
    assert(n / 4294967296 / 256 == n / 1099511627776) by (nonlinear_arith)
        requires
            n >= 0,
    ;
    assert(n / 1099511627776 / 256 == n / 281474976710656) by (nonlinear_arith)
        requires
            n >= 0,
    ;
    assert(n / 281474976710656 / 256 == n / 72057594037927936) by (nonlinear_arith)
        requires
            n >= 0,
    ;
    assert(n / 72057594037927936 < 256) by (nonlinear_arith)
        requires
            0 <= n < 18446744073709551616,
    ;
}

/// The little-endian encoding of a 64-bit value determines the value.
pub proof fn lemma_u64_le_bytes_injective(a: u64, b: u64)
    requires
        u64_le_bytes(a as int) == u64_le_bytes(b as int),
    ensures
        a == b,
{
    lemma_u64_le_bytes_inverts(a);
    lemma_u64_le_bytes_inverts(b);
    assert(forall|i: int| 0 <= i < 8 ==> u64_le_bytes(a as int)[i] == u64_le_bytes(b as int)[i]);
}

/// Law: the digested key bytes are injective in the file identity — in
/// particular, changing only the modification time (content and size
/// unchanged) changes the bytes the cache key is digested from.
pub proof fn lemma_key_bytes_injective(a: FileIdentity, b: FileIdentity)
    requires
        spec_key_bytes(a) == spec_key_bytes(b),
    ensures
        a.ino == b.ino,
        a.size == b.size,
        a.mtime == b.mtime,
{
    let ka = spec_key_bytes(a);
    let kb = spec_key_bytes(b);
    assert(u64_le_bytes(a.ino as int) =~= Seq::new(8, |i: int| ka[i]));
    assert(u64_le_bytes(b.ino as int) =~= Seq::new(8, |i: int| kb[i]));
    assert(u64_le_bytes(a.size as int) =~= Seq::new(8, |i: int| ka[i + 8]));
    assert(u64_le_bytes(b.size as int) =~= Seq::new(8, |i: int| kb[i + 8]));
    assert(u64_le_bytes(a.mtime as int) =~= Seq::new(8, |i: int| ka[i + 16]));
    assert(u64_le_bytes(b.mtime as int) =~= Seq::new(8, |i: int| kb[i + 16]));
    lemma_u64_le_bytes_injective(a.ino, b.ino);
    lemma_u64_le_bytes_injective(a.size, b.size);
    lemma_u64_le_bytes_injective(a.mtime, b.mtime);
}

/// The SHA-256 digest of a byte string. Named, not written out: the
/// executable digest is the `sha2` crate's.
pub uninterp spec fn sha256_of(data: Seq<u8>) -> Seq<u8>;

/// Relies on `sha2::Sha256`: the SHA-256 digest is 32 bytes and depends
/// on the input bytes alone.
#[verifier::external_body]
fn sha256_digest(data: &Vec<u8>) -> (r: Vec<u8>)
    ensures
        r@ == sha256_of(data@),
        r@.len() == 32,
{
    let mut hasher = <sha2::Sha256 as sha2::Digest>::new();
    sha2::Digest::update(&mut hasher, data.as_slice());
    sha2::Digest::finalize(hasher).to_vec()
}

/// The lowercase hex digit for a value in 0..16.
pub open spec fn spec_hex_lower(n: int) -> u8 {
    if n < 10 {
        (0x30 + n) as u8
    } else {
        (0x61 + (n - 10)) as u8
    }
}

/// Two lowercase hex digits for every byte.
pub open spec fn hex_lower_bytes(data: Seq<u8>) -> Seq<u8>
    decreases data.len(),
{
    if data.len() == 0 {
        Seq::empty()
    } else {
        seq![
            spec_hex_lower(data[0] as int / 16),
            spec_hex_lower(data[0] as int % 16),
        ] + hex_lower_bytes(data.drop_first())
    }
}

/// Render a byte string as lowercase hex.
pub fn to_hex_lower(data: &Vec<u8>) -> (r: Vec<u8>)
    ensures
        r@ == hex_lower_bytes(data@),
{
    let mut r: Vec<u8> = Vec::new();
    let mut i: usize = 0;
    while i < data.len()
        invariant
            i <= data.len(),
            r@ == hex_lower_bytes(data@.take(i as int)),
        decreases data.len() - i,
    {
        let b = data[i];
        let hi: u8 = b / 16;
        let lo: u8 = b % 16;
        r.push(if hi < 10 {
            0x30 + hi
        } else {
            0x61 + (hi - 10)
        });
        r.push(if lo < 10 {
            0x30 + lo
        } else {
            0x61 + (lo - 10)
        });
        proof {
            lemma_hex_lower_bytes_concat(data@.take(i as int), seq![data@[i as int]]);
            assert(data@.take(i + 1) =~= data@.take(i as int) + seq![data@[i as int]]);
            let single = seq![data@[i as int]];
            assert(single.drop_first() =~= Seq::<u8>::empty());
            assert(hex_lower_bytes(Seq::<u8>::empty()) =~= Seq::<u8>::empty());
            assert(r@ =~= hex_lower_bytes(data@.take(i as int)) + hex_lower_bytes(single));
        }
        i = i + 1;
    }
    proof {
        assert(data@.take(data@.len() as int) =~= data@);
    }
    r
}

proof fn lemma_hex_lower_bytes_concat(a: Seq<u8>, b: Seq<u8>)
    ensures
        hex_lower_bytes(a + b) == hex_lower_bytes(a) + hex_lower_bytes(b),
    decreases a.len(),
{
    if a.len() == 0 {
        assert(a + b =~= b);
        assert(hex_lower_bytes(a) + hex_lower_bytes(b) =~= hex_lower_bytes(b));
    } else {
        lemma_hex_lower_bytes_concat(a.drop_first(), b);
        assert((a + b).drop_first() =~= a.drop_first() + b);
        assert(seq![spec_hex_lower(a[0] as int / 16), spec_hex_lower(a[0] as int % 16)] + (
        hex_lower_bytes(a.drop_first()) + hex_lower_bytes(b)) =~= (seq![
            spec_hex_lower(a[0] as int / 16),
            spec_hex_lower(a[0] as int % 16),
        ] + hex_lower_bytes(a.drop_first())) + hex_lower_bytes(b));
    }
}

/// Every hex digit byte is ASCII.
proof fn lemma_hex_lower_ascii(data: Seq<u8>)
    ensures
        forall|i: int| 0 <= i < hex_lower_bytes(data).len() ==> #[trigger] hex_lower_bytes(
            data,
        )[i] < 0x80,
    decreases data.len(),
{
    if data.len() > 0 {
        lemma_hex_lower_ascii(data.drop_first());
        let e0 = seq![spec_hex_lower(data[0] as int / 16), spec_hex_lower(data[0] as int % 16)];
        assert(forall|i: int|
            0 <= i < hex_lower_bytes(data).len() ==> #[trigger] hex_lower_bytes(data)[i] == (if i
                < 2 {
                e0[i]
            } else {
                hex_lower_bytes(data.drop_first())[i - 2]
            }));
    }
}

/// The cache key of a file identity: the SHA-256 digest of its key bytes,
/// in lowercase hex.
pub open spec fn spec_cache_key(id: FileIdentity) -> Seq<char> {
    crate::percent::ascii_chars_of(hex_lower_bytes(sha256_of(spec_key_bytes(id))))
}

/// Compute the cache key for a file: 64 lowercase hex characters of the
/// SHA-256 digest over inode, size and modification time.
pub fn get_thumbnail_hash(id: &FileIdentity) -> (r: String)
    ensures
        r@ == spec_cache_key(*id),
{
    let mut key_bytes: Vec<u8> = Vec::new();
    push_u64_le(&mut key_bytes, id.ino);
    push_u64_le(&mut key_bytes, id.size);
    push_u64_le(&mut key_bytes, id.mtime);
    proof {
        assert(key_bytes@ =~= spec_key_bytes(*id));
    }
    let digest = sha256_digest(&key_bytes);
    let hex = to_hex_lower(&digest);
    proof {
        lemma_hex_lower_ascii(digest@);
        crate::percent::lemma_ascii_decode(hex@);
    }
    let s = crate::percent::string_from_ascii(hex);
    proof {
        vstd::utf8::encode_utf8_decode_utf8(s@);
    }
    s
}

/// Append the eight little-endian bytes of `x`.
fn push_u64_le(out: &mut Vec<u8>, x: u64)
    ensures
        final(out)@ == old(out)@ + u64_le_bytes(x as int),
{
    let ghost pre = out@;
    let b0: u8 = (x % 256) as u8;
    let b1: u8 = ((x / 256) % 256) as u8;
    let b2: u8 = ((x / 65536) % 256) as u8;
    let b3: u8 = ((x / 16777216) % 256) as u8;
    let b4: u8 = ((x / 4294967296) % 256) as u8;
    let b5: u8 = ((x / 1099511627776) % 256) as u8;
    let b6: u8 = ((x / 281474976710656) % 256) as u8;
    let b7: u8 = ((x / 72057594037927936) % 256) as u8;
    out.push(b0);
    out.push(b1);
    out.push(b2);
    out.push(b3);
    out.push(b4);
    out.push(b5);
    out.push(b6);
    out.push(b7);
    proof {
        assert(out@ =~= pre + u64_le_bytes(x as int));
    }
}

/// The name-based UUID of a byte string under the scanner's namespace.
/// Named, not written out: the executable value is the `uuid` crate's.
pub uninterp spec fn uuid5_of(input: Seq<char>) -> Seq<char>;

/// Relies on `uuid::Uuid::new_v5` and `Uuid::to_string`: a name-based
/// (SHA-1) UUID under the RFC 4122 DNS namespace, rendered in the
/// 36-character hyphenated form; it depends on the input alone, so the
/// same path yields the same identifier on every scan.
#[verifier::external_body]
pub fn generate_uuid(input: &str) -> (r: String)
    ensures
        r@ == uuid5_of(input@),
        r@.len() == 36,
{
    uuid::Uuid::new_v5(&uuid::Uuid::NAMESPACE_DNS, input.as_bytes()).to_string()
}

} // verus!
