//! Percent-encoding for the local-asset URI scheme
//! `asset://localhost/<percent-encoded-absolute-path>`.
//!
//! Alphanumeric bytes and the unreserved set `- _ . ! ~ * ' ( )` pass
//! through; every other byte of the path's UTF-8 form becomes `%XX` with
//! uppercase hex digits. Decoding inverts the encoding exactly, so encoded
//! paths round-trip to the original string.

use vstd::prelude::*;
use vstd::string::StrSliceExecFns;
use vstd::string::StringExecFns;
use vstd::utf8::*;

verus! {

/// A byte that is written as itself: ASCII alphanumerics and
/// `- _ . ! ~ * ' ( )`.
pub open spec fn is_unreserved_byte(b: u8) -> bool {
    (0x30 <= b && b <= 0x39)  // 0-9
     || (0x41 <= b && b <= 0x5a)  // A-Z
     || (0x61 <= b && b <= 0x7a)  // a-z
     || b == 0x2d  // -
     || b == 0x5f  // _
     || b == 0x2e  // .
     || b == 0x21  // !
     || b == 0x7e  // ~
     || b == 0x2a  // *
     || b == 0x27  // '
     || b == 0x28  // (
     || b == 0x29  // )

}

/// The uppercase hex digit for a value in 0..16.
pub open spec fn spec_hex_digit(n: int) -> u8 {
    if n < 10 {
        (0x30 + n) as u8
    } else {
        (0x41 + (n - 10)) as u8
    }
}

/// The encoding of one byte: itself if unreserved, else `%XX`.
pub open spec fn spec_encode_byte(b: u8) -> Seq<u8> {
    if is_unreserved_byte(b) {
        seq![b]
    } else {
        seq![0x25u8, spec_hex_digit(b as int / 16), spec_hex_digit(b as int % 16)]
    }
}

/// The percent-encoding of a byte string.
pub open spec fn percent_encoded(s: Seq<u8>) -> Seq<u8>
    decreases s.len(),
{
    if s.len() == 0 {
        Seq::empty()
    } else {
        spec_encode_byte(s[0]) + percent_encoded(s.drop_first())
    }
}

/// The value of a hex digit byte, if it is one (both cases accepted).
pub open spec fn spec_hex_val(b: u8) -> Option<int> {
    if 0x30 <= b && b <= 0x39 {
        Some(b - 0x30)
    } else if 0x41 <= b && b <= 0x46 {
        Some(b - 0x41 + 10)
    } else if 0x61 <= b && b <= 0x66 {
        Some(b - 0x61 + 10)
    } else {
        None
    }
}

/// The percent-decoding of a byte string: `%XX` becomes the byte `XX`,
/// any other byte stands for itself; a malformed escape fails.
pub open spec fn percent_decoded(s: Seq<u8>) -> Option<Seq<u8>>
    decreases s.len(),
{
    if s.len() == 0 {
        Some(Seq::empty())
    } else if s[0] == 0x25 {
        if s.len() >= 3 && spec_hex_val(s[1]) is Some && spec_hex_val(s[2]) is Some {
            let b = (spec_hex_val(s[1]).unwrap() * 16 + spec_hex_val(s[2]).unwrap()) as u8;
            match percent_decoded(s.skip(3)) {
                Some(rest) => Some(seq![b] + rest),
                None => None,
            }
        } else {
            None
        }
    } else {
        match percent_decoded(s.drop_first()) {
            Some(rest) => Some(seq![s[0]] + rest),
            None => None,
        }
    }
}

/// Encoding distributes over concatenation.
pub proof fn lemma_percent_encoded_concat(a: Seq<u8>, b: Seq<u8>)
    ensures
        percent_encoded(a + b) == percent_encoded(a) + percent_encoded(b),
    decreases a.len(),
{
    if a.len() == 0 {
        assert(a + b =~= b);
        assert(percent_encoded(a) + percent_encoded(b) =~= percent_encoded(b));
    } else {
        lemma_percent_encoded_concat(a.drop_first(), b);
        assert((a + b).drop_first() =~= a.drop_first() + b);
        assert(spec_encode_byte(a[0]) + (percent_encoded(a.drop_first()) + percent_encoded(b))
            =~= (spec_encode_byte(a[0]) + percent_encoded(a.drop_first())) + percent_encoded(b));
    }
}

/// Decoding inverts encoding: every byte string round-trips.
pub proof fn lemma_percent_round_trip(s: Seq<u8>)
    ensures
        percent_decoded(percent_encoded(s)) == Some(s),
    decreases s.len(),
{
    if s.len() == 0 {
    } else {
        lemma_percent_round_trip(s.drop_first());
        let e = percent_encoded(s);
        let e0 = spec_encode_byte(s[0]);
        let rest = percent_encoded(s.drop_first());
        assert(e == e0 + rest);
        if is_unreserved_byte(s[0]) {
            assert(e[0] == s[0] && s[0] != 0x25);
            assert(e.drop_first() =~= rest);
            assert(seq![s[0]] + s.drop_first() =~= s);
        } else {
            assert(e[0] == 0x25);
            assert(e.len() >= 3);
            assert(e[1] == spec_hex_digit(s[0] as int / 16));
            assert(e[2] == spec_hex_digit(s[0] as int % 16));
            assert(spec_hex_val(e[1]) == Some(s[0] as int / 16));
            assert(spec_hex_val(e[2]) == Some(s[0] as int % 16));
            assert((s[0] as int / 16) * 16 + s[0] as int % 16 == s[0] as int);
            assert(e.skip(3) =~= rest);
            assert(seq![s[0]] + s.drop_first() =~= s);
        }
    }
}

/// Percent-encode a byte string.
pub fn percent_encode_bytes(src: &Vec<u8>) -> (r: Vec<u8>)
    ensures
        r@ == percent_encoded(src@),
{
    let mut r: Vec<u8> = Vec::new();
    let mut i: usize = 0;
    while i < src.len()
        invariant
            i <= src.len(),
            r@ == percent_encoded(src@.take(i as int)),
        decreases src.len() - i,
    {
        let b = src[i];
        if (0x30 <= b && b <= 0x39) || (0x41 <= b && b <= 0x5a) || (0x61 <= b && b <= 0x7a) || b
            == 0x2d || b == 0x5f || b == 0x2e || b == 0x21 || b == 0x7e || b == 0x2a || b == 0x27
            || b == 0x28 || b == 0x29 {
            r.push(b);
        } else {
            let hi: u8 = b / 16;
            let lo: u8 = b % 16;
            r.push(0x25);
            r.push(if hi < 10 {
                0x30 + hi
            } else {
                0x41 + (hi - 10)
            });
            r.push(if lo < 10 {
                0x30 + lo
            } else {
                0x41 + (lo - 10)
            });
        }
        proof {
            lemma_percent_encoded_concat(src@.take(i as int), seq![src@[i as int]]);
            assert(src@.take(i + 1) =~= src@.take(i as int) + seq![src@[i as int]]);
            let single = seq![src@[i as int]];
            assert(single.drop_first() =~= Seq::<u8>::empty());
            assert(percent_encoded(Seq::<u8>::empty()) =~= Seq::<u8>::empty());
            assert(percent_encoded(single) =~= spec_encode_byte(src@[i as int]) + percent_encoded(
                Seq::<u8>::empty(),
            ));
            assert(percent_encoded(single) =~= spec_encode_byte(src@[i as int]));
            assert(r@ =~= percent_encoded(src@.take(i as int)) + spec_encode_byte(
                src@[i as int],
            ));
        }
        i = i + 1;
    }
    proof {
        assert(src@.take(src@.len() as int) =~= src@);
    }
    r
}

/// Percent-decode a byte string; `None` on a malformed escape.
pub fn percent_decode_bytes(src: &Vec<u8>) -> (r: Option<Vec<u8>>)
    ensures
        match r {
            Some(v) => percent_decoded(src@) == Some(v@),
            None => percent_decoded(src@) is None,
        },
{
    let mut out: Vec<u8> = Vec::new();
    let mut i: usize = 0;
    proof {
        assert(src@.skip(0) =~= src@);
        match percent_decoded(src@) {
            Some(t) => {
                assert(Seq::<u8>::empty() + t =~= t);
            },
            None => {},
        }
    }
    while i < src.len()
        invariant
            i <= src.len(),
            percent_decoded(src@) == match percent_decoded(src@.skip(i as int)) {
                Some(t) => Some(out@ + t),
                None => None::<Seq<u8>>,
            },
        decreases src.len() - i,
    {
        let ghost pre = out@;
        let ghost tail = src@.skip(i as int);
        let b = src[i];
        proof {
            assert(tail[0] == src@[i as int]);
        }
        if b == 0x25 {
            if src.len() - i < 3 {
                proof {
                    assert(tail.len() < 3);
                }
                return None;
            }
            let h1 = hex_val(src[i + 1]);
            let h2 = hex_val(src[i + 2]);
            proof {
                assert(tail[1] == src@[i + 1]);
                assert(tail[2] == src@[i + 2]);
            }
            match (h1, h2) {
                (Some(v1), Some(v2)) => {
                    out.push(v1 * 16 + v2);
                    proof {
                        assert(tail.skip(3) =~= src@.skip(i + 3));
                        assert(out@ =~= pre + seq![(v1 * 16 + v2) as u8]);
                        match percent_decoded(src@.skip(i + 3)) {
                            Some(t) => {
                                assert((pre + seq![(v1 * 16 + v2) as u8]) + t =~= pre + (seq![
                                    (v1 * 16 + v2) as u8,
                                ] + t));
                            },
                            None => {},
                        }
                    }
                    i = i + 3;
                },
                _ => {
                    return None;
                },
            }
        } else {
            out.push(b);
            proof {
                assert(tail.drop_first() =~= src@.skip(i + 1));
                assert(out@ =~= pre + seq![b]);
                match percent_decoded(src@.skip(i + 1)) {
                    Some(t) => {
                        assert((pre + seq![b]) + t =~= pre + (seq![b] + t));
                    },
                    None => {},
                }
            }
            i = i + 1;
        }
    }
    proof {
        assert(src@.skip(src@.len() as int) =~= Seq::<u8>::empty());
        assert(out@ + Seq::<u8>::empty() =~= out@);
    }
    Some(out)
}

/// The characters an all-ASCII byte string spells.
pub open spec fn ascii_chars_of(bytes: Seq<u8>) -> Seq<char> {
    bytes.map_values(|b: u8| b as char)
}

/// Every byte of a percent-encoded string is ASCII.
pub proof fn lemma_percent_encoded_ascii(s: Seq<u8>)
    ensures
        forall|i: int| 0 <= i < percent_encoded(s).len() ==> #[trigger] percent_encoded(s)[i]
            < 0x80,
    decreases s.len(),
{
    if s.len() > 0 {
        lemma_percent_encoded_ascii(s.drop_first());
        let e0 = spec_encode_byte(s[0]);
        assert(forall|i: int| 0 <= i < e0.len() ==> #[trigger] e0[i] < 0x80);
        assert(forall|i: int|
            0 <= i < percent_encoded(s).len() ==> #[trigger] percent_encoded(s)[i] == (if i
                < e0.len() {
                e0[i]
            } else {
                percent_encoded(s.drop_first())[i - e0.len()]
            }));
    }
}

/// An all-ASCII byte string is valid UTF-8 and decodes to its bytes as
/// characters.
pub proof fn lemma_ascii_decode(bytes: Seq<u8>)
    requires
        forall|i: int| 0 <= i < bytes.len() ==> bytes[i] < 0x80,
    ensures
        valid_utf8(bytes),
        decode_utf8(bytes) == ascii_chars_of(bytes),
    decreases bytes.len(),
{
    if bytes.len() > 0 {
        let b = bytes[0];
        assert(is_leading_byte_width_1(b));
        assert(b & 0x7f == b) by (bit_vector)
            requires
                b < 0x80,
        ;
        assert(decode_first_codepoint(bytes) == b as u32);
        assert(valid_first_scalar(bytes));
        assert(pop_first_scalar(bytes) =~= bytes.drop_first());
        lemma_ascii_decode(bytes.drop_first());
        let c = b as char;
        assert(c as u32 == b as u32);
        char_u32_cast(c, b as u32);
        assert(decode_first_scalar(bytes) as char == c);
        assert(decode_utf8(bytes) =~= ascii_chars_of(bytes));
    } else {
        assert(decode_utf8(bytes) =~= ascii_chars_of(bytes));
    }
}

/// Relies on `String::from_utf8`: for valid UTF-8 input it returns the
/// string holding exactly those bytes.
#[verifier::external_body]
pub(crate) fn string_from_ascii(bytes: Vec<u8>) -> (r: String)
    requires
        valid_utf8(bytes@),
    ensures
        encode_utf8(r@) == bytes@,
{
    String::from_utf8(bytes).unwrap_or_default()
}

/// The local-asset URI for a path: the scheme and host prefix, then the
/// percent-encoded UTF-8 form of the path.
pub open spec fn spec_asset_url(path: Seq<char>) -> Seq<char> {
    "asset://localhost/"@ + ascii_chars_of(percent_encoded(encode_utf8(path)))
}

/// Build the local-asset URI `asset://localhost/<encoded path>` for a path.
pub fn convert_file_src(path: &str) -> (r: String)
    ensures
        r@ == spec_asset_url(path@),
{
    let bytes = path.as_bytes_vec();
    let enc = percent_encode_bytes(&bytes);
    proof {
        lemma_percent_encoded_ascii(bytes@);
        lemma_ascii_decode(enc@);
    }
    let enc_s = string_from_ascii(enc);
    proof {
        encode_utf8_decode_utf8(enc_s@);
    }
    let mut out = String::from_str("asset://localhost/");
    out.append(enc_s.as_str());
    out
}

/// Law: a percent-encoded path decodes back to the original path — the
/// byte string round-trips through `percent_decoded`, and the bytes are
/// the path's UTF-8 form, which decodes to the original characters.
pub proof fn lemma_asset_path_round_trip(path: Seq<char>)
    ensures
        percent_decoded(percent_encoded(encode_utf8(path))) == Some(encode_utf8(path)),
        decode_utf8(encode_utf8(path)) == path,
{
    lemma_percent_round_trip(encode_utf8(path));
    encode_utf8_decode_utf8(path);
}

/// The value of a hex digit byte, if it is one.
fn hex_val(b: u8) -> (r: Option<u8>)
    ensures
        match r {
            Some(v) => spec_hex_val(b) == Some(v as int),
            None => spec_hex_val(b) is None,
        },
{
    if 0x30 <= b && b <= 0x39 {
        Some(b - 0x30)
    } else if 0x41 <= b && b <= 0x46 {
        Some(b - 0x41 + 10)
    } else if 0x61 <= b && b <= 0x66 {
        Some(b - 0x61 + 10)
    } else {
        None
    }
}

} // verus!
