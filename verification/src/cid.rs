//! CIDv1 content identifiers: raw codec, sha-256 multihash, base32-lower text.
use vstd::arithmetic::power2::{lemma2_to64, pow2};
use vstd::prelude::*;
use vstd::utf8::{encode_utf8_decode_utf8, is_ascii_chars, is_ascii_chars_encode_utf8};

use crate::text::{str_eq, string_of_bytes, utf8};

verus! {

pub const CID_VERSION: u8 = 0x01;

pub const CODEC_RAW: u8 = 0x55;

pub const MULTIHASH_SHA256: u8 = 0x12;

pub const DIGEST_LEN: u8 = 0x20;

/// The SHA-256 digest of `data` (FIPS 180-4), as computed by `sha2`.
pub uninterp spec fn sha256_digest(data: Seq<u8>) -> Seq<u8>;

/// `sha2::Sha256::digest`: the 32-byte SHA-256 digest of `data`.
#[verifier::external_body]
fn sha256(data: &[u8]) -> (r: [u8; 32])
    ensures
        r@ == sha256_digest(data@),
{
    <sha2::Sha256 as sha2::Digest>::digest(data).into()
}

/// The byte at position `k` of `data`, or 0 past its end.
pub open spec fn byte_or_zero(data: Seq<u8>, k: int) -> int {
    if 0 <= k < data.len() {
        data[k] as int
    } else {
        0
    }
}

/// The 5-bit group `i` of `data`, bits read most significant first, zero
/// bits past the end of `data`.
pub open spec fn base32_group(data: Seq<u8>, i: int) -> int {
    let p = (5 * i) / 8;
    let off = (5 * i) % 8;
    ((byte_or_zero(data, p) * 256 + byte_or_zero(data, p + 1)) / (pow2((11 - off) as nat) as int))
        % 32
}

/// The symbol of a 5-bit value in the RFC 4648 base32 alphabet
/// `ABCDEFGHIJKLMNOPQRSTUVWXYZ234567`.
pub open spec fn base32_symbol(v: int) -> char {
    if v < 26 {
        (65 + v) as char
    } else {
        (24 + v) as char
    }
}

/// RFC 4648 base32 of `data` without padding: one symbol for each started
/// group of five bits.
pub open spec fn base32_nopad(data: Seq<u8>) -> Seq<char> {
    Seq::new(((8 * data.len() + 4) / 5) as nat, |i: int| base32_symbol(base32_group(data, i)))
}

/// A symbol of the RFC 4648 base32 alphabet `A`-`Z`, `2`-`7`.
pub open spec fn is_base32_symbol(c: char) -> bool {
    ('A' <= c <= 'Z') || ('2' <= c <= '7')
}

proof fn lemma_base32_symbols(data: Seq<u8>)
    ensures
        forall|i: int|
            0 <= i < base32_nopad(data).len() ==> is_base32_symbol(#[trigger] base32_nopad(data)[i]),
{
    assert forall|i: int| 0 <= i < base32_nopad(data).len() implies is_base32_symbol(
        #[trigger] base32_nopad(data)[i],
    ) by {
        let v = base32_group(data, i);
        assert(0 <= v < 32);
    }
}

/// `data_encoding::BASE32_NOPAD.encode`: the base32 text of `data` with the
/// alphabet `ABCDEFGHIJKLMNOPQRSTUVWXYZ234567`, most significant bit first
/// and no padding, `ceil(8n/5)` symbols long (its `encode_len` panics above
/// `usize::MAX / 512`).
#[verifier::external_body]
fn base32_nopad_encode(data: &[u8]) -> (r: String)
    requires
        data@.len() <= usize::MAX / 512,
    ensures
        r@ == base32_nopad(data@),
{
    data_encoding::BASE32_NOPAD.encode(data)
}

/// The header of a CIDv1 over a raw sha-256 digest.
pub open spec fn cid_header() -> Seq<u8> {
    seq![CID_VERSION, CODEC_RAW, MULTIHASH_SHA256, DIGEST_LEN]
}

/// ASCII lower-casing of one character.
pub open spec fn ascii_lower(c: char) -> char {
    if 'A' <= c <= 'Z' {
        ((c as u32) + 32) as char
    } else {
        c
    }
}

/// The CID text of `data`: `b` followed by the lower-case base32 of the
/// binary CID (header and sha-256 digest).
pub open spec fn cid_string(data: Seq<u8>) -> Seq<char> {
    let b32 = base32_nopad(cid_header() + sha256_digest(data));
    seq!['b'] + Seq::new(b32.len(), |i: int| ascii_lower(b32[i]))
}

/// A symbol of the lower-case base32 alphabet `a`-`z`, `2`-`7`.
pub open spec fn is_base32_lower_symbol(c: char) -> bool {
    ('a' <= c <= 'z') || ('2' <= c <= '7')
}

/// The CID text of a body with a 32-byte digest: 59 characters, starting
/// with `bafkrei` (multibase `b`, then the fixed header), the rest lower-case
/// base32.
proof fn lemma_cid_shape(data: Seq<u8>)
    requires
        sha256_digest(data).len() == 32,
    ensures
        cid_string(data).len() == 59,
        cid_string(data).subrange(0, 7) == "bafkrei"@,
        forall|i: int|
            1 <= i < cid_string(data).len() ==> is_base32_lower_symbol(#[trigger] cid_string(data)[i]),
{
    let bin = cid_header() + sha256_digest(data);
    let b32 = base32_nopad(bin);
    let c = cid_string(data);
    assert(bin.len() == 36);
    assert(b32.len() == 58);
    lemma2_to64();
    assert(bin[0] == 1u8 && bin[1] == 0x55u8 && bin[2] == 0x12u8 && bin[3] == 0x20u8);
    assert(base32_group(bin, 0) == 0) by {
        assert(byte_or_zero(bin, 0) * 256 + byte_or_zero(bin, 1) == 341);
        assert(341int / 2048int == 0);
    }
    assert(base32_group(bin, 1) == 5) by {
        assert((5 * 1int) / 8 == 0 && (5 * 1int) % 8 == 5);
        assert(byte_or_zero(bin, 0) * 256 + byte_or_zero(bin, 1) == 341);
        assert(341int / 64int == 5);
    }
    assert(base32_group(bin, 2) == 10) by {
        assert((5 * 2int) / 8 == 1 && (5 * 2int) % 8 == 2);
        assert(byte_or_zero(bin, 1) * 256 + byte_or_zero(bin, 2) == 21778);
        assert(21778int / 512int == 42);
    }
    assert(base32_group(bin, 3) == 17) by {
        assert((5 * 3int) / 8 == 1 && (5 * 3int) % 8 == 7);
        assert(byte_or_zero(bin, 1) * 256 + byte_or_zero(bin, 2) == 21778);
        assert(21778int / 16int == 1361);
        assert(1361int % 32 == 17);
    }
    assert(base32_group(bin, 4) == 4) by {
        assert((5 * 4int) / 8 == 2 && (5 * 4int) % 8 == 4);
        assert(byte_or_zero(bin, 2) * 256 + byte_or_zero(bin, 3) == 4640);
        assert(4640int / 128int == 36);
    }
    assert(base32_group(bin, 5) == 8) by {
        assert((5 * 5int) / 8 == 3 && (5 * 5int) % 8 == 1);
        let x = byte_or_zero(bin, 3) * 256 + byte_or_zero(bin, 4);
        assert(8192 <= x < 9216);
        assert(x / 1024int == 8);
    }
    reveal_strlit("bafkrei");
    assert(c.subrange(0, 7) =~= "bafkrei"@);
    lemma_base32_symbols(bin);
    assert forall|i: int| 1 <= i < c.len() implies is_base32_lower_symbol(#[trigger] c[i]) by {
        assert(is_base32_symbol(b32[i - 1]));
        assert(c[i] == ascii_lower(b32[i - 1]));
    }
}

/// The CIDv1 (raw codec, sha-256) of `data`, in base32-lower multibase form.
pub fn bytes_to_cid(data: &[u8]) -> (r: String)
    ensures
        r@ == cid_string(data@),
        r@.len() == 59,
        r@.subrange(0, 7) == "bafkrei"@,
        forall|i: int| 1 <= i < r@.len() ==> is_base32_lower_symbol(#[trigger] r@[i]),
{
    let digest = sha256(data);
    let mut buf: Vec<u8> = Vec::new();
    buf.push(CID_VERSION);
    buf.push(CODEC_RAW);
    buf.push(MULTIHASH_SHA256);
    buf.push(DIGEST_LEN);
    let mut i: usize = 0;
    while i < 32
        invariant
            i <= 32,
            buf@ == cid_header() + digest@.subrange(0, i as int),
        decreases 32 - i,
    {
        buf.push(digest[i]);
        i = i + 1;
        assert(buf@ =~= cid_header() + digest@.subrange(0, i as int));
    }
    assert(digest@.subrange(0, 32) =~= digest@);
    let b32 = base32_nopad_encode(buf.as_slice());
    proof {
        lemma_base32_symbols(buf@);
        lemma_cid_shape(data@);
    }
    let ghost chars = b32@;
    assert(is_ascii_chars(chars));
    proof {
        is_ascii_chars_encode_utf8(chars);
    }
    let src = b32.as_str().as_bytes();
    let mut out: Vec<u8> = Vec::new();
    out.push(98u8);
    let mut j: usize = 0;
    while j < src.len()
        invariant
            j <= src@.len(),
            src@.len() == chars.len(),
            forall|k: int| 0 <= k < chars.len() ==> is_base32_symbol(#[trigger] chars[k]),
            forall|k: int| 0 <= k < chars.len() ==> #[trigger] src@[k] == chars[k] as u8,
            out@.len() == j + 1,
            out@[0] == 98u8,
            forall|k: int| 0 <= k < j ==> #[trigger] out@[k + 1] == ascii_lower(chars[k]) as u8,
        decreases src@.len() - j,
    {
        let c = src[j];
        assert(c == chars[j as int] as u8);
        let lc = if c >= 65 && c <= 90 {
            c + 32
        } else {
            c
        };
        assert(lc == ascii_lower(chars[j as int]) as u8);
        out.push(lc);
        j = j + 1;
    }
    let ghost expected = cid_string(data@);
    assert(expected.len() == out@.len());
    assert(is_ascii_chars(expected));
    proof {
        is_ascii_chars_encode_utf8(expected);
        assert forall|i: int| 0 <= i < out@.len() implies #[trigger] utf8(expected)[i] == out@[i] by {
            assert(utf8(expected)[i] == expected[i] as u8);
            if i > 0 {
                let k = i - 1;
                assert(out@[k + 1] == ascii_lower(chars[k]) as u8);
                assert(expected[i] == ascii_lower(chars[k]));
            }
        }
        assert(utf8(expected) =~= out@);
        encode_utf8_decode_utf8(expected);
        vstd::utf8::encode_utf8_valid_utf8(expected);
    }
    let r = string_of_bytes(out);
    proof {
        encode_utf8_decode_utf8(r@);
    }
    r
}

/// Whether `cid` is the CID of `data`.
pub fn verify_cid(cid: &str, data: &[u8]) -> (r: bool)
    ensures
        r == (cid@ == cid_string(data@)),
{
    let computed = bytes_to_cid(data);
    str_eq(computed.as_str(), cid)
}

} // verus!
