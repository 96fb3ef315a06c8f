//! DID codecs: `did:key` for Ed25519 keys, `did:web` to URL, DID documents.
use vstd::arithmetic::power2::{lemma2_to64, lemma2_to64_rest, lemma_pow2_adds, lemma_pow2_pos,
    lemma_pow2_strictly_increases, pow2};
use vstd::bits::lemma_u64_shl_is_mul;
use vstd::prelude::*;
use vstd::utf8::valid_utf8;

use crate::error::{is_invalid, Error};
use crate::json::{
    array_of, field_str, field_str_of, field_str_or_empty, field_str_or_empty_of, json_get, models,
    Json, JsonValue,
};
use vstd::slice::{slice_subrange, slice_to_vec};

use crate::text::{
    decimal, decimal_digits, hex, hex_digits, is_ascii_bytes, lemma_ascii_valid_utf8,
    lemma_concat_valid_utf8, lemma_decimal_ascii, lemma_hex_ascii, push_bytes, push_str,
    has_prefix, starts_with, str_eq, string_from_utf8, string_of_bytes, bytes_of_str, utf8,
};

verus! {

broadcast use vstd::utf8::encode_utf8_valid_utf8;

/// Why an unsigned LEB128 varint could not be read.
pub enum VarintError {
    /// Ten bytes in a row carried the continuation bit.
    Overflow,
    /// The input ended before a byte without the continuation bit.
    Truncated,
}

/// `Σ_{k < n} (bytes[k] mod 128) · 2^(7k)`: the value of the first `n` 7-bit groups.
pub open spec fn varint_sum(bytes: Seq<u8>, n: nat) -> nat
    decreases n,
{
    if n == 0 {
        0
    } else {
        varint_sum(bytes, (n - 1) as nat) + ((bytes[n - 1] % 128) as nat) * pow2((7 * (n - 1)) as nat)
    }
}

/// The position of the first byte at or after `i`, and before position 10,
/// that has no continuation bit.
pub open spec fn varint_last_from(bytes: Seq<u8>, i: nat) -> Option<nat>
    decreases 10 - i,
{
    if i >= 10 || i >= bytes.len() {
        None
    } else if bytes[i as int] < 128 {
        Some(i)
    } else {
        varint_last_from(bytes, i + 1)
    }
}

/// An unsigned LEB128 varint at the start of `bytes`, at most ten bytes long:
/// its value modulo 2^64 and its length in bytes.
pub open spec fn varint_spec(bytes: Seq<u8>) -> Result<(u64, nat), VarintError> {
    match varint_last_from(bytes, 0) {
        Some(j) => Ok(((varint_sum(bytes, j + 1) % 0x1_0000_0000_0000_0000) as u64, j + 1)),
        None => if bytes.len() >= 10 {
            Err(VarintError::Overflow)
        } else {
            Err(VarintError::Truncated)
        },
    }
}

/// Adding the group at position `i < 9` to a value below `2^(7i)`.
proof fn lemma_varint_step_low(n: u64, c: u64, s: u64)
    requires
        s <= 56,
        n < pow2(s as nat),
        c < 128,
    ensures
        c * pow2(s as nat) <= u64::MAX,
        n | (c << s) == n + c * pow2(s as nat),
        n + c * pow2(s as nat) < pow2((s + 7) as nat),
{
    lemma_pow2_adds(s as nat, 7);
    lemma2_to64();
    lemma2_to64_rest();
    lemma_pow2_pos(s as nat);
    assert(pow2(s as nat) <= pow2(56)) by {
        if s < 56 {
            lemma_pow2_strictly_increases(s as nat, 56);
        }
    }
    assert(c * pow2(s as nat) <= 127 * pow2(56)) by (nonlinear_arith)
        requires
            c <= 127,
            pow2(s as nat) <= pow2(56),
    ;
    assert(1u64 * pow2(s as nat) <= u64::MAX);
    lemma_u64_shl_is_mul(1u64, s);
    lemma_u64_shl_is_mul(c, s);
    let p: u64 = 1u64 << s;
    assert(n < p);
    assert(n | (c << s) == n + (c << s)) by (bit_vector)
        requires
            s <= 56,
            p == 1u64 << s,
            n < p,
            c < 128,
    ;
    assert(c * pow2(s as nat) + pow2(s as nat) <= 128 * pow2(s as nat)) by (nonlinear_arith)
        requires
            c <= 127,
    ;
}

/// Adding the group at position 9, whose shift by 63 keeps only its lowest bit.
proof fn lemma_varint_step_top(n: u64, c: u64)
    requires
        n < pow2(63),
        c < 128,
    ensures
        (n | (c << 63u64)) as int == (n + c * pow2(63)) % 0x1_0000_0000_0000_0000,
{
    lemma2_to64();
    lemma2_to64_rest();
    assert(n | (c << 63u64) == n + (c % 2) * 0x8000_0000_0000_0000) by (bit_vector)
        requires
            n < 0x8000_0000_0000_0000u64,
            c < 128,
    ;
    assert((n + c * 0x8000_0000_0000_0000) % 0x1_0000_0000_0000_0000 == n + (c % 2)
        * 0x8000_0000_0000_0000) by (nonlinear_arith)
        requires
            0 <= n < 0x8000_0000_0000_0000,
            0 <= c < 128,
    ;
}

/// Reads an unsigned LEB128 varint from the start of `bytes`: its value and
/// the number of bytes it took.
pub fn varint_decode(bytes: &[u8]) -> (r: Result<(u64, usize), Error>)
    ensures
        r matches Ok((_, n)) ==> 1 <= n <= bytes@.len() && n <= 10,
        match varint_spec(bytes@) {
            Ok((v, len)) => r matches Ok((rv, rn)) && rv == v && rn as nat == len,
            Err(VarintError::Overflow) => r matches Err(e) && is_invalid(e, utf8("varint overflow"@)),
            Err(VarintError::Truncated) => r matches Err(e) && is_invalid(
                e,
                utf8("varint truncated"@),
            ),
        },
{
    let mut n: u64 = 0;
    let mut shift: u64 = 0;
    let mut i: usize = 0;
    proof {
        lemma2_to64();
    }
    while i < bytes.len()
        invariant
            i <= bytes@.len(),
            i <= 9,
            shift == 7 * i,
            n as nat == varint_sum(bytes@, i as nat),
            n < pow2(7 * i as nat),
            varint_last_from(bytes@, 0) == varint_last_from(bytes@, i as nat),
        decreases bytes@.len() - i,
    {
        let b = bytes[i];
        let c: u64 = (b & 0x7F) as u64;
        assert(c == b % 128) by (bit_vector)
            requires
                c == (b & 0x7F) as u64,
        ;
        let ghost old_n = n;
        assert(varint_sum(bytes@, (i + 1) as nat) == varint_sum(bytes@, i as nat) + c * pow2(
            (7 * i) as nat,
        ));
        if i < 9 {
            proof {
                lemma_varint_step_low(n, c, shift);
            }
            n = n | (c << shift);
            assert(n as nat == varint_sum(bytes@, (i + 1) as nat));
            assert(n < pow2(7 * (i + 1) as nat));
        } else {
            proof {
                lemma_varint_step_top(n, c);
            }
            n = n | (c << shift);
            assert(n as nat == varint_sum(bytes@, (i + 1) as nat) % 0x1_0000_0000_0000_0000);
        }
        if b & 0x80 == 0 {
            assert(b < 128) by (bit_vector)
                requires
                    b & 0x80 == 0,
            ;
            assert(varint_last_from(bytes@, i as nat) == Some(i as nat));
            proof {
                if i < 9 {
                    lemma2_to64_rest();
                    lemma_pow2_strictly_increases((7 * (i + 1)) as nat, 64);
                    assert(n as nat % 0x1_0000_0000_0000_0000 == n as nat);
                }
            }
            return Ok((n, i + 1));
        }
        assert(b >= 128) by (bit_vector)
            requires
                b & 0x80 != 0,
        ;
        assert(varint_last_from(bytes@, i as nat) == varint_last_from(bytes@, (i + 1) as nat));
        shift = shift + 7;
        if shift >= 64 {
            assert(varint_last_from(bytes@, 10) is None);
            return Err(Error::invalid_str("varint overflow"));
        }
        i = i + 1;
    }
    assert(varint_last_from(bytes@, i as nat) is None);
    Err(Error::invalid_str("varint truncated"))
}


/// The multicodec code of an Ed25519 public key.
pub const ED25519_MULTICODEC: u8 = 0xED;

/// The varint-encoded multicodec prefix of an Ed25519 public key.
pub open spec fn ed25519_prefix() -> Seq<u8> {
    seq![0xEDu8, 0x01u8]
}

/// Bitcoin-alphabet base58 of `data`, as computed by `bs58::encode`.
pub uninterp spec fn base58_encode(data: Seq<u8>) -> Seq<u8>;

/// What `bs58::decode(..).into_vec()` returns for `text`: the decoded bytes,
/// or the display text of its error.
pub uninterp spec fn base58_decode(text: Seq<u8>) -> Result<Seq<u8>, Seq<char>>;

/// A symbol of the Bitcoin base58 alphabet
/// `123456789ABCDEFGHJKLMNPQRSTUVWXYZabcdefghijkmnopqrstuvwxyz`.
pub open spec fn is_base58_symbol(c: u8) -> bool {
    (49 <= c <= 57) || (65 <= c <= 72) || (74 <= c <= 78) || (80 <= c <= 90) || (97 <= c <= 107)
        || (109 <= c <= 122)
}

/// `bs58::encode(data).into_vec()`: the base58 text of `data` in the default
/// (Bitcoin) alphabet.
#[verifier::external_body]
fn bs58_encode(data: &[u8]) -> (r: Vec<u8>)
    ensures
        r@ == base58_encode(data@),
        forall|i: int| 0 <= i < r@.len() ==> is_base58_symbol(#[trigger] r@[i]),
{
    bs58::encode(data).into_vec()
}

/// `bs58::decode(text).into_vec()`, its error given by its display text.
#[verifier::external_body]
fn bs58_decode(text: &[u8]) -> (r: Result<Vec<u8>, String>)
    ensures
        match r {
            Ok(v) => base58_decode(text@) == Ok::<Seq<u8>, Seq<char>>(v@),
            Err(m) => base58_decode(text@) == Err::<Seq<u8>, Seq<char>>(m@),
        },
{
    bs58::decode(text).into_vec().map_err(|e| e.to_string())
}

/// The `did:key` text of a 32-byte Ed25519 public key.
pub open spec fn did_key_text(pubkey: Seq<u8>) -> Seq<u8> {
    utf8("did:key:z"@) + base58_encode(ed25519_prefix() + pubkey)
}

/// The `did:key` identifier of an Ed25519 public key.
pub fn pubkey_to_did_key(pubkey: &[u8]) -> (r: Result<String, Error>)
    ensures
        pubkey@.len() == 32 ==> (r matches Ok(s) && utf8(s@) == did_key_text(pubkey@)),
        pubkey@.len() != 32 ==> (r matches Err(e) && is_invalid(
            e,
            utf8("ed25519 pubkey must be 32 bytes, got "@) + decimal_digits(pubkey@.len()),
        )),
{
    if pubkey.len() != 32 {
        let mut m: Vec<u8> = Vec::new();
        push_str(&mut m, "ed25519 pubkey must be 32 bytes, got ");
        let d = decimal(pubkey.len() as u64);
        push_bytes(&mut m, d.as_slice());
        proof {
            lemma_decimal_ascii(pubkey@.len());
            lemma_ascii_valid_utf8(decimal_digits(pubkey@.len()));
            lemma_concat_valid_utf8(
                utf8("ed25519 pubkey must be 32 bytes, got "@),
                decimal_digits(pubkey@.len()),
            );
        }
        return Err(Error::invalid(m));
    }
    let mut buf: Vec<u8> = Vec::new();
    buf.push(0xEDu8);
    buf.push(0x01u8);
    push_bytes(&mut buf, pubkey);
    assert(buf@ =~= ed25519_prefix() + pubkey@);
    let encoded = bs58_encode(buf.as_slice());
    let mut out: Vec<u8> = Vec::new();
    push_str(&mut out, "did:key:z");
    push_bytes(&mut out, encoded.as_slice());
    proof {
        assert(is_ascii_bytes(encoded@));
        lemma_ascii_valid_utf8(encoded@);
        lemma_concat_valid_utf8(utf8("did:key:z"@), encoded@);
    }
    Ok(string_of_bytes(out))
}

/// The outcome of reading a `did:key` (given by its UTF-8 bytes): the 32
/// public-key bytes, or the message of the `Error::Invalid` returned.
pub open spec fn did_key_decode(did: Seq<u8>) -> Result<Seq<u8>, Seq<u8>> {
    let p = utf8("did:key:z"@);
    if !(p.len() <= did.len() && did.subrange(0, p.len() as int) == p) {
        Err(utf8("not a did:key (must start with \"did:key:z\"): "@) + did)
    } else {
        match base58_decode(did.subrange(p.len() as int, did.len() as int)) {
            Err(m) => Err(utf8("base58 decode: "@) + utf8(m)),
            Ok(d) => match varint_spec(d) {
                Err(VarintError::Overflow) => Err(utf8("varint overflow"@)),
                Err(VarintError::Truncated) => Err(utf8("varint truncated"@)),
                Ok((code, len)) => if code != ED25519_MULTICODEC as u64 {
                    Err(utf8("unsupported did:key multicodec 0x"@) + hex_digits(code as nat) + utf8(
                        " (want ed25519 0xed)"@,
                    ))
                } else if d.len() - len != 32 {
                    Err(utf8("did:key pubkey has wrong length "@) + decimal_digits(
                        (d.len() - len) as nat,
                    ) + utf8(" (want 32)"@))
                } else {
                    Ok(d.subrange(len as int, d.len() as int))
                },
            },
        }
    }
}

/// The Ed25519 public key named by a `did:key` identifier.
pub fn did_key_to_pubkey(did: &str) -> (r: Result<[u8; 32], Error>)
    ensures
        match did_key_decode(utf8(did@)) {
            Ok(pk) => r matches Ok(a) && a@ == pk,
            Err(m) => r matches Err(e) && is_invalid(e, m),
        },
{
    let did_bytes = did.as_bytes();
    let prefix = "did:key:z".as_bytes();
    if !starts_with(did_bytes, prefix) {
        let mut m: Vec<u8> = Vec::new();
        push_str(&mut m, "not a did:key (must start with \"did:key:z\"): ");
        push_str(&mut m, did);
        proof {
            lemma_concat_valid_utf8(
                utf8("not a did:key (must start with \"did:key:z\"): "@),
                utf8(did@),
            );
        }
        return Err(Error::invalid(m));
    }
    let tail = slice_subrange(did_bytes, prefix.len(), did_bytes.len());
    let decoded = match bs58_decode(tail) {
        Ok(d) => d,
        Err(t) => {
            let mut m: Vec<u8> = Vec::new();
            push_str(&mut m, "base58 decode: ");
            push_str(&mut m, t.as_str());
            proof {
                lemma_concat_valid_utf8(utf8("base58 decode: "@), utf8(t@));
            }
            return Err(Error::invalid(m));
        },
    };
    let (code, code_len) = match varint_decode(decoded.as_slice()) {
        Ok(v) => v,
        Err(e) => {
            return Err(e);
        },
    };
    if code != ED25519_MULTICODEC as u64 {
        let mut m: Vec<u8> = Vec::new();
        push_str(&mut m, "unsupported did:key multicodec 0x");
        let h = hex(code);
        push_bytes(&mut m, h.as_slice());
        push_str(&mut m, " (want ed25519 0xed)");
        proof {
            lemma_hex_ascii(code as nat);
            lemma_ascii_valid_utf8(hex_digits(code as nat));
            lemma_concat_valid_utf8(utf8("unsupported did:key multicodec 0x"@), hex_digits(code as nat));
            lemma_concat_valid_utf8(
                utf8("unsupported did:key multicodec 0x"@) + hex_digits(code as nat),
                utf8(" (want ed25519 0xed)"@),
            );
        }
        return Err(Error::invalid(m));
    }
    let pub_len = decoded.len() - code_len;
    let end = decoded.len();
    if pub_len != 32 {
        let mut m: Vec<u8> = Vec::new();
        push_str(&mut m, "did:key pubkey has wrong length ");
        let d = decimal(pub_len as u64);
        push_bytes(&mut m, d.as_slice());
        push_str(&mut m, " (want 32)");
        proof {
            lemma_decimal_ascii(pub_len as nat);
            lemma_ascii_valid_utf8(decimal_digits(pub_len as nat));
            lemma_concat_valid_utf8(utf8("did:key pubkey has wrong length "@), decimal_digits(pub_len as nat));
            lemma_concat_valid_utf8(
                utf8("did:key pubkey has wrong length "@) + decimal_digits(pub_len as nat),
                utf8(" (want 32)"@),
            );
        }
        return Err(Error::invalid(m));
    }
    let mut out = [0u8; 32];
    let mut i: usize = 0;
    while i < 32
        invariant
            i <= 32,
            code_len + 32 == end,
            end == decoded@.len(),
            forall|k: int| 0 <= k < i ==> out@[k] == decoded@[code_len + k],
        decreases 32 - i,
    {
        out[i] = decoded[code_len + i];
        i = i + 1;
    }
    assert(out@ =~= decoded@.subrange(code_len as int, decoded@.len() as int));
    Ok(out)
}


/// The value of an ASCII hexadecimal digit (`0`-`9`, `a`-`f`, `A`-`F`).
pub open spec fn hex_value(b: u8) -> Option<u8> {
    if 48 <= b <= 57 {
        Some((b - 48) as u8)
    } else if 97 <= b <= 102 {
        Some((b - 87) as u8)
    } else if 65 <= b <= 70 {
        Some((b - 55) as u8)
    } else {
        None
    }
}

fn hex_value_of(b: u8) -> (r: Option<u8>)
    ensures
        r == hex_value(b),
{
    if 48 <= b && b <= 57 {
        Some(b - 48)
    } else if 97 <= b && b <= 102 {
        Some(b - 87)
    } else if 65 <= b && b <= 70 {
        Some(b - 55)
    } else {
        None
    }
}

/// Percent-decoding of `b` from position `i` on: `%` followed by two
/// hexadecimal digits stands for the byte they spell; every other byte stands
/// for itself.
pub open spec fn pct_decode_from(b: Seq<u8>, i: int) -> Seq<u8>
    decreases b.len() - i,
{
    if i < 0 || i >= b.len() {
        Seq::empty()
    } else if b[i] == 37 && i + 2 < b.len() && hex_value(b[i + 1]) is Some && hex_value(
        b[i + 2],
    ) is Some {
        seq![(hex_value(b[i + 1])->0 * 16 + hex_value(b[i + 2])->0) as u8] + pct_decode_from(
            b,
            i + 3,
        )
    } else {
        seq![b[i]] + pct_decode_from(b, i + 1)
    }
}

/// The percent-decoded form of `b` when that is valid UTF-8; `b` itself otherwise.
pub open spec fn percent_decoded(b: Seq<u8>) -> Seq<u8> {
    let d = pct_decode_from(b, 0);
    if valid_utf8(d) {
        d
    } else {
        b
    }
}

/// The bytes of `b` with every `%XX` escape replaced by the byte it spells.
fn pct_decode_raw(b: &[u8]) -> (r: Vec<u8>)
    ensures
        r@ == pct_decode_from(b@, 0),
{
    let mut out: Vec<u8> = Vec::new();
    let mut i: usize = 0;
    while i < b.len()
        invariant
            i <= b@.len(),
            out@ + pct_decode_from(b@, i as int) == pct_decode_from(b@, 0),
        decreases b@.len() - i,
    {
        let ghost before = out@;
        if b[i] == 37 && b.len() - i > 2 {
            match (hex_value_of(b[i + 1]), hex_value_of(b[i + 2])) {
                (Some(h), Some(l)) => {
                    out.push(h * 16 + l);
                    assert(before + pct_decode_from(b@, i as int) =~= out@ + pct_decode_from(
                        b@,
                        i + 3,
                    ));
                    i = i + 3;
                    continue ;
                },
                _ => {},
            }
        }
        out.push(b[i]);
        assert(before + pct_decode_from(b@, i as int) =~= out@ + pct_decode_from(b@, i + 1));
        i = i + 1;
    }
    assert(out@ =~= out@ + pct_decode_from(b@, i as int));
    out
}

/// Percent-decodes `s`; when the decoded bytes are not valid UTF-8 the text
/// is returned unchanged.
pub fn percent_decode(s: &str) -> (r: String)
    ensures
        utf8(r@) == percent_decoded(utf8(s@)),
{
    let d = pct_decode_raw(s.as_bytes());
    let ghost dv = d@;
    match string_from_utf8(d) {
        Some(t) => {
            proof {
                vstd::utf8::decode_utf8_encode_utf8(dv);
            }
            t
        },
        None => s.to_owned(),
    }
}

/// Percent-decodes one piece of a `did:web` identifier.
fn percent_decode_piece(b: &[u8]) -> (r: Vec<u8>)
    requires
        valid_utf8(b@),
    ensures
        r@ == percent_decoded(b@),
        valid_utf8(r@),
{
    let d = pct_decode_raw(b);
    let ghost dv = d@;
    match string_from_utf8(d) {
        Some(t) => {
            proof {
                vstd::utf8::decode_utf8_encode_utf8(dv);
            }
            bytes_of_str(t.as_str())
        },
        None => slice_to_vec(b),
    }
}

/// The pieces of `b` between occurrences of `sep` (always at least one piece).
pub open spec fn split_pieces(b: Seq<u8>, sep: u8) -> Seq<Seq<u8>>
    decreases b.len(),
{
    if b.len() == 0 {
        seq![Seq::<u8>::empty()]
    } else {
        let rest = split_pieces(b.drop_last(), sep);
        if b.last() == sep {
            rest.push(Seq::<u8>::empty())
        } else {
            rest.update(rest.len() - 1, rest.last().push(b.last()))
        }
    }
}

pub proof fn lemma_split_pieces_nonempty(b: Seq<u8>, sep: u8)
    ensures
        split_pieces(b, sep).len() >= 1,
    decreases b.len(),
{
    if b.len() > 0 {
        lemma_split_pieces_nonempty(b.drop_last(), sep);
    }
}

/// `parts` joined with `sep` between consecutive parts.
pub open spec fn join_with(parts: Seq<Seq<u8>>, sep: Seq<u8>) -> Seq<u8>
    decreases parts.len(),
{
    if parts.len() == 0 {
        Seq::empty()
    } else if parts.len() == 1 {
        parts[0]
    } else {
        join_with(parts.drop_last(), sep) + sep + parts.last()
    }
}

/// A path segment that `did:web` resolution refuses: empty, `.` or `..`.
pub open spec fn bad_segment(p: Seq<u8>) -> bool {
    p.len() == 0 || p == seq![46u8] || p == seq![46u8, 46u8]
}

/// The percent-decoded `:`-separated pieces of a `did:web` identifier after its prefix.
pub open spec fn did_web_parts(did: Seq<u8>) -> Seq<Seq<u8>> {
    let p = utf8("did:web:"@);
    split_pieces(did.subrange(p.len() as int, did.len() as int), 58u8).map_values(
        |piece: Seq<u8>| percent_decoded(piece),
    )
}

/// The outcome of `did_web_to_url` on a `did:web` identifier given by its
/// UTF-8 bytes: the URL of its DID document, or the message of the
/// `Error::Invalid` returned.
pub open spec fn did_web_url(did: Seq<u8>) -> Result<Seq<u8>, Seq<u8>> {
    let p = utf8("did:web:"@);
    if !(p.len() <= did.len() && did.subrange(0, p.len() as int) == p) {
        Err(utf8("not a did:web: "@) + did)
    } else {
        let parts = did_web_parts(did);
        let host = parts[0];
        let rest = parts.subrange(1, parts.len() as int);
        if host.len() == 0 {
            Err(utf8("did:web missing host"@))
        } else if exists|j: int| 0 <= j < rest.len() && bad_segment(#[trigger] rest[j]) {
            Err(utf8("did:web path segment rejected: "@) + join_with(rest, seq![47u8]))
        } else if rest.len() == 0 {
            Ok(utf8("https://"@) + host + utf8("/.well-known/did.json"@))
        } else {
            Ok(utf8("https://"@) + host + seq![47u8] + join_with(rest, seq![47u8]) + utf8(
                "/did.json"@,
            ))
        }
    }
}

/// The views of a sequence of byte vectors.
pub open spec fn byte_views(v: Seq<Vec<u8>>) -> Seq<Seq<u8>> {
    v.map_values(|x: Vec<u8>| x@)
}

/// Splits valid UTF-8 bytes at every `:`.
fn split_colons(b: &[u8]) -> (r: Vec<Vec<u8>>)
    requires
        valid_utf8(b@),
    ensures
        byte_views(r@) == split_pieces(b@, 58u8),
        forall|j: int| 0 <= j < r@.len() ==> valid_utf8(#[trigger] r@[j]@),
{
    let mut pieces: Vec<Vec<u8>> = Vec::new();
    let mut start: usize = 0;
    let mut i: usize = 0;
    assert(b@.subrange(0, b@.len() as int) =~= b@);
    assert(b@.take(0) =~= Seq::<u8>::empty());
    while i < b.len()
        invariant
            start <= i <= b@.len(),
            split_pieces(b@.take(i as int), 58u8) == byte_views(pieces@).push(
                b@.subrange(start as int, i as int),
            ),
            valid_utf8(b@.subrange(start as int, b@.len() as int)),
            forall|j: int| 0 <= j < pieces@.len() ==> valid_utf8(#[trigger] pieces@[j]@),
        decreases b@.len() - i,
    {
        let ghost prev = byte_views(pieces@);
        assert(b@.take(i + 1).drop_last() =~= b@.take(i as int));
        assert(b@.take(i + 1).last() == b@[i as int]);
        if b[i] == 58 {
            let ghost suffix = b@.subrange(start as int, b@.len() as int);
            proof {
                crate::text::lemma_split_at_ascii(suffix, i - start);
                assert(suffix.subrange(0, i - start) =~= b@.subrange(start as int, i as int));
                assert(suffix.subrange(i - start + 1, suffix.len() as int) =~= b@.subrange(
                    i + 1,
                    b@.len() as int,
                ));
            }
            let piece = slice_to_vec(slice_subrange(b, start, i));
            pieces.push(piece);
            assert(byte_views(pieces@) =~= prev.push(b@.subrange(start as int, i as int)));
            start = i + 1;
            assert(b@.subrange(start as int, (i + 1) as int) =~= Seq::<u8>::empty());
        } else {
            assert(b@.subrange(start as int, (i + 1) as int) =~= b@.subrange(
                start as int,
                i as int,
            ).push(b@[i as int]));
            assert(prev.push(b@.subrange(start as int, i as int)).update(
                prev.len() as int,
                b@.subrange(start as int, i as int).push(b@[i as int]),
            ) =~= prev.push(b@.subrange(start as int, (i + 1) as int)));
        }
        i = i + 1;
    }
    let ghost prev = byte_views(pieces@);
    let last = slice_to_vec(slice_subrange(b, start, b.len()));
    pieces.push(last);
    assert(b@.take(b@.len() as int) =~= b@);
    assert(byte_views(pieces@) =~= prev.push(b@.subrange(start as int, b@.len() as int)));
    pieces
}


/// Percent-decodes every piece.
fn decode_pieces(pieces: &Vec<Vec<u8>>) -> (r: Vec<Vec<u8>>)
    requires
        forall|j: int| 0 <= j < pieces@.len() ==> valid_utf8(#[trigger] pieces@[j]@),
    ensures
        byte_views(r@) == byte_views(pieces@).map_values(|piece: Seq<u8>| percent_decoded(piece)),
        forall|j: int| 0 <= j < r@.len() ==> valid_utf8(#[trigger] r@[j]@),
{
    let mut out: Vec<Vec<u8>> = Vec::new();
    let mut i: usize = 0;
    while i < pieces.len()
        invariant
            i <= pieces@.len(),
            forall|j: int| 0 <= j < pieces@.len() ==> valid_utf8(#[trigger] pieces@[j]@),
            out@.len() == i,
            forall|j: int|
                0 <= j < i ==> #[trigger] out@[j]@ == percent_decoded(pieces@[j]@) && valid_utf8(
                    out@[j]@,
                ),
        decreases pieces@.len() - i,
    {
        let d = percent_decode_piece(pieces[i].as_slice());
        out.push(d);
        i = i + 1;
    }
    assert(byte_views(out@) =~= byte_views(pieces@).map_values(
        |piece: Seq<u8>| percent_decoded(piece),
    ));
    out
}

/// Whether some part at position `from` or later is a refused path segment.
fn has_bad_segment(parts: &Vec<Vec<u8>>, from: usize) -> (r: bool)
    requires
        from <= parts@.len(),
    ensures
        r == exists|j: int|
            0 <= j < parts@.len() - from && bad_segment(
                #[trigger] byte_views(parts@).subrange(from as int, parts@.len() as int)[j],
            ),
{
    let ghost rest = byte_views(parts@).subrange(from as int, parts@.len() as int);
    let mut i: usize = from;
    while i < parts.len()
        invariant
            from <= i <= parts@.len(),
            rest == byte_views(parts@).subrange(from as int, parts@.len() as int),
            forall|j: int| 0 <= j < i - from ==> !bad_segment(#[trigger] rest[j]),
        decreases parts@.len() - i,
    {
        let p = &parts[i];
        assert(rest[i - from] == p@);
        let bad = p.len() == 0 || (p.len() == 1 && p[0] == 46) || (p.len() == 2 && p[0] == 46
            && p[1] == 46);
        if bad {
            assert(bad_segment(p@)) by {
                if p@.len() == 1 {
                    assert(p@ =~= seq![46u8]);
                }
                if p@.len() == 2 {
                    assert(p@ =~= seq![46u8, 46u8]);
                }
            }
            return true;
        }
        assert(!bad_segment(p@)) by {
            if p@ == seq![46u8] {
                assert(p@[0] == 46);
            }
            if p@ == seq![46u8, 46u8] {
                assert(p@[0] == 46 && p@[1] == 46);
            }
        }
        i = i + 1;
    }
    false
}

/// The parts at position `from` and later, joined with `/`.
fn join_parts(parts: &Vec<Vec<u8>>, from: usize) -> (r: Vec<u8>)
    requires
        from <= parts@.len(),
        forall|j: int| 0 <= j < parts@.len() ==> valid_utf8(#[trigger] parts@[j]@),
    ensures
        r@ == join_with(byte_views(parts@).subrange(from as int, parts@.len() as int), seq![47u8]),
        valid_utf8(r@),
{
    let ghost views = byte_views(parts@);
    let mut out: Vec<u8> = Vec::new();
    let mut i: usize = from;
    assert(views.subrange(from as int, from as int) =~= Seq::<Seq<u8>>::empty());
    while i < parts.len()
        invariant
            from <= i <= parts@.len(),
            views == byte_views(parts@),
            forall|j: int| 0 <= j < parts@.len() ==> valid_utf8(#[trigger] parts@[j]@),
            out@ == join_with(views.subrange(from as int, i as int), seq![47u8]),
            valid_utf8(out@),
        decreases parts@.len() - i,
    {
        let ghost before = out@;
        let ghost sub = views.subrange(from as int, i + 1);
        assert(sub.drop_last() =~= views.subrange(from as int, i as int));
        assert(sub.last() == parts@[i as int]@);
        if i > from {
            out.push(47u8);
            proof {
                crate::text::lemma_ascii_valid_utf8(seq![47u8]);
                crate::text::lemma_concat_valid_utf8(before, seq![47u8]);
                assert(out@ =~= before + seq![47u8]);
            }
        }
        let ghost mid = out@;
        push_bytes(&mut out, parts[i].as_slice());
        proof {
            crate::text::lemma_concat_valid_utf8(mid, parts@[i as int]@);
            if i == from {
                assert(out@ =~= parts@[i as int]@);
            }
        }
        i = i + 1;
    }
    out
}

/// The URL of the DID document of a `did:web` identifier: `https://` and the
/// host, then either `/.well-known/did.json` or the path pieces and
/// `/did.json`. Each `:`-separated piece is percent-decoded.
pub fn did_web_to_url(did: &str) -> (r: Result<String, Error>)
    ensures
        match did_web_url(utf8(did@)) {
            Ok(u) => r matches Ok(s) && utf8(s@) == u,
            Err(m) => r matches Err(e) && is_invalid(e, m),
        },
{
    let b = did.as_bytes();
    let prefix = "did:web:".as_bytes();
    if !starts_with(b, prefix) {
        let mut m: Vec<u8> = Vec::new();
        push_str(&mut m, "not a did:web: ");
        push_str(&mut m, did);
        proof {
            lemma_concat_valid_utf8(utf8("not a did:web: "@), utf8(did@));
        }
        return Err(Error::invalid(m));
    }
    proof {
        reveal_strlit("did:web:");
        vstd::utf8::is_ascii_chars_encode_utf8("did:web:"@);
        assert(prefix@[7] == 58u8);
        crate::text::lemma_split_at_ascii(b@, 7);
    }
    let tail = slice_subrange(b, prefix.len(), b.len());
    let pieces = split_colons(tail);
    let parts = decode_pieces(&pieces);
    let ghost views = byte_views(parts@);
    assert(views =~= did_web_parts(b@));
    proof {
        lemma_split_pieces_nonempty(tail@, 58u8);
    }
    let host = &parts[0];
    if host.len() == 0 {
        return Err(Error::invalid_str("did:web missing host"));
    }
    if has_bad_segment(&parts, 1) {
        let joined = join_parts(&parts, 1);
        let mut m: Vec<u8> = Vec::new();
        push_str(&mut m, "did:web path segment rejected: ");
        push_bytes(&mut m, joined.as_slice());
        proof {
            lemma_concat_valid_utf8(utf8("did:web path segment rejected: "@), joined@);
        }
        return Err(Error::invalid(m));
    }
    let mut url: Vec<u8> = Vec::new();
    push_str(&mut url, "https://");
    push_bytes(&mut url, host.as_slice());
    proof {
        lemma_concat_valid_utf8(utf8("https://"@), host@);
    }
    if parts.len() == 1 {
        let ghost before = url@;
        push_str(&mut url, "/.well-known/did.json");
        proof {
            lemma_concat_valid_utf8(before, utf8("/.well-known/did.json"@));
        }
    } else {
        let joined = join_parts(&parts, 1);
        let ghost before = url@;
        url.push(47u8);
        push_bytes(&mut url, joined.as_slice());
        push_str(&mut url, "/did.json");
        proof {
            crate::text::lemma_ascii_valid_utf8(seq![47u8]);
            lemma_concat_valid_utf8(before, seq![47u8]);
            lemma_concat_valid_utf8(before + seq![47u8], joined@);
            lemma_concat_valid_utf8(before + seq![47u8] + joined@, utf8("/did.json"@));
            assert(url@ =~= before + seq![47u8] + joined@ + utf8("/did.json"@));
        }
    }
    Ok(string_of_bytes(url))
}


/// The `publicKeyMultibase` of a verification method, when the method belongs
/// to `did` (its controller is `did`, or its id starts with `did#`), is of type
/// `Ed25519VerificationKey2020`, and carries a string `publicKeyMultibase`.
pub open spec fn method_multibase(m: JsonValue, did: Seq<char>) -> Option<Seq<char>> {
    let ctrl = field_str_or_empty(m, "controller"@);
    let id = field_str_or_empty(m, "id"@);
    let belongs = ctrl == did || has_prefix(id, did + seq!['#']);
    if !belongs {
        None
    } else if field_str(m, "type"@) != Some("Ed25519VerificationKey2020"@) {
        None
    } else {
        field_str(m, "publicKeyMultibase"@)
    }
}

/// The multibase key of the first method at or after position `i` that qualifies.
pub open spec fn first_multibase(methods: Seq<JsonValue>, did: Seq<char>, i: int) -> Option<
    Seq<char>,
>
    decreases methods.len() - i,
{
    if i < 0 || i >= methods.len() {
        None
    } else {
        match method_multibase(methods[i], did) {
            Some(mb) => Some(mb),
            None => first_multibase(methods, did, i + 1),
        }
    }
}

/// The outcome of reading the Ed25519 key of `did` from a DID document: the
/// key bytes, or the message of the `Error::Invalid` returned.
pub open spec fn did_doc_key(doc: JsonValue, did: Seq<char>) -> Result<Seq<u8>, Seq<u8>> {
    match array_of(json_get(doc, "verificationMethod"@)) {
        None => Err(utf8("DID document has no verificationMethod"@)),
        Some(methods) => match first_multibase(methods, did, 0) {
            None => Err(utf8("no Ed25519 verification method found for "@) + utf8(did)),
            Some(mb) => did_key_decode(utf8("did:key:"@) + utf8(mb)),
        },
    }
}

/// The Ed25519 public key of `signer_did` in a DID document: the first of its
/// `verificationMethod`s that belongs to the signer and is an
/// `Ed25519VerificationKey2020`, its `publicKeyMultibase` read as a `did:key`.
pub fn parse_ed25519_from_did_doc(doc: &Json, signer_did: &str) -> (r: Result<[u8; 32], Error>)
    ensures
        match did_doc_key(doc.model(), signer_did@) {
            Ok(pk) => r matches Ok(a) && a@ == pk,
            Err(m) => r matches Err(e) && is_invalid(e, m),
        },
{
    let methods = match doc.get("verificationMethod") {
        Some(v) => match v.as_array() {
            Some(a) => a,
            None => {
                return Err(Error::invalid_str("DID document has no verificationMethod"));
            },
        },
        None => {
            return Err(Error::invalid_str("DID document has no verificationMethod"));
        },
    };
    let ghost ms = models(methods@);
    assert(array_of(json_get(doc.model(), "verificationMethod"@)) == Some(ms));
    let mut id_prefix: Vec<u8> = Vec::new();
    push_str(&mut id_prefix, signer_did);
    id_prefix.push(35u8);
    proof {
        crate::text::lemma_utf8_ascii_char('#');
        crate::text::lemma_utf8_concat(signer_did@, seq!['#']);
    }
    assert(id_prefix@ == utf8(signer_did@ + seq!['#']));
    let mut i: usize = 0;
    while i < methods.len()
        invariant
            i <= methods@.len(),
            ms == models(methods@),
            array_of(json_get(doc.model(), "verificationMethod"@)) == Some(ms),
            id_prefix@ == utf8(signer_did@ + seq!['#']),
            first_multibase(ms, signer_did@, 0) == first_multibase(ms, signer_did@, i as int),
        decreases methods@.len() - i,
    {
        let m = &methods[i];
        assert(ms[i as int] == m.model());
        let ctrl = field_str_or_empty_of(m, "controller");
        let id = field_str_or_empty_of(m, "id");
        let belongs = str_eq(ctrl, signer_did) || starts_with(id.as_bytes(), id_prefix.as_slice());
        if belongs {
            let type_ok = match field_str_of(m, "type") {
                Some(t) => str_eq(t, "Ed25519VerificationKey2020"),
                None => false,
            };
            if type_ok {
                match field_str_of(m, "publicKeyMultibase") {
                    Some(mb) => {
                        let mut text: Vec<u8> = Vec::new();
                        push_str(&mut text, "did:key:");
                        push_str(&mut text, mb);
                        proof {
                            lemma_concat_valid_utf8(utf8("did:key:"@), utf8(mb@));
                        }
                        let key_did = string_of_bytes(text);
                        assert(method_multibase(ms[i as int], signer_did@) == Some(mb@));
                        assert(first_multibase(ms, signer_did@, i as int) == Some(mb@));
                        return did_key_to_pubkey(key_did.as_str());
                    },
                    None => {},
                }
            }
        }
        i = i + 1;
    }
    let mut m: Vec<u8> = Vec::new();
    push_str(&mut m, "no Ed25519 verification method found for ");
    push_str(&mut m, signer_did);
    proof {
        lemma_concat_valid_utf8(utf8("no Ed25519 verification method found for "@), utf8(signer_did@));
    }
    Err(Error::invalid(m))
}


/// The Ed25519 multicodec prefix reads as the varint `0xED`, two bytes long,
/// whatever follows it.
pub proof fn lemma_ed25519_prefix_varint(rest: Seq<u8>)
    ensures
        varint_spec(ed25519_prefix() + rest) == Ok::<(u64, nat), VarintError>((0xEDu64, 2nat)),
{
    let b = ed25519_prefix() + rest;
    assert(b[0] == 0xEDu8 && b[1] == 0x01u8);
    assert(varint_last_from(b, 1) == Some(1nat));
    assert(varint_last_from(b, 0) == Some(1nat));
    lemma2_to64();
    assert(varint_sum(b, 0) == 0);
    assert(b[0] % 128 == 109);
    assert(b[1] % 128 == 1);
    assert(varint_sum(b, 1) == varint_sum(b, 0) + ((b[0] % 128) as nat) * pow2(0));
    assert(varint_sum(b, 1) == 109);
    assert(varint_sum(b, 2) == varint_sum(b, 1) + ((b[1] % 128) as nat) * pow2(7));
    assert(varint_sum(b, 2) == 237);
}

/// A `did:key` made from a 32-byte key reads back as that key, given that
/// base58 text produced by `bs58` decodes to the bytes it encodes.
pub proof fn lemma_did_key_roundtrip(pubkey: Seq<u8>)
    requires
        pubkey.len() == 32,
        base58_decode(base58_encode(ed25519_prefix() + pubkey)) == Ok::<Seq<u8>, Seq<char>>(
            ed25519_prefix() + pubkey,
        ),
    ensures
        did_key_decode(did_key_text(pubkey)) == Ok::<Seq<u8>, Seq<u8>>(pubkey),
{
    let p = utf8("did:key:z"@);
    let d = ed25519_prefix() + pubkey;
    let text = did_key_text(pubkey);
    assert(text.subrange(0, p.len() as int) =~= p);
    assert(text.subrange(p.len() as int, text.len() as int) =~= base58_encode(d));
    lemma_ed25519_prefix_varint(pubkey);
    assert(d.subrange(2, d.len() as int) =~= pubkey);
}

/// Text without `%` is left as it is by percent-decoding.
pub proof fn lemma_percent_decode_plain(b: Seq<u8>)
    requires
        valid_utf8(b),
        !b.contains(37u8),
    ensures
        percent_decoded(b) == b,
{
    lemma_pct_plain_from(b, 0);
    assert(b.subrange(0, b.len() as int) =~= b);
}

proof fn lemma_pct_plain_from(b: Seq<u8>, i: int)
    requires
        0 <= i <= b.len(),
        !b.contains(37u8),
    ensures
        pct_decode_from(b, i) == b.subrange(i, b.len() as int),
    decreases b.len() - i,
{
    if i < b.len() {
        assert(b[i] != 37u8) by {
            if b[i] == 37u8 {
                assert(b.contains(37u8));
            }
        }
        lemma_pct_plain_from(b, i + 1);
        assert(seq![b[i]] + b.subrange(i + 1, b.len() as int) =~= b.subrange(i, b.len() as int));
    } else {
        assert(b.subrange(i, b.len() as int) =~= Seq::<u8>::empty());
    }
}


proof fn lemma_first_multibase_at(methods: Seq<JsonValue>, did: Seq<char>, i: int, j: int)
    requires
        0 <= i <= j < methods.len(),
        method_multibase(methods[j], did) is Some,
        forall|k: int| i <= k < j ==> #[trigger] method_multibase(methods[k], did) is None,
    ensures
        first_multibase(methods, did, i) == method_multibase(methods[j], did),
    decreases j - i,
{
    if i < j {
        assert(method_multibase(methods[i], did) is None);
        lemma_first_multibase_at(methods, did, i + 1, j);
    }
}

proof fn lemma_first_multibase_none(methods: Seq<JsonValue>, did: Seq<char>, i: int)
    requires
        0 <= i <= methods.len(),
        forall|k: int| i <= k < methods.len() ==> #[trigger] method_multibase(methods[k], did) is None,
    ensures
        first_multibase(methods, did, i) is None,
    decreases methods.len() - i,
{
    if i < methods.len() {
        assert(method_multibase(methods[i], did) is None);
        lemma_first_multibase_none(methods, did, i + 1);
    }
}

/// The key read from a DID document is that of the first verification
/// method that belongs to the signer, is an `Ed25519VerificationKey2020` and
/// carries a `publicKeyMultibase`, read as a `did:key`; later methods are not
/// tried. When no method qualifies, the signer has no key there.
pub proof fn lemma_did_doc_first_method(doc: JsonValue, did: Seq<char>)
    ensures
        array_of(json_get(doc, "verificationMethod"@)) matches Some(ms) ==> ({
            &&& forall|j: int|
                0 <= j < ms.len() && #[trigger] method_multibase(ms[j], did) is Some && (forall|k: int|
                    0 <= k < j ==> method_multibase(ms[k], did) is None) ==> did_doc_key(doc, did)
                    == did_key_decode(utf8("did:key:"@) + utf8(method_multibase(ms[j], did)->0))
            &&& (forall|k: int| 0 <= k < ms.len() ==> method_multibase(ms[k], did) is None)
                ==> did_doc_key(doc, did) == Err::<Seq<u8>, Seq<u8>>(
                utf8("no Ed25519 verification method found for "@) + utf8(did),
            )
        }),
{
    if let Some(ms) = array_of(json_get(doc, "verificationMethod"@)) {
        assert forall|j: int|
            0 <= j < ms.len() && #[trigger] method_multibase(ms[j], did) is Some && (forall|k: int|
                0 <= k < j ==> method_multibase(ms[k], did) is None) implies did_doc_key(
            doc,
            did,
        ) == did_key_decode(utf8("did:key:"@) + utf8(method_multibase(ms[j], did)->0)) by {
            lemma_first_multibase_at(ms, did, 0, j);
        }
        if forall|k: int| 0 <= k < ms.len() ==> method_multibase(ms[k], did) is None {
            lemma_first_multibase_none(ms, did, 0);
        }
    }
}


/// The total length of some byte strings.
pub open spec fn total_len(parts: Seq<Seq<u8>>) -> nat
    decreases parts.len(),
{
    if parts.len() == 0 {
        0
    } else {
        total_len(parts.drop_last()) + parts.last().len()
    }
}

/// Joining `k >= 1` parts puts exactly one separator between every two
/// consecutive parts: the result is as long as the parts together and
/// `k - 1` separators.
pub proof fn lemma_join_with_len(parts: Seq<Seq<u8>>, sep: Seq<u8>)
    requires
        parts.len() >= 1,
    ensures
        join_with(parts, sep).len() == total_len(parts) + (parts.len() - 1) * sep.len(),
    decreases parts.len(),
{
    if parts.len() > 1 {
        lemma_join_with_len(parts.drop_last(), sep);
        assert((parts.len() - 1) * sep.len() == (parts.len() - 2) * sep.len() + sep.len())
            by (nonlinear_arith);
    } else {
        assert(total_len(parts.drop_last()) == 0);
    }
}

/// Appending bytes without the separator extends the last piece.
proof fn lemma_split_append_plain(x: Seq<u8>, b: Seq<u8>, sep: u8)
    requires
        !b.contains(sep),
    ensures
        split_pieces(x + b, sep) == split_pieces(x, sep).update(
            split_pieces(x, sep).len() - 1,
            split_pieces(x, sep).last() + b,
        ),
    decreases b.len(),
{
    lemma_split_pieces_nonempty(x, sep);
    if b.len() == 0 {
        assert(x + b =~= x);
        assert(split_pieces(x, sep).last() + b =~= split_pieces(x, sep).last());
        assert(split_pieces(x, sep).update(
            split_pieces(x, sep).len() - 1,
            split_pieces(x, sep).last(),
        ) =~= split_pieces(x, sep));
    } else {
        let b0 = b.drop_last();
        assert(!b0.contains(sep)) by {
            if b0.contains(sep) {
                let t = choose|t: int| 0 <= t < b0.len() && b0[t] == sep;
                assert(b[t] == sep);
            }
        }
        assert(b.last() != sep) by {
            assert(b[b.len() - 1] == b.last());
        }
        lemma_split_append_plain(x, b0, sep);
        assert((x + b).drop_last() =~= x + b0);
        assert((x + b).last() == b.last());
        let sp = split_pieces(x, sep);
        let r0 = sp.update(sp.len() - 1, sp.last() + b0);
        assert((sp.last() + b0).push(b.last()) =~= sp.last() + b);
        assert(r0.update(r0.len() - 1, r0.last().push(b.last())) =~= sp.update(
            sp.len() - 1,
            sp.last() + b,
        ));
    }
}

/// Splitting the parts joined by a separator that none of them holds gives
/// back the parts, one piece for each.
pub proof fn lemma_split_join(parts: Seq<Seq<u8>>, sep: u8)
    requires
        parts.len() >= 1,
        forall|k: int| 0 <= k < parts.len() ==> !(#[trigger] parts[k]).contains(sep),
    ensures
        split_pieces(join_with(parts, seq![sep]), sep) == parts,
    decreases parts.len(),
{
    let last = parts.last();
    assert(!last.contains(sep)) by {
        assert(parts[parts.len() - 1] == last);
    }
    if parts.len() == 1 {
        lemma_split_append_plain(Seq::empty(), last, sep);
        assert(Seq::<u8>::empty() + last =~= last);
        assert(Seq::<u8>::empty() + last =~= parts[0]);
        assert(split_pieces(Seq::empty(), sep).update(0, Seq::<u8>::empty() + last) =~= parts);
    } else {
        let init = parts.drop_last();
        assert forall|k: int| 0 <= k < init.len() implies !(#[trigger] init[k]).contains(sep) by {
            assert(init[k] == parts[k]);
        }
        lemma_split_join(init, sep);
        let a = join_with(init, seq![sep]);
        let with_sep = a + seq![sep];
        assert(with_sep.drop_last() =~= a);
        assert(with_sep.last() == sep);
        assert(split_pieces(with_sep, sep) == init.push(Seq::<u8>::empty()));
        lemma_split_append_plain(with_sep, last, sep);
        assert(join_with(parts, seq![sep]) =~= with_sep + last);
        assert(Seq::<u8>::empty() + last =~= last);
        assert(init.push(Seq::<u8>::empty()).update(init.len() as int, last) =~= parts);
    }
}

/// A `did:key` is read as an Ed25519 key only when its multicodec is
/// Ed25519 (0xED): the decoded bytes start with the varint 0xED, and the key
/// is the 32 bytes after it. Any other multicodec is refused.
pub proof fn lemma_did_key_only_ed25519(did: Seq<u8>)
    ensures
        did_key_decode(did) matches Ok(pk) ==> {
            let p = utf8("did:key:z"@);
            &&& p.len() <= did.len()
            &&& did.subrange(0, p.len() as int) == p
            &&& base58_decode(did.subrange(p.len() as int, did.len() as int)) matches Ok(d)
            &&& varint_spec(d) matches Ok((code, n))
            &&& code == 0xEDu64
            &&& pk == d.subrange(n as int, d.len() as int)
            &&& pk.len() == 32
        },
        ({
            let p = utf8("did:key:z"@);
            p.len() <= did.len() && did.subrange(0, p.len() as int) == p && (base58_decode(
                did.subrange(p.len() as int, did.len() as int),
            ) matches Ok(d) && varint_spec(d) matches Ok((code, _)) && code != 0xEDu64)
        }) ==> did_key_decode(did) is Err,
{
}

/// A verification method whose id is `did#...` belongs to `did`, whatever
/// its controller says; so does one whose controller is `did`. Such a method
/// of type `Ed25519VerificationKey2020` with a string `publicKeyMultibase`
/// supplies that multibase key; a method belonging to neither is skipped.
pub proof fn lemma_method_belongs(m: JsonValue, did: Seq<char>)
    ensures
        (has_prefix(field_str_or_empty(m, "id"@), did + seq!['#']) || field_str_or_empty(
            m,
            "controller"@,
        ) == did) && field_str(m, "type"@) == Some("Ed25519VerificationKey2020"@) ==> method_multibase(
            m,
            did,
        ) == field_str(m, "publicKeyMultibase"@),
        !has_prefix(field_str_or_empty(m, "id"@), did + seq!['#']) && field_str_or_empty(
            m,
            "controller"@,
        ) != did ==> method_multibase(m, did) is None,
{
}

/// The key of a signer is read from a DID document whose first method has
/// an id `did#...`, whatever controller that method names.
pub proof fn lemma_did_doc_key_by_id(doc: JsonValue, did: Seq<char>)
    requires
        array_of(json_get(doc, "verificationMethod"@)) matches Some(ms) && ms.len() > 0 && has_prefix(
            field_str_or_empty(ms[0], "id"@),
            did + seq!['#'],
        ) && field_str(ms[0], "type"@) == Some("Ed25519VerificationKey2020"@) && field_str(
            ms[0],
            "publicKeyMultibase"@,
        ) is Some,
    ensures
        ({
            let ms = array_of(json_get(doc, "verificationMethod"@))->0;
            did_doc_key(doc, did) == did_key_decode(
                utf8("did:key:"@) + utf8(field_str(ms[0], "publicKeyMultibase"@)->0),
            )
        }),
{
    let ms = array_of(json_get(doc, "verificationMethod"@))->0;
    lemma_method_belongs(ms[0], did);
    lemma_did_doc_first_method(doc, did);
}


/// The URL of a `did:web` with path segments is `https://`, the host, `/`,
/// the path and `/did.json`, where the path holds every decoded segment in
/// order with exactly one `/` between consecutive ones: it is as long as the
/// segments and the separators together, and (when no segment holds a `/`)
/// splitting it at `/` gives the segments back.
pub proof fn lemma_did_web_path_segments(did: Seq<u8>)
    requires
        did_web_url(did) is Ok,
        did_web_parts(did).len() > 1,
    ensures
        ({
            let parts = did_web_parts(did);
            let rest = parts.subrange(1, parts.len() as int);
            let path = join_with(rest, seq![47u8]);
            &&& did_web_url(did) == Ok::<Seq<u8>, Seq<u8>>(
                utf8("https://"@) + parts[0] + seq![47u8] + path + utf8("/did.json"@),
            )
            &&& path.len() == total_len(rest) + (rest.len() - 1)
            &&& (forall|k: int| 0 <= k < rest.len() ==> !(#[trigger] rest[k]).contains(47u8))
                ==> split_pieces(path, 47u8) == rest
        }),
{
    let parts = did_web_parts(did);
    let rest = parts.subrange(1, parts.len() as int);
    let path = join_with(rest, seq![47u8]);
    assert(did_web_url(did) == Ok::<Seq<u8>, Seq<u8>>(
        utf8("https://"@) + parts[0] + seq![47u8] + path + utf8("/did.json"@),
    ));
    lemma_join_with_len(rest, seq![47u8]);
    assert(seq![47u8].len() == 1);
    assert((rest.len() - 1) * 1 == rest.len() - 1);
    assert(path.len() == total_len(rest) + (rest.len() - 1));
    if forall|k: int| 0 <= k < rest.len() ==> !(#[trigger] rest[k]).contains(47u8) {
        lemma_split_join(rest, 47u8);
    }
}

} // verus!
