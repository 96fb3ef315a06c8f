//! Ed25519 signature checks and the base64 transport encoding of signatures.
use vstd::arithmetic::power2::pow2;
use vstd::prelude::*;

use crate::cid::byte_or_zero;


verus! {

/// Whether `ed25519_dalek::VerifyingKey::from_bytes` accepts the 32 bytes as
/// a compressed Edwards point.
pub uninterp spec fn ed25519_key_accepted(pubkey: Seq<u8>) -> bool;

/// Whether `ed25519_dalek`'s `Verifier::verify` accepts the 64-byte signature
/// `sig` on `message` under the public key `pubkey`.
pub uninterp spec fn ed25519_signature_valid(pubkey: Seq<u8>, message: Seq<u8>, sig: Seq<u8>) -> bool;

/// Decodes the public key with `ed25519_dalek::VerifyingKey::from_bytes` and,
/// when it decodes, checks the signature with `Verifier::verify` on the
/// `ed25519_dalek::Signature` holding the 64 bytes of `sig`: `None` when the
/// key does not decode, else whether the signature verifies.
#[verifier::external_body]
fn ed25519_verify(pubkey: &[u8; 32], message: &[u8], sig: &[u8]) -> (r: Option<bool>)
    requires
        sig@.len() == 64,
    ensures
        r is Some <==> ed25519_key_accepted(pubkey@),
        r matches Some(ok) ==> ok == ed25519_signature_valid(pubkey@, message@, sig@),
{
    match ed25519_dalek::VerifyingKey::from_bytes(pubkey) {
        Ok(vk) => {
            let bytes: [u8; 64] = sig.try_into().unwrap_or([0u8; 64]);
            let signature = ed25519_dalek::Signature::from_bytes(&bytes);
            Some(ed25519_dalek::Verifier::verify(&vk, message, &signature).is_ok())
        },
        Err(_) => None,
    }
}

/// Whether `sig` is a valid Ed25519 signature of `message` under `pubkey`.
pub open spec fn signature_ok(sig: Seq<u8>, message: Seq<u8>, pubkey: Seq<u8>) -> bool {
    &&& ed25519_key_accepted(pubkey)
    &&& sig.len() == 64
    &&& ed25519_signature_valid(pubkey, message, sig)
}

/// Checks an Ed25519 signature: false when the key is not a valid point, the
/// signature is not 64 bytes long, or it does not verify.
pub fn verify_bytes(sig: &[u8], message: &[u8], pubkey: &[u8; 32]) -> (r: bool)
    ensures
        r == signature_ok(sig@, message@, pubkey@),
{
    if sig.len() != 64 {
        return false;
    }
    match ed25519_verify(pubkey, message, sig) {
        Some(ok) => ok,
        None => false,
    }
}

/// The 6-bit group `i` of `data`, bits read most significant first, zero
/// bits past the end of `data`.
pub open spec fn base64_group(data: Seq<u8>, i: int) -> int {
    let p = (6 * i) / 8;
    let off = (6 * i) % 8;
    ((byte_or_zero(data, p) * 256 + byte_or_zero(data, p + 1)) / (pow2((10 - off) as nat) as int))
        % 64
}

/// The symbol of a 6-bit value in the RFC 4648 base64 alphabet
/// `A`-`Z`, `a`-`z`, `0`-`9`, `+`, `/`.
pub open spec fn base64_symbol(v: int) -> char {
    if v < 26 {
        (65 + v) as char
    } else if v < 52 {
        (71 + v) as char
    } else if v < 62 {
        (v - 4) as char
    } else if v == 62 {
        '+'
    } else {
        '/'
    }
}

/// RFC 4648 base64 with padding: one symbol for each started group of six
/// bits, then `=` up to a multiple of four symbols.
pub open spec fn base64_text(data: Seq<u8>) -> Seq<char> {
    Seq::new(
        (4 * ((data.len() + 2) / 3)) as nat,
        |i: int|
            if i < (8 * data.len() + 5) / 6 {
                base64_symbol(base64_group(data, i))
            } else {
                '='
            },
    )
}

/// What the `STANDARD` engine's `decode` returns for `text`: the decoded
/// bytes, or the display text of its `DecodeError`.
pub uninterp spec fn base64_decode(text: Seq<char>) -> Result<Seq<u8>, Seq<char>>;

/// The padded base64 text of `data` (`base64` `STANDARD` engine's `encode`:
/// standard alphabet, most significant bit first, `=` padding), four symbols
/// per started group of three bytes (`encoded_len`; encoding panics only
/// when that length overflows `usize`).
#[verifier::external_body]
pub fn b64encode(data: &[u8]) -> (r: String)
    requires
        4 * ((data@.len() + 2) / 3) <= usize::MAX,
    ensures
        r@ == base64_text(data@),
        r@.len() == 4 * ((data@.len() + 2) / 3),
{
    <base64::engine::GeneralPurpose as base64::Engine>::encode(
        &base64::engine::general_purpose::STANDARD,
        data,
    )
}

/// Why base64 text could not be decoded.
#[derive(Debug)]
pub struct DecodeError {
    /// The decoder's description of the problem.
    pub message: String,
}

/// Decodes padded base64 text (`base64` `STANDARD` engine's `decode`), its
/// error carried by its display text.
#[verifier::external_body]
pub fn b64decode(s: &str) -> (r: Result<Vec<u8>, DecodeError>)
    ensures
        match r {
            Ok(v) => base64_decode(s@) == Ok::<Seq<u8>, Seq<char>>(v@),
            Err(e) => base64_decode(s@) == Err::<Seq<u8>, Seq<char>>(e.message@),
        },
{
    <base64::engine::GeneralPurpose as base64::Engine>::decode(
        &base64::engine::general_purpose::STANDARD,
        s.as_bytes(),
    ).map_err(|e| DecodeError { message: e.to_string() })
}

} // verus!
