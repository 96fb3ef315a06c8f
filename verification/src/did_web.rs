//! The decisions of a `did:web` key fetch: which URL, which answers are
//! refused, and the key read from the fetched document. The fetch itself is
//! the caller's (HTTPS only, with a timeout).
use vstd::prelude::*;

use crate::did::{did_doc_key, did_web_to_url, did_web_url, parse_ed25519_from_did_doc};
use crate::json::{Json, JsonNumber, JsonValue};
use crate::error::{is_invalid, Error};
use crate::text::{lemma_concat_valid_utf8, push_bytes, push_str, starts_with, utf8};

verus! {

broadcast use vstd::utf8::encode_utf8_valid_utf8;

/// How long a `did:web` fetch may take by default, in milliseconds.
pub const DEFAULT_TIMEOUT_MS: u64 = 5000;

/// The largest DID document accepted by default, in bytes.
pub const DEFAULT_SIZE_LIMIT: usize = 64 * 1024;

/// The outcome of `did_web_fetch_url`: the HTTPS URL of the DID document, or
/// the message of the `Error::Invalid` returned.
pub open spec fn fetch_url(did: Seq<u8>) -> Result<Seq<u8>, Seq<u8>> {
    match did_web_url(did) {
        Ok(u) => {
            let p = utf8("https://"@);
            if p.len() <= u.len() && u.subrange(0, p.len() as int) == p {
                Ok(u)
            } else {
                Err(utf8("did:web requires https://, got "@) + u)
            }
        },
        Err(m) => Err(m),
    }
}

/// The URL to fetch the DID document of a `did:web` identifier from, which
/// must be an `https://` URL.
pub fn did_web_fetch_url(did: &str) -> (r: Result<String, Error>)
    ensures
        match fetch_url(utf8(did@)) {
            Ok(u) => r matches Ok(s) && utf8(s@) == u,
            Err(m) => r matches Err(e) && is_invalid(e, m),
        },
{
    let url = match did_web_to_url(did) {
        Ok(u) => u,
        Err(e) => {
            return Err(e);
        },
    };
    if !starts_with(url.as_str().as_bytes(), "https://".as_bytes()) {
        let mut m: Vec<u8> = Vec::new();
        push_str(&mut m, "did:web requires https://, got ");
        push_bytes(&mut m, url.as_str().as_bytes());
        proof {
            lemma_concat_valid_utf8(utf8("did:web requires https://, got "@), utf8(url@));
        }
        return Err(Error::invalid(m));
    }
    Ok(url)
}

/// Whether an HTTP status is a success (2xx).
pub open spec fn is_success(status: u16) -> bool {
    200 <= status <= 299
}

/// Refuses a DID document response whose status is not a success.
pub fn check_did_web_status(did: &str, status: u16) -> (r: Result<(), Error>)
    ensures
        is_success(status) ==> r is Ok,
        !is_success(status) ==> (r matches Err(Error::DidWebHttp(d, s)) && d@ == did@ && s
            == status),
{
    if 200 <= status && status <= 299 {
        Ok(())
    } else {
        Err(Error::DidWebHttp(did.to_owned(), status))
    }
}

/// Refuses a DID document larger than `size_limit` bytes.
pub fn check_did_web_size(body_len: usize, size_limit: usize) -> (r: Result<(), Error>)
    ensures
        body_len <= size_limit ==> r is Ok,
        body_len > size_limit ==> r == Err::<(), Error>(
            Error::DidWebTooLarge { size: body_len, limit: size_limit },
        ),
{
    if body_len > size_limit {
        Err(Error::DidWebTooLarge { size: body_len, limit: size_limit })
    } else {
        Ok(())
    }
}


/// What `serde_json::from_slice::<serde_json::Value>` gives for `bytes`: the
/// document (nothing when it holds a number that is not an integer within
/// `i64` or `u64`, which the library cannot hold), or the text of the error.
pub uninterp spec fn json_text_value(bytes: Seq<u8>) -> Result<Option<JsonValue>, Seq<char>>;

/// The library's form of a number held in a `serde_json::Value`: `PosInt`
/// when it is a `u64`, else `NegInt` when it is an `i64`, else nothing.
#[verifier::external_body]
fn json_number_of(n: &serde_json::Value) -> Option<JsonNumber> {
    match (n.as_u64(), n.as_i64()) {
        (Some(u), _) => Some(JsonNumber::PosInt(u)),
        (None, Some(i)) => Some(JsonNumber::NegInt(i)),
        _ => None,
    }
}

/// The library's form of a `serde_json::Value`, one variant for one; `None`
/// when a number is neither a `u64` nor an `i64`.
#[verifier::external_body]
fn json_of_value(v: &serde_json::Value) -> Option<Json> {
    Some(match v {
        serde_json::Value::Null => Json::Null,
        serde_json::Value::Bool(b) => Json::Bool(*b),
        serde_json::Value::Number(_) => Json::Number(json_number_of(v)?),
        serde_json::Value::String(s) => Json::Str(s.clone()),
        serde_json::Value::Array(a) => Json::Array(a.iter().map(json_of_value).collect::<Option<_>>()?),
        serde_json::Value::Object(o) => Json::Object(
            o.iter().map(|(k, v)| Some((k.clone(), json_of_value(v)?))).collect::<Option<_>>()?,
        ),
    })
}

/// `serde_json::from_slice::<serde_json::Value>`: the JSON document in
/// `bytes` in the library's form, or the text of the parse error.
#[verifier::external_body]
fn json_from_slice(bytes: &[u8]) -> (r: Result<Option<Json>, String>)
    ensures
        match r {
            Ok(Some(j)) => json_text_value(bytes@) == Ok::<Option<JsonValue>, Seq<char>>(
                Some(j.model()),
            ),
            Ok(None) => json_text_value(bytes@) == Ok::<Option<JsonValue>, Seq<char>>(None),
            Err(t) => json_text_value(bytes@) == Err::<Option<JsonValue>, Seq<char>>(t@),
        },
{
    match serde_json::from_slice::<serde_json::Value>(bytes) {
        Ok(v) => Ok(json_of_value(&v)),
        Err(e) => Err(e.to_string()),
    }
}

/// The message of the `Error::Json` for a document holding a number the
/// library cannot hold.
pub open spec fn unsupported_number_message() -> Seq<char> {
    "non-integral numbers are not supported"@
}

/// The Ed25519 key of `did` in a fetched DID document: the body must be at
/// most `size_limit` bytes and JSON text, and the key is read from the
/// document as `parse_ed25519_from_did_doc` reads it.
pub fn did_web_doc_key(did: &str, body: &[u8], size_limit: usize) -> (r: Result<[u8; 32], Error>)
    ensures
        body@.len() > size_limit ==> r == Err::<[u8; 32], Error>(
            Error::DidWebTooLarge { size: body@.len() as usize, limit: size_limit },
        ),
        body@.len() <= size_limit ==> match json_text_value(body@) {
            Err(t) => r matches Err(Error::Json(m)) && m@ == t,
            Ok(None) => r matches Err(Error::Json(m)) && m@ == unsupported_number_message(),
            Ok(Some(doc)) => match did_doc_key(doc, did@) {
                Ok(pk) => r matches Ok(a) && a@ == pk,
                Err(m) => r matches Err(e) && is_invalid(e, m),
            },
        },
{
    match check_did_web_size(body.len(), size_limit) {
        Ok(()) => {},
        Err(e) => {
            return Err(e);
        },
    }
    match json_from_slice(body) {
        Err(t) => Err(Error::Json(t)),
        Ok(None) => Err(Error::Json("non-integral numbers are not supported".to_owned())),
        Ok(Some(doc)) => parse_ed25519_from_did_doc(&doc, did),
    }
}

/// Every URL `did_web_to_url` produces is an `https://` URL, so the HTTPS
/// requirement of a fetch never refuses one.
pub proof fn lemma_did_web_urls_are_https(did: Seq<u8>)
    ensures
        did_web_url(did) matches Ok(u) ==> ({
            let p = utf8("https://"@);
            p.len() <= u.len() && u.subrange(0, p.len() as int) == p
        }),
        fetch_url(did) == did_web_url(did),
{
    let p = utf8("https://"@);
    if let Ok(u) = did_web_url(did) {
        assert(u.subrange(0, p.len() as int) =~= p);
    }
}

} // verus!
