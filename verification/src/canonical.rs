//! RFC 8785 (JCS) canonical encoding, computed by `serde_jcs`.
use vstd::prelude::*;

use crate::error::{is_invalid, Error};
use crate::json::{Json, JsonNumber, JsonValue};
use crate::text::{bytes_of_str, push_str, utf8};

verus! {

#[verifier::external_type_specification]
#[verifier::external_body]
pub struct ExJsonValue(serde_json::Value);

/// What `serde_jcs::to_string` returns for the `serde_json::Value` holding the
/// JSON value `value` (of members with the same name, the first, as
/// `json_get` reads it): the canonical text as UTF-8 bytes, or the text of
/// the error it reports.
pub uninterp spec fn jcs_result(value: JsonValue) -> Result<Seq<u8>, Seq<char>>;

/// The `serde_json::Value` holding the same JSON value: one variant of
/// `serde_json::Value` per variant of `Json`, members inserted from the last
/// to the first, so that of members with the same name the first is kept.
#[verifier::external_body]
fn serde_value(value: &Json) -> serde_json::Value {
    match value {
        Json::Null => serde_json::Value::Null,
        Json::Bool(b) => serde_json::Value::Bool(*b),
        Json::Number(JsonNumber::PosInt(u)) => serde_json::Value::from(*u),
        Json::Number(JsonNumber::NegInt(i)) => serde_json::Value::from(*i),
        Json::Str(s) => serde_json::Value::String(s.clone()),
        Json::Array(items) => serde_json::Value::Array(items.iter().map(serde_value).collect()),
        Json::Object(entries) => serde_json::Value::Object(
            entries.iter().rev().map(|(k, v)| (k.clone(), serde_value(v))).collect(),
        ),
    }
}

/// `serde_jcs::to_string` on the value: the result is what `jcs_result` names,
/// the error reported by its text.
#[verifier::external_body]
fn jcs_to_string(value: &Json) -> (r: Result<String, String>)
    ensures
        match r {
            Ok(s) => jcs_result(value.model()) == Ok::<Seq<u8>, Seq<char>>(utf8(s@)),
            Err(t) => jcs_result(value.model()) == Err::<Seq<u8>, Seq<char>>(t@),
        },
{
    serde_jcs::to_string(&serde_value(value)).map_err(|e| e.to_string())
}

/// The outcome of `canonical_encode`: the canonical bytes, or the message of
/// the `Error::Invalid` it returns.
pub open spec fn canonical_result(value: JsonValue) -> Result<Seq<u8>, Seq<u8>> {
    match jcs_result(value) {
        Ok(b) => Ok(b),
        Err(t) => Err(utf8("jcs: "@) + utf8(t)),
    }
}

/// The RFC 8785 canonical encoding of a JSON value.
pub fn canonical_encode(value: &Json) -> (r: Result<Vec<u8>, Error>)
    ensures
        match canonical_result(value.model()) {
            Ok(b) => r matches Ok(v) && v@ == b,
            Err(m) => r matches Err(e) && is_invalid(e, m),
        },
{
    match jcs_to_string(value) {
        Ok(s) => Ok(bytes_of_str(s.as_str())),
        Err(t) => {
            let mut m: Vec<u8> = Vec::new();
            push_str(&mut m, "jcs: ");
            push_str(&mut m, t.as_str());
            proof {
                vstd::utf8::encode_utf8_valid_utf8("jcs: "@);
                vstd::utf8::encode_utf8_valid_utf8(t@);
                crate::text::lemma_concat_valid_utf8(utf8("jcs: "@), utf8(t@));
            }
            Err(Error::invalid(m))
        },
    }
}

} // verus!
