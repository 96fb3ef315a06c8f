//! Building manifests.
//!
//! Building runs in two steps around signing, which the caller performs
//! (signers are the caller's own, possibly remote, keys): `build_unsigned`
//! fills in the manifest and hands out the canonical bytes to sign;
//! `attach_signatures` adds the signatures in signer order.
use vstd::prelude::*;

use crate::canonical::{canonical_encode, canonical_result};
use crate::cid::{bytes_to_cid, cid_string};
use crate::error::{is_invalid, Error};
use crate::json::{entry_models, lemma_array_model, lemma_object_model, models, Json, JsonNumber, JsonValue};
use crate::schema::{MANIFEST_VERSION, SIG_ALG};
use crate::sign::{b64encode, base64_text};
use crate::types::{BuildOpts, Signature, SignerInput};
use crate::text::utf8;

verus! {

/// The `created_at` a manifest gets: the given one, else `now_iso`.
pub open spec fn created_at_of(opts: BuildOpts, now_iso: Seq<char>) -> Seq<char> {
    match opts.created_at {
        Some(c) => c@,
        None => now_iso,
    }
}

/// The members of the manifest built over `data`, before signing.
pub open spec fn unsigned_entries(data: Seq<u8>, opts: BuildOpts, now_iso: Seq<char>) -> Seq<
    (Seq<char>, JsonValue),
> {
    let base = seq![
        ("v"@, JsonValue::Str(MANIFEST_VERSION@)),
        ("cid"@, JsonValue::Str(cid_string(data))),
        ("size"@, JsonValue::Number(data.len() as int)),
        ("media_type"@, JsonValue::Str(opts.media_type@)),
        ("schema_uri"@, JsonValue::Str(opts.schema_uri@)),
        ("producer"@, JsonValue::Str(opts.producer_did@)),
        ("created_at"@, JsonValue::Str(created_at_of(opts, now_iso))),
    ];
    let parent: Seq<(Seq<char>, JsonValue)> = match opts.parent_cid {
        Some(p) => seq![("parent_cid"@, JsonValue::Str(p@))],
        None => Seq::empty(),
    };
    let retention: Seq<(Seq<char>, JsonValue)> = match opts.retention {
        Some(r) => seq![("retention"@, r.json_model())],
        None => Seq::empty(),
    };
    base + parent + retention
}

/// A manifest before signing, and the canonical bytes its signers sign.
#[derive(Debug)]
pub struct UnsignedManifest {
    pub entries: Vec<(String, Json)>,
    pub canonical: Vec<u8>,
}

/// Fills in the manifest over `data`: version, CID, size, media type, schema,
/// producer, creation time (`now_iso` unless given), and the optional parent
/// and retention hints; and computes the canonical bytes to sign. At least
/// one signer is required.
pub fn build_unsigned(data: &[u8], opts: &BuildOpts, now_iso: &str) -> (r: Result<
    UnsignedManifest,
    Error,
>)
    ensures
        opts.signers@.len() == 0 ==> (r matches Err(e) && is_invalid(
            e,
            utf8("build requires at least one signer"@),
        )),
        opts.signers@.len() != 0 ==> match canonical_result(
            JsonValue::Object(unsigned_entries(data@, *opts, now_iso@)),
        ) {
            Ok(b) => r matches Ok(u) && entry_models(u.entries@) == unsigned_entries(
                data@,
                *opts,
                now_iso@,
            ) && u.canonical@ == b,
            Err(m) => r matches Err(e) && is_invalid(e, m),
        },
{
    if opts.signers.len() == 0 {
        return Err(Error::invalid_str("build requires at least one signer"));
    }
    let cid = bytes_to_cid(data);
    let created_at = match &opts.created_at {
        Some(c) => c.clone(),
        None => now_iso.to_owned(),
    };
    let mut entries: Vec<(String, Json)> = Vec::new();
    entries.push(("v".to_owned(), Json::Str(MANIFEST_VERSION.to_owned())));
    entries.push(("cid".to_owned(), Json::Str(cid)));
    entries.push(("size".to_owned(), Json::Number(JsonNumber::PosInt(data.len() as u64))));
    entries.push(("media_type".to_owned(), Json::Str(opts.media_type.clone())));
    entries.push(("schema_uri".to_owned(), Json::Str(opts.schema_uri.clone())));
    entries.push(("producer".to_owned(), Json::Str(opts.producer_did.clone())));
    entries.push(("created_at".to_owned(), Json::Str(created_at)));
    if let Some(p) = &opts.parent_cid {
        entries.push(("parent_cid".to_owned(), Json::Str(p.clone())));
    }
    if let Some(ret) = &opts.retention {
        entries.push(("retention".to_owned(), ret.to_json()));
    }
    assert(entry_models(entries@) =~= unsigned_entries(data@, *opts, now_iso@));
    let unsigned = Json::Object(entries);
    proof {
        lemma_object_model(entries);
    }
    let canonical = match canonical_encode(&unsigned) {
        Ok(b) => b,
        Err(e) => {
            return Err(e);
        },
    };
    match unsigned {
        Json::Object(entries) => Ok(UnsignedManifest { entries, canonical }),
        _ => vstd::pervasive::unreached(),
    }
}

/// The signature entry of a signer: its DID, `ed25519`, and the base64 text
/// of its signature bytes.
pub open spec fn signature_entry(did: Seq<char>, sig: Seq<u8>) -> JsonValue {
    JsonValue::Object(
        seq![
            ("signer_did"@, JsonValue::Str(did)),
            ("alg"@, JsonValue::Str(SIG_ALG@)),
            ("sig"@, JsonValue::Str(base64_text(sig))),
        ],
    )
}

/// The signature entries of the signers, in order.
pub open spec fn signature_entries(signers: Seq<SignerInput>, sigs: Seq<Seq<u8>>) -> Seq<JsonValue> {
    Seq::new(signers.len(), |j: int| signature_entry(signers[j].did@, sigs[j]))
}

/// Base64 of `n` bytes fits in memory.
pub open spec fn encodable_len(n: nat) -> bool {
    4 * ((n + 2) / 3) <= usize::MAX
}

/// The signed manifest: the unsigned members and `sigs`, one entry per
/// signer, holding the signer's DID, `ed25519` and its signature in base64.
pub fn attach_signatures(
    unsigned: UnsignedManifest,
    signers: &Vec<SignerInput>,
    sigs: Vec<Vec<u8>>,
) -> (r: Json)
    requires
        signers@.len() == sigs@.len(),
        forall|j: int| 0 <= j < sigs@.len() ==> encodable_len(#[trigger] sigs@[j]@.len()),
    ensures
        r.model() == JsonValue::Object(
            entry_models(unsigned.entries@).push(
                (
                    "sigs"@,
                    JsonValue::Array(
                        signature_entries(signers@, sigs@.map_values(|s: Vec<u8>| s@)),
                    ),
                ),
            ),
        ),
{
    let ghost sv = sigs@.map_values(|s: Vec<u8>| s@);
    let mut items: Vec<Json> = Vec::new();
    let mut j: usize = 0;
    while j < signers.len()
        invariant
            j <= signers@.len(),
            signers@.len() == sigs@.len(),
            sv == sigs@.map_values(|s: Vec<u8>| s@),
            forall|k: int| 0 <= k < sigs@.len() ==> encodable_len(#[trigger] sigs@[k]@.len()),
            items@.len() == j,
            forall|k: int|
                0 <= k < j ==> #[trigger] items@[k].model() == signature_entry(
                    signers@[k].did@,
                    sv[k],
                ),
        decreases signers@.len() - j,
    {
        let text = b64encode(sigs[j].as_slice());
        let entry = Signature {
            signer_did: signers[j].did.clone(),
            alg: SIG_ALG.to_owned(),
            sig: text,
        };
        let item = entry.to_json();
        items.push(item);
        j = j + 1;
    }
    proof {
        lemma_array_model(items);
        assert(models(items@) =~= signature_entries(signers@, sv));
    }
    let UnsignedManifest { entries, canonical } = unsigned;
    let mut entries = entries;
    let ghost before = entries@;
    entries.push(("sigs".to_owned(), Json::Array(items)));
    proof {
        lemma_object_model(entries);
        assert(entry_models(entries@) =~= entry_models(before).push(
            ("sigs"@, JsonValue::Array(signature_entries(signers@, sv))),
        ));
    }
    Json::Object(entries)
}

} // verus!
