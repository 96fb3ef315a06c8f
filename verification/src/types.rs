//! The public data types of manifests, building and verification.
use vstd::prelude::*;

use crate::json::{entry_models, lemma_object_model, Json, JsonValue};

verus! {

/// One signature entry of a manifest.
#[derive(Debug, Clone)]
pub struct Signature {
    pub signer_did: String,
    pub alg: String,
    pub sig: String,
}

impl Signature {
    /// The JSON object `{"signer_did": .., "alg": .., "sig": ..}`.
    pub open spec fn json_model(&self) -> JsonValue {
        JsonValue::Object(
            seq![
                ("signer_did"@, JsonValue::Str(self.signer_did@)),
                ("alg"@, JsonValue::Str(self.alg@)),
                ("sig"@, JsonValue::Str(self.sig@)),
            ],
        )
    }

    /// This entry as a JSON object.
    pub fn to_json(&self) -> (j: Json)
        ensures
            j.model() == self.json_model(),
    {
        let mut entries: Vec<(String, Json)> = Vec::new();
        entries.push(("signer_did".to_owned(), Json::Str(self.signer_did.clone())));
        entries.push(("alg".to_owned(), Json::Str(self.alg.clone())));
        entries.push(("sig".to_owned(), Json::Str(self.sig.clone())));
        proof {
            lemma_object_model(entries);
            assert(entry_models(entries@) =~= seq![
                ("signer_did"@, JsonValue::Str(self.signer_did@)),
                ("alg"@, JsonValue::Str(self.alg@)),
                ("sig"@, JsonValue::Str(self.sig@)),
            ]);
        }
        Json::Object(entries)
    }
}

/// Retention hints of an artifact: advisory staleness and hard expiry (RFC 3339 times).
#[derive(Debug, Clone)]
pub struct Retention {
    pub stale_after: Option<String>,
    pub expires_at: Option<String>,
}

impl Retention {
    /// The JSON object of the hints that are present, `stale_after` first.
    pub open spec fn json_model(&self) -> JsonValue {
        let stale: Seq<(Seq<char>, JsonValue)> = match self.stale_after {
            Some(s) => seq![("stale_after"@, JsonValue::Str(s@))],
            None => Seq::empty(),
        };
        let expires: Seq<(Seq<char>, JsonValue)> = match self.expires_at {
            Some(s) => seq![("expires_at"@, JsonValue::Str(s@))],
            None => Seq::empty(),
        };
        JsonValue::Object(stale + expires)
    }

    /// These hints as a JSON object; absent hints are left out.
    pub fn to_json(&self) -> (j: Json)
        ensures
            j.model() == self.json_model(),
    {
        let mut entries: Vec<(String, Json)> = Vec::new();
        if let Some(s) = &self.stale_after {
            entries.push(("stale_after".to_owned(), Json::Str(s.clone())));
        }
        if let Some(s) = &self.expires_at {
            entries.push(("expires_at".to_owned(), Json::Str(s.clone())));
        }
        proof {
            lemma_object_model(entries);
            let m = self.json_model();
            assert(m matches JsonValue::Object(e) && e =~= entry_models(entries@));
        }
        Json::Object(entries)
    }
}

/// A signer of a manifest, named by its DID. The signing itself is done by
/// the caller, over the canonical bytes that building hands out.
#[derive(Debug, Clone)]
pub struct SignerInput {
    pub did: String,
}

/// What a manifest is built from.
#[derive(Debug, Clone)]
pub struct BuildOpts {
    pub producer_did: String,
    pub schema_uri: String,
    pub media_type: String,
    pub signers: Vec<SignerInput>,
    pub parent_cid: Option<String>,
    pub retention: Option<Retention>,
    pub created_at: Option<String>,
}

/// How a manifest is verified. The DID resolver, when the caller has one,
/// lives with the caller, who resolves the keys that verification asks for.
#[derive(Debug, Clone, Copy)]
pub struct VerifyOptions {
    /// Keep resolved public keys for five minutes, per resolver.
    pub resolver_cache: bool,
    /// How long a resolver may take, in milliseconds.
    pub resolver_timeout_ms: u64,
    /// Report an expired manifest as a warning rather than an error.
    pub ignore_expiry: bool,
    /// The current time in milliseconds since the Unix epoch; the clock when absent.
    pub now_ms: Option<i64>,
}

impl Default for VerifyOptions {
    fn default() -> (r: Self)
        ensures
            r.resolver_cache,
            r.resolver_timeout_ms == 5000,
            !r.ignore_expiry,
            r.now_ms is None,
    {
        VerifyOptions {
            resolver_cache: true,
            resolver_timeout_ms: 5000,
            ignore_expiry: false,
            now_ms: None,
        }
    }
}

/// The verdict of a verification: `ok` exactly when there are no errors.
#[derive(Debug)]
pub struct VerifyResult {
    pub ok: bool,
    pub errors: Vec<String>,
    pub warnings: Vec<String>,
}

impl Default for VerifyResult {
    fn default() -> (r: Self)
        ensures
            !r.ok,
            r.errors@.len() == 0,
            r.warnings@.len() == 0,
    {
        VerifyResult { ok: false, errors: Vec::new(), warnings: Vec::new() }
    }
}

} // verus!
