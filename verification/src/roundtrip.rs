//! What building promises verification: a manifest built over a body, and
//! signed with valid signatures, verifies against that body.
use vstd::prelude::*;

use crate::json::{entries_get, entries_get_from, entries_without, field_str, JsonValue};
use crate::cid::cid_string;
use crate::json::json_get;
use crate::canonical::canonical_result;
use crate::manifest::{created_at_of, signature_entries, signature_entry, unsigned_entries};
use crate::schema::{header_errors, schema_errors, sig_entry_errors, sigs_errors, SIG_ALG};
use crate::sign::{base64_decode, base64_text, signature_ok};
use crate::verify::{body_errors, expiry_errors, manifest_sigs, manifest_size, sig_checks, unsigned_model};
use crate::schema::str_or_empty;
use crate::text::{decimal_digits, utf8};
use crate::schema::MANIFEST_VERSION;
use crate::text::has_prefix;
use crate::types::{BuildOpts, Retention, SignerInput};
use crate::verify::{chain_from, check_errors, lemma_chain_of_valid_links, resolve_list, result_of, retention_warnings, rfc3339_millis, SigCheckModel};

verus! {

/// The member `key` is found at the first position that has it.
pub proof fn lemma_entries_get_first(e: Seq<(Seq<char>, JsonValue)>, key: Seq<char>, i: int)
    requires
        0 <= i < e.len(),
        e[i].0 == key,
        forall|k: int| 0 <= k < i ==> #[trigger] e[k].0 != key,
    ensures
        entries_get(e, key) == Some(e[i].1),
{
    lemma_entries_get_from_first(e, key, 0, i);
}

proof fn lemma_entries_get_from_first(e: Seq<(Seq<char>, JsonValue)>, key: Seq<char>, j: int, i: int)
    requires
        0 <= j <= i < e.len(),
        e[i].0 == key,
        forall|k: int| 0 <= k < i ==> #[trigger] e[k].0 != key,
    ensures
        entries_get_from(e, key, j) == Some(e[i].1),
    decreases i - j,
{
    if j < i {
        assert(e[j].0 != key);
        lemma_entries_get_from_first(e, key, j + 1, i);
    }
}

/// A member no entry has is not found.
pub proof fn lemma_entries_get_absent(e: Seq<(Seq<char>, JsonValue)>, key: Seq<char>)
    requires
        forall|k: int| 0 <= k < e.len() ==> #[trigger] e[k].0 != key,
    ensures
        entries_get(e, key) is None,
{
    lemma_entries_get_from_absent(e, key, 0);
}

proof fn lemma_entries_get_from_absent(e: Seq<(Seq<char>, JsonValue)>, key: Seq<char>, j: int)
    requires
        0 <= j <= e.len(),
        forall|k: int| 0 <= k < e.len() ==> #[trigger] e[k].0 != key,
    ensures
        entries_get_from(e, key, j) is None,
    decreases e.len() - j,
{
    if j < e.len() {
        assert(e[j].0 != key);
        lemma_entries_get_from_absent(e, key, j + 1);
    }
}

/// Removing a member no entry has leaves the members as they are.
pub proof fn lemma_entries_without_absent(e: Seq<(Seq<char>, JsonValue)>, key: Seq<char>)
    requires
        forall|k: int| 0 <= k < e.len() ==> #[trigger] e[k].0 != key,
    ensures
        entries_without(e, key) == e,
    decreases e.len(),
{
    if e.len() > 0 {
        lemma_entries_without_absent(e.drop_last(), key);
        assert(e.drop_last().push(e.last()) =~= e);
    }
}

/// Checks that all hold decoded signatures, each valid under its key,
/// raise no complaint.
pub proof fn lemma_valid_checks(
    checks: Seq<SigCheckModel>,
    keys: Seq<Result<Seq<u8>, Seq<u8>>>,
    canonical: Seq<u8>,
)
    requires
        checks.len() == keys.len(),
        forall|j: int|
            0 <= j < checks.len() ==> (#[trigger] checks[j] matches SigCheckModel::Check(_, _, s)
                && keys[j] matches Ok(pk) && crate::sign::signature_ok(s, canonical, pk)),
    ensures
        check_errors(checks, keys, canonical).len() == 0,
    decreases checks.len(),
{
    if checks.len() > 0 {
        assert(checks[0] matches SigCheckModel::Check(_, _, _));
        lemma_valid_checks(checks.drop_first(), keys.drop_first(), canonical);
    }
}

/// The DIDs to resolve for checks that all hold decoded signatures are their DIDs.
pub proof fn lemma_resolve_all_checks(checks: Seq<SigCheckModel>, dids: Seq<Seq<char>>)
    requires
        checks.len() == dids.len(),
        forall|j: int|
            0 <= j < checks.len() ==> (#[trigger] checks[j] matches SigCheckModel::Check(_, d, _)
                && d == dids[j]),
    ensures
        resolve_list(checks) == dids,
    decreases checks.len(),
{
    if checks.len() > 0 {
        assert(checks[0] matches SigCheckModel::Check(_, _, _));
        lemma_resolve_all_checks(checks.drop_first(), dids.drop_first());
        assert(seq![dids[0]] + dids.drop_first() =~= dids);
    }
}


/// The manifest `build_unsigned` and `attach_signatures` produce over `data`
/// for the signers' signatures `sigs`.
pub open spec fn signed_manifest(
    data: Seq<u8>,
    opts: BuildOpts,
    now_iso: Seq<char>,
    sigs: Seq<Seq<u8>>,
) -> JsonValue {
    JsonValue::Object(
        unsigned_entries(data, opts, now_iso).push(
            ("sigs"@, JsonValue::Array(signature_entries(opts.signers@, sigs))),
        ),
    )
}

/// The DIDs of the signers, in order.
pub open spec fn signer_dids(signers: Seq<SignerInput>) -> Seq<Seq<char>> {
    Seq::new(signers.len(), |j: int| signers[j].did@)
}

/// Build inputs whose manifest passes the schema check: non-empty strings,
/// `did:` producer and signers, at least one signer.
pub open spec fn build_inputs_well_formed(data: Seq<u8>, opts: BuildOpts, now_iso: Seq<char>) -> bool {
    &&& data.len() <= u64::MAX
    &&& opts.signers@.len() > 0
    &&& opts.media_type@.len() > 0
    &&& opts.schema_uri@.len() > 0
    &&& opts.producer_did@.len() > 0
    &&& has_prefix(opts.producer_did@, "did:"@)
    &&& created_at_of(opts, now_iso).len() > 0
    &&& (opts.parent_cid matches Some(p) ==> p@.len() > 0)
    &&& forall|j: int|
        0 <= j < opts.signers@.len() ==> has_prefix(#[trigger] opts.signers@[j].did@, "did:"@)
}

/// The retention hints do not make a manifest expired at `now`, or expiry is ignored.
pub open spec fn not_expired(retention: Option<Retention>, now: i64, ignore_expiry: bool) -> bool {
    match retention {
        Some(r) => match r.expires_at {
            Some(s) => match rfc3339_millis(s@) {
                Some(t) => ignore_expiry || now < t,
                None => true,
            },
            None => true,
        },
        None => true,
    }
}

proof fn lemma_key_literals()
    ensures
        "v"@ != "cid"@,
        "v"@ != "size"@,
        "v"@ != "media_type"@,
        "v"@ != "schema_uri"@,
        "v"@ != "producer"@,
        "v"@ != "created_at"@,
        "v"@ != "parent_cid"@,
        "v"@ != "retention"@,
        "v"@ != "sigs"@,
        "cid"@ != "size"@,
        "cid"@ != "media_type"@,
        "cid"@ != "schema_uri"@,
        "cid"@ != "producer"@,
        "cid"@ != "created_at"@,
        "cid"@ != "parent_cid"@,
        "cid"@ != "retention"@,
        "cid"@ != "sigs"@,
        "size"@ != "media_type"@,
        "size"@ != "schema_uri"@,
        "size"@ != "producer"@,
        "size"@ != "created_at"@,
        "size"@ != "parent_cid"@,
        "size"@ != "retention"@,
        "size"@ != "sigs"@,
        "media_type"@ != "schema_uri"@,
        "media_type"@ != "producer"@,
        "media_type"@ != "created_at"@,
        "media_type"@ != "parent_cid"@,
        "media_type"@ != "retention"@,
        "media_type"@ != "sigs"@,
        "schema_uri"@ != "producer"@,
        "schema_uri"@ != "created_at"@,
        "schema_uri"@ != "parent_cid"@,
        "schema_uri"@ != "retention"@,
        "schema_uri"@ != "sigs"@,
        "producer"@ != "created_at"@,
        "producer"@ != "parent_cid"@,
        "producer"@ != "retention"@,
        "producer"@ != "sigs"@,
        "created_at"@ != "parent_cid"@,
        "created_at"@ != "retention"@,
        "created_at"@ != "sigs"@,
        "parent_cid"@ != "retention"@,
        "parent_cid"@ != "sigs"@,
        "retention"@ != "sigs"@,
        "signer_did"@ != "alg"@,
        "signer_did"@ != "sig"@,
        "alg"@ != "sig"@,
        "stale_after"@ != "expires_at"@,
{
    reveal_strlit("v");
    reveal_strlit("cid");
    reveal_strlit("size");
    reveal_strlit("media_type");
    reveal_strlit("schema_uri");
    reveal_strlit("producer");
    reveal_strlit("created_at");
    reveal_strlit("parent_cid");
    reveal_strlit("retention");
    reveal_strlit("sigs");
    reveal_strlit("signer_did");
    reveal_strlit("alg");
    reveal_strlit("sig");
    reveal_strlit("stale_after");
    reveal_strlit("expires_at");
    assert("v"@.len() == 1);
    assert("cid"@.len() == 3);
    assert("size"@.len() == 4);
    assert("media_type"@.len() == 10);
    assert("schema_uri"@.len() == 10);
    assert("producer"@.len() == 8);
    assert("created_at"@.len() == 10);
    assert("parent_cid"@.len() == 10);
    assert("retention"@.len() == 9);
    assert("sigs"@.len() == 4);
    assert("signer_did"@.len() == 10);
    assert("alg"@.len() == 3);
    assert("sig"@.len() == 3);
    assert("stale_after"@.len() == 11);
    assert("expires_at"@.len() == 10);
    assert("cid"@[0] != "sig"@[0]);
    assert("size"@[2] != "sigs"@[2]);
    assert("media_type"@[0] != "schema_uri"@[0]);
    assert("media_type"@[0] != "created_at"@[0]);
    assert("media_type"@[0] != "parent_cid"@[0]);
    assert("schema_uri"@[0] != "created_at"@[0]);
    assert("schema_uri"@[0] != "parent_cid"@[0]);
    assert("created_at"@[0] != "parent_cid"@[0]);
    assert("cid"@[0] != "alg"@[0]);
    assert("alg"@[0] != "sig"@[0]);
}


/// The members of the signed manifest, looked up by name.
proof fn lemma_signed_lookups(data: Seq<u8>, opts: BuildOpts, now_iso: Seq<char>, sigs: Seq<Seq<u8>>)
    ensures
        ({
            let m = signed_manifest(data, opts, now_iso, sigs);
            let e = unsigned_entries(data, opts, now_iso);
            &&& json_get(m, "v"@) == Some(JsonValue::Str(MANIFEST_VERSION@))
            &&& json_get(m, "cid"@) == Some(JsonValue::Str(cid_string(data)))
            &&& json_get(m, "size"@) == Some(JsonValue::Number(data.len() as int))
            &&& json_get(m, "media_type"@) == Some(JsonValue::Str(opts.media_type@))
            &&& json_get(m, "schema_uri"@) == Some(JsonValue::Str(opts.schema_uri@))
            &&& json_get(m, "producer"@) == Some(JsonValue::Str(opts.producer_did@))
            &&& json_get(m, "created_at"@) == Some(JsonValue::Str(created_at_of(opts, now_iso)))
            &&& json_get(m, "parent_cid"@) == match opts.parent_cid {
                Some(p) => Some(JsonValue::Str(p@)),
                None => None,
            }
            &&& json_get(m, "retention"@) == match opts.retention {
                Some(r) => Some(r.json_model()),
                None => None,
            }
            &&& json_get(m, "sigs"@) == Some(
                JsonValue::Array(signature_entries(opts.signers@, sigs)),
            )
            &&& entries_without(
                e.push(("sigs"@, JsonValue::Array(signature_entries(opts.signers@, sigs)))),
                "sigs"@,
            ) == e
        }),
{
    lemma_key_literals();
    let e = unsigned_entries(data, opts, now_iso);
    let f = e.push(("sigs"@, JsonValue::Array(signature_entries(opts.signers@, sigs))));
    let np: int = if opts.parent_cid is Some { 1 } else { 0 };
    let nr: int = if opts.retention is Some { 1 } else { 0 };
    assert(e.len() == 7 + np + nr);
    assert(f[0].0 == "v"@);
    assert(f[1].0 == "cid"@);
    assert(f[2].0 == "size"@);
    assert(f[3].0 == "media_type"@);
    assert(f[4].0 == "schema_uri"@);
    assert(f[5].0 == "producer"@);
    assert(f[6].0 == "created_at"@);
    if np == 1 {
        assert(f[7].0 == "parent_cid"@);
    }
    if nr == 1 {
        assert(f[7 + np].0 == "retention"@);
    }
    assert(f[7 + np + nr].0 == "sigs"@);
    lemma_entries_get_first(f, "v"@, 0);
    lemma_entries_get_first(f, "cid"@, 1);
    lemma_entries_get_first(f, "size"@, 2);
    lemma_entries_get_first(f, "media_type"@, 3);
    lemma_entries_get_first(f, "schema_uri"@, 4);
    lemma_entries_get_first(f, "producer"@, 5);
    lemma_entries_get_first(f, "created_at"@, 6);
    if np == 1 {
        lemma_entries_get_first(f, "parent_cid"@, 7);
    } else {
        lemma_entries_get_absent(f, "parent_cid"@);
    }
    if nr == 1 {
        lemma_entries_get_first(f, "retention"@, 7 + np);
    } else {
        lemma_entries_get_absent(f, "retention"@);
    }
    lemma_entries_get_first(f, "sigs"@, 7 + np + nr);
    lemma_entries_without_absent(e, "sigs"@);
    assert(f.drop_last() =~= e);
}


proof fn lemma_signature_entry_lookups(did: Seq<char>, sig: Seq<u8>)
    ensures
        json_get(signature_entry(did, sig), "signer_did"@) == Some(JsonValue::Str(did)),
        json_get(signature_entry(did, sig), "alg"@) == Some(JsonValue::Str(SIG_ALG@)),
        json_get(signature_entry(did, sig), "sig"@) == Some(JsonValue::Str(base64_text(sig))),
{
    lemma_key_literals();
    let f: Seq<(Seq<char>, JsonValue)> = seq![
        ("signer_did"@, JsonValue::Str(did)),
        ("alg"@, JsonValue::Str(SIG_ALG@)),
        ("sig"@, JsonValue::Str(base64_text(sig))),
    ];
    assert(signature_entry(did, sig) == JsonValue::Object(f));
    lemma_entries_get_first(f, "signer_did"@, 0);
    lemma_entries_get_first(f, "alg"@, 1);
    lemma_entries_get_first(f, "sig"@, 2);
}

proof fn lemma_retention_lookups(r: Retention)
    ensures
        json_get(r.json_model(), "expires_at"@) == match r.expires_at {
            Some(s) => Some(JsonValue::Str(s@)),
            None => None,
        },
{
    lemma_key_literals();
    let stale: Seq<(Seq<char>, JsonValue)> = match r.stale_after {
        Some(s) => seq![("stale_after"@, JsonValue::Str(s@))],
        None => Seq::empty(),
    };
    let expires: Seq<(Seq<char>, JsonValue)> = match r.expires_at {
        Some(s) => seq![("expires_at"@, JsonValue::Str(s@))],
        None => Seq::empty(),
    };
    let f = stale + expires;
    assert(r.json_model() == JsonValue::Object(f));
    if r.stale_after is Some {
        assert(f[0].0 == "stale_after"@);
        if r.expires_at is Some {
            assert(f[1].0 == "expires_at"@);
            lemma_entries_get_first(f, "expires_at"@, 1);
        } else {
            lemma_entries_get_absent(f, "expires_at"@);
        }
    } else {
        if r.expires_at is Some {
            assert(f[0].0 == "expires_at"@);
            lemma_entries_get_first(f, "expires_at"@, 0);
        } else {
            lemma_entries_get_absent(f, "expires_at"@);
        }
    }
}

/// A manifest built over `data` and signed by its signers verifies against
/// `data`: it meets the schema, its size and CID match the body, it is not
/// expired (given the retention hints allow it), the signatures cover the
/// canonical bytes that building handed out, each signature decodes and is
/// checked under its signer's key, and none is refused.
/// (Stated for valid Ed25519 signatures under the resolved keys, and for
/// base64 text that decodes back to the signature it encodes.)
pub proof fn lemma_build_then_verify(
    data: Seq<u8>,
    opts: BuildOpts,
    now_iso: Seq<char>,
    sigs: Seq<Seq<u8>>,
    keys: Seq<Seq<u8>>,
    canonical: Seq<u8>,
    now: i64,
    ignore_expiry: bool,
)
    requires
        build_inputs_well_formed(data, opts, now_iso),
        canonical_result(JsonValue::Object(unsigned_entries(data, opts, now_iso))) == Ok::<
            Seq<u8>,
            Seq<u8>,
        >(canonical),
        sigs.len() == opts.signers@.len(),
        keys.len() == sigs.len(),
        forall|j: int|
            0 <= j < sigs.len() ==> base64_decode(#[trigger] base64_text(sigs[j])) == Ok::<
                Seq<u8>,
                Seq<char>,
            >(sigs[j]),
        forall|j: int| 0 <= j < sigs.len() ==> signature_ok(#[trigger] sigs[j], canonical, keys[j]),
        not_expired(opts.retention, now, ignore_expiry),
    ensures
        ({
            let m = signed_manifest(data, opts, now_iso, sigs);
            let checks = sig_checks(manifest_sigs(m));
            &&& schema_errors(m).len() == 0
            &&& body_errors(m, data).len() == 0
            &&& expiry_errors(m, now, ignore_expiry).len() == 0
            &&& canonical_result(unsigned_model(m)) == Ok::<Seq<u8>, Seq<u8>>(canonical)
            &&& resolve_list(checks) == signer_dids(opts.signers@)
            &&& check_errors(
                checks,
                keys.map_values(|k: Seq<u8>| Ok::<Seq<u8>, Seq<u8>>(k)),
                canonical,
            ).len() == 0
            &&& result_of(
                body_errors(m, data) + expiry_errors(m, now, ignore_expiry) + check_errors(
                    checks,
                    keys.map_values(|k: Seq<u8>| Ok::<Seq<u8>, Seq<u8>>(k)),
                    canonical,
                ),
                retention_warnings(m, now, ignore_expiry),
            ).0
        }),
{
    let m = signed_manifest(data, opts, now_iso, sigs);
    let e = unsigned_entries(data, opts, now_iso);
    let entries = signature_entries(opts.signers@, sigs);
    lemma_signed_lookups(data, opts, now_iso, sigs);
    reveal_strlit("did:");
    // The schema.
    assert(cid_string(data).len() > 0);
    assert(header_errors(m) =~= Seq::<Seq<u8>>::empty());
    assert forall|j: int| 0 <= j < entries.len() implies #[trigger] sig_entry_errors(
        entries[j],
        j as nat,
    ).len() == 0 by {
        lemma_signature_entry_lookups(opts.signers@[j].did@, sigs[j]);
        assert(signature_ok(sigs[j], canonical, keys[j]));
        assert(base64_text(sigs[j]).len() > 0);
    }
    lemma_sigs_errors_empty(entries, entries.len());
    assert(schema_errors(m) =~= Seq::<Seq<u8>>::empty());
    // The body.
    assert(body_errors(m, data) =~= Seq::<Seq<u8>>::empty());
    // Retention.
    if let Some(r) = opts.retention {
        lemma_retention_lookups(r);
    }
    assert(expiry_errors(m, now, ignore_expiry) =~= Seq::<Seq<u8>>::empty());
    // The signed bytes.
    assert(unsigned_model(m) == JsonValue::Object(e));
    // The signatures.
    let checks = sig_checks(manifest_sigs(m));
    assert(manifest_sigs(m) == entries);
    assert forall|j: int| 0 <= j < checks.len() implies (#[trigger] checks[j] matches SigCheckModel::Check(
        _,
        d,
        s,
    ) && d == opts.signers@[j].did@ && s == sigs[j]) by {
        lemma_signature_entry_lookups(opts.signers@[j].did@, sigs[j]);
    }
    lemma_resolve_all_checks(checks, signer_dids(opts.signers@));
    let ks = keys.map_values(|k: Seq<u8>| Ok::<Seq<u8>, Seq<u8>>(k));
    assert forall|j: int| 0 <= j < checks.len() implies (#[trigger] checks[j] matches SigCheckModel::Check(
        _,
        _,
        s,
    ) && ks[j] matches Ok(pk) && signature_ok(s, canonical, pk)) by {
        lemma_signature_entry_lookups(opts.signers@[j].did@, sigs[j]);
    }
    lemma_valid_checks(checks, ks, canonical);
}

proof fn lemma_sigs_errors_empty(sigs: Seq<JsonValue>, n: nat)
    requires
        n <= sigs.len(),
        forall|j: int| 0 <= j < sigs.len() ==> #[trigger] sig_entry_errors(sigs[j], j as nat).len() == 0,
    ensures
        sigs_errors(sigs, n).len() == 0,
    decreases n,
{
    if n > 0 {
        lemma_sigs_errors_empty(sigs, (n - 1) as nat);
        assert(sig_entry_errors(sigs[n - 1], (n - 1) as nat).len() == 0);
    }
}


/// A body other than the one a manifest was built over is refused: a body
/// whose CID differs is reported as `cid mismatch`, and one of another
/// length as a size mismatch, so verification does not succeed.
/// (A different body with the same CID would take a SHA-256 collision.)
pub proof fn lemma_tampered_body_refused(
    data: Seq<u8>,
    opts: BuildOpts,
    now_iso: Seq<char>,
    sigs: Seq<Seq<u8>>,
    tampered: Seq<u8>,
    later: Seq<Seq<u8>>,
    warnings: Seq<Seq<u8>>,
)
    requires
        data.len() <= u64::MAX,
        cid_string(tampered) != cid_string(data),
    ensures
        ({
            let m = signed_manifest(data, opts, now_iso, sigs);
            &&& body_errors(m, tampered).contains(utf8("cid mismatch"@))
            &&& tampered.len() != data.len() ==> body_errors(m, tampered)[0] == utf8(
                "size mismatch: manifest "@,
            ) + decimal_digits(data.len()) + utf8(", body "@) + decimal_digits(tampered.len())
            &&& !result_of(body_errors(m, tampered) + later, warnings).0
        }),
{
    let m = signed_manifest(data, opts, now_iso, sigs);
    lemma_signed_lookups(data, opts, now_iso, sigs);
    assert(manifest_size(m) == data.len());
    assert(str_or_empty(m, "cid"@) == cid_string(data));
    let b = body_errors(m, tampered);
    assert(b[b.len() - 1] == utf8("cid mismatch"@));
}


/// The inputs on which a built manifest verifies: well-formed build inputs
/// whose canonical bytes are `canonical`, one valid signature per signer
/// under its key, carried in base64 that decodes back, and not expired.
pub open spec fn build_verifies(
    data: Seq<u8>,
    opts: BuildOpts,
    now_iso: Seq<char>,
    sigs: Seq<Seq<u8>>,
    keys: Seq<Seq<u8>>,
    canonical: Seq<u8>,
    now: i64,
    ignore_expiry: bool,
) -> bool {
    &&& build_inputs_well_formed(data, opts, now_iso)
    &&& canonical_result(JsonValue::Object(unsigned_entries(data, opts, now_iso))) == Ok::<
        Seq<u8>,
        Seq<u8>,
    >(canonical)
    &&& sigs.len() == opts.signers@.len()
    &&& keys.len() == sigs.len()
    &&& forall|j: int|
        0 <= j < sigs.len() ==> base64_decode(#[trigger] base64_text(sigs[j])) == Ok::<
            Seq<u8>,
            Seq<char>,
        >(sigs[j])
    &&& forall|j: int| 0 <= j < sigs.len() ==> signature_ok(#[trigger] sigs[j], canonical, keys[j])
    &&& not_expired(opts.retention, now, ignore_expiry)
}

/// The result of verifying manifest `m` against `data` past the schema
/// check, with the keys found for its signers.
pub open spec fn verify_outcome(
    m: JsonValue,
    data: Seq<u8>,
    keys: Seq<Seq<u8>>,
    canonical: Seq<u8>,
    now: i64,
    ignore_expiry: bool,
) -> (bool, Seq<Seq<u8>>, Seq<Seq<u8>>) {
    result_of(
        body_errors(m, data) + expiry_errors(m, now, ignore_expiry) + check_errors(
            sig_checks(manifest_sigs(m)),
            keys.map_values(|k: Seq<u8>| Ok::<Seq<u8>, Seq<u8>>(k)),
            canonical,
        ),
        retention_warnings(m, now, ignore_expiry),
    )
}

/// A chain of versions, each built over its body with the previous version's
/// CID as its `parent_cid` and signed by its signers, verifies: no link
/// fails and no parent link is broken.
pub proof fn lemma_built_chain_verifies(
    datas: Seq<Seq<u8>>,
    optss: Seq<BuildOpts>,
    now_isos: Seq<Seq<char>>,
    sigss: Seq<Seq<Seq<u8>>>,
    keyss: Seq<Seq<Seq<u8>>>,
    canonicals: Seq<Seq<u8>>,
    now: i64,
    ignore_expiry: bool,
)
    requires
        optss.len() == datas.len(),
        now_isos.len() == datas.len(),
        sigss.len() == datas.len(),
        keyss.len() == datas.len(),
        canonicals.len() == datas.len(),
        forall|k: int|
            0 <= k < datas.len() ==> build_verifies(
                #[trigger] datas[k],
                optss[k],
                now_isos[k],
                sigss[k],
                keyss[k],
                canonicals[k],
                now,
                ignore_expiry,
            ),
        forall|k: int|
            0 < k < datas.len() ==> ((#[trigger] optss[k]).parent_cid matches Some(p) && p@
                == cid_string(datas[k - 1])),
    ensures
        ({
            let links = Seq::new(
                datas.len(),
                |k: int| signed_manifest(datas[k], optss[k], now_isos[k], sigss[k]),
            );
            let results = Seq::new(
                datas.len(),
                |k: int|
                    verify_outcome(links[k], datas[k], keyss[k], canonicals[k], now, ignore_expiry),
            );
            chain_from(links, results, 0, None).0.len() == 0
        }),
{
    let links = Seq::new(
        datas.len(),
        |k: int| signed_manifest(datas[k], optss[k], now_isos[k], sigss[k]),
    );
    let results = Seq::new(
        datas.len(),
        |k: int| verify_outcome(links[k], datas[k], keyss[k], canonicals[k], now, ignore_expiry),
    );
    assert forall|k: int| 0 <= k < results.len() implies #[trigger] results[k].0 by {
        assert(build_verifies(
            datas[k],
            optss[k],
            now_isos[k],
            sigss[k],
            keyss[k],
            canonicals[k],
            now,
            ignore_expiry,
        ));
        lemma_build_then_verify(
            datas[k],
            optss[k],
            now_isos[k],
            sigss[k],
            keyss[k],
            canonicals[k],
            now,
            ignore_expiry,
        );
    }
    assert forall|k: int| 0 <= k < links.len() implies #[trigger] links[k] is Object by {}
    assert forall|k: int|
        0 < k < links.len() implies #[trigger] field_str(links[k], "parent_cid"@) == field_str(
        links[k - 1],
        "cid"@,
    ) by {
        assert(optss[k].parent_cid is Some);
        lemma_signed_lookups(datas[k], optss[k], now_isos[k], sigss[k]);
        lemma_signed_lookups(datas[k - 1], optss[k - 1], now_isos[k - 1], sigss[k - 1]);
    }
    lemma_chain_of_valid_links(links, results);
}

} // verus!
