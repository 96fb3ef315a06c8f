//! Manifest verification.
//!
//! Verification runs in two steps around key resolution, which the caller
//! performs (a DID may need a network fetch or a caller-supplied resolver):
//! `prepare_verify` checks everything that needs no key and lists the
//! signatures to check; `finish_verify` checks them against the resolved keys.
use vstd::prelude::*;
use vstd::utf8::valid_utf8;

use crate::canonical::{canonical_encode, canonical_result};
use crate::cid::{cid_string, verify_cid};
use crate::error::{error_message, lemma_error_message_valid, Error};
use crate::json::{
    entries_without, entries_without_key, field_str, field_str_of,
    field_str_or_empty_of, json_get, models, u64_of, Json, JsonValue,
};
use crate::schema::{
    message_if, message_views, push_message, schema_errors, str_or_empty, validate_manifest,
};
use crate::sign::{b64decode, base64_decode, signature_ok, verify_bytes, DecodeError};
use crate::text::{
    decimal, decimal_digits, lemma_ascii_valid_utf8, lemma_concat_valid_utf8, lemma_decimal_ascii,
    push_bytes, push_str, string_of_bytes, utf8,
};
use crate::types::{VerifyOptions, VerifyResult};

verus! {

broadcast use vstd::utf8::encode_utf8_valid_utf8;

/// The instant an RFC 3339 timestamp denotes, in milliseconds since the Unix
/// epoch, as `chrono` reads it; nothing when `chrono` does not accept the text.
pub uninterp spec fn rfc3339_millis(text: Seq<char>) -> Option<i64>;

/// `chrono::DateTime::parse_from_rfc3339` followed by `timestamp_millis`.
#[verifier::external_body]
fn parse_iso_ms(s: &str) -> (r: Option<i64>)
    ensures
        r == rfc3339_millis(s@),
{
    chrono::DateTime::parse_from_rfc3339(s).ok().map(|d| d.timestamp_millis())
}

/// The `size` member of a manifest (0 when it is not a `u64`).
pub open spec fn manifest_size(m: JsonValue) -> u64 {
    match u64_of(json_get(m, "size"@)) {
        Some(s) => s,
        None => 0,
    }
}

/// The complaint about a manifest size that is not the body's length.
pub open spec fn size_message(size: nat, len: nat) -> Seq<u8> {
    utf8("size mismatch: manifest "@) + decimal_digits(size) + utf8(", body "@) + decimal_digits(len)
}

/// The complaints about the body: its length and its CID.
pub open spec fn body_errors(m: JsonValue, data: Seq<u8>) -> Seq<Seq<u8>> {
    message_if(manifest_size(m) != data.len(), size_message(manifest_size(m) as nat, data.len()))
        + message_if(str_or_empty(m, "cid"@) != cid_string(data), utf8("cid mismatch"@))
}

/// The `retention` member of a manifest, when it is an object.
pub open spec fn retention_of(m: JsonValue) -> Option<JsonValue> {
    match json_get(m, "retention"@) {
        Some(JsonValue::Object(e)) => Some(JsonValue::Object(e)),
        _ => None,
    }
}

/// The text of a retention time `key` that parses and lies before `now`.
pub open spec fn passed(r: JsonValue, key: Seq<char>, now: i64) -> Option<Seq<char>> {
    match field_str(r, key) {
        Some(s) => match rfc3339_millis(s) {
            Some(t) => if now > t {
                Some(s)
            } else {
                None
            },
            None => None,
        },
        None => None,
    }
}

/// The text of the `expires_at` time when it parses and `now` has reached
/// it: a manifest is valid only while its expiry lies after `now`.
pub open spec fn reached_expiry(r: JsonValue, now: i64) -> Option<Seq<char>> {
    match field_str(r, "expires_at"@) {
        Some(s) => match rfc3339_millis(s) {
            Some(t) => if now >= t {
                Some(s)
            } else {
                None
            },
            None => None,
        },
        None => None,
    }
}

/// The complaint about a hard expiry, unless expiry is ignored.
pub open spec fn expiry_errors(m: JsonValue, now: i64, ignore_expiry: bool) -> Seq<Seq<u8>> {
    match retention_of(m) {
        Some(r) => match reached_expiry(r, now) {
            Some(s) => message_if(!ignore_expiry, utf8("expired at "@) + utf8(s)),
            None => Seq::empty(),
        },
        None => Seq::empty(),
    }
}

/// The warnings about retention: an ignored expiry, then staleness.
pub open spec fn retention_warnings(m: JsonValue, now: i64, ignore_expiry: bool) -> Seq<Seq<u8>> {
    match retention_of(m) {
        Some(r) => (match reached_expiry(r, now) {
            Some(s) => message_if(ignore_expiry, utf8("expired at "@) + utf8(s) + utf8(" (ignored)"@)),
            None => Seq::empty(),
        }) + (match passed(r, "stale_after"@, now) {
            Some(s) => seq![utf8("stale since "@) + utf8(s)],
            None => Seq::empty(),
        }),
        None => Seq::empty(),
    }
}

/// The manifest without its `sigs`: what the signatures cover.
pub open spec fn unsigned_model(m: JsonValue) -> JsonValue {
    match m {
        JsonValue::Object(entries) => JsonValue::Object(entries_without(entries, "sigs"@)),
        _ => m,
    }
}

/// One signature of a manifest, ready to be checked.
#[derive(Debug)]
pub enum SigCheck {
    /// The signature text at `index` is not base64.
    Undecodable { index: usize, error: DecodeError },
    /// The signature at `index`, decoded, to be checked under the key of `signer_did`.
    Check { index: usize, signer_did: String, sig: Vec<u8> },
}

/// The model of a `SigCheck`.
pub enum SigCheckModel {
    Undecodable(nat, Seq<char>),
    Check(nat, Seq<char>, Seq<u8>),
}

impl SigCheck {
    pub open spec fn model(&self) -> SigCheckModel {
        match self {
            SigCheck::Undecodable { index, error } => SigCheckModel::Undecodable(
                *index as nat,
                error.message@,
            ),
            SigCheck::Check { index, signer_did, sig } => SigCheckModel::Check(
                *index as nat,
                signer_did@,
                sig@,
            ),
        }
    }
}

pub open spec fn check_models(v: Seq<SigCheck>) -> Seq<SigCheckModel> {
    v.map_values(|c: SigCheck| c.model())
}

/// What checking the signature entry `s` at position `i` involves.
pub open spec fn sig_check_of(s: JsonValue, i: nat) -> SigCheckModel {
    match base64_decode(str_or_empty(s, "sig"@)) {
        Ok(b) => SigCheckModel::Check(i, str_or_empty(s, "signer_did"@), b),
        Err(t) => SigCheckModel::Undecodable(i, t),
    }
}

/// The signature checks of a manifest's `sigs`, in order.
pub open spec fn sig_checks(sigs: Seq<JsonValue>) -> Seq<SigCheckModel> {
    Seq::new(sigs.len(), |i: int| sig_check_of(sigs[i], i as nat))
}

/// The `sigs` of a manifest (empty when it has none).
pub open spec fn manifest_sigs(m: JsonValue) -> Seq<JsonValue> {
    match json_get(m, "sigs"@) {
        Some(JsonValue::Array(items)) => items,
        _ => Seq::empty(),
    }
}

/// The DIDs whose keys the checks need, in order.
pub open spec fn resolve_list(checks: Seq<SigCheckModel>) -> Seq<Seq<char>>
    decreases checks.len(),
{
    if checks.len() == 0 {
        Seq::empty()
    } else {
        match checks[0] {
            SigCheckModel::Check(_, did, _) => seq![did] + resolve_list(checks.drop_first()),
            SigCheckModel::Undecodable(..) => resolve_list(checks.drop_first()),
        }
    }
}

/// Verification up to key resolution: what is known so far, the bytes the
/// signatures cover, and the signatures to check.
#[derive(Debug)]
pub struct PendingVerify {
    pub errors: Vec<String>,
    pub warnings: Vec<String>,
    pub canonical: Vec<u8>,
    pub checks: Vec<SigCheck>,
}

/// The outcome of the first verification step.
#[derive(Debug)]
pub enum VerifyStep {
    /// Verification ended without needing any key.
    Done(VerifyResult),
    /// The keys of `PendingVerify::checks` are needed to finish.
    Resolve(PendingVerify),
}

/// The views of a verification result: `ok`, errors, warnings.
pub open spec fn result_model(r: VerifyResult) -> (bool, Seq<Seq<u8>>, Seq<Seq<u8>>) {
    (r.ok, message_views(r.errors@), message_views(r.warnings@))
}

/// A verification result with the given messages; `ok` exactly when there are no errors.
pub open spec fn result_of(errors: Seq<Seq<u8>>, warnings: Seq<Seq<u8>>) -> (
    bool,
    Seq<Seq<u8>>,
    Seq<Seq<u8>>,
) {
    (errors.len() == 0, errors, warnings)
}

/// The time verification runs at: the configured instant, else the clock.
pub open spec fn verify_time(options: VerifyOptions, clock_ms: i64) -> i64 {
    match options.now_ms {
        Some(t) => t,
        None => clock_ms,
    }
}

/// Appends the complaints about the body.
fn check_body(errors: &mut Vec<String>, m: &Json, data: &[u8])
    ensures
        message_views(final(errors)@) == message_views(old(errors)@) + body_errors(m.model(), data@),
{
    let ghost start = message_views(errors@);
    let size = match m.get("size") {
        Some(v) => match v.as_u64() {
            Some(s) => s,
            None => 0,
        },
        None => 0,
    };
    assert(size == manifest_size(m.model()));
    if size != data.len() as u64 {
        let mut msg: Vec<u8> = Vec::new();
        push_str(&mut msg, "size mismatch: manifest ");
        let d = decimal(size);
        push_bytes(&mut msg, d.as_slice());
        push_str(&mut msg, ", body ");
        let d2 = decimal(data.len() as u64);
        push_bytes(&mut msg, d2.as_slice());
        proof {
            lemma_decimal_ascii(size as nat);
            lemma_ascii_valid_utf8(decimal_digits(size as nat));
            lemma_decimal_ascii(data@.len());
            lemma_ascii_valid_utf8(decimal_digits(data@.len()));
            let a = utf8("size mismatch: manifest "@);
            lemma_concat_valid_utf8(a, decimal_digits(size as nat));
            lemma_concat_valid_utf8(a + decimal_digits(size as nat), utf8(", body "@));
            lemma_concat_valid_utf8(
                a + decimal_digits(size as nat) + utf8(", body "@),
                decimal_digits(data@.len()),
            );
        }
        push_message(errors, msg);
    }
    let ghost mid = message_views(errors@);
    let cid = field_str_or_empty_of(m, "cid");
    if !verify_cid(cid, data) {
        let mut msg: Vec<u8> = Vec::new();
        push_str(&mut msg, "cid mismatch");
        push_message(errors, msg);
    }
    assert(message_views(errors@) =~= start + body_errors(m.model(), data@));
}

/// Appends the complaints and warnings about retention.
fn check_retention(
    errors: &mut Vec<String>,
    warnings: &mut Vec<String>,
    m: &Json,
    now: i64,
    ignore_expiry: bool,
)
    ensures
        message_views(final(errors)@) == message_views(old(errors)@) + expiry_errors(
            m.model(),
            now,
            ignore_expiry,
        ),
        message_views(final(warnings)@) == message_views(old(warnings)@) + retention_warnings(
            m.model(),
            now,
            ignore_expiry,
        ),
{
    let ghost e0 = message_views(errors@);
    let ghost w0 = message_views(warnings@);
    let retention = match m.get("retention") {
        Some(r) => match r.as_object() {
            Some(_) => r,
            None => {
                assert(retention_of(m.model()) is None);
                assert(message_views(errors@) =~= e0 + expiry_errors(m.model(), now, ignore_expiry));
                assert(message_views(warnings@) =~= w0 + retention_warnings(
                    m.model(),
                    now,
                    ignore_expiry,
                ));
                return ;
            },
        },
        None => {
            assert(message_views(errors@) =~= e0 + expiry_errors(m.model(), now, ignore_expiry));
            assert(message_views(warnings@) =~= w0 + retention_warnings(
                m.model(),
                now,
                ignore_expiry,
            ));
            return ;
        },
    };
    assert(retention_of(m.model()) == Some(retention.model()));
    let ghost r = retention.model();
    match field_str_of(retention, "expires_at") {
        Some(s) => match parse_iso_ms(s) {
            Some(exp) => {
                if now >= exp {
                    let mut msg: Vec<u8> = Vec::new();
                    push_str(&mut msg, "expired at ");
                    push_str(&mut msg, s);
                    proof {
                        lemma_concat_valid_utf8(utf8("expired at "@), utf8(s@));
                    }
                    if ignore_expiry {
                        let ghost before = msg@;
                        push_str(&mut msg, " (ignored)");
                        proof {
                            lemma_concat_valid_utf8(before, utf8(" (ignored)"@));
                        }
                        push_message(warnings, msg);
                    } else {
                        push_message(errors, msg);
                    }
                }
            },
            None => {},
        },
        None => {},
    }
    let ghost w1 = message_views(warnings@);
    assert(message_views(errors@) =~= e0 + expiry_errors(m.model(), now, ignore_expiry));
    match field_str_of(retention, "stale_after") {
        Some(s) => match parse_iso_ms(s) {
            Some(stale) => {
                if now > stale {
                    let mut msg: Vec<u8> = Vec::new();
                    push_str(&mut msg, "stale since ");
                    push_str(&mut msg, s);
                    proof {
                        lemma_concat_valid_utf8(utf8("stale since "@), utf8(s@));
                    }
                    push_message(warnings, msg);
                }
            },
            None => {},
        },
        None => {},
    }
    assert(message_views(warnings@) =~= w0 + retention_warnings(m.model(), now, ignore_expiry));
}

/// The checks of a list of signature entries.
fn build_checks(sigs: &Vec<Json>) -> (r: Vec<SigCheck>)
    ensures
        check_models(r@) == sig_checks(models(sigs@)),
{
    let ghost ms = models(sigs@);
    let mut out: Vec<SigCheck> = Vec::new();
    let mut i: usize = 0;
    while i < sigs.len()
        invariant
            i <= sigs@.len(),
            ms == models(sigs@),
            out@.len() == i,
            forall|k: int| 0 <= k < i ==> #[trigger] out@[k].model() == sig_check_of(ms[k], k as nat),
        decreases sigs@.len() - i,
    {
        let s = &sigs[i];
        assert(ms[i as int] == s.model());
        let signer_did = field_str_or_empty_of(s, "signer_did");
        let sig_b64 = field_str_or_empty_of(s, "sig");
        let check = match b64decode(sig_b64) {
            Ok(b) => SigCheck::Check { index: i, signer_did: signer_did.to_owned(), sig: b },
            Err(e) => SigCheck::Undecodable { index: i, error: e },
        };
        out.push(check);
        i = i + 1;
    }
    assert(check_models(out@) =~= sig_checks(ms));
    out
}

/// Everything about a manifest that needs no key: the schema, the body's
/// size and CID, retention at the verification time (`options.now_ms`, or
/// `clock_ms` when unset), and the canonical bytes of the manifest without
/// its signatures. An invalid schema, or canonical bytes that cannot be
/// computed, end verification here.
pub fn prepare_verify(manifest: &Json, data: &[u8], options: &VerifyOptions, clock_ms: i64) -> (r:
    VerifyStep)
    ensures
        ({
            let m = manifest.model();
            let now = verify_time(*options, clock_ms);
            let errs = body_errors(m, data@) + expiry_errors(m, now, options.ignore_expiry);
            let warns = retention_warnings(m, now, options.ignore_expiry);
            if schema_errors(m).len() != 0 {
                r matches VerifyStep::Done(res) && result_model(res) == result_of(
                    schema_errors(m),
                    Seq::empty(),
                )
            } else {
                match canonical_result(unsigned_model(m)) {
                    Err(msg) => r matches VerifyStep::Done(res) && result_model(res) == result_of(
                        errs.push(utf8("canonical encode: "@) + msg),
                        warns,
                    ),
                    Ok(bytes) => r matches VerifyStep::Resolve(p) && message_views(p.errors@)
                        == errs && message_views(p.warnings@) == warns && p.canonical@ == bytes
                        && check_models(p.checks@) == sig_checks(manifest_sigs(m)),
                }
            }
        }),
{
    let mut errors: Vec<String> = Vec::new();
    let mut warnings: Vec<String> = Vec::new();
    match validate_manifest(manifest) {
        Ok(()) => {},
        Err(es) => {
            assert(message_views(warnings@) =~= Seq::<Seq<u8>>::empty());
            return VerifyStep::Done(VerifyResult { ok: false, errors: es, warnings });
        },
    }
    let entries = match manifest.as_object() {
        Some(e) => e,
        None => {
            return VerifyStep::Done(VerifyResult { ok: false, errors, warnings });
        },
    };
    let now = match options.now_ms {
        Some(t) => t,
        None => clock_ms,
    };
    assert(message_views(errors@) =~= Seq::<Seq<u8>>::empty());
    assert(message_views(warnings@) =~= Seq::<Seq<u8>>::empty());
    check_body(&mut errors, manifest, data);
    check_retention(&mut errors, &mut warnings, manifest, now, options.ignore_expiry);
    let kept = entries_without_key(entries, "sigs");
    proof {
        crate::json::lemma_object_model(kept);
    }
    let unsigned = Json::Object(kept);
    assert(unsigned.model() == unsigned_model(manifest.model()));
    let canonical = match canonical_encode(&unsigned) {
        Ok(b) => b,
        Err(e) => {
            let mut msg: Vec<u8> = Vec::new();
            push_str(&mut msg, "canonical encode: ");
            e.push_message(&mut msg);
            proof {
                lemma_error_message_valid(e);
                lemma_concat_valid_utf8(utf8("canonical encode: "@), error_message(e));
            }
            push_message(&mut errors, msg);
            let ok = errors.len() == 0;
            return VerifyStep::Done(VerifyResult { ok, errors, warnings });
        },
    };
    let sigs = match manifest.get("sigs") {
        Some(v) => match v.as_array() {
            Some(a) => build_checks(a),
            None => Vec::new(),
        },
        None => Vec::new(),
    };
    assert(check_models(sigs@) =~= sig_checks(manifest_sigs(manifest.model())));
    VerifyStep::Resolve(PendingVerify { errors, warnings, canonical, checks: sigs })
}


/// The DIDs whose keys `finish_verify` needs, in the order of the checks.
pub fn signers_to_resolve(pending: &PendingVerify) -> (r: Vec<String>)
    ensures
        r@.map_values(|s: String| s@) == resolve_list(check_models(pending.checks@)),
{
    let ghost cs = check_models(pending.checks@);
    let mut out: Vec<String> = Vec::new();
    let mut i: usize = pending.checks.len();
    assert(cs.subrange(i as int, cs.len() as int) =~= Seq::<SigCheckModel>::empty());
    while i > 0
        invariant
            i <= cs.len(),
            cs == check_models(pending.checks@),
            out@.map_values(|s: String| s@) == resolve_list(cs.subrange(i as int, cs.len() as int)),
        decreases i,
    {
        i = i - 1;
        let ghost rest = cs.subrange((i + 1) as int, cs.len() as int);
        assert(cs.subrange(i as int, cs.len() as int).drop_first() =~= rest);
        match &pending.checks[i] {
            SigCheck::Check { signer_did, .. } => {
                let ghost before = out@;
                out.insert(0, signer_did.clone());
                assert(out@.map_values(|s: String| s@) =~= seq![signer_did@] + before.map_values(
                    |s: String| s@,
                ));
            },
            SigCheck::Undecodable { .. } => {},
        }
    }
    assert(cs.subrange(0, cs.len() as int) =~= cs);
    out
}

/// The model of a resolved key: its bytes, or the message of the error.
pub open spec fn key_model(k: Result<[u8; 32], Error>) -> Result<Seq<u8>, Seq<u8>> {
    match k {
        Ok(a) => Ok(a@),
        Err(e) => Err(error_message(e)),
    }
}

pub open spec fn key_models(v: Seq<Result<[u8; 32], Error>>) -> Seq<Result<Seq<u8>, Seq<u8>>> {
    v.map_values(|k: Result<[u8; 32], Error>| key_model(k))
}

/// `sigs[i]: `, the prefix of the messages about signature `i`.
pub open spec fn sig_prefix(i: nat) -> Seq<u8> {
    utf8("sigs["@) + decimal_digits(i) + utf8("]: "@)
}

/// The complaints about the signature checks, each `Check` taking the next key.
pub open spec fn check_errors(
    checks: Seq<SigCheckModel>,
    keys: Seq<Result<Seq<u8>, Seq<u8>>>,
    canonical: Seq<u8>,
) -> Seq<Seq<u8>>
    decreases checks.len(),
{
    if checks.len() == 0 {
        Seq::empty()
    } else {
        match checks[0] {
            SigCheckModel::Undecodable(i, t) => seq![
                sig_prefix(i) + utf8("base64 decode: "@) + utf8(t),
            ] + check_errors(checks.drop_first(), keys, canonical),
            SigCheckModel::Check(i, did, sig) => (match keys[0] {
                Ok(pk) => message_if(
                    !signature_ok(sig, canonical, pk),
                    sig_prefix(i) + utf8("invalid signature for "@) + utf8(did),
                ),
                Err(msg) => seq![sig_prefix(i) + msg],
            }) + check_errors(checks.drop_first(), keys.drop_first(), canonical),
        }
    }
}

/// `sigs[i]: ` as bytes.
fn sig_prefix_bytes(i: usize) -> (r: Vec<u8>)
    ensures
        r@ == sig_prefix(i as nat),
        valid_utf8(r@),
{
    let mut m: Vec<u8> = Vec::new();
    push_str(&mut m, "sigs[");
    let d = decimal(i as u64);
    push_bytes(&mut m, d.as_slice());
    push_str(&mut m, "]: ");
    proof {
        lemma_decimal_ascii(i as nat);
        lemma_ascii_valid_utf8(decimal_digits(i as nat));
        lemma_concat_valid_utf8(utf8("sigs["@), decimal_digits(i as nat));
        lemma_concat_valid_utf8(utf8("sigs["@) + decimal_digits(i as nat), utf8("]: "@));
    }
    m
}

/// Finishes a verification with the keys of the signers that
/// `signers_to_resolve` listed, one per DID, in that order: each decoded
/// signature is checked against the canonical bytes under its key.
pub fn finish_verify(pending: PendingVerify, keys: Vec<Result<[u8; 32], Error>>) -> (r: VerifyResult)
    requires
        keys@.len() == resolve_list(check_models(pending.checks@)).len(),
    ensures
        result_model(r) == result_of(
            message_views(pending.errors@) + check_errors(
                check_models(pending.checks@),
                key_models(keys@),
                pending.canonical@,
            ),
            message_views(pending.warnings@),
        ),
{
    let PendingVerify { errors, warnings, canonical, checks } = pending;
    let mut errors = errors;
    let ghost cs = check_models(checks@);
    let ghost ks = key_models(keys@);
    let ghost total = message_views(errors@) + check_errors(cs, ks, canonical@);
    let mut i: usize = 0;
    let mut k: usize = 0;
    assert(cs.subrange(0, cs.len() as int) =~= cs);
    assert(ks.subrange(0, ks.len() as int) =~= ks);
    while i < checks.len()
        invariant
            i <= cs.len(),
            k <= ks.len(),
            cs == check_models(checks@),
            ks == key_models(keys@),
            ks.len() == keys.len(),
            resolve_list(cs.subrange(i as int, cs.len() as int)).len() == ks.len() - k,
            message_views(errors@) + check_errors(
                cs.subrange(i as int, cs.len() as int),
                ks.subrange(k as int, ks.len() as int),
                canonical@,
            ) == total,
        decreases cs.len() - i,
    {
        let ghost cur = cs.subrange(i as int, cs.len() as int);
        let ghost kcur = ks.subrange(k as int, ks.len() as int);
        assert(cur.drop_first() =~= cs.subrange(i + 1, cs.len() as int));
        assert(cur[0] == checks@[i as int].model());
        let ghost before = message_views(errors@);
        match &checks[i] {
            SigCheck::Undecodable { index, error } => {
                let mut msg = sig_prefix_bytes(*index);
                push_str(&mut msg, "base64 decode: ");
                push_str(&mut msg, error.message.as_str());
                proof {
                    let p = sig_prefix(*index as nat);
                    lemma_concat_valid_utf8(p, utf8("base64 decode: "@));
                    lemma_concat_valid_utf8(p + utf8("base64 decode: "@), utf8(error.message@));
                }
                push_message(&mut errors, msg);
                assert(message_views(errors@) + check_errors(
                    cs.subrange(i + 1, cs.len() as int),
                    kcur,
                    canonical@,
                ) =~= before + check_errors(cur, kcur, canonical@));
            },
            SigCheck::Check { index, signer_did, sig } => {
                assert(kcur.len() > 0);
                assert(kcur.drop_first() =~= ks.subrange(k + 1, ks.len() as int));
                assert(kcur[0] == key_model(keys@[k as int]));
                match &keys[k] {
                    Ok(pk) => {
                        if !verify_bytes(sig.as_slice(), canonical.as_slice(), pk) {
                            let mut msg = sig_prefix_bytes(*index);
                            push_str(&mut msg, "invalid signature for ");
                            push_str(&mut msg, signer_did.as_str());
                            proof {
                                let p = sig_prefix(*index as nat);
                                lemma_concat_valid_utf8(p, utf8("invalid signature for "@));
                                lemma_concat_valid_utf8(
                                    p + utf8("invalid signature for "@),
                                    utf8(signer_did@),
                                );
                            }
                            push_message(&mut errors, msg);
                        }
                    },
                    Err(e) => {
                        let mut msg = sig_prefix_bytes(*index);
                        e.push_message(&mut msg);
                        proof {
                            lemma_error_message_valid(*e);
                            lemma_concat_valid_utf8(sig_prefix(*index as nat), error_message(*e));
                        }
                        push_message(&mut errors, msg);
                    },
                }
                assert(message_views(errors@) + check_errors(
                    cs.subrange(i + 1, cs.len() as int),
                    ks.subrange(k + 1, ks.len() as int),
                    canonical@,
                ) =~= before + check_errors(cur, kcur, canonical@));
                k = k + 1;
            },
        }
        i = i + 1;
    }
    assert(cs.subrange(i as int, cs.len() as int) =~= Seq::<SigCheckModel>::empty());
    assert(message_views(errors@) + Seq::<Seq<u8>>::empty() =~= message_views(errors@));
    let ok = errors.len() == 0;
    VerifyResult { ok, errors, warnings }
}


/// What `format!("{:?}", s)` writes for a string: Rust's quoted, escaped form.
pub uninterp spec fn debug_text(s: Seq<char>) -> Seq<char>;

/// `format!("{:?}", s)`.
#[verifier::external_body]
fn debug_str(s: &str) -> (r: String)
    ensures
        r@ == debug_text(s@),
{
    format!("{:?}", s)
}

/// The view of an optional string.
pub open spec fn opt_view(o: Option<String>) -> Option<Seq<char>> {
    match o {
        Some(s) => Some(s@),
        None => None,
    }
}

/// `chain[i]: `, the prefix of the messages about link `i` of a chain.
pub open spec fn chain_prefix(i: nat) -> Seq<u8> {
    utf8("chain["@) + decimal_digits(i) + utf8("]: "@)
}

/// Messages with the prefix of link `i`.
pub open spec fn prefixed(i: nat, msgs: Seq<Seq<u8>>) -> Seq<Seq<u8>> {
    msgs.map_values(|m: Seq<u8>| chain_prefix(i) + m)
}

/// The complaint about link `i` when its `parent_cid` is not the CID of the
/// link before it (`prev`).
pub open spec fn parent_error(i: nat, link: JsonValue, prev: Option<Seq<char>>) -> Seq<Seq<u8>> {
    if link is Object && i > 0 {
        let got = field_str(link, "parent_cid"@);
        let expected: Seq<char> = match prev {
            Some(p) => p,
            None => Seq::empty(),
        };
        let shown: Seq<char> = match got {
            Some(g) => g,
            None => "<missing>"@,
        };
        message_if(
            got != prev,
            chain_prefix(i) + utf8("parent_cid mismatch — expected "@) + utf8(debug_text(expected))
                + utf8(", got "@) + utf8(debug_text(shown)),
        )
    } else {
        Seq::empty()
    }
}

/// The CID the next link must name as its parent.
pub open spec fn next_prev(link: JsonValue, prev: Option<Seq<char>>) -> Option<Seq<char>> {
    if link is Object {
        field_str(link, "cid"@)
    } else {
        prev
    }
}

/// The errors and warnings of a chain from link `i` on, given the results
/// of verifying each link on its own.
pub open spec fn chain_from(
    links: Seq<JsonValue>,
    results: Seq<(bool, Seq<Seq<u8>>, Seq<Seq<u8>>)>,
    i: nat,
    prev: Option<Seq<char>>,
) -> (Seq<Seq<u8>>, Seq<Seq<u8>>)
    decreases links.len() - i,
{
    if i >= links.len() || i >= results.len() {
        (Seq::empty(), Seq::empty())
    } else {
        let r = results[i as int];
        let errs = (if !r.0 {
            prefixed(i, r.1)
        } else {
            Seq::empty()
        }) + parent_error(i, links[i as int], prev);
        let rest = chain_from(links, results, i + 1, next_prev(links[i as int], prev));
        (errs + rest.0, prefixed(i, r.2) + rest.1)
    }
}

pub open spec fn result_models(v: Seq<VerifyResult>) -> Seq<(bool, Seq<Seq<u8>>, Seq<Seq<u8>>)> {
    v.map_values(|r: VerifyResult| result_model(r))
}

/// Appends each message of `msgs`, prefixed with `chain[i]: `.
fn push_prefixed(list: &mut Vec<String>, i: usize, msgs: &Vec<String>)
    ensures
        message_views(final(list)@) == message_views(old(list)@) + prefixed(
            i as nat,
            message_views(msgs@),
        ),
{
    let ghost start = message_views(list@);
    let mut j: usize = 0;
    while j < msgs.len()
        invariant
            j <= msgs@.len(),
            message_views(list@) == start + prefixed(
                i as nat,
                message_views(msgs@.subrange(0, j as int)),
            ),
        decreases msgs@.len() - j,
    {
        let mut m: Vec<u8> = Vec::new();
        push_str(&mut m, "chain[");
        let d = decimal(i as u64);
        push_bytes(&mut m, d.as_slice());
        push_str(&mut m, "]: ");
        push_str(&mut m, msgs[j].as_str());
        proof {
            lemma_decimal_ascii(i as nat);
            lemma_ascii_valid_utf8(decimal_digits(i as nat));
            lemma_concat_valid_utf8(utf8("chain["@), decimal_digits(i as nat));
            lemma_concat_valid_utf8(utf8("chain["@) + decimal_digits(i as nat), utf8("]: "@));
            lemma_concat_valid_utf8(chain_prefix(i as nat), utf8(msgs@[j as int]@));
        }
        push_message(list, m);
        assert(message_views(msgs@.subrange(0, j + 1)) =~= message_views(
            msgs@.subrange(0, j as int),
        ).push(utf8(msgs@[j as int]@)));
        assert(message_views(list@) =~= start + prefixed(
            i as nat,
            message_views(msgs@.subrange(0, j + 1)),
        ));
        j = j + 1;
    }
    assert(msgs@.subrange(0, msgs@.len() as int) =~= msgs@);
}

/// Appends the parent-link complaint of link `i`.
fn check_parent(errors: &mut Vec<String>, i: usize, link: &Json, prev: &Option<String>)
    ensures
        message_views(final(errors)@) == message_views(old(errors)@) + parent_error(
            i as nat,
            link.model(),
            opt_view(*prev),
        ),
{
    let ghost prev_view: Option<Seq<char>> = opt_view(*prev);
    if link.as_object().is_none() || i == 0 {
        assert(message_views(errors@) =~= message_views(old(errors)@) + parent_error(
            i as nat,
            link.model(),
            prev_view,
        ));
        return ;
    }
    let got = field_str_of(link, "parent_cid");
    let same = match (got, prev) {
        (Some(g), Some(p)) => crate::text::str_eq(g, p.as_str()),
        (None, None) => true,
        _ => false,
    };
    assert(same == (field_str(link.model(), "parent_cid"@) == prev_view));
    if !same {
        let expected: &str = match prev {
            Some(p) => p.as_str(),
            None => {
                proof {
                    reveal_strlit("");
                }
                ""
            },
        };
        let shown: &str = match got {
            Some(g) => g,
            None => "<missing>",
        };
        assert(expected@ == (match prev_view {
            Some(p) => p,
            None => Seq::<char>::empty(),
        }));
        assert(shown@ == (match field_str(link.model(), "parent_cid"@) {
            Some(g) => g,
            None => "<missing>"@,
        }));
        let e = debug_str(expected);
        let g = debug_str(shown);
        let mut m: Vec<u8> = Vec::new();
        push_str(&mut m, "chain[");
        let d = decimal(i as u64);
        push_bytes(&mut m, d.as_slice());
        push_str(&mut m, "]: ");
        push_str(&mut m, "parent_cid mismatch — expected ");
        push_str(&mut m, e.as_str());
        push_str(&mut m, ", got ");
        push_str(&mut m, g.as_str());
        proof {
            lemma_decimal_ascii(i as nat);
            lemma_ascii_valid_utf8(decimal_digits(i as nat));
            let a = utf8("chain["@);
            lemma_concat_valid_utf8(a, decimal_digits(i as nat));
            lemma_concat_valid_utf8(a + decimal_digits(i as nat), utf8("]: "@));
            let p = chain_prefix(i as nat);
            lemma_concat_valid_utf8(p, utf8("parent_cid mismatch — expected "@));
            lemma_concat_valid_utf8(p + utf8("parent_cid mismatch — expected "@), utf8(e@));
            lemma_concat_valid_utf8(
                p + utf8("parent_cid mismatch — expected "@) + utf8(e@),
                utf8(", got "@),
            );
            lemma_concat_valid_utf8(
                p + utf8("parent_cid mismatch — expected "@) + utf8(e@) + utf8(", got "@),
                utf8(g@),
            );
            assert(m@ =~= p + utf8("parent_cid mismatch — expected "@) + utf8(e@) + utf8(
                ", got "@,
            ) + utf8(g@));
        }
        assert(m@ == parent_error(i as nat, link.model(), prev_view)[0]);
        push_message(errors, m);
    }
    assert(message_views(errors@) =~= message_views(old(errors)@) + parent_error(
        i as nat,
        link.model(),
        prev_view,
    ));
}

/// Combines the results of verifying each link of a chain on its own:
/// every link's warnings, the errors of the links that failed, and a
/// complaint for each object link after the first whose `parent_cid` is not
/// the `cid` of the previous object link.
pub fn combine_chain(links: &Vec<Json>, results: Vec<VerifyResult>) -> (r: VerifyResult)
    requires
        links@.len() == results@.len(),
    ensures
        ({
            let c = chain_from(models(links@), result_models(results@), 0, None);
            result_model(r) == result_of(c.0, c.1)
        }),
{
    let ghost ls = models(links@);
    let ghost rs = result_models(results@);
    let ghost total = chain_from(ls, rs, 0, None);
    let mut errors: Vec<String> = Vec::new();
    let mut warnings: Vec<String> = Vec::new();
    let mut prev: Option<String> = None;
    let mut i: usize = 0;
    assert(message_views(errors@) =~= Seq::<Seq<u8>>::empty());
    assert(message_views(warnings@) =~= Seq::<Seq<u8>>::empty());
    while i < links.len()
        invariant
            i <= links@.len(),
            links@.len() == results@.len(),
            ls == models(links@),
            rs == result_models(results@),
            ({
                let pv: Option<Seq<char>> = opt_view(prev);
                let rest = chain_from(ls, rs, i as nat, pv);
                message_views(errors@) + rest.0 == total.0 && message_views(warnings@) + rest.1
                    == total.1
            }),
        decreases links@.len() - i,
    {
        let ghost pv: Option<Seq<char>> = opt_view(prev);
        let ghost e0 = message_views(errors@);
        let ghost w0 = message_views(warnings@);
        let link = &links[i];
        let res = &results[i];
        assert(ls[i as int] == link.model());
        assert(rs[i as int] == result_model(*res));
        push_prefixed(&mut warnings, i, &res.warnings);
        if !res.ok {
            push_prefixed(&mut errors, i, &res.errors);
        }
        let ghost e1 = message_views(errors@);
        check_parent(&mut errors, i, link, &prev);
        if link.as_object().is_some() {
            prev = match field_str_of(link, "cid") {
                Some(c) => Some(c.to_owned()),
                None => None,
            };
        }
        proof {
            let npv: Option<Seq<char>> = opt_view(prev);
            assert(npv == next_prev(ls[i as int], pv));
            let here = chain_from(ls, rs, i as nat, pv);
            let next = chain_from(ls, rs, (i + 1) as nat, npv);
            assert(message_views(errors@) + next.0 =~= e0 + here.0);
            assert(message_views(warnings@) + next.1 =~= w0 + here.1);
        }
        i = i + 1;
    }
    assert(message_views(errors@) =~= total.0);
    assert(message_views(warnings@) =~= total.1);
    let ok = errors.len() == 0;
    VerifyResult { ok, errors, warnings }
}


/// A link whose own verification failed with errors makes the whole chain
/// fail: its errors are reported, whatever the other links hold.
pub proof fn lemma_chain_reports_failed_link(
    links: Seq<JsonValue>,
    results: Seq<(bool, Seq<Seq<u8>>, Seq<Seq<u8>>)>,
    i: nat,
)
    requires
        links.len() == results.len(),
        i < links.len(),
        !results[i as int].0,
        results[i as int].1.len() > 0,
    ensures
        chain_from(links, results, 0, None).0.len() > 0,
{
    lemma_chain_errors_reach(links, results, i, 0, None);
}

proof fn lemma_chain_errors_reach(
    links: Seq<JsonValue>,
    results: Seq<(bool, Seq<Seq<u8>>, Seq<Seq<u8>>)>,
    i: nat,
    j: nat,
    prev: Option<Seq<char>>,
)
    requires
        links.len() == results.len(),
        j <= i < links.len(),
        !results[i as int].0,
        results[i as int].1.len() > 0,
    ensures
        chain_from(links, results, j, prev).0.len() > 0,
    decreases i - j,
{
    if j < i {
        lemma_chain_errors_reach(links, results, i, j + 1, next_prev(links[j as int], prev));
    } else {
        assert(prefixed(i, results[i as int].1).len() > 0);
    }
}

/// A chain of object links whose own verifications all succeeded, each link
/// after the first naming the `cid` of the one before as its `parent_cid`,
/// verifies.
pub proof fn lemma_chain_of_valid_links(
    links: Seq<JsonValue>,
    results: Seq<(bool, Seq<Seq<u8>>, Seq<Seq<u8>>)>,
)
    requires
        links.len() == results.len(),
        forall|k: int| 0 <= k < results.len() ==> #[trigger] results[k].0,
        forall|k: int| 0 <= k < links.len() ==> #[trigger] links[k] is Object,
        forall|k: int|
            0 < k < links.len() ==> #[trigger] field_str(links[k], "parent_cid"@) == field_str(
                links[k - 1],
                "cid"@,
            ),
    ensures
        chain_from(links, results, 0, None).0.len() == 0,
{
    lemma_chain_clean_from(links, results, 0, None);
}

proof fn lemma_chain_clean_from(
    links: Seq<JsonValue>,
    results: Seq<(bool, Seq<Seq<u8>>, Seq<Seq<u8>>)>,
    j: nat,
    prev: Option<Seq<char>>,
)
    requires
        links.len() == results.len(),
        j <= links.len(),
        j > 0 ==> prev == field_str(links[j - 1], "cid"@),
        forall|k: int| 0 <= k < results.len() ==> #[trigger] results[k].0,
        forall|k: int| 0 <= k < links.len() ==> #[trigger] links[k] is Object,
        forall|k: int|
            0 < k < links.len() ==> #[trigger] field_str(links[k], "parent_cid"@) == field_str(
                links[k - 1],
                "cid"@,
            ),
    ensures
        chain_from(links, results, j, prev).0.len() == 0,
    decreases links.len() - j,
{
    if j < links.len() {
        assert(links[j as int] is Object);
        assert(results[j as int].0);
        lemma_chain_clean_from(links, results, j + 1, next_prev(links[j as int], prev));
        if j > 0 {
            assert(field_str(links[j as int], "parent_cid"@) == prev);
        }
        assert(parent_error(j, links[j as int], prev).len() == 0);
    }
}


/// In a chain whose links are objects, each naming the `cid` of the one
/// before as its `parent_cid`, and whose links all verified on their own but
/// link `idx`, the chain's errors are those of link `idx`, prefixed with
/// `chain[idx]: `, and no others.
pub proof fn lemma_chain_flags_only_failed_link(
    links: Seq<JsonValue>,
    results: Seq<(bool, Seq<Seq<u8>>, Seq<Seq<u8>>)>,
    idx: nat,
)
    requires
        links.len() == results.len(),
        idx < links.len(),
        forall|k: int| 0 <= k < results.len() && k != idx ==> #[trigger] results[k].0,
        forall|k: int| 0 <= k < links.len() ==> #[trigger] links[k] is Object,
        forall|k: int|
            0 < k < links.len() ==> #[trigger] field_str(links[k], "parent_cid"@) == field_str(
                links[k - 1],
                "cid"@,
            ),
    ensures
        chain_from(links, results, 0, None).0 == if results[idx as int].0 {
            Seq::<Seq<u8>>::empty()
        } else {
            prefixed(idx, results[idx as int].1)
        },
{
    lemma_chain_one_failed_from(links, results, idx, 0, None);
}

proof fn lemma_chain_one_failed_from(
    links: Seq<JsonValue>,
    results: Seq<(bool, Seq<Seq<u8>>, Seq<Seq<u8>>)>,
    idx: nat,
    j: nat,
    prev: Option<Seq<char>>,
)
    requires
        links.len() == results.len(),
        idx < links.len(),
        j <= links.len(),
        j > 0 ==> prev == field_str(links[j - 1], "cid"@),
        forall|k: int| 0 <= k < results.len() && k != idx ==> #[trigger] results[k].0,
        forall|k: int| 0 <= k < links.len() ==> #[trigger] links[k] is Object,
        forall|k: int|
            0 < k < links.len() ==> #[trigger] field_str(links[k], "parent_cid"@) == field_str(
                links[k - 1],
                "cid"@,
            ),
    ensures
        chain_from(links, results, j, prev).0 == if j <= idx && !results[idx as int].0 {
            prefixed(idx, results[idx as int].1)
        } else {
            Seq::<Seq<u8>>::empty()
        },
    decreases links.len() - j,
{
    if j < links.len() {
        assert(links[j as int] is Object);
        lemma_chain_one_failed_from(links, results, idx, j + 1, next_prev(links[j as int], prev));
        if j > 0 {
            assert(field_str(links[j as int], "parent_cid"@) == prev);
        }
        assert(parent_error(j, links[j as int], prev).len() == 0);
        let r = results[j as int];
        let own: Seq<Seq<u8>> = if !r.0 {
            prefixed(j, r.1)
        } else {
            Seq::empty()
        };
        let rest = chain_from(links, results, j + 1, next_prev(links[j as int], prev));
        assert(chain_from(links, results, j, prev).0 == own + parent_error(j, links[j as int], prev)
            + rest.0);
        if j != idx {
            assert(r.0);
        }
        assert(chain_from(links, results, j, prev).0 =~= if j <= idx && !results[idx as int].0 {
            prefixed(idx, results[idx as int].1)
        } else {
            Seq::<Seq<u8>>::empty()
        });
    }
}


/// Verification judges retention at the configured instant whenever one is
/// given, whatever the clock reads; only without one does the clock decide.
/// So a manifest expiring before the configured instant is refused, and one
/// expiring after it is not, at any clock reading.
pub proof fn lemma_verify_time_is_configured(
    options: VerifyOptions,
    clock_a: i64,
    clock_b: i64,
    m: JsonValue,
)
    ensures
        options.now_ms matches Some(t) ==> verify_time(options, clock_a) == t,
        options.now_ms is Some ==> verify_time(options, clock_a) == verify_time(options, clock_b)
            && expiry_errors(m, verify_time(options, clock_a), options.ignore_expiry)
            == expiry_errors(m, verify_time(options, clock_b), options.ignore_expiry),
        options.now_ms is None ==> verify_time(options, clock_a) == clock_a,
{
}

/// In a chain of object links, a link after the first whose `parent_cid`
/// is not the `cid` of the link before it makes the chain fail, wherever it
/// stands in the chain and whatever the links' own results.
pub proof fn lemma_chain_refuses_broken_parent(
    links: Seq<JsonValue>,
    results: Seq<(bool, Seq<Seq<u8>>, Seq<Seq<u8>>)>,
    i: nat,
)
    requires
        links.len() == results.len(),
        0 < i < links.len(),
        forall|k: int| 0 <= k < links.len() ==> #[trigger] links[k] is Object,
        field_str(links[i as int], "parent_cid"@) != field_str(links[i - 1], "cid"@),
    ensures
        chain_from(links, results, 0, None).0.len() > 0,
        !result_of(
            chain_from(links, results, 0, None).0,
            chain_from(links, results, 0, None).1,
        ).0,
{
    lemma_chain_parent_reach(links, results, i, 0, None);
}

proof fn lemma_chain_parent_reach(
    links: Seq<JsonValue>,
    results: Seq<(bool, Seq<Seq<u8>>, Seq<Seq<u8>>)>,
    i: nat,
    j: nat,
    prev: Option<Seq<char>>,
)
    requires
        links.len() == results.len(),
        0 < i < links.len(),
        j <= i,
        j > 0 ==> prev == field_str(links[j - 1], "cid"@),
        forall|k: int| 0 <= k < links.len() ==> #[trigger] links[k] is Object,
        field_str(links[i as int], "parent_cid"@) != field_str(links[i - 1], "cid"@),
    ensures
        chain_from(links, results, j, prev).0.len() > 0,
    decreases i - j,
{
    assert(links[j as int] is Object);
    if j < i {
        lemma_chain_parent_reach(links, results, i, j + 1, next_prev(links[j as int], prev));
    } else {
        assert(parent_error(i, links[i as int], prev).len() == 1);
    }
}

} // verus!
