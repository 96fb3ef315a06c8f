use agent_cid::cid::bytes_to_cid;
use agent_cid::did::pubkey_to_did_key;
use agent_cid::error::Error;
use agent_cid::json::{Json, JsonNumber};
use agent_cid::manifest::{attach_signatures, build_unsigned};
use agent_cid::resolve::{builtin_resolve, BuiltinResolution};
use agent_cid::schema::validate_manifest;
use agent_cid::sign::b64encode;
use agent_cid::types::{BuildOpts, Retention, SignerInput, VerifyOptions, VerifyResult};
use agent_cid::verify::{combine_chain, finish_verify, prepare_verify, signers_to_resolve, VerifyStep};
use ed25519_dalek::{Signer, SigningKey};

const NOW_ISO: &str = "2025-01-01T00:00:00.000Z";
const NOW_MS: i64 = 1735689600000;

fn key(seed: u8) -> (SigningKey, String) {
    let sk = SigningKey::from_bytes(&[seed; 32]);
    let did = pubkey_to_did_key(sk.verifying_key().as_bytes()).unwrap();
    (sk, did)
}

fn opts_for(producer: &str, signers: &[&str]) -> BuildOpts {
    BuildOpts {
        producer_did: producer.to_string(),
        schema_uri: "https://example.org/answer/1".to_string(),
        media_type: "application/json".to_string(),
        signers: signers.iter().map(|d| SignerInput { did: d.to_string() }).collect(),
        parent_cid: None,
        retention: None,
        created_at: Some("2024-06-01T12:00:00.000Z".to_string()),
    }
}

fn build(body: &[u8], opts: &BuildOpts, keys: &[&SigningKey]) -> Json {
    let unsigned = build_unsigned(body, opts, NOW_ISO).unwrap();
    let sigs: Vec<Vec<u8>> =
        keys.iter().map(|k| k.sign(&unsigned.canonical).to_bytes().to_vec()).collect();
    attach_signatures(unsigned, &opts.signers, sigs)
}

fn verify_builtin(m: &Json, body: &[u8], options: &VerifyOptions) -> VerifyResult {
    match prepare_verify(m, body, options, NOW_MS) {
        VerifyStep::Done(r) => r,
        VerifyStep::Resolve(p) => {
            let keys = signers_to_resolve(&p)
                .iter()
                .map(|d| match builtin_resolve(d) {
                    BuiltinResolution::Resolved(k) => k,
                    BuiltinResolution::FetchDidWeb => Err(Error::Http("offline".into())),
                })
                .collect();
            finish_verify(p, keys)
        }
    }
}

fn field<'a>(m: &'a Json, key: &str) -> &'a Json {
    m.get(key).unwrap()
}

fn set_field(m: &mut Json, key: &str, value: Json) {
    if let Json::Object(entries) = m {
        for (k, v) in entries.iter_mut() {
            if k == key {
                *v = value;
                return;
            }
        }
        entries.push((key.to_string(), value));
    }
}

fn remove_field(m: &mut Json, key: &str) {
    if let Json::Object(entries) = m {
        entries.retain(|(k, _)| k != key);
    }
}

#[test]
fn build_then_verify_ok() {
    let (sk, did) = key(0x42);
    let body = br#"{"answer":42}"#;
    let m = build(body, &opts_for(&did, &[&did]), &[&sk]);
    let r = verify_builtin(&m, body, &VerifyOptions::default());
    assert!(r.ok, "{:?}", r.errors);
    assert!(r.errors.is_empty());
    assert!(r.warnings.is_empty());
}

#[test]
fn built_manifest_members() {
    let (sk, did) = key(0x42);
    let body = br#"{"answer":42}"#;
    let m = build(body, &opts_for(&did, &[&did]), &[&sk]);
    assert_eq!(field(&m, "v").as_str(), Some("agent-cid/1"));
    assert_eq!(field(&m, "cid").as_str(), Some(bytes_to_cid(body).as_str()));
    assert_eq!(
        field(&m, "cid").as_str(),
        Some("bafkreihm6wncnfwkissbpyqofj7kxmnsn2bmo6pykrv6unkkftea5dq65u")
    );
    assert_eq!(field(&m, "size").as_u64(), Some(13));
    assert_eq!(field(&m, "media_type").as_str(), Some("application/json"));
    assert_eq!(field(&m, "schema_uri").as_str(), Some("https://example.org/answer/1"));
    assert_eq!(field(&m, "producer").as_str(), Some(did.as_str()));
    assert_eq!(field(&m, "created_at").as_str(), Some("2024-06-01T12:00:00.000Z"));
    assert!(m.get("parent_cid").is_none());
    assert!(m.get("retention").is_none());
    let sigs = field(&m, "sigs").as_array().unwrap();
    assert_eq!(sigs.len(), 1);
    assert_eq!(field(&sigs[0], "signer_did").as_str(), Some(did.as_str()));
    assert_eq!(field(&sigs[0], "alg").as_str(), Some("ed25519"));
    assert_eq!(field(&sigs[0], "sig").as_str().unwrap().len(), 88);
    let keys: Vec<&str> = m.as_object().unwrap().iter().map(|(k, _)| k.as_str()).collect();
    assert_eq!(
        keys,
        vec!["v", "cid", "size", "media_type", "schema_uri", "producer", "created_at", "sigs"]
    );
}

#[test]
fn signature_covers_canonical_unsigned_manifest() {
    let (sk, did) = key(0x42);
    let body = b"payload";
    let opts = opts_for(&did, &[&did]);
    let unsigned = build_unsigned(body, &opts, NOW_ISO).unwrap();
    let text = String::from_utf8(unsigned.canonical.clone()).unwrap();
    let expected = format!(
        "{{\"cid\":\"{}\",\"created_at\":\"2024-06-01T12:00:00.000Z\",\"media_type\":\"application/json\",\"producer\":\"{}\",\"schema_uri\":\"https://example.org/answer/1\",\"size\":7,\"v\":\"agent-cid/1\"}}",
        bytes_to_cid(body),
        did
    );
    assert_eq!(text, expected);
    let sig = sk.sign(&unsigned.canonical).to_bytes().to_vec();
    let encoded = b64encode(&sig);
    let m = attach_signatures(unsigned, &opts.signers, vec![sig]);
    let sigs = field(&m, "sigs").as_array().unwrap();
    assert_eq!(field(&sigs[0], "sig").as_str(), Some(encoded.as_str()));
}

#[test]
fn created_at_defaults_to_now() {
    let (sk, did) = key(0x42);
    let mut opts = opts_for(&did, &[&did]);
    opts.created_at = None;
    let m = build(b"x", &opts, &[&sk]);
    assert_eq!(field(&m, "created_at").as_str(), Some(NOW_ISO));
}

#[test]
fn build_requires_a_signer() {
    let (_, did) = key(0x42);
    let opts = opts_for(&did, &[]);
    match build_unsigned(b"x", &opts, NOW_ISO) {
        Err(Error::Invalid(m)) => assert_eq!(m, "build requires at least one signer"),
        other => panic!("unexpected {:?}", other),
    }
}

#[test]
fn tampered_body_fails_with_cid_mismatch() {
    let (sk, did) = key(0x42);
    let body = br#"{"answer":42}"#.to_vec();
    let m = build(&body, &opts_for(&did, &[&did]), &[&sk]);
    let mut tampered = body.clone();
    tampered[0] ^= 0xFF;
    let r = verify_builtin(&m, &tampered, &VerifyOptions::default());
    assert!(!r.ok);
    assert_eq!(r.errors, vec!["cid mismatch".to_string()]);
}

#[test]
fn shorter_body_fails_with_size_and_cid() {
    let (sk, did) = key(0x42);
    let body = br#"{"answer":42}"#;
    let m = build(body, &opts_for(&did, &[&did]), &[&sk]);
    let r = verify_builtin(&m, &body[..12], &VerifyOptions::default());
    assert!(!r.ok);
    assert_eq!(
        r.errors,
        vec!["size mismatch: manifest 13, body 12".to_string(), "cid mismatch".to_string()]
    );
}

#[test]
fn two_signers_one_wrong_key() {
    let (sk1, did1) = key(0x42);
    let (_, did2) = key(0x43);
    let (sk3, _) = key(0x44);
    let body = b"two signers";
    let m = build(body, &opts_for(&did1, &[&did1, &did2]), &[&sk1, &sk3]);
    let r = verify_builtin(&m, body, &VerifyOptions::default());
    assert!(!r.ok);
    assert_eq!(r.errors, vec![format!("sigs[1]: invalid signature for {}", did2)]);
}

#[test]
fn two_signers_both_valid() {
    let (sk1, did1) = key(0x42);
    let (sk2, did2) = key(0x43);
    let body = b"two signers";
    let m = build(body, &opts_for(&did1, &[&did1, &did2]), &[&sk1, &sk2]);
    let r = verify_builtin(&m, body, &VerifyOptions::default());
    assert!(r.ok, "{:?}", r.errors);
}

fn with_sig(m: &Json, sig: &str) -> Json {
    let mut m = m.duplicate();
    let entry = field(&m, "sigs").as_array().unwrap()[0].duplicate();
    let mut entry = entry;
    set_field(&mut entry, "sig", Json::Str(sig.to_string()));
    set_field(&mut m, "sigs", Json::Array(vec![entry]));
    m
}

#[test]
fn short_signature_is_invalid() {
    let (sk, did) = key(0x42);
    let body = b"x";
    let m = build(body, &opts_for(&did, &[&did]), &[&sk]);
    let r = verify_builtin(&with_sig(&m, "AAAA"), body, &VerifyOptions::default());
    assert!(!r.ok);
    assert_eq!(r.errors, vec![format!("sigs[0]: invalid signature for {}", did)]);
}

#[test]
fn undecodable_signature_is_reported() {
    let (sk, did) = key(0x42);
    let body = b"x";
    let m = build(body, &opts_for(&did, &[&did]), &[&sk]);
    let r = verify_builtin(&with_sig(&m, "!!!!"), body, &VerifyOptions::default());
    assert!(!r.ok);
    assert_eq!(r.errors.len(), 1);
    assert!(r.errors[0].starts_with("sigs[0]: base64 decode: "), "{:?}", r.errors);
}

#[test]
fn unsupported_did_method_is_reported() {
    let (sk, _) = key(0x42);
    let body = b"x";
    let opts = opts_for("did:example:producer", &["did:example:signer"]);
    let m = build(body, &opts, &[&sk]);
    let r = verify_builtin(&m, body, &VerifyOptions::default());
    assert!(!r.ok);
    assert_eq!(r.errors, vec!["sigs[0]: unsupported DID method: did:example:signer".to_string()]);
}

#[test]
fn did_web_signer_needs_a_fetch() {
    let (sk, _) = key(0x42);
    let body = b"x";
    let opts = opts_for("did:web:example.com", &["did:web:example.com"]);
    let m = build(body, &opts, &[&sk]);
    match prepare_verify(&m, body, &VerifyOptions::default(), NOW_MS) {
        VerifyStep::Resolve(p) => {
            assert_eq!(signers_to_resolve(&p), vec!["did:web:example.com".to_string()]);
            let r = finish_verify(p, vec![Err(Error::DidWebHttp("did:web:example.com".into(), 404))]);
            assert!(!r.ok);
            assert_eq!(r.errors, vec!["sigs[0]: did:web fetch did:web:example.com: HTTP 404".to_string()]);
        }
        VerifyStep::Done(r) => panic!("unexpected {:?}", r),
    }
}

fn with_retention(stale: Option<&str>, expires: Option<&str>) -> (Json, Vec<u8>) {
    let (sk, did) = key(0x42);
    let body = b"retained".to_vec();
    let mut opts = opts_for(&did, &[&did]);
    opts.retention = Some(Retention {
        stale_after: stale.map(String::from),
        expires_at: expires.map(String::from),
    });
    (build(&body, &opts, &[&sk]), body)
}

#[test]
fn expired_manifest_fails() {
    let (m, body) = with_retention(None, Some("2020-01-01T00:00:00Z"));
    let options = VerifyOptions { now_ms: Some(NOW_MS), ..VerifyOptions::default() };
    let r = verify_builtin(&m, &body, &options);
    assert!(!r.ok);
    assert_eq!(r.errors, vec!["expired at 2020-01-01T00:00:00Z".to_string()]);
    assert!(r.warnings.is_empty());
}

#[test]
fn expired_manifest_with_expiry_ignored() {
    let (m, body) = with_retention(None, Some("2020-01-01T00:00:00Z"));
    let options =
        VerifyOptions { now_ms: Some(NOW_MS), ignore_expiry: true, ..VerifyOptions::default() };
    let r = verify_builtin(&m, &body, &options);
    assert!(r.ok, "{:?}", r.errors);
    assert_eq!(r.warnings, vec!["expired at 2020-01-01T00:00:00Z (ignored)".to_string()]);
}

#[test]
fn stale_manifest_warns() {
    let (m, body) = with_retention(Some("2021-01-01T00:00:00Z"), Some("2099-01-01T00:00:00Z"));
    let options = VerifyOptions { now_ms: Some(NOW_MS), ..VerifyOptions::default() };
    let r = verify_builtin(&m, &body, &options);
    assert!(r.ok, "{:?}", r.errors);
    assert_eq!(r.warnings, vec!["stale since 2021-01-01T00:00:00Z".to_string()]);
    let retention = field(&m, "retention");
    assert_eq!(field(retention, "stale_after").as_str(), Some("2021-01-01T00:00:00Z"));
}

#[test]
fn unparsable_expiry_is_ignored() {
    let (m, body) = with_retention(Some("soon"), Some("never"));
    let options = VerifyOptions { now_ms: Some(NOW_MS), ..VerifyOptions::default() };
    let r = verify_builtin(&m, &body, &options);
    assert!(r.ok, "{:?}", r.errors);
    assert!(r.warnings.is_empty());
}

#[test]
fn expiry_at_now_is_expired() {
    let (m, body) = with_retention(None, Some("2025-01-01T00:00:00Z"));
    let options = VerifyOptions { now_ms: Some(NOW_MS - 1), ..VerifyOptions::default() };
    let r = verify_builtin(&m, &body, &options);
    assert!(r.ok, "{:?}", r.errors);
    let options = VerifyOptions { now_ms: Some(NOW_MS), ..VerifyOptions::default() };
    let r = verify_builtin(&m, &body, &options);
    assert!(!r.ok);
    assert_eq!(r.errors, vec!["expired at 2025-01-01T00:00:00Z".to_string()]);
    let options =
        VerifyOptions { now_ms: Some(NOW_MS), ignore_expiry: true, ..VerifyOptions::default() };
    let r = verify_builtin(&m, &body, &options);
    assert!(r.ok, "{:?}", r.errors);
    assert_eq!(r.warnings, vec!["expired at 2025-01-01T00:00:00Z (ignored)".to_string()]);
}

#[test]
fn stale_at_now_is_not_yet_stale() {
    let (m, body) = with_retention(Some("2025-01-01T00:00:00Z"), None);
    let options = VerifyOptions { now_ms: Some(NOW_MS), ..VerifyOptions::default() };
    let r = verify_builtin(&m, &body, &options);
    assert!(r.ok, "{:?}", r.errors);
    assert!(r.warnings.is_empty());
}

#[test]
fn schema_root_not_object() {
    assert_eq!(validate_manifest(&Json::Null), Err(vec!["schema: root not an object".to_string()]));
    let r = verify_builtin(&Json::Array(vec![]), b"", &VerifyOptions::default());
    assert!(!r.ok);
    assert_eq!(r.errors, vec!["schema: root not an object".to_string()]);
}

#[test]
fn schema_empty_object() {
    let errors = validate_manifest(&Json::Object(vec![])).unwrap_err();
    assert_eq!(
        errors,
        vec![
            "schema: v must be \"agent-cid/1\"",
            "schema: cid must be non-empty string",
            "schema: media_type must be non-empty string",
            "schema: schema_uri must be non-empty string",
            "schema: producer must be non-empty string",
            "schema: created_at must be non-empty string",
            "schema: size must be non-negative integer",
            "schema: producer must start with did:",
            "schema: sigs must be non-empty array",
        ]
        .into_iter()
        .map(String::from)
        .collect::<Vec<String>>()
    );
}

#[test]
fn schema_bad_members() {
    let (sk, did) = key(0x42);
    let body = b"x";
    let mut m = build(body, &opts_for(&did, &[&did]), &[&sk]);
    set_field(&mut m, "size", Json::Number(JsonNumber::NegInt(-1)));
    set_field(&mut m, "parent_cid", Json::Str(String::new()));
    set_field(
        &mut m,
        "sigs",
        Json::Array(vec![
            Json::Str("nope".into()),
            Json::Object(vec![
                ("signer_did".to_string(), Json::Str("key:abc".into())),
                ("alg".to_string(), Json::Str("rsa".into())),
                ("sig".to_string(), Json::Str(String::new())),
            ]),
        ]),
    );
    let errors = validate_manifest(&m).unwrap_err();
    assert_eq!(
        errors,
        vec![
            "schema: size must be non-negative integer",
            "schema: parent_cid must be non-empty string",
            "schema: sigs[0] not object",
            "schema: sigs[1].signer_did must start with did:",
            "schema: sigs[1].alg must be \"ed25519\"",
            "schema: sigs[1].sig must be non-empty string",
        ]
        .into_iter()
        .map(String::from)
        .collect::<Vec<String>>()
    );
    let r = verify_builtin(&m, body, &VerifyOptions::default());
    assert!(!r.ok);
    assert_eq!(r.errors, errors);
}

#[test]
fn schema_empty_sigs() {
    let (sk, did) = key(0x42);
    let body = b"x";
    let mut m = build(body, &opts_for(&did, &[&did]), &[&sk]);
    set_field(&mut m, "sigs", Json::Array(vec![]));
    assert_eq!(validate_manifest(&m), Err(vec!["schema: sigs must be non-empty array".to_string()]));
    remove_field(&mut m, "sigs");
    assert_eq!(validate_manifest(&m), Err(vec!["schema: sigs must be non-empty array".to_string()]));
}

#[test]
fn added_member_breaks_signature() {
    let (sk, did) = key(0x42);
    let body = b"x";
    let mut m = build(body, &opts_for(&did, &[&did]), &[&sk]);
    set_field(&mut m, "media_type", Json::Str("text/plain".into()));
    let r = verify_builtin(&m, body, &VerifyOptions::default());
    assert!(!r.ok);
    assert_eq!(r.errors, vec![format!("sigs[0]: invalid signature for {}", did)]);
}

fn chain_link(sk: &SigningKey, did: &str, body: &[u8], parent: Option<&str>) -> Json {
    let mut opts = opts_for(did, &[did]);
    opts.parent_cid = parent.map(String::from);
    build(body, &opts, &[sk])
}

fn verify_chain_builtin(chain: &[(Json, Vec<u8>)]) -> VerifyResult {
    let results: Vec<VerifyResult> =
        chain.iter().map(|(m, b)| verify_builtin(m, b, &VerifyOptions::default())).collect();
    let links: Vec<Json> = chain.iter().map(|(m, _)| m.duplicate()).collect();
    combine_chain(&links, results)
}

#[test]
fn chain_of_valid_links() {
    let (sk, did) = key(0x42);
    let b1 = br#"{"answer":42}"#.to_vec();
    let m1 = chain_link(&sk, &did, &b1, None);
    let c1 = bytes_to_cid(&b1);
    let b2 = br#"{"answer":43}"#.to_vec();
    let m2 = chain_link(&sk, &did, &b2, Some(&c1));
    assert_eq!(field(&m2, "parent_cid").as_str(), Some(c1.as_str()));
    let r = verify_chain_builtin(&[(m1, b1), (m2, b2)]);
    assert!(r.ok, "{:?}", r.errors);
    assert!(r.warnings.is_empty());
}

#[test]
fn chain_with_wrong_parent() {
    let (sk, did) = key(0x42);
    let b1 = b"one".to_vec();
    let m1 = chain_link(&sk, &did, &b1, None);
    let c1 = bytes_to_cid(&b1);
    let b2 = b"two".to_vec();
    let m2 = chain_link(&sk, &did, &b2, Some("bogus"));
    let r = verify_chain_builtin(&[(m1, b1), (m2, b2)]);
    assert!(!r.ok);
    assert_eq!(
        r.errors,
        vec![format!("chain[1]: parent_cid mismatch \u{2014} expected \"{}\", got \"bogus\"", c1)]
    );
}

#[test]
fn chain_with_missing_parent() {
    let (sk, did) = key(0x42);
    let b1 = b"one".to_vec();
    let m1 = chain_link(&sk, &did, &b1, None);
    let c1 = bytes_to_cid(&b1);
    let b2 = b"two".to_vec();
    let m2 = chain_link(&sk, &did, &b2, None);
    let r = verify_chain_builtin(&[(m1, b1), (m2, b2)]);
    assert!(!r.ok);
    assert_eq!(
        r.errors,
        vec![format!("chain[1]: parent_cid mismatch \u{2014} expected \"{}\", got \"<missing>\"", c1)]
    );
}

#[test]
fn chain_reports_failed_link() {
    let (sk, did) = key(0x42);
    let b1 = b"one".to_vec();
    let m1 = chain_link(&sk, &did, &b1, None);
    let c1 = bytes_to_cid(&b1);
    let b2 = b"two".to_vec();
    let m2 = chain_link(&sk, &did, &b2, Some(&c1));
    let r = verify_chain_builtin(&[(m1, b1), (with_sig(&m2, "AAAA"), b2)]);
    assert!(!r.ok);
    assert_eq!(r.errors, vec![format!("chain[1]: sigs[0]: invalid signature for {}", did)]);
}

#[test]
fn chain_prefixes_warnings() {
    let (m, body) = with_retention(Some("2021-01-01T00:00:00Z"), None);
    let results = vec![verify_builtin(&m, &body, &VerifyOptions { now_ms: Some(NOW_MS), ..VerifyOptions::default() })];
    let r = combine_chain(&vec![m], results);
    assert!(r.ok);
    assert_eq!(r.warnings, vec!["chain[0]: stale since 2021-01-01T00:00:00Z".to_string()]);
}

#[test]
fn empty_chain_is_ok() {
    let r = combine_chain(&vec![], vec![]);
    assert!(r.ok);
    assert!(r.errors.is_empty());
}
