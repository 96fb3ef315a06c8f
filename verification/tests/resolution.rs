use agent_cid::did::pubkey_to_did_key;
use agent_cid::did_web::{
    check_did_web_size, check_did_web_status, did_web_doc_key, did_web_fetch_url, DEFAULT_SIZE_LIMIT,
    DEFAULT_TIMEOUT_MS,
};
use agent_cid::error::Error;
use agent_cid::resolve::{
    builtin_resolve, check_resolved_key, plan_resolution, record_resolution, BuiltinResolution,
    PubkeyCache, ResolvePlan, RESOLVER_CACHE_TTL_MS,
};
use agent_cid::types::{VerifyOptions, VerifyResult};

#[test]
fn builtin_resolves_did_key() {
    let key = [9u8; 32];
    let did = pubkey_to_did_key(&key).unwrap();
    match builtin_resolve(&did) {
        BuiltinResolution::Resolved(Ok(pk)) => assert_eq!(pk, key),
        other => panic!("unexpected {:?}", other),
    }
}

#[test]
fn builtin_reports_bad_did_key() {
    match builtin_resolve("did:key:abc") {
        BuiltinResolution::Resolved(Err(Error::Invalid(m))) => {
            assert_eq!(m, "not a did:key (must start with \"did:key:z\"): did:key:abc")
        }
        other => panic!("unexpected {:?}", other),
    }
}

#[test]
fn builtin_defers_did_web() {
    assert!(matches!(builtin_resolve("did:web:example.com"), BuiltinResolution::FetchDidWeb));
}

#[test]
fn builtin_refuses_other_methods() {
    match builtin_resolve("did:plc:xyz") {
        BuiltinResolution::Resolved(Err(Error::Invalid(m))) => {
            assert_eq!(m, "unsupported DID method: did:plc:xyz")
        }
        other => panic!("unexpected {:?}", other),
    }
}

#[test]
fn resolver_key_length_checked() {
    assert_eq!(check_resolved_key(&[3u8; 32]).unwrap(), [3u8; 32]);
    match check_resolved_key(&[3u8; 33]) {
        Err(Error::Invalid(m)) => assert_eq!(m, "resolver returned non-32-byte pubkey"),
        other => panic!("unexpected {:?}", other),
    }
    assert!(check_resolved_key(&[]).is_err());
}

#[test]
fn cache_insert_then_lookup() {
    let mut cache = PubkeyCache::new();
    assert_eq!(cache.lookup(0, "did:key:a", 0), None);
    cache.insert(0, "did:key:a", [1u8; 32], 1000);
    assert_eq!(cache.lookup(0, "did:key:a", 1000), Some([1u8; 32]));
    assert_eq!(cache.lookup(0, "did:key:a", 1000 + RESOLVER_CACHE_TTL_MS - 1), Some([1u8; 32]));
    assert_eq!(cache.lookup(0, "did:key:a", 1000 + RESOLVER_CACHE_TTL_MS), None);
    assert_eq!(cache.lookup(0, "did:key:b", 1000), None);
}

#[test]
fn cache_insert_replaces() {
    let mut cache = PubkeyCache::new();
    cache.insert(0, "did:key:a", [1u8; 32], 0);
    cache.insert(0, "did:key:b", [2u8; 32], 0);
    cache.insert(0, "did:key:a", [3u8; 32], 500_000);
    assert_eq!(cache.lookup(0, "did:key:a", 400_000), Some([3u8; 32]));
    assert_eq!(cache.lookup(0, "did:key:b", 299_999), Some([2u8; 32]));
    assert_eq!(cache.lookup(0, "did:key:b", 300_000), None);
}

#[test]
fn cache_is_scoped_per_resolver() {
    let mut cache = PubkeyCache::new();
    cache.insert(1, "did:key:a", [1u8; 32], 0);
    cache.insert(2, "did:key:a", [2u8; 32], 0);
    assert_eq!(cache.lookup(1, "did:key:a", 10), Some([1u8; 32]));
    assert_eq!(cache.lookup(2, "did:key:a", 10), Some([2u8; 32]));
    assert_eq!(cache.lookup(0, "did:key:a", 10), None);
}

#[test]
fn plan_uses_fresh_cache_entry() {
    let mut cache = PubkeyCache::new();
    cache.insert(7, "did:web:example.com", [5u8; 32], 0);
    match plan_resolution(&cache, Some(7), false, "did:web:example.com", 10) {
        ResolvePlan::Cached(pk) => assert_eq!(pk, [5u8; 32]),
        other => panic!("unexpected {:?}", other),
    }
    assert!(matches!(
        plan_resolution(&cache, None, false, "did:web:example.com", 10),
        ResolvePlan::Builtin(BuiltinResolution::FetchDidWeb)
    ));
    assert!(matches!(
        plan_resolution(&cache, Some(7), true, "did:web:example.com", RESOLVER_CACHE_TTL_MS),
        ResolvePlan::AskResolver
    ));
    assert!(matches!(
        plan_resolution(&cache, Some(8), true, "did:web:example.com", 10),
        ResolvePlan::AskResolver
    ));
}

#[test]
fn plan_builtin_did_key() {
    let cache = PubkeyCache::new();
    let did = pubkey_to_did_key(&[4u8; 32]).unwrap();
    match plan_resolution(&cache, Some(0), false, &did, 0) {
        ResolvePlan::Builtin(BuiltinResolution::Resolved(Ok(pk))) => assert_eq!(pk, [4u8; 32]),
        other => panic!("unexpected {:?}", other),
    }
}

#[test]
fn record_stores_only_when_caching() {
    let mut cache = PubkeyCache::new();
    record_resolution(&mut cache, None, "did:key:a", [1u8; 32], 0);
    assert_eq!(cache.lookup(0, "did:key:a", 0), None);
    record_resolution(&mut cache, Some(0), "did:key:a", [1u8; 32], 0);
    assert_eq!(cache.lookup(0, "did:key:a", 0), Some([1u8; 32]));
    record_resolution(&mut cache, Some(3), "did:key:b", [2u8; 32], i64::MAX);
    assert_eq!(cache.lookup(3, "did:key:b", 0), None);
}

#[test]
fn ttl_is_five_minutes() {
    assert_eq!(RESOLVER_CACHE_TTL_MS, 300_000);
}

#[test]
fn did_web_fetch_url_is_https() {
    assert_eq!(
        did_web_fetch_url("did:web:example.com:u").unwrap(),
        "https://example.com/u/did.json"
    );
    match did_web_fetch_url("did:web:") {
        Err(Error::Invalid(m)) => assert_eq!(m, "did:web missing host"),
        other => panic!("unexpected {:?}", other),
    }
}

#[test]
fn did_web_status_checks() {
    assert!(check_did_web_status("did:web:a", 200).is_ok());
    assert!(check_did_web_status("did:web:a", 204).is_ok());
    match check_did_web_status("did:web:a", 404) {
        Err(Error::DidWebHttp(d, s)) => {
            assert_eq!(d, "did:web:a");
            assert_eq!(s, 404);
        }
        other => panic!("unexpected {:?}", other),
    }
    assert!(check_did_web_status("did:web:a", 302).is_err());
    assert!(check_did_web_status("did:web:a", 199).is_err());
}

#[test]
fn did_web_size_checks() {
    assert!(check_did_web_size(DEFAULT_SIZE_LIMIT, DEFAULT_SIZE_LIMIT).is_ok());
    match check_did_web_size(DEFAULT_SIZE_LIMIT + 1, DEFAULT_SIZE_LIMIT) {
        Err(e @ Error::DidWebTooLarge { .. }) => {
            assert_eq!(e.message(), "did:web doc size 65537 > limit 65536")
        }
        other => panic!("unexpected {:?}", other),
    }
}

#[test]
fn did_web_defaults() {
    assert_eq!(DEFAULT_TIMEOUT_MS, 5000);
    assert_eq!(DEFAULT_SIZE_LIMIT, 65536);
}

#[test]
fn verify_options_defaults() {
    let o = VerifyOptions::default();
    assert!(o.resolver_cache);
    assert_eq!(o.resolver_timeout_ms, 5000);
    assert!(!o.ignore_expiry);
    assert_eq!(o.now_ms, None);
}

#[test]
fn verify_result_default() {
    let r = VerifyResult::default();
    assert!(!r.ok);
    assert!(r.errors.is_empty());
    assert!(r.warnings.is_empty());
}

#[test]
fn did_web_document_key() {
    let key = [6u8; 32];
    let mb = pubkey_to_did_key(&key).unwrap()["did:key:".len()..].to_string();
    let doc = format!(
        "{{\"id\":\"did:web:example.com\",\"verificationMethod\":[{{\"id\":\"did:web:example.com#k\",\"controller\":\"did:web:example.com\",\"type\":\"Ed25519VerificationKey2020\",\"publicKeyMultibase\":\"{}\"}}]}}",
        mb
    );
    assert_eq!(did_web_doc_key("did:web:example.com", doc.as_bytes(), DEFAULT_SIZE_LIMIT).unwrap(), key);
    match did_web_doc_key("did:web:example.com", doc.as_bytes(), 10) {
        Err(Error::DidWebTooLarge { size, limit }) => {
            assert_eq!(size, doc.len());
            assert_eq!(limit, 10);
        }
        other => panic!("unexpected {:?}", other),
    }
    match did_web_doc_key("did:web:other.org", doc.as_bytes(), DEFAULT_SIZE_LIMIT) {
        Err(Error::Invalid(m)) => {
            assert_eq!(m, "no Ed25519 verification method found for did:web:other.org")
        }
        other => panic!("unexpected {:?}", other),
    }
}

#[test]
fn did_web_document_not_json() {
    match did_web_doc_key("did:web:a", b"{not json", DEFAULT_SIZE_LIMIT) {
        Err(Error::Json(m)) => assert!(!m.is_empty()),
        other => panic!("unexpected {:?}", other),
    }
    match did_web_doc_key("did:web:a", b"{\"verificationMethod\":[],\"x\":1.5}", DEFAULT_SIZE_LIMIT) {
        Err(Error::Json(m)) => assert_eq!(m, "non-integral numbers are not supported"),
        other => panic!("unexpected {:?}", other),
    }
    match did_web_doc_key("did:web:a", b"[1, -2, 18446744073709551615]", DEFAULT_SIZE_LIMIT) {
        Err(Error::Invalid(m)) => assert_eq!(m, "DID document has no verificationMethod"),
        other => panic!("unexpected {:?}", other),
    }
}
