use agent_cid::did::{
    did_key_to_pubkey, did_web_to_url, parse_ed25519_from_did_doc, percent_decode,
    pubkey_to_did_key, varint_decode,
};
use agent_cid::error::Error;
use agent_cid::json::Json;

fn invalid_message(e: Error) -> String {
    match e {
        Error::Invalid(m) => m,
        other => panic!("expected Error::Invalid, got {:?}", other),
    }
}

#[test]
fn varint_decodes_ed25519_multicodec() {
    let (code, len) = varint_decode(&[0xED, 0x01, 0x07]).unwrap();
    assert_eq!(code, 0xED);
    assert_eq!(len, 2);
}

#[test]
fn varint_single_byte() {
    assert_eq!(varint_decode(&[0x05]).unwrap(), (5, 1));
    assert_eq!(varint_decode(&[0x00, 0xFF]).unwrap(), (0, 1));
}

#[test]
fn varint_largest_value() {
    let bytes = [0xFF, 0xFF, 0xFF, 0xFF, 0xFF, 0xFF, 0xFF, 0xFF, 0xFF, 0x01];
    assert_eq!(varint_decode(&bytes).unwrap(), (u64::MAX, 10));
}

#[test]
fn varint_truncated() {
    assert_eq!(invalid_message(varint_decode(&[]).unwrap_err()), "varint truncated");
    assert_eq!(invalid_message(varint_decode(&[0x80]).unwrap_err()), "varint truncated");
    assert_eq!(invalid_message(varint_decode(&[0x80; 9]).unwrap_err()), "varint truncated");
}

#[test]
fn varint_overflow() {
    assert_eq!(invalid_message(varint_decode(&[0x80; 10]).unwrap_err()), "varint overflow");
    assert_eq!(invalid_message(varint_decode(&[0x80; 12]).unwrap_err()), "varint overflow");
}

#[test]
fn did_key_of_zero_key() {
    let did = pubkey_to_did_key(&[0u8; 32]).unwrap();
    assert_eq!(did, "did:key:z6MkeTG3bFFSLYVU7VqhgZxqr6YzpaGrQtFMh1uvqGy1vDnP");
}

#[test]
fn did_key_roundtrip() {
    let key: Vec<u8> = (0u8..32).collect();
    let did = pubkey_to_did_key(&key).unwrap();
    assert_eq!(did, "did:key:z6MkeTGwHmLmuCmgg4ABYhzWVh6ZX7hTwWt8gguAretUfc9c");
    let back = did_key_to_pubkey(&did).unwrap();
    assert_eq!(back.to_vec(), key);
}

#[test]
fn did_key_of_real_ed25519_key() {
    let sk = ed25519_dalek::SigningKey::from_bytes(&[0x42u8; 32]);
    let pk = sk.verifying_key().to_bytes();
    let did = pubkey_to_did_key(&pk).unwrap();
    assert!(did.starts_with("did:key:z6Mk"));
    assert_eq!(did_key_to_pubkey(&did).unwrap(), pk);
}

#[test]
fn pubkey_wrong_length_refused() {
    let e = pubkey_to_did_key(&[1u8; 31]).unwrap_err();
    assert_eq!(invalid_message(e), "ed25519 pubkey must be 32 bytes, got 31");
    let e = pubkey_to_did_key(&[]).unwrap_err();
    assert_eq!(invalid_message(e), "ed25519 pubkey must be 32 bytes, got 0");
}

#[test]
fn did_key_needs_prefix() {
    let e = did_key_to_pubkey("did:web:example.com").unwrap_err();
    assert_eq!(
        invalid_message(e),
        "not a did:key (must start with \"did:key:z\"): did:web:example.com"
    );
}

#[test]
fn did_key_bad_base58() {
    let e = did_key_to_pubkey("did:key:z0OIl").unwrap_err();
    assert!(invalid_message(e).starts_with("base58 decode: "));
}

#[test]
fn did_key_other_multicodec() {
    let e = did_key_to_pubkey("did:key:zQcADqDiggvAXcov69DzmDHfKrpmAuaZCNm5jSn1cAXCAST").unwrap_err();
    assert_eq!(invalid_message(e), "unsupported did:key multicodec 0x12 (want ed25519 0xed)");
}

#[test]
fn did_key_short_key() {
    let e = did_key_to_pubkey("did:key:z2DQUyFHStG42FqbEhyM6LhkEqqV45NGGqKCwNxVWWu7Yzj").unwrap_err();
    assert_eq!(invalid_message(e), "did:key pubkey has wrong length 31 (want 32)");
}

#[test]
fn did_key_empty_payload_is_truncated_varint() {
    let e = did_key_to_pubkey("did:key:z").unwrap_err();
    assert_eq!(invalid_message(e), "varint truncated");
}

#[test]
fn did_web_host_only() {
    assert_eq!(
        did_web_to_url("did:web:example.com").unwrap(),
        "https://example.com/.well-known/did.json"
    );
}

#[test]
fn did_web_with_path() {
    assert_eq!(
        did_web_to_url("did:web:example.com:user:alice").unwrap(),
        "https://example.com/user/alice/did.json"
    );
}

#[test]
fn did_web_percent_encoded_port() {
    assert_eq!(
        did_web_to_url("did:web:localhost%3A8443").unwrap(),
        "https://localhost:8443/.well-known/did.json"
    );
}

#[test]
fn did_web_not_web() {
    let e = did_web_to_url("did:key:z6Mk").unwrap_err();
    assert_eq!(invalid_message(e), "not a did:web: did:key:z6Mk");
}

#[test]
fn did_web_missing_host() {
    let e = did_web_to_url("did:web:").unwrap_err();
    assert_eq!(invalid_message(e), "did:web missing host");
    let e = did_web_to_url("did:web::a").unwrap_err();
    assert_eq!(invalid_message(e), "did:web missing host");
}

#[test]
fn did_web_bad_segments() {
    let e = did_web_to_url("did:web:example.com::x").unwrap_err();
    assert_eq!(invalid_message(e), "did:web path segment rejected: /x");
    let e = did_web_to_url("did:web:example.com:..").unwrap_err();
    assert_eq!(invalid_message(e), "did:web path segment rejected: ..");
    let e = did_web_to_url("did:web:example.com:a:.").unwrap_err();
    assert_eq!(invalid_message(e), "did:web path segment rejected: a/.");
    let e = did_web_to_url("did:web:example.com:%2E%2E").unwrap_err();
    assert_eq!(invalid_message(e), "did:web path segment rejected: ..");
}

#[test]
fn percent_decode_cases() {
    assert_eq!(percent_decode("plain"), "plain");
    assert_eq!(percent_decode("a%2Fb"), "a/b");
    assert_eq!(percent_decode("%41"), "A");
    assert_eq!(percent_decode("%zz"), "%zz");
    assert_eq!(percent_decode("%4"), "%4");
    assert_eq!(percent_decode("x%4"), "x%4");
    assert_eq!(percent_decode("%c3%a9"), "\u{e9}");
    assert_eq!(percent_decode("%FF"), "%FF");
    assert_eq!(percent_decode(""), "");
}

fn obj(entries: Vec<(&str, Json)>) -> Json {
    Json::Object(entries.into_iter().map(|(k, v)| (k.to_string(), v)).collect())
}

fn s(text: &str) -> Json {
    Json::Str(text.to_string())
}

#[test]
fn did_doc_finds_key_by_controller() {
    let key: Vec<u8> = (0u8..32).collect();
    let mb = pubkey_to_did_key(&key).unwrap()["did:key:".len()..].to_string();
    let doc = obj(vec![(
        "verificationMethod",
        Json::Array(vec![
            obj(vec![
                ("id", s("did:web:other#k")),
                ("controller", s("did:web:other")),
                ("type", s("Ed25519VerificationKey2020")),
                ("publicKeyMultibase", s("zzzz")),
            ]),
            obj(vec![
                ("id", s("did:web:example.com#k2")),
                ("controller", s("did:web:example.com")),
                ("type", s("JsonWebKey2020")),
                ("publicKeyMultibase", s("zzzz")),
            ]),
            obj(vec![
                ("id", s("did:web:example.com#k1")),
                ("controller", s("did:web:example.com")),
                ("type", s("Ed25519VerificationKey2020")),
                ("publicKeyMultibase", s(&mb)),
            ]),
        ]),
    )]);
    let pk = parse_ed25519_from_did_doc(&doc, "did:web:example.com").unwrap();
    assert_eq!(pk.to_vec(), key);
}

#[test]
fn did_doc_finds_key_by_id_prefix() {
    let key = [7u8; 32];
    let mb = pubkey_to_did_key(&key).unwrap()["did:key:".len()..].to_string();
    let doc = obj(vec![(
        "verificationMethod",
        Json::Array(vec![
            obj(vec![
                ("id", s("did:web:example.com#k1")),
                ("type", s("Ed25519VerificationKey2020")),
            ]),
            obj(vec![
                ("id", s("did:web:example.com#k2")),
                ("type", s("Ed25519VerificationKey2020")),
                ("publicKeyMultibase", s(&mb)),
            ]),
        ]),
    )]);
    assert_eq!(parse_ed25519_from_did_doc(&doc, "did:web:example.com").unwrap(), key);
}

#[test]
fn did_doc_without_methods() {
    let e = parse_ed25519_from_did_doc(&obj(vec![("id", s("x"))]), "did:web:a").unwrap_err();
    assert_eq!(invalid_message(e), "DID document has no verificationMethod");
    let e = parse_ed25519_from_did_doc(&Json::Null, "did:web:a").unwrap_err();
    assert_eq!(invalid_message(e), "DID document has no verificationMethod");
}

#[test]
fn did_doc_without_matching_method() {
    let doc = obj(vec![("verificationMethod", Json::Array(vec![Json::Null]))]);
    let e = parse_ed25519_from_did_doc(&doc, "did:web:a").unwrap_err();
    assert_eq!(invalid_message(e), "no Ed25519 verification method found for did:web:a");
}

#[test]
fn did_doc_bad_multibase_is_reported() {
    let doc = obj(vec![(
        "verificationMethod",
        Json::Array(vec![obj(vec![
            ("controller", s("did:web:a")),
            ("type", s("Ed25519VerificationKey2020")),
            ("publicKeyMultibase", s("abc")),
        ])]),
    )]);
    let e = parse_ed25519_from_did_doc(&doc, "did:web:a").unwrap_err();
    assert_eq!(invalid_message(e), "not a did:key (must start with \"did:key:z\"): did:key:abc");
}
