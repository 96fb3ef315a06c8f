use agent_cid::canonical::canonical_encode;
use agent_cid::cid::{bytes_to_cid, verify_cid};
use agent_cid::error::Error;
use agent_cid::json::{Json, JsonNumber};
use agent_cid::sign::{b64decode, b64encode, verify_bytes};
use ed25519_dalek::{Signer, SigningKey};

#[test]
fn cid_of_empty_body() {
    assert_eq!(bytes_to_cid(b""), "bafkreihdwdcefgh4dqkjv67uzcmw7ojee6xedzdetojuzjevtenxquvyku");
}

#[test]
fn cid_of_small_bodies() {
    assert_eq!(
        bytes_to_cid(br#"{"answer":42}"#),
        "bafkreihm6wncnfwkissbpyqofj7kxmnsn2bmo6pykrv6unkkftea5dq65u"
    );
    assert_eq!(bytes_to_cid(b"hello"), "bafkreibm6jg3ux5qumhcn2b3flc3tyu6dmlb4xa7u5bf44yegnrjhc4yeq");
}

#[test]
fn cid_verification() {
    let cid = bytes_to_cid(b"hello");
    assert!(verify_cid(&cid, b"hello"));
    assert!(!verify_cid(&cid, b"hellp"));
    assert!(!verify_cid("", b"hello"));
    assert!(!verify_cid(&cid.to_uppercase(), b"hello"));
}

#[test]
fn base64_known_values() {
    assert_eq!(b64encode(b"hello"), "aGVsbG8=");
    assert_eq!(b64encode(&[0, 1, 2, 3, 255]), "AAECA/8=");
    assert_eq!(b64encode(b""), "");
}

#[test]
fn base64_roundtrip() {
    let data: Vec<u8> = (0u8..=255).collect();
    let text = b64encode(&data);
    assert_eq!(text.len(), 4 * ((data.len() + 2) / 3));
    assert_eq!(b64decode(&text).unwrap(), data);
}

#[test]
fn base64_decode_error() {
    let e = b64decode("a$==").unwrap_err();
    assert!(!e.message.is_empty());
    assert!(b64decode("AAA").is_err());
}

#[test]
fn ed25519_signature_checks() {
    let sk = SigningKey::from_bytes(&[0x42u8; 32]);
    let pk = sk.verifying_key().to_bytes();
    let msg = b"canonical bytes";
    let sig = sk.sign(msg).to_bytes();
    assert!(verify_bytes(&sig, msg, &pk));
    assert!(!verify_bytes(&sig, b"other bytes", &pk));
    let mut bad = sig;
    bad[0] ^= 1;
    assert!(!verify_bytes(&bad, msg, &pk));
    assert!(!verify_bytes(&sig[..63], msg, &pk));
    let other = SigningKey::from_bytes(&[0x07u8; 32]).verifying_key().to_bytes();
    assert!(!verify_bytes(&sig, msg, &other));
}

#[test]
fn ed25519_signature_with_invalid_key() {
    let sk = SigningKey::from_bytes(&[0x42u8; 32]);
    let sig = sk.sign(b"m").to_bytes();
    let mut not_a_point = [0xFFu8; 32];
    not_a_point[31] = 0x7F;
    assert!(!verify_bytes(&sig, b"m", &not_a_point));
}

fn obj(entries: Vec<(&str, Json)>) -> Json {
    Json::Object(entries.into_iter().map(|(k, v)| (k.to_string(), v)).collect())
}

#[test]
fn canonical_sorts_keys() {
    let v = obj(vec![
        ("b", Json::Str("x".into())),
        ("a", Json::Number(JsonNumber::PosInt(1))),
        ("c", Json::Array(vec![Json::Null, Json::Bool(true), Json::Number(JsonNumber::NegInt(-3))])),
    ]);
    let out = canonical_encode(&v).unwrap();
    assert_eq!(String::from_utf8(out).unwrap(), r#"{"a":1,"b":"x","c":[null,true,-3]}"#);
}

#[test]
fn canonical_nested_and_escapes() {
    let v = obj(vec![
        ("z", obj(vec![("y", Json::Str("\u{e9}\n\"".into())), ("x", obj(vec![]))])),
        ("\u{e9}", Json::Number(JsonNumber::PosInt(10))),
    ]);
    let out = canonical_encode(&v).unwrap();
    assert_eq!(
        String::from_utf8(out).unwrap(),
        "{\"z\":{\"x\":{},\"y\":\"\u{e9}\\n\\\"\"},\"\u{e9}\":10}"
    );
}

#[test]
fn error_messages() {
    assert_eq!(Error::Invalid("bad".into()).message(), "bad");
    assert_eq!(Error::Http("timeout".into()).message(), "http error: timeout");
    assert_eq!(
        Error::DidWebHttp("did:web:a".into(), 404).message(),
        "did:web fetch did:web:a: HTTP 404"
    );
    assert_eq!(
        Error::DidWebTooLarge { size: 70000, limit: 65536 }.message(),
        "did:web doc size 70000 > limit 65536"
    );
    assert_eq!(Error::Json("eof".into()).message(), "json: eof");
    assert_eq!(Error::Io("denied".into()).message(), "io: denied");
}

#[test]
fn cid_shape() {
    for body in [&b""[..], b"a", b"hello world", &[0xFFu8; 1000]] {
        let cid = bytes_to_cid(body);
        assert_eq!(cid.len(), 59);
        assert!(cid.starts_with("bafkrei"));
        assert!(cid[1..].chars().all(|c| c.is_ascii_lowercase() || ('2'..='7').contains(&c)));
    }
}

#[test]
fn canonical_keeps_first_of_repeated_members() {
    let v = obj(vec![
        ("a", Json::Number(JsonNumber::PosInt(1))),
        ("b", Json::Bool(false)),
        ("a", Json::Number(JsonNumber::PosInt(2))),
    ]);
    assert_eq!(v.get("a").unwrap().as_u64(), Some(1));
    let out = canonical_encode(&v).unwrap();
    assert_eq!(String::from_utf8(out).unwrap(), r#"{"a":1,"b":false}"#);
}
