//! The manifest schema check.
use vstd::prelude::*;
use vstd::utf8::valid_utf8;


use crate::json::{array_of, field_str, field_str_of, json_get, models, u64_of, Json, JsonValue};
use crate::text::{
    has_prefix, decimal, decimal_digits, lemma_ascii_valid_utf8, lemma_concat_valid_utf8, lemma_decimal_ascii,
    push_bytes, push_str, str_eq, str_starts_with, string_of_bytes, utf8,
};

verus! {

broadcast use vstd::utf8::encode_utf8_valid_utf8;

/// The manifest format version.
pub const MANIFEST_VERSION: &'static str = "agent-cid/1";

/// The only signature algorithm.
pub const SIG_ALG: &'static str = "ed25519";

/// The UTF-8 bytes of a list of messages.
pub open spec fn message_views(v: Seq<String>) -> Seq<Seq<u8>> {
    v.map_values(|s: String| utf8(s@))
}

/// `msg` alone when `cond` holds, nothing otherwise.
pub open spec fn message_if(cond: bool, msg: Seq<u8>) -> Seq<Seq<u8>> {
    if cond {
        seq![msg]
    } else {
        Seq::empty()
    }
}

/// `v[key]` is a non-empty string.
pub open spec fn nonempty_str(v: JsonValue, key: Seq<char>) -> bool {
    field_str(v, key) matches Some(s) && s.len() > 0
}

/// `v[key]` as a string, or the empty string.
pub open spec fn str_or_empty(v: JsonValue, key: Seq<char>) -> Seq<char> {
    crate::json::field_str_or_empty(v, key)
}

/// The complaint about a required string member.
pub open spec fn missing_string_message(key: Seq<char>) -> Seq<u8> {
    utf8("schema: "@) + utf8(key) + utf8(" must be non-empty string"@)
}

/// The complaints about the signature entry at position `i`.
pub open spec fn sig_entry_errors(s: JsonValue, i: nat) -> Seq<Seq<u8>> {
    let pre = utf8("schema: sigs["@) + decimal_digits(i);
    if !(s is Object) {
        seq![pre + utf8("] not object"@)]
    } else {
        message_if(
            !has_prefix(str_or_empty(s, "signer_did"@), "did:"@),
            pre + utf8("].signer_did must start with did:"@),
        ) + message_if(
            field_str(s, "alg"@) != Some(SIG_ALG@),
            pre + utf8("].alg must be \"ed25519\""@),
        ) + message_if(!nonempty_str(s, "sig"@), pre + utf8("].sig must be non-empty string"@))
    }
}

/// The complaints about the first `n` signature entries.
pub open spec fn sigs_errors(sigs: Seq<JsonValue>, n: nat) -> Seq<Seq<u8>>
    decreases n,
{
    if n == 0 || n > sigs.len() {
        Seq::empty()
    } else {
        sigs_errors(sigs, (n - 1) as nat) + sig_entry_errors(sigs[n - 1], (n - 1) as nat)
    }
}

/// The complaints about the members of a manifest object other than `sigs`.
pub open spec fn header_errors(m: JsonValue) -> Seq<Seq<u8>> {
    message_if(field_str(m, "v"@) != Some(MANIFEST_VERSION@), utf8("schema: v must be \"agent-cid/1\""@))
        + message_if(!nonempty_str(m, "cid"@), missing_string_message("cid"@))
        + message_if(!nonempty_str(m, "media_type"@), missing_string_message("media_type"@))
        + message_if(!nonempty_str(m, "schema_uri"@), missing_string_message("schema_uri"@))
        + message_if(!nonempty_str(m, "producer"@), missing_string_message("producer"@))
        + message_if(!nonempty_str(m, "created_at"@), missing_string_message("created_at"@))
        + message_if(
        u64_of(json_get(m, "size"@)) is None,
        utf8("schema: size must be non-negative integer"@),
    ) + message_if(
        !has_prefix(str_or_empty(m, "producer"@), "did:"@),
        utf8("schema: producer must start with did:"@),
    ) + message_if(
        json_get(m, "parent_cid"@) is Some && !nonempty_str(m, "parent_cid"@),
        utf8("schema: parent_cid must be non-empty string"@),
    )
}

/// Everything wrong with a manifest, in the order the checks run.
pub open spec fn schema_errors(m: JsonValue) -> Seq<Seq<u8>> {
    if !(m is Object) {
        seq![utf8("schema: root not an object"@)]
    } else {
        header_errors(m) + match array_of(json_get(m, "sigs"@)) {
            Some(sigs) => if sigs.len() == 0 {
                seq![utf8("schema: sigs must be non-empty array"@)]
            } else {
                sigs_errors(sigs, sigs.len())
            },
            None => seq![utf8("schema: sigs must be non-empty array"@)],
        }
    }
}

/// Appends a message, given by its valid UTF-8 bytes, to a list.
pub(crate) fn push_message(list: &mut Vec<String>, msg: Vec<u8>)
    requires
        valid_utf8(msg@),
    ensures
        message_views(final(list)@) == message_views(old(list)@).push(msg@),
{
    let ghost m = msg@;
    list.push(string_of_bytes(msg));
    assert(message_views(list@) =~= message_views(old(list)@).push(m));
}

/// Appends `msg` to the list when `cond` holds.
fn push_message_if(list: &mut Vec<String>, cond: bool, msg: &str)
    ensures
        message_views(final(list)@) == message_views(old(list)@) + message_if(cond, utf8(msg@)),
{
    if cond {
        let mut m: Vec<u8> = Vec::new();
        push_str(&mut m, msg);
        push_message(list, m);
    }
    assert(message_views(list@) =~= message_views(old(list)@) + message_if(cond, utf8(msg@)));
}

/// Whether `v[key]` is a non-empty string.
fn has_nonempty_str(v: &Json, key: &str) -> (r: bool)
    ensures
        r == nonempty_str(v.model(), key@),
{
    match field_str_of(v, key) {
        Some(s) => !s.is_empty(),
        None => false,
    }
}

/// Appends the complaint about a required string member when it is missing.
fn check_required_string(list: &mut Vec<String>, m: &Json, key: &str)
    ensures
        message_views(final(list)@) == message_views(old(list)@) + message_if(
            !nonempty_str(m.model(), key@),
            missing_string_message(key@),
        ),
{
    if !has_nonempty_str(m, key) {
        let mut msg: Vec<u8> = Vec::new();
        push_str(&mut msg, "schema: ");
        push_str(&mut msg, key);
        push_str(&mut msg, " must be non-empty string");
        proof {
            lemma_concat_valid_utf8(utf8("schema: "@), utf8(key@));
            lemma_concat_valid_utf8(utf8("schema: "@) + utf8(key@), utf8(" must be non-empty string"@));
        }
        push_message(list, msg);
    }
    assert(message_views(list@) =~= message_views(old(list)@) + message_if(
        !nonempty_str(m.model(), key@),
        missing_string_message(key@),
    ));
}

/// `utf8("schema: sigs[") + digits + utf8(tail)`, as bytes.
fn sig_message(i: usize, tail: &str) -> (r: Vec<u8>)
    ensures
        r@ == utf8("schema: sigs["@) + decimal_digits(i as nat) + utf8(tail@),
        valid_utf8(r@),
{
    let mut m: Vec<u8> = Vec::new();
    push_str(&mut m, "schema: sigs[");
    let d = decimal(i as u64);
    push_bytes(&mut m, d.as_slice());
    push_str(&mut m, tail);
    proof {
        lemma_decimal_ascii(i as nat);
        lemma_ascii_valid_utf8(decimal_digits(i as nat));
        lemma_concat_valid_utf8(utf8("schema: sigs["@), decimal_digits(i as nat));
        lemma_concat_valid_utf8(utf8("schema: sigs["@) + decimal_digits(i as nat), utf8(tail@));
    }
    m
}

/// Appends the complaints about one signature entry.
fn check_sig_entry(list: &mut Vec<String>, s: &Json, i: usize)
    ensures
        message_views(final(list)@) == message_views(old(list)@) + sig_entry_errors(s.model(), i as nat),
{
    match s.as_object() {
        None => {
            push_message(list, sig_message(i, "] not object"));
            assert(message_views(list@) =~= message_views(old(list)@) + sig_entry_errors(
                s.model(),
                i as nat,
            ));
            return ;
        },
        Some(_) => {},
    }
    let ghost start = message_views(list@);
    let ghost pre = utf8("schema: sigs["@) + decimal_digits(i as nat);
    let sd = crate::json::field_str_or_empty_of(s, "signer_did");
    let did_ok = str_starts_with(sd, "did:");
    if !did_ok {
        push_message(list, sig_message(i, "].signer_did must start with did:"));
    }
    let ghost after_did = message_views(list@);
    assert(after_did =~= start + message_if(
        !has_prefix(str_or_empty(s.model(), "signer_did"@), "did:"@),
        pre + utf8("].signer_did must start with did:"@),
    ));
    let alg_ok = match field_str_of(s, "alg") {
        Some(a) => str_eq(a, SIG_ALG),
        None => false,
    };
    if !alg_ok {
        push_message(list, sig_message(i, "].alg must be \"ed25519\""));
    }
    let ghost after_alg = message_views(list@);
    assert(after_alg =~= after_did + message_if(
        field_str(s.model(), "alg"@) != Some(SIG_ALG@),
        pre + utf8("].alg must be \"ed25519\""@),
    ));
    if !has_nonempty_str(s, "sig") {
        push_message(list, sig_message(i, "].sig must be non-empty string"));
    }
    assert(message_views(list@) =~= after_alg + message_if(
        !nonempty_str(s.model(), "sig"@),
        pre + utf8("].sig must be non-empty string"@),
    ));
}

/// Checks that a manifest has the shape the format requires: the version,
/// the non-empty string members, a `u64` size, a `did:` producer, a
/// non-empty `parent_cid` when present, and a non-empty list of well-formed
/// ed25519 signature entries. Every violation found is listed.
pub fn validate_manifest(m: &Json) -> (r: Result<(), Vec<String>>)
    ensures
        r is Ok <==> schema_errors(m.model()).len() == 0,
        r matches Err(es) ==> message_views(es@) == schema_errors(m.model()),
{
    let mut errors: Vec<String> = Vec::new();
    if m.as_object().is_none() {
        push_message_if(&mut errors, true, "schema: root not an object");
        assert(message_views(errors@) =~= schema_errors(m.model()));
        return Err(errors);
    }
    assert(message_views(errors@) =~= Seq::<Seq<u8>>::empty());
    let version_ok = match field_str_of(m, "v") {
        Some(v) => str_eq(v, MANIFEST_VERSION),
        None => false,
    };
    push_message_if(&mut errors, !version_ok, "schema: v must be \"agent-cid/1\"");
    check_required_string(&mut errors, m, "cid");
    check_required_string(&mut errors, m, "media_type");
    check_required_string(&mut errors, m, "schema_uri");
    check_required_string(&mut errors, m, "producer");
    check_required_string(&mut errors, m, "created_at");
    let size_ok = match m.get("size") {
        Some(v) => v.as_u64().is_some(),
        None => false,
    };
    push_message_if(&mut errors, !size_ok, "schema: size must be non-negative integer");
    let producer = crate::json::field_str_or_empty_of(m, "producer");
    push_message_if(
        &mut errors,
        !str_starts_with(producer, "did:"),
        "schema: producer must start with did:",
    );
    let parent_bad = m.get("parent_cid").is_some() && !has_nonempty_str(m, "parent_cid");
    push_message_if(&mut errors, parent_bad, "schema: parent_cid must be non-empty string");
    assert(message_views(errors@) =~= header_errors(m.model()));
    let ghost head = message_views(errors@);
    let sigs = match m.get("sigs") {
        Some(v) => v.as_array(),
        None => None,
    };
    match sigs {
        None => {
            push_message_if(&mut errors, true, "schema: sigs must be non-empty array");
        },
        Some(arr) => {
            if arr.len() == 0 {
                push_message_if(&mut errors, true, "schema: sigs must be non-empty array");
            } else {
                let ghost ms = models(arr@);
                let mut i: usize = 0;
                while i < arr.len()
                    invariant
                        i <= arr@.len(),
                        ms == models(arr@),
                        message_views(errors@) == head + sigs_errors(ms, i as nat),
                    decreases arr@.len() - i,
                {
                    check_sig_entry(&mut errors, &arr[i], i);
                    assert(ms[i as int] == arr@[i as int].model());
                    assert(message_views(errors@) =~= head + sigs_errors(ms, (i + 1) as nat));
                    i = i + 1;
                }
            }
        },
    }
    assert(message_views(errors@) =~= schema_errors(m.model()));
    if errors.len() == 0 {
        Ok(())
    } else {
        Err(errors)
    }
}

} // verus!
