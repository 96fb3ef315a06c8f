//! Which complaint a verification reports, and when: each complaint about
//! the body, and each refused signature, is reported exactly when its cause
//! holds, whatever the other complaints are.
use vstd::prelude::*;
use vstd::utf8::is_ascii_chars_encode_utf8;

use crate::cid::cid_string;
use crate::json::JsonValue;
use crate::schema::{message_if, str_or_empty};
use crate::sign::{base64_decode, signature_ok};
use crate::text::{decimal_digits, utf8};
use crate::verify::{
    body_errors, check_errors, expiry_errors, manifest_sigs, manifest_size, reached_expiry,
    retention_of, sig_checks, sig_prefix, size_message, SigCheckModel,
};

verus! {

/// The complaint about signature `i`, signed by `did`, that does not verify.
pub open spec fn invalid_sig_message(i: nat, did: Seq<char>) -> Seq<u8> {
    sig_prefix(i) + utf8("invalid signature for "@) + utf8(did)
}

/// The errors of a verification past the schema check: the body, the
/// expiry, and the signature checks under the resolved keys.
pub open spec fn verification_errors(
    m: JsonValue,
    data: Seq<u8>,
    now: i64,
    ignore_expiry: bool,
    checks: Seq<SigCheckModel>,
    keys: Seq<Result<Seq<u8>, Seq<u8>>>,
    canonical: Seq<u8>,
) -> Seq<Seq<u8>> {
    body_errors(m, data) + expiry_errors(m, now, ignore_expiry) + check_errors(
        checks,
        keys,
        canonical,
    )
}

proof fn lemma_literal_bytes()
    ensures
        utf8("sigs["@).len() == 5,
        utf8("sigs["@)[0] == 115u8,
        utf8("sigs["@)[2] == 103u8,
        utf8("]: "@).len() == 3,
        utf8("]: "@)[0] == 93u8,
        utf8("size mismatch: manifest "@).len() == 24,
        utf8("size mismatch: manifest "@)[0] == 115u8,
        utf8("size mismatch: manifest "@)[2] == 122u8,
        utf8("cid mismatch"@).len() == 12,
        utf8("cid mismatch"@)[0] == 99u8,
        utf8("expired at "@).len() == 11,
        utf8("expired at "@)[0] == 101u8,
        utf8("cid mismatch"@)[1] == 105u8,
        utf8("canonical encode: "@).len() == 18,
        utf8("canonical encode: "@)[0] == 99u8,
        utf8("canonical encode: "@)[1] == 97u8,
{
    reveal_strlit("sigs[");
    reveal_strlit("]: ");
    reveal_strlit("size mismatch: manifest ");
    reveal_strlit("cid mismatch");
    reveal_strlit("expired at ");
    reveal_strlit("canonical encode: ");
    is_ascii_chars_encode_utf8("canonical encode: "@);
    is_ascii_chars_encode_utf8("sigs["@);
    is_ascii_chars_encode_utf8("]: "@);
    is_ascii_chars_encode_utf8("size mismatch: manifest "@);
    is_ascii_chars_encode_utf8("cid mismatch"@);
    is_ascii_chars_encode_utf8("expired at "@);
}

/// Decimal digits are ASCII `0`-`9`, at least one of them.
proof fn lemma_digits(n: nat)
    ensures
        decimal_digits(n).len() >= 1,
        n < 10 <==> decimal_digits(n).len() == 1,
        forall|k: int|
            0 <= k < decimal_digits(n).len() ==> 48 <= #[trigger] decimal_digits(n)[k] <= 57,
    decreases n,
{
    if n >= 10 {
        lemma_digits(n / 10);
        let d = decimal_digits(n / 10);
        assert forall|k: int| 0 <= k < decimal_digits(n).len() implies 48
            <= #[trigger] decimal_digits(n)[k] <= 57 by {
            if k < d.len() {
                assert(decimal_digits(n)[k] == d[k]);
            }
        }
    }
}

/// Different numbers have different decimal digits.
proof fn lemma_digits_injective(a: nat, b: nat)
    requires
        decimal_digits(a) == decimal_digits(b),
    ensures
        a == b,
    decreases a,
{
    lemma_digits(a);
    lemma_digits(b);
    if a >= 10 && b >= 10 {
        let da = decimal_digits(a);
        assert(da.drop_last() =~= decimal_digits(a / 10));
        assert(decimal_digits(b).drop_last() =~= decimal_digits(b / 10));
        assert(da.last() == (48 + a % 10) as u8);
        assert(decimal_digits(b).last() == (48 + b % 10) as u8);
        lemma_digits_injective(a / 10, b / 10);
    } else if a < 10 && b < 10 {
        assert(decimal_digits(a)[0] == (48 + a) as u8);
        assert(decimal_digits(b)[0] == (48 + b) as u8);
    }
}

/// The messages about two signatures start alike only for the same signature.
proof fn lemma_sig_prefix_distinct(i: nat, k: nat, a: Seq<u8>, b: Seq<u8>)
    requires
        sig_prefix(i) + a == sig_prefix(k) + b,
    ensures
        i == k,
{
    lemma_literal_bytes();
    lemma_digits(i);
    lemma_digits(k);
    let s5 = utf8("sigs["@);
    let t3 = utf8("]: "@);
    let di = decimal_digits(i);
    let dk = decimal_digits(k);
    let x = sig_prefix(i) + a;
    let y = sig_prefix(k) + b;
    assert(x == y);
    if di.len() < dk.len() {
        let p: int = 5 + di.len() as int;
        assert(x[p] == t3[0]);
        assert(y[p] == dk[di.len() as int]);
        assert(48 <= dk[di.len() as int] <= 57);
    } else if dk.len() < di.len() {
        let p: int = 5 + dk.len() as int;
        assert(y[p] == t3[0]);
        assert(x[p] == di[dk.len() as int]);
        assert(48 <= di[dk.len() as int] <= 57);
    } else {
        assert forall|t: int| 0 <= t < di.len() implies di[t] == dk[t] by {
            assert(x[5 + t] == di[t]);
            assert(y[5 + t] == dk[t]);
        }
        assert(di =~= dk);
        lemma_digits_injective(i, k);
    }
}

/// Every complaint about a signature starts with `sigs[`.
proof fn lemma_check_errors_start(
    checks: Seq<SigCheckModel>,
    keys: Seq<Result<Seq<u8>, Seq<u8>>>,
    canonical: Seq<u8>,
)
    ensures
        forall|t: int|
            0 <= t < check_errors(checks, keys, canonical).len() ==> {
                let e = #[trigger] check_errors(checks, keys, canonical)[t];
                e.len() >= 3 && e[0] == 115u8 && e[2] == 103u8
            },
    decreases checks.len(),
{
    lemma_literal_bytes();
    if checks.len() > 0 {
        let whole = check_errors(checks, keys, canonical);
        match checks[0] {
            SigCheckModel::Undecodable(i, _) => {
                lemma_check_errors_start(checks.drop_first(), keys, canonical);
                let rest = check_errors(checks.drop_first(), keys, canonical);
                assert forall|t: int| 0 <= t < whole.len() implies {
                    let e = #[trigger] whole[t];
                    e.len() >= 3 && e[0] == 115u8 && e[2] == 103u8
                } by {
                    if t > 0 {
                        assert(whole[t] == rest[t - 1]);
                    } else {
                        assert(whole[0][0] == sig_prefix(i)[0]);
                        assert(whole[0][2] == sig_prefix(i)[2]);
                    }
                }
            },
            SigCheckModel::Check(i, _, _) => {
                lemma_check_errors_start(checks.drop_first(), keys.drop_first(), canonical);
                let rest = check_errors(checks.drop_first(), keys.drop_first(), canonical);
                let head: Seq<Seq<u8>> = match keys[0] {
                    Ok(pk) => message_if(
                        !signature_ok(checks[0]->Check_2, canonical, pk),
                        invalid_sig_message(i, checks[0]->Check_1),
                    ),
                    Err(msg) => seq![sig_prefix(i) + msg],
                };
                assert(whole =~= head + rest);
                assert forall|t: int| 0 <= t < whole.len() implies {
                    let e = #[trigger] whole[t];
                    e.len() >= 3 && e[0] == 115u8 && e[2] == 103u8
                } by {
                    if t >= head.len() {
                        assert(whole[t] == rest[t - head.len()]);
                    } else {
                        assert(whole[t] == head[t]);
                        assert(head[t][0] == sig_prefix(i)[0]);
                        assert(head[t][2] == sig_prefix(i)[2]);
                    }
                }
            },
        }
    }
}

/// The complaints of the body and expiry checks are not about signatures.
proof fn lemma_body_expiry_start(m: JsonValue, data: Seq<u8>, now: i64, ignore_expiry: bool)
    ensures
        forall|t: int|
            0 <= t < body_errors(m, data).len() ==> {
                let e = #[trigger] body_errors(m, data)[t];
                e == size_message(manifest_size(m) as nat, data.len()) || e == utf8(
                    "cid mismatch"@,
                )
            },
        forall|t: int|
            0 <= t < expiry_errors(m, now, ignore_expiry).len() ==> {
                let e = #[trigger] expiry_errors(m, now, ignore_expiry)[t];
                e.len() >= 1 && e[0] == 101u8
            },
        size_message(manifest_size(m) as nat, data.len())[0] == 115u8,
        size_message(manifest_size(m) as nat, data.len())[2] == 122u8,
        size_message(manifest_size(m) as nat, data.len()).len() >= 3,
{
    lemma_literal_bytes();
    let sm = size_message(manifest_size(m) as nat, data.len());
    assert(sm[0] == utf8("size mismatch: manifest "@)[0]);
    assert(sm[2] == utf8("size mismatch: manifest "@)[2]);
    match retention_of(m) {
        Some(r) => match reached_expiry(r, now) {
            Some(s) => {
                let e = utf8("expired at "@) + utf8(s);
                assert(e[0] == utf8("expired at "@)[0]);
            },
            None => {},
        },
        None => {},
    }
}

/// Among all the errors of a verification past the schema check, the size
/// complaint is reported exactly when the manifest's `size` is not the
/// body's length, and `cid mismatch` exactly when its `cid` is not the
/// body's CID.
pub proof fn lemma_body_complaints_exact(
    m: JsonValue,
    data: Seq<u8>,
    now: i64,
    ignore_expiry: bool,
    checks: Seq<SigCheckModel>,
    keys: Seq<Result<Seq<u8>, Seq<u8>>>,
    canonical: Seq<u8>,
)
    ensures
        ({
            let errs = verification_errors(m, data, now, ignore_expiry, checks, keys, canonical);
            &&& errs.contains(size_message(manifest_size(m) as nat, data.len()))
                <==> manifest_size(m) != data.len()
            &&& errs.contains(utf8("cid mismatch"@)) <==> str_or_empty(m, "cid"@) != cid_string(
                data,
            )
        }),
{
    lemma_literal_bytes();
    lemma_body_expiry_start(m, data, now, ignore_expiry);
    lemma_check_errors_start(checks, keys, canonical);
    let b = body_errors(m, data);
    let x = expiry_errors(m, now, ignore_expiry);
    let c = check_errors(checks, keys, canonical);
    let errs = verification_errors(m, data, now, ignore_expiry, checks, keys, canonical);
    let sm = size_message(manifest_size(m) as nat, data.len());
    let cm = utf8("cid mismatch"@);
    let size_bad = manifest_size(m) != data.len();
    let cid_bad = str_or_empty(m, "cid"@) != cid_string(data);
    assert(errs =~= b + x + c);
    assert(sm != cm) by {
        assert(sm[0] != cm[0]);
    }
    if size_bad {
        assert(b[0] == sm);
        assert(errs[0] == sm);
    } else {
        assert forall|t: int| 0 <= t < errs.len() implies errs[t] != sm by {
            if t < b.len() {
                assert(b[t] == cm);
            } else if t < b.len() + x.len() {
                assert(errs[t] == x[t - b.len()]);
                assert(x[t - b.len()][0] == 101u8);
            } else {
                assert(errs[t] == c[t - b.len() - x.len()]);
                assert(c[t - b.len() - x.len()][2] == 103u8);
            }
        }
    }
    if cid_bad {
        assert(b[b.len() - 1] == cm);
        assert(errs[b.len() - 1] == cm);
    } else {
        assert forall|t: int| 0 <= t < errs.len() implies errs[t] != cm by {
            if t < b.len() {
                assert(b[t] == sm);
            } else if t < b.len() + x.len() {
                assert(errs[t] == x[t - b.len()]);
                assert(x[t - b.len()][0] == 101u8);
            } else {
                assert(errs[t] == c[t - b.len() - x.len()]);
                assert(c[t - b.len() - x.len()][0] == 115u8);
            }
        }
    }
}


/// Resolved keys, each found.
pub open spec fn ok_keys(keys: Seq<Seq<u8>>) -> Seq<Result<Seq<u8>, Seq<u8>>> {
    keys.map_values(|k: Seq<u8>| Ok::<Seq<u8>, Seq<u8>>(k))
}

/// Two complaints about refused signatures are the same only for the same
/// signature and signer.
proof fn lemma_invalid_sig_message_injective(i: nat, d: Seq<char>, k: nat, e: Seq<char>)
    requires
        invalid_sig_message(i, d) == invalid_sig_message(k, e),
    ensures
        i == k,
        d == e,
{
    let l = utf8("invalid signature for "@);
    assert(invalid_sig_message(i, d) =~= sig_prefix(i) + (l + utf8(d)));
    assert(invalid_sig_message(k, e) =~= sig_prefix(k) + (l + utf8(e)));
    lemma_sig_prefix_distinct(i, k, l + utf8(d), l + utf8(e));
    let n = sig_prefix(i).len() + l.len();
    let x = invalid_sig_message(i, d);
    assert(x.subrange(n as int, x.len() as int) =~= utf8(d));
    assert(x.subrange(n as int, x.len() as int) =~= utf8(e));
    crate::text::lemma_utf8_injective(d, e);
}

/// Where every check holds a decoded signature, numbered from `base` on,
/// and every key is found, the complaint about signature `j` of `did` is
/// among the complaints exactly when check `j` is of `did` and fails.
proof fn lemma_invalid_in_checks(
    checks: Seq<SigCheckModel>,
    keys: Seq<Seq<u8>>,
    canonical: Seq<u8>,
    base: nat,
    j: nat,
    did: Seq<char>,
)
    requires
        keys.len() == checks.len(),
        forall|k: int|
            0 <= k < checks.len() ==> (#[trigger] checks[k] matches SigCheckModel::Check(i, _, _)
                && i == base + k),
    ensures
        check_errors(checks, ok_keys(keys), canonical).contains(invalid_sig_message(j, did)) <==> (
        base <= j < base + checks.len() && (checks[j - base] matches SigCheckModel::Check(_, d, s)
            && d == did && !signature_ok(s, canonical, keys[j - base]))),
    decreases checks.len(),
{
    let x = invalid_sig_message(j, did);
    let whole = check_errors(checks, ok_keys(keys), canonical);
    if checks.len() == 0 {
        assert(!whole.contains(x));
    } else {
        assert(checks[0] matches SigCheckModel::Check(_, _, _));
        let (d0, s0) = match checks[0] {
            SigCheckModel::Check(_, d, s) => (d, s),
            _ => (Seq::empty(), Seq::empty()),
        };
        let ok0 = signature_ok(s0, canonical, keys[0]);
        let rest_checks = checks.drop_first();
        let rest_keys = keys.drop_first();
        assert(ok_keys(keys).drop_first() =~= ok_keys(rest_keys));
        assert(ok_keys(keys)[0] == Ok::<Seq<u8>, Seq<u8>>(keys[0]));
        assert forall|k: int| 0 <= k < rest_checks.len() implies (
        #[trigger] rest_checks[k] matches SigCheckModel::Check(i, _, _) && i == (base + 1) + k) by {
            assert(rest_checks[k] == checks[k + 1]);
        }
        lemma_invalid_in_checks(rest_checks, rest_keys, canonical, base + 1, j, did);
        let rest = check_errors(rest_checks, ok_keys(rest_keys), canonical);
        let head = message_if(!ok0, invalid_sig_message(base, d0));
        assert(whole =~= head + rest);
        if whole.contains(x) {
            let t = choose|t: int| 0 <= t < whole.len() && whole[t] == x;
            if t < head.len() {
                lemma_invalid_sig_message_injective(base, d0, j, did);
            } else {
                assert(rest[t - head.len()] == x);
                assert(rest.contains(x));
                assert(rest_checks[j - (base + 1)] == checks[j - base]);
            }
        }
        if base <= j < base + checks.len() && (checks[j - base] matches SigCheckModel::Check(_, d, s)
            && d == did && !signature_ok(s, canonical, keys[j - base])) {
            if j == base {
                assert(whole[0] == x);
            } else {
                assert(rest_checks[j - (base + 1)] == checks[j - base]);
                assert(rest_keys[j - (base + 1)] == keys[j - base]);
                assert(rest.contains(x));
                let t = choose|t: int| 0 <= t < rest.len() && rest[t] == x;
                assert(whole[t + head.len()] == x);
            }
        }
    }
}

/// When every signature of a manifest decodes and every signer's key is
/// resolved, the complaint `sigs[j]: invalid signature for <signer>` is among
/// all the errors exactly when signature `j` does not verify under its
/// signer's key over the canonical bytes.
pub proof fn lemma_signature_complaints_exact(
    m: JsonValue,
    data: Seq<u8>,
    now: i64,
    ignore_expiry: bool,
    keys: Seq<Seq<u8>>,
    canonical: Seq<u8>,
    j: nat,
)
    requires
        keys.len() == manifest_sigs(m).len(),
        j < manifest_sigs(m).len(),
        forall|k: int|
            0 <= k < manifest_sigs(m).len() ==> base64_decode(
                str_or_empty(#[trigger] manifest_sigs(m)[k], "sig"@),
            ) is Ok,
    ensures
        ({
            let s = manifest_sigs(m)[j as int];
            let did = str_or_empty(s, "signer_did"@);
            let sig = base64_decode(str_or_empty(s, "sig"@))->Ok_0;
            verification_errors(
                m,
                data,
                now,
                ignore_expiry,
                sig_checks(manifest_sigs(m)),
                ok_keys(keys),
                canonical,
            ).contains(invalid_sig_message(j, did)) <==> !signature_ok(sig, canonical, keys[j as int])
        }),
{
    let sigs = manifest_sigs(m);
    let checks = sig_checks(sigs);
    let s = sigs[j as int];
    let did = str_or_empty(s, "signer_did"@);
    let x = invalid_sig_message(j, did);
    assert forall|k: int| 0 <= k < checks.len() implies (#[trigger] checks[k] matches SigCheckModel::Check(
        i,
        _,
        _,
    ) && i == 0 + k) by {
        assert(base64_decode(str_or_empty(sigs[k], "sig"@)) is Ok);
    }
    lemma_invalid_in_checks(checks, keys, canonical, 0, j, did);
    lemma_literal_bytes();
    lemma_body_expiry_start(m, data, now, ignore_expiry);
    let b = body_errors(m, data);
    let xe = expiry_errors(m, now, ignore_expiry);
    let c = check_errors(checks, ok_keys(keys), canonical);
    let errs = verification_errors(m, data, now, ignore_expiry, checks, ok_keys(keys), canonical);
    assert(errs =~= b + xe + c);
    assert(x[0] == sig_prefix(j)[0] && x[2] == sig_prefix(j)[2]);
    if errs.contains(x) {
        let t = choose|t: int| 0 <= t < errs.len() && errs[t] == x;
        if t < b.len() {
            assert(b[t][0] != 115u8 || b[t][2] != 103u8);
        } else if t < b.len() + xe.len() {
            assert(errs[t] == xe[t - b.len()]);
            assert(xe[t - b.len()][0] == 101u8);
        } else {
            assert(c[t - b.len() - xe.len()] == x);
            assert(c.contains(x));
        }
    }
    if c.contains(x) {
        let t = choose|t: int| 0 <= t < c.len() && c[t] == x;
        assert(errs[t + b.len() + xe.len()] == x);
    }
}


/// Where the canonical bytes of a manifest past the schema check cannot be
/// computed, verification ends with the body and expiry complaints and the
/// encoding complaint; there too the size complaint is reported exactly
/// when the `size` is not the body's length, and `cid mismatch` exactly when
/// the `cid` is not the body's CID.
pub proof fn lemma_body_complaints_exact_unencodable(
    m: JsonValue,
    data: Seq<u8>,
    now: i64,
    ignore_expiry: bool,
    msg: Seq<u8>,
)
    ensures
        ({
            let errs = (body_errors(m, data) + expiry_errors(m, now, ignore_expiry)).push(
                utf8("canonical encode: "@) + msg,
            );
            &&& errs.contains(size_message(manifest_size(m) as nat, data.len()))
                <==> manifest_size(m) != data.len()
            &&& errs.contains(utf8("cid mismatch"@)) <==> str_or_empty(m, "cid"@) != cid_string(
                data,
            )
        }),
{
    lemma_literal_bytes();
    lemma_body_expiry_start(m, data, now, ignore_expiry);
    let b = body_errors(m, data);
    let x = expiry_errors(m, now, ignore_expiry);
    let last = utf8("canonical encode: "@) + msg;
    let errs = (b + x).push(last);
    let sm = size_message(manifest_size(m) as nat, data.len());
    let cm = utf8("cid mismatch"@);
    assert(last[0] == 99u8 && last[1] == 97u8);
    assert(sm != cm) by {
        assert(sm[0] != cm[0]);
    }
    if manifest_size(m) != data.len() {
        assert(errs[0] == sm);
    } else {
        assert forall|t: int| 0 <= t < errs.len() implies errs[t] != sm by {
            if t < b.len() {
                assert(b[t] == cm);
            } else if t < b.len() + x.len() {
                assert(errs[t] == x[t - b.len()]);
                assert(x[t - b.len()][0] == 101u8);
            } else {
                assert(errs[t] == last);
            }
        }
    }
    if str_or_empty(m, "cid"@) != cid_string(data) {
        assert(errs[b.len() - 1] == cm);
    } else {
        assert forall|t: int| 0 <= t < errs.len() implies errs[t] != cm by {
            if t < b.len() {
                assert(b[t] == sm);
            } else if t < b.len() + x.len() {
                assert(errs[t] == x[t - b.len()]);
                assert(x[t - b.len()][0] == 101u8);
            } else {
                assert(errs[t] == last);
                assert(last[1] != cm[1]);
            }
        }
    }
}

} // verus!
