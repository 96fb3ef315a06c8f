//! Resolving signer DIDs to Ed25519 public keys: the built-in methods, the
//! check of resolver output, and the per-resolver key cache.
use vstd::prelude::*;

use crate::did::{did_key_decode, did_key_to_pubkey};
use crate::error::{is_invalid, Error};
use crate::text::{has_prefix, lemma_concat_valid_utf8, push_str, str_eq, str_starts_with, utf8};
use crate::verify::key_model;

verus! {

broadcast use vstd::utf8::encode_utf8_valid_utf8;

/// How long a resolved key stays in the cache, in milliseconds.
pub const RESOLVER_CACHE_TTL_MS: i64 = 5 * 60 * 1000;

/// What the built-in resolution of a DID comes to.
#[derive(Debug)]
pub enum BuiltinResolution {
    /// The key (or the reason there is none) is known without any fetch.
    Resolved(Result<[u8; 32], Error>),
    /// The DID is a `did:web`: its document has to be fetched.
    FetchDidWeb,
}

/// What built-in resolution gives for `did`: the decoded key of a `did:key`
/// (or why it does not decode), a fetch for a `did:web`, and a refusal of
/// any other method.
pub open spec fn builtin_outcome(r: BuiltinResolution, did: Seq<char>) -> bool {
    if has_prefix(did, "did:key:"@) {
        r matches BuiltinResolution::Resolved(k) && key_model(k) == did_key_decode(utf8(did))
    } else if has_prefix(did, "did:web:"@) {
        r is FetchDidWeb
    } else {
        r matches BuiltinResolution::Resolved(Err(e)) && is_invalid(
            e,
            utf8("unsupported DID method: "@) + utf8(did),
        )
    }
}

/// Built-in resolution: `did:key` identifiers are decoded, `did:web`
/// identifiers need their document fetched, other methods are refused.
pub fn builtin_resolve(did: &str) -> (r: BuiltinResolution)
    ensures
        builtin_outcome(r, did@),
{
    if str_starts_with(did, "did:key:") {
        let k = did_key_to_pubkey(did);
        return BuiltinResolution::Resolved(k);
    }
    if str_starts_with(did, "did:web:") {
        return BuiltinResolution::FetchDidWeb;
    }
    let mut m: Vec<u8> = Vec::new();
    push_str(&mut m, "unsupported DID method: ");
    push_str(&mut m, did);
    proof {
        lemma_concat_valid_utf8(utf8("unsupported DID method: "@), utf8(did@));
    }
    BuiltinResolution::Resolved(Err(Error::invalid(m)))
}

/// The key a resolver returned, which must be exactly 32 bytes.
pub fn check_resolved_key(raw: &[u8]) -> (r: Result<[u8; 32], Error>)
    ensures
        raw@.len() == 32 ==> (r matches Ok(a) && a@ == raw@),
        raw@.len() != 32 ==> (r matches Err(e) && is_invalid(
            e,
            utf8("resolver returned non-32-byte pubkey"@),
        )),
{
    if raw.len() != 32 {
        return Err(Error::invalid_str("resolver returned non-32-byte pubkey"));
    }
    let mut out = [0u8; 32];
    let mut i: usize = 0;
    while i < 32
        invariant
            i <= 32,
            raw@.len() == 32,
            forall|k: int| 0 <= k < i ==> out@[k] == raw@[k],
        decreases 32 - i,
    {
        out[i] = raw[i];
        i = i + 1;
    }
    assert(out@ =~= raw@);
    Ok(out)
}

/// A cached key: the resolver scope and DID it was resolved for, the key,
/// and when the entry stops being fresh.
#[derive(Debug, Clone)]
pub struct CacheEntry {
    pub scope: usize,
    pub did: String,
    pub pubkey: [u8; 32],
    pub expires_ms: i64,
}

/// The keys resolvers have produced, each under the scope of the resolver
/// that produced it and fresh for `RESOLVER_CACHE_TTL_MS` after it was stored.
#[derive(Debug)]
pub struct PubkeyCache {
    entries: Vec<CacheEntry>,
}

/// The key of an entry in the cache's map: its scope and DID.
pub open spec fn entry_key(e: CacheEntry) -> (usize, Seq<char>) {
    (e.scope, e.did@)
}

/// The map that a list of entries stands for; a later entry for a scope and
/// DID replaces an earlier one.
pub open spec fn entries_map(e: Seq<CacheEntry>) -> Map<(usize, Seq<char>), (Seq<u8>, i64)>
    decreases e.len(),
{
    if e.len() == 0 {
        Map::empty()
    } else {
        entries_map(e.drop_last()).insert(
            entry_key(e.last()),
            (e.last().pubkey@, e.last().expires_ms),
        )
    }
}

/// The entries other than the one for `key`, in order.
pub open spec fn entries_except(e: Seq<CacheEntry>, key: (usize, Seq<char>)) -> Seq<CacheEntry>
    decreases e.len(),
{
    if e.len() == 0 {
        e
    } else if entry_key(e.last()) == key {
        entries_except(e.drop_last(), key)
    } else {
        entries_except(e.drop_last(), key).push(e.last())
    }
}

proof fn lemma_entries_except(e: Seq<CacheEntry>, key: (usize, Seq<char>))
    ensures
        entries_map(entries_except(e, key)) == entries_map(e).remove(key),
    decreases e.len(),
{
    if e.len() > 0 {
        lemma_entries_except(e.drop_last(), key);
        let rest = entries_except(e.drop_last(), key);
        if entry_key(e.last()) != key {
            assert(rest.push(e.last()).drop_last() =~= rest);
            assert(rest.push(e.last()).last() == e.last());
        }
        assert(entries_map(entries_except(e, key)) =~= entries_map(e).remove(key));
    } else {
        assert(entries_map(e).remove(key) =~= Map::empty());
    }
}

/// What a cache lookup yields: the stored key while its entry is fresh.
pub open spec fn cache_lookup(
    m: Map<(usize, Seq<char>), (Seq<u8>, i64)>,
    scope: usize,
    did: Seq<char>,
    now: i64,
) -> Option<Seq<u8>> {
    if m.contains_key((scope, did)) && m[(scope, did)].1 > now {
        Some(m[(scope, did)].0)
    } else {
        None
    }
}

impl View for PubkeyCache {
    type V = Map<(usize, Seq<char>), (Seq<u8>, i64)>;

    closed spec fn view(&self) -> Self::V {
        entries_map(self.entries@)
    }
}

impl PubkeyCache {
    /// An empty cache.
    pub fn new() -> (r: Self)
        ensures
            r@ == Map::<(usize, Seq<char>), (Seq<u8>, i64)>::empty(),
    {
        let r = PubkeyCache { entries: Vec::new() };
        assert(r@ =~= Map::<(usize, Seq<char>), (Seq<u8>, i64)>::empty());
        r
    }

    /// The key of `did` cached under `scope`, if its entry is still fresh at `now_ms`.
    pub fn lookup(&self, scope: usize, did: &str, now_ms: i64) -> (r: Option<[u8; 32]>)
        ensures
            match r {
                Some(pk) => cache_lookup(self@, scope, did@, now_ms) == Some(pk@),
                None => cache_lookup(self@, scope, did@, now_ms) is None,
            },
    {
        let ghost e = self.entries@;
        let ghost key = (scope, did@);
        let mut i: usize = self.entries.len();
        assert(e.subrange(0, e.len() as int) =~= e);
        while i > 0
            invariant
                i <= e.len(),
                e == self.entries@,
                key == (scope, did@),
                entries_map(e).contains_key(key) == entries_map(e.subrange(0, i as int)).contains_key(key),
                entries_map(e).contains_key(key) ==> entries_map(e)[key] == entries_map(
                    e.subrange(0, i as int),
                )[key],
            decreases i,
        {
            let entry = &self.entries[i - 1];
            assert(e.subrange(0, i as int).drop_last() =~= e.subrange(0, i - 1));
            if entry.scope == scope && str_eq(entry.did.as_str(), did) {
                if entry.expires_ms > now_ms {
                    return Some(entry.pubkey);
                } else {
                    return None;
                }
            }
            i = i - 1;
        }
        None
    }

    /// Stores the key of `did` under `scope`, fresh until `now_ms + RESOLVER_CACHE_TTL_MS`.
    pub fn insert(&mut self, scope: usize, did: &str, pubkey: [u8; 32], now_ms: i64)
        requires
            now_ms <= i64::MAX - RESOLVER_CACHE_TTL_MS,
        ensures
            final(self)@ == old(self)@.insert(
                (scope, did@),
                (pubkey@, (now_ms + RESOLVER_CACHE_TTL_MS) as i64),
            ),
    {
        let ghost e = self.entries@;
        let ghost key = (scope, did@);
        let mut kept: Vec<CacheEntry> = Vec::new();
        let mut i: usize = 0;
        assert(e.subrange(0, 0) =~= Seq::<CacheEntry>::empty());
        while i < self.entries.len()
            invariant
                i <= e.len(),
                e == self.entries@,
                key == (scope, did@),
                kept@ == entries_except(e.subrange(0, i as int), key),
            decreases e.len() - i,
        {
            assert(e.subrange(0, i + 1).drop_last() =~= e.subrange(0, i as int));
            let entry = &self.entries[i];
            if !(entry.scope == scope && str_eq(entry.did.as_str(), did)) {
                kept.push(
                    CacheEntry {
                        scope: entry.scope,
                        did: entry.did.clone(),
                        pubkey: entry.pubkey,
                        expires_ms: entry.expires_ms,
                    },
                );
            }
            i = i + 1;
        }
        assert(e.subrange(0, e.len() as int) =~= e);
        proof {
            lemma_entries_except(e, key);
        }
        let ghost before = kept@;
        kept.push(
            CacheEntry {
                scope,
                did: did.to_owned(),
                pubkey,
                expires_ms: now_ms + RESOLVER_CACHE_TTL_MS,
            },
        );
        assert(kept@.drop_last() =~= before);
        self.entries = kept;
        assert(self@ =~= old(self)@.insert(key, (pubkey@, (now_ms + RESOLVER_CACHE_TTL_MS) as i64)));
    }
}

/// What resolving a signer's DID comes to before any outside call.
#[derive(Debug)]
pub enum ResolvePlan {
    /// A fresh key was cached for this resolver and DID.
    Cached([u8; 32]),
    /// The caller's resolver has to be asked.
    AskResolver,
    /// Built-in resolution: decided now, or a `did:web` fetch is needed.
    Builtin(BuiltinResolution),
}

/// The first step of resolving `did`: a fresh key cached under `scope` (when
/// caching is on) is used as is; otherwise the caller's resolver, if there is
/// one, is asked, and else the built-in methods apply.
pub fn plan_resolution(
    cache: &PubkeyCache,
    scope: Option<usize>,
    has_resolver: bool,
    did: &str,
    now_ms: i64,
) -> (r: ResolvePlan)
    ensures
        match scope {
            Some(s) if cache_lookup(cache@, s, did@, now_ms) is Some => r matches ResolvePlan::Cached(
                pk,
            ) && cache_lookup(cache@, s, did@, now_ms) == Some(pk@),
            _ => if has_resolver {
                r is AskResolver
            } else {
                r matches ResolvePlan::Builtin(b) && builtin_outcome(b, did@)
            },
        },
{
    if let Some(s) = scope {
        if let Some(pk) = cache.lookup(s, did, now_ms) {
            return ResolvePlan::Cached(pk);
        }
    }
    if has_resolver {
        ResolvePlan::AskResolver
    } else {
        ResolvePlan::Builtin(builtin_resolve(did))
    }
}

/// The last step of resolving a key: it is cached under `scope` when caching
/// is on; a clock too close to the end of time for the entry's expiry to be
/// represented leaves the cache as it is.
pub fn record_resolution(cache: &mut PubkeyCache, scope: Option<usize>, did: &str, pubkey: [u8; 32], now_ms: i64)
    ensures
        match scope {
            Some(s) if now_ms <= i64::MAX - RESOLVER_CACHE_TTL_MS => final(cache)@ == old(cache)@.insert(
                (s, did@),
                (pubkey@, (now_ms + RESOLVER_CACHE_TTL_MS) as i64),
            ),
            _ => final(cache)@ == old(cache)@,
        },
{
    if let Some(s) = scope {
        if now_ms <= i64::MAX - RESOLVER_CACHE_TTL_MS {
            cache.insert(s, did, pubkey, now_ms);
        }
    }
}

/// A key stored at `stored_ms` is found while less than
/// `RESOLVER_CACHE_TTL_MS` has passed, and not after; the keys of other DIDs,
/// and those cached for other resolvers, are not affected by storing it.
pub proof fn lemma_cache_insert_lookup(
    m: Map<(usize, Seq<char>), (Seq<u8>, i64)>,
    scope: usize,
    did: Seq<char>,
    pubkey: Seq<u8>,
    stored_ms: i64,
    other_scope: usize,
    other: Seq<char>,
    now_ms: i64,
)
    requires
        stored_ms <= i64::MAX - RESOLVER_CACHE_TTL_MS,
    ensures
        ({
            let m2 = m.insert((scope, did), (pubkey, (stored_ms + RESOLVER_CACHE_TTL_MS) as i64));
            &&& cache_lookup(m2, scope, did, now_ms) == if now_ms < stored_ms + RESOLVER_CACHE_TTL_MS {
                Some(pubkey)
            } else {
                None
            }
            &&& (other_scope, other) != (scope, did) ==> cache_lookup(m2, other_scope, other, now_ms)
                == cache_lookup(m, other_scope, other, now_ms)
        }),
{
}


/// The cache after storing each of `stores` in turn, as `insert` does.
pub open spec fn apply_stores(
    m: Map<(usize, Seq<char>), (Seq<u8>, i64)>,
    stores: Seq<((usize, Seq<char>), (Seq<u8>, i64))>,
) -> Map<(usize, Seq<char>), (Seq<u8>, i64)>
    decreases stores.len(),
{
    if stores.len() == 0 {
        m
    } else {
        apply_stores(m, stores.drop_last()).insert(stores.last().0, stores.last().1)
    }
}

/// A key stored at `stored_ms` for a resolver scope and DID is found for
/// that scope and DID until `RESOLVER_CACHE_TTL_MS` has passed, whatever is
/// stored afterwards for other scopes or DIDs; once that time has passed it
/// is not found, unless stored again.
pub proof fn lemma_cache_history(
    m: Map<(usize, Seq<char>), (Seq<u8>, i64)>,
    scope: usize,
    did: Seq<char>,
    pubkey: Seq<u8>,
    stored_ms: i64,
    later: Seq<((usize, Seq<char>), (Seq<u8>, i64))>,
    now_ms: i64,
)
    requires
        stored_ms <= i64::MAX - RESOLVER_CACHE_TTL_MS,
        forall|k: int| 0 <= k < later.len() ==> (#[trigger] later[k]).0 != (scope, did),
    ensures
        cache_lookup(
            apply_stores(
                m.insert((scope, did), (pubkey, (stored_ms + RESOLVER_CACHE_TTL_MS) as i64)),
                later,
            ),
            scope,
            did,
            now_ms,
        ) == if now_ms < stored_ms + RESOLVER_CACHE_TTL_MS {
            Some(pubkey)
        } else {
            None
        },
    decreases later.len(),
{
    if later.len() > 0 {
        let rest = later.drop_last();
        assert forall|k: int| 0 <= k < rest.len() implies (#[trigger] rest[k]).0 != (scope, did) by {
            assert(rest[k] == later[k]);
        }
        lemma_cache_history(m, scope, did, pubkey, stored_ms, rest, now_ms);
        assert(later.last().0 != (scope, did));
    }
}

} // verus!
