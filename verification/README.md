# agent-cid

Content-addressed artifact manifests for AI agents: a CIDv1 (raw codec,
SHA-256, base32-lower) of the artifact bytes, wrapped in a JSON envelope
(producer DID, schema URI, media type, timestamps, optional parent CID and
retention hints) and signed with Ed25519 over its RFC 8785 (JCS) canonical
form without the `sigs` member. Signers are named by `did:key` or `did:web`.

## Layout

- `src/` — the verified library (Verus). The decisions of building and
  verifying are made here and proved against their contracts (the caller
  picks the cache scope of a resolver):
  - `cid` — CIDs of bodies and their check;
  - `did` — `did:key` encoding and decoding (with the LEB128 multicodec
    varint), `did:web` to URL, reading a key from a DID document;
  - `schema` — the manifest schema check, message by message;
  - `manifest` — building: the unsigned manifest and its canonical bytes,
    then the signature entries;
  - `verify` — verification in two steps around key resolution
    (`prepare_verify`, `finish_verify`), and chains of versions
    (`combine_chain`);
  - `resolve` — built-in DID resolution, the resolver key check, and the
    per-resolver key cache with its five-minute freshness;
  - `did_web` — the decisions of a `did:web` document fetch, and the key
    read from the fetched body (size cap, JSON text, DID document);
  - `roundtrip` — what building promises verification;
  - `complaints` — each complaint is reported exactly when its cause holds;
  - `json`, `text`, `error`, `types`, `canonical`, `sign` — the data model
    and the calls into `serde_jcs`, `sha2`, `data-encoding`, `bs58`,
    `base64`, `ed25519-dalek`, `serde_json` and `chrono`, each behind a small trusted
    wrapper whose contract names what the outside crate computes.
- `app/` — the asynchronous surface (`build`, `verify`, `verify_chain`,
  `fetch_did_web_pubkey`): it awaits signers and resolvers, fetches DID
  documents over HTTPS, reads the clock, keeps the process-wide key cache
  and converts between `serde_json::Value` and the library's `Json`.
- `tests/` — tests of the library on concrete values.
