//! Content-addressed artifact manifests for AI agents: CIDv1 identifiers,
//! `did:key` / `did:web` signer identities, Ed25519 signatures over the
//! RFC 8785 canonical form of the manifest.
pub mod text;
pub mod error;
pub mod json;
pub mod canonical;
pub mod cid;
pub mod did;
pub mod sign;
pub mod types;
pub mod schema;
pub mod verify;
pub mod resolve;
pub mod manifest;
pub mod did_web;
pub mod roundtrip;
pub mod complaints;
