//! A local credential vault for Ed25519 signing identities.
//!
//! Secret keys are kept at rest under password-derived authenticated
//! encryption, looked up by name in a key store, and used to sign
//! submissions. Every function of this crate carries a contract that Verus
//! proves; calls into cryptographic crates go through the small trusted
//! layer in [`primitives`].

pub mod error;
pub mod primitives;
pub mod cipher;
pub mod order;
pub mod store;
pub mod numeral;
pub mod naming;
pub mod generator;
pub mod fingerprint;
pub mod session;
pub mod signer;
pub mod listing;
