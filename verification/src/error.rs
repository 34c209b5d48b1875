//! The failures a vault operation can end in.

use vstd::prelude::*;

verus! {

/// Why a vault operation did not complete.
#[derive(Clone, Copy, Debug, PartialEq, Eq, Structural)]
pub enum VaultError {
    /// A key pair of that name is already in the store.
    NameCollision,
    /// No key pair of that name is in the store.
    KeyNotFound,
    /// The key pair holds no encrypted secret.
    SecretNotStored,
    /// The password is wrong or the envelope was altered.
    Authentication,
    /// The password and its confirmation differ.
    PasswordMismatch,
    /// The phrase is no mnemonic.
    InvalidMnemonic,
    /// The secret has no length that the operation accepts.
    InvalidSecretLength,
    /// The stored data does not have the structure of a key store.
    StoreCorrupt,
    /// The cipher refused to encrypt.
    Encryption,
}

} // verus!
