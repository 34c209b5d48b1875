//! Password-based encryption of secret keys.
//!
//! A secret is sealed under a key derived from a password and a fresh salt,
//! with a fresh nonce. Opening the envelope with the password is the only
//! way in which a password is ever validated.

use vstd::prelude::*;
use vstd::slice::slice_to_vec;
use crate::error::VaultError;
use crate::primitives::aes256_gcm_open;
use crate::primitives::aes256_gcm_seal;
use crate::primitives::aes_gcm_decrypt;
use crate::primitives::aes_gcm_encrypt;
use crate::primitives::pbkdf2_hmac_sha256;
use crate::primitives::pbkdf2_sha256;
use crate::primitives::random_bytes;
use crate::primitives::ITERATIONS;
use crate::primitives::KEY_LENGTH;
use crate::primitives::MAX_ALLOCATION;
use crate::primitives::MAX_PLAINTEXT_LENGTH;
use crate::primitives::NONCE_LENGTH;
use crate::primitives::SALT_LENGTH;
use crate::primitives::TAG_LENGTH;

verus! {

/// The envelope that protects one secret key at rest.
pub struct EncryptedSecretKey {
    /// Random bytes, used only to derive the key.
    pub salt: Vec<u8>,
    /// Random bytes, used only by the cipher.
    pub nonce: Vec<u8>,
    /// The ciphertext, ending in its authentication tag.
    pub encrypted_data: Vec<u8>,
}

/// What an envelope holds, as mathematical sequences.
pub struct Envelope {
    pub salt: Seq<u8>,
    pub nonce: Seq<u8>,
    pub encrypted_data: Seq<u8>,
}

impl View for EncryptedSecretKey {
    type V = Envelope;

    open spec fn view(&self) -> Envelope {
        Envelope { salt: self.salt@, nonce: self.nonce@, encrypted_data: self.encrypted_data@ }
    }
}

impl EncryptedSecretKey {
    /// A copy of the envelope.
    pub fn duplicate(&self) -> (copy: EncryptedSecretKey)
        ensures
            copy@ == self@,
    {
        EncryptedSecretKey {
            salt: slice_to_vec(self.salt.as_slice()),
            nonce: slice_to_vec(self.nonce.as_slice()),
            encrypted_data: slice_to_vec(self.encrypted_data.as_slice()),
        }
    }
}

/// The key that a password and a salt derive: PBKDF2-HMAC-SHA256 over the
/// UTF-8 bytes of the password, with the fixed number of rounds.
pub open spec fn derived_key(password: Seq<char>, salt: Seq<u8>) -> Seq<u8> {
    pbkdf2_hmac_sha256(vstd::utf8::encode_utf8(password), salt, ITERATIONS)
}

/// The envelope that sealing a secret under a password gives, once salt
/// and nonce have been drawn.
pub open spec fn sealed(secret: Seq<u8>, password: Seq<char>, salt: Seq<u8>, nonce: Seq<u8>)
    -> Envelope {
    Envelope {
        salt,
        nonce,
        encrypted_data: aes256_gcm_seal(derived_key(password, salt), nonce, secret),
    }
}

/// What opening an envelope with a password gives: the plaintext where the
/// cipher accepts the ciphertext under the derived key, and an
/// authentication failure in every other case, a nonce of the wrong length
/// among them.
pub open spec fn opened(envelope: Envelope, password: Seq<char>) -> Result<Seq<u8>, VaultError> {
    if envelope.nonce.len() != NONCE_LENGTH {
        Err(VaultError::Authentication)
    } else {
        match aes256_gcm_open(
            derived_key(password, envelope.salt),
            envelope.nonce,
            envelope.encrypted_data,
        ) {
            Some(secret) => Ok(secret),
            None => Err(VaultError::Authentication),
        }
    }
}

/// Whether a secret of this length can be sealed: the cipher accepts it,
/// and it leaves room for the tag in one allocation.
pub open spec fn sealable(len: nat) -> bool {
    len <= MAX_PLAINTEXT_LENGTH && len + TAG_LENGTH <= MAX_ALLOCATION
}

/// Whether a password opens an envelope.
pub open spec fn unlocks(envelope: Envelope, password: Seq<char>) -> bool {
    opened(envelope, password) is Ok
}

/// Derives the 32-byte symmetric key of a password and a salt.
/// The same inputs always give the same key.
pub fn derive_key(password: &str, salt: &[u8]) -> (key: [u8; 32])
    ensures
        key@ == derived_key(password@, salt@),
        key@.len() == KEY_LENGTH,
{
    pbkdf2_sha256(password.as_bytes(), salt, ITERATIONS)
}

/// Seals a secret under a password with the given salt and nonce.
///
/// Fails with `Encryption` exactly when the secret is longer than can be
/// sealed. The envelope returned opens to the secret again under the same
/// password.
pub fn encrypt_secret_key_with(
    secret_key: &[u8],
    password: &str,
    salt: &[u8; 32],
    nonce: &[u8; 12],
) -> (r: Result<EncryptedSecretKey, VaultError>)
    ensures
        r is Ok <==> sealable(secret_key@.len()),
        r matches Ok(envelope) ==> envelope@ == sealed(secret_key@, password@, salt@, nonce@),
        r matches Ok(envelope) ==> envelope@.encrypted_data.len() == secret_key@.len() + TAG_LENGTH,
        r matches Ok(envelope) ==> opened(envelope@, password@) == Ok::<Seq<u8>, VaultError>(
            secret_key@,
        ),
        r matches Err(e) ==> e == VaultError::Encryption,
{
    if secret_key.len() > MAX_ALLOCATION - TAG_LENGTH {
        return Err(VaultError::Encryption);
    }
    let key = derive_key(password, salt.as_slice());
    match aes_gcm_encrypt(&key, nonce, secret_key) {
        Ok(encrypted_data) => Ok(
            EncryptedSecretKey {
                salt: slice_to_vec(salt.as_slice()),
                nonce: slice_to_vec(nonce.as_slice()),
                encrypted_data,
            },
        ),
        Err(_) => Err(VaultError::Encryption),
    }
}

/// Seals a secret under a password, with a salt and a nonce freshly drawn
/// from the operating system.
///
/// Fails with `Encryption` exactly when the secret is longer than can be
/// sealed. Whatever salt and nonce were drawn, the envelope holds them with
/// the ciphertext they give, and opens to the secret again under the same
/// password.
pub fn encrypt_secret_key(secret_key: &[u8], password: &str) -> (r: Result<
    EncryptedSecretKey,
    VaultError,
>)
    ensures
        r is Ok <==> sealable(secret_key@.len()),
        r matches Ok(envelope) ==> envelope@.salt.len() == SALT_LENGTH && envelope@.nonce.len()
            == NONCE_LENGTH,
        r matches Ok(envelope) ==> envelope@ == sealed(
            secret_key@,
            password@,
            envelope@.salt,
            envelope@.nonce,
        ),
        r matches Ok(envelope) ==> envelope@.encrypted_data.len() == secret_key@.len() + TAG_LENGTH,
        r matches Ok(envelope) ==> opened(envelope@, password@) == Ok::<Seq<u8>, VaultError>(
            secret_key@,
        ),
        r matches Err(e) ==> e == VaultError::Encryption,
{
    let salt: [u8; 32] = random_bytes::<32>();
    let nonce: [u8; 12] = random_bytes::<12>();
    encrypt_secret_key_with(secret_key, password, &salt, &nonce)
}

/// Opens an envelope with a password.
///
/// Returns the secret where the cipher authenticates the ciphertext under
/// the key that the password derives from the envelope's salt, and fails
/// with `Authentication` otherwise: no other error comes out, and no
/// plaintext is returned that the cipher did not authenticate.
pub fn decrypt_secret_key(encrypted: &EncryptedSecretKey, password: &str) -> (r: Result<
    Vec<u8>,
    VaultError,
>)
    ensures
        r matches Ok(secret) ==> opened(encrypted@, password@) == Ok::<Seq<u8>, VaultError>(
            secret@,
        ),
        r matches Err(e) ==> opened(encrypted@, password@) == Err::<Seq<u8>, VaultError>(e),
{
    if encrypted.nonce.len() != NONCE_LENGTH {
        return Err(VaultError::Authentication);
    }
    let key = derive_key(password, encrypted.salt.as_slice());
    match aes_gcm_decrypt(&key, encrypted.nonce.as_slice(), encrypted.encrypted_data.as_slice()) {
        Ok(secret) => Ok(secret),
        Err(_) => Err(VaultError::Authentication),
    }
}

/// The key is a function of password and salt: equal inputs derive equal
/// keys.
pub proof fn law_derivation_is_deterministic(
    password_a: Seq<char>,
    salt_a: Seq<u8>,
    password_b: Seq<char>,
    salt_b: Seq<u8>,
)
    requires
        password_a == password_b,
        salt_a == salt_b,
    ensures
        derived_key(password_a, salt_a) == derived_key(password_b, salt_b),
{
}

/// A password matters to an envelope only through the key it derives: two
/// passwords that derive the same key open the envelope to the same
/// result, and a password can only ever fail with `Authentication`.
pub proof fn law_opening_depends_on_key_alone(
    envelope: Envelope,
    password_a: Seq<char>,
    password_b: Seq<char>,
)
    requires
        derived_key(password_a, envelope.salt) == derived_key(password_b, envelope.salt),
    ensures
        opened(envelope, password_a) == opened(envelope, password_b),
        opened(envelope, password_a) matches Err(e) ==> e == VaultError::Authentication,
{
}

/// Opening a sealed secret with another password fails closed: wherever
/// the cipher refuses the ciphertext under the key of the other password,
/// the outcome is `Authentication`. That the cipher does refuse is its own
/// strength and is not proved here; two passwords that derive one key are
/// an input on which it does not.
pub proof fn law_other_password_fails_closed(
    secret: Seq<u8>,
    password: Seq<char>,
    other: Seq<char>,
    salt: Seq<u8>,
    nonce: Seq<u8>,
)
    requires
        aes256_gcm_open(
            derived_key(other, salt),
            nonce,
            aes256_gcm_seal(derived_key(password, salt), nonce, secret),
        ) is None,
    ensures
        opened(sealed(secret, password, salt, nonce), other) == Err::<Seq<u8>, VaultError>(
            VaultError::Authentication,
        ),
{
}

} // verus!
