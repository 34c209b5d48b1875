//! Signing with a stored key.
//!
//! Signing is all or nothing: a call returns a whole signature, asks for
//! a password, or fails.

use vstd::prelude::*;
use vstd::slice::slice_to_vec;
use vstd::string::StringExecFns;
use crate::cipher::decrypt_secret_key;
use crate::cipher::opened;
use crate::error::VaultError;
use crate::fingerprint::calculate_key_store_hash;
use crate::fingerprint::fingerprint_of;
use crate::generator::seed_from_bytes;
use crate::primitives::base64_encode;
use crate::primitives::base64_standard;
use crate::primitives::ed25519_sign;
use crate::primitives::ed25519_signature;
use crate::primitives::MAX_BASE64_INPUT;
use crate::session::cache_after;
use crate::session::entered_view;
use crate::session::password_answer;
use crate::session::PasswordCache;
use crate::session::Remembered;
use crate::store::envelope_of;
use crate::store::find_encrypted_secret;
use crate::store::KeyRecord;
use crate::store::KeyStore;

verus! {

/// The proving systems that a submission can name.
#[derive(Clone, Copy, Debug, PartialEq, Eq, Structural)]
pub enum ProvingSystem {
    Sp1,
    Circom,
    Risc0,
    Starknet,
}

impl ProvingSystem {
    /// The identifier of the proving system in a submission.
    pub open spec fn identifier(self) -> Seq<char> {
        match self {
            ProvingSystem::Sp1 => "sp1"@,
            ProvingSystem::Circom => "circom"@,
            ProvingSystem::Risc0 => "risc0"@,
            ProvingSystem::Starknet => "starknet"@,
        }
    }

    /// The identifier of the proving system in a submission.
    pub fn as_str(&self) -> (text: &'static str)
        ensures
            text@ == self.identifier(),
    {
        match self {
            ProvingSystem::Sp1 => "sp1",
            ProvingSystem::Circom => "circom",
            ProvingSystem::Risc0 => "risc0",
            ProvingSystem::Starknet => "starknet",
        }
    }
}

/// What a call of [`sign_payload`] ends in when it does not fail.
pub enum SignOutcome {
    /// The signature of the payload, 64 bytes.
    Signed(Vec<u8>),
    /// No password is remembered for the store as it is now: the caller
    /// asks for one and calls again with it.
    PasswordNeeded,
}

/// The signature that a password gives for a payload with the key pair of
/// a name, or why there is none: the name is unknown, no secret is kept,
/// the password does not open the envelope, or the secret is not a seed of
/// 32 bytes. The checks come in this order.
pub open spec fn signature_with(
    keys: Map<Seq<char>, KeyRecord>,
    key_name: Seq<char>,
    payload: Seq<u8>,
    password: Seq<char>,
) -> Result<Seq<u8>, VaultError> {
    match envelope_of(keys, key_name) {
        Err(e) => Err(e),
        Ok(envelope) => match opened(envelope, password) {
            Err(e) => Err(e),
            Ok(secret) => if secret.len() == 32 {
                Ok(ed25519_signature(secret, payload))
            } else {
                Err(VaultError::InvalidSecretLength)
            },
        },
    }
}

/// What [`sign_payload`] returns: `Ok(Some(..))` holds a signature and
/// `Ok(None)` asks for a password. The key pair is looked up first, then
/// the password is taken from the cache or from what was entered, then the
/// payload is signed with it.
pub open spec fn sign_answer(
    keys: Map<Seq<char>, KeyRecord>,
    fingerprint: Seq<char>,
    cache: Option<Remembered>,
    payload: Seq<u8>,
    key_name: Seq<char>,
    entered: Option<Seq<char>>,
) -> Result<Option<Seq<u8>>, VaultError> {
    match envelope_of(keys, key_name) {
        Err(e) => Err(e),
        Ok(envelope) => match password_answer(cache, fingerprint, envelope, entered) {
            Err(e) => Err(e),
            Ok(None) => Ok(None),
            Ok(Some(password)) => match signature_with(keys, key_name, payload, password) {
                Ok(signature) => Ok(Some(signature)),
                Err(e) => Err(e),
            },
        },
    }
}

/// The cache that [`sign_payload`] leaves: untouched where the key pair
/// has no envelope, else as the password step leaves it.
pub open spec fn sign_cache(
    keys: Map<Seq<char>, KeyRecord>,
    fingerprint: Seq<char>,
    cache: Option<Remembered>,
    key_name: Seq<char>,
    entered: Option<Seq<char>>,
) -> Option<Remembered> {
    match envelope_of(keys, key_name) {
        Err(_) => cache,
        Ok(envelope) => cache_after(cache, fingerprint, envelope, entered),
    }
}

/// The text that is signed for a submission: five labelled lines in a
/// fixed order, joined by line feeds, with proof and program in base64.
pub open spec fn canonical_text(
    proof_data: Seq<u8>,
    elf: Seq<u8>,
    proof_filename: Seq<char>,
    elf_filename: Seq<char>,
    proving_system: ProvingSystem,
) -> Seq<char> {
    "proof:"@ + base64_standard(proof_data) + "\nelf:"@ + base64_standard(elf)
        + "\nproof_filename:"@ + proof_filename + "\nelf_filename:"@ + elf_filename
        + "\nproving_system:"@ + proving_system.identifier()
}

/// Signs a payload with the key pair of a name, given its password.
///
/// Fails with `KeyNotFound` when the name is unknown, else with
/// `SecretNotStored` when the key pair keeps no secret, else with
/// `Authentication` when the password does not open the envelope, else
/// with `InvalidSecretLength` when the secret is not a seed of 32 bytes.
/// The signature is the Ed25519 signature of the payload under the secret.
pub fn sign_with_password(store: &KeyStore, key_name: &str, payload: &[u8], password: &str) -> (r:
    Result<Vec<u8>, VaultError>)
    ensures
        r matches Ok(signature) ==> signature_with(store@, key_name@, payload@, password@) == Ok::<
            Seq<u8>,
            VaultError,
        >(signature@),
        r matches Ok(signature) ==> signature@.len() == 64,
        r matches Err(e) ==> signature_with(store@, key_name@, payload@, password@) == Err::<
            Seq<u8>,
            VaultError,
        >(e),
{
    let envelope = match find_encrypted_secret(store, key_name) {
        Ok(envelope) => envelope,
        Err(e) => {
            return Err(e);
        },
    };
    let secret = match decrypt_secret_key(envelope, password) {
        Ok(secret) => secret,
        Err(e) => {
            return Err(e);
        },
    };
    let seed: [u8; 32] = match seed_from_bytes(secret.as_slice()) {
        Ok(seed) => seed,
        Err(e) => {
            return Err(e);
        },
    };
    let signature: [u8; 64] = ed25519_sign(&seed, payload);
    Ok(slice_to_vec(signature.as_slice()))
}

/// Signs a payload with the key pair of a name, using the password cache
/// of the session.
///
/// The key pair is resolved first: an unknown name fails with
/// `KeyNotFound` and a key pair without a secret with `SecretNotStored`,
/// and the cache is then left alone. Then the password is fetched as
/// [`PasswordCache::get_or_prompt`] says, for the fingerprint of the store
/// as it is now: where none is remembered for it and none was entered, the
/// call returns `PasswordNeeded`, and the caller prompts and calls once
/// more. With a password the payload is signed as [`sign_with_password`]
/// says.
pub fn sign_payload(
    store: &KeyStore,
    cache: &mut PasswordCache,
    payload: &[u8],
    key_name: &str,
    entered: Option<&str>,
) -> (r: Result<SignOutcome, VaultError>)
    ensures
        match r {
            Ok(SignOutcome::Signed(signature)) => sign_answer(
                store@,
                fingerprint_of(store.entries()),
                old(cache)@,
                payload@,
                key_name@,
                entered_view(entered),
            ) == Ok::<Option<Seq<u8>>, VaultError>(Some(signature@)) && signature@.len() == 64,
            Ok(SignOutcome::PasswordNeeded) => sign_answer(
                store@,
                fingerprint_of(store.entries()),
                old(cache)@,
                payload@,
                key_name@,
                entered_view(entered),
            ) == Ok::<Option<Seq<u8>>, VaultError>(None),
            Err(e) => sign_answer(
                store@,
                fingerprint_of(store.entries()),
                old(cache)@,
                payload@,
                key_name@,
                entered_view(entered),
            ) == Err::<Option<Seq<u8>>, VaultError>(e),
        },
        final(cache)@ == sign_cache(
            store@,
            fingerprint_of(store.entries()),
            old(cache)@,
            key_name@,
            entered_view(entered),
        ),
{
    let fingerprint = calculate_key_store_hash(store);
    let envelope = match find_encrypted_secret(store, key_name) {
        Ok(envelope) => envelope,
        Err(e) => {
            return Err(e);
        },
    };
    let password = match cache.get_or_prompt(fingerprint.as_str(), envelope, entered) {
        Ok(Some(password)) => password,
        Ok(None) => {
            return Ok(SignOutcome::PasswordNeeded);
        },
        Err(e) => {
            return Err(e);
        },
    };
    match sign_with_password(store, key_name, payload, password.as_str()) {
        Ok(signature) => Ok(SignOutcome::Signed(signature)),
        Err(e) => Err(e),
    }
}

/// Builds the text that is signed for a submission.
///
/// Proof and program must be short enough for their base64 text to be
/// allocated.
pub fn canonical_string(
    proof_data: &[u8],
    elf: &[u8],
    proof_filename: &str,
    elf_filename: &str,
    proving_system: ProvingSystem,
) -> (text: String)
    requires
        proof_data@.len() <= MAX_BASE64_INPUT,
        elf@.len() <= MAX_BASE64_INPUT,
    ensures
        text@ == canonical_text(proof_data@, elf@, proof_filename@, elf_filename@, proving_system),
{
    let mut text = String::from_str("proof:");
    let proof_text = base64_encode(proof_data);
    text.append(proof_text.as_str());
    text.append("\nelf:");
    let elf_text = base64_encode(elf);
    text.append(elf_text.as_str());
    text.append("\nproof_filename:");
    text.append(proof_filename);
    text.append("\nelf_filename:");
    text.append(elf_filename);
    text.append("\nproving_system:");
    text.append(proving_system.as_str());
    text
}

/// Encodes a signature or a public key as the value of a request header.
///
/// The bytes must be few enough for their base64 text to be allocated.
pub fn header_value(bytes: &[u8]) -> (text: String)
    requires
        bytes@.len() <= MAX_BASE64_INPUT,
    ensures
        text@ == base64_standard(bytes@),
{
    base64_encode(bytes)
}

} // verus!
