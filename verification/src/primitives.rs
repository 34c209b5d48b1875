//! The trusted boundary: each item here states, without proof, what one
//! function of a cryptographic crate returns.
//!
//! Results that are a function of the arguments alone are given a name, an
//! uninterpreted specification function, so that the contracts of the crate
//! can speak of them exactly. Random draws get no name.

use vstd::prelude::*;
use aes_gcm::aead::Aead;
use aes_gcm::aead::KeyInit;
use ed25519_dalek::Signer;
use rand::RngCore;
use sha2::Digest;
use base64::Engine;

verus! {

/// Length in bytes of a derived symmetric key.
pub const KEY_LENGTH: usize = 32;

/// Length in bytes of the salt drawn for each encryption.
pub const SALT_LENGTH: usize = 32;

/// Length in bytes of the nonce drawn for each encryption.
pub const NONCE_LENGTH: usize = 12;

/// Length in bytes of the authentication tag that ends a ciphertext.
pub const TAG_LENGTH: usize = 16;

/// Rounds of the password-based key derivation.
pub const ITERATIONS: u32 = 100_000;

/// The longest plaintext, in bytes, that AES-GCM encrypts.
pub const MAX_PLAINTEXT_LENGTH: u64 = 0x10_0000_0000;

/// The largest number of bytes that one allocation can hold.
pub const MAX_ALLOCATION: usize = usize::MAX / 2;

/// The longest input, in bytes, whose base64 text is sure to fit in memory.
pub const MAX_BASE64_INPUT: usize = usize::MAX / 8 * 3;

/// The error of the `aead` crate, which carries no information.
#[verifier::external_type_specification]
#[verifier::external_body]
pub struct ExAeadError(aes_gcm::Error);

/// The error of the `bip39` crate.
#[verifier::external_type_specification]
#[verifier::external_body]
pub struct ExMnemonicError(bip39::Error);

/// The 32 bytes that `pbkdf2::pbkdf2_hmac_array::<Sha256, 32>` returns.
pub uninterp spec fn pbkdf2_hmac_sha256(password: Seq<u8>, salt: Seq<u8>, rounds: u32) -> Seq<u8>;

/// The ciphertext with its tag that `Aes256Gcm::encrypt` returns for a
/// plaintext within the length limit and no associated data.
pub uninterp spec fn aes256_gcm_seal(key: Seq<u8>, nonce: Seq<u8>, plaintext: Seq<u8>) -> Seq<u8>;

/// The plaintext that `Aes256Gcm::decrypt` returns without associated data,
/// or `None` where it refuses the ciphertext.
pub uninterp spec fn aes256_gcm_open(key: Seq<u8>, nonce: Seq<u8>, ciphertext: Seq<u8>) -> Option<
    Seq<u8>,
>;

/// The 32 bytes that `Sha256::digest` returns.
pub uninterp spec fn sha256(data: Seq<u8>) -> Seq<u8>;

/// The bytes of the verifying key of `SigningKey::from_bytes`.
pub uninterp spec fn ed25519_public_key(seed: Seq<u8>) -> Seq<u8>;

/// The 64 bytes of the signature that `SigningKey::sign` returns.
pub uninterp spec fn ed25519_signature(seed: Seq<u8>, message: Seq<u8>) -> Seq<u8>;

/// The English phrase that `Mnemonic::from_entropy` displays as.
pub uninterp spec fn bip39_phrase(entropy: Seq<u8>) -> Seq<char>;

/// The entropy of the mnemonic that `Mnemonic::from_str` parses, or `None`
/// where it refuses the phrase.
pub uninterp spec fn bip39_entropy(phrase: Seq<char>) -> Option<Seq<u8>>;

/// The padded text that the `STANDARD` engine of `base64` encodes to.
pub uninterp spec fn base64_standard(data: Seq<u8>) -> Seq<char>;

/// The entropy lengths, in bytes, that BIP-39 has a phrase for.
pub open spec fn is_mnemonic_entropy_length(len: nat) -> bool {
    len == 16 || len == 20 || len == 24 || len == 28 || len == 32
}

/// Calls `pbkdf2::pbkdf2_hmac_array` with SHA-256 and a 32-byte output.
/// The claim: the result depends on the three arguments alone.
#[verifier::external_body]
pub(crate) fn pbkdf2_sha256(password: &[u8], salt: &[u8], rounds: u32) -> (key: [u8; 32])
    ensures
        key@ == pbkdf2_hmac_sha256(password@, salt@, rounds),
{
    pbkdf2::pbkdf2_hmac_array::<sha2::Sha256, 32>(password, salt, rounds)
}

/// Calls `Aes256Gcm::encrypt` with no associated data. The plaintext must
/// leave room for the tag in one allocation; the call panics otherwise.
/// The claims: it refuses exactly the plaintexts over the length limit; the
/// ciphertext depends on key, nonce and plaintext alone and is 16 bytes
/// longer than the plaintext; and decryption under the same key and nonce
/// gives the plaintext back.
#[verifier::external_body]
pub(crate) fn aes_gcm_encrypt(key: &[u8; 32], nonce: &[u8; 12], plaintext: &[u8]) -> (r: Result<
    Vec<u8>,
    aes_gcm::Error,
>)
    requires
        plaintext@.len() + TAG_LENGTH <= MAX_ALLOCATION,
    ensures
        r is Ok <==> plaintext@.len() <= MAX_PLAINTEXT_LENGTH,
        r matches Ok(ct) ==> ct@ == aes256_gcm_seal(key@, nonce@, plaintext@),
        r matches Ok(ct) ==> ct@.len() == plaintext@.len() + TAG_LENGTH,
        r matches Ok(ct) ==> aes256_gcm_open(key@, nonce@, ct@) == Some(plaintext@),
{
    let cipher = aes_gcm::Aes256Gcm::new(aes_gcm::Key::<aes_gcm::Aes256Gcm>::from_slice(key));
    cipher.encrypt(aes_gcm::Nonce::from_slice(nonce), plaintext)
}

/// Calls `Aes256Gcm::decrypt` with no associated data. The nonce must have
/// 12 bytes, as `Nonce::from_slice` panics on any other length.
/// The claim: the outcome depends on key, nonce and ciphertext alone.
#[verifier::external_body]
pub(crate) fn aes_gcm_decrypt(key: &[u8; 32], nonce: &[u8], ciphertext: &[u8]) -> (r: Result<
    Vec<u8>,
    aes_gcm::Error,
>)
    requires
        nonce@.len() == NONCE_LENGTH,
    ensures
        r matches Ok(pt) ==> aes256_gcm_open(key@, nonce@, ciphertext@) == Some(pt@),
        r is Err ==> aes256_gcm_open(key@, nonce@, ciphertext@) is None,
{
    let cipher = aes_gcm::Aes256Gcm::new(aes_gcm::Key::<aes_gcm::Aes256Gcm>::from_slice(key));
    cipher.decrypt(aes_gcm::Nonce::from_slice(nonce), ciphertext)
}

/// Calls `Sha256::digest`.
/// The claim: the digest depends on the data alone.
#[verifier::external_body]
pub(crate) fn sha256_digest(data: &[u8]) -> (digest: [u8; 32])
    ensures
        digest@ == sha256(data@),
{
    sha2::Sha256::digest(data).into()
}

/// Calls `SigningKey::from_bytes` and hands out the bytes of its verifying key.
/// The claim: the verifying key depends on the seed alone.
#[verifier::external_body]
pub(crate) fn ed25519_derive_public(seed: &[u8; 32]) -> (public: [u8; 32])
    ensures
        public@ == ed25519_public_key(seed@),
{
    ed25519_dalek::SigningKey::from_bytes(seed).verifying_key().to_bytes()
}

/// Calls `SigningKey::sign` on the key of the given seed.
/// The claim: Ed25519 signing is deterministic, so the signature depends on
/// seed and message alone.
#[verifier::external_body]
pub(crate) fn ed25519_sign(seed: &[u8; 32], message: &[u8]) -> (signature: [u8; 64])
    ensures
        signature@ == ed25519_signature(seed@, message@),
{
    ed25519_dalek::SigningKey::from_bytes(seed).sign(message).to_bytes()
}

/// Calls `SigningKey::generate` on the operating system's random source and
/// hands out the seed. Nothing is claimed of the bytes; the call panics if
/// the system has no randomness to give.
#[verifier::external_body]
pub(crate) fn random_signing_seed() -> [u8; 32] {
    ed25519_dalek::SigningKey::generate(&mut rand::rngs::OsRng).to_bytes()
}

/// Calls `OsRng.fill_bytes` on a fresh array. Nothing is claimed of the
/// bytes; the call panics if the system has no randomness to give.
#[verifier::external_body]
pub(crate) fn random_bytes<const N: usize>() -> [u8; N] {
    let mut out = [0u8; N];
    rand::rngs::OsRng.fill_bytes(&mut out);
    out
}

/// Calls `Mnemonic::from_entropy` and displays the mnemonic. The entropy
/// must have 16, 20, 24, 28 or 32 bytes.
/// The claims: such an entropy is accepted; the phrase depends on the
/// entropy alone; and parsing the phrase gives the entropy back.
#[verifier::external_body]
pub(crate) fn bip39_encode(entropy: &[u8]) -> (r: Result<String, bip39::Error>)
    requires
        is_mnemonic_entropy_length(entropy@.len()),
    ensures
        r is Ok,
        r matches Ok(phrase) ==> phrase@ == bip39_phrase(entropy@),
        r matches Ok(phrase) ==> bip39_entropy(phrase@) == Some(entropy@),
{
    match bip39::Mnemonic::from_entropy(entropy) {
        Ok(mnemonic) => Ok(mnemonic.to_string()),
        Err(e) => Err(e),
    }
}

/// Calls `Mnemonic::from_str` and hands out the entropy of the mnemonic.
/// The claim: the outcome depends on the phrase alone.
#[verifier::external_body]
pub(crate) fn bip39_decode(phrase: &str) -> (r: Result<Vec<u8>, bip39::Error>)
    ensures
        r matches Ok(entropy) ==> bip39_entropy(phrase@) == Some(entropy@),
        r is Err ==> bip39_entropy(phrase@) is None,
{
    match <bip39::Mnemonic as core::str::FromStr>::from_str(phrase) {
        Ok(mnemonic) => Ok(mnemonic.to_entropy()),
        Err(e) => Err(e),
    }
}

/// Calls `Engine::encode` of the `STANDARD` engine. The input must be short
/// enough for the text to be allocated; the call panics otherwise.
/// The claim: the text depends on the input alone.
#[verifier::external_body]
pub(crate) fn base64_encode(data: &[u8]) -> (text: String)
    requires
        data@.len() <= MAX_BASE64_INPUT,
    ensures
        text@ == base64_standard(data@),
{
    base64::engine::general_purpose::STANDARD.encode(data)
}

} // verus!
