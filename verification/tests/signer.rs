use ed25519_dalek::Verifier;
use soundness_cli::cipher::encrypt_secret_key;
use soundness_cli::cipher::EncryptedSecretKey;
use soundness_cli::error::VaultError;
use soundness_cli::fingerprint::calculate_key_store_hash;
use soundness_cli::generator::generate_key_pair;
use soundness_cli::generator::key_from_seed;
use soundness_cli::generator::store_key_pair;
use soundness_cli::session::PasswordCache;
use soundness_cli::signer::canonical_string;
use soundness_cli::signer::header_value;
use soundness_cli::signer::sign_payload;
use soundness_cli::signer::sign_with_password;
use soundness_cli::signer::ProvingSystem;
use soundness_cli::signer::SignOutcome;
use soundness_cli::store::get_public_key;
use soundness_cli::store::KeyPair;
use soundness_cli::store::KeyStore;

fn rfc_seed() -> [u8; 32] {
    [
        0x9d, 0x61, 0xb1, 0x9d, 0xef, 0xfd, 0x5a, 0x60, 0xba, 0x84, 0x4a, 0xf4, 0x92, 0xec, 0x2c, 0xc4, 0x44, 0x49,
        0xc5, 0x69, 0x7b, 0x32, 0x69, 0x19, 0x70, 0x3b, 0xac, 0x03, 0x1c, 0xae, 0x7f, 0x60,
    ]
}

fn rfc_signature_of_empty_message() -> Vec<u8> {
    vec![
        0xe5, 0x56, 0x43, 0x00, 0xc3, 0x60, 0xac, 0x72, 0x90, 0x86, 0xe2, 0xcc, 0x80, 0x6e, 0x82, 0x8a, 0x84, 0x87,
        0x7f, 0x1e, 0xb8, 0xe5, 0xd9, 0x74, 0xd8, 0x73, 0xe0, 0x65, 0x22, 0x49, 0x01, 0x55, 0x5f, 0xb8, 0x82, 0x15,
        0x90, 0xa3, 0x3b, 0xac, 0xc6, 0x1e, 0x39, 0x70, 0x1c, 0xf9, 0xb4, 0x6b, 0xd2, 0x5b, 0xf5, 0xf0, 0x59, 0x5b,
        0xbe, 0x24, 0x65, 0x51, 0x41, 0x43, 0x8e, 0x7a, 0x10, 0x0b,
    ]
}

fn store_with_alice() -> KeyStore {
    let mut store = KeyStore::new();
    let key = key_from_seed(rfc_seed());
    store_key_pair(&mut store, "alice", &key, "correct", "correct").unwrap();
    store
}

fn signed(outcome: Result<SignOutcome, VaultError>) -> Vec<u8> {
    match outcome {
        Ok(SignOutcome::Signed(signature)) => signature,
        Ok(SignOutcome::PasswordNeeded) => panic!("a password was asked for"),
        Err(e) => panic!("unexpected {:?}", e),
    }
}

fn verifies(public_key: &[u8], payload: &[u8], signature: &[u8]) -> bool {
    let public: [u8; 32] = public_key.try_into().unwrap();
    let bytes: [u8; 64] = signature.try_into().unwrap();
    let key = ed25519_dalek::VerifyingKey::from_bytes(&public).unwrap();
    key.verify(payload, &ed25519_dalek::Signature::from_bytes(&bytes)).is_ok()
}

#[test]
fn signature_matches_the_ed25519_test_vector() {
    let store = store_with_alice();
    assert_eq!(sign_with_password(&store, "alice", b"", "correct"), Ok(rfc_signature_of_empty_message()));
}

#[test]
fn generated_key_signs_and_the_signature_verifies() {
    let mut store = KeyStore::new();
    let (key, _mnemonic) = generate_key_pair(&store, "alice").ok().unwrap();
    store_key_pair(&mut store, "alice", &key, "correct", "correct").unwrap();
    assert_eq!(store.len(), 1);
    assert!(store.get("alice").unwrap().encrypted_secret_key.is_some());

    let payload = b"proof:AAAA\nelf:BBBB";
    let signature = sign_with_password(&store, "alice", payload, "correct").unwrap();
    assert_eq!(signature.len(), 64);
    let public_key = get_public_key(&store, "alice").unwrap();
    assert!(verifies(&public_key, payload, &signature));
    assert!(!verifies(&public_key, b"another payload", &signature));

    assert_eq!(sign_with_password(&store, "alice", payload, "wrong"), Err(VaultError::Authentication));
}

#[test]
fn signing_is_deterministic() {
    let store = store_with_alice();
    let a = sign_with_password(&store, "alice", b"payload", "correct").unwrap();
    let b = sign_with_password(&store, "alice", b"payload", "correct").unwrap();
    let c = sign_with_password(&store, "alice", b"payloae", "correct").unwrap();
    assert_eq!(a, b);
    assert_ne!(a, c);
}

#[test]
fn signing_fails_in_the_order_name_secret_password_length() {
    let mut store = store_with_alice();
    store
        .insert(
            "public".to_string(),
            KeyPair { public_key: vec![1; 32], public_key_string: String::new(), encrypted_secret_key: None },
        )
        .unwrap();
    store
        .insert(
            "short".to_string(),
            KeyPair {
                public_key: vec![1; 32],
                public_key_string: String::new(),
                encrypted_secret_key: Some(encrypt_secret_key(&[7u8; 16], "pw").unwrap()),
            },
        )
        .unwrap();
    store
        .insert(
            "broken".to_string(),
            KeyPair {
                public_key: vec![1; 32],
                public_key_string: String::new(),
                encrypted_secret_key: Some(EncryptedSecretKey { salt: vec![], nonce: vec![], encrypted_data: vec![] }),
            },
        )
        .unwrap();
    assert_eq!(sign_with_password(&store, "nobody", b"x", "correct"), Err(VaultError::KeyNotFound));
    assert_eq!(sign_with_password(&store, "public", b"x", "correct"), Err(VaultError::SecretNotStored));
    assert_eq!(sign_with_password(&store, "alice", b"x", "wrong"), Err(VaultError::Authentication));
    assert_eq!(sign_with_password(&store, "broken", b"x", "pw"), Err(VaultError::Authentication));
    assert_eq!(sign_with_password(&store, "short", b"x", "wrong"), Err(VaultError::Authentication));
    assert_eq!(sign_with_password(&store, "short", b"x", "pw"), Err(VaultError::InvalidSecretLength));
}

#[test]
fn sign_payload_asks_for_a_password_then_signs_and_remembers_it() {
    let store = store_with_alice();
    let mut cache = PasswordCache::new();
    assert!(matches!(sign_payload(&store, &mut cache, b"", "alice", None), Ok(SignOutcome::PasswordNeeded)));
    let first = signed(sign_payload(&store, &mut cache, b"", "alice", Some("correct")));
    assert_eq!(first, rfc_signature_of_empty_message());
    // The password is remembered now: no prompt, and what is entered is not looked at.
    let second = signed(sign_payload(&store, &mut cache, b"", "alice", None));
    assert_eq!(second, first);
    let third = signed(sign_payload(&store, &mut cache, b"", "alice", Some("ignored")));
    assert_eq!(third, first);
}

#[test]
fn sign_payload_with_wrong_password_fails_and_remembers_nothing() {
    let store = store_with_alice();
    let mut cache = PasswordCache::new();
    assert!(matches!(
        sign_payload(&store, &mut cache, b"x", "alice", Some("wrong")),
        Err(VaultError::Authentication)
    ));
    assert!(matches!(sign_payload(&store, &mut cache, b"x", "alice", None), Ok(SignOutcome::PasswordNeeded)));
    assert_eq!(cache.lookup(&calculate_key_store_hash(&store)), None);
}

#[test]
fn sign_payload_asks_again_once_the_store_has_changed() {
    let mut store = store_with_alice();
    let mut cache = PasswordCache::new();
    signed(sign_payload(&store, &mut cache, b"x", "alice", Some("correct")));
    signed(sign_payload(&store, &mut cache, b"x", "alice", None));

    let other = key_from_seed([3u8; 32]);
    store_key_pair(&mut store, "bob", &other, "hunter2", "hunter2").unwrap();

    assert!(matches!(sign_payload(&store, &mut cache, b"x", "alice", None), Ok(SignOutcome::PasswordNeeded)));
    // The old password was forgotten, not kept for later.
    assert!(matches!(sign_payload(&store, &mut cache, b"x", "alice", None), Ok(SignOutcome::PasswordNeeded)));
    let signature = signed(sign_payload(&store, &mut cache, b"x", "alice", Some("correct")));
    assert!(verifies(&get_public_key(&store, "alice").unwrap(), b"x", &signature));
    signed(sign_payload(&store, &mut cache, b"x", "alice", None));
}

#[test]
fn sign_payload_resolves_the_key_before_it_touches_the_cache() {
    let mut store = store_with_alice();
    store
        .insert(
            "public".to_string(),
            KeyPair { public_key: vec![1; 32], public_key_string: String::new(), encrypted_secret_key: None },
        )
        .unwrap();
    let mut cache = PasswordCache::new();
    cache.remember("old", "fingerprint of another store");
    assert!(matches!(sign_payload(&store, &mut cache, b"x", "nobody", Some("pw")), Err(VaultError::KeyNotFound)));
    assert!(matches!(
        sign_payload(&store, &mut cache, b"x", "public", Some("pw")),
        Err(VaultError::SecretNotStored)
    ));
    assert_eq!(cache.lookup("fingerprint of another store"), Some("old".to_string()));
}

#[test]
fn sign_payload_with_remembered_password_of_another_key_fails_with_authentication() {
    let mut store = store_with_alice();
    let other = key_from_seed([3u8; 32]);
    store_key_pair(&mut store, "bob", &other, "hunter2", "hunter2").unwrap();
    let mut cache = PasswordCache::new();
    signed(sign_payload(&store, &mut cache, b"x", "alice", Some("correct")));
    assert!(matches!(sign_payload(&store, &mut cache, b"x", "bob", None), Err(VaultError::Authentication)));
    // The remembered password stays.
    signed(sign_payload(&store, &mut cache, b"x", "alice", None));
}

#[test]
fn canonical_string_has_five_labelled_lines() {
    assert_eq!(
        canonical_string(b"hello", &[0, 1, 2, 3], "proof.bin", "program.elf", ProvingSystem::Sp1),
        "proof:aGVsbG8=\nelf:AAECAw==\nproof_filename:proof.bin\nelf_filename:program.elf\nproving_system:sp1"
    );
    assert_eq!(
        canonical_string(&[], &[], "unknown", "unknown", ProvingSystem::Starknet),
        "proof:\nelf:\nproof_filename:unknown\nelf_filename:unknown\nproving_system:starknet"
    );
}

#[test]
fn proving_systems_have_lower_case_identifiers() {
    assert_eq!(ProvingSystem::Sp1.as_str(), "sp1");
    assert_eq!(ProvingSystem::Circom.as_str(), "circom");
    assert_eq!(ProvingSystem::Risc0.as_str(), "risc0");
    assert_eq!(ProvingSystem::Starknet.as_str(), "starknet");
}

#[test]
fn header_value_is_standard_base64_with_padding() {
    assert_eq!(header_value(b""), "");
    assert_eq!(header_value(b"f"), "Zg==");
    assert_eq!(header_value(b"fo"), "Zm8=");
    assert_eq!(header_value(b"foo"), "Zm9v");
    assert_eq!(header_value(&[0xfb, 0xff, 0xbe]), "+/++");
}

#[test]
fn submission_is_signed_over_the_bytes_of_the_canonical_string() {
    let store = store_with_alice();
    let mut cache = PasswordCache::new();
    let text = canonical_string(b"proof", b"elf", "p", "e", ProvingSystem::Risc0);
    let signature = signed(sign_payload(&store, &mut cache, text.as_bytes(), "alice", Some("correct")));
    let public_key = get_public_key(&store, "alice").unwrap();
    assert!(verifies(&public_key, text.as_bytes(), &signature));
    assert_eq!(header_value(&public_key), "11qYAYKxCrfVS/7TyWQHOg7hcvPapiMlrwIaaPcHURo=");
    assert_eq!(header_value(&signature).len(), 88);
}
