use aes_gcm::aead::Aead;
use aes_gcm::aead::KeyInit;
use soundness_cli::cipher::decrypt_secret_key;
use soundness_cli::cipher::derive_key;
use soundness_cli::cipher::encrypt_secret_key;
use soundness_cli::cipher::encrypt_secret_key_with;
use soundness_cli::cipher::EncryptedSecretKey;
use soundness_cli::error::VaultError;

#[test]
fn derive_key_matches_pbkdf2_test_value() {
    let expected: [u8; 32] = [
        3, 148, 162, 237, 227, 50, 201, 161, 62, 184, 46, 155, 36, 99, 22, 4, 195, 29, 249, 120,
        180, 226, 240, 251, 210, 197, 73, 148, 79, 157, 121, 165,
    ];
    assert_eq!(derive_key("password", b"salt"), expected);
}

#[test]
fn derive_key_of_empty_password_and_zero_salt() {
    let key = derive_key("", &[0u8; 32]);
    assert_eq!(key[0], 0xf9);
    assert_eq!(key[1], 0xa9);
    assert_eq!(key[31], 0x41);
}

#[test]
fn derive_key_is_deterministic() {
    let salt = [7u8; 32];
    assert_eq!(derive_key("hunter2", &salt), derive_key("hunter2", &salt));
}

#[test]
fn derive_key_differs_for_changed_password_or_salt() {
    let salt = [7u8; 32];
    let other_salt = [8u8; 32];
    let key = derive_key("hunter2", &salt);
    assert_ne!(key, derive_key("hunter3", &salt));
    assert_ne!(key, derive_key("hunter2", &other_salt));
}

#[test]
fn derive_key_takes_the_utf8_bytes_of_the_password() {
    let direct = pbkdf2::pbkdf2_hmac_array::<sha2::Sha256, 32>("pässwörd".as_bytes(), b"salt", 100_000);
    assert_eq!(derive_key("pässwörd", b"salt"), direct);
}

#[test]
fn encrypt_then_decrypt_returns_the_secret() {
    let secret: Vec<u8> = (0u8..32).collect();
    let envelope = encrypt_secret_key(&secret, "correct").unwrap();
    assert_eq!(decrypt_secret_key(&envelope, "correct"), Ok(secret));
}

#[test]
fn encrypt_then_decrypt_with_empty_password_and_empty_secret() {
    let envelope = encrypt_secret_key(&[], "").unwrap();
    assert_eq!(envelope.encrypted_data.len(), 16);
    assert_eq!(decrypt_secret_key(&envelope, ""), Ok(Vec::new()));
}

#[test]
fn decrypt_with_another_password_fails_with_authentication() {
    let secret = vec![1u8, 2, 3, 4, 5];
    let envelope = encrypt_secret_key(&secret, "correct").unwrap();
    assert_eq!(decrypt_secret_key(&envelope, "wrong"), Err(VaultError::Authentication));
    assert_eq!(decrypt_secret_key(&envelope, ""), Err(VaultError::Authentication));
}

#[test]
fn decrypt_of_altered_envelope_fails_with_authentication() {
    let secret = vec![9u8; 32];
    let envelope = encrypt_secret_key(&secret, "pw").unwrap();

    let mut data = envelope.duplicate();
    data.encrypted_data[0] ^= 1;
    assert_eq!(decrypt_secret_key(&data, "pw"), Err(VaultError::Authentication));

    let mut tag = envelope.duplicate();
    let last = tag.encrypted_data.len() - 1;
    tag.encrypted_data[last] ^= 0x80;
    assert_eq!(decrypt_secret_key(&tag, "pw"), Err(VaultError::Authentication));

    let mut salt = envelope.duplicate();
    salt.salt[3] ^= 1;
    assert_eq!(decrypt_secret_key(&salt, "pw"), Err(VaultError::Authentication));

    let mut nonce = envelope.duplicate();
    nonce.nonce[11] ^= 1;
    assert_eq!(decrypt_secret_key(&nonce, "pw"), Err(VaultError::Authentication));
}

#[test]
fn decrypt_with_nonce_of_wrong_length_fails_with_authentication() {
    let envelope = encrypt_secret_key(&[1, 2, 3], "pw").unwrap();
    let mut short = envelope.duplicate();
    short.nonce.pop();
    assert_eq!(decrypt_secret_key(&short, "pw"), Err(VaultError::Authentication));
    let mut long = envelope.duplicate();
    long.nonce.push(0);
    assert_eq!(decrypt_secret_key(&long, "pw"), Err(VaultError::Authentication));
    let mut none = envelope.duplicate();
    none.nonce.clear();
    assert_eq!(decrypt_secret_key(&none, "pw"), Err(VaultError::Authentication));
}

#[test]
fn decrypt_of_ciphertext_shorter_than_a_tag_fails_with_authentication() {
    let envelope = EncryptedSecretKey {
        salt: vec![0u8; 32],
        nonce: vec![0u8; 12],
        encrypted_data: vec![1, 2, 3],
    };
    assert_eq!(decrypt_secret_key(&envelope, "pw"), Err(VaultError::Authentication));
}

#[test]
fn envelope_holds_salt_nonce_and_tagged_ciphertext() {
    let secret = vec![5u8; 32];
    let envelope = encrypt_secret_key(&secret, "pw").unwrap();
    assert_eq!(envelope.salt.len(), 32);
    assert_eq!(envelope.nonce.len(), 12);
    assert_eq!(envelope.encrypted_data.len(), 32 + 16);
    assert_ne!(&envelope.encrypted_data[..32], &secret[..]);
}

#[test]
fn two_encryptions_draw_different_salts_and_nonces() {
    let a = encrypt_secret_key(&[1, 2, 3], "pw").unwrap();
    let b = encrypt_secret_key(&[1, 2, 3], "pw").unwrap();
    assert_ne!(a.salt, b.salt);
    assert_ne!(a.nonce, b.nonce);
    assert_ne!(a.encrypted_data, b.encrypted_data);
}

#[test]
fn encrypt_with_given_salt_and_nonce_is_what_the_cipher_gives() {
    let salt = [0x11u8; 32];
    let nonce = [0x22u8; 12];
    let secret = b"thirty-two bytes of secret key!!";
    let envelope = encrypt_secret_key_with(secret, "pw", &salt, &nonce).unwrap();
    assert_eq!(envelope.salt, salt.to_vec());
    assert_eq!(envelope.nonce, nonce.to_vec());

    let key = pbkdf2::pbkdf2_hmac_array::<sha2::Sha256, 32>(b"pw", &salt, 100_000);
    let cipher = aes_gcm::Aes256Gcm::new(aes_gcm::Key::<aes_gcm::Aes256Gcm>::from_slice(&key));
    let expected = cipher.encrypt(aes_gcm::Nonce::from_slice(&nonce), secret.as_ref()).unwrap();
    assert_eq!(envelope.encrypted_data, expected);

    let again = encrypt_secret_key_with(secret, "pw", &salt, &nonce).unwrap();
    assert_eq!(again.encrypted_data, envelope.encrypted_data);
    assert_eq!(decrypt_secret_key(&envelope, "pw"), Ok(secret.to_vec()));
}

#[test]
fn duplicate_copies_every_field() {
    let envelope = EncryptedSecretKey { salt: vec![1], nonce: vec![2, 3], encrypted_data: vec![4, 5, 6] };
    let copy = envelope.duplicate();
    assert_eq!(copy.salt, vec![1]);
    assert_eq!(copy.nonce, vec![2, 3]);
    assert_eq!(copy.encrypted_data, vec![4, 5, 6]);
}

#[test]
fn two_passwords_that_derive_one_key_open_the_same_envelope() {
    // HMAC replaces a key longer than its block by the digest of the key, so
    // a long password and the text of its digest derive the same key.
    let long = format!("{}229540557", "x".repeat(65));
    let digest: [u8; 32] = [
        0x5b, 0x45, 0x63, 0x02, 0x44, 0x57, 0x00, 0x4a, 0xe2, 0x87, 0x89, 0x37, 0x21, 0x1c, 0x55, 0x00, 0xd8, 0x80,
        0x3b, 0x4b, 0x5f, 0x08, 0x0e, 0x21, 0x1a, 0xe7, 0xbd, 0xad, 0x5a, 0x62, 0x4e, 0x0a,
    ];
    let short = String::from_utf8(digest.to_vec()).unwrap();
    assert_ne!(long, short);
    assert_eq!(derive_key(&long, b"salt"), derive_key(&short, b"salt"));
    let envelope = encrypt_secret_key(&[1, 2, 3], &long).unwrap();
    assert_eq!(decrypt_secret_key(&envelope, &short), Ok(vec![1, 2, 3]));
}
