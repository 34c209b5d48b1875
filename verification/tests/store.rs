use soundness_cli::cipher::encrypt_secret_key;
use soundness_cli::cipher::EncryptedSecretKey;
use soundness_cli::error::VaultError;
use soundness_cli::listing::list_keys;
use soundness_cli::order::rank_bytes;
use soundness_cli::order::same_text;
use soundness_cli::order::Rank;
use soundness_cli::store::find_encrypted_secret;
use soundness_cli::store::get_public_key;
use soundness_cli::store::KeyEntry;
use soundness_cli::store::KeyPair;
use soundness_cli::store::KeyStore;

fn public_only(byte: u8) -> KeyPair {
    KeyPair { public_key: vec![byte; 32], public_key_string: format!("pk{}", byte), encrypted_secret_key: None }
}

fn with_secret(byte: u8) -> KeyPair {
    KeyPair {
        public_key: vec![byte; 32],
        public_key_string: format!("pk{}", byte),
        encrypted_secret_key: Some(EncryptedSecretKey {
            salt: vec![byte; 32],
            nonce: vec![byte; 12],
            encrypted_data: vec![byte; 48],
        }),
    }
}

fn names(store: &KeyStore) -> Vec<String> {
    (0..store.len()).map(|i| store.entry_at(i).name.clone()).collect()
}

#[test]
fn new_store_is_empty() {
    let store = KeyStore::new();
    assert!(store.is_empty());
    assert_eq!(store.len(), 0);
    assert!(!store.contains_key("alice"));
    assert!(store.get("alice").is_none());
}

#[test]
fn insert_then_get_returns_the_key_pair() {
    let mut store = KeyStore::new();
    assert_eq!(store.insert("alice".to_string(), with_secret(1)), Ok(()));
    assert_eq!(store.len(), 1);
    assert!(!store.is_empty());
    assert!(store.contains_key("alice"));
    let found = store.get("alice").unwrap();
    assert_eq!(found.public_key, vec![1u8; 32]);
    assert_eq!(found.public_key_string, "pk1");
    assert_eq!(found.encrypted_secret_key.as_ref().unwrap().nonce, vec![1u8; 12]);
    assert!(store.get("alic").is_none());
    assert!(store.get("alice ").is_none());
}

#[test]
fn insert_under_taken_name_fails_and_keeps_the_entry() {
    let mut store = KeyStore::new();
    store.insert("alice".to_string(), with_secret(1)).unwrap();
    assert_eq!(store.insert("alice".to_string(), with_secret(2)), Err(VaultError::NameCollision));
    assert_eq!(store.len(), 1);
    assert_eq!(store.get("alice").unwrap().public_key, vec![1u8; 32]);
}

#[test]
fn entries_are_kept_in_the_order_of_their_names() {
    let mut store = KeyStore::new();
    for name in ["mallory", "bob", "", "alice", "bobby", "Zed", "é", "zz"] {
        store.insert(name.to_string(), public_only(0)).unwrap();
    }
    assert_eq!(names(&store), vec!["", "Zed", "alice", "bob", "bobby", "mallory", "zz", "é"]);
}

#[test]
fn locate_gives_the_index_or_the_place_to_insert() {
    let mut store = KeyStore::new();
    store.insert("b".to_string(), public_only(0)).unwrap();
    store.insert("d".to_string(), public_only(0)).unwrap();
    assert_eq!(store.locate("b"), Ok(0));
    assert_eq!(store.locate("d"), Ok(1));
    assert_eq!(store.locate("a"), Err(0));
    assert_eq!(store.locate("c"), Err(1));
    assert_eq!(store.locate("e"), Err(2));
}

#[test]
fn store_built_from_its_own_entries_is_the_same_store() {
    let mut store = KeyStore::new();
    store.insert("carol".to_string(), public_only(3)).unwrap();
    store.insert("alice".to_string(), with_secret(1)).unwrap();
    let envelope = encrypt_secret_key(&[7u8; 32], "").unwrap();
    let batch = KeyPair {
        public_key: vec![4u8; 32],
        public_key_string: "pk4".to_string(),
        encrypted_secret_key: Some(envelope.duplicate()),
    };
    store.insert("batch_key_0".to_string(), batch).unwrap();

    let rebuilt = match KeyStore::from_entries(store.to_entries()) {
        Ok(rebuilt) => rebuilt,
        Err(e) => panic!("unexpected {:?}", e),
    };
    assert_eq!(names(&rebuilt), vec!["alice", "batch_key_0", "carol"]);
    for i in 0..store.len() {
        let a = store.entry_at(i);
        let b = rebuilt.entry_at(i);
        assert_eq!(a.name, b.name);
        assert_eq!(a.key_pair.public_key, b.key_pair.public_key);
        assert_eq!(a.key_pair.public_key_string, b.key_pair.public_key_string);
        match (&a.key_pair.encrypted_secret_key, &b.key_pair.encrypted_secret_key) {
            (None, None) => {}
            (Some(x), Some(y)) => {
                assert_eq!(x.salt, y.salt);
                assert_eq!(x.nonce, y.nonce);
                assert_eq!(x.encrypted_data, y.encrypted_data);
            }
            _ => panic!("secret appeared or vanished"),
        }
    }
    assert_eq!(rebuilt.get("batch_key_0").unwrap().encrypted_secret_key.as_ref().unwrap().salt, envelope.salt);
}

#[test]
fn empty_store_built_from_its_own_entries_is_empty() {
    let store = KeyStore::new();
    let entries = store.to_entries();
    assert!(entries.is_empty());
    assert!(matches!(KeyStore::from_entries(entries), Ok(rebuilt) if rebuilt.is_empty()));
}

#[test]
fn store_is_built_from_entries_in_any_order() {
    let entries = vec![
        KeyEntry { name: "zoe".to_string(), key_pair: public_only(1) },
        KeyEntry { name: "adam".to_string(), key_pair: public_only(2) },
        KeyEntry { name: "mia".to_string(), key_pair: public_only(3) },
    ];
    let store = match KeyStore::from_entries(entries) {
        Ok(store) => store,
        Err(e) => panic!("unexpected {:?}", e),
    };
    assert_eq!(names(&store), vec!["adam", "mia", "zoe"]);
    assert_eq!(store.get("adam").unwrap().public_key, vec![2u8; 32]);
    assert_eq!(store.get("zoe").unwrap().public_key, vec![1u8; 32]);
}

#[test]
fn store_with_a_name_twice_is_corrupt() {
    let entries = vec![
        KeyEntry { name: "adam".to_string(), key_pair: public_only(1) },
        KeyEntry { name: "mia".to_string(), key_pair: public_only(2) },
        KeyEntry { name: "adam".to_string(), key_pair: public_only(3) },
    ];
    assert!(matches!(KeyStore::from_entries(entries), Err(VaultError::StoreCorrupt)));
}

#[test]
fn get_public_key_returns_the_bytes_or_key_not_found() {
    let mut store = KeyStore::new();
    store.insert("alice".to_string(), public_only(9)).unwrap();
    assert_eq!(get_public_key(&store, "alice"), Ok(vec![9u8; 32]));
    assert_eq!(get_public_key(&store, "bob"), Err(VaultError::KeyNotFound));
}

#[test]
fn find_encrypted_secret_tells_missing_key_from_missing_secret() {
    let mut store = KeyStore::new();
    store.insert("public".to_string(), public_only(1)).unwrap();
    store.insert("sealed".to_string(), with_secret(2)).unwrap();
    assert!(matches!(find_encrypted_secret(&store, "nobody"), Err(VaultError::KeyNotFound)));
    assert!(matches!(find_encrypted_secret(&store, "public"), Err(VaultError::SecretNotStored)));
    match find_encrypted_secret(&store, "sealed") {
        Ok(envelope) => assert_eq!(envelope.salt, vec![2u8; 32]),
        Err(e) => panic!("unexpected {:?}", e),
    }
}

#[test]
fn key_pair_duplicate_copies_every_field() {
    let copy = with_secret(6).duplicate();
    assert_eq!(copy.public_key, vec![6u8; 32]);
    assert_eq!(copy.public_key_string, "pk6");
    assert_eq!(copy.encrypted_secret_key.unwrap().encrypted_data, vec![6u8; 48]);
    assert!(public_only(1).duplicate().encrypted_secret_key.is_none());
}

#[test]
fn rank_bytes_orders_lexicographically() {
    assert_eq!(rank_bytes(b"", b""), Rank::Same);
    assert_eq!(rank_bytes(b"", b"a"), Rank::Before);
    assert_eq!(rank_bytes(b"a", b""), Rank::After);
    assert_eq!(rank_bytes(b"abc", b"abd"), Rank::Before);
    assert_eq!(rank_bytes(b"abd", b"abc"), Rank::After);
    assert_eq!(rank_bytes(b"ab", b"abc"), Rank::Before);
    assert_eq!(rank_bytes(b"abc", b"ab"), Rank::After);
    assert_eq!(rank_bytes(b"abc", b"abc"), Rank::Same);
    assert_eq!(rank_bytes(&[0xff], &[0x00, 0x01]), Rank::After);
}

#[test]
fn same_text_tells_equal_from_different() {
    assert!(same_text("", ""));
    assert!(same_text("pässword", "pässword"));
    assert!(!same_text("password", "Password"));
    assert!(!same_text("password", "password "));
}

#[test]
fn list_keys_of_empty_store_gives_the_hint() {
    let store = KeyStore::new();
    assert_eq!(list_keys(&store), vec!["No key pairs found. Generate one with 'generate-key' command."]);
}

#[test]
fn list_keys_gives_a_heading_and_a_line_for_each_key() {
    let mut store = KeyStore::new();
    store.insert("bob".to_string(), public_only(2)).unwrap();
    store.insert("alice".to_string(), with_secret(1)).unwrap();
    assert_eq!(
        list_keys(&store),
        vec![
            "Available key pairs:",
            "- alice (Public key: pk1) (secret encrypted)",
            "- bob (Public key: pk2) (secret not stored/encrypted)",
        ]
    );
}
