//! Making, importing and exporting key pairs.
//!
//! Creating an identity takes two steps, because the caller has to show the
//! mnemonic and ask for a password in between: first the key is made
//! ([`generate_key_pair`], [`import_key`]), then it is sealed and stored
//! ([`store_key_pair`]). Batch generation needs no password and is one step.

use vstd::prelude::*;
use vstd::slice::slice_to_vec;
use vstd::string::StringExecFns;
use crate::cipher::encrypt_secret_key;
use crate::cipher::decrypt_secret_key;
use crate::cipher::opened;
use crate::cipher::sealed;
use crate::cipher::Envelope;
use crate::error::VaultError;
use crate::naming::batch_key_name;
use crate::naming::batch_names;
use crate::naming::batch_names_from;
use crate::naming::first_free;
use crate::naming::lemma_batch_names_are_fresh;
use crate::naming::next_free_index;
use crate::order::same_text;
use crate::primitives::base64_encode;
use crate::primitives::base64_standard;
use crate::primitives::bip39_decode;
use crate::primitives::bip39_encode;
use crate::primitives::bip39_entropy;
use crate::primitives::bip39_phrase;
use crate::primitives::ed25519_derive_public;
use crate::primitives::ed25519_public_key;
use crate::primitives::is_mnemonic_entropy_length;
use crate::primitives::random_signing_seed;
use crate::primitives::NONCE_LENGTH;
use crate::primitives::SALT_LENGTH;
use crate::store::envelope_of;
use crate::store::find_encrypted_secret;
use crate::store::lemma_domain_size;
use crate::store::KeyPair;
use crate::store::KeyRecord;
use crate::store::KeyStore;

verus! {

/// A signing identity that is not stored yet: the secret seed in the clear,
/// with the public key that belongs to it.
pub struct NewKey {
    /// The 32 bytes from which the signing key is made.
    pub secret_key: [u8; 32],
    /// The raw bytes of the public key.
    pub public_key: Vec<u8>,
    /// The base64 text of the public key.
    pub public_key_string: String,
}

impl NewKey {
    /// Whether the public parts are those of the secret: the Ed25519
    /// verifying key of the seed, and its base64 text.
    pub open spec fn wf(&self) -> bool {
        &&& self.public_key@ == ed25519_public_key(self.secret_key@)
        &&& self.public_key_string@ == base64_standard(self.public_key@)
    }
}

/// Whether an envelope protects the secret under the password: it holds a
/// salt and a nonce of the fixed lengths with the ciphertext they give, and
/// opens to the secret again.
pub open spec fn protects(envelope: Envelope, secret: Seq<u8>, password: Seq<char>) -> bool {
    &&& envelope.salt.len() == SALT_LENGTH
    &&& envelope.nonce.len() == NONCE_LENGTH
    &&& envelope == sealed(secret, password, envelope.salt, envelope.nonce)
    &&& opened(envelope, password) == Ok::<Seq<u8>, VaultError>(secret)
}

/// Whether a record is what storing the key under the password leaves: the
/// public parts of the key, and an envelope that protects its secret.
pub open spec fn records(record: KeyRecord, key: NewKey, password: Seq<char>) -> bool {
    &&& record.public_key == key.public_key@
    &&& record.public_key_string == key.public_key_string@
    &&& record.encrypted_secret_key matches Some(envelope) && protects(
        envelope,
        key.secret_key@,
        password,
    )
}

/// Whether a record is one that batch generation makes: it keeps a 32-byte
/// secret under the empty password, together with the public key of that
/// secret and its base64 text.
pub open spec fn is_batch_record(record: KeyRecord) -> bool {
    &&& record.encrypted_secret_key matches Some(envelope)
    &&& opened(envelope, Seq::<char>::empty()) matches Ok(secret)
    &&& secret.len() == 32
    &&& protects(envelope, secret, Seq::<char>::empty())
    &&& record.public_key == ed25519_public_key(secret)
    &&& record.public_key_string == base64_standard(record.public_key)
}

/// The secret that importing a phrase under a name gives, or why it fails:
/// the name is taken, the phrase is no mnemonic, or its entropy is not a
/// signing seed of 32 bytes. The checks come in this order.
pub open spec fn imported(taken: Set<Seq<char>>, name: Seq<char>, phrase: Seq<char>) -> Result<
    Seq<u8>,
    VaultError,
> {
    if taken.contains(name) {
        Err(VaultError::NameCollision)
    } else {
        match bip39_entropy(phrase) {
            None => Err(VaultError::InvalidMnemonic),
            Some(entropy) => if entropy.len() == 32 {
                Ok(entropy)
            } else {
                Err(VaultError::InvalidSecretLength)
            },
        }
    }
}

/// The secret that exporting a key pair with a password reveals, or why it
/// fails: the name is unknown, no secret is kept, the password does not
/// open the envelope, or the secret has no length that a mnemonic encodes.
/// The checks come in this order.
pub open spec fn exported(keys: Map<Seq<char>, KeyRecord>, name: Seq<char>, password: Seq<char>)
    -> Result<Seq<u8>, VaultError> {
    match envelope_of(keys, name) {
        Err(e) => Err(e),
        Ok(envelope) => match opened(envelope, password) {
            Err(e) => Err(e),
            Ok(secret) => if is_mnemonic_entropy_length(secret.len()) {
                Ok(secret)
            } else {
                Err(VaultError::InvalidSecretLength)
            },
        },
    }
}

/// The text of the batch artifact: each line followed by a line feed.
pub open spec fn artifact_text(lines: Seq<Seq<char>>) -> Seq<char>
    decreases lines.len(),
{
    if lines.len() == 0 {
        Seq::empty()
    } else {
        artifact_text(lines.drop_last()) + lines.last() + seq!['\n']
    }
}

/// Reads 32 bytes as a signing seed.
///
/// Fails with `InvalidSecretLength` exactly when the bytes are not 32.
pub fn seed_from_bytes(bytes: &[u8]) -> (r: Result<[u8; 32], VaultError>)
    ensures
        r is Ok <==> bytes@.len() == 32,
        r matches Ok(seed) ==> seed@ == bytes@,
        r matches Err(e) ==> e == VaultError::InvalidSecretLength,
{
    if bytes.len() != 32 {
        return Err(VaultError::InvalidSecretLength);
    }
    let mut seed: [u8; 32] = [0u8; 32];
    let mut i: usize = 0;
    while i < 32
        invariant
            i <= 32,
            bytes@.len() == 32,
            forall|k: int| 0 <= k < i ==> seed@[k] == bytes@[k],
        decreases 32 - i,
    {
        seed[i] = bytes[i];
        i = i + 1;
    }
    proof {
        assert(seed@ =~= bytes@);
    }
    Ok(seed)
}

/// Makes the key of a seed: derives the public key and its base64 text.
pub fn key_from_seed(seed: [u8; 32]) -> (key: NewKey)
    ensures
        key.secret_key == seed,
        key.wf(),
{
    let public: [u8; 32] = ed25519_derive_public(&seed);
    let public_key_string = base64_encode(public.as_slice());
    NewKey { secret_key: seed, public_key: slice_to_vec(public.as_slice()), public_key_string }
}

/// Encodes a secret as its mnemonic phrase.
///
/// Fails with `InvalidSecretLength` exactly when the secret has not 16, 20,
/// 24, 28 or 32 bytes. The phrase decodes to the secret again.
pub fn secret_to_mnemonic(secret: &[u8]) -> (r: Result<String, VaultError>)
    ensures
        r is Ok <==> is_mnemonic_entropy_length(secret@.len()),
        r matches Ok(phrase) ==> phrase@ == bip39_phrase(secret@),
        r matches Ok(phrase) ==> bip39_entropy(phrase@) == Some(secret@),
        r matches Err(e) ==> e == VaultError::InvalidSecretLength,
{
    let len: usize = secret.len();
    if !(len == 16 || len == 20 || len == 24 || len == 28 || len == 32) {
        return Err(VaultError::InvalidSecretLength);
    }
    match bip39_encode(secret) {
        Ok(phrase) => Ok(phrase),
        Err(_) => Err(VaultError::InvalidSecretLength),
    }
}

/// Decodes a mnemonic phrase to the secret it stands for.
///
/// Fails with `InvalidMnemonic` exactly when the phrase does not decode.
pub fn mnemonic_to_secret(phrase: &str) -> (r: Result<Vec<u8>, VaultError>)
    ensures
        r matches Ok(secret) ==> bip39_entropy(phrase@) == Some(secret@),
        r matches Err(e) ==> e == VaultError::InvalidMnemonic && bip39_entropy(phrase@) is None,
{
    match bip39_decode(phrase) {
        Ok(secret) => Ok(secret),
        Err(_) => Err(VaultError::InvalidMnemonic),
    }
}

/// Makes a fresh key for a new name, with the mnemonic of its secret.
///
/// Fails with `NameCollision` exactly when the name is taken; no key is
/// drawn then. Whatever seed is drawn, the public parts returned are those
/// of the seed, and the mnemonic is the phrase of the seed and decodes to
/// it again. The mnemonic is not kept anywhere: the caller shows it once.
pub fn generate_key_pair(store: &KeyStore, name: &str) -> (r: Result<(NewKey, String), VaultError>)
    ensures
        r is Err <==> store@.dom().contains(name@),
        r matches Err(e) ==> e == VaultError::NameCollision,
        r matches Ok(made) ==> made.0.wf() && made.1@ == bip39_phrase(made.0.secret_key@)
            && bip39_entropy(made.1@) == Some(made.0.secret_key@),
{
    if store.contains_key(name) {
        return Err(VaultError::NameCollision);
    }
    let seed: [u8; 32] = random_signing_seed();
    let key = key_from_seed(seed);
    match secret_to_mnemonic(seed.as_slice()) {
        Ok(mnemonic) => Ok((key, mnemonic)),
        Err(e) => Err(e),
    }
}

/// Rebuilds the key that a mnemonic phrase stands for, for a new name.
///
/// Fails with `NameCollision` when the name is taken, else with
/// `InvalidMnemonic` when the phrase does not decode, else with
/// `InvalidSecretLength` when it decodes to other than 32 bytes. The key
/// returned has the decoded bytes as its secret, and the public parts that
/// belong to them.
pub fn import_key(store: &KeyStore, name: &str, mnemonic: &str) -> (r: Result<NewKey, VaultError>)
    ensures
        r matches Ok(key) ==> key.wf() && imported(store@.dom(), name@, mnemonic@) == Ok::<
            Seq<u8>,
            VaultError,
        >(key.secret_key@),
        r matches Err(e) ==> imported(store@.dom(), name@, mnemonic@) == Err::<
            Seq<u8>,
            VaultError,
        >(e),
{
    if store.contains_key(name) {
        return Err(VaultError::NameCollision);
    }
    let secret = match mnemonic_to_secret(mnemonic) {
        Ok(secret) => secret,
        Err(e) => {
            return Err(e);
        },
    };
    match seed_from_bytes(secret.as_slice()) {
        Ok(seed) => Ok(key_from_seed(seed)),
        Err(e) => Err(e),
    }
}

/// Seals the secret of a key under a password and stores the key pair
/// under a new name.
///
/// Fails with `NameCollision` when the name is taken, else with
/// `PasswordMismatch` when the confirmation differs from the password; the
/// store is then left as it was. Otherwise the store gains exactly the one
/// name, with a record of the key's public parts and an envelope that
/// protects its secret under the password.
pub fn store_key_pair(
    store: &mut KeyStore,
    name: &str,
    key: &NewKey,
    password: &str,
    confirmation: &str,
) -> (r: Result<(), VaultError>)
    ensures
        final(store).wf(),
        r is Err ==> final(store).entries() == old(store).entries(),
        r matches Err(e) ==> e == (if old(store)@.dom().contains(name@) {
            VaultError::NameCollision
        } else {
            VaultError::PasswordMismatch
        }),
        r is Ok <==> !old(store)@.dom().contains(name@) && password@ == confirmation@,
        r is Ok ==> final(store)@.dom().contains(name@) && final(store)@ == old(store)@.insert(
            name@,
            final(store)@[name@],
        ) && records(final(store)@[name@], *key, password@),
{
    proof {
        use_type_invariant(&*store);
    }
    if store.contains_key(name) {
        return Err(VaultError::NameCollision);
    }
    if !same_text(password, confirmation) {
        return Err(VaultError::PasswordMismatch);
    }
    let envelope = match encrypt_secret_key(key.secret_key.as_slice(), password) {
        Ok(envelope) => envelope,
        Err(e) => {
            return Err(e);
        },
    };
    let key_pair = KeyPair {
        public_key: slice_to_vec(key.public_key.as_slice()),
        public_key_string: key.public_key_string.clone(),
        encrypted_secret_key: Some(envelope),
    };
    let stored = store.insert(String::from_str(name), key_pair);
    proof {
        assert(stored is Ok);
        assert(final(store)@.dom().contains(name@));
    }
    stored
}

/// Reveals the mnemonic of a stored key pair, given its password.
///
/// Fails with `KeyNotFound` when the name is unknown, else with
/// `SecretNotStored` when the key pair keeps no secret, else with
/// `Authentication` when the password does not open the envelope, else
/// with `InvalidSecretLength` when the secret has no length that a mnemonic
/// encodes. The phrase returned is that of the secret and decodes to it
/// again.
pub fn export_key(store: &KeyStore, name: &str, password: &str) -> (r: Result<String, VaultError>)
    ensures
        r matches Ok(phrase) ==> exported(store@, name@, password@) matches Ok(secret)
            && phrase@ == bip39_phrase(secret) && bip39_entropy(phrase@) == Some(secret),
        r matches Err(e) ==> exported(store@, name@, password@) == Err::<Seq<u8>, VaultError>(e),
{
    let envelope = match find_encrypted_secret(store, name) {
        Ok(envelope) => envelope,
        Err(e) => {
            return Err(e);
        },
    };
    let secret = match decrypt_secret_key(envelope, password) {
        Ok(secret) => secret,
        Err(e) => {
            return Err(e);
        },
    };
    secret_to_mnemonic(secret.as_slice())
}

/// Generates `count` key pairs without a password and stores them under
/// the next free batch names; returns the base64 public keys in the order
/// of generation.
///
/// With `count` zero nothing happens. The names are those of
/// [`batch_names`]: the search starts at the lowest index whose name is
/// free, and the key of rank `i` takes the first free name from `i` places
/// further on, so no entry of the store is ever overwritten. Each secret is
/// sealed under the empty password, which protects nothing: whoever has
/// the store has the secrets.
pub fn batch_gen_keys(store: &mut KeyStore, count: u32) -> (public_keys: Vec<String>)
    ensures
        final(store).wf(),
        public_keys@.len() == count,
        batch_names(old(store)@.dom(), count as nat).len() == count,
        final(store)@.dom() == old(store)@.dom().union(
            batch_names(old(store)@.dom(), count as nat).to_set(),
        ),
        forall|name: Seq<char>|
            final(store)@.dom().contains(name) <==> old(store)@.dom().contains(name)
                || batch_names(old(store)@.dom(), count as nat).contains(name),
        forall|name: Seq<char>|
            old(store)@.dom().contains(name) ==> final(store)@[name] == old(store)@[name],
        forall|i: int|
            0 <= i < count ==> {
                let name = #[trigger] batch_names(old(store)@.dom(), count as nat)[i];
                &&& !old(store)@.dom().contains(name)
                &&& is_batch_record(final(store)@[name])
                &&& final(store)@[name].public_key_string == public_keys@[i]@
            },
{
    let mut public_keys: Vec<String> = Vec::new();
    let ghost taken = store@.dom();
    let ghost before = store@;
    let ghost names = batch_names(taken, count as nat);
    proof {
        use_type_invariant(&*store);
        lemma_domain_size(store.entries());
        lemma_batch_names_are_fresh(taken, first_free(taken, 0), count as nat);
        assert(names.skip(0) =~= names);
        reveal_strlit("");
        assert(""@ =~= Seq::<char>::empty());
    }
    let held: usize = store.len();
    let base: u128 = next_free_index(store, 0);
    let mut i: u32 = 0;
    while i < count
        invariant
            store.wf(),
            i <= count,
            base <= held,
            store.entries().len() == held + i,
            public_keys@.len() == i,
            names.len() == count,
            names == batch_names(taken, count as nat),
            ""@ == Seq::<char>::empty(),
            names.skip(i as int) == batch_names_from(
                store@.dom(),
                (base + i) as nat,
                (count - i) as nat,
            ),
            forall|name: Seq<char>|
                store@.dom().contains(name) <==> taken.contains(name) || names.take(
                    i as int,
                ).contains(name),
            forall|name: Seq<char>| taken.contains(name) ==> store@[name] == before[name],
            forall|k: int| 0 <= k < count ==> !taken.contains(#[trigger] names[k]),
            forall|k: int|
                0 <= k < i ==> is_batch_record(store@[#[trigger] names[k]]) && store@[names[k]].public_key_string
                    == public_keys@[k]@,
        decreases count - i,
    {
        let ghost keys = store@;
        proof {
            lemma_domain_size(store.entries());
        }
        let index: u128 = next_free_index(store, base + i as u128);
        let name = batch_key_name(index);
        let key = key_from_seed(random_signing_seed());
        let text = key.public_key_string.clone();
        let stored = store_key_pair(store, name.as_str(), &key, "", "");
        public_keys.push(text);
        proof {
            assert(stored is Ok);
            let rest = batch_names_from(
                keys.dom().insert(name@),
                (base + i + 1) as nat,
                (count - i - 1) as nat,
            );
            assert(names.skip(i as int) == seq![name@] + rest);
            assert(names[i as int] == names.skip(i as int)[0]);
            assert(names[i as int] == name@);
            assert(store@.dom() =~= keys.dom().insert(name@));
            lemma_domain_size(store.entries());
            assert(names.skip(i + 1) =~= rest) by {
                assert forall|k: int| 0 <= k < rest.len() implies names.skip(i + 1)[k] == rest[k] by {
                    assert(names.skip(i as int)[k + 1] == rest[k]);
                }
            }
            let sofar = names.take(i as int);
            let upto = names.take(i + 1);
            assert forall|n: Seq<char>|
                store@.dom().contains(n) <==> taken.contains(n) || upto.contains(n) by {
                if upto.contains(n) {
                    let k = choose|k: int| 0 <= k < upto.len() && upto[k] == n;
                    if k < i {
                        assert(sofar[k] == n);
                    }
                }
                if sofar.contains(n) {
                    let k = choose|k: int| 0 <= k < sofar.len() && sofar[k] == n;
                    assert(upto[k] == n);
                }
                if n == name@ {
                    assert(upto[i as int] == n);
                }
            }
            assert forall|k: int| 0 <= k < i + 1 implies is_batch_record(
                store@[#[trigger] names[k]],
            ) && store@[names[k]].public_key_string == public_keys@[k]@ by {
                if k < i {
                    assert(names.take(i as int)[k] == names[k]);
                    assert(keys.dom().contains(names[k]));
                    assert(names[k] != name@);
                }
            }
        }
        i = i + 1;
    }
    proof {
        assert(names.take(count as int) =~= names);
        assert(store@.dom() =~= taken.union(names.to_set()));
    }
    public_keys
}

/// Writes the batch artifact: the public keys, one on each line, in the
/// order given.
pub fn batch_artifact(public_keys: &Vec<String>) -> (text: String)
    ensures
        text@ == artifact_text(Seq::new(public_keys@.len(), |i: int| public_keys@[i]@)),
{
    let ghost lines = Seq::new(public_keys@.len(), |i: int| public_keys@[i]@);
    let mut text = String::new();
    let mut i: usize = 0;
    proof {
        reveal_strlit("\n");
        assert("\n"@ =~= seq!['\n']);
        assert(lines.take(0) =~= Seq::<Seq<char>>::empty());
    }
    while i < public_keys.len()
        invariant
            i <= public_keys@.len(),
            lines == Seq::new(public_keys@.len(), |i: int| public_keys@[i]@),
            "\n"@ == seq!['\n'],
            text@ == artifact_text(lines.take(i as int)),
        decreases public_keys@.len() - i,
    {
        text.append(public_keys[i].as_str());
        text.append("\n");
        proof {
            let upto = lines.take(i + 1);
            assert(upto.drop_last() =~= lines.take(i as int));
            assert(upto.last() == public_keys@[i as int]@);
        }
        i = i + 1;
    }
    proof {
        assert(lines.take(public_keys@.len() as int) =~= lines);
    }
    text
}

} // verus!
