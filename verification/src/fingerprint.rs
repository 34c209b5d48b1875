//! The canonical text of a key store and its fingerprint.
//!
//! The canonical text is compact JSON with the key pairs in the order of
//! their names, so it depends on nothing but the mapping that the store
//! holds. The fingerprint is the SHA-256 digest of that text in hexadecimal.

use vstd::prelude::*;
use vstd::string::StrSliceExecFns;
use vstd::string::StringExecFns;
use crate::cipher::EncryptedSecretKey;
use crate::cipher::Envelope;
use crate::numeral::decimal;
use crate::numeral::decimal_string;
use crate::numeral::hex_byte;
use crate::numeral::hex_lower;
use crate::numeral::push_hex_byte;
use crate::numeral::to_hex;
use crate::primitives::sha256;
use crate::primitives::sha256_digest;
use crate::store::Entry;
use crate::store::KeyPair;
use crate::store::KeyRecord;
use crate::store::KeyStore;
use crate::store::lemma_representation_is_unique;

verus! {

/// How one character stands inside a JSON string: quote, backslash and the
/// control characters are escaped, every other character stands for itself.
pub open spec fn escaped_char(c: char) -> Seq<char> {
    if c == '"' {
        "\\\""@
    } else if c == '\\' {
        "\\\\"@
    } else if c == '\u{08}' {
        "\\b"@
    } else if c == '\t' {
        "\\t"@
    } else if c == '\n' {
        "\\n"@
    } else if c == '\u{0c}' {
        "\\f"@
    } else if c == '\r' {
        "\\r"@
    } else if (c as u32) < 0x20 {
        "\\u00"@ + hex_byte(c as u8)
    } else {
        seq![c]
    }
}

/// The characters of a text, each as it stands inside a JSON string.
pub open spec fn escaped(text: Seq<char>) -> Seq<char>
    decreases text.len(),
{
    if text.len() == 0 {
        Seq::empty()
    } else {
        escaped(text.drop_last()) + escaped_char(text.last())
    }
}

/// A text as a JSON string.
pub open spec fn json_string(text: Seq<char>) -> Seq<char> {
    "\""@ + escaped(text) + "\""@
}

/// The decimal numerals of the bytes, with commas between them.
pub open spec fn byte_list(bytes: Seq<u8>) -> Seq<char>
    decreases bytes.len(),
{
    if bytes.len() == 0 {
        Seq::empty()
    } else if bytes.len() == 1 {
        decimal(bytes[0] as nat)
    } else {
        byte_list(bytes.drop_last()) + ","@ + decimal(bytes.last() as nat)
    }
}

/// A byte string as a JSON array of numbers.
pub open spec fn json_bytes(bytes: Seq<u8>) -> Seq<char> {
    "["@ + byte_list(bytes) + "]"@
}

/// An envelope as a JSON object.
pub open spec fn json_envelope(envelope: Envelope) -> Seq<char> {
    "{\"salt\":"@ + json_bytes(envelope.salt) + ",\"nonce\":"@ + json_bytes(envelope.nonce)
        + ",\"encrypted_data\":"@ + json_bytes(envelope.encrypted_data) + "}"@
}

/// The member that holds the envelope of a record; nothing where the
/// record keeps no secret.
pub open spec fn json_secret_member(secret: Option<Envelope>) -> Seq<char> {
    match secret {
        Some(envelope) => ",\"encrypted_secret_key\":"@ + json_envelope(envelope),
        None => Seq::empty(),
    }
}

/// A record as a JSON object.
pub open spec fn json_record(record: KeyRecord) -> Seq<char> {
    "{\"public_key\":"@ + json_bytes(record.public_key) + ",\"public_key_string\":"@ + json_string(
        record.public_key_string,
    ) + json_secret_member(record.encrypted_secret_key) + "}"@
}

/// An entry as a member of a JSON object: the name, a colon, the record.
pub open spec fn json_entry(entry: Entry) -> Seq<char> {
    json_string(entry.name) + ":"@ + json_record(entry.record)
}

/// The entries as members, with commas between them.
pub open spec fn entry_list(entries: Seq<Entry>) -> Seq<char>
    decreases entries.len(),
{
    if entries.len() == 0 {
        Seq::empty()
    } else if entries.len() == 1 {
        json_entry(entries[0])
    } else {
        entry_list(entries.drop_last()) + ","@ + json_entry(entries.last())
    }
}

/// The canonical text of a store with these entries.
pub open spec fn canonical_json(entries: Seq<Entry>) -> Seq<char> {
    "{\"keys\":{"@ + entry_list(entries) + "}}"@
}

/// The fingerprint of a store with these entries: the SHA-256 digest of
/// the UTF-8 bytes of the canonical text, in lower-case hexadecimal.
pub open spec fn fingerprint_of(entries: Seq<Entry>) -> Seq<char> {
    hex_lower(sha256(vstd::utf8::encode_utf8(canonical_json(entries))))
}

/// Appends a text as a JSON string.
fn push_json_string(out: &mut String, text: &str)
    ensures
        final(out)@ == old(out)@ + json_string(text@),
{
    out.append("\"");
    let ghost start = out@;
    let n: usize = text.unicode_len();
    let mut i: usize = 0;
    proof {
        assert(text@.take(0) =~= Seq::<char>::empty());
        assert(out@ =~= start + escaped(text@.take(0)));
    }
    while i < n
        invariant
            i <= n,
            n == text@.len(),
            out@ == start + escaped(text@.take(i as int)),
        decreases n - i,
    {
        let c: char = text.get_char(i);
        let ghost sofar = out@;
        if c == '"' {
            out.append("\\\"");
        } else if c == '\\' {
            out.append("\\\\");
        } else if c == '\u{08}' {
            out.append("\\b");
        } else if c == '\t' {
            out.append("\\t");
        } else if c == '\n' {
            out.append("\\n");
        } else if c == '\u{0c}' {
            out.append("\\f");
        } else if c == '\r' {
            out.append("\\r");
        } else if (c as u32) < 0x20 {
            out.append("\\u00");
            push_hex_byte(out, c as u8);
            proof {
                assert(out@ =~= sofar + ("\\u00"@ + hex_byte(c as u8)));
            }
        } else {
            out.append(text.substring_char(i, i + 1));
            proof {
                assert(text@.subrange(i as int, i + 1) =~= seq![c]);
            }
        }
        proof {
            let upto = text@.take(i + 1);
            assert(upto.drop_last() =~= text@.take(i as int));
            assert(upto.last() == c);
            assert(out@ == sofar + escaped_char(c));
            assert(out@ =~= start + escaped(upto));
        }
        i = i + 1;
    }
    out.append("\"");
    proof {
        assert(text@.take(n as int) =~= text@);
        assert(out@ =~= old(out)@ + json_string(text@));
    }
}

/// Appends a byte string as a JSON array of numbers.
fn push_json_bytes(out: &mut String, bytes: &[u8])
    ensures
        final(out)@ == old(out)@ + json_bytes(bytes@),
{
    out.append("[");
    let ghost start = out@;
    let mut i: usize = 0;
    proof {
        assert(bytes@.take(0) =~= Seq::<u8>::empty());
        assert(out@ =~= start + byte_list(bytes@.take(0)));
    }
    while i < bytes.len()
        invariant
            i <= bytes@.len(),
            out@ == start + byte_list(bytes@.take(i as int)),
        decreases bytes@.len() - i,
    {
        let ghost sofar = out@;
        if i > 0 {
            out.append(",");
        }
        let numeral = decimal_string(bytes[i] as u128);
        out.append(numeral.as_str());
        proof {
            let upto = bytes@.take(i + 1);
            assert(upto.drop_last() =~= bytes@.take(i as int));
            assert(upto.last() == bytes@[i as int]);
            if i == 0 {
                assert(upto[0] == bytes@[0]);
                assert(byte_list(bytes@.take(0)) =~= Seq::<char>::empty());
            }
            assert(out@ =~= start + byte_list(upto));
        }
        i = i + 1;
    }
    out.append("]");
    proof {
        assert(bytes@.take(bytes@.len() as int) =~= bytes@);
        assert(out@ =~= old(out)@ + json_bytes(bytes@));
    }
}

/// Appends an envelope as a JSON object.
fn push_json_envelope(out: &mut String, envelope: &EncryptedSecretKey)
    ensures
        final(out)@ == old(out)@ + json_envelope(envelope@),
{
    out.append("{\"salt\":");
    push_json_bytes(out, envelope.salt.as_slice());
    out.append(",\"nonce\":");
    push_json_bytes(out, envelope.nonce.as_slice());
    out.append(",\"encrypted_data\":");
    push_json_bytes(out, envelope.encrypted_data.as_slice());
    out.append("}");
    proof {
        assert(out@ =~= old(out)@ + json_envelope(envelope@));
    }
}

/// Appends a key pair as a JSON object.
fn push_json_record(out: &mut String, key_pair: &KeyPair)
    ensures
        final(out)@ == old(out)@ + json_record(key_pair@),
{
    out.append("{\"public_key\":");
    push_json_bytes(out, key_pair.public_key.as_slice());
    out.append(",\"public_key_string\":");
    push_json_string(out, key_pair.public_key_string.as_str());
    let ghost sofar = out@;
    match &key_pair.encrypted_secret_key {
        Some(envelope) => {
            out.append(",\"encrypted_secret_key\":");
            push_json_envelope(out, envelope);
            proof {
                assert(out@ =~= sofar + json_secret_member(key_pair@.encrypted_secret_key));
            }
        },
        None => {
            proof {
                assert(out@ =~= sofar + json_secret_member(key_pair@.encrypted_secret_key));
            }
        },
    }
    out.append("}");
    proof {
        assert(out@ =~= old(out)@ + json_record(key_pair@));
    }
}

/// Writes the canonical text of a store.
pub fn serialize_key_store(store: &KeyStore) -> (text: String)
    ensures
        text@ == canonical_json(store.entries()),
{
    let mut out = String::from_str("{\"keys\":{");
    let ghost start = out@;
    let ghost entries = store.entries();
    let n: usize = store.len();
    let mut i: usize = 0;
    proof {
        assert(entries.take(0) =~= Seq::<Entry>::empty());
        assert(out@ =~= start + entry_list(entries.take(0)));
    }
    while i < n
        invariant
            i <= n,
            n == entries.len(),
            entries == store.entries(),
            out@ == start + entry_list(entries.take(i as int)),
        decreases n - i,
    {
        if i > 0 {
            out.append(",");
        }
        let entry = store.entry_at(i);
        push_json_string(&mut out, entry.name.as_str());
        out.append(":");
        push_json_record(&mut out, &entry.key_pair);
        proof {
            let upto = entries.take(i + 1);
            assert(upto.drop_last() =~= entries.take(i as int));
            assert(upto.last() == entries[i as int]);
            if i == 0 {
                assert(upto[0] == entries[0]);
                assert(entry_list(entries.take(0)) =~= Seq::<char>::empty());
            }
            assert(out@ =~= start + entry_list(upto));
        }
        i = i + 1;
    }
    out.append("}}");
    proof {
        assert(entries.take(n as int) =~= entries);
        assert(out@ =~= canonical_json(entries));
    }
    out
}

/// Computes the fingerprint of a store: a content hash that tells whether
/// the store has changed since a password was remembered.
pub fn calculate_key_store_hash(key_store: &KeyStore) -> (fingerprint: String)
    ensures
        fingerprint@ == fingerprint_of(key_store.entries()),
{
    let serialized = serialize_key_store(key_store);
    let digest: [u8; 32] = sha256_digest(serialized.as_str().as_bytes());
    to_hex(digest.as_slice())
}

/// Two well-formed stores with the same mapping have the same fingerprint.
pub proof fn law_fingerprint_depends_on_mapping_alone(a: KeyStore, b: KeyStore)
    requires
        a.wf(),
        b.wf(),
        a@ == b@,
    ensures
        fingerprint_of(a.entries()) == fingerprint_of(b.entries()),
{
    lemma_representation_is_unique(a.entries(), b.entries());
}

} // verus!
