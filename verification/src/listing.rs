//! The report of the key pairs in a store.

use vstd::prelude::*;
use vstd::string::StringExecFns;
use crate::store::Entry;
use crate::store::KeyRecord;
use crate::store::KeyStore;

verus! {

/// What the report says of the secret of a record.
pub open spec fn secret_status(record: KeyRecord) -> Seq<char> {
    if record.encrypted_secret_key is Some {
        "(secret encrypted)"@
    } else {
        "(secret not stored/encrypted)"@
    }
}

/// The line of the report for one entry.
pub open spec fn listing_line(entry: Entry) -> Seq<char> {
    "- "@ + entry.name + " (Public key: "@ + entry.record.public_key_string + ") "@
        + secret_status(entry.record)
}

/// The report of a store with these entries: a hint where there are none,
/// else a heading and one line for each entry in stored order.
pub open spec fn report(entries: Seq<Entry>) -> Seq<Seq<char>> {
    if entries.len() == 0 {
        seq!["No key pairs found. Generate one with 'generate-key' command."@]
    } else {
        seq!["Available key pairs:"@] + Seq::new(entries.len(), |i: int| listing_line(entries[i]))
    }
}

/// Writes the report of the key pairs in a store, line by line.
pub fn list_keys(store: &KeyStore) -> (lines: Vec<String>)
    ensures
        lines@.len() == report(store.entries()).len(),
        forall|i: int| 0 <= i < lines@.len() ==> (#[trigger] lines@[i])@ == report(store.entries())[i],
{
    let mut lines: Vec<String> = Vec::new();
    if store.is_empty() {
        lines.push(String::from_str("No key pairs found. Generate one with 'generate-key' command."));
        return lines;
    }
    lines.push(String::from_str("Available key pairs:"));
    let n: usize = store.len();
    let mut i: usize = 0;
    while i < n
        invariant
            i <= n,
            n == store.entries().len(),
            n > 0,
            lines@.len() == i + 1,
            forall|k: int|
                0 <= k < lines@.len() ==> (#[trigger] lines@[k])@ == report(store.entries())[k],
        decreases n - i,
    {
        let entry = store.entry_at(i);
        let mut line = String::from_str("- ");
        line.append(entry.name.as_str());
        line.append(" (Public key: ");
        line.append(entry.key_pair.public_key_string.as_str());
        line.append(") ");
        if entry.key_pair.encrypted_secret_key.is_some() {
            line.append("(secret encrypted)");
        } else {
            line.append("(secret not stored/encrypted)");
        }
        proof {
            assert(line@ == listing_line(store.entries()[i as int]));
            assert(report(store.entries())[i + 1] == listing_line(store.entries()[i as int]));
        }
        lines.push(line);
        i = i + 1;
    }
    lines
}

} // verus!
