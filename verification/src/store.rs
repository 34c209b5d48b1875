//! The key store: named key pairs, each name held once.
//!
//! The store keeps its entries in the lexicographic order of their names, so
//! that one mapping from names to key pairs has exactly one representation.

use vstd::prelude::*;
use vstd::slice::slice_to_vec;
use crate::cipher::EncryptedSecretKey;
use crate::cipher::Envelope;
use crate::error::VaultError;
use crate::order::lemma_encoding_is_injective;
use crate::order::lemma_name_precedes_asymmetric;
use crate::order::lemma_name_precedes_irreflexive;
use crate::order::lemma_name_precedes_transitive;
use crate::order::name_precedes;
use crate::order::rank_bytes;
use crate::order::Rank;

verus! {

/// One named identity: a public key, its text form, and the secret key in
/// its envelope where one is kept.
pub struct KeyPair {
    /// The raw bytes of the public key.
    pub public_key: Vec<u8>,
    /// The base64 text of the public key.
    pub public_key_string: String,
    /// The encrypted secret key; `None` for a record of the public key only.
    pub encrypted_secret_key: Option<EncryptedSecretKey>,
}

/// What a key pair holds, as mathematical values.
pub struct KeyRecord {
    pub public_key: Seq<u8>,
    pub public_key_string: Seq<char>,
    pub encrypted_secret_key: Option<Envelope>,
}

impl View for KeyPair {
    type V = KeyRecord;

    open spec fn view(&self) -> KeyRecord {
        KeyRecord {
            public_key: self.public_key@,
            public_key_string: self.public_key_string@,
            encrypted_secret_key: match self.encrypted_secret_key {
                Some(envelope) => Some(envelope@),
                None => None,
            },
        }
    }
}

impl KeyPair {
    /// A copy of the key pair.
    pub fn duplicate(&self) -> (copy: KeyPair)
        ensures
            copy@ == self@,
    {
        let encrypted_secret_key = match &self.encrypted_secret_key {
            Some(envelope) => Some(envelope.duplicate()),
            None => None,
        };
        KeyPair {
            public_key: slice_to_vec(self.public_key.as_slice()),
            public_key_string: self.public_key_string.clone(),
            encrypted_secret_key,
        }
    }
}

/// A key pair under its name.
pub struct KeyEntry {
    pub name: String,
    pub key_pair: KeyPair,
}

/// A name with the record kept under it.
pub struct Entry {
    pub name: Seq<char>,
    pub record: KeyRecord,
}

impl View for KeyEntry {
    type V = Entry;

    open spec fn view(&self) -> Entry {
        Entry { name: self.name@, record: self.key_pair@ }
    }
}

/// Whether the entries stand in strictly increasing order of their names.
/// No name then occurs twice.
pub open spec fn sorted(entries: Seq<Entry>) -> bool {
    forall|i: int, j: int|
        0 <= i < j < entries.len() ==> name_precedes(
            (#[trigger] entries[i]).name,
            (#[trigger] entries[j]).name,
        )
}

/// Whether some entry has the name.
pub open spec fn has_name(entries: Seq<Entry>, name: Seq<char>) -> bool {
    exists|i: int| 0 <= i < entries.len() && (#[trigger] entries[i]).name == name
}

/// An index at which the name stands, where some entry has it.
pub open spec fn index_of(entries: Seq<Entry>, name: Seq<char>) -> int {
    choose|i: int| 0 <= i < entries.len() && (#[trigger] entries[i]).name == name
}

/// The mapping from names to records that the entries make up.
pub open spec fn as_map(entries: Seq<Entry>) -> Map<Seq<char>, KeyRecord> {
    Map::new(
        |name: Seq<char>| has_name(entries, name),
        |name: Seq<char>| entries[index_of(entries, name)].record,
    )
}

/// In sorted entries a name stands at one index only.
pub proof fn lemma_sorted_names_differ(entries: Seq<Entry>, i: int, j: int)
    requires
        sorted(entries),
        0 <= i < entries.len(),
        0 <= j < entries.len(),
        entries[i].name == entries[j].name,
    ensures
        i == j,
{
    lemma_name_precedes_irreflexive(entries[i].name);
    if i < j {
        assert(name_precedes(entries[i].name, entries[j].name));
    } else if j < i {
        assert(name_precedes(entries[j].name, entries[i].name));
    }
}

/// The mapping of sorted entries sends the name of each entry to its record.
pub proof fn lemma_map_at(entries: Seq<Entry>, i: int)
    requires
        sorted(entries),
        0 <= i < entries.len(),
    ensures
        as_map(entries).dom().contains(entries[i].name),
        as_map(entries)[entries[i].name] == entries[i].record,
{
    let name = entries[i].name;
    assert(has_name(entries, name));
    lemma_sorted_names_differ(entries, i, index_of(entries, name));
}

/// Putting an entry with a new name at a place that keeps the order adds
/// its name and record to the mapping and changes nothing else.
pub proof fn lemma_map_insert(entries: Seq<Entry>, at: int, entry: Entry)
    requires
        sorted(entries),
        0 <= at <= entries.len(),
        sorted(entries.insert(at, entry)),
    ensures
        as_map(entries.insert(at, entry)) == as_map(entries).insert(entry.name, entry.record),
{
    let grown = entries.insert(at, entry);
    let expected = as_map(entries).insert(entry.name, entry.record);
    assert(grown[at] == entry);
    assert forall|name: Seq<char>| #[trigger]
        as_map(grown).dom().contains(name) == expected.dom().contains(name) by {
        if as_map(grown).dom().contains(name) {
            let k = index_of(grown, name);
            if k < at {
                assert(entries[k] == grown[k]);
            } else if k > at {
                assert(entries[k - 1] == grown[k]);
            }
        }
        if expected.dom().contains(name) && name != entry.name {
            let k = index_of(entries, name);
            if k < at {
                assert(grown[k] == entries[k]);
            } else {
                assert(grown[k + 1] == entries[k]);
            }
        }
    }
    assert forall|name: Seq<char>| as_map(grown).dom().contains(name) implies #[trigger]
        as_map(grown)[name] == expected[name] by {
        if name == entry.name {
            lemma_map_at(grown, at);
        } else {
            let k = index_of(entries, name);
            lemma_map_at(entries, k);
            if k < at {
                assert(grown[k] == entries[k]);
                lemma_map_at(grown, k);
            } else {
                assert(grown[k + 1] == entries[k]);
                lemma_map_at(grown, k + 1);
            }
        }
    }
    assert(as_map(grown) =~= expected);
}

/// Sorted entries are determined by their mapping: a mapping has one
/// representation.
pub proof fn lemma_representation_is_unique(a: Seq<Entry>, b: Seq<Entry>)
    requires
        sorted(a),
        sorted(b),
        as_map(a) == as_map(b),
    ensures
        a == b,
    decreases a.len(),
{
    if a.len() == 0 {
        if b.len() > 0 {
            lemma_map_at(b, 0);
            assert(has_name(a, b[0].name));
        }
        assert(a =~= b);
    } else if b.len() == 0 {
        lemma_map_at(a, 0);
        assert(has_name(b, a[0].name));
    } else {
        lemma_map_at(a, 0);
        lemma_map_at(b, 0);
        assert(has_name(b, a[0].name));
        assert(has_name(a, b[0].name));
        let j = index_of(b, a[0].name);
        let i = index_of(a, b[0].name);
        if j > 0 {
            assert(name_precedes(b[0].name, b[j].name));
            if i > 0 {
                assert(name_precedes(a[0].name, a[i].name));
                lemma_name_precedes_transitive(a[0].name, b[0].name, a[0].name);
                lemma_name_precedes_irreflexive(a[0].name);
            } else {
                lemma_name_precedes_irreflexive(a[0].name);
            }
        }
        assert(a[0].name == b[0].name);
        assert(a[0] == b[0]);
        lemma_map_drop_first(a);
        lemma_map_drop_first(b);
        lemma_representation_is_unique(a.drop_first(), b.drop_first());
        assert(a =~= seq![a[0]] + a.drop_first());
        assert(b =~= seq![b[0]] + b.drop_first());
    }
}

/// Dropping the first of sorted entries removes its name from the mapping
/// and keeps the order.
proof fn lemma_map_drop_first(entries: Seq<Entry>)
    requires
        sorted(entries),
        entries.len() > 0,
    ensures
        sorted(entries.drop_first()),
        as_map(entries.drop_first()) == as_map(entries).remove(entries[0].name),
{
    let rest = entries.drop_first();
    assert forall|i: int, j: int| 0 <= i < j < rest.len() implies name_precedes(
        (#[trigger] rest[i]).name,
        (#[trigger] rest[j]).name,
    ) by {
        assert(rest[i] == entries[i + 1]);
        assert(rest[j] == entries[j + 1]);
    }
    let expected = as_map(entries).remove(entries[0].name);
    assert forall|name: Seq<char>| #[trigger]
        as_map(rest).dom().contains(name) == expected.dom().contains(name) by {
        if as_map(rest).dom().contains(name) {
            let k = index_of(rest, name);
            assert(rest[k] == entries[k + 1]);
            if name == entries[0].name {
                lemma_sorted_names_differ(entries, 0, k + 1);
            }
        }
        if expected.dom().contains(name) {
            let k = index_of(entries, name);
            assert(k > 0);
            assert(rest[k - 1] == entries[k]);
        }
    }
    assert forall|name: Seq<char>| as_map(rest).dom().contains(name) implies #[trigger]
        as_map(rest)[name] == expected[name] by {
        let k = index_of(rest, name);
        assert(rest[k] == entries[k + 1]);
        lemma_map_at(rest, k);
        lemma_map_at(entries, k + 1);
    }
    assert(as_map(rest) =~= expected);
}

/// The mapping of sorted entries has as many names as there are entries.
pub proof fn lemma_domain_size(entries: Seq<Entry>)
    requires
        sorted(entries),
    ensures
        as_map(entries).dom().finite(),
        as_map(entries).dom().len() == entries.len(),
    decreases entries.len(),
{
    if entries.len() == 0 {
        assert(as_map(entries).dom() =~= Set::<Seq<char>>::empty());
    } else {
        let rest = entries.drop_first();
        lemma_map_drop_first(entries);
        lemma_domain_size(rest);
        lemma_map_at(entries, 0);
        assert(as_map(entries).dom() =~= as_map(rest).dom().insert(entries[0].name));
    }
}

/// The number of entries whose names come before the name.
pub open spec fn rank_of(entries: Seq<Entry>, name: Seq<char>) -> int
    decreases entries.len(),
{
    if entries.len() == 0 {
        0
    } else {
        rank_of(entries.drop_last(), name) + if name_precedes(entries.last().name, name) {
            1int
        } else {
            0int
        }
    }
}

/// The entries with one more, put behind the entries whose names come
/// before its name.
pub open spec fn with_entry(entries: Seq<Entry>, entry: Entry) -> Seq<Entry> {
    entries.insert(rank_of(entries, entry.name), entry)
}

/// The sorted entries that come of adding the pending entries, last one
/// first, to those already sorted; `StoreCorrupt` where a name comes twice.
pub open spec fn built_onto(sorted_entries: Seq<Entry>, pending: Seq<Entry>) -> Result<
    Seq<Entry>,
    VaultError,
>
    decreases pending.len(),
{
    if pending.len() == 0 {
        Ok(sorted_entries)
    } else if has_name(sorted_entries, pending.last().name) {
        Err(VaultError::StoreCorrupt)
    } else {
        built_onto(with_entry(sorted_entries, pending.last()), pending.drop_last())
    }
}

/// The entries of the store that is built from a list of entries in any
/// order; `StoreCorrupt` where a name comes twice.
pub open spec fn built_from(entries: Seq<Entry>) -> Result<Seq<Entry>, VaultError> {
    built_onto(Seq::empty(), entries)
}

/// What a list of entries holds, as mathematical values.
pub open spec fn entry_views(entries: Seq<KeyEntry>) -> Seq<Entry> {
    Seq::new(entries.len(), |i: int| entries[i]@)
}

/// Whether no two of the entries have the same name.
pub open spec fn distinct_names(entries: Seq<Entry>) -> bool {
    forall|i: int, j: int|
        0 <= i < j < entries.len() ==> (#[trigger] entries[i]).name != (#[trigger] entries[j]).name
}

/// A rank is an index at which an entry can be put.
pub proof fn lemma_rank_bounds(entries: Seq<Entry>, name: Seq<char>)
    ensures
        0 <= rank_of(entries, name) <= entries.len(),
    decreases entries.len(),
{
    if entries.len() > 0 {
        lemma_rank_bounds(entries.drop_last(), name);
    }
}

/// Adding an entry adds its name to the names and takes none away.
pub proof fn lemma_names_with_entry(entries: Seq<Entry>, entry: Entry, name: Seq<char>)
    ensures
        has_name(with_entry(entries, entry), name) <==> has_name(entries, name) || name
            == entry.name,
{
    lemma_rank_bounds(entries, entry.name);
    let at = rank_of(entries, entry.name);
    let grown = with_entry(entries, entry);
    assert(grown[at] == entry);
    if has_name(entries, name) {
        let k = index_of(entries, name);
        if k < at {
            assert(grown[k] == entries[k]);
        } else {
            assert(grown[k + 1] == entries[k]);
        }
    }
    if has_name(grown, name) {
        let k = index_of(grown, name);
        if k < at {
            assert(grown[k] == entries[k]);
        } else if k > at {
            assert(grown[k] == entries[k - 1]);
        }
    }
}

/// Building succeeds exactly when the pending names are distinct and none
/// of them is held already.
pub proof fn lemma_built_iff_distinct(sorted_entries: Seq<Entry>, pending: Seq<Entry>)
    ensures
        built_onto(sorted_entries, pending) is Ok <==> distinct_names(pending) && forall|i: int|
            0 <= i < pending.len() ==> !has_name(sorted_entries, (#[trigger] pending[i]).name),
        built_onto(sorted_entries, pending) matches Err(e) ==> e == VaultError::StoreCorrupt,
    decreases pending.len(),
{
    if pending.len() > 0 {
        let entry = pending.last();
        let last = pending.len() - 1;
        let shorter = pending.drop_last();
        assert(pending[last] == entry);
        if !has_name(sorted_entries, entry.name) {
            let grown = with_entry(sorted_entries, entry);
            lemma_built_iff_distinct(grown, shorter);
            assert forall|i: int| 0 <= i < shorter.len() implies shorter[i] == pending[i] by {}
            if built_onto(grown, shorter) is Ok {
                assert forall|i: int| 0 <= i < pending.len() implies !has_name(
                    sorted_entries,
                    (#[trigger] pending[i]).name,
                ) by {
                    if i < last {
                        assert(!has_name(grown, shorter[i].name));
                        lemma_names_with_entry(sorted_entries, entry, pending[i].name);
                    }
                }
                assert forall|i: int, j: int| 0 <= i < j < pending.len() implies (
                #[trigger] pending[i]).name != (#[trigger] pending[j]).name by {
                    if j == last {
                        assert(!has_name(grown, shorter[i].name));
                        lemma_names_with_entry(sorted_entries, entry, pending[i].name);
                    } else {
                        assert(shorter[i].name != shorter[j].name);
                    }
                }
            }
            if distinct_names(pending) && forall|i: int|
                0 <= i < pending.len() ==> !has_name(sorted_entries, (#[trigger] pending[i]).name) {
                assert forall|i: int| 0 <= i < shorter.len() implies !has_name(
                    grown,
                    (#[trigger] shorter[i]).name,
                ) by {
                    assert(pending[i].name != pending[last].name);
                    lemma_names_with_entry(sorted_entries, entry, shorter[i].name);
                }
                assert(distinct_names(shorter));
            }
        }
    }
}

/// A name that comes after the first `at` of the entries and before the
/// others has rank `at`.
pub proof fn lemma_rank_at(entries: Seq<Entry>, name: Seq<char>, at: int)
    requires
        0 <= at <= entries.len(),
        forall|k: int| 0 <= k < at ==> name_precedes((#[trigger] entries[k]).name, name),
        forall|k: int|
            at <= k < entries.len() ==> name_precedes(name, (#[trigger] entries[k]).name),
    ensures
        rank_of(entries, name) == at,
    decreases entries.len(),
{
    if entries.len() > 0 {
        let shorter = entries.drop_last();
        let last = entries.len() - 1;
        assert forall|k: int| 0 <= k < shorter.len() implies shorter[k] == entries[k] by {}
        if at == entries.len() {
            assert(name_precedes(entries[last].name, name));
            lemma_rank_at(shorter, name, at - 1);
        } else {
            assert(name_precedes(name, entries[last].name));
            lemma_name_precedes_asymmetric(name, entries[last].name);
            lemma_rank_at(shorter, name, at);
        }
    }
}

/// Building onto sorted entries from pending entries that are sorted too
/// and come before them gives all of them in their order.
pub proof fn lemma_built_of_sorted(sorted_entries: Seq<Entry>, pending: Seq<Entry>)
    requires
        sorted(pending + sorted_entries),
    ensures
        built_onto(sorted_entries, pending) == Ok::<Seq<Entry>, VaultError>(
            pending + sorted_entries,
        ),
    decreases pending.len(),
{
    let whole = pending + sorted_entries;
    if pending.len() == 0 {
        assert(whole =~= sorted_entries);
    } else {
        let entry = pending.last();
        let at = pending.len() - 1;
        assert(whole[at] == entry);
        if has_name(sorted_entries, entry.name) {
            let k = index_of(sorted_entries, entry.name);
            assert(whole[pending.len() + k] == sorted_entries[k]);
            lemma_sorted_names_differ(whole, at, pending.len() + k);
        }
        assert forall|k: int| 0 <= k < sorted_entries.len() implies name_precedes(
            entry.name,
            (#[trigger] sorted_entries[k]).name,
        ) by {
            assert(whole[pending.len() + k] == sorted_entries[k]);
            assert(name_precedes(whole[at].name, whole[pending.len() + k].name));
        }
        lemma_rank_at(sorted_entries, entry.name, 0);
        let grown = with_entry(sorted_entries, entry);
        assert(pending.drop_last() + grown =~= whole);
        lemma_built_of_sorted(grown, pending.drop_last());
    }
}

/// Named key pairs, each name held once, kept in the order of the names.
pub struct KeyStore {
    entries: Vec<KeyEntry>,
}

impl View for KeyStore {
    type V = Map<Seq<char>, KeyRecord>;

    /// The mapping from names to records.
    open spec fn view(&self) -> Map<Seq<char>, KeyRecord> {
        as_map(self.entries())
    }
}

impl KeyStore {
    /// The entries in stored order.
    pub closed spec fn entries(&self) -> Seq<Entry> {
        Seq::new(self.entries@.len(), |i: int| self.entries@[i]@)
    }

    /// The invariant of the store, which every store meets: its entries are
    /// sorted by name.
    #[verifier::type_invariant]
    pub open spec fn wf(&self) -> bool {
        sorted(self.entries())
    }

    /// The empty store.
    pub fn new() -> (store: KeyStore)
        ensures
            store.wf(),
            store.entries() == Seq::<Entry>::empty(),
            store@ == Map::<Seq<char>, KeyRecord>::empty(),
    {
        let store = KeyStore { entries: Vec::new() };
        proof {
            assert(store.entries() =~= Seq::<Entry>::empty());
            assert(store@ =~= Map::<Seq<char>, KeyRecord>::empty());
        }
        store
    }

    /// The number of key pairs.
    pub fn len(&self) -> (n: usize)
        ensures
            n == self.entries().len(),
    {
        self.entries.len()
    }

    /// Whether the store holds no key pair.
    pub fn is_empty(&self) -> (empty: bool)
        ensures
            empty <==> self.entries().len() == 0,
    {
        self.entries.len() == 0
    }

    /// The entry at an index of the stored order.
    pub fn entry_at(&self, index: usize) -> (entry: &KeyEntry)
        requires
            index < self.entries().len(),
        ensures
            entry@ == self.entries()[index as int],
    {
        &self.entries[index]
    }

    /// Looks a name up. `Ok` holds the index at which it stands; `Err` holds
    /// the index at which an entry of that name would keep the order.
    pub fn locate(&self, name: &str) -> (r: Result<usize, usize>)
        ensures
            r is Ok <==> self@.dom().contains(name@),
            r matches Ok(at) ==> at < self.entries().len() && self.entries()[at as int].name
                == name@,
            r matches Err(at) ==> at <= self.entries().len() && (forall|k: int|
                0 <= k < at ==> name_precedes((#[trigger] self.entries()[k]).name, name@))
                && (forall|k: int|
                at <= k < self.entries().len() ==> name_precedes(
                    name@,
                    (#[trigger] self.entries()[k]).name,
                )),
    {
        proof {
            use_type_invariant(&*self);
        }
        let mut i: usize = 0;
        while i < self.entries.len()
            invariant
                self.wf(),
                i <= self.entries().len(),
                self.entries().len() == self.entries@.len(),
                forall|k: int|
                    0 <= k < i ==> name_precedes((#[trigger] self.entries()[k]).name, name@),
            decreases self.entries@.len() - i,
        {
            let rank = rank_bytes(self.entries[i].name.as_str().as_bytes(), name.as_bytes());
            proof {
                assert(self.entries()[i as int].name == self.entries@[i as int].name@);
            }
            match rank {
                Rank::Before => {},
                Rank::Same => {
                    proof {
                        lemma_encoding_is_injective(self.entries()[i as int].name, name@);
                        assert(has_name(self.entries(), name@));
                    }
                    return Ok(i);
                },
                Rank::After => {
                    proof {
                        self.lemma_absent_at(name@, i as int);
                    }
                    return Err(i);
                },
            }
            i = i + 1;
        }
        proof {
            self.lemma_absent_at(name@, i as int);
        }
        Err(i)
    }

    /// A name that parts the sorted entries at an index, coming after all
    /// before it and before the one at it, is not in the store and comes
    /// before all from the index on.
    proof fn lemma_absent_at(&self, name: Seq<char>, at: int)
        requires
            self.wf(),
            0 <= at <= self.entries().len(),
            forall|k: int| 0 <= k < at ==> name_precedes((#[trigger] self.entries()[k]).name, name),
            at < self.entries().len() ==> name_precedes(name, self.entries()[at].name),
        ensures
            !self@.dom().contains(name),
            forall|k: int|
                at <= k < self.entries().len() ==> name_precedes(
                    name,
                    (#[trigger] self.entries()[k]).name,
                ),
    {
        let entries = self.entries();
        assert forall|k: int| at <= k < entries.len() implies name_precedes(
            name,
            (#[trigger] entries[k]).name,
        ) by {
            if k > at {
                assert(name_precedes(entries[at].name, entries[k].name));
                lemma_name_precedes_transitive(name, entries[at].name, entries[k].name);
            }
        }
        if has_name(entries, name) {
            let k = index_of(entries, name);
            lemma_name_precedes_irreflexive(name);
            if k < at {
                assert(name_precedes(entries[k].name, name));
            } else {
                assert(name_precedes(name, entries[k].name));
            }
        }
    }

    /// Whether a key pair of that name is in the store.
    pub fn contains_key(&self, name: &str) -> (present: bool)
        ensures
            present <==> self@.dom().contains(name@),
    {
        self.locate(name).is_ok()
    }

    /// The key pair of that name, if the store holds one.
    pub fn get(&self, name: &str) -> (found: Option<&KeyPair>)
        ensures
            found is Some <==> self@.dom().contains(name@),
            found matches Some(key_pair) ==> key_pair@ == self@[name@],
    {
        match self.locate(name) {
            Ok(at) => {
                proof {
                    use_type_invariant(&*self);
                    lemma_map_at(self.entries(), at as int);
                }
                Some(&self.entries[at].key_pair)
            },
            Err(_) => None,
        }
    }

    /// Adds a key pair under a new name.
    ///
    /// Fails with `NameCollision`, and leaves the store as it was, exactly
    /// when the name is taken: an entry is never overwritten.
    pub fn insert(&mut self, name: String, key_pair: KeyPair) -> (r: Result<(), VaultError>)
        ensures
            final(self).wf(),
            r is Err <==> old(self)@.dom().contains(name@),
            r matches Err(e) ==> e == VaultError::NameCollision && final(self).entries() == old(
                self,
            ).entries(),
            r is Ok ==> final(self)@ == old(self)@.insert(name@, key_pair@),
            r is Ok ==> final(self).entries() == with_entry(
                old(self).entries(),
                Entry { name: name@, record: key_pair@ },
            ),
    {
        proof {
            use_type_invariant(&*self);
        }
        match self.locate(name.as_str()) {
            Ok(_) => Err(VaultError::NameCollision),
            Err(at) => {
                let ghost before = self.entries();
                let ghost entry = Entry { name: name@, record: key_pair@ };
                let mut entries: Vec<KeyEntry> = Vec::new();
                std::mem::swap(&mut entries, &mut self.entries);
                entries.insert(at, KeyEntry { name, key_pair });
                proof {
                    let after = entry_views(entries@);
                    assert(after =~= before.insert(at as int, entry));
                    assert forall|i: int, j: int| 0 <= i < j < after.len() implies name_precedes(
                        (#[trigger] after[i]).name,
                        (#[trigger] after[j]).name,
                    ) by {
                        if j < at {
                            assert(after[i] == before[i] && after[j] == before[j]);
                        } else if j == at {
                            assert(after[i] == before[i]);
                        } else if i < at {
                            assert(after[i] == before[i] && after[j] == before[j - 1]);
                        } else if i == at {
                            assert(after[j] == before[j - 1]);
                        } else {
                            assert(after[i] == before[i - 1] && after[j] == before[j - 1]);
                        }
                    }
                    lemma_map_insert(before, at as int, entry);
                    lemma_rank_at(before, name@, at as int);
                }
                self.entries = entries;
                proof {
                    assert(self.entries() =~= before.insert(at as int, entry));
                }
                Ok(())
            },
        }
    }

    /// Builds the store of a list of entries, given in any order.
    ///
    /// Fails with `StoreCorrupt` where a name comes twice.
    pub fn from_entries(entries: Vec<KeyEntry>) -> (r: Result<KeyStore, VaultError>)
        ensures
            r matches Ok(store) ==> store.wf() && built_from(entry_views(entries@)) == Ok::<
                Seq<Entry>,
                VaultError,
            >(store.entries()),
            r matches Err(e) ==> built_from(entry_views(entries@)) == Err::<
                Seq<Entry>,
                VaultError,
            >(e),
            r is Ok <==> distinct_names(entry_views(entries@)),
            r matches Err(e) ==> e == VaultError::StoreCorrupt,
    {
        proof {
            lemma_built_iff_distinct(Seq::empty(), entry_views(entries@));
        }
        let mut pending = entries;
        let mut store = KeyStore::new();
        while pending.len() > 0
            invariant
                store.wf(),
                built_onto(store.entries(), entry_views(pending@)) == built_from(
                    entry_views(entries@),
                ),
                built_from(entry_views(entries@)) is Ok <==> distinct_names(entry_views(entries@)),
            decreases pending@.len(),
        {
            let ghost before = entry_views(pending@);
            match pending.pop() {
                Some(entry) => {
                    proof {
                        assert(entry_views(pending@) =~= before.drop_last());
                        assert(entry@ == before.last());
                    }
                    match store.insert(entry.name, entry.key_pair) {
                        Ok(_) => {},
                        Err(_) => {
                            return Err(VaultError::StoreCorrupt);
                        },
                    }
                },
                None => {},
            }
        }
        Ok(store)
    }

    /// The entries of the store as a list, in stored order.
    pub fn to_entries(&self) -> (entries: Vec<KeyEntry>)
        ensures
            entry_views(entries@) == self.entries(),
    {
        let mut entries: Vec<KeyEntry> = Vec::new();
        let mut i: usize = 0;
        while i < self.entries.len()
            invariant
                i <= self.entries@.len(),
                entries@.len() == i,
                forall|k: int| 0 <= k < i ==> (#[trigger] entries@[k])@ == self.entries@[k]@,
            decreases self.entries@.len() - i,
        {
            let entry = &self.entries[i];
            entries.push(KeyEntry { name: entry.name.clone(), key_pair: entry.key_pair.duplicate() });
            i = i + 1;
        }
        proof {
            assert(entry_views(entries@) =~= self.entries());
        }
        entries
    }
}

/// The envelope kept under a name: `KeyNotFound` where the mapping lacks
/// the name, `SecretNotStored` where the record holds no envelope.
pub open spec fn envelope_of(keys: Map<Seq<char>, KeyRecord>, name: Seq<char>) -> Result<
    Envelope,
    VaultError,
> {
    if !keys.dom().contains(name) {
        Err(VaultError::KeyNotFound)
    } else {
        match keys[name].encrypted_secret_key {
            Some(envelope) => Ok(envelope),
            None => Err(VaultError::SecretNotStored),
        }
    }
}

/// The envelope of the key pair of that name.
///
/// Fails with `KeyNotFound` exactly when the store has no such name, and
/// with `SecretNotStored` exactly when the key pair keeps no secret.
pub fn find_encrypted_secret<'a>(store: &'a KeyStore, name: &str) -> (r: Result<
    &'a EncryptedSecretKey,
    VaultError,
>)
    ensures
        r matches Ok(envelope) ==> envelope_of(store@, name@) == Ok::<Envelope, VaultError>(
            envelope@,
        ),
        r matches Err(e) ==> envelope_of(store@, name@) == Err::<Envelope, VaultError>(e),
{
    match store.get(name) {
        None => Err(VaultError::KeyNotFound),
        Some(key_pair) => match &key_pair.encrypted_secret_key {
            Some(envelope) => Ok(envelope),
            None => Err(VaultError::SecretNotStored),
        },
    }
}

/// The public key of the key pair of that name.
///
/// Fails with `KeyNotFound` exactly when the store has no such name.
pub fn get_public_key(store: &KeyStore, key_name: &str) -> (r: Result<Vec<u8>, VaultError>)
    ensures
        r is Ok <==> store@.dom().contains(key_name@),
        r matches Ok(public_key) ==> public_key@ == store@[key_name@].public_key,
        r matches Err(e) ==> e == VaultError::KeyNotFound,
{
    match store.get(key_name) {
        None => Err(VaultError::KeyNotFound),
        Some(key_pair) => Ok(slice_to_vec(key_pair.public_key.as_slice())),
    }
}

/// A store that is taken apart into its entries and built from them again
/// is the same store.
pub proof fn law_store_round_trip(store: KeyStore)
    requires
        store.wf(),
    ensures
        built_from(store.entries()) == Ok::<Seq<Entry>, VaultError>(store.entries()),
{
    assert(store.entries() + Seq::<Entry>::empty() =~= store.entries());
    lemma_built_of_sorted(Seq::empty(), store.entries());
}

/// Two well-formed stores with the same mapping hold the same entries in
/// the same order.
pub proof fn law_store_is_canonical(a: KeyStore, b: KeyStore)
    requires
        a.wf(),
        b.wf(),
        a@ == b@,
    ensures
        a.entries() == b.entries(),
{
    lemma_representation_is_unique(a.entries(), b.entries());
}

} // verus!
