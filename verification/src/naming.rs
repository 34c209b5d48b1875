//! The names that batch generation gives to its keys: `batch_key_` and a
//! decimal index, each the lowest index from a starting point on whose name
//! is still free.

use vstd::prelude::*;
use vstd::string::StringExecFns;
use crate::numeral::decimal;
use crate::numeral::decimal_string;
use crate::numeral::lemma_decimal_injective;
use crate::store::lemma_domain_size;
use crate::store::KeyStore;

verus! {

/// The name of the batch key of an index.
pub open spec fn batch_name(n: nat) -> Seq<char> {
    "batch_key_"@ + decimal(n)
}

/// Whether `n` is the lowest index from `from` on whose name is not taken.
pub open spec fn is_first_free(taken: Set<Seq<char>>, from: nat, n: nat) -> bool {
    &&& from <= n
    &&& !taken.contains(batch_name(n))
    &&& forall|m: nat| from <= m < n ==> taken.contains(#[trigger] batch_name(m))
}

/// The lowest index from `from` on whose name is not taken.
pub open spec fn first_free(taken: Set<Seq<char>>, from: nat) -> nat {
    choose|n: nat| is_first_free(taken, from, n)
}

/// The names that a batch of `count` keys gets when it starts its search at
/// `start`: the key of rank `i` takes the first free name from index
/// `start + i` on, the names given before it counting as taken.
pub open spec fn batch_names_from(taken: Set<Seq<char>>, start: nat, count: nat) -> Seq<Seq<char>>
    decreases count,
{
    if count == 0 {
        Seq::empty()
    } else {
        let name = batch_name(first_free(taken, start));
        seq![name] + batch_names_from(taken.insert(name), start + 1, (count - 1) as nat)
    }
}

/// The names that a batch of `count` keys gets in a store with the names
/// `taken`: the search starts at the lowest index whose name is free.
pub open spec fn batch_names(taken: Set<Seq<char>>, count: nat) -> Seq<Seq<char>> {
    batch_names_from(taken, first_free(taken, 0), count)
}

/// Different indices have different batch names.
pub proof fn lemma_batch_name_injective(a: nat, b: nat)
    requires
        batch_name(a) == batch_name(b),
    ensures
        a == b,
{
    let prefix = "batch_key_"@;
    assert(batch_name(a).subrange(prefix.len() as int, batch_name(a).len() as int) =~= decimal(a));
    assert(batch_name(b).subrange(prefix.len() as int, batch_name(b).len() as int) =~= decimal(b));
    lemma_decimal_injective(a, b);
}

/// A run of consecutive indices whose names are all taken is no longer than
/// the set of taken names is large.
pub proof fn lemma_taken_run_is_short(taken: Set<Seq<char>>, from: nat, run: nat)
    requires
        taken.finite(),
        forall|m: nat| from <= m < from + run ==> taken.contains(#[trigger] batch_name(m)),
    ensures
        run <= taken.len(),
    decreases run,
{
    if run > 0 {
        let last = batch_name((from + run - 1) as nat);
        assert(taken.contains(last));
        let fewer = taken.remove(last);
        assert forall|m: nat| from <= m < from + (run - 1) implies fewer.contains(
            #[trigger] batch_name(m),
        ) by {
            if batch_name(m) == last {
                lemma_batch_name_injective(m, (from + run - 1) as nat);
            }
        }
        lemma_taken_run_is_short(fewer, from, (run - 1) as nat);
    }
}

/// Among finitely many taken names there is a first free index from any
/// starting point, at most the number of taken names away.
pub proof fn lemma_first_free_exists(taken: Set<Seq<char>>, from: nat)
    requires
        taken.finite(),
    ensures
        is_first_free(taken, from, first_free(taken, from)),
        first_free(taken, from) <= from + taken.len(),
{
    lemma_scan_finds_free(taken, from, from);
    let n = choose|n: nat| is_first_free(taken, from, n);
    if n > from + taken.len() {
        lemma_taken_run_is_short(taken, from, (n - from) as nat);
    }
}

/// Scanning upward from an index below which all names from `from` on are
/// taken reaches a first free index.
proof fn lemma_scan_finds_free(taken: Set<Seq<char>>, from: nat, at: nat)
    requires
        taken.finite(),
        from <= at,
        forall|m: nat| from <= m < at ==> taken.contains(#[trigger] batch_name(m)),
    ensures
        exists|n: nat| is_first_free(taken, from, n),
    decreases from + taken.len() - at,
{
    if !taken.contains(batch_name(at)) {
        assert(is_first_free(taken, from, at));
    } else {
        lemma_taken_run_is_short(taken, from, (at + 1 - from) as nat);
        lemma_scan_finds_free(taken, from, at + 1);
    }
}

/// The first free index is the only one that is first and free.
pub proof fn lemma_first_free_is_unique(taken: Set<Seq<char>>, from: nat, n: nat)
    requires
        is_first_free(taken, from, n),
    ensures
        first_free(taken, from) == n,
{
    let c = first_free(taken, from);
    assert(is_first_free(taken, from, c));
    if c < n {
        assert(taken.contains(batch_name(c)));
    } else if n < c {
        assert(taken.contains(batch_name(n)));
    }
}

/// The names of a batch are as many as asked for, none of them was taken
/// before, and no two of them are the same.
pub proof fn lemma_batch_names_are_fresh(taken: Set<Seq<char>>, start: nat, count: nat)
    requires
        taken.finite(),
    ensures
        batch_names_from(taken, start, count).len() == count,
        forall|i: int|
            0 <= i < count ==> !taken.contains(#[trigger] batch_names_from(taken, start, count)[i]),
        forall|i: int, j: int|
            0 <= i < j < count ==> batch_names_from(taken, start, count)[i] != batch_names_from(
                taken,
                start,
                count,
            )[j],
    decreases count,
{
    if count > 0 {
        let names = batch_names_from(taken, start, count);
        let name = batch_name(first_free(taken, start));
        let rest = batch_names_from(taken.insert(name), start + 1, (count - 1) as nat);
        lemma_first_free_exists(taken, start);
        lemma_batch_names_are_fresh(taken.insert(name), start + 1, (count - 1) as nat);
        assert(names[0] == name);
        assert forall|i: int| 0 <= i < count implies !taken.contains(#[trigger] names[i]) by {
            if i > 0 {
                assert(names[i] == rest[i - 1]);
            }
        }
        assert forall|i: int, j: int| 0 <= i < j < count implies names[i] != names[j] by {
            assert(names[j] == rest[j - 1]);
            if i > 0 {
                assert(names[i] == rest[i - 1]);
            }
        }
    }
}

/// Two batches in a row never give the same name twice: the names of the
/// second batch differ from all names of the first and from all names that
/// were in the store before.
pub proof fn law_batches_never_collide(taken: Set<Seq<char>>, first_count: nat, second_count: nat)
    requires
        taken.finite(),
    ensures
        ({
            let first = batch_names(taken, first_count);
            let second = batch_names(taken.union(first.to_set()), second_count);
            &&& first.len() == first_count
            &&& second.len() == second_count
            &&& forall|i: int, j: int|
                0 <= i < first_count && 0 <= j < second_count ==> first[i] != second[j]
            &&& forall|j: int| 0 <= j < second_count ==> !taken.contains(#[trigger] second[j])
            &&& forall|i: int| 0 <= i < first_count ==> !taken.contains(#[trigger] first[i])
            &&& forall|i: int, j: int| 0 <= i < j < first_count ==> first[i] != first[j]
            &&& forall|i: int, j: int| 0 <= i < j < second_count ==> second[i] != second[j]
        }),
{
    let first = batch_names(taken, first_count);
    let after = taken.union(first.to_set());
    let second = batch_names(after, second_count);
    lemma_batch_names_are_fresh(taken, first_free(taken, 0), first_count);
    vstd::seq_lib::seq_to_set_is_finite(first);
    lemma_batch_names_are_fresh(after, first_free(after, 0), second_count);
    assert forall|i: int, j: int|
        0 <= i < first_count && 0 <= j < second_count implies first[i] != second[j] by {
        assert(first.to_set().contains(first[i]));
        assert(after.contains(first[i]));
    }
    assert forall|j: int| 0 <= j < second_count implies !taken.contains(#[trigger] second[j]) by {
        if taken.contains(second[j]) {
            assert(after.contains(second[j]));
        }
    }
}

/// The name of the batch key of an index.
pub fn batch_key_name(n: u128) -> (name: String)
    ensures
        name@ == batch_name(n as nat),
{
    let mut name = String::from_str("batch_key_");
    let digits = decimal_string(n);
    name.append(digits.as_str());
    name
}

/// Finds the lowest index from `from` on whose batch name is not in the
/// store.
pub fn next_free_index(store: &KeyStore, from: u128) -> (n: u128)
    requires
        from + store.entries().len() < u128::MAX,
    ensures
        n == first_free(store@.dom(), from as nat),
        is_first_free(store@.dom(), from as nat, n as nat),
        n <= from + store.entries().len(),
{
    proof {
        use_type_invariant(store);
        lemma_domain_size(store.entries());
    }
    let mut index: u128 = from;
    loop
        invariant
            store.wf(),
            store@.dom().finite(),
            store@.dom().len() == store.entries().len(),
            from + store.entries().len() < u128::MAX,
            from <= index <= from + store.entries().len(),
            forall|m: nat| from <= m < index ==> store@.dom().contains(#[trigger] batch_name(m)),
        ensures
            is_first_free(store@.dom(), from as nat, index as nat),
            index <= from + store.entries().len(),
        decreases from + store.entries().len() - index,
    {
        let name = batch_key_name(index);
        if !store.contains_key(name.as_str()) {
            break;
        }
        proof {
            lemma_taken_run_is_short(store@.dom(), from as nat, (index + 1 - from) as nat);
        }
        index = index + 1;
    }
    proof {
        lemma_first_free_is_unique(store@.dom(), from as nat, index as nat);
    }
    index
}

} // verus!
