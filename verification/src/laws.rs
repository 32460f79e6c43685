//! What holds of every cache, proved over the model that the contracts of
//! the cache's methods are stated in.

use crate::rr::{consistent, entries_after_insert, lemma_insert_keeps_consistent, slots_after_insert};
use vstd::prelude::*;

verus! {

/// One insertion: the key, its value, and the slot drawn for an eviction.
pub struct Insertion<K, V> {
    pub key: K,
    pub value: V,
    pub slot: int,
}

/// The entries and the slots of a cache of the given capacity that started
/// empty and went through `insertions` in order.
pub open spec fn state_after<K, V>(capacity: nat, insertions: Seq<Insertion<K, V>>) -> (
    Map<K, V>,
    Seq<K>,
)
    decreases insertions.len(),
{
    if insertions.len() == 0 {
        (Map::empty(), Seq::empty())
    } else {
        let (entries, slots) = state_after(capacity, insertions.drop_last());
        let last = insertions.last();
        (
            entries_after_insert(entries, slots, capacity, last.key, last.value, last.slot),
            slots_after_insert(slots, capacity, last.key, last.slot),
        )
    }
}

/// In a consistent cache the number of entries is the number of occupied
/// slots, and never more than the capacity.
pub proof fn lemma_len_bounded<K, V>(entries: Map<K, V>, slots: Seq<K>, capacity: nat)
    requires
        consistent(entries, slots, capacity),
    ensures
        entries.dom().finite(),
        entries.len() == slots.len(),
        entries.len() <= capacity,
{
    slots.unique_seq_to_set();
}

/// Whatever is inserted into an empty cache, in whatever order and with
/// whatever slots drawn, the cache stays consistent: the keys with a value
/// are the keys in the slots, no key is there twice, and there are never
/// more entries than the capacity allows.
pub proof fn lemma_reachable_states_consistent<K, V>(
    capacity: nat,
    insertions: Seq<Insertion<K, V>>,
)
    requires
        0 < capacity,
        forall|i: int| 0 <= i < insertions.len() ==> 0 <= (#[trigger] insertions[i]).slot < capacity,
    ensures
        consistent(
            state_after(capacity, insertions).0,
            state_after(capacity, insertions).1,
            capacity,
        ),
        state_after(capacity, insertions).0.dom().finite(),
        state_after(capacity, insertions).0.len() <= capacity,
        state_after(capacity, insertions).0.dom() == state_after(capacity, insertions).1.to_set(),
    decreases insertions.len(),
{
    if insertions.len() == 0 {
        assert(Seq::<K>::empty().to_set() =~= Set::<K>::empty());
    } else {
        let before = insertions.drop_last();
        assert forall|i: int| 0 <= i < before.len() implies 0 <= (#[trigger] before[i]).slot
            < capacity by {
            assert(before[i] == insertions[i]);
        }
        lemma_reachable_states_consistent(capacity, before);
        let (entries, slots) = state_after(capacity, before);
        let last = insertions.last();
        lemma_insert_keeps_consistent(entries, slots, capacity, last.key, last.value, last.slot);
    }
    let (entries, slots) = state_after(capacity, insertions);
    lemma_len_bounded(entries, slots, capacity);
}

/// Right after a key was inserted with a value, the key is resident and the
/// value stored for it is that value.
pub proof fn lemma_inserted_key_found<K, V>(
    entries: Map<K, V>,
    slots: Seq<K>,
    capacity: nat,
    key: K,
    value: V,
    slot: int,
)
    ensures
        entries_after_insert(entries, slots, capacity, key, value, slot).contains_key(key),
        entries_after_insert(entries, slots, capacity, key, value, slot)[key] == value,
{
}

/// Inserting a new key into a full cache makes exactly one resident key
/// absent, the key in the slot that was drawn. The new key is resident
/// afterwards, every other resident key stays with its value, and the cache
/// is as full as before.
pub proof fn lemma_full_insert_evicts_one<K, V>(
    entries: Map<K, V>,
    slots: Seq<K>,
    capacity: nat,
    key: K,
    value: V,
    slot: int,
)
    requires
        consistent(entries, slots, capacity),
        slots.len() == capacity,
        !entries.contains_key(key),
        0 <= slot < capacity,
    ensures
        ({
            let after = entries_after_insert(entries, slots, capacity, key, value, slot);
            &&& after.contains_key(key)
            &&& entries.contains_key(slots[slot])
            &&& entries.dom().difference(after.dom()) == set![slots[slot]]
            &&& forall|k: K|
                entries.contains_key(k) && k != slots[slot] ==> after.contains_key(k) && after[k]
                    == entries[k]
            &&& after.len() == capacity
        }),
{
    let after = entries_after_insert(entries, slots, capacity, key, value, slot);
    lemma_insert_keeps_consistent(entries, slots, capacity, key, value, slot);
    assert(slots.to_set().contains(slots[slot]));
    assert(entries.dom().difference(after.dom()) =~= set![slots[slot]]);
    lemma_len_bounded(
        after,
        slots_after_insert(slots, capacity, key, slot),
        capacity,
    );
}

/// Inserting into a cache that is not full evicts nothing: every key that
/// was resident stays resident, and every one but the inserted key keeps its
/// value.
pub proof fn lemma_insert_below_capacity_keeps_all<K, V>(
    entries: Map<K, V>,
    slots: Seq<K>,
    capacity: nat,
    key: K,
    value: V,
    slot: int,
)
    requires
        consistent(entries, slots, capacity),
        slots.len() < capacity,
    ensures
        ({
            let after = entries_after_insert(entries, slots, capacity, key, value, slot);
            &&& entries.dom().subset_of(after.dom())
            &&& forall|k: K|
                entries.contains_key(k) && k != key ==> after.contains_key(k) && after[k]
                    == entries[k]
        }),
{
}

/// A new key adds one entry until the capacity is reached, and none after
/// that; a key that is already resident adds none.
pub proof fn lemma_len_after_insert<K, V>(
    entries: Map<K, V>,
    slots: Seq<K>,
    capacity: nat,
    key: K,
    value: V,
    slot: int,
)
    requires
        consistent(entries, slots, capacity),
        0 <= slot < capacity,
    ensures
        ({
            let after = entries_after_insert(entries, slots, capacity, key, value, slot);
            after.len() == if entries.contains_key(key) {
                entries.len()
            } else if entries.len() < capacity {
                entries.len() + 1
            } else {
                capacity
            }
        }),
{
    lemma_insert_keeps_consistent(entries, slots, capacity, key, value, slot);
    lemma_len_bounded(entries, slots, capacity);
    lemma_len_bounded(
        entries_after_insert(entries, slots, capacity, key, value, slot),
        slots_after_insert(slots, capacity, key, slot),
        capacity,
    );
}

} // verus!
