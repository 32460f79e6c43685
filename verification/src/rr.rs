//! The random-replacement cache.

use crate::rng::random_index;
use rand::rngs::ThreadRng;
use std::collections::HashMap;
use std::hash::Hash;
use vstd::prelude::*;
use vstd::std_specs::hash::obeys_key_model;

verus! {

/// What a cache must satisfy at all times, stated of its three parts: the
/// capacity is positive and bounds the number of slots, no key occupies two
/// slots, and the keys that have a value are exactly the keys in the slots.
pub open spec fn consistent<K, V>(entries: Map<K, V>, slots: Seq<K>, capacity: nat) -> bool {
    &&& 0 < capacity
    &&& slots.len() <= capacity
    &&& slots.no_duplicates()
    &&& entries.dom() =~= slots.to_set()
}

/// The slots after `key` was inserted, where `slot` is the index drawn for
/// the case that a resident key has to leave. A resident `key` keeps its
/// slot; below capacity a new key takes the next free slot; in a full cache
/// it takes over `slot`.
pub open spec fn slots_after_insert<K>(slots: Seq<K>, capacity: nat, key: K, slot: int) -> Seq<K> {
    if slots.contains(key) {
        slots
    } else if slots.len() < capacity {
        slots.push(key)
    } else {
        slots.update(slot, key)
    }
}

/// The entries after `key` was inserted with `value`, where `slot` is the
/// index drawn for the case that a resident key has to leave: only then, in
/// a full cache that does not hold `key`, the key in `slot` loses its entry.
pub open spec fn entries_after_insert<K, V>(
    entries: Map<K, V>,
    slots: Seq<K>,
    capacity: nat,
    key: K,
    value: V,
    slot: int,
) -> Map<K, V> {
    if slots.contains(key) || slots.len() < capacity {
        entries.insert(key, value)
    } else {
        entries.remove(slots[slot]).insert(key, value)
    }
}

/// Why a cache could not be made.
#[derive(Clone, Copy, Debug, PartialEq, Eq, Structural)]
pub enum CacheError {
    /// The capacity asked for was zero: such a cache could never hold an
    /// entry.
    ZeroCapacity,
}

/// A cache of at most `capacity` entries that makes room for a new key by
/// discarding a resident entry picked at random.
pub struct RRCache<K: Copy + Eq + Hash, V> {
    capacity: usize,
    map: HashMap<K, V>,
    vec: Vec<K>,
    rng: ThreadRng,
}

impl<K: Copy + Eq + Hash, V> RRCache<K, V> {
    /// The largest number of entries that the cache holds at once.
    pub closed spec fn spec_capacity(&self) -> nat {
        self.capacity as nat
    }

    /// The resident entries: each resident key with its value.
    pub closed spec fn entries(&self) -> Map<K, V> {
        self.map@
    }

    /// The resident keys by slot: `slots()[i]` occupies slot `i`.
    pub closed spec fn slots(&self) -> Seq<K> {
        self.vec@
    }

    /// The cache's invariant. Every constructor establishes it and every
    /// method keeps it.
    pub open spec fn wf(&self) -> bool {
        &&& obeys_key_model::<K>()
        &&& consistent(self.entries(), self.slots(), self.spec_capacity())
    }

    /// An empty cache for up to `capacity` entries.
    pub fn new(capacity: usize) -> (cache: Self)
        requires
            obeys_key_model::<K>(),
            capacity > 0,
        ensures
            cache.wf(),
            cache.spec_capacity() == capacity,
            cache.entries() == Map::<K, V>::empty(),
            cache.slots() == Seq::<K>::empty(),
    {
        let cache = RRCache {
            capacity,
            map: HashMap::with_capacity(capacity),
            vec: Vec::with_capacity(capacity),
            rng: rand::thread_rng(),
        };
        assert(cache.vec@.to_set() =~= Set::<K>::empty());
        cache
    }

    /// An empty cache for up to `capacity` entries, or the reason why there
    /// is no such cache: a capacity of zero is turned down.
    pub fn try_new(capacity: usize) -> (made: Result<Self, CacheError>)
        requires
            obeys_key_model::<K>(),
        ensures
            capacity == 0 <==> made == Err::<Self, CacheError>(CacheError::ZeroCapacity),
            capacity > 0 <==> made is Ok,
            made matches Ok(cache) ==> {
                &&& cache.wf()
                &&& cache.spec_capacity() == capacity
                &&& cache.entries() == Map::<K, V>::empty()
                &&& cache.slots() == Seq::<K>::empty()
            },
    {
        if capacity == 0 {
            Err(CacheError::ZeroCapacity)
        } else {
            Ok(Self::new(capacity))
        }
    }

    /// The largest number of entries that the cache holds at once.
    pub fn capacity(&self) -> (capacity: usize)
        ensures
            capacity == self.spec_capacity(),
    {
        self.capacity
    }

    /// The number of resident entries.
    pub fn len(&self) -> (len: usize)
        requires
            self.wf(),
        ensures
            len == self.entries().len(),
            len == self.slots().len(),
            len <= self.spec_capacity(),
    {
        proof {
            self.vec@.unique_seq_to_set();
        }
        self.vec.len()
    }

    /// The resident keys in the order of their slots.
    pub fn keys(&self) -> (keys: &Vec<K>)
        ensures
            keys@ == self.slots(),
    {
        &self.vec
    }

    /// The value stored for `key`, if `key` is resident. The cache is left as
    /// it is.
    pub fn try_get(&self, key: &K) -> (found: Option<&V>)
        requires
            self.wf(),
        ensures
            match found {
                Some(value) => self.entries().contains_key(*key) && *value == self.entries()[*key],
                None => !self.entries().contains_key(*key),
            },
    {
        self.map.get(key)
    }

    /// Inserts `key` with `value`, with `slot` as the index that was drawn
    /// for an eviction. A resident `key` gets the new value and keeps its
    /// slot. A new key takes the next free slot while there is one; in a full
    /// cache the key in `slot` leaves with its value, and the new key takes
    /// its place.
    pub fn insert_at(&mut self, slot: usize, key: K, value: V)
        requires
            old(self).wf(),
            slot < old(self).spec_capacity(),
        ensures
            final(self).wf(),
            final(self).spec_capacity() == old(self).spec_capacity(),
            final(self).slots() == slots_after_insert(
                old(self).slots(),
                old(self).spec_capacity(),
                key,
                slot as int,
            ),
            final(self).entries() == entries_after_insert(
                old(self).entries(),
                old(self).slots(),
                old(self).spec_capacity(),
                key,
                value,
                slot as int,
            ),
    {
        proof {
            lemma_insert_keeps_consistent(
                self.map@,
                self.vec@,
                self.capacity as nat,
                key,
                value,
                slot as int,
            );
        }
        if !self.map.contains_key(&key) {
            if self.vec.len() < self.capacity {
                self.vec.push(key);
            } else {
                let victim = self.vec[slot];
                self.map.remove(&victim);
                self.vec[slot] = key;
            }
        }
        self.map.insert(key, value);
    }

    /// Inserts `key` with `value`. A new key takes the next free slot while
    /// there is one; in a full cache one resident key, drawn at random, leaves
    /// with its value, and the new key takes its slot. Inserting a key that is
    /// already resident overwrites its value, moves no key and evicts nothing.
    ///
    /// Which key leaves a full cache is not fixed: the contract says that the
    /// outcome is that of `insert_at` for some slot below the capacity.
    pub fn insert(&mut self, key: K, value: V)
        requires
            old(self).wf(),
        ensures
            final(self).wf(),
            final(self).spec_capacity() == old(self).spec_capacity(),
            final(self).entries().contains_key(key),
            final(self).entries()[key] == value,
            exists|slot: int|
                0 <= slot < old(self).spec_capacity() && final(self).slots() == slots_after_insert(
                    old(self).slots(),
                    old(self).spec_capacity(),
                    key,
                    slot,
                ) && final(self).entries() == #[trigger] entries_after_insert(
                    old(self).entries(),
                    old(self).slots(),
                    old(self).spec_capacity(),
                    key,
                    value,
                    slot,
                ),
    {
        let slot: usize = if self.vec.len() < self.capacity || self.map.contains_key(&key) {
            0
        } else {
            random_index(&mut self.rng, self.capacity)
        };
        self.insert_at(slot, key, value);
    }
}

/// Inserting keeps a consistent cache consistent, whichever slot was drawn.
pub proof fn lemma_insert_keeps_consistent<K, V>(
    entries: Map<K, V>,
    slots: Seq<K>,
    capacity: nat,
    key: K,
    value: V,
    slot: int,
)
    requires
        consistent(entries, slots, capacity),
        0 <= slot < capacity,
    ensures
        consistent(
            entries_after_insert(entries, slots, capacity, key, value, slot),
            slots_after_insert(slots, capacity, key, slot),
            capacity,
        ),
        slots.contains(key) <==> entries.contains_key(key),
{
    let after = slots_after_insert(slots, capacity, key, slot);
    let entries_after = entries_after_insert(entries, slots, capacity, key, value, slot);
    assert(slots.contains(key) <==> slots.to_set().contains(key));
    assert(forall|k: K| after.to_set().contains(k) <==> after.contains(k));
    assert(forall|k: K| slots.to_set().contains(k) <==> slots.contains(k));
    if slots.contains(key) {
        assert(entries_after.dom() =~= after.to_set());
    } else if slots.len() < capacity {
        assert(after.no_duplicates());
        assert forall|k: K| after.contains(k) <==> (slots.contains(k) || k == key) by {
            if after.contains(k) {
                let i = choose|i: int| 0 <= i < after.len() && after[i] == k;
                if i < slots.len() {
                    assert(slots[i] == k);
                }
            }
            if slots.contains(k) {
                let i = choose|i: int| 0 <= i < slots.len() && slots[i] == k;
                assert(after[i] == k);
            }
            if k == key {
                assert(after[slots.len() as int] == k);
            }
        }
        assert(entries_after.dom() =~= after.to_set());
    } else {
        let victim = slots[slot];
        assert(after.no_duplicates());
        assert forall|k: K| after.contains(k) <==> ((slots.contains(k) && k != victim) || k
            == key) by {
            if after.contains(k) {
                let i = choose|i: int| 0 <= i < after.len() && after[i] == k;
                if i != slot {
                    assert(slots[i] == k);
                }
            }
            if slots.contains(k) && k != victim {
                let i = choose|i: int| 0 <= i < slots.len() && slots[i] == k;
                assert(after[i] == k);
            }
            if k == key {
                assert(after[slot] == k);
            }
        }
        assert(entries_after.dom() =~= after.to_set());
    }
}

} // verus!
