//! The probing map itself: a fixed-length slot array, a live-entry counter,
//! and the five operations on them.

use crate::model::chain_inv;
use crate::model::count_occupied;
use crate::model::home;
use crate::model::insert_step;
use crate::model::insert_step_from;
use crate::model::lemma_chain_inv_update;
use crate::model::lemma_count_le_len;
use crate::model::lemma_count_missing_at;
use crate::model::lemma_count_none_occupied;
use crate::model::lemma_count_occupied_at;
use crate::model::lemma_count_update;
use crate::model::lemma_probe_dist_inverse;
use crate::model::lemma_probe_pos_explicit;
use crate::model::lemma_probe_pos_step;
use crate::model::passes_insert;
use crate::model::probe_pos;
use crate::model::search_step;
use crate::model::search_step_from;
use crate::model::spec_get;
use crate::model::spec_insert;
use crate::model::spec_insert_prev;
use crate::model::spec_remove;
use crate::model::Slot;
use vstd::arithmetic::div_mod::lemma_mod_bound;
use vstd::prelude::*;

verus! {

/// A fixed-capacity map from byte keys to byte values, using open addressing
/// with linear probing and tombstone deletion. The capacity is set at
/// construction and never changes; tombstones are never reclaimed.
pub struct CustomHashMap {
    entries: Vec<Slot>,
    size: usize,
    capacity: usize,
}

impl View for CustomHashMap {
    type V = Seq<Slot>;

    closed spec fn view(&self) -> Seq<Slot> {
        self.entries@
    }
}

impl CustomHashMap {
    /// The representation invariant: a positive capacity matching the slot
    /// array's length, a counter equal to the number of occupied slots, and
    /// probe chains that cross no `Vacant` slot on the way to a live entry.
    pub closed spec fn wf(self) -> bool {
        &&& self.capacity > 0
        &&& self.entries@.len() == self.capacity
        &&& self.size as nat == count_occupied(self.entries@)
        &&& chain_inv(self.entries@)
    }

    /// Builds a map with `capacity` slots, all `Vacant`, holding no entries.
    /// A zero capacity would make the home position ill-defined, so it is
    /// ruled out here, before the map can be used.
    #[verifier::loop_isolation(false)]
    pub fn with_capacity(capacity: usize) -> (r: Self)
        requires
            capacity > 0,
        ensures
            r.wf(),
            r@.len() == capacity,
            forall|j: int| 0 <= j < capacity ==> (#[trigger] r@[j]) is Vacant,
            count_occupied(r@) == 0,
    {
        let mut entries: Vec<Slot> = Vec::new();
        let mut i: usize = 0;
        while i < capacity
            invariant
                i <= capacity,
                entries@.len() == i,
                forall|j: int| 0 <= j < i ==> (#[trigger] entries@[j]) is Vacant,
            decreases capacity - i,
        {
            entries.push(Slot::Vacant);
            i = i + 1;
        }
        proof {
            lemma_count_none_occupied(entries@);
        }
        CustomHashMap { entries, size: 0, capacity }
    }

    /// The home position of a key: the identity hash modulo the capacity.
    fn hash(&self, key: u8) -> (r: usize)
        requires
            self.capacity > 0,
        ensures
            r as int == home(self.capacity as int, key),
            r < self.capacity,
    {
        proof {
            lemma_mod_bound(key as int, self.capacity as int);
        }
        (key as usize) % self.capacity
    }

    /// Inserts a key-value pair into the map.
    ///
    /// The scan from the key's home position stops at the first `Vacant`,
    /// `Deleted`, or matching `Occupied` slot and writes the entry there. The
    /// previous value is returned when the slot already held this key, and
    /// `None` otherwise — a tombstone is reused without looking further along
    /// the chain for an existing entry, and a full table of foreign keys is
    /// left unchanged with `None` reported, indistinguishable from a fresh
    /// insertion. No slot ever returns to `Vacant`.
    #[verifier::loop_isolation(false)]
    pub fn insert(&mut self, key: u8, value: u8) -> (r: Option<u8>)
        requires
            old(self).wf(),
        ensures
            final(self).wf(),
            final(self)@ == spec_insert(old(self)@, key, value),
            r == spec_insert_prev(old(self)@, key),
            count_occupied(final(self)@) as int == count_occupied(old(self)@) as int + (
            if insert_step(old(self)@, key) is Some && spec_insert_prev(old(self)@, key) is None {
                1int
            } else {
                0int
            }),
            forall|j: int|
                0 <= j < old(self)@.len() && !((#[trigger] old(self)@[j]) is Vacant)
                    ==> !(final(self)@[j] is Vacant),
    {
        let ghost slots = self.entries@;
        let cap = self.capacity;
        let mut p: usize = self.hash(key);
        let mut i: usize = 0;
        proof {
            lemma_probe_pos_explicit(cap as int, key, 0);
        }
        while i < cap
            invariant
                self.entries@ == slots,
                self.size == old(self).size,
                self.capacity == old(self).capacity,
                i <= cap,
                p as int == probe_pos(cap as int, key, i as int),
                p < cap,
                forall|q: int|
                    0 <= q < i ==> passes_insert(
                        slots[#[trigger] probe_pos(cap as int, key, q)],
                        key,
                    ),
                insert_step_from(slots, key, i as int) == insert_step(slots, key),
            decreases cap - i,
        {
            let slot = self.entries[p];
            match slot {
                Slot::Vacant | Slot::Deleted => {
                    proof {
                        assert(insert_step(slots, key) == Some(i as int));
                        lemma_count_missing_at(slots, p as int);
                        lemma_probe_dist_inverse(cap as int, key, i as int);
                    }
                    self.entries.set(p, Slot::Occupied { key, value });
                    self.size = self.size + 1;
                    proof {
                        lemma_count_update(slots, p as int, (Slot::Occupied { key, value }));
                        lemma_chain_inv_update(slots, p as int, (Slot::Occupied { key, value }));
                    }
                    return None;
                }
                Slot::Occupied { key: k, value: v0 } => {
                    if k == key {
                        proof {
                            assert(insert_step(slots, key) == Some(i as int));
                            lemma_probe_dist_inverse(cap as int, key, i as int);
                        }
                        self.entries.set(p, Slot::Occupied { key, value });
                        proof {
                            lemma_count_update(slots, p as int, (Slot::Occupied { key, value }));
                            lemma_chain_inv_update(slots, p as int, (Slot::Occupied { key, value }));
                        }
                        return Some(v0);
                    }
                }
            }
            proof {
                lemma_probe_pos_step(cap as int, key, i as int);
                lemma_mod_bound(p as int + 1, cap as int);
            }
            i = i + 1;
            p = (p + 1) % cap;
        }
        assert(insert_step_from(slots, key, cap as int) is None);
        None
    }

    /// Returns a reference to the value corresponding to the key.
    ///
    /// The scan from the key's home position steps over tombstones and
    /// foreign entries; the first `Vacant` slot, or a whole round without a
    /// match, means the key is absent. The map is not changed.
    #[verifier::loop_isolation(false)]
    pub fn get(&self, key: u8) -> (r: Option<&u8>)
        requires
            self.wf(),
        ensures
            match r {
                Some(v) => spec_get(self@, key) == Some(*v),
                None => spec_get(self@, key) is None,
            },
    {
        let cap = self.capacity;
        let mut p: usize = self.hash(key);
        let mut i: usize = 0;
        proof {
            lemma_probe_pos_explicit(cap as int, key, 0);
        }
        while i < cap
            invariant
                i <= cap,
                p as int == probe_pos(cap as int, key, i as int),
                p < cap,
                search_step_from(self.entries@, key, i as int) == search_step(self.entries@, key),
            decreases cap - i,
        {
            match &self.entries[p] {
                Slot::Vacant => {
                    return None;
                }
                Slot::Deleted => {}
                Slot::Occupied { key: k, value: v } => {
                    if *k == key {
                        return Some(v);
                    }
                }
            }
            proof {
                lemma_probe_pos_step(cap as int, key, i as int);
                lemma_mod_bound(p as int + 1, cap as int);
            }
            i = i + 1;
            p = (p + 1) % cap;
        }
        assert(search_step_from(self.entries@, key, cap as int) is None);
        None
    }

    /// Removes a key from the map, returning the value at the key if the key
    /// was previously in the map.
    ///
    /// The scan is the same as `get`'s; a found entry becomes a tombstone,
    /// which keeps the slot non-`Vacant` so that probe chains running through
    /// it stay intact. Tombstones accumulate for the life of the map.
    #[verifier::loop_isolation(false)]
    pub fn remove(&mut self, key: u8) -> (r: Option<u8>)
        requires
            old(self).wf(),
        ensures
            final(self).wf(),
            final(self)@ == spec_remove(old(self)@, key),
            r == spec_get(old(self)@, key),
            count_occupied(final(self)@) as int == count_occupied(old(self)@) as int - (
            if spec_get(old(self)@, key) is Some {
                1int
            } else {
                0int
            }),
            forall|j: int|
                0 <= j < old(self)@.len() && !((#[trigger] old(self)@[j]) is Vacant)
                    ==> !(final(self)@[j] is Vacant),
    {
        let ghost slots = self.entries@;
        let cap = self.capacity;
        let mut p: usize = self.hash(key);
        let mut i: usize = 0;
        proof {
            lemma_probe_pos_explicit(cap as int, key, 0);
        }
        while i < cap
            invariant
                self.entries@ == slots,
                self.size == old(self).size,
                self.capacity == old(self).capacity,
                i <= cap,
                p as int == probe_pos(cap as int, key, i as int),
                p < cap,
                search_step_from(slots, key, i as int) == search_step(slots, key),
            decreases cap - i,
        {
            let slot = self.entries[p];
            match slot {
                Slot::Vacant => {
                    return None;
                }
                Slot::Deleted => {}
                Slot::Occupied { key: k, value: v } => {
                    if k == key {
                        proof {
                            assert(search_step(slots, key) == Some(i as int));
                            lemma_count_occupied_at(slots, p as int);
                        }
                        self.entries.set(p, Slot::Deleted);
                        self.size = self.size - 1;
                        proof {
                            lemma_count_update(slots, p as int, Slot::Deleted);
                            lemma_chain_inv_update(slots, p as int, Slot::Deleted);
                        }
                        return Some(v);
                    }
                }
            }
            proof {
                lemma_probe_pos_step(cap as int, key, i as int);
                lemma_mod_bound(p as int + 1, cap as int);
            }
            i = i + 1;
            p = (p + 1) % cap;
        }
        assert(search_step_from(slots, key, cap as int) is None);
        None
    }

    /// Returns the number of elements in the map: always the count of
    /// occupied slots, never more than the capacity.
    pub fn len(&self) -> (r: usize)
        requires
            self.wf(),
        ensures
            r as nat == count_occupied(self@),
            r as nat <= self@.len(),
    {
        proof {
            lemma_count_le_len(self.entries@);
        }
        self.size
    }

    /// Returns `true` if the map contains no elements.
    pub fn is_empty(&self) -> (r: bool)
        requires
            self.wf(),
        ensures
            r == (count_occupied(self@) == 0),
    {
        self.size == 0
    }
}

impl Default for CustomHashMap {
    /// Builds a map with the default capacity of eight slots.
    fn default() -> (r: Self)
        ensures
            r.wf(),
            r@.len() == 8,
            forall|j: int| 0 <= j < 8 ==> (#[trigger] r@[j]) is Vacant,
            count_occupied(r@) == 0,
    {
        Self::with_capacity(8)
    }
}

} // verus!
