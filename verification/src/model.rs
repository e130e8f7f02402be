//! The mathematical model of the table: slot states, the probe sequence,
//! the outcome of each scan, and the invariants the operations maintain.

use vstd::arithmetic::div_mod::lemma_add_mod_noop;
use vstd::arithmetic::div_mod::lemma_mod_bound;
use vstd::arithmetic::div_mod::lemma_mod_sub_multiples_vanish;
use vstd::arithmetic::div_mod::lemma_small_mod;
use vstd::prelude::*;

verus! {

/// One position of the table: never yet used, tombstoned, or holding a live
/// entry. A slot that leaves `Vacant` never returns to it.
#[derive(Clone, Copy, Debug)]
pub enum Slot {
    Vacant,
    Deleted,
    Occupied { key: u8, value: u8 },
}

/// The position a key hashes to before any probing: the identity hash,
/// reduced modulo the capacity.
pub open spec fn home(cap: int, key: u8) -> int {
    (key as int) % cap
}

/// The position visited at step `i` of a key's probe sequence.
pub open spec fn probe_pos(cap: int, key: u8, i: int) -> int {
    (home(cap, key) + i) % cap
}

/// The probe step at which a key's sequence visits position `j`.
pub open spec fn probe_dist(cap: int, key: u8, j: int) -> int {
    if j >= home(cap, key) {
        j - home(cap, key)
    } else {
        j + cap - home(cap, key)
    }
}

/// How many slots of `slots` hold a live entry.
pub open spec fn count_occupied(slots: Seq<Slot>) -> nat
    decreases slots.len(),
{
    if slots.len() == 0 {
        0
    } else {
        count_occupied(slots.drop_last()) + (if slots.last() is Occupied {
            1nat
        } else {
            0nat
        })
    }
}

/// The probe step at which an insertion of `key` would stop, scanning from
/// step `i`: the first step whose slot is `Vacant`, `Deleted`, or `Occupied`
/// by `key` itself. `None` when a whole round finds only other keys.
pub open spec fn insert_step_from(slots: Seq<Slot>, key: u8, i: int) -> Option<int>
    decreases slots.len() - i,
{
    if i < 0 || i >= slots.len() {
        None
    } else {
        match slots[probe_pos(slots.len() as int, key, i)] {
            Slot::Vacant => Some(i),
            Slot::Deleted => Some(i),
            Slot::Occupied { key: k, value: _ } => if k == key {
                Some(i)
            } else {
                insert_step_from(slots, key, i + 1)
            },
        }
    }
}

pub open spec fn insert_step(slots: Seq<Slot>, key: u8) -> Option<int> {
    insert_step_from(slots, key, 0)
}

/// The probe step at which a lookup or removal of `key` finds its live entry,
/// scanning from step `i`. A `Vacant` slot ends the scan with `None`;
/// `Deleted` and foreign `Occupied` slots are stepped over; `None` also
/// results when a whole round finds no match.
pub open spec fn search_step_from(slots: Seq<Slot>, key: u8, i: int) -> Option<int>
    decreases slots.len() - i,
{
    if i < 0 || i >= slots.len() {
        None
    } else {
        match slots[probe_pos(slots.len() as int, key, i)] {
            Slot::Vacant => None,
            Slot::Deleted => search_step_from(slots, key, i + 1),
            Slot::Occupied { key: k, value: _ } => if k == key {
                Some(i)
            } else {
                search_step_from(slots, key, i + 1)
            },
        }
    }
}

pub open spec fn search_step(slots: Seq<Slot>, key: u8) -> Option<int> {
    search_step_from(slots, key, 0)
}

/// What a lookup of `key` returns.
pub open spec fn spec_get(slots: Seq<Slot>, key: u8) -> Option<u8> {
    match search_step(slots, key) {
        Some(d) => Some(slots[probe_pos(slots.len() as int, key, d)]->value),
        None => None,
    }
}

/// The slots after an insertion of `key` with `value`: the slot where the
/// scan stopped is overwritten with the new entry, and a table with no
/// reachable open or matching slot is left unchanged.
pub open spec fn spec_insert(slots: Seq<Slot>, key: u8, value: u8) -> Seq<Slot> {
    match insert_step(slots, key) {
        Some(d) => slots.update(
            probe_pos(slots.len() as int, key, d),
            Slot::Occupied { key, value },
        ),
        None => slots,
    }
}

/// What an insertion of `key` reports: the previous value when the scan
/// stopped on a slot already occupied by `key`, and `None` otherwise —
/// also when the table was full and nothing was written.
pub open spec fn spec_insert_prev(slots: Seq<Slot>, key: u8) -> Option<u8> {
    match insert_step(slots, key) {
        Some(d) => if slots[probe_pos(slots.len() as int, key, d)] is Occupied {
            Some(slots[probe_pos(slots.len() as int, key, d)]->value)
        } else {
            None
        },
        None => None,
    }
}

/// The slots after a removal of `key`: the found entry becomes a tombstone,
/// never `Vacant` again; an unsuccessful removal changes nothing.
pub open spec fn spec_remove(slots: Seq<Slot>, key: u8) -> Seq<Slot> {
    match search_step(slots, key) {
        Some(d) => slots.update(probe_pos(slots.len() as int, key, d), Slot::Deleted),
        None => slots,
    }
}

/// Whether an insertion scan for `key` steps over this slot.
pub open spec fn passes_insert(s: Slot, key: u8) -> bool {
    s matches Slot::Occupied { key: k, value: _ } && k != key
}

/// Whether a lookup or removal scan for `key` steps over this slot.
pub open spec fn passes_search(s: Slot, key: u8) -> bool {
    s is Deleted || (s matches Slot::Occupied { key: k, value: _ } && k != key)
}

/// Whether this slot holds the live entry for `key`.
pub open spec fn holds_key(s: Slot, key: u8) -> bool {
    s matches Slot::Occupied { key: k, value: _ } && k == key
}

/// The probe-chain invariant: the probe prefix leading to any occupied slot
/// crosses no `Vacant` slot, so a scan for that slot's key can never be cut
/// short before reaching it.
pub open spec fn chain_inv(slots: Seq<Slot>) -> bool {
    forall|j: int, i: int|
        0 <= j < slots.len() && slots[j] is Occupied && 0 <= i < probe_dist(
            slots.len() as int,
            slots[j]->key,
            j,
        ) ==> !(slots[#[trigger] probe_pos(slots.len() as int, slots[j]->key, i)] is Vacant)
}

pub proof fn lemma_probe_pos_explicit(cap: int, key: u8, i: int)
    requires
        0 < cap,
        0 <= i < cap,
    ensures
        0 <= home(cap, key) < cap,
        probe_pos(cap, key, i) == if home(cap, key) + i < cap {
            home(cap, key) + i
        } else {
            home(cap, key) + i - cap
        },
        0 <= probe_pos(cap, key, i) < cap,
{
    lemma_mod_bound(key as int, cap);
    let h = home(cap, key);
    if h + i < cap {
        lemma_small_mod((h + i) as nat, cap as nat);
    } else {
        lemma_mod_sub_multiples_vanish(h + i, cap);
        lemma_small_mod((h + i - cap) as nat, cap as nat);
    }
}

pub proof fn lemma_probe_pos_step(cap: int, key: u8, i: int)
    requires
        0 < cap,
        i >= 0,
    ensures
        probe_pos(cap, key, i + 1) == (probe_pos(cap, key, i) + 1) % cap,
{
    let h = home(cap, key);
    if cap == 1 {
        lemma_mod_bound(h + i, 1);
        lemma_mod_bound(h + i + 1, 1);
        lemma_mod_bound(probe_pos(cap, key, i) + 1, 1);
    } else {
        lemma_small_mod(1, cap as nat);
        lemma_add_mod_noop(h + i, 1, cap);
    }
}

/// Within one round of the table, distinct probe steps visit distinct slots.
pub proof fn lemma_probe_pos_injective(cap: int, key: u8, i: int, j: int)
    requires
        0 < cap,
        0 <= i < cap,
        0 <= j < cap,
        i != j,
    ensures
        probe_pos(cap, key, i) != probe_pos(cap, key, j),
{
    lemma_probe_pos_explicit(cap, key, i);
    lemma_probe_pos_explicit(cap, key, j);
}

pub proof fn lemma_probe_dist(cap: int, key: u8, j: int)
    requires
        0 < cap,
        0 <= j < cap,
    ensures
        0 <= probe_dist(cap, key, j) < cap,
        probe_pos(cap, key, probe_dist(cap, key, j)) == j,
{
    lemma_mod_bound(key as int, cap);
    lemma_probe_pos_explicit(cap, key, probe_dist(cap, key, j));
}

pub proof fn lemma_probe_dist_inverse(cap: int, key: u8, i: int)
    requires
        0 < cap,
        0 <= i < cap,
    ensures
        probe_dist(cap, key, probe_pos(cap, key, i)) == i,
{
    lemma_probe_pos_explicit(cap, key, i);
}

pub proof fn lemma_count_le_len(slots: Seq<Slot>)
    ensures
        count_occupied(slots) <= slots.len(),
    decreases slots.len(),
{
    if slots.len() > 0 {
        lemma_count_le_len(slots.drop_last());
    }
}

pub proof fn lemma_count_none_occupied(slots: Seq<Slot>)
    requires
        forall|j: int| 0 <= j < slots.len() ==> !((#[trigger] slots[j]) is Occupied),
    ensures
        count_occupied(slots) == 0,
    decreases slots.len(),
{
    if slots.len() > 0 {
        assert forall|j: int| 0 <= j < slots.drop_last().len() implies !((#[trigger] slots.drop_last()[j])
            is Occupied) by {
            assert(slots.drop_last()[j] == slots[j]);
        }
        lemma_count_none_occupied(slots.drop_last());
    }
}

pub proof fn lemma_count_update(slots: Seq<Slot>, p: int, v: Slot)
    requires
        0 <= p < slots.len(),
    ensures
        count_occupied(slots.update(p, v)) as int == count_occupied(slots) as int - (
        if slots[p] is Occupied {
            1int
        } else {
            0int
        }) + (if v is Occupied {
            1int
        } else {
            0int
        }),
    decreases slots.len(),
{
    let s2 = slots.update(p, v);
    if p == slots.len() - 1 {
        assert(s2.drop_last() =~= slots.drop_last());
    } else {
        assert(s2.drop_last() =~= slots.drop_last().update(p, v));
        assert(slots.drop_last()[p] == slots[p]);
        lemma_count_update(slots.drop_last(), p, v);
    }
}

pub proof fn lemma_count_occupied_at(slots: Seq<Slot>, p: int)
    requires
        0 <= p < slots.len(),
        slots[p] is Occupied,
    ensures
        count_occupied(slots) >= 1,
    decreases slots.len(),
{
    if p < slots.len() - 1 {
        assert(slots.drop_last()[p] == slots[p]);
        lemma_count_occupied_at(slots.drop_last(), p);
    }
}

pub proof fn lemma_count_missing_at(slots: Seq<Slot>, p: int)
    requires
        0 <= p < slots.len(),
        !(slots[p] is Occupied),
    ensures
        count_occupied(slots) < slots.len(),
    decreases slots.len(),
{
    lemma_count_le_len(slots.drop_last());
    if p < slots.len() - 1 {
        assert(slots.drop_last()[p] == slots[p]);
        lemma_count_missing_at(slots.drop_last(), p);
    }
}

/// A successful insertion scan stepped over nothing but foreign occupied
/// slots, and stopped on a slot that is open or holds `key` itself.
pub proof fn lemma_insert_step_from_some(slots: Seq<Slot>, key: u8, i: int, d: int)
    requires
        0 <= i,
        insert_step_from(slots, key, i) == Some(d),
    ensures
        i <= d < slots.len(),
        forall|q: int|
            i <= q < d ==> passes_insert(
                slots[#[trigger] probe_pos(slots.len() as int, key, q)],
                key,
            ),
        slots[probe_pos(slots.len() as int, key, d)] is Occupied ==> holds_key(
            slots[probe_pos(slots.len() as int, key, d)],
            key,
        ),
    decreases slots.len() - i,
{
    let cap = slots.len() as int;
    match slots[probe_pos(cap, key, i)] {
        Slot::Vacant => {}
        Slot::Deleted => {}
        Slot::Occupied { key: k, value: _ } => {
            if k != key {
                lemma_insert_step_from_some(slots, key, i + 1, d);
            }
        }
    }
}

/// An exhausted insertion scan saw a foreign occupied slot at every step.
pub proof fn lemma_insert_step_from_none(slots: Seq<Slot>, key: u8, i: int)
    requires
        0 <= i,
        insert_step_from(slots, key, i) is None,
    ensures
        forall|q: int|
            i <= q < slots.len() ==> passes_insert(
                slots[#[trigger] probe_pos(slots.len() as int, key, q)],
                key,
            ),
    decreases slots.len() - i,
{
    let cap = slots.len() as int;
    if i < slots.len() {
        match slots[probe_pos(cap, key, i)] {
            Slot::Vacant => {}
            Slot::Deleted => {}
            Slot::Occupied { key: k, value: _ } => {
                lemma_insert_step_from_none(slots, key, i + 1);
            }
        }
    }
}

/// A successful lookup scan stepped over tombstones and foreign occupied
/// slots only, and stopped on the live entry for `key`.
pub proof fn lemma_search_step_from_some(slots: Seq<Slot>, key: u8, i: int, d: int)
    requires
        0 <= i,
        search_step_from(slots, key, i) == Some(d),
    ensures
        i <= d < slots.len(),
        forall|q: int|
            i <= q < d ==> passes_search(
                slots[#[trigger] probe_pos(slots.len() as int, key, q)],
                key,
            ),
        holds_key(slots[probe_pos(slots.len() as int, key, d)], key),
    decreases slots.len() - i,
{
    let cap = slots.len() as int;
    match slots[probe_pos(cap, key, i)] {
        Slot::Vacant => {}
        Slot::Deleted => {
            lemma_search_step_from_some(slots, key, i + 1, d);
        }
        Slot::Occupied { key: k, value: _ } => {
            if k != key {
                lemma_search_step_from_some(slots, key, i + 1, d);
            }
        }
    }
}

/// A scan that steps over everything up to a live entry for `key` finds
/// exactly that entry.
pub proof fn lemma_search_step_exact(slots: Seq<Slot>, key: u8, i: int, d: int)
    requires
        0 <= i <= d < slots.len(),
        forall|q: int|
            i <= q < d ==> passes_search(
                slots[#[trigger] probe_pos(slots.len() as int, key, q)],
                key,
            ),
        holds_key(slots[probe_pos(slots.len() as int, key, d)], key),
    ensures
        search_step_from(slots, key, i) == Some(d),
    decreases d - i,
{
    if i < d {
        lemma_search_step_exact(slots, key, i + 1, d);
    }
}

/// A scan whose path to a live entry for `key` crosses no `Vacant` slot
/// finds some live entry for `key` (possibly an earlier one).
pub proof fn lemma_search_step_reaches(slots: Seq<Slot>, key: u8, i: int, d: int)
    requires
        0 <= i <= d < slots.len(),
        forall|q: int|
            i <= q < d ==> !(slots[#[trigger] probe_pos(slots.len() as int, key, q)] is Vacant),
        holds_key(slots[probe_pos(slots.len() as int, key, d)], key),
    ensures
        search_step_from(slots, key, i) is Some,
    decreases d - i,
{
    let cap = slots.len() as int;
    if i < d {
        match slots[probe_pos(cap, key, i)] {
            Slot::Vacant => {}
            Slot::Deleted => {
                lemma_search_step_reaches(slots, key, i + 1, d);
            }
            Slot::Occupied { key: k, value: _ } => {
                if k != key {
                    lemma_search_step_reaches(slots, key, i + 1, d);
                }
            }
        }
    }
}

/// A table holding no live entry for `key` anywhere makes every lookup of
/// `key` come back empty.
pub proof fn lemma_search_no_match(slots: Seq<Slot>, key: u8, i: int)
    requires
        0 <= i,
        forall|j: int| 0 <= j < slots.len() ==> !holds_key(#[trigger] slots[j], key),
    ensures
        search_step_from(slots, key, i) is None,
    decreases slots.len() - i,
{
    let cap = slots.len() as int;
    if i < slots.len() {
        lemma_mod_bound(home(cap, key) + i, cap);
        lemma_search_no_match(slots, key, i + 1);
    }
}

/// Overwriting one slot with a non-`Vacant` value keeps the probe-chain
/// invariant, provided a newly occupied slot gets a vacancy-free prefix of
/// its own.
pub proof fn lemma_chain_inv_update(slots: Seq<Slot>, p: int, v: Slot)
    requires
        chain_inv(slots),
        0 <= p < slots.len(),
        !(v is Vacant),
        v matches Slot::Occupied { key: k, value: _ } ==> forall|i: int|
            0 <= i < probe_dist(slots.len() as int, k, p) ==> !(slots[#[trigger] probe_pos(
                slots.len() as int,
                k,
                i,
            )] is Vacant),
    ensures
        chain_inv(slots.update(p, v)),
{
    let cap = slots.len() as int;
    let s2 = slots.update(p, v);
    assert forall|j: int, i: int|
        0 <= j < s2.len() && s2[j] is Occupied && 0 <= i < probe_dist(
            s2.len() as int,
            s2[j]->key,
            j,
        ) implies !(s2[#[trigger] probe_pos(s2.len() as int, s2[j]->key, i)] is Vacant) by {
        let k = s2[j]->key;
        let q = probe_pos(cap, k, i);
        lemma_mod_bound(home(cap, k) + i, cap);
        if j == p {
            assert(!(slots[q] is Vacant));
        } else {
            assert(s2[j] == slots[j]);
            assert(!(slots[probe_pos(cap, slots[j]->key, i)] is Vacant));
        }
        if q != p {
            assert(s2[q] == slots[q]);
        }
    }
}

} // verus!
