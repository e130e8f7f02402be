//! Laws the operations obey across calls, stated over the model and proved
//! once for every table state. Each exec operation's contract equates its
//! effect with the model functions these laws speak about, so a law about
//! `spec_insert` and `spec_get` is a law about `insert` followed by `get`.

use crate::model::chain_inv;
use crate::model::count_occupied;
use crate::model::holds_key;
use crate::model::home;
use crate::model::insert_step;
use crate::model::lemma_count_update;
use crate::model::lemma_insert_step_from_none;
use crate::model::lemma_insert_step_from_some;
use crate::model::lemma_probe_dist;
use crate::model::lemma_probe_pos_explicit;
use crate::model::lemma_probe_pos_injective;
use crate::model::lemma_search_no_match;
use crate::model::lemma_search_step_exact;
use crate::model::lemma_search_step_from_some;
use crate::model::lemma_search_step_reaches;
use crate::model::passes_search;
use crate::model::probe_dist;
use crate::model::probe_pos;
use crate::model::search_step;
use crate::model::search_step_from;
use crate::model::spec_get;
use crate::model::spec_insert;
use crate::model::spec_insert_prev;
use crate::model::spec_remove;
use crate::model::Slot;
use vstd::arithmetic::div_mod::lemma_mod_bound;
use vstd::prelude::*;

verus! {

/// Round-trip law: inserting a key that is absent, when the scan finds a slot
/// to write, reports no previous value, and an immediately following lookup
/// of that key returns the value just inserted.
pub proof fn lemma_insert_then_get(slots: Seq<Slot>, key: u8, value: u8)
    requires
        slots.len() > 0,
        spec_get(slots, key) is None,
        insert_step(slots, key) is Some,
    ensures
        spec_insert_prev(slots, key) is None,
        spec_get(spec_insert(slots, key, value), key) == Some(value),
{
    let cap = slots.len() as int;
    let d = insert_step(slots, key)->0;
    lemma_insert_step_from_some(slots, key, 0, d);
    let p = probe_pos(cap, key, d);
    lemma_probe_pos_explicit(cap, key, d);
    if slots[p] is Occupied {
        lemma_search_step_exact(slots, key, 0, d);
        assert(false);
    }
    let s2 = spec_insert(slots, key, value);
    assert forall|q: int| 0 <= q < d implies passes_search(
        s2[#[trigger] probe_pos(cap, key, q)],
        key,
    ) by {
        lemma_probe_pos_explicit(cap, key, q);
        lemma_probe_pos_injective(cap, key, q, d);
    }
    lemma_search_step_exact(s2, key, 0, d);
}

/// Update law: re-inserting a key whose live entry is reached before any
/// vacancy or tombstone reports the prior value — which is what a lookup
/// would have returned — and afterwards a lookup sees the new value while
/// the number of live entries is unchanged. (When a tombstone sits in front
/// of the entry, the insertion reuses the tombstone instead; this law does
/// not speak about that case.)
pub proof fn lemma_reinsert_updates_in_place(slots: Seq<Slot>, key: u8, value: u8)
    requires
        slots.len() > 0,
        insert_step(slots, key) is Some,
        slots[probe_pos(slots.len() as int, key, insert_step(slots, key)->0)] is Occupied,
    ensures
        spec_get(slots, key) is Some,
        spec_insert_prev(slots, key) == spec_get(slots, key),
        spec_get(spec_insert(slots, key, value), key) == Some(value),
        count_occupied(spec_insert(slots, key, value)) == count_occupied(slots),
{
    let cap = slots.len() as int;
    let d = insert_step(slots, key)->0;
    let p = probe_pos(cap, key, d);
    lemma_insert_step_from_some(slots, key, 0, d);
    lemma_probe_pos_explicit(cap, key, d);
    lemma_search_step_exact(slots, key, 0, d);
    let s2 = spec_insert(slots, key, value);
    lemma_count_update(slots, p, (Slot::Occupied { key, value }));
    assert forall|q: int| 0 <= q < d implies passes_search(
        s2[#[trigger] probe_pos(cap, key, q)],
        key,
    ) by {
        lemma_probe_pos_explicit(cap, key, q);
        lemma_probe_pos_injective(cap, key, q, d);
    }
    lemma_search_step_exact(s2, key, 0, d);
}

/// Deletion law: removing a key that has exactly one live entry leaves
/// exactly one fewer live entry, a following lookup of that key comes back
/// empty, and every other key's lookup is unchanged — entries sharing the
/// probe chain stay retrievable, because the slot becomes a tombstone rather
/// than a vacancy. (With duplicate live entries for one key — see the
/// tombstone-reuse behaviour of insertion — only the first is removed and a
/// lookup would still find the other; such tables are excluded here.)
pub proof fn lemma_remove_then_get(slots: Seq<Slot>, key: u8)
    requires
        slots.len() > 0,
        spec_get(slots, key) is Some,
        forall|j1: int, j2: int|
            0 <= j1 < slots.len() && 0 <= j2 < slots.len() && holds_key(#[trigger] slots[j1], key)
                && holds_key(#[trigger] slots[j2], key) ==> j1 == j2,
    ensures
        count_occupied(spec_remove(slots, key)) as int == count_occupied(slots) as int - 1,
        spec_get(spec_remove(slots, key), key) is None,
        forall|k2: u8| k2 != key ==> spec_get(spec_remove(slots, key), k2) == spec_get(slots, k2),
{
    let cap = slots.len() as int;
    let d = search_step(slots, key)->0;
    lemma_search_step_from_some(slots, key, 0, d);
    let p = probe_pos(cap, key, d);
    lemma_probe_pos_explicit(cap, key, d);
    let s2 = spec_remove(slots, key);
    lemma_count_update(slots, p, Slot::Deleted);
    assert forall|j: int| 0 <= j < s2.len() implies !holds_key(#[trigger] s2[j], key) by {
        if j != p {
            assert(s2[j] == slots[j]);
        }
    }
    lemma_search_no_match(s2, key, 0);
    assert forall|k2: u8| k2 != key implies spec_get(s2, k2) == spec_get(slots, k2) by {
        lemma_search_update_to_deleted(slots, p, k2, 0);
        if search_step(slots, k2) is Some {
            let dd = search_step(slots, k2)->0;
            lemma_search_step_from_some(slots, k2, 0, dd);
            lemma_search_step_from_some(s2, k2, 0, dd);
            let pp = probe_pos(cap, k2, dd);
            assert(pp != p);
        }
    }
}

/// Full-table law: when a whole probe round from a key's home position finds
/// only live entries for other keys, that key is absent, and inserting it
/// changes nothing and reports no previous value — indistinguishable, to the
/// caller, from a fresh insertion that succeeded.
pub proof fn lemma_full_table_insert_noop(slots: Seq<Slot>, key: u8, value: u8)
    requires
        slots.len() > 0,
        insert_step(slots, key) is None,
    ensures
        spec_insert(slots, key, value) == slots,
        spec_insert_prev(slots, key) is None,
        spec_get(slots, key) is None,
{
    let cap = slots.len() as int;
    lemma_insert_step_from_none(slots, key, 0);
    assert forall|j: int| 0 <= j < slots.len() implies !holds_key(#[trigger] slots[j], key) by {
        lemma_probe_dist(cap, key, j);
        assert(slots[probe_pos(cap, key, probe_dist(cap, key, j))] == slots[j]);
    }
    lemma_search_no_match(slots, key, 0);
}

/// Liveness law: in a table satisfying the probe-chain invariant — which
/// every table built and modified through the operations does — every key
/// with a live entry somewhere in the table is found by a lookup: its probe
/// chain crosses no `Vacant` slot, however many inserts and removals came
/// before.
pub proof fn lemma_occupied_key_found(slots: Seq<Slot>, j: int)
    requires
        chain_inv(slots),
        0 <= j < slots.len(),
        slots[j] is Occupied,
    ensures
        spec_get(slots, slots[j]->key) is Some,
{
    let cap = slots.len() as int;
    let key = slots[j]->key;
    let d = probe_dist(cap, key, j);
    lemma_probe_dist(cap, key, j);
    lemma_search_step_reaches(slots, key, 0, d);
}

/// Turning one foreign live entry into a tombstone changes no step of the
/// scan for another key.
proof fn lemma_search_update_to_deleted(slots: Seq<Slot>, p: int, k2: u8, i: int)
    requires
        0 <= i,
        0 <= p < slots.len(),
        slots[p] is Occupied,
        !holds_key(slots[p], k2),
    ensures
        search_step_from(slots.update(p, Slot::Deleted), k2, i) == search_step_from(
            slots,
            k2,
            i,
        ),
    decreases slots.len() - i,
{
    let cap = slots.len() as int;
    let s2 = slots.update(p, Slot::Deleted);
    if i < slots.len() {
        let q = probe_pos(cap, k2, i);
        lemma_mod_bound(home(cap, k2) + i, cap);
        if q == p {
            lemma_search_update_to_deleted(slots, p, k2, i + 1);
        } else {
            assert(s2[q] == slots[q]);
            match slots[q] {
                Slot::Vacant => {}
                Slot::Deleted => {
                    lemma_search_update_to_deleted(slots, p, k2, i + 1);
                }
                Slot::Occupied { key: k, value: _ } => {
                    if k != k2 {
                        lemma_search_update_to_deleted(slots, p, k2, i + 1);
                    }
                }
            }
        }
    }
}

} // verus!
