//! A fixed-capacity map from byte keys to byte values, built on open
//! addressing with linear probing and tombstone deletion.
//!
//! The table never grows and never reclaims tombstones: a slot that has once
//! been occupied stays non-vacant for the life of the map, which is what keeps
//! probe chains intact across interleaved inserts and removals.

mod laws;
mod model;
mod table;

pub use laws::lemma_full_table_insert_noop;
pub use laws::lemma_insert_then_get;
pub use laws::lemma_occupied_key_found;
pub use laws::lemma_reinsert_updates_in_place;
pub use laws::lemma_remove_then_get;
pub use model::Slot;
pub use model::chain_inv;
pub use model::count_occupied;
pub use model::holds_key;
pub use model::home;
pub use model::lemma_count_le_len;
pub use model::insert_step;
pub use model::passes_insert;
pub use model::passes_search;
pub use model::probe_dist;
pub use model::probe_pos;
pub use model::search_step;
pub use model::spec_get;
pub use model::spec_insert;
pub use model::spec_insert_prev;
pub use model::spec_remove;
pub use table::CustomHashMap;
