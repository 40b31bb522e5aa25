//! Tracks a roster of competitive players and resolves which of them are in a
//! live match, deduplicating lookups through a per-run cache and overlaying
//! competitive-rank data on every participant.

pub mod id_map;
pub mod pro_data;
pub mod text;

use vstd::prelude::*;

verus! {

/// Process configuration handed to the loaders.
pub struct Config {
    pub pro_file_path: String,
    pub sync_summoner_names: bool,
}

} // verus!
