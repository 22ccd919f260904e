//! A searchable, merged view over every item a player owns across the
//! storage locations of a game account: raw per-location inventory payloads
//! are aggregated into per-item records, indexed into an in-memory full-text
//! index, and served through paginated, debounced free-text queries with an
//! alternate wiki-backed search.

use vstd::prelude::*;

pub mod entities;
pub mod fms_entities;
pub mod text;
pub mod codec;
pub mod index;
pub mod settings;
pub mod utils;

verus! {

/// The greatest number of item ids one metadata lookup call may carry.
pub const ID_CHUNK_LIMIT: usize = 200;

} // verus!
