//! Domain records of the library: the merged per-item view of an account and
//! the wiki search results.

pub mod player_item;
pub mod wiki_item;
