//! The full-text index: document store, rebuild and reader visibility,
//! ranking, the account-index searcher, the wiki searcher, the ingestion
//! pipeline and the search controller.

pub mod engine;
pub mod find_my_sht;
pub mod index_reader;
pub mod item_loader;
pub mod search;
pub mod wiki_search;
