//! The settings of the library: the API key, the page size of searches,
//! and the moment of the last successful refresh, held as milliseconds
//! since the epoch.

use vstd::prelude::*;

verus! {

/// The page size searches use when none was configured.
pub const DEFAULT_ITEM_LOAD_LIMIT: usize = 10;

/// What the library remembers between refreshes: the credential for the
/// account API, how many results one page holds, and when the index was
/// last rebuilt with success.
#[derive(Debug)]
pub struct Settings {
    pub api_key: String,
    pub item_load_limit: usize,
    pub last_update: Option<i64>,
}

impl Settings {
    /// Fresh settings: no credential, the default page size, and no
    /// refresh on record.
    pub fn new() -> (r: Settings)
        ensures
            r.api_key@ == Seq::<char>::empty(),
            r.item_load_limit == DEFAULT_ITEM_LOAD_LIMIT,
            r.last_update is None,
    {
        Settings {
            api_key: String::new(),
            item_load_limit: DEFAULT_ITEM_LOAD_LIMIT,
            last_update: None,
        }
    }

    /// Record that a refresh committed at `now`; nothing else changes.
    pub fn update_last_update(&mut self, now: i64)
        ensures
            final(self).last_update == Some(now),
            final(self).api_key == old(self).api_key,
            final(self).item_load_limit == old(self).item_load_limit,
    {
        self.last_update = Some(now);
    }
}

} // verus!
