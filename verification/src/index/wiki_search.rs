//! The wiki searcher: the same searcher shape as the account index, backed
//! by an external search API that signals a further page with a
//! continuation offset instead of an over-fetch.

use vstd::prelude::*;

use crate::fms_entities::wiki_item::WikiItem;
use crate::text::{escape_spaces, escape_spaces_exec, fold_chars, lower_seq, string_from_chars, to_chars};

verus! {

/// The published state of the wiki searcher: the latest completed result
/// snapshot, whether the server offered a further page, and whether a
/// query is in flight.
pub struct WikiReader {
    pub last_result: Vec<WikiItem>,
    pub has_more: bool,
    pub loading: bool,
}

impl WikiReader {
    /// A fresh searcher: no results, no further page, nothing in flight.
    pub fn new() -> (r: WikiReader)
        ensures
            r.last_result@ == Seq::<WikiItem>::empty(),
            r.has_more == false,
            r.loading == false,
    {
        let r = WikiReader { last_result: Vec::new(), has_more: false, loading: false };
        proof {
            assert(r.last_result@ =~= Seq::<WikiItem>::empty());
        }
        r
    }

    /// Whether a query is in flight.
    pub fn is_loading(&self) -> (r: bool)
        ensures
            r == self.loading,
    {
        self.loading
    }

    /// Mark a query as in flight or finished; results are untouched.
    pub fn set_loading(&mut self, v: bool)
        ensures
            final(self).loading == v,
            final(self).last_result == old(self).last_result,
            final(self).has_more == old(self).has_more,
    {
        self.loading = v;
    }

    /// Whether the server offered a page beyond the current snapshot.
    pub fn has_more(&self) -> (r: bool)
        ensures
            r == self.has_more,
    {
        self.has_more
    }

    /// The latest completed result snapshot.
    pub fn last_result(&self) -> (r: &Vec<WikiItem>)
        ensures
            r == &self.last_result,
    {
        &self.last_result
    }

    /// Publish what one wiki query returned. A answered query replaces the
    /// snapshot and flags a further page exactly when the response carried
    /// a continuation offset; a failed query publishes an empty snapshot
    /// and leaves the further-page flag as it was.
    pub fn apply_response(&mut self, response: Option<(Vec<WikiItem>, Option<usize>)>)
        ensures
            final(self).loading == old(self).loading,
            (match response {
                Some(r) => final(self).last_result == r.0 && final(self).has_more == (r.1 is Some),
                None => final(self).last_result@ == Seq::<WikiItem>::empty() && final(self).has_more
                    == old(self).has_more,
            }),
    {
        match response {
            Some((items, continuation)) => {
                self.has_more = continuation.is_some();
                self.last_result = items;
            }
            None => {
                self.last_result = Vec::new();
                proof {
                    assert(self.last_result@ =~= Seq::<WikiItem>::empty());
                }
            }
        }
    }
}

/// The search text as it is sent to the wiki: lowercased, with every space
/// written as its percent escape.
pub fn wiki_query_text(text: &str) -> (r: String)
    ensures
        r@ == escape_spaces(lower_seq(text@)),
{
    let chars = to_chars(text);
    let folded = fold_chars(&chars);
    let escaped = escape_spaces_exec(&folded);
    string_from_chars(&escaped)
}

} // verus!
