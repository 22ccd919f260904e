//! The account-index searcher: it parses free text, ranks the reader's
//! visible documents, cuts one page with an over-fetch test, reconstructs
//! each hit from its stored payload, and patches trading-post prices onto
//! the published results afterwards.

use vstd::prelude::*;

use crate::codec::parse_item;
use crate::entities::Gw2Tp;
use crate::fms_entities::player_item::{PlayerItem, PlayerItemView};
use crate::index::engine::{index_searcher, DocumentView, SearchIndex};
use crate::index::search::{
    doc_matches, more_after, page_of, ranked_leq, ranked_matches, page_slice,
};
use crate::text::{fold_chars, lower_seq, split_terms, split_ws, to_chars};

verus! {

/// A result list, seen mathematically.
pub open spec fn items_view(s: Seq<PlayerItem>) -> Seq<PlayerItemView> {
    s.map_values(|p: PlayerItem| p@)
}

/// Every visible document's payload reads back as one whole item record.
pub open spec fn docs_decodable(docs: Seq<DocumentView>) -> bool {
    forall|k: int|
        0 <= k < docs.len() ==> {
            &&& parse_item(#[trigger] docs[k].payload) is Some
            &&& (parse_item(docs[k].payload)->0).1.len() == 0
        }
}

/// The first listed price for an item id, if any.
pub open spec fn price_for(prices: Seq<Gw2Tp>, id: int) -> Option<Gw2Tp>
    decreases prices.len(),
{
    if prices.len() == 0 {
        None
    } else if prices[0].id == id {
        Some(prices[0])
    } else {
        price_for(prices.drop_first(), id)
    }
}

/// The first listed price for an item id, if any.
fn price_for_exec(prices: &Vec<Gw2Tp>, id: usize) -> (r: Option<Gw2Tp>)
    ensures
        r == price_for(prices@, id as int),
{
    let mut k: usize = 0;
    proof {
        assert(prices@.skip(0) =~= prices@);
    }
    while k < prices.len()
        invariant
            k <= prices@.len(),
            price_for(prices@, id as int) == price_for(prices@.skip(k as int), id as int),
        decreases prices@.len() - k,
    {
        proof {
            assert(prices@.skip(k as int)[0] == prices@[k as int]);
            assert(prices@.skip(k as int).drop_first() =~= prices@.skip(k + 1));
        }
        if prices[k].id == id {
            return Some(prices[k]);
        }
        k = k + 1;
    }
    proof {
        assert(prices@.skip(prices@.len() as int) =~= Seq::<Gw2Tp>::empty());
    }
    None
}

/// The published state of the account searcher: the latest completed result
/// snapshot, whether a further page exists, and whether a query is in
/// flight.
pub struct IndexReader {
    pub last_result: Vec<PlayerItem>,
    pub has_more: bool,
    pub loading: bool,
}

impl IndexReader {
    /// Whether a query is marked in flight.
    pub open spec fn loading_flag(&self) -> bool {
        self.loading
    }

    /// A fresh searcher: no results, no further page, nothing in flight.
    pub fn new() -> (r: IndexReader)
        ensures
            r.last_result@ == Seq::<PlayerItem>::empty(),
            r.has_more == false,
            r.loading_flag() == false,
    {
        let r = IndexReader { last_result: Vec::new(), has_more: false, loading: false };
        proof {
            assert(r.last_result@ =~= Seq::<PlayerItem>::empty());
        }
        r
    }

    /// Whether a query is in flight.
    pub fn is_loading(&self) -> (r: bool)
        ensures
            r == self.loading_flag(),
    {
        self.loading
    }

    /// Mark a query as in flight or finished; results are untouched.
    pub fn set_loading(&mut self, v: bool)
        ensures
            final(self).loading_flag() == v,
            final(self).last_result == old(self).last_result,
            final(self).has_more == old(self).has_more,
    {
        self.loading = v;
    }

    /// Run one query against the reader's visible documents and publish the
    /// result snapshot: the text is lowercased and split into terms, every
    /// term must match, hits are ranked (name matches first, ties by id),
    /// page `page` of size `limit` is cut, and each hit is reconstructed
    /// from its stored payload. Out of `m` matching documents the published
    /// page holds `min(limit, max(0, m - limit*page))`, and a further page
    /// is flagged exactly when `m > limit*(page+1)`.
    pub fn search(&mut self, index: &SearchIndex, text: &str, page: usize, limit: usize)
        requires
            docs_decodable(index.visible_docs()),
        ensures
            ({
                let terms = split_ws(lower_seq(text@));
                let matching = index.visible_docs().filter(
                    |d: DocumentView| doc_matches(d, terms),
                );
                &&& items_view(final(self).last_result@).len() == vstd::math::min(
                    limit as int,
                    vstd::math::max(0, matching.len() - (limit as int) * (page as int)),
                )
                &&& final(self).has_more == more_after(
                    matching.len() as int,
                    limit as int,
                    page as int,
                )
                &&& exists|ranked: Seq<DocumentView>|
                    {
                        &&& ranked.to_multiset() == matching.to_multiset()
                        &&& vstd::relations::sorted_by(
                            ranked,
                            |a: DocumentView, b: DocumentView| ranked_leq(terms, a, b),
                        )
                        &&& ({
                            let pg = page_of(ranked, limit as int, page as int);
                            &&& items_view(final(self).last_result@).len() == pg.len()
                            &&& forall|k: int|
                                0 <= k < pg.len() ==> parse_item(#[trigger] pg[k].payload)
                                    == Some(
                                    (items_view(final(self).last_result@)[k], Seq::<u8>::empty()),
                                )
                        })
                    }
                &&& final(self).loading_flag() == old(self).loading_flag()
            }),
    {
        let ghost terms_spec = split_ws(lower_seq(text@));
        let text_chars = to_chars(text);
        let folded = fold_chars(&text_chars);
        let terms = split_terms(&folded);
        proof {
            assert(crate::index::search::terms_view(terms@) == terms_spec);
        }
        let snapshot = index_searcher(index);
        let ranked = ranked_matches(snapshot, &terms);
        let ghost ranked_v = crate::index::engine::docs_view(ranked@);
        let (pg, more) = page_slice(&ranked, limit, page);
        let ghost pg_v = crate::index::engine::docs_view(pg@);
        proof {
            vstd::prelude::Seq::to_multiset_ensures(ranked_v);
            vstd::prelude::Seq::to_multiset_ensures(
                index.visible_docs().filter(|d: DocumentView| doc_matches(d, terms_spec)),
            );
        }
        let mut out: Vec<PlayerItem> = Vec::new();
        let mut i: usize = 0;
        while i < pg.len()
            invariant
                i <= pg@.len(),
                pg_v == crate::index::engine::docs_view(pg@),
                ranked_v == crate::index::engine::docs_view(ranked@),
                docs_decodable(index.visible_docs()),
                forall|x: DocumentView| #[trigger]
                    ranked_v.contains(x) ==> index.visible_docs().contains(x),
                forall|k: int|
                    0 <= k < pg_v.len() ==> ranked_v.contains(#[trigger] pg_v[k]),
                items_view(out@).len() == i,
                forall|k: int|
                    0 <= k < i ==> parse_item(#[trigger] pg_v[k].payload) == Some(
                        (items_view(out@)[k], Seq::<u8>::empty()),
                    ),
            decreases pg@.len() - i,
        {
            let ghost d = pg_v[i as int];
            proof {
                assert(ranked_v.contains(d));
                assert(index.visible_docs().contains(d));
                let j = choose|j: int|
                    0 <= j < index.visible_docs().len() && index.visible_docs()[j] == d;
                assert(parse_item(d.payload) is Some);
                assert((parse_item(d.payload)->0).1.len() == 0);
            }
            let ghost out0 = items_view(out@);
            match crate::codec::decode_item(&pg[i].payload) {
                Some(item) => {
                    out.push(item);
                    proof {
                        assert(items_view(out@) =~= out0.push((parse_item(d.payload)->0).0));
                        assert((parse_item(d.payload)->0).1 =~= Seq::<u8>::empty());
                    }
                }
                None => {
                    proof {
                        assert(false);
                    }
                }
            }
            i = i + 1;
        }
        self.last_result = out;
        self.has_more = more;
        proof {
            assert(items_view(self.last_result@).len() == pg_v.len());
        }
    }

    /// The latest completed result snapshot.
    pub fn last_result(&self) -> (r: &Vec<PlayerItem>)
        ensures
            r == &self.last_result,
    {
        &self.last_result
    }

    /// Whether a further page exists beyond the current snapshot.
    pub fn has_more(&self) -> (r: bool)
        ensures
            r == self.has_more,
    {
        self.has_more
    }

    /// Patch trading-post prices onto the published results in place, by id
    /// match: an item with a listed price gets the first listing for its
    /// id, one without gets its price cleared. An empty price list leaves
    /// everything untouched.
    pub fn apply_prices(&mut self, prices: &Vec<Gw2Tp>)
        ensures
            final(self).has_more == old(self).has_more,
            final(self).loading_flag() == old(self).loading_flag(),
            prices@.len() == 0 ==> final(self).last_result == old(self).last_result,
            prices@.len() > 0 ==> ({
                let before = items_view(old(self).last_result@);
                let after = items_view(final(self).last_result@);
                &&& after.len() == before.len()
                &&& forall|k: int|
                    0 <= k < before.len() ==> #[trigger] after[k] == (PlayerItemView {
                        tp_info: price_for(prices@, before[k].id),
                        ..before[k]
                    })
            }),
    {
        if prices.len() == 0 {
            return ;
        }
        let ghost ov = items_view(old(self).last_result@);
        let n = self.last_result.len();
        let mut i: usize = 0;
        while i < n
            invariant
                n == old(self).last_result@.len(),
                i <= n,
                self.last_result@.len() == n,
                self.has_more == old(self).has_more,
                self.loading == old(self).loading,
                ov == items_view(old(self).last_result@),
                forall|k: int|
                    i <= k < n ==> #[trigger] self.last_result@[k] == old(self).last_result@[k],
                forall|k: int|
                    0 <= k < i ==> #[trigger] items_view(self.last_result@)[k] == (PlayerItemView {
                        tp_info: price_for(prices@, ov[k].id),
                        ..ov[k]
                    }),
            decreases n - i,
        {
            let ghost before = self.last_result@;
            let mut item = self.last_result.remove(i);
            proof {
                assert(item == before[i as int]);
                assert(before[i as int] == old(self).last_result@[i as int]);
                assert(ov[i as int] == old(self).last_result@[i as int]@);
            }
            let tp = price_for_exec(prices, item.id);
            item.set_tp(tp);
            let ghost ni = item@;
            self.last_result.insert(i, item);
            proof {
                let cur = self.last_result@;
                assert(cur == before.remove(i as int).insert(i as int, cur[i as int]));
                assert(cur =~= before.update(i as int, cur[i as int]));
                assert(cur[i as int]@ == ni);
                assert(ni == (PlayerItemView {
                    tp_info: price_for(prices@, ov[i as int].id),
                    ..ov[i as int]
                }));
                assert forall|k: int| 0 <= k < i + 1 implies #[trigger] items_view(cur)[k]
                    == (PlayerItemView { tp_info: price_for(prices@, ov[k].id), ..ov[k] }) by {
                    if k < i {
                        assert(cur[k] == before[k]);
                        assert(items_view(before)[k] == before[k]@);
                        assert(items_view(cur)[k] == cur[k]@);
                    } else {
                        assert(items_view(cur)[k] == cur[k]@);
                    }
                }
            }
            i = i + 1;
        }
    }
}

} // verus!
