//! Free-text matching and ranking over indexed documents: terms are
//! combined by conjunction, a term found in the name weighs twice one found
//! only in the description, ranking ties are broken by item id, and pages
//! are cut with an over-fetch test for a further page.

use vstd::prelude::*;

use crate::index::engine::{docs_view, Document, DocumentView};
use crate::text::{contains_chars, contains_seq};

verus! {

/// The term occurs in the document's name or description.
pub open spec fn term_in_doc(d: DocumentView, t: Seq<char>) -> bool {
    contains_seq(d.name, t) || contains_seq(d.descr, t)
}

/// The document answers the query: every term occurs somewhere. A query
/// without terms matches nothing.
pub open spec fn doc_matches(d: DocumentView, terms: Seq<Seq<char>>) -> bool {
    &&& terms.len() > 0
    &&& forall|k: int| 0 <= k < terms.len() ==> term_in_doc(d, #[trigger] terms[k])
}

/// What one term contributes to a document's relevance: a name occurrence
/// weighs twice a description occurrence.
pub open spec fn term_score(d: DocumentView, t: Seq<char>) -> int {
    (if contains_seq(d.name, t) {
        2int
    } else {
        0int
    }) + (if contains_seq(d.descr, t) {
        1int
    } else {
        0int
    })
}

/// A document's relevance: the sum of its term contributions.
pub open spec fn doc_score(d: DocumentView, terms: Seq<Seq<char>>) -> int
    decreases terms.len(),
{
    if terms.len() == 0 {
        0
    } else {
        term_score(d, terms[0]) + doc_score(d, terms.drop_first())
    }
}

/// Rank order: higher relevance first, ties broken by ascending item id.
pub open spec fn ranked_leq(terms: Seq<Seq<char>>, a: DocumentView, b: DocumentView) -> bool {
    ||| doc_score(a, terms) > doc_score(b, terms)
    ||| (doc_score(a, terms) == doc_score(b, terms) && a.id <= b.id)
}

/// A query's terms, seen mathematically.
pub open spec fn terms_view(ts: Seq<Vec<char>>) -> Seq<Seq<char>> {
    ts.map_values(|t: Vec<char>| t@)
}

/// Whether the document answers the query.
pub fn doc_matches_exec(d: &Document, terms: &Vec<Vec<char>>) -> (r: bool)
    ensures
        r == doc_matches(d@, terms_view(terms@)),
{
    let ghost tv = terms_view(terms@);
    if terms.len() == 0 {
        return false;
    }
    let mut k: usize = 0;
    while k < terms.len()
        invariant
            tv == terms_view(terms@),
            k <= terms@.len(),
            terms@.len() > 0,
            forall|j: int| 0 <= j < k ==> term_in_doc(d@, #[trigger] tv[j]),
        decreases terms@.len() - k,
    {
        let in_name = contains_chars(&d.name, &terms[k]);
        let in_descr = contains_chars(&d.descr, &terms[k]);
        if !in_name && !in_descr {
            proof {
                assert(!term_in_doc(d@, tv[k as int]));
            }
            return false;
        }
        k = k + 1;
    }
    true
}

/// The document's relevance for the query.
pub fn score_of(d: &Document, terms: &Vec<Vec<char>>) -> (r: u128)
    ensures
        r == doc_score(d@, terms_view(terms@)),
{
    let ghost tv = terms_view(terms@);
    let mut r: u128 = 0;
    let mut k: usize = 0;
    proof {
        assert(tv.skip(0) =~= tv);
    }
    while k < terms.len()
        invariant
            tv == terms_view(terms@),
            k <= terms@.len(),
            r <= 3 * k,
            r + doc_score(d@, tv.skip(k as int)) == doc_score(d@, tv),
        decreases terms@.len() - k,
    {
        let ghost rest = tv.skip(k as int);
        proof {
            assert(rest[0] == tv[k as int]);
            assert(rest.drop_first() =~= tv.skip(k + 1));
            assert(doc_score(d@, rest) == term_score(d@, tv[k as int]) + doc_score(
                d@,
                tv.skip(k + 1),
            ));
        }
        let in_name = contains_chars(&d.name, &terms[k]);
        let in_descr = contains_chars(&d.descr, &terms[k]);
        if in_name {
            r = r + 2;
        }
        if in_descr {
            r = r + 1;
        }
        k = k + 1;
    }
    proof {
        assert(tv.skip(tv.len() as int) =~= Seq::<Seq<char>>::empty());
    }
    r
}

/// Whether `a` ranks no worse than `b` for the query.
fn ranked_leq_exec(terms: &Vec<Vec<char>>, a: &Document, b: &Document) -> (r: bool)
    ensures
        r == ranked_leq(terms_view(terms@), a@, b@),
{
    let sa = score_of(a, terms);
    let sb = score_of(b, terms);
    sa > sb || (sa == sb && a.id <= b.id)
}

/// The rank order can compare any two documents, and in chains.
pub proof fn lemma_ranked_leq_properties(terms: Seq<Seq<char>>)
    ensures
        forall|a: DocumentView, b: DocumentView|
            #[trigger] ranked_leq(terms, a, b) || #[trigger] ranked_leq(terms, b, a),
        forall|a: DocumentView, b: DocumentView, c: DocumentView|
            #[trigger] ranked_leq(terms, a, b) && #[trigger] ranked_leq(terms, b, c) ==> ranked_leq(
                terms,
                a,
                c,
            ),
{
}

/// The matching documents, ranked: higher relevance first, ties by id.
pub fn ranked_matches(docs: &Vec<Document>, terms: &Vec<Vec<char>>) -> (r: Vec<Document>)
    ensures
        docs_view(r@).to_multiset() == docs_view(docs@).filter(
            |d: DocumentView| doc_matches(d, terms_view(terms@)),
        ).to_multiset(),
        vstd::relations::sorted_by(
            docs_view(r@),
            |a: DocumentView, b: DocumentView| ranked_leq(terms_view(terms@), a, b),
        ),
        forall|k: int|
            0 <= k < docs_view(r@).len() ==> doc_matches(#[trigger] docs_view(r@)[k], terms_view(terms@)),
        forall|x: DocumentView| #[trigger] docs_view(r@).contains(x) ==> docs_view(docs@).contains(x),
{
    let ghost tv = terms_view(terms@);
    let ghost pred = |d: DocumentView| doc_matches(d, tv);
    let ghost leq = |a: DocumentView, b: DocumentView| ranked_leq(tv, a, b);
    let mut out: Vec<Document> = Vec::new();
    let mut i: usize = 0;
    proof {
        reveal(Seq::filter);
        assert(docs_view(docs@).take(0) =~= Seq::<DocumentView>::empty());
        assert(docs_view(out@) =~= Seq::<DocumentView>::empty());
        assert(docs_view(docs@).take(0).filter(pred) =~= Seq::<DocumentView>::empty());
        vstd::prelude::Seq::to_multiset_ensures(docs_view(out@));
    }
    while i < docs.len()
        invariant
            tv == terms_view(terms@),
            pred == (|d: DocumentView| doc_matches(d, tv)),
            leq == (|a: DocumentView, b: DocumentView| ranked_leq(tv, a, b)),
            i <= docs@.len(),
            docs_view(out@).to_multiset() == docs_view(docs@).take(i as int).filter(
                pred,
            ).to_multiset(),
            vstd::relations::sorted_by(docs_view(out@), leq),
            forall|k: int| 0 <= k < docs_view(out@).len() ==> pred(#[trigger] docs_view(out@)[k]),
            forall|x: DocumentView| #[trigger] docs_view(out@).contains(x) ==> docs_view(
                docs@,
            ).contains(x),
        decreases docs@.len() - i,
    {
        let ghost prefix = docs_view(docs@).take(i as int);
        let ghost dv = docs_view(docs@)[i as int];
        proof {
            reveal(Seq::filter);
            assert(docs_view(docs@).take(i + 1) =~= prefix.push(dv));
            assert(prefix.push(dv).drop_last() =~= prefix);
            assert(prefix.push(dv).last() == dv);
            assert(prefix.push(dv).filter(pred) == if pred(dv) {
                prefix.filter(pred).push(dv)
            } else {
                prefix.filter(pred)
            });
        }
        if doc_matches_exec(&docs[i], terms) {
            let ghost ob = docs_view(out@);
            let d = docs[i].duplicate();
            proof {
                assert(d@ == dv);
            }
            insert_ranked(&mut out, d, terms);
            proof {
                vstd::prelude::Seq::to_multiset_ensures(prefix.filter(pred));
                let nv = docs_view(out@);
                assert forall|k: int| 0 <= k < nv.len() implies pred(#[trigger] nv[k]) by {
                    assert(nv.contains(nv[k]));
                    if nv[k] != dv {
                        assert(ob.contains(nv[k]));
                        let j = choose|j: int| 0 <= j < ob.len() && ob[j] == nv[k];
                        assert(pred(ob[j]));
                    }
                }
                assert forall|x: DocumentView| #[trigger] nv.contains(x) implies docs_view(
                    docs@,
                ).contains(x) by {
                    if x != dv {
                        assert(ob.contains(x));
                    } else {
                        assert(docs_view(docs@)[i as int] == x);
                    }
                }
            }
        }
        i = i + 1;
    }
    proof {
        assert(docs_view(docs@).take(docs@.len() as int) =~= docs_view(docs@));
    }
    out
}

/// Insert one matching document at its rank.
fn insert_ranked(out: &mut Vec<Document>, d: Document, terms: &Vec<Vec<char>>)
    requires
        vstd::relations::sorted_by(
            docs_view(old(out)@),
            |a: DocumentView, b: DocumentView| ranked_leq(terms_view(terms@), a, b),
        ),
    ensures
        docs_view(final(out)@).to_multiset() == docs_view(old(out)@).to_multiset().insert(d@),
        vstd::relations::sorted_by(
            docs_view(final(out)@),
            |a: DocumentView, b: DocumentView| ranked_leq(terms_view(terms@), a, b),
        ),
        forall|x: DocumentView|
            docs_view(final(out)@).contains(x) ==> docs_view(old(out)@).contains(x) || x == d@,
{
    let ghost tv = terms_view(terms@);
    let ghost leq = |a: DocumentView, b: DocumentView| ranked_leq(tv, a, b);
    let ghost ov = docs_view(old(out)@);
    let mut p: usize = 0;
    while p < out.len()
        invariant
            tv == terms_view(terms@),
            leq == (|a: DocumentView, b: DocumentView| ranked_leq(tv, a, b)),
            out@ == old(out)@,
            p <= ov.len(),
            ov == docs_view(out@),
            forall|k: int| 0 <= k < p ==> leq(#[trigger] ov[k], d@),
        ensures
            out@ == old(out)@,
            p <= ov.len(),
            forall|k: int| 0 <= k < p ==> leq(#[trigger] ov[k], d@),
            p < ov.len() ==> !leq(ov[p as int], d@),
        decreases ov.len() - p,
    {
        if !ranked_leq_exec(terms, &out[p], &d) {
            break ;
        }
        p = p + 1;
    }
    proof {
        lemma_ranked_leq_properties(tv);
    }
    out.insert(p, d);
    proof {
        let nv = docs_view(out@);
        assert(nv =~= ov.take(p as int).push(d@) + ov.skip(p as int));
        assert(ov =~= ov.take(p as int) + ov.skip(p as int));
        vstd::prelude::Seq::to_multiset_ensures(ov.take(p as int));
        vstd::seq_lib::lemma_multiset_commutative(ov.take(p as int).push(d@), ov.skip(p as int));
        vstd::seq_lib::lemma_multiset_commutative(ov.take(p as int), ov.skip(p as int));
        assert(nv.to_multiset() =~= ov.to_multiset().insert(d@));
        // Sorted: entries left of the insertion rank no worse than `d`,
        // entries right of it no better, and the old order is kept.
        assert forall|i: int, j: int| 0 <= i < j < nv.len() implies leq(nv[i], nv[j]) by {
            if j < p {
                assert(leq(ov[i], ov[j]));
            } else if i > p {
                assert(leq(ov[i - 1], ov[j - 1]));
            } else if i < p && j == p {
                assert(leq(ov[i], d@));
            } else if i == p {
                if p < ov.len() {
                    assert(!leq(ov[p as int], d@));
                    assert(leq(d@, ov[p as int]));
                    assert(leq(ov[p as int], ov[j - 1]) || p == j - 1);
                }
            } else {
                assert(i < p && j > p);
                assert(leq(ov[i], d@));
                if p < ov.len() {
                    assert(leq(d@, ov[p as int]));
                    assert(leq(ov[p as int], ov[j - 1]) || p == j - 1);
                }
            }
        }
    }
}

/// The page cut from the ranked matches: up to `limit` documents starting
/// at offset `limit * page`.
pub open spec fn page_of(docs: Seq<DocumentView>, limit: int, page: int) -> Seq<DocumentView> {
    let offset = limit * page;
    if offset >= docs.len() {
        Seq::empty()
    } else if docs.len() - offset <= limit {
        docs.subrange(offset, docs.len() as int)
    } else {
        docs.subrange(offset, offset + limit)
    }
}

/// A further page exists exactly when more matches remain beyond this one.
pub open spec fn more_after(m: int, limit: int, page: int) -> bool {
    m > limit * (page + 1)
}

/// Cut one page out of the ranked matches, and tell whether a further page
/// exists. Out of `m` ranked documents, page `page` holds
/// `min(limit, max(0, m - limit*page))` of them, and a further page exists
/// exactly when `m > limit*(page+1)`.
pub fn page_slice(ranked: &Vec<Document>, limit: usize, page: usize) -> (r: (Vec<Document>, bool))
    ensures
        docs_view(r.0@) == page_of(docs_view(ranked@), limit as int, page as int),
        docs_view(r.0@).len() == vstd::math::min(
            limit as int,
            vstd::math::max(0, docs_view(ranked@).len() - (limit as int) * (page as int)),
        ),
        r.1 == more_after(docs_view(ranked@).len() as int, limit as int, page as int),
{
    let ghost rv = docs_view(ranked@);
    let ghost goal = page_of(rv, limit as int, page as int);
    let len = ranked.len();
    let offset = match limit.checked_mul(page) {
        None => {
            // The offset exceeds the machine word, so it exceeds the
            // document count, and the page past them is empty.
            proof {
                assert((limit as int) * (page as int) > usize::MAX);
                assert(goal =~= Seq::<DocumentView>::empty());
                assert((limit as int) * (page as int + 1) >= (limit as int) * (page as int)) by (
                nonlinear_arith);
            }
            return (Vec::new(), false);
        }
        Some(o) => o,
    };
    if offset >= len {
        proof {
            assert(goal =~= Seq::<DocumentView>::empty());
            assert((limit as int) * (page as int + 1) >= (limit as int) * (page as int)) by (
            nonlinear_arith);
        }
        return (Vec::new(), false);
    }
    let count = if len - offset <= limit {
        len - offset
    } else {
        limit
    };
    let mut out: Vec<Document> = Vec::new();
    let mut i: usize = 0;
    proof {
        assert(docs_view(out@) =~= rv.subrange(offset as int, offset as int));
    }
    while i < count
        invariant
            rv == docs_view(ranked@),
            rv.len() <= usize::MAX,
            offset + count <= rv.len(),
            i <= count,
            docs_view(out@) == rv.subrange(offset as int, offset + i),
        decreases count - i,
    {
        let ghost o0 = docs_view(out@);
        let d = ranked[offset + i].duplicate();
        out.push(d);
        proof {
            assert(docs_view(out@) =~= o0.push(rv[offset + i]));
            assert(rv.subrange(offset as int, offset + i + 1) =~= rv.subrange(
                offset as int,
                offset + i,
            ).push(rv[offset + i]));
        }
        i = i + 1;
    }
    let has_more = len - offset > limit;
    proof {
        assert(docs_view(out@) == goal);
        assert((limit as int) * (page as int + 1) == (limit as int) * (page as int) + limit) by (
        nonlinear_arith);
    }
    (out, has_more)
}

/// A term found only in an item's name outranks, all else equal, the same
/// term found only in an otherwise identical item's description: the first
/// document scores strictly higher and is ranked strictly earlier.
pub proof fn lemma_name_outranks_description(
    a: DocumentView,
    b: DocumentView,
    terms: Seq<Seq<char>>,
    j: int,
)
    requires
        0 <= j < terms.len(),
        contains_seq(a.name, terms[j]),
        !contains_seq(a.descr, terms[j]),
        !contains_seq(b.name, terms[j]),
        contains_seq(b.descr, terms[j]),
        forall|k: int|
            0 <= k < terms.len() && k != j ==> term_score(a, #[trigger] terms[k]) == term_score(
                b,
                terms[k],
            ),
    ensures
        doc_score(a, terms) > doc_score(b, terms),
        ranked_leq(terms, a, b),
        !ranked_leq(terms, b, a),
{
    lemma_score_pointwise(a, b, terms, j);
}

/// Pointwise equal term contributions with one strictly greater sum to a
/// strictly greater relevance.
proof fn lemma_score_pointwise(a: DocumentView, b: DocumentView, terms: Seq<Seq<char>>, j: int)
    requires
        0 <= j < terms.len(),
        term_score(a, terms[j]) > term_score(b, terms[j]),
        forall|k: int|
            0 <= k < terms.len() && k != j ==> term_score(a, #[trigger] terms[k]) == term_score(
                b,
                terms[k],
            ),
    ensures
        doc_score(a, terms) > doc_score(b, terms),
    decreases terms.len(),
{
    let tail = terms.drop_first();
    assert(forall|k: int| 0 <= k < tail.len() ==> tail[k] == terms[k + 1]);
    if j == 0 {
        lemma_score_tail_equal(a, b, tail);
    } else {
        lemma_score_pointwise(a, b, tail, j - 1);
    }
}

/// Equal term contributions sum to equal relevance.
proof fn lemma_score_tail_equal(a: DocumentView, b: DocumentView, terms: Seq<Seq<char>>)
    requires
        forall|k: int|
            0 <= k < terms.len() ==> term_score(a, #[trigger] terms[k]) == term_score(b, terms[k]),
    ensures
        doc_score(a, terms) == doc_score(b, terms),
    decreases terms.len(),
{
    if terms.len() > 0 {
        let tail = terms.drop_first();
        assert(forall|k: int| 0 <= k < tail.len() ==> tail[k] == terms[k + 1]);
        lemma_score_tail_equal(a, b, tail);
    }
}

} // verus!
