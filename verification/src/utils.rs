//! The batched metadata lookup: requested item ids are cut into chunks no
//! larger than the API's per-call limit, one call is issued per chunk, and
//! the chunks that succeed are concatenated while failed chunks are
//! silently dropped.

use vstd::prelude::*;

use crate::entities::Gw2Item;
use crate::ID_CHUNK_LIMIT;

verus! {

/// The requested ids cut into runs of at most the per-call limit, in
/// order.
pub open spec fn chunked(ids: Seq<usize>) -> Seq<Seq<usize>>
    decreases ids.len(),
{
    if ids.len() == 0 {
        Seq::empty()
    } else if ids.len() <= ID_CHUNK_LIMIT {
        seq![ids]
    } else {
        seq![ids.take(ID_CHUNK_LIMIT as int)] + chunked(ids.skip(ID_CHUNK_LIMIT as int))
    }
}

/// Cut the requested ids into chunks of at most the per-call limit; their
/// concatenation is the request, in order.
pub fn chunk_ids(ids: &Vec<usize>) -> (r: Vec<Vec<usize>>)
    ensures
        r@.map_values(|c: Vec<usize>| c@) == chunked(ids@),
{
    let len = ids.len();
    let mut out: Vec<Vec<usize>> = Vec::new();
    let mut i: usize = 0;
    proof {
        assert(ids@.skip(0) =~= ids@);
        assert(out@.map_values(|c: Vec<usize>| c@) =~= Seq::<Seq<usize>>::empty());
        assert(out@.map_values(|c: Vec<usize>| c@) + chunked(ids@.skip(0)) =~= chunked(ids@));
    }
    while i < len
        invariant
            len == ids@.len(),
            i <= len,
            out@.map_values(|c: Vec<usize>| c@) + chunked(ids@.skip(i as int)) == chunked(ids@),
        decreases len - i,
    {
        let ghost rest = ids@.skip(i as int);
        let ghost o0 = out@.map_values(|c: Vec<usize>| c@);
        let end = if len - i <= ID_CHUNK_LIMIT {
            len
        } else {
            i + ID_CHUNK_LIMIT
        };
        let mut chunk: Vec<usize> = Vec::new();
        let mut j = i;
        while j < end
            invariant
                i <= j <= end <= len,
                len == ids@.len(),
                chunk@ == ids@.subrange(i as int, j as int),
            decreases end - j,
        {
            chunk.push(ids[j]);
            proof {
                assert(chunk@ =~= ids@.subrange(i as int, j + 1));
            }
            j = j + 1;
        }
        out.push(chunk);
        proof {
            assert(out@.map_values(|c: Vec<usize>| c@) =~= o0.push(
                ids@.subrange(i as int, end as int),
            ));
            if rest.len() <= ID_CHUNK_LIMIT {
                assert(end == len);
                assert(ids@.subrange(i as int, end as int) =~= rest);
                assert(chunked(rest) == seq![rest]);
                assert(ids@.skip(end as int) =~= Seq::<usize>::empty());
                assert(chunked(ids@.skip(end as int)) == Seq::<Seq<usize>>::empty());
                assert(o0.push(rest) + Seq::<Seq<usize>>::empty() =~= o0 + seq![rest]);
                assert(o0 + (seq![rest] + Seq::<Seq<usize>>::empty()) =~= o0 + seq![rest]);
                assert(seq![rest] + Seq::<Seq<usize>>::empty() =~= seq![rest]);
            } else {
                assert(end == i + ID_CHUNK_LIMIT);
                assert(ids@.subrange(i as int, end as int) =~= rest.take(ID_CHUNK_LIMIT as int));
                assert(rest.skip(ID_CHUNK_LIMIT as int) =~= ids@.skip(end as int));
                assert(chunked(rest) == seq![rest.take(ID_CHUNK_LIMIT as int)] + chunked(
                    ids@.skip(end as int),
                ));
                assert(o0.push(rest.take(ID_CHUNK_LIMIT as int)) + chunked(ids@.skip(end as int))
                    =~= o0 + (seq![rest.take(ID_CHUNK_LIMIT as int)] + chunked(
                    ids@.skip(end as int),
                )));
            }
        }
        i = end;
    }
    proof {
        assert(ids@.skip(len as int) =~= Seq::<usize>::empty());
        assert(chunked(ids@.skip(len as int)) == Seq::<Seq<usize>>::empty());
        assert(out@.map_values(|c: Vec<usize>| c@) + Seq::<Seq<usize>>::empty() =~= out@.map_values(
            |c: Vec<usize>| c@,
        ));
    }
    out
}

/// The metadata of the chunks that answered, concatenated in request
/// order; a chunk whose call failed contributes nothing.
pub open spec fn flatten_answered(rs: Seq<Option<Vec<Gw2Item>>>) -> Seq<Gw2Item>
    decreases rs.len(),
{
    if rs.len() == 0 {
        Seq::empty()
    } else {
        (match rs[0] {
            Some(v) => v@,
            None => Seq::empty(),
        }) + flatten_answered(rs.drop_first())
    }
}

/// Assemble the per-chunk answers of the batched metadata lookup: chunks
/// that answered are concatenated in request order, failed chunks are
/// silently dropped.
pub fn fetch_items(responses: Vec<Option<Vec<Gw2Item>>>) -> (r: Vec<Gw2Item>)
    ensures
        r@ == flatten_answered(responses@),
{
    let ghost rs0 = responses@;
    let mut remaining = responses;
    let mut out: Vec<Gw2Item> = Vec::new();
    proof {
        assert(out@ + flatten_answered(rs0) =~= flatten_answered(rs0));
    }
    while remaining.len() > 0
        invariant
            out@ + flatten_answered(remaining@) == flatten_answered(rs0),
        decreases remaining@.len(),
    {
        let ghost rem0 = remaining@;
        let head = remaining.remove(0);
        proof {
            assert(remaining@ =~= rem0.drop_first());
            assert(head == rem0[0]);
        }
        let ghost o0 = out@;
        match head {
            Some(mut items) => {
                let ghost iv = items@;
                out.append(&mut items);
                proof {
                    assert((o0 + iv) + flatten_answered(remaining@) =~= o0 + (iv
                        + flatten_answered(remaining@)));
                }
            }
            None => {
                proof {
                    assert(flatten_answered(rem0) == Seq::<Gw2Item>::empty() + flatten_answered(
                        remaining@,
                    ));
                    assert(Seq::<Gw2Item>::empty() + flatten_answered(remaining@)
                        =~= flatten_answered(remaining@));
                }
            }
        }
    }
    proof {
        assert(flatten_answered(remaining@) =~= Seq::<Gw2Item>::empty());
        assert(out@ + Seq::<Gw2Item>::empty() =~= out@);
    }
    out
}

} // verus!
