//! The ingestion pipeline: raw per-location inventory payloads are resolved
//! against item metadata, converted into fresh item records, and merged by
//! item id into one aggregate record per item, which the index is then
//! rebuilt from wholesale.

use vstd::prelude::*;

use crate::entities::{Gw2Bag, Gw2Inventory, Gw2Item, Gw2PlayerItem};
use crate::fms_entities::player_item::{
    entry_at, lemma_find_loc, lemma_merge_locations_at, merge_locations, merge_specifics,
    specs_bounded, unique_locs, wf_item, Location, LocationView, PlayerItem, PlayerItemView,
    SpecificsView,
};
use crate::index::engine::{add_documents, DocumentView, SearchIndex};
use crate::index::index_reader::items_view;
use crate::settings::settings::Settings;
use crate::text::lower_seq;

verus! {

/// The first metadata entry for an item id, if any.
pub open spec fn meta_for(meta: Seq<Gw2Item>, id: int) -> Option<Gw2Item>
    decreases meta.len(),
{
    if meta.len() == 0 {
        None
    } else if meta[0].id == id {
        Some(meta[0])
    } else {
        meta_for(meta.drop_first(), id)
    }
}

/// The fresh record one raw entry becomes, carrying its resolved metadata.
pub open spec fn item_view_from(loc: LocationView, gi: Gw2PlayerItem, m: Gw2Item) -> PlayerItemView {
    PlayerItemView {
        id: gi.id as int,
        name: m.name@,
        description: match m.description {
            Some(d) => Some(d@),
            None => None,
        },
        icon: match m.icon {
            Some(i) => Some(i@),
            None => None,
        },
        item_type: m.item_type,
        rarity: m.rarity,
        locations: seq![
            (
                loc,
                SpecificsView {
                    count: gi.count as int,
                    charges: (match gi.charges {
                        Some(c) => c
                        ,
                        None => 0,
                    }) as int,
                    upgrades: match gi.upgrades {
                        Some(u) => u@,
                        None => Seq::empty(),
                    },
                    infusions: match gi.infusions {
                        Some(v) => v@,
                        None => Seq::empty(),
                    },
                },
            ),
        ],
        tp_info: None,
    }
}

/// Raw entries converted in order; one whose id has no metadata is dropped.
pub open spec fn convert_spec(loc: LocationView, items: Seq<Gw2PlayerItem>, meta: Seq<Gw2Item>) -> Seq<
    PlayerItemView,
>
    decreases items.len(),
{
    if items.len() == 0 {
        Seq::empty()
    } else {
        let rest = convert_spec(loc, items.drop_first(), meta);
        match meta_for(meta, items[0].id as int) {
            None => rest,
            Some(m) => seq![item_view_from(loc, items[0], m)] + rest,
        }
    }
}

/// The first metadata entry for an item id, if any.
fn meta_for_exec<'a>(meta: &'a Vec<Gw2Item>, id: usize) -> (r: Option<&'a Gw2Item>)
    ensures
        match r {
            Some(m) => meta_for(meta@, id as int) == Some(*m),
            None => meta_for(meta@, id as int) is None,
        },
{
    let mut k: usize = 0;
    proof {
        assert(meta@.skip(0) =~= meta@);
    }
    while k < meta.len()
        invariant
            k <= meta@.len(),
            meta_for(meta@, id as int) == meta_for(meta@.skip(k as int), id as int),
        decreases meta@.len() - k,
    {
        proof {
            assert(meta@.skip(k as int)[0] == meta@[k as int]);
            assert(meta@.skip(k as int).drop_first() =~= meta@.skip(k + 1));
        }
        if meta[k].id == id {
            return Some(&meta[k]);
        }
        k = k + 1;
    }
    proof {
        assert(meta@.skip(meta@.len() as int) =~= Seq::<Gw2Item>::empty());
    }
    None
}

/// Turn raw entries of one location into fresh records, resolving each
/// against the metadata and silently dropping entries whose id resolves to
/// nothing.
pub fn convert(location: Location, items: Vec<Gw2PlayerItem>, metadata: &Vec<Gw2Item>) -> (r: Vec<
    PlayerItem,
>)
    ensures
        items_view(r@) == convert_spec(location@, items@, metadata@),
        forall|k: int| 0 <= k < r@.len() ==> wf_item(#[trigger] items_view(r@)[k]),
{
    let ghost items0 = items@;
    let ghost lv = location@;
    let mut remaining = items;
    let mut out: Vec<PlayerItem> = Vec::new();
    proof {
        assert(items_view(out@) =~= Seq::<PlayerItemView>::empty());
        assert(Seq::<PlayerItemView>::empty() + convert_spec(lv, items0, metadata@) =~= convert_spec(
            lv,
            items0,
            metadata@,
        ));
    }
    while remaining.len() > 0
        invariant
            lv == location@,
            items_view(out@) + convert_spec(lv, remaining@, metadata@) == convert_spec(
                lv,
                items0,
                metadata@,
            ),
            forall|k: int| 0 <= k < out@.len() ==> wf_item(#[trigger] items_view(out@)[k]),
        decreases remaining@.len(),
    {
        let ghost rem0 = remaining@;
        let gi = remaining.remove(0);
        proof {
            assert(remaining@ =~= rem0.drop_first());
            assert(gi == rem0[0]);
        }
        let ghost out0 = items_view(out@);
        match meta_for_exec(metadata, gi.id) {
            Some(m) => {
                let fresh = PlayerItem::from(location.duplicate(), &gi, m);
                proof {
                    assert(fresh@ == item_view_from(lv, gi, *m));
                }
                out.push(fresh);
                proof {
                    assert(items_view(out@) =~= out0.push(item_view_from(lv, gi, *m)));
                    assert(convert_spec(lv, rem0, metadata@) == seq![item_view_from(lv, gi, *m)]
                        + convert_spec(lv, remaining@, metadata@));
                    assert(out0.push(item_view_from(lv, gi, *m)) + convert_spec(
                        lv,
                        remaining@,
                        metadata@,
                    ) =~= out0 + (seq![item_view_from(lv, gi, *m)] + convert_spec(
                        lv,
                        remaining@,
                        metadata@,
                    )));
                }
            }
            None => {
                proof {
                    assert(convert_spec(lv, rem0, metadata@) == convert_spec(
                        lv,
                        remaining@,
                        metadata@,
                    ));
                }
            }
        }
    }
    proof {
        assert(remaining@.len() == 0);
        assert(convert_spec(lv, remaining@, metadata@) =~= Seq::<PlayerItemView>::empty());
        assert(items_view(out@) + Seq::<PlayerItemView>::empty() =~= items_view(out@));
    }
    out
}

/// The raw entries present in a row of inventory slots, in order.
pub open spec fn present_slots(slots: Seq<Option<Gw2PlayerItem>>) -> Seq<Gw2PlayerItem>
    decreases slots.len(),
{
    if slots.len() == 0 {
        Seq::empty()
    } else {
        match slots[0] {
            Some(gi) => seq![gi] + present_slots(slots.drop_first()),
            None => present_slots(slots.drop_first()),
        }
    }
}

/// The raw entries of a whole bag list, bag by bag.
pub open spec fn bag_items(bags: Seq<Gw2Bag>) -> Seq<Gw2PlayerItem>
    decreases bags.len(),
{
    if bags.len() == 0 {
        Seq::empty()
    } else {
        present_slots(bags[0].inventory@) + bag_items(bags.drop_first())
    }
}

/// The entries present in a row of slots, in order.
fn collect_slots(slots: Vec<Option<Gw2PlayerItem>>, out: &mut Vec<Gw2PlayerItem>)
    ensures
        final(out)@ == old(out)@ + present_slots(slots@),
{
    let ghost slots0 = slots@;
    let mut remaining = slots;
    proof {
        assert(old(out)@ + Seq::<Gw2PlayerItem>::empty() =~= old(out)@);
    }
    while remaining.len() > 0
        invariant
            out@ + present_slots(remaining@) == old(out)@ + present_slots(slots0),
        decreases remaining@.len(),
    {
        let ghost rem0 = remaining@;
        let slot = remaining.remove(0);
        proof {
            assert(remaining@ =~= rem0.drop_first());
            assert(slot == rem0[0]);
        }
        match slot {
            Some(gi) => {
                let ghost o0 = out@;
                out.push(gi);
                proof {
                    assert(out@ + present_slots(remaining@) =~= o0 + (seq![gi] + present_slots(
                        remaining@,
                    )));
                }
            }
            None => {
            }
        }
    }
    proof {
        assert(present_slots(remaining@) =~= Seq::<Gw2PlayerItem>::empty());
        assert(out@ + Seq::<Gw2PlayerItem>::empty() =~= out@);
    }
}

/// The records a character's inventory contributes, tagged with that
/// character's location.
pub fn fetch_from_character(character: String, inv: Gw2Inventory, metadata: &Vec<Gw2Item>) -> (r:
    Vec<PlayerItem>)
    ensures
        items_view(r@) == convert_spec(
            LocationView::Character(character@),
            bag_items(inv.bags@),
            metadata@,
        ),
        forall|k: int| 0 <= k < r@.len() ==> wf_item(#[trigger] items_view(r@)[k]),
{
    let ghost bags0 = inv.bags@;
    let mut bags = inv.bags;
    let mut found: Vec<Gw2PlayerItem> = Vec::new();
    proof {
        assert(found@ =~= Seq::<Gw2PlayerItem>::empty());
        assert(Seq::<Gw2PlayerItem>::empty() + bag_items(bags0) =~= bag_items(bags0));
    }
    while bags.len() > 0
        invariant
            found@ + bag_items(bags@) == bag_items(bags0),
        decreases bags@.len(),
    {
        let ghost b0 = bags@;
        let bag = bags.remove(0);
        proof {
            assert(bags@ =~= b0.drop_first());
            assert(bag == b0[0]);
        }
        let ghost f0 = found@;
        collect_slots(bag.inventory, &mut found);
        proof {
            assert((f0 + present_slots(b0[0].inventory@)) + bag_items(bags@) =~= f0 + (
            present_slots(b0[0].inventory@) + bag_items(bags@)));
        }
    }
    proof {
        assert(bag_items(bags@) =~= Seq::<Gw2PlayerItem>::empty());
        assert(found@ + Seq::<Gw2PlayerItem>::empty() =~= found@);
    }
    convert(Location::Character(character), found, metadata)
}

/// The records one account-wide slot row contributes, tagged with the given
/// location.
pub fn fetch_from(location: Location, inv: Vec<Option<Gw2PlayerItem>>, metadata: &Vec<Gw2Item>) -> (
    r: Vec<PlayerItem>)
    ensures
        items_view(r@) == convert_spec(location@, present_slots(inv@), metadata@),
        forall|k: int| 0 <= k < r@.len() ==> wf_item(#[trigger] items_view(r@)[k]),
{
    let mut found: Vec<Gw2PlayerItem> = Vec::new();
    collect_slots(inv, &mut found);
    proof {
        assert(Seq::<Gw2PlayerItem>::empty() + present_slots(inv@) =~= present_slots(inv@));
    }
    convert(location, found, metadata)
}

/// The records material storage contributes: entries stored in zero
/// quantity are left out before conversion.
pub fn fetch_materials(materials: Vec<Gw2PlayerItem>, metadata: &Vec<Gw2Item>) -> (r: Vec<
    PlayerItem,
>)
    ensures
        items_view(r@) == convert_spec(
            LocationView::MaterialStorage,
            materials@.filter(|gi: Gw2PlayerItem| gi.count > 0),
            metadata@,
        ),
        forall|k: int| 0 <= k < r@.len() ==> wf_item(#[trigger] items_view(r@)[k]),
{
    let ghost pred = |gi: Gw2PlayerItem| gi.count > 0;
    let ghost mats0 = materials@;
    let mut remaining = materials;
    let mut kept: Vec<Gw2PlayerItem> = Vec::new();
    proof {
        reveal(Seq::filter);
        assert(mats0.take(0) =~= Seq::<Gw2PlayerItem>::empty());
        assert(kept@ =~= mats0.take(0).filter(pred));
    }
    let mut i: usize = 0;
    proof {
        assert(remaining.len() == mats0.len());
    }
    while remaining.len() > 0
        invariant
            pred == (|gi: Gw2PlayerItem| gi.count > 0),
            mats0.len() <= usize::MAX,
            i <= mats0.len(),
            remaining@ == mats0.skip(i as int),
            kept@ == mats0.take(i as int).filter(pred),
        decreases remaining@.len(),
    {
        let ghost rem0 = remaining@;
        let gi = remaining.remove(0);
        proof {
            assert(remaining@ =~= rem0.drop_first());
            assert(gi == rem0[0]);
            assert(gi == mats0[i as int]);
            assert(remaining@ =~= mats0.skip(i + 1));
            reveal(Seq::filter);
            assert(mats0.take(i + 1) =~= mats0.take(i as int).push(gi));
            assert(mats0.take(i + 1).drop_last() =~= mats0.take(i as int));
            assert(mats0.take(i + 1).filter(pred) == if pred(gi) {
                mats0.take(i as int).filter(pred).push(gi)
            } else {
                mats0.take(i as int).filter(pred)
            });
        }
        if gi.count > 0 {
            kept.push(gi);
        }
        i = i + 1;
    }
    proof {
        assert(mats0.skip(i as int).len() == 0);
        assert(i == mats0.len());
        assert(mats0.take(i as int) =~= mats0);
    }
    convert(Location::MaterialStorage, kept, metadata)
}

/// Index of the first record with the given item id, or `-1` when absent.
pub open spec fn find_id(items: Seq<PlayerItemView>, id: int) -> int
    decreases items.len(),
{
    if items.len() == 0 {
        -1
    } else if items[0].id == id {
        0
    } else {
        let r = find_id(items.drop_first(), id);
        if r == -1 {
            -1
        } else {
            r + 1
        }
    }
}

/// What the aggregate holds for item `id` at location `l`, if anything.
pub open spec fn entry_of(items: Seq<PlayerItemView>, id: int, l: LocationView) -> Option<
    SpecificsView,
> {
    let p = find_id(items, id);
    if p >= 0 {
        entry_at(items[p].locations, l)
    } else {
        None
    }
}

/// `find_id` finds the first record of its id, and `-1` means absence.
pub proof fn lemma_find_id(items: Seq<PlayerItemView>, id: int)
    ensures
        find_id(items, id) >= 0 ==> {
            &&& find_id(items, id) < items.len()
            &&& items[find_id(items, id)].id == id
            &&& forall|k: int| 0 <= k < find_id(items, id) ==> items[k].id != id
        },
        find_id(items, id) == -1 <==> (forall|k: int| 0 <= k < items.len() ==> items[k].id != id),
        find_id(items, id) >= 0 || find_id(items, id) == -1,
    decreases items.len(),
{
    if items.len() == 0 {
    } else if items[0].id == id {
    } else {
        lemma_find_id(items.drop_first(), id);
        assert(forall|k: int| 1 <= k < items.len() ==> items[k] == items.drop_first()[k - 1]);
    }
}

/// Two aggregates with the same ids in the same positions are searched
/// alike.
proof fn lemma_find_id_same(a: Seq<PlayerItemView>, b: Seq<PlayerItemView>, id: int)
    requires
        a.len() == b.len(),
        forall|k: int| 0 <= k < a.len() ==> a[k].id == b[k].id,
    ensures
        find_id(a, id) == find_id(b, id),
    decreases a.len(),
{
    if a.len() > 0 {
        assert(forall|k: int|
            0 <= k < a.len() - 1 ==> a.drop_first()[k].id == b.drop_first()[k].id);
        lemma_find_id_same(a.drop_first(), b.drop_first(), id);
    }
}

/// Searching after appending one record: the appended record is found last.
proof fn lemma_find_id_push(a: Seq<PlayerItemView>, it: PlayerItemView, id: int)
    ensures
        find_id(a.push(it), id) == if find_id(a, id) >= 0 {
            find_id(a, id)
        } else if it.id == id {
            a.len() as int
        } else {
            -1
        },
    decreases a.len(),
{
    let ap = a.push(it);
    if a.len() == 0 {
        assert(ap[0] == it);
        assert(ap.len() == 1);
        if it.id == id {
            assert(find_id(ap, id) == 0);
        } else {
            assert(ap.drop_first() =~= Seq::<PlayerItemView>::empty());
            assert(find_id(ap.drop_first(), id) == -1);
            assert(find_id(ap, id) == -1);
        }
    } else {
        assert(ap[0] == a[0]);
        assert(ap.drop_first() =~= a.drop_first().push(it));
        lemma_find_id_push(a.drop_first(), it, id);
    }
}

/// Merge one fresh record into the aggregate: a record with a known id has
/// its location table merged into the existing record, which keeps its
/// metadata; an unknown id becomes a new record.
pub open spec fn merge_into(acc: Seq<PlayerItemView>, it: PlayerItemView) -> Seq<PlayerItemView> {
    let p = find_id(acc, it.id);
    if p >= 0 {
        acc.update(
            p,
            PlayerItemView { locations: merge_locations(acc[p].locations, it.locations), ..acc[p] },
        )
    } else {
        acc.push(it)
    }
}

/// Merge every record into the aggregate, left to right.
pub open spec fn merge_all(acc: Seq<PlayerItemView>, items: Seq<PlayerItemView>) -> Seq<
    PlayerItemView,
>
    decreases items.len(),
{
    if items.len() == 0 {
        acc
    } else {
        merge_all(merge_into(acc, items[0]), items.drop_first())
    }
}

/// Merging a concatenation is merging one part after the other.
pub proof fn lemma_merge_all_append(
    acc: Seq<PlayerItemView>,
    s1: Seq<PlayerItemView>,
    s2: Seq<PlayerItemView>,
)
    ensures
        merge_all(acc, s1 + s2) == merge_all(merge_all(acc, s1), s2),
    decreases s1.len(),
{
    if s1.len() == 0 {
        assert(s1 + s2 =~= s2);
    } else {
        assert((s1 + s2)[0] == s1[0]);
        assert((s1 + s2).drop_first() =~= s1.drop_first() + s2);
        lemma_merge_all_append(merge_into(acc, s1[0]), s1.drop_first(), s2);
        assert(merge_all(acc, s1 + s2) == merge_all(merge_into(acc, s1[0]), (s1 + s2).drop_first()));
        assert(merge_all(acc, s1) == merge_all(merge_into(acc, s1[0]), s1.drop_first()));
    }
}

/// What merging one record does to each id and location: the record's own
/// id accumulates per location, every other id is untouched.
pub proof fn lemma_merge_into_entry(
    acc: Seq<PlayerItemView>,
    it: PlayerItemView,
    id: int,
    l: LocationView,
)
    requires
        unique_locs(it.locations),
    ensures
        it.id == id ==> entry_of(merge_into(acc, it), id, l) == (match (
            entry_of(acc, id, l),
            entry_at(it.locations, l),
        ) {
            (Some(x), Some(y)) => Some(merge_specifics(x, y)),
            (Some(x), None) => Some(x),
            (None, Some(y)) => Some(y),
            (None, None) => None::<SpecificsView>,
        }),
        it.id != id ==> entry_of(merge_into(acc, it), id, l) == entry_of(acc, id, l),
        find_id(merge_into(acc, it), id) >= 0 <==> (find_id(acc, id) >= 0 || it.id == id),
{
    let p = find_id(acc, it.id);
    let m = merge_into(acc, it);
    lemma_find_id(acc, it.id);
    lemma_find_id(acc, id);
    if p >= 0 {
        assert(forall|k: int| 0 <= k < acc.len() ==> acc[k].id == m[k].id);
        lemma_find_id_same(acc, m, id);
        lemma_find_id(m, id);
        if it.id == id {
            assert(find_id(m, id) == p);
            lemma_merge_locations_at(acc[p].locations, it.locations, l);
        } else {
            let q = find_id(acc, id);
            if q >= 0 {
                assert(acc[q].id == id);
                assert(acc[p].id == it.id);
                assert(q != p);
                assert(m[q] == acc[q]);
            }
        }
    } else {
        lemma_find_id_push(acc, it, id);
        lemma_find_id(m, id);
        if it.id == id {
            assert(find_id(acc, id) == -1);
            assert(find_id(m, id) == acc.len());
            assert(m[acc.len() as int] == it);
            assert(entry_of(acc, id, l) is None);
        } else {
            let q = find_id(acc, id);
            if q >= 0 {
                assert(m[q] == acc[q]);
            }
        }
    }
}

/// Merging more records never shrinks a stored quantity.
pub proof fn lemma_merge_all_monotone(
    acc: Seq<PlayerItemView>,
    items: Seq<PlayerItemView>,
    id: int,
    l: LocationView,
)
    requires
        forall|k: int| 0 <= k < items.len() ==> wf_item(#[trigger] items[k]),
    ensures
        entry_of(acc, id, l) is Some ==> {
            &&& entry_of(merge_all(acc, items), id, l) is Some
            &&& entry_of(merge_all(acc, items), id, l)->0.count >= entry_of(acc, id, l)->0.count
            &&& entry_of(merge_all(acc, items), id, l)->0.charges >= entry_of(acc, id, l)->0.charges
        },
    decreases items.len(),
{
    if items.len() > 0 {
        let it = items[0];
        let acc1 = merge_into(acc, it);
        assert(wf_item(it));
        lemma_merge_into_entry(acc, it, id, l);
        if entry_of(acc, id, l) is Some && it.id == id && entry_at(it.locations, l) is Some {
            // The incoming quantities are taken from a representable
            // record, so they cannot be negative.
            lemma_find_loc(it.locations, l);
            assert(specs_bounded(entry_at(it.locations, l)->0));
        }
        assert(forall|k: int|
            0 <= k < items.drop_first().len() ==> items.drop_first()[k] == items[k + 1]);
        lemma_merge_all_monotone(acc1, items.drop_first(), id, l);
    }
}

/// All records the fetched lists contribute, list by list, in order.
pub open spec fn all_items(ls: Seq<Vec<PlayerItem>>) -> Seq<PlayerItemView>
    decreases ls.len(),
{
    if ls.len() == 0 {
        Seq::empty()
    } else {
        items_view(ls[0]@) + all_items(ls.drop_first())
    }
}

/// Every record is well formed.
pub open spec fn all_wf(items: Seq<PlayerItemView>) -> bool {
    forall|k: int| 0 <= k < items.len() ==> wf_item(#[trigger] items[k])
}

/// Every stored quantity of every record fits the machine word.
pub open spec fn bounded_entries(items: Seq<PlayerItemView>) -> bool {
    forall|k: int, j: int|
        0 <= k < items.len() && 0 <= j < items[k].locations.len() ==> specs_bounded(
            #[trigger] items[k].locations[j].1,
        )
}

/// Index of the first aggregate record with the given id, or `None`.
fn find_item_index(acc: &Vec<PlayerItem>, id: usize) -> (r: Option<usize>)
    ensures
        match r {
            Some(p) => p < acc@.len() && find_id(items_view(acc@), id as int) == p,
            None => find_id(items_view(acc@), id as int) == -1,
        },
{
    let ghost av = items_view(acc@);
    let mut k: usize = 0;
    while k < acc.len()
        invariant
            av == items_view(acc@),
            k <= acc@.len(),
            forall|j: int| 0 <= j < k ==> av[j].id != id,
        decreases acc@.len() - k,
    {
        proof {
            assert(av[k as int] == acc@[k as int]@);
        }
        if acc[k].id == id {
            proof {
                lemma_find_id(av, id as int);
            }
            return Some(k);
        }
        k = k + 1;
    }
    proof {
        lemma_find_id(av, id as int);
    }
    None
}

/// Merge the fetched per-location record lists into one aggregate with one
/// record per item id: a known id has its location table merged in under
/// the merge invariant, keeping the first-seen metadata; an unknown id
/// becomes a new record, taken verbatim.
#[verifier::rlimit(100)]
pub fn merge_item_lists(lists: Vec<Vec<PlayerItem>>) -> (r: Vec<PlayerItem>)
    requires
        all_wf(all_items(lists@)),
        bounded_entries(merge_all(Seq::empty(), all_items(lists@))),
    ensures
        items_view(r@) == merge_all(Seq::empty(), all_items(lists@)),
{
    let ghost all0 = all_items(lists@);
    let mut rem_lists = lists;
    let mut acc: Vec<PlayerItem> = Vec::new();
    let ghost c: int = 0;
    proof {
        assert(items_view(acc@) =~= Seq::<PlayerItemView>::empty());
        assert(all0.take(0) =~= Seq::<PlayerItemView>::empty());
        assert(merge_all(Seq::empty(), all0.take(0)) == Seq::<PlayerItemView>::empty());
        assert(all0 =~= all0.take(0) + all_items(rem_lists@));
    }
    while rem_lists.len() > 0
        invariant
            0 <= c <= all0.len(),
            all_wf(all0),
            bounded_entries(merge_all(Seq::empty(), all0)),
            items_view(acc@) == merge_all(Seq::empty(), all0.take(c)),
            all0 == all0.take(c) + all_items(rem_lists@),
        decreases rem_lists@.len(),
    {
        let ghost lr0 = rem_lists@;
        let mut cur = rem_lists.remove(0);
        let ghost cur0 = cur@;
        proof {
            assert(rem_lists@ =~= lr0.drop_first());
            assert(cur == lr0[0]);
            assert(all_items(lr0) == items_view(cur0) + all_items(rem_lists@));
            vstd::seq_lib::lemma_concat_associative(
                all0.take(c),
                items_view(cur0),
                all_items(rem_lists@),
            );
            assert(all0 == all0.take(c) + (items_view(cur0) + all_items(rem_lists@)));
        }
        while cur.len() > 0
            invariant
                0 <= c <= all0.len(),
                all_wf(all0),
                bounded_entries(merge_all(Seq::empty(), all0)),
                items_view(acc@) == merge_all(Seq::empty(), all0.take(c)),
                all0 == all0.take(c) + (items_view(cur@) + all_items(rem_lists@)),
            decreases cur@.len(),
        {
            let ghost cb = cur@;
            let item = cur.remove(0);
            let ghost itv = item@;
            let ghost accv = items_view(acc@);
            let ghost rest = items_view(cur@) + all_items(rem_lists@);
            proof {
                assert(cur@ =~= cb.drop_first());
                assert(item == cb[0]);
                assert(items_view(cb) == seq![itv] + items_view(cur@));
                vstd::seq_lib::lemma_concat_associative(seq![itv], items_view(cur@), all_items(rem_lists@));
                assert(all0 == all0.take(c) + (seq![itv] + rest));
                // The record being merged is the next of the flattened
                // input, so it is well formed.
                assert(all0[c] == itv) by {
                    assert((all0.take(c) + (seq![itv] + rest))[c] == (seq![itv] + rest)[0]);
                }
                assert(wf_item(itv));
                // One merge step extends the processed prefix by one.
                assert(all0.take(c + 1) =~= all0.take(c).push(itv));
                assert(all0.take(c).push(itv) =~= all0.take(c) + seq![itv]);
                lemma_merge_all_append(Seq::empty(), all0.take(c), seq![itv]);
                assert(merge_all(accv, seq![itv]) == merge_into(accv, itv)) by {
                    assert(seq![itv][0] == itv);
                    assert(seq![itv].drop_first() =~= Seq::<PlayerItemView>::empty());
                    assert(merge_all(merge_into(accv, itv), seq![itv].drop_first()) == merge_into(
                        accv,
                        itv,
                    ));
                }
                assert(merge_all(Seq::empty(), all0.take(c + 1)) == merge_into(accv, itv));
                // What remains after this record still merges to the whole.
                lemma_merge_all_append(Seq::empty(), all0.take(c) + seq![itv], rest);
                assert(all0 =~= (all0.take(c) + seq![itv]) + rest);
                assert(merge_all(Seq::empty(), all0) == merge_all(merge_into(accv, itv), rest));
                assert(all_wf(rest)) by {
                    assert(forall|k: int|
                        0 <= k < rest.len() ==> rest[k] == all0[c + 1 + k]);
                }
            }
            match find_item_index(&acc, item.id) {
                Some(p) => {
                    proof {
                        lemma_find_id(accv, itv.id);
                        assert(accv[p as int] == acc@[p as int]@);
                        // Every quantity sum this merge takes stays within
                        // the machine word: the final aggregate holds at
                        // least these sums, and it is representable.
                        assert forall|l: LocationView|
                            (entry_at(accv[p as int].locations, l) is Some && entry_at(
                                itv.locations,
                                l,
                            ) is Some) implies (entry_at(accv[p as int].locations, l)->0.count
                            + entry_at(itv.locations, l)->0.count <= usize::MAX && entry_at(
                            accv[p as int].locations,
                            l,
                        )->0.charges + entry_at(itv.locations, l)->0.charges <= usize::MAX) by {
                            let x = entry_at(accv[p as int].locations, l)->0;
                            let y = entry_at(itv.locations, l)->0;
                            assert(entry_of(accv, itv.id, l) == Some(x));
                            lemma_merge_into_entry(accv, itv, itv.id, l);
                            let after = merge_into(accv, itv);
                            assert(entry_of(after, itv.id, l) == Some(merge_specifics(x, y)));
                            lemma_merge_all_monotone(after, rest, itv.id, l);
                            let merged = merge_all(Seq::empty(), all0);
                            assert(entry_of(merged, itv.id, l) is Some);
                            let z = entry_of(merged, itv.id, l)->0;
                            assert(z.count >= x.count + y.count && z.charges >= x.charges
                                + y.charges);
                            lemma_find_id(merged, itv.id);
                            let q = find_id(merged, itv.id);
                            lemma_find_loc(merged[q].locations, l);
                            assert(specs_bounded(z));
                        }
                    }
                    let ghost acc_before = acc@;
                    let mut target = acc.remove(p);
                    proof {
                        assert(target == acc_before[p as int]);
                        assert(target@ == accv[p as int]);
                    }
                    target.add(&item);
                    let ghost tv = target@;
                    acc.insert(p, target);
                    proof {
                        assert(acc@ == acc_before.remove(p as int).insert(p as int, acc@[p as int]));
                        assert(acc@ =~= acc_before.update(p as int, acc@[p as int]));
                        assert(acc@[p as int]@ == tv);
                        assert(tv == (PlayerItemView {
                            locations: merge_locations(accv[p as int].locations, itv.locations),
                            ..accv[p as int]
                        }));
                        assert(items_view(acc@) =~= accv.update(p as int, tv));
                        assert(items_view(acc@) == merge_into(accv, itv));
                    }
                }
                None => {
                    acc.push(item);
                    proof {
                        assert(items_view(acc@) =~= accv.push(itv));
                        assert(items_view(acc@) == merge_into(accv, itv));
                    }
                }
            }
            proof {
                c = c + 1;
                assert(items_view(acc@) == merge_all(Seq::empty(), all0.take(c)));
                vstd::seq_lib::lemma_concat_associative(
                    all0.take(c - 1),
                    seq![itv],
                    items_view(cur@) + all_items(rem_lists@),
                );
                assert(all0 =~= all0.take(c) + (items_view(cur@) + all_items(rem_lists@)));
            }
        }
        proof {
            assert(items_view(cur@) =~= Seq::<PlayerItemView>::empty());
            assert(items_view(cur@) + all_items(rem_lists@) =~= all_items(rem_lists@));
        }
    }
    proof {
        assert(all_items(rem_lists@) =~= Seq::<PlayerItemView>::empty());
        assert(all0 =~= all0.take(c));
        assert(c == all0.len());
    }
    acc
}

/// The record stores no empty material entry: if it has a material-storage
/// entry at all, something is stored there.
pub open spec fn material_positive(v: PlayerItemView) -> bool {
    match entry_at(v.locations, LocationView::MaterialStorage) {
        Some(s) => s.count > 0,
        None => true,
    }
}

/// Material entries stored in zero quantity never appear in the merged
/// aggregates: when no incoming record carries an empty material entry,
/// no merged record does either.
pub proof fn lemma_material_positive_merge(acc: Seq<PlayerItemView>, items: Seq<PlayerItemView>)
    requires
        all_wf(items),
        forall|k: int| 0 <= k < acc.len() ==> material_positive(#[trigger] acc[k]),
        forall|k: int| 0 <= k < items.len() ==> material_positive(#[trigger] items[k]),
    ensures
        forall|k: int|
            0 <= k < merge_all(acc, items).len() ==> material_positive(
                #[trigger] merge_all(acc, items)[k],
            ),
    decreases items.len(),
{
    if items.len() > 0 {
        let it = items[0];
        let acc1 = merge_into(acc, it);
        let p = find_id(acc, it.id);
        assert(wf_item(it));
        lemma_find_id(acc, it.id);
        assert forall|k: int| 0 <= k < acc1.len() implies material_positive(#[trigger] acc1[k]) by {
            if p >= 0 {
                if k == p {
                    lemma_merge_locations_at(
                        acc[p].locations,
                        it.locations,
                        LocationView::MaterialStorage,
                    );
                    assert(material_positive(acc[p]));
                    assert(material_positive(it));
                    if entry_at(it.locations, LocationView::MaterialStorage) is Some {
                        lemma_find_loc(it.locations, LocationView::MaterialStorage);
                        assert(specs_bounded(
                            entry_at(it.locations, LocationView::MaterialStorage)->0,
                        ));
                    }
                    if entry_at(acc[p].locations, LocationView::MaterialStorage) is Some {
                        lemma_find_loc(acc[p].locations, LocationView::MaterialStorage);
                    }
                } else {
                    assert(acc1[k] == acc[k]);
                }
            } else {
                if k < acc.len() {
                    assert(acc1[k] == acc[k]);
                } else {
                    assert(acc1[k] == it);
                }
            }
        }
        assert(forall|k: int|
            0 <= k < items.drop_first().len() ==> items.drop_first()[k] == items[k + 1]);
        lemma_material_positive_merge(acc1, items.drop_first());
        assert(merge_all(acc, items) == merge_all(acc1, items.drop_first()));
        assert forall|k: int| 0 <= k < merge_all(acc, items).len() implies material_positive(
            #[trigger] merge_all(acc, items)[k],
        ) by {
            assert(merge_all(acc, items)[k] == merge_all(acc1, items.drop_first())[k]);
        }
    }
}

/// The documents an aggregate is indexed as, record by record.
pub open spec fn docs_of(items: Seq<PlayerItemView>) -> Seq<DocumentView> {
    items.map_values(
        |v: PlayerItemView| DocumentView {
            id: v.id,
            name: lower_seq(v.name),
            descr: lower_seq(
                match v.description {
                    Some(d) => d,
                    None => Seq::<char>::empty(),
                },
            ),
            payload: crate::codec::enc_item(v),
        },
    )
}

/// Index the given aggregate records: the index is rebuilt wholesale from
/// their documents in one commit.
#[verifier::rlimit(100)]
pub fn store(index: &mut SearchIndex, items: &Vec<PlayerItem>)
    ensures
        final(index).committed_docs() == docs_of(items_view(items@)),
        final(index).visible_docs() == old(index).visible_docs(),
{
    let ghost iv = items_view(items@);
    let mut docs: Vec<crate::index::engine::Document> = Vec::new();
    let mut i: usize = 0;
    proof {
        assert(crate::index::engine::docs_view(docs@) =~= docs_of(iv).take(0));
    }
    while i < items.len()
        invariant
            iv == items_view(items@),
            i <= items@.len(),
            crate::index::engine::docs_view(docs@) == docs_of(iv).take(i as int),
        decreases items@.len() - i,
    {
        let ghost d0 = crate::index::engine::docs_view(docs@);
        let d = items[i].doc();
        docs.push(d);
        proof {
            assert(items@[i as int]@ == iv[i as int]);
            assert(crate::index::engine::docs_view(docs@) =~= d0.push(docs_of(iv)[i as int]));
            assert(docs_of(iv).take(i + 1) =~= docs_of(iv).take(i as int).push(
                docs_of(iv)[i as int],
            ));
        }
        i = i + 1;
    }
    proof {
        assert(docs_of(iv).take(iv.len() as int) =~= docs_of(iv));
    }
    add_documents(index, docs);
}

/// One whole refresh, once every location's records are fetched: the lists
/// are merged into one aggregate per item id, the index is rebuilt from
/// them wholesale, and the moment of this refresh is recorded. The reader
/// keeps serving the previous generation until it is told to reload.
pub fn fetch_all_items(
    lists: Vec<Vec<PlayerItem>>,
    index: &mut SearchIndex,
    settings: &mut Settings,
    now: i64,
)
    requires
        all_wf(all_items(lists@)),
        bounded_entries(merge_all(Seq::empty(), all_items(lists@))),
    ensures
        final(index).committed_docs() == docs_of(
            merge_all(Seq::empty(), all_items(lists@)),
        ),
        final(index).visible_docs() == old(index).visible_docs(),
        final(settings).last_update == Some(now),
        final(settings).api_key == old(settings).api_key,
        final(settings).item_load_limit == old(settings).item_load_limit,
{
    let merged = merge_item_lists(lists);
    store(index, &merged);
    settings.update_last_update(now);
}

} // verus!
