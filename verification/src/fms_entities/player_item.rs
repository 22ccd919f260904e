//! The merged per-item record: where on the account an item lies and, per
//! location, how many there are and which modifiers sit in them.
//!
//! Merging two records that share an item id works per location: a location
//! present in both has its `count` and `charges` summed and its modifier
//! lists appended; a location present only in the incoming record is
//! inserted verbatim.

use vstd::prelude::*;

use crate::entities::{Gw2Item, Gw2ItemType, Gw2PlayerItem, Gw2Rarity, Gw2Tp};

verus! {

/// Where a specific item lies on the account.
#[derive(Debug)]
pub enum Location {
    Character(String),
    Bank,
    SharedInventory,
    MaterialStorage,
}

/// Mathematical shape of a [`Location`]: the character name as a character
/// sequence.
pub enum LocationView {
    Character(Seq<char>),
    Bank,
    SharedInventory,
    MaterialStorage,
}

impl View for Location {
    type V = LocationView;

    open spec fn view(&self) -> LocationView {
        match self {
            Location::Character(name) => LocationView::Character(name@),
            Location::Bank => LocationView::Bank,
            Location::SharedInventory => LocationView::SharedInventory,
            Location::MaterialStorage => LocationView::MaterialStorage,
        }
    }
}

impl Location {
    /// Identity of a location: its variant and, for characters, the name.
    pub fn same_as(&self, other: &Location) -> (r: bool)
        ensures
            r == (self@ == other@),
    {
        match (self, other) {
            (Location::Character(a), Location::Character(b)) => *a == *b,
            (Location::Bank, Location::Bank) => true,
            (Location::SharedInventory, Location::SharedInventory) => true,
            (Location::MaterialStorage, Location::MaterialStorage) => true,
            _ => false,
        }
    }

    /// An identical copy of this location.
    pub fn duplicate(&self) -> (r: Location)
        ensures
            r@ == self@,
    {
        match self {
            Location::Character(name) => Location::Character(name.clone()),
            Location::Bank => Location::Bank,
            Location::SharedInventory => Location::SharedInventory,
            Location::MaterialStorage => Location::MaterialStorage,
        }
    }
}

/// Quantity and modifiers of an item at one location.
#[derive(Debug)]
pub struct PlayerItemSpecifics {
    pub count: usize,
    pub charges: usize,
    pub upgrades: Vec<usize>,
    pub infusions: Vec<usize>,
}

/// Mathematical shape of [`PlayerItemSpecifics`]: unbounded quantities and
/// the modifier id sequences.
pub struct SpecificsView {
    pub count: int,
    pub charges: int,
    pub upgrades: Seq<usize>,
    pub infusions: Seq<usize>,
}

impl View for PlayerItemSpecifics {
    type V = SpecificsView;

    open spec fn view(&self) -> SpecificsView {
        SpecificsView {
            count: self.count as int,
            charges: self.charges as int,
            upgrades: self.upgrades@,
            infusions: self.infusions@,
        }
    }
}

impl PlayerItemSpecifics {
    /// An identical copy of these specifics.
    pub fn duplicate(&self) -> (r: PlayerItemSpecifics)
        ensures
            r@ == self@,
    {
        PlayerItemSpecifics {
            count: self.count,
            charges: self.charges,
            upgrades: copy_ids(&self.upgrades),
            infusions: copy_ids(&self.infusions),
        }
    }
}

impl Default for PlayerItemSpecifics {
    /// Empty specifics: nothing stored, no modifiers.
    fn default() -> (r: PlayerItemSpecifics)
        ensures
            r@.count == 0,
            r@.charges == 0,
            r@.upgrades == Seq::<usize>::empty(),
            r@.infusions == Seq::<usize>::empty(),
    {
        PlayerItemSpecifics { count: 0, charges: 0, upgrades: Vec::new(), infusions: Vec::new() }
    }
}

/// An element-wise copy of a modifier id list.
pub fn copy_ids(v: &Vec<usize>) -> (r: Vec<usize>)
    ensures
        r@ == v@,
{
    let mut r: Vec<usize> = Vec::new();
    let mut i: usize = 0;
    while i < v.len()
        invariant
            i <= v.len(),
            r@ == v@.take(i as int),
        decreases v.len() - i,
    {
        r.push(v[i]);
        proof {
            assert(r@ =~= v@.take(i + 1));
        }
        i = i + 1;
    }
    proof {
        assert(v@.take(v@.len() as int) =~= v@);
    }
    r
}

/// The merged per-item record that is stored and indexed.
#[derive(Debug)]
pub struct PlayerItem {
    pub id: usize,
    pub name: String,
    pub description: Option<String>,
    pub icon: Option<String>,
    pub item_type: Gw2ItemType,
    pub rarity: Gw2Rarity,
    pub locations: Vec<(Location, PlayerItemSpecifics)>,
    pub tp_info: Option<Gw2Tp>,
}

/// Mathematical shape of a [`PlayerItem`].
pub struct PlayerItemView {
    pub id: int,
    pub name: Seq<char>,
    pub description: Option<Seq<char>>,
    pub icon: Option<Seq<char>>,
    pub item_type: Gw2ItemType,
    pub rarity: Gw2Rarity,
    pub locations: Seq<(LocationView, SpecificsView)>,
    pub tp_info: Option<Gw2Tp>,
}

/// The location table of a record, seen mathematically.
pub open spec fn locs_view(locs: Seq<(Location, PlayerItemSpecifics)>) -> Seq<
    (LocationView, SpecificsView),
> {
    locs.map_values(|e: (Location, PlayerItemSpecifics)| (e.0@, e.1@))
}

impl View for PlayerItem {
    type V = PlayerItemView;

    open spec fn view(&self) -> PlayerItemView {
        PlayerItemView {
            id: self.id as int,
            name: self.name@,
            description: match self.description {
                Some(d) => Some(d@),
                None => None,
            },
            icon: match self.icon {
                Some(i) => Some(i@),
                None => None,
            },
            item_type: self.item_type,
            rarity: self.rarity,
            locations: locs_view(self.locations@),
            tp_info: self.tp_info,
        }
    }
}

/// Specifics are representable: quantities fit the machine word and are not
/// negative.
pub open spec fn specs_bounded(s: SpecificsView) -> bool {
    &&& 0 <= s.count <= usize::MAX
    &&& 0 <= s.charges <= usize::MAX
}

/// No location occurs twice.
pub open spec fn unique_locs(locs: Seq<(LocationView, SpecificsView)>) -> bool {
    forall|i: int, j: int| 0 <= i < j < locs.len() ==> locs[i].0 != locs[j].0
}

/// No location occurs twice, and every entry is representable.
pub open spec fn wf_locations(locs: Seq<(LocationView, SpecificsView)>) -> bool {
    &&& unique_locs(locs)
    &&& forall|i: int| 0 <= i < locs.len() ==> specs_bounded(#[trigger] locs[i].1)
}

/// A well-formed item record: at most one specifics entry per location.
pub open spec fn wf_item(v: PlayerItemView) -> bool {
    wf_locations(v.locations)
}

/// Index of the first entry for location `l`, or `-1` when absent.
pub open spec fn find_loc(locs: Seq<(LocationView, SpecificsView)>, l: LocationView) -> int
    decreases locs.len(),
{
    if locs.len() == 0 {
        -1
    } else if locs[0].0 == l {
        0
    } else {
        let r = find_loc(locs.drop_first(), l);
        if r == -1 {
            -1
        } else {
            r + 1
        }
    }
}

/// The specifics stored for location `l`, if any.
pub open spec fn entry_at(locs: Seq<(LocationView, SpecificsView)>, l: LocationView) -> Option<
    SpecificsView,
> {
    let i = find_loc(locs, l);
    if i >= 0 {
        Some(locs[i].1)
    } else {
        None
    }
}

/// `find_loc` finds the first entry of its location, and `-1` means absence.
pub proof fn lemma_find_loc(locs: Seq<(LocationView, SpecificsView)>, l: LocationView)
    ensures
        find_loc(locs, l) >= 0 ==> {
            &&& find_loc(locs, l) < locs.len()
            &&& locs[find_loc(locs, l)].0 == l
            &&& forall|k: int| 0 <= k < find_loc(locs, l) ==> locs[k].0 != l
        },
        find_loc(locs, l) == -1 <==> (forall|k: int| 0 <= k < locs.len() ==> locs[k].0 != l),
        find_loc(locs, l) >= 0 || find_loc(locs, l) == -1,
    decreases locs.len(),
{
    if locs.len() == 0 {
    } else if locs[0].0 == l {
    } else {
        lemma_find_loc(locs.drop_first(), l);
        assert(forall|k: int| 1 <= k < locs.len() ==> locs[k] == locs.drop_first()[k - 1]);
    }
}

/// Sum of quantities, concatenation of modifier lists.
pub open spec fn merge_specifics(a: SpecificsView, b: SpecificsView) -> SpecificsView {
    SpecificsView {
        count: a.count + b.count,
        charges: a.charges + b.charges,
        upgrades: a.upgrades + b.upgrades,
        infusions: a.infusions + b.infusions,
    }
}

/// Merge one incoming location entry: accumulate into the existing entry for
/// that location, or append the entry verbatim.
pub open spec fn merge_entry(
    locs: Seq<(LocationView, SpecificsView)>,
    e: (LocationView, SpecificsView),
) -> Seq<(LocationView, SpecificsView)> {
    let i = find_loc(locs, e.0);
    if i >= 0 {
        locs.update(i, (e.0, merge_specifics(locs[i].1, e.1)))
    } else {
        locs.push(e)
    }
}

/// Merge every entry of `b` into `a`, left to right.
pub open spec fn merge_locations(
    a: Seq<(LocationView, SpecificsView)>,
    b: Seq<(LocationView, SpecificsView)>,
) -> Seq<(LocationView, SpecificsView)>
    decreases b.len(),
{
    if b.len() == 0 {
        a
    } else {
        merge_locations(merge_entry(a, b[0]), b.drop_first())
    }
}

/// Two entry sequences with the same locations in the same positions are
/// searched alike.
proof fn lemma_find_loc_same_keys(
    a: Seq<(LocationView, SpecificsView)>,
    b: Seq<(LocationView, SpecificsView)>,
    l: LocationView,
)
    requires
        a.len() == b.len(),
        forall|k: int| 0 <= k < a.len() ==> a[k].0 == b[k].0,
    ensures
        find_loc(a, l) == find_loc(b, l),
    decreases a.len(),
{
    if a.len() > 0 {
        assert(forall|k: int| 0 <= k < a.len() - 1 ==> a.drop_first()[k].0 == b.drop_first()[k].0);
        lemma_find_loc_same_keys(a.drop_first(), b.drop_first(), l);
    }
}

/// Searching after appending one entry: the appended entry is found last.
proof fn lemma_find_loc_push(
    a: Seq<(LocationView, SpecificsView)>,
    e: (LocationView, SpecificsView),
    l: LocationView,
)
    ensures
        find_loc(a.push(e), l) == if find_loc(a, l) >= 0 {
            find_loc(a, l)
        } else if e.0 == l {
            a.len() as int
        } else {
            -1
        },
    decreases a.len(),
{
    let ap = a.push(e);
    if a.len() == 0 {
        assert(ap[0] == e);
        assert(ap.len() == 1);
        if e.0 == l {
            assert(find_loc(ap, l) == 0);
        } else {
            assert(ap.drop_first() =~= Seq::<(LocationView, SpecificsView)>::empty());
            assert(find_loc(ap.drop_first(), l) == -1);
            assert(find_loc(ap, l) == -1);
        }
    } else {
        assert(ap[0] == a[0]);
        assert(ap.drop_first() =~= a.drop_first().push(e));
        lemma_find_loc_push(a.drop_first(), e, l);
        let t = find_loc(a.drop_first(), l);
        assert(find_loc(ap.drop_first(), l) == find_loc(a.drop_first().push(e), l));
        if a[0].0 == l {
            assert(find_loc(a, l) == 0);
            assert(find_loc(ap, l) == 0);
        } else if t >= 0 {
            assert(find_loc(a, l) == t + 1);
            assert(find_loc(ap.drop_first(), l) == t);
            assert(find_loc(ap, l) == t + 1);
        } else {
            lemma_find_loc(a.drop_first(), l);
            assert(t == -1);
            assert(find_loc(a, l) == -1);
            if e.0 == l {
                assert(find_loc(ap.drop_first(), l) == a.len() - 1);
                assert(find_loc(ap, l) == a.len());
            } else {
                assert(find_loc(ap.drop_first(), l) == -1);
                assert(find_loc(ap, l) == -1);
            }
        }
    }
}

/// What merging a single entry does to each location: the entry's own
/// location accumulates, every other location is untouched.
pub proof fn lemma_merge_entry_at(
    locs: Seq<(LocationView, SpecificsView)>,
    e: (LocationView, SpecificsView),
    l: LocationView,
)
    ensures
        l == e.0 ==> entry_at(merge_entry(locs, e), l) == match entry_at(locs, e.0) {
            Some(s) => Some(merge_specifics(s, e.1)),
            None => Some(e.1),
        },
        l != e.0 ==> entry_at(merge_entry(locs, e), l) == entry_at(locs, l),
{
    lemma_find_loc(locs, e.0);
    lemma_find_loc(locs, l);
    let i = find_loc(locs, e.0);
    let m = merge_entry(locs, e);
    if i >= 0 {
        assert(forall|k: int| 0 <= k < locs.len() ==> locs[k].0 == m[k].0);
        lemma_find_loc_same_keys(locs, m, l);
        lemma_find_loc(m, l);
    } else {
        lemma_find_loc_push(locs, e, l);
        lemma_find_loc(m, l);
    }
}

/// Merging a single entry keeps the locations pairwise distinct.
proof fn lemma_merge_entry_unique(
    locs: Seq<(LocationView, SpecificsView)>,
    e: (LocationView, SpecificsView),
)
    requires
        unique_locs(locs),
    ensures
        unique_locs(merge_entry(locs, e)),
{
    lemma_find_loc(locs, e.0);
    let i = find_loc(locs, e.0);
    let m = merge_entry(locs, e);
    if i >= 0 {
        assert(forall|k: int| 0 <= k < locs.len() ==> locs[k].0 == m[k].0);
    } else {
        assert(forall|k: int| 0 <= k < locs.len() ==> m[k] == locs[k]);
        assert(m[locs.len() as int].0 == e.0);
    }
}

/// Merging one entry after the rest equals merging the extended sequence.
proof fn lemma_merge_locations_push(
    a: Seq<(LocationView, SpecificsView)>,
    b: Seq<(LocationView, SpecificsView)>,
    e: (LocationView, SpecificsView),
)
    ensures
        merge_locations(a, b.push(e)) == merge_entry(merge_locations(a, b), e),
    decreases b.len(),
{
    let bp = b.push(e);
    if b.len() == 0 {
        assert(bp[0] == e);
        assert(bp.drop_first() =~= Seq::<(LocationView, SpecificsView)>::empty());
        assert(merge_locations(a, bp) == merge_locations(merge_entry(a, e), bp.drop_first()));
        assert(merge_locations(merge_entry(a, e), bp.drop_first()) == merge_entry(a, e));
        assert(merge_locations(a, b) == a);
    } else {
        assert(bp[0] == b[0]);
        assert(bp.drop_first() =~= b.drop_first().push(e));
        lemma_merge_locations_push(merge_entry(a, b[0]), b.drop_first(), e);
        assert(merge_locations(a, bp) == merge_locations(merge_entry(a, b[0]), bp.drop_first()));
        assert(merge_locations(merge_entry(a, b[0]), bp.drop_first()) == merge_locations(
            merge_entry(a, b[0]),
            b.drop_first().push(e),
        ));
        assert(merge_locations(a, b) == merge_locations(merge_entry(a, b[0]), b.drop_first()));
    }
}

/// Dropping the head of a sequence of pairwise-distinct locations keeps
/// them pairwise distinct.
proof fn lemma_unique_drop_first(b: Seq<(LocationView, SpecificsView)>)
    requires
        unique_locs(b),
        b.len() > 0,
    ensures
        unique_locs(b.drop_first()),
{
    assert(forall|i: int, j: int|
        0 <= i < j < b.drop_first().len() ==> b.drop_first()[i].0 == b[i + 1].0
            && b.drop_first()[j].0 == b[j + 1].0);
}

/// The merge invariant, location by location: a location in both sides
/// accumulates, one in a single side is kept or inserted verbatim, and no
/// location appears from nowhere.
pub proof fn lemma_merge_locations_at(
    a: Seq<(LocationView, SpecificsView)>,
    b: Seq<(LocationView, SpecificsView)>,
    l: LocationView,
)
    requires
        unique_locs(b),
    ensures
        entry_at(merge_locations(a, b), l) == match (entry_at(a, l), entry_at(b, l)) {
            (Some(x), Some(y)) => Some(merge_specifics(x, y)),
            (Some(x), None) => Some(x),
            (None, Some(y)) => Some(y),
            (None, None) => None::<SpecificsView>,
        },
    decreases b.len(),
{
    lemma_find_loc(b, l);
    if b.len() == 0 {
    } else {
        let e = b[0];
        let a1 = merge_entry(a, e);
        let b1 = b.drop_first();
        lemma_unique_drop_first(b);
        lemma_merge_entry_at(a, e, l);
        lemma_merge_locations_at(a1, b1, l);
        lemma_find_loc(b1, l);
        if e.0 == l {
            // The head of `b` is the only entry of `b` at `l`.
            assert(find_loc(b, l) == 0);
            assert(entry_at(b, l) == Some(e.1));
            assert(forall|k: int| 0 <= k < b1.len() ==> b1[k].0 == b[k + 1].0);
            assert(entry_at(b1, l) is None);
        } else {
            // Entries of `b` at `l` all sit in its tail.
            assert(forall|k: int| 0 <= k < b1.len() ==> b1[k] == b[k + 1]);
            if find_loc(b, l) >= 0 {
                assert(find_loc(b, l) >= 1);
                assert(b1[find_loc(b, l) - 1] == b[find_loc(b, l)]);
                lemma_find_loc(b1, l);
                assert(entry_at(b1, l) == entry_at(b, l));
            } else {
                assert(forall|k: int| 0 <= k < b1.len() ==> b1[k].0 != l);
                assert(entry_at(b1, l) is None);
            }
        }
    }
}

/// A prefix of pairwise-distinct locations is pairwise distinct.
proof fn lemma_unique_take(b: Seq<(LocationView, SpecificsView)>, n: int)
    requires
        unique_locs(b),
        0 <= n <= b.len(),
    ensures
        unique_locs(b.take(n)),
{
    assert(forall|k: int| 0 <= k < n ==> b.take(n)[k] == b[k]);
}

/// An identical copy of an optional text field.
pub fn clone_opt_string(s: &Option<String>) -> (r: Option<String>)
    ensures
        r == *s,
{
    match s {
        Some(x) => Some(x.clone()),
        None => None,
    }
}

/// Index of the first entry for the given location, or `None` when absent.
fn find_location_index(locs: &Vec<(Location, PlayerItemSpecifics)>, l: &Location) -> (r: Option<
    usize,
>)
    ensures
        match r {
            Some(i) => i < locs@.len() && find_loc(locs_view(locs@), l@) == i as int,
            None => find_loc(locs_view(locs@), l@) == -1,
        },
{
    let ghost lv = locs_view(locs@);
    let mut i: usize = 0;
    while i < locs.len()
        invariant
            i <= locs@.len(),
            lv == locs_view(locs@),
            forall|k: int| 0 <= k < i ==> lv[k].0 != l@,
        decreases locs@.len() - i,
    {
        if locs[i].0.same_as(l) {
            proof {
                assert(lv[i as int].0 == locs@[i as int].0@);
                lemma_find_loc(lv, l@);
            }
            return Some(i);
        }
        proof {
            assert(lv[i as int].0 == locs@[i as int].0@);
        }
        i = i + 1;
    }
    proof {
        lemma_find_loc(lv, l@);
    }
    None
}

/// The two quantity sums taken during a merge stay within the machine word.
pub open spec fn can_accumulate(
    a: Seq<(LocationView, SpecificsView)>,
    b: Seq<(LocationView, SpecificsView)>,
) -> bool {
    forall|l: LocationView|
        #![auto]
        (entry_at(a, l) is Some && entry_at(b, l) is Some) ==> {
            &&& entry_at(a, l)->0.count + entry_at(b, l)->0.count <= usize::MAX
            &&& entry_at(a, l)->0.charges + entry_at(b, l)->0.charges <= usize::MAX
        }
}

impl PlayerItem {
    /// One fresh record for a raw inventory entry at one location, carrying
    /// the resolved metadata.
    pub fn from(location: Location, item: &Gw2PlayerItem, gw2item: &Gw2Item) -> (r: PlayerItem)
        ensures
            r@.id == item.id,
            r@.name == gw2item.name@,
            r@.description == (match gw2item.description {
                Some(d) => Some(d@),
                None => None::<Seq<char>>,
            }),
            r@.icon == (match gw2item.icon {
                Some(i) => Some(i@),
                None => None::<Seq<char>>,
            }),
            r@.item_type == gw2item.item_type,
            r@.rarity == gw2item.rarity,
            r@.tp_info is None,
            r@.locations =~= seq![
                (
                    location@,
                    (SpecificsView {
                        count: item.count as int,
                        charges: (match item.charges {
                            Some(c) => c,
                            None => 0,
                        }) as int,
                        upgrades: (match item.upgrades {
                            Some(u) => u@,
                            None => Seq::<usize>::empty(),
                        }),
                        infusions: (match item.infusions {
                            Some(v) => v@,
                            None => Seq::<usize>::empty(),
                        }),
                    }),
                ),
            ],
            wf_item(r@),
    {
        let specifics = PlayerItemSpecifics {
            count: item.count,
            charges: match &item.charges {
                Some(c) => *c,
                None => 0,
            },
            upgrades: match &item.upgrades {
                Some(u) => copy_ids(u),
                None => Vec::new(),
            },
            infusions: match &item.infusions {
                Some(v) => copy_ids(v),
                None => Vec::new(),
            },
        };
        let mut locations: Vec<(Location, PlayerItemSpecifics)> = Vec::new();
        locations.push((location, specifics));
        PlayerItem {
            id: item.id,
            name: gw2item.name.clone(),
            description: clone_opt_string(&gw2item.description),
            icon: clone_opt_string(&gw2item.icon),
            item_type: gw2item.item_type,
            rarity: gw2item.rarity,
            locations,
            tp_info: None,
        }
    }

    /// Attach (or clear) the trading-post prices of this record; everything
    /// else stays as it was.
    pub fn set_tp(&mut self, tp: Option<Gw2Tp>)
        ensures
            final(self)@ == (PlayerItemView { tp_info: tp, ..old(self)@ }),
    {
        self.tp_info = tp;
    }

    /// Merge another record of the same item into this one, location by
    /// location: a location both records carry has its quantities summed and
    /// its modifier lists appended; a location only `item` carries is
    /// inserted verbatim. The metadata of `self` is kept.
    pub fn add(&mut self, item: &PlayerItem)
        requires
            unique_locs(item@.locations),
            can_accumulate(old(self)@.locations, item@.locations),
        ensures
            final(self)@ == (PlayerItemView {
                locations: merge_locations(old(self)@.locations, item@.locations),
                ..old(self)@
            }),
            unique_locs(old(self)@.locations) ==> unique_locs(final(self)@.locations),
    {
        proof {
            if unique_locs(old(self)@.locations) {
                lemma_merge_locations_unique(old(self)@.locations, item@.locations);
            }
        }
        let ghost a0 = old(self)@.locations;
        let ghost bv = item@.locations;
        let mut j: usize = 0;
        while j < item.locations.len()
            invariant
                j <= item.locations@.len(),
                bv == item@.locations,
                unique_locs(bv),
                can_accumulate(a0, bv),
                self@.locations == merge_locations(a0, bv.take(j as int)),
                self@ == (PlayerItemView { locations: self@.locations, ..old(self)@ }),
            decreases item.locations@.len() - j,
        {
            let ghost cur = self@.locations;
            let ghost e = bv[j as int];
            proof {
                assert(bv.take(j as int).push(e) =~= bv.take(j + 1));
                lemma_merge_locations_push(a0, bv.take(j as int), e);
                // The location of `e` is untouched by the earlier entries of
                // `item`, so its current quantities are still those of `a0`.
                lemma_unique_take(bv, j as int);
                lemma_find_loc(bv.take(j as int), e.0);
                assert(forall|k: int| 0 <= k < j ==> bv.take(j as int)[k] == bv[k]);
                assert(forall|k: int| 0 <= k < j ==> bv[k].0 != e.0);
                assert(entry_at(bv.take(j as int), e.0) is None);
                lemma_merge_locations_at(a0, bv.take(j as int), e.0);
                assert(entry_at(cur, e.0) == entry_at(a0, e.0));
                lemma_find_loc(bv, e.0);
                assert(entry_at(bv, e.0) is Some);
            }
            let entry_loc = &item.locations[j].0;
            let entry_specs = &item.locations[j].1;
            proof {
                assert(e == (entry_loc@, entry_specs@));
            }
            match find_location_index(&self.locations, entry_loc) {
                Some(i) => {
                    proof {
                        lemma_find_loc(cur, e.0);
                        assert(entry_at(cur, e.0) == Some(cur[i as int].1));
                        // The quantity bound of `can_accumulate` applies to
                        // this location, found in both sides.
                        assert(cur[i as int].1.count + e.1.count <= usize::MAX);
                        assert(cur[i as int].1.charges + e.1.charges <= usize::MAX);
                        assert(cur[i as int] == (self.locations@[i as int].0@,
                        self.locations@[i as int].1@));
                    }
                    let merged_count = self.locations[i].1.count + entry_specs.count;
                    let merged_charges = self.locations[i].1.charges + entry_specs.charges;
                    let mut upgrades = copy_ids(&self.locations[i].1.upgrades);
                    let mut more_upgrades = copy_ids(&entry_specs.upgrades);
                    upgrades.append(&mut more_upgrades);
                    let mut infusions = copy_ids(&self.locations[i].1.infusions);
                    let mut more_infusions = copy_ids(&entry_specs.infusions);
                    infusions.append(&mut more_infusions);
                    let merged = PlayerItemSpecifics {
                        count: merged_count,
                        charges: merged_charges,
                        upgrades,
                        infusions,
                    };
                    self.locations.set(i, (entry_loc.duplicate(), merged));
                    proof {
                        assert(self@.locations =~= cur.update(
                            i as int,
                            (e.0, merge_specifics(cur[i as int].1, e.1)),
                        ));
                        assert(self@.locations == merge_entry(cur, e));
                    }
                }
                None => {
                    self.locations.push((entry_loc.duplicate(), entry_specs.duplicate()));
                    proof {
                        assert(self@.locations =~= cur.push(e));
                        assert(self@.locations == merge_entry(cur, e));
                    }
                }
            }
            j = j + 1;
        }
        proof {
            assert(bv.take(bv.len() as int) =~= bv);
        }
    }
}

/// Merging two records over disjoint locations yields the union of their
/// location tables, each side's specifics unchanged.
pub proof fn lemma_merge_disjoint_locations(
    a: Seq<(LocationView, SpecificsView)>,
    b: Seq<(LocationView, SpecificsView)>,
    l: LocationView,
)
    requires
        unique_locs(b),
        entry_at(a, l) is None || entry_at(b, l) is None,
    ensures
        entry_at(merge_locations(a, b), l) == if entry_at(a, l) is Some {
            entry_at(a, l)
        } else {
            entry_at(b, l)
        },
{
    lemma_merge_locations_at(a, b, l);
}

/// Merging two records that both carry location `l` sums `count` and
/// `charges` there and appends the modifier lists without deduplication.
pub proof fn lemma_merge_shared_location(
    a: Seq<(LocationView, SpecificsView)>,
    b: Seq<(LocationView, SpecificsView)>,
    l: LocationView,
)
    requires
        unique_locs(b),
        entry_at(a, l) is Some,
        entry_at(b, l) is Some,
    ensures
        entry_at(merge_locations(a, b), l) is Some,
        entry_at(merge_locations(a, b), l)->0.count == entry_at(a, l)->0.count + entry_at(
            b,
            l,
        )->0.count,
        entry_at(merge_locations(a, b), l)->0.charges == entry_at(a, l)->0.charges + entry_at(
            b,
            l,
        )->0.charges,
        entry_at(merge_locations(a, b), l)->0.upgrades == entry_at(a, l)->0.upgrades + entry_at(
            b,
            l,
        )->0.upgrades,
        entry_at(merge_locations(a, b), l)->0.infusions == entry_at(a, l)->0.infusions + entry_at(
            b,
            l,
        )->0.infusions,
{
    lemma_merge_locations_at(a, b, l);
}

/// Merging keeps locations pairwise distinct.
pub proof fn lemma_merge_locations_unique(
    a: Seq<(LocationView, SpecificsView)>,
    b: Seq<(LocationView, SpecificsView)>,
)
    requires
        unique_locs(a),
    ensures
        unique_locs(merge_locations(a, b)),
    decreases b.len(),
{
    if b.len() > 0 {
        lemma_merge_entry_unique(a, b[0]);
        lemma_merge_locations_unique(merge_entry(a, b[0]), b.drop_first());
    }
}

} // verus!
