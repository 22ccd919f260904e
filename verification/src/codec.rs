//! The document payload format: a merged item record framed as bytes so a
//! search hit can be reconstructed without a second data fetch.
//!
//! Every number is eight little-endian bytes; texts are a length followed by
//! one encoded scalar per character; the location table is a length followed
//! by one tagged entry per location. Trading-post prices are never part of a
//! payload: they are attached to in-memory results only.

use vstd::prelude::*;

use crate::entities::{Gw2ItemType, Gw2Rarity};
use crate::fms_entities::player_item::{
    Location, LocationView, PlayerItem, PlayerItemSpecifics, PlayerItemView, SpecificsView,
};
use crate::text::valid_scalar;

verus! {

/// Eight little-endian bytes of a 64-bit number.
pub open spec fn enc_u64(v: u64) -> Seq<u8> {
    seq![
        (v & 0xff) as u8,
        ((v >> 8) & 0xff) as u8,
        ((v >> 16) & 0xff) as u8,
        ((v >> 24) & 0xff) as u8,
        ((v >> 32) & 0xff) as u8,
        ((v >> 40) & 0xff) as u8,
        ((v >> 48) & 0xff) as u8,
        ((v >> 56) & 0xff) as u8,
    ]
}

/// The number held by the first eight bytes, little endian.
pub open spec fn le_val(s: Seq<u8>) -> u64 {
    (s[0] as u64) | ((s[1] as u64) << 8) | ((s[2] as u64) << 16) | ((s[3] as u64) << 24) | ((
    s[4] as u64) << 32) | ((s[5] as u64) << 40) | ((s[6] as u64) << 48) | ((s[7] as u64) << 56)
}

/// Read one number and return what follows it.
pub open spec fn parse_u64(s: Seq<u8>) -> Option<(u64, Seq<u8>)> {
    if s.len() < 8 {
        None
    } else {
        Some((le_val(s), s.skip(8)))
    }
}

/// The eight bytes of a number hold that number.
pub proof fn lemma_le_val_enc(v: u64)
    ensures
        le_val(enc_u64(v)) == v,
{
    assert((v & 0xff) < 256 && ((v >> 8) & 0xff) < 256 && ((v >> 16) & 0xff) < 256 && ((v >> 24)
        & 0xff) < 256 && ((v >> 32) & 0xff) < 256 && ((v >> 40) & 0xff) < 256 && ((v >> 48) & 0xff)
        < 256 && ((v >> 56) & 0xff) < 256) by (bit_vector);
    assert(v == (v & 0xff) | (((v >> 8) & 0xff) << 8) | (((v >> 16) & 0xff) << 16) | (((v >> 24)
        & 0xff) << 24) | (((v >> 32) & 0xff) << 32) | (((v >> 40) & 0xff) << 40) | (((v >> 48)
        & 0xff) << 48) | (((v >> 56) & 0xff) << 56)) by (bit_vector);
}

/// Parsing the encoding of a number yields the number and the remainder.
pub proof fn lemma_parse_u64(v: u64, rest: Seq<u8>)
    ensures
        parse_u64(enc_u64(v) + rest) == Some((v, rest)),
{
    let s = enc_u64(v) + rest;
    assert(s.len() >= 8);
    assert(forall|k: int| 0 <= k < 8 ==> s[k] == enc_u64(v)[k]);
    lemma_le_val_enc(v);
    assert(le_val(s) == le_val(enc_u64(v)));
    assert(s.skip(8) =~= rest);
}

/// One character as its encoded scalar value.
pub open spec fn enc_char(c: char) -> Seq<u8> {
    enc_u64(c as u64)
}

/// Read one character; a value that is no Unicode scalar is rejected.
pub open spec fn parse_char(s: Seq<u8>) -> Option<(char, Seq<u8>)> {
    match parse_u64(s) {
        None => None,
        Some((w, r)) => if w <= 0x10FFFF && valid_scalar(w as u32) {
            Some(((w as u32) as char, r))
        } else {
            None
        },
    }
}

/// Parsing an encoded character yields it back.
pub proof fn lemma_parse_char(c: char, rest: Seq<u8>)
    ensures
        parse_char(enc_char(c) + rest) == Some((c, rest)),
{
    lemma_parse_u64(c as u64, rest);
    assert(c as u64 <= 0x10FFFF);
    assert(valid_scalar((c as u64) as u32));
    assert(((c as u64) as u32) as char == c);
}

/// The characters of a text, encoded in order.
pub open spec fn enc_chars(s: Seq<char>) -> Seq<u8>
    decreases s.len(),
{
    if s.len() == 0 {
        Seq::empty()
    } else {
        enc_char(s[0]) + enc_chars(s.drop_first())
    }
}

/// Read exactly `n` characters.
pub open spec fn parse_chars(s: Seq<u8>, n: nat) -> Option<(Seq<char>, Seq<u8>)>
    decreases n,
{
    if n == 0 {
        Some((Seq::empty(), s))
    } else {
        match parse_char(s) {
            None => None,
            Some((c, r)) => match parse_chars(r, (n - 1) as nat) {
                None => None,
                Some((cs, r2)) => Some((seq![c] + cs, r2)),
            },
        }
    }
}

/// Parsing the encoded characters of a text yields the text back.
pub proof fn lemma_parse_chars(cs: Seq<char>, rest: Seq<u8>)
    ensures
        parse_chars(enc_chars(cs) + rest, cs.len()) == Some((cs, rest)),
    decreases cs.len(),
{
    if cs.len() == 0 {
        assert(enc_chars(cs) + rest =~= rest);
        assert(parse_chars(rest, 0) == Some((Seq::<char>::empty(), rest)));
        assert(cs =~= Seq::<char>::empty());
    } else {
        let c = cs[0];
        let tail = cs.drop_first();
        assert(enc_chars(cs) + rest =~= enc_char(c) + (enc_chars(tail) + rest));
        lemma_parse_char(c, enc_chars(tail) + rest);
        lemma_parse_chars(tail, rest);
        assert(seq![c] + tail =~= cs);
    }
}

/// A text: its length, then its characters.
pub open spec fn enc_str(s: Seq<char>) -> Seq<u8> {
    enc_u64(s.len() as u64) + enc_chars(s)
}

/// Read a text.
pub open spec fn parse_str(s: Seq<u8>) -> Option<(Seq<char>, Seq<u8>)> {
    match parse_u64(s) {
        None => None,
        Some((n, r)) => parse_chars(r, n as nat),
    }
}

/// Parsing an encoded text yields the text back.
pub proof fn lemma_parse_str(cs: Seq<char>, rest: Seq<u8>)
    requires
        cs.len() <= u64::MAX,
    ensures
        parse_str(enc_str(cs) + rest) == Some((cs, rest)),
{
    assert(enc_str(cs) + rest =~= enc_u64(cs.len() as u64) + (enc_chars(cs) + rest));
    lemma_parse_u64(cs.len() as u64, enc_chars(cs) + rest);
    lemma_parse_chars(cs, rest);
}

/// An optional text: a presence tag, then the text if present.
pub open spec fn enc_opt_str(s: Option<Seq<char>>) -> Seq<u8> {
    match s {
        None => enc_u64(0),
        Some(cs) => enc_u64(1) + enc_str(cs),
    }
}

/// Read an optional text.
pub open spec fn parse_opt_str(s: Seq<u8>) -> Option<(Option<Seq<char>>, Seq<u8>)> {
    match parse_u64(s) {
        None => None,
        Some((tag, r)) => if tag == 0 {
            Some((None, r))
        } else if tag == 1 {
            match parse_str(r) {
                None => None,
                Some((cs, r2)) => Some((Some(cs), r2)),
            }
        } else {
            None
        },
    }
}

/// Parsing an encoded optional text yields it back.
pub proof fn lemma_parse_opt_str(s: Option<Seq<char>>, rest: Seq<u8>)
    requires
        s is Some ==> s->0.len() <= u64::MAX,
    ensures
        parse_opt_str(enc_opt_str(s) + rest) == Some((s, rest)),
{
    match s {
        None => {
            lemma_parse_u64(0, rest);
        }
        Some(cs) => {
            assert(enc_opt_str(s) + rest =~= enc_u64(1) + (enc_str(cs) + rest));
            lemma_parse_u64(1, enc_str(cs) + rest);
            lemma_parse_str(cs, rest);
        }
    }
}

/// A modifier id list: its length, then one number per id.
pub open spec fn enc_ids(s: Seq<usize>) -> Seq<u8> {
    enc_u64(s.len() as u64) + enc_id_items(s)
}

/// The ids of a modifier list, encoded in order.
pub open spec fn enc_id_items(s: Seq<usize>) -> Seq<u8>
    decreases s.len(),
{
    if s.len() == 0 {
        Seq::empty()
    } else {
        enc_u64(s[0] as u64) + enc_id_items(s.drop_first())
    }
}

/// Read exactly `n` ids; one too wide for the machine word is rejected.
pub open spec fn parse_id_items(s: Seq<u8>, n: nat) -> Option<(Seq<usize>, Seq<u8>)>
    decreases n,
{
    if n == 0 {
        Some((Seq::empty(), s))
    } else {
        match parse_u64(s) {
            None => None,
            Some((w, r)) => if w <= usize::MAX {
                match parse_id_items(r, (n - 1) as nat) {
                    None => None,
                    Some((ids, r2)) => Some((seq![w as usize] + ids, r2)),
                }
            } else {
                None
            },
        }
    }
}

/// Read a modifier id list.
pub open spec fn parse_ids(s: Seq<u8>) -> Option<(Seq<usize>, Seq<u8>)> {
    match parse_u64(s) {
        None => None,
        Some((n, r)) => parse_id_items(r, n as nat),
    }
}

/// Parsing encoded ids yields them back.
#[verifier::rlimit(100)]
#[verifier::spinoff_prover]
pub proof fn lemma_parse_id_items(ids: Seq<usize>, rest: Seq<u8>)
    ensures
        parse_id_items(enc_id_items(ids) + rest, ids.len()) == Some((ids, rest)),
    decreases ids.len(),
{
    if ids.len() == 0 {
        assert(enc_id_items(ids) + rest =~= rest);
        assert(ids =~= Seq::<usize>::empty());
    } else {
        let x = ids[0];
        let tail = ids.drop_first();
        assert(enc_id_items(ids) + rest =~= enc_u64(x as u64) + (enc_id_items(tail) + rest));
        lemma_parse_u64(x as u64, enc_id_items(tail) + rest);
        assert(x as u64 <= usize::MAX);
        assert((x as u64) as usize == x);
        lemma_parse_id_items(tail, rest);
        assert(seq![x] + tail =~= ids);
    }
}

/// Parsing an encoded modifier list yields it back.
pub proof fn lemma_parse_ids(ids: Seq<usize>, rest: Seq<u8>)
    requires
        ids.len() <= u64::MAX,
    ensures
        parse_ids(enc_ids(ids) + rest) == Some((ids, rest)),
{
    assert(enc_ids(ids) + rest =~= enc_u64(ids.len() as u64) + (enc_id_items(ids) + rest));
    lemma_parse_u64(ids.len() as u64, enc_id_items(ids) + rest);
    lemma_parse_id_items(ids, rest);
}

/// The code of an item category.
pub open spec fn type_code(t: Gw2ItemType) -> u64 {
    match t {
        Gw2ItemType::Armor => 0,
        Gw2ItemType::Back => 1,
        Gw2ItemType::Bag => 2,
        Gw2ItemType::Consumable => 3,
        Gw2ItemType::Container => 4,
        Gw2ItemType::CraftingMaterial => 5,
        Gw2ItemType::Gathering => 6,
        Gw2ItemType::Gizmo => 7,
        Gw2ItemType::JadeTechModule => 8,
        Gw2ItemType::Key => 9,
        Gw2ItemType::MiniPet => 10,
        Gw2ItemType::PowerCore => 11,
        Gw2ItemType::Relic => 12,
        Gw2ItemType::Tool => 13,
        Gw2ItemType::Trait => 14,
        Gw2ItemType::Trinket => 15,
        Gw2ItemType::Trophy => 16,
        Gw2ItemType::UpgradeComponent => 17,
        Gw2ItemType::Weapon => 18,
        Gw2ItemType::Unknown => 19,
    }
}

/// The item category of a code, if any.
pub open spec fn code_type(w: u64) -> Option<Gw2ItemType> {
    if w == 0 {
        Some(Gw2ItemType::Armor)
    } else if w == 1 {
        Some(Gw2ItemType::Back)
    } else if w == 2 {
        Some(Gw2ItemType::Bag)
    } else if w == 3 {
        Some(Gw2ItemType::Consumable)
    } else if w == 4 {
        Some(Gw2ItemType::Container)
    } else if w == 5 {
        Some(Gw2ItemType::CraftingMaterial)
    } else if w == 6 {
        Some(Gw2ItemType::Gathering)
    } else if w == 7 {
        Some(Gw2ItemType::Gizmo)
    } else if w == 8 {
        Some(Gw2ItemType::JadeTechModule)
    } else if w == 9 {
        Some(Gw2ItemType::Key)
    } else if w == 10 {
        Some(Gw2ItemType::MiniPet)
    } else if w == 11 {
        Some(Gw2ItemType::PowerCore)
    } else if w == 12 {
        Some(Gw2ItemType::Relic)
    } else if w == 13 {
        Some(Gw2ItemType::Tool)
    } else if w == 14 {
        Some(Gw2ItemType::Trait)
    } else if w == 15 {
        Some(Gw2ItemType::Trinket)
    } else if w == 16 {
        Some(Gw2ItemType::Trophy)
    } else if w == 17 {
        Some(Gw2ItemType::UpgradeComponent)
    } else if w == 18 {
        Some(Gw2ItemType::Weapon)
    } else if w == 19 {
        Some(Gw2ItemType::Unknown)
    } else {
        None
    }
}

/// The code of a rarity tier.
pub open spec fn rarity_code(t: Gw2Rarity) -> u64 {
    match t {
        Gw2Rarity::Junk => 0,
        Gw2Rarity::Basic => 1,
        Gw2Rarity::Fine => 2,
        Gw2Rarity::Masterwork => 3,
        Gw2Rarity::Rare => 4,
        Gw2Rarity::Exotic => 5,
        Gw2Rarity::Ascended => 6,
        Gw2Rarity::Legendary => 7,
    }
}

/// The rarity tier of a code, if any.
pub open spec fn code_rarity(w: u64) -> Option<Gw2Rarity> {
    if w == 0 {
        Some(Gw2Rarity::Junk)
    } else if w == 1 {
        Some(Gw2Rarity::Basic)
    } else if w == 2 {
        Some(Gw2Rarity::Fine)
    } else if w == 3 {
        Some(Gw2Rarity::Masterwork)
    } else if w == 4 {
        Some(Gw2Rarity::Rare)
    } else if w == 5 {
        Some(Gw2Rarity::Exotic)
    } else if w == 6 {
        Some(Gw2Rarity::Ascended)
    } else if w == 7 {
        Some(Gw2Rarity::Legendary)
    } else {
        None
    }
}

/// Location specifics: the two quantities, then the two modifier lists.
pub open spec fn enc_specs(v: SpecificsView) -> Seq<u8> {
    enc_u64(v.count as u64) + enc_u64(v.charges as u64) + enc_ids(v.upgrades) + enc_ids(v.infusions)
}

/// Read location specifics.
pub open spec fn parse_specs(s: Seq<u8>) -> Option<(SpecificsView, Seq<u8>)> {
    match parse_u64(s) {
        None => None,
        Some((count, r)) => if count <= usize::MAX {
            match parse_u64(r) {
                None => None,
                Some((charges, r2)) => if charges <= usize::MAX {
                    match parse_ids(r2) {
                        None => None,
                        Some((upgrades, r3)) => match parse_ids(r3) {
                            None => None,
                            Some((infusions, r4)) => Some(
                                (
                                    SpecificsView {
                                        count: count as int,
                                        charges: charges as int,
                                        upgrades,
                                        infusions,
                                    },
                                    r4,
                                ),
                            ),
                        },
                    }
                } else {
                    None
                },
            }
        } else {
            None
        },
    }
}

/// Specifics representable on this machine and short enough to frame.
pub open spec fn encodable_specs(v: SpecificsView) -> bool {
    &&& 0 <= v.count <= usize::MAX
    &&& 0 <= v.charges <= usize::MAX
    &&& v.upgrades.len() <= u64::MAX
    &&& v.infusions.len() <= u64::MAX
}

/// Parsing encoded specifics yields them back.
pub proof fn lemma_parse_specs(v: SpecificsView, rest: Seq<u8>)
    requires
        encodable_specs(v),
    ensures
        parse_specs(enc_specs(v) + rest) == Some((v, rest)),
{
    let t1 = enc_u64(v.charges as u64) + (enc_ids(v.upgrades) + (enc_ids(v.infusions) + rest));
    assert(enc_specs(v) + rest =~= enc_u64(v.count as u64) + t1);
    lemma_parse_u64(v.count as u64, t1);
    let t2 = enc_ids(v.upgrades) + (enc_ids(v.infusions) + rest);
    assert(t1 =~= enc_u64(v.charges as u64) + t2);
    lemma_parse_u64(v.charges as u64, t2);
    let t3 = enc_ids(v.infusions) + rest;
    lemma_parse_ids(v.upgrades, t3);
    lemma_parse_ids(v.infusions, rest);
}

/// A location: a variant tag, then the character name where one exists.
pub open spec fn enc_loc(l: LocationView) -> Seq<u8> {
    match l {
        LocationView::Character(name) => enc_u64(0) + enc_str(name),
        LocationView::Bank => enc_u64(1),
        LocationView::SharedInventory => enc_u64(2),
        LocationView::MaterialStorage => enc_u64(3),
    }
}

/// Read a location.
pub open spec fn parse_loc(s: Seq<u8>) -> Option<(LocationView, Seq<u8>)> {
    match parse_u64(s) {
        None => None,
        Some((tag, r)) => if tag == 0 {
            match parse_str(r) {
                None => None,
                Some((name, r2)) => Some((LocationView::Character(name), r2)),
            }
        } else if tag == 1 {
            Some((LocationView::Bank, r))
        } else if tag == 2 {
            Some((LocationView::SharedInventory, r))
        } else if tag == 3 {
            Some((LocationView::MaterialStorage, r))
        } else {
            None
        },
    }
}

/// A location short enough to frame.
pub open spec fn encodable_loc(l: LocationView) -> bool {
    match l {
        LocationView::Character(name) => name.len() <= u64::MAX,
        _ => true,
    }
}

/// Parsing an encoded location yields it back.
pub proof fn lemma_parse_loc(l: LocationView, rest: Seq<u8>)
    requires
        encodable_loc(l),
    ensures
        parse_loc(enc_loc(l) + rest) == Some((l, rest)),
{
    match l {
        LocationView::Character(name) => {
            assert(enc_loc(l) + rest =~= enc_u64(0) + (enc_str(name) + rest));
            lemma_parse_u64(0, enc_str(name) + rest);
            lemma_parse_str(name, rest);
        }
        LocationView::Bank => {
            lemma_parse_u64(1, rest);
        }
        LocationView::SharedInventory => {
            lemma_parse_u64(2, rest);
        }
        LocationView::MaterialStorage => {
            lemma_parse_u64(3, rest);
        }
    }
}

/// The location table, one tagged entry per location, in order.
pub open spec fn enc_entries(locs: Seq<(LocationView, SpecificsView)>) -> Seq<u8>
    decreases locs.len(),
{
    if locs.len() == 0 {
        Seq::empty()
    } else {
        enc_loc(locs[0].0) + enc_specs(locs[0].1) + enc_entries(locs.drop_first())
    }
}

/// Read exactly `n` location entries.
pub open spec fn parse_entries(s: Seq<u8>, n: nat) -> Option<
    (Seq<(LocationView, SpecificsView)>, Seq<u8>),
>
    decreases n,
{
    if n == 0 {
        Some((Seq::empty(), s))
    } else {
        match parse_loc(s) {
            None => None,
            Some((l, r)) => match parse_specs(r) {
                None => None,
                Some((v, r2)) => match parse_entries(r2, (n - 1) as nat) {
                    None => None,
                    Some((es, r3)) => Some((seq![(l, v)] + es, r3)),
                },
            },
        }
    }
}

/// Every entry of the location table can be framed.
pub open spec fn encodable_entries(locs: Seq<(LocationView, SpecificsView)>) -> bool {
    forall|i: int|
        0 <= i < locs.len() ==> encodable_loc(#[trigger] locs[i].0) && encodable_specs(locs[i].1)
}

/// Parsing an encoded location table yields it back.
#[verifier::rlimit(100)]
#[verifier::spinoff_prover]
pub proof fn lemma_parse_entries(locs: Seq<(LocationView, SpecificsView)>, rest: Seq<u8>)
    requires
        encodable_entries(locs),
    ensures
        parse_entries(enc_entries(locs) + rest, locs.len()) == Some((locs, rest)),
    decreases locs.len(),
{
    if locs.len() == 0 {
        assert(enc_entries(locs) + rest =~= rest);
        assert(locs =~= Seq::<(LocationView, SpecificsView)>::empty());
    } else {
        let e = locs[0];
        let tail = locs.drop_first();
        let a = enc_loc(e.0);
        let b = enc_specs(e.1);
        let c = enc_entries(tail);
        vstd::seq_lib::lemma_concat_associative(a + b, c, rest);
        vstd::seq_lib::lemma_concat_associative(a, b, c + rest);
        assert(enc_entries(locs) == a + b + c);
        assert(enc_entries(locs) + rest == a + (b + (c + rest)));
        lemma_parse_loc(e.0, b + (c + rest));
        assert(parse_loc(a + (b + (c + rest))) == Some((e.0, b + (c + rest))));
        lemma_parse_specs(e.1, c + rest);
        assert(parse_specs(b + (c + rest)) == Some((e.1, c + rest)));
        assert(encodable_entries(tail)) by {
            assert(forall|k: int| 0 <= k < tail.len() ==> tail[k] == locs[k + 1]);
        }
        lemma_parse_entries(tail, rest);
        assert(parse_entries(c + rest, tail.len()) == Some((tail, rest)));
        assert((e.0, e.1) == e);
        assert(seq![(e.0, e.1)] + tail =~= locs);
    }
}

/// A whole item record, in field order; prices are never framed.
pub open spec fn enc_item(v: PlayerItemView) -> Seq<u8> {
    enc_u64(v.id as u64) + enc_str(v.name) + enc_opt_str(v.description) + enc_opt_str(v.icon)
        + enc_u64(type_code(v.item_type)) + enc_u64(rarity_code(v.rarity)) + enc_u64(
        v.locations.len() as u64,
    ) + enc_entries(v.locations)
}

/// Read a whole item record; its prices start unset.
pub open spec fn parse_item(s: Seq<u8>) -> Option<(PlayerItemView, Seq<u8>)> {
    match parse_u64(s) {
        None => None,
        Some((id, r)) => if id <= usize::MAX {
            match parse_str(r) {
                None => None,
                Some((name, r2)) => match parse_opt_str(r2) {
                    None => None,
                    Some((description, r3)) => match parse_opt_str(r3) {
                        None => None,
                        Some((icon, r4)) => match parse_u64(r4) {
                            None => None,
                            Some((tc, r5)) => match code_type(tc) {
                                None => None,
                                Some(item_type) => match parse_u64(r5) {
                                    None => None,
                                    Some((rc, r6)) => match code_rarity(rc) {
                                        None => None,
                                        Some(rarity) => match parse_u64(r6) {
                                            None => None,
                                            Some((n, r7)) => match parse_entries(r7, n as nat) {
                                                None => None,
                                                Some((locations, r8)) => Some(
                                                    (
                                                        PlayerItemView {
                                                            id: id as int,
                                                            name,
                                                            description,
                                                            icon,
                                                            item_type,
                                                            rarity,
                                                            locations,
                                                            tp_info: None,
                                                        },
                                                        r8,
                                                    ),
                                                ),
                                            },
                                        },
                                    },
                                },
                            },
                        },
                    },
                },
            }
        } else {
            None
        },
    }
}

/// An item record representable on this machine and short enough to frame.
pub open spec fn encodable_item(v: PlayerItemView) -> bool {
    &&& 0 <= v.id <= usize::MAX
    &&& v.name.len() <= u64::MAX
    &&& (v.description is Some ==> v.description->0.len() <= u64::MAX)
    &&& (v.icon is Some ==> v.icon->0.len() <= u64::MAX)
    &&& v.locations.len() <= u64::MAX
    &&& encodable_entries(v.locations)
}

/// Framing an item record and reading it back yields a record equal in
/// every field, with the never-framed prices unset.
#[verifier::rlimit(100)]
pub proof fn lemma_parse_enc_item(v: PlayerItemView, rest: Seq<u8>)
    requires
        encodable_item(v),
    ensures
        parse_item(enc_item(v) + rest) == Some((PlayerItemView { tp_info: None, ..v }, rest)),
{
    let t7 = enc_entries(v.locations) + rest;
    let t6 = enc_u64(v.locations.len() as u64) + t7;
    let t5 = enc_u64(rarity_code(v.rarity)) + t6;
    let t4 = enc_u64(type_code(v.item_type)) + t5;
    let t3 = enc_opt_str(v.icon) + t4;
    let t2 = enc_opt_str(v.description) + t3;
    let t1 = enc_str(v.name) + t2;
    let s = enc_item(v) + rest;
    assert(s == enc_u64(v.id as u64) + t1) by {
        let e1 = enc_u64(v.id as u64);
        let e2 = enc_str(v.name);
        let e3 = enc_opt_str(v.description);
        let e4 = enc_opt_str(v.icon);
        let e5 = enc_u64(type_code(v.item_type));
        let e6 = enc_u64(rarity_code(v.rarity));
        let e7 = enc_u64(v.locations.len() as u64);
        let e8 = enc_entries(v.locations);
        vstd::seq_lib::lemma_concat_associative(e1 + e2 + e3 + e4 + e5 + e6 + e7, e8, rest);
        vstd::seq_lib::lemma_concat_associative(e1 + e2 + e3 + e4 + e5 + e6, e7, t7);
        vstd::seq_lib::lemma_concat_associative(e1 + e2 + e3 + e4 + e5, e6, t6);
        vstd::seq_lib::lemma_concat_associative(e1 + e2 + e3 + e4, e5, t5);
        vstd::seq_lib::lemma_concat_associative(e1 + e2 + e3, e4, t4);
        vstd::seq_lib::lemma_concat_associative(e1 + e2, e3, t3);
        vstd::seq_lib::lemma_concat_associative(e1, e2, t2);
    }
    lemma_parse_u64(v.id as u64, t1);
    assert(parse_u64(s) == Some((v.id as u64, t1)));
    lemma_parse_str(v.name, t2);
    assert(parse_str(t1) == Some((v.name, t2)));
    lemma_parse_opt_str(v.description, t3);
    assert(parse_opt_str(t2) == Some((v.description, t3)));
    lemma_parse_opt_str(v.icon, t4);
    assert(parse_opt_str(t3) == Some((v.icon, t4)));
    lemma_parse_u64(type_code(v.item_type), t5);
    assert(parse_u64(t4) == Some((type_code(v.item_type), t5)));
    assert(code_type(type_code(v.item_type)) == Some(v.item_type));
    lemma_parse_u64(rarity_code(v.rarity), t6);
    assert(parse_u64(t5) == Some((rarity_code(v.rarity), t6)));
    assert(code_rarity(rarity_code(v.rarity)) == Some(v.rarity));
    lemma_parse_u64(v.locations.len() as u64, t7);
    assert(parse_u64(t6) == Some((v.locations.len() as u64, t7)));
    lemma_parse_entries(v.locations, rest);
    assert(parse_entries(t7, v.locations.len()) == Some((v.locations, rest)));
}

/// Round trip: framing a record with unset prices and reading the payload
/// back yields a record equal in every field.
pub proof fn lemma_payload_round_trip(v: PlayerItemView)
    requires
        encodable_item(v),
        v.tp_info is None,
    ensures
        parse_item(enc_item(v)) == Some((v, Seq::<u8>::empty())),
{
    lemma_parse_enc_item(v, Seq::empty());
    assert(enc_item(v) + Seq::<u8>::empty() =~= enc_item(v));
    assert(PlayerItemView { tp_info: None, ..v } == v);
}

/// Appending one encoded character extends the encoded text at its end.
proof fn lemma_enc_chars_push(s: Seq<char>, c: char)
    ensures
        enc_chars(s.push(c)) == enc_chars(s) + enc_char(c),
    decreases s.len(),
{
    if s.len() == 0 {
        assert(s.push(c)[0] == c);
        assert(s.push(c).drop_first() =~= Seq::<char>::empty());
        assert(enc_chars(s.push(c)) == enc_char(c) + enc_chars(s.push(c).drop_first()));
        assert(enc_chars(s.push(c).drop_first()) == enc_chars(Seq::<char>::empty()));
        assert(enc_chars(s.push(c)) =~= enc_char(c));
        assert(enc_chars(s) + enc_char(c) =~= enc_char(c));
    } else {
        assert(s.push(c)[0] == s[0]);
        assert(s.push(c).drop_first() =~= s.drop_first().push(c));
        lemma_enc_chars_push(s.drop_first(), c);
        vstd::seq_lib::lemma_concat_associative(
            enc_char(s[0]),
            enc_chars(s.drop_first()),
            enc_char(c),
        );
    }
}

/// Appending one encoded id extends the encoded list at its end.
proof fn lemma_enc_id_items_push(s: Seq<usize>, x: usize)
    ensures
        enc_id_items(s.push(x)) == enc_id_items(s) + enc_u64(x as u64),
    decreases s.len(),
{
    if s.len() == 0 {
        assert(s.push(x)[0] == x);
        assert(s.push(x).drop_first() =~= Seq::<usize>::empty());
        assert(enc_id_items(s.push(x)) == enc_u64(x as u64) + enc_id_items(s.push(x).drop_first()));
        assert(enc_id_items(s.push(x).drop_first()) == enc_id_items(Seq::<usize>::empty()));
        assert(enc_id_items(s.push(x)) =~= enc_u64(x as u64));
        assert(enc_id_items(s) + enc_u64(x as u64) =~= enc_u64(x as u64));
    } else {
        assert(s.push(x)[0] == s[0]);
        assert(s.push(x).drop_first() =~= s.drop_first().push(x));
        lemma_enc_id_items_push(s.drop_first(), x);
        vstd::seq_lib::lemma_concat_associative(
            enc_u64(s[0] as u64),
            enc_id_items(s.drop_first()),
            enc_u64(x as u64),
        );
    }
}

/// Appending one encoded entry extends the encoded table at its end.
proof fn lemma_enc_entries_push(
    s: Seq<(LocationView, SpecificsView)>,
    e: (LocationView, SpecificsView),
)
    ensures
        enc_entries(s.push(e)) == enc_entries(s) + (enc_loc(e.0) + enc_specs(e.1)),
    decreases s.len(),
{
    if s.len() == 0 {
        assert(s.push(e)[0] == e);
        assert(s.push(e).drop_first() =~= Seq::<(LocationView, SpecificsView)>::empty());
        assert(enc_entries(s.push(e)) == enc_loc(e.0) + enc_specs(e.1) + enc_entries(
            s.push(e).drop_first(),
        ));
        assert(enc_entries(s.push(e).drop_first()) == enc_entries(
            Seq::<(LocationView, SpecificsView)>::empty(),
        ));
        assert(enc_entries(s.push(e)) =~= enc_loc(e.0) + enc_specs(e.1));
        assert(enc_entries(s) + (enc_loc(e.0) + enc_specs(e.1)) =~= enc_loc(e.0) + enc_specs(e.1));
    } else {
        assert(s.push(e)[0] == s[0]);
        assert(s.push(e).drop_first() =~= s.drop_first().push(e));
        lemma_enc_entries_push(s.drop_first(), e);
        vstd::seq_lib::lemma_concat_associative(
            enc_loc(s[0].0) + enc_specs(s[0].1),
            enc_entries(s.drop_first()),
            enc_loc(e.0) + enc_specs(e.1),
        );
    }
}

/// Append the eight bytes of a number.
fn push_u64(out: &mut Vec<u8>, v: u64)
    ensures
        final(out)@ == old(out)@ + enc_u64(v),
{
    out.push((v & 0xff) as u8);
    out.push(((v >> 8) & 0xff) as u8);
    out.push(((v >> 16) & 0xff) as u8);
    out.push(((v >> 24) & 0xff) as u8);
    out.push(((v >> 32) & 0xff) as u8);
    out.push(((v >> 40) & 0xff) as u8);
    out.push(((v >> 48) & 0xff) as u8);
    out.push(((v >> 56) & 0xff) as u8);
    proof {
        assert(out@ =~= old(out)@ + enc_u64(v));
    }
}

/// Append an encoded text.
fn push_chars(out: &mut Vec<u8>, s: &Vec<char>)
    ensures
        final(out)@ == old(out)@ + enc_str(s@),
{
    push_u64(out, s.len() as u64);
    let ghost base = out@;
    let mut i: usize = 0;
    proof {
        assert(enc_chars(s@.take(0)) =~= Seq::<u8>::empty());
        assert(out@ =~= base + enc_chars(s@.take(0)));
    }
    while i < s.len()
        invariant
            i <= s@.len(),
            base == old(out)@ + enc_u64(s@.len() as u64),
            out@ == base + enc_chars(s@.take(i as int)),
        decreases s@.len() - i,
    {
        let c = s[i];
        push_u64(out, c as u64);
        proof {
            assert(s@.take(i + 1) =~= s@.take(i as int).push(s@[i as int]));
            lemma_enc_chars_push(s@.take(i as int), s@[i as int]);
            vstd::seq_lib::lemma_concat_associative(
                base,
                enc_chars(s@.take(i as int)),
                enc_char(s@[i as int]),
            );
        }
        i = i + 1;
    }
    proof {
        assert(s@.take(s@.len() as int) =~= s@);
        vstd::seq_lib::lemma_concat_associative(
            old(out)@,
            enc_u64(s@.len() as u64),
            enc_chars(s@),
        );
    }
}

/// Append an encoded text taken from a string.
fn push_string(out: &mut Vec<u8>, s: &String)
    ensures
        final(out)@ == old(out)@ + enc_str(s@),
{
    let chars = crate::text::to_chars(s.as_str());
    push_chars(out, &chars);
}

/// Append an encoded optional text.
fn push_opt_string(out: &mut Vec<u8>, s: &Option<String>)
    ensures
        final(out)@ == old(out)@ + enc_opt_str(
            match s {
                Some(x) => Some(x@),
                None => None,
            },
        ),
{
    match s {
        None => {
            push_u64(out, 0);
        }
        Some(x) => {
            push_u64(out, 1);
            push_string(out, x);
            proof {
                vstd::seq_lib::lemma_concat_associative(old(out)@, enc_u64(1), enc_str(x@));
            }
        }
    }
}

/// Append an encoded modifier id list.
fn push_ids(out: &mut Vec<u8>, v: &Vec<usize>)
    ensures
        final(out)@ == old(out)@ + enc_ids(v@),
{
    push_u64(out, v.len() as u64);
    let ghost base = out@;
    let mut i: usize = 0;
    proof {
        assert(enc_id_items(v@.take(0)) =~= Seq::<u8>::empty());
        assert(out@ =~= base + enc_id_items(v@.take(0)));
    }
    while i < v.len()
        invariant
            i <= v@.len(),
            base == old(out)@ + enc_u64(v@.len() as u64),
            out@ == base + enc_id_items(v@.take(i as int)),
        decreases v@.len() - i,
    {
        push_u64(out, v[i] as u64);
        proof {
            assert(v@.take(i + 1) =~= v@.take(i as int).push(v@[i as int]));
            lemma_enc_id_items_push(v@.take(i as int), v@[i as int]);
            vstd::seq_lib::lemma_concat_associative(
                base,
                enc_id_items(v@.take(i as int)),
                enc_u64(v@[i as int] as u64),
            );
        }
        i = i + 1;
    }
    proof {
        assert(v@.take(v@.len() as int) =~= v@);
        vstd::seq_lib::lemma_concat_associative(
            old(out)@,
            enc_u64(v@.len() as u64),
            enc_id_items(v@),
        );
    }
}

/// Append encoded location specifics.
fn push_specs(out: &mut Vec<u8>, s: &PlayerItemSpecifics)
    ensures
        final(out)@ == old(out)@ + enc_specs(s@),
{
    push_u64(out, s.count as u64);
    push_u64(out, s.charges as u64);
    push_ids(out, &s.upgrades);
    push_ids(out, &s.infusions);
    proof {
        let e1 = enc_u64(s@.count as u64);
        let e2 = enc_u64(s@.charges as u64);
        let e3 = enc_ids(s@.upgrades);
        let e4 = enc_ids(s@.infusions);
        assert((((old(out)@ + e1) + e2) + e3) + e4 =~= old(out)@ + (e1 + e2 + e3 + e4));
    }
}

/// Append an encoded location.
fn push_loc(out: &mut Vec<u8>, l: &Location)
    ensures
        final(out)@ == old(out)@ + enc_loc(l@),
{
    match l {
        Location::Character(name) => {
            push_u64(out, 0);
            push_string(out, name);
            proof {
                vstd::seq_lib::lemma_concat_associative(old(out)@, enc_u64(0), enc_str(name@));
            }
        }
        Location::Bank => {
            push_u64(out, 1);
        }
        Location::SharedInventory => {
            push_u64(out, 2);
        }
        Location::MaterialStorage => {
            push_u64(out, 3);
        }
    }
}

/// The code of an item category, computed.
fn item_type_code(t: &Gw2ItemType) -> (r: u64)
    ensures
        r == type_code(*t),
{
    match t {
        Gw2ItemType::Armor => 0,
        Gw2ItemType::Back => 1,
        Gw2ItemType::Bag => 2,
        Gw2ItemType::Consumable => 3,
        Gw2ItemType::Container => 4,
        Gw2ItemType::CraftingMaterial => 5,
        Gw2ItemType::Gathering => 6,
        Gw2ItemType::Gizmo => 7,
        Gw2ItemType::JadeTechModule => 8,
        Gw2ItemType::Key => 9,
        Gw2ItemType::MiniPet => 10,
        Gw2ItemType::PowerCore => 11,
        Gw2ItemType::Relic => 12,
        Gw2ItemType::Tool => 13,
        Gw2ItemType::Trait => 14,
        Gw2ItemType::Trinket => 15,
        Gw2ItemType::Trophy => 16,
        Gw2ItemType::UpgradeComponent => 17,
        Gw2ItemType::Weapon => 18,
        Gw2ItemType::Unknown => 19,
    }
}

/// The code of a rarity tier, computed.
fn rarity_tier_code(t: &Gw2Rarity) -> (r: u64)
    ensures
        r == rarity_code(*t),
{
    match t {
        Gw2Rarity::Junk => 0,
        Gw2Rarity::Basic => 1,
        Gw2Rarity::Fine => 2,
        Gw2Rarity::Masterwork => 3,
        Gw2Rarity::Rare => 4,
        Gw2Rarity::Exotic => 5,
        Gw2Rarity::Ascended => 6,
        Gw2Rarity::Legendary => 7,
    }
}

/// Frame a whole item record as payload bytes; prices are never framed.
pub fn encode_item(item: &PlayerItem) -> (r: Vec<u8>)
    ensures
        r@ == enc_item(item@),
{
    let mut out: Vec<u8> = Vec::new();
    push_u64(&mut out, item.id as u64);
    push_string(&mut out, &item.name);
    push_opt_string(&mut out, &item.description);
    push_opt_string(&mut out, &item.icon);
    let tc = item_type_code(&item.item_type);
    push_u64(&mut out, tc);
    let rc = rarity_tier_code(&item.rarity);
    push_u64(&mut out, rc);
    push_u64(&mut out, item.locations.len() as u64);
    let ghost base = out@;
    let ghost lv = item@.locations;
    let mut i: usize = 0;
    proof {
        assert(enc_entries(lv.take(0)) =~= Seq::<u8>::empty());
        assert(out@ =~= base + enc_entries(lv.take(0)));
    }
    while i < item.locations.len()
        invariant
            i <= item.locations@.len(),
            lv == item@.locations,
            lv.len() == item.locations@.len(),
            out@ == base + enc_entries(lv.take(i as int)),
        decreases item.locations@.len() - i,
    {
        let ghost before = out@;
        push_loc(&mut out, &item.locations[i].0);
        push_specs(&mut out, &item.locations[i].1);
        proof {
            let e = lv[i as int];
            assert(e == (item.locations@[i as int].0@, item.locations@[i as int].1@));
            vstd::seq_lib::lemma_concat_associative(before, enc_loc(e.0), enc_specs(e.1));
            assert(lv.take(i + 1) =~= lv.take(i as int).push(e));
            lemma_enc_entries_push(lv.take(i as int), e);
            vstd::seq_lib::lemma_concat_associative(
                base,
                enc_entries(lv.take(i as int)),
                enc_loc(e.0) + enc_specs(e.1),
            );
        }
        i = i + 1;
    }
    proof {
        assert(lv.take(lv.len() as int) =~= lv);
        let e1 = enc_u64(item@.id as u64);
        let e2 = enc_str(item@.name);
        let e3 = enc_opt_str(item@.description);
        let e4 = enc_opt_str(item@.icon);
        let e5 = enc_u64(type_code(item@.item_type));
        let e6 = enc_u64(rarity_code(item@.rarity));
        let e7 = enc_u64(lv.len() as u64);
        let e8 = enc_entries(lv);
        assert(base =~= ((((((e1 + e2) + e3) + e4) + e5) + e6) + e7));
        assert(out@ =~= e1 + e2 + e3 + e4 + e5 + e6 + e7 + e8);
    }
    out
}

/// Read one number at `pos`.
fn read_u64(bytes: &Vec<u8>, pos: usize) -> (r: Option<(u64, usize)>)
    requires
        pos <= bytes@.len(),
    ensures
        match r {
            Some(p) => p.1 <= bytes@.len() && parse_u64(bytes@.skip(pos as int)) == Some(
                (p.0, bytes@.skip(p.1 as int)),
            ),
            None => parse_u64(bytes@.skip(pos as int)) is None,
        },
{
    if bytes.len() - pos < 8 {
        return None;
    }
    let v = (bytes[pos] as u64) | ((bytes[pos + 1] as u64) << 8) | ((bytes[pos + 2] as u64) << 16)
        | ((bytes[pos + 3] as u64) << 24) | ((bytes[pos + 4] as u64) << 32) | ((bytes[pos
        + 5] as u64) << 40) | ((bytes[pos + 6] as u64) << 48) | ((bytes[pos + 7] as u64) << 56);
    proof {
        let s = bytes@.skip(pos as int);
        assert(forall|k: int| 0 <= k < 8 ==> s[k] == bytes@[pos + k]);
        assert(v == le_val(s));
        assert(s.skip(8) =~= bytes@.skip(pos + 8));
    }
    Some((v, pos + 8))
}

/// Read one character at `pos`.
fn read_char(bytes: &Vec<u8>, pos: usize) -> (r: Option<(char, usize)>)
    requires
        pos <= bytes@.len(),
    ensures
        match r {
            Some(p) => p.1 <= bytes@.len() && parse_char(bytes@.skip(pos as int)) == Some(
                (p.0, bytes@.skip(p.1 as int)),
            ),
            None => parse_char(bytes@.skip(pos as int)) is None,
        },
{
    match read_u64(bytes, pos) {
        None => None,
        Some((w, np)) => {
            if w > 0x10FFFF {
                return None;
            }
            match crate::text::char_from_u32(w as u32) {
                None => None,
                Some(c) => Some((c, np)),
            }
        }
    }
}

/// Read exactly `n` characters starting at `pos`.
fn read_chars(bytes: &Vec<u8>, pos: usize, n: u64) -> (r: Option<(Vec<char>, usize)>)
    requires
        pos <= bytes@.len(),
    ensures
        match r {
            Some(p) => p.1 <= bytes@.len() && parse_chars(bytes@.skip(pos as int), n as nat)
                == Some((p.0@, bytes@.skip(p.1 as int))),
            None => parse_chars(bytes@.skip(pos as int), n as nat) is None,
        },
{
    let mut out: Vec<char> = Vec::new();
    let mut cur = pos;
    let mut i: u64 = 0;
    while i < n
        invariant
            i <= n,
            cur <= bytes@.len(),
            parse_chars(bytes@.skip(pos as int), n as nat) == (match parse_chars(
                bytes@.skip(cur as int),
                (n - i) as nat,
            ) {
                Some(q) => Some((out@ + q.0, q.1)),
                None => None::<(Seq<char>, Seq<u8>)>,
            }),
        decreases n - i,
    {
        let ghost m = (n - i) as nat;
        let ghost scur = bytes@.skip(cur as int);
        match read_char(bytes, cur) {
            None => {
                proof {
                    assert(parse_chars(scur, m) is None);
                }
                return None;
            }
            Some((c, np)) => {
                proof {
                    assert(parse_chars(scur, m) == (match parse_chars(
                        bytes@.skip(np as int),
                        (m - 1) as nat,
                    ) {
                        Some(q) => Some((seq![c] + q.0, q.1)),
                        None => None::<(Seq<char>, Seq<u8>)>,
                    }));
                    assert(forall|q0: Seq<char>|
                        out@ + (seq![c] + q0) =~= (out@ + seq![c]) + q0);
                    assert(out@.push(c) =~= out@ + seq![c]);
                }
                out.push(c);
                cur = np;
                i = i + 1;
            }
        }
    }
    proof {
        assert(parse_chars(bytes@.skip(cur as int), 0) == Some(
            (Seq::<char>::empty(), bytes@.skip(cur as int)),
        ));
        assert(out@ + Seq::<char>::empty() =~= out@);
    }
    Some((out, cur))
}

/// Read a text at `pos`.
fn read_string(bytes: &Vec<u8>, pos: usize) -> (r: Option<(String, usize)>)
    requires
        pos <= bytes@.len(),
    ensures
        match r {
            Some(p) => p.1 <= bytes@.len() && parse_str(bytes@.skip(pos as int)) == Some(
                (p.0@, bytes@.skip(p.1 as int)),
            ),
            None => parse_str(bytes@.skip(pos as int)) is None,
        },
{
    match read_u64(bytes, pos) {
        None => None,
        Some((n, np)) => match read_chars(bytes, np, n) {
            None => None,
            Some((cs, end)) => Some((crate::text::string_from_chars(&cs), end)),
        },
    }
}

/// Read an optional text at `pos`.
fn read_opt_string(bytes: &Vec<u8>, pos: usize) -> (r: Option<(Option<String>, usize)>)
    requires
        pos <= bytes@.len(),
    ensures
        match r {
            Some(p) => p.1 <= bytes@.len() && parse_opt_str(bytes@.skip(pos as int)) == Some(
                (
                    match p.0 {
                        Some(x) => Some(x@),
                        None => None::<Seq<char>>,
                    },
                    bytes@.skip(p.1 as int),
                ),
            ),
            None => parse_opt_str(bytes@.skip(pos as int)) is None,
        },
{
    match read_u64(bytes, pos) {
        None => None,
        Some((tag, np)) => {
            if tag == 0 {
                Some((None, np))
            } else if tag == 1 {
                match read_string(bytes, np) {
                    None => None,
                    Some((s, end)) => Some((Some(s), end)),
                }
            } else {
                None
            }
        }
    }
}

/// Read exactly `n` modifier ids starting at `pos`.
fn read_id_items(bytes: &Vec<u8>, pos: usize, n: u64) -> (r: Option<(Vec<usize>, usize)>)
    requires
        pos <= bytes@.len(),
    ensures
        match r {
            Some(p) => p.1 <= bytes@.len() && parse_id_items(bytes@.skip(pos as int), n as nat)
                == Some((p.0@, bytes@.skip(p.1 as int))),
            None => parse_id_items(bytes@.skip(pos as int), n as nat) is None,
        },
{
    let mut out: Vec<usize> = Vec::new();
    let mut cur = pos;
    let mut i: u64 = 0;
    while i < n
        invariant
            i <= n,
            cur <= bytes@.len(),
            parse_id_items(bytes@.skip(pos as int), n as nat) == (match parse_id_items(
                bytes@.skip(cur as int),
                (n - i) as nat,
            ) {
                Some(q) => Some((out@ + q.0, q.1)),
                None => None::<(Seq<usize>, Seq<u8>)>,
            }),
        decreases n - i,
    {
        let ghost m = (n - i) as nat;
        let ghost scur = bytes@.skip(cur as int);
        match read_u64(bytes, cur) {
            None => {
                proof {
                    assert(parse_id_items(scur, m) is None);
                }
                return None;
            }
            Some((w, np)) => {
                if w > usize::MAX as u64 {
                    proof {
                        assert(parse_id_items(scur, m) is None);
                    }
                    return None;
                }
                let x = w as usize;
                proof {
                    assert(parse_id_items(scur, m) == (match parse_id_items(
                        bytes@.skip(np as int),
                        (m - 1) as nat,
                    ) {
                        Some(q) => Some((seq![x] + q.0, q.1)),
                        None => None::<(Seq<usize>, Seq<u8>)>,
                    }));
                    assert(forall|q0: Seq<usize>|
                        out@ + (seq![x] + q0) =~= (out@ + seq![x]) + q0);
                    assert(out@.push(x) =~= out@ + seq![x]);
                }
                out.push(x);
                cur = np;
                i = i + 1;
            }
        }
    }
    proof {
        assert(parse_id_items(bytes@.skip(cur as int), 0) == Some(
            (Seq::<usize>::empty(), bytes@.skip(cur as int)),
        ));
        assert(out@ + Seq::<usize>::empty() =~= out@);
    }
    Some((out, cur))
}

/// Read a modifier id list at `pos`.
fn read_ids(bytes: &Vec<u8>, pos: usize) -> (r: Option<(Vec<usize>, usize)>)
    requires
        pos <= bytes@.len(),
    ensures
        match r {
            Some(p) => p.1 <= bytes@.len() && parse_ids(bytes@.skip(pos as int)) == Some(
                (p.0@, bytes@.skip(p.1 as int)),
            ),
            None => parse_ids(bytes@.skip(pos as int)) is None,
        },
{
    match read_u64(bytes, pos) {
        None => None,
        Some((n, np)) => read_id_items(bytes, np, n),
    }
}

/// Read location specifics at `pos`.
fn read_specs(bytes: &Vec<u8>, pos: usize) -> (r: Option<(PlayerItemSpecifics, usize)>)
    requires
        pos <= bytes@.len(),
    ensures
        match r {
            Some(p) => p.1 <= bytes@.len() && parse_specs(bytes@.skip(pos as int)) == Some(
                (p.0@, bytes@.skip(p.1 as int)),
            ),
            None => parse_specs(bytes@.skip(pos as int)) is None,
        },
{
    match read_u64(bytes, pos) {
        None => None,
        Some((count, p1)) => {
            if count > usize::MAX as u64 {
                return None;
            }
            match read_u64(bytes, p1) {
                None => None,
                Some((charges, p2)) => {
                    if charges > usize::MAX as u64 {
                        return None;
                    }
                    match read_ids(bytes, p2) {
                        None => None,
                        Some((upgrades, p3)) => match read_ids(bytes, p3) {
                            None => None,
                            Some((infusions, p4)) => Some(
                                (
                                    PlayerItemSpecifics {
                                        count: count as usize,
                                        charges: charges as usize,
                                        upgrades,
                                        infusions,
                                    },
                                    p4,
                                ),
                            ),
                        },
                    }
                }
            }
        }
    }
}

/// Read a location at `pos`.
fn read_loc(bytes: &Vec<u8>, pos: usize) -> (r: Option<(Location, usize)>)
    requires
        pos <= bytes@.len(),
    ensures
        match r {
            Some(p) => p.1 <= bytes@.len() && parse_loc(bytes@.skip(pos as int)) == Some(
                (p.0@, bytes@.skip(p.1 as int)),
            ),
            None => parse_loc(bytes@.skip(pos as int)) is None,
        },
{
    match read_u64(bytes, pos) {
        None => None,
        Some((tag, np)) => {
            if tag == 0 {
                match read_string(bytes, np) {
                    None => None,
                    Some((name, end)) => Some((Location::Character(name), end)),
                }
            } else if tag == 1 {
                Some((Location::Bank, np))
            } else if tag == 2 {
                Some((Location::SharedInventory, np))
            } else if tag == 3 {
                Some((Location::MaterialStorage, np))
            } else {
                None
            }
        }
    }
}

/// Read exactly `n` location entries starting at `pos`.
fn read_entries(bytes: &Vec<u8>, pos: usize, n: u64) -> (r: Option<
    (Vec<(Location, PlayerItemSpecifics)>, usize),
>)
    requires
        pos <= bytes@.len(),
    ensures
        match r {
            Some(p) => p.1 <= bytes@.len() && parse_entries(bytes@.skip(pos as int), n as nat)
                == Some(
                (
                    crate::fms_entities::player_item::locs_view(p.0@),
                    bytes@.skip(p.1 as int),
                ),
            ),
            None => parse_entries(bytes@.skip(pos as int), n as nat) is None,
        },
{
    let mut out: Vec<(Location, PlayerItemSpecifics)> = Vec::new();
    let mut cur = pos;
    let mut i: u64 = 0;
    while i < n
        invariant
            i <= n,
            cur <= bytes@.len(),
            parse_entries(bytes@.skip(pos as int), n as nat) == (match parse_entries(
                bytes@.skip(cur as int),
                (n - i) as nat,
            ) {
                Some(q) => Some((crate::fms_entities::player_item::locs_view(out@) + q.0, q.1)),
                None => None::<(Seq<(LocationView, SpecificsView)>, Seq<u8>)>,
            }),
        decreases n - i,
    {
        let ghost m = (n - i) as nat;
        let ghost scur = bytes@.skip(cur as int);
        let ghost out0 = crate::fms_entities::player_item::locs_view(out@);
        match read_loc(bytes, cur) {
            None => {
                proof {
                    assert(parse_entries(scur, m) is None);
                }
                return None;
            }
            Some((loc, p1)) => {
                match read_specs(bytes, p1) {
                    None => {
                        proof {
                            assert(parse_entries(scur, m) is None);
                        }
                        return None;
                    }
                    Some((sp, p2)) => {
                        proof {
                            assert(parse_entries(scur, m) == (match parse_entries(
                                bytes@.skip(p2 as int),
                                (m - 1) as nat,
                            ) {
                                Some(q) => Some((seq![(loc@, sp@)] + q.0, q.1)),
                                None => None::<(Seq<(LocationView, SpecificsView)>, Seq<u8>)>,
                            }));
                            assert(forall|q0: Seq<(LocationView, SpecificsView)>|
                                out0 + (seq![(loc@, sp@)] + q0) =~= (out0 + seq![(loc@, sp@)])
                                    + q0);
                        }
                        out.push((loc, sp));
                        proof {
                            assert(crate::fms_entities::player_item::locs_view(out@) =~= out0
                                + seq![(out@[out@.len() - 1].0@, out@[out@.len() - 1].1@)]);
                        }
                        cur = p2;
                        i = i + 1;
                    }
                }
            }
        }
    }
    proof {
        assert(parse_entries(bytes@.skip(cur as int), 0) == Some(
            (Seq::<(LocationView, SpecificsView)>::empty(), bytes@.skip(cur as int)),
        ));
        assert(crate::fms_entities::player_item::locs_view(out@)
            + Seq::<(LocationView, SpecificsView)>::empty() =~= crate::fms_entities::player_item::locs_view(out@));
    }
    Some((out, cur))
}

/// Read a whole payload back into an item record; the payload must be one
/// whole frame, with nothing trailing.
#[verifier::rlimit(100)]
pub fn decode_item(bytes: &Vec<u8>) -> (r: Option<PlayerItem>)
    ensures
        match parse_item(bytes@) {
            Some(p) => if p.1.len() == 0 {
                r is Some && r->0@ == p.0
            } else {
                r is None
            },
            None => r is None,
        },
{
    proof {
        assert(bytes@.skip(0) =~= bytes@);
    }
    let r0 = read_u64(bytes, 0);
    if r0.is_none() {
        return None;
    }
    let (id64, p1) = r0.unwrap();
    if id64 > usize::MAX as u64 {
        return None;
    }
    let r1 = read_string(bytes, p1);
    if r1.is_none() {
        return None;
    }
    let (name, p2) = r1.unwrap();
    let r2 = read_opt_string(bytes, p2);
    if r2.is_none() {
        return None;
    }
    let (description, p3) = r2.unwrap();
    let r3 = read_opt_string(bytes, p3);
    if r3.is_none() {
        return None;
    }
    let (icon, p4) = r3.unwrap();
    let r4 = read_u64(bytes, p4);
    if r4.is_none() {
        return None;
    }
    let (tc, p5) = r4.unwrap();
    let item_type = match decode_item_type(tc) {
        None => {
            return None;
        }
        Some(t) => t,
    };
    let r5 = read_u64(bytes, p5);
    if r5.is_none() {
        return None;
    }
    let (rc, p6) = r5.unwrap();
    let rarity = match decode_rarity(rc) {
        None => {
            return None;
        }
        Some(t) => t,
    };
    let r6 = read_u64(bytes, p6);
    if r6.is_none() {
        return None;
    }
    let (n, p7) = r6.unwrap();
    let r7 = read_entries(bytes, p7, n);
    if r7.is_none() {
        return None;
    }
    let (locations, p8) = r7.unwrap();
    if p8 != bytes.len() {
        proof {
            assert(bytes@.skip(p8 as int).len() != 0);
        }
        return None;
    }
    proof {
        assert(bytes@.skip(p8 as int).len() == 0);
    }
    Some(
        PlayerItem {
            id: id64 as usize,
            name,
            description,
            icon,
            item_type,
            rarity,
            locations,
            tp_info: None,
        },
    )
}

/// The item category of a code, computed.
fn decode_item_type(w: u64) -> (r: Option<Gw2ItemType>)
    ensures
        r == code_type(w),
{
    if w == 0 {
        Some(Gw2ItemType::Armor)
    } else if w == 1 {
        Some(Gw2ItemType::Back)
    } else if w == 2 {
        Some(Gw2ItemType::Bag)
    } else if w == 3 {
        Some(Gw2ItemType::Consumable)
    } else if w == 4 {
        Some(Gw2ItemType::Container)
    } else if w == 5 {
        Some(Gw2ItemType::CraftingMaterial)
    } else if w == 6 {
        Some(Gw2ItemType::Gathering)
    } else if w == 7 {
        Some(Gw2ItemType::Gizmo)
    } else if w == 8 {
        Some(Gw2ItemType::JadeTechModule)
    } else if w == 9 {
        Some(Gw2ItemType::Key)
    } else if w == 10 {
        Some(Gw2ItemType::MiniPet)
    } else if w == 11 {
        Some(Gw2ItemType::PowerCore)
    } else if w == 12 {
        Some(Gw2ItemType::Relic)
    } else if w == 13 {
        Some(Gw2ItemType::Tool)
    } else if w == 14 {
        Some(Gw2ItemType::Trait)
    } else if w == 15 {
        Some(Gw2ItemType::Trinket)
    } else if w == 16 {
        Some(Gw2ItemType::Trophy)
    } else if w == 17 {
        Some(Gw2ItemType::UpgradeComponent)
    } else if w == 18 {
        Some(Gw2ItemType::Weapon)
    } else if w == 19 {
        Some(Gw2ItemType::Unknown)
    } else {
        None
    }
}

/// The rarity tier of a code, computed.
fn decode_rarity(w: u64) -> (r: Option<Gw2Rarity>)
    ensures
        r == code_rarity(w),
{
    if w == 0 {
        Some(Gw2Rarity::Junk)
    } else if w == 1 {
        Some(Gw2Rarity::Basic)
    } else if w == 2 {
        Some(Gw2Rarity::Fine)
    } else if w == 3 {
        Some(Gw2Rarity::Masterwork)
    } else if w == 4 {
        Some(Gw2Rarity::Rare)
    } else if w == 5 {
        Some(Gw2Rarity::Exotic)
    } else if w == 6 {
        Some(Gw2Rarity::Ascended)
    } else if w == 7 {
        Some(Gw2Rarity::Legendary)
    } else {
        None
    }
}

} // verus!
