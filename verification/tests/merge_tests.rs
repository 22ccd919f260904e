use find_my_sht::entities::{Gw2Item, Gw2ItemType, Gw2PlayerItem, Gw2Rarity, Gw2Tp, Gw2TpPrice};
use find_my_sht::fms_entities::player_item::{Location, PlayerItem, PlayerItemSpecifics};

fn specifics(count: usize, charges: usize, upgrades: Vec<usize>, infusions: Vec<usize>) -> PlayerItemSpecifics {
    PlayerItemSpecifics { count, charges, upgrades, infusions }
}

fn bare_item(id: usize, name: &str, locations: Vec<(Location, PlayerItemSpecifics)>) -> PlayerItem {
    PlayerItem {
        id,
        name: name.to_string(),
        description: None,
        icon: None,
        item_type: Gw2ItemType::Trophy,
        rarity: Gw2Rarity::Basic,
        locations,
        tp_info: None,
    }
}

#[test]
fn merging_same_location_sums_counts() {
    // Merging {id:1, Bank:{count:5}} and {id:1, Bank:{count:3}} yields
    // {id:1, Bank:{count:8}}.
    let mut a = bare_item(1, "Coin", vec![(Location::Bank, specifics(5, 0, vec![], vec![]))]);
    let b = bare_item(1, "Coin", vec![(Location::Bank, specifics(3, 0, vec![], vec![]))]);
    a.add(&b);
    assert_eq!(a.locations.len(), 1);
    assert!(a.locations[0].0.same_as(&Location::Bank));
    assert_eq!(a.locations[0].1.count, 8);
}

#[test]
fn merging_disjoint_locations_unions_them() {
    let mut a = bare_item(7, "Rose", vec![(Location::Bank, specifics(2, 1, vec![11], vec![]))]);
    let b = bare_item(
        7,
        "Rose",
        vec![(Location::Character("Mira".to_string()), specifics(4, 0, vec![], vec![22]))],
    );
    a.add(&b);
    assert_eq!(a.locations.len(), 2);
    assert!(a.locations[0].0.same_as(&Location::Bank));
    assert_eq!(a.locations[0].1.count, 2);
    assert_eq!(a.locations[0].1.charges, 1);
    assert_eq!(a.locations[0].1.upgrades, vec![11]);
    assert!(a.locations[1].0.same_as(&Location::Character("Mira".to_string())));
    assert_eq!(a.locations[1].1.count, 4);
    assert_eq!(a.locations[1].1.infusions, vec![22]);
}

#[test]
fn merging_same_location_appends_modifiers_without_dedup() {
    let mut a = bare_item(
        3,
        "Blade",
        vec![(Location::SharedInventory, specifics(1, 2, vec![5, 6], vec![9]))],
    );
    let b = bare_item(
        3,
        "Blade",
        vec![(Location::SharedInventory, specifics(1, 3, vec![6], vec![9, 9]))],
    );
    a.add(&b);
    assert_eq!(a.locations.len(), 1);
    assert_eq!(a.locations[0].1.count, 2);
    assert_eq!(a.locations[0].1.charges, 5);
    assert_eq!(a.locations[0].1.upgrades, vec![5, 6, 6]);
    assert_eq!(a.locations[0].1.infusions, vec![9, 9, 9]);
}

#[test]
fn repeated_merge_of_same_source_doubles_modifiers() {
    let mut a = bare_item(4, "Orb", vec![(Location::Bank, specifics(1, 0, vec![42], vec![]))]);
    let b = bare_item(4, "Orb", vec![(Location::Bank, specifics(1, 0, vec![42], vec![]))]);
    a.add(&b);
    a.add(&b);
    assert_eq!(a.locations[0].1.count, 3);
    assert_eq!(a.locations[0].1.upgrades, vec![42, 42, 42]);
}

#[test]
fn merge_keeps_first_seen_metadata() {
    let mut a = bare_item(9, "First Name", vec![(Location::Bank, specifics(1, 0, vec![], vec![]))]);
    let b = bare_item(
        9,
        "Second Name",
        vec![(Location::MaterialStorage, specifics(2, 0, vec![], vec![]))],
    );
    a.add(&b);
    assert_eq!(a.name, "First Name");
    assert_eq!(a.locations.len(), 2);
}

#[test]
fn from_builds_single_location_record() {
    let raw = Gw2PlayerItem {
        id: 77,
        count: 5,
        charges: Some(2),
        skin: None,
        upgrades: Some(vec![1, 2]),
        infusions: None,
        binding: None,
    };
    let meta = Gw2Item {
        id: 77,
        name: "Lantern".to_string(),
        description: Some("glows".to_string()),
        rarity: Gw2Rarity::Fine,
        item_type: Gw2ItemType::Gizmo,
        icon: None,
    };
    let item = PlayerItem::from(Location::Bank, &raw, &meta);
    assert_eq!(item.id, 77);
    assert_eq!(item.name, "Lantern");
    assert_eq!(item.description.as_deref(), Some("glows"));
    assert_eq!(item.locations.len(), 1);
    assert!(item.locations[0].0.same_as(&Location::Bank));
    assert_eq!(item.locations[0].1.count, 5);
    assert_eq!(item.locations[0].1.charges, 2);
    assert_eq!(item.locations[0].1.upgrades, vec![1, 2]);
    assert!(item.locations[0].1.infusions.is_empty());
    assert!(item.tp_info.is_none());
}

#[test]
fn set_tp_attaches_and_clears_prices() {
    let mut item = bare_item(5, "Gem", vec![]);
    let tp = Gw2Tp {
        id: 5,
        buys: Gw2TpPrice { quantity: 1, unit_price: 100 },
        sells: Gw2TpPrice { quantity: 2, unit_price: 200 },
    };
    item.set_tp(Some(tp));
    assert_eq!(item.tp_info, Some(tp));
    item.set_tp(None);
    assert!(item.tp_info.is_none());
}

#[test]
fn default_specifics_are_empty() {
    let d = PlayerItemSpecifics::default();
    assert_eq!(d.count, 0);
    assert_eq!(d.charges, 0);
    assert!(d.upgrades.is_empty());
    assert!(d.infusions.is_empty());
}

#[test]
fn price_units_split_into_gold_silver_copper() {
    let p = Gw2TpPrice { quantity: 1, unit_price: 123456 };
    assert_eq!(p.units(), (12, 34, 56));
    let q = Gw2TpPrice { quantity: 1, unit_price: 99 };
    assert_eq!(q.units(), (0, 0, 99));
}
