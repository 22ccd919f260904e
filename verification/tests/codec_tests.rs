use find_my_sht::codec::{decode_item, encode_item};
use find_my_sht::entities::{Gw2ItemType, Gw2Rarity, Gw2Tp, Gw2TpPrice};
use find_my_sht::fms_entities::player_item::{Location, PlayerItem, PlayerItemSpecifics};

fn rich_item() -> PlayerItem {
    PlayerItem {
        id: 68314,
        name: "Zephyrite Lockpick".to_string(),
        description: Some("Opens one lock — zweihundert Münzen".to_string()),
        icon: Some("https://example.invalid/p.png".to_string()),
        item_type: Gw2ItemType::Consumable,
        rarity: Gw2Rarity::Rare,
        locations: vec![
            (
                Location::Character("Mira Äther".to_string()),
                PlayerItemSpecifics {
                    count: 12,
                    charges: 3,
                    upgrades: vec![24554, 24554],
                    infusions: vec![49424],
                },
            ),
            (
                Location::Bank,
                PlayerItemSpecifics { count: 1, charges: 0, upgrades: vec![], infusions: vec![] },
            ),
            (
                Location::SharedInventory,
                PlayerItemSpecifics { count: 4, charges: 9, upgrades: vec![7], infusions: vec![] },
            ),
            (
                Location::MaterialStorage,
                PlayerItemSpecifics { count: 250, charges: 0, upgrades: vec![], infusions: vec![] },
            ),
        ],
        tp_info: None,
    }
}

fn assert_items_equal(a: &PlayerItem, b: &PlayerItem) {
    assert_eq!(a.id, b.id);
    assert_eq!(a.name, b.name);
    assert_eq!(a.description, b.description);
    assert_eq!(a.icon, b.icon);
    assert_eq!(format!("{:?}", a.item_type), format!("{:?}", b.item_type));
    assert_eq!(format!("{:?}", a.rarity), format!("{:?}", b.rarity));
    assert_eq!(a.locations.len(), b.locations.len());
    for k in 0..a.locations.len() {
        assert!(a.locations[k].0.same_as(&b.locations[k].0));
        assert_eq!(a.locations[k].1.count, b.locations[k].1.count);
        assert_eq!(a.locations[k].1.charges, b.locations[k].1.charges);
        assert_eq!(a.locations[k].1.upgrades, b.locations[k].1.upgrades);
        assert_eq!(a.locations[k].1.infusions, b.locations[k].1.infusions);
    }
    assert_eq!(a.tp_info, b.tp_info);
}

#[test]
fn payload_round_trip_preserves_every_field() {
    let item = rich_item();
    let bytes = encode_item(&item);
    let back = decode_item(&bytes).expect("a framed record reads back");
    assert_items_equal(&item, &back);
}

#[test]
fn round_trip_of_minimal_record() {
    let item = PlayerItem {
        id: 0,
        name: String::new(),
        description: None,
        icon: None,
        item_type: Gw2ItemType::Unknown,
        rarity: Gw2Rarity::Junk,
        locations: vec![],
        tp_info: None,
    };
    let bytes = encode_item(&item);
    let back = decode_item(&bytes).expect("a framed record reads back");
    assert_items_equal(&item, &back);
}

#[test]
fn prices_are_never_framed() {
    let mut item = rich_item();
    item.tp_info = Some(Gw2Tp {
        id: 68314,
        buys: Gw2TpPrice { quantity: 1, unit_price: 100 },
        sells: Gw2TpPrice { quantity: 1, unit_price: 120 },
    });
    let bytes = encode_item(&item);
    let back = decode_item(&bytes).expect("a framed record reads back");
    assert!(back.tp_info.is_none());
}

#[test]
fn garbage_bytes_do_not_decode() {
    assert!(decode_item(&vec![]).is_none());
    assert!(decode_item(&vec![1, 2, 3]).is_none());
    let mut long = vec![0u8; 64];
    long[0] = 0xff;
    assert!(decode_item(&long).is_none());
}

#[test]
fn trailing_bytes_do_not_decode() {
    let item = rich_item();
    let mut bytes = encode_item(&item);
    bytes.push(0);
    assert!(decode_item(&bytes).is_none());
}

#[test]
fn truncated_payload_does_not_decode() {
    let item = rich_item();
    let mut bytes = encode_item(&item);
    bytes.pop();
    assert!(decode_item(&bytes).is_none());
}
