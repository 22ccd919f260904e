use find_my_sht::entities::{Gw2ItemType, Gw2Rarity, Gw2Tp, Gw2TpPrice};
use find_my_sht::fms_entities::player_item::{Location, PlayerItem, PlayerItemSpecifics};
use find_my_sht::index::engine::SearchIndex;
use find_my_sht::index::index_reader::IndexReader;
use find_my_sht::index::item_loader::store;

fn item_named(id: usize, name: &str, description: Option<&str>) -> PlayerItem {
    PlayerItem {
        id,
        name: name.to_string(),
        description: description.map(|d| d.to_string()),
        icon: None,
        item_type: Gw2ItemType::Trophy,
        rarity: Gw2Rarity::Basic,
        locations: vec![(
            Location::Bank,
            PlayerItemSpecifics { count: 1, charges: 0, upgrades: vec![], infusions: vec![] },
        )],
        tp_info: None,
    }
}

fn indexed(items: &Vec<PlayerItem>) -> SearchIndex {
    let mut index = SearchIndex::new();
    store(&mut index, items);
    index.reload();
    index
}

#[test]
fn pagination_over_fifteen_matches() {
    // A corpus with 15 items matching "coin", limit 10: page 0 gives 10
    // results and a further page, page 1 gives 5 and no further page.
    let mut items = Vec::new();
    for id in 1..=15usize {
        items.push(item_named(id, &format!("Coin {}", id), None));
    }
    let index = indexed(&items);
    let mut reader = IndexReader::new();
    reader.search(&index, "coin", 0, 10);
    assert_eq!(reader.last_result.len(), 10);
    assert!(reader.has_more);
    reader.search(&index, "coin", 1, 10);
    assert_eq!(reader.last_result.len(), 5);
    assert!(!reader.has_more);
    reader.search(&index, "coin", 2, 10);
    assert_eq!(reader.last_result.len(), 0);
    assert!(!reader.has_more);
}

#[test]
fn equal_scores_rank_by_ascending_id() {
    let items = vec![
        item_named(9, "coin alpha", None),
        item_named(2, "coin beta", None),
        item_named(5, "coin gamma", None),
    ];
    let index = indexed(&items);
    let mut reader = IndexReader::new();
    reader.search(&index, "coin", 0, 10);
    let ids: Vec<usize> = reader.last_result.iter().map(|i| i.id).collect();
    assert_eq!(ids, vec![2, 5, 9]);
}

#[test]
fn name_match_outranks_description_match() {
    // The term occurs only in the name of one item and only in the
    // description of an otherwise identical item: the first wins, even
    // against the id tie-break.
    let items = vec![
        item_named(1, "magic blade", Some("a sword")),
        item_named(2, "magic sword", Some("a blade")),
    ];
    let index = indexed(&items);
    let mut reader = IndexReader::new();
    reader.search(&index, "sword", 0, 10);
    let ids: Vec<usize> = reader.last_result.iter().map(|i| i.id).collect();
    assert_eq!(ids, vec![2, 1]);
}

#[test]
fn terms_conjoin_and_match_either_field() {
    let items = vec![
        item_named(1, "Iron Sword", Some("a heavy blade")),
        item_named(2, "Iron Shield", Some("a heavy guard")),
    ];
    let index = indexed(&items);
    let mut reader = IndexReader::new();
    reader.search(&index, "iron blade", 0, 10);
    let ids: Vec<usize> = reader.last_result.iter().map(|i| i.id).collect();
    assert_eq!(ids, vec![1]);
}

#[test]
fn search_is_case_insensitive() {
    let items = vec![item_named(1, "Mystic COIN", None)];
    let index = indexed(&items);
    let mut reader = IndexReader::new();
    reader.search(&index, "CoIn", 0, 10);
    assert_eq!(reader.last_result.len(), 1);
    assert_eq!(reader.last_result[0].name, "Mystic COIN");
}

#[test]
fn empty_query_matches_nothing() {
    let items = vec![item_named(1, "Coin", None)];
    let index = indexed(&items);
    let mut reader = IndexReader::new();
    reader.search(&index, "", 0, 10);
    assert_eq!(reader.last_result.len(), 0);
    assert!(!reader.has_more);
    reader.search(&index, "   ", 0, 10);
    assert_eq!(reader.last_result.len(), 0);
}

#[test]
fn substring_terms_match_inside_words() {
    let items = vec![item_named(1, "Moneybags", None)];
    let index = indexed(&items);
    let mut reader = IndexReader::new();
    reader.search(&index, "oneyba", 0, 10);
    assert_eq!(reader.last_result.len(), 1);
}

#[test]
fn hits_reconstruct_full_records_from_payload() {
    let mut rich = item_named(11, "Royal Coin", Some("Shiny."));
    rich.icon = Some("https://example.invalid/icon.png".to_string());
    rich.rarity = Gw2Rarity::Exotic;
    rich.locations = vec![
        (
            Location::Character("Mira Brightsteel".to_string()),
            PlayerItemSpecifics { count: 3, charges: 1, upgrades: vec![8, 9], infusions: vec![4] },
        ),
        (
            Location::MaterialStorage,
            PlayerItemSpecifics { count: 250, charges: 0, upgrades: vec![], infusions: vec![] },
        ),
    ];
    let items = vec![rich];
    let index = indexed(&items);
    let mut reader = IndexReader::new();
    reader.search(&index, "royal", 0, 10);
    assert_eq!(reader.last_result.len(), 1);
    let got = &reader.last_result[0];
    assert_eq!(got.id, 11);
    assert_eq!(got.name, "Royal Coin");
    assert_eq!(got.description.as_deref(), Some("Shiny."));
    assert_eq!(got.icon.as_deref(), Some("https://example.invalid/icon.png"));
    assert!(matches!(got.rarity, Gw2Rarity::Exotic));
    assert_eq!(got.locations.len(), 2);
    assert!(got.locations[0].0.same_as(&Location::Character("Mira Brightsteel".to_string())));
    assert_eq!(got.locations[0].1.count, 3);
    assert_eq!(got.locations[0].1.upgrades, vec![8, 9]);
    assert!(got.locations[1].0.same_as(&Location::MaterialStorage));
    assert_eq!(got.locations[1].1.count, 250);
    assert!(got.tp_info.is_none());
}

#[test]
fn committed_generation_invisible_until_reload() {
    let gen1 = vec![item_named(1, "Old Coin", None)];
    let gen2 = vec![item_named(2, "New Coin", None)];
    let mut index = SearchIndex::new();
    store(&mut index, &gen1);
    index.reload();
    store(&mut index, &gen2);
    let mut reader = IndexReader::new();
    reader.search(&index, "coin", 0, 10);
    let ids: Vec<usize> = reader.last_result.iter().map(|i| i.id).collect();
    assert_eq!(ids, vec![1]);
    index.reload();
    reader.search(&index, "coin", 0, 10);
    let ids: Vec<usize> = reader.last_result.iter().map(|i| i.id).collect();
    assert_eq!(ids, vec![2]);
}

#[test]
fn prices_patch_results_by_id() {
    let items = vec![item_named(1, "coin a", None), item_named(2, "coin b", None)];
    let index = indexed(&items);
    let mut reader = IndexReader::new();
    reader.search(&index, "coin", 0, 10);
    let tp = Gw2Tp {
        id: 2,
        buys: Gw2TpPrice { quantity: 7, unit_price: 150 },
        sells: Gw2TpPrice { quantity: 3, unit_price: 180 },
    };
    reader.apply_prices(&vec![tp]);
    assert!(reader.last_result[0].tp_info.is_none());
    assert_eq!(reader.last_result[1].tp_info, Some(tp));
}

#[test]
fn empty_price_list_leaves_results_untouched() {
    let items = vec![item_named(1, "coin a", None)];
    let index = indexed(&items);
    let mut reader = IndexReader::new();
    reader.search(&index, "coin", 0, 10);
    let tp = Gw2Tp {
        id: 1,
        buys: Gw2TpPrice { quantity: 1, unit_price: 10 },
        sells: Gw2TpPrice { quantity: 1, unit_price: 11 },
    };
    reader.apply_prices(&vec![tp]);
    assert_eq!(reader.last_result[0].tp_info, Some(tp));
    reader.apply_prices(&vec![]);
    assert_eq!(reader.last_result[0].tp_info, Some(tp));
}

#[test]
fn zero_limit_returns_nothing_but_reports_more() {
    let items = vec![item_named(1, "coin", None)];
    let index = indexed(&items);
    let mut reader = IndexReader::new();
    reader.search(&index, "coin", 0, 0);
    assert_eq!(reader.last_result.len(), 0);
    assert!(reader.has_more);
}
