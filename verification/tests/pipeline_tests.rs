use find_my_sht::entities::{
    Gw2ApiKey, Gw2Bag, Gw2Inventory, Gw2Item, Gw2ItemType, Gw2PlayerItem, Gw2Permission,
    Gw2Rarity, LoadingState,
};
use find_my_sht::fms_entities::player_item::{Location, PlayerItem};
use find_my_sht::index::engine::SearchIndex;
use find_my_sht::index::index_reader::IndexReader;
use find_my_sht::index::item_loader::{
    convert, fetch_all_items, fetch_from, fetch_from_character, fetch_materials,
};
use find_my_sht::settings::api_key_loader::ApiKeyLoader;
use find_my_sht::settings::settings::Settings;
use find_my_sht::utils::{chunk_ids, fetch_items};

fn raw(id: usize, count: usize) -> Gw2PlayerItem {
    Gw2PlayerItem {
        id,
        count,
        charges: None,
        skin: None,
        upgrades: None,
        infusions: None,
        binding: None,
    }
}

fn meta(id: usize, name: &str) -> Gw2Item {
    Gw2Item {
        id,
        name: name.to_string(),
        description: None,
        rarity: Gw2Rarity::Basic,
        item_type: Gw2ItemType::CraftingMaterial,
        icon: None,
    }
}

#[test]
fn convert_resolves_metadata_and_drops_unknown_ids() {
    let items = vec![raw(1, 2), raw(999, 1), raw(3, 4)];
    let metadata = vec![meta(1, "Ore"), meta(3, "Wood")];
    let converted = convert(Location::Bank, items, &metadata);
    let names: Vec<&str> = converted.iter().map(|i| i.name.as_str()).collect();
    assert_eq!(names, vec!["Ore", "Wood"]);
    assert_eq!(converted[0].locations[0].1.count, 2);
    assert_eq!(converted[1].locations[0].1.count, 4);
}

#[test]
fn character_fetch_flattens_bags_and_tags_location() {
    let inv = Gw2Inventory {
        bags: vec![
            Gw2Bag { id: 10, size: 3, inventory: vec![Some(raw(1, 1)), None, Some(raw(2, 5))] },
            Gw2Bag { id: 11, size: 1, inventory: vec![Some(raw(1, 7))] },
        ],
    };
    let metadata = vec![meta(1, "Ore"), meta(2, "Wood")];
    let records = fetch_from_character("Mira".to_string(), inv, &metadata);
    assert_eq!(records.len(), 3);
    for r in &records {
        assert!(r.locations[0].0.same_as(&Location::Character("Mira".to_string())));
    }
    assert_eq!(records[0].locations[0].1.count, 1);
    assert_eq!(records[1].locations[0].1.count, 5);
    assert_eq!(records[2].locations[0].1.count, 7);
}

#[test]
fn shared_fetch_skips_empty_slots() {
    let metadata = vec![meta(4, "Key")];
    let records = fetch_from(
        Location::SharedInventory,
        vec![None, Some(raw(4, 2)), None],
        &metadata,
    );
    assert_eq!(records.len(), 1);
    assert!(records[0].locations[0].0.same_as(&Location::SharedInventory));
    assert_eq!(records[0].locations[0].1.count, 2);
}

#[test]
fn materials_with_zero_count_never_enter_the_aggregates() {
    let metadata = vec![meta(1, "Ore"), meta(2, "Wood"), meta(3, "Cloth")];
    let records = fetch_materials(vec![raw(1, 0), raw(2, 3), raw(3, 0)], &metadata);
    assert_eq!(records.len(), 1);
    assert_eq!(records[0].name, "Wood");
    assert_eq!(records[0].locations[0].1.count, 3);
    for r in &records {
        for (loc, specs) in &r.locations {
            if loc.same_as(&Location::MaterialStorage) {
                assert!(specs.count > 0);
            }
        }
    }
}

#[test]
fn refresh_merges_lists_rebuilds_index_and_stamps_time() {
    let metadata = vec![meta(1, "Mystic Coin"), meta(2, "Rusty Sword")];
    let bank = fetch_from(Location::Bank, vec![Some(raw(1, 5))], &metadata);
    let mats = fetch_materials(vec![raw(1, 3), raw(2, 0)], &metadata);
    let shared = fetch_from(Location::SharedInventory, vec![Some(raw(2, 1))], &metadata);
    let mut index = SearchIndex::new();
    let mut settings = Settings::new();
    fetch_all_items(vec![bank, mats, shared], &mut index, &mut settings, 1700000000);
    assert_eq!(settings.last_update, Some(1700000000));
    index.reload();
    let mut reader = IndexReader::new();
    reader.search(&index, "mystic", 0, 10);
    assert_eq!(reader.last_result.len(), 1);
    let coin: &PlayerItem = &reader.last_result[0];
    assert_eq!(coin.id, 1);
    assert_eq!(coin.locations.len(), 2);
    assert!(coin.locations[0].0.same_as(&Location::Bank));
    assert_eq!(coin.locations[0].1.count, 5);
    assert!(coin.locations[1].0.same_as(&Location::MaterialStorage));
    assert_eq!(coin.locations[1].1.count, 3);
    reader.search(&index, "sword", 0, 10);
    assert_eq!(reader.last_result.len(), 1);
    assert_eq!(reader.last_result[0].id, 2);
}

#[test]
fn ids_chunk_at_the_per_call_limit() {
    let ids: Vec<usize> = (0..450).collect();
    let chunks = chunk_ids(&ids);
    assert_eq!(chunks.len(), 3);
    assert_eq!(chunks[0].len(), 200);
    assert_eq!(chunks[1].len(), 200);
    assert_eq!(chunks[2].len(), 50);
    let rejoined: Vec<usize> = chunks.into_iter().flatten().collect();
    assert_eq!(rejoined, ids);
    assert!(chunk_ids(&Vec::new()).is_empty());
    assert_eq!(chunk_ids(&vec![7]).len(), 1);
}

#[test]
fn failed_chunks_are_dropped_from_the_lookup() {
    let joined = fetch_items(vec![
        Some(vec![meta(1, "Ore"), meta(2, "Wood")]),
        None,
        Some(vec![meta(3, "Cloth")]),
    ]);
    let names: Vec<&str> = joined.iter().map(|i| i.name.as_str()).collect();
    assert_eq!(names, vec!["Ore", "Wood", "Cloth"]);
}

#[test]
fn invalid_key_is_classified_as_error() {
    let mut loader = ApiKeyLoader::new(0);
    assert!(matches!(loader.loading_state(), LoadingState::Init));
    assert!(loader.begin_verification());
    assert!(matches!(loader.loading_state(), LoadingState::Loading));
    assert!(!loader.begin_verification());
    loader.apply_verification("bad-key".to_string(), None);
    match loader.loading_state() {
        LoadingState::Error(m) => assert_eq!(*m, "Invalid Api Key!"),
        other => panic!("unexpected state: {:?}", other),
    }
}

#[test]
fn missing_permissions_are_classified_as_error() {
    let mut loader = ApiKeyLoader::new(0);
    loader.begin_verification();
    let info = Gw2ApiKey {
        id: "k".to_string(),
        name: "main".to_string(),
        permissions: vec![Gw2Permission::Account, Gw2Permission::Wallet],
    };
    loader.apply_verification("some-key".to_string(), Some(info));
    match loader.loading_state() {
        LoadingState::Error(m) => assert_eq!(*m, "Invalid permissions!"),
        other => panic!("unexpected state: {:?}", other),
    }
}

#[test]
fn sufficient_permissions_accept_the_key() {
    let mut loader = ApiKeyLoader::new(0);
    loader.begin_verification();
    let info = Gw2ApiKey {
        id: "k".to_string(),
        name: "main".to_string(),
        permissions: vec![Gw2Permission::Inventories, Gw2Permission::Account],
    };
    loader.apply_verification("good-key".to_string(), Some(info));
    match loader.loading_state() {
        LoadingState::Success(k) => assert_eq!(k, "good-key"),
        other => panic!("unexpected state: {:?}", other),
    }
}

#[test]
fn waiting_indicator_steps_every_half_second() {
    let mut loader = ApiKeyLoader::new(0);
    assert_eq!(loader.curr_dots(), "");
    loader.update(499);
    assert_eq!(loader.curr_dots(), "");
    loader.update(500);
    assert_eq!(loader.curr_dots(), ".");
    loader.update(1000);
    assert_eq!(loader.curr_dots(), "..");
    loader.update(1500);
    assert_eq!(loader.curr_dots(), "...");
    loader.update(2000);
    assert_eq!(loader.curr_dots(), "");
}

#[test]
fn settings_start_fresh_and_record_refreshes() {
    let mut settings = Settings::new();
    assert_eq!(settings.api_key, "");
    assert_eq!(settings.item_load_limit, 10);
    assert!(settings.last_update.is_none());
    settings.update_last_update(42);
    assert_eq!(settings.last_update, Some(42));
}
