use foundry::inventory::{Inventory, ITEM_CHEST, ITEM_COAL, ITEM_STONE};
use foundry::player_state::{decode_player_state_v1, encode_player_state_v1};

#[test]
fn player_state_round_trips_inventory_counts() {
    let mut inventory = Inventory::default();
    inventory.add(ITEM_STONE, 42);
    inventory.add(ITEM_CHEST, 2);

    let decoded = decode_player_state_v1(&encode_player_state_v1(&inventory)).unwrap();

    assert_eq!(decoded.count(ITEM_STONE), 42);
    assert_eq!(decoded.count(ITEM_CHEST), 2);
}

#[test]
fn player_state_rejects_trailing_bytes() {
    let inventory = Inventory::default();
    let mut blob = encode_player_state_v1(&inventory);
    blob.push(0);

    assert_eq!(decode_player_state_v1(&blob).unwrap_err(), "player_state trailing bytes");
}

#[test]
fn player_state_rejects_bad_magic() {
    let inventory = Inventory::default();
    let mut blob = encode_player_state_v1(&inventory);
    blob[0] = b'X';

    assert_eq!(decode_player_state_v1(&blob).unwrap_err(), "player_state magic mismatch");
}

#[test]
fn player_state_blob_layout() {
    let mut inventory = Inventory::default();
    inventory.add(ITEM_COAL, 300);
    let blob = encode_player_state_v1(&inventory);
    assert_eq!(blob, vec![b'P', b'L', b'R', b'1', 1, 0, 1, 0, 3, 0, 44, 1, 0, 0]);
}

#[test]
fn player_state_rejects_short_truncated_and_other_versions() {
    assert_eq!(decode_player_state_v1(&[b'P', b'L']).unwrap_err(), "player_state blob too short");
    assert_eq!(
        decode_player_state_v1(&[b'P', b'L', b'R', b'1', 2, 0, 0, 0]).unwrap_err(),
        "player_state version 2 unsupported"
    );
    assert_eq!(
        decode_player_state_v1(&[b'P', b'L', b'R', b'1', 1, 0, 1, 0, 3, 0]).unwrap_err(),
        "player_state truncated"
    );
}

#[test]
fn player_state_skips_empty_entries() {
    let blob = [b'P', b'L', b'R', b'1', 1, 0, 2, 0, 0, 0, 5, 0, 0, 0, 4, 0, 0, 0, 0, 0];
    let inv = decode_player_state_v1(&blob).unwrap();
    assert!(inv.entries().is_empty());
}

#[test]
fn player_state_round_trips_full_inventory() {
    let mut inventory = Inventory::default();
    for item in 1u16..=20 {
        inventory.add(item, 150);
    }
    let decoded = decode_player_state_v1(&encode_player_state_v1(&inventory)).unwrap();
    assert_eq!(decoded.entries(), inventory.entries());
}
