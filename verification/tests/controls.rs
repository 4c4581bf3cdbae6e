use foundry::controls::{
    apply_recovery_report, item_detail_label, placeable_items, recipe_detail_label, refresh_hotbar,
    select_hotbar_slot, HotbarState, PlacementState, StorageState, StorageStatus,
};
use foundry::errors::StorageError;
use foundry::gameplay::recipe_inserter;
use foundry::inventory::{Inventory, ITEM_CHEST, ITEM_FURNACE, ITEM_IRON_PLATE, ITEM_STONE};
use foundry::types::{RecoveryReport, SavepointId};

#[test]
fn hotbar_assigns_each_placeable_item_once() {
    let mut h = HotbarState::default();
    h.assign_item(ITEM_CHEST);
    h.assign_item(ITEM_STONE);
    h.assign_item(ITEM_CHEST);
    h.assign_item(ITEM_FURNACE);
    assert_eq!(h.slots[0], Some(ITEM_CHEST));
    assert_eq!(h.slots[1], Some(ITEM_FURNACE));
    assert!(h.slots[2..].iter().all(|s| s.is_none()));
}

#[test]
fn refresh_fills_hotbar_in_catalog_order() {
    let mut inv = Inventory::default();
    inv.add(ITEM_CHEST, 1);
    inv.add(ITEM_FURNACE, 2);
    let mut h = HotbarState::default();
    let mut p = PlacementState::default();
    refresh_hotbar(&inv, &mut h, &mut p);
    assert_eq!(h.slots[0], Some(placeable_items()[0]));
    assert_eq!(h.slots[0], Some(ITEM_FURNACE));
    assert_eq!(h.slots[1], Some(ITEM_CHEST));
    select_hotbar_slot(1, &inv, &mut h, &mut p);
    assert_eq!(h.selected_slot, Some(1));
    assert_eq!(p.selected, Some(ITEM_CHEST));
    select_hotbar_slot(1, &inv, &mut h, &mut p);
    assert_eq!(h.selected_slot, None);
    assert_eq!(p.selected, None);
}

#[test]
fn selection_is_dropped_when_item_runs_out() {
    let mut inv = Inventory::default();
    inv.add(ITEM_CHEST, 1);
    let mut h = HotbarState::default();
    let mut p = PlacementState::default();
    refresh_hotbar(&inv, &mut h, &mut p);
    select_hotbar_slot(0, &inv, &mut h, &mut p);
    assert_eq!(p.selected, Some(ITEM_CHEST));
    assert!(inv.try_remove(ITEM_CHEST, 1));
    refresh_hotbar(&inv, &mut h, &mut p);
    assert_eq!(h.selected_slot, None);
    assert_eq!(p.selected, None);
    select_hotbar_slot(42, &inv, &mut h, &mut p);
    assert_eq!(h.selected_slot, None);
}

#[test]
fn storage_status_reports_errors_and_recovers() {
    let mut s = StorageStatus::default();
    assert_eq!(s.label(), "Storage: Degraded (initializing)");
    s.mark_ok();
    assert_eq!(s.label(), "Storage: Healthy");
    s.record_error(&StorageError::NotFound);
    assert_eq!(s.state, StorageState::Degraded);
    assert_eq!(s.label(), "Storage: Degraded (not found)");
    s.record_error(&StorageError::QuotaExceeded);
    assert_eq!(s.label(), "Storage: Paused (storage quota exceeded (autosave paused))");
    s.mark_ok();
    assert_eq!(s.state, StorageState::Paused);
}

#[test]
fn recovery_reports_ignored_savepoints() {
    let mut s = StorageStatus::default();
    let report = RecoveryReport { incomplete_savepoints: vec![SavepointId::new("a"), SavepointId::new("b")] };
    apply_recovery_report(&mut s, &report);
    assert_eq!(s.state, StorageState::Healthy);
    assert_eq!(s.detail.as_deref(), Some("ignored 2 incomplete savepoints"));
    apply_recovery_report(&mut s, &RecoveryReport { incomplete_savepoints: vec![] });
    assert_eq!(s.detail, None);
}

#[test]
fn detail_labels_show_counts() {
    let mut inv = Inventory::default();
    inv.add(ITEM_STONE, 7);
    assert_eq!(item_detail_label(ITEM_STONE, &inv), "Saltstone\n\nIn inventory: 7");
    inv.add(ITEM_IRON_PLATE, 1);
    assert_eq!(
        recipe_detail_label(&recipe_inserter(), &inv),
        "Brass Arm x1\n\nRequired:\nIron Calx 1/2\nCopper Calx 0/1"
    );
}
