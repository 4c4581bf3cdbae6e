use foundry::containers::{FurnaceRecord, FurnaceSlot, FurnaceState, InserterDirection, Slot};
use foundry::controls::{HotbarState, PlacementState};
use foundry::hud::{
    close_ui, craft_menu_label, craft_menu_toggled, furnace_slot, inserter_direction_label, item_count_label,
    map_toggled, minimap_visible, open_panel_in_chunk, panel_for_cell, pickup_notice_label, placement_direction_text,
    apply_placement_keys, inventory_summary_label, pickup_progress_label, placement_label, resource_tooltip_label, track_mining_target, world_stats_label,
    MiningFeedbackState, PickupNotice, PlacementKeys, UiMode,
};
use foundry::inventory::{Inventory, ITEM_ALEMBIC, ITEM_CRUCIBLE, ITEM_FURNACE, ITEM_MINING_DRILL};
use foundry::ore_nodes::MapResourceCell;
use foundry::world::RES_COAL;
use foundry::inventory::{ITEM_CHEST, ITEM_COAL, ITEM_INSERTER, ITEM_IRON_ORE, ITEM_IRON_PLATE};
use foundry::ore_nodes::ResourceNodeSummary;
use foundry::world::{
    ChunkCoord, PlacedCell, ResourceCell, SimChunkData, CHUNK_TILE_COUNT, PLACED_ALEMBIC, PLACED_CHEST,
    PLACED_CRUCIBLE, PLACED_FURNACE, PLACED_INSERTER, PLACED_MINING_DRILL, PLACED_NONE, RES_IRON, RES_NONE,
};

fn empty_chunk() -> SimChunkData {
    SimChunkData {
        coord: ChunkCoord::new(0, 0),
        layer: 0,
        tiles: vec![0; CHUNK_TILE_COUNT],
        resources: vec![ResourceCell { kind: RES_NONE, amount: 0 }; CHUNK_TILE_COUNT],
        placed: vec![PlacedCell { kind: PLACED_NONE, object_id: 0 }; CHUNK_TILE_COUNT],
        chests: Vec::new(),
        furnaces: Vec::new(),
        inserters: Vec::new(),
        drills: Vec::new(),
        alembics: Vec::new(),
        crucibles: Vec::new(),
        entities: Vec::new(),
        saved_tick: 0,
    }
}

#[test]
fn clicking_a_machine_opens_its_panel() {
    assert_eq!(panel_for_cell(PlacedCell { kind: PLACED_CHEST, object_id: 7 }), Some(UiMode::Chest { object_id: 7 }));
    assert_eq!(panel_for_cell(PlacedCell { kind: PLACED_FURNACE, object_id: 8 }), Some(UiMode::Furnace { object_id: 8 }));
    assert_eq!(panel_for_cell(PlacedCell { kind: PLACED_INSERTER, object_id: 9 }), Some(UiMode::Inserter { object_id: 9 }));
    assert_eq!(
        panel_for_cell(PlacedCell { kind: PLACED_MINING_DRILL, object_id: 10 }),
        Some(UiMode::MiningDrill { object_id: 10 })
    );
    assert_eq!(panel_for_cell(PlacedCell { kind: PLACED_ALEMBIC, object_id: 11 }), Some(UiMode::Alembic { object_id: 11 }));
    assert_eq!(panel_for_cell(PlacedCell { kind: PLACED_CRUCIBLE, object_id: 12 }), Some(UiMode::Crucible { object_id: 12 }));
    assert_eq!(panel_for_cell(PlacedCell { kind: PLACED_CHEST, object_id: 0 }), None);
    assert_eq!(panel_for_cell(PlacedCell { kind: PLACED_NONE, object_id: 5 }), None);
}

#[test]
fn panel_lookup_reads_the_chunk_cell() {
    let mut data = empty_chunk();
    data.placed[3 * 32 + 4] = PlacedCell { kind: PLACED_FURNACE, object_id: 42 };
    assert_eq!(open_panel_in_chunk(&data, 4, 3), Some(UiMode::Furnace { object_id: 42 }));
    assert_eq!(open_panel_in_chunk(&data, 3, 4), None);
    data.placed.truncate(10);
    assert_eq!(open_panel_in_chunk(&data, 4, 3), None);
}

#[test]
fn keys_toggle_panels_and_undo_themselves() {
    assert_eq!(craft_menu_toggled(UiMode::Closed), UiMode::Crafting);
    assert_eq!(craft_menu_toggled(UiMode::Crafting), UiMode::Closed);
    assert_eq!(craft_menu_toggled(UiMode::WorldMap), UiMode::WorldMap);
    assert_eq!(map_toggled(UiMode::Closed), UiMode::WorldMap);
    assert_eq!(map_toggled(UiMode::WorldMap), UiMode::Closed);
    let chest = UiMode::Chest { object_id: 3 };
    assert_eq!(map_toggled(chest), chest);
    for mode in [UiMode::Closed, UiMode::WorldMap, UiMode::Crafting, chest] {
        assert_eq!(craft_menu_toggled(craft_menu_toggled(mode)), mode);
        assert_eq!(map_toggled(map_toggled(mode)), mode);
    }
    assert!(minimap_visible(UiMode::Closed));
    assert!(!minimap_visible(UiMode::WorldMap));
    assert_eq!(craft_menu_label(UiMode::Crafting), "Close Crafting");
    assert_eq!(craft_menu_label(UiMode::Closed), "Crafting");
}

#[test]
fn closing_drops_the_panel_or_the_selection() {
    let mut placement = PlacementState { selected: Some(ITEM_CHEST), inserter_direction: InserterDirection::Left };
    let mut hotbar = HotbarState::default();
    hotbar.selected_slot = Some(2);

    let mut mode = UiMode::Furnace { object_id: 1 };
    close_ui(&mut mode, &mut placement, &mut hotbar);
    assert_eq!(mode, UiMode::Closed);
    assert_eq!(placement.selected, Some(ITEM_CHEST));
    assert_eq!(hotbar.selected_slot, Some(2));

    close_ui(&mut mode, &mut placement, &mut hotbar);
    assert_eq!(mode, UiMode::Closed);
    assert_eq!(placement.selected, None);
    assert_eq!(placement.inserter_direction, InserterDirection::Left);
    assert_eq!(hotbar.selected_slot, None);
}

#[test]
fn hud_labels() {
    assert_eq!(item_count_label(0), "");
    assert_eq!(item_count_label(305), "305");
    assert_eq!(inserter_direction_label(InserterDirection::Up), "Up ^");
    assert_eq!(inserter_direction_label(InserterDirection::Left), "Left <");
    assert_eq!(
        pickup_notice_label(PickupNotice { item: ITEM_IRON_ORE, amount: 1, total: 12 }),
        "+1 Ferric Ore (12)"
    );
    assert_eq!(pickup_notice_label(PickupNotice { item: ITEM_COAL, amount: 3, total: 3 }), "+3 Black Salt (3)");
    assert_eq!(resource_tooltip_label(ResourceNodeSummary { kind: RES_IRON, total: 12 }), "Iron Ore: 12 left");
    assert_eq!(world_stats_label(9, 2, 0), "Chunks: 9 | Dirty: 2 | Evict/s: 0");
}

#[test]
fn direction_line_only_for_inserters() {
    let mut placement = PlacementState { selected: Some(ITEM_INSERTER), inserter_direction: InserterDirection::Down };
    assert_eq!(placement_direction_text(&placement), Some("Inserter output: Down v".to_string()));
    placement.selected = Some(ITEM_CHEST);
    assert_eq!(placement_direction_text(&placement), None);
    placement.selected = None;
    assert_eq!(placement_direction_text(&placement), None);
}

#[test]
fn furnace_slots_by_name() {
    let furnace = FurnaceRecord {
        object_id: 4,
        state: FurnaceState {
            input: Slot { item: ITEM_IRON_ORE, count: 2 },
            fuel: Slot { item: ITEM_COAL, count: 1 },
            output: Slot { item: ITEM_IRON_PLATE, count: 5 },
            progress: 0,
        },
    };
    assert_eq!(furnace_slot(Some(&furnace), FurnaceSlot::Input), Some(Slot { item: ITEM_IRON_ORE, count: 2 }));
    assert_eq!(furnace_slot(Some(&furnace), FurnaceSlot::Fuel), Some(Slot { item: ITEM_COAL, count: 1 }));
    assert_eq!(furnace_slot(Some(&furnace), FurnaceSlot::Output), Some(Slot { item: ITEM_IRON_PLATE, count: 5 }));
    assert_eq!(furnace_slot(None, FurnaceSlot::Output), None);
}

#[test]
fn mining_readout_follows_the_tile_under_the_cursor() {
    let mut state = MiningFeedbackState::default();
    let iron = |amount: u16| MapResourceCell { kind: RES_IRON, amount };

    let first = track_mining_target(&mut state, Some((3, 4, iron(20)))).unwrap();
    assert_eq!(first.instruction, "Mining Iron Ore");
    assert_eq!(first.details, "Iron Ore left: 20/20");
    assert_eq!(first.max_amount, 20);

    let mined = track_mining_target(&mut state, Some((3, 4, iron(17)))).unwrap();
    assert_eq!(mined.details, "Iron Ore left: 17/20");
    assert_eq!(state.tracked_max_amount, 20);

    let grown = track_mining_target(&mut state, Some((3, 4, iron(25)))).unwrap();
    assert_eq!(grown.details, "Iron Ore left: 25/25");

    let moved = track_mining_target(&mut state, Some((5, 4, iron(9)))).unwrap();
    assert_eq!(moved.details, "Iron Ore left: 9/9");
    assert_eq!(state.tracked_tile, Some((5, 4)));

    let other = track_mining_target(&mut state, Some((5, 4, MapResourceCell { kind: RES_COAL, amount: 2 }))).unwrap();
    assert_eq!(other.instruction, "Mining Coal");
    assert_eq!(other.details, "Coal left: 2/2");

    assert!(track_mining_target(&mut state, None).is_none());
    assert_eq!(state.tracked_tile, None);
    assert_eq!(state.tracked_resource_kind, RES_NONE);
    assert_eq!(state.tracked_max_amount, 0);
}

#[test]
fn pickup_caption_names_the_item_given_back() {
    assert_eq!(pickup_progress_label(PLACED_CHEST), "Picking up Reliquary");
    assert_eq!(pickup_progress_label(PLACED_NONE), "Picking up Unknown");
}

fn no_keys() -> PlacementKeys {
    PlacementKeys {
        furnace: false,
        chest: false,
        inserter: false,
        drill: false,
        alembic: false,
        crucible: false,
        rotate: false,
        escape: false,
    }
}

#[test]
fn quick_place_keys_choose_held_structures() {
    let mut inv = Inventory::default();
    inv.add(ITEM_CHEST, 1);
    inv.add(ITEM_INSERTER, 2);
    let mut placement = PlacementState { selected: None, inserter_direction: InserterDirection::Up };

    apply_placement_keys(UiMode::Closed, PlacementKeys { furnace: true, ..no_keys() }, &inv, &mut placement);
    assert_eq!(placement.selected, None);

    apply_placement_keys(UiMode::Closed, PlacementKeys { furnace: true, chest: true, ..no_keys() }, &inv, &mut placement);
    assert_eq!(placement.selected, Some(ITEM_CHEST));

    apply_placement_keys(UiMode::Closed, PlacementKeys { chest: true, inserter: true, drill: true, ..no_keys() }, &inv, &mut placement);
    assert_eq!(placement.selected, Some(ITEM_INSERTER));
    assert_ne!(Some(ITEM_MINING_DRILL), placement.selected);

    apply_placement_keys(UiMode::Closed, PlacementKeys { rotate: true, ..no_keys() }, &inv, &mut placement);
    assert_eq!(placement.inserter_direction, InserterDirection::Right);

    apply_placement_keys(UiMode::Crafting, PlacementKeys { rotate: true, escape: true, ..no_keys() }, &inv, &mut placement);
    assert_eq!(placement.selected, Some(ITEM_INSERTER));
    assert_eq!(placement.inserter_direction, InserterDirection::Right);

    apply_placement_keys(UiMode::Closed, PlacementKeys { escape: true, ..no_keys() }, &inv, &mut placement);
    assert_eq!(placement.selected, None);
    apply_placement_keys(UiMode::Closed, PlacementKeys { rotate: true, ..no_keys() }, &inv, &mut placement);
    assert_eq!(placement.inserter_direction, InserterDirection::Right);
}

#[test]
fn inventory_and_placement_lines() {
    let mut inv = Inventory::default();
    inv.add(ITEM_IRON_ORE, 7);
    inv.add(ITEM_COAL, 2);
    inv.add(ITEM_CHEST, 1);
    assert_eq!(
        inventory_summary_label(&inv),
        "Inventory: Iron Ore 7 | Copper Ore 0 | Coal 2 | Stone 0\nPlates: Iron 0 | Copper 0 | Furnace 0 | Chest 1"
    );

    let mut placement = PlacementState { selected: Some(ITEM_CHEST), inserter_direction: InserterDirection::Down };
    assert_eq!(placement_label(&inv, &mut placement), "Place: Reliquary x1 (F furnace, C chest, Esc clear)");
    placement.selected = Some(ITEM_FURNACE);
    assert_eq!(placement_label(&inv, &mut placement), "Place: None (F furnace, C chest, Esc clear)");
    assert_eq!(placement.selected, None);
    assert_eq!(placement.inserter_direction, InserterDirection::Down);
}

#[test]
fn l_and_x_choose_alembic_and_crucible() {
    let mut inv = Inventory::default();
    inv.add(ITEM_ALEMBIC, 1);
    inv.add(ITEM_CRUCIBLE, 2);
    let mut placement = PlacementState { selected: None, inserter_direction: InserterDirection::Up };
    apply_placement_keys(UiMode::Closed, PlacementKeys { alembic: true, ..no_keys() }, &inv, &mut placement);
    assert_eq!(placement.selected, Some(ITEM_ALEMBIC));
    apply_placement_keys(UiMode::Closed, PlacementKeys { crucible: true, ..no_keys() }, &inv, &mut placement);
    assert_eq!(placement.selected, Some(ITEM_CRUCIBLE));
    apply_placement_keys(UiMode::Closed, PlacementKeys { alembic: true, crucible: true, ..no_keys() }, &inv, &mut placement);
    assert_eq!(placement.selected, Some(ITEM_CRUCIBLE));
    let empty = Inventory::default();
    apply_placement_keys(UiMode::Closed, PlacementKeys { alembic: true, ..no_keys() }, &empty, &mut placement);
    assert_eq!(placement.selected, Some(ITEM_CRUCIBLE));
}
