use foundry::gameplay::{
    can_craft, is_placeable_item, item_name, item_to_placed_kind, object_id_for_tile, placed_kind_to_item,
    recipe_chest, recipe_for_index, recipe_furnace, recipe_inserter, recipe_mining_drill, resource_to_item,
    smelt_output_for_input, try_craft,
};
use foundry::inventory::{
    Inventory, ITEM_CHEST, ITEM_COAL, ITEM_COPPER_ORE, ITEM_COPPER_PLATE, ITEM_FURNACE, ITEM_INSERTER,
    ITEM_IRON_ORE, ITEM_IRON_PLATE, ITEM_MINING_DRILL, ITEM_STONE,
};
use foundry::world::{
    PLACED_CHEST, PLACED_FURNACE, PLACED_INSERTER, PLACED_MINING_DRILL, PLACED_NONE, RES_COAL, RES_COPPER, RES_IRON,
    RES_NONE, RES_STONE,
};

#[test]
fn crafting_consumes_inputs_and_adds_output() {
    let mut inv = Inventory::default();
    inv.add(ITEM_STONE, 10);

    assert!(try_craft(&mut inv, &recipe_furnace()));
    assert_eq!(inv.count(ITEM_STONE), 0);
    assert_eq!(inv.count(ITEM_FURNACE), 1);
}

#[test]
fn crafting_fails_without_required_inputs() {
    let mut inv = Inventory::default();
    inv.add(ITEM_STONE, 9);

    assert!(!try_craft(&mut inv, &recipe_furnace()));
    assert_eq!(inv.count(ITEM_STONE), 9);
    assert_eq!(inv.count(ITEM_FURNACE), 0);
}

#[test]
fn inserter_recipe_uses_smelted_plates() {
    let mut inv = Inventory::default();
    inv.add(ITEM_IRON_PLATE, 2);
    inv.add(ITEM_COPPER_PLATE, 1);

    assert!(try_craft(&mut inv, &recipe_inserter()));
    assert_eq!(inv.count(ITEM_IRON_PLATE), 0);
    assert_eq!(inv.count(ITEM_COPPER_PLATE), 0);
    assert_eq!(inv.count(ITEM_INSERTER), 1);
}

#[test]
fn mining_drill_recipe_uses_smelted_plates_and_stone() {
    let mut inv = Inventory::default();
    inv.add(ITEM_IRON_PLATE, 3);
    inv.add(ITEM_COPPER_PLATE, 1);
    inv.add(ITEM_STONE, 5);

    assert!(try_craft(&mut inv, &recipe_mining_drill()));
    assert_eq!(inv.count(ITEM_IRON_PLATE), 0);
    assert_eq!(inv.count(ITEM_COPPER_PLATE), 0);
    assert_eq!(inv.count(ITEM_STONE), 0);
    assert_eq!(inv.count(ITEM_MINING_DRILL), 1);
}

#[test]
fn placement_and_smelt_rules_match_item_catalog() {
    assert_eq!(item_to_placed_kind(ITEM_FURNACE), Some(PLACED_FURNACE));
    assert_eq!(item_to_placed_kind(ITEM_CHEST), Some(PLACED_CHEST));
    assert_eq!(item_to_placed_kind(ITEM_INSERTER), Some(PLACED_INSERTER));
    assert_eq!(item_to_placed_kind(ITEM_MINING_DRILL), Some(PLACED_MINING_DRILL));
    assert_eq!(placed_kind_to_item(PLACED_FURNACE), Some(ITEM_FURNACE));
    assert_eq!(placed_kind_to_item(PLACED_CHEST), Some(ITEM_CHEST));
    assert_eq!(placed_kind_to_item(PLACED_INSERTER), Some(ITEM_INSERTER));
    assert_eq!(placed_kind_to_item(PLACED_MINING_DRILL), Some(ITEM_MINING_DRILL));
    assert_eq!(item_to_placed_kind(ITEM_STONE), None);
    assert_eq!(placed_kind_to_item(PLACED_NONE), None);
    assert_eq!(smelt_output_for_input(ITEM_IRON_ORE), Some(ITEM_IRON_PLATE));
    assert_eq!(smelt_output_for_input(ITEM_COPPER_ORE), Some(ITEM_COPPER_PLATE));
    assert_eq!(smelt_output_for_input(ITEM_COAL), None);
}

#[test]
fn resource_pickups_map_to_inventory_items() {
    assert_eq!(resource_to_item(RES_IRON), Some(ITEM_IRON_ORE));
    assert_eq!(resource_to_item(RES_COPPER), Some(ITEM_COPPER_ORE));
    assert_eq!(resource_to_item(RES_COAL), Some(ITEM_COAL));
    assert_eq!(resource_to_item(RES_STONE), Some(ITEM_STONE));
}

#[test]
fn object_ids_are_deterministic_and_non_zero() {
    let a = object_id_for_tile(1337, -8, 12, PLACED_INSERTER);
    let b = object_id_for_tile(1337, -8, 12, PLACED_INSERTER);

    assert_eq!(a, b);
    assert_ne!(a, 0);
}

#[test]
fn no_resource_gives_no_item() {
    assert_eq!(resource_to_item(RES_NONE), None);
}

#[test]
fn object_ids_differ_by_kind_and_tile() {
    let a = object_id_for_tile(1337, -8, 12, PLACED_INSERTER);
    assert_ne!(a, object_id_for_tile(1337, -8, 12, PLACED_CHEST));
    assert_ne!(a, object_id_for_tile(1337, -7, 12, PLACED_INSERTER));
    assert_ne!(a, object_id_for_tile(1338, -8, 12, PLACED_INSERTER));
}

#[test]
fn placeable_items_round_trip_through_structures() {
    for item in [ITEM_FURNACE, ITEM_CHEST, ITEM_INSERTER, ITEM_MINING_DRILL] {
        assert!(is_placeable_item(item));
        let kind = item_to_placed_kind(item).unwrap();
        assert_eq!(placed_kind_to_item(kind), Some(item));
    }
    assert!(!is_placeable_item(ITEM_STONE));
}

#[test]
fn crafting_check_does_not_consume() {
    let mut inv = Inventory::default();
    inv.add(ITEM_STONE, 10);
    assert!(can_craft(&inv, &recipe_chest()));
    assert_eq!(inv.count(ITEM_STONE), 10);
    assert!(try_craft(&mut inv, &recipe_chest()));
    assert!(!can_craft(&inv, &recipe_chest()));
    assert_eq!(inv.count(ITEM_CHEST), 1);
}

#[test]
fn recipe_menu_lists_six_recipes() {
    assert_eq!(recipe_for_index(0).unwrap().output, ITEM_FURNACE);
    assert_eq!(recipe_for_index(3).unwrap().output, ITEM_MINING_DRILL);
    assert!(recipe_for_index(5).is_some());
    assert!(recipe_for_index(6).is_none());
}

#[test]
fn item_names_are_shown() {
    assert_eq!(item_name(ITEM_STONE), "Saltstone");
    assert_eq!(item_name(999), "Unknown");
}

#[test]
fn crafting_changes_each_count_by_the_recipe() {
    let mut inv = Inventory::default();
    inv.add(ITEM_IRON_PLATE, 7);
    inv.add(ITEM_COPPER_PLATE, 4);
    inv.add(ITEM_STONE, 20);
    inv.add(ITEM_COAL, 3);
    inv.add(ITEM_MINING_DRILL, 2);

    assert!(try_craft(&mut inv, &recipe_mining_drill()));
    assert_eq!(inv.count(ITEM_IRON_PLATE), 4);
    assert_eq!(inv.count(ITEM_COPPER_PLATE), 3);
    assert_eq!(inv.count(ITEM_STONE), 15);
    assert_eq!(inv.count(ITEM_MINING_DRILL), 3);
    assert_eq!(inv.count(ITEM_COAL), 3);
}
