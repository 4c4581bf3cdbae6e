use foundry::inventory::{
    Inventory, InventoryStack, INVENTORY_MAX_STACK, INVENTORY_SLOT_COUNT, ITEM_CHEST, ITEM_COAL, ITEM_NONE,
    ITEM_STONE,
};

#[test]
fn inventory_ignores_empty_item_and_zero_amount() {
    let mut inv = Inventory::default();

    inv.add(ITEM_NONE, 10);
    inv.add(ITEM_STONE, 0);

    assert_eq!(inv.count(ITEM_NONE), 0);
    assert_eq!(inv.count(ITEM_STONE), 0);
}

#[test]
fn inventory_remove_is_all_or_nothing() {
    let mut inv = Inventory::default();
    inv.add(ITEM_STONE, 2);

    assert!(!inv.try_remove(ITEM_STONE, 3));
    assert_eq!(inv.count(ITEM_STONE), 2);
    assert!(inv.try_remove(ITEM_STONE, 2));
    assert_eq!(inv.count(ITEM_STONE), 0);
}

#[test]
fn inventory_splits_counts_into_capped_stacks() {
    let mut inv = Inventory::default();

    assert_eq!(inv.add(ITEM_STONE, 250), 250);
    let stacks = inv.stacks();

    assert_eq!(stacks.len(), 3);
    assert_eq!(stacks[0].count, INVENTORY_MAX_STACK);
    assert_eq!(stacks[1].count, INVENTORY_MAX_STACK);
    assert_eq!(stacks[2].count, 50);
    assert_eq!(inv.used_slots(), 3);
}

#[test]
fn inventory_caps_total_stack_slots() {
    let mut inv = Inventory::default();

    assert_eq!(
        inv.add(ITEM_STONE, INVENTORY_MAX_STACK * INVENTORY_SLOT_COUNT as u32),
        INVENTORY_MAX_STACK * INVENTORY_SLOT_COUNT as u32
    );
    assert_eq!(inv.add(ITEM_COAL, 1), 0);
    assert_eq!(inv.count(ITEM_COAL), 0);
    assert_eq!(inv.stacks().len(), INVENTORY_SLOT_COUNT);
}

#[test]
fn inventory_fills_partial_stack_before_requiring_free_slot() {
    let mut inv = Inventory::default();

    assert_eq!(inv.add(ITEM_STONE, 99), 99);
    assert_eq!(inv.add(ITEM_STONE, 2), 2);

    let stacks = inv.stacks();
    assert_eq!(stacks.len(), 2);
    assert_eq!(stacks[0].count, INVENTORY_MAX_STACK);
    assert_eq!(stacks[1].count, 1);
}

#[test]
fn inventory_takes_only_what_fits() {
    let mut inv = Inventory::default();
    assert_eq!(inv.add(ITEM_STONE, 3150), 3150);
    assert_eq!(inv.acceptable_amount(ITEM_STONE, 100), 50);
    assert!(!inv.can_add(ITEM_STONE, 51));
    assert!(inv.can_add(ITEM_STONE, 50));
    assert_eq!(inv.add(ITEM_STONE, 100), 50);
    assert_eq!(inv.count(ITEM_STONE), 3200);
}

#[test]
fn inventory_entries_are_in_item_order() {
    let mut inv = Inventory::default();
    inv.add(ITEM_CHEST, 2);
    inv.add(ITEM_STONE, 42);
    assert_eq!(inv.entries(), vec![(ITEM_STONE, 42), (ITEM_CHEST, 2)]);
    assert_eq!(
        inv.stacks(),
        vec![InventoryStack { item: ITEM_STONE, count: 42 }, InventoryStack { item: ITEM_CHEST, count: 2 }]
    );
}

#[test]
fn removing_then_adding_back_restores_contents() {
    let mut inv = Inventory::default();
    inv.add(ITEM_STONE, 101);
    inv.add(ITEM_COAL, 7);
    let before = inv.entries();
    assert!(inv.try_remove(ITEM_STONE, 1));
    assert_eq!(inv.add(ITEM_STONE, 1), 1);
    assert_eq!(inv.entries(), before);
}

#[test]
fn removing_everything_drops_the_entry() {
    let mut inv = Inventory::default();
    inv.add(ITEM_STONE, 5);
    assert!(inv.try_remove(ITEM_STONE, 5));
    assert!(inv.entries().is_empty());
    assert_eq!(inv.used_slots(), 0);
    assert!(inv.try_remove(ITEM_STONE, 0));
    assert!(!inv.try_remove(ITEM_STONE, 1));
}

#[test]
fn clone_keeps_contents() {
    let mut inv = Inventory::default();
    inv.add(ITEM_STONE, 5);
    let copy = inv.clone();
    assert_eq!(copy.entries(), inv.entries());
}

#[test]
fn stacks_are_ordered_capped_and_add_up_per_item() {
    let mut inv = Inventory::default();
    inv.add(ITEM_STONE, 250);
    inv.add(ITEM_COAL, 100);
    inv.add(ITEM_CHEST, 7);
    let stacks = inv.stacks();
    assert_eq!(stacks.len(), inv.used_slots());
    for pair in stacks.windows(2) {
        assert!(pair[0].item <= pair[1].item);
    }
    for (i, s) in stacks.iter().enumerate() {
        assert!(s.count >= 1 && s.count <= INVENTORY_MAX_STACK);
        if stacks[i + 1..].iter().any(|t| t.item == s.item) {
            assert_eq!(s.count, INVENTORY_MAX_STACK);
        }
    }
    for item in [ITEM_STONE, ITEM_COAL, ITEM_CHEST] {
        let total: u32 = stacks.iter().filter(|s| s.item == item).map(|s| s.count).sum();
        assert_eq!(total, inv.count(item));
    }
    assert_eq!(
        stacks,
        vec![
            InventoryStack { item: ITEM_COAL, count: 100 },
            InventoryStack { item: ITEM_STONE, count: 100 },
            InventoryStack { item: ITEM_STONE, count: 100 },
            InventoryStack { item: ITEM_STONE, count: 50 },
            InventoryStack { item: ITEM_CHEST, count: 7 },
        ]
    );
}
