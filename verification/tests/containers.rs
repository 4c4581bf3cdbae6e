use foundry::containers::{
    deposit_to_chest, deposit_to_drill_fuel, deposit_to_furnace_fuel, deposit_to_furnace_input, deposit_to_inserter,
    take_from_chest, take_from_drill, take_from_furnace, take_from_inserter, ChestRecord, ContainerInv, DrillRecord,
    DrillSlot, DrillState, FurnaceRecord, FurnaceSlot, FurnaceState, InserterDirection, InserterInv, InserterRecord,
    Slot,
};
use foundry::inventory::{ITEM_COAL, ITEM_IRON_ORE, ITEM_NONE, ITEM_STONE};

#[test]
fn chest_deposit_uses_first_available_stack() {
    let mut chests = [ChestRecord { object_id: 7, inv: ContainerInv::default() }];

    assert_eq!(deposit_to_chest(&mut chests, 7, ITEM_STONE, 12), 12);
    assert_eq!(deposit_to_chest(&mut chests, 7, ITEM_STONE, 3), 3);
    assert_eq!(chests[0].inv.slots[0].item, ITEM_STONE);
    assert_eq!(chests[0].inv.slots[0].count, 15);
}

#[test]
fn taking_last_item_clears_slot() {
    let mut chests = [ChestRecord { object_id: 7, inv: ContainerInv::default() }];
    deposit_to_chest(&mut chests, 7, ITEM_STONE, 4);

    let taken = take_from_chest(&mut chests, 7, 0, 4).unwrap();

    assert_eq!(taken.item, ITEM_STONE);
    assert_eq!(taken.count, 4);
    assert!(chests[0].inv.slots[0].is_empty());
}

#[test]
fn furnace_input_and_fuel_are_separate_slots() {
    let mut furnaces = [FurnaceRecord { object_id: 9, state: FurnaceState::default() }];

    assert_eq!(deposit_to_furnace_input(&mut furnaces, 9, ITEM_IRON_ORE, 2), 2);
    assert_eq!(deposit_to_furnace_fuel(&mut furnaces, 9, ITEM_COAL, 1), 1);

    assert_eq!(furnaces[0].state.input.item, ITEM_IRON_ORE);
    assert_eq!(furnaces[0].state.input.count, 2);
    assert_eq!(furnaces[0].state.fuel.item, ITEM_COAL);
    assert_eq!(furnaces[0].state.fuel.count, 1);
}

#[test]
fn inserter_deposit_uses_small_internal_buffer() {
    let mut inserters = [InserterRecord {
        object_id: 11,
        direction: InserterDirection::default(),
        inv: InserterInv::default(),
    }];

    assert_eq!(deposit_to_inserter(&mut inserters, 11, ITEM_STONE, 1), 1);
    assert_eq!(deposit_to_inserter(&mut inserters, 11, ITEM_COAL, 1), 1);

    assert_eq!(inserters[0].inv.slots[0].item, ITEM_STONE);
    assert_eq!(inserters[0].inv.slots[1].item, ITEM_COAL);
}

#[test]
fn taking_from_inserter_clears_slot() {
    let mut inserters = [InserterRecord {
        object_id: 11,
        direction: InserterDirection::default(),
        inv: InserterInv::default(),
    }];
    deposit_to_inserter(&mut inserters, 11, ITEM_STONE, 1);

    let taken = take_from_inserter(&mut inserters, 11, 0, 1).unwrap();

    assert_eq!(taken.item, ITEM_STONE);
    assert_eq!(taken.count, 1);
    assert!(inserters[0].inv.slots[0].is_empty());
}

#[test]
fn drill_fuel_and_output_are_separate_slots() {
    let mut drills = [DrillRecord { object_id: 13, state: DrillState::default() }];

    assert_eq!(deposit_to_drill_fuel(&mut drills, 13, ITEM_COAL, 2), 2);
    drills[0].state.output = Slot { item: ITEM_STONE, count: 3 };

    let fuel = take_from_drill(&mut drills, 13, DrillSlot::Fuel, 1).unwrap();
    let output = take_from_drill(&mut drills, 13, DrillSlot::Output, u32::MAX).unwrap();

    assert_eq!(fuel.item, ITEM_COAL);
    assert_eq!(fuel.count, 1);
    assert_eq!(output.item, ITEM_STONE);
    assert_eq!(output.count, 3);
    assert_eq!(drills[0].state.fuel.count, 1);
    assert!(drills[0].state.output.is_empty());
}

#[test]
fn deposit_into_unknown_chest_moves_nothing() {
    let mut chests = [ChestRecord { object_id: 7, inv: ContainerInv::default() }];
    assert_eq!(deposit_to_chest(&mut chests, 8, ITEM_STONE, 5), 0);
    assert!(chests[0].inv.slots.iter().all(|s| s.is_empty()));
}

#[test]
fn deposit_of_nothing_moves_nothing() {
    let mut chests = [ChestRecord { object_id: 7, inv: ContainerInv::default() }];
    assert_eq!(deposit_to_chest(&mut chests, 7, ITEM_NONE, 5), 0);
    assert_eq!(deposit_to_chest(&mut chests, 7, ITEM_STONE, 0), 0);
    assert!(chests[0].inv.slots[0].is_empty());
}

#[test]
fn chest_deposit_skips_slots_of_other_items() {
    let mut chests = [ChestRecord { object_id: 7, inv: ContainerInv::default() }];
    chests[0].inv.slots[0] = Slot { item: ITEM_COAL, count: 5 };
    assert_eq!(deposit_to_chest(&mut chests, 7, ITEM_STONE, 2), 2);
    assert_eq!(chests[0].inv.slots[0], Slot { item: ITEM_COAL, count: 5 });
    assert_eq!(chests[0].inv.slots[1], Slot { item: ITEM_STONE, count: 2 });
}

#[test]
fn full_chest_refuses_new_items() {
    let mut chests = [ChestRecord { object_id: 7, inv: ContainerInv::default() }];
    for slot in chests[0].inv.slots.iter_mut() {
        *slot = Slot { item: ITEM_COAL, count: 1 };
    }
    assert_eq!(deposit_to_chest(&mut chests, 7, ITEM_STONE, 2), 0);
    assert_eq!(deposit_to_chest(&mut chests, 7, ITEM_COAL, 2), 2);
    assert_eq!(chests[0].inv.slots[0].count, 3);
}

#[test]
fn taking_part_of_a_slot_leaves_the_rest() {
    let mut chests = [ChestRecord { object_id: 7, inv: ContainerInv::default() }];
    deposit_to_chest(&mut chests, 7, ITEM_STONE, 10);
    let taken = take_from_chest(&mut chests, 7, 0, 4).unwrap();
    assert_eq!(taken, Slot { item: ITEM_STONE, count: 4 });
    assert_eq!(chests[0].inv.slots[0], Slot { item: ITEM_STONE, count: 6 });
}

#[test]
fn taking_from_empty_or_missing_slot_gives_nothing() {
    let mut chests = [ChestRecord { object_id: 7, inv: ContainerInv::default() }];
    assert_eq!(take_from_chest(&mut chests, 7, 0, 1), None);
    assert_eq!(take_from_chest(&mut chests, 7, 16, 1), None);
    assert_eq!(take_from_chest(&mut chests, 99, 0, 1), None);
}

#[test]
fn furnace_output_can_be_taken() {
    let mut furnaces = [FurnaceRecord { object_id: 9, state: FurnaceState::default() }];
    furnaces[0].state.output = Slot { item: 5, count: 2 };
    let out = take_from_furnace(&mut furnaces, 9, FurnaceSlot::Output, 5).unwrap();
    assert_eq!(out, Slot { item: 5, count: 2 });
    assert!(furnaces[0].state.output.is_empty());
}

#[test]
fn furnace_slot_refuses_a_second_kind_of_item() {
    let mut furnaces = [FurnaceRecord { object_id: 9, state: FurnaceState::default() }];
    assert_eq!(deposit_to_furnace_input(&mut furnaces, 9, ITEM_IRON_ORE, 1), 1);
    assert_eq!(deposit_to_furnace_input(&mut furnaces, 9, ITEM_COAL, 1), 0);
    assert_eq!(furnaces[0].state.input, Slot { item: ITEM_IRON_ORE, count: 1 });
    assert_eq!(deposit_to_furnace_fuel(&mut furnaces, 10, ITEM_COAL, 1), 0);
    assert!(furnaces[0].state.fuel.is_empty());
}

#[test]
fn inserter_directions_turn_and_encode() {
    let d = InserterDirection::Up;
    assert_eq!(d.next_clockwise().next_clockwise().next_clockwise().next_clockwise(), d);
    assert_eq!(InserterDirection::Right.forward_offset(), (1, 0));
    assert_eq!(InserterDirection::Right.back_offset(), (-1, 0));
    for v in 0u8..4 {
        assert_eq!(InserterDirection::from_u8(v).unwrap().to_u8(), v);
    }
    assert_eq!(InserterDirection::from_u8(4), None);
}
