use foundry::containers::{
    AlembicRecord, AlembicState, ChestRecord, ContainerInv, CrucibleRecord, CrucibleState, DrillRecord, DrillState,
    FurnaceRecord, FurnaceState, InserterDirection, InserterInv, InserterRecord, Slot,
};
use foundry::moves::{find_holder, pull_one_item, push_one_item, MachineKind};
use foundry::transfer::{TransferSource, TransferTarget};
use foundry::world::{ChunkCoord, PlacedCell, ResourceCell, SimChunkData, CHUNK_TILE_COUNT, PLACED_NONE, RES_NONE};
use foundry::inventory::{
    ITEM_COAL, ITEM_COPPER_ORE, ITEM_CUPRIC_ESSENCE, ITEM_FERRIC_ESSENCE, ITEM_IRON_ORE, ITEM_IRON_PLATE, ITEM_LODESTONE,
    ITEM_NONE,
};

fn chunk(cx: i32) -> SimChunkData {
    SimChunkData {
        coord: ChunkCoord::new(cx, 0),
        layer: 0,
        tiles: vec![0; CHUNK_TILE_COUNT],
        resources: vec![ResourceCell { kind: RES_NONE, amount: 0 }; CHUNK_TILE_COUNT],
        placed: vec![PlacedCell { kind: PLACED_NONE, object_id: 0 }; CHUNK_TILE_COUNT],
        chests: Vec::new(),
        furnaces: Vec::new(),
        inserters: Vec::new(),
        drills: Vec::new(),
        alembics: Vec::new(),
        crucibles: Vec::new(),
        entities: Vec::new(),
        saved_tick: 0,
    }
}

fn empty() -> Slot {
    Slot { item: ITEM_NONE, count: 0 }
}

fn inserter(id: u64, slots: [Slot; 4]) -> InserterRecord {
    InserterRecord { object_id: id, direction: InserterDirection::Right, inv: InserterInv { slots } }
}

fn chest(id: u64, slots: [Slot; 16]) -> ChestRecord {
    ChestRecord { object_id: id, inv: ContainerInv { slots } }
}

fn furnace(id: u64, output: Slot) -> FurnaceRecord {
    FurnaceRecord { object_id: id, state: FurnaceState { input: empty(), fuel: empty(), output, progress: 0 } }
}

#[test]
fn push_moves_one_item_within_a_chunk() {
    let mut a = chunk(0);
    a.inserters.push(inserter(10, [Slot { item: ITEM_IRON_ORE, count: 3 }, empty(), empty(), empty()]));
    a.chests.push(chest(20, [empty(); 16]));
    let mut loaded = vec![a];

    let changed = push_one_item(&mut loaded, 10, 0, TransferTarget::Chest { object_id: 20 });

    assert_eq!(changed, vec![0]);
    assert_eq!(loaded[0].inserters[0].inv.slots[0], Slot { item: ITEM_IRON_ORE, count: 2 });
    assert_eq!(loaded[0].chests[0].inv.slots[0], Slot { item: ITEM_IRON_ORE, count: 1 });
}

#[test]
fn push_across_chunks_names_both() {
    let mut a = chunk(0);
    a.inserters.push(inserter(10, [Slot { item: ITEM_COAL, count: 1 }, empty(), empty(), empty()]));
    let mut b = chunk(1);
    b.furnaces.push(furnace(30, empty()));
    let mut loaded = vec![a, b];

    let changed = push_one_item(&mut loaded, 10, 0, TransferTarget::FurnaceFuel { object_id: 30 });

    assert_eq!(changed, vec![0, 1]);
    assert_eq!(loaded[0].inserters[0].inv.slots[0], empty());
    assert_eq!(loaded[1].furnaces[0].state.fuel, Slot { item: ITEM_COAL, count: 1 });
}

#[test]
fn refused_push_puts_the_item_back_in_the_first_free_slot() {
    let mut a = chunk(0);
    a.inserters.push(inserter(10, [empty(), Slot { item: ITEM_IRON_ORE, count: 1 }, empty(), empty()]));
    a.chests.push(chest(20, [Slot { item: ITEM_COPPER_ORE, count: 5 }; 16]));
    let before_chest = a.chests[0];
    let mut loaded = vec![a];

    let changed = push_one_item(&mut loaded, 10, 1, TransferTarget::Chest { object_id: 20 });

    assert!(changed.is_empty());
    assert_eq!(loaded[0].chests[0], before_chest);
    assert_eq!(loaded[0].inserters[0].inv.slots[0], Slot { item: ITEM_IRON_ORE, count: 1 });
    assert_eq!(loaded[0].inserters[0].inv.slots[1], empty());
}

#[test]
fn fuel_targets_take_only_coal() {
    let mut a = chunk(0);
    a.inserters.push(inserter(10, [Slot { item: ITEM_IRON_ORE, count: 2 }, empty(), empty(), empty()]));
    a.furnaces.push(furnace(30, empty()));
    let mut loaded = vec![a];

    let changed = push_one_item(&mut loaded, 10, 0, TransferTarget::FurnaceFuel { object_id: 30 });
    assert!(changed.is_empty());
    assert_eq!(loaded[0].inserters[0].inv.slots[0], Slot { item: ITEM_IRON_ORE, count: 2 });
    assert_eq!(loaded[0].furnaces[0].state.fuel, empty());

    let changed = push_one_item(&mut loaded, 10, 0, TransferTarget::FurnaceInput { object_id: 30 });
    assert_eq!(changed, vec![0]);
    assert_eq!(loaded[0].furnaces[0].state.input, Slot { item: ITEM_IRON_ORE, count: 1 });
}

#[test]
fn push_from_an_empty_slot_or_missing_inserter_does_nothing() {
    let mut a = chunk(0);
    a.inserters.push(inserter(10, [empty(); 4]));
    a.chests.push(chest(20, [empty(); 16]));
    let mut loaded = vec![a];
    assert!(push_one_item(&mut loaded, 10, 0, TransferTarget::Chest { object_id: 20 }).is_empty());
    assert!(push_one_item(&mut loaded, 99, 0, TransferTarget::Chest { object_id: 20 }).is_empty());
    assert!(push_one_item(&mut loaded, 10, 7, TransferTarget::Chest { object_id: 20 }).is_empty());
    assert_eq!(loaded[0].chests[0].inv.slots, [empty(); 16]);
}

#[test]
fn pull_takes_from_furnace_output() {
    let mut a = chunk(0);
    a.furnaces.push(furnace(30, Slot { item: ITEM_IRON_PLATE, count: 2 }));
    let mut b = chunk(1);
    b.inserters.push(inserter(10, [empty(); 4]));
    let mut loaded = vec![a, b];

    let changed = pull_one_item(&mut loaded, 10, TransferSource::FurnaceOutput { object_id: 30 });

    assert_eq!(changed, vec![0, 1]);
    assert_eq!(loaded[0].furnaces[0].state.output, Slot { item: ITEM_IRON_PLATE, count: 1 });
    assert_eq!(loaded[1].inserters[0].inv.slots[0], Slot { item: ITEM_IRON_PLATE, count: 1 });
}

#[test]
fn refused_pull_restores_the_source() {
    let mut a = chunk(0);
    a.drills.push(DrillRecord {
        object_id: 40,
        state: DrillState { fuel: empty(), output: Slot { item: ITEM_IRON_ORE, count: 1 }, progress: 0 },
    });
    a.inserters.push(inserter(10, [Slot { item: ITEM_COPPER_ORE, count: 1 }; 4]));
    let mut loaded = vec![a];

    let changed = pull_one_item(&mut loaded, 10, TransferSource::DrillOutput { object_id: 40 });

    assert!(changed.is_empty());
    assert_eq!(loaded[0].drills[0].state.output, Slot { item: ITEM_IRON_ORE, count: 1 });
    assert_eq!(loaded[0].inserters[0].inv.slots, [Slot { item: ITEM_COPPER_ORE, count: 1 }; 4]);
}

#[test]
fn pull_from_a_chest_slot() {
    let mut a = chunk(0);
    let mut slots = [empty(); 16];
    slots[3] = Slot { item: ITEM_COAL, count: 4 };
    a.chests.push(chest(20, slots));
    a.inserters.push(inserter(10, [empty(); 4]));
    let mut loaded = vec![a];

    let changed = pull_one_item(&mut loaded, 10, TransferSource::ChestSlot { object_id: 20, slot_idx: 3 });
    assert_eq!(changed, vec![0]);
    assert_eq!(loaded[0].chests[0].inv.slots[3], Slot { item: ITEM_COAL, count: 3 });
    assert_eq!(loaded[0].inserters[0].inv.slots[0], Slot { item: ITEM_COAL, count: 1 });
}

#[test]
fn machines_are_found_in_the_first_chunk_holding_them() {
    let mut a = chunk(0);
    a.chests.push(chest(20, [empty(); 16]));
    let mut b = chunk(1);
    b.chests.push(chest(21, [empty(); 16]));
    b.inserters.push(inserter(10, [empty(); 4]));
    let loaded = vec![a, b];
    assert_eq!(find_holder(&loaded, MachineKind::Chest, 21), Some(1));
    assert_eq!(find_holder(&loaded, MachineKind::Chest, 20), Some(0));
    assert_eq!(find_holder(&loaded, MachineKind::Inserter, 10), Some(1));
    assert_eq!(find_holder(&loaded, MachineKind::Furnace, 20), None);
}

fn coal_in(loaded: &[SimChunkData]) -> u64 {
    let mut n = 0u64;
    for d in loaded {
        for c in &d.chests {
            for s in c.inv.slots.iter() {
                if s.item == ITEM_COAL && s.count > 0 {
                    n += s.count as u64;
                }
            }
        }
        for f in &d.furnaces {
            for s in [f.state.input, f.state.fuel, f.state.output] {
                if s.item == ITEM_COAL && s.count > 0 {
                    n += s.count as u64;
                }
            }
        }
        for r in &d.inserters {
            for s in r.inv.slots.iter() {
                if s.item == ITEM_COAL && s.count > 0 {
                    n += s.count as u64;
                }
            }
        }
    }
    n
}

#[test]
fn moves_keep_the_number_of_items() {
    let mut a = chunk(0);
    a.inserters.push(inserter(10, [empty(), Slot { item: ITEM_COAL, count: 2 }, empty(), empty()]));
    a.furnaces.push(furnace(30, empty()));
    let mut full = [Slot { item: ITEM_COPPER_ORE, count: 1 }; 16];
    full[15] = Slot { item: ITEM_COAL, count: 7 };
    a.chests.push(chest(20, full));
    let mut loaded = vec![a];
    let start = coal_in(&loaded);
    assert_eq!(start, 9);

    push_one_item(&mut loaded, 10, 1, TransferTarget::FurnaceFuel { object_id: 30 });
    assert_eq!(coal_in(&loaded), start);
    push_one_item(&mut loaded, 10, 1, TransferTarget::FurnaceInput { object_id: 30 });
    assert_eq!(coal_in(&loaded), start);
    pull_one_item(&mut loaded, 10, TransferSource::ChestSlot { object_id: 20, slot_idx: 15 });
    assert_eq!(coal_in(&loaded), start);
    pull_one_item(&mut loaded, 10, TransferSource::FurnaceOutput { object_id: 30 });
    assert_eq!(coal_in(&loaded), start);
    assert_eq!(loaded[0].furnaces[0].state.fuel, Slot { item: ITEM_COAL, count: 1 });
}

#[test]
fn pushes_feed_alembics_and_crucibles() {
    let mut a = chunk(0);
    a.inserters.push(inserter(10, [Slot { item: ITEM_IRON_ORE, count: 2 }, Slot { item: ITEM_FERRIC_ESSENCE, count: 1 }, empty(), empty()]));
    a.alembics.push(AlembicRecord { object_id: 30, state: AlembicState::default() });
    let mut crucible = CrucibleRecord { object_id: 40, state: CrucibleState::default() };
    crucible.state.inputs[0] = Slot { item: ITEM_CUPRIC_ESSENCE, count: 1 };
    a.crucibles.push(crucible);
    let mut loaded = vec![a];

    assert_eq!(push_one_item(&mut loaded, 10, 0, TransferTarget::AlembicInput { object_id: 30 }), vec![0]);
    assert_eq!(loaded[0].alembics[0].state.input, Slot { item: ITEM_IRON_ORE, count: 1 });
    assert_eq!(loaded[0].inserters[0].inv.slots[0], Slot { item: ITEM_IRON_ORE, count: 1 });

    assert_eq!(push_one_item(&mut loaded, 10, 1, TransferTarget::CrucibleInput { object_id: 40 }), vec![0]);
    assert_eq!(loaded[0].crucibles[0].state.inputs[0], Slot { item: ITEM_CUPRIC_ESSENCE, count: 1 });
    assert_eq!(loaded[0].crucibles[0].state.inputs[1], Slot { item: ITEM_FERRIC_ESSENCE, count: 1 });
    assert!(loaded[0].inserters[0].inv.slots[1].is_empty());

    // Ore is no essence: the crucible refuses it and it stays in the buffer.
    assert_eq!(push_one_item(&mut loaded, 10, 0, TransferTarget::CrucibleInput { object_id: 40 }), Vec::<usize>::new());
    assert_eq!(loaded[0].inserters[0].inv.slots[0], Slot { item: ITEM_IRON_ORE, count: 1 });
}

#[test]
fn pulls_empty_alembic_and_crucible_outputs() {
    let mut a = chunk(0);
    a.inserters.push(inserter(10, [empty(), empty(), empty(), empty()]));
    a.alembics.push(AlembicRecord {
        object_id: 30,
        state: AlembicState { input: empty(), output: Slot { item: ITEM_FERRIC_ESSENCE, count: 2 }, progress: 0 },
    });
    let mut crucible = CrucibleRecord { object_id: 40, state: CrucibleState::default() };
    crucible.state.output = Slot { item: ITEM_LODESTONE, count: 1 };
    a.crucibles.push(crucible);
    let mut loaded = vec![a];

    assert_eq!(pull_one_item(&mut loaded, 10, TransferSource::AlembicOutput { object_id: 30 }), vec![0]);
    assert_eq!(loaded[0].alembics[0].state.output, Slot { item: ITEM_FERRIC_ESSENCE, count: 1 });
    assert_eq!(loaded[0].inserters[0].inv.slots[0], Slot { item: ITEM_FERRIC_ESSENCE, count: 1 });

    assert_eq!(pull_one_item(&mut loaded, 10, TransferSource::CrucibleOutput { object_id: 40 }), vec![0]);
    assert!(loaded[0].crucibles[0].state.output.is_empty());
    assert_eq!(loaded[0].inserters[0].inv.slots[1], Slot { item: ITEM_LODESTONE, count: 1 });
    assert_eq!(find_holder(&loaded, MachineKind::Crucible, 40), Some(0));
    assert_eq!(find_holder(&loaded, MachineKind::Alembic, 40), None);
}
