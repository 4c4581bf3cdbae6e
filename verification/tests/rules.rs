use foundry::containers::{AlembicState, CrucibleState, DrillRecord, DrillState, FurnaceState, InserterDirection, Slot};
use foundry::gameplay::object_id_for_tile;
use foundry::generation::WATER_TILE;
use foundry::inventory::{
    Inventory, ITEM_ALEMBIC, ITEM_BRASS_CORE, ITEM_CHEST, ITEM_COAL, ITEM_COPPER_ORE, ITEM_CRUCIBLE,
    ITEM_CUPRIC_ESSENCE, ITEM_FERRIC_ESSENCE, ITEM_FURNACE, ITEM_INSERTER, ITEM_IRON_ORE, ITEM_IRON_PLATE,
    ITEM_LODESTONE, ITEM_MINERAL_ESSENCE, ITEM_MINING_DRILL, ITEM_QUINTESSENCE, ITEM_STONE, ITEM_UMBRAL_ESSENCE,
};
use foundry::rules::{
    advance_mining_drill, can_place_in_chunk, collect_structure_pickup_items, drill_tiles_in_chunk,
    distil_alembic, mine_tile_in_chunk, pick_up_structure, pickup_target_in_chunk, place_in_chunk, push_slot_pickup,
    smelt_furnace, transmute_crucible, MineAttempt,
};
use foundry::world::{
    ChunkCoord, PlacedCell, ResourceCell, SimChunkData, CHUNK_TILE_COUNT, PLACED_ALEMBIC, PLACED_CHEST, PLACED_CRUCIBLE,
    PLACED_FURNACE, PLACED_INSERTER, PLACED_MINING_DRILL, PLACED_NONE, RES_COAL, RES_IRON, RES_NONE, RES_STONE,
};

fn empty_chunk(cx: i32, cy: i32) -> SimChunkData {
    SimChunkData {
        coord: ChunkCoord::new(cx, cy),
        layer: 0,
        tiles: vec![0; CHUNK_TILE_COUNT],
        resources: vec![ResourceCell { kind: RES_NONE, amount: 0 }; CHUNK_TILE_COUNT],
        placed: vec![PlacedCell { kind: PLACED_NONE, object_id: 0 }; CHUNK_TILE_COUNT],
        chests: Vec::new(),
        furnaces: Vec::new(),
        inserters: Vec::new(),
        drills: Vec::new(),
        alembics: Vec::new(),
        crucibles: Vec::new(),
        entities: Vec::new(),
        saved_tick: 0,
    }
}

fn furnace(input: Slot, fuel: Slot, output: Slot, progress: u16) -> FurnaceState {
    FurnaceState { input, fuel, output, progress }
}

#[test]
fn furnace_smelts_one_plate_per_thousand_progress() {
    let mut f = furnace(Slot { item: ITEM_IRON_ORE, count: 5 }, Slot { item: ITEM_COAL, count: 5 }, Slot::default(), 0);
    assert!(smelt_furnace(&mut f, 2500));
    assert_eq!(f.input, Slot { item: ITEM_IRON_ORE, count: 3 });
    assert_eq!(f.fuel, Slot { item: ITEM_COAL, count: 3 });
    assert_eq!(f.output, Slot { item: ITEM_IRON_PLATE, count: 2 });
    assert_eq!(f.progress, 500);
}

#[test]
fn furnace_stops_when_fuel_runs_out() {
    let mut f = furnace(Slot { item: ITEM_IRON_ORE, count: 5 }, Slot { item: ITEM_COAL, count: 1 }, Slot::default(), 0);
    assert!(smelt_furnace(&mut f, 3400));
    assert_eq!(f.input.count, 4);
    assert!(f.fuel.is_empty());
    assert_eq!(f.output, Slot { item: ITEM_IRON_PLATE, count: 1 });
    assert_eq!(f.progress, 0);
}

#[test]
fn furnace_keeps_at_most_one_item_of_progress() {
    let mut f = furnace(Slot { item: ITEM_IRON_ORE, count: 1 }, Slot { item: ITEM_COAL, count: 9 }, Slot::default(), 0);
    assert!(!smelt_furnace(&mut f, 999));
    assert_eq!(f.progress, 999);
    let mut g = furnace(Slot { item: ITEM_IRON_ORE, count: 9 }, Slot { item: ITEM_COAL, count: 9 }, Slot::default(), 0);
    assert!(smelt_furnace(&mut g, 1000));
    assert_eq!(g.progress, 0);
}

#[test]
fn furnace_without_work_loses_progress() {
    let mut f = furnace(Slot { item: ITEM_COAL, count: 5 }, Slot { item: ITEM_COAL, count: 5 }, Slot::default(), 700);
    assert!(!smelt_furnace(&mut f, 5000));
    assert_eq!(f.progress, 0);
    assert_eq!(f.input.count, 5);
    let mut g = furnace(
        Slot { item: ITEM_IRON_ORE, count: 5 },
        Slot { item: ITEM_COAL, count: 5 },
        Slot { item: ITEM_STONE, count: 1 },
        300,
    );
    assert!(!smelt_furnace(&mut g, 5000));
    assert_eq!(g.progress, 0);
    assert_eq!(g.output, Slot { item: ITEM_STONE, count: 1 });
}

#[test]
fn drill_mines_its_deposit() {
    let mut data = empty_chunk(0, 0);
    data.resources[40] = ResourceCell { kind: RES_COAL, amount: 2 };
    data.placed[40] = PlacedCell { kind: PLACED_MINING_DRILL, object_id: 77 };
    data.drills.push(DrillRecord {
        object_id: 77,
        state: DrillState { fuel: Slot { item: ITEM_COAL, count: 10 }, output: Slot::default(), progress: 0 },
    });
    assert_eq!(drill_tiles_in_chunk(&data), vec![(40, 0)]);
    assert!(advance_mining_drill(&mut data, 40, 0, 5200));
    assert_eq!(data.resources[40], ResourceCell { kind: RES_NONE, amount: 0 });
    assert_eq!(data.drills[0].state.output, Slot { item: ITEM_COAL, count: 2 });
    assert_eq!(data.drills[0].state.fuel.count, 8);
    assert_eq!(data.drills[0].state.progress, 0);
    assert!(!advance_mining_drill(&mut data, 40, 0, 5200));
    assert!(!advance_mining_drill(&mut data, 4000, 0, 5200));
}

#[test]
fn drill_tiles_skip_drills_without_records() {
    let mut data = empty_chunk(0, 0);
    data.placed[3] = PlacedCell { kind: PLACED_MINING_DRILL, object_id: 5 };
    data.placed[9] = PlacedCell { kind: PLACED_MINING_DRILL, object_id: 0 };
    assert!(drill_tiles_in_chunk(&data).is_empty());
}

#[test]
fn mining_by_hand_takes_one_ore() {
    let mut data = empty_chunk(0, 0);
    data.resources[2 * 32 + 1] = ResourceCell { kind: RES_IRON, amount: 2 };
    let mut inv = Inventory::default();
    assert_eq!(mine_tile_in_chunk(&mut data, &mut inv, 1, 2), MineAttempt::Mined);
    assert_eq!(inv.count(ITEM_IRON_ORE), 1);
    assert_eq!(data.resources[65].amount, 1);
    assert!(mine_tile_in_chunk(&mut data, &mut inv, 1, 2).is_mined());
    assert_eq!(data.resources[65], ResourceCell { kind: RES_NONE, amount: 0 });
    assert_eq!(mine_tile_in_chunk(&mut data, &mut inv, 1, 2), MineAttempt::Empty);
    assert_eq!(inv.count(ITEM_IRON_ORE), 2);
}

#[test]
fn placing_a_chest_creates_its_record() {
    let mut data = empty_chunk(-1, 0);
    let mut inv = Inventory::default();
    inv.add(ITEM_CHEST, 1);
    assert!(can_place_in_chunk(&data, &inv, ITEM_CHEST, -30, 4, 9));
    assert!(place_in_chunk(&mut data, &mut inv, ITEM_CHEST, InserterDirection::Up, -30, 4, 9));
    let id = object_id_for_tile(9, -30, 4, PLACED_CHEST);
    assert_eq!(data.placed[4 * 32 + 2], PlacedCell { kind: PLACED_CHEST, object_id: id });
    assert_eq!(data.chests.len(), 1);
    assert_eq!(data.chests[0].object_id, id);
    assert_eq!(inv.count(ITEM_CHEST), 0);
    assert!(!can_place_in_chunk(&data, &inv, ITEM_CHEST, -30, 4, 9));
}

#[test]
fn placement_rules_refuse_water_occupied_and_bare_drills() {
    let mut data = empty_chunk(0, 0);
    data.tiles[0] = WATER_TILE;
    let mut inv = Inventory::default();
    inv.add(ITEM_FURNACE, 3);
    inv.add(ITEM_MINING_DRILL, 1);
    inv.add(ITEM_STONE, 1);
    assert!(!place_in_chunk(&mut data, &mut inv, ITEM_FURNACE, InserterDirection::Up, 0, 0, 1));
    assert!(!place_in_chunk(&mut data, &mut inv, ITEM_STONE, InserterDirection::Up, 1, 0, 1));
    assert!(!place_in_chunk(&mut data, &mut inv, ITEM_MINING_DRILL, InserterDirection::Up, 1, 0, 1));
    assert!(!place_in_chunk(&mut data, &mut inv, ITEM_INSERTER, InserterDirection::Up, 1, 0, 1));
    data.resources[1] = ResourceCell { kind: RES_STONE, amount: 4 };
    assert!(place_in_chunk(&mut data, &mut inv, ITEM_MINING_DRILL, InserterDirection::Up, 1, 0, 1));
    assert_eq!(data.drills.len(), 1);
    assert!(!place_in_chunk(&mut data, &mut inv, ITEM_FURNACE, InserterDirection::Up, 1, 0, 1));
    assert_eq!(inv.count(ITEM_FURNACE), 3);
}

#[test]
fn placed_inserter_faces_the_chosen_way() {
    let mut data = empty_chunk(0, 0);
    let mut inv = Inventory::default();
    inv.add(ITEM_INSERTER, 1);
    assert!(place_in_chunk(&mut data, &mut inv, ITEM_INSERTER, InserterDirection::Left, 5, 5, 1));
    assert_eq!(data.inserters[0].direction, InserterDirection::Left);
    assert_eq!(data.placed[5 * 32 + 5].kind, PLACED_INSERTER);
}

#[test]
fn picking_up_a_furnace_returns_it_and_its_contents() {
    let mut data = empty_chunk(0, 0);
    let mut inv = Inventory::default();
    inv.add(ITEM_FURNACE, 1);
    assert!(place_in_chunk(&mut data, &mut inv, ITEM_FURNACE, InserterDirection::Up, 3, 4, 1));
    data.furnaces[0].state.input = Slot { item: ITEM_COPPER_ORE, count: 6 };
    let id = data.furnaces[0].object_id;
    let target = pickup_target_in_chunk(&data, 3, 4).unwrap();
    assert_eq!(target, PlacedCell { kind: PLACED_FURNACE, object_id: id });
    assert!(!pick_up_structure(&mut data, &mut inv, 3, 4, PLACED_FURNACE, id + 1));
    assert!(pick_up_structure(&mut data, &mut inv, 3, 4, PLACED_FURNACE, id));
    assert_eq!(inv.count(ITEM_FURNACE), 1);
    assert_eq!(inv.count(ITEM_COPPER_ORE), 6);
    assert!(data.furnaces.is_empty());
    assert_eq!(data.placed[4 * 32 + 3], PlacedCell { kind: PLACED_NONE, object_id: 0 });
    assert_eq!(pickup_target_in_chunk(&data, 3, 4), None);
}

#[test]
fn collecting_a_chest_lists_its_stacks() {
    let mut data = empty_chunk(0, 0);
    let mut inv = Inventory::default();
    inv.add(ITEM_CHEST, 1);
    assert!(place_in_chunk(&mut data, &mut inv, ITEM_CHEST, InserterDirection::Up, 0, 0, 1));
    data.chests[0].inv.slots[2] = Slot { item: ITEM_STONE, count: 30 };
    data.chests[0].inv.slots[5] = Slot { item: ITEM_COAL, count: 4 };
    let id = data.chests[0].object_id;
    let pickups = collect_structure_pickup_items(&mut data, PLACED_CHEST, id);
    assert_eq!(pickups, vec![(ITEM_CHEST, 1), (ITEM_STONE, 30), (ITEM_COAL, 4)]);
    assert!(data.chests.is_empty());
}

#[test]
fn empty_slots_are_not_picked_up() {
    let mut pickups = vec![];
    push_slot_pickup(&mut pickups, Slot::default());
    push_slot_pickup(&mut pickups, Slot { item: ITEM_STONE, count: 0 });
    push_slot_pickup(&mut pickups, Slot { item: ITEM_STONE, count: 2 });
    assert_eq!(pickups, vec![(ITEM_STONE, 2)]);
}

#[test]
fn alembics_and_crucibles_get_records_and_give_back_their_contents() {
    let mut data = empty_chunk(0, 0);
    let mut inv = Inventory::default();
    inv.add(ITEM_ALEMBIC, 1);
    inv.add(ITEM_CRUCIBLE, 1);
    assert!(place_in_chunk(&mut data, &mut inv, ITEM_ALEMBIC, InserterDirection::Up, 2, 2, 5));
    assert!(place_in_chunk(&mut data, &mut inv, ITEM_CRUCIBLE, InserterDirection::Up, 3, 2, 5));
    let alembic_id = object_id_for_tile(5, 2, 2, PLACED_ALEMBIC);
    let crucible_id = object_id_for_tile(5, 3, 2, PLACED_CRUCIBLE);
    assert_eq!(data.alembics.len(), 1);
    assert_eq!(data.alembics[0].object_id, alembic_id);
    assert!(data.alembics[0].state.input.is_empty() && data.alembics[0].state.output.is_empty());
    assert_eq!(data.crucibles.len(), 1);
    assert_eq!(data.crucibles[0].object_id, crucible_id);

    data.alembics[0].state.input = Slot { item: ITEM_IRON_ORE, count: 3 };
    data.crucibles[0].state.inputs[2] = Slot { item: ITEM_CUPRIC_ESSENCE, count: 2 };
    data.crucibles[0].state.output = Slot { item: ITEM_LODESTONE, count: 1 };
    assert!(pick_up_structure(&mut data, &mut inv, 2, 2, PLACED_ALEMBIC, alembic_id));
    assert!(pick_up_structure(&mut data, &mut inv, 3, 2, PLACED_CRUCIBLE, crucible_id));
    assert!(data.alembics.is_empty() && data.crucibles.is_empty());
    assert_eq!(inv.count(ITEM_ALEMBIC), 1);
    assert_eq!(inv.count(ITEM_CRUCIBLE), 1);
    assert_eq!(inv.count(ITEM_IRON_ORE), 3);
    assert_eq!(inv.count(ITEM_CUPRIC_ESSENCE), 2);
    assert_eq!(inv.count(ITEM_LODESTONE), 1);
}

#[test]
fn alembic_distils_reagents_into_essences() {
    let mut a = AlembicState { input: Slot { item: ITEM_COPPER_ORE, count: 3 }, output: Slot::default(), progress: 0 };
    assert!(distil_alembic(&mut a, 2300));
    assert_eq!(a.input, Slot { item: ITEM_COPPER_ORE, count: 1 });
    assert_eq!(a.output, Slot { item: ITEM_CUPRIC_ESSENCE, count: 2 });
    assert_eq!(a.progress, 300);
    assert!(distil_alembic(&mut a, 5000));
    assert!(a.input.is_empty());
    assert_eq!(a.output.count, 3);
    assert_eq!(a.progress, 0);

    let mut plate = AlembicState { input: Slot { item: ITEM_IRON_PLATE, count: 3 }, output: Slot::default(), progress: 40 };
    assert!(!distil_alembic(&mut plate, 9000));
    assert_eq!(plate.input.count, 3);
    assert_eq!(plate.progress, 0);

    let mut blocked = AlembicState {
        input: Slot { item: ITEM_STONE, count: 1 },
        output: Slot { item: ITEM_FERRIC_ESSENCE, count: 1 },
        progress: 0,
    };
    assert!(!distil_alembic(&mut blocked, 9000));
    let mut stone = AlembicState { input: Slot { item: ITEM_STONE, count: 1 }, output: Slot::default(), progress: 0 };
    assert!(distil_alembic(&mut stone, 1000));
    assert_eq!(stone.output, Slot { item: ITEM_MINERAL_ESSENCE, count: 1 });
}

#[test]
fn crucible_transmutes_essences_by_the_first_formula() {
    let mut c = CrucibleState::default();
    c.inputs[0] = Slot { item: ITEM_FERRIC_ESSENCE, count: 2 };
    c.inputs[1] = Slot { item: ITEM_CUPRIC_ESSENCE, count: 1 };
    c.inputs[2] = Slot { item: ITEM_UMBRAL_ESSENCE, count: 1 };
    c.inputs[3] = Slot { item: ITEM_MINERAL_ESSENCE, count: 1 };
    assert!(transmute_crucible(&mut c, 1500));
    assert_eq!(c.output, Slot { item: ITEM_QUINTESSENCE, count: 1 });
    assert_eq!(c.inputs[0], Slot { item: ITEM_FERRIC_ESSENCE, count: 1 });
    assert!(c.inputs[1].is_empty() && c.inputs[2].is_empty() && c.inputs[3].is_empty());
    // The ferric essence left makes up no formula: the progress is dropped.
    assert_eq!(c.progress, 0);

    let mut d = CrucibleState::default();
    d.inputs[0] = Slot { item: ITEM_CUPRIC_ESSENCE, count: 3 };
    d.inputs[3] = Slot { item: ITEM_FERRIC_ESSENCE, count: 2 };
    assert!(transmute_crucible(&mut d, 5000));
    assert_eq!(d.output, Slot { item: ITEM_BRASS_CORE, count: 2 });
    assert_eq!(d.inputs[0], Slot { item: ITEM_CUPRIC_ESSENCE, count: 1 });
    assert!(d.inputs[3].is_empty());

    let mut blocked = CrucibleState::default();
    blocked.inputs[0] = Slot { item: ITEM_FERRIC_ESSENCE, count: 1 };
    blocked.inputs[1] = Slot { item: ITEM_MINERAL_ESSENCE, count: 1 };
    blocked.output = Slot { item: ITEM_BRASS_CORE, count: 1 };
    blocked.progress = 77;
    assert!(!transmute_crucible(&mut blocked, 4000));
    assert_eq!(blocked.inputs[0].count, 1);
    assert_eq!(blocked.progress, 0);

    let mut slow = CrucibleState::default();
    slow.inputs[0] = Slot { item: ITEM_FERRIC_ESSENCE, count: 1 };
    slow.inputs[1] = Slot { item: ITEM_MINERAL_ESSENCE, count: 1 };
    assert!(!transmute_crucible(&mut slow, 600));
    assert_eq!(slow.progress, 600);
    assert!(transmute_crucible(&mut slow, 1000));
    assert_eq!(slow.output, Slot { item: ITEM_LODESTONE, count: 1 });
}
