use foundry::containers::{
    AlembicRecord, AlembicState, ChestRecord, ContainerInv, CrucibleRecord, CrucibleState, DrillRecord, DrillState,
    FurnaceRecord, FurnaceState, InserterDirection, InserterInv, InserterRecord, Slot,
};
use foundry::inventory::{
    ITEM_COAL, ITEM_CUPRIC_ESSENCE, ITEM_FERRIC_ESSENCE, ITEM_IRON_ORE, ITEM_IRON_PLATE, ITEM_LODESTONE, ITEM_STONE,
};
use foundry::transfer::{
    best_pull_source, best_target_for_item, endpoint_in_chunk, inserter_can_accept, inserter_tiles_in_chunk,
    inserter_work_order, push_plan, slot_can_accept, target_can_accept, InserterTile, LoadedMachines,
    TransferEndpoint, TransferSource, TransferTarget,
};
use foundry::world::{
    ChunkCoord, PlacedCell, ResourceCell, SimChunkData, CHUNK_TILE_COUNT, PLACED_ALEMBIC, PLACED_CHEST, PLACED_CRUCIBLE,
    PLACED_INSERTER, PLACED_NONE, RES_NONE,
};

fn machines() -> LoadedMachines {
    LoadedMachines {
        chests: vec![ChestRecord { object_id: 1, inv: ContainerInv::default() }],
        furnaces: vec![FurnaceRecord { object_id: 2, state: FurnaceState::default() }],
        drills: vec![DrillRecord { object_id: 3, state: DrillState::default() }],
        alembics: vec![AlembicRecord { object_id: 5, state: AlembicState::default() }],
        crucibles: vec![CrucibleRecord { object_id: 6, state: CrucibleState::default() }],
        inserters: vec![InserterRecord {
            object_id: 4,
            direction: InserterDirection::Right,
            inv: InserterInv::default(),
        }],
    }
}

const CHEST: TransferEndpoint = TransferEndpoint::Chest { object_id: 1 };
const FURNACE: TransferEndpoint = TransferEndpoint::Furnace { object_id: 2 };
const DRILL: TransferEndpoint = TransferEndpoint::Drill { object_id: 3 };
const ALEMBIC: TransferEndpoint = TransferEndpoint::Alembic { object_id: 5 };
const CRUCIBLE: TransferEndpoint = TransferEndpoint::Crucible { object_id: 6 };

#[test]
fn coal_feeds_furnaces_then_drills_then_chests() {
    let mut m = machines();
    let all = [CHEST, DRILL, FURNACE];
    assert_eq!(best_target_for_item(&m, &all, ITEM_COAL, None), Some(TransferTarget::FurnaceFuel { object_id: 2 }));
    m.furnaces[0].state.fuel = Slot { item: ITEM_COAL, count: 4 };
    assert_eq!(best_target_for_item(&m, &all, ITEM_COAL, None), Some(TransferTarget::DrillFuel { object_id: 3 }));
    assert_eq!(best_target_for_item(&m, &all, ITEM_COAL, Some(DRILL)), Some(TransferTarget::Chest { object_id: 1 }));
}

#[test]
fn ore_goes_to_furnace_input_and_stone_to_chests() {
    let m = machines();
    let all = [CHEST, FURNACE];
    assert_eq!(best_target_for_item(&m, &all, ITEM_IRON_ORE, None), Some(TransferTarget::FurnaceInput { object_id: 2 }));
    assert_eq!(best_target_for_item(&m, &all, ITEM_STONE, None), Some(TransferTarget::Chest { object_id: 1 }));
    assert_eq!(best_target_for_item(&m, &[FURNACE], ITEM_STONE, None), None);
}

#[test]
fn targets_check_their_slots() {
    let mut m = machines();
    assert!(target_can_accept(&m, TransferTarget::Chest { object_id: 1 }, ITEM_STONE));
    assert!(!target_can_accept(&m, TransferTarget::Chest { object_id: 9 }, ITEM_STONE));
    assert!(!target_can_accept(&m, TransferTarget::FurnaceFuel { object_id: 2 }, ITEM_STONE));
    m.furnaces[0].state.input = Slot { item: ITEM_IRON_ORE, count: 1 };
    assert!(!target_can_accept(&m, TransferTarget::FurnaceInput { object_id: 2 }, 2));
    assert!(slot_can_accept(Slot::default(), ITEM_STONE));
    assert!(!slot_can_accept(Slot::default(), 0));
}

#[test]
fn inserters_pull_outputs_for_the_target() {
    let mut m = machines();
    m.furnaces[0].state.output = Slot { item: ITEM_IRON_PLATE, count: 2 };
    assert!(inserter_can_accept(&m, 4, ITEM_IRON_PLATE));
    assert_eq!(best_pull_source(&m, 4, FURNACE, CHEST), Some(TransferSource::FurnaceOutput { object_id: 2 }));
    assert_eq!(best_pull_source(&m, 4, FURNACE, FURNACE), None);
    assert_eq!(best_pull_source(&m, 99, FURNACE, CHEST), None);
}

#[test]
fn chest_pulls_prefer_coal_then_smeltables() {
    let mut m = machines();
    m.chests[0].inv.slots[0] = Slot { item: ITEM_STONE, count: 5 };
    m.chests[0].inv.slots[1] = Slot { item: ITEM_IRON_ORE, count: 5 };
    m.chests[0].inv.slots[2] = Slot { item: ITEM_COAL, count: 5 };
    assert_eq!(best_pull_source(&m, 4, CHEST, FURNACE), Some(TransferSource::ChestSlot { object_id: 1, slot_idx: 2 }));
    m.chests[0].inv.slots[2] = Slot::default();
    assert_eq!(best_pull_source(&m, 4, CHEST, FURNACE), Some(TransferSource::ChestSlot { object_id: 1, slot_idx: 1 }));
}

#[test]
fn pushes_use_the_first_filled_slot() {
    let mut m = machines();
    assert_eq!(push_plan(&m, 4, Some(CHEST)), None);
    m.inserters[0].inv.slots[1] = Slot { item: ITEM_COAL, count: 1 };
    m.inserters[0].inv.slots[3] = Slot { item: ITEM_STONE, count: 1 };
    assert_eq!(push_plan(&m, 4, Some(FURNACE)), Some((1, TransferTarget::FurnaceFuel { object_id: 2 })));
    assert_eq!(push_plan(&m, 4, None), None);
}

#[test]
fn chunks_report_their_machines_and_inserters() {
    let mut data = SimChunkData {
        coord: ChunkCoord::new(1, -1),
        layer: 0,
        tiles: vec![0; CHUNK_TILE_COUNT],
        resources: vec![ResourceCell { kind: RES_NONE, amount: 0 }; CHUNK_TILE_COUNT],
        placed: vec![PlacedCell { kind: PLACED_NONE, object_id: 0 }; CHUNK_TILE_COUNT],
        chests: vec![],
        furnaces: vec![],
        inserters: vec![InserterRecord { object_id: 8, direction: InserterDirection::Up, inv: InserterInv::default() }],
        drills: vec![],
        alembics: vec![],
        crucibles: vec![],
        entities: vec![],
        saved_tick: 0,
    };
    data.placed[33] = PlacedCell { kind: PLACED_CHEST, object_id: 5 };
    data.placed[34] = PlacedCell { kind: PLACED_INSERTER, object_id: 8 };
    assert_eq!(endpoint_in_chunk(&data, 1, 1), Some(TransferEndpoint::Chest { object_id: 5 }));
    assert_eq!(endpoint_in_chunk(&data, 2, 1), None);
    let tiles = inserter_tiles_in_chunk(&data);
    assert_eq!(tiles.len(), 1);
    assert_eq!((tiles[0].tile_x, tiles[0].tile_y, tiles[0].object_id), (34, -31, 8));
    assert_eq!(tiles[0].direction, InserterDirection::Up);
}

#[test]
fn alembic_and_crucible_tiles_are_endpoints() {
    let mut data = SimChunkData {
        coord: ChunkCoord::new(0, 0),
        layer: 0,
        tiles: vec![0; CHUNK_TILE_COUNT],
        resources: vec![ResourceCell { kind: RES_NONE, amount: 0 }; CHUNK_TILE_COUNT],
        placed: vec![PlacedCell { kind: PLACED_NONE, object_id: 0 }; CHUNK_TILE_COUNT],
        chests: vec![],
        furnaces: vec![],
        inserters: vec![],
        drills: vec![],
        alembics: vec![],
        crucibles: vec![],
        entities: vec![],
        saved_tick: 0,
    };
    data.placed[5] = PlacedCell { kind: PLACED_ALEMBIC, object_id: 5 };
    data.placed[6] = PlacedCell { kind: PLACED_CRUCIBLE, object_id: 6 };
    data.placed[7] = PlacedCell { kind: PLACED_CRUCIBLE, object_id: 0 };
    assert_eq!(endpoint_in_chunk(&data, 5, 0), Some(ALEMBIC));
    assert_eq!(endpoint_in_chunk(&data, 6, 0), Some(CRUCIBLE));
    assert_eq!(endpoint_in_chunk(&data, 7, 0), None);
}

#[test]
fn reagents_go_to_alembics_and_essences_to_crucibles() {
    let mut m = machines();
    let all = [CHEST, ALEMBIC, CRUCIBLE];
    assert_eq!(best_target_for_item(&m, &all, ITEM_IRON_ORE, None), Some(TransferTarget::AlembicInput { object_id: 5 }));
    assert_eq!(
        best_target_for_item(&m, &all, ITEM_FERRIC_ESSENCE, None),
        Some(TransferTarget::CrucibleInput { object_id: 6 })
    );
    assert_eq!(best_target_for_item(&m, &all, ITEM_LODESTONE, None), Some(TransferTarget::Chest { object_id: 1 }));
    assert_eq!(best_target_for_item(&m, &[ALEMBIC, CRUCIBLE], ITEM_IRON_PLATE, None), None);
    assert_eq!(
        best_target_for_item(&m, &[ALEMBIC, CRUCIBLE], ITEM_STONE, None),
        Some(TransferTarget::AlembicInput { object_id: 5 })
    );
    // A furnace still takes ore before an alembic does.
    assert_eq!(
        best_target_for_item(&m, &[ALEMBIC, FURNACE], ITEM_IRON_ORE, None),
        Some(TransferTarget::FurnaceInput { object_id: 2 })
    );
    m.alembics[0].state.input = Slot { item: ITEM_COAL, count: 1 };
    assert!(!target_can_accept(&m, TransferTarget::AlembicInput { object_id: 5 }, ITEM_IRON_ORE));
    for k in 0..4 {
        m.crucibles[0].state.inputs[k] = Slot { item: ITEM_CUPRIC_ESSENCE, count: 1 };
    }
    assert!(!target_can_accept(&m, TransferTarget::CrucibleInput { object_id: 6 }, ITEM_FERRIC_ESSENCE));
    assert!(target_can_accept(&m, TransferTarget::CrucibleInput { object_id: 6 }, ITEM_CUPRIC_ESSENCE));
}

#[test]
fn inserters_pull_alembic_and_crucible_outputs() {
    let mut m = machines();
    assert_eq!(best_pull_source(&m, 4, ALEMBIC, CHEST), None);
    m.alembics[0].state.output = Slot { item: ITEM_FERRIC_ESSENCE, count: 1 };
    m.crucibles[0].state.output = Slot { item: ITEM_LODESTONE, count: 2 };
    assert_eq!(best_pull_source(&m, 4, ALEMBIC, CHEST), Some(TransferSource::AlembicOutput { object_id: 5 }));
    assert_eq!(best_pull_source(&m, 4, ALEMBIC, CRUCIBLE), Some(TransferSource::AlembicOutput { object_id: 5 }));
    assert_eq!(best_pull_source(&m, 4, CRUCIBLE, CHEST), Some(TransferSource::CrucibleOutput { object_id: 6 }));
    assert_eq!(best_pull_source(&m, 4, CRUCIBLE, ALEMBIC), None);
}

#[test]
fn inserters_work_row_by_row_then_left_to_right() {
    let t = |x: i32, y: i32, id: u64| InserterTile { tile_x: x, tile_y: y, object_id: id, direction: InserterDirection::Up };
    let tiles = [t(5, 2, 1), t(-3, 2, 2), t(9, -1, 3), t(5, 2, 4), t(0, 0, 5)];
    let order = inserter_work_order(&tiles);
    let ids: Vec<u64> = order.iter().map(|&i| tiles[i].object_id).collect();
    assert_eq!(ids, vec![3, 5, 2, 1, 4]);
    assert!(inserter_work_order(&[]).is_empty());
}
