use foundry::codec::{ChunkCodec, ChunkCodecV1};
use foundry::containers::{
    ChestRecord, ContainerInv, DrillRecord, DrillState, FurnaceRecord, FurnaceSlot, FurnaceState, InserterDirection,
    InserterInv, InserterRecord, Slot,
};
use foundry::errors::StorageError;
use foundry::inventory::{ITEM_COAL, ITEM_IRON_ORE, ITEM_STONE};
use foundry::world::{
    ChunkCoord, Entity, PlacedCell, ResourceCell, SimChunkData, SimChunkView, CHUNK_TILE_COUNT, PLACED_CHEST,
    PLACED_INSERTER, PLACED_NONE, RES_IRON, RES_NONE,
};

fn sample_chunk() -> SimChunkData {
    let mut tiles = vec![0; CHUNK_TILE_COUNT];
    tiles[3] = 5;

    let mut resources = vec![ResourceCell { kind: RES_NONE, amount: 0 }; CHUNK_TILE_COUNT];
    resources[4] = ResourceCell { kind: RES_IRON, amount: 12 };

    let mut placed = vec![PlacedCell { kind: PLACED_NONE, object_id: 0 }; CHUNK_TILE_COUNT];
    placed[5] = PlacedCell { kind: PLACED_CHEST, object_id: 99 };
    placed[6] = PlacedCell { kind: PLACED_INSERTER, object_id: 101 };

    let mut chest_inv = ContainerInv::default();
    chest_inv.slots[0] = Slot { item: ITEM_STONE, count: 20 };

    SimChunkData {
        coord: ChunkCoord::new(-2, 3),
        layer: 1,
        tiles,
        resources,
        placed,
        chests: vec![ChestRecord { object_id: 99, inv: chest_inv }],
        furnaces: vec![FurnaceRecord {
            object_id: 100,
            state: FurnaceState {
                input: Slot { item: ITEM_IRON_ORE, count: 2 },
                fuel: Slot { item: ITEM_COAL, count: 1 },
                output: Slot::default(),
                progress: 42,
            },
        }],
        inserters: vec![InserterRecord {
            object_id: 101,
            direction: InserterDirection::Down,
            inv: InserterInv {
                slots: [Slot { item: ITEM_STONE, count: 1 }, Slot::default(), Slot::default(), Slot::default()],
            },
        }],
        drills: vec![],
        alembics: vec![],
        crucibles: vec![],
        entities: vec![Entity { id: 7, kind: 2, x: 12, y: 20 }],
        saved_tick: 0,
    }
}

#[test]
fn round_trips_v6_chunk_payload() {
    let codec = ChunkCodecV1::default();
    let chunk = sample_chunk();

    let encoded = codec.encode(&SimChunkView::from_data(&chunk), 123).unwrap();
    let decoded = codec.decode(&encoded).unwrap();

    assert_eq!(decoded.coord, chunk.coord);
    assert_eq!(decoded.layer, chunk.layer);
    assert_eq!(decoded.tiles, chunk.tiles);
    assert_eq!(decoded.resources, chunk.resources);
    assert_eq!(decoded.placed, chunk.placed);
    assert_eq!(decoded.chests, chunk.chests);
    assert_eq!(decoded.furnaces, chunk.furnaces);
    assert_eq!(decoded.inserters, chunk.inserters);
    assert_eq!(decoded.entities, chunk.entities);
    assert_eq!(decoded.saved_tick, 123);
}

#[test]
fn rejects_truncated_payload() {
    let codec = ChunkCodecV1::default();
    let chunk = sample_chunk();
    let mut encoded = codec.encode(&SimChunkView::from_data(&chunk), 123).unwrap();
    encoded.pop();

    let error = codec.decode(&encoded).unwrap_err();

    assert!(matches!(error, StorageError::DecodeFailed(_)));
}

#[test]
fn rejects_wrong_schema_version() {
    let encoded = ChunkCodecV1::new(1).encode(&SimChunkView::from_data(&sample_chunk()), 123).unwrap();

    let error = ChunkCodecV1::new(2).decode(&encoded).unwrap_err();

    assert!(matches!(error, StorageError::VersionMismatch { expected: 2, found: 1 }));
}

#[test]
fn rejects_invalid_chunk_lengths_on_encode() {
    let codec = ChunkCodecV1::default();
    let mut chunk = sample_chunk();
    chunk.tiles.pop();

    let error = codec.encode(&SimChunkView::from_data(&chunk), 123).unwrap_err();

    assert!(matches!(error, StorageError::Other(_)));
}

#[test]
fn furnace_slot_type_remains_exhaustive_for_codec_records() {
    let slots = [FurnaceSlot::Input, FurnaceSlot::Fuel, FurnaceSlot::Output];

    assert_eq!(slots.len(), 3);
}

fn error_text(e: &StorageError) -> String {
    e.describe()
}

#[test]
fn round_trips_drills_and_keeps_header_layout() {
    let codec = ChunkCodecV1::new(4);
    let mut chunk = sample_chunk();
    chunk.drills.push(DrillRecord {
        object_id: 555,
        state: DrillState { fuel: Slot { item: ITEM_COAL, count: 3 }, output: Slot::default(), progress: 7 },
    });
    let encoded = codec.encode(&SimChunkView::from_data(&chunk), 9).unwrap();
    assert_eq!(&encoded[0..4], b"CHNK");
    assert_eq!(u16::from_le_bytes([encoded[4], encoded[5]]), 7);
    assert_eq!(u16::from_le_bytes([encoded[6], encoded[7]]), 4);
    assert_eq!(i32::from_le_bytes([encoded[10], encoded[11], encoded[12], encoded[13]]), -2);
    assert_eq!(encoded[18], 1);
    let payload_len = u32::from_le_bytes([encoded[27], encoded[28], encoded[29], encoded[30]]) as usize;
    assert_eq!(encoded.len(), 31 + payload_len);
    let decoded = codec.decode(&encoded).unwrap();
    assert_eq!(decoded, SimChunkData { saved_tick: 9, ..chunk });
}

#[test]
fn rejects_bad_magic_and_short_input() {
    let codec = ChunkCodecV1::default();
    let mut encoded = codec.encode(&SimChunkView::from_data(&sample_chunk()), 1).unwrap();
    encoded[0] = b'X';
    assert_eq!(error_text(&codec.decode(&encoded).unwrap_err()), "decode failed: chunk magic mismatch");
    let short = codec.decode(&[67, 72]).unwrap_err();
    assert!(matches!(short, StorageError::DecodeFailed(_)));
}

#[test]
fn rejects_unknown_format_version_and_flags() {
    let codec = ChunkCodecV1::default();
    let encoded = codec.encode(&SimChunkView::from_data(&sample_chunk()), 1).unwrap();
    let mut v = encoded.clone();
    v[4] = 8;
    assert_eq!(error_text(&codec.decode(&v).unwrap_err()), "decode failed: unsupported chunk format version 8");
    let mut f = encoded.clone();
    f[8] = 1;
    assert_eq!(error_text(&codec.decode(&f).unwrap_err()), "decode failed: unsupported chunk flags 1");
}

#[test]
fn rejects_trailing_payload_bytes() {
    let codec = ChunkCodecV1::default();
    let mut encoded = codec.encode(&SimChunkView::from_data(&sample_chunk()), 1).unwrap();
    encoded.push(0);
    let n = encoded.len() as u32 - 31;
    encoded[27..31].copy_from_slice(&n.to_le_bytes());
    assert_eq!(error_text(&codec.decode(&encoded).unwrap_err()), "decode failed: payload has trailing bytes");
}

#[test]
fn rejects_entity_outside_chunk() {
    let codec = ChunkCodecV1::default();
    let mut chunk = sample_chunk();
    chunk.entities[0].x = 32;
    let encoded = codec.encode(&SimChunkView::from_data(&chunk), 1).unwrap();
    assert_eq!(
        error_text(&codec.decode(&encoded).unwrap_err()),
        "decode failed: entity position out of chunk bounds"
    );
}

#[test]
fn rejects_unknown_inserter_direction() {
    let codec = ChunkCodecV1::default();
    let chunk = sample_chunk();
    let mut encoded = codec.encode(&SimChunkView::from_data(&chunk), 1).unwrap();
    // The single inserter record's direction byte follows its eight-byte id.
    let ins_count_at = encoded.len() - 4 - 33 - 4;
    assert_eq!(u32::from_le_bytes(encoded[ins_count_at..ins_count_at + 4].try_into().unwrap()), 1);
    encoded[ins_count_at + 4 + 8] = 9;
    assert!(matches!(codec.decode(&encoded).unwrap_err(), StorageError::DecodeFailed(_)));
}

#[test]
fn encode_names_the_short_vector() {
    let codec = ChunkCodecV1::default();
    let mut chunk = sample_chunk();
    chunk.resources.truncate(10);
    let error = codec.encode(&SimChunkView::from_data(&chunk), 1).unwrap_err();
    assert_eq!(error_text(&error), "storage error: resources length 10 does not match expected 1024");
}
