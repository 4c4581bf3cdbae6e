use foundry::codec::{ChunkCodec, ChunkCodecV1};
use foundry::controls::{StorageState, StorageStatus};
use foundry::save_queue::{
    append_chunk_save, drop_flushed, flush_batch, flush_due, queue_chunk_save, still_pending, upsert_chunk_save,
    upsert_map_snapshot_save,
};
use foundry::types::{ChunkKey, ChunkRecordWrite, MapChunkRecordWrite, WorldId};
use foundry::world::{ChunkCoord, PlacedCell, ResourceCell, SimChunkData, SimChunkView, CHUNK_TILE_COUNT, PLACED_NONE, RES_NONE};

fn key(world: &str, cx: i32) -> ChunkKey {
    ChunkKey::new(WorldId::new(world), ChunkCoord::new(cx, 0), 0)
}

fn record(world: &str, cx: i32, blob: Vec<u8>, at: u64) -> ChunkRecordWrite {
    ChunkRecordWrite { key: key(world, cx), blob, tick_saved: at, checksum: 0, updated_at_ms: at }
}

fn chunk() -> SimChunkData {
    SimChunkData {
        coord: ChunkCoord::new(2, -1),
        layer: 0,
        tiles: vec![1; CHUNK_TILE_COUNT],
        resources: vec![ResourceCell { kind: RES_NONE, amount: 0 }; CHUNK_TILE_COUNT],
        placed: vec![PlacedCell { kind: PLACED_NONE, object_id: 0 }; CHUNK_TILE_COUNT],
        chests: Vec::new(),
        furnaces: Vec::new(),
        inserters: Vec::new(),
        drills: Vec::new(),
        alembics: Vec::new(),
        crucibles: Vec::new(),
        entities: Vec::new(),
        saved_tick: 0,
    }
}

#[test]
fn a_chunk_waits_once_with_its_latest_bytes() {
    let mut pending = Vec::new();
    upsert_chunk_save(&mut pending, record("w", 0, vec![1], 10));
    upsert_chunk_save(&mut pending, record("w", 1, vec![2], 11));
    upsert_chunk_save(&mut pending, record("w", 0, vec![3, 3], 12));
    upsert_chunk_save(&mut pending, record("other", 0, vec![4], 13));

    assert_eq!(pending.len(), 3);
    assert_eq!(pending[0].key, key("w", 0));
    assert_eq!(pending[0].blob, vec![3, 3]);
    assert_eq!(pending[0].updated_at_ms, 12);
    assert_eq!(pending[1].blob, vec![2]);
    assert_eq!(pending[2].key, key("other", 0));
    assert!(still_pending(&pending, &key("w", 1)));
    assert!(!still_pending(&pending, &key("w", 5)));
}

#[test]
fn queuing_a_chunk_stores_its_encoding() {
    let codec = ChunkCodecV1::new(1);
    let data = chunk();
    let mut pending = Vec::new();
    let mut status = StorageStatus::default();
    status.mark_ok();

    assert!(queue_chunk_save(&mut pending, &mut status, &codec, &key("w", 2), &data, 40, 900));
    let expected = codec.encode(&SimChunkView::from_data(&data), 40).unwrap();
    assert_eq!(pending.len(), 1);
    assert_eq!(pending[0].blob, expected);
    assert_eq!(pending[0].tick_saved, 40);
    assert_eq!(pending[0].checksum, 0);
    assert_eq!(pending[0].updated_at_ms, 900);
    assert_eq!(status.state, StorageState::Healthy);
}

#[test]
fn a_chunk_that_cannot_be_encoded_is_not_queued() {
    let codec = ChunkCodecV1::new(1);
    let mut data = chunk();
    data.tiles.truncate(5);
    let mut pending = Vec::new();
    let mut status = StorageStatus::default();

    assert!(!queue_chunk_save(&mut pending, &mut status, &codec, &key("w", 2), &data, 40, 900));
    assert!(pending.is_empty());
    assert_eq!(status.state, StorageState::Degraded);
    assert_eq!(status.detail.as_deref(), Some("storage error: tiles length 5 does not match expected 1024"));
}

#[test]
fn flushes_take_the_front_of_the_queue() {
    assert!(flush_due(false, StorageState::Healthy, true, 3));
    assert!(!flush_due(true, StorageState::Healthy, true, 3));
    assert!(!flush_due(false, StorageState::Paused, true, 3));
    assert!(!flush_due(false, StorageState::Degraded, false, 3));
    assert!(!flush_due(false, StorageState::Degraded, true, 0));

    let mut pending = vec![record("w", 0, vec![1], 1), record("w", 1, vec![2], 2), record("w", 2, vec![3], 3)];
    let batch = flush_batch(&pending, 2);
    assert_eq!(batch, pending[..2].to_vec());
    assert_eq!(flush_batch(&pending, 10), pending);

    drop_flushed(&mut pending, 2);
    assert_eq!(pending, vec![record("w", 2, vec![3], 3)]);
    drop_flushed(&mut pending, 5);
    assert!(pending.is_empty());
}

#[test]
fn map_snapshots_wait_once_per_chunk() {
    let snap = |cx: i32, px: u8, at: u64| MapChunkRecordWrite {
        key: key("w", cx),
        rgba: vec![px; 4],
        resource_kinds: vec![0; 2],
        resource_amounts: vec![0; 2],
        updated_at_ms: at,
    };
    let mut pending = Vec::new();
    upsert_map_snapshot_save(&mut pending, snap(0, 1, 1));
    upsert_map_snapshot_save(&mut pending, snap(1, 2, 2));
    upsert_map_snapshot_save(&mut pending, snap(0, 9, 3));
    assert_eq!(pending.len(), 2);
    assert_eq!(pending[0].rgba, vec![9; 4]);
    assert_eq!(pending[0].updated_at_ms, 3);
    assert_eq!(pending[1].rgba, vec![2; 4]);
}

#[test]
fn appending_adds_a_second_save_of_the_same_chunk() {
    let codec = ChunkCodecV1::new(3);
    let data = chunk();
    let mut pending = vec![record("w", 2, vec![7], 1)];
    let mut status = StorageStatus::default();
    assert!(append_chunk_save(&mut pending, &mut status, &codec, &key("w", 2), &data, 5, 6));
    assert_eq!(pending.len(), 2);
    assert_eq!(pending[0].blob, vec![7]);
    assert_eq!(pending[1].key, key("w", 2));
    assert_eq!(pending[1].blob, codec.encode(&SimChunkView::from_data(&data), 5).unwrap());
    assert_eq!(status.state, StorageState::Degraded);
    assert_eq!(status.detail.as_deref(), Some("initializing"));
}
