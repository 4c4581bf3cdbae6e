use foundry::world::{chunk_within_bounds, tile_to_chunk_local, ChunkCoord, CHUNK_EDGE};
use foundry::types::{StorageConfig, WorldSession};

#[test]
fn tile_to_chunk_local_handles_negative_tiles() {
    assert_eq!(tile_to_chunk_local(-1, -33), (ChunkCoord::new(-1, -2), 31, 31));
    assert_eq!(tile_to_chunk_local(-32, -32), (ChunkCoord::new(-1, -1), 0, 0));
}

#[test]
fn tile_to_chunk_local_handles_positive_boundary() {
    assert_eq!(tile_to_chunk_local(CHUNK_EDGE as i32, CHUNK_EDGE as i32), (ChunkCoord::new(1, 1), 0, 0));
}

#[test]
fn tile_to_chunk_local_handles_extremes() {
    assert_eq!(tile_to_chunk_local(i32::MIN, i32::MAX), (ChunkCoord::new(-67108864, 67108863), 0, 31));
    assert_eq!(tile_to_chunk_local(0, 31), (ChunkCoord::new(0, 0), 0, 31));
}

#[test]
fn generation_bounds_of_chunks() {
    assert!(chunk_within_bounds(ChunkCoord::new(0, 0)));
    assert!(chunk_within_bounds(ChunkCoord::new(-1000, 1000)));
    assert!(!chunk_within_bounds(ChunkCoord::new(i32::MAX, 0)));
    assert!(!chunk_within_bounds(ChunkCoord::new(0, i32::MIN)));
    assert!(chunk_within_bounds(ChunkCoord::new(67108860, -67108860)));
    assert!(!chunk_within_bounds(ChunkCoord::new(67108864, 0)));
}

#[test]
fn session_and_storage_defaults() {
    let session = foundry_session();
    assert_eq!(session.0, "local-dev");
    assert_eq!(session.1, 1337);
    assert_eq!(session.2, 0);
}

fn foundry_session() -> (String, u64, u64) {
    let s = WorldSession::default();
    let c = StorageConfig::default();
    assert_eq!(c.db_name, "game_worlds");
    assert_eq!(c.db_version, 3);
    assert_eq!(c.game_schema_version, 1);
    (s.world_id.as_str().to_string(), s.world_seed, s.tick)
}
