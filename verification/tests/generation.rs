use foundry::generation::{generate_chunk_data, generate_resources, is_water, terrain_tile_id, tile_jitter, WATER_TILE};
use foundry::world::{ChunkCoord, CHUNK_TILE_COUNT, RES_NONE};

#[test]
fn generated_chunks_are_deterministic() {
    let a = generate_chunk_data(ChunkCoord::new(-2, 3), 0, 1337, 11);
    let b = generate_chunk_data(ChunkCoord::new(-2, 3), 0, 1337, 99);

    assert_eq!(a.tiles, b.tiles);
    assert_eq!(a.resources, b.resources);
    assert_eq!(a.placed, b.placed);
    assert_eq!(a.saved_tick, 11);
    assert_eq!(b.saved_tick, 99);
}

#[test]
fn generated_resources_skip_water_tiles() {
    let tiles = vec![WATER_TILE; CHUNK_TILE_COUNT];
    let resources = generate_resources(ChunkCoord::new(0, 0), 0, 1337, &tiles);

    assert_eq!(resources.len(), CHUNK_TILE_COUNT);
    assert!(resources.iter().all(|cell| cell.kind == RES_NONE));
    assert!(resources.iter().all(|cell| cell.amount == 0));
}

#[test]
fn generated_chunk_has_full_vectors_and_no_containers() {
    let c = generate_chunk_data(ChunkCoord::new(5, -7), 2, 42, 0);
    assert_eq!(c.coord, ChunkCoord::new(5, -7));
    assert_eq!(c.layer, 2);
    assert_eq!(c.tiles.len(), CHUNK_TILE_COUNT);
    assert_eq!(c.resources.len(), CHUNK_TILE_COUNT);
    assert_eq!(c.placed.len(), CHUNK_TILE_COUNT);
    assert!(c.chests.is_empty() && c.furnaces.is_empty() && c.inserters.is_empty() && c.drills.is_empty());
    assert!(c.tiles.iter().all(|t| *t <= WATER_TILE));
    for (t, r) in c.tiles.iter().zip(c.resources.iter()) {
        if is_water(*t) {
            assert_eq!(r.kind, RES_NONE);
        }
    }
}

#[test]
fn terrain_matches_stored_tiles() {
    let c = generate_chunk_data(ChunkCoord::new(-1, 0), 0, 7, 0);
    for idx in [0usize, 31, 32, 500, 1023] {
        let gx = -32 + (idx % 32) as i32;
        let gy = (idx / 32) as i32;
        assert_eq!(c.tiles[idx], terrain_tile_id(gx, gy, 0, 7));
    }
}

#[test]
fn jitter_stays_in_range() {
    for gx in -20..20 {
        let j = tile_jitter(gx, 3, 99, WATER_TILE);
        assert!((-3..=3).contains(&j));
        let k = tile_jitter(gx, 3, 99, 1);
        assert!((-6..=6).contains(&k));
    }
}
