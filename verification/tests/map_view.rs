use foundry::generation::{tile_at, tile_jitter, WATER_TILE};
use foundry::map_view::{
    apply_jitter, darken_color, map_resource_metadata, map_tile_layers, normalize_map_resource_metadata,
    padded_map_chunk_pixels, placed_color, resource_color, resource_display_name, shallow_water_color, tile_color,
    MAP_CHUNK_BYTES,
};
use foundry::world::{
    ChunkCoord, PlacedCell, ResourceCell, SimChunkData, CHUNK_EDGE, CHUNK_TILE_COUNT, PLACED_CHEST, PLACED_NONE,
    RES_COAL, RES_IRON, RES_NONE,
};

fn test_chunk() -> SimChunkData {
    SimChunkData {
        coord: ChunkCoord::new(0, 0),
        layer: 0,
        tiles: vec![0; CHUNK_TILE_COUNT],
        resources: vec![ResourceCell { kind: RES_NONE, amount: 0 }; CHUNK_TILE_COUNT],
        placed: vec![PlacedCell { kind: PLACED_NONE, object_id: 0 }; CHUNK_TILE_COUNT],
        chests: Vec::new(),
        furnaces: Vec::new(),
        inserters: Vec::new(),
        drills: Vec::new(),
        alembics: Vec::new(),
        crucibles: Vec::new(),
        entities: Vec::new(),
        saved_tick: 0,
    }
}

fn local_idx(tx: usize, ty: usize) -> usize {
    ty * CHUNK_EDGE as usize + tx
}

fn raw_pixel(pixels: &[u8], x: usize, y: usize) -> [u8; 4] {
    let edge = CHUNK_EDGE as usize;
    let idx = (y * edge + x) * 4;
    [pixels[idx], pixels[idx + 1], pixels[idx + 2], pixels[idx + 3]]
}

fn padded_map_pixel(pixels: &[u8], x: usize, y: usize) -> [u8; 4] {
    let padded_edge = CHUNK_EDGE as usize + 2;
    let idx = (y * padded_edge + x) * 4;
    [pixels[idx], pixels[idx + 1], pixels[idx + 2], pixels[idx + 3]]
}

#[test]
fn padded_map_chunk_pixels_duplicate_all_edges() {
    let edge = CHUNK_EDGE as usize;
    let padded_edge = edge + 2;
    let mut rgba = Vec::with_capacity(MAP_CHUNK_BYTES);
    for y in 0..edge {
        for x in 0..edge {
            rgba.extend_from_slice(&[x as u8, y as u8, (x + y) as u8, 255]);
        }
    }

    let padded = padded_map_chunk_pixels(&rgba);

    assert_eq!(padded.len(), padded_edge * padded_edge * 4);
    for y in 0..edge {
        for x in 0..edge {
            assert_eq!(padded_map_pixel(&padded, x + 1, y + 1), raw_pixel(&rgba, x, y));
        }
    }
    for x in 0..edge {
        assert_eq!(padded_map_pixel(&padded, x + 1, 0), raw_pixel(&rgba, x, 0));
        assert_eq!(padded_map_pixel(&padded, x + 1, padded_edge - 1), raw_pixel(&rgba, x, edge - 1));
    }
    for y in 0..edge {
        assert_eq!(padded_map_pixel(&padded, 0, y + 1), raw_pixel(&rgba, 0, y));
        assert_eq!(padded_map_pixel(&padded, padded_edge - 1, y + 1), raw_pixel(&rgba, edge - 1, y));
    }
    assert_eq!(padded_map_pixel(&padded, 0, 0), raw_pixel(&rgba, 0, 0));
    assert_eq!(padded_map_pixel(&padded, padded_edge - 1, 0), raw_pixel(&rgba, edge - 1, 0));
    assert_eq!(padded_map_pixel(&padded, 0, padded_edge - 1), raw_pixel(&rgba, 0, edge - 1));
    assert_eq!(padded_map_pixel(&padded, padded_edge - 1, padded_edge - 1), raw_pixel(&rgba, edge - 1, edge - 1));
}

#[test]
fn tests_map_resource_metadata_tracks_known_resource_amounts() {
    let mut data = test_chunk();
    data.resources[local_idx(3, 4)] = ResourceCell { kind: RES_COAL, amount: 9 };
    data.resources[local_idx(5, 6)] = ResourceCell { kind: RES_IRON, amount: 0 };

    let (resource_kinds, resource_amounts) = map_resource_metadata(&data);

    assert_eq!(resource_kinds.len(), CHUNK_TILE_COUNT);
    assert_eq!(resource_amounts.len(), CHUNK_TILE_COUNT);
    assert_eq!(resource_kinds[local_idx(3, 4)], RES_COAL);
    assert_eq!(resource_amounts[local_idx(3, 4)], 9);
    assert_eq!(resource_kinds[local_idx(5, 6)], RES_NONE);
    assert_eq!(resource_amounts[local_idx(5, 6)], 0);
}

#[test]
fn lib_map_resource_metadata_tracks_known_resource_amounts() {
    let mut data = test_chunk();
    data.resources[local_idx(3, 4)] = ResourceCell { kind: RES_COAL, amount: 9 };
    data.resources[local_idx(5, 6)] = ResourceCell { kind: RES_IRON, amount: 0 };

    let (resource_kinds, resource_amounts) = map_resource_metadata(&data);

    assert_eq!(resource_kinds.len(), CHUNK_TILE_COUNT);
    assert_eq!(resource_amounts.len(), CHUNK_TILE_COUNT);
    assert_eq!(resource_kinds[local_idx(3, 4)], RES_COAL);
    assert_eq!(resource_amounts[local_idx(3, 4)], 9);
    assert_eq!(resource_kinds[local_idx(5, 6)], RES_NONE);
    assert_eq!(resource_amounts[local_idx(5, 6)], 0);
}

#[test]
fn metadata_of_short_vectors_reads_as_no_ore() {
    let mut data = test_chunk();
    data.resources.truncate(3);
    data.resources[1] = ResourceCell { kind: RES_COAL, amount: 2 };
    let (kinds, amounts) = map_resource_metadata(&data);
    assert_eq!(kinds.len(), CHUNK_TILE_COUNT);
    assert_eq!((kinds[1], amounts[1]), (RES_COAL, 2));
    assert_eq!((kinds[500], amounts[500]), (RES_NONE, 0));
}

#[test]
fn normalizing_keeps_good_metadata_and_resets_bad() {
    let kinds = vec![RES_IRON; CHUNK_TILE_COUNT];
    let amounts = vec![3u16; CHUNK_TILE_COUNT];
    let (k, a) = normalize_map_resource_metadata(kinds.clone(), amounts.clone());
    assert_eq!((k, a), (kinds, amounts));
    let (k2, a2) = normalize_map_resource_metadata(vec![RES_IRON; 5], vec![3u16; CHUNK_TILE_COUNT]);
    assert_eq!(k2, vec![RES_NONE; CHUNK_TILE_COUNT]);
    assert_eq!(a2, vec![0u16; CHUNK_TILE_COUNT]);
}

#[test]
fn palette_colors() {
    assert_eq!(tile_color(0), [58, 123, 70, 255]);
    assert_eq!(tile_color(WATER_TILE), [46, 92, 166, 255]);
    assert_eq!(tile_color(77), [110, 110, 110, 255]);
    assert_eq!(shallow_water_color(), [70, 120, 190, 255]);
    assert_eq!(resource_color(RES_IRON), [180, 180, 190, 255]);
    assert_eq!(resource_color(RES_NONE), [0, 0, 0, 0]);
    assert_eq!(placed_color(PLACED_CHEST), [150, 95, 55, 255]);
    assert_eq!(placed_color(PLACED_NONE), [0, 0, 0, 0]);
    assert_eq!(resource_display_name(RES_COAL), "Coal");
    assert_eq!(resource_display_name(99), "Resource");
}

#[test]
fn jitter_and_darkening_clamp_to_bytes() {
    assert_eq!(apply_jitter([250, 3, 100, 7], 6), [255, 9, 106, 7]);
    assert_eq!(apply_jitter([250, 3, 100, 7], -6), [244, 0, 94, 7]);
    assert_eq!(darken_color([255, 10, 4, 9]), [204, 8, 3, 9]);
}

#[test]
fn tile_layers_follow_the_chunk() {
    let mut data = test_chunk();
    data.resources[local_idx(5, 6)] = ResourceCell { kind: RES_IRON, amount: 12 };
    data.placed[local_idx(8, 9)] = PlacedCell { kind: PLACED_CHEST, object_id: 42 };
    let layers = map_tile_layers(&data, 7);
    assert_eq!(layers.len(), CHUNK_TILE_COUNT);
    let at = |tx: usize, ty: usize| layers[(31 - ty) * 32 + tx];
    assert_eq!(at(5, 6).ore, Some(resource_color(RES_IRON)));
    assert_eq!(at(5, 6).structure, None);
    assert_eq!(at(8, 9).structure, Some(placed_color(PLACED_CHEST)));
    assert_eq!(at(8, 9).ore, None);
    let tile = tile_at(&data, 11, 13, 7);
    assert_eq!(at(11, 13).base, apply_jitter(tile_color(tile), tile_jitter(11, 13, 7, tile)));
    assert!(layers.iter().all(|l| l.base[3] == 255));
}

#[test]
fn water_next_to_land_is_shallow() {
    let mut data = test_chunk();
    data.tiles = vec![WATER_TILE; CHUNK_TILE_COUNT];
    data.tiles[local_idx(10, 10)] = 1;
    let layers = map_tile_layers(&data, 3);
    let at = |tx: usize, ty: usize| layers[(31 - ty) * 32 + tx];
    let j = tile_jitter(11, 10, 3, WATER_TILE);
    assert_eq!(at(11, 10).base, apply_jitter(shallow_water_color(), j));
    let j2 = tile_jitter(20, 20, 3, WATER_TILE);
    assert_eq!(at(20, 20).base, apply_jitter(tile_color(WATER_TILE), j2));
}
