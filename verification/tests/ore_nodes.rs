use foundry::ore_nodes::{
    map_resource_at, map_resource_node_summary, map_resource_node_summary_checked, ExploredChunk, MapResourceCell,
};
use foundry::world::{ChunkCoord, CHUNK_EDGE, CHUNK_TILE_COUNT, RES_COAL, RES_IRON, RES_NONE};

fn blank_map_chunk(cx: i32, cy: i32) -> ExploredChunk {
    ExploredChunk {
        coord: ChunkCoord::new(cx, cy),
        resource_kinds: vec![RES_NONE; CHUNK_TILE_COUNT],
        resource_amounts: vec![0; CHUNK_TILE_COUNT],
    }
}

fn local_idx(tx: usize, ty: usize) -> usize {
    ty * CHUNK_EDGE as usize + tx
}

fn two_chunk_map() -> Vec<ExploredChunk> {
    let mut left_chunk = blank_map_chunk(0, 0);
    let mut right_chunk = blank_map_chunk(1, 0);

    left_chunk.resource_kinds[local_idx(31, 0)] = RES_IRON;
    left_chunk.resource_amounts[local_idx(31, 0)] = 5;
    right_chunk.resource_kinds[local_idx(0, 0)] = RES_IRON;
    right_chunk.resource_amounts[local_idx(0, 0)] = 7;
    right_chunk.resource_kinds[local_idx(2, 0)] = RES_IRON;
    right_chunk.resource_amounts[local_idx(2, 0)] = 100;
    vec![left_chunk, right_chunk]
}

#[test]
fn tests_map_resource_node_summary_sums_connected_explored_tiles_across_chunks() {
    let map = two_chunk_map();

    let summary = map_resource_node_summary(&map, 31, 0).unwrap();

    assert_eq!(summary.kind, RES_IRON);
    assert_eq!(summary.total, 12);
}

#[test]
fn lib_map_resource_node_summary_sums_connected_explored_tiles_across_chunks() {
    let map = two_chunk_map();

    let summary = map_resource_node_summary(&map, 31, 0).unwrap();

    assert_eq!(summary.kind, RES_IRON);
    assert_eq!(summary.total, 12);
}

#[test]
fn resource_at_reads_the_explored_chunk() {
    let map = two_chunk_map();
    assert_eq!(map_resource_at(&map, 34, 0), Some(MapResourceCell { kind: RES_IRON, amount: 100 }));
    assert_eq!(map_resource_at(&map, 33, 0), None);
    assert_eq!(map_resource_at(&map, 32, 0), Some(MapResourceCell { kind: RES_IRON, amount: 7 }));
    assert_eq!(map_resource_at(&map, 30, 0), None);
    assert_eq!(map_resource_at(&map, 0, -1), None);
    assert_eq!(map_resource_at(&map, 70, 0), None);
}

#[test]
fn summary_starting_on_bare_ground_is_none() {
    let map = two_chunk_map();
    assert_eq!(map_resource_node_summary(&map, 30, 0), None);
    assert_eq!(map_resource_node_summary(&[], 0, 0), None);
}

#[test]
fn summary_skips_other_ores_and_diagonals() {
    let mut chunk = blank_map_chunk(-1, -1);
    // global tiles (-32..0, -32..0); local (31, 31) is tile (-1, -1)
    chunk.resource_kinds[local_idx(31, 31)] = RES_COAL;
    chunk.resource_amounts[local_idx(31, 31)] = 4;
    chunk.resource_kinds[local_idx(30, 31)] = RES_COAL;
    chunk.resource_amounts[local_idx(30, 31)] = 6;
    chunk.resource_kinds[local_idx(29, 31)] = RES_IRON;
    chunk.resource_amounts[local_idx(29, 31)] = 50;
    chunk.resource_kinds[local_idx(28, 31)] = RES_COAL;
    chunk.resource_amounts[local_idx(28, 31)] = 70;
    chunk.resource_kinds[local_idx(30, 30)] = RES_COAL;
    chunk.resource_amounts[local_idx(30, 30)] = 1;
    chunk.resource_kinds[local_idx(29, 30)] = RES_COAL;
    chunk.resource_amounts[local_idx(29, 30)] = 2;
    let map = vec![chunk];

    let summary = map_resource_node_summary(&map, -1, -1).unwrap();
    assert_eq!(summary.kind, RES_COAL);
    // (-1,-1) 4 + (-2,-1) 6 + (-2,-2) 1 + (-3,-2) 2; iron at (-3,-1) splits off (-4,-1)
    assert_eq!(summary.total, 13);

    let iron = map_resource_node_summary(&map, -3, -1).unwrap();
    assert_eq!(iron.kind, RES_IRON);
    assert_eq!(iron.total, 50);
}

#[test]
fn summary_reads_a_repeated_chunk_once() {
    let mut map = two_chunk_map();
    let mut shadow = blank_map_chunk(0, 0);
    shadow.resource_kinds[local_idx(30, 0)] = RES_IRON;
    shadow.resource_amounts[local_idx(30, 0)] = 1000;
    map.push(shadow);

    let summary = map_resource_node_summary(&map, 31, 0).unwrap();
    assert_eq!(summary.total, 12);
}

#[test]
fn spent_ore_breaks_the_deposit() {
    let mut map = two_chunk_map();
    map[1].resource_kinds[local_idx(1, 0)] = RES_IRON;
    map[1].resource_amounts[local_idx(1, 0)] = 0;
    let summary = map_resource_node_summary(&map, 33, 0);
    assert_eq!(summary.map(|s| s.total), None);
    map[1].resource_amounts[local_idx(1, 0)] = 3;
    let summary = map_resource_node_summary(&map, 34, 0).unwrap();
    assert_eq!(summary.total, 115);
}

#[test]
fn every_tile_of_a_deposit_tells_the_same_summary() {
    let map = two_chunk_map();
    let from_left = map_resource_node_summary(&map, 31, 0);
    let from_right = map_resource_node_summary(&map, 32, 0);
    assert_eq!(from_left, from_right);
    assert_eq!(from_left.map(|s| s.total), Some(12));
    assert_eq!(map_resource_node_summary(&map, 34, 0).map(|s| s.total), Some(100));
}

#[test]
fn checked_summary_matches_where_the_deposit_is_in_range() {
    let map = two_chunk_map();
    let summary = map_resource_node_summary_checked(&map, 31, 0).unwrap();
    assert_eq!((summary.kind, summary.total), (RES_IRON, 12));
    assert_eq!(map_resource_node_summary_checked(&map, 2, 2), None);
}

#[test]
fn checked_summary_refuses_a_deposit_on_the_plane_edge() {
    let edge_cx = i32::MAX / 32;
    let edge_chunk = || {
        let mut chunk = blank_map_chunk(edge_cx, 0);
        chunk.resource_kinds[local_idx(30, 0)] = RES_COAL;
        chunk.resource_amounts[local_idx(30, 0)] = 4;
        chunk.resource_kinds[local_idx(28, 0)] = RES_IRON;
        chunk.resource_amounts[local_idx(28, 0)] = 9;
        chunk
    };
    let map = vec![edge_chunk()];
    let inner = map_resource_node_summary_checked(&map, edge_cx * 32 + 30, 0).unwrap();
    assert_eq!((inner.kind, inner.total), (RES_COAL, 4));

    let mut chunk = edge_chunk();
    chunk.resource_kinds[local_idx(31, 0)] = RES_COAL;
    chunk.resource_amounts[local_idx(31, 0)] = 1;
    let map = vec![chunk];
    assert_eq!(map_resource_node_summary_checked(&map, edge_cx * 32 + 30, 0), None);
    let other = map_resource_node_summary_checked(&map, edge_cx * 32 + 28, 0).unwrap();
    assert_eq!((other.kind, other.total), (RES_IRON, 9));
}

#[test]
fn checked_summary_refuses_a_total_beyond_u32() {
    let mut map = Vec::new();
    for cx in 0..65 {
        let mut chunk = blank_map_chunk(cx, 0);
        chunk.resource_kinds = vec![RES_IRON; CHUNK_TILE_COUNT];
        chunk.resource_amounts = vec![u16::MAX; CHUNK_TILE_COUNT];
        map.push(chunk);
    }
    assert_eq!(map_resource_node_summary_checked(&map, 5, 5), None);
    map.truncate(64);
    let summary = map_resource_node_summary_checked(&map, 5, 5).unwrap();
    assert_eq!(summary.total, 64 * 1024 * u16::MAX as u32);
}
