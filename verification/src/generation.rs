//! Deterministic terrain and ore generation from a world seed.
use vstd::prelude::*;
use crate::world::{chunk_in_bounds, filled, global_x, global_y, no_resource, nothing_placed, ChunkCoord, PlacedCell, SimChunkData, ChunkLayer, PLACED_NONE, ResourceCell, ResourceId, TileId, RES_COAL, RES_COPPER, RES_IRON, RES_NONE, RES_STONE};

verus! {

pub const WATER_TILE: TileId = 6;

/// The 64-bit finalizer that scrambles all hashes of the world.
pub open spec fn mix64_spec(z: u64) -> u64 {
    let a = (z ^ (z >> 30u64)).wrapping_mul(0xbf58476d1ce4e5b9u64);
    let b = (a ^ (a >> 27u64)).wrapping_mul(0x94d049bb133111ebu64);
    b ^ (b >> 31u64)
}

/// A signed coordinate widened to 64 bits and reinterpreted as unsigned.
pub open spec fn widen(x: i32) -> u64 {
    x as i64 as u64
}

pub open spec fn terrain_hash_spec(x: i32, y: i32, seed: u64) -> u32 {
    let z = seed ^ widen(x).wrapping_mul(0x9e3779b97f4a7c15u64) ^ widen(y).wrapping_mul(
        0xc2b2ae3d27d4eb4fu64,
    );
    mix64_spec(z) as u32
}

/// The terrain seed of a layer.
pub open spec fn layer_seed(layer: ChunkLayer, world_seed: u64) -> u64 {
    world_seed ^ (layer as u64).wrapping_mul(0x9e3779b97f4a7c15u64)
}

/// The tile at global position `(gx, gy)`: water where the coarse 16x16
/// noise is low, dirt where it is middling, grass otherwise; the variant of
/// dirt and grass comes from a per-tile hash.
pub open spec fn terrain_tile_spec(gx: i32, gy: i32, layer: ChunkLayer, world_seed: u64) -> TileId {
    let seed = layer_seed(layer, world_seed);
    let h = terrain_hash_spec(gx >> 4u32, gy >> 4u32, seed);
    let v = (h & 0xFFFFu32) as u16;
    let variant = (terrain_hash_spec(gx, gy, seed ^ 0x5bf03635f7d13d9bu64) >> 8u32) as u8;
    if v < 5000 {
        WATER_TILE
    } else if v < 16000 {
        (4 + variant % 2) as TileId
    } else {
        (variant % 4) as TileId
    }
}

pub open spec fn tile_jitter_spec(gx: i32, gy: i32, world_seed: u64, tile: TileId) -> i8 {
    let seed = world_seed ^ (tile as u64).wrapping_mul(0x94d049bb133111ebu64);
    let h = terrain_hash_spec(gx, gy, seed);
    let range: int = if tile == WATER_TILE { 3 } else { 6 };
    ((h % ((range * 2 + 1) as u32)) as int - range) as i8
}

pub fn mix64(z: u64) -> (r: u64)
    ensures
        r == mix64_spec(z),
{
    let a = (z ^ (z >> 30u64)).wrapping_mul(0xbf58476d1ce4e5b9u64);
    let b = (a ^ (a >> 27u64)).wrapping_mul(0x94d049bb133111ebu64);
    b ^ (b >> 31u64)
}

pub fn terrain_hash(x: i32, y: i32, seed: u64) -> (h: u32)
    ensures
        h == terrain_hash_spec(x, y, seed),
{
    let mut z = seed;
    z = z ^ (x as i64 as u64).wrapping_mul(0x9e3779b97f4a7c15u64);
    z = z ^ (y as i64 as u64).wrapping_mul(0xc2b2ae3d27d4eb4fu64);
    mix64(z) as u32
}

pub fn terrain_tile_id(gx: i32, gy: i32, layer: ChunkLayer, world_seed: u64) -> (t: TileId)
    ensures
        t == terrain_tile_spec(gx, gy, layer, world_seed),
        t <= WATER_TILE,
{
    let seed = world_seed ^ (layer as u64).wrapping_mul(0x9e3779b97f4a7c15u64);
    let coarse_x = gx >> 4u32;
    let coarse_y = gy >> 4u32;
    let h = terrain_hash(coarse_x, coarse_y, seed);
    let v = (h & 0xFFFFu32) as u16;
    let variant = (terrain_hash(gx, gy, seed ^ 0x5bf03635f7d13d9bu64) >> 8u32) as u8;
    if v < 5000 {
        WATER_TILE
    } else if v < 16000 {
        4 + (variant % 2) as TileId
    } else {
        (variant % 4) as TileId
    }
}

pub fn is_water(tile: TileId) -> (b: bool)
    ensures
        b == (tile == WATER_TILE),
{
    tile == WATER_TILE
}

/// A small per-tile colour offset: within +-3 on water, +-6 elsewhere.
pub fn tile_jitter(gx: i32, gy: i32, world_seed: u64, tile: TileId) -> (j: i8)
    ensures
        j == tile_jitter_spec(gx, gy, world_seed, tile),
        tile == WATER_TILE ==> -3 <= j <= 3,
        tile != WATER_TILE ==> -6 <= j <= 6,
{
    let seed = world_seed ^ (tile as u64).wrapping_mul(0x94d049bb133111ebu64);
    let h = terrain_hash(gx, gy, seed);
    let range: i8 = if tile == WATER_TILE { 3 } else { 6 };
    let offset = (h % ((range * 2 + 1) as u32)) as i8 - range;
    offset
}


/// Smallest global tile coordinate for which ore placement stays within `i32`.
pub const ORE_COORD_MIN: i32 = -2147483553;

/// Largest global tile coordinate for which ore placement stays within `i32`.
pub const ORE_COORD_MAX: i32 = 2147483561;

/// The ore seed of a layer.
pub open spec fn ore_seed(layer: ChunkLayer, world_seed: u64) -> u64 {
    world_seed ^ (layer as u64).wrapping_mul(0x7f4a7c15d14b5b5du64)
}

/// The hash that decides the ore patch of the 48x48 cell `(cx, cy)`.
pub open spec fn cell_hash(seed: u64, cx: i32, cy: i32) -> u64 {
    mix64_spec(
        seed ^ widen(cx).wrapping_mul(0x9e3779b97f4a7c15u64) ^ widen(cy).wrapping_mul(
            0xc2b2ae3d27d4eb4fu64,
        ),
    )
}

/// Ore kind for a roll: 40% iron, 25% copper, 20% coal, 15% stone.
pub open spec fn pick_kind_spec(value: u32) -> ResourceId {
    let roll = value % 100;
    if roll < 40 {
        RES_IRON
    } else if roll < 65 {
        RES_COPPER
    } else if roll < 85 {
        RES_COAL
    } else {
        RES_STONE
    }
}

/// The ore of a patch follows its roll out of a hundred: rolls below 40
/// give iron, 40 to 64 copper, 65 to 84 coal, 85 and above stone.
pub proof fn lemma_ore_kind_by_roll(value: u32)
    ensures
        pick_kind_spec(value) == RES_IRON <==> value % 100 < 40,
        pick_kind_spec(value) == RES_COPPER <==> 40 <= value % 100 < 65,
        pick_kind_spec(value) == RES_COAL <==> 65 <= value % 100 < 85,
        pick_kind_spec(value) == RES_STONE <==> 85 <= value % 100,
{
}

/// What the patch of cell `(cx, cy)` with hash `h` gives tile `(gx, gy)`:
/// 30% of cells hold a disc-shaped patch of radius 4..=8 centred at least 9
/// tiles inside the cell, whose amount falls off with squared distance.
/// The amount is zero where the patch does not reach.
pub open spec fn patch_candidate(gx: int, gy: int, cx: int, cy: int, h: u64) -> (ResourceId, int) {
    if (h as u32) % 100 >= 30 {
        (RES_NONE, 0)
    } else {
        let kind = pick_kind_spec(((h >> 8u64) as u32) % 100);
        let offset_x = (((h >> 16u64) as u32) % 30) as int;
        let offset_y = (((h >> 24u64) as u32) % 30) as int;
        let center_x = cx * 48 + 9 + offset_x;
        let center_y = cy * 48 + 9 + offset_y;
        let radius = 4 + (((h >> 32u64) as u32) % 5) as int;
        let base = 18 + (((h >> 40u64) as u32) % 60) as int;
        let dx = gx - center_x;
        let dy = gy - center_y;
        let dist_sq = dx * dx + dy * dy;
        let radius_sq = radius * radius;
        if dist_sq > radius_sq {
            (RES_NONE, 0)
        } else {
            let falloff = (dist_sq * base) / (radius_sq + 1);
            (kind, if base - falloff > 0 { base - falloff } else { 0 })
        }
    }
}

/// The richest patch among the first `n` of the nine cells around the tile's
/// cell (row by row from the cell below-left); a later patch wins only when
/// strictly richer.
pub open spec fn best_patch(gx: i32, gy: i32, seed: u64, n: nat) -> (ResourceId, int)
    decreases n,
{
    if n == 0 {
        (RES_NONE, 0)
    } else {
        let prev = best_patch(gx, gy, seed, (n - 1) as nat);
        let k = n - 1;
        let cx = gx as int / 48 - 1 + k % 3;
        let cy = gy as int / 48 - 1 + k / 3;
        let cand = patch_candidate(gx as int, gy as int, cx, cy, cell_hash(seed, cx as i32, cy as i32));
        if cand.1 > prev.1 {
            cand
        } else {
            prev
        }
    }
}

/// The ore on global tile `(gx, gy)`.
pub open spec fn resource_at_global_spec(gx: i32, gy: i32, layer: ChunkLayer, world_seed: u64) -> ResourceCell {
    let best = best_patch(gx, gy, ore_seed(layer, world_seed), 9);
    if best.1 == 0 {
        ResourceCell { kind: RES_NONE, amount: 0 }
    } else {
        ResourceCell { kind: best.0, amount: best.1 as u16 }
    }
}

fn pick_resource_kind(value: u32) -> (k: ResourceId)
    ensures
        k == pick_kind_spec(value),
{
    let roll = value % 100;
    if roll < 40 {
        RES_IRON
    } else if roll < 65 {
        RES_COPPER
    } else if roll < 85 {
        RES_COAL
    } else {
        RES_STONE
    }
}

fn floor_div_48(t: i32) -> (q: i32)
    ensures
        q == t as int / 48,
{
    if t >= 0 {
        t / 48
    } else {
        let n: i32 = -(t + 1);
        let q: i32 = -(n / 48) - 1;
        assert(q == t as int / 48);
        q
    }
}

/// The ore patch candidate of one cell, computed in machine integers.
fn patch_at(gx: i32, gy: i32, cx: i32, cy: i32, h: u64) -> (r: (ResourceId, u16))
    requires
        gx as int / 48 - 1 <= cx <= gx as int / 48 + 1,
        gy as int / 48 - 1 <= cy <= gy as int / 48 + 1,
        ORE_COORD_MIN <= gx <= ORE_COORD_MAX,
        ORE_COORD_MIN <= gy <= ORE_COORD_MAX,
    ensures
        r.0 == patch_candidate(gx as int, gy as int, cx as int, cy as int, h).0,
        r.1 == patch_candidate(gx as int, gy as int, cx as int, cy as int, h).1,
{
    if (h as u32) % 100 >= 30 {
        return (RES_NONE, 0);
    }
    let kind = pick_resource_kind(((h >> 8u64) as u32) % 100);
    let offset_x = (((h >> 16u64) as u32) % 30) as i32;
    let offset_y = (((h >> 24u64) as u32) % 30) as i32;
    let center_x = cx * 48 + 9 + offset_x;
    let center_y = cy * 48 + 9 + offset_y;
    let radius: i32 = 4 + (((h >> 32u64) as u32) % 5) as i32;
    let base_amount: i32 = 18 + (((h >> 40u64) as u32) % 60) as i32;
    let dx = gx - center_x;
    let dy = gy - center_y;
    assert(-96 <= dx <= 96 && -96 <= dy <= 96);
    assert(dx * dx <= 9216) by (nonlinear_arith)
        requires
            -96 <= dx <= 96,
    ;
    assert(dy * dy <= 9216) by (nonlinear_arith)
        requires
            -96 <= dy <= 96,
    ;
    assert(0 <= dx * dx && 0 <= dy * dy) by (nonlinear_arith);
    let dist_sq = dx * dx + dy * dy;
    assert(16 <= radius * radius <= 64) by (nonlinear_arith)
        requires
            4 <= radius <= 8,
    ;
    let radius_sq = radius * radius;
    if dist_sq > radius_sq {
        return (RES_NONE, 0);
    }
    assert(dist_sq * base_amount <= 64 * 77) by (nonlinear_arith)
        requires
            0 <= dist_sq <= radius_sq,
            radius_sq <= 64,
            18 <= base_amount <= 77,
    ;
    assert(0 <= dist_sq * base_amount) by (nonlinear_arith)
        requires
            0 <= dist_sq,
            0 <= base_amount,
    ;
    let falloff = ((dist_sq * base_amount) as u32 / (radius_sq + 1) as u32) as i32;
    let amount: u16 = if base_amount - falloff > 0 { (base_amount - falloff) as u16 } else { 0 };
    (kind, amount)
}

/// The ore on global tile `(gx, gy)` of a layer.
pub fn resource_at_global(gx: i32, gy: i32, layer: ChunkLayer, world_seed: u64) -> (cell: ResourceCell)
    requires
        ORE_COORD_MIN <= gx <= ORE_COORD_MAX,
        ORE_COORD_MIN <= gy <= ORE_COORD_MAX,
    ensures
        cell == resource_at_global_spec(gx, gy, layer, world_seed),
{
    let seed = world_seed ^ (layer as u64).wrapping_mul(0x7f4a7c15d14b5b5du64);
    let cell_x = floor_div_48(gx);
    let cell_y = floor_div_48(gy);
    let mut best_amount: u16 = 0;
    let mut best_kind: ResourceId = RES_NONE;
    let mut k: i32 = 0;
    while k < 9
        invariant
            0 <= k <= 9,
            seed == ore_seed(layer, world_seed),
            cell_x == gx as int / 48,
            cell_y == gy as int / 48,
            ORE_COORD_MIN <= gx <= ORE_COORD_MAX,
            ORE_COORD_MIN <= gy <= ORE_COORD_MAX,
            best_patch(gx, gy, seed, k as nat).1 == best_amount as int,
            best_amount == 0 ==> best_kind == RES_NONE,
            best_amount > 0 ==> best_patch(gx, gy, seed, k as nat).0 == best_kind,
            best_patch(gx, gy, seed, k as nat).1 == 0 ==> best_patch(gx, gy, seed, k as nat).0 == RES_NONE,
        decreases 9 - k,
    {
        let cy = cell_y - 1 + k / 3;
        let cx = cell_x - 1 + k % 3;
        let h = mix64(
            seed ^ (cx as i64 as u64).wrapping_mul(0x9e3779b97f4a7c15u64) ^ (cy as i64 as u64).wrapping_mul(
                0xc2b2ae3d27d4eb4fu64,
            ),
        );
        let (kind, amount) = patch_at(gx, gy, cx, cy, h);
        if amount > best_amount {
            best_amount = amount;
            best_kind = kind;
        }
        k = k + 1;
    }
    if best_amount == 0 {
        ResourceCell { kind: RES_NONE, amount: 0 }
    } else {
        ResourceCell { kind: best_kind, amount: best_amount }
    }
}


/// The ore of tile `idx` of a freshly generated chunk: none on water tiles,
/// otherwise the ore of its global position.
pub open spec fn generated_resource(
    coord: ChunkCoord,
    layer: ChunkLayer,
    world_seed: u64,
    tiles: Seq<TileId>,
    idx: int,
) -> ResourceCell {
    if idx < tiles.len() && tiles[idx] == WATER_TILE {
        no_resource()
    } else {
        resource_at_global_spec(
            global_x(coord, idx) as i32,
            global_y(coord, idx) as i32,
            layer,
            world_seed,
        )
    }
}

/// The terrain of tile `idx` of a freshly generated chunk.
pub open spec fn generated_tile(coord: ChunkCoord, layer: ChunkLayer, world_seed: u64, idx: int) -> TileId {
    terrain_tile_spec(global_x(coord, idx) as i32, global_y(coord, idx) as i32, layer, world_seed)
}

/// The ore of every tile of the chunk at `coord`, given its terrain.
pub fn generate_resources(
    coord: ChunkCoord,
    layer: ChunkLayer,
    world_seed: u64,
    tiles: &[TileId],
) -> (resources: Vec<ResourceCell>)
    requires
        chunk_in_bounds(coord),
    ensures
        resources@.len() == 1024,
        forall|idx: int| 0 <= idx < 1024 ==> #[trigger] resources@[idx] == generated_resource(
            coord,
            layer,
            world_seed,
            tiles@,
            idx,
        ),
{
    let base_x = coord.cx * 32;
    let base_y = coord.cy * 32;
    let mut resources: Vec<ResourceCell> = Vec::new();
    let mut idx: usize = 0;
    while idx < 1024
        invariant
            0 <= idx <= 1024,
            chunk_in_bounds(coord),
            base_x == coord.cx * 32,
            base_y == coord.cy * 32,
            resources@.len() == idx,
            forall|j: int| 0 <= j < idx ==> #[trigger] resources@[j] == generated_resource(
                coord,
                layer,
                world_seed,
                tiles@,
                j,
            ),
        decreases 1024 - idx,
    {
        let x = idx % 32;
        let y = idx / 32;
        if idx < tiles.len() && is_water(tiles[idx]) {
            resources.push(ResourceCell { kind: RES_NONE, amount: 0 });
        } else {
            let gx = base_x + x as i32;
            let gy = base_y + y as i32;
            resources.push(resource_at_global(gx, gy, layer, world_seed));
        }
        idx = idx + 1;
    }
    resources
}

/// A new chunk: generated terrain and ore, nothing placed, no containers
/// or entities.
pub fn generate_chunk_data(
    coord: ChunkCoord,
    layer: ChunkLayer,
    world_seed: u64,
    saved_tick: u64,
) -> (data: SimChunkData)
    requires
        chunk_in_bounds(coord),
    ensures
        data.coord == coord,
        data.layer == layer,
        data.saved_tick == saved_tick,
        data.tiles@.len() == 1024,
        forall|idx: int| 0 <= idx < 1024 ==> #[trigger] data.tiles@[idx] == generated_tile(
            coord,
            layer,
            world_seed,
            idx,
        ),
        data.resources@.len() == 1024,
        forall|idx: int| 0 <= idx < 1024 ==> #[trigger] data.resources@[idx] == generated_resource(
            coord,
            layer,
            world_seed,
            data.tiles@,
            idx,
        ),
        data.placed@ == Seq::new(1024, |i: int| nothing_placed()),
        data.chests@.len() == 0,
        data.furnaces@.len() == 0,
        data.inserters@.len() == 0,
        data.drills@.len() == 0,
        data.entities@.len() == 0,
{
    let base_x = coord.cx * 32;
    let base_y = coord.cy * 32;
    let mut tiles: Vec<TileId> = Vec::new();
    let mut idx: usize = 0;
    while idx < 1024
        invariant
            0 <= idx <= 1024,
            chunk_in_bounds(coord),
            base_x == coord.cx * 32,
            base_y == coord.cy * 32,
            tiles@.len() == idx,
            forall|j: int| 0 <= j < idx ==> #[trigger] tiles@[j] == generated_tile(coord, layer, world_seed, j),
        decreases 1024 - idx,
    {
        let gx = base_x + (idx % 32) as i32;
        let gy = base_y + (idx / 32) as i32;
        tiles.push(terrain_tile_id(gx, gy, layer, world_seed));
        idx = idx + 1;
    }
    let resources = generate_resources(coord, layer, world_seed, tiles.as_slice());
    let placed = filled(PlacedCell { kind: PLACED_NONE, object_id: 0 }, 1024);
    SimChunkData {
        coord,
        layer,
        tiles,
        resources,
        placed,
        chests: Vec::new(),
        furnaces: Vec::new(),
        inserters: Vec::new(),
        drills: Vec::new(),
        alembics: Vec::new(),
        crucibles: Vec::new(),
        entities: Vec::new(),
        saved_tick,
    }
}

/// Whether a tile position lies inside a chunk.
pub open spec fn in_chunk(tx: i32, ty: i32) -> bool {
    0 <= tx < 32 && 0 <= ty < 32
}

/// The terrain at chunk-local `(tx, ty)`: stored tiles inside the chunk
/// (zero where the vector is short), generated terrain outside it.
pub open spec fn tile_at_spec(data: SimChunkData, tx: i32, ty: i32, world_seed: u64) -> TileId {
    if in_chunk(tx, ty) {
        let idx = ty * 32 + tx;
        if idx < data.tiles@.len() { data.tiles@[idx] } else { 0 }
    } else {
        terrain_tile_spec(
            (data.coord.cx * 32 + tx) as i32,
            (data.coord.cy * 32 + ty) as i32,
            data.layer,
            world_seed,
        )
    }
}

pub fn tile_at(data: &SimChunkData, tx: i32, ty: i32, world_seed: u64) -> (t: TileId)
    requires
        !in_chunk(tx, ty) ==> {
            &&& i32::MIN <= data.coord.cx * 32 + tx <= i32::MAX
            &&& i32::MIN <= data.coord.cy * 32 + ty <= i32::MAX
            &&& i32::MIN <= data.coord.cx * 32 <= i32::MAX
            &&& i32::MIN <= data.coord.cy * 32 <= i32::MAX
        },
    ensures
        t == tile_at_spec(*data, tx, ty, world_seed),
{
    if tx >= 0 && tx < 32 && ty >= 0 && ty < 32 {
        let idx = (ty as usize) * 32 + (tx as usize);
        if idx < data.tiles.len() {
            return data.tiles[idx];
        }
        return 0;
    }
    let gx = data.coord.cx * 32 + tx;
    let gy = data.coord.cy * 32 + ty;
    terrain_tile_id(gx, gy, data.layer, world_seed)
}

/// The ore at chunk-local `(tx, ty)`; none outside the chunk or past the vector.
pub open spec fn resource_at_spec(data: SimChunkData, tx: i32, ty: i32) -> ResourceCell {
    if in_chunk(tx, ty) && ty * 32 + tx < data.resources@.len() {
        data.resources@[ty * 32 + tx]
    } else {
        no_resource()
    }
}

pub fn resource_at(data: &SimChunkData, tx: i32, ty: i32) -> (r: ResourceCell)
    ensures
        r == resource_at_spec(*data, tx, ty),
{
    if tx >= 0 && tx < 32 && ty >= 0 && ty < 32 {
        let idx = (ty as usize) * 32 + (tx as usize);
        if idx < data.resources.len() {
            return data.resources[idx];
        }
    }
    ResourceCell { kind: RES_NONE, amount: 0 }
}

/// The structure at chunk-local `(tx, ty)`; nothing outside the chunk or past the vector.
pub open spec fn placed_at_spec(data: SimChunkData, tx: i32, ty: i32) -> PlacedCell {
    if in_chunk(tx, ty) && ty * 32 + tx < data.placed@.len() {
        data.placed@[ty * 32 + tx]
    } else {
        nothing_placed()
    }
}

pub fn placed_at(data: &SimChunkData, tx: i32, ty: i32) -> (p: PlacedCell)
    ensures
        p == placed_at_spec(*data, tx, ty),
{
    if tx >= 0 && tx < 32 && ty >= 0 && ty < 32 {
        let idx = (ty as usize) * 32 + (tx as usize);
        if idx < data.placed.len() {
            return data.placed[idx];
        }
    }
    PlacedCell { kind: PLACED_NONE, object_id: 0 }
}

/// Water tiles of a generated chunk carry no ore.
pub proof fn lemma_no_ore_on_water(
    coord: ChunkCoord,
    layer: ChunkLayer,
    world_seed: u64,
    tiles: Seq<TileId>,
    idx: int,
)
    requires
        0 <= idx < tiles.len(),
        tiles[idx] == WATER_TILE,
    ensures
        generated_resource(coord, layer, world_seed, tiles, idx) == no_resource(),
{
}

} // verus!
