//! What the map shows of a chunk: tile colours, colour jitter, ore and
//! structure overlays, and the per-tile ore summary kept beside each
//! explored chunk.
use vstd::prelude::*;
use crate::generation::{
    WATER_TILE, placed_at, placed_at_spec, resource_at, resource_at_spec, tile_at, tile_at_spec, tile_jitter,
    tile_jitter_spec,
};
use crate::world::{
    PlacedId, ResourceId, SimChunkData, TileId, PLACED_CHEST, PLACED_FURNACE, PLACED_INSERTER,
    PLACED_MINING_DRILL, PLACED_NONE, RES_COAL, RES_COPPER, RES_IRON, RES_NONE, RES_STONE,
};

verus! {

/// Bytes of one chunk's map snapshot: four per tile.
pub const MAP_CHUNK_BYTES: usize = 4096;

/// The colour of a terrain tile.
pub open spec fn tile_color_spec(tile: TileId) -> Seq<u8> {
    if tile == 0 {
        seq![58u8, 123u8, 70u8, 255u8]
    } else if tile == 1 {
        seq![66u8, 132u8, 78u8, 255u8]
    } else if tile == 2 {
        seq![72u8, 140u8, 82u8, 255u8]
    } else if tile == 3 {
        seq![80u8, 148u8, 90u8, 255u8]
    } else if tile == 4 {
        seq![132u8, 96u8, 60u8, 255u8]
    } else if tile == 5 {
        seq![146u8, 106u8, 66u8, 255u8]
    } else if tile == 6 {
        seq![46u8, 92u8, 166u8, 255u8]
    } else {
        seq![110u8, 110u8, 110u8, 255u8]
    }
}

/// The colour of water next to land.
pub open spec fn shallow_water_spec() -> Seq<u8> {
    seq![70u8, 120u8, 190u8, 255u8]
}

/// The overlay colour of an ore; transparent black for no known ore.
pub open spec fn resource_color_spec(kind: ResourceId) -> Seq<u8> {
    if kind == RES_IRON {
        seq![180u8, 180u8, 190u8, 255u8]
    } else if kind == RES_COPPER {
        seq![190u8, 120u8, 60u8, 255u8]
    } else if kind == RES_COAL {
        seq![30u8, 30u8, 30u8, 255u8]
    } else if kind == RES_STONE {
        seq![120u8, 120u8, 120u8, 255u8]
    } else {
        seq![0u8, 0u8, 0u8, 0u8]
    }
}

/// The overlay colour of a structure; transparent black for the rest.
pub open spec fn placed_color_spec(kind: PlacedId) -> Seq<u8> {
    if kind == PLACED_FURNACE {
        seq![90u8, 90u8, 100u8, 255u8]
    } else if kind == PLACED_CHEST {
        seq![150u8, 95u8, 55u8, 255u8]
    } else if kind == PLACED_INSERTER {
        seq![216u8, 168u8, 54u8, 255u8]
    } else if kind == PLACED_MINING_DRILL {
        seq![92u8, 118u8, 126u8, 255u8]
    } else {
        seq![0u8, 0u8, 0u8, 0u8]
    }
}

/// One colour channel moved by `j` and clamped to a byte.
pub open spec fn jitter_channel(v: u8, j: i8) -> u8 {
    let x = v + j;
    if x < 0 {
        0
    } else if x > 255 {
        255
    } else {
        x as u8
    }
}

/// A colour with its red, green and blue moved by `j`; alpha unchanged.
pub open spec fn jittered(c: Seq<u8>, j: i8) -> Seq<u8> {
    seq![jitter_channel(c[0], j), jitter_channel(c[1], j), jitter_channel(c[2], j), c[3]]
}

/// A colour with red, green and blue at four fifths; alpha unchanged.
pub open spec fn darkened(c: Seq<u8>) -> Seq<u8> {
    seq![(c[0] * 4 / 5) as u8, (c[1] * 4 / 5) as u8, (c[2] * 4 / 5) as u8, c[3]]
}

pub fn tile_color(tile: TileId) -> (c: [u8; 4])
    ensures
        c@ == tile_color_spec(tile),
{
    let c: [u8; 4] = match tile {
        0 => [58, 123, 70, 255],
        1 => [66, 132, 78, 255],
        2 => [72, 140, 82, 255],
        3 => [80, 148, 90, 255],
        4 => [132, 96, 60, 255],
        5 => [146, 106, 66, 255],
        6 => [46, 92, 166, 255],
        _ => [110, 110, 110, 255],
    };
    assert(c@ =~= tile_color_spec(tile));
    c
}

pub fn shallow_water_color() -> (c: [u8; 4])
    ensures
        c@ == shallow_water_spec(),
{
    let c: [u8; 4] = [70, 120, 190, 255];
    assert(c@ =~= shallow_water_spec());
    c
}

pub fn resource_color(kind: ResourceId) -> (c: [u8; 4])
    ensures
        c@ == resource_color_spec(kind),
{
    let c: [u8; 4] = if kind == RES_IRON {
        [180, 180, 190, 255]
    } else if kind == RES_COPPER {
        [190, 120, 60, 255]
    } else if kind == RES_COAL {
        [30, 30, 30, 255]
    } else if kind == RES_STONE {
        [120, 120, 120, 255]
    } else {
        [0, 0, 0, 0]
    };
    assert(c@ =~= resource_color_spec(kind));
    c
}

pub fn placed_color(kind: PlacedId) -> (c: [u8; 4])
    ensures
        c@ == placed_color_spec(kind),
{
    let c: [u8; 4] = if kind == PLACED_FURNACE {
        [90, 90, 100, 255]
    } else if kind == PLACED_CHEST {
        [150, 95, 55, 255]
    } else if kind == PLACED_INSERTER {
        [216, 168, 54, 255]
    } else if kind == PLACED_MINING_DRILL {
        [92, 118, 126, 255]
    } else {
        [0, 0, 0, 0]
    };
    assert(c@ =~= placed_color_spec(kind));
    c
}

/// Darkens a colour for chunk borders.
pub fn darken_color(color: [u8; 4]) -> (c: [u8; 4])
    ensures
        c@ == darkened(color@),
{
    let r = (color[0] as u16 * 4 / 5) as u8;
    let g = (color[1] as u16 * 4 / 5) as u8;
    let b = (color[2] as u16 * 4 / 5) as u8;
    let c: [u8; 4] = [r, g, b, color[3]];
    assert(c@ =~= darkened(color@));
    c
}

fn jitter_value(value: u8, jitter: i8) -> (v: u8)
    ensures
        v == jitter_channel(value, jitter),
{
    let x = value as i16 + jitter as i16;
    if x < 0 {
        0
    } else if x > 255 {
        255
    } else {
        x as u8
    }
}

/// Moves red, green and blue by `jitter`, clamped to a byte.
pub fn apply_jitter(color: [u8; 4], jitter: i8) -> (c: [u8; 4])
    ensures
        c@ == jittered(color@, jitter),
{
    let c: [u8; 4] = [
        jitter_value(color[0], jitter),
        jitter_value(color[1], jitter),
        jitter_value(color[2], jitter),
        color[3],
    ];
    assert(c@ =~= jittered(color@, jitter));
    c
}

/// The name an ore is shown by.
pub open spec fn resource_name_spec(kind: ResourceId) -> Seq<char> {
    if kind == RES_IRON {
        "Iron Ore"@
    } else if kind == RES_COPPER {
        "Copper Ore"@
    } else if kind == RES_COAL {
        "Coal"@
    } else if kind == RES_STONE {
        "Stone"@
    } else {
        "Resource"@
    }
}

pub fn resource_display_name(kind: ResourceId) -> (s: &'static str)
    ensures
        s@ == resource_name_spec(kind),
{
    if kind == RES_IRON {
        "Iron Ore"
    } else if kind == RES_COPPER {
        "Copper Ore"
    } else if kind == RES_COAL {
        "Coal"
    } else if kind == RES_STONE {
        "Stone"
    } else {
        "Resource"
    }
}

/// The ore kind recorded for tile `idx`: the stored kind where it is a real
/// deposit with something left, no ore otherwise.
pub open spec fn known_kind(data: SimChunkData, idx: int) -> ResourceId {
    if idx < data.resources@.len() && data.resources@[idx].kind != RES_NONE && data.resources@[idx].amount > 0 {
        data.resources@[idx].kind
    } else {
        RES_NONE
    }
}

/// The ore amount recorded for tile `idx`, zero where no ore is recorded.
pub open spec fn known_amount(data: SimChunkData, idx: int) -> u16 {
    if idx < data.resources@.len() && data.resources@[idx].kind != RES_NONE && data.resources@[idx].amount > 0 {
        data.resources@[idx].amount
    } else {
        0
    }
}

/// The per-tile ore kinds and amounts kept with a chunk's map snapshot.
pub fn map_resource_metadata(data: &SimChunkData) -> (r: (Vec<ResourceId>, Vec<u16>))
    ensures
        r.0@.len() == 1024,
        r.1@.len() == 1024,
        forall|i: int| 0 <= i < 1024 ==> r.0@[i] == known_kind(*data, i) && r.1@[i] == known_amount(*data, i),
{
    let mut kinds: Vec<ResourceId> = Vec::new();
    let mut amounts: Vec<u16> = Vec::new();
    let mut i: usize = 0;
    while i < 1024
        invariant
            0 <= i <= 1024,
            kinds@.len() == i,
            amounts@.len() == i,
            forall|k: int| 0 <= k < i ==> kinds@[k] == known_kind(*data, k) && amounts@[k] == known_amount(*data, k),
        decreases 1024 - i,
    {
        if i < data.resources.len() && data.resources[i].kind != RES_NONE && data.resources[i].amount > 0 {
            kinds.push(data.resources[i].kind);
            amounts.push(data.resources[i].amount);
        } else {
            kinds.push(RES_NONE);
            amounts.push(0);
        }
        i = i + 1;
    }
    (kinds, amounts)
}

/// Stored ore metadata of the wrong length is replaced by an empty summary.
pub fn normalize_map_resource_metadata(resource_kinds: Vec<ResourceId>, resource_amounts: Vec<u16>) -> (r: (
    Vec<ResourceId>,
    Vec<u16>,
))
    ensures
        resource_kinds@.len() == 1024 && resource_amounts@.len() == 1024 ==> r.0@ == resource_kinds@ && r.1@
            == resource_amounts@,
        !(resource_kinds@.len() == 1024 && resource_amounts@.len() == 1024) ==> r.0@ == Seq::new(
            1024,
            |i: int| RES_NONE,
        ) && r.1@ == Seq::new(1024, |i: int| 0u16),
{
    if resource_kinds.len() == 1024 && resource_amounts.len() == 1024 {
        return (resource_kinds, resource_amounts);
    }
    let mut kinds: Vec<ResourceId> = Vec::new();
    let mut amounts: Vec<u16> = Vec::new();
    let mut i: usize = 0;
    while i < 1024
        invariant
            0 <= i <= 1024,
            kinds@ == Seq::new(i as nat, |k: int| RES_NONE),
            amounts@ == Seq::new(i as nat, |k: int| 0u16),
        decreases 1024 - i,
    {
        kinds.push(RES_NONE);
        amounts.push(0);
        i = i + 1;
        assert(kinds@ =~= Seq::new(i as nat, |k: int| RES_NONE));
        assert(amounts@ =~= Seq::new(i as nat, |k: int| 0u16));
    }
    (kinds, amounts)
}

/// The source row or column, 0 to 31, that padded position `p` (0 to 33)
/// repeats: the border repeats the nearest edge.
pub open spec fn pad_source(p: int) -> int {
    if p == 0 {
        0
    } else if p > 32 {
        31
    } else {
        p - 1
    }
}

/// A 32 by 32 RGBA image grown to 34 by 34 by repeating its outer rows and
/// columns, so that sampling at a chunk's edge does not bleed.
pub fn padded_map_chunk_pixels(rgba: &[u8]) -> (out: Vec<u8>)
    requires
        rgba@.len() == 4096,
    ensures
        out@.len() == 34 * 34 * 4,
        forall|y: int, x: int, c: int|
            0 <= y < 34 && 0 <= x < 34 && 0 <= c < 4 ==> #[trigger] out@[(y * 34 + x) * 4 + c] == rgba@[(
            pad_source(y) * 32 + pad_source(x)) * 4 + c],
{
    let mut out: Vec<u8> = Vec::new();
    let mut y: usize = 0;
    while y < 34
        invariant
            0 <= y <= 34,
            rgba@.len() == 4096,
            out@.len() == y * 34 * 4,
            forall|yy: int, x: int, c: int|
                0 <= yy < y && 0 <= x < 34 && 0 <= c < 4 ==> #[trigger] out@[(yy * 34 + x) * 4 + c] == rgba@[(
                pad_source(yy) * 32 + pad_source(x)) * 4 + c],
        decreases 34 - y,
    {
        let sy: usize = if y == 0 { 0 } else if y > 32 { 31 } else { y - 1 };
        let mut x: usize = 0;
        while x < 34
            invariant
                0 <= y < 34,
                0 <= x <= 34,
                sy == pad_source(y as int),
                rgba@.len() == 4096,
                out@.len() == (y * 34 + x) * 4,
                forall|yy: int, xx: int, c: int|
                    0 <= yy < y && 0 <= xx < 34 && 0 <= c < 4 ==> #[trigger] out@[(yy * 34 + xx) * 4 + c]
                        == rgba@[(pad_source(yy) * 32 + pad_source(xx)) * 4 + c],
                forall|xx: int, c: int|
                    0 <= xx < x && 0 <= c < 4 ==> #[trigger] out@[(y * 34 + xx) * 4 + c] == rgba@[(
                    sy * 32 + pad_source(xx)) * 4 + c],
            decreases 34 - x,
        {
            let sx: usize = if x == 0 { 0 } else if x > 32 { 31 } else { x - 1 };
            let base = (sy * 32 + sx) * 4;
            let ghost before = out@;
            out.push(rgba[base]);
            out.push(rgba[base + 1]);
            out.push(rgba[base + 2]);
            out.push(rgba[base + 3]);
            proof {
                assert forall|yy: int, xx: int, c: int|
                    0 <= yy < y && 0 <= xx < 34 && 0 <= c < 4 implies #[trigger] out@[(yy * 34 + xx) * 4 + c]
                        == rgba@[(pad_source(yy) * 32 + pad_source(xx)) * 4 + c] by {
                    assert((yy * 34 + xx) * 4 + c < (y * 34) * 4) by (nonlinear_arith)
                        requires
                            0 <= yy < y,
                            0 <= xx < 34,
                            0 <= c < 4,
                    ;
                    assert(out@[(yy * 34 + xx) * 4 + c] == before[(yy * 34 + xx) * 4 + c]);
                }
                assert forall|xx: int, c: int|
                    0 <= xx < x + 1 && 0 <= c < 4 implies #[trigger] out@[(y * 34 + xx) * 4 + c] == rgba@[(sy * 32
                        + pad_source(xx)) * 4 + c] by {
                    if xx < x {
                        assert(out@[(y * 34 + xx) * 4 + c] == before[(y * 34 + xx) * 4 + c]);
                    }
                }
            }
            x = x + 1;
        }
        y = y + 1;
    }
    out
}

/// Whether a water tile at `(tx, ty)` touches land on one of its four sides.
pub open spec fn touches_land(data: SimChunkData, tx: i32, ty: i32, seed: u64) -> bool {
    ||| tile_at_spec(data, (tx - 1) as i32, ty, seed) != WATER_TILE
    ||| tile_at_spec(data, (tx + 1) as i32, ty, seed) != WATER_TILE
    ||| tile_at_spec(data, tx, (ty - 1) as i32, seed) != WATER_TILE
    ||| tile_at_spec(data, tx, (ty + 1) as i32, seed) != WATER_TILE
}

/// The terrain colour of the tile at `(tx, ty)`: shallow water along shores,
/// the tile's own colour otherwise, moved by the tile's jitter.
pub open spec fn base_color_spec(data: SimChunkData, tx: i32, ty: i32, seed: u64) -> Seq<u8> {
    let tile = tile_at_spec(data, tx, ty, seed);
    let c = if tile == WATER_TILE && touches_land(data, tx, ty, seed) {
        shallow_water_spec()
    } else {
        tile_color_spec(tile)
    };
    jittered(
        c,
        tile_jitter_spec((data.coord.cx * 32 + tx) as i32, (data.coord.cy * 32 + ty) as i32, seed, tile),
    )
}

/// The ore overlay of a tile, where it holds ore with something left.
pub open spec fn ore_overlay_spec(data: SimChunkData, tx: i32, ty: i32) -> Option<Seq<u8>> {
    let r = resource_at_spec(data, tx, ty);
    if r.kind != RES_NONE && r.amount > 0 {
        Some(resource_color_spec(r.kind))
    } else {
        None
    }
}

/// The structure overlay of a tile, where something is built on it.
pub open spec fn structure_overlay_spec(data: SimChunkData, tx: i32, ty: i32) -> Option<Seq<u8>> {
    let p = placed_at_spec(data, tx, ty);
    if p.kind != PLACED_NONE {
        Some(placed_color_spec(p.kind))
    } else {
        None
    }
}

/// The colours of one map pixel: its terrain, then the ore and structure
/// overlays that are blended over it, in that order.
#[derive(Debug, Clone, Copy)]
pub struct MapTileLayers {
    pub base: [u8; 4],
    pub ore: Option<[u8; 4]>,
    pub structure: Option<[u8; 4]>,
}

pub open spec fn color_view(o: Option<[u8; 4]>) -> Option<Seq<u8>> {
    match o {
        Some(c) => Some(c@),
        None => None,
    }
}

/// `l` holds the layers of the tile at `(tx, ty)`.
pub open spec fn layers_of(l: MapTileLayers, data: SimChunkData, tx: i32, ty: i32, seed: u64) -> bool {
    &&& l.base@ == base_color_spec(data, tx, ty, seed)
    &&& color_view(l.ore) == ore_overlay_spec(data, tx, ty)
    &&& color_view(l.structure) == structure_overlay_spec(data, tx, ty)
}

/// The chunk sits where the global coordinates of its tiles and of their
/// neighbours fit an `i32`.
pub open spec fn neighbours_addressable(data: SimChunkData) -> bool {
    &&& i32::MIN <= data.coord.cx * 32 - 1
    &&& data.coord.cx * 32 + 32 <= i32::MAX
    &&& i32::MIN <= data.coord.cy * 32 - 1
    &&& data.coord.cy * 32 + 32 <= i32::MAX
}

/// Checks `neighbours_addressable`.
pub fn has_addressable_neighbours(data: &SimChunkData) -> (b: bool)
    ensures
        b == neighbours_addressable(*data),
{
    let cx = data.coord.cx as i64;
    let cy = data.coord.cy as i64;
    cx * 32 - 1 >= i32::MIN as i64 && cx * 32 + 32 <= i32::MAX as i64 && cy * 32 - 1 >= i32::MIN as i64 && cy * 32
        + 32 <= i32::MAX as i64
}

/// The layers of the tile at chunk-local `(tx, ty)`.
pub fn tile_layers(data: &SimChunkData, tx: i32, ty: i32, world_seed: u64) -> (l: MapTileLayers)
    requires
        0 <= tx < 32,
        0 <= ty < 32,
        neighbours_addressable(*data),
    ensures
        layers_of(l, *data, tx, ty, world_seed),
{
    let tile = tile_at(data, tx, ty, world_seed);
    let mut color = if tile == WATER_TILE {
        let shore = tile_at(data, tx - 1, ty, world_seed) != WATER_TILE || tile_at(data, tx + 1, ty, world_seed)
            != WATER_TILE || tile_at(data, tx, ty - 1, world_seed) != WATER_TILE || tile_at(
            data,
            tx,
            ty + 1,
            world_seed,
        ) != WATER_TILE;
        if shore {
            shallow_water_color()
        } else {
            tile_color(tile)
        }
    } else {
        tile_color(tile)
    };
    let gx = data.coord.cx * 32 + tx;
    let gy = data.coord.cy * 32 + ty;
    let jitter = tile_jitter(gx, gy, world_seed, tile);
    color = apply_jitter(color, jitter);
    let resource = resource_at(data, tx, ty);
    let ore = if resource.kind != RES_NONE && resource.amount > 0 {
        Some(resource_color(resource.kind))
    } else {
        None
    };
    let placed = placed_at(data, tx, ty);
    let structure = if placed.kind != PLACED_NONE {
        Some(placed_color(placed.kind))
    } else {
        None
    };
    MapTileLayers { base: color, ore, structure }
}

/// The layers of every map pixel of a chunk, row by row from the top row
/// (the chunk's highest `ty`) down, each row from `tx` 0 to 31.
pub fn map_tile_layers(data: &SimChunkData, world_seed: u64) -> (out: Vec<MapTileLayers>)
    requires
        neighbours_addressable(*data),
    ensures
        out@.len() == 1024,
        forall|row: int, tx: int|
            0 <= row < 32 && 0 <= tx < 32 ==> layers_of(
                #[trigger] out@[row * 32 + tx],
                *data,
                tx as i32,
                (31 - row) as i32,
                world_seed,
            ),
{
    let mut out: Vec<MapTileLayers> = Vec::new();
    let mut row: usize = 0;
    while row < 32
        invariant
            0 <= row <= 32,
            neighbours_addressable(*data),
            out@.len() == row * 32,
            forall|r: int, tx: int|
                0 <= r < row && 0 <= tx < 32 ==> layers_of(
                    #[trigger] out@[r * 32 + tx],
                    *data,
                    tx as i32,
                    (31 - r) as i32,
                    world_seed,
                ),
        decreases 32 - row,
    {
        let ty = (31 - row) as i32;
        let mut tx: usize = 0;
        while tx < 32
            invariant
                0 <= row < 32,
                0 <= tx <= 32,
                ty == 31 - row,
                neighbours_addressable(*data),
                out@.len() == row * 32 + tx,
                forall|r: int, x: int|
                    0 <= r < row && 0 <= x < 32 ==> layers_of(
                        #[trigger] out@[r * 32 + x],
                        *data,
                        x as i32,
                        (31 - r) as i32,
                        world_seed,
                    ),
                forall|x: int|
                    0 <= x < tx ==> layers_of(#[trigger] out@[row * 32 + x], *data, x as i32, ty, world_seed),
            decreases 32 - tx,
        {
            let l = tile_layers(data, tx as i32, ty, world_seed);
            let ghost before = out@;
            out.push(l);
            proof {
                assert forall|r: int, x: int| 0 <= r < row && 0 <= x < 32 implies layers_of(
                    #[trigger] out@[r * 32 + x],
                    *data,
                    x as i32,
                    (31 - r) as i32,
                    world_seed,
                ) by {
                    assert(r * 32 + x < row * 32) by (nonlinear_arith)
                        requires
                            0 <= r < row,
                            0 <= x < 32,
                    ;
                    assert(out@[r * 32 + x] == before[r * 32 + x]);
                }
                assert forall|x: int| 0 <= x < tx + 1 implies layers_of(
                    #[trigger] out@[row * 32 + x],
                    *data,
                    x as i32,
                    ty,
                    world_seed,
                ) by {
                    if x < tx {
                        assert(out@[row * 32 + x] == before[row * 32 + x]);
                    }
                }
            }
            tx = tx + 1;
        }
        row = row + 1;
    }
    out
}

} // verus!
