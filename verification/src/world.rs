//! Chunk geometry and the plain records that make up a chunk.
use vstd::prelude::*;
use crate::containers::{
    AlembicRecord, ChestRecord, CrucibleRecord, DrillRecord, FurnaceRecord, InserterDirection, InserterRecord, Slot,
};

verus! {

pub type TileId = u16;

pub type ResourceId = u8;

pub type PlacedId = u8;

pub type ObjectId = u64;

pub type ChunkLayer = u8;

pub type EntityKind = u16;

/// Tiles along one edge of a square chunk.
pub const CHUNK_EDGE: u16 = 32;

/// Tiles in one chunk (`CHUNK_EDGE * CHUNK_EDGE`).
pub const CHUNK_TILE_COUNT: usize = 1024;

pub const RES_NONE: ResourceId = 0;

pub const RES_IRON: ResourceId = 1;

pub const RES_COPPER: ResourceId = 2;

pub const RES_COAL: ResourceId = 3;

pub const RES_STONE: ResourceId = 4;

pub const PLACED_NONE: PlacedId = 0;

pub const PLACED_FURNACE: PlacedId = 1;

pub const PLACED_CHEST: PlacedId = 2;

pub const PLACED_INSERTER: PlacedId = 3;

pub const PLACED_MINING_DRILL: PlacedId = 4;

pub const PLACED_ALEMBIC: PlacedId = 5;

pub const PLACED_CRUCIBLE: PlacedId = 6;

/// Position of a chunk in chunk units.
#[derive(Debug, Clone, Copy, PartialEq, Eq, Hash, Structural)]
pub struct ChunkCoord {
    pub cx: i32,
    pub cy: i32,
}

impl ChunkCoord {
    pub fn new(cx: i32, cy: i32) -> (c: ChunkCoord)
        ensures
            c.cx == cx,
            c.cy == cy,
    {
        ChunkCoord { cx, cy }
    }
}

/// Floor division and its non-negative remainder by the chunk edge.
pub open spec fn chunk_split(t: int) -> (int, int) {
    (t / (CHUNK_EDGE as int), t % (CHUNK_EDGE as int))
}

fn split_axis(t: i32) -> (res: (i32, i32))
    ensures
        res.0 * 32 + res.1 == t,
        0 <= res.1 < 32,
        res.0 == chunk_split(t as int).0,
        res.1 == chunk_split(t as int).1,
{
    if t >= 0 {
        let q = t / 32;
        let r = t % 32;
        (q, r)
    } else {
        let n: i32 = -(t + 1);
        let q: i32 = -(n / 32) - 1;
        let r: i32 = 31 - n % 32;
        assert(q * 32 + r == t);
        (q, r)
    }
}

/// Splits a global tile position into its chunk and the tile's place inside it.
pub fn tile_to_chunk_local(tile_x: i32, tile_y: i32) -> (res: (ChunkCoord, i32, i32))
    ensures
        res.0.cx * 32 + res.1 == tile_x,
        res.0.cy * 32 + res.2 == tile_y,
        0 <= res.1 < 32,
        0 <= res.2 < 32,
        res.1 == chunk_split(tile_x as int).1,
        res.2 == chunk_split(tile_y as int).1,
        res.0.cx == chunk_split(tile_x as int).0,
        res.0.cy == chunk_split(tile_y as int).0,
{
    let (cx, lx) = split_axis(tile_x);
    let (cy, ly) = split_axis(tile_y);
    (ChunkCoord::new(cx, cy), lx, ly)
}


/// A free-standing entity inside a chunk, positioned in chunk-local tiles.
#[derive(Debug, Clone, Copy, PartialEq, Eq)]
pub struct Entity {
    pub id: u32,
    pub kind: EntityKind,
    pub x: u16,
    pub y: u16,
}

/// The ore deposit on one tile.
#[derive(Debug, Clone, Copy, PartialEq, Eq, Structural)]
pub struct ResourceCell {
    pub kind: ResourceId,
    pub amount: u16,
}

/// The structure placed on one tile, if any.
#[derive(Debug, Clone, Copy, PartialEq, Eq, Structural)]
pub struct PlacedCell {
    pub kind: PlacedId,
    pub object_id: ObjectId,
}

pub open spec fn no_resource() -> ResourceCell {
    ResourceCell { kind: RES_NONE, amount: 0 }
}

pub open spec fn nothing_placed() -> PlacedCell {
    PlacedCell { kind: PLACED_NONE, object_id: 0 }
}

/// All simulation state of one chunk. Per-tile vectors are in row-major
/// order, `y * CHUNK_EDGE + x`.
#[derive(Debug, Clone, PartialEq, Eq)]
pub struct SimChunkData {
    pub coord: ChunkCoord,
    pub layer: ChunkLayer,
    pub tiles: Vec<TileId>,
    pub resources: Vec<ResourceCell>,
    pub placed: Vec<PlacedCell>,
    pub chests: Vec<ChestRecord>,
    pub furnaces: Vec<FurnaceRecord>,
    pub inserters: Vec<InserterRecord>,
    pub drills: Vec<DrillRecord>,
    pub alembics: Vec<AlembicRecord>,
    pub crucibles: Vec<CrucibleRecord>,
    pub entities: Vec<Entity>,
    pub saved_tick: u64,
}

/// A chest as plain values: its id and its slots in order.
pub struct ChestModel {
    pub object_id: ObjectId,
    pub slots: Seq<Slot>,
}

/// An inserter as plain values: its id, facing and buffer slots in order.
pub struct InserterModel {
    pub object_id: ObjectId,
    pub direction: InserterDirection,
    pub slots: Seq<Slot>,
}

pub open spec fn chest_model(c: ChestRecord) -> ChestModel {
    ChestModel { object_id: c.object_id, slots: c.inv.slots@ }
}

pub open spec fn inserter_model(i: InserterRecord) -> InserterModel {
    InserterModel { object_id: i.object_id, direction: i.direction, slots: i.inv.slots@ }
}

/// A chunk as plain values.
pub struct ChunkModel {
    pub coord: ChunkCoord,
    pub layer: ChunkLayer,
    pub tiles: Seq<TileId>,
    pub resources: Seq<ResourceCell>,
    pub placed: Seq<PlacedCell>,
    pub chests: Seq<ChestModel>,
    pub furnaces: Seq<FurnaceRecord>,
    pub inserters: Seq<InserterModel>,
    pub drills: Seq<DrillRecord>,
    pub alembics: Seq<AlembicRecord>,
    pub crucibles: Seq<CrucibleRecord>,
    pub entities: Seq<Entity>,
    pub saved_tick: u64,
}

impl View for SimChunkData {
    type V = ChunkModel;

    open spec fn view(&self) -> ChunkModel {
        ChunkModel {
            coord: self.coord,
            layer: self.layer,
            tiles: self.tiles@,
            resources: self.resources@,
            placed: self.placed@,
            chests: self.chests@.map_values(|c: ChestRecord| chest_model(c)),
            furnaces: self.furnaces@,
            inserters: self.inserters@.map_values(|i: InserterRecord| inserter_model(i)),
            drills: self.drills@,
            alembics: self.alembics@,
            crucibles: self.crucibles@,
            entities: self.entities@,
            saved_tick: self.saved_tick,
        }
    }
}

/// A borrowed view of a chunk, as handed to an encoder.
pub struct SimChunkView<'a> {
    pub coord: ChunkCoord,
    pub layer: ChunkLayer,
    pub tiles: &'a [TileId],
    pub resources: &'a [ResourceCell],
    pub placed: &'a [PlacedCell],
    pub chests: &'a [ChestRecord],
    pub furnaces: &'a [FurnaceRecord],
    pub inserters: &'a [InserterRecord],
    pub drills: &'a [DrillRecord],
    pub entities: &'a [Entity],
}

impl<'a> SimChunkView<'a> {
    /// The viewed chunk as plain values, stamped with `tick`.
    pub open spec fn model_at(&self, tick: u64) -> ChunkModel {
        ChunkModel {
            coord: self.coord,
            layer: self.layer,
            tiles: self.tiles@,
            resources: self.resources@,
            placed: self.placed@,
            chests: self.chests@.map_values(|c: ChestRecord| chest_model(c)),
            furnaces: self.furnaces@,
            inserters: self.inserters@.map_values(|i: InserterRecord| inserter_model(i)),
            drills: self.drills@,
            alembics: seq![],
            crucibles: seq![],
            entities: self.entities@,
            saved_tick: tick,
        }
    }

    pub fn from_data(data: &'a SimChunkData) -> (v: SimChunkView<'a>)
        ensures
            v.coord == data.coord,
            v.layer == data.layer,
            v.tiles@ == data.tiles@,
            v.resources@ == data.resources@,
            v.placed@ == data.placed@,
            v.chests@ == data.chests@,
            v.furnaces@ == data.furnaces@,
            v.inserters@ == data.inserters@,
            v.drills@ == data.drills@,
            v.entities@ == data.entities@,
    {
        SimChunkView {
            coord: data.coord,
            layer: data.layer,
            tiles: data.tiles.as_slice(),
            resources: data.resources.as_slice(),
            placed: data.placed.as_slice(),
            chests: data.chests.as_slice(),
            furnaces: data.furnaces.as_slice(),
            inserters: data.inserters.as_slice(),
            drills: data.drills.as_slice(),
            entities: data.entities.as_slice(),
        }
    }
}


/// A vector of `n` copies of `elem`.
pub(crate) fn filled<T: Copy>(elem: T, n: usize) -> (v: Vec<T>)
    ensures
        v@ == Seq::new(n as nat, |i: int| elem),
{
    let mut v: Vec<T> = Vec::new();
    let mut i: usize = 0;
    while i < n
        invariant
            0 <= i <= n,
            v@ == Seq::new(i as nat, |k: int| elem),
        decreases n - i,
    {
        v.push(elem);
        proof {
            assert(v@ =~= Seq::new((i + 1) as nat, |k: int| elem));
        }
        i = i + 1;
    }
    v
}

/// The chunk's tiles reach global coordinates that ore placement supports:
/// its origin `coord * CHUNK_EDGE` and far corner stay within those bounds.
pub open spec fn chunk_in_bounds(coord: ChunkCoord) -> bool {
    &&& -2147483553 <= coord.cx * 32
    &&& coord.cx * 32 + 31 <= 2147483561
    &&& -2147483553 <= coord.cy * 32
    &&& coord.cy * 32 + 31 <= 2147483561
}

/// Whether ore placement supports the chunk at `coord`.
pub fn chunk_within_bounds(coord: ChunkCoord) -> (b: bool)
    ensures
        b == chunk_in_bounds(coord),
{
    let x = coord.cx as i64 * 32;
    let y = coord.cy as i64 * 32;
    -2147483553 <= x && x + 31 <= 2147483561 && -2147483553 <= y && y + 31 <= 2147483561
}

/// Global x of row-major tile index `idx` in the chunk at `coord`.
pub open spec fn global_x(coord: ChunkCoord, idx: int) -> int {
    coord.cx * 32 + idx % 32
}

/// Global y of row-major tile index `idx` in the chunk at `coord`.
pub open spec fn global_y(coord: ChunkCoord, idx: int) -> int {
    coord.cy * 32 + idx / 32
}

} // verus!
