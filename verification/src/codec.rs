//! The binary chunk format: a 31-byte header followed by a payload of
//! length-prefixed sections. Version 7 is written; versions 1 to 7 are read.
use vstd::prelude::*;
use crate::containers::{
    ChestRecord, ContainerInv, InserterInv, InserterRecord, DrillRecord, DrillState, FurnaceRecord, FurnaceState, InserterDirection, Slot,
};
use crate::errors::StorageError;
use crate::text::{decimal, push_decimal, text_with_number};
use vstd::slice::slice_subrange;
use crate::wire::{lemma_concat_map_fixed, lemma_le_round_trip, put_u16, put_u32, put_u64, concat_map, le16, le32, le64, read_u16, read_u32, read_u64, u16_at, u32_at, u64_at};
use crate::world::{
    SimChunkView,
    filled, SimChunkData,
    nothing_placed, no_resource, ChestModel, ChunkCoord, ChunkLayer, ChunkModel, Entity,
    InserterModel, PlacedCell, ResourceCell, TileId, chest_model, inserter_model,
};

verus! {

/// The format version this codec writes.
pub const FORMAT_VERSION: u16 = 7;

/// Bytes in the chunk header.
pub const HEADER_LEN: usize = 31;

/// Why a byte sequence is not a chunk this codec reads.
#[derive(Debug, Clone, Copy, PartialEq, Eq, Structural)]
pub enum DecodeFault {
    BadMagic,
    UnexpectedEnd,
    UnsupportedVersion(u16),
    SchemaMismatch { expected: u16, found: u16 },
    UnsupportedFlags(u16),
    PayloadLengthMismatch,
    TileCount(u32),
    EntityCountTooLarge,
    EntityOutOfBounds,
    ResourceCount(u32),
    ResourceCountTooLarge,
    PlacedCount(u32),
    PlacedCountTooLarge,
    ChestCountTooLarge,
    FurnaceCountTooLarge,
    InserterCountTooLarge,
    InvalidDirection(u8),
    DrillCountTooLarge,
    TrailingBytes,
}

/// The four bytes `CHNK` that open every chunk.
pub open spec fn magic() -> Seq<u8> {
    seq![67u8, 72u8, 78u8, 75u8]
}

// ---- record encodings ----

pub open spec fn slot_bytes(s: Slot) -> Seq<u8> {
    le16(s.item) + le32(s.count)
}

pub open spec fn slots_bytes(s: Seq<Slot>) -> Seq<u8> {
    concat_map(s, |x: Slot| slot_bytes(x))
}

pub open spec fn entity_bytes(e: Entity) -> Seq<u8> {
    le32(e.id) + le16(e.kind) + le16(e.x) + le16(e.y)
}

pub open spec fn resource_bytes(r: ResourceCell) -> Seq<u8> {
    seq![r.kind] + le16(r.amount)
}

pub open spec fn placed_bytes(p: PlacedCell) -> Seq<u8> {
    seq![p.kind] + le64(p.object_id)
}

pub open spec fn chest_bytes(c: ChestModel) -> Seq<u8> {
    le64(c.object_id) + slots_bytes(c.slots)
}

pub open spec fn furnace_bytes(f: FurnaceRecord) -> Seq<u8> {
    le64(f.object_id) + slot_bytes(f.state.input) + slot_bytes(f.state.fuel) + slot_bytes(
        f.state.output,
    ) + le16(f.state.progress)
}

pub open spec fn inserter_bytes(i: InserterModel) -> Seq<u8> {
    le64(i.object_id) + seq![i.direction.code_spec()] + slots_bytes(i.slots)
}

pub open spec fn drill_bytes(d: DrillRecord) -> Seq<u8> {
    le64(d.object_id) + slot_bytes(d.state.fuel) + slot_bytes(d.state.output) + le16(
        d.state.progress,
    )
}

pub open spec fn tiles_bytes(s: Seq<TileId>) -> Seq<u8> {
    concat_map(s, |t: TileId| le16(t))
}

pub open spec fn entities_bytes(s: Seq<Entity>) -> Seq<u8> {
    concat_map(s, |e: Entity| entity_bytes(e))
}

pub open spec fn resources_bytes(s: Seq<ResourceCell>) -> Seq<u8> {
    concat_map(s, |r: ResourceCell| resource_bytes(r))
}

pub open spec fn placed_section_bytes(s: Seq<PlacedCell>) -> Seq<u8> {
    concat_map(s, |p: PlacedCell| placed_bytes(p))
}

pub open spec fn chests_bytes(s: Seq<ChestModel>) -> Seq<u8> {
    concat_map(s, |c: ChestModel| chest_bytes(c))
}

pub open spec fn furnaces_bytes(s: Seq<FurnaceRecord>) -> Seq<u8> {
    concat_map(s, |f: FurnaceRecord| furnace_bytes(f))
}

pub open spec fn inserters_bytes(s: Seq<InserterModel>) -> Seq<u8> {
    concat_map(s, |i: InserterModel| inserter_bytes(i))
}

pub open spec fn drills_bytes(s: Seq<DrillRecord>) -> Seq<u8> {
    concat_map(s, |d: DrillRecord| drill_bytes(d))
}

/// The version 7 payload of a chunk: each section is a `u32` count followed
/// by its fixed-width records.
pub open spec fn payload_bytes(m: ChunkModel) -> Seq<u8> {
    le32(m.tiles.len() as u32) + tiles_bytes(m.tiles) + le32(m.entities.len() as u32) + entities_bytes(
        m.entities,
    ) + le32(m.resources.len() as u32) + resources_bytes(m.resources) + le32(m.placed.len() as u32)
        + placed_section_bytes(m.placed) + le32(m.chests.len() as u32) + chests_bytes(m.chests)
        + le32(m.furnaces.len() as u32) + furnaces_bytes(m.furnaces) + le32(m.inserters.len() as u32)
        + inserters_bytes(m.inserters) + le32(m.drills.len() as u32) + drills_bytes(m.drills)
}

/// The header of a chunk whose payload is `payload_len` bytes long.
pub open spec fn header_bytes(schema: u16, m: ChunkModel, payload_len: u32) -> Seq<u8> {
    magic() + le16(FORMAT_VERSION) + le16(schema) + le16(0) + le32(m.coord.cx as u32) + le32(
        m.coord.cy as u32,
    ) + seq![m.layer] + le64(m.saved_tick) + le32(payload_len)
}

/// A whole encoded chunk.
pub open spec fn encode_spec(schema: u16, m: ChunkModel) -> Seq<u8> {
    header_bytes(schema, m, payload_bytes(m).len() as u32) + payload_bytes(m)
}

// ---- record decodings ----

pub open spec fn slot_from(c: Seq<u8>) -> Slot {
    Slot { item: u16_at(c, 0), count: u32_at(c, 2) }
}

pub open spec fn slots_from(c: Seq<u8>, n: nat) -> Seq<Slot> {
    Seq::new(n, |j: int| slot_from(c.subrange(6 * j, 6 * j + 6)))
}

pub open spec fn entity_from(c: Seq<u8>) -> Entity {
    Entity { id: u32_at(c, 0), kind: u16_at(c, 4), x: u16_at(c, 6), y: u16_at(c, 8) }
}

pub open spec fn resource_from(c: Seq<u8>) -> ResourceCell {
    ResourceCell { kind: c[0], amount: u16_at(c, 1) }
}

pub open spec fn placed_from(c: Seq<u8>, with_id: bool) -> PlacedCell {
    PlacedCell { kind: c[0], object_id: if with_id { u64_at(c, 1) } else { 0 } }
}

pub open spec fn chest_from(c: Seq<u8>) -> ChestModel {
    ChestModel { object_id: u64_at(c, 0), slots: slots_from(c.subrange(8, 104), 16) }
}

pub open spec fn furnace_from(c: Seq<u8>) -> FurnaceRecord {
    FurnaceRecord {
        object_id: u64_at(c, 0),
        state: FurnaceState {
            input: slot_from(c.subrange(8, 14)),
            fuel: slot_from(c.subrange(14, 20)),
            output: slot_from(c.subrange(20, 26)),
            progress: u16_at(c, 26),
        },
    }
}

/// An inserter record; older records carry no direction byte and face right.
pub open spec fn inserter_from(c: Seq<u8>, with_direction: bool) -> InserterModel {
    if with_direction {
        InserterModel {
            object_id: u64_at(c, 0),
            direction: InserterDirection::from_code_spec(c[8]).unwrap(),
            slots: slots_from(c.subrange(9, 33), 4),
        }
    } else {
        InserterModel {
            object_id: u64_at(c, 0),
            direction: InserterDirection::Right,
            slots: slots_from(c.subrange(8, 32), 4),
        }
    }
}

pub open spec fn drill_from(c: Seq<u8>) -> DrillRecord {
    DrillRecord {
        object_id: u64_at(c, 0),
        state: DrillState {
            fuel: slot_from(c.subrange(8, 14)),
            output: slot_from(c.subrange(14, 20)),
            progress: u16_at(c, 20),
        },
    }
}

/// The `i`th record of width `k` of a section whose records start at `start`.
pub open spec fn record(b: Seq<u8>, start: int, k: int, i: int) -> Seq<u8> {
    b.subrange(start + k * i, start + k * i + k)
}

/// A count of records of width `k` is refused when the bytes after the count
/// cannot hold that many.
pub open spec fn count_too_large(n: int, remaining: int, k: int) -> bool {
    n > 0 && n > remaining / k
}

pub open spec fn entity_in_bounds(e: Entity) -> bool {
    e.x < 32 && e.y < 32
}


// ---- section parsers: each reads one section starting at `pos` ----

pub open spec fn parse_tiles(b: Seq<u8>, pos: int) -> Result<(Seq<TileId>, int), DecodeFault> {
    if pos + 4 > b.len() {
        Err(DecodeFault::UnexpectedEnd)
    } else if u32_at(b, pos) != 1024 {
        Err(DecodeFault::TileCount(u32_at(b, pos)))
    } else if pos + 4 + 2048 > b.len() {
        Err(DecodeFault::UnexpectedEnd)
    } else {
        Ok((Seq::new(1024, |i: int| u16_at(b, pos + 4 + 2 * i)), pos + 4 + 2048))
    }
}

/// `n` entity records starting at `start`.
pub open spec fn entities_at(b: Seq<u8>, start: int, n: nat) -> Seq<Entity> {
    Seq::new(n, |i: int| entity_from(record(b, start, 10, i)))
}

pub open spec fn parse_entities(b: Seq<u8>, pos: int) -> Result<(Seq<Entity>, int), DecodeFault> {
    if pos + 4 > b.len() {
        Err(DecodeFault::UnexpectedEnd)
    } else {
        let n = u32_at(b, pos) as int;
        let start = pos + 4;
        if count_too_large(n, b.len() - start, 12) {
            Err(DecodeFault::EntityCountTooLarge)
        } else {
            let es = entities_at(b, start, n as nat);
            if exists|i: int| 0 <= i < n && !entity_in_bounds(#[trigger] es[i]) {
                Err(DecodeFault::EntityOutOfBounds)
            } else {
                Ok((es, start + 10 * n))
            }
        }
    }
}

pub open spec fn parse_resources(b: Seq<u8>, pos: int) -> Result<(Seq<ResourceCell>, int), DecodeFault> {
    if pos + 4 > b.len() {
        Err(DecodeFault::UnexpectedEnd)
    } else if u32_at(b, pos) != 1024 {
        Err(DecodeFault::ResourceCount(u32_at(b, pos)))
    } else if count_too_large(1024, b.len() - (pos + 4), 3) {
        Err(DecodeFault::ResourceCountTooLarge)
    } else {
        Ok((Seq::new(1024, |i: int| resource_from(record(b, pos + 4, 3, i))), pos + 4 + 3072))
    }
}

/// Placement records are one byte (kind only) before version 4 and nine
/// bytes (kind and object id) from version 4 on.
pub open spec fn placed_width(with_id: bool) -> int {
    if with_id {
        9
    } else {
        1
    }
}

pub open spec fn parse_placed(b: Seq<u8>, pos: int, with_id: bool) -> Result<(Seq<PlacedCell>, int), DecodeFault> {
    let k = placed_width(with_id);
    if pos + 4 > b.len() {
        Err(DecodeFault::UnexpectedEnd)
    } else if u32_at(b, pos) != 1024 {
        Err(DecodeFault::PlacedCount(u32_at(b, pos)))
    } else if count_too_large(1024, b.len() - (pos + 4), k) {
        Err(DecodeFault::PlacedCountTooLarge)
    } else {
        Ok((Seq::new(1024, |i: int| placed_from(record(b, pos + 4, k, i), with_id)), pos + 4 + 1024 * k))
    }
}

pub open spec fn parse_chests(b: Seq<u8>, pos: int) -> Result<(Seq<ChestModel>, int), DecodeFault> {
    if pos + 4 > b.len() {
        Err(DecodeFault::UnexpectedEnd)
    } else {
        let n = u32_at(b, pos) as int;
        if count_too_large(n, b.len() - (pos + 4), 104) {
            Err(DecodeFault::ChestCountTooLarge)
        } else {
            Ok((Seq::new(n as nat, |i: int| chest_from(record(b, pos + 4, 104, i))), pos + 4 + 104 * n))
        }
    }
}

pub open spec fn parse_furnaces(b: Seq<u8>, pos: int) -> Result<(Seq<FurnaceRecord>, int), DecodeFault> {
    if pos + 4 > b.len() {
        Err(DecodeFault::UnexpectedEnd)
    } else {
        let n = u32_at(b, pos) as int;
        if count_too_large(n, b.len() - (pos + 4), 28) {
            Err(DecodeFault::FurnaceCountTooLarge)
        } else {
            Ok((Seq::new(n as nat, |i: int| furnace_from(record(b, pos + 4, 28, i))), pos + 4 + 28 * n))
        }
    }
}

/// Inserter records are 33 bytes with a direction byte (version 6 on) and
/// 32 bytes without it (version 5).
pub open spec fn inserter_width(with_direction: bool) -> int {
    if with_direction {
        33
    } else {
        32
    }
}

/// The `i`th inserter record holds a byte that names no direction.
pub open spec fn bad_direction_at(b: Seq<u8>, start: int, i: int) -> bool {
    InserterDirection::from_code_spec(b[start + 33 * i + 8]) is None
}

pub open spec fn parse_inserters(b: Seq<u8>, pos: int, with_direction: bool) -> Result<(Seq<InserterModel>, int), DecodeFault> {
    let k = inserter_width(with_direction);
    if pos + 4 > b.len() {
        Err(DecodeFault::UnexpectedEnd)
    } else {
        let n = u32_at(b, pos) as int;
        let start = pos + 4;
        if count_too_large(n, b.len() - start, k) {
            Err(DecodeFault::InserterCountTooLarge)
        } else if with_direction && exists|i: int| 0 <= i < n && #[trigger] bad_direction_at(b, start, i) {
            let i = choose|i: int|
                0 <= i < n && #[trigger] bad_direction_at(b, start, i) && forall|j: int|
                    0 <= j < i ==> !bad_direction_at(b, start, j);
            Err(DecodeFault::InvalidDirection(b[start + 33 * i + 8]))
        } else {
            Ok((Seq::new(n as nat, |i: int| inserter_from(record(b, start, k, i), with_direction)), start + k * n))
        }
    }
}

pub open spec fn parse_drills(b: Seq<u8>, pos: int) -> Result<(Seq<DrillRecord>, int), DecodeFault> {
    if pos + 4 > b.len() {
        Err(DecodeFault::UnexpectedEnd)
    } else {
        let n = u32_at(b, pos) as int;
        if count_too_large(n, b.len() - (pos + 4), 22) {
            Err(DecodeFault::DrillCountTooLarge)
        } else {
            Ok((Seq::new(n as nat, |i: int| drill_from(record(b, pos + 4, 22, i))), pos + 4 + 22 * n))
        }
    }
}

/// A parsed payload must end exactly where the bytes do.
pub open spec fn finish(b: Seq<u8>, pos: int, m: ChunkModel) -> Result<ChunkModel, DecodeFault> {
    if pos != b.len() {
        Err(DecodeFault::TrailingBytes)
    } else {
        Ok(m)
    }
}

/// The chunk a payload of format `version` describes. Sections missing from
/// older versions read as no ore, nothing placed and no containers.
pub open spec fn parse_payload(
    b: Seq<u8>,
    version: u16,
    coord: ChunkCoord,
    layer: ChunkLayer,
    saved_tick: u64,
) -> Result<ChunkModel, DecodeFault> {
    let base = ChunkModel {
        coord,
        layer,
        tiles: seq![],
        resources: Seq::new(1024, |i: int| no_resource()),
        placed: Seq::new(1024, |i: int| nothing_placed()),
        chests: seq![],
        furnaces: seq![],
        inserters: seq![],
        drills: seq![],
        alembics: seq![],
        crucibles: seq![],
        entities: seq![],
        saved_tick,
    };
    match parse_tiles(b, 0) {
        Err(e) => Err(e),
        Ok((tiles, p1)) => match parse_entities(b, p1) {
            Err(e) => Err(e),
            Ok((entities, p2)) => {
                let m1 = ChunkModel { tiles, entities, ..base };
                if version == 1 {
                    finish(b, p2, m1)
                } else {
                    match parse_resources(b, p2) {
                        Err(e) => Err(e),
                        Ok((resources, p3)) => {
                            let m2 = ChunkModel { resources, ..m1 };
                            if version == 2 {
                                finish(b, p3, m2)
                            } else {
                                match parse_placed(b, p3, version >= 4) {
                                    Err(e) => Err(e),
                                    Ok((placed, p4)) => {
                                        let m3 = ChunkModel { placed, ..m2 };
                                        if version == 3 {
                                            finish(b, p4, m3)
                                        } else {
                                            parse_containers(b, p4, version, m3)
                                        }
                                    },
                                }
                            }
                        },
                    }
                }
            },
        },
    }
}

/// The container sections of a version 4 to 7 payload.
pub open spec fn parse_containers(b: Seq<u8>, pos: int, version: u16, m: ChunkModel) -> Result<ChunkModel, DecodeFault> {
    match parse_chests(b, pos) {
        Err(e) => Err(e),
        Ok((chests, p5)) => match parse_furnaces(b, p5) {
            Err(e) => Err(e),
            Ok((furnaces, p6)) => {
                let m4 = ChunkModel { chests, furnaces, ..m };
                if version == 4 {
                    finish(b, p6, m4)
                } else {
                    match parse_inserters(b, p6, version >= 6) {
                        Err(e) => Err(e),
                        Ok((inserters, p7)) => {
                            let m5 = ChunkModel { inserters, ..m4 };
                            if version <= 6 {
                                finish(b, p7, m5)
                            } else {
                                match parse_drills(b, p7) {
                                    Err(e) => Err(e),
                                    Ok((drills, p8)) => finish(b, p8, ChunkModel { drills, ..m5 }),
                                }
                            }
                        },
                    }
                }
            },
        },
    }
}

/// What decoding `b` with game schema `schema` yields: the header is checked
/// field by field (magic, a format version from 1 to 7, the schema, zero
/// flags, and a payload length equal to the bytes that follow), then the
/// payload is read according to its version.
pub open spec fn decode_spec(schema: u16, b: Seq<u8>) -> Result<ChunkModel, DecodeFault> {
    if b.len() < 4 {
        Err(DecodeFault::UnexpectedEnd)
    } else if b.subrange(0, 4) != magic() {
        Err(DecodeFault::BadMagic)
    } else if b.len() < 6 {
        Err(DecodeFault::UnexpectedEnd)
    } else if !(1 <= u16_at(b, 4) <= 7) {
        Err(DecodeFault::UnsupportedVersion(u16_at(b, 4)))
    } else if b.len() < 8 {
        Err(DecodeFault::UnexpectedEnd)
    } else if u16_at(b, 6) != schema {
        Err(DecodeFault::SchemaMismatch { expected: schema, found: u16_at(b, 6) })
    } else if b.len() < 10 {
        Err(DecodeFault::UnexpectedEnd)
    } else if u16_at(b, 8) != 0 {
        Err(DecodeFault::UnsupportedFlags(u16_at(b, 8)))
    } else if b.len() < 31 {
        Err(DecodeFault::UnexpectedEnd)
    } else if b.len() - 31 != u32_at(b, 27) {
        Err(DecodeFault::PayloadLengthMismatch)
    } else {
        parse_payload(
            b.subrange(31, b.len() as int),
            u16_at(b, 4),
            ChunkCoord { cx: u32_at(b, 10) as i32, cy: u32_at(b, 14) as i32 },
            b[18],
            u64_at(b, 19),
        )
    }
}


// ---- reading ----

/// The exec result of reading a section agrees with the section parser.
pub open spec fn agrees<T>(r: Result<(Vec<T>, usize), DecodeFault>, s: Result<(Seq<T>, int), DecodeFault>) -> bool {
    match s {
        Ok((m, p)) => match r {
            Ok((v, q)) => v@ == m && q == p,
            Err(_) => false,
        },
        Err(e) => match r {
            Ok(_) => false,
            Err(f) => f == e,
        },
    }
}

proof fn lemma_sub_sub(b: Seq<u8>, p: int, q: int, i: int, j: int)
    requires
        0 <= p <= q <= b.len(),
        0 <= i <= j <= q - p,
    ensures
        b.subrange(p, q).subrange(i, j) == b.subrange(p + i, p + j),
{
    assert(b.subrange(p, q).subrange(i, j) =~= b.subrange(p + i, p + j));
}

fn read_slot(b: &[u8], p: usize) -> (s: Slot)
    requires
        p + 6 <= b@.len(),
    ensures
        s == slot_from(b@.subrange(p as int, p + 6)),
{
    let _len = b.len();
    let item = read_u16(b, p);
    let count = read_u32(b, p + 2);
    proof {
        lemma_sub_sub(b@, p as int, p + 6, 0, 2);
        lemma_sub_sub(b@, p as int, p + 6, 2, 6);
    }
    Slot { item, count }
}

fn read_slots16(b: &[u8], p: usize) -> (inv: ContainerInv)
    requires
        p + 96 <= b@.len(),
    ensures
        inv.slots@ == slots_from(b@.subrange(p as int, p + 96), 16),
{
    let _len = b.len();
    let ghost c = b@.subrange(p as int, p + 96);
    let mut inv = ContainerInv::default();
    let mut j: usize = 0;
    while j < 16
        invariant
            0 <= j <= 16,
            p + 96 <= b@.len(),
            b@.len() <= usize::MAX,
            c == b@.subrange(p as int, p + 96),
            forall|k: int| 0 <= k < j ==> #[trigger] inv.slots@[k] == slot_from(c.subrange(6 * k, 6 * k + 6)),
        decreases 16 - j,
    {
        let s = read_slot(b, p + 6 * j);
        proof {
            lemma_sub_sub(b@, p as int, p + 96, 6 * j, 6 * j + 6);
        }
        inv.slots[j] = s;
        j = j + 1;
    }
    assert(inv.slots@ =~= slots_from(c, 16));
    inv
}

fn read_slots4(b: &[u8], p: usize) -> (inv: InserterInv)
    requires
        p + 24 <= b@.len(),
    ensures
        inv.slots@ == slots_from(b@.subrange(p as int, p + 24), 4),
{
    let _len = b.len();
    let ghost c = b@.subrange(p as int, p + 24);
    let mut inv = InserterInv::default();
    let mut j: usize = 0;
    while j < 4
        invariant
            0 <= j <= 4,
            p + 24 <= b@.len(),
            b@.len() <= usize::MAX,
            c == b@.subrange(p as int, p + 24),
            forall|k: int| 0 <= k < j ==> #[trigger] inv.slots@[k] == slot_from(c.subrange(6 * k, 6 * k + 6)),
        decreases 4 - j,
    {
        let s = read_slot(b, p + 6 * j);
        proof {
            lemma_sub_sub(b@, p as int, p + 24, 6 * j, 6 * j + 6);
        }
        inv.slots[j] = s;
        j = j + 1;
    }
    assert(inv.slots@ =~= slots_from(c, 4));
    inv
}

fn read_tiles(b: &[u8], pos: usize) -> (r: Result<(Vec<TileId>, usize), DecodeFault>)
    requires
        pos <= b@.len(),
    ensures
        agrees(r, parse_tiles(b@, pos as int)),
{
    let len = b.len();
    if len - pos < 4 {
        return Err(DecodeFault::UnexpectedEnd);
    }
    let n = read_u32(b, pos);
    if n != 1024 {
        return Err(DecodeFault::TileCount(n));
    }
    if len - pos - 4 < 2048 {
        return Err(DecodeFault::UnexpectedEnd);
    }
    let mut tiles: Vec<TileId> = Vec::new();
    let mut i: usize = 0;
    while i < 1024
        invariant
            0 <= i <= 1024,
            pos + 4 + 2048 <= b@.len(),
            b@.len() <= usize::MAX,
            tiles@ == Seq::new(i as nat, |k: int| u16_at(b@, pos + 4 + 2 * k)),
        decreases 1024 - i,
    {
        let t = read_u16(b, pos + 4 + 2 * i);
        tiles.push(t);
        proof {
            assert(tiles@ =~= Seq::new((i + 1) as nat, |k: int| u16_at(b@, pos + 4 + 2 * k)));
        }
        i = i + 1;
    }
    Ok((tiles, pos + 4 + 2048))
}

fn read_entities(b: &[u8], pos: usize) -> (r: Result<(Vec<Entity>, usize), DecodeFault>)
    requires
        pos <= b@.len(),
    ensures
        agrees(r, parse_entities(b@, pos as int)),
{
    let len = b.len();
    if len - pos < 4 {
        return Err(DecodeFault::UnexpectedEnd);
    }
    let n = read_u32(b, pos) as usize;
    let start = pos + 4;
    if n > 0 && n > (len - start) / 12 {
        return Err(DecodeFault::EntityCountTooLarge);
    }
    assert(12 * n <= len - start);
    let ghost es = entities_at(b@, start as int, n as nat);
    let mut out: Vec<Entity> = Vec::new();
    let mut i: usize = 0;
    while i < n
        invariant
            0 <= i <= n,
            start + 10 * n <= b@.len(),
            b@.len() <= usize::MAX,
            es == entities_at(b@, start as int, n as nat),
            n as int == u32_at(b@, pos as int) as int,
            start == pos + 4,
            !count_too_large(n as int, b@.len() - start, 12),
            out@ == es.take(i as int),
            forall|k: int| 0 <= k < i ==> entity_in_bounds(#[trigger] es[k]),
        decreases n - i,
    {
        let p = start + 10 * i;
        let id = read_u32(b, p);
        let kind = read_u16(b, p + 4);
        let x = read_u16(b, p + 6);
        let y = read_u16(b, p + 8);
        proof {
            lemma_sub_sub(b@, p as int, p + 10, 0, 4);
            lemma_sub_sub(b@, p as int, p + 10, 4, 6);
            lemma_sub_sub(b@, p as int, p + 10, 6, 8);
            lemma_sub_sub(b@, p as int, p + 10, 8, 10);
            assert(es[i as int] == Entity { id, kind, x, y });
        }
        if x >= 32 || y >= 32 {
            proof {
                let st: int = pos as int + 4;
                let nn: int = u32_at(b@, pos as int) as int;
                assert(nn == n as int);
                assert(!count_too_large(nn, b@.len() - st, 12));
                assert(!entity_in_bounds(entities_at(b@, st, nn as nat)[i as int]));
                assert(exists|q: int| 0 <= q < nn && !entity_in_bounds(#[trigger] entities_at(b@, st, nn as nat)[q]));
            }
            return Err(DecodeFault::EntityOutOfBounds);
        }
        out.push(Entity { id, kind, x, y });
        proof {
            assert(out@ =~= es.take(i + 1));
        }
        i = i + 1;
    }
    assert(out@ =~= es);
    Ok((out, start + 10 * n))
}

fn read_resources(b: &[u8], pos: usize) -> (r: Result<(Vec<ResourceCell>, usize), DecodeFault>)
    requires
        pos <= b@.len(),
    ensures
        agrees(r, parse_resources(b@, pos as int)),
{
    let len = b.len();
    if len - pos < 4 {
        return Err(DecodeFault::UnexpectedEnd);
    }
    let n = read_u32(b, pos);
    if n != 1024 {
        return Err(DecodeFault::ResourceCount(n));
    }
    let start = pos + 4;
    if 1024 > (len - start) / 3 {
        return Err(DecodeFault::ResourceCountTooLarge);
    }
    let ghost rs = Seq::new(1024, |i: int| resource_from(record(b@, start as int, 3, i)));
    let mut out: Vec<ResourceCell> = Vec::new();
    let mut i: usize = 0;
    while i < 1024
        invariant
            0 <= i <= 1024,
            start + 3072 <= b@.len(),
            b@.len() <= usize::MAX,
            rs == Seq::new(1024, |i: int| resource_from(record(b@, start as int, 3, i))),
            out@ == rs.take(i as int),
        decreases 1024 - i,
    {
        let p = start + 3 * i;
        let kind = b[p];
        let amount = read_u16(b, p + 1);
        proof {
            lemma_sub_sub(b@, p as int, p + 3, 1, 3);
            assert(rs[i as int] == ResourceCell { kind, amount });
        }
        out.push(ResourceCell { kind, amount });
        proof {
            assert(out@ =~= rs.take(i + 1));
        }
        i = i + 1;
    }
    assert(out@ =~= rs);
    Ok((out, start + 3072))
}

fn read_placed(b: &[u8], pos: usize, with_id: bool) -> (r: Result<(Vec<PlacedCell>, usize), DecodeFault>)
    requires
        pos <= b@.len(),
    ensures
        agrees(r, parse_placed(b@, pos as int, with_id)),
{
    let len = b.len();
    let k: usize = if with_id { 9 } else { 1 };
    if len - pos < 4 {
        return Err(DecodeFault::UnexpectedEnd);
    }
    let n = read_u32(b, pos);
    if n != 1024 {
        return Err(DecodeFault::PlacedCount(n));
    }
    let start = pos + 4;
    if 1024 > (len - start) / k {
        return Err(DecodeFault::PlacedCountTooLarge);
    }
    proof {
        let rem: int = (len - start) as int;
        let kk: int = k as int;
        assert(1024 * kk <= rem) by (nonlinear_arith)
            requires
                1024 <= rem / kk,
                kk == 9 || kk == 1,
                rem >= 0,
        ;
    }
    let ghost ps = Seq::new(1024, |i: int| placed_from(record(b@, start as int, k as int, i), with_id));
    let mut out: Vec<PlacedCell> = Vec::new();
    let mut i: usize = 0;
    while i < 1024
        invariant
            0 <= i <= 1024,
            k == placed_width(with_id),
            start + 1024 * k <= b@.len(),
            b@.len() <= usize::MAX,
            ps == Seq::new(1024, |i: int| placed_from(record(b@, start as int, k as int, i), with_id)),
            out@ == ps.take(i as int),
        decreases 1024 - i,
    {
        assert(k * i + k <= 1024 * k) by (nonlinear_arith)
            requires
                i < 1024,
        ;
        let p = start + k * i;
        let kind = b[p];
        let object_id: u64 = if with_id { read_u64(b, p + 1) } else { 0 };
        proof {
            if with_id {
                lemma_sub_sub(b@, p as int, p + 9, 1, 9);
            }
            assert(ps[i as int] == PlacedCell { kind, object_id });
        }
        out.push(PlacedCell { kind, object_id });
        proof {
            assert(out@ =~= ps.take(i + 1));
        }
        i = i + 1;
    }
    assert(out@ =~= ps);
    Ok((out, start + 1024 * k))
}


pub open spec fn agrees_chests(
    r: Result<(Vec<ChestRecord>, usize), DecodeFault>,
    s: Result<(Seq<ChestModel>, int), DecodeFault>,
) -> bool {
    match s {
        Ok((m, p)) => match r {
            Ok((v, q)) => v@.map_values(|c: ChestRecord| chest_model(c)) == m && q == p,
            Err(_) => false,
        },
        Err(e) => match r {
            Ok(_) => false,
            Err(f) => f == e,
        },
    }
}

pub open spec fn agrees_inserters(
    r: Result<(Vec<InserterRecord>, usize), DecodeFault>,
    s: Result<(Seq<InserterModel>, int), DecodeFault>,
) -> bool {
    match s {
        Ok((m, p)) => match r {
            Ok((v, q)) => v@.map_values(|i: InserterRecord| inserter_model(i)) == m && q == p,
            Err(_) => false,
        },
        Err(e) => match r {
            Ok(_) => false,
            Err(f) => f == e,
        },
    }
}

fn read_chests(b: &[u8], pos: usize) -> (r: Result<(Vec<ChestRecord>, usize), DecodeFault>)
    requires
        pos <= b@.len(),
    ensures
        agrees_chests(r, parse_chests(b@, pos as int)),
{
    let len = b.len();
    if len - pos < 4 {
        return Err(DecodeFault::UnexpectedEnd);
    }
    let n = read_u32(b, pos) as usize;
    let start = pos + 4;
    if n > 0 && n > (len - start) / 104 {
        return Err(DecodeFault::ChestCountTooLarge);
    }
    let ghost cs = Seq::new(n as nat, |i: int| chest_from(record(b@, start as int, 104, i)));
    let mut out: Vec<ChestRecord> = Vec::new();
    let mut i: usize = 0;
    while i < n
        invariant
            0 <= i <= n,
            start + 104 * n <= b@.len(),
            b@.len() <= usize::MAX,
            cs == Seq::new(n as nat, |i: int| chest_from(record(b@, start as int, 104, i))),
            out@.map_values(|c: ChestRecord| chest_model(c)) == cs.take(i as int),
        decreases n - i,
    {
        let p = start + 104 * i;
        let object_id = read_u64(b, p);
        let inv = read_slots16(b, p + 8);
        proof {
            lemma_sub_sub(b@, p as int, p + 104, 0, 8);
            lemma_sub_sub(b@, p as int, p + 104, 8, 104);
            assert(chest_model(ChestRecord { object_id, inv }) == cs[i as int]);
        }
        let ghost before = out@;
        out.push(ChestRecord { object_id, inv });
        proof {
            assert(out@.map_values(|c: ChestRecord| chest_model(c)) =~= before.map_values(
                |c: ChestRecord| chest_model(c),
            ).push(cs[i as int]));
            assert(cs.take(i + 1) =~= cs.take(i as int).push(cs[i as int]));
        }
        i = i + 1;
    }
    assert(cs.take(n as int) =~= cs);
    Ok((out, start + 104 * n))
}

fn read_furnaces(b: &[u8], pos: usize) -> (r: Result<(Vec<FurnaceRecord>, usize), DecodeFault>)
    requires
        pos <= b@.len(),
    ensures
        agrees(r, parse_furnaces(b@, pos as int)),
{
    let len = b.len();
    if len - pos < 4 {
        return Err(DecodeFault::UnexpectedEnd);
    }
    let n = read_u32(b, pos) as usize;
    let start = pos + 4;
    if n > 0 && n > (len - start) / 28 {
        return Err(DecodeFault::FurnaceCountTooLarge);
    }
    let ghost fs = Seq::new(n as nat, |i: int| furnace_from(record(b@, start as int, 28, i)));
    let mut out: Vec<FurnaceRecord> = Vec::new();
    let mut i: usize = 0;
    while i < n
        invariant
            0 <= i <= n,
            start + 28 * n <= b@.len(),
            b@.len() <= usize::MAX,
            fs == Seq::new(n as nat, |i: int| furnace_from(record(b@, start as int, 28, i))),
            out@ == fs.take(i as int),
        decreases n - i,
    {
        let p = start + 28 * i;
        let object_id = read_u64(b, p);
        let input = read_slot(b, p + 8);
        let fuel = read_slot(b, p + 14);
        let output = read_slot(b, p + 20);
        let progress = read_u16(b, p + 26);
        let rec = FurnaceRecord { object_id, state: FurnaceState { input, fuel, output, progress } };
        proof {
            lemma_sub_sub(b@, p as int, p + 28, 0, 8);
            lemma_sub_sub(b@, p as int, p + 28, 8, 14);
            lemma_sub_sub(b@, p as int, p + 28, 14, 20);
            lemma_sub_sub(b@, p as int, p + 28, 20, 26);
            lemma_sub_sub(b@, p as int, p + 28, 26, 28);
            assert(rec == fs[i as int]);
        }
        out.push(rec);
        proof {
            assert(out@ =~= fs.take(i + 1));
        }
        i = i + 1;
    }
    assert(out@ =~= fs);
    Ok((out, start + 28 * n))
}

fn read_drills(b: &[u8], pos: usize) -> (r: Result<(Vec<DrillRecord>, usize), DecodeFault>)
    requires
        pos <= b@.len(),
    ensures
        agrees(r, parse_drills(b@, pos as int)),
{
    let len = b.len();
    if len - pos < 4 {
        return Err(DecodeFault::UnexpectedEnd);
    }
    let n = read_u32(b, pos) as usize;
    let start = pos + 4;
    if n > 0 && n > (len - start) / 22 {
        return Err(DecodeFault::DrillCountTooLarge);
    }
    let ghost ds = Seq::new(n as nat, |i: int| drill_from(record(b@, start as int, 22, i)));
    let mut out: Vec<DrillRecord> = Vec::new();
    let mut i: usize = 0;
    while i < n
        invariant
            0 <= i <= n,
            start + 22 * n <= b@.len(),
            b@.len() <= usize::MAX,
            ds == Seq::new(n as nat, |i: int| drill_from(record(b@, start as int, 22, i))),
            out@ == ds.take(i as int),
        decreases n - i,
    {
        let p = start + 22 * i;
        let object_id = read_u64(b, p);
        let fuel = read_slot(b, p + 8);
        let output = read_slot(b, p + 14);
        let progress = read_u16(b, p + 20);
        let rec = DrillRecord { object_id, state: DrillState { fuel, output, progress } };
        proof {
            lemma_sub_sub(b@, p as int, p + 22, 0, 8);
            lemma_sub_sub(b@, p as int, p + 22, 8, 14);
            lemma_sub_sub(b@, p as int, p + 22, 14, 20);
            lemma_sub_sub(b@, p as int, p + 22, 20, 22);
            assert(rec == ds[i as int]);
        }
        out.push(rec);
        proof {
            assert(out@ =~= ds.take(i + 1));
        }
        i = i + 1;
    }
    assert(out@ =~= ds);
    Ok((out, start + 22 * n))
}


proof fn lemma_first_bad_direction(b: Seq<u8>, start: int, n: int, i: int)
    requires
        0 <= i < n,
        bad_direction_at(b, start, i),
        forall|j: int| 0 <= j < i ==> !bad_direction_at(b, start, j),
    ensures
        (choose|q: int|
            0 <= q < n && #[trigger] bad_direction_at(b, start, q) && forall|j: int|
                0 <= j < q ==> !bad_direction_at(b, start, j)) == i,
{
    let q = choose|q: int|
        0 <= q < n && #[trigger] bad_direction_at(b, start, q) && forall|j: int|
            0 <= j < q ==> !bad_direction_at(b, start, j);
    assert(0 <= q < n && bad_direction_at(b, start, q) && forall|j: int|
        0 <= j < q ==> !bad_direction_at(b, start, j));
    if q < i {
        assert(!bad_direction_at(b, start, q));
    } else if i < q {
        assert(!bad_direction_at(b, start, i));
    }
}

fn read_inserters(b: &[u8], pos: usize, with_direction: bool) -> (r: Result<(Vec<InserterRecord>, usize), DecodeFault>)
    requires
        pos <= b@.len(),
    ensures
        agrees_inserters(r, parse_inserters(b@, pos as int, with_direction)),
{
    let len = b.len();
    let k: usize = if with_direction { 33 } else { 32 };
    if len - pos < 4 {
        return Err(DecodeFault::UnexpectedEnd);
    }
    let n = read_u32(b, pos) as usize;
    let start = pos + 4;
    if n > 0 && n > (len - start) / k {
        return Err(DecodeFault::InserterCountTooLarge);
    }
    proof {
        let rem: int = (len - start) as int;
        let kk: int = k as int;
        let nn: int = n as int;
        assert(nn * kk <= rem) by (nonlinear_arith)
            requires
                nn == 0 || nn <= rem / kk,
                kk == 33 || kk == 32,
                rem >= 0,
                nn >= 0,
        ;
    }
    let ghost ins = Seq::new(n as nat, |i: int| inserter_from(record(b@, start as int, k as int, i), with_direction));
    let mut out: Vec<InserterRecord> = Vec::new();
    let mut i: usize = 0;
    while i < n
        invariant
            0 <= i <= n,
            k == inserter_width(with_direction),
            start == pos + 4,
            n as int == u32_at(b@, pos as int) as int,
            !count_too_large(n as int, b@.len() - start, k as int),
            start + n * k <= b@.len(),
            b@.len() <= usize::MAX,
            ins == Seq::new(n as nat, |i: int| inserter_from(record(b@, start as int, k as int, i), with_direction)),
            with_direction ==> forall|j: int| 0 <= j < i ==> !bad_direction_at(b@, start as int, j),
            out@.map_values(|r: InserterRecord| inserter_model(r)) == ins.take(i as int),
        decreases n - i,
    {
        assert(k * i + k <= n * k) by (nonlinear_arith)
            requires
                i < n,
        ;
        let p = start + k * i;
        let object_id = read_u64(b, p);
        let direction = if with_direction {
            let raw = b[p + 8];
            match InserterDirection::from_u8(raw) {
                Some(d) => d,
                None => {
                    proof {
                        assert(p + 8 == start + 33 * i + 8);
                        assert(bad_direction_at(b@, start as int, i as int));
                        lemma_first_bad_direction(b@, start as int, n as int, i as int);
                    }
                    return Err(DecodeFault::InvalidDirection(raw));
                },
            }
        } else {
            InserterDirection::Right
        };
        let off: usize = if with_direction { 9 } else { 8 };
        let inv = read_slots4(b, p + off);
        let rec = InserterRecord { object_id, direction, inv };
        proof {
            lemma_sub_sub(b@, p as int, p + k, 0, 8);
            lemma_sub_sub(b@, p as int, p + k, off as int, off + 24);
            if with_direction {
                assert(p + 8 == start + 33 * i + 8);
                assert(!bad_direction_at(b@, start as int, i as int));
            }
            assert(inserter_model(rec) == ins[i as int]);
        }
        let ghost before = out@;
        out.push(rec);
        proof {
            assert(out@.map_values(|r: InserterRecord| inserter_model(r)) =~= before.map_values(
                |r: InserterRecord| inserter_model(r),
            ).push(ins[i as int]));
            assert(ins.take(i + 1) =~= ins.take(i as int).push(ins[i as int]));
        }
        i = i + 1;
    }
    assert(ins.take(n as int) =~= ins);
    Ok((out, start + k * n))
}


fn read_payload(
    b: &[u8],
    version: u16,
    coord: ChunkCoord,
    layer: ChunkLayer,
    saved_tick: u64,
) -> (r: Result<SimChunkData, DecodeFault>)
    requires
        1 <= version <= 7,
    ensures
        match parse_payload(b@, version, coord, layer, saved_tick) {
            Ok(m) => r matches Ok(d) && d@ == m,
            Err(e) => r matches Err(f) && f == e,
        },
{
    let len = b.len();
    let (tiles, p1) = match read_tiles(b, 0) {
        Err(e) => return Err(e),
        Ok(v) => v,
    };
    let (entities, p2) = match read_entities(b, p1) {
        Err(e) => return Err(e),
        Ok(v) => v,
    };
    let mut data = SimChunkData {
        coord,
        layer,
        tiles,
        resources: filled(ResourceCell { kind: 0, amount: 0 }, 1024),
        placed: filled(PlacedCell { kind: 0, object_id: 0 }, 1024),
        chests: Vec::new(),
        furnaces: Vec::new(),
        inserters: Vec::new(),
        drills: Vec::new(),
        alembics: Vec::new(),
        crucibles: Vec::new(),
        entities,
        saved_tick,
    };
    proof {
        assert(data.resources@ =~= Seq::new(1024, |i: int| no_resource()));
        assert(data.placed@ =~= Seq::new(1024, |i: int| nothing_placed()));
        assert(data.chests@.map_values(|c: ChestRecord| chest_model(c)) =~= Seq::<ChestModel>::empty());
        assert(data.inserters@.map_values(|i: InserterRecord| inserter_model(i)) =~= Seq::<InserterModel>::empty());
    }
    if version == 1 {
        if p2 != len {
            return Err(DecodeFault::TrailingBytes);
        }
        return Ok(data);
    }
    let (resources, p3) = match read_resources(b, p2) {
        Err(e) => return Err(e),
        Ok(v) => v,
    };
    data.resources = resources;
    if version == 2 {
        if p3 != len {
            return Err(DecodeFault::TrailingBytes);
        }
        return Ok(data);
    }
    let (placed, p4) = match read_placed(b, p3, version >= 4) {
        Err(e) => return Err(e),
        Ok(v) => v,
    };
    data.placed = placed;
    if version == 3 {
        if p4 != len {
            return Err(DecodeFault::TrailingBytes);
        }
        return Ok(data);
    }
    let (chests, p5) = match read_chests(b, p4) {
        Err(e) => return Err(e),
        Ok(v) => v,
    };
    let (furnaces, p6) = match read_furnaces(b, p5) {
        Err(e) => return Err(e),
        Ok(v) => v,
    };
    data.chests = chests;
    data.furnaces = furnaces;
    if version == 4 {
        if p6 != len {
            return Err(DecodeFault::TrailingBytes);
        }
        return Ok(data);
    }
    let (inserters, p7) = match read_inserters(b, p6, version >= 6) {
        Err(e) => return Err(e),
        Ok(v) => v,
    };
    data.inserters = inserters;
    if version <= 6 {
        if p7 != len {
            return Err(DecodeFault::TrailingBytes);
        }
        return Ok(data);
    }
    let (drills, p8) = match read_drills(b, p7) {
        Err(e) => return Err(e),
        Ok(v) => v,
    };
    data.drills = drills;
    if p8 != len {
        return Err(DecodeFault::TrailingBytes);
    }
    Ok(data)
}


/// The message of a decoding failure reported as `DecodeFailed`.
pub open spec fn fault_message(f: DecodeFault) -> Seq<char> {
    match f {
        DecodeFault::BadMagic => "chunk magic mismatch"@,
        DecodeFault::UnexpectedEnd => "unexpected end of data"@,
        DecodeFault::UnsupportedVersion(v) => "unsupported chunk format version "@ + decimal(v as nat),
        DecodeFault::SchemaMismatch { .. } => "game schema version mismatch"@,
        DecodeFault::UnsupportedFlags(v) => "unsupported chunk flags "@ + decimal(v as nat),
        DecodeFault::PayloadLengthMismatch => "payload length mismatch"@,
        DecodeFault::TileCount(n) => "tile count "@ + decimal(n as nat) + " does not match expected 1024"@,
        DecodeFault::EntityCountTooLarge => "entity count exceeds payload size"@,
        DecodeFault::EntityOutOfBounds => "entity position out of chunk bounds"@,
        DecodeFault::ResourceCount(n) => "resource count "@ + decimal(n as nat)
            + " does not match expected 1024"@,
        DecodeFault::ResourceCountTooLarge => "resource count exceeds payload size"@,
        DecodeFault::PlacedCount(n) => "placed count "@ + decimal(n as nat) + " does not match expected 1024"@,
        DecodeFault::PlacedCountTooLarge => "placed count exceeds payload size"@,
        DecodeFault::ChestCountTooLarge => "chest count exceeds payload size"@,
        DecodeFault::FurnaceCountTooLarge => "furnace count exceeds payload size"@,
        DecodeFault::InserterCountTooLarge => "inserter count exceeds payload size"@,
        DecodeFault::InvalidDirection(v) => "invalid inserter direction "@ + decimal(v as nat),
        DecodeFault::DrillCountTooLarge => "drill count exceeds payload size"@,
        DecodeFault::TrailingBytes => "payload has trailing bytes"@,
    }
}

/// How a decoding failure is reported: a schema mismatch as
/// `VersionMismatch`, every other failure as `DecodeFailed` with its message.
pub open spec fn reports_fault(e: StorageError, f: DecodeFault) -> bool {
    match f {
        DecodeFault::SchemaMismatch { expected, found } => e == StorageError::VersionMismatch {
            expected,
            found,
        },
        _ => e matches StorageError::DecodeFailed(m) && m@ == fault_message(f),
    }
}

fn with_suffix(mut s: String, suffix: &str) -> (r: String)
    ensures
        r@ == s@ + suffix@,
{
    s.append(suffix);
    s
}

/// The storage error that reports a decoding failure.
pub fn fault_to_error(f: DecodeFault) -> (e: StorageError)
    ensures
        reports_fault(e, f),
{
    match f {
        DecodeFault::BadMagic => StorageError::DecodeFailed(String::from_str("chunk magic mismatch")),
        DecodeFault::UnexpectedEnd => StorageError::DecodeFailed(String::from_str("unexpected end of data")),
        DecodeFault::UnsupportedVersion(v) => StorageError::DecodeFailed(
            text_with_number("unsupported chunk format version ", v as u64),
        ),
        DecodeFault::SchemaMismatch { expected, found } => StorageError::VersionMismatch { expected, found },
        DecodeFault::UnsupportedFlags(v) => StorageError::DecodeFailed(
            text_with_number("unsupported chunk flags ", v as u64),
        ),
        DecodeFault::PayloadLengthMismatch => StorageError::DecodeFailed(String::from_str("payload length mismatch")),
        DecodeFault::TileCount(n) => StorageError::DecodeFailed(
            with_suffix(text_with_number("tile count ", n as u64), " does not match expected 1024"),
        ),
        DecodeFault::EntityCountTooLarge => StorageError::DecodeFailed(
            String::from_str("entity count exceeds payload size"),
        ),
        DecodeFault::EntityOutOfBounds => StorageError::DecodeFailed(
            String::from_str("entity position out of chunk bounds"),
        ),
        DecodeFault::ResourceCount(n) => StorageError::DecodeFailed(
            with_suffix(text_with_number("resource count ", n as u64), " does not match expected 1024"),
        ),
        DecodeFault::ResourceCountTooLarge => StorageError::DecodeFailed(
            String::from_str("resource count exceeds payload size"),
        ),
        DecodeFault::PlacedCount(n) => StorageError::DecodeFailed(
            with_suffix(text_with_number("placed count ", n as u64), " does not match expected 1024"),
        ),
        DecodeFault::PlacedCountTooLarge => StorageError::DecodeFailed(
            String::from_str("placed count exceeds payload size"),
        ),
        DecodeFault::ChestCountTooLarge => StorageError::DecodeFailed(
            String::from_str("chest count exceeds payload size"),
        ),
        DecodeFault::FurnaceCountTooLarge => StorageError::DecodeFailed(
            String::from_str("furnace count exceeds payload size"),
        ),
        DecodeFault::InserterCountTooLarge => StorageError::DecodeFailed(
            String::from_str("inserter count exceeds payload size"),
        ),
        DecodeFault::InvalidDirection(v) => StorageError::DecodeFailed(
            text_with_number("invalid inserter direction ", v as u64),
        ),
        DecodeFault::DrillCountTooLarge => StorageError::DecodeFailed(
            String::from_str("drill count exceeds payload size"),
        ),
        DecodeFault::TrailingBytes => StorageError::DecodeFailed(
            String::from_str("payload has trailing bytes"),
        ),
    }
}

/// Reads and writes chunks in the current binary format, stamped with the
/// game's schema version.
#[derive(Debug, Clone, Copy)]
pub struct ChunkCodecV1 {
    game_schema_version: u16,
}

impl ChunkCodecV1 {
    /// The game schema version written into, and expected in, every chunk.
    pub closed spec fn schema(&self) -> u16 {
        self.game_schema_version
    }

    pub fn new(game_schema_version: u16) -> (c: Self)
        ensures
            c.schema() == game_schema_version,
    {
        ChunkCodecV1 { game_schema_version }
    }

    pub fn game_schema_version(&self) -> (v: u16)
        ensures
            v == self.schema(),
    {
        self.game_schema_version
    }

}

/// A way of turning chunks into bytes and back.
pub trait ChunkCodec {
    /// The bytes stored for `chunk` as of `tick`.
    fn encode(&self, chunk: &SimChunkView, tick: u64) -> Result<Vec<u8>, StorageError>;

    /// The chunk that `bytes` hold.
    fn decode(&self, bytes: &[u8]) -> Result<SimChunkData, StorageError>;
}

impl Default for ChunkCodecV1 {
    fn default() -> (c: Self)
        ensures
            c.schema() == 1,
    {
        ChunkCodecV1::new(1)
    }
}

fn decode_bytes(schema: u16, bytes: &[u8]) -> (r: Result<SimChunkData, DecodeFault>)
    ensures
        match decode_spec(schema, bytes@) {
            Ok(m) => r matches Ok(d) && d@ == m,
            Err(e) => r matches Err(f) && f == e,
        },
{
    let len = bytes.len();
    if len < 4 {
        return Err(DecodeFault::UnexpectedEnd);
    }
    if !(bytes[0] == 67 && bytes[1] == 72 && bytes[2] == 78 && bytes[3] == 75) {
        proof {
            if bytes@.subrange(0, 4) == magic() {
                assert(bytes@[0] == bytes@.subrange(0, 4)[0]);
                assert(bytes@[1] == bytes@.subrange(0, 4)[1]);
                assert(bytes@[2] == bytes@.subrange(0, 4)[2]);
                assert(bytes@[3] == bytes@.subrange(0, 4)[3]);
            }
        }
        return Err(DecodeFault::BadMagic);
    }
    assert(bytes@.subrange(0, 4) =~= magic());
    if len < 6 {
        return Err(DecodeFault::UnexpectedEnd);
    }
    let version = read_u16(bytes, 4);
    if !(1 <= version && version <= 7) {
        return Err(DecodeFault::UnsupportedVersion(version));
    }
    if len < 8 {
        return Err(DecodeFault::UnexpectedEnd);
    }
    let found = read_u16(bytes, 6);
    if found != schema {
        return Err(DecodeFault::SchemaMismatch { expected: schema, found });
    }
    if len < 10 {
        return Err(DecodeFault::UnexpectedEnd);
    }
    let flags = read_u16(bytes, 8);
    if flags != 0 {
        return Err(DecodeFault::UnsupportedFlags(flags));
    }
    if len < 31 {
        return Err(DecodeFault::UnexpectedEnd);
    }
    let cx = read_u32(bytes, 10) as i32;
    let cy = read_u32(bytes, 14) as i32;
    let layer = bytes[18];
    let saved_tick = read_u64(bytes, 19);
    let payload_len = read_u32(bytes, 27);
    if len - 31 != payload_len as usize {
        return Err(DecodeFault::PayloadLengthMismatch);
    }
    let payload = slice_subrange(bytes, 31, len);
    read_payload(payload, version, ChunkCoord { cx, cy }, layer, saved_tick)
}


// ---- writing ----

proof fn lemma_concat_step<T>(s: Seq<T>, f: spec_fn(T) -> Seq<u8>, i: int)
    requires
        0 <= i < s.len(),
    ensures
        concat_map(s.take(i + 1), f) == concat_map(s.take(i), f) + f(s[i]),
{
    assert(s.take(i + 1).drop_last() =~= s.take(i));
}

proof fn lemma_take_all<T>(s: Seq<T>)
    ensures
        s.take(s.len() as int) == s,
{
    assert(s.take(s.len() as int) =~= s);
}

fn put_tiles(buf: &mut Vec<u8>, tiles: &[TileId])
    ensures
        final(buf)@ == old(buf)@ + tiles_bytes(tiles@),
{
    let mut i: usize = 0;
    assert(tiles@.take(0) =~= Seq::<TileId>::empty());
    while i < tiles.len()
        invariant
            0 <= i <= tiles@.len(),
            buf@ == old(buf)@ + tiles_bytes(tiles@.take(i as int)),
        decreases tiles@.len() - i,
    {
        put_u16(buf, tiles[i]);
        proof {
            lemma_concat_step(tiles@, |t: TileId| le16(t), i as int);
            assert(buf@ =~= old(buf)@ + tiles_bytes(tiles@.take(i + 1)));
        }
        i = i + 1;
    }
    proof {
        lemma_take_all(tiles@);
    }
}


fn put_slot(buf: &mut Vec<u8>, s: Slot)
    ensures
        final(buf)@ == old(buf)@ + slot_bytes(s),
{
    put_u16(buf, s.item);
    put_u32(buf, s.count);
    assert(buf@ =~= old(buf)@ + slot_bytes(s));
}

fn put_slots<const N: usize>(buf: &mut Vec<u8>, slots: &[Slot; N])
    ensures
        final(buf)@ == old(buf)@ + slots_bytes(slots@),
{
    let mut i: usize = 0;
    assert(slots@.take(0) =~= Seq::<Slot>::empty());
    while i < N
        invariant
            0 <= i <= N,
            slots@.len() == N,
            buf@ == old(buf)@ + slots_bytes(slots@.take(i as int)),
        decreases N - i,
    {
        put_slot(buf, slots[i]);
        proof {
            lemma_concat_step(slots@, |x: Slot| slot_bytes(x), i as int);
            assert(buf@ =~= old(buf)@ + slots_bytes(slots@.take(i + 1)));
        }
        i = i + 1;
    }
    proof {
        lemma_take_all(slots@);
    }
}

fn put_entities(buf: &mut Vec<u8>, es: &[Entity])
    ensures
        final(buf)@ == old(buf)@ + entities_bytes(es@),
{
    let mut i: usize = 0;
    assert(es@.take(0) =~= Seq::<Entity>::empty());
    while i < es.len()
        invariant
            0 <= i <= es@.len(),
            buf@ == old(buf)@ + entities_bytes(es@.take(i as int)),
        decreases es@.len() - i,
    {
        let e = es[i];
        put_u32(buf, e.id);
        put_u16(buf, e.kind);
        put_u16(buf, e.x);
        put_u16(buf, e.y);
        proof {
            lemma_concat_step(es@, |e: Entity| entity_bytes(e), i as int);
            assert(buf@ =~= old(buf)@ + entities_bytes(es@.take(i + 1)));
        }
        i = i + 1;
    }
    proof {
        lemma_take_all(es@);
    }
}

fn put_resources(buf: &mut Vec<u8>, rs: &[ResourceCell])
    ensures
        final(buf)@ == old(buf)@ + resources_bytes(rs@),
{
    let mut i: usize = 0;
    assert(rs@.take(0) =~= Seq::<ResourceCell>::empty());
    while i < rs.len()
        invariant
            0 <= i <= rs@.len(),
            buf@ == old(buf)@ + resources_bytes(rs@.take(i as int)),
        decreases rs@.len() - i,
    {
        let r = rs[i];
        buf.push(r.kind);
        put_u16(buf, r.amount);
        proof {
            lemma_concat_step(rs@, |r: ResourceCell| resource_bytes(r), i as int);
            assert(buf@ =~= old(buf)@ + resources_bytes(rs@.take(i + 1)));
        }
        i = i + 1;
    }
    proof {
        lemma_take_all(rs@);
    }
}

fn put_placed(buf: &mut Vec<u8>, ps: &[PlacedCell])
    ensures
        final(buf)@ == old(buf)@ + placed_section_bytes(ps@),
{
    let mut i: usize = 0;
    assert(ps@.take(0) =~= Seq::<PlacedCell>::empty());
    while i < ps.len()
        invariant
            0 <= i <= ps@.len(),
            buf@ == old(buf)@ + placed_section_bytes(ps@.take(i as int)),
        decreases ps@.len() - i,
    {
        let p = ps[i];
        buf.push(p.kind);
        put_u64(buf, p.object_id);
        proof {
            lemma_concat_step(ps@, |p: PlacedCell| placed_bytes(p), i as int);
            assert(buf@ =~= old(buf)@ + placed_section_bytes(ps@.take(i + 1)));
        }
        i = i + 1;
    }
    proof {
        lemma_take_all(ps@);
    }
}

fn put_chests(buf: &mut Vec<u8>, cs: &[ChestRecord])
    ensures
        final(buf)@ == old(buf)@ + chests_bytes(cs@.map_values(|c: ChestRecord| chest_model(c))),
{
    let ghost ms = cs@.map_values(|c: ChestRecord| chest_model(c));
    let mut i: usize = 0;
    assert(ms.take(0) =~= Seq::<ChestModel>::empty());
    while i < cs.len()
        invariant
            0 <= i <= cs@.len(),
            ms == cs@.map_values(|c: ChestRecord| chest_model(c)),
            buf@ == old(buf)@ + chests_bytes(ms.take(i as int)),
        decreases cs@.len() - i,
    {
        let c = cs[i];
        put_u64(buf, c.object_id);
        put_slots(buf, &c.inv.slots);
        proof {
            lemma_concat_step(ms, |c: ChestModel| chest_bytes(c), i as int);
            assert(buf@ =~= old(buf)@ + chests_bytes(ms.take(i + 1)));
        }
        i = i + 1;
    }
    proof {
        lemma_take_all(ms);
    }
}

fn put_furnaces(buf: &mut Vec<u8>, fs: &[FurnaceRecord])
    ensures
        final(buf)@ == old(buf)@ + furnaces_bytes(fs@),
{
    let mut i: usize = 0;
    assert(fs@.take(0) =~= Seq::<FurnaceRecord>::empty());
    while i < fs.len()
        invariant
            0 <= i <= fs@.len(),
            buf@ == old(buf)@ + furnaces_bytes(fs@.take(i as int)),
        decreases fs@.len() - i,
    {
        let f = fs[i];
        put_u64(buf, f.object_id);
        put_slot(buf, f.state.input);
        put_slot(buf, f.state.fuel);
        put_slot(buf, f.state.output);
        put_u16(buf, f.state.progress);
        proof {
            lemma_concat_step(fs@, |f: FurnaceRecord| furnace_bytes(f), i as int);
            assert(buf@ =~= old(buf)@ + furnaces_bytes(fs@.take(i + 1)));
        }
        i = i + 1;
    }
    proof {
        lemma_take_all(fs@);
    }
}

fn put_inserters(buf: &mut Vec<u8>, ins: &[InserterRecord])
    ensures
        final(buf)@ == old(buf)@ + inserters_bytes(ins@.map_values(|r: InserterRecord| inserter_model(r))),
{
    let ghost ms = ins@.map_values(|r: InserterRecord| inserter_model(r));
    let mut i: usize = 0;
    assert(ms.take(0) =~= Seq::<InserterModel>::empty());
    while i < ins.len()
        invariant
            0 <= i <= ins@.len(),
            ms == ins@.map_values(|r: InserterRecord| inserter_model(r)),
            buf@ == old(buf)@ + inserters_bytes(ms.take(i as int)),
        decreases ins@.len() - i,
    {
        let r = ins[i];
        put_u64(buf, r.object_id);
        buf.push(r.direction.to_u8());
        put_slots(buf, &r.inv.slots);
        proof {
            lemma_concat_step(ms, |i: InserterModel| inserter_bytes(i), i as int);
            assert(buf@ =~= old(buf)@ + inserters_bytes(ms.take(i + 1)));
        }
        i = i + 1;
    }
    proof {
        lemma_take_all(ms);
    }
}

fn put_drills(buf: &mut Vec<u8>, ds: &[DrillRecord])
    ensures
        final(buf)@ == old(buf)@ + drills_bytes(ds@),
{
    let mut i: usize = 0;
    assert(ds@.take(0) =~= Seq::<DrillRecord>::empty());
    while i < ds.len()
        invariant
            0 <= i <= ds@.len(),
            buf@ == old(buf)@ + drills_bytes(ds@.take(i as int)),
        decreases ds@.len() - i,
    {
        let d = ds[i];
        put_u64(buf, d.object_id);
        put_slot(buf, d.state.fuel);
        put_slot(buf, d.state.output);
        put_u16(buf, d.state.progress);
        proof {
            lemma_concat_step(ds@, |d: DrillRecord| drill_bytes(d), i as int);
            assert(buf@ =~= old(buf)@ + drills_bytes(ds@.take(i + 1)));
        }
        i = i + 1;
    }
    proof {
        lemma_take_all(ds@);
    }
}


/// Why a chunk cannot be encoded, if it cannot: the per-tile vectors must
/// cover the chunk, and every count and the payload length must fit a `u32`.
pub open spec fn encode_problem(m: ChunkModel) -> Option<Seq<char>> {
    if m.tiles.len() != 1024 {
        Some("tiles length "@ + decimal(m.tiles.len()) + " does not match expected 1024"@)
    } else if m.resources.len() != 1024 {
        Some("resources length "@ + decimal(m.resources.len()) + " does not match expected 1024"@)
    } else if m.placed.len() != 1024 {
        Some("placed length "@ + decimal(m.placed.len()) + " does not match expected 1024"@)
    } else if m.entities.len() > u32::MAX {
        Some("entity count exceeds u32::MAX"@)
    } else if m.chests.len() > u32::MAX {
        Some("chest count exceeds u32::MAX"@)
    } else if m.furnaces.len() > u32::MAX {
        Some("furnace count exceeds u32::MAX"@)
    } else if m.inserters.len() > u32::MAX {
        Some("inserter count exceeds u32::MAX"@)
    } else if m.drills.len() > u32::MAX {
        Some("drill count exceeds u32::MAX"@)
    } else if payload_bytes(m).len() > u32::MAX {
        Some("payload length exceeds u32::MAX"@)
    } else {
        None
    }
}

fn length_mismatch(what: &str, n: usize) -> (e: StorageError)
    ensures
        e matches StorageError::Other(m) && m@ == what@ + decimal(n as nat) + " does not match expected 1024"@,
{
    let mut s = String::from_str(what);
    push_decimal(&mut s, n as u64);
    s.append(" does not match expected 1024");
    StorageError::Other(s)
}

fn other_error(msg: &str) -> (e: StorageError)
    ensures
        e matches StorageError::Other(m) && m@ == msg@,
{
    StorageError::Other(String::from_str(msg))
}

/// The version 7 payload of the viewed chunk, or why it cannot be written.
/// Why the first six sections of a chunk cannot be written, if they can't.
pub open spec fn v4_problem(m: ChunkModel) -> Option<Seq<char>> {
    if m.entities.len() > u32::MAX {
        Some("entity count exceeds u32::MAX"@)
    } else if m.chests.len() > u32::MAX {
        Some("chest count exceeds u32::MAX"@)
    } else if m.furnaces.len() > u32::MAX {
        Some("furnace count exceeds u32::MAX"@)
    } else {
        None
    }
}

/// Writes the payload of format 4: tiles, entities, ore, placements, chests
/// and furnaces.
fn encode_payload_v4(chunk: &SimChunkView) -> (r: Result<Vec<u8>, StorageError>)
    requires
        chunk.tiles@.len() == 1024,
        chunk.resources@.len() == 1024,
        chunk.placed@.len() == 1024,
    ensures
        match v4_problem(chunk.model_at(0)) {
            Some(msg) => r matches Err(e) && e matches StorageError::Other(m) && m@ == msg,
            None => r matches Ok(v) && v@ == payload_v4_bytes(chunk.model_at(0)),
        },
{
    let ghost m = chunk.model_at(0);
    if chunk.entities.len() > 4294967295 {
        return Err(other_error("entity count exceeds u32::MAX"));
    }
    if chunk.chests.len() > 4294967295 {
        return Err(other_error("chest count exceeds u32::MAX"));
    }
    if chunk.furnaces.len() > 4294967295 {
        return Err(other_error("furnace count exceeds u32::MAX"));
    }
    let mut buf: Vec<u8> = Vec::new();
    put_u32(&mut buf, chunk.tiles.len() as u32);
    put_tiles(&mut buf, chunk.tiles);
    put_u32(&mut buf, chunk.entities.len() as u32);
    put_entities(&mut buf, chunk.entities);
    put_u32(&mut buf, chunk.resources.len() as u32);
    put_resources(&mut buf, chunk.resources);
    put_u32(&mut buf, chunk.placed.len() as u32);
    put_placed(&mut buf, chunk.placed);
    put_u32(&mut buf, chunk.chests.len() as u32);
    put_chests(&mut buf, chunk.chests);
    put_u32(&mut buf, chunk.furnaces.len() as u32);
    put_furnaces(&mut buf, chunk.furnaces);
    assert(buf@ =~= payload_v4_bytes(m));
    Ok(buf)
}

/// Writes the payload of format 7: that of format 4, then the inserters and
/// the drills.
fn encode_payload(chunk: &SimChunkView) -> (r: Result<Vec<u8>, StorageError>)
    requires
        chunk.tiles@.len() == 1024,
        chunk.resources@.len() == 1024,
        chunk.placed@.len() == 1024,
    ensures
        match encode_problem(chunk.model_at(0)) {
            Some(msg) => r matches Err(e) && e matches StorageError::Other(m) && m@ == msg,
            None => r matches Ok(v) && v@ == payload_bytes(chunk.model_at(0)),
        },
{
    let ghost m = chunk.model_at(0);
    let mut buf = match encode_payload_v4(chunk) {
        Err(e) => return Err(e),
        Ok(b) => b,
    };
    if chunk.inserters.len() > 4294967295 {
        return Err(other_error("inserter count exceeds u32::MAX"));
    }
    if chunk.drills.len() > 4294967295 {
        return Err(other_error("drill count exceeds u32::MAX"));
    }
    put_u32(&mut buf, chunk.inserters.len() as u32);
    put_inserters(&mut buf, chunk.inserters);
    put_u32(&mut buf, chunk.drills.len() as u32);
    put_drills(&mut buf, chunk.drills);
    assert(buf@ =~= payload_bytes(m));
    if buf.len() > 4294967295 {
        return Err(other_error("payload length exceeds u32::MAX"));
    }
    Ok(buf)
}

/// The payload of a model does not depend on its tick.
proof fn lemma_payload_ignores_tick(chunk: SimChunkView, a: u64, b: u64)
    ensures
        payload_bytes(chunk.model_at(a)) == payload_bytes(chunk.model_at(b)),
        encode_problem(chunk.model_at(a)) == encode_problem(chunk.model_at(b)),
{
}

impl ChunkCodec for ChunkCodecV1 {
    /// Reads a chunk of any supported format version.
    fn decode(&self, bytes: &[u8]) -> (r: Result<SimChunkData, StorageError>)
        ensures
            match decode_spec(self.schema(), bytes@) {
                Ok(m) => r matches Ok(d) && d@ == m,
                Err(f) => r matches Err(e) && reports_fault(e, f),
            },
    {
        match decode_bytes(self.game_schema_version, bytes) {
            Ok(d) => Ok(d),
            Err(f) => Err(fault_to_error(f)),
        }
    }

    /// Writes a chunk in format version 7, stamped with `saved_tick`.
    fn encode(&self, chunk: &SimChunkView, saved_tick: u64) -> (r: Result<Vec<u8>, StorageError>)
        ensures
            match encode_problem(chunk.model_at(saved_tick)) {
                Some(msg) => r matches Err(e) && e matches StorageError::Other(m) && m@ == msg,
                None => r matches Ok(v) && v@ == encode_spec(self.schema(), chunk.model_at(saved_tick)),
            },
    {
        proof {
            lemma_payload_ignores_tick(*chunk, saved_tick, 0);
        }
        if chunk.tiles.len() != 1024 {
            return Err(length_mismatch("tiles length ", chunk.tiles.len()));
        }
        if chunk.resources.len() != 1024 {
            return Err(length_mismatch("resources length ", chunk.resources.len()));
        }
        if chunk.placed.len() != 1024 {
            return Err(length_mismatch("placed length ", chunk.placed.len()));
        }
        let payload = match encode_payload(chunk) {
            Err(e) => return Err(e),
            Ok(p) => p,
        };
        let payload_len = payload.len() as u32;
        let mut buf: Vec<u8> = Vec::new();
        buf.push(67);
        buf.push(72);
        buf.push(78);
        buf.push(75);
        put_u16(&mut buf, FORMAT_VERSION);
        put_u16(&mut buf, self.game_schema_version);
        put_u16(&mut buf, 0);
        put_u32(&mut buf, chunk.coord.cx as u32);
        put_u32(&mut buf, chunk.coord.cy as u32);
        buf.push(chunk.layer);
        put_u64(&mut buf, saved_tick);
        put_u32(&mut buf, payload_len);
        let mut payload = payload;
        buf.append(&mut payload);
        proof {
            let m = chunk.model_at(saved_tick);
            assert(buf@ =~= header_bytes(self.schema(), m, payload_bytes(m).len() as u32) + payload_bytes(m));
        }
        Ok(buf)
    }
}


// ---- reading back what was written ----

proof fn lemma_slot_round_trip(s: Slot)
    ensures
        slot_bytes(s).len() == 6,
        slot_from(slot_bytes(s)) == s,
{
    lemma_le_round_trip();
    let c = slot_bytes(s);
    assert(c.subrange(0, 2) =~= le16(s.item));
    assert(c.subrange(2, 6) =~= le32(s.count));
}

proof fn lemma_slots_round_trip(s: Seq<Slot>)
    ensures
        slots_bytes(s).len() == 6 * s.len(),
        slots_from(slots_bytes(s), s.len()) == s,
{
    assert forall|x: Slot| #[trigger] slot_bytes(x).len() == 6 by {
        lemma_slot_round_trip(x);
    }
    lemma_concat_map_fixed(s, |x: Slot| slot_bytes(x), 6);
    let c = slots_bytes(s);
    assert forall|j: int| 0 <= j < s.len() implies #[trigger] slots_from(c, s.len())[j] == s[j] by {
        assert(c.subrange(6 * j, 6 * j + 6) == slot_bytes(s[j]));
        lemma_slot_round_trip(s[j]);
    }
    assert(slots_from(c, s.len()) =~= s);
}

proof fn lemma_entity_round_trip(e: Entity)
    ensures
        entity_bytes(e).len() == 10,
        entity_from(entity_bytes(e)) == e,
{
    lemma_le_round_trip();
    let c = entity_bytes(e);
    assert(c.subrange(0, 4) =~= le32(e.id));
    assert(c.subrange(4, 6) =~= le16(e.kind));
    assert(c.subrange(6, 8) =~= le16(e.x));
    assert(c.subrange(8, 10) =~= le16(e.y));
}

proof fn lemma_resource_round_trip(r: ResourceCell)
    ensures
        resource_bytes(r).len() == 3,
        resource_from(resource_bytes(r)) == r,
{
    lemma_le_round_trip();
    let c = resource_bytes(r);
    assert(c.subrange(1, 3) =~= le16(r.amount));
}

proof fn lemma_placed_round_trip(p: PlacedCell)
    ensures
        placed_bytes(p).len() == 9,
        placed_from(placed_bytes(p), true) == p,
{
    lemma_le_round_trip();
    let c = placed_bytes(p);
    assert(c.subrange(1, 9) =~= le64(p.object_id));
}

proof fn lemma_chest_round_trip(ch: ChestModel)
    requires
        ch.slots.len() == 16,
    ensures
        chest_bytes(ch).len() == 104,
        chest_from(chest_bytes(ch)) == ch,
{
    lemma_le_round_trip();
    lemma_slots_round_trip(ch.slots);
    let c = chest_bytes(ch);
    assert(c.subrange(0, 8) =~= le64(ch.object_id));
    assert(c.subrange(8, 104) =~= slots_bytes(ch.slots));
}

proof fn lemma_furnace_round_trip(f: FurnaceRecord)
    ensures
        furnace_bytes(f).len() == 28,
        furnace_from(furnace_bytes(f)) == f,
{
    lemma_le_round_trip();
    lemma_slot_round_trip(f.state.input);
    lemma_slot_round_trip(f.state.fuel);
    lemma_slot_round_trip(f.state.output);
    let c = furnace_bytes(f);
    assert(c.subrange(0, 8) =~= le64(f.object_id));
    assert(c.subrange(8, 14) =~= slot_bytes(f.state.input));
    assert(c.subrange(14, 20) =~= slot_bytes(f.state.fuel));
    assert(c.subrange(20, 26) =~= slot_bytes(f.state.output));
    assert(c.subrange(26, 28) =~= le16(f.state.progress));
}

proof fn lemma_inserter_round_trip(i: InserterModel)
    requires
        i.slots.len() == 4,
    ensures
        inserter_bytes(i).len() == 33,
        inserter_from(inserter_bytes(i), true) == i,
        InserterDirection::from_code_spec(inserter_bytes(i)[8]) is Some,
{
    lemma_le_round_trip();
    lemma_slots_round_trip(i.slots);
    let c = inserter_bytes(i);
    assert(c.subrange(0, 8) =~= le64(i.object_id));
    assert(c[8] == i.direction.code_spec());
    assert(c.subrange(9, 33) =~= slots_bytes(i.slots));
}

proof fn lemma_drill_round_trip(d: DrillRecord)
    ensures
        drill_bytes(d).len() == 22,
        drill_from(drill_bytes(d)) == d,
{
    lemma_le_round_trip();
    lemma_slot_round_trip(d.state.fuel);
    lemma_slot_round_trip(d.state.output);
    let c = drill_bytes(d);
    assert(c.subrange(0, 8) =~= le64(d.object_id));
    assert(c.subrange(8, 14) =~= slot_bytes(d.state.fuel));
    assert(c.subrange(14, 20) =~= slot_bytes(d.state.output));
    assert(c.subrange(20, 22) =~= le16(d.state.progress));
}


/// A count written at `pos`, followed by records of width `k`, reads back as
/// that count and those records, each in its place.
proof fn lemma_written_section<T>(b: Seq<u8>, pos: int, s: Seq<T>, f: spec_fn(T) -> Seq<u8>, k: nat)
    requires
        forall|i: int| 0 <= i < s.len() ==> #[trigger] f(s[i]).len() == k,
        s.len() <= u32::MAX,
        0 <= pos,
        pos + 4 + k * s.len() <= b.len(),
        b.subrange(pos, pos + 4 + k * s.len()) == le32(s.len() as u32) + concat_map(s, f),
    ensures
        u32_at(b, pos) == s.len(),
        forall|i: int| 0 <= i < s.len() ==> #[trigger] record(b, pos + 4, k as int, i) == f(s[i]),
{
    lemma_le_round_trip();
    lemma_concat_map_fixed(s, f, k);
    let w = le32(s.len() as u32) + concat_map(s, f);
    let e = pos + 4 + k * s.len();
    lemma_sub_sub(b, pos, e, 0, 4);
    assert(w.subrange(0, 4) =~= le32(s.len() as u32));
    assert forall|i: int| 0 <= i < s.len() implies #[trigger] record(b, pos + 4, k as int, i) == f(s[i]) by {
        assert(0 <= k * i && k * i + k <= k * s.len()) by (nonlinear_arith)
            requires
                0 <= i < s.len(),
        ;
        lemma_sub_sub(b, pos, e, 4 + k * i, 4 + k * i + k);
        assert(w.subrange(4 + k * i, 4 + k * i + k) =~= concat_map(s, f).subrange(k * i, k * i + k));
    }
}

proof fn lemma_tiles_written(b: Seq<u8>, tiles: Seq<TileId>)
    requires
        tiles.len() == 1024,
        2052 <= b.len(),
        b.subrange(0, 2052) == le32(1024) + tiles_bytes(tiles),
    ensures
        parse_tiles(b, 0) == Ok::<(Seq<TileId>, int), DecodeFault>((tiles, 2052)),
{
    lemma_le_round_trip();
    let f = |t: TileId| le16(t);
    assert forall|i: int| 0 <= i < tiles.len() implies #[trigger] f(tiles[i]).len() == 2 by {}
    lemma_written_section(b, 0, tiles, f, 2);
    let got = Seq::new(1024, |i: int| u16_at(b, 0 + 4 + 2 * i));
    assert forall|i: int| 0 <= i < 1024 implies got[i] == tiles[i] by {
        assert(record(b, 4, 2, i) == f(tiles[i]));
    }
    assert(got =~= tiles);
}

proof fn lemma_entities_written(b: Seq<u8>, pos: int, es: Seq<Entity>)
    requires
        es.len() <= u32::MAX,
        0 <= pos,
        pos + 4 + 12 * es.len() <= b.len(),
        b.subrange(pos, pos + 4 + 10 * es.len()) == le32(es.len() as u32) + entities_bytes(es),
        forall|i: int| 0 <= i < es.len() ==> entity_in_bounds(#[trigger] es[i]),
    ensures
        parse_entities(b, pos) == Ok::<(Seq<Entity>, int), DecodeFault>((es, pos + 4 + 10 * es.len())),
{
    let f = |e: Entity| entity_bytes(e);
    assert forall|i: int| 0 <= i < es.len() implies #[trigger] f(es[i]).len() == 10 by {
        lemma_entity_round_trip(es[i]);
    }
    lemma_written_section(b, pos, es, f, 10);
    let got = entities_at(b, pos + 4, es.len());
    assert forall|i: int| 0 <= i < es.len() implies got[i] == es[i] by {
        assert(record(b, pos + 4, 10, i) == f(es[i]));
        lemma_entity_round_trip(es[i]);
    }
    assert(got =~= es);
    assert(!count_too_large(es.len() as int, b.len() - (pos + 4), 12));
}

proof fn lemma_resources_written(b: Seq<u8>, pos: int, rs: Seq<ResourceCell>)
    requires
        rs.len() == 1024,
        0 <= pos,
        pos + 4 + 3072 <= b.len(),
        b.subrange(pos, pos + 4 + 3072) == le32(1024) + resources_bytes(rs),
    ensures
        parse_resources(b, pos) == Ok::<(Seq<ResourceCell>, int), DecodeFault>((rs, pos + 4 + 3072)),
{
    let f = |r: ResourceCell| resource_bytes(r);
    assert forall|i: int| 0 <= i < rs.len() implies #[trigger] f(rs[i]).len() == 3 by {
        lemma_resource_round_trip(rs[i]);
    }
    lemma_written_section(b, pos, rs, f, 3);
    let got = Seq::new(1024, |i: int| resource_from(record(b, pos + 4, 3, i)));
    assert forall|i: int| 0 <= i < 1024 implies got[i] == rs[i] by {
        assert(record(b, pos + 4, 3, i) == f(rs[i]));
        lemma_resource_round_trip(rs[i]);
    }
    assert(got =~= rs);
}

proof fn lemma_placed_written(b: Seq<u8>, pos: int, ps: Seq<PlacedCell>)
    requires
        ps.len() == 1024,
        0 <= pos,
        pos + 4 + 9216 <= b.len(),
        b.subrange(pos, pos + 4 + 9216) == le32(1024) + placed_section_bytes(ps),
    ensures
        parse_placed(b, pos, true) == Ok::<(Seq<PlacedCell>, int), DecodeFault>((ps, pos + 4 + 9216)),
{
    let f = |p: PlacedCell| placed_bytes(p);
    assert forall|i: int| 0 <= i < ps.len() implies #[trigger] f(ps[i]).len() == 9 by {
        lemma_placed_round_trip(ps[i]);
    }
    lemma_written_section(b, pos, ps, f, 9);
    let got = Seq::new(1024, |i: int| placed_from(record(b, pos + 4, 9, i), true));
    assert forall|i: int| 0 <= i < 1024 implies got[i] == ps[i] by {
        assert(record(b, pos + 4, 9, i) == f(ps[i]));
        lemma_placed_round_trip(ps[i]);
    }
    assert(got =~= ps);
}

proof fn lemma_chests_written(b: Seq<u8>, pos: int, cs: Seq<ChestModel>)
    requires
        cs.len() <= u32::MAX,
        0 <= pos,
        pos + 4 + 104 * cs.len() <= b.len(),
        b.subrange(pos, pos + 4 + 104 * cs.len()) == le32(cs.len() as u32) + chests_bytes(cs),
        forall|i: int| 0 <= i < cs.len() ==> (#[trigger] cs[i]).slots.len() == 16,
    ensures
        parse_chests(b, pos) == Ok::<(Seq<ChestModel>, int), DecodeFault>((cs, pos + 4 + 104 * cs.len())),
{
    let f = |c: ChestModel| chest_bytes(c);
    assert forall|i: int| 0 <= i < cs.len() implies #[trigger] f(cs[i]).len() == 104 by {
        lemma_chest_round_trip(cs[i]);
    }
    lemma_written_section(b, pos, cs, f, 104);
    let got = Seq::new(cs.len(), |i: int| chest_from(record(b, pos + 4, 104, i)));
    assert forall|i: int| 0 <= i < cs.len() implies got[i] == cs[i] by {
        assert(record(b, pos + 4, 104, i) == f(cs[i]));
        lemma_chest_round_trip(cs[i]);
    }
    assert(got =~= cs);
    assert(!count_too_large(cs.len() as int, b.len() - (pos + 4), 104));
}

proof fn lemma_furnaces_written(b: Seq<u8>, pos: int, fs: Seq<FurnaceRecord>)
    requires
        fs.len() <= u32::MAX,
        0 <= pos,
        pos + 4 + 28 * fs.len() <= b.len(),
        b.subrange(pos, pos + 4 + 28 * fs.len()) == le32(fs.len() as u32) + furnaces_bytes(fs),
    ensures
        parse_furnaces(b, pos) == Ok::<(Seq<FurnaceRecord>, int), DecodeFault>((fs, pos + 4 + 28 * fs.len())),
{
    let f = |x: FurnaceRecord| furnace_bytes(x);
    assert forall|i: int| 0 <= i < fs.len() implies #[trigger] f(fs[i]).len() == 28 by {
        lemma_furnace_round_trip(fs[i]);
    }
    lemma_written_section(b, pos, fs, f, 28);
    let got = Seq::new(fs.len(), |i: int| furnace_from(record(b, pos + 4, 28, i)));
    assert forall|i: int| 0 <= i < fs.len() implies got[i] == fs[i] by {
        assert(record(b, pos + 4, 28, i) == f(fs[i]));
        lemma_furnace_round_trip(fs[i]);
    }
    assert(got =~= fs);
    assert(!count_too_large(fs.len() as int, b.len() - (pos + 4), 28));
}

proof fn lemma_inserters_written(b: Seq<u8>, pos: int, ins: Seq<InserterModel>)
    requires
        ins.len() <= u32::MAX,
        0 <= pos,
        pos + 4 + 33 * ins.len() <= b.len(),
        b.subrange(pos, pos + 4 + 33 * ins.len()) == le32(ins.len() as u32) + inserters_bytes(ins),
        forall|i: int| 0 <= i < ins.len() ==> (#[trigger] ins[i]).slots.len() == 4,
    ensures
        parse_inserters(b, pos, true) == Ok::<(Seq<InserterModel>, int), DecodeFault>((ins, pos + 4 + 33 * ins.len())),
{
    let f = |x: InserterModel| inserter_bytes(x);
    assert forall|i: int| 0 <= i < ins.len() implies #[trigger] f(ins[i]).len() == 33 by {
        lemma_inserter_round_trip(ins[i]);
    }
    lemma_written_section(b, pos, ins, f, 33);
    let start = pos + 4;
    let got = Seq::new(ins.len(), |i: int| inserter_from(record(b, start, 33, i), true));
    assert forall|i: int| 0 <= i < ins.len() implies got[i] == ins[i] by {
        assert(record(b, start, 33, i) == f(ins[i]));
        lemma_inserter_round_trip(ins[i]);
    }
    assert forall|i: int| 0 <= i < ins.len() implies !#[trigger] bad_direction_at(b, start, i) by {
        assert(record(b, start, 33, i) == f(ins[i]));
        lemma_inserter_round_trip(ins[i]);
        assert(b[start + 33 * i + 8] == record(b, start, 33, i)[8]);
    }
    assert(got =~= ins);
    assert(!count_too_large(ins.len() as int, b.len() - start, 33));
    assert(!exists|i: int| 0 <= i < ins.len() && #[trigger] bad_direction_at(b, start, i));
}

proof fn lemma_drills_written(b: Seq<u8>, pos: int, ds: Seq<DrillRecord>)
    requires
        ds.len() <= u32::MAX,
        0 <= pos,
        pos + 4 + 22 * ds.len() <= b.len(),
        b.subrange(pos, pos + 4 + 22 * ds.len()) == le32(ds.len() as u32) + drills_bytes(ds),
    ensures
        parse_drills(b, pos) == Ok::<(Seq<DrillRecord>, int), DecodeFault>((ds, pos + 4 + 22 * ds.len())),
{
    let f = |x: DrillRecord| drill_bytes(x);
    assert forall|i: int| 0 <= i < ds.len() implies #[trigger] f(ds[i]).len() == 22 by {
        lemma_drill_round_trip(ds[i]);
    }
    lemma_written_section(b, pos, ds, f, 22);
    let got = Seq::new(ds.len(), |i: int| drill_from(record(b, pos + 4, 22, i)));
    assert forall|i: int| 0 <= i < ds.len() implies got[i] == ds[i] by {
        assert(record(b, pos + 4, 22, i) == f(ds[i]));
        lemma_drill_round_trip(ds[i]);
    }
    assert(got =~= ds);
    assert(!count_too_large(ds.len() as int, b.len() - (pos + 4), 22));
}


/// The decoder budgets 12 bytes for each 10-byte entity record when it checks
/// the entity count against the bytes that follow it; a chunk passes that
/// check when the sections after its entities make up for the difference.
pub open spec fn entities_fit(m: ChunkModel) -> bool {
    2 * m.entities.len() <= 12312 + 104 * m.chests.len() + 28 * m.furnaces.len() + 33 * m.inserters.len()
        + 22 * m.drills.len()
}

/// The shape every chunk read from memory has: sixteen slots per chest, four
/// per inserter, every entity on the chunk's tiles, and no alembic or
/// crucible records, for which the format has no section.
pub open spec fn model_well_formed(m: ChunkModel) -> bool {
    &&& forall|i: int| 0 <= i < m.chests.len() ==> (#[trigger] m.chests[i]).slots.len() == 16
    &&& forall|i: int| 0 <= i < m.inserters.len() ==> (#[trigger] m.inserters[i]).slots.len() == 4
    &&& forall|i: int| 0 <= i < m.entities.len() ==> entity_in_bounds(#[trigger] m.entities[i])
    &&& m.alembics.len() == 0
    &&& m.crucibles.len() == 0
}

/// Where each section of a payload lies, given the widths of its records.
proof fn lemma_payload_layout(m: ChunkModel)
    requires
        m.tiles.len() == 1024,
        m.resources.len() == 1024,
        m.placed.len() == 1024,
        tiles_bytes(m.tiles).len() == 2048,
        entities_bytes(m.entities).len() == 10 * m.entities.len(),
        resources_bytes(m.resources).len() == 3072,
        placed_section_bytes(m.placed).len() == 9216,
        chests_bytes(m.chests).len() == 104 * m.chests.len(),
        furnaces_bytes(m.furnaces).len() == 28 * m.furnaces.len(),
        inserters_bytes(m.inserters).len() == 33 * m.inserters.len(),
        drills_bytes(m.drills).len() == 22 * m.drills.len(),
    ensures ({
        let p = payload_bytes(m);
        let q1: int = 2052;
        let q2: int = q1 + 4 + 10 * m.entities.len();
        let q3: int = q2 + 4 + 3072;
        let q4: int = q3 + 4 + 9216;
        let q5: int = q4 + 4 + 104 * m.chests.len();
        let q6: int = q5 + 4 + 28 * m.furnaces.len();
        let q7: int = q6 + 4 + 33 * m.inserters.len();
        let q8: int = q7 + 4 + 22 * m.drills.len();
        &&& p.len() == q8
        &&& p.subrange(0, q1) == le32(1024) + tiles_bytes(m.tiles)
        &&& p.subrange(q1, q2) == le32(m.entities.len() as u32) + entities_bytes(m.entities)
        &&& p.subrange(q2, q3) == le32(1024) + resources_bytes(m.resources)
        &&& p.subrange(q3, q4) == le32(1024) + placed_section_bytes(m.placed)
        &&& p.subrange(q4, q5) == le32(m.chests.len() as u32) + chests_bytes(m.chests)
        &&& p.subrange(q5, q6) == le32(m.furnaces.len() as u32) + furnaces_bytes(m.furnaces)
        &&& p.subrange(q6, q7) == le32(m.inserters.len() as u32) + inserters_bytes(m.inserters)
        &&& p.subrange(q7, q8) == le32(m.drills.len() as u32) + drills_bytes(m.drills)
    }),
{
    lemma_le_round_trip();
    let c2 = le32(m.entities.len() as u32) + entities_bytes(m.entities);
    let c3 = le32(1024) + resources_bytes(m.resources);
    let c4 = le32(1024) + placed_section_bytes(m.placed);
    let c5 = le32(m.chests.len() as u32) + chests_bytes(m.chests);
    let c6 = le32(m.furnaces.len() as u32) + furnaces_bytes(m.furnaces);
    let c7 = le32(m.inserters.len() as u32) + inserters_bytes(m.inserters);
    let c8 = le32(m.drills.len() as u32) + drills_bytes(m.drills);
    let a1 = le32(1024) + tiles_bytes(m.tiles);
    let a2 = a1 + c2;
    let a3 = a2 + c3;
    let a4 = a3 + c4;
    let a5 = a4 + c5;
    let a6 = a5 + c6;
    let a7 = a6 + c7;
    let p = a7 + c8;
    assert(p =~= payload_bytes(m));
    assert(p.subrange(0, p.len() as int) =~= p);
    lemma_piece(a7, c8, p);
    lemma_piece(a6, c7, p);
    lemma_piece(a5, c6, p);
    lemma_piece(a4, c5, p);
    lemma_piece(a3, c4, p);
    lemma_piece(a2, c3, p);
    lemma_piece(a1, c2, p);
}

/// `(a + c)` is a prefix of `p`, so `c` sits in `p` right after `a`.
proof fn lemma_piece(a: Seq<u8>, c: Seq<u8>, p: Seq<u8>)
    requires
        a.len() + c.len() <= p.len(),
        p.subrange(0, (a.len() + c.len()) as int) == a + c,
    ensures
        p.subrange(a.len() as int, (a.len() + c.len()) as int) == c,
        p.subrange(0, a.len() as int) == a,
{
    lemma_sub_sub(p, 0, (a.len() + c.len()) as int, a.len() as int, (a.len() + c.len()) as int);
    lemma_sub_sub(p, 0, (a.len() + c.len()) as int, 0, a.len() as int);
    assert((a + c).subrange(a.len() as int, (a.len() + c.len()) as int) =~= c);
    assert((a + c).subrange(0, a.len() as int) =~= a);
}



proof fn lemma_payload_written(m: ChunkModel)
    requires
        encode_problem(m) is None,
        model_well_formed(m),
        entities_fit(m),
    ensures
        parse_payload(payload_bytes(m), 7, m.coord, m.layer, m.saved_tick) == Ok::<ChunkModel, DecodeFault>(m),
{
    lemma_le_round_trip();
    let p = payload_bytes(m);
    let ne = m.entities.len();
    let nc = m.chests.len();
    let nf = m.furnaces.len();
    let ni = m.inserters.len();
    let nd = m.drills.len();
    let ft = |t: TileId| le16(t);
    assert forall|i: int| 0 <= i < m.tiles.len() implies #[trigger] ft(m.tiles[i]).len() == 2 by {}
    lemma_concat_map_fixed(m.tiles, ft, 2);
    let fe = |e: Entity| entity_bytes(e);
    assert forall|i: int| 0 <= i < ne implies #[trigger] fe(m.entities[i]).len() == 10 by {
        lemma_entity_round_trip(m.entities[i]);
    }
    lemma_concat_map_fixed(m.entities, fe, 10);
    let fr = |r: ResourceCell| resource_bytes(r);
    assert forall|i: int| 0 <= i < m.resources.len() implies #[trigger] fr(m.resources[i]).len() == 3 by {
        lemma_resource_round_trip(m.resources[i]);
    }
    lemma_concat_map_fixed(m.resources, fr, 3);
    let fp = |x: PlacedCell| placed_bytes(x);
    assert forall|i: int| 0 <= i < m.placed.len() implies #[trigger] fp(m.placed[i]).len() == 9 by {
        lemma_placed_round_trip(m.placed[i]);
    }
    lemma_concat_map_fixed(m.placed, fp, 9);
    let fc = |c: ChestModel| chest_bytes(c);
    assert forall|i: int| 0 <= i < nc implies #[trigger] fc(m.chests[i]).len() == 104 by {
        lemma_chest_round_trip(m.chests[i]);
    }
    lemma_concat_map_fixed(m.chests, fc, 104);
    let ff = |x: FurnaceRecord| furnace_bytes(x);
    assert forall|i: int| 0 <= i < nf implies #[trigger] ff(m.furnaces[i]).len() == 28 by {
        lemma_furnace_round_trip(m.furnaces[i]);
    }
    lemma_concat_map_fixed(m.furnaces, ff, 28);
    let fi = |x: InserterModel| inserter_bytes(x);
    assert forall|i: int| 0 <= i < ni implies #[trigger] fi(m.inserters[i]).len() == 33 by {
        lemma_inserter_round_trip(m.inserters[i]);
    }
    lemma_concat_map_fixed(m.inserters, fi, 33);
    let fd = |x: DrillRecord| drill_bytes(x);
    assert forall|i: int| 0 <= i < nd implies #[trigger] fd(m.drills[i]).len() == 22 by {
        lemma_drill_round_trip(m.drills[i]);
    }
    lemma_concat_map_fixed(m.drills, fd, 22);

    lemma_payload_layout(m);
    let q1: int = 2052;
    let q2: int = q1 + 4 + 10 * ne;
    let q3: int = q2 + 4 + 3072;
    let q4: int = q3 + 4 + 9216;
    let q5: int = q4 + 4 + 104 * nc;
    let q6: int = q5 + 4 + 28 * nf;
    let q7: int = q6 + 4 + 33 * ni;
    lemma_tiles_written(p, m.tiles);
    lemma_entities_written(p, q1, m.entities);
    lemma_resources_written(p, q2, m.resources);
    lemma_placed_written(p, q3, m.placed);
    lemma_chests_written(p, q4, m.chests);
    lemma_furnaces_written(p, q5, m.furnaces);
    lemma_inserters_written(p, q6, m.inserters);
    lemma_drills_written(p, q7, m.drills);
    assert(m.alembics =~= seq![]);
    assert(m.crucibles =~= seq![]);
}

/// Whatever the codec writes for a chunk, it reads back as that same chunk:
/// coordinates, layer, tick, tiles, entities, ore, placements and every
/// container with its contents.
pub proof fn lemma_chunk_round_trip(schema: u16, m: ChunkModel)
    requires
        encode_problem(m) is None,
        model_well_formed(m),
        entities_fit(m),
    ensures
        decode_spec(schema, encode_spec(schema, m)) == Ok::<ChunkModel, DecodeFault>(m),
{
    lemma_le_round_trip();
    lemma_payload_written(m);
    let p = payload_bytes(m);
    let b = encode_spec(schema, m);
    let cx = m.coord.cx;
    let cy = m.coord.cy;
    assert((cx as u32) as i32 == cx) by (bit_vector);
    assert((cy as u32) as i32 == cy) by (bit_vector);
    assert(b.len() == 31 + p.len());
    assert(b.subrange(0, 4) =~= magic());
    assert(b.subrange(4, 6) =~= le16(FORMAT_VERSION));
    assert(b.subrange(6, 8) =~= le16(schema));
    assert(b.subrange(8, 10) =~= le16(0));
    assert(b.subrange(10, 14) =~= le32(cx as u32));
    assert(b.subrange(14, 18) =~= le32(cy as u32));
    assert(b[18] == m.layer);
    assert(b.subrange(19, 27) =~= le64(m.saved_tick));
    assert(b.subrange(27, 31) =~= le32(p.len() as u32));
    assert(b.subrange(31, b.len() as int) =~= p);
    assert(ChunkCoord { cx: u32_at(b, 10) as i32, cy: u32_at(b, 14) as i32 } == m.coord);
}


/// The payload of format 4: the sections of format 7 up to and including
/// the furnaces, without inserters or drills.
pub open spec fn payload_v4_bytes(m: ChunkModel) -> Seq<u8> {
    le32(m.tiles.len() as u32) + tiles_bytes(m.tiles) + le32(m.entities.len() as u32) + entities_bytes(
        m.entities,
    ) + le32(m.resources.len() as u32) + resources_bytes(m.resources) + le32(m.placed.len() as u32)
        + placed_section_bytes(m.placed) + le32(m.chests.len() as u32) + chests_bytes(m.chests)
        + le32(m.furnaces.len() as u32) + furnaces_bytes(m.furnaces)
}

/// What `encode_payload_v4` writes reads back as the chunk it was written
/// from: tiles, entities, ore, placements, chests and furnaces, for a chunk
/// of a format 4 shape (no inserters, drills, alembics or crucibles) whose
/// entity count passes the reader's check against the bytes after it.
pub proof fn lemma_format4_round_trip(m: ChunkModel)
    requires
        m.tiles.len() == 1024,
        m.resources.len() == 1024,
        m.placed.len() == 1024,
        v4_problem(m) is None,
        model_well_formed(m),
        m.inserters.len() == 0,
        m.drills.len() == 0,
        2 * m.entities.len() <= 12304 + 104 * m.chests.len() + 28 * m.furnaces.len(),
    ensures
        parse_payload(payload_v4_bytes(m), 4, m.coord, m.layer, m.saved_tick) == Ok::<ChunkModel, DecodeFault>(m),
{
    lemma_le_round_trip();
    let ne = m.entities.len();
    let nc = m.chests.len();
    let nf = m.furnaces.len();
    let ft = |t: TileId| le16(t);
    assert forall|i: int| 0 <= i < m.tiles.len() implies #[trigger] ft(m.tiles[i]).len() == 2 by {}
    lemma_concat_map_fixed(m.tiles, ft, 2);
    let fe = |e: Entity| entity_bytes(e);
    assert forall|i: int| 0 <= i < ne implies #[trigger] fe(m.entities[i]).len() == 10 by {
        lemma_entity_round_trip(m.entities[i]);
    }
    lemma_concat_map_fixed(m.entities, fe, 10);
    let fr = |r: ResourceCell| resource_bytes(r);
    assert forall|i: int| 0 <= i < m.resources.len() implies #[trigger] fr(m.resources[i]).len() == 3 by {
        lemma_resource_round_trip(m.resources[i]);
    }
    lemma_concat_map_fixed(m.resources, fr, 3);
    let fp = |x: PlacedCell| placed_bytes(x);
    assert forall|i: int| 0 <= i < m.placed.len() implies #[trigger] fp(m.placed[i]).len() == 9 by {
        lemma_placed_round_trip(m.placed[i]);
    }
    lemma_concat_map_fixed(m.placed, fp, 9);
    let fc = |c: ChestModel| chest_bytes(c);
    assert forall|i: int| 0 <= i < nc implies #[trigger] fc(m.chests[i]).len() == 104 by {
        lemma_chest_round_trip(m.chests[i]);
    }
    lemma_concat_map_fixed(m.chests, fc, 104);
    let ff = |x: FurnaceRecord| furnace_bytes(x);
    assert forall|i: int| 0 <= i < nf implies #[trigger] ff(m.furnaces[i]).len() == 28 by {
        lemma_furnace_round_trip(m.furnaces[i]);
    }
    lemma_concat_map_fixed(m.furnaces, ff, 28);
    let fi = |x: InserterModel| inserter_bytes(x);
    lemma_concat_map_fixed(m.inserters, fi, 33);
    let fd = |x: DrillRecord| drill_bytes(x);
    lemma_concat_map_fixed(m.drills, fd, 22);

    lemma_payload_layout(m);
    let p = payload_bytes(m);
    let q1: int = 2052;
    let q2: int = q1 + 4 + 10 * ne;
    let q3: int = q2 + 4 + 3072;
    let q4: int = q3 + 4 + 9216;
    let q5: int = q4 + 4 + 104 * nc;
    let q6: int = q5 + 4 + 28 * nf;
    let b = payload_v4_bytes(m);
    let rest = le32(m.inserters.len() as u32) + inserters_bytes(m.inserters) + le32(m.drills.len() as u32)
        + drills_bytes(m.drills);
    assert(p =~= b + rest);
    assert(b =~= p.subrange(0, q6));
    lemma_sub_sub(p, 0, q6, 0, q1);
    lemma_sub_sub(p, 0, q6, q1, q2);
    lemma_sub_sub(p, 0, q6, q2, q3);
    lemma_sub_sub(p, 0, q6, q3, q4);
    lemma_sub_sub(p, 0, q6, q4, q5);
    lemma_sub_sub(p, 0, q6, q5, q6);
    lemma_tiles_written(b, m.tiles);
    lemma_entities_written(b, q1, m.entities);
    lemma_resources_written(b, q2, m.resources);
    lemma_placed_written(b, q3, m.placed);
    lemma_chests_written(b, q4, m.chests);
    lemma_furnaces_written(b, q5, m.furnaces);
    assert(m.inserters =~= seq![]);
    assert(m.drills =~= seq![]);
    assert(m.alembics =~= seq![]);
    assert(m.crucibles =~= seq![]);
}


/// Formats before 6 store no facing for inserters: every inserter they hold
/// reads back facing right, the default direction.
pub proof fn lemma_old_inserters_face_default(b: Seq<u8>, version: u16, coord: ChunkCoord, layer: ChunkLayer, tick: u64)
    requires
        version <= 5,
    ensures
        parse_payload(b, version, coord, layer, tick) matches Ok(m) ==> forall|i: int|
            0 <= i < m.inserters.len() ==> (#[trigger] m.inserters[i]).direction == InserterDirection::Right,
{
}

/// A whole chunk of format 5 or older reads back with every inserter
/// facing right, the default direction.
pub proof fn lemma_old_chunks_face_default(schema: u16, b: Seq<u8>)
    ensures
        u16_at(b, 4) <= 5 ==> (decode_spec(schema, b) matches Ok(m) ==> forall|i: int|
            0 <= i < m.inserters.len() ==> (#[trigger] m.inserters[i]).direction == InserterDirection::Right),
{
    if b.len() >= 31 && u16_at(b, 4) <= 5 {
        lemma_old_inserters_face_default(
            b.subrange(31, b.len() as int),
            u16_at(b, 4),
            ChunkCoord { cx: u32_at(b, 10) as i32, cy: u32_at(b, 14) as i32 },
            b[18],
            u64_at(b, 19),
        );
    }
}

} // verus!
