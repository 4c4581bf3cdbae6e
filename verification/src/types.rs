//! Identifiers and records exchanged with world storage.
use vstd::prelude::*;
use crate::text::{
    decimal, lemma_decimal_injective, lemma_decimal_shape, lemma_signed_decimal_injective, numeral_char, push_decimal,
    push_signed_decimal, signed_decimal,
};
use crate::world::{ChunkCoord, ChunkLayer, ResourceId};

verus! {

/// The name of a stored world.
#[derive(Debug, Clone, PartialEq, Eq, Hash)]
pub struct WorldId(String);

impl View for WorldId {
    type V = Seq<char>;

    closed spec fn view(&self) -> Seq<char> {
        self.0@
    }
}

impl WorldId {
    pub fn new(value: &str) -> (w: WorldId)
        ensures
            w@ == value@,
    {
        WorldId(String::from_str(value))
    }

    pub fn as_str(&self) -> (s: &str)
        ensures
            s@ == self@,
    {
        self.0.as_str()
    }

    /// Whether two world names are the same.
    pub fn same_as(&self, other: &WorldId) -> (b: bool)
        ensures
            b == (self@ == other@),
    {
        self.0 == other.0
    }

    /// A copy of the name.
    pub fn duplicate(&self) -> (w: WorldId)
        ensures
            w == *self,
    {
        WorldId(self.0.clone())
    }
}

/// Where a chunk is stored: its world, position and layer.
#[derive(Debug, Clone, PartialEq, Eq, Hash)]
pub struct ChunkKey {
    pub world_id: WorldId,
    pub coord: ChunkCoord,
    pub layer: ChunkLayer,
}

/// A key as plain values: the world's name, the position and the layer.
pub open spec fn key_view(k: ChunkKey) -> (Seq<char>, ChunkCoord, ChunkLayer) {
    (k.world_id@, k.coord, k.layer)
}

/// The storage key text of a chunk: `world:cx:cy:layer`.
pub open spec fn key_string_spec(world: Seq<char>, coord: ChunkCoord, layer: ChunkLayer) -> Seq<char> {
    world + ":"@ + signed_decimal(coord.cx as int) + ":"@ + signed_decimal(coord.cy as int) + ":"@
        + decimal(layer as nat)
}

impl ChunkKey {
    pub fn new(world_id: WorldId, coord: ChunkCoord, layer: ChunkLayer) -> (k: ChunkKey)
        ensures
            k.world_id == world_id,
            k.coord == coord,
            k.layer == layer,
    {
        ChunkKey { world_id, coord, layer }
    }

    /// Whether two keys name the same chunk.
    pub fn same_as(&self, other: &ChunkKey) -> (b: bool)
        ensures
            b == (key_view(*self) == key_view(*other)),
    {
        self.world_id.same_as(&other.world_id) && self.coord == other.coord && self.layer == other.layer
    }

    /// A copy of the key.
    pub fn duplicate(&self) -> (k: ChunkKey)
        ensures
            k == *self,
    {
        ChunkKey { world_id: self.world_id.duplicate(), coord: self.coord, layer: self.layer }
    }

    pub fn to_key_string(&self) -> (s: String)
        ensures
            s@ == key_string_spec(self.world_id@, self.coord, self.layer),
    {
        let mut s = String::from_str(self.world_id.as_str());
        s.append(":");
        push_signed_decimal(&mut s, self.coord.cx as i64);
        s.append(":");
        push_signed_decimal(&mut s, self.coord.cy as i64);
        s.append(":");
        push_decimal(&mut s, self.layer as u64);
        s
    }
}

#[derive(Debug, Clone, PartialEq, Eq)]
pub struct WorldMeta {
    pub world_id: WorldId,
    pub display_name: String,
    pub created_at_ms: u64,
    pub updated_at_ms: u64,
    pub schema_version: u16,
    pub seed: Option<u64>,
    pub last_saved_tick: Option<u64>,
}

#[derive(Debug, Clone, PartialEq, Eq)]
pub struct ChunkRecord {
    pub key: ChunkKey,
    pub blob: Vec<u8>,
    pub tick_saved: u64,
    pub checksum: u32,
    pub updated_at_ms: u64,
}

#[derive(Debug, Clone, PartialEq, Eq)]
pub struct ChunkRecordWrite {
    pub key: ChunkKey,
    pub blob: Vec<u8>,
    pub tick_saved: u64,
    pub checksum: u32,
    pub updated_at_ms: u64,
}

/// A stored map snapshot of one chunk: its pixels and known ore per tile.
#[derive(Debug, Clone, PartialEq, Eq)]
pub struct MapChunkRecord {
    pub key: ChunkKey,
    pub rgba: Vec<u8>,
    pub resource_kinds: Vec<ResourceId>,
    pub resource_amounts: Vec<u16>,
    pub updated_at_ms: u64,
}

#[derive(Debug, Clone, PartialEq, Eq)]
pub struct MapChunkRecordWrite {
    pub key: ChunkKey,
    pub rgba: Vec<u8>,
    pub resource_kinds: Vec<ResourceId>,
    pub resource_amounts: Vec<u16>,
    pub updated_at_ms: u64,
}

#[derive(Debug, Clone, PartialEq, Eq)]
pub struct PlayerStateRecord {
    pub world_id: WorldId,
    pub blob: Vec<u8>,
    pub updated_at_ms: u64,
}

#[derive(Debug, Clone, PartialEq, Eq)]
pub struct PlayerStateRecordWrite {
    pub world_id: WorldId,
    pub blob: Vec<u8>,
    pub updated_at_ms: u64,
}

/// The name of a savepoint.
#[derive(Debug, Clone, PartialEq, Eq, Hash)]
pub struct SavepointId(String);

impl View for SavepointId {
    type V = Seq<char>;

    closed spec fn view(&self) -> Seq<char> {
        self.0@
    }
}

impl SavepointId {
    pub fn new(value: &str) -> (id: SavepointId)
        ensures
            id@ == value@,
    {
        SavepointId(String::from_str(value))
    }

    pub fn as_str(&self) -> (s: &str)
        ensures
            s@ == self@,
    {
        self.0.as_str()
    }
}

#[derive(Debug, Clone, PartialEq, Eq)]
pub enum SavepointStatus {
    Writing,
    Committed,
}

#[derive(Debug, Clone, PartialEq, Eq)]
pub struct Savepoint {
    pub id: SavepointId,
    pub world_id: WorldId,
    pub tick: u64,
    pub created_at_ms: u64,
    pub status: SavepointStatus,
    pub chunk_keys: Vec<ChunkKey>,
}

#[derive(Debug, Clone, PartialEq, Eq)]
pub struct RecoveryReport {
    pub incomplete_savepoints: Vec<SavepointId>,
}

/// The world being played: its name, its seed and the current tick.
#[derive(Debug, Clone)]
pub struct WorldSession {
    pub world_id: WorldId,
    pub world_seed: u64,
    pub tick: u64,
}

impl Default for WorldSession {
    fn default() -> (s: Self)
        ensures
            s.world_id@ == "local-dev"@,
            s.world_seed == 1337,
            s.tick == 0,
    {
        WorldSession { world_id: WorldId::new("local-dev"), world_seed: 1337, tick: 0 }
    }
}

/// Where worlds are stored: the database's name and version, and the game
/// schema version stamped into saved chunks.
#[derive(Debug, Clone)]
pub struct StorageConfig {
    pub db_name: String,
    pub db_version: u32,
    pub game_schema_version: u16,
}

impl Default for StorageConfig {
    fn default() -> (c: Self)
        ensures
            c.db_name@ == "game_worlds"@,
            c.db_version == 3,
            c.game_schema_version == 1,
    {
        StorageConfig { db_name: String::from_str("game_worlds"), db_version: 3, game_schema_version: 1 }
    }
}


/// Splitting text at a colon followed only by numerals is unique: the part
/// after is the text after the last colon.
proof fn lemma_split_at_last_colon(l1: Seq<char>, r1: Seq<char>, l2: Seq<char>, r2: Seq<char>)
    requires
        l1 + ":"@ + r1 == l2 + ":"@ + r2,
        forall|i: int| 0 <= i < r1.len() ==> numeral_char(#[trigger] r1[i]),
        forall|i: int| 0 <= i < r2.len() ==> numeral_char(#[trigger] r2[i]),
    ensures
        l1 == l2,
        r1 == r2,
{
    reveal_strlit(":");
    let x = l1 + ":"@ + r1;
    let y = l2 + ":"@ + r2;
    assert(x.len() == l1.len() + 1 + r1.len());
    assert(y.len() == l2.len() + 1 + r2.len());
    assert(x[l1.len() as int] == ':');
    assert(y[l2.len() as int] == ':');
    if r1.len() < r2.len() {
        assert(y[l1.len() as int] == r2[l1.len() - l2.len() - 1]);
        assert(numeral_char(r2[l1.len() - l2.len() - 1]));
    } else if r2.len() < r1.len() {
        assert(x[l2.len() as int] == r1[l2.len() - l1.len() - 1]);
        assert(numeral_char(r1[l2.len() - l1.len() - 1]));
    }
    assert(l1 =~= x.subrange(0, l1.len() as int));
    assert(l2 =~= y.subrange(0, l2.len() as int));
    assert(r1 =~= x.subrange(l1.len() + 1int, x.len() as int));
    assert(r2 =~= y.subrange(l2.len() + 1int, y.len() as int));
}

/// Different chunk keys have different key texts, whatever the world names
/// hold (colons too): the three numbers after the last three colons give
/// back the position and the layer, and what comes before is the world.
pub proof fn lemma_key_string_injective(a: ChunkKey, b: ChunkKey)
    requires
        key_string_spec(a.world_id@, a.coord, a.layer) == key_string_spec(b.world_id@, b.coord, b.layer),
    ensures
        key_view(a) == key_view(b),
{
    lemma_signed_decimal_injective(a.coord.cx as int, b.coord.cx as int);
    lemma_signed_decimal_injective(b.coord.cx as int, a.coord.cx as int);
    lemma_signed_decimal_injective(a.coord.cy as int, b.coord.cy as int);
    lemma_signed_decimal_injective(b.coord.cy as int, a.coord.cy as int);
    lemma_decimal_shape(a.layer as nat);
    lemma_decimal_shape(b.layer as nat);
    let la = decimal(a.layer as nat);
    let lb = decimal(b.layer as nat);
    assert forall|i: int| 0 <= i < la.len() implies numeral_char(#[trigger] la[i]) by {
        assert('0' <= la[i] <= '9');
    }
    assert forall|i: int| 0 <= i < lb.len() implies numeral_char(#[trigger] lb[i]) by {
        assert('0' <= lb[i] <= '9');
    }
    let wa = a.world_id@ + ":"@ + signed_decimal(a.coord.cx as int);
    let wb = b.world_id@ + ":"@ + signed_decimal(b.coord.cx as int);
    lemma_split_at_last_colon(
        wa + ":"@ + signed_decimal(a.coord.cy as int),
        la,
        wb + ":"@ + signed_decimal(b.coord.cy as int),
        lb,
    );
    lemma_decimal_injective(a.layer as nat, b.layer as nat);
    lemma_split_at_last_colon(wa, signed_decimal(a.coord.cy as int), wb, signed_decimal(b.coord.cy as int));
    lemma_split_at_last_colon(
        a.world_id@,
        signed_decimal(a.coord.cx as int),
        b.world_id@,
        signed_decimal(b.coord.cx as int),
    );
    assert(a.coord == b.coord);
}

} // verus!
