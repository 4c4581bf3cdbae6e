//! The queue of chunk saves waiting for storage: a chunk is queued once,
//! its latest bytes replacing older ones still waiting, and a batch from the
//! front is written on each flush.
use vstd::prelude::*;
use crate::codec::{encode_problem, encode_spec, ChunkCodec, ChunkCodecV1};
use crate::controls::{StorageState, StorageStatus};
use crate::errors::StorageError;
use crate::types::{key_view, ChunkKey, ChunkRecordWrite, MapChunkRecordWrite};
use crate::containers::{ChestRecord, InserterRecord};
use crate::world::{chest_model, inserter_model, ChunkModel, SimChunkData, SimChunkView};

verus! {

/// `i` is the first waiting save of the chunk `key` names.
pub open spec fn is_first_for(pending: Seq<ChunkRecordWrite>, key: ChunkKey, i: int) -> bool {
    &&& 0 <= i < pending.len()
    &&& key_view(pending[i].key) == key_view(key)
    &&& forall|j: int| 0 <= j < i ==> key_view(#[trigger] pending[j].key) != key_view(key)
}

/// The first waiting save of the chunk `key` names, if any.
pub open spec fn queued_at(pending: Seq<ChunkRecordWrite>, key: ChunkKey) -> Option<int> {
    if exists|i: int| is_first_for(pending, key, i) {
        Some(choose|i: int| is_first_for(pending, key, i))
    } else {
        None
    }
}

proof fn lemma_queued_at_found(pending: Seq<ChunkRecordWrite>, key: ChunkKey, i: int)
    requires
        is_first_for(pending, key, i),
    ensures
        queued_at(pending, key) == Some(i),
{
    let c = choose|k: int| is_first_for(pending, key, k);
    assert(is_first_for(pending, key, c));
    if c < i {
        assert(key_view(pending[c].key) != key_view(key));
    } else if i < c {
        assert(key_view(pending[i].key) != key_view(key));
    }
}

fn find_queued(pending: &Vec<ChunkRecordWrite>, key: &ChunkKey) -> (r: Option<usize>)
    ensures
        match r {
            Some(i) => queued_at(pending@, *key) == Some(i as int),
            None => queued_at(pending@, *key) is None,
        },
{
    let mut i: usize = 0;
    while i < pending.len()
        invariant
            0 <= i <= pending@.len(),
            forall|j: int| 0 <= j < i ==> key_view(#[trigger] pending@[j].key) != key_view(*key),
        decreases pending@.len() - i,
    {
        if pending[i].key.same_as(key) {
            proof {
                lemma_queued_at_found(pending@, *key, i as int);
            }
            return Some(i);
        }
        i = i + 1;
    }
    None
}

/// Whether a save of the chunk `key` names is still waiting.
pub fn still_pending(pending: &Vec<ChunkRecordWrite>, key: &ChunkKey) -> (b: bool)
    ensures
        b == queued_at(pending@, *key) is Some,
{
    find_queued(pending, key).is_some()
}

/// No chunk waits twice.
pub open spec fn saves_unique(pending: Seq<ChunkRecordWrite>) -> bool {
    forall|i: int, j: int|
        0 <= i < j < pending.len() ==> key_view(#[trigger] pending[i].key) != key_view(#[trigger] pending[j].key)
}

proof fn lemma_not_queued(pending: Seq<ChunkRecordWrite>, key: ChunkKey)
    requires
        queued_at(pending, key) is None,
    ensures
        forall|j: int| 0 <= j < pending.len() ==> key_view(#[trigger] pending[j].key) != key_view(key),
{
    assert forall|j: int| 0 <= j < pending.len() implies key_view(#[trigger] pending[j].key) != key_view(key) by {
        if key_view(pending[j].key) == key_view(key) {
            lemma_first_match(pending, key, j);
        }
    }
}

proof fn lemma_first_match(pending: Seq<ChunkRecordWrite>, key: ChunkKey, j: int)
    requires
        0 <= j < pending.len(),
        key_view(pending[j].key) == key_view(key),
    ensures
        exists|i: int| is_first_for(pending, key, i),
    decreases j,
{
    if exists|k: int| 0 <= k < j && key_view(#[trigger] pending[k].key) == key_view(key) {
        let k = choose|k: int| 0 <= k < j && key_view(#[trigger] pending[k].key) == key_view(key);
        lemma_first_match(pending, key, k);
    } else {
        assert(is_first_for(pending, key, j));
    }
}

/// The waiting saves after queuing `record`: a save of the same chunk
/// already waiting takes its bytes, tick, checksum and time in place;
/// otherwise the record joins the end of the queue.
pub open spec fn upserted(pending: Seq<ChunkRecordWrite>, record: ChunkRecordWrite) -> Seq<ChunkRecordWrite> {
    match queued_at(pending, record.key) {
        Some(i) => pending.update(i, ChunkRecordWrite { key: pending[i].key, ..record }),
        None => pending.push(record),
    }
}

/// Queues `record`, replacing a waiting save of the same chunk.
pub fn upsert_chunk_save(pending: &mut Vec<ChunkRecordWrite>, record: ChunkRecordWrite)
    ensures
        final(pending)@ == upserted(old(pending)@, record),
{
    match find_queued(pending, &record.key) {
        Some(i) => {
            let ghost before = pending@;
            let slot = &mut pending[i];
            slot.blob = record.blob;
            slot.tick_saved = record.tick_saved;
            slot.checksum = record.checksum;
            slot.updated_at_ms = record.updated_at_ms;
            proof {
                assert(pending@ =~= before.update(i as int, ChunkRecordWrite { key: before[i as int].key, ..record }));
            }
        },
        None => {
            pending.push(record);
        },
    }
}

/// A loaded chunk as the codec stores it, stamped with `tick`.
pub open spec fn stored_model(d: SimChunkData, tick: u64) -> ChunkModel {
    ChunkModel {
        coord: d.coord,
        layer: d.layer,
        tiles: d.tiles@,
        resources: d.resources@,
        placed: d.placed@,
        chests: d.chests@.map_values(|c: ChestRecord| chest_model(c)),
        furnaces: d.furnaces@,
        inserters: d.inserters@.map_values(|i: InserterRecord| inserter_model(i)),
        drills: d.drills@,
        alembics: seq![],
        crucibles: seq![],
        entities: d.entities@,
        saved_tick: tick,
    }
}

/// Queuing saves by replacement keeps every chunk waiting at most once, and
/// the chunk just queued is waiting.
pub proof fn lemma_upsert_keeps_saves_unique(pending: Seq<ChunkRecordWrite>, record: ChunkRecordWrite)
    requires
        saves_unique(pending),
    ensures
        saves_unique(upserted(pending, record)),
        queued_at(upserted(pending, record), record.key) is Some,
{
    let after = upserted(pending, record);
    match queued_at(pending, record.key) {
        Some(i) => {
            assert(is_first_for(pending, record.key, i)) by {
                assert(exists|k: int| is_first_for(pending, record.key, k));
            }
            assert forall|a: int, b: int| 0 <= a < b < after.len() implies key_view(#[trigger] after[a].key)
                != key_view(#[trigger] after[b].key) by {
                assert(after[a].key == pending[a].key && after[b].key == pending[b].key);
            }
            assert forall|j: int| 0 <= j < i implies key_view(#[trigger] after[j].key) != key_view(record.key) by {
                assert(after[j].key == pending[j].key);
            }
            assert(is_first_for(after, record.key, i));
        },
        None => {
            lemma_not_queued(pending, record.key);
            let n = pending.len() as int;
            assert forall|a: int, b: int| 0 <= a < b < after.len() implies key_view(#[trigger] after[a].key)
                != key_view(#[trigger] after[b].key) by {
                if b == n {
                    assert(after[a].key == pending[a].key);
                } else {
                    assert(after[a].key == pending[a].key && after[b].key == pending[b].key);
                }
            }
            assert forall|j: int| 0 <= j < n implies key_view(#[trigger] after[j].key) != key_view(record.key) by {
                assert(after[j].key == pending[j].key);
            }
            assert(is_first_for(after, record.key, n));
        },
    }
    assert(exists|k: int| is_first_for(after, record.key, k));
}

/// Encodes a loaded chunk as of `tick` and queues its save, stamped with
/// `updated_at_ms`; when the chunk cannot be encoded, the storage status
/// records the error and nothing is queued. Says whether it was queued.
pub fn queue_chunk_save(
    pending: &mut Vec<ChunkRecordWrite>,
    status: &mut StorageStatus,
    codec: &ChunkCodecV1,
    key: &ChunkKey,
    data: &SimChunkData,
    tick: u64,
    updated_at_ms: u64,
) -> (queued: bool)
    ensures
        match encode_problem(stored_model(*data, tick)) {
            Some(msg) => {
                &&& !queued
                &&& final(pending)@ == old(pending)@
                &&& final(status).state == StorageState::Degraded
                &&& final(status).detail matches Some(d) && d@ == "storage error: "@ + msg
            },
            None => {
                &&& queued
                &&& *final(status) == *old(status)
                &&& exists|blob: Vec<u8>|
                    {
                        &&& blob@ == encode_spec(codec.schema(), stored_model(*data, tick))
                        &&& final(pending)@ == upserted(
                            old(pending)@,
                            ChunkRecordWrite { key: *key, blob, tick_saved: tick, checksum: 0, updated_at_ms },
                        )
                    }
            },
        },
{
    let view = SimChunkView::from_data(data);
    proof {
        assert(view.model_at(tick) == stored_model(*data, tick));
    }
    match codec.encode(&view, tick) {
        Ok(blob) => {
            let record = ChunkRecordWrite { key: key.duplicate(), blob, tick_saved: tick, checksum: 0, updated_at_ms };
            let ghost stored = record.blob;
            let ghost before = pending@;
            upsert_chunk_save(pending, record);
            assert(stored@ == encode_spec(codec.schema(), stored_model(*data, tick)));
            assert(pending@ == upserted(
                before,
                ChunkRecordWrite { key: *key, blob: stored, tick_saved: tick, checksum: 0, updated_at_ms },
            ));
            true
        },
        Err(error) => {
            status.record_error(&error);
            false
        },
    }
}

/// Encodes a chunk as of `tick` and adds its save at the end of the queue,
/// as a chunk leaving memory or a newly generated one does; when the chunk
/// cannot be encoded, the storage status records the error and nothing is
/// queued. Says whether it was queued.
pub fn append_chunk_save(
    pending: &mut Vec<ChunkRecordWrite>,
    status: &mut StorageStatus,
    codec: &ChunkCodecV1,
    key: &ChunkKey,
    data: &SimChunkData,
    tick: u64,
    updated_at_ms: u64,
) -> (queued: bool)
    ensures
        match encode_problem(stored_model(*data, tick)) {
            Some(msg) => {
                &&& !queued
                &&& final(pending)@ == old(pending)@
                &&& final(status).state == StorageState::Degraded
                &&& final(status).detail matches Some(d) && d@ == "storage error: "@ + msg
            },
            None => {
                &&& queued
                &&& *final(status) == *old(status)
                &&& final(pending)@.len() == old(pending)@.len() + 1
                &&& final(pending)@.drop_last() == old(pending)@
                &&& final(pending)@.last().key == *key
                &&& final(pending)@.last().blob@ == encode_spec(codec.schema(), stored_model(*data, tick))
                &&& final(pending)@.last().tick_saved == tick
                &&& final(pending)@.last().checksum == 0
                &&& final(pending)@.last().updated_at_ms == updated_at_ms
            },
        },
{
    let view = SimChunkView::from_data(data);
    proof {
        assert(view.model_at(tick) == stored_model(*data, tick));
    }
    match codec.encode(&view, tick) {
        Ok(blob) => {
            pending.push(ChunkRecordWrite { key: key.duplicate(), blob, tick_saved: tick, checksum: 0, updated_at_ms });
            assert(pending@.drop_last() =~= old(pending)@);
            true
        },
        Err(error) => {
            status.record_error(&error);
            false
        },
    }
}

/// A flush starts when no write is in flight, saving is not paused, the
/// autosave timer has just fired and something is waiting.
pub fn flush_due(in_flight: bool, state: StorageState, timer_fired: bool, waiting: usize) -> (b: bool)
    ensures
        b == (!in_flight && state != StorageState::Paused && timer_fired && waiting > 0),
{
    !in_flight && state != StorageState::Paused && timer_fired && waiting > 0
}

/// A copy of a waiting save.
pub open spec fn same_record(a: ChunkRecordWrite, b: ChunkRecordWrite) -> bool {
    &&& a.key == b.key
    &&& a.blob@ == b.blob@
    &&& a.tick_saved == b.tick_saved
    &&& a.checksum == b.checksum
    &&& a.updated_at_ms == b.updated_at_ms
}

fn copy_bytes(bytes: &Vec<u8>) -> (c: Vec<u8>)
    ensures
        c@ == bytes@,
{
    let mut c: Vec<u8> = Vec::new();
    let mut i: usize = 0;
    while i < bytes.len()
        invariant
            0 <= i <= bytes@.len(),
            c@ == bytes@.take(i as int),
        decreases bytes@.len() - i,
    {
        c.push(bytes[i]);
        i = i + 1;
        assert(c@ =~= bytes@.take(i as int));
    }
    assert(bytes@.take(bytes@.len() as int) =~= bytes@);
    c
}

fn copy_record(r: &ChunkRecordWrite) -> (c: ChunkRecordWrite)
    ensures
        same_record(c, *r),
{
    ChunkRecordWrite {
        key: r.key.duplicate(),
        blob: copy_bytes(&r.blob),
        tick_saved: r.tick_saved,
        checksum: r.checksum,
        updated_at_ms: r.updated_at_ms,
    }
}

/// The batch a flush writes: copies of the first `max` waiting saves, or of
/// all of them when fewer wait.
pub fn flush_batch(pending: &Vec<ChunkRecordWrite>, max: usize) -> (batch: Vec<ChunkRecordWrite>)
    ensures
        batch@.len() == if pending@.len() < max { pending@.len() } else { max as nat },
        forall|i: int| 0 <= i < batch@.len() ==> same_record(#[trigger] batch@[i], pending@[i]),
{
    let n = if pending.len() < max { pending.len() } else { max };
    let mut batch: Vec<ChunkRecordWrite> = Vec::new();
    let mut i: usize = 0;
    while i < n
        invariant
            n <= pending@.len(),
            0 <= i <= n,
            batch@.len() == i,
            forall|k: int| 0 <= k < i ==> same_record(#[trigger] batch@[k], pending@[k]),
        decreases n - i,
    {
        let r = copy_record(&pending[i]);
        batch.push(r);
        i = i + 1;
    }
    batch
}

/// After a flush of `count` saves succeeded, that many leave the front of
/// the queue (all of them, when fewer wait).
pub fn drop_flushed(pending: &mut Vec<ChunkRecordWrite>, count: usize)
    ensures
        final(pending)@ == old(pending)@.skip(if count < old(pending)@.len() { count as int } else { old(pending)@.len() as int }),
{
    let n = if count < pending.len() { count } else { pending.len() };
    let ghost before = pending@;
    let mut k: usize = 0;
    while k < n
        invariant
            n <= before.len(),
            0 <= k <= n,
            pending@ == before.skip(k as int),
        decreases n - k,
    {
        let _ = pending.remove(0);
        k = k + 1;
        assert(pending@ =~= before.skip(k as int));
    }
}

/// `i` is the first waiting map snapshot of the chunk `key` names.
pub open spec fn is_first_snapshot_for(pending: Seq<MapChunkRecordWrite>, key: ChunkKey, i: int) -> bool {
    &&& 0 <= i < pending.len()
    &&& key_view(pending[i].key) == key_view(key)
    &&& forall|j: int| 0 <= j < i ==> key_view(#[trigger] pending[j].key) != key_view(key)
}

/// The first waiting map snapshot of the chunk `key` names, if any.
pub open spec fn snapshot_queued_at(pending: Seq<MapChunkRecordWrite>, key: ChunkKey) -> Option<int> {
    if exists|i: int| is_first_snapshot_for(pending, key, i) {
        Some(choose|i: int| is_first_snapshot_for(pending, key, i))
    } else {
        None
    }
}

/// The waiting map snapshots after queuing `record`: a snapshot of the same
/// chunk already waiting takes its pixels, ore and time in place; otherwise
/// the record joins the end of the queue.
pub open spec fn snapshot_upserted(pending: Seq<MapChunkRecordWrite>, record: MapChunkRecordWrite) -> Seq<MapChunkRecordWrite> {
    match snapshot_queued_at(pending, record.key) {
        Some(i) => pending.update(i, MapChunkRecordWrite { key: pending[i].key, ..record }),
        None => pending.push(record),
    }
}

fn find_queued_snapshot(pending: &Vec<MapChunkRecordWrite>, key: &ChunkKey) -> (r: Option<usize>)
    ensures
        match r {
            Some(i) => snapshot_queued_at(pending@, *key) == Some(i as int),
            None => snapshot_queued_at(pending@, *key) is None,
        },
{
    let mut i: usize = 0;
    while i < pending.len()
        invariant
            0 <= i <= pending@.len(),
            forall|j: int| 0 <= j < i ==> key_view(#[trigger] pending@[j].key) != key_view(*key),
        decreases pending@.len() - i,
    {
        if pending[i].key.same_as(key) {
            proof {
                assert(is_first_snapshot_for(pending@, *key, i as int));
                let c = choose|k: int| is_first_snapshot_for(pending@, *key, k);
                assert(is_first_snapshot_for(pending@, *key, c));
                if c < i {
                    assert(key_view(pending@[c].key) != key_view(*key));
                } else if (i as int) < c {
                    assert(key_view(pending@[i as int].key) != key_view(*key));
                }
            }
            return Some(i);
        }
        i = i + 1;
    }
    None
}

/// Queues a map snapshot, replacing a waiting one of the same chunk.
pub fn upsert_map_snapshot_save(pending: &mut Vec<MapChunkRecordWrite>, record: MapChunkRecordWrite)
    ensures
        final(pending)@ == snapshot_upserted(old(pending)@, record),
{
    match find_queued_snapshot(pending, &record.key) {
        Some(i) => {
            let ghost before = pending@;
            let slot = &mut pending[i];
            slot.rgba = record.rgba;
            slot.resource_kinds = record.resource_kinds;
            slot.resource_amounts = record.resource_amounts;
            slot.updated_at_ms = record.updated_at_ms;
            proof {
                assert(pending@ =~= before.update(i as int, MapChunkRecordWrite { key: before[i as int].key, ..record }));
            }
        },
        None => {
            pending.push(record);
        },
    }
}

} // verus!
