//! One item carried by an inserter across the loaded chunks: taken from the
//! machine it comes from, given to the machine it goes to, and put back
//! where it came from when it finds no room. A machine is found in the first
//! loaded chunk that holds one with its id.
use vstd::prelude::*;
use crate::containers::{
    accepts, alembic_ids, crucible_ids, deposit_to_alembic_input, deposit_to_crucible_input, find_alembic,
    find_crucible, take_from_alembic_output, take_from_crucible_output, AlembicRecord, AlembicState, CrucibleRecord, chest_ids, deposit_to_chest, deposit_to_drill_fuel, deposit_to_furnace_fuel, deposit_to_furnace_input,
    deposit_to_inserter, take_from_chest, take_from_drill, take_from_furnace, take_from_inserter, DrillSlot,
    DrillState, FurnaceSlot, FurnaceState, deposit_slots_rel, deposit_spec, drill_ids, find_chest, find_drill, find_furnace,
    find_inserter, first_with, furnace_ids, inserter_ids, is_first_with, lemma_first_with_found, take_spec,
    ChestRecord, DrillRecord, FurnaceRecord, InserterDirection, InserterRecord, Slot,
};
use crate::gameplay::{essence_output_for_input, essence_spec, is_essence_item, is_essence_spec, smelt_output_for_input, smelt_spec};
use crate::inventory::{ItemId, ITEM_COAL, ITEM_NONE};
use crate::rules::deposit_to_slot_unchecked;
use crate::transfer::{TransferSource, TransferTarget};
use crate::world::{ObjectId, SimChunkData};

verus! {

/// The machines of one loaded chunk as plain values: each chest and
/// inserter by its id (and facing) and its slots, each crucible by its id,
/// essence slots, output and progress, the furnace, drill and alembic
/// records as they are.
#[verifier::ext_equal]
pub struct MachineView {
    pub chests: Seq<(ObjectId, Seq<Slot>)>,
    pub furnaces: Seq<FurnaceRecord>,
    pub drills: Seq<DrillRecord>,
    pub alembics: Seq<AlembicRecord>,
    pub crucibles: Seq<(ObjectId, Seq<Slot>, Slot, u16)>,
    pub inserters: Seq<(ObjectId, InserterDirection, Seq<Slot>)>,
}

/// A crucible as plain values.
pub open spec fn crucible_view(c: CrucibleRecord) -> (ObjectId, Seq<Slot>, Slot, u16) {
    (c.object_id, c.state.inputs@, c.state.output, c.state.progress)
}

/// The machines of a chunk.
pub open spec fn machines_of(d: SimChunkData) -> MachineView {
    MachineView {
        chests: d.chests@.map_values(|c: ChestRecord| (c.object_id, c.inv.slots@)),
        furnaces: d.furnaces@,
        drills: d.drills@,
        alembics: d.alembics@,
        crucibles: d.crucibles@.map_values(|c: CrucibleRecord| crucible_view(c)),
        inserters: d.inserters@.map_values(|r: InserterRecord| (r.object_id, r.direction, r.inv.slots@)),
    }
}

/// The machines of every loaded chunk, chunk by chunk.
pub open spec fn world_view(chunks: Seq<SimChunkData>) -> Seq<MachineView> {
    chunks.map_values(|d: SimChunkData| machines_of(d))
}

/// Two chunks agree on everything but their machines.
pub open spec fn same_ground(a: SimChunkData, b: SimChunkData) -> bool {
    &&& a.coord == b.coord
    &&& a.layer == b.layer
    &&& a.tiles@ == b.tiles@
    &&& a.resources@ == b.resources@
    &&& a.placed@ == b.placed@
    &&& a.entities@ == b.entities@
    &&& a.saved_tick == b.saved_tick
}

/// The kinds of machine an inserter deals with.
#[derive(Debug, Copy, Clone, PartialEq, Eq, Structural)]
pub enum MachineKind {
    Chest,
    Furnace,
    Drill,
    Alembic,
    Crucible,
    Inserter,
}

/// The ids of a chunk's machines of one kind, in order.
pub open spec fn ids_in(v: MachineView, kind: MachineKind) -> Seq<ObjectId> {
    match kind {
        MachineKind::Chest => v.chests.map_values(|c: (ObjectId, Seq<Slot>)| c.0),
        MachineKind::Furnace => furnace_ids(v.furnaces),
        MachineKind::Drill => drill_ids(v.drills),
        MachineKind::Alembic => alembic_ids(v.alembics),
        MachineKind::Crucible => v.crucibles.map_values(|c: (ObjectId, Seq<Slot>, Slot, u16)| c.0),
        MachineKind::Inserter => v.inserters.map_values(|r: (ObjectId, InserterDirection, Seq<Slot>)| r.0),
    }
}

/// Chunk `i` is the first that holds a machine of `kind` with `id`.
pub open spec fn is_holder(w: Seq<MachineView>, kind: MachineKind, id: ObjectId, i: int) -> bool {
    &&& 0 <= i < w.len()
    &&& first_with(ids_in(w[i], kind), id) is Some
    &&& forall|j: int| 0 <= j < i ==> first_with(ids_in(#[trigger] w[j], kind), id) is None
}

/// The first chunk holding a machine of `kind` with `id`.
pub open spec fn holder(w: Seq<MachineView>, kind: MachineKind, id: ObjectId) -> Option<int> {
    if exists|i: int| is_holder(w, kind, id, i) {
        Some(choose|i: int| is_holder(w, kind, id, i))
    } else {
        None
    }
}

/// The position of the machine with `id` among those of its kind in a
/// chunk holding it.
pub open spec fn slot_of(v: MachineView, kind: MachineKind, id: ObjectId) -> int {
    first_with(ids_in(v, kind), id)->0
}

/// `k` is the first slot of the row that takes `item`.
pub open spec fn is_first_accepting(slots: Seq<Slot>, item: ItemId, k: int) -> bool {
    &&& 0 <= k < slots.len()
    &&& accepts(slots[k], item)
    &&& forall|j: int| 0 <= j < k ==> !accepts(#[trigger] slots[j], item)
}

/// Depositing into a row of slots: the first slot that takes the item gets
/// it all; the row and how much moved.
pub open spec fn deposit_row(slots: Seq<Slot>, item: ItemId, amount: u32) -> (Seq<Slot>, u32) {
    if item == ITEM_NONE || amount == 0 {
        (slots, 0)
    } else if exists|k: int| is_first_accepting(slots, item, k) {
        let k = choose|k: int| is_first_accepting(slots, item, k);
        (slots.update(k, deposit_spec(slots[k], item, amount).0), amount)
    } else {
        (slots, 0)
    }
}

proof fn lemma_deposit_row(before: Seq<Slot>, after: Seq<Slot>, item: ItemId, amount: u32, moved: u32)
    requires
        deposit_slots_rel(before, after, item, amount, moved),
    ensures
        (after, moved) == deposit_row(before, item, amount),
{
    if item == ITEM_NONE || amount == 0 {
    } else if forall|k: int| 0 <= k < before.len() ==> !accepts(#[trigger] before[k], item) {
        assert(!exists|k: int| is_first_accepting(before, item, k));
    } else {
        let k = choose|k: int|
            {
                &&& 0 <= k < before.len()
                &&& accepts(#[trigger] before[k], item)
                &&& forall|j: int| 0 <= j < k ==> !accepts(#[trigger] before[j], item)
                &&& after == before.update(k, deposit_spec(before[k], item, amount).0)
            };
        assert(is_first_accepting(before, item, k));
        let c = choose|c: int| is_first_accepting(before, item, c);
        assert(is_first_accepting(before, item, c));
        if c < k {
            assert(!accepts(before[c], item));
        } else if k < c {
            assert(!accepts(before[k], item));
        }
    }
}

proof fn lemma_ids_match(d: SimChunkData)
    ensures
        ids_in(machines_of(d), MachineKind::Chest) == chest_ids(d.chests@),
        ids_in(machines_of(d), MachineKind::Furnace) == furnace_ids(d.furnaces@),
        ids_in(machines_of(d), MachineKind::Drill) == drill_ids(d.drills@),
        ids_in(machines_of(d), MachineKind::Alembic) == alembic_ids(d.alembics@),
        ids_in(machines_of(d), MachineKind::Crucible) == crucible_ids(d.crucibles@),
        ids_in(machines_of(d), MachineKind::Inserter) == inserter_ids(d.inserters@),
{
    assert(ids_in(machines_of(d), MachineKind::Chest) =~= chest_ids(d.chests@));
    assert(ids_in(machines_of(d), MachineKind::Crucible) =~= crucible_ids(d.crucibles@));
    assert(ids_in(machines_of(d), MachineKind::Inserter) =~= inserter_ids(d.inserters@));
}

proof fn lemma_holder_found(w: Seq<MachineView>, kind: MachineKind, id: ObjectId, i: int)
    requires
        is_holder(w, kind, id, i),
    ensures
        holder(w, kind, id) == Some(i),
{
    let c = choose|k: int| is_holder(w, kind, id, k);
    assert(is_holder(w, kind, id, c));
    if c < i {
        assert(first_with(ids_in(w[c], kind), id) is None);
    } else if i < c {
        assert(first_with(ids_in(w[i], kind), id) is None);
    }
}

fn chunk_holds(d: &SimChunkData, kind: MachineKind, id: ObjectId) -> (b: bool)
    ensures
        b == first_with(ids_in(machines_of(*d), kind), id) is Some,
{
    proof {
        lemma_ids_match(*d);
    }
    match kind {
        MachineKind::Chest => find_chest(d.chests.as_slice(), id).is_some(),
        MachineKind::Furnace => find_furnace(d.furnaces.as_slice(), id).is_some(),
        MachineKind::Drill => find_drill(d.drills.as_slice(), id).is_some(),
        MachineKind::Alembic => find_alembic(d.alembics.as_slice(), id).is_some(),
        MachineKind::Crucible => find_crucible(d.crucibles.as_slice(), id).is_some(),
        MachineKind::Inserter => find_inserter(d.inserters.as_slice(), id).is_some(),
    }
}

/// The first loaded chunk holding a machine of `kind` with `id`.
pub fn find_holder(chunks: &Vec<SimChunkData>, kind: MachineKind, id: ObjectId) -> (r: Option<usize>)
    ensures
        match r {
            Some(i) => holder(world_view(chunks@), kind, id) == Some(i as int),
            None => holder(world_view(chunks@), kind, id) is None,
        },
{
    let ghost w = world_view(chunks@);
    let mut i: usize = 0;
    while i < chunks.len()
        invariant
            w == world_view(chunks@),
            0 <= i <= chunks@.len(),
            forall|j: int| 0 <= j < i ==> first_with(ids_in(#[trigger] w[j], kind), id) is None,
        decreases chunks@.len() - i,
    {
        if chunk_holds(&chunks[i], kind, id) {
            proof {
                lemma_holder_found(w, kind, id, i as int);
            }
            return Some(i);
        }
        i = i + 1;
    }
    proof {
        if exists|k: int| is_holder(w, kind, id, k) {
            let k = choose|k: int| is_holder(w, kind, id, k);
            assert(first_with(ids_in(w[k], kind), id) is None);
        }
    }
    None
}

/// A found machine slot as a chunk position and what it held.
pub open spec fn located<T>(r: Option<(usize, T)>) -> Option<(int, T)> {
    match r {
        Some((i, t)) => Some((i as int, t)),
        None => None,
    }
}

proof fn lemma_world_update(chunks: Seq<SimChunkData>, i: int, d: SimChunkData)
    requires
        0 <= i < chunks.len(),
    ensures
        world_view(chunks.update(i, d)) == world_view(chunks).update(i, machines_of(d)),
{
    assert(world_view(chunks.update(i, d)) =~= world_view(chunks).update(i, machines_of(d)));
}

/// Every loaded chunk keeps its ground: the same number of chunks, each
/// with the same tiles, ore, structures and entities.
pub open spec fn grounds_kept(before: Seq<SimChunkData>, after: Seq<SimChunkData>) -> bool {
    &&& after.len() == before.len()
    &&& forall|i: int| 0 <= i < before.len() ==> same_ground(#[trigger] before[i], after[i])
}

/// Taking one item from buffer slot `slot_idx` of the inserter with `id`:
/// the machines after, and the chunk and item taken, if any.
pub open spec fn take_inserter_spec(w: Seq<MachineView>, id: ObjectId, slot_idx: usize) -> (Seq<MachineView>, Option<(int, Slot)>) {
    match holder(w, MachineKind::Inserter, id) {
        None => (w, None),
        Some(ci) => {
            let v = w[ci];
            let r = v.inserters[slot_of(v, MachineKind::Inserter, id)];
            if slot_idx >= 4 {
                (w, None)
            } else {
                let (left, out) = take_spec(r.2[slot_idx as int], 1);
                (
                    w.update(
                        ci,
                        MachineView {
                            inserters: v.inserters.update(
                                slot_of(v, MachineKind::Inserter, id),
                                (r.0, r.1, r.2.update(slot_idx as int, left)),
                            ),
                            ..v
                        },
                    ),
                    match out {
                        Some(t) => Some((ci, t)),
                        None => None,
                    },
                )
            }
        },
    }
}

/// Depositing `amount` of `item` into the buffer of the inserter with `id`:
/// the machines after, and the chunk and amount moved where it was found.
pub open spec fn deposit_inserter_spec(w: Seq<MachineView>, id: ObjectId, item: ItemId, amount: u32) -> (Seq<MachineView>, Option<(int, u32)>) {
    match holder(w, MachineKind::Inserter, id) {
        None => (w, None),
        Some(ii) => {
            let v = w[ii];
            let r = v.inserters[slot_of(v, MachineKind::Inserter, id)];
            let (after, moved) = deposit_row(r.2, item, amount);
            (
                w.update(
                    ii,
                    MachineView {
                        inserters: v.inserters.update(slot_of(v, MachineKind::Inserter, id), (r.0, r.1, after)),
                        ..v
                    },
                ),
                Some((ii, moved)),
            )
        },
    }
}

/// Putting a taken item back into the inserter's buffer; nothing for an
/// empty slot.
pub open spec fn put_back_inserter_spec(w: Seq<MachineView>, id: ObjectId, s: Slot) -> Seq<MachineView> {
    if s.empty_spec() {
        w
    } else {
        deposit_inserter_spec(w, id, s.item, s.count).0
    }
}

fn take_inserter_slot(chunks: &mut Vec<SimChunkData>, id: ObjectId, slot_idx: usize) -> (r: Option<(usize, Slot)>)
    ensures
        grounds_kept(old(chunks)@, final(chunks)@),
        world_view(final(chunks)@) == take_inserter_spec(world_view(old(chunks)@), id, slot_idx).0,
        located(r) == take_inserter_spec(world_view(old(chunks)@), id, slot_idx).1,
{
    let ci = match find_holder(chunks, MachineKind::Inserter, id) {
        None => return None,
        Some(ci) => ci,
    };
    let ghost before = chunks@;
    let ghost d0 = chunks@[ci as int];
    proof {
        lemma_ids_match(d0);
    }
    let res = {
        let d = &mut chunks[ci];
        take_from_inserter(&mut d.inserters, id, slot_idx, 1)
    };
    proof {
        let d1 = chunks@[ci as int];
        assert(chunks@ == before.update(ci as int, d1));
        lemma_world_update(before, ci as int, d1);
        let v = machines_of(d0);
        let c = slot_of(v, MachineKind::Inserter, id);
        if slot_idx < 4 {
            let r = v.inserters[c];
            let (left, out) = take_spec(r.2[slot_idx as int], 1);
            assert(machines_of(d1).inserters =~= v.inserters.update(c, (r.0, r.1, r.2.update(slot_idx as int, left))));
            assert(machines_of(d1) =~= MachineView {
                inserters: v.inserters.update(c, (r.0, r.1, r.2.update(slot_idx as int, left))),
                ..v
            });
        } else {
            assert(machines_of(d1) =~= v);
            assert(world_view(before).update(ci as int, v) =~= world_view(before));
        }
    }
    match res {
        Some(s) => Some((ci, s)),
        None => None,
    }
}

fn deposit_inserter(chunks: &mut Vec<SimChunkData>, id: ObjectId, item: ItemId, amount: u32) -> (r: Option<(usize, u32)>)
    ensures
        grounds_kept(old(chunks)@, final(chunks)@),
        world_view(final(chunks)@) == deposit_inserter_spec(world_view(old(chunks)@), id, item, amount).0,
        located(r) == deposit_inserter_spec(world_view(old(chunks)@), id, item, amount).1,
{
    let ii = match find_holder(chunks, MachineKind::Inserter, id) {
        None => return None,
        Some(ii) => ii,
    };
    let ghost before = chunks@;
    let ghost d0 = chunks@[ii as int];
    proof {
        lemma_ids_match(d0);
    }
    let moved = {
        let d = &mut chunks[ii];
        deposit_to_inserter(&mut d.inserters, id, item, amount)
    };
    proof {
        let d1 = chunks@[ii as int];
        assert(chunks@ == before.update(ii as int, d1));
        lemma_world_update(before, ii as int, d1);
        let v = machines_of(d0);
        let c = slot_of(v, MachineKind::Inserter, id);
        let r = v.inserters[c];
        lemma_deposit_row(r.2, d1.inserters@[c].inv.slots@, item, amount, moved);
        let (after, m) = deposit_row(r.2, item, amount);
        assert(machines_of(d1).inserters =~= v.inserters.update(c, (r.0, r.1, after)));
        assert(machines_of(d1) =~= MachineView { inserters: v.inserters.update(c, (r.0, r.1, after)), ..v });
    }
    Some((ii, moved))
}

fn put_back_inserter(chunks: &mut Vec<SimChunkData>, id: ObjectId, s: Slot)
    ensures
        grounds_kept(old(chunks)@, final(chunks)@),
        world_view(final(chunks)@) == put_back_inserter_spec(world_view(old(chunks)@), id, s),
{
    if s.is_empty() {
        return;
    }
    let _ = deposit_inserter(chunks, id, s.item, s.count);
}

/// Taking one item from where `source` names: a chest slot, or the output
/// of a furnace, drill, alembic or crucible. The machines after, and the
/// chunk and item taken.
pub open spec fn take_source_spec(w: Seq<MachineView>, source: TransferSource) -> (Seq<MachineView>, Option<(int, Slot)>) {
    match source {
        TransferSource::ChestSlot { object_id, slot_idx } => match holder(w, MachineKind::Chest, object_id) {
            None => (w, None),
            Some(ci) => {
                let v = w[ci];
                let c = slot_of(v, MachineKind::Chest, object_id);
                if slot_idx >= 16 {
                    (w, None)
                } else {
                    let (left, out) = take_spec(v.chests[c].1[slot_idx as int], 1);
                    (
                        w.update(
                            ci,
                            MachineView {
                                chests: v.chests.update(c, (v.chests[c].0, v.chests[c].1.update(slot_idx as int, left))),
                                ..v
                            },
                        ),
                        match out {
                            Some(t) => Some((ci, t)),
                            None => None,
                        },
                    )
                }
            },
        },
        TransferSource::FurnaceOutput { object_id } => match holder(w, MachineKind::Furnace, object_id) {
            None => (w, None),
            Some(ci) => {
                let v = w[ci];
                let c = slot_of(v, MachineKind::Furnace, object_id);
                let rec = v.furnaces[c];
                let (left, out) = take_spec(rec.state.output, 1);
                (
                    w.update(
                        ci,
                        MachineView {
                            furnaces: v.furnaces.update(
                                c,
                                FurnaceRecord { object_id: rec.object_id, state: FurnaceState { output: left, ..rec.state } },
                            ),
                            ..v
                        },
                    ),
                    match out {
                        Some(t) => Some((ci, t)),
                        None => None,
                    },
                )
            },
        },
        TransferSource::DrillOutput { object_id } => match holder(w, MachineKind::Drill, object_id) {
            None => (w, None),
            Some(ci) => {
                let v = w[ci];
                let c = slot_of(v, MachineKind::Drill, object_id);
                let rec = v.drills[c];
                let (left, out) = take_spec(rec.state.output, 1);
                (
                    w.update(
                        ci,
                        MachineView {
                            drills: v.drills.update(
                                c,
                                DrillRecord { object_id: rec.object_id, state: DrillState { output: left, ..rec.state } },
                            ),
                            ..v
                        },
                    ),
                    match out {
                        Some(t) => Some((ci, t)),
                        None => None,
                    },
                )
            },
        },
        TransferSource::AlembicOutput { object_id } => match holder(w, MachineKind::Alembic, object_id) {
            None => (w, None),
            Some(ci) => {
                let v = w[ci];
                let c = slot_of(v, MachineKind::Alembic, object_id);
                let rec = v.alembics[c];
                let (left, out) = take_spec(rec.state.output, 1);
                (
                    w.update(
                        ci,
                        MachineView {
                            alembics: v.alembics.update(
                                c,
                                AlembicRecord { object_id: rec.object_id, state: AlembicState { output: left, ..rec.state } },
                            ),
                            ..v
                        },
                    ),
                    match out {
                        Some(t) => Some((ci, t)),
                        None => None,
                    },
                )
            },
        },
        TransferSource::CrucibleOutput { object_id } => match holder(w, MachineKind::Crucible, object_id) {
            None => (w, None),
            Some(ci) => {
                let v = w[ci];
                let c = slot_of(v, MachineKind::Crucible, object_id);
                let rec = v.crucibles[c];
                let (left, out) = take_spec(rec.2, 1);
                (
                    w.update(ci, MachineView { crucibles: v.crucibles.update(c, (rec.0, rec.1, left, rec.3)), ..v }),
                    match out {
                        Some(t) => Some((ci, t)),
                        None => None,
                    },
                )
            },
        },
    }
}

/// Depositing `amount` of `item` where `target` names: into a chest's
/// first slot that takes it, into a furnace's input (only what smelts),
/// into the fuel of a furnace or drill (only coal), into an alembic's input
/// (only what it distils), or into a crucible's first essence slot that
/// takes it (only essences). The machines after, and the chunk and amount
/// moved where the machine was found and takes such items.
pub open spec fn deposit_target_spec(w: Seq<MachineView>, target: TransferTarget, item: ItemId, amount: u32) -> (Seq<MachineView>, Option<(int, u32)>) {
    match target {
        TransferTarget::Chest { object_id } => match holder(w, MachineKind::Chest, object_id) {
            None => (w, None),
            Some(ti) => {
                let v = w[ti];
                let c = slot_of(v, MachineKind::Chest, object_id);
                let (after, moved) = deposit_row(v.chests[c].1, item, amount);
                (w.update(ti, MachineView { chests: v.chests.update(c, (v.chests[c].0, after)), ..v }), Some((ti, moved)))
            },
        },
        TransferTarget::FurnaceInput { object_id } => if smelt_spec(item) is None {
            (w, None)
        } else {
            match holder(w, MachineKind::Furnace, object_id) {
                None => (w, None),
                Some(ti) => {
                    let v = w[ti];
                    let c = slot_of(v, MachineKind::Furnace, object_id);
                    let rec = v.furnaces[c];
                    let (slot, moved) = deposit_spec(rec.state.input, item, amount);
                    (
                        w.update(
                            ti,
                            MachineView {
                                furnaces: v.furnaces.update(
                                    c,
                                    FurnaceRecord { object_id: rec.object_id, state: FurnaceState { input: slot, ..rec.state } },
                                ),
                                ..v
                            },
                        ),
                        Some((ti, moved)),
                    )
                },
            }
        },
        TransferTarget::FurnaceFuel { object_id } => if item != ITEM_COAL {
            (w, None)
        } else {
            match holder(w, MachineKind::Furnace, object_id) {
                None => (w, None),
                Some(ti) => {
                    let v = w[ti];
                    let c = slot_of(v, MachineKind::Furnace, object_id);
                    let rec = v.furnaces[c];
                    let (slot, moved) = deposit_spec(rec.state.fuel, item, amount);
                    (
                        w.update(
                            ti,
                            MachineView {
                                furnaces: v.furnaces.update(
                                    c,
                                    FurnaceRecord { object_id: rec.object_id, state: FurnaceState { fuel: slot, ..rec.state } },
                                ),
                                ..v
                            },
                        ),
                        Some((ti, moved)),
                    )
                },
            }
        },
        TransferTarget::DrillFuel { object_id } => if item != ITEM_COAL {
            (w, None)
        } else {
            match holder(w, MachineKind::Drill, object_id) {
                None => (w, None),
                Some(ti) => {
                    let v = w[ti];
                    let c = slot_of(v, MachineKind::Drill, object_id);
                    let rec = v.drills[c];
                    let (slot, moved) = deposit_spec(rec.state.fuel, item, amount);
                    (
                        w.update(
                            ti,
                            MachineView {
                                drills: v.drills.update(
                                    c,
                                    DrillRecord { object_id: rec.object_id, state: DrillState { fuel: slot, ..rec.state } },
                                ),
                                ..v
                            },
                        ),
                        Some((ti, moved)),
                    )
                },
            }
        },
        TransferTarget::AlembicInput { object_id } => if essence_spec(item) is None {
            (w, None)
        } else {
            match holder(w, MachineKind::Alembic, object_id) {
                None => (w, None),
                Some(ti) => {
                    let v = w[ti];
                    let c = slot_of(v, MachineKind::Alembic, object_id);
                    let rec = v.alembics[c];
                    let (slot, moved) = deposit_spec(rec.state.input, item, amount);
                    (
                        w.update(
                            ti,
                            MachineView {
                                alembics: v.alembics.update(
                                    c,
                                    AlembicRecord { object_id: rec.object_id, state: AlembicState { input: slot, ..rec.state } },
                                ),
                                ..v
                            },
                        ),
                        Some((ti, moved)),
                    )
                },
            }
        },
        TransferTarget::CrucibleInput { object_id } => if !is_essence_spec(item) {
            (w, None)
        } else {
            match holder(w, MachineKind::Crucible, object_id) {
                None => (w, None),
                Some(ti) => {
                    let v = w[ti];
                    let c = slot_of(v, MachineKind::Crucible, object_id);
                    let rec = v.crucibles[c];
                    let (after, moved) = deposit_row(rec.1, item, amount);
                    (
                        w.update(ti, MachineView { crucibles: v.crucibles.update(c, (rec.0, after, rec.2, rec.3)), ..v }),
                        Some((ti, moved)),
                    )
                },
            }
        },
    }
}

/// Putting a taken item back where `source` names: into the chest (its
/// first slot that takes it), or straight into the output of the furnace,
/// drill, alembic or crucible; nothing for an empty slot.
pub open spec fn put_back_source_spec(w: Seq<MachineView>, source: TransferSource, s: Slot) -> Seq<MachineView> {
    if s.empty_spec() {
        w
    } else {
        match source {
            TransferSource::ChestSlot { object_id, .. } => deposit_target_spec(
                w,
                TransferTarget::Chest { object_id },
                s.item,
                s.count,
            ).0,
            TransferSource::FurnaceOutput { object_id } => match holder(w, MachineKind::Furnace, object_id) {
                None => w,
                Some(ci) => {
                    let v = w[ci];
                    let c = slot_of(v, MachineKind::Furnace, object_id);
                    let rec = v.furnaces[c];
                    w.update(
                        ci,
                        MachineView {
                            furnaces: v.furnaces.update(
                                c,
                                FurnaceRecord {
                                    object_id: rec.object_id,
                                    state: FurnaceState { output: deposit_spec(rec.state.output, s.item, s.count).0, ..rec.state },
                                },
                            ),
                            ..v
                        },
                    )
                },
            },
            TransferSource::DrillOutput { object_id } => match holder(w, MachineKind::Drill, object_id) {
                None => w,
                Some(ci) => {
                    let v = w[ci];
                    let c = slot_of(v, MachineKind::Drill, object_id);
                    let rec = v.drills[c];
                    w.update(
                        ci,
                        MachineView {
                            drills: v.drills.update(
                                c,
                                DrillRecord {
                                    object_id: rec.object_id,
                                    state: DrillState { output: deposit_spec(rec.state.output, s.item, s.count).0, ..rec.state },
                                },
                            ),
                            ..v
                        },
                    )
                },
            },
            TransferSource::AlembicOutput { object_id } => match holder(w, MachineKind::Alembic, object_id) {
                None => w,
                Some(ci) => {
                    let v = w[ci];
                    let c = slot_of(v, MachineKind::Alembic, object_id);
                    let rec = v.alembics[c];
                    w.update(
                        ci,
                        MachineView {
                            alembics: v.alembics.update(
                                c,
                                AlembicRecord {
                                    object_id: rec.object_id,
                                    state: AlembicState { output: deposit_spec(rec.state.output, s.item, s.count).0, ..rec.state },
                                },
                            ),
                            ..v
                        },
                    )
                },
            },
            TransferSource::CrucibleOutput { object_id } => match holder(w, MachineKind::Crucible, object_id) {
                None => w,
                Some(ci) => {
                    let v = w[ci];
                    let c = slot_of(v, MachineKind::Crucible, object_id);
                    let rec = v.crucibles[c];
                    w.update(
                        ci,
                        MachineView {
                            crucibles: v.crucibles.update(c, (rec.0, rec.1, deposit_spec(rec.2, s.item, s.count).0, rec.3)),
                            ..v
                        },
                    )
                },
            },
        }
    }
}

fn take_source(chunks: &mut Vec<SimChunkData>, source: TransferSource) -> (r: Option<(usize, Slot)>)
    ensures
        grounds_kept(old(chunks)@, final(chunks)@),
        world_view(final(chunks)@) == take_source_spec(world_view(old(chunks)@), source).0,
        located(r) == take_source_spec(world_view(old(chunks)@), source).1,
{
    let ghost before = chunks@;
    match source {
        TransferSource::ChestSlot { object_id, slot_idx } => {
            let ci = match find_holder(chunks, MachineKind::Chest, object_id) {
                None => return None,
                Some(ci) => ci,
            };
            let ghost d0 = chunks@[ci as int];
            proof {
                lemma_ids_match(d0);
            }
            let res = {
                let d = &mut chunks[ci];
                take_from_chest(&mut d.chests, object_id, slot_idx, 1)
            };
            proof {
                let d1 = chunks@[ci as int];
                assert(chunks@ == before.update(ci as int, d1));
                lemma_world_update(before, ci as int, d1);
                let v = machines_of(d0);
                let c = slot_of(v, MachineKind::Chest, object_id);
                if slot_idx < 16 {
                    let (left, out) = take_spec(v.chests[c].1[slot_idx as int], 1);
                    let v2 = MachineView {
                        chests: v.chests.update(c, (v.chests[c].0, v.chests[c].1.update(slot_idx as int, left))),
                        ..v
                    };
                    assert(machines_of(d1).chests =~= v2.chests);
                    assert(machines_of(d1) =~= v2);
                } else {
                    assert(machines_of(d1) =~= v);
                    assert(world_view(before).update(ci as int, v) =~= world_view(before));
                }
            }
            match res {
                Some(t) => Some((ci, t)),
                None => None,
            }
        },
        TransferSource::FurnaceOutput { object_id } => {
            let ci = match find_holder(chunks, MachineKind::Furnace, object_id) {
                None => return None,
                Some(ci) => ci,
            };
            let ghost d0 = chunks@[ci as int];
            proof {
                lemma_ids_match(d0);
            }
            let res = {
                let d = &mut chunks[ci];
                take_from_furnace(&mut d.furnaces, object_id, FurnaceSlot::Output, 1)
            };
            proof {
                let d1 = chunks@[ci as int];
                assert(chunks@ == before.update(ci as int, d1));
                lemma_world_update(before, ci as int, d1);
                let v = machines_of(d0);
                let c = slot_of(v, MachineKind::Furnace, object_id);
                let rec = v.furnaces[c];
                let (left, out) = take_spec(rec.state.output, 1);
                assert(machines_of(d1) =~= MachineView {
                    furnaces: v.furnaces.update(
                        c,
                        FurnaceRecord { object_id: rec.object_id, state: FurnaceState { output: left, ..rec.state } },
                    ),
                    ..v
                });
            }
            match res {
                Some(t) => Some((ci, t)),
                None => None,
            }
        },
        TransferSource::DrillOutput { object_id } => {
            let ci = match find_holder(chunks, MachineKind::Drill, object_id) {
                None => return None,
                Some(ci) => ci,
            };
            let ghost d0 = chunks@[ci as int];
            proof {
                lemma_ids_match(d0);
            }
            let res = {
                let d = &mut chunks[ci];
                take_from_drill(&mut d.drills, object_id, DrillSlot::Output, 1)
            };
            proof {
                let d1 = chunks@[ci as int];
                assert(chunks@ == before.update(ci as int, d1));
                lemma_world_update(before, ci as int, d1);
                let v = machines_of(d0);
                let c = slot_of(v, MachineKind::Drill, object_id);
                let rec = v.drills[c];
                let (left, out) = take_spec(rec.state.output, 1);
                assert(machines_of(d1) =~= MachineView {
                    drills: v.drills.update(
                        c,
                        DrillRecord { object_id: rec.object_id, state: DrillState { output: left, ..rec.state } },
                    ),
                    ..v
                });
            }
            match res {
                Some(t) => Some((ci, t)),
                None => None,
            }
        },
        TransferSource::AlembicOutput { object_id } => {
            let ci = match find_holder(chunks, MachineKind::Alembic, object_id) {
                None => return None,
                Some(ci) => ci,
            };
            let ghost d0 = chunks@[ci as int];
            proof {
                lemma_ids_match(d0);
            }
            let res = {
                let d = &mut chunks[ci];
                take_from_alembic_output(d.alembics.as_mut_slice(), object_id, 1)
            };
            proof {
                let d1 = chunks@[ci as int];
                assert(chunks@ == before.update(ci as int, d1));
                lemma_world_update(before, ci as int, d1);
                let v = machines_of(d0);
                let c = slot_of(v, MachineKind::Alembic, object_id);
                let rec = v.alembics[c];
                let (left, out) = take_spec(rec.state.output, 1);
                assert(machines_of(d1) =~= MachineView {
                    alembics: v.alembics.update(
                        c,
                        AlembicRecord { object_id: rec.object_id, state: AlembicState { output: left, ..rec.state } },
                    ),
                    ..v
                });
            }
            match res {
                Some(t) => Some((ci, t)),
                None => None,
            }
        },
        TransferSource::CrucibleOutput { object_id } => {
            let ci = match find_holder(chunks, MachineKind::Crucible, object_id) {
                None => return None,
                Some(ci) => ci,
            };
            let ghost d0 = chunks@[ci as int];
            proof {
                lemma_ids_match(d0);
            }
            let res = {
                let d = &mut chunks[ci];
                take_from_crucible_output(d.crucibles.as_mut_slice(), object_id, 1)
            };
            proof {
                let d1 = chunks@[ci as int];
                assert(chunks@ == before.update(ci as int, d1));
                lemma_world_update(before, ci as int, d1);
                let v = machines_of(d0);
                let c = slot_of(v, MachineKind::Crucible, object_id);
                let rec = v.crucibles[c];
                let (left, out) = take_spec(rec.2, 1);
                let v2 = MachineView { crucibles: v.crucibles.update(c, (rec.0, rec.1, left, rec.3)), ..v };
                assert(machines_of(d1).crucibles =~= v2.crucibles);
                assert(machines_of(d1) =~= v2);
            }
            match res {
                Some(t) => Some((ci, t)),
                None => None,
            }
        },
    }
}

fn deposit_target(chunks: &mut Vec<SimChunkData>, target: TransferTarget, item: ItemId, amount: u32) -> (r: Option<(usize, u32)>)
    ensures
        grounds_kept(old(chunks)@, final(chunks)@),
        world_view(final(chunks)@) == deposit_target_spec(world_view(old(chunks)@), target, item, amount).0,
        located(r) == deposit_target_spec(world_view(old(chunks)@), target, item, amount).1,
{
    let ghost before = chunks@;
    match target {
        TransferTarget::Chest { object_id } => {
            let ti = match find_holder(chunks, MachineKind::Chest, object_id) {
                None => return None,
                Some(ti) => ti,
            };
            let ghost d0 = chunks@[ti as int];
            proof {
                lemma_ids_match(d0);
            }
            let moved = {
                let d = &mut chunks[ti];
                deposit_to_chest(&mut d.chests, object_id, item, amount)
            };
            proof {
                let d1 = chunks@[ti as int];
                assert(chunks@ == before.update(ti as int, d1));
                lemma_world_update(before, ti as int, d1);
                let v = machines_of(d0);
                let c = slot_of(v, MachineKind::Chest, object_id);
                lemma_deposit_row(v.chests[c].1, d1.chests@[c].inv.slots@, item, amount, moved);
                let (after, m) = deposit_row(v.chests[c].1, item, amount);
                assert(machines_of(d1) =~= MachineView { chests: v.chests.update(c, (v.chests[c].0, after)), ..v });
            }
            Some((ti, moved))
        },
        TransferTarget::FurnaceInput { object_id } => {
            if smelt_output_for_input(item).is_none() {
                return None;
            }
            let ti = match find_holder(chunks, MachineKind::Furnace, object_id) {
                None => return None,
                Some(ti) => ti,
            };
            let ghost d0 = chunks@[ti as int];
            proof {
                lemma_ids_match(d0);
            }
            let moved = {
                let d = &mut chunks[ti];
                deposit_to_furnace_input(&mut d.furnaces, object_id, item, amount)
            };
            proof {
                let d1 = chunks@[ti as int];
                assert(chunks@ == before.update(ti as int, d1));
                lemma_world_update(before, ti as int, d1);
                let v = machines_of(d0);
                let c = slot_of(v, MachineKind::Furnace, object_id);
                let rec = v.furnaces[c];
                let (slot, m) = deposit_spec(rec.state.input, item, amount);
                assert(machines_of(d1) =~= MachineView {
                    furnaces: v.furnaces.update(
                        c,
                        FurnaceRecord { object_id: rec.object_id, state: FurnaceState { input: slot, ..rec.state } },
                    ),
                    ..v
                });
            }
            Some((ti, moved))
        },
        TransferTarget::FurnaceFuel { object_id } => {
            if item != ITEM_COAL {
                return None;
            }
            let ti = match find_holder(chunks, MachineKind::Furnace, object_id) {
                None => return None,
                Some(ti) => ti,
            };
            let ghost d0 = chunks@[ti as int];
            proof {
                lemma_ids_match(d0);
            }
            let moved = {
                let d = &mut chunks[ti];
                deposit_to_furnace_fuel(&mut d.furnaces, object_id, item, amount)
            };
            proof {
                let d1 = chunks@[ti as int];
                assert(chunks@ == before.update(ti as int, d1));
                lemma_world_update(before, ti as int, d1);
                let v = machines_of(d0);
                let c = slot_of(v, MachineKind::Furnace, object_id);
                let rec = v.furnaces[c];
                let (slot, m) = deposit_spec(rec.state.fuel, item, amount);
                assert(machines_of(d1) =~= MachineView {
                    furnaces: v.furnaces.update(
                        c,
                        FurnaceRecord { object_id: rec.object_id, state: FurnaceState { fuel: slot, ..rec.state } },
                    ),
                    ..v
                });
            }
            Some((ti, moved))
        },
        TransferTarget::DrillFuel { object_id } => {
            if item != ITEM_COAL {
                return None;
            }
            let ti = match find_holder(chunks, MachineKind::Drill, object_id) {
                None => return None,
                Some(ti) => ti,
            };
            let ghost d0 = chunks@[ti as int];
            proof {
                lemma_ids_match(d0);
            }
            let moved = {
                let d = &mut chunks[ti];
                deposit_to_drill_fuel(&mut d.drills, object_id, item, amount)
            };
            proof {
                let d1 = chunks@[ti as int];
                assert(chunks@ == before.update(ti as int, d1));
                lemma_world_update(before, ti as int, d1);
                let v = machines_of(d0);
                let c = slot_of(v, MachineKind::Drill, object_id);
                let rec = v.drills[c];
                let (slot, m) = deposit_spec(rec.state.fuel, item, amount);
                assert(machines_of(d1) =~= MachineView {
                    drills: v.drills.update(
                        c,
                        DrillRecord { object_id: rec.object_id, state: DrillState { fuel: slot, ..rec.state } },
                    ),
                    ..v
                });
            }
            Some((ti, moved))
        },
        TransferTarget::AlembicInput { object_id } => {
            if essence_output_for_input(item).is_none() {
                return None;
            }
            let ti = match find_holder(chunks, MachineKind::Alembic, object_id) {
                None => return None,
                Some(ti) => ti,
            };
            let ghost d0 = chunks@[ti as int];
            proof {
                lemma_ids_match(d0);
            }
            let moved = {
                let d = &mut chunks[ti];
                deposit_to_alembic_input(d.alembics.as_mut_slice(), object_id, item, amount)
            };
            proof {
                let d1 = chunks@[ti as int];
                assert(chunks@ == before.update(ti as int, d1));
                lemma_world_update(before, ti as int, d1);
                let v = machines_of(d0);
                let c = slot_of(v, MachineKind::Alembic, object_id);
                let rec = v.alembics[c];
                let (slot, m) = deposit_spec(rec.state.input, item, amount);
                assert(machines_of(d1) =~= MachineView {
                    alembics: v.alembics.update(
                        c,
                        AlembicRecord { object_id: rec.object_id, state: AlembicState { input: slot, ..rec.state } },
                    ),
                    ..v
                });
            }
            Some((ti, moved))
        },
        TransferTarget::CrucibleInput { object_id } => {
            if !is_essence_item(item) {
                return None;
            }
            let ti = match find_holder(chunks, MachineKind::Crucible, object_id) {
                None => return None,
                Some(ti) => ti,
            };
            let ghost d0 = chunks@[ti as int];
            proof {
                lemma_ids_match(d0);
            }
            let moved = {
                let d = &mut chunks[ti];
                deposit_to_crucible_input(d.crucibles.as_mut_slice(), object_id, item, amount)
            };
            proof {
                let d1 = chunks@[ti as int];
                assert(chunks@ == before.update(ti as int, d1));
                lemma_world_update(before, ti as int, d1);
                let v = machines_of(d0);
                let c = slot_of(v, MachineKind::Crucible, object_id);
                let rec = v.crucibles[c];
                lemma_deposit_row(rec.1, d1.crucibles@[c].state.inputs@, item, amount, moved);
                let (after, m) = deposit_row(rec.1, item, amount);
                let v2 = MachineView { crucibles: v.crucibles.update(c, (rec.0, after, rec.2, rec.3)), ..v };
                assert(machines_of(d1).crucibles =~= v2.crucibles);
                assert(machines_of(d1) =~= v2);
            }
            Some((ti, moved))
        },
    }
}

fn put_back_source(chunks: &mut Vec<SimChunkData>, source: TransferSource, s: Slot)
    ensures
        grounds_kept(old(chunks)@, final(chunks)@),
        world_view(final(chunks)@) == put_back_source_spec(world_view(old(chunks)@), source, s),
{
    if s.is_empty() {
        return;
    }
    let ghost before = chunks@;
    match source {
        TransferSource::ChestSlot { object_id, .. } => {
            let _ = deposit_target(chunks, TransferTarget::Chest { object_id }, s.item, s.count);
        },
        TransferSource::FurnaceOutput { object_id } => {
            let ci = match find_holder(chunks, MachineKind::Furnace, object_id) {
                None => return,
                Some(ci) => ci,
            };
            let ghost d0 = chunks@[ci as int];
            proof {
                lemma_ids_match(d0);
            }
            {
                let d = &mut chunks[ci];
                match find_furnace(d.furnaces.as_slice(), object_id) {
                    Some(k) => {
                        let mut rec = d.furnaces[k];
                        let _ = deposit_to_slot_unchecked(&mut rec.state.output, s.item, s.count);
                        d.furnaces.set(k, rec);
                    },
                    None => {},
                }
            }
            proof {
                let d1 = chunks@[ci as int];
                assert(chunks@ == before.update(ci as int, d1));
                lemma_world_update(before, ci as int, d1);
                let v = machines_of(d0);
                let c = slot_of(v, MachineKind::Furnace, object_id);
                let rec = v.furnaces[c];
                assert(machines_of(d1) =~= MachineView {
                    furnaces: v.furnaces.update(
                        c,
                        FurnaceRecord {
                            object_id: rec.object_id,
                            state: FurnaceState { output: deposit_spec(rec.state.output, s.item, s.count).0, ..rec.state },
                        },
                    ),
                    ..v
                });
            }
        },
        TransferSource::DrillOutput { object_id } => {
            let ci = match find_holder(chunks, MachineKind::Drill, object_id) {
                None => return,
                Some(ci) => ci,
            };
            let ghost d0 = chunks@[ci as int];
            proof {
                lemma_ids_match(d0);
            }
            {
                let d = &mut chunks[ci];
                match find_drill(d.drills.as_slice(), object_id) {
                    Some(k) => {
                        let mut rec = d.drills[k];
                        let _ = deposit_to_slot_unchecked(&mut rec.state.output, s.item, s.count);
                        d.drills.set(k, rec);
                    },
                    None => {},
                }
            }
            proof {
                let d1 = chunks@[ci as int];
                assert(chunks@ == before.update(ci as int, d1));
                lemma_world_update(before, ci as int, d1);
                let v = machines_of(d0);
                let c = slot_of(v, MachineKind::Drill, object_id);
                let rec = v.drills[c];
                assert(machines_of(d1) =~= MachineView {
                    drills: v.drills.update(
                        c,
                        DrillRecord {
                            object_id: rec.object_id,
                            state: DrillState { output: deposit_spec(rec.state.output, s.item, s.count).0, ..rec.state },
                        },
                    ),
                    ..v
                });
            }
        },
        TransferSource::AlembicOutput { object_id } => {
            let ci = match find_holder(chunks, MachineKind::Alembic, object_id) {
                None => return,
                Some(ci) => ci,
            };
            let ghost d0 = chunks@[ci as int];
            proof {
                lemma_ids_match(d0);
            }
            {
                let d = &mut chunks[ci];
                match find_alembic(d.alembics.as_slice(), object_id) {
                    Some(k) => {
                        let mut rec = d.alembics[k];
                        let _ = deposit_to_slot_unchecked(&mut rec.state.output, s.item, s.count);
                        d.alembics.set(k, rec);
                    },
                    None => {},
                }
            }
            proof {
                let d1 = chunks@[ci as int];
                assert(chunks@ == before.update(ci as int, d1));
                lemma_world_update(before, ci as int, d1);
                let v = machines_of(d0);
                let c = slot_of(v, MachineKind::Alembic, object_id);
                let rec = v.alembics[c];
                assert(machines_of(d1) =~= MachineView {
                    alembics: v.alembics.update(
                        c,
                        AlembicRecord {
                            object_id: rec.object_id,
                            state: AlembicState { output: deposit_spec(rec.state.output, s.item, s.count).0, ..rec.state },
                        },
                    ),
                    ..v
                });
            }
        },
        TransferSource::CrucibleOutput { object_id } => {
            let ci = match find_holder(chunks, MachineKind::Crucible, object_id) {
                None => return,
                Some(ci) => ci,
            };
            let ghost d0 = chunks@[ci as int];
            proof {
                lemma_ids_match(d0);
            }
            {
                let d = &mut chunks[ci];
                match find_crucible(d.crucibles.as_slice(), object_id) {
                    Some(k) => {
                        let mut rec = d.crucibles[k];
                        let _ = deposit_to_slot_unchecked(&mut rec.state.output, s.item, s.count);
                        d.crucibles.set(k, rec);
                    },
                    None => {},
                }
            }
            proof {
                let d1 = chunks@[ci as int];
                assert(chunks@ == before.update(ci as int, d1));
                lemma_world_update(before, ci as int, d1);
                let v = machines_of(d0);
                let c = slot_of(v, MachineKind::Crucible, object_id);
                let rec = v.crucibles[c];
                let v2 = MachineView {
                    crucibles: v.crucibles.update(c, (rec.0, rec.1, deposit_spec(rec.2, s.item, s.count).0, rec.3)),
                    ..v
                };
                assert(machines_of(d1).crucibles =~= v2.crucibles);
                assert(machines_of(d1) =~= v2);
            }
        },
    }
}

/// The chunks a completed move changed: the one it took from and, when
/// another, the one it gave to.
pub open spec fn touched(from: int, to: int) -> Seq<int> {
    if from == to {
        seq![from]
    } else {
        seq![from, to]
    }
}

/// An inserter empties one item of buffer slot `slot_idx` into `target`:
/// taken from its buffer, given to the target, and put back into the buffer
/// when the target does not take it all. The machines after, and the chunks
/// changed by a completed move (none when it did not complete).
pub open spec fn push_spec(w: Seq<MachineView>, inserter_id: ObjectId, slot_idx: usize, target: TransferTarget) -> (Seq<MachineView>, Seq<int>) {
    let (w1, taken) = take_inserter_spec(w, inserter_id, slot_idx);
    match taken {
        None => (w1, seq![]),
        Some((ci, s)) => {
            let (w2, given) = deposit_target_spec(w1, target, s.item, s.count);
            match given {
                Some((ti, moved)) => if moved == s.count {
                    (w2, touched(ci, ti))
                } else {
                    (put_back_inserter_spec(w2, inserter_id, s), seq![])
                },
                None => (put_back_inserter_spec(w2, inserter_id, s), seq![]),
            }
        },
    }
}

/// An inserter takes one item from `source` into its buffer, and puts it
/// back where it came from when the buffer does not take it all.
pub open spec fn pull_spec(w: Seq<MachineView>, inserter_id: ObjectId, source: TransferSource) -> (Seq<MachineView>, Seq<int>) {
    let (w1, taken) = take_source_spec(w, source);
    match taken {
        None => (w1, seq![]),
        Some((si, s)) => {
            let (w2, given) = deposit_inserter_spec(w1, inserter_id, s.item, s.count);
            match given {
                Some((ii, moved)) => if moved == s.count {
                    (w2, touched(si, ii))
                } else {
                    (put_back_source_spec(w2, source, s), seq![])
                },
                None => (put_back_source_spec(w2, source, s), seq![]),
            }
        },
    }
}

/// Chunk positions as integers.
pub open spec fn positions(v: Seq<usize>) -> Seq<int> {
    v.map_values(|i: usize| i as int)
}

fn touched_chunks(from: usize, to: usize) -> (r: Vec<usize>)
    ensures
        positions(r@) == touched(from as int, to as int),
{
    let r = if from == to {
        vec![from]
    } else {
        vec![from, to]
    };
    assert(positions(r@) =~= touched(from as int, to as int));
    r
}

/// One push of the inserter with `inserter_id`, from buffer slot `slot_idx`
/// into `target`, over the loaded chunks.
pub fn push_one_item(chunks: &mut Vec<SimChunkData>, inserter_id: ObjectId, slot_idx: usize, target: TransferTarget) -> (changed: Vec<usize>)
    ensures
        grounds_kept(old(chunks)@, final(chunks)@),
        (world_view(final(chunks)@), positions(changed@)) == push_spec(
            world_view(old(chunks)@),
            inserter_id,
            slot_idx,
            target,
        ),
{
    let none: Vec<usize> = Vec::new();
    assert(positions(none@) =~= Seq::<int>::empty());
    let (ci, s) = match take_inserter_slot(chunks, inserter_id, slot_idx) {
        None => return none,
        Some(t) => t,
    };
    match deposit_target(chunks, target, s.item, s.count) {
        Some((ti, moved)) => {
            if moved == s.count {
                return touched_chunks(ci, ti);
            }
            put_back_inserter(chunks, inserter_id, s);
        },
        None => {
            put_back_inserter(chunks, inserter_id, s);
        },
    }
    none
}

/// One pull of the inserter with `inserter_id` from `source`, over the
/// loaded chunks.
pub fn pull_one_item(chunks: &mut Vec<SimChunkData>, inserter_id: ObjectId, source: TransferSource) -> (changed: Vec<usize>)
    ensures
        grounds_kept(old(chunks)@, final(chunks)@),
        (world_view(final(chunks)@), positions(changed@)) == pull_spec(world_view(old(chunks)@), inserter_id, source),
{
    let none: Vec<usize> = Vec::new();
    assert(positions(none@) =~= Seq::<int>::empty());
    let (si, s) = match take_source(chunks, source) {
        None => return none,
        Some(t) => t,
    };
    match deposit_inserter(chunks, inserter_id, s.item, s.count) {
        Some((ii, moved)) => {
            if moved == s.count {
                return touched_chunks(si, ii);
            }
            put_back_source(chunks, source, s);
        },
        None => {
            put_back_source(chunks, source, s);
        },
    }
    none
}

// ---- counting items ----

/// How many of `item` one slot holds.
pub open spec fn slot_items(s: Slot, item: ItemId) -> int {
    if !s.empty_spec() && s.item == item {
        s.count as int
    } else {
        0
    }
}

/// The sum of a sequence of integers.
pub open spec fn sum_of(s: Seq<int>) -> int
    decreases s.len(),
{
    if s.len() == 0 {
        0
    } else {
        sum_of(s.drop_last()) + s.last()
    }
}

/// How many of `item` a row of slots holds.
pub open spec fn row_items(slots: Seq<Slot>, item: ItemId) -> int {
    sum_of(slots.map_values(slot_counter(item)))
}

/// Counts `item` in a slot.
pub open spec fn slot_counter(item: ItemId) -> spec_fn(Slot) -> int {
    |s: Slot| slot_items(s, item)
}

/// Counts `item` in a chest.
pub open spec fn chest_counter(item: ItemId) -> spec_fn((ObjectId, Seq<Slot>)) -> int {
    |c: (ObjectId, Seq<Slot>)| row_items(c.1, item)
}

/// Counts `item` in a furnace's three slots.
pub open spec fn furnace_counter(item: ItemId) -> spec_fn(FurnaceRecord) -> int {
    |f: FurnaceRecord| slot_items(f.state.input, item) + slot_items(f.state.fuel, item) + slot_items(f.state.output, item)
}

/// Counts `item` in a drill's two slots.
pub open spec fn drill_counter(item: ItemId) -> spec_fn(DrillRecord) -> int {
    |d: DrillRecord| slot_items(d.state.fuel, item) + slot_items(d.state.output, item)
}

/// Counts `item` in an alembic's two slots.
pub open spec fn alembic_counter(item: ItemId) -> spec_fn(AlembicRecord) -> int {
    |a: AlembicRecord| slot_items(a.state.input, item) + slot_items(a.state.output, item)
}

/// Counts `item` in a crucible's essence slots and output.
pub open spec fn crucible_counter(item: ItemId) -> spec_fn((ObjectId, Seq<Slot>, Slot, u16)) -> int {
    |c: (ObjectId, Seq<Slot>, Slot, u16)| row_items(c.1, item) + slot_items(c.2, item)
}

/// Counts `item` in an inserter's buffer.
pub open spec fn inserter_counter(item: ItemId) -> spec_fn((ObjectId, InserterDirection, Seq<Slot>)) -> int {
    |r: (ObjectId, InserterDirection, Seq<Slot>)| row_items(r.2, item)
}

/// How many of `item` the machines of one chunk hold.
pub open spec fn chunk_items(v: MachineView, item: ItemId) -> int {
    sum_of(v.chests.map_values(chest_counter(item))) + sum_of(v.furnaces.map_values(furnace_counter(item)))
        + sum_of(v.drills.map_values(drill_counter(item))) + sum_of(v.alembics.map_values(alembic_counter(item)))
        + sum_of(v.crucibles.map_values(crucible_counter(item))) + sum_of(v.inserters.map_values(inserter_counter(item)))
}

/// Counts `item` in a chunk's machines.
pub open spec fn chunk_counter(item: ItemId) -> spec_fn(MachineView) -> int {
    |v: MachineView| chunk_items(v, item)
}

/// How many of `item` the machines of all loaded chunks hold.
pub open spec fn world_items(w: Seq<MachineView>, item: ItemId) -> int {
    sum_of(w.map_values(chunk_counter(item)))
}

proof fn lemma_sum_update(s: Seq<int>, i: int, x: int)
    requires
        0 <= i < s.len(),
    ensures
        sum_of(s.update(i, x)) == sum_of(s) - s[i] + x,
    decreases s.len(),
{
    let t = s.update(i, x);
    if i == s.len() - 1 {
        assert(t.drop_last() =~= s.drop_last());
    } else {
        assert(t.drop_last() =~= s.drop_last().update(i, x));
        lemma_sum_update(s.drop_last(), i, x);
    }
}

proof fn lemma_mapped_sum_update<T>(s: Seq<T>, f: spec_fn(T) -> int, i: int, x: T)
    requires
        0 <= i < s.len(),
    ensures
        sum_of(s.update(i, x).map_values(f)) == sum_of(s.map_values(f)) - f(s[i]) + f(x),
{
    assert(s.update(i, x).map_values(f) =~= s.map_values(f).update(i, f(x)));
    lemma_sum_update(s.map_values(f), i, f(x));
}

/// A slot below the largest count, so that one more item fits exactly.
pub open spec fn slot_has_room(s: Slot) -> bool {
    s.count < u32::MAX
}

/// Every slot of a row has room.
pub open spec fn row_has_room(slots: Seq<Slot>) -> bool {
    forall|k: int| 0 <= k < slots.len() ==> slot_has_room(#[trigger] slots[k])
}

/// Every slot of every machine of a chunk has room.
pub open spec fn machines_have_room(v: MachineView) -> bool {
    &&& forall|c: int| 0 <= c < v.chests.len() ==> row_has_room(#[trigger] v.chests[c].1)
    &&& forall|f: int| 0 <= f < v.furnaces.len() ==> {
        &&& slot_has_room(#[trigger] v.furnaces[f].state.input)
        &&& slot_has_room(v.furnaces[f].state.fuel)
        &&& slot_has_room(v.furnaces[f].state.output)
    }
    &&& forall|d: int| 0 <= d < v.drills.len() ==> {
        &&& slot_has_room(#[trigger] v.drills[d].state.fuel)
        &&& slot_has_room(v.drills[d].state.output)
    }
    &&& forall|a: int| 0 <= a < v.alembics.len() ==> {
        &&& slot_has_room(#[trigger] v.alembics[a].state.input)
        &&& slot_has_room(v.alembics[a].state.output)
    }
    &&& forall|c: int| 0 <= c < v.crucibles.len() ==> {
        &&& row_has_room(#[trigger] v.crucibles[c].1)
        &&& slot_has_room(v.crucibles[c].2)
    }
    &&& forall|r: int| 0 <= r < v.inserters.len() ==> row_has_room(#[trigger] v.inserters[r].2)
}

/// Every slot of every loaded machine has room.
pub open spec fn world_has_room(w: Seq<MachineView>) -> bool {
    forall|i: int| 0 <= i < w.len() ==> machines_have_room(#[trigger] w[i])
}

/// Chests have sixteen slots and inserters four, as the records hold them.
pub open spec fn rows_sized(w: Seq<MachineView>) -> bool {
    &&& forall|i: int, c: int| 0 <= i < w.len() && 0 <= c < w[i].chests.len() ==> #[trigger] w[i].chests[c].1.len() == 16
    &&& forall|i: int, r: int| 0 <= i < w.len() && 0 <= r < w[i].inserters.len() ==> #[trigger] w[i].inserters[r].2.len() == 4
}

/// The world of real chunks has rows of the records' sizes.
pub proof fn lemma_world_view_sized(chunks: Seq<SimChunkData>)
    ensures
        rows_sized(world_view(chunks)),
{
}

/// How many of `item` a taken slot holds, if anything was taken.
pub open spec fn taken_items(out: Option<(int, Slot)>, item: ItemId) -> int {
    match out {
        Some((_, t)) => slot_items(t, item),
        None => 0,
    }
}

/// How many of `item` a deposit moved, where it was made.
pub open spec fn given_items(given: Option<(int, u32)>, deposited: ItemId, item: ItemId) -> int {
    match given {
        Some((_, moved)) => if deposited == item { moved as int } else { 0 },
        None => 0,
    }
}

proof fn lemma_take_slot(s: Slot, item: ItemId)
    ensures
        slot_items(take_spec(s, 1).0, item) + (match take_spec(s, 1).1 {
            Some(t) => slot_items(t, item),
            None => 0,
        }) == slot_items(s, item),
        take_spec(s, 1).0.count <= s.count,
        take_spec(s, 1).1 matches Some(t) ==> t.count == 1 && t.item == s.item && !t.empty_spec(),
{
}

proof fn lemma_deposit_slot(s: Slot, deposited: ItemId, amount: u32, item: ItemId)
    requires
        s.count + amount <= u32::MAX,
    ensures
        slot_items(deposit_spec(s, deposited, amount).0, item) == slot_items(s, item) + if deposited == item {
            deposit_spec(s, deposited, amount).1 as int
        } else {
            0
        },
        deposit_spec(s, deposited, amount).1 == 0 ==> deposit_spec(s, deposited, amount).0 == s,
        deposit_spec(s, deposited, amount).1 == 0 || deposit_spec(s, deposited, amount).1 == amount,
{
}

proof fn lemma_row_update(slots: Seq<Slot>, k: int, x: Slot, item: ItemId)
    requires
        0 <= k < slots.len(),
    ensures
        row_items(slots.update(k, x), item) == row_items(slots, item) - slot_items(slots[k], item) + slot_items(x, item),
{
    lemma_mapped_sum_update(slots, slot_counter(item), k, x);
}

proof fn lemma_deposit_row_items(slots: Seq<Slot>, deposited: ItemId, amount: u32, item: ItemId)
    requires
        forall|k: int| 0 <= k < slots.len() ==> #[trigger] slots[k].count + amount <= u32::MAX,
    ensures
        row_items(deposit_row(slots, deposited, amount).0, item) == row_items(slots, item) + if deposited == item {
            deposit_row(slots, deposited, amount).1 as int
        } else {
            0
        },
        deposit_row(slots, deposited, amount).1 == 0 ==> deposit_row(slots, deposited, amount).0 == slots,
        deposit_row(slots, deposited, amount).1 == 0 || deposit_row(slots, deposited, amount).1 == amount,
{
    if deposited == ITEM_NONE || amount == 0 {
    } else if exists|k: int| is_first_accepting(slots, deposited, k) {
        let k = choose|k: int| is_first_accepting(slots, deposited, k);
        assert(slots[k].count + amount <= u32::MAX);
        lemma_deposit_slot(slots[k], deposited, amount, item);
        lemma_row_update(slots, k, deposit_spec(slots[k], deposited, amount).0, item);
    }
}

proof fn lemma_world_items_update(w: Seq<MachineView>, i: int, v: MachineView, item: ItemId)
    requires
        0 <= i < w.len(),
    ensures
        world_items(w.update(i, v), item) == world_items(w, item) - chunk_items(w[i], item) + chunk_items(v, item),
{
    lemma_mapped_sum_update(w, chunk_counter(item), i, v);
}

proof fn lemma_holder_facts(w: Seq<MachineView>, kind: MachineKind, id: ObjectId)
    ensures
        holder(w, kind, id) matches Some(i) ==> {
            &&& 0 <= i < w.len()
            &&& 0 <= slot_of(w[i], kind, id) < ids_in(w[i], kind).len()
            &&& ids_in(w[i], kind)[slot_of(w[i], kind, id)] == id
        },
        ids_in(w[0], kind).len() == match kind {
            MachineKind::Chest => w[0].chests.len(),
            MachineKind::Furnace => w[0].furnaces.len(),
            MachineKind::Drill => w[0].drills.len(),
            MachineKind::Alembic => w[0].alembics.len(),
            MachineKind::Crucible => w[0].crucibles.len(),
            MachineKind::Inserter => w[0].inserters.len(),
        },
{
    if let Some(i) = holder(w, kind, id) {
        assert(is_holder(w, kind, id, i));
        let ids = ids_in(w[i], kind);
        assert(exists|c: int| is_first_with(ids, id, c));
        let c = first_with(ids, id)->0;
        assert(is_first_with(ids, id, c));
    }
}

proof fn lemma_ids_len(v: MachineView, kind: MachineKind)
    ensures
        ids_in(v, kind).len() == match kind {
            MachineKind::Chest => v.chests.len(),
            MachineKind::Furnace => v.furnaces.len(),
            MachineKind::Drill => v.drills.len(),
            MachineKind::Alembic => v.alembics.len(),
            MachineKind::Crucible => v.crucibles.len(),
            MachineKind::Inserter => v.inserters.len(),
        },
{
}

proof fn lemma_room_after_update(slots: Seq<Slot>, k: int, x: Slot)
    requires
        row_has_room(slots),
        0 <= k < slots.len(),
        x.count <= slots[k].count,
    ensures
        row_has_room(slots.update(k, x)),
{
    assert forall|j: int| 0 <= j < slots.len() implies slot_has_room(#[trigger] slots.update(k, x)[j]) by {
        assert(slot_has_room(slots[j]));
    }
}

proof fn lemma_take_inserter_items(w: Seq<MachineView>, id: ObjectId, slot_idx: usize, item: ItemId)
    requires
        rows_sized(w),
        world_has_room(w),
    ensures
        world_items(take_inserter_spec(w, id, slot_idx).0, item) == world_items(w, item) - taken_items(
            take_inserter_spec(w, id, slot_idx).1,
            item,
        ),
        rows_sized(take_inserter_spec(w, id, slot_idx).0),
        world_has_room(take_inserter_spec(w, id, slot_idx).0),
        same_ids(w, take_inserter_spec(w, id, slot_idx).0),
        take_inserter_spec(w, id, slot_idx).1 matches Some((_, t)) ==> t.count == 1 && !t.empty_spec(),
{
    lemma_holder_facts(w, MachineKind::Inserter, id);
    if let Some(ci) = holder(w, MachineKind::Inserter, id) {
        let v = w[ci];
        lemma_ids_len(v, MachineKind::Inserter);
        let c = slot_of(v, MachineKind::Inserter, id);
        if slot_idx < 4 {
            let r = v.inserters[c];
            assert(r.2.len() == 4);
            let (left, out) = take_spec(r.2[slot_idx as int], 1);
            lemma_take_slot(r.2[slot_idx as int], item);
            lemma_row_update(r.2, slot_idx as int, left, item);
            let r2 = (r.0, r.1, r.2.update(slot_idx as int, left));
            let v2 = MachineView { inserters: v.inserters.update(c, r2), ..v };
            lemma_mapped_sum_update(v.inserters, inserter_counter(item), c, r2);
            lemma_world_items_update(w, ci, v2, item);
            assert(machines_have_room(v));
            assert(row_has_room(r.2));
            lemma_room_after_update(r.2, slot_idx as int, left);
            let w1 = w.update(ci, v2);
            lemma_inserter_slots_change(v, c, r.2.update(slot_idx as int, left));
            lemma_chunk_change_keeps_ids(w, ci, v2);
            assert(machines_have_room(v2)) by {
                assert forall|q: int| 0 <= q < v2.inserters.len() implies row_has_room(#[trigger] v2.inserters[q].2) by {
                    if q != c {
                        assert(row_has_room(v.inserters[q].2));
                    }
                }
            }
            assert(world_has_room(w1)) by {
                assert forall|i: int| 0 <= i < w1.len() implies machines_have_room(#[trigger] w1[i]) by {
                    if i != ci {
                        assert(machines_have_room(w[i]));
                    }
                }
            }
        }
    }
}

/// Two worlds with the same machines at the same places, whatever they hold.
pub open spec fn same_ids(a: Seq<MachineView>, b: Seq<MachineView>) -> bool {
    &&& b.len() == a.len()
    &&& forall|i: int, kind: MachineKind| 0 <= i < a.len() ==> #[trigger] ids_in(b[i], kind) == ids_in(a[i], kind)
}

proof fn lemma_same_ids_holder(a: Seq<MachineView>, b: Seq<MachineView>, kind: MachineKind, id: ObjectId)
    requires
        same_ids(a, b),
    ensures
        holder(b, kind, id) == holder(a, kind, id),
        holder(a, kind, id) matches Some(i) ==> slot_of(b[i], kind, id) == slot_of(a[i], kind, id),
{
    assert forall|i: int| is_holder(a, kind, id, i) implies is_holder(b, kind, id, i) by {
        assert forall|j: int| 0 <= j < i implies first_with(ids_in(#[trigger] b[j], kind), id) is None by {
            assert(ids_in(b[j], kind) == ids_in(a[j], kind));
            assert(first_with(ids_in(a[j], kind), id) is None);
        }
        assert(ids_in(b[i], kind) == ids_in(a[i], kind));
    }
    assert forall|i: int| is_holder(b, kind, id, i) implies is_holder(a, kind, id, i) by {
        assert forall|j: int| 0 <= j < i implies first_with(ids_in(#[trigger] a[j], kind), id) is None by {
            assert(ids_in(b[j], kind) == ids_in(a[j], kind));
            assert(first_with(ids_in(b[j], kind), id) is None);
        }
        assert(ids_in(b[i], kind) == ids_in(a[i], kind));
    }
    if let Some(i) = holder(a, kind, id) {
        lemma_holder_facts(a, kind, id);
        assert(ids_in(b[i], kind) == ids_in(a[i], kind));
    }
}

proof fn lemma_chunk_change_keeps_ids(w: Seq<MachineView>, i: int, v: MachineView)
    requires
        0 <= i < w.len(),
        forall|kind: MachineKind| #[trigger] ids_in(v, kind) == ids_in(w[i], kind),
    ensures
        same_ids(w, w.update(i, v)),
{
    assert forall|j: int, kind: MachineKind| 0 <= j < w.len() implies #[trigger] ids_in(w.update(i, v)[j], kind)
        == ids_in(w[j], kind) by {
        if j == i {
            assert(ids_in(v, kind) == ids_in(w[i], kind));
        }
    }
}

proof fn lemma_same_ids_refl(w: Seq<MachineView>)
    ensures
        same_ids(w, w),
{
}

/// A row of the view keeps its ids when one record's slots change.
proof fn lemma_chest_slots_change(v: MachineView, c: int, slots: Seq<Slot>)
    requires
        0 <= c < v.chests.len(),
    ensures
        forall|kind: MachineKind| #[trigger] ids_in(MachineView { chests: v.chests.update(c, (v.chests[c].0, slots)), ..v }, kind)
            == ids_in(v, kind),
{
    let v2 = MachineView { chests: v.chests.update(c, (v.chests[c].0, slots)), ..v };
    assert(ids_in(v2, MachineKind::Chest) =~= ids_in(v, MachineKind::Chest));
}

proof fn lemma_inserter_slots_change(v: MachineView, c: int, slots: Seq<Slot>)
    requires
        0 <= c < v.inserters.len(),
    ensures
        forall|kind: MachineKind| #[trigger] ids_in(
            MachineView { inserters: v.inserters.update(c, (v.inserters[c].0, v.inserters[c].1, slots)), ..v },
            kind,
        ) == ids_in(v, kind),
{
    let v2 = MachineView { inserters: v.inserters.update(c, (v.inserters[c].0, v.inserters[c].1, slots)), ..v };
    assert(ids_in(v2, MachineKind::Inserter) =~= ids_in(v, MachineKind::Inserter));
}

proof fn lemma_furnace_change(v: MachineView, c: int, f: FurnaceRecord)
    requires
        0 <= c < v.furnaces.len(),
        f.object_id == v.furnaces[c].object_id,
    ensures
        forall|kind: MachineKind| #[trigger] ids_in(MachineView { furnaces: v.furnaces.update(c, f), ..v }, kind)
            == ids_in(v, kind),
{
    let v2 = MachineView { furnaces: v.furnaces.update(c, f), ..v };
    assert(ids_in(v2, MachineKind::Furnace) =~= ids_in(v, MachineKind::Furnace));
}

proof fn lemma_alembic_change(v: MachineView, c: int, a: AlembicRecord)
    requires
        0 <= c < v.alembics.len(),
        a.object_id == v.alembics[c].object_id,
    ensures
        forall|kind: MachineKind| #[trigger] ids_in(MachineView { alembics: v.alembics.update(c, a), ..v }, kind)
            == ids_in(v, kind),
{
    let v2 = MachineView { alembics: v.alembics.update(c, a), ..v };
    assert(ids_in(v2, MachineKind::Alembic) =~= ids_in(v, MachineKind::Alembic));
}

proof fn lemma_crucible_change(v: MachineView, c: int, x: (ObjectId, Seq<Slot>, Slot, u16))
    requires
        0 <= c < v.crucibles.len(),
        x.0 == v.crucibles[c].0,
    ensures
        forall|kind: MachineKind| #[trigger] ids_in(MachineView { crucibles: v.crucibles.update(c, x), ..v }, kind)
            == ids_in(v, kind),
{
    let v2 = MachineView { crucibles: v.crucibles.update(c, x), ..v };
    assert(ids_in(v2, MachineKind::Crucible) =~= ids_in(v, MachineKind::Crucible));
}

proof fn lemma_drill_change(v: MachineView, c: int, d: DrillRecord)
    requires
        0 <= c < v.drills.len(),
        d.object_id == v.drills[c].object_id,
    ensures
        forall|kind: MachineKind| #[trigger] ids_in(MachineView { drills: v.drills.update(c, d), ..v }, kind)
            == ids_in(v, kind),
{
    let v2 = MachineView { drills: v.drills.update(c, d), ..v };
    assert(ids_in(v2, MachineKind::Drill) =~= ids_in(v, MachineKind::Drill));
}

/// What a deposit leaves: the machines, and whether it was refused.
pub open spec fn refused(given: Option<(int, u32)>) -> bool {
    match given {
        Some((_, moved)) => moved == 0,
        None => true,
    }
}

proof fn lemma_deposit_target_items(w: Seq<MachineView>, target: TransferTarget, deposited: ItemId, item: ItemId)
    requires
        rows_sized(w),
        world_has_room(w),
    ensures
        world_items(deposit_target_spec(w, target, deposited, 1).0, item) == world_items(w, item) + given_items(
            deposit_target_spec(w, target, deposited, 1).1,
            deposited,
            item,
        ),
        same_ids(w, deposit_target_spec(w, target, deposited, 1).0),
        refused(deposit_target_spec(w, target, deposited, 1).1) ==> deposit_target_spec(w, target, deposited, 1).0 == w,
        deposit_target_spec(w, target, deposited, 1).1 matches Some((_, m)) ==> m == 0 || m == 1,
{
    lemma_same_ids_refl(w);
    match target {
        TransferTarget::Chest { object_id } => {
            lemma_holder_facts(w, MachineKind::Chest, object_id);
            if let Some(ti) = holder(w, MachineKind::Chest, object_id) {
                let v = w[ti];
                lemma_ids_len(v, MachineKind::Chest);
                let c = slot_of(v, MachineKind::Chest, object_id);
                let row = v.chests[c].1;
                assert(machines_have_room(v));
                assert(row_has_room(row));
                assert forall|k: int| 0 <= k < row.len() implies #[trigger] row[k].count + 1 <= u32::MAX by {
                    assert(slot_has_room(row[k]));
                }
                lemma_deposit_row_items(row, deposited, 1, item);
                let (after, moved) = deposit_row(row, deposited, 1);
                let v2 = MachineView { chests: v.chests.update(c, (v.chests[c].0, after)), ..v };
                lemma_mapped_sum_update(v.chests, chest_counter(item), c, (v.chests[c].0, after));
                lemma_world_items_update(w, ti, v2, item);
                lemma_chest_slots_change(v, c, after);
                lemma_chunk_change_keeps_ids(w, ti, v2);
                if moved == 0 {
                    assert(v2 =~= v);
                    assert(w.update(ti, v2) =~= w);
                }
            }
        },
        TransferTarget::FurnaceInput { object_id } => {
            lemma_holder_facts(w, MachineKind::Furnace, object_id);
            if smelt_spec(deposited) is Some {
                if let Some(ti) = holder(w, MachineKind::Furnace, object_id) {
                    let v = w[ti];
                    lemma_ids_len(v, MachineKind::Furnace);
                    let c = slot_of(v, MachineKind::Furnace, object_id);
                    let rec = v.furnaces[c];
                    assert(machines_have_room(v));
                    assert(slot_has_room(rec.state.input));
                    lemma_deposit_slot(rec.state.input, deposited, 1, item);
                    let (slot, moved) = deposit_spec(rec.state.input, deposited, 1);
                    let f2 = FurnaceRecord { object_id: rec.object_id, state: FurnaceState { input: slot, ..rec.state } };
                    let v2 = MachineView { furnaces: v.furnaces.update(c, f2), ..v };
                    lemma_mapped_sum_update(v.furnaces, furnace_counter(item), c, f2);
                    lemma_world_items_update(w, ti, v2, item);
                    lemma_furnace_change(v, c, f2);
                    lemma_chunk_change_keeps_ids(w, ti, v2);
                    if moved == 0 {
                        assert(v2 =~= v);
                        assert(w.update(ti, v2) =~= w);
                    }
                }
            }
        },
        TransferTarget::FurnaceFuel { object_id } => {
            lemma_holder_facts(w, MachineKind::Furnace, object_id);
            if deposited == ITEM_COAL {
                if let Some(ti) = holder(w, MachineKind::Furnace, object_id) {
                    let v = w[ti];
                    lemma_ids_len(v, MachineKind::Furnace);
                    let c = slot_of(v, MachineKind::Furnace, object_id);
                    let rec = v.furnaces[c];
                    assert(machines_have_room(v));
                    assert(slot_has_room(rec.state.fuel));
                    lemma_deposit_slot(rec.state.fuel, deposited, 1, item);
                    let (slot, moved) = deposit_spec(rec.state.fuel, deposited, 1);
                    let f2 = FurnaceRecord { object_id: rec.object_id, state: FurnaceState { fuel: slot, ..rec.state } };
                    let v2 = MachineView { furnaces: v.furnaces.update(c, f2), ..v };
                    lemma_mapped_sum_update(v.furnaces, furnace_counter(item), c, f2);
                    lemma_world_items_update(w, ti, v2, item);
                    lemma_furnace_change(v, c, f2);
                    lemma_chunk_change_keeps_ids(w, ti, v2);
                    if moved == 0 {
                        assert(v2 =~= v);
                        assert(w.update(ti, v2) =~= w);
                    }
                }
            }
        },
        TransferTarget::DrillFuel { object_id } => {
            lemma_holder_facts(w, MachineKind::Drill, object_id);
            if deposited == ITEM_COAL {
                if let Some(ti) = holder(w, MachineKind::Drill, object_id) {
                    let v = w[ti];
                    lemma_ids_len(v, MachineKind::Drill);
                    let c = slot_of(v, MachineKind::Drill, object_id);
                    let rec = v.drills[c];
                    assert(machines_have_room(v));
                    assert(slot_has_room(rec.state.fuel));
                    lemma_deposit_slot(rec.state.fuel, deposited, 1, item);
                    let (slot, moved) = deposit_spec(rec.state.fuel, deposited, 1);
                    let d2 = DrillRecord { object_id: rec.object_id, state: DrillState { fuel: slot, ..rec.state } };
                    let v2 = MachineView { drills: v.drills.update(c, d2), ..v };
                    lemma_mapped_sum_update(v.drills, drill_counter(item), c, d2);
                    lemma_world_items_update(w, ti, v2, item);
                    lemma_drill_change(v, c, d2);
                    lemma_chunk_change_keeps_ids(w, ti, v2);
                    if moved == 0 {
                        assert(v2 =~= v);
                        assert(w.update(ti, v2) =~= w);
                    }
                }
            }
        },
        TransferTarget::AlembicInput { object_id } => {
            lemma_holder_facts(w, MachineKind::Alembic, object_id);
            if essence_spec(deposited) is Some {
                if let Some(ti) = holder(w, MachineKind::Alembic, object_id) {
                    let v = w[ti];
                    lemma_ids_len(v, MachineKind::Alembic);
                    let c = slot_of(v, MachineKind::Alembic, object_id);
                    let rec = v.alembics[c];
                    assert(machines_have_room(v));
                    assert(slot_has_room(rec.state.input));
                    lemma_deposit_slot(rec.state.input, deposited, 1, item);
                    let (slot, moved) = deposit_spec(rec.state.input, deposited, 1);
                    let a2 = AlembicRecord { object_id: rec.object_id, state: AlembicState { input: slot, ..rec.state } };
                    let v2 = MachineView { alembics: v.alembics.update(c, a2), ..v };
                    lemma_mapped_sum_update(v.alembics, alembic_counter(item), c, a2);
                    lemma_world_items_update(w, ti, v2, item);
                    lemma_alembic_change(v, c, a2);
                    lemma_chunk_change_keeps_ids(w, ti, v2);
                    if moved == 0 {
                        assert(v2 =~= v);
                        assert(w.update(ti, v2) =~= w);
                    }
                }
            }
        },
        TransferTarget::CrucibleInput { object_id } => {
            lemma_holder_facts(w, MachineKind::Crucible, object_id);
            if is_essence_spec(deposited) {
                if let Some(ti) = holder(w, MachineKind::Crucible, object_id) {
                    let v = w[ti];
                    lemma_ids_len(v, MachineKind::Crucible);
                    let c = slot_of(v, MachineKind::Crucible, object_id);
                    let rec = v.crucibles[c];
                    let row = rec.1;
                    assert(machines_have_room(v));
                    assert(row_has_room(row));
                    assert forall|k: int| 0 <= k < row.len() implies #[trigger] row[k].count + 1 <= u32::MAX by {
                        assert(slot_has_room(row[k]));
                    }
                    lemma_deposit_row_items(row, deposited, 1, item);
                    let (after, moved) = deposit_row(row, deposited, 1);
                    let x = (rec.0, after, rec.2, rec.3);
                    let v2 = MachineView { crucibles: v.crucibles.update(c, x), ..v };
                    lemma_mapped_sum_update(v.crucibles, crucible_counter(item), c, x);
                    lemma_world_items_update(w, ti, v2, item);
                    lemma_crucible_change(v, c, x);
                    lemma_chunk_change_keeps_ids(w, ti, v2);
                    if moved == 0 {
                        assert(v2 =~= v);
                        assert(w.update(ti, v2) =~= w);
                    }
                }
            }
        },
    }
}

proof fn lemma_room_world_update(w: Seq<MachineView>, i: int, v: MachineView)
    requires
        world_has_room(w),
        0 <= i < w.len(),
        machines_have_room(v),
    ensures
        world_has_room(w.update(i, v)),
{
    assert forall|j: int| 0 <= j < w.len() implies machines_have_room(#[trigger] w.update(i, v)[j]) by {
        if j != i {
            assert(machines_have_room(w[j]));
        }
    }
}

proof fn lemma_take_source_items(w: Seq<MachineView>, source: TransferSource, item: ItemId)
    requires
        rows_sized(w),
        world_has_room(w),
    ensures
        world_items(take_source_spec(w, source).0, item) == world_items(w, item) - taken_items(
            take_source_spec(w, source).1,
            item,
        ),
        rows_sized(take_source_spec(w, source).0),
        world_has_room(take_source_spec(w, source).0),
        same_ids(w, take_source_spec(w, source).0),
        take_source_spec(w, source).1 matches Some((_, t)) ==> t.count == 1 && !t.empty_spec(),
{
    lemma_same_ids_refl(w);
    match source {
        TransferSource::ChestSlot { object_id, slot_idx } => {
            lemma_holder_facts(w, MachineKind::Chest, object_id);
            if let Some(ci) = holder(w, MachineKind::Chest, object_id) {
                let v = w[ci];
                lemma_ids_len(v, MachineKind::Chest);
                let c = slot_of(v, MachineKind::Chest, object_id);
                if slot_idx < 16 {
                    let row = v.chests[c].1;
                    assert(row.len() == 16);
                    let (left, out) = take_spec(row[slot_idx as int], 1);
                    lemma_take_slot(row[slot_idx as int], item);
                    lemma_row_update(row, slot_idx as int, left, item);
                    let v2 = MachineView {
                        chests: v.chests.update(c, (v.chests[c].0, row.update(slot_idx as int, left))),
                        ..v
                    };
                    lemma_mapped_sum_update(v.chests, chest_counter(item), c, (v.chests[c].0, row.update(slot_idx as int, left)));
                    lemma_world_items_update(w, ci, v2, item);
                    lemma_chest_slots_change(v, c, row.update(slot_idx as int, left));
                    lemma_chunk_change_keeps_ids(w, ci, v2);
                    assert(machines_have_room(v));
                    assert(row_has_room(row));
                    lemma_room_after_update(row, slot_idx as int, left);
                    assert(machines_have_room(v2)) by {
                        assert forall|q: int| 0 <= q < v2.chests.len() implies row_has_room(#[trigger] v2.chests[q].1) by {
                            if q != c {
                                assert(row_has_room(v.chests[q].1));
                            }
                        }
                    }
                    lemma_room_world_update(w, ci, v2);
                }
            }
        },
        TransferSource::FurnaceOutput { object_id } => {
            lemma_holder_facts(w, MachineKind::Furnace, object_id);
            if let Some(ci) = holder(w, MachineKind::Furnace, object_id) {
                let v = w[ci];
                lemma_ids_len(v, MachineKind::Furnace);
                let c = slot_of(v, MachineKind::Furnace, object_id);
                let rec = v.furnaces[c];
                let (left, out) = take_spec(rec.state.output, 1);
                lemma_take_slot(rec.state.output, item);
                let f2 = FurnaceRecord { object_id: rec.object_id, state: FurnaceState { output: left, ..rec.state } };
                let v2 = MachineView { furnaces: v.furnaces.update(c, f2), ..v };
                lemma_mapped_sum_update(v.furnaces, furnace_counter(item), c, f2);
                lemma_world_items_update(w, ci, v2, item);
                lemma_furnace_change(v, c, f2);
                lemma_chunk_change_keeps_ids(w, ci, v2);
                assert(machines_have_room(v));
                assert(machines_have_room(v2)) by {
                    assert forall|q: int| 0 <= q < v2.furnaces.len() implies {
                        &&& slot_has_room(#[trigger] v2.furnaces[q].state.input)
                        &&& slot_has_room(v2.furnaces[q].state.fuel)
                        &&& slot_has_room(v2.furnaces[q].state.output)
                    } by {
                        assert(slot_has_room(v.furnaces[q].state.input));
                    }
                }
                lemma_room_world_update(w, ci, v2);
            }
        },
        TransferSource::DrillOutput { object_id } => {
            lemma_holder_facts(w, MachineKind::Drill, object_id);
            if let Some(ci) = holder(w, MachineKind::Drill, object_id) {
                let v = w[ci];
                lemma_ids_len(v, MachineKind::Drill);
                let c = slot_of(v, MachineKind::Drill, object_id);
                let rec = v.drills[c];
                let (left, out) = take_spec(rec.state.output, 1);
                lemma_take_slot(rec.state.output, item);
                let d2 = DrillRecord { object_id: rec.object_id, state: DrillState { output: left, ..rec.state } };
                let v2 = MachineView { drills: v.drills.update(c, d2), ..v };
                lemma_mapped_sum_update(v.drills, drill_counter(item), c, d2);
                lemma_world_items_update(w, ci, v2, item);
                lemma_drill_change(v, c, d2);
                lemma_chunk_change_keeps_ids(w, ci, v2);
                assert(machines_have_room(v));
                assert(machines_have_room(v2)) by {
                    assert forall|q: int| 0 <= q < v2.drills.len() implies {
                        &&& slot_has_room(#[trigger] v2.drills[q].state.fuel)
                        &&& slot_has_room(v2.drills[q].state.output)
                    } by {
                        assert(slot_has_room(v.drills[q].state.fuel));
                    }
                }
                lemma_room_world_update(w, ci, v2);
            }
        },
        TransferSource::AlembicOutput { object_id } => {
            lemma_holder_facts(w, MachineKind::Alembic, object_id);
            if let Some(ci) = holder(w, MachineKind::Alembic, object_id) {
                let v = w[ci];
                lemma_ids_len(v, MachineKind::Alembic);
                let c = slot_of(v, MachineKind::Alembic, object_id);
                let rec = v.alembics[c];
                let (left, out) = take_spec(rec.state.output, 1);
                lemma_take_slot(rec.state.output, item);
                let a2 = AlembicRecord { object_id: rec.object_id, state: AlembicState { output: left, ..rec.state } };
                let v2 = MachineView { alembics: v.alembics.update(c, a2), ..v };
                lemma_mapped_sum_update(v.alembics, alembic_counter(item), c, a2);
                lemma_world_items_update(w, ci, v2, item);
                lemma_alembic_change(v, c, a2);
                lemma_chunk_change_keeps_ids(w, ci, v2);
                assert(machines_have_room(v));
                assert(machines_have_room(v2)) by {
                    assert forall|q: int| 0 <= q < v2.alembics.len() implies {
                        &&& slot_has_room(#[trigger] v2.alembics[q].state.input)
                        &&& slot_has_room(v2.alembics[q].state.output)
                    } by {
                        assert(slot_has_room(v.alembics[q].state.input));
                    }
                }
                lemma_room_world_update(w, ci, v2);
            }
        },
        TransferSource::CrucibleOutput { object_id } => {
            lemma_holder_facts(w, MachineKind::Crucible, object_id);
            if let Some(ci) = holder(w, MachineKind::Crucible, object_id) {
                let v = w[ci];
                lemma_ids_len(v, MachineKind::Crucible);
                let c = slot_of(v, MachineKind::Crucible, object_id);
                let rec = v.crucibles[c];
                let (left, out) = take_spec(rec.2, 1);
                lemma_take_slot(rec.2, item);
                let x = (rec.0, rec.1, left, rec.3);
                let v2 = MachineView { crucibles: v.crucibles.update(c, x), ..v };
                lemma_mapped_sum_update(v.crucibles, crucible_counter(item), c, x);
                lemma_world_items_update(w, ci, v2, item);
                lemma_crucible_change(v, c, x);
                lemma_chunk_change_keeps_ids(w, ci, v2);
                assert(machines_have_room(v));
                assert(machines_have_room(v2)) by {
                    assert forall|q: int| 0 <= q < v2.crucibles.len() implies {
                        &&& row_has_room(#[trigger] v2.crucibles[q].1)
                        &&& slot_has_room(v2.crucibles[q].2)
                    } by {
                        assert(row_has_room(v.crucibles[q].1));
                        assert(slot_has_room(v.crucibles[q].2));
                    }
                }
                lemma_room_world_update(w, ci, v2);
            }
        },
    }
}

proof fn lemma_deposit_inserter_items(w: Seq<MachineView>, id: ObjectId, deposited: ItemId, item: ItemId)
    requires
        rows_sized(w),
        world_has_room(w),
    ensures
        world_items(deposit_inserter_spec(w, id, deposited, 1).0, item) == world_items(w, item) + given_items(
            deposit_inserter_spec(w, id, deposited, 1).1,
            deposited,
            item,
        ),
        refused(deposit_inserter_spec(w, id, deposited, 1).1) ==> deposit_inserter_spec(w, id, deposited, 1).0 == w,
        deposit_inserter_spec(w, id, deposited, 1).1 matches Some((_, m)) ==> m == 0 || m == 1,
{
    lemma_holder_facts(w, MachineKind::Inserter, id);
    if let Some(ii) = holder(w, MachineKind::Inserter, id) {
        let v = w[ii];
        lemma_ids_len(v, MachineKind::Inserter);
        let c = slot_of(v, MachineKind::Inserter, id);
        let r = v.inserters[c];
        assert(machines_have_room(v));
        assert(row_has_room(r.2));
        assert forall|k: int| 0 <= k < r.2.len() implies #[trigger] r.2[k].count + 1 <= u32::MAX by {
            assert(slot_has_room(r.2[k]));
        }
        lemma_deposit_row_items(r.2, deposited, 1, item);
        let (after, moved) = deposit_row(r.2, deposited, 1);
        let v2 = MachineView { inserters: v.inserters.update(c, (r.0, r.1, after)), ..v };
        lemma_mapped_sum_update(v.inserters, inserter_counter(item), c, (r.0, r.1, after));
        lemma_world_items_update(w, ii, v2, item);
        if moved == 0 {
            assert(v2 =~= v);
            assert(w.update(ii, v2) =~= w);
        }
    }
}

proof fn lemma_first_accepting_exists(slots: Seq<Slot>, item: ItemId, k: int)
    requires
        0 <= k < slots.len(),
        accepts(slots[k], item),
    ensures
        exists|f: int| is_first_accepting(slots, item, f),
    decreases k,
{
    if exists|j: int| 0 <= j < k && accepts(#[trigger] slots[j], item) {
        let j = choose|j: int| 0 <= j < k && accepts(#[trigger] slots[j], item);
        lemma_first_accepting_exists(slots, item, j);
    } else {
        assert(is_first_accepting(slots, item, k));
    }
}

/// A push neither makes nor loses items: completed, one item goes from the
/// inserter's buffer to the target; refused, it goes back into the buffer.
/// Either way the loaded machines hold as many of every item as before,
/// where no slot is filled to the largest count.
pub proof fn lemma_push_conserves(
    w: Seq<MachineView>,
    inserter_id: ObjectId,
    slot_idx: usize,
    target: TransferTarget,
    item: ItemId,
)
    requires
        rows_sized(w),
        world_has_room(w),
    ensures
        world_items(push_spec(w, inserter_id, slot_idx, target).0, item) == world_items(w, item),
{
    lemma_take_inserter_items(w, inserter_id, slot_idx, item);
    let (w1, taken) = take_inserter_spec(w, inserter_id, slot_idx);
    if let Some((ci, s)) = taken {
        lemma_deposit_target_items(w1, target, s.item, item);
        let (w2, given) = deposit_target_spec(w1, target, s.item, s.count);
        let completed = match given {
            Some((_, m)) => m == s.count,
            None => false,
        };
        if !completed {
            assert(refused(given));
            lemma_holder_facts(w, MachineKind::Inserter, inserter_id);
            lemma_same_ids_holder(w, w1, MachineKind::Inserter, inserter_id);
            let v = w[ci];
            let c = slot_of(v, MachineKind::Inserter, inserter_id);
            let r = v.inserters[c];
            let left = take_spec(r.2[slot_idx as int], 1).0;
            let row1 = w1[ci].inserters[c].2;
            assert(row1 == r.2.update(slot_idx as int, left));
            assert(accepts(row1[slot_idx as int], s.item));
            lemma_first_accepting_exists(row1, s.item, slot_idx as int);
            lemma_deposit_inserter_items(w1, inserter_id, s.item, item);
        }
    }
}

/// A pull neither makes nor loses items: completed, one item goes from the
/// source machine into the inserter's buffer; refused, it goes back where it
/// came from. Either way the loaded machines hold as many of every item as
/// before, where no slot is filled to the largest count.
pub proof fn lemma_pull_conserves(w: Seq<MachineView>, inserter_id: ObjectId, source: TransferSource, item: ItemId)
    requires
        rows_sized(w),
        world_has_room(w),
    ensures
        world_items(pull_spec(w, inserter_id, source).0, item) == world_items(w, item),
{
    lemma_take_source_items(w, source, item);
    let (w1, taken) = take_source_spec(w, source);
    if let Some((si, s)) = taken {
        lemma_deposit_inserter_items(w1, inserter_id, s.item, item);
        let (w2, given) = deposit_inserter_spec(w1, inserter_id, s.item, s.count);
        let completed = match given {
            Some((_, m)) => m == s.count,
            None => false,
        };
        if !completed {
            assert(refused(given));
            match source {
                TransferSource::ChestSlot { object_id, slot_idx } => {
                    lemma_holder_facts(w, MachineKind::Chest, object_id);
                    lemma_same_ids_holder(w, w1, MachineKind::Chest, object_id);
                    let v = w[si];
                    let c = slot_of(v, MachineKind::Chest, object_id);
                    let row = v.chests[c].1;
                    let left = take_spec(row[slot_idx as int], 1).0;
                    let row1 = w1[si].chests[c].1;
                    assert(row1 == row.update(slot_idx as int, left));
                    assert(accepts(row1[slot_idx as int], s.item));
                    lemma_first_accepting_exists(row1, s.item, slot_idx as int);
                    lemma_deposit_target_items(w1, TransferTarget::Chest { object_id }, s.item, item);
                },
                TransferSource::FurnaceOutput { object_id } => {
                    lemma_holder_facts(w, MachineKind::Furnace, object_id);
                    lemma_same_ids_holder(w, w1, MachineKind::Furnace, object_id);
                    let v1 = w1[si];
                    lemma_ids_len(v1, MachineKind::Furnace);
                    let c = slot_of(v1, MachineKind::Furnace, object_id);
                    let rec = v1.furnaces[c];
                    assert(machines_have_room(v1));
                    assert(slot_has_room(rec.state.output));
                    lemma_deposit_slot(rec.state.output, s.item, 1, item);
                    let f2 = FurnaceRecord {
                        object_id: rec.object_id,
                        state: FurnaceState { output: deposit_spec(rec.state.output, s.item, 1).0, ..rec.state },
                    };
                    let v2 = MachineView { furnaces: v1.furnaces.update(c, f2), ..v1 };
                    lemma_mapped_sum_update(v1.furnaces, furnace_counter(item), c, f2);
                    lemma_world_items_update(w1, si, v2, item);
                },
                TransferSource::DrillOutput { object_id } => {
                    lemma_holder_facts(w, MachineKind::Drill, object_id);
                    lemma_same_ids_holder(w, w1, MachineKind::Drill, object_id);
                    let v1 = w1[si];
                    lemma_ids_len(v1, MachineKind::Drill);
                    let c = slot_of(v1, MachineKind::Drill, object_id);
                    let rec = v1.drills[c];
                    assert(machines_have_room(v1));
                    assert(slot_has_room(rec.state.output));
                    lemma_deposit_slot(rec.state.output, s.item, 1, item);
                    let d2 = DrillRecord {
                        object_id: rec.object_id,
                        state: DrillState { output: deposit_spec(rec.state.output, s.item, 1).0, ..rec.state },
                    };
                    let v2 = MachineView { drills: v1.drills.update(c, d2), ..v1 };
                    lemma_mapped_sum_update(v1.drills, drill_counter(item), c, d2);
                    lemma_world_items_update(w1, si, v2, item);
                },
                TransferSource::AlembicOutput { object_id } => {
                    lemma_holder_facts(w, MachineKind::Alembic, object_id);
                    lemma_same_ids_holder(w, w1, MachineKind::Alembic, object_id);
                    let v1 = w1[si];
                    lemma_ids_len(v1, MachineKind::Alembic);
                    let c = slot_of(v1, MachineKind::Alembic, object_id);
                    let rec = v1.alembics[c];
                    assert(machines_have_room(v1));
                    assert(slot_has_room(rec.state.output));
                    lemma_deposit_slot(rec.state.output, s.item, 1, item);
                    let a2 = AlembicRecord {
                        object_id: rec.object_id,
                        state: AlembicState { output: deposit_spec(rec.state.output, s.item, 1).0, ..rec.state },
                    };
                    let v2 = MachineView { alembics: v1.alembics.update(c, a2), ..v1 };
                    lemma_mapped_sum_update(v1.alembics, alembic_counter(item), c, a2);
                    lemma_world_items_update(w1, si, v2, item);
                },
                TransferSource::CrucibleOutput { object_id } => {
                    lemma_holder_facts(w, MachineKind::Crucible, object_id);
                    lemma_same_ids_holder(w, w1, MachineKind::Crucible, object_id);
                    let v1 = w1[si];
                    lemma_ids_len(v1, MachineKind::Crucible);
                    let c = slot_of(v1, MachineKind::Crucible, object_id);
                    let rec = v1.crucibles[c];
                    assert(machines_have_room(v1));
                    assert(slot_has_room(rec.2));
                    lemma_deposit_slot(rec.2, s.item, 1, item);
                    let x = (rec.0, rec.1, deposit_spec(rec.2, s.item, 1).0, rec.3);
                    let v2 = MachineView { crucibles: v1.crucibles.update(c, x), ..v1 };
                    lemma_mapped_sum_update(v1.crucibles, crucible_counter(item), c, x);
                    lemma_world_items_update(w1, si, v2, item);
                },
            }
        }
    }
}

} // verus!
