//! How inserters choose what to move: which neighbouring machine takes an
//! item, and which machine behind an inserter it pulls from.
use vstd::prelude::*;
use crate::containers::{
    alembic_ids, chest_ids, crucible_ids, drill_ids, find_alembic, find_chest, find_crucible, find_drill,
    find_furnace, find_inserter, first_with, furnace_ids, inserter_ids, AlembicRecord, ChestRecord, CrucibleRecord,
    DrillRecord, FurnaceRecord, InserterDirection, InserterRecord, Slot,
};
use crate::gameplay::{essence_output_for_input, essence_spec, is_essence_item, is_essence_spec, smelt_output_for_input, smelt_spec};
use crate::inventory::{ItemId, ITEM_COAL, ITEM_NONE};
use crate::world::{
    ObjectId, PlacedCell, SimChunkData, PLACED_ALEMBIC, PLACED_CHEST, PLACED_CRUCIBLE, PLACED_FURNACE, PLACED_INSERTER,
    PLACED_MINING_DRILL,
};

verus! {

/// Fuel an inserter keeps topped up in a furnace or drill: it feeds coal
/// only while fewer than this many are loaded.
pub const INSERTER_FUEL_BUFFER: u32 = 4;

/// The fuel level up to which inserters feed a drill.
pub const DRILL_FUEL_BUFFER: u32 = 4;

/// A machine next to an inserter.
#[derive(Debug, Copy, Clone, PartialEq, Eq, Structural)]
pub enum TransferEndpoint {
    Chest { object_id: ObjectId },
    Furnace { object_id: ObjectId },
    Drill { object_id: ObjectId },
    Alembic { object_id: ObjectId },
    Crucible { object_id: ObjectId },
}

/// Where an inserter takes an item from.
#[derive(Debug, Copy, Clone, PartialEq, Eq, Structural)]
pub enum TransferSource {
    ChestSlot { object_id: ObjectId, slot_idx: usize },
    FurnaceOutput { object_id: ObjectId },
    DrillOutput { object_id: ObjectId },
    AlembicOutput { object_id: ObjectId },
    CrucibleOutput { object_id: ObjectId },
}

/// Where an inserter puts an item.
#[derive(Debug, Copy, Clone, PartialEq, Eq, Structural)]
pub enum TransferTarget {
    Chest { object_id: ObjectId },
    FurnaceInput { object_id: ObjectId },
    FurnaceFuel { object_id: ObjectId },
    DrillFuel { object_id: ObjectId },
    AlembicInput { object_id: ObjectId },
    CrucibleInput { object_id: ObjectId },
}

/// The machine records of every loaded chunk, chunk after chunk, in the
/// order the chunks are walked; a machine is found by its first record.
pub struct LoadedMachines {
    pub chests: Vec<ChestRecord>,
    pub furnaces: Vec<FurnaceRecord>,
    pub drills: Vec<DrillRecord>,
    pub alembics: Vec<AlembicRecord>,
    pub crucibles: Vec<CrucibleRecord>,
    pub inserters: Vec<InserterRecord>,
}

/// A slot takes `item` when it is a real item and the slot is empty or
/// holds the same item.
pub open spec fn slot_accepts(s: Slot, item: ItemId) -> bool {
    item != ITEM_NONE && (s.empty_spec() || s.item == item)
}

pub fn slot_can_accept(slot: Slot, item: ItemId) -> (b: bool)
    ensures
        b == slot_accepts(slot, item),
{
    item != ITEM_NONE && (slot.is_empty() || slot.item == item)
}

/// Some slot of the row takes `item`.
pub open spec fn some_slot_accepts(slots: Seq<Slot>, item: ItemId) -> bool {
    exists|k: int| 0 <= k < slots.len() && slot_accepts(#[trigger] slots[k], item)
}

fn any_slot_accepts(slots: &[Slot], item: ItemId) -> (b: bool)
    ensures
        b == some_slot_accepts(slots@, item),
{
    let mut k: usize = 0;
    while k < slots.len()
        invariant
            0 <= k <= slots@.len(),
            forall|j: int| 0 <= j < k ==> !slot_accepts(#[trigger] slots@[j], item),
        decreases slots@.len() - k,
    {
        if slot_can_accept(slots[k], item) {
            return true;
        }
        k = k + 1;
    }
    false
}

/// The inserter with `id` has a slot that takes `item`.
pub open spec fn inserter_accepts(m: LoadedMachines, id: ObjectId, item: ItemId) -> bool {
    match first_with(inserter_ids(m.inserters@), id) {
        Some(i) => some_slot_accepts(m.inserters@[i].inv.slots@, item),
        None => false,
    }
}

pub fn inserter_can_accept(m: &LoadedMachines, object_id: ObjectId, item: ItemId) -> (b: bool)
    ensures
        b == inserter_accepts(*m, object_id, item),
{
    match find_inserter(m.inserters.as_slice(), object_id) {
        Some(i) => any_slot_accepts(m.inserters[i].inv.slots.as_slice(), item),
        None => false,
    }
}

/// A low fuel slot: empty, or holding fewer than the buffer.
pub open spec fn fuel_low(s: Slot) -> bool {
    s.empty_spec() || s.count < 4
}

/// Whether `target` takes `item` now: a chest with a slot for it; a
/// furnace's input for something that smelts; a furnace's or a drill's
/// fuel for coal while the fuel is low; an alembic's reagent slot for
/// something it distils; a crucible's essence slots for an essence.
pub open spec fn target_accepts(m: LoadedMachines, target: TransferTarget, item: ItemId) -> bool {
    match target {
        TransferTarget::Chest { object_id } => match first_with(chest_ids(m.chests@), object_id) {
            Some(i) => some_slot_accepts(m.chests@[i].inv.slots@, item),
            None => false,
        },
        TransferTarget::FurnaceInput { object_id } => smelt_spec(item) is Some && match first_with(
            furnace_ids(m.furnaces@),
            object_id,
        ) {
            Some(i) => slot_accepts(m.furnaces@[i].state.input, item),
            None => false,
        },
        TransferTarget::FurnaceFuel { object_id } => item == ITEM_COAL && match first_with(
            furnace_ids(m.furnaces@),
            object_id,
        ) {
            Some(i) => slot_accepts(m.furnaces@[i].state.fuel, item) && fuel_low(m.furnaces@[i].state.fuel),
            None => false,
        },
        TransferTarget::DrillFuel { object_id } => item == ITEM_COAL && match first_with(
            drill_ids(m.drills@),
            object_id,
        ) {
            Some(i) => slot_accepts(m.drills@[i].state.fuel, item) && fuel_low(m.drills@[i].state.fuel),
            None => false,
        },
        TransferTarget::AlembicInput { object_id } => essence_spec(item) is Some && match first_with(
            alembic_ids(m.alembics@),
            object_id,
        ) {
            Some(i) => slot_accepts(m.alembics@[i].state.input, item),
            None => false,
        },
        TransferTarget::CrucibleInput { object_id } => is_essence_spec(item) && match first_with(
            crucible_ids(m.crucibles@),
            object_id,
        ) {
            Some(i) => some_slot_accepts(m.crucibles@[i].state.inputs@, item),
            None => false,
        },
    }
}

pub fn target_can_accept(m: &LoadedMachines, target: TransferTarget, item: ItemId) -> (b: bool)
    ensures
        b == target_accepts(*m, target, item),
{
    match target {
        TransferTarget::Chest { object_id } => match find_chest(m.chests.as_slice(), object_id) {
            Some(i) => any_slot_accepts(m.chests[i].inv.slots.as_slice(), item),
            None => false,
        },
        TransferTarget::FurnaceInput { object_id } => {
            if smelt_output_for_input(item).is_none() {
                return false;
            }
            match find_furnace(m.furnaces.as_slice(), object_id) {
                Some(i) => slot_can_accept(m.furnaces[i].state.input, item),
                None => false,
            }
        },
        TransferTarget::FurnaceFuel { object_id } => {
            if item != ITEM_COAL {
                return false;
            }
            match find_furnace(m.furnaces.as_slice(), object_id) {
                Some(i) => {
                    let fuel = m.furnaces[i].state.fuel;
                    slot_can_accept(fuel, item) && (fuel.is_empty() || fuel.count < INSERTER_FUEL_BUFFER)
                },
                None => false,
            }
        },
        TransferTarget::DrillFuel { object_id } => {
            if item != ITEM_COAL {
                return false;
            }
            match find_drill(m.drills.as_slice(), object_id) {
                Some(i) => {
                    let fuel = m.drills[i].state.fuel;
                    slot_can_accept(fuel, item) && (fuel.is_empty() || fuel.count < DRILL_FUEL_BUFFER)
                },
                None => false,
            }
        },
        TransferTarget::AlembicInput { object_id } => {
            if essence_output_for_input(item).is_none() {
                return false;
            }
            match find_alembic(m.alembics.as_slice(), object_id) {
                Some(i) => slot_can_accept(m.alembics[i].state.input, item),
                None => false,
            }
        },
        TransferTarget::CrucibleInput { object_id } => {
            if !is_essence_item(item) {
                return false;
            }
            match find_crucible(m.crucibles.as_slice(), object_id) {
                Some(i) => any_slot_accepts(m.crucibles[i].state.inputs.as_slice(), item),
                None => false,
            }
        },
    }
}

/// The target that pass `pass` offers at endpoint `e` for `item`. Passes in
/// order: coal to furnace fuel, coal to drill fuel, smeltable items to
/// furnace input, reagents to alembic input, essences to crucible input,
/// anything to chests.
pub open spec fn pass_candidate(pass: int, e: TransferEndpoint, item: ItemId) -> Option<TransferTarget> {
    match e {
        TransferEndpoint::Furnace { object_id } => if pass == 0 && item == ITEM_COAL {
            Some(TransferTarget::FurnaceFuel { object_id })
        } else if pass == 2 && smelt_spec(item) is Some {
            Some(TransferTarget::FurnaceInput { object_id })
        } else {
            None
        },
        TransferEndpoint::Drill { object_id } => if pass == 1 && item == ITEM_COAL {
            Some(TransferTarget::DrillFuel { object_id })
        } else {
            None
        },
        TransferEndpoint::Alembic { object_id } => if pass == 3 && essence_spec(item) is Some {
            Some(TransferTarget::AlembicInput { object_id })
        } else {
            None
        },
        TransferEndpoint::Crucible { object_id } => if pass == 4 && is_essence_spec(item) {
            Some(TransferTarget::CrucibleInput { object_id })
        } else {
            None
        },
        TransferEndpoint::Chest { object_id } => if pass == 5 {
            Some(TransferTarget::Chest { object_id })
        } else {
            None
        },
    }
}

/// The first target, pass by pass and endpoint by endpoint from pass `pass`
/// and endpoint `j` on, that is not at the excluded endpoint and takes `item`.
pub open spec fn target_scan(
    m: LoadedMachines,
    es: Seq<TransferEndpoint>,
    item: ItemId,
    exclude: Option<TransferEndpoint>,
    pass: int,
    j: int,
) -> Option<TransferTarget>
    decreases 6 - pass, es.len() - j,
{
    if pass >= 6 || pass < 0 || j < 0 {
        None
    } else if j >= es.len() {
        target_scan(m, es, item, exclude, pass + 1, 0)
    } else {
        match pass_candidate(pass, es[j], item) {
            Some(t) => if Some(es[j]) != exclude && target_accepts(m, t, item) {
                Some(t)
            } else {
                target_scan(m, es, item, exclude, pass, j + 1)
            },
            None => target_scan(m, es, item, exclude, pass, j + 1),
        }
    }
}

/// The best place among `es` for `item`, skipping `exclude`.
pub open spec fn best_target_spec(
    m: LoadedMachines,
    es: Seq<TransferEndpoint>,
    item: ItemId,
    exclude: Option<TransferEndpoint>,
) -> Option<TransferTarget> {
    target_scan(m, es, item, exclude, 0, 0)
}

fn candidate(pass: usize, e: TransferEndpoint, item: ItemId) -> (c: Option<TransferTarget>)
    requires
        pass < 6,
    ensures
        c == pass_candidate(pass as int, e, item),
{
    match e {
        TransferEndpoint::Furnace { object_id } => if pass == 0 && item == ITEM_COAL {
            Some(TransferTarget::FurnaceFuel { object_id })
        } else if pass == 2 && smelt_output_for_input(item).is_some() {
            Some(TransferTarget::FurnaceInput { object_id })
        } else {
            None
        },
        TransferEndpoint::Drill { object_id } => if pass == 1 && item == ITEM_COAL {
            Some(TransferTarget::DrillFuel { object_id })
        } else {
            None
        },
        TransferEndpoint::Alembic { object_id } => if pass == 3 && essence_output_for_input(item).is_some() {
            Some(TransferTarget::AlembicInput { object_id })
        } else {
            None
        },
        TransferEndpoint::Crucible { object_id } => if pass == 4 && is_essence_item(item) {
            Some(TransferTarget::CrucibleInput { object_id })
        } else {
            None
        },
        TransferEndpoint::Chest { object_id } => if pass == 5 {
            Some(TransferTarget::Chest { object_id })
        } else {
            None
        },
    }
}

/// Picks where `item` goes among `endpoints`: coal feeds furnaces first,
/// then drills; smeltable items go to furnace inputs; reagents to alembics;
/// essences to crucibles; anything else, and what those refuse, goes to a
/// chest with room.
pub fn best_target_for_item(
    m: &LoadedMachines,
    endpoints: &[TransferEndpoint],
    item: ItemId,
    exclude: Option<TransferEndpoint>,
) -> (r: Option<TransferTarget>)
    ensures
        r == best_target_spec(*m, endpoints@, item, exclude),
{
    let mut pass: usize = 0;
    while pass < 6
        invariant
            0 <= pass <= 6,
            best_target_spec(*m, endpoints@, item, exclude) == target_scan(
                *m,
                endpoints@,
                item,
                exclude,
                pass as int,
                0,
            ),
        decreases 6 - pass,
    {
        let mut j: usize = 0;
        while j < endpoints.len()
            invariant
                0 <= pass < 6,
                0 <= j <= endpoints@.len(),
                best_target_spec(*m, endpoints@, item, exclude) == target_scan(
                    *m,
                    endpoints@,
                    item,
                    exclude,
                    pass as int,
                    j as int,
                ),
            decreases endpoints@.len() - j,
        {
            let e = endpoints[j];
            match candidate(pass, e, item) {
                Some(t) => {
                    if Some(e) != exclude && target_can_accept(m, t, item) {
                        return Some(t);
                    }
                },
                None => {},
            }
            j = j + 1;
        }
        pass = pass + 1;
    }
    None
}

/// An inserter can move `item` from its source: it has room for it and the
/// target endpoint takes it.
pub open spec fn pull_ok(m: LoadedMachines, inserter_id: ObjectId, target: TransferEndpoint, item: ItemId) -> bool {
    &&& inserter_accepts(m, inserter_id, item)
    &&& best_target_spec(m, seq![target], item, None) is Some
}

/// Which chest items each pull pass looks for: coal, then smeltable items,
/// then anything.
pub open spec fn pull_pass_wants(pass: int, item: ItemId) -> bool {
    if pass == 0 {
        item == ITEM_COAL
    } else if pass == 1 {
        smelt_spec(item) is Some
    } else {
        true
    }
}

/// The first non-empty slot, from slot `k` on, whose item the pass wants
/// and the inserter can move.
pub open spec fn chest_slot_scan(
    m: LoadedMachines,
    slots: Seq<Slot>,
    inserter_id: ObjectId,
    target: TransferEndpoint,
    pass: int,
    k: int,
) -> Option<int>
    decreases slots.len() - k,
{
    if k < 0 || k >= slots.len() {
        None
    } else if !slots[k].empty_spec() && pull_pass_wants(pass, slots[k].item) && pull_ok(
        m,
        inserter_id,
        target,
        slots[k].item,
    ) {
        Some(k)
    } else {
        chest_slot_scan(m, slots, inserter_id, target, pass, k + 1)
    }
}

/// Where an inserter pulls from: the output of a furnace, drill, alembic or
/// crucible, when the inserter and the target can take it; or the first
/// slot of a chest holding coal, else something smeltable, else anything,
/// that they can take.
pub open spec fn pull_source_spec(
    m: LoadedMachines,
    inserter_id: ObjectId,
    source: TransferEndpoint,
    target: TransferEndpoint,
) -> Option<TransferSource> {
    match source {
        TransferEndpoint::Furnace { object_id } => match first_with(furnace_ids(m.furnaces@), object_id) {
            Some(i) => {
                let out = m.furnaces@[i].state.output;
                if !out.empty_spec() && pull_ok(m, inserter_id, target, out.item) {
                    Some(TransferSource::FurnaceOutput { object_id })
                } else {
                    None
                }
            },
            None => None,
        },
        TransferEndpoint::Drill { object_id } => match first_with(drill_ids(m.drills@), object_id) {
            Some(i) => {
                let out = m.drills@[i].state.output;
                if !out.empty_spec() && pull_ok(m, inserter_id, target, out.item) {
                    Some(TransferSource::DrillOutput { object_id })
                } else {
                    None
                }
            },
            None => None,
        },
        TransferEndpoint::Alembic { object_id } => match first_with(alembic_ids(m.alembics@), object_id) {
            Some(i) => {
                let out = m.alembics@[i].state.output;
                if !out.empty_spec() && pull_ok(m, inserter_id, target, out.item) {
                    Some(TransferSource::AlembicOutput { object_id })
                } else {
                    None
                }
            },
            None => None,
        },
        TransferEndpoint::Crucible { object_id } => match first_with(crucible_ids(m.crucibles@), object_id) {
            Some(i) => {
                let out = m.crucibles@[i].state.output;
                if !out.empty_spec() && pull_ok(m, inserter_id, target, out.item) {
                    Some(TransferSource::CrucibleOutput { object_id })
                } else {
                    None
                }
            },
            None => None,
        },
        TransferEndpoint::Chest { object_id } => match first_with(chest_ids(m.chests@), object_id) {
            Some(c) => {
                let slots = m.chests@[c].inv.slots@;
                match chest_slot_scan(m, slots, inserter_id, target, 0, 0) {
                    Some(k) => Some(TransferSource::ChestSlot { object_id, slot_idx: k as usize }),
                    None => match chest_slot_scan(m, slots, inserter_id, target, 1, 0) {
                        Some(k) => Some(TransferSource::ChestSlot { object_id, slot_idx: k as usize }),
                        None => match chest_slot_scan(m, slots, inserter_id, target, 2, 0) {
                            Some(k) => Some(TransferSource::ChestSlot { object_id, slot_idx: k as usize }),
                            None => None,
                        },
                    },
                }
            },
            None => None,
        },
    }
}

fn can_pull(m: &LoadedMachines, inserter_id: ObjectId, target: TransferEndpoint, item: ItemId) -> (b: bool)
    ensures
        b == pull_ok(*m, inserter_id, target, item),
{
    let targets: [TransferEndpoint; 1] = [target];
    assert(targets@ =~= seq![target]);
    inserter_can_accept(m, inserter_id, item) && best_target_for_item(m, targets.as_slice(), item, None).is_some()
}

fn pass_wants(pass: usize, item: ItemId) -> (b: bool)
    ensures
        b == pull_pass_wants(pass as int, item),
{
    if pass == 0 {
        item == ITEM_COAL
    } else if pass == 1 {
        smelt_output_for_input(item).is_some()
    } else {
        true
    }
}

fn first_chest_slot_matching(
    m: &LoadedMachines,
    slots: &[Slot],
    inserter_id: ObjectId,
    target: TransferEndpoint,
    pass: usize,
) -> (r: Option<usize>)
    ensures
        match r {
            Some(k) => chest_slot_scan(*m, slots@, inserter_id, target, pass as int, 0) == Some(k as int),
            None => chest_slot_scan(*m, slots@, inserter_id, target, pass as int, 0) is None,
        },
{
    let mut k: usize = 0;
    while k < slots.len()
        invariant
            0 <= k <= slots@.len(),
            chest_slot_scan(*m, slots@, inserter_id, target, pass as int, 0) == chest_slot_scan(
                *m,
                slots@,
                inserter_id,
                target,
                pass as int,
                k as int,
            ),
        decreases slots@.len() - k,
    {
        let s = slots[k];
        if !s.is_empty() && pass_wants(pass, s.item) && can_pull(m, inserter_id, target, s.item) {
            return Some(k);
        }
        k = k + 1;
    }
    None
}

/// Picks what an inserter pulls from the machine behind it for the machine
/// in front of it.
pub fn best_pull_source(
    m: &LoadedMachines,
    inserter_id: ObjectId,
    source_endpoint: TransferEndpoint,
    target_endpoint: TransferEndpoint,
) -> (r: Option<TransferSource>)
    ensures
        r == pull_source_spec(*m, inserter_id, source_endpoint, target_endpoint),
{
    match source_endpoint {
        TransferEndpoint::Furnace { object_id } => match find_furnace(m.furnaces.as_slice(), object_id) {
            Some(i) => {
                let out = m.furnaces[i].state.output;
                if !out.is_empty() && can_pull(m, inserter_id, target_endpoint, out.item) {
                    Some(TransferSource::FurnaceOutput { object_id })
                } else {
                    None
                }
            },
            None => None,
        },
        TransferEndpoint::Drill { object_id } => match find_drill(m.drills.as_slice(), object_id) {
            Some(i) => {
                let out = m.drills[i].state.output;
                if !out.is_empty() && can_pull(m, inserter_id, target_endpoint, out.item) {
                    Some(TransferSource::DrillOutput { object_id })
                } else {
                    None
                }
            },
            None => None,
        },
        TransferEndpoint::Alembic { object_id } => match find_alembic(m.alembics.as_slice(), object_id) {
            Some(i) => {
                let out = m.alembics[i].state.output;
                if !out.is_empty() && can_pull(m, inserter_id, target_endpoint, out.item) {
                    Some(TransferSource::AlembicOutput { object_id })
                } else {
                    None
                }
            },
            None => None,
        },
        TransferEndpoint::Crucible { object_id } => match find_crucible(m.crucibles.as_slice(), object_id) {
            Some(i) => {
                let out = m.crucibles[i].state.output;
                if !out.is_empty() && can_pull(m, inserter_id, target_endpoint, out.item) {
                    Some(TransferSource::CrucibleOutput { object_id })
                } else {
                    None
                }
            },
            None => None,
        },
        TransferEndpoint::Chest { object_id } => match find_chest(m.chests.as_slice(), object_id) {
            Some(c) => {
                let slots = m.chests[c].inv.slots;
                let mut pass: usize = 0;
                while pass < 3
                    invariant
                        0 <= pass <= 3,
                        slots@ == m.chests@[c as int].inv.slots@,
                        first_with(chest_ids(m.chests@), object_id) == Some(c as int),
                        source_endpoint == (TransferEndpoint::Chest { object_id }),
                        forall|p: int| 0 <= p < pass ==> chest_slot_scan(*m, slots@, inserter_id, target_endpoint, p, 0) is None,
                    decreases 3 - pass,
                {
                    match first_chest_slot_matching(m, slots.as_slice(), inserter_id, target_endpoint, pass) {
                        Some(k) => {
                            return Some(TransferSource::ChestSlot { object_id, slot_idx: k });
                        },
                        None => {},
                    }
                    pass = pass + 1;
                }
                None
            },
            None => None,
        },
    }
}

/// The endpoint a placed structure with an id is to an inserter, by kind:
///
/// | kind     | endpoint | inserters put into           | and take from |
/// |----------|----------|------------------------------|---------------|
/// | chest    | Chest    | any slot                     | any slot      |
/// | furnace  | Furnace  | fuel (coal), input (ores)    | output        |
/// | drill    | Drill    | fuel (coal)                  | output        |
/// | alembic  | Alembic  | input (reagents)             | output        |
/// | crucible | Crucible | essence slots (essences)     | output        |
///
/// An inserter, or a tile with nothing placed, is no endpoint.
pub open spec fn endpoint_of_cell(c: PlacedCell) -> Option<TransferEndpoint> {
    let id = c.object_id;
    if id == 0 {
        None
    } else if c.kind == PLACED_CHEST {
        Some(TransferEndpoint::Chest { object_id: id })
    } else if c.kind == PLACED_FURNACE {
        Some(TransferEndpoint::Furnace { object_id: id })
    } else if c.kind == PLACED_MINING_DRILL {
        Some(TransferEndpoint::Drill { object_id: id })
    } else if c.kind == PLACED_ALEMBIC {
        Some(TransferEndpoint::Alembic { object_id: id })
    } else if c.kind == PLACED_CRUCIBLE {
        Some(TransferEndpoint::Crucible { object_id: id })
    } else {
        None
    }
}

/// The machine on the tile at chunk-local `(lx, ly)` that an inserter can
/// work with.
pub open spec fn endpoint_spec(data: SimChunkData, lx: int, ly: int) -> Option<TransferEndpoint> {
    let idx = ly * 32 + lx;
    if idx < data.placed@.len() {
        endpoint_of_cell(data.placed@[idx])
    } else {
        None
    }
}

fn endpoint_of(c: PlacedCell) -> (r: Option<TransferEndpoint>)
    ensures
        r == endpoint_of_cell(c),
{
    let id = c.object_id;
    if id == 0 {
        None
    } else if c.kind == PLACED_CHEST {
        Some(TransferEndpoint::Chest { object_id: id })
    } else if c.kind == PLACED_FURNACE {
        Some(TransferEndpoint::Furnace { object_id: id })
    } else if c.kind == PLACED_MINING_DRILL {
        Some(TransferEndpoint::Drill { object_id: id })
    } else if c.kind == PLACED_ALEMBIC {
        Some(TransferEndpoint::Alembic { object_id: id })
    } else if c.kind == PLACED_CRUCIBLE {
        Some(TransferEndpoint::Crucible { object_id: id })
    } else {
        None
    }
}

/// The machine an inserter can work with on the tile at chunk-local
/// `(local_x, local_y)`, if any.
pub fn endpoint_in_chunk(data: &SimChunkData, local_x: i32, local_y: i32) -> (r: Option<TransferEndpoint>)
    requires
        0 <= local_x < 32,
        0 <= local_y < 32,
    ensures
        r == endpoint_spec(*data, local_x as int, local_y as int),
{
    let idx = (local_y as usize) * 32 + (local_x as usize);
    if idx >= data.placed.len() {
        return None;
    }
    endpoint_of(data.placed[idx])
}

/// An inserter on a chunk: its global tile, id and facing.
#[derive(Debug, Copy, Clone, PartialEq, Eq)]
pub struct InserterTile {
    pub tile_x: i32,
    pub tile_y: i32,
    pub object_id: ObjectId,
    pub direction: InserterDirection,
}

/// The facing of the inserter with `id`: that of its first record, or
/// facing right when it has none.
pub open spec fn facing_of(inserters: Seq<InserterRecord>, id: ObjectId) -> InserterDirection {
    match first_with(inserter_ids(inserters), id) {
        Some(i) => inserters[i].direction,
        None => InserterDirection::Right,
    }
}

/// The inserters of the first `n` tiles of a chunk whose corner tile is at
/// `(ox, oy)`, in tile order.
pub open spec fn inserter_tiles_upto(data: SimChunkData, ox: int, oy: int, n: int) -> Seq<InserterTile>
    decreases n,
{
    if n <= 0 {
        seq![]
    } else {
        let prev = inserter_tiles_upto(data, ox, oy, n - 1);
        let p = data.placed@[n - 1];
        if p.kind == PLACED_INSERTER && p.object_id != 0 {
            prev.push(
                InserterTile {
                    tile_x: (ox + (n - 1) % 32) as i32,
                    tile_y: (oy + (n - 1) / 32) as i32,
                    object_id: p.object_id,
                    direction: facing_of(data.inserters@, p.object_id),
                },
            )
        } else {
            prev
        }
    }
}

/// The inserters placed on a chunk, in tile order, with their global
/// tiles and facings.
pub fn inserter_tiles_in_chunk(data: &SimChunkData) -> (out: Vec<InserterTile>)
    requires
        data.placed@.len() <= 1024,
        i32::MIN <= data.coord.cx * 32,
        data.coord.cx * 32 + 31 <= i32::MAX,
        i32::MIN <= data.coord.cy * 32,
        data.coord.cy * 32 + 31 <= i32::MAX,
    ensures
        out@ == inserter_tiles_upto(*data, data.coord.cx * 32, data.coord.cy * 32, data.placed@.len() as int),
{
    let ox = data.coord.cx * 32;
    let oy = data.coord.cy * 32;
    let mut out: Vec<InserterTile> = Vec::new();
    let mut idx: usize = 0;
    while idx < data.placed.len()
        invariant
            0 <= idx <= data.placed@.len(),
            data.placed@.len() <= 1024,
            ox == data.coord.cx * 32,
            oy == data.coord.cy * 32,
            ox + 31 <= i32::MAX,
            oy + 31 <= i32::MAX,
            out@ == inserter_tiles_upto(*data, ox as int, oy as int, idx as int),
        decreases data.placed@.len() - idx,
    {
        let p = data.placed[idx];
        if p.kind == PLACED_INSERTER && p.object_id != 0 {
            let direction = match find_inserter(data.inserters.as_slice(), p.object_id) {
                Some(i) => data.inserters[i].direction,
                None => InserterDirection::Right,
            };
            let local_x = (idx % 32) as i32;
            let local_y = (idx / 32) as i32;
            out.push(InserterTile { tile_x: ox + local_x, tile_y: oy + local_y, object_id: p.object_id, direction });
        }
        idx = idx + 1;
    }
    out
}


/// The first non-empty slot, from slot `k` on.
pub open spec fn first_filled_from(slots: Seq<Slot>, k: int) -> Option<int>
    decreases slots.len() - k,
{
    if k < 0 || k >= slots.len() {
        None
    } else if !slots[k].empty_spec() {
        Some(k)
    } else {
        first_filled_from(slots, k + 1)
    }
}

/// What an inserter pushes forward: its first non-empty slot, when the
/// machine in front takes that slot's item, with where it goes.
pub open spec fn push_plan_spec(m: LoadedMachines, inserter_id: ObjectId, target: Option<TransferEndpoint>) -> Option<
    (usize, TransferTarget),
> {
    match target {
        None => None,
        Some(e) => match first_with(inserter_ids(m.inserters@), inserter_id) {
            None => None,
            Some(i) => {
                let slots = m.inserters@[i].inv.slots@;
                match first_filled_from(slots, 0) {
                    None => None,
                    Some(k) => match best_target_spec(m, seq![e], slots[k].item, None) {
                        Some(t) => Some((k as usize, t)),
                        None => None,
                    },
                }
            },
        },
    }
}

/// Picks the slot an inserter empties into the machine in front of it, and
/// the place it goes there.
pub fn push_plan(m: &LoadedMachines, inserter_id: ObjectId, target_endpoint: Option<TransferEndpoint>) -> (r: Option<
    (usize, TransferTarget),
>)
    ensures
        r == push_plan_spec(*m, inserter_id, target_endpoint),
{
    let e = match target_endpoint {
        None => return None,
        Some(e) => e,
    };
    let i = match find_inserter(m.inserters.as_slice(), inserter_id) {
        None => return None,
        Some(i) => i,
    };
    let slots = m.inserters[i].inv.slots;
    let mut k: usize = 0;
    while k < 4
        invariant
            0 <= k <= 4,
            slots@.len() == 4,
            target_endpoint == Some(e),
            first_with(inserter_ids(m.inserters@), inserter_id) == Some(i as int),
            slots == m.inserters@[i as int].inv.slots,
            first_filled_from(slots@, 0) == first_filled_from(slots@, k as int),
        decreases 4 - k,
    {
        if !slots[k].is_empty() {
            let targets: [TransferEndpoint; 1] = [e];
            assert(targets@ =~= seq![e]);
            return match best_target_for_item(m, targets.as_slice(), slots[k].item, None) {
                Some(t) => Some((k, t)),
                None => None,
            };
        }
        k = k + 1;
    }
    None
}


/// Inserter `a` of the list works before inserter `b`: it stands on an
/// earlier row, or further left on the same row, or on the same tile and is
/// listed first.
pub open spec fn works_before(ts: Seq<InserterTile>, a: int, b: int) -> bool {
    ||| ts[a].tile_y < ts[b].tile_y
    ||| ts[a].tile_y == ts[b].tile_y && ts[a].tile_x < ts[b].tile_x
    ||| ts[a].tile_y == ts[b].tile_y && ts[a].tile_x == ts[b].tile_x && a < b
}

/// Inserter `m` appears in `order`.
pub open spec fn in_order(order: Seq<usize>, m: int) -> bool {
    exists|i: int| 0 <= i < order.len() && order[i] == m
}

/// `order` lists every inserter once, row by row and left to right, those
/// on one tile in the order they were listed.
pub open spec fn is_work_order(ts: Seq<InserterTile>, order: Seq<usize>) -> bool {
    &&& order.len() == ts.len()
    &&& forall|i: int| 0 <= i < order.len() ==> order[i] < ts.len()
    &&& forall|i: int, j: int|
        0 <= i < j < order.len() ==> works_before(ts, #[trigger] order[i] as int, #[trigger] order[j] as int)
    &&& forall|m: int| 0 <= m < ts.len() ==> #[trigger] in_order(order, m)
}

fn at_or_before(a: InserterTile, b: InserterTile) -> (r: bool)
    ensures
        r == (a.tile_y < b.tile_y || (a.tile_y == b.tile_y && a.tile_x <= b.tile_x)),
{
    a.tile_y < b.tile_y || (a.tile_y == b.tile_y && a.tile_x <= b.tile_x)
}

/// The order in which the listed inserters work: by row, then by column.
pub fn inserter_work_order(tiles: &[InserterTile]) -> (order: Vec<usize>)
    ensures
        is_work_order(tiles@, order@),
{
    let ghost ts = tiles@;
    let mut order: Vec<usize> = Vec::new();
    let mut k: usize = 0;
    while k < tiles.len()
        invariant
            ts == tiles@,
            k <= ts.len(),
            order@.len() == k,
            forall|i: int| 0 <= i < order@.len() ==> order@[i] < k,
            forall|i: int, j: int|
                0 <= i < j < order@.len() ==> works_before(ts, #[trigger] order@[i] as int, #[trigger] order@[j] as int),
            forall|m: int| 0 <= m < k ==> #[trigger] in_order(order@, m),
        decreases ts.len() - k,
    {
        let mut pos: usize = 0;
        while pos < order.len() && at_or_before(tiles[order[pos]], tiles[k])
            invariant
                ts == tiles@,
                k < ts.len(),
                pos <= order@.len(),
                forall|i: int| 0 <= i < order@.len() ==> order@[i] < k,
                forall|i: int| 0 <= i < pos ==> {
                    let t = #[trigger] ts[order@[i] as int];
                    t.tile_y < ts[k as int].tile_y || (t.tile_y == ts[k as int].tile_y && t.tile_x
                        <= ts[k as int].tile_x)
                },
            decreases order@.len() - pos,
        {
            pos = pos + 1;
        }
        let ghost before = order@;
        order.insert(pos, k);
        proof {
            assert forall|i: int, j: int| 0 <= i < j < order@.len() implies works_before(
                ts,
                #[trigger] order@[i] as int,
                #[trigger] order@[j] as int,
            ) by {
                if j < pos {
                    assert(order@[i] == before[i] && order@[j] == before[j]);
                } else if j == pos {
                    assert(order@[i] == before[i]);
                    let t = ts[before[i] as int];
                    assert(t.tile_y < ts[k as int].tile_y || (t.tile_y == ts[k as int].tile_y && t.tile_x
                        <= ts[k as int].tile_x));
                } else if i < pos {
                    assert(order@[i] == before[i] && order@[j] == before[j - 1]);
                } else if i == pos {
                    assert(order@[j] == before[j - 1]);
                    let t = ts[before[pos as int] as int];
                    assert(!(t.tile_y < ts[k as int].tile_y || (t.tile_y == ts[k as int].tile_y && t.tile_x
                        <= ts[k as int].tile_x)));
                    if j - 1 > pos {
                        assert(works_before(ts, before[pos as int] as int, before[j - 1] as int));
                    }
                } else {
                    assert(order@[i] == before[i - 1] && order@[j] == before[j - 1]);
                }
            }
            assert forall|m: int| 0 <= m < k + 1 implies #[trigger] in_order(order@, m) by {
                if m == k {
                    assert(order@[pos as int] == k);
                } else {
                    assert(in_order(before, m));
                    let i = choose|i: int| 0 <= i < before.len() && before[i] == m;
                    if i < pos {
                        assert(order@[i] == m);
                    } else {
                        assert(order@[i + 1] == m);
                    }
                }
            }
        }
        k = k + 1;
    }
    order
}

} // verus!
