//! Item slots held by placed structures (chests, furnaces, drills, inserters)
//! and the rules for putting items in and taking them out.
use vstd::prelude::*;
use crate::inventory::{ItemId, ITEM_COAL, ITEM_NONE};
use crate::gameplay::{essence_output_for_input, essence_spec, is_essence_item, is_essence_spec};
use crate::world::ObjectId;

verus! {

pub const CHEST_SLOT_COUNT: usize = 16;

pub const INSERTER_SLOT_COUNT: usize = 4;

/// A stack of one item kind.
#[derive(Debug, Copy, Clone, PartialEq, Eq, Structural)]
pub struct Slot {
    pub item: ItemId,
    pub count: u32,
}

/// The slot with nothing in it.
pub open spec fn empty_slot() -> Slot {
    Slot { item: ITEM_NONE, count: 0 }
}

impl Slot {
    /// A slot holds nothing when it names no item or counts zero.
    pub open spec fn empty_spec(self) -> bool {
        self.item == ITEM_NONE || self.count == 0
    }

    pub fn is_empty(&self) -> (b: bool)
        ensures
            b == self.empty_spec(),
    {
        self.item == ITEM_NONE || self.count == 0
    }

    pub fn clear(&mut self)
        ensures
            *final(self) == empty_slot(),
    {
        self.item = ITEM_NONE;
        self.count = 0;
    }
}

impl Default for Slot {
    fn default() -> (s: Self)
        ensures
            s == empty_slot(),
    {
        Slot { item: ITEM_NONE, count: 0 }
    }
}


/// The sixteen slots of a chest.
#[derive(Debug, Copy, Clone, PartialEq, Eq)]
pub struct ContainerInv {
    pub slots: [Slot; 16],
}

impl Default for ContainerInv {
    fn default() -> (inv: Self)
        ensures
            forall|i: int| 0 <= i < 16 ==> #[trigger] inv.slots@[i] == empty_slot(),
    {
        let e = Slot { item: ITEM_NONE, count: 0 };
        ContainerInv { slots: [e, e, e, e, e, e, e, e, e, e, e, e, e, e, e, e] }
    }
}

/// The small internal buffer of an inserter.
#[derive(Debug, Copy, Clone, PartialEq, Eq)]
pub struct InserterInv {
    pub slots: [Slot; 4],
}

impl Default for InserterInv {
    fn default() -> (inv: Self)
        ensures
            forall|i: int| 0 <= i < 4 ==> #[trigger] inv.slots@[i] == empty_slot(),
    {
        let e = Slot { item: ITEM_NONE, count: 0 };
        InserterInv { slots: [e, e, e, e] }
    }
}

/// The way an inserter faces; it moves items from behind it to in front of it.
#[derive(Debug, Copy, Clone, PartialEq, Eq, Structural)]
pub enum InserterDirection {
    Up,
    Right,
    Down,
    Left,
}

impl Default for InserterDirection {
    fn default() -> (d: Self)
        ensures
            d == InserterDirection::Right,
    {
        InserterDirection::Right
    }
}

impl InserterDirection {
    pub open spec fn clockwise_spec(self) -> InserterDirection {
        match self {
            InserterDirection::Up => InserterDirection::Right,
            InserterDirection::Right => InserterDirection::Down,
            InserterDirection::Down => InserterDirection::Left,
            InserterDirection::Left => InserterDirection::Up,
        }
    }

    pub open spec fn forward_spec(self) -> (int, int) {
        match self {
            InserterDirection::Up => (0, 1),
            InserterDirection::Right => (1, 0),
            InserterDirection::Down => (0, -1),
            InserterDirection::Left => (-1, 0),
        }
    }

    pub open spec fn code_spec(self) -> u8 {
        match self {
            InserterDirection::Up => 0,
            InserterDirection::Right => 1,
            InserterDirection::Down => 2,
            InserterDirection::Left => 3,
        }
    }

    pub open spec fn from_code_spec(value: u8) -> Option<InserterDirection> {
        if value == 0 {
            Some(InserterDirection::Up)
        } else if value == 1 {
            Some(InserterDirection::Right)
        } else if value == 2 {
            Some(InserterDirection::Down)
        } else if value == 3 {
            Some(InserterDirection::Left)
        } else {
            None
        }
    }

    pub fn next_clockwise(self) -> (d: Self)
        ensures
            d == self.clockwise_spec(),
    {
        match self {
            InserterDirection::Up => InserterDirection::Right,
            InserterDirection::Right => InserterDirection::Down,
            InserterDirection::Down => InserterDirection::Left,
            InserterDirection::Left => InserterDirection::Up,
        }
    }

    pub fn forward_offset(self) -> (o: (i32, i32))
        ensures
            o.0 == self.forward_spec().0,
            o.1 == self.forward_spec().1,
    {
        match self {
            InserterDirection::Up => (0, 1),
            InserterDirection::Right => (1, 0),
            InserterDirection::Down => (0, -1),
            InserterDirection::Left => (-1, 0),
        }
    }

    pub fn back_offset(self) -> (o: (i32, i32))
        ensures
            o.0 == -self.forward_spec().0,
            o.1 == -self.forward_spec().1,
    {
        let (dx, dy) = self.forward_offset();
        (-dx, -dy)
    }

    pub fn to_u8(self) -> (v: u8)
        ensures
            v == self.code_spec(),
    {
        match self {
            InserterDirection::Up => 0,
            InserterDirection::Right => 1,
            InserterDirection::Down => 2,
            InserterDirection::Left => 3,
        }
    }

    pub fn from_u8(value: u8) -> (d: Option<Self>)
        ensures
            d == Self::from_code_spec(value),
    {
        match value {
            0 => Some(InserterDirection::Up),
            1 => Some(InserterDirection::Right),
            2 => Some(InserterDirection::Down),
            3 => Some(InserterDirection::Left),
            _ => None,
        }
    }

    pub fn label(self) -> (s: &'static str)
        ensures
            self == InserterDirection::Up ==> s@ == "Up"@,
            self == InserterDirection::Right ==> s@ == "Right"@,
            self == InserterDirection::Down ==> s@ == "Down"@,
            self == InserterDirection::Left ==> s@ == "Left"@,
    {
        match self {
            InserterDirection::Up => "Up",
            InserterDirection::Right => "Right",
            InserterDirection::Down => "Down",
            InserterDirection::Left => "Left",
        }
    }

    pub fn arrow(self) -> (s: &'static str)
        ensures
            self == InserterDirection::Up ==> s@ == "^"@,
            self == InserterDirection::Right ==> s@ == ">"@,
            self == InserterDirection::Down ==> s@ == "v"@,
            self == InserterDirection::Left ==> s@ == "<"@,
    {
        match self {
            InserterDirection::Up => "^",
            InserterDirection::Right => ">",
            InserterDirection::Down => "v",
            InserterDirection::Left => "<",
        }
    }
}

/// Turning clockwise four times faces the inserter the way it started.
pub proof fn lemma_four_turns_return(d: InserterDirection)
    ensures
        d.clockwise_spec().clockwise_spec().clockwise_spec().clockwise_spec() == d,
{
}

/// The byte code of a direction reads back as the same direction, and
/// exactly the bytes below four name a direction.
pub proof fn lemma_direction_code_round_trip(d: InserterDirection, v: u8)
    ensures
        InserterDirection::from_code_spec(d.code_spec()) == Some(d),
        InserterDirection::from_code_spec(v) is Some <==> v < 4,
        InserterDirection::from_code_spec(v) matches Some(e) ==> e.code_spec() == v,
{
}


/// The three slots of a furnace and its smelting progress.
#[derive(Debug, Copy, Clone, PartialEq, Eq)]
pub struct FurnaceState {
    pub input: Slot,
    pub fuel: Slot,
    pub output: Slot,
    pub progress: u16,
}

impl Default for FurnaceState {
    fn default() -> (f: Self)
        ensures
            f.input == empty_slot(),
            f.fuel == empty_slot(),
            f.output == empty_slot(),
            f.progress == 0,
    {
        FurnaceState {
            input: Slot { item: ITEM_NONE, count: 0 },
            fuel: Slot { item: ITEM_NONE, count: 0 },
            output: Slot { item: ITEM_NONE, count: 0 },
            progress: 0,
        }
    }
}

#[derive(Debug, Copy, Clone, PartialEq, Eq)]
pub struct ChestRecord {
    pub object_id: ObjectId,
    pub inv: ContainerInv,
}

#[derive(Debug, Copy, Clone, PartialEq, Eq)]
pub struct FurnaceRecord {
    pub object_id: ObjectId,
    pub state: FurnaceState,
}

/// The fuel and output slots of a mining drill and its progress.
#[derive(Debug, Copy, Clone, PartialEq, Eq)]
pub struct DrillState {
    pub fuel: Slot,
    pub output: Slot,
    pub progress: u16,
}

impl Default for DrillState {
    fn default() -> (d: Self)
        ensures
            d.fuel == empty_slot(),
            d.output == empty_slot(),
            d.progress == 0,
    {
        DrillState {
            fuel: Slot { item: ITEM_NONE, count: 0 },
            output: Slot { item: ITEM_NONE, count: 0 },
            progress: 0,
        }
    }
}

#[derive(Debug, Copy, Clone, PartialEq, Eq)]
pub struct DrillRecord {
    pub object_id: ObjectId,
    pub state: DrillState,
}

#[derive(Debug, Copy, Clone, PartialEq, Eq)]
pub struct InserterRecord {
    pub object_id: ObjectId,
    pub direction: InserterDirection,
    pub inv: InserterInv,
}

#[derive(Debug, Copy, Clone, PartialEq, Eq)]
pub enum FurnaceSlot {
    Input,
    Fuel,
    Output,
}

#[derive(Debug, Copy, Clone, PartialEq, Eq)]
pub enum DrillSlot {
    Fuel,
    Output,
}

/// `i` is the first position of `id` in `ids`.
pub open spec fn is_first_with(ids: Seq<ObjectId>, id: ObjectId, i: int) -> bool {
    &&& 0 <= i < ids.len()
    &&& ids[i] == id
    &&& forall|j: int| 0 <= j < i ==> ids[j] != id
}

/// The first position of `id` in `ids`, if it occurs.
pub open spec fn first_with(ids: Seq<ObjectId>, id: ObjectId) -> Option<int> {
    if exists|i: int| is_first_with(ids, id, i) {
        Some(choose|i: int| is_first_with(ids, id, i))
    } else {
        None
    }
}

pub proof fn lemma_first_with_found(ids: Seq<ObjectId>, id: ObjectId, i: int)
    requires
        is_first_with(ids, id, i),
    ensures
        first_with(ids, id) == Some(i),
{
    let c = choose|k: int| is_first_with(ids, id, k);
    assert(is_first_with(ids, id, c));
    if c < i {
        assert(ids[c] != id);
    } else if i < c {
        assert(ids[i] != id);
    }
}

proof fn lemma_occurrence_has_first(ids: Seq<ObjectId>, id: ObjectId, j: int)
    requires
        0 <= j < ids.len(),
        ids[j] == id,
    ensures
        exists|i: int| is_first_with(ids, id, i),
    decreases j,
{
    if exists|k: int| 0 <= k < j && ids[k] == id {
        let k = choose|k: int| 0 <= k < j && ids[k] == id;
        lemma_occurrence_has_first(ids, id, k);
    } else {
        assert(is_first_with(ids, id, j));
    }
}

/// An id with no first position does not occur at all.
pub proof fn lemma_first_with_none(ids: Seq<ObjectId>, id: ObjectId)
    requires
        first_with(ids, id) is None,
    ensures
        forall|j: int| 0 <= j < ids.len() ==> ids[j] != id,
{
    assert forall|j: int| 0 <= j < ids.len() implies ids[j] != id by {
        if ids[j] == id {
            lemma_occurrence_has_first(ids, id, j);
        }
    }
}

pub proof fn lemma_first_with_absent(ids: Seq<ObjectId>, id: ObjectId)
    requires
        forall|j: int| 0 <= j < ids.len() ==> ids[j] != id,
    ensures
        first_with(ids, id) is None,
{
}

pub open spec fn chest_ids(s: Seq<ChestRecord>) -> Seq<ObjectId> {
    s.map_values(|c: ChestRecord| c.object_id)
}

pub open spec fn furnace_ids(s: Seq<FurnaceRecord>) -> Seq<ObjectId> {
    s.map_values(|c: FurnaceRecord| c.object_id)
}

pub open spec fn drill_ids(s: Seq<DrillRecord>) -> Seq<ObjectId> {
    s.map_values(|c: DrillRecord| c.object_id)
}

pub open spec fn inserter_ids(s: Seq<InserterRecord>) -> Seq<ObjectId> {
    s.map_values(|c: InserterRecord| c.object_id)
}

/// What taking up to `amount` from slot `s` leaves behind and hands out.
pub open spec fn take_spec(s: Slot, amount: u32) -> (Slot, Option<Slot>) {
    if amount == 0 || s.empty_spec() {
        (s, None)
    } else {
        let taken: u32 = if amount < s.count { amount } else { s.count };
        let left: u32 = (s.count - taken) as u32;
        (
            if left == 0 { empty_slot() } else { Slot { item: s.item, count: left } },
            Some(Slot { item: s.item, count: taken }),
        )
    }
}

/// `a + b`, capped at `u32::MAX`.
pub open spec fn sat_add_u32(a: u32, b: u32) -> u32 {
    if a + b > u32::MAX { u32::MAX } else { (a + b) as u32 }
}

/// A slot takes an item when it is empty or already holds that item.
pub open spec fn accepts(s: Slot, item: ItemId) -> bool {
    s.empty_spec() || s.item == item
}

/// What depositing `amount` of `item` into slot `s` leaves there, and how much moved.
pub open spec fn deposit_spec(s: Slot, item: ItemId, amount: u32) -> (Slot, u32) {
    if item == ITEM_NONE || amount == 0 {
        (s, 0)
    } else if s.empty_spec() {
        (Slot { item, count: amount }, amount)
    } else if s.item == item {
        (Slot { item, count: sat_add_u32(s.count, amount) }, amount)
    } else {
        (s, 0)
    }
}

/// Depositing into a row of slots fills the first slot that accepts the item.
pub open spec fn deposit_slots_rel(
    before: Seq<Slot>,
    after: Seq<Slot>,
    item: ItemId,
    amount: u32,
    moved: u32,
) -> bool {
    if item == ITEM_NONE || amount == 0 || forall|k: int|
        0 <= k < before.len() ==> !accepts(#[trigger] before[k], item) {
        after == before && moved == 0
    } else {
        &&& moved == amount
        &&& exists|k: int|
            {
                &&& 0 <= k < before.len()
                &&& accepts(#[trigger] before[k], item)
                &&& forall|j: int| 0 <= j < k ==> !accepts(#[trigger] before[j], item)
                &&& after == before.update(k, deposit_spec(before[k], item, amount).0)
            }
    }
}

/// Taking from a slot never creates items: what is handed out and what is
/// left add up to what was there, and both are of the slot's item.
pub proof fn lemma_take_conserves(s: Slot, amount: u32)
    ensures
        take_spec(s, amount).1 matches Some(t) ==> {
            &&& t.item == s.item
            &&& 0 < t.count <= amount
            &&& t.count + (if take_spec(s, amount).0.empty_spec() { 0 } else {
                take_spec(s, amount).0.count as int
            }) == s.count
        },
        take_spec(s, amount).1 is None ==> take_spec(s, amount).0 == s,
{
}

/// A deposit either moves the whole amount or changes nothing.
pub proof fn lemma_deposit_all_or_nothing(s: Slot, item: ItemId, amount: u32)
    ensures
        deposit_spec(s, item, amount).1 == amount || deposit_spec(s, item, amount).1 == 0,
        deposit_spec(s, item, amount).1 == 0 ==> deposit_spec(s, item, amount).0 == s,
        deposit_spec(s, item, amount).1 > 0 ==> deposit_spec(s, item, amount).0.item == item,
{
}

fn take_from_slot(slot: &mut Slot, amount: u32) -> (res: Option<Slot>)
    ensures
        (*final(slot), res) == take_spec(*old(slot), amount),
{
    if amount == 0 || slot.is_empty() {
        return None;
    }
    let taken = if amount < slot.count { amount } else { slot.count };
    if taken == 0 {
        return None;
    }
    slot.count = slot.count - taken;
    let item = slot.item;
    if slot.count == 0 {
        slot.clear();
    }
    Some(Slot { item, count: taken })
}

fn deposit_to_slot(slot: &mut Slot, item: ItemId, amount: u32) -> (moved: u32)
    ensures
        (*final(slot), moved) == deposit_spec(*old(slot), item, amount),
{
    if item == ITEM_NONE || amount == 0 {
        return 0;
    }
    if slot.is_empty() {
        slot.item = item;
        slot.count = amount;
        return amount;
    }
    if slot.item == item {
        slot.count = slot.count.saturating_add(amount);
        return amount;
    }
    0
}

/// Deposits into the first slot of `slots` that accepts the item.
fn deposit_to_slots<const N: usize>(slots: &mut [Slot; N], item: ItemId, amount: u32) -> (moved: u32)
    ensures
        deposit_slots_rel(old(slots)@, final(slots)@, item, amount, moved),
{
    let ghost before = slots@;
    if item == ITEM_NONE || amount == 0 {
        return 0;
    }
    let mut k: usize = 0;
    while k < N
        invariant
            0 <= k <= N,
            before.len() == N,
            slots@ == before,
            forall|j: int| 0 <= j < k ==> !accepts(#[trigger] before[j], item),
        ensures
            0 <= k <= N,
            slots@ == before,
            forall|j: int| 0 <= j < k ==> !accepts(#[trigger] before[j], item),
            k < N ==> accepts(before[k as int], item),
        decreases N - k,
    {
        if accepts_item(&slots[k], item) {
            break;
        }
        k = k + 1;
    }
    if k == N {
        assert(forall|q: int| 0 <= q < before.len() ==> !accepts(#[trigger] before[q], item));
        return 0;
    }
    let mut slot = slots[k];
    let moved = deposit_to_slot(&mut slot, item, amount);
    slots[k] = slot;
    proof {
        let kk = k as int;
        assert(accepts(before[kk], item));
        assert(slots@ == before.update(kk, deposit_spec(before[kk], item, amount).0));
    }
    moved
}

fn accepts_item(slot: &Slot, item: ItemId) -> (b: bool)
    ensures
        b == accepts(*slot, item),
{
    slot.is_empty() || slot.item == item
}

pub(crate) fn find_chest(chests: &[ChestRecord], object_id: ObjectId) -> (r: Option<usize>)
    ensures
        match r {
            Some(i) => first_with(chest_ids(chests@), object_id) == Some(i as int),
            None => first_with(chest_ids(chests@), object_id) is None,
        },
{
    let ghost ids = chest_ids(chests@);
    let mut i: usize = 0;
    while i < chests.len()
        invariant
            0 <= i <= chests@.len(),
            ids == chest_ids(chests@),
            forall|j: int| 0 <= j < i ==> ids[j] != object_id,
        decreases chests@.len() - i,
    {
        if chests[i].object_id == object_id {
            proof {
                lemma_first_with_found(ids, object_id, i as int);
            }
            return Some(i);
        }
        i = i + 1;
    }
    proof {
        lemma_first_with_absent(ids, object_id);
    }
    None
}

pub(crate) fn find_furnace(furnaces: &[FurnaceRecord], object_id: ObjectId) -> (r: Option<usize>)
    ensures
        match r {
            Some(i) => first_with(furnace_ids(furnaces@), object_id) == Some(i as int),
            None => first_with(furnace_ids(furnaces@), object_id) is None,
        },
{
    let ghost ids = furnace_ids(furnaces@);
    let mut i: usize = 0;
    while i < furnaces.len()
        invariant
            0 <= i <= furnaces@.len(),
            ids == furnace_ids(furnaces@),
            forall|j: int| 0 <= j < i ==> ids[j] != object_id,
        decreases furnaces@.len() - i,
    {
        if furnaces[i].object_id == object_id {
            proof {
                lemma_first_with_found(ids, object_id, i as int);
            }
            return Some(i);
        }
        i = i + 1;
    }
    proof {
        lemma_first_with_absent(ids, object_id);
    }
    None
}

pub(crate) fn find_drill(drills: &[DrillRecord], object_id: ObjectId) -> (r: Option<usize>)
    ensures
        match r {
            Some(i) => first_with(drill_ids(drills@), object_id) == Some(i as int),
            None => first_with(drill_ids(drills@), object_id) is None,
        },
{
    let ghost ids = drill_ids(drills@);
    let mut i: usize = 0;
    while i < drills.len()
        invariant
            0 <= i <= drills@.len(),
            ids == drill_ids(drills@),
            forall|j: int| 0 <= j < i ==> ids[j] != object_id,
        decreases drills@.len() - i,
    {
        if drills[i].object_id == object_id {
            proof {
                lemma_first_with_found(ids, object_id, i as int);
            }
            return Some(i);
        }
        i = i + 1;
    }
    proof {
        lemma_first_with_absent(ids, object_id);
    }
    None
}

pub(crate) fn find_inserter(inserters: &[InserterRecord], object_id: ObjectId) -> (r: Option<usize>)
    ensures
        match r {
            Some(i) => first_with(inserter_ids(inserters@), object_id) == Some(i as int),
            None => first_with(inserter_ids(inserters@), object_id) is None,
        },
{
    let ghost ids = inserter_ids(inserters@);
    let mut i: usize = 0;
    while i < inserters.len()
        invariant
            0 <= i <= inserters@.len(),
            ids == inserter_ids(inserters@),
            forall|j: int| 0 <= j < i ==> ids[j] != object_id,
        decreases inserters@.len() - i,
    {
        if inserters[i].object_id == object_id {
            proof {
                lemma_first_with_found(ids, object_id, i as int);
            }
            return Some(i);
        }
        i = i + 1;
    }
    proof {
        lemma_first_with_absent(ids, object_id);
    }
    None
}

/// Takes up to `amount` from slot `slot_idx` of the first chest with `object_id`.
pub fn take_from_chest(
    chests: &mut [ChestRecord],
    object_id: ObjectId,
    slot_idx: usize,
    amount: u32,
) -> (res: Option<Slot>)
    ensures
        match first_with(chest_ids(old(chests)@), object_id) {
            Some(c) => if slot_idx < 16 {
                let rec = old(chests)@[c];
                let (left, out) = take_spec(rec.inv.slots@[slot_idx as int], amount);
                &&& res == out
                &&& final(chests)@.len() == old(chests)@.len()
                &&& final(chests)@[c].object_id == rec.object_id
                &&& final(chests)@[c].inv.slots@ == rec.inv.slots@.update(slot_idx as int, left)
                &&& forall|j: int| 0 <= j < old(chests)@.len() && j != c
                    ==> final(chests)@[j] == old(chests)@[j]
            } else {
                res is None && final(chests)@ == old(chests)@
            },
            None => res is None && final(chests)@ == old(chests)@,
        },
{
    match find_chest(chests, object_id) {
        None => None,
        Some(i) => {
            if slot_idx >= 16 {
                return None;
            }
            let mut rec = chests[i];
            let mut slot = rec.inv.slots[slot_idx];
            let res = take_from_slot(&mut slot, amount);
            rec.inv.slots[slot_idx] = slot;
            chests[i] = rec;
            res
        },
    }
}


/// Deposits `amount` of `item` into the first chest with `object_id`,
/// filling its first slot that accepts the item.
pub fn deposit_to_chest(
    chests: &mut [ChestRecord],
    object_id: ObjectId,
    item: ItemId,
    amount: u32,
) -> (moved: u32)
    ensures
        match first_with(chest_ids(old(chests)@), object_id) {
            Some(c) => {
                let rec = old(chests)@[c];
                &&& final(chests)@.len() == old(chests)@.len()
                &&& final(chests)@[c].object_id == rec.object_id
                &&& deposit_slots_rel(rec.inv.slots@, final(chests)@[c].inv.slots@, item, amount, moved)
                &&& forall|j: int| 0 <= j < old(chests)@.len() && j != c
                    ==> final(chests)@[j] == old(chests)@[j]
            },
            None => moved == 0 && final(chests)@ == old(chests)@,
        },
{
    match find_chest(chests, object_id) {
        None => 0,
        Some(i) => {
            let mut rec = chests[i];
            let moved = deposit_to_slots(&mut rec.inv.slots, item, amount);
            chests[i] = rec;
            moved
        },
    }
}

/// The furnace slot that `kind` names.
pub open spec fn furnace_slot_spec(state: FurnaceState, kind: FurnaceSlot) -> Slot {
    match kind {
        FurnaceSlot::Input => state.input,
        FurnaceSlot::Fuel => state.fuel,
        FurnaceSlot::Output => state.output,
    }
}

/// `state` with the slot that `kind` names replaced by `s`.
pub open spec fn with_furnace_slot(state: FurnaceState, kind: FurnaceSlot, s: Slot) -> FurnaceState {
    match kind {
        FurnaceSlot::Input => FurnaceState { input: s, ..state },
        FurnaceSlot::Fuel => FurnaceState { fuel: s, ..state },
        FurnaceSlot::Output => FurnaceState { output: s, ..state },
    }
}

/// Takes up to `amount` from one slot of the first furnace with `object_id`.
pub fn take_from_furnace(
    furnaces: &mut [FurnaceRecord],
    object_id: ObjectId,
    slot_kind: FurnaceSlot,
    amount: u32,
) -> (res: Option<Slot>)
    ensures
        match first_with(furnace_ids(old(furnaces)@), object_id) {
            Some(c) => {
                let rec = old(furnaces)@[c];
                let (left, out) = take_spec(furnace_slot_spec(rec.state, slot_kind), amount);
                &&& res == out
                &&& final(furnaces)@ == old(furnaces)@.update(
                    c,
                    FurnaceRecord { object_id: rec.object_id, state: with_furnace_slot(rec.state, slot_kind, left) },
                )
            },
            None => res is None && final(furnaces)@ == old(furnaces)@,
        },
{
    match find_furnace(furnaces, object_id) {
        None => None,
        Some(i) => {
            let mut rec = furnaces[i];
            let res = match slot_kind {
                FurnaceSlot::Input => take_from_slot(&mut rec.state.input, amount),
                FurnaceSlot::Fuel => take_from_slot(&mut rec.state.fuel, amount),
                FurnaceSlot::Output => take_from_slot(&mut rec.state.output, amount),
            };
            furnaces[i] = rec;
            res
        },
    }
}

/// Deposits into the input slot of the first furnace with `object_id`.
pub fn deposit_to_furnace_input(
    furnaces: &mut [FurnaceRecord],
    object_id: ObjectId,
    item: ItemId,
    amount: u32,
) -> (moved: u32)
    ensures
        match first_with(furnace_ids(old(furnaces)@), object_id) {
            Some(c) => {
                let rec = old(furnaces)@[c];
                let (s, m) = deposit_spec(rec.state.input, item, amount);
                &&& moved == m
                &&& final(furnaces)@ == old(furnaces)@.update(
                    c,
                    FurnaceRecord { object_id: rec.object_id, state: FurnaceState { input: s, ..rec.state } },
                )
            },
            None => moved == 0 && final(furnaces)@ == old(furnaces)@,
        },
{
    match find_furnace(furnaces, object_id) {
        None => 0,
        Some(i) => {
            let mut rec = furnaces[i];
            let moved = deposit_to_slot(&mut rec.state.input, item, amount);
            furnaces[i] = rec;
            moved
        },
    }
}

/// Deposits into the fuel slot of the first furnace with `object_id`.
pub fn deposit_to_furnace_fuel(
    furnaces: &mut [FurnaceRecord],
    object_id: ObjectId,
    item: ItemId,
    amount: u32,
) -> (moved: u32)
    ensures
        match first_with(furnace_ids(old(furnaces)@), object_id) {
            Some(c) => {
                let rec = old(furnaces)@[c];
                let (s, m) = deposit_spec(rec.state.fuel, item, amount);
                &&& moved == m
                &&& final(furnaces)@ == old(furnaces)@.update(
                    c,
                    FurnaceRecord { object_id: rec.object_id, state: FurnaceState { fuel: s, ..rec.state } },
                )
            },
            None => moved == 0 && final(furnaces)@ == old(furnaces)@,
        },
{
    match find_furnace(furnaces, object_id) {
        None => 0,
        Some(i) => {
            let mut rec = furnaces[i];
            let moved = deposit_to_slot(&mut rec.state.fuel, item, amount);
            furnaces[i] = rec;
            moved
        },
    }
}

/// The drill slot that `kind` names.
pub open spec fn drill_slot_spec(state: DrillState, kind: DrillSlot) -> Slot {
    match kind {
        DrillSlot::Fuel => state.fuel,
        DrillSlot::Output => state.output,
    }
}

/// `state` with the slot that `kind` names replaced by `s`.
pub open spec fn with_drill_slot(state: DrillState, kind: DrillSlot, s: Slot) -> DrillState {
    match kind {
        DrillSlot::Fuel => DrillState { fuel: s, ..state },
        DrillSlot::Output => DrillState { output: s, ..state },
    }
}

/// Takes up to `amount` from one slot of the first drill with `object_id`.
pub fn take_from_drill(
    drills: &mut [DrillRecord],
    object_id: ObjectId,
    slot_kind: DrillSlot,
    amount: u32,
) -> (res: Option<Slot>)
    ensures
        match first_with(drill_ids(old(drills)@), object_id) {
            Some(c) => {
                let rec = old(drills)@[c];
                let (left, out) = take_spec(drill_slot_spec(rec.state, slot_kind), amount);
                &&& res == out
                &&& final(drills)@ == old(drills)@.update(
                    c,
                    DrillRecord { object_id: rec.object_id, state: with_drill_slot(rec.state, slot_kind, left) },
                )
            },
            None => res is None && final(drills)@ == old(drills)@,
        },
{
    match find_drill(drills, object_id) {
        None => None,
        Some(i) => {
            let mut rec = drills[i];
            let res = match slot_kind {
                DrillSlot::Fuel => take_from_slot(&mut rec.state.fuel, amount),
                DrillSlot::Output => take_from_slot(&mut rec.state.output, amount),
            };
            drills[i] = rec;
            res
        },
    }
}

/// Deposits fuel into the first drill with `object_id`; only coal is fuel.
pub fn deposit_to_drill_fuel(
    drills: &mut [DrillRecord],
    object_id: ObjectId,
    item: ItemId,
    amount: u32,
) -> (moved: u32)
    ensures
        item != ITEM_COAL ==> moved == 0 && final(drills)@ == old(drills)@,
        item == ITEM_COAL ==> match first_with(drill_ids(old(drills)@), object_id) {
            Some(c) => {
                let rec = old(drills)@[c];
                let (s, m) = deposit_spec(rec.state.fuel, item, amount);
                &&& moved == m
                &&& final(drills)@ == old(drills)@.update(
                    c,
                    DrillRecord { object_id: rec.object_id, state: DrillState { fuel: s, ..rec.state } },
                )
            },
            None => moved == 0 && final(drills)@ == old(drills)@,
        },
{
    if item != ITEM_COAL {
        return 0;
    }
    match find_drill(drills, object_id) {
        None => 0,
        Some(i) => {
            let mut rec = drills[i];
            let moved = deposit_to_slot(&mut rec.state.fuel, item, amount);
            drills[i] = rec;
            moved
        },
    }
}

/// Takes up to `amount` from slot `slot_idx` of the first inserter with `object_id`.
pub fn take_from_inserter(
    inserters: &mut [InserterRecord],
    object_id: ObjectId,
    slot_idx: usize,
    amount: u32,
) -> (res: Option<Slot>)
    ensures
        match first_with(inserter_ids(old(inserters)@), object_id) {
            Some(c) => if slot_idx < 4 {
                let rec = old(inserters)@[c];
                let (left, out) = take_spec(rec.inv.slots@[slot_idx as int], amount);
                &&& res == out
                &&& final(inserters)@.len() == old(inserters)@.len()
                &&& final(inserters)@[c].object_id == rec.object_id
                &&& final(inserters)@[c].direction == rec.direction
                &&& final(inserters)@[c].inv.slots@ == rec.inv.slots@.update(slot_idx as int, left)
                &&& forall|j: int| 0 <= j < old(inserters)@.len() && j != c
                    ==> final(inserters)@[j] == old(inserters)@[j]
            } else {
                res is None && final(inserters)@ == old(inserters)@
            },
            None => res is None && final(inserters)@ == old(inserters)@,
        },
{
    match find_inserter(inserters, object_id) {
        None => None,
        Some(i) => {
            if slot_idx >= 4 {
                return None;
            }
            let mut rec = inserters[i];
            let mut slot = rec.inv.slots[slot_idx];
            let res = take_from_slot(&mut slot, amount);
            rec.inv.slots[slot_idx] = slot;
            inserters[i] = rec;
            res
        },
    }
}

/// Deposits into the first buffer slot that accepts the item, of the first
/// inserter with `object_id`.
pub fn deposit_to_inserter(
    inserters: &mut [InserterRecord],
    object_id: ObjectId,
    item: ItemId,
    amount: u32,
) -> (moved: u32)
    ensures
        match first_with(inserter_ids(old(inserters)@), object_id) {
            Some(c) => {
                let rec = old(inserters)@[c];
                &&& final(inserters)@.len() == old(inserters)@.len()
                &&& final(inserters)@[c].object_id == rec.object_id
                &&& final(inserters)@[c].direction == rec.direction
                &&& deposit_slots_rel(rec.inv.slots@, final(inserters)@[c].inv.slots@, item, amount, moved)
                &&& forall|j: int| 0 <= j < old(inserters)@.len() && j != c
                    ==> final(inserters)@[j] == old(inserters)@[j]
            },
            None => moved == 0 && final(inserters)@ == old(inserters)@,
        },
{
    match find_inserter(inserters, object_id) {
        None => 0,
        Some(i) => {
            let mut rec = inserters[i];
            let moved = deposit_to_slots(&mut rec.inv.slots, item, amount);
            inserters[i] = rec;
            moved
        },
    }
}

/// An alembic's reagent slot, the essence it distils into, and its progress.
#[derive(Debug, Copy, Clone, PartialEq, Eq)]
pub struct AlembicState {
    pub input: Slot,
    pub output: Slot,
    pub progress: u16,
}

impl Default for AlembicState {
    fn default() -> (a: Self)
        ensures
            a.input == empty_slot(),
            a.output == empty_slot(),
            a.progress == 0,
    {
        AlembicState { input: Slot { item: ITEM_NONE, count: 0 }, output: Slot { item: ITEM_NONE, count: 0 }, progress: 0 }
    }
}

#[derive(Debug, Copy, Clone, PartialEq, Eq)]
pub struct AlembicRecord {
    pub object_id: ObjectId,
    pub state: AlembicState,
}

/// A crucible's four essence slots, what it transmutes them into, and its
/// progress.
#[derive(Debug, Copy, Clone, PartialEq, Eq)]
pub struct CrucibleState {
    pub inputs: [Slot; 4],
    pub output: Slot,
    pub progress: u16,
}

impl Default for CrucibleState {
    fn default() -> (c: Self)
        ensures
            forall|i: int| 0 <= i < 4 ==> c.inputs@[i] == empty_slot(),
            c.output == empty_slot(),
            c.progress == 0,
    {
        let e = Slot { item: ITEM_NONE, count: 0 };
        CrucibleState { inputs: [e, e, e, e], output: e, progress: 0 }
    }
}

#[derive(Debug, Copy, Clone, PartialEq, Eq)]
pub struct CrucibleRecord {
    pub object_id: ObjectId,
    pub state: CrucibleState,
}

pub open spec fn alembic_ids(s: Seq<AlembicRecord>) -> Seq<ObjectId> {
    s.map_values(|c: AlembicRecord| c.object_id)
}

pub open spec fn crucible_ids(s: Seq<CrucibleRecord>) -> Seq<ObjectId> {
    s.map_values(|c: CrucibleRecord| c.object_id)
}

pub(crate) fn find_alembic(alembics: &[AlembicRecord], object_id: ObjectId) -> (r: Option<usize>)
    ensures
        match r {
            Some(i) => first_with(alembic_ids(alembics@), object_id) == Some(i as int),
            None => first_with(alembic_ids(alembics@), object_id) is None,
        },
{
    let ghost ids = alembic_ids(alembics@);
    let mut i: usize = 0;
    while i < alembics.len()
        invariant
            0 <= i <= alembics@.len(),
            ids == alembic_ids(alembics@),
            forall|j: int| 0 <= j < i ==> ids[j] != object_id,
        decreases alembics@.len() - i,
    {
        if alembics[i].object_id == object_id {
            proof {
                lemma_first_with_found(ids, object_id, i as int);
            }
            return Some(i);
        }
        i = i + 1;
    }
    proof {
        lemma_first_with_absent(ids, object_id);
    }
    None
}

pub(crate) fn find_crucible(crucibles: &[CrucibleRecord], object_id: ObjectId) -> (r: Option<usize>)
    ensures
        match r {
            Some(i) => first_with(crucible_ids(crucibles@), object_id) == Some(i as int),
            None => first_with(crucible_ids(crucibles@), object_id) is None,
        },
{
    let ghost ids = crucible_ids(crucibles@);
    let mut i: usize = 0;
    while i < crucibles.len()
        invariant
            0 <= i <= crucibles@.len(),
            ids == crucible_ids(crucibles@),
            forall|j: int| 0 <= j < i ==> ids[j] != object_id,
        decreases crucibles@.len() - i,
    {
        if crucibles[i].object_id == object_id {
            proof {
                lemma_first_with_found(ids, object_id, i as int);
            }
            return Some(i);
        }
        i = i + 1;
    }
    proof {
        lemma_first_with_absent(ids, object_id);
    }
    None
}

/// Takes up to `amount` of the essence made by the first alembic with
/// `object_id`.
pub fn take_from_alembic_output(alembics: &mut [AlembicRecord], object_id: ObjectId, amount: u32) -> (res: Option<Slot>)
    ensures
        match first_with(alembic_ids(old(alembics)@), object_id) {
            Some(c) => {
                let rec = old(alembics)@[c];
                let (left, out) = take_spec(rec.state.output, amount);
                &&& res == out
                &&& final(alembics)@ == old(alembics)@.update(
                    c,
                    AlembicRecord { object_id: rec.object_id, state: AlembicState { output: left, ..rec.state } },
                )
            },
            None => res is None && final(alembics)@ == old(alembics)@,
        },
{
    match find_alembic(alembics, object_id) {
        None => None,
        Some(i) => {
            let mut rec = alembics[i];
            let res = take_from_slot(&mut rec.state.output, amount);
            alembics[i] = rec;
            res
        },
    }
}

/// Deposits a reagent into the first alembic with `object_id`; only what
/// distils into an essence goes in.
pub fn deposit_to_alembic_input(alembics: &mut [AlembicRecord], object_id: ObjectId, item: ItemId, amount: u32) -> (moved: u32)
    ensures
        essence_spec(item) is None ==> moved == 0 && final(alembics)@ == old(alembics)@,
        essence_spec(item) is Some ==> match first_with(alembic_ids(old(alembics)@), object_id) {
            Some(c) => {
                let rec = old(alembics)@[c];
                let (s, m) = deposit_spec(rec.state.input, item, amount);
                &&& moved == m
                &&& final(alembics)@ == old(alembics)@.update(
                    c,
                    AlembicRecord { object_id: rec.object_id, state: AlembicState { input: s, ..rec.state } },
                )
            },
            None => moved == 0 && final(alembics)@ == old(alembics)@,
        },
{
    if essence_output_for_input(item).is_none() {
        return 0;
    }
    match find_alembic(alembics, object_id) {
        None => 0,
        Some(i) => {
            let mut rec = alembics[i];
            let moved = deposit_to_slot(&mut rec.state.input, item, amount);
            alembics[i] = rec;
            moved
        },
    }
}

/// Takes up to `amount` of what the first crucible with `object_id` made.
pub fn take_from_crucible_output(crucibles: &mut [CrucibleRecord], object_id: ObjectId, amount: u32) -> (res: Option<Slot>)
    ensures
        match first_with(crucible_ids(old(crucibles)@), object_id) {
            Some(c) => {
                let rec = old(crucibles)@[c];
                let (left, out) = take_spec(rec.state.output, amount);
                &&& res == out
                &&& final(crucibles)@ == old(crucibles)@.update(
                    c,
                    CrucibleRecord { object_id: rec.object_id, state: CrucibleState { output: left, ..rec.state } },
                )
            },
            None => res is None && final(crucibles)@ == old(crucibles)@,
        },
{
    match find_crucible(crucibles, object_id) {
        None => None,
        Some(i) => {
            let mut rec = crucibles[i];
            let res = take_from_slot(&mut rec.state.output, amount);
            crucibles[i] = rec;
            res
        },
    }
}

/// Deposits an essence into the first essence slot that takes it, of the
/// first crucible with `object_id`; only essences go in.
pub fn deposit_to_crucible_input(crucibles: &mut [CrucibleRecord], object_id: ObjectId, item: ItemId, amount: u32) -> (moved: u32)
    ensures
        !is_essence_spec(item) ==> moved == 0 && final(crucibles)@ == old(crucibles)@,
        is_essence_spec(item) ==> match first_with(crucible_ids(old(crucibles)@), object_id) {
            Some(c) => {
                let rec = old(crucibles)@[c];
                &&& final(crucibles)@.len() == old(crucibles)@.len()
                &&& final(crucibles)@[c].object_id == rec.object_id
                &&& final(crucibles)@[c].state.output == rec.state.output
                &&& final(crucibles)@[c].state.progress == rec.state.progress
                &&& deposit_slots_rel(rec.state.inputs@, final(crucibles)@[c].state.inputs@, item, amount, moved)
                &&& forall|j: int| 0 <= j < old(crucibles)@.len() && j != c ==> final(crucibles)@[j] == old(crucibles)@[j]
            },
            None => moved == 0 && final(crucibles)@ == old(crucibles)@,
        },
{
    if !is_essence_item(item) {
        return 0;
    }
    match find_crucible(crucibles, object_id) {
        None => 0,
        Some(i) => {
            let mut rec = crucibles[i];
            let moved = deposit_to_slots(&mut rec.state.inputs, item, amount);
            crucibles[i] = rec;
            moved
        },
    }
}

} // verus!
