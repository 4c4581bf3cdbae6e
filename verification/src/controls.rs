//! Player-facing state that is not the world itself: the hotbar and the
//! structure chosen for placement, the storage health shown in the corner,
//! and the text of item and recipe details.
use vstd::prelude::*;
use crate::errors::{describe_spec, StorageError};
use crate::gameplay::{is_placeable_item, item_name, item_name_spec, placed_kind_spec, Recipe};
use crate::inventory::{
    count_in, Inventory, ItemId, ITEM_ALEMBIC, ITEM_CHEST, ITEM_CRUCIBLE, ITEM_FURNACE, ITEM_INSERTER,
    ITEM_MINING_DRILL, ITEM_NONE,
};
use crate::text::{decimal, push_decimal};
use crate::types::RecoveryReport;
use crate::containers::InserterDirection;

verus! {

/// Slots in the hotbar.
pub const HOTBAR_SLOT_COUNT: usize = 10;

/// The items that can be placed as structures, in hotbar order.
pub open spec fn placeable_items_spec() -> Seq<ItemId> {
    seq![ITEM_FURNACE, ITEM_CHEST, ITEM_INSERTER, ITEM_MINING_DRILL, ITEM_ALEMBIC, ITEM_CRUCIBLE]
}

pub fn placeable_items() -> (items: [ItemId; 6])
    ensures
        items@ == placeable_items_spec(),
{
    let items: [ItemId; 6] = [ITEM_FURNACE, ITEM_CHEST, ITEM_INSERTER, ITEM_MINING_DRILL, ITEM_ALEMBIC, ITEM_CRUCIBLE];
    assert(items@ =~= placeable_items_spec());
    items
}

/// The hotbar: up to ten placeable items, and the slot chosen, if any.
#[derive(Debug, Clone, Copy)]
pub struct HotbarState {
    pub slots: [Option<ItemId>; 10],
    pub selected_slot: Option<usize>,
}

impl Default for HotbarState {
    fn default() -> (h: Self)
        ensures
            forall|i: int| 0 <= i < 10 ==> #[trigger] h.slots@[i] is None,
            h.selected_slot is None,
    {
        HotbarState { slots: [None; 10], selected_slot: None }
    }
}

/// `i` is the first empty slot.
pub open spec fn is_first_free(slots: Seq<Option<ItemId>>, i: int) -> bool {
    &&& 0 <= i < slots.len()
    &&& slots[i] is None
    &&& forall|j: int| 0 <= j < i ==> slots[j] is Some
}

/// The slots after offering `item` to the hotbar: a placeable item not yet
/// there goes into the first empty slot, if there is one.
pub open spec fn assigned(slots: Seq<Option<ItemId>>, item: ItemId) -> Seq<Option<ItemId>> {
    if item == ITEM_NONE || placed_kind_spec(item) is None || slots.contains(Some(item)) {
        slots
    } else if exists|i: int| is_first_free(slots, i) {
        slots.update(choose|i: int| is_first_free(slots, i), Some(item))
    } else {
        slots
    }
}

proof fn lemma_first_free_unique(slots: Seq<Option<ItemId>>, i: int)
    requires
        is_first_free(slots, i),
    ensures
        (choose|k: int| is_first_free(slots, k)) == i,
{
    let c = choose|k: int| is_first_free(slots, k);
    assert(is_first_free(slots, c));
    if c < i {
        assert(slots[c] is Some);
    } else if i < c {
        assert(slots[i] is Some);
    }
}

impl HotbarState {
    /// Puts a placeable item into the first empty slot unless the hotbar
    /// already has it.
    pub fn assign_item(&mut self, item: ItemId)
        ensures
            final(self).slots@ == assigned(old(self).slots@, item),
            final(self).selected_slot == old(self).selected_slot,
    {
        if item == ITEM_NONE || !is_placeable_item(item) {
            return;
        }
        let mut i: usize = 0;
        while i < 10
            invariant
                0 <= i <= 10,
                self.slots@ == old(self).slots@,
                self.selected_slot == old(self).selected_slot,
                forall|j: int| 0 <= j < i ==> self.slots@[j] != Some(item),
            decreases 10 - i,
        {
            if self.slots[i] == Some(item) {
                assert(self.slots@.contains(Some(item)));
                return;
            }
            i = i + 1;
        }
        assert(!self.slots@.contains(Some(item)));
        let mut k: usize = 0;
        while k < 10
            invariant
                0 <= k <= 10,
                self.slots@ == old(self).slots@,
                self.selected_slot == old(self).selected_slot,
                !self.slots@.contains(Some(item)),
                item != ITEM_NONE,
                placed_kind_spec(item) is Some,
                forall|j: int| 0 <= j < k ==> self.slots@[j] is Some,
            decreases 10 - k,
        {
            if self.slots[k].is_none() {
                let ghost before = self.slots@;
                proof {
                    assert(is_first_free(before, k as int));
                    lemma_first_free_unique(before, k as int);
                }
                self.slots[k] = Some(item);
                assert(self.slots@ =~= before.update(k as int, Some(item)));
                return;
            }
            k = k + 1;
        }
        assert(!exists|i: int| is_first_free(old(self).slots@, i));
    }
}

/// What the player has chosen to place, and which way inserters will face.
#[derive(Debug, Clone, Copy)]
pub struct PlacementState {
    pub selected: Option<ItemId>,
    pub inserter_direction: InserterDirection,
}

impl Default for PlacementState {
    fn default() -> (p: Self)
        ensures
            p.selected is None,
            p.inserter_direction == InserterDirection::Right,
    {
        PlacementState { selected: None, inserter_direction: InserterDirection::Right }
    }
}

/// The item in hotbar slot `index`, if the slot exists and holds one.
pub open spec fn hotbar_item(h: HotbarState, index: int) -> Option<ItemId> {
    if 0 <= index < 10 {
        h.slots@[index]
    } else {
        None
    }
}

/// Pressing hotbar slot `index`: a slot whose item is placeable and held is
/// chosen, or unchosen when it already was; anything else clears the choice.
pub fn select_hotbar_slot(index: usize, inventory: &Inventory, hotbar: &mut HotbarState, placement: &mut PlacementState)
    ensures
        final(hotbar).slots == old(hotbar).slots,
        final(placement).inserter_direction == old(placement).inserter_direction,
        match hotbar_item(*old(hotbar), index as int) {
            Some(item) if count_in(inventory@, item) > 0 && placed_kind_spec(item) is Some => if old(hotbar).selected_slot == Some(index) {
                final(hotbar).selected_slot is None && final(placement).selected is None
            } else {
                final(hotbar).selected_slot == Some(index) && final(placement).selected == Some(item)
            },
            _ => final(hotbar).selected_slot is None && final(placement).selected is None,
        },
{
    let item = if index < 10 {
        hotbar.slots[index]
    } else {
        None
    };
    let item = match item {
        Some(i) => i,
        None => {
            hotbar.selected_slot = None;
            placement.selected = None;
            return;
        },
    };
    if inventory.count(item) == 0 || !is_placeable_item(item) {
        hotbar.selected_slot = None;
        placement.selected = None;
        return;
    }
    if hotbar.selected_slot == Some(index) {
        hotbar.selected_slot = None;
        placement.selected = None;
    } else {
        hotbar.selected_slot = Some(index);
        placement.selected = Some(item);
    }
}

/// The slots after offering the first `n` placeable items the player holds.
pub open spec fn auto_assigned(slots: Seq<Option<ItemId>>, inv: Seq<(ItemId, u32)>, n: int) -> Seq<Option<ItemId>>
    decreases n,
{
    if n <= 0 {
        slots
    } else {
        let prev = auto_assigned(slots, inv, n - 1);
        let item = placeable_items_spec()[n - 1];
        if count_in(inv, item) > 0 {
            assigned(prev, item)
        } else {
            prev
        }
    }
}

/// Keeps the hotbar in step with the inventory: every placeable item held
/// gets a slot, and a chosen slot whose item is no longer held is unchosen.
pub fn refresh_hotbar(inventory: &Inventory, hotbar: &mut HotbarState, placement: &mut PlacementState)
    ensures
        final(hotbar).slots@ == auto_assigned(old(hotbar).slots@, inventory@, 6),
        final(placement).inserter_direction == old(placement).inserter_direction,
        ({
            let h = HotbarState { slots: final(hotbar).slots, selected_slot: old(hotbar).selected_slot };
            match old(hotbar).selected_slot {
                Some(slot) => match hotbar_item(h, slot as int) {
                    Some(item) if count_in(inventory@, item) > 0 && placed_kind_spec(item) is Some => final(hotbar).selected_slot == Some(slot) && final(placement).selected == Some(item),
                    _ => final(hotbar).selected_slot is None && final(placement).selected is None,
                },
                None => final(hotbar).selected_slot is None && final(placement).selected == old(placement).selected,
            }
        }),
{
    let items = placeable_items();
    let mut k: usize = 0;
    while k < 6
        invariant
            0 <= k <= 6,
            items@ == placeable_items_spec(),
            hotbar.slots@ == auto_assigned(old(hotbar).slots@, inventory@, k as int),
            hotbar.selected_slot == old(hotbar).selected_slot,
            *placement == *old(placement),
        decreases 6 - k,
    {
        let item = items[k];
        if inventory.count(item) > 0 {
            hotbar.assign_item(item);
        }
        k = k + 1;
    }
    match hotbar.selected_slot {
        Some(slot) => {
            let selected = if slot < 10 {
                hotbar.slots[slot]
            } else {
                None
            };
            match selected {
                Some(item) => {
                    if inventory.count(item) > 0 && is_placeable_item(item) {
                        placement.selected = Some(item);
                    } else {
                        hotbar.selected_slot = None;
                        placement.selected = None;
                    }
                },
                None => {
                    hotbar.selected_slot = None;
                    placement.selected = None;
                },
            }
        },
        None => {},
    }
}

/// How well saving is going.
#[derive(Debug, Clone, Copy, PartialEq, Eq, Structural)]
pub enum StorageState {
    Healthy,
    Degraded,
    Paused,
}

/// The storage health shown to the player, with an optional detail.
#[derive(Debug, Clone)]
pub struct StorageStatus {
    pub state: StorageState,
    pub detail: Option<String>,
}

/// The text of an optional detail.
pub open spec fn detail_view(d: Option<String>) -> Option<Seq<char>> {
    match d {
        Some(s) => Some(s@),
        None => None,
    }
}

impl Default for StorageStatus {
    fn default() -> (s: Self)
        ensures
            s.state == StorageState::Degraded,
            detail_view(s.detail) == Some("initializing"@),
    {
        StorageStatus { state: StorageState::Degraded, detail: Some(String::from_str("initializing")) }
    }
}

/// The name of a storage state.
pub open spec fn state_name(s: StorageState) -> Seq<char> {
    match s {
        StorageState::Healthy => "Healthy"@,
        StorageState::Degraded => "Degraded"@,
        StorageState::Paused => "Paused"@,
    }
}

impl StorageStatus {
    /// A successful storage operation clears an error, unless saving is paused.
    pub fn mark_ok(&mut self)
        ensures
            old(self).state == StorageState::Paused ==> final(self).state == old(self).state && detail_view(
                final(self).detail,
            ) == detail_view(old(self).detail),
            old(self).state != StorageState::Paused ==> final(self).state == StorageState::Healthy
                && final(self).detail is None,
    {
        if self.state != StorageState::Paused {
            self.state = StorageState::Healthy;
            self.detail = None;
        }
    }

    /// A failed storage operation: a full quota pauses saving, anything
    /// else degrades it with the error's description.
    pub fn record_error(&mut self, error: &StorageError)
        ensures
            (*error matches StorageError::QuotaExceeded) ==> final(self).state == StorageState::Paused && detail_view(
                final(self).detail,
            ) == Some("storage quota exceeded (autosave paused)"@),
            !(*error matches StorageError::QuotaExceeded) ==> final(self).state == StorageState::Degraded
                && detail_view(final(self).detail) == Some(describe_spec(*error)),
    {
        if let StorageError::QuotaExceeded = error {
            self.state = StorageState::Paused;
            self.detail = Some(String::from_str("storage quota exceeded (autosave paused)"));
            return;
        }
        self.detail = Some(error.describe());
        self.state = StorageState::Degraded;
    }

    /// `Storage: <state>`, followed by the detail in brackets when there is one.
    pub fn label(&self) -> (s: String)
        ensures
            s@ == match detail_view(self.detail) {
                Some(d) => "Storage: "@ + state_name(self.state) + " ("@ + d + ")"@,
                None => "Storage: "@ + state_name(self.state),
            },
    {
        let name = match self.state {
            StorageState::Healthy => "Healthy",
            StorageState::Degraded => "Degraded",
            StorageState::Paused => "Paused",
        };
        let mut s = String::from_str("Storage: ");
        s.append(name);
        match &self.detail {
            Some(d) => {
                s.append(" (");
                s.append(d.as_str());
                s.append(")");
            },
            None => {},
        }
        s
    }
}

/// Takes in what recovering a world found: no incomplete savepoints counts
/// as success; otherwise, unless saving is paused, storage is healthy and
/// the detail says how many savepoints were ignored.
pub fn apply_recovery_report(status: &mut StorageStatus, report: &RecoveryReport)
    ensures
        report.incomplete_savepoints@.len() == 0 ==> {
            &&& old(status).state == StorageState::Paused ==> final(status).state == old(status).state
                && detail_view(final(status).detail) == detail_view(old(status).detail)
            &&& old(status).state != StorageState::Paused ==> final(status).state == StorageState::Healthy
                && final(status).detail is None
        },
        report.incomplete_savepoints@.len() > 0 ==> if old(status).state == StorageState::Paused {
            final(status).state == old(status).state && detail_view(final(status).detail) == detail_view(
                old(status).detail,
            )
        } else {
            final(status).state == StorageState::Healthy && detail_view(final(status).detail) == Some(
                "ignored "@ + decimal(report.incomplete_savepoints@.len()) + " incomplete savepoints"@,
            )
        },
{
    let n = report.incomplete_savepoints.len();
    if n == 0 {
        status.mark_ok();
        return;
    }
    if status.state != StorageState::Paused {
        status.state = StorageState::Healthy;
        let mut s = String::from_str("ignored ");
        push_decimal(&mut s, n as u64);
        s.append(" incomplete savepoints");
        status.detail = Some(s);
    }
}

/// The details shown for an item: its name and how many the player holds.
pub fn item_detail_label(item: ItemId, inv: &Inventory) -> (s: String)
    ensures
        s@ == item_name_spec(item) + "\n\nIn inventory: "@ + decimal(count_in(inv@, item) as nat),
{
    let mut s = String::from_str(item_name(item));
    s.append("\n\nIn inventory: ");
    let c = inv.count(item);
    push_decimal(&mut s, c as u64);
    s
}

/// One line per recipe input: its name, how many are held, and how many
/// are needed.
pub open spec fn input_lines(inputs: Seq<(ItemId, u32)>, inv: Seq<(ItemId, u32)>) -> Seq<char>
    decreases inputs.len(),
{
    if inputs.len() == 0 {
        seq![]
    } else {
        let (item, needed) = inputs.last();
        input_lines(inputs.drop_last(), inv) + "\n"@ + item_name_spec(item) + " "@ + decimal(
            count_in(inv, item) as nat,
        ) + "/"@ + decimal(needed as nat)
    }
}

/// The details shown for a recipe: what it makes, then each input with the
/// amount held against the amount needed.
pub fn recipe_detail_label(recipe: &Recipe, inv: &Inventory) -> (s: String)
    ensures
        s@ == item_name_spec(recipe.output) + " x"@ + decimal(recipe.output_amount as nat) + "\n\nRequired:"@
            + input_lines(recipe.inputs@, inv@),
{
    let mut s = String::from_str(item_name(recipe.output));
    s.append(" x");
    push_decimal(&mut s, recipe.output_amount as u64);
    s.append("\n\nRequired:");
    let ghost head = s@;
    let mut i: usize = 0;
    assert(recipe.inputs@.take(0) =~= Seq::<(ItemId, u32)>::empty());
    assert(head + input_lines(Seq::<(ItemId, u32)>::empty(), inv@) =~= head);
    while i < recipe.inputs.len()
        invariant
            0 <= i <= recipe.inputs@.len(),
            s@ == head + input_lines(recipe.inputs@.take(i as int), inv@),
        decreases recipe.inputs@.len() - i,
    {
        let (item, needed) = recipe.inputs[i];
        let have = inv.count(item);
        s.append("\n");
        s.append(item_name(item));
        s.append(" ");
        push_decimal(&mut s, have as u64);
        s.append("/");
        push_decimal(&mut s, needed as u64);
        proof {
            let t = recipe.inputs@.take(i + 1);
            assert(t.drop_last() =~= recipe.inputs@.take(i as int));
            assert(t.last() == (item, needed));
            assert(s@ =~= head + input_lines(t, inv@));
        }
        i = i + 1;
    }
    proof {
        assert(recipe.inputs@.take(recipe.inputs@.len() as int) =~= recipe.inputs@);
    }
    s
}

} // verus!
