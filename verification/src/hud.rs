//! The panels that cover the screen and how keys and clicks switch them,
//! and the short texts of the heads-up display: counts, pickups, the mining
//! readout and the ore tooltip of the map.
use vstd::prelude::*;
use crate::containers::{FurnaceRecord, FurnaceSlot, InserterDirection, Slot};
use crate::controls::{HotbarState, PlacementState};
use crate::gameplay::{
    item_name, item_name_spec, placed_item_spec, placed_kind_to_item, resource_to_item, resource_to_item_spec,
};
use crate::inventory::{
    count_in, Inventory, ItemId, ITEM_ALEMBIC, ITEM_CHEST, ITEM_COAL, ITEM_CRUCIBLE, ITEM_COPPER_ORE, ITEM_COPPER_PLATE, ITEM_FURNACE,
    ITEM_INSERTER, ITEM_IRON_ORE, ITEM_IRON_PLATE, ITEM_MINING_DRILL, ITEM_NONE, ITEM_STONE,
};
use crate::map_view::{resource_display_name, resource_name_spec};
use crate::ore_nodes::{MapResourceCell, ResourceNodeSummary};
use crate::text::{decimal, push_decimal};
use crate::world::{
    ObjectId, PlacedCell, PlacedId, ResourceId, SimChunkData, PLACED_ALEMBIC, PLACED_CHEST, PLACED_CRUCIBLE, PLACED_FURNACE,
    PLACED_INSERTER, PLACED_MINING_DRILL, RES_NONE,
};

verus! {

/// The panel in front of the world, if any.
#[derive(Debug, Copy, Clone, PartialEq, Eq, Structural)]
pub enum UiMode {
    Closed,
    WorldMap,
    Crafting,
    Chest { object_id: ObjectId },
    Furnace { object_id: ObjectId },
    Inserter { object_id: ObjectId },
    MiningDrill { object_id: ObjectId },
    Alembic { object_id: ObjectId },
    Crucible { object_id: ObjectId },
}

impl Default for UiMode {
    fn default() -> (m: Self)
        ensures
            m == UiMode::Closed,
    {
        UiMode::Closed
    }
}

/// The panel a click on a placed structure opens: that of its machine, by
/// the structure's id; nothing for an empty tile or a structure without id.
pub open spec fn panel_for_spec(cell: PlacedCell) -> Option<UiMode> {
    if cell.object_id == 0 {
        None
    } else if cell.kind == PLACED_CHEST {
        Some(UiMode::Chest { object_id: cell.object_id })
    } else if cell.kind == PLACED_FURNACE {
        Some(UiMode::Furnace { object_id: cell.object_id })
    } else if cell.kind == PLACED_INSERTER {
        Some(UiMode::Inserter { object_id: cell.object_id })
    } else if cell.kind == PLACED_MINING_DRILL {
        Some(UiMode::MiningDrill { object_id: cell.object_id })
    } else if cell.kind == PLACED_ALEMBIC {
        Some(UiMode::Alembic { object_id: cell.object_id })
    } else if cell.kind == PLACED_CRUCIBLE {
        Some(UiMode::Crucible { object_id: cell.object_id })
    } else {
        None
    }
}

/// The panel a click on `cell` opens.
pub fn panel_for_cell(cell: PlacedCell) -> (m: Option<UiMode>)
    ensures
        m == panel_for_spec(cell),
{
    if cell.object_id == 0 {
        None
    } else if cell.kind == PLACED_CHEST {
        Some(UiMode::Chest { object_id: cell.object_id })
    } else if cell.kind == PLACED_FURNACE {
        Some(UiMode::Furnace { object_id: cell.object_id })
    } else if cell.kind == PLACED_INSERTER {
        Some(UiMode::Inserter { object_id: cell.object_id })
    } else if cell.kind == PLACED_MINING_DRILL {
        Some(UiMode::MiningDrill { object_id: cell.object_id })
    } else if cell.kind == PLACED_ALEMBIC {
        Some(UiMode::Alembic { object_id: cell.object_id })
    } else if cell.kind == PLACED_CRUCIBLE {
        Some(UiMode::Crucible { object_id: cell.object_id })
    } else {
        None
    }
}

/// The panel a click on the chunk-local tile `(local_x, local_y)` of a
/// loaded chunk opens; nothing where the chunk holds no placed cell there.
pub fn open_panel_in_chunk(data: &SimChunkData, local_x: i32, local_y: i32) -> (m: Option<UiMode>)
    requires
        0 <= local_x < 32,
        0 <= local_y < 32,
    ensures
        m == (if local_y * 32 + local_x < data.placed@.len() {
            panel_for_spec(data.placed@[local_y * 32 + local_x])
        } else {
            None
        }),
{
    let idx = (local_y as usize) * 32 + (local_x as usize);
    if idx < data.placed.len() {
        panel_for_cell(data.placed[idx])
    } else {
        None
    }
}

/// The crafting key opens crafting over the bare world and closes it again;
/// over any other panel it does nothing.
pub open spec fn craft_toggle_spec(mode: UiMode) -> UiMode {
    match mode {
        UiMode::Closed => UiMode::Crafting,
        UiMode::Crafting => UiMode::Closed,
        _ => mode,
    }
}

/// The mode after the crafting key.
pub fn craft_menu_toggled(mode: UiMode) -> (m: UiMode)
    ensures
        m == craft_toggle_spec(mode),
{
    match mode {
        UiMode::Closed => UiMode::Crafting,
        UiMode::Crafting => UiMode::Closed,
        _ => mode,
    }
}

/// The map key opens the full map over the bare world and closes it again;
/// over any other panel it does nothing.
pub open spec fn map_toggle_spec(mode: UiMode) -> UiMode {
    match mode {
        UiMode::Closed => UiMode::WorldMap,
        UiMode::WorldMap => UiMode::Closed,
        _ => mode,
    }
}

/// The mode after the map key.
pub fn map_toggled(mode: UiMode) -> (m: UiMode)
    ensures
        m == map_toggle_spec(mode),
{
    match mode {
        UiMode::Closed => UiMode::WorldMap,
        UiMode::WorldMap => UiMode::Closed,
        _ => mode,
    }
}

/// Pressing the crafting key twice leaves the panels as they were.
pub proof fn lemma_craft_toggle_twice(mode: UiMode)
    ensures
        craft_toggle_spec(craft_toggle_spec(mode)) == mode,
{
}

/// Pressing the map key twice leaves the panels as they were.
pub proof fn lemma_map_toggle_twice(mode: UiMode)
    ensures
        map_toggle_spec(map_toggle_spec(mode)) == mode,
{
}

/// Escape or a right click: an open panel closes; over the bare world the
/// structure chosen for placement and the chosen hotbar slot are dropped.
pub fn close_ui(mode: &mut UiMode, placement: &mut PlacementState, hotbar: &mut HotbarState)
    ensures
        *final(mode) == UiMode::Closed,
        *old(mode) == UiMode::Closed ==> {
            &&& final(placement).selected is None
            &&& final(placement).inserter_direction == old(placement).inserter_direction
            &&& final(hotbar).selected_slot is None
            &&& final(hotbar).slots == old(hotbar).slots
        },
        *old(mode) != UiMode::Closed ==> *final(placement) == *old(placement) && *final(hotbar) == *old(hotbar),
{
    if *mode == UiMode::Closed {
        placement.selected = None;
        hotbar.selected_slot = None;
    } else {
        *mode = UiMode::Closed;
    }
}

/// The minimap shows except while the full map is open.
pub fn minimap_visible(mode: UiMode) -> (b: bool)
    ensures
        b == (mode != UiMode::WorldMap),
{
    mode != UiMode::WorldMap
}

/// The caption of the crafting button.
pub fn craft_menu_label(mode: UiMode) -> (s: &'static str)
    ensures
        s@ == (if mode == UiMode::Crafting { "Close Crafting"@ } else { "Crafting"@ }),
{
    if mode == UiMode::Crafting {
        "Close Crafting"
    } else {
        "Crafting"
    }
}

/// The count under an item icon: blank for none.
pub fn item_count_label(count: u32) -> (s: String)
    ensures
        s@ == (if count == 0 { Seq::<char>::empty() } else { decimal(count as nat) }),
{
    let mut s = String::new();
    if count != 0 {
        push_decimal(&mut s, count as u64);
    }
    s
}

/// The name and arrow of an inserter direction.
pub open spec fn direction_text(d: InserterDirection) -> Seq<char> {
    match d {
        InserterDirection::Up => "Up ^"@,
        InserterDirection::Right => "Right >"@,
        InserterDirection::Down => "Down v"@,
        InserterDirection::Left => "Left <"@,
    }
}

/// The direction's name, a space and its arrow.
pub fn inserter_direction_label(direction: InserterDirection) -> (s: String)
    ensures
        s@ == direction_text(direction),
{
    let mut s = String::from_str(direction.label());
    s.append(" ");
    s.append(direction.arrow());
    proof {
        reveal_strlit("Up");
        reveal_strlit("Right");
        reveal_strlit("Down");
        reveal_strlit("Left");
        reveal_strlit("^");
        reveal_strlit(">");
        reveal_strlit("v");
        reveal_strlit("<");
        reveal_strlit(" ");
        reveal_strlit("Up ^");
        reveal_strlit("Right >");
        reveal_strlit("Down v");
        reveal_strlit("Left <");
    }
    assert(s@ =~= direction_text(direction));
    s
}

/// The line above the direction buttons, shown while an inserter is chosen
/// for placement.
pub fn placement_direction_text(placement: &PlacementState) -> (s: Option<String>)
    ensures
        placement.selected == Some(ITEM_INSERTER) ==> (s matches Some(t) && t@ == "Inserter output: "@
            + direction_text(placement.inserter_direction)),
        placement.selected != Some(ITEM_INSERTER) ==> s is None,
{
    if placement.selected == Some(ITEM_INSERTER) {
        let mut s = String::from_str("Inserter output: ");
        let d = inserter_direction_label(placement.inserter_direction);
        s.append(d.as_str());
        Some(s)
    } else {
        None
    }
}

/// What the player just picked up, and how many they now hold.
#[derive(Debug, Copy, Clone, PartialEq, Eq, Structural)]
pub struct PickupNotice {
    pub item: ItemId,
    pub amount: u32,
    pub total: u32,
}

/// The notice a mined ore of `kind` gives, read from the inventory after
/// the mine: one of the ore's item and how many are now held; none for ore
/// that gives no item.
pub fn pickup_notice_for_ore(kind: ResourceId, inventory: &Inventory) -> (r: Option<PickupNotice>)
    ensures
        r == match resource_to_item_spec(kind) {
            Some(item) => Some(PickupNotice { item, amount: 1, total: count_in(inventory@, item) }),
            None => None::<PickupNotice>,
        },
{
    match resource_to_item(kind) {
        Some(item) => Some(PickupNotice { item, amount: 1, total: inventory.count(item) }),
        None => None,
    }
}

/// `+<amount> <item> (<total>)`.
pub fn pickup_notice_label(notice: PickupNotice) -> (s: String)
    ensures
        s@ == "+"@ + decimal(notice.amount as nat) + " "@ + item_name_spec(notice.item) + " ("@ + decimal(
            notice.total as nat,
        ) + ")"@,
{
    let mut s = String::from_str("+");
    push_decimal(&mut s, notice.amount as u64);
    s.append(" ");
    s.append(item_name(notice.item));
    s.append(" (");
    push_decimal(&mut s, notice.total as u64);
    s.append(")");
    s
}

/// The chosen slot of a furnace, where there is a furnace.
pub fn furnace_slot(furnace: Option<&FurnaceRecord>, slot: FurnaceSlot) -> (r: Option<Slot>)
    ensures
        r == match furnace {
            None => None,
            Some(f) => Some(
                match slot {
                    FurnaceSlot::Input => f.state.input,
                    FurnaceSlot::Fuel => f.state.fuel,
                    FurnaceSlot::Output => f.state.output,
                },
            ),
        },
{
    match furnace {
        None => None,
        Some(f) => Some(
            match slot {
                FurnaceSlot::Input => f.state.input,
                FurnaceSlot::Fuel => f.state.fuel,
                FurnaceSlot::Output => f.state.output,
            },
        ),
    }
}

/// `<ore>: <total> left`, the map's tooltip over a deposit.
pub fn resource_tooltip_label(summary: ResourceNodeSummary) -> (s: String)
    ensures
        s@ == resource_name_spec(summary.kind) + ": "@ + decimal(summary.total as nat) + " left"@,
{
    let mut s = String::from_str(resource_display_name(summary.kind));
    s.append(": ");
    push_decimal(&mut s, summary.total as u64);
    s.append(" left");
    s
}

/// `Chunks: <loaded> | Dirty: <dirty> | Evict/s: <rate>`.
pub fn world_stats_label(loaded: u64, dirty: u64, evicted_per_second: u64) -> (s: String)
    ensures
        s@ == "Chunks: "@ + decimal(loaded as nat) + " | Dirty: "@ + decimal(dirty as nat) + " | Evict/s: "@
            + decimal(evicted_per_second as nat),
{
    let mut s = String::from_str("Chunks: ");
    push_decimal(&mut s, loaded);
    s.append(" | Dirty: ");
    push_decimal(&mut s, dirty);
    s.append(" | Evict/s: ");
    push_decimal(&mut s, evicted_per_second);
    s
}

/// The ore tile the mining readout follows, and the most ore seen on it
/// since the cursor came to it.
#[derive(Debug, Copy, Clone)]
pub struct MiningFeedbackState {
    pub tracked_tile: Option<(i32, i32)>,
    pub tracked_resource_kind: ResourceId,
    pub tracked_max_amount: u16,
}

impl Default for MiningFeedbackState {
    fn default() -> (s: Self)
        ensures
            s.tracked_tile is None,
            s.tracked_resource_kind == RES_NONE,
            s.tracked_max_amount == 0,
    {
        MiningFeedbackState { tracked_tile: None, tracked_resource_kind: RES_NONE, tracked_max_amount: 0 }
    }
}

/// The mining readout for a tile: what is mined, and how much is left of
/// the most seen there.
pub struct MiningReadout {
    pub instruction: String,
    pub details: String,
    pub max_amount: u16,
}

/// The readout state after the cursor rests on `target` (a tile and the ore
/// the map shows there) or on no ore at all.
pub open spec fn tracked_after(state: MiningFeedbackState, target: Option<(i32, i32, MapResourceCell)>) -> MiningFeedbackState {
    match target {
        None => MiningFeedbackState { tracked_tile: None, tracked_resource_kind: RES_NONE, tracked_max_amount: 0 },
        Some((x, y, cell)) => if state.tracked_tile != Some((x, y)) || state.tracked_resource_kind != cell.kind {
            MiningFeedbackState { tracked_tile: Some((x, y)), tracked_resource_kind: cell.kind, tracked_max_amount: cell.amount }
        } else {
            MiningFeedbackState {
                tracked_max_amount: if cell.amount > state.tracked_max_amount { cell.amount } else { state.tracked_max_amount },
                ..state
            }
        },
    }
}

/// Follows the ore under the cursor: a new tile or ore starts over from the
/// amount seen now, the same one keeps the largest amount seen. Gives the
/// texts to show (`Mining <ore>` and `<ore> left: <amount>/<most>`, the most
/// being at least one) and that most, or nothing where there is no ore.
pub fn track_mining_target(state: &mut MiningFeedbackState, target: Option<(i32, i32, MapResourceCell)>) -> (r: Option<MiningReadout>)
    ensures
        *final(state) == tracked_after(*old(state), target),
        match target {
            None => r is None,
            Some((x, y, cell)) => r matches Some(o) && {
                let most = if final(state).tracked_max_amount > 0 { final(state).tracked_max_amount } else { 1u16 };
                &&& o.max_amount == most
                &&& o.instruction@ == "Mining "@ + resource_name_spec(cell.kind)
                &&& o.details@ == resource_name_spec(cell.kind) + " left: "@ + decimal(cell.amount as nat) + "/"@
                    + decimal(most as nat)
            },
        },
{
    match target {
        None => {
            state.tracked_tile = None;
            state.tracked_resource_kind = RES_NONE;
            state.tracked_max_amount = 0;
            None
        },
        Some((x, y, cell)) => {
            let same_tile = match state.tracked_tile {
                Some((tx, ty)) => tx == x && ty == y,
                None => false,
            };
            if !same_tile || state.tracked_resource_kind != cell.kind {
                state.tracked_tile = Some((x, y));
                state.tracked_resource_kind = cell.kind;
                state.tracked_max_amount = cell.amount;
            } else if cell.amount > state.tracked_max_amount {
                state.tracked_max_amount = cell.amount;
            }
            let most = if state.tracked_max_amount > 0 { state.tracked_max_amount } else { 1 };
            let name = resource_display_name(cell.kind);
            let mut instruction = String::from_str("Mining ");
            instruction.append(name);
            let mut details = String::from_str(name);
            details.append(" left: ");
            push_decimal(&mut details, cell.amount as u64);
            details.append("/");
            push_decimal(&mut details, most as u64);
            Some(MiningReadout { instruction, details, max_amount: most })
        },
    }
}

/// `Picking up <item>` while a structure is held down, by the item the
/// structure gives back.
pub fn pickup_progress_label(kind: PlacedId) -> (s: String)
    ensures
        s@ == "Picking up "@ + item_name_spec(
            match placed_item_spec(kind) {
                Some(item) => item,
                None => ITEM_NONE,
            },
        ),
{
    let item = match placed_kind_to_item(kind) {
        Some(item) => item,
        None => ITEM_NONE,
    };
    let mut s = String::from_str("Picking up ");
    s.append(item_name(item));
    s
}

/// The keys pressed this frame that choose, turn or drop the structure to
/// place: F, C, I, D, L and X choose a furnace, chest, inserter, drill,
/// alembic or crucible, R turns an inserter, Escape drops the choice.
#[derive(Debug, Copy, Clone)]
pub struct PlacementKeys {
    pub furnace: bool,
    pub chest: bool,
    pub inserter: bool,
    pub drill: bool,
    pub alembic: bool,
    pub crucible: bool,
    pub rotate: bool,
    pub escape: bool,
}

/// The structure the choosing keys ask for: the last, in the order F, C,
/// I, D, L, X, whose key is pressed and which the player holds.
pub open spec fn key_choice(keys: PlacementKeys, inv: Seq<(ItemId, u32)>) -> Option<ItemId> {
    let held = |pressed: bool, item: ItemId| pressed && count_in(inv, item) > 0;
    if held(keys.crucible, ITEM_CRUCIBLE) {
        Some(ITEM_CRUCIBLE)
    } else if held(keys.alembic, ITEM_ALEMBIC) {
        Some(ITEM_ALEMBIC)
    } else if held(keys.drill, ITEM_MINING_DRILL) {
        Some(ITEM_MINING_DRILL)
    } else if held(keys.inserter, ITEM_INSERTER) {
        Some(ITEM_INSERTER)
    } else if held(keys.chest, ITEM_CHEST) {
        Some(ITEM_CHEST)
    } else if held(keys.furnace, ITEM_FURNACE) {
        Some(ITEM_FURNACE)
    } else {
        None
    }
}

/// The placement after this frame's keys, over the bare world only: a
/// choosing key replaces the choice (see `key_choice`), R then turns a chosen
/// inserter clockwise, and Escape drops the choice.
pub open spec fn placement_after_keys(mode: UiMode, keys: PlacementKeys, inv: Seq<(ItemId, u32)>, p: PlacementState) -> PlacementState {
    let chosen = match key_choice(keys, inv) {
        Some(item) => Some(item),
        None => p.selected,
    };
    if mode != UiMode::Closed {
        p
    } else {
        PlacementState {
            selected: if keys.escape { None } else { chosen },
            inserter_direction: if keys.rotate && chosen == Some(ITEM_INSERTER) {
                p.inserter_direction.clockwise_spec()
            } else {
                p.inserter_direction
            },
        }
    }
}

/// Applies this frame's placement keys, read in the order F, C, I, D, L, X.
pub fn apply_placement_keys(mode: UiMode, keys: PlacementKeys, inventory: &Inventory, placement: &mut PlacementState)
    ensures
        *final(placement) == placement_after_keys(mode, keys, inventory@, *old(placement)),
{
    if mode != UiMode::Closed {
        return;
    }
    if keys.furnace && inventory.count(ITEM_FURNACE) > 0 {
        placement.selected = Some(ITEM_FURNACE);
    }
    if keys.chest && inventory.count(ITEM_CHEST) > 0 {
        placement.selected = Some(ITEM_CHEST);
    }
    if keys.inserter && inventory.count(ITEM_INSERTER) > 0 {
        placement.selected = Some(ITEM_INSERTER);
    }
    if keys.drill && inventory.count(ITEM_MINING_DRILL) > 0 {
        placement.selected = Some(ITEM_MINING_DRILL);
    }
    if keys.alembic && inventory.count(ITEM_ALEMBIC) > 0 {
        placement.selected = Some(ITEM_ALEMBIC);
    }
    if keys.crucible && inventory.count(ITEM_CRUCIBLE) > 0 {
        placement.selected = Some(ITEM_CRUCIBLE);
    }
    if keys.rotate && placement.selected == Some(ITEM_INSERTER) {
        placement.inserter_direction = placement.inserter_direction.next_clockwise();
    }
    if keys.escape {
        placement.selected = None;
    }
}

/// The inventory line of the HUD: ores, fuel and stone, then plates and
/// the first structures.
pub open spec fn inventory_summary_spec(inv: Seq<(ItemId, u32)>) -> Seq<char> {
    "Inventory: Iron Ore "@ + decimal(count_in(inv, ITEM_IRON_ORE) as nat) + " | Copper Ore "@ + decimal(
        count_in(inv, ITEM_COPPER_ORE) as nat,
    ) + " | Coal "@ + decimal(count_in(inv, ITEM_COAL) as nat) + " | Stone "@ + decimal(
        count_in(inv, ITEM_STONE) as nat,
    ) + "\nPlates: Iron "@ + decimal(count_in(inv, ITEM_IRON_PLATE) as nat) + " | Copper "@ + decimal(
        count_in(inv, ITEM_COPPER_PLATE) as nat,
    ) + " | Furnace "@ + decimal(count_in(inv, ITEM_FURNACE) as nat) + " | Chest "@ + decimal(
        count_in(inv, ITEM_CHEST) as nat,
    )
}

/// The inventory line of the HUD.
pub fn inventory_summary_label(inv: &Inventory) -> (s: String)
    ensures
        s@ == inventory_summary_spec(inv@),
{
    let mut s = String::from_str("Inventory: Iron Ore ");
    push_decimal(&mut s, inv.count(ITEM_IRON_ORE) as u64);
    s.append(" | Copper Ore ");
    push_decimal(&mut s, inv.count(ITEM_COPPER_ORE) as u64);
    s.append(" | Coal ");
    push_decimal(&mut s, inv.count(ITEM_COAL) as u64);
    s.append(" | Stone ");
    push_decimal(&mut s, inv.count(ITEM_STONE) as u64);
    s.append("\nPlates: Iron ");
    push_decimal(&mut s, inv.count(ITEM_IRON_PLATE) as u64);
    s.append(" | Copper ");
    push_decimal(&mut s, inv.count(ITEM_COPPER_PLATE) as u64);
    s.append(" | Furnace ");
    push_decimal(&mut s, inv.count(ITEM_FURNACE) as u64);
    s.append(" | Chest ");
    push_decimal(&mut s, inv.count(ITEM_CHEST) as u64);
    s
}

/// The placement line of the HUD. A chosen structure the player no longer
/// holds is dropped first; then the line names the choice and how many are
/// held, or says there is none.
pub fn placement_label(inventory: &Inventory, placement: &mut PlacementState) -> (s: String)
    ensures
        final(placement).inserter_direction == old(placement).inserter_direction,
        final(placement).selected == match old(placement).selected {
            Some(item) => if count_in(inventory@, item) == 0 { None } else { Some(item) },
            None => None,
        },
        s@ == match final(placement).selected {
            Some(item) => "Place: "@ + item_name_spec(item) + " x"@ + decimal(count_in(inventory@, item) as nat)
                + " (F furnace, C chest, Esc clear)"@,
            None => "Place: None (F furnace, C chest, Esc clear)"@,
        },
{
    if let Some(item) = placement.selected {
        if inventory.count(item) == 0 {
            placement.selected = None;
        }
    }
    match placement.selected {
        Some(item) => {
            let mut s = String::from_str("Place: ");
            s.append(item_name(item));
            s.append(" x");
            push_decimal(&mut s, inventory.count(item) as u64);
            s.append(" (F furnace, C chest, Esc clear)");
            s
        },
        None => String::from_str("Place: None (F furnace, C chest, Esc clear)"),
    }
}

} // verus!
