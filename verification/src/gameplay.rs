//! The item catalog: what ores yield, what smelts into what, what can be
//! placed, crafting recipes and crucible formulas.
use vstd::prelude::*;
use crate::containers::Slot;
use crate::generation::{mix64, mix64_spec, widen};
use crate::inventory::{
    acceptable_spec, add_result, count_in, remove_result, Inventory,
    ItemId, ITEM_ALEMBIC, ITEM_BRASS_CORE, ITEM_CHEST, ITEM_CINDER_GLASS, ITEM_COAL,
    ITEM_COPPER_ORE, ITEM_COPPER_PLATE, ITEM_CRUCIBLE, ITEM_CUPRIC_ESSENCE, ITEM_FERRIC_ESSENCE,
    ITEM_FURNACE, ITEM_INSERTER, ITEM_IRON_ORE, ITEM_IRON_PLATE, ITEM_LODESTONE,
    ITEM_MINERAL_ESSENCE, ITEM_MINING_DRILL, ITEM_NONE, ITEM_QUINTESSENCE, ITEM_STONE,
    ITEM_UMBRAL_ESSENCE,
};
use crate::world::{
    ObjectId, PlacedId, ResourceId, PLACED_ALEMBIC, PLACED_CHEST, PLACED_CRUCIBLE, PLACED_FURNACE,
    PLACED_INSERTER, PLACED_MINING_DRILL, RES_COAL, RES_COPPER, RES_IRON, RES_STONE,
};

verus! {

/// Progress a furnace accumulates per smelted item.
pub const FURNACE_PROGRESS_PER_ITEM: u16 = 1000;

/// Progress a mining drill accumulates per mined item.
pub const MINING_DRILL_PROGRESS_PER_ITEM: u16 = 1000;

/// Progress an alembic accumulates per distilled item.
pub const ALEMBIC_PROGRESS_PER_ITEM: u16 = 1000;

/// Progress a crucible accumulates per transmuted item.
pub const CRUCIBLE_PROGRESS_PER_ITEM: u16 = 1000;

/// A crucible formula: essences in, one product out.
#[derive(Debug, Copy, Clone, PartialEq, Eq)]
pub struct CrucibleFormula {
    pub output: ItemId,
    pub output_amount: u32,
    pub inputs: &'static [(ItemId, u32)],
}

pub open spec fn resource_to_item_spec(kind: ResourceId) -> Option<ItemId> {
    if kind == RES_IRON {
        Some(ITEM_IRON_ORE)
    } else if kind == RES_COPPER {
        Some(ITEM_COPPER_ORE)
    } else if kind == RES_COAL {
        Some(ITEM_COAL)
    } else if kind == RES_STONE {
        Some(ITEM_STONE)
    } else {
        None
    }
}

/// The item a mined ore deposit yields.
pub fn resource_to_item(kind: ResourceId) -> (r: Option<ItemId>)
    ensures
        r == resource_to_item_spec(kind),
{
    match kind {
        RES_IRON => Some(ITEM_IRON_ORE),
        RES_COPPER => Some(ITEM_COPPER_ORE),
        RES_COAL => Some(ITEM_COAL),
        RES_STONE => Some(ITEM_STONE),
        _ => None,
    }
}

pub open spec fn smelt_spec(item: ItemId) -> Option<ItemId> {
    if item == ITEM_IRON_ORE {
        Some(ITEM_IRON_PLATE)
    } else if item == ITEM_COPPER_ORE {
        Some(ITEM_COPPER_PLATE)
    } else {
        None
    }
}

/// What an athanor smelts an item into.
pub fn smelt_output_for_input(item: ItemId) -> (r: Option<ItemId>)
    ensures
        r == smelt_spec(item),
{
    match item {
        ITEM_IRON_ORE => Some(ITEM_IRON_PLATE),
        ITEM_COPPER_ORE => Some(ITEM_COPPER_PLATE),
        _ => None,
    }
}

pub open spec fn essence_spec(item: ItemId) -> Option<ItemId> {
    if item == ITEM_IRON_ORE {
        Some(ITEM_FERRIC_ESSENCE)
    } else if item == ITEM_COPPER_ORE {
        Some(ITEM_CUPRIC_ESSENCE)
    } else if item == ITEM_COAL {
        Some(ITEM_UMBRAL_ESSENCE)
    } else if item == ITEM_STONE {
        Some(ITEM_MINERAL_ESSENCE)
    } else {
        None
    }
}

/// What an alembic distils an item into.
pub fn essence_output_for_input(item: ItemId) -> (r: Option<ItemId>)
    ensures
        r == essence_spec(item),
{
    match item {
        ITEM_IRON_ORE => Some(ITEM_FERRIC_ESSENCE),
        ITEM_COPPER_ORE => Some(ITEM_CUPRIC_ESSENCE),
        ITEM_COAL => Some(ITEM_UMBRAL_ESSENCE),
        ITEM_STONE => Some(ITEM_MINERAL_ESSENCE),
        _ => None,
    }
}

pub open spec fn is_essence_spec(item: ItemId) -> bool {
    item == ITEM_FERRIC_ESSENCE || item == ITEM_CUPRIC_ESSENCE || item == ITEM_UMBRAL_ESSENCE
        || item == ITEM_MINERAL_ESSENCE
}

pub fn is_essence_item(item: ItemId) -> (b: bool)
    ensures
        b == is_essence_spec(item),
{
    item == ITEM_FERRIC_ESSENCE || item == ITEM_CUPRIC_ESSENCE || item == ITEM_UMBRAL_ESSENCE
        || item == ITEM_MINERAL_ESSENCE
}

/// Every distilled item is an essence.
pub proof fn lemma_distillation_yields_essence(item: ItemId)
    ensures
        essence_spec(item) matches Some(e) ==> is_essence_spec(e),
{
}

/// Each ore deposit yields its own ore item: iron, copper, coal and stone
/// deposits give iron ore, copper ore, coal and stone; no other deposit
/// kind yields anything, and no two yield the same item.
pub proof fn lemma_ore_item_of_each_deposit(kind: ResourceId, other: ResourceId)
    ensures
        resource_to_item_spec(RES_IRON) == Some(ITEM_IRON_ORE),
        resource_to_item_spec(RES_COPPER) == Some(ITEM_COPPER_ORE),
        resource_to_item_spec(RES_COAL) == Some(ITEM_COAL),
        resource_to_item_spec(RES_STONE) == Some(ITEM_STONE),
        resource_to_item_spec(kind) is Some <==> (kind == RES_IRON || kind == RES_COPPER || kind == RES_COAL
            || kind == RES_STONE),
        resource_to_item_spec(kind) is Some && resource_to_item_spec(kind) == resource_to_item_spec(other)
            ==> kind == other,
{
}

/// Smelting turns iron ore into iron plates and copper ore into copper
/// plates; nothing else smelts.
pub proof fn lemma_smelt_product_of_each_ore(item: ItemId)
    ensures
        smelt_spec(ITEM_IRON_ORE) == Some(ITEM_IRON_PLATE),
        smelt_spec(ITEM_COPPER_ORE) == Some(ITEM_COPPER_PLATE),
        smelt_spec(item) is Some <==> (item == ITEM_IRON_ORE || item == ITEM_COPPER_ORE),
{
}

/// Each structure item places its own structure: furnace, chest, inserter,
/// mining drill, alembic and crucible; no other item places anything.
pub proof fn lemma_structure_of_each_item(item: ItemId)
    ensures
        placed_kind_spec(ITEM_FURNACE) == Some(PLACED_FURNACE),
        placed_kind_spec(ITEM_CHEST) == Some(PLACED_CHEST),
        placed_kind_spec(ITEM_INSERTER) == Some(PLACED_INSERTER),
        placed_kind_spec(ITEM_MINING_DRILL) == Some(PLACED_MINING_DRILL),
        placed_kind_spec(ITEM_ALEMBIC) == Some(PLACED_ALEMBIC),
        placed_kind_spec(ITEM_CRUCIBLE) == Some(PLACED_CRUCIBLE),
        placed_kind_spec(item) is Some <==> (item == ITEM_FURNACE || item == ITEM_CHEST || item == ITEM_INSERTER
            || item == ITEM_MINING_DRILL || item == ITEM_ALEMBIC || item == ITEM_CRUCIBLE),
        placed_kind_spec(item) matches Some(k) ==> placed_item_spec(k) == Some(item),
{
}

/// Distilling maps each reagent to its own essence: iron ore to ferric,
/// copper ore to cupric, coal to umbral and stone to mineral essence; those
/// four are the only reagents, and no two share an essence.
pub proof fn lemma_essence_of_each_reagent(item: ItemId, other: ItemId)
    ensures
        essence_spec(ITEM_IRON_ORE) == Some(ITEM_FERRIC_ESSENCE),
        essence_spec(ITEM_COPPER_ORE) == Some(ITEM_CUPRIC_ESSENCE),
        essence_spec(ITEM_COAL) == Some(ITEM_UMBRAL_ESSENCE),
        essence_spec(ITEM_STONE) == Some(ITEM_MINERAL_ESSENCE),
        essence_spec(item) is Some <==> (item == ITEM_IRON_ORE || item == ITEM_COPPER_ORE || item == ITEM_COAL
            || item == ITEM_STONE),
        essence_spec(item) is Some && essence_spec(item) == essence_spec(other) ==> item == other,
{
}

pub fn formula_quintessence() -> (f: CrucibleFormula)
    ensures
        f.output == ITEM_QUINTESSENCE,
        f.output_amount == 1,
        f.inputs@ == seq![
            (ITEM_FERRIC_ESSENCE, 1u32),
            (ITEM_CUPRIC_ESSENCE, 1u32),
            (ITEM_UMBRAL_ESSENCE, 1u32),
            (ITEM_MINERAL_ESSENCE, 1u32),
        ],
{
    CrucibleFormula {
        output: ITEM_QUINTESSENCE,
        output_amount: 1,
        inputs: &[
            (ITEM_FERRIC_ESSENCE, 1),
            (ITEM_CUPRIC_ESSENCE, 1),
            (ITEM_UMBRAL_ESSENCE, 1),
            (ITEM_MINERAL_ESSENCE, 1),
        ],
    }
}

pub fn formula_lodestone() -> (f: CrucibleFormula)
    ensures
        f.output == ITEM_LODESTONE,
        f.output_amount == 1,
        f.inputs@ == seq![(ITEM_FERRIC_ESSENCE, 1u32), (ITEM_MINERAL_ESSENCE, 1u32)],
{
    CrucibleFormula {
        output: ITEM_LODESTONE,
        output_amount: 1,
        inputs: &[(ITEM_FERRIC_ESSENCE, 1), (ITEM_MINERAL_ESSENCE, 1)],
    }
}

pub fn formula_brass_core() -> (f: CrucibleFormula)
    ensures
        f.output == ITEM_BRASS_CORE,
        f.output_amount == 1,
        f.inputs@ == seq![(ITEM_CUPRIC_ESSENCE, 1u32), (ITEM_FERRIC_ESSENCE, 1u32)],
{
    CrucibleFormula {
        output: ITEM_BRASS_CORE,
        output_amount: 1,
        inputs: &[(ITEM_CUPRIC_ESSENCE, 1), (ITEM_FERRIC_ESSENCE, 1)],
    }
}

pub fn formula_cinder_glass() -> (f: CrucibleFormula)
    ensures
        f.output == ITEM_CINDER_GLASS,
        f.output_amount == 1,
        f.inputs@ == seq![(ITEM_UMBRAL_ESSENCE, 1u32), (ITEM_MINERAL_ESSENCE, 1u32)],
{
    CrucibleFormula {
        output: ITEM_CINDER_GLASS,
        output_amount: 1,
        inputs: &[(ITEM_UMBRAL_ESSENCE, 1), (ITEM_MINERAL_ESSENCE, 1)],
    }
}

/// Total count over the slots that hold `item`.
pub open spec fn slot_total(slots: Seq<Slot>, item: ItemId) -> nat
    decreases slots.len(),
{
    if slots.len() == 0 {
        0
    } else {
        slot_total(slots.drop_last(), item) + if slots.last().item == item {
            slots.last().count as nat
        } else {
            0
        }
    }
}

/// The slots hold every input of a formula.
pub open spec fn formula_satisfied(inputs: Seq<(ItemId, u32)>, slots: Seq<Slot>) -> bool {
    forall|i: int| 0 <= i < inputs.len() ==> slot_total(slots, (#[trigger] inputs[i]).0) >= inputs[i].1
}

/// The inputs of the crucible formulas, in the order they are tried:
/// quintessence, lodestone, brass core, cinder glass.
pub open spec fn formula_inputs(k: int) -> Seq<(ItemId, u32)> {
    if k == 0 {
        seq![
            (ITEM_FERRIC_ESSENCE, 1u32),
            (ITEM_CUPRIC_ESSENCE, 1u32),
            (ITEM_UMBRAL_ESSENCE, 1u32),
            (ITEM_MINERAL_ESSENCE, 1u32),
        ]
    } else if k == 1 {
        seq![(ITEM_FERRIC_ESSENCE, 1u32), (ITEM_MINERAL_ESSENCE, 1u32)]
    } else if k == 2 {
        seq![(ITEM_CUPRIC_ESSENCE, 1u32), (ITEM_FERRIC_ESSENCE, 1u32)]
    } else {
        seq![(ITEM_UMBRAL_ESSENCE, 1u32), (ITEM_MINERAL_ESSENCE, 1u32)]
    }
}

pub open spec fn formula_output(k: int) -> ItemId {
    if k == 0 {
        ITEM_QUINTESSENCE
    } else if k == 1 {
        ITEM_LODESTONE
    } else if k == 2 {
        ITEM_BRASS_CORE
    } else {
        ITEM_CINDER_GLASS
    }
}

/// The essence totals that formula matching sums fit in a `u32`.
pub open spec fn essence_totals_fit(slots: Seq<Slot>) -> bool {
    &&& slot_total(slots, ITEM_FERRIC_ESSENCE) <= u32::MAX
    &&& slot_total(slots, ITEM_CUPRIC_ESSENCE) <= u32::MAX
    &&& slot_total(slots, ITEM_UMBRAL_ESSENCE) <= u32::MAX
    &&& slot_total(slots, ITEM_MINERAL_ESSENCE) <= u32::MAX
}

fn total_within_u32(slots: &[Slot], item: ItemId) -> (b: bool)
    ensures
        b == (slot_total(slots@, item) <= u32::MAX),
{
    let mut total: u64 = 0;
    let mut i: usize = 0;
    while i < slots.len()
        invariant
            0 <= i <= slots@.len(),
            total == slot_total(slots@.take(i as int), item),
            total <= u32::MAX,
        decreases slots@.len() - i,
    {
        proof {
            assert(slots@.take(i + 1).drop_last() =~= slots@.take(i as int));
        }
        if slots[i].item == item {
            total = total + slots[i].count as u64;
            if total > 0xffff_ffff {
                proof {
                    lemma_slot_total_prefix(slots@, item, i + 1);
                }
                return false;
            }
        }
        i = i + 1;
    }
    proof {
        assert(slots@.take(slots@.len() as int) =~= slots@);
    }
    true
}

/// Whether the essence totals of the slots fit in a `u32`, as formula
/// matching needs.
pub fn essence_totals_within_u32(slots: &[Slot]) -> (b: bool)
    ensures
        b == essence_totals_fit(slots@),
{
    total_within_u32(slots, ITEM_FERRIC_ESSENCE) && total_within_u32(slots, ITEM_CUPRIC_ESSENCE)
        && total_within_u32(slots, ITEM_UMBRAL_ESSENCE) && total_within_u32(slots, ITEM_MINERAL_ESSENCE)
}

fn slot_item_count(inputs: &[Slot], item: ItemId) -> (n: u32)
    requires
        slot_total(inputs@, item) <= u32::MAX,
    ensures
        n == slot_total(inputs@, item),
{
    let mut total: u32 = 0;
    let mut i: usize = 0;
    while i < inputs.len()
        invariant
            0 <= i <= inputs@.len(),
            slot_total(inputs@, item) <= u32::MAX,
            total == slot_total(inputs@.take(i as int), item),
        decreases inputs@.len() - i,
    {
        proof {
            assert(inputs@.take(i + 1).drop_last() =~= inputs@.take(i as int));
            lemma_slot_total_prefix(inputs@, item, i + 1);
        }
        if inputs[i].item == item {
            total = total + inputs[i].count;
        }
        i = i + 1;
    }
    proof {
        assert(inputs@.take(inputs@.len() as int) =~= inputs@);
    }
    total
}

proof fn lemma_slot_total_prefix(s: Seq<Slot>, item: ItemId, n: int)
    requires
        0 <= n <= s.len(),
    ensures
        slot_total(s.take(n), item) <= slot_total(s, item),
    decreases s.len(),
{
    if n < s.len() {
        assert(s.drop_last().take(n) =~= s.take(n));
        lemma_slot_total_prefix(s.drop_last(), item, n);
    } else {
        assert(s.take(n) =~= s);
    }
}

fn formula_holds(formula: &CrucibleFormula, inputs: &[Slot]) -> (b: bool)
    requires
        essence_totals_fit(inputs@),
        forall|i: int| 0 <= i < formula.inputs@.len() ==> is_essence_spec(
            (#[trigger] formula.inputs@[i]).0,
        ),
    ensures
        b == formula_satisfied(formula.inputs@, inputs@),
{
    let mut i: usize = 0;
    while i < formula.inputs.len()
        invariant
            0 <= i <= formula.inputs@.len(),
            essence_totals_fit(inputs@),
            forall|j: int| 0 <= j < formula.inputs@.len() ==> is_essence_spec(
                (#[trigger] formula.inputs@[j]).0,
            ),
            forall|j: int| 0 <= j < i ==> slot_total(inputs@, (#[trigger] formula.inputs@[j]).0)
                >= formula.inputs@[j].1,
        decreases formula.inputs@.len() - i,
    {
        let (item, amount) = formula.inputs[i];
        assert(is_essence_spec(formula.inputs@[i as int].0));
        if slot_item_count(inputs, item) < amount {
            return false;
        }
        i = i + 1;
    }
    true
}

/// The first formula, in the order they are tried, whose inputs the slots hold.
pub open spec fn first_formula(slots: Seq<Slot>) -> Option<int> {
    if formula_satisfied(formula_inputs(0), slots) {
        Some(0)
    } else if formula_satisfied(formula_inputs(1), slots) {
        Some(1)
    } else if formula_satisfied(formula_inputs(2), slots) {
        Some(2)
    } else if formula_satisfied(formula_inputs(3), slots) {
        Some(3)
    } else {
        None
    }
}

/// The formulas by their place in the order they are tried: quintessence
/// from one each of ferric, cupric, umbral and mineral essence; lodestone
/// from ferric and mineral; brass core from cupric and ferric; cinder glass
/// from umbral and mineral.
pub proof fn lemma_formula_table()
    ensures
        formula_output(0) == ITEM_QUINTESSENCE,
        formula_output(1) == ITEM_LODESTONE,
        formula_output(2) == ITEM_BRASS_CORE,
        formula_output(3) == ITEM_CINDER_GLASS,
        formula_inputs(0) =~= seq![
            (ITEM_FERRIC_ESSENCE, 1u32),
            (ITEM_CUPRIC_ESSENCE, 1u32),
            (ITEM_UMBRAL_ESSENCE, 1u32),
            (ITEM_MINERAL_ESSENCE, 1u32),
        ],
        formula_inputs(1) =~= seq![(ITEM_FERRIC_ESSENCE, 1u32), (ITEM_MINERAL_ESSENCE, 1u32)],
        formula_inputs(2) =~= seq![(ITEM_CUPRIC_ESSENCE, 1u32), (ITEM_FERRIC_ESSENCE, 1u32)],
        formula_inputs(3) =~= seq![(ITEM_UMBRAL_ESSENCE, 1u32), (ITEM_MINERAL_ESSENCE, 1u32)],
{
}

/// The formula chosen is the one of least place whose inputs the slots
/// hold: it is held, no formula before it is, and none is chosen only when
/// none of the four is held.
pub proof fn lemma_first_formula_is_least(slots: Seq<Slot>)
    ensures
        match first_formula(slots) {
            Some(k) => {
                &&& 0 <= k < 4
                &&& formula_satisfied(formula_inputs(k), slots)
                &&& forall|j: int| 0 <= j < k ==> !formula_satisfied(#[trigger] formula_inputs(j), slots)
            },
            None => forall|j: int| 0 <= j < 4 ==> !formula_satisfied(#[trigger] formula_inputs(j), slots),
        },
{
    match first_formula(slots) {
        Some(k) => {
            assert forall|j: int| 0 <= j < k implies !formula_satisfied(#[trigger] formula_inputs(j), slots) by {
                if j == 0 {
                } else if j == 1 {
                } else {
                    assert(j == 2);
                }
            }
        },
        None => {
            assert forall|j: int| 0 <= j < 4 implies !formula_satisfied(#[trigger] formula_inputs(j), slots) by {
                if j == 0 {
                } else if j == 1 {
                } else if j == 2 {
                } else {
                    assert(j == 3);
                }
            }
        },
    }
}

/// The first crucible formula, in the order quintessence, lodestone, brass
/// core, cinder glass, whose inputs the slots hold.
pub fn crucible_formula_for_slots(inputs: &[Slot]) -> (r: Option<CrucibleFormula>)
    requires
        essence_totals_fit(inputs@),
    ensures
        match first_formula(inputs@) {
            Some(k) => r matches Some(f) && f.output == formula_output(k) && f.output_amount == 1
                && f.inputs@ == formula_inputs(k),
            None => r is None,
        },
{
    let f0 = formula_quintessence();
    if formula_holds(&f0, inputs) {
        return Some(f0);
    }
    let f1 = formula_lodestone();
    if formula_holds(&f1, inputs) {
        return Some(f1);
    }
    let f2 = formula_brass_core();
    if formula_holds(&f2, inputs) {
        return Some(f2);
    }
    let f3 = formula_cinder_glass();
    if formula_holds(&f3, inputs) {
        return Some(f3);
    }
    None
}


pub open spec fn placed_kind_spec(item: ItemId) -> Option<PlacedId> {
    if item == ITEM_FURNACE {
        Some(PLACED_FURNACE)
    } else if item == ITEM_CHEST {
        Some(PLACED_CHEST)
    } else if item == ITEM_INSERTER {
        Some(PLACED_INSERTER)
    } else if item == ITEM_MINING_DRILL {
        Some(PLACED_MINING_DRILL)
    } else if item == ITEM_ALEMBIC {
        Some(PLACED_ALEMBIC)
    } else if item == ITEM_CRUCIBLE {
        Some(PLACED_CRUCIBLE)
    } else {
        None
    }
}

pub open spec fn placed_item_spec(kind: PlacedId) -> Option<ItemId> {
    if kind == PLACED_FURNACE {
        Some(ITEM_FURNACE)
    } else if kind == PLACED_CHEST {
        Some(ITEM_CHEST)
    } else if kind == PLACED_INSERTER {
        Some(ITEM_INSERTER)
    } else if kind == PLACED_MINING_DRILL {
        Some(ITEM_MINING_DRILL)
    } else if kind == PLACED_ALEMBIC {
        Some(ITEM_ALEMBIC)
    } else if kind == PLACED_CRUCIBLE {
        Some(ITEM_CRUCIBLE)
    } else {
        None
    }
}

/// The structure kind an item places, if it is placeable.
pub fn item_to_placed_kind(item: ItemId) -> (r: Option<PlacedId>)
    ensures
        r == placed_kind_spec(item),
{
    match item {
        ITEM_FURNACE => Some(PLACED_FURNACE),
        ITEM_CHEST => Some(PLACED_CHEST),
        ITEM_INSERTER => Some(PLACED_INSERTER),
        ITEM_MINING_DRILL => Some(PLACED_MINING_DRILL),
        ITEM_ALEMBIC => Some(PLACED_ALEMBIC),
        ITEM_CRUCIBLE => Some(PLACED_CRUCIBLE),
        _ => None,
    }
}

/// The item a placed structure turns back into when picked up.
pub fn placed_kind_to_item(kind: PlacedId) -> (r: Option<ItemId>)
    ensures
        r == placed_item_spec(kind),
{
    match kind {
        PLACED_FURNACE => Some(ITEM_FURNACE),
        PLACED_CHEST => Some(ITEM_CHEST),
        PLACED_INSERTER => Some(ITEM_INSERTER),
        PLACED_MINING_DRILL => Some(ITEM_MINING_DRILL),
        PLACED_ALEMBIC => Some(ITEM_ALEMBIC),
        PLACED_CRUCIBLE => Some(ITEM_CRUCIBLE),
        _ => None,
    }
}

pub fn is_placeable_item(item: ItemId) -> (b: bool)
    ensures
        b == placed_kind_spec(item) is Some,
{
    item_to_placed_kind(item).is_some()
}

/// Placing an item and picking the structure up again gives the item back,
/// and every structure kind that turns into an item is placed by that item.
pub proof fn lemma_place_pickup_round_trip(item: ItemId, kind: PlacedId)
    ensures
        placed_kind_spec(item) matches Some(k) ==> placed_item_spec(k) == Some(item),
        placed_item_spec(kind) matches Some(i) ==> placed_kind_spec(i) == Some(kind),
{
}

/// The id of the structure of kind `kind` placed on global tile `(gx, gy)`.
pub open spec fn object_id_spec(world_seed: u64, gx: i32, gy: i32, kind: PlacedId) -> ObjectId {
    let z = world_seed ^ (kind as u64).wrapping_mul(0x9e3779b97f4a7c15u64) ^ widen(gx).wrapping_mul(
        0xbf58476d1ce4e5b9u64,
    ) ^ widen(gy).wrapping_mul(0x94d049bb133111ebu64);
    let id = mix64_spec(z);
    if id == 0 {
        1
    } else {
        id
    }
}

/// A deterministic, never-zero object id for a structure placed on a tile.
pub fn object_id_for_tile(world_seed: u64, gx: i32, gy: i32, kind: PlacedId) -> (id: ObjectId)
    ensures
        id == object_id_spec(world_seed, gx, gy, kind),
        id != 0,
{
    let mut z = world_seed ^ (kind as u64).wrapping_mul(0x9e3779b97f4a7c15u64);
    z = z ^ (gx as i64 as u64).wrapping_mul(0xbf58476d1ce4e5b9u64);
    z = z ^ (gy as i64 as u64).wrapping_mul(0x94d049bb133111ebu64);
    let id = mix64(z);
    if id == 0 {
        1
    } else {
        id
    }
}

/// The display name of an item.
pub open spec fn item_name_spec(item: ItemId) -> Seq<char> {
    if item == ITEM_IRON_ORE {
        "Ferric Ore"@
    } else if item == ITEM_COPPER_ORE {
        "Cupric Ore"@
    } else if item == ITEM_COAL {
        "Black Salt"@
    } else if item == ITEM_STONE {
        "Saltstone"@
    } else if item == ITEM_IRON_PLATE {
        "Iron Calx"@
    } else if item == ITEM_COPPER_PLATE {
        "Copper Calx"@
    } else if item == ITEM_FERRIC_ESSENCE {
        "Ferric Essence"@
    } else if item == ITEM_CUPRIC_ESSENCE {
        "Cupric Essence"@
    } else if item == ITEM_UMBRAL_ESSENCE {
        "Umbral Essence"@
    } else if item == ITEM_MINERAL_ESSENCE {
        "Mineral Essence"@
    } else if item == ITEM_LODESTONE {
        "Lodestone"@
    } else if item == ITEM_BRASS_CORE {
        "Brass Core"@
    } else if item == ITEM_CINDER_GLASS {
        "Cinder Glass"@
    } else if item == ITEM_QUINTESSENCE {
        "Quintessence"@
    } else if item == ITEM_FURNACE {
        "Athanor"@
    } else if item == ITEM_CHEST {
        "Reliquary"@
    } else if item == ITEM_INSERTER {
        "Brass Arm"@
    } else if item == ITEM_MINING_DRILL {
        "Extractor"@
    } else if item == ITEM_ALEMBIC {
        "Alembic"@
    } else if item == ITEM_CRUCIBLE {
        "Crucible"@
    } else {
        "Unknown"@
    }
}

pub fn item_name(item: ItemId) -> (s: &'static str)
    ensures
        s@ == item_name_spec(item),
{
    match item {
        ITEM_IRON_ORE => "Ferric Ore",
        ITEM_COPPER_ORE => "Cupric Ore",
        ITEM_COAL => "Black Salt",
        ITEM_STONE => "Saltstone",
        ITEM_IRON_PLATE => "Iron Calx",
        ITEM_COPPER_PLATE => "Copper Calx",
        ITEM_FERRIC_ESSENCE => "Ferric Essence",
        ITEM_CUPRIC_ESSENCE => "Cupric Essence",
        ITEM_UMBRAL_ESSENCE => "Umbral Essence",
        ITEM_MINERAL_ESSENCE => "Mineral Essence",
        ITEM_LODESTONE => "Lodestone",
        ITEM_BRASS_CORE => "Brass Core",
        ITEM_CINDER_GLASS => "Cinder Glass",
        ITEM_QUINTESSENCE => "Quintessence",
        ITEM_FURNACE => "Athanor",
        ITEM_CHEST => "Reliquary",
        ITEM_INSERTER => "Brass Arm",
        ITEM_MINING_DRILL => "Extractor",
        ITEM_ALEMBIC => "Alembic",
        ITEM_CRUCIBLE => "Crucible",
        _ => "Unknown",
    }
}


/// A crafting recipe: inputs consumed from the inventory, one product added.
#[derive(Debug, Copy, Clone, PartialEq, Eq)]
pub struct Recipe {
    pub output: ItemId,
    pub output_amount: u32,
    pub inputs: &'static [(ItemId, u32)],
}

pub fn recipe_furnace() -> (r: Recipe)
    ensures
        r.output == ITEM_FURNACE,
        r.output_amount == 1,
        r.inputs@ == seq![(ITEM_STONE, 10u32)],
{
    Recipe { output: ITEM_FURNACE, output_amount: 1, inputs: &[(ITEM_STONE, 10)] }
}

pub fn recipe_chest() -> (r: Recipe)
    ensures
        r.output == ITEM_CHEST,
        r.output_amount == 1,
        r.inputs@ == seq![(ITEM_STONE, 10u32)],
{
    Recipe { output: ITEM_CHEST, output_amount: 1, inputs: &[(ITEM_STONE, 10)] }
}

pub fn recipe_inserter() -> (r: Recipe)
    ensures
        r.output == ITEM_INSERTER,
        r.output_amount == 1,
        r.inputs@ == seq![(ITEM_IRON_PLATE, 2u32), (ITEM_COPPER_PLATE, 1u32)],
{
    Recipe {
        output: ITEM_INSERTER,
        output_amount: 1,
        inputs: &[(ITEM_IRON_PLATE, 2), (ITEM_COPPER_PLATE, 1)],
    }
}

pub fn recipe_mining_drill() -> (r: Recipe)
    ensures
        r.output == ITEM_MINING_DRILL,
        r.output_amount == 1,
        r.inputs@ == seq![(ITEM_IRON_PLATE, 3u32), (ITEM_COPPER_PLATE, 1u32), (ITEM_STONE, 5u32)],
{
    Recipe {
        output: ITEM_MINING_DRILL,
        output_amount: 1,
        inputs: &[(ITEM_IRON_PLATE, 3), (ITEM_COPPER_PLATE, 1), (ITEM_STONE, 5)],
    }
}

pub fn recipe_alembic() -> (r: Recipe)
    ensures
        r.output == ITEM_ALEMBIC,
        r.output_amount == 1,
        r.inputs@ == seq![(ITEM_COPPER_PLATE, 3u32), (ITEM_IRON_PLATE, 1u32), (ITEM_STONE, 8u32)],
{
    Recipe {
        output: ITEM_ALEMBIC,
        output_amount: 1,
        inputs: &[(ITEM_COPPER_PLATE, 3), (ITEM_IRON_PLATE, 1), (ITEM_STONE, 8)],
    }
}

pub fn recipe_crucible() -> (r: Recipe)
    ensures
        r.output == ITEM_CRUCIBLE,
        r.output_amount == 1,
        r.inputs@ == seq![
            (ITEM_COPPER_PLATE, 4u32),
            (ITEM_IRON_PLATE, 2u32),
            (ITEM_STONE, 12u32),
            (ITEM_MINERAL_ESSENCE, 2u32),
        ],
{
    Recipe {
        output: ITEM_CRUCIBLE,
        output_amount: 1,
        inputs: &[
            (ITEM_COPPER_PLATE, 4),
            (ITEM_IRON_PLATE, 2),
            (ITEM_STONE, 12),
            (ITEM_MINERAL_ESSENCE, 2),
        ],
    }
}

/// The outputs of the recipe list, in menu order.
pub open spec fn recipe_output_at(index: int) -> ItemId {
    if index == 0 {
        ITEM_FURNACE
    } else if index == 1 {
        ITEM_CHEST
    } else if index == 2 {
        ITEM_INSERTER
    } else if index == 3 {
        ITEM_MINING_DRILL
    } else if index == 4 {
        ITEM_ALEMBIC
    } else {
        ITEM_CRUCIBLE
    }
}

/// The inputs of the recipes, in menu order.
pub open spec fn recipe_inputs_at(index: int) -> Seq<(ItemId, u32)> {
    if index == 0 || index == 1 {
        seq![(ITEM_STONE, 10u32)]
    } else if index == 2 {
        seq![(ITEM_IRON_PLATE, 2u32), (ITEM_COPPER_PLATE, 1u32)]
    } else if index == 3 {
        seq![(ITEM_IRON_PLATE, 3u32), (ITEM_COPPER_PLATE, 1u32), (ITEM_STONE, 5u32)]
    } else if index == 4 {
        seq![(ITEM_COPPER_PLATE, 3u32), (ITEM_IRON_PLATE, 1u32), (ITEM_STONE, 8u32)]
    } else {
        seq![(ITEM_COPPER_PLATE, 4u32), (ITEM_IRON_PLATE, 2u32), (ITEM_STONE, 12u32), (ITEM_MINERAL_ESSENCE, 2u32)]
    }
}

/// The recipe at a position of the crafting menu.
pub fn recipe_for_index(index: usize) -> (r: Option<Recipe>)
    ensures
        index < 6 <==> r is Some,
        r matches Some(rec) ==> rec.output == recipe_output_at(index as int) && rec.output_amount
            == 1 && rec.inputs@ == recipe_inputs_at(index as int),
        r matches Some(rec) ==> inputs_distinct(rec.inputs@),
{
    match index {
        0 => Some(recipe_furnace()),
        1 => Some(recipe_chest()),
        2 => Some(recipe_inserter()),
        3 => Some(recipe_mining_drill()),
        4 => Some(recipe_alembic()),
        5 => Some(recipe_crucible()),
        _ => None,
    }
}

/// The inventory holds at least the stated amount of every input.
pub open spec fn inputs_held(s: Seq<(ItemId, u32)>, inputs: Seq<(ItemId, u32)>) -> bool {
    forall|i: int| 0 <= i < inputs.len() ==> count_in(s, (#[trigger] inputs[i]).0) >= inputs[i].1
}

/// The contents after trying to remove each input in turn.
pub open spec fn after_removals(s: Seq<(ItemId, u32)>, inputs: Seq<(ItemId, u32)>) -> Seq<(ItemId, u32)>
    decreases inputs.len(),
{
    if inputs.len() == 0 {
        s
    } else {
        remove_result(after_removals(s, inputs.drop_last()), inputs.last().0, inputs.last().1)
    }
}

/// A recipe can be crafted when every input is held and, once they are
/// removed, the whole output fits.
pub open spec fn can_craft_spec(s: Seq<(ItemId, u32)>, recipe: Recipe) -> bool {
    &&& inputs_held(s, recipe.inputs@)
    &&& acceptable_spec(after_removals(s, recipe.inputs@), recipe.output, recipe.output_amount)
        == recipe.output_amount
}

/// No item is listed twice among a recipe's inputs.
pub open spec fn inputs_distinct(inputs: Seq<(ItemId, u32)>) -> bool {
    forall|i: int, j: int| 0 <= i < j < inputs.len() ==> (#[trigger] inputs[i]).0 != (#[trigger] inputs[j]).0
}

/// How many of `item` the inputs ask for in all.
pub open spec fn needed(inputs: Seq<(ItemId, u32)>, item: ItemId) -> int
    decreases inputs.len(),
{
    if inputs.len() == 0 {
        0
    } else {
        needed(inputs.drop_last(), item) + if inputs.last().0 == item { inputs.last().1 as int } else { 0 }
    }
}

proof fn lemma_needed_absent(inputs: Seq<(ItemId, u32)>, item: ItemId)
    requires
        forall|i: int| 0 <= i < inputs.len() ==> (#[trigger] inputs[i]).0 != item,
    ensures
        needed(inputs, item) == 0,
    decreases inputs.len(),
{
    if inputs.len() > 0 {
        lemma_needed_absent(inputs.drop_last(), item);
    }
}

fn remove_inputs(inv: &mut Inventory, inputs: &'static [(ItemId, u32)])
    ensures
        final(inv)@ == after_removals(old(inv)@, inputs@),
        inputs_distinct(inputs@) && inputs_held(old(inv)@, inputs@) ==> forall|k: ItemId|
            #[trigger] count_in(final(inv)@, k) == count_in(old(inv)@, k) - needed(inputs@, k),
{
    let ghost start = inv@;
    let ghost wanted = inputs_distinct(inputs@) && inputs_held(start, inputs@);
    let mut i: usize = 0;
    proof {
        assert(inputs@.take(0) =~= Seq::<(ItemId, u32)>::empty());
    }
    while i < inputs.len()
        invariant
            0 <= i <= inputs@.len(),
            inv@ == after_removals(start, inputs@.take(i as int)),
            wanted == (inputs_distinct(inputs@) && inputs_held(start, inputs@)),
            wanted ==> forall|k: ItemId| #[trigger] count_in(inv@, k) == count_in(start, k) - needed(inputs@.take(i as int), k),
        decreases inputs@.len() - i,
    {
        let (item, amount) = inputs[i];
        let ghost before = inv@;
        proof {
            if wanted {
                assert forall|j: int| 0 <= j < i implies (#[trigger] inputs@.take(i as int)[j]).0 != item by {
                    assert(inputs@.take(i as int)[j] == inputs@[j]);
                    assert(inputs@[j].0 != inputs@[i as int].0);
                }
                lemma_needed_absent(inputs@.take(i as int), item);
                assert(count_in(before, item) == count_in(start, item));
                assert(count_in(start, inputs@[i as int].0) >= inputs@[i as int].1);
            }
        }
        let _ = inv.try_remove(item, amount);
        proof {
            let t = inputs@.take(i + 1);
            assert(t.drop_last() =~= inputs@.take(i as int));
            assert(t.last() == inputs@[i as int]);
            if wanted {
                assert forall|k: ItemId| #[trigger] count_in(inv@, k) == count_in(start, k) - needed(t, k) by {
                    assert(count_in(before, k) == count_in(start, k) - needed(inputs@.take(i as int), k));
                }
            }
        }
        i = i + 1;
    }
    proof {
        assert(inputs@.take(inputs@.len() as int) =~= inputs@);
    }
}

fn holds_inputs(inv: &Inventory, inputs: &'static [(ItemId, u32)]) -> (b: bool)
    ensures
        b == inputs_held(inv@, inputs@),
{
    let mut i: usize = 0;
    while i < inputs.len()
        invariant
            0 <= i <= inputs@.len(),
            forall|j: int| 0 <= j < i ==> count_in(inv@, (#[trigger] inputs@[j]).0) >= inputs@[j].1,
        decreases inputs@.len() - i,
    {
        let (item, amount) = inputs[i];
        if inv.count(item) < amount {
            return false;
        }
        i = i + 1;
    }
    true
}

/// Whether the recipe can be crafted from the inventory.
pub fn can_craft(inv: &Inventory, recipe: &Recipe) -> (b: bool)
    ensures
        b == can_craft_spec(inv@, *recipe),
{
    if !holds_inputs(inv, recipe.inputs) {
        return false;
    }
    let mut simulated = inv.clone();
    remove_inputs(&mut simulated, recipe.inputs);
    simulated.can_add(recipe.output, recipe.output_amount)
}

/// Crafts the recipe when possible: removes the inputs and adds the output.
/// Returns whether it crafted; when it did not, the inventory is unchanged.
/// A craft of a recipe that names each input once takes exactly the inputs
/// and gives exactly the output: every count changes by what the recipe
/// asks for and makes of that item, and no other.
pub fn try_craft(inv: &mut Inventory, recipe: &Recipe) -> (crafted: bool)
    ensures
        crafted == can_craft_spec(old(inv)@, *recipe),
        crafted ==> final(inv)@ == add_result(
            after_removals(old(inv)@, recipe.inputs@),
            recipe.output,
            recipe.output_amount,
        ),
        !crafted ==> final(inv)@ == old(inv)@,
        crafted && inputs_distinct(recipe.inputs@) ==> forall|k: ItemId| #[trigger] count_in(final(inv)@, k)
            == count_in(old(inv)@, k) - needed(recipe.inputs@, k) + if k == recipe.output {
                recipe.output_amount as int
            } else {
                0
            },
{
    if !can_craft(inv, recipe) {
        return false;
    }
    let ghost start = inv@;
    remove_inputs(inv, recipe.inputs);
    let ghost mid = inv@;
    let moved = inv.add(recipe.output, recipe.output_amount);
    proof {
        if inputs_distinct(recipe.inputs@) {
            assert forall|k: ItemId| #[trigger] count_in(inv@, k) == count_in(start, k) - needed(recipe.inputs@, k)
                + if k == recipe.output { recipe.output_amount as int } else { 0 } by {
                assert(count_in(mid, k) == count_in(start, k) - needed(recipe.inputs@, k));
            }
        }
    }
    moved == recipe.output_amount
}

} // verus!
