//! The rules that change a chunk as the game runs: furnaces smelting, drills
//! mining, the player mining by hand, placing and picking up structures.
//! Time enters as an integer progress budget: the progress a machine had
//! plus what the elapsed time added, in the same units as its stored
//! progress.
use vstd::prelude::*;
use crate::containers::{
    deposit_spec, lemma_first_with_none, lemma_first_with_found, alembic_ids, chest_ids, crucible_ids, drill_ids,
    empty_slot, find_alembic, find_chest, find_crucible, find_drill, find_furnace, find_inserter, first_with,
    furnace_ids, inserter_ids, AlembicRecord, AlembicState, ChestRecord, ContainerInv, CrucibleRecord, CrucibleState,
    DrillRecord, DrillState, FurnaceRecord, FurnaceState, InserterDirection, InserterInv, InserterRecord, Slot,
};
use crate::gameplay::{
    lemma_place_pickup_round_trip, crucible_formula_for_slots, essence_output_for_input, essence_spec,
    essence_totals_fit, first_formula, formula_inputs, formula_output, slot_total, item_to_placed_kind,
    object_id_for_tile,
    object_id_spec, placed_item_spec, placed_kind_spec, placed_kind_to_item, resource_to_item, resource_to_item_spec,
    smelt_output_for_input, smelt_spec,
};
use crate::generation::{is_water, tile_at, tile_at_spec, WATER_TILE};
use crate::inventory::{
    lemma_remove_then_add_restores, wf_entries, add_result, adds_onto, count_in, remove_result, Inventory, ItemId,
    ITEM_COAL,
};
use crate::world::{
    nothing_placed, chunk_split, tile_to_chunk_local, ObjectId, PlacedCell, PlacedId, ResourceCell, SimChunkData,
    PLACED_ALEMBIC, PLACED_CHEST, PLACED_CRUCIBLE, PLACED_FURNACE, PLACED_INSERTER, PLACED_MINING_DRILL, PLACED_NONE,
    RES_NONE,
};

verus! {

/// Progress a machine needs per item it makes.
pub const PROGRESS_PER_ITEM: u64 = 1000;

pub open spec fn min3(a: int, b: int, c: int) -> int {
    if a <= b && a <= c {
        a
    } else if b <= c {
        b
    } else {
        c
    }
}

/// A slot with `k` of its items used up; emptied when none are left.
pub open spec fn used_up(s: Slot, k: int) -> Slot {
    if s.count - k == 0 {
        empty_slot()
    } else {
        Slot { item: s.item, count: (s.count - k) as u32 }
    }
}

/// An output slot after `k` more of `out` were made: the first one fills an
/// empty slot, the rest add to it, capped at `u32::MAX`.
pub open spec fn gained(s: Slot, out: ItemId, k: int) -> Slot {
    if k == 0 {
        s
    } else if s.empty_spec() {
        Slot { item: out, count: k as u32 }
    } else if s.count + k > u32::MAX {
        Slot { item: s.item, count: u32::MAX }
    } else {
        Slot { item: s.item, count: (s.count + k) as u32 }
    }
}

/// A furnace can smelt into `out` while it holds input, coal as fuel, and
/// an output slot that is empty or already holds `out`.
pub open spec fn furnace_ready(s: FurnaceState, out: ItemId) -> bool {
    &&& !s.input.empty_spec()
    &&& s.fuel.item == ITEM_COAL
    &&& s.fuel.count > 0
    &&& (s.output.empty_spec() || s.output.item == out)
}

/// How many items a furnace smelts with progress `budget`: one per full
/// `PROGRESS_PER_ITEM`, while input and fuel last.
pub open spec fn smelt_count(s: FurnaceState, budget: u64) -> int {
    match smelt_spec(s.input.item) {
        Some(out) => if furnace_ready(s, out) {
            min3((budget / 1000) as int, s.input.count as int, s.fuel.count as int)
        } else {
            0
        },
        None => 0,
    }
}

/// A furnace after smelting with progress `budget`. A furnace that cannot
/// smelt loses its progress; one that can smelts `smelt_count` items, each
/// using one input and one fuel, and keeps what is left of the budget (at
/// most one item's worth) if it can go on smelting.
pub open spec fn smelted_state(s: FurnaceState, budget: u64) -> FurnaceState {
    match smelt_spec(s.input.item) {
        Some(out) => if furnace_ready(s, out) {
            let k = smelt_count(s, budget);
            let t = FurnaceState {
                input: used_up(s.input, k),
                fuel: used_up(s.fuel, k),
                output: gained(s.output, out, k),
                progress: 0,
            };
            let rest = budget - 1000 * k;
            FurnaceState {
                progress: if furnace_ready(t, out) {
                    if rest < 1000 {
                        rest as u16
                    } else {
                        1000
                    }
                } else {
                    0
                },
                ..t
            }
        } else {
            FurnaceState { progress: 0, ..s }
        },
        None => FurnaceState { progress: 0, ..s },
    }
}

fn use_up(s: &mut Slot, k: u32)
    requires
        k <= old(s).count,
    ensures
        *final(s) == used_up(*old(s), k as int),
{
    s.count = s.count - k;
    if s.count == 0 {
        s.clear();
    }
}

fn gain(s: &mut Slot, out: ItemId, k: u32)
    ensures
        *final(s) == gained(*old(s), out, k as int),
{
    if k == 0 {
        return;
    }
    if s.is_empty() {
        s.item = out;
        s.count = k;
    } else {
        s.count = s.count.saturating_add(k);
    }
}

fn furnace_can_work(s: &FurnaceState, out: ItemId) -> (b: bool)
    ensures
        b == furnace_ready(*s, out),
{
    !s.input.is_empty() && s.fuel.item == ITEM_COAL && s.fuel.count > 0 && (s.output.is_empty()
        || s.output.item == out)
}

fn budget_progress(rest: u64) -> (p: u16)
    ensures
        p == (if rest < 1000 { rest as u16 } else { 1000u16 }),
{
    if rest < 1000 {
        rest as u16
    } else {
        1000
    }
}

/// Smelts with progress `budget`; says whether anything was smelted.
pub fn smelt_furnace(state: &mut FurnaceState, budget: u64) -> (smelted: bool)
    ensures
        *final(state) == smelted_state(*old(state), budget),
        smelted == (smelt_count(*old(state), budget) > 0),
{
    let out = match smelt_output_for_input(state.input.item) {
        Some(o) => o,
        None => {
            state.progress = 0;
            return false;
        },
    };
    if !furnace_can_work(state, out) {
        state.progress = 0;
        return false;
    }
    let cycles = budget / PROGRESS_PER_ITEM;
    let mut k: u32 = state.input.count;
    if state.fuel.count < k {
        k = state.fuel.count;
    }
    if cycles < k as u64 {
        k = cycles as u32;
    }
    use_up(&mut state.input, k);
    use_up(&mut state.fuel, k);
    gain(&mut state.output, out, k);
    state.progress = 0;
    let rest = budget - PROGRESS_PER_ITEM * (k as u64);
    if furnace_can_work(state, out) {
        state.progress = budget_progress(rest);
    }
    k > 0
}


/// An alembic can distil into `out` while it holds a reagent and an output
/// slot that is empty or already holds `out`.
pub open spec fn alembic_ready(s: AlembicState, out: ItemId) -> bool {
    &&& !s.input.empty_spec()
    &&& (s.output.empty_spec() || s.output.item == out)
}

/// How many reagents an alembic distils with progress `budget`: one per
/// full `PROGRESS_PER_ITEM`, while reagents last.
pub open spec fn distil_count(s: AlembicState, budget: u64) -> int {
    match essence_spec(s.input.item) {
        Some(out) => if alembic_ready(s, out) {
            if (budget / 1000) as int <= s.input.count as int {
                (budget / 1000) as int
            } else {
                s.input.count as int
            }
        } else {
            0
        },
        None => 0,
    }
}

/// An alembic after distilling with progress `budget`: each reagent becomes
/// one of its essence. One that cannot distil loses its progress; one that
/// can distils `distil_count` reagents and keeps what is left of the budget
/// (at most one item's worth) if it can go on.
pub open spec fn distilled_state(s: AlembicState, budget: u64) -> AlembicState {
    match essence_spec(s.input.item) {
        Some(out) => if alembic_ready(s, out) {
            let k = distil_count(s, budget);
            let t = AlembicState { input: used_up(s.input, k), output: gained(s.output, out, k), progress: 0 };
            let rest = budget - 1000 * k;
            AlembicState {
                progress: if alembic_ready(t, out) {
                    if rest < 1000 {
                        rest as u16
                    } else {
                        1000
                    }
                } else {
                    0
                },
                ..t
            }
        } else {
            AlembicState { progress: 0, ..s }
        },
        None => AlembicState { progress: 0, ..s },
    }
}

fn alembic_can_work(s: &AlembicState, out: ItemId) -> (b: bool)
    ensures
        b == alembic_ready(*s, out),
{
    !s.input.is_empty() && (s.output.is_empty() || s.output.item == out)
}

/// Distils with progress `budget`; says whether anything was distilled.
pub fn distil_alembic(state: &mut AlembicState, budget: u64) -> (distilled: bool)
    ensures
        *final(state) == distilled_state(*old(state), budget),
        distilled == (distil_count(*old(state), budget) > 0),
{
    let out = match essence_output_for_input(state.input.item) {
        Some(o) => o,
        None => {
            state.progress = 0;
            return false;
        },
    };
    if !alembic_can_work(state, out) {
        state.progress = 0;
        return false;
    }
    let cycles = budget / PROGRESS_PER_ITEM;
    let mut k: u32 = state.input.count;
    if cycles < k as u64 {
        k = cycles as u32;
    }
    use_up(&mut state.input, k);
    gain(&mut state.output, out, k);
    state.progress = 0;
    let rest = budget - PROGRESS_PER_ITEM * (k as u64);
    if alembic_can_work(state, out) {
        state.progress = budget_progress(rest);
    }
    k > 0
}


/// The slots after one of `item` is taken from the first slot, from `i`
/// on, that holds it; unchanged when none does.
pub open spec fn take_one_from(slots: Seq<Slot>, item: ItemId, i: int) -> Seq<Slot>
    decreases slots.len() - i,
{
    if i < 0 || i >= slots.len() {
        slots
    } else if !slots[i].empty_spec() && slots[i].item == item {
        slots.update(i, used_up(slots[i], 1))
    } else {
        take_one_from(slots, item, i + 1)
    }
}

/// The slots after `n` of `item` are taken, one at a time.
pub open spec fn take_units(slots: Seq<Slot>, item: ItemId, n: nat) -> Seq<Slot>
    decreases n,
{
    if n == 0 {
        slots
    } else {
        take_one_from(take_units(slots, item, (n - 1) as nat), item, 0)
    }
}

/// The slots after every input of a formula is taken, in order.
pub open spec fn take_inputs(slots: Seq<Slot>, inputs: Seq<(ItemId, u32)>) -> Seq<Slot>
    decreases inputs.len(),
{
    if inputs.len() == 0 {
        slots
    } else {
        take_units(take_inputs(slots, inputs.drop_last()), inputs.last().0, inputs.last().1 as nat)
    }
}

/// A crucible can transmute while its essences make up a formula and its
/// output slot is empty or already holds that formula's product.
pub open spec fn crucible_ready(inputs: Seq<Slot>, output: Slot) -> bool {
    match first_formula(inputs) {
        Some(k) => output.empty_spec() || output.item == formula_output(k),
        None => false,
    }
}

/// Up to `n` transmutations in turn, each by the first formula the essences
/// make up: the essence slots, the output slot and how many were made.
pub open spec fn transmute_run(inputs: Seq<Slot>, output: Slot, n: nat) -> (Seq<Slot>, Slot, nat)
    decreases n,
{
    if n == 0 || !crucible_ready(inputs, output) {
        (inputs, output, 0)
    } else {
        let k = first_formula(inputs)->0;
        let r = transmute_run(take_inputs(inputs, formula_inputs(k)), gained(output, formula_output(k), 1), (n - 1) as nat);
        (r.0, r.1, r.2 + 1)
    }
}

/// The progress a crucible keeps after transmuting `made` with progress
/// `budget`: what is left of the budget, at most one item's worth, while it
/// can go on; none otherwise.
pub open spec fn crucible_progress(ready_before: bool, ready_after: bool, budget: u64, made: nat) -> u16 {
    let rest = budget - 1000 * made;
    if ready_before && ready_after {
        if rest < 1000 {
            rest as u16
        } else {
            1000
        }
    } else {
        0
    }
}

proof fn lemma_slot_total_update(s: Seq<Slot>, i: int, v: Slot, x: ItemId)
    requires
        0 <= i < s.len(),
    ensures
        slot_total(s.update(i, v), x) + (if s[i].item == x { s[i].count as int } else { 0 }) == slot_total(s, x) + (
        if v.item == x { v.count as int } else { 0 }),
    decreases s.len(),
{
    if i < s.len() - 1 {
        assert(s.update(i, v).drop_last() =~= s.drop_last().update(i, v));
        lemma_slot_total_update(s.drop_last(), i, v, x);
    } else {
        assert(s.update(i, v).drop_last() =~= s.drop_last());
    }
}

proof fn lemma_take_one_shrinks(s: Seq<Slot>, item: ItemId, i: int, x: ItemId)
    ensures
        slot_total(take_one_from(s, item, i), x) <= slot_total(s, x),
        take_one_from(s, item, i).len() == s.len(),
    decreases s.len() - i,
{
    if i < 0 || i >= s.len() {
    } else if !s[i].empty_spec() && s[i].item == item {
        lemma_slot_total_update(s, i, used_up(s[i], 1), x);
    } else {
        lemma_take_one_shrinks(s, item, i + 1, x);
    }
}

proof fn lemma_take_inputs_shrinks(s: Seq<Slot>, inputs: Seq<(ItemId, u32)>, x: ItemId)
    ensures
        slot_total(take_inputs(s, inputs), x) <= slot_total(s, x),
        take_inputs(s, inputs).len() == s.len(),
    decreases inputs.len(),
{
    if inputs.len() > 0 {
        lemma_take_inputs_shrinks(s, inputs.drop_last(), x);
        lemma_take_units_shrinks(take_inputs(s, inputs.drop_last()), inputs.last().0, inputs.last().1 as nat, x);
    }
}

proof fn lemma_take_units_shrinks(s: Seq<Slot>, item: ItemId, n: nat, x: ItemId)
    ensures
        slot_total(take_units(s, item, n), x) <= slot_total(s, x),
        take_units(s, item, n).len() == s.len(),
    decreases n,
{
    if n > 0 {
        lemma_take_units_shrinks(s, item, (n - 1) as nat, x);
        lemma_take_one_shrinks(take_units(s, item, (n - 1) as nat), item, 0, x);
    }
}

fn take_one(slots: &mut [Slot; 4], item: ItemId)
    ensures
        final(slots)@ == take_one_from(old(slots)@, item, 0),
{
    let ghost before = slots@;
    let mut j: usize = 0;
    while j < 4
        invariant
            0 <= j <= 4,
            slots@ == before,
            before.len() == 4,
            take_one_from(before, item, 0) == take_one_from(before, item, j as int),
        ensures
            0 <= j <= 4,
            slots@ == before,
            take_one_from(before, item, 0) == take_one_from(before, item, j as int),
            j < 4 ==> !before[j as int].empty_spec() && before[j as int].item == item,
        decreases 4 - j,
    {
        if !slots[j].is_empty() && slots[j].item == item {
            break;
        }
        j = j + 1;
    }
    if j < 4 {
        let mut slot = slots[j];
        use_up(&mut slot, 1);
        slots[j] = slot;
        assert(slots@ == before.update(j as int, used_up(before[j as int], 1)));
    }
}

/// The crucible's state after transmuting with progress `budget`: one
/// product per full `PROGRESS_PER_ITEM`, each taking one of every essence
/// its formula names, while the essences make up a formula and the output
/// slot takes the product.
pub open spec fn transmuted_state(s: CrucibleState, budget: u64) -> (Seq<Slot>, Slot, u16) {
    let r = transmute_run(s.inputs@, s.output, (budget / 1000) as nat);
    (r.0, r.1, crucible_progress(crucible_ready(s.inputs@, s.output), crucible_ready(r.0, r.1), budget, r.2))
}

fn crucible_is_ready(inputs: &[Slot], output: Slot) -> (b: bool)
    requires
        essence_totals_fit(inputs@),
    ensures
        b == crucible_ready(inputs@, output),
{
    match crucible_formula_for_slots(inputs) {
        Some(f) => output.is_empty() || output.item == f.output,
        None => false,
    }
}

/// Transmutes with progress `budget`; says whether anything was made.
pub fn transmute_crucible(state: &mut CrucibleState, budget: u64) -> (made: bool)
    requires
        essence_totals_fit(old(state).inputs@),
    ensures
        (final(state).inputs@, final(state).output, final(state).progress) == transmuted_state(*old(state), budget),
        made == (transmute_run(old(state).inputs@, old(state).output, (budget / 1000) as nat).2 > 0),
{
    let ghost s0 = *state;
    let ghost n0 = (budget / 1000) as nat;
    let ready_before = crucible_is_ready(state.inputs.as_slice(), state.output);
    let cycles = budget / PROGRESS_PER_ITEM;
    let mut done: u64 = 0;
    let mut going = true;
    while going && done < cycles
        invariant
            done <= cycles,
            cycles == budget / 1000,
            essence_totals_fit(state.inputs@),
            state.inputs@.len() == 4,
            ({
                let r = transmute_run(state.inputs@, state.output, (cycles - done) as nat);
                transmute_run(s0.inputs@, s0.output, n0) == (r.0, r.1, (r.2 + done) as nat)
            }),
            !going ==> !crucible_ready(state.inputs@, state.output),
            !ready_before ==> done == 0 && state.inputs@ == s0.inputs@ && state.output == s0.output,
            ready_before == crucible_ready(s0.inputs@, s0.output),
        decreases cycles - done + if going { 1int } else { 0int },
    {
        let formula = match crucible_formula_for_slots(state.inputs.as_slice()) {
            None => {
                going = false;
                continue;
            },
            Some(f) => f,
        };
        if !(state.output.is_empty() || state.output.item == formula.output) {
            going = false;
            continue;
        }
        let ghost k = first_formula(state.inputs@)->0;
        let ghost before = state.inputs@;
        let ghost out_before = state.output;
        let ghost m = (cycles - done) as nat;
        let mut i: usize = 0;
        while i < formula.inputs.len()
            invariant
                0 <= i <= formula.inputs@.len(),
                formula.inputs@ == formula_inputs(k),
                state.inputs@ == take_inputs(before, formula.inputs@.take(i as int)),
                state.output == out_before,
            decreases formula.inputs@.len() - i,
        {
            let (item, amount) = formula.inputs[i];
            let ghost mid = state.inputs@;
            let mut u: u32 = 0;
            while u < amount
                invariant
                    0 <= u <= amount,
                    state.inputs@ == take_units(mid, item, u as nat),
                    state.output == out_before,
                decreases amount - u,
            {
                take_one(&mut state.inputs, item);
                u = u + 1;
            }
            proof {
                let t = formula.inputs@.take(i + 1);
                assert(t.drop_last() =~= formula.inputs@.take(i as int));
                assert(t.last() == formula.inputs@[i as int]);
            }
            i = i + 1;
        }
        proof {
            assert(formula.inputs@.take(formula.inputs@.len() as int) =~= formula.inputs@);
            lemma_take_inputs_shrinks(before, formula_inputs(k), crate::inventory::ITEM_FERRIC_ESSENCE);
            lemma_take_inputs_shrinks(before, formula_inputs(k), crate::inventory::ITEM_CUPRIC_ESSENCE);
            lemma_take_inputs_shrinks(before, formula_inputs(k), crate::inventory::ITEM_UMBRAL_ESSENCE);
            lemma_take_inputs_shrinks(before, formula_inputs(k), crate::inventory::ITEM_MINERAL_ESSENCE);
        }
        assert(formula.output == formula_output(k));
        gain(&mut state.output, formula.output, 1);
        proof {
            assert(crucible_ready(before, out_before));
            assert(state.inputs@ == take_inputs(before, formula_inputs(k)));
            assert(state.output == gained(out_before, formula_output(k), 1));
            let r1 = transmute_run(state.inputs@, state.output, (m - 1) as nat);
            assert(transmute_run(before, out_before, m) == (r1.0, r1.1, r1.2 + 1));
        }
        done = done + 1;
    }
    let ready_after = crucible_is_ready(state.inputs.as_slice(), state.output);
    let rest = budget - PROGRESS_PER_ITEM * done;
    state.progress = if ready_before && ready_after {
        budget_progress(rest)
    } else {
        0
    };
    done > 0
}


/// A drill can mine into `out` while its deposit has ore left, it has coal
/// as fuel, and its output slot is empty or already holds `out`.
pub open spec fn drill_ready(amount: u16, d: DrillState, out: ItemId) -> bool {
    &&& amount > 0
    &&& d.fuel.item == ITEM_COAL
    &&& d.fuel.count > 0
    &&& (d.output.empty_spec() || d.output.item == out)
}

/// How much ore a drill on deposit `r` mines with progress `budget`: one per
/// full `PROGRESS_PER_ITEM`, while ore and fuel last.
pub open spec fn drill_count(r: ResourceCell, d: DrillState, budget: u64) -> int {
    match resource_to_item_spec(r.kind) {
        Some(out) => if drill_ready(r.amount, d, out) {
            min3((budget / 1000) as int, r.amount as int, d.fuel.count as int)
        } else {
            0
        },
        None => 0,
    }
}

/// A deposit with `k` ore taken; a worked-out deposit holds no ore.
pub open spec fn depleted(r: ResourceCell, k: int) -> ResourceCell {
    if r.amount - k == 0 {
        ResourceCell { kind: RES_NONE, amount: 0 }
    } else {
        ResourceCell { kind: r.kind, amount: (r.amount - k) as u16 }
    }
}

/// The deposit and the drill after mining with progress `budget`: as a
/// furnace smelts, with the deposit in place of the input.
pub open spec fn drilled(r: ResourceCell, d: DrillState, budget: u64) -> (ResourceCell, DrillState) {
    match resource_to_item_spec(r.kind) {
        Some(out) => if drill_ready(r.amount, d, out) {
            let k = drill_count(r, d, budget);
            let r2 = depleted(r, k);
            let t = DrillState { fuel: used_up(d.fuel, k), output: gained(d.output, out, k), progress: 0 };
            let rest = budget - 1000 * k;
            (
                r2,
                DrillState {
                    progress: if drill_ready(r2.amount, t, out) {
                        if rest < 1000 {
                            rest as u16
                        } else {
                            1000
                        }
                    } else {
                        0
                    },
                    ..t
                },
            )
        } else {
            (r, DrillState { progress: 0, ..d })
        },
        None => (r, DrillState { progress: 0, ..d }),
    }
}

fn drill_can_work(amount: u16, d: &DrillState, out: ItemId) -> (b: bool)
    ensures
        b == drill_ready(amount, *d, out),
{
    amount > 0 && d.fuel.item == ITEM_COAL && d.fuel.count > 0 && (d.output.is_empty() || d.output.item == out)
}

/// Runs the drill `drill_idx` on the deposit at `resource_idx` with progress
/// `budget`; says whether it mined anything. Indices past the vectors
/// change nothing.
pub fn advance_mining_drill(data: &mut SimChunkData, resource_idx: usize, drill_idx: usize, budget: u64) -> (mined: bool)
    ensures
        ({
            let o = *old(data);
            let f = *final(data);
            if resource_idx < o.resources@.len() && drill_idx < o.drills@.len() {
                let (r2, d2) = drilled(o.resources@[resource_idx as int], o.drills@[drill_idx as int].state, budget);
                &&& f.resources@ == o.resources@.update(resource_idx as int, r2)
                &&& f.drills@ == o.drills@.update(
                    drill_idx as int,
                    crate::containers::DrillRecord { state: d2, ..o.drills@[drill_idx as int] },
                )
                &&& mined == (drill_count(o.resources@[resource_idx as int], o.drills@[drill_idx as int].state, budget) > 0)
                &&& f == SimChunkData { resources: f.resources, drills: f.drills, ..o }
            } else {
                f == o && !mined
            }
        }),
{
    if resource_idx >= data.resources.len() || drill_idx >= data.drills.len() {
        return false;
    }
    let mut resource = data.resources[resource_idx];
    let mut drill = data.drills[drill_idx];
    let out = match resource_to_item(resource.kind) {
        Some(o) => o,
        None => {
            drill.state.progress = 0;
            data.drills[drill_idx] = drill;
            return false;
        },
    };
    if !drill_can_work(resource.amount, &drill.state, out) {
        drill.state.progress = 0;
        data.drills[drill_idx] = drill;
        return false;
    }
    let cycles = budget / PROGRESS_PER_ITEM;
    let mut k: u32 = drill.state.fuel.count;
    if (resource.amount as u32) < k {
        k = resource.amount as u32;
    }
    if cycles < k as u64 {
        k = cycles as u32;
    }
    use_up(&mut drill.state.fuel, k);
    gain(&mut drill.state.output, out, k);
    resource.amount = resource.amount - k as u16;
    if resource.amount == 0 {
        resource.kind = RES_NONE;
    }
    drill.state.progress = 0;
    let rest = budget - PROGRESS_PER_ITEM * (k as u64);
    if drill_can_work(resource.amount, &drill.state, out) {
        drill.state.progress = budget_progress(rest);
    }
    data.resources[resource_idx] = resource;
    data.drills[drill_idx] = drill;
    k > 0
}


/// The tiles of a chunk that hold a drill with a record: for each, the
/// tile's index and the index of the first drill record with its id, in
/// tile order, over the first `n` tiles.
pub open spec fn drill_tiles_upto(placed: Seq<PlacedCell>, ids: Seq<ObjectId>, n: int) -> Seq<(usize, usize)>
    decreases n,
{
    if n <= 0 {
        seq![]
    } else {
        let prev = drill_tiles_upto(placed, ids, n - 1);
        let p = placed[n - 1];
        if p.kind == PLACED_MINING_DRILL && p.object_id != 0 {
            match first_with(ids, p.object_id) {
                Some(j) => prev.push(((n - 1) as usize, j as usize)),
                None => prev,
            }
        } else {
            prev
        }
    }
}

/// The drills of a chunk, each as its tile index and record index.
pub fn drill_tiles_in_chunk(data: &SimChunkData) -> (out: Vec<(usize, usize)>)
    ensures
        out@ == drill_tiles_upto(data.placed@, drill_ids(data.drills@), data.placed@.len() as int),
{
    let mut out: Vec<(usize, usize)> = Vec::new();
    let mut i: usize = 0;
    while i < data.placed.len()
        invariant
            0 <= i <= data.placed@.len(),
            out@ == drill_tiles_upto(data.placed@, drill_ids(data.drills@), i as int),
        decreases data.placed@.len() - i,
    {
        let p = data.placed[i];
        if p.kind == PLACED_MINING_DRILL && p.object_id != 0 {
            match find_drill(data.drills.as_slice(), p.object_id) {
                Some(j) => out.push((i, j)),
                None => {},
            }
        }
        i = i + 1;
    }
    out
}

/// What an attempt to mine a tile by hand came to.
#[derive(Debug, Copy, Clone, PartialEq, Eq, Structural)]
pub enum MineAttempt {
    Mined,
    Empty,
    ChunkMissing,
}

impl MineAttempt {
    pub fn is_mined(self) -> (b: bool)
        ensures
            b == (self == MineAttempt::Mined),
    {
        match self {
            MineAttempt::Mined => true,
            _ => false,
        }
    }
}

/// The tile at chunk-local `(lx, ly)` holds ore with something left.
pub open spec fn has_ore(data: SimChunkData, lx: int, ly: int) -> bool {
    let idx = ly * 32 + lx;
    idx < data.resources@.len() && data.resources@[idx].amount > 0 && data.resources@[idx].kind != RES_NONE
}

/// The player mines one ore from the tile at chunk-local `(local_x,
/// local_y)`: the deposit loses one, and the ore's item goes to the
/// inventory as far as it fits. A tile without ore changes nothing.
pub fn mine_tile_in_chunk(data: &mut SimChunkData, inventory: &mut Inventory, local_x: i32, local_y: i32) -> (r:
    MineAttempt)
    requires
        0 <= local_x < 32,
        0 <= local_y < 32,
    ensures
        ({
            let o = *old(data);
            let f = *final(data);
            let idx = local_y * 32 + local_x;
            if has_ore(o, local_x as int, local_y as int) {
                let cell = o.resources@[idx];
                &&& r == MineAttempt::Mined
                &&& f.resources@ == o.resources@.update(idx, depleted(cell, 1))
                &&& f == SimChunkData { resources: f.resources, ..o }
                &&& final(inventory)@ == match resource_to_item_spec(cell.kind) {
                    Some(item) => add_result(old(inventory)@, item, 1),
                    None => old(inventory)@,
                }
            } else {
                &&& r == MineAttempt::Empty
                &&& f == o
                &&& final(inventory)@ == old(inventory)@
            }
        }),
{
    let idx = (local_y as usize) * 32 + (local_x as usize);
    if idx >= data.resources.len() {
        return MineAttempt::Empty;
    }
    let mut cell = data.resources[idx];
    if cell.amount == 0 || cell.kind == RES_NONE {
        return MineAttempt::Empty;
    }
    let mined_kind = cell.kind;
    cell.amount = cell.amount - 1;
    if cell.amount == 0 {
        cell.kind = RES_NONE;
    }
    data.resources[idx] = cell;
    match resource_to_item(mined_kind) {
        Some(item) => {
            inventory.add(item, 1);
        },
        None => {},
    }
    MineAttempt::Mined
}

/// Whether `item` may be placed on the tile at chunk-local `(lx, ly)`: it
/// must be a structure the player holds, the tile must not be water, a
/// drill needs ore under it, and the tile must be free.
pub open spec fn placement_allowed(
    data: SimChunkData,
    inv: Seq<(ItemId, u32)>,
    item: ItemId,
    lx: int,
    ly: int,
    seed: u64,
) -> bool {
    let idx = ly * 32 + lx;
    match placed_kind_spec(item) {
        None => false,
        Some(kind) => {
            &&& count_in(inv, item) > 0
            &&& tile_at_spec(data, lx as i32, ly as i32, seed) != WATER_TILE
            &&& (kind == PLACED_MINING_DRILL ==> has_ore(data, lx, ly))
            &&& idx < data.placed@.len()
            &&& data.placed@[idx].kind == PLACED_NONE
        },
    }
}

/// Whether `item` may be placed on the global tile `(tile_x, tile_y)` of
/// this chunk.
pub fn can_place_in_chunk(
    data: &SimChunkData,
    inventory: &Inventory,
    item: ItemId,
    tile_x: i32,
    tile_y: i32,
    world_seed: u64,
) -> (b: bool)
    ensures
        b == placement_allowed(
            *data,
            inventory@,
            item,
            chunk_split(tile_x as int).1,
            chunk_split(tile_y as int).1,
            world_seed,
        ),
{
    let placed_kind = match item_to_placed_kind(item) {
        None => return false,
        Some(k) => k,
    };
    if inventory.count(item) == 0 {
        return false;
    }
    let (_coord, local_x, local_y) = tile_to_chunk_local(tile_x, tile_y);
    let idx = (local_y as usize) * 32 + (local_x as usize);
    let tile = tile_at(data, local_x, local_y, world_seed);
    if is_water(tile) {
        return false;
    }
    if placed_kind == PLACED_MINING_DRILL {
        if idx >= data.resources.len() || data.resources[idx].kind == RES_NONE || data.resources[idx].amount == 0 {
            return false;
        }
    }
    idx < data.placed.len() && data.placed[idx].kind == PLACED_NONE
}

/// `after` is `before` with an empty chest for `id` added when none had it.
pub open spec fn chests_after_placing(before: Seq<ChestRecord>, after: Seq<ChestRecord>, id: ObjectId) -> bool {
    if first_with(chest_ids(before), id) is None {
        &&& after.len() == before.len() + 1
        &&& after.drop_last() == before
        &&& after.last().object_id == id
        &&& forall|i: int| 0 <= i < 16 ==> #[trigger] after.last().inv.slots@[i] == empty_slot()
    } else {
        after == before
    }
}

/// `after` is `before` with an idle, empty furnace for `id` added when none had it.
pub open spec fn furnaces_after_placing(before: Seq<FurnaceRecord>, after: Seq<FurnaceRecord>, id: ObjectId) -> bool {
    if first_with(furnace_ids(before), id) is None {
        after == before.push(
            FurnaceRecord {
                object_id: id,
                state: FurnaceState { input: empty_slot(), fuel: empty_slot(), output: empty_slot(), progress: 0 },
            },
        )
    } else {
        after == before
    }
}

/// `after` is `before` with an empty inserter for `id`, facing `direction`,
/// added when none had it.
pub open spec fn inserters_after_placing(
    before: Seq<InserterRecord>,
    after: Seq<InserterRecord>,
    id: ObjectId,
    direction: InserterDirection,
) -> bool {
    if first_with(inserter_ids(before), id) is None {
        &&& after.len() == before.len() + 1
        &&& after.drop_last() == before
        &&& after.last().object_id == id
        &&& after.last().direction == direction
        &&& forall|i: int| 0 <= i < 4 ==> #[trigger] after.last().inv.slots@[i] == empty_slot()
    } else {
        after == before
    }
}

/// `after` is `before` with an idle, empty drill for `id` added when none had it.
pub open spec fn drills_after_placing(before: Seq<DrillRecord>, after: Seq<DrillRecord>, id: ObjectId) -> bool {
    if first_with(drill_ids(before), id) is None {
        after == before.push(
            DrillRecord { object_id: id, state: DrillState { fuel: empty_slot(), output: empty_slot(), progress: 0 } },
        )
    } else {
        after == before
    }
}

/// `after` is `before` with an idle, empty alembic for `id` added when none had it.
pub open spec fn alembics_after_placing(before: Seq<AlembicRecord>, after: Seq<AlembicRecord>, id: ObjectId) -> bool {
    if first_with(alembic_ids(before), id) is None {
        after == before.push(
            AlembicRecord { object_id: id, state: AlembicState { input: empty_slot(), output: empty_slot(), progress: 0 } },
        )
    } else {
        after == before
    }
}

/// `after` is `before` with an idle, empty crucible for `id` added when none had it.
pub open spec fn crucibles_after_placing(before: Seq<CrucibleRecord>, after: Seq<CrucibleRecord>, id: ObjectId) -> bool {
    if first_with(crucible_ids(before), id) is None {
        &&& after.len() == before.len() + 1
        &&& after.drop_last() == before
        &&& after.last().object_id == id
        &&& forall|i: int| 0 <= i < 4 ==> #[trigger] after.last().state.inputs@[i] == empty_slot()
        &&& after.last().state.output == empty_slot()
        &&& after.last().state.progress == 0
    } else {
        after == before
    }
}

/// What placing `item` on the global tile `(tile_x, tile_y)` does to the
/// chunk `o`, giving `f`: the tile holds the structure under its id, and a
/// container structure gets a fresh record; nothing else changes.
pub open spec fn placed_in_chunk(
    o: SimChunkData,
    f: SimChunkData,
    item: ItemId,
    direction: InserterDirection,
    tile_x: i32,
    tile_y: i32,
    seed: u64,
) -> bool {
    let kind = placed_kind_spec(item).unwrap();
    let id = object_id_spec(seed, tile_x, tile_y, kind);
    let idx = chunk_split(tile_y as int).1 * 32 + chunk_split(tile_x as int).1;
    &&& f.placed@ == o.placed@.update(idx, PlacedCell { kind, object_id: id })
    &&& if kind == PLACED_CHEST {
        chests_after_placing(o.chests@, f.chests@, id)
    } else {
        f.chests@ == o.chests@
    }
    &&& if kind == PLACED_FURNACE {
        furnaces_after_placing(o.furnaces@, f.furnaces@, id)
    } else {
        f.furnaces@ == o.furnaces@
    }
    &&& if kind == PLACED_INSERTER {
        inserters_after_placing(o.inserters@, f.inserters@, id, direction)
    } else {
        f.inserters@ == o.inserters@
    }
    &&& if kind == PLACED_MINING_DRILL {
        drills_after_placing(o.drills@, f.drills@, id)
    } else {
        f.drills@ == o.drills@
    }
    &&& if kind == PLACED_ALEMBIC {
        alembics_after_placing(o.alembics@, f.alembics@, id)
    } else {
        f.alembics@ == o.alembics@
    }
    &&& if kind == PLACED_CRUCIBLE {
        crucibles_after_placing(o.crucibles@, f.crucibles@, id)
    } else {
        f.crucibles@ == o.crucibles@
    }
    &&& f == SimChunkData {
        placed: f.placed,
        chests: f.chests,
        furnaces: f.furnaces,
        inserters: f.inserters,
        drills: f.drills,
        alembics: f.alembics,
        crucibles: f.crucibles,
        ..o
    }
}

/// Places `item` from the inventory on the global tile `(tile_x, tile_y)` of
/// this chunk when the rules allow it; says whether it did.
pub fn place_in_chunk(
    data: &mut SimChunkData,
    inventory: &mut Inventory,
    item: ItemId,
    direction: InserterDirection,
    tile_x: i32,
    tile_y: i32,
    world_seed: u64,
) -> (placed: bool)
    ensures
        placed == placement_allowed(
            *old(data),
            old(inventory)@,
            item,
            chunk_split(tile_x as int).1,
            chunk_split(tile_y as int).1,
            world_seed,
        ),
        placed ==> placed_in_chunk(*old(data), *final(data), item, direction, tile_x, tile_y, world_seed)
            && final(inventory)@ == remove_result(old(inventory)@, item, 1),
        !placed ==> *final(data) == *old(data) && final(inventory)@ == old(inventory)@,
{
    if !can_place_in_chunk(data, inventory, item, tile_x, tile_y, world_seed) {
        return false;
    }
    let placed_kind = match item_to_placed_kind(item) {
        None => return false,
        Some(k) => k,
    };
    let (_coord, local_x, local_y) = tile_to_chunk_local(tile_x, tile_y);
    let idx = (local_y as usize) * 32 + (local_x as usize);
    let object_id = object_id_for_tile(world_seed, tile_x, tile_y, placed_kind);
    if !inventory.try_remove(item, 1) {
        return false;
    }
    data.placed[idx] = PlacedCell { kind: placed_kind, object_id };
    if placed_kind == PLACED_CHEST {
        if find_chest(data.chests.as_slice(), object_id).is_none() {
            data.chests.push(ChestRecord { object_id, inv: ContainerInv::default() });
            assert(data.chests@.drop_last() =~= old(data).chests@);
        }
    } else if placed_kind == PLACED_FURNACE {
        if find_furnace(data.furnaces.as_slice(), object_id).is_none() {
            data.furnaces.push(FurnaceRecord { object_id, state: FurnaceState::default() });
        }
    } else if placed_kind == PLACED_INSERTER {
        if find_inserter(data.inserters.as_slice(), object_id).is_none() {
            data.inserters.push(InserterRecord { object_id, direction, inv: InserterInv::default() });
            assert(data.inserters@.drop_last() =~= old(data).inserters@);
        }
    } else if placed_kind == PLACED_MINING_DRILL {
        if find_drill(data.drills.as_slice(), object_id).is_none() {
            data.drills.push(DrillRecord { object_id, state: DrillState::default() });
        }
    } else if placed_kind == PLACED_ALEMBIC {
        if find_alembic(data.alembics.as_slice(), object_id).is_none() {
            data.alembics.push(AlembicRecord { object_id, state: AlembicState::default() });
        }
    } else if placed_kind == PLACED_CRUCIBLE {
        if find_crucible(data.crucibles.as_slice(), object_id).is_none() {
            data.crucibles.push(CrucibleRecord { object_id, state: CrucibleState::default() });
            assert(data.crucibles@.drop_last() =~= old(data).crucibles@);
        }
    }
    proof {
        let o = *old(data);
        let f = *data;
        assert(idx == chunk_split(tile_y as int).1 * 32 + chunk_split(tile_x as int).1);
        assert(f.placed@ == o.placed@.update(idx as int, PlacedCell { kind: placed_kind, object_id }));
        assert(f == SimChunkData {
            placed: f.placed,
            chests: f.chests,
            furnaces: f.furnaces,
            inserters: f.inserters,
            drills: f.drills,
            alembics: f.alembics,
            crucibles: f.crucibles,
            ..o
        });
    }
    true
}


/// The `(item, count)` of each non-empty slot, in order.
pub open spec fn slots_pickup(slots: Seq<Slot>) -> Seq<(ItemId, u32)>
    decreases slots.len(),
{
    if slots.len() == 0 {
        seq![]
    } else {
        let p = slots_pickup(slots.drop_last());
        if slots.last().empty_spec() {
            p
        } else {
            p.push((slots.last().item, slots.last().count))
        }
    }
}

/// The structure itself, as one item, when it has an item.
pub open spec fn structure_item_pickup(kind: PlacedId) -> Seq<(ItemId, u32)> {
    match placed_item_spec(kind) {
        Some(item) => seq![(item, 1u32)],
        None => seq![],
    }
}

/// What the first container record of `kind` with `id` holds.
pub open spec fn contents_pickup(o: SimChunkData, kind: PlacedId, id: ObjectId) -> Seq<(ItemId, u32)> {
    if kind == PLACED_CHEST {
        match first_with(chest_ids(o.chests@), id) {
            Some(i) => slots_pickup(o.chests@[i].inv.slots@),
            None => seq![],
        }
    } else if kind == PLACED_FURNACE {
        match first_with(furnace_ids(o.furnaces@), id) {
            Some(i) => {
                let st = o.furnaces@[i].state;
                slots_pickup(seq![st.input, st.fuel, st.output])
            },
            None => seq![],
        }
    } else if kind == PLACED_INSERTER {
        match first_with(inserter_ids(o.inserters@), id) {
            Some(i) => slots_pickup(o.inserters@[i].inv.slots@),
            None => seq![],
        }
    } else if kind == PLACED_MINING_DRILL {
        match first_with(drill_ids(o.drills@), id) {
            Some(i) => {
                let st = o.drills@[i].state;
                slots_pickup(seq![st.fuel, st.output])
            },
            None => seq![],
        }
    } else if kind == PLACED_ALEMBIC {
        match first_with(alembic_ids(o.alembics@), id) {
            Some(i) => {
                let st = o.alembics@[i].state;
                slots_pickup(seq![st.input, st.output])
            },
            None => seq![],
        }
    } else if kind == PLACED_CRUCIBLE {
        match first_with(crucible_ids(o.crucibles@), id) {
            Some(i) => {
                let st = o.crucibles@[i].state;
                slots_pickup(st.inputs@.push(st.output))
            },
            None => seq![],
        }
    } else {
        seq![]
    }
}

/// `s` without its element at `first`, when there is one.
pub open spec fn without<T>(s: Seq<T>, first: Option<int>) -> Seq<T> {
    match first {
        Some(i) => s.remove(i),
        None => s,
    }
}

/// `f` is `o` with the first container record of `kind` with `id` removed.
pub open spec fn container_removed(o: SimChunkData, f: SimChunkData, kind: PlacedId, id: ObjectId) -> bool {
    &&& f.chests@ == if kind == PLACED_CHEST {
        without(o.chests@, first_with(chest_ids(o.chests@), id))
    } else {
        o.chests@
    }
    &&& f.furnaces@ == if kind == PLACED_FURNACE {
        without(o.furnaces@, first_with(furnace_ids(o.furnaces@), id))
    } else {
        o.furnaces@
    }
    &&& f.inserters@ == if kind == PLACED_INSERTER {
        without(o.inserters@, first_with(inserter_ids(o.inserters@), id))
    } else {
        o.inserters@
    }
    &&& f.drills@ == if kind == PLACED_MINING_DRILL {
        without(o.drills@, first_with(drill_ids(o.drills@), id))
    } else {
        o.drills@
    }
    &&& f.alembics@ == if kind == PLACED_ALEMBIC {
        without(o.alembics@, first_with(alembic_ids(o.alembics@), id))
    } else {
        o.alembics@
    }
    &&& f.crucibles@ == if kind == PLACED_CRUCIBLE {
        without(o.crucibles@, first_with(crucible_ids(o.crucibles@), id))
    } else {
        o.crucibles@
    }
    &&& f == SimChunkData {
        chests: f.chests,
        furnaces: f.furnaces,
        inserters: f.inserters,
        drills: f.drills,
        alembics: f.alembics,
        crucibles: f.crucibles,
        ..o
    }
}

/// Adds a slot's contents to the pickups when it holds anything.
pub fn push_slot_pickup(pickups: &mut Vec<(ItemId, u32)>, slot: Slot)
    ensures
        final(pickups)@ == if slot.empty_spec() {
            old(pickups)@
        } else {
            old(pickups)@.push((slot.item, slot.count))
        },
{
    if !slot.is_empty() {
        pickups.push((slot.item, slot.count));
    }
}

fn push_slots_pickup(pickups: &mut Vec<(ItemId, u32)>, slots: &[Slot])
    ensures
        final(pickups)@ == old(pickups)@ + slots_pickup(slots@),
{
    let mut j: usize = 0;
    assert(slots@.take(0) =~= Seq::<Slot>::empty());
    assert(old(pickups)@ + slots_pickup(Seq::<Slot>::empty()) =~= old(pickups)@);
    while j < slots.len()
        invariant
            0 <= j <= slots@.len(),
            pickups@ == old(pickups)@ + slots_pickup(slots@.take(j as int)),
        decreases slots@.len() - j,
    {
        push_slot_pickup(pickups, slots[j]);
        proof {
            assert(slots@.take(j + 1).drop_last() =~= slots@.take(j as int));
            assert(slots@.take(j + 1).last() == slots@[j as int]);
            if !slots@[j as int].empty_spec() {
                assert(old(pickups)@ + slots_pickup(slots@.take(j + 1)) =~= (old(pickups)@ + slots_pickup(
                    slots@.take(j as int),
                )).push((slots@[j as int].item, slots@[j as int].count)));
            }
        }
        j = j + 1;
    }
    proof {
        assert(slots@.take(slots@.len() as int) =~= slots@);
    }
}

/// Removes the container record of a structure being picked up and lists
/// what the player gets back: the structure's item, then what it held.
pub fn collect_structure_pickup_items(data: &mut SimChunkData, kind: PlacedId, object_id: ObjectId) -> (pickups: Vec<
    (ItemId, u32),
>)
    ensures
        pickups@ == structure_item_pickup(kind) + contents_pickup(*old(data), kind, object_id),
        container_removed(*old(data), *final(data), kind, object_id),
{
    let mut pickups: Vec<(ItemId, u32)> = Vec::new();
    match placed_kind_to_item(kind) {
        Some(item) => pickups.push((item, 1)),
        None => {},
    }
    let ghost head = pickups@;
    assert(head == structure_item_pickup(kind));
    if kind == PLACED_CHEST {
        match find_chest(data.chests.as_slice(), object_id) {
            Some(index) => {
                let chest = data.chests.remove(index);
                push_slots_pickup(&mut pickups, chest.inv.slots.as_slice());
            },
            None => {},
        }
    } else if kind == PLACED_FURNACE {
        match find_furnace(data.furnaces.as_slice(), object_id) {
            Some(index) => {
                let furnace = data.furnaces.remove(index);
                let slots: [Slot; 3] = [furnace.state.input, furnace.state.fuel, furnace.state.output];
                assert(slots@ =~= seq![furnace.state.input, furnace.state.fuel, furnace.state.output]);
                push_slots_pickup(&mut pickups, slots.as_slice());
            },
            None => {},
        }
    } else if kind == PLACED_INSERTER {
        match find_inserter(data.inserters.as_slice(), object_id) {
            Some(index) => {
                let inserter = data.inserters.remove(index);
                push_slots_pickup(&mut pickups, inserter.inv.slots.as_slice());
            },
            None => {},
        }
    } else if kind == PLACED_MINING_DRILL {
        match find_drill(data.drills.as_slice(), object_id) {
            Some(index) => {
                let drill = data.drills.remove(index);
                let slots: [Slot; 2] = [drill.state.fuel, drill.state.output];
                assert(slots@ =~= seq![drill.state.fuel, drill.state.output]);
                push_slots_pickup(&mut pickups, slots.as_slice());
            },
            None => {},
        }
    } else if kind == PLACED_ALEMBIC {
        match find_alembic(data.alembics.as_slice(), object_id) {
            Some(index) => {
                let alembic = data.alembics.remove(index);
                let slots: [Slot; 2] = [alembic.state.input, alembic.state.output];
                assert(slots@ =~= seq![alembic.state.input, alembic.state.output]);
                push_slots_pickup(&mut pickups, slots.as_slice());
            },
            None => {},
        }
    } else if kind == PLACED_CRUCIBLE {
        match find_crucible(data.crucibles.as_slice(), object_id) {
            Some(index) => {
                let crucible = data.crucibles.remove(index);
                let st = crucible.state;
                let slots: [Slot; 5] = [st.inputs[0], st.inputs[1], st.inputs[2], st.inputs[3], st.output];
                assert(slots@ =~= st.inputs@.push(st.output));
                push_slots_pickup(&mut pickups, slots.as_slice());
            },
            None => {},
        }
    }
    proof {
        if contents_pickup(*old(data), kind, object_id).len() == 0 {
            assert(pickups@ =~= head + contents_pickup(*old(data), kind, object_id));
        }
    }
    pickups
}

/// The structure on the tile at chunk-local `(lx, ly)` that can be picked
/// up: one with an id and an item to give back.
pub open spec fn pickup_target_spec(data: SimChunkData, lx: int, ly: int) -> Option<PlacedCell> {
    let idx = ly * 32 + lx;
    if idx < data.placed@.len() && data.placed@[idx].object_id != 0 && placed_item_spec(
        data.placed@[idx].kind,
    ) is Some {
        Some(data.placed@[idx])
    } else {
        None
    }
}

/// The structure on the tile at chunk-local `(local_x, local_y)` that the
/// player could pick up, if any.
pub fn pickup_target_in_chunk(data: &SimChunkData, local_x: i32, local_y: i32) -> (r: Option<PlacedCell>)
    requires
        0 <= local_x < 32,
        0 <= local_y < 32,
    ensures
        r == pickup_target_spec(*data, local_x as int, local_y as int),
{
    let idx = (local_y as usize) * 32 + (local_x as usize);
    if idx >= data.placed.len() {
        return None;
    }
    let cell = data.placed[idx];
    if cell.object_id == 0 || placed_kind_to_item(cell.kind).is_none() {
        return None;
    }
    Some(cell)
}

fn add_each(inventory: &mut Inventory, entries: &[(ItemId, u32)])
    ensures
        final(inventory)@ == adds_onto(old(inventory)@, entries@),
{
    let mut i: usize = 0;
    assert(entries@.take(0) =~= Seq::<(ItemId, u32)>::empty());
    while i < entries.len()
        invariant
            0 <= i <= entries@.len(),
            inventory@ == adds_onto(old(inventory)@, entries@.take(i as int)),
        decreases entries@.len() - i,
    {
        let (item, amount) = entries[i];
        inventory.add(item, amount);
        proof {
            assert(entries@.take(i + 1).drop_last() =~= entries@.take(i as int));
        }
        i = i + 1;
    }
    proof {
        assert(entries@.take(entries@.len() as int) =~= entries@);
    }
}

/// Picks up the structure `kind` with `object_id` from the tile at
/// chunk-local `(local_x, local_y)`, if it is still there: the tile is
/// cleared, its container record removed, and the structure and its
/// contents go to the inventory as far as they fit.
pub fn pick_up_structure(
    data: &mut SimChunkData,
    inventory: &mut Inventory,
    local_x: i32,
    local_y: i32,
    kind: PlacedId,
    object_id: ObjectId,
) -> (picked: bool)
    requires
        0 <= local_x < 32,
        0 <= local_y < 32,
    ensures
        ({
            let o = *old(data);
            let f = *final(data);
            let idx = local_y * 32 + local_x;
            &&& picked == (idx < o.placed@.len() && o.placed@[idx].kind == kind && o.placed@[idx].object_id
                == object_id)
            &&& picked ==> {
                &&& f.placed@ == o.placed@.update(idx, PlacedCell { kind: PLACED_NONE, object_id: 0 })
                &&& container_removed(o, SimChunkData { placed: o.placed, ..f }, kind, object_id)
                &&& final(inventory)@ == adds_onto(
                    old(inventory)@,
                    structure_item_pickup(kind) + contents_pickup(o, kind, object_id),
                )
            }
            &&& !picked ==> f == o && final(inventory)@ == old(inventory)@
        }),
{
    let idx = (local_y as usize) * 32 + (local_x as usize);
    if idx >= data.placed.len() {
        return false;
    }
    let current = data.placed[idx];
    if current.kind != kind || current.object_id != object_id {
        return false;
    }
    let ghost o = *data;
    let pickups = collect_structure_pickup_items(data, current.kind, current.object_id);
    let ghost mid = *data;
    data.placed[idx] = PlacedCell { kind: PLACED_NONE, object_id: 0 };
    proof {
        assert(mid.placed == o.placed);
        assert(SimChunkData { placed: o.placed, ..*data } == mid);
    }
    add_each(inventory, pickups.as_slice());
    true
}


proof fn lemma_empty_slots_give_nothing(slots: Seq<Slot>)
    requires
        forall|i: int| 0 <= i < slots.len() ==> (#[trigger] slots[i]).empty_spec(),
    ensures
        slots_pickup(slots) == Seq::<(ItemId, u32)>::empty(),
    decreases slots.len(),
{
    if slots.len() > 0 {
        let p = slots.drop_last();
        assert forall|i: int| 0 <= i < p.len() implies (#[trigger] p[i]).empty_spec() by {
            assert(p[i] == slots[i]);
        }
        lemma_empty_slots_give_nothing(p);
        assert(slots[slots.len() - 1].empty_spec());
    }
}

/// A fresh record appended to records none of which has its id is the
/// first with that id, and removing it gives back the old records.
proof fn lemma_appended_first<T>(before: Seq<T>, after: Seq<T>, ids_before: Seq<ObjectId>, ids_after: Seq<ObjectId>, id: ObjectId)
    requires
        after.len() == before.len() + 1,
        after.drop_last() == before,
        ids_after.len() == after.len(),
        ids_before == ids_after.drop_last(),
        ids_after.last() == id,
        first_with(ids_before, id) is None,
    ensures
        first_with(ids_after, id) == Some(before.len() as int),
        without(after, first_with(ids_after, id)) == before,
{
    lemma_first_with_none(ids_before, id);
    assert(ids_after[before.len() as int] == id);
    assert forall|j: int| 0 <= j < before.len() implies ids_after[j] != id by {
        assert(ids_after[j] == ids_before[j]);
    }
    lemma_first_with_found(ids_after, id, before.len() as int);
    assert(after.remove(before.len() as int) =~= before);
}


/// The machine records of `d2` are those of `d0`.
pub open spec fn container_restored(d0: SimChunkData, d2: SimChunkData, kind: PlacedId) -> bool {
    &&& d2.chests@ == d0.chests@
    &&& d2.furnaces@ == d0.furnaces@
    &&& d2.inserters@ == d0.inserters@
    &&& d2.drills@ == d0.drills@
    &&& d2.alembics@ == d0.alembics@
    &&& d2.crucibles@ == d0.crucibles@
}

proof fn lemma_fresh_record_taken_back(
    d0: SimChunkData,
    d1: SimChunkData,
    d2: SimChunkData,
    kind: PlacedId,
    id: ObjectId,
    direction: InserterDirection,
)
    requires
        id_unused(d0, kind, id),
        if kind == PLACED_CHEST {
            chests_after_placing(d0.chests@, d1.chests@, id)
        } else {
            d1.chests@ == d0.chests@
        },
        if kind == PLACED_FURNACE {
            furnaces_after_placing(d0.furnaces@, d1.furnaces@, id)
        } else {
            d1.furnaces@ == d0.furnaces@
        },
        if kind == PLACED_INSERTER {
            inserters_after_placing(d0.inserters@, d1.inserters@, id, direction)
        } else {
            d1.inserters@ == d0.inserters@
        },
        if kind == PLACED_MINING_DRILL {
            drills_after_placing(d0.drills@, d1.drills@, id)
        } else {
            d1.drills@ == d0.drills@
        },
        if kind == PLACED_ALEMBIC {
            alembics_after_placing(d0.alembics@, d1.alembics@, id)
        } else {
            d1.alembics@ == d0.alembics@
        },
        if kind == PLACED_CRUCIBLE {
            crucibles_after_placing(d0.crucibles@, d1.crucibles@, id)
        } else {
            d1.crucibles@ == d0.crucibles@
        },
        container_removed(d1, SimChunkData { placed: d1.placed, ..d2 }, kind, id),
    ensures
        contents_pickup(d1, kind, id) =~= Seq::<(ItemId, u32)>::empty(),
        container_restored(d0, d2, kind),
{
    if kind == PLACED_CHEST {
        assert(chest_ids(d1.chests@).drop_last() =~= chest_ids(d0.chests@));
        lemma_appended_first(d0.chests@, d1.chests@, chest_ids(d0.chests@), chest_ids(d1.chests@), id);
        let slots = d1.chests@[d0.chests@.len() as int].inv.slots@;
        assert forall|i: int| 0 <= i < slots.len() implies (#[trigger] slots[i]).empty_spec() by {}
        lemma_empty_slots_give_nothing(slots);
    } else if kind == PLACED_FURNACE {
        assert(d1.furnaces@.drop_last() =~= d0.furnaces@);
        assert(furnace_ids(d1.furnaces@).drop_last() =~= furnace_ids(d0.furnaces@));
        lemma_appended_first(d0.furnaces@, d1.furnaces@, furnace_ids(d0.furnaces@), furnace_ids(d1.furnaces@), id);
        let st = d1.furnaces@[d0.furnaces@.len() as int].state;
        let slots = seq![st.input, st.fuel, st.output];
        assert forall|i: int| 0 <= i < slots.len() implies (#[trigger] slots[i]).empty_spec() by {}
        lemma_empty_slots_give_nothing(slots);
    } else if kind == PLACED_INSERTER {
        assert(inserter_ids(d1.inserters@).drop_last() =~= inserter_ids(d0.inserters@));
        lemma_appended_first(d0.inserters@, d1.inserters@, inserter_ids(d0.inserters@), inserter_ids(d1.inserters@), id);
        let slots = d1.inserters@[d0.inserters@.len() as int].inv.slots@;
        assert forall|i: int| 0 <= i < slots.len() implies (#[trigger] slots[i]).empty_spec() by {}
        lemma_empty_slots_give_nothing(slots);
    } else if kind == PLACED_MINING_DRILL {
        assert(d1.drills@.drop_last() =~= d0.drills@);
        assert(drill_ids(d1.drills@).drop_last() =~= drill_ids(d0.drills@));
        lemma_appended_first(d0.drills@, d1.drills@, drill_ids(d0.drills@), drill_ids(d1.drills@), id);
        let st = d1.drills@[d0.drills@.len() as int].state;
        let slots = seq![st.fuel, st.output];
        assert forall|i: int| 0 <= i < slots.len() implies (#[trigger] slots[i]).empty_spec() by {}
        lemma_empty_slots_give_nothing(slots);
    } else if kind == PLACED_ALEMBIC {
        assert(d1.alembics@.drop_last() =~= d0.alembics@);
        assert(alembic_ids(d1.alembics@).drop_last() =~= alembic_ids(d0.alembics@));
        lemma_appended_first(d0.alembics@, d1.alembics@, alembic_ids(d0.alembics@), alembic_ids(d1.alembics@), id);
        let st = d1.alembics@[d0.alembics@.len() as int].state;
        let slots = seq![st.input, st.output];
        assert forall|i: int| 0 <= i < slots.len() implies (#[trigger] slots[i]).empty_spec() by {}
        lemma_empty_slots_give_nothing(slots);
    } else if kind == PLACED_CRUCIBLE {
        assert(crucible_ids(d1.crucibles@).drop_last() =~= crucible_ids(d0.crucibles@));
        lemma_appended_first(d0.crucibles@, d1.crucibles@, crucible_ids(d0.crucibles@), crucible_ids(d1.crucibles@), id);
        let st = d1.crucibles@[d0.crucibles@.len() as int].state;
        let slots = st.inputs@.push(st.output);
        assert forall|i: int| 0 <= i < slots.len() implies (#[trigger] slots[i]).empty_spec() by {
            if i < 4 {
                assert(slots[i] == st.inputs@[i]);
            }
        }
        lemma_empty_slots_give_nothing(slots);
    }
}

/// No machine record of the vector that `kind` uses has the id `id`.
pub open spec fn id_unused(d: SimChunkData, kind: PlacedId, id: ObjectId) -> bool {
    &&& kind == PLACED_CHEST ==> first_with(chest_ids(d.chests@), id) is None
    &&& kind == PLACED_FURNACE ==> first_with(furnace_ids(d.furnaces@), id) is None
    &&& kind == PLACED_INSERTER ==> first_with(inserter_ids(d.inserters@), id) is None
    &&& kind == PLACED_MINING_DRILL ==> first_with(drill_ids(d.drills@), id) is None
    &&& kind == PLACED_ALEMBIC ==> first_with(alembic_ids(d.alembics@), id) is None
    &&& kind == PLACED_CRUCIBLE ==> first_with(crucible_ids(d.crucibles@), id) is None
}

/// Placing a structure on an empty tile and then picking it up again gives
/// back the chunk and the inventory as they were, provided no machine
/// record already used the structure's id.
pub proof fn lemma_place_then_pick_up(
    d0: SimChunkData,
    d1: SimChunkData,
    d2: SimChunkData,
    inv0: Seq<(ItemId, u32)>,
    item: ItemId,
    direction: InserterDirection,
    tile_x: i32,
    tile_y: i32,
    seed: u64,
)
    requires
        wf_entries(inv0),
        placement_allowed(d0, inv0, item, chunk_split(tile_x as int).1, chunk_split(tile_y as int).1, seed),
        d0.placed@[chunk_split(tile_y as int).1 * 32 + chunk_split(tile_x as int).1] == nothing_placed(),
        id_unused(d0, placed_kind_spec(item).unwrap(), object_id_spec(seed, tile_x, tile_y, placed_kind_spec(item).unwrap())),
        placed_in_chunk(d0, d1, item, direction, tile_x, tile_y, seed),
        d2.placed@ == d1.placed@.update(
            chunk_split(tile_y as int).1 * 32 + chunk_split(tile_x as int).1,
            PlacedCell { kind: PLACED_NONE, object_id: 0 },
        ),
        container_removed(
            d1,
            SimChunkData { placed: d1.placed, ..d2 },
            placed_kind_spec(item).unwrap(),
            object_id_spec(seed, tile_x, tile_y, placed_kind_spec(item).unwrap()),
        ),
    ensures
        d2@ == d0@,
        adds_onto(
            remove_result(inv0, item, 1),
            structure_item_pickup(placed_kind_spec(item).unwrap()) + contents_pickup(
                d1,
                placed_kind_spec(item).unwrap(),
                object_id_spec(seed, tile_x, tile_y, placed_kind_spec(item).unwrap()),
            ),
        ) == inv0,
{
    let kind = placed_kind_spec(item).unwrap();
    let id = object_id_spec(seed, tile_x, tile_y, kind);
    let idx = chunk_split(tile_y as int).1 * 32 + chunk_split(tile_x as int).1;
    lemma_place_pickup_round_trip(item, kind);
    assert(d2.placed@ =~= d0.placed@);
    let contents = contents_pickup(d1, kind, id);
    assert(contents =~= Seq::<(ItemId, u32)>::empty() && container_restored(d0, d2, kind)) by {
        lemma_fresh_record_taken_back(d0, d1, d2, kind, id, direction);
    }
    assert(contents =~= Seq::<(ItemId, u32)>::empty());
    let entries = structure_item_pickup(kind) + contents;
    assert(entries =~= seq![(item, 1u32)]);
    assert(entries.drop_last() =~= Seq::<(ItemId, u32)>::empty());
    lemma_remove_then_add_restores(inv0, item);
    assert(adds_onto(remove_result(inv0, item, 1), entries) == add_result(
        adds_onto(remove_result(inv0, item, 1), entries.drop_last()),
        item,
        1,
    ));
    assert(d2@ =~= d0@);
}


/// How many items a slot holds: none when it is empty.
pub open spec fn amount_in(s: Slot) -> int {
    if s.empty_spec() {
        0
    } else {
        s.count as int
    }
}

/// Smelting makes one product per input and per fuel it uses, never more
/// than the input and fuel allow, and keeps at most one item's progress.
pub proof fn lemma_smelting_conserves(s: FurnaceState, budget: u64)
    ensures
        ({
            let t = smelted_state(s, budget);
            let k = smelt_count(s, budget);
            &&& 0 <= k <= amount_in(s.input)
            &&& k <= amount_in(s.fuel)
            &&& amount_in(t.input) == amount_in(s.input) - k
            &&& amount_in(t.fuel) == amount_in(s.fuel) - k
            &&& amount_in(s.output) + k <= u32::MAX ==> amount_in(t.output) == amount_in(s.output) + k
            &&& t.progress <= 1000
        }),
{
}

/// Distilling makes one essence per reagent it uses, of that reagent's
/// essence, never more than the reagents allow, and keeps at most one
/// item's progress.
pub proof fn lemma_distilling_conserves(s: AlembicState, budget: u64)
    ensures
        ({
            let t = distilled_state(s, budget);
            let k = distil_count(s, budget);
            &&& 0 <= k <= amount_in(s.input)
            &&& amount_in(t.input) == amount_in(s.input) - k
            &&& amount_in(s.output) + k <= u32::MAX ==> amount_in(t.output) == amount_in(s.output) + k
            &&& k > 0 ==> t.output.item == essence_spec(s.input.item)->0
            &&& t.progress <= 1000
        }),
{
}

/// Each reagent distils into its own essence: iron ore into ferric, copper
/// ore into cupric, coal into umbral and stone into mineral essence.
pub proof fn lemma_distil_products(s: AlembicState, budget: u64)
    ensures
        distil_count(s, budget) > 0 ==> {
            let made = distilled_state(s, budget).output.item;
            &&& s.input.item == crate::inventory::ITEM_IRON_ORE ==> made == crate::inventory::ITEM_FERRIC_ESSENCE
            &&& s.input.item == crate::inventory::ITEM_COPPER_ORE ==> made == crate::inventory::ITEM_CUPRIC_ESSENCE
            &&& s.input.item == crate::inventory::ITEM_COAL ==> made == crate::inventory::ITEM_UMBRAL_ESSENCE
            &&& s.input.item == crate::inventory::ITEM_STONE ==> made == crate::inventory::ITEM_MINERAL_ESSENCE
        },
{
}

/// A drill takes one ore from its deposit and burns one fuel per item it
/// makes, and keeps at most one item's progress.
pub proof fn lemma_drilling_conserves(r: ResourceCell, d: DrillState, budget: u64)
    ensures
        ({
            let (r2, d2) = drilled(r, d, budget);
            let k = drill_count(r, d, budget);
            &&& 0 <= k <= r.amount
            &&& r2.amount == r.amount - k
            &&& amount_in(d2.fuel) == amount_in(d.fuel) - k
            &&& amount_in(d.output) + k <= u32::MAX ==> amount_in(d2.output) == amount_in(d.output) + k
            &&& d2.progress <= 1000
        }),
{
}


/// Puts `amount` of `item` back into a machine's output slot: it fills an
/// empty slot or adds to the same item, and is refused by a slot holding
/// something else. Returns how much went in.
pub fn deposit_to_slot_unchecked(slot: &mut Slot, item: ItemId, amount: u32) -> (moved: u32)
    ensures
        (*final(slot), moved) == deposit_spec(*old(slot), item, amount),
{
    if item == crate::inventory::ITEM_NONE || amount == 0 {
        return 0;
    }
    if slot.is_empty() {
        slot.item = item;
        slot.count = amount;
        return amount;
    }
    if slot.item == item {
        slot.count = slot.count.saturating_add(amount);
        return amount;
    }
    0
}

} // verus!
