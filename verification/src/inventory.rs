//! Item identifiers and the player's stack-limited inventory.
use vstd::prelude::*;

verus! {

pub type ItemId = u16;

pub const ITEM_NONE: ItemId = 0;

pub const ITEM_IRON_ORE: ItemId = 1;

pub const ITEM_COPPER_ORE: ItemId = 2;

pub const ITEM_COAL: ItemId = 3;

pub const ITEM_STONE: ItemId = 4;

pub const ITEM_IRON_PLATE: ItemId = 5;

pub const ITEM_COPPER_PLATE: ItemId = 6;

pub const ITEM_FURNACE: ItemId = 7;

pub const ITEM_CHEST: ItemId = 8;

pub const ITEM_INSERTER: ItemId = 9;

pub const ITEM_MINING_DRILL: ItemId = 10;

pub const ITEM_ALEMBIC: ItemId = 11;

pub const ITEM_FERRIC_ESSENCE: ItemId = 12;

pub const ITEM_CUPRIC_ESSENCE: ItemId = 13;

pub const ITEM_UMBRAL_ESSENCE: ItemId = 14;

pub const ITEM_MINERAL_ESSENCE: ItemId = 15;

pub const ITEM_CRUCIBLE: ItemId = 16;

pub const ITEM_LODESTONE: ItemId = 17;

pub const ITEM_BRASS_CORE: ItemId = 18;

pub const ITEM_CINDER_GLASS: ItemId = 19;

pub const ITEM_QUINTESSENCE: ItemId = 20;

/// Number of stack slots the inventory offers.
pub const INVENTORY_SLOT_COUNT: usize = 32;

/// Largest count a single inventory stack holds.
pub const INVENTORY_MAX_STACK: u32 = 100;


/// One displayed stack of an inventory.
#[derive(Debug, Copy, Clone, PartialEq, Eq, Structural)]
pub struct InventoryStack {
    pub item: ItemId,
    pub count: u32,
}

/// Stack slots that `count` items of one kind occupy.
pub open spec fn stack_slots(count: u32) -> nat {
    ((count as nat + 99) / 100) as nat
}

/// Stack slots occupied by all entries.
pub open spec fn slots_used(s: Seq<(ItemId, u32)>) -> nat
    decreases s.len(),
{
    if s.len() == 0 {
        0
    } else {
        slots_used(s.drop_last()) + stack_slots(s.last().1)
    }
}

/// The count held of `item` (zero when absent).
pub open spec fn count_in(s: Seq<(ItemId, u32)>, item: ItemId) -> u32 {
    if exists|i: int| 0 <= i < s.len() && s[i].0 == item {
        s[choose|i: int| 0 <= i < s.len() && s[i].0 == item].1
    } else {
        0
    }
}

/// Entries are strictly ordered by item.
pub open spec fn sorted_keys(s: Seq<(ItemId, u32)>) -> bool {
    forall|i: int, j: int| 0 <= i < j < s.len() ==> s[i].0 < s[j].0
}

/// Well-formed inventory contents: one entry per held item, ordered by item,
/// never the empty item, never a zero count, and within the slot limit.
pub open spec fn wf_entries(s: Seq<(ItemId, u32)>) -> bool {
    &&& sorted_keys(s)
    &&& forall|i: int| 0 <= i < s.len() ==> (#[trigger] s[i]).0 != ITEM_NONE && s[i].1 > 0
    &&& slots_used(s) <= INVENTORY_SLOT_COUNT
}

/// Room left for `item`: the gap in its partial stack plus whole free slots.
pub open spec fn capacity_for(s: Seq<(ItemId, u32)>, item: ItemId) -> nat {
    let current = count_in(s, item);
    let partial: nat = if current == 0 || current % 100 == 0 {
        0
    } else {
        (100 - current % 100) as nat
    };
    let free: nat = if slots_used(s) >= 32 { 0 } else { (32 - slots_used(s)) as nat };
    partial + free * 100
}

/// How much of `amount` the inventory `s` would take of `item`.
pub open spec fn acceptable_spec(s: Seq<(ItemId, u32)>, item: ItemId, amount: u32) -> u32 {
    if item == ITEM_NONE || amount == 0 {
        0
    } else if amount <= capacity_for(s, item) {
        amount
    } else {
        capacity_for(s, item) as u32
    }
}

/// The stacks that `count` items of `item` are shown as: full stacks first,
/// then the remainder.
pub open spec fn expand_stacks(item: ItemId, count: u32) -> Seq<InventoryStack> {
    Seq::new(
        stack_slots(count),
        |k: int|
            if k < count / 100 {
                InventoryStack { item, count: 100 }
            } else {
                InventoryStack { item, count: (count % 100) as u32 }
            },
    )
}

/// All stacks of an inventory, in item order.
pub open spec fn stacks_of(s: Seq<(ItemId, u32)>) -> Seq<InventoryStack>
    decreases s.len(),
{
    if s.len() == 0 {
        seq![]
    } else {
        stacks_of(s.drop_last()) + expand_stacks(s.last().0, s.last().1)
    }
}

pub proof fn lemma_count_at(s: Seq<(ItemId, u32)>, i: int)
    requires
        sorted_keys(s),
        0 <= i < s.len(),
    ensures
        count_in(s, s[i].0) == s[i].1,
{
    let c = choose|k: int| 0 <= k < s.len() && s[k].0 == s[i].0;
    assert(0 <= c < s.len() && s[c].0 == s[i].0);
    if c < i {
        assert(s[c].0 < s[i].0);
    } else if i < c {
        assert(s[i].0 < s[c].0);
    }
}

pub proof fn lemma_count_absent(s: Seq<(ItemId, u32)>, item: ItemId)
    requires
        forall|i: int| 0 <= i < s.len() ==> s[i].0 != item,
    ensures
        count_in(s, item) == 0,
{
}

proof fn lemma_slots_used_update(s: Seq<(ItemId, u32)>, i: int, v: (ItemId, u32))
    requires
        0 <= i < s.len(),
    ensures
        slots_used(s.update(i, v)) + stack_slots(s[i].1) == slots_used(s) + stack_slots(v.1),
    decreases s.len(),
{
    let t = s.update(i, v);
    if i == s.len() - 1 {
        assert(t.drop_last() =~= s.drop_last());
    } else {
        assert(t.drop_last() =~= s.drop_last().update(i, v));
        lemma_slots_used_update(s.drop_last(), i, v);
    }
}

proof fn lemma_slots_used_insert(s: Seq<(ItemId, u32)>, i: int, v: (ItemId, u32))
    requires
        0 <= i <= s.len(),
    ensures
        slots_used(s.insert(i, v)) == slots_used(s) + stack_slots(v.1),
    decreases s.len(),
{
    let t = s.insert(i, v);
    if i == s.len() {
        assert(t.drop_last() =~= s);
    } else {
        assert(t.drop_last() =~= s.drop_last().insert(i, v));
        lemma_slots_used_insert(s.drop_last(), i, v);
    }
}

proof fn lemma_slots_used_remove(s: Seq<(ItemId, u32)>, i: int)
    requires
        0 <= i < s.len(),
    ensures
        slots_used(s.remove(i)) + stack_slots(s[i].1) == slots_used(s),
    decreases s.len(),
{
    let t = s.remove(i);
    if i == s.len() - 1 {
        assert(t =~= s.drop_last());
    } else {
        assert(t.drop_last() =~= s.drop_last().remove(i));
        lemma_slots_used_remove(s.drop_last(), i);
    }
}

proof fn lemma_entry_slots_bounded(s: Seq<(ItemId, u32)>, i: int)
    requires
        0 <= i < s.len(),
    ensures
        stack_slots(s[i].1) <= slots_used(s),
    decreases s.len(),
{
    if i < s.len() - 1 {
        lemma_entry_slots_bounded(s.drop_last(), i);
    }
}

proof fn lemma_slots_used_prefix(s: Seq<(ItemId, u32)>, n: int)
    requires
        0 <= n <= s.len(),
    ensures
        slots_used(s.take(n)) <= slots_used(s),
    decreases s.len(),
{
    if n < s.len() {
        assert(s.drop_last().take(n) =~= s.take(n));
        lemma_slots_used_prefix(s.drop_last(), n);
    } else {
        assert(s.take(n) =~= s);
    }
}


/// The partial-stack gap of `current` items: what tops up the last stack.
pub open spec fn partial_gap(current: u32) -> nat {
    if current == 0 || current % 100 == 0 {
        0
    } else {
        (100 - current % 100) as nat
    }
}

proof fn lemma_gap_fills_stack(cur: u32)
    ensures
        cur + partial_gap(cur) == stack_slots(cur) * 100,
{
    assert(cur + partial_gap(cur) == stack_slots(cur) * 100) by (nonlinear_arith)
        requires
            partial_gap(cur) == (if cur == 0 || cur % 100 == 0 {
                0
            } else {
                (100 - cur % 100) as nat
            }),
            stack_slots(cur) == ((cur as nat + 99) / 100) as nat,
    ;
}

proof fn lemma_stack_growth(cur: u32, moved: nat, free: nat)
    requires
        moved <= partial_gap(cur) + free * 100,
    ensures
        cur + moved <= (stack_slots(cur) + free) * 100,
        cur + moved <= u32::MAX ==> stack_slots((cur + moved) as u32) <= stack_slots(cur) + free,
{
    lemma_gap_fills_stack(cur);
    let t = cur + moved;
    let b = stack_slots(cur) + free;
    assert(t <= b * 100) by (nonlinear_arith)
        requires
            t == cur + moved,
            moved <= partial_gap(cur) + free * 100,
            cur + partial_gap(cur) == stack_slots(cur) * 100,
            b == stack_slots(cur) + free,
    ;
    assert((t + 99) / 100 <= b) by (nonlinear_arith)
        requires
            t <= b * 100,
            t >= 0,
    ;
}

proof fn lemma_stack_shrink(a: u32, b: u32)
    requires
        a <= b,
    ensures
        stack_slots(a) <= stack_slots(b),
{
    assert((a as nat + 99) / 100 <= (b as nat + 99) / 100) by (nonlinear_arith)
        requires
            a <= b,
    ;
}

proof fn lemma_count_bounded_by_slots(c: u32, n: nat)
    requires
        stack_slots(c) <= n,
    ensures
        c <= n * 100,
{
    assert(c <= n * 100) by (nonlinear_arith)
        requires
            ((c as nat + 99) / 100) as nat <= n,
    ;
}

/// `t` is well formed, holds `c` of `item`, and otherwise what `s` holds.
pub open spec fn changes_count(s: Seq<(ItemId, u32)>, t: Seq<(ItemId, u32)>, item: ItemId, c: nat) -> bool {
    &&& wf_entries(t)
    &&& count_in(t, item) == c
    &&& forall|k: ItemId| k != item ==> count_in(t, k) == count_in(s, k)
}

/// The well-formed contents holding `c` of `item` and otherwise what `s` holds.
pub open spec fn with_item_count(s: Seq<(ItemId, u32)>, item: ItemId, c: nat) -> Seq<(ItemId, u32)> {
    choose|t: Seq<(ItemId, u32)>| changes_count(s, t, item, c)
}

/// The contents after adding `amount` of `item`.
pub open spec fn add_result(s: Seq<(ItemId, u32)>, item: ItemId, amount: u32) -> Seq<(ItemId, u32)> {
    if acceptable_spec(s, item, amount) == 0 {
        s
    } else {
        with_item_count(s, item, (count_in(s, item) + acceptable_spec(s, item, amount)) as nat)
    }
}

/// The contents after trying to remove `amount` of `item`.
pub open spec fn remove_result(s: Seq<(ItemId, u32)>, item: ItemId, amount: u32) -> Seq<(ItemId, u32)> {
    if amount != 0 && count_in(s, item) >= amount {
        with_item_count(s, item, (count_in(s, item) - amount) as nat)
    } else {
        s
    }
}

pub proof fn lemma_with_item_count(s: Seq<(ItemId, u32)>, t: Seq<(ItemId, u32)>, item: ItemId, c: nat)
    requires
        changes_count(s, t, item, c),
    ensures
        with_item_count(s, item, c) == t,
{
    let u = with_item_count(s, item, c);
    assert(changes_count(s, u, item, c));
    assert forall|k: ItemId| count_in(u, k) == count_in(t, k) by {
        if k != item {
        }
    }
    lemma_wf_determined_by_counts(u, t);
}

/// The player's inventory: a count per item, shown as stacks of at most
/// `INVENTORY_MAX_STACK`, at most `INVENTORY_SLOT_COUNT` stacks in all.
#[derive(Debug)]
pub struct Inventory {
    entries: Vec<(ItemId, u32)>,
}

impl View for Inventory {
    type V = Seq<(ItemId, u32)>;

    /// The entries `(item, count)`, ordered by item.
    closed spec fn view(&self) -> Seq<(ItemId, u32)> {
        self.entries@
    }
}

fn copy_entries(v: &Vec<(ItemId, u32)>) -> (out: Vec<(ItemId, u32)>)
    ensures
        out@ == v@,
{
    let mut out: Vec<(ItemId, u32)> = Vec::new();
    let mut i: usize = 0;
    while i < v.len()
        invariant
            0 <= i <= v@.len(),
            out@ == v@.take(i as int),
        decreases v@.len() - i,
    {
        out.push(v[i]);
        proof {
            assert(v@.take(i + 1) =~= v@.take(i as int).push(v@[i as int]));
        }
        i = i + 1;
    }
    proof {
        assert(v@.take(v@.len() as int) =~= v@);
    }
    out
}

impl Clone for Inventory {
    fn clone(&self) -> (c: Self)
        ensures
            c@ == self@,
    {
        proof {
            use_type_invariant(self);
        }
        Inventory { entries: copy_entries(&self.entries) }
    }
}

impl Default for Inventory {
    fn default() -> (inv: Self)
        ensures
            inv@ == Seq::<(ItemId, u32)>::empty(),
    {
        Inventory { entries: Vec::new() }
    }
}

impl Inventory {
    #[verifier::type_invariant]
    spec fn inv(self) -> bool {
        wf_entries(self.entries@)
    }

    /// The count of `item` held.
    pub fn count(&self, item: ItemId) -> (c: u32)
        ensures
            c == count_in(self@, item),
            wf_entries(self@),
    {
        proof {
            use_type_invariant(self);
        }
        let mut i: usize = 0;
        while i < self.entries.len()
            invariant
                0 <= i <= self.entries@.len(),
                wf_entries(self.entries@),
                forall|j: int| 0 <= j < i ==> self.entries@[j].0 != item,
            decreases self.entries@.len() - i,
        {
            if self.entries[i].0 == item {
                proof {
                    lemma_count_at(self.entries@, i as int);
                }
                return self.entries[i].1;
            }
            i = i + 1;
        }
        proof {
            lemma_count_absent(self.entries@, item);
        }
        0
    }

    /// Stack slots in use.
    pub fn used_slots(&self) -> (n: usize)
        ensures
            n == slots_used(self@),
            n <= INVENTORY_SLOT_COUNT,
            wf_entries(self@),
    {
        proof {
            use_type_invariant(self);
        }
        let ghost s = self.entries@;
        let mut total: usize = 0;
        let mut i: usize = 0;
        proof {
            assert(s.take(0) =~= Seq::<(ItemId, u32)>::empty());
        }
        while i < self.entries.len()
            invariant
                0 <= i <= s.len(),
                s == self.entries@,
                wf_entries(s),
                total == slots_used(s.take(i as int)),
            decreases s.len() - i,
        {
            let c = self.entries[i].1;
            proof {
                lemma_entry_slots_bounded(s, i as int);
                lemma_count_bounded_by_slots(c, 32);
                assert(s.take(i + 1).drop_last() =~= s.take(i as int));
                lemma_slots_used_prefix(s, i + 1);
            }
            total = total + ((c + 99) / 100) as usize;
            i = i + 1;
        }
        proof {
            assert(s.take(s.len() as int) =~= s);
        }
        total
    }

    /// How much of `amount` of `item` the inventory has room for.
    pub fn acceptable_amount(&self, item: ItemId, amount: u32) -> (a: u32)
        ensures
            a == acceptable_spec(self@, item, amount),
            wf_entries(self@),
    {
        proof {
            use_type_invariant(self);
        }
        if item == ITEM_NONE || amount == 0 {
            return 0;
        }
        let current = self.count(item);
        let used = self.used_slots();
        let partial_space: u32 = if current == 0 {
            0
        } else {
            let remainder = current % INVENTORY_MAX_STACK;
            if remainder == 0 {
                0
            } else {
                INVENTORY_MAX_STACK - remainder
            }
        };
        let free_slots: u32 = INVENTORY_SLOT_COUNT.saturating_sub(used) as u32;
        let capacity = partial_space.saturating_add(free_slots * INVENTORY_MAX_STACK);
        if amount < capacity {
            amount
        } else {
            capacity
        }
    }

    /// Whether all of `amount` of `item` fits.
    pub fn can_add(&self, item: ItemId, amount: u32) -> (b: bool)
        ensures
            b == (acceptable_spec(self@, item, amount) == amount),
    {
        self.acceptable_amount(item, amount) == amount
    }

    /// The first position whose item is not below `item`, and whether it holds `item`.
    fn position_of(&self, item: ItemId) -> (r: (usize, bool))
        ensures
            r.0 <= self@.len(),
            forall|j: int| 0 <= j < r.0 ==> self@[j].0 < item,
            r.0 < self@.len() ==> self@[r.0 as int].0 >= item,
            r.1 == (r.0 < self@.len() && self@[r.0 as int].0 == item),
            wf_entries(self@),
    {
        proof {
            use_type_invariant(self);
        }
        let mut i: usize = 0;
        while i < self.entries.len()
            invariant
                0 <= i <= self.entries@.len(),
                forall|j: int| 0 <= j < i ==> self.entries@[j].0 < item,
            ensures
                0 <= i <= self.entries@.len(),
                forall|j: int| 0 <= j < i ==> self.entries@[j].0 < item,
                i < self.entries@.len() ==> self.entries@[i as int].0 >= item,
            decreases self.entries@.len() - i,
        {
            if self.entries[i].0 >= item {
                break;
            }
            i = i + 1;
        }
        let found = i < self.entries.len() && self.entries[i].0 == item;
        (i, found)
    }

    /// Adds as much of `amount` of `item` as fits and returns how much was added.
    pub fn add(&mut self, item: ItemId, amount: u32) -> (moved: u32)
        ensures
            moved == acceptable_spec(old(self)@, item, amount),
            final(self)@ == add_result(old(self)@, item, amount),
            count_in(final(self)@, item) == count_in(old(self)@, item) + moved,
            forall|k: ItemId| k != item ==> count_in(final(self)@, k) == count_in(old(self)@, k),
            wf_entries(final(self)@),
    {
        proof {
            use_type_invariant(&*self);
        }
        if item == ITEM_NONE || amount == 0 {
            return 0;
        }
        let moved = self.acceptable_amount(item, amount);
        if moved == 0 {
            return 0;
        }
        let (pos, found) = self.position_of(item);
        let ghost s = self.entries@;
        let ghost used = slots_used(s);
        let ghost free: nat = (32 - used) as nat;
        let mut e: Vec<(ItemId, u32)> = Vec::new();
        std::mem::swap(&mut e, &mut self.entries);
        assert(e@ == s);
        if found {
            let cur = e[pos].1;
            proof {
                lemma_count_at(s, pos as int);
                lemma_entry_slots_bounded(s, pos as int);
                lemma_stack_growth(cur, moved as nat, free);
            }
            e.set(pos, (item, cur + moved));
            proof {
                let t = e@;
                lemma_slots_used_update(s, pos as int, (item, (cur + moved) as u32));
                assert(sorted_keys(t));
                lemma_count_at(t, pos as int);
                assert forall|k: ItemId| k != item implies count_in(t, k) == count_in(s, k) by {
                    if exists|j: int| 0 <= j < s.len() && s[j].0 == k {
                        let j = choose|j: int| 0 <= j < s.len() && s[j].0 == k;
                        lemma_count_at(s, j);
                        lemma_count_at(t, j);
                    } else {
                        assert forall|j: int| 0 <= j < t.len() implies t[j].0 != k by {
                            if j != pos {
                                assert(t[j] == s[j]);
                            }
                        }
                    }
                }
            }
        } else {
            proof {
                lemma_count_absent(s, item);
                lemma_stack_growth(0, moved as nat, free);
            }
            e.insert(pos, (item, moved));
            proof {
                let t = e@;
                lemma_slots_used_insert(s, pos as int, (item, moved));
                assert(sorted_keys(t)) by {
                    assert forall|i: int, j: int| 0 <= i < j < t.len() implies t[i].0 < t[j].0 by {
                        if j < pos {
                        } else if j == pos {
                        } else if i < pos {
                            assert(t[j] == s[j - 1]);
                        } else if i == pos {
                            assert(t[j] == s[j - 1]);
                            assert(s[pos as int].0 >= item);
                            if j - 1 > pos {
                                assert(s[pos as int].0 < s[j - 1].0);
                            }
                        } else {
                            assert(t[i] == s[i - 1]);
                            assert(t[j] == s[j - 1]);
                        }
                    }
                }
                assert(t[pos as int] == (item, moved));
                lemma_count_at(t, pos as int);
                assert forall|k: ItemId| k != item implies count_in(t, k) == count_in(s, k) by {
                    if exists|j: int| 0 <= j < s.len() && s[j].0 == k {
                        let j = choose|j: int| 0 <= j < s.len() && s[j].0 == k;
                        lemma_count_at(s, j);
                        if j < pos {
                            assert(t[j] == s[j]);
                            lemma_count_at(t, j);
                        } else {
                            assert(t[j + 1] == s[j]);
                            lemma_count_at(t, j + 1);
                        }
                    } else {
                        assert forall|j: int| 0 <= j < t.len() implies t[j].0 != k by {
                            if j < pos {
                                assert(t[j] == s[j]);
                            } else if j > pos {
                                assert(t[j] == s[j - 1]);
                            }
                        }
                    }
                }
            }
        }
        self.entries = e;
        proof {
            lemma_with_item_count(s, self.entries@, item, (count_in(s, item) + moved) as nat);
        }
        moved
    }

    /// Removes exactly `amount` of `item` when that many are held; otherwise
    /// changes nothing.
    pub fn try_remove(&mut self, item: ItemId, amount: u32) -> (ok: bool)
        ensures
            ok == (amount == 0 || count_in(old(self)@, item) >= amount),
            ok ==> count_in(final(self)@, item) == count_in(old(self)@, item) - amount,
            ok ==> forall|k: ItemId| k != item ==> count_in(final(self)@, k) == count_in(old(self)@, k),
            !ok ==> final(self)@ == old(self)@,
            amount == 0 ==> final(self)@ == old(self)@,
            final(self)@ == remove_result(old(self)@, item, amount),
            wf_entries(final(self)@),
    {
        proof {
            use_type_invariant(&*self);
        }
        if amount == 0 {
            return true;
        }
        let cur = self.count(item);
        if cur < amount {
            return false;
        }
        let next = cur - amount;
        let (pos, found) = self.position_of(item);
        let ghost s = self.entries@;
        proof {
            if !found {
                assert forall|j: int| 0 <= j < s.len() implies s[j].0 != item by {
                    if j > pos {
                        assert(s[pos as int].0 < s[j].0);
                    }
                }
                lemma_count_absent(s, item);
            }
            lemma_count_at(s, pos as int);
        }
        let mut e: Vec<(ItemId, u32)> = Vec::new();
        std::mem::swap(&mut e, &mut self.entries);
        if next == 0 {
            e.remove(pos);
            proof {
                let t = e@;
                lemma_slots_used_remove(s, pos as int);
                assert(sorted_keys(t)) by {
                    assert forall|i: int, j: int| 0 <= i < j < t.len() implies t[i].0 < t[j].0 by {
                        if j < pos {
                        } else if i < pos {
                            assert(t[j] == s[j + 1]);
                        } else {
                            assert(t[i] == s[i + 1]);
                            assert(t[j] == s[j + 1]);
                        }
                    }
                }
                assert forall|j: int| 0 <= j < t.len() implies t[j].0 != item by {
                    if j < pos {
                        assert(s[j].0 < s[pos as int].0);
                    } else {
                        assert(t[j] == s[j + 1]);
                        assert(s[pos as int].0 < s[j + 1].0);
                    }
                }
                lemma_count_absent(t, item);
                assert forall|k: ItemId| k != item implies count_in(t, k) == count_in(s, k) by {
                    if exists|j: int| 0 <= j < s.len() && s[j].0 == k {
                        let j = choose|j: int| 0 <= j < s.len() && s[j].0 == k;
                        lemma_count_at(s, j);
                        if j < pos {
                            assert(t[j] == s[j]);
                            lemma_count_at(t, j);
                        } else {
                            assert(j != pos);
                            assert(t[j - 1] == s[j]);
                            lemma_count_at(t, j - 1);
                        }
                    } else {
                        assert forall|j: int| 0 <= j < t.len() implies t[j].0 != k by {
                            if j < pos {
                                assert(t[j] == s[j]);
                            } else {
                                assert(t[j] == s[j + 1]);
                            }
                        }
                    }
                }
            }
        } else {
            e.set(pos, (item, next));
            proof {
                let t = e@;
                lemma_slots_used_update(s, pos as int, (item, next));
                lemma_stack_shrink(next, cur);
                assert(sorted_keys(t));
                lemma_count_at(t, pos as int);
                assert forall|k: ItemId| k != item implies count_in(t, k) == count_in(s, k) by {
                    if exists|j: int| 0 <= j < s.len() && s[j].0 == k {
                        let j = choose|j: int| 0 <= j < s.len() && s[j].0 == k;
                        lemma_count_at(s, j);
                        lemma_count_at(t, j);
                    } else {
                        assert forall|j: int| 0 <= j < t.len() implies t[j].0 != k by {
                            if j != pos {
                                assert(t[j] == s[j]);
                            }
                        }
                    }
                }
            }
        }
        self.entries = e;
        proof {
            lemma_with_item_count(s, self.entries@, item, (cur - amount) as nat);
        }
        true
    }

    /// The inventory shown as stacks: for each item in order, its full stacks
    /// and then the remainder.
    pub fn stacks(&self) -> (out: Vec<InventoryStack>)
        ensures
            out@ == stacks_of(self@),
            out@.len() == slots_used(self@),
            out@.len() <= INVENTORY_SLOT_COUNT,
    {
        proof {
            use_type_invariant(self);
        }
        let ghost s = self.entries@;
        let mut out: Vec<InventoryStack> = Vec::new();
        let mut i: usize = 0;
        proof {
            assert(s.take(0) =~= Seq::<(ItemId, u32)>::empty());
        }
        while i < self.entries.len()
            invariant
                0 <= i <= s.len(),
                s == self.entries@,
                wf_entries(s),
                out@ == stacks_of(s.take(i as int)),
            decreases s.len() - i,
        {
            let (item, count) = self.entries[i];
            let full = count / INVENTORY_MAX_STACK;
            let remainder = count % INVENTORY_MAX_STACK;
            let ghost base = out@;
            let ghost ex = expand_stacks(item, count);
            proof {
                assert(stack_slots(count) == full + (if remainder > 0 { 1nat } else { 0nat })) by (nonlinear_arith)
                    requires
                        full == count / 100,
                        remainder == count % 100,
                        stack_slots(count) == ((count as nat + 99) / 100) as nat,
                ;
            }
            let mut k: u32 = 0;
            while k < full
                invariant
                    0 <= k <= full,
                    full == count / 100,
                    ex == expand_stacks(item, count),
                    stack_slots(count) >= full,
                    out@ == base + ex.take(k as int),
                decreases full - k,
            {
                out.push(InventoryStack { item, count: INVENTORY_MAX_STACK });
                proof {
                    assert(ex.take(k + 1) =~= ex.take(k as int).push(ex[k as int]));
                }
                k = k + 1;
            }
            if remainder > 0 {
                out.push(InventoryStack { item, count: remainder });
                proof {
                    assert(ex.take(full as int).push(ex[full as int]) =~= ex);
                }
            } else {
                proof {
                    assert(ex.take(full as int) =~= ex);
                }
            }
            proof {
                assert(s.take(i + 1).drop_last() =~= s.take(i as int));
                assert(s.take(i + 1).last() == s[i as int]);
            }
            i = i + 1;
        }
        proof {
            assert(s.take(s.len() as int) =~= s);
            lemma_stacks_len(s);
        }
        out
    }

    /// The entries `(item, count)` in item order.
    pub fn entries(&self) -> (out: Vec<(ItemId, u32)>)
        ensures
            out@ == self@,
            wf_entries(self@),
    {
        proof {
            use_type_invariant(self);
        }
        copy_entries(&self.entries)
    }
}

/// There are exactly as many stacks as stack slots in use.
pub proof fn lemma_stacks_len(s: Seq<(ItemId, u32)>)
    ensures
        stacks_of(s).len() == slots_used(s),
    decreases s.len(),
{
    if s.len() > 0 {
        lemma_stacks_len(s.drop_last());
    }
}

/// Two well-formed inventory contents with the same count of every item are
/// the same contents.
pub proof fn lemma_wf_determined_by_counts(a: Seq<(ItemId, u32)>, b: Seq<(ItemId, u32)>)
    requires
        wf_entries(a),
        wf_entries(b),
        forall|k: ItemId| count_in(a, k) == count_in(b, k),
    ensures
        a == b,
{
    lemma_sorted_positive_determined(a, b);
}

proof fn lemma_sorted_positive_determined(a: Seq<(ItemId, u32)>, b: Seq<(ItemId, u32)>)
    requires
        sorted_keys(a),
        sorted_keys(b),
        forall|i: int| 0 <= i < a.len() ==> (#[trigger] a[i]).1 > 0,
        forall|i: int| 0 <= i < b.len() ==> (#[trigger] b[i]).1 > 0,
        forall|k: ItemId| count_in(a, k) == count_in(b, k),
    ensures
        a == b,
    decreases a.len() + b.len(),
{
    if a.len() == 0 {
        if b.len() > 0 {
            lemma_count_at(b, 0);
            lemma_count_absent(a, b[0].0);
            assert(count_in(a, b[0].0) == count_in(b, b[0].0));
        }
        assert(a =~= b);
    } else if b.len() == 0 {
        lemma_count_at(a, 0);
        lemma_count_absent(b, a[0].0);
        assert(count_in(a, a[0].0) == count_in(b, a[0].0));
    } else {
        let ka = a[0].0;
        let kb = b[0].0;
        lemma_count_at(a, 0);
        lemma_count_at(b, 0);
        if ka < kb {
            assert forall|j: int| 0 <= j < b.len() implies b[j].0 != ka by {
                if j > 0 {
                    assert(b[0].0 < b[j].0);
                }
            }
            lemma_count_absent(b, ka);
            assert(count_in(a, ka) == count_in(b, ka));
        } else if kb < ka {
            assert forall|j: int| 0 <= j < a.len() implies a[j].0 != kb by {
                if j > 0 {
                    assert(a[0].0 < a[j].0);
                }
            }
            lemma_count_absent(a, kb);
            assert(count_in(a, kb) == count_in(b, kb));
        } else {
            assert(count_in(a, ka) == count_in(b, ka));
            let ra = a.drop_first();
            let rb = b.drop_first();
            assert forall|k: ItemId| count_in(ra, k) == count_in(rb, k) by {
                if k == ka {
                    assert forall|j: int| 0 <= j < ra.len() implies ra[j].0 != k by {
                        assert(a[0].0 < a[j + 1].0);
                    }
                    assert forall|j: int| 0 <= j < rb.len() implies rb[j].0 != k by {
                        assert(b[0].0 < b[j + 1].0);
                    }
                    lemma_count_absent(ra, k);
                    lemma_count_absent(rb, k);
                } else {
                    lemma_count_drop_first(a, k);
                    lemma_count_drop_first(b, k);
                    assert(count_in(a, k) == count_in(b, k));
                }
            }
            lemma_sorted_positive_determined(ra, rb);
            assert(a =~= seq![a[0]] + ra);
            assert(b =~= seq![b[0]] + rb);
        }
    }
}

proof fn lemma_count_drop_first(s: Seq<(ItemId, u32)>, k: ItemId)
    requires
        sorted_keys(s),
        s.len() > 0,
        k != s[0].0,
    ensures
        count_in(s.drop_first(), k) == count_in(s, k),
{
    let r = s.drop_first();
    if exists|j: int| 0 <= j < s.len() && s[j].0 == k {
        let j = choose|j: int| 0 <= j < s.len() && s[j].0 == k;
        lemma_count_at(s, j);
        assert(j > 0);
        assert(r[j - 1] == s[j]);
        lemma_count_at(r, j - 1);
    } else {
        assert forall|j: int| 0 <= j < r.len() implies r[j].0 != k by {
            assert(r[j] == s[j + 1]);
        }
    }
}


/// The contents after adding each `(item, count)` of `entries` in order,
/// starting from an empty inventory.
pub open spec fn added_all(entries: Seq<(ItemId, u32)>) -> Seq<(ItemId, u32)>
    decreases entries.len(),
{
    if entries.len() == 0 {
        seq![]
    } else {
        add_result(added_all(entries.drop_last()), entries.last().0, entries.last().1)
    }
}

proof fn lemma_count_drop_last(s: Seq<(ItemId, u32)>, k: ItemId)
    requires
        sorted_keys(s),
        s.len() > 0,
        k != s.last().0,
    ensures
        count_in(s.drop_last(), k) == count_in(s, k),
{
    let r = s.drop_last();
    if exists|j: int| 0 <= j < s.len() && s[j].0 == k {
        let j = choose|j: int| 0 <= j < s.len() && s[j].0 == k;
        lemma_count_at(s, j);
        assert(j < s.len() - 1);
        assert(r[j] == s[j]);
        lemma_count_at(r, j);
    } else {
        assert forall|j: int| 0 <= j < r.len() implies r[j].0 != k by {
            assert(r[j] == s[j]);
        }
    }
}

proof fn lemma_len_le_slots(s: Seq<(ItemId, u32)>)
    requires
        forall|i: int| 0 <= i < s.len() ==> (#[trigger] s[i]).1 > 0,
    ensures
        s.len() <= slots_used(s),
    decreases s.len(),
{
    if s.len() > 0 {
        let r = s.drop_last();
        assert forall|i: int| 0 <= i < r.len() implies (#[trigger] r[i]).1 > 0 by {
            assert(r[i] == s[i]);
        }
        lemma_len_le_slots(r);
        assert(s[s.len() - 1].1 > 0);
        assert(stack_slots(s.last().1) >= 1);
    }
}

/// Well-formed contents hold at most one entry per stack slot.
pub proof fn lemma_entries_within_slots(s: Seq<(ItemId, u32)>)
    requires
        wf_entries(s),
    ensures
        s.len() <= INVENTORY_SLOT_COUNT,
{
    lemma_len_le_slots(s);
}

proof fn lemma_added_all_prefix(s: Seq<(ItemId, u32)>, i: int)
    requires
        wf_entries(s),
        0 <= i <= s.len(),
    ensures
        added_all(s.take(i)) == s.take(i),
    decreases i,
{
    let t = s.take(i);
    if i == 0 {
        assert(t =~= Seq::<(ItemId, u32)>::empty());
    } else {
        let p = s.take(i - 1);
        lemma_added_all_prefix(s, i - 1);
        assert(t.drop_last() =~= p);
        let item = s[i - 1].0;
        let c = s[i - 1].1;
        assert(t.last() == s[i - 1]);
        assert(sorted_keys(t));
        assert(sorted_keys(p));
        assert forall|j: int| 0 <= j < p.len() implies p[j].0 != item by {
            assert(p[j] == s[j]);
            assert(s[j].0 < s[i - 1].0);
        }
        lemma_count_absent(p, item);
        lemma_slots_used_prefix(s, i);
        assert(slots_used(t) == slots_used(p) + stack_slots(c));
        lemma_gap_fills_stack(c);
        assert(partial_gap(c) <= 99);
        assert(capacity_for(p, item) >= stack_slots(c) * 100);
        assert(acceptable_spec(p, item, c) == c);
        assert forall|j: int| 0 <= j < t.len() implies (#[trigger] t[j]).0 != ITEM_NONE && t[j].1 > 0 by {
            assert(t[j] == s[j]);
        }
        assert(wf_entries(t));
        lemma_count_at(t, i - 1);
        assert forall|k: ItemId| k != item implies count_in(t, k) == count_in(p, k) by {
            lemma_count_drop_last(t, k);
        }
        assert(changes_count(p, t, item, (count_in(p, item) + c) as nat));
        lemma_with_item_count(p, t, item, (count_in(p, item) + c) as nat);
    }
}

/// Adding the entries of well-formed contents, in order, to an empty
/// inventory rebuilds exactly those contents.
pub proof fn lemma_added_all_rebuilds(s: Seq<(ItemId, u32)>)
    requires
        wf_entries(s),
    ensures
        added_all(s) == s,
{
    lemma_added_all_prefix(s, s.len() as int);
    assert(s.take(s.len() as int) =~= s);
}


/// The contents after adding each `(item, count)` of `entries`, in order,
/// to `s`.
pub open spec fn adds_onto(s: Seq<(ItemId, u32)>, entries: Seq<(ItemId, u32)>) -> Seq<(ItemId, u32)>
    decreases entries.len(),
{
    if entries.len() == 0 {
        s
    } else {
        add_result(adds_onto(s, entries.drop_last()), entries.last().0, entries.last().1)
    }
}


proof fn lemma_count_elsewhere(s: Seq<(ItemId, u32)>, t: Seq<(ItemId, u32)>, i: int, k: ItemId)
    requires
        sorted_keys(s),
        sorted_keys(t),
        0 <= i < s.len(),
        k != s[i].0,
        t == s.remove(i) || (i < t.len() && t == s.update(i, (s[i].0, t[i].1))),
    ensures
        count_in(t, k) == count_in(s, k),
{
    if exists|j: int| 0 <= j < s.len() && s[j].0 == k {
        let j = choose|j: int| 0 <= j < s.len() && s[j].0 == k;
        lemma_count_at(s, j);
        if t == s.remove(i) {
            let jj = if j < i { j } else { j - 1 };
            assert(t[jj] == s[j]);
            lemma_count_at(t, jj);
        } else {
            assert(t[j] == s[j]);
            lemma_count_at(t, j);
        }
    } else {
        assert forall|j: int| 0 <= j < t.len() implies t[j].0 != k by {
            if t == s.remove(i) {
                if j < i {
                    assert(t[j] == s[j]);
                } else {
                    assert(t[j] == s[j + 1]);
                }
            } else {
                assert(t[j].0 == s[j].0);
            }
        }
    }
}

/// Taking one of an item that is held and adding one back gives the same
/// contents.
pub proof fn lemma_remove_then_add_restores(s: Seq<(ItemId, u32)>, item: ItemId)
    requires
        wf_entries(s),
        count_in(s, item) >= 1,
    ensures
        add_result(remove_result(s, item, 1), item, 1) == s,
{
    let c = count_in(s, item);
    assert(exists|i: int| 0 <= i < s.len() && s[i].0 == item);
    let i = choose|i: int| 0 <= i < s.len() && s[i].0 == item;
    lemma_count_at(s, i);
    assert(s[i].1 == c);
    assert(item != ITEM_NONE);
    let t = if c == 1 {
        s.remove(i)
    } else {
        s.update(i, (item, (c - 1) as u32))
    };
    if c == 1 {
        lemma_slots_used_remove(s, i);
        assert forall|j: int| 0 <= j < t.len() implies t[j].0 != item by {
            if j < i {
                assert(t[j] == s[j]);
                assert(s[j].0 < s[i].0);
            } else {
                assert(t[j] == s[j + 1]);
                assert(s[i].0 < s[j + 1].0);
            }
        }
        lemma_count_absent(t, item);
    } else {
        lemma_slots_used_update(s, i, (item, (c - 1) as u32));
        lemma_stack_shrink((c - 1) as u32, c);
        lemma_count_at(t, i);
    }
    assert(sorted_keys(t));
    assert forall|j: int| 0 <= j < t.len() implies (#[trigger] t[j]).0 != ITEM_NONE && t[j].1 > 0 by {
        if c == 1 {
            if j < i {
                assert(t[j] == s[j]);
            } else {
                assert(t[j] == s[j + 1]);
            }
        } else if j != i {
            assert(t[j] == s[j]);
        }
    }
    assert forall|k: ItemId| k != item implies count_in(t, k) == count_in(s, k) by {
        lemma_count_elsewhere(s, t, i, k);
    }
    assert(changes_count(s, t, item, (c - 1) as nat));
    lemma_with_item_count(s, t, item, (c - 1) as nat);
    assert(remove_result(s, item, 1) == t);
    assert(count_in(t, item) == c - 1);
    // Room for the one item: a partial stack, or the slot the removal freed.
    lemma_gap_fills_stack((c - 1) as u32);
    lemma_gap_fills_stack(c);
    assert(stack_slots(c) == stack_slots((c - 1) as u32) || stack_slots(c) == stack_slots((c - 1) as u32) + 1) by (nonlinear_arith)
        requires
            stack_slots(c) == ((c as nat + 99) / 100) as nat,
            stack_slots((c - 1) as u32) == (((c - 1) as nat + 99) / 100) as nat,
            c >= 1,
    ;
    if stack_slots(c) == stack_slots((c - 1) as u32) {
        assert(c - 1 > 0 && (c - 1) % 100 != 0) by (nonlinear_arith)
            requires
                stack_slots(c) == ((c as nat + 99) / 100) as nat,
                stack_slots((c - 1) as u32) == (((c - 1) as nat + 99) / 100) as nat,
                stack_slots(c) == stack_slots((c - 1) as u32),
                c >= 1,
        ;
        assert(partial_gap((c - 1) as u32) >= 1);
    } else {
        assert(slots_used(t) + 1 <= slots_used(s));
    }
    assert(capacity_for(t, item) >= 1);
    assert(acceptable_spec(t, item, 1) == 1);
    assert forall|k: ItemId| k != item implies count_in(s, k) == count_in(t, k) by {}
    assert(changes_count(t, s, item, (count_in(t, item) + 1) as nat));
    lemma_with_item_count(t, s, item, (count_in(t, item) + 1) as nat);
}


/// How many of `item` a run of stacks holds.
pub open spec fn stacked_count(st: Seq<InventoryStack>, item: ItemId) -> int
    decreases st.len(),
{
    if st.len() == 0 {
        0
    } else {
        stacked_count(st.drop_last(), item) + if st.last().item == item { st.last().count as int } else { 0 }
    }
}

proof fn lemma_stacked_count_concat(a: Seq<InventoryStack>, b: Seq<InventoryStack>, item: ItemId)
    ensures
        stacked_count(a + b, item) == stacked_count(a, item) + stacked_count(b, item),
    decreases b.len(),
{
    if b.len() > 0 {
        assert((a + b).drop_last() =~= a + b.drop_last());
        lemma_stacked_count_concat(a, b.drop_last(), item);
    }
}

/// Full stacks, then the remainder: `count / 100` stacks of a hundred, and
/// one more of `count % 100` exactly when that is not zero.
proof fn lemma_stack_split(count: u32)
    ensures
        stack_slots(count) == count / 100 + if count % 100 == 0 { 0nat } else { 1nat },
        count == (count / 100) * 100 + count % 100,
{
    assert(stack_slots(count) == count / 100 + if count % 100 == 0 { 0nat } else { 1nat }) by (nonlinear_arith)
        requires
            stack_slots(count) == ((count as nat + 99) / 100) as nat,
    ;
}

proof fn lemma_expand_prefix_count(it: ItemId, count: u32, m: int, item: ItemId)
    requires
        0 <= m <= stack_slots(count),
    ensures
        stacked_count(expand_stacks(it, count).take(m), item) == if it == item {
            if m <= count / 100 { 100 * m } else { 100 * (count / 100) + count % 100 }
        } else {
            0
        },
    decreases m,
{
    lemma_stack_split(count);
    if m > 0 {
        let e = expand_stacks(it, count);
        assert(e.take(m).drop_last() =~= e.take(m - 1));
        lemma_expand_prefix_count(it, count, m - 1, item);
    }
}

/// What the stacks of well-formed contents look like: ordered by item, each
/// holding between one and a hundred, every stack of an item but its last
/// full, and for every item as many in all as the inventory holds of it.
pub proof fn lemma_stacks_shape(s: Seq<(ItemId, u32)>)
    requires
        wf_entries(s),
    ensures
        forall|i: int, j: int| 0 <= i < j < stacks_of(s).len()
            ==> (#[trigger] stacks_of(s)[i]).item <= (#[trigger] stacks_of(s)[j]).item,
        forall|i: int| 0 <= i < stacks_of(s).len()
            ==> 1 <= (#[trigger] stacks_of(s)[i]).count <= INVENTORY_MAX_STACK,
        forall|i: int, j: int| 0 <= i < j < stacks_of(s).len() && (#[trigger] stacks_of(s)[i]).item
            == (#[trigger] stacks_of(s)[j]).item ==> stacks_of(s)[i].count == INVENTORY_MAX_STACK,
        forall|item: ItemId| #[trigger] stacked_count(stacks_of(s), item) == count_in(s, item),
{
    lemma_stacks_shape_sorted(s);
}

proof fn lemma_stacks_shape_sorted(s: Seq<(ItemId, u32)>)
    requires
        sorted_keys(s),
        forall|i: int| 0 <= i < s.len() ==> (#[trigger] s[i]).0 != ITEM_NONE && s[i].1 > 0,
    ensures
        forall|i: int, j: int| 0 <= i < j < stacks_of(s).len()
            ==> (#[trigger] stacks_of(s)[i]).item <= (#[trigger] stacks_of(s)[j]).item,
        forall|i: int| 0 <= i < stacks_of(s).len()
            ==> 1 <= (#[trigger] stacks_of(s)[i]).count <= INVENTORY_MAX_STACK,
        forall|i: int, j: int| 0 <= i < j < stacks_of(s).len() && (#[trigger] stacks_of(s)[i]).item
            == (#[trigger] stacks_of(s)[j]).item ==> stacks_of(s)[i].count == INVENTORY_MAX_STACK,
        forall|item: ItemId| #[trigger] stacked_count(stacks_of(s), item) == count_in(s, item),
        s.len() > 0 ==> forall|i: int| 0 <= i < stacks_of(s).len() ==> (#[trigger] stacks_of(s)[i]).item <= s.last().0,
    decreases s.len(),
{
    if s.len() == 0 {
        assert forall|item: ItemId| #[trigger] stacked_count(stacks_of(s), item) == count_in(s, item) by {
            lemma_count_absent(s, item);
        }
    } else {
        let p = s.drop_last();
        let (it, c) = s.last();
        assert forall|i: int| 0 <= i < p.len() implies (#[trigger] p[i]).0 != ITEM_NONE && p[i].1 > 0 by {
            assert(p[i] == s[i]);
        }
        lemma_stacks_shape_sorted(p);
        let a = stacks_of(p);
        let e = expand_stacks(it, c);
        let st = stacks_of(s);
        assert(st == a + e);
        lemma_stack_split(c);
        if p.len() > 0 {
            assert(p.last() == s[s.len() - 2]);
            assert(p.last().0 < it);
        }
        assert forall|i: int| 0 <= i < a.len() implies (#[trigger] a[i]).item < it by {
            assert(a[i].item <= p.last().0);
        }
        assert forall|k: int| 0 <= k < e.len() implies 1 <= (#[trigger] e[k]).count <= 100 && e[k].item == it
            && (k < e.len() - 1 ==> e[k].count == 100) by {
            if k >= c / 100 {
                assert(c % 100 != 0);
            }
        }
        assert forall|i: int, j: int| 0 <= i < j < st.len() implies (#[trigger] st[i]).item <= (#[trigger] st[j]).item by {
            if j < a.len() {
                assert(st[i] == a[i] && st[j] == a[j]);
            } else if i < a.len() {
                assert(st[i] == a[i] && st[j] == e[j - a.len()]);
            } else {
                assert(st[i] == e[i - a.len()] && st[j] == e[j - a.len()]);
            }
        }
        assert forall|i: int| 0 <= i < st.len() implies 1 <= (#[trigger] st[i]).count <= INVENTORY_MAX_STACK
            && st[i].item <= it by {
            if i < a.len() {
                assert(st[i] == a[i]);
            } else {
                assert(st[i] == e[i - a.len()]);
            }
        }
        assert forall|i: int, j: int| 0 <= i < j < st.len() && (#[trigger] st[i]).item == (#[trigger] st[j]).item
            implies st[i].count == INVENTORY_MAX_STACK by {
            if j < a.len() {
                assert(st[i] == a[i] && st[j] == a[j]);
            } else if i < a.len() {
                assert(st[i] == a[i] && st[j] == e[j - a.len()]);
            } else {
                assert(st[i] == e[i - a.len()] && st[j] == e[j - a.len()]);
            }
        }
        assert forall|item: ItemId| #[trigger] stacked_count(st, item) == count_in(s, item) by {
            lemma_stacked_count_concat(a, e, item);
            lemma_expand_prefix_count(it, c, e.len() as int, item);
            assert(e.take(e.len() as int) =~= e);
            if item == it {
                lemma_count_at(s, s.len() - 1);
                assert forall|i: int| 0 <= i < p.len() implies p[i].0 != item by {
                    assert(p[i] == s[i]);
                }
                lemma_count_absent(p, item);
            } else {
                lemma_count_drop_last(s, item);
            }
        }
    }
}

} // verus!
