//! Slot-based inventories that carry gathered resources.
//!
//! An inventory is a fixed row of slots; each slot is empty or holds a stack
//! of one resource type. Adding fills the existing stacks of the type first,
//! in slot order, then opens new stacks in empty slots, in slot order.
//! Removing drains the stacks of the type in slot order and empties a slot
//! whose stack reaches zero.

use vstd::prelude::*;

verus! {

/// The kinds of resource a unit can carry.
#[derive(Debug, Clone, Copy, PartialEq, Eq, Hash, Structural)]
pub enum ResourceType {
    Gold,
    Wood,
    Stone,
}

/// A stack of one resource type in an inventory slot.
#[derive(Debug, Clone)]
pub struct InventorySlot {
    pub resource_type: ResourceType,
    pub quantity: u32,
}

/// An entity's inventory: a row of slots, each empty or holding a stack.
#[derive(Debug)]
pub struct Inventory {
    pub slots: Vec<Option<InventorySlot>>,
    pub max_slots: usize,
}

/// The largest stack an entity's slots hold.
#[derive(Debug)]
pub struct InventorySettings {
    pub max_stack_size: u32,
}

// ---------------------------------------------------------------------------
// Model
// ---------------------------------------------------------------------------

pub open spec fn min(a: int, b: int) -> int {
    if a <= b { a } else { b }
}

/// `a - b`, or zero where `b` exceeds `a`.
pub open spec fn sat_sub(a: int, b: int) -> int {
    if a > b { a - b } else { 0 }
}

/// Whether the slot holds a stack of `rt`.
pub open spec fn holds(s: Option<InventorySlot>, rt: ResourceType) -> bool {
    s matches Some(x) && x.resource_type == rt
}

/// How much of `rt` the slot holds.
pub open spec fn amount_in(s: Option<InventorySlot>, rt: ResourceType) -> int {
    match s {
        Some(x) => if x.resource_type == rt { x.quantity as int } else { 0 },
        None => 0,
    }
}

/// The total of `rt` held in the first `k` slots.
pub open spec fn count_before(slots: Seq<Option<InventorySlot>>, rt: ResourceType, k: int) -> int
    decreases k,
{
    if k <= 0 {
        0
    } else {
        count_before(slots, rt, k - 1) + amount_in(slots[k - 1], rt)
    }
}

/// The total of `rt` held in the slots.
pub open spec fn count_of(slots: Seq<Option<InventorySlot>>, rt: ResourceType) -> int {
    count_before(slots, rt, slots.len() as int)
}

/// How much more of `rt` an existing stack takes before it reaches `max`.
pub open spec fn stack_room(s: Option<InventorySlot>, rt: ResourceType, max: u32) -> int {
    match s {
        Some(x) => if x.resource_type == rt && x.quantity < max {
            max - x.quantity
        } else {
            0
        },
        None => 0,
    }
}

/// Room left in the existing stacks of `rt` among the first `k` slots.
pub open spec fn stack_room_before(
    slots: Seq<Option<InventorySlot>>,
    rt: ResourceType,
    max: u32,
    k: int,
) -> int
    decreases k,
{
    if k <= 0 {
        0
    } else {
        stack_room_before(slots, rt, max, k - 1) + stack_room(slots[k - 1], rt, max)
    }
}

/// Room that the empty slots among the first `k` offer, `max` each.
pub open spec fn empty_room_before(slots: Seq<Option<InventorySlot>>, max: u32, k: int) -> int
    decreases k,
{
    if k <= 0 {
        0
    } else {
        empty_room_before(slots, max, k - 1) + if slots[k - 1] is None {
            max as int
        } else {
            0
        }
    }
}

/// How much of `rt` the inventory can still take with stacks of at most `max`.
pub open spec fn free_capacity(slots: Seq<Option<InventorySlot>>, rt: ResourceType, max: u32) -> int {
    stack_room_before(slots, rt, max, slots.len() as int) + empty_room_before(
        slots,
        max,
        slots.len() as int,
    )
}

/// The number of occupied slots among the first `k`.
pub open spec fn used_before(slots: Seq<Option<InventorySlot>>, k: int) -> int
    decreases k,
{
    if k <= 0 {
        0
    } else {
        used_before(slots, k - 1) + if slots[k - 1] is Some {
            1int
        } else {
            0
        }
    }
}

/// Slot `i` after `quantity` of `rt` was added with stacks of at most `max`:
/// a stack of `rt` with room takes what is left after the stacks before it
/// took theirs; an empty slot opens a stack with what is left after all the
/// stacks and the empty slots before it took theirs.
pub open spec fn added_slot(
    slots: Seq<Option<InventorySlot>>,
    rt: ResourceType,
    quantity: u32,
    max: u32,
    i: int,
) -> Option<InventorySlot> {
    match slots[i] {
        Some(x) => if x.resource_type == rt && x.quantity < max {
            Some(
                InventorySlot {
                    resource_type: rt,
                    quantity: (x.quantity + min(
                        max - x.quantity,
                        sat_sub(quantity as int, stack_room_before(slots, rt, max, i)),
                    )) as u32,
                },
            )
        } else {
            slots[i]
        },
        None => {
            let left = sat_sub(
                sat_sub(quantity as int, stack_room_before(slots, rt, max, slots.len() as int)),
                empty_room_before(slots, max, i),
            );
            if left > 0 {
                Some(InventorySlot { resource_type: rt, quantity: min(max as int, left) as u32 })
            } else {
                None
            }
        },
    }
}

/// The slots after `quantity` of `rt` was added with stacks of at most `max`.
pub open spec fn slots_after_add(
    slots: Seq<Option<InventorySlot>>,
    rt: ResourceType,
    quantity: u32,
    max: u32,
) -> Seq<Option<InventorySlot>> {
    Seq::new(slots.len(), |i: int| added_slot(slots, rt, quantity, max, i))
}

/// What of `quantity` does not fit.
pub open spec fn add_overflow(
    slots: Seq<Option<InventorySlot>>,
    rt: ResourceType,
    quantity: u32,
    max: u32,
) -> int {
    sat_sub(quantity as int, free_capacity(slots, rt, max))
}

/// Slot `i` after `quantity` of `rt` was removed: a stack of `rt` gives what
/// is still wanted after the stacks before it gave theirs, and a stack that
/// was reached while something was still wanted and gave all it had is emptied.
pub open spec fn removed_slot(
    slots: Seq<Option<InventorySlot>>,
    rt: ResourceType,
    quantity: u32,
    i: int,
) -> Option<InventorySlot> {
    match slots[i] {
        Some(x) => if x.resource_type == rt {
            let wanted = sat_sub(quantity as int, count_before(slots, rt, i));
            if wanted == 0 {
                slots[i]
            } else if x.quantity <= wanted {
                None
            } else {
                Some(InventorySlot { resource_type: rt, quantity: (x.quantity - wanted) as u32 })
            }
        } else {
            slots[i]
        },
        None => None,
    }
}

/// The slots after `quantity` of `rt` was removed.
pub open spec fn slots_after_remove(
    slots: Seq<Option<InventorySlot>>,
    rt: ResourceType,
    quantity: u32,
) -> Seq<Option<InventorySlot>> {
    Seq::new(slots.len(), |i: int| removed_slot(slots, rt, quantity, i))
}

/// What a removal of `quantity` of `rt` takes.
pub open spec fn removed_amount(
    slots: Seq<Option<InventorySlot>>,
    rt: ResourceType,
    quantity: u32,
) -> int {
    min(quantity as int, count_of(slots, rt))
}

/// No stack of `rt` exceeds `max`.
pub open spec fn stacks_within(slots: Seq<Option<InventorySlot>>, rt: ResourceType, max: u32) -> bool {
    forall|i: int|
        0 <= i < slots.len() && #[trigger] holds(slots[i], rt) ==> slots[i]->Some_0.quantity
            <= max
}

// ---------------------------------------------------------------------------
// Lemmas
// ---------------------------------------------------------------------------

proof fn lemma_count_nonneg(slots: Seq<Option<InventorySlot>>, rt: ResourceType, k: int)
    ensures
        count_before(slots, rt, k) >= 0,
    decreases k,
{
    if k > 0 {
        lemma_count_nonneg(slots, rt, k - 1);
    }
}

proof fn lemma_count_monotone(slots: Seq<Option<InventorySlot>>, rt: ResourceType, j: int, k: int)
    requires
        j <= k,
    ensures
        count_before(slots, rt, j) <= count_before(slots, rt, k),
    decreases k - j,
{
    if j < k {
        lemma_count_monotone(slots, rt, j, k - 1);
    }
}

proof fn lemma_room_nonneg(slots: Seq<Option<InventorySlot>>, rt: ResourceType, max: u32, k: int)
    ensures
        stack_room_before(slots, rt, max, k) >= 0,
        empty_room_before(slots, max, k) >= 0,
    decreases k,
{
    if k > 0 {
        lemma_room_nonneg(slots, rt, max, k - 1);
    }
}

/// Counting the slots after an addition, prefix by prefix.
proof fn lemma_add_counts(
    slots: Seq<Option<InventorySlot>>,
    rt: ResourceType,
    quantity: u32,
    max: u32,
    k: int,
)
    requires
        0 <= k <= slots.len(),
    ensures
        count_before(slots_after_add(slots, rt, quantity, max), rt, k) == count_before(slots, rt, k)
            + min(quantity as int, stack_room_before(slots, rt, max, k)) + min(
            sat_sub(quantity as int, stack_room_before(slots, rt, max, slots.len() as int)),
            empty_room_before(slots, max, k),
        ),
    decreases k,
{
    lemma_room_nonneg(slots, rt, max, k);
    if k > 0 {
        lemma_add_counts(slots, rt, quantity, max, k - 1);
        lemma_room_nonneg(slots, rt, max, k - 1);
        let after = slots_after_add(slots, rt, quantity, max);
        assert(after[k - 1] == added_slot(slots, rt, quantity, max, k - 1));
    }
}

/// Counting the slots after a removal, prefix by prefix.
proof fn lemma_remove_counts(
    slots: Seq<Option<InventorySlot>>,
    rt: ResourceType,
    quantity: u32,
    k: int,
)
    requires
        0 <= k <= slots.len(),
    ensures
        count_before(slots_after_remove(slots, rt, quantity), rt, k) == count_before(slots, rt, k)
            - min(quantity as int, count_before(slots, rt, k)),
    decreases k,
{
    lemma_count_nonneg(slots, rt, k);
    if k > 0 {
        lemma_remove_counts(slots, rt, quantity, k - 1);
        lemma_count_nonneg(slots, rt, k - 1);
        let after = slots_after_remove(slots, rt, quantity);
        assert(after[k - 1] == removed_slot(slots, rt, quantity, k - 1));
    }
}

/// An addition of `rt` leaves the count of every other type as it was.
proof fn lemma_add_keeps_others(
    slots: Seq<Option<InventorySlot>>,
    rt: ResourceType,
    other: ResourceType,
    quantity: u32,
    max: u32,
    k: int,
)
    requires
        0 <= k <= slots.len(),
        other != rt,
    ensures
        count_before(slots_after_add(slots, rt, quantity, max), other, k) == count_before(
            slots,
            other,
            k,
        ),
    decreases k,
{
    if k > 0 {
        lemma_add_keeps_others(slots, rt, other, quantity, max, k - 1);
        let after = slots_after_add(slots, rt, quantity, max);
        assert(after[k - 1] == added_slot(slots, rt, quantity, max, k - 1));
    }
}

/// A removal of `rt` leaves the count of every other type as it was.
proof fn lemma_remove_keeps_others(
    slots: Seq<Option<InventorySlot>>,
    rt: ResourceType,
    other: ResourceType,
    quantity: u32,
    k: int,
)
    requires
        0 <= k <= slots.len(),
        other != rt,
    ensures
        count_before(slots_after_remove(slots, rt, quantity), other, k) == count_before(
            slots,
            other,
            k,
        ),
    decreases k,
{
    if k > 0 {
        lemma_remove_keeps_others(slots, rt, other, quantity, k - 1);
        let after = slots_after_remove(slots, rt, quantity);
        assert(after[k - 1] == removed_slot(slots, rt, quantity, k - 1));
    }
}

/// A removal frees exactly the room it takes, where no stack exceeds `max`.
proof fn lemma_remove_frees_room(
    slots: Seq<Option<InventorySlot>>,
    rt: ResourceType,
    quantity: u32,
    max: u32,
    k: int,
)
    requires
        0 <= k <= slots.len(),
        stacks_within(slots, rt, max),
    ensures
        stack_room_before(slots_after_remove(slots, rt, quantity), rt, max, k) + empty_room_before(
            slots_after_remove(slots, rt, quantity),
            max,
            k,
        ) == stack_room_before(slots, rt, max, k) + empty_room_before(slots, max, k) + min(
            quantity as int,
            count_before(slots, rt, k),
        ),
    decreases k,
{
    lemma_count_nonneg(slots, rt, k);
    if k > 0 {
        lemma_remove_frees_room(slots, rt, quantity, max, k - 1);
        lemma_count_nonneg(slots, rt, k - 1);
        let after = slots_after_remove(slots, rt, quantity);
        assert(after[k - 1] == removed_slot(slots, rt, quantity, k - 1));
        if holds(slots[k - 1], rt) {
            assert(slots[k - 1]->Some_0.quantity <= max);
        }
    }
}

proof fn lemma_used_bounds(slots: Seq<Option<InventorySlot>>, k: int)
    requires
        0 <= k <= slots.len(),
    ensures
        0 <= used_before(slots, k) <= k,
    decreases k,
{
    if k > 0 {
        lemma_used_bounds(slots, k - 1);
    }
}

// ---------------------------------------------------------------------------
// Laws
// ---------------------------------------------------------------------------

/// An addition puts into the inventory exactly what it does not report as
/// overflow, overflows only what exceeds the free capacity, and leaves the
/// amounts of the other resource types alone.
pub proof fn law_add_accounts_for_every_unit(
    slots: Seq<Option<InventorySlot>>,
    rt: ResourceType,
    quantity: u32,
    max: u32,
)
    ensures
        0 <= add_overflow(slots, rt, quantity, max) <= quantity,
        count_of(slots_after_add(slots, rt, quantity, max), rt) == count_of(slots, rt) + quantity
            - add_overflow(slots, rt, quantity, max),
        add_overflow(slots, rt, quantity, max) == 0 <==> quantity <= free_capacity(slots, rt, max),
        forall|other: ResourceType|
            other != rt ==> #[trigger] count_of(slots_after_add(slots, rt, quantity, max), other)
                == count_of(slots, other),
        slots_after_add(slots, rt, quantity, max).len() == slots.len(),
{
    let n = slots.len() as int;
    lemma_room_nonneg(slots, rt, max, n);
    lemma_add_counts(slots, rt, quantity, max, n);
    assert forall|other: ResourceType| other != rt implies #[trigger] count_of(
        slots_after_add(slots, rt, quantity, max),
        other,
    ) == count_of(slots, other) by {
        lemma_add_keeps_others(slots, rt, other, quantity, max, n);
    }
}

/// A removal takes the requested amount where the inventory holds that much
/// and everything it holds otherwise, and leaves the other types alone.
pub proof fn law_remove_takes_what_is_held(
    slots: Seq<Option<InventorySlot>>,
    rt: ResourceType,
    quantity: u32,
)
    ensures
        removed_amount(slots, rt, quantity) == min(quantity as int, count_of(slots, rt)),
        count_of(slots_after_remove(slots, rt, quantity), rt) == count_of(slots, rt)
            - removed_amount(slots, rt, quantity),
        count_of(slots, rt) <= quantity ==> count_of(slots_after_remove(slots, rt, quantity), rt)
            == 0,
        forall|other: ResourceType|
            other != rt ==> #[trigger] count_of(slots_after_remove(slots, rt, quantity), other)
                == count_of(slots, other),
        slots_after_remove(slots, rt, quantity).len() == slots.len(),
{
    let n = slots.len() as int;
    lemma_count_nonneg(slots, rt, n);
    lemma_remove_counts(slots, rt, quantity, n);
    assert forall|other: ResourceType| other != rt implies #[trigger] count_of(
        slots_after_remove(slots, rt, quantity),
        other,
    ) == count_of(slots, other) by {
        lemma_remove_keeps_others(slots, rt, other, quantity, n);
    }
}

/// A removal only lowers or empties stacks of the removed type: every slot
/// either keeps what it held, or held that type and is now empty or holds
/// strictly less of it but not nothing; no stack is left at zero. Removing
/// at least everything held, from an inventory with no empty stacks of the
/// type, leaves no slot holding the type.
pub proof fn law_remove_empties_drained_stacks(
    slots: Seq<Option<InventorySlot>>,
    rt: ResourceType,
    quantity: u32,
)
    ensures
        slots_after_remove(slots, rt, quantity).len() == slots.len(),
        forall|i: int|
            0 <= i < slots.len() ==> {
                let after = #[trigger] slots_after_remove(slots, rt, quantity)[i];
                ||| after == slots[i]
                ||| holds(slots[i], rt) && after is None
                ||| holds(slots[i], rt) && holds(after, rt) && 0 < after->Some_0.quantity
                    < slots[i]->Some_0.quantity
            },
        quantity >= count_of(slots, rt) && (forall|i: int|
            0 <= i < slots.len() && #[trigger] holds(slots[i], rt) ==> slots[i]->Some_0.quantity
                > 0) ==> forall|i: int|
            0 <= i < slots.len() ==> !#[trigger] holds(
                slots_after_remove(slots, rt, quantity)[i],
                rt,
            ),
{
    let after = slots_after_remove(slots, rt, quantity);
    assert forall|i: int| 0 <= i < slots.len() implies {
        let a = #[trigger] slots_after_remove(slots, rt, quantity)[i];
        ||| a == slots[i]
        ||| holds(slots[i], rt) && a is None
        ||| holds(slots[i], rt) && holds(a, rt) && 0 < a->Some_0.quantity
            < slots[i]->Some_0.quantity
    } by {
        assert(after[i] == removed_slot(slots, rt, quantity, i));
    }
    if quantity >= count_of(slots, rt) && (forall|i: int|
        0 <= i < slots.len() && #[trigger] holds(slots[i], rt) ==> slots[i]->Some_0.quantity > 0) {
        assert forall|i: int| 0 <= i < slots.len() implies !#[trigger] holds(
            slots_after_remove(slots, rt, quantity)[i],
            rt,
        ) by {
            assert(after[i] == removed_slot(slots, rt, quantity, i));
            lemma_count_monotone(slots, rt, i + 1, slots.len() as int);
            if holds(slots[i], rt) {
                assert(slots[i]->Some_0.quantity > 0);
            }
        }
    }
}

/// Removing what an addition put in gives back the amount held before.
pub proof fn law_remove_undoes_add(
    slots: Seq<Option<InventorySlot>>,
    rt: ResourceType,
    quantity: u32,
    max: u32,
)
    ensures
        ({
            let added = quantity - add_overflow(slots, rt, quantity, max);
            let filled = slots_after_add(slots, rt, quantity, max);
            &&& removed_amount(filled, rt, added as u32) == added
            &&& count_of(slots_after_remove(filled, rt, added as u32), rt) == count_of(slots, rt)
        }),
{
    law_add_accounts_for_every_unit(slots, rt, quantity, max);
    let added = quantity - add_overflow(slots, rt, quantity, max);
    let filled = slots_after_add(slots, rt, quantity, max);
    lemma_count_nonneg(slots, rt, slots.len() as int);
    law_remove_takes_what_is_held(filled, rt, added as u32);
}

/// Neither adding nor removing makes a stack of `rt` exceed `max`.
pub proof fn law_stacks_stay_within(
    slots: Seq<Option<InventorySlot>>,
    rt: ResourceType,
    quantity: u32,
    max: u32,
)
    requires
        stacks_within(slots, rt, max),
    ensures
        stacks_within(slots_after_add(slots, rt, quantity, max), rt, max),
        stacks_within(slots_after_remove(slots, rt, quantity), rt, max),
{
    let added = slots_after_add(slots, rt, quantity, max);
    assert forall|i: int| 0 <= i < added.len() && #[trigger] holds(added[i], rt) implies added[i]->Some_0.quantity
        <= max by {
        assert(added[i] == added_slot(slots, rt, quantity, max, i));
        if slots[i] is Some {
            assert(holds(slots[i], rt));
        }
    }
    let drained = slots_after_remove(slots, rt, quantity);
    assert forall|i: int| 0 <= i < drained.len() && #[trigger] holds(drained[i], rt) implies drained[i]->Some_0.quantity
        <= max by {
        assert(drained[i] == removed_slot(slots, rt, quantity, i));
        assert(holds(slots[i], rt));
    }
}

/// A transfer between two inventories whose stacks of the type are within
/// the stack limit neither creates nor loses resources: what leaves the
/// source and is not received comes back to it, and the receiver gains
/// exactly the amount reported.
pub proof fn law_transfer_conserves_total(
    source: Seq<Option<InventorySlot>>,
    target: Seq<Option<InventorySlot>>,
    rt: ResourceType,
    quantity: u32,
    max: u32,
)
    requires
        stacks_within(source, rt, max),
    ensures
        ({
            let taken = removed_amount(source, rt, quantity);
            let drained = slots_after_remove(source, rt, quantity);
            let overflow = add_overflow(target, rt, taken as u32, max);
            let source_after = if overflow > 0 {
                slots_after_add(drained, rt, overflow as u32, max)
            } else {
                drained
            };
            let target_after = slots_after_add(target, rt, taken as u32, max);
            &&& add_overflow(drained, rt, overflow as u32, max) == 0
            &&& count_of(target_after, rt) == count_of(target, rt) + (taken - overflow)
            &&& count_of(source_after, rt) == count_of(source, rt) - (taken - overflow)
            &&& count_of(source_after, rt) + count_of(target_after, rt) == count_of(source, rt)
                + count_of(target, rt)
        }),
{
    let n = source.len() as int;
    let taken = removed_amount(source, rt, quantity);
    let drained = slots_after_remove(source, rt, quantity);
    law_remove_takes_what_is_held(source, rt, quantity);
    lemma_count_nonneg(source, rt, n);
    lemma_count_nonneg(target, rt, target.len() as int);
    law_add_accounts_for_every_unit(target, rt, taken as u32, max);
    let overflow = add_overflow(target, rt, taken as u32, max);
    lemma_remove_frees_room(source, rt, quantity, max, n);
    lemma_room_nonneg(source, rt, max, n);
    law_add_accounts_for_every_unit(drained, rt, overflow as u32, max);
}

// ---------------------------------------------------------------------------
// Operations
// ---------------------------------------------------------------------------

impl Default for InventorySettings {
    /// Stacks of ten.
    fn default() -> (s: Self)
        ensures
            s.max_stack_size == 10,
    {
        InventorySettings { max_stack_size: 10 }
    }
}

impl Default for Inventory {
    /// Four empty slots, as a worker carries.
    fn default() -> (inv: Self)
        ensures
            inv.max_slots == 4,
            inv.slots@ == Seq::new(4, |i: int| None::<InventorySlot>),
    {
        Self::new(4)
    }
}

impl Inventory {
    /// An inventory of `max_slots` empty slots.
    pub fn new(max_slots: usize) -> (inv: Self)
        ensures
            inv.max_slots == max_slots,
            inv.slots@ == Seq::new(max_slots as nat, |i: int| None::<InventorySlot>),
    {
        let mut slots: Vec<Option<InventorySlot>> = Vec::with_capacity(max_slots);
        let mut n: usize = 0;
        while n < max_slots
            invariant
                n <= max_slots,
                slots@ == Seq::new(n as nat, |i: int| None::<InventorySlot>),
            decreases max_slots - n,
        {
            slots.push(None);
            n = n + 1;
        }
        Inventory { slots, max_slots }
    }

    /// Adds `quantity` of `resource_type` with stacks of at most `max_stack`
    /// and returns the amount that did not fit.
    pub fn add_resource(&mut self, resource_type: ResourceType, quantity: u32, max_stack: u32) -> (overflow: u32)
        ensures
            final(self).max_slots == old(self).max_slots,
            final(self).slots@ == slots_after_add(old(self).slots@, resource_type, quantity, max_stack),
            overflow == add_overflow(old(self).slots@, resource_type, quantity, max_stack),
            overflow <= quantity,
            count_of(final(self).slots@, resource_type) == count_of(old(self).slots@, resource_type)
                + quantity - overflow,
            forall|other: ResourceType|
                other != resource_type ==> count_of(final(self).slots@, other) == count_of(
                    old(self).slots@,
                    other,
                ),
    {
        let ghost start = self.slots@;
        let n = self.slots.len();
        let mut remaining = quantity;

        // First fill the existing stacks of the same resource type.
        let mut i: usize = 0;
        while i < n
            invariant
                n == self.slots.len(),
                start.len() == n,
                i <= n,
                self.max_slots == old(self).max_slots,
                start == old(self).slots@,
                remaining == sat_sub(quantity as int, stack_room_before(start, resource_type, max_stack, i as int)),
                forall|j: int|
                    0 <= j < i ==> self.slots@[j] == (if start[j] is Some {
                        added_slot(start, resource_type, quantity, max_stack, j)
                    } else {
                        start[j]
                    }),
                forall|j: int| i <= j < n ==> self.slots@[j] == start[j],
            decreases n - i,
        {
            proof {
                lemma_room_nonneg(start, resource_type, max_stack, i as int);
            }
            if remaining > 0 {
                let (matches, held) = match &self.slots[i] {
                    Some(s) => (s.resource_type == resource_type, s.quantity),
                    None => (false, 0),
                };
                if matches && held < max_stack {
                    let can_add = max_stack - held;
                    let to_add = if remaining < can_add { remaining } else { can_add };
                    self.slots.set(
                        i,
                        Some(InventorySlot { resource_type, quantity: held + to_add }),
                    );
                    remaining = remaining - to_add;
                }
            }
            i = i + 1;
        }

        // Then open new stacks in empty slots.
        let ghost rest = remaining as int;
        let mut j: usize = 0;
        while j < n
            invariant
                n == self.slots.len(),
                start.len() == n,
                j <= n,
                self.max_slots == old(self).max_slots,
                start == old(self).slots@,
                rest == sat_sub(quantity as int, stack_room_before(start, resource_type, max_stack, n as int)),
                remaining == sat_sub(rest, empty_room_before(start, max_stack, j as int)),
                forall|k: int|
                    0 <= k < j ==> self.slots@[k] == added_slot(start, resource_type, quantity, max_stack, k),
                forall|k: int|
                    j <= k < n ==> self.slots@[k] == (if start[k] is Some {
                        added_slot(start, resource_type, quantity, max_stack, k)
                    } else {
                        start[k]
                    }),
            decreases n - j,
        {
            proof {
                lemma_room_nonneg(start, resource_type, max_stack, j as int);
            }
            if remaining > 0 && self.slots[j].is_none() {
                let to_add = if remaining < max_stack { remaining } else { max_stack };
                self.slots.set(j, Some(InventorySlot { resource_type, quantity: to_add }));
                remaining = remaining - to_add;
            }
            j = j + 1;
        }
        proof {
            assert(self.slots@ =~= slots_after_add(start, resource_type, quantity, max_stack));
            lemma_room_nonneg(start, resource_type, max_stack, n as int);
            lemma_add_counts(start, resource_type, quantity, max_stack, n as int);
            assert forall|other: ResourceType| other != resource_type implies count_of(
                self.slots@,
                other,
            ) == count_of(start, other) by {
                lemma_add_keeps_others(start, resource_type, other, quantity, max_stack, n as int);
            }
        }
        remaining
    }

    /// Removes up to `quantity` of `resource_type` and returns the amount
    /// actually removed.
    pub fn remove_resource(&mut self, resource_type: ResourceType, quantity: u32) -> (removed: u32)
        ensures
            final(self).max_slots == old(self).max_slots,
            final(self).slots@ == slots_after_remove(old(self).slots@, resource_type, quantity),
            removed == removed_amount(old(self).slots@, resource_type, quantity),
            count_of(final(self).slots@, resource_type) == count_of(old(self).slots@, resource_type)
                - removed,
            forall|other: ResourceType|
                other != resource_type ==> count_of(final(self).slots@, other) == count_of(
                    old(self).slots@,
                    other,
                ),
    {
        let ghost start = self.slots@;
        let n = self.slots.len();
        let mut remaining = quantity;
        let mut removed: u32 = 0;
        let mut i: usize = 0;
        while i < n
            invariant
                n == self.slots.len(),
                start.len() == n,
                i <= n,
                self.max_slots == old(self).max_slots,
                start == old(self).slots@,
                remaining == sat_sub(quantity as int, count_before(start, resource_type, i as int)),
                removed + remaining == quantity,
                forall|j: int|
                    0 <= j < i ==> self.slots@[j] == removed_slot(start, resource_type, quantity, j),
                forall|j: int| i <= j < n ==> self.slots@[j] == start[j],
            decreases n - i,
        {
            proof {
                lemma_count_nonneg(start, resource_type, i as int);
            }
            if remaining > 0 {
                let (matches, held) = match &self.slots[i] {
                    Some(s) => (s.resource_type == resource_type, s.quantity),
                    None => (false, 0),
                };
                if matches {
                    let to_remove = if remaining < held { remaining } else { held };
                    let left = held - to_remove;
                    removed = removed + to_remove;
                    remaining = remaining - to_remove;
                    if left == 0 {
                        self.slots.set(i, None);
                    } else {
                        self.slots.set(i, Some(InventorySlot { resource_type, quantity: left }));
                    }
                }
            }
            i = i + 1;
        }
        proof {
            assert(self.slots@ =~= slots_after_remove(start, resource_type, quantity));
            lemma_count_nonneg(start, resource_type, n as int);
            lemma_remove_counts(start, resource_type, quantity, n as int);
            assert forall|other: ResourceType| other != resource_type implies count_of(
                self.slots@,
                other,
            ) == count_of(start, other) by {
                lemma_remove_keeps_others(start, resource_type, other, quantity, n as int);
            }
        }
        removed
    }

    /// The total of `resource_type` held in the inventory.
    pub fn count_resource(&self, resource_type: ResourceType) -> (total: u32)
        requires
            count_of(self.slots@, resource_type) <= u32::MAX,
        ensures
            total == count_of(self.slots@, resource_type),
    {
        let n = self.slots.len();
        let mut total: u32 = 0;
        let mut i: usize = 0;
        while i < n
            invariant
                n == self.slots.len(),
                i <= n,
                count_of(self.slots@, resource_type) <= u32::MAX,
                total == count_before(self.slots@, resource_type, i as int),
            decreases n - i,
        {
            proof {
                lemma_count_nonneg(self.slots@, resource_type, i as int);
                lemma_count_monotone(self.slots@, resource_type, i + 1, n as int);
            }
            match &self.slots[i] {
                Some(s) => {
                    if s.resource_type == resource_type {
                        total = total + s.quantity;
                    }
                },
                None => {},
            }
            i = i + 1;
        }
        total
    }

    /// The number of occupied slots and the number of slots the inventory
    /// was made with.
    pub fn capacity_info(&self) -> (info: (usize, usize))
        ensures
            info.0 == used_before(self.slots@, self.slots@.len() as int),
            info.0 <= self.slots@.len(),
            info.1 == self.max_slots,
    {
        let n = self.slots.len();
        let mut used: usize = 0;
        let mut i: usize = 0;
        while i < n
            invariant
                n == self.slots.len(),
                i <= n,
                used == used_before(self.slots@, i as int),
            decreases n - i,
        {
            proof {
                lemma_used_bounds(self.slots@, i as int);
            }
            if self.slots[i].is_some() {
                used = used + 1;
            }
            i = i + 1;
        }
        proof {
            lemma_used_bounds(self.slots@, n as int);
        }
        (used, self.max_slots)
    }

    /// Moves up to `quantity` of `resource_type` into `other`, whose stacks
    /// hold at most `max_stack`; what `other` cannot take is added back to
    /// this inventory. Returns the amount that `other` received.
    pub fn transfer_to(
        &mut self,
        other: &mut Inventory,
        resource_type: ResourceType,
        quantity: u32,
        max_stack: u32,
    ) -> (moved: u32)
        ensures
            ({
                let taken = removed_amount(old(self).slots@, resource_type, quantity);
                let drained = slots_after_remove(old(self).slots@, resource_type, quantity);
                let overflow = add_overflow(old(other).slots@, resource_type, taken as u32, max_stack);
                &&& final(other).slots@ == slots_after_add(
                    old(other).slots@,
                    resource_type,
                    taken as u32,
                    max_stack,
                )
                &&& final(self).slots@ == (if overflow > 0 {
                    slots_after_add(drained, resource_type, overflow as u32, max_stack)
                } else {
                    drained
                })
                &&& moved == taken - overflow
            }),
            final(self).max_slots == old(self).max_slots,
            final(other).max_slots == old(other).max_slots,
            count_of(final(other).slots@, resource_type) == count_of(old(other).slots@, resource_type)
                + moved,
            moved <= quantity,
            stacks_within(old(self).slots@, resource_type, max_stack) ==> count_of(
                final(self).slots@,
                resource_type,
            ) + count_of(final(other).slots@, resource_type) == count_of(
                old(self).slots@,
                resource_type,
            ) + count_of(old(other).slots@, resource_type),
    {
        proof {
            if stacks_within(self.slots@, resource_type, max_stack) {
                law_transfer_conserves_total(
                    self.slots@,
                    other.slots@,
                    resource_type,
                    quantity,
                    max_stack,
                );
            }
        }
        // First remove from this inventory.
        let removed = self.remove_resource(resource_type, quantity);
        // Then add to the other inventory.
        let overflow = other.add_resource(resource_type, removed, max_stack);
        // What did not fit goes back.
        if overflow > 0 {
            self.add_resource(resource_type, overflow, max_stack);
        }
        removed - overflow
    }
}


} // verus!
