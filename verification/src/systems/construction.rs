//! Buildings and what they cost.

use vstd::prelude::*;

use crate::components::inventory::{
    count_of, law_remove_takes_what_is_held, slots_after_remove, Inventory, InventorySlot,
    ResourceType,
};

verus! {

/// The buildings a worker can put up.
#[derive(Debug, Clone, Copy, PartialEq, Eq, Structural)]
pub enum BuildingType {
    House,
    Workshop,
    Wall,
}

/// What a building costs, resource by resource.
pub open spec fn building_cost(b: BuildingType) -> Seq<(ResourceType, u32)> {
    match b {
        BuildingType::House => seq![(ResourceType::Wood, 5u32), (ResourceType::Stone, 3u32)],
        BuildingType::Workshop => seq![
            (ResourceType::Wood, 10u32),
            (ResourceType::Stone, 5u32),
            (ResourceType::Gold, 2u32),
        ],
        BuildingType::Wall => seq![(ResourceType::Stone, 5u32)],
    }
}

/// The amount of `rt` a cost list asks for.
pub open spec fn cost_total(cost: Seq<(ResourceType, u32)>, rt: ResourceType) -> int
    decreases cost.len(),
{
    if cost.len() == 0 {
        0
    } else {
        (if cost[0].0 == rt {
            cost[0].1 as int
        } else {
            0
        }) + cost_total(cost.drop_first(), rt)
    }
}

/// What building `b` costs in `rt`.
pub open spec fn cost_in(b: BuildingType, rt: ResourceType) -> int {
    cost_total(building_cost(b), rt)
}

/// No resource type occurs twice in a cost list.
pub open spec fn types_distinct(cost: Seq<(ResourceType, u32)>) -> bool {
    forall|i: int, j: int| 0 <= i < j < cost.len() ==> #[trigger] cost[i].0 != #[trigger] cost[j].0
}

/// Whether the slots hold every entry of the cost list.
pub open spec fn affords(slots: Seq<Option<InventorySlot>>, cost: Seq<(ResourceType, u32)>) -> bool {
    forall|i: int| 0 <= i < cost.len() ==> count_of(slots, #[trigger] cost[i].0) >= cost[i].1
}

/// Whether the slots hold the first `k` entries of a cost list.
pub open spec fn affords_first(slots: Seq<Option<InventorySlot>>, cost: Seq<(ResourceType, u32)>, k: int) -> bool {
    forall|j: int| 0 <= j < k ==> count_of(slots, #[trigger] cost[j].0) >= cost[j].1
}

/// Every total that checking the cost list in order looks at fits a `u32`:
/// the check stops at the first entry the slots do not hold, so only the
/// entries up to that one are counted.
pub open spec fn checked_totals_fit(slots: Seq<Option<InventorySlot>>, cost: Seq<(ResourceType, u32)>) -> bool {
    forall|i: int|
        0 <= i < cost.len() && #[trigger] affords_first(slots, cost, i) ==> count_of(slots, cost[i].0)
            <= u32::MAX
}

/// The slots after the entries of a cost list were removed one by one.
pub open spec fn slots_after_paying(
    slots: Seq<Option<InventorySlot>>,
    cost: Seq<(ResourceType, u32)>,
) -> Seq<Option<InventorySlot>>
    decreases cost.len(),
{
    if cost.len() == 0 {
        slots
    } else {
        slots_after_paying(slots_after_remove(slots, cost[0].0, cost[0].1), cost.drop_first())
    }
}

impl BuildingType {
    /// The resources the building costs.
    pub fn get_cost(&self) -> (cost: Vec<(ResourceType, u32)>)
        ensures
            cost@ == building_cost(*self),
    {
        let mut cost: Vec<(ResourceType, u32)> = Vec::new();
        match self {
            BuildingType::House => {
                cost.push((ResourceType::Wood, 5));
                cost.push((ResourceType::Stone, 3));
            },
            BuildingType::Workshop => {
                cost.push((ResourceType::Wood, 10));
                cost.push((ResourceType::Stone, 5));
                cost.push((ResourceType::Gold, 2));
            },
            BuildingType::Wall => {
                cost.push((ResourceType::Stone, 5));
            },
        }
        proof {
            assert(cost@ =~= building_cost(*self));
        }
        cost
    }
}

/// Pays for `building_type` out of `inventory` where it holds the whole
/// cost: every entry of the cost is removed in order. Returns whether the
/// builder could pay; an inventory that cannot pay is left as it was.
pub fn pay_for_building(inventory: &mut Inventory, building_type: BuildingType) -> (paid: bool)
    requires
        checked_totals_fit(old(inventory).slots@, building_cost(building_type)),
    ensures
        paid == affords(old(inventory).slots@, building_cost(building_type)),
        paid ==> final(inventory).slots@ == slots_after_paying(
            old(inventory).slots@,
            building_cost(building_type),
        ),
        paid ==> forall|rt: ResourceType|
            #[trigger] count_of(final(inventory).slots@, rt) == count_of(old(inventory).slots@, rt)
                - cost_in(building_type, rt),
        !paid ==> final(inventory).slots@ == old(inventory).slots@,
        final(inventory).max_slots == old(inventory).max_slots,
{
    let cost = building_type.get_cost();
    let n = cost.len();
    let mut i: usize = 0;
    while i < n
        invariant
            n == cost@.len(),
            i <= n,
            checked_totals_fit(inventory.slots@, building_cost(building_type)),
            inventory.slots@ == old(inventory).slots@,
            inventory.max_slots == old(inventory).max_slots,
            cost@ == building_cost(building_type),
            affords_first(inventory.slots@, cost@, i as int),
        decreases n - i,
    {
        proof {
            assert(affords_first(inventory.slots@, building_cost(building_type), i as int));
        }
        if inventory.count_resource(cost[i].0) < cost[i].1 {
            return false;
        }
        i = i + 1;
    }
    let ghost start = inventory.slots@;
    proof {
        assert(cost@.skip(0) =~= cost@);
    }
    let mut k: usize = 0;
    while k < n
        invariant
            n == cost@.len(),
            k <= n,
            cost@ == building_cost(building_type),
            start == old(inventory).slots@,
            inventory.max_slots == old(inventory).max_slots,
            slots_after_paying(start, cost@) == slots_after_paying(inventory.slots@, cost@.skip(k as int)),
        decreases n - k,
    {
        proof {
            assert(cost@.skip(k as int).drop_first() =~= cost@.skip(k + 1));
        }
        inventory.remove_resource(cost[k].0, cost[k].1);
        k = k + 1;
    }
    proof {
        assert(cost@.skip(n as int) =~= Seq::<(ResourceType, u32)>::empty());
        assert forall|rt: ResourceType| #[trigger] count_of(inventory.slots@, rt) == count_of(start, rt)
            - cost_in(building_type, rt) by {
            law_paying_deducts_the_cost(start, building_type, rt);
        }
    }
    true
}

proof fn lemma_paying_deducts(
    slots: Seq<Option<InventorySlot>>,
    cost: Seq<(ResourceType, u32)>,
    rt: ResourceType,
)
    requires
        types_distinct(cost),
        affords(slots, cost),
    ensures
        count_of(slots_after_paying(slots, cost), rt) == count_of(slots, rt) - cost_total(cost, rt),
    decreases cost.len(),
{
    if cost.len() > 0 {
        let first = cost[0];
        let rest = cost.drop_first();
        let s1 = slots_after_remove(slots, first.0, first.1);
        assert(count_of(slots, cost[0].0) >= cost[0].1);
        law_remove_takes_what_is_held(slots, first.0, first.1);
        assert(types_distinct(rest)) by {
            assert forall|i: int, j: int| 0 <= i < j < rest.len() implies #[trigger] rest[i].0
                != #[trigger] rest[j].0 by {
                assert(cost[i + 1].0 != cost[j + 1].0);
            }
        }
        assert(affords(s1, rest)) by {
            assert forall|i: int| 0 <= i < rest.len() implies count_of(s1, #[trigger] rest[i].0)
                >= rest[i].1 by {
                assert(cost[0].0 != cost[i + 1].0);
                assert(count_of(slots, cost[i + 1].0) >= cost[i + 1].1);
            }
        }
        lemma_paying_deducts(s1, rest, rt);
    }
}

/// Paying for a building takes exactly its cost out of an inventory that
/// holds the cost, resource by resource.
pub proof fn law_paying_deducts_the_cost(
    slots: Seq<Option<InventorySlot>>,
    building_type: BuildingType,
    rt: ResourceType,
)
    requires
        affords(slots, building_cost(building_type)),
    ensures
        count_of(slots_after_paying(slots, building_cost(building_type)), rt) == count_of(slots, rt)
            - cost_in(building_type, rt),
{
    lemma_paying_deducts(slots, building_cost(building_type), rt);
}

} // verus!
