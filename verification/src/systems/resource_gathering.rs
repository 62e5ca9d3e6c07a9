//! The decisions of the gathering loop: where a worker stands to harvest,
//! which skill a resource trains, what happens to a harvest, and handing
//! wood to another inventory.

use vstd::prelude::*;

use crate::components::inventory::{
    add_overflow, count_of, removed_amount, slots_after_add, slots_after_remove, Inventory,
    ResourceType,
};
use crate::components::movement::GridPos;

verus! {

/// The skill that gathering a resource relies on and trains.
#[derive(Debug, Clone, Copy, PartialEq, Eq, Structural)]
pub enum SkillKind {
    Mining,
    Woodcutting,
    Harvesting,
}

/// Wood trains woodcutting, gold mining, stone harvesting.
pub open spec fn skill_of(rt: ResourceType) -> SkillKind {
    match rt {
        ResourceType::Wood => SkillKind::Woodcutting,
        ResourceType::Gold => SkillKind::Mining,
        ResourceType::Stone => SkillKind::Harvesting,
    }
}

/// The skill that gathering `resource_type` relies on.
pub fn skill_for(resource_type: ResourceType) -> (skill: SkillKind)
    ensures
        skill == skill_of(resource_type),
{
    match resource_type {
        ResourceType::Wood => SkillKind::Woodcutting,
        ResourceType::Gold => SkillKind::Mining,
        ResourceType::Stone => SkillKind::Harvesting,
    }
}

/// The resource's display name.
pub fn resource_label(resource_type: ResourceType) -> (name: &'static str)
    ensures
        resource_type == ResourceType::Gold ==> name@ == "Gold"@,
        resource_type == ResourceType::Wood ==> name@ == "Wood"@,
        resource_type == ResourceType::Stone ==> name@ == "Stone"@,
{
    match resource_type {
        ResourceType::Gold => "Gold",
        ResourceType::Wood => "Wood",
        ResourceType::Stone => "Stone",
    }
}

/// What a worker gathers, in words.
pub fn gathering_description(resource_type: ResourceType) -> (text: &'static str)
    ensures
        resource_type == ResourceType::Wood ==> text@ == "wood from tree"@,
        resource_type == ResourceType::Gold ==> text@ == "gold from mine"@,
        resource_type == ResourceType::Stone ==> text@ == "stone from quarry"@,
{
    match resource_type {
        ResourceType::Wood => "wood from tree",
        ResourceType::Gold => "gold from mine",
        ResourceType::Stone => "stone from quarry",
    }
}

/// The squared distance between two cells.
pub open spec fn distance_squared(a: GridPos, b: GridPos) -> int {
    (a.x - b.x) * (a.x - b.x) + (a.y - b.y) * (a.y - b.y)
}

/// The cells around a resource from which a worker harvests it, in the
/// order they are considered: left, right, below, above, then the corners
/// bottom-left, bottom-right, top-left, top-right.
pub open spec fn approach_cell(r: GridPos, k: int) -> GridPos {
    if k == 0 {
        GridPos { x: (r.x - 1) as i32, y: r.y }
    } else if k == 1 {
        GridPos { x: (r.x + 1) as i32, y: r.y }
    } else if k == 2 {
        GridPos { x: r.x, y: (r.y - 1) as i32 }
    } else if k == 3 {
        GridPos { x: r.x, y: (r.y + 1) as i32 }
    } else if k == 4 {
        GridPos { x: (r.x - 1) as i32, y: (r.y - 1) as i32 }
    } else if k == 5 {
        GridPos { x: (r.x + 1) as i32, y: (r.y - 1) as i32 }
    } else if k == 6 {
        GridPos { x: (r.x - 1) as i32, y: (r.y + 1) as i32 }
    } else {
        GridPos { x: (r.x + 1) as i32, y: (r.y + 1) as i32 }
    }
}

/// `c` is one of the eight cells around `r`.
pub open spec fn adjacent(c: GridPos, r: GridPos) -> bool {
    &&& c != r
    &&& -1 <= c.x - r.x <= 1
    &&& -1 <= c.y - r.y <= 1
}

/// The cells considered for harvesting a resource are exactly the eight
/// cells around it.
pub proof fn law_approach_cells_are_the_neighbours(r: GridPos, c: GridPos)
    requires
        i32::MIN < r.x < i32::MAX,
        i32::MIN < r.y < i32::MAX,
    ensures
        forall|k: int| 0 <= k < 8 ==> adjacent(#[trigger] approach_cell(r, k), r),
        adjacent(c, r) ==> exists|k: int| 0 <= k < 8 && #[trigger] approach_cell(r, k) == c,
{
    if adjacent(c, r) {
        let dx = c.x - r.x;
        let dy = c.y - r.y;
        let k: int = if dx == -1 && dy == 0 {
            0
        } else if dx == 1 && dy == 0 {
            1
        } else if dx == 0 && dy == -1 {
            2
        } else if dx == 0 && dy == 1 {
            3
        } else if dx == -1 && dy == -1 {
            4
        } else if dx == 1 && dy == -1 {
            5
        } else if dx == -1 && dy == 1 {
            6
        } else {
            7
        };
        assert(approach_cell(r, k) == c);
    }
}

fn approach_cell_at(r: GridPos, k: usize) -> (c: GridPos)
    requires
        k < 8,
        i32::MIN < r.x < i32::MAX,
        i32::MIN < r.y < i32::MAX,
    ensures
        c == approach_cell(r, k as int),
{
    if k == 0 {
        GridPos { x: r.x - 1, y: r.y }
    } else if k == 1 {
        GridPos { x: r.x + 1, y: r.y }
    } else if k == 2 {
        GridPos { x: r.x, y: r.y - 1 }
    } else if k == 3 {
        GridPos { x: r.x, y: r.y + 1 }
    } else if k == 4 {
        GridPos { x: r.x - 1, y: r.y - 1 }
    } else if k == 5 {
        GridPos { x: r.x + 1, y: r.y - 1 }
    } else if k == 6 {
        GridPos { x: r.x - 1, y: r.y + 1 }
    } else {
        GridPos { x: r.x + 1, y: r.y + 1 }
    }
}

fn squared_distance(a: GridPos, b: GridPos) -> (d: i128)
    ensures
        d == distance_squared(a, b),
{
    let dx: i128 = a.x as i128 - b.x as i128;
    let dy: i128 = a.y as i128 - b.y as i128;
    assert(0 <= dx * dx <= 0x4_0000_0000_0000_0000 && 0 <= dy * dy <= 0x4_0000_0000_0000_0000)
        by (nonlinear_arith)
        requires
            -0x2_0000_0000 <= dx <= 0x2_0000_0000,
            -0x2_0000_0000 <= dy <= 0x2_0000_0000,
    ;
    dx * dx + dy * dy
}

/// The cell next to the resource at `resource_grid` that is nearest to the
/// worker at `character_grid`; of equally near cells, the one considered
/// first.
pub fn approach_position(resource_grid: GridPos, character_grid: GridPos) -> (cell: GridPos)
    requires
        i32::MIN < resource_grid.x < i32::MAX,
        i32::MIN < resource_grid.y < i32::MAX,
    ensures
        exists|k: int|
            0 <= k < 8 && cell == approach_cell(resource_grid, k) && (forall|j: int|
                0 <= j < 8 ==> distance_squared(approach_cell(resource_grid, k), character_grid)
                    <= #[trigger] distance_squared(approach_cell(resource_grid, j), character_grid))
                && (forall|j: int|
                0 <= j < k ==> distance_squared(approach_cell(resource_grid, k), character_grid)
                    < #[trigger] distance_squared(approach_cell(resource_grid, j), character_grid)),
        adjacent(cell, resource_grid),
        forall|c: GridPos|
            adjacent(c, resource_grid) ==> distance_squared(cell, character_grid)
                <= #[trigger] distance_squared(c, character_grid),
{
    let mut best = approach_cell_at(resource_grid, 0);
    let mut best_distance = squared_distance(best, character_grid);
    let ghost mut best_k: int = 0;
    let mut k: usize = 1;
    while k < 8
        invariant
            1 <= k <= 8,
            i32::MIN < resource_grid.x < i32::MAX,
            i32::MIN < resource_grid.y < i32::MAX,
            0 <= best_k < k,
            best == approach_cell(resource_grid, best_k),
            best_distance == distance_squared(best, character_grid),
            forall|j: int|
                0 <= j < k ==> best_distance <= #[trigger] distance_squared(
                    approach_cell(resource_grid, j),
                    character_grid,
                ),
            forall|j: int|
                0 <= j < best_k ==> best_distance < #[trigger] distance_squared(
                    approach_cell(resource_grid, j),
                    character_grid,
                ),
        decreases 8 - k,
    {
        let candidate = approach_cell_at(resource_grid, k);
        let d = squared_distance(candidate, character_grid);
        if d < best_distance {
            best = candidate;
            best_distance = d;
            proof {
                best_k = k as int;
            }
        }
        k = k + 1;
    }
    proof {
        law_approach_cells_are_the_neighbours(resource_grid, best);
        assert forall|c: GridPos| adjacent(c, resource_grid) implies distance_squared(
            best,
            character_grid,
        ) <= #[trigger] distance_squared(c, character_grid) by {
            law_approach_cells_are_the_neighbours(resource_grid, c);
            let j = choose|j: int| 0 <= j < 8 && #[trigger] approach_cell(resource_grid, j) == c;
            assert(best_distance <= distance_squared(approach_cell(resource_grid, j), character_grid));
        }
    }
    best
}

/// Puts a harvest of `total_yield` of `resource_type` into the gatherer's
/// inventory and says whether gathering goes on: it goes on only where all
/// of the harvest fit.
pub fn store_harvest(
    inventory: &mut Inventory,
    resource_type: ResourceType,
    total_yield: u32,
    max_stack: u32,
) -> (keep_gathering: bool)
    ensures
        final(inventory).slots@ == slots_after_add(
            old(inventory).slots@,
            resource_type,
            total_yield,
            max_stack,
        ),
        final(inventory).max_slots == old(inventory).max_slots,
        keep_gathering == (add_overflow(old(inventory).slots@, resource_type, total_yield, max_stack)
            == 0),
{
    let overflow = inventory.add_resource(resource_type, total_yield, max_stack);
    overflow == 0
}

/// Hands one wood from `from` to `to`, whose stacks hold at most
/// `max_stack`, where `from` holds any wood; returns the amount `to`
/// received. Without wood, nothing changes.
pub fn give_wood(from: &mut Inventory, to: &mut Inventory, max_stack: u32) -> (moved: u32)
    requires
        count_of(old(from).slots@, ResourceType::Wood) <= u32::MAX,
    ensures
        count_of(old(from).slots@, ResourceType::Wood) == 0 ==> {
            &&& moved == 0
            &&& final(from).slots@ == old(from).slots@
            &&& final(to).slots@ == old(to).slots@
        },
        count_of(old(from).slots@, ResourceType::Wood) > 0 ==> ({
            let drained = slots_after_remove(old(from).slots@, ResourceType::Wood, 1);
            let overflow = add_overflow(old(to).slots@, ResourceType::Wood, 1, max_stack);
            &&& removed_amount(old(from).slots@, ResourceType::Wood, 1) == 1
            &&& final(to).slots@ == slots_after_add(old(to).slots@, ResourceType::Wood, 1, max_stack)
            &&& final(from).slots@ == (if overflow > 0 {
                slots_after_add(drained, ResourceType::Wood, overflow as u32, max_stack)
            } else {
                drained
            })
            &&& moved == 1 - overflow
        }),
        final(from).max_slots == old(from).max_slots,
        final(to).max_slots == old(to).max_slots,
{
    if from.count_resource(ResourceType::Wood) > 0 {
        from.transfer_to(to, ResourceType::Wood, 1, max_stack)
    } else {
        0
    }
}

} // verus!
