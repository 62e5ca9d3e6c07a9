//! Movement orders on the map grid: accepting an order, planning a path to
//! it with A*, and stepping along the planned path.
//!
//! The search moves in the eight directions, stays within fifty cells of the
//! start and the destination on each axis, and avoids every cell that holds
//! an obstacle. A step to a cell diagonal to the start costs 14, any other
//! step 10; the estimate of the remaining cost is ten times the Manhattan
//! distance to the destination.

use vstd::prelude::*;

use crate::components::movement::{GridPos, MoveTarget};
use pathfinding::prelude::astar;

verus! {

/// The farthest an order may reach: the destination lies within a circle
/// of radius 30 cells around the unit.
pub open spec fn within_order_range(from: GridPos, to: GridPos) -> bool {
    let dx = to.x - from.x;
    let dy = to.y - from.y;
    dx * dx + dy * dy <= 900
}

pub open spec fn int_min(a: int, b: int) -> int {
    if a <= b { a } else { b }
}

pub open spec fn int_max(a: int, b: int) -> int {
    if a >= b { a } else { b }
}

pub open spec fn int_abs(a: int) -> int {
    if a >= 0 { a } else { -a }
}

/// The cell as a pair of coordinates.
pub open spec fn pair_of(p: GridPos) -> (i32, i32) {
    (p.x, p.y)
}

/// The obstacle cells as pairs of coordinates.
pub open spec fn obstacle_pairs(obstacles: Seq<GridPos>) -> Seq<(i32, i32)> {
    obstacles.map_values(|o: GridPos| pair_of(o))
}

/// The cell at a pair of coordinates.
pub open spec fn cell_of(p: (i32, i32)) -> GridPos {
    GridPos { x: p.0, y: p.1 }
}

/// The search stays within fifty cells of the start and the destination.
pub open spec fn in_search_region(c: (int, int), start: (i32, i32), dest: (i32, i32)) -> bool {
    &&& int_min(start.0 as int, dest.0 as int) - 50 <= c.0 <= int_max(start.0 as int, dest.0 as int)
        + 50
    &&& int_min(start.1 as int, dest.1 as int) - 50 <= c.1 <= int_max(start.1 as int, dest.1 as int)
        + 50
}

/// A cell the search may enter: on the grid, in the search region, and free
/// of obstacles.
pub open spec fn open_cell(
    c: (int, int),
    start: (i32, i32),
    dest: (i32, i32),
    obstacles: Seq<(i32, i32)>,
) -> bool {
    &&& i32::MIN <= c.0 <= i32::MAX
    &&& i32::MIN <= c.1 <= i32::MAX
    &&& in_search_region(c, start, dest)
    &&& !obstacles.contains((c.0 as i32, c.1 as i32))
}

/// The cost of stepping onto `c`: 14 where `c` is diagonal to the start,
/// 10 otherwise.
pub open spec fn step_cost(c: (int, int), start: (i32, i32)) -> u32 {
    if int_abs(c.0 - start.0) == 1 && int_abs(c.1 - start.1) == 1 {
        14
    } else {
        10
    }
}

/// The eight directions in the order the search tries them: the four
/// cardinal ones, then the diagonals.
pub open spec fn direction(k: int) -> (int, int) {
    if k == 0 {
        (0, 1)
    } else if k == 1 {
        (1, 0)
    } else if k == 2 {
        (0, -1)
    } else if k == 3 {
        (-1, 0)
    } else if k == 4 {
        (1, 1)
    } else if k == 5 {
        (1, -1)
    } else if k == 6 {
        (-1, 1)
    } else {
        (-1, -1)
    }
}

/// The open neighbours of `p` reached through directions `k` to 7, in
/// order, each with its step cost.
pub open spec fn neighbors_from(
    p: (i32, i32),
    start: (i32, i32),
    dest: (i32, i32),
    obstacles: Seq<(i32, i32)>,
    k: int,
) -> Seq<((i32, i32), u32)>
    decreases 8 - k,
{
    if k >= 8 || k < 0 {
        Seq::empty()
    } else {
        let c = (p.0 + direction(k).0, p.1 + direction(k).1);
        if open_cell(c, start, dest, obstacles) {
            seq![((c.0 as i32, c.1 as i32), step_cost(c, start))] + neighbors_from(
                p,
                start,
                dest,
                obstacles,
                k + 1,
            )
        } else {
            neighbors_from(p, start, dest, obstacles, k + 1)
        }
    }
}

/// `b` is one of the open neighbours of `a`.
pub open spec fn is_step(
    a: (i32, i32),
    b: (i32, i32),
    start: (i32, i32),
    dest: (i32, i32),
    obstacles: Seq<(i32, i32)>,
) -> bool {
    &&& b != a
    &&& -1 <= b.0 - a.0 <= 1
    &&& -1 <= b.1 - a.1 <= 1
    &&& open_cell((b.0 as int, b.1 as int), start, dest, obstacles)
}

/// A walk of open steps from `start` to `dest`.
pub open spec fn is_walk(
    w: Seq<(i32, i32)>,
    start: (i32, i32),
    dest: (i32, i32),
    obstacles: Seq<(i32, i32)>,
) -> bool {
    &&& w.len() >= 1
    &&& w[0] == start
    &&& w.last() == dest
    &&& forall|i: int|
        0 <= i < w.len() - 1 ==> #[trigger] is_step(w[i], w[i + 1], start, dest, obstacles)
}

/// No cell occurs twice.
pub open spec fn no_repeats(w: Seq<(i32, i32)>) -> bool {
    forall|i: int, j: int| 0 <= i < j < w.len() ==> #[trigger] w[i] != #[trigger] w[j]
}

/// What A* returns for a search from `start` to `dest` around `obstacles`
/// over the neighbours, costs and estimate described at the top of this
/// file: the path found and its cost.
pub uninterp spec fn astar_result(
    start: (i32, i32),
    dest: (i32, i32),
    obstacles: Seq<(i32, i32)>,
) -> Option<(Seq<(i32, i32)>, u32)>;

/// The path that a search result leaves for the unit: the found path
/// without its first cell, which is where the unit stands.
pub open spec fn remaining_path(found: Seq<(i32, i32)>) -> Seq<GridPos> {
    found.skip(1).map_values(|c: (i32, i32)| cell_of(c))
}

/// The order after a search result: a found path of more than one cell is
/// taken up; otherwise the order is dropped.
pub open spec fn after_search(
    target_destination: Option<GridPos>,
    target_path: Seq<GridPos>,
    found: Option<(Seq<(i32, i32)>, u32)>,
) -> (Option<GridPos>, Seq<GridPos>) {
    match found {
        Some((p, _)) => if p.len() > 1 {
            (target_destination, remaining_path(p))
        } else {
            (None, target_path)
        },
        None => (None, target_path),
    }
}

/// The order after a planning pass for a unit standing at `current`.
pub open spec fn after_planning(
    current: GridPos,
    target_destination: Option<GridPos>,
    target_path: Seq<GridPos>,
    obstacles: Seq<GridPos>,
) -> (Option<GridPos>, Seq<GridPos>) {
    match target_destination {
        None => (target_destination, target_path),
        Some(d) => if !within_order_range(current, d) {
            (None, target_path)
        } else if target_path.len() > 0 {
            (target_destination, target_path)
        } else if current == d {
            (None, target_path)
        } else {
            after_search(
                target_destination,
                target_path,
                astar_result(
                    pair_of(current),
                    pair_of(d),
                    obstacle_pairs(obstacles),
                ),
            )
        },
    }
}

/// Whether an order from `from` to `to` is within range.
pub fn order_in_range(from: GridPos, to: GridPos) -> (ok: bool)
    ensures
        ok == within_order_range(from, to),
{
    let dx: i64 = to.x as i64 - from.x as i64;
    let dy: i64 = to.y as i64 - from.y as i64;
    if dx > 30 || dx < -30 || dy > 30 || dy < -30 {
        assert(dx * dx + dy * dy > 900) by (nonlinear_arith)
            requires
                dx > 30 || dx < -30 || dy > 30 || dy < -30,
        ;
        false
    } else {
        assert(0 <= dx * dx <= 900 && 0 <= dy * dy <= 900) by (nonlinear_arith)
            requires
                -30 <= dx <= 30,
                -30 <= dy <= 30,
        ;
        dx * dx + dy * dy <= 900
    }
}

/// Whether `c` is one of the obstacles.
fn is_obstacle(c: (i32, i32), obstacles: &Vec<(i32, i32)>) -> (found: bool)
    ensures
        found == obstacles@.contains(c),
{
    let n = obstacles.len();
    let mut i: usize = 0;
    while i < n
        invariant
            n == obstacles@.len(),
            i <= n,
            forall|j: int| 0 <= j < i ==> #[trigger] obstacles@[j] != c,
        decreases n - i,
    {
        if obstacles[i].0 == c.0 && obstacles[i].1 == c.1 {
            assert(obstacles@[i as int] == c);
            return true;
        }
        i = i + 1;
    }
    false
}

/// The direction tried `k`-th.
fn direction_at(k: usize) -> (d: (i64, i64))
    requires
        k < 8,
    ensures
        d.0 == direction(k as int).0,
        d.1 == direction(k as int).1,
{
    if k == 0 {
        (0, 1)
    } else if k == 1 {
        (1, 0)
    } else if k == 2 {
        (0, -1)
    } else if k == 3 {
        (-1, 0)
    } else if k == 4 {
        (1, 1)
    } else if k == 5 {
        (1, -1)
    } else if k == 6 {
        (-1, 1)
    } else {
        (-1, -1)
    }
}

/// The open neighbours of `p`, in direction order, with their step costs.
pub fn grid_neighbors(
    p: (i32, i32),
    start: (i32, i32),
    dest: (i32, i32),
    obstacles: &Vec<(i32, i32)>,
) -> (next: Vec<((i32, i32), u32)>)
    ensures
        next@ == neighbors_from(p, start, dest, obstacles@, 0),
{
    let min_x: i64 = (if start.0 < dest.0 { start.0 } else { dest.0 }) as i64 - 50;
    let max_x: i64 = (if start.0 > dest.0 { start.0 } else { dest.0 }) as i64 + 50;
    let min_y: i64 = (if start.1 < dest.1 { start.1 } else { dest.1 }) as i64 - 50;
    let max_y: i64 = (if start.1 > dest.1 { start.1 } else { dest.1 }) as i64 + 50;
    let mut next: Vec<((i32, i32), u32)> = Vec::new();
    let mut k: usize = 0;
    while k < 8
        invariant
            k <= 8,
            min_x == int_min(start.0 as int, dest.0 as int) - 50,
            max_x == int_max(start.0 as int, dest.0 as int) + 50,
            min_y == int_min(start.1 as int, dest.1 as int) - 50,
            max_y == int_max(start.1 as int, dest.1 as int) + 50,
            next@ + neighbors_from(p, start, dest, obstacles@, k as int) == neighbors_from(
                p,
                start,
                dest,
                obstacles@,
                0,
            ),
        decreases 8 - k,
    {
        let d = direction_at(k);
        let cx: i64 = p.0 as i64 + d.0;
        let cy: i64 = p.1 as i64 + d.1;
        let on_grid = i32::MIN as i64 <= cx && cx <= i32::MAX as i64 && i32::MIN as i64 <= cy && cy
            <= i32::MAX as i64;
        let in_region = min_x <= cx && cx <= max_x && min_y <= cy && cy <= max_y;
        if on_grid && in_region {
            let c: (i32, i32) = (cx as i32, cy as i32);
            if !is_obstacle(c, obstacles) {
                let ax: i64 = if cx >= start.0 as i64 { cx - start.0 as i64 } else { start.0 as i64 - cx };
                let ay: i64 = if cy >= start.1 as i64 { cy - start.1 as i64 } else { start.1 as i64 - cy };
                let cost: u32 = if ax == 1 && ay == 1 { 14 } else { 10 };
                proof {
                    let rest = neighbors_from(p, start, dest, obstacles@, k + 1);
                    assert(next@.push((c, cost)) + rest =~= next@ + (seq![(c, cost)] + rest));
                }
                next.push((c, cost));
            }
        }
        k = k + 1;
    }
    proof {
        assert(next@ + Seq::<((i32, i32), u32)>::empty() =~= next@);
    }
    next
}

/// Ten times the Manhattan distance from `p` to `dest` (the largest `u32`
/// where that does not fit).
pub fn path_heuristic(p: (i32, i32), dest: (i32, i32)) -> (h: u32)
    ensures
        (int_abs(p.0 - dest.0) + int_abs(p.1 - dest.1)) * 10 <= u32::MAX ==> h == (int_abs(
            p.0 - dest.0,
        ) + int_abs(p.1 - dest.1)) * 10,
        (int_abs(p.0 - dest.0) + int_abs(p.1 - dest.1)) * 10 > u32::MAX ==> h == u32::MAX,
{
    let ax: i64 = if p.0 >= dest.0 { p.0 as i64 - dest.0 as i64 } else { dest.0 as i64 - p.0 as i64 };
    let ay: i64 = if p.1 >= dest.1 { p.1 as i64 - dest.1 as i64 } else { dest.1 as i64 - p.1 as i64 };
    let d: i64 = ax + ay;
    if d <= 429496729 {
        (d * 10) as u32
    } else {
        u32::MAX
    }
}

/// Whether `p` is the destination.
pub fn at_goal(p: (i32, i32), dest: (i32, i32)) -> (reached: bool)
    ensures
        reached == (p == dest),
{
    p.0 == dest.0 && p.1 == dest.1
}

/// Runs `pathfinding::directed::astar::astar` from `start`, with
/// `grid_neighbors` as successors, `path_heuristic` as the estimate and
/// `at_goal` as the goal test. The contract claims what the crate's
/// documentation and source give: a path found starts at `start`, ends at
/// the destination, moves from each cell to one of its open neighbours and
/// never visits a cell twice; no path is returned only where no such walk
/// exists (the search region is finite, and the search expands every cell
/// it reaches before giving up). Left unsaid: that the path is a cheapest
/// one (the estimate can exceed the true cost of a diagonal step), and what
/// the returned cost is (with such an estimate it need not be the summed
/// cost of the returned path). The search adds costs and estimates in `u32`,
/// which overflows for cells far apart; the destination is therefore
/// required to lie within order range of the start, which keeps every cost
/// and estimate in the search region small.
#[verifier::external_body]
fn astar_search(start: (i32, i32), dest: (i32, i32), obstacles: &Vec<(i32, i32)>) -> (found:
    Option<(Vec<(i32, i32)>, u32)>)
    requires
        within_order_range(cell_of(start), cell_of(dest)),
    ensures
        match found {
            Some((p, cost)) => {
                &&& astar_result(start, dest, obstacles@) == Some((p@, cost))
                &&& is_walk(p@, start, dest, obstacles@)
                &&& no_repeats(p@)
            },
            None => {
                &&& astar_result(start, dest, obstacles@) is None
                &&& forall|w: Seq<(i32, i32)>| !is_walk(w, start, dest, obstacles@)
            },
        },
{
    astar(
        &start,
        |p: &(i32, i32)| grid_neighbors(*p, start, dest, obstacles),
        |p: &(i32, i32)| path_heuristic(*p, dest),
        |p: &(i32, i32)| at_goal(*p, dest),
    )
}

/// A search result as plain sequences.
pub open spec fn search_view(found: Option<(Vec<(i32, i32)>, u32)>) -> Option<(Seq<(i32, i32)>, u32)> {
    match found {
        Some((p, c)) => Some((p@, c)),
        None => None,
    }
}

/// Takes up a search result: a found path of more than one cell becomes the
/// unit's path, without the cell the unit stands on; a shorter result or no
/// result drops the order.
pub fn follow_found_path(move_target: &mut MoveTarget, found: Option<(Vec<(i32, i32)>, u32)>)
    ensures
        (final(move_target).destination, final(move_target).path@) == after_search(
            old(move_target).destination,
            old(move_target).path@,
            search_view(found),
        ),
{
    match found {
        Some((p, _)) => {
            if p.len() > 1 {
                let mut path: Vec<GridPos> = Vec::new();
                let mut i: usize = 1;
                while i < p.len()
                    invariant
                        1 <= i <= p@.len(),
                        path@ == p@.subrange(1, i as int).map_values(|c: (i32, i32)| cell_of(c)),
                    decreases p@.len() - i,
                {
                    path.push(GridPos { x: p[i].0, y: p[i].1 });
                    proof {
                        assert(p@.subrange(1, i + 1) =~= p@.subrange(1, i as int).push(p@[i as int]));
                    }
                    i = i + 1;
                }
                proof {
                    assert(p@.subrange(1, p@.len() as int) =~= p@.skip(1));
                    assert(path@ =~= remaining_path(p@));
                }
                move_target.path = path;
            } else {
                move_target.destination = None;
            }
        },
        None => {
            move_target.destination = None;
        },
    }
}

/// Accepts an order to move to `target_grid` for a unit at `current_pos`
/// where the target is within range and holds no collider: the old path is
/// dropped and the target becomes the destination. Returns whether the
/// order was accepted; a refused order leaves `move_target` as it was.
pub fn set_movement_target(
    target_grid: GridPos,
    current_pos: GridPos,
    colliders: &Vec<GridPos>,
    move_target: &mut MoveTarget,
) -> (accepted: bool)
    ensures
        accepted == (within_order_range(current_pos, target_grid) && !colliders@.contains(
            target_grid,
        )),
        accepted ==> final(move_target).destination == Some(target_grid) && final(move_target).path@.len() == 0,
        !accepted ==> final(move_target).destination == old(move_target).destination && final(move_target).path@ == old(move_target).path@,
{
    if !order_in_range(current_pos, target_grid) {
        return false;
    }
    let n = colliders.len();
    let mut i: usize = 0;
    while i < n
        invariant
            n == colliders@.len(),
            i <= n,
            forall|j: int| 0 <= j < i ==> #[trigger] colliders@[j] != target_grid,
        decreases n - i,
    {
        if colliders[i] == target_grid {
            assert(colliders@[i as int] == target_grid);
            return false;
        }
        i = i + 1;
    }
    move_target.path.clear();
    move_target.destination = Some(target_grid);
    true
}

/// One planning pass for a unit at `current` that is not between cells: an
/// order out of range is dropped; an order that already has a path keeps
/// it; an order to the cell the unit stands on is dropped; otherwise A*
/// searches a path around `obstacles` and its result is taken up as
/// `follow_found_path` describes.
pub fn calculate_path(current: GridPos, move_target: &mut MoveTarget, obstacles: &Vec<GridPos>)
    ensures
        (final(move_target).destination, final(move_target).path@) == after_planning(
            current,
            old(move_target).destination,
            old(move_target).path@,
            obstacles@,
        ),
        ({
            let searched = match old(move_target).destination {
                Some(d) => within_order_range(current, d) && old(move_target).path@.len() == 0
                    && current != d,
                None => false,
            };
            searched && final(move_target).destination is None ==> forall|w: Seq<(i32, i32)>|
                !#[trigger] is_walk(
                    w,
                    pair_of(current),
                    pair_of(old(move_target).destination->Some_0),
                    obstacle_pairs(obstacles@),
                )
        }),
        old(move_target).path@.len() == 0 && final(move_target).path@.len() > 0 ==> {
            &&& final(move_target).destination == old(move_target).destination
            &&& final(move_target).destination is Some
            &&& is_walk(
                seq![pair_of(current)] + final(move_target).path@.map_values(
                    |c: GridPos| pair_of(c),
                ),
                pair_of(current),
                pair_of(final(move_target).destination->Some_0),
                obstacle_pairs(obstacles@),
            )
            &&& no_repeats(
                seq![pair_of(current)] + final(move_target).path@.map_values(
                    |c: GridPos| pair_of(c),
                ),
            )
        },
{
    match move_target.destination {
        None => {},
        Some(destination) => {
            if !order_in_range(current, destination) {
                move_target.destination = None;
            } else if move_target.path.len() == 0 {
                if current == destination {
                    move_target.destination = None;
                } else {
                    let mut cells: Vec<(i32, i32)> = Vec::new();
                    let n = obstacles.len();
                    let mut i: usize = 0;
                    while i < n
                        invariant
                            n == obstacles@.len(),
                            i <= n,
                            cells@ == obstacles@.subrange(0, i as int).map_values(
                                |o: GridPos| pair_of(o),
                            ),
                        decreases n - i,
                    {
                        cells.push((obstacles[i].x, obstacles[i].y));
                        proof {
                            assert(obstacles@.subrange(0, i + 1) =~= obstacles@.subrange(
                                0,
                                i as int,
                            ).push(obstacles@[i as int]));
                        }
                        i = i + 1;
                    }
                    proof {
                        assert(obstacles@.subrange(0, n as int) =~= obstacles@);
                    }
                    let found = astar_search(
                        (current.x, current.y),
                        (destination.x, destination.y),
                        &cells,
                    );
                    let ghost found_seen = search_view(found);
                    follow_found_path(move_target, found);
                    proof {
                        if let Some((p, c)) = found_seen {
                            if p.len() <= 1 {
                                assert(p[0] == p.last());
                            }
                            if p.len() > 1 {
                                let walked = seq![pair_of(current)] + move_target.path@.map_values(
                                    |c: GridPos| pair_of(c),
                                );
                                assert(walked =~= p);
                            }
                        }
                    }
                }
            }
        },
    }
}

/// Starts the next step of a unit that is not between cells: the first cell
/// of its path is taken off the path and returned. With no path left, an
/// order that is still set is finished and dropped.
pub fn move_along_path(move_target: &mut MoveTarget) -> (next: Option<GridPos>)
    ensures
        old(move_target).path@.len() > 0 ==> {
            &&& next == Some(old(move_target).path@[0])
            &&& final(move_target).path@ == old(move_target).path@.drop_first()
            &&& final(move_target).destination == old(move_target).destination
        },
        old(move_target).path@.len() == 0 ==> {
            &&& next is None
            &&& final(move_target).path@ == old(move_target).path@
            &&& final(move_target).destination is None
        },
{
    if move_target.path.len() > 0 {
        let next = move_target.path.remove(0);
        proof {
            assert(old(move_target).path@.remove(0) =~= old(move_target).path@.drop_first());
        }
        Some(next)
    } else {
        move_target.destination = None;
        None
    }
}

proof fn lemma_neighbors_sound(
    p: (i32, i32),
    start: (i32, i32),
    dest: (i32, i32),
    obstacles: Seq<(i32, i32)>,
    k: int,
)
    requires
        0 <= k,
    ensures
        forall|i: int|
            0 <= i < neighbors_from(p, start, dest, obstacles, k).len() ==> {
                let n = #[trigger] neighbors_from(p, start, dest, obstacles, k)[i];
                &&& is_step(p, n.0, start, dest, obstacles)
                &&& n.1 == step_cost((n.0.0 as int, n.0.1 as int), start)
            },
    decreases 8 - k,
{
    if k < 8 {
        lemma_neighbors_sound(p, start, dest, obstacles, k + 1);
        let rest = neighbors_from(p, start, dest, obstacles, k + 1);
        let c = (p.0 + direction(k).0, p.1 + direction(k).1);
        if open_cell(c, start, dest, obstacles) {
            let all = neighbors_from(p, start, dest, obstacles, k);
            assert forall|i: int| 0 <= i < all.len() implies {
                let n = #[trigger] all[i];
                &&& is_step(p, n.0, start, dest, obstacles)
                &&& n.1 == step_cost((n.0.0 as int, n.0.1 as int), start)
            } by {
                if i > 0 {
                    assert(all[i] == rest[i - 1]);
                }
            }
        }
    }
}

proof fn lemma_neighbors_complete(
    p: (i32, i32),
    b: (i32, i32),
    start: (i32, i32),
    dest: (i32, i32),
    obstacles: Seq<(i32, i32)>,
    kd: int,
    k: int,
)
    requires
        0 <= k <= kd < 8,
        b.0 == p.0 + direction(kd).0,
        b.1 == p.1 + direction(kd).1,
        is_step(p, b, start, dest, obstacles),
    ensures
        neighbors_from(p, start, dest, obstacles, k).contains(
            (b, step_cost((b.0 as int, b.1 as int), start)),
        ),
    decreases kd - k,
{
    let all = neighbors_from(p, start, dest, obstacles, k);
    let entry = (b, step_cost((b.0 as int, b.1 as int), start));
    if k == kd {
        assert(all[0] == entry);
    } else {
        lemma_neighbors_complete(p, b, start, dest, obstacles, kd, k + 1);
        let rest = neighbors_from(p, start, dest, obstacles, k + 1);
        let j = choose|j: int| 0 <= j < rest.len() && rest[j] == entry;
        let c = (p.0 + direction(k).0, p.1 + direction(k).1);
        if open_cell(c, start, dest, obstacles) {
            assert(all[j + 1] == entry);
        } else {
            assert(all[j] == entry);
        }
    }
}

/// The successors that the search is given are exactly the open steps of
/// the walks it may return: every cell `grid_neighbors` lists is an open
/// step with its cost, and every open step is listed.
pub proof fn law_successors_are_the_open_steps(
    p: (i32, i32),
    b: (i32, i32),
    start: (i32, i32),
    dest: (i32, i32),
    obstacles: Seq<(i32, i32)>,
)
    ensures
        forall|i: int|
            0 <= i < neighbors_from(p, start, dest, obstacles, 0).len() ==> {
                let n = #[trigger] neighbors_from(p, start, dest, obstacles, 0)[i];
                &&& is_step(p, n.0, start, dest, obstacles)
                &&& n.1 == step_cost((n.0.0 as int, n.0.1 as int), start)
            },
        is_step(p, b, start, dest, obstacles) ==> neighbors_from(
            p,
            start,
            dest,
            obstacles,
            0,
        ).contains((b, step_cost((b.0 as int, b.1 as int), start))),
{
    lemma_neighbors_sound(p, start, dest, obstacles, 0);
    if is_step(p, b, start, dest, obstacles) {
        let dx = b.0 - p.0;
        let dy = b.1 - p.1;
        let kd: int = if dx == 0 && dy == 1 {
            0
        } else if dx == 1 && dy == 0 {
            1
        } else if dx == 0 && dy == -1 {
            2
        } else if dx == -1 && dy == 0 {
            3
        } else if dx == 1 && dy == 1 {
            4
        } else if dx == 1 && dy == -1 {
            5
        } else if dx == -1 && dy == 1 {
            6
        } else {
            7
        };
        lemma_neighbors_complete(p, b, start, dest, obstacles, kd, 0);
    }
}

/// The search region reaches fifty cells around both ends of the search on
/// each axis, whichever axis it is: every cell within fifty cells of the
/// start on both axes, or of the destination on both axes, that lies on the
/// grid and holds no obstacle is open; a cell more than fifty cells below
/// or above both ends on one axis is not, and no obstacle is.
pub proof fn law_search_region_surrounds_both_ends(
    c: (int, int),
    start: (i32, i32),
    dest: (i32, i32),
    obstacles: Seq<(i32, i32)>,
)
    ensures
        (-50 <= c.0 - start.0 <= 50 && -50 <= c.1 - start.1 <= 50 || -50 <= c.0 - dest.0 <= 50
            && -50 <= c.1 - dest.1 <= 50) && i32::MIN <= c.0 <= i32::MAX && i32::MIN <= c.1
            <= i32::MAX && !obstacles.contains((c.0 as i32, c.1 as i32)) ==> open_cell(
            c,
            start,
            dest,
            obstacles,
        ),
        (c.0 < start.0 - 50 && c.0 < dest.0 - 50) || (c.0 > start.0 + 50 && c.0 > dest.0 + 50) || (
        c.1 < start.1 - 50 && c.1 < dest.1 - 50) || (c.1 > start.1 + 50 && c.1 > dest.1 + 50)
            ==> !open_cell(c, start, dest, obstacles),
        forall|o: (i32, i32)|
            #[trigger] obstacles.contains(o) ==> !open_cell((o.0 as int, o.1 as int), start, dest, obstacles),
{
}

/// An order to any free cell next to the unit, on a map with no obstacles
/// in the way, is planned as a single step to that cell.
pub proof fn law_free_neighbour_is_a_step(
    start: (i32, i32),
    b: (i32, i32),
    obstacles: Seq<(i32, i32)>,
)
    requires
        b != start,
        -1 <= b.0 - start.0 <= 1,
        -1 <= b.1 - start.1 <= 1,
        !obstacles.contains(b),
    ensures
        is_step(start, b, start, b, obstacles),
        is_walk(seq![start, b], start, b, obstacles),
{
    law_search_region_surrounds_both_ends((b.0 as int, b.1 as int), start, b, obstacles);
    assert((b.0 as int as i32, b.1 as int as i32) == b);
    let w = seq![start, b];
    assert(is_step(w[0], w[1], start, b, obstacles));
}

/// Whether an order is within range depends only on the offset from the
/// unit to the target: it is the same in both directions and after moving
/// both cells by the same amount, an order along one axis is in range
/// exactly up to thirty cells, an order at most twenty-one cells away on
/// each axis is always in range, and one more than thirty cells away on
/// either axis never is.
pub proof fn law_order_range_depends_on_the_offset(
    from: GridPos,
    to: GridPos,
    sx: int,
    sy: int,
)
    ensures
        within_order_range(from, to) == within_order_range(to, from),
        i32::MIN <= from.x + sx <= i32::MAX && i32::MIN <= to.x + sx <= i32::MAX && i32::MIN
            <= from.y + sy <= i32::MAX && i32::MIN <= to.y + sy <= i32::MAX ==> within_order_range(
            from,
            to,
        ) == within_order_range(
            GridPos { x: (from.x + sx) as i32, y: (from.y + sy) as i32 },
            GridPos { x: (to.x + sx) as i32, y: (to.y + sy) as i32 },
        ),
        to.y == from.y ==> (within_order_range(from, to) <==> -30 <= to.x - from.x <= 30),
        to.x == from.x ==> (within_order_range(from, to) <==> -30 <= to.y - from.y <= 30),
        -21 <= to.x - from.x <= 21 && -21 <= to.y - from.y <= 21 ==> within_order_range(from, to),
        to.x - from.x > 30 || to.x - from.x < -30 || to.y - from.y > 30 || to.y - from.y < -30
            ==> !within_order_range(from, to),
{
    let dx: int = to.x - from.x;
    let dy: int = to.y - from.y;
    assert((from.x - to.x) * (from.x - to.x) == dx * dx) by (nonlinear_arith)
        requires
            dx == to.x - from.x,
    ;
    assert((from.y - to.y) * (from.y - to.y) == dy * dy) by (nonlinear_arith)
        requires
            dy == to.y - from.y,
    ;
    assert(dx * dx >= 0 && dy * dy >= 0) by (nonlinear_arith);
    assert(dy == 0 ==> dy * dy == 0) by (nonlinear_arith);
    assert(dx == 0 ==> dx * dx == 0) by (nonlinear_arith);
    assert(dy == 0 ==> (dx * dx <= 900 <==> -30 <= dx <= 30)) by (nonlinear_arith);
    assert(dx == 0 ==> (dy * dy <= 900 <==> -30 <= dy <= 30)) by (nonlinear_arith);
    assert(-21 <= dx <= 21 && -21 <= dy <= 21 ==> dx * dx + dy * dy <= 900) by (nonlinear_arith);
    assert(dx > 30 || dx < -30 ==> dx * dx > 900) by (nonlinear_arith);
    assert(dy > 30 || dy < -30 ==> dy * dy > 900) by (nonlinear_arith);
}

/// An order accepted for a unit away from the target reaches the search:
/// planning neither drops it for its range nor skips it, and what the unit
/// is left with is what the search gives.
pub proof fn law_accepted_order_is_searched(
    current: GridPos,
    target: GridPos,
    colliders: Seq<GridPos>,
    obstacles: Seq<GridPos>,
)
    requires
        within_order_range(current, target),
        !colliders.contains(target),
        current != target,
    ensures
        after_planning(current, Some(target), Seq::empty(), obstacles) == after_search(
            Some(target),
            Seq::empty(),
            astar_result(
                pair_of(current),
                pair_of(target),
                obstacle_pairs(obstacles),
            ),
        ),
{
}

} // verus!
