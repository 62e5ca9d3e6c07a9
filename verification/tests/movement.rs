use my_rts_game::components::movement::{GridPos, MoveTarget};
use my_rts_game::systems::movement::{
    at_goal, calculate_path, follow_found_path, grid_neighbors, move_along_path, order_in_range,
    path_heuristic, set_movement_target,
};

fn g(x: i32, y: i32) -> GridPos {
    GridPos { x, y }
}

fn target_to(d: GridPos) -> MoveTarget {
    MoveTarget { destination: Some(d), path: Vec::new() }
}

fn is_neighbour_step(a: GridPos, b: GridPos) -> bool {
    (a.x - b.x).abs() <= 1 && (a.y - b.y).abs() <= 1 && a != b
}

#[test]
fn default_move_target_has_no_order() {
    let t = MoveTarget::default();
    assert_eq!(t.destination, None);
    assert!(t.path.is_empty());
}

#[test]
fn order_range_is_a_circle_of_thirty_cells() {
    assert!(order_in_range(g(0, 0), g(30, 0)));
    assert!(order_in_range(g(0, 0), g(18, 24)));
    assert!(!order_in_range(g(0, 0), g(30, 1)));
    assert!(!order_in_range(g(0, 0), g(22, 22)));
    assert!(order_in_range(g(5, 5), g(5, 5)));
}

#[test]
fn accepted_order_replaces_path() {
    let mut t = MoveTarget { destination: Some(g(1, 1)), path: vec![g(0, 1), g(1, 1)] };
    let colliders = vec![g(4, 4)];
    assert!(set_movement_target(g(3, 2), g(0, 0), &colliders, &mut t));
    assert_eq!(t.destination, Some(g(3, 2)));
    assert!(t.path.is_empty());
}

#[test]
fn order_onto_collider_is_refused() {
    let mut t = MoveTarget::default();
    let colliders = vec![g(1, 1), g(3, 2)];
    assert!(!set_movement_target(g(3, 2), g(0, 0), &colliders, &mut t));
    assert_eq!(t.destination, None);
}

#[test]
fn order_too_far_is_refused() {
    let mut t = MoveTarget { destination: Some(g(2, 2)), path: vec![g(1, 1)] };
    assert!(!set_movement_target(g(40, 0), g(0, 0), &Vec::new(), &mut t));
    assert_eq!(t.destination, Some(g(2, 2)));
    assert_eq!(t.path, vec![g(1, 1)]);
}

#[test]
fn neighbours_come_in_direction_order_with_costs() {
    let n = grid_neighbors((0, 0), (0, 0), (5, 5), &vec![(1, 0)]);
    assert_eq!(
        n,
        vec![
            ((0, 1), 10),
            ((0, -1), 10),
            ((-1, 0), 10),
            ((1, 1), 14),
            ((1, -1), 14),
            ((-1, 1), 14),
            ((-1, -1), 14)
        ]
    );
}

#[test]
fn neighbour_costs_are_measured_from_the_start() {
    // From (2, 0) with the start at (0, 0), the step to (1, 1) is diagonal
    // to the start and costs 14; the step to (3, 1) costs 10.
    let n = grid_neighbors((2, 0), (0, 0), (5, 5), &Vec::new());
    assert!(n.contains(&((1, 1), 14)));
    assert!(n.contains(&((3, 1), 10)));
    assert!(n.contains(&((2, 1), 10)));
}

#[test]
fn neighbours_stay_in_the_search_region() {
    let n = grid_neighbors((-50, 0), (0, 0), (0, 0), &Vec::new());
    assert!(n.iter().all(|((x, _), _)| *x >= -50));
    assert_eq!(n.len(), 5);
}

#[test]
fn heuristic_is_ten_times_manhattan_distance() {
    assert_eq!(path_heuristic((0, 0), (3, -4)), 70);
    assert_eq!(path_heuristic((2, 2), (2, 2)), 0);
    assert_eq!(path_heuristic((i32::MIN, i32::MIN), (i32::MAX, i32::MAX)), u32::MAX);
    assert!(at_goal((1, 2), (1, 2)));
    assert!(!at_goal((1, 2), (2, 1)));
}

#[test]
fn planning_finds_a_path_around_obstacles() {
    let mut t = target_to(g(4, 0));
    let obstacles = vec![g(2, -1), g(2, 0), g(2, 1)];
    calculate_path(g(0, 0), &mut t, &obstacles);
    assert_eq!(t.destination, Some(g(4, 0)));
    assert_eq!(*t.path.last().unwrap(), g(4, 0));
    let mut prev = g(0, 0);
    for cell in &t.path {
        assert!(is_neighbour_step(prev, *cell));
        assert!(!obstacles.contains(cell));
        prev = *cell;
    }
}

#[test]
fn planning_straight_line_path() {
    let mut t = target_to(g(3, 0));
    calculate_path(g(0, 0), &mut t, &Vec::new());
    assert_eq!(t.path, vec![g(1, 0), g(2, 0), g(3, 0)]);
}

#[test]
fn planning_drops_unreachable_order() {
    let mut t = target_to(g(5, 5));
    let mut walls = Vec::new();
    for dx in -1..=1 {
        for dy in -1..=1 {
            if dx != 0 || dy != 0 {
                walls.push(g(5 + dx, 5 + dy));
            }
        }
    }
    calculate_path(g(0, 0), &mut t, &walls);
    assert_eq!(t.destination, None);
    assert!(t.path.is_empty());
}

#[test]
fn planning_drops_order_out_of_range() {
    let mut t = target_to(g(31, 0));
    calculate_path(g(0, 0), &mut t, &Vec::new());
    assert_eq!(t.destination, None);
}

#[test]
fn planning_drops_order_to_own_cell() {
    let mut t = target_to(g(2, 2));
    calculate_path(g(2, 2), &mut t, &Vec::new());
    assert_eq!(t.destination, None);
}

#[test]
fn planning_keeps_an_existing_path() {
    let mut t = MoveTarget { destination: Some(g(3, 0)), path: vec![g(1, 0)] };
    calculate_path(g(0, 0), &mut t, &Vec::new());
    assert_eq!(t.destination, Some(g(3, 0)));
    assert_eq!(t.path, vec![g(1, 0)]);
}

#[test]
fn planning_without_order_does_nothing() {
    let mut t = MoveTarget::default();
    calculate_path(g(0, 0), &mut t, &Vec::new());
    assert_eq!(t.destination, None);
    assert!(t.path.is_empty());
}

#[test]
fn found_path_drops_the_start_cell() {
    let mut t = target_to(g(2, 0));
    follow_found_path(&mut t, Some((vec![(0, 0), (1, 0), (2, 0)], 20)));
    assert_eq!(t.path, vec![g(1, 0), g(2, 0)]);
    assert_eq!(t.destination, Some(g(2, 0)));
}

#[test]
fn single_cell_result_drops_order() {
    let mut t = target_to(g(0, 0));
    follow_found_path(&mut t, Some((vec![(0, 0)], 0)));
    assert_eq!(t.destination, None);
    let mut u = target_to(g(1, 0));
    follow_found_path(&mut u, None);
    assert_eq!(u.destination, None);
}

#[test]
fn stepping_takes_cells_in_order_then_finishes() {
    let mut t = MoveTarget { destination: Some(g(2, 0)), path: vec![g(1, 0), g(2, 0)] };
    assert_eq!(move_along_path(&mut t), Some(g(1, 0)));
    assert_eq!(move_along_path(&mut t), Some(g(2, 0)));
    assert_eq!(t.destination, Some(g(2, 0)));
    assert_eq!(move_along_path(&mut t), None);
    assert_eq!(t.destination, None);
}
