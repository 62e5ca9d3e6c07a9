use my_rts_game::components::resource::{GatheringState, ResourceNode};
use my_rts_game::resources::registry::ResourceId;
use my_rts_game::systems::camera::update_panning;
use my_rts_game::systems::gathering::{harvest_node, node_depleted};
use my_rts_game::systems::scene::{splash_screen_step, SplashActions};

#[test]
fn panning_follows_the_middle_button() {
    assert!(update_panning(false, true, false));
    assert!(update_panning(true, false, false));
    assert!(!update_panning(true, false, true));
    assert!(!update_panning(false, true, true));
    assert!(!update_panning(false, false, false));
}

#[test]
fn harvest_takes_at_most_what_the_node_has() {
    let mut node = ResourceNode {
        resource_id: ResourceId("gold".to_string()),
        amount_remaining: 7,
        max_amount: 7,
    };
    let first = harvest_node(&mut node, 5);
    assert_eq!(first, 5);
    assert!(!node_depleted(first, node.amount_remaining));
    let second = harvest_node(&mut node, 5);
    assert_eq!(second, 2);
    assert_eq!(node.amount_remaining, 0);
    assert!(node_depleted(second, node.amount_remaining));
    assert_eq!(harvest_node(&mut node, 5), 0);
    assert!(!node_depleted(0, 0));
    assert_eq!(node.max_amount, 7);
    assert_ne!(GatheringState::Harvesting, GatheringState::MovingToResource);
}

#[test]
fn splash_requests_the_map_once_and_leaves_when_it_is_loaded() {
    let mut requested = false;
    assert_eq!(
        splash_screen_step(&mut requested, false, false),
        SplashActions { despawn_for_loaded_level: false, request_map: false }
    );
    assert!(!requested);
    assert_eq!(
        splash_screen_step(&mut requested, false, true),
        SplashActions { despawn_for_loaded_level: false, request_map: true }
    );
    assert!(requested);
    assert_eq!(
        splash_screen_step(&mut requested, false, true),
        SplashActions { despawn_for_loaded_level: false, request_map: false }
    );
    assert_eq!(
        splash_screen_step(&mut requested, true, true),
        SplashActions { despawn_for_loaded_level: true, request_map: false }
    );
}

#[test]
fn level_spawned_before_the_request_is_ignored() {
    let mut requested = false;
    let actions = splash_screen_step(&mut requested, true, false);
    assert!(!actions.despawn_for_loaded_level);
}
