use my_rts_game::components::inventory::ResourceType;
use my_rts_game::components::resources::ResourceNode;
use my_rts_game::resources::config::Config;
use my_rts_game::resources::game_state::GameState;
use my_rts_game::resources::registry::{
    PlayerResources, ResourceColor, ResourceDefinition, ResourceId, ResourceRegistry,
};

fn id(s: &str) -> ResourceId {
    ResourceId(s.to_string())
}

#[test]
fn default_registry_holds_gold_wood_and_stone() {
    let reg = ResourceRegistry::default();
    let gold = reg.get(&id("gold")).unwrap();
    assert_eq!(gold.name, "Gold");
    assert_eq!(gold.gathering_time_ms, 3000);
    assert_eq!(gold.icon_path, "resources/gold.png");
    assert_eq!(gold.color, ResourceColor { red_milli: 1000, green_milli: 840, blue_milli: 0 });
    let wood = reg.get(&id("wood")).unwrap();
    assert_eq!(wood.name, "Wood");
    assert_eq!(wood.gathering_time_ms, 1500);
    assert_eq!(wood.icon_path, "resources/wood.png");
    let stone = reg.get(&id("stone")).unwrap();
    assert_eq!(stone.gathering_time_ms, 2000);
    assert_eq!(stone.icon_path, "resources/stone/stone.png");
    assert!(reg.get(&id("iron")).is_none());
    assert_eq!(reg.all().len(), 3);
}

#[test]
fn register_replaces_entry_with_same_id() {
    let mut reg = ResourceRegistry::default();
    reg.register(ResourceDefinition {
        id: id("wood"),
        name: "Oak".to_string(),
        color: ResourceColor { red_milli: 500, green_milli: 300, blue_milli: 100 },
        gathering_time_ms: 2500,
        icon_path: "resources/oak.png".to_string(),
    });
    assert_eq!(reg.all().len(), 3);
    let wood = reg.get(&id("wood")).unwrap();
    assert_eq!(wood.name, "Oak");
    assert_eq!(wood.gathering_time_ms, 2500);
    assert_eq!(reg.get(&id("gold")).unwrap().name, "Gold");
}

#[test]
fn register_adds_new_entry() {
    let mut reg = ResourceRegistry::default();
    reg.register(ResourceDefinition {
        id: id("iron"),
        name: "Iron".to_string(),
        color: ResourceColor { red_milli: 400, green_milli: 400, blue_milli: 450 },
        gathering_time_ms: 4000,
        icon_path: "resources/iron.png".to_string(),
    });
    assert_eq!(reg.all().len(), 4);
    assert_eq!(reg.get(&id("iron")).unwrap().name, "Iron");
    let names: Vec<&str> = reg.all().iter().map(|d| d.id.0.as_str()).collect();
    assert!(names.contains(&"gold") && names.contains(&"iron"));
}

#[test]
fn player_starts_with_nothing() {
    let stock = PlayerResources::default();
    assert_eq!(stock.get(&id("gold")), 0);
    assert_eq!(stock.get(&id("wood")), 0);
}

#[test]
fn new_resource_node_is_full_and_regenerates() {
    let node = ResourceNode::new(ResourceType::Gold, 50);
    assert_eq!(node.resource_type, ResourceType::Gold);
    assert_eq!(node.quantity, 50);
    assert_eq!(node.max_quantity, 50);
    assert!(node.regenerate);
    assert_eq!(node.regeneration_rate_milli, 100);
}

#[test]
fn extract_takes_at_most_what_is_left() {
    let mut node = ResourceNode::new(ResourceType::Stone, 7);
    assert_eq!(node.extract(5), 5);
    assert_eq!(node.quantity, 2);
    assert_eq!(node.extract(5), 2);
    assert_eq!(node.quantity, 0);
    assert_eq!(node.extract(1), 0);
    assert_eq!(node.max_quantity, 7);
}

#[test]
fn game_state_and_config_hold_their_values() {
    let state = GameState { current_level: 2, score: 150 };
    assert_eq!(state.current_level + state.score, 152);
    let config = Config { window_title: "RTS Game".to_string(), window_width: 1280, window_height: 720 };
    assert_eq!(config.window_title, "RTS Game");
    assert_eq!((config.window_width, config.window_height), (1280, 720));
    my_rts_game::assets::load_assets();
}
