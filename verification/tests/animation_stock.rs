use my_rts_game::components::inventory::{Inventory, InventorySlot, ResourceType};
use my_rts_game::components::resource::GatheringState;
use my_rts_game::resources::registry::{PlayerResources, ResourceId, ResourceRegistry};
use my_rts_game::systems::animation::{
    animation_timer_ms, harvests_wood, next_animation, WorkerAnimationState,
};
use my_rts_game::systems::construction::{pay_for_building, BuildingType};

fn id(s: &str) -> ResourceId {
    ResourceId(s.to_string())
}

#[test]
fn animation_follows_what_the_worker_does() {
    assert_eq!(next_animation(WorkerAnimationState::Idle, Some(GatheringState::MovingToResource), false, false), (WorkerAnimationState::Walking, Some(300)));
    assert_eq!(next_animation(WorkerAnimationState::Walking, Some(GatheringState::Harvesting), true, false), (WorkerAnimationState::Woodcutting, Some(800)));
    assert_eq!(next_animation(WorkerAnimationState::Walking, Some(GatheringState::Harvesting), false, true), (WorkerAnimationState::Mining, Some(500)));
    assert_eq!(next_animation(WorkerAnimationState::Mining, Some(GatheringState::ReturningResource), false, false), (WorkerAnimationState::Walking, Some(300)));
    assert_eq!(next_animation(WorkerAnimationState::Walking, Some(GatheringState::DeliveringResource), false, false), (WorkerAnimationState::Walking, None));
    assert_eq!(next_animation(WorkerAnimationState::Walking, None, false, true), (WorkerAnimationState::Walking, None));
    assert_eq!(next_animation(WorkerAnimationState::Walking, None, false, false), (WorkerAnimationState::Idle, Some(2000)));
    assert_eq!(animation_timer_ms(WorkerAnimationState::Mining), 500);
}

#[test]
fn only_the_wood_resource_is_cut() {
    let reg = ResourceRegistry::default();
    assert!(harvests_wood(&reg, &id("wood")));
    assert!(!harvests_wood(&reg, &id("gold")));
    assert!(!harvests_wood(&reg, &id("stone")));
    assert!(!harvests_wood(&reg, &id("iron")));
}

#[test]
fn stock_grows_by_what_is_added() {
    let mut stock = PlayerResources::default();
    stock.add(&id("gold"), 5);
    stock.add(&id("wood"), 2);
    stock.add(&id("gold"), 3);
    assert_eq!(stock.get(&id("gold")), 8);
    assert_eq!(stock.get(&id("wood")), 2);
    assert_eq!(stock.get(&id("stone")), 0);
}

#[test]
fn a_house_is_paid_beside_a_huge_gold_hoard() {
    let mut inv = Inventory::new(4);
    inv.slots[0] = Some(InventorySlot { resource_type: ResourceType::Gold, quantity: u32::MAX });
    inv.slots[1] = Some(InventorySlot { resource_type: ResourceType::Gold, quantity: u32::MAX });
    inv.slots[2] = Some(InventorySlot { resource_type: ResourceType::Wood, quantity: 5 });
    inv.slots[3] = Some(InventorySlot { resource_type: ResourceType::Stone, quantity: 3 });
    assert!(pay_for_building(&mut inv, BuildingType::House));
    assert_eq!(inv.count_resource(ResourceType::Wood), 0);
    assert_eq!(inv.count_resource(ResourceType::Stone), 0);
}
