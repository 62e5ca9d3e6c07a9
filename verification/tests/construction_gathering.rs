use my_rts_game::components::inventory::{Inventory, InventorySlot, ResourceType};
use my_rts_game::components::movement::GridPos;
use my_rts_game::systems::construction::{pay_for_building, BuildingType};
use my_rts_game::systems::resource_gathering::{
    approach_position, gathering_description, give_wood, resource_label, skill_for,
    store_harvest, SkillKind,
};

fn slot(resource_type: ResourceType, quantity: u32) -> Option<InventorySlot> {
    Some(InventorySlot { resource_type, quantity })
}

#[test]
fn building_costs() {
    assert_eq!(
        BuildingType::House.get_cost(),
        vec![(ResourceType::Wood, 5), (ResourceType::Stone, 3)]
    );
    assert_eq!(
        BuildingType::Workshop.get_cost(),
        vec![(ResourceType::Wood, 10), (ResourceType::Stone, 5), (ResourceType::Gold, 2)]
    );
    assert_eq!(BuildingType::Wall.get_cost(), vec![(ResourceType::Stone, 5)]);
}

#[test]
fn paying_for_a_house_deducts_its_cost() {
    let mut inv = Inventory::new(4);
    inv.slots[0] = slot(ResourceType::Wood, 6);
    inv.slots[1] = slot(ResourceType::Stone, 4);
    inv.slots[2] = slot(ResourceType::Gold, 1);
    assert!(pay_for_building(&mut inv, BuildingType::House));
    assert_eq!(inv.count_resource(ResourceType::Wood), 1);
    assert_eq!(inv.count_resource(ResourceType::Stone), 1);
    assert_eq!(inv.count_resource(ResourceType::Gold), 1);
}

#[test]
fn a_builder_who_cannot_pay_keeps_everything() {
    let mut inv = Inventory::new(4);
    inv.slots[0] = slot(ResourceType::Wood, 10);
    inv.slots[1] = slot(ResourceType::Stone, 5);
    inv.slots[2] = slot(ResourceType::Gold, 1);
    assert!(!pay_for_building(&mut inv, BuildingType::Workshop));
    assert_eq!(inv.count_resource(ResourceType::Wood), 10);
    assert_eq!(inv.count_resource(ResourceType::Stone), 5);
    assert_eq!(inv.count_resource(ResourceType::Gold), 1);
    assert!(!pay_for_building(&mut Inventory::new(2), BuildingType::Wall));
}

#[test]
fn skills_and_labels_per_resource() {
    assert_eq!(skill_for(ResourceType::Wood), SkillKind::Woodcutting);
    assert_eq!(skill_for(ResourceType::Gold), SkillKind::Mining);
    assert_eq!(skill_for(ResourceType::Stone), SkillKind::Harvesting);
    assert_eq!(resource_label(ResourceType::Gold), "Gold");
    assert_eq!(resource_label(ResourceType::Wood), "Wood");
    assert_eq!(resource_label(ResourceType::Stone), "Stone");
    assert_eq!(gathering_description(ResourceType::Wood), "wood from tree");
    assert_eq!(gathering_description(ResourceType::Gold), "gold from mine");
    assert_eq!(gathering_description(ResourceType::Stone), "stone from quarry");
}

#[test]
fn approach_from_the_nearest_side() {
    let r = GridPos { x: 10, y: 10 };
    assert_eq!(approach_position(r, GridPos { x: 0, y: 10 }), GridPos { x: 9, y: 10 });
    assert_eq!(approach_position(r, GridPos { x: 10, y: 20 }), GridPos { x: 10, y: 11 });
    assert_eq!(approach_position(r, GridPos { x: 20, y: 0 }), GridPos { x: 11, y: 9 });
    // Standing on the resource, all four sides are equally near: the left
    // one comes first.
    assert_eq!(approach_position(r, r), GridPos { x: 9, y: 10 });
}

#[test]
fn harvest_goes_on_while_it_fits() {
    let mut inv = Inventory::new(1);
    assert!(store_harvest(&mut inv, ResourceType::Wood, 6, 10));
    assert!(!store_harvest(&mut inv, ResourceType::Wood, 6, 10));
    assert_eq!(inv.count_resource(ResourceType::Wood), 10);
}

#[test]
fn wood_is_handed_over_one_at_a_time() {
    let mut worker = Inventory::new(2);
    worker.slots[0] = slot(ResourceType::Wood, 2);
    let mut chest = Inventory::new(2);
    assert_eq!(give_wood(&mut worker, &mut chest, 10), 1);
    assert_eq!(worker.count_resource(ResourceType::Wood), 1);
    assert_eq!(chest.count_resource(ResourceType::Wood), 1);
    let mut empty = Inventory::new(1);
    assert_eq!(give_wood(&mut empty, &mut chest, 10), 0);
    assert_eq!(chest.count_resource(ResourceType::Wood), 1);
}

#[test]
fn wood_stays_when_the_receiver_is_full() {
    let mut worker = Inventory::new(1);
    worker.slots[0] = slot(ResourceType::Wood, 3);
    let mut chest = Inventory::new(1);
    chest.slots[0] = slot(ResourceType::Gold, 9);
    assert_eq!(give_wood(&mut worker, &mut chest, 10), 0);
    assert_eq!(worker.count_resource(ResourceType::Wood), 3);
}
