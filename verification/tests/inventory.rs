use my_rts_game::components::inventory::{Inventory, InventorySettings, InventorySlot, ResourceType};

fn slot(resource_type: ResourceType, quantity: u32) -> Option<InventorySlot> {
    Some(InventorySlot { resource_type, quantity })
}

fn quantities(inv: &Inventory) -> Vec<Option<(ResourceType, u32)>> {
    inv.slots
        .iter()
        .map(|s| s.as_ref().map(|s| (s.resource_type, s.quantity)))
        .collect()
}

#[test]
fn new_inventory_has_empty_slots() {
    let inv = Inventory::new(3);
    assert_eq!(inv.max_slots, 3);
    assert_eq!(inv.slots.len(), 3);
    assert!(inv.slots.iter().all(|s| s.is_none()));
    assert_eq!(inv.capacity_info(), (0, 3));
}

#[test]
fn default_inventory_has_four_slots() {
    let inv = Inventory::default();
    assert_eq!(inv.max_slots, 4);
    assert_eq!(inv.slots.len(), 4);
    assert_eq!(inv.capacity_info(), (0, 4));
}

#[test]
fn default_settings_stack_ten() {
    assert_eq!(InventorySettings::default().max_stack_size, 10);
}

#[test]
fn add_fills_existing_stacks_before_empty_slots() {
    let mut inv = Inventory::new(3);
    inv.slots[1] = slot(ResourceType::Wood, 7);
    let overflow = inv.add_resource(ResourceType::Wood, 5, 10);
    assert_eq!(overflow, 0);
    assert_eq!(
        quantities(&inv),
        vec![Some((ResourceType::Wood, 2)), Some((ResourceType::Wood, 10)), None]
    );
    assert_eq!(inv.count_resource(ResourceType::Wood), 12);
}

#[test]
fn add_splits_into_stacks_of_max_size() {
    let mut inv = Inventory::new(4);
    let overflow = inv.add_resource(ResourceType::Stone, 25, 10);
    assert_eq!(overflow, 0);
    assert_eq!(
        quantities(&inv),
        vec![
            Some((ResourceType::Stone, 10)),
            Some((ResourceType::Stone, 10)),
            Some((ResourceType::Stone, 5)),
            None
        ]
    );
    assert_eq!(inv.capacity_info(), (3, 4));
}

#[test]
fn add_reports_what_does_not_fit() {
    let mut inv = Inventory::new(2);
    inv.slots[0] = slot(ResourceType::Gold, 4);
    let overflow = inv.add_resource(ResourceType::Wood, 15, 10);
    assert_eq!(overflow, 5);
    assert_eq!(
        quantities(&inv),
        vec![Some((ResourceType::Gold, 4)), Some((ResourceType::Wood, 10))]
    );
    assert_eq!(inv.count_resource(ResourceType::Gold), 4);
}

#[test]
fn add_to_full_inventory_overflows_everything() {
    let mut inv = Inventory::new(1);
    inv.slots[0] = slot(ResourceType::Wood, 10);
    assert_eq!(inv.add_resource(ResourceType::Wood, 3, 10), 3);
    assert_eq!(inv.count_resource(ResourceType::Wood), 10);
}

#[test]
fn add_zero_changes_nothing() {
    let mut inv = Inventory::new(2);
    assert_eq!(inv.add_resource(ResourceType::Gold, 0, 10), 0);
    assert_eq!(quantities(&inv), vec![None, None]);
}

#[test]
fn add_with_zero_stack_limit_opens_empty_stacks() {
    let mut inv = Inventory::new(2);
    let overflow = inv.add_resource(ResourceType::Gold, 3, 0);
    assert_eq!(overflow, 3);
    assert_eq!(
        quantities(&inv),
        vec![Some((ResourceType::Gold, 0)), Some((ResourceType::Gold, 0))]
    );
}

#[test]
fn add_leaves_overfull_stacks_alone() {
    let mut inv = Inventory::new(2);
    inv.slots[0] = slot(ResourceType::Wood, 12);
    let overflow = inv.add_resource(ResourceType::Wood, 4, 10);
    assert_eq!(overflow, 0);
    assert_eq!(
        quantities(&inv),
        vec![Some((ResourceType::Wood, 12)), Some((ResourceType::Wood, 4))]
    );
}

#[test]
fn remove_drains_stacks_in_slot_order() {
    let mut inv = Inventory::new(3);
    inv.slots[0] = slot(ResourceType::Wood, 3);
    inv.slots[1] = slot(ResourceType::Gold, 2);
    inv.slots[2] = slot(ResourceType::Wood, 6);
    let removed = inv.remove_resource(ResourceType::Wood, 5);
    assert_eq!(removed, 5);
    assert_eq!(
        quantities(&inv),
        vec![None, Some((ResourceType::Gold, 2)), Some((ResourceType::Wood, 4))]
    );
}

#[test]
fn remove_more_than_held_takes_everything() {
    let mut inv = Inventory::new(2);
    inv.slots[0] = slot(ResourceType::Stone, 3);
    inv.slots[1] = slot(ResourceType::Stone, 2);
    assert_eq!(inv.remove_resource(ResourceType::Stone, 9), 5);
    assert_eq!(quantities(&inv), vec![None, None]);
    assert_eq!(inv.count_resource(ResourceType::Stone), 0);
}

#[test]
fn remove_of_absent_type_removes_nothing() {
    let mut inv = Inventory::new(2);
    inv.slots[0] = slot(ResourceType::Gold, 3);
    assert_eq!(inv.remove_resource(ResourceType::Wood, 2), 0);
    assert_eq!(quantities(&inv), vec![Some((ResourceType::Gold, 3)), None]);
}

#[test]
fn remove_clears_empty_stack_it_reaches() {
    let mut inv = Inventory::new(2);
    inv.slots[0] = slot(ResourceType::Wood, 0);
    inv.slots[1] = slot(ResourceType::Wood, 2);
    assert_eq!(inv.remove_resource(ResourceType::Wood, 1), 1);
    assert_eq!(quantities(&inv), vec![None, Some((ResourceType::Wood, 1))]);
}

#[test]
fn remove_zero_keeps_empty_stacks() {
    let mut inv = Inventory::new(1);
    inv.slots[0] = slot(ResourceType::Wood, 0);
    assert_eq!(inv.remove_resource(ResourceType::Wood, 0), 0);
    assert_eq!(quantities(&inv), vec![Some((ResourceType::Wood, 0))]);
}

#[test]
fn count_sums_every_stack_of_the_type() {
    let mut inv = Inventory::new(4);
    inv.slots[0] = slot(ResourceType::Wood, 3);
    inv.slots[1] = slot(ResourceType::Gold, 8);
    inv.slots[3] = slot(ResourceType::Wood, 9);
    assert_eq!(inv.count_resource(ResourceType::Wood), 12);
    assert_eq!(inv.count_resource(ResourceType::Gold), 8);
    assert_eq!(inv.count_resource(ResourceType::Stone), 0);
    assert_eq!(inv.capacity_info(), (3, 4));
}

#[test]
fn remove_undoes_add() {
    let mut inv = Inventory::new(3);
    inv.slots[0] = slot(ResourceType::Wood, 4);
    let before = inv.count_resource(ResourceType::Wood);
    let overflow = inv.add_resource(ResourceType::Wood, 13, 10);
    let added = 13 - overflow;
    assert_eq!(inv.remove_resource(ResourceType::Wood, added), added);
    assert_eq!(inv.count_resource(ResourceType::Wood), before);
}

#[test]
fn transfer_moves_resources_between_inventories() {
    let mut a = Inventory::new(2);
    a.slots[0] = slot(ResourceType::Wood, 5);
    let mut b = Inventory::new(2);
    let moved = a.transfer_to(&mut b, ResourceType::Wood, 3, 10);
    assert_eq!(moved, 3);
    assert_eq!(a.count_resource(ResourceType::Wood), 2);
    assert_eq!(b.count_resource(ResourceType::Wood), 3);
}

#[test]
fn transfer_returns_what_the_target_cannot_take() {
    let mut a = Inventory::new(2);
    a.slots[0] = slot(ResourceType::Wood, 8);
    let mut b = Inventory::new(1);
    b.slots[0] = slot(ResourceType::Wood, 7);
    let moved = a.transfer_to(&mut b, ResourceType::Wood, 8, 10);
    assert_eq!(moved, 3);
    assert_eq!(b.count_resource(ResourceType::Wood), 10);
    assert_eq!(a.count_resource(ResourceType::Wood), 5);
    assert_eq!(a.count_resource(ResourceType::Wood) + b.count_resource(ResourceType::Wood), 15);
}

#[test]
fn transfer_can_lose_overfull_stacks() {
    // A stack above the target's limit is taken out whole, but only the
    // limit fits back into the freed slot.
    let mut a = Inventory::new(1);
    a.slots[0] = slot(ResourceType::Wood, 20);
    let mut b = Inventory::new(1);
    b.slots[0] = slot(ResourceType::Gold, 1);
    let moved = a.transfer_to(&mut b, ResourceType::Wood, 20, 10);
    assert_eq!(moved, 0);
    assert_eq!(a.count_resource(ResourceType::Wood), 10);
    assert_eq!(b.count_resource(ResourceType::Wood), 0);
}
