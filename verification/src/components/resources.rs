//! Resource nodes that units harvest, typed by the inventory resource kinds.

use vstd::prelude::*;

use crate::components::inventory::ResourceType;

verus! {

/// A harvestable node: its resource type, how much it still holds, how much
/// it was created with, and whether and how fast it regenerates (in
/// thousandths of a unit per second).
#[derive(Debug)]
pub struct ResourceNode {
    pub resource_type: ResourceType,
    pub quantity: u32,
    pub max_quantity: u32,
    pub regenerate: bool,
    pub regeneration_rate_milli: u32,
}

impl ResourceNode {
    /// A full node of `quantity` that regenerates at a tenth of a unit per
    /// second.
    pub fn new(resource_type: ResourceType, quantity: u32) -> (node: Self)
        ensures
            node.resource_type == resource_type,
            node.quantity == quantity,
            node.max_quantity == quantity,
            node.regenerate,
            node.regeneration_rate_milli == 100,
    {
        Self {
            resource_type,
            quantity,
            max_quantity: quantity,
            regenerate: true,
            regeneration_rate_milli: 100,
        }
    }

    /// Takes up to `amount` from the node and returns what was taken.
    pub fn extract(&mut self, amount: u32) -> (extracted: u32)
        ensures
            extracted == (if amount <= old(self).quantity {
                amount
            } else {
                old(self).quantity
            }),
            final(self).quantity == old(self).quantity - extracted,
            final(self).resource_type == old(self).resource_type,
            final(self).max_quantity == old(self).max_quantity,
            final(self).regenerate == old(self).regenerate,
            final(self).regeneration_rate_milli == old(self).regeneration_rate_milli,
    {
        let available = self.quantity;
        let extracted = if amount < available { amount } else { available };
        self.quantity = self.quantity - extracted;
        extracted
    }
}

} // verus!
