//! Resource nodes identified by a registry identifier, and the phases of a
//! worker's gathering trip.

use vstd::prelude::*;

use crate::resources::registry::ResourceId;

verus! {

/// A node holding an amount of one registered resource.
pub struct ResourceNode {
    pub resource_id: ResourceId,
    pub amount_remaining: u32,
    pub max_amount: u32,
}

/// What a gathering worker is doing.
#[derive(Debug, Clone, Copy, PartialEq, Eq, Structural)]
pub enum GatheringState {
    MovingToResource,
    Harvesting,
    ReturningResource,
    DeliveringResource,
}

} // verus!
