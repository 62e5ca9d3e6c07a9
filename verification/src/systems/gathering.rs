//! Harvesting from a registered resource node.

use vstd::prelude::*;

use crate::components::resource::ResourceNode;

verus! {

/// One finished gathering cycle at `node`: takes up to `gather_amount` from
/// what the node has left and returns the amount taken, which goes to the
/// player. A cycle that takes the last of the node depletes it.
pub fn harvest_node(node: &mut ResourceNode, gather_amount: u32) -> (gathered: u32)
    ensures
        gathered == (if gather_amount <= old(node).amount_remaining {
            gather_amount
        } else {
            old(node).amount_remaining
        }),
        final(node).amount_remaining == old(node).amount_remaining - gathered,
        final(node).max_amount == old(node).max_amount,
        final(node).resource_id == old(node).resource_id,
{
    let gathered = if gather_amount < node.amount_remaining {
        gather_amount
    } else {
        node.amount_remaining
    };
    node.amount_remaining = node.amount_remaining - gathered;
    gathered
}

/// Whether a cycle that gathered `gathered` and left `remaining` in the
/// node has used the node up, so that the node goes and the worker stops.
pub fn node_depleted(gathered: u32, remaining: u32) -> (depleted: bool)
    ensures
        depleted == (gathered > 0 && remaining == 0),
{
    gathered > 0 && remaining == 0
}

} // verus!
