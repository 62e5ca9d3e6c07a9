//! Grid positions and movement orders.

use vstd::prelude::*;

verus! {

/// A cell of the map grid.
#[derive(Debug, Clone, Copy, PartialEq, Eq, Hash, Structural)]
pub struct GridPos {
    pub x: i32,
    pub y: i32,
}

/// Where an entity is ordered to go and the cells it still has to walk,
/// next cell first.
#[derive(Debug)]
pub struct MoveTarget {
    pub destination: Option<GridPos>,
    pub path: Vec<GridPos>,
}

impl Default for MoveTarget {
    /// No order.
    fn default() -> (target: Self)
        ensures
            target.destination is None,
            target.path@.len() == 0,
    {
        MoveTarget { destination: None, path: Vec::new() }
    }
}

} // verus!
