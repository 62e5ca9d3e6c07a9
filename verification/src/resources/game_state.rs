//! The progress of the current game.

use vstd::prelude::*;

verus! {

/// The level being played and the score reached.
pub struct GameState {
    pub current_level: usize,
    pub score: usize,
}

} // verus!
