//! Asset loading.

use vstd::prelude::*;

verus! {

/// Prepares the game's assets. Textures and sounds are loaded on demand by
/// the engine's asset server when the scene needs them, so nothing is
/// preloaded here.
pub fn load_assets() {
}

} // verus!
