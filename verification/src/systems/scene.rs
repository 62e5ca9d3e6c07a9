//! The splash screen shown while the map loads.

use vstd::prelude::*;

verus! {

/// What the splash screen does this frame.
#[derive(Debug, Clone, Copy, PartialEq, Eq, Structural)]
pub struct SplashActions {
    /// Remove the splash screen because the requested map has finished
    /// spawning.
    pub despawn_for_loaded_level: bool,
    /// Replace the splash screen with the please-wait screen and request
    /// the map.
    pub request_map: bool,
}

/// One frame of the splash screen: once the map was requested, a level
/// that finished spawning removes the splash screen; once the splash timer
/// has run out, the map is requested, exactly once.
pub fn splash_screen_step(map_requested: &mut bool, level_spawned: bool, timer_finished: bool) -> (actions: SplashActions)
    ensures
        actions.despawn_for_loaded_level == (level_spawned && *old(map_requested)),
        actions.request_map == (timer_finished && !*old(map_requested)),
        *final(map_requested) == (*old(map_requested) || timer_finished),
{
    let despawn_for_loaded_level = level_spawned && *map_requested;
    let request_map = timer_finished && !*map_requested;
    if request_map {
        *map_requested = true;
    }
    SplashActions { despawn_for_loaded_level, request_map }
}

} // verus!
