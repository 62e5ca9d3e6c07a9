//! Which animation a worker plays, and how fast.

use vstd::prelude::*;

use crate::components::resource::GatheringState;
use crate::resources::registry::{ResourceId, ResourceRegistry};

verus! {

/// The animations a worker has.
#[derive(Debug, Clone, Copy, PartialEq, Eq, Structural)]
pub enum WorkerAnimationState {
    Idle,
    Walking,
    Mining,
    Woodcutting,
}

/// The animation for what a worker does: walking while it goes to a
/// resource, carries a harvest back or delivers it; woodcutting while it
/// harvests wood and mining while it harvests anything else; walking when it
/// moves without gathering, and idle otherwise.
pub open spec fn animation_for(
    phase: Option<GatheringState>,
    harvests_wood: bool,
    moving: bool,
) -> WorkerAnimationState {
    match phase {
        Some(GatheringState::MovingToResource) => WorkerAnimationState::Walking,
        Some(GatheringState::Harvesting) => if harvests_wood {
            WorkerAnimationState::Woodcutting
        } else {
            WorkerAnimationState::Mining
        },
        Some(GatheringState::ReturningResource) => WorkerAnimationState::Walking,
        Some(GatheringState::DeliveringResource) => WorkerAnimationState::Walking,
        None => if moving {
            WorkerAnimationState::Walking
        } else {
            WorkerAnimationState::Idle
        },
    }
}

/// How the animation depends on what the worker does: whether it moves
/// matters only when it is not gathering; whether the resource is wood
/// matters only while harvesting; harvesting always plays a harvesting
/// animation, woodcutting exactly for wood; every other gathering phase
/// walks; a worker that is not gathering walks exactly when it moves and
/// idles otherwise.
pub proof fn law_animation_follows_the_activity(
    phase: Option<GatheringState>,
    harvests_wood: bool,
    moving: bool,
)
    ensures
        phase is Some ==> animation_for(phase, harvests_wood, true) == animation_for(
            phase,
            harvests_wood,
            false,
        ),
        phase != Some(GatheringState::Harvesting) ==> animation_for(phase, true, moving)
            == animation_for(phase, false, moving),
        phase == Some(GatheringState::Harvesting) ==> {
            &&& animation_for(phase, harvests_wood, moving) != WorkerAnimationState::Idle
            &&& animation_for(phase, harvests_wood, moving) != WorkerAnimationState::Walking
            &&& (animation_for(phase, harvests_wood, moving) == WorkerAnimationState::Woodcutting
                <==> harvests_wood)
        },
        phase is Some && phase != Some(GatheringState::Harvesting) ==> animation_for(
            phase,
            harvests_wood,
            moving,
        ) == WorkerAnimationState::Walking,
        phase is None ==> (animation_for(phase, harvests_wood, moving)
            == WorkerAnimationState::Walking <==> moving),
        phase is None ==> (animation_for(phase, harvests_wood, moving) == WorkerAnimationState::Idle
            <==> !moving),
{
}

/// The frame time of an animation in milliseconds: mining is fast,
/// woodcutting slower, walking fastest, idling slowest.
pub open spec fn timer_ms(state: WorkerAnimationState) -> u32 {
    match state {
        WorkerAnimationState::Mining => 500,
        WorkerAnimationState::Woodcutting => 800,
        WorkerAnimationState::Walking => 300,
        WorkerAnimationState::Idle => 2000,
    }
}

/// The frame time of an animation in milliseconds.
pub fn animation_timer_ms(state: WorkerAnimationState) -> (ms: u32)
    ensures
        ms == timer_ms(state),
{
    match state {
        WorkerAnimationState::Mining => 500,
        WorkerAnimationState::Woodcutting => 800,
        WorkerAnimationState::Walking => 300,
        WorkerAnimationState::Idle => 2000,
    }
}

/// Whether the resource a worker gathers is wood: a resource the registry
/// knows, registered under the identifier `"wood"`.
pub fn harvests_wood(registry: &ResourceRegistry, resource_id: &ResourceId) -> (wood: bool)
    ensures
        wood == (registry@.contains_key(resource_id@) && registry@[resource_id@].id@ == "wood"@),
{
    match registry.get(resource_id) {
        Some(definition) => {
            let wood_id = "wood".to_owned();
            definition.id.0 == wood_id
        },
        None => false,
    }
}

/// The worker's animation after this frame, and the new frame time in
/// milliseconds where the animation changed.
pub fn next_animation(
    current: WorkerAnimationState,
    phase: Option<GatheringState>,
    harvests_wood: bool,
    moving: bool,
) -> (next: (WorkerAnimationState, Option<u32>))
    ensures
        next.0 == animation_for(phase, harvests_wood, moving),
        next.1 == (if next.0 != current {
            Some(timer_ms(next.0))
        } else {
            None
        }),
{
    let state = match phase {
        Some(GatheringState::MovingToResource) => WorkerAnimationState::Walking,
        Some(GatheringState::Harvesting) => if harvests_wood {
            WorkerAnimationState::Woodcutting
        } else {
            WorkerAnimationState::Mining
        },
        Some(GatheringState::ReturningResource) => WorkerAnimationState::Walking,
        Some(GatheringState::DeliveringResource) => WorkerAnimationState::Walking,
        None => if moving {
            WorkerAnimationState::Walking
        } else {
            WorkerAnimationState::Idle
        },
    };
    if state != current {
        (state, Some(animation_timer_ms(state)))
    } else {
        (state, None)
    }
}

} // verus!
