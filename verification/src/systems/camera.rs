//! Camera panning with the middle mouse button.

use vstd::prelude::*;

verus! {

/// Whether the camera pans after this frame's middle-button events: a press
/// starts panning, a release stops it, and a release wins over a press in
/// the same frame.
pub fn update_panning(is_panning: bool, middle_just_pressed: bool, middle_just_released: bool) -> (panning: bool)
    ensures
        panning == (!middle_just_released && (middle_just_pressed || is_panning)),
{
    let mut panning = is_panning;
    if middle_just_pressed {
        panning = true;
    }
    if middle_just_released {
        panning = false;
    }
    panning
}

} // verus!
