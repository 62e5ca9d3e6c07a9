//! Window configuration.

use vstd::prelude::*;

verus! {

/// The window's title and size in pixels.
pub struct Config {
    pub window_title: String,
    pub window_width: u32,
    pub window_height: u32,
}

} // verus!
