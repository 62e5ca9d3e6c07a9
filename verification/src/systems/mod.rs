//! The decisions that the game's systems make each frame.

pub mod construction;
pub mod movement;
pub mod resource_gathering;
pub mod camera;
pub mod gathering;
pub mod scene;
pub mod animation;
