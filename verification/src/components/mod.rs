//! Data that entities carry.

pub mod inventory;
pub mod movement;
pub mod resource;
pub mod resources;
