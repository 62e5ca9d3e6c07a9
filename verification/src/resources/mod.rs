//! Game-wide state: the resource registry, the player's stock, the game
//! state and the configuration.

pub mod config;
pub mod game_state;
pub mod registry;
