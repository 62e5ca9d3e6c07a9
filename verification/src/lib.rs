//! Game logic of a small real-time strategy game: unit inventories, resource
//! nodes, the resource registry, building costs, grid movement and the
//! decisions of the gathering loop. Rendering, input and audio live in the
//! application around this library.

pub mod assets;
pub mod components;
pub mod resources;
pub mod systems;
