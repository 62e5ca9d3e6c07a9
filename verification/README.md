# my_rts_game

The rules of a small real-time strategy game, verified with Verus, and the
Bevy application that plays them.

- `src/` is the verified library.
  - `components/inventory.rs`: slot inventories (adding fills existing
    stacks first, then empty slots; removing drains stacks in slot order;
    transfers between inventories), with the laws that tie the operations
    together (every unit accounted for, removal undoes addition, stacks stay
    within their limit, and a transfer from an inventory whose stacks are
    within the stack limit conserves resources; a stack above the limit can
    lose units when what the receiver cannot take is put back).
  - `components/resources.rs`, `components/resource.rs`: resource nodes.
  - `components/movement.rs`, `systems/movement.rs`: grid cells, movement
    orders, A* path planning (through the `pathfinding` crate) and stepping
    along a path.
  - `resources/registry.rs`: the registry of resource kinds and the
    player's stock, keyed by identifier.
  - `systems/construction.rs`: building costs and paying for a building.
  - `systems/resource_gathering.rs`, `systems/gathering.rs`: where a worker
    stands to harvest, storing a harvest, handing wood over, harvesting a
    node.
  - `systems/scene.rs`, `systems/camera.rs`: the splash screen and camera
    panning decisions.
  - `systems/animation.rs`: which animation a worker plays and its frame
    time.
- `tests/` runs the library on concrete values.
- `app/` is the game itself: Bevy plugins and systems for input,
  rendering, audio and the map, calling the library for every rule.
  Floating-point work (cursor projection, interpolation, skills, timers)
  stays there.
