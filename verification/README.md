# genesis_engine

The decision logic of a planet-scale exploration game, written in Verus and
proved against its contracts.

## Layout

- `src/` — the verified library.
  - `plugins/quadtree.rs` — cube-sphere chunk addresses: Morton codes,
    parents, children, grid coordinates, with their round-trip laws.
  - `plugins/quadtree_manager.rs` — the chunk quadtree of a planet: level of
    detail updates driven by a table of per-chunk metrics, the subdivision
    budget, merges, the spawn order, and the bookkeeping of chunk meshes.
  - `plugins/quadtree_shape.rs` — the shape of the tree (every chunk hangs
    under a subdivided parent that has all four children) and the proof that
    updates keep it.
  - `plugins/quadtree_progress.rs` — the pending work of a tree, and the proof
    that under a stationary observer every update that changes the tree
    lowers it, so the tree settles.
  - `plugins/quadtree_levels.rs` — the face roots and the depth bound, the
    validity of a tree, and the proof that any sequence of updates of an
    initialized tree keeps it valid.
  - `plugins/discovery.rs` — phenomena, technologies, the base tech tree,
    player knowledge and the shared knowledge base.
  - `plugins/creature/` — the behavior tree engine, the trees of each
    kind of creature, and how many creatures appear in a spawning tick.
  - `plugins/simulation.rs`, `plugins/camera.rs`, `net/connection.rs` — the
    calendar, camera modes and cursor lock, and the connection lifecycle as
    state machines.
  - `plugins/chunk_mesh.rs` — the triangle layout of a terrain chunk mesh:
    the grid cells and the skirts below its edges, with the proof that every
    index names a vertex of the mesh.
  - smaller modules: voxel layers and voxel grid indexing, ecosystem
    relations, logic gates, grid indexing, terrain resolution bands, climate
    seeds, traversal hints, network table records.
- `tests/` — tests of the library, run with the compiled crate.
- `app/` — a console driver. It keeps what the library leaves out: the
  floating-point geometry that turns an observer position into chunk
  metrics, creature state, research points, terrain edits, the simulation
  clock, connection timers, and file I/O for agent commands and frame
  telemetry.
