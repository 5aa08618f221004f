# xrds_runtime

The verified core of the XRDS runtime: the bookkeeping that sits between authored scene
documents and the live entities of a game engine.

- `src/` is the library, written in Verus and proved: ids and their allocator, the id index
  and the parent/child hierarchy, batched parent changes with cycle refusal, subtree deletion
  and duplication plans, spawning and the spawn/update/parent queues, the registries of
  interpreters, cloners and updaters, scene import and export order, the scene asset catalog,
  asset path rules, glTF source checks (parsing through the `gltf` crate), panel element
  names, the asset locks of running tracks, which trigger bindings a fired trigger runs,
  and the order in which hierarchy entities get their missing visibility components.
  `src/laws.rs` states the properties that span several operations.
- `tests/` runs the library on concrete values.
- `app/` holds what touches the file system: the recorded asset root, and finding and reading
  glTF files before the library judges them.

The engine itself (rendering, physics, audio, animation players, materials) is not part of
this crate: the library takes the entities the engine realized as arguments and leaves the
engine work it decides (despawns, parent links, dispatched updates) in pending lists.
