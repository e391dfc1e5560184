# voxel_engine

The logic of a small voxel game, verified with Verus: chunk storage and indexing,
world bookkeeping (loaded chunks, chunks being generated, which chunks to request,
which meshes to rebuild), desert terrain generation with seeded decorations, face
culling and index lists for chunk meshes, the cell test of collisions, and the
movement-key state.

- `src/` is the verified library (`chunk`, `world`, `generator`, `biomes`, `rng`,
  `mesh`, `collision`, `input`, `ecs`, `geometry`, `voxel`, `seqs`).
- `app/` is the game around it: the winit event loop, the wgpu renderer, the rayon
  task scheduler, and everything that computes with floating point (noise heights,
  colors, camera, physics, movement vectors).
- `tests/` exercises the library.
