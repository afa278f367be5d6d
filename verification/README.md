# path_tracer

A GPU path tracer. The integer core of it is a verified library (`src/`,
with machine-checked contracts and proofs); the GPU program around it (`app/`) loads scenes, builds
acceleration structures and records compute passes.

`src/`:

- `dense_arena` — a generational arena with densely packed values: keys stay
  valid until removed, removal swap-removes from the dense vectors, vacant
  slots are reused through a free list, and a removed key never matches
  again.
- `rand` — TEA hashing and a PCG generator over wrapping integer arithmetic.
- `sampler` — generators seeded from a TEA hash of the pass seed (the hash
  does not read the sample index, so all indices share one starting state).
- `scene` — packing of meshes into scene-wide index and position buffers.
- `scene_graph` — the mesh instances a scene graph yields, in pre-order.
- `gpu_types`, `buffer`, `accel`, `cast`, `integrator` — the layouts, counts
  and index arithmetic that GPU uploads and kernels rely on.

`app/` holds everything that needs the GPU, the scene importer or floating
point: buffers and acceleration structures, renderers, the kernels and the
shading code.
