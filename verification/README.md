# blockymodel

A verified core for Hytale's Blockbench asset formats, `.blockymodel`
(models) and `.blockyanim` (animations), with a small command-line player
around it.

## Layout

- `src/` — the library, verified with Verus. Everything in it is integer,
  boolean and text logic with contracts:
  - `face.rs` — the six faces, their names and normals.
  - `shape.rs` — shape descriptors: kind, quad plane, visibility, sidedness,
    shading mode, texture-layout entries and their rotation.
  - `anim.rs` — keyframe times as ordered integer keys, stable track
    ordering, keyframe bracketing (with loop wrapping) and the sampling plans
    for position / stretch (linear or Catmull-Rom) and rotation (eased or
    plain slerp), plus the hold lookup for visibility and UV offsets.
  - `skeleton.rs` — flattening the node forest in pre-order, name indexing,
    binding clip tracks to bones and posing every bone from them, faces to
    generate per bone.
  - `mesh.rs` — face corner tables, the winding rule for mirrored shapes,
    UV rectangle layout, and turning quads into indexed triangles.
  - `player.rs`, `playback.rs` — where textures and clips are found, the
    clip listing order and selection, the checks and counters of the drawn
    parts, key bindings and the playback / mouse-drag state machine.
  - `text.rs` — string equality, byte order and ASCII case folding.
- `tests/` — tests of the library on concrete values.
- `app/` — the `player` program: JSON parsing (serde), file and texture
  loading, and the floating-point geometry (vectors, quaternions, matrices,
  interpolation arithmetic) that evaluates the library's plans.

Geometry and keyframe values never enter the library: a model is
`BlockyModel<P>` with the caller's per-node payload `P`, and a mesh is
`Mesh<V>` over the caller's vertex type.
