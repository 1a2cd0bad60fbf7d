# n0

The verified core of a deterministic 2D canvas engine, written in Verus.
Every function in `src/` carries a contract that Verus proves.

Modules:

- `ident` — arena node identity: keys are minted only for live nodes, and a
  removed node's key never resolves again.
- `paint` — paint stacks and which paints can contribute pixels.
- `drawlist` — text paint ownership per glyph run and owner slots.
- `emit` — the list painter's traversal of a resolved tier into an ordered
  primitive stream with balanced opacity and clip scopes.
- `damage` — the exact complete-frame damage policy, the geometry-only slot
  walk, and the damage region.
- `keyframes`, `curves` — exact keyframe offsets, easing controls, and the
  color, discrete, path and transform curve schedules.
- `properties`, `animation`, `program` — property targets, track identity and
  composition, and animation programs grouped into effect stacks.
- `cache` — the scene cache's drawlist reuse and commit decisions.
- `rig` — verdicts of the engine's check harness.

Floating-point geometry, rasterization and text shaping stay outside the
library; the library takes their outcomes as plain values (identity tokens,
flags, integer rectangles).
