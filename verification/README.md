# renderer

The bookkeeping core of a 2D sprite and vector renderer, verified with Verus,
and the GPU-facing code around it.

- `src/` is the verified library: typed handles, the per-frame render queue,
  z-ordered draw calls for instanced vector art, the store of tessellated
  geometry and its buffer ranges, merging of vertex buffers, batching of
  sprite quads by sheet, sprite and glyph lookup by name, image decoding and
  SVG parsing behind small trusted wrappers, and frame timing.
  Contracts are stated over sequences, maps and sets; the laws that relate
  several operations are public proof functions next to them.
- `app/` holds what the verifier does not see: `wgpu` pipelines and buffers,
  texture upload, tessellation of parsed SVG documents with `lyon`,
  manifests read with `serde` and `miniserde`, and all floating-point
  geometry (cameras, bounds, curves, text layout).
- `tests/` exercises the library on concrete values.
