# rootvg

The device-independent core of a small 2D vector-graphics renderer, written
in Verus and verified.

`src/` is the verified library:

- `style`: winding, line caps and joins, fill rules, blend factors and
  composite operations, flag sets.
- `commands`: the packed command buffer of a path and its decoder; reading
  back what was written gives the commands back, as long as no winding
  command stands before another command (the decoder does not step over a
  winding's byte).
- `geom`: integer points, sizes and rectangles; placing scissor rectangles
  on the canvas and clamping them to the render target.
- `primitive_group`: groups of primitives, batched by kind, z index and
  scissor rectangle.
- `canvas`: the canvas's batches, keyed by scissor rectangle and z index,
  the drawing plan of a frame, and what rendering each of its steps does.
- `context`: the drawing context's stack of render states (`save` and
  `restore`, the base state never popped) and its queue of drawing commands
  with the vertex ranges they take.
- `mesh_cache`: the cache of tessellated meshes: what a frame keeps, what a
  forced rebuild drops, and the reuse of raw meshes.
- `mesh`, `tessellation`, `texture`, `text`, `gradient`, `buffer`: the
  bookkeeping of meshes, tessellation, textures, text buffers, gradient
  stops and GPU buffer sizes. The tessellator's sub-paths are held in a
  `vec1::Vec1`, whose methods are called through wrappers with stated
  contracts.

`app/` is the floating-point layer around it: float geometry, colors,
gradients, the path builder, the path tessellators, the drawing context's
uniforms and transforms, the building of meshes through the cache, and the
rendering of a drawing plan.

Two collections of the renderer are held differently here. The canvas keeps
its batches as a vector of keys beside a vector of entries, in the order in
which they were filed (no key twice), instead of a hash map: the entries are
generic over the primitive type, so the map's contents could not be named for
the contracts. For the same reason the batches of a primitive group are a
`Vec`, and so is the stack of render states (its states are generic, and a
`vec1::Vec1` of them could not be named either); its invariant is that it
holds at least one state. Batches of equal z index are drawn in the order in which they were
filed.

The mesh cache holds its meshes in a `thunderdome::Arena` and its keys in an
`ahash::AHashMap`, both behind wrappers with stated contracts; a vertex is
kept as the bits of its floats.
