# aquarium

The logic of a real-time photoreal aquarium, verified with Verus.

`src/` is the library. Each module states its behaviour in contracts over
mathematical models and proves it:

- `texture`: GPU formats, mip chain sizes, padding to 4x4 blocks, block
  compression in row chunks (through `block_compression`), the on-disk cache
  format and its reader.
- `mesh`, `sand`, `scan`: mesh topology (quads, grids, appending, flipping),
  the sand lattice's border ring, and the vertex-cache reordering (through
  `meshopt`) and compaction of scanned meshes.
- `grid`: the distance field's node numbering, the sweeps' neighbourhoods,
  and the flood fill that tells open water from the inside of the rocks.
- `config`, `capture`, `camera`, `switches`: the command line, capture runs,
  camera presets and debug switches, read byte by byte.
- `power`, `quality`, `intro`: the power manager's modes, the adaptive
  resolution's calibration, level changes and heat hold, the start-up
  curtain.
- `crab`, `glider`, `gait`, `food`, `probe`, `tags`: the animals' decisions,
  the crab's alternating gait, the life of a food flake and the ripple rings,
  the physics bench's time steps, the packed animation tags.

`app/` is a headless program around the library: it reads the command line,
processes the textures into the cache, builds the sand mesh, reads the
scanned models and bakes the decor's distance field. The floating-point parts (mip filtering, unit and smooth
normals, distances, the smooth power ramp, the cost model) live there.

`tests/` exercises the library on concrete values.
