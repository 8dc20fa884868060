# xp

Building blocks of a small game engine, written in Verus: every function in
`src/` carries a contract that the verifier proves, and the laws the pieces
obey are stated and proved as proof functions next to them.

- `src/` is the verified library:
  - `vec`, `matrix`: small generic vectors and a 4×4 matrix, with the
    component type's own operators.
  - `navigation`: flow fields on a grid: shortest path costs spread from a
    destination, and directions to the cheapest neighbour.
  - `world`, `chunks`: voxel models split into world chunks, and the
    wrap-around cube of chunk slots around the viewer.
  - `tiles`: tile maps read from an image, with the stone tile and its turn
    chosen from each cell's neighbours.
  - `heightmap`: terrain heights sampled from the red channel of an image.
  - `obj`, `mesh`, `graphics`: OBJ statements and face indices, the walk
    over the triangles of loaded models, and unique provoking vertices for
    flat shading.
  - `packet`: length-prefixed packet framing.
  - `window`, `windowing`, `eventqueue`, `inputhandler`, `commandqueue`,
    `command_queue`, `selection`, `simulation`, `client`, `recording`,
    `commands`: input events, per-frame commands, replays and the state
    checksum.
  - `canvas`, `ui`, `widgets`, `graph`, `text`: a frame buffer with a depth
    test, an overlay of labels and a cursor drawn as triangles, widget
    identifiers, a node tree and character helpers.
- `app/` is the program around it: command-line options, files and
  streams, serialization of recordings, and the floating-point parts
  (positions, rotations, vertex coordinates).
- `tests/` runs the library on concrete values.
