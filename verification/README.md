# neo_granseal

A small 2D shape engine. `src/` is the verified core, checked with Verus:

- `images`: decoding image bytes into RGBA pixels, and blank white images.
- `managers`: handle-based resource managers; a new resource gets the
  smallest handle not in use; a texture is made and stored only when its
  image decodes.
- `engine`, `events`, `main_loop`: key and mouse-button state and the
  decisions of the window loop (exit, redraw, frame rate).
- `mesh`: index lists of fans, ellipse fills and outlines, lines, joined
  meshes, and polygon vertex neighbours.
- `mesh_loader`: the structure of the mesh text format used for fonts.
- `shape_pipeline`: object records, draw plans and per-frame draw calls.

`app/` holds the rest: window and GPU work, `f32` vector and matrix math,
colors and mesh geometry, built on the verified core.
