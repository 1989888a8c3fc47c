# rust_renderer

The integer logic of a tile-based 3D software renderer, with its behaviour stated in
contracts and proved with Verus.

- `src/line.rs` — the incremental line walk (Bresenham), with the exact pixel sequence and
  proofs that it starts and ends at the end points, stays in their bounding box and moves
  between neighbouring pixels.
- `src/tile.rs`, `src/binning.rs` — the tile grid over the framebuffer (proved to cover
  every pixel exactly once) and the assignment of triangles to the tiles they overlap.
- `src/clip.rs` — which vertices and edge crossings polygon clipping keeps, and fan
  triangulation of the clipped polygon.
- `src/fps.rs` — the frame counter behind the frames-per-second display, proved not to drift.
- `src/gpu_layout.rs` — buffer layout arithmetic for GPU uploads and readbacks, and the
  order of the shadow pre-pass.
- `src/scene_settings.rs`, `src/raster_renderer.rs`, `src/active_renderer.rs`,
  `src/renderer_choice.rs`,
  `src/texture.rs`, `src/triangle.rs`, `src/cube.rs`, `src/scene_objects.rs` — scene
  settings, renderer settings, backend cycling, texels, and wireframe shapes.
- `app/` — command-line selection of the backend and the floating-point steps (clipping
  distances, texture coordinates, screen bounding boxes) that feed the library.
