# photo_engine

A raster photo-editing engine written in Verus: RGBA pixel buffers, coverage masks and
selections, a layered document with bounded undo/redo history, flood and bucket fills,
layer masks, and the integer filters (box and surface blur, median,
mosaic, high pass, content-aware fill) that work on them.

## Layout

- `src/` is the verified library. Every public function states in its contract what it
  returns or how it changes the document, over plain mathematical models (`Seq`, `int`,
  views of the document and its layers). Properties that relate several operations
  (undo/redo round trips, double inversion, uniform images left unchanged by filters,
  contiguous fill lying within global fill, ...) are public proof functions.
- `app/` is ordinary Rust around the library: floating-point blending and resampling,
  layer styles, brushes, free transforms, image file input and output through the
  `image` crate, and the serde form of saved photo documents.
- `tests/` exercise the library on concrete values.

Real-valued layer parameters (position, scale, rotation, style settings) are kept in the
library as single-precision bit patterns, which it stores and copies but never computes
with; the arithmetic on them happens in `app/`.
