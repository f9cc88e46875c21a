//! A raster photo-editing engine: pixel buffers, masks, selections, a layered
//! document with undo/redo history, and the integer pixel filters that work on them.
//!
//! Real-valued layer placement and style parameters are kept as single-precision bit
//! patterns: the library stores and copies them, and never computes with them.

/// Integer rectangles.
pub mod geometry;
/// Decimal text for ids and messages.
pub mod text;
/// Row-major cell positions.
pub mod index;
/// RGBA pixel buffers.
pub mod pixels;
/// Coverage masks and the document selection.
pub mod masks;
/// Window sums, maxima and minima over grids.
pub mod window;
/// The box blur.
pub mod filters;
/// Mask blur, dilation and erosion.
pub mod mask_ops;
/// Colour distance and coverage blending.
pub mod color;
/// Selection coverage, layer masks and blending a filtered image under the selection.
pub mod compose;
/// Layers, their kinds, styles and enumerations.
pub mod layer;
/// The document, its well-formedness and its history model.
pub mod document;
/// Undo and redo.
pub mod history;
/// The layer stack: ids, adding, deleting, duplicating and moving layers.
pub mod stack;
/// Selection editing.
pub mod selection;
/// Flood fill over 4-connected cells.
pub mod flood;
/// Masks built from rectangles, colours and flood results.
pub mod regions;
/// Reading and replacing the pixels of the target raster layer.
pub mod raster_edit;
/// Per-pixel adjustments under the selection.
pub mod adjustments;
/// Neighbourhood averages over chosen pixels.
pub mod sampling;
/// Content-aware fill.
pub mod fill;
/// Whole-image filters of the target raster layer, and nearest-neighbour resizing.
pub mod raster_filters;
/// Bucket fill.
pub mod paint;
/// Layer mask editing.
pub mod layer_masks;
/// Cropping a layer's pixels.
pub mod layer_crop;
/// Resetting a layer's placement.
pub mod placement;
/// Documents made from an image, and locating the selected layer.
pub mod opening;
/// Canvas size and crop area, and rectangle shapes.
pub mod canvas;
/// The editor's tools and their labels.
pub mod tools;
/// Bounds of visible pixels and copying between buffers.
pub mod layer_bounds;
/// Recognising the editor's own layer files by their paths.
pub mod paths;
/// Keyboard shortcuts: from one frame of key input to the actions it asks for.
pub mod shortcuts;
/// The canvas pointer: from one frame of pointer input to the next drag state and the editor commands.
pub mod canvas_input;
/// The 5 by 7 block font.
pub mod glyphs;
