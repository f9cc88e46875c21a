use vstd::prelude::*;
use crate::document::{PhotoEngineDocument, StateView, canvas_ok, push_model};
use crate::geometry::RectI;
use crate::history::with_state;
use crate::pixels::PixelBuffer;

verus! {

/// The stroke of a rectangle shape covers pixel `(x, y)`: the stroke width is positive
/// (and fits an `i32`) and the pixel lies within that many pixels of an edge.
pub open spec fn on_rect_stroke(width: u32, height: u32, stroke_width: u32, x: int, y: int) -> bool {
    &&& 0 < stroke_width <= i32::MAX
    &&& (x < stroke_width || x >= width - stroke_width || y < stroke_width || y >= height - stroke_width)
}

/// Pixels of a rectangle shape: `stroke` within `stroke_width` of an edge, `fill` elsewhere.
pub fn rasterize_rect_shape(width: u32, height: u32, fill: [u8; 4], stroke: [u8; 4], stroke_width: u32) -> (out: PixelBuffer)
    requires
        4 * (width * height) <= u32::MAX,
        width <= i32::MAX,
        height <= i32::MAX,
        stroke_width != 0x8000_0000,
    ensures
        out.wf(),
        out.width == width,
        out.height == height,
        forall|x: int, y: int|
            out.in_range(x, y) ==> #[trigger] out.pixel(x, y) == if on_rect_stroke(width, height, stroke_width, x, y) {
                stroke@
            } else {
                fill@
            },
{
    let mut out = PixelBuffer::solid(width, height, fill);
    assert forall|x: int, y: int, c: int| out.in_range(x, y) && 0 <= c < 4 implies #[trigger] out.chan(x, y, c) == fill@[c] by {
        crate::index::lemma_cell_in_grid(width as int, height as int, x, y);
        assert(out.pixel(x, y) == fill@);
        assert(out.pixel(x, y)[c] == out.chan(x, y, c));
    }
    if stroke_width > 0 && stroke_width <= 0x7fff_ffff {
        let sw = stroke_width as i32;
        let w = width as i32;
        let h = height as i32;
        out.fill_rect(RectI::new(0, 0, w, sw), stroke);
        out.fill_rect(RectI::new(0, h - sw, w, sw), stroke);
        out.fill_rect(RectI::new(0, 0, sw, h), stroke);
        out.fill_rect(RectI::new(w - sw, 0, sw, h), stroke);
    }
    assert forall|x: int, y: int| out.in_range(x, y) implies #[trigger] out.pixel(x, y) == if on_rect_stroke(
        width,
        height,
        stroke_width,
        x,
        y,
    ) {
        stroke@
    } else {
        fill@
    } by {
        let expected = if on_rect_stroke(width, height, stroke_width, x, y) { stroke@ } else { fill@ };
        crate::index::lemma_cell_in_grid(width as int, height as int, x, y);
        assert forall|c: int| 0 <= c < 4 implies #[trigger] out.pixel(x, y)[c] == expected[c] by {
            assert(out.pixel(x, y)[c] == out.chan(x, y, c));
            assert(out.chan(x, y, c) == expected[c]);
        }
        assert(out.pixel(x, y) =~= expected);
    }
    out
}

/// The part of the canvas that cropping to `rect` keeps: the overlap of `rect` with the
/// canvas, or the whole canvas when they do not overlap.
pub open spec fn crop_rect_spec(width: u32, height: u32, rect: RectI) -> RectI {
    match rect.intersect_spec(RectI { x: 0, y: 0, w: width as i32, h: height as i32 }) {
        Some(r) => r,
        None => RectI { x: 0, y: 0, w: width as i32, h: height as i32 },
    }
}

/// The content with the canvas resized to `width` by `height` (each at least 1) and the
/// selection dropped; the layers are kept as they are.
pub open spec fn with_canvas(s: StateView, width: u32, height: u32) -> StateView {
    StateView {
        width: if width >= 1 { width } else { 1 },
        height: if height >= 1 { height } else { 1 },
        selection: None,
        ..s
    }
}

impl PhotoEngineDocument {
    /// The part of the canvas that cropping to `rect` keeps (see `crop_rect_spec`).
    pub fn crop_rect(&self, rect: RectI) -> (r: RectI)
        requires
            self.wf(),
            rect.edges_fit(),
        ensures
            r == crop_rect_spec(self.width, self.height, rect),
            1 <= r.w && 1 <= r.h,
            0 <= r.x && 0 <= r.y && r.x + r.w <= self.width && r.y + r.h <= self.height,
    {
        assert(self.width <= 0x3fff_ffff && self.height <= 0x3fff_ffff) by (nonlinear_arith)
            requires
                1 <= self.width,
                1 <= self.height,
                4 * (self.width * self.height) <= u32::MAX,
        ;
        let full = RectI::new(0, 0, self.width as i32, self.height as i32);
        match rect.intersect(full) {
            Some(r) => r,
            None => full,
        }
    }

    /// Resizes the canvas to `width` by `height` (each at least 1) and drops the selection,
    /// recording the previous content; the layers are not moved (see `with_canvas`).
    pub fn set_canvas(&mut self, width: u32, height: u32)
        requires
            old(self).wf(),
            canvas_ok(if width >= 1 { width } else { 1 }, if height >= 1 { height } else { 1 }),
        ensures
            final(self).wf(),
            final(self).model() == with_state(push_model(old(self).model()), with_canvas(old(self).state(), width, height)),
    {
        self.push_history();
        self.width = if width >= 1 { width } else { 1 };
        self.height = if height >= 1 { height } else { 1 };
        self.selection.clear();
        assert(self.state() =~= with_canvas(old(self).state(), width, height));
    }
}

} // verus!
