use vstd::prelude::*;
use crate::color::{color_distance, dist2, lemma_distance_within};
use crate::geometry::{RectI, clip_rect};
use crate::index::{cell, lemma_cell_in_grid};
use crate::masks::Mask;
use crate::pixels::PixelBuffer;

verus! {

/// Builds a `w` by `h` mask whose cell `(x, y)` is `f(x, y)`; `g` states what `f` computes.
pub(crate) fn build_mask<F: Fn(u32, u32) -> u8>(w: u32, h: u32, f: F, Ghost(g): Ghost<spec_fn(int, int) -> u8>) -> (m: Mask)
    requires
        w * h <= u32::MAX,
        forall|x: u32, y: u32| x < w && y < h ==> #[trigger] f.requires((x, y)),
        forall|x: u32, y: u32, v: u8| x < w && y < h && #[trigger] f.ensures((x, y), v) ==> v == g(x as int, y as int),
    ensures
        m.wf(),
        m.width == w,
        m.height == h,
        forall|x: int, y: int| m.in_range(x, y) ==> #[trigger] m.at(x, y) == g(x, y),
{
    let mut m = Mask::new(w, h, 0);
    let mut y: u32 = 0;
    while y < h
        invariant
            m.wf(),
            m.width == w,
            m.height == h,
            y <= h,
            forall|x: u32, y: u32| x < w && y < h ==> #[trigger] f.requires((x, y)),
            forall|x: u32, y: u32, v: u8| x < w && y < h && #[trigger] f.ensures((x, y), v) ==> v == g(x as int, y as int),
            forall|px: int, py: int| m.in_range(px, py) && py < y ==> #[trigger] m.at(px, py) == g(px, py),
        decreases h - y,
    {
        let mut x: u32 = 0;
        while x < w
            invariant
                m.wf(),
                m.width == w,
                m.height == h,
                y < h,
                x <= w,
                forall|x: u32, y: u32| x < w && y < h ==> #[trigger] f.requires((x, y)),
                forall|x: u32, y: u32, v: u8| x < w && y < h && #[trigger] f.ensures((x, y), v) ==> v == g(x as int, y as int),
                forall|px: int, py: int|
                    m.in_range(px, py) && (py < y || (py == y && px < x)) ==> #[trigger] m.at(px, py) == g(px, py),
            decreases w - x,
        {
            let v = f(x, y);
            m.set(x, y, v);
            x += 1;
        }
        y += 1;
    }
    m
}

/// 255 inside `rect`, 0 elsewhere.
pub open spec fn rect_value(rect: RectI, x: int, y: int) -> u8 {
    if rect.has(x, y) { 255 } else { 0 }
}

/// A `w` by `h` mask with 255 on the cells inside `rect` and 0 elsewhere.
pub fn rect_mask(w: u32, h: u32, rect: RectI) -> (m: Mask)
    requires
        w * h <= u32::MAX,
        rect.edges_fit(),
        w <= i32::MAX,
        h <= i32::MAX,
    ensures
        m.wf(),
        m.width == w,
        m.height == h,
        forall|x: int, y: int| m.in_range(x, y) ==> #[trigger] m.at(x, y) == rect_value(rect, x, y),
{
    let f = |x: u32, y: u32| -> (v: u8)
        requires
            x <= i32::MAX,
            y <= i32::MAX,
        ensures
            v == rect_value(rect, x as int, y as int),
        {
            if rect.contains(x as i32, y as i32) { 255 } else { 0 }
        };
    build_mask(w, h, f, Ghost(|x: int, y: int| rect_value(rect, x, y)))
}

/// The pixel `(x, y)` lies in `img` and its RGB distance to `color`, rounded down, is at
/// most `tol` (that is, its squared distance is below `(tol + 1)^2`).
pub open spec fn near_color(img: PixelBuffer, color: Seq<u8>, tol: u8, x: int, y: int) -> bool {
    img.in_range(x, y) && dist2(img.pixel(x, y), color) < (tol + 1) * (tol + 1)
}

/// 255 on the pixels near `color`, 0 elsewhere.
pub open spec fn near_value(img: PixelBuffer, color: Seq<u8>, tol: u8, x: int, y: int) -> u8 {
    if near_color(img, color, tol, x, y) { 255 } else { 0 }
}

/// An image-sized mask: 255 where the pixel is within `tol` of `color`, 0 elsewhere.
pub fn color_match_mask(img: &PixelBuffer, color: [u8; 4], tol: u8) -> (m: Mask)
    requires
        img.wf(),
    ensures
        m.wf(),
        m.width == img.width,
        m.height == img.height,
        forall|x: int, y: int| m.in_range(x, y) ==> #[trigger] m.at(x, y) == near_value(*img, color@, tol, x, y),
{
    assert(img.width * img.height <= u32::MAX) by (nonlinear_arith)
        requires
            4 * (img.width * img.height) <= u32::MAX,
            0 <= img.width * img.height,
    ;
    let f = |x: u32, y: u32| -> (v: u8)
        requires
            x < img.width,
            y < img.height,
            img.wf(),
        ensures
            v == near_value(*img, color@, tol, x as int, y as int),
        {
            proof {
                lemma_cell_in_grid(img.width as int, img.height as int, x as int, y as int);
            }
            let p = img.get(x, y);
            let d = color_distance(p, color);
            proof {
                lemma_distance_within(d as int, dist2(p@, color@), tol as int);
            }
            if d <= tol as i32 { 255 } else { 0 }
        };
    build_mask(img.width, img.height, f, Ghost(|x: int, y: int| near_value(*img, color@, tol, x, y)))
}

/// A `w` by `h` mask holding `m`'s values (0 where `m` has no cell).
pub fn crop_mask(m: &Mask, w: u32, h: u32) -> (out: Mask)
    requires
        m.wf(),
        w * h <= u32::MAX,
    ensures
        out.wf(),
        out.width == w,
        out.height == h,
        forall|x: int, y: int| out.in_range(x, y) ==> #[trigger] out.at(x, y) == m.value(x, y),
{
    let f = |x: u32, y: u32| -> (v: u8)
        requires
            m.wf(),
        ensures
            v == m.value(x as int, y as int),
        {
            m.get(x, y)
        };
    build_mask(w, h, f, Ghost(|x: int, y: int| m.value(x, y)))
}

/// 255 where `marks` is set, 0 elsewhere.
pub open spec fn mark_value(marks: Seq<bool>, w: int, x: int, y: int) -> u8 {
    if marks[cell(w, x, y)] { 255 } else { 0 }
}

/// A `w` by `h` mask with 255 on the cells set in `marks` (row-major) and 0 elsewhere.
pub fn marks_to_mask(marks: &Vec<bool>, w: u32, h: u32) -> (out: Mask)
    requires
        marks@.len() == w * h,
        w * h <= u32::MAX,
    ensures
        out.wf(),
        out.width == w,
        out.height == h,
        forall|x: int, y: int| out.in_range(x, y) ==> #[trigger] out.at(x, y) == mark_value(marks@, w as int, x, y),
{
    let f = |x: u32, y: u32| -> (v: u8)
        requires
            x < w,
            y < h,
            marks@.len() == w * h,
            w * h <= u32::MAX,
        ensures
            v == mark_value(marks@, w as int, x as int, y as int),
        {
            proof {
                lemma_cell_in_grid(w as int, h as int, x as int, y as int);
            }
            if marks[(y * w + x) as usize] { 255 } else { 0 }
        };
    build_mask(w, h, f, Ghost(|x: int, y: int| mark_value(marks@, w as int, x, y)))
}

/// A copy of the part of `m` under `rect` (see `clip_rect`): the cells of the overlap,
/// or the top-left cell alone when `rect` misses the mask.
pub fn sub_mask(m: &Mask, rect: RectI) -> (out: Mask)
    requires
        m.wf(),
        rect.edges_fit(),
        1 <= m.width <= i32::MAX,
        1 <= m.height <= i32::MAX,
    ensures
        out.wf(),
        ({
            let r = clip_rect(m.width, m.height, rect);
            &&& out.width == r.w && out.height == r.h
            &&& forall|x: int, y: int| out.in_range(x, y) ==> #[trigger] out.at(x, y) == m.at(r.x + x, r.y + y)
        }),
{
    let full = RectI::new(0, 0, m.width as i32, m.height as i32);
    let r = match rect.intersect(full) {
        Some(r) => r,
        None => RectI::new(0, 0, 1, 1),
    };
    proof {
        crate::geometry::lemma_intersect_is_overlap(rect, full, 0, 0);
        assert(r.w * r.h <= m.width * m.height) by (nonlinear_arith)
            requires
                0 < r.w <= m.width,
                0 < r.h <= m.height,
        ;
    }
    let f = |x: u32, y: u32| -> (v: u8)
        requires
            m.wf(),
            x < r.w,
            y < r.h,
            0 <= r.x,
            0 <= r.y,
            r.x + r.w <= m.width,
            r.y + r.h <= m.height,
        ensures
            v == m.value(r.x + x, r.y + y),
        {
            m.get((r.x + x as i32) as u32, (r.y + y as i32) as u32)
        };
    let out = build_mask(r.w as u32, r.h as u32, f, Ghost(|x: int, y: int| m.value(r.x + x, r.y + y)));
    assert forall|x: int, y: int| out.in_range(x, y) implies #[trigger] out.at(x, y) == m.at(r.x + x, r.y + y) by {
        assert(m.in_range(r.x + x, r.y + y));
    }
    out
}

} // verus!
