use vstd::prelude::*;

use crate::document::{PhotoEngineDocument, StateView, push_model};
use crate::geometry::RectI;
use crate::history::with_state;
use crate::index::{cell, lemma_cell_in_grid};
use crate::layer::{MaskView, SelectionMode, mask_view};
use crate::flood::{flood_region, nonzero, reachable};
use crate::mask_ops::{blur_cells, blur_mask, dilate, dilate_times, erode, erode_times, lemma_cells_equal};
use crate::regions::{color_match_mask, crop_mask, marks_to_mask, near_color, near_value, rect_mask, rect_value};
use crate::masks::Mask;
use crate::pixels::PixelBuffer;
use crate::color::dist2;

verus! {

/// Value of cell `(x, y)` of a mask given as plain values, 0 outside it.
pub open spec fn mv_value(m: MaskView, x: int, y: int) -> u8 {
    if 0 <= x < m.0 && 0 <= y < m.1 { m.2[cell(m.0 as int, x, y)] } else { 0 }
}

/// The current selection's value at `(x, y)`, 0 outside it or when there is none.
pub open spec fn base_value(sel: Option<MaskView>, x: int, y: int) -> u8 {
    match sel {
        Some(m) => mv_value(m, x, y),
        None => 0,
    }
}

/// How a new selection value `b` combines with the current value `a`.
pub open spec fn combine_value(mode: SelectionMode, a: u8, b: u8) -> u8 {
    match mode {
        SelectionMode::Replace => b,
        SelectionMode::Add => if a >= b { a } else { b },
        SelectionMode::Subtract => if a >= b { (a - b) as u8 } else { 0 },
        SelectionMode::Intersect => if a <= b { a } else { b },
    }
}

/// The canvas-sized selection that results from combining `incoming` into `sel`.
pub open spec fn combined_cells(w: u32, h: u32, sel: Option<MaskView>, incoming: MaskView, mode: SelectionMode) -> Seq<u8> {
    Seq::new(
        (w * h) as nat,
        |i: int| combine_value(mode, base_value(sel, i % (w as int), i / (w as int)), mv_value(incoming, i % (w as int), i / (w as int))),
    )
}

/// The content with the selection replaced by `sel`.
pub open spec fn with_selection(s: StateView, sel: Option<MaskView>) -> StateView {
    StateView { selection: sel, ..s }
}

/// Selects the whole canvas; the previous content is recorded.
pub fn select_all(doc: &mut PhotoEngineDocument)
    requires
        old(doc).wf(),
    ensures
        final(doc).model() == with_state(
            push_model(old(doc).model()),
            with_selection(
                old(doc).state(),
                Some((old(doc).width, old(doc).height, Seq::new((old(doc).width * old(doc).height) as nat, |i: int| 255u8))),
            ),
        ),
        final(doc).wf(),
{
    doc.push_history();
    proof {
        lemma_canvas_fits(doc.width, doc.height);
    }
    doc.selection.mask = Some(Mask::new(doc.width, doc.height, 255));
    assert(doc.model() =~= with_state(
        push_model(old(doc).model()),
        with_selection(
            old(doc).state(),
            Some((old(doc).width, old(doc).height, Seq::new((old(doc).width * old(doc).height) as nat, |i: int| 255u8))),
        ),
    ));
}

/// A canvas the document supports also fits a canvas-sized mask.
pub proof fn lemma_canvas_fits(w: u32, h: u32)
    requires
        1 <= w && 1 <= h && 4 * (w * h) <= u32::MAX,
    ensures
        w * h <= u32::MAX,
        w <= i32::MAX,
        h <= i32::MAX,
        w <= w * h,
        h <= w * h,
{
    assert(w <= w * h && h <= w * h) by (nonlinear_arith)
        requires
            1 <= w,
            1 <= h,
    ;
}

/// Drops the selection (everything becomes selected); the previous content is recorded.
pub fn deselect(doc: &mut PhotoEngineDocument)
    requires
        old(doc).wf(),
    ensures
        final(doc).model() == with_state(push_model(old(doc).model()), with_selection(old(doc).state(), None)),
        final(doc).wf(),
{
    doc.push_history();
    doc.selection.clear();
    assert(doc.model() =~= with_state(push_model(old(doc).model()), with_selection(old(doc).state(), None)));
}

/// Inverts the selection mask (`v` becomes `255 - v`); with no selection, the result
/// selects nothing (the inverse of a full canvas mask). The previous content is recorded.
pub fn invert_selection(doc: &mut PhotoEngineDocument)
    requires
        old(doc).wf(),
    ensures
        final(doc).model() == with_state(
            push_model(old(doc).model()),
            with_selection(old(doc).state(), Some(inverted_selection(old(doc).state()))),
        ),
        final(doc).wf(),
{
    doc.push_history();
    proof {
        lemma_canvas_fits(doc.width, doc.height);
    }
    let mut mask = match &doc.selection.mask {
        Some(m) => m.duplicate(),
        None => Mask::new(doc.width, doc.height, 255),
    };
    mask.invert();
    doc.selection.mask = Some(mask);
    proof {
        let expected = inverted_selection(old(doc).state());
        assert(mask.data@ =~= expected.2);
        assert(doc.model() =~= with_state(
            push_model(old(doc).model()),
            with_selection(old(doc).state(), Some(expected)),
        ));
    }
}

/// The selection after `invert_selection`.
pub open spec fn inverted_selection(s: StateView) -> MaskView {
    match s.selection {
        Some(m) => (m.0, m.1, Seq::new(m.2.len(), |i: int| (255 - m.2[i]) as u8)),
        None => (s.width, s.height, Seq::new((s.width * s.height) as nat, |i: int| 0u8)),
    }
}

/// Combines `incoming` into the selection cell by cell over the canvas, according to
/// `mode`; the current selection reads 0 outside itself or when absent. The previous
/// content is recorded.
pub fn combine(doc: &mut PhotoEngineDocument, incoming: Mask, mode: SelectionMode)
    requires
        old(doc).wf(),
        incoming.wf(),
    ensures
        final(doc).model() == with_state(
            push_model(old(doc).model()),
            with_selection(
                old(doc).state(),
                Some((old(doc).width, old(doc).height, combined_cells(
                    old(doc).width,
                    old(doc).height,
                    old(doc).state().selection,
                    mask_view(incoming),
                    mode,
                ))),
            ),
        ),
        final(doc).wf(),
{
    doc.push_history();
    proof {
        lemma_canvas_fits(doc.width, doc.height);
    }
    let ghost sel = doc.state().selection;
    let base = match &doc.selection.mask {
        Some(m) => m.duplicate(),
        None => Mask::new(doc.width, doc.height, 0),
    };
    assert forall|px: int, py: int| 0 <= px < doc.width && 0 <= py < doc.height implies #[trigger] base.value(px, py)
        == base_value(sel, px, py) by {
        if sel is None {
            lemma_cell_in_grid(doc.width as int, doc.height as int, px, py);
        }
    }
    let mut out = Mask::new(doc.width, doc.height, 0);
    let w = doc.width;
    let h = doc.height;
    let mut y: u32 = 0;
    while y < h
        invariant
            out.wf(),
            base.wf(),
            incoming.wf(),
            out.width == w,
            out.height == h,
            w == doc.width,
            h == doc.height,
            1 <= w,
            y <= h,
            forall|px: int, py: int| 0 <= px < w && 0 <= py < h ==> #[trigger] base.value(px, py) == base_value(sel, px, py),
            forall|px: int, py: int|
                out.in_range(px, py) && py < y ==> #[trigger] out.at(px, py) == combine_value(
                    mode,
                    base_value(sel, px, py),
                    mv_value(mask_view(incoming), px, py),
                ),
        decreases h - y,
    {
        let mut x: u32 = 0;
        while x < w
            invariant
                out.wf(),
                base.wf(),
                incoming.wf(),
                out.width == w,
                out.height == h,
                1 <= w,
                y < h,
                x <= w,
                forall|px: int, py: int| 0 <= px < w && 0 <= py < h ==> #[trigger] base.value(px, py) == base_value(sel, px, py),
                forall|px: int, py: int|
                    out.in_range(px, py) && (py < y || (py == y && px < x)) ==> #[trigger] out.at(px, py)
                        == combine_value(mode, base_value(sel, px, py), mv_value(mask_view(incoming), px, py)),
            decreases w - x,
        {
            let a = base.get(x, y);
            let b = incoming.get(x, y);
            assert(a == base_value(sel, x as int, y as int));
            let v = match mode {
                SelectionMode::Replace => b,
                SelectionMode::Add => if a >= b { a } else { b },
                SelectionMode::Subtract => a.saturating_sub(b),
                SelectionMode::Intersect => if a <= b { a } else { b },
            };
            out.set(x, y, v);
            x += 1;
        }
        y += 1;
    }
    proof {
        lemma_cells_equal(
            &out,
            |px: int, py: int| combine_value(mode, base_value(sel, px, py), mv_value(mask_view(incoming), px, py)),
            combined_cells(w, h, sel, mask_view(incoming), mode),
        );
    }
    doc.selection.mask = Some(out);
    assert(doc.model() =~= with_state(
        push_model(old(doc).model()),
        with_selection(
            old(doc).state(),
            Some((w, h, combined_cells(w, h, sel, mask_view(incoming), mode))),
        ),
    ));
}


/// A `w` by `h` mask, as plain values, whose cell `(x, y)` is `g(x, y)`.
pub open spec fn cells_of(w: u32, h: u32, g: spec_fn(int, int) -> u8) -> MaskView {
    (w, h, Seq::new((w * h) as nat, |i: int| g(i % (w as int), i / (w as int))))
}

proof fn lemma_mask_is_cells(m: &Mask, g: spec_fn(int, int) -> u8)
    requires
        m.wf(),
        m.width >= 1,
        forall|x: int, y: int| m.in_range(x, y) ==> #[trigger] m.at(x, y) == g(x, y),
    ensures
        mask_view(*m) == cells_of(m.width, m.height, g),
{
    lemma_cells_equal(m, g, cells_of(m.width, m.height, g).2);
}

/// The content after combining a canvas mask given by `g` into the selection by `mode`.
pub open spec fn combined_with(s: StateView, g: spec_fn(int, int) -> u8, mode: SelectionMode) -> StateView {
    with_selection(s, Some((s.width, s.height, combined_cells(s.width, s.height, s.selection, cells_of(s.width, s.height, g), mode))))
}

/// Combines the rectangle `rect` (255 inside, 0 outside) into the selection by `mode`.
pub fn rectangle(doc: &mut PhotoEngineDocument, rect: RectI, mode: SelectionMode)
    requires
        old(doc).wf(),
        rect.edges_fit(),
    ensures
        final(doc).model() == with_state(
            push_model(old(doc).model()),
            combined_with(old(doc).state(), |x: int, y: int| rect_value(rect, x, y), mode),
        ),
        final(doc).wf(),
{
    proof {
        lemma_canvas_fits(doc.width, doc.height);
    }
    let m = rect_mask(doc.width, doc.height, rect);
    proof {
        lemma_mask_is_cells(&m, |x: int, y: int| rect_value(rect, x, y));
    }
    combine(doc, m, mode);
}

/// Combines into the selection, by `mode`, the pixels of `img` (inside the canvas) whose
/// RGB distance to `color` is at most `tolerance`.
pub fn color_range(doc: &mut PhotoEngineDocument, img: &PixelBuffer, color: [u8; 4], tolerance: u8, mode: SelectionMode)
    requires
        old(doc).wf(),
        img.wf(),
    ensures
        final(doc).model() == with_state(
            push_model(old(doc).model()),
            combined_with(old(doc).state(), |x: int, y: int| near_value(*img, color@, tolerance, x, y), mode),
        ),
        final(doc).wf(),
{
    proof {
        lemma_canvas_fits(doc.width, doc.height);
    }
    let matches = color_match_mask(img, color, tolerance);
    let m = crop_mask(&matches, doc.width, doc.height);
    proof {
        assert forall|x: int, y: int| m.in_range(x, y) implies #[trigger] m.at(x, y) == near_value(*img, color@, tolerance, x, y) by {
            assert(m.at(x, y) == matches.value(x, y));
        }
        lemma_mask_is_cells(&m, |x: int, y: int| near_value(*img, color@, tolerance, x, y));
    }
    combine(doc, m, mode);
}

/// The magic-wand value of pixel `(x, y)` for seed `(sx, sy)`: 255 when the pixel is within
/// `tol` of the seed's colour and, if `contiguous`, connected to the seed through such
/// pixels by 4-neighbour steps; 0 otherwise.
pub open spec fn wand_value(img: PixelBuffer, sx: int, sy: int, tol: u8, contiguous: bool, x: int, y: int) -> u8 {
    let target = img.pixel(sx, sy);
    if contiguous {
        if img.in_range(x, y) && reachable(
            |a: int, b: int| near_color(img, target, tol, a, b),
            img.width as int,
            img.height as int,
            sx,
            sy,
            x,
            y,
        ) {
            255
        } else {
            0
        }
    } else {
        near_value(img, target, tol, x, y)
    }
}

/// Selects by colour from the seed pixel `(seed_x, seed_y)` of `img` (see `wand_value`),
/// combining into the selection by `mode`. Does nothing when the seed is outside `img`.
pub fn magic_wand(
    doc: &mut PhotoEngineDocument,
    img: &PixelBuffer,
    seed_x: u32,
    seed_y: u32,
    tolerance: u8,
    contiguous: bool,
    mode: SelectionMode,
)
    requires
        old(doc).wf(),
        img.wf(),
    ensures
        !img.in_range(seed_x as int, seed_y as int) ==> final(doc).model() == old(doc).model(),
        img.in_range(seed_x as int, seed_y as int) ==> final(doc).model() == with_state(
            push_model(old(doc).model()),
            combined_with(
                old(doc).state(),
                |x: int, y: int| wand_value(*img, seed_x as int, seed_y as int, tolerance, contiguous, x, y),
                mode,
            ),
        ),
        final(doc).wf(),
{
    if seed_x >= img.width || seed_y >= img.height {
        return;
    }
    proof {
        lemma_canvas_fits(doc.width, doc.height);
        lemma_cell_in_grid(img.width as int, img.height as int, seed_x as int, seed_y as int);
    }
    let target = img.get(seed_x, seed_y);
    let matches = color_match_mask(img, target, tolerance);
    let ghost g = |x: int, y: int| wand_value(*img, seed_x as int, seed_y as int, tolerance, contiguous, x, y);
    let m = if contiguous {
        let reached = flood_region(&matches, seed_x, seed_y);
        let region = marks_to_mask(&reached, img.width, img.height);
        let m = crop_mask(&region, doc.width, doc.height);
        proof {
            let pred = |a: int, b: int| near_color(*img, target@, tolerance, a, b);
            assert(nonzero(matches) =~= pred);
            assert forall|x: int, y: int| m.in_range(x, y) implies #[trigger] m.at(x, y) == g(x, y) by {
                assert(m.at(x, y) == region.value(x, y));
            }
        }
        m
    } else {
        let m = crop_mask(&matches, doc.width, doc.height);
        proof {
            assert forall|x: int, y: int| m.in_range(x, y) implies #[trigger] m.at(x, y) == g(x, y) by {
                assert(m.at(x, y) == matches.value(x, y));
            }
        }
        m
    };
    proof {
        lemma_mask_is_cells(&m, g);
    }
    combine(doc, m, mode);
}

/// Softens the selection edge with a box blur of half-width `radius`; the previous
/// content is recorded. Does nothing without a selection.
pub fn feather(doc: &mut PhotoEngineDocument, radius: u32)
    requires
        old(doc).wf(),
    ensures
        old(doc).state().selection is None ==> final(doc).model() == old(doc).model(),
        old(doc).state().selection matches Some(m) ==> final(doc).model() == with_state(
            push_model(old(doc).model()),
            with_selection(old(doc).state(), Some((m.0, m.1, blur_cells(m.0 as int, m.1 as int, m.2, radius as int)))),
        ),
        final(doc).wf(),
{
    let mask = match &doc.selection.mask {
        Some(m) => m.duplicate(),
        None => {
            return;
        },
    };
    doc.push_history();
    let blurred = blur_mask(&mask, radius);
    doc.selection.mask = Some(blurred);
    assert(doc.model() =~= with_state(
        push_model(old(doc).model()),
        with_selection(
            old(doc).state(),
            Some((mask.width, mask.height, blur_cells(mask.width as int, mask.height as int, mask.data@, radius as int))),
        ),
    ));
}

/// Grows the selection by `pixels` steps of 3 by 3 dilation; the previous content is
/// recorded. Does nothing without a selection.
pub fn expand(doc: &mut PhotoEngineDocument, pixels: u32)
    requires
        old(doc).wf(),
    ensures
        old(doc).state().selection is None ==> final(doc).model() == old(doc).model(),
        old(doc).state().selection matches Some(m) ==> final(doc).model() == with_state(
            push_model(old(doc).model()),
            with_selection(old(doc).state(), Some((m.0, m.1, dilate_times(m.0 as int, m.1 as int, m.2, pixels as nat)))),
        ),
        final(doc).wf(),
{
    grow_or_shrink(doc, pixels, true)
}

/// Shrinks the selection by `pixels` steps of 3 by 3 erosion (cells beyond the mask count
/// as unselected); the previous content is recorded. Does nothing without a selection.
pub fn contract(doc: &mut PhotoEngineDocument, pixels: u32)
    requires
        old(doc).wf(),
    ensures
        old(doc).state().selection is None ==> final(doc).model() == old(doc).model(),
        old(doc).state().selection matches Some(m) ==> final(doc).model() == with_state(
            push_model(old(doc).model()),
            with_selection(old(doc).state(), Some((m.0, m.1, erode_times(m.0 as int, m.1 as int, m.2, pixels as nat)))),
        ),
        final(doc).wf(),
{
    grow_or_shrink(doc, pixels, false)
}

fn grow_or_shrink(doc: &mut PhotoEngineDocument, pixels: u32, grow: bool)
    requires
        old(doc).wf(),
    ensures
        old(doc).state().selection is None ==> final(doc).model() == old(doc).model(),
        old(doc).state().selection matches Some(m) ==> final(doc).model() == with_state(
            push_model(old(doc).model()),
            with_selection(
                old(doc).state(),
                Some((m.0, m.1, if grow {
                    dilate_times(m.0 as int, m.1 as int, m.2, pixels as nat)
                } else {
                    erode_times(m.0 as int, m.1 as int, m.2, pixels as nat)
                })),
            ),
        ),
        final(doc).wf(),
{
    let mask = match &doc.selection.mask {
        Some(m) => m.duplicate(),
        None => {
            return;
        },
    };
    doc.push_history();
    let ghost w = mask.width as int;
    let ghost h = mask.height as int;
    let ghost data = mask.data@;
    let mut cur = mask;
    let mut k: u32 = 0;
    while k < pixels
        invariant
            cur.wf(),
            cur.width == w,
            cur.height == h,
            cur.width <= i32::MAX,
            cur.height <= i32::MAX,
            k <= pixels,
            grow ==> cur.data@ == dilate_times(w, h, data, k as nat),
            !grow ==> cur.data@ == erode_times(w, h, data, k as nat),
        decreases pixels - k,
    {
        cur = if grow { dilate(&cur) } else { erode(&cur) };
        k += 1;
    }
    doc.selection.mask = Some(cur);
    assert(doc.model() =~= with_state(
        push_model(old(doc).model()),
        with_selection(
            old(doc).state(),
            Some((w as u32, h as u32, if grow {
                dilate_times(w, h, data, pixels as nat)
            } else {
                erode_times(w, h, data, pixels as nat)
            })),
        ),
    ));
}


/// Inverting an existing selection twice gives it back.
pub proof fn lemma_invert_selection_twice(s: StateView)
    requires
        s.selection is Some,
    ensures
        inverted_selection(with_selection(s, Some(inverted_selection(s)))) == s.selection->0,
{
    let m = s.selection->0;
    assert(inverted_selection(with_selection(s, Some(inverted_selection(s)))).2 =~= m.2);
}


/// Combining the same values a second time changes nothing, except when subtracting.
pub proof fn lemma_combine_twice(mode: SelectionMode, a: u8, b: u8)
    requires
        mode != SelectionMode::Subtract,
    ensures
        combine_value(mode, combine_value(mode, a, b), b) == combine_value(mode, a, b),
{
}


/// The contiguous magic wand selects only pixels that the global one (same image, seed and
/// tolerance) selects, and it always selects the seed itself.
pub proof fn lemma_wand_contiguous_within_global(img: PixelBuffer, sx: int, sy: int, tol: u8, x: int, y: int)
    requires
        img.in_range(sx, sy),
    ensures
        wand_value(img, sx, sy, tol, true, x, y) <= wand_value(img, sx, sy, tol, false, x, y),
        wand_value(img, sx, sy, tol, true, sx, sy) == 255,
{
    let target = img.pixel(sx, sy);
    let elig = |a: int, b: int| near_color(img, target, tol, a, b);
    let (w, h) = (img.width as int, img.height as int);
    assert(dist2(target, target) == 0);
    assert((tol + 1) * (tol + 1) > 0) by (nonlinear_arith);
    assert(near_color(img, target, tol, sx, sy));
    assert(elig(sx, sy));
    assert(crate::flood::in_grid(w, h, sx, sy));
    assert(crate::flood::reach_within(elig, w, h, sx, sy, 0, sx, sy));
    assert(reachable(elig, w, h, sx, sy, sx, sy));
    if wand_value(img, sx, sy, tol, true, x, y) == 255 {
        let k = choose|k: nat| crate::flood::reach_within(elig, w, h, sx, sy, k, x, y);
        crate::flood::lemma_reach_eligible(elig, w, h, sx, sy, k, x, y);
    }
}

/// The selection value at `(x, y)` after combining `g` into the content `s` by replacing:
/// `g(x, y)` itself, on every pixel of the canvas.
pub proof fn lemma_replace_selects_values(s: StateView, g: spec_fn(int, int) -> u8, x: int, y: int)
    requires
        0 <= x < s.width,
        0 <= y < s.height,
    ensures
        base_value(combined_with(s, g, SelectionMode::Replace).selection, x, y) == g(x, y),
{
    let w = s.width as int;
    let h = s.height as int;
    let p = cell(w, x, y);
    lemma_cell_in_grid(w, h, x, y);
    crate::index::lemma_position_is_cell(w, h, p);
    crate::index::lemma_cell_injective(w, x, y, p % w, p / w);
}

/// After a replacing magic wand from the same document content, the contiguous selection is,
/// pixel by pixel, no larger than the global one, and it holds the seed when the seed lies on
/// the canvas.
pub proof fn lemma_wand_replace_contiguous_within_global(
    s: StateView,
    img: PixelBuffer,
    sx: int,
    sy: int,
    tol: u8,
    x: int,
    y: int,
)
    requires
        img.in_range(sx, sy),
        0 <= x < s.width,
        0 <= y < s.height,
    ensures
        base_value(
            combined_with(s, |a: int, b: int| wand_value(img, sx, sy, tol, true, a, b), SelectionMode::Replace).selection,
            x,
            y,
        ) <= base_value(
            combined_with(s, |a: int, b: int| wand_value(img, sx, sy, tol, false, a, b), SelectionMode::Replace).selection,
            x,
            y,
        ),
        sx < s.width && sy < s.height ==> base_value(
            combined_with(s, |a: int, b: int| wand_value(img, sx, sy, tol, true, a, b), SelectionMode::Replace).selection,
            sx,
            sy,
        ) == 255,
{
    let gc = |a: int, b: int| wand_value(img, sx, sy, tol, true, a, b);
    let gg = |a: int, b: int| wand_value(img, sx, sy, tol, false, a, b);
    lemma_wand_contiguous_within_global(img, sx, sy, tol, x, y);
    lemma_replace_selects_values(s, gc, x, y);
    lemma_replace_selects_values(s, gg, x, y);
    if sx < s.width && sy < s.height {
        lemma_replace_selects_values(s, gc, sx, sy);
    }
}

/// What each combine mode does with the current selection value `a` of a pixel and the
/// incoming value `b`: replace takes `b`; add keeps the larger of the two; subtract takes
/// `b` away from `a` without going below 0, so it never selects more than was selected and
/// leaves an unselected pixel unselected; intersect keeps the smaller of the two.
pub proof fn lemma_combine_modes(a: u8, b: u8)
    ensures
        combine_value(SelectionMode::Replace, a, b) == b,
        combine_value(SelectionMode::Add, a, b) >= a,
        combine_value(SelectionMode::Add, a, b) >= b,
        combine_value(SelectionMode::Add, a, b) == a || combine_value(SelectionMode::Add, a, b) == b,
        combine_value(SelectionMode::Subtract, a, b) <= a,
        a == 0 ==> combine_value(SelectionMode::Subtract, a, b) == 0,
        b == 0 ==> combine_value(SelectionMode::Subtract, a, b) == a,
        b >= a ==> combine_value(SelectionMode::Subtract, a, b) == 0,
        b <= a ==> combine_value(SelectionMode::Subtract, a, b) + b == a,
        combine_value(SelectionMode::Intersect, a, b) <= a,
        combine_value(SelectionMode::Intersect, a, b) <= b,
        combine_value(SelectionMode::Intersect, a, b) == a || combine_value(SelectionMode::Intersect, a, b) == b,
{
}

/// The selection value of pixel `(x, y)` of the canvas after combining the incoming mask into
/// the selection by `mode` combines the pixel's current value and its incoming value.
pub proof fn lemma_combined_cell(s: StateView, incoming: MaskView, mode: SelectionMode, x: int, y: int)
    requires
        0 <= x < s.width,
        0 <= y < s.height,
    ensures
        base_value(Some((s.width, s.height, combined_cells(s.width, s.height, s.selection, incoming, mode))), x, y)
            == combine_value(mode, base_value(s.selection, x, y), mv_value(incoming, x, y)),
{
    let w = s.width as int;
    let h = s.height as int;
    let p = cell(w, x, y);
    lemma_cell_in_grid(w, h, x, y);
    crate::index::lemma_position_is_cell(w, h, p);
    crate::index::lemma_cell_injective(w, x, y, p % w, p / w);
}

/// Subtracting a mask from the selection never selects a pixel more than before, and a
/// pixel that was not selected stays unselected; adding never selects it less, and
/// intersecting never more.
pub proof fn lemma_combine_selection_bounds(s: StateView, incoming: MaskView, x: int, y: int)
    requires
        0 <= x < s.width,
        0 <= y < s.height,
    ensures
        base_value(Some((s.width, s.height, combined_cells(s.width, s.height, s.selection, incoming, SelectionMode::Subtract))), x, y)
            <= base_value(s.selection, x, y),
        base_value(s.selection, x, y) == 0 ==> base_value(
            Some((s.width, s.height, combined_cells(s.width, s.height, s.selection, incoming, SelectionMode::Subtract))),
            x,
            y,
        ) == 0,
        base_value(Some((s.width, s.height, combined_cells(s.width, s.height, s.selection, incoming, SelectionMode::Add))), x, y)
            >= base_value(s.selection, x, y),
        base_value(Some((s.width, s.height, combined_cells(s.width, s.height, s.selection, incoming, SelectionMode::Intersect))), x, y)
            <= base_value(s.selection, x, y),
{
    lemma_combined_cell(s, incoming, SelectionMode::Subtract, x, y);
    lemma_combined_cell(s, incoming, SelectionMode::Add, x, y);
    lemma_combined_cell(s, incoming, SelectionMode::Intersect, x, y);
    lemma_combine_modes(base_value(s.selection, x, y), mv_value(incoming, x, y));
}

} // verus!
