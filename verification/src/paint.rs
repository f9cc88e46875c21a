use vstd::prelude::*;
use crate::color::{color_distance, dist2, lemma_distance_within};
use crate::compose::{clamped_coverage, deref_opt, sampleable, selected_coverage};
use crate::document::{PhotoEngineDocument, push_model};
use crate::flood::{flood_region, nonzero, reachable};
use crate::history::with_state;
use crate::index::lemma_cell_in_grid;
use crate::masks::Mask;
use crate::pixels::{PixelBuffer, lemma_wide_image_is_empty, tchan, triple};
use crate::raster_edit::{raster_of, raster_target, selection_sampleable, with_raster};
use crate::regions::{build_mask, marks_to_mask};
use crate::sampling::pixel_at;

verus! {

/// Pixel `(x, y)` takes part in a fill from a seed of colour `target`: it lies in the
/// image, its colour is within integer distance `tol` of `target` (squared distance below
/// `(tol + 1)^2`) and the selection covers it at least a little.
pub open spec fn bucket_ok(img: (u32, u32, Seq<u8>), target: Seq<u8>, tol: u8, sel: Option<Mask>, x: int, y: int) -> bool {
    &&& 0 <= x < img.0
    &&& 0 <= y < img.1
    &&& dist2(pixel_at(img, x, y), target) < (tol + 1) * (tol + 1)
    &&& clamped_coverage(sel, x, y) != 0
}

/// Pixel `(x, y)` is painted by a bucket fill from the seed `(sx, sy)`: it takes part
/// (see `bucket_ok`, with the seed's colour) and, when `contiguous`, it is connected to
/// the seed through such pixels by 4-neighbour steps.
pub open spec fn bucket_hit(
    img: (u32, u32, Seq<u8>),
    sel: Option<Mask>,
    sx: int,
    sy: int,
    tol: u8,
    contiguous: bool,
    x: int,
    y: int,
) -> bool {
    let target = pixel_at(img, sx, sy);
    if contiguous {
        0 <= x < img.0 && 0 <= y < img.1 && reachable(
            |a: int, b: int| bucket_ok(img, target, tol, sel, a, b),
            img.0 as int,
            img.1 as int,
            sx,
            sy,
            x,
            y,
        )
    } else {
        bucket_ok(img, target, tol, sel, x, y)
    }
}

/// Channel `c` of pixel `(x, y)` after a bucket fill with `color` from `(sx, sy)`:
/// `color` where the fill reaches, the old value elsewhere; nothing changes when the seed
/// lies outside the image.
pub open spec fn bucket_chan(
    img: (u32, u32, Seq<u8>),
    sel: Option<Mask>,
    sx: int,
    sy: int,
    color: Seq<u8>,
    tol: u8,
    contiguous: bool,
    x: int,
    y: int,
    c: int,
) -> u8 {
    if 0 <= sx < img.0 && 0 <= sy < img.1 && bucket_hit(img, sel, sx, sy, tol, contiguous, x, y) {
        color[c]
    } else {
        tchan(img, x, y, c)
    }
}

/// A bucket fill depends on the selection only through its coverage.
proof fn lemma_bucket_same_coverage(img: (u32, u32, Seq<u8>), s1: Option<Mask>, s2: Option<Mask>, sx: int, sy: int, tol: u8)
    requires
        forall|a: int, b: int| clamped_coverage(s1, a, b) == clamped_coverage(s2, a, b),
    ensures
        forall|x: int, y: int, contiguous: bool|
            #[trigger] bucket_hit(img, s1, sx, sy, tol, contiguous, x, y) == bucket_hit(img, s2, sx, sy, tol, contiguous, x, y),
{
    let target = pixel_at(img, sx, sy);
    let ok1 = |a: int, b: int| bucket_ok(img, target, tol, s1, a, b);
    let ok2 = |a: int, b: int| bucket_ok(img, target, tol, s2, a, b);
    assert(ok1 =~= ok2);
}

/// Paints `color` on the pixels where `m` (of the image's size) is not zero.
fn paint_where(img: &mut PixelBuffer, m: &Mask, color: [u8; 4])
    requires
        old(img).wf(),
        m.wf(),
        m.width == old(img).width,
        m.height == old(img).height,
    ensures
        final(img).wf(),
        final(img).same_shape(old(img)),
        forall|x: int, y: int, c: int|
            old(img).in_range(x, y) && 0 <= c < 4 ==> #[trigger] final(img).chan(x, y, c) == if m.at(x, y) != 0 {
                color@[c]
            } else {
                old(img).chan(x, y, c)
            },
{
    let ghost start = *img;
    let mut y: u32 = 0;
    while y < img.height
        invariant
            img.wf(),
            start.wf(),
            img.same_shape(&start),
            m.wf(),
            m.width == img.width,
            m.height == img.height,
            y <= img.height,
            forall|px: int, py: int, c: int|
                start.in_range(px, py) && 0 <= c < 4 ==> #[trigger] img.chan(px, py, c) == if py < y && m.at(px, py) != 0 {
                    color@[c]
                } else {
                    start.chan(px, py, c)
                },
        decreases start.height - y,
    {
        let mut x: u32 = 0;
        while x < img.width
            invariant
                img.wf(),
                start.wf(),
                img.same_shape(&start),
                m.wf(),
                m.width == img.width,
                m.height == img.height,
                y < img.height,
                x <= img.width,
                forall|px: int, py: int, c: int|
                    start.in_range(px, py) && 0 <= c < 4 ==> #[trigger] img.chan(px, py, c) == if (py < y || (py == y && px
                        < x)) && m.at(px, py) != 0 {
                        color@[c]
                    } else {
                        start.chan(px, py, c)
                    },
            decreases start.width - x,
        {
            proof {
                lemma_cell_in_grid(img.width as int, img.height as int, x as int, y as int);
            }
            if m.get(x, y) != 0 {
                img.set(x, y, color);
            }
            x += 1;
        }
        y += 1;
    }
}

/// An image-sized mask: 255 on the pixels that take part in a fill from a seed of colour
/// `target` (see `bucket_ok`), 0 elsewhere.
fn bucket_eligibility(src: &PixelBuffer, selection: Option<&Mask>, target: [u8; 4], tolerance: u8) -> (m: Mask)
    requires
        src.wf(),
        sampleable(deref_opt(selection)),
    ensures
        m.wf(),
        m.width == src.width,
        m.height == src.height,
        forall|a: int, b: int| m.in_range(a, b) ==> #[trigger] m.at(a, b) == (if bucket_ok(triple(*src), target@, tolerance, deref_opt(selection), a, b) { 255u8 } else { 0u8 }),
{
    assert(src.width * src.height <= u32::MAX) by (nonlinear_arith)
        requires
            4 * (src.width * src.height) <= u32::MAX,
            0 <= src.width * src.height,
    ;
    let f = |a: u32, b: u32| -> (v: u8)
        requires
            a < src.width,
            b < src.height,
            src.wf(),
            sampleable(deref_opt(selection)),
        ensures
            v == (if bucket_ok(triple(*src), target@, tolerance, deref_opt(selection), a as int, b as int) { 255u8 } else { 0u8 }),
        {
            proof {
                lemma_cell_in_grid(src.width as int, src.height as int, a as int, b as int);
            }
            let p = src.get(a, b);
            let d = color_distance(p, target);
            proof {
                lemma_distance_within(d as int, dist2(p@, target@), tolerance as int);
                assert forall|k: int| 0 <= k < 4 implies #[trigger] p@[k] == pixel_at(triple(*src), a as int, b as int)[k] by {
                    assert(p@[k] == src.chan(a as int, b as int, k));
                }
            }
            if d <= tolerance as i32 && selected_coverage(selection, a, b) != 0 { 255 } else { 0 }
        };
    build_mask(
        src.width,
        src.height,
        f,
        Ghost(|a: int, b: int| if bucket_ok(triple(*src), target@, tolerance, deref_opt(selection), a, b) { 255u8 } else { 0u8 }),
    )
}

/// Bucket fill of `img` with `color` from the seed `(x, y)` (see `bucket_chan`).
pub fn paint_bucket_image(
    img: &mut PixelBuffer,
    selection: Option<&Mask>,
    x: u32,
    y: u32,
    color: [u8; 4],
    tolerance: u8,
    contiguous: bool,
)
    requires
        old(img).wf(),
        old(img).in_range(x as int, y as int) ==> sampleable(deref_opt(selection)),
    ensures
        final(img).wf(),
        final(img).same_shape(old(img)),
        forall|px: int, py: int, c: int|
            old(img).in_range(px, py) && 0 <= c < 4 ==> #[trigger] final(img).chan(px, py, c) == bucket_chan(
                triple(*old(img)),
                deref_opt(selection),
                x as int,
                y as int,
                color@,
                tolerance,
                contiguous,
                px,
                py,
                c,
            ),
{
    if x >= img.width || y >= img.height {
        return;
    }
    let ghost orig = triple(*img);
    let ghost sel = deref_opt(selection);
    proof {
        lemma_wide_image_is_empty(img);
        lemma_cell_in_grid(img.width as int, img.height as int, x as int, y as int);
        assert(img.width * img.height <= u32::MAX) by (nonlinear_arith)
            requires
                4 * (img.width * img.height) <= u32::MAX,
                0 <= img.width * img.height,
        ;
    }
    let target = img.get(x, y);
    proof {
        assert forall|k: int| 0 <= k < 4 implies #[trigger] target@[k] == pixel_at(orig, x as int, y as int)[k] by {
            assert(target@[k] == img.chan(x as int, y as int, k));
        }
        assert(target@ =~= pixel_at(orig, x as int, y as int));
    }
    let ghost ok = |a: int, b: int| bucket_ok(orig, target@, tolerance, sel, a, b);
    let eligible = bucket_eligibility(img, selection, target, tolerance);
    proof {
        assert(nonzero(eligible) =~= ok);
    }
    let region = if contiguous {
        let reached = flood_region(&eligible, x, y);
        marks_to_mask(&reached, img.width, img.height)
    } else {
        eligible
    };
    proof {
        assert forall|px: int, py: int| 0 <= px < orig.0 && 0 <= py < orig.1 implies (#[trigger] region.at(px, py) != 0)
            == bucket_hit(orig, sel, x as int, y as int, tolerance, contiguous, px, py) by {
            if contiguous {
                lemma_cell_in_grid(orig.0 as int, orig.1 as int, px, py);
            }
        }
    }
    paint_where(img, &region, color);
}

/// The outcome of a bucket fill of the document: nothing changes unless the selected layer
/// is an unlocked raster; then the content is recorded (even when the seed lies outside
/// the layer) and the layer's pixels become `bucket_chan` of the old ones.
pub open spec fn bucket_done(
    before: PhotoEngineDocument,
    after: PhotoEngineDocument,
    x: u32,
    y: u32,
    color: [u8; 4],
    tolerance: u8,
    contiguous: bool,
) -> bool {
    match raster_target(before.state()) {
        None => after.model() == before.model(),
        Some(p) => {
            let old_img = raster_of(before.state().layers[p]);
            let new_img = raster_of(after.state().layers[p]);
            &&& after.model() == with_state(push_model(before.model()), with_raster(before.state(), p, new_img))
            &&& new_img.0 == old_img.0
            &&& new_img.1 == old_img.1
            &&& new_img.2.len() == old_img.2.len()
            &&& forall|px: int, py: int, c: int|
                0 <= px < old_img.0 && 0 <= py < old_img.1 && 0 <= c < 4 ==> #[trigger] tchan(new_img, px, py, c) == bucket_chan(
                    old_img,
                    before.selection.mask,
                    x as int,
                    y as int,
                    color@,
                    tolerance,
                    contiguous,
                    px,
                    py,
                    c,
                )
        },
    }
}

/// Fills the selected raster layer with `color` from the seed `(x, y)`: the pixels within
/// `tolerance` of the seed's colour (connected to the seed when `contiguous`) that the
/// selection covers (see `bucket_done`).
pub fn paint_bucket(doc: &mut PhotoEngineDocument, x: u32, y: u32, color: [u8; 4], tolerance: u8, contiguous: bool)
    requires
        old(doc).wf(),
        raster_target(old(doc).state()) matches Some(p) ==> (x < raster_of(old(doc).state().layers[p]).0 && y < raster_of(
            old(doc).state().layers[p],
        ).1 ==> selection_sampleable(old(doc).state())),
    ensures
        final(doc).wf(),
        bucket_done(*old(doc), *final(doc), x, y, color, tolerance, contiguous),
{
    let selection = doc.selection_copy();
    let p = match doc.raster_target_index() {
        Some(p) => p,
        None => {
            return;
        },
    };
    proof {
        crate::raster_edit::lemma_raster_target_ok(doc.state());
    }
    doc.push_history();
    let mut img = doc.raster_copy(p);
    let ghost before = img;
    let sel_ref = selection.as_ref();
    assert(deref_opt(sel_ref) == selection);
    paint_bucket_image(&mut img, sel_ref, x, y, color, tolerance, contiguous);
    doc.replace_raster(p, img);
    proof {
        let pi = p as int;
        let s = with_raster(push_model(old(doc).model()).state, pi, triple(img));
        assert(s.layers[pi].kind == crate::layer::KindView::Raster(img.width, img.height, img.data@));
        assert(raster_of(doc.state().layers[pi]) == triple(img));
        let old_img = raster_of(old(doc).state().layers[pi]);
        let new_img = triple(img);
        let msk = old(doc).selection.mask;
        assert(old_img == triple(before));
        lemma_bucket_same_coverage(old_img, selection, msk, x as int, y as int, tolerance);
        assert forall|px: int, py: int, c: int|
            0 <= px < old_img.0 && 0 <= py < old_img.1 && 0 <= c < 4 implies #[trigger] tchan(new_img, px, py, c) == bucket_chan(
                old_img,
                msk,
                x as int,
                y as int,
                color@,
                tolerance,
                contiguous,
                px,
                py,
                c,
            ) by {
            assert(img.chan(px, py, c) == tchan(new_img, px, py, c));
        }
    }
}


/// A contiguous fill paints only pixels that the global fill (same seed, colour and
/// tolerance) paints.
pub proof fn lemma_contiguous_within_global(
    img: (u32, u32, Seq<u8>),
    sel: Option<Mask>,
    sx: int,
    sy: int,
    tol: u8,
    x: int,
    y: int,
)
    requires
        bucket_hit(img, sel, sx, sy, tol, true, x, y),
    ensures
        bucket_hit(img, sel, sx, sy, tol, false, x, y),
{
    let target = pixel_at(img, sx, sy);
    let ok = |a: int, b: int| bucket_ok(img, target, tol, sel, a, b);
    let k = choose|k: nat| crate::flood::reach_within(ok, img.0 as int, img.1 as int, sx, sy, k, x, y);
    crate::flood::lemma_reach_eligible(ok, img.0 as int, img.1 as int, sx, sy, k, x, y);
}

} // verus!
