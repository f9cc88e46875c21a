use vstd::prelude::*;
use crate::color::{mix_channel, mix_rgba};
use crate::index::lemma_cell_in_grid;
use crate::masks::Mask;
use crate::pixels::PixelBuffer;

verus! {

/// The mask an optional reference points to.
pub open spec fn deref_opt(sel: Option<&Mask>) -> Option<Mask> {
    match sel {
        Some(m) => Some(*m),
        None => None,
    }
}

/// A selection mask that can be sampled with clamping: well formed and not empty.
pub open spec fn sampleable(sel: Option<Mask>) -> bool {
    sel matches Some(m) ==> m.wf() && m.width >= 1 && m.height >= 1
}

/// Coverage of pixel `(x, y)` under a selection: the mask value at the nearest mask cell
/// (coordinates clamped to the mask), or 255 when there is no selection.
pub open spec fn clamped_coverage(sel: Option<Mask>, x: int, y: int) -> u8 {
    match sel {
        Some(m) => m.at(
            if x <= m.width - 1 { x } else { m.width - 1 },
            if y <= m.height - 1 { y } else { m.height - 1 },
        ),
        None => 255,
    }
}

/// Coverage of pixel `(x, y)` under `selection`, with coordinates clamped to the mask.
pub fn selected_coverage(selection: Option<&Mask>, x: u32, y: u32) -> (r: u8)
    requires
        sampleable(deref_opt(selection)),
    ensures
        r == clamped_coverage(deref_opt(selection), x as int, y as int),
{
    match selection {
        Some(m) => {
            let mx = if x <= m.width - 1 { x } else { m.width - 1 };
            let my = if y <= m.height - 1 { y } else { m.height - 1 };
            m.get(mx, my)
        },
        None => 255,
    }
}

/// Scales each pixel's alpha by the layer mask (sampled with clamping; a mask with no
/// cells reads 0): `alpha * m / 255`, rounded down. Colour channels are kept.
pub fn apply_layer_mask(img: &mut PixelBuffer, mask: Option<&Mask>)
    requires
        old(img).wf(),
        mask matches Some(m) ==> m.wf(),
    ensures
        final(img).wf(),
        final(img).same_shape(old(img)),
        mask is None ==> final(img).data@ == old(img).data@,
        mask matches Some(m) ==> forall|x: int, y: int, c: int|
            old(img).in_range(x, y) && 0 <= c < 4 ==> #[trigger] final(img).chan(x, y, c) == if c
                == 3 {
                (old(img).chan(x, y, 3) * masked_value(*m, x, y) / 255) as u8
            } else {
                old(img).chan(x, y, c)
            },
{
    let m = match mask {
        Some(m) => m,
        None => {
            return;
        },
    };
    let ghost start = *img;
    let mut y: u32 = 0;
    while y < img.height
        invariant
            img.wf(),
            img.same_shape(&start),
            start == *old(img),
            m.wf(),
            y <= img.height,
            forall|px: int, py: int, c: int|
                start.in_range(px, py) && 0 <= c < 4 ==> #[trigger] img.chan(px, py, c) == if py < y
                    && c == 3 {
                    (start.chan(px, py, 3) * masked_value(*m, px, py) / 255) as u8
                } else {
                    start.chan(px, py, c)
                },
        decreases start.height - y,
    {
        let mut x: u32 = 0;
        while x < img.width
            invariant
                img.wf(),
                img.same_shape(&start),
                m.wf(),
                y < img.height,
                x <= img.width,
                forall|px: int, py: int, c: int|
                    start.in_range(px, py) && 0 <= c < 4 ==> #[trigger] img.chan(px, py, c) == if (py < y
                        || (py == y && px < x)) && c == 3 {
                        (start.chan(px, py, 3) * masked_value(*m, px, py) / 255) as u8
                    } else {
                        start.chan(px, py, c)
                    },
            decreases start.width - x,
        {
            let mx = if x <= m.width.saturating_sub(1) { x } else { m.width.saturating_sub(1) };
            let my = if y <= m.height.saturating_sub(1) { y } else { m.height.saturating_sub(1) };
            let mv = m.get(mx, my) as u16;
            proof {
                lemma_cell_in_grid(img.width as int, img.height as int, x as int, y as int);
            }
            let mut c = img.get(x, y);
            assert(c[3] as u16 * mv <= 65025) by (nonlinear_arith)
                requires
                    c[3] <= 255,
                    mv <= 255,
            ;
            assert((c[3] as u16 * mv) / 255 <= 255) by (nonlinear_arith)
                requires
                    c[3] as u16 * mv <= 65025,
            ;
            assert(mv == masked_value(*m, x as int, y as int));
            assert(forall|k: int| 0 <= k < 4 ==> #[trigger] c@[k] == img.chan(x as int, y as int, k) && img.chan(x as int, y as int, k) == start.chan(x as int, y as int, k));
            c[3] = ((c[3] as u16 * mv) / 255) as u8;
            img.set(x, y, c);
            x += 1;
        }
        y += 1;
    }
}

/// The mask value `apply_layer_mask` uses for pixel `(x, y)`.
pub open spec fn masked_value(m: Mask, x: int, y: int) -> int {
    let mw = if m.width >= 1 { m.width - 1 } else { 0 };
    let mh = if m.height >= 1 { m.height - 1 } else { 0 };
    m.value(if x <= mw { x } else { mw }, if y <= mh { y } else { mh }) as int
}

/// Blends `src` into `dst` under the selection: over the area both images share, each
/// pixel becomes `mix(dst, src, coverage)` (all of `src` at full coverage, `dst` kept at none).
pub fn blend_selected(dst: &mut PixelBuffer, src: &PixelBuffer, selection: Option<&Mask>)
    requires
        old(dst).wf(),
        src.wf(),
        old(dst).width >= 1 && old(dst).height >= 1 && src.width >= 1 && src.height >= 1 ==> sampleable(deref_opt(selection)),
    ensures
        final(dst).wf(),
        final(dst).same_shape(old(dst)),
        forall|x: int, y: int, c: int|
            old(dst).in_range(x, y) && 0 <= c < 4 ==> #[trigger] final(dst).chan(x, y, c) == if src.in_range(
                x,
                y,
            ) {
                mix_channel(old(dst).chan(x, y, c), src.chan(x, y, c), clamped_coverage(deref_opt(selection), x, y))
            } else {
                old(dst).chan(x, y, c)
            },
{
    let ghost start = *dst;
    let h = if dst.height <= src.height { dst.height } else { src.height };
    let w = if dst.width <= src.width { dst.width } else { src.width };
    if h == 0 || w == 0 {
        return;
    }
    let mut y: u32 = 0;
    while y < h
        invariant
            dst.wf(),
            src.wf(),
            dst.same_shape(&start),
            start == *old(dst),
            sampleable(deref_opt(selection)),
            h <= dst.height && h <= src.height,
            w <= dst.width && w <= src.width,
            h == dst.height || h == src.height,
            w == dst.width || w == src.width,
            y <= h,
            forall|px: int, py: int, c: int|
                start.in_range(px, py) && 0 <= c < 4 ==> #[trigger] dst.chan(px, py, c) == if src.in_range(px, py)
                    && py < y {
                    mix_channel(start.chan(px, py, c), src.chan(px, py, c), clamped_coverage(deref_opt(selection), px, py))
                } else {
                    start.chan(px, py, c)
                },
        decreases h - y,
    {
        let mut x: u32 = 0;
        while x < w
            invariant
                dst.wf(),
                src.wf(),
                dst.same_shape(&start),
                sampleable(deref_opt(selection)),
                h <= dst.height && h <= src.height,
                w <= dst.width && w <= src.width,
                w == dst.width || w == src.width,
                y < h,
                x <= w,
                forall|px: int, py: int, c: int|
                    start.in_range(px, py) && 0 <= c < 4 ==> #[trigger] dst.chan(px, py, c) == if src.in_range(
                        px,
                        py,
                    ) && (py < y || (py == y && px < x)) {
                        mix_channel(start.chan(px, py, c), src.chan(px, py, c), clamped_coverage(deref_opt(selection), px, py))
                    } else {
                        start.chan(px, py, c)
                    },
            decreases w - x,
        {
            proof {
                lemma_cell_in_grid(dst.width as int, dst.height as int, x as int, y as int);
                lemma_cell_in_grid(src.width as int, src.height as int, x as int, y as int);
            }
            let cov = selected_coverage(selection, x, y);
            let a = dst.get(x, y);
            let b = src.get(x, y);
            let mixed = mix_rgba(a, b, cov);
            assert(forall|k: int| 0 <= k < 4 ==> #[trigger] a@[k] == dst.chan(x as int, y as int, k) && dst.chan(x as int, y as int, k) == start.chan(x as int, y as int, k));
            assert(forall|k: int| 0 <= k < 4 ==> #[trigger] b@[k] == src.chan(x as int, y as int, k));
            dst.set(x, y, mixed);
            x += 1;
        }
        y += 1;
    }
}

} // verus!
