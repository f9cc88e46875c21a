use vstd::prelude::*;
use crate::index::lemma_cell_in_grid;
use crate::pixels::{PixelBuffer, lemma_wide_image_is_empty};

verus! {

/// Pixel `(x, y)` is in the image and not fully transparent.
pub open spec fn visible_at(img: PixelBuffer, x: int, y: int) -> bool {
    img.in_range(x, y) && img.chan(x, y, 3) > 0
}

/// `b` is the bounding box `(min_x, min_y, max_x, max_y)` of the visible pixels: it holds
/// all of them and each of its edges touches one.
pub open spec fn is_alpha_bounds(img: PixelBuffer, b: (u32, u32, u32, u32)) -> bool {
    &&& forall|x: int, y: int| visible_at(img, x, y) ==> b.0 <= x <= b.2 && b.1 <= y <= b.3
    &&& exists|x: int, y: int| visible_at(img, x, y) && x == b.0
    &&& exists|x: int, y: int| visible_at(img, x, y) && y == b.1
    &&& exists|x: int, y: int| visible_at(img, x, y) && x == b.2
    &&& exists|x: int, y: int| visible_at(img, x, y) && y == b.3
}

/// The bounding box `(min_x, min_y, max_x, max_y)` of the pixels with non-zero alpha, or
/// `None` when every pixel is fully transparent.
pub fn alpha_bounds(image: &PixelBuffer) -> (r: Option<(u32, u32, u32, u32)>)
    requires
        image.wf(),
    ensures
        match r {
            Some(b) => is_alpha_bounds(*image, b),
            None => forall|x: int, y: int| !visible_at(*image, x, y),
        },
{
    proof {
        lemma_wide_image_is_empty(image);
    }
    let w = image.width;
    let h = image.height;
    let mut min_x = w;
    let mut min_y = h;
    let mut max_x: u32 = 0;
    let mut max_y: u32 = 0;
    let mut found = false;
    let mut y: u32 = 0;
    while y < h
        invariant
            image.wf(),
            w == image.width,
            h == image.height,
            y <= h,
            !found ==> forall|px: int, py: int| visible_at(*image, px, py) ==> py >= y,
            found ==> {
                &&& forall|px: int, py: int| visible_at(*image, px, py) && py < y ==> min_x <= px <= max_x && min_y <= py <= max_y
                &&& exists|px: int, py: int| visible_at(*image, px, py) && py < y && px == min_x
                &&& exists|px: int, py: int| visible_at(*image, px, py) && py < y && py == min_y
                &&& exists|px: int, py: int| visible_at(*image, px, py) && py < y && px == max_x
                &&& exists|px: int, py: int| visible_at(*image, px, py) && py < y && py == max_y
            },
        decreases h - y,
    {
        let mut x: u32 = 0;
        while x < w
            invariant
                image.wf(),
                w == image.width,
                h == image.height,
                y < h,
                x <= w,
                !found ==> forall|px: int, py: int| visible_at(*image, px, py) ==> py > y || (py == y && px >= x),
                found ==> {
                    &&& forall|px: int, py: int|
                        visible_at(*image, px, py) && (py < y || (py == y && px < x)) ==> min_x <= px <= max_x && min_y
                            <= py <= max_y
                    &&& exists|px: int, py: int| visible_at(*image, px, py) && (py < y || (py == y && px < x)) && px == min_x
                    &&& exists|px: int, py: int| visible_at(*image, px, py) && (py < y || (py == y && px < x)) && py == min_y
                    &&& exists|px: int, py: int| visible_at(*image, px, py) && (py < y || (py == y && px < x)) && px == max_x
                    &&& exists|px: int, py: int| visible_at(*image, px, py) && (py < y || (py == y && px < x)) && py == max_y
                },
            decreases w - x,
        {
            proof {
                lemma_cell_in_grid(w as int, h as int, x as int, y as int);
            }
            let a = image.get(x, y)[3];
            assert(a == image.chan(x as int, y as int, 3));
            if a > 0 {
                assert(visible_at(*image, x as int, y as int));
                if !found {
                    min_x = x;
                    min_y = y;
                    max_x = x;
                    max_y = y;
                    found = true;
                } else {
                    if x < min_x {
                        min_x = x;
                    }
                    if y < min_y {
                        min_y = y;
                    }
                    if x > max_x {
                        max_x = x;
                    }
                    if y > max_y {
                        max_y = y;
                    }
                }
            }
            x += 1;
        }
        y += 1;
    }
    if found {
        Some((min_x, min_y, max_x, max_y))
    } else {
        None
    }
}

/// Copies `src` into `dst` with its top-left corner at `(offset_x, offset_y)`; the pixels
/// that land outside `dst` are dropped.
pub fn copy_rgba_into(dst: &mut PixelBuffer, src: &PixelBuffer, offset_x: i32, offset_y: i32)
    requires
        old(dst).wf(),
        src.wf(),
        src.width <= i32::MAX,
        src.height <= i32::MAX,
        src.width >= 1 ==> offset_x + src.width - 1 <= i32::MAX,
        src.height >= 1 ==> offset_y + src.height - 1 <= i32::MAX,
    ensures
        final(dst).wf(),
        final(dst).same_shape(old(dst)),
        forall|x: int, y: int, c: int|
            old(dst).in_range(x, y) && 0 <= c < 4 ==> #[trigger] final(dst).chan(x, y, c) == if src.in_range(
                x - offset_x,
                y - offset_y,
            ) {
                src.chan(x - offset_x, y - offset_y, c)
            } else {
                old(dst).chan(x, y, c)
            },
{
    let ghost start = *dst;
    let sw = src.width as i32;
    let sh = src.height as i32;
    let mut sy: i32 = 0;
    while sy < sh
        invariant
            dst.wf(),
            src.wf(),
            start.wf(),
            dst.same_shape(&start),
            sw == src.width,
            sh == src.height,
            src.width >= 1 ==> offset_x + src.width - 1 <= i32::MAX,
            src.height >= 1 ==> offset_y + src.height - 1 <= i32::MAX,
            0 <= sy <= sh,
            forall|x: int, y: int, c: int|
                start.in_range(x, y) && 0 <= c < 4 ==> #[trigger] dst.chan(x, y, c) == if src.in_range(x - offset_x, y - offset_y)
                    && y - offset_y < sy {
                    src.chan(x - offset_x, y - offset_y, c)
                } else {
                    start.chan(x, y, c)
                },
        decreases sh - sy,
    {
        let mut sx: i32 = 0;
        while sx < sw
            invariant
                dst.wf(),
                src.wf(),
                start.wf(),
                dst.same_shape(&start),
                sw == src.width,
                sh == src.height,
                src.width >= 1 ==> offset_x + src.width - 1 <= i32::MAX,
                src.height >= 1 ==> offset_y + src.height - 1 <= i32::MAX,
                0 <= sy < sh,
                0 <= sx <= sw,
                forall|x: int, y: int, c: int|
                    start.in_range(x, y) && 0 <= c < 4 ==> #[trigger] dst.chan(x, y, c) == if src.in_range(
                        x - offset_x,
                        y - offset_y,
                    ) && (y - offset_y < sy || (y - offset_y == sy && x - offset_x < sx)) {
                        src.chan(x - offset_x, y - offset_y, c)
                    } else {
                        start.chan(x, y, c)
                    },
            decreases sw - sx,
        {
            let dx = sx + offset_x;
            let dy = sy + offset_y;
            if dst.in_bounds(dx, dy) {
                proof {
                    lemma_cell_in_grid(src.width as int, src.height as int, sx as int, sy as int);
                    lemma_cell_in_grid(dst.width as int, dst.height as int, dx as int, dy as int);
                }
                let p = src.get(sx as u32, sy as u32);
                dst.set(dx as u32, dy as u32, p);
            }
            sx += 1;
        }
        sy += 1;
    }
}

} // verus!
