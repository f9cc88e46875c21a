use vstd::prelude::*;
use crate::geometry::{RectI, clip_rect};
use crate::index::{cell, lemma_cell_in_grid, lemma_cell4_disjoint};
use crate::text::{decimal, push_decimal};

verus! {

/// An RGBA image: `width * height` pixels, four bytes each, stored row by row.
#[derive(Clone, Debug)]
pub struct PixelBuffer {
    pub width: u32,
    pub height: u32,
    pub data: Vec<u8>,
}

/// Channel `c` of pixel `(x, y)` of an image given as (width, height, bytes).
pub open spec fn tchan(img: (u32, u32, Seq<u8>), x: int, y: int, c: int) -> u8 {
    img.2[4 * crate::index::cell(img.0 as int, x, y) + c]
}

/// An image as plain values: (width, height, bytes).
pub open spec fn triple(img: PixelBuffer) -> (u32, u32, Seq<u8>) {
    (img.width, img.height, img.data@)
}

/// Byte count that `PixelBuffer::new` allocates: `4 * width * height`, saturated at `u32::MAX`.
pub open spec fn saturated_len(width: u32, height: u32) -> nat {
    if 4 * (width * height) <= u32::MAX { (4 * (width * height)) as nat } else { u32::MAX as nat }
}

/// The message `from_raw` gives for a buffer of the wrong length.
pub open spec fn bad_length_message(got: nat, expected: nat) -> Seq<char> {
    "bad RGBA buffer length: got "@ + decimal(got) + ", expected "@ + decimal(expected)
}

/// `data` with the four bytes at `i` replaced by `rgba`.
pub open spec fn put4(data: Seq<u8>, i: int, rgba: Seq<u8>) -> Seq<u8> {
    data.update(i, rgba[0]).update(i + 1, rgba[1]).update(i + 2, rgba[2]).update(i + 3, rgba[3])
}

/// The area `sub_image` copies: the overlap of `rect` with the image, or the
/// top-left pixel when they do not overlap.
pub open spec fn sub_image_rect(img: &PixelBuffer, rect: RectI) -> RectI {
    clip_rect(img.width, img.height, rect)
}

/// A well-formed image whose width does not fit an `i32` has no rows, and conversely
/// a non-empty one has dimensions that fit an `i32`.
pub proof fn lemma_wide_image_is_empty(img: &PixelBuffer)
    requires
        img.wf(),
    ensures
        img.height >= 1 ==> img.width <= 0x3fff_ffff,
        img.width >= 1 ==> img.height <= 0x3fff_ffff,
        img.width * img.height <= 0x3fff_ffff,
{
    let w = img.width as int;
    let h = img.height as int;
    assert(h >= 1 ==> w <= w * h) by (nonlinear_arith)
        requires
            0 <= w,
    ;
    assert(w >= 1 ==> h <= w * h) by (nonlinear_arith)
        requires
            0 <= h,
    ;
}

impl PixelBuffer {
    /// The byte length matches the dimensions, and every byte offset fits in a `u32`.
    pub open spec fn wf(&self) -> bool {
        &&& self.data@.len() == 4 * (self.width * self.height)
        &&& 4 * (self.width * self.height) <= u32::MAX
    }

    /// `(x, y)` is a pixel of the image.
    pub open spec fn in_range(&self, x: int, y: int) -> bool {
        0 <= x < self.width && 0 <= y < self.height
    }

    /// Byte offset of pixel `(x, y)`.
    pub open spec fn offset(&self, x: int, y: int) -> int {
        4 * cell(self.width as int, x, y)
    }

    /// Channel `c` (0 red, 1 green, 2 blue, 3 alpha) of pixel `(x, y)`.
    pub open spec fn chan(&self, x: int, y: int, c: int) -> u8 {
        self.data@[self.offset(x, y) + c]
    }

    /// The four bytes of pixel `(x, y)`.
    pub open spec fn pixel(&self, x: int, y: int) -> Seq<u8> {
        self.data@.subrange(self.offset(x, y), self.offset(x, y) + 4)
    }

    /// Same dimensions as `other`.
    pub open spec fn same_shape(&self, other: &PixelBuffer) -> bool {
        self.width == other.width && self.height == other.height
    }

    /// A `width` by `height` buffer of transparent black. The byte count saturates at
    /// `u32::MAX`; the result is well formed exactly when `4 * width * height` fits in a `u32`.
    pub fn new(width: u32, height: u32) -> (r: Self)
        ensures
            r.width == width,
            r.height == height,
            r.data@ == Seq::new(saturated_len(width, height), |i: int| 0u8),
            r.wf() <==> 4 * (width * height) <= u32::MAX,
    {
        assert(0 <= width * height <= 0xffff_ffffu64 * 0xffff_ffffu64) by (nonlinear_arith)
            requires
                width <= 0xffff_ffffu64,
                height <= 0xffff_ffffu64,
        ;
        let area: u64 = width as u64 * height as u64;
        let len: u32 = if area > 0x3fff_ffffu64 { 0xffff_ffffu32 } else { (area * 4) as u32 };
        let data: Vec<u8> = vec![0u8; len as usize];
        let r = PixelBuffer { width, height, data };
        assert(r.data@ =~= Seq::new(saturated_len(width, height), |i: int| 0u8));
        r
    }

    /// A `width` by `height` buffer with every pixel set to `rgba`.
    pub fn solid(width: u32, height: u32, rgba: [u8; 4]) -> (r: Self)
        ensures
            r.width == width,
            r.height == height,
            r.data@.len() == saturated_len(width, height),
            r.wf() <==> 4 * (width * height) <= u32::MAX,
            r.wf() ==> forall|x: int, y: int| r.in_range(x, y) ==> #[trigger] r.pixel(x, y) == rgba@,
            forall|j: int| 0 <= j < 4 * (r.data@.len() / 4) ==> #[trigger] r.data@[j] == rgba@[j % 4],
    {
        let mut out = Self::new(width, height);
        out.clear(rgba);
        proof {
            if out.wf() {
                assert forall|x: int, y: int| out.in_range(x, y) implies #[trigger] out.pixel(x, y) == rgba@ by {
                    lemma_cell_in_grid(width as int, height as int, x, y);
                    let o = out.offset(x, y);
                    assert(o % 4 == 0);
                    assert forall|c: int| 0 <= c < 4 implies out.data@[o + c] == rgba@[c] by {
                        assert((o + c) % 4 == c);
                    }
                    assert(out.pixel(x, y) =~= rgba@);
                }
            }
        }
        out
    }

    /// Wraps `data` as a `width` by `height` image; the length must be `4 * width * height`.
    pub fn from_raw(width: u32, height: u32, data: Vec<u8>) -> (r: Result<Self, String>)
        requires
            4 * (width * height) <= usize::MAX,
        ensures
            match r {
                Ok(img) => data@.len() == 4 * (width * height) && img.width == width
                    && img.height == height && img.data@ == data@,
                Err(msg) => data@.len() != 4 * (width * height)
                    && msg@ == bad_length_message(data@.len(), (4 * (width * height)) as nat),
            },
    {
        assert(0 <= width * height) by (nonlinear_arith)
            requires
                0 <= width,
                0 <= height,
        ;
        let expected: usize = width as usize * height as usize * 4;
        if data.len() != expected {
            let mut msg = String::from_str("bad RGBA buffer length: got ");
            push_decimal(&mut msg, data.len());
            msg.append(", expected ");
            push_decimal(&mut msg, expected);
            assert(msg@ =~= bad_length_message(data@.len(), (4 * (width * height)) as nat));
            return Err(msg);
        }
        Ok(PixelBuffer { width, height, data })
    }

    /// Byte offset of pixel `(x, y)`; the offset must fit in a `u32`.
    pub fn idx(&self, x: u32, y: u32) -> (r: usize)
        requires
            4 * cell(self.width as int, x as int, y as int) <= u32::MAX,
        ensures
            r == self.offset(x as int, y as int),
    {
        assert(0 <= y * self.width) by (nonlinear_arith);
        ((y * self.width + x) * 4) as usize
    }

    /// `(x, y)` is a pixel of the image.
    pub fn in_bounds(&self, x: i32, y: i32) -> (r: bool)
        ensures
            r == self.in_range(x as int, y as int),
    {
        x >= 0 && y >= 0 && (x as u32) < self.width && (y as u32) < self.height
    }

    /// The pixel whose bytes start at offset `4 * (y * width + x)`.
    pub fn get(&self, x: u32, y: u32) -> (r: [u8; 4])
        requires
            4 * cell(self.width as int, x as int, y as int) <= u32::MAX,
            self.offset(x as int, y as int) + 4 <= self.data@.len(),
        ensures
            r@ == self.pixel(x as int, y as int),
    {
        let i = self.idx(x, y);
        let r = [self.data[i], self.data[i + 1], self.data[i + 2], self.data[i + 3]];
        assert(r@ =~= self.pixel(x as int, y as int));
        r
    }

    /// The pixel at `(x, y)`, or transparent black outside the image.
    pub fn get_checked(&self, x: i32, y: i32) -> (r: [u8; 4])
        requires
            self.wf(),
        ensures
            self.in_range(x as int, y as int) ==> r@ == self.pixel(x as int, y as int),
            !self.in_range(x as int, y as int) ==> r@ == seq![0u8, 0u8, 0u8, 0u8],
    {
        if !self.in_bounds(x, y) {
            let r = [0u8, 0u8, 0u8, 0u8];
            assert(r@ =~= seq![0u8, 0u8, 0u8, 0u8]);
            return r;
        }
        proof {
            lemma_cell_in_grid(self.width as int, self.height as int, x as int, y as int);
        }
        self.get(x as u32, y as u32)
    }

    /// Writes `rgba` at the pixel whose bytes start at offset `4 * (y * width + x)`.
    pub fn set(&mut self, x: u32, y: u32, rgba: [u8; 4])
        requires
            4 * cell(old(self).width as int, x as int, y as int) <= u32::MAX,
            old(self).offset(x as int, y as int) + 4 <= old(self).data@.len(),
        ensures
            final(self).width == old(self).width,
            final(self).height == old(self).height,
            final(self).data@ == put4(old(self).data@, old(self).offset(x as int, y as int), rgba@),
            old(self).wf() && old(self).in_range(x as int, y as int) ==> final(self).wf(),
            old(self).wf() && old(self).in_range(x as int, y as int) ==> forall|px: int, py: int, c: int|
                old(self).in_range(px, py) && 0 <= c < 4 ==> #[trigger] final(self).chan(px, py, c)
                    == if px == x && py == y {
                    rgba@[c]
                } else {
                    old(self).chan(px, py, c)
                },
    {
        let i = self.idx(x, y);
        self.data.set(i, rgba[0]);
        self.data.set(i + 1, rgba[1]);
        self.data.set(i + 2, rgba[2]);
        self.data.set(i + 3, rgba[3]);
        proof {
            if old(self).wf() && old(self).in_range(x as int, y as int) {
                let w = self.width as int;
                assert forall|px: int, py: int, c: int|
                    old(self).in_range(px, py) && 0 <= c < 4 implies #[trigger] self.chan(px, py, c) == if px
                    == x && py == y {
                    rgba@[c]
                } else {
                    old(self).chan(px, py, c)
                } by {
                    lemma_cell_in_grid(w, self.height as int, px, py);
                    if px != x || py != y {
                        let o = 4 * cell(w, px, py) + c;
                        lemma_cell4_disjoint(w, px, py, c, x as int, y as int, 0);
                        lemma_cell4_disjoint(w, px, py, c, x as int, y as int, 1);
                        lemma_cell4_disjoint(w, px, py, c, x as int, y as int, 2);
                        lemma_cell4_disjoint(w, px, py, c, x as int, y as int, 3);
                    }
                }
            }
        }
    }

    /// Writes `rgba` at `(x, y)` when that is a pixel of the image; otherwise does nothing.
    pub fn set_checked(&mut self, x: i32, y: i32, rgba: [u8; 4])
        requires
            old(self).wf(),
        ensures
            final(self).width == old(self).width,
            final(self).height == old(self).height,
            old(self).in_range(x as int, y as int) ==> final(self).data@ == put4(
                old(self).data@,
                old(self).offset(x as int, y as int),
                rgba@,
            ),
            !old(self).in_range(x as int, y as int) ==> final(self).data@ == old(self).data@,
    {
        if self.in_bounds(x, y) {
            proof {
                lemma_cell_in_grid(self.width as int, self.height as int, x as int, y as int);
            }
            self.set(x as u32, y as u32, rgba);
        }
    }


    /// Sets every pixel inside `rect` (clipped to the image) to `rgba`.
    pub fn fill_rect(&mut self, rect: RectI, rgba: [u8; 4])
        requires
            old(self).wf(),
            rect.edges_fit(),
        ensures
            final(self).same_shape(old(self)),
            final(self).wf(),
            forall|px: int, py: int, c: int|
                old(self).in_range(px, py) && 0 <= c < 4 ==> #[trigger] final(self).chan(px, py, c)
                    == if rect.has(px, py) {
                    rgba@[c]
                } else {
                    old(self).chan(px, py, c)
                },
    {
        proof {
            lemma_wide_image_is_empty(self);
        }
        let full = RectI::new(0, 0, self.width as i32, self.height as i32);
        let r = match rect.intersect(full) {
            Some(r) => r,
            None => {
                return;
            },
        };
        let ghost start = *self;
        let bottom = r.bottom();
        let right = r.right();
        let mut y = r.y;
        while y < bottom
            invariant
                self.wf(),
                self.same_shape(&start),
                start == *old(self),
                rect.intersect_spec(full) == Some(r),
                full.x == 0 && full.y == 0 && full.w == start.width && full.h == start.height,
                bottom == r.bottom_spec(),
                right == r.right_spec(),
                r.y <= y <= bottom,
                0 <= r.x,
                right <= start.width,
                0 <= r.y,
                bottom <= start.height,
                forall|px: int, py: int, c: int|
                    start.in_range(px, py) && 0 <= c < 4 ==> #[trigger] self.chan(px, py, c)
                        == if r.has(px, py) && py < y {
                        rgba@[c]
                    } else {
                        start.chan(px, py, c)
                    },
            decreases bottom - y,
        {
            let mut x = r.x;
            while x < right
                invariant
                    self.wf(),
                    self.same_shape(&start),
                    r.y <= y < bottom,
                    r.x <= x <= right,
                    0 <= r.x,
                    right <= start.width,
                    0 <= r.y,
                    bottom <= start.height,
                    bottom == r.bottom_spec(),
                    right == r.right_spec(),
                    forall|px: int, py: int, c: int|
                        start.in_range(px, py) && 0 <= c < 4 ==> #[trigger] self.chan(px, py, c)
                            == if r.has(px, py) && (py < y || (py == y && px < x)) {
                            rgba@[c]
                        } else {
                            start.chan(px, py, c)
                        },
                decreases right - x,
            {
                proof {
                    lemma_cell_in_grid(self.width as int, self.height as int, x as int, y as int);
                }
                self.set(x as u32, y as u32, rgba);
                x += 1;
            }
            y += 1;
        }
    }

    /// A copy of the part of the image under `rect`; when `rect` misses the image,
    /// the top-left pixel alone.
    pub fn sub_image(&self, rect: RectI) -> (out: Self)
        requires
            self.wf(),
            rect.edges_fit(),
            self.width >= 1 && self.height >= 1,
        ensures
            out.wf(),
            ({
                let r = sub_image_rect(self, rect);
                &&& out.width == r.w && out.height == r.h
                &&& forall|x: int, y: int, c: int|
                    out.in_range(x, y) && 0 <= c < 4 ==> #[trigger] out.chan(x, y, c) == self.chan(
                        r.x + x,
                        r.y + y,
                        c,
                    )
            }),
    {
        proof {
            lemma_wide_image_is_empty(self);
        }
        let full = RectI::new(0, 0, self.width as i32, self.height as i32);
        let r = match rect.intersect(full) {
            Some(r) => r,
            None => RectI::new(0, 0, 1, 1),
        };
        proof {
            assert(r.w * r.h <= self.width * self.height) by (nonlinear_arith)
                requires
                    0 < r.w <= self.width,
                    0 < r.h <= self.height,
            ;
        }
        let mut out = PixelBuffer::new(r.w as u32, r.h as u32);
        let mut y: i32 = 0;
        while y < r.h
            invariant
                out.wf(),
                self.wf(),
                out.width == r.w,
                out.height == r.h,
                self.width <= 0x3fff_ffff,
                self.height <= 0x3fff_ffff,
                r == sub_image_rect(self, rect),
                0 <= r.x,
                0 <= r.y,
                0 < r.w,
                0 < r.h,
                r.x + r.w <= self.width,
                r.y + r.h <= self.height,
                0 <= y <= r.h,
                forall|px: int, py: int, c: int|
                    out.in_range(px, py) && py < y && 0 <= c < 4 ==> #[trigger] out.chan(px, py, c)
                        == self.chan(r.x + px, r.y + py, c),
            decreases r.h - y,
        {
            let mut x: i32 = 0;
            while x < r.w
                invariant
                    out.wf(),
                    self.wf(),
                    out.width == r.w,
                    out.height == r.h,
                    self.width <= 0x3fff_ffff,
                    self.height <= 0x3fff_ffff,
                    0 <= r.x,
                    0 <= r.y,
                    r.x + r.w <= self.width,
                    r.y + r.h <= self.height,
                    0 <= y < r.h,
                    0 <= x <= r.w,
                    forall|px: int, py: int, c: int|
                        out.in_range(px, py) && (py < y || (py == y && px < x)) && 0 <= c < 4
                            ==> #[trigger] out.chan(px, py, c) == self.chan(r.x + px, r.y + py, c),
                decreases r.w - x,
            {
                proof {
                    lemma_cell_in_grid(self.width as int, self.height as int, (r.x + x) as int, (r.y + y) as int);
                    lemma_cell_in_grid(out.width as int, out.height as int, x as int, y as int);
                }
                let p = self.get((r.x + x) as u32, (r.y + y) as u32);
                out.set(x as u32, y as u32, p);
                x += 1;
            }
            y += 1;
        }
        out
    }

    /// An exact copy.
    pub fn duplicate(&self) -> (r: PixelBuffer)
        ensures
            r.width == self.width,
            r.height == self.height,
            r.data@ == self.data@,
    {
        let data = self.data.clone();
        assert(data@ =~= self.data@);
        PixelBuffer { width: self.width, height: self.height, data }
    }

    /// Sets every complete four-byte group to `rgba`.
    pub fn clear(&mut self, rgba: [u8; 4])
        ensures
            final(self).width == old(self).width,
            final(self).height == old(self).height,
            final(self).data@.len() == old(self).data@.len(),
            forall|j: int|
                0 <= j < final(self).data@.len() ==> #[trigger] final(self).data@[j] == if j < 4 * (
                old(self).data@.len() / 4) {
                    rgba@[j % 4]
                } else {
                    old(self).data@[j]
                },
    {
        let len = self.data.len();
        let n = len / 4;
        let ghost old_data = self.data@;
        let mut k: usize = 0;
        while k < n
            invariant
                n == old_data.len() / 4,
                4 * n <= old_data.len(),
                old_data.len() <= usize::MAX,
                k <= n,
                self.width == old(self).width,
                self.height == old(self).height,
                old_data == old(self).data@,
                self.data@.len() == old_data.len(),
                forall|j: int|
                    0 <= j < self.data@.len() ==> #[trigger] self.data@[j] == if j < 4 * k {
                        rgba@[j % 4]
                    } else {
                        old_data[j]
                    },
            decreases n - k,
        {
            let i = 4 * k;
            self.data.set(i, rgba[0]);
            self.data.set(i + 1, rgba[1]);
            self.data.set(i + 2, rgba[2]);
            self.data.set(i + 3, rgba[3]);
            k += 1;
            assert forall|j: int| 0 <= j < self.data@.len() implies #[trigger] self.data@[j] == if j < 4 * k {
                rgba@[j % 4]
            } else {
                old_data[j]
            } by {
                if 4 * (k - 1) <= j < 4 * k {
                    assert(j % 4 == j - 4 * (k - 1));
                }
            }
        }
    }
}

/// A `width` by `height` image whose pixel `(x, y)` is `g(x, y)`.
pub fn build_image<G: Fn(u32, u32) -> [u8; 4]>(width: u32, height: u32, g: G) -> (out: PixelBuffer)
    requires
        4 * (width * height) <= u32::MAX,
        forall|x: u32, y: u32| x < width && y < height ==> #[trigger] g.requires((x, y)),
    ensures
        out.wf(),
        out.width == width,
        out.height == height,
        forall|x: int, y: int| out.in_range(x, y) ==> exists|p: [u8; 4]| #[trigger] g.ensures((x as u32, y as u32), p)
            && forall|c: int| 0 <= c < 4 ==> #[trigger] out.chan(x, y, c) == p@[c],
{
    let mut out = PixelBuffer::new(width, height);
    proof {
        lemma_wide_image_is_empty(&out);
    }
    let mut y: u32 = 0;
    while y < height
        invariant
            out.wf(),
            out.width == width,
            out.height == height,
            y <= height,
            forall|x: u32, y: u32| x < width && y < height ==> #[trigger] g.requires((x, y)),
            forall|px: int, py: int| #![trigger out.in_range(px, py)] out.in_range(px, py) && py < y ==> exists|p: [u8; 4]| #[trigger] g.ensures((px as u32, py as u32), p)
                && forall|c: int| 0 <= c < 4 ==> #[trigger] out.chan(px, py, c) == p@[c],
        decreases height - y,
    {
        let mut x: u32 = 0;
        while x < width
            invariant
                out.wf(),
                out.width == width,
                out.height == height,
                y < height,
                x <= width,
                forall|x: u32, y: u32| x < width && y < height ==> #[trigger] g.requires((x, y)),
                forall|px: int, py: int| #![trigger out.in_range(px, py)] out.in_range(px, py) && (py < y || (py == y && px < x)) ==> exists|p: [u8; 4]|
                    #[trigger] g.ensures((px as u32, py as u32), p) && forall|c: int| 0 <= c < 4 ==> #[trigger] out.chan(px, py, c) == p@[c],
            decreases width - x,
        {
            proof {
                lemma_cell_in_grid(width as int, height as int, x as int, y as int);
            }
            let p = g(x, y);
            let ghost prev = out;
            out.set(x, y, p);
            proof {
                assert forall|px: int, py: int| out.in_range(px, py) && (py < y || (py == y && px < x + 1)) implies exists|q: [u8; 4]|
                    #[trigger] g.ensures((px as u32, py as u32), q) && forall|c: int| 0 <= c < 4 ==> #[trigger] out.chan(px, py, c) == q@[c] by {
                    if px == x && py == y {
                        assert(g.ensures((px as u32, py as u32), p));
                        assert(forall|c: int| 0 <= c < 4 ==> #[trigger] out.chan(px, py, c) == p@[c]);
                    } else {
                        assert(prev.in_range(px, py));
                        let q = choose|q: [u8; 4]| #[trigger] g.ensures((px as u32, py as u32), q) && forall|c: int|
                            0 <= c < 4 ==> #[trigger] prev.chan(px, py, c) == q@[c];
                        assert(forall|c: int| 0 <= c < 4 ==> #[trigger] out.chan(px, py, c) == prev.chan(px, py, c));
                        assert(forall|c: int| 0 <= c < 4 ==> #[trigger] out.chan(px, py, c) == q@[c]);
                    }
                }
            }
            x += 1;
        }
        y += 1;
    }
    out
}

} // verus!
