use vstd::prelude::*;
use crate::index::{cell, lemma_cell_in_grid, lemma_cell_injective};

verus! {

/// An 8-bit coverage map, one byte per pixel, stored row by row (0 = outside, 255 = inside).
#[derive(Clone, Debug)]
pub struct Mask {
    pub width: u32,
    pub height: u32,
    pub data: Vec<u8>,
}

/// The source coordinate that nearest-neighbour resampling reads for target coordinate
/// `x`: the source cell under the centre of the target cell, `floor((x + 1/2) * src / dst)`,
/// kept inside `0 .. src`.
pub open spec fn nearest_source(x: int, src: int, dst: int) -> int {
    let s = ((2 * x + 1) * src) / (2 * dst);
    if s <= src - 1 { s } else { src - 1 }
}

impl Mask {
    /// The byte length matches the dimensions, and every offset fits in a `u32`.
    pub open spec fn wf(&self) -> bool {
        &&& self.data@.len() == self.width * self.height
        &&& self.width * self.height <= u32::MAX
    }

    /// `(x, y)` is a cell of the mask.
    pub open spec fn in_range(&self, x: int, y: int) -> bool {
        0 <= x < self.width && 0 <= y < self.height
    }

    /// Value of cell `(x, y)`.
    pub open spec fn at(&self, x: int, y: int) -> u8 {
        self.data@[cell(self.width as int, x, y)]
    }

    /// What `get` reads: the cell value inside the mask, 0 outside.
    pub open spec fn value(&self, x: int, y: int) -> u8 {
        if self.in_range(x, y) { self.at(x, y) } else { 0 }
    }

    /// Same dimensions as `other`.
    pub open spec fn same_shape(&self, other: &Mask) -> bool {
        self.width == other.width && self.height == other.height
    }

    /// A `width` by `height` mask with every cell set to `value`.
    pub fn new(width: u32, height: u32, value: u8) -> (r: Self)
        requires
            width * height <= usize::MAX,
        ensures
            r.width == width,
            r.height == height,
            r.data@ == Seq::new((width * height) as nat, |i: int| value),
            r.wf() <==> width * height <= u32::MAX,
    {
        let data = vec![value; width as usize * height as usize];
        let r = Mask { width, height, data };
        assert(r.data@ =~= Seq::new((width * height) as nat, |i: int| value));
        r
    }

    /// Offset of cell `(x, y)`; it must fit in a `u32`.
    pub fn idx(&self, x: u32, y: u32) -> (r: usize)
        requires
            cell(self.width as int, x as int, y as int) <= u32::MAX,
        ensures
            r == cell(self.width as int, x as int, y as int),
    {
        assert(0 <= y * self.width) by (nonlinear_arith);
        (y * self.width + x) as usize
    }

    /// The value at `(x, y)`, or 0 outside the mask.
    pub fn get(&self, x: u32, y: u32) -> (r: u8)
        requires
            self.wf(),
        ensures
            r == self.value(x as int, y as int),
    {
        if x >= self.width || y >= self.height {
            0
        } else {
            proof {
                lemma_cell_in_grid(self.width as int, self.height as int, x as int, y as int);
            }
            self.data[self.idx(x, y)]
        }
    }

    /// Writes `v` at `(x, y)` when that is a cell of the mask; otherwise does nothing.
    pub fn set(&mut self, x: u32, y: u32, v: u8)
        requires
            old(self).wf(),
        ensures
            final(self).same_shape(old(self)),
            final(self).wf(),
            old(self).in_range(x as int, y as int) ==> final(self).data@ == old(self).data@.update(
                cell(old(self).width as int, x as int, y as int),
                v,
            ),
            !old(self).in_range(x as int, y as int) ==> final(self).data@ == old(self).data@,
            forall|px: int, py: int|
                old(self).in_range(px, py) ==> #[trigger] final(self).at(px, py) == if px == x && py
                    == y {
                    v
                } else {
                    old(self).at(px, py)
                },
    {
        if x < self.width && y < self.height {
            proof {
                lemma_cell_in_grid(self.width as int, self.height as int, x as int, y as int);
            }
            let i = self.idx(x, y);
            self.data.set(i, v);
            proof {
                assert forall|px: int, py: int| old(self).in_range(px, py) implies #[trigger] self.at(px, py)
                    == if px == x && py == y {
                    v
                } else {
                    old(self).at(px, py)
                } by {
                    lemma_cell_in_grid(self.width as int, self.height as int, px, py);
                    if cell(self.width as int, px, py) == cell(self.width as int, x as int, y as int) {
                        lemma_cell_injective(self.width as int, px, py, x as int, y as int);
                    }
                }
            }
        }
    }

    /// Replaces every value `v` by `255 - v`.
    pub fn invert(&mut self)
        ensures
            final(self).same_shape(old(self)),
            final(self).data@.len() == old(self).data@.len(),
            forall|i: int|
                0 <= i < old(self).data@.len() ==> #[trigger] final(self).data@[i] == 255 - old(
                    self,
                ).data@[i],
    {
        let n = self.data.len();
        let mut k: usize = 0;
        while k < n
            invariant
                n == old(self).data@.len(),
                k <= n,
                self.same_shape(old(self)),
                self.data@.len() == n,
                forall|i: int|
                    0 <= i < n ==> #[trigger] self.data@[i] == if i < k {
                        (255 - old(self).data@[i]) as u8
                    } else {
                        old(self).data@[i]
                    },
            decreases n - k,
        {
            let v = self.data[k];
            self.data.set(k, 255 - v);
            k += 1;
        }
    }

    /// Sets every value to `value`.
    pub fn clear(&mut self, value: u8)
        ensures
            final(self).same_shape(old(self)),
            final(self).data@ == Seq::new(old(self).data@.len(), |i: int| value),
    {
        let n = self.data.len();
        let mut k: usize = 0;
        while k < n
            invariant
                n == old(self).data@.len(),
                k <= n,
                self.same_shape(old(self)),
                self.data@.len() == n,
                forall|i: int|
                    0 <= i < n ==> #[trigger] self.data@[i] == if i < k {
                        value
                    } else {
                        old(self).data@[i]
                    },
            decreases n - k,
        {
            self.data.set(k, value);
            k += 1;
        }
        assert(self.data@ =~= Seq::new(old(self).data@.len(), |i: int| value));
    }

    /// An exact copy.
    pub fn duplicate(&self) -> (r: Mask)
        ensures
            r.width == self.width,
            r.height == self.height,
            r.data@ == self.data@,
    {
        let data = self.data.clone();
        assert(data@ =~= self.data@);
        Mask { width: self.width, height: self.height, data }
    }
}

/// The pixel-selection of a document: no mask means "everything is selected".
#[derive(Clone, Debug)]
pub struct Selection {
    pub mask: Option<Mask>,
}

impl Selection {
    pub open spec fn wf(&self) -> bool {
        self.mask matches Some(m) ==> m.wf()
    }

    /// Coverage of pixel `(x, y)`: the mask value, or 255 when nothing is selected.
    pub open spec fn coverage_spec(&self, x: int, y: int) -> u8 {
        match self.mask {
            Some(m) => m.value(x, y),
            None => 255,
        }
    }

    pub fn empty() -> (r: Self)
        ensures
            r.mask is None,
    {
        Selection { mask: None }
    }

    /// Everything selected, as an explicit full-coverage mask.
    pub fn all(width: u32, height: u32) -> (r: Self)
        requires
            width * height <= usize::MAX,
        ensures
            r.mask matches Some(m) && m.width == width && m.height == height && m.data@ == Seq::new(
                (width * height) as nat,
                |i: int| 255u8,
            ),
    {
        Selection { mask: Some(Mask::new(width, height, 255)) }
    }

    pub fn clear(&mut self)
        ensures
            final(self).mask is None,
    {
        self.mask = None;
    }

    pub fn active(&self) -> (r: bool)
        ensures
            r == self.mask is Some,
    {
        self.mask.is_some()
    }

    pub fn coverage(&self, x: u32, y: u32) -> (r: u8)
        requires
            self.wf(),
        ensures
            r == self.coverage_spec(x as int, y as int),
    {
        match &self.mask {
            Some(m) => m.get(x, y),
            None => 255,
        }
    }
}

/// Nearest-neighbour resize of `mask` to `width` by `height` (each at least 1).
pub fn resize_mask(mask: &Mask, width: u32, height: u32) -> (out: Mask)
    requires
        mask.wf(),
        mask.width >= 1,
        mask.height >= 1,
        (if width >= 1 { width as int } else { 1 }) * (if height >= 1 { height as int } else { 1 })
            <= u32::MAX,
    ensures
        out.wf(),
        out.width == (if width >= 1 { width } else { 1 }),
        out.height == (if height >= 1 { height } else { 1 }),
        forall|x: int, y: int|
            out.in_range(x, y) ==> #[trigger] out.at(x, y) == mask.at(
                nearest_source(x, mask.width as int, out.width as int),
                nearest_source(y, mask.height as int, out.height as int),
            ),
        forall|x: int, y: int|
            #[trigger] out.in_range(x, y) ==> exists|sx: int, sy: int| mask.in_range(sx, sy) && out.at(x, y) == #[trigger] mask.at(sx, sy),
{
    let ow = if width >= 1 { width } else { 1 };
    let oh = if height >= 1 { height } else { 1 };
    let mut out = Mask::new(ow, oh, 0);
    let mut y: u32 = 0;
    while y < oh
        invariant
            out.wf(),
            mask.wf(),
            out.width == ow,
            out.height == oh,
            ow >= 1,
            oh >= 1,
            mask.width >= 1,
            mask.height >= 1,
            y <= oh,
            forall|px: int, py: int|
                out.in_range(px, py) && py < y ==> #[trigger] out.at(px, py) == mask.at(
                    nearest_source(px, mask.width as int, ow as int),
                    nearest_source(py, mask.height as int, oh as int),
                ),
        decreases oh - y,
    {
        let sy = nearest_index(y, mask.height, oh);
        let mut x: u32 = 0;
        while x < ow
            invariant
                out.wf(),
                mask.wf(),
                out.width == ow,
                out.height == oh,
                ow >= 1,
                mask.width >= 1,
                mask.height >= 1,
                y < oh,
                x <= ow,
                sy == nearest_source(y as int, mask.height as int, oh as int),
                forall|px: int, py: int|
                    out.in_range(px, py) && (py < y || (py == y && px < x)) ==> #[trigger] out.at(px, py)
                        == mask.at(
                        nearest_source(px, mask.width as int, ow as int),
                        nearest_source(py, mask.height as int, oh as int),
                    ),
            decreases ow - x,
        {
            let sx = nearest_index(x, mask.width, ow);
            let v = mask.get(sx, sy);
            out.set(x, y, v);
            x += 1;
        }
        y += 1;
    }
    proof {
        assert forall|x: int, y: int| #[trigger] out.in_range(x, y) implies exists|sx: int, sy: int|
            mask.in_range(sx, sy) && out.at(x, y) == #[trigger] mask.at(sx, sy) by {
            let sx = nearest_source(x, mask.width as int, out.width as int);
            let sy = nearest_source(y, mask.height as int, out.height as int);
            lemma_nearest_in_range(x, mask.width as int, out.width as int);
            lemma_nearest_in_range(y, mask.height as int, out.height as int);
            assert(out.at(x, y) == mask.at(sx, sy));
            assert(mask.in_range(sx, sy));
        }
    }
    out
}

/// `nearest_source(x, src, dst)` computed exactly.
pub fn nearest_index(x: u32, src: u32, dst: u32) -> (r: u32)
    requires
        src >= 1,
        dst >= 1,
    ensures
        r == nearest_source(x as int, src as int, dst as int),
        r < src,
{
    assert((2 * (x as int) + 1) * (src as int) <= 0x2_0000_0000 * 0x1_0000_0000) by (nonlinear_arith)
        requires
            0 <= 2 * (x as int) + 1 <= 0x2_0000_0000,
            0 <= src <= 0x1_0000_0000,
    ;
    let num: u128 = (2 * (x as u128) + 1) * (src as u128);
    let den: u128 = 2 * (dst as u128);
    assert(num == (2 * x + 1) * src);
    let s: u128 = num / den;
    if s <= (src as u128) - 1 {
        s as u32
    } else {
        src - 1
    }
}


/// The source coordinate read for a target coordinate lies in the source.
pub proof fn lemma_nearest_in_range(x: int, src: int, dst: int)
    requires
        0 <= x < dst,
        1 <= src,
    ensures
        0 <= nearest_source(x, src, dst) < src,
{
    assert(0 <= ((2 * x + 1) * src) / (2 * dst)) by (nonlinear_arith)
        requires
            0 <= x < dst,
            1 <= src,
    ;
}

/// Resampling to the same size reads each cell from itself.
pub proof fn lemma_nearest_same_size(x: int, n: int)
    requires
        0 <= x < n,
    ensures
        nearest_source(x, n, n) == x,
{
    assert(((2 * x + 1) * n) / (2 * n) == x) by (nonlinear_arith)
        requires
            0 <= x < n,
    ;
}

} // verus!
