use vstd::prelude::*;

verus! {

/// An axis-aligned integer rectangle: the cells `x <= px < x + w`, `y <= py < y + h`.
#[derive(Clone, Copy, Debug)]
pub struct RectI {
    pub x: i32,
    pub y: i32,
    pub w: i32,
    pub h: i32,
}

impl Default for RectI {
    fn default() -> (r: Self)
        ensures
            r.x == 0 && r.y == 0 && r.w == 0 && r.h == 0,
    {
        RectI { x: 0, y: 0, w: 0, h: 0 }
    }
}

impl RectI {
    /// Right edge `x + w`, as a mathematical integer.
    pub open spec fn right_spec(self) -> int {
        self.x + self.w
    }

    /// Bottom edge `y + h`, as a mathematical integer.
    pub open spec fn bottom_spec(self) -> int {
        self.y + self.h
    }

    /// Both edges fit in an `i32`.
    pub open spec fn edges_fit(self) -> bool {
        i32::MIN <= self.right_spec() <= i32::MAX && i32::MIN <= self.bottom_spec() <= i32::MAX
    }

    /// The cell `(px, py)` lies inside the rectangle.
    pub open spec fn has(self, px: int, py: int) -> bool {
        self.x <= px < self.right_spec() && self.y <= py < self.bottom_spec()
    }

    pub fn new(x: i32, y: i32, w: i32, h: i32) -> (r: Self)
        ensures
            r.x == x && r.y == y && r.w == w && r.h == h,
    {
        RectI { x, y, w, h }
    }

    pub fn right(&self) -> (r: i32)
        requires
            i32::MIN <= self.right_spec() <= i32::MAX,
        ensures
            r == self.right_spec(),
    {
        self.x + self.w
    }

    pub fn bottom(&self) -> (r: i32)
        requires
            i32::MIN <= self.bottom_spec() <= i32::MAX,
        ensures
            r == self.bottom_spec(),
    {
        self.y + self.h
    }

    pub fn contains(&self, x: i32, y: i32) -> (r: bool)
        requires
            self.edges_fit(),
        ensures
            r == self.has(x as int, y as int),
    {
        x >= self.x && y >= self.y && x < self.right() && y < self.bottom()
    }

    /// The overlap of two rectangles, or `None` when it has no cell.
    pub open spec fn intersect_spec(self, other: RectI) -> Option<RectI> {
        let x0 = if self.x >= other.x { self.x } else { other.x };
        let y0 = if self.y >= other.y { self.y } else { other.y };
        let x1 = if self.right_spec() <= other.right_spec() { self.right_spec() } else { other.right_spec() };
        let y1 = if self.bottom_spec() <= other.bottom_spec() { self.bottom_spec() } else { other.bottom_spec() };
        if x1 > x0 && y1 > y0 {
            Some(RectI { x: x0, y: y0, w: (x1 - x0) as i32, h: (y1 - y0) as i32 })
        } else {
            None
        }
    }

    pub fn intersect(&self, other: RectI) -> (r: Option<RectI>)
        requires
            self.edges_fit(),
            other.edges_fit(),
        ensures
            r == self.intersect_spec(other),
            r matches Some(q) ==> q.edges_fit() && q.w > 0 && q.h > 0,
    {
        let x0 = if self.x >= other.x { self.x } else { other.x };
        let y0 = if self.y >= other.y { self.y } else { other.y };
        let r1 = self.right();
        let r2 = other.right();
        let b1 = self.bottom();
        let b2 = other.bottom();
        let x1 = if r1 <= r2 { r1 } else { r2 };
        let y1 = if b1 <= b2 { b1 } else { b2 };
        if x1 > x0 && y1 > y0 {
            Some(RectI::new(x0, y0, x1 - x0, y1 - y0))
        } else {
            None
        }
    }
}

/// The part of a `w` by `h` grid under `rect`, or its top-left cell alone when `rect`
/// misses the grid.
pub open spec fn clip_rect(w: u32, h: u32, rect: RectI) -> RectI {
    match rect.intersect_spec(RectI { x: 0, y: 0, w: w as i32, h: h as i32 }) {
        Some(r) => r,
        None => RectI { x: 0, y: 0, w: 1, h: 1 },
    }
}

/// A cell lies in the overlap of two rectangles exactly when it lies in both,
/// and the overlap is absent exactly when the rectangles share no cell.
pub proof fn lemma_intersect_is_overlap(a: RectI, b: RectI, px: int, py: int)
    requires
        a.edges_fit(),
        b.edges_fit(),
    ensures
        match a.intersect_spec(b) {
            Some(q) => q.has(px, py) <==> (a.has(px, py) && b.has(px, py)),
            None => !(a.has(px, py) && b.has(px, py)),
        },
{
}

} // verus!
