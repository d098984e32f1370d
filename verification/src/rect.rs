use vstd::prelude::*;

verus! {

/// An axis-aligned rectangle given by two opposite corners, both inclusive.
#[derive(Clone, Copy, Debug, PartialEq, Eq, Structural)]
pub struct Rect {
    pub x1: i32,
    pub x2: i32,
    pub y1: i32,
    pub y2: i32,
}

/// Half of `n`, rounded toward zero.
pub open spec fn half(n: int) -> int {
    if n >= 0 {
        n / 2
    } else {
        -((-n) / 2)
    }
}

impl Rect {
    /// The corners are in order: `x1 <= x2` and `y1 <= y2`.
    pub open spec fn wf(&self) -> bool {
        self.x1 <= self.x2 && self.y1 <= self.y2
    }

    /// The cell `(x, y)` lies in the rectangle, edges included.
    pub open spec fn contains(&self, x: int, y: int) -> bool {
        self.x1 <= x <= self.x2 && self.y1 <= y <= self.y2
    }

    /// The cell `(x, y)` lies in the rectangle and on none of its edges.
    pub open spec fn encloses(&self, x: int, y: int) -> bool {
        self.x1 < x < self.x2 && self.y1 < y < self.y2
    }

    /// The cell `(x, y)` lies on one of the four edges of the rectangle.
    pub open spec fn on_edge(&self, x: int, y: int) -> bool {
        self.contains(x, y) && !self.encloses(x, y)
    }

    /// The rectangle is at least two cells wide and two cells high, so that
    /// it encloses its own midpoint.
    pub open spec fn roomy(&self) -> bool {
        self.x1 + 2 <= self.x2 && self.y1 + 2 <= self.y2
    }

    /// The two rectangles share at least one cell; touching edges count.
    pub open spec fn overlaps(&self, other: &Rect) -> bool {
        self.x1 <= other.x2 && self.x2 >= other.x1 && self.y1 <= other.y2 && self.y2 >= other.y1
    }

    /// The midpoint of the rectangle, each coordinate rounded toward zero.
    pub open spec fn center_spec(&self) -> (int, int) {
        (half(self.x1 + self.x2), half(self.y1 + self.y2))
    }

    /// The rectangle with corner `(x, y)` that extends `w` to the right and `h` down.
    pub fn new(x: i32, y: i32, w: i32, h: i32) -> (r: Rect)
        requires
            i32::MIN <= x + w <= i32::MAX,
            i32::MIN <= y + h <= i32::MAX,
        ensures
            r.x1 == x,
            r.y1 == y,
            r.x2 == x + w,
            r.y2 == y + h,
    {
        Rect { x1: x, y1: y, x2: x + w, y2: y + h }
    }

    /// Whether this rectangle overlaps `other`, edges included.
    pub fn intersect(&self, other: &Rect) -> (b: bool)
        ensures
            b == self.overlaps(other),
    {
        self.x1 <= other.x2 && self.x2 >= other.x1 && self.y1 <= other.y2 && self.y2 >= other.y1
    }

    /// The midpoint of the rectangle, each coordinate rounded toward zero.
    pub fn center(&self) -> (c: (i32, i32))
        ensures
            (c.0 as int, c.1 as int) == self.center_spec(),
    {
        let cx = (self.x1 as i64 + self.x2 as i64) / 2;
        let cy = (self.y1 as i64 + self.y2 as i64) / 2;
        (cx as i32, cy as i32)
    }
}

} // verus!
