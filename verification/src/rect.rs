use vstd::prelude::*;

verus! {

/// The four edges of a half-open rectangle, `[x1, x2) x [y1, y2)`.
#[derive(Copy, Clone, PartialEq, Eq, Debug, Default, Structural)]
pub struct RectRaw {
    pub x1: i32,
    pub y1: i32,
    pub x2: i32,
    pub y2: i32,
}

/// Half-open rectangle: `[x1, x2) x [y1, y2)`.
#[derive(Copy, Clone, PartialEq, Eq, Debug, Default, Structural)]
pub struct Rect {
    pub raw: RectRaw,
}

/// `a + b` clamped to the range of `i32`.
pub open spec fn sat_add_i32(a: int, b: int) -> int {
    if a + b > i32::MAX {
        i32::MAX as int
    } else if a + b < i32::MIN {
        i32::MIN as int
    } else {
        a + b
    }
}

pub open spec fn min_int(a: int, b: int) -> int {
    if a <= b { a } else { b }
}

pub open spec fn max_int(a: int, b: int) -> int {
    if a >= b { a } else { b }
}

/// Saturating `i32` addition.
pub fn saturating_add_i32(a: i32, b: i32) -> (r: i32)
    ensures
        r == sat_add_i32(a as int, b as int),
{
    let s: i64 = a as i64 + b as i64;
    if s > i32::MAX as i64 {
        i32::MAX
    } else if s < i32::MIN as i64 {
        i32::MIN
    } else {
        s as i32
    }
}

impl Rect {
    /// Builds the rectangle with the given edges (no check).
    pub open spec fn of(x1: int, y1: int, x2: int, y2: int) -> Rect {
        Rect { raw: RectRaw { x1: x1 as i32, y1: y1 as i32, x2: x2 as i32, y2: y2 as i32 } }
    }

    /// The edges are well ordered: `x1 <= x2` and `y1 <= y2`.
    pub open spec fn wf(self) -> bool {
        self.raw.x1 <= self.raw.x2 && self.raw.y1 <= self.raw.y2
    }

    /// The point `(x, y)` lies inside the rectangle.
    pub open spec fn covers(self, x: int, y: int) -> bool {
        self.raw.x1 <= x < self.raw.x2 && self.raw.y1 <= y < self.raw.y2
    }

    /// The rectangle has no area (an edge pair coincides).
    pub open spec fn degenerate(self) -> bool {
        self.raw.x1 == self.raw.x2 || self.raw.y1 == self.raw.y2
    }

    /// Bounding box of two rectangles.
    pub open spec fn hull(self, other: Rect) -> Rect {
        Rect {
            raw: RectRaw {
                x1: min_int(self.raw.x1 as int, other.raw.x1 as int) as i32,
                y1: min_int(self.raw.y1 as int, other.raw.y1 as int) as i32,
                x2: max_int(self.raw.x2 as int, other.raw.x2 as int) as i32,
                y2: max_int(self.raw.y2 as int, other.raw.y2 as int) as i32,
            },
        }
    }

    /// The interiors overlap (edge contact does not count).
    pub open spec fn intersects_spec(self, other: Rect) -> bool {
        self.raw.x1 < other.raw.x2 && other.raw.x1 < self.raw.x2 && self.raw.y1 < other.raw.y2
            && other.raw.y1 < self.raw.y2
    }

    /// `Some` exactly when `x1 <= x2` and `y1 <= y2`.
    pub fn new(x1: i32, y1: i32, x2: i32, y2: i32) -> (r: Option<Rect>)
        ensures
            r is Some <==> (x1 <= x2 && y1 <= y2),
            r matches Some(rr) ==> rr.raw == (RectRaw { x1, y1, x2, y2 }),
    {
        if x2 < x1 || y2 < y1 {
            return None;
        }
        Some(Rect { raw: RectRaw { x1, y1, x2, y2 } })
    }

    /// Rectangle at `(x1, y1)` with the given size; a negative size counts
    /// as zero and the far edges saturate at `i32::MAX`.
    pub fn new_sized_saturating(x1: i32, y1: i32, width: i32, height: i32) -> (r: Rect)
        ensures
            r.raw.x1 == x1,
            r.raw.y1 == y1,
            r.raw.x2 == sat_add_i32(x1 as int, max_int(width as int, 0)),
            r.raw.y2 == sat_add_i32(y1 as int, max_int(height as int, 0)),
            r.wf(),
    {
        let w = if width < 0 { 0 } else { width };
        let h = if height < 0 { 0 } else { height };
        Rect {
            raw: RectRaw {
                x1,
                y1,
                x2: saturating_add_i32(x1, w),
                y2: saturating_add_i32(y1, h),
            },
        }
    }

    pub fn x1(self) -> (r: i32)
        ensures
            r == self.raw.x1,
    {
        self.raw.x1
    }

    pub fn y1(self) -> (r: i32)
        ensures
            r == self.raw.y1,
    {
        self.raw.y1
    }

    pub fn x2(self) -> (r: i32)
        ensures
            r == self.raw.x2,
    {
        self.raw.x2
    }

    pub fn y2(self) -> (r: i32)
        ensures
            r == self.raw.y2,
    {
        self.raw.y2
    }

    /// `x2 - x1`; the difference must fit in an `i32`.
    pub fn width(self) -> (r: i32)
        requires
            i32::MIN <= self.raw.x2 - self.raw.x1 <= i32::MAX,
        ensures
            r == self.raw.x2 - self.raw.x1,
    {
        self.raw.x2 - self.raw.x1
    }

    /// `y2 - y1`; the difference must fit in an `i32`.
    pub fn height(self) -> (r: i32)
        requires
            i32::MIN <= self.raw.y2 - self.raw.y1 <= i32::MAX,
        ensures
            r == self.raw.y2 - self.raw.y1,
    {
        self.raw.y2 - self.raw.y1
    }

    pub fn is_empty(self) -> (r: bool)
        ensures
            r == self.degenerate(),
    {
        self.raw.x1 == self.raw.x2 || self.raw.y1 == self.raw.y2
    }

    pub fn contains(self, x: i32, y: i32) -> (r: bool)
        ensures
            r == self.covers(x as int, y as int),
    {
        x >= self.raw.x1 && x < self.raw.x2 && y >= self.raw.y1 && y < self.raw.y2
    }

    /// The interiors overlap (edge contact does not count).
    pub fn intersects(self, other: Rect) -> (r: bool)
        ensures
            r == self.intersects_spec(other),
    {
        self.raw.x1 < other.raw.x2 && other.raw.x1 < self.raw.x2 && self.raw.y1 < other.raw.y2
            && other.raw.y1 < self.raw.y2
    }

    /// Smallest rectangle holding both.
    pub fn union(self, other: Rect) -> (r: Rect)
        ensures
            r == self.hull(other),
    {
        Rect {
            raw: RectRaw {
                x1: if self.raw.x1 <= other.raw.x1 { self.raw.x1 } else { other.raw.x1 },
                y1: if self.raw.y1 <= other.raw.y1 { self.raw.y1 } else { other.raw.y1 },
                x2: if self.raw.x2 >= other.raw.x2 { self.raw.x2 } else { other.raw.x2 },
                y2: if self.raw.y2 >= other.raw.y2 { self.raw.y2 } else { other.raw.y2 },
            },
        }
    }
}

/// Two rectangles with area overlap exactly when some point lies in both.
pub proof fn lemma_intersects_iff_common_point(a: Rect, b: Rect)
    requires
        a.wf(),
        b.wf(),
        !a.degenerate(),
        !b.degenerate(),
    ensures
        (a.raw.x1 < b.raw.x2 && b.raw.x1 < a.raw.x2 && a.raw.y1 < b.raw.y2 && b.raw.y1 < a.raw.y2)
            <==> (exists|x: int, y: int| a.covers(x, y) && b.covers(x, y)),
{
    if a.raw.x1 < b.raw.x2 && b.raw.x1 < a.raw.x2 && a.raw.y1 < b.raw.y2 && b.raw.y1 < a.raw.y2 {
        let x = max_int(a.raw.x1 as int, b.raw.x1 as int);
        let y = max_int(a.raw.y1 as int, b.raw.y1 as int);
        assert(a.covers(x, y) && b.covers(x, y));
    }
}

/// The hull of two rectangles covers every point of either.
pub proof fn lemma_hull_covers(a: Rect, b: Rect, x: int, y: int)
    requires
        a.covers(x, y) || b.covers(x, y),
    ensures
        a.hull(b).covers(x, y),
{
}

} // verus!
