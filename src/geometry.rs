use vstd::prelude::*;

verus! {

/// A point of the integer plane.
#[derive(Clone, Copy, Debug, PartialEq, Eq, Structural)]
pub struct Point {
    pub x: i64,
    pub y: i64,
}

/// An axis-aligned rectangle: `(x, y)` is its top-left corner, `w` and `h`
/// its width and height (y grows downward).
#[derive(Clone, Copy, Debug, PartialEq, Eq, Structural)]
pub struct Rectangle {
    pub x: i64,
    pub y: i64,
    pub w: i64,
    pub h: i64,
}

/// The four quadrants of a rectangle.
#[derive(Clone, Copy, Debug, PartialEq, Eq, Structural)]
pub enum Quadrant {
    NorthEast,
    NorthWest,
    SouthWest,
    SouthEast,
}

impl Point {
    pub fn new(x: i64, y: i64) -> (r: Point)
        ensures
            r.x == x,
            r.y == y,
    {
        Point { x, y }
    }
}

impl Rectangle {
    /// Sizes are not negative and the far corner is representable.
    pub open spec fn wf(self) -> bool {
        &&& 0 <= self.w
        &&& 0 <= self.h
        &&& self.x + self.w <= i64::MAX
        &&& self.y + self.h <= i64::MAX
    }

    /// `p` lies strictly inside the open rectangle; edges are excluded.
    pub open spec fn encloses(self, p: Point) -> bool {
        &&& self.x < p.x
        &&& p.x < self.x + self.w
        &&& self.y < p.y
        &&& p.y < self.y + self.h
    }

    /// The closed rectangles meet: neither lies entirely to one side of the other.
    pub open spec fn overlaps(self, r: Rectangle) -> bool {
        !(self.x > r.x + r.w || self.x + self.w < r.x || self.y > r.y + r.h || self.y + self.h
            < r.y)
    }

    pub open spec fn area(self) -> int {
        self.w * self.h
    }

    /// Width of the western half; the eastern half takes the rest.
    pub open spec fn half_w(self) -> int {
        self.w / 2
    }

    /// Height of the northern half; the southern half takes the rest.
    pub open spec fn half_h(self) -> int {
        self.h / 2
    }

    /// The quadrant `q` of this rectangle. Each half is half the size,
    /// rounded down on the west and north, so that the four tile the whole.
    pub open spec fn quad(self, q: Quadrant) -> Rectangle {
        let hw = self.half_w();
        let hh = self.half_h();
        match q {
            Quadrant::NorthEast => Rectangle {
                x: (self.x + hw) as i64,
                y: self.y,
                w: (self.w - hw) as i64,
                h: hh as i64,
            },
            Quadrant::NorthWest => Rectangle { x: self.x, y: self.y, w: hw as i64, h: hh as i64 },
            Quadrant::SouthWest => Rectangle {
                x: self.x,
                y: (self.y + hh) as i64,
                w: hw as i64,
                h: (self.h - hh) as i64,
            },
            Quadrant::SouthEast => Rectangle {
                x: (self.x + hw) as i64,
                y: (self.y + hh) as i64,
                w: (self.w - hw) as i64,
                h: (self.h - hh) as i64,
            },
        }
    }

    /// The closed rectangle `r` lies within this one.
    pub open spec fn covers(self, r: Rectangle) -> bool {
        &&& self.x <= r.x
        &&& r.x + r.w <= self.x + self.w
        &&& self.y <= r.y
        &&& r.y + r.h <= self.y + self.h
    }

    /// Area of the part that the two rectangles have in common.
    pub open spec fn overlap_area(self, r: Rectangle) -> int {
        span_overlap(self.x as int, self.x + self.w, r.x as int, r.x + r.w) * span_overlap(
            self.y as int,
            self.y + self.h,
            r.y as int,
            r.y + r.h,
        )
    }

    pub fn new(x: i64, y: i64, w: i64, h: i64) -> (r: Rectangle)
        ensures
            r == (Rectangle { x, y, w, h }),
    {
        Rectangle { x, y, w, h }
    }

    /// Strict-interior containment; a point on an edge is not contained.
    pub fn contains(&self, p: Point) -> (r: bool)
        ensures
            r == self.encloses(p),
    {
        let right = self.x as i128 + self.w as i128;
        let bottom = self.y as i128 + self.h as i128;
        self.x < p.x && (p.x as i128) < right && self.y < p.y && (p.y as i128) < bottom
    }

    /// Whether the two rectangles meet (touching edges count).
    pub fn intersects(&self, r: Rectangle) -> (b: bool)
        ensures
            b == self.overlaps(r),
    {
        let s_left = self.x as i128;
        let s_top = self.y as i128;
        let s_right = s_left + self.w as i128;
        let s_bottom = s_top + self.h as i128;
        let r_left = r.x as i128;
        let r_top = r.y as i128;
        let r_right = r_left + r.w as i128;
        let r_bottom = r_top + r.h as i128;
        !(s_left > r_right || s_right < r_left || s_top > r_bottom || s_bottom < r_top)
    }

    /// The quadrant `q` of a well-formed rectangle.
    pub fn quadrant(&self, q: Quadrant) -> (r: Rectangle)
        requires
            self.wf(),
        ensures
            r == self.quad(q),
            r.wf(),
    {
        let hw = self.w / 2;
        let hh = self.h / 2;
        match q {
            Quadrant::NorthEast => Rectangle { x: self.x + hw, y: self.y, w: self.w - hw, h: hh },
            Quadrant::NorthWest => Rectangle { x: self.x, y: self.y, w: hw, h: hh },
            Quadrant::SouthWest => Rectangle { x: self.x, y: self.y + hh, w: hw, h: self.h - hh },
            Quadrant::SouthEast => Rectangle {
                x: self.x + hw,
                y: self.y + hh,
                w: self.w - hw,
                h: self.h - hh,
            },
        }
    }

    /// The quadrant whose interior holds `p`, if any: none when `p` is
    /// outside this rectangle or on one of the lines that split it.
    pub fn quadrant_of(&self, p: Point) -> (r: Option<Quadrant>)
        requires
            self.wf(),
        ensures
            forall|q: Quadrant| #[trigger] self.quad(q).encloses(p) <==> r == Some(q),
    {
        proof {
            lemma_quadrants_tile(*self);
        }
        if self.quadrant(Quadrant::NorthEast).contains(p) {
            Some(Quadrant::NorthEast)
        } else if self.quadrant(Quadrant::NorthWest).contains(p) {
            Some(Quadrant::NorthWest)
        } else if self.quadrant(Quadrant::SouthWest).contains(p) {
            Some(Quadrant::SouthWest)
        } else if self.quadrant(Quadrant::SouthEast).contains(p) {
            Some(Quadrant::SouthEast)
        } else {
            None
        }
    }
}

/// Length of the common part of the intervals `[a0, a1]` and `[b0, b1]`.
pub open spec fn span_overlap(a0: int, a1: int, b0: int, b1: int) -> int {
    let lo = if a0 < b0 {
        b0
    } else {
        a0
    };
    let hi = if a1 < b1 {
        a1
    } else {
        b1
    };
    if lo < hi {
        hi - lo
    } else {
        0
    }
}

/// A point strictly inside a rectangle is contained in it; a point on one of
/// its edges is not.
pub proof fn lemma_interior_not_edge(r: Rectangle, p: Point)
    ensures
        r.x < p.x < r.x + r.w && r.y < p.y < r.y + r.h ==> r.encloses(p),
        (p.x == r.x || p.x == r.x + r.w || p.y == r.y || p.y == r.y + r.h) ==> !r.encloses(p),
{
}

/// The four quadrants tile their rectangle: each lies within it, their areas
/// add up to its area, no two of them share any area, and no point lies
/// inside two of them.
pub proof fn lemma_quadrants_tile(r: Rectangle)
    requires
        r.wf(),
    ensures
        forall|q: Quadrant| #[trigger] r.quad(q).wf() && r.covers(r.quad(q)),
        r.quad(Quadrant::NorthEast).area() + r.quad(Quadrant::NorthWest).area() + r.quad(
            Quadrant::SouthWest,
        ).area() + r.quad(Quadrant::SouthEast).area() == r.area(),
        forall|a: Quadrant, b: Quadrant|
            a != b ==> #[trigger] r.quad(a).overlap_area(#[trigger] r.quad(b)) == 0,
        forall|a: Quadrant, b: Quadrant, p: Point|
            a != b && #[trigger] r.quad(a).encloses(p) ==> !#[trigger] r.quad(b).encloses(p),
        forall|q: Quadrant, p: Point| #[trigger] r.quad(q).encloses(p) ==> r.encloses(p),
{
    let hw = r.half_w();
    let hh = r.half_h();
    assert(0 <= hw <= r.w && 0 <= hh <= r.h);
    assert((r.w - hw) * hh + hw * hh + hw * (r.h - hh) + (r.w - hw) * (r.h - hh) == r.w * r.h)
        by (nonlinear_arith);
    assert forall|a: Quadrant, b: Quadrant| a != b implies #[trigger] r.quad(a).overlap_area(
        #[trigger] r.quad(b),
    ) == 0 by {
        let (qa, qb) = (r.quad(a), r.quad(b));
        let sx = span_overlap(qa.x as int, qa.x + qa.w, qb.x as int, qb.x + qb.w);
        let sy = span_overlap(qa.y as int, qa.y + qa.h, qb.y as int, qb.y + qb.h);
        assert(sx == 0 || sy == 0);
        assert(sx * sy == 0) by (nonlinear_arith)
            requires
                sx == 0 || sy == 0,
        ;
    }
}

} // verus!
