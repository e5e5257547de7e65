//! Axis-aligned rectangles on the integer grid, used for curve
//! bounding boxes.

use vstd::prelude::*;
use crate::nums::RatPoint;
use crate::vector::Vector;

verus! {

/// An axis-aligned rectangle with integer grid coordinates.
/// A well-oriented rectangle has `left <= right` and
/// `bottom <= top`.
#[derive(Clone, Copy, Debug, PartialEq, Eq, Structural)]
pub struct Rect {
    pub top: i64,
    pub bottom: i64,
    pub left: i64,
    pub right: i64,
}

/// Swaps a rectangle's sides where they are given in the wrong order,
/// so that containment tests behave the same for rectangles described
/// backwards or upside-down.
pub trait FlipIfRequired {
    fn flip_if_required(&mut self);
}

impl FlipIfRequired for Rect {
    fn flip_if_required(&mut self) {
        if self.right < self.left {
            let l = self.left;
            let r = self.right;
            self.right = l;
            self.left = r;
        }
        if self.top < self.bottom {
            let b = self.bottom;
            let t = self.top;
            self.top = b;
            self.bottom = t;
        }
    }
}

/// Coordinate magnitude accepted by the rectangle operations; sums and
/// differences of such values never overflow.
pub const RECT_LIMIT: i64 = 0x1000_0000_0000_0000;

impl Rect {
    /// All four sides are bounded by `RECT_LIMIT` in magnitude.
    pub open spec fn bounded(self) -> bool {
        -RECT_LIMIT <= self.left <= RECT_LIMIT && -RECT_LIMIT <= self.right <= RECT_LIMIT
            && -RECT_LIMIT <= self.bottom <= RECT_LIMIT && -RECT_LIMIT <= self.top <= RECT_LIMIT
    }

    /// The point `p` lies inside the rectangle.
    pub open spec fn contains(self, p: Vector) -> bool {
        self.left <= p.x <= self.right && self.bottom <= p.y <= self.top
    }

    /// The smallest rectangle containing both `self` and the point
    /// `p`.
    pub fn encapsulate(&self, p: Vector) -> (r: Rect)
        ensures
            r.left == if p.x < self.left { p.x } else { self.left },
            r.right == if p.x > self.right { p.x } else { self.right },
            r.bottom == if p.y < self.bottom { p.y } else { self.bottom },
            r.top == if p.y > self.top { p.y } else { self.top },
    {
        let mut lx = self.left;
        let mut ly = self.bottom;
        let mut hx = self.right;
        let mut hy = self.top;
        if p.x > hx {
            hx = p.x;
        }
        if p.y > hy {
            hy = p.y;
        }
        if p.x < lx {
            lx = p.x;
        }
        if p.y < ly {
            ly = p.y;
        }
        Rect { left: lx, right: hx, top: hy, bottom: ly }
    }

    /// The minimum axis-aligned bounding box of a nonempty point list:
    /// it contains every point, and each of its four sides is attained
    /// by some point.
    #[allow(non_snake_case)]
    pub fn AABB_from_points(points: Vec<Vector>) -> (r: Rect)
        requires
            points.len() > 0,
        ensures
            forall|i: int| 0 <= i < points@.len() ==> r.contains(points@[i]),
            exists|i: int| 0 <= i < points@.len() && points@[i].x == r.left,
            exists|i: int| 0 <= i < points@.len() && points@[i].x == r.right,
            exists|i: int| 0 <= i < points@.len() && points@[i].y == r.bottom,
            exists|i: int| 0 <= i < points@.len() && points@[i].y == r.top,
    {
        let first = points[0];
        let mut lx = first.x;
        let mut ly = first.y;
        let mut hx = first.x;
        let mut hy = first.y;
        let mut k: usize = 1;
        while k < points.len()
            invariant
                1 <= k <= points@.len(),
                forall|i: int| 0 <= i < k
                    ==> lx <= (#[trigger] points@[i]).x <= hx && ly <= points@[i].y <= hy,
                exists|i: int| 0 <= i < k && points@[i].x == lx,
                exists|i: int| 0 <= i < k && points@[i].x == hx,
                exists|i: int| 0 <= i < k && points@[i].y == ly,
                exists|i: int| 0 <= i < k && points@[i].y == hy,
            decreases points@.len() - k,
        {
            let p = points[k];
            if p.x > hx {
                hx = p.x;
            }
            if p.y > hy {
                hy = p.y;
            }
            if p.x < lx {
                lx = p.x;
            }
            if p.y < ly {
                ly = p.y;
            }
            k = k + 1;
        }
        Rect { left: lx, right: hx, top: hy, bottom: ly }
    }

    /// The smallest rectangle containing both `self` and the
    /// well-oriented rectangle `other`.
    pub fn encapsulate_rect(&self, other: Rect) -> (r: Rect)
        requires
            other.left <= other.right,
            other.bottom <= other.top,
        ensures
            r.left == if other.left < self.left { other.left } else { self.left },
            r.right == if other.right > self.right { other.right } else { self.right },
            r.bottom == if other.bottom < self.bottom { other.bottom } else { self.bottom },
            r.top == if other.top > self.top { other.top } else { self.top },
    {
        let left_bottom = Vector { x: other.left, y: other.bottom };
        let right_top = Vector { x: other.right, y: other.top };
        let step = self.encapsulate(left_bottom);
        step.encapsulate(right_top)
    }

    /// Signed width times height.
    pub fn area(&self) -> (r: i64)
        requires
            self.bounded(),
            -0x8000_0000 <= self.right - self.left <= 0x8000_0000,
            -0x8000_0000 <= self.top - self.bottom <= 0x8000_0000,
        ensures
            r == (self.right - self.left) * (self.top - self.bottom),
    {
        proof {
            crate::nums::lemma_mul_bound((self.right - self.left) as int,
                (self.top - self.bottom) as int, 0x8000_0000, 0x8000_0000);
        }
        (self.right - self.left) * (self.top - self.bottom)
    }

    /// True exactly when the interiors of the two rectangles meet.
    pub fn overlaps(&self, other: &Rect) -> (r: bool)
        requires
            self.bounded(),
            other.bounded(),
        ensures
            r <==> (self.bottom < other.top && self.top > other.bottom
                && self.left < other.right && self.right > other.left),
    {
        self.bottom < other.top && self.top > other.bottom && self.left < other.right
            && self.right > other.left
    }

    /// The rectangle where the two overlap: the larger of the low
    /// sides, the smaller of the high sides.
    pub fn overlap_rect(&self, other: &Rect) -> (r: Rect)
        ensures
            r.left == if self.left > other.left { self.left } else { other.left },
            r.bottom == if self.bottom > other.bottom { self.bottom } else { other.bottom },
            r.right == if self.right < other.right { self.right } else { other.right },
            r.top == if self.top < other.top { self.top } else { other.top },
    {
        Rect {
            left: if self.left > other.left { self.left } else { other.left },
            bottom: if self.bottom > other.bottom { self.bottom } else { other.bottom },
            right: if self.right < other.right { self.right } else { other.right },
            top: if self.top < other.top { self.top } else { other.top },
        }
    }

    /// Horizontal extent, independent of orientation.
    pub fn width(&self) -> (r: i64)
        requires
            self.bounded(),
        ensures
            r == if self.left - self.right >= 0 { self.left - self.right } else {
                self.right - self.left
            },
    {
        let d = self.left - self.right;
        if d >= 0 {
            d
        } else {
            self.right - self.left
        }
    }

    /// Vertical extent, independent of orientation.
    pub fn height(&self) -> (r: i64)
        requires
            self.bounded(),
        ensures
            r == if self.top - self.bottom >= 0 { self.top - self.bottom } else {
                self.bottom - self.top
            },
    {
        let d = self.top - self.bottom;
        if d >= 0 {
            d
        } else {
            self.bottom - self.top
        }
    }

    /// The exact midpoint of the rectangle, as a rational point over
    /// the denominator 2.
    pub fn center(&self) -> (r: RatPoint)
        requires
            self.bounded(),
        ensures
            r.x == self.left + self.right,
            r.y == self.bottom + self.top,
            r.den == 2,
    {
        RatPoint { x: self.left + self.right, y: self.bottom + self.top, den: 2 }
    }
}

} // verus!
