//! 2D points and direction vectors on the integer grid.

use vstd::prelude::*;
use crate::nums::{Frac, RatPoint, isqrt, lemma_lerp_num_bound};

verus! {

/// A 2D point (or direction vector) with integer grid coordinates.
#[derive(Clone, Copy, Debug, PartialEq, Eq, Structural)]
pub struct Vector {
    pub x: i64,
    pub y: i64,
}

/// Coordinate magnitude accepted by the metric operations
/// (`magnitude`, `distance`, `dot`); squares and products of such
/// values always fit in an `i64`.
pub const METRIC_LIMIT: i64 = 536870912;

impl Vector {
    /// Both coordinates are bounded by `METRIC_LIMIT` in magnitude.
    pub open spec fn metric_ok(self) -> bool {
        -METRIC_LIMIT <= self.x <= METRIC_LIMIT && -METRIC_LIMIT <= self.y <= METRIC_LIMIT
    }

    pub fn from_components(x: i64, y: i64) -> (r: Vector)
        ensures
            r.x == x,
            r.y == y,
    {
        Vector { x, y }
    }

    /// The origin.
    pub fn origin() -> (r: Vector)
        ensures
            r.x == 0,
            r.y == 0,
    {
        Vector { x: 0, y: 0 }
    }

    /// True exactly when both coordinates of `self` are within `eps`
    /// of the corresponding coordinate of `v1`.
    pub fn is_near(self, v1: Vector, eps: i64) -> (r: bool)
        requires
            self.metric_ok(),
            v1.metric_ok(),
            0 <= eps,
        ensures
            r <==> (-eps <= self.x - v1.x <= eps && -eps <= self.y - v1.y <= eps),
    {
        let dx: i64 = self.x - v1.x;
        let dy: i64 = self.y - v1.y;
        -eps <= dx && dx <= eps && -eps <= dy && dy <= eps
    }

    /// Euclidean length, rounded down to the grid: the unique `r` with
    /// `r^2 <= x^2 + y^2 < (r+1)^2`.
    pub fn magnitude(self) -> (r: i64)
        requires
            self.metric_ok(),
        ensures
            r * r <= self.x * self.x + self.y * self.y,
            self.x * self.x + self.y * self.y < (r + 1) * (r + 1),
            0 <= r,
    {
        proof {
            assert(0 <= self.x * self.x <= METRIC_LIMIT * METRIC_LIMIT
                && 0 <= self.y * self.y <= METRIC_LIMIT * METRIC_LIMIT) by (nonlinear_arith)
                requires
                    self.metric_ok(),
                ;
        }
        isqrt(self.x * self.x + self.y * self.y)
    }

    /// Euclidean distance to `v1`, rounded down to the grid.
    pub fn distance(self, v1: Vector) -> (r: i64)
        requires
            self.metric_ok(),
            v1.metric_ok(),
        ensures
            r * r <= (self.x - v1.x) * (self.x - v1.x) + (self.y - v1.y) * (self.y - v1.y),
            (self.x - v1.x) * (self.x - v1.x) + (self.y - v1.y) * (self.y - v1.y)
                < (r + 1) * (r + 1),
            0 <= r,
    {
        let dx: i64 = self.x - v1.x;
        let dy: i64 = self.y - v1.y;
        proof {
            assert(0 <= dx * dx <= (2 * METRIC_LIMIT) * (2 * METRIC_LIMIT)
                && 0 <= dy * dy <= (2 * METRIC_LIMIT) * (2 * METRIC_LIMIT)) by (nonlinear_arith)
                requires
                    -2 * METRIC_LIMIT <= dx <= 2 * METRIC_LIMIT,
                    -2 * METRIC_LIMIT <= dy <= 2 * METRIC_LIMIT,
                ;
        }
        isqrt(dx * dx + dy * dy)
    }

    /// Exact dot product.
    pub fn dot(self, v1: Vector) -> (r: i64)
        requires
            self.metric_ok(),
            v1.metric_ok(),
        ensures
            r == self.x * v1.x + self.y * v1.y,
    {
        proof {
            assert(-(METRIC_LIMIT * METRIC_LIMIT) <= self.x * v1.x <= METRIC_LIMIT * METRIC_LIMIT
                && -(METRIC_LIMIT * METRIC_LIMIT) <= self.y * v1.y
                    <= METRIC_LIMIT * METRIC_LIMIT) by (nonlinear_arith)
                requires
                    self.metric_ok(),
                    v1.metric_ok(),
                ;
        }
        self.x * v1.x + self.y * v1.y
    }

    /// Exact linear interpolation from `self` toward `v1`: the point
    /// `(1 - t) * self + t * v1`, kept as a rational point over the
    /// parameter's denominator.
    pub fn lerp(self, v1: Vector, t: Frac) -> (r: RatPoint)
        requires
            t.wf(),
            t.in_unit(),
            t.den <= METRIC_LIMIT,
            self.metric_ok(),
            v1.metric_ok(),
        ensures
            r.x == (t.den - t.num) * self.x + t.num * v1.x,
            r.y == (t.den - t.num) * self.y + t.num * v1.y,
            r.den == t.den,
            r.wf(),
    {
        proof {
            lemma_lerp_num_bound(self.x as int, v1.x as int, t.num as int, t.den as int,
                METRIC_LIMIT as int);
            lemma_lerp_num_bound(self.y as int, v1.y as int, t.num as int, t.den as int,
                METRIC_LIMIT as int);
            assert(t.den * METRIC_LIMIT <= METRIC_LIMIT * METRIC_LIMIT) by (nonlinear_arith)
                requires
                    1 <= t.den <= METRIC_LIMIT,
                ;
            crate::nums::lemma_mul_bound((t.den - t.num) as int, self.x as int,
                METRIC_LIMIT as int, METRIC_LIMIT as int);
            crate::nums::lemma_mul_bound(t.num as int, v1.x as int,
                METRIC_LIMIT as int, METRIC_LIMIT as int);
            crate::nums::lemma_mul_bound((t.den - t.num) as int, self.y as int,
                METRIC_LIMIT as int, METRIC_LIMIT as int);
            crate::nums::lemma_mul_bound(t.num as int, v1.y as int,
                METRIC_LIMIT as int, METRIC_LIMIT as int);
        }
        RatPoint {
            x: (t.den - t.num) * self.x + t.num * v1.x,
            y: (t.den - t.num) * self.y + t.num * v1.y,
            den: t.den,
        }
    }
}

impl RatPoint {
    /// Coordinate values (numerator over denominator) are bounded by
    /// `limit` in magnitude.
    pub open spec fn coords_within(self, limit: int) -> bool {
        -(limit * self.den) <= self.x <= limit * self.den
            && -(limit * self.den) <= self.y <= limit * self.den
    }

    /// True exactly when both coordinates of `self` are within `eps`
    /// of the corresponding coordinate of `q`, compared exactly by
    /// cross-multiplication.
    pub fn is_near(self, q: RatPoint, eps: i64) -> (r: bool)
        requires
            self.wf(),
            q.wf(),
            self.den * q.den <= 0x100_0000_0000,
            self.coords_within(crate::nums::COORD_LIMIT as int),
            q.coords_within(crate::nums::COORD_LIMIT as int),
            0 <= eps <= crate::nums::COORD_LIMIT,
        ensures
            r <==> (-(eps * self.den * q.den) <= self.x * q.den - q.x * self.den
                        <= eps * self.den * q.den
                    && -(eps * self.den * q.den) <= self.y * q.den - q.y * self.den
                        <= eps * self.den * q.den),
    {
        proof {
            assert(-(0x1000_0000_0000_0000 as int) <= self.x * q.den
                && self.x * q.den <= 0x1000_0000_0000_0000 as int
                && -(0x1000_0000_0000_0000 as int) <= q.x * self.den
                && q.x * self.den <= 0x1000_0000_0000_0000 as int
                && -(0x1000_0000_0000_0000 as int) <= self.y * q.den
                && self.y * q.den <= 0x1000_0000_0000_0000 as int
                && -(0x1000_0000_0000_0000 as int) <= q.y * self.den
                && q.y * self.den <= 0x1000_0000_0000_0000 as int
                && 0 <= eps * (self.den * q.den) <= 0x1000_0000_0000_0000 as int
                && eps * (self.den * q.den) == eps * self.den * q.den) by (nonlinear_arith)
                requires
                    1 <= self.den,
                    1 <= q.den,
                    self.den * q.den <= 0x100_0000_0000,
                    self.coords_within(crate::nums::COORD_LIMIT as int),
                    q.coords_within(crate::nums::COORD_LIMIT as int),
                    0 <= eps <= crate::nums::COORD_LIMIT,
                ;
        }
        let scale: i64 = self.den * q.den;
        let bound: i64 = eps * scale;
        let dx: i64 = self.x * q.den - q.x * self.den;
        let dy: i64 = self.y * q.den - q.y * self.den;
        -bound <= dx && dx <= bound && -bound <= dy && dy <= bound
    }
}

} // verus!
