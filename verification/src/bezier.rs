//! The cubic Bezier primitive.
//!
//! A curve carries four control points as integer numerators over one
//! shared positive denominator, so subdivision (whose intermediate
//! points are rational) stays exact: splitting a curve scales the
//! denominator instead of rounding.  Evaluation returns an exact
//! rational point, and the contracts state it as the Bernstein
//! polynomial of the control points.

use vstd::prelude::*;
use crate::nums::{Frac, RatPoint, rat_eq, COORD_LIMIT, DEN_LIMIT, EVAL_DEN_LIMIT};
use crate::nums::{lemma_lerp_num_bound, lemma_mul_bound};
use crate::vector::Vector;

verus! {

/// Numerator of one exact interpolation step from `a` to `b` at
/// `n / m`; the step scales the denominator by `m`.
pub open spec fn lerp_num(a: int, b: int, n: int, m: int) -> int {
    (m - n) * a + n * b
}

/// Numerator of the cubic Bernstein polynomial
/// `(1-t)^3 a + 3 (1-t)^2 t b + 3 (1-t) t^2 c + t^3 d`
/// at `t = n / m`, scaled by `m^3`.
pub open spec fn cubic_num(a: int, b: int, c: int, d: int, n: int, m: int) -> int {
    (m - n) * (m - n) * ((m - n) * a)
        + 3 * (((m - n) * (m - n)) * (n * b))
        + 3 * (((m - n) * n) * (n * c))
        + n * n * (n * d)
}

/// Numerator of the derivative of the cubic at `t = n / m`, scaled by
/// `m^2`: `3 [ (1-t)^2 (b-a) + 2 (1-t) t (c-b) + t^2 (d-c) ]`.
pub open spec fn deriv_num(a: int, b: int, c: int, d: int, n: int, m: int) -> int {
    3 * ((m - n) * (m - n) * (b - a) + 2 * ((m - n) * n * (c - b)) + n * n * (d - c))
}

/// Numerator of the second derivative of the cubic at `t = n / m`,
/// scaled by `m`: `6 [ (1-t) (a - 2b + c) + t (b - 2c + d) ]`.
pub open spec fn second_deriv_num(a: int, b: int, c: int, d: int, n: int, m: int) -> int {
    6 * ((m - n) * (a - 2 * b + c) + n * (b - 2 * c + d))
}

/// A cubic Bezier curve.  `w1` and `w4` are the endpoints, `w2` and
/// `w3` the handles; the fields hold numerators over the shared
/// denominator `den`, so the actual control points are `wi / den`.
#[derive(Clone, Copy, Debug, PartialEq, Eq, Structural)]
pub struct Bezier {
    pub w1: Vector,
    pub w2: Vector,
    pub w3: Vector,
    pub w4: Vector,
    pub den: i64,
}

/// Both numerators of `v` are bounded by `COORD_LIMIT * den`, i.e. the
/// point `v / den` lies in the accepted coordinate range.
pub open spec fn coords_ok(v: Vector, den: int) -> bool {
    -(COORD_LIMIT * den) <= v.x <= COORD_LIMIT * den
        && -(COORD_LIMIT * den) <= v.y <= COORD_LIMIT * den
}

/// One exact interpolation step on numerators, with an explicit bound
/// `c0` carried along so that every product provably fits in an `i64`.
fn lerp_step(a: i64, b: i64, n: i64, m: i64, c0: i64) -> (r: i64)
    requires
        0 <= n <= m,
        0 <= c0,
        -c0 <= a <= c0,
        -c0 <= b <= c0,
        m * c0 <= 0x4000_0000_0000_0000,
    ensures
        r == lerp_num(a as int, b as int, n as int, m as int),
        -(m * c0) <= r <= m * c0,
{
    proof {
        lemma_mul_bound((m - n) as int, a as int, m as int, c0 as int);
        lemma_mul_bound(n as int, b as int, m as int, c0 as int);
        lemma_lerp_num_bound(a as int, b as int, n as int, m as int, c0 as int);
    }
    (m - n) * a + n * b
}

impl Bezier {
    /// Well-formed curve: positive bounded denominator, all control
    /// points within the accepted coordinate range.
    pub open spec fn wf(self) -> bool {
        1 <= self.den <= DEN_LIMIT
            && coords_ok(self.w1, self.den as int)
            && coords_ok(self.w2, self.den as int)
            && coords_ok(self.w3, self.den as int)
            && coords_ok(self.w4, self.den as int)
    }

    /// x numerator of the curve value at `n / m` (over `eval_den(m)`).
    pub open spec fn eval_x(self, n: int, m: int) -> int {
        cubic_num(self.w1.x as int, self.w2.x as int, self.w3.x as int, self.w4.x as int, n, m)
    }

    /// y numerator of the curve value at `n / m` (over `eval_den(m)`).
    pub open spec fn eval_y(self, n: int, m: int) -> int {
        cubic_num(self.w1.y as int, self.w2.y as int, self.w3.y as int, self.w4.y as int, n, m)
    }

    /// Denominator of the curve value at a parameter over `m`.
    pub open spec fn eval_den(self, m: int) -> int {
        self.den * (m * m * m)
    }

    /// The curve together with a parameter denominator stays inside
    /// the range on which evaluation cannot overflow.
    pub open spec fn evaluable(self, m: int) -> bool {
        self.wf() && 1 <= m && self.den * (m * m * m) <= EVAL_DEN_LIMIT
    }

    /// Builds a curve on the integer grid from two ordered
    /// endpoint+handle pairs: endpoint `p0` with handle `p1`, then
    /// handle `p2` with endpoint `p3`.
    pub fn from_points(p0: Vector, p1: Vector, p2: Vector, p3: Vector) -> (r: Bezier)
        requires
            coords_ok(p0, 1),
            coords_ok(p1, 1),
            coords_ok(p2, 1),
            coords_ok(p3, 1),
        ensures
            r.w1 == p0,
            r.w2 == p1,
            r.w3 == p2,
            r.w4 == p3,
            r.den == 1,
            r.wf(),
    {
        Bezier { w1: p0, w2: p1, w3: p2, w4: p3, den: 1 }
    }

    /// The control points in order, as numerators over `self.den`.
    pub fn to_control_points(&self) -> (r: [Vector; 4])
        ensures
            r@ == seq![self.w1, self.w2, self.w3, self.w4],
    {
        let r = [self.w1, self.w2, self.w3, self.w4];
        proof {
            assert(r@ =~= seq![self.w1, self.w2, self.w3, self.w4]);
        }
        r
    }

    /// The control points in order, collected into a vector.
    pub fn to_control_points_vec(&self) -> (r: Vec<Vector>)
        ensures
            r@ == seq![self.w1, self.w2, self.w3, self.w4],
    {
        let mut out: Vec<Vector> = Vec::new();
        out.push(self.w1);
        out.push(self.w2);
        out.push(self.w3);
        out.push(self.w4);
        proof {
            assert(out@ =~= seq![self.w1, self.w2, self.w3, self.w4]);
        }
        out
    }

    /// The reversal of the curve, as a value-level description.
    pub open spec fn reverse_spec(self) -> Bezier {
        Bezier { w1: self.w4, w2: self.w3, w3: self.w2, w4: self.w1, den: self.den }
    }

    /// The same curve traversed in the opposite direction.
    pub fn reverse(&self) -> (r: Bezier)
        ensures
            r.w1 == self.w4,
            r.w2 == self.w3,
            r.w3 == self.w2,
            r.w4 == self.w1,
            r.den == self.den,
            self.wf() ==> r.wf(),
            r == self.reverse_spec(),
    {
        Bezier { w1: self.w4, w2: self.w3, w3: self.w2, w4: self.w1, den: self.den }
    }

    /// First endpoint, as an exact rational point.
    pub fn start_point(&self) -> (r: RatPoint)
        requires
            self.wf(),
        ensures
            r.x == self.w1.x,
            r.y == self.w1.y,
            r.den == self.den,
            r.wf(),
    {
        RatPoint { x: self.w1.x, y: self.w1.y, den: self.den }
    }

    /// Last endpoint, as an exact rational point.
    pub fn end_point(&self) -> (r: RatPoint)
        requires
            self.wf(),
        ensures
            r.x == self.w4.x,
            r.y == self.w4.y,
            r.den == self.den,
            r.wf(),
    {
        RatPoint { x: self.w4.x, y: self.w4.y, den: self.den }
    }

    /// Translates every control point by the grid vector `v`.
    pub fn translate(&self, v: Vector) -> (r: Bezier)
        requires
            self.wf(),
            -COORD_LIMIT <= v.x <= COORD_LIMIT,
            -COORD_LIMIT <= v.y <= COORD_LIMIT,
        ensures
            r.den == self.den,
            r.w1.x == self.w1.x + v.x * self.den,
            r.w1.y == self.w1.y + v.y * self.den,
            r.w2.x == self.w2.x + v.x * self.den,
            r.w2.y == self.w2.y + v.y * self.den,
            r.w3.x == self.w3.x + v.x * self.den,
            r.w3.y == self.w3.y + v.y * self.den,
            r.w4.x == self.w4.x + v.x * self.den,
            r.w4.y == self.w4.y + v.y * self.den,
    {
        proof {
            lemma_mul_bound(v.x as int, self.den as int, COORD_LIMIT as int, DEN_LIMIT as int);
            lemma_mul_bound(v.y as int, self.den as int, COORD_LIMIT as int, DEN_LIMIT as int);
            assert(COORD_LIMIT * self.den <= COORD_LIMIT * DEN_LIMIT) by (nonlinear_arith)
                requires
                    1 <= self.den <= DEN_LIMIT,
                ;
        }
        let ox: i64 = v.x * self.den;
        let oy: i64 = v.y * self.den;
        Bezier {
            w1: Vector { x: self.w1.x + ox, y: self.w1.y + oy },
            w2: Vector { x: self.w2.x + ox, y: self.w2.y + oy },
            w3: Vector { x: self.w3.x + ox, y: self.w3.y + oy },
            w4: Vector { x: self.w4.x + ox, y: self.w4.y + oy },
            den: self.den,
        }
    }

    /// Evaluates the curve at `t` by exact de Casteljau interpolation.
    /// The result is the Bernstein polynomial of the control points
    /// over the denominator `den * t.den^3`, with no rounding at all.
    pub fn at(&self, t: Frac) -> (r: RatPoint)
        requires
            t.wf(),
            t.in_unit(),
            self.evaluable(t.den as int),
        ensures
            r.x == self.eval_x(t.num as int, t.den as int),
            r.y == self.eval_y(t.num as int, t.den as int),
            r.den == self.eval_den(t.den as int),
            r.wf(),
            r.coords_within(COORD_LIMIT as int),
    {
        let n: i64 = t.num;
        let m: i64 = t.den;
        proof {
            lemma_eval_scales(self.den as int, m as int);
        }
        let c0: i64 = COORD_LIMIT * self.den;
        let c1: i64 = m * c0;
        let c2: i64 = m * c1;
        let d3: i64 = self.den * m * m * m;
        let ax: i64 = lerp_step(self.w1.x, self.w2.x, n, m, c0);
        let bx: i64 = lerp_step(self.w2.x, self.w3.x, n, m, c0);
        let cx: i64 = lerp_step(self.w3.x, self.w4.x, n, m, c0);
        let ay: i64 = lerp_step(self.w1.y, self.w2.y, n, m, c0);
        let by: i64 = lerp_step(self.w2.y, self.w3.y, n, m, c0);
        let cy: i64 = lerp_step(self.w3.y, self.w4.y, n, m, c0);
        let ax2: i64 = lerp_step(ax, bx, n, m, c1);
        let bx2: i64 = lerp_step(bx, cx, n, m, c1);
        let ay2: i64 = lerp_step(ay, by, n, m, c1);
        let by2: i64 = lerp_step(by, cy, n, m, c1);
        let rx: i64 = lerp_step(ax2, bx2, n, m, c2);
        let ry: i64 = lerp_step(ay2, by2, n, m, c2);
        proof {
            lemma_casteljau_is_cubic(self.w1.x as int, self.w2.x as int, self.w3.x as int,
                self.w4.x as int, n as int, m as int);
            lemma_casteljau_is_cubic(self.w1.y as int, self.w2.y as int, self.w3.y as int,
                self.w4.y as int, n as int, m as int);
        }
        RatPoint { x: rx, y: ry, den: d3 }
    }

    /// Exact derivative of the curve at `t`, as a rational direction
    /// vector over the denominator `den * t.den^2`.
    ///
    /// At `t = 0` and `t = 1` this is the exact one-sided derivative;
    /// if a handle coincides with its endpoint the result there is the
    /// zero vector, and callers that need a direction must fall back
    /// to a nearby parameter.
    pub fn tangent_at(&self, t: Frac) -> (r: RatPoint)
        requires
            t.wf(),
            t.in_unit(),
            self.evaluable(t.den as int),
        ensures
            r.x == deriv_num(self.w1.x as int, self.w2.x as int, self.w3.x as int,
                self.w4.x as int, t.num as int, t.den as int),
            r.y == deriv_num(self.w1.y as int, self.w2.y as int, self.w3.y as int,
                self.w4.y as int, t.num as int, t.den as int),
            r.den == self.den * t.den * t.den,
            r.wf(),
            -(24 * (COORD_LIMIT * r.den)) <= r.x <= 24 * (COORD_LIMIT * r.den),
            -(24 * (COORD_LIMIT * r.den)) <= r.y <= 24 * (COORD_LIMIT * r.den),
            r.den <= crate::nums::DERIV_DEN_LIMIT,
    {
        let n: i64 = t.num;
        let m: i64 = t.den;
        proof {
            lemma_deriv_scales(self.den as int, m as int);
            assert(2 * COORD_LIMIT * (self.den * ((m as int) * (m as int)))
                <= 2 * COORD_LIMIT * crate::nums::DERIV_DEN_LIMIT) by (nonlinear_arith)
                requires
                    0 <= self.den * ((m as int) * (m as int)) <= crate::nums::DERIV_DEN_LIMIT,
                ;
            lemma_deriv_bounds(self.w1.x as int, self.w2.x as int, self.w3.x as int,
                self.w4.x as int, n as int, m as int, self.den as int);
            lemma_deriv_bounds(self.w1.y as int, self.w2.y as int, self.w3.y as int,
                self.w4.y as int, n as int, m as int, self.den as int);
        }
        let d2: i64 = self.den * m * m;
        let p1: i64 = (m - n) * (m - n);
        let p2: i64 = (m - n) * n;
        let p3: i64 = n * n;
        let sx: i64 = p1 * (self.w2.x - self.w1.x) + 2 * (p2 * (self.w3.x - self.w2.x))
            + p3 * (self.w4.x - self.w3.x);
        let sy: i64 = p1 * (self.w2.y - self.w1.y) + 2 * (p2 * (self.w3.y - self.w2.y))
            + p3 * (self.w4.y - self.w3.y);
        RatPoint { x: 3 * sx, y: 3 * sy, den: d2 }
    }

    /// Exact second derivative of the curve at `t`, as a rational
    /// vector over the denominator `den * t.den`.
    pub fn second_derivative_at(&self, t: Frac) -> (r: RatPoint)
        requires
            t.wf(),
            t.in_unit(),
            self.wf(),
            self.den * t.den <= DEN_LIMIT,
        ensures
            r.x == second_deriv_num(self.w1.x as int, self.w2.x as int, self.w3.x as int,
                self.w4.x as int, t.num as int, t.den as int),
            r.y == second_deriv_num(self.w1.y as int, self.w2.y as int, self.w3.y as int,
                self.w4.y as int, t.num as int, t.den as int),
            r.den == self.den * t.den,
            r.wf(),
    {
        let n: i64 = t.num;
        let m: i64 = t.den;
        proof {
            lemma_second_deriv_bounds(self.w1.x as int, self.w2.x as int, self.w3.x as int,
                self.w4.x as int, n as int, m as int, self.den as int);
            lemma_second_deriv_bounds(self.w1.y as int, self.w2.y as int, self.w3.y as int,
                self.w4.y as int, n as int, m as int, self.den as int);
        }
        let ex: i64 = (m - n) * (self.w1.x - 2 * self.w2.x + self.w3.x)
            + n * (self.w2.x - 2 * self.w3.x + self.w4.x);
        let ey: i64 = (m - n) * (self.w1.y - 2 * self.w2.y + self.w3.y)
            + n * (self.w2.y - 2 * self.w3.y + self.w4.y);
        RatPoint { x: 6 * ex, y: 6 * ey, den: self.den * m }
    }


    /// The smaller of two values.
    pub open spec fn min2(p: int, q: int) -> int {
        if p < q {
            p
        } else {
            q
        }
    }

    /// The larger of two values.
    pub open spec fn max2(p: int, q: int) -> int {
        if p > q {
            p
        } else {
            q
        }
    }

    /// The control-point bounding box in grid units: the least
    /// numerator over the denominator rounded down, the greatest
    /// rounded up.  The curve lies inside its control polygon, so
    /// this box contains the curve.
    pub open spec fn bounds_spec(self) -> crate::rect::Rect {
        let mnx = Self::min2(Self::min2(self.w1.x as int, self.w2.x as int),
            Self::min2(self.w3.x as int, self.w4.x as int));
        let mxx = Self::max2(Self::max2(self.w1.x as int, self.w2.x as int),
            Self::max2(self.w3.x as int, self.w4.x as int));
        let mny = Self::min2(Self::min2(self.w1.y as int, self.w2.y as int),
            Self::min2(self.w3.y as int, self.w4.y as int));
        let mxy = Self::max2(Self::max2(self.w1.y as int, self.w2.y as int),
            Self::max2(self.w3.y as int, self.w4.y as int));
        crate::rect::Rect {
            left: (mnx / self.den as int) as i64,
            right: (-((-mxx) / self.den as int)) as i64,
            bottom: (mny / self.den as int) as i64,
            top: (-((-mxy) / self.den as int)) as i64,
        }
    }

    /// The axis-aligned bounding box of the control points, rounded
    /// outward onto the grid.  Every control point numerator lies
    /// between `left * den` and `right * den` (and likewise
    /// vertically), so the box contains the whole curve.
    pub fn bounds(&self) -> (r: crate::rect::Rect)
        requires
            self.wf(),
        ensures
            r == self.bounds_spec(),
            r.left <= r.right,
            r.bottom <= r.top,
            -COORD_LIMIT <= r.left,
            r.right <= COORD_LIMIT,
            -COORD_LIMIT <= r.bottom,
            r.top <= COORD_LIMIT,
            r.left * self.den <= self.w1.x <= r.right * self.den,
            r.left * self.den <= self.w2.x <= r.right * self.den,
            r.left * self.den <= self.w3.x <= r.right * self.den,
            r.left * self.den <= self.w4.x <= r.right * self.den,
            r.bottom * self.den <= self.w1.y <= r.top * self.den,
            r.bottom * self.den <= self.w2.y <= r.top * self.den,
            r.bottom * self.den <= self.w3.y <= r.top * self.den,
            r.bottom * self.den <= self.w4.y <= r.top * self.den,
    {
        let mnx = min_i64(min_i64(self.w1.x, self.w2.x), min_i64(self.w3.x, self.w4.x));
        let mxx = max_i64(max_i64(self.w1.x, self.w2.x), max_i64(self.w3.x, self.w4.x));
        let mny = min_i64(min_i64(self.w1.y, self.w2.y), min_i64(self.w3.y, self.w4.y));
        let mxy = max_i64(max_i64(self.w1.y, self.w2.y), max_i64(self.w3.y, self.w4.y));
        let left = crate::nums::floor_div(mnx, self.den);
        let right_n = crate::nums::floor_div(-mxx, self.den);
        let bottom = crate::nums::floor_div(mny, self.den);
        let top_n = crate::nums::floor_div(-mxy, self.den);
        proof {
            crate::nums::lemma_floor_div_is_div(mnx as int, self.den as int, left as int);
            crate::nums::lemma_floor_div_is_div(-mxx as int, self.den as int, right_n as int);
            crate::nums::lemma_floor_div_is_div(mny as int, self.den as int, bottom as int);
            crate::nums::lemma_floor_div_is_div(-mxy as int, self.den as int, top_n as int);
            lemma_round_out(mnx as int, mxx as int, self.den as int, left as int,
                right_n as int);
            lemma_round_out(mny as int, mxy as int, self.den as int, bottom as int,
                top_n as int);
        }
        crate::rect::Rect { left, right: -right_n, bottom, top: -top_n }
    }


    /// Parameter of least curvature along x, as the exact ratio
    /// `(3 w2.x - w1.x) / (6 w2.x - 2 w1.x - 3 w3.x)`, returned with a
    /// positive denominator.
    pub fn min_curvature(&self) -> (r: Frac)
        requires
            self.wf(),
            6 * self.w2.x - 2 * self.w1.x - 3 * self.w3.x != 0,
        ensures
            r.wf(),
            r.num * (6 * self.w2.x - 2 * self.w1.x - 3 * self.w3.x) == (3 * self.w2.x
                - self.w1.x) * r.den,
    {
        let num0: i64 = 3 * self.w2.x - self.w1.x;
        let den0: i64 = 6 * self.w2.x - 2 * self.w1.x - 3 * self.w3.x;
        if den0 < 0 {
            proof {
                assert((-num0) * den0 == num0 * (-den0)) by (nonlinear_arith);
            }
            Frac { num: -num0, den: -den0 }
        } else {
            Frac { num: num0, den: den0 }
        }
    }

    /// Parameter of greatest curvature along x, as the exact ratio
    /// `(3 w3.x - w4.x) / (3 w3.x - w4.x + 2 w2.x - w1.x)`, returned
    /// with a positive denominator.
    pub fn max_curvature(&self) -> (r: Frac)
        requires
            self.wf(),
            3 * self.w3.x - self.w4.x + 2 * self.w2.x - self.w1.x != 0,
        ensures
            r.wf(),
            r.num * (3 * self.w3.x - self.w4.x + 2 * self.w2.x - self.w1.x) == (3 * self.w3.x
                - self.w4.x) * r.den,
    {
        let num0: i64 = 3 * self.w3.x - self.w4.x;
        let den0: i64 = 3 * self.w3.x - self.w4.x + 2 * self.w2.x - self.w1.x;
        if den0 < 0 {
            proof {
                assert((-num0) * den0 == num0 * (-den0)) by (nonlinear_arith);
            }
            Frac { num: -num0, den: -den0 }
        } else {
            Frac { num: num0, den: den0 }
        }
    }

    /// The left half of the subdivision at `n / m`: its control points
    /// are the de Casteljau intermediates toward the split point, over
    /// the scaled denominator `den * m^3`.
    pub open spec fn is_split_left(self, n: int, m: int, l: Bezier) -> bool {
        let a_x = self.w1.x as int;
        let b_x = self.w2.x as int;
        let c_x = self.w3.x as int;
        let d_x = self.w4.x as int;
        let a_y = self.w1.y as int;
        let b_y = self.w2.y as int;
        let c_y = self.w3.y as int;
        let d_y = self.w4.y as int;
        l.den == self.den * (m * m * m)
            && l.w1.x == m * m * m * a_x
            && l.w1.y == m * m * m * a_y
            && l.w2.x == m * m * lerp_num(a_x, b_x, n, m)
            && l.w2.y == m * m * lerp_num(a_y, b_y, n, m)
            && l.w3.x == m * lerp_num(lerp_num(a_x, b_x, n, m), lerp_num(b_x, c_x, n, m), n, m)
            && l.w3.y == m * lerp_num(lerp_num(a_y, b_y, n, m), lerp_num(b_y, c_y, n, m), n, m)
            && l.w4.x == cubic_num(a_x, b_x, c_x, d_x, n, m)
            && l.w4.y == cubic_num(a_y, b_y, c_y, d_y, n, m)
    }

    /// The right half of the subdivision at `n / m`.
    pub open spec fn is_split_right(self, n: int, m: int, r: Bezier) -> bool {
        let a_x = self.w1.x as int;
        let b_x = self.w2.x as int;
        let c_x = self.w3.x as int;
        let d_x = self.w4.x as int;
        let a_y = self.w1.y as int;
        let b_y = self.w2.y as int;
        let c_y = self.w3.y as int;
        let d_y = self.w4.y as int;
        r.den == self.den * (m * m * m)
            && r.w1.x == cubic_num(a_x, b_x, c_x, d_x, n, m)
            && r.w1.y == cubic_num(a_y, b_y, c_y, d_y, n, m)
            && r.w2.x == m * lerp_num(lerp_num(b_x, c_x, n, m), lerp_num(c_x, d_x, n, m), n, m)
            && r.w2.y == m * lerp_num(lerp_num(b_y, c_y, n, m), lerp_num(c_y, d_y, n, m), n, m)
            && r.w3.x == m * m * lerp_num(c_x, d_x, n, m)
            && r.w3.y == m * m * lerp_num(c_y, d_y, n, m)
            && r.w4.x == m * m * m * d_x
            && r.w4.y == m * m * m * d_y
    }

    /// De Casteljau subdivision at `t`.  Returns the two halves, which
    /// together reproduce the original curve exactly (their control
    /// points are the de Casteljau intermediates over the scaled
    /// denominator `den * t.den^3`); returns `None` exactly when `t`
    /// is 0 or 1, where one half would be empty.
    pub fn split(&self, t: Frac) -> (r: Option<(Bezier, Bezier)>)
        requires
            t.wf(),
            t.in_unit(),
            self.wf(),
            self.den * (t.den * t.den * t.den) <= DEN_LIMIT,
        ensures
            r is None <==> (t.num == 0 || t.num == t.den),
            r is Some ==> self.is_split_left(t.num as int, t.den as int, r.unwrap().0),
            r is Some ==> self.is_split_right(t.num as int, t.den as int, r.unwrap().1),
            r is Some ==> r.unwrap().0.wf() && r.unwrap().1.wf(),
    {
        if t.num == 0 || t.num == t.den {
            return None;
        }
        let n: i64 = t.num;
        let m: i64 = t.den;
        proof {
            lemma_split_scales(self.den as int, m as int);
        }
        let c0: i64 = COORD_LIMIT * self.den;
        let c1: i64 = m * c0;
        let c2: i64 = m * c1;
        let c3: i64 = m * c2;
        let m2: i64 = m * m;
        let m3: i64 = m2 * m;
        let nd: i64 = self.den * m3;
        let l1x: i64 = lerp_step(self.w1.x, self.w2.x, n, m, c0);
        let l2x: i64 = lerp_step(self.w2.x, self.w3.x, n, m, c0);
        let l3x: i64 = lerp_step(self.w3.x, self.w4.x, n, m, c0);
        let l1y: i64 = lerp_step(self.w1.y, self.w2.y, n, m, c0);
        let l2y: i64 = lerp_step(self.w2.y, self.w3.y, n, m, c0);
        let l3y: i64 = lerp_step(self.w3.y, self.w4.y, n, m, c0);
        let l4x: i64 = lerp_step(l1x, l2x, n, m, c1);
        let l5x: i64 = lerp_step(l2x, l3x, n, m, c1);
        let l4y: i64 = lerp_step(l1y, l2y, n, m, c1);
        let l5y: i64 = lerp_step(l2y, l3y, n, m, c1);
        let l6x: i64 = lerp_step(l4x, l5x, n, m, c2);
        let l6y: i64 = lerp_step(l4y, l5y, n, m, c2);
        proof {
            lemma_scale3(m as int, self.w1.x as int, c0 as int);
            lemma_scale3(m as int, self.w1.y as int, c0 as int);
            lemma_scale3(m as int, self.w4.x as int, c0 as int);
            lemma_scale3(m as int, self.w4.y as int, c0 as int);
            lemma_scale2(m as int, l1x as int, c1 as int);
            lemma_scale2(m as int, l1y as int, c1 as int);
            lemma_scale2(m as int, l3x as int, c1 as int);
            lemma_scale2(m as int, l3y as int, c1 as int);
            lemma_scale1(m as int, l4x as int, c2 as int);
            lemma_scale1(m as int, l4y as int, c2 as int);
            lemma_scale1(m as int, l5x as int, c2 as int);
            lemma_scale1(m as int, l5y as int, c2 as int);
            lemma_casteljau_is_cubic(self.w1.x as int, self.w2.x as int, self.w3.x as int,
                self.w4.x as int, n as int, m as int);
            lemma_casteljau_is_cubic(self.w1.y as int, self.w2.y as int, self.w3.y as int,
                self.w4.y as int, n as int, m as int);
        }
        let first = Bezier {
            w1: Vector { x: m3 * self.w1.x, y: m3 * self.w1.y },
            w2: Vector { x: m2 * l1x, y: m2 * l1y },
            w3: Vector { x: m * l4x, y: m * l4y },
            w4: Vector { x: l6x, y: l6y },
            den: nd,
        };
        let second = Bezier {
            w1: Vector { x: l6x, y: l6y },
            w2: Vector { x: m * l5x, y: m * l5y },
            w3: Vector { x: m2 * l3x, y: m2 * l3y },
            w4: Vector { x: m3 * self.w4.x, y: m3 * self.w4.y },
            den: nd,
        };
        Some((first, second))
    }
}

/// Endpoint evaluation law: at parameter 0 the curve's value is its
/// first control point, and at parameter 1 its last, exactly, for any
/// parameter denominator `m`.
pub proof fn lemma_eval_endpoints(bz: Bezier, m: int)
    requires
        bz.wf(),
        1 <= m,
    ensures
        rat_eq(bz.eval_x(0, m), bz.eval_den(m), bz.w1.x as int, bz.den as int),
        rat_eq(bz.eval_y(0, m), bz.eval_den(m), bz.w1.y as int, bz.den as int),
        rat_eq(bz.eval_x(m, m), bz.eval_den(m), bz.w4.x as int, bz.den as int),
        rat_eq(bz.eval_y(m, m), bz.eval_den(m), bz.w4.y as int, bz.den as int),
{
    lemma_eval_endpoints_coord(bz.w1.x as int, bz.w2.x as int, bz.w3.x as int, bz.w4.x as int,
        m, bz.den as int);
    lemma_eval_endpoints_coord(bz.w1.y as int, bz.w2.y as int, bz.w3.y as int, bz.w4.y as int,
        m, bz.den as int);
}

/// One coordinate of the endpoint law: `cubic_num` at 0 is `m^3 a`,
/// at `m` it is `m^3 d`, and both reduce to the endpoints as
/// rationals.
proof fn lemma_eval_endpoints_coord(a: int, b: int, c: int, d: int, m: int, den: int)
    by (nonlinear_arith)
    requires
        1 <= m,
        1 <= den,
    ensures
        cubic_num(a, b, c, d, 0, m) == m * m * (m * a),
        cubic_num(a, b, c, d, m, m) == m * m * (m * d),
        rat_eq(cubic_num(a, b, c, d, 0, m), den * (m * m * m), a, den),
        rat_eq(cubic_num(a, b, c, d, m, m), den * (m * m * m), d, den),
{
}

/// Split reconstruction at the joint: the last control point of the
/// left half and the first of the right half are one and the same
/// point, and it is exactly the original curve's value at the split
/// parameter.
pub proof fn lemma_split_joint(bz: Bezier, n: int, m: int, left: Bezier, right: Bezier)
    requires
        bz.wf(),
        1 <= m,
        bz.is_split_left(n, m, left),
        bz.is_split_right(n, m, right),
    ensures
        left.w4 == right.w1,
        left.den == right.den,
        left.w4.x == bz.eval_x(n, m),
        left.w4.y == bz.eval_y(n, m),
        left.den == bz.eval_den(m),
{
}

/// Traversal symmetry: the reversed curve evaluated at `n / m` is the
/// original curve evaluated at `(m - n) / m`.
pub proof fn lemma_reverse_eval(bz: Bezier, n: int, m: int)
    requires
        0 <= n <= m,
    ensures
        bz.reverse_spec().eval_x(n, m) == bz.eval_x(m - n, m),
        bz.reverse_spec().eval_y(n, m) == bz.eval_y(m - n, m),
{
    lemma_cubic_reverse(bz.w1.x as int, bz.w2.x as int, bz.w3.x as int, bz.w4.x as int, n, m);
    lemma_cubic_reverse(bz.w1.y as int, bz.w2.y as int, bz.w3.y as int, bz.w4.y as int, n, m);
}

/// Reversing the control points mirrors the parameter.
proof fn lemma_cubic_reverse(a: int, b: int, c: int, d: int, n: int, m: int)
    ensures
        cubic_num(d, c, b, a, n, m) == cubic_num(a, b, c, d, m - n, m),
{
    let q = m - n;
    assert((q * q) * (n * c) == (n * q) * (q * c)) by (nonlinear_arith);
    assert((q * n) * (n * b) == (n * n) * (q * b)) by (nonlinear_arith);
}

/// The final de Casteljau interpolation value is the Bernstein
/// polynomial: evaluating by repeated interpolation or by the cubic
/// formula gives the same numerator.
pub proof fn lemma_casteljau_is_cubic(a: int, b: int, c: int, d: int, n: int, m: int)
    ensures
        lerp_num(
            lerp_num(lerp_num(a, b, n, m), lerp_num(b, c, n, m), n, m),
            lerp_num(lerp_num(b, c, n, m), lerp_num(c, d, n, m), n, m),
            n,
            m,
        ) == cubic_num(a, b, c, d, n, m),
{
    lemma_cubic_expand(a, b, c, d, m - n, n);
}

/// Rearrangements of a triple product over two weights, proved once
/// and instantiated for every monomial of the expansion.
proof fn lemma_reassoc(q: int, n: int, b: int)
    by (nonlinear_arith)
    ensures
        q * (q * (q * b)) == q * q * (q * b),
        q * (q * (n * b)) == (q * q) * (n * b),
        q * (n * (q * b)) == (q * q) * (n * b),
        n * (q * (q * b)) == (q * q) * (n * b),
        q * (n * (n * b)) == (q * n) * (n * b),
        n * (q * (n * b)) == (q * n) * (n * b),
        n * (n * (q * b)) == (q * n) * (n * b),
        n * (n * (n * b)) == n * n * (n * b),
{
}

/// Distributing one factor over a two-term sum.
proof fn lemma_dist2(x: int, u: int, v: int, s: int)
    by (nonlinear_arith)
    requires
        s == u + v,
    ensures
        x * s == x * u + x * v,
{
}

/// Distributing one factor over a four-term sum.
proof fn lemma_dist4(x: int, u: int, v: int, w: int, z: int, s: int)
    by (nonlinear_arith)
    requires
        s == u + v + w + z,
    ensures
        x * s == x * u + x * v + x * w + x * z,
{
}

/// The de Casteljau expansion written with the complementary weight
/// `q` (`q = m - n`) as its own variable, expanded monomial by
/// monomial.
proof fn lemma_cubic_expand(a: int, b: int, c: int, d: int, q: int, n: int)
    ensures
        q * (q * (q * a + n * b) + n * (q * b + n * c))
            + n * (q * (q * b + n * c) + n * (q * c + n * d))
            == q * q * (q * a) + 3 * ((q * q) * (n * b)) + 3 * ((q * n) * (n * c))
                + n * n * (n * d),
{
    let e1 = q * a + n * b;
    let e2 = q * b + n * c;
    let e3 = q * c + n * d;
    lemma_dist2(q, q * a, n * b, e1);
    lemma_dist2(q, q * b, n * c, e2);
    lemma_dist2(n, q * b, n * c, e2);
    lemma_dist2(n, q * c, n * d, e3);
    let f1 = q * e1 + n * e2;
    let f2 = q * e2 + n * e3;
    lemma_dist4(q, q * (q * a), q * (n * b), n * (q * b), n * (n * c), f1);
    lemma_dist4(n, q * (q * b), q * (n * c), n * (q * c), n * (n * d), f2);
    lemma_reassoc(q, n, a);
    lemma_reassoc(q, n, b);
    lemma_reassoc(q, n, c);
    lemma_reassoc(q, n, d);
    assert(q * f1 == q * (q * (q * a)) + q * (q * (n * b)) + q * (n * (q * b))
        + q * (n * (n * c)));
    assert(n * f2 == n * (q * (q * b)) + n * (q * (n * c)) + n * (n * (q * c))
        + n * (n * (n * d)));
}

/// Scale and overflow facts for evaluation: with `den * m^3` in the
/// evaluation range, the bound chain `c0, m c0, m^2 c0, m^3 c0` stays
/// below the `i64` midpoint and `m^3 c0` is the coordinate bound of
/// the result denominator.
proof fn lemma_eval_scales(den: int, m: int)
    by (nonlinear_arith)
    requires
        1 <= den,
        1 <= m,
        den * (m * m * m) <= EVAL_DEN_LIMIT,
    ensures
        0 <= COORD_LIMIT * den,
        m * (COORD_LIMIT * den) <= 0x4000_0000_0000_0000,
        m * (m * (COORD_LIMIT * den)) <= 0x4000_0000_0000_0000,
        m * (m * (m * (COORD_LIMIT * den))) <= 0x4000_0000_0000_0000,
        m * (m * (m * (COORD_LIMIT * den))) == COORD_LIMIT * (den * m * m * m),
        den * m * m * m == den * (m * m * m),
        1 <= den * m * m * m <= EVAL_DEN_LIMIT,
        1 <= den * m <= EVAL_DEN_LIMIT,
        1 <= den * m * m <= EVAL_DEN_LIMIT,
{
}

/// Scale and overflow facts for subdivision: with `den * m^3` within
/// `DEN_LIMIT`, all scale factors and scaled coordinates stay in
/// range.
proof fn lemma_split_scales(den: int, m: int)
    by (nonlinear_arith)
    requires
        1 <= den,
        1 <= m,
        den * (m * m * m) <= DEN_LIMIT,
    ensures
        0 <= COORD_LIMIT * den,
        m * (COORD_LIMIT * den) <= 0x4000_0000_0000_0000,
        m * (m * (COORD_LIMIT * den)) <= 0x4000_0000_0000_0000,
        m * (m * (m * (COORD_LIMIT * den))) <= 0x4000_0000_0000_0000,
        1 <= m * m,
        m * m <= DEN_LIMIT,
        (m * m) * m == m * m * m,
        1 <= m * m * m <= DEN_LIMIT,
        1 <= den * (m * m * m) <= DEN_LIMIT,
        den * (m * m * m) == den * ((m * m) * m),
        m * (m * (m * (COORD_LIMIT * den))) == COORD_LIMIT * (den * (m * m * m)),
        m * (COORD_LIMIT * den) <= m * (m * (m * (COORD_LIMIT * den))),
        m * (m * (COORD_LIMIT * den)) <= m * (m * (m * (COORD_LIMIT * den))),
        COORD_LIMIT * den <= m * (m * (m * (COORD_LIMIT * den))),
{
}

/// Scaling a value bounded by `c` by one factor of `m` keeps it
/// within `m * c`.
proof fn lemma_scale1(m: int, v: int, c: int)
    by (nonlinear_arith)
    requires
        1 <= m,
        0 <= c,
        -c <= v <= c,
        m * c <= 0x4000_0000_0000_0000,
    ensures
        -(m * c) <= m * v <= m * c,
{
}

/// Scaling a value bounded by `c` by `m^2` keeps it within `m (m c)`.
proof fn lemma_scale2(m: int, v: int, c: int)
    by (nonlinear_arith)
    requires
        1 <= m,
        0 <= c,
        -c <= v <= c,
        m * (m * c) <= 0x4000_0000_0000_0000,
    ensures
        -(m * (m * c)) <= (m * m) * v <= m * (m * c),
{
}

/// Scaling a value bounded by `c` by `m^3` keeps it within
/// `m (m (m c))`.
proof fn lemma_scale3(m: int, v: int, c: int)
    by (nonlinear_arith)
    requires
        1 <= m,
        0 <= c,
        -c <= v <= c,
        m * (m * (m * c)) <= 0x4000_0000_0000_0000,
    ensures
        -(m * (m * (m * c))) <= ((m * m) * m) * v <= m * (m * (m * c)),
{
}

/// With a bounded curve denominator, `den * m^2` is at most `2^38`
/// whenever `den * m^3` is in the evaluation range.
proof fn lemma_deriv_scales(den: int, m: int)
    requires
        1 <= den <= DEN_LIMIT,
        1 <= m,
        den * (m * m * m) <= EVAL_DEN_LIMIT,
    ensures
        1 <= den * (m * m) <= 274877906944,
        1 <= den * m <= EVAL_DEN_LIMIT,
        den * m * m == den * (m * m),
{
    if m == 1 {
        assert(den * (m * m) == den && den * m == den && den * m * m == den * (m * m))
            by (nonlinear_arith)
            requires
                m == 1,
            ;
    } else {
        assert(2 * (den * (m * m)) <= den * (m * m * m) && den * m <= den * (m * m * m)
            && 1 <= den * (m * m) && 1 <= den * m && den * m * m == den * (m * m))
            by (nonlinear_arith)
            requires
                1 <= den,
                2 <= m,
            ;
    }
}

/// Bounds needed so the exact derivative computation cannot overflow.
proof fn lemma_deriv_bounds(a: int, b: int, c: int, d: int, n: int, m: int, den: int)
    by (nonlinear_arith)
    requires
        0 <= n <= m,
        1 <= m,
        1 <= den,
        den * (m * m * m) <= EVAL_DEN_LIMIT,
        den * (m * m) <= 274877906944,
        -(COORD_LIMIT * den) <= a <= COORD_LIMIT * den,
        -(COORD_LIMIT * den) <= b <= COORD_LIMIT * den,
        -(COORD_LIMIT * den) <= c <= COORD_LIMIT * den,
        -(COORD_LIMIT * den) <= d <= COORD_LIMIT * den,
    ensures
        0 <= (m - n) * (m - n) <= EVAL_DEN_LIMIT,
        -EVAL_DEN_LIMIT <= (m - n) * n <= EVAL_DEN_LIMIT,
        0 <= n * n <= EVAL_DEN_LIMIT,
        -(2 * COORD_LIMIT * EVAL_DEN_LIMIT) <= (m - n) * (m - n) * (b - a)
            <= 2 * COORD_LIMIT * EVAL_DEN_LIMIT,
        -(2 * COORD_LIMIT * EVAL_DEN_LIMIT) <= (m - n) * n * (c - b)
            <= 2 * COORD_LIMIT * EVAL_DEN_LIMIT,
        -(2 * COORD_LIMIT * EVAL_DEN_LIMIT) <= n * n * (d - c)
            <= 2 * COORD_LIMIT * EVAL_DEN_LIMIT,
        -(2 * COORD_LIMIT * (den * (m * m))) <= (m - n) * (m - n) * (b - a)
            <= 2 * COORD_LIMIT * (den * (m * m)),
        -(2 * COORD_LIMIT * (den * (m * m))) <= (m - n) * n * (c - b)
            <= 2 * COORD_LIMIT * (den * (m * m)),
        -(2 * COORD_LIMIT * (den * (m * m))) <= n * n * (d - c)
            <= 2 * COORD_LIMIT * (den * (m * m)),
        6 * (2 * COORD_LIMIT * (den * (m * m))) <= 0x4000_0000_0000_0000,
        1 <= den * m <= EVAL_DEN_LIMIT,
        1 <= den * m * m <= EVAL_DEN_LIMIT,
{
}

/// Bounds needed so the exact second derivative cannot overflow.
proof fn lemma_second_deriv_bounds(a: int, b: int, c: int, d: int, n: int, m: int, den: int)
    by (nonlinear_arith)
    requires
        0 <= n <= m,
        1 <= m,
        1 <= den,
        den * m <= DEN_LIMIT,
        -(COORD_LIMIT * den) <= a <= COORD_LIMIT * den,
        -(COORD_LIMIT * den) <= b <= COORD_LIMIT * den,
        -(COORD_LIMIT * den) <= c <= COORD_LIMIT * den,
        -(COORD_LIMIT * den) <= d <= COORD_LIMIT * den,
    ensures
        -(4 * COORD_LIMIT * den) <= a - 2 * b + c <= 4 * COORD_LIMIT * den,
        -(4 * COORD_LIMIT * den) <= b - 2 * c + d <= 4 * COORD_LIMIT * den,
        -(4 * COORD_LIMIT * (den * m)) <= (m - n) * (a - 2 * b + c)
            <= 4 * COORD_LIMIT * (den * m),
        -(4 * COORD_LIMIT * (den * m)) <= n * (b - 2 * c + d) <= 4 * COORD_LIMIT * (den * m),
        -(4 * COORD_LIMIT * (den * m)) <= (m - n) * (a - 2 * b + c) + n * (b - 2 * c + d)
            <= 4 * COORD_LIMIT * (den * m),
        6 * (4 * COORD_LIMIT * (den * m)) <= 0x4000_0000_0000_0000,
        1 <= den * m,
{
}

/// One interpolation step of a prefix: interpolating from the scaled
/// start `m * x` toward the step value `lerp_num(x, y, n, m)` with
/// weight `u / v` lands at the composite weight `(n u) / (m v)`.
proof fn lemma_lerp_compose_left(x: int, y: int, n: int, m: int, u: int, v: int)
    ensures
        lerp_num(m * x, lerp_num(x, y, n, m), u, v) == lerp_num(x, y, n * u, m * v),
{
    assert((v - u) * (m * x) == v * (m * x) - u * (m * x)) by (nonlinear_arith);
    assert(u * ((m - n) * x + n * y) == u * ((m - n) * x) + u * (n * y)) by (nonlinear_arith);
    assert(u * ((m - n) * x) == u * (m * x) - u * (n * x)) by (nonlinear_arith);
    assert((m * v - n * u) * x == v * (m * x) - u * (n * x)) by (nonlinear_arith);
    assert(u * (n * y) == (n * u) * y) by (nonlinear_arith);
}

/// One interpolation step of a suffix: interpolating from the step
/// value toward the scaled end `m * y` with weight `u / v` lands at
/// the composite weight `(n v + (m - n) u) / (m v)`.
proof fn lemma_lerp_compose_right(x: int, y: int, n: int, m: int, u: int, v: int)
    ensures
        lerp_num(lerp_num(x, y, n, m), m * y, u, v) == lerp_num(x, y, n * v + (m - n) * u,
            m * v),
{
    assert((v - u) * ((m - n) * x + n * y) == (v - u) * ((m - n) * x) + (v - u) * (n * y))
        by (nonlinear_arith);
    assert((m * v - (n * v + (m - n) * u)) * x == (v - u) * ((m - n) * x)) by (nonlinear_arith);
    assert((n * v + (m - n) * u) * y == (v - u) * (n * y) + u * (m * y)) by (nonlinear_arith);
}

/// Scaling both ends of an interpolation scales its value.
proof fn lemma_lerp_scale(k: int, x: int, y: int, u: int, v: int)
    ensures
        lerp_num(k * x, k * y, u, v) == k * lerp_num(x, y, u, v),
{
    assert((v - u) * (k * x) == k * ((v - u) * x)) by (nonlinear_arith);
    assert(u * (k * y) == k * (u * y)) by (nonlinear_arith);
    assert(k * ((v - u) * x) + k * (u * y) == k * ((v - u) * x + u * y)) by (nonlinear_arith);
}

/// Interpolation steps commute: stepping at `n / m` after stepping
/// both arguments at `uu / vv` is stepping at `uu / vv` after
/// stepping both arguments at `n / m`.
proof fn lemma_lerp_interchange(a: int, b: int, c: int, n: int, m: int, uu: int, vv: int)
    ensures
        lerp_num(lerp_num(a, b, n, m), lerp_num(b, c, n, m), uu, vv) == lerp_num(
            lerp_num(a, b, uu, vv), lerp_num(b, c, uu, vv), n, m),
{
    assert((vv - uu) * ((m - n) * a + n * b) == (vv - uu) * ((m - n) * a) + (vv - uu) * (n
        * b)) by (nonlinear_arith);
    assert(uu * ((m - n) * b + n * c) == uu * ((m - n) * b) + uu * (n * c)) by (nonlinear_arith);
    assert((m - n) * ((vv - uu) * a + uu * b) == (m - n) * ((vv - uu) * a) + (m - n) * (uu
        * b)) by (nonlinear_arith);
    assert(n * ((vv - uu) * b + uu * c) == n * ((vv - uu) * b) + n * (uu * c))
        by (nonlinear_arith);
    assert((vv - uu) * ((m - n) * a) == (m - n) * ((vv - uu) * a)) by (nonlinear_arith);
    assert((vv - uu) * (n * b) == n * ((vv - uu) * b)) by (nonlinear_arith);
    assert(uu * ((m - n) * b) == (m - n) * (uu * b)) by (nonlinear_arith);
    assert(uu * (n * c) == n * (uu * c)) by (nonlinear_arith);
}

/// The left half of a subdivision at `n / m`, evaluated at `u / v`,
/// has exactly the numerator of the original curve at the composite
/// parameter `(n u) / (m v)` (one coordinate).
proof fn lemma_casteljau_compose_left(a: int, b: int, c: int, d: int, n: int, m: int, u: int,
    v: int)
    ensures
        cubic_num(
            m * m * m * a,
            m * m * lerp_num(a, b, n, m),
            m * lerp_num(lerp_num(a, b, n, m), lerp_num(b, c, n, m), n, m),
            cubic_num(a, b, c, d, n, m),
            u,
            v,
        ) == cubic_num(a, b, c, d, n * u, m * v),
{
    let p01 = lerp_num(a, b, n, m);
    let p12 = lerp_num(b, c, n, m);
    let p23 = lerp_num(c, d, n, m);
    let p012 = lerp_num(p01, p12, n, m);
    let p123 = lerp_num(p12, p23, n, m);
    let l1 = m * m * m * a;
    let l2 = m * m * p01;
    let l3 = m * p012;
    let l4 = cubic_num(a, b, c, d, n, m);
    lemma_casteljau_is_cubic(a, b, c, d, n, m);
    lemma_casteljau_is_cubic(l1, l2, l3, l4, u, v);
    let wn = n * u;
    let wm = m * v;
    let q01 = lerp_num(a, b, wn, wm);
    let q02 = lerp_num(b, c, wn, wm);
    let q03 = lerp_num(c, d, wn, wm);
    let q11 = lerp_num(p01, p12, wn, wm);
    let q12 = lerp_num(p12, p23, wn, wm);
    let r0 = lerp_num(q01, q02, wn, wm);
    let r0b = lerp_num(q02, q03, wn, wm);
    // level 1 of the evaluation of the left half
    assert(l1 == (m * m) * (m * a)) by (nonlinear_arith)
        requires
            l1 == m * m * m * a,
        ;
    assert(l2 == (m * m) * p01) by (nonlinear_arith)
        requires
            l2 == m * m * p01,
        ;
    lemma_lerp_scale(m * m, m * a, p01, u, v);
    lemma_lerp_compose_left(a, b, n, m, u, v);
    assert(lerp_num(l1, l2, u, v) == (m * m) * q01);
    assert(l2 == m * (m * p01)) by (nonlinear_arith)
        requires
            l2 == m * m * p01,
        ;
    assert(l3 == m * p012) by (nonlinear_arith)
        requires
            l3 == m * p012,
        ;
    lemma_lerp_scale(m, m * p01, p012, u, v);
    lemma_lerp_compose_left(p01, p12, n, m, u, v);
    assert(lerp_num(l2, l3, u, v) == m * q11);
    lemma_lerp_compose_left(p012, p123, n, m, u, v);
    assert(lerp_num(l3, l4, u, v) == lerp_num(p012, p123, wn, wm));
    let q21 = lerp_num(p012, p123, wn, wm);
    // level 2
    assert((m * m) * q01 == m * (m * q01)) by (nonlinear_arith);
    lemma_lerp_scale(m, m * q01, q11, u, v);
    lemma_lerp_interchange(a, b, c, n, m, wn, wm);
    lemma_lerp_compose_left(q01, q02, n, m, u, v);
    assert(lerp_num(lerp_num(l1, l2, u, v), lerp_num(l2, l3, u, v), u, v) == m * r0);
    lemma_lerp_interchange(p01, p12, p23, n, m, wn, wm);
    lemma_lerp_compose_left(q11, q12, n, m, u, v);
    assert(lerp_num(lerp_num(l2, l3, u, v), lerp_num(l3, l4, u, v), u, v) == lerp_num(q11,
        q12, wn, wm));
    let r1 = lerp_num(q11, q12, wn, wm);
    // level 3
    lemma_lerp_interchange(b, c, d, n, m, wn, wm);
    lemma_lerp_interchange(q01, q02, q03, n, m, wn, wm);
    lemma_lerp_compose_left(r0, r0b, n, m, u, v);
    assert(lerp_num(
        lerp_num(lerp_num(l1, l2, u, v), lerp_num(l2, l3, u, v), u, v),
        lerp_num(lerp_num(l2, l3, u, v), lerp_num(l3, l4, u, v), u, v),
        u,
        v,
    ) == lerp_num(r0, r0b, wn, wm));
    lemma_casteljau_is_cubic(a, b, c, d, wn, wm);
}

/// The right half of a subdivision at `n / m`, evaluated at `u / v`,
/// has exactly the numerator of the original curve at the composite
/// parameter `(n v + (m - n) u) / (m v)` (one coordinate).
proof fn lemma_casteljau_compose_right(a: int, b: int, c: int, d: int, n: int, m: int, u: int,
    v: int)
    ensures
        cubic_num(
            cubic_num(a, b, c, d, n, m),
            m * lerp_num(lerp_num(b, c, n, m), lerp_num(c, d, n, m), n, m),
            m * m * lerp_num(c, d, n, m),
            m * m * m * d,
            u,
            v,
        ) == cubic_num(a, b, c, d, n * v + (m - n) * u, m * v),
{
    let p01 = lerp_num(a, b, n, m);
    let p12 = lerp_num(b, c, n, m);
    let p23 = lerp_num(c, d, n, m);
    let p012 = lerp_num(p01, p12, n, m);
    let p123 = lerp_num(p12, p23, n, m);
    let l1 = cubic_num(a, b, c, d, n, m);
    let l2 = m * p123;
    let l3 = m * m * p23;
    let l4 = m * m * m * d;
    lemma_casteljau_is_cubic(a, b, c, d, n, m);
    lemma_casteljau_is_cubic(l1, l2, l3, l4, u, v);
    let wn = n * v + (m - n) * u;
    let wm = m * v;
    let q01 = lerp_num(a, b, wn, wm);
    let q02 = lerp_num(b, c, wn, wm);
    let q03 = lerp_num(c, d, wn, wm);
    let q11 = lerp_num(p01, p12, wn, wm);
    let q12 = lerp_num(p12, p23, wn, wm);
    let r0 = lerp_num(q01, q02, wn, wm);
    let r0b = lerp_num(q02, q03, wn, wm);
    // level 1 of the evaluation of the right half
    lemma_lerp_compose_right(p012, p123, n, m, u, v);
    assert(lerp_num(l1, l2, u, v) == lerp_num(p012, p123, wn, wm));
    let q21 = lerp_num(p012, p123, wn, wm);
    assert(l3 == m * (m * p23)) by (nonlinear_arith)
        requires
            l3 == m * m * p23,
        ;
    lemma_lerp_scale(m, p123, m * p23, u, v);
    lemma_lerp_compose_right(p12, p23, n, m, u, v);
    assert(lerp_num(l2, l3, u, v) == m * q12);
    assert(l4 == (m * m) * (m * d)) by (nonlinear_arith)
        requires
            l4 == m * m * m * d,
        ;
    assert(l3 == (m * m) * p23) by (nonlinear_arith)
        requires
            l3 == m * m * p23,
        ;
    lemma_lerp_scale(m * m, p23, m * d, u, v);
    lemma_lerp_compose_right(c, d, n, m, u, v);
    assert(lerp_num(l3, l4, u, v) == (m * m) * q03);
    // level 2
    lemma_lerp_interchange(p01, p12, p23, n, m, wn, wm);
    lemma_lerp_compose_right(q11, q12, n, m, u, v);
    assert(lerp_num(lerp_num(l1, l2, u, v), lerp_num(l2, l3, u, v), u, v) == lerp_num(q11,
        q12, wn, wm));
    let r1 = lerp_num(q11, q12, wn, wm);
    assert((m * m) * q03 == m * (m * q03)) by (nonlinear_arith);
    lemma_lerp_scale(m, q12, m * q03, u, v);
    lemma_lerp_interchange(b, c, d, n, m, wn, wm);
    lemma_lerp_compose_right(q02, q03, n, m, u, v);
    assert(lerp_num(lerp_num(l2, l3, u, v), lerp_num(l3, l4, u, v), u, v) == m * r0b);
    // level 3
    lemma_lerp_interchange(a, b, c, n, m, wn, wm);
    lemma_lerp_interchange(q01, q02, q03, n, m, wn, wm);
    lemma_lerp_compose_right(r0, r0b, n, m, u, v);
    assert(lerp_num(
        lerp_num(lerp_num(l1, l2, u, v), lerp_num(l2, l3, u, v), u, v),
        lerp_num(lerp_num(l2, l3, u, v), lerp_num(l3, l4, u, v), u, v),
        u,
        v,
    ) == lerp_num(r0, r0b, wn, wm));
    lemma_casteljau_is_cubic(a, b, c, d, wn, wm);
}

/// Split reconstruction law: the two halves of a subdivision together
/// reproduce the original curve exactly.  For any `s = u / v`, the
/// left half at `s` is the original at `s * t`, and the right half at
/// `s` is the original at `t + s * (1 - t)` - equal numerator for
/// numerator, and with equal denominators.
pub proof fn lemma_split_reconstruction(bz: Bezier, n: int, m: int, left: Bezier,
    right: Bezier, u: int, v: int)
    requires
        bz.is_split_left(n, m, left),
        bz.is_split_right(n, m, right),
    ensures
        left.eval_x(u, v) == bz.eval_x(n * u, m * v),
        left.eval_y(u, v) == bz.eval_y(n * u, m * v),
        right.eval_x(u, v) == bz.eval_x(n * v + (m - n) * u, m * v),
        right.eval_y(u, v) == bz.eval_y(n * v + (m - n) * u, m * v),
        left.eval_den(v) == bz.eval_den(m * v),
        right.eval_den(v) == bz.eval_den(m * v),
{
    lemma_casteljau_compose_left(bz.w1.x as int, bz.w2.x as int, bz.w3.x as int, bz.w4.x as int,
        n, m, u, v);
    lemma_casteljau_compose_left(bz.w1.y as int, bz.w2.y as int, bz.w3.y as int, bz.w4.y as int,
        n, m, u, v);
    lemma_casteljau_compose_right(bz.w1.x as int, bz.w2.x as int, bz.w3.x as int,
        bz.w4.x as int, n, m, u, v);
    lemma_casteljau_compose_right(bz.w1.y as int, bz.w2.y as int, bz.w3.y as int,
        bz.w4.y as int, n, m, u, v);
    assert(left.den * (v * v * v) == bz.den * ((m * v) * (m * v) * (m * v)))
        by (nonlinear_arith)
        requires
            left.den == bz.den * (m * m * m),
        ;
    assert(right.den * (v * v * v) == bz.den * ((m * v) * (m * v) * (m * v)))
        by (nonlinear_arith)
        requires
            right.den == bz.den * (m * m * m),
        ;
}

/// The smaller of two grid values.
fn min_i64(p: i64, q: i64) -> (r: i64)
    ensures
        r == Bezier::min2(p as int, q as int),
{
    if p < q {
        p
    } else {
        q
    }
}

/// The larger of two grid values.
fn max_i64(p: i64, q: i64) -> (r: i64)
    ensures
        r == Bezier::max2(p as int, q as int),
{
    if p > q {
        p
    } else {
        q
    }
}

/// Rounding the least numerator down and the greatest up gives an
/// ordered, in-range, containing interval.
proof fn lemma_round_out(mn: int, mx: int, den: int, lo: int, hi_n: int)
    by (nonlinear_arith)
    requires
        1 <= den <= DEN_LIMIT,
        mn <= mx,
        -(COORD_LIMIT * den) <= mn,
        mx <= COORD_LIMIT * den,
        den * lo <= mn < den * (lo + 1),
        den * hi_n <= -mx < den * (hi_n + 1),
    ensures
        lo <= -hi_n,
        -COORD_LIMIT <= lo,
        -hi_n <= COORD_LIMIT,
        lo * den <= mn,
        mx <= (-hi_n) * den,
{
}

} // verus!
