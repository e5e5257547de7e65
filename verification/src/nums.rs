//! Exact fractions, rational comparison helpers, and the small
//! arithmetic toolbox (integer square root, floor division, product
//! bounds) that the curve algebra is built on.

use vstd::prelude::*;

verus! {

/// Largest coordinate magnitude (in grid units, i.e. after dividing a
/// numerator by its denominator) that the geometry accepts.  Keeping
/// values in this range lets every intermediate product of the exact
/// rational arithmetic fit in an `i64`.
pub const COORD_LIMIT: i64 = 1048576;

/// Largest denominator a curve may carry.
pub const DEN_LIMIT: i64 = 68719476736;

/// Largest combined denominator (curve denominator times the cube of a
/// parameter denominator) that an evaluation may produce.
pub const EVAL_DEN_LIMIT: i64 = 549755813888;

/// Largest denominator accepted for a global curve parameter.
pub const PARAM_DEN_LIMIT: i64 = 1073741824;

/// Largest denominator accepted for a piecewise cut table.
pub const CUT_DEN_LIMIT: i64 = 1048576;

/// Largest denominator (curve denominator times the square of a
/// parameter denominator) a derivative evaluation may produce.
pub const DERIV_DEN_LIMIT: i64 = 274877906944;

/// An exact fraction `num / den` with a positive denominator.
/// Curve parameters, interpolated table lookups and other ratios are
/// handed around in this form so that no precision is ever lost.
#[derive(Clone, Copy, Debug, PartialEq, Eq, Structural)]
pub struct Frac {
    pub num: i64,
    pub den: i64,
}

/// A point with exact rational coordinates `x / den` and `y / den`.
/// Evaluating a curve at a fractional parameter yields one of these.
#[derive(Clone, Copy, Debug, PartialEq, Eq, Structural)]
pub struct RatPoint {
    pub x: i64,
    pub y: i64,
    pub den: i64,
}

impl Frac {
    /// A fraction is well formed when its denominator is positive.
    pub open spec fn wf(self) -> bool {
        1 <= self.den
    }

    /// The fraction lies in the closed unit interval.
    pub open spec fn in_unit(self) -> bool {
        0 <= self.num <= self.den
    }

    pub fn new(num: i64, den: i64) -> (r: Frac)
        requires
            1 <= den,
        ensures
            r.num == num,
            r.den == den,
            r.wf(),
    {
        Frac { num, den }
    }

    /// The parameter value zero.
    pub fn zero() -> (r: Frac)
        ensures
            r.num == 0,
            r.den == 1,
            r.wf(),
    {
        Frac { num: 0, den: 1 }
    }

    /// The parameter value one.
    pub fn one() -> (r: Frac)
        ensures
            r.num == 1,
            r.den == 1,
            r.wf(),
    {
        Frac { num: 1, den: 1 }
    }
}

impl RatPoint {
    /// A rational point is well formed when its denominator is positive.
    pub open spec fn wf(self) -> bool {
        1 <= self.den
    }
}

/// The rationals `an/ad` and `bn/bd` are equal.  Meaningful when both
/// denominators are positive.
pub open spec fn rat_eq(an: int, ad: int, bn: int, bd: int) -> bool {
    an * bd == bn * ad
}

/// The rational `an/ad` is at most `bn/bd`.  Meaningful when both
/// denominators are positive.
pub open spec fn rat_le(an: int, ad: int, bn: int, bd: int) -> bool {
    an * bd <= bn * ad
}

/// Cross-multiplied `<=` is transitive over positive denominators.
pub proof fn lemma_rat_le_trans(an: int, ad: int, bn: int, bd: int, cn: int, cd: int)
    by (nonlinear_arith)
    requires
        1 <= ad,
        1 <= bd,
        1 <= cd,
        rat_le(an, ad, bn, bd),
        rat_le(bn, bd, cn, cd),
    ensures
        rat_le(an, ad, cn, cd),
{
}

/// Bound on a product from bounds on its factors.
pub proof fn lemma_mul_bound(x: int, y: int, bx: int, by: int)
    by (nonlinear_arith)
    requires
        -bx <= x <= bx,
        -by <= y <= by,
        0 <= bx,
        0 <= by,
    ensures
        -(bx * by) <= x * y <= bx * by,
{
}

/// Bound on the numerator of an exact linear interpolation step:
/// if `a` and `b` are bounded by `c`, then `(m - n) * a + n * b` is
/// bounded by `m * c` for any `0 <= n <= m`.
pub proof fn lemma_lerp_num_bound(a: int, b: int, n: int, m: int, c: int)
    by (nonlinear_arith)
    requires
        0 <= n <= m,
        -c <= a <= c,
        -c <= b <= c,
        0 <= c,
    ensures
        -(m * c) <= (m - n) * a + n * b <= m * c,
{
}

/// Floor of the integer quotient `a / b`: the unique `r` with
/// `b * r <= a < b * (r + 1)`.
pub fn floor_div(a: i64, b: i64) -> (r: i64)
    requires
        1 <= b,
        -0x7fff_ffff_ffff_ffff <= a,
    ensures
        b * r <= a < b * (r + 1),
{
    if a >= 0 {
        let q: i64 = a / b;
        proof {
            assert(b * q <= a < b * (q + 1) && 0 <= q <= a) by (nonlinear_arith)
                requires
                    1 <= b,
                    0 <= a,
                    q == a / b,
                ;
        }
        q
    } else {
        let p: i64 = -a;
        let q0: i64 = p / b;
        let rem: i64 = p % b;
        proof {
            assert(b * q0 <= p < b * (q0 + 1) && 0 <= q0 <= p && (rem == 0 <==> b * q0 == p))
                by (nonlinear_arith)
                requires
                    1 <= b,
                    0 < p,
                    q0 == p / b,
                    rem == p % b,
                ;
        }
        if rem == 0 {
            proof {
                assert(b * (-q0) <= a < b * (-q0 + 1)) by (nonlinear_arith)
                    requires
                        1 <= b,
                        a == -p,
                        0 < p,
                        b * q0 == p,
                    ;
            }
            -q0
        } else {
            proof {
                assert(b * (-q0 - 1) <= a < b * (-q0) && q0 < p) by (nonlinear_arith)
                    requires
                        1 <= b,
                        a == -p,
                        0 <= q0,
                        b * q0 < p < b * (q0 + 1),
                    ;
            }
            -q0 - 1
        }
    }
}

/// A value bracketed by `b * r <= a < b * (r + 1)` is the Euclidean
/// quotient `a / b`.
pub proof fn lemma_floor_div_is_div(a: int, b: int, r: int)
    requires
        1 <= b,
        b * r <= a < b * (r + 1),
    ensures
        r == a / b,
{
    let rem = a - b * r;
    assert(b * r + b == b * (r + 1)) by (nonlinear_arith);
    assert(r * b == b * r) by (nonlinear_arith);
    vstd::arithmetic::div_mod::lemma_fundamental_div_mod_converse(a, b, r, rem);
}

/// Integer square root: the unique `r` with `r * r <= n < (r+1) * (r+1)`.
pub fn isqrt(n: i64) -> (r: i64)
    requires
        0 <= n,
    ensures
        r * r <= n < (r + 1) * (r + 1),
        0 <= r <= 3037000499,
{
    let mut lo: i64 = 0;
    let mut hi: i64 = 3037000500;
    proof {
        assert((3037000500 as int) * (3037000500 as int) > n);
    }
    while lo + 1 < hi
        invariant
            0 <= lo < hi <= 3037000500,
            lo * lo <= n,
            n < hi * hi,
        decreases hi - lo,
    {
        let mid: i64 = lo + (hi - lo) / 2;
        assert(lo < mid < hi);
        proof {
            assert(mid * mid <= 3037000499 * 3037000499) by (nonlinear_arith)
                requires
                    0 < mid <= 3037000499,
                ;
        }
        if mid * mid <= n {
            lo = mid;
        } else {
            hi = mid;
        }
    }
    lo
}

} // verus!
