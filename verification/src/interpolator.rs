//! Scalar interpolation between two values, used by consumers that
//! vary a quantity (such as a stroke width) along a curve.

use vstd::prelude::*;
use crate::nums::Frac;

verus! {

/// How an `Interpolator` moves from its start value to its finish
/// value.
#[derive(Clone, Copy, Debug, PartialEq, Eq, Structural)]
pub enum InterpolationType {
    /// Stay at the start value.
    Null,
    /// Move linearly.
    Linear,
}

/// Largest magnitude accepted for interpolation endpoints.
pub const INTERP_LIMIT: i64 = 1073741824;

/// An exact scalar interpolator from `start` to `finish`.
#[derive(Clone, Copy, Debug, PartialEq, Eq, Structural)]
pub struct Interpolator {
    pub start: i64,
    pub finish: i64,
    pub kind: InterpolationType,
}

impl Interpolator {
    /// Endpoints are bounded so that interpolation cannot overflow.
    pub open spec fn wf(self) -> bool {
        -INTERP_LIMIT <= self.start <= INTERP_LIMIT
            && -INTERP_LIMIT <= self.finish <= INTERP_LIMIT
    }

    pub fn new(start: i64, finish: i64, kind: InterpolationType) -> (r: Interpolator)
        requires
            -INTERP_LIMIT <= start <= INTERP_LIMIT,
            -INTERP_LIMIT <= finish <= INTERP_LIMIT,
        ensures
            r.start == start,
            r.finish == finish,
            r.kind == kind,
            r.wf(),
    {
        Interpolator { start, finish, kind }
    }

    pub fn new_none(start: i64, finish: i64) -> (r: Interpolator)
        requires
            -INTERP_LIMIT <= start <= INTERP_LIMIT,
            -INTERP_LIMIT <= finish <= INTERP_LIMIT,
        ensures
            r.start == start,
            r.finish == finish,
            r.kind == InterpolationType::Null,
            r.wf(),
    {
        Interpolator { start, finish, kind: InterpolationType::Null }
    }

    pub fn new_linear(start: i64, finish: i64) -> (r: Interpolator)
        requires
            -INTERP_LIMIT <= start <= INTERP_LIMIT,
            -INTERP_LIMIT <= finish <= INTERP_LIMIT,
        ensures
            r.start == start,
            r.finish == finish,
            r.kind == InterpolationType::Linear,
            r.wf(),
    {
        Interpolator { start, finish, kind: InterpolationType::Linear }
    }

    /// The interpolated value at `t`, as an exact fraction over `t`'s
    /// denominator: the start value for `Null` pacing, the exact
    /// linear mix for `Linear`.
    pub fn at(&self, t: Frac) -> (r: Frac)
        requires
            self.wf(),
            t.wf(),
            t.in_unit(),
            t.den <= INTERP_LIMIT,
        ensures
            r.den == t.den,
            r.num == match self.kind {
                InterpolationType::Null => self.start * t.den,
                InterpolationType::Linear => (t.den - t.num) * self.start + t.num * self.finish,
            },
            r.wf(),
    {
        proof {
            crate::nums::lemma_mul_bound(self.start as int, t.den as int, INTERP_LIMIT as int,
                INTERP_LIMIT as int);
            crate::nums::lemma_lerp_num_bound(self.start as int, self.finish as int,
                t.num as int, t.den as int, INTERP_LIMIT as int);
            crate::nums::lemma_mul_bound((t.den - t.num) as int, self.start as int,
                INTERP_LIMIT as int, INTERP_LIMIT as int);
            crate::nums::lemma_mul_bound(t.num as int, self.finish as int, INTERP_LIMIT as int,
                INTERP_LIMIT as int);
            assert(t.den * INTERP_LIMIT <= INTERP_LIMIT * INTERP_LIMIT) by (nonlinear_arith)
                requires
                    1 <= t.den <= INTERP_LIMIT,
                ;
        }
        match self.kind {
            InterpolationType::Null => Frac { num: self.start * t.den, den: t.den },
            InterpolationType::Linear => Frac {
                num: (t.den - t.num) * self.start + t.num * self.finish,
                den: t.den,
            },
        }
    }
}

} // verus!
