//! Turning-angle reparameterization.
//!
//! Structurally the same as the arc-length table, but each step
//! accumulates the absolute change of tangent direction instead of
//! distance.  Direction is measured in exact integer "diamond" units:
//! a full turn is `4 * ANGLE_SCALE`, and within each quadrant the
//! measure interpolates linearly in `y / (|x| + |y|)` (and its
//! rotations), which is monotone in the true angle.  The table walk
//! for threshold crossings interpolates each crossing linearly, as an
//! exact fraction.

use vstd::prelude::*;
use crate::arclenparameterization::{param_spec, table_parameterize, table_interpolate};
use crate::arclenparameterization::{STEP_LIMIT, TOTAL_LIMIT, SAMPLES_LIMIT, U_DEN_LIMIT};
use crate::bezier::deriv_num;
use crate::nums::{Frac, floor_div, lemma_floor_div_is_div, COORD_LIMIT, DERIV_DEN_LIMIT};
use crate::piecewise::Piecewise;
use crate::search::table_sorted;

verus! {

/// Angle units per quadrant: a full turn is `4 * ANGLE_SCALE`.
pub const ANGLE_SCALE: i64 = 65536;

/// A cumulative turning table: `total_angles[k]` is the accumulated
/// absolute direction change of the tangent from parameter 0 to
/// `k / (len - 1)`, in diamond angle units.
#[derive(Clone, Debug)]
pub struct AngleParameterization {
    pub total_angles: Vec<i64>,
}

/// Spec-level absolute value.
pub open spec fn abs_val(x: int) -> int {
    if x >= 0 {
        x
    } else {
        -x
    }
}

/// The diamond-angle direction of the vector `(x, y)`, in
/// `[0, 4 * ANGLE_SCALE)`: 0 points along the positive x axis and the
/// measure grows counterclockwise, linear in each quadrant.  The zero
/// vector measures 0.
pub open spec fn pseudo_angle(x: int, y: int) -> int {
    let s = abs_val(x) + abs_val(y);
    if s == 0 {
        0
    } else if x >= 0 && y >= 0 {
        (ANGLE_SCALE * y) / s
    } else if x < 0 && y >= 0 {
        ANGLE_SCALE + (ANGLE_SCALE * (-x)) / s
    } else if x < 0 {
        2 * ANGLE_SCALE + (ANGLE_SCALE * (-y)) / s
    } else {
        3 * ANGLE_SCALE + (ANGLE_SCALE * x) / s
    }
}

/// Absolute turning between two directions, the short way around the
/// circle: at most half a turn.
pub open spec fn turn_delta(p1: int, p2: int) -> int {
    let d = abs_val(p1 - p2);
    if 2 * d <= 4 * ANGLE_SCALE {
        d
    } else {
        4 * ANGLE_SCALE - d
    }
}

/// x component of the rounded tangent direction at `k / nn`.
pub open spec fn tangent_sample_x(pw: Piecewise, k: int, nn: int) -> int {
    let i = pw.seg_index_spec(k, nn);
    let ln = pw.local_num(k, nn);
    let ld = pw.local_den(k, nn);
    deriv_num(pw.segs@[i].w1.x as int, pw.segs@[i].w2.x as int, pw.segs@[i].w3.x as int,
        pw.segs@[i].w4.x as int, ln, ld) / (pw.segs@[i].den * ld * ld)
}

/// y component of the rounded tangent direction at `k / nn`.
pub open spec fn tangent_sample_y(pw: Piecewise, k: int, nn: int) -> int {
    let i = pw.seg_index_spec(k, nn);
    let ln = pw.local_num(k, nn);
    let ld = pw.local_den(k, nn);
    deriv_num(pw.segs@[i].w1.y as int, pw.segs@[i].w2.y as int, pw.segs@[i].w3.y as int,
        pw.segs@[i].w4.y as int, ln, ld) / (pw.segs@[i].den * ld * ld)
}

/// The diamond-angle direction of the tangent sample at `k / nn`.
pub open spec fn angle_sample(pw: Piecewise, k: int, nn: int) -> int {
    pseudo_angle(tangent_sample_x(pw, k, nn), tangent_sample_y(pw, k, nn))
}

/// Each increment of the cumulative table is the turning between the
/// two adjacent tangent samples.
pub open spec fn angles_match(s: Seq<i64>, pw: Piecewise, nn: int) -> bool {
    forall|k: int| 1 <= k < s.len()
        ==> (#[trigger] s[k]) - s[k - 1] == turn_delta(angle_sample(pw, k - 1, nn),
            angle_sample(pw, k, nn))
}

/// The crossings that a walk over the cumulative table `s` emits from
/// index `k` on, with `thr` the next multiple of the step to cross:
/// at the first index whose entry reaches `thr`, the crossing
/// parameter is interpolated between samples `k - 1` and `k` and the
/// threshold advances by `step`.  A flat step that reaches the
/// threshold emits the parameter of its left sample.
pub open spec fn crossings(s: Seq<i64>, step: int, k: int, thr: int) -> Seq<(int, int)>
    decreases s.len() - k,
{
    crossings_upto(s, step, k, thr, s.len() as int)
}

/// The same walk, stopped after table index `stop - 1`.
pub open spec fn crossings_upto(s: Seq<i64>, step: int, k: int, thr: int, stop: int)
    -> Seq<(int, int)>
    decreases stop - k,
{
    if k < 1 || k >= s.len() || k >= stop {
        Seq::empty()
    } else if s[k] >= thr {
        let gap = s[k] - s[k - 1];
        let entry = if gap > 0 {
            ((k - 1) * gap + (thr - s[k - 1]), (s.len() - 1) * gap)
        } else {
            (k - 1, s.len() - 1)
        };
        seq![entry] + crossings_upto(s, step, k + 1, thr + step, stop)
    } else {
        crossings_upto(s, step, k + 1, thr, stop)
    }
}


/// The table index nearest to the fractional position
/// `num / den * nn`, rounding half up.
pub open spec fn round_index(num: int, den: int, nn: int) -> int {
    (2 * num * nn + den) / (2 * den)
}

impl AngleParameterization {
    /// Well-formed cumulative table: starts at 0, never decreases,
    /// bounded length, and every single increment is bounded.
    pub open spec fn wf(self) -> bool {
        2 <= self.total_angles@.len() <= SAMPLES_LIMIT + 1
            && self.total_angles@[0] == 0
            && table_sorted(self.total_angles@)
            && (forall|k: int| 1 <= k < self.total_angles@.len()
                ==> (#[trigger] self.total_angles@[k]) - self.total_angles@[k - 1]
                    <= STEP_LIMIT)
            && (forall|k: int| 0 <= k < self.total_angles@.len()
                ==> 0 <= #[trigger] self.total_angles@[k] <= TOTAL_LIMIT)
    }

    /// Builds the cumulative turning table for `curve` from
    /// `iterations` uniform sampling steps: entry `k` accumulates the
    /// absolute diamond-angle changes between consecutive rounded
    /// tangent samples.
    pub fn from(curve: &Piecewise, iterations: usize) -> (r: AngleParameterization)
        requires
            curve.wf(),
            1 <= iterations <= SAMPLES_LIMIT,
            forall|k: int| 0 <= k <= iterations
                ==> curve.eval_ready(k, iterations as int),
        ensures
            r.wf(),
            r.total_angles@.len() == iterations + 1,
            r.total_angles@[0] == 0,
            angles_match(r.total_angles@, *curve, iterations as int),
    {
        let nn = iterations;
        let mut out: Vec<i64> = Vec::new();
        out.push(0);
        proof {
            assert(curve.eval_ready(0, nn as int));
        }
        let mut prev = tangent_angle(curve, 0, nn);
        let mut sum: i64 = 0;
        let mut k: usize = 1;
        while k <= nn
            invariant
                1 <= k <= nn + 1,
                1 <= nn <= SAMPLES_LIMIT,
                curve.wf(),
                forall|j: int| 0 <= j <= nn ==> curve.eval_ready(j, nn as int),
                out@.len() == k,
                out@[0] == 0,
                out@[k - 1] == sum,
                0 <= sum <= (k - 1) * STEP_LIMIT,
                prev == angle_sample(*curve, k - 1, nn as int),
                0 <= prev < 4 * ANGLE_SCALE,
                angles_match(out@, *curve, nn as int),
                table_sorted(out@),
                forall|j: int| 1 <= j < out@.len()
                    ==> (#[trigger] out@[j]) - out@[j - 1] <= STEP_LIMIT,
                forall|j: int| 0 <= j < out@.len()
                    ==> 0 <= #[trigger] out@[j] <= (k - 1) * STEP_LIMIT,
            decreases nn + 1 - k,
        {
            let cur = tangent_angle(curve, k, nn);
            let d = delta_angle(prev, cur);
            proof {
                assert((k - 1) * STEP_LIMIT + STEP_LIMIT == k * STEP_LIMIT) by (nonlinear_arith);
                assert(k * STEP_LIMIT <= (SAMPLES_LIMIT + 1) * STEP_LIMIT && (k - 1) * STEP_LIMIT
                    <= SAMPLES_LIMIT * STEP_LIMIT) by (nonlinear_arith)
                    requires
                        1 <= k <= SAMPLES_LIMIT,
                    ;
            }
            sum = sum + d;
            out.push(sum);
            prev = cur;
            k = k + 1;
        }
        proof {
            assert forall|j: int| 0 <= j < out@.len() implies 0 <= #[trigger] out@[j]
                <= TOTAL_LIMIT by {
                assert((nn as int) * STEP_LIMIT <= TOTAL_LIMIT) by (nonlinear_arith)
                    requires
                        1 <= nn <= SAMPLES_LIMIT,
                    ;
            }
        }
        AngleParameterization { total_angles: out }
    }

    /// The total accumulated turning: the last table entry.
    pub fn get_total_angle(&self) -> (r: i64)
        requires
            self.wf(),
        ensures
            r == self.total_angles@[self.total_angles@.len() - 1],
    {
        self.total_angles[self.total_angles.len() - 1]
    }

    /// Maps a turning-uniform parameter `u` back to the curve's
    /// native parameter, exactly as the arc-length lookup does on its
    /// table.
    pub fn parameterize(&self, u: Frac) -> (r: Frac)
        requires
            self.wf(),
            u.wf(),
            u.in_unit(),
            u.den <= U_DEN_LIMIT,
        ensures
            r.num == param_spec(self.total_angles@, u.num as int, u.den as int).0,
            r.den == param_spec(self.total_angles@, u.num as int, u.den as int).1,
            r.wf(),
    {
        table_parameterize(&self.total_angles, u)
    }

    /// The interpolated cumulative turning at the native parameter
    /// `t`.
    pub fn get_angle_from_t(&self, t: Frac) -> (r: Frac)
        requires
            self.wf(),
            t.wf(),
            t.in_unit(),
            t.den <= U_DEN_LIMIT,
        ensures
            ({
                let nn = self.total_angles@.len() - 1;
                let q = ((t.num as int) * nn) / (t.den as int);
                let rem = (t.num as int) * nn - q * (t.den as int);
                if q == nn {
                    r.num == self.total_angles@[nn] * t.den && r.den == t.den
                } else {
                    r.num == self.total_angles@[q] * (t.den - rem) + self.total_angles@[q + 1]
                        * rem && r.den == t.den
                }
            }),
            r.wf(),
    {
        table_interpolate(&self.total_angles, t)
    }


    /// The threshold-crossing walk restricted to the sub-range
    /// `[min_t, max_t]` of the parameter domain: the range ends are
    /// rounded to the nearest table indices, the first threshold is
    /// one interval above the cumulative turning at the range start,
    /// and the walk stops at the range end.
    pub fn find_parameters_for_angle_intervals_in_range(
        &self,
        angle_interval: i64,
        min_t: Frac,
        max_t: Frac,
    ) -> (r: Vec<Frac>)
        requires
            self.wf(),
            1 <= angle_interval <= TOTAL_LIMIT,
            min_t.wf(),
            min_t.in_unit(),
            min_t.den <= U_DEN_LIMIT,
            max_t.wf(),
            max_t.in_unit(),
            max_t.den <= U_DEN_LIMIT,
        ensures
            ({
                let nn = self.total_angles@.len() - 1;
                let lo = round_index(min_t.num as int, min_t.den as int, nn);
                let hi = round_index(max_t.num as int, max_t.den as int, nn);
                r@.map_values(|f: Frac| (f.num as int, f.den as int)) == crossings_upto(
                    self.total_angles@, angle_interval as int,
                    lo + 1, self.total_angles@[lo] + angle_interval, hi + 1)
            }),
            forall|j: int| 0 <= j < r@.len() ==> (#[trigger] r@[j]).wf(),
    {
        let nlen = self.total_angles.len();
        let nn: i64 = (nlen - 1) as i64;
        let lo = rounded_index_of(min_t, nn);
        let hi = rounded_index_of(max_t, nn);
        let mut out: Vec<Frac> = Vec::new();
        let ghost goal = crossings_upto(self.total_angles@, angle_interval as int,
            lo as int + 1, self.total_angles@[lo as int] + angle_interval, hi as int + 1);
        let ghost mut acc = Seq::<(int, int)>::empty();
        let base = self.total_angles[lo];
        let mut thr: i64 = base + angle_interval;
        let mut k: usize = lo + 1;
        proof {
            assert(1 * angle_interval <= (k as int) * angle_interval) by (nonlinear_arith)
                requires
                    1 <= k as int,
                    1 <= angle_interval,
                ;
        }
        while k < hi + 1 && k < nlen
            invariant
                lo + 1 <= k <= nlen,
                lo < nlen,
                hi <= nn,
                nn == nlen - 1,
                nlen == self.total_angles@.len(),
                self.wf(),
                1 <= angle_interval <= TOTAL_LIMIT,
                angle_interval <= thr,
                thr <= TOTAL_LIMIT + (k as int) * angle_interval,
                goal == crossings_upto(self.total_angles@, angle_interval as int,
                    lo as int + 1, self.total_angles@[lo as int] + angle_interval,
                    hi as int + 1),
                acc + crossings_upto(self.total_angles@, angle_interval as int, k as int,
                    thr as int, hi as int + 1) == goal,
                acc.len() == out@.len(),
                forall|j: int| 0 <= j < out@.len() ==> acc[j] == ((#[trigger] out@[j]).num
                    as int, out@[j].den as int),
                forall|j: int| 0 <= j < out@.len() ==> (#[trigger] out@[j]).wf(),
            decreases nlen - k,
        {
            proof {
                lemma_thr_bound(k as int, nlen as int, angle_interval as int, thr as int);
            }
            let ak = self.total_angles[k];
            if ak >= thr {
                let prev_a = self.total_angles[k - 1];
                let gap = ak - prev_a;
                let f: Frac = if gap > 0 {
                    proof {
                        lemma_crossing_bounds(k as int, gap as int, thr as int, prev_a as int,
                            nlen as int);
                    }
                    Frac {
                        num: ((k - 1) as i64) * gap + (thr - prev_a),
                        den: ((nlen - 1) as i64) * gap,
                    }
                } else {
                    Frac { num: (k - 1) as i64, den: (nlen - 1) as i64 }
                };
                out.push(f);
                proof {
                    let ghost rest = crossings_upto(self.total_angles@, angle_interval as int,
                        k as int + 1, thr as int + angle_interval, hi as int + 1);
                    assert(crossings_upto(self.total_angles@, angle_interval as int, k as int,
                        thr as int, hi as int + 1) == seq![(f.num as int, f.den as int)]
                        + rest);
                    assert(acc.push((f.num as int, f.den as int)) + rest =~= acc + (seq![(
                    f.num as int, f.den as int)] + rest));
                    acc = acc.push((f.num as int, f.den as int));
                }
                thr = thr + angle_interval;
            } else {
                proof {
                    assert(crossings_upto(self.total_angles@, angle_interval as int, k as int,
                        thr as int, hi as int + 1) == crossings_upto(self.total_angles@,
                        angle_interval as int, k as int + 1, thr as int, hi as int + 1));
                }
            }
            k = k + 1;
        }
        proof {
            assert(crossings_upto(self.total_angles@, angle_interval as int, k as int,
                thr as int, hi as int + 1) == Seq::<(int, int)>::empty());
            assert(acc + Seq::<(int, int)>::empty() =~= acc);
            assert(out@.map_values(|f: Frac| (f.num as int, f.den as int)) =~= acc);
        }
        out
    }

    /// The native parameters at which the cumulative turning crosses
    /// successive multiples of `angle_interval`, each interpolated
    /// linearly between the two bracketing samples.
    #[verifier::rlimit(60)]
    pub fn find_parameters_for_angle_intervals(&self, angle_interval: i64) -> (r: Vec<Frac>)
        requires
            self.wf(),
            1 <= angle_interval <= TOTAL_LIMIT,
        ensures
            r@.map_values(|f: Frac| (f.num as int, f.den as int)) == crossings(
                self.total_angles@, angle_interval as int, 1, angle_interval as int),
            forall|j: int| 0 <= j < r@.len() ==> (#[trigger] r@[j]).wf(),
    {
        let mut out: Vec<Frac> = Vec::new();
        let ghost goal = crossings(self.total_angles@, angle_interval as int, 1,
            angle_interval as int);
        let ghost mut acc = Seq::<(int, int)>::empty();
        let nlen = self.total_angles.len();
        let mut thr: i64 = angle_interval;
        let mut k: usize = 1;
        while k < nlen
            invariant
                1 <= k <= nlen,
                nlen == self.total_angles@.len(),
                self.wf(),
                1 <= angle_interval <= TOTAL_LIMIT,
                angle_interval <= thr,
                thr <= TOTAL_LIMIT + (k as int) * angle_interval,
                goal == crossings(self.total_angles@, angle_interval as int, 1,
                    angle_interval as int),
                acc + crossings(self.total_angles@, angle_interval as int, k as int,
                    thr as int) == goal,
                acc.len() == out@.len(),
                forall|j: int| 0 <= j < out@.len() ==> acc[j] == ((#[trigger] out@[j]).num
                    as int, out@[j].den as int),
                forall|j: int| 0 <= j < out@.len() ==> (#[trigger] out@[j]).wf(),
            decreases nlen - k,
        {
            proof {
                lemma_thr_bound(k as int, nlen as int, angle_interval as int, thr as int);
            }
            let ak = self.total_angles[k];
            if ak >= thr {
                let prev_a = self.total_angles[k - 1];
                let gap = ak - prev_a;
                let f: Frac = if gap > 0 {
                    proof {
                        lemma_crossing_bounds(k as int, gap as int, thr as int, prev_a as int,
                            nlen as int);
                    }
                    Frac {
                        num: ((k - 1) as i64) * gap + (thr - prev_a),
                        den: ((nlen - 1) as i64) * gap,
                    }
                } else {
                    Frac { num: (k - 1) as i64, den: (nlen - 1) as i64 }
                };
                out.push(f);
                proof {
                    let ghost rest = crossings(self.total_angles@, angle_interval as int,
                        k as int + 1, thr as int + angle_interval);
                    assert(crossings(self.total_angles@, angle_interval as int, k as int,
                        thr as int) == seq![(f.num as int, f.den as int)] + rest);
                    assert(acc.push((f.num as int, f.den as int)) + rest =~= acc + (seq![(
                    f.num as int, f.den as int)] + rest));
                    acc = acc.push((f.num as int, f.den as int));
                }
                thr = thr + angle_interval;
            } else {
                proof {
                    assert(crossings(self.total_angles@, angle_interval as int, k as int,
                        thr as int) == crossings(self.total_angles@, angle_interval as int,
                        k as int + 1, thr as int));
                }
            }
            k = k + 1;
        }
        proof {
            assert(crossings(self.total_angles@, angle_interval as int, nlen as int,
                thr as int) == Seq::<(int, int)>::empty());
            assert(acc + Seq::<(int, int)>::empty() =~= acc);
            assert(out@.map_values(|f: Frac| (f.num as int, f.den as int)) =~= acc);
        }
        out
    }
}


/// The nearest table index to `t * nn`, rounding half up.
fn rounded_index_of(t: Frac, nn: i64) -> (r: usize)
    requires
        t.wf(),
        t.in_unit(),
        t.den <= U_DEN_LIMIT,
        1 <= nn <= SAMPLES_LIMIT as i64,
    ensures
        r as int == round_index(t.num as int, t.den as int, nn as int),
        r <= nn,
{
    proof {
        assert(0 <= 2 * t.num * nn && 2 * t.num * nn <= 2 * ((U_DEN_LIMIT)
            * (SAMPLES_LIMIT as int))) by (nonlinear_arith)
            requires
                0 <= t.num <= U_DEN_LIMIT,
                1 <= nn <= SAMPLES_LIMIT as int,
            ;
    }
    let q = floor_div(2 * t.num * nn + t.den, 2 * t.den);
    proof {
        lemma_floor_div_is_div((2 * t.num * nn + t.den) as int, (2 * t.den) as int, q as int);
        assert(0 <= q && q <= nn) by (nonlinear_arith)
            requires
                (2 * t.den as int) * q <= 2 * t.num * nn + t.den,
                2 * t.num * nn + t.den < (2 * t.den as int) * (q + 1),
                0 <= t.num <= t.den,
                1 <= t.den,
                1 <= nn,
            ;
    }
    q as usize
}

/// The running threshold of the crossing walk stays in machine range.
proof fn lemma_thr_bound(k: int, nlen: int, step: int, thr: int)
    by (nonlinear_arith)
    requires
        1 <= k <= nlen,
        nlen <= SAMPLES_LIMIT + 1,
        1 <= step <= TOTAL_LIMIT,
        step <= thr <= TOTAL_LIMIT + k * step,
    ensures
        thr <= 0x1000_0000_0000_0000,
        thr + step <= TOTAL_LIMIT + (k + 1) * step,
{
}

/// Overflow bounds for a crossing's interpolation formula.
proof fn lemma_crossing_bounds(k: int, gap: int, thr: int, prev_a: int, nlen: int)
    by (nonlinear_arith)
    requires
        1 <= k <= nlen - 1,
        2 <= nlen <= SAMPLES_LIMIT + 1,
        1 <= gap <= STEP_LIMIT,
        0 <= prev_a <= TOTAL_LIMIT,
        prev_a + gap >= thr,
        1 <= thr <= 0x1000_0000_0000_0000,
    ensures
        -0x2000_0000_0000_0000 <= (k - 1) * gap + (thr - prev_a) <= 0x2000_0000_0000_0000,
        0 <= (k - 1) * gap <= 0x1000_0000_0000_0000,
        1 <= (nlen - 1) * gap <= 0x1000_0000_0000_0000,
{
}

/// The rounded tangent direction of the curve at sample `k / nn`, in
/// diamond angle units.
fn tangent_angle(curve: &Piecewise, k: usize, nn: usize) -> (r: i64)
    requires
        curve.wf(),
        1 <= nn <= SAMPLES_LIMIT,
        k <= nn,
        curve.eval_ready(k as int, nn as int),
    ensures
        r == angle_sample(*curve, k as int, nn as int),
        0 <= r < 4 * ANGLE_SCALE,
{
    let tp = curve.tangent_at(Frac { num: k as i64, den: nn as i64 });
    proof {
        lemma_tangent_floor_range(tp.x as int, tp.den as int);
        lemma_tangent_floor_range(tp.y as int, tp.den as int);
    }
    let tx = floor_div(tp.x, tp.den);
    let ty = floor_div(tp.y, tp.den);
    proof {
        lemma_floor_div_is_div(tp.x as int, tp.den as int, tx as int);
        lemma_floor_div_is_div(tp.y as int, tp.den as int, ty as int);
        lemma_tangent_floor_small(tp.x as int, tp.den as int, tx as int);
        lemma_tangent_floor_small(tp.y as int, tp.den as int, ty as int);
    }
    pseudo_angle_of(tx, ty)
}

/// A tangent numerator is small enough for floor division.
proof fn lemma_tangent_floor_range(a: int, b: int)
    by (nonlinear_arith)
    requires
        1 <= b <= DERIV_DEN_LIMIT,
        -(24 * (COORD_LIMIT * b)) <= a <= 24 * (COORD_LIMIT * b),
    ensures
        -0x7fff_ffff_ffff_ffff <= a,
{
}

/// The rounded tangent component is bounded by the tangent's value
/// range.
proof fn lemma_tangent_floor_small(a: int, b: int, r: int)
    by (nonlinear_arith)
    requires
        1 <= b,
        -(24 * (COORD_LIMIT * b)) <= a <= 24 * (COORD_LIMIT * b),
        b * r <= a < b * (r + 1),
    ensures
        -(24 * COORD_LIMIT) <= r <= 24 * COORD_LIMIT,
{
}

/// The diamond-angle direction of an integer vector.
fn pseudo_angle_of(x: i64, y: i64) -> (r: i64)
    requires
        -(24 * COORD_LIMIT) <= x <= 24 * COORD_LIMIT,
        -(24 * COORD_LIMIT) <= y <= 24 * COORD_LIMIT,
    ensures
        r == pseudo_angle(x as int, y as int),
        0 <= r < 4 * ANGLE_SCALE,
{
    let ax: i64 = if x >= 0 { x } else { -x };
    let ay: i64 = if y >= 0 { y } else { -y };
    let s: i64 = ax + ay;
    if s == 0 {
        return 0;
    }
    if x >= 0 && y >= 0 {
        quadrant_frac(y, s)
    } else if x < 0 && y >= 0 {
        ANGLE_SCALE + quadrant_frac(-x, s)
    } else if x < 0 {
        2 * ANGLE_SCALE + quadrant_frac(-y, s)
    } else {
        proof {
            assert(x < s);
        }
        3 * ANGLE_SCALE + quadrant_frac(x, s)
    }
}

/// One quadrant's worth of the diamond angle: `ANGLE_SCALE * v / s`
/// rounded down, which lies in `[0, ANGLE_SCALE]` for `0 <= v <= s`.
fn quadrant_frac(v: i64, s: i64) -> (r: i64)
    requires
        0 <= v <= s,
        1 <= s <= 0x1000_0000,
    ensures
        r == (ANGLE_SCALE * v) / (s as int),
        0 <= r <= ANGLE_SCALE,
        v < s ==> r < ANGLE_SCALE,
{
    proof {
        crate::nums::lemma_mul_bound(ANGLE_SCALE as int, v as int, ANGLE_SCALE as int,
            0x1000_0000);
    }
    let q = floor_div(ANGLE_SCALE * v, s);
    proof {
        lemma_floor_div_is_div((ANGLE_SCALE * v) as int, s as int, q as int);
        assert(0 <= q <= ANGLE_SCALE && (v < s ==> q < ANGLE_SCALE)) by (nonlinear_arith)
            requires
                (s as int) * q <= ANGLE_SCALE * v < (s as int) * (q + 1),
                0 <= v <= s,
                1 <= s,
                0 < ANGLE_SCALE,
            ;
    }
    q
}

/// The absolute turning between two directions, the short way around.
fn delta_angle(p1: i64, p2: i64) -> (r: i64)
    requires
        0 <= p1 < 4 * ANGLE_SCALE,
        0 <= p2 < 4 * ANGLE_SCALE,
    ensures
        r == turn_delta(p1 as int, p2 as int),
        0 <= r <= 2 * ANGLE_SCALE,
        r <= STEP_LIMIT,
{
    let d: i64 = if p1 >= p2 { p1 - p2 } else { p2 - p1 };
    if 2 * d <= 4 * ANGLE_SCALE {
        d
    } else {
        4 * ANGLE_SCALE - d
    }
}

} // verus!
