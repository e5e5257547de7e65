//! Arc-length reparameterization.
//!
//! The table samples a piecewise curve at uniform parameter steps,
//! rounds each sample to the integer grid, and accumulates the
//! rounded Euclidean distances between consecutive samples.  Every
//! entry is pinned exactly: the increment at step `k` is the integer
//! square root of the squared distance between the rounded samples.
//! Mapping a length-uniform parameter back to the curve parameter
//! brackets the target length with the shared interval search and
//! interpolates linearly, all in exact fractions.

use vstd::prelude::*;
use crate::nums::{Frac, floor_div, lemma_floor_div_is_div, rat_le, COORD_LIMIT};
use crate::piecewise::Piecewise;
use crate::search::{find_interval, floor_index, table_sorted};
use crate::vector::Vector;

verus! {

/// Largest single increment of a cumulative table entry.
pub const STEP_LIMIT: i64 = 4194304;

/// Largest cumulative table entry.
pub const TOTAL_LIMIT: i64 = 274877906944;

/// Largest sample count accepted when building a table.
pub const SAMPLES_LIMIT: usize = 65536;

/// Largest denominator accepted for a length-uniform parameter.
pub const U_DEN_LIMIT: i64 = 4096;

/// A cumulative arc-length table: `arclens[k]` is the rounded length
/// of the curve from parameter 0 to `k / (len - 1)`.
#[derive(Clone, Debug)]
pub struct ArcLengthParameterization {
    pub arclens: Vec<i64>,
}

/// x coordinate of the curve's value at `k / nn`, rounded down to the
/// integer grid.
pub open spec fn sample_x(pw: Piecewise, k: int, nn: int) -> int {
    let i = pw.seg_index_spec(k, nn);
    pw.segs@[i].eval_x(pw.local_num(k, nn), pw.local_den(k, nn)) / pw.segs@[i].eval_den(
        pw.local_den(k, nn))
}

/// y coordinate of the curve's value at `k / nn`, rounded down to the
/// integer grid.
pub open spec fn sample_y(pw: Piecewise, k: int, nn: int) -> int {
    let i = pw.seg_index_spec(k, nn);
    pw.segs@[i].eval_y(pw.local_num(k, nn), pw.local_den(k, nn)) / pw.segs@[i].eval_den(
        pw.local_den(k, nn))
}

/// Squared distance between the rounded samples at `j / nn` and
/// `k / nn`.
pub open spec fn sample_dist_sq(pw: Piecewise, j: int, k: int, nn: int) -> int {
    (sample_x(pw, k, nn) - sample_x(pw, j, nn)) * (sample_x(pw, k, nn) - sample_x(pw, j, nn))
        + (sample_y(pw, k, nn) - sample_y(pw, j, nn)) * (sample_y(pw, k, nn) - sample_y(pw, j,
            nn))
}

/// The cumulative table entry increments match the rounded sample
/// distances: each increment is the integer square root of the
/// squared sample distance of its step.
pub open spec fn arclens_match(s: Seq<i64>, pw: Piecewise, nn: int) -> bool {
    forall|k: int| 1 <= k < s.len()
        ==> ((#[trigger] s[k]) - s[k - 1]) * (s[k] - s[k - 1]) <= sample_dist_sq(pw, k - 1, k,
            nn) && sample_dist_sq(pw, k - 1, k, nn) < (s[k] - s[k - 1] + 1) * (s[k] - s[k - 1]
            + 1)
}

/// The exact result of mapping the length-uniform parameter
/// `un / ud` through the table `s`: the bracketing interval of the
/// target length `un * total / ud`, then linear interpolation inside
/// it.  A target that hits a table entry exactly maps to that entry's
/// uniform parameter.
pub open spec fn param_spec(s: Seq<i64>, un: int, ud: int) -> (int, int) {
    let total = s[s.len() - 1];
    let target = un * total;
    let i = floor_index(s, target, ud);
    if target == s[i] * ud {
        (i, s.len() - 1)
    } else {
        (
            i * (ud * (s[i + 1] - s[i])) + (target - s[i] * ud),
            (s.len() - 1) * (ud * (s[i + 1] - s[i])),
        )
    }
}

impl ArcLengthParameterization {
    /// Well-formed cumulative table: starts at 0, never decreases,
    /// bounded length, and every single increment is bounded.
    pub open spec fn wf(self) -> bool {
        2 <= self.arclens@.len() <= SAMPLES_LIMIT + 1
            && self.arclens@[0] == 0
            && table_sorted(self.arclens@)
            && (forall|k: int| 1 <= k < self.arclens@.len()
                ==> (#[trigger] self.arclens@[k]) - self.arclens@[k - 1] <= STEP_LIMIT)
            && (forall|k: int| 0 <= k < self.arclens@.len()
                ==> 0 <= #[trigger] self.arclens@[k] <= TOTAL_LIMIT)
    }

    /// Builds the cumulative table for `curve` from `iterations`
    /// uniform sampling steps.  The table has `iterations + 1`
    /// entries; entry `k` accumulates the rounded distances between
    /// the rounded curve samples at parameters `0/N .. k/N`.
    pub fn from(curve: &Piecewise, iterations: usize) -> (r: ArcLengthParameterization)
        requires
            curve.wf(),
            1 <= iterations <= SAMPLES_LIMIT,
            forall|k: int| 0 <= k <= iterations
                ==> curve.eval_ready(k, iterations as int),
        ensures
            r.wf(),
            r.arclens@.len() == iterations + 1,
            r.arclens@[0] == 0,
            arclens_match(r.arclens@, *curve, iterations as int),
            table_sorted(r.arclens@),
    {
        let nn = iterations;
        let mut out: Vec<i64> = Vec::new();
        out.push(0);
        proof {
            assert(curve.eval_ready(0, nn as int));
        }
        let p0 = curve.at(Frac { num: 0, den: nn as i64 });
        let mut prev = round_point(p0);
        proof {
            lemma_sample_round(curve, 0, nn as int, p0, prev);
        }
        let mut sum: i64 = 0;
        let mut k: usize = 1;
        while k <= nn
            invariant
                1 <= k <= nn + 1,
                1 <= nn <= SAMPLES_LIMIT,
                curve.wf(),
                forall|j: int| 0 <= j <= nn ==> curve.eval_ready(j, nn as int),
                out@.len() == k,
                out@[0] == 0,
                out@[k - 1] == sum,
                0 <= sum <= (k - 1) * STEP_LIMIT,
                (k - 1) * STEP_LIMIT <= SAMPLES_LIMIT * STEP_LIMIT,
                prev.x == sample_x(*curve, k - 1, nn as int),
                prev.y == sample_y(*curve, k - 1, nn as int),
                -COORD_LIMIT <= prev.x <= COORD_LIMIT,
                -COORD_LIMIT <= prev.y <= COORD_LIMIT,
                arclens_match(out@, *curve, nn as int),
                table_sorted(out@),
                forall|j: int| 1 <= j < out@.len()
                    ==> (#[trigger] out@[j]) - out@[j - 1] <= STEP_LIMIT,
                forall|j: int| 0 <= j < out@.len()
                    ==> 0 <= #[trigger] out@[j] <= (k - 1) * STEP_LIMIT,
            decreases nn + 1 - k,
        {
            let p = curve.at(Frac { num: k as i64, den: nn as i64 });
            let cur = round_point(p);
            proof {
                lemma_sample_round(curve, k as int, nn as int, p, cur);
            }
            let d = prev.distance(cur);
            proof {
                lemma_dist_sym(prev.x as int, prev.y as int, cur.x as int, cur.y as int);
                lemma_step_bound(prev, cur, d as int);
                assert((k - 1) * STEP_LIMIT + STEP_LIMIT == k * STEP_LIMIT) by (nonlinear_arith);
                assert(k * STEP_LIMIT <= (SAMPLES_LIMIT + 1) * STEP_LIMIT && (k - 1) * STEP_LIMIT
                    <= SAMPLES_LIMIT * STEP_LIMIT) by (nonlinear_arith)
                    requires
                        1 <= k <= SAMPLES_LIMIT,
                    ;
            }
            sum = sum + d;
            out.push(sum);
            prev = cur;
            k = k + 1;
        }
        proof {
            assert forall|j: int| 0 <= j < out@.len() implies 0 <= #[trigger] out@[j]
                <= TOTAL_LIMIT by {
                assert((nn as int) * STEP_LIMIT <= TOTAL_LIMIT) by (nonlinear_arith)
                    requires
                        1 <= nn <= SAMPLES_LIMIT,
                    ;
            }
        }
        ArcLengthParameterization { arclens: out }
    }

    /// The total accumulated length: the last table entry.
    pub fn get_total_arclen(&self) -> (r: i64)
        requires
            self.wf(),
        ensures
            r == self.arclens@[self.arclens@.len() - 1],
    {
        self.arclens[self.arclens.len() - 1]
    }

    /// Maps a length-uniform parameter `u` back to the curve's native
    /// parameter: the target length `u * total` is bracketed in the
    /// table and linearly interpolated inside the bracketing
    /// interval.  The result is `param_spec` of the table, exactly.
    pub fn parameterize(&self, u: Frac) -> (r: Frac)
        requires
            self.wf(),
            u.wf(),
            u.in_unit(),
            u.den <= U_DEN_LIMIT,
        ensures
            r.num == param_spec(self.arclens@, u.num as int, u.den as int).0,
            r.den == param_spec(self.arclens@, u.num as int, u.den as int).1,
            r.wf(),
    {
        table_parameterize(&self.arclens, u)
    }

    /// The interpolated cumulative length at the native parameter
    /// `t`: the fractional table index `t * (len - 1)` is split into
    /// whole and fractional parts and the two bracketing entries are
    /// mixed exactly.  The result is a fraction over `t`'s
    /// denominator.
    pub fn get_arclen_from_t(&self, t: Frac) -> (r: Frac)
        requires
            self.wf(),
            t.wf(),
            t.in_unit(),
            t.den <= U_DEN_LIMIT,
        ensures
            ({
                let nn = self.arclens@.len() - 1;
                let q = ((t.num as int) * nn) / (t.den as int);
                let rem = (t.num as int) * nn - q * (t.den as int);
                if q == nn {
                    r.num == self.arclens@[nn] * t.den && r.den == t.den
                } else {
                    r.num == self.arclens@[q] * (t.den - rem) + self.arclens@[q + 1] * rem
                        && r.den == t.den
                }
            }),
            r.wf(),
    {
        table_interpolate(&self.arclens, t)
    }
}

/// Shared lookup for cumulative tables: brackets the target
/// `u * total` and interpolates, returning `param_spec` exactly.
pub(crate) fn table_parameterize(table: &Vec<i64>, u: Frac) -> (r: Frac)
    requires
        2 <= table@.len() <= SAMPLES_LIMIT + 1,
        table@[0] == 0,
        table_sorted(table@),
        forall|k: int| 1 <= k < table@.len()
            ==> (#[trigger] table@[k]) - table@[k - 1] <= STEP_LIMIT,
        forall|k: int| 0 <= k < table@.len() ==> 0 <= #[trigger] table@[k] <= TOTAL_LIMIT,
        u.wf(),
        u.in_unit(),
        u.den <= U_DEN_LIMIT,
    ensures
        r.num == param_spec(table@, u.num as int, u.den as int).0,
        r.den == param_spec(table@, u.num as int, u.den as int).1,
        r.wf(),
{
    let nlen = table.len();
    let total = table[nlen - 1];
    proof {
        lemma_table_scale(table@, u.den as int);
        assert(0 <= u.num * total <= U_DEN_LIMIT * TOTAL_LIMIT) by (nonlinear_arith)
            requires
                0 <= u.num <= U_DEN_LIMIT,
                0 <= total <= TOTAL_LIMIT,
            ;
        assert(table@[0] * u.den == 0) by (nonlinear_arith)
            requires
                table@[0] == 0,
            ;
    }
    let target: i64 = u.num * total;
    let res = find_interval(table, target, u.den);
    let i = match res {
        Ok(i) => i,
        Err(_) => {
            proof {
                assert(false);
            }
            0
        },
    };
    let ai = table[i];
    proof {
        crate::search::lemma_floor_index_props(table@, target as int, u.den as int);
    }
    if target == ai * u.den {
        Frac { num: i as i64, den: (nlen - 1) as i64 }
    } else {
        proof {
            assert(u.num * total <= total * u.den && total * u.den == table@[table@.len() - 1]
                * u.den) by (nonlinear_arith)
                requires
                    0 <= u.num <= u.den,
                    0 <= total,
                    total == table@[table@.len() - 1],
                ;
            lemma_gap_positive(table@, target as int, u.den as int, i as int);
        }
        let gap = table[i + 1] - ai;
        proof {
            assert(1 <= gap <= STEP_LIMIT);
            lemma_param_formula_bounds(i as int, u.den as int, gap as int, target as int,
                ai as int, nlen as int);
        }
        let scaled_gap: i64 = u.den * gap;
        let num: i64 = (i as i64) * scaled_gap + (target - ai * u.den);
        let den: i64 = ((nlen - 1) as i64) * scaled_gap;
        Frac { num, den }
    }
}

/// Shared interpolation for cumulative tables: mixes the two entries
/// bracketing the fractional index `t * (len - 1)`.
pub(crate) fn table_interpolate(table: &Vec<i64>, t: Frac) -> (r: Frac)
    requires
        2 <= table@.len() <= SAMPLES_LIMIT + 1,
        table_sorted(table@),
        forall|k: int| 0 <= k < table@.len() ==> 0 <= #[trigger] table@[k] <= TOTAL_LIMIT,
        t.wf(),
        t.in_unit(),
        t.den <= U_DEN_LIMIT,
    ensures
        ({
            let nn = table@.len() - 1;
            let q = ((t.num as int) * nn) / (t.den as int);
            let rem = (t.num as int) * nn - q * (t.den as int);
            if q == nn {
                r.num == table@[nn] * t.den && r.den == t.den
            } else {
                r.num == table@[q] * (t.den - rem) + table@[q + 1] * rem && r.den == t.den
            }
        }),
        r.wf(),
{
    let nlen = table.len();
    let nn: i64 = (nlen - 1) as i64;
    proof {
        assert(0 <= t.num * nn <= U_DEN_LIMIT * (SAMPLES_LIMIT as int)) by (nonlinear_arith)
            requires
                0 <= t.num <= t.den <= U_DEN_LIMIT,
                1 <= nn <= SAMPLES_LIMIT as int,
            ;
    }
    let fidx: i64 = t.num * nn;
    let q = floor_div(fidx, t.den);
    proof {
        lemma_floor_div_is_div(fidx as int, t.den as int, q as int);
        assert(0 <= q <= nn) by (nonlinear_arith)
            requires
                t.den * q <= fidx < t.den * (q + 1),
                0 <= fidx,
                fidx == t.num * nn,
                0 <= t.num <= t.den,
                1 <= t.den,
                1 <= nn,
            ;
    }
    proof {
        crate::nums::lemma_mul_bound(q as int, t.den as int, SAMPLES_LIMIT as int,
            U_DEN_LIMIT as int);
    }
    let rem: i64 = fidx - q * t.den;
    proof {
        assert(0 <= rem < t.den) by (nonlinear_arith)
            requires
                t.den * q <= fidx < t.den * (q + 1),
                rem == fidx - q * t.den,
            ;
    }
    if q == nn {
        proof {
            crate::nums::lemma_mul_bound(table@[nn as int] as int, t.den as int,
                TOTAL_LIMIT as int, U_DEN_LIMIT as int);
        }
        Frac { num: table[nlen - 1] * t.den, den: t.den }
    } else {
        proof {
            crate::nums::lemma_mul_bound(table@[q as int] as int, (t.den - rem) as int,
                TOTAL_LIMIT as int, U_DEN_LIMIT as int);
            crate::nums::lemma_mul_bound(table@[q as int + 1] as int, rem as int,
                TOTAL_LIMIT as int, U_DEN_LIMIT as int);
        }
        let a0 = table[q as usize];
        let a1 = table[q as usize + 1];
        Frac { num: a0 * (t.den - rem) + a1 * rem, den: t.den }
    }
}

/// Rounds a rational point down to the integer grid, one coordinate
/// at a time.
fn round_point(p: crate::nums::RatPoint) -> (r: Vector)
    requires
        p.wf(),
        p.den <= crate::nums::EVAL_DEN_LIMIT,
        p.coords_within(COORD_LIMIT as int),
    ensures
        r.x == (p.x as int) / (p.den as int),
        r.y == (p.y as int) / (p.den as int),
        -COORD_LIMIT <= r.x <= COORD_LIMIT,
        -COORD_LIMIT <= r.y <= COORD_LIMIT,
{
    proof {
        lemma_coord_in_div_range(p.x as int, p.den as int);
        lemma_coord_in_div_range(p.y as int, p.den as int);
    }
    let x = floor_div(p.x, p.den);
    let y = floor_div(p.y, p.den);
    proof {
        lemma_floor_div_is_div(p.x as int, p.den as int, x as int);
        lemma_floor_div_is_div(p.y as int, p.den as int, y as int);
        lemma_floor_in_coord_range(p.x as int, p.den as int, x as int);
        lemma_floor_in_coord_range(p.y as int, p.den as int, y as int);
    }
    Vector { x, y }
}

/// A coordinate numerator within the coordinate range also lies in
/// the range accepted by floor division.
proof fn lemma_coord_in_div_range(a: int, b: int)
    by (nonlinear_arith)
    requires
        1 <= b,
        -(COORD_LIMIT * b) <= a <= COORD_LIMIT * b,
        b <= crate::nums::EVAL_DEN_LIMIT,
    ensures
        -0x7fff_ffff_ffff_ffff <= a,
{
}

/// The rounded coordinate of an in-range numerator stays in the
/// coordinate range.
proof fn lemma_floor_in_coord_range(a: int, b: int, r: int)
    by (nonlinear_arith)
    requires
        1 <= b,
        -(COORD_LIMIT * b) <= a <= COORD_LIMIT * b,
        b * r <= a < b * (r + 1),
    ensures
        -COORD_LIMIT <= r <= COORD_LIMIT,
{
}

/// Ties a rounded evaluation result to the spec-level sample.
proof fn lemma_sample_round(
    pw: &Piecewise,
    k: int,
    nn: int,
    p: crate::nums::RatPoint,
    v: Vector,
)
    requires
        pw.eval_ready(k, nn),
        p.x == pw.segs@[pw.seg_index_spec(k, nn)].eval_x(pw.local_num(k, nn), pw.local_den(k,
            nn)),
        p.y == pw.segs@[pw.seg_index_spec(k, nn)].eval_y(pw.local_num(k, nn), pw.local_den(k,
            nn)),
        p.den == pw.segs@[pw.seg_index_spec(k, nn)].eval_den(pw.local_den(k, nn)),
        v.x == (p.x as int) / (p.den as int),
        v.y == (p.y as int) / (p.den as int),
    ensures
        v.x == sample_x(*pw, k, nn),
        v.y == sample_y(*pw, k, nn),
{
}

/// Squared distance is symmetric in its endpoints.
proof fn lemma_dist_sym(ax: int, ay: int, bx: int, by: int)
    by (nonlinear_arith)
    ensures
        (ax - bx) * (ax - bx) + (ay - by) * (ay - by)
            == (bx - ax) * (bx - ax) + (by - ay) * (by - ay),
{
}

/// A rounded single-step distance respects the step bound.
proof fn lemma_step_bound(a: Vector, b: Vector, d: int)
    by (nonlinear_arith)
    requires
        -COORD_LIMIT <= a.x <= COORD_LIMIT,
        -COORD_LIMIT <= a.y <= COORD_LIMIT,
        -COORD_LIMIT <= b.x <= COORD_LIMIT,
        -COORD_LIMIT <= b.y <= COORD_LIMIT,
        0 <= d,
        d * d <= (a.x - b.x) * (a.x - b.x) + (a.y - b.y) * (a.y - b.y),
    ensures
        d <= STEP_LIMIT,
{
}

/// Every table entry scaled by the parameter denominator stays well
/// inside the `i64` range.
proof fn lemma_table_scale(s: Seq<i64>, den: int)
    requires
        1 <= den <= U_DEN_LIMIT,
        forall|k: int| 0 <= k < s.len() ==> 0 <= #[trigger] s[k] <= TOTAL_LIMIT,
    ensures
        crate::search::table_scale_ok(s, den),
{
    assert forall|k: int| 0 <= k < s.len() implies -0x4000_0000_0000_0000 <= #[trigger] (
    s[k] * den) <= 0x4000_0000_0000_0000 by {
        crate::nums::lemma_mul_bound(s[k] as int, den, TOTAL_LIMIT as int, U_DEN_LIMIT as int);
    }
}

/// Inside `parameterize`, when the target does not hit a table entry
/// exactly, the bracketing interval has a positive gap.
proof fn lemma_gap_positive(s: Seq<i64>, target: int, den: int, i: int)
    requires
        2 <= s.len(),
        table_sorted(s),
        s[0] == 0,
        1 <= den,
        0 <= target,
        target <= s[s.len() - 1] * den,
        i == floor_index(s, target, den),
        s[i] * den <= target,
        target != s[i] * den,
        forall|j: int| i < j <= s.len() - 2 ==> #[trigger] (s[j] * den) > target,
        0 <= i <= s.len() - 2,
    ensures
        s[i] < s[i + 1],
{
    if s[i + 1] <= s[i] {
        assert(s[i] <= s[i + 1]);
        assert(s[i + 1] == s[i]);
        if i + 1 <= s.len() - 2 {
            assert(s[i + 1] * den > target);
        } else {
            assert(i + 1 == s.len() - 1);
            assert(s[i + 1] * den >= target);
            assert(s[i + 1] * den == s[i] * den);
            assert(s[i] * den < target);
        }
    }
}

/// Overflow bounds for the interpolation formula of `parameterize`.
proof fn lemma_param_formula_bounds(i: int, ud: int, gap: int, target: int, ai: int, nlen: int)
    by (nonlinear_arith)
    requires
        0 <= i <= nlen - 2,
        2 <= nlen <= SAMPLES_LIMIT + 1,
        1 <= ud <= U_DEN_LIMIT,
        1 <= gap <= STEP_LIMIT,
        0 <= target <= U_DEN_LIMIT * TOTAL_LIMIT,
        0 <= ai <= TOTAL_LIMIT,
        ai * ud <= target,
    ensures
        1 <= ud * gap <= U_DEN_LIMIT * STEP_LIMIT,
        0 <= i * (ud * gap) <= 0x1000_0000_0000_0000,
        0 <= target - ai * ud <= 0x1000_0000_0000_0000,
        1 <= (nlen - 1) * (ud * gap) <= 0x1000_0000_0000_0000,
{
}

/// Multiplying an inequality by a positive factor, and cancelling one.
proof fn lemma_mul_cancel(x: int, y: int, d: int)
    by (nonlinear_arith)
    requires
        1 <= d,
        x * d <= y * d,
    ensures
        x <= y,
{
}

/// A table threshold below one rational target is below any larger
/// rational target.
proof fn lemma_rat_threshold(c: int, n1: int, d1: int, n2: int, d2: int)
    by (nonlinear_arith)
    requires
        1 <= d1,
        1 <= d2,
        c * d1 <= n1,
        n1 * d2 <= n2 * d1,
    ensures
        c * d2 <= n2,
{
}

/// The bracketing index never moves earlier when the rational target
/// grows: `floor_index` is monotone across targets with different
/// denominators.
pub proof fn lemma_floor_index_monotone_rat(s: Seq<i64>, n1: int, d1: int, n2: int, d2: int)
    requires
        s.len() >= 2,
        1 <= d1,
        1 <= d2,
        s[0] * d1 <= n1,
        n1 * d2 <= n2 * d1,
    ensures
        floor_index(s, n1, d1) <= floor_index(s, n2, d2),
        s[0] * d2 <= n2,
    decreases s.len(),
{
    lemma_rat_threshold(s[0] as int, n1, d1, n2, d2);
    if s.len() <= 2 {
    } else if s[s.len() - 2] * d1 <= n1 {
        lemma_rat_threshold(s[s.len() - 2] as int, n1, d1, n2, d2);
    } else if s[s.len() - 2] * d2 <= n2 {
        assert(s.drop_last()[0] == s[0]);
        crate::search::lemma_floor_index_props(s.drop_last(), n1, d1);
    } else {
        assert(s.drop_last()[0] == s[0]);
        lemma_floor_index_monotone_rat(s.drop_last(), n1, d1, n2, d2);
    }
}

/// The interpolated lookup value lies at or after its interval's left
/// end and at or before the interval's right end: as a rational,
/// `i / (len-1) <= param_spec <= (i+1) / (len-1)`.
proof fn lemma_param_spec_interval(s: Seq<i64>, un: int, ud: int)
    requires
        2 <= s.len() <= SAMPLES_LIMIT + 1,
        s[0] == 0,
        table_sorted(s),
        0 <= un <= ud,
        1 <= ud <= U_DEN_LIMIT,
        forall|k: int| 0 <= k < s.len() ==> 0 <= #[trigger] s[k] <= TOTAL_LIMIT,
    ensures
        ({
            let i = floor_index(s, un * s[s.len() - 1], ud);
            let v = param_spec(s, un, ud);
            1 <= v.1 && rat_le(i, s.len() - 1, v.0, v.1) && rat_le(v.0, v.1, i + 1, s.len()
                - 1)
        }),
{
    let total = s[s.len() - 1] as int;
    let nn = s.len() - 1;
    let target = un * total;
    assert(0 <= target && target <= total * ud && s[0] * ud == 0) by (nonlinear_arith)
        requires
            0 <= un <= ud,
            0 <= total,
            s[0] == 0,
            target == un * total,
        ;
    crate::search::lemma_floor_index_props(s, target, ud);
    let i = floor_index(s, target, ud);
    let v = param_spec(s, un, ud);
    if target == s[i] * ud {
        assert(v.0 == i && v.1 == nn);
        assert(rat_le(i, nn, i, nn));
        assert(i * nn <= (i + 1) * nn) by (nonlinear_arith)
            requires
                0 <= nn,
            ;
    } else {
        lemma_gap_positive_pub(s, target, ud, i);
        let gap = s[i + 1] - s[i];
        let f = target - s[i] * ud;
        // the target stays at or below the right cut of its interval
        if i + 2 < s.len() {
            assert(s[i + 1] * ud > target);
        } else {
            assert(i + 1 == s.len() - 1);
            assert(target <= s[i + 1] * ud) by (nonlinear_arith)
                requires
                    target <= total * ud,
                    total == s[i + 1],
                ;
        }
        assert(f <= ud * gap && 0 <= f && 1 <= ud * gap) by (nonlinear_arith)
            requires
                f == target - s[i] * ud,
                s[i] * ud <= target,
                target <= s[i + 1] * ud,
                gap == s[i + 1] - s[i],
                1 <= gap,
                1 <= ud,
            ;
        assert(v.0 == i * (ud * gap) + f && v.1 == nn * (ud * gap));
        assert(1 <= nn * (ud * gap)) by (nonlinear_arith)
            requires
                1 <= nn,
                1 <= ud * gap,
            ;
        assert(i * (nn * (ud * gap)) <= (i * (ud * gap) + f) * nn) by (nonlinear_arith)
            requires
                0 <= f,
                0 <= i,
                0 <= nn,
                0 <= ud * gap,
            ;
        assert((i * (ud * gap) + f) * nn <= (i + 1) * (nn * (ud * gap))) by (nonlinear_arith)
            requires
                f <= ud * gap,
                0 <= i,
                0 <= nn,
                0 <= ud * gap,
            ;
    }
}

/// `lemma_gap_positive` packaged over the facts the interval lemma
/// has at hand.
proof fn lemma_gap_positive_pub(s: Seq<i64>, target: int, den: int, i: int)
    requires
        2 <= s.len(),
        table_sorted(s),
        s[0] == 0,
        1 <= den,
        0 <= target,
        target <= s[s.len() - 1] * den,
        i == floor_index(s, target, den),
        target != s[i] * den,
    ensures
        s[i] < s[i + 1],
        0 <= i <= s.len() - 2,
        s[i] * den <= target,
{
    crate::search::lemma_floor_index_props(s, target, den);
    lemma_gap_positive(s, target, den, i);
}

/// Monotonicity of the table lookup: a larger length-uniform
/// parameter never maps to a smaller curve parameter.
pub proof fn lemma_parameterize_monotone(s: Seq<i64>, u1n: int, u1d: int, u2n: int, u2d: int)
    requires
        2 <= s.len() <= SAMPLES_LIMIT + 1,
        s[0] == 0,
        table_sorted(s),
        forall|k: int| 0 <= k < s.len() ==> 0 <= #[trigger] s[k] <= TOTAL_LIMIT,
        0 <= u1n <= u1d,
        1 <= u1d <= U_DEN_LIMIT,
        0 <= u2n <= u2d,
        1 <= u2d <= U_DEN_LIMIT,
        rat_le(u1n, u1d, u2n, u2d),
    ensures
        ({
            let v1 = param_spec(s, u1n, u1d);
            let v2 = param_spec(s, u2n, u2d);
            1 <= v1.1 && 1 <= v2.1 && rat_le(v1.0, v1.1, v2.0, v2.1)
        }),
{
    let total = s[s.len() - 1] as int;
    let nn = s.len() - 1;
    let t1 = u1n * total;
    let t2 = u2n * total;
    assert(0 <= t1 && 0 <= t2 && t1 <= total * u1d && t2 <= total * u2d && t1 * u2d <= t2 * u1d
        && s[0] * u1d == 0 && s[0] * u2d == 0) by (nonlinear_arith)
        requires
            0 <= u1n <= u1d,
            0 <= u2n <= u2d,
            0 <= total,
            s[0] == 0,
            u1n * u2d <= u2n * u1d,
            t1 == u1n * total,
            t2 == u2n * total,
        ;
    crate::search::lemma_floor_index_props(s, t1, u1d);
    crate::search::lemma_floor_index_props(s, t2, u2d);
    lemma_floor_index_monotone_rat(s, t1, u1d, t2, u2d);
    lemma_param_spec_interval(s, u1n, u1d);
    lemma_param_spec_interval(s, u2n, u2d);
    let i1 = floor_index(s, t1, u1d);
    let i2 = floor_index(s, t2, u2d);
    let v1 = param_spec(s, u1n, u1d);
    let v2 = param_spec(s, u2n, u2d);
    if i1 < i2 {
        // through the cut between the two intervals:
        // v1 <= (i1+1)/nn <= i2/nn <= v2
        assert((i1 + 1) * nn <= i2 * nn) by (nonlinear_arith)
            requires
                i1 + 1 <= i2,
                0 <= nn,
            ;
        crate::nums::lemma_rat_le_trans(v1.0 as int, v1.1 as int, i1 + 1, nn, i2, nn);
        crate::nums::lemma_rat_le_trans(v1.0 as int, v1.1 as int, i2, nn, v2.0 as int,
            v2.1 as int);
    } else {
        let i = i1;
        if t1 == s[i] * u1d {
            if t2 == s[i] * u2d {
                assert(v1 == (i, nn as int) && v2 == (i, nn as int));
            } else {
                // v1 is exactly i/nn, and v2 is at least that
                assert(rat_le(v1.0 as int, v1.1 as int, v2.0 as int, v2.1 as int));
            }
        } else {
            if t2 == s[i] * u2d {
                // impossible: the first target would hit the entry too
                assert(t1 * u2d <= s[i] * u2d * u1d) by (nonlinear_arith)
                    requires
                        t1 * u2d <= t2 * u1d,
                        t2 == s[i] * u2d,
                    ;
                assert(t1 <= s[i] * u1d) by (nonlinear_arith)
                    requires
                        t1 * u2d <= s[i] * u2d * u1d,
                        1 <= u2d,
                    ;
                assert(false);
            } else {
                // both interpolate in the same interval with the same
                // gap; the comparison reduces to the targets
                lemma_gap_positive_pub(s, t1, u1d, i);
                let gap = s[i + 1] - s[i];
                let f1 = t1 - s[i] * u1d;
                let f2 = t2 - s[i] * u2d;
                assert(f1 * u2d <= f2 * u1d) by (nonlinear_arith)
                    requires
                        f1 == t1 - s[i] * u1d,
                        f2 == t2 - s[i] * u2d,
                        t1 * u2d <= t2 * u1d,
                    ;
                assert(v1.0 == i * (u1d * gap) + f1 && v1.1 == nn * (u1d * gap));
                assert(v2.0 == i * (u2d * gap) + f2 && v2.1 == nn * (u2d * gap));
                lemma_same_interval_le(i, nn, u1d, u2d, gap, f1, f2);
            }
        }
    }
}

/// In one interval, a larger remainder gives a larger interpolated
/// value: the whole comparison reduces to `f1/u1d <= f2/u2d`.
proof fn lemma_same_interval_le(i: int, nn: int, u1d: int, u2d: int, gap: int, f1: int, f2: int)
    requires
        0 <= i,
        1 <= nn,
        1 <= u1d,
        1 <= u2d,
        1 <= gap,
        0 <= f1,
        0 <= f2,
        f1 * u2d <= f2 * u1d,
    ensures
        rat_le(i * (u1d * gap) + f1, nn * (u1d * gap), i * (u2d * gap) + f2, nn * (u2d * gap)),
{
    assert((i * (u1d * gap) + f1) * (nn * (u2d * gap)) <= (i * (u2d * gap) + f2) * (nn * (u1d
        * gap))) by (nonlinear_arith)
        requires
            0 <= i,
            1 <= nn,
            1 <= u1d,
            1 <= u2d,
            1 <= gap,
            0 <= f1,
            0 <= f2,
            f1 * u2d <= f2 * u1d,
        ;
}

/// Identity pacing law: when the cumulative table grows by the same
/// amount `c` at every step (as it does for a line traversed at
/// uniform speed, whose distance accumulates linearly), the lookup is
/// the identity: `param_spec(u) == u` as rationals.
pub proof fn lemma_uniform_table_identity(s: Seq<i64>, c: int, un: int, ud: int)
    requires
        2 <= s.len() <= SAMPLES_LIMIT + 1,
        1 <= c,
        forall|k: int| 0 <= k < s.len() ==> #[trigger] s[k] == c * k,
        forall|k: int| 0 <= k < s.len() ==> 0 <= #[trigger] s[k] <= TOTAL_LIMIT,
        0 <= un <= ud,
        1 <= ud <= U_DEN_LIMIT,
    ensures
        ({
            let v = param_spec(s, un, ud);
            1 <= v.1 && crate::nums::rat_eq(v.0, v.1, un, ud)
        }),
{
    let nn = s.len() - 1;
    assert(s[0] == c * 0 && c * 0 == 0);
    assert forall|p: int, q: int| 0 <= p <= q < s.len() implies s[p] <= s[q] by {
        assert(c * p <= c * q) by (nonlinear_arith)
            requires
                1 <= c,
                0 <= p <= q,
            ;
    }
    let total = s[nn] as int;
    let target = un * total;
    assert(0 <= target && target <= total * ud && s[0] * ud == 0 && total == c * nn)
        by (nonlinear_arith)
        requires
            0 <= un <= ud,
            0 <= total,
            s[0] == 0,
            s[nn] == c * nn,
            total == s[nn],
            target == un * total,
        ;
    crate::search::lemma_floor_index_props(s, target, ud);
    let i = floor_index(s, target, ud);
    let v = param_spec(s, un, ud);
    if target == s[i] * ud {
        assert(v.0 == i && v.1 == nn);
        assert(i * ud == un * nn) by (nonlinear_arith)
            requires
                un * (c * nn) == (c * i) * ud,
                1 <= c,
            ;
        assert(crate::nums::rat_eq(i, nn, un, ud));
    } else {
        lemma_gap_positive_pub(s, target, ud, i);
        let gap = s[i + 1] - s[i];
        assert(s[i + 1] == c * (i + 1) && s[i] == c * i);
        assert(gap == c) by (nonlinear_arith)
            requires
                gap == c * (i + 1) - c * i,
            ;
        let f = target - s[i] * ud;
        assert(v.0 == i * (ud * gap) + f && v.1 == nn * (ud * gap));
        assert((i * (ud * c) + (un * (c * nn) - (c * i) * ud)) * ud == un * (nn * (ud * c)))
            by (nonlinear_arith);
        assert(1 <= nn * (ud * gap)) by (nonlinear_arith)
            requires
                1 <= nn,
                1 <= ud,
                1 <= gap,
            ;
        assert(crate::nums::rat_eq(v.0 as int, v.1 as int, un, ud));
    }
}

/// The curve is a single-segment uniform-speed horizontal line on the
/// plain grid, from the origin to `3 c nn`, with handles at the
/// thirds; sampled `nn` times its speed is constant.
pub open spec fn is_uniform_line(pw: Piecewise, c: int, nn: int) -> bool {
    pw.segs@.len() == 1 && pw.cuts@.len() == 2 && pw.cuts@[0] == 0 && pw.cut_den == 1
        && pw.cuts@[1] == 1 && pw.segs@[0].den == 1
        && pw.segs@[0].w1 == (Vector { x: 0, y: 0 })
        && pw.segs@[0].w2.x == c * nn && pw.segs@[0].w2.y == 0
        && pw.segs@[0].w3.x == 2 * (c * nn) && pw.segs@[0].w3.y == 0
        && pw.segs@[0].w4.x == 3 * (c * nn) && pw.segs@[0].w4.y == 0
}

/// The Bernstein numerator of a uniform-speed line through 0, `kk`,
/// `2 kk`, `3 kk` is linear in the parameter.
proof fn lemma_cubic_of_line(kk: int, n: int, m: int)
    ensures
        crate::bezier::cubic_num(0, kk, 2 * kk, 3 * kk, n, m) == 3 * ((m * m) * (n * kk)),
{
    let q = m - n;
    assert(q * 0 == 0);
    assert((q * n) * (n * (2 * kk)) == 2 * ((q * n) * (n * kk))) by (nonlinear_arith);
    assert(n * n * (n * (3 * kk)) == 3 * ((n * n) * (n * kk))) by (nonlinear_arith);
    assert(m * m == q * q + 2 * (q * n) + n * n) by (nonlinear_arith)
        requires
            q == m - n,
        ;
    assert((q * q + 2 * (q * n) + n * n) * (n * kk) == (q * q) * (n * kk) + (2 * (q * n)) * (n
        * kk) + (n * n) * (n * kk)) by (nonlinear_arith);
    assert((2 * (q * n)) * (n * kk) == 2 * ((q * n) * (n * kk))) by (nonlinear_arith);
    assert((n * n) * (n * kk) == n * n * (n * kk)) by (nonlinear_arith);
    assert(q * q * (q * 0) == 0) by (nonlinear_arith);
    assert((m * m) * (n * kk) == (q * q + 2 * (q * n) + n * n) * (n * kk));
}

/// A multiple of the divisor divides exactly.
proof fn lemma_exact_div(q: int, d: int)
    requires
        1 <= d,
    ensures
        (q * d) / d == q,
{
    vstd::arithmetic::div_mod::lemma_fundamental_div_mod_converse(q * d, d, q, 0);
}

/// The rounded samples of a uniform-speed line advance by exactly
/// `3 c` per step.
proof fn lemma_line_samples(pw: Piecewise, c: int, nn: int, k: int)
    requires
        is_uniform_line(pw, c, nn),
        1 <= nn,
        1 <= c,
        0 <= k <= nn,
    ensures
        sample_x(pw, k, nn) == (3 * c) * k,
        sample_y(pw, k, nn) == 0,
{
    let i = pw.seg_index_spec(k, nn);
    assert(pw.cuts@.len() <= 2);
    assert(i == 0);
    assert(k * pw.cut_den == k) by (nonlinear_arith)
        requires
            pw.cut_den == 1,
        ;
    assert(pw.cuts@[0] * nn == 0) by (nonlinear_arith)
        requires
            pw.cuts@[0] == 0,
        ;
    let ln = pw.local_num(k, nn);
    let ld = pw.local_den(k, nn);
    assert(ln == k);
    assert(pw.cuts@[1] - pw.cuts@[0] == 1);
    assert(ld == nn * (pw.cuts@[1] - pw.cuts@[0]));
    assert(nn * 1 == nn);
    assert(ld == nn);
    let kk = c * nn;
    lemma_cubic_of_line(kk, k, nn);
    let seg = pw.segs@[0];
    assert(seg.eval_x(ln, ld) == 3 * ((nn * nn) * (k * kk)));
    let dd = (nn * nn) * nn;
    assert(seg.eval_den(ld) == 1 * ((nn * nn) * nn));
    assert(1 * ((nn * nn) * nn) == dd);
    assert(3 * ((nn * nn) * (k * (c * nn))) == ((3 * c) * k) * ((nn * nn) * nn))
        by (nonlinear_arith);
    assert(1 <= dd) by (nonlinear_arith)
        requires
            1 <= nn,
            dd == (nn * nn) * nn,
        ;
    lemma_exact_div((3 * c) * k, dd);
    assert(seg.eval_y(ln, ld) == crate::bezier::cubic_num(0, 0, 0, 0, k, nn));
    assert(crate::bezier::cubic_num(0, 0, 0, 0, k, nn) == 0) by (nonlinear_arith);
    lemma_exact_div(0, dd);
    assert(0 * dd == 0) by (nonlinear_arith);
}

/// Table-of-a-line law: the cumulative arc-length table built over a
/// uniform-speed line is exactly the arithmetic progression with step
/// `3 c`.  Together with the identity law for uniform tables, this
/// closes the loop: reparameterizing such a line by arc length is the
/// identity.
pub proof fn lemma_line_table_linear(pw: Piecewise, s: Seq<i64>, c: int, nn: int, k: int)
    requires
        is_uniform_line(pw, c, nn),
        1 <= nn,
        1 <= c,
        s.len() == nn + 1,
        s[0] == 0,
        table_sorted(s),
        arclens_match(s, pw, nn),
        0 <= k <= nn,
    ensures
        s[k] == (3 * c) * k,
    decreases k,
{
    if k == 0 {
        assert((3 * c) * 0 == 0) by (nonlinear_arith);
    } else {
        lemma_line_table_linear(pw, s, c, nn, k - 1);
        lemma_line_samples(pw, c, nn, k - 1);
        lemma_line_samples(pw, c, nn, k);
        let d = s[k] - s[k - 1];
        assert(d * d <= sample_dist_sq(pw, k - 1, k, nn) && sample_dist_sq(pw, k - 1, k, nn)
            < (d + 1) * (d + 1));
        assert(sample_dist_sq(pw, k - 1, k, nn) == (3 * c) * (3 * c)) by (nonlinear_arith)
            requires
                sample_x(pw, k, nn) == (3 * c) * k,
                sample_x(pw, k - 1, nn) == (3 * c) * (k - 1),
                sample_y(pw, k, nn) == 0,
                sample_y(pw, k - 1, nn) == 0,
                sample_dist_sq(pw, k - 1, k, nn) == (sample_x(pw, k, nn) - sample_x(pw, k - 1,
                    nn)) * (sample_x(pw, k, nn) - sample_x(pw, k - 1, nn)) + (sample_y(pw, k,
                    nn) - sample_y(pw, k - 1, nn)) * (sample_y(pw, k, nn) - sample_y(pw, k
                    - 1, nn)),
            ;
        assert(d == 3 * c) by (nonlinear_arith)
            requires
                0 <= d,
                d * d <= (3 * c) * (3 * c),
                (3 * c) * (3 * c) < (d + 1) * (d + 1),
                1 <= c,
            ;
        assert((3 * c) * (k - 1) + 3 * c == (3 * c) * k) by (nonlinear_arith);
    }
}

} // verus!
