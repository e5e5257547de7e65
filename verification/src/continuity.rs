//! Geometric continuity between adjacent curve segments, and grouping
//! a piecewise curve into maximal continuous runs.
//!
//! Two segments are G0-continuous at their joint when the end point
//! of the first is within tolerance of the start point of the second;
//! G1 additionally matches the exit and entry derivatives, and G2 the
//! second derivatives, all compared exactly by cross-multiplication.

use vstd::prelude::*;
use crate::bezier::Bezier;
use crate::nums::{COORD_LIMIT, DEN_LIMIT};
use crate::piecewise::Piecewise;
use crate::search::table_sorted;

verus! {

/// The rationals `pa / da` and `pb / db` differ by at most `eps` (all
/// cross-multiplied; meaningful for positive denominators).
pub open spec fn coord_near(pa: int, da: int, pb: int, db: int, eps: int) -> bool {
    -(eps * (da * db)) <= pa * db - pb * da <= eps * (da * db)
}

/// Geometric continuity of order `order` at the joint between `a` and
/// `b`: positions within `eps` (G0); for order 1 also the exit
/// derivative of `a` against the entry derivative of `b`; for order 2
/// also the second derivatives at the joint.
pub open spec fn continuous_spec(a: Bezier, b: Bezier, order: int, eps: int) -> bool {
    let g0 = coord_near(a.w4.x as int, a.den as int, b.w1.x as int, b.den as int, eps)
        && coord_near(a.w4.y as int, a.den as int, b.w1.y as int, b.den as int, eps);
    let g1 = coord_near(3 * (a.w4.x - a.w3.x), a.den as int, 3 * (b.w2.x - b.w1.x),
        b.den as int, eps) && coord_near(3 * (a.w4.y - a.w3.y), a.den as int, 3 * (b.w2.y
        - b.w1.y), b.den as int, eps);
    let g2 = coord_near(6 * (a.w2.x - 2 * a.w3.x + a.w4.x), a.den as int, 6 * (b.w1.x - 2
        * b.w2.x + b.w3.x), b.den as int, eps) && coord_near(6 * (a.w2.y - 2 * a.w3.y
        + a.w4.y), a.den as int, 6 * (b.w1.y - 2 * b.w2.y + b.w3.y), b.den as int, eps);
    g0 && (order >= 1 ==> g1) && (order >= 2 ==> g2)
}

/// One cross-multiplied tolerance comparison of two rationals.
fn coord_near_exec(pa: i64, da: i64, pb: i64, db: i64, eps: i64) -> (r: bool)
    requires
        1 <= da,
        1 <= db,
        da * db <= DEN_LIMIT,
        -(24 * (COORD_LIMIT * da)) <= pa <= 24 * (COORD_LIMIT * da),
        -(24 * (COORD_LIMIT * db)) <= pb <= 24 * (COORD_LIMIT * db),
        0 <= eps <= COORD_LIMIT,
    ensures
        r <==> coord_near(pa as int, da as int, pb as int, db as int, eps as int),
{
    proof {
        assert(-(24 * (COORD_LIMIT * DEN_LIMIT)) <= pa * db <= 24 * (COORD_LIMIT * DEN_LIMIT)
            && -(24 * (COORD_LIMIT * DEN_LIMIT)) <= pb * da <= 24 * (COORD_LIMIT * DEN_LIMIT)
            && 0 <= eps * (da * db) <= COORD_LIMIT * DEN_LIMIT) by (nonlinear_arith)
            requires
                1 <= da,
                1 <= db,
                da * db <= DEN_LIMIT,
                -(24 * (COORD_LIMIT * da)) <= pa <= 24 * (COORD_LIMIT * da),
                -(24 * (COORD_LIMIT * db)) <= pb <= 24 * (COORD_LIMIT * db),
                0 <= eps <= COORD_LIMIT,
            ;
    }
    let scale: i64 = da * db;
    let bound: i64 = eps * scale;
    let diff: i64 = pa * db - pb * da;
    -bound <= diff && diff <= bound
}

/// Whether two adjacent segments are continuous at their joint, to
/// the requested order, within the coordinate tolerance `eps`.
pub fn continuous_at(a: &Bezier, b: &Bezier, order: u32, eps: i64) -> (r: bool)
    requires
        a.wf(),
        b.wf(),
        a.den * b.den <= DEN_LIMIT,
        order <= 2,
        0 <= eps <= COORD_LIMIT,
    ensures
        r <==> continuous_spec(*a, *b, order as int, eps as int),
{
    proof {
        lemma_joint_values_bounded(*a);
        lemma_joint_values_bounded(*b);
    }
    let g0 = coord_near_exec(a.w4.x, a.den, b.w1.x, b.den, eps) && coord_near_exec(a.w4.y,
        a.den, b.w1.y, b.den, eps);
    if !g0 || order == 0 {
        return g0;
    }
    let g1 = coord_near_exec(3 * (a.w4.x - a.w3.x), a.den, 3 * (b.w2.x - b.w1.x), b.den, eps)
        && coord_near_exec(3 * (a.w4.y - a.w3.y), a.den, 3 * (b.w2.y - b.w1.y), b.den, eps);
    if !g1 || order == 1 {
        return g0 && g1;
    }
    let g2 = coord_near_exec(6 * (a.w2.x - 2 * a.w3.x + a.w4.x), a.den, 6 * (b.w1.x - 2
        * b.w2.x + b.w3.x), b.den, eps) && coord_near_exec(6 * (a.w2.y - 2 * a.w3.y + a.w4.y),
        a.den, 6 * (b.w1.y - 2 * b.w2.y + b.w3.y), b.den, eps);
    g0 && g1 && g2
}

/// The endpoint, derivative and second-derivative numerators that the
/// joint comparisons read all lie within 24 coordinate units of the
/// segment's denominator.
proof fn lemma_joint_values_bounded(a: Bezier)
    by (nonlinear_arith)
    requires
        a.wf(),
    ensures
        -(24 * (COORD_LIMIT * a.den)) <= a.w4.x <= 24 * (COORD_LIMIT * a.den),
        -(24 * (COORD_LIMIT * a.den)) <= a.w4.y <= 24 * (COORD_LIMIT * a.den),
        -(24 * (COORD_LIMIT * a.den)) <= a.w1.x <= 24 * (COORD_LIMIT * a.den),
        -(24 * (COORD_LIMIT * a.den)) <= a.w1.y <= 24 * (COORD_LIMIT * a.den),
        -(24 * (COORD_LIMIT * a.den)) <= 3 * (a.w4.x - a.w3.x) <= 24 * (COORD_LIMIT * a.den),
        -(24 * (COORD_LIMIT * a.den)) <= 3 * (a.w4.y - a.w3.y) <= 24 * (COORD_LIMIT * a.den),
        -(24 * (COORD_LIMIT * a.den)) <= 3 * (a.w2.x - a.w1.x) <= 24 * (COORD_LIMIT * a.den),
        -(24 * (COORD_LIMIT * a.den)) <= 3 * (a.w2.y - a.w1.y) <= 24 * (COORD_LIMIT * a.den),
        -(24 * (COORD_LIMIT * a.den)) <= 6 * (a.w2.x - 2 * a.w3.x + a.w4.x)
            <= 24 * (COORD_LIMIT * a.den),
        -(24 * (COORD_LIMIT * a.den)) <= 6 * (a.w2.y - 2 * a.w3.y + a.w4.y)
            <= 24 * (COORD_LIMIT * a.den),
        -(24 * (COORD_LIMIT * a.den)) <= 6 * (a.w1.x - 2 * a.w2.x + a.w3.x)
            <= 24 * (COORD_LIMIT * a.den),
        -(24 * (COORD_LIMIT * a.den)) <= 6 * (a.w1.y - 2 * a.w2.y + a.w3.y)
            <= 24 * (COORD_LIMIT * a.den),
{
}

impl Piecewise {
    /// Groups the segments into maximal runs that are continuous (to
    /// the requested order, within `eps`) at every internal joint,
    /// breaking exactly at the joints that are not: the groups
    /// concatenate back to the original segment list, every joint
    /// inside a group is continuous, and the joint between two
    /// consecutive groups is not.  Each group becomes a piecewise
    /// curve with uniform cuts.
    pub fn as_continuous_beziers(&self, order: u32, eps: i64) -> (r: Vec<Piecewise>)
        requires
            self.wf(),
            self.segs@.len() <= crate::nums::CUT_DEN_LIMIT,
            order <= 2,
            0 <= eps <= COORD_LIMIT,
            forall|k: int| 0 <= k < self.segs@.len() - 1 ==> (#[trigger] self.segs@[k]).den
                * self.segs@[k + 1].den <= DEN_LIMIT,
        ensures
            r@.len() >= 1,
            forall|g: int| 0 <= g < r@.len() ==> (#[trigger] r@[g]).wf(),
            r@.map_values(|p: Piecewise| p.segs@).flatten() == self.segs@,
            forall|g: int, j: int| 0 <= g < r@.len() && 0 <= j < r@[g].segs@.len() - 1
                ==> continuous_spec(#[trigger] r@[g].segs@[j], r@[g].segs@[j + 1],
                    order as int, eps as int),
            forall|g: int| 0 <= g < r@.len() - 1 ==> !continuous_spec(
                (#[trigger] r@[g]).segs@[r@[g].segs@.len() - 1], r@[g + 1].segs@[0],
                order as int, eps as int),
    {
        let nsegs = self.segs.len();
        let mut out: Vec<Piecewise> = Vec::new();
        let ghost mut gseqs = Seq::<Seq<Bezier>>::empty();
        let mut run: Vec<Bezier> = Vec::new();
        run.push(self.segs[0]);
        let ghost mut start: int = 0;
        let mut k: usize = 1;
        while k < nsegs
            invariant
                1 <= k <= nsegs,
                nsegs == self.segs@.len(),
                self.wf(),
                self.segs@.len() <= crate::nums::CUT_DEN_LIMIT,
                order <= 2,
                0 <= eps <= COORD_LIMIT,
                forall|j: int| 0 <= j < self.segs@.len() - 1 ==> (#[trigger] self.segs@[j]).den
                    * self.segs@[j + 1].den <= DEN_LIMIT,
                0 <= start < k,
                gseqs.flatten() == self.segs@.take(start),
                run@ == self.segs@.subrange(start, k as int),
                out@.len() == gseqs.len(),
                forall|g: int| 0 <= g < out@.len() ==> (#[trigger] out@[g]).segs@ == gseqs[g],
                forall|g: int| 0 <= g < out@.len() ==> (#[trigger] out@[g]).wf(),
                forall|g: int, j: int| 0 <= g < out@.len() && 0 <= j < out@[g].segs@.len() - 1
                    ==> continuous_spec(#[trigger] out@[g].segs@[j], out@[g].segs@[j + 1],
                        order as int, eps as int),
                forall|g: int| 0 <= g < out@.len() - 1 ==> !continuous_spec(
                    (#[trigger] out@[g]).segs@[out@[g].segs@.len() - 1], out@[g + 1].segs@[0],
                    order as int, eps as int),
                out@.len() > 0 ==> !continuous_spec(
                    out@[out@.len() - 1].segs@[out@[out@.len() - 1].segs@.len() - 1],
                    self.segs@[start], order as int, eps as int),
                forall|j: int| start <= j < k - 1 ==> continuous_spec(#[trigger] self.segs@[j],
                    self.segs@[j + 1], order as int, eps as int),
            decreases nsegs - k,
        {
            let prev_seg = self.segs[k - 1];
            let cur_seg = self.segs[k];
            let joined = continuous_at(&prev_seg, &cur_seg, order, eps);
            if joined {
                run.push(cur_seg);
                proof {
                    assert(run@ =~= self.segs@.subrange(start, k + 1));
                }
            } else {
                let group = Piecewise::new(run, None, 1);
                out.push(group);
                proof {
                    let old_g = gseqs;
                    gseqs = gseqs.push(group.segs@);
                    old_g.lemma_flatten_push(group.segs@);
                    assert(gseqs.flatten() == old_g.flatten() + group.segs@);
                    assert(self.segs@.take(start) + self.segs@.subrange(start, k as int)
                        =~= self.segs@.take(k as int));
                    assert(gseqs.flatten() =~= self.segs@.take(k as int));
                    start = k as int;
                }
                run = Vec::new();
                run.push(self.segs[k]);
                proof {
                    assert(run@ =~= self.segs@.subrange(start, k + 1));
                }
            }
            k = k + 1;
        }
        let group = Piecewise::new(run, None, 1);
        out.push(group);
        proof {
            let old_g = gseqs;
            gseqs = gseqs.push(group.segs@);
            old_g.lemma_flatten_push(group.segs@);
            assert(gseqs.flatten() == old_g.flatten() + group.segs@);
            assert(self.segs@.take(start) + self.segs@.subrange(start, nsegs as int)
                =~= self.segs@.take(nsegs as int));
            assert(self.segs@.take(nsegs as int) =~= self.segs@);
            assert(gseqs.flatten() =~= self.segs@);
            assert(out@.map_values(|p: Piecewise| p.segs@) =~= gseqs);
        }
        out
    }

    /// Splits the curve into maximal G0-continuous runs: groups break
    /// exactly where the positional gap between consecutive segments
    /// exceeds `eps`.
    pub fn split_at_discontinuities(&self, eps: i64) -> (r: Vec<Piecewise>)
        requires
            self.wf(),
            self.segs@.len() <= crate::nums::CUT_DEN_LIMIT,
            0 <= eps <= COORD_LIMIT,
            forall|k: int| 0 <= k < self.segs@.len() - 1 ==> (#[trigger] self.segs@[k]).den
                * self.segs@[k + 1].den <= DEN_LIMIT,
        ensures
            r@.len() >= 1,
            forall|g: int| 0 <= g < r@.len() ==> (#[trigger] r@[g]).wf(),
            r@.map_values(|p: Piecewise| p.segs@).flatten() == self.segs@,
            forall|g: int, j: int| 0 <= g < r@.len() && 0 <= j < r@[g].segs@.len() - 1
                ==> continuous_spec(#[trigger] r@[g].segs@[j], r@[g].segs@[j + 1], 0,
                    eps as int),
            forall|g: int| 0 <= g < r@.len() - 1 ==> !continuous_spec(
                (#[trigger] r@[g]).segs@[r@[g].segs@.len() - 1], r@[g + 1].segs@[0], 0,
                eps as int),
    {
        self.as_continuous_beziers(0, eps)
    }
}

} // verus!
