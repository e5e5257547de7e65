//! The piecewise curve container: an ordered list of cubic Bezier
//! segments stitched into a single curve over the global parameter
//! domain `[0, 1]` by a monotonic cut table.
//!
//! Cut values are exact fractions `cuts[i] / cut_den` over one shared
//! denominator, with `cuts[0] == 0` and `cuts[last] == cut_den`.
//! Looking up the segment for a global parameter uses the shared
//! bracketing-interval search; remapping into the segment's own
//! domain is an exact rational rescale.

use vstd::prelude::*;
use crate::bezier::Bezier;
use crate::nums::{Frac, RatPoint, COORD_LIMIT, CUT_DEN_LIMIT, PARAM_DEN_LIMIT};
use crate::nums::lemma_mul_bound;
use crate::search::{find_interval, floor_index, table_sorted, table_scale_ok};
use crate::vector::Vector;

verus! {

/// A piecewise curve: `segs[i]` covers the global parameter range
/// `[cuts[i] / cut_den, cuts[i+1] / cut_den]`.
#[derive(Clone, Debug)]
pub struct Piecewise {
    pub segs: Vec<Bezier>,
    pub cuts: Vec<i64>,
    pub cut_den: i64,
}

impl Piecewise {
    /// Well-formed container: one more cut than segments, the cut
    /// table starts at 0, ends at `cut_den`, and never decreases, and
    /// every segment is a well-formed curve.
    pub open spec fn wf(self) -> bool {
        self.cuts@.len() == self.segs@.len() + 1
            && self.segs@.len() >= 1
            && 1 <= self.cut_den <= CUT_DEN_LIMIT
            && self.cuts@[0] == 0
            && self.cuts@[self.cuts@.len() - 1] == self.cut_den
            && table_sorted(self.cuts@)
            && (forall|i: int| 0 <= i < self.segs@.len() ==> (#[trigger] self.segs@[i]).wf())
    }

    /// The index of the segment whose range brackets the global
    /// parameter `n / m`: the largest `i` with
    /// `cuts[i] / cut_den <= n / m`, clamped to the last segment.
    pub open spec fn seg_index_spec(self, n: int, m: int) -> int {
        floor_index(self.cuts@, n * self.cut_den, m)
    }

    /// Numerator of the global parameter `n / m` remapped into the
    /// bracketing segment's own domain.
    pub open spec fn local_num(self, n: int, m: int) -> int {
        n * self.cut_den - self.cuts@[self.seg_index_spec(n, m)] * m
    }

    /// Denominator of the remapped local parameter: the width of the
    /// bracketing cut interval, scaled by `m`.
    pub open spec fn local_den(self, n: int, m: int) -> int {
        m * (self.cuts@[self.seg_index_spec(n, m) + 1] - self.cuts@[self.seg_index_spec(n, m)])
    }

    /// The global parameter `n / m` is accepted by the lookup
    /// machinery.
    pub open spec fn param_ok(self, n: int, m: int) -> bool {
        0 <= n <= m && 1 <= m <= PARAM_DEN_LIMIT
    }

    /// The bracketing interval of `n / m` has nonzero width, so the
    /// parameter can be remapped into the segment's domain.
    pub open spec fn seg_cut_nonzero(self, n: int, m: int) -> bool {
        self.cuts@[self.seg_index_spec(n, m)] < self.cuts@[self.seg_index_spec(n, m) + 1]
    }

    /// The curve can be evaluated at `n / m`: the bracketing interval
    /// is nonzero and the bracketing segment's evaluation at the
    /// remapped parameter stays in the overflow-free range.
    pub open spec fn eval_ready(self, n: int, m: int) -> bool {
        self.wf() && self.param_ok(n, m) && self.seg_cut_nonzero(n, m)
            && self.segs@[self.seg_index_spec(n, m)].evaluable(self.local_den(n, m))
    }

    /// Builds a piecewise curve.  With `None` the cut table is
    /// uniform: `cuts[i] = i` over `cut_den = len(segs)`.  A caller
    /// supplying its own table must supply a well-formed one; the
    /// shared denominator of the supplied table is `cut_den`.
    pub fn new(segs: Vec<Bezier>, cuts: Option<Vec<i64>>, cut_den: i64) -> (r: Piecewise)
        requires
            1 <= segs@.len() <= CUT_DEN_LIMIT,
            forall|i: int| 0 <= i < segs@.len() ==> (#[trigger] segs@[i]).wf(),
            match cuts {
                Some(c) => c@.len() == segs@.len() + 1 && c@[0] == 0
                    && c@[c@.len() - 1] == cut_den && table_sorted(c@)
                    && 1 <= cut_den <= CUT_DEN_LIMIT,
                None => true,
            },
        ensures
            r.wf(),
            r.segs@ == segs@,
            match cuts {
                Some(c) => r.cuts@ == c@ && r.cut_den == cut_den,
                None => r.cut_den == segs@.len()
                    && r.cuts@.len() == segs@.len() + 1
                    && (forall|i: int| 0 <= i < r.cuts@.len() ==> r.cuts@[i] == i),
            },
    {
        match cuts {
            Some(c) => Piecewise { segs, cuts: c, cut_den },
            None => {
                let n = segs.len();
                let mut out: Vec<i64> = Vec::new();
                let mut i: usize = 0;
                while i <= n
                    invariant
                        0 <= i <= n + 1,
                        n <= CUT_DEN_LIMIT,
                        out@.len() == i,
                        forall|j: int| 0 <= j < i ==> out@[j] == j,
                    decreases n + 1 - i,
                {
                    out.push(i as i64);
                    i = i + 1;
                }
                Piecewise { segs, cuts: out, cut_den: n as i64 }
            },
        }
    }

    /// Finds the index of the segment covering the global parameter
    /// `t`: the largest `i` whose cut is at or below `t`, clamped to
    /// the final segment (so `seg_n(1)` is the last index).  With
    /// equal adjacent cuts (zero-length segments) the index lands
    /// after the run of duplicates.
    pub fn seg_n(&self, t: Frac) -> (r: usize)
        requires
            self.wf(),
            self.param_ok(t.num as int, t.den as int),
        ensures
            r as int == self.seg_index_spec(t.num as int, t.den as int),
            r < self.segs@.len(),
            self.cuts@[r as int] * t.den <= t.num * self.cut_den,
            r + 2 < self.cuts@.len() ==> t.num * self.cut_den < self.cuts@[r as int + 1] * t.den,
    {
        proof {
            lemma_param_scale(self, t.num as int, t.den as int);
        }
        let target: i64 = t.num * self.cut_den;
        let res = find_interval(&self.cuts, target, t.den);
        match res {
            Ok(i) => i,
            Err(_) => {
                proof {
                    assert(false);
                }
                0
            },
        }
    }

    /// Remaps the global parameter `t` into the bracketing segment's
    /// own `[0, 1]` domain by exact linear rescaling between the two
    /// adjacent cuts.  The bracketing interval must have nonzero
    /// width.
    pub fn seg_t(&self, t: Frac) -> (r: Frac)
        requires
            self.wf(),
            self.param_ok(t.num as int, t.den as int),
            self.seg_cut_nonzero(t.num as int, t.den as int),
        ensures
            r.num == self.local_num(t.num as int, t.den as int),
            r.den == self.local_den(t.num as int, t.den as int),
            r.wf(),
            r.in_unit(),
    {
        let i = self.seg_n(t);
        proof {
            lemma_param_scale(self, t.num as int, t.den as int);
            lemma_local_param(self, t.num as int, t.den as int);
        }
        let ncuts = self.cuts.len();
        proof {
            assert(i + 1 < self.cuts@.len());
            assert(self.cuts@[i as int] < self.cuts@[i as int + 1]);
            assert(0 <= self.cuts@[i as int] && self.cuts@[i as int + 1] <= self.cut_den);
            assert(t.den * (self.cuts@[i as int + 1] - self.cuts@[i as int])
                == self.local_den(t.num as int, t.den as int));
        }
        let num: i64 = t.num * self.cut_den - self.cuts[i] * t.den;
        let den: i64 = t.den * (self.cuts[i + 1] - self.cuts[i]);
        Frac { num, den }
    }

    /// Evaluates the piecewise curve at the global parameter `t`: the
    /// bracketing segment evaluated at the remapped local parameter.
    pub fn at(&self, t: Frac) -> (r: RatPoint)
        requires
            self.eval_ready(t.num as int, t.den as int),
        ensures
            ({
                let i = self.seg_index_spec(t.num as int, t.den as int);
                let ln = self.local_num(t.num as int, t.den as int);
                let ld = self.local_den(t.num as int, t.den as int);
                r.x == self.segs@[i].eval_x(ln, ld) && r.y == self.segs@[i].eval_y(ln, ld)
                    && r.den == self.segs@[i].eval_den(ld) && r.wf()
                    && r.coords_within(crate::nums::COORD_LIMIT as int)
                    && r.den <= crate::nums::EVAL_DEN_LIMIT
            }),
    {
        let i = self.seg_n(t);
        let lt = self.seg_t(t);
        self.segs[i].at(lt)
    }

    /// The exact derivative of the bracketing segment at the remapped
    /// parameter.  This is the segment's own derivative: it is not
    /// rescaled by the (constant) speed factor of the cut interval.
    pub fn tangent_at(&self, t: Frac) -> (r: RatPoint)
        requires
            self.eval_ready(t.num as int, t.den as int),
        ensures
            ({
                let i = self.seg_index_spec(t.num as int, t.den as int);
                let ln = self.local_num(t.num as int, t.den as int);
                let ld = self.local_den(t.num as int, t.den as int);
                r.x == crate::bezier::deriv_num(self.segs@[i].w1.x as int,
                    self.segs@[i].w2.x as int, self.segs@[i].w3.x as int,
                    self.segs@[i].w4.x as int, ln, ld)
                    && r.y == crate::bezier::deriv_num(self.segs@[i].w1.y as int,
                        self.segs@[i].w2.y as int, self.segs@[i].w3.y as int,
                        self.segs@[i].w4.y as int, ln, ld)
                    && r.den == self.segs@[i].den * ld * ld && r.wf()
                    && -(24 * (crate::nums::COORD_LIMIT * r.den)) <= r.x
                    && r.x <= 24 * (crate::nums::COORD_LIMIT * r.den)
                    && -(24 * (crate::nums::COORD_LIMIT * r.den)) <= r.y
                    && r.y <= 24 * (crate::nums::COORD_LIMIT * r.den)
                    && r.den <= crate::nums::DERIV_DEN_LIMIT
            }),
    {
        let i = self.seg_n(t);
        let lt = self.seg_t(t);
        self.segs[i].tangent_at(lt)
    }

    /// The first segment's start point.  Querying an empty container
    /// is a precondition violation, not a runtime fallback.
    pub fn start_point(&self) -> (r: RatPoint)
        requires
            self.wf(),
        ensures
            r.x == self.segs@[0].w1.x,
            r.y == self.segs@[0].w1.y,
            r.den == self.segs@[0].den,
            r.wf(),
    {
        self.segs[0].start_point()
    }

    /// The last segment's end point.
    pub fn end_point(&self) -> (r: RatPoint)
        requires
            self.wf(),
        ensures
            r.x == self.segs@[self.segs@.len() - 1].w4.x,
            r.y == self.segs@[self.segs@.len() - 1].w4.y,
            r.den == self.segs@[self.segs@.len() - 1].den,
            r.wf(),
    {
        let last = self.segs.len() - 1;
        self.segs[last].end_point()
    }

    /// Closed-path detection: true exactly when the whole curve's
    /// start point and end point are within `eps` of one another on
    /// both axes (compared exactly by cross-multiplication).
    pub fn is_closed(&self, eps: i64) -> (r: bool)
        requires
            self.wf(),
            self.segs@[0].den * self.segs@[self.segs@.len() - 1].den <= 0x100_0000_0000,
            0 <= eps <= crate::nums::COORD_LIMIT,
        ensures
            ({
                let sp = self.segs@[0];
                let ep = self.segs@[self.segs@.len() - 1];
                let scale = sp.den * ep.den;
                r <==> (-(eps * scale) <= sp.w1.x * ep.den - ep.w4.x * sp.den <= eps * scale
                    && -(eps * scale) <= sp.w1.y * ep.den - ep.w4.y * sp.den <= eps * scale)
            }),
    {
        let sp = self.start_point();
        let ep = self.end_point();
        proof {
            let s0 = self.segs@[0];
            let sl = self.segs@[self.segs@.len() - 1];
            lemma_coords_within(s0);
            lemma_coords_within(sl);
            assert(eps * (sp.den * ep.den) == eps * sp.den * ep.den) by (nonlinear_arith);
        }
        sp.is_near(ep, eps)
    }


    /// The bounding box of the whole curve: the union of every
    /// segment's control-point box.  Each side is the extreme over
    /// the segments, and is attained by some segment.  Querying an
    /// empty container is a precondition violation.
    pub fn bounds(&self) -> (r: crate::rect::Rect)
        requires
            self.wf(),
        ensures
            forall|k: int| 0 <= k < self.segs@.len() ==> r.left
                <= (#[trigger] self.segs@[k]).bounds_spec().left && self.segs@[k].bounds_spec().right
                <= r.right && r.bottom <= self.segs@[k].bounds_spec().bottom
                && self.segs@[k].bounds_spec().top <= r.top,
            exists|k: int| 0 <= k < self.segs@.len() && (#[trigger] self.segs@[k]).bounds_spec().left
                == r.left,
            exists|k: int| 0 <= k < self.segs@.len()
                && (#[trigger] self.segs@[k]).bounds_spec().right == r.right,
            exists|k: int| 0 <= k < self.segs@.len()
                && (#[trigger] self.segs@[k]).bounds_spec().bottom == r.bottom,
            exists|k: int| 0 <= k < self.segs@.len() && (#[trigger] self.segs@[k]).bounds_spec().top
                == r.top,
            r.left <= r.right,
            r.bottom <= r.top,
    {
        let nsegs = self.segs.len();
        let mut out = self.segs[0].bounds();
        let mut k: usize = 1;
        while k < nsegs
            invariant
                1 <= k <= nsegs,
                nsegs == self.segs@.len(),
                self.wf(),
                forall|j: int| 0 <= j < k ==> out.left
                    <= (#[trigger] self.segs@[j]).bounds_spec().left
                    && self.segs@[j].bounds_spec().right <= out.right
                    && out.bottom <= self.segs@[j].bounds_spec().bottom
                    && self.segs@[j].bounds_spec().top <= out.top,
                exists|j: int| 0 <= j < k && (#[trigger] self.segs@[j]).bounds_spec().left
                    == out.left,
                exists|j: int| 0 <= j < k && (#[trigger] self.segs@[j]).bounds_spec().right
                    == out.right,
                exists|j: int| 0 <= j < k && (#[trigger] self.segs@[j]).bounds_spec().bottom
                    == out.bottom,
                exists|j: int| 0 <= j < k && (#[trigger] self.segs@[j]).bounds_spec().top
                    == out.top,
                out.left <= out.right,
                out.bottom <= out.top,
            decreases nsegs - k,
        {
            let sb = self.segs[k].bounds();
            out = out.encapsulate_rect(sb);
            k = k + 1;
        }
        out
    }


    /// Cross product of two endpoint numerators, one shoelace term.
    pub open spec fn cross_term(p: Vector, q: Vector) -> int {
        p.x * q.y - q.x * p.y
    }

    /// The endpoint feeding shoelace step `j`: the first segment's
    /// start for step 0, segment `j - 1`'s end after.
    pub open spec fn chain_point(s: Seq<Bezier>, j: int) -> Vector {
        if j == 0 {
            s[0].w1
        } else {
            s[j - 1].w4
        }
    }

    /// The first `k` terms of the shoelace sum over the segment
    /// endpoints.
    pub open spec fn shoelace_sum(s: Seq<Bezier>, k: int) -> int
        decreases k,
    {
        if k <= 0 {
            0
        } else {
            Self::shoelace_sum(s, k - 1) + Self::cross_term(Self::chain_point(s, k - 1),
                s[k - 1].w4)
        }
    }

    /// Twice the signed approximate area: the shoelace sum of the
    /// segment endpoints (each curve treated as the straight chord
    /// between its endpoints), closed back to the first point when
    /// there is more than one segment.
    pub open spec fn doubled_area_spec(s: Seq<Bezier>) -> int {
        Self::shoelace_sum(s, s.len() as int) + if s.len() > 1 {
            Self::cross_term(s[s.len() - 1].w4, s[0].w1)
        } else {
            0
        }
    }

    /// The approximate enclosed area, treating every segment as the
    /// straight chord between its endpoints: the absolute shoelace
    /// sum, as an exact fraction over 2.  Meaningful for curves on
    /// the plain integer grid (denominator 1).
    pub fn approximate_area(&self) -> (r: Frac)
        requires
            self.wf(),
            self.segs@.len() <= CUT_DEN_LIMIT,
            forall|k: int| 0 <= k < self.segs@.len() ==> (#[trigger] self.segs@[k]).den == 1,
        ensures
            r.den == 2,
            r.num == if Self::doubled_area_spec(self.segs@) >= 0 {
                Self::doubled_area_spec(self.segs@)
            } else {
                -Self::doubled_area_spec(self.segs@)
            },
    {
        let nsegs = self.segs.len();
        let mut sum: i64 = 0;
        proof {
            lemma_unit_coords(self.segs@[0]);
        }
        let mut prev: Vector = Vector { x: self.segs[0].w1.x, y: self.segs[0].w1.y };
        let mut k: usize = 0;
        while k < nsegs
            invariant
                0 <= k <= nsegs,
                nsegs == self.segs@.len(),
                self.wf(),
                nsegs <= CUT_DEN_LIMIT,
                forall|j: int| 0 <= j < self.segs@.len() ==> (#[trigger] self.segs@[j]).den
                    == 1,
                prev == Self::chain_point(self.segs@, k as int),
                -COORD_LIMIT <= prev.x <= COORD_LIMIT,
                -COORD_LIMIT <= prev.y <= COORD_LIMIT,
                sum == Self::shoelace_sum(self.segs@, k as int),
                -2199023255552 * (k as int) <= sum <= 2199023255552 * (k as int),
            decreases nsegs - k,
        {
            let seg_end = self.segs[k].w4;
            proof {
                lemma_unit_coords(self.segs@[k as int]);
                lemma_cross_bound(prev, seg_end);
                assert(2199023255552 * (k as int) + 2199023255552 == 2199023255552 * (k as int
                    + 1));
                assert(2199023255552 * (k as int + 1) <= 2199023255552 * 1048576);
            }
            sum = sum + (prev.x * seg_end.y - seg_end.x * prev.y);
            prev = seg_end;
            k = k + 1;
        }
        proof {
            assert(2199023255552 * (nsegs as int) <= 2199023255552 * 1048576);
        }
        let total: i64 = if nsegs > 1 {
            let last = self.segs[nsegs - 1].w4;
            let first = self.segs[0].w1;
            proof {
                lemma_unit_coords(self.segs@[nsegs - 1]);
                lemma_unit_coords(self.segs@[0]);
                lemma_cross_bound(Vector { x: last.x, y: last.y }, Vector {
                    x: first.x,
                    y: first.y,
                });
            }
            sum + (last.x * first.y - first.x * last.y)
        } else {
            sum
        };
        if total >= 0 {
            Frac { num: total, den: 2 }
        } else {
            Frac { num: -total, den: 2 }
        }
    }


    /// Translates every segment by the grid vector `v`, keeping the
    /// cut table.
    pub fn translate(&self, v: Vector) -> (r: Piecewise)
        requires
            self.wf(),
            -COORD_LIMIT <= v.x <= COORD_LIMIT,
            -COORD_LIMIT <= v.y <= COORD_LIMIT,
        ensures
            r.cuts@ == self.cuts@,
            r.cut_den == self.cut_den,
            r.segs@.len() == self.segs@.len(),
            forall|k: int| 0 <= k < self.segs@.len() ==> {
                let s = #[trigger] self.segs@[k];
                let t = r.segs@[k];
                t.den == s.den && t.w1.x == s.w1.x + v.x * s.den && t.w1.y == s.w1.y + v.y
                    * s.den && t.w2.x == s.w2.x + v.x * s.den && t.w2.y == s.w2.y + v.y * s.den
                    && t.w3.x == s.w3.x + v.x * s.den && t.w3.y == s.w3.y + v.y * s.den
                    && t.w4.x == s.w4.x + v.x * s.den && t.w4.y == s.w4.y + v.y * s.den
            },
    {
        let nsegs = self.segs.len();
        let mut segs2: Vec<Bezier> = Vec::new();
        let mut k: usize = 0;
        while k < nsegs
            invariant
                0 <= k <= nsegs,
                nsegs == self.segs@.len(),
                self.wf(),
                -COORD_LIMIT <= v.x <= COORD_LIMIT,
                -COORD_LIMIT <= v.y <= COORD_LIMIT,
                segs2@.len() == k,
                forall|j: int| 0 <= j < k ==> {
                    let s = #[trigger] self.segs@[j];
                    let t = segs2@[j];
                    t.den == s.den && t.w1.x == s.w1.x + v.x * s.den && t.w1.y == s.w1.y + v.y
                        * s.den && t.w2.x == s.w2.x + v.x * s.den && t.w2.y == s.w2.y + v.y
                        * s.den && t.w3.x == s.w3.x + v.x * s.den && t.w3.y == s.w3.y + v.y
                        * s.den && t.w4.x == s.w4.x + v.x * s.den && t.w4.y == s.w4.y + v.y
                        * s.den
                },
            decreases nsegs - k,
        {
            let moved = self.segs[k].translate(v);
            segs2.push(moved);
            k = k + 1;
        }
        let mut cuts2: Vec<i64> = Vec::new();
        let mut k2: usize = 0;
        while k2 < self.cuts.len()
            invariant
                0 <= k2 <= self.cuts@.len(),
                cuts2@.len() == k2,
                forall|j: int| 0 <= j < k2 ==> cuts2@[j] == self.cuts@[j],
            decreases self.cuts@.len() - k2,
        {
            cuts2.push(self.cuts[k2]);
            k2 = k2 + 1;
        }
        proof {
            assert(cuts2@ =~= self.cuts@);
        }
        Piecewise { segs: segs2, cuts: cuts2, cut_den: self.cut_den }
    }

    /// The global parameter `t` can be used to subdivide: its
    /// bracketing interval is nonzero, the refined cut table stays in
    /// range, and splitting the bracketing segment at the remapped
    /// parameter stays in range.
    pub open spec fn split_ready(self, n: int, m: int) -> bool {
        self.wf() && self.param_ok(n, m) && self.seg_cut_nonzero(n, m)
            && m * self.cut_den <= CUT_DEN_LIMIT
            && self.segs@[self.seg_index_spec(n, m)].den
                * (self.local_den(n, m) * self.local_den(n, m) * self.local_den(n, m))
                <= crate::nums::DEN_LIMIT
    }

    /// Subdivision at a global parameter: the segment containing `t`
    /// is split in two at the remapped parameter, a new cut is
    /// inserted at `t`, and every other segment passes through
    /// unchanged.  When `t` falls exactly on an existing cut the
    /// curve is returned unchanged.
    pub fn subdivide(&self, t: Frac) -> (r: Piecewise)
        requires
            self.split_ready(t.num as int, t.den as int),
        ensures
            r.wf(),
            ({
                let n = t.num as int;
                let m = t.den as int;
                let i = self.seg_index_spec(n, m);
                let ln = self.local_num(n, m);
                let ld = self.local_den(n, m);
                if ln == 0 || ln == ld {
                    r.segs@ == self.segs@ && r.cuts@ == self.cuts@
                        && r.cut_den == self.cut_den
                } else {
                    r.segs@.len() == self.segs@.len() + 1
                        && r.cuts@.len() == self.cuts@.len() + 1
                        && r.cut_den == self.cut_den * t.den
                        && (forall|k: int| 0 <= k < i ==> r.segs@[k] == self.segs@[k])
                        && self.segs@[i].is_split_left(ln, ld, r.segs@[i])
                        && self.segs@[i].is_split_right(ln, ld, r.segs@[i + 1])
                        && (forall|k: int| i + 1 < k < r.segs@.len()
                            ==> r.segs@[k] == self.segs@[k - 1])
                        && (forall|k: int| 0 <= k <= i ==> r.cuts@[k] == self.cuts@[k] * m)
                        && r.cuts@[i + 1] == n * self.cut_den
                        && (forall|k: int| i + 1 < k < r.cuts@.len()
                            ==> r.cuts@[k] == self.cuts@[k - 1] * m)
                }
            }),
    {
        let ghost gn = t.num as int;
        let ghost gm = t.den as int;
        let i = self.seg_n(t);
        let lt = self.seg_t(t);
        proof {
            lemma_param_scale(self, gn, gm);
            lemma_local_param(self, gn, gm);
        }
        let halves = self.segs[i].split(lt);
        match halves {
            None => {
                let mut segs2: Vec<Bezier> = Vec::new();
                let mut cuts2: Vec<i64> = Vec::new();
                let mut k: usize = 0;
                while k < self.segs.len()
                    invariant
                        0 <= k <= self.segs@.len(),
                        segs2@.len() == k,
                        forall|j: int| 0 <= j < k ==> segs2@[j] == self.segs@[j],
                    decreases self.segs@.len() - k,
                {
                    segs2.push(self.segs[k]);
                    k = k + 1;
                }
                let mut k2: usize = 0;
                while k2 < self.cuts.len()
                    invariant
                        0 <= k2 <= self.cuts@.len(),
                        cuts2@.len() == k2,
                        forall|j: int| 0 <= j < k2 ==> cuts2@[j] == self.cuts@[j],
                    decreases self.cuts@.len() - k2,
                {
                    cuts2.push(self.cuts[k2]);
                    k2 = k2 + 1;
                }
                proof {
                    assert(segs2@ =~= self.segs@);
                    assert(cuts2@ =~= self.cuts@);
                }
                Piecewise { segs: segs2, cuts: cuts2, cut_den: self.cut_den }
            },
            Some((left, right)) => {
                let nsegs = self.segs.len();
                let mut segs2: Vec<Bezier> = Vec::new();
                let mut k: usize = 0;
                while k < i
                    invariant
                        0 <= k <= i < self.segs@.len(),
                        segs2@.len() == k,
                        forall|j: int| 0 <= j < k ==> segs2@[j] == self.segs@[j],
                    decreases i - k,
                {
                    segs2.push(self.segs[k]);
                    k = k + 1;
                }
                segs2.push(left);
                segs2.push(right);
                let mut k: usize = i + 1;
                while k < nsegs
                    invariant
                        i + 1 <= k <= self.segs@.len(),
                        nsegs == self.segs@.len(),
                        i < self.segs@.len(),
                        segs2@.len() == k + 1,
                        forall|j: int| 0 <= j < i ==> segs2@[j] == self.segs@[j],
                        segs2@[i as int] == left,
                        segs2@[i as int + 1] == right,
                        forall|j: int| i + 1 < j < segs2@.len() ==> segs2@[j] == self.segs@[
                            j - 1],
                    decreases self.segs@.len() - k,
                {
                    segs2.push(self.segs[k]);
                    k = k + 1;
                }
                let target: i64 = t.num * self.cut_den;
                proof {
                    lemma_scaled_cuts(self, gm);
                }
                let ncuts = self.cuts.len();
                let mut cuts2: Vec<i64> = Vec::new();
                let mut k2: usize = 0;
                while k2 <= i
                    invariant
                        0 <= k2 <= i + 1,
                        i < nsegs,
                        i + 1 < self.cuts@.len(),
                        scaled_cuts_ok(self, t.den as int),
                        cuts2@.len() == k2,
                        forall|j: int| 0 <= j < k2 ==> cuts2@[j] == self.cuts@[j] * t.den,
                    decreases i + 1 - k2,
                {
                    cuts2.push(self.cuts[k2] * t.den);
                    k2 = k2 + 1;
                }
                cuts2.push(target);
                let mut k2: usize = i + 1;
                while k2 < ncuts
                    invariant
                        i + 1 <= k2 <= self.cuts@.len(),
                        ncuts == self.cuts@.len(),
                        i + 1 < self.cuts@.len(),
                        target == t.num * self.cut_den,
                        scaled_cuts_ok(self, t.den as int),
                        cuts2@.len() == k2 + 1,
                        forall|j: int| 0 <= j <= i ==> cuts2@[j] == self.cuts@[j] * t.den,
                        cuts2@[i as int + 1] == t.num * self.cut_den,
                        forall|j: int| i + 1 < j < cuts2@.len() ==> cuts2@[j] == self.cuts@[
                            j - 1] * t.den,
                    decreases self.cuts@.len() - k2,
                {
                    cuts2.push(self.cuts[k2] * t.den);
                    k2 = k2 + 1;
                }
                proof {
                    lemma_refined_wf(self, gn, gm, left, right, segs2@, cuts2@);
                    assert(gm * self.cut_den == self.cut_den * gm) by (nonlinear_arith);
                }
                Piecewise { segs: segs2, cuts: cuts2, cut_den: self.cut_den * t.den }
            },
        }
    }

    /// Subdivision expressed as a cut: inserts a single cut at the
    /// global parameter `t`, splitting exactly the one segment that
    /// contains it.
    pub fn cut_at_t(&self, t: Frac) -> (r: Piecewise)
        requires
            self.split_ready(t.num as int, t.den as int),
        ensures
            r.wf(),
            ({
                let n = t.num as int;
                let m = t.den as int;
                let i = self.seg_index_spec(n, m);
                let ln = self.local_num(n, m);
                let ld = self.local_den(n, m);
                if ln == 0 || ln == ld {
                    r.segs@ == self.segs@ && r.cuts@ == self.cuts@
                        && r.cut_den == self.cut_den
                } else {
                    r.segs@.len() == self.segs@.len() + 1
                        && r.cuts@.len() == self.cuts@.len() + 1
                        && r.cut_den == self.cut_den * t.den
                        && (forall|k: int| 0 <= k < i ==> r.segs@[k] == self.segs@[k])
                        && self.segs@[i].is_split_left(ln, ld, r.segs@[i])
                        && self.segs@[i].is_split_right(ln, ld, r.segs@[i + 1])
                        && (forall|k: int| i + 1 < k < r.segs@.len()
                            ==> r.segs@[k] == self.segs@[k - 1])
                        && (forall|k: int| 0 <= k <= i ==> r.cuts@[k] == self.cuts@[k] * m)
                        && r.cuts@[i + 1] == n * self.cut_den
                        && (forall|k: int| i + 1 < k < r.cuts@.len()
                            ==> r.cuts@[k] == self.cuts@[k - 1] * m)
                }
            }),
    {
        self.subdivide(t)
    }
}

/// Every cut entry scaled by `m` stays in `[0, cut_den * m]`.
pub open spec fn scaled_cuts_ok(pw: &Piecewise, m: int) -> bool {
    forall|j: int| 0 <= j < pw.cuts@.len()
        ==> 0 <= #[trigger] (pw.cuts@[j] * m) <= CUT_DEN_LIMIT
}

/// Scaling the cut table of a well-formed container by a parameter
/// denominator that keeps `cut_den * m` within the cut limit keeps
/// every entry in range.
proof fn lemma_scaled_cuts(pw: &Piecewise, m: int)
    requires
        pw.wf(),
        1 <= m,
        m * pw.cut_den <= CUT_DEN_LIMIT,
    ensures
        scaled_cuts_ok(pw, m),
{
    assert forall|j: int| 0 <= j < pw.cuts@.len() implies 0 <= #[trigger] (pw.cuts@[j] * m)
        <= CUT_DEN_LIMIT by {
        assert(pw.cuts@[0] <= pw.cuts@[j] <= pw.cuts@[pw.cuts@.len() - 1]);
        assert(0 <= pw.cuts@[j] * m <= pw.cut_den * m) by (nonlinear_arith)
            requires
                0 <= pw.cuts@[j] <= pw.cut_den,
                1 <= m,
            ;
        assert(pw.cut_den * m == m * pw.cut_den) by (nonlinear_arith);
    }
}

/// Domain law for uniform cut tables: with `N` segments cut at
/// `i / N`, parameter 0 falls in segment 0 and parameter 1 falls in
/// segment `N - 1`.
pub proof fn lemma_uniform_domain(pw: Piecewise)
    requires
        pw.wf(),
        forall|i: int| 0 <= i < pw.cuts@.len() ==> pw.cuts@[i] == i,
        pw.cut_den == pw.segs@.len(),
    ensures
        pw.seg_index_spec(0, 1) == 0,
        pw.seg_index_spec(1, 1) == pw.segs@.len() - 1,
{
    let nn = pw.segs@.len() as int;
    assert(0 * pw.cut_den == 0) by (nonlinear_arith);
    assert(1 * pw.cut_den == pw.cut_den) by (nonlinear_arith);
    crate::search::lemma_floor_index_props(pw.cuts@, 0, 1);
    let f0 = floor_index(pw.cuts@, 0, 1);
    if f0 > 0 {
        assert(pw.cuts@[f0] * 1 == pw.cuts@[f0]);
        assert(false);
    }
    crate::search::lemma_floor_index_props(pw.cuts@, pw.cut_den as int, 1);
    let f1 = floor_index(pw.cuts@, pw.cut_den as int, 1);
    if f1 < nn - 1 {
        assert(pw.cuts@[nn - 1] * 1 > pw.cut_den);
        assert(false);
    }
}

/// The refined segment and cut tables produced by `subdivide` form a
/// well-formed container.
proof fn lemma_refined_wf(
    pw: &Piecewise,
    n: int,
    m: int,
    left: Bezier,
    right: Bezier,
    segs2: Seq<Bezier>,
    cuts2: Seq<i64>,
)
    requires
        pw.split_ready(n, m),
        left.wf(),
        right.wf(),
        pw.local_num(n, m) != 0,
        pw.local_num(n, m) != pw.local_den(n, m),
        segs2.len() == pw.segs@.len() + 1,
        cuts2.len() == pw.cuts@.len() + 1,
        forall|k: int| 0 <= k < pw.seg_index_spec(n, m) ==> segs2[k] == pw.segs@[k],
        segs2[pw.seg_index_spec(n, m)] == left,
        segs2[pw.seg_index_spec(n, m) + 1] == right,
        forall|k: int| pw.seg_index_spec(n, m) + 1 < k < segs2.len() ==> segs2[k] == pw.segs@[
            k - 1],
        forall|k: int| 0 <= k <= pw.seg_index_spec(n, m) ==> cuts2[k] == pw.cuts@[k] * m,
        cuts2[pw.seg_index_spec(n, m) + 1] == n * pw.cut_den,
        forall|k: int| pw.seg_index_spec(n, m) + 1 < k < cuts2.len() ==> cuts2[k] == pw.cuts@[
            k - 1] * m,
    ensures
        table_sorted(cuts2),
        cuts2[0] == 0,
        cuts2[cuts2.len() - 1] == pw.cut_den * m,
        forall|k: int| 0 <= k < segs2.len() ==> (#[trigger] segs2[k]).wf(),
        1 <= pw.cut_den * m <= CUT_DEN_LIMIT,
{
    let i = pw.seg_index_spec(n, m);
    lemma_param_scale(pw, n, m);
    lemma_local_param(pw, n, m);
    crate::search::lemma_floor_index_props(pw.cuts@, n * pw.cut_den, m);
    assert(cuts2[0] == pw.cuts@[0] * m && pw.cuts@[0] * m == 0) by (nonlinear_arith)
        requires
            cuts2[0] == pw.cuts@[0] * m,
            pw.cuts@[0] == 0,
        ;
    assert(1 <= pw.cut_den * m <= CUT_DEN_LIMIT && pw.cut_den * m == m * pw.cut_den)
        by (nonlinear_arith)
        requires
            1 <= pw.cut_den,
            1 <= m,
            m * pw.cut_den <= CUT_DEN_LIMIT,
        ;
    if i + 1 < pw.cuts@.len() - 1 {
        assert(cuts2[cuts2.len() - 1] == pw.cuts@[pw.cuts@.len() - 1] * m);
    } else {
        assert(i == pw.cuts@.len() - 2);
        assert(cuts2[cuts2.len() - 1] == pw.cuts@[pw.cuts@.len() - 1] * m);
    }
    // the inserted value lies strictly between its neighbours
    assert(pw.cuts@[i] * m < n * pw.cut_den);
    assert(n * pw.cut_den < pw.cuts@[i + 1] * m) by {
        assert(pw.local_num(n, m) < pw.local_den(n, m));
        assert(pw.local_den(n, m) == m * pw.cuts@[i + 1] - m * pw.cuts@[i]);
        assert(m * pw.cuts@[i + 1] == pw.cuts@[i + 1] * m) by (nonlinear_arith);
        assert(m * pw.cuts@[i] == pw.cuts@[i] * m) by (nonlinear_arith);
    }
    assert forall|a: int, b: int| 0 <= a <= b < cuts2.len() implies cuts2[a] <= cuts2[b] by {
        lemma_refined_sorted_pair(pw, n, m, cuts2, a, b);
    }
    assert forall|k: int| 0 <= k < segs2.len() implies (#[trigger] segs2[k]).wf() by {
        if k < i {
            assert(segs2[k] == pw.segs@[k]);
            assert(pw.segs@[k].wf());
        } else if k == i || k == i + 1 {
        } else {
            assert(segs2[k] == pw.segs@[k - 1]);
            assert(pw.segs@[k - 1].wf());
        }
    }
}

/// One pair of the refined cut table is ordered.
proof fn lemma_refined_sorted_pair(pw: &Piecewise, n: int, m: int, cuts2: Seq<i64>, a: int, b: int)
    requires
        pw.split_ready(n, m),
        cuts2.len() == pw.cuts@.len() + 1,
        forall|k: int| 0 <= k <= pw.seg_index_spec(n, m) ==> cuts2[k] == pw.cuts@[k] * m,
        cuts2[pw.seg_index_spec(n, m) + 1] == n * pw.cut_den,
        forall|k: int| pw.seg_index_spec(n, m) + 1 < k < cuts2.len() ==> cuts2[k] == pw.cuts@[
            k - 1] * m,
        pw.cuts@[pw.seg_index_spec(n, m)] * m < n * pw.cut_den,
        n * pw.cut_den < pw.cuts@[pw.seg_index_spec(n, m) + 1] * m,
        0 <= a <= b < cuts2.len(),
    ensures
        cuts2[a] <= cuts2[b],
{
    let i = pw.seg_index_spec(n, m);
    lemma_param_scale(pw, n, m);
    crate::search::lemma_floor_index_props(pw.cuts@, n * pw.cut_den, m);
    let scale = |k: int| pw.cuts@[k] * m;
    assert forall|p: int, q: int| 0 <= p <= q < pw.cuts@.len() implies pw.cuts@[p] * m
        <= pw.cuts@[q] * m by {
        assert(pw.cuts@[p] <= pw.cuts@[q]);
        assert(pw.cuts@[p] * m <= pw.cuts@[q] * m) by (nonlinear_arith)
            requires
                pw.cuts@[p] <= pw.cuts@[q],
                1 <= m,
            ;
    }
    if b <= i {
    } else if a <= i && b == i + 1 {
        assert(cuts2[a] == pw.cuts@[a] * m);
        assert(pw.cuts@[a] * m <= pw.cuts@[i] * m);
    } else if a <= i {
        assert(cuts2[b] == pw.cuts@[b - 1] * m);
        assert(pw.cuts@[a] * m <= pw.cuts@[b - 1] * m);
    } else if a == i + 1 && b == i + 1 {
    } else if a == i + 1 {
        assert(cuts2[b] == pw.cuts@[b - 1] * m);
        assert(pw.cuts@[i + 1] * m <= pw.cuts@[b - 1] * m);
    } else {
        assert(cuts2[a] == pw.cuts@[a - 1] * m);
        assert(cuts2[b] == pw.cuts@[b - 1] * m);
        assert(pw.cuts@[a - 1] * m <= pw.cuts@[b - 1] * m);
    }
}

/// Walks a piecewise curve segment by segment, yielding each segment
/// together with the global parameter range it covers.
pub struct SegmentIterator {
    pub piecewise: Piecewise,
    pub counter: usize,
}

impl SegmentIterator {
    pub fn new(pw: Piecewise) -> (r: SegmentIterator)
        requires
            pw.wf(),
        ensures
            r.piecewise == pw,
            r.counter == 0,
    {
        SegmentIterator { piecewise: pw, counter: 0 }
    }

    /// The next segment with its start and end cut fractions, or
    /// `None` once every segment has been yielded.
    pub fn next(&mut self) -> (r: Option<(Bezier, Frac, Frac)>)
        requires
            old(self).piecewise.wf(),
            old(self).counter <= old(self).piecewise.segs@.len(),
        ensures
            final(self).piecewise == old(self).piecewise,
            old(self).counter == old(self).piecewise.segs@.len() ==> r is None
                && final(self).counter == old(self).counter,
            old(self).counter < old(self).piecewise.segs@.len() ==> final(self).counter
                == old(self).counter + 1 && r == Some::<(Bezier, Frac, Frac)>(
                (
                    old(self).piecewise.segs@[old(self).counter as int],
                    Frac {
                        num: old(self).piecewise.cuts@[old(self).counter as int],
                        den: old(self).piecewise.cut_den,
                    },
                    Frac {
                        num: old(self).piecewise.cuts@[old(self).counter as int + 1],
                        den: old(self).piecewise.cut_den,
                    },
                )),
    {
        if self.counter == self.piecewise.segs.len() {
            return None;
        }
        let start_time = Frac {
            num: self.piecewise.cuts[self.counter],
            den: self.piecewise.cut_den,
        };
        let end_time = Frac {
            num: self.piecewise.cuts[self.counter + 1],
            den: self.piecewise.cut_den,
        };
        let item = self.piecewise.segs[self.counter];
        self.counter = self.counter + 1;
        Some((item, start_time, end_time))
    }
}

/// A well-formed curve's endpoints lie within the coordinate range of
/// its denominator.
proof fn lemma_coords_within(bz: Bezier)
    requires
        bz.wf(),
    ensures
        (RatPoint { x: bz.w1.x, y: bz.w1.y, den: bz.den }).coords_within(
            crate::nums::COORD_LIMIT as int),
        (RatPoint { x: bz.w4.x, y: bz.w4.y, den: bz.den }).coords_within(
            crate::nums::COORD_LIMIT as int),
{
}

/// Scale facts for the cut lookup: cut entries lie in `[0, cut_den]`,
/// every product with the parameter denominator stays well inside the
/// `i64` range, and the scaled target is nonnegative.
proof fn lemma_param_scale(pw: &Piecewise, n: int, m: int)
    requires
        pw.wf(),
        pw.param_ok(n, m),
    ensures
        table_scale_ok(pw.cuts@, m),
        0 <= n * pw.cut_den <= 0x4000_0000_0000_0000,
        pw.cuts@[0] * m == 0,
        forall|i: int| 0 <= i < pw.cuts@.len() ==> 0 <= #[trigger] pw.cuts@[i] <= pw.cut_den,
{
    assert forall|i: int| 0 <= i < pw.cuts@.len() implies 0 <= #[trigger] pw.cuts@[i]
        <= pw.cut_den by {
        assert(pw.cuts@[0] <= pw.cuts@[i] <= pw.cuts@[pw.cuts@.len() - 1]);
    }
    assert forall|i: int| 0 <= i < pw.cuts@.len()
        implies -0x4000_0000_0000_0000 <= #[trigger] (pw.cuts@[i] * m)
        <= 0x4000_0000_0000_0000 by {
        lemma_mul_bound(pw.cuts@[i] as int, m, CUT_DEN_LIMIT as int, PARAM_DEN_LIMIT as int);
    }
    assert(0 <= n * pw.cut_den <= 0x4000_0000_0000_0000) by (nonlinear_arith)
        requires
            0 <= n <= m,
            1 <= m <= PARAM_DEN_LIMIT,
            1 <= pw.cut_den <= CUT_DEN_LIMIT,
        ;
    assert(pw.cuts@[0] * m == 0);
}

/// The remapped local parameter lies in the unit interval and its
/// denominator is positive.
proof fn lemma_local_param(pw: &Piecewise, n: int, m: int)
    requires
        pw.wf(),
        pw.param_ok(n, m),
        pw.seg_cut_nonzero(n, m),
    ensures
        0 <= pw.local_num(n, m) <= pw.local_den(n, m),
        1 <= pw.local_den(n, m) <= 0x4000_0000_0000_0000,
        pw.local_den(n, m) == m * pw.cuts@[pw.seg_index_spec(n, m) + 1]
            - m * pw.cuts@[pw.seg_index_spec(n, m)],
{
    lemma_param_scale(pw, n, m);
    crate::search::lemma_floor_index_props(pw.cuts@, n * pw.cut_den, m);
    let i = pw.seg_index_spec(n, m);
    let ci = pw.cuts@[i] as int;
    let ci1 = pw.cuts@[i + 1] as int;
    assert(m * (ci1 - ci) == m * ci1 - m * ci) by (nonlinear_arith);
    assert(1 <= m * (ci1 - ci) <= 0x4000_0000_0000_0000) by (nonlinear_arith)
        requires
            1 <= m <= PARAM_DEN_LIMIT,
            ci < ci1,
            0 <= ci,
            ci1 <= CUT_DEN_LIMIT,
        ;
    // lower bound of the local numerator: the bracketing cut is at or
    // below the target
    assert(ci * m <= n * pw.cut_den);
    assert(ci * m == m * ci) by (nonlinear_arith);
    // upper bound: the target is below the next cut (strictly inside
    // the table) or at most the final cut
    if i + 2 < pw.cuts@.len() {
        assert(pw.cuts@[i + 1] * m > n * pw.cut_den);
        assert(ci1 * m == m * ci1) by (nonlinear_arith);
    } else {
        assert(ci1 == pw.cut_den);
        assert(n * pw.cut_den <= m * ci1) by (nonlinear_arith)
            requires
                0 <= n <= m,
                1 <= pw.cut_den,
                ci1 == pw.cut_den,
            ;
    }
}

/// A shoelace term of two grid points is bounded by twice the square
/// of the coordinate limit.
proof fn lemma_cross_bound(p: Vector, q: Vector)
    by (nonlinear_arith)
    requires
        -COORD_LIMIT <= p.x <= COORD_LIMIT,
        -COORD_LIMIT <= p.y <= COORD_LIMIT,
        -COORD_LIMIT <= q.x <= COORD_LIMIT,
        -COORD_LIMIT <= q.y <= COORD_LIMIT,
    ensures
        -1099511627776 <= p.x * q.y <= 1099511627776,
        -1099511627776 <= q.x * p.y <= 1099511627776,
        -2199023255552 <= p.x * q.y - q.x * p.y <= 2199023255552,
{
}

/// A well-formed curve on the plain grid has all control points in
/// the coordinate range.
proof fn lemma_unit_coords(b: Bezier)
    requires
        b.wf(),
        b.den == 1,
    ensures
        -COORD_LIMIT <= b.w1.x <= COORD_LIMIT,
        -COORD_LIMIT <= b.w1.y <= COORD_LIMIT,
        -COORD_LIMIT <= b.w4.x <= COORD_LIMIT,
        -COORD_LIMIT <= b.w4.y <= COORD_LIMIT,
{
    assert(COORD_LIMIT * (b.den as int) == COORD_LIMIT) by (nonlinear_arith)
        requires
            b.den == 1,
        ;
}

} // verus!
