use curvekit::bezier::Bezier;
use curvekit::continuity::continuous_at;
use curvekit::nums::{floor_div, isqrt, Frac, RatPoint};
use curvekit::piecewise::{Piecewise, SegmentIterator};
use curvekit::rect::{FlipIfRequired, Rect};
use curvekit::vector::Vector;

fn pt(x: i64, y: i64) -> Vector {
    Vector { x, y }
}

fn line_seg(x0: i64, x1: i64, y: i64) -> Bezier {
    // uniform-speed line as a cubic: handles at the thirds
    let d = (x1 - x0) / 3;
    Bezier::from_points(
        pt(x0, y),
        pt(x0 + d, y),
        pt(x0 + 2 * d, y),
        pt(x1, y),
    )
}

#[test]
fn isqrt_exact_values() {
    assert_eq!(isqrt(0), 0);
    assert_eq!(isqrt(1), 1);
    assert_eq!(isqrt(2), 1);
    assert_eq!(isqrt(25), 5);
    assert_eq!(isqrt(24), 4);
    assert_eq!(isqrt(1 << 40), 1 << 20);
}

#[test]
fn floor_div_rounds_down() {
    assert_eq!(floor_div(7, 2), 3);
    assert_eq!(floor_div(-7, 2), -4);
    assert_eq!(floor_div(-8, 2), -4);
    assert_eq!(floor_div(0, 5), 0);
}

#[test]
fn vector_metrics() {
    let a = pt(3, 4);
    assert_eq!(a.magnitude(), 5);
    assert_eq!(pt(1, 1).distance(pt(4, 5)), 5);
    assert_eq!(pt(2, 3).dot(pt(4, 5)), 23);
    assert!(pt(10, 10).is_near(pt(11, 9), 1));
    assert!(!pt(10, 10).is_near(pt(12, 9), 1));
    let mid = pt(0, 0).lerp(pt(10, 20), Frac { num: 1, den: 2 });
    assert_eq!(mid, RatPoint { x: 10, y: 20, den: 2 });
}

#[test]
fn evaluation_endpoint_law() {
    let b = Bezier::from_points(pt(0, 0), pt(10, 20), pt(30, 40), pt(50, 0));
    let start = b.at(Frac { num: 0, den: 1 });
    let end = b.at(Frac { num: 1, den: 1 });
    assert_eq!(start, RatPoint { x: 0, y: 0, den: 1 });
    assert_eq!(end, RatPoint { x: 50, y: 0, den: 1 });
    // a curve with a scaled denominator keeps the law as rationals
    let (l, _r) = b.split(Frac { num: 1, den: 2 }).unwrap();
    let ls = l.at(Frac { num: 0, den: 1 });
    assert_eq!(ls.x * b.den, b.w1.x * ls.den);
    assert_eq!(ls.y * b.den, b.w1.y * ls.den);
}

#[test]
fn evaluation_midpoint_value() {
    let b = Bezier::from_points(pt(0, 0), pt(10, 20), pt(30, 40), pt(50, 0));
    let mid = b.at(Frac { num: 1, den: 2 });
    // (0 + 3*10 + 3*30 + 50) / 8 and (0 + 3*20 + 3*40 + 0) / 8
    assert_eq!(mid, RatPoint { x: 170, y: 180, den: 8 });
}

#[test]
fn split_reconstruction_law() {
    let b = Bezier::from_points(pt(0, 0), pt(10, 20), pt(30, 40), pt(50, 0));
    let t = Frac { num: 1, den: 2 };
    let (l, r) = b.split(t).unwrap();
    // joint: left end == right start == curve value at t
    assert_eq!(l.w4, r.w1);
    assert_eq!(l.den, r.den);
    let at_t = b.at(t);
    assert_eq!(l.w4.x, at_t.x);
    assert_eq!(l.w4.y, at_t.y);
    assert_eq!(l.den, at_t.den);
    // left half at s reproduces the curve at s*t, exactly
    let l_mid = l.at(Frac { num: 1, den: 2 });
    let b_quarter = b.at(Frac { num: 1, den: 4 });
    assert_eq!(l_mid.x * b_quarter.den, b_quarter.x * l_mid.den);
    assert_eq!(l_mid.y * b_quarter.den, b_quarter.y * l_mid.den);
    // right half at s reproduces the curve at t + s*(1-t)
    let r_mid = r.at(Frac { num: 1, den: 2 });
    let b_three_quarter = b.at(Frac { num: 3, den: 4 });
    assert_eq!(r_mid.x * b_three_quarter.den, b_three_quarter.x * r_mid.den);
    assert_eq!(r_mid.y * b_three_quarter.den, b_three_quarter.y * r_mid.den);
    // no split at the ends
    assert!(b.split(Frac { num: 0, den: 1 }).is_none());
    assert!(b.split(Frac { num: 1, den: 1 }).is_none());
    assert!(b.split(Frac { num: 4, den: 4 }).is_none());
}

#[test]
fn reverse_swaps_control_points() {
    let b = Bezier::from_points(pt(0, 0), pt(10, 20), pt(30, 40), pt(50, 0));
    let r = b.reverse();
    assert_eq!(r.w1, b.w4);
    assert_eq!(r.w2, b.w3);
    assert_eq!(r.w3, b.w2);
    assert_eq!(r.w4, b.w1);
    let v = r.at(Frac { num: 1, den: 4 });
    let w = b.at(Frac { num: 3, den: 4 });
    assert_eq!(v.x, w.x);
    assert_eq!(v.y, w.y);
}

#[test]
fn tangent_and_second_derivative() {
    let b = Bezier::from_points(pt(0, 0), pt(10, 0), pt(20, 0), pt(30, 0));
    let tan = b.tangent_at(Frac { num: 1, den: 2 });
    // uniform-speed line: derivative is 30 everywhere
    assert_eq!(tan.x * 1, 30 * tan.den);
    assert_eq!(tan.y, 0);
    let sd = b.second_derivative_at(Frac { num: 1, den: 2 });
    assert_eq!(sd.x, 0);
    assert_eq!(sd.y, 0);
}

#[test]
fn control_point_access() {
    let b = Bezier::from_points(pt(1, 2), pt(3, 4), pt(5, 6), pt(7, 8));
    let arr = b.to_control_points();
    assert_eq!(arr[0], pt(1, 2));
    assert_eq!(arr[3], pt(7, 8));
    let v = b.to_control_points_vec();
    assert_eq!(v.len(), 4);
    assert_eq!(v[1], pt(3, 4));
    assert_eq!(v[2], pt(5, 6));
    let moved = b.translate(pt(5, -5));
    assert_eq!(moved.w1, pt(6, -3));
    assert_eq!(moved.w4, pt(12, 3));
}

#[test]
fn piecewise_domain_law() {
    let segs = vec![
        line_seg(0, 30, 0),
        line_seg(30, 60, 0),
        line_seg(60, 90, 0),
        line_seg(90, 120, 0),
    ];
    let pw = Piecewise::new(segs, None, 1);
    assert_eq!(pw.cut_den, 4);
    assert_eq!(pw.cuts, vec![0, 1, 2, 3, 4]);
    assert_eq!(pw.seg_n(Frac { num: 0, den: 1 }), 0);
    assert_eq!(pw.seg_n(Frac { num: 1, den: 1 }), 3);
    assert_eq!(pw.seg_n(Frac { num: 1, den: 2 }), 2);
    assert_eq!(pw.seg_n(Frac { num: 3, den: 8 }), 1);
    let local = pw.seg_t(Frac { num: 3, den: 8 });
    // 3/8 is half way into the second quarter
    assert_eq!(local.num * 2, local.den);
    assert!(local.num >= 0 && local.num <= local.den);
    let zero_local = pw.seg_t(Frac { num: 0, den: 1 });
    assert_eq!(zero_local.num, 0);
    let one_local = pw.seg_t(Frac { num: 1, den: 1 });
    assert_eq!(one_local.num, one_local.den);
}

#[test]
fn piecewise_evaluation_matches_segment() {
    let segs = vec![line_seg(0, 30, 0), line_seg(30, 60, 0)];
    let pw = Piecewise::new(segs, None, 1);
    let v = pw.at(Frac { num: 1, den: 4 });
    // quarter of the path: middle of the first segment, x = 15
    assert_eq!(v.x, 15 * v.den);
    let sp = pw.start_point();
    let ep = pw.end_point();
    assert_eq!((sp.x, sp.y, sp.den), (0, 0, 1));
    assert_eq!((ep.x, ep.y, ep.den), (60, 0, 1));
}

#[test]
fn subdivide_inserts_cut() {
    let segs = vec![line_seg(0, 30, 0), line_seg(30, 60, 0)];
    let pw = Piecewise::new(segs, None, 1);
    let cut = pw.subdivide(Frac { num: 1, den: 4 });
    assert_eq!(cut.segs.len(), 3);
    assert_eq!(cut.cuts.len(), 4);
    assert_eq!(cut.cut_den, 2 * 4);
    assert_eq!(cut.cuts, vec![0, 2, 4, 8]);
    // the two halves share the split point
    assert_eq!(cut.segs[0].w4, cut.segs[1].w1);
    // splitting exactly on an existing cut changes nothing
    let same = pw.cut_at_t(Frac { num: 1, den: 2 });
    assert_eq!(same.segs.len(), 2);
    assert_eq!(same.cuts, pw.cuts);
    assert_eq!(same.cut_den, pw.cut_den);
}

#[test]
fn closed_path_detection() {
    let up = Bezier::from_points(pt(0, 0), pt(50, 50), pt(100, 50), pt(100, 0));
    let back = Bezier::from_points(pt(100, 0), pt(50, -50), pt(0, -50), pt(0, 0));
    let closed = Piecewise::new(vec![up, back], None, 1);
    assert!(closed.is_closed(0));
    let off = Bezier::from_points(pt(100, 0), pt(50, -50), pt(0, -50), pt(0, 3));
    let open_path = Piecewise::new(vec![up, off], None, 1);
    assert!(!open_path.is_closed(2));
    assert!(open_path.is_closed(3));
}

#[test]
fn continuity_grouping_scenario() {
    // four segments; the joint between the second and third has a
    // positional gap beyond tolerance, all other joints are smooth
    let s1 = line_seg(0, 30, 0);
    let s2 = line_seg(30, 60, 0);
    let s3 = line_seg(100, 130, 0);
    let s4 = line_seg(130, 160, 0);
    let pw = Piecewise::new(vec![s1, s2, s3, s4], None, 1);
    let groups = pw.as_continuous_beziers(1, 1);
    assert_eq!(groups.len(), 2);
    assert_eq!(groups[0].segs.len(), 2);
    assert_eq!(groups[1].segs.len(), 2);
    assert_eq!(groups[0].segs[0].w1, pt(0, 0));
    assert_eq!(groups[1].segs[0].w1, pt(100, 0));
    // a corner (tangent break) splits at order 1 but not at order 0
    let c1 = line_seg(0, 30, 0);
    let c2 = Bezier::from_points(pt(30, 0), pt(30, 10), pt(30, 20), pt(30, 30));
    let corner = Piecewise::new(vec![c1, c2], None, 1);
    assert_eq!(corner.as_continuous_beziers(0, 1).len(), 1);
    assert_eq!(corner.as_continuous_beziers(1, 1).len(), 2);
    assert_eq!(corner.split_at_discontinuities(1).len(), 1);
    assert!(continuous_at(&c1, &c2, 0, 1));
    assert!(!continuous_at(&c1, &c2, 1, 1));
}

#[test]
fn rect_operations() {
    let r = Rect { left: 0, right: 10, bottom: 0, top: 5 };
    let grown = r.encapsulate(pt(-3, 8));
    assert_eq!(grown, Rect { left: -3, right: 10, bottom: 0, top: 8 });
    let aabb = Rect::AABB_from_points(vec![pt(1, 7), pt(-2, 3), pt(5, -4)]);
    assert_eq!(aabb, Rect { left: -2, right: 5, bottom: -4, top: 7 });
    let both = r.encapsulate_rect(aabb);
    assert_eq!(both, Rect { left: -2, right: 10, bottom: -4, top: 7 });
    assert!(r.overlaps(&Rect { left: 5, right: 15, bottom: 1, top: 4 }));
    assert!(!r.overlaps(&Rect { left: 11, right: 15, bottom: 1, top: 4 }));
    let ov = r.overlap_rect(&Rect { left: 5, right: 15, bottom: 1, top: 4 });
    assert_eq!(ov, Rect { left: 5, right: 10, bottom: 1, top: 4 });
    assert_eq!(r.area(), 50);
    assert_eq!(r.width(), 10);
    assert_eq!(r.height(), 5);
    let c = r.center();
    assert_eq!((c.x, c.y, c.den), (10, 5, 2));
    let mut flipped = Rect { left: 10, right: 0, bottom: 5, top: 0 };
    flipped.flip_if_required();
    assert_eq!(flipped, Rect { left: 0, right: 10, bottom: 0, top: 5 });
}

#[test]
fn bounding_boxes() {
    let b = Bezier::from_points(pt(0, 0), pt(10, 20), pt(30, -5), pt(50, 0));
    let bb = b.bounds();
    assert_eq!(bb, Rect { left: 0, right: 50, bottom: -5, top: 20 });
    // a split half carries a denominator; its box rounds outward
    let (l, _) = b.split(Frac { num: 1, den: 2 }).unwrap();
    let lb = l.bounds();
    assert!(lb.left * l.den <= l.w1.x && l.w1.x <= lb.right * l.den);
    let pw = Piecewise::new(
        vec![
            Bezier::from_points(pt(0, 0), pt(1, 1), pt(2, 2), pt(3, 3)),
            Bezier::from_points(pt(3, 3), pt(10, -4), pt(20, 5), pt(30, 0)),
        ],
        None,
        1,
    );
    let pb = pw.bounds();
    assert_eq!(pb, Rect { left: 0, right: 30, bottom: -4, top: 5 });
}

#[test]
fn approximate_area_of_square() {
    // two segments tracing a unit-square outline's two halves
    let a = Bezier::from_points(pt(0, 0), pt(100, 0), pt(100, 0), pt(100, 100));
    let b = Bezier::from_points(pt(100, 100), pt(0, 100), pt(0, 100), pt(0, 0));
    let pw = Piecewise::new(vec![a, b], None, 1);
    let area = pw.approximate_area();
    // chords (0,0)->(100,100)->(0,0) enclose nothing: the chord
    // approximation sees a degenerate polygon
    assert_eq!(area.den, 2);
    assert_eq!(area.num, 0);
    // a triangle with vertices (0,0), (100,0), (0,100)
    let e1 = Bezier::from_points(pt(0, 0), pt(30, 0), pt(70, 0), pt(100, 0));
    let e2 = Bezier::from_points(pt(100, 0), pt(70, 30), pt(30, 70), pt(0, 100));
    let e3 = Bezier::from_points(pt(0, 100), pt(0, 70), pt(0, 30), pt(0, 0));
    let tri = Piecewise::new(vec![e1, e2, e3], None, 1);
    let tri_area = tri.approximate_area();
    assert_eq!((tri_area.num, tri_area.den), (10000, 2));
}

#[test]
fn curvature_ratios() {
    let b = Bezier::from_points(pt(0, 0), pt(10, 20), pt(30, 40), pt(50, 0));
    let mn = b.min_curvature();
    // (3*10 - 0) / (6*10 - 0 - 3*30) = 30 / -30: normalized sign
    assert_eq!((mn.num, mn.den), (-30, 30));
    let mx = b.max_curvature();
    // (3*30 - 50) / (3*30 - 50 + 2*10 - 0) = 40 / 60
    assert_eq!((mx.num, mx.den), (40, 60));
}

#[test]
fn segment_iterator_walks_ranges() {
    let segs = vec![line_seg(0, 30, 0), line_seg(30, 60, 0)];
    let pw = Piecewise::new(segs, None, 1);
    let mut it = SegmentIterator::new(pw);
    let (s0, a0, b0) = it.next().unwrap();
    assert_eq!(s0.w1, pt(0, 0));
    assert_eq!((a0.num, a0.den), (0, 2));
    assert_eq!((b0.num, b0.den), (1, 2));
    let (s1, a1, b1) = it.next().unwrap();
    assert_eq!(s1.w4, pt(60, 0));
    assert_eq!((a1.num, a1.den), (1, 2));
    assert_eq!((b1.num, b1.den), (2, 2));
    assert!(it.next().is_none());
}
