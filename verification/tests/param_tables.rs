use curvekit::angleparameterization::AngleParameterization;
use curvekit::arclenparameterization::ArcLengthParameterization;
use curvekit::bezier::Bezier;
use curvekit::interpolator::{InterpolationType, Interpolator};
use curvekit::nums::Frac;
use curvekit::pattern::{PatternCopies, PatternSubdivide};
use curvekit::piecewise::Piecewise;
use curvekit::search::{find_interval, SearchError};
use curvekit::vector::Vector;

fn pt(x: i64, y: i64) -> Vector {
    Vector { x, y }
}

fn uniform_line(total: i64) -> Piecewise {
    // a horizontal line traversed at uniform speed
    let k = total / 3;
    let seg = Bezier::from_points(pt(0, 0), pt(k, 0), pt(2 * k, 0), pt(3 * k, 0));
    Piecewise::new(vec![seg], None, 1)
}

#[test]
fn interval_search_conventions() {
    let table: Vec<i64> = vec![0, 10, 10, 20, 30];
    // strictly inside an interval
    assert_eq!(find_interval(&table, 15, 1), Ok(2));
    // on a duplicated value: lands after the run of duplicates
    assert_eq!(find_interval(&table, 10, 1), Ok(2));
    // beyond the last entry: clamps to the final interval
    assert_eq!(find_interval(&table, 99, 1), Ok(3));
    // before the first entry
    assert_eq!(find_interval(&table, -1, 1), Err(SearchError::BeforeRange));
    // a table without an interval
    let single: Vec<i64> = vec![5];
    assert_eq!(find_interval(&single, 5, 1), Err(SearchError::EmptyTable));
    // rational target: 15 (as 30/2) lies in [10, 20)
    assert_eq!(find_interval(&table, 30, 2), Ok(2));
}

#[test]
fn arclen_table_of_uniform_line() {
    // sampled 8 times, the cumulative table of a uniform line is an
    // exact arithmetic progression
    let pw = uniform_line(240);
    let table = ArcLengthParameterization::from(&pw, 8);
    assert_eq!(table.arclens, vec![0, 30, 60, 90, 120, 150, 180, 210, 240]);
    assert_eq!(table.get_total_arclen(), 240);
}

#[test]
fn arclen_monotonicity() {
    // a real curve: table entries never decrease and parameterize is
    // monotone over a sweep of inputs
    let seg = Bezier::from_points(pt(0, 0), pt(0, 800), pt(800, 800), pt(800, 0));
    let pw = Piecewise::new(vec![seg], None, 1);
    let table = ArcLengthParameterization::from(&pw, 64);
    for k in 1..table.arclens.len() {
        assert!(table.arclens[k - 1] <= table.arclens[k]);
    }
    let mut prev = Frac { num: 0, den: 1 };
    let mut first = true;
    for n in 0..=16 {
        let u = Frac { num: n, den: 16 };
        let t = table.parameterize(u);
        assert!(t.den >= 1);
        if !first {
            // prev <= t as rationals
            assert!(prev.num * t.den <= t.num * prev.den);
        }
        prev = t;
        first = false;
    }
}

#[test]
fn arclen_identity_on_uniform_line() {
    // reparameterizing a uniform-speed line by arc length is the
    // identity, exactly
    let pw = uniform_line(3 * 64);
    let table = ArcLengthParameterization::from(&pw, 16);
    for n in 0..=12 {
        let u = Frac { num: n, den: 12 };
        let t = table.parameterize(u);
        assert_eq!(t.num * u.den, u.num * t.den);
    }
}

#[test]
fn arclen_interpolated_lookup() {
    let table = ArcLengthParameterization { arclens: vec![0, 10, 20, 30] };
    let half = table.parameterize(Frac { num: 1, den: 2 });
    assert_eq!((half.num, half.den), (30, 60));
    let at_zero = table.parameterize(Frac { num: 0, den: 1 });
    assert_eq!((at_zero.num, at_zero.den), (0, 3));
    let at_one = table.parameterize(Frac { num: 1, den: 1 });
    assert_eq!((at_one.num, at_one.den), (30, 30));
    // cumulative length at a native parameter: exact interpolation
    let len_at = table.get_arclen_from_t(Frac { num: 1, den: 2 });
    assert_eq!((len_at.num, len_at.den), (30, 2));
    let len_mid = table.get_arclen_from_t(Frac { num: 1, den: 6 });
    assert_eq!((len_mid.num, len_mid.den), (30, 6));
}

#[test]
fn angle_interval_extraction() {
    // a quarter-turn-per-step table with total just below a full
    // turn: crossings of a quarter of the total appear at the three
    // interior quarters of the parameter range
    let s = 65536;
    let table = AngleParameterization { total_angles: vec![0, s, 2 * s, 3 * s, 4 * s - 1] };
    let crossings = table.find_parameters_for_angle_intervals(s);
    assert_eq!(crossings.len(), 3);
    assert_eq!(crossings[0].num * 4, crossings[0].den); // 1/4
    assert_eq!(crossings[1].num * 2, crossings[1].den); // 1/2
    assert_eq!(crossings[2].num * 4, crossings[2].den * 3); // 3/4
    // restricted to the second half of the parameter range, only the
    // crossings after the range start are found, thresholds counted
    // from the turning at the range start
    let ranged = table.find_parameters_for_angle_intervals_in_range(
        s,
        Frac { num: 1, den: 4 },
        Frac { num: 1, den: 1 },
    );
    assert_eq!(ranged.len(), 2);
    assert_eq!(ranged[0].num * 2, ranged[0].den); // 1/2
    assert_eq!(ranged[1].num * 4, ranged[1].den * 3); // 3/4
}

#[test]
fn angle_table_of_quarter_turn() {
    // a circular-arc approximation turning a quarter turn: the total
    // accumulated diamond angle is one quadrant's worth, up to
    // rounding of the sampled tangents
    let seg = Bezier::from_points(pt(1000, 0), pt(1000, 552), pt(552, 1000), pt(0, 1000));
    let pw = Piecewise::new(vec![seg], None, 1);
    let table = AngleParameterization::from(&pw, 32);
    let total = table.get_total_angle();
    let quadrant = 65536;
    assert!(total >= quadrant - 16 && total <= quadrant + 4096);
    // turning accumulates: parameterize is monotone here too
    let quarter = table.parameterize(Frac { num: 1, den: 4 });
    let half = table.parameterize(Frac { num: 1, den: 2 });
    assert!(quarter.num * half.den <= half.num * quarter.den);
    // the interpolated angle at t = 1 is the total
    let at_end = table.get_angle_from_t(Frac { num: 1, den: 1 });
    assert_eq!(at_end.num, total * at_end.den);
}

#[test]
fn interpolator_pacing() {
    let lin = Interpolator::new(100, 200, InterpolationType::Linear);
    let half = lin.at(Frac { num: 1, den: 2 });
    assert_eq!((half.num, half.den), (300, 2));
    let still = Interpolator::new_none(100, 200);
    let anywhere = still.at(Frac { num: 3, den: 4 });
    assert_eq!((anywhere.num, anywhere.den), (400, 4));
    let lin2 = Interpolator::new_linear(0, 8);
    let quarter = lin2.at(Frac { num: 1, den: 4 });
    assert_eq!((quarter.num, quarter.den), (8, 4));
}

#[test]
fn pattern_setting_kinds() {
    let copies = PatternCopies::Fixed(3);
    match copies {
        PatternCopies::Fixed(n) => assert_eq!(n, 3),
        PatternCopies::Single | PatternCopies::Repeated => panic!("wrong variant"),
    }
    let sub = PatternSubdivide::Simple(2);
    assert!(matches!(sub, PatternSubdivide::Simple(2)));
    assert!(matches!(PatternSubdivide::Off, PatternSubdivide::Off));
}
