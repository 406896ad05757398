use fillrule::sampling::disagree;
use fillrule::{
    build_path, winding, Path, Point, PointKind, RawContourPoint, RawPoint,
    SamplingWindingDetector, SCALE, STEPS,
};

fn raw(kind: PointKind, x: i32, y: i32) -> RawContourPoint {
    RawContourPoint { point: RawPoint { x, y }, kind }
}

fn polygon(corners: &[(i32, i32)]) -> Vec<RawContourPoint> {
    let mut points = vec![raw(PointKind::Move, corners[0].0, corners[0].1)];
    for &(x, y) in &corners[1..] {
        points.push(raw(PointKind::Line, x, y));
    }
    points
}

/// A circle of radius 10 about `(cx, cy)`, as four cubic curves.
fn circle(cx: i32, cy: i32, counter_clockwise: bool) -> Vec<RawContourPoint> {
    let turn = if counter_clockwise { 1 } else { -1 };
    let ring = [
        (10, 6 * turn),
        (6, 10 * turn),
        (0, 10 * turn),
        (-6, 10 * turn),
        (-10, 6 * turn),
        (-10, 0),
        (-10, -6 * turn),
        (-6, -10 * turn),
        (0, -10 * turn),
        (6, -10 * turn),
        (10, -6 * turn),
        (10, 0),
    ];
    let mut points = vec![raw(PointKind::Move, cx + 10, cy)];
    for (i, &(x, y)) in ring.iter().enumerate() {
        let kind = if i % 3 == 2 { PointKind::CubicEnd } else { PointKind::OffCurve };
        points.push(raw(kind, cx + x, cy + y));
    }
    points
}

/// The winding number about a point given in whole units.
fn wind(path: &Path, x: i64, y: i64) -> i128 {
    winding(path, Point { x: 2 * x, y: 2 * y })
}

#[test]
fn chords_and_grid() {
    assert_eq!(STEPS, 16);
    assert_eq!(SCALE, STEPS * STEPS * STEPS);
}

#[test]
fn rules_disagree_on_even_winding_numbers_but_zero() {
    assert!(!disagree(0));
    assert!(!disagree(1));
    assert!(!disagree(-1));
    assert!(disagree(2));
    assert!(disagree(-2));
    assert!(!disagree(3));
    assert!(!disagree(-3));
    assert!(disagree(4));
    assert!(!disagree(i128::MAX));
    assert!(disagree(i128::MIN));
}

#[test]
fn counter_clockwise_winds_plus_one_clockwise_minus_one() {
    let ccw = build_path(&vec![polygon(&[(0, 0), (100, 0), (100, 50), (0, 50)])]).unwrap();
    let cw = build_path(&vec![polygon(&[(0, 0), (0, 50), (100, 50), (100, 0)])]).unwrap();
    assert_eq!(wind(&ccw, 50, 25), 1);
    assert_eq!(wind(&cw, 50, 25), -1);
    assert_eq!(wind(&ccw.flip_y(), 50, -25), -1);
    for &(x, y) in &[(-1, 25), (101, 25), (50, -1), (50, 51), (1000, 1000), (-7, -7)] {
        assert_eq!(wind(&ccw, x, y), 0);
        assert_eq!(wind(&cw, x, y), 0);
    }
}

#[test]
fn winding_is_taken_at_half_units_too() {
    let path = build_path(&vec![polygon(&[(0, 0), (1, 0), (1, 1), (0, 1)])]).unwrap();
    assert_eq!(winding(&path, Point { x: 1, y: 1 }), 1);
    assert_eq!(winding(&path, Point { x: 3, y: 1 }), 0);
    assert_eq!(winding(&path, Point { x: -1, y: 1 }), 0);
}

#[test]
fn points_on_the_border_are_settled_one_way() {
    let path = build_path(&vec![polygon(&[(0, 0), (100, 0), (100, 50), (0, 50)])]).unwrap();
    // Left and lower border count as inside, right and upper border as outside.
    assert_eq!(wind(&path, 0, 25), 1);
    assert_eq!(wind(&path, 50, 0), 1);
    assert_eq!(wind(&path, 0, 0), 1);
    assert_eq!(wind(&path, 100, 25), 0);
    assert_eq!(wind(&path, 50, 50), 0);
    assert_eq!(wind(&path, 100, 50), 0);
    assert_eq!(wind(&path, 100, 0), 0);
    assert_eq!(wind(&path, 0, 50), 0);
}

#[test]
fn a_corner_on_the_ray_counts_once() {
    // The ray from (1, 5) passes through the corner (10, 5) of the diamond.
    let diamond = build_path(&vec![polygon(&[(5, 0), (10, 5), (5, 10), (0, 5)])]).unwrap();
    assert_eq!(wind(&diamond, 1, 5), 1);
    assert_eq!(wind(&diamond, 5, 5), 1);
    assert_eq!(wind(&diamond, -1, 5), 0);
    assert_eq!(wind(&diamond, 11, 5), 0);
    // The ray from (-3, 10) touches the top corner only.
    assert_eq!(wind(&diamond, -3, 10), 0);
    assert_eq!(wind(&diamond, -3, 0), 0);
}

#[test]
fn far_away_points_wind_zero() {
    let path = build_path(&vec![circle(0, 0, true)]).unwrap();
    let far = i64::MAX;
    for &p in &[
        Point { x: far, y: 0 },
        Point { x: -far, y: 0 },
        Point { x: 0, y: far },
        Point { x: 0, y: i64::MIN },
        Point { x: i64::MIN, y: i64::MIN },
        Point { x: far, y: far },
    ] {
        assert_eq!(winding(&path, p), 0);
    }
}

#[test]
fn curves_are_followed_not_cut_short() {
    // A half disc: a cubic bulge over the line from (-10, 0) to (10, 0).
    let bulge = vec![
        raw(PointKind::Move, 10, 0),
        raw(PointKind::OffCurve, 10, 13),
        raw(PointKind::OffCurve, -10, 13),
        raw(PointKind::CubicEnd, -10, 0),
    ];
    let path = build_path(&vec![bulge]).unwrap();
    // The curve peaks at y = 9.75 over x = 0.
    assert_eq!(wind(&path, 0, 9), 1);
    assert_eq!(wind(&path, 0, 10), 0);
    assert_eq!(wind(&path, 0, 1), 1);
    assert_eq!(wind(&path, 9, 8), 0);
    assert_eq!(wind(&path, 9, 2), 1);
    // A quadratic bulge with its control point at (0, 20) peaks at y = 10.
    let arch = vec![
        raw(PointKind::Move, 10, 0),
        raw(PointKind::OffCurve, 0, 20),
        raw(PointKind::QuadEnd, -10, 0),
    ];
    let path = build_path(&vec![arch]).unwrap();
    assert_eq!(wind(&path, 0, 9), 1);
    assert_eq!(wind(&path, 0, 10), 0);
    assert_eq!(wind(&path, 0, 11), 0);
    assert_eq!(wind(&path, 5, 2), 1);
    assert_eq!(wind(&path, 5, 8), 0);
}

#[test]
fn circle_winds_once_inside_and_not_outside() {
    let path = build_path(&vec![circle(0, 0, true)]).unwrap();
    assert_eq!(wind(&path, 0, 0), 1);
    assert_eq!(wind(&path, 7, 7), 1);
    assert_eq!(wind(&path, -7, -7), 1);
    assert_eq!(wind(&path, 8, 8), 0);
    assert_eq!(wind(&path, 9, 0), 1);
    assert_eq!(wind(&path, 10, 0), 0);
    assert_eq!(wind(&path, -10, 0), 1);
    assert_eq!(wind(&path, -11, 0), 0);
    let clockwise = build_path(&vec![circle(0, 0, false)]).unwrap();
    assert_eq!(wind(&clockwise, 0, 0), -1);
    assert_eq!(wind(&clockwise, 8, 8), 0);
}

#[test]
fn subpaths_add_up() {
    let same = build_path(&vec![circle(0, 0, true), circle(8, 0, true)]).unwrap();
    assert_eq!(wind(&same, 4, 0), 2);
    assert_eq!(wind(&same, -5, 0), 1);
    assert_eq!(wind(&same, 13, 0), 1);
    assert_eq!(wind(&same, 30, 0), 0);
    let against = build_path(&vec![circle(0, 0, true), circle(8, 0, false)]).unwrap();
    assert_eq!(wind(&against, 4, 0), 0);
    assert_eq!(wind(&against, -5, 0), 1);
    assert_eq!(wind(&against, 13, 0), -1);
    let thrice =
        build_path(&vec![circle(0, 0, false), circle(1, 0, false), circle(0, 1, false)]).unwrap();
    assert_eq!(wind(&thrice, 0, 0), -3);
}

#[test]
fn sampling_finds_nothing_on_convex_contours() {
    let shapes = vec![
        polygon(&[(0, 0), (100, 0), (100, 50), (0, 50)]),
        polygon(&[(0, 0), (0, 50), (100, 50), (100, 0)]),
        polygon(&[(0, 0), (40, 10), (10, 30)]),
        polygon(&[(5, 0), (10, 5), (5, 10), (0, 5)]),
        polygon(&[(0, 0), (10, 0), (20, 0), (20, 10), (10, 10), (0, 10)]),
        circle(0, 0, true),
        circle(100, -40, false),
    ];
    for shape in shapes {
        let path = build_path(&vec![shape]).unwrap();
        assert!(!SamplingWindingDetector::check(&path));
    }
}

#[test]
fn sampling_finds_nothing_on_a_rectangle() {
    let path = build_path(&vec![polygon(&[(0, 0), (100, 0), (100, 50), (0, 50)])]).unwrap();
    assert!(!SamplingWindingDetector::check(&path));
}

#[test]
fn sampling_finds_nothing_on_a_circle_of_four_cubics() {
    assert!(!SamplingWindingDetector::check(&build_path(&vec![circle(0, 0, true)]).unwrap()));
    assert!(!SamplingWindingDetector::check(&build_path(&vec![circle(0, 0, false)]).unwrap()));
}

#[test]
fn sampling_finds_the_lens_of_two_circles() {
    let two = build_path(&vec![circle(0, 0, true), circle(8, 0, true)]).unwrap();
    assert!(SamplingWindingDetector::check(&two));
    // The same outline as one contour: round the first circle, over to the
    // second, round it, and back.
    let mut one = circle(0, 0, true);
    one.push(raw(PointKind::Line, 18, 0));
    one.extend_from_slice(&circle(8, 0, true)[1..]);
    let one = build_path(&vec![one]).unwrap();
    assert_eq!(one.subpath_count(), 1);
    assert_eq!(wind(&one, 4, 0), 2);
    assert_eq!(wind(&one, 14, 0), 1);
    assert!(SamplingWindingDetector::check(&one));
}

#[test]
fn sampling_finds_nothing_where_circles_are_wound_against_each_other() {
    // The lens winds 0 here, the rest 1 and -1: both rules leave the lens
    // empty and fill the rest.
    let against = build_path(&vec![circle(0, 0, true), circle(8, 0, false)]).unwrap();
    assert!(!SamplingWindingDetector::check(&against));
}

#[test]
fn sampling_finds_a_contour_that_runs_round_twice() {
    let twice = polygon(&[(0, 0), (10, 0), (10, 10), (0, 10), (0, 0), (10, 0), (10, 10), (0, 10)]);
    let path = build_path(&vec![twice]).unwrap();
    assert_eq!(wind(&path, 5, 5), 2);
    assert!(SamplingWindingDetector::check(&path));
}

#[test]
fn sampling_looks_at_grid_points_only() {
    let overlap = build_path(&vec![
        polygon(&[(0, 0), (2, 0), (2, 2), (0, 2)]),
        polygon(&[(1, 1), (3, 1), (3, 3), (1, 3)]),
    ])
    .unwrap();
    // Inside the overlap, at (1.5, 1.5), the outline winds twice.
    assert_eq!(winding(&overlap, Point { x: 3, y: 3 }), 2);
    // Of the grid points only (1, 1) counts to it, its lower left corner.
    assert_eq!(wind(&overlap, 1, 1), 2);
    assert_eq!(wind(&overlap, 2, 2), 1);
    assert!(SamplingWindingDetector::check(&overlap));
    // Here the overlap is a line: no place winds twice.
    let touching = build_path(&vec![
        polygon(&[(0, 0), (2, 0), (2, 2), (0, 2)]),
        polygon(&[(2, 1), (3, 1), (3, 3), (2, 3)]),
    ])
    .unwrap();
    assert!(!SamplingWindingDetector::check(&touching));
}

#[test]
fn figure_eight_winds_once_in_each_loop() {
    // Two loops wound against each other that meet in the crossing (10, 10).
    let eight = build_path(&vec![polygon(&[(0, 0), (20, 20), (20, 0), (0, 20)])]).unwrap();
    assert_eq!(wind(&eight, 15, 10), -1);
    assert_eq!(wind(&eight, 5, 10), 1);
    assert_eq!(wind(&eight, 10, 10), -1);
    assert_eq!(wind(&eight, 10, 15), 0);
    assert_eq!(wind(&eight, 10, 5), 0);
    // 1 and -1 are both odd and not zero: the fill rules agree on both loops.
    assert!(!SamplingWindingDetector::check(&eight));
}

#[test]
fn sampling_answers_the_same_every_time() {
    let two = build_path(&vec![circle(0, 0, true), circle(8, 0, true)]).unwrap();
    let one = build_path(&vec![circle(0, 0, true)]).unwrap();
    for _ in 0..3 {
        assert!(SamplingWindingDetector::check(&two));
        assert!(!SamplingWindingDetector::check(&one));
    }
}

#[test]
fn two_circles_are_sampled_in_their_lens() {
    let two = build_path(&vec![circle(0, 0, true), circle(8, 0, true)]).unwrap();
    assert_eq!(
        fillrule::BoundingBox::of(&two),
        fillrule::BoundingBox { min_x: -13, min_y: -13, max_x: 21, max_y: 13 }
    );
    assert_eq!(wind(&two, 4, 0), 2);
    // Wherever a circle lies, it winds once at most.
    for &(cx, cy) in &[(0, 0), (8, 0), (-37, 1000), (123456, -654321)] {
        let one = build_path(&vec![circle(cx, cy, true)]).unwrap();
        for dx in -12..=12 {
            for dy in -12..=12 {
                let w = wind(&one, (cx + dx) as i64, (cy + dy) as i64);
                assert!(w == 0 || w == 1);
            }
        }
    }
}
