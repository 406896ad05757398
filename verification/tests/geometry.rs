use fillrule::{
    build_path, BoundingBox, Extent, Glyph, PathError, Point, PointKind, RawContourPoint, RawPoint,
    Segment, COORD_LIMIT,
};

fn raw(kind: PointKind, x: i32, y: i32) -> RawContourPoint {
    RawContourPoint { point: RawPoint { x, y }, kind }
}

fn polygon(corners: &[(i32, i32)]) -> Vec<RawContourPoint> {
    let mut points = vec![raw(PointKind::Move, corners[0].0, corners[0].1)];
    for &(x, y) in &corners[1..] {
        points.push(raw(PointKind::Line, x, y));
    }
    points
}

#[test]
fn lift_doubles_and_midpoint_adds() {
    let a = RawPoint { x: 3, y: -7 };
    let b = RawPoint { x: 4, y: 10 };
    assert_eq!(a.lift(), Point { x: 6, y: -14 });
    assert_eq!(a.midpoint(b), Point { x: 7, y: 3 });
    assert_eq!(b.midpoint(a), Point { x: 7, y: 3 });
    assert_eq!(a.midpoint(a), a.lift());
    let low = RawPoint { x: i32::MIN, y: i32::MIN };
    assert_eq!(low.lift(), Point { x: -0x1_0000_0000, y: -0x1_0000_0000 });
    assert!(0x1_0000_0000 <= COORD_LIMIT);
}

#[test]
fn extent_is_tight_over_control_and_end_points() {
    let contour = vec![
        raw(PointKind::Move, 0, 0),
        raw(PointKind::OffCurve, 10, 30),
        raw(PointKind::OffCurve, -4, 5),
        raw(PointKind::CubicEnd, 6, 2),
        raw(PointKind::OffCurve, 3, -9),
        raw(PointKind::QuadEnd, 1, 1),
    ];
    let path = build_path(&vec![contour]).unwrap();
    assert_eq!(Extent::of(&path), Extent { min_x: -8, min_y: -18, max_x: 20, max_y: 60 });
}

#[test]
fn extent_spans_all_subpaths() {
    let path = build_path(&vec![
        polygon(&[(0, 0), (10, 0), (10, 10)]),
        polygon(&[(-5, 20), (-1, 20), (-1, 30)]),
    ])
    .unwrap();
    assert_eq!(Extent::of(&path), Extent { min_x: -10, min_y: 0, max_x: 20, max_y: 60 });
}

#[test]
fn bounding_box_adds_a_tenth_of_the_larger_dimension() {
    let path = build_path(&vec![polygon(&[(0, 0), (100, 0), (100, 50), (0, 50)])]).unwrap();
    let b = BoundingBox::of(&path);
    assert_eq!(b, BoundingBox { min_x: -10, min_y: -10, max_x: 110, max_y: 60 });
    assert_eq!(b.width(), 120);
    assert_eq!(b.height(), 70);
}

#[test]
fn bounding_box_rounds_outward() {
    // Three wide and one high: the margin is 0.3.
    let path = build_path(&vec![polygon(&[(0, 0), (3, 0), (3, 1), (0, 1)])]).unwrap();
    assert_eq!(BoundingBox::of(&path), BoundingBox { min_x: -1, min_y: -1, max_x: 4, max_y: 2 });
    // Entirely below zero: minima still round down, maxima up.
    let path = build_path(&vec![polygon(&[(-13, -7), (-10, -7), (-10, -6), (-13, -6)])]).unwrap();
    assert_eq!(
        BoundingBox::of(&path),
        BoundingBox { min_x: -14, min_y: -8, max_x: -9, max_y: -5 }
    );
}

#[test]
fn bounding_box_of_a_half_unit_extent() {
    // The implied point lies at x = 2.5, the rest within 0..2 and 0..5.
    let contour = vec![
        raw(PointKind::Move, 0, 0),
        raw(PointKind::OffCurve, 2, 0),
        raw(PointKind::OffCurve, 3, 5),
        raw(PointKind::QuadEnd, 0, 5),
    ];
    let path = build_path(&vec![contour]).unwrap();
    assert_eq!(Extent::of(&path), Extent { min_x: 0, min_y: 0, max_x: 6, max_y: 10 });
    // Larger dimension 5, margin 0.5: from -0.5 to 3.5 and from -0.5 to 5.5.
    assert_eq!(BoundingBox::of(&path), BoundingBox { min_x: -1, min_y: -1, max_x: 4, max_y: 6 });
}

#[test]
fn bounding_box_of_a_single_point() {
    let path = build_path(&vec![polygon(&[(5, 5)])]).unwrap();
    let b = BoundingBox::of(&path);
    assert_eq!(b, BoundingBox { min_x: 5, min_y: 5, max_x: 5, max_y: 5 });
    assert_eq!(b.width(), 0);
    assert_eq!(b.height(), 0);
}

#[test]
fn bounding_box_holds_extreme_coordinates() {
    let path = build_path(&vec![polygon(&[
        (i32::MIN, i32::MIN),
        (i32::MAX, i32::MIN),
        (i32::MAX, i32::MAX),
    ])])
    .unwrap();
    let b = BoundingBox::of(&path);
    assert!(b.min_x <= i32::MIN as i64 && b.max_x >= i32::MAX as i64);
    assert!(b.min_y <= i32::MIN as i64 && b.max_y >= i32::MAX as i64);
    // The extent is 4294967295 wide: a tenth of it is 429496729.5.
    assert_eq!(b.min_x, -2147483648 - 429496730);
    assert_eq!(b.max_x, 2147483647 + 429496730);
}

#[test]
fn width_of_crossed_sides_is_zero() {
    let b = BoundingBox { min_x: 3, min_y: 0, max_x: 1, max_y: 9 };
    assert_eq!(b.width(), 0);
    assert_eq!(b.height(), 9);
}

#[test]
fn flip_negates_every_y() {
    let contour = vec![
        raw(PointKind::Move, 1, 2),
        raw(PointKind::OffCurve, 3, 4),
        raw(PointKind::OffCurve, 5, -6),
        raw(PointKind::CubicEnd, 7, 8),
        raw(PointKind::OffCurve, 9, 10),
        raw(PointKind::QuadEnd, 1, 2),
    ];
    let path = build_path(&vec![contour]).unwrap().flip_y();
    let subpath = path.subpath(0).unwrap();
    assert_eq!(subpath.start, Point { x: 2, y: -4 });
    assert_eq!(
        subpath.segments,
        vec![
            Segment::CubicTo {
                control1: Point { x: 6, y: -8 },
                control2: Point { x: 10, y: 12 },
                end: Point { x: 14, y: -16 },
            },
            Segment::QuadTo { control: Point { x: 18, y: -20 }, end: Point { x: 2, y: -4 } },
        ]
    );
}

#[test]
fn glyph_is_built_from_rings_and_stands_upright() {
    let ring = vec![
        raw(PointKind::Line, 0, 0),
        raw(PointKind::Line, 10, 0),
        raw(PointKind::Line, 10, 20),
    ];
    let glyph =
        Glyph::from_contours("A".to_string(), "font.ufo/glyphs/A_.glif".to_string(), &vec![ring])
            .unwrap();
    assert_eq!(glyph.name(), "A");
    assert_eq!(glyph.source(), "font.ufo/glyphs/A_.glif");
    let subpath = glyph.path().subpath(0).unwrap();
    assert_eq!(subpath.start, Point { x: 0, y: 0 });
    assert_eq!(
        subpath.segments,
        vec![
            Segment::LineTo { end: Point { x: 20, y: 0 } },
            Segment::LineTo { end: Point { x: 20, y: -40 } },
            Segment::LineTo { end: Point { x: 0, y: 0 } },
        ]
    );
}

#[test]
fn glyph_fails_as_the_builder_fails() {
    let bad = vec![raw(PointKind::Move, 0, 0), raw(PointKind::OffCurve, 1, 1)];
    assert_eq!(
        Glyph::from_contours("a".to_string(), "a.glif".to_string(), &vec![bad]).unwrap_err(),
        PathError::MalformedContour
    );
    assert_eq!(
        Glyph::from_contours("space".to_string(), "space.glif".to_string(), &Vec::new())
            .unwrap_err(),
        PathError::EmptyGlyph
    );
    let twice = vec![raw(PointKind::Move, 0, 0), raw(PointKind::Move, 1, 1)];
    assert_eq!(
        Glyph::from_contours("b".to_string(), "b.glif".to_string(), &vec![twice]).unwrap_err(),
        PathError::UnterminatedContour
    );
}

#[test]
fn glyph_takes_a_ring_of_control_points() {
    let ring = vec![
        raw(PointKind::OffCurve, 1, 1),
        raw(PointKind::OffCurve, 1, -1),
        raw(PointKind::OffCurve, -1, -1),
        raw(PointKind::OffCurve, -1, 1),
    ];
    let glyph = Glyph::from_contours("o".to_string(), "o.glif".to_string(), &vec![ring]).unwrap();
    let subpath = glyph.path().subpath(0).unwrap();
    assert_eq!(subpath.start, Point { x: 0, y: -2 });
    assert_eq!(
        subpath.segments,
        vec![
            Segment::QuadTo { control: Point { x: 2, y: -2 }, end: Point { x: 2, y: 0 } },
            Segment::QuadTo { control: Point { x: 2, y: 2 }, end: Point { x: 0, y: 2 } },
            Segment::QuadTo { control: Point { x: -2, y: 2 }, end: Point { x: -2, y: 0 } },
            Segment::QuadTo { control: Point { x: -2, y: -2 }, end: Point { x: 0, y: -2 } },
        ]
    );
}
