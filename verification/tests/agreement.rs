use fillrule::{
    build_path, unroll, Path, PathBuilder, PointKind, RawContourPoint, RawPoint, Segment,
};
use fontir::ir::GlyphPathBuilder;
use kurbo::PathEl;

fn raw(kind: PointKind, x: i32, y: i32) -> RawContourPoint {
    RawContourPoint { point: RawPoint { x, y }, kind }
}

/// What fontir makes of a contour.
fn by_fontir(points: &[RawContourPoint]) -> Vec<PathEl> {
    let mut builder = GlyphPathBuilder::new(points.len());
    for node in points {
        let p = (node.point.x as f64, node.point.y as f64);
        match node.kind {
            PointKind::Move => builder.move_to(p),
            PointKind::Line => builder.line_to(p),
            PointKind::QuadEnd => builder.qcurve_to(p),
            PointKind::CubicEnd => builder.curve_to(p),
            PointKind::OffCurve => builder.offcurve(p),
        }
        .unwrap();
    }
    builder.build().unwrap().elements().to_vec()
}

/// What this crate makes of a contour, in the elements of kurbo.
fn by_this_crate(points: &[RawContourPoint]) -> Vec<PathEl> {
    in_elements(build_path(&vec![unroll(&points.to_vec())]).unwrap())
}

/// What this crate makes of a ring as a font source gives it.
fn by_add_ring(points: &[RawContourPoint]) -> Vec<PathEl> {
    in_elements(PathBuilder::new().add_ring(&points.to_vec()).unwrap().build().unwrap())
}

/// A path of one subpath in the elements of kurbo.
fn in_elements(path: Path) -> Vec<PathEl> {
    assert_eq!(path.subpath_count(), 1);
    let subpath = path.subpath(0).unwrap();
    let at = |p: fillrule::Point| kurbo::Point::new(p.x as f64 / 2.0, p.y as f64 / 2.0);
    let mut elements = vec![PathEl::MoveTo(at(subpath.start))];
    for segment in subpath.segments {
        elements.push(match segment {
            Segment::LineTo { end } => PathEl::LineTo(at(end)),
            Segment::QuadTo { control, end } => PathEl::QuadTo(at(control), at(end)),
            Segment::CubicTo { control1, control2, end } => {
                PathEl::CurveTo(at(control1), at(control2), at(end))
            }
        });
    }
    elements.push(PathEl::ClosePath);
    elements
}

#[test]
fn rings_are_built_as_fontir_builds_them() {
    let rings = vec![
        vec![raw(PointKind::Line, 2, 2), raw(PointKind::Line, 4, 2)],
        vec![
            raw(PointKind::Line, 0, 0),
            raw(PointKind::Line, 100, 0),
            raw(PointKind::Line, 100, 50),
            raw(PointKind::Line, 0, 50),
        ],
        vec![raw(PointKind::Line, 2, 2), raw(PointKind::Line, 4, 2), raw(PointKind::Line, 2, 2)],
        vec![raw(PointKind::OffCurve, 3, 0), raw(PointKind::QuadEnd, 2, 2)],
        vec![
            raw(PointKind::OffCurve, 3, 0),
            raw(PointKind::OffCurve, 0, 3),
            raw(PointKind::CubicEnd, 2, 2),
        ],
        vec![
            raw(PointKind::Line, 2, 2),
            raw(PointKind::OffCurve, 3, 0),
            raw(PointKind::QuadEnd, 4, 2),
        ],
        vec![
            raw(PointKind::Line, 2, 2),
            raw(PointKind::OffCurve, 3, 0),
            raw(PointKind::OffCurve, 0, 3),
            raw(PointKind::CubicEnd, 4, 2),
        ],
        vec![
            raw(PointKind::OffCurve, 3, 0),
            raw(PointKind::OffCurve, 0, 3),
            raw(PointKind::CubicEnd, 2, 2),
            raw(PointKind::OffCurve, 6, 0),
            raw(PointKind::OffCurve, 0, 6),
            raw(PointKind::CubicEnd, 4, 2),
        ],
        vec![
            raw(PointKind::OffCurve, 0, 3),
            raw(PointKind::CubicEnd, 2, 2),
            raw(PointKind::OffCurve, 6, 0),
            raw(PointKind::OffCurve, 0, 6),
            raw(PointKind::CubicEnd, 4, 2),
            raw(PointKind::OffCurve, 3, 0),
        ],
        vec![
            raw(PointKind::CubicEnd, 10, 0),
            raw(PointKind::Line, 0, 10),
            raw(PointKind::OffCurve, 5, 10),
            raw(PointKind::OffCurve, 10, 5),
        ],
        vec![
            raw(PointKind::QuadEnd, 10, 0),
            raw(PointKind::Line, 0, 10),
            raw(PointKind::OffCurve, 5, 10),
            raw(PointKind::OffCurve, 10, 5),
        ],
        vec![
            raw(PointKind::QuadEnd, 0, 1),
            raw(PointKind::OffCurve, 1, 1),
            raw(PointKind::OffCurve, 1, -1),
            raw(PointKind::OffCurve, -1, -1),
            raw(PointKind::OffCurve, -1, 1),
        ],
        vec![raw(PointKind::QuadEnd, 2, 2), raw(PointKind::Line, 4, 2), raw(PointKind::Line, 4, 4)],
    ];
    for ring in rings {
        assert_eq!(by_this_crate(&ring), by_fontir(&ring), "{ring:?}");
        assert_eq!(by_add_ring(&ring), by_fontir(&ring), "{ring:?}");
    }
}

#[test]
fn rings_of_control_points_are_built_as_fontir_builds_them() {
    let rings = vec![
        vec![
            raw(PointKind::OffCurve, 1, 1),
            raw(PointKind::OffCurve, 1, -1),
            raw(PointKind::OffCurve, -1, -1),
            raw(PointKind::OffCurve, -1, 1),
        ],
        vec![
            raw(PointKind::OffCurve, 0, 0),
            raw(PointKind::OffCurve, 7, 2),
            raw(PointKind::OffCurve, 4, 9),
        ],
        vec![raw(PointKind::OffCurve, 5, 3), raw(PointKind::OffCurve, 2, 0)],
        vec![raw(PointKind::OffCurve, 5, 3)],
    ];
    for ring in rings {
        assert_eq!(by_add_ring(&ring), by_fontir(&ring), "{ring:?}");
    }
}

#[test]
fn a_stream_that_ends_at_its_start_is_drawn_as_fontir_draws_it() {
    // fontir leaves a contour that begins with a move open; what it draws up
    // to there is the same.
    let streams = vec![
        vec![
            raw(PointKind::Move, 2, 2),
            raw(PointKind::OffCurve, 3, 0),
            raw(PointKind::OffCurve, 5, 4),
            raw(PointKind::QuadEnd, 6, 2),
            raw(PointKind::Line, 2, 2),
        ],
        vec![
            raw(PointKind::Move, 0, 0),
            raw(PointKind::Line, 7, 0),
            raw(PointKind::OffCurve, 9, 3),
            raw(PointKind::OffCurve, 5, 8),
            raw(PointKind::CubicEnd, 0, 0),
        ],
    ];
    for stream in streams {
        let mut ours = by_this_crate(&stream);
        assert_eq!(ours.pop(), Some(PathEl::ClosePath));
        assert_eq!(ours, by_fontir(&stream), "{stream:?}");
    }
}
