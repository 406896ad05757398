use fillrule::{
    build_path, CoverageMask, DetectError, Detector, FillRule, Glyph, Path, Pixel, Point,
    PointKind, RasterDiffDetector, RawContourPoint, RawPoint, RenderPlan,
    SamplingWindingDetector, Segment, Strategy,
};

fn raw(kind: PointKind, x: i32, y: i32) -> RawContourPoint {
    RawContourPoint { point: RawPoint { x, y }, kind }
}

fn polygon(corners: &[(i32, i32)]) -> Vec<RawContourPoint> {
    let mut points = vec![raw(PointKind::Move, corners[0].0, corners[0].1)];
    for &(x, y) in &corners[1..] {
        points.push(raw(PointKind::Line, x, y));
    }
    points
}

/// A circle of radius 10 about `(cx, cy)`, as four cubic curves.
fn circle(cx: i32, cy: i32, counter_clockwise: bool) -> Vec<RawContourPoint> {
    let turn = if counter_clockwise { 1 } else { -1 };
    let ring = [
        (10, 6 * turn),
        (6, 10 * turn),
        (0, 10 * turn),
        (-6, 10 * turn),
        (-10, 6 * turn),
        (-10, 0),
        (-10, -6 * turn),
        (-6, -10 * turn),
        (0, -10 * turn),
        (6, -10 * turn),
        (10, -6 * turn),
        (10, 0),
    ];
    let mut points = vec![raw(PointKind::Move, cx + 10, cy)];
    for (i, &(x, y)) in ring.iter().enumerate() {
        let kind = if i % 3 == 2 { PointKind::CubicEnd } else { PointKind::OffCurve };
        points.push(raw(kind, cx + x, cy + y));
    }
    points
}

/// Where a point of the outline lies in the picture, in pixels.
fn pixel(plan: &RenderPlan, p: Point) -> (f32, f32) {
    let place = |at: i64, shift: i64| ((10 * at as i128 + shift as i128) as f64 / 20.0) as f32;
    (place(p.x, plan.dx), place(p.y, plan.dy))
}

/// Renders `path` as `plan` says, under `rule`, with tiny-skia.
fn render(path: &Path, plan: &RenderPlan, rule: FillRule) -> Option<CoverageMask> {
    let mut outline = tiny_skia::PathBuilder::new();
    for i in 0..path.subpath_count() {
        let subpath = path.subpath(i)?;
        let (x, y) = pixel(plan, subpath.start);
        outline.move_to(x, y);
        for segment in subpath.segments {
            match segment {
                Segment::LineTo { end } => {
                    let (x, y) = pixel(plan, end);
                    outline.line_to(x, y);
                }
                Segment::QuadTo { control, end } => {
                    let (cx, cy) = pixel(plan, control);
                    let (x, y) = pixel(plan, end);
                    outline.quad_to(cx, cy, x, y);
                }
                Segment::CubicTo { control1, control2, end } => {
                    let (ax, ay) = pixel(plan, control1);
                    let (bx, by) = pixel(plan, control2);
                    let (x, y) = pixel(plan, end);
                    outline.cubic_to(ax, ay, bx, by, x, y);
                }
            }
        }
        outline.close();
    }
    let outline = outline.finish()?;
    let width = u32::try_from(plan.width).ok()?;
    let height = u32::try_from(plan.height).ok()?;
    let mut pixmap = tiny_skia::Pixmap::new(width, height)?;
    let mut paint = tiny_skia::Paint::default();
    paint.set_color_rgba8(128, 128, 128, 255);
    paint.anti_alias = plan.anti_alias;
    let rule = match rule {
        FillRule::EvenOdd => tiny_skia::FillRule::EvenOdd,
        FillRule::NonZero => tiny_skia::FillRule::Winding,
    };
    pixmap.fill_path(&outline, &paint, rule, tiny_skia::Transform::identity(), None);
    let pixels = pixmap
        .pixels()
        .iter()
        .map(|c| Pixel { r: c.red(), g: c.green(), b: c.blue(), a: c.alpha() })
        .collect();
    CoverageMask::new(width, height, pixels)
}

/// tiny-skia as the renderer of a detector.
fn skia(path: &Path, plan: RenderPlan, rule: FillRule) -> Option<CoverageMask> {
    render(path, &plan, rule)
}

/// What the raster detector says of `path`, rendered with tiny-skia.
fn raster(path: &Path) -> Result<bool, DetectError> {
    RasterDiffDetector::detect(path, &skia)
}

#[test]
fn rendering_fills_what_the_outline_covers() {
    let path = build_path(&vec![polygon(&[(0, 0), (10, 0), (10, 10), (0, 10)])]).unwrap();
    let plan = RasterDiffDetector::plan(&path);
    assert_eq!((plan.dx, plan.dy, plan.width, plan.height), (20, 20, 12, 12));
    let mask = render(&path, &plan, FillRule::NonZero).unwrap();
    assert_eq!((mask.width(), mask.height()), (12, 12));
    let gray = Pixel { r: 128, g: 128, b: 128, a: 255 };
    let clear = Pixel { r: 0, g: 0, b: 0, a: 0 };
    for y in 0..12 {
        for x in 0..12 {
            let inside = (1..11).contains(&x) && (1..11).contains(&y);
            let expected = if inside { gray } else { clear };
            assert_eq!(mask.pixels()[y * 12 + x], expected);
        }
    }
}

#[test]
fn both_detectors_find_nothing_on_convex_contours() {
    let shapes = vec![
        polygon(&[(0, 0), (100, 0), (100, 50), (0, 50)]),
        polygon(&[(0, 0), (0, 50), (100, 50), (100, 0)]),
        polygon(&[(0, 0), (40, 10), (10, 30)]),
        polygon(&[(5, 0), (10, 5), (5, 10), (0, 5)]),
        polygon(&[(-30, -30), (-10, -35), (0, -20), (-5, 0), (-25, -5)]),
        circle(0, 0, true),
        circle(100, -40, false),
    ];
    for shape in shapes {
        let path = build_path(&vec![shape]).unwrap();
        assert!(!SamplingWindingDetector::check(&path));
        assert_eq!(raster(&path), Ok(false));
    }
}

#[test]
fn both_detectors_find_nothing_on_a_rectangle() {
    let path = build_path(&vec![polygon(&[(0, 0), (100, 0), (100, 50), (0, 50)])]).unwrap();
    assert!(!SamplingWindingDetector::check(&path));
    assert_eq!(raster(&path), Ok(false));
}

#[test]
fn both_detectors_find_nothing_on_a_circle_of_four_cubics() {
    let path = build_path(&vec![circle(0, 0, true)]).unwrap();
    assert!(!SamplingWindingDetector::check(&path));
    assert_eq!(raster(&path), Ok(false));
}

#[test]
fn both_detectors_find_the_lens_of_two_circles() {
    let two = build_path(&vec![circle(0, 0, true), circle(8, 0, true)]).unwrap();
    assert!(SamplingWindingDetector::check(&two));
    assert_eq!(raster(&two), Ok(true));
    let mut one = circle(0, 0, true);
    one.push(raw(PointKind::Line, 18, 0));
    one.extend_from_slice(&circle(8, 0, true)[1..]);
    let one = build_path(&vec![one]).unwrap();
    assert!(SamplingWindingDetector::check(&one));
    assert_eq!(raster(&one), Ok(true));
}

#[test]
fn even_odd_leaves_the_lens_empty_and_nonzero_fills_it() {
    let two = build_path(&vec![circle(0, 0, true), circle(8, 0, true)]).unwrap();
    let plan = RasterDiffDetector::plan(&two);
    // The margin is 2.8: the shift is 12.8 both ways.
    assert_eq!((plan.dx, plan.dy, plan.width, plan.height), (256, 256, 34, 26));
    let even_odd = render(&two, &plan, FillRule::EvenOdd).unwrap();
    let non_zero = render(&two, &plan, FillRule::NonZero).unwrap();
    let gray = Pixel { r: 128, g: 128, b: 128, a: 255 };
    let clear = Pixel { r: 0, g: 0, b: 0, a: 0 };
    // The middle of the lens, (4, 0), lies at (16.8, 12.8), in pixel (16, 12).
    let lens = 12 * 34 + 16;
    assert_eq!(even_odd.pixels()[lens], clear);
    assert_eq!(non_zero.pixels()[lens], gray);
    // Left of the lens, at (-5, 0), both fill: it lies at (7.8, 12.8).
    let left = 12 * 34 + 7;
    assert_eq!(even_odd.pixels()[left], gray);
    assert_eq!(non_zero.pixels()[left], gray);
    let marked = RasterDiffDetector::highlight(&even_odd, &non_zero).unwrap();
    assert_eq!(marked.pixels()[lens], Pixel { r: 255, g: 20, b: 147, a: 255 });
    assert_eq!(marked.pixels()[left], gray);
    assert_eq!(marked.pixels()[0], clear);
}

#[test]
fn both_detectors_agree_on_a_figure_eight() {
    // The loops wind 1 and -1: both rules fill both.
    let eight = build_path(&vec![polygon(&[(0, 0), (20, 20), (20, 0), (0, 20)])]).unwrap();
    assert!(!SamplingWindingDetector::check(&eight));
    assert_eq!(raster(&eight), Ok(false));
}

#[test]
fn both_detectors_find_a_contour_that_runs_round_twice() {
    let twice = polygon(&[(0, 0), (10, 0), (10, 10), (0, 10), (0, 0), (10, 0), (10, 10), (0, 10)]);
    let path = build_path(&vec![twice]).unwrap();
    assert!(SamplingWindingDetector::check(&path));
    assert_eq!(raster(&path), Ok(true));
}

#[test]
fn detectors_answer_the_same_every_time() {
    let two = build_path(&vec![circle(0, 0, true), circle(8, 0, true)]).unwrap();
    let one = build_path(&vec![circle(0, 0, true)]).unwrap();
    for _ in 0..3 {
        assert!(SamplingWindingDetector::check(&two));
        assert!(!SamplingWindingDetector::check(&one));
        assert_eq!(raster(&two), Ok(true));
        assert_eq!(raster(&one), Ok(false));
    }
    let plan = RasterDiffDetector::plan(&two);
    assert_eq!(RasterDiffDetector::plan(&two), plan);
    assert_eq!(
        render(&two, &plan, FillRule::EvenOdd).unwrap().pixels(),
        render(&two, &plan, FillRule::EvenOdd).unwrap().pixels()
    );
}

#[test]
fn a_picture_too_large_to_render_is_a_backend_failure() {
    let path = build_path(&vec![polygon(&[
        (i32::MIN, i32::MIN),
        (i32::MAX, i32::MIN),
        (i32::MAX, i32::MAX),
    ])])
    .unwrap();
    let plan = RasterDiffDetector::plan(&path);
    assert!(plan.width > u32::MAX as u64);
    assert!(render(&path, &plan, FillRule::EvenOdd).is_none());
    assert_eq!(raster(&path), Err(DetectError::RenderBackendFailure));
}

#[test]
fn a_glyph_from_rings_is_judged_by_either_strategy() {
    let rings = vec![
        vec![
            raw(PointKind::CubicEnd, 10, 0),
            raw(PointKind::OffCurve, 10, 6),
            raw(PointKind::OffCurve, 6, 10),
            raw(PointKind::CubicEnd, 0, 10),
            raw(PointKind::OffCurve, -6, 10),
            raw(PointKind::OffCurve, -10, 6),
            raw(PointKind::CubicEnd, -10, 0),
            raw(PointKind::OffCurve, -10, -6),
            raw(PointKind::OffCurve, -6, -10),
            raw(PointKind::CubicEnd, 0, -10),
            raw(PointKind::OffCurve, 6, -10),
            raw(PointKind::OffCurve, 10, -6),
        ],
        vec![
            raw(PointKind::Line, 0, -3),
            raw(PointKind::Line, 25, -3),
            raw(PointKind::Line, 25, 3),
            raw(PointKind::Line, 0, 3),
        ],
    ];
    let glyph = Glyph::from_contours("Q".to_string(), "Q_.glif".to_string(), &rings).unwrap();
    assert_eq!(glyph.path().subpath_count(), 2);
    let sampling = Detector::new(Strategy::SamplingWinding, false);
    assert_eq!(sampling.needs_overlap_correction(glyph.path(), &skia), Ok(true));
    let by_raster = Detector::new(Strategy::RasterDiff, true);
    assert_eq!(by_raster.needs_overlap_correction(glyph.path(), &skia), Ok(true));
    let found = by_raster.examine(glyph.path(), &skia).unwrap();
    assert!(found.discrepancy);
    let picture = found.picture.unwrap();
    let pink = Pixel { r: 255, g: 20, b: 147, a: 255 };
    assert!(picture.pixels().contains(&pink));
    // Each part alone needs no correction.
    for ring in rings {
        let part = Glyph::from_contours("part".to_string(), "Q_.glif".to_string(), &vec![ring])
            .unwrap();
        assert_eq!(sampling.needs_overlap_correction(part.path(), &skia), Ok(false));
        let found = by_raster.examine(part.path(), &skia).unwrap();
        assert!(!found.discrepancy);
        assert!(!found.picture.unwrap().pixels().contains(&pink));
    }
}

#[test]
fn a_mask_becomes_a_png_file_of_the_same_picture() {
    let two = build_path(&vec![circle(0, 0, true), circle(8, 0, true)]).unwrap();
    let plan = RasterDiffDetector::plan(&two);
    let even_odd = render(&two, &plan, FillRule::EvenOdd).unwrap();
    let non_zero = render(&two, &plan, FillRule::NonZero).unwrap();
    let marked = RasterDiffDetector::highlight(&even_odd, &non_zero).unwrap();
    for mask in [&even_odd, &non_zero, &marked] {
        let rgba = mask.to_rgba();
        assert_eq!(rgba.len(), 4 * 34 * 26);
        let png = mask.to_png().unwrap();
        assert_eq!(png[..8], [0x89, b'P', b'N', b'G', 0x0d, 0x0a, 0x1a, 0x0a]);
        assert_ne!(png, rgba);
        let decoded = tiny_skia::Pixmap::decode_png(&png).unwrap();
        assert_eq!((decoded.width(), decoded.height()), (mask.width(), mask.height()));
        assert_eq!(decoded.data(), &rgba[..]);
        assert_eq!(mask.to_png().unwrap(), png);
    }
}

#[test]
fn a_mask_without_pixels_has_no_png_file() {
    assert!(CoverageMask::new(0, 0, Vec::new()).unwrap().to_png().is_none());
    assert!(CoverageMask::new(0, 7, Vec::new()).unwrap().to_png().is_none());
}

#[test]
fn rendering_keeps_the_margin_where_it_is_no_whole_unit() {
    // Three wide and one high: the margin is 0.3. The rectangle lies from 0.3
    // to 3.3 and from 0.3 to 1.3 in a picture of 4 by 2 pixels, and covers the
    // middles of the pixels (0, 0), (1, 0) and (2, 0).
    let path = build_path(&vec![polygon(&[(0, 0), (3, 0), (3, 1), (0, 1)])]).unwrap();
    let plan = RasterDiffDetector::plan(&path);
    let mask = render(&path, &plan, FillRule::NonZero).unwrap();
    assert_eq!((mask.width(), mask.height()), (4, 2));
    let gray = Pixel { r: 128, g: 128, b: 128, a: 255 };
    let clear = Pixel { r: 0, g: 0, b: 0, a: 0 };
    assert_eq!(
        mask.pixels(),
        &vec![gray, gray, gray, clear, clear, clear, clear, clear]
    );
}
