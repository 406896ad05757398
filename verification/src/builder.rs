//! Rebuilding a path from the point stream of a font source.
//!
//! A font source gives each contour as a run of typed points. The builder
//! turns the runs into closed subpaths: on-curve points become line ends and
//! curve ends, off-curve points become control points, and between two
//! control points of a quadratic run an on-curve point is implied halfway.

use crate::geometry::{Point, RawPoint};
use crate::path::{
    done_end, layout_ok, lemma_ends_ascend, lemma_push_contour, lemma_same_prefix, outline_of,
    valid_outline, Contour, Path, Segment, SubpathView,
};
use vstd::prelude::*;

verus! {

/// What a point of a contour stands for.
#[derive(Clone, Copy, Debug, PartialEq, Eq, Structural)]
pub enum PointKind {
    /// Begins a subpath.
    Move,
    /// Ends a straight line.
    Line,
    /// Ends a cubic curve whose two control points came just before.
    CubicEnd,
    /// Ends a run of quadratic curves whose control points came just before.
    QuadEnd,
    /// A control point of the curve that a later point ends.
    OffCurve,
}

/// A point of a contour as the font source gives it.
#[derive(Clone, Copy, Debug, PartialEq, Eq, Structural)]
pub struct RawContourPoint {
    pub point: RawPoint,
    pub kind: PointKind,
}

/// Why no path could be built.
#[derive(Clone, Copy, Debug, PartialEq, Eq, Structural)]
pub enum PathError {
    /// A point came where its kind is not allowed, or control points were
    /// left over.
    MalformedContour,
    /// A subpath was closed where none is open, or begun where one is open.
    UnterminatedContour,
    /// No subpath was completed.
    EmptyGlyph,
}

/// The quadratic curves that the buffered control points `pending` stand for
/// when the on-curve point `p` ends them. Curve `i` has control point `i`; it
/// ends halfway to the next control point, and the last one ends at `p`.
pub open spec fn quad_run(pending: Seq<RawPoint>, p: RawPoint) -> Seq<Segment> {
    Seq::new(
        pending.len(),
        |i: int|
            Segment::QuadTo {
                control: pending[i].lifted(),
                end: if i + 1 < pending.len() {
                    pending[i].midpoint_with(pending[i + 1])
                } else {
                    p.lifted()
                },
            },
    )
}

/// The quadratic curves that a ring of control points stands for. Curve `i`
/// has control point `i` and ends halfway to the next control point; after
/// the last control point the first one comes again.
pub open spec fn ring_run(controls: Seq<RawPoint>) -> Seq<Segment> {
    Seq::new(
        controls.len(),
        |i: int|
            Segment::QuadTo {
                control: controls[i].lifted(),
                end: controls[i].midpoint_with(
                    if i + 1 < controls.len() {
                        controls[i + 1]
                    } else {
                        controls[0]
                    },
                ),
            },
    )
}

/// The subpath closed back to its start: a line to the start is added unless
/// the last segment already ends there. A subpath without segments gets the
/// line too, so that a closed subpath is never empty.
pub open spec fn closed_up(sp: SubpathView) -> SubpathView {
    if sp.segments.len() == 0 || sp.end_point() != sp.start {
        SubpathView { start: sp.start, segments: sp.segments.push(Segment::LineTo { end: sp.start }) }
    } else {
        sp
    }
}

/// The state of a builder: the subpaths completed so far, the subpath that is
/// open, and the control points that wait for the end of their curve.
pub struct BuilderView {
    pub completed: Seq<SubpathView>,
    pub open: Option<SubpathView>,
    pub pending: Seq<RawPoint>,
    /// A `QuadEnd` came that had no control point to draw with. Such a point
    /// may only end a contour: no point may follow it before `end_path`.
    pub sealed: bool,
}

impl BuilderView {
    /// Nothing completed, nothing open, nothing buffered.
    pub open spec fn empty() -> BuilderView {
        BuilderView { completed: Seq::empty(), open: None, pending: Seq::empty(), sealed: false }
    }

    /// The state after `segments` were drawn in the open subpath; the buffer
    /// of control points is then empty.
    pub open spec fn emit(self, segments: Seq<Segment>) -> BuilderView {
        BuilderView {
            completed: self.completed,
            open: Some(
                SubpathView {
                    start: self.open.unwrap().start,
                    segments: self.open.unwrap().segments + segments,
                },
            ),
            pending: Seq::empty(),
            sealed: false,
        }
    }

    /// `Move`: opens a subpath at `p`, unless one is open already.
    pub open spec fn move_to(self, p: RawPoint) -> Result<BuilderView, PathError> {
        if self.open is Some {
            Err(PathError::UnterminatedContour)
        } else {
            Ok(
                BuilderView {
                    completed: self.completed,
                    open: Some(SubpathView { start: p.lifted(), segments: Seq::empty() }),
                    pending: self.pending,
                    sealed: false,
                },
            )
        }
    }

    /// `Line`: draws a line to `p`. No control point may wait.
    pub open spec fn line_to(self, p: RawPoint) -> Result<BuilderView, PathError> {
        if self.open is None || self.sealed || self.pending.len() != 0 {
            Err(PathError::MalformedContour)
        } else {
            Ok(self.emit(seq![Segment::LineTo { end: p.lifted() }]))
        }
    }

    /// `OffCurve`: buffers `p` as a control point.
    pub open spec fn offcurve(self, p: RawPoint) -> Result<BuilderView, PathError> {
        if self.open is None || self.sealed {
            Err(PathError::MalformedContour)
        } else {
            Ok(
                BuilderView {
                    completed: self.completed,
                    open: self.open,
                    pending: self.pending.push(p),
                    sealed: false,
                },
            )
        }
    }

    /// `CubicEnd`: draws a cubic curve to `p` with the two buffered control
    /// points. Any other number of them is an error.
    pub open spec fn curve_to(self, p: RawPoint) -> Result<BuilderView, PathError> {
        if self.open is None || self.sealed || self.pending.len() != 2 {
            Err(PathError::MalformedContour)
        } else {
            Ok(
                self.emit(
                    seq![
                        Segment::CubicTo {
                            control1: self.pending[0].lifted(),
                            control2: self.pending[1].lifted(),
                            end: p.lifted(),
                        },
                    ],
                ),
            )
        }
    }

    /// `QuadEnd`: draws `quad_run` of the buffered control points. With none
    /// buffered nothing is drawn, and no straight line to `p` is inferred;
    /// the contour has to end there, so the state is sealed.
    pub open spec fn qcurve_to(self, p: RawPoint) -> Result<BuilderView, PathError> {
        if self.open is None || self.sealed {
            Err(PathError::MalformedContour)
        } else if self.pending.len() == 0 {
            Ok(
                BuilderView {
                    completed: self.completed,
                    open: self.open,
                    pending: self.pending,
                    sealed: true,
                },
            )
        } else {
            Ok(self.emit(quad_run(self.pending, p)))
        }
    }

    /// A ring of control points without any on-curve point: a closed run of
    /// quadratic curves, as `ring_run` says, that starts and ends halfway
    /// between the last control point and the first. It is completed at
    /// once. No subpath may be open, and the ring may not be empty.
    pub open spec fn control_ring(self, controls: Seq<RawPoint>) -> Result<BuilderView, PathError> {
        if self.open is Some {
            Err(PathError::UnterminatedContour)
        } else if controls.len() == 0 {
            Err(PathError::MalformedContour)
        } else {
            Ok(
                BuilderView {
                    completed: self.completed.push(
                        SubpathView {
                            start: controls.last().midpoint_with(controls[0]),
                            segments: ring_run(controls),
                        },
                    ),
                    open: None,
                    pending: self.pending,
                    sealed: false,
                },
            )
        }
    }

    /// The state after one more point of a contour.
    pub open spec fn push(self, rp: RawContourPoint) -> Result<BuilderView, PathError> {
        match rp.kind {
            PointKind::Move => self.move_to(rp.point),
            PointKind::Line => self.line_to(rp.point),
            PointKind::CubicEnd => self.curve_to(rp.point),
            PointKind::QuadEnd => self.qcurve_to(rp.point),
            PointKind::OffCurve => self.offcurve(rp.point),
        }
    }

    /// Closes the open subpath and counts it as completed.
    pub open spec fn end_path(self) -> Result<BuilderView, PathError> {
        if self.open is None {
            Err(PathError::UnterminatedContour)
        } else if self.pending.len() != 0 {
            Err(PathError::MalformedContour)
        } else {
            Ok(
                BuilderView {
                    completed: self.completed.push(closed_up(self.open.unwrap())),
                    open: None,
                    pending: Seq::empty(),
                    sealed: false,
                },
            )
        }
    }

    /// The state after the first `n` of `points`, or the first error on the
    /// way there.
    pub open spec fn feed(self, points: Seq<RawContourPoint>, n: int) -> Result<
        BuilderView,
        PathError,
    >
        decreases n,
    {
        if n <= 0 {
            Ok(self)
        } else {
            match self.feed(points, n - 1) {
                Ok(state) => state.push(points[n - 1]),
                Err(e) => Err(e),
            }
        }
    }

    /// The state after a whole contour: all its points, then `end_path`.
    pub open spec fn add_contour(self, points: Seq<RawContourPoint>) -> Result<
        BuilderView,
        PathError,
    > {
        match self.feed(points, points.len() as int) {
            Ok(state) => state.end_path(),
            Err(e) => Err(e),
        }
    }

    /// The state after the first `n` of `contours`, or the first error on
    /// the way there.
    pub open spec fn add_contours(self, contours: Seq<Seq<RawContourPoint>>, n: int) -> Result<
        BuilderView,
        PathError,
    >
        decreases n,
    {
        if n <= 0 {
            Ok(self)
        } else {
            match self.add_contours(contours, n - 1) {
                Ok(state) => state.add_contour(contours[n - 1]),
                Err(e) => Err(e),
            }
        }
    }

    /// The state after a contour as a font source gives it: a ring of
    /// control points is taken as `control_ring` says, any other contour is
    /// unrolled and added.
    pub open spec fn add_ring(self, points: Seq<RawContourPoint>) -> Result<BuilderView, PathError> {
        if is_control_ring(points) {
            self.control_ring(points_of(points))
        } else {
            self.add_contour(unrolled(points))
        }
    }

    /// The state after the first `n` of `rings`, or the first error on the
    /// way there.
    pub open spec fn add_rings(self, rings: Seq<Seq<RawContourPoint>>, n: int) -> Result<
        BuilderView,
        PathError,
    >
        decreases n,
    {
        if n <= 0 {
            Ok(self)
        } else {
            match self.add_rings(rings, n - 1) {
                Ok(state) => state.add_ring(rings[n - 1]),
                Err(e) => Err(e),
            }
        }
    }

    /// Every completed subpath has a segment and leads back to its start.
    pub open spec fn all_closed(self) -> bool {
        forall|i: int|
            0 <= i < self.completed.len() ==> (#[trigger] self.completed[i]).segments.len() >= 1
                && self.completed[i].is_closed()
    }

    /// The outline that `build` hands out: the completed subpaths, of which
    /// there must be one at least. A subpath left open is not part of it.
    pub open spec fn build(self) -> Result<Seq<SubpathView>, PathError> {
        if self.completed.len() == 0 {
            Err(PathError::EmptyGlyph)
        } else {
            Ok(self.completed)
        }
    }
}

/// Builds a path out of contours, point by point.
///
/// Every step takes the builder and gives it back, or gives the error that
/// ends the work on this glyph.
#[derive(Debug)]
pub struct PathBuilder {
    contours: Vec<Contour>,
    segments: Vec<Segment>,
    open: Option<Point>,
    pending: Vec<RawPoint>,
    sealed: bool,
}

/// `r` is what the model `m` says: the same error, or a builder in the state
/// that `m` gives.
pub open spec fn follows(r: Result<PathBuilder, PathError>, m: Result<BuilderView, PathError>) -> bool {
    match r {
        Ok(builder) => m == Ok::<BuilderView, PathError>(builder@),
        Err(e) => m == Err::<BuilderView, PathError>(e),
    }
}

impl View for PathBuilder {
    type V = BuilderView;

    closed spec fn view(&self) -> BuilderView {
        BuilderView {
            completed: outline_of(self.contours@, self.segments@),
            open: match self.open {
                Some(start) => Some(
                    SubpathView {
                        start,
                        segments: self.segments@.subrange(
                            done_end(self.contours@),
                            self.segments@.len() as int,
                        ),
                    },
                ),
                None => None,
            },
            pending: self.pending@,
            sealed: self.sealed,
        }
    }
}

impl PathBuilder {
    /// The invariant of every builder value.
    #[verifier::type_invariant]
    pub closed spec fn wf(&self) -> bool {
        &&& layout_ok(self.contours@, self.segments@)
        &&& (self.open is None ==> self.pending@.len() == 0 && self.segments@.len() == done_end(
            self.contours@,
        ))
        &&& (self.open is Some ==> self.open.unwrap().in_range())
        &&& (self.sealed ==> self.open is Some && self.pending@.len() == 0)
    }

    /// A builder that has seen nothing yet.
    pub fn new() -> (builder: PathBuilder)
        ensures
            builder@ == BuilderView::empty(),
    {
        let builder = PathBuilder {
            contours: Vec::new(),
            segments: Vec::new(),
            open: None,
            pending: Vec::new(),
            sealed: false,
        };
        assert(builder@.completed =~= Seq::empty());
        assert(builder@.pending =~= Seq::empty());
        builder
    }

    /// Opens a subpath at `p`. Fails with `UnterminatedContour` where a
    /// subpath is open already.
    pub fn move_to(self, p: RawPoint) -> (r: Result<PathBuilder, PathError>)
        ensures
            follows(r, self@.move_to(p)),
    {
        proof {
            use_type_invariant(&self);
        }
        let PathBuilder { contours, segments, open, pending, sealed: _ } = self;
        if open.is_some() {
            return Err(PathError::UnterminatedContour);
        }
        let builder = PathBuilder {
            contours,
            segments,
            open: Some(p.lift()),
            pending,
            sealed: false,
        };
        proof {
            assert(builder@.open.unwrap().segments =~= Seq::empty());
        }
        Ok(builder)
    }

    /// Draws a line to `p`. Fails with `MalformedContour` where no subpath is
    /// open or a control point waits.
    pub fn line_to(self, p: RawPoint) -> (r: Result<PathBuilder, PathError>)
        ensures
            follows(r, self@.line_to(p)),
    {
        proof {
            use_type_invariant(&self);
        }
        let PathBuilder { contours, mut segments, open, pending, sealed } = self;
        if open.is_none() || sealed || pending.len() != 0 {
            return Err(PathError::MalformedContour);
        }
        let ghost before = segments@;
        let segment = Segment::LineTo { end: p.lift() };
        segments.push(segment);
        proof {
            lemma_ends_ascend(contours@, before, 0);
            lemma_same_prefix(contours@, before, segments@);
        }
        let builder = PathBuilder { contours, segments, open, pending, sealed: false };
        proof {
            assert(builder@.open.unwrap().segments =~= self@.open.unwrap().segments + seq![segment]);
            assert(builder@.pending =~= Seq::empty());
        }
        Ok(builder)
    }

    /// Buffers `p` as a control point. Fails with `MalformedContour` where no
    /// subpath is open or the contour is sealed.
    pub fn offcurve(self, p: RawPoint) -> (r: Result<PathBuilder, PathError>)
        ensures
            follows(r, self@.offcurve(p)),
    {
        proof {
            use_type_invariant(&self);
        }
        let PathBuilder { contours, segments, open, mut pending, sealed } = self;
        if open.is_none() || sealed {
            return Err(PathError::MalformedContour);
        }
        pending.push(p);
        Ok(PathBuilder { contours, segments, open, pending, sealed: false })
    }

    /// Draws a cubic curve to `p` with the two buffered control points. Fails
    /// with `MalformedContour` where no subpath is open or the buffer does
    /// not hold exactly two points.
    pub fn curve_to(self, p: RawPoint) -> (r: Result<PathBuilder, PathError>)
        ensures
            follows(r, self@.curve_to(p)),
    {
        proof {
            use_type_invariant(&self);
        }
        let PathBuilder { contours, mut segments, open, pending, sealed } = self;
        if open.is_none() || sealed || pending.len() != 2 {
            return Err(PathError::MalformedContour);
        }
        let ghost before = segments@;
        let segment = Segment::CubicTo {
            control1: pending[0].lift(),
            control2: pending[1].lift(),
            end: p.lift(),
        };
        segments.push(segment);
        proof {
            lemma_ends_ascend(contours@, before, 0);
            lemma_same_prefix(contours@, before, segments@);
        }
        let builder = PathBuilder { contours, segments, open, pending: Vec::new(), sealed: false };
        proof {
            assert(builder@.open.unwrap().segments =~= self@.open.unwrap().segments + seq![segment]);
            assert(builder@.pending =~= Seq::empty());
        }
        Ok(builder)
    }

    /// Draws one quadratic curve for each buffered control point, the last of
    /// them ending at `p`, as `quad_run` says. Where no control point is
    /// buffered nothing is drawn and the contour is sealed: `end_path` may
    /// follow, but no point. Fails with `MalformedContour` where no subpath is
    /// open or the contour is sealed already.
    pub fn qcurve_to(self, p: RawPoint) -> (r: Result<PathBuilder, PathError>)
        ensures
            follows(r, self@.qcurve_to(p)),
    {
        proof {
            use_type_invariant(&self);
        }
        let PathBuilder { contours, mut segments, open, pending, sealed } = self;
        if open.is_none() || sealed {
            return Err(PathError::MalformedContour);
        }
        if pending.len() == 0 {
            return Ok(PathBuilder { contours, segments, open, pending, sealed: true });
        }
        let ghost before = segments@;
        let ghost run = quad_run(pending@, p);
        let n = pending.len();
        let mut i: usize = 0;
        while i < n
            invariant
                n == pending@.len(),
                i <= n,
                run == quad_run(pending@, p),
                segments@ == before + run.subrange(0, i as int),
                forall|k: int| 0 <= k < segments@.len() ==> (#[trigger] segments@[k]).in_range(),
            decreases n - i,
        {
            let control = pending[i];
            let end = if i + 1 < n {
                control.midpoint(pending[i + 1])
            } else {
                p.lift()
            };
            let segment = Segment::QuadTo { control: control.lift(), end };
            assert(segment == run[i as int]);
            segments.push(segment);
            i = i + 1;
            assert(segments@ =~= before + run.subrange(0, i as int));
        }
        proof {
            assert(run.subrange(0, n as int) =~= run);
            lemma_ends_ascend(contours@, before, 0);
            lemma_same_prefix(contours@, before, segments@);
        }
        let builder = PathBuilder { contours, segments, open, pending: Vec::new(), sealed: false };
        proof {
            assert(builder@.open.unwrap().segments =~= self@.open.unwrap().segments + run);
            assert(builder@.pending =~= Seq::empty());
        }
        Ok(builder)
    }

    /// Takes one point of a contour, by its kind.
    pub fn push(self, rp: RawContourPoint) -> (r: Result<PathBuilder, PathError>)
        ensures
            follows(r, self@.push(rp)),
    {
        match rp.kind {
            PointKind::Move => self.move_to(rp.point),
            PointKind::Line => self.line_to(rp.point),
            PointKind::CubicEnd => self.curve_to(rp.point),
            PointKind::QuadEnd => self.qcurve_to(rp.point),
            PointKind::OffCurve => self.offcurve(rp.point),
        }
    }

    /// Closes the open subpath back to its start and counts it as completed.
    /// Fails with `UnterminatedContour` where no subpath is open, and with
    /// `MalformedContour` where control points are left in the buffer.
    pub fn end_path(self) -> (r: Result<PathBuilder, PathError>)
        ensures
            follows(r, self@.end_path()),
    {
        proof {
            use_type_invariant(&self);
        }
        let PathBuilder { mut contours, mut segments, open, pending, sealed: _ } = self;
        let start = match open {
            Some(start) => start,
            None => {
                return Err(PathError::UnterminatedContour);
            },
        };
        if pending.len() != 0 {
            return Err(PathError::MalformedContour);
        }
        let ghost before = segments@;
        let ghost sp = self@.open.unwrap();
        proof {
            lemma_ends_ascend(contours@, before, 0);
        }
        let done: usize = if contours.len() == 0 {
            0
        } else {
            contours[contours.len() - 1].end
        };
        assert(done == done_end(contours@));
        let closed: bool = if segments.len() == done {
            false
        } else {
            let last = segments[segments.len() - 1].end();
            assert(last == sp.end_point()) by {
                assert(sp.segments[sp.segments.len() - 1] == before[before.len() - 1]);
            }
            last == start
        };
        assert(closed <==> !(sp.segments.len() == 0 || sp.end_point() != sp.start));
        if !closed {
            segments.push(Segment::LineTo { end: start });
        }
        proof {
            lemma_same_prefix(contours@, before, segments@);
            assert(segments@.subrange(done as int, segments@.len() as int) =~= closed_up(
                sp,
            ).segments);
        }
        let contour = Contour { start, end: segments.len() };
        let ghost old_contours = contours@;
        contours.push(contour);
        proof {
            lemma_push_contour(old_contours, segments@, contour);
        }
        let builder = PathBuilder { contours, segments, open: None, pending, sealed: false };
        proof {
            assert(builder@.completed =~= self@.completed.push(closed_up(sp)));
            assert(builder@.pending =~= Seq::empty());
        }
        Ok(builder)
    }

    /// Takes a whole contour: its points in order, then `end_path`. Stops at
    /// the first error.
    pub fn add_contour(self, points: &Vec<RawContourPoint>) -> (r: Result<PathBuilder, PathError>)
        ensures
            follows(r, self@.add_contour(points@)),
    {
        let ghost start = self@;
        let mut builder = self;
        let mut i: usize = 0;
        while i < points.len()
            invariant
                i <= points@.len(),
                start == self@,
                start.feed(points@, i as int) == Ok::<BuilderView, PathError>(builder@),
            decreases points@.len() - i,
        {
            let ghost reached = builder@;
            match builder.push(points[i]) {
                Ok(next) => {
                    builder = next;
                },
                Err(e) => {
                    proof {
                        assert(start.feed(points@, i as int + 1) == reached.push(points@[i as int]));
                        lemma_feed_error(start, points@, i as int + 1, points@.len() as int);
                    }
                    return Err(e);
                },
            }
            i = i + 1;
        }
        builder.end_path()
    }

    /// Takes a ring of control points that has no on-curve point, and
    /// completes the closed run of curves that it stands for. Fails with
    /// `UnterminatedContour` where a subpath is open, and with
    /// `MalformedContour` where the ring is empty.
    pub fn control_ring(self, controls: &Vec<RawPoint>) -> (r: Result<PathBuilder, PathError>)
        ensures
            follows(r, self@.control_ring(controls@)),
    {
        proof {
            use_type_invariant(&self);
        }
        let PathBuilder { mut contours, mut segments, open, pending, sealed: _ } = self;
        if open.is_some() {
            return Err(PathError::UnterminatedContour);
        }
        let n = controls.len();
        if n == 0 {
            return Err(PathError::MalformedContour);
        }
        let ghost before = segments@;
        let ghost run = ring_run(controls@);
        let start = controls[n - 1].midpoint(controls[0]);
        let mut i: usize = 0;
        while i < n
            invariant
                n == controls@.len(),
                i <= n,
                run == ring_run(controls@),
                segments@ == before + run.subrange(0, i as int),
                forall|k: int| 0 <= k < segments@.len() ==> (#[trigger] segments@[k]).in_range(),
            decreases n - i,
        {
            let control = controls[i];
            let next = if i + 1 < n {
                controls[i + 1]
            } else {
                controls[0]
            };
            let segment = Segment::QuadTo { control: control.lift(), end: control.midpoint(next) };
            assert(segment == run[i as int]);
            segments.push(segment);
            i = i + 1;
            assert(segments@ =~= before + run.subrange(0, i as int));
        }
        proof {
            assert(run.subrange(0, n as int) =~= run);
            lemma_ends_ascend(contours@, before, 0);
            lemma_same_prefix(contours@, before, segments@);
            assert(segments@[segments@.len() - 1] == run[n - 1]);
            assert(segments@.subrange(before.len() as int, segments@.len() as int) =~= run);
        }
        let contour = Contour { start, end: segments.len() };
        let ghost old_contours = contours@;
        contours.push(contour);
        proof {
            lemma_push_contour(old_contours, segments@, contour);
        }
        let builder = PathBuilder { contours, segments, open: None, pending, sealed: false };
        proof {
            assert(builder@.completed =~= self@.completed.push(
                SubpathView { start, segments: run },
            ));
        }
        Ok(builder)
    }

    /// Takes a contour as a font source gives it: a ring of control points
    /// as `control_ring` does, any other contour unrolled, as `add_contour`
    /// does.
    pub fn add_ring(self, points: &Vec<RawContourPoint>) -> (r: Result<PathBuilder, PathError>)
        ensures
            follows(r, self@.add_ring(points@)),
    {
        let n = points.len();
        let mut controls: Vec<RawPoint> = Vec::new();
        let mut cut: usize = 0;
        while cut < n && is_off_curve(points[cut].kind)
            invariant
                n == points@.len(),
                cut <= n,
                first_on_curve(points@, 0) == first_on_curve(points@, cut as int),
                controls@ == points_of(points@).subrange(0, cut as int),
            decreases n - cut,
        {
            controls.push(points[cut].point);
            cut = cut + 1;
            assert(controls@ =~= points_of(points@).subrange(0, cut as int));
        }
        if n > 0 && cut >= n {
            assert(controls@ =~= points_of(points@));
            self.control_ring(&controls)
        } else {
            let stream = unroll(points);
            self.add_contour(&stream)
        }
    }

    /// The path of the completed subpaths. Fails with `EmptyGlyph` where none
    /// was completed.
    pub fn build(self) -> (r: Result<Path, PathError>)
        ensures
            match r {
                Ok(path) => self@.build() == Ok::<Seq<SubpathView>, PathError>(path@),
                Err(e) => self@.build() == Err::<Seq<SubpathView>, PathError>(e),
            },
            r is Ok ==> valid_outline(r.unwrap()@),
    {
        proof {
            use_type_invariant(&self);
        }
        let PathBuilder { contours, mut segments, open: _, pending: _, sealed: _ } = self;
        if contours.len() == 0 {
            return Err(PathError::EmptyGlyph);
        }
        let ghost before = segments@;
        let done: usize = contours[contours.len() - 1].end;
        proof {
            lemma_ends_ascend(contours@, before, 0);
        }
        segments.truncate(done);
        proof {
            lemma_same_prefix(contours@, before, segments@);
        }
        let path = Path::from_parts(contours, segments);
        proof {
            path.lemma_layout();
        }
        Ok(path)
    }
}

/// The point streams of the contours.
pub open spec fn streams(contours: Seq<Vec<RawContourPoint>>) -> Seq<Seq<RawContourPoint>> {
    Seq::new(contours.len(), |i: int| contours[i]@)
}

/// The outline that a fresh builder makes of `contours`: every contour is
/// added in turn, then the path is built. The first error ends the work.
pub open spec fn outline_from(contours: Seq<Seq<RawContourPoint>>) -> Result<
    Seq<SubpathView>,
    PathError,
> {
    match BuilderView::empty().add_contours(contours, contours.len() as int) {
        Ok(state) => state.build(),
        Err(e) => Err(e),
    }
}

/// The path of a glyph whose contours are given as point streams.
pub fn build_path(contours: &Vec<Vec<RawContourPoint>>) -> (r: Result<Path, PathError>)
    ensures
        match r {
            Ok(path) => outline_from(streams(contours@)) == Ok::<Seq<SubpathView>, PathError>(
                path@,
            ),
            Err(e) => outline_from(streams(contours@)) == Err::<Seq<SubpathView>, PathError>(e),
        },
        r is Ok ==> valid_outline(r.unwrap()@),
{
    let ghost all = streams(contours@);
    let mut builder = PathBuilder::new();
    let mut i: usize = 0;
    while i < contours.len()
        invariant
            i <= contours@.len(),
            all == streams(contours@),
            BuilderView::empty().add_contours(all, i as int) == Ok::<BuilderView, PathError>(
                builder@,
            ),
        decreases contours@.len() - i,
    {
        let ghost reached = builder@;
        match builder.add_contour(&contours[i]) {
            Ok(next) => {
                builder = next;
            },
            Err(e) => {
                proof {
                    assert(BuilderView::empty().add_contours(all, i as int + 1)
                        == reached.add_contour(all[i as int]));
                    lemma_add_contours_error(
                        BuilderView::empty(),
                        all,
                        i as int + 1,
                        all.len() as int,
                    );
                }
                return Err(e);
            },
        }
        i = i + 1;
    }
    builder.build()
}

/// The index of the first point at or after `from` that is no control point,
/// or the length of `points` where there is none.
pub open spec fn first_on_curve(points: Seq<RawContourPoint>, from: int) -> int
    decreases points.len() - from,
{
    if from >= points.len() {
        points.len() as int
    } else if points[from].kind != PointKind::OffCurve {
        from
    } else {
        first_on_curve(points, from + 1)
    }
}

/// The contour is a ring of control points: it has points, and none of them
/// is an on-curve point.
pub open spec fn is_control_ring(points: Seq<RawContourPoint>) -> bool {
    points.len() > 0 && first_on_curve(points, 0) >= points.len()
}

/// The places of the points, without their kinds.
pub open spec fn points_of(points: Seq<RawContourPoint>) -> Seq<RawPoint> {
    Seq::new(points.len(), |i: int| points[i].point)
}

/// The outline that a fresh builder makes of the contours of a font source:
/// every contour is added as `add_ring` says, then the path is built. The
/// first error ends the work.
pub open spec fn outline_from_rings(rings: Seq<Seq<RawContourPoint>>) -> Result<
    Seq<SubpathView>,
    PathError,
> {
    match BuilderView::empty().add_rings(rings, rings.len() as int) {
        Ok(state) => state.build(),
        Err(e) => Err(e),
    }
}

/// Once a contour of a font source is refused, the error stays.
pub(crate) proof fn lemma_add_rings_error(
    state: BuilderView,
    rings: Seq<Seq<RawContourPoint>>,
    m: int,
    n: int,
)
    requires
        0 <= m <= n,
        state.add_rings(rings, m) is Err,
    ensures
        state.add_rings(rings, n) == state.add_rings(rings, m),
    decreases n - m,
{
    if m < n {
        lemma_add_rings_error(state, rings, m, n - 1);
    }
}

/// A closed contour, unrolled into a stream that begins with `Move`.
///
/// A font source gives a closed contour as a ring of points: it has no first
/// point, and the kind of each point says how the outline arrives there from
/// the point before it in the ring. The builder wants a stream that begins
/// with `Move`. So the ring is cut at its first on-curve point: the stream
/// moves there, runs through the rest of the ring and the points before the
/// cut, and arrives at that point again, by its own kind. A contour that
/// begins with `Move`, and one without any on-curve point, stay as they are;
/// `add_ring` knows what to make of the latter.
pub open spec fn unrolled(points: Seq<RawContourPoint>) -> Seq<RawContourPoint> {
    let cut = first_on_curve(points, 0);
    if points.len() == 0 || points[0].kind == PointKind::Move || cut >= points.len() {
        points
    } else {
        seq![RawContourPoint { point: points[cut].point, kind: PointKind::Move }]
            + points.subrange(cut + 1, points.len() as int) + points.subrange(0, cut)
            + seq![points[cut]]
    }
}

/// The stream of a contour for the builder, as `unrolled` says.
pub fn unroll(points: &Vec<RawContourPoint>) -> (stream: Vec<RawContourPoint>)
    ensures
        stream@ == unrolled(points@),
{
    let n = points.len();
    let mut cut: usize = 0;
    while cut < n && is_off_curve(points[cut].kind)
        invariant
            n == points@.len(),
            cut <= n,
            first_on_curve(points@, 0) == first_on_curve(points@, cut as int),
        decreases n - cut,
    {
        cut = cut + 1;
    }
    let mut stream: Vec<RawContourPoint> = Vec::new();
    if n == 0 || cut >= n || is_move(points[0].kind) {
        let mut i: usize = 0;
        while i < n
            invariant
                n == points@.len(),
                i <= n,
                stream@ == points@.subrange(0, i as int),
            decreases n - i,
        {
            stream.push(points[i]);
            i = i + 1;
            assert(stream@ =~= points@.subrange(0, i as int));
        }
        assert(stream@ =~= points@);
        return stream;
    }
    let ghost head = seq![RawContourPoint { point: points@[cut as int].point, kind: PointKind::Move }];
    stream.push(RawContourPoint { point: points[cut].point, kind: PointKind::Move });
    assert(stream@ =~= head);
    let mut i: usize = cut + 1;
    while i < n
        invariant
            n == points@.len(),
            cut < i <= n,
            stream@ == head + points@.subrange(cut + 1, i as int),
        decreases n - i,
    {
        stream.push(points[i]);
        i = i + 1;
        assert(stream@ =~= head + points@.subrange(cut + 1, i as int));
    }
    let ghost tail = points@.subrange(cut + 1, n as int);
    let mut i: usize = 0;
    while i < cut
        invariant
            n == points@.len(),
            i <= cut < n,
            stream@ == head + tail + points@.subrange(0, i as int),
        decreases cut - i,
    {
        stream.push(points[i]);
        i = i + 1;
        assert(stream@ =~= head + tail + points@.subrange(0, i as int));
    }
    stream.push(points[cut]);
    assert(stream@ =~= head + tail + points@.subrange(0, cut as int) + seq![points@[cut as int]]);
    stream
}

fn is_off_curve(kind: PointKind) -> (r: bool)
    ensures
        r == (kind == PointKind::OffCurve),
{
    match kind {
        PointKind::OffCurve => true,
        _ => false,
    }
}

fn is_move(kind: PointKind) -> (r: bool)
    ensures
        r == (kind == PointKind::Move),
{
    match kind {
        PointKind::Move => true,
        _ => false,
    }
}

/// Once a contour is refused, the error stays.
proof fn lemma_add_contours_error(
    state: BuilderView,
    contours: Seq<Seq<RawContourPoint>>,
    m: int,
    n: int,
)
    requires
        0 <= m <= n,
        state.add_contours(contours, m) is Err,
    ensures
        state.add_contours(contours, n) == state.add_contours(contours, m),
    decreases n - m,
{
    if m < n {
        lemma_add_contours_error(state, contours, m, n - 1);
    }
}

/// Between two control points of a quadratic run, the implied on-curve point
/// is the exact mean of the two. When `QuadEnd` comes with `p`, curve `i` of
/// the run has control point `i` for its control and ends at that mean: twice
/// each of its coordinates is the sum of the coordinates of the two control
/// points, as the path holds them.
pub proof fn law_implied_point_is_midpoint(state: BuilderView, p: RawPoint, i: int)
    requires
        state.open is Some,
        !state.sealed,
        0 <= i,
        i + 1 < state.pending.len(),
    ensures
        state.qcurve_to(p) is Ok,
        ({
            let drawn = state.qcurve_to(p).unwrap().open.unwrap().segments;
            let at = state.open.unwrap().segments.len() + i;
            let first = state.pending[i].lifted();
            let second = state.pending[i + 1].lifted();
            &&& drawn[at] is QuadTo
            &&& drawn[at]->QuadTo_control == first
            &&& 2 * drawn[at]->QuadTo_end.x == first.x + second.x
            &&& 2 * drawn[at]->QuadTo_end.y == first.y + second.y
        }),
{
}

/// Closing a subpath leaves it with a segment at least, and leading back to
/// its start.
pub proof fn law_closed_up_is_closed(sp: SubpathView)
    ensures
        closed_up(sp).segments.len() >= 1,
        closed_up(sp).is_closed(),
        closed_up(sp).start == sp.start,
{
}

/// The curves of a ring of control points lead back to where they start:
/// halfway between the last control point and the first.
pub proof fn law_ring_run_is_closed(controls: Seq<RawPoint>)
    requires
        controls.len() >= 1,
    ensures
        ring_run(controls).len() == controls.len(),
        ring_run(controls).last().end_point() == controls.last().midpoint_with(controls[0]),
{
}

/// No step of the builder opens a completed subpath again: where all were
/// closed before a point, an `end_path` or a ring of control points, all are
/// closed after it. A fresh builder has completed none, so every subpath of
/// every path that is built leads back to its start.
pub proof fn law_steps_keep_subpaths_closed(
    state: BuilderView,
    rp: RawContourPoint,
    controls: Seq<RawPoint>,
)
    requires
        state.all_closed(),
    ensures
        BuilderView::empty().all_closed(),
        state.push(rp) is Ok ==> state.push(rp).unwrap().all_closed(),
        state.end_path() is Ok ==> state.end_path().unwrap().all_closed(),
        state.control_ring(controls) is Ok ==> state.control_ring(controls).unwrap().all_closed(),
        state.build() is Ok ==> forall|i: int|
            0 <= i < state.build().unwrap().len() ==> (#[trigger] state.build().unwrap()[i]).is_closed(),
{
    if state.end_path() is Ok {
        let after = state.end_path().unwrap();
        law_closed_up_is_closed(state.open.unwrap());
        assert forall|i: int| 0 <= i < after.completed.len() implies (
        #[trigger] after.completed[i]).segments.len() >= 1 && after.completed[i].is_closed() by {
            if i < state.completed.len() {
                assert(after.completed[i] == state.completed[i]);
            }
        }
    }
    if state.control_ring(controls) is Ok {
        let after = state.control_ring(controls).unwrap();
        law_ring_run_is_closed(controls);
        assert forall|i: int| 0 <= i < after.completed.len() implies (
        #[trigger] after.completed[i]).segments.len() >= 1 && after.completed[i].is_closed() by {
            if i < state.completed.len() {
                assert(after.completed[i] == state.completed[i]);
            }
        }
    }
}

/// Once a point is refused, the error stays: feeding more points changes
/// nothing.
proof fn lemma_feed_error(state: BuilderView, points: Seq<RawContourPoint>, m: int, n: int)
    requires
        0 <= m <= n,
        state.feed(points, m) is Err,
    ensures
        state.feed(points, n) == state.feed(points, m),
    decreases n - m,
{
    if m < n {
        lemma_feed_error(state, points, m, n - 1);
    }
}

} // verus!
