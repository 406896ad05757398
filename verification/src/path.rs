//! The outline model: closed subpaths of line and curve segments.

use crate::geometry::Point;
use vstd::prelude::*;

verus! {

/// One drawing step of a subpath. It starts where the step before it ended.
#[derive(Clone, Copy, Debug, PartialEq, Eq, Structural)]
pub enum Segment {
    LineTo { end: Point },
    QuadTo { control: Point, end: Point },
    CubicTo { control1: Point, control2: Point, end: Point },
}

impl Segment {
    /// The on-curve point at which the segment ends.
    pub open spec fn end_point(self) -> Point {
        match self {
            Segment::LineTo { end } => end,
            Segment::QuadTo { end, .. } => end,
            Segment::CubicTo { end, .. } => end,
        }
    }

    /// Every control and end point lies within the coordinate limit.
    pub open spec fn in_range(self) -> bool {
        match self {
            Segment::LineTo { end } => end.in_range(),
            Segment::QuadTo { control, end } => control.in_range() && end.in_range(),
            Segment::CubicTo { control1, control2, end } => {
                control1.in_range() && control2.in_range() && end.in_range()
            },
        }
    }

    pub fn end(&self) -> (p: Point)
        ensures
            p == self.end_point(),
    {
        match self {
            Segment::LineTo { end } => *end,
            Segment::QuadTo { end, .. } => *end,
            Segment::CubicTo { end, .. } => *end,
        }
    }
}

/// The mathematical value of a subpath: a start point and the segments drawn
/// from it, in order.
pub struct SubpathView {
    pub start: Point,
    pub segments: Seq<Segment>,
}

impl SubpathView {
    /// The point from which segment `j` is drawn.
    pub open spec fn from_point(self, j: int) -> Point {
        if j <= 0 {
            self.start
        } else {
            self.segments[j - 1].end_point()
        }
    }

    /// The point reached after the last segment.
    pub open spec fn end_point(self) -> Point {
        self.from_point(self.segments.len() as int)
    }

    /// Tracing the subpath leads back to its start.
    pub open spec fn is_closed(self) -> bool {
        self.end_point() == self.start
    }

    pub open spec fn in_range(self) -> bool {
        &&& self.start.in_range()
        &&& forall|j: int| 0 <= j < self.segments.len() ==> (#[trigger] self.segments[j]).in_range()
    }

    /// What a subpath of a path always is: not empty, closed, within range.
    pub open spec fn is_valid(self) -> bool {
        &&& self.segments.len() >= 1
        &&& self.is_closed()
        &&& self.in_range()
    }
}

/// The number of segments in the first `n` subpaths of an outline.
pub open spec fn total_segments(outline: Seq<SubpathView>, n: int) -> int
    decreases n,
{
    if n <= 0 {
        0
    } else {
        total_segments(outline, n - 1) + outline[n - 1].segments.len()
    }
}

/// What the view of a path always is: one or more valid subpaths.
pub open spec fn valid_outline(outline: Seq<SubpathView>) -> bool {
    &&& outline.len() >= 1
    &&& forall|i: int| 0 <= i < outline.len() ==> (#[trigger] outline[i]).is_valid()
}

/// The point mirrored at the `x` axis.
pub open spec fn flipped_point(p: Point) -> Point {
    Point { x: p.x, y: (-p.y) as i64 }
}

/// The segment with every point mirrored.
pub open spec fn flipped_segment(s: Segment) -> Segment {
    match s {
        Segment::LineTo { end } => Segment::LineTo { end: flipped_point(end) },
        Segment::QuadTo { control, end } => Segment::QuadTo {
            control: flipped_point(control),
            end: flipped_point(end),
        },
        Segment::CubicTo { control1, control2, end } => Segment::CubicTo {
            control1: flipped_point(control1),
            control2: flipped_point(control2),
            end: flipped_point(end),
        },
    }
}

/// The subpath with every point mirrored.
pub open spec fn flipped_subpath(sp: SubpathView) -> SubpathView {
    SubpathView {
        start: flipped_point(sp.start),
        segments: Seq::new(sp.segments.len(), |j: int| flipped_segment(sp.segments[j])),
    }
}

/// The outline with every point mirrored at the `x` axis.
pub open spec fn flipped_outline(outline: Seq<SubpathView>) -> Seq<SubpathView> {
    Seq::new(outline.len(), |i: int| flipped_subpath(outline[i]))
}

/// A subpath copied out of a path.
#[derive(Debug)]
pub struct Subpath {
    pub start: Point,
    pub segments: Vec<Segment>,
}

impl View for Subpath {
    type V = SubpathView;

    open spec fn view(&self) -> SubpathView {
        SubpathView { start: self.start, segments: self.segments@ }
    }
}

/// Where one subpath lies in the segment store: its start point and the index
/// one past its last segment. It begins where the subpath before it ends.
#[derive(Clone, Copy, Debug)]
pub(crate) struct Contour {
    pub(crate) start: Point,
    pub(crate) end: usize,
}

pub(crate) open spec fn lo_of(contours: Seq<Contour>, i: int) -> int {
    if i <= 0 {
        0
    } else {
        contours[i - 1].end as int
    }
}

pub(crate) open spec fn subpath_at(
    contours: Seq<Contour>,
    segments: Seq<Segment>,
    i: int,
) -> SubpathView {
    SubpathView {
        start: contours[i].start,
        segments: segments.subrange(lo_of(contours, i), contours[i].end as int),
    }
}

pub(crate) open spec fn outline_of(contours: Seq<Contour>, segments: Seq<Segment>) -> Seq<
    SubpathView,
> {
    Seq::new(contours.len(), |i: int| subpath_at(contours, segments, i))
}

/// The contours cut the segments that they cover into runs that follow one
/// another. No run is empty, each ends at its own start point, and all points
/// lie within the coordinate limit.
pub(crate) open spec fn layout_ok(contours: Seq<Contour>, segments: Seq<Segment>) -> bool {
    &&& forall|i: int|
        0 <= i < contours.len() ==> {
            &&& lo_of(contours, i) < (#[trigger] contours[i]).end <= segments.len()
            &&& contours[i].start.in_range()
            &&& segments[contours[i].end - 1].end_point() == contours[i].start
        }
    &&& forall|k: int| 0 <= k < segments.len() ==> (#[trigger] segments[k]).in_range()
}

pub(crate) open spec fn outline_wf(contours: Seq<Contour>, segments: Seq<Segment>) -> bool {
    &&& contours.len() >= 1
    &&& layout_ok(contours, segments)
    &&& contours.last().end == segments.len()
}

/// Subpath `i` of a well laid out store is valid.
pub(crate) proof fn lemma_subpath_valid(contours: Seq<Contour>, segments: Seq<Segment>, i: int)
    requires
        layout_ok(contours, segments),
        0 <= i < contours.len(),
    ensures
        subpath_at(contours, segments, i).is_valid(),
        subpath_at(contours, segments, i).segments.len() == contours[i].end - lo_of(contours, i),
        0 <= lo_of(contours, i) < contours[i].end <= segments.len(),
{
    let sp = subpath_at(contours, segments, i);
    let lo = lo_of(contours, i);
    let hi = contours[i].end as int;
    if i > 0 {
        assert(lo_of(contours, i - 1) < contours[i - 1].end);
    }
    assert(0 <= lo < hi <= segments.len());
    assert(sp.segments.len() == hi - lo);
    assert(sp.segments[hi - lo - 1] == segments[hi - 1]);
    assert forall|j: int| 0 <= j < sp.segments.len() implies (#[trigger] sp.segments[j]).in_range() by {
        assert(sp.segments[j] == segments[lo + j]);
    }
}

/// The index one past the last segment that the contours cover.
pub(crate) open spec fn done_end(contours: Seq<Contour>) -> int {
    lo_of(contours, contours.len() as int)
}

/// The contours see only the segments that they cover: two stores that agree
/// there are laid out alike and hold the same subpaths.
pub(crate) proof fn lemma_same_prefix(contours: Seq<Contour>, a: Seq<Segment>, b: Seq<Segment>)
    requires
        layout_ok(contours, a),
        done_end(contours) <= b.len(),
        forall|k: int| 0 <= k < done_end(contours) ==> a[k] == b[k],
        forall|k: int| 0 <= k < b.len() ==> (#[trigger] b[k]).in_range(),
    ensures
        layout_ok(contours, b),
        outline_of(contours, a) == outline_of(contours, b),
        done_end(contours) <= a.len(),
{
    let n = contours.len() as int;
    lemma_ends_ascend(contours, a, n);
    assert forall|i: int| 0 <= i < n implies {
        &&& lo_of(contours, i) < (#[trigger] contours[i]).end <= b.len()
        &&& b[contours[i].end - 1].end_point() == contours[i].start
        &&& subpath_at(contours, a, i) == subpath_at(contours, b, i)
    } by {
        lemma_ends_ascend(contours, a, i + 1);
        lemma_subpath_valid(contours, a, i);
        let lo = lo_of(contours, i);
        let hi = contours[i].end as int;
        assert(a.subrange(lo, hi) =~= b.subrange(lo, hi));
    }
    assert(outline_of(contours, a) =~= outline_of(contours, b));
}

/// The ends of the contours ascend: what the first `m` cover lies before `done_end`.
pub(crate) proof fn lemma_ends_ascend(contours: Seq<Contour>, segments: Seq<Segment>, m: int)
    requires
        layout_ok(contours, segments),
        0 <= m <= contours.len(),
    ensures
        0 <= lo_of(contours, m) <= done_end(contours) <= segments.len(),
    decreases contours.len() - m,
{
    if m < contours.len() {
        assert(lo_of(contours, m) < contours[m].end);
        lemma_ends_ascend(contours, segments, m + 1);
    } else if m > 0 {
        assert(lo_of(contours, m - 1) < contours[m - 1].end <= segments.len());
    }
}

/// Closing the run of segments behind the last contour adds one subpath and
/// leaves the others as they were.
pub(crate) proof fn lemma_push_contour(contours: Seq<Contour>, segments: Seq<Segment>, c: Contour)
    requires
        layout_ok(contours, segments),
        done_end(contours) < c.end == segments.len(),
        c.start.in_range(),
        segments[c.end - 1].end_point() == c.start,
    ensures
        layout_ok(contours.push(c), segments),
        done_end(contours.push(c)) == segments.len(),
        outline_of(contours.push(c), segments) == outline_of(contours, segments).push(
            SubpathView {
                start: c.start,
                segments: segments.subrange(done_end(contours), segments.len() as int),
            },
        ),
{
    let more = contours.push(c);
    let n = contours.len() as int;
    assert forall|i: int| 0 <= i < more.len() implies {
        &&& lo_of(more, i) < (#[trigger] more[i]).end <= segments.len()
        &&& more[i].start.in_range()
        &&& segments[more[i].end - 1].end_point() == more[i].start
    } by {
        if i < n {
            assert(more[i] == contours[i]);
            assert(lo_of(more, i) == lo_of(contours, i));
        } else {
            assert(lo_of(more, i) == done_end(contours));
        }
    }
    assert forall|i: int| 0 <= i < n implies subpath_at(more, segments, i) == subpath_at(
        contours,
        segments,
        i,
    ) by {
        assert(more[i] == contours[i]);
        assert(lo_of(more, i) == lo_of(contours, i));
    }
    assert(lo_of(more, n) == done_end(contours));
    assert(outline_of(more, segments) =~= outline_of(contours, segments).push(
        SubpathView {
            start: c.start,
            segments: segments.subrange(done_end(contours), segments.len() as int),
        },
    ));
}

/// A glyph outline: one or more closed subpaths.
///
/// The segments of all subpaths are kept in one store, so a path never holds
/// more segments than a `usize` can count.
#[derive(Debug)]
pub struct Path {
    contours: Vec<Contour>,
    segments: Vec<Segment>,
}

impl View for Path {
    type V = Seq<SubpathView>;

    closed spec fn view(&self) -> Seq<SubpathView> {
        outline_of(self.contours@, self.segments@)
    }
}

impl Path {
    /// The invariant of every path value.
    #[verifier::type_invariant]
    pub closed spec fn wf(&self) -> bool {
        outline_wf(self.contours@, self.segments@)
    }

    /// All segments of the path in drawing order, subpath after subpath.
    pub(crate) closed spec fn flat(&self) -> Seq<Segment> {
        self.segments@
    }

    /// The index in `flat` at which subpath `i` begins.
    pub(crate) closed spec fn lo(&self, i: int) -> int {
        lo_of(self.contours@, i)
    }

    /// The index in `flat` one past the last segment of subpath `i`.
    pub(crate) closed spec fn hi(&self, i: int) -> int {
        self.contours@[i].end as int
    }

    /// Every path is a valid outline: it has a subpath, and each of its
    /// subpaths has a segment, leads back to its start, and lies within the
    /// coordinate limit.
    pub proof fn law_path_is_valid(&self)
        requires
            self.wf(),
        ensures
            valid_outline(self@),
    {
        self.lemma_layout();
    }

    /// A path is a valid outline, and its subpaths lie in `flat` one after
    /// the other.
    pub(crate) proof fn lemma_layout(&self)
        requires
            self.wf(),
        ensures
            valid_outline(self@),
            self.flat().len() <= usize::MAX,
            self.lo(0) == 0,
            self.hi(self@.len() - 1) == self.flat().len(),
            forall|i: int|
                0 <= i < self@.len() ==> {
                    &&& 0 <= #[trigger] self.lo(i) < self.hi(i) <= self.flat().len()
                    &&& self.lo(i + 1) == self.hi(i)
                    &&& self@[i].segments == self.flat().subrange(self.lo(i), self.hi(i))
                },
            forall|k: int| 0 <= k < self.flat().len() ==> (#[trigger] self.flat()[k]).in_range(),
    {
        let contours = self.contours@;
        let segments = self.segments@;
        assert forall|i: int| 0 <= i < self@.len() implies (#[trigger] self@[i]).is_valid() by {
            lemma_subpath_valid(contours, segments, i);
        }
        assert forall|i: int| 0 <= i < self@.len() implies {
            &&& 0 <= #[trigger] self.lo(i) < self.hi(i) <= self.flat().len()
            &&& self.lo(i + 1) == self.hi(i)
            &&& self@[i].segments == self.flat().subrange(self.lo(i), self.hi(i))
        } by {
            lemma_subpath_valid(contours, segments, i);
        }
    }

    /// Makes a path of a store that is laid out well.
    pub(crate) fn from_parts(contours: Vec<Contour>, segments: Vec<Segment>) -> (path: Path)
        requires
            outline_wf(contours@, segments@),
        ensures
            path@ == outline_of(contours@, segments@),
            path.wf(),
    {
        Path { contours, segments }
    }

    /// The number of subpaths, which is at least one.
    pub fn subpath_count(&self) -> (n: usize)
        ensures
            n == self@.len(),
            n >= 1,
    {
        proof {
            use_type_invariant(self);
        }
        self.contours.len()
    }

    /// The number of segments in all subpaths together.
    pub fn segment_count(&self) -> (n: usize)
        ensures
            n == total_segments(self@, self@.len() as int),
    {
        proof {
            use_type_invariant(self);
            self.lemma_layout();
            self.lemma_total(self@.len() as int);
        }
        self.segments.len()
    }

    /// The first `n` subpaths fill `flat` up to where subpath `n` begins.
    proof fn lemma_total(&self, n: int)
        requires
            self.wf(),
            0 <= n <= self@.len(),
        ensures
            total_segments(self@, n) == self.lo(n),
        decreases n,
    {
        self.lemma_layout();
        if n > 0 {
            self.lemma_total(n - 1);
            assert(self.lo(n - 1 + 1) == self.hi(n - 1));
        }
    }

    /// The start point of subpath `i`, and where its segments lie in `flat`.
    pub(crate) fn span(&self, i: usize) -> (r: (Point, usize, usize))
        requires
            i < self@.len(),
        ensures
            r.0 == self@[i as int].start,
            r.1 == self.lo(i as int),
            r.2 == self.hi(i as int),
    {
        proof {
            use_type_invariant(self);
        }
        let c = self.contours[i];
        let lo: usize = if i == 0 {
            0
        } else {
            self.contours[i - 1].end
        };
        (c.start, lo, c.end)
    }

    /// Segment `k` of `flat`.
    pub(crate) fn segment_at(&self, k: usize) -> (s: Segment)
        requires
            k < self.flat().len(),
        ensures
            s == self.flat()[k as int],
    {
        self.segments[k]
    }

    /// A copy of subpath `i`, or `None` where the path has no such subpath.
    pub fn subpath(&self, i: usize) -> (r: Option<Subpath>)
        ensures
            r is Some <==> i < self@.len(),
            r is Some ==> r.unwrap()@ == self@[i as int],
    {
        proof {
            use_type_invariant(self);
            self.lemma_layout();
        }
        if i >= self.contours.len() {
            return None;
        }
        let (start, lo, hi) = self.span(i);
        let mut segments: Vec<Segment> = Vec::new();
        let mut k: usize = lo;
        while k < hi
            invariant
                lo <= k <= hi <= self.flat().len(),
                segments@ == self.flat().subrange(lo as int, k as int),
            decreases hi - k,
        {
            let s = self.segment_at(k);
            segments.push(s);
            k = k + 1;
            assert(segments@ =~= self.flat().subrange(lo as int, k as int));
        }
        Some(Subpath { start, segments })
    }

    /// The path mirrored at the `x` axis. Font sources count `y` upward and
    /// images count it downward; mirrored, a glyph stands upright in an image.
    pub fn flip_y(&self) -> (r: Path)
        ensures
            r@ == flipped_outline(self@),
    {
        proof {
            use_type_invariant(self);
            self.lemma_layout();
        }
        let ghost outline = self@;
        let n = self.contours.len();
        let mut contours: Vec<Contour> = Vec::new();
        let mut segments: Vec<Segment> = Vec::new();
        let mut i: usize = 0;
        while i < n
            invariant
                self.wf(),
                outline == self@,
                n == self.contours@.len(),
                i <= n,
                contours@.len() == i,
                segments@.len() == self.lo(i as int),
                0 <= self.lo(i as int) <= self.flat().len(),
                forall|c: int|
                    0 <= c < i ==> (#[trigger] contours@[c]).end == self.contours@[c].end
                        && contours@[c].start == flipped_point(self.contours@[c].start),
                forall|k: int|
                    0 <= k < segments@.len() ==> #[trigger] segments@[k] == flipped_segment(
                        self.flat()[k],
                    ),
                forall|k: int| 0 <= k < segments@.len() ==> (#[trigger] segments@[k]).in_range(),
                forall|c: int| 0 <= c < i ==> (#[trigger] contours@[c]).start.in_range(),
            decreases n - i,
        {
            proof {
                self.lemma_layout();
            }
            let (start, lo, hi) = self.span(i);
            let ghost sp = outline[i as int];
            assert(sp.is_valid());
            let mut k: usize = lo;
            while k < hi
                invariant
                    self.wf(),
                    lo <= k <= hi <= self.flat().len(),
                    forall|m: int| 0 <= m < self.flat().len() ==> (#[trigger] self.flat()[m]).in_range(),
                    segments@.len() == k,
                    forall|m: int|
                        0 <= m < segments@.len() ==> #[trigger] segments@[m] == flipped_segment(
                            self.flat()[m],
                        ),
                    forall|m: int| 0 <= m < segments@.len() ==> (#[trigger] segments@[m]).in_range(),
                decreases hi - k,
            {
                let s = self.segment_at(k);
                segments.push(flip_segment(s));
                k = k + 1;
            }
            contours.push(Contour { start: flip_point(start), end: hi });
            i = i + 1;
        }
        proof {
            let old_contours = self.contours@;
            let old_segments = self.segments@;
            assert forall|c: int| 0 <= c < contours@.len() implies {
                &&& lo_of(contours@, c) < (#[trigger] contours@[c]).end <= segments@.len()
                &&& contours@[c].start.in_range()
                &&& segments@[contours@[c].end - 1].end_point() == contours@[c].start
            } by {
                lemma_subpath_valid(old_contours, old_segments, c);
                assert(lo_of(contours@, c) == lo_of(old_contours, c)) by {
                    if c > 0 {
                        assert(contours@[c - 1].end == old_contours[c - 1].end);
                    }
                }
            }
            assert forall|c: int| 0 <= c < contours@.len() implies #[trigger] subpath_at(
                contours@,
                segments@,
                c,
            ) == flipped_subpath(outline[c]) by {
                lemma_subpath_valid(old_contours, old_segments, c);
                assert(lo_of(contours@, c) == lo_of(old_contours, c)) by {
                    if c > 0 {
                        assert(contours@[c - 1].end == old_contours[c - 1].end);
                    }
                }
                assert(subpath_at(contours@, segments@, c).segments =~= flipped_subpath(
                    outline[c],
                ).segments);
            }
            assert(outline_of(contours@, segments@) =~= flipped_outline(outline));
        }
        Path::from_parts(contours, segments)
    }
}

impl Clone for Path {
    fn clone(&self) -> (copy: Path)
        ensures
            copy@ == self@,
    {
        proof {
            use_type_invariant(self);
        }
        let mut contours: Vec<Contour> = Vec::new();
        let mut i: usize = 0;
        while i < self.contours.len()
            invariant
                i <= self.contours@.len(),
                contours@ == self.contours@.subrange(0, i as int),
            decreases self.contours@.len() - i,
        {
            contours.push(self.contours[i]);
            i = i + 1;
            assert(contours@ =~= self.contours@.subrange(0, i as int));
        }
        assert(contours@ =~= self.contours@);
        let mut segments: Vec<Segment> = Vec::new();
        let mut k: usize = 0;
        while k < self.segments.len()
            invariant
                k <= self.segments@.len(),
                segments@ == self.segments@.subrange(0, k as int),
            decreases self.segments@.len() - k,
        {
            segments.push(self.segments[k]);
            k = k + 1;
            assert(segments@ =~= self.segments@.subrange(0, k as int));
        }
        assert(segments@ =~= self.segments@);
        Path { contours, segments }
    }
}

/// The point `p` mirrored at the `x` axis.
fn flip_point(p: Point) -> (r: Point)
    requires
        p.in_range(),
    ensures
        r == flipped_point(p),
        r.in_range(),
{
    Point { x: p.x, y: -p.y }
}

/// The segment `s` with every point mirrored.
fn flip_segment(s: Segment) -> (r: Segment)
    requires
        s.in_range(),
    ensures
        r == flipped_segment(s),
        r.in_range(),
{
    match s {
        Segment::LineTo { end } => Segment::LineTo { end: flip_point(end) },
        Segment::QuadTo { control, end } => Segment::QuadTo {
            control: flip_point(control),
            end: flip_point(end),
        },
        Segment::CubicTo { control1, control2, end } => Segment::CubicTo {
            control1: flip_point(control1),
            control2: flip_point(control2),
            end: flip_point(end),
        },
    }
}

} // verus!
