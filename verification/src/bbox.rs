//! The extent of a path, and the box around it that the sampling detector
//! walks.

use crate::geometry::{Point, COORD_LIMIT};
use crate::path::{valid_outline, Path, Segment, SubpathView};
use vstd::prelude::*;

verus! {

/// One of the four sides of an extent.
#[derive(Clone, Copy, Debug, PartialEq, Eq, Structural)]
pub enum Side {
    MinX,
    MinY,
    MaxX,
    MaxY,
}

/// How far `p` reaches toward `side`: its coordinate on the axis of the side,
/// negated for the two upper sides, so that reaching farther is less.
pub open spec fn reach(p: Point, side: Side) -> int {
    match side {
        Side::MinX => p.x as int,
        Side::MinY => p.y as int,
        Side::MaxX => -p.x,
        Side::MaxY => -p.y,
    }
}

pub open spec fn lesser(a: int, b: int) -> int {
    if a <= b {
        a
    } else {
        b
    }
}

/// The least reach among the control and end points of a segment.
pub open spec fn segment_least(s: Segment, side: Side) -> int {
    match s {
        Segment::LineTo { end } => reach(end, side),
        Segment::QuadTo { control, end } => lesser(reach(control, side), reach(end, side)),
        Segment::CubicTo { control1, control2, end } => lesser(
            reach(control1, side),
            lesser(reach(control2, side), reach(end, side)),
        ),
    }
}

/// The least reach among the first `n` segments; `COORD_LIMIT` where `n` is 0.
pub open spec fn run_least(segments: Seq<Segment>, n: int, side: Side) -> int
    decreases n,
{
    if n <= 0 {
        COORD_LIMIT as int
    } else {
        lesser(run_least(segments, n - 1, side), segment_least(segments[n - 1], side))
    }
}

/// The least reach among the first `n` subpaths; `COORD_LIMIT` where `n` is 0.
pub open spec fn outline_least(outline: Seq<SubpathView>, n: int, side: Side) -> int
    decreases n,
{
    if n <= 0 {
        COORD_LIMIT as int
    } else {
        lesser(
            outline_least(outline, n - 1, side),
            run_least(outline[n - 1].segments, outline[n - 1].segments.len() as int, side),
        )
    }
}

/// The tight extent of an outline on one side, in half units: the least or
/// the greatest coordinate among the control and end points of all segments.
pub open spec fn tight(outline: Seq<SubpathView>, side: Side) -> int {
    match side {
        Side::MinX => outline_least(outline, outline.len() as int, side),
        Side::MinY => outline_least(outline, outline.len() as int, side),
        Side::MaxX => -outline_least(outline, outline.len() as int, side),
        Side::MaxY => -outline_least(outline, outline.len() as int, side),
    }
}

/// The larger of the width and the height of the tight extent, in half units.
pub open spec fn larger_dimension(outline: Seq<SubpathView>) -> int {
    let width = tight(outline, Side::MaxX) - tight(outline, Side::MinX);
    let height = tight(outline, Side::MaxY) - tight(outline, Side::MinY);
    if width >= height {
        width
    } else {
        height
    }
}

/// One side of the bounding box, in whole units. The margin is a tenth of the
/// larger dimension; a lower side is the tight extent less the margin, rounded
/// down, and an upper side the tight extent plus the margin, rounded up. In
/// half units the margin is `larger_dimension / 10`, so in whole units the
/// side is a quotient by 20.
pub open spec fn box_side(outline: Seq<SubpathView>, side: Side) -> int {
    let margin = larger_dimension(outline);
    match side {
        Side::MinX => (10 * tight(outline, side) - margin) / 20,
        Side::MinY => (10 * tight(outline, side) - margin) / 20,
        Side::MaxX => -((-(10 * tight(outline, side) + margin)) / 20),
        Side::MaxY => -((-(10 * tight(outline, side) + margin)) / 20),
    }
}

/// The tight extent of a path, in half units.
#[derive(Clone, Copy, Debug, PartialEq, Eq, Structural)]
pub struct Extent {
    pub min_x: i64,
    pub min_y: i64,
    pub max_x: i64,
    pub max_y: i64,
}

/// The box that the sampling detector walks, in whole units: the tight extent
/// widened by the margin and rounded outward to whole units.
#[derive(Clone, Copy, Debug, PartialEq, Eq, Structural)]
pub struct BoundingBox {
    pub min_x: i64,
    pub min_y: i64,
    pub max_x: i64,
    pub max_y: i64,
}

impl Extent {
    /// `self` is the tight extent of `outline`.
    pub open spec fn is_of(self, outline: Seq<SubpathView>) -> bool {
        &&& self.min_x == tight(outline, Side::MinX)
        &&& self.min_y == tight(outline, Side::MinY)
        &&& self.max_x == tight(outline, Side::MaxX)
        &&& self.max_y == tight(outline, Side::MaxY)
    }

    /// The tight extent over the control and end points of every segment.
    pub fn of(path: &Path) -> (e: Extent)
        ensures
            e.is_of(path@),
            -COORD_LIMIT <= e.min_x <= e.max_x <= COORD_LIMIT,
            -COORD_LIMIT <= e.min_y <= e.max_y <= COORD_LIMIT,
    {
        proof {
            use_type_invariant(path);
            path.lemma_layout();
        }
        let ghost outline = path@;
        let n = path.subpath_count();
        let mut low_x: i64 = COORD_LIMIT;
        let mut low_y: i64 = COORD_LIMIT;
        let mut high_x: i64 = -COORD_LIMIT;
        let mut high_y: i64 = -COORD_LIMIT;
        let mut i: usize = 0;
        while i < n
            invariant
                path.wf(),
                outline == path@,
                n == outline.len(),
                i <= n,
                low_x == outline_least(outline, i as int, Side::MinX),
                low_y == outline_least(outline, i as int, Side::MinY),
                -high_x == outline_least(outline, i as int, Side::MaxX),
                -high_y == outline_least(outline, i as int, Side::MaxY),
                -COORD_LIMIT <= low_x <= COORD_LIMIT,
                -COORD_LIMIT <= low_y <= COORD_LIMIT,
                -COORD_LIMIT <= high_x <= COORD_LIMIT,
                -COORD_LIMIT <= high_y <= COORD_LIMIT,
            decreases n - i,
        {
            proof {
                path.lemma_layout();
            }
            let (_start, lo, hi) = path.span(i);
            let ghost segments = outline[i as int].segments;
            let ghost base_x = low_x;
            let ghost base_y = low_y;
            let ghost top_x = high_x;
            let ghost top_y = high_y;
            let mut k: usize = lo;
            while k < hi
                invariant
                    path.wf(),
                    lo <= k <= hi <= path.flat().len(),
                    segments == path.flat().subrange(lo as int, hi as int),
                    forall|m: int| 0 <= m < path.flat().len() ==> (#[trigger] path.flat()[m]).in_range(),
                    low_x == lesser(base_x as int, run_least(segments, k - lo, Side::MinX)),
                    low_y == lesser(base_y as int, run_least(segments, k - lo, Side::MinY)),
                    -high_x == lesser(-top_x, run_least(segments, k - lo, Side::MaxX)),
                    -high_y == lesser(-top_y, run_least(segments, k - lo, Side::MaxY)),
                    -COORD_LIMIT <= low_x <= COORD_LIMIT,
                    -COORD_LIMIT <= low_y <= COORD_LIMIT,
                    -COORD_LIMIT <= high_x <= COORD_LIMIT,
                    -COORD_LIMIT <= high_y <= COORD_LIMIT,
                decreases hi - k,
            {
                let s = path.segment_at(k);
                assert(s == segments[k - lo]);
                assert(s.in_range());
                match s {
                    Segment::LineTo { end } => {
                        low_x = least_of(low_x, end.x);
                        low_y = least_of(low_y, end.y);
                        high_x = most_of(high_x, end.x);
                        high_y = most_of(high_y, end.y);
                    },
                    Segment::QuadTo { control, end } => {
                        low_x = least_of(least_of(low_x, control.x), end.x);
                        low_y = least_of(least_of(low_y, control.y), end.y);
                        high_x = most_of(most_of(high_x, control.x), end.x);
                        high_y = most_of(most_of(high_y, control.y), end.y);
                    },
                    Segment::CubicTo { control1, control2, end } => {
                        low_x = least_of(least_of(least_of(low_x, control1.x), control2.x), end.x);
                        low_y = least_of(least_of(least_of(low_y, control1.y), control2.y), end.y);
                        high_x = most_of(most_of(most_of(high_x, control1.x), control2.x), end.x);
                        high_y = most_of(most_of(most_of(high_y, control1.y), control2.y), end.y);
                    },
                }
                k = k + 1;
            }
            assert(segments.len() == hi - lo);
            i = i + 1;
        }
        proof {
            lemma_least_reaches(outline, 0, 0, Side::MinX);
            lemma_least_reaches(outline, 0, 0, Side::MinY);
            lemma_least_reaches(outline, 0, 0, Side::MaxX);
            lemma_least_reaches(outline, 0, 0, Side::MaxY);
        }
        Extent { min_x: low_x, min_y: low_y, max_x: high_x, max_y: high_y }
    }
}

impl BoundingBox {
    /// `self` is the bounding box of `outline`.
    pub open spec fn is_of(self, outline: Seq<SubpathView>) -> bool {
        &&& self.min_x == box_side(outline, Side::MinX)
        &&& self.min_y == box_side(outline, Side::MinY)
        &&& self.max_x == box_side(outline, Side::MaxX)
        &&& self.max_y == box_side(outline, Side::MaxY)
    }

    /// The point `p`, given in half units, lies in the box or on its border.
    pub open spec fn holds(self, p: Point) -> bool {
        &&& 2 * self.min_x <= p.x <= 2 * self.max_x
        &&& 2 * self.min_y <= p.y <= 2 * self.max_y
    }

    /// The bounding box of a path: its tight extent, widened on every side by
    /// a tenth of its larger dimension and rounded outward to whole units.
    pub fn of(path: &Path) -> (b: BoundingBox)
        ensures
            b.is_of(path@),
            b.min_x <= b.max_x,
            b.min_y <= b.max_y,
            -COORD_LIMIT <= b.min_x,
            b.max_x <= COORD_LIMIT,
            -COORD_LIMIT <= b.min_y,
            b.max_y <= COORD_LIMIT,
    {
        let e = Extent::of(path);
        let width: i64 = e.max_x - e.min_x;
        let height: i64 = e.max_y - e.min_y;
        let margin: i64 = if width >= height {
            width
        } else {
            height
        };
        BoundingBox {
            min_x: floor_div_20(10 * e.min_x - margin),
            min_y: floor_div_20(10 * e.min_y - margin),
            max_x: -floor_div_20(-(10 * e.max_x + margin)),
            max_y: -floor_div_20(-(10 * e.max_y + margin)),
        }
    }

    /// The width of the box in whole units; 0 where the sides are crossed.
    pub fn width(&self) -> (w: u64)
        ensures
            w == if self.max_x >= self.min_x {
                self.max_x - self.min_x
            } else {
                0
            },
    {
        if self.max_x >= self.min_x {
            (self.max_x as i128 - self.min_x as i128) as u64
        } else {
            0
        }
    }

    /// The height of the box in whole units; 0 where the sides are crossed.
    pub fn height(&self) -> (h: u64)
        ensures
            h == if self.max_y >= self.min_y {
                self.max_y - self.min_y
            } else {
                0
            },
    {
        if self.max_y >= self.min_y {
            (self.max_y as i128 - self.min_y as i128) as u64
        } else {
            0
        }
    }
}

/// The greatest absolute value that `floor_div_20` takes.
const DIVIDEND_LIMIT: i64 = 0x2000_0000_0000;

/// The quotient of `a` by 20, rounded down.
fn floor_div_20(a: i64) -> (q: i64)
    requires
        -20 * DIVIDEND_LIMIT <= a <= 20 * DIVIDEND_LIMIT,
    ensures
        q == a / 20,
{
    let lifted: u64 = (a + 20 * DIVIDEND_LIMIT) as u64;
    let q: u64 = lifted / 20;
    q as i64 - DIVIDEND_LIMIT
}

/// The bounding box of a valid outline holds every control and end point of
/// segment `j` of subpath `i`, and the point from which the segment is drawn.
pub proof fn law_box_encloses(outline: Seq<SubpathView>, b: BoundingBox, i: int, j: int)
    requires
        valid_outline(outline),
        b.is_of(outline),
        0 <= i < outline.len(),
        0 <= j < outline[i].segments.len(),
    ensures
        b.holds(outline[i].from_point(j)),
        match outline[i].segments[j] {
            Segment::LineTo { end } => b.holds(end),
            Segment::QuadTo { control, end } => b.holds(control) && b.holds(end),
            Segment::CubicTo { control1, control2, end } => {
                b.holds(control1) && b.holds(control2) && b.holds(end)
            },
        },
        b.min_x <= b.max_x,
        b.min_y <= b.max_y,
{
    lemma_least_reaches(outline, i, j, Side::MinX);
    lemma_least_reaches(outline, i, j, Side::MinY);
    lemma_least_reaches(outline, i, j, Side::MaxX);
    lemma_least_reaches(outline, i, j, Side::MaxY);
    let sp = outline[i];
    assert(sp.is_valid());
    let from = if j == 0 {
        sp.segments.len() - 1
    } else {
        j - 1
    };
    assert(sp.from_point(j) == sp.segments[from].end_point());
    lemma_least_reaches(outline, i, from, Side::MinX);
    lemma_least_reaches(outline, i, from, Side::MinY);
    lemma_least_reaches(outline, i, from, Side::MaxX);
    lemma_least_reaches(outline, i, from, Side::MaxY);
}

/// The point `p` lies within the tight extent of `outline`.
pub open spec fn within_extent(outline: Seq<SubpathView>, p: Point) -> bool {
    &&& tight(outline, Side::MinX) <= p.x <= tight(outline, Side::MaxX)
    &&& tight(outline, Side::MinY) <= p.y <= tight(outline, Side::MaxY)
}

/// The tight extent of a valid outline holds every control and end point of
/// segment `j` of subpath `i`, and the point from which the segment is drawn.
pub proof fn law_extent_encloses(outline: Seq<SubpathView>, i: int, j: int)
    requires
        valid_outline(outline),
        0 <= i < outline.len(),
        0 <= j < outline[i].segments.len(),
    ensures
        within_extent(outline, outline[i].from_point(j)),
        match outline[i].segments[j] {
            Segment::LineTo { end } => within_extent(outline, end),
            Segment::QuadTo { control, end } => within_extent(outline, control) && within_extent(
                outline,
                end,
            ),
            Segment::CubicTo { control1, control2, end } => {
                within_extent(outline, control1) && within_extent(outline, control2)
                    && within_extent(outline, end)
            },
        },
        larger_dimension(outline) >= 0,
{
    lemma_least_reaches(outline, i, j, Side::MinX);
    lemma_least_reaches(outline, i, j, Side::MinY);
    lemma_least_reaches(outline, i, j, Side::MaxX);
    lemma_least_reaches(outline, i, j, Side::MaxY);
    let sp = outline[i];
    assert(sp.is_valid());
    let from = if j == 0 {
        sp.segments.len() - 1
    } else {
        j - 1
    };
    assert(sp.from_point(j) == sp.segments[from].end_point());
    lemma_least_reaches(outline, i, from, Side::MinX);
    lemma_least_reaches(outline, i, from, Side::MinY);
    lemma_least_reaches(outline, i, from, Side::MaxX);
    lemma_least_reaches(outline, i, from, Side::MaxY);
}

fn least_of(a: i64, b: i64) -> (r: i64)
    ensures
        r == lesser(a as int, b as int),
{
    if a <= b {
        a
    } else {
        b
    }
}

fn most_of(a: i64, b: i64) -> (r: i64)
    ensures
        -r == lesser(-a, -b),
{
    if a >= b {
        a
    } else {
        b
    }
}

/// No segment reaches farther than the least reach of its run.
proof fn lemma_run_least_reaches(segments: Seq<Segment>, n: int, j: int, side: Side)
    requires
        0 <= j < n,
    ensures
        run_least(segments, n, side) <= segment_least(segments[j], side),
    decreases n,
{
    if j < n - 1 {
        lemma_run_least_reaches(segments, n - 1, j, side);
    }
}

/// No segment of an outline reaches farther than the least reach of the
/// outline.
proof fn lemma_outline_least_reaches(
    outline: Seq<SubpathView>,
    n: int,
    i: int,
    j: int,
    side: Side,
)
    requires
        0 <= i < n,
        0 <= j < outline[i].segments.len(),
    ensures
        outline_least(outline, n, side) <= segment_least(outline[i].segments[j], side),
    decreases n,
{
    if i < n - 1 {
        lemma_outline_least_reaches(outline, n - 1, i, j, side);
    } else {
        lemma_run_least_reaches(outline[i].segments, outline[i].segments.len() as int, j, side);
    }
}

/// On each side the tight extent of an outline lies at or beyond every point
/// of segment `j` of subpath `i`.
proof fn lemma_least_reaches(outline: Seq<SubpathView>, i: int, j: int, side: Side)
    requires
        0 <= i < outline.len(),
        0 <= j < outline[i].segments.len(),
    ensures
        outline_least(outline, outline.len() as int, side) <= segment_least(
            outline[i].segments[j],
            side,
        ),
{
    lemma_outline_least_reaches(outline, outline.len() as int, i, j, side);
}

} // verus!
