//! Two outlines worked through: a circle, and two circles that overlap.

use crate::bbox::{box_side, outline_least, run_least, Side};
use crate::convex::{
    edges_before, is_monotone, law_monotone_contour_has_no_discrepancy, lemma_polygon_corners,
    lemma_polygon_ends, polygon,
};
use crate::geometry::Point;
use crate::path::{Segment, SubpathView};
use crate::sampling::{disagree_at, grid_point, has_discrepancy, is_sampled};
use crate::winding::{
    blend3, on_fine_grid, outline_winding, run_winding, segment_winding, side_of, vertex_of,
    winding_number, Vertex,
};
use vstd::prelude::*;

verus! {

/// The place `(x, y)`, given in whole units.
pub open spec fn unit_point(x: int, y: int) -> Point {
    Point { x: (2 * x) as i64, y: (2 * y) as i64 }
}

/// A circle of radius 10 about `(cx, cy)`, drawn counter-clockwise from its
/// rightmost point as four cubic curves. The control points lie 6 from the
/// ends of each curve.
pub open spec fn circle(cx: int, cy: int) -> SubpathView {
    SubpathView {
        start: unit_point(cx + 10, cy),
        segments: seq![
            Segment::CubicTo {
                control1: unit_point(cx + 10, cy + 6),
                control2: unit_point(cx + 6, cy + 10),
                end: unit_point(cx, cy + 10),
            },
            Segment::CubicTo {
                control1: unit_point(cx - 6, cy + 10),
                control2: unit_point(cx - 10, cy + 6),
                end: unit_point(cx - 10, cy),
            },
            Segment::CubicTo {
                control1: unit_point(cx - 10, cy - 6),
                control2: unit_point(cx - 6, cy - 10),
                end: unit_point(cx, cy - 10),
            },
            Segment::CubicTo {
                control1: unit_point(cx + 6, cy - 10),
                control2: unit_point(cx + 10, cy - 6),
                end: unit_point(cx + 10, cy),
            },
        ],
    }
}

/// What the circle about `(0, 0)` counts for the ray from `(4, 0)`, a place
/// inside it: the ray leaves the circle once, through the first chord of its
/// first curve.
proof fn lemma_first_circle_winds_once()
    ensures
        run_winding(circle(0, 0), 4, on_fine_grid(unit_point(4, 0))) == 1,
{
    let c = circle(0, 0);
    let q = on_fine_grid(unit_point(4, 0));
    assert(q == Vertex { x: 32768, y: 0 });
    assert(c.segments.len() == 4);
    assert(segment_winding(c.from_point(0), c.segments[0], 16, q) == 1) by {
        let a = vertex_of(c.from_point(0), c.segments[0], 0);
        let b = vertex_of(c.from_point(0), c.segments[0], 1);
        assert(a == Vertex { x: 81920, y: 0 });
        assert(b == Vertex { x: 81540, y: 9020 });
        assert(side_of(a, b, q) > 0) by (nonlinear_arith)
            requires
                a == (Vertex { x: 81920, y: 0 }),
                b == (Vertex { x: 81540, y: 9020 }),
                q == (Vertex { x: 32768, y: 0 }),
        ;
        reveal_with_fuel(segment_winding, 17);
    }
    assert(segment_winding(c.from_point(1), c.segments[1], 16, q) == 0) by {
        let a = vertex_of(c.from_point(1), c.segments[1], 15);
        let b = vertex_of(c.from_point(1), c.segments[1], 16);
        assert(a == Vertex { x: -81540, y: 9020 });
        assert(b == Vertex { x: -81920, y: 0 });
        assert(side_of(a, b, q) > 0) by (nonlinear_arith)
            requires
                a == (Vertex { x: -81540, y: 9020 }),
                b == (Vertex { x: -81920, y: 0 }),
                q == (Vertex { x: 32768, y: 0 }),
        ;
        reveal_with_fuel(segment_winding, 17);
    }
    assert(segment_winding(c.from_point(2), c.segments[2], 16, q) == 0) by {
        reveal_with_fuel(segment_winding, 17);
    }
    assert(segment_winding(c.from_point(3), c.segments[3], 16, q) == 0) by {
        reveal_with_fuel(segment_winding, 17);
    }
    reveal_with_fuel(run_winding, 5);
}

/// The same of the circle about `(8, 0)`, in which `(4, 0)` lies too.
proof fn lemma_second_circle_winds_once()
    ensures
        run_winding(circle(8, 0), 4, on_fine_grid(unit_point(4, 0))) == 1,
{
    let c = circle(8, 0);
    let q = on_fine_grid(unit_point(4, 0));
    assert(q == Vertex { x: 32768, y: 0 });
    assert(c.segments.len() == 4);
    assert(segment_winding(c.from_point(0), c.segments[0], 16, q) == 1) by {
        let a = vertex_of(c.from_point(0), c.segments[0], 0);
        let b = vertex_of(c.from_point(0), c.segments[0], 1);
        assert(a == Vertex { x: 147456, y: 0 });
        assert(blend3(36, 36, 28, 16, 1) == 147076);
        assert(blend3(0, 12, 20, 20, 1) == 9020);
        assert(b == Vertex { x: 147076, y: 9020 });
        assert(side_of(a, b, q) > 0) by (nonlinear_arith)
            requires
                a == (Vertex { x: 147456, y: 0 }),
                b == (Vertex { x: 147076, y: 9020 }),
                q == (Vertex { x: 32768, y: 0 }),
        ;
        reveal_with_fuel(segment_winding, 17);
    }
    assert(segment_winding(c.from_point(1), c.segments[1], 16, q) == 0) by {
        let a = vertex_of(c.from_point(1), c.segments[1], 15);
        let b = vertex_of(c.from_point(1), c.segments[1], 16);
        assert(blend3(16, 4, -4, -4, 15) == -16004);
        assert(blend3(20, 20, 12, 0, 15) == 9020);
        assert(a == Vertex { x: -16004, y: 9020 });
        assert(b == Vertex { x: -16384, y: 0 });
        assert(side_of(a, b, q) > 0) by (nonlinear_arith)
            requires
                a == (Vertex { x: -16004, y: 9020 }),
                b == (Vertex { x: -16384, y: 0 }),
                q == (Vertex { x: 32768, y: 0 }),
        ;
        reveal_with_fuel(segment_winding, 17);
    }
    assert(segment_winding(c.from_point(2), c.segments[2], 16, q) == 0) by {
        reveal_with_fuel(segment_winding, 17);
    }
    assert(segment_winding(c.from_point(3), c.segments[3], 16, q) == 0) by {
        reveal_with_fuel(segment_winding, 17);
    }
    reveal_with_fuel(run_winding, 5);
}

/// Two circles of radius 10 whose centres lie 8 apart, wound the same way.
pub open spec fn two_circles() -> Seq<SubpathView> {
    seq![circle(0, 0), circle(8, 0)]
}

/// Where two circles that are wound the same way overlap, the fill rules
/// disagree. In the lens that `two_circles` have in common the winding
/// number is 2: the nonzero rule fills the lens and the even-odd rule leaves
/// a hole there. The grid point `(4, 0)` lies in it, so the sampling detector
/// reports the outline.
pub proof fn law_overlapping_circles_disagree()
    ensures
        winding_number(two_circles(), grid_point(4, 0)) == 2,
        is_sampled(two_circles(), 4, 0),
        has_discrepancy(two_circles()),
{
    let outline = two_circles();
    let q = on_fine_grid(grid_point(4, 0));
    assert(grid_point(4, 0) == unit_point(4, 0));
    lemma_first_circle_winds_once();
    lemma_second_circle_winds_once();
    assert(outline[0].segments.len() == 4 && outline[1].segments.len() == 4);
    assert(outline_winding(outline, 2, q) == 2) by {
        reveal_with_fuel(outline_winding, 3);
    }
    lemma_circle_extent(0);
    lemma_circle_extent(8);
    assert(outline_least(outline, 2, Side::MinX) == -20 && outline_least(outline, 2, Side::MinY)
        == -20 && outline_least(outline, 2, Side::MaxX) == -36 && outline_least(
        outline,
        2,
        Side::MaxY,
    ) == -20) by {
        reveal_with_fuel(outline_least, 3);
    }
    assert(box_side(outline, Side::MinX) == -13);
    assert(box_side(outline, Side::MaxX) == 21);
    assert(box_side(outline, Side::MinY) == -13);
    assert(box_side(outline, Side::MaxY) == 13);
    assert(is_sampled(outline, 4, 0) && disagree_at(outline, 4, 0));
}

/// The extent of a circle about `(cx, 0)`: radius 10 to every side.
proof fn lemma_circle_extent(cx: int)
    requires
        -1000 <= cx <= 1000,
    ensures
        run_least(circle(cx, 0).segments, 4, Side::MinX) == 2 * (cx - 10),
        run_least(circle(cx, 0).segments, 4, Side::MaxX) == -2 * (cx + 10),
        run_least(circle(cx, 0).segments, 4, Side::MinY) == -20,
        run_least(circle(cx, 0).segments, 4, Side::MaxY) == -20,
{
    reveal_with_fuel(run_least, 5);
}

/// A curve that is moved keeps its shape: every vertex moves as far as the
/// curve, counted on the fine grid.
proof fn lemma_blend_moved(begin: int, c1: int, c2: int, finish: int, by: int, k: int)
    ensures
        blend3(begin + by, c1 + by, c2 + by, finish + by, k) == blend3(begin, c1, c2, finish, k)
            + 4096 * by,
{
    let a = 16 - k;
    let w0 = a * a * a;
    let w1 = 3 * a * a * k;
    let w2 = 3 * a * k * k;
    let w3 = k * k * k;
    assert(w0 + w1 + w2 + w3 == 4096) by (nonlinear_arith)
        requires
            a == 16 - k,
            w0 == a * a * a,
            w1 == 3 * a * a * k,
            w2 == 3 * a * k * k,
            w3 == k * k * k,
    ;
    assert(w0 * (begin + by) + w1 * (c1 + by) + w2 * (c2 + by) + w3 * (finish + by) == w0 * begin
        + w1 * c1 + w2 * c2 + w3 * finish + 4096 * by) by (nonlinear_arith)
        requires
            w0 + w1 + w2 + w3 == 4096,
    ;
}

/// The first quarter of a circle climbs, from the level of the centre to the top. `y` is the height of the centre in half units.
proof fn lemma_quarter_climbs_out(y: int, k: int)
    requires
        0 <= k < 16,
    ensures
        blend3(y, y + 12, y + 20, y + 20, k) <= blend3(y, y + 12, y + 20, y + 20, k + 1),
{
    lemma_blend_moved(0, 12, 20, 20, y, k);
    lemma_blend_moved(0, 12, 20, 20, y, k + 1);
    let j = k + 1;
    assert((16 - k) * (16 - k) * (16 - k) * 0 + 3 * (16 - k) * (16 - k) * k * 12 + 3 * (16 - k) * k * k * 20 + k * k * k * 20 <= (16 - j) * (16 - j) * (16 - j) * 0 + 3 * (16 - j) * (16 - j) * j * 12 + 3 * (16 - j) * j * j * 20 + j * j * j * 20) by (nonlinear_arith)
        requires
            0 <= k < 16,
            j == k + 1,
    ;
}

/// The second quarter descends, from the top to the level of the centre.
proof fn lemma_quarter_descends_in(y: int, k: int)
    requires
        0 <= k < 16,
    ensures
        blend3(y + 20, y + 20, y + 12, y, k) >= blend3(y + 20, y + 20, y + 12, y, k + 1),
{
    lemma_blend_moved(20, 20, 12, 0, y, k);
    lemma_blend_moved(20, 20, 12, 0, y, k + 1);
    let j = k + 1;
    assert((16 - k) * (16 - k) * (16 - k) * 20 + 3 * (16 - k) * (16 - k) * k * 20 + 3 * (16 - k) * k * k * 12 + k * k * k * 0 >= (16 - j) * (16 - j) * (16 - j) * 20 + 3 * (16 - j) * (16 - j) * j * 20 + 3 * (16 - j) * j * j * 12 + j * j * j * 0) by (nonlinear_arith)
        requires
            0 <= k < 16,
            j == k + 1,
    ;
}

/// The third quarter descends, from the level of the centre to the bottom.
proof fn lemma_quarter_descends_out(y: int, k: int)
    requires
        0 <= k < 16,
    ensures
        blend3(y, y - 12, y - 20, y - 20, k) >= blend3(y, y - 12, y - 20, y - 20, k + 1),
{
    lemma_blend_moved(0, -12, -20, -20, y, k);
    lemma_blend_moved(0, -12, -20, -20, y, k + 1);
    let j = k + 1;
    assert((16 - k) * (16 - k) * (16 - k) * 0 + 3 * (16 - k) * (16 - k) * k * (-12) + 3 * (16 - k) * k * k * (-20) + k * k * k * (-20) >= (16 - j) * (16 - j) * (16 - j) * 0 + 3 * (16 - j) * (16 - j) * j * (-12) + 3 * (16 - j) * j * j * (-20) + j * j * j * (-20)) by (nonlinear_arith)
        requires
            0 <= k < 16,
            j == k + 1,
    ;
}

/// The fourth quarter climbs, from the bottom back to the level of the centre.
proof fn lemma_quarter_climbs_in(y: int, k: int)
    requires
        0 <= k < 16,
    ensures
        blend3(y - 20, y - 20, y - 12, y, k) <= blend3(y - 20, y - 20, y - 12, y, k + 1),
{
    lemma_blend_moved(-20, -20, -12, 0, y, k);
    lemma_blend_moved(-20, -20, -12, 0, y, k + 1);
    let j = k + 1;
    assert((16 - k) * (16 - k) * (16 - k) * (-20) + 3 * (16 - k) * (16 - k) * k * (-20) + 3 * (16 - k) * k * k * (-12) + k * k * k * 0 <= (16 - j) * (16 - j) * (16 - j) * (-20) + 3 * (16 - j) * (16 - j) * j * (-20) + 3 * (16 - j) * j * j * (-12) + j * j * j * 0) by (nonlinear_arith)
        requires
            0 <= k < 16,
            j == k + 1,
    ;
}

/// The greatest distance of a centre from the origin, in whole units, for
/// which this module speaks of a circle.
pub open spec fn centre_limit() -> int {
    1_000_000_000
}

/// The polygon of a circle climbs from its rightmost corner to its top,
/// descends to its bottom, and climbs back.
proof fn lemma_circle_is_monotone(cx: int, cy: int)
    requires
        -centre_limit() <= cx <= centre_limit(),
        -centre_limit() <= cy <= centre_limit(),
    ensures
        is_monotone(polygon(circle(cx, cy)), 16, 48, true),
{
    let c = circle(cx, cy);
    let v = polygon(c);
    assert(c.segments.len() == 4);
    assert(edges_before(c, 4) == 64 && edges_before(c, 3) == 48 && edges_before(c, 2) == 32
        && edges_before(c, 1) == 16 && edges_before(c, 0) == 0) by {
        reveal_with_fuel(edges_before, 5);
    }
    lemma_polygon_corners(c, 4, 0, 0);
    lemma_polygon_ends(c, 4);
    assert(v.len() == 65);
    assert(v.last() == v[0]);
    assert forall|i: int| 0 <= i < 64 implies if 16 <= i < 48 {
        v[i + 1].y <= (#[trigger] v[i]).y
    } else {
        v[i].y <= v[i + 1].y
    } by {
        if i < 16 {
            lemma_polygon_corners(c, 4, 0, i);
            lemma_polygon_corners(c, 4, 0, i + 1);
            lemma_quarter_climbs_out(2 * cy, i);
        } else if i < 32 {
            lemma_polygon_corners(c, 4, 1, i - 16);
            lemma_polygon_corners(c, 4, 1, i - 15);
            lemma_quarter_descends_in(2 * cy, i - 16);
        } else if i < 48 {
            lemma_polygon_corners(c, 4, 2, i - 32);
            lemma_polygon_corners(c, 4, 2, i - 31);
            lemma_quarter_descends_out(2 * cy, i - 32);
        } else {
            lemma_polygon_corners(c, 4, 3, i - 48);
            lemma_polygon_corners(c, 4, 3, i - 47);
            lemma_quarter_climbs_in(2 * cy, i - 48);
        }
    }
}

/// On a circle of four cubic curves the fill rules agree: about no point
/// does it wind more than once, so the sampling detector finds nothing,
/// wherever the circle lies.
pub proof fn law_circle_has_no_discrepancy(cx: int, cy: int)
    requires
        -centre_limit() <= cx <= centre_limit(),
        -centre_limit() <= cy <= centre_limit(),
    ensures
        forall|p: Point| -1 <= #[trigger] winding_number(seq![circle(cx, cy)], p) <= 1,
        !has_discrepancy(seq![circle(cx, cy)]),
{
    lemma_circle_is_monotone(cx, cy);
    law_monotone_contour_has_no_discrepancy(seq![circle(cx, cy)], 16, 48, true);
}

} // verus!
