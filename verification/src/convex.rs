//! Contours on which the fill rules never disagree.
//!
//! The edges that stand for a closed subpath form a polygon on the fine grid.
//! Where that polygon is convex and simple, or where it goes up and down no
//! more than once, at most one of its edges rises past any given height and
//! at most one falls past it, so no winding number is other than -1, 0 or 1.

use crate::geometry::Point;
use crate::path::{Segment, SubpathView};
use crate::sampling::{disagree_at, has_discrepancy, rules_disagree};
use crate::winding::{
    blend2, blend3, crossing, edges_of, lemma_side_turned, on_fine_grid, outline_winding,
    run_winding, segment_winding, side_of, vertex_of, winding_number, Vertex, SCALE, STEPS,
};
use vstd::prelude::*;

verus! {

/// The vertices at which the edges of a segment end, in order.
pub open spec fn chord_ends(from: Point, s: Segment) -> Seq<Vertex> {
    Seq::new(edges_of(s) as nat, |k: int| vertex_of(from, s, k + 1))
}

/// The vertices of the first `n` segments of a subpath: its start, then the
/// end of every edge.
pub open spec fn polygon_upto(sp: SubpathView, n: int) -> Seq<Vertex>
    decreases n,
{
    if n <= 0 {
        seq![on_fine_grid(sp.start)]
    } else {
        polygon_upto(sp, n - 1) + chord_ends(sp.from_point(n - 1), sp.segments[n - 1])
    }
}

/// The polygon of a subpath. Of a closed subpath the last vertex is the
/// first one again.
pub open spec fn polygon(sp: SubpathView) -> Seq<Vertex> {
    polygon_upto(sp, sp.segments.len() as int)
}

/// What the first `n` edges of a polygon count for the ray from `q`.
pub open spec fn polygon_winding(v: Seq<Vertex>, n: int, q: Vertex) -> int
    decreases n,
{
    if n <= 0 {
        0
    } else {
        polygon_winding(v, n - 1, q) + crossing(v[n - 1], v[n], q)
    }
}

/// Corner `j` of a closed polygon with `m` edges is an end of edge `i`.
pub open spec fn is_end_of(m: int, i: int, j: int) -> bool {
    j == i || j == i + 1 || (i + 1 == m && j == 0)
}

/// `x` lies between `a` and `b`, or is one of them.
pub open spec fn between(a: int, x: int, b: int) -> bool {
    (a <= x <= b) || (b <= x <= a)
}

/// The place `p` lies on the edge from `a` to `b`, its ends included.
pub open spec fn lies_on(p: Vertex, a: Vertex, b: Vertex) -> bool {
    &&& side_of(a, b, p) == 0
    &&& between(a.x, p.x, b.x)
    &&& between(a.y, p.y, b.y)
}

/// No corner lies to the wrong side of any edge: none to the right where
/// `turn` is 1, none to the left where it is -1.
pub open spec fn keeps_to_side(v: Seq<Vertex>, turn: int) -> bool {
    forall|i: int, j: int|
        0 <= i < v.len() - 1 && 0 <= j < v.len() - 1 ==> turn * #[trigger] side_of(
            v[i],
            v[i + 1],
            v[j],
        ) >= 0
}

/// No corner lies on an edge other than the two that meet in it. Of a polygon
/// that keeps to one side this says that it is simple: its edges neither
/// cross nor overlap, and it passes through no place twice.
pub open spec fn touches_nowhere(v: Seq<Vertex>) -> bool {
    forall|i: int, j: int|
        0 <= i < v.len() - 1 && 0 <= j < v.len() - 1 && !is_end_of(v.len() - 1, i, j)
            ==> !#[trigger] lies_on(v[j], v[i], v[i + 1])
}

/// The closed polygon `v` is convex and simple: it has three corners at
/// least, all of them keep to one side of every edge, and none lies on an
/// edge that is not its own. Corners in a straight line are allowed.
pub open spec fn is_convex(v: Seq<Vertex>) -> bool {
    &&& v.len() >= 4
    &&& v.last() == v[0]
    &&& touches_nowhere(v)
    &&& (keeps_to_side(v, 1) || keeps_to_side(v, -1))
}

/// Edge `i` of `v` rises past the height `y`.
pub open spec fn rises(v: Seq<Vertex>, i: int, y: int) -> bool {
    v[i].y <= y < v[i + 1].y
}

/// Edge `i` of `v` falls past the height `y`.
pub open spec fn falls(v: Seq<Vertex>, i: int, y: int) -> bool {
    v[i + 1].y <= y < v[i].y
}

/// Where two edges rise past one height, and neither has an end of the other
/// to its wrong side, the lower end of one lies on the other.
proof fn lemma_rising_pair(a: Vertex, b: Vertex, c: Vertex, d: Vertex, y: int, turn: int)
    requires
        a.y <= y < b.y,
        c.y <= y < d.y,
        turn == 1 || turn == -1,
        turn * side_of(a, b, c) >= 0,
        turn * side_of(a, b, d) >= 0,
        turn * side_of(c, d, a) >= 0,
        turn * side_of(c, d, b) >= 0,
    ensures
        lies_on(c, a, b) || lies_on(a, c, d),
{
    let abc = side_of(a, b, c);
    let abd = side_of(a, b, d);
    let cda = side_of(c, d, a);
    let cdb = side_of(c, d, b);
    lemma_signed(turn, abc);
    lemma_signed(turn, abd);
    lemma_signed(turn, cda);
    lemma_signed(turn, cdb);
    // The edges, and how the second lies to the first.
    let u = b.x - a.x;
    let h1 = b.y - a.y;
    let w = d.x - c.x;
    let h2 = d.y - c.y;
    let e = c.x - a.x;
    let f = c.y - a.y;
    let t = y - a.y;
    let k = u * h2 - w * h1;
    assert(abc == u * f - e * h1);
    assert(abd == abc + k) by (nonlinear_arith)
        requires
            abc == u * f - e * h1,
            abd == u * (f + h2) - (e + w) * h1,
            k == u * h2 - w * h1,
    ;
    assert(cda == e * h2 - w * f) by (nonlinear_arith)
        requires
            cda == w * (0 - f) - (0 - e) * h2,
    ;
    assert(cdb == cda - k) by (nonlinear_arith)
        requires
            cda == e * h2 - w * f,
            cdb == w * (h1 - f) - (u - e) * h2,
            k == u * h2 - w * h1,
    ;
    // Weighted by the heights, the four sides add up to nothing.
    let s1 = (h2 - (t - f)) * abc + (t - f) * abd;
    let s2 = (h1 - t) * cda + t * cdb;
    assert(s1 == h2 * abc + (t - f) * k) by (nonlinear_arith)
        requires
            s1 == (h2 - (t - f)) * abc + (t - f) * abd,
            abd == abc + k,
    ;
    assert(s2 == h1 * cda - t * k) by (nonlinear_arith)
        requires
            s2 == (h1 - t) * cda + t * cdb,
            cdb == cda - k,
    ;
    assert(h2 * abc + h1 * cda == f * k) by (nonlinear_arith)
        requires
            abc == u * f - e * h1,
            cda == e * h2 - w * f,
            k == u * h2 - w * h1,
    ;
    assert(s1 + s2 == 0) by (nonlinear_arith)
        requires
            s1 == h2 * abc + (t - f) * k,
            s2 == h1 * cda - t * k,
            h2 * abc + h1 * cda == f * k,
    ;
    // All four have one sign, so each is nothing: both edges lie in one line.
    if turn == 1 {
        assert(abc == 0 && cda == 0) by (nonlinear_arith)
            requires
                s1 == (h2 - (t - f)) * abc + (t - f) * abd,
                s2 == (h1 - t) * cda + t * cdb,
                s1 + s2 == 0,
                h2 - (t - f) > 0,
                t - f >= 0,
                h1 - t > 0,
                t >= 0,
                abc >= 0,
                abd >= 0,
                cda >= 0,
                cdb >= 0,
        ;
    } else {
        assert(abc == 0 && cda == 0) by (nonlinear_arith)
            requires
                s1 == (h2 - (t - f)) * abc + (t - f) * abd,
                s2 == (h1 - t) * cda + t * cdb,
                s1 + s2 == 0,
                h2 - (t - f) > 0,
                t - f >= 0,
                h1 - t > 0,
                t >= 0,
                abc <= 0,
                abd <= 0,
                cda <= 0,
                cdb <= 0,
        ;
    }
    // The lower end of the one that begins higher lies on the other.
    if c.y >= a.y {
        lemma_on_rising_edge(c, a, b);
    } else {
        lemma_on_rising_edge(a, c, d);
    }
}

/// A place in the line of a rising edge, and not below or above it, lies on
/// the edge.
proof fn lemma_on_rising_edge(p: Vertex, a: Vertex, b: Vertex)
    requires
        side_of(a, b, p) == 0,
        a.y <= p.y <= b.y,
        a.y < b.y,
    ensures
        lies_on(p, a, b),
{
    let u = b.x - a.x;
    let h = b.y - a.y;
    let x = p.x - a.x;
    let t = p.y - a.y;
    assert(u * t == x * h);
    if u >= 0 {
        assert(0 <= x <= u) by (nonlinear_arith)
            requires
                u * t == x * h,
                0 <= t <= h,
                h > 0,
                u >= 0,
        ;
    } else {
        assert(u <= x <= 0) by (nonlinear_arith)
            requires
                u * t == x * h,
                0 <= t <= h,
                h > 0,
                u < 0,
        ;
    }
}

/// A number times a sign.
proof fn lemma_signed(turn: int, x: int)
    requires
        turn == 1 || turn == -1,
    ensures
        turn == 1 ==> turn * x == x,
        turn == -1 ==> turn * x == -x,
{
    assert(1 * x == x && (-1) * x == -x) by (nonlinear_arith);
}

/// Some edge among the first `n` rises past `y`.
pub open spec fn any_rising(v: Seq<Vertex>, n: int, y: int) -> bool {
    exists|i: int| 0 <= i < n && #[trigger] rises(v, i, y)
}

/// Some edge among the first `n` falls past `y`.
pub open spec fn any_falling(v: Seq<Vertex>, n: int, y: int) -> bool {
    exists|i: int| 0 <= i < n && #[trigger] falls(v, i, y)
}

/// The corners of edge `j` are no ends of edge `i`, nor the other way round:
/// the two edges of the closed polygon share no corner.
spec fn apart(m: int, i: int, j: int) -> bool {
    &&& 0 <= i < j < m
    &&& j != i + 1
    &&& !(i == 0 && j == m - 1)
}

/// In a convex polygon no two edges rise past one height.
proof fn lemma_one_rising(v: Seq<Vertex>, turn: int, i: int, j: int, y: int)
    requires
        v.len() >= 4,
        v.last() == v[0],
        turn == 1 || turn == -1,
        keeps_to_side(v, turn),
        touches_nowhere(v),
        0 <= i < j < v.len() - 1,
        rises(v, i, y),
    ensures
        !rises(v, j, y),
{
    let m = v.len() - 1;
    if rises(v, j, y) && apart(m, i, j) {
        let next = if j + 1 == m {
            0
        } else {
            j + 1
        };
        assert(v[next] == v[j + 1]);
        assert(turn * side_of(v[i], v[i + 1], v[j]) >= 0);
        assert(turn * side_of(v[i], v[i + 1], v[next]) >= 0);
        assert(turn * side_of(v[j], v[j + 1], v[i]) >= 0);
        assert(turn * side_of(v[j], v[j + 1], v[i + 1]) >= 0);
        lemma_rising_pair(v[i], v[i + 1], v[j], v[j + 1], y, turn);
        assert(!lies_on(v[j], v[i], v[i + 1]));
        assert(!lies_on(v[i], v[j], v[j + 1]));
    }
}

/// In a convex polygon no two edges fall past one height.
proof fn lemma_one_falling(v: Seq<Vertex>, turn: int, i: int, j: int, y: int)
    requires
        v.len() >= 4,
        v.last() == v[0],
        turn == 1 || turn == -1,
        keeps_to_side(v, turn),
        touches_nowhere(v),
        0 <= i < j < v.len() - 1,
        falls(v, i, y),
    ensures
        !falls(v, j, y),
{
    let m = v.len() - 1;
    if falls(v, j, y) && apart(m, i, j) {
        let next_i = i + 1;
        let next_j = if j + 1 == m {
            0
        } else {
            j + 1
        };
        assert(v[next_j] == v[j + 1]);
        assert(turn * side_of(v[i], v[i + 1], v[j]) >= 0);
        assert(turn * side_of(v[i], v[i + 1], v[next_j]) >= 0);
        assert(turn * side_of(v[j], v[j + 1], v[i]) >= 0);
        assert(turn * side_of(v[j], v[j + 1], v[next_i]) >= 0);
        lemma_side_turned(v[i], v[i + 1], v[j]);
        lemma_side_turned(v[i], v[i + 1], v[j + 1]);
        lemma_side_turned(v[j], v[j + 1], v[i]);
        lemma_side_turned(v[j], v[j + 1], v[i + 1]);
        lemma_signed(turn, side_of(v[i], v[i + 1], v[j]));
        lemma_signed(turn, side_of(v[i], v[i + 1], v[j + 1]));
        lemma_signed(turn, side_of(v[j], v[j + 1], v[i]));
        lemma_signed(turn, side_of(v[j], v[j + 1], v[i + 1]));
        lemma_signed(-turn, side_of(v[i + 1], v[i], v[j]));
        lemma_signed(-turn, side_of(v[i + 1], v[i], v[j + 1]));
        lemma_signed(-turn, side_of(v[j + 1], v[j], v[i]));
        lemma_signed(-turn, side_of(v[j + 1], v[j], v[i + 1]));
        // Turned round, both edges rise.
        lemma_rising_pair(v[i + 1], v[i], v[j + 1], v[j], y, -turn);
        assert(!lies_on(v[next_j], v[i], v[i + 1]));
        assert(!lies_on(v[next_i], v[j], v[j + 1]));
    }
}

/// Where no two of the first `n` edges rise past the height of `q` and no two
/// fall past it, they count 1 at most, and that only where one rises, and -1
/// at least, and that only where one falls.
proof fn lemma_winding_bounded(v: Seq<Vertex>, n: int, q: Vertex)
    requires
        0 <= n <= v.len() - 1,
        forall|i: int, j: int|
            0 <= i < j < n && #[trigger] rises(v, i, q.y) ==> !#[trigger] rises(v, j, q.y),
        forall|i: int, j: int|
            0 <= i < j < n && #[trigger] falls(v, i, q.y) ==> !#[trigger] falls(v, j, q.y),
    ensures
        polygon_winding(v, n, q) <= if any_rising(v, n, q.y) {
            1int
        } else {
            0int
        },
        polygon_winding(v, n, q) >= if any_falling(v, n, q.y) {
            -1int
        } else {
            0int
        },
    decreases n,
{
    if n > 0 {
        lemma_winding_bounded(v, n - 1, q);
        let c = crossing(v[n - 1], v[n], q);
        if rises(v, n - 1, q.y) {
            assert(any_rising(v, n, q.y));
            assert(!any_rising(v, n - 1, q.y)) by {
                if any_rising(v, n - 1, q.y) {
                    let i = choose|i: int| 0 <= i < n - 1 && #[trigger] rises(v, i, q.y);
                    assert(!rises(v, n - 1, q.y));
                }
            }
        }
        if falls(v, n - 1, q.y) {
            assert(any_falling(v, n, q.y));
            assert(!any_falling(v, n - 1, q.y)) by {
                if any_falling(v, n - 1, q.y) {
                    let i = choose|i: int| 0 <= i < n - 1 && #[trigger] falls(v, i, q.y);
                    assert(!falls(v, n - 1, q.y));
                }
            }
        }
        if any_rising(v, n - 1, q.y) {
            let i = choose|i: int| 0 <= i < n - 1 && #[trigger] rises(v, i, q.y);
            assert(rises(v, i, q.y));
            assert(any_rising(v, n, q.y));
        }
        if any_falling(v, n - 1, q.y) {
            let i = choose|i: int| 0 <= i < n - 1 && #[trigger] falls(v, i, q.y);
            assert(falls(v, i, q.y));
            assert(any_falling(v, n, q.y));
        }
    }
}

/// About no point does a convex polygon wind more than once.
proof fn lemma_convex_winds_once(v: Seq<Vertex>, q: Vertex)
    requires
        is_convex(v),
    ensures
        -1 <= polygon_winding(v, v.len() - 1, q) <= 1,
{
    let turn: int = if keeps_to_side(v, 1) {
        1
    } else {
        -1
    };
    let n = v.len() - 1;
    assert forall|i: int, j: int| 0 <= i < j < n && #[trigger] rises(v, i, q.y) implies !#[trigger] rises(
        v,
        j,
        q.y,
    ) by {
        lemma_one_rising(v, turn, i, j, q.y);
    }
    assert forall|i: int, j: int| 0 <= i < j < n && #[trigger] falls(v, i, q.y) implies !#[trigger] falls(
        v,
        j,
        q.y,
    ) by {
        lemma_one_falling(v, turn, i, j, q.y);
    }
    lemma_winding_bounded(v, n, q);
}

/// A curve begins at its first point and ends at its last.
proof fn lemma_blend_ends(begin: int, c1: int, c2: int, finish: int)
    ensures
        blend2(begin, c1, finish, 0) == SCALE * begin,
        blend2(begin, c1, finish, STEPS as int) == SCALE * finish,
        blend3(begin, c1, c2, finish, 0) == SCALE * begin,
        blend3(begin, c1, c2, finish, STEPS as int) == SCALE * finish,
{
    assert(16 * (16 * 16 * begin + 2 * 16 * 0 * c1 + 0 * 0 * finish) == 4096 * begin) by (nonlinear_arith);
    assert(16 * (0 * 0 * begin + 2 * 0 * 16 * c1 + 16 * 16 * finish) == 4096 * finish) by (nonlinear_arith);
    assert(16 * 16 * 16 * begin + 3 * 16 * 16 * 0 * c1 + 3 * 16 * 0 * 0 * c2 + 0 * 0 * 0 * finish == 4096
        * begin) by (nonlinear_arith);
    assert(0 * 0 * 0 * begin + 3 * 0 * 0 * 16 * c1 + 3 * 0 * 16 * 16 * c2 + 16 * 16 * 16 * finish == 4096
        * finish) by (nonlinear_arith);
}

/// The edges of a segment begin where the segment is drawn from.
pub(crate) proof fn lemma_first_vertex(from: Point, s: Segment)
    ensures
        vertex_of(from, s, 0) == on_fine_grid(from),
{
    match s {
        Segment::LineTo { .. } => {},
        Segment::QuadTo { control, end } => {
            lemma_blend_ends(from.x as int, control.x as int, 0, end.x as int);
            lemma_blend_ends(from.y as int, control.y as int, 0, end.y as int);
        },
        Segment::CubicTo { control1, control2, end } => {
            lemma_blend_ends(from.x as int, control1.x as int, control2.x as int, end.x as int);
            lemma_blend_ends(from.y as int, control1.y as int, control2.y as int, end.y as int);
        },
    }
}

/// The edges of a segment end where the segment ends.
proof fn lemma_last_vertex(from: Point, s: Segment)
    ensures
        vertex_of(from, s, edges_of(s)) == on_fine_grid(s.end_point()),
{
    match s {
        Segment::LineTo { .. } => {},
        Segment::QuadTo { control, end } => {
            lemma_blend_ends(from.x as int, control.x as int, 0, end.x as int);
            lemma_blend_ends(from.y as int, control.y as int, 0, end.y as int);
        },
        Segment::CubicTo { control1, control2, end } => {
            lemma_blend_ends(from.x as int, control1.x as int, control2.x as int, end.x as int);
            lemma_blend_ends(from.y as int, control1.y as int, control2.y as int, end.y as int);
        },
    }
}

/// The polygon of the first `n` segments begins at the start of the subpath
/// and ends where segment `n` is drawn from.
pub(crate) proof fn lemma_polygon_ends(sp: SubpathView, n: int)
    requires
        0 <= n <= sp.segments.len(),
    ensures
        polygon_upto(sp, n).len() >= 1,
        polygon_upto(sp, n)[0] == on_fine_grid(sp.start),
        polygon_upto(sp, n).last() == on_fine_grid(sp.from_point(n)),
    decreases n,
{
    if n > 0 {
        lemma_polygon_ends(sp, n - 1);
        let s = sp.segments[n - 1];
        let from = sp.from_point(n - 1);
        lemma_last_vertex(from, s);
        assert(chord_ends(from, s).last() == vertex_of(from, s, edges_of(s)));
    }
}

/// What the first edges of a polygon count does not change when the polygon
/// goes on.
proof fn lemma_winding_of_prefix(v: Seq<Vertex>, more: Seq<Vertex>, n: int, q: Vertex)
    requires
        0 <= n <= v.len() - 1,
    ensures
        polygon_winding(v + more, n, q) == polygon_winding(v, n, q),
    decreases n,
{
    if n > 0 {
        lemma_winding_of_prefix(v, more, n - 1, q);
    }
}

/// The edges of a segment count in the polygon what they count by themselves.
proof fn lemma_segment_in_polygon(v: Seq<Vertex>, from: Point, s: Segment, k: int, q: Vertex)
    requires
        v.len() >= 1,
        v.last() == on_fine_grid(from),
        0 <= k <= edges_of(s),
    ensures
        polygon_winding(v + chord_ends(from, s), v.len() - 1 + k, q) == polygon_winding(
            v,
            v.len() - 1,
            q,
        ) + segment_winding(from, s, k, q),
    decreases k,
{
    let all = v + chord_ends(from, s);
    if k == 0 {
        lemma_winding_of_prefix(v, chord_ends(from, s), v.len() - 1, q);
    } else {
        lemma_segment_in_polygon(v, from, s, k - 1, q);
        lemma_first_vertex(from, s);
        assert(all[v.len() - 1 + k] == vertex_of(from, s, k));
        assert(all[v.len() - 1 + k - 1] == vertex_of(from, s, k - 1)) by {
            if k == 1 {
                assert(all[v.len() - 1] == v.last());
            } else {
                assert(all[v.len() - 1 + k - 1] == chord_ends(from, s)[k - 2]);
            }
        }
    }
}

/// The segments of a subpath count what the edges of its polygon count.
proof fn lemma_polygon_winding(sp: SubpathView, n: int, q: Vertex)
    requires
        0 <= n <= sp.segments.len(),
    ensures
        run_winding(sp, n, q) == polygon_winding(
            polygon_upto(sp, n),
            polygon_upto(sp, n).len() - 1,
            q,
        ),
    decreases n,
{
    if n > 0 {
        lemma_polygon_winding(sp, n - 1, q);
        lemma_polygon_ends(sp, n - 1);
        let s = sp.segments[n - 1];
        let from = sp.from_point(n - 1);
        lemma_segment_in_polygon(polygon_upto(sp, n - 1), from, s, edges_of(s), q);
    }
}

/// On a simple convex contour the fill rules agree everywhere. Where an
/// outline is one subpath and the polygon of its edges is convex and simple,
/// its winding number about any point is -1, 0 or 1, so both rules fill the
/// same places, and the sampling detector finds nothing.
pub proof fn law_convex_contour_has_no_discrepancy(outline: Seq<SubpathView>)
    requires
        outline.len() == 1,
        is_convex(polygon(outline[0])),
    ensures
        forall|p: Point| -1 <= #[trigger] winding_number(outline, p) <= 1,
        forall|p: Point| !rules_disagree(#[trigger] winding_number(outline, p)),
        !has_discrepancy(outline),
{
    let sp = outline[0];
    assert forall|p: Point| -1 <= #[trigger] winding_number(outline, p) <= 1 by {
        let q = on_fine_grid(p);
        assert(outline_winding(outline, 0, q) == 0);
        assert(outline_winding(outline, 1, q) == run_winding(sp, sp.segments.len() as int, q));
        lemma_polygon_winding(sp, sp.segments.len() as int, q);
        lemma_convex_winds_once(polygon(sp), q);
    }
    assert forall|x: int, y: int| !#[trigger] disagree_at(outline, x, y) by {
        let p = crate::sampling::grid_point(x, y);
        assert(-1 <= winding_number(outline, p) <= 1);
    }
}

/// The number of edges that stand for the first `s` segments of a subpath.
pub open spec fn edges_before(sp: SubpathView, s: int) -> int
    decreases s,
{
    if s <= 0 {
        0
    } else {
        edges_before(sp, s - 1) + edges_of(sp.segments[s - 1])
    }
}

/// The polygon of the first `n` segments has a corner for the start and one
/// for every edge, and the corners of segment `s` are its vertices.
pub proof fn lemma_polygon_corners(sp: SubpathView, n: int, s: int, k: int)
    requires
        0 <= s < n <= sp.segments.len(),
        0 <= k <= edges_of(sp.segments[s]),
    ensures
        polygon_upto(sp, n).len() == 1 + edges_before(sp, n),
        0 <= edges_before(sp, s) + k < polygon_upto(sp, n).len(),
        polygon_upto(sp, n)[edges_before(sp, s) + k] == vertex_of(
            sp.from_point(s),
            sp.segments[s],
            k,
        ),
    decreases n,
{
    lemma_polygon_length(sp, n - 1);
    lemma_polygon_length(sp, s);
    lemma_polygon_length(sp, s + 1);
    lemma_edges_before_ordered(sp, s + 1, n);
    let before = polygon_upto(sp, n - 1);
    let ends = chord_ends(sp.from_point(n - 1), sp.segments[n - 1]);
    if s < n - 1 {
        lemma_polygon_corners(sp, n - 1, s, k);
        lemma_edges_before_ordered(sp, s + 1, n - 1);
    } else if k == 0 {
        lemma_polygon_ends(sp, n - 1);
        lemma_first_vertex(sp.from_point(s), sp.segments[s]);
    } else {
        assert((before + ends)[before.len() + k - 1] == ends[k - 1]);
    }
}

/// The polygon of the first `n` segments has a corner for the start and one
/// for every edge.
proof fn lemma_polygon_length(sp: SubpathView, n: int)
    requires
        0 <= n <= sp.segments.len(),
    ensures
        polygon_upto(sp, n).len() == 1 + edges_before(sp, n),
        edges_before(sp, n) >= 0,
    decreases n,
{
    if n > 0 {
        lemma_polygon_length(sp, n - 1);
    }
}

/// More segments have no fewer edges.
proof fn lemma_edges_before_ordered(sp: SubpathView, s: int, n: int)
    requires
        0 <= s <= n,
    ensures
        edges_before(sp, s) <= edges_before(sp, n),
    decreases n - s,
{
    if s < n {
        lemma_edges_before_ordered(sp, s, n - 1);
    }
}

/// From corner `lo` to corner `hi` the polygon climbs, where `up` is true,
/// or descends: no edge of the run ends lower, or higher, than it begins.
pub open spec fn run_goes(v: Seq<Vertex>, lo: int, hi: int, up: bool) -> bool {
    forall|i: int|
        lo <= i < hi ==> if up {
            (#[trigger] v[i]).y <= v[i + 1].y
        } else {
            v[i + 1].y <= (#[trigger] v[i]).y
        }
}

/// The closed polygon `v` goes up and down once: it climbs to corner `first`,
/// descends to corner `second` and climbs back to where it began, or the
/// other way round where `up` is false. A polygon that bulges outward
/// everywhere is of this kind, whichever corner it begins with.
pub open spec fn is_monotone(v: Seq<Vertex>, first: int, second: int, up: bool) -> bool {
    &&& v.len() >= 2
    &&& v.last() == v[0]
    &&& 0 <= first <= second <= v.len() - 1
    &&& run_goes(v, 0, first, up)
    &&& run_goes(v, first, second, !up)
    &&& run_goes(v, second, v.len() - 1, up)
}

/// Along a run the heights of the corners are in order.
proof fn lemma_run_ordered(v: Seq<Vertex>, lo: int, hi: int, up: bool, i: int, j: int)
    requires
        run_goes(v, lo, hi, up),
        lo <= i <= j <= hi,
    ensures
        up ==> v[i].y <= v[j].y,
        !up ==> v[j].y <= v[i].y,
    decreases j - i,
{
    if i < j {
        lemma_run_ordered(v, lo, hi, up, i, j - 1);
        assert(if up {
            v[j - 1].y <= v[j].y
        } else {
            v[j].y <= v[j - 1].y
        });
    }
}

/// Of a polygon that goes up and down once, no two edges go the same way
/// past one height.
proof fn lemma_monotone_one_each(
    v: Seq<Vertex>,
    first: int,
    second: int,
    up: bool,
    i: int,
    j: int,
    y: int,
)
    requires
        is_monotone(v, first, second, up),
        0 <= i < j < v.len() - 1,
    ensures
        !(rises(v, i, y) && rises(v, j, y)),
        !(falls(v, i, y) && falls(v, j, y)),
{
    let m = v.len() - 1;
    if i < first {
        if j < first {
            lemma_run_ordered(v, 0, first, up, i + 1, j);
        } else if j >= second {
            lemma_run_ordered(v, 0, first, up, 0, i);
            lemma_run_ordered(v, 0, first, up, 0, i + 1);
            lemma_run_ordered(v, second, m, up, j, m);
            lemma_run_ordered(v, second, m, up, j + 1, m);
        }
    } else if i < second {
        if j < second {
            lemma_run_ordered(v, first, second, !up, i + 1, j);
        }
    } else {
        lemma_run_ordered(v, second, m, up, i + 1, j);
    }
}

/// About no point does a polygon that goes up and down once wind more than
/// once.
proof fn lemma_monotone_winds_once(v: Seq<Vertex>, first: int, second: int, up: bool, q: Vertex)
    requires
        is_monotone(v, first, second, up),
    ensures
        -1 <= polygon_winding(v, v.len() - 1, q) <= 1,
{
    let n = v.len() - 1;
    assert forall|i: int, j: int| 0 <= i < j < n && #[trigger] rises(v, i, q.y) implies !#[trigger] rises(
        v,
        j,
        q.y,
    ) by {
        lemma_monotone_one_each(v, first, second, up, i, j, q.y);
    }
    assert forall|i: int, j: int| 0 <= i < j < n && #[trigger] falls(v, i, q.y) implies !#[trigger] falls(
        v,
        j,
        q.y,
    ) by {
        lemma_monotone_one_each(v, first, second, up, i, j, q.y);
    }
    lemma_winding_bounded(v, n, q);
}

/// On a contour that goes up and down once the fill rules agree everywhere.
/// Where an outline is one subpath and the polygon of its edges climbs,
/// descends and climbs back, or descends, climbs and descends back, its
/// winding number about any point is -1, 0 or 1, so both rules fill the same
/// places, and the sampling detector finds nothing.
pub proof fn law_monotone_contour_has_no_discrepancy(
    outline: Seq<SubpathView>,
    first: int,
    second: int,
    up: bool,
)
    requires
        outline.len() == 1,
        is_monotone(polygon(outline[0]), first, second, up),
    ensures
        forall|p: Point| -1 <= #[trigger] winding_number(outline, p) <= 1,
        forall|p: Point| !rules_disagree(#[trigger] winding_number(outline, p)),
        !has_discrepancy(outline),
{
    let sp = outline[0];
    assert forall|p: Point| -1 <= #[trigger] winding_number(outline, p) <= 1 by {
        let q = on_fine_grid(p);
        assert(outline_winding(outline, 0, q) == 0);
        assert(outline_winding(outline, 1, q) == run_winding(sp, sp.segments.len() as int, q));
        lemma_polygon_winding(sp, sp.segments.len() as int, q);
        lemma_monotone_winds_once(polygon(sp), first, second, up, q);
    }
    assert forall|x: int, y: int| !#[trigger] disagree_at(outline, x, y) by {
        let p = crate::sampling::grid_point(x, y);
        assert(-1 <= winding_number(outline, p) <= 1);
    }
}

} // verus!
