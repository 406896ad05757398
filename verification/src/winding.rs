//! The winding number of an outline about a point.
//!
//! Curves are replaced by chords between points that lie exactly on them, at
//! the parameters `k / STEPS`. Such a point has fractions for coordinates, so
//! all places are counted on a fine grid of `SCALE` steps to the half unit, on
//! which they are whole numbers. A ray runs from the point in question toward
//! greater `x`; every edge that crosses it upward counts `+1`, every edge that
//! crosses it downward counts `-1`.
//!
//! An edge covers the heights from its lower end up to, but not including, its
//! upper end, and a point that lies on an edge is on neither side of it. So an
//! edge through the point itself is never counted, and a vertex on the ray is
//! counted once.

use crate::geometry::{Point, COORD_LIMIT};
use crate::path::{Path, Segment, SubpathView};
use vstd::prelude::*;

verus! {

/// The number of chords that stand for one curve.
pub const STEPS: i64 = 16;

/// The number of fine-grid steps in a half unit: `STEPS` cubed.
pub const SCALE: i64 = 4096;

/// A place on the fine grid.
pub struct Vertex {
    pub x: int,
    pub y: int,
}

/// The place of a path point on the fine grid.
pub open spec fn on_fine_grid(p: Point) -> Vertex {
    Vertex { x: SCALE * p.x, y: SCALE * p.y }
}

/// The number of edges that stand for a segment.
pub open spec fn edges_of(s: Segment) -> int {
    match s {
        Segment::LineTo { .. } => 1,
        _ => STEPS as int,
    }
}

/// One coordinate of a quadratic curve at the parameter `k / STEPS`, on the
/// fine grid.
pub open spec fn blend2(begin: int, c: int, finish: int, k: int) -> int {
    let a = STEPS - k;
    STEPS * (a * a * begin + 2 * a * k * c + k * k * finish)
}

/// One coordinate of a cubic curve at the parameter `k / STEPS`, on the fine
/// grid.
pub open spec fn blend3(begin: int, c1: int, c2: int, finish: int, k: int) -> int {
    let a = STEPS - k;
    a * a * a * begin + 3 * a * a * k * c1 + 3 * a * k * k * c2 + k * k * k * finish
}

/// Vertex `k` of the edges that stand for the segment `s` drawn from `from`.
/// Vertex 0 is `from`; the last vertex is the end of the segment.
pub open spec fn vertex_of(from: Point, s: Segment, k: int) -> Vertex {
    match s {
        Segment::LineTo { end } => if k <= 0 {
            on_fine_grid(from)
        } else {
            on_fine_grid(end)
        },
        Segment::QuadTo { control, end } => Vertex {
            x: blend2(from.x as int, control.x as int, end.x as int, k),
            y: blend2(from.y as int, control.y as int, end.y as int, k),
        },
        Segment::CubicTo { control1, control2, end } => Vertex {
            x: blend3(from.x as int, control1.x as int, control2.x as int, end.x as int, k),
            y: blend3(from.y as int, control1.y as int, control2.y as int, end.y as int, k),
        },
    }
}

/// Twice the signed area of the triangle `a`, `b`, `q`: positive where `q`
/// lies to the left of the edge from `a` to `b`, negative where it lies to
/// the right, zero where it lies on the line through them.
pub open spec fn side_of(a: Vertex, b: Vertex, q: Vertex) -> int {
    (b.x - a.x) * (q.y - a.y) - (q.x - a.x) * (b.y - a.y)
}

/// What the edge from `a` to `b` counts for the ray from `q`.
pub open spec fn crossing(a: Vertex, b: Vertex, q: Vertex) -> int {
    if a.y <= q.y < b.y && side_of(a, b, q) > 0 {
        1
    } else if b.y <= q.y < a.y && side_of(a, b, q) < 0 {
        -1
    } else {
        0
    }
}

/// What the first `n` edges of a segment count.
pub open spec fn segment_winding(from: Point, s: Segment, n: int, q: Vertex) -> int
    decreases n,
{
    if n <= 0 {
        0
    } else {
        segment_winding(from, s, n - 1, q) + crossing(
            vertex_of(from, s, n - 1),
            vertex_of(from, s, n),
            q,
        )
    }
}

/// What the first `n` segments of a subpath count.
pub open spec fn run_winding(sp: SubpathView, n: int, q: Vertex) -> int
    decreases n,
{
    if n <= 0 {
        0
    } else {
        run_winding(sp, n - 1, q) + segment_winding(
            sp.from_point(n - 1),
            sp.segments[n - 1],
            edges_of(sp.segments[n - 1]),
            q,
        )
    }
}

/// What the first `n` subpaths of an outline count.
pub open spec fn outline_winding(outline: Seq<SubpathView>, n: int, q: Vertex) -> int
    decreases n,
{
    if n <= 0 {
        0
    } else {
        outline_winding(outline, n - 1, q) + run_winding(
            outline[n - 1],
            outline[n - 1].segments.len() as int,
            q,
        )
    }
}

/// The winding number of an outline about the point `p`.
pub open spec fn winding_number(outline: Seq<SubpathView>, p: Point) -> int {
    outline_winding(outline, outline.len() as int, on_fine_grid(p))
}

/// A place on the fine grid, for the machine.
#[derive(Clone, Copy)]
struct Fine {
    x: i128,
    y: i128,
}

impl View for Fine {
    type V = Vertex;

    closed spec fn view(&self) -> Vertex {
        Vertex { x: self.x as int, y: self.y as int }
    }
}

/// No vertex of a path lies farther out than this on the fine grid.
const VERTEX_LIMIT: i128 = 0x80_0000_0000_0000;

impl Fine {
    spec fn near(self) -> bool {
        &&& -VERTEX_LIMIT <= self.x <= VERTEX_LIMIT
        &&& -VERTEX_LIMIT <= self.y <= VERTEX_LIMIT
    }
}

/// The product of two numbers of known size.
fn times(u: i128, v: i128, Ghost(bu): Ghost<int>, Ghost(bv): Ghost<int>) -> (r: i128)
    requires
        -bu <= u <= bu,
        -bv <= v <= bv,
        0 <= bu <= 0x1000_0000_0000_0000,
        0 <= bv <= 0x1000_0000_0000_0000,
    ensures
        r == u * v,
        -(bu * bv) <= r <= bu * bv,
{
    proof {
        assert(-(bu * bv) <= u * v <= bu * bv && bu * bv <= 0x1000_0000_0000_0000
            * 0x1000_0000_0000_0000) by (nonlinear_arith)
            requires
                -bu <= u <= bu,
                -bv <= v <= bv,
                0 <= bu <= 0x1000_0000_0000_0000,
                0 <= bv <= 0x1000_0000_0000_0000,
        ;
    }
    u * v
}

/// One coordinate of vertex `k` of a quadratic curve.
fn blend2_exec(begin: i64, c: i64, finish: i64, k: i64) -> (r: i128)
    requires
        0 <= k <= STEPS,
        -COORD_LIMIT <= begin <= COORD_LIMIT,
        -COORD_LIMIT <= c <= COORD_LIMIT,
        -COORD_LIMIT <= finish <= COORD_LIMIT,
    ensures
        r == blend2(begin as int, c as int, finish as int, k as int),
        -VERTEX_LIMIT <= r <= VERTEX_LIMIT,
{
    let a: i128 = (STEPS - k) as i128;
    let k: i128 = k as i128;
    let limit: Ghost<int> = Ghost(COORD_LIMIT as int);
    let t0 = times(times(a, a, Ghost(16), Ghost(16)), begin as i128, Ghost(256), limit);
    let t1 = times(times(2 * a, k, Ghost(32), Ghost(16)), c as i128, Ghost(512), limit);
    let t2 = times(times(k, k, Ghost(16), Ghost(16)), finish as i128, Ghost(256), limit);
    times(STEPS as i128, t0 + t1 + t2, Ghost(16), Ghost(1024 * COORD_LIMIT as int))
}

/// One coordinate of vertex `k` of a cubic curve.
fn blend3_exec(begin: i64, c1: i64, c2: i64, finish: i64, k: i64) -> (r: i128)
    requires
        0 <= k <= STEPS,
        -COORD_LIMIT <= begin <= COORD_LIMIT,
        -COORD_LIMIT <= c1 <= COORD_LIMIT,
        -COORD_LIMIT <= c2 <= COORD_LIMIT,
        -COORD_LIMIT <= finish <= COORD_LIMIT,
    ensures
        r == blend3(begin as int, c1 as int, c2 as int, finish as int, k as int),
        -VERTEX_LIMIT <= r <= VERTEX_LIMIT,
{
    let a: i128 = (STEPS - k) as i128;
    let k: i128 = k as i128;
    let limit: Ghost<int> = Ghost(COORD_LIMIT as int);
    let aa = times(a, a, Ghost(16), Ghost(16));
    let kk = times(k, k, Ghost(16), Ghost(16));
    let t0 = times(times(aa, a, Ghost(256), Ghost(16)), begin as i128, Ghost(4096), limit);
    let t1 = times(
        times(times(3 * a, a, Ghost(48), Ghost(16)), k, Ghost(768), Ghost(16)),
        c1 as i128,
        Ghost(12288),
        limit,
    );
    let t2 = times(
        times(times(3 * a, k, Ghost(48), Ghost(16)), k, Ghost(768), Ghost(16)),
        c2 as i128,
        Ghost(12288),
        limit,
    );
    let t3 = times(times(kk, k, Ghost(256), Ghost(16)), finish as i128, Ghost(4096), limit);
    t0 + t1 + t2 + t3
}

/// Vertex `k` of the edges that stand for `s`.
fn fine_vertex(from: Point, s: Segment, k: i64) -> (v: Fine)
    requires
        from.in_range(),
        s.in_range(),
        0 <= k <= edges_of(s),
    ensures
        v@ == vertex_of(from, s, k as int),
        v.near(),
{
    match s {
        Segment::LineTo { end } => {
            let p = if k <= 0 {
                from
            } else {
                end
            };
            Fine { x: 4096 * (p.x as i128), y: 4096 * (p.y as i128) }
        },
        Segment::QuadTo { control, end } => Fine {
            x: blend2_exec(from.x, control.x, end.x, k),
            y: blend2_exec(from.y, control.y, end.y, k),
        },
        Segment::CubicTo { control1, control2, end } => Fine {
            x: blend3_exec(from.x, control1.x, control2.x, end.x, k),
            y: blend3_exec(from.y, control1.y, control2.y, end.y, k),
        },
    }
}

/// A point to the left of both ends of an edge that rises past its height
/// lies to the left of the edge; a point at or to the right of both ends does
/// not.
proof fn lemma_beside_rising_edge(a: Vertex, b: Vertex, q: Vertex)
    requires
        a.y <= q.y < b.y,
    ensures
        q.x < a.x && q.x < b.x ==> side_of(a, b, q) > 0,
        q.x >= a.x && q.x >= b.x ==> side_of(a, b, q) <= 0,
{
    let t = q.y - a.y;
    let u = b.y - q.y;
    assert(side_of(a, b, q) == t * (b.x - q.x) + u * (a.x - q.x)) by (nonlinear_arith)
        requires
            t == q.y - a.y,
            u == b.y - q.y,
    ;
    if q.x < a.x && q.x < b.x {
        assert(t * (b.x - q.x) >= 0 && u * (a.x - q.x) > 0) by (nonlinear_arith)
            requires
                t >= 0,
                u > 0,
                b.x - q.x > 0,
                a.x - q.x > 0,
        ;
    }
    if q.x >= a.x && q.x >= b.x {
        assert(t * (b.x - q.x) <= 0 && u * (a.x - q.x) <= 0) by (nonlinear_arith)
            requires
                t >= 0,
                u > 0,
                b.x - q.x <= 0,
                a.x - q.x <= 0,
        ;
    }
}

/// Turning an edge round turns the sides round.
pub(crate) proof fn lemma_side_turned(a: Vertex, b: Vertex, q: Vertex)
    ensures
        side_of(b, a, q) == -side_of(a, b, q),
{
    assert(side_of(b, a, q) == -side_of(a, b, q)) by (nonlinear_arith);
}

/// Whether `q` lies to the left of the edge from `a` up to `b`.
fn left_of_rising(a: Fine, b: Fine, q: Fine) -> (r: bool)
    requires
        a.near(),
        b.near(),
        a.y <= q.y < b.y,
    ensures
        r == (side_of(a@, b@, q@) > 0),
{
    proof {
        lemma_beside_rising_edge(a@, b@, q@);
    }
    if q.x < a.x && q.x < b.x {
        true
    } else if q.x >= a.x && q.x >= b.x {
        false
    } else {
        let bound: Ghost<int> = Ghost(2 * VERTEX_LIMIT as int);
        let left = times(b.x - a.x, q.y - a.y, bound, bound);
        let right = times(q.x - a.x, b.y - a.y, bound, bound);
        left - right > 0
    }
}

/// What the edge from `a` to `b` counts for the ray from `q`.
fn edge_crossing(a: Fine, b: Fine, q: Fine) -> (c: i128)
    requires
        a.near(),
        b.near(),
    ensures
        c == crossing(a@, b@, q@),
        -1 <= c <= 1,
{
    if a.y <= q.y && q.y < b.y {
        if left_of_rising(a, b, q) {
            1
        } else {
            0
        }
    } else if b.y <= q.y && q.y < a.y {
        proof {
            lemma_side_turned(a@, b@, q@);
        }
        if left_of_rising(b, a, q) {
            -1
        } else {
            0
        }
    } else {
        0
    }
}

/// What the edges of one segment count.
fn segment_crossings(from: Point, s: Segment, q: Fine) -> (w: i128)
    requires
        from.in_range(),
        s.in_range(),
    ensures
        w == segment_winding(from, s, edges_of(s), q@),
        -16 <= w <= 16,
{
    let edges: i64 = match s {
        Segment::LineTo { .. } => 1,
        _ => STEPS,
    };
    let mut w: i128 = 0;
    let mut k: i64 = 0;
    let mut a = fine_vertex(from, s, 0);
    while k < edges
        invariant
            from.in_range(),
            s.in_range(),
            edges == edges_of(s),
            0 <= k <= edges,
            a@ == vertex_of(from, s, k as int),
            a.near(),
            w == segment_winding(from, s, k as int, q@),
            -k <= w <= k,
        decreases edges - k,
    {
        let b = fine_vertex(from, s, k + 1);
        w = w + edge_crossing(a, b, q);
        a = b;
        k = k + 1;
    }
    w
}

/// The winding number of `path` about `p`, which is given in half units.
pub fn winding(path: &Path, p: Point) -> (w: i128)
    ensures
        w == winding_number(path@, p),
{
    proof {
        use_type_invariant(path);
        path.lemma_layout();
    }
    let ghost outline = path@;
    let q = Fine { x: 4096 * (p.x as i128), y: 4096 * (p.y as i128) };
    let n = path.subpath_count();
    let mut w: i128 = 0;
    let mut i: usize = 0;
    while i < n
        invariant
            path.wf(),
            outline == path@,
            n == outline.len(),
            i <= n,
            q@ == on_fine_grid(p),
            w == outline_winding(outline, i as int, q@),
            -16 * path.lo(i as int) <= w <= 16 * path.lo(i as int),
            0 <= path.lo(i as int) <= path.flat().len(),
        decreases n - i,
    {
        proof {
            path.lemma_layout();
        }
        let (start, lo, hi) = path.span(i);
        let ghost sp = outline[i as int];
        let ghost base = w;
        let mut from = start;
        let mut k: usize = lo;
        while k < hi
            invariant
                path.wf(),
                lo <= k <= hi <= path.flat().len(),
                sp.segments == path.flat().subrange(lo as int, hi as int),
                sp.in_range(),
                forall|m: int| 0 <= m < path.flat().len() ==> (#[trigger] path.flat()[m]).in_range(),
                from == sp.from_point(k - lo),
                from.in_range(),
                w == base + run_winding(sp, k - lo, q@),
                -16 * k <= w <= 16 * k,
            decreases hi - k,
        {
            let s = path.segment_at(k);
            assert(s == sp.segments[k - lo]);
            w = w + segment_crossings(from, s, q);
            from = s.end();
            k = k + 1;
        }
        assert(sp.segments.len() == hi - lo);
        i = i + 1;
    }
    w
}

} // verus!
