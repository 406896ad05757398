//! Detection by sampling: the winding number at every grid point in the
//! bounding box.

use crate::bbox::{box_side, BoundingBox, Side};
use crate::geometry::{Point, COORD_LIMIT};
use crate::path::{Path, SubpathView};
use crate::winding::{winding, winding_number};
use vstd::prelude::*;

verus! {

/// The nonzero rule fills where the winding number is not zero.
pub open spec fn inside_nonzero(w: int) -> bool {
    w != 0
}

/// The even-odd rule fills where the winding number is odd.
pub open spec fn inside_even_odd(w: int) -> bool {
    w % 2 != 0
}

/// The two rules disagree on a place with winding number `w`: one fills it,
/// the other does not. That is so where `w` is even and not zero.
pub open spec fn rules_disagree(w: int) -> bool {
    inside_nonzero(w) != inside_even_odd(w)
}

/// The grid point `(x, y)`, given in whole units, as a path point.
pub open spec fn grid_point(x: int, y: int) -> Point {
    Point { x: (2 * x) as i64, y: (2 * y) as i64 }
}

/// The grid point `(x, y)` lies strictly inside the bounding box of `outline`.
pub open spec fn is_sampled(outline: Seq<SubpathView>, x: int, y: int) -> bool {
    &&& box_side(outline, Side::MinX) < x < box_side(outline, Side::MaxX)
    &&& box_side(outline, Side::MinY) < y < box_side(outline, Side::MaxY)
}

/// The fill rules disagree on the grid point `(x, y)`.
pub open spec fn disagree_at(outline: Seq<SubpathView>, x: int, y: int) -> bool {
    rules_disagree(winding_number(outline, grid_point(x, y)))
}

/// The fill rules disagree on some grid point strictly inside the bounding
/// box of `outline`.
pub open spec fn has_discrepancy(outline: Seq<SubpathView>) -> bool {
    exists|x: int, y: int| is_sampled(outline, x, y) && #[trigger] disagree_at(outline, x, y)
}

/// Whether the fill rules disagree on a place with winding number `w`.
pub fn disagree(w: i128) -> (r: bool)
    ensures
        r == rules_disagree(w as int),
{
    let size: u128 = if w < 0 {
        if w == i128::MIN {
            return true;
        }
        (-w) as u128
    } else {
        w as u128
    };
    let odd = size % 2 != 0;
    (w != 0) != odd
}

/// The detector that samples the winding number.
pub struct SamplingWindingDetector;

impl SamplingWindingDetector {
    /// Whether the fill rules disagree on some grid point strictly inside the
    /// bounding box of `path`. The grid is walked column by column, and the
    /// walk ends at the first point on which the rules disagree.
    pub fn check(path: &Path) -> (found: bool)
        ensures
            found == has_discrepancy(path@),
    {
        let ghost outline = path@;
        let b = BoundingBox::of(path);
        if b.max_x - b.min_x < 2 {
            return false;
        }
        let mut x: i64 = b.min_x + 1;
        while x < b.max_x
            invariant
                outline == path@,
                b.is_of(outline),
                -COORD_LIMIT <= b.min_x < x <= b.max_x <= COORD_LIMIT,
                -COORD_LIMIT <= b.min_y <= b.max_y <= COORD_LIMIT,
                forall|u: int, v: int|
                    b.min_x < u < x && b.min_y < v < b.max_y ==> !#[trigger] disagree_at(
                        outline,
                        u,
                        v,
                    ),
            decreases b.max_x - x,
        {
            let mut y: i64 = b.min_y + 1;
            while y < b.max_y
                invariant
                    outline == path@,
                    b.is_of(outline),
                    -COORD_LIMIT <= b.min_x < x < b.max_x <= COORD_LIMIT,
                    -COORD_LIMIT <= b.min_y < y,
                    b.max_y <= COORD_LIMIT,
                    forall|v: int| b.min_y < v < y ==> !#[trigger] disagree_at(outline, x as int, v),
                decreases b.max_y - y,
            {
                let w = winding(path, Point { x: 2 * x, y: 2 * y });
                if disagree(w) {
                    assert(is_sampled(outline, x as int, y as int) && disagree_at(
                        outline,
                        x as int,
                        y as int,
                    ));
                    return true;
                }
                y = y + 1;
            }
            x = x + 1;
        }
        false
    }
}

} // verus!
