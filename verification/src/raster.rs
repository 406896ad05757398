//! Detection by rendering: the outline is filled once under each rule, and
//! the two pictures are compared pixel by pixel.
//!
//! Filling is the work of a renderer outside this crate. The detector says
//! what is to be rendered, and judges the two masks that come back. A mask
//! can be had as a PNG file, for the eye; the encoder is that of tiny-skia.

use crate::bbox::{larger_dimension, law_extent_encloses, tight, Extent, Side};
use crate::geometry::{Point, COORD_LIMIT};
use crate::path::{valid_outline, Path, Segment, SubpathView};
use vstd::prelude::*;

verus! {

/// The rule by which a renderer decides which pixels an outline covers.
#[derive(Clone, Copy, Debug, PartialEq, Eq, Structural)]
pub enum FillRule {
    EvenOdd,
    NonZero,
}

/// Why the rendered masks gave no verdict.
#[derive(Clone, Copy, Debug, PartialEq, Eq, Structural)]
pub enum DetectError {
    /// The two masks are not of one size.
    InconsistentMaskDimensions,
    /// The renderer gave no mask.
    RenderBackendFailure,
}

/// One pixel of a mask.
#[derive(Clone, Copy, Debug, PartialEq, Eq, Structural)]
pub struct Pixel {
    pub r: u8,
    pub g: u8,
    pub b: u8,
    pub a: u8,
}

/// The color that marks a pixel on which the two masks differ.
pub open spec fn highlight_color() -> Pixel {
    Pixel { r: 255, g: 20, b: 147, a: 255 }
}

/// The mathematical value of a mask: its size and its pixels, row by row.
pub struct MaskView {
    pub width: int,
    pub height: int,
    pub pixels: Seq<Pixel>,
}

/// What a renderer hands back: `width * height` pixels, row by row.
#[derive(Debug)]
pub struct CoverageMask {
    width: u32,
    height: u32,
    pixels: Vec<Pixel>,
}

impl View for CoverageMask {
    type V = MaskView;

    closed spec fn view(&self) -> MaskView {
        MaskView { width: self.width as int, height: self.height as int, pixels: self.pixels@ }
    }
}

impl CoverageMask {
    /// The invariant of every mask value.
    #[verifier::type_invariant]
    pub closed spec fn wf(&self) -> bool {
        self.pixels@.len() == self.width * self.height
    }

    /// A mask of the given size, or `None` where `pixels` does not hold
    /// `width * height` pixels.
    pub fn new(width: u32, height: u32, pixels: Vec<Pixel>) -> (r: Option<CoverageMask>)
        ensures
            r is Some <==> pixels@.len() == width * height,
            r is Some ==> r.unwrap()@ == (MaskView {
                width: width as int,
                height: height as int,
                pixels: pixels@,
            }),
    {
        assert(width * height <= 0xffff_ffff * 0xffff_ffff) by (nonlinear_arith)
            requires
                0 <= width <= 0xffff_ffff,
                0 <= height <= 0xffff_ffff,
        ;
        let area: u64 = width as u64 * height as u64;
        if pixels.len() as u64 != area {
            return None;
        }
        Some(CoverageMask { width, height, pixels })
    }

    pub fn width(&self) -> (w: u32)
        ensures
            w == self@.width,
    {
        self.width
    }

    pub fn height(&self) -> (h: u32)
        ensures
            h == self@.height,
    {
        self.height
    }

    /// The pixels, row by row.
    pub fn pixels(&self) -> (p: &Vec<Pixel>)
        ensures
            p@ == self@.pixels,
    {
        &self.pixels
    }

    /// The bytes of the mask, four to the pixel, as `rgba_bytes` says.
    pub fn to_rgba(&self) -> (bytes: Vec<u8>)
        ensures
            bytes@ == rgba_bytes(self@.pixels),
    {
        let ghost target = rgba_bytes(self.pixels@);
        let n = self.pixels.len();
        let mut bytes: Vec<u8> = Vec::new();
        let mut i: usize = 0;
        while i < n
            invariant
                n == self.pixels@.len(),
                target == rgba_bytes(self.pixels@),
                i <= n,
                bytes@ == target.subrange(0, 4 * i),
            decreases n - i,
        {
            let p = self.pixels[i];
            bytes.push(p.r);
            bytes.push(p.g);
            bytes.push(p.b);
            bytes.push(p.a);
            i = i + 1;
            assert(bytes@ =~= target.subrange(0, 4 * i));
        }
        assert(bytes@ =~= target);
        bytes
    }

    /// The mask as a PNG file: what the encoder makes of its size and bytes.
    /// `None` where the encoder makes nothing of them, as it does of a mask
    /// without pixels.
    pub fn to_png(&self) -> (png: Option<Vec<u8>>)
        ensures
            bytes_view(png) == png_encoding(
                self@.width,
                self@.height,
                rgba_bytes(self@.pixels),
            ),
            self@.width == 0 || self@.height == 0 ==> png is None,
    {
        encode_png(self.width, self.height, self.to_rgba())
    }
}

/// The bytes of pixels, four to the pixel: red, green, blue, alpha.
pub open spec fn rgba_bytes(pixels: Seq<Pixel>) -> Seq<u8> {
    Seq::new(
        4 * pixels.len(),
        |i: int|
            if i % 4 == 0 {
                pixels[i / 4].r
            } else if i % 4 == 1 {
                pixels[i / 4].g
            } else if i % 4 == 2 {
                pixels[i / 4].b
            } else {
                pixels[i / 4].a
            },
    )
}

/// The view of bytes that may be missing.
pub open spec fn bytes_view(bytes: Option<Vec<u8>>) -> Option<Seq<u8>> {
    match bytes {
        Some(b) => Some(b@),
        None => None,
    }
}

/// The PNG file that tiny-skia makes of a picture of the given size whose
/// pixels are the given bytes, four to the pixel, or `None` where it makes
/// none.
pub uninterp spec fn png_encoding(width: int, height: int, rgba: Seq<u8>) -> Option<Seq<u8>>;

/// Calls `tiny_skia::Pixmap::encode_png` on the pixmap that
/// `tiny_skia::Pixmap::from_vec` makes of the bytes and the size. Not proved:
/// that the bytes handed back are `png_encoding` of the size and the bytes,
/// which says no more than that the encoder gives the same file for the same
/// picture; and that there is no file where the width or the height is 0 or
/// the bytes are not four to the pixel, for which tiny-skia makes no pixmap.
#[verifier::external_body]
fn encode_png(width: u32, height: u32, rgba: Vec<u8>) -> (png: Option<Vec<u8>>)
    ensures
        bytes_view(png) == png_encoding(width as int, height as int, rgba@),
        width == 0 || height == 0 || rgba@.len() != 4 * width * height ==> png is None,
{
    let size = tiny_skia::IntSize::from_wh(width, height)?;
    let pixmap = tiny_skia::Pixmap::from_vec(rgba, size)?;
    pixmap.encode_png().ok()
}

impl Clone for CoverageMask {
    fn clone(&self) -> (copy: CoverageMask)
        ensures
            copy@ == self@,
    {
        proof {
            use_type_invariant(self);
        }
        let n = self.pixels.len();
        let mut pixels: Vec<Pixel> = Vec::new();
        let mut i: usize = 0;
        while i < n
            invariant
                n == self.pixels@.len(),
                i <= n,
                pixels@ == self.pixels@.subrange(0, i as int),
            decreases n - i,
        {
            pixels.push(self.pixels[i]);
            i = i + 1;
            assert(pixels@ =~= self.pixels@.subrange(0, i as int));
        }
        assert(pixels@ =~= self.pixels@);
        CoverageMask { width: self.width, height: self.height, pixels }
    }
}

/// The number of steps to the pixel in which a plan gives its shift. A tenth
/// of a half unit is a twentieth of a pixel, so the margin, which is a tenth
/// of the larger dimension, is a whole number of steps.
pub const PLAN_STEPS: i64 = 20;

/// What the renderer is asked for, besides the fill rule: where the outline
/// goes in the picture, the size of the picture, and whether to smooth. One
/// plan serves both renderings, which differ in the fill rule alone.
///
/// A pixel is a whole unit wide. A point `p` of the outline, given in half
/// units, lies in the picture at `(10 * p.x + dx) / 20` pixels from the left
/// and `(10 * p.y + dy) / 20` pixels from the top.
#[derive(Clone, Copy, Debug, PartialEq, Eq, Structural)]
pub struct RenderPlan {
    /// The shift in `x`, in twentieths of a pixel: the margin less the least
    /// `x` of the outline, so that the outline begins one margin from the
    /// left edge.
    pub dx: i64,
    /// The shift in `y`, in twentieths of a pixel.
    pub dy: i64,
    /// The width of the picture in pixels: the width of the outline and a
    /// margin on either side, rounded up.
    pub width: u64,
    /// The height of the picture in pixels.
    pub height: u64,
    /// Whether edges are to be smoothed. Always `false`: a pixel is covered
    /// or it is not, so that two masks can be compared for equality.
    pub anti_alias: bool,
}

/// The shift of the plan along one axis, in twentieths of a unit: the margin
/// less the tight extent on the lower side `low`. The margin is a tenth of
/// the larger dimension; it and the extent are counted in half units, of
/// which one is ten twentieths.
pub open spec fn plan_shift(outline: Seq<SubpathView>, low: Side) -> int {
    larger_dimension(outline) - 10 * tight(outline, low)
}

/// The size of the picture along one axis, in whole units: the tight extent
/// from `low` to `high` and the margin twice, rounded up.
pub open spec fn plan_size(outline: Seq<SubpathView>, low: Side, high: Side) -> int {
    -((-(10 * (tight(outline, high) - tight(outline, low)) + 2 * larger_dimension(outline))) / 20)
}

impl RenderPlan {
    /// `self` is the plan for rendering `outline`.
    pub open spec fn is_of(self, outline: Seq<SubpathView>) -> bool {
        &&& self.dx == plan_shift(outline, Side::MinX)
        &&& self.dy == plan_shift(outline, Side::MinY)
        &&& self.width == plan_size(outline, Side::MinX, Side::MaxX)
        &&& self.height == plan_size(outline, Side::MinY, Side::MaxY)
        &&& !self.anti_alias
    }

    /// The point `p` of the outline, shifted, lies in the picture.
    pub open spec fn frames(self, p: Point) -> bool {
        &&& 0 <= 10 * p.x + self.dx <= 20 * self.width
        &&& 0 <= 10 * p.y + self.dy <= 20 * self.height
    }
}

/// The two masks differ in some pixel.
pub open spec fn masks_differ(even_odd: MaskView, non_zero: MaskView) -> bool {
    exists|i: int| 0 <= i < even_odd.pixels.len() && #[trigger] even_odd.pixels[i] != non_zero.pixels[i]
}

/// The two masks are of one size.
pub open spec fn same_size(a: MaskView, b: MaskView) -> bool {
    a.width == b.width && a.height == b.height
}

/// What two renderings say of an outline. A rendering that failed is `None`.
pub open spec fn verdict(even_odd: Option<MaskView>, non_zero: Option<MaskView>) -> Result<
    bool,
    DetectError,
> {
    if even_odd is None || non_zero is None {
        Err(DetectError::RenderBackendFailure)
    } else if !same_size(even_odd.unwrap(), non_zero.unwrap()) {
        Err(DetectError::InconsistentMaskDimensions)
    } else {
        Ok(masks_differ(even_odd.unwrap(), non_zero.unwrap()))
    }
}

/// The even-odd mask with every pixel marked on which the other mask differs.
pub open spec fn highlighted(even_odd: MaskView, non_zero: MaskView) -> MaskView {
    MaskView {
        width: even_odd.width,
        height: even_odd.height,
        pixels: Seq::new(
            even_odd.pixels.len(),
            |i: int|
                if even_odd.pixels[i] != non_zero.pixels[i] {
                    highlight_color()
                } else {
                    even_odd.pixels[i]
                },
        ),
    }
}

/// The view of a mask that may be missing.
pub open spec fn mask_view(mask: Option<&CoverageMask>) -> Option<MaskView> {
    match mask {
        Some(m) => Some(m@),
        None => None,
    }
}

/// The view of a rendering that the renderer handed back.
pub open spec fn rendering_view(mask: Option<CoverageMask>) -> Option<MaskView> {
    match mask {
        Some(m) => Some(m@),
        None => None,
    }
}

/// The renderer may be called with the plan of `path`, under either rule.
pub open spec fn accepts_plan<R>(renderer: &R, path: &Path) -> bool where
    R: Fn(&Path, RenderPlan, FillRule) -> Option<CoverageMask>,
 {
    forall|plan: RenderPlan, rule: FillRule|
        plan.is_of(path@) ==> #[trigger] call_requires(*renderer, (path, plan, rule))
}

/// `even_odd` and `non_zero` are what the renderer handed back for `path`:
/// both for the plan of the path, the first for the even-odd rule and the
/// second for the nonzero rule.
pub open spec fn renders<R>(
    renderer: &R,
    path: &Path,
    plan: RenderPlan,
    even_odd: Option<CoverageMask>,
    non_zero: Option<CoverageMask>,
) -> bool where R: Fn(&Path, RenderPlan, FillRule) -> Option<CoverageMask> {
    &&& plan.is_of(path@)
    &&& call_ensures(*renderer, (path, plan, FillRule::EvenOdd), even_odd)
    &&& call_ensures(*renderer, (path, plan, FillRule::NonZero), non_zero)
}

/// The detector that compares two renderings.
pub struct RasterDiffDetector;

impl RasterDiffDetector {
    /// What is to be rendered for `path`: the shift that takes its tight
    /// extent to one margin from the origin, and the size of the picture that
    /// holds the extent with a margin on every side.
    pub fn plan(path: &Path) -> (plan: RenderPlan)
        ensures
            plan.is_of(path@),
    {
        let e = Extent::of(path);
        assert(COORD_LIMIT == 0x100_0000_0000);
        let width: i64 = e.max_x - e.min_x;
        let height: i64 = e.max_y - e.min_y;
        let margin: i64 = if width >= height {
            width
        } else {
            height
        };
        RenderPlan {
            dx: margin - 10 * e.min_x,
            dy: margin - 10 * e.min_y,
            width: ceil_div_20(10 * width + 2 * margin),
            height: ceil_div_20(10 * height + 2 * margin),
            anti_alias: false,
        }
    }

    /// Whether the two renderings of one plan differ in any pixel. Fails with
    /// `RenderBackendFailure` where a rendering is missing, and with
    /// `InconsistentMaskDimensions` where the two are not of one size.
    pub fn check(even_odd: Option<&CoverageMask>, non_zero: Option<&CoverageMask>) -> (r: Result<
        bool,
        DetectError,
    >)
        ensures
            r == verdict(mask_view(even_odd), mask_view(non_zero)),
    {
        let a = match even_odd {
            Some(a) => a,
            None => {
                return Err(DetectError::RenderBackendFailure);
            },
        };
        let b = match non_zero {
            Some(b) => b,
            None => {
                return Err(DetectError::RenderBackendFailure);
            },
        };
        if a.width != b.width || a.height != b.height {
            return Err(DetectError::InconsistentMaskDimensions);
        }
        proof {
            use_type_invariant(a);
            use_type_invariant(b);
        }
        let n = a.pixels.len();
        let mut i: usize = 0;
        while i < n
            invariant
                n == a@.pixels.len(),
                n == b@.pixels.len(),
                i <= n,
                even_odd == Some(a),
                non_zero == Some(b),
                same_size(a@, b@),
                forall|k: int| 0 <= k < i ==> #[trigger] a@.pixels[k] == b@.pixels[k],
            decreases n - i,
        {
            if a.pixels[i] != b.pixels[i] {
                assert(a@.pixels[i as int] != b@.pixels[i as int]);
                assert(masks_differ(a@, b@));
                return Ok(true);
            }
            i = i + 1;
        }
        Ok(false)
    }

    /// Whether the fill rules disagree on `path`, as `renderer` shows it. The
    /// renderer is called twice with the plan of the path, first for the
    /// even-odd rule and then for the nonzero rule, and the two masks are
    /// compared as `check` says.
    pub fn detect<R>(path: &Path, renderer: &R) -> (r: Result<bool, DetectError>) where
        R: Fn(&Path, RenderPlan, FillRule) -> Option<CoverageMask>,

        requires
            accepts_plan(renderer, path),
        ensures
            exists|plan: RenderPlan, even_odd: Option<CoverageMask>, non_zero: Option<CoverageMask>|
                #[trigger] renders(renderer, path, plan, even_odd, non_zero) && r == verdict(
                    rendering_view(even_odd),
                    rendering_view(non_zero),
                ),
    {
        let plan = RasterDiffDetector::plan(path);
        let even_odd = renderer(path, plan, FillRule::EvenOdd);
        let non_zero = renderer(path, plan, FillRule::NonZero);
        assert(renders(renderer, path, plan, even_odd, non_zero));
        RasterDiffDetector::check(even_odd.as_ref(), non_zero.as_ref())
    }

    /// A picture for the eye: the even-odd mask, with the highlight color on
    /// every pixel on which the nonzero mask differs. `None` where the masks
    /// are not of one size.
    pub fn highlight(even_odd: &CoverageMask, non_zero: &CoverageMask) -> (r: Option<CoverageMask>)
        ensures
            r is Some <==> same_size(even_odd@, non_zero@),
            r is Some ==> r.unwrap()@ == highlighted(even_odd@, non_zero@),
    {
        if even_odd.width != non_zero.width || even_odd.height != non_zero.height {
            return None;
        }
        proof {
            use_type_invariant(even_odd);
            use_type_invariant(non_zero);
        }
        let ghost target = highlighted(even_odd@, non_zero@);
        let n = even_odd.pixels.len();
        let mut pixels: Vec<Pixel> = Vec::new();
        let mut i: usize = 0;
        while i < n
            invariant
                n == even_odd@.pixels.len(),
                n == non_zero@.pixels.len(),
                target == highlighted(even_odd@, non_zero@),
                i <= n,
                pixels@ == target.pixels.subrange(0, i as int),
            decreases n - i,
        {
            let p = if even_odd.pixels[i] != non_zero.pixels[i] {
                Pixel { r: 255, g: 20, b: 147, a: 255 }
            } else {
                even_odd.pixels[i]
            };
            pixels.push(p);
            i = i + 1;
            assert(pixels@ =~= target.pixels.subrange(0, i as int));
        }
        assert(pixels@ =~= target.pixels);
        Some(CoverageMask { width: even_odd.width, height: even_odd.height, pixels })
    }
}

/// The quotient of `a` by 20, rounded up.
fn ceil_div_20(a: i64) -> (q: u64)
    requires
        0 <= a <= 0x4000_0000_0000_0000,
    ensures
        q == -((-a) / 20),
{
    (a + 19) as u64 / 20
}

/// The plan frames the whole outline: shifted as the plan says, every control
/// and end point of segment `j` of subpath `i` lies in the picture, and so
/// does the point from which the segment is drawn.
pub proof fn law_plan_frames_outline(outline: Seq<SubpathView>, plan: RenderPlan, i: int, j: int)
    requires
        valid_outline(outline),
        plan.is_of(outline),
        0 <= i < outline.len(),
        0 <= j < outline[i].segments.len(),
    ensures
        plan.frames(outline[i].from_point(j)),
        match outline[i].segments[j] {
            Segment::LineTo { end } => plan.frames(end),
            Segment::QuadTo { control, end } => plan.frames(control) && plan.frames(end),
            Segment::CubicTo { control1, control2, end } => {
                plan.frames(control1) && plan.frames(control2) && plan.frames(end)
            },
        },
{
    law_extent_encloses(outline, i, j);
}

} // verus!
