//! Detects outlines on which the nonzero and the even-odd fill rule disagree.
//!
//! A glyph outline that overlaps itself, or whose contours lie over each
//! other, is filled differently by the two rules. Rasterizers that assume
//! nonzero filling then show holes where a font compiler did not merge the
//! overlap. This crate rebuilds a [`Path`] from the point streams of a font
//! source with a [`PathBuilder`], and a [`Detector`] decides whether the two
//! rules disagree on it, in one of two ways:
//!
//! - [`SamplingWindingDetector`] takes the winding number at every grid point
//!   in the bounding box of the path;
//! - [`RasterDiffDetector`] has a renderer fill the path under each rule and
//!   compares the two masks. The renderer is the caller's.
//!
//! All coordinates are integers. A [`RawPoint`] is given in whole font units;
//! a [`Point`] of a path counts half units, so that the implied on-curve
//! point between two control points is exact.

pub mod bbox;
pub mod builder;
pub mod convex;
pub mod detector;
pub mod geometry;
pub mod glyph;
pub mod path;
pub mod raster;
pub mod sampling;
pub mod shapes;
pub mod winding;

pub use bbox::{BoundingBox, Extent, Side};
pub use builder::{
    build_path, unroll, BuilderView, PathBuilder, PathError, PointKind, RawContourPoint,
};
pub use detector::{Detector, Finding, Strategy};
pub use geometry::{Point, RawPoint, COORD_LIMIT};
pub use glyph::{Glyph, GlyphView};
pub use path::{Path, Segment, Subpath, SubpathView};
pub use raster::{
    CoverageMask, DetectError, FillRule, MaskView, Pixel, RasterDiffDetector, RenderPlan,
    PLAN_STEPS,
};
pub use sampling::SamplingWindingDetector;
pub use winding::{winding, SCALE, STEPS};
