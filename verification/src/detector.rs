//! One question, two ways to answer it.

use crate::path::{Path, SubpathView};
use crate::raster::{
    accepts_plan, highlighted, rendering_view, renders, verdict, CoverageMask, DetectError,
    FillRule, MaskView, RasterDiffDetector, RenderPlan,
};
use crate::sampling::{has_discrepancy, SamplingWindingDetector};
use vstd::prelude::*;

verus! {

/// The way in which a detector finds its answer.
#[derive(Clone, Copy, Debug, PartialEq, Eq, Structural)]
pub enum Strategy {
    /// The winding number is taken at every grid point of the bounding box.
    SamplingWinding,
    /// The outline is rendered under both fill rules and the masks compared.
    RasterDiff,
}

/// Answers whether an outline needs overlap correction, by the strategy it
/// was made with. Whether pictures for the eye are wanted is a setting of its
/// own and changes no answer.
#[derive(Clone, Copy, Debug, PartialEq, Eq, Structural)]
pub struct Detector {
    pub strategy: Strategy,
    pub diagnostics: bool,
}

/// What a detector found out about a path.
#[derive(Debug)]
pub struct Finding {
    /// Whether the fill rules disagree: the path needs overlap correction.
    pub discrepancy: bool,
    /// For the eye, where pictures are wanted and the strategy makes any:
    /// the even-odd rendering with every differing pixel marked.
    pub picture: Option<CoverageMask>,
}

/// The answer of a detector with the given strategy: for `SamplingWinding`,
/// whether the rules disagree on a sampled grid point of the outline; for
/// `RasterDiff`, what the two renderings say.
pub open spec fn answer(
    strategy: Strategy,
    outline: Seq<SubpathView>,
    even_odd: Option<MaskView>,
    non_zero: Option<MaskView>,
) -> Result<bool, DetectError> {
    match strategy {
        Strategy::SamplingWinding => Ok(has_discrepancy(outline)),
        Strategy::RasterDiff => verdict(even_odd, non_zero),
    }
}

impl Detector {
    /// `r` is what this detector finds for `outline` and the two renderings:
    /// the answer of its strategy, and the picture where one is due.
    pub open spec fn finds(
        self,
        outline: Seq<SubpathView>,
        even_odd: Option<MaskView>,
        non_zero: Option<MaskView>,
        r: Result<Finding, DetectError>,
    ) -> bool {
        match answer(self.strategy, outline, even_odd, non_zero) {
            Err(e) => r == Err::<Finding, DetectError>(e),
            Ok(discrepancy) => {
                &&& r is Ok
                &&& r.unwrap().discrepancy == discrepancy
                &&& rendering_view(r.unwrap().picture) == if self.diagnostics && self.strategy
                    == Strategy::RasterDiff {
                    Some(highlighted(even_odd.unwrap(), non_zero.unwrap()))
                } else {
                    None
                }
            },
        }
    }

    /// `r` is what this detector answers for `path`, with `renderer` to
    /// render it: for `SamplingWinding`, whether the rules disagree on a
    /// sampled grid point; for `RasterDiff`, what two renderings that the
    /// renderer handed back say.
    pub open spec fn answers<R>(self, path: &Path, renderer: &R, r: Result<bool, DetectError>) -> bool where
        R: Fn(&Path, RenderPlan, FillRule) -> Option<CoverageMask>,
     {
        match self.strategy {
            Strategy::SamplingWinding => r == Ok::<bool, DetectError>(has_discrepancy(path@)),
            Strategy::RasterDiff => exists|
                plan: RenderPlan,
                even_odd: Option<CoverageMask>,
                non_zero: Option<CoverageMask>,
            |
                #[trigger] renders(renderer, path, plan, even_odd, non_zero) && r == verdict(
                    rendering_view(even_odd),
                    rendering_view(non_zero),
                ),
        }
    }

    pub fn new(strategy: Strategy, diagnostics: bool) -> (d: Detector)
        ensures
            d.strategy == strategy,
            d.diagnostics == diagnostics,
    {
        Detector { strategy, diagnostics }
    }

    /// Whether `path` needs overlap correction. A `SamplingWinding` detector
    /// samples the winding number and does not call the renderer. A
    /// `RasterDiff` detector has the path rendered under both fill rules and
    /// compares the masks.
    pub fn needs_overlap_correction<R>(&self, path: &Path, renderer: &R) -> (r: Result<
        bool,
        DetectError,
    >) where R: Fn(&Path, RenderPlan, FillRule) -> Option<CoverageMask>
        requires
            self.strategy == Strategy::RasterDiff ==> accepts_plan(renderer, path),
        ensures
            self.answers(path, renderer, r),
    {
        match self.strategy {
            Strategy::SamplingWinding => Ok(SamplingWindingDetector::check(path)),
            Strategy::RasterDiff => RasterDiffDetector::detect(path, renderer),
        }
    }

    /// As `needs_overlap_correction`, with the picture for the eye where
    /// diagnostics are on and the strategy is `RasterDiff`. The picture
    /// changes nothing in the answer.
    pub fn examine<R>(&self, path: &Path, renderer: &R) -> (r: Result<Finding, DetectError>) where
        R: Fn(&Path, RenderPlan, FillRule) -> Option<CoverageMask>,

        requires
            self.strategy == Strategy::RasterDiff ==> accepts_plan(renderer, path),
        ensures
            self.strategy == Strategy::SamplingWinding ==> self.finds(path@, None, None, r),
            self.strategy == Strategy::RasterDiff ==> exists|
                plan: RenderPlan,
                even_odd: Option<CoverageMask>,
                non_zero: Option<CoverageMask>,
            |
                #[trigger] renders(renderer, path, plan, even_odd, non_zero) && self.finds(
                    path@,
                    rendering_view(even_odd),
                    rendering_view(non_zero),
                    r,
                ),
    {
        match self.strategy {
            Strategy::SamplingWinding => Ok(
                Finding { discrepancy: SamplingWindingDetector::check(path), picture: None },
            ),
            Strategy::RasterDiff => {
                let plan = RasterDiffDetector::plan(path);
                let even_odd = renderer(path, plan, FillRule::EvenOdd);
                let non_zero = renderer(path, plan, FillRule::NonZero);
                assert(renders(renderer, path, plan, even_odd, non_zero));
                match RasterDiffDetector::check(even_odd.as_ref(), non_zero.as_ref()) {
                    Err(e) => Err(e),
                    Ok(discrepancy) => {
                        let picture = if self.diagnostics {
                            RasterDiffDetector::highlight(
                                even_odd.as_ref().unwrap(),
                                non_zero.as_ref().unwrap(),
                            )
                        } else {
                            None
                        };
                        Ok(Finding { discrepancy, picture })
                    },
                }
            },
        }
    }
}

/// The renderer is steady: asked the same, it hands back the same mask.
pub open spec fn steady<R>(renderer: &R) -> bool where
    R: Fn(&Path, RenderPlan, FillRule) -> Option<CoverageMask>,
 {
    forall|
        path: &Path,
        plan: RenderPlan,
        rule: FillRule,
        one: Option<CoverageMask>,
        other: Option<CoverageMask>,
    |
        #[trigger] call_ensures(*renderer, (path, plan, rule), one) && #[trigger] call_ensures(
            *renderer,
            (path, plan, rule),
            other,
        ) ==> rendering_view(one) == rendering_view(other)
}

/// Run twice on the same path, a detector answers the same. For `RasterDiff`
/// that is so where the renderer is steady; `SamplingWinding` has nothing to
/// depend on but the path.
pub proof fn law_detection_is_repeatable<R>(
    detector: Detector,
    path: &Path,
    renderer: &R,
    first: Result<bool, DetectError>,
    second: Result<bool, DetectError>,
) where R: Fn(&Path, RenderPlan, FillRule) -> Option<CoverageMask>
    requires
        detector.strategy == Strategy::RasterDiff ==> steady(renderer),
        detector.answers(path, renderer, first),
        detector.answers(path, renderer, second),
    ensures
        first == second,
{
    if detector.strategy == Strategy::RasterDiff {
        let (first_plan, first_even_odd, first_non_zero) = choose|
            plan: RenderPlan,
            even_odd: Option<CoverageMask>,
            non_zero: Option<CoverageMask>,
        |
            #[trigger] renders(renderer, path, plan, even_odd, non_zero) && first == verdict(
                rendering_view(even_odd),
                rendering_view(non_zero),
            );
        let (second_plan, second_even_odd, second_non_zero) = choose|
            plan: RenderPlan,
            even_odd: Option<CoverageMask>,
            non_zero: Option<CoverageMask>,
        |
            #[trigger] renders(renderer, path, plan, even_odd, non_zero) && second == verdict(
                rendering_view(even_odd),
                rendering_view(non_zero),
            );
        assert(first_plan == second_plan);
    }
}

} // verus!
