//! A glyph: a name, the place it was read from, and its outline.

use crate::builder::{
    lemma_add_rings_error, outline_from_rings, streams, BuilderView, PathBuilder, PathError,
    RawContourPoint,
};
use crate::path::{flipped_outline, Path, SubpathView};
use vstd::prelude::*;

verus! {

/// A glyph as detection sees it. It is made once, when its contours are
/// loaded, and not changed after that.
#[derive(Debug)]
pub struct Glyph {
    name: String,
    source: String,
    path: Path,
}

/// The mathematical value of a glyph.
pub struct GlyphView {
    pub name: Seq<char>,
    pub source: Seq<char>,
    pub outline: Seq<SubpathView>,
}

impl View for Glyph {
    type V = GlyphView;

    closed spec fn view(&self) -> GlyphView {
        GlyphView { name: self.name@, source: self.source@, outline: self.path@ }
    }
}

/// The outline of a glyph with the given contours, the contours as a font
/// source gives them: what the builder makes of them, mirrored at the `x`
/// axis.
pub open spec fn glyph_outline(contours: Seq<Vec<RawContourPoint>>) -> Result<
    Seq<SubpathView>,
    PathError,
> {
    match outline_from_rings(streams(contours)) {
        Ok(outline) => Ok(flipped_outline(outline)),
        Err(e) => Err(e),
    }
}

impl Glyph {
    /// The glyph with the given name, source and contours, the contours as a
    /// font source gives them. Fails as the builder fails on them.
    pub fn from_contours(name: String, source: String, contours: &Vec<Vec<RawContourPoint>>) -> (r:
        Result<Glyph, PathError>)
        ensures
            match r {
                Ok(glyph) => glyph_outline(contours@) == Ok::<Seq<SubpathView>, PathError>(
                    glyph@.outline,
                ) && glyph@.name == name@ && glyph@.source == source@,
                Err(e) => glyph_outline(contours@) == Err::<Seq<SubpathView>, PathError>(e),
            },
    {
        let ghost all = streams(contours@);
        let mut builder = PathBuilder::new();
        let mut i: usize = 0;
        while i < contours.len()
            invariant
                i <= contours@.len(),
                all == streams(contours@),
                BuilderView::empty().add_rings(all, i as int) == Ok::<BuilderView, PathError>(
                    builder@,
                ),
            decreases contours@.len() - i,
        {
            let ghost reached = builder@;
            match builder.add_ring(&contours[i]) {
                Ok(next) => {
                    builder = next;
                },
                Err(e) => {
                    proof {
                        assert(BuilderView::empty().add_rings(all, i as int + 1)
                            == reached.add_ring(all[i as int]));
                        lemma_add_rings_error(
                            BuilderView::empty(),
                            all,
                            i as int + 1,
                            all.len() as int,
                        );
                    }
                    return Err(e);
                },
            }
            i = i + 1;
        }
        match builder.build() {
            Ok(upright) => {
                let path = upright.flip_y();
                Ok(Glyph { name, source, path })
            },
            Err(e) => Err(e),
        }
    }

    /// The name of the glyph.
    pub fn name(&self) -> (name: &str)
        ensures
            name@ == self@.name,
    {
        self.name.as_str()
    }

    /// The place that the glyph was read from.
    pub fn source(&self) -> (source: &str)
        ensures
            source@ == self@.source,
    {
        self.source.as_str()
    }

    /// The outline of the glyph.
    pub fn path(&self) -> (path: &Path)
        ensures
            path@ == self@.outline,
    {
        &self.path
    }
}

} // verus!
