//! The measured pieces that a paragraph's lines are made of.
use crate::dimension::Pt;
use crate::draw_command::{FontId, ImageId, PathId, RgbColor, TextId};
use crate::geometry::PtSize;
use vstd::prelude::*;

verus! {

/// How a run takes part in proportional line spacing.
#[derive(Clone, Copy, Debug, PartialEq, Eq, Structural)]
pub enum AutoLineSpacingContribution {
    /// The run's natural height is multiplied by the line-spacing factor.
    Scaled,
    /// The run counts with its natural height alone.
    NaturalOnly,
}

/// The properties of a font that matter to line layout.
#[derive(Clone, Copy, Debug, PartialEq, Eq, Structural)]
pub struct FontProps {
    pub font: FontId,
    pub size: Pt,
    pub underline: bool,
    pub auto_line_spacing: AutoLineSpacingContribution,
}

/// Vertical extents of a run of text.
#[derive(Clone, Copy, Debug, PartialEq, Eq, Structural)]
pub struct TextMetrics {
    pub ascent: Pt,
    pub descent: Pt,
    pub leading: Pt,
}

/// One measured piece of a paragraph.
#[derive(Clone, Copy, Debug, PartialEq, Eq, Structural)]
pub enum Fragment {
    /// A run of text.
    Text {
        text: TextId,
        /// Whether the text is made of white space alone.
        blank: bool,
        font: FontProps,
        color: RgbColor,
        width: Pt,
        /// The width without trailing white space.
        trimmed_width: Pt,
        metrics: TextMetrics,
        /// How far the run stands below the line's baseline.
        baseline_offset: Pt,
        is_footnote_ref: bool,
    },
    /// An image in the line.
    Image { size: PtSize, image: ImageId },
    /// A drawing in the line.
    InlineGraphic { size: PtSize, path: PathId },
    /// A colour glyph, drawn as an image.
    Emoji { size: PtSize, image: ImageId },
    /// A tab, with the advance that it takes.
    Tab { width: Pt, line_height: Pt },
    /// A tab to a fixed position, with the advance that it takes.
    PTab { width: Pt, line_height: Pt },
    /// The end of a line.
    LineBreak { line_height: Pt },
    /// The end of a column.
    ColumnBreak,
    /// The end of a page.
    PageBreak,
    /// A named position without extent.
    Bookmark,
}

impl Fragment {
    /// Whether the page ends here.
    #[verifier::allow_in_spec]
    pub fn is_page_break(&self) -> bool
        returns
            (matches!(*self, Fragment::PageBreak)),
    {
        matches!(*self, Fragment::PageBreak)
    }

    /// Whether the fragment ends a page or a column.
    #[verifier::allow_in_spec]
    pub fn is_flow_break(&self) -> bool
        returns
            (matches!(*self, Fragment::PageBreak) || matches!(*self, Fragment::ColumnBreak)),
    {
        matches!(*self, Fragment::PageBreak) || matches!(*self, Fragment::ColumnBreak)
    }

    /// Whether nothing may follow the fragment in its line.
    #[verifier::allow_in_spec]
    pub fn ends_line(&self) -> bool
        returns
            (matches!(*self, Fragment::LineBreak { .. }) || self.is_flow_break()),
    {
        matches!(*self, Fragment::LineBreak { .. }) || self.is_flow_break()
    }

    /// Whether the fragment paints something.
    #[verifier::allow_in_spec]
    pub fn is_visible(&self) -> bool
        returns
            (match *self {
                Fragment::Text { blank, .. } => !blank,
                Fragment::Image { .. } | Fragment::InlineGraphic { .. } | Fragment::Emoji { .. } => true,
                _ => false,
            }),
    {
        match *self {
            Fragment::Text { blank, .. } => !blank,
            Fragment::Image { .. } | Fragment::InlineGraphic { .. } | Fragment::Emoji { .. } => true,
            _ => false,
        }
    }

    /// Whether the fragment refers to a footnote.
    #[verifier::allow_in_spec]
    pub fn is_footnote_reference(&self) -> bool
        returns
            (match *self {
                Fragment::Text { is_footnote_ref, .. } => is_footnote_ref,
                _ => false,
            }),
    {
        match *self {
            Fragment::Text { is_footnote_ref, .. } => is_footnote_ref,
            _ => false,
        }
    }

    /// The distance to the start of the next fragment.
    #[verifier::allow_in_spec]
    pub fn advance(&self) -> Pt
        returns
            (match *self {
                Fragment::Text { width, .. } => width,
                Fragment::Image { size, .. } => size.width,
                Fragment::InlineGraphic { size, .. } => size.width,
                Fragment::Emoji { size, .. } => size.width,
                Fragment::Tab { width, .. } => width,
                Fragment::PTab { width, .. } => width,
                _ => Pt::zero(),
            }),
    {
        match *self {
            Fragment::Text { width, .. } => width,
            Fragment::Image { size, .. } => size.width,
            Fragment::InlineGraphic { size, .. } => size.width,
            Fragment::Emoji { size, .. } => size.width,
            Fragment::Tab { width, .. } => width,
            Fragment::PTab { width, .. } => width,
            _ => Pt::zero(),
        }
    }

    /// The width that has to fit into the line.
    #[verifier::allow_in_spec]
    pub fn fit_width(&self) -> Pt
        returns
            (match *self {
                Fragment::Text { trimmed_width, .. } => trimmed_width,
                _ => self.advance(),
            }),
    {
        match *self {
            Fragment::Text { trimmed_width, .. } => trimmed_width,
            _ => self.advance(),
        }
    }

    /// The height from the top of the fragment to its baseline.
    #[verifier::allow_in_spec]
    pub fn ascent(&self) -> Pt
        returns
            (match *self {
                Fragment::Text { metrics, .. } => metrics.ascent,
                Fragment::Image { size, .. } => size.height,
                Fragment::InlineGraphic { size, .. } => size.height,
                Fragment::Emoji { size, .. } => size.height,
                Fragment::Tab { line_height, .. } => line_height,
                Fragment::PTab { line_height, .. } => line_height,
                Fragment::LineBreak { line_height } => line_height,
                _ => Pt::zero(),
            }),
    {
        match *self {
            Fragment::Text { metrics, .. } => metrics.ascent,
            Fragment::Image { size, .. } => size.height,
            Fragment::InlineGraphic { size, .. } => size.height,
            Fragment::Emoji { size, .. } => size.height,
            Fragment::Tab { line_height, .. } => line_height,
            Fragment::PTab { line_height, .. } => line_height,
            Fragment::LineBreak { line_height } => line_height,
            _ => Pt::zero(),
        }
    }

    /// The height of the fragment before line spacing.
    #[verifier::allow_in_spec]
    pub fn natural_height(&self) -> Pt
        returns
            (match *self {
                Fragment::Text { metrics, .. } => metrics.ascent.plus(metrics.descent).plus(
                    metrics.leading,
                ),
                _ => self.ascent(),
            }),
    {
        match *self {
            Fragment::Text { metrics, .. } => metrics.ascent.plus(metrics.descent).plus(
                metrics.leading,
            ),
            _ => self.ascent(),
        }
    }

    /// Whether proportional line spacing multiplies the fragment's height.
    #[verifier::allow_in_spec]
    pub fn is_scaled(&self) -> bool
        returns
            (match *self {
                Fragment::Text { font, .. } => font.auto_line_spacing
                    == AutoLineSpacingContribution::Scaled,
                Fragment::Tab { .. } | Fragment::PTab { .. } | Fragment::LineBreak { .. } => true,
                _ => false,
            }),
    {
        match *self {
            Fragment::Text { font, .. } => font.auto_line_spacing
                == AutoLineSpacingContribution::Scaled,
            Fragment::Tab { .. } | Fragment::PTab { .. } | Fragment::LineBreak { .. } => true,
            _ => false,
        }
    }

    /// Whether the fragment is text without decoration that scales with its line.
    #[verifier::allow_in_spec]
    pub fn is_plain_text(&self) -> bool
        returns
            (match *self {
                Fragment::Text { font, .. } => font.auto_line_spacing
                    == AutoLineSpacingContribution::Scaled && !font.underline,
                _ => false,
            }),
    {
        match *self {
            Fragment::Text { font, .. } => font.auto_line_spacing
                == AutoLineSpacingContribution::Scaled && !font.underline,
            _ => false,
        }
    }

    /// How far the fragment stands below the line's baseline.
    #[verifier::allow_in_spec]
    pub fn baseline_shift(&self) -> Pt
        returns
            (match *self {
                Fragment::Text { baseline_offset, .. } => baseline_offset,
                _ => Pt::zero(),
            }),
    {
        match *self {
            Fragment::Text { baseline_offset, .. } => baseline_offset,
            _ => Pt::zero(),
        }
    }
}

/// Whether a page break stands among the fragments.
pub open spec fn has_page_break(fragments: Seq<Fragment>) -> bool {
    exists|i: int| 0 <= i < fragments.len() && fragments[i].is_page_break()
}

/// Whether a page or column break stands among the fragments.
pub open spec fn has_flow_break(fragments: Seq<Fragment>) -> bool {
    exists|i: int| 0 <= i < fragments.len() && fragments[i].is_flow_break()
}

/// Whether a page break stands among the fragments.
pub fn contains_page_break(fragments: &[Fragment]) -> (r: bool)
    ensures
        r == has_page_break(fragments@),
{
    let mut i: usize = 0;
    while i < fragments.len()
        invariant
            i <= fragments@.len(),
            forall|k: int| 0 <= k < i ==> !fragments@[k].is_page_break(),
        decreases fragments@.len() - i,
    {
        if fragments[i].is_page_break() {
            return true;
        }
        i += 1;
    }
    false
}

/// Whether a page or column break stands among the fragments.
pub fn contains_flow_break(fragments: &[Fragment]) -> (r: bool)
    ensures
        r == has_flow_break(fragments@),
{
    let mut i: usize = 0;
    while i < fragments.len()
        invariant
            i <= fragments@.len(),
            forall|k: int| 0 <= k < i ==> !fragments@[k].is_flow_break(),
        decreases fragments@.len() - i,
    {
        if fragments[i].is_flow_break() {
            return true;
        }
        i += 1;
    }
    false
}

} // verus!
