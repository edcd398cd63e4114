//! Paragraph formatting.
use crate::dimension::Pt;
use crate::draw_command::RgbColor;
use vstd::prelude::*;

verus! {

/// A named style of the document.
#[derive(Clone, Copy, Debug, PartialEq, Eq, Structural)]
pub struct StyleId {
    pub id: u64,
}

/// The list that a paragraph is an item of.
#[derive(Clone, Copy, Debug, PartialEq, Eq, Structural)]
pub struct ListSpacingContext {
    pub list: u64,
    pub level: u8,
}

/// How the height of a line follows from its contents.
#[derive(Clone, Copy, Debug, PartialEq, Eq, Structural)]
pub enum LineSpacingRule {
    /// A multiple of the natural height, in 240ths.
    Auto { line: u32 },
    /// A fixed height.
    Exact(Pt),
    /// The natural height, or more.
    AtLeast(Pt),
}

/// One border of a paragraph.
#[derive(Clone, Copy, Debug, PartialEq, Eq, Structural)]
pub struct ParagraphBorderLine {
    pub width: Pt,
    /// The distance between the border and the text.
    pub space: Pt,
    pub color: RgbColor,
}

/// The borders of a paragraph.
#[derive(Clone, Copy, Debug, PartialEq, Eq, Structural)]
pub struct ParagraphBorderStyle {
    pub top: Option<ParagraphBorderLine>,
    pub bottom: Option<ParagraphBorderLine>,
    pub left: Option<ParagraphBorderLine>,
    pub right: Option<ParagraphBorderLine>,
}

/// The space that a drop cap takes beside the first lines of its paragraph.
#[derive(Clone, Copy, Debug, PartialEq, Eq, Structural)]
pub struct DropCap {
    pub lines: usize,
    pub width: Pt,
}

/// The formatting of a paragraph.
#[derive(Clone, Copy, Debug, PartialEq, Eq, Structural)]
pub struct ParagraphStyle {
    pub style_id: Option<StyleId>,
    /// Keep the paragraph on one page with the next one.
    pub keep_next: bool,
    /// Keep all lines of the paragraph on one page.
    pub keep_lines: bool,
    /// Leave no single line of the paragraph alone on a page.
    pub widow_control: bool,
    pub space_before: Pt,
    pub space_after: Pt,
    pub before_auto_spacing: bool,
    pub after_auto_spacing: bool,
    /// Ignore the space between paragraphs of the same style.
    pub contextual_spacing: bool,
    pub list_spacing_context: Option<ListSpacingContext>,
    pub line_spacing: LineSpacingRule,
    pub indent_left: Pt,
    pub indent_right: Pt,
    pub indent_first_line: Pt,
    pub borders: Option<ParagraphBorderStyle>,
    pub shading: Option<RgbColor>,
    pub drop_cap: Option<DropCap>,
}

impl ParagraphStyle {
    /// Formatting without any property set.
    pub open spec fn plain() -> ParagraphStyle {
        ParagraphStyle {
            style_id: None,
            keep_next: false,
            keep_lines: false,
            widow_control: true,
            space_before: Pt::zero(),
            space_after: Pt::zero(),
            before_auto_spacing: false,
            after_auto_spacing: false,
            contextual_spacing: false,
            list_spacing_context: None,
            line_spacing: LineSpacingRule::Auto { line: 240 },
            indent_left: Pt::zero(),
            indent_right: Pt::zero(),
            indent_first_line: Pt::zero(),
            borders: None,
            shading: None,
            drop_cap: None,
        }
    }

    /// How much of the space between this paragraph and the one before it is
    /// taken back: all of it between paragraphs of one style that ask for this
    /// and between items of one list with automatic spacing, and otherwise the
    /// lesser of the two spaces that meet.
    #[verifier::allow_in_spec]
    pub fn spacing_overlap_with_previous(
        &self,
        previous_space_after: Pt,
        previous_style_id: Option<StyleId>,
        previous_after_auto_spacing: bool,
        previous_list_spacing_context: Option<ListSpacingContext>,
    ) -> Pt
        returns
            (if (self.contextual_spacing && self.style_id.is_some() && self.style_id
                == previous_style_id) || (self.before_auto_spacing && previous_after_auto_spacing
                && self.list_spacing_context.is_some() && self.list_spacing_context
                == previous_list_spacing_context) {
                previous_space_after.plus(self.space_before)
            } else {
                previous_space_after.min(self.space_before)
            }),
    {
        if (self.contextual_spacing && self.style_id.is_some() && self.style_id
            == previous_style_id) || (self.before_auto_spacing && previous_after_auto_spacing
            && self.list_spacing_context.is_some() && self.list_spacing_context
            == previous_list_spacing_context) {
            previous_space_after.plus(self.space_before)
        } else {
            previous_space_after.min(self.space_before)
        }
    }

    /// The height that the top border takes.
    #[verifier::allow_in_spec]
    pub fn top_border_space(&self) -> Pt
        returns
            (match self.borders {
                Some(ParagraphBorderStyle { top: Some(line), .. }) => line.space.plus(line.width),
                _ => Pt::zero(),
            }),
    {
        match self.borders {
            Some(ParagraphBorderStyle { top: Some(line), .. }) => line.space.plus(line.width),
            _ => Pt::zero(),
        }
    }

    /// The height that the bottom border takes.
    #[verifier::allow_in_spec]
    pub fn bottom_border_space(&self) -> Pt
        returns
            (match self.borders {
                Some(ParagraphBorderStyle { bottom: Some(line), .. }) => line.space.plus(line.width),
                _ => Pt::zero(),
            }),
    {
        match self.borders {
            Some(ParagraphBorderStyle { bottom: Some(line), .. }) => line.space.plus(line.width),
            _ => Pt::zero(),
        }
    }

    /// The lines that a drop cap stands beside.
    #[verifier::allow_in_spec]
    pub fn drop_cap_lines(&self) -> usize
        returns
            (match self.drop_cap {
                Some(cap) => cap.lines,
                None => 0,
            }),
    {
        match self.drop_cap {
            Some(cap) => cap.lines,
            None => 0,
        }
    }
}

/// What the space before a paragraph depends on.
#[derive(Clone, Copy, Debug, PartialEq, Eq, Structural)]
pub struct PreviousParagraph {
    pub space_after: Pt,
    pub style_id: Option<StyleId>,
    pub after_auto_spacing: bool,
    pub list_spacing_context: Option<ListSpacingContext>,
}

impl PreviousParagraph {
    /// Nothing stands before the paragraph, or something other than a paragraph.
    #[verifier::allow_in_spec]
    pub fn none() -> PreviousParagraph
        returns
            (PreviousParagraph {
                space_after: Pt::zero(),
                style_id: None,
                after_auto_spacing: false,
                list_spacing_context: None,
            }),
    {
        PreviousParagraph {
            space_after: Pt::zero(),
            style_id: None,
            after_auto_spacing: false,
            list_spacing_context: None,
        }
    }

    /// A paragraph of the given style stands before.
    #[verifier::allow_in_spec]
    pub fn of(style: &ParagraphStyle) -> PreviousParagraph
        returns
            (PreviousParagraph {
                space_after: style.space_after,
                style_id: style.style_id,
                after_auto_spacing: style.after_auto_spacing,
                list_spacing_context: style.list_spacing_context,
            }),
    {
        PreviousParagraph {
            space_after: style.space_after,
            style_id: style.style_id,
            after_auto_spacing: style.after_auto_spacing,
            list_spacing_context: style.list_spacing_context,
        }
    }

    /// How much of the space before `style` is taken back.
    #[verifier::allow_in_spec]
    pub fn overlap(self, style: &ParagraphStyle) -> Pt
        returns
            (style.spacing_overlap_with_previous(
                self.space_after,
                self.style_id,
                self.after_auto_spacing,
                self.list_spacing_context,
            )),
    {
        style.spacing_overlap_with_previous(
            self.space_after,
            self.style_id,
            self.after_auto_spacing,
            self.list_spacing_context,
        )
    }
}

impl Default for ParagraphStyle {
    fn default() -> (r: Self)
        ensures
            r == ParagraphStyle::plain(),
    {
        ParagraphStyle {
            style_id: None,
            keep_next: false,
            keep_lines: false,
            widow_control: true,
            space_before: Pt::zero(),
            space_after: Pt::zero(),
            before_auto_spacing: false,
            after_auto_spacing: false,
            contextual_spacing: false,
            list_spacing_context: None,
            line_spacing: LineSpacingRule::Auto { line: 240 },
            indent_left: Pt::zero(),
            indent_right: Pt::zero(),
            indent_first_line: Pt::zero(),
            borders: None,
            shading: None,
            drop_cap: None,
        }
    }
}

} // verus!
