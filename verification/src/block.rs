//! The blocks that a section is made of: paragraphs and tables, measured and
//! ready to be placed.
use crate::dimension::Pt;
use crate::draw_command::{DrawCommand, ImageId, PathId, RgbColor};
use crate::float::WrapTextSide;
use crate::fragment::Fragment;
use crate::geometry::{PtEdgeInsets, PtRect, PtSize};
use crate::style::{ParagraphStyle, StyleId};
use vstd::prelude::*;

verus! {

/// The parity of a page number.
#[derive(Clone, Copy, Debug, PartialEq, Eq, Structural)]
pub enum PageParity {
    Odd,
    Even,
}

impl PageParity {
    /// The parity of a page number.
    #[verifier::allow_in_spec]
    pub fn of_page(number: usize) -> PageParity
        returns
            (if number % 2 == 1 {
                PageParity::Odd
            } else {
                PageParity::Even
            }),
    {
        if number % 2 == 1 {
            PageParity::Odd
        } else {
            PageParity::Even
        }
    }
}

/// The horizontal position of a floating object.
#[derive(Clone, Copy, Debug, PartialEq, Eq, Structural)]
pub enum FloatingImageX {
    Absolute(Pt),
    /// A position that is mirrored between odd and even pages.
    Mirrored { odd: Pt, even: Pt },
}

impl FloatingImageX {
    /// The position on a page of the given parity.
    #[verifier::allow_in_spec]
    pub fn resolve(self, parity: PageParity) -> Pt
        returns
            (match self {
                FloatingImageX::Absolute(x) => x,
                FloatingImageX::Mirrored { odd, even } => match parity {
                    PageParity::Odd => odd,
                    PageParity::Even => even,
                },
            }),
    {
        match self {
            FloatingImageX::Absolute(x) => x,
            FloatingImageX::Mirrored { odd, even } => match parity {
                PageParity::Odd => odd,
                PageParity::Even => even,
            },
        }
    }
}

/// The vertical position of a floating object.
#[derive(Clone, Copy, Debug, PartialEq, Eq, Structural)]
pub enum FloatingImageY {
    /// A position on the page.
    Absolute(Pt),
    /// A distance below the text of the paragraph that owns the object.
    RelativeToParagraph(Pt),
}

impl FloatingImageY {
    /// The position on the page for a paragraph whose text starts at `content_top`.
    #[verifier::allow_in_spec]
    pub fn resolve(self, content_top: Pt) -> Pt
        returns
            (match self {
                FloatingImageY::Absolute(y) => y,
                FloatingImageY::RelativeToParagraph(offset) => content_top.plus(offset),
            }),
    {
        match self {
            FloatingImageY::Absolute(y) => y,
            FloatingImageY::RelativeToParagraph(offset) => content_top.plus(offset),
        }
    }
}

/// How text runs around a floating object.
#[derive(Clone, Copy, Debug, PartialEq, Eq, Structural)]
pub enum WrapMode {
    /// The object lies over or under the text.
    Overlay,
    /// Text runs beside the object's box.
    Square(WrapTextSide),
    /// Text runs beside the object's outline.
    Tight(WrapTextSide),
    /// Text runs beside the object's outline and into its gaps.
    Through(WrapTextSide),
    /// Text stands above and below the object only.
    TopAndBottom,
}

impl WrapMode {
    /// Whether text runs beside the object.
    #[verifier::allow_in_spec]
    pub fn registers_as_wrap_float(self) -> bool
        returns
            (match self {
                WrapMode::Square(_) | WrapMode::Tight(_) | WrapMode::Through(_) => true,
                _ => false,
            }),
    {
        match self {
            WrapMode::Square(_) | WrapMode::Tight(_) | WrapMode::Through(_) => true,
            _ => false,
        }
    }

    /// The sides on which text runs.
    #[verifier::allow_in_spec]
    pub fn wrap_text(self) -> WrapTextSide
        returns
            (match self {
                WrapMode::Square(side) => side,
                WrapMode::Tight(side) => side,
                WrapMode::Through(side) => side,
                _ => WrapTextSide::BothSides,
            }),
    {
        match self {
            WrapMode::Square(side) => side,
            WrapMode::Tight(side) => side,
            WrapMode::Through(side) => side,
            _ => WrapTextSide::BothSides,
        }
    }

    /// Whether text stands above and below the object only.
    #[verifier::allow_in_spec]
    pub fn is_top_and_bottom(self) -> bool
        returns
            (matches!(self, WrapMode::TopAndBottom)),
    {
        matches!(self, WrapMode::TopAndBottom)
    }
}

/// The box of a floating object, and how text keeps clear of it.
#[derive(Clone, Copy, Debug, PartialEq, Eq, Structural)]
pub struct FloatingFrame {
    pub x: FloatingImageX,
    pub y: FloatingImageY,
    pub size: PtSize,
    pub wrap_mode: WrapMode,
    pub dist_top: Pt,
    pub dist_bottom: Pt,
    pub dist_left: Pt,
    pub dist_right: Pt,
    /// Whether the object is painted before the text of its page.
    pub behind_doc: bool,
    /// The object's place among those behind the text; lower is painted first.
    pub relative_height: u32,
}

impl FloatingFrame {
    /// Whether text stands above and below the object only.
    #[verifier::allow_in_spec]
    pub fn is_wrap_top_and_bottom(&self) -> bool
        returns
            (self.wrap_mode.is_top_and_bottom()),
    {
        self.wrap_mode.is_top_and_bottom()
    }

    /// Whether the object stands at a fixed height of the page.
    #[verifier::allow_in_spec]
    pub fn has_absolute_y(&self) -> bool
        returns
            (matches!(self.y, FloatingImageY::Absolute(_))),
    {
        matches!(self.y, FloatingImageY::Absolute(_))
    }

    /// Whether the object is drawn before the text of its paragraph: text covers it, or keeps clear
    /// of it.
    #[verifier::allow_in_spec]
    pub fn is_drawn_first(&self) -> bool
        returns
            (self.behind_doc || self.is_wrap_top_and_bottom()),
    {
        self.behind_doc || self.is_wrap_top_and_bottom()
    }

    /// The object's box on a page of the given parity, where the text of its paragraph starts at
    /// `content_top`.
    #[verifier::allow_in_spec]
    pub fn rect(&self, parity: PageParity, content_top: Pt) -> PtRect
        returns
            (PtRect::from_xywh(
                self.x.resolve(parity),
                self.y.resolve(content_top),
                self.size.width,
                self.size.height,
            )),
    {
        PtRect::from_xywh(
            self.x.resolve(parity),
            self.y.resolve(content_top),
            self.size.width,
            self.size.height,
        )
    }
}

/// A floating image.
#[derive(Clone, Copy, Debug, PartialEq, Eq, Structural)]
pub struct FloatingImage {
    pub frame: FloatingFrame,
    pub image: ImageId,
}

/// A floating drawing with text in it.
#[derive(Debug)]
pub struct FloatingShape {
    pub frame: FloatingFrame,
    pub path: PathId,
    /// The text of the drawing, relative to the drawing's origin.
    pub text_commands: Vec<DrawCommand>,
}

/// The text of one footnote.
#[derive(Debug)]
pub struct LayoutFootnote {
    pub paragraphs: Vec<FootnoteParagraph>,
}

/// One paragraph of a footnote.
#[derive(Debug)]
pub struct FootnoteParagraph {
    pub fragments: Vec<Fragment>,
    pub style: ParagraphStyle,
}

/// A horizontal alignment.
#[derive(Clone, Copy, Debug, PartialEq, Eq, Structural)]
pub enum Alignment {
    Left,
    Center,
    Right,
}

/// What the vertical position of a floating table counts from.
#[derive(Clone, Copy, Debug, PartialEq, Eq, Structural)]
pub enum TableAnchor {
    Text,
    Margin,
    Page,
}

/// Whether a floating table may cover other floating tables.
#[derive(Clone, Copy, Debug, PartialEq, Eq, Structural)]
pub enum TableOverlap {
    Overlap,
    Never,
}

/// How a table floats.
#[derive(Clone, Copy, Debug, PartialEq, Eq, Structural)]
pub struct TableFloatInfo {
    pub right_gap: Pt,
    pub bottom_gap: Pt,
    pub x_align: Option<Alignment>,
    pub y_offset: Pt,
    pub vert_anchor: TableAnchor,
    pub overlap: Option<TableOverlap>,
}

/// The look of a table border.
#[derive(Clone, Copy, Debug, PartialEq, Eq, Structural)]
pub enum TableBorderStyle {
    Single,
    Double,
}

/// A table border.
#[derive(Clone, Copy, Debug, PartialEq, Eq, Structural)]
pub struct TableBorderLine {
    pub width: Pt,
    pub color: RgbColor,
    pub style: TableBorderStyle,
}

/// The borders of a whole table.
#[derive(Clone, Copy, Debug, PartialEq, Eq, Structural)]
pub struct TableBorderConfig {
    pub top: Option<TableBorderLine>,
    pub bottom: Option<TableBorderLine>,
    pub left: Option<TableBorderLine>,
    pub right: Option<TableBorderLine>,
    /// The borders between rows.
    pub inside_h: Option<TableBorderLine>,
    /// The borders between columns.
    pub inside_v: Option<TableBorderLine>,
}

/// What a cell says of one of its edges.
#[derive(Clone, Copy, Debug, PartialEq, Eq, Structural)]
pub enum CellBorderOverride {
    /// No border, and none taken over from the table.
    Suppress,
    Border(TableBorderLine),
}

/// What a cell says of its edges.
#[derive(Clone, Copy, Debug, PartialEq, Eq, Structural)]
pub struct CellBorderConfig {
    pub top: Option<CellBorderOverride>,
    pub bottom: Option<CellBorderOverride>,
    pub left: Option<CellBorderOverride>,
    pub right: Option<CellBorderOverride>,
}

/// A cell's part in a vertical merge.
#[derive(Clone, Copy, Debug, PartialEq, Eq, Structural)]
pub enum VerticalMergeState {
    /// The first cell of a merged region.
    Restart,
    /// A cell that the merged region above goes on through.
    Continue,
}

/// The vertical position of a cell's content.
#[derive(Clone, Copy, Debug, PartialEq, Eq, Structural)]
pub enum CellVAlign {
    Top,
    Center,
    Bottom,
}

/// A demand on the height of a row.
#[derive(Clone, Copy, Debug, PartialEq, Eq, Structural)]
pub enum RowHeightRule {
    AtLeast(Pt),
    Exact(Pt),
}

/// A table cell.
#[derive(Debug)]
pub struct TableCellInput {
    pub blocks: Vec<LayoutBlock>,
    pub margins: PtEdgeInsets,
    /// The number of grid columns that the cell covers; none counts as one.
    pub grid_span: u32,
    pub shading: Option<RgbColor>,
    pub cell_borders: Option<CellBorderConfig>,
    pub vertical_merge: Option<VerticalMergeState>,
    pub vertical_align: CellVAlign,
}

/// A table row.
#[derive(Debug)]
pub struct TableRowInput {
    pub cells: Vec<TableCellInput>,
    pub height_rule: Option<RowHeightRule>,
    pub is_header: Option<bool>,
    pub cant_split: Option<bool>,
    /// The number of grid columns before the first cell.
    pub grid_before: u32,
    /// Borders that stand in for those of the table in this row.
    pub border_overrides: Option<TableBorderConfig>,
}

/// A paragraph or a table.
#[derive(Debug)]
pub enum LayoutBlock {
    Paragraph {
        fragments: Vec<Fragment>,
        style: ParagraphStyle,
        page_break_before: bool,
        footnotes: Vec<LayoutFootnote>,
        floating_images: Vec<FloatingImage>,
        floating_shapes: Vec<FloatingShape>,
    },
    Table {
        rows: Vec<TableRowInput>,
        col_widths: Vec<Pt>,
        cell_spacing: Pt,
        border_config: Option<TableBorderConfig>,
        indent: Pt,
        alignment: Option<Alignment>,
        float_info: Option<TableFloatInfo>,
        style_id: Option<StyleId>,
    },
}

impl TableCellInput {
    /// The number of grid columns that the cell covers, one at least.
    #[verifier::allow_in_spec]
    pub fn span(&self) -> usize
        returns
            (if self.grid_span >= 1 {
                self.grid_span as usize
            } else {
                1
            }),
    {
        if self.grid_span >= 1 {
            self.grid_span as usize
        } else {
            1
        }
    }

    /// Whether a merged region above goes on through the cell.
    #[verifier::allow_in_spec]
    pub fn continues_merge(&self) -> bool
        returns
            (self.vertical_merge == Some(VerticalMergeState::Continue)),
    {
        self.vertical_merge == Some(VerticalMergeState::Continue)
    }

    /// Whether a merged region starts with the cell.
    #[verifier::allow_in_spec]
    pub fn restarts_merge(&self) -> bool
        returns
            (self.vertical_merge == Some(VerticalMergeState::Restart)),
    {
        self.vertical_merge == Some(VerticalMergeState::Restart)
    }
}

} // verus!
