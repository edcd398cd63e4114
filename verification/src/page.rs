//! Pages: their geometry, the part of them that body text may use, and what has
//! been drawn on them.
use crate::block::PageParity;
use crate::dimension::Pt;
use crate::draw_command::DrawCommand;
use crate::geometry::{PtEdgeInsets, PtSize};
use vstd::prelude::*;

verus! {

/// A text column.
#[derive(Clone, Copy, Debug, PartialEq, Eq, Structural)]
pub struct ColumnGeometry {
    /// The distance from the left margin.
    pub x_offset: Pt,
    pub width: Pt,
}

/// The geometry of a section's pages.
#[derive(Debug)]
pub struct PageConfig {
    pub page_size: PtSize,
    pub margins: PtEdgeInsets,
    /// The distance of the header from the top of the page.
    pub header_margin: Pt,
    /// The distance of the footer from the bottom of the page.
    pub footer_margin: Pt,
    pub columns: Vec<ColumnGeometry>,
}

impl PageConfig {
    /// The width between the side margins.
    #[verifier::allow_in_spec]
    pub fn content_width(&self) -> Pt
        returns
            (self.page_size.width.minus(self.margins.horizontal())),
    {
        self.page_size.width.minus(self.margins.horizontal())
    }

    /// The number of columns.
    pub fn num_columns(&self) -> (r: usize)
        ensures
            r == self.columns@.len(),
    {
        self.columns.len()
    }

    /// The left edge of a column on the page.
    pub open spec fn col_x(&self, col: int) -> Pt {
        self.margins.left.plus(self.columns@[col].x_offset)
    }

    /// The left edge of a column on the page.
    pub fn column_x(&self, col: usize) -> (r: Pt)
        requires
            col < self.columns@.len(),
        ensures
            r == self.col_x(col as int),
    {
        self.margins.left.plus(self.columns[col].x_offset)
    }
}

/// The part of a page between its header and its footer.
#[derive(Clone, Copy, Debug, PartialEq, Eq, Structural)]
pub struct PageBodyBounds {
    pub top: Pt,
    pub bottom: Pt,
}

impl PageBodyBounds {
    /// The height of the part; none below zero.
    #[verifier::allow_in_spec]
    pub fn height(self) -> Pt
        returns
            (self.bottom.minus(self.top).max(Pt::zero())),
    {
        self.bottom.minus(self.top).max(Pt::zero())
    }
}

/// A value for each of the headers, or of the footers, that a section has.
#[derive(Clone, Copy, Debug, PartialEq, Eq, Structural)]
pub struct HeaderFooterSet {
    pub default: Option<Pt>,
    pub first: Option<Pt>,
    pub even: Option<Pt>,
}

impl HeaderFooterSet {
    /// No header or footer at all.
    #[verifier::allow_in_spec]
    pub fn none() -> HeaderFooterSet
        returns
            (HeaderFooterSet { default: None, first: None, even: None }),
    {
        HeaderFooterSet { default: None, first: None, even: None }
    }
}

/// The header or footer that a page shows.
#[derive(Clone, Copy, Debug, PartialEq, Eq, Structural)]
pub enum HeaderFooterSlot {
    Default,
    First,
    Even,
}

impl HeaderFooterSlot {
    /// What the set holds for this slot.
    #[verifier::allow_in_spec]
    pub fn of(self, set: HeaderFooterSet) -> Option<Pt>
        returns
            (match self {
                HeaderFooterSlot::Default => set.default,
                HeaderFooterSlot::First => set.first,
                HeaderFooterSlot::Even => set.even,
            }),
    {
        match self {
            HeaderFooterSlot::Default => set.default,
            HeaderFooterSlot::First => set.first,
            HeaderFooterSlot::Even => set.even,
        }
    }
}

/// How much of each page of a section its headers and footers take.
#[derive(Clone, Copy, Debug, PartialEq, Eq, Structural)]
pub struct HeaderFooterClearance {
    pub page_height: Pt,
    pub margin_top: Pt,
    pub margin_bottom: Pt,
    /// Where the headers end, from the top of the page.
    pub headers: HeaderFooterSet,
    /// Where the footers start, from the bottom of the page.
    pub footers: HeaderFooterSet,
    /// Whether the section's first page has a header and footer of its own.
    pub title_pg: bool,
    /// Whether pages with an even number have a header and footer of their own.
    pub even_and_odd: bool,
    /// The number of the section's first page.
    pub logical_page_base: usize,
}

impl HeaderFooterClearance {
    /// Clearances for a section's headers and footers.
    pub fn new(
        config: &PageConfig,
        headers: HeaderFooterSet,
        footers: HeaderFooterSet,
        title_pg: bool,
        even_and_odd: bool,
        logical_page_base: usize,
    ) -> (r: Self)
        ensures
            r == (HeaderFooterClearance {
                page_height: config.page_size.height,
                margin_top: config.margins.top,
                margin_bottom: config.margins.bottom,
                headers,
                footers,
                title_pg,
                even_and_odd,
                logical_page_base,
            }),
    {
        HeaderFooterClearance {
            page_height: config.page_size.height,
            margin_top: config.margins.top,
            margin_bottom: config.margins.bottom,
            headers,
            footers,
            title_pg,
            even_and_odd,
            logical_page_base,
        }
    }

    /// Clearances of a section without headers and footers.
    pub open spec fn uniform_spec(config: PageConfig) -> HeaderFooterClearance {
        HeaderFooterClearance {
            page_height: config.page_size.height,
            margin_top: config.margins.top,
            margin_bottom: config.margins.bottom,
            headers: HeaderFooterSet::none(),
            footers: HeaderFooterSet::none(),
            title_pg: false,
            even_and_odd: false,
            logical_page_base: 1,
        }
    }

    /// Clearances of a section without headers and footers.
    pub fn uniform(config: &PageConfig) -> (r: Self)
        ensures
            r == HeaderFooterClearance::uniform_spec(*config),
    {
        HeaderFooterClearance::new(
            config,
            HeaderFooterSet::none(),
            HeaderFooterSet::none(),
            false,
            false,
            1,
        )
    }

    /// The header and footer that page `index` of the section shows.
    #[verifier::allow_in_spec]
    pub fn slot(self, index: usize) -> HeaderFooterSlot
        returns
            (if self.title_pg && index == 0 {
                HeaderFooterSlot::First
            } else if self.even_and_odd && PageParity::of_page(
                self.logical_page_base.saturating_add(index),
            ) == PageParity::Even {
                HeaderFooterSlot::Even
            } else {
                HeaderFooterSlot::Default
            }),
    {
        if self.title_pg && index == 0 {
            HeaderFooterSlot::First
        } else if self.even_and_odd && PageParity::of_page(
            self.logical_page_base.saturating_add(index),
        ) == PageParity::Even {
            HeaderFooterSlot::Even
        } else {
            HeaderFooterSlot::Default
        }
    }

    /// The body of page `index` of the section: within the margins, and clear of
    /// the header and footer that the page shows.
    #[verifier::allow_in_spec]
    pub fn for_page(self, index: usize) -> PageBodyBounds
        returns
            ({
                let slot = self.slot(index);
                PageBodyBounds {
                    top: match slot.of(self.headers) {
                        Some(end) => self.margin_top.max(end),
                        None => self.margin_top,
                    },
                    bottom: self.page_height.minus(
                        match slot.of(self.footers) {
                            Some(extent) => self.margin_bottom.max(extent),
                            None => self.margin_bottom,
                        },
                    ),
                }
            }),
    {
        let slot = self.slot(index);
        PageBodyBounds {
            top: match slot.of(self.headers) {
                Some(end) => self.margin_top.max(end),
                None => self.margin_top,
            },
            bottom: self.page_height.minus(
                match slot.of(self.footers) {
                    Some(extent) => self.margin_bottom.max(extent),
                    None => self.margin_bottom,
                },
            ),
        }
    }
}

/// The body of a page never reaches into the margins, nor into the header and
/// footer that the page shows.
pub proof fn law_body_is_clear_of_headers(clearance: HeaderFooterClearance, index: usize)
    ensures
        ({
            let body = clearance.for_page(index);
            let slot = clearance.slot(index);
            &&& body.top.units >= clearance.margin_top.units
            &&& body.bottom.units <= clearance.page_height.minus(clearance.margin_bottom).units
            &&& slot.of(clearance.headers) matches Some(end) ==> body.top.units >= end.units
            &&& slot.of(clearance.footers) matches Some(extent) ==> body.bottom.units
                <= clearance.page_height.minus(extent).units
        }),
{
}

/// A command drawn before the text of its page.
#[derive(Clone, Copy, Debug, PartialEq, Eq, Structural)]
pub struct LayeredDrawCommand {
    pub relative_height: u32,
    pub command: DrawCommand,
}

/// A page with everything that has been drawn on it.
#[derive(Debug)]
pub struct LayoutedPage {
    pub commands: Vec<DrawCommand>,
    /// Commands painted before the others, the lowest first.
    pub behind_doc_commands: Vec<LayeredDrawCommand>,
    pub page_size: PtSize,
}

/// The mathematical value of a [`LayoutedPage`].
#[verifier::ext_equal]
pub struct PageView {
    pub commands: Seq<DrawCommand>,
    pub behind: Seq<LayeredDrawCommand>,
    pub page_size: PtSize,
}

impl View for LayoutedPage {
    type V = PageView;

    open spec fn view(&self) -> PageView {
        PageView {
            commands: self.commands@,
            behind: self.behind_doc_commands@,
            page_size: self.page_size,
        }
    }
}

impl PageView {
    /// A page with nothing on it.
    pub open spec fn blank(page_size: PtSize) -> PageView {
        PageView { commands: Seq::empty(), behind: Seq::empty(), page_size }
    }

    /// The page with more commands drawn on it.
    pub open spec fn drawn(self, commands: Seq<DrawCommand>) -> PageView {
        PageView { commands: self.commands + commands, ..self }
    }
}

/// The place for a command of the given height: after all that are not higher.
pub open spec fn behind_index(behind: Seq<LayeredDrawCommand>, height: u32, i: int) -> int
    decreases i,
{
    if i <= 0 || behind[i - 1].relative_height <= height {
        i
    } else {
        behind_index(behind, height, i - 1)
    }
}

impl PageView {
    /// The page with a command drawn behind its text.
    pub open spec fn with_behind(self, relative_height: u32, command: DrawCommand) -> PageView {
        PageView {
            behind: self.behind.insert(
                behind_index(self.behind, relative_height, self.behind.len() as int),
                LayeredDrawCommand { relative_height, command },
            ),
            ..self
        }
    }
}

impl LayoutedPage {
    /// A page with nothing on it.
    pub fn new(page_size: PtSize) -> (r: Self)
        ensures
            r@ == PageView::blank(page_size),
    {
        let r = LayoutedPage { commands: Vec::new(), behind_doc_commands: Vec::new(), page_size };
        assert(r@ =~= PageView::blank(page_size));
        r
    }

    /// A copy of the page.
    pub fn duplicate(&self) -> (r: Self)
        ensures
            r@ == self@,
    {
        let r = LayoutedPage {
            commands: copy_commands(&self.commands),
            behind_doc_commands: copy_layered(&self.behind_doc_commands),
            page_size: self.page_size,
        };
        assert(r@ =~= self@);
        r
    }

    /// Draw a command behind the page's text, above those that are not higher.
    pub fn push_behind_doc_command(&mut self, relative_height: u32, command: DrawCommand)
        ensures
            final(self)@ == old(self)@.with_behind(relative_height, command),
    {
        let mut i: usize = self.behind_doc_commands.len();
        while i > 0 && self.behind_doc_commands[i - 1].relative_height > relative_height
            invariant
                i <= self.behind_doc_commands@.len(),
                self@ == old(self)@,
                behind_index(self.behind_doc_commands@, relative_height, i as int) == behind_index(
                    self.behind_doc_commands@,
                    relative_height,
                    self.behind_doc_commands@.len() as int,
                ),
            decreases i,
        {
            i -= 1;
        }
        self.behind_doc_commands.insert(i, LayeredDrawCommand { relative_height, command });
        assert(self@ =~= old(self)@.with_behind(relative_height, command));
    }
}

/// A copy of a list of commands.
pub fn copy_commands(source: &Vec<DrawCommand>) -> (r: Vec<DrawCommand>)
    ensures
        r@ == source@,
{
    let mut r: Vec<DrawCommand> = Vec::new();
    let mut i: usize = 0;
    while i < source.len()
        invariant
            i <= source@.len(),
            r@ == source@.take(i as int),
        decreases source@.len() - i,
    {
        r.push(source[i]);
        i += 1;
        assert(r@ =~= source@.take(i as int));
    }
    assert(r@ =~= source@);
    r
}

/// A copy of a list of layered commands.
pub fn copy_layered(source: &Vec<LayeredDrawCommand>) -> (r: Vec<LayeredDrawCommand>)
    ensures
        r@ == source@,
{
    let mut r: Vec<LayeredDrawCommand> = Vec::new();
    let mut i: usize = 0;
    while i < source.len()
        invariant
            i <= source@.len(),
            r@ == source@.take(i as int),
        decreases source@.len() - i,
    {
        r.push(source[i]);
        i += 1;
        assert(r@ =~= source@.take(i as int));
    }
    assert(r@ =~= source@);
    r
}

} // verus!
