//! The page that a section is being placed on, and those that are done.
use crate::block::{FootnoteParagraph, PageParity};
use crate::dimension::{ratio, Pt};
use crate::draw_command::{append_shifted, shift_all, DrawCommand, RgbColor};
use crate::float::ActiveFloat;
use crate::geometry::{PtLineSegment, PtOffset, PtSize};
use crate::page::{
    ColumnGeometry, HeaderFooterClearance, LayoutedPage, PageBodyBounds, PageConfig, PageView,
};
use crate::paragraph::{laid_out, layout_paragraph};
use crate::style::{ParagraphBorderStyle, PreviousParagraph, StyleId};
use vstd::prelude::*;

verus! {

/// Fixed-point units of the gap between the footnote separator and the notes.
pub const SEPARATOR_GAP_UNITS: i64 = 304800;

/// The height of the separator above a page's footnotes.
#[verifier::allow_in_spec]
pub fn footnote_separator_gap() -> Pt
    returns
        (Pt { units: SEPARATOR_GAP_UNITS }),
{
    Pt { units: SEPARATOR_GAP_UNITS }
}

/// What stays the same while a section is laid out.
#[derive(Clone, Copy, Debug)]
pub struct LayoutCtx<'cx> {
    pub config: &'cx PageConfig,
    pub clearance: HeaderFooterClearance,
    /// The distance of the footnote separator from the left margin.
    pub separator_indent: Pt,
    pub default_line_height: Pt,
}

impl<'cx> LayoutCtx<'cx> {
    /// The body of a page of the section.
    #[verifier::allow_in_spec]
    pub fn page_bounds(&self, section_page_index: usize) -> PageBodyBounds
        returns
            (self.clearance.for_page(section_page_index)),
    {
        self.clearance.for_page(section_page_index)
    }
}

/// An unfinished page that the next section goes on with.
#[derive(Debug)]
pub struct ContinuationState {
    pub page: LayoutedPage,
    pub cursor_y: Pt,
    pub page_size: PtSize,
    pub page_top: Pt,
    pub body_bottom: Pt,
    pub columns: Vec<ColumnGeometry>,
    pub current_col: usize,
    pub column_top: Pt,
    pub bottom: Pt,
    pub page_floats: Vec<ActiveFloat>,
    pub page_absolute_exclusions: Vec<ActiveFloat>,
    pub column_reactivation_unsafe: bool,
}

/// The mathematical value of a [`ContinuationState`].
#[verifier::ext_equal]
pub struct Continuation {
    pub page: PageView,
    pub cursor_y: Pt,
    pub page_size: PtSize,
    pub page_top: Pt,
    pub body_bottom: Pt,
    pub columns: Seq<ColumnGeometry>,
    pub current_col: usize,
    pub column_top: Pt,
    pub bottom: Pt,
    pub page_floats: Seq<ActiveFloat>,
    pub exclusions: Seq<ActiveFloat>,
    pub column_reactivation_unsafe: bool,
}

impl View for ContinuationState {
    type V = Continuation;

    open spec fn view(&self) -> Continuation {
        Continuation {
            page: self.page@,
            cursor_y: self.cursor_y,
            page_size: self.page_size,
            page_top: self.page_top,
            body_bottom: self.body_bottom,
            columns: self.columns@,
            current_col: self.current_col,
            column_top: self.column_top,
            bottom: self.bottom,
            page_floats: self.page_floats@,
            exclusions: self.page_absolute_exclusions@,
            column_reactivation_unsafe: self.column_reactivation_unsafe,
        }
    }
}

/// The value of an optional [`ContinuationState`].
pub open spec fn continuation_view(c: Option<ContinuationState>) -> Option<Continuation> {
    match c {
        Some(state) => Some(state@),
        None => None,
    }
}

/// The values of a list of pages.
pub open spec fn pages_view(pages: Seq<LayoutedPage>) -> Seq<PageView> {
    Seq::new(pages.len(), |i: int| pages[i]@)
}

/// All that changes while a section is laid out.
#[derive(Debug)]
pub struct PageLayoutState<'doc> {
    /// The pages that are done.
    pub pages: Vec<LayoutedPage>,
    /// The page that is being filled.
    pub current_page: LayoutedPage,
    pub cursor_y: Pt,
    /// The number of the page within the section, from zero.
    pub page_index: usize,
    /// The number that the section's first page shows.
    pub logical_page_base: usize,
    /// Where the body of the page starts.
    pub page_top: Pt,
    pub current_col: usize,
    /// Where the columns start on the page.
    pub column_top: Pt,
    /// Where the body of the page ends, above the footnotes reserved so far.
    pub bottom: Pt,
    /// The footnotes of the page.
    pub page_footnotes: Vec<&'doc FootnoteParagraph>,
    /// Whether nothing of the section has been placed yet.
    pub first_on_section_page: bool,
    /// The paragraph before the next block.
    pub previous: PreviousParagraph,
    /// The borders of the paragraph before the next block.
    pub prev_borders: Option<ParagraphBorderStyle>,
    /// The floats that have been placed on the page.
    pub page_floats: Vec<ActiveFloat>,
    /// The floats that blocks further on will place at fixed heights of the page.
    pub current_page_abs_floats: Vec<ActiveFloat>,
    /// The bands across the page that have been placed at fixed heights; they also
    /// hold in the columns that follow.
    pub page_absolute_exclusions: Vec<ActiveFloat>,
    /// Whether the page holds a float that cannot hold in a further column.
    pub column_reactivation_unsafe: bool,
    /// Whether `current_page_abs_floats` belongs to an earlier page.
    pub abs_floats_dirty: bool,
    /// The first block on the page.
    pub page_start_block: usize,
    /// The style of the table right before the next block.
    pub prev_table_style_id: Option<StyleId>,
    /// Whether a page break waits for the next block.
    pub pending_page_break: bool,
}

/// The mathematical value of a [`PageLayoutState`].
#[verifier::ext_equal]
pub struct FlowState<'doc> {
    pub pages: Seq<PageView>,
    pub page: PageView,
    pub cursor_y: Pt,
    pub page_index: usize,
    pub logical_page_base: usize,
    pub page_top: Pt,
    pub current_col: usize,
    pub column_top: Pt,
    pub bottom: Pt,
    pub footnotes: Seq<&'doc FootnoteParagraph>,
    pub first_on_section_page: bool,
    pub previous: PreviousParagraph,
    pub prev_borders: Option<ParagraphBorderStyle>,
    pub page_floats: Seq<ActiveFloat>,
    pub abs_floats: Seq<ActiveFloat>,
    pub exclusions: Seq<ActiveFloat>,
    pub column_reactivation_unsafe: bool,
    pub abs_floats_dirty: bool,
    pub page_start_block: usize,
    pub prev_table_style_id: Option<StyleId>,
    pub pending_page_break: bool,
}

impl<'doc> View for PageLayoutState<'doc> {
    type V = FlowState<'doc>;

    open spec fn view(&self) -> FlowState<'doc> {
        FlowState {
            pages: pages_view(self.pages@),
            page: self.current_page@,
            cursor_y: self.cursor_y,
            page_index: self.page_index,
            logical_page_base: self.logical_page_base,
            page_top: self.page_top,
            current_col: self.current_col,
            column_top: self.column_top,
            bottom: self.bottom,
            footnotes: self.page_footnotes@,
            first_on_section_page: self.first_on_section_page,
            previous: self.previous,
            prev_borders: self.prev_borders,
            page_floats: self.page_floats@,
            abs_floats: self.current_page_abs_floats@,
            exclusions: self.page_absolute_exclusions@,
            column_reactivation_unsafe: self.column_reactivation_unsafe,
            abs_floats_dirty: self.abs_floats_dirty,
            page_start_block: self.page_start_block,
            prev_table_style_id: self.prev_table_style_id,
            pending_page_break: self.pending_page_break,
        }
    }
}

/// The heights of the footnotes from number `i` on, added to `acc`.
pub open spec fn footnotes_height(
    footnotes: Seq<&FootnoteParagraph>,
    i: int,
    width: Pt,
    default_line_height: Pt,
    acc: Pt,
) -> Pt
    decreases footnotes.len() - i,
{
    if i < 0 || i >= footnotes.len() {
        acc
    } else {
        footnotes_height(
            footnotes,
            i + 1,
            width,
            default_line_height,
            acc.plus(
                laid_out(
                    footnotes[i].fragments@,
                    footnotes[i].style,
                    width,
                    Pt::infinity(),
                    default_line_height,
                ).height,
            ),
        )
    }
}

/// The footnotes from number `i` on drawn below `y`, after the commands in `acc`.
pub open spec fn footnote_commands(
    footnotes: Seq<&FootnoteParagraph>,
    i: int,
    x: Pt,
    y: Pt,
    width: Pt,
    default_line_height: Pt,
    acc: Seq<DrawCommand>,
) -> Seq<DrawCommand>
    decreases footnotes.len() - i,
{
    if i < 0 || i >= footnotes.len() {
        acc
    } else {
        let note = laid_out(
            footnotes[i].fragments@,
            footnotes[i].style,
            width,
            Pt::infinity(),
            default_line_height,
        );
        footnote_commands(
            footnotes,
            i + 1,
            x,
            y.plus(note.height),
            width,
            default_line_height,
            acc + shift_all(note.commands, x, y),
        )
    }
}

/// The line above a page's notes: a third of the text's width, half a point wide.
pub open spec fn separator_line(x: Pt, y: Pt, content_width: Pt) -> DrawCommand {
    DrawCommand::Line {
        line: PtLineSegment {
            start: PtOffset { x, y },
            end: PtOffset {
                x: x.plus(Pt { units: ratio(content_width.units as int, 33, 100) }),
                y,
            },
        },
        color: RgbColor::black(),
        width: Pt { units: 38100 },
    }
}

/// The line above a page's notes.
pub fn draw_separator(x: Pt, y: Pt, content_width: Pt) -> (r: DrawCommand)
    ensures
        r == separator_line(x, y, content_width),
{
    DrawCommand::Line {
        line: PtLineSegment {
            start: PtOffset { x, y },
            end: PtOffset {
                x: x.plus(content_width.scale(Pt::from_units(33), Pt::from_units(100))),
                y,
            },
        },
        color: RgbColor::black(),
        width: Pt::from_units(38100),
    }
}

/// A page with its footnotes drawn upward from `bottom`.
pub open spec fn with_footnotes(
    page: PageView,
    ctx: LayoutCtx<'_>,
    footnotes: Seq<&FootnoteParagraph>,
    bottom: Pt,
) -> PageView {
    let width = ctx.config.content_width();
    let height = footnotes_height(footnotes, 0, width, ctx.default_line_height, Pt::zero());
    let top = bottom.minus(height).minus(footnote_separator_gap());
    PageView {
        commands: footnote_commands(
            footnotes,
            0,
            ctx.config.margins.left,
            top.plus(footnote_separator_gap()),
            width,
            ctx.default_line_height,
            page.commands.push(
                separator_line(ctx.config.margins.left.plus(ctx.separator_indent), top, width),
            ),
        ),
        ..page
    }
}

/// Draw a page's footnotes upward from `bottom`, under a separator line.
pub fn render_page_footnotes(
    page: &mut LayoutedPage,
    ctx: &LayoutCtx<'_>,
    footnotes: &Vec<&FootnoteParagraph>,
    bottom: Pt,
)
    ensures
        final(page)@ == with_footnotes(old(page)@, *ctx, footnotes@, bottom),
{
    let ghost before = page@;
    let width = ctx.config.content_width();
    let mut height = Pt::zero();
    let mut i: usize = 0;
    while i < footnotes.len()
        invariant
            i <= footnotes@.len(),
            footnotes_height(footnotes@, i as int, width, ctx.default_line_height, height)
                == footnotes_height(footnotes@, 0, width, ctx.default_line_height, Pt::zero()),
        decreases footnotes@.len() - i,
    {
        let note = layout_paragraph(
            footnotes[i].fragments.as_slice(),
            &footnotes[i].style,
            width,
            Pt::infinity(),
            ctx.default_line_height,
        );
        height = height.plus(note.height);
        i += 1;
    }
    let top = bottom.minus(height).minus(footnote_separator_gap());
    let x = ctx.config.margins.left;
    page.commands.push(draw_separator(x.plus(ctx.separator_indent), top, width));
    let ghost lined = page@;
    let first_y = top.plus(footnote_separator_gap());
    let mut y = first_y;
    let mut k: usize = 0;
    while k < footnotes.len()
        invariant
            k <= footnotes@.len(),
            page@.behind == lined.behind,
            page@.page_size == lined.page_size,
            footnote_commands(
                footnotes@,
                k as int,
                x,
                y,
                width,
                ctx.default_line_height,
                page.commands@,
            ) == footnote_commands(
                footnotes@,
                0,
                x,
                first_y,
                width,
                ctx.default_line_height,
                lined.commands,
            ),
        decreases footnotes@.len() - k,
    {
        let note = layout_paragraph(
            footnotes[k].fragments.as_slice(),
            &footnotes[k].style,
            width,
            Pt::infinity(),
            ctx.default_line_height,
        );
        append_shifted(
            &mut page.commands,
            note.commands.as_slice(),
            0,
            note.commands.len(),
            x,
            y,
        );
        assert(note.commands@.subrange(0, note.commands@.len() as int) =~= note.commands@);
        y = y.plus(note.height);
        k += 1;
    }
    assert(page@ =~= with_footnotes(before, *ctx, footnotes@, bottom));
}

/// Whether two lists of columns are the same.
pub open spec fn same_geometry(
    c: Continuation,
    config: PageConfig,
    bounds: PageBodyBounds,
) -> bool {
    c.page_size == config.page_size && c.page_top == bounds.top && c.body_bottom == bounds.bottom
        && c.columns == config.columns@
}

impl<'doc> FlowState<'doc> {
    /// The state in which a section starts.
    ///
    /// A section that goes on with a page of the same geometry goes on in the same
    /// column. One of another geometry starts its own columns below what is
    /// there; those are not columns of full height.
    pub open spec fn started(
        config: PageConfig,
        continuation: Option<Continuation>,
        bounds: PageBodyBounds,
        logical_page_base: usize,
    ) -> FlowState<'doc> {
        let fresh = FlowState {
            pages: Seq::empty(),
            page: PageView::blank(config.page_size),
            cursor_y: bounds.top,
            page_index: 0,
            logical_page_base,
            page_top: bounds.top,
            current_col: 0,
            column_top: bounds.top,
            bottom: bounds.bottom,
            footnotes: Seq::empty(),
            first_on_section_page: true,
            previous: PreviousParagraph::none(),
            prev_borders: None,
            page_floats: Seq::empty(),
            abs_floats: Seq::empty(),
            exclusions: Seq::empty(),
            column_reactivation_unsafe: false,
            abs_floats_dirty: true,
            page_start_block: 0,
            prev_table_style_id: None,
            pending_page_break: false,
        };
        match continuation {
            None => fresh,
            Some(c) => {
                let shared = FlowState {
                    page: c.page,
                    bottom: c.bottom.min(bounds.bottom),
                    page_floats: c.page_floats,
                    exclusions: c.exclusions,
                    column_reactivation_unsafe: c.column_reactivation_unsafe,
                    ..fresh
                };
                if same_geometry(c, config, bounds) {
                    let last = config.columns@.len() - 1;
                    FlowState {
                        cursor_y: c.cursor_y,
                        page_top: c.page_top,
                        current_col: if c.current_col <= last {
                            c.current_col
                        } else {
                            last as usize
                        },
                        column_top: c.column_top,
                        ..shared
                    }
                } else {
                    let top = c.cursor_y.max(bounds.top);
                    FlowState { cursor_y: top, column_top: top, ..shared }
                }
            },
        }
    }

    /// The parity of the number of the page.
    pub open spec fn parity(self) -> PageParity {
        PageParity::of_page(self.logical_page_base.saturating_add(self.page_index))
    }

    /// Whether the cursor stands at the top of a column of full height.
    pub open spec fn at_full_column_top(self) -> bool {
        self.cursor_y.units <= self.column_top.units && self.column_top.units <= self.page_top.units
    }

    /// With the footnotes of the page drawn.
    pub open spec fn flushed(self, ctx: LayoutCtx<'_>) -> FlowState<'doc> {
        if self.footnotes.len() == 0 {
            self
        } else {
            FlowState {
                page: with_footnotes(
                    self.page,
                    ctx,
                    self.footnotes,
                    ctx.page_bounds(self.page_index).bottom,
                ),
                footnotes: Seq::empty(),
                ..self
            }
        }
    }

    /// With the page done and a new one begun, for block `block_idx`.
    pub open spec fn on_new_page(self, block_idx: usize, ctx: LayoutCtx<'_>) -> FlowState<'doc> {
        let done = self.flushed(ctx);
        let index = self.page_index.saturating_add(1);
        let bounds = ctx.page_bounds(index);
        FlowState {
            pages: done.pages.push(done.page),
            page: PageView::blank(ctx.config.page_size),
            page_index: index,
            page_top: bounds.top,
            cursor_y: bounds.top,
            column_top: bounds.top,
            current_col: 0,
            bottom: bounds.bottom,
            page_start_block: block_idx,
            abs_floats_dirty: true,
            page_floats: Seq::empty(),
            exclusions: Seq::empty(),
            column_reactivation_unsafe: false,
            ..done
        }
    }

    /// With no space left over from the paragraph before.
    pub open spec fn without_space(self) -> FlowState<'doc> {
        FlowState {
            previous: PreviousParagraph { space_after: Pt::zero(), ..self.previous },
            ..self
        }
    }

    /// With commands drawn on the page.
    pub open spec fn drawn(self, commands: Seq<DrawCommand>) -> FlowState<'doc> {
        FlowState { page: self.page.drawn(commands), ..self }
    }
}

/// What a section leaves: its pages, and the last one if it is not done.
#[derive(Debug)]
pub struct SectionLayoutResult {
    pub pages: Vec<LayoutedPage>,
    pub continuation: Option<ContinuationState>,
}

/// The mathematical value of a [`SectionLayoutResult`].
#[verifier::ext_equal]
pub struct SectionResult {
    pub pages: Seq<PageView>,
    pub continuation: Option<Continuation>,
}

impl View for SectionLayoutResult {
    type V = SectionResult;

    open spec fn view(&self) -> SectionResult {
        SectionResult {
            pages: pages_view(self.pages@),
            continuation: continuation_view(self.continuation),
        }
    }
}

impl<'doc> FlowState<'doc> {
    /// What a section leaves in this state: with `preserve`, its last page is handed
    /// on to the next section.
    pub open spec fn finished(self, ctx: LayoutCtx<'_>, preserve: bool) -> SectionResult {
        let done = self.flushed(ctx);
        if preserve {
            SectionResult {
                pages: done.pages,
                continuation: Some(
                    Continuation {
                        page: done.page,
                        cursor_y: done.cursor_y,
                        page_size: ctx.config.page_size,
                        page_top: done.page_top,
                        body_bottom: ctx.page_bounds(done.page_index).bottom,
                        columns: ctx.config.columns@,
                        current_col: done.current_col,
                        column_top: done.column_top,
                        bottom: done.bottom,
                        page_floats: done.page_floats,
                        exclusions: done.exclusions,
                        column_reactivation_unsafe: done.column_reactivation_unsafe,
                    },
                ),
            }
        } else {
            SectionResult { pages: done.pages.push(done.page), continuation: None }
        }
    }
}

fn columns_are_same(a: &Vec<ColumnGeometry>, b: &Vec<ColumnGeometry>) -> (r: bool)
    ensures
        r == (a@ == b@),
{
    if a.len() != b.len() {
        assert(a@.len() != b@.len());
        return false;
    }
    let mut i: usize = 0;
    while i < a.len()
        invariant
            i <= a@.len(),
            a@.len() == b@.len(),
            forall|k: int| 0 <= k < i ==> a@[k] == b@[k],
        decreases a@.len() - i,
    {
        if a[i] != b[i] {
            assert(a@[i as int] != b@[i as int]);
            return false;
        }
        i += 1;
    }
    assert(a@ =~= b@);
    true
}

/// A copy of a list of columns.
pub fn copy_columns(source: &Vec<ColumnGeometry>) -> (r: Vec<ColumnGeometry>)
    ensures
        r@ == source@,
{
    let mut r: Vec<ColumnGeometry> = Vec::new();
    let mut i: usize = 0;
    while i < source.len()
        invariant
            i <= source@.len(),
            r@ == source@.take(i as int),
        decreases source@.len() - i,
    {
        r.push(source[i]);
        i += 1;
        assert(r@ =~= source@.take(i as int));
    }
    assert(r@ =~= source@);
    r
}

impl<'doc> PageLayoutState<'doc> {
    /// The state in which a section starts.
    pub fn new(
        config: &PageConfig,
        continuation: Option<ContinuationState>,
        bounds: PageBodyBounds,
        logical_page_base: usize,
    ) -> (r: Self)
        requires
            config.columns@.len() > 0,
        ensures
            r@ == FlowState::<'doc>::started(
                *config,
                continuation_view(continuation),
                bounds,
                logical_page_base,
            ),
            r@.current_col < config.columns@.len(),
    {
        let ghost given = continuation_view(continuation);
        let mut r: PageLayoutState<'doc> = PageLayoutState {
            pages: Vec::new(),
            current_page: LayoutedPage::new(config.page_size),
            cursor_y: bounds.top,
            page_index: 0,
            logical_page_base,
            page_top: bounds.top,
            current_col: 0,
            column_top: bounds.top,
            bottom: bounds.bottom,
            page_footnotes: Vec::new(),
            first_on_section_page: true,
            previous: PreviousParagraph::none(),
            prev_borders: None,
            page_floats: Vec::new(),
            current_page_abs_floats: Vec::new(),
            page_absolute_exclusions: Vec::new(),
            column_reactivation_unsafe: false,
            abs_floats_dirty: true,
            page_start_block: 0,
            prev_table_style_id: None,
            pending_page_break: false,
        };
        assert(r@ =~= FlowState::<'doc>::started(*config, None, bounds, logical_page_base));
        if let Some(c) = continuation {
            let same = c.page_size == config.page_size && c.page_top == bounds.top && c.body_bottom
                == bounds.bottom && columns_are_same(&c.columns, &config.columns);
            if same {
                let last: usize = config.columns.len() - 1;
                r.cursor_y = c.cursor_y;
                r.page_top = c.page_top;
                r.current_col = if c.current_col <= last {
                    c.current_col
                } else {
                    last
                };
                r.column_top = c.column_top;
            } else {
                let top = c.cursor_y.max(bounds.top);
                r.cursor_y = top;
                r.column_top = top;
            }
            r.bottom = c.bottom.min(bounds.bottom);
            r.current_page = c.page;
            r.page_floats = c.page_floats;
            r.page_absolute_exclusions = c.page_absolute_exclusions;
            r.column_reactivation_unsafe = c.column_reactivation_unsafe;
            assert(r@ =~= FlowState::<'doc>::started(*config, given, bounds, logical_page_base));
        }
        r
    }

    /// The parity of the number of the page.
    pub fn parity(&self) -> (r: PageParity)
        ensures
            r == self@.parity(),
    {
        PageParity::of_page(self.logical_page_base.saturating_add(self.page_index))
    }

    /// Whether the cursor stands at the top of a column of full height.
    pub fn at_full_column_top(&self) -> (r: bool)
        ensures
            r == self@.at_full_column_top(),
    {
        self.cursor_y.units <= self.column_top.units && self.column_top.units <= self.page_top.units
    }

    /// Draw the footnotes of the page.
    pub fn flush_footnotes(&mut self, ctx: &LayoutCtx<'_>)
        ensures
            final(self)@ == old(self)@.flushed(*ctx),
    {
        let ghost before = self@;
        if self.page_footnotes.len() != 0 {
            let bottom = ctx.page_bounds(self.page_index).bottom;
            render_page_footnotes(&mut self.current_page, ctx, &self.page_footnotes, bottom);
            self.page_footnotes.clear();
            assert(self@ =~= before.flushed(*ctx));
        }
    }

    /// End the page and begin a new one, for block `block_idx`.
    ///
    /// The space left over from the paragraph before is kept.
    pub fn push_new_page(&mut self, block_idx: usize, ctx: &LayoutCtx<'_>)
        ensures
            final(self)@ == old(self)@.on_new_page(block_idx, *ctx),
    {
        let ghost before = self@;
        self.flush_footnotes(ctx);
        let ghost flushed = self@;
        let mut page = LayoutedPage::new(ctx.config.page_size);
        std::mem::swap(&mut self.current_page, &mut page);
        self.pages.push(page);
        assert(pages_view(self.pages@) =~= flushed.pages.push(flushed.page));
        self.page_index = self.page_index.saturating_add(1);
        let bounds = ctx.page_bounds(self.page_index);
        self.page_top = bounds.top;
        self.cursor_y = bounds.top;
        self.column_top = bounds.top;
        self.current_col = 0;
        self.bottom = bounds.bottom;
        self.page_start_block = block_idx;
        self.abs_floats_dirty = true;
        self.page_floats.clear();
        self.page_absolute_exclusions.clear();
        self.column_reactivation_unsafe = false;
        assert(self@ =~= before.on_new_page(block_idx, *ctx));
    }

    /// Forget the space left over from the paragraph before.
    pub fn forget_space(&mut self)
        ensures
            final(self)@ == old(self)@.without_space(),
    {
        self.previous.space_after = Pt::zero();
        assert(self@ =~= old(self)@.without_space());
    }

    /// End the section. With `preserve_continuation`, its last page is handed on to
    /// the next section as it stands.
    pub fn finalize(self, ctx: &LayoutCtx<'_>, preserve_continuation: bool) -> (r:
        SectionLayoutResult)
        ensures
            r@ == self@.finished(*ctx, preserve_continuation),
    {
        let mut state = self;
        state.flush_footnotes(ctx);
        let ghost done = state@;
        if preserve_continuation {
            let body_bottom = ctx.page_bounds(state.page_index).bottom;
            let r = SectionLayoutResult {
                pages: state.pages,
                continuation: Some(
                    ContinuationState {
                        page: state.current_page,
                        cursor_y: state.cursor_y,
                        page_size: ctx.config.page_size,
                        page_top: state.page_top,
                        body_bottom,
                        columns: copy_columns(&ctx.config.columns),
                        current_col: state.current_col,
                        column_top: state.column_top,
                        bottom: state.bottom,
                        page_floats: state.page_floats,
                        page_absolute_exclusions: state.page_absolute_exclusions,
                        column_reactivation_unsafe: state.column_reactivation_unsafe,
                    },
                ),
            };
            assert(r@ =~= self@.finished(*ctx, preserve_continuation));
            r
        } else {
            let mut pages = state.pages;
            pages.push(state.current_page);
            assert(pages_view(pages@) =~= done.pages.push(done.page));
            SectionLayoutResult { pages, continuation: None }
        }
    }
}

/// A section that hands on its last page keeps where it stood: a section of the same
/// geometry that goes on with the page goes on at the same place, in the same column.
pub proof fn law_same_geometry_goes_on_in_place<'doc>(
    state: FlowState<'doc>,
    ctx: LayoutCtx<'_>,
    next_clearance: HeaderFooterClearance,
    next_base: usize,
)
    requires
        state.current_col < ctx.config.columns@.len(),
        next_clearance.for_page(0).top == state.page_top,
        next_clearance.for_page(0).bottom == ctx.page_bounds(state.page_index).bottom,
    ensures
        ({
            let next = FlowState::<'doc>::started(
                *ctx.config,
                state.finished(ctx, true).continuation,
                next_clearance.for_page(0),
                next_base,
            );
            &&& next.cursor_y == state.cursor_y
            &&& next.current_col == state.current_col
            &&& next.column_top == state.column_top
            &&& next.page_top == state.page_top
            &&& next.page == state.flushed(ctx).page
            &&& next.page_floats == state.page_floats
            &&& next.exclusions == state.exclusions
        }),
{
}

} // verus!
