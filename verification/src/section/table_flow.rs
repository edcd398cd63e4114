//! Placing tables in a section.
use crate::block::{
    Alignment, LayoutBlock, TableAnchor, TableBorderConfig, TableFloatInfo, TableOverlap,
    TableRowInput,
};
use crate::dimension::{sum, sum_range, Pt};
use crate::draw_command::{append_shifted, shift_all};
use crate::float::{ActiveFloat, FloatSource, WrapTextSide};
use crate::section::keep_next::{
    measure_table_aware_keep_next_prefix, table_aware_prefix, table_aware_prefix_already_admitted,
    MeasureBox,
};
use crate::section::predicates::{
    any_footnotes, any_unsupported_float, blocks_have_footnotes, blocks_have_unsupported_float,
    page_heights_match, table_keep_next_sentinel, table_keeps_next,
};
use crate::section::state::{footnote_separator_gap, FlowState, LayoutCtx, PageLayoutState};
use crate::style::{PreviousParagraph, StyleId};
use crate::table::layout::{
    layout_table, layout_table_paginated_with_page_heights, paginated_table, table_slices_view,
    SliceView, TablePaginationHeights, TableSlice,
};
use crate::table::measure::{table_layout, TableFormat};
use crate::table::paginate::PageHeights;
use vstd::prelude::*;

verus! {

/// A table as it stands in a section.
#[derive(Clone, Copy, Debug)]
pub struct TableBlock<'doc> {
    pub rows: &'doc [TableRowInput],
    pub col_widths: &'doc [Pt],
    pub cell_spacing: Pt,
    pub borders: Option<TableBorderConfig>,
    pub indent: Pt,
    pub alignment: Option<Alignment>,
    pub style_id: Option<StyleId>,
}

/// The mathematical value of a [`TableBlock`].
#[verifier::ext_equal]
pub struct TableInFlow {
    pub rows: Seq<TableRowInput>,
    pub col_widths: Seq<Pt>,
    pub cell_spacing: Pt,
    pub borders: Option<TableBorderConfig>,
    pub indent: Pt,
    pub alignment: Option<Alignment>,
    pub style_id: Option<StyleId>,
}

impl<'doc> View for TableBlock<'doc> {
    type V = TableInFlow;

    open spec fn view(&self) -> TableInFlow {
        TableInFlow {
            rows: self.rows@,
            col_widths: self.col_widths@,
            cell_spacing: self.cell_spacing,
            borders: self.borders,
            indent: self.indent,
            alignment: self.alignment,
            style_id: self.style_id,
        }
    }
}

impl TableInFlow {
    /// The table's formatting.
    pub open spec fn format(self, default_line_height: Pt, suppress_first_row_top: bool) -> TableFormat {
        TableFormat {
            col_widths: self.col_widths,
            cell_spacing: self.cell_spacing,
            default_line_height,
            borders: self.borders,
            suppress_first_row_top,
        }
    }
}

/// The left edge of a table that stands in a box: indented, centred, or at the right.
#[verifier::allow_in_spec]
pub fn table_x_offset(
    alignment: Option<Alignment>,
    indent: Pt,
    table_width: Pt,
    box_width: Pt,
    box_x: Pt,
) -> Pt
    returns
        (match alignment {
            Some(Alignment::Center) => box_x.plus(box_width.minus(table_width).half()),
            Some(Alignment::Right) => box_x.plus(box_width).minus(table_width),
            _ => box_x.plus(indent),
        }),
{
    match alignment {
        Some(Alignment::Center) => box_x.plus(box_width.minus(table_width).half()),
        Some(Alignment::Right) => box_x.plus(box_width).minus(table_width),
        _ => box_x.plus(indent),
    }
}

/// The left edge of a floating table.
#[verifier::allow_in_spec]
pub fn floating_table_x(
    x_align: Option<Alignment>,
    alignment: Option<Alignment>,
    indent: Pt,
    table_width: Pt,
    content_width: Pt,
    left: Pt,
) -> Pt
    returns
        (match x_align {
            Some(Alignment::Center) => left.plus(content_width.minus(table_width).half()),
            Some(Alignment::Right) => left.plus(content_width).minus(table_width),
            _ => table_x_offset(alignment, indent, table_width, content_width, left),
        }),
{
    match x_align {
        Some(Alignment::Center) => left.plus(content_width.minus(table_width).half()),
        Some(Alignment::Right) => left.plus(content_width).minus(table_width),
        _ => table_x_offset(alignment, indent, table_width, content_width, left),
    }
}

/// Where a floating table goes that may not cover another one.
#[derive(Clone, Copy, Debug, PartialEq, Eq, Structural)]
pub enum FloatingTableAnchor {
    /// It stands where it asks to.
    OnCurrentPage(Pt),
    /// It stands below the tables in its way.
    Shifted { from: Pt, to: Pt },
    /// There is no room below the tables in its way.
    Spillover,
}

/// Whether a floating table of height `h` at `y` would cover `f`.
pub open spec fn would_cover(f: ActiveFloat, y: Pt, h: Pt) -> bool {
    f.source is Table && f.page_y_start.units < y.plus(h).units && y.units < f.page_y_end.units
}

/// `y` moved below each table from `k` on that it meets in turn.
pub open spec fn below_tables_pass(floats: Seq<ActiveFloat>, k: int, y: Pt, h: Pt) -> Pt
    decreases floats.len() - k,
{
    if k < 0 || k >= floats.len() {
        y
    } else {
        below_tables_pass(
            floats,
            k + 1,
            if would_cover(floats[k], y, h) {
                floats[k].page_y_end
            } else {
                y
            },
            h,
        )
    }
}

/// The first of at most `rounds` passes over the tables that moves nothing.
pub open spec fn below_tables(floats: Seq<ActiveFloat>, rounds: int, y: Pt, h: Pt) -> Pt
    decreases rounds,
{
    if rounds <= 0 {
        y
    } else {
        let next = below_tables_pass(floats, 0, y, h);
        if next == y {
            y
        } else {
            below_tables(floats, rounds - 1, next, h)
        }
    }
}

/// Where a floating table goes.
pub open spec fn floating_anchor(
    requested: Pt,
    height: Pt,
    overlap: Option<TableOverlap>,
    floats: Seq<ActiveFloat>,
    bottom: Pt,
) -> FloatingTableAnchor {
    if overlap != Some(TableOverlap::Never) {
        FloatingTableAnchor::OnCurrentPage(requested)
    } else {
        let y = below_tables(floats, floats.len() as int, requested, height);
        if y == requested {
            FloatingTableAnchor::OnCurrentPage(requested)
        } else if y.plus(height).units > bottom.units {
            FloatingTableAnchor::Spillover
        } else {
            FloatingTableAnchor::Shifted { from: requested, to: y }
        }
    }
}

/// Find where a floating table goes that asks to stand at `requested`.
pub fn resolve_floating_anchor(
    requested: Pt,
    height: Pt,
    overlap: Option<TableOverlap>,
    floats: &Vec<ActiveFloat>,
    bottom: Pt,
) -> (r: FloatingTableAnchor)
    ensures
        r == floating_anchor(requested, height, overlap, floats@, bottom),
{
    if overlap != Some(TableOverlap::Never) {
        return FloatingTableAnchor::OnCurrentPage(requested);
    }
    let mut rounds: usize = floats.len();
    let mut y = requested;
    let mut moving = true;
    while rounds > 0 && moving
        invariant
            rounds <= floats@.len(),
            moving ==> below_tables(floats@, rounds as int, y, height) == below_tables(
                floats@,
                floats@.len() as int,
                requested,
                height,
            ),
            !moving ==> y == below_tables(
                floats@,
                floats@.len() as int,
                requested,
                height,
            ),
        decreases rounds,
    {
        let mut next = y;
        let mut k: usize = 0;
        while k < floats.len()
            invariant
                k <= floats@.len(),
                below_tables_pass(floats@, k as int, next, height) == below_tables_pass(
                    floats@,
                    0,
                    y,
                    height,
                ),
            decreases floats@.len() - k,
        {
            let f = &floats[k];
            let is_table = matches!(f.source, FloatSource::Table { .. });
            if is_table && f.page_y_start.units < next.plus(height).units && next.units
                < f.page_y_end.units {
                next = f.page_y_end;
            }
            k += 1;
        }
        if next == y {
            moving = false;
        } else {
            y = next;
        }
        rounds -= 1;
    }
    if y == requested {
        FloatingTableAnchor::OnCurrentPage(requested)
    } else if y.plus(height).units > bottom.units {
        FloatingTableAnchor::Spillover
    } else {
        FloatingTableAnchor::Shifted { from: requested, to: y }
    }
}

impl<'doc> FlowState<'doc> {
    /// Where on the page a floating table asks to stand; never above the cursor.
    pub open spec fn requested_table_y(self, info: TableFloatInfo) -> Pt {
        if info.y_offset.units > 0 {
            (match info.vert_anchor {
                TableAnchor::Text => self.cursor_y.plus(info.y_offset),
                TableAnchor::Margin => self.page_top.plus(info.y_offset),
                TableAnchor::Page => info.y_offset,
            }).max(self.cursor_y)
        } else {
            self.cursor_y
        }
    }

    /// The state and the height on the page at which a floating table of height `height`
    /// starts: on a new page if there is no room below the tables in its way.
    pub open spec fn table_anchored(
        self,
        ctx: LayoutCtx<'_>,
        block_idx: usize,
        info: TableFloatInfo,
        height: Pt,
    ) -> (FlowState<'doc>, Pt) {
        match floating_anchor(
            self.requested_table_y(info),
            height,
            info.overlap,
            self.page_floats,
            self.bottom,
        ) {
            FloatingTableAnchor::OnCurrentPage(y) => (self, y),
            FloatingTableAnchor::Shifted { from, to } => (self, to),
            FloatingTableAnchor::Spillover => {
                let next = self.on_new_page(block_idx, ctx).without_space();
                (next, next.requested_table_y(info))
            },
        }
    }

    /// With a part of a table drawn at `(x, y)`, and room reserved for its footnotes.
    pub open spec fn with_slice(
        self,
        ctx: LayoutCtx<'_>,
        slice: SliceView<'doc>,
        x: Pt,
        y: Pt,
    ) -> FlowState<'doc> {
        self.drawn(shift_all(slice.commands, x, y)).with_reserved_refs(ctx, slice.footnotes, 0)
    }

    /// With the parts of a floating table from `i` on placed: the first one where the table
    /// is anchored, the others at the top of further pages. Text keeps clear of each.
    pub open spec fn with_floating_slices(
        self,
        ctx: LayoutCtx<'_>,
        block_idx: usize,
        slices: Seq<SliceView<'doc>>,
        i: int,
        x: Pt,
        start_y: Pt,
        float_width: Pt,
    ) -> FlowState<'doc>
        decreases slices.len() - i,
    {
        if i < 0 || i >= slices.len() {
            self
        } else {
            let at = if i > 0 {
                self.on_new_page(block_idx, ctx).without_space()
            } else {
                self
            };
            let y = if i > 0 {
                at.page_top
            } else {
                start_y
            };
            let drawn = at.with_slice(ctx, slices[i], x, y);
            (FlowState {
                page_floats: drawn.page_floats.push(
                    ActiveFloat {
                        page_x: x,
                        page_y_start: y,
                        page_y_end: y.plus(slices[i].size.height),
                        width: float_width,
                        source: FloatSource::Table { owner_block_idx: block_idx },
                        vertical_exclusion: false,
                        wrap_text: WrapTextSide::BothSides,
                    },
                ),
                column_reactivation_unsafe: true,
                ..drawn
            }).with_floating_slices(ctx, block_idx, slices, i + 1, x, start_y, float_width)
        }
    }

    /// With a floating table placed.
    pub open spec fn with_floating_table(
        self,
        ctx: LayoutCtx<'_>,
        block_idx: usize,
        table: TableInFlow,
        info: TableFloatInfo,
    ) -> FlowState<'doc> {
        let content_width = ctx.config.content_width();
        let whole = table_layout(table.rows, table.format(ctx.default_line_height, false));
        let x = floating_table_x(
            info.x_align,
            table.alignment,
            table.indent,
            whole.size.width,
            content_width,
            ctx.config.margins.left,
        );
        let (anchored, y) = self.table_anchored(ctx, block_idx, info, whole.size.height);
        let st = FlowState { prev_table_style_id: None, ..anchored };
        let slices = paginated_table(
            table.rows,
            table.format(ctx.default_line_height, false),
            TablePaginationHeights {
                available_height: st.bottom.minus(y).max(Pt::zero()),
                suppress_first_row_top: false,
                page_heights: PageHeights::Section {
                    clearance: ctx.clearance,
                    first_page: st.page_index,
                    first_slot: 0,
                    slots_per_page: 1,
                },
                footnote_width: Some(content_width),
                footnote_separator_height: footnote_separator_gap(),
                first_page_has_footnotes: st.footnotes.len() != 0,
            },
        );
        st.with_floating_slices(
            ctx,
            block_idx,
            slices,
            0,
            x,
            y,
            whole.size.width.plus(info.right_gap),
        )
    }

    /// Whether a table may go on in the next column of the page: nothing on the page can
    /// change under the columns before it, and all pages in question are equally high.
    pub open spec fn goes_on_in_columns(
        self,
        ctx: LayoutCtx<'_>,
        blocks: Seq<LayoutBlock>,
        block_idx: usize,
    ) -> bool {
        let here = ctx.page_bounds(self.page_index);
        let next = ctx.page_bounds(self.page_index.saturating_add(1));
        let after = ctx.page_bounds(self.page_index.saturating_add(2));
        ctx.config.columns@.len() > 1 && page_heights_match(self.column_top, self.page_top)
            && self.footnotes.len() == 0 && self.page_floats.len() == 0
            && !self.column_reactivation_unsafe && page_heights_match(self.bottom, here.bottom)
            && !any_unsupported_float(blocks, self.page_start_block as int) && !any_footnotes(
            blocks,
            block_idx as int,
        ) && page_heights_match(here.height(), next.height()) && page_heights_match(
            next.height(),
            after.height(),
        )
    }

    /// With the parts of a table from `i` on placed at the cursor: each further one in the next
    /// column, or at the top of the next page.
    pub open spec fn with_table_slices(
        self,
        ctx: LayoutCtx<'_>,
        block_idx: usize,
        table: TableInFlow,
        slices: Seq<SliceView<'doc>>,
        i: int,
        in_columns: bool,
    ) -> FlowState<'doc>
        decreases slices.len() - i,
    {
        if i < 0 || i >= slices.len() {
            self
        } else {
            let at = if i > 0 {
                if in_columns && self.current_col + 1 < ctx.config.columns@.len() {
                    FlowState {
                        current_col: (self.current_col + 1) as usize,
                        cursor_y: self.column_top,
                        ..self
                    }
                } else {
                    self.on_new_page(block_idx, ctx)
                }
            } else {
                self
            };
            let col = at.current_col as int;
            let x = table_x_offset(
                table.alignment,
                table.indent,
                sum(table.col_widths),
                ctx.config.columns@[col].width,
                ctx.config.col_x(col),
            );
            let drawn = at.drawn(shift_all(slices[i].commands, x, at.cursor_y));
            (FlowState {
                cursor_y: drawn.cursor_y.plus(slices[i].size.height),
                ..drawn
            }).with_reserved_refs(ctx, slices[i].footnotes, 0).with_table_slices(
                ctx,
                block_idx,
                table,
                slices,
                i + 1,
                in_columns,
            )
        }
    }

    /// With the page turned before a table that stays with the block after it, where they fit
    /// together on a new page and not on this one; and the block up to which blocks have
    /// been moved together.
    pub open spec fn moved_for_table(
        self,
        ctx: LayoutCtx<'_>,
        blocks: Seq<LayoutBlock>,
        block_idx: usize,
        admitted: usize,
    ) -> (FlowState<'doc>, usize) {
        if ctx.config.columns@.len() != 1 || table_aware_prefix_already_admitted(
            block_idx,
            admitted,
        ) || !table_keeps_next(blocks[block_idx as int]) || self.page_floats.len() != 0 {
            (self, admitted)
        } else {
            let at = MeasureBox {
                width: ctx.config.columns@[self.current_col as int].width,
                max_height: self.body_height(),
                default_line_height: ctx.default_line_height,
            };
            let full = ctx.page_bounds(self.page_index.saturating_add(1)).height();
            match table_aware_prefix(blocks, block_idx as int, at, full, None, None) {
                None => (self, admitted),
                Some(fresh) => match table_aware_prefix(
                    blocks,
                    block_idx as int,
                    at,
                    Pt::infinity(),
                    self.prev_table_style_id,
                    Some(fresh.end_exclusive),
                ) {
                    None => (self, admitted),
                    Some(current) => if fresh.group.total_height(false).units <= full.units
                        && current.group.total_height(self.footnotes.len() != 0).units
                        > self.bottom.minus(self.cursor_y).units && !self.at_full_column_top() {
                        (
                            self.on_new_page(block_idx, ctx).without_space(),
                            if admitted >= fresh.end_exclusive {
                                admitted
                            } else {
                                fresh.end_exclusive
                            },
                        )
                    } else {
                        (self, admitted)
                    },
                },
            }
        }
    }

    /// With a table placed in the text; and the block up to which blocks have been moved
    /// together.
    ///
    /// A table right below one of the same style leaves out its top border.
    pub open spec fn with_inline_table(
        self,
        ctx: LayoutCtx<'_>,
        blocks: Seq<LayoutBlock>,
        block_idx: usize,
        table: TableInFlow,
        admitted: usize,
    ) -> (FlowState<'doc>, usize) {
        let (moved, next_admitted) = self.moved_for_table(ctx, blocks, block_idx, admitted);
        let suppress_top = moved.pages.len() == self.pages.len() && table.style_id is Some
            && table.style_id == moved.prev_table_style_id;
        let st = moved.pruned();
        let in_columns = st.goes_on_in_columns(ctx, blocks, block_idx);
        let slices = paginated_table(
            table.rows,
            table.format(ctx.default_line_height, suppress_top),
            TablePaginationHeights {
                available_height: st.bottom.minus(st.cursor_y),
                suppress_first_row_top: suppress_top,
                page_heights: PageHeights::Section {
                    clearance: ctx.clearance,
                    first_page: st.page_index,
                    first_slot: if in_columns {
                        st.current_col
                    } else {
                        0
                    },
                    slots_per_page: if in_columns {
                        ctx.config.columns@.len() as usize
                    } else {
                        1
                    },
                },
                footnote_width: Some(ctx.config.content_width()),
                footnote_separator_height: footnote_separator_gap(),
                first_page_has_footnotes: st.footnotes.len() != 0,
            },
        );
        let placed = st.with_table_slices(ctx, block_idx, table, slices, 0, in_columns);
        (
            FlowState {
                first_on_section_page: false,
                prev_borders: None,
                previous: PreviousParagraph::none(),
                prev_table_style_id: table.style_id,
                ..placed
            },
            next_admitted,
        )
    }
}

impl<'doc> PageLayoutState<'doc> {
    fn request_table_y(&self, info: &TableFloatInfo) -> (r: Pt)
        ensures
            r == self@.requested_table_y(*info),
    {
        if info.y_offset.units > 0 {
            let anchor = match info.vert_anchor {
                TableAnchor::Text => self.cursor_y.plus(info.y_offset),
                TableAnchor::Margin => self.page_top.plus(info.y_offset),
                TableAnchor::Page => info.y_offset,
            };
            anchor.max(self.cursor_y)
        } else {
            self.cursor_y
        }
    }

    fn anchor_table(
        &mut self,
        ctx: &LayoutCtx<'_>,
        block_idx: usize,
        info: &TableFloatInfo,
        height: Pt,
    ) -> (r: Pt)
        requires
            old(self)@.current_col < ctx.config.columns@.len(),
        ensures
            (final(self)@, r) == old(self)@.table_anchored(*ctx, block_idx, *info, height),
            final(self)@.current_col < ctx.config.columns@.len(),
    {
        let requested = self.request_table_y(info);
        match resolve_floating_anchor(
            requested,
            height,
            info.overlap,
            &self.page_floats,
            self.bottom,
        ) {
            FloatingTableAnchor::OnCurrentPage(y) => y,
            FloatingTableAnchor::Shifted { from, to } => to,
            FloatingTableAnchor::Spillover => {
                self.push_new_page(block_idx, ctx);
                self.forget_space();
                self.request_table_y(info)
            },
        }
    }

    fn draw_slice(&mut self, slice: &TableSlice<'doc>, x: Pt, y: Pt)
        ensures
            final(self)@ == old(self)@.drawn(shift_all(slice@.commands, x, y)),
    {
        append_shifted(
            &mut self.current_page.commands,
            slice.commands.as_slice(),
            0,
            slice.commands.len(),
            x,
            y,
        );
        assert(slice.commands@.subrange(0, slice.commands@.len() as int) =~= slice.commands@);
        assert(self@.page =~= old(self)@.drawn(shift_all(slice@.commands, x, y)).page);
        assert(self@ =~= old(self)@.drawn(shift_all(slice@.commands, x, y)));
    }

    fn place_floating_slices(
        &mut self,
        ctx: &LayoutCtx<'_>,
        block_idx: usize,
        slices: &Vec<TableSlice<'doc>>,
        x: Pt,
        start_y: Pt,
        float_width: Pt,
    )
        requires
            old(self)@.current_col < ctx.config.columns@.len(),
        ensures
            final(self)@ == old(self)@.with_floating_slices(
                *ctx,
                block_idx,
                table_slices_view(slices@),
                0,
                x,
                start_y,
                float_width,
            ),
            final(self)@.current_col < ctx.config.columns@.len(),
    {
        let ghost all = table_slices_view(slices@);
        let mut i: usize = 0;
        while i < slices.len()
            invariant
                i <= slices@.len(),
                all == table_slices_view(slices@),
                self@.current_col < ctx.config.columns@.len(),
                self@.with_floating_slices(
                    *ctx,
                    block_idx,
                    all,
                    i as int,
                    x,
                    start_y,
                    float_width,
                ) == old(self)@.with_floating_slices(
                    *ctx,
                    block_idx,
                    all,
                    0,
                    x,
                    start_y,
                    float_width,
                ),
            decreases slices@.len() - i,
        {
            if i > 0 {
                self.push_new_page(block_idx, ctx);
                self.forget_space();
            }
            let y = if i > 0 {
                self.page_top
            } else {
                start_y
            };
            let slice = &slices[i];
            assert(all[i as int] == slice@);
            self.draw_slice(slice, x, y);
            self.reserve_owned_footnotes(ctx, &slice.footnotes);
            let ghost drawn = self@;
            let f = ActiveFloat {
                page_x: x,
                page_y_start: y,
                page_y_end: y.plus(slice.size.height),
                width: float_width,
                source: FloatSource::Table { owner_block_idx: block_idx },
                vertical_exclusion: false,
                wrap_text: WrapTextSide::BothSides,
            };
            self.page_floats.push(f);
            self.column_reactivation_unsafe = true;
            assert(self@ =~= (FlowState {
                page_floats: drawn.page_floats.push(f),
                column_reactivation_unsafe: true,
                ..drawn
            }));
            i += 1;
        }
    }

    /// Place a floating table.
    pub fn place_floating_table(
        &mut self,
        ctx: &LayoutCtx<'_>,
        block_idx: usize,
        table: &TableBlock<'doc>,
        info: &TableFloatInfo,
    )
        requires
            old(self)@.current_col < ctx.config.columns@.len(),
        ensures
            final(self)@ == old(self)@.with_floating_table(*ctx, block_idx, table@, *info),
            final(self)@.current_col < ctx.config.columns@.len(),
    {
        let content_width = ctx.config.content_width();
        let whole = layout_table(
            table.rows,
            table.col_widths,
            table.cell_spacing,
            ctx.default_line_height,
            table.borders,
            false,
        );
        let x = floating_table_x(
            info.x_align,
            table.alignment,
            table.indent,
            whole.size.width,
            content_width,
            ctx.config.margins.left,
        );
        let y = self.anchor_table(ctx, block_idx, info, whole.size.height);
        let ghost anchored = self@;
        self.prev_table_style_id = None;
        assert(self@ =~= (FlowState { prev_table_style_id: None, ..anchored }));
        let slices = layout_table_paginated_with_page_heights(
            table.rows,
            table.col_widths,
            table.cell_spacing,
            ctx.default_line_height,
            table.borders,
            &TablePaginationHeights {
                available_height: self.bottom.minus(y).max(Pt::zero()),
                suppress_first_row_top: false,
                page_heights: PageHeights::Section {
                    clearance: ctx.clearance,
                    first_page: self.page_index,
                    first_slot: 0,
                    slots_per_page: 1,
                },
                footnote_width: Some(content_width),
                footnote_separator_height: footnote_separator_gap(),
                first_page_has_footnotes: self.page_footnotes.len() != 0,
            },
        );
        self.place_floating_slices(
            ctx,
            block_idx,
            &slices,
            x,
            y,
            whole.size.width.plus(info.right_gap),
        );
    }

    fn can_go_on_in_columns(
        &self,
        ctx: &LayoutCtx<'_>,
        blocks: &[LayoutBlock],
        block_idx: usize,
    ) -> (r: bool)
        ensures
            r == self@.goes_on_in_columns(*ctx, blocks@, block_idx),
    {
        let here = ctx.page_bounds(self.page_index);
        let next = ctx.page_bounds(self.page_index.saturating_add(1));
        let after = ctx.page_bounds(self.page_index.saturating_add(2));
        ctx.config.num_columns() > 1 && page_heights_match(self.column_top, self.page_top)
            && self.page_footnotes.len() == 0 && self.page_floats.len() == 0
            && !self.column_reactivation_unsafe && page_heights_match(self.bottom, here.bottom)
            && !blocks_have_unsupported_float(blocks, self.page_start_block)
            && !blocks_have_footnotes(blocks, block_idx) && page_heights_match(
            here.height(),
            next.height(),
        ) && page_heights_match(next.height(), after.height())
    }

    fn place_table_slices(
        &mut self,
        ctx: &LayoutCtx<'_>,
        block_idx: usize,
        table: &TableBlock<'doc>,
        slices: &Vec<TableSlice<'doc>>,
        in_columns: bool,
    )
        requires
            old(self)@.current_col < ctx.config.columns@.len(),
        ensures
            final(self)@ == old(self)@.with_table_slices(
                *ctx,
                block_idx,
                table@,
                table_slices_view(slices@),
                0,
                in_columns,
            ),
            final(self)@.current_col < ctx.config.columns@.len(),
    {
        let ghost all = table_slices_view(slices@);
        let columns: usize = ctx.config.num_columns();
        let table_width = sum_range(table.col_widths, 0, table.col_widths.len());
        assert(table.col_widths@.subrange(0, table.col_widths@.len() as int)
            =~= table.col_widths@);
        let mut i: usize = 0;
        while i < slices.len()
            invariant
                i <= slices@.len(),
                all == table_slices_view(slices@),
                columns == ctx.config.columns@.len(),
                table_width == sum(table.col_widths@),
                self@.current_col < columns,
                self@.with_table_slices(*ctx, block_idx, table@, all, i as int, in_columns)
                    == old(self)@.with_table_slices(*ctx, block_idx, table@, all, 0, in_columns),
            decreases slices@.len() - i,
        {
            let ghost before = self@;
            if i > 0 {
                if in_columns && self.current_col + 1 < columns {
                    self.current_col = self.current_col + 1;
                    self.cursor_y = self.column_top;
                    assert(self@ =~= (FlowState {
                        current_col: (before.current_col + 1) as usize,
                        cursor_y: before.column_top,
                        ..before
                    }));
                } else {
                    self.push_new_page(block_idx, ctx);
                }
            }
            let col: usize = self.current_col;
            let x = table_x_offset(
                table.alignment,
                table.indent,
                table_width,
                ctx.config.columns[col].width,
                ctx.config.column_x(col),
            );
            let slice = &slices[i];
            assert(all[i as int] == slice@);
            let y = self.cursor_y;
            self.draw_slice(slice, x, y);
            let ghost drawn = self@;
            self.cursor_y = y.plus(slice.size.height);
            assert(self@ =~= (FlowState {
                cursor_y: drawn.cursor_y.plus(slice.size.height),
                ..drawn
            }));
            self.reserve_owned_footnotes(ctx, &slice.footnotes);
            i += 1;
        }
    }

    /// Turn the page before a table that stays with the block after it, where they fit together
    /// on a new page and not on this one. Returns whether it did.
    fn move_for_table(
        &mut self,
        ctx: &LayoutCtx<'_>,
        blocks: &[LayoutBlock],
        block_idx: usize,
        admitted: &mut usize,
    ) -> (r: bool)
        requires
            old(self)@.current_col < ctx.config.columns@.len(),
            block_idx < blocks@.len(),
        ensures
            (final(self)@, *final(admitted)) == old(self)@.moved_for_table(
                *ctx,
                blocks@,
                block_idx,
                *old(admitted),
            ),
            r == (final(self)@.pages.len() != old(self)@.pages.len()),
            final(self)@.current_col < ctx.config.columns@.len(),
    {
        if ctx.config.num_columns() != 1 || table_aware_prefix_already_admitted(
            block_idx,
            *admitted,
        ) || !table_keep_next_sentinel(&blocks[block_idx]) || self.page_floats.len() != 0 {
            return false;
        }
        let at = MeasureBox {
            width: ctx.config.columns[self.current_col].width,
            max_height: self.bottom.minus(self.page_top).max(Pt::zero()),
            default_line_height: ctx.default_line_height,
        };
        let full = ctx.page_bounds(self.page_index.saturating_add(1)).height();
        let fresh = match measure_table_aware_keep_next_prefix(
            blocks,
            block_idx,
            at,
            full,
            None,
            None,
        ) {
            Some(prefix) => prefix,
            None => {
                return false;
            },
        };
        let current = match measure_table_aware_keep_next_prefix(
            blocks,
            block_idx,
            at,
            Pt::infinity(),
            self.prev_table_style_id,
            Some(fresh.end_exclusive),
        ) {
            Some(prefix) => prefix,
            None => {
                return false;
            },
        };
        if fresh.group.total_height(false).units <= full.units && current.group.total_height(
            self.page_footnotes.len() != 0,
        ).units > self.bottom.minus(self.cursor_y).units && !self.at_full_column_top() {
            self.push_new_page(block_idx, ctx);
            self.forget_space();
            if *admitted < fresh.end_exclusive {
                *admitted = fresh.end_exclusive;
            }
            true
        } else {
            false
        }
    }

    /// Place a table in the text.
    pub fn place_inline_table(
        &mut self,
        ctx: &LayoutCtx<'_>,
        blocks: &[LayoutBlock],
        block_idx: usize,
        table: &TableBlock<'doc>,
        admitted: &mut usize,
    )
        requires
            old(self)@.current_col < ctx.config.columns@.len(),
            block_idx < blocks@.len(),
        ensures
            (final(self)@, *final(admitted)) == old(self)@.with_inline_table(
                *ctx,
                blocks@,
                block_idx,
                table@,
                *old(admitted),
            ),
            final(self)@.current_col < ctx.config.columns@.len(),
    {
        let moved = self.move_for_table(ctx, blocks, block_idx, admitted);
        let suppress_top = !moved && table.style_id.is_some() && table.style_id
            == self.prev_table_style_id;
        self.prune();
        let in_columns = self.can_go_on_in_columns(ctx, blocks, block_idx);
        let slices = layout_table_paginated_with_page_heights(
            table.rows,
            table.col_widths,
            table.cell_spacing,
            ctx.default_line_height,
            table.borders,
            &TablePaginationHeights {
                available_height: self.bottom.minus(self.cursor_y),
                suppress_first_row_top: suppress_top,
                page_heights: PageHeights::Section {
                    clearance: ctx.clearance,
                    first_page: self.page_index,
                    first_slot: if in_columns {
                        self.current_col
                    } else {
                        0
                    },
                    slots_per_page: if in_columns {
                        ctx.config.num_columns()
                    } else {
                        1
                    },
                },
                footnote_width: Some(ctx.config.content_width()),
                footnote_separator_height: footnote_separator_gap(),
                first_page_has_footnotes: self.page_footnotes.len() != 0,
            },
        );
        self.place_table_slices(ctx, block_idx, table, &slices, in_columns);
        let ghost placed = self@;
        self.first_on_section_page = false;
        self.prev_borders = None;
        self.previous = PreviousParagraph::none();
        self.prev_table_style_id = table.style_id;
        assert(self@ =~= (FlowState {
            first_on_section_page: false,
            prev_borders: None,
            previous: PreviousParagraph::none(),
            prev_table_style_id: table.style_id,
            ..placed
        }));
    }
}

} // verus!
