//! Keeping paragraphs with the blocks after them.
use crate::block::LayoutBlock;
use crate::dimension::Pt;
use crate::section::keep_next::{
    fresh_overlap, fresh_page_spacing_overlap, keep_next_group, leading_is_splittable,
    leading_keep_next_paragraph_splittable, measure_keep_next_group,
    measure_table_aware_keep_next_prefix, table_aware_prefix, table_aware_prefix_already_admitted,
    terminal_is_splittable, terminal_keep_next_paragraph_splittable_here, MeasureBox,
};
use crate::section::predicates::{
    keep_next_terminal_table, starts_chain, starts_keep_next_chain, terminal_table,
};
use crate::section::state::{FlowState, LayoutCtx, PageLayoutState};
use crate::style::ParagraphStyle;
use crate::table::layout::{leading_group_height, measure_leading_table_group_height};
use crate::table::measure::TableFormat;
use vstd::prelude::*;

verus! {

/// The column that the blocks of a chain are measured in.
pub open spec fn chain_box(st: FlowState<'_>, ctx: LayoutCtx<'_>) -> MeasureBox {
    MeasureBox {
        width: ctx.config.columns@[st.current_col as int].width,
        max_height: st.body_height(),
        default_line_height: ctx.default_line_height,
    }
}

/// Whether a chain that may have to stay together starts at the block: in a single column and
/// with no floats on the page.
pub open spec fn considers_chain(
    st: FlowState<'_>,
    ctx: LayoutCtx<'_>,
    blocks: Seq<LayoutBlock>,
    block_idx: usize,
    admitted: usize,
) -> bool {
    ctx.config.columns@.len() == 1 && !table_aware_prefix_already_admitted(block_idx, admitted)
        && starts_chain(blocks, block_idx as int) && st.page_floats.len() == 0
}

/// The height of the next page.
pub open spec fn next_page_height(st: FlowState<'_>, ctx: LayoutCtx<'_>) -> Pt {
    ctx.page_bounds(st.page_index.saturating_add(1)).height()
}

/// Where a chain starts on the page.
pub open spec fn chain_top(st: FlowState<'_>, style: ParagraphStyle) -> Pt {
    st.cursor_y.minus(st.previous.overlap(&style))
}

/// What is decided of a chain with a table in it: whether it moves to the next page, and where it
/// ends; none where there is no such chain.
pub open spec fn table_chain_decision(
    st: FlowState<'_>,
    ctx: LayoutCtx<'_>,
    blocks: Seq<LayoutBlock>,
    block_idx: usize,
    style: ParagraphStyle,
) -> Option<(bool, usize)> {
    let i = block_idx as int;
    let at = chain_box(st, ctx);
    let full = next_page_height(st, ctx);
    let overlap = fresh_overlap(blocks[i], st.previous);
    match table_aware_prefix(blocks, i, at, full.plus(overlap), None, None) {
        None => None,
        Some(fresh) => match table_aware_prefix(
            blocks,
            i,
            at,
            Pt::infinity(),
            st.prev_table_style_id,
            Some(fresh.end_exclusive),
        ) {
            None => None,
            Some(current) => Some(
                (
                    fresh.group.total_height(false).minus(overlap).units <= full.units
                        && current.group.total_height(st.footnotes.len() != 0).units
                        > st.bottom.minus(chain_top(st, style)).units
                        && !st.at_full_column_top(),
                    fresh.end_exclusive,
                ),
            ),
        },
    }
}

/// Whether a chain of paragraphs moves to the next page: it fits there and not here, and neither
/// its first nor its last paragraph can be divided here. A chain that ends with a table moves
/// where the table's first rows fit below it on the next page, and not here.
pub open spec fn chain_moves(
    st: FlowState<'_>,
    ctx: LayoutCtx<'_>,
    blocks: Seq<LayoutBlock>,
    block_idx: usize,
    style: ParagraphStyle,
) -> bool {
    let i = block_idx as int;
    let at = chain_box(st, ctx);
    match keep_next_group(blocks, i, at) {
        None => false,
        Some(group) => {
            let current_height = group.total_height(st.footnotes.len() != 0);
            let top = chain_top(st, style);
            let full = next_page_height(st, ctx);
            let fresh_height = group.total_height(false).minus(
                fresh_overlap(blocks[i], st.previous),
            );
            let available = st.bottom.minus(top);
            let moves = match chain_table_height(blocks, i, ctx.default_line_height) {
                Some(height) => match height {
                    Some(h) => h.units <= full.minus(fresh_height).units && h.units
                        > available.minus(current_height).units,
                    None => false,
                },
                None => fresh_height.units <= full.units && top.plus(current_height).units
                    > st.bottom.units && !leading_is_splittable(blocks[i], at)
                    && !terminal_is_splittable(blocks, i, available, at),
            };
            moves && !st.at_full_column_top()
        },
    }
}

/// The height of the first rows of the table that ends a chain, as far as it can be measured; none
/// where no table with rows ends the chain.
pub open spec fn chain_table_height(
    blocks: Seq<LayoutBlock>,
    i: int,
    default_line_height: Pt,
) -> Option<Option<Pt>> {
    match terminal_table(blocks, i, i) {
        None => None,
        Some(t) => match blocks[t] {
            LayoutBlock::Table { rows, col_widths, cell_spacing, border_config, .. } => if rows@.len()
                > 0 {
                Some(
                    leading_group_height(
                        rows@,
                        TableFormat {
                            col_widths: col_widths@,
                            cell_spacing,
                            default_line_height,
                            borders: border_config,
                            suppress_first_row_top: false,
                        },
                    ),
                )
            } else {
                None
            },
            _ => None,
        },
    }
}

impl<'doc> FlowState<'doc> {
    /// With the page turned before a chain that moves to the next page; and the block up to
    /// which blocks have been moved together.
    #[verifier::opaque]
    pub open spec fn moved_for_chain(
        self,
        ctx: LayoutCtx<'_>,
        blocks: Seq<LayoutBlock>,
        block_idx: usize,
        style: ParagraphStyle,
        admitted: usize,
    ) -> (FlowState<'doc>, usize) {
        if !considers_chain(self, ctx, blocks, block_idx, admitted) {
            (self, admitted)
        } else {
            let turned = self.on_new_page(block_idx, ctx).without_space();
            match table_chain_decision(self, ctx, blocks, block_idx, style) {
                Some((true, end)) => (
                    turned,
                    if admitted >= end {
                        admitted
                    } else {
                        end
                    },
                ),
                Some((false, _)) => (self, admitted),
                None => if chain_moves(self, ctx, blocks, block_idx, style) {
                    (turned, admitted)
                } else {
                    (self, admitted)
                },
            }
        }
    }
}

/// A chain of paragraphs leaves a page only for one that it fits on, and never a page that it would
/// begin: no page stays empty on its account.
pub proof fn law_a_chain_moves_to_where_it_fits(
    st: FlowState<'_>,
    ctx: LayoutCtx<'_>,
    blocks: Seq<LayoutBlock>,
    block_idx: usize,
    style: ParagraphStyle,
)
    requires
        chain_moves(st, ctx, blocks, block_idx, style),
        chain_table_height(blocks, block_idx as int, ctx.default_line_height) is None,
    ensures
        !st.at_full_column_top(),
        keep_next_group(blocks, block_idx as int, chain_box(st, ctx)) matches Some(group)
            && group.total_height(false).minus(
            fresh_overlap(blocks[block_idx as int], st.previous),
        ).units <= next_page_height(st, ctx).units,
{
}

/// Blocks that have been moved together are not moved again one by one.
pub proof fn law_blocks_are_moved_together_once<'doc>(
    st: FlowState<'doc>,
    ctx: LayoutCtx<'_>,
    blocks: Seq<LayoutBlock>,
    block_idx: usize,
    style: ParagraphStyle,
    admitted: usize,
)
    requires
        block_idx < admitted,
    ensures
        st.moved_for_chain(ctx, blocks, block_idx, style, admitted) == (st, admitted),
{
    reveal(FlowState::moved_for_chain);
}

fn decide_table_chain(
    state: &PageLayoutState<'_>,
    ctx: &LayoutCtx<'_>,
    blocks: &[LayoutBlock],
    block_idx: usize,
    style: &ParagraphStyle,
) -> (r: Option<(bool, usize)>)
    requires
        state@.current_col < ctx.config.columns@.len(),
        block_idx < blocks@.len(),
    ensures
        r == table_chain_decision(state@, *ctx, blocks@, block_idx, *style),
{
    let at = MeasureBox {
        width: ctx.config.columns[state.current_col].width,
        max_height: state.bottom.minus(state.page_top).max(Pt::zero()),
        default_line_height: ctx.default_line_height,
    };
    let full = ctx.page_bounds(state.page_index.saturating_add(1)).height();
    let overlap = fresh_page_spacing_overlap(&blocks[block_idx], state.previous);
    let fresh = match measure_table_aware_keep_next_prefix(
        blocks,
        block_idx,
        at,
        full.plus(overlap),
        None,
        None,
    ) {
        Some(prefix) => prefix,
        None => {
            return None;
        },
    };
    let current = match measure_table_aware_keep_next_prefix(
        blocks,
        block_idx,
        at,
        Pt::infinity(),
        state.prev_table_style_id,
        Some(fresh.end_exclusive),
    ) {
        Some(prefix) => prefix,
        None => {
            return None;
        },
    };
    let top = state.cursor_y.minus(state.previous.overlap(style));
    let moves = fresh.group.total_height(false).minus(overlap).units <= full.units
        && current.group.total_height(state.page_footnotes.len() != 0).units > state.bottom.minus(
        top,
    ).units && !state.at_full_column_top();
    Some((moves, fresh.end_exclusive))
}

fn find_chain_table_height(
    blocks: &[LayoutBlock],
    block_idx: usize,
    default_line_height: Pt,
) -> (r: Option<Option<Pt>>)
    ensures
        r == chain_table_height(blocks@, block_idx as int, default_line_height),
{
    match keep_next_terminal_table(blocks, block_idx) {
        None => None,
        Some(t) => match &blocks[t] {
            LayoutBlock::Table { rows, col_widths, cell_spacing, border_config, .. } => {
                if rows.len() > 0 {
                    Some(
                        measure_leading_table_group_height(
                            rows.as_slice(),
                            col_widths.as_slice(),
                            *cell_spacing,
                            default_line_height,
                            *border_config,
                            false,
                        ),
                    )
                } else {
                    None
                }
            },
            _ => None,
        },
    }
}

fn does_chain_move(
    state: &PageLayoutState<'_>,
    ctx: &LayoutCtx<'_>,
    blocks: &[LayoutBlock],
    block_idx: usize,
    style: &ParagraphStyle,
) -> (r: bool)
    requires
        state@.current_col < ctx.config.columns@.len(),
        block_idx < blocks@.len(),
    ensures
        r == chain_moves(state@, *ctx, blocks@, block_idx, *style),
{
    let at = MeasureBox {
        width: ctx.config.columns[state.current_col].width,
        max_height: state.bottom.minus(state.page_top).max(Pt::zero()),
        default_line_height: ctx.default_line_height,
    };
    let group = match measure_keep_next_group(blocks, block_idx, at) {
        Some(measured) => measured,
        None => {
            return false;
        },
    };
    let current_height = group.total_height(state.page_footnotes.len() != 0);
    let top = state.cursor_y.minus(state.previous.overlap(style));
    let full = ctx.page_bounds(state.page_index.saturating_add(1)).height();
    let fresh_height = group.total_height(false).minus(
        fresh_page_spacing_overlap(&blocks[block_idx], state.previous),
    );
    let available = state.bottom.minus(top);
    let moves = match find_chain_table_height(blocks, block_idx, ctx.default_line_height) {
        Some(height) => match height {
            Some(h) => h.units <= full.minus(fresh_height).units && h.units > available.minus(
                current_height,
            ).units,
            None => false,
        },
        None => fresh_height.units <= full.units && top.plus(current_height).units
            > state.bottom.units && !leading_keep_next_paragraph_splittable(&blocks[block_idx], at)
            && !terminal_keep_next_paragraph_splittable_here(blocks, block_idx, available, at),
    };
    moves && !state.at_full_column_top()
}

impl<'doc> PageLayoutState<'doc> {
    /// Turn the page before a chain of blocks that stay together, where they fit on the next page
    /// and not on this one.
    pub fn move_for_chain(
        &mut self,
        ctx: &LayoutCtx<'_>,
        blocks: &[LayoutBlock],
        block_idx: usize,
        style: &ParagraphStyle,
        admitted: &mut usize,
    )
        requires
            old(self)@.current_col < ctx.config.columns@.len(),
            block_idx < blocks@.len(),
        ensures
            (final(self)@, *final(admitted)) == old(self)@.moved_for_chain(
                *ctx,
                blocks@,
                block_idx,
                *style,
                *old(admitted),
            ),
            final(self)@.current_col < ctx.config.columns@.len(),
    {
        reveal(FlowState::moved_for_chain);
        if ctx.config.num_columns() != 1 || table_aware_prefix_already_admitted(
            block_idx,
            *admitted,
        ) || !starts_keep_next_chain(blocks, block_idx) || self.page_floats.len() != 0 {
            return ;
        }
        match decide_table_chain(self, ctx, blocks, block_idx, style) {
            Some((moves, end)) => {
                if moves {
                    self.push_new_page(block_idx, ctx);
                    self.forget_space();
                    if *admitted < end {
                        *admitted = end;
                    }
                }
            },
            None => {
                if does_chain_move(self, ctx, blocks, block_idx, style) {
                    self.push_new_page(block_idx, ctx);
                    self.forget_space();
                }
            },
        }
    }
}

} // verus!
