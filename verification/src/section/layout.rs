//! Laying out the blocks of a section on its pages.
use crate::block::{FootnoteParagraph, LayoutBlock};
use crate::dimension::Pt;
use crate::page::{HeaderFooterClearance, LayoutedPage, PageConfig, PageView};
use crate::section::floats::{copy_floats, FlowPlace, ParagraphFloatCheckpoint};
use crate::section::paragraph_flow::{
    flow_view, place_page_chunks, FlowJob, ParaFlow, ParagraphBlock, ParagraphInFlow, ParagraphJob,
    ParagraphRun,
};
use crate::section::predicates::{
    break_follows_table_spacers, break_only_follows_table_spacer_chain, explicit_break_follows,
    followed_by_explicit_page_break, is_break_only, is_break_only_paragraph, is_empty_spacer,
    is_plain_empty_spacer,
};
use crate::section::split::{Setting, TextSetting};
use crate::section::state::{
    continuation_view, pages_view, ContinuationState, FlowState, LayoutCtx, PageLayoutState,
    SectionLayoutResult, SectionResult,
};
use crate::section::table_flow::{TableBlock, TableInFlow};
use crate::style::{ParagraphBorderStyle, ParagraphStyle, PreviousParagraph};
use vstd::prelude::*;

verus! {

/// What a page can be placed anew from.
#[derive(Debug)]
pub struct PageReplayCheckpoint<'doc> {
    /// The state at the start of the page, without the pages before it.
    pub saved: PageLayoutState<'doc>,
}

impl<'doc> View for PageReplayCheckpoint<'doc> {
    type V = FlowState<'doc>;

    open spec fn view(&self) -> FlowState<'doc> {
        self.saved@
    }
}

impl<'doc> FlowState<'doc> {
    /// The state without the pages that are done.
    pub open spec fn without_pages(self) -> FlowState<'doc> {
        FlowState { pages: Seq::empty(), ..self }
    }

    /// Back at the saved state. The pages that are done stay.
    pub open spec fn replayed(self, saved: FlowState<'doc>) -> FlowState<'doc> {
        FlowState { pages: self.pages, ..saved }
    }
}

fn copy_notes<'doc>(source: &Vec<&'doc FootnoteParagraph>) -> (r: Vec<&'doc FootnoteParagraph>)
    ensures
        r@ == source@,
{
    let mut r: Vec<&'doc FootnoteParagraph> = Vec::new();
    let mut i: usize = 0;
    while i < source.len()
        invariant
            i <= source@.len(),
            r@ == source@.take(i as int),
        decreases source@.len() - i,
    {
        r.push(source[i]);
        i += 1;
        assert(r@ =~= source@.take(i as int));
    }
    assert(r@ =~= source@);
    r
}

fn copy_state<'doc>(state: &PageLayoutState<'doc>) -> (r: PageLayoutState<'doc>)
    ensures
        r@ == state@.without_pages(),
{
    let r = PageLayoutState {
        pages: Vec::new(),
        current_page: state.current_page.duplicate(),
        cursor_y: state.cursor_y,
        page_index: state.page_index,
        logical_page_base: state.logical_page_base,
        page_top: state.page_top,
        current_col: state.current_col,
        column_top: state.column_top,
        bottom: state.bottom,
        page_footnotes: copy_notes(&state.page_footnotes),
        first_on_section_page: state.first_on_section_page,
        previous: state.previous,
        prev_borders: state.prev_borders,
        page_floats: copy_floats(&state.page_floats),
        current_page_abs_floats: copy_floats(&state.current_page_abs_floats),
        page_absolute_exclusions: copy_floats(&state.page_absolute_exclusions),
        column_reactivation_unsafe: state.column_reactivation_unsafe,
        abs_floats_dirty: state.abs_floats_dirty,
        page_start_block: state.page_start_block,
        prev_table_style_id: state.prev_table_style_id,
        pending_page_break: state.pending_page_break,
    };
    assert(r@ =~= state@.without_pages());
    r
}

impl<'doc> PageReplayCheckpoint<'doc> {
    /// Note the state of a page that may have to be placed anew.
    pub fn capture(state: &PageLayoutState<'doc>) -> (r: Self)
        ensures
            r@ == state@.without_pages(),
    {
        PageReplayCheckpoint { saved: copy_state(state) }
    }

    /// Go back to the noted state. The pages that are done stay.
    pub fn restore(&self, state: &mut PageLayoutState<'doc>)
        ensures
            final(state)@ == old(state)@.replayed(self@),
    {
        let mut copy = copy_state(&self.saved);
        std::mem::swap(&mut copy.pages, &mut state.pages);
        *state = copy;
        assert(state@ =~= old(state)@.replayed(self@));
    }
}

/// Going back to a saved page brings everything back but the pages that are done.
pub proof fn law_replay_brings_the_page_back<'doc>(saved: FlowState<'doc>, later: FlowState<'doc>)
    ensures
        later.replayed(saved.without_pages()) == (FlowState { pages: later.pages, ..saved }),
        saved.replayed(saved.without_pages()) == saved,
{
}

/// A page break at the end of a paragraph turns one page, and just one: also at the top of a page, which
/// then stays blank.
pub proof fn law_waiting_break_turns_one_page<'doc>(
    flow: SectionFlow<'doc>,
    ctx: LayoutCtx<'_>,
    block_idx: usize,
)
    requires
        flow.st.pending_page_break,
    ensures
        ({
            let next = flow.with_pending_break(ctx, block_idx).st;
            &&& next.pages == flow.st.pages.push(flow.st.flushed(ctx).page)
            &&& next.page == PageView::blank(ctx.config.page_size)
            &&& next.cursor_y == next.page_top
            &&& !next.pending_page_break
        }),
{
}

/// A section while its blocks are placed one after another.
#[verifier::ext_equal]
pub struct SectionFlow<'doc> {
    pub st: FlowState<'doc>,
    /// The state at the start of the page.
    pub saved: FlowState<'doc>,
    pub saved_page: usize,
    /// The first block of the page.
    pub replay_block: usize,
    /// The blocks whose floats have been moved to a later page.
    pub relocated: Seq<bool>,
    /// The block up to which blocks have been moved together.
    pub admitted: usize,
}

/// How many blocks' floats have not been moved.
pub open spec fn unmoved(relocated: Seq<bool>, n: int) -> nat
    decreases n,
{
    if n <= 0 {
        0
    } else {
        unmoved(relocated, n - 1) + if relocated[n - 1] {
            0nat
        } else {
            1
        }
    }
}

pub(crate) proof fn lemma_moved_one(relocated: Seq<bool>, i: int, n: int)
    requires
        0 <= i < relocated.len(),
        0 <= n <= relocated.len(),
        !relocated[i],
    ensures
        unmoved(relocated.update(i, true), n) + (if i < n {
            1nat
        } else {
            0
        }) == unmoved(relocated, n),
    decreases n,
{
    if n > 0 {
        lemma_moved_one(relocated, i, n - 1);
    }
}

/// The style of a paragraph at its place: without space before it at the start of a section, and
/// without a top border below a paragraph of the same borders.
pub open spec fn style_in_place(st: FlowState<'_>, style: ParagraphStyle) -> ParagraphStyle {
    let spaced = if st.cursor_y.units <= st.column_top.units && st.first_on_section_page {
        ParagraphStyle { space_before: Pt::zero(), ..style }
    } else {
        style
    };
    match style.borders {
        Some(b) if style.borders == st.prev_borders => ParagraphStyle {
            borders: Some(ParagraphBorderStyle { top: None, ..b }),
            ..spaced
        },
        _ => spaced,
    }
}

fn find_style_in_place(state: &PageLayoutState<'_>, style: &ParagraphStyle) -> (r: ParagraphStyle)
    ensures
        r == style_in_place(state@, *style),
{
    let mut r = *style;
    if state.cursor_y.units <= state.column_top.units && state.first_on_section_page {
        r.space_before = Pt::zero();
    }
    if let Some(b) = style.borders {
        if style.borders == state.prev_borders {
            r.borders = Some(
                ParagraphBorderStyle { top: None, bottom: b.bottom, left: b.left, right: b.right },
            );
        }
    }
    r
}

/// Whether a paragraph stays on the page though it does not fit: an empty spacer that starts
/// within the page, follows a table, or stands before a page break; and a lone page break.
pub open spec fn may_overflow(st: FlowState<'_>, blocks: Seq<LayoutBlock>, i: int) -> bool {
    (is_empty_spacer(blocks[i]) && (st.cursor_y.units < st.bottom.units || (i > 0 && blocks[i
        - 1] is Table) || explicit_break_follows(blocks, i + 1))) || is_break_only(blocks[i])
}

fn can_overflow(state: &PageLayoutState<'_>, blocks: &[LayoutBlock], i: usize) -> (r: bool)
    requires
        i < blocks@.len(),
    ensures
        r == may_overflow(state@, blocks@, i as int),
{
    if is_plain_empty_spacer(&blocks[i]) {
        if state.cursor_y.units < state.bottom.units {
            return true;
        }
        if i > 0 && matches!(&blocks[i - 1], LayoutBlock::Table { .. }) {
            return true;
        }
        if followed_by_explicit_page_break(blocks, i) {
            return true;
        }
    }
    is_break_only_paragraph(&blocks[i])
}

/// A paragraph of a section.
pub open spec fn paragraph_of(block: LayoutBlock) -> ParagraphInFlow {
    match block {
        LayoutBlock::Paragraph {
            fragments,
            style,
            page_break_before,
            footnotes,
            floating_images,
            floating_shapes,
        } => ParagraphInFlow {
            fragments: fragments@,
            style,
            page_break_before,
            footnotes: footnotes@,
            images: floating_images@,
            shapes: floating_shapes@,
        },
        LayoutBlock::Table { .. } => arbitrary(),
    }
}

/// A table of a section.
pub open spec fn table_of(block: LayoutBlock) -> TableInFlow {
    match block {
        LayoutBlock::Table {
            rows,
            col_widths,
            cell_spacing,
            border_config,
            indent,
            alignment,
            style_id,
            ..
        } => TableInFlow {
            rows: rows@,
            col_widths: col_widths@,
            cell_spacing,
            borders: border_config,
            indent,
            alignment,
            style_id,
        },
        LayoutBlock::Paragraph { .. } => arbitrary(),
    }
}

/// A paragraph about to be placed: its floats are on the page, and its text is set at the cursor.
#[verifier::opaque]
pub open spec fn begun<'doc>(
    st: FlowState<'doc>,
    ctx: LayoutCtx<'_>,
    place: FlowPlace,
    block_idx: usize,
    para: ParagraphInFlow,
) -> (ParaFlow<'doc>, crate::section::floats::FloatCheckpoint) {
    let style = style_in_place(st, para.style);
    let joined = FlowState { cursor_y: st.cursor_y.minus(st.previous.overlap(&style)), ..st };
    let col = st.current_col as int;
    let x = ctx.config.col_x(col);
    let width = ctx.config.columns@[col].width;
    let floated = joined.with_paragraph_floats(
        para.images,
        para.shapes,
        joined.cursor_y.plus(style.space_before),
        x,
        width,
    ).pruned();
    let (met, floats) = floated.with_effective_floats(place, style.space_before, x, width);
    let leaves = met.cursor_y.units >= met.bottom.units && !met.at_full_column_top()
        && break_follows_table_spacers(place.blocks, block_idx as int);
    let at = if leaves {
        met.on_new_page(block_idx, ctx).without_space()
    } else {
        met
    };
    (
        ParaFlow {
            st: at,
            set: TextSetting {
                style,
                floats: if leaves {
                    at.page_floats
                } else {
                    floats
                },
                page_x: ctx.config.col_x(at.current_col as int),
                page_y: at.cursor_y,
            },
            start_y: at.cursor_y,
            content_placed: false,
            notes_reserved: false,
        },
        joined.float_checkpoint(),
    )
}

/// A paragraph that has been placed: its other floats are drawn, and room is reserved for its
/// footnotes where that has not been done.
#[verifier::opaque]
pub open spec fn ended<'doc>(
    pf: ParaFlow<'doc>,
    ctx: LayoutCtx<'_>,
    para: ParagraphInFlow,
    break_left: bool,
) -> FlowState<'doc> {
    let style = pf.set.style;
    let st = FlowState {
        pending_page_break: pf.st.pending_page_break || break_left,
        first_on_section_page: false,
        prev_borders: para.style.borders,
        previous: PreviousParagraph::of(&style),
        prev_table_style_id: None,
        ..pf.st
    };
    let top = pf.start_y.plus(style.space_before);
    let drawn = st.with_free_images(para.images, 0, top).with_free_shapes(para.shapes, 0, top);
    if pf.notes_reserved {
        drawn
    } else {
        drawn.with_reserved(ctx, para.footnotes, 0, para.footnotes.len() as int)
    }
}

impl<'doc> SectionFlow<'doc> {
    /// With the start of the page saved, if it is a new page.
    pub open spec fn refreshed(self, block_idx: usize) -> SectionFlow<'doc> {
        if self.st.page_index != self.saved_page {
            SectionFlow {
                saved: self.st.without_pages(),
                saved_page: self.st.page_index,
                replay_block: block_idx,
                ..self
            }
        } else {
            self
        }
    }

    /// With a page break that was waiting carried out.
    pub open spec fn with_pending_break(self, ctx: LayoutCtx<'_>, block_idx: usize) -> SectionFlow<
        'doc,
    > {
        if self.st.pending_page_break {
            SectionFlow {
                st: (FlowState { pending_page_break: false, ..self.st }).on_new_page(
                    block_idx,
                    ctx,
                ).without_space(),
                ..self
            }
        } else {
            self
        }
    }

    /// With the page turned before a paragraph that asks for it, or that stays with blocks that fit
    /// on the next page only.
    pub open spec fn before_paragraph(
        self,
        ctx: LayoutCtx<'_>,
        blocks: Seq<LayoutBlock>,
        block_idx: usize,
    ) -> SectionFlow<'doc> {
        let para = paragraph_of(blocks[block_idx as int]);
        let st = if para.page_break_before && self.st.cursor_y.units > self.st.page_top.units {
            self.st.on_new_page(block_idx, ctx).without_space()
        } else {
            self.st
        };
        let (moved, admitted) = st.moved_for_chain(
            ctx,
            blocks,
            block_idx,
            para.style,
            self.admitted,
        );
        (SectionFlow { st: moved, admitted, ..self }).refreshed(block_idx)
    }

    /// With a paragraph placed, and the block to go on with: the next one, or the first one of
    /// the page where the page has to be placed anew.
    pub open spec fn with_paragraph_block(
        self,
        ctx: LayoutCtx<'_>,
        blocks: Seq<LayoutBlock>,
        block_idx: usize,
    ) -> (SectionFlow<'doc>, int) {
        let para = paragraph_of(blocks[block_idx as int]);
        let flow = self.before_paragraph(ctx, blocks, block_idx);
        let place = FlowPlace {
            blocks,
            relocated: flow.relocated,
            num_cols: ctx.config.columns@.len() as usize,
        };
        let (start, checkpoint) = begun(flow.st, ctx, place, block_idx, para);
        let job = FlowJob {
            ctx,
            place,
            block_idx,
            replay_block: flow.replay_block,
            para,
            checkpoint,
            may_overflow: may_overflow(start.st, blocks, block_idx as int),
        };
        let (pf, replay, left) = start.with_page_chunks(job, 0, false);
        if replay {
            (
                SectionFlow {
                    st: pf.st.replayed(flow.saved),
                    relocated: flow.relocated.update(block_idx as int, true),
                    ..flow
                },
                flow.replay_block as int,
            )
        } else {
            (SectionFlow { st: ended(pf, ctx, para, left), ..flow }, block_idx + 1)
        }
    }

    /// With a table placed.
    pub open spec fn with_table_block(
        self,
        ctx: LayoutCtx<'_>,
        blocks: Seq<LayoutBlock>,
        block_idx: usize,
    ) -> SectionFlow<'doc> {
        let table = table_of(blocks[block_idx as int]);
        match blocks[block_idx as int] {
            LayoutBlock::Table { float_info: Some(info), .. } => SectionFlow {
                st: self.st.with_floating_table(ctx, block_idx, table, info),
                ..self
            },
            _ => {
                let (st, admitted) = self.st.with_inline_table(
                    ctx,
                    blocks,
                    block_idx,
                    table,
                    self.admitted,
                );
                SectionFlow { st, admitted, ..self }
            },
        }
    }

    /// With a block placed, and the block to go on with.
    #[verifier::opaque]
    pub open spec fn with_block(
        self,
        ctx: LayoutCtx<'_>,
        blocks: Seq<LayoutBlock>,
        block_idx: usize,
    ) -> (SectionFlow<'doc>, int) {
        let at = self.with_pending_break(ctx, block_idx).refreshed(block_idx);
        match blocks[block_idx as int] {
            LayoutBlock::Paragraph { .. } => at.with_paragraph_block(ctx, blocks, block_idx),
            LayoutBlock::Table { .. } => (
                at.with_table_block(ctx, blocks, block_idx),
                block_idx + 1,
            ),
        }
    }

    /// With the blocks from `i` on placed.
    pub open spec fn with_blocks(
        self,
        ctx: LayoutCtx<'_>,
        blocks: Seq<LayoutBlock>,
        i: int,
    ) -> SectionFlow<'doc>
        decreases unmoved(self.relocated, blocks.len() as int), blocks.len() - i,
    {
        if i < 0 || i >= blocks.len() {
            self
        } else {
            let (next, next_i) = self.with_block(ctx, blocks, i as usize);
            if i < next_i <= blocks.len() && next.relocated == self.relocated {
                next.with_blocks(ctx, blocks, next_i)
            } else if unmoved(next.relocated, blocks.len() as int) < unmoved(
                self.relocated,
                blocks.len() as int,
            ) {
                next.with_blocks(ctx, blocks, next_i)
            } else {
                next
            }
        }
    }
}

/// Where a section begins.
#[derive(Debug)]
pub struct SectionStart {
    /// The unfinished page that the section goes on with.
    pub continuation: Option<ContinuationState>,
    /// How much of each page its headers and footers take.
    pub clearance: HeaderFooterClearance,
    /// The number of its first page.
    pub logical_page_base: usize,
}

/// A section at its start.
pub open spec fn section_started<'doc>(
    config: PageConfig,
    continuation: Option<crate::section::state::Continuation>,
    clearance: HeaderFooterClearance,
    logical_page_base: usize,
    block_count: nat,
) -> SectionFlow<'doc> {
    let st = FlowState::<'doc>::started(
        config,
        continuation,
        clearance.for_page(0),
        logical_page_base,
    );
    SectionFlow {
        st,
        saved: st.without_pages(),
        saved_page: 0,
        replay_block: 0,
        relocated: Seq::new(block_count, |i: int| false),
        admitted: 0,
    }
}

/// The pages of a section.
pub open spec fn section_layout(
    blocks: Seq<LayoutBlock>,
    ctx: LayoutCtx<'_>,
    continuation: Option<crate::section::state::Continuation>,
    logical_page_base: usize,
    preserve_continuation: bool,
) -> SectionResult {
    section_started(
        *ctx.config,
        continuation,
        ctx.clearance,
        logical_page_base,
        blocks.len(),
    ).with_blocks(ctx, blocks, 0).st.finished(ctx, preserve_continuation)
}

/// A section while its blocks are placed one after another.
struct SectionRun<'doc> {
    state: PageLayoutState<'doc>,
    saved: PageReplayCheckpoint<'doc>,
    saved_page: usize,
    replay_block: usize,
    relocated: Vec<bool>,
    admitted: usize,
}

impl<'doc> View for SectionRun<'doc> {
    type V = SectionFlow<'doc>;

    closed spec fn view(&self) -> SectionFlow<'doc> {
        SectionFlow {
            st: self.state@,
            saved: self.saved@,
            saved_page: self.saved_page,
            replay_block: self.replay_block,
            relocated: self.relocated@,
            admitted: self.admitted,
        }
    }
}

/// Whether the columns and blocks that a section's state refers to exist.
spec fn run_is_sound(flow: SectionFlow<'_>, ctx: LayoutCtx<'_>, blocks: Seq<LayoutBlock>) -> bool {
    &&& flow.st.current_col < ctx.config.columns@.len()
    &&& flow.saved.current_col < ctx.config.columns@.len()
    &&& flow.relocated.len() == blocks.len()
    &&& flow.replay_block <= blocks.len()
}

impl<'doc> SectionRun<'doc> {
    fn refresh(&mut self, block_idx: usize, Ghost(ctx): Ghost<LayoutCtx<'_>>, Ghost(blocks): Ghost<Seq<LayoutBlock>>)
        requires
            run_is_sound(old(self)@, ctx, blocks),
            block_idx <= blocks.len(),
        ensures
            final(self)@ == old(self)@.refreshed(block_idx),
            run_is_sound(final(self)@, ctx, blocks),
    {
        if self.state.page_index != self.saved_page {
            self.saved = PageReplayCheckpoint::capture(&self.state);
            self.saved_page = self.state.page_index;
            self.replay_block = block_idx;
            assert(self@ =~= old(self)@.refreshed(block_idx));
        }
    }

    fn carry_out_pending_break(
        &mut self,
        ctx: &LayoutCtx<'_>,
        block_idx: usize,
        Ghost(blocks): Ghost<Seq<LayoutBlock>>,
    )
        requires
            run_is_sound(old(self)@, *ctx, blocks),
        ensures
            final(self)@ == old(self)@.with_pending_break(*ctx, block_idx),
            run_is_sound(final(self)@, *ctx, blocks),
    {
        if self.state.pending_page_break {
            let ghost before = self.state@;
            self.state.pending_page_break = false;
            assert(self.state@ =~= (FlowState { pending_page_break: false, ..before }));
            self.state.push_new_page(block_idx, ctx);
            self.state.forget_space();
            assert(self@ =~= old(self)@.with_pending_break(*ctx, block_idx));
        }
    }

    fn prepare_paragraph(
        &mut self,
        ctx: &LayoutCtx<'_>,
        blocks: &[LayoutBlock],
        block_idx: usize,
        para: &ParagraphBlock<'doc>,
    )
        requires
            run_is_sound(old(self)@, *ctx, blocks@),
            block_idx < blocks@.len(),
            para@ == paragraph_of(blocks@[block_idx as int]),
        ensures
            final(self)@ == old(self)@.before_paragraph(*ctx, blocks@, block_idx),
            run_is_sound(final(self)@, *ctx, blocks@),
    {
        let ghost before = self@;
        if para.page_break_before && self.state.cursor_y.units > self.state.page_top.units {
            self.state.push_new_page(block_idx, ctx);
            self.state.forget_space();
        }
        let ghost st = self.state@;
        let mut admitted: usize = self.admitted;
        self.state.move_for_chain(ctx, blocks, block_idx, &para.style, &mut admitted);
        self.admitted = admitted;
        assert(self@ =~= (SectionFlow {
            st: st.moved_for_chain(*ctx, blocks@, block_idx, para.style, before.admitted).0,
            admitted: st.moved_for_chain(*ctx, blocks@, block_idx, para.style, before.admitted).1,
            ..before
        }));
        self.refresh(block_idx, Ghost(*ctx), Ghost(blocks@));
    }

    fn place_paragraph_block(
        &mut self,
        ctx: &LayoutCtx<'_>,
        blocks: &[LayoutBlock],
        block_idx: usize,
        para: &ParagraphBlock<'doc>,
    ) -> (r: usize)
        requires
            run_is_sound(old(self)@, *ctx, blocks@),
            block_idx < blocks@.len(),
            blocks@[block_idx as int] is Paragraph,
            para@ == paragraph_of(blocks@[block_idx as int]),
        ensures
            (final(self)@, r as int) == old(self)@.with_paragraph_block(
                *ctx,
                blocks@,
                block_idx,
            ),
            run_is_sound(final(self)@, *ctx, blocks@),
            r <= blocks@.len(),
            (r == block_idx + 1 && final(self)@.relocated == old(self)@.relocated) || (
            !old(self)@.relocated[block_idx as int] && final(self)@.relocated
                == old(self)@.relocated.update(block_idx as int, true)),
    {
        let count: usize = blocks.len();
        self.prepare_paragraph(ctx, blocks, block_idx, para);
        let ghost flow = self@;
        let (mut run, checkpoint) = begin_paragraph(
            &mut self.state,
            ctx,
            blocks,
            &self.relocated,
            block_idx,
            para,
        );
        let overflow = can_overflow(&self.state, blocks, block_idx);
        let job = ParagraphJob {
            ctx: *ctx,
            blocks,
            relocated: &self.relocated,
            block_idx,
            replay_block: self.replay_block,
            para: *para,
            checkpoint: &checkpoint,
            may_overflow: overflow,
        };
        let ghost start = flow_view(self.state, run);
        let (replay, left) = place_page_chunks(&mut self.state, &job, &mut run);
        if replay {
            proof {
                lemma_replay_was_unmoved(start, job@, 0, false);
            }
            self.saved.restore(&mut self.state);
            self.relocated.set(block_idx, true);
            assert(self@ =~= old(self)@.with_paragraph_block(*ctx, blocks@, block_idx).0);
            self.replay_block
        } else {
            end_paragraph(&mut self.state, ctx, para, &run, left);
            assert(self@ =~= old(self)@.with_paragraph_block(*ctx, blocks@, block_idx).0);
            block_idx + 1
        }
    }

    fn place_block(&mut self, ctx: &LayoutCtx<'_>, blocks: &'doc [LayoutBlock], block_idx: usize) -> (r:
        usize)
        requires
            run_is_sound(old(self)@, *ctx, blocks@),
            block_idx < blocks@.len(),
        ensures
            (final(self)@, r as int) == old(self)@.with_block(*ctx, blocks@, block_idx),
            run_is_sound(final(self)@, *ctx, blocks@),
            r <= blocks@.len(),
            (r == block_idx + 1 && final(self)@.relocated == old(self)@.relocated) || (
            !old(self)@.relocated[block_idx as int] && final(self)@.relocated
                == old(self)@.relocated.update(block_idx as int, true)),
    {
        reveal(SectionFlow::with_block);
        let count: usize = blocks.len();
        self.carry_out_pending_break(ctx, block_idx, Ghost(blocks@));
        self.refresh(block_idx, Ghost(*ctx), Ghost(blocks@));
        match &blocks[block_idx] {
            LayoutBlock::Paragraph {
                fragments,
                style,
                page_break_before,
                footnotes,
                floating_images,
                floating_shapes,
            } => {
                let para = ParagraphBlock {
                    fragments: fragments.as_slice(),
                    style: *style,
                    page_break_before: *page_break_before,
                    footnotes: footnotes.as_slice(),
                    images: floating_images.as_slice(),
                    shapes: floating_shapes.as_slice(),
                };
                self.place_paragraph_block(ctx, blocks, block_idx, &para)
            },
            LayoutBlock::Table {
                rows,
                col_widths,
                cell_spacing,
                border_config,
                indent,
                alignment,
                float_info,
                style_id,
            } => {
                let table = TableBlock {
                    rows: rows.as_slice(),
                    col_widths: col_widths.as_slice(),
                    cell_spacing: *cell_spacing,
                    borders: *border_config,
                    indent: *indent,
                    alignment: *alignment,
                    style_id: *style_id,
                };
                let ghost at = self@;
                assert(table@ =~= table_of(blocks@[block_idx as int]));
                match float_info {
                    Some(info) => {
                        self.state.place_floating_table(ctx, block_idx, &table, info);
                    },
                    None => {
                        let mut admitted: usize = self.admitted;
                        self.state.place_inline_table(
                            ctx,
                            blocks,
                            block_idx,
                            &table,
                            &mut admitted,
                        );
                        self.admitted = admitted;
                    },
                }
                assert(self@ =~= at.with_table_block(*ctx, blocks@, block_idx));
                block_idx + 1
            },
        }
    }
}

proof fn lemma_replay_was_unmoved_in_columns(
    pf: ParaFlow<'_>,
    job: FlowJob<'_>,
    content: Seq<crate::fragment::Fragment>,
    from: int,
    index: int,
)
    ensures
        pf.with_column_chunks(job, content, from, index).1
            ==> !job.place.relocated[job.block_idx as int],
    decreases content.len() - from,
{
    let end = crate::section::paragraph_flow::next_column_break(content, from);
    let (next, replay) = pf.with_chunk(job, content.subrange(from, end), index);
    if !(replay || end >= content.len() || end < from) {
        lemma_replay_was_unmoved_in_columns(next, job, content, end + 1, index + 1);
    }
}

/// Only a paragraph whose floats have not been moved has its page placed anew.
proof fn lemma_replay_was_unmoved(pf: ParaFlow<'_>, job: FlowJob<'_>, from: int, unresolved: bool)
    ensures
        pf.with_page_chunks(job, from, unresolved).1
            ==> !job.place.relocated[job.block_idx as int],
    decreases job.para.fragments.len() - from,
{
    let fragments = job.para.fragments;
    let end = crate::section::paragraph_flow::next_page_break(fragments, from);
    let content = fragments.subrange(from, end);
    let at = if unresolved {
        pf.after_page_break(job)
    } else {
        pf
    };
    lemma_replay_was_unmoved_in_columns(at, job, content, 0, 0);
    let (next, replay, left) = if content.len() == 0 {
        (pf, false, unresolved)
    } else if unresolved && crate::section::paragraph_flow::must_replay(
        job,
        pf.content_placed,
        true,
    ) {
        (pf, true, unresolved)
    } else {
        let (placed_here, replay) = at.with_column_chunks(job, content, 0, 0);
        (placed_here, replay, false)
    };
    if !(replay || end >= fragments.len() || end < from) {
        lemma_replay_was_unmoved(next, job, end + 1, true);
    }
}

fn begin_paragraph<'doc>(
    state: &mut PageLayoutState<'doc>,
    ctx: &LayoutCtx<'_>,
    blocks: &[LayoutBlock],
    relocated: &Vec<bool>,
    block_idx: usize,
    para: &ParagraphBlock<'doc>,
) -> (r: (ParagraphRun, ParagraphFloatCheckpoint))
    requires
        old(state)@.current_col < ctx.config.columns@.len(),
        relocated@.len() == blocks@.len(),
        block_idx < blocks@.len(),
    ensures
        (flow_view(*final(state), r.0), r.1@) == begun(
            old(state)@,
            *ctx,
            (FlowPlace {
                blocks: blocks@,
                relocated: relocated@,
                num_cols: ctx.config.columns@.len() as usize,
            }),
            block_idx,
            para@,
        ),
        final(state)@.current_col < ctx.config.columns@.len(),
{
    reveal(begun);
    let ghost before = state@;
    let style = find_style_in_place(state, &para.style);
    state.cursor_y = state.cursor_y.minus(state.previous.overlap(&style));
    let ghost joined = state@;
    assert(joined =~= (FlowState {
        cursor_y: before.cursor_y.minus(before.previous.overlap(&style)),
        ..before
    }));
    let checkpoint = ParagraphFloatCheckpoint::capture(state);
    let col: usize = state.current_col;
    let x = ctx.config.column_x(col);
    let width = ctx.config.columns[col].width;
    let content_top = state.cursor_y.plus(style.space_before);
    state.register_paragraph_floats(para.images, para.shapes, content_top, x, width);
    proof {
        crate::section::floats::law_checkpoint_undoes_paragraph_floats(
            joined,
            para.images@,
            para.shapes@,
            content_top,
            x,
            width,
        );
    }
    state.prune();
    let mut floats = state.effective_floats_at_cursor(
        blocks,
        relocated,
        ctx.config.num_columns(),
        style.space_before,
        x,
        width,
    );
    if state.cursor_y.units >= state.bottom.units && !state.at_full_column_top()
        && break_only_follows_table_spacer_chain(blocks, block_idx) {
        state.push_new_page(block_idx, ctx);
        state.forget_space();
        floats = copy_floats(&state.page_floats);
    }
    let run = ParagraphRun {
        set: Setting {
            style,
            floats,
            page_x: ctx.config.column_x(state.current_col),
            page_y: state.cursor_y,
        },
        start_y: state.cursor_y,
        content_placed: false,
        notes_reserved: false,
    };
    (run, checkpoint)
}

fn end_paragraph<'doc>(
    state: &mut PageLayoutState<'doc>,
    ctx: &LayoutCtx<'_>,
    para: &ParagraphBlock<'doc>,
    run: &ParagraphRun,
    break_left: bool,
)
    requires
        old(state)@.current_col < ctx.config.columns@.len(),
    ensures
        final(state)@ == ended(flow_view(*old(state), *run), *ctx, para@, break_left),
        final(state)@.current_col == old(state)@.current_col,
{
    reveal(ended);
    let ghost before = state@;
    if break_left {
        state.pending_page_break = true;
    }
    state.first_on_section_page = false;
    state.prev_borders = para.style.borders;
    state.previous = PreviousParagraph::of(&run.set.style);
    state.prev_table_style_id = None;
    let ghost st = state@;
    assert(st =~= (FlowState {
        pending_page_break: before.pending_page_break || break_left,
        first_on_section_page: false,
        prev_borders: para.style.borders,
        previous: PreviousParagraph::of(&run.set.style),
        prev_table_style_id: None,
        ..before
    }));
    let top = run.start_y.plus(run.set.style.space_before);
    state.draw_free_floats(para.images, para.shapes, top);
    proof {
        lemma_free_images_keep_column(st, para.images@, 0, top);
        lemma_free_shapes_keep_column(
            st.with_free_images(para.images@, 0, top),
            para.shapes@,
            0,
            top,
        );
    }
    if !run.notes_reserved {
        state.reserve_footnotes(ctx, para.footnotes, 0, para.footnotes.len());
    }
}

proof fn lemma_free_images_keep_column(
    st: FlowState<'_>,
    images: Seq<crate::block::FloatingImage>,
    i: int,
    top: Pt,
)
    ensures
        st.with_free_images(images, i, top).current_col == st.current_col,
    decreases images.len() - i,
{
    if 0 <= i < images.len() {
        let next = if images[i].frame.is_wrap_top_and_bottom() {
            st
        } else {
            st.with_image(images[i], images[i].frame.y.resolve(top))
        };
        lemma_free_images_keep_column(next, images, i + 1, top);
    }
}

proof fn lemma_shape_text_keeps_column(
    st: FlowState<'_>,
    shape: crate::block::FloatingShape,
    y: Pt,
    i: int,
)
    ensures
        st.with_shape_text(shape, y, i).current_col == st.current_col,
    decreases shape.text_commands@.len() - i,
{
    if 0 <= i < shape.text_commands@.len() {
        let next = st.with_floating_command(
            shape.frame,
            shape.text_commands@[i].shifted(shape.frame.x.resolve(st.parity()), y),
        );
        lemma_shape_text_keeps_column(next, shape, y, i + 1);
    }
}

proof fn lemma_free_shapes_keep_column(
    st: FlowState<'_>,
    shapes: Seq<crate::block::FloatingShape>,
    i: int,
    top: Pt,
)
    ensures
        st.with_free_shapes(shapes, i, top).current_col == st.current_col,
    decreases shapes.len() - i,
{
    if 0 <= i < shapes.len() {
        let frame = shapes[i].frame;
        let y = frame.y.resolve(top);
        let next = if frame.is_wrap_top_and_bottom() {
            st
        } else {
            let outline = st.with_floating_command(
                frame,
                crate::draw_command::DrawCommand::Path {
                    rect: crate::geometry::PtRect::from_xywh(
                        frame.x.resolve(st.parity()),
                        y,
                        frame.size.width,
                        frame.size.height,
                    ),
                    path: shapes[i].path,
                },
            );
            lemma_shape_text_keeps_column(outline, shapes[i], y, 0);
            st.with_shape(shapes[i], y)
        };
        lemma_free_shapes_keep_column(next, shapes, i + 1, top);
    }
}

/// Lay out a section. With `preserve_continuation`, its last page is handed on to the next section
/// as it stands.
pub fn layout_section_with_clearance_result(
    blocks: &[LayoutBlock],
    config: &PageConfig,
    separator_indent: Pt,
    default_line_height: Pt,
    start: SectionStart,
    preserve_continuation: bool,
) -> (r: SectionLayoutResult)
    requires
        config.columns@.len() > 0,
    ensures
        r@ == section_layout(
            blocks@,
            (LayoutCtx {
                config,
                clearance: start.clearance,
                separator_indent,
                default_line_height,
            }),
            continuation_view(start.continuation),
            start.logical_page_base,
            preserve_continuation,
        ),
{
    let ctx = LayoutCtx {
        config,
        clearance: start.clearance,
        separator_indent,
        default_line_height,
    };
    let ghost given = continuation_view(start.continuation);
    let base: usize = start.logical_page_base;
    let state = PageLayoutState::new(config, start.continuation, ctx.clearance.for_page(0), base);
    let count: usize = blocks.len();
    let mut relocated: Vec<bool> = Vec::new();
    let mut k: usize = 0;
    while k < count
        invariant
            k <= count,
            relocated@ == Seq::new(k as nat, |i: int| false),
        decreases count - k,
    {
        relocated.push(false);
        k += 1;
        assert(relocated@ =~= Seq::new(k as nat, |i: int| false));
    }
    let saved = PageReplayCheckpoint::capture(&state);
    let mut run = SectionRun {
        state,
        saved,
        saved_page: 0,
        replay_block: 0,
        relocated,
        admitted: 0,
    };
    let ghost begin = section_started(*config, given, ctx.clearance, base, blocks@.len());
    assert(run@ =~= begin);
    let mut block_idx: usize = 0;
    while block_idx < count
        invariant
            count == blocks@.len(),
            block_idx <= count,
            run_is_sound(run@, ctx, blocks@),
            run@.with_blocks(ctx, blocks@, block_idx as int) == begin.with_blocks(ctx, blocks@, 0),
        decreases unmoved(run@.relocated, blocks@.len() as int), count - block_idx,
    {
        let ghost before = run@;
        let next: usize = run.place_block(&ctx, blocks, block_idx);
        proof {
            if run@.relocated != before.relocated {
                lemma_moved_one(before.relocated, block_idx as int, blocks@.len() as int);
            }
        }
        block_idx = next;
    }
    run.state.finalize(&ctx, preserve_continuation)
}

/// Lay out a section that hands on nothing.
pub fn layout_section_with_clearance(
    blocks: &[LayoutBlock],
    config: &PageConfig,
    separator_indent: Pt,
    default_line_height: Pt,
    start: SectionStart,
) -> (r: Vec<LayoutedPage>)
    requires
        config.columns@.len() > 0,
    ensures
        pages_view(r@) == section_layout(
            blocks@,
            (LayoutCtx {
                config,
                clearance: start.clearance,
                separator_indent,
                default_line_height,
            }),
            continuation_view(start.continuation),
            start.logical_page_base,
            false,
        ).pages,
{
    layout_section_with_clearance_result(
        blocks,
        config,
        separator_indent,
        default_line_height,
        start,
        false,
    ).pages
}

/// Lay out a section without headers and footers, on pages numbered from one.
///
/// With a continuation, the section starts on that page.
pub fn layout_section(
    blocks: &[LayoutBlock],
    config: &PageConfig,
    separator_indent: Pt,
    default_line_height: Pt,
    continuation: Option<ContinuationState>,
) -> (r: Vec<LayoutedPage>)
    requires
        config.columns@.len() > 0,
    ensures
        pages_view(r@) == section_layout(
            blocks@,
            (LayoutCtx {
                config,
                clearance: HeaderFooterClearance::uniform_spec(*config),
                separator_indent,
                default_line_height,
            }),
            continuation_view(continuation),
            1,
            false,
        ).pages,
{
    let clearance = HeaderFooterClearance::uniform(config);
    layout_section_with_clearance(
        blocks,
        config,
        separator_indent,
        default_line_height,
        SectionStart { continuation, clearance, logical_page_base: 1 },
    )
}

} // verus!
