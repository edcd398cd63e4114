//! Placing paragraphs in a section.
use crate::block::{FloatingImage, FloatingShape, LayoutBlock, LayoutFootnote};
use crate::dimension::Pt;
use crate::float::live_floats;
use crate::fragment::{contains_flow_break, has_flow_break, Fragment};
use crate::paragraph::placed;
use crate::section::floats::{
    any_absolute_wrap, copy_floats, has_absolute_wrap_float, trailing_space_clearance,
    wps_trailing_space_clearance_start, FloatCheckpoint, FlowPlace, ParagraphFloatCheckpoint,
};
use crate::section::predicates::{is_breakable, paragraph_breakable};
use crate::section::split::{
    emit_split_paragraph, place_in_column, place_of, split_from, Setting, SplitJob, TextSetting,
};
use crate::section::state::{FlowState, LayoutCtx, PageLayoutState};
use crate::style::ParagraphStyle;
use vstd::prelude::*;
use vstd::slice::slice_subrange;

verus! {

/// A paragraph as it stands in a section.
#[derive(Clone, Copy, Debug)]
pub struct ParagraphBlock<'doc> {
    pub fragments: &'doc [Fragment],
    pub style: ParagraphStyle,
    pub page_break_before: bool,
    pub footnotes: &'doc [LayoutFootnote],
    pub images: &'doc [FloatingImage],
    pub shapes: &'doc [FloatingShape],
}

/// The mathematical value of a [`ParagraphBlock`].
pub struct ParagraphInFlow {
    pub fragments: Seq<Fragment>,
    pub style: ParagraphStyle,
    pub page_break_before: bool,
    pub footnotes: Seq<LayoutFootnote>,
    pub images: Seq<FloatingImage>,
    pub shapes: Seq<FloatingShape>,
}

impl<'doc> View for ParagraphBlock<'doc> {
    type V = ParagraphInFlow;

    open spec fn view(&self) -> ParagraphInFlow {
        ParagraphInFlow {
            fragments: self.fragments@,
            style: self.style,
            page_break_before: self.page_break_before,
            footnotes: self.footnotes@,
            images: self.images@,
            shapes: self.shapes@,
        }
    }
}

/// What stays the same while a paragraph is placed.
#[derive(Clone, Copy)]
pub struct ParagraphJob<'b, 'doc> {
    pub ctx: LayoutCtx<'b>,
    pub blocks: &'b [LayoutBlock],
    /// The blocks whose floats have been moved to a later page.
    pub relocated: &'b Vec<bool>,
    pub block_idx: usize,
    /// The first block of the page, from which the page can be placed anew.
    pub replay_block: usize,
    pub para: ParagraphBlock<'doc>,
    /// What to go back to before the paragraph's floats are placed elsewhere.
    pub checkpoint: &'b ParagraphFloatCheckpoint,
    /// Whether the paragraph stays on the page though it does not fit.
    pub may_overflow: bool,
}

/// The mathematical value of a [`ParagraphJob`].
pub struct FlowJob<'b> {
    pub ctx: LayoutCtx<'b>,
    pub place: FlowPlace,
    pub block_idx: usize,
    pub replay_block: usize,
    pub para: ParagraphInFlow,
    pub checkpoint: FloatCheckpoint,
    pub may_overflow: bool,
}

impl<'b, 'doc> View for ParagraphJob<'b, 'doc> {
    type V = FlowJob<'b>;

    open spec fn view(&self) -> FlowJob<'b> {
        FlowJob {
            ctx: self.ctx,
            place: FlowPlace {
                blocks: self.blocks@,
                relocated: self.relocated@,
                num_cols: self.ctx.config.columns@.len() as usize,
            },
            block_idx: self.block_idx,
            replay_block: self.replay_block,
            para: self.para@,
            checkpoint: self.checkpoint@,
            may_overflow: self.may_overflow,
        }
    }
}

impl<'b, 'doc> ParagraphJob<'b, 'doc> {
    /// Whether the block and the columns that the job refers to exist.
    pub open spec fn sound(&self) -> bool {
        self.relocated@.len() == self.blocks@.len() && self.block_idx < self.blocks@.len()
            && self.ctx.config.columns@.len() > 0
    }
}

/// How far a paragraph has been placed.
#[derive(Debug)]
pub struct ParagraphRun {
    pub set: Setting,
    /// Where on the page the paragraph's current part starts.
    pub start_y: Pt,
    /// Whether some of its content has been placed.
    pub content_placed: bool,
    /// Whether room for its footnotes has been reserved.
    pub notes_reserved: bool,
}

/// The state of the page, and how far a paragraph has been placed on it.
#[verifier::ext_equal]
pub struct ParaFlow<'doc> {
    pub st: FlowState<'doc>,
    pub set: TextSetting,
    pub start_y: Pt,
    pub content_placed: bool,
    pub notes_reserved: bool,
}

/// The value of a state and a run together.
pub open spec fn flow_view<'doc>(state: PageLayoutState<'doc>, run: ParagraphRun) -> ParaFlow<
    'doc,
> {
    ParaFlow {
        st: state@,
        set: run.set@,
        start_y: run.start_y,
        content_placed: run.content_placed,
        notes_reserved: run.notes_reserved,
    }
}

/// Whether moving a paragraph to a new page changes what text before it met on this page: the
/// page has then to be placed anew without the paragraph's floats.
pub open spec fn must_replay(job: FlowJob<'_>, content_placed: bool, to_new_page: bool) -> bool {
    !content_placed && to_new_page && job.block_idx > job.replay_block && any_absolute_wrap(
        job.para.images,
    ) && !job.place.relocated[job.block_idx as int]
}

/// Decide whether the page has to be placed anew before a paragraph leaves it.
pub fn mark_absolute_float_relocation(
    job: &ParagraphJob<'_, '_>,
    content_placed: bool,
    to_new_page: bool,
) -> (r: bool)
    requires
        job.sound(),
    ensures
        r == must_replay(job@, content_placed, to_new_page),
{
    !content_placed && to_new_page && job.block_idx > job.replay_block && has_absolute_wrap_float(
        job.para.images,
    ) && !job.relocated[job.block_idx]
}

impl<'doc> ParaFlow<'doc> {
    /// With the paragraph's floats taken back, where none of its content has been placed.
    pub open spec fn floats_taken_back(self, job: FlowJob<'_>, condition: bool) -> ParaFlow<'doc> {
        if !self.content_placed && condition {
            ParaFlow { st: self.st.floats_restored(job.checkpoint), ..self }
        } else {
            self
        }
    }

    /// With the paragraph's floats placed in the column that the paragraph has moved to, where
    /// none of its content has been placed.
    pub open spec fn floats_placed_here(self, job: FlowJob<'_>, condition: bool) -> ParaFlow<'doc> {
        let col = self.st.current_col as int;
        if !self.content_placed && condition {
            ParaFlow {
                st: self.st.with_destination_floats(
                    job.para.images,
                    job.para.shapes,
                    self.set.style.space_before,
                    job.ctx.config.col_x(col),
                    job.ctx.config.columns@[col].width,
                ),
                ..self
            }
        } else {
            self
        }
    }

    /// With the text set at the cursor; among the floats of the page if `new_floats` says so.
    pub open spec fn set_at_cursor(self, job: FlowJob<'_>, new_floats: bool) -> ParaFlow<'doc> {
        ParaFlow {
            set: TextSetting {
                page_x: job.ctx.config.col_x(self.st.current_col as int),
                page_y: self.st.cursor_y,
                floats: if new_floats {
                    self.st.page_floats
                } else {
                    self.set.floats
                },
                style: self.set.style,
            },
            ..self
        }
    }

    /// After a page break within the paragraph.
    #[verifier::opaque]
    pub open spec fn after_page_break(self, job: FlowJob<'_>) -> ParaFlow<'doc> {
        let back = self.floats_taken_back(job, true);
        let turned = back.st.on_new_page(job.block_idx, job.ctx).without_space();
        (ParaFlow { st: turned, start_y: turned.cursor_y, ..back }).floats_placed_here(
            job,
            true,
        ).set_at_cursor(job, true)
    }

    /// After a column break within the paragraph.
    #[verifier::opaque]
    pub open spec fn after_column_break(self, job: FlowJob<'_>) -> ParaFlow<'doc> {
        let new_page = self.st.current_col + 1 >= job.ctx.config.columns@.len();
        let back = self.floats_taken_back(job, new_page);
        let moved = if new_page {
            back.st.on_new_page(job.block_idx, job.ctx)
        } else {
            FlowState { current_col: (back.st.current_col + 1) as usize, ..back.st }
        };
        let at_top = FlowState { cursor_y: moved.column_top, ..moved };
        (ParaFlow { st: at_top, ..back }).floats_placed_here(job, new_page).set_at_cursor(
            job,
            new_page,
        )
    }

    /// Moved below the paragraph's own band, where that would cut into the space below it.
    #[verifier::opaque]
    pub open spec fn cleared(self, job: FlowJob<'_>, chunk: Seq<Fragment>) -> ParaFlow<'doc> {
        let style = self.set.style;
        let p = placed(chunk, place_of(self.st, job.ctx, self.set), style);
        let clearance = trailing_space_clearance(
            self.st.cursor_y,
            self.st.bottom,
            style,
            p,
            chunk,
            job.para.images,
            job.para.shapes,
        );
        if has_flow_break(job.para.fragments) || job.para.footnotes.len() != 0
            || style.borders is Some || style.shading is Some || style.drop_cap is Some
            || clearance is None {
            self
        } else {
            let y = clearance->0;
            let st = FlowState {
                cursor_y: y,
                page_floats: live_floats(self.st.page_floats, y),
                ..self.st
            };
            let (next, floats) = st.with_effective_floats(
                job.place,
                style.space_before,
                self.set.page_x,
                job.ctx.config.columns@[st.current_col as int].width,
            );
            ParaFlow {
                st: next,
                set: TextSetting { floats, page_y: y, ..self.set },
                start_y: y,
                ..self
            }
        }
    }

    /// Moved to the next column or page, where the paragraph is to stand as a whole. The space
    /// before it is dropped.
    #[verifier::opaque]
    pub open spec fn moved_whole(self, job: FlowJob<'_>) -> ParaFlow<'doc> {
        let back = self.floats_taken_back(job, true);
        let moved = back.st.advanced(job.ctx, job.block_idx);
        let bare = TextSetting {
            style: ParagraphStyle { space_before: Pt::zero(), ..back.set.style },
            ..back.set
        };
        (ParaFlow { st: moved, set: bare, start_y: moved.cursor_y, ..back }).floats_placed_here(
            job,
            true,
        ).set_at_cursor(job, true)
    }

    /// Whether the paragraph has to leave the column: it does not fit, and may go elsewhere.
    #[verifier::opaque]
    pub open spec fn must_leave(self, job: FlowJob<'_>, chunk: Seq<Fragment>) -> bool {
        let place = place_of(self.st, job.ctx, self.set);
        let height = placed(chunk, place, self.set.style).full(
            self.set.style,
            place.width,
            place.max_height,
        ).height;
        self.st.cursor_y.plus(height).units > self.st.bottom.units
            && !self.st.at_full_column_top() && !job.may_overflow
    }

    /// Whether the content may be divided between columns and pages.
    #[verifier::opaque]
    pub open spec fn may_be_divided(self, job: FlowJob<'_>, chunk: Seq<Fragment>) -> bool {
        is_breakable(
            self.set.style,
            job.para.footnotes,
            job.para.images,
            job.para.shapes,
            !has_flow_break(job.para.fragments),
        ) && placed(chunk, place_of(self.st, job.ctx, self.set), self.set.style).lines.len() >= 2
    }

    /// With the content drawn, divided between columns and pages as needed.
    #[verifier::opaque]
    pub open spec fn drawn_in_parts(self, job: FlowJob<'_>, chunk: Seq<Fragment>) -> ParaFlow<
        'doc,
    > {
        let (st, start_y) = split_from(
            self.st,
            SplitJob {
                ctx: job.ctx,
                place: job.place,
                fragments: chunk,
                style: self.set.style,
                footnotes: job.para.footnotes,
                block_idx: job.block_idx,
            },
            self.set,
            0,
            true,
            0,
            false,
            self.start_y,
        );
        ParaFlow {
            st,
            start_y,
            notes_reserved: self.notes_reserved || job.para.footnotes.len() > 0,
            ..self
        }
    }

    /// With some content placed, unless there was none.
    pub open spec fn with_content(self, chunk: Seq<Fragment>) -> ParaFlow<'doc> {
        ParaFlow { content_placed: self.content_placed || chunk.len() > 0, ..self }
    }

    /// With the content drawn as a whole at the cursor.
    #[verifier::opaque]
    pub open spec fn drawn_whole(self, job: FlowJob<'_>, chunk: Seq<Fragment>) -> ParaFlow<'doc> {
        let col = self.st.current_col as int;
        let place = place_of(self.st, job.ctx, self.set);
        ParaFlow {
            st: self.st.with_segment(
                placed(chunk, place, self.set.style).full(
                    self.set.style,
                    place.width,
                    place.max_height,
                ),
                job.ctx.config.col_x(col),
            ),
            ..self
        }
    }

    /// With a part of the paragraph placed between breaks, number `index` of its page; and
    /// whether the page has to be placed anew instead.
    pub open spec fn with_chunk(
        self,
        job: FlowJob<'_>,
        chunk: Seq<Fragment>,
        index: int,
    ) -> (ParaFlow<'doc>, bool) {
        let columns = job.ctx.config.columns@.len();
        if index > 0 && must_replay(
            job,
            self.content_placed,
            self.st.current_col + 1 >= columns,
        ) {
            (self, true)
        } else {
            let at = (if index > 0 {
                self.after_column_break(job)
            } else {
                self
            }).cleared(job, chunk);
            if at.may_be_divided(job, chunk) {
                (at.drawn_in_parts(job, chunk).with_content(chunk), false)
            } else if !at.must_leave(job, chunk) {
                (at.drawn_whole(job, chunk).with_content(chunk), false)
            } else if must_replay(job, at.content_placed, at.st.current_col + 1 >= columns) {
                (at, true)
            } else {
                (at.moved_whole(job).drawn_whole(job, chunk).with_content(chunk), false)
            }
        }
    }

    /// With the parts of a page's content from fragment `from` on placed between column breaks.
    pub open spec fn with_column_chunks(
        self,
        job: FlowJob<'_>,
        content: Seq<Fragment>,
        from: int,
        index: int,
    ) -> (ParaFlow<'doc>, bool)
        decreases content.len() - from,
    {
        let end = next_column_break(content, from);
        let (next, replay) = self.with_chunk(job, content.subrange(from, end), index);
        if replay || end >= content.len() || end < from {
            (next, replay)
        } else {
            next.with_column_chunks(job, content, end + 1, index + 1)
        }
    }

    /// With the parts of the paragraph from fragment `from` on placed between page breaks;
    /// whether the page has to be placed anew instead; and whether a page break is left
    /// that nothing has followed yet.
    pub open spec fn with_page_chunks(
        self,
        job: FlowJob<'_>,
        from: int,
        unresolved: bool,
    ) -> (ParaFlow<'doc>, bool, bool)
        decreases job.para.fragments.len() - from,
    {
        let fragments = job.para.fragments;
        let end = next_page_break(fragments, from);
        let content = fragments.subrange(from, end);
        let (next, replay, left) = if content.len() == 0 {
            (self, false, unresolved)
        } else if unresolved && must_replay(job, self.content_placed, true) {
            (self, true, unresolved)
        } else {
            let at = if unresolved {
                self.after_page_break(job)
            } else {
                self
            };
            let (placed_here, replay) = at.with_column_chunks(job, content, 0, 0);
            (placed_here, replay, false)
        };
        if replay || end >= fragments.len() || end < from {
            (next, replay, left)
        } else {
            next.with_page_chunks(job, end + 1, true)
        }
    }
}

/// The first column break among the fragments from `i` on, or their end.
pub open spec fn next_column_break(fragments: Seq<Fragment>, i: int) -> int
    decreases fragments.len() - i,
{
    if i < 0 || i >= fragments.len() || fragments[i] is ColumnBreak {
        i
    } else {
        next_column_break(fragments, i + 1)
    }
}

/// The first page break among the fragments from `i` on, or their end.
pub open spec fn next_page_break(fragments: Seq<Fragment>, i: int) -> int
    decreases fragments.len() - i,
{
    if i < 0 || i >= fragments.len() || fragments[i].is_page_break() {
        i
    } else {
        next_page_break(fragments, i + 1)
    }
}

fn find_column_break(fragments: &[Fragment], from: usize) -> (r: usize)
    requires
        from <= fragments@.len(),
    ensures
        r == next_column_break(fragments@, from as int),
        from <= r <= fragments@.len(),
{
    let mut i: usize = from;
    while i < fragments.len() && !matches!(fragments[i], Fragment::ColumnBreak)
        invariant
            from <= i <= fragments@.len(),
            next_column_break(fragments@, i as int) == next_column_break(fragments@, from as int),
        decreases fragments@.len() - i,
    {
        i += 1;
    }
    i
}

fn find_page_break(fragments: &[Fragment], from: usize) -> (r: usize)
    requires
        from <= fragments@.len(),
    ensures
        r == next_page_break(fragments@, from as int),
        from <= r <= fragments@.len(),
{
    let mut i: usize = from;
    while i < fragments.len() && !fragments[i].is_page_break()
        invariant
            from <= i <= fragments@.len(),
            next_page_break(fragments@, i as int) == next_page_break(fragments@, from as int),
        decreases fragments@.len() - i,
    {
        i += 1;
    }
    i
}

fn take_floats_back(
    state: &mut PageLayoutState<'_>,
    job: &ParagraphJob<'_, '_>,
    run: &ParagraphRun,
    condition: bool,
)
    ensures
        flow_view(*final(state), *run) == flow_view(*old(state), *run).floats_taken_back(
            job@,
            condition,
        ),
        final(state)@.current_col == old(state)@.current_col,
{
    if !run.content_placed && condition {
        job.checkpoint.restore(state);
    }
}

fn place_floats_here(
    state: &mut PageLayoutState<'_>,
    job: &ParagraphJob<'_, '_>,
    run: &ParagraphRun,
    condition: bool,
)
    requires
        job.sound(),
        old(state)@.current_col < job.ctx.config.columns@.len(),
    ensures
        flow_view(*final(state), *run) == flow_view(*old(state), *run).floats_placed_here(
            job@,
            condition,
        ),
        final(state)@.current_col == old(state)@.current_col,
{
    if !run.content_placed && condition {
        let col: usize = state.current_col;
        let ghost before = state@;
        state.register_destination_paragraph_floats(
            job.para.images,
            job.para.shapes,
            run.set.style.space_before,
            job.ctx.config.column_x(col),
            job.ctx.config.columns[col].width,
        );
        proof {
            lemma_floats_keep_column(
                before,
                job.para.images@,
                job.para.shapes@,
                before.cursor_y.plus(run.set.style.space_before),
                job.ctx.config.col_x(col as int),
                job.ctx.config.columns@[col as int].width,
            );
        }
    }
}

proof fn lemma_floats_keep_column(
    st: FlowState<'_>,
    images: Seq<FloatingImage>,
    shapes: Seq<FloatingShape>,
    content_top: Pt,
    column_x: Pt,
    column_width: Pt,
)
    ensures
        st.with_paragraph_floats(
            images,
            shapes,
            content_top,
            column_x,
            column_width,
        ).current_col == st.current_col,
{
    crate::section::floats::law_checkpoint_undoes_paragraph_floats(
        st,
        images,
        shapes,
        content_top,
        column_x,
        column_width,
    );
}

fn set_run_at_cursor(
    state: &PageLayoutState<'_>,
    job: &ParagraphJob<'_, '_>,
    run: &mut ParagraphRun,
    new_floats: bool,
)
    requires
        job.sound(),
        state@.current_col < job.ctx.config.columns@.len(),
    ensures
        flow_view(*state, *final(run)) == flow_view(*state, *old(run)).set_at_cursor(
            job@,
            new_floats,
        ),
{
    run.set.page_x = job.ctx.config.column_x(state.current_col);
    run.set.page_y = state.cursor_y;
    if new_floats {
        run.set.floats = copy_floats(&state.page_floats);
    }
    assert(flow_view(*state, *run) =~= flow_view(*state, *old(run)).set_at_cursor(job@, new_floats));
}

fn go_past_page_break(
    state: &mut PageLayoutState<'_>,
    job: &ParagraphJob<'_, '_>,
    run: &mut ParagraphRun,
)
    requires
        job.sound(),
        old(state)@.current_col < job.ctx.config.columns@.len(),
    ensures
        flow_view(*final(state), *final(run)) == flow_view(
            *old(state),
            *old(run),
        ).after_page_break(job@),
        final(state)@.current_col < job.ctx.config.columns@.len(),
{
    reveal(ParaFlow::after_page_break);
    take_floats_back(state, job, run, true);
    state.push_new_page(job.block_idx, &job.ctx);
    state.forget_space();
    run.start_y = state.cursor_y;
    place_floats_here(state, job, run, true);
    set_run_at_cursor(state, job, run, true);
}

fn go_past_column_break(
    state: &mut PageLayoutState<'_>,
    job: &ParagraphJob<'_, '_>,
    run: &mut ParagraphRun,
)
    requires
        job.sound(),
        old(state)@.current_col < job.ctx.config.columns@.len(),
    ensures
        flow_view(*final(state), *final(run)) == flow_view(
            *old(state),
            *old(run),
        ).after_column_break(job@),
        final(state)@.current_col < job.ctx.config.columns@.len(),
{
    reveal(ParaFlow::after_column_break);
    let columns: usize = job.ctx.config.num_columns();
    let new_page = state.current_col + 1 >= columns;
    take_floats_back(state, job, run, new_page);
    let ghost back = state@;
    if new_page {
        state.push_new_page(job.block_idx, &job.ctx);
    } else {
        state.current_col = state.current_col + 1;
        assert(state@ =~= (FlowState { current_col: (back.current_col + 1) as usize, ..back }));
    }
    let ghost moved = state@;
    state.cursor_y = state.column_top;
    assert(state@ =~= (FlowState { cursor_y: moved.column_top, ..moved }));
    place_floats_here(state, job, run, new_page);
    set_run_at_cursor(state, job, run, new_page);
}

fn clear_own_band(
    state: &mut PageLayoutState<'_>,
    job: &ParagraphJob<'_, '_>,
    run: &mut ParagraphRun,
    chunk: &[Fragment],
)
    requires
        job.sound(),
        old(state)@.current_col < job.ctx.config.columns@.len(),
    ensures
        flow_view(*final(state), *final(run)) == flow_view(*old(state), *old(run)).cleared(
            job@,
            chunk@,
        ),
        final(state)@.current_col == old(state)@.current_col,
{
    reveal(ParaFlow::cleared);
    if contains_flow_break(job.para.fragments) || job.para.footnotes.len() != 0
        || run.set.style.borders.is_some() || run.set.style.shading.is_some()
        || run.set.style.drop_cap.is_some() {
        return ;
    }
    let p = place_in_column(state, &job.ctx, &run.set, chunk);
    match wps_trailing_space_clearance_start(
        state.cursor_y,
        state.bottom,
        &run.set.style,
        &p,
        chunk,
        job.para.images,
        job.para.shapes,
    ) {
        None => {},
        Some(y) => {
            let ghost before = state@;
            state.cursor_y = y;
            state.prune();
            assert(state@ =~= (FlowState {
                cursor_y: y,
                page_floats: live_floats(before.page_floats, y),
                ..before
            }));
            run.start_y = y;
            run.set.page_y = y;
            run.set.floats = state.effective_floats_at_cursor(
                job.blocks,
                job.relocated,
                job.ctx.config.num_columns(),
                run.set.style.space_before,
                run.set.page_x,
                job.ctx.config.columns[state.current_col].width,
            );
            assert(flow_view(*state, *run) =~= flow_view(*old(state), *old(run)).cleared(
                job@,
                chunk@,
            ));
        },
    }
}

fn move_whole(state: &mut PageLayoutState<'_>, job: &ParagraphJob<'_, '_>, run: &mut ParagraphRun)
    requires
        job.sound(),
        old(state)@.current_col < job.ctx.config.columns@.len(),
    ensures
        flow_view(*final(state), *final(run)) == flow_view(*old(state), *old(run)).moved_whole(
            job@,
        ),
        final(state)@.current_col < job.ctx.config.columns@.len(),
        final(run).content_placed == old(run).content_placed,
        final(run).notes_reserved == old(run).notes_reserved,
{
    reveal(ParaFlow::moved_whole);
    take_floats_back(state, job, run, true);
    state.advance_column_or_page(job.block_idx, &job.ctx);
    run.set.style.space_before = Pt::zero();
    run.start_y = state.cursor_y;
    place_floats_here(state, job, run, true);
    set_run_at_cursor(state, job, run, true);
    assert(flow_view(*state, *run) =~= flow_view(*old(state), *old(run)).moved_whole(job@));
}

fn draw_whole(
    state: &mut PageLayoutState<'_>,
    job: &ParagraphJob<'_, '_>,
    run: &ParagraphRun,
    chunk: &[Fragment],
)
    requires
        job.sound(),
        old(state)@.current_col < job.ctx.config.columns@.len(),
    ensures
        flow_view(*final(state), *run) == flow_view(*old(state), *run).drawn_whole(job@, chunk@),
        final(state)@.current_col == old(state)@.current_col,
{
    reveal(ParaFlow::drawn_whole);
    let p = place_in_column(state, &job.ctx, &run.set, chunk);
    let col: usize = state.current_col;
    let segment = p.emit_full(
        &run.set.style,
        job.ctx.config.columns[col].width,
        state.bottom.minus(state.page_top).max(Pt::zero()),
    );
    state.draw_segment(&segment, job.ctx.config.column_x(col));
}

fn can_divide(
    state: &PageLayoutState<'_>,
    job: &ParagraphJob<'_, '_>,
    run: &ParagraphRun,
    chunk: &[Fragment],
) -> (r: bool)
    requires
        job.sound(),
        state@.current_col < job.ctx.config.columns@.len(),
    ensures
        r == flow_view(*state, *run).may_be_divided(job@, chunk@),
{
    reveal(ParaFlow::may_be_divided);
    let single = !contains_flow_break(job.para.fragments);
    if !paragraph_breakable(
        &run.set.style,
        job.para.footnotes,
        job.para.images,
        job.para.shapes,
        single,
    ) {
        return false;
    }
    let p = place_in_column(state, &job.ctx, &run.set, chunk);
    p.line_count() >= 2
}

fn has_to_leave(
    state: &PageLayoutState<'_>,
    job: &ParagraphJob<'_, '_>,
    run: &ParagraphRun,
    chunk: &[Fragment],
) -> (r: bool)
    requires
        job.sound(),
        state@.current_col < job.ctx.config.columns@.len(),
    ensures
        r == flow_view(*state, *run).must_leave(job@, chunk@),
{
    reveal(ParaFlow::must_leave);
    let p = place_in_column(state, &job.ctx, &run.set, chunk);
    let height = p.emit_full(
        &run.set.style,
        job.ctx.config.columns[state.current_col].width,
        state.bottom.minus(state.page_top).max(Pt::zero()),
    ).height;
    state.cursor_y.plus(height).units > state.bottom.units && !state.at_full_column_top()
        && !job.may_overflow
}

fn draw_in_parts<'doc>(
    state: &mut PageLayoutState<'doc>,
    job: &ParagraphJob<'_, 'doc>,
    run: &mut ParagraphRun,
    chunk: &[Fragment],
)
    requires
        job.sound(),
        old(state)@.current_col < job.ctx.config.columns@.len(),
    ensures
        flow_view(*final(state), *final(run)) == flow_view(*old(state), *old(run)).drawn_in_parts(
            job@,
            chunk@,
        ),
        final(state)@.current_col < job.ctx.config.columns@.len(),
{
    reveal(ParaFlow::drawn_in_parts);
    let setting = Setting {
        style: run.set.style,
        floats: copy_floats(&run.set.floats),
        page_x: run.set.page_x,
        page_y: run.set.page_y,
    };
    assert(setting@ =~= run.set@);
    let start_y = emit_split_paragraph(
        state,
        chunk,
        setting,
        job.block_idx,
        &job.ctx,
        job.para.footnotes,
        job.blocks,
        job.relocated,
        run.start_y,
    );
    run.start_y = start_y;
    if job.para.footnotes.len() != 0 {
        run.notes_reserved = true;
    }
}

/// Place the content between two breaks. Returns whether the page has to be placed anew instead.
fn place_chunk<'doc>(
    state: &mut PageLayoutState<'doc>,
    job: &ParagraphJob<'_, 'doc>,
    run: &mut ParagraphRun,
    chunk: &[Fragment],
    index: usize,
) -> (r: bool)
    requires
        job.sound(),
        old(state)@.current_col < job.ctx.config.columns@.len(),
    ensures
        (flow_view(*final(state), *final(run)), r) == flow_view(
            *old(state),
            *old(run),
        ).with_chunk(job@, chunk@, index as int),
        final(state)@.current_col < job.ctx.config.columns@.len(),
{
    let columns: usize = job.ctx.config.num_columns();
    if index > 0 {
        if mark_absolute_float_relocation(
            job,
            run.content_placed,
            state.current_col + 1 >= columns,
        ) {
            return true;
        }
        go_past_column_break(state, job, run);
    }
    clear_own_band(state, job, run, chunk);
    if can_divide(state, job, run, chunk) {
        draw_in_parts(state, job, run, chunk);
    } else {
        if has_to_leave(state, job, run, chunk) {
            if mark_absolute_float_relocation(
                job,
                run.content_placed,
                state.current_col + 1 >= columns,
            ) {
                return true;
            }
            move_whole(state, job, run);
        }
        draw_whole(state, job, run, chunk);
    }
    if chunk.len() != 0 {
        run.content_placed = true;
    }
    false
}

/// Place the content between two page breaks. Returns whether the page has to be placed anew
/// instead.
fn place_column_chunks<'doc>(
    state: &mut PageLayoutState<'doc>,
    job: &ParagraphJob<'_, 'doc>,
    run: &mut ParagraphRun,
    content: &[Fragment],
) -> (r: bool)
    requires
        job.sound(),
        old(state)@.current_col < job.ctx.config.columns@.len(),
    ensures
        (flow_view(*final(state), *final(run)), r) == flow_view(
            *old(state),
            *old(run),
        ).with_column_chunks(job@, content@, 0, 0),
        final(state)@.current_col < job.ctx.config.columns@.len(),
{
    let ghost begin = flow_view(*state, *run);
    let mut from: usize = 0;
    let mut index: usize = 0;
    loop
        invariant
            begin == flow_view(*old(state), *old(run)),
            job.sound(),
            state@.current_col < job.ctx.config.columns@.len(),
            index <= from <= content@.len(),
            flow_view(*state, *run).with_column_chunks(
                job@,
                content@,
                from as int,
                index as int,
            ) == begin.with_column_chunks(job@, content@, 0, 0),
        decreases content@.len() - from,
    {
        let end: usize = find_column_break(content, from);
        let replay = place_chunk(state, job, run, slice_subrange(content, from, end), index);
        if replay || end >= content.len() {
            return replay;
        }
        from = end + 1;
        index = index + 1;
    }
}

/// Place the content of a paragraph. Returns whether the page has to be placed anew instead, and
/// whether a page break is left that nothing has followed yet.
pub fn place_page_chunks<'doc>(
    state: &mut PageLayoutState<'doc>,
    job: &ParagraphJob<'_, 'doc>,
    run: &mut ParagraphRun,
) -> (r: (bool, bool))
    requires
        job.sound(),
        old(state)@.current_col < job.ctx.config.columns@.len(),
    ensures
        (flow_view(*final(state), *final(run)), r.0, r.1) == flow_view(
            *old(state),
            *old(run),
        ).with_page_chunks(job@, 0, false),
        final(state)@.current_col < job.ctx.config.columns@.len(),
{
    let ghost begin = flow_view(*state, *run);
    let fragments = job.para.fragments;
    let mut from: usize = 0;
    let mut unresolved = false;
    loop
        invariant
            begin == flow_view(*old(state), *old(run)),
            job.sound(),
            fragments@ == job.para.fragments@,
            state@.current_col < job.ctx.config.columns@.len(),
            from <= fragments@.len(),
            flow_view(*state, *run).with_page_chunks(job@, from as int, unresolved)
                == begin.with_page_chunks(job@, 0, false),
        decreases fragments@.len() - from,
    {
        let end: usize = find_page_break(fragments, from);
        let content = slice_subrange(fragments, from, end);
        let mut replay = false;
        if from != end {
            if unresolved {
                if mark_absolute_float_relocation(job, run.content_placed, true) {
                    return (true, unresolved);
                }
                go_past_page_break(state, job, run);
            }
            replay = place_column_chunks(state, job, run, content);
            unresolved = false;
        }
        if replay || end >= fragments.len() {
            return (replay, unresolved);
        }
        from = end + 1;
        unresolved = true;
    }
}

} // verus!
