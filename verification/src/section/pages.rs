//! Pages that are done stay as they are.
use crate::block::{FloatingImage, FloatingShape, LayoutBlock, LayoutFootnote, TableFloatInfo};
use crate::dimension::Pt;
use crate::fragment::Fragment;
use crate::page::PageView;
use crate::section::floats::FlowPlace;
use crate::section::layout::{begun, ended, may_overflow, paragraph_of, table_of, SectionFlow};
use crate::section::paragraph_flow::{
    next_column_break, next_page_break, FlowJob, ParaFlow, ParagraphInFlow,
};
use crate::section::split::{
    continued, place_of, split_from, staying_lines, with_split_segment, SplitJob, TextSetting,
};
use crate::section::state::{FlowState, LayoutCtx};
use crate::section::table_flow::TableInFlow;
use crate::style::ParagraphStyle;
use crate::table::layout::SliceView;
use vstd::prelude::*;

verus! {

/// Whether all of `before` stand at the start of `after`.
pub open spec fn keeps_pages(before: Seq<PageView>, after: Seq<PageView>) -> bool {
    before.len() <= after.len() && forall|i: int| #![trigger after[i]]
        0 <= i < before.len() ==> after[i] == before[i]
}

/// Whether `after` comes from `before` by placing more: the pages that were done stay, and each one that
/// has been turned since counts.
pub open spec fn follows(before: FlowState<'_>, after: FlowState<'_>) -> bool {
    &&& keeps_pages(before.pages, after.pages)
    &&& after.page_index == {
        let index = before.page_index + after.pages.len() - before.pages.len();
        if index <= usize::MAX {
            index
        } else {
            usize::MAX as int
        }
    }
}

proof fn lemma_images<'doc>(
    st: FlowState<'doc>,
    images: Seq<FloatingImage>,
    i: int,
    top: Pt,
    x: Pt,
    width: Pt,
)
    ensures
        st.with_images(images, i, top, x, width).pages == st.pages,
        st.with_images(images, i, top, x, width).page_index == st.page_index,
        st.with_free_images(images, i, top).pages == st.pages,
        st.with_free_images(images, i, top).page_index == st.page_index,
    decreases images.len() - i,
{
    if 0 <= i < images.len() {
        let frame = images[i].frame;
        let y = frame.y.resolve(top);
        let f = crate::section::floats::frame_float(
            frame,
            y,
            st.parity(),
            x,
            width,
            crate::float::FloatSource::Image,
        );
        let next = if frame.is_wrap_top_and_bottom() {
            st.with_image(images[i], y).with_room(frame, f)
        } else if frame.wrap_mode.registers_as_wrap_float() {
            st.with_room(frame, f)
        } else {
            st
        };
        lemma_images(next, images, i + 1, top, x, width);
        let free = if frame.is_wrap_top_and_bottom() {
            st
        } else {
            st.with_image(images[i], y)
        };
        lemma_images(free, images, i + 1, top, x, width);
    }
}

proof fn lemma_shape_text<'doc>(st: FlowState<'doc>, shape: FloatingShape, y: Pt, i: int)
    ensures
        st.with_shape_text(shape, y, i).pages == st.pages,
        st.with_shape_text(shape, y, i).page_index == st.page_index,
    decreases shape.text_commands@.len() - i,
{
    if 0 <= i < shape.text_commands@.len() {
        let next = st.with_floating_command(
            shape.frame,
            shape.text_commands@[i].shifted(shape.frame.x.resolve(st.parity()), y),
        );
        lemma_shape_text(next, shape, y, i + 1);
    }
}

proof fn lemma_shape<'doc>(st: FlowState<'doc>, shape: FloatingShape, y: Pt)
    ensures
        st.with_shape(shape, y).pages == st.pages,
        st.with_shape(shape, y).page_index == st.page_index,
{
    let drawn = st.with_floating_command(
        shape.frame,
        crate::draw_command::DrawCommand::Path {
            rect: crate::geometry::PtRect::from_xywh(
                shape.frame.x.resolve(st.parity()),
                y,
                shape.frame.size.width,
                shape.frame.size.height,
            ),
            path: shape.path,
        },
    );
    lemma_shape_text(drawn, shape, y, 0);
}

proof fn lemma_shapes<'doc>(
    st: FlowState<'doc>,
    shapes: Seq<FloatingShape>,
    i: int,
    top: Pt,
    x: Pt,
    width: Pt,
)
    ensures
        st.with_shapes(shapes, i, top, x, width).pages == st.pages,
        st.with_shapes(shapes, i, top, x, width).page_index == st.page_index,
        st.with_free_shapes(shapes, i, top).pages == st.pages,
        st.with_free_shapes(shapes, i, top).page_index == st.page_index,
    decreases shapes.len() - i,
{
    if 0 <= i < shapes.len() {
        let frame = shapes[i].frame;
        let y = frame.y.resolve(top);
        let f = crate::section::floats::frame_float(
            frame,
            y,
            st.parity(),
            x,
            width,
            crate::float::FloatSource::Shape,
        );
        lemma_shape(st, shapes[i], y);
        let next = if frame.is_wrap_top_and_bottom() {
            st.with_shape(shapes[i], y).with_room(frame, f)
        } else if frame.wrap_mode.registers_as_wrap_float() {
            st.with_room(frame, f)
        } else {
            st
        };
        lemma_shapes(next, shapes, i + 1, top, x, width);
        let free = if frame.is_wrap_top_and_bottom() {
            st
        } else {
            st.with_shape(shapes[i], y)
        };
        lemma_shapes(free, shapes, i + 1, top, x, width);
    }
}

proof fn lemma_paragraph_floats<'doc>(
    st: FlowState<'doc>,
    images: Seq<FloatingImage>,
    shapes: Seq<FloatingShape>,
    top: Pt,
    x: Pt,
    width: Pt,
)
    ensures
        st.with_paragraph_floats(images, shapes, top, x, width).pages == st.pages,
        st.with_paragraph_floats(images, shapes, top, x, width).page_index == st.page_index,
{
    lemma_images(st, images, 0, top, x, width);
    lemma_shapes(st.with_images(images, 0, top, x, width), shapes, 0, top, x, width);
}

proof fn lemma_reserved_note<'doc>(
    st: FlowState<'doc>,
    ctx: LayoutCtx<'_>,
    note: LayoutFootnote,
    i: int,
)
    ensures
        st.with_reserved_note(ctx, note, i).pages == st.pages,
        st.with_reserved_note(ctx, note, i).page_index == st.page_index,
    decreases note.paragraphs@.len() - i,
{
    if 0 <= i < note.paragraphs@.len() {
        let paragraph = note.paragraphs@[i];
        let height = crate::paragraph::laid_out(
            paragraph.fragments@,
            paragraph.style,
            ctx.config.content_width(),
            Pt::infinity(),
            ctx.default_line_height,
        ).height;
        let bottom = if st.footnotes.len() == 0 {
            st.bottom.minus(crate::section::state::footnote_separator_gap())
        } else {
            st.bottom
        };
        let next = FlowState {
            bottom: bottom.minus(height),
            footnotes: st.footnotes.push(&note.paragraphs@[i]),
            ..st
        };
        lemma_reserved_note(next, ctx, note, i + 1);
    }
}

proof fn lemma_reserved<'doc>(
    st: FlowState<'doc>,
    ctx: LayoutCtx<'_>,
    footnotes: Seq<LayoutFootnote>,
    n: int,
    end: int,
)
    ensures
        st.with_reserved(ctx, footnotes, n, end).pages == st.pages,
        st.with_reserved(ctx, footnotes, n, end).page_index == st.page_index,
    decreases end - n,
{
    if 0 <= n < end {
        lemma_reserved_note(st, ctx, footnotes[n], 0);
        lemma_reserved(st.with_reserved_note(ctx, footnotes[n], 0), ctx, footnotes, n + 1, end);
    }
}

proof fn lemma_reserved_refs<'doc>(
    st: FlowState<'doc>,
    ctx: LayoutCtx<'_>,
    footnotes: Seq<&'doc LayoutFootnote>,
    n: int,
)
    ensures
        st.with_reserved_refs(ctx, footnotes, n).pages == st.pages,
        st.with_reserved_refs(ctx, footnotes, n).page_index == st.page_index,
    decreases footnotes.len() - n,
{
    if 0 <= n < footnotes.len() {
        lemma_reserved_note(st, ctx, *footnotes[n], 0);
        lemma_reserved_refs(
            st.with_reserved_note(ctx, *footnotes[n], 0),
            ctx,
            footnotes,
            n + 1,
        );
    }
}

proof fn lemma_continued<'doc>(st: FlowState<'doc>, job: SplitJob<'_>, first_segment: bool)
    ensures
        continued(st, job, first_segment).0.pages == st.pages,
        continued(st, job, first_segment).0.page_index == st.page_index,
{
    reveal(continued);
}

proof fn lemma_split_segment<'doc>(
    st: FlowState<'doc>,
    job: SplitJob<'_>,
    set: TextSetting,
    p: crate::paragraph::PlacedView,
    fragments: Seq<Fragment>,
    first_segment: bool,
    head: int,
    noted: int,
)
    ensures
        with_split_segment(st, job, set, p, fragments, first_segment, head, noted).0.pages
            == st.pages,
        with_split_segment(st, job, set, p, fragments, first_segment, head, noted).0.page_index
            == st.page_index,
{
    reveal(with_split_segment);
    let col = st.current_col as int;
    let drawn = st.with_segment(
        p.segment(
            set.style,
            job.ctx.config.columns@[col].width,
            head,
            first_segment,
            head == p.lines.len(),
        ),
        job.ctx.config.col_x(col),
    );
    let refs = crate::paragraph::count_references(
        fragments,
        0,
        p.lines[head - 1].end as int,
        0,
    );
    let end = if noted + refs < job.footnotes.len() {
        noted + refs
    } else {
        job.footnotes.len() as int
    };
    lemma_reserved(drawn, job.ctx, job.footnotes, noted, end);
}

proof fn lemma_split_from<'doc>(
    st: FlowState<'doc>,
    job: SplitJob<'_>,
    set: TextSetting,
    from: int,
    first_segment: bool,
    noted: int,
    fresh_page: bool,
    start_y: Pt,
)
    ensures
        follows(st, split_from(st, job, set, from, first_segment, noted, fresh_page, start_y).0),
    decreases
            job.fragments.len() - from,
            if fresh_page {
                0
            } else {
                job.ctx.config.columns@.len() - st.current_col
            },
{
    let columns = job.ctx.config.columns@.len();
    let fragments = job.fragments.subrange(from, job.fragments.len() as int);
    let p = crate::paragraph::placed(fragments, place_of(st, job.ctx, set), set.style);
    let at_top = st.at_full_column_top() || fresh_page;
    if !(from < 0 || from > job.fragments.len() || st.current_col >= columns) {
        match staying_lines(st, job, set, p, fragments, first_segment, at_top) {
            None => {
                let moved = st.advanced(job.ctx, job.block_idx);
                let (next, next_set) = continued(moved, job, first_segment);
                let next_fresh = st.current_col + 1 >= columns;
                lemma_continued(moved, job, first_segment);
                if !(fresh_page || next.current_col >= columns || (!next_fresh && next.current_col
                    != st.current_col + 1)) {
                    lemma_split_from(
                        next,
                        job,
                        next_set,
                        from,
                        first_segment,
                        noted,
                        next_fresh,
                        moved.cursor_y,
                    );
                }
            },
            Some(head) => {
                let (drawn, next_noted) = with_split_segment(
                    st,
                    job,
                    set,
                    p,
                    fragments,
                    first_segment,
                    head as int,
                    noted,
                );
                lemma_split_segment(
                    st,
                    job,
                    set,
                    p,
                    fragments,
                    first_segment,
                    head as int,
                    noted,
                );
                let next_from = from + p.lines[head as int].start;
                if !(head >= p.lines.len() || next_from <= from || next_from
                    > job.fragments.len()) {
                    let moved = drawn.advanced(job.ctx, job.block_idx);
                    let (next, next_set) = continued(moved, job, false);
                    lemma_continued(moved, job, false);
                    lemma_split_from(
                        next,
                        job,
                        next_set,
                        next_from,
                        false,
                        next_noted,
                        false,
                        moved.cursor_y,
                    );
                }
            },
        }
    }
}

proof fn lemma_placed_here(pf: ParaFlow<'_>, job: FlowJob<'_>, condition: bool, new_floats: bool)
    ensures
        pf.floats_placed_here(job, condition).set_at_cursor(job, new_floats).st.pages
            == pf.st.pages,
        pf.floats_placed_here(job, condition).set_at_cursor(job, new_floats).st.page_index
            == pf.st.page_index,
{
    let col = pf.st.current_col as int;
    lemma_paragraph_floats(
        pf.st,
        job.para.images,
        job.para.shapes,
        pf.st.cursor_y.plus(pf.set.style.space_before),
        job.ctx.config.col_x(col),
        job.ctx.config.columns@[col].width,
    );
}

proof fn lemma_after_break(pf: ParaFlow<'_>, job: FlowJob<'_>)
    ensures
        follows(pf.st, pf.after_page_break(job).st),
        follows(pf.st, pf.after_column_break(job).st),
        follows(pf.st, pf.moved_whole(job).st),
{
    reveal(ParaFlow::after_page_break);
    reveal(ParaFlow::after_column_break);
    reveal(ParaFlow::moved_whole);
    let back = pf.floats_taken_back(job, true);
    let turned = back.st.on_new_page(job.block_idx, job.ctx).without_space();
    lemma_placed_here(
        ParaFlow { st: turned, start_y: turned.cursor_y, ..back },
        job,
        true,
        true,
    );
    let new_page = pf.st.current_col + 1 >= job.ctx.config.columns@.len();
    let column_back = pf.floats_taken_back(job, new_page);
    let moved = if new_page {
        column_back.st.on_new_page(job.block_idx, job.ctx)
    } else {
        FlowState { current_col: (column_back.st.current_col + 1) as usize, ..column_back.st }
    };
    let at_top = FlowState { cursor_y: moved.column_top, ..moved };
    lemma_placed_here(ParaFlow { st: at_top, ..column_back }, job, new_page, new_page);
    let advanced = back.st.advanced(job.ctx, job.block_idx);
    let bare = TextSetting {
        style: ParagraphStyle { space_before: Pt::zero(), ..back.set.style },
        ..back.set
    };
    lemma_placed_here(
        ParaFlow { st: advanced, set: bare, start_y: advanced.cursor_y, ..back },
        job,
        true,
        true,
    );
}

proof fn lemma_drawn(pf: ParaFlow<'_>, job: FlowJob<'_>, chunk: Seq<Fragment>)
    ensures
        pf.cleared(job, chunk).st.pages == pf.st.pages,
        pf.cleared(job, chunk).st.page_index == pf.st.page_index,
        pf.drawn_whole(job, chunk).st.pages == pf.st.pages,
        pf.drawn_whole(job, chunk).st.page_index == pf.st.page_index,
        follows(pf.st, pf.drawn_in_parts(job, chunk).st),
{
    reveal(ParaFlow::cleared);
    reveal(ParaFlow::drawn_whole);
    reveal(ParaFlow::drawn_in_parts);
    lemma_split_from(
        pf.st,
        SplitJob {
            ctx: job.ctx,
            place: job.place,
            fragments: chunk,
            style: pf.set.style,
            footnotes: job.para.footnotes,
            block_idx: job.block_idx,
        },
        pf.set,
        0,
        true,
        0,
        false,
        pf.start_y,
    );
}

proof fn lemma_with_chunk(pf: ParaFlow<'_>, job: FlowJob<'_>, chunk: Seq<Fragment>, index: int)
    ensures
        follows(pf.st, pf.with_chunk(job, chunk, index).0.st),
{
    lemma_after_break(pf, job);
    let start = if index > 0 {
        pf.after_column_break(job)
    } else {
        pf
    };
    let at = start.cleared(job, chunk);
    lemma_drawn(start, job, chunk);
    lemma_drawn(at, job, chunk);
    lemma_after_break(at, job);
    lemma_drawn(at.moved_whole(job), job, chunk);
}

proof fn lemma_column_chunks(
    pf: ParaFlow<'_>,
    job: FlowJob<'_>,
    content: Seq<Fragment>,
    from: int,
    index: int,
)
    ensures
        follows(pf.st, pf.with_column_chunks(job, content, from, index).0.st),
    decreases content.len() - from,
{
    let end = next_column_break(content, from);
    let (next, replay) = pf.with_chunk(job, content.subrange(from, end), index);
    lemma_with_chunk(pf, job, content.subrange(from, end), index);
    if !(replay || end >= content.len() || end < from) {
        lemma_column_chunks(next, job, content, end + 1, index + 1);
    }
}

pub(crate) proof fn lemma_page_chunks(
    pf: ParaFlow<'_>,
    job: FlowJob<'_>,
    from: int,
    unresolved: bool,
)
    ensures
        follows(pf.st, pf.with_page_chunks(job, from, unresolved).0.st),
    decreases job.para.fragments.len() - from,
{
    let fragments = job.para.fragments;
    let end = next_page_break(fragments, from);
    let content = fragments.subrange(from, end);
    lemma_after_break(pf, job);
    let at = if unresolved {
        pf.after_page_break(job)
    } else {
        pf
    };
    lemma_column_chunks(at, job, content, 0, 0);
    if !(end >= fragments.len() || end < from) {
        lemma_page_chunks(pf, job, end + 1, true);
        lemma_page_chunks(at.with_column_chunks(job, content, 0, 0).0, job, end + 1, true);
    }
}

pub(crate) proof fn lemma_begun<'doc>(
    st: FlowState<'doc>,
    ctx: LayoutCtx<'_>,
    place: FlowPlace,
    block_idx: usize,
    para: ParagraphInFlow,
)
    ensures
        follows(st, begun(st, ctx, place, block_idx, para).0.st),
{
    reveal(begun);
    let style = crate::section::layout::style_in_place(st, para.style);
    let joined = FlowState { cursor_y: st.cursor_y.minus(st.previous.overlap(&style)), ..st };
    let col = st.current_col as int;
    lemma_paragraph_floats(
        joined,
        para.images,
        para.shapes,
        joined.cursor_y.plus(style.space_before),
        ctx.config.col_x(col),
        ctx.config.columns@[col].width,
    );
}

pub(crate) proof fn lemma_ended(
    pf: ParaFlow<'_>,
    ctx: LayoutCtx<'_>,
    para: ParagraphInFlow,
    left: bool,
)
    ensures
        ended(pf, ctx, para, left).pages == pf.st.pages,
        ended(pf, ctx, para, left).page_index == pf.st.page_index,
{
    reveal(ended);
    let style = pf.set.style;
    let st = FlowState {
        pending_page_break: pf.st.pending_page_break || left,
        first_on_section_page: false,
        prev_borders: para.style.borders,
        previous: crate::style::PreviousParagraph::of(&style),
        prev_table_style_id: None,
        ..pf.st
    };
    let top = pf.start_y.plus(style.space_before);
    lemma_images(st, para.images, 0, top, Pt::zero(), Pt::zero());
    let imaged = st.with_free_images(para.images, 0, top);
    lemma_shapes(imaged, para.shapes, 0, top, Pt::zero(), Pt::zero());
    let drawn = imaged.with_free_shapes(para.shapes, 0, top);
    lemma_reserved(drawn, ctx, para.footnotes, 0, para.footnotes.len() as int);
}

proof fn lemma_floating_slices<'doc>(
    st: FlowState<'doc>,
    ctx: LayoutCtx<'_>,
    block_idx: usize,
    slices: Seq<SliceView<'doc>>,
    i: int,
    x: Pt,
    start_y: Pt,
    width: Pt,
)
    ensures
        follows(st, st.with_floating_slices(ctx, block_idx, slices, i, x, start_y, width)),
    decreases slices.len() - i,
{
    if 0 <= i < slices.len() {
        let at = if i > 0 {
            st.on_new_page(block_idx, ctx).without_space()
        } else {
            st
        };
        let y = if i > 0 {
            at.page_top
        } else {
            start_y
        };
        lemma_reserved_refs(
            at.drawn(crate::draw_command::shift_all(slices[i].commands, x, y)),
            ctx,
            slices[i].footnotes,
            0,
        );
        let drawn = at.with_slice(ctx, slices[i], x, y);
        let next = FlowState {
            page_floats: drawn.page_floats.push(
                crate::float::ActiveFloat {
                    page_x: x,
                    page_y_start: y,
                    page_y_end: y.plus(slices[i].size.height),
                    width,
                    source: crate::float::FloatSource::Table { owner_block_idx: block_idx },
                    vertical_exclusion: false,
                    wrap_text: crate::float::WrapTextSide::BothSides,
                },
            ),
            column_reactivation_unsafe: true,
            ..drawn
        };
        lemma_floating_slices(next, ctx, block_idx, slices, i + 1, x, start_y, width);
    }
}

proof fn lemma_table_slices<'doc>(
    st: FlowState<'doc>,
    ctx: LayoutCtx<'_>,
    block_idx: usize,
    table: TableInFlow,
    slices: Seq<SliceView<'doc>>,
    i: int,
    in_columns: bool,
)
    ensures
        follows(st, st.with_table_slices(ctx, block_idx, table, slices, i, in_columns)),
    decreases slices.len() - i,
{
    if 0 <= i < slices.len() {
        let at = if i > 0 {
            if in_columns && st.current_col + 1 < ctx.config.columns@.len() {
                FlowState {
                    current_col: (st.current_col + 1) as usize,
                    cursor_y: st.column_top,
                    ..st
                }
            } else {
                st.on_new_page(block_idx, ctx)
            }
        } else {
            st
        };
        let col = at.current_col as int;
        let x = crate::section::table_flow::table_x_offset(
            table.alignment,
            table.indent,
            crate::dimension::sum(table.col_widths),
            ctx.config.columns@[col].width,
            ctx.config.col_x(col),
        );
        let drawn = at.drawn(crate::draw_command::shift_all(slices[i].commands, x, at.cursor_y));
        let moved = FlowState { cursor_y: drawn.cursor_y.plus(slices[i].size.height), ..drawn };
        lemma_reserved_refs(moved, ctx, slices[i].footnotes, 0);
        lemma_table_slices(
            moved.with_reserved_refs(ctx, slices[i].footnotes, 0),
            ctx,
            block_idx,
            table,
            slices,
            i + 1,
            in_columns,
        );
    }
}

pub(crate) proof fn lemma_floating_table<'doc>(
    st: FlowState<'doc>,
    ctx: LayoutCtx<'_>,
    block_idx: usize,
    table: TableInFlow,
    info: TableFloatInfo,
)
    ensures
        follows(st, st.with_floating_table(ctx, block_idx, table, info)),
{
    assert forall|at: FlowState<'doc>, slices: Seq<SliceView<'doc>>, x: Pt, y: Pt, width: Pt|
        follows(at, #[trigger] at.with_floating_slices(ctx, block_idx, slices, 0, x, y, width)) by {
        lemma_floating_slices(at, ctx, block_idx, slices, 0, x, y, width);
    }
}

pub(crate) proof fn lemma_inline_table<'doc>(
    st: FlowState<'doc>,
    ctx: LayoutCtx<'_>,
    blocks: Seq<LayoutBlock>,
    block_idx: usize,
    table: TableInFlow,
    admitted: usize,
)
    ensures
        follows(st, st.with_inline_table(ctx, blocks, block_idx, table, admitted).0),
{
    let moved = st.moved_for_table(ctx, blocks, block_idx, admitted).0;
    assert(follows(st, moved));
    assert forall|at: FlowState<'doc>, slices: Seq<SliceView<'doc>>, in_columns: bool|
        follows(at, #[trigger] at.with_table_slices(ctx, block_idx, table, slices, 0, in_columns)) by {
        lemma_table_slices(at, ctx, block_idx, table, slices, 0, in_columns);
    }
}

/// Placing a block leaves the pages that are done as they are; also where the current page has to
/// be placed anew.
pub proof fn law_finished_pages_stay<'doc>(
    flow: SectionFlow<'doc>,
    ctx: LayoutCtx<'_>,
    blocks: Seq<LayoutBlock>,
    block_idx: usize,
)
    ensures
        keeps_pages(flow.st.pages, flow.with_block(ctx, blocks, block_idx).0.st.pages),
{
    reveal(SectionFlow::with_block);
    let at = flow.with_pending_break(ctx, block_idx).refreshed(block_idx);
    let block = blocks[block_idx as int];
    match block {
        LayoutBlock::Paragraph { .. } => {
            let para = paragraph_of(block);
            let turned = if para.page_break_before && at.st.cursor_y.units
                > at.st.page_top.units {
                at.st.on_new_page(block_idx, ctx).without_space()
            } else {
                at.st
            };
            reveal(FlowState::moved_for_chain);
            let begin = at.before_paragraph(ctx, blocks, block_idx);
            assert(follows(at.st, begin.st));
            let place = FlowPlace {
                blocks,
                relocated: begin.relocated,
                num_cols: ctx.config.columns@.len() as usize,
            };
            let (start, checkpoint) = begun(begin.st, ctx, place, block_idx, para);
            lemma_begun(begin.st, ctx, place, block_idx, para);
            let job = FlowJob {
                ctx,
                place,
                block_idx,
                replay_block: begin.replay_block,
                para,
                checkpoint,
                may_overflow: may_overflow(start.st, blocks, block_idx as int),
            };
            lemma_page_chunks(start, job, 0, false);
            let (pf, replay, left) = start.with_page_chunks(job, 0, false);
            lemma_ended(pf, ctx, para, left);
        },
        LayoutBlock::Table { float_info, .. } => {
            let table = table_of(block);
            match float_info {
                Some(info) => {
                    lemma_floating_table(at.st, ctx, block_idx, table, info);
                },
                None => {
                    lemma_inline_table(at.st, ctx, blocks, block_idx, table, at.admitted);
                },
            }
        },
    }
}

/// Placing more blocks leaves the pages that are done as they are, and so does the end of a section.
pub proof fn law_finished_pages_stay_to_the_end<'doc>(
    flow: SectionFlow<'doc>,
    ctx: LayoutCtx<'_>,
    blocks: Seq<LayoutBlock>,
    i: int,
    preserve_continuation: bool,
)
    ensures
        keeps_pages(
            flow.st.pages,
            flow.with_blocks(ctx, blocks, i).st.finished(ctx, preserve_continuation).pages,
        ),
{
    lemma_blocks(flow, ctx, blocks, i);
}

pub(crate) proof fn lemma_blocks<'doc>(
    flow: SectionFlow<'doc>,
    ctx: LayoutCtx<'_>,
    blocks: Seq<LayoutBlock>,
    i: int,
)
    ensures
        keeps_pages(flow.st.pages, flow.with_blocks(ctx, blocks, i).st.pages),
    decreases
            crate::section::layout::unmoved(flow.relocated, blocks.len() as int),
            blocks.len() - i,
{
    if 0 <= i < blocks.len() {
        law_finished_pages_stay(flow, ctx, blocks, i as usize);
        let (next, next_i) = flow.with_block(ctx, blocks, i as usize);
        if (i < next_i <= blocks.len() && next.relocated == flow.relocated)
            || crate::section::layout::unmoved(next.relocated, blocks.len() as int)
            < crate::section::layout::unmoved(flow.relocated, blocks.len() as int) {
            lemma_blocks(next, ctx, blocks, next_i);
        }
    }
}

} // verus!
