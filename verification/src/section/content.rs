//! What the blocks of a section add to what its pages show.
use crate::block::{LayoutBlock, LayoutFootnote, TableFloatInfo};
use crate::dimension::{sum, Pt};
use crate::draw_command::{shift_all, DrawCommand};
use crate::float::{ActiveFloat, FloatSource, WrapTextSide};
use crate::fragment::{has_flow_break, Fragment};
use crate::ink::{
    command_ink, footnotes_ink, fragments_ink, ink, lemma_fragments_ink_split, lemma_ink_concat,
    lemma_ink_shift, lemma_placed, lemma_segment_ink, note_ink, Ink,
};
use crate::paragraph::{count_references, placed};
use crate::section::float_ink::{lemma_floats_parts, none_behind};
use crate::section::floats::{truncated, FlowPlace};
use crate::section::laws::{
    lemma_advanced_ink, lemma_new_page_ink, lemma_reserved_ink, lemma_reserved_note_ink,
    lemma_split_from_ink, page_ink,
};
use crate::section::layout::{
    begun, ended, may_overflow, paragraph_of, table_of, SectionFlow,
};
use crate::section::opening::{opens_with_text, ready};
use crate::section::paragraph_flow::{
    next_column_break, next_page_break, FlowJob, ParaFlow, ParagraphInFlow,
};
use crate::section::split::{place_of, SplitJob};
use crate::section::state::{footnote_separator_gap, FlowState, LayoutCtx};
use crate::section::table_flow::{floating_table_x, table_x_offset, TableInFlow};
use crate::section::timely::{lemma_timely, pages_in_time};
use crate::table::content::{block_ink, lemma_refs_concat, refs_ink, Share};
use crate::table::divided::{
    is_measurable, law_divided_table_shows_its_cells_once, slice_ink, slices_ink, table_repeats,
};
use crate::table::layout::{paginated_table, SliceView, TablePaginationHeights};
use crate::table::measure::table_layout;
use crate::table::paginate::{header_rows_from, PageHeights};
use vstd::multiset::Multiset;
use vstd::prelude::*;

verus! {

/// Whether a paragraph refers to each of its footnotes.
pub open spec fn refers_to_its_notes(para: ParagraphInFlow) -> bool {
    &&& para.fragments.len() <= usize::MAX
    &&& para.footnotes.len() <= count_references(
        para.fragments,
        0,
        para.fragments.len() as int,
        0,
    )
}

/// Whether a paragraph owns no floating objects, and refers to each of its footnotes.
pub open spec fn is_plain(para: ParagraphInFlow) -> bool {
    &&& para.images.len() == 0
    &&& para.shapes.len() == 0
    &&& refers_to_its_notes(para)
}

/// What a paragraph and its footnotes show.
pub open spec fn paragraph_ink(para: ParagraphInFlow) -> Multiset<Ink> {
    fragments_ink(para.fragments, 0, para.fragments.len() as int).add(
        footnotes_ink(para.footnotes, 0, para.footnotes.len() as int),
    )
}

/// Whether a table is measured so that it can be drawn and divided.
pub open spec fn is_measurable_table(block: LayoutBlock, default_line_height: Pt) -> bool {
    forall|suppress: bool|
        is_measurable(
            table_of(block).rows,
            #[trigger] table_of(block).format(default_line_height, suppress),
        )
}

/// Whether a block may show something again: header rows that are drawn on each page, and nothing else.
pub open spec fn is_repeat(
    block: LayoutBlock,
    default_line_height: Pt,
    again: Multiset<Ink>,
) -> bool {
    match block {
        LayoutBlock::Paragraph { .. } => again == Multiset::<Ink>::empty(),
        LayoutBlock::Table { rows, .. } => if header_rows_from(rows@, 0) == 0 {
            again == Multiset::<Ink>::empty()
        } else {
            exists|suppress: bool, pagination: TablePaginationHeights<'_>|
                again == #[trigger] table_repeats(
                    rows@,
                    table_of(block).format(default_line_height, suppress),
                    pagination,
                    Share::Both,
                )
        },
    }
}

/// Whether the commands from number `n` on show nothing.
pub(crate) open spec fn shows_nothing_from(commands: Seq<DrawCommand>, n: int) -> bool {
    forall|i: int| #![trigger commands[i]]
        0 <= i < commands.len() && n <= i ==> command_ink(commands[i]) == Multiset::<Ink>::empty()
}

proof fn lemma_truncated_ink(s: Seq<DrawCommand>, n: int)
    requires
        0 <= n,
        shows_nothing_from(s, n),
    ensures
        ink(truncated(s, n)) == ink(s),
        shows_nothing_from(truncated(s, n), n),
    decreases s.len(),
{
    if n < s.len() {
        let shorter = s.drop_last();
        assert forall|i: int| #![trigger shorter[i]] 0 <= i < shorter.len() && n
            <= i implies command_ink(shorter[i]) == Multiset::<Ink>::empty() by {
            assert(shorter[i] == s[i]);
        }
        lemma_truncated_ink(shorter, n);
        assert(command_ink(s[s.len() - 1]) == Multiset::<Ink>::empty());
        assert(ink(s) =~= ink(shorter));
        assert(truncated(shorter, n) =~= truncated(s, n));
    }
}

/// Commands that show nothing together show nothing each.
pub(crate) proof fn lemma_nothing_shown(s: Seq<DrawCommand>, i: int)
    requires
        ink(s) == Multiset::<Ink>::empty(),
        0 <= i < s.len(),
    ensures
        command_ink(s[i]) == Multiset::<Ink>::empty(),
    decreases s.len(),
{
    let shorter = s.drop_last();
    let last = command_ink(s.last());
    assert forall|x: Ink| ink(shorter).count(x) == 0 && last.count(x) == 0 by {
        assert(ink(s).count(x) == ink(shorter).count(x) + last.count(x));
        assert(Multiset::<Ink>::empty().count(x) == 0);
    }
    assert(ink(shorter) =~= Multiset::<Ink>::empty());
    assert(last =~= Multiset::<Ink>::empty());
    if i < shorter.len() {
        lemma_nothing_shown(shorter, i);
        assert(shorter[i] == s[i]);
    }
}

/// What the footnotes of a paragraph add to what is shown.
pub(crate) open spec fn reserved_ink(pf: ParaFlow<'_>, job: FlowJob<'_>) -> Multiset<Ink> {
    if pf.notes_reserved {
        footnotes_ink(job.para.footnotes, 0, job.para.footnotes.len() as int)
    } else {
        Multiset::empty()
    }
}

/// Whether all of a paragraph's fragments before `upto` have been drawn after `base`, and nothing
/// else has.
pub(crate) open spec fn on_track(
    pf: ParaFlow<'_>,
    job: FlowJob<'_>,
    base: Multiset<Ink>,
    upto: int,
    flat: bool,
) -> bool {
    &&& refers_to_its_notes(job.para)
    &&& 0 <= upto <= job.para.fragments.len()
    &&& pf.st.current_col < job.ctx.config.columns@.len()
    &&& flat ==> pf.st.page.behind.len() == 0
    &&& pf.st.shown() == base.add(fragments_ink(job.para.fragments, 0, upto)).add(
        reserved_ink(pf, job),
    )
    &&& !pf.content_placed ==> {
        &&& is_plain(job.para)
        &&& pf.st.page.behind.len() == 0
        &&& job.checkpoint.behind.len() == 0
        &&& 0 <= job.checkpoint.command_count
        &&& shows_nothing_from(pf.st.page.commands, job.checkpoint.command_count)
    }
}

proof fn lemma_taken_back(
    pf: ParaFlow<'_>,
    job: FlowJob<'_>,
    base: Multiset<Ink>,
    upto: int,
    condition: bool,
    flat: bool,
)
    requires
        on_track(pf, job, base, upto, flat),
    ensures
        on_track(pf.floats_taken_back(job, condition), job, base, upto, flat),
{
    if !pf.content_placed && condition {
        let back = pf.floats_taken_back(job, condition);
        lemma_truncated_ink(pf.st.page.commands, job.checkpoint.command_count);
        assert(back.st.page.behind =~= pf.st.page.behind);
        assert(page_ink(back.st.page) == page_ink(pf.st.page));
        assert(back.st.shown() == pf.st.shown());
    }
}

proof fn lemma_placed_here(
    pf: ParaFlow<'_>,
    job: FlowJob<'_>,
    base: Multiset<Ink>,
    upto: int,
    condition: bool,
    new_floats: bool,
    flat: bool,
)
    requires
        on_track(pf, job, base, upto, flat),
    ensures
        on_track(
            pf.floats_placed_here(job, condition).set_at_cursor(job, new_floats),
            job,
            base,
            upto,
            flat,
        ),
{
}

proof fn lemma_after_page_break(
    pf: ParaFlow<'_>,
    job: FlowJob<'_>,
    base: Multiset<Ink>,
    upto: int,
    flat: bool,
)
    requires
        on_track(pf, job, base, upto, flat),
    ensures
        on_track(pf.after_page_break(job), job, base, upto, flat),
{
    reveal(ParaFlow::after_page_break);
    let back = pf.floats_taken_back(job, true);
    lemma_taken_back(pf, job, base, upto, true, flat);
    lemma_new_page_ink(back.st, job.block_idx, job.ctx);
    let turned = back.st.on_new_page(job.block_idx, job.ctx).without_space();
    let next = ParaFlow { st: turned, start_y: turned.cursor_y, ..back };
    assert(turned.shown() == back.st.shown());
    assert(on_track(next, job, base, upto, flat));
    lemma_placed_here(next, job, base, upto, true, true, flat);
}

proof fn lemma_after_column_break(
    pf: ParaFlow<'_>,
    job: FlowJob<'_>,
    base: Multiset<Ink>,
    upto: int,
    flat: bool,
)
    requires
        on_track(pf, job, base, upto, flat),
    ensures
        on_track(pf.after_column_break(job), job, base, upto, flat),
{
    reveal(ParaFlow::after_column_break);
    assert(job.ctx.config.columns.len() == job.ctx.config.columns@.len());
    let new_page = pf.st.current_col + 1 >= job.ctx.config.columns@.len();
    let back = pf.floats_taken_back(job, new_page);
    lemma_taken_back(pf, job, base, upto, new_page, flat);
    lemma_new_page_ink(back.st, job.block_idx, job.ctx);
    let moved = if new_page {
        back.st.on_new_page(job.block_idx, job.ctx)
    } else {
        FlowState { current_col: (back.st.current_col + 1) as usize, ..back.st }
    };
    let at_top = FlowState { cursor_y: moved.column_top, ..moved };
    let next = ParaFlow { st: at_top, ..back };
    assert(at_top.shown() == back.st.shown());
    assert(on_track(next, job, base, upto, flat));
    lemma_placed_here(next, job, base, upto, new_page, new_page, flat);
}

proof fn lemma_moved_whole(
    pf: ParaFlow<'_>,
    job: FlowJob<'_>,
    base: Multiset<Ink>,
    upto: int,
    flat: bool,
)
    requires
        on_track(pf, job, base, upto, flat),
    ensures
        on_track(pf.moved_whole(job), job, base, upto, flat),
{
    reveal(ParaFlow::moved_whole);
    assert(job.ctx.config.columns.len() == job.ctx.config.columns@.len());
    let back = pf.floats_taken_back(job, true);
    lemma_taken_back(pf, job, base, upto, true, flat);
    lemma_advanced_ink(back.st, job.ctx, job.block_idx);
    let moved = back.st.advanced(job.ctx, job.block_idx);
    let bare = crate::section::split::TextSetting {
        style: crate::style::ParagraphStyle { space_before: Pt::zero(), ..back.set.style },
        ..back.set
    };
    let next = ParaFlow { st: moved, set: bare, start_y: moved.cursor_y, ..back };
    assert(on_track(next, job, base, upto, flat));
    lemma_placed_here(next, job, base, upto, true, true, flat);
}

/// Fragments `from..end` of a paragraph show the same taken out of it.
pub(crate) proof fn lemma_chunk_ink(fragments: Seq<Fragment>, from: int, end: int, i: int)
    requires
        0 <= from <= i <= end <= fragments.len(),
    ensures
        fragments_ink(fragments.subrange(from, end), i - from, end - from) == fragments_ink(
            fragments,
            i,
            end,
        ),
    decreases end - i,
{
    if i < end {
        lemma_chunk_ink(fragments, from, end, i + 1);
        assert(fragments.subrange(from, end)[i - from] == fragments[i]);
    }
}

proof fn lemma_drawn_whole(
    pf: ParaFlow<'_>,
    job: FlowJob<'_>,
    base: Multiset<Ink>,
    from: int,
    end: int,
    flat: bool,
)
    requires
        on_track(pf, job, base, from, flat),
        from <= end <= job.para.fragments.len(),
    ensures
        ({
            let chunk = job.para.fragments.subrange(from, end);
            on_track(pf.drawn_whole(job, chunk).with_content(chunk), job, base, end, flat)
        }),
{
    reveal(ParaFlow::drawn_whole);
    let chunk = job.para.fragments.subrange(from, end);
    let col = pf.st.current_col as int;
    let place = place_of(pf.st, job.ctx, pf.set);
    let p = placed(chunk, place, pf.set.style);
    let whole = p.full(pf.set.style, place.width, place.max_height);
    let x = job.ctx.config.col_x(col);
    let next = pf.drawn_whole(job, chunk).with_content(chunk);
    lemma_placed(chunk, place, pf.set.style);
    lemma_segment_ink(
        chunk,
        place,
        pf.set.style,
        pf.set.style,
        place.width,
        p.lines.len() as int,
        true,
        true,
    );
    lemma_chunk_ink(job.para.fragments, from, end, from);
    let more = shift_all(whole.commands, x, pf.st.cursor_y);
    lemma_ink_shift(whole.commands, x, pf.st.cursor_y);
    lemma_ink_concat(pf.st.page.commands, more);
    assert(ink(more) == fragments_ink(job.para.fragments, from, end));
    assert(next.st.page.commands == pf.st.page.commands + more);
    lemma_fragments_ink_split(job.para.fragments, 0, from, end);
    assert(page_ink(next.st.page) =~= page_ink(pf.st.page).add(ink(more)));
    assert(next.st.shown() =~= pf.st.shown().add(ink(more)));
    assert(reserved_ink(next, job) == reserved_ink(pf, job));
    assert(next.st.shown() =~= base.add(fragments_ink(job.para.fragments, 0, end)).add(
        reserved_ink(next, job),
    ));
    if !next.content_placed {
        assert(ink(more) =~= Multiset::<Ink>::empty());
        let n = job.checkpoint.command_count;
        let commands = next.st.page.commands;
        assert forall|i: int| #![trigger commands[i]] 0 <= i < commands.len() && n
            <= i implies command_ink(commands[i]) == Multiset::<Ink>::empty() by {
            if i < pf.st.page.commands.len() {
                assert(commands[i] == pf.st.page.commands[i]);
            } else {
                lemma_nothing_shown(more, i - pf.st.page.commands.len());
            }
        }
    }
}

proof fn lemma_drawn_in_parts(
    pf: ParaFlow<'_>,
    job: FlowJob<'_>,
    base: Multiset<Ink>,
    from: int,
    end: int,
    flat: bool,
)
    requires
        on_track(pf, job, base, from, flat),
        from <= end <= job.para.fragments.len(),
        pf.may_be_divided(job, job.para.fragments.subrange(from, end)),
        !has_flow_break(job.para.fragments) ==> from == 0 && end == job.para.fragments.len()
            && !pf.notes_reserved,
    ensures
        ({
            let chunk = job.para.fragments.subrange(from, end);
            on_track(pf.drawn_in_parts(job, chunk).with_content(chunk), job, base, end, flat)
        }),
{
    reveal(ParaFlow::may_be_divided);
    reveal(ParaFlow::drawn_in_parts);
    let chunk = job.para.fragments.subrange(from, end);
    let place = place_of(pf.st, job.ctx, pf.set);
    lemma_placed(chunk, place, pf.set.style);
    assert(chunk.len() > 0);
    let split = SplitJob {
        ctx: job.ctx,
        place: job.place,
        fragments: chunk,
        style: pf.set.style,
        footnotes: job.para.footnotes,
        block_idx: job.block_idx,
    };
    lemma_split_from_ink(pf.st, split, pf.set, 0, true, 0, false, pf.start_y);
    lemma_chunk_ink(job.para.fragments, from, end, from);
    lemma_fragments_ink_split(job.para.fragments, 0, from, end);
    let next = pf.drawn_in_parts(job, chunk).with_content(chunk);
    let notes = job.para.footnotes;
    if notes.len() > 0 {
        assert(chunk =~= job.para.fragments);
    } else {
        assert(footnotes_ink(notes, 0, notes.len() as int) =~= Multiset::empty());
    }
    assert(next.st.shown() =~= base.add(fragments_ink(job.para.fragments, 0, end)).add(
        reserved_ink(next, job),
    ));
}

proof fn lemma_with_chunk(
    pf: ParaFlow<'_>,
    job: FlowJob<'_>,
    base: Multiset<Ink>,
    from: int,
    end: int,
    index: int,
    flat: bool,
)
    requires
        on_track(pf, job, base, from, flat),
        from <= end <= job.para.fragments.len(),
        !has_flow_break(job.para.fragments) ==> from == 0 && end == job.para.fragments.len()
            && !pf.notes_reserved && index <= 0 && !pf.content_placed,
    ensures
        ({
            let (next, replay) = pf.with_chunk(job, job.para.fragments.subrange(from, end), index);
            !replay && on_track(next, job, base, end, flat)
        }),
{
    let chunk = job.para.fragments.subrange(from, end);
    let moved = if index > 0 {
        pf.after_column_break(job)
    } else {
        pf
    };
    if index > 0 {
        lemma_after_column_break(pf, job, base, from, flat);
    }
    reveal(ParaFlow::cleared);
    let at = moved.cleared(job, chunk);
    assert(at == moved);
    if at.may_be_divided(job, chunk) {
        lemma_drawn_in_parts(at, job, base, from, end, flat);
    } else if !at.must_leave(job, chunk) {
        lemma_drawn_whole(at, job, base, from, end, flat);
    } else {
        lemma_moved_whole(at, job, base, from, flat);
        lemma_drawn_whole(at.moved_whole(job), job, base, from, end, flat);
    }
}

pub(crate) proof fn lemma_next_column_break(fragments: Seq<Fragment>, i: int)
    requires
        0 <= i <= fragments.len(),
    ensures
        i <= next_column_break(fragments, i) <= fragments.len(),
        next_column_break(fragments, i) < fragments.len() ==> fragments[next_column_break(
            fragments,
            i,
        )] is ColumnBreak,
    decreases fragments.len() - i,
{
    if i < fragments.len() && !(fragments[i] is ColumnBreak) {
        lemma_next_column_break(fragments, i + 1);
    }
}

pub(crate) proof fn lemma_next_page_break(fragments: Seq<Fragment>, i: int)
    requires
        0 <= i <= fragments.len(),
    ensures
        i <= next_page_break(fragments, i) <= fragments.len(),
        next_page_break(fragments, i) < fragments.len() ==> fragments[next_page_break(
            fragments,
            i,
        )].is_page_break(),
    decreases fragments.len() - i,
{
    if i < fragments.len() && !fragments[i].is_page_break() {
        lemma_next_page_break(fragments, i + 1);
    }
}

/// A break shows nothing, so that a paragraph is as far after it as before it.
pub(crate) proof fn lemma_past_break(
    pf: ParaFlow<'_>,
    job: FlowJob<'_>,
    base: Multiset<Ink>,
    at: int,
    flat: bool,
)
    requires
        on_track(pf, job, base, at, flat),
        at < job.para.fragments.len(),
        job.para.fragments[at].is_flow_break(),
    ensures
        on_track(pf, job, base, at + 1, flat),
{
    lemma_fragments_ink_split(job.para.fragments, 0, at, at + 1);
    assert(fragments_ink(job.para.fragments, at + 1, at + 1) =~= Multiset::empty());
    assert(fragments_ink(job.para.fragments, at, at + 1) =~= Multiset::empty());
    assert(fragments_ink(job.para.fragments, 0, at + 1) =~= fragments_ink(
        job.para.fragments,
        0,
        at,
    ));
}

pub(crate) proof fn lemma_column_chunks(
    pf: ParaFlow<'_>,
    job: FlowJob<'_>,
    base: Multiset<Ink>,
    page_from: int,
    page_end: int,
    from: int,
    index: int,
    flat: bool,
)
    requires
        0 <= page_from <= page_end <= job.para.fragments.len(),
        0 <= from <= page_end - page_from,
        on_track(pf, job, base, page_from + from, flat),
        !has_flow_break(job.para.fragments) ==> page_from == 0 && from == 0 && page_end
            == job.para.fragments.len() && !pf.notes_reserved && index <= 0 && !pf.content_placed,
    ensures
        ({
            let (next, replay) = pf.with_column_chunks(
                job,
                job.para.fragments.subrange(page_from, page_end),
                from,
                index,
            );
            !replay && on_track(next, job, base, page_end, flat)
        }),
    decreases page_end - page_from - from,
{
    let fragments = job.para.fragments;
    let content = fragments.subrange(page_from, page_end);
    let end = next_column_break(content, from);
    lemma_next_column_break(content, from);
    if end < content.len() {
        assert(content[end] == fragments[page_from + end]);
        assert(fragments[page_from + end].is_flow_break());
    }
    assert(content.subrange(from, end) =~= fragments.subrange(page_from + from, page_from + end));
    lemma_with_chunk(pf, job, base, page_from + from, page_from + end, index, flat);
    let (next, replay) = pf.with_chunk(job, content.subrange(from, end), index);
    if end < content.len() {
        lemma_past_break(next, job, base, page_from + end, flat);
        lemma_column_chunks(next, job, base, page_from, page_end, end + 1, index + 1, flat);
    }
}

pub(crate) proof fn lemma_page_chunks(
    pf: ParaFlow<'_>,
    job: FlowJob<'_>,
    base: Multiset<Ink>,
    from: int,
    unresolved: bool,
    flat: bool,
)
    requires
        on_track(pf, job, base, from, flat),
        !has_flow_break(job.para.fragments) ==> from == 0 && !pf.notes_reserved && !unresolved
            && !pf.content_placed,
    ensures
        ({
            let (next, replay, left) = pf.with_page_chunks(job, from, unresolved);
            !replay && on_track(next, job, base, job.para.fragments.len() as int, flat)
        }),
    decreases job.para.fragments.len() - from,
{
    let fragments = job.para.fragments;
    let end = next_page_break(fragments, from);
    lemma_next_page_break(fragments, from);
    if end < fragments.len() {
        assert(fragments[end].is_flow_break());
    }
    let content = fragments.subrange(from, end);
    let at = if unresolved && content.len() > 0 {
        pf.after_page_break(job)
    } else {
        pf
    };
    if unresolved && content.len() > 0 {
        lemma_after_page_break(pf, job, base, from, flat);
    }
    let next = if content.len() == 0 {
        pf
    } else {
        at.with_column_chunks(job, content, 0, 0).0
    };
    if content.len() > 0 {
        lemma_column_chunks(at, job, base, from, end, 0, 0, flat);
    }
    assert(on_track(next, job, base, end, flat));
    if end < fragments.len() {
        lemma_past_break(next, job, base, end, flat);
        lemma_page_chunks(next, job, base, end + 1, true, flat);
    }
}

pub(crate) proof fn lemma_turned<'doc>(
    st: FlowState<'doc>,
    ctx: LayoutCtx<'_>,
    block_idx: usize,
    flat: bool,
)
    requires
        ready(st, ctx, flat),
    ensures
        ready(st.on_new_page(block_idx, ctx).without_space(), ctx, flat),
        st.on_new_page(block_idx, ctx).without_space().shown() == st.shown(),
{
    lemma_new_page_ink(st, block_idx, ctx);
}

proof fn lemma_begun<'doc>(
    st: FlowState<'doc>,
    ctx: LayoutCtx<'_>,
    place: FlowPlace,
    block_idx: usize,
    para: ParagraphInFlow,
)
    requires
        ready(st, ctx, true),
        is_plain(para),
    ensures
        ({
            let (pf, checkpoint) = begun(st, ctx, place, block_idx, para);
            &&& pf.st.current_col < ctx.config.columns@.len()
            &&& pf.st.page.behind.len() == 0
            &&& checkpoint.behind.len() == 0
            &&& 0 <= checkpoint.command_count
            &&& pf.st.shown() == st.shown()
            &&& !pf.notes_reserved
            &&& !pf.content_placed
            &&& shows_nothing_from(pf.st.page.commands, checkpoint.command_count)
        }),
{
    reveal(begun);
    let style = crate::section::layout::style_in_place(st, para.style);
    let joined = FlowState { cursor_y: st.cursor_y.minus(st.previous.overlap(&style)), ..st };
    let col = st.current_col as int;
    let x = ctx.config.col_x(col);
    let width = ctx.config.columns@[col].width;
    let floated = joined.with_paragraph_floats(
        para.images,
        para.shapes,
        joined.cursor_y.plus(style.space_before),
        x,
        width,
    ).pruned();
    let (met, floats) = floated.with_effective_floats(place, style.space_before, x, width);
    assert(met.page == st.page && met.pages == st.pages && met.footnotes == st.footnotes);
    assert(met.shown() == st.shown());
    lemma_turned(met, ctx, block_idx, true);
}

proof fn lemma_ended(pf: ParaFlow<'_>, job: FlowJob<'_>, base: Multiset<Ink>, left: bool)
    requires
        on_track(pf, job, base, job.para.fragments.len() as int, true),
        is_plain(job.para),
    ensures
        ready(ended(pf, job.ctx, job.para, left), job.ctx, true),
        ended(pf, job.ctx, job.para, left).shown() == base.add(paragraph_ink(job.para)),
{
    reveal(ended);
    let style = pf.set.style;
    let st = FlowState {
        pending_page_break: pf.st.pending_page_break || left,
        first_on_section_page: false,
        prev_borders: job.para.style.borders,
        previous: crate::style::PreviousParagraph::of(&style),
        prev_table_style_id: None,
        ..pf.st
    };
    let notes = job.para.footnotes;
    assert(st.shown() == pf.st.shown());
    if !pf.notes_reserved {
        lemma_reserved_ink(st, job.ctx, notes, 0, notes.len() as int);
    }
    assert(ended(pf, job.ctx, job.para, left).shown() =~= base.add(paragraph_ink(job.para)));
}

pub(crate) proof fn lemma_moved_for_chain<'doc>(
    st: FlowState<'doc>,
    ctx: LayoutCtx<'_>,
    blocks: Seq<LayoutBlock>,
    block_idx: usize,
    style: crate::style::ParagraphStyle,
    admitted: usize,
    flat: bool,
)
    requires
        ready(st, ctx, flat),
    ensures
        ready(st.moved_for_chain(ctx, blocks, block_idx, style, admitted).0, ctx, flat),
        st.moved_for_chain(ctx, blocks, block_idx, style, admitted).0.shown() == st.shown(),
{
    reveal(FlowState::moved_for_chain);
    lemma_turned(st, ctx, block_idx, flat);
}

/// A section with a paragraph placed that the page has been turned for where that is needed, and
/// the block to go on with.
pub(crate) open spec fn placed_from<'doc>(
    begin: SectionFlow<'doc>,
    ctx: LayoutCtx<'_>,
    blocks: Seq<LayoutBlock>,
    block_idx: usize,
) -> (SectionFlow<'doc>, int) {
    let para = paragraph_of(blocks[block_idx as int]);
    let place = FlowPlace {
        blocks,
        relocated: begin.relocated,
        num_cols: ctx.config.columns@.len() as usize,
    };
    let (start, checkpoint) = begun(begin.st, ctx, place, block_idx, para);
    let job = FlowJob {
        ctx,
        place,
        block_idx,
        replay_block: begin.replay_block,
        para,
        checkpoint,
        may_overflow: may_overflow(start.st, blocks, block_idx as int),
    };
    let (pf, replay, left) = start.with_page_chunks(job, 0, false);
    if replay {
        (
            SectionFlow {
                st: pf.st.replayed(begin.saved),
                relocated: begin.relocated.update(block_idx as int, true),
                ..begin
            },
            begin.replay_block as int,
        )
    } else {
        (SectionFlow { st: ended(pf, ctx, para, left), ..begin }, block_idx + 1)
    }
}

/// A plain paragraph adds what it shows, and the section goes on with the next block.
pub(crate) proof fn lemma_plain_paragraph<'doc>(
    begin: SectionFlow<'doc>,
    ctx: LayoutCtx<'_>,
    blocks: Seq<LayoutBlock>,
    block_idx: usize,
)
    requires
        ready(begin.st, ctx, true),
        block_idx < blocks.len(),
        blocks[block_idx as int] is Paragraph,
        is_plain(paragraph_of(blocks[block_idx as int])),
    ensures
        ({
            let (next, next_i) = placed_from(begin, ctx, blocks, block_idx);
            &&& next_i == block_idx + 1
            &&& next == (SectionFlow { st: next.st, ..begin })
            &&& ready(next.st, ctx, true)
            &&& next.st.shown() == begin.st.shown().add(block_ink(blocks[block_idx as int]))
        }),
{
    let para = paragraph_of(blocks[block_idx as int]);
    let place = FlowPlace {
        blocks,
        relocated: begin.relocated,
        num_cols: ctx.config.columns@.len() as usize,
    };
    let (start, checkpoint) = begun(begin.st, ctx, place, block_idx, para);
    lemma_begun(begin.st, ctx, place, block_idx, para);
    let job = FlowJob {
        ctx,
        place,
        block_idx,
        replay_block: begin.replay_block,
        para,
        checkpoint,
        may_overflow: may_overflow(start.st, blocks, block_idx as int),
    };
    let base = begin.st.shown();
    assert(start.st.shown() =~= base.add(fragments_ink(para.fragments, 0, 0)).add(
        reserved_ink(start, job),
    ));
    lemma_page_chunks(start, job, base, 0, false, true);
    let (pf, replay, left) = start.with_page_chunks(job, 0, false);
    lemma_ended(pf, job, base, left);
}

/// Whether a paragraph leaves its columns and pages in time, for which the page has been turned
/// where that is needed.
pub open spec fn is_timely(
    begin: SectionFlow<'_>,
    ctx: LayoutCtx<'_>,
    blocks: Seq<LayoutBlock>,
    block_idx: usize,
) -> bool {
    let para = paragraph_of(blocks[block_idx as int]);
    let place = FlowPlace {
        blocks,
        relocated: begin.relocated,
        num_cols: ctx.config.columns@.len() as usize,
    };
    let (start, checkpoint) = begun(begin.st, ctx, place, block_idx, para);
    let job = FlowJob {
        ctx,
        place,
        block_idx,
        replay_block: begin.replay_block,
        para,
        checkpoint,
        may_overflow: may_overflow(start.st, blocks, block_idx as int),
    };
    pages_in_time(start, job, begin.st, 0, false)
}

/// A paragraph that opens with text, or that leaves its columns and pages in time, adds what it and
/// its floating objects show, and the section goes on with the next block; or the page is placed
/// anew from its first block, while no page has been turned.
pub(crate) proof fn lemma_timely_paragraph<'doc>(
    begin: SectionFlow<'doc>,
    ctx: LayoutCtx<'_>,
    blocks: Seq<LayoutBlock>,
    block_idx: usize,
    flat: bool,
)
    requires
        ready(begin.st, ctx, flat),
        block_idx < blocks.len(),
        blocks[block_idx as int] is Paragraph,
        refers_to_its_notes(paragraph_of(blocks[block_idx as int])),
        opens_with_text(paragraph_of(blocks[block_idx as int])) || is_timely(
            begin,
            ctx,
            blocks,
            block_idx,
        ),
        flat ==> none_behind(
            paragraph_of(blocks[block_idx as int]).images,
            paragraph_of(blocks[block_idx as int]).shapes,
        ),
    ensures
        ({
            let (next, next_i) = placed_from(begin, ctx, blocks, block_idx);
            ||| {
                &&& next_i == block_idx + 1
                &&& next == (SectionFlow { st: next.st, ..begin })
                &&& ready(next.st, ctx, flat)
                &&& next.st.shown() == begin.st.shown().add(block_ink(blocks[block_idx as int]))
            }
            ||| {
                &&& next_i == begin.replay_block < block_idx
                &&& !begin.relocated[block_idx as int]
                &&& next == (SectionFlow {
                    st: FlowState { pages: begin.st.pages, ..begin.saved },
                    relocated: begin.relocated.update(block_idx as int, true),
                    ..begin
                })
            }
        }),
{
    let block = blocks[block_idx as int];
    let para = paragraph_of(block);
    let place = FlowPlace {
        blocks,
        relocated: begin.relocated,
        num_cols: ctx.config.columns@.len() as usize,
    };
    let (start, checkpoint) = begun(begin.st, ctx, place, block_idx, para);
    let job = FlowJob {
        ctx,
        place,
        block_idx,
        replay_block: begin.replay_block,
        para,
        checkpoint,
        may_overflow: may_overflow(start.st, blocks, block_idx as int),
    };
    if opens_with_text(para) {
        crate::section::opening::lemma_begun(begin.st, ctx, place, block_idx, para, flat);
        crate::section::opening::lemma_chunks(start, job, begin.st, flat);
    } else {
        lemma_timely(begin.st, job, flat);
    }
    let (pf, replay, left) = start.with_page_chunks(job, 0, false);
    if !replay {
        crate::section::opening::lemma_ended(pf, ctx, para, left, begin.st, flat);
        lemma_floats_parts(para.images, para.shapes);
        assert(ended(pf, ctx, para, left).shown() =~= begin.st.shown().add(block_ink(block)));
    }
}

/// The footnotes of a part of a table are shown from `n` on.
proof fn lemma_reserved_refs_ink<'doc>(
    st: FlowState<'doc>,
    ctx: LayoutCtx<'_>,
    refs: Seq<&'doc LayoutFootnote>,
    n: int,
)
    requires
        0 <= n <= refs.len(),
    ensures
        ({
            let next = st.with_reserved_refs(ctx, refs, n);
            &&& next.shown() == st.shown().add(refs_ink(refs.subrange(n, refs.len() as int)))
            &&& next.current_col == st.current_col
            &&& next.page == st.page
        }),
    decreases refs.len() - n,
{
    let rest = refs.subrange(n, refs.len() as int);
    if n < refs.len() {
        let next = st.with_reserved_note(ctx, *refs[n], 0);
        lemma_reserved_note_ink(st, ctx, *refs[n], 0);
        lemma_reserved_refs_ink(next, ctx, refs, n + 1);
        let one: Seq<&'doc LayoutFootnote> = seq![refs[n]];
        assert(rest =~= one + refs.subrange(n + 1, refs.len() as int));
        lemma_refs_concat(one, refs.subrange(n + 1, refs.len() as int));
        assert(one.drop_last() =~= Seq::<&'doc LayoutFootnote>::empty());
        assert(refs_ink(one.drop_last()) =~= Multiset::<Ink>::empty());
        assert(refs_ink(one) =~= note_ink(*refs[n], 0));
    } else {
        assert(refs_ink(rest) =~= Multiset::<Ink>::empty());
    }
    assert(st.with_reserved_refs(ctx, refs, n).shown() =~= st.shown().add(refs_ink(rest)));
}

/// A part of a table adds what it and its footnotes show.
proof fn lemma_slice_ink<'doc>(
    st: FlowState<'doc>,
    ctx: LayoutCtx<'_>,
    slice: SliceView<'doc>,
    x: Pt,
    y: Pt,
    cursor_y: Pt,
    flat: bool,
)
    requires
        ready(st, ctx, flat),
    ensures
        ({
            let drawn = FlowState { cursor_y, ..st.drawn(shift_all(slice.commands, x, y)) };
            let next = drawn.with_reserved_refs(ctx, slice.footnotes, 0);
            &&& ready(next, ctx, flat)
            &&& next.shown() == st.shown().add(slice_ink(slice, Share::Both))
        }),
{
    let more = shift_all(slice.commands, x, y);
    let drawn = FlowState { cursor_y, ..st.drawn(more) };
    lemma_ink_shift(slice.commands, x, y);
    lemma_ink_concat(st.page.commands, more);
    assert(page_ink(drawn.page) =~= page_ink(st.page).add(ink(more)));
    assert(drawn.shown() =~= st.shown().add(ink(slice.commands)));
    lemma_reserved_refs_ink(drawn, ctx, slice.footnotes, 0);
    assert(slice.footnotes.subrange(0, slice.footnotes.len() as int) =~= slice.footnotes);
    assert(drawn.with_reserved_refs(ctx, slice.footnotes, 0).shown() =~= st.shown().add(
        slice_ink(slice, Share::Both),
    ));
}

proof fn lemma_table_slices<'doc>(
    st: FlowState<'doc>,
    ctx: LayoutCtx<'_>,
    block_idx: usize,
    table: TableInFlow,
    slices: Seq<SliceView<'doc>>,
    i: int,
    in_columns: bool,
    flat: bool,
)
    requires
        ready(st, ctx, flat),
        0 <= i <= slices.len(),
    ensures
        ({
            let next = st.with_table_slices(ctx, block_idx, table, slices, i, in_columns);
            &&& ready(next, ctx, flat)
            &&& next.shown() == st.shown().add(slices_ink(slices, i, Share::Both))
        }),
    decreases slices.len() - i,
{
    if i < slices.len() {
        assert(ctx.config.columns.len() == ctx.config.columns@.len());
        let at = if i > 0 {
            if in_columns && st.current_col + 1 < ctx.config.columns@.len() {
                FlowState {
                    current_col: (st.current_col + 1) as usize,
                    cursor_y: st.column_top,
                    ..st
                }
            } else {
                st.on_new_page(block_idx, ctx)
            }
        } else {
            st
        };
        lemma_new_page_ink(st, block_idx, ctx);
        assert(ready(at, ctx, flat) && at.shown() == st.shown());
        let col = at.current_col as int;
        let x = table_x_offset(
            table.alignment,
            table.indent,
            sum(table.col_widths),
            ctx.config.columns@[col].width,
            ctx.config.col_x(col),
        );
        let y = at.cursor_y.plus(slices[i].size.height);
        lemma_slice_ink(at, ctx, slices[i], x, at.cursor_y, y, flat);
        let drawn = at.drawn(shift_all(slices[i].commands, x, at.cursor_y));
        let next = (FlowState { cursor_y: y, ..drawn }).with_reserved_refs(
            ctx,
            slices[i].footnotes,
            0,
        );
        lemma_table_slices(next, ctx, block_idx, table, slices, i + 1, in_columns, flat);
    }
    assert(st.with_table_slices(ctx, block_idx, table, slices, i, in_columns).shown()
        =~= st.shown().add(slices_ink(slices, i, Share::Both)));
}

proof fn lemma_floating_slices<'doc>(
    st: FlowState<'doc>,
    ctx: LayoutCtx<'_>,
    block_idx: usize,
    slices: Seq<SliceView<'doc>>,
    i: int,
    x: Pt,
    start_y: Pt,
    width: Pt,
    flat: bool,
)
    requires
        ready(st, ctx, flat),
        0 <= i <= slices.len(),
    ensures
        ({
            let next = st.with_floating_slices(ctx, block_idx, slices, i, x, start_y, width);
            &&& ready(next, ctx, flat)
            &&& next.shown() == st.shown().add(slices_ink(slices, i, Share::Both))
        }),
    decreases slices.len() - i,
{
    if i < slices.len() {
        let at = if i > 0 {
            st.on_new_page(block_idx, ctx).without_space()
        } else {
            st
        };
        let y = if i > 0 {
            at.page_top
        } else {
            start_y
        };
        lemma_turned(st, ctx, block_idx, flat);
        lemma_slice_ink(at, ctx, slices[i], x, y, at.cursor_y, flat);
        let drawn = at.with_slice(ctx, slices[i], x, y);
        assert((FlowState {
            cursor_y: at.cursor_y,
            ..at.drawn(shift_all(slices[i].commands, x, y))
        }) == at.drawn(shift_all(slices[i].commands, x, y)));
        let next = FlowState {
            page_floats: drawn.page_floats.push(
                ActiveFloat {
                    page_x: x,
                    page_y_start: y,
                    page_y_end: y.plus(slices[i].size.height),
                    width,
                    source: FloatSource::Table { owner_block_idx: block_idx },
                    vertical_exclusion: false,
                    wrap_text: WrapTextSide::BothSides,
                },
            ),
            column_reactivation_unsafe: true,
            ..drawn
        };
        assert(next.shown() == drawn.shown());
        lemma_floating_slices(next, ctx, block_idx, slices, i + 1, x, start_y, width, flat);
    }
    assert(st.with_floating_slices(ctx, block_idx, slices, i, x, start_y, width).shown()
        =~= st.shown().add(slices_ink(slices, i, Share::Both)));
}

/// The parts of a table show what the table shows, and what is repeated of it.
proof fn lemma_paginated_ink(
    block: LayoutBlock,
    default_line_height: Pt,
    suppress: bool,
    pagination: TablePaginationHeights<'_>,
) -> (again: Multiset<Ink>)
    requires
        block is Table,
        is_measurable_table(block, default_line_height),
    ensures
        ({
            let table = table_of(block);
            slices_ink(
                paginated_table(
                    table.rows,
                    table.format(default_line_height, suppress),
                    pagination,
                ),
                0,
                Share::Both,
            ) == block_ink(block).add(again)
        }),
        is_repeat(block, default_line_height, again),
{
    let table = table_of(block);
    let format = table.format(default_line_height, suppress);
    assert(is_measurable(table.rows, format));
    let again = table_repeats(table.rows, format, pagination, Share::Both);
    if table.col_widths.len() == 0 {
        let slices = paginated_table(table.rows, format, pagination);
        assert(slices_ink(slices, 1, Share::Both) =~= Multiset::<Ink>::empty());
        assert(slices_ink(slices, 0, Share::Both) =~= block_ink(block).add(again));
        again
    } else {
        law_divided_table_shows_its_cells_once(table.rows, format, pagination);
        if header_rows_from(table.rows, 0) == 0 {
            assert(block_ink(block).add(Multiset::<Ink>::empty()) =~= block_ink(block));
            Multiset::empty()
        } else {
            again
        }
    }
}

pub(crate) proof fn lemma_inline_table<'doc>(
    st: FlowState<'doc>,
    ctx: LayoutCtx<'_>,
    blocks: Seq<LayoutBlock>,
    block_idx: usize,
    admitted: usize,
    flat: bool,
) -> (again: Multiset<Ink>)
    requires
        ready(st, ctx, flat),
        block_idx < blocks.len(),
        blocks[block_idx as int] is Table,
        is_measurable_table(blocks[block_idx as int], ctx.default_line_height),
    ensures
        ({
            let block = blocks[block_idx as int];
            let next = st.with_inline_table(ctx, blocks, block_idx, table_of(block), admitted).0;
            &&& ready(next, ctx, flat)
            &&& next.shown() == st.shown().add(block_ink(block)).add(again)
            &&& is_repeat(block, ctx.default_line_height, again)
        }),
{
    let block = blocks[block_idx as int];
    let table = table_of(block);
    lemma_turned(st, ctx, block_idx, flat);
    let moved = st.moved_for_table(ctx, blocks, block_idx, admitted).0;
    let suppress = moved.pages.len() == st.pages.len() && table.style_id is Some && table.style_id
        == moved.prev_table_style_id;
    let at = moved.pruned();
    assert(ready(at, ctx, flat) && at.shown() == st.shown());
    let in_columns = at.goes_on_in_columns(ctx, blocks, block_idx);
    let pagination = TablePaginationHeights {
        available_height: at.bottom.minus(at.cursor_y),
        suppress_first_row_top: suppress,
        page_heights: PageHeights::Section {
            clearance: ctx.clearance,
            first_page: at.page_index,
            first_slot: if in_columns {
                at.current_col
            } else {
                0
            },
            slots_per_page: if in_columns {
                ctx.config.columns@.len() as usize
            } else {
                1
            },
        },
        footnote_width: Some(ctx.config.content_width()),
        footnote_separator_height: footnote_separator_gap(),
        first_page_has_footnotes: at.footnotes.len() != 0,
    };
    let slices = paginated_table(
        table.rows,
        table.format(ctx.default_line_height, suppress),
        pagination,
    );
    let again = lemma_paginated_ink(block, ctx.default_line_height, suppress, pagination);
    lemma_table_slices(at, ctx, block_idx, table, slices, 0, in_columns, flat);
    assert(st.shown().add(slices_ink(slices, 0, Share::Both)) =~= st.shown().add(
        block_ink(block),
    ).add(again));
    again
}

pub(crate) proof fn lemma_floating_table<'doc>(
    st: FlowState<'doc>,
    ctx: LayoutCtx<'_>,
    block: LayoutBlock,
    block_idx: usize,
    info: TableFloatInfo,
    flat: bool,
) -> (again: Multiset<Ink>)
    requires
        ready(st, ctx, flat),
        block is Table,
        is_measurable_table(block, ctx.default_line_height),
    ensures
        ({
            let next = st.with_floating_table(ctx, block_idx, table_of(block), info);
            &&& ready(next, ctx, flat)
            &&& next.shown() == st.shown().add(block_ink(block)).add(again)
            &&& is_repeat(block, ctx.default_line_height, again)
        }),
{
    let table = table_of(block);
    let content_width = ctx.config.content_width();
    let format = table.format(ctx.default_line_height, false);
    let whole = table_layout(table.rows, format);
    let x = floating_table_x(
        info.x_align,
        table.alignment,
        table.indent,
        whole.size.width,
        content_width,
        ctx.config.margins.left,
    );
    lemma_turned(st, ctx, block_idx, flat);
    let (anchored, y) = st.table_anchored(ctx, block_idx, info, whole.size.height);
    let at = FlowState { prev_table_style_id: None, ..anchored };
    assert(ready(at, ctx, flat) && at.shown() == st.shown());
    let pagination = TablePaginationHeights {
        available_height: at.bottom.minus(y).max(Pt::zero()),
        suppress_first_row_top: false,
        page_heights: PageHeights::Section {
            clearance: ctx.clearance,
            first_page: at.page_index,
            first_slot: 0,
            slots_per_page: 1,
        },
        footnote_width: Some(content_width),
        footnote_separator_height: footnote_separator_gap(),
        first_page_has_footnotes: at.footnotes.len() != 0,
    };
    let slices = paginated_table(table.rows, format, pagination);
    let again = lemma_paginated_ink(block, ctx.default_line_height, false, pagination);
    lemma_floating_slices(
        at,
        ctx,
        block_idx,
        slices,
        0,
        x,
        y,
        whole.size.width.plus(info.right_gap),
        flat,
);
    assert(st.shown().add(slices_ink(slices, 0, Share::Both)) =~= st.shown().add(
        block_ink(block),
    ).add(again));
    again
}

} // verus!
