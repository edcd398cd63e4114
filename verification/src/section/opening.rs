//! Paragraphs that open with text show it and their floating objects once.
use crate::dimension::Pt;
use crate::draw_command::shift_all;
use crate::fragment::{has_flow_break, Fragment};
use crate::ink::{
    footnotes_ink, fragments_ink, ink, lemma_fragments_ink_split, lemma_ink_concat, lemma_ink_shift,
    lemma_placed, lemma_segment_ink, Ink,
};
use crate::paragraph::placed;
use crate::section::content::{
    lemma_chunk_ink, lemma_column_chunks, lemma_next_column_break, lemma_next_page_break,
    lemma_page_chunks, lemma_past_break, on_track, refers_to_its_notes, reserved_ink,
};
use crate::section::float_ink::{
    differs_in_floats, floats_part, lemma_bands, lemma_free_floats, none_behind,
};
use crate::section::floats::{
    law_checkpoint_undoes_paragraph_floats, FloatCheckpoint, FlowPlace,
};
use crate::section::laws::{
    lemma_advanced_ink, lemma_new_page_ink, lemma_reserved_ink, lemma_split_from_ink, page_ink,
};
use crate::section::layout::{begun, ended, paragraph_of, style_in_place};
use crate::section::paragraph_flow::{
    must_replay, next_column_break, next_page_break, FlowJob, ParaFlow, ParagraphInFlow,
};
use crate::section::predicates::only_page_breaks;
use crate::section::split::{place_of, SplitJob, TextSetting};
use crate::section::state::{FlowState, LayoutCtx};
use crate::style::ParagraphStyle;
use vstd::multiset::Multiset;
use vstd::prelude::*;

verus! {

/// The first fragment from `i` on that is no page break, or their end.
pub open spec fn after_page_breaks(fragments: Seq<Fragment>, i: int) -> int
    decreases fragments.len() - i,
{
    if i < 0 || i >= fragments.len() || !fragments[i].is_page_break() {
        i
    } else {
        after_page_breaks(fragments, i + 1)
    }
}

/// Whether a paragraph refers to each of its footnotes, and opens with text: no column break stands
/// before its text, nor does a page break where it owns floating objects or holds nothing but
/// breaks and bookmarks.
pub open spec fn opens_with_text(para: ParagraphInFlow) -> bool {
    let first = after_page_breaks(para.fragments, 0);
    &&& refers_to_its_notes(para)
    &&& first < para.fragments.len() ==> !(para.fragments[first] is ColumnBreak)
    &&& 0 < first < para.fragments.len() ==> para.images.len() == 0 && para.shapes.len() == 0
        && !only_page_breaks(para.fragments)
}

/// What a section's state has to be like before a block; with `flat`, nothing lies behind the text
/// of its page.
pub(crate) open spec fn ready(st: FlowState<'_>, ctx: LayoutCtx<'_>, flat: bool) -> bool {
    st.current_col < ctx.config.columns@.len() && (flat ==> st.page.behind.len() == 0)
}

/// What the bands of a paragraph show.
pub(crate) open spec fn bands(para: ParagraphInFlow) -> Multiset<Ink> {
    floats_part(para.images, para.shapes, true)
}

/// What the text of a paragraph shows.
pub(crate) open spec fn text(para: ParagraphInFlow) -> Multiset<Ink> {
    fragments_ink(para.fragments, 0, para.fragments.len() as int)
}

/// What the footnotes of a paragraph show.
pub(crate) open spec fn notes(para: ParagraphInFlow) -> Multiset<Ink> {
    footnotes_ink(para.footnotes, 0, para.footnotes.len() as int)
}

/// Whether a paragraph's bands are on the page of `st` and can be taken back from it.
pub(crate) open spec fn is_begun(
    pf: ParaFlow<'_>,
    st: FlowState<'_>,
    para: ParagraphInFlow,
    c: FloatCheckpoint,
) -> bool {
    &&& pf.st.shown() == st.shown().add(bands(para))
    &&& differs_in_floats(st, pf.st)
    &&& pf.st.floats_restored(c).page == st.page
    &&& !pf.content_placed
    &&& !pf.notes_reserved
}

/// Whether a paragraph of breaks has left the page before it was placed.
pub(crate) open spec fn has_left(pf: ParaFlow<'_>, para: ParagraphInFlow) -> bool {
    &&& pf.st.at_full_column_top()
    &&& has_flow_break(para.fragments)
    &&& only_page_breaks(para.fragments)
}

pub(crate) proof fn lemma_begun<'doc>(
    st: FlowState<'doc>,
    ctx: LayoutCtx<'_>,
    place: FlowPlace,
    block_idx: usize,
    para: ParagraphInFlow,
    flat: bool,
)
    requires
        ready(st, ctx, flat),
        opens_with_text(para),
        flat ==> none_behind(para.images, para.shapes),
        0 <= block_idx < place.blocks.len(),
        place.blocks[block_idx as int] is Paragraph,
        para == paragraph_of(place.blocks[block_idx as int]),
    ensures
        ({
            let (pf, checkpoint) = begun(st, ctx, place, block_idx, para);
            &&& is_begun(pf, st, para, checkpoint) || has_left(pf, para)
            &&& ready(pf.st, ctx, flat)
            &&& pf.st.shown() == st.shown().add(bands(para))
            &&& !pf.content_placed
            &&& !pf.notes_reserved
        }),
{
    reveal(begun);
    let style = style_in_place(st, para.style);
    let joined = FlowState { cursor_y: st.cursor_y.minus(st.previous.overlap(&style)), ..st };
    let col = st.current_col as int;
    let x = ctx.config.col_x(col);
    let width = ctx.config.columns@[col].width;
    let top = joined.cursor_y.plus(style.space_before);
    lemma_bands(joined, para.images, para.shapes, top, x, width);
    law_checkpoint_undoes_paragraph_floats(joined, para.images, para.shapes, top, x, width);
    let floated = joined.with_paragraph_floats(para.images, para.shapes, top, x, width);
    let (met, floats) = floated.pruned().with_effective_floats(
        place,
        style.space_before,
        x,
        width,
    );
    assert(met.page == floated.page && met.pages == floated.pages && met.footnotes
        == floated.footnotes);
    assert(met.shown() == floated.shown());
    assert(joined.shown() == st.shown());
    let (pf, checkpoint) = begun(st, ctx, place, block_idx, para);
    lemma_new_page_ink(met, block_idx, ctx);
    assert(met.on_new_page(block_idx, ctx).without_space().shown() == met.on_new_page(
        block_idx,
        ctx,
    ).shown());
    if pf.st != met {
        let i = choose|i: int|
            0 <= i < para.fragments.len() && para.fragments[i].is_page_break();
        assert(para.fragments[i].is_flow_break());
    } else {
        assert(pf.st.floats_restored(checkpoint).page =~= floated.floats_restored(
            joined.float_checkpoint(),
        ).page);
    }
}

/// The fragments `from..end` of a paragraph drawn as a whole.
pub(crate) proof fn lemma_whole(pf: ParaFlow<'_>, job: FlowJob<'_>, from: int, end: int)
    requires
        pf.st.current_col < job.ctx.config.columns@.len(),
        job.para.fragments.len() <= usize::MAX,
        0 <= from <= end <= job.para.fragments.len(),
    ensures
        ({
            let next = pf.drawn_whole(job, job.para.fragments.subrange(from, end));
            &&& next.st.shown() == pf.st.shown().add(fragments_ink(job.para.fragments, from, end))
            &&& next.st.current_col == pf.st.current_col
            &&& next.st.page.behind == pf.st.page.behind
            &&& next.notes_reserved == pf.notes_reserved
        }),
{
    reveal(ParaFlow::drawn_whole);
    let chunk = job.para.fragments.subrange(from, end);
    let col = pf.st.current_col as int;
    let place = place_of(pf.st, job.ctx, pf.set);
    let p = placed(chunk, place, pf.set.style);
    let whole = p.full(pf.set.style, place.width, place.max_height);
    let x = job.ctx.config.col_x(col);
    let next = pf.drawn_whole(job, chunk);
    lemma_placed(chunk, place, pf.set.style);
    lemma_segment_ink(
        chunk,
        place,
        pf.set.style,
        pf.set.style,
        place.width,
        p.lines.len() as int,
        true,
        true,
    );
    lemma_chunk_ink(job.para.fragments, from, end, from);
    let more = shift_all(whole.commands, x, pf.st.cursor_y);
    lemma_ink_shift(whole.commands, x, pf.st.cursor_y);
    lemma_ink_concat(pf.st.page.commands, more);
    assert(ink(more) == fragments_ink(job.para.fragments, from, end));
    assert(page_ink(next.st.page) =~= page_ink(pf.st.page).add(ink(more)));
    assert(next.st.shown() =~= pf.st.shown().add(ink(more)));
}

/// The fragments `from..end` of a paragraph drawn in parts, and its footnotes.
pub(crate) proof fn lemma_parts(pf: ParaFlow<'_>, job: FlowJob<'_>, from: int, end: int)
    requires
        pf.st.current_col < job.ctx.config.columns@.len(),
        refers_to_its_notes(job.para),
        0 <= from <= end <= job.para.fragments.len(),
        !has_flow_break(job.para.fragments) ==> from == 0 && end == job.para.fragments.len(),
        pf.may_be_divided(job, job.para.fragments.subrange(from, end)),
    ensures
        ({
            let next = pf.drawn_in_parts(job, job.para.fragments.subrange(from, end));
            &&& next.st.shown() == pf.st.shown().add(
                fragments_ink(job.para.fragments, from, end),
            ).add(notes(job.para))
            &&& next.st.current_col < job.ctx.config.columns@.len()
            &&& pf.st.page.behind.len() == 0 ==> next.st.page.behind.len() == 0
            &&& next.notes_reserved == (pf.notes_reserved || job.para.footnotes.len() > 0)
            &&& job.para.footnotes.len() == 0 ==> notes(job.para) == Multiset::<Ink>::empty()
            &&& bands(job.para) == Multiset::<Ink>::empty()
        }),
{
    reveal(ParaFlow::may_be_divided);
    reveal(ParaFlow::drawn_in_parts);
    let chunk = job.para.fragments.subrange(from, end);
    let split = SplitJob {
        ctx: job.ctx,
        place: job.place,
        fragments: chunk,
        style: pf.set.style,
        footnotes: job.para.footnotes,
        block_idx: job.block_idx,
    };
    lemma_placed(chunk, place_of(pf.st, job.ctx, pf.set), pf.set.style);
    lemma_split_from_ink(pf.st, split, pf.set, 0, true, 0, false, pf.start_y);
    lemma_chunk_ink(job.para.fragments, from, end, from);
    if job.para.footnotes.len() == 0 {
        assert(notes(job.para) =~= Multiset::<Ink>::empty());
    } else {
        assert(chunk =~= job.para.fragments);
    }
    assert(bands(job.para) =~= Multiset::<Ink>::empty());
    let next = pf.drawn_in_parts(job, chunk);
    assert(next.st.shown() =~= pf.st.shown().add(
        fragments_ink(job.para.fragments, from, end),
    ).add(notes(job.para)));
}

/// A paragraph moved to the next column or page takes its bands along.
proof fn lemma_moved<'doc>(pf: ParaFlow<'doc>, job: FlowJob<'_>, st: FlowState<'doc>, flat: bool)
    requires
        is_begun(pf, st, job.para, job.checkpoint),
        ready(st, job.ctx, flat),
        flat ==> none_behind(job.para.images, job.para.shapes),
    ensures
        ({
            let next = pf.moved_whole(job);
            &&& next.st.shown() == st.shown().add(bands(job.para))
            &&& ready(next.st, job.ctx, flat)
            &&& !next.notes_reserved
        }),
{
    reveal(ParaFlow::moved_whole);
    assert(job.ctx.config.columns.len() == job.ctx.config.columns@.len());
    let back = pf.floats_taken_back(job, true);
    assert(back.st.page == st.page);
    assert(back.st.shown() == st.shown());
    lemma_advanced_ink(back.st, job.ctx, job.block_idx);
    let moved = back.st.advanced(job.ctx, job.block_idx);
    assert(ready(moved, job.ctx, flat));
    let bare = TextSetting {
        style: ParagraphStyle { space_before: Pt::zero(), ..back.set.style },
        ..back.set
    };
    let at = ParaFlow { st: moved, set: bare, start_y: moved.cursor_y, ..back };
    let col = moved.current_col as int;
    lemma_bands(
        moved,
        job.para.images,
        job.para.shapes,
        moved.cursor_y.plus(bare.style.space_before),
        job.ctx.config.col_x(col),
        job.ctx.config.columns@[col].width,
    );
    let placed_here = at.floats_placed_here(job, true);
    let floated = moved.with_paragraph_floats(
        job.para.images,
        job.para.shapes,
        moved.cursor_y.plus(bare.style.space_before),
        job.ctx.config.col_x(col),
        job.ctx.config.columns@[col].width,
    );
    assert(placed_here.st.page == floated.page && placed_here.st.pages == floated.pages
        && placed_here.st.footnotes == floated.footnotes && placed_here.st.current_col
        == floated.current_col);
    assert(placed_here.st.shown() == floated.shown());
}

proof fn lemma_cleared<'doc>(
    pf: ParaFlow<'doc>,
    job: FlowJob<'_>,
    chunk: Seq<Fragment>,
    st: FlowState<'doc>,
)
    requires
        is_begun(pf, st, job.para, job.checkpoint),
    ensures
        ({
            let next = pf.cleared(job, chunk);
            &&& is_begun(next, st, job.para, job.checkpoint)
            &&& next.st.page == pf.st.page
            &&& next.st.current_col == pf.st.current_col
        }),
{
    reveal(ParaFlow::cleared);
    let next = pf.cleared(job, chunk);
    assert(next.st.page == pf.st.page && next.st.pages == pf.st.pages && next.st.footnotes
        == pf.st.footnotes);
    assert(next.st.shown() == pf.st.shown());
    assert(next.st.floats_restored(job.checkpoint).page == pf.st.floats_restored(
        job.checkpoint,
    ).page);
}

/// Whether all of a paragraph but its free floating objects has been drawn after `st`, and its
/// footnotes if room has been reserved for them.
pub(crate) open spec fn is_placed(
    pf: ParaFlow<'_>,
    st: FlowState<'_>,
    para: ParagraphInFlow,
) -> bool {
    pf.st.shown() == st.shown().add(bands(para)).add(text(para)).add(
        if pf.notes_reserved {
            notes(para)
        } else {
            Multiset::empty()
        },
    )
}

/// The first text of a paragraph that opens with it, `0..end`, is placed; or the page is placed
/// anew while no page has been turned.
proof fn lemma_first_text<'doc>(
    pf: ParaFlow<'doc>,
    job: FlowJob<'_>,
    st: FlowState<'doc>,
    end: int,
    flat: bool,
)
    requires
        is_begun(pf, st, job.para, job.checkpoint),
        refers_to_its_notes(job.para),
        0 < end <= job.para.fragments.len(),
        !has_flow_break(job.para.fragments) ==> end == job.para.fragments.len(),
        ready(st, job.ctx, flat),
        ready(pf.st, job.ctx, flat),
        flat ==> none_behind(job.para.images, job.para.shapes),
    ensures
        ({
            let (next, replay) = pf.with_chunk(job, job.para.fragments.subrange(0, end), 0);
            &&& replay ==> next.st.pages == st.pages && must_replay(job, false, true)
            &&& !replay ==> next.content_placed && on_track(
                next,
                job,
                st.shown().add(bands(job.para)),
                end,
                flat,
            )
        }),
{
    let chunk = job.para.fragments.subrange(0, end);
    let at = pf.cleared(job, chunk);
    lemma_cleared(pf, job, chunk, st);
    let (next, replay) = pf.with_chunk(job, chunk, 0);
    if at.may_be_divided(job, chunk) {
        lemma_parts(at, job, 0, end);
    } else if !at.must_leave(job, chunk) {
        lemma_whole(at, job, 0, end);
    } else if !must_replay(
        job,
        at.content_placed,
        at.st.current_col + 1 >= job.ctx.config.columns@.len(),
    ) {
        lemma_moved(at, job, st, flat);
        lemma_whole(at.moved_whole(job), job, 0, end);
    }
    if !replay {
        assert(next.st.shown() =~= st.shown().add(bands(job.para)).add(
            fragments_ink(job.para.fragments, 0, end),
        ).add(reserved_ink(next, job)));
    }
}

/// A paragraph that opens with page breaks is at the top of a new page after them.
proof fn lemma_past_page_breaks<'doc>(
    pf: ParaFlow<'doc>,
    job: FlowJob<'_>,
    st: FlowState<'doc>,
    flat: bool,
)
    requires
        is_begun(pf, st, job.para, job.checkpoint),
        ready(st, job.ctx, flat),
        job.para.images.len() == 0,
        job.para.shapes.len() == 0,
    ensures
        ({
            let next = pf.after_page_break(job);
            &&& next.st.shown() == st.shown()
            &&& ready(next.st, job.ctx, flat)
            &&& next.st.at_full_column_top()
            &&& !next.content_placed
            &&& !next.notes_reserved
        }),
{
    reveal(ParaFlow::after_page_break);
    assert(job.ctx.config.columns.len() == job.ctx.config.columns@.len());
    let back = pf.floats_taken_back(job, true);
    assert(back.st.page == st.page);
    assert(back.st.shown() == st.shown());
    lemma_new_page_ink(back.st, job.block_idx, job.ctx);
    let turned = back.st.on_new_page(job.block_idx, job.ctx).without_space();
    assert(turned.shown() == back.st.shown());
    let next = pf.after_page_break(job);
    assert(next.st.page == turned.page && next.st.pages == turned.pages && next.st.footnotes
        == turned.footnotes);
    assert(next.st.shown() == turned.shown());
}

/// The first text of a paragraph at the top of a page, `from..end`, is placed.
proof fn lemma_text_at_top<'doc>(
    pf: ParaFlow<'doc>,
    job: FlowJob<'_>,
    base: Multiset<Ink>,
    from: int,
    end: int,
    flat: bool,
)
    requires
        pf.st.shown() == base,
        ready(pf.st, job.ctx, flat),
        pf.st.at_full_column_top(),
        !pf.notes_reserved,
        refers_to_its_notes(job.para),
        has_flow_break(job.para.fragments),
        0 <= from < end <= job.para.fragments.len(),
        fragments_ink(job.para.fragments, 0, from) == Multiset::<Ink>::empty(),
    ensures
        ({
            let (next, replay) = pf.with_chunk(job, job.para.fragments.subrange(from, end), 0);
            &&& !replay
            &&& next.content_placed
            &&& on_track(next, job, base, end, flat)
        }),
{
    let chunk = job.para.fragments.subrange(from, end);
    reveal(ParaFlow::cleared);
    reveal(ParaFlow::must_leave);
    assert(pf.cleared(job, chunk) == pf);
    let (next, replay) = pf.with_chunk(job, chunk, 0);
    if pf.may_be_divided(job, chunk) {
        lemma_parts(pf, job, from, end);
    } else {
        lemma_whole(pf, job, from, end);
    }
    lemma_fragments_ink_split(job.para.fragments, 0, from, end);
    assert(next.st.shown() =~= base.add(fragments_ink(job.para.fragments, 0, end)).add(
        reserved_ink(next, job),
    ));
}

proof fn lemma_after_page_breaks(fragments: Seq<Fragment>, i: int)
    requires
        0 <= i <= fragments.len(),
    ensures
        i <= after_page_breaks(fragments, i) <= fragments.len(),
        fragments_ink(fragments, i, after_page_breaks(fragments, i)) == Multiset::<Ink>::empty(),
        i < after_page_breaks(fragments, i) ==> has_flow_break(fragments),
        after_page_breaks(fragments, i) < fragments.len() ==> !fragments[after_page_breaks(
            fragments,
            i,
        )].is_page_break(),
    decreases fragments.len() - i,
{
    if i < fragments.len() && fragments[i].is_page_break() {
        lemma_after_page_breaks(fragments, i + 1);
        assert(fragments[i].is_flow_break());
        assert(fragments_ink(fragments, i, after_page_breaks(fragments, i)) =~= Multiset::<
            Ink,
        >::empty());
    } else {
        assert(fragments_ink(fragments, i, i) =~= Multiset::<Ink>::empty());
    }
}

/// Page breaks that open a paragraph wait for text.
proof fn lemma_waiting_breaks<'doc>(pf: ParaFlow<'doc>, job: FlowJob<'_>, i: int)
    requires
        0 <= i <= after_page_breaks(job.para.fragments, 0),
        after_page_breaks(job.para.fragments, i) == after_page_breaks(job.para.fragments, 0),
    ensures
        ({
            let first = after_page_breaks(job.para.fragments, 0);
            pf.with_page_chunks(job, i, i > 0) == pf.with_page_chunks(job, first, first > 0)
        }),
    decreases after_page_breaks(job.para.fragments, 0) - i,
{
    let fragments = job.para.fragments;
    let first = after_page_breaks(fragments, 0);
    if i < first {
        assert(fragments[i].is_page_break());
        assert(next_page_break(fragments, i) == i);
        assert(fragments.subrange(i, i).len() == 0);
        lemma_waiting_breaks(pf, job, i + 1);
    }
}

/// A paragraph that opens with text is placed; or its page is placed anew while no page has been
/// turned.
pub(crate) proof fn lemma_chunks<'doc>(
    pf: ParaFlow<'doc>,
    job: FlowJob<'_>,
    st: FlowState<'doc>,
    flat: bool,
)
    requires
        is_begun(pf, st, job.para, job.checkpoint) || has_left(pf, job.para),
        pf.st.shown() == st.shown().add(bands(job.para)),
        !pf.content_placed,
        !pf.notes_reserved,
        opens_with_text(job.para),
        ready(st, job.ctx, flat),
        ready(pf.st, job.ctx, flat),
        flat ==> none_behind(job.para.images, job.para.shapes),
    ensures
        ({
            let (next, replay, left) = pf.with_page_chunks(job, 0, false);
            &&& replay ==> next.st.pages == st.pages && must_replay(job, false, true)
            &&& !replay ==> is_placed(next, st, job.para) && ready(next.st, job.ctx, flat)
        }),
{
    let fragments = job.para.fragments;
    let n = fragments.len() as int;
    let first = after_page_breaks(fragments, 0);
    let base = st.shown().add(bands(job.para));
    lemma_after_page_breaks(fragments, 0);
    lemma_waiting_breaks(pf, job, 0);
    if first == n {
        assert(next_page_break(fragments, n) == n);
        assert(fragments.subrange(n, n).len() == 0);
        assert(pf.st.shown() =~= base.add(text(job.para)).add(Multiset::empty()));
    } else {
        let page_end = next_page_break(fragments, first);
        lemma_next_page_break(fragments, first);
        let content = fragments.subrange(first, page_end);
        let end = next_column_break(content, 0);
        lemma_next_column_break(content, 0);
        assert(content[0] == fragments[first]);
        assert(end > 0);
        assert(page_end > first);
        assert(content.subrange(0, end) =~= fragments.subrange(first, first + end));
        if end < content.len() {
            assert(content[end] == fragments[first + end]);
            assert(fragments[first + end].is_flow_break());
        }
        if page_end < n {
            assert(fragments[page_end].is_flow_break());
        }
        let at = if first > 0 {
            pf.after_page_break(job)
        } else {
            pf
        };
        if first > 0 {
            lemma_past_page_breaks(pf, job, st, flat);
            assert(bands(job.para) =~= Multiset::<Ink>::empty());
            assert(base =~= st.shown());
            lemma_text_at_top(at, job, base, first, first + end, flat);
        } else if has_left(pf, job.para) {
            lemma_text_at_top(pf, job, base, 0, end, flat);
        } else {
            assert(!has_flow_break(fragments) ==> end == n);
            lemma_first_text(pf, job, st, end, flat);
        }
        let (one, replay) = at.with_chunk(job, content.subrange(0, end), 0);
        let (here, again) = at.with_column_chunks(job, content, 0, 0);
        if !replay {
            if end < content.len() {
                lemma_past_break(one, job, base, first + end, flat);
                lemma_column_chunks(one, job, base, first, page_end, end + 1, 1, flat);
            }
            assert(!again && on_track(here, job, base, page_end, flat));
            if page_end < n {
                lemma_past_break(here, job, base, page_end, flat);
                lemma_page_chunks(here, job, base, page_end + 1, true, flat);
            }
        }
    }
}

/// The end of a paragraph draws the rest of it.
pub(crate) proof fn lemma_ended<'doc>(
    pf: ParaFlow<'doc>,
    ctx: LayoutCtx<'_>,
    para: ParagraphInFlow,
    left: bool,
    st: FlowState<'doc>,
    flat: bool,
)
    requires
        is_placed(pf, st, para),
        ready(pf.st, ctx, flat),
        flat ==> none_behind(para.images, para.shapes),
    ensures
        ready(ended(pf, ctx, para, left), ctx, flat),
        ended(pf, ctx, para, left).shown() == st.shown().add(text(para)).add(notes(para)).add(
            bands(para).add(floats_part(para.images, para.shapes, false)),
        ),
{
    reveal(ended);
    let style = pf.set.style;
    let at = FlowState {
        pending_page_break: pf.st.pending_page_break || left,
        first_on_section_page: false,
        prev_borders: para.style.borders,
        previous: crate::style::PreviousParagraph::of(&style),
        prev_table_style_id: None,
        ..pf.st
    };
    assert(at.shown() == pf.st.shown());
    let top = pf.start_y.plus(style.space_before);
    lemma_free_floats(at, para.images, para.shapes, top);
    let drawn = at.with_free_images(para.images, 0, top).with_free_shapes(para.shapes, 0, top);
    if !pf.notes_reserved {
        lemma_reserved_ink(drawn, ctx, para.footnotes, 0, para.footnotes.len() as int);
    }
    assert(ended(pf, ctx, para, left).shown() =~= st.shown().add(text(para)).add(notes(para)).add(
        bands(para).add(floats_part(para.images, para.shapes, false)),
    ));
}

} // verus!
