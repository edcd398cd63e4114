//! Paragraphs whose floating objects are taken back in time show them once.
use crate::block::{FloatingImage, FloatingShape};
use crate::dimension::Pt;
use crate::draw_command::{shift_all, DrawCommand};
use crate::fragment::{has_flow_break, Fragment};
use crate::geometry::PtRect;
use crate::ink::{
    command_ink, fragments_ink, ink, lemma_fragments_ink_split, lemma_ink_shift, lemma_no_ink,
    lemma_placed, lemma_segment_ink, Ink,
};
use crate::paragraph::placed;
use crate::section::content::{
    lemma_chunk_ink, lemma_column_chunks, lemma_next_column_break, lemma_next_page_break,
    lemma_nothing_shown, lemma_page_chunks, lemma_past_break, on_track, refers_to_its_notes,
    reserved_ink, shows_nothing_from,
};
use crate::section::float_ink::{images_part, lemma_bands, none_behind, shapes_part};
use crate::section::floats::{law_checkpoint_undoes_paragraph_floats, FloatCheckpoint};
use crate::section::laws::{
    behind_ink, lemma_advanced_ink, lemma_new_page_ink, notes_ink, page_ink, pages_ink,
};
use crate::section::layout::{begun, style_in_place};
use crate::section::opening::{bands, is_placed, lemma_parts, lemma_whole, ready, text};
use crate::section::paragraph_flow::{
    must_replay, next_column_break, next_page_break, FlowJob, ParaFlow,
};
use crate::section::split::{place_of, TextSetting};
use crate::section::state::FlowState;
use crate::style::ParagraphStyle;
use vstd::multiset::Multiset;
use vstd::prelude::*;

verus! {

/// Whether no floating object is a band.
pub open spec fn none_is_a_band(images: Seq<FloatingImage>, shapes: Seq<FloatingShape>) -> bool {
    &&& forall|i: int| #![trigger images[i]]
        0 <= i < images.len() ==> !images[i].frame.is_wrap_top_and_bottom()
    &&& forall|i: int| #![trigger shapes[i]]
        0 <= i < shapes.len() ==> !shapes[i].frame.is_wrap_top_and_bottom()
}

/// Whether all bands among floating objects lie behind the text.
pub open spec fn bands_lie_behind(images: Seq<FloatingImage>, shapes: Seq<FloatingShape>) -> bool {
    &&& forall|i: int| #![trigger images[i]]
        0 <= i < images.len() && images[i].frame.is_wrap_top_and_bottom()
            ==> images[i].frame.behind_doc
    &&& forall|i: int| #![trigger shapes[i]]
        0 <= i < shapes.len() && shapes[i].frame.is_wrap_top_and_bottom()
            ==> shapes[i].frame.behind_doc
}

/// Whether a paragraph that begins at `st` can take its bands back from any page: it owns none, or
/// they lie behind the text and have not been left behind before its first part; and nothing lay
/// behind the text of the page where it began.
pub open spec fn takes_back_anywhere(job: FlowJob<'_>, st: FlowState<'_>) -> bool {
    let start = begun(st, job.ctx, job.place, job.block_idx, job.para).0;
    &&& st.page.behind.len() == 0
    &&& none_is_a_band(job.para.images, job.para.shapes) || (bands_lie_behind(
        job.para.images,
        job.para.shapes,
    ) && start.st.pages.len() == st.pages.len())
}

/// Whether a paragraph that began at `st` can take its floating objects back from the page at hand: it
/// began on this page, or it can from any.
pub open spec fn can_take_back(pf: ParaFlow<'_>, job: FlowJob<'_>, st: FlowState<'_>) -> bool {
    pf.st.pages.len() == st.pages.len() || takes_back_anywhere(job, st)
}

/// Whether a paragraph that began at `st` leaves its column or page in time: its text has begun, or
/// it can take its floating objects back. The page can only be placed anew where it began.
pub open spec fn leaves_in_time(
    pf: ParaFlow<'_>,
    job: FlowJob<'_>,
    st: FlowState<'_>,
    to_new_page: bool,
) -> bool {
    if must_replay(job, pf.content_placed, to_new_page) {
        pf.st.pages.len() == st.pages.len()
    } else {
        pf.content_placed || can_take_back(pf, job, st)
    }
}

/// Whether a part of a paragraph between breaks, number `index` of its page, leaves its column and
/// page in time.
#[verifier::opaque]
pub open spec fn chunk_in_time(
    pf: ParaFlow<'_>,
    job: FlowJob<'_>,
    st: FlowState<'_>,
    chunk: Seq<Fragment>,
    index: int,
) -> bool {
    let columns = job.ctx.config.columns@.len();
    let new_page = pf.st.current_col + 1 >= columns;
    let at = (if index > 0 {
        pf.after_column_break(job)
    } else {
        pf
    }).cleared(job, chunk);
    &&& index > 0 && new_page ==> leaves_in_time(pf, job, st, true)
    &&& !(index > 0 && must_replay(job, pf.content_placed, new_page)) && !at.may_be_divided(
        job,
        chunk,
    ) && at.must_leave(job, chunk) ==> leaves_in_time(
        at,
        job,
        st,
        at.st.current_col + 1 >= columns,
    )
}

/// Whether the parts of a page's content from fragment `from` on leave their columns and pages in time.
pub open spec fn columns_in_time(
    pf: ParaFlow<'_>,
    job: FlowJob<'_>,
    st: FlowState<'_>,
    content: Seq<Fragment>,
    from: int,
    index: int,
) -> bool
    decreases content.len() - from,
{
    let end = next_column_break(content, from);
    let chunk = content.subrange(from, end);
    let (next, replay) = pf.with_chunk(job, chunk, index);
    &&& chunk_in_time(pf, job, st, chunk, index)
    &&& replay || end >= content.len() || end < from || columns_in_time(
        next,
        job,
        st,
        content,
        end + 1,
        index + 1,
    )
}

/// Whether a paragraph that began at `st` leaves its columns and pages in time from fragment `from`
/// on: before its text begins, its floating objects are taken back from the page that it began on
/// alone, unless they can be from any. So one with bands over the text leaves no more than one page
/// before its text begins.
pub open spec fn pages_in_time(
    pf: ParaFlow<'_>,
    job: FlowJob<'_>,
    st: FlowState<'_>,
    from: int,
    unresolved: bool,
) -> bool
    decreases job.para.fragments.len() - from,
{
    let fragments = job.para.fragments;
    let end = next_page_break(fragments, from);
    let content = fragments.subrange(from, end);
    let replays = unresolved && must_replay(job, pf.content_placed, true);
    let at = if unresolved {
        pf.after_page_break(job)
    } else {
        pf
    };
    let (here, again) = at.with_column_chunks(job, content, 0, 0);
    let next = if content.len() == 0 {
        pf
    } else {
        here
    };
    &&& content.len() > 0 && unresolved ==> leaves_in_time(pf, job, st, true)
    &&& content.len() > 0 && !replays ==> columns_in_time(at, job, st, content, 0, 0)
    &&& (content.len() > 0 && (replays || again)) || end >= fragments.len() || end < from
        || pages_in_time(next, job, st, end + 1, true)
}

/// Whether a checkpoint is that of the page of `st`.
spec fn is_of(c: FloatCheckpoint, st: FlowState<'_>) -> bool {
    c.command_count == st.page.commands.len() && c.behind == st.page.behind
}

/// What is shown on the pages before the one at hand, and by the footnotes that will stand on it.
spec fn shown_elsewhere(st: FlowState<'_>) -> Multiset<Ink> {
    pages_ink(st.pages).add(notes_ink(st.footnotes, 0))
}

/// A page without text shows nothing but what lies behind.
proof fn lemma_shown_elsewhere(st: FlowState<'_>)
    requires
        shows_nothing_from(st.page.commands, 0),
    ensures
        st.page.behind.len() == 0 ==> st.shown() == shown_elsewhere(st),
{
    lemma_no_ink(st.page.commands);
    if st.page.behind.len() == 0 {
        assert(behind_ink(st.page.behind) =~= Multiset::<Ink>::empty());
        assert(page_ink(st.page) =~= Multiset::<Ink>::empty());
        assert(st.shown() =~= shown_elsewhere(st));
    }
}

/// Whether a paragraph without text yet stands after `st` with its bands drawn, and can take them
/// back if that is ever asked for in time.
spec fn is_held(pf: ParaFlow<'_>, job: FlowJob<'_>, st: FlowState<'_>, flat: bool) -> bool {
    let c = job.checkpoint;
    &&& !pf.content_placed
    &&& !pf.notes_reserved
    &&& ready(pf.st, job.ctx, flat)
    &&& pf.st.shown() == st.shown().add(bands(job.para))
    &&& pf.st.pages.len() >= st.pages.len()
    &&& if pf.st.pages.len() == st.pages.len() {
        &&& pf.st.pages == st.pages
        &&& pf.st.footnotes == st.footnotes
        &&& pf.st.floats_restored(c).page == st.page
    } else {
        takes_back_anywhere(job, st) ==> {
            &&& shown_elsewhere(pf.st) == st.shown()
            &&& shows_nothing_from(pf.st.page.commands, 0)
        }
    }
}

proof fn lemma_no_bands(images: Seq<FloatingImage>, shapes: Seq<FloatingShape>, i: int)
    requires
        none_is_a_band(images, shapes),
        0 <= i,
    ensures
        images_part(images, i, true) == Multiset::<Ink>::empty(),
        shapes_part(shapes, i, true) == Multiset::<Ink>::empty(),
    decreases images.len() + shapes.len() - i,
{
    if i < images.len() || i < shapes.len() {
        lemma_no_bands(images, shapes, i + 1);
    }
}

/// Images that are bands behind the text draw nothing before it.
proof fn lemma_images_behind<'doc>(
    st: FlowState<'doc>,
    images: Seq<FloatingImage>,
    i: int,
    top: Pt,
    x: Pt,
    width: Pt,
)
    requires
        bands_lie_behind(images, Seq::empty()),
    ensures
        st.with_images(images, i, top, x, width).page.commands == st.page.commands,
    decreases images.len() - i,
{
    if 0 <= i < images.len() {
        let frame = images[i].frame;
        let y = frame.y.resolve(top);
        let f = crate::section::floats::frame_float(
            frame,
            y,
            st.parity(),
            x,
            width,
            crate::float::FloatSource::Image,
        );
        let next = if frame.is_wrap_top_and_bottom() {
            st.with_image(images[i], y).with_room(frame, f)
        } else if frame.wrap_mode.registers_as_wrap_float() {
            st.with_room(frame, f)
        } else {
            st
        };
        assert(next.page.commands == st.page.commands);
        lemma_images_behind(next, images, i + 1, top, x, width);
    }
}

proof fn lemma_text_behind<'doc>(st: FlowState<'doc>, shape: FloatingShape, y: Pt, i: int)
    requires
        shape.frame.behind_doc,
    ensures
        st.with_shape_text(shape, y, i).page.commands == st.page.commands,
    decreases shape.text_commands@.len() - i,
{
    if 0 <= i < shape.text_commands@.len() {
        let command = shape.text_commands@[i].shifted(shape.frame.x.resolve(st.parity()), y);
        lemma_text_behind(st.with_floating_command(shape.frame, command), shape, y, i + 1);
    }
}

/// Drawings that are bands behind the text draw nothing before it.
proof fn lemma_shapes_behind<'doc>(
    st: FlowState<'doc>,
    shapes: Seq<FloatingShape>,
    i: int,
    top: Pt,
    x: Pt,
    width: Pt,
)
    requires
        bands_lie_behind(Seq::empty(), shapes),
    ensures
        st.with_shapes(shapes, i, top, x, width).page.commands == st.page.commands,
    decreases shapes.len() - i,
{
    if 0 <= i < shapes.len() {
        let frame = shapes[i].frame;
        let y = frame.y.resolve(top);
        let f = crate::section::floats::frame_float(
            frame,
            y,
            st.parity(),
            x,
            width,
            crate::float::FloatSource::Shape,
        );
        let next = if frame.is_wrap_top_and_bottom() {
            lemma_text_behind(
                st.with_floating_command(
                    frame,
                    DrawCommand::Path {
                        rect: PtRect::from_xywh(
                            frame.x.resolve(st.parity()),
                            y,
                            frame.size.width,
                            frame.size.height,
                        ),
                        path: shapes[i].path,
                    },
                ),
                shapes[i],
                y,
                0,
            );
            st.with_shape(shapes[i], y).with_room(frame, f)
        } else if frame.wrap_mode.registers_as_wrap_float() {
            st.with_room(frame, f)
        } else {
            st
        };
        assert(next.page.commands == st.page.commands);
        lemma_shapes_behind(next, shapes, i + 1, top, x, width);
    }
}

/// A paragraph takes its floating objects back from where it can.
proof fn lemma_restored<'doc>(
    pf: ParaFlow<'doc>,
    job: FlowJob<'_>,
    st: FlowState<'doc>,
    flat: bool,
)
    requires
        is_held(pf, job, st, flat),
        is_of(job.checkpoint, st),
        ready(st, job.ctx, flat),
        can_take_back(pf, job, st),
    ensures
        ({
            let back = pf.st.floats_restored(job.checkpoint);
            &&& back.shown() == st.shown()
            &&& ready(back, job.ctx, flat)
            &&& if pf.st.pages.len() == st.pages.len() {
                back.page == st.page
            } else {
                back.page.behind.len() == 0 && shows_nothing_from(back.page.commands, 0)
            }
        }),
{
    let c = job.checkpoint;
    let back = pf.st.floats_restored(c);
    if pf.st.pages.len() != st.pages.len() {
        assert forall|i: int| #![trigger back.page.commands[i]] 0 <= i < back.page.commands.len()
            implies command_ink(back.page.commands[i]) == Multiset::<Ink>::empty() by {
            assert(back.page.commands[i] == pf.st.page.commands[i]);
        }
        lemma_shown_elsewhere(back);
        assert(shown_elsewhere(back) == shown_elsewhere(pf.st));
    }
}

/// A paragraph places its floating objects where it has moved to.
proof fn lemma_floats_here<'doc>(
    at: ParaFlow<'doc>,
    job: FlowJob<'_>,
    st: FlowState<'doc>,
    new_floats: bool,
    flat: bool,
)
    requires
        !at.content_placed,
        !at.notes_reserved,
        ready(at.st, job.ctx, flat),
        at.st.shown() == st.shown(),
        is_of(job.checkpoint, st),
        flat ==> none_behind(job.para.images, job.para.shapes),
        (at.st.pages == st.pages && at.st.footnotes == st.footnotes && at.st.page == st.page) || (
        at.st.pages.len() > st.pages.len() && at.st.page.behind.len() == 0 && shows_nothing_from(
            at.st.page.commands,
            0,
        )),
    ensures
        is_held(at.floats_placed_here(job, true).set_at_cursor(job, new_floats), job, st, flat),
{
    let col = at.st.current_col as int;
    let x = job.ctx.config.col_x(col);
    let width = job.ctx.config.columns@[col].width;
    let top = at.st.cursor_y.plus(at.set.style.space_before);
    lemma_bands(at.st, job.para.images, job.para.shapes, top, x, width);
    let floated = at.st.with_paragraph_floats(job.para.images, job.para.shapes, top, x, width);
    let next = at.floats_placed_here(job, true).set_at_cursor(job, new_floats);
    assert(next.st.page == floated.page && next.st.pages == floated.pages && next.st.footnotes
        == floated.footnotes && next.st.current_col == floated.current_col);
    assert(next.st.shown() == floated.shown());
    if at.st.pages.len() == st.pages.len() {
        law_checkpoint_undoes_paragraph_floats(
            at.st,
            job.para.images,
            job.para.shapes,
            top,
            x,
            width,
        );
        let c = job.checkpoint;
        assert(next.st.floats_restored(c).page =~= floated.floats_restored(
            at.st.float_checkpoint(),
        ).page);
    } else if takes_back_anywhere(job, st) {
        lemma_images_behind(at.st, job.para.images, 0, top, x, width);
        let between = at.st.with_images(job.para.images, 0, top, x, width);
        lemma_shapes_behind(between, job.para.shapes, 0, top, x, width);
        assert(floated.page.commands == at.st.page.commands);
        lemma_shown_elsewhere(at.st);
        assert(shown_elsewhere(next.st) == shown_elsewhere(at.st));
    }
}

proof fn lemma_page_break_held<'doc>(
    pf: ParaFlow<'doc>,
    job: FlowJob<'_>,
    st: FlowState<'doc>,
    flat: bool,
)
    requires
        is_held(pf, job, st, flat),
        is_of(job.checkpoint, st),
        ready(st, job.ctx, flat),
        can_take_back(pf, job, st),
        flat ==> none_behind(job.para.images, job.para.shapes),
    ensures
        is_held(pf.after_page_break(job), job, st, flat),
{
    reveal(ParaFlow::after_page_break);
    assert(job.ctx.config.columns.len() == job.ctx.config.columns@.len());
    lemma_restored(pf, job, st, flat);
    let back = pf.floats_taken_back(job, true);
    lemma_new_page_ink(back.st, job.block_idx, job.ctx);
    let turned = back.st.on_new_page(job.block_idx, job.ctx).without_space();
    assert(turned.shown() == back.st.shown());
    lemma_floats_here(
        ParaFlow { st: turned, start_y: turned.cursor_y, ..back },
        job,
        st,
        true,
        flat,
    );
}

proof fn lemma_column_break_held<'doc>(
    pf: ParaFlow<'doc>,
    job: FlowJob<'_>,
    st: FlowState<'doc>,
    flat: bool,
)
    requires
        is_held(pf, job, st, flat),
        is_of(job.checkpoint, st),
        ready(st, job.ctx, flat),
        pf.st.current_col + 1 >= job.ctx.config.columns@.len() ==> can_take_back(pf, job, st),
        flat ==> none_behind(job.para.images, job.para.shapes),
    ensures
        is_held(pf.after_column_break(job), job, st, flat),
{
    reveal(ParaFlow::after_column_break);
    assert(job.ctx.config.columns.len() == job.ctx.config.columns@.len());
    let new_page = pf.st.current_col + 1 >= job.ctx.config.columns@.len();
    let back = pf.floats_taken_back(job, new_page);
    if new_page {
        lemma_restored(pf, job, st, flat);
        lemma_new_page_ink(back.st, job.block_idx, job.ctx);
        let moved = back.st.on_new_page(job.block_idx, job.ctx);
        let at_top = FlowState { cursor_y: moved.column_top, ..moved };
        assert(at_top.shown() == moved.shown());
        lemma_floats_here(ParaFlow { st: at_top, ..back }, job, st, true, flat);
    } else {
        let next = pf.after_column_break(job);
        assert(next.st.page == pf.st.page && next.st.pages == pf.st.pages && next.st.footnotes
            == pf.st.footnotes);
        assert(next.st.shown() == pf.st.shown());
        assert(next.st.floats_restored(job.checkpoint).page == pf.st.floats_restored(
            job.checkpoint,
        ).page);
    }
}

proof fn lemma_moved_held<'doc>(
    pf: ParaFlow<'doc>,
    job: FlowJob<'_>,
    st: FlowState<'doc>,
    flat: bool,
)
    requires
        is_held(pf, job, st, flat),
        is_of(job.checkpoint, st),
        ready(st, job.ctx, flat),
        can_take_back(pf, job, st),
        flat ==> none_behind(job.para.images, job.para.shapes),
    ensures
        is_held(pf.moved_whole(job), job, st, flat),
{
    reveal(ParaFlow::moved_whole);
    assert(job.ctx.config.columns.len() == job.ctx.config.columns@.len());
    lemma_restored(pf, job, st, flat);
    let back = pf.floats_taken_back(job, true);
    lemma_advanced_ink(back.st, job.ctx, job.block_idx);
    let moved = back.st.advanced(job.ctx, job.block_idx);
    let bare = TextSetting {
        style: ParagraphStyle { space_before: Pt::zero(), ..back.set.style },
        ..back.set
    };
    let at = ParaFlow { st: moved, set: bare, start_y: moved.cursor_y, ..back };
    lemma_floats_here(at, job, st, true, flat);
}

proof fn lemma_cleared_held<'doc>(
    pf: ParaFlow<'doc>,
    job: FlowJob<'_>,
    chunk: Seq<Fragment>,
    st: FlowState<'doc>,
    flat: bool,
)
    requires
        is_held(pf, job, st, flat),
    ensures
        is_held(pf.cleared(job, chunk), job, st, flat),
{
    reveal(ParaFlow::cleared);
    let next = pf.cleared(job, chunk);
    assert(next.st.page == pf.st.page && next.st.pages == pf.st.pages && next.st.footnotes
        == pf.st.footnotes && next.st.current_col == pf.st.current_col);
    assert(next.st.shown() == pf.st.shown());
    assert(next.st.floats_restored(job.checkpoint).page == pf.st.floats_restored(
        job.checkpoint,
    ).page);
}

/// A part without fragments draws nothing that has to be kept.
proof fn lemma_empty_held<'doc>(
    pf: ParaFlow<'doc>,
    job: FlowJob<'_>,
    at: int,
    st: FlowState<'doc>,
    flat: bool,
)
    requires
        is_held(pf, job, st, flat),
        is_of(job.checkpoint, st),
        0 <= at <= job.para.fragments.len() <= usize::MAX,
    ensures
        is_held(pf.drawn_whole(job, job.para.fragments.subrange(at, at)), job, st, flat),
{
    reveal(ParaFlow::drawn_whole);
    let chunk = job.para.fragments.subrange(at, at);
    let place = place_of(pf.st, job.ctx, pf.set);
    let p = placed(chunk, place, pf.set.style);
    let whole = p.full(pf.set.style, place.width, place.max_height);
    let x = job.ctx.config.col_x(pf.st.current_col as int);
    lemma_placed(chunk, place, pf.set.style);
    lemma_segment_ink(
        chunk,
        place,
        pf.set.style,
        pf.set.style,
        place.width,
        p.lines.len() as int,
        true,
        true,
    );
    lemma_chunk_ink(job.para.fragments, at, at, at);
    lemma_whole(pf, job, at, at);
    assert(fragments_ink(job.para.fragments, at, at) =~= Multiset::<Ink>::empty());
    let next = pf.drawn_whole(job, chunk);
    assert(next.st.shown() =~= pf.st.shown());
    let more = shift_all(whole.commands, x, pf.st.cursor_y);
    lemma_ink_shift(whole.commands, x, pf.st.cursor_y);
    assert(ink(more) =~= Multiset::<Ink>::empty());
    let commands = next.st.page.commands;
    assert(commands == pf.st.page.commands + more);
    let c = job.checkpoint;
    if pf.st.pages.len() == st.pages.len() {
        assert(pf.st.floats_restored(c).page.commands == st.page.commands);
        assert(pf.st.page.commands.len() >= c.command_count);
        assert(next.st.floats_restored(c).page.commands =~= pf.st.floats_restored(c).page.commands);
    } else if takes_back_anywhere(job, st) {
        assert(shown_elsewhere(next.st) == shown_elsewhere(pf.st));
        assert forall|i: int| #![trigger commands[i]] 0 <= i < commands.len() implies command_ink(
            commands[i],
        ) == Multiset::<Ink>::empty() by {
            if i < pf.st.page.commands.len() {
                assert(commands[i] == pf.st.page.commands[i]);
            } else {
                lemma_nothing_shown(more, i - pf.st.page.commands.len());
            }
        }
    }
}

/// Whether the fragments of a paragraph before `upto` have been placed after `st`: its text as it
/// should be, or no text yet.
spec fn stands(pf: ParaFlow<'_>, job: FlowJob<'_>, st: FlowState<'_>, upto: int, flat: bool) -> bool {
    if pf.content_placed {
        on_track(pf, job, st.shown().add(bands(job.para)), upto, flat)
    } else {
        is_held(pf, job, st, flat) && fragments_ink(job.para.fragments, 0, upto) == Multiset::<
            Ink,
        >::empty()
    }
}

/// The fragments `from..end` of a paragraph without text yet are placed; or the page is placed anew
/// while no page has been turned.
proof fn lemma_chunk_stands<'doc>(
    pf: ParaFlow<'doc>,
    job: FlowJob<'_>,
    st: FlowState<'doc>,
    from: int,
    end: int,
    index: int,
    flat: bool,
)
    requires
        is_held(pf, job, st, flat),
        is_of(job.checkpoint, st),
        ready(st, job.ctx, flat),
        refers_to_its_notes(job.para),
        0 <= from <= end <= job.para.fragments.len(),
        fragments_ink(job.para.fragments, 0, from) == Multiset::<Ink>::empty(),
        !has_flow_break(job.para.fragments) ==> from == 0 && end == job.para.fragments.len(),
        chunk_in_time(pf, job, st, job.para.fragments.subrange(from, end), index),
        flat ==> none_behind(job.para.images, job.para.shapes),
    ensures
        ({
            let (next, replay) = pf.with_chunk(job, job.para.fragments.subrange(from, end), index);
            &&& replay ==> next.st.pages == st.pages && must_replay(job, false, true)
            &&& !replay ==> stands(next, job, st, end, flat)
        }),
{
    reveal(chunk_in_time);
    let chunk = job.para.fragments.subrange(from, end);
    let columns = job.ctx.config.columns@.len();
    let (next, replay) = pf.with_chunk(job, chunk, index);
    if index > 0 && must_replay(job, false, pf.st.current_col + 1 >= columns) {
    } else {
        let moved = if index > 0 {
            pf.after_column_break(job)
        } else {
            pf
        };
        if index > 0 {
            lemma_column_break_held(pf, job, st, flat);
        }
        let at = moved.cleared(job, chunk);
        lemma_cleared_held(moved, job, chunk, st, flat);
        let base = st.shown().add(bands(job.para));
        lemma_fragments_ink_split(job.para.fragments, 0, from, end);
        if at.may_be_divided(job, chunk) {
            lemma_divided_has_text(at, job, chunk);
            lemma_parts(at, job, from, end);
        } else if !at.must_leave(job, chunk) {
            lemma_whole(at, job, from, end);
            if chunk.len() == 0 {
                lemma_empty_held(at, job, from, st, flat);
            }
        } else if !must_replay(job, at.content_placed, at.st.current_col + 1 >= columns) {
            lemma_moved_held(at, job, st, flat);
            lemma_whole(at.moved_whole(job), job, from, end);
            if chunk.len() == 0 {
                lemma_empty_held(at.moved_whole(job), job, from, st, flat);
            }
        }
        if !replay && chunk.len() > 0 {
            assert(next.st.shown() =~= base.add(fragments_ink(job.para.fragments, 0, end)).add(
                reserved_ink(next, job),
            ));
        }
    }
}

proof fn lemma_divided_has_text(pf: ParaFlow<'_>, job: FlowJob<'_>, chunk: Seq<Fragment>)
    requires
        pf.may_be_divided(job, chunk),
        chunk.len() <= usize::MAX,
    ensures
        chunk.len() > 0,
{
    reveal(ParaFlow::may_be_divided);
    lemma_placed(chunk, place_of(pf.st, job.ctx, pf.set), pf.set.style);
}

/// A break shows nothing, so that a paragraph is as far after it as before it.
proof fn lemma_stands_past_break<'doc>(
    pf: ParaFlow<'doc>,
    job: FlowJob<'_>,
    st: FlowState<'doc>,
    at: int,
    flat: bool,
)
    requires
        stands(pf, job, st, at, flat),
        0 <= at < job.para.fragments.len(),
        job.para.fragments[at].is_flow_break(),
    ensures
        stands(pf, job, st, at + 1, flat),
{
    if pf.content_placed {
        lemma_past_break(pf, job, st.shown().add(bands(job.para)), at, flat);
    } else {
        lemma_fragments_ink_split(job.para.fragments, 0, at, at + 1);
        assert(fragments_ink(job.para.fragments, at + 1, at + 1) =~= Multiset::<Ink>::empty());
        assert(fragments_ink(job.para.fragments, 0, at + 1) =~= Multiset::<Ink>::empty());
    }
}

proof fn lemma_columns_stand<'doc>(
    pf: ParaFlow<'doc>,
    job: FlowJob<'_>,
    st: FlowState<'doc>,
    page_from: int,
    page_end: int,
    from: int,
    index: int,
    flat: bool,
)
    requires
        0 <= page_from <= page_end <= job.para.fragments.len(),
        0 <= from <= page_end - page_from,
        stands(pf, job, st, page_from + from, flat),
        is_of(job.checkpoint, st),
        ready(st, job.ctx, flat),
        refers_to_its_notes(job.para),
        !has_flow_break(job.para.fragments) ==> page_from == 0 && from == 0 && page_end
            == job.para.fragments.len() && !pf.content_placed,
        columns_in_time(
            pf,
            job,
            st,
            job.para.fragments.subrange(page_from, page_end),
            from,
            index,
        ),
        flat ==> none_behind(job.para.images, job.para.shapes),
    ensures
        ({
            let (next, replay) = pf.with_column_chunks(
                job,
                job.para.fragments.subrange(page_from, page_end),
                from,
                index,
            );
            &&& replay ==> next.st.pages == st.pages && must_replay(job, false, true)
            &&& !replay ==> stands(next, job, st, page_end, flat)
        }),
    decreases page_end - page_from - from,
{
    let fragments = job.para.fragments;
    let content = fragments.subrange(page_from, page_end);
    if pf.content_placed {
        lemma_column_chunks(
            pf,
            job,
            st.shown().add(bands(job.para)),
            page_from,
            page_end,
            from,
            index,
            flat,
        );
        lemma_content_stays_placed(pf, job, content, from, index);
    } else {
        let end = next_column_break(content, from);
        lemma_next_column_break(content, from);
        if end < content.len() {
            assert(content[end] == fragments[page_from + end]);
            assert(fragments[page_from + end].is_flow_break());
        }
        assert(content.subrange(from, end) =~= fragments.subrange(
            page_from + from,
            page_from + end,
        ));
        lemma_chunk_stands(pf, job, st, page_from + from, page_from + end, index, flat);
        let (next, replay) = pf.with_chunk(job, content.subrange(from, end), index);
        if !replay && end < content.len() {
            lemma_stands_past_break(next, job, st, page_from + end, flat);
            lemma_columns_stand(next, job, st, page_from, page_end, end + 1, index + 1, flat);
        }
    }
}

/// What has been placed stays placed.
proof fn lemma_content_stays_placed<'doc>(
    pf: ParaFlow<'doc>,
    job: FlowJob<'_>,
    content: Seq<Fragment>,
    from: int,
    index: int,
)
    requires
        pf.content_placed,
    ensures
        pf.with_column_chunks(job, content, from, index).0.content_placed,
    decreases content.len() - from,
{
    reveal(ParaFlow::after_column_break);
    reveal(ParaFlow::cleared);
    reveal(ParaFlow::moved_whole);
    reveal(ParaFlow::drawn_in_parts);
    reveal(ParaFlow::drawn_whole);
    let end = next_column_break(content, from);
    let (next, replay) = pf.with_chunk(job, content.subrange(from, end), index);
    assert(next.content_placed);
    if !(replay || end >= content.len() || end < from) {
        lemma_content_stays_placed(next, job, content, end + 1, index + 1);
    }
}

proof fn lemma_pages_stand<'doc>(
    pf: ParaFlow<'doc>,
    job: FlowJob<'_>,
    st: FlowState<'doc>,
    from: int,
    unresolved: bool,
    flat: bool,
)
    requires
        0 <= from <= job.para.fragments.len(),
        stands(pf, job, st, from, flat),
        is_of(job.checkpoint, st),
        ready(st, job.ctx, flat),
        refers_to_its_notes(job.para),
        !has_flow_break(job.para.fragments) ==> from == 0 && !unresolved && !pf.content_placed,
        pages_in_time(pf, job, st, from, unresolved),
        flat ==> none_behind(job.para.images, job.para.shapes),
    ensures
        ({
            let (next, replay, left) = pf.with_page_chunks(job, from, unresolved);
            &&& replay ==> next.st.pages == st.pages && must_replay(job, false, true)
            &&& !replay ==> is_placed(next, st, job.para) && ready(next.st, job.ctx, flat)
        }),
    decreases job.para.fragments.len() - from,
{
    let fragments = job.para.fragments;
    let n = fragments.len() as int;
    let base = st.shown().add(bands(job.para));
    if pf.content_placed {
        lemma_page_chunks(pf, job, base, from, unresolved, flat);
    } else {
        let end = next_page_break(fragments, from);
        lemma_next_page_break(fragments, from);
        if end < n {
            assert(fragments[end].is_flow_break());
        }
        let content = fragments.subrange(from, end);
        let replays = unresolved && must_replay(job, false, true);
        if content.len() > 0 && replays {
        } else {
            let at = if unresolved {
                pf.after_page_break(job)
            } else {
                pf
            };
            if content.len() > 0 {
                if unresolved {
                    lemma_page_break_held(pf, job, st, flat);
                }
                lemma_columns_stand(at, job, st, from, end, 0, 0, flat);
            }
            let (here, again) = at.with_column_chunks(job, content, 0, 0);
            let next = if content.len() == 0 {
                pf
            } else {
                here
            };
            if content.len() > 0 && again {
            } else if end < n {
                assert(stands(next, job, st, end, flat));
                lemma_stands_past_break(next, job, st, end, flat);
                lemma_pages_stand(next, job, st, end + 1, true, flat);
            } else {
                assert(stands(next, job, st, n, flat));
                if !next.content_placed {
                    assert(next.st.shown() =~= base.add(text(job.para)).add(
                        Multiset::<Ink>::empty(),
                    ));
                }
            }
        }
    }
}

proof fn lemma_begun_held<'doc>(st: FlowState<'doc>, job: FlowJob<'_>, flat: bool)
    requires
        ready(st, job.ctx, flat),
        flat ==> none_behind(job.para.images, job.para.shapes),
        job.checkpoint == begun(st, job.ctx, job.place, job.block_idx, job.para).1,
    ensures
        is_held(begun(st, job.ctx, job.place, job.block_idx, job.para).0, job, st, flat),
        is_of(job.checkpoint, st),
{
    reveal(begun);
    let ctx = job.ctx;
    let para = job.para;
    let style = style_in_place(st, para.style);
    let joined = FlowState { cursor_y: st.cursor_y.minus(st.previous.overlap(&style)), ..st };
    let col = st.current_col as int;
    let x = ctx.config.col_x(col);
    let width = ctx.config.columns@[col].width;
    let top = joined.cursor_y.plus(style.space_before);
    lemma_bands(joined, para.images, para.shapes, top, x, width);
    law_checkpoint_undoes_paragraph_floats(joined, para.images, para.shapes, top, x, width);
    let floated = joined.with_paragraph_floats(para.images, para.shapes, top, x, width);
    let (met, floats) = floated.pruned().with_effective_floats(
        job.place,
        style.space_before,
        x,
        width,
    );
    assert(met.page == floated.page && met.pages == floated.pages && met.footnotes
        == floated.footnotes);
    assert(met.shown() == floated.shown());
    assert(joined.shown() == st.shown());
    let (pf, checkpoint) = begun(st, ctx, job.place, job.block_idx, para);
    assert(ctx.config.columns.len() == ctx.config.columns@.len());
    lemma_new_page_ink(met, job.block_idx, ctx);
    let turned = met.on_new_page(job.block_idx, ctx);
    assert(turned.without_space().shown() == turned.shown());
    assert(met.floats_restored(checkpoint).page =~= floated.floats_restored(
        joined.float_checkpoint(),
    ).page);
    if pf.st.pages.len() != st.pages.len() && takes_back_anywhere(job, st) {
        lemma_no_bands(para.images, para.shapes, 0);
        assert(bands(para) =~= Multiset::<Ink>::empty());
        lemma_shown_elsewhere(pf.st);
        assert(pf.st.shown() =~= st.shown());
    }
}

/// A paragraph that leaves its columns and pages in time is placed; or its page is placed anew
/// while no page has been turned.
pub(crate) proof fn lemma_timely<'doc>(st: FlowState<'doc>, job: FlowJob<'_>, flat: bool)
    requires
        ready(st, job.ctx, flat),
        refers_to_its_notes(job.para),
        flat ==> none_behind(job.para.images, job.para.shapes),
        job.checkpoint == begun(st, job.ctx, job.place, job.block_idx, job.para).1,
        pages_in_time(
            begun(st, job.ctx, job.place, job.block_idx, job.para).0,
            job,
            st,
            0,
            false,
        ),
    ensures
        ({
            let start = begun(st, job.ctx, job.place, job.block_idx, job.para).0;
            let (next, replay, left) = start.with_page_chunks(job, 0, false);
            &&& replay ==> next.st.pages == st.pages && must_replay(job, false, true)
            &&& !replay ==> is_placed(next, st, job.para) && ready(next.st, job.ctx, flat)
        }),
{
    let start = begun(st, job.ctx, job.place, job.block_idx, job.para).0;
    lemma_begun_held(st, job, flat);
    assert(fragments_ink(job.para.fragments, 0, 0) =~= Multiset::<Ink>::empty());
    lemma_pages_stand(start, job, st, 0, false, flat);
}

} // verus!
