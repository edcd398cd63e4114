//! The room that text leaves to the footnotes of a page.
use crate::block::{FootnoteParagraph, LayoutFootnote};
use crate::dimension::Pt;
use crate::draw_command::{shift_all, DrawCommand};
use crate::paragraph::laid_out;
use crate::section::state::{
    footnote_commands, footnote_separator_gap, footnotes_height, separator_line, with_footnotes,
    FlowState, LayoutCtx,
};
use vstd::prelude::*;

verus! {

/// The height of a paragraph of a footnote.
pub open spec fn note_height(note: FootnoteParagraph, ctx: LayoutCtx<'_>) -> Pt {
    laid_out(
        note.fragments@,
        note.style,
        ctx.config.content_width(),
        Pt::infinity(),
        ctx.default_line_height,
    ).height
}

/// The exact height of the footnotes from `i` on.
pub open spec fn exact_height(notes: Seq<&FootnoteParagraph>, i: int, ctx: LayoutCtx<'_>) -> int
    decreases notes.len() - i,
{
    if i < 0 || i >= notes.len() {
        0
    } else {
        note_height(*notes[i], ctx).units + exact_height(notes, i + 1, ctx)
    }
}

/// The heights of the footnotes from `i` on, each counted as if it was positive.
pub open spec fn absolute_height(notes: Seq<&FootnoteParagraph>, i: int, ctx: LayoutCtx<'_>) -> int
    decreases notes.len() - i,
{
    if i < 0 || i >= notes.len() {
        0
    } else {
        let h = note_height(*notes[i], ctx).units as int;
        (if h < 0 {
            -h
        } else {
            h
        }) + absolute_height(notes, i + 1, ctx)
    }
}

/// Whether the footnotes can be measured from the foot of the page up.
pub open spec fn notes_are_measurable(st: FlowState<'_>, ctx: LayoutCtx<'_>) -> bool {
    let bottom = ctx.page_bounds(st.page_index).bottom.units as int;
    absolute_height(st.footnotes, 0, ctx) + footnote_separator_gap().units + (if bottom < 0 {
        -bottom
    } else {
        bottom
    }) <= i64::MAX
}

/// Whether the text of the page ends where its footnotes begin.
pub open spec fn room_is_kept(st: FlowState<'_>, ctx: LayoutCtx<'_>) -> bool {
    st.bottom.units == ctx.page_bounds(st.page_index).bottom.units - if st.footnotes.len() == 0 {
        0
    } else {
        footnote_separator_gap().units + exact_height(st.footnotes, 0, ctx)
    }
}

proof fn lemma_heights_push(
    notes: Seq<&FootnoteParagraph>,
    note: &FootnoteParagraph,
    i: int,
    ctx: LayoutCtx<'_>,
)
    requires
        0 <= i <= notes.len(),
    ensures
        exact_height(notes.push(note), i, ctx) == exact_height(notes, i, ctx) + note_height(
            *note,
            ctx,
        ).units,
        ({
            let h = note_height(*note, ctx).units as int;
            absolute_height(notes.push(note), i, ctx) == absolute_height(notes, i, ctx) + (if h
                < 0 {
                -h
            } else {
                h
            })
        }),
    decreases notes.len() - i,
{
    if i < notes.len() {
        lemma_heights_push(notes, note, i + 1, ctx);
        assert(notes.push(note)[i] == notes[i]);
    } else {
        assert(exact_height(notes.push(note), i + 1, ctx) == 0);
        assert(absolute_height(notes.push(note), i + 1, ctx) == 0);
    }
}

proof fn lemma_heights_bound(notes: Seq<&FootnoteParagraph>, i: int, ctx: LayoutCtx<'_>)
    ensures
        -absolute_height(notes, i, ctx) <= exact_height(notes, i, ctx) <= absolute_height(
            notes,
            i,
            ctx,
        ),
    decreases notes.len() - i,
{
    if 0 <= i < notes.len() {
        lemma_heights_bound(notes, i + 1, ctx);
    }
}

proof fn lemma_note_only_adds<'doc>(
    st: FlowState<'doc>,
    ctx: LayoutCtx<'_>,
    note: LayoutFootnote,
    i: int,
)
    requires
        0 <= i <= note.paragraphs@.len(),
    ensures
        ({
            let next = st.with_reserved_note(ctx, note, i);
            &&& next.page_index == st.page_index
            &&& absolute_height(st.footnotes, 0, ctx) <= absolute_height(next.footnotes, 0, ctx)
        }),
    decreases note.paragraphs@.len() - i,
{
    if i < note.paragraphs@.len() {
        let next = after_paragraph(st, ctx, note, i);
        lemma_heights_push(st.footnotes, &note.paragraphs@[i], 0, ctx);
        lemma_note_only_adds(next, ctx, note, i + 1);
    }
}

proof fn lemma_notes_only_add<'doc>(
    st: FlowState<'doc>,
    ctx: LayoutCtx<'_>,
    footnotes: Seq<LayoutFootnote>,
    n: int,
    end: int,
)
    requires
        0 <= n <= end <= footnotes.len(),
    ensures
        ({
            let next = st.with_reserved(ctx, footnotes, n, end);
            &&& next.page_index == st.page_index
            &&& absolute_height(st.footnotes, 0, ctx) <= absolute_height(next.footnotes, 0, ctx)
        }),
    decreases end - n,
{
    if n < end {
        lemma_note_only_adds(st, ctx, footnotes[n], 0);
        lemma_notes_only_add(
            st.with_reserved_note(ctx, footnotes[n], 0),
            ctx,
            footnotes,
            n + 1,
            end,
        );
    }
}

/// The state with room reserved for one paragraph of a footnote.
pub open spec fn after_paragraph<'doc>(
    st: FlowState<'doc>,
    ctx: LayoutCtx<'_>,
    note: LayoutFootnote,
    i: int,
) -> FlowState<'doc> {
    let bottom = if st.footnotes.len() == 0 {
        st.bottom.minus(footnote_separator_gap())
    } else {
        st.bottom
    };
    FlowState {
        bottom: bottom.minus(note_height(note.paragraphs@[i], ctx)),
        footnotes: st.footnotes.push(&note.paragraphs@[i]),
        ..st
    }
}

proof fn lemma_room_for_note<'doc>(
    st: FlowState<'doc>,
    ctx: LayoutCtx<'_>,
    note: LayoutFootnote,
    i: int,
)
    requires
        0 <= i <= note.paragraphs@.len(),
        room_is_kept(st, ctx),
        notes_are_measurable(st.with_reserved_note(ctx, note, i), ctx),
    ensures
        room_is_kept(st.with_reserved_note(ctx, note, i), ctx),
    decreases note.paragraphs@.len() - i,
{
    if i < note.paragraphs@.len() {
        let next = after_paragraph(st, ctx, note, i);
        lemma_note_only_adds(next, ctx, note, i + 1);
        lemma_heights_push(st.footnotes, &note.paragraphs@[i], 0, ctx);
        lemma_heights_bound(st.footnotes, 0, ctx);
        lemma_heights_bound(next.footnotes, 0, ctx);
        assert(st.with_reserved_note(ctx, note, i) == next.with_reserved_note(ctx, note, i + 1));
        assert(notes_are_measurable(next, ctx));
        if st.footnotes.len() == 0 {
            assert(exact_height(st.footnotes, 0, ctx) == 0);
        }
        assert(room_is_kept(next, ctx));
        lemma_room_for_note(next, ctx, note, i + 1);
    }
}

/// Reserving room for footnotes takes from the text just what the footnotes and the separator above
/// them need.
pub proof fn law_reserved_room_is_kept<'doc>(
    st: FlowState<'doc>,
    ctx: LayoutCtx<'_>,
    footnotes: Seq<LayoutFootnote>,
    n: int,
    end: int,
)
    requires
        0 <= n <= end <= footnotes.len(),
        room_is_kept(st, ctx),
        notes_are_measurable(st.with_reserved(ctx, footnotes, n, end), ctx),
    ensures
        room_is_kept(st.with_reserved(ctx, footnotes, n, end), ctx),
    decreases end - n,
{
    if n < end {
        let next = st.with_reserved_note(ctx, footnotes[n], 0);
        lemma_note_only_adds(st, ctx, footnotes[n], 0);
        lemma_notes_only_add(next, ctx, footnotes, n + 1, end);
        assert(notes_are_measurable(next, ctx));
        lemma_room_for_note(st, ctx, footnotes[n], 0);
        law_reserved_room_is_kept(next, ctx, footnotes, n + 1, end);
    }
}

proof fn lemma_height_is_exact(
    notes: Seq<&FootnoteParagraph>,
    i: int,
    ctx: LayoutCtx<'_>,
    acc: Pt,
)
    requires
        0 <= i <= notes.len(),
        -(i64::MAX - absolute_height(notes, i, ctx)) <= acc.units <= i64::MAX - absolute_height(
            notes,
            i,
            ctx,
        ),
    ensures
        footnotes_height(
            notes,
            i,
            ctx.config.content_width(),
            ctx.default_line_height,
            acc,
        ).units == acc.units + exact_height(notes, i, ctx),
    decreases notes.len() - i,
{
    if i < notes.len() {
        lemma_heights_bound(notes, i + 1, ctx);
        lemma_height_is_exact(notes, i + 1, ctx, acc.plus(note_height(*notes[i], ctx)));
    }
}

proof fn lemma_footnote_commands_follow(
    notes: Seq<&FootnoteParagraph>,
    i: int,
    x: Pt,
    y: Pt,
    width: Pt,
    default_line_height: Pt,
    acc: Seq<DrawCommand>,
)
    ensures
        ({
            let r = footnote_commands(notes, i, x, y, width, default_line_height, acc);
            acc.len() <= r.len() && forall|k: int| #![trigger r[k]]
                0 <= k < acc.len() ==> r[k] == acc[k]
        }),
    decreases notes.len() - i,
{
    if 0 <= i < notes.len() {
        let note = laid_out(
            notes[i].fragments@,
            notes[i].style,
            width,
            Pt::infinity(),
            default_line_height,
        );
        let next = acc + shift_all(note.commands, x, y);
        lemma_footnote_commands_follow(
            notes,
            i + 1,
            x,
            y.plus(note.height),
            width,
            default_line_height,
            next,
        );
        let r = footnote_commands(notes, i, x, y, width, default_line_height, acc);
        assert forall|k: int| #![trigger r[k]] 0 <= k < acc.len() implies r[k] == acc[k] by {
            assert(next[k] == acc[k]);
        }
    }
}

/// The footnotes of a page stand where its text ends: the separator above them is drawn at the lower
/// edge of the room that is left to the text.
pub proof fn law_notes_begin_where_text_ends(st: FlowState<'_>, ctx: LayoutCtx<'_>)
    requires
        st.footnotes.len() > 0,
        room_is_kept(st, ctx),
        notes_are_measurable(st, ctx),
    ensures
        ({
            let drawn = with_footnotes(
                st.page,
                ctx,
                st.footnotes,
                ctx.page_bounds(st.page_index).bottom,
            );
            &&& st.page.commands.len() < drawn.commands.len()
            &&& drawn.commands[st.page.commands.len() as int] == separator_line(
                ctx.config.margins.left.plus(ctx.separator_indent),
                st.bottom,
                ctx.config.content_width(),
            )
        }),
{
    let width = ctx.config.content_width();
    let bottom = ctx.page_bounds(st.page_index).bottom;
    lemma_heights_bound(st.footnotes, 0, ctx);
    lemma_height_is_exact(st.footnotes, 0, ctx, Pt::zero());
    let height = footnotes_height(st.footnotes, 0, width, ctx.default_line_height, Pt::zero());
    let top = bottom.minus(height).minus(footnote_separator_gap());
    assert(top == st.bottom);
    lemma_footnote_commands_follow(
        st.footnotes,
        0,
        ctx.config.margins.left,
        top.plus(footnote_separator_gap()),
        width,
        ctx.default_line_height,
        st.page.commands.push(
            separator_line(ctx.config.margins.left.plus(ctx.separator_indent), top, width),
        ),
    );
}

/// A new page leaves all of its body to the text.
pub proof fn law_new_page_keeps_its_room<'doc>(
    st: FlowState<'doc>,
    ctx: LayoutCtx<'_>,
    block_idx: usize,
)
    ensures
        room_is_kept(st.on_new_page(block_idx, ctx), ctx),
        st.on_new_page(block_idx, ctx).footnotes.len() == 0,
{
}

} // verus!
