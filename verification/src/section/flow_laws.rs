//! Where text goes on after breaks, and what it keeps clear of there.
use crate::block::{FloatingImage, FloatingShape, LayoutBlock, LayoutFootnote, PageParity};
use crate::dimension::Pt;
use crate::float::{ActiveFloat, FloatSource};
use crate::fragment::Fragment;
use crate::line_laws::indent_of;
use crate::note_laws::{holds_moved, is_length};
use crate::page::{PageBodyBounds, PageConfig};
use crate::paragraph::{boxes_height, PlacedView};
use crate::section::floats::{
    absolute_floats, added_floats, counts_at, frame_float, has_float_at, trailing_space_clearance,
    FlowPlace,
};
use crate::section::layout::{ended, paragraph_of, SectionFlow};
use crate::section::paragraph_flow::{FlowJob, ParaFlow, ParagraphInFlow};
use crate::section::place_laws::law_text_moves_below_wide_floats;
use crate::section::split::{continued, further_style, with_split_segment, SplitJob, TextSetting};
use crate::section::state::{same_geometry, Continuation, FlowState, LayoutCtx};
use crate::section::table_places::{lemma_note_reserved, only_notes_differ};
use crate::section::wrap_laws::{has_room, text_runs_beside};
use crate::style::ParagraphStyle;
use vstd::prelude::*;

verus! {

/// After a page break within a paragraph its text goes on in the first column of a new page: at the
/// top of the page's body, or lower where the paragraph's floats come first.
pub proof fn law_text_goes_on_after_a_page_break(pf: ParaFlow<'_>, job: FlowJob<'_>)
    requires
        pf.st.page_index < usize::MAX,
    ensures
        ({
            let after = pf.after_page_break(job);
            let top = job.ctx.page_bounds((pf.st.page_index + 1) as usize).top;
            &&& after.st.pages.len() == pf.st.pages.len() + 1
            &&& after.st.page_index == pf.st.page_index + 1
            &&& after.st.current_col == 0
            &&& after.start_y == top
            &&& after.set.page_x == job.ctx.config.col_x(0)
            &&& after.set.page_y == after.st.cursor_y
            &&& after.set.floats == after.st.page_floats
            &&& after.set.style == pf.set.style
            &&& top.units <= after.st.cursor_y.units
            &&& pf.content_placed ==> after.st.cursor_y == top && after.st.page_floats.len() == 0
                && after.st.page.commands.len() == 0
        }),
{
    reveal(ParaFlow::after_page_break);
    let back = pf.floats_taken_back(job, true);
    let turned = back.st.on_new_page(job.block_idx, job.ctx).without_space();
    if !pf.content_placed {
        lemma_destination(
            turned,
            job.para.images,
            job.para.shapes,
            pf.set.style.space_before,
            job.ctx.config.col_x(0),
            job.ctx.config.columns@[0].width,
        );
    }
}

proof fn lemma_destination(
    st: FlowState<'_>,
    images: Seq<FloatingImage>,
    shapes: Seq<FloatingShape>,
    space_before: Pt,
    column_x: Pt,
    column_width: Pt,
)
    ensures
        ({
            let after = st.with_destination_floats(
                images,
                shapes,
                space_before,
                column_x,
                column_width,
            );
            &&& after.current_col == st.current_col
            &&& after.pages == st.pages
            &&& after.page_index == st.page_index
            &&& st.cursor_y.units <= after.cursor_y.units
        }),
{
    let top = st.cursor_y.plus(space_before);
    crate::section::wrap_laws::lemma_floats_keep_the_place(
        st,
        images,
        shapes,
        top,
        column_x,
        column_width,
    );
    let placed = st.with_paragraph_floats(images, shapes, top, column_x, column_width);
    law_text_moves_below_wide_floats(placed.page_floats, placed.cursor_y, column_width, true);
}

/// After a column break within a paragraph its text goes on at the top of the next column of the page,
/// and after the last column on a new page.
pub proof fn law_text_goes_on_after_a_column_break(pf: ParaFlow<'_>, job: FlowJob<'_>)
    requires
        pf.st.page_index < usize::MAX,
        pf.st.current_col < job.ctx.config.columns@.len() <= usize::MAX,
    ensures
        ({
            let after = pf.after_column_break(job);
            let last = pf.st.current_col + 1 == job.ctx.config.columns@.len();
            &&& after.set.page_x == job.ctx.config.col_x(after.st.current_col as int)
            &&& after.set.page_y == after.st.cursor_y
            &&& after.set.style == pf.set.style
            &&& !last ==> {
                &&& after.st.current_col == pf.st.current_col + 1
                &&& after.st.cursor_y == pf.st.column_top
                &&& after.st.pages == pf.st.pages
                &&& after.st.page == pf.st.page
                &&& after.set.floats == pf.set.floats
            }
            &&& last ==> {
                &&& after.st.current_col == 0
                &&& after.st.pages.len() == pf.st.pages.len() + 1
                &&& job.ctx.page_bounds((pf.st.page_index + 1) as usize).top.units
                    <= after.st.cursor_y.units
                &&& after.set.floats == after.st.page_floats
            }
        }),
{
    reveal(ParaFlow::after_column_break);
    let last = pf.st.current_col + 1 == job.ctx.config.columns@.len();
    let back = pf.floats_taken_back(job, last);
    if last && !pf.content_placed {
        let moved = back.st.on_new_page(job.block_idx, job.ctx);
        lemma_destination(
            FlowState { cursor_y: moved.column_top, ..moved },
            job.para.images,
            job.para.shapes,
            pf.set.style.space_before,
            job.ctx.config.col_x(0),
            job.ctx.config.columns@[0].width,
        );
    }
}

/// A paragraph that does not fit in its column and may not be divided leaves it: it is drawn in the
/// next column of the page, or on a new page. One that fits is drawn in its column.
pub proof fn law_paragraphs_that_do_not_fit_leave(
    pf: ParaFlow<'_>,
    job: FlowJob<'_>,
    chunk: Seq<Fragment>,
)
    requires
        pf.st.current_col < job.ctx.config.columns@.len() <= usize::MAX,
        !pf.cleared(job, chunk).may_be_divided(job, chunk),
        !pf.with_chunk(job, chunk, 0).1,
    ensures
        ({
            let at = pf.cleared(job, chunk);
            let after = pf.with_chunk(job, chunk, 0).0;
            &&& after.content_placed == (pf.content_placed || chunk.len() > 0)
            &&& at.must_leave(job, chunk) && at.st.current_col + 1 < job.ctx.config.columns@.len()
                ==> after.st.current_col == at.st.current_col + 1 && after.st.pages.len()
                == at.st.pages.len()
            &&& at.must_leave(job, chunk) && at.st.current_col + 1
                == job.ctx.config.columns@.len() ==> after.st.current_col == 0
                && after.st.pages.len() == at.st.pages.len() + 1
            &&& !at.must_leave(job, chunk) ==> after.st.current_col == at.st.current_col
                && after.st.pages == at.st.pages
        }),
{
    reveal(ParaFlow::cleared);
    reveal(ParaFlow::drawn_whole);
    reveal(ParaFlow::moved_whole);
    let at = pf.cleared(job, chunk);
    if at.must_leave(job, chunk) {
        let back = at.floats_taken_back(job, true);
        let moved = back.st.advanced(job.ctx, job.block_idx);
        if !at.content_placed {
            let col = moved.current_col as int;
            lemma_destination(
                moved,
                job.para.images,
                job.para.shapes,
                Pt::zero(),
                job.ctx.config.col_x(col),
                job.ctx.config.columns@[col].width,
            );
        }
    }
}

/// A paragraph that asks for a page break before it, and does not stand at the top of a page anyway,
/// has one page turned before it.
pub proof fn law_breaks_before_paragraphs_turn_one_page<'doc>(
    flow: SectionFlow<'doc>,
    ctx: LayoutCtx<'_>,
    blocks: Seq<LayoutBlock>,
    block_idx: usize,
) -> (st: FlowState<'doc>)
    requires
        block_idx < blocks.len(),
        blocks[block_idx as int] is Paragraph,
        flow.st.page_index < usize::MAX,
    ensures
        ({
            let para = paragraph_of(blocks[block_idx as int]);
            let next = flow.before_paragraph(ctx, blocks, block_idx);
            &&& next.st == st.moved_for_chain(
                ctx,
                blocks,
                block_idx,
                para.style,
                flow.admitted,
            ).0
            &&& para.page_break_before && flow.st.cursor_y.units > flow.st.page_top.units ==> {
                &&& st.pages.len() == flow.st.pages.len() + 1
                &&& st.cursor_y == ctx.page_bounds((flow.st.page_index + 1) as usize).top
                &&& st.page.commands.len() == 0
                &&& st.previous.space_after.units == 0
            }
            &&& !para.page_break_before || flow.st.cursor_y.units <= flow.st.page_top.units ==> st
                == flow.st
        }),
{
    let para = paragraph_of(blocks[block_idx as int]);
    if para.page_break_before && flow.st.cursor_y.units > flow.st.page_top.units {
        flow.st.on_new_page(block_idx, ctx).without_space()
    } else {
        flow.st
    }
}

/// A paragraph that moves as a whole goes to the top of the next column or page, and the space before
/// it is dropped; nothing else of its style changes.
pub proof fn law_paragraphs_move_without_their_space(pf: ParaFlow<'_>, job: FlowJob<'_>)
    requires
        pf.content_placed,
    ensures
        ({
            let after = pf.moved_whole(job);
            let moved = pf.st.advanced(job.ctx, job.block_idx);
            &&& after.st == moved
            &&& after.start_y == moved.cursor_y
            &&& after.set.page_y == moved.cursor_y
            &&& after.set.page_x == job.ctx.config.col_x(moved.current_col as int)
            &&& after.set.floats == moved.page_floats
            &&& after.set.style.space_before.units == 0
            &&& after.set.style == (ParagraphStyle {
                space_before: after.set.style.space_before,
                ..pf.set.style
            })
        }),
{
    reveal(ParaFlow::moved_whole);
}

/// A further part of a paragraph has no space before it, and all its lines are indented as those after
/// the first one are, without a drop cap.
pub proof fn law_further_parts_start_like_other_lines(style: ParagraphStyle, k: int)
    requires
        0 <= k,
    ensures
        further_style(style).space_before.units == 0,
        indent_of(further_style(style), k) == style.indent_left.units,
        further_style(style).indent_right == style.indent_right,
        further_style(style).space_after == style.space_after,
        further_style(style).line_spacing == style.line_spacing,
        further_style(style).borders == style.borders,
        further_style(style).shading == style.shading,
{
}

/// A paragraph that goes on in a column is set in the style of its part at the cursor, which has only
/// moved down, past floats that leave no room.
pub proof fn law_parts_go_on_at_the_cursor(st: FlowState<'_>, job: SplitJob<'_>, first: bool)
    ensures
        ({
            let (next, set) = continued(st, job, first);
            &&& set.style == if first {
                job.style
            } else {
                further_style(job.style)
            }
            &&& set.page_x == job.ctx.config.col_x(st.current_col as int)
            &&& set.page_y == next.cursor_y
            &&& next.current_col == st.current_col
            &&& next.page == st.page
            &&& next.pages == st.pages
            &&& st.cursor_y.units <= next.cursor_y.units
        }),
{
    reveal(continued);
    let col = st.current_col as int;
    let style = if first {
        job.style
    } else {
        further_style(job.style)
    };
    let x = job.ctx.config.col_x(col);
    let width = job.ctx.config.columns@[col].width;
    let at = st.scanned(job.place, x, width);
    let floats = at.page_floats + added_floats(
        at.page_floats,
        at.abs_floats + at.exclusions,
        at.cursor_y.plus(style.space_before),
    );
    law_text_moves_below_wide_floats(floats, at.cursor_y, width, false);
}

proof fn lemma_notes_reserved(
    st: FlowState<'_>,
    ctx: LayoutCtx<'_>,
    notes: Seq<LayoutFootnote>,
    n: int,
    end: int,
)
    requires
        0 <= n,
        end <= notes.len(),
    ensures
        only_notes_differ(st, st.with_reserved(ctx, notes, n, end)),
    decreases end - n,
{
    if n < end {
        lemma_note_reserved(st, ctx, notes[n], 0);
        lemma_notes_reserved(st.with_reserved_note(ctx, notes[n], 0), ctx, notes, n + 1, end);
    }
}

/// The lines of a paragraph that stay in a column are drawn at the cursor and at the left edge of the
/// column, and the cursor moves below them. They end the paragraph if they are all of its lines.
pub proof fn law_lines_that_stay_are_drawn_at_the_cursor(
    st: FlowState<'_>,
    job: SplitJob<'_>,
    set: TextSetting,
    p: PlacedView,
    fragments: Seq<Fragment>,
    first: bool,
    head: int,
    noted: int,
)
    requires
        0 < head <= p.lines.len(),
        0 <= noted <= job.footnotes.len(),
        is_length(
            st.cursor_y.units + p.segment(
                set.style,
                job.ctx.config.columns@[st.current_col as int].width,
                head,
                first,
                head == p.lines.len(),
            ).height.units,
        ),
    ensures
        ({
            let col = st.current_col as int;
            let s = p.segment(
                set.style,
                job.ctx.config.columns@[col].width,
                head,
                first,
                head == p.lines.len(),
            );
            let after = with_split_segment(st, job, set, p, fragments, first, head, noted).0;
            let n = st.page.commands.len() as int;
            &&& after.page.commands.len() == n + s.commands.len()
            &&& after.page.commands.take(n) == st.page.commands
            &&& holds_moved(
                after.page.commands,
                n,
                s.commands,
                job.ctx.config.col_x(col).units as int,
                st.cursor_y.units as int,
            )
            &&& after.cursor_y.units == st.cursor_y.units + s.height.units
            &&& after.current_col == st.current_col
            &&& after.pages == st.pages
        }),
{
    reveal(with_split_segment);
    let col = st.current_col as int;
    let s = p.segment(
        set.style,
        job.ctx.config.columns@[col].width,
        head,
        first,
        head == p.lines.len(),
    );
    let drawn = st.with_segment(s, job.ctx.config.col_x(col));
    let (after, end) = with_split_segment(st, job, set, p, fragments, first, head, noted);
    lemma_notes_reserved(drawn, job.ctx, job.footnotes, noted, end);
    let n = st.page.commands.len() as int;
    assert(after.page.commands.take(n) =~= st.page.commands);
}

/// A paragraph of one line with a band of its own at a fixed height moves to the lower edge of the
/// band, where its text alone fits above the band but not its text with the space after it, and where
/// all of it fits between the band and the end of the page. In no other case does it move.
pub proof fn law_space_below_a_line_is_not_cut(
    current_y: Pt,
    body_bottom: Pt,
    style: ParagraphStyle,
    p: PlacedView,
    fragments: Seq<Fragment>,
    shape: FloatingShape,
)
    requires
        p.lines.len() == 1,
        exists|i: int| #![trigger fragments[i]] 0 <= i < fragments.len() && fragments[i].is_visible(),
        shape.frame.wrap_mode is TopAndBottom,
        shape.frame.y is Absolute,
        0 < style.space_after.units,
        ({
            let y = shape.frame.y->Absolute_0.units;
            let h = p.lines[0].height.units;
            &&& has_room(shape.frame, PageParity::Odd, y as int)
            &&& is_length(current_y.units + style.space_before.units)
            &&& is_length(current_y.units + style.space_before.units + h)
            &&& is_length(current_y.units + style.space_before.units + h + style.space_after.units)
            &&& is_length(style.space_before.units + h)
            &&& is_length(style.space_before.units + h + style.space_after.units)
            &&& is_length(
                y + shape.frame.size.height.units + shape.frame.dist_bottom.units
                    + style.space_before.units + h + style.space_after.units,
            )
        }),
    ensures
        ({
            let r = trailing_space_clearance(
                current_y,
                body_bottom,
                style,
                p,
                fragments,
                Seq::empty(),
                seq![shape],
            );
            let top = shape.frame.y->Absolute_0.units - shape.frame.dist_top.units;
            let bottom = shape.frame.y->Absolute_0.units + shape.frame.size.height.units
                + shape.frame.dist_bottom.units;
            let height = style.space_before.units + p.lines[0].height.units;
            let cut = current_y.units + height <= top < current_y.units + height
                + style.space_after.units;
            let moves = cut && current_y.units < bottom && bottom + height
                + style.space_after.units <= body_bottom.units;
            &&& r is Some <==> moves
            &&& r matches Some(y) ==> y.units == bottom
        }),
{
    let none = Pt::zero();
    assert(boxes_height(p.lines, 1, none.plus(p.lines[0].height)) == none.plus(p.lines[0].height));
    assert(boxes_height(p.lines, 0, none) == none.plus(p.lines[0].height));
    assert(seq![shape][0] == shape);
}

proof fn lemma_absolute_floats(
    images: Seq<FloatingImage>,
    i: int,
    parity: PageParity,
    column_x: Pt,
    column_width: Pt,
    acc: Seq<ActiveFloat>,
    n: int,
)
    requires
        0 <= i,
    ensures
        ({
            let r = absolute_floats(images, i, parity, column_x, column_width, acc);
            &&& acc.len() <= r.len()
            &&& forall|k: int| #![trigger r[k]] 0 <= k < acc.len() ==> r[k] == acc[k]
            &&& i <= n < images.len() && images[n].frame.y is Absolute && (text_runs_beside(
                images[n].frame,
            ) || images[n].frame.wrap_mode is TopAndBottom) ==> r.contains(
                frame_float(
                    images[n].frame,
                    images[n].frame.y->Absolute_0,
                    parity,
                    column_x,
                    column_width,
                    FloatSource::Image,
                ),
            )
            &&& forall|k: int| #![trigger r[k]]
                acc.len() <= k < r.len() ==> r[k].source is Image
        }),
    decreases images.len() - i,
{
    if i < images.len() {
        let frame = images[i].frame;
        let absolute = crate::section::floats::is_absolute_wrap(&frame);
        let f = frame_float(
            frame,
            frame.y.resolve(Pt::zero()),
            parity,
            column_x,
            column_width,
            FloatSource::Image,
        );
        let next = if absolute {
            acc.push(f)
        } else {
            acc
        };
        lemma_absolute_floats(images, i + 1, parity, column_x, column_width, next, n);
        let r = absolute_floats(images, i, parity, column_x, column_width, acc);
        assert(r == absolute_floats(images, i + 1, parity, column_x, column_width, next));
        assert forall|k: int| #![trigger r[k]] 0 <= k < acc.len() implies r[k] == acc[k] by {
            assert(next[k] == acc[k]);
        }
        if absolute {
            assert(r[acc.len() as int] == next[acc.len() as int]);
        }
        if i == n && absolute {
            assert(r[acc.len() as int] == f);
        }
    }
}

/// A look ahead finds each image of a paragraph that stands at a fixed height of the page and that
/// text keeps clear of, and nothing but images.
pub proof fn law_images_at_fixed_heights_are_known_ahead(
    images: Seq<FloatingImage>,
    parity: PageParity,
    column_x: Pt,
    column_width: Pt,
    n: int,
)
    requires
        0 <= n < images.len(),
        images[n].frame.y is Absolute,
        text_runs_beside(images[n].frame) || images[n].frame.wrap_mode is TopAndBottom,
    ensures
        absolute_floats(images, 0, parity, column_x, column_width, Seq::empty()).contains(
            frame_float(
                images[n].frame,
                images[n].frame.y->Absolute_0,
                parity,
                column_x,
                column_width,
                FloatSource::Image,
            ),
        ),
        forall|k: int|
            #![trigger absolute_floats(images, 0, parity, column_x, column_width, Seq::empty())[k]]
            0 <= k < absolute_floats(
                images,
                0,
                parity,
                column_x,
                column_width,
                Seq::empty(),
            ).len() ==> absolute_floats(
                images,
                0,
                parity,
                column_x,
                column_width,
                Seq::empty(),
            )[k].source is Image,
{
    lemma_absolute_floats(images, 0, parity, column_x, column_width, Seq::empty(), n);
}

proof fn lemma_filtered<A>(s: Seq<A>, p: spec_fn(A) -> bool, x: A)
    ensures
        s.filter(p).contains(x) <==> s.contains(x) && p(x),
    decreases s.len(),
{
    reveal(Seq::filter);
    if s.len() > 0 {
        let rest = s.drop_last();
        lemma_filtered(rest, p, x);
        assert(s == rest.push(s.last()));
        if s.contains(x) {
            let i = choose|i: int| 0 <= i < s.len() && s[i] == x;
            if i < rest.len() {
                assert(rest[i] == x);
            }
        }
        if rest.contains(x) {
            let i = choose|i: int| 0 <= i < rest.len() && rest[i] == x;
            assert(s[i] == x);
        }
        let all = s.filter(p);
        let some = rest.filter(p);
        if some.contains(x) {
            let i = choose|i: int| 0 <= i < some.len() && some[i] == x;
            assert(all[i] == x);
        }
        if p(s.last()) {
            assert(all == some.push(s.last()));
            assert(all[some.len() as int] == s.last());
            assert(s[s.len() - 1] == s.last());
            if all.contains(x) {
                let i = choose|i: int| 0 <= i < all.len() && all[i] == x;
                if i < some.len() {
                    assert(some[i] == x);
                }
            }
        }
    }
}

/// Text at the cursor meets every float of its page that ends below the cursor, and those found ahead
/// that start no lower than the text or keep all text away, unless a float of the page stands where
/// they do. It meets no other floats.
pub proof fn law_text_meets_the_floats_of_its_page(
    st: FlowState<'_>,
    place: FlowPlace,
    space_before: Pt,
    column_x: Pt,
    column_width: Pt,
    f: ActiveFloat,
)
    requires
        !st.abs_floats_dirty,
        is_length(st.cursor_y.units + space_before.units),
    ensures
        ({
            let (next, floats) = st.with_effective_floats(
                place,
                space_before,
                column_x,
                column_width,
            );
            let on_page = st.page_floats.contains(f);
            let ahead = (st.abs_floats.contains(f) || st.exclusions.contains(f)) && (
            f.vertical_exclusion || f.page_y_start.units <= st.cursor_y.units + space_before.units)
                && !has_float_at(st.page_floats, f);
            &&& next.page_floats == st.page_floats
            &&& st.cursor_y.units <= next.cursor_y.units
            &&& floats.contains(f) <==> (on_page || ahead) && f.page_y_end.units
                > next.cursor_y.units
        }),
{
    let y = st.cursor_y.plus(space_before);
    let more = st.abs_floats + st.exclusions;
    let p = |g: ActiveFloat| counts_at(g, y) && !has_float_at(st.page_floats, g);
    lemma_filtered(more, p, f);
    let added = added_floats(st.page_floats, more, y);
    assert(added == more.filter(p));
    let all = st.page_floats + added;
    let (next, floats) = st.with_effective_floats(place, space_before, column_x, column_width);
    law_text_moves_below_wide_floats(all, st.cursor_y, column_width, false);
    let q = |g: ActiveFloat| g.page_y_end.units > next.cursor_y.units;
    lemma_filtered(all, q, f);
    assert(floats == all.filter(q));
    if st.page_floats.contains(f) {
        let i = choose|i: int| 0 <= i < st.page_floats.len() && st.page_floats[i] == f;
        assert(all[i] == f);
    }
    if added.contains(f) {
        let i = choose|i: int| 0 <= i < added.len() && added[i] == f;
        assert(all[st.page_floats.len() + i] == f);
    }
    if all.contains(f) {
        let i = choose|i: int| 0 <= i < all.len() && all[i] == f;
        if i < st.page_floats.len() {
            assert(st.page_floats[i] == f);
        } else {
            assert(added[i - st.page_floats.len()] == f);
        }
    }
    if st.abs_floats.contains(f) {
        let i = choose|i: int| 0 <= i < st.abs_floats.len() && st.abs_floats[i] == f;
        assert(more[i] == f);
    }
    if st.exclusions.contains(f) {
        let i = choose|i: int| 0 <= i < st.exclusions.len() && st.exclusions[i] == f;
        assert(more[st.abs_floats.len() + i] == f);
    }
    if more.contains(f) {
        let i = choose|i: int| 0 <= i < more.len() && more[i] == f;
        if i < st.abs_floats.len() {
            assert(st.abs_floats[i] == f);
        } else {
            assert(st.exclusions[i - st.abs_floats.len()] == f);
        }
    }
}

/// The pages of a section are odd and even as their numbers are, from that of its first page on.
pub proof fn law_pages_are_odd_and_even_in_turn(st: FlowState<'_>)
    requires
        st.logical_page_base + st.page_index <= usize::MAX,
    ensures
        st.parity() is Odd <==> (st.logical_page_base + st.page_index) % 2 == 1,
{
}

/// When a paragraph has been placed, its floating objects that stand beside, over or under text are
/// drawn where the paragraph's text starts to count from: below the space before the paragraph.
pub proof fn law_free_objects_count_from_the_text<'doc>(
    pf: ParaFlow<'doc>,
    ctx: LayoutCtx<'_>,
    para: ParagraphInFlow,
    break_left: bool,
) -> (st: FlowState<'doc>)
    requires
        is_length(pf.start_y.units + pf.set.style.space_before.units),
        pf.notes_reserved || para.footnotes.len() == 0,
    ensures
        ({
            let top = Pt { units: (pf.start_y.units + pf.set.style.space_before.units) as i64 };
            &&& st.page == pf.st.page
            &&& st.pages == pf.st.pages
            &&& st.cursor_y == pf.st.cursor_y
            &&& st.parity() == pf.st.parity()
            &&& ended(pf, ctx, para, break_left) == st.with_free_images(
                para.images,
                0,
                top,
            ).with_free_shapes(para.shapes, 0, top)
            &&& st.previous.space_after == pf.set.style.space_after
            &&& !st.first_on_section_page
        }),
{
    reveal(ended);
    let style = pf.set.style;
    let st = FlowState {
        pending_page_break: pf.st.pending_page_break || break_left,
        first_on_section_page: false,
        prev_borders: para.style.borders,
        previous: crate::style::PreviousParagraph::of(&style),
        prev_table_style_id: None,
        ..pf.st
    };
    st
}

/// A section starts at the top of the body of a blank page of its own size, in the first column. One
/// that goes on with a page of another geometry starts its columns below what is on that page, and
/// keeps what is drawn there.
pub proof fn law_sections_start_below_what_is_there(
    config: PageConfig,
    c: Continuation,
    body: PageBodyBounds,
    base: usize,
)
    ensures
        ({
            let fresh = FlowState::started(config, None, body, base);
            &&& fresh.pages.len() == 0
            &&& fresh.page.commands.len() == 0
            &&& fresh.page.behind.len() == 0
            &&& fresh.page.page_size == config.page_size
            &&& fresh.cursor_y == body.top
            &&& fresh.column_top == body.top
            &&& fresh.page_top == body.top
            &&& fresh.bottom == body.bottom
            &&& fresh.current_col == 0
            &&& fresh.page_floats.len() == 0
            &&& fresh.footnotes.len() == 0
            &&& fresh.first_on_section_page
            &&& fresh.logical_page_base == base
        }),
        !same_geometry(c, config, body) ==> {
            let st = FlowState::started(config, Some(c), body, base);
            &&& st.page == c.page
            &&& st.cursor_y.units >= c.cursor_y.units && st.cursor_y.units >= body.top.units
            &&& st.cursor_y == c.cursor_y || st.cursor_y == body.top
            &&& st.column_top == st.cursor_y
            &&& st.current_col == 0
            &&& st.bottom.units <= c.bottom.units && st.bottom.units <= body.bottom.units
            &&& st.bottom == c.bottom || st.bottom == body.bottom
            &&& st.page_floats == c.page_floats
        },
{
}

/// A section hands its last page on where the next one goes on with it, and else ends it. No page is
/// lost.
pub proof fn law_the_last_page_is_kept(st: FlowState<'_>, ctx: LayoutCtx<'_>, preserve: bool)
    requires
        st.footnotes.len() == 0,
    ensures
        ({
            let r = st.finished(ctx, preserve);
            &&& preserve ==> {
                &&& r.pages == st.pages
                &&& r.continuation matches Some(c)
                &&& c.page == st.page
                &&& c.cursor_y == st.cursor_y
                &&& c.current_col == st.current_col
                &&& c.column_top == st.column_top
                &&& c.page_top == st.page_top
                &&& c.bottom == st.bottom
                &&& c.page_floats == st.page_floats
                &&& c.exclusions == st.exclusions
            }
            &&& !preserve ==> {
                &&& r.pages.len() == st.pages.len() + 1
                &&& r.pages.take(st.pages.len() as int) == st.pages
                &&& r.pages.last() == st.page
                &&& r.continuation is None
            }
        }),
{
    let r = st.finished(ctx, preserve);
    if !preserve {
        assert(r.pages.take(st.pages.len() as int) =~= st.pages);
    }
}

} // verus!
