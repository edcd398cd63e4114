//! Where paragraphs and floating objects stand on the pages of a section.
use crate::block::{FloatingImage, FloatingShape};
use crate::dimension::Pt;
use crate::draw_command::DrawCommand;
use crate::float::ActiveFloat;
use crate::fragment::Fragment;
use crate::line_laws::{bottom_of_lines, room_at_bottom};
use crate::note_laws::{holds_moved, is_length};
use crate::page::{behind_index, LayeredDrawCommand, PageView};
use crate::paragraph::{baseline_fit_height, placed, PlacedView};
use crate::section::floats::{below_blockers, FlowPlace};
use crate::section::layout::{begun, style_in_place};
use crate::section::paragraph_flow::{FlowJob, ParaFlow, ParagraphInFlow};
use crate::section::split::{fitting_lines, place_of};
use crate::section::state::{FlowState, LayoutCtx};
use crate::section::wrap_laws::{left_edge, top_edge};
use crate::style::{ParagraphStyle, PreviousParagraph};
use vstd::prelude::*;

verus! {

/// Whether the space between two paragraphs is left out: they are of one style and ask for this, or
/// they are items of one list with automatic spacing.
pub open spec fn joins(previous: PreviousParagraph, style: ParagraphStyle) -> bool {
    ||| style.contextual_spacing && style.style_id is Some && style.style_id == previous.style_id
    ||| style.before_auto_spacing && previous.after_auto_spacing
        && style.list_spacing_context is Some && style.list_spacing_context
        == previous.list_spacing_context
}

/// Between two paragraphs stands the greater of the space after the first and the space before the
/// second, and none where the two join.
pub proof fn law_the_greater_space_counts(previous: PreviousParagraph, style: ParagraphStyle)
    requires
        is_length(previous.space_after.units + style.space_before.units),
    ensures
        ({
            let after = previous.space_after.units as int;
            let before = style.space_before.units as int;
            let gap = after + before - previous.overlap(&style).units;
            if joins(previous, style) {
                gap == 0
            } else {
                gap >= after && gap >= before && (gap == after || gap == before)
            }
        }),
{
}

/// A paragraph keeps its style where it stands, but for two things: at the top of a section's first
/// page there is no space before it, and below a paragraph with the same borders it has no top
/// border.
pub proof fn law_styles_give_way_at_the_top(st: FlowState<'_>, style: ParagraphStyle)
    ensures
        ({
            let r = style_in_place(st, style);
            let at_start = st.cursor_y.units <= st.column_top.units && st.first_on_section_page;
            let goes_on = style.borders is Some && style.borders == st.prev_borders;
            &&& at_start ==> r.space_before.units == 0
            &&& !at_start ==> r.space_before == style.space_before
            &&& !goes_on ==> r.borders == style.borders
            &&& goes_on ==> r.borders is Some && r.borders->0.top is None && r.borders->0.bottom
                == style.borders->0.bottom && r.borders->0.left == style.borders->0.left
                && r.borders->0.right == style.borders->0.right
            &&& r == (ParagraphStyle {
                space_before: r.space_before,
                borders: r.borders,
                ..style
            })
        }),
{
}

proof fn lemma_below_a_float(
    floats: Seq<ActiveFloat>,
    k: int,
    y: Pt,
    column_width: Pt,
    count_bands: bool,
)
    requires
        0 <= k,
    ensures
        ({
            let r = below_blockers(floats, k, y, column_width, count_bands);
            &&& y.units <= r.units
            &&& r == y || exists|i: int| #![trigger floats[i]]
                k <= i < floats.len() && floats[i].page_y_end == r && floats[i].width.units
                    >= column_width.units && (count_bands || !floats[i].vertical_exclusion)
        }),
    decreases floats.len() - k,
{
    if k < floats.len() {
        let f = floats[k];
        let next = if (count_bands || !f.vertical_exclusion) && f.overlaps_y(y) && f.width.units
            >= column_width.units {
            y.max(f.page_y_end)
        } else {
            y
        };
        lemma_below_a_float(floats, k + 1, next, column_width, count_bands);
        let r = below_blockers(floats, k, y, column_width, count_bands);
        if r != y && r == next {
            assert(floats[k].page_y_end == r);
        }
    }
}

/// Text moves down past floats that leave no room in its column: it stays where it is, or it goes to
/// the lower edge of a float that is as wide as the column.
pub proof fn law_text_moves_below_wide_floats(
    floats: Seq<ActiveFloat>,
    y: Pt,
    column_width: Pt,
    count_bands: bool,
)
    ensures
        ({
            let r = below_blockers(floats, 0, y, column_width, count_bands);
            &&& y.units <= r.units
            &&& r == y || exists|i: int| #![trigger floats[i]]
                0 <= i < floats.len() && floats[i].page_y_end == r && floats[i].width.units
                    >= column_width.units && (count_bands || !floats[i].vertical_exclusion)
        }),
{
    lemma_below_a_float(floats, 0, y, column_width, count_bands);
}

proof fn lemma_fitting(
    p: PlacedView,
    fragments: Seq<Fragment>,
    style: ParagraphStyle,
    no_footnotes: bool,
    available: Pt,
    i: int,
    used: Pt,
    above: int,
)
    requires
        0 <= i <= p.lines.len(),
        used.units == above + bottom_of_lines(p, i),
        is_length(room_at_bottom(style)),
        forall|m: int| #![trigger bottom_of_lines(p, m)]
            0 <= m <= p.lines.len() ==> is_length(bottom_of_lines(p, m)) && is_length(
                above + bottom_of_lines(p, m),
            ) && is_length(above + bottom_of_lines(p, m) + room_at_bottom(style)) && (m > 0
                ==> is_length(bottom_of_lines(p, m) - bottom_of_lines(p, m - 1))),
    ensures
        ({
            let n = fitting_lines(p, fragments, style, no_footnotes, available, i, used);
            let total = p.lines.len() as int;
            let plain = !no_footnotes || total == 0 || baseline_fit_height(
                p,
                fragments,
                style,
                total - 1,
            ) is None;
            &&& i <= n <= total
            &&& i < n < total ==> above + bottom_of_lines(p, n) <= available.units
            &&& n + 1 < total ==> above + bottom_of_lines(p, n + 1) > available.units
            &&& i < n && n == total && plain ==> above + bottom_of_lines(p, n) + room_at_bottom(
                style,
            ) <= available.units
            &&& n + 1 == total && plain ==> above + bottom_of_lines(p, total) + room_at_bottom(
                style,
            ) > available.units
        }),
    decreases p.lines.len() - i,
{
    let total = p.lines.len() as int;
    if i < total {
        assert(is_length(bottom_of_lines(p, i + 1)));
        assert(is_length(bottom_of_lines(p, i)));
        assert(p.lines[i].bottom().units == bottom_of_lines(p, i + 1));
        assert(p.bottom(i).units == bottom_of_lines(p, i));
        assert(p.line_height(i).units == bottom_of_lines(p, i + 1) - bottom_of_lines(p, i));
        assert(style.bottom_border_space().units == room_at_bottom(style));
        let next = used.plus(p.line_height(i));
        assert(next.units == above + bottom_of_lines(p, i + 1));
        lemma_fitting(p, fragments, style, no_footnotes, available, i + 1, next, above);
    }
}

/// As many lines stay on a page as fit one below another below what is used above them: all of them
/// end within the available height, the last line of a paragraph with the paragraph's bottom border,
/// and one line more would not. (Plain text with room below it may stay as the last line though its
/// room does not fit, where the paragraph has no footnotes.)
pub proof fn law_lines_stay_as_they_fit(
    p: PlacedView,
    fragments: Seq<Fragment>,
    style: ParagraphStyle,
    no_footnotes: bool,
    available: Pt,
    used: Pt,
)
    requires
        is_length(room_at_bottom(style)),
        forall|m: int| #![trigger bottom_of_lines(p, m)]
            0 <= m <= p.lines.len() ==> is_length(bottom_of_lines(p, m)) && is_length(
                used.units + bottom_of_lines(p, m),
            ) && is_length(used.units + bottom_of_lines(p, m) + room_at_bottom(style)) && (m > 0
                ==> is_length(bottom_of_lines(p, m) - bottom_of_lines(p, m - 1))),
    ensures
        ({
            let n = fitting_lines(p, fragments, style, no_footnotes, available, 0, used);
            let total = p.lines.len() as int;
            let plain = !no_footnotes || total == 0 || baseline_fit_height(
                p,
                fragments,
                style,
                total - 1,
            ) is None;
            &&& 0 <= n <= total
            &&& 0 < n < total ==> used.units + bottom_of_lines(p, n) <= available.units
            &&& n + 1 < total ==> used.units + bottom_of_lines(p, n + 1) > available.units
            &&& 0 < n && n == total && plain ==> used.units + bottom_of_lines(p, n)
                + room_at_bottom(style) <= available.units
            &&& n + 1 == total && plain ==> used.units + bottom_of_lines(p, total)
                + room_at_bottom(style) > available.units
        }),
{
    lemma_fitting(p, fragments, style, no_footnotes, available, 0, used, used.units as int);
}

/// Whether commands behind the text lie in the order of their heights.
pub open spec fn lie_in_order(behind: Seq<LayeredDrawCommand>) -> bool {
    forall|a: int, b: int| #![trigger behind[a], behind[b]]
        0 <= a <= b < behind.len() ==> behind[a].relative_height <= behind[b].relative_height
}

proof fn lemma_behind_index(behind: Seq<LayeredDrawCommand>, height: u32, i: int)
    requires
        0 <= i <= behind.len(),
    ensures
        ({
            let at = behind_index(behind, height, i);
            &&& 0 <= at <= i
            &&& at > 0 ==> behind[at - 1].relative_height <= height
            &&& forall|k: int| #![trigger behind[k]]
                at <= k < i ==> behind[k].relative_height > height
        }),
    decreases i,
{
    if i > 0 && behind[i - 1].relative_height > height {
        lemma_behind_index(behind, height, i - 1);
    }
}

/// Commands behind the text stay in the order of their heights: a further one lies above all that are
/// not higher and below all that are, and the others stay as they are.
pub proof fn law_layers_lie_in_order(page: PageView, height: u32, command: DrawCommand) -> (at: int)
    requires
        lie_in_order(page.behind),
    ensures
        ({
            let after = page.with_behind(height, command);
            &&& lie_in_order(after.behind)
            &&& after.commands == page.commands
            &&& after.page_size == page.page_size
            &&& 0 <= at <= page.behind.len()
            &&& after.behind.len() == page.behind.len() + 1
            &&& after.behind[at] == (LayeredDrawCommand { relative_height: height, command })
            &&& forall|k: int| #![trigger page.behind[k]]
                0 <= k < at ==> after.behind[k] == page.behind[k]
                    && page.behind[k].relative_height <= height
            &&& forall|k: int| #![trigger page.behind[k]]
                at <= k < page.behind.len() ==> after.behind[k + 1] == page.behind[k]
                    && page.behind[k].relative_height > height
        }),
{
    let n = page.behind.len() as int;
    let at = behind_index(page.behind, height, n);
    lemma_behind_index(page.behind, height, n);
    let after = page.with_behind(height, command);
    assert forall|k: int| #![trigger page.behind[k]] 0 <= k < at implies after.behind[k]
        == page.behind[k] && page.behind[k].relative_height <= height by {
        let last = page.behind[at - 1];
    }
    assert forall|a: int, b: int|
        #![trigger after.behind[a], after.behind[b]]
        0 <= a <= b < after.behind.len() implies after.behind[a].relative_height
        <= after.behind[b].relative_height by {
        if a < at {
            let x = page.behind[a];
        } else if a > at {
            let x = page.behind[a - 1];
        }
        if b < at {
            let x = page.behind[b];
        } else if b > at {
            let x = page.behind[b - 1];
        }
    }
    at
}

/// Whether a command shows something in the box of a floating object at the height `y`.
pub open spec fn stands_in_frame(
    rect: crate::geometry::PtRect,
    frame: crate::block::FloatingFrame,
    parity: crate::block::PageParity,
    y: int,
) -> bool {
    &&& rect.origin.x.units == left_edge(frame, parity)
    &&& rect.origin.y.units == y
    &&& rect.size == frame.size
}

/// Image number `i` of those that stand beside, over or under text is drawn in its own box, behind
/// the text or after the commands of the page as it asks for. An image with text above and below it
/// only has been drawn before.
pub proof fn law_free_images_stand_in_their_boxes<'doc>(
    st: FlowState<'doc>,
    images: Seq<FloatingImage>,
    i: int,
    content_top: Pt,
) -> (next: FlowState<'doc>)
    requires
        0 <= i < images.len(),
        is_length(top_edge(images[i].frame, content_top.units as int)),
        lie_in_order(st.page.behind),
    ensures
        st.with_free_images(images, i, content_top) == next.with_free_images(
            images,
            i + 1,
            content_top,
        ),
        ({
            let frame = images[i].frame;
            let n = st.page.commands.len() as int;
            let y = top_edge(frame, content_top.units as int);
            let shows = |c: DrawCommand| c matches DrawCommand::Image { rect, image } && image
                == images[i].image && stands_in_frame(rect, frame, st.parity(), y);
            &&& frame.wrap_mode is TopAndBottom ==> next == st
            &&& !(frame.wrap_mode is TopAndBottom) && !frame.behind_doc ==> {
                &&& next.page.commands.len() == n + 1
                &&& next.page.commands.take(n) == st.page.commands
                &&& shows(next.page.commands[n])
                &&& next.page.behind == st.page.behind
            }
            &&& !(frame.wrap_mode is TopAndBottom) && frame.behind_doc ==> {
                &&& next.page.commands == st.page.commands
                &&& next.page.behind.len() == st.page.behind.len() + 1
                &&& exists|at: int| #![trigger next.page.behind[at]]
                    0 <= at < next.page.behind.len() && shows(next.page.behind[at].command)
                        && next.page.behind[at].relative_height == frame.relative_height
            }
        }),
{
    let frame = images[i].frame;
    let y = frame.y.resolve(content_top);
    let next = if frame.is_wrap_top_and_bottom() {
        st
    } else {
        st.with_image(images[i], y)
    };
    let n = st.page.commands.len() as int;
    if !frame.is_wrap_top_and_bottom() {
        if frame.behind_doc {
            let at = law_layers_lie_in_order(
                st.page,
                frame.relative_height,
                DrawCommand::Image {
                    rect: crate::geometry::PtRect::from_xywh(
                        frame.x.resolve(st.parity()),
                        y,
                        frame.size.width,
                        frame.size.height,
                    ),
                    image: images[i].image,
                },
            );
            let shown = next.page.behind[at];
        } else {
            assert(next.page.commands.take(n) =~= st.page.commands);
        }
    }
    next
}

/// A drawing that stands before the text is drawn in its own box, and its text in it.
pub proof fn law_drawings_stand_in_their_boxes(st: FlowState<'_>, shape: FloatingShape, y: Pt)
    requires
        !shape.frame.behind_doc,
    ensures
        ({
            let n = st.page.commands.len() as int;
            let after = st.with_shape(shape, y);
            &&& after.page.commands.len() == n + 1 + shape.text_commands@.len()
            &&& after.page.commands.take(n) == st.page.commands
            &&& after.page.commands[n] matches DrawCommand::Path { rect, path } && path
                == shape.path && stands_in_frame(rect, shape.frame, st.parity(), y.units as int)
            &&& holds_moved(
                after.page.commands,
                n + 1,
                shape.text_commands@,
                left_edge(shape.frame, st.parity()),
                y.units as int,
            )
        }),
{
    let n = st.page.commands.len() as int;
    let framed = st.with_floating_command(
        shape.frame,
        DrawCommand::Path {
            rect: crate::geometry::PtRect::from_xywh(
                shape.frame.x.resolve(st.parity()),
                y,
                shape.frame.size.width,
                shape.frame.size.height,
            ),
            path: shape.path,
        },
    );
    lemma_text_of_a_drawing(framed, shape, y, 0);
    let after = st.with_shape(shape, y);
    assert(framed.page.commands.take(n) =~= st.page.commands);
    assert(after.page.commands.take(n) =~= framed.page.commands.take(n)) by {
        assert forall|k: int| 0 <= k < n implies after.page.commands[k] == framed.page.commands[k] by {
            assert(after.page.commands.take(n + 1)[k] == framed.page.commands[k]);
        }
    }
    assert(after.page.commands.take(n + 1)[n] == framed.page.commands[n]);
}

proof fn lemma_text_of_a_drawing(st: FlowState<'_>, shape: FloatingShape, y: Pt, i: int)
    requires
        0 <= i <= shape.text_commands@.len(),
        !shape.frame.behind_doc,
    ensures
        ({
            let n = st.page.commands.len() as int;
            let after = st.with_shape_text(shape, y, i);
            let text = shape.text_commands@;
            &&& after.page.commands.len() == n + text.len() - i
            &&& after.page.commands.take(n) == st.page.commands
            &&& forall|k: int| #![trigger text[k]]
                i <= k < text.len() ==> after.page.commands[n + k - i] == text[k].shifted(
                    shape.frame.x.resolve(st.parity()),
                    y,
                )
        }),
    decreases shape.text_commands@.len() - i,
{
    let n = st.page.commands.len() as int;
    let text = shape.text_commands@;
    let after = st.with_shape_text(shape, y, i);
    if i < text.len() {
        let next = st.with_floating_command(
            shape.frame,
            text[i].shifted(shape.frame.x.resolve(st.parity()), y),
        );
        lemma_text_of_a_drawing(next, shape, y, i + 1);
        assert(after == next.with_shape_text(shape, y, i + 1));
        assert(after.page.commands.take(n + 1)[n] == next.page.commands[n]);
        assert(after.page.commands.take(n) =~= st.page.commands) by {
            assert forall|k: int| 0 <= k < n implies after.page.commands[k] == st.page.commands[k] by {
                assert(after.page.commands.take(n + 1)[k] == next.page.commands[k]);
            }
        }
        assert forall|k: int| #![trigger text[k]] i <= k < text.len() implies after.page.commands[n
            + k - i] == text[k].shifted(shape.frame.x.resolve(st.parity()), y) by {
            if k > i {
                assert(after.page.commands[n + 1 + k - (i + 1)] == text[k].shifted(
                    shape.frame.x.resolve(st.parity()),
                    y,
                ));
            }
        }
    } else {
        assert(after.page.commands.take(n) =~= st.page.commands);
    }
}

/// A paragraph that is drawn whole stands with its top at the cursor and its left edge at that of its
/// column, and the cursor moves below it, but never by more than the height of the page's body.
pub proof fn law_whole_paragraphs_stand_in_their_column(
    pf: ParaFlow<'_>,
    job: FlowJob<'_>,
    chunk: Seq<Fragment>,
)
    requires
        ({
            let place = place_of(pf.st, job.ctx, pf.set);
            let s = placed(chunk, place, pf.set.style).full(
                pf.set.style,
                place.width,
                place.max_height,
            );
            is_length(pf.st.cursor_y.units + s.height.units)
        }),
    ensures
        ({
            let place = place_of(pf.st, job.ctx, pf.set);
            let p = placed(chunk, place, pf.set.style);
            let s = p.segment(pf.set.style, place.width, p.lines.len() as int, true, true);
            let after = pf.drawn_whole(job, chunk);
            let n = pf.st.page.commands.len() as int;
            &&& place.width == job.ctx.config.columns@[pf.st.current_col as int].width
            &&& after.st.page.commands.len() == n + s.commands.len()
            &&& after.st.page.commands.take(n) == pf.st.page.commands
            &&& holds_moved(
                after.st.page.commands,
                n,
                s.commands,
                job.ctx.config.col_x(pf.st.current_col as int).units as int,
                pf.st.cursor_y.units as int,
            )
            &&& after.st.pages == pf.st.pages
            &&& s.height.units <= pf.st.body_height().units ==> after.st.cursor_y.units
                == pf.st.cursor_y.units + s.height.units
            &&& s.height.units > pf.st.body_height().units ==> after.st.cursor_y.units
                == pf.st.cursor_y.units + pf.st.body_height().units
        }),
{
    reveal(ParaFlow::drawn_whole);
    let after = pf.drawn_whole(job, chunk);
    let n = pf.st.page.commands.len() as int;
    assert(after.st.page.commands.take(n) =~= pf.st.page.commands);
}

/// A paragraph that stays in its column as a whole ends within the page, unless it may overflow or
/// stands at the top of a column of full height already.
pub proof fn law_paragraphs_that_stay_fit(
    pf: ParaFlow<'_>,
    job: FlowJob<'_>,
    chunk: Seq<Fragment>,
)
    requires
        !pf.must_leave(job, chunk),
        !job.may_overflow,
        !pf.st.at_full_column_top(),
        ({
            let place = place_of(pf.st, job.ctx, pf.set);
            let s = placed(chunk, place, pf.set.style).full(
                pf.set.style,
                place.width,
                place.max_height,
            );
            is_length(pf.st.cursor_y.units + s.height.units)
        }),
    ensures
        pf.drawn_whole(job, chunk).st.cursor_y.units <= pf.st.bottom.units,
{
    reveal(ParaFlow::must_leave);
    reveal(ParaFlow::drawn_whole);
}

/// A paragraph that is about to be placed on its page stands in its column, below what stands before
/// it: its text starts below the text before it by the greater of their two spaces, or by none where
/// the two join. It starts further down at most where there are floats.
pub proof fn law_paragraphs_follow_one_another(
    st: FlowState<'_>,
    ctx: LayoutCtx<'_>,
    place: FlowPlace,
    block_idx: usize,
    para: ParagraphInFlow,
)
    requires
        begun(st, ctx, place, block_idx, para).0.st.pages.len() == st.pages.len(),
        ({
            let style = style_in_place(st, para.style);
            &&& is_length(st.previous.space_after.units + style.space_before.units)
            &&& is_length(st.cursor_y.units - st.previous.overlap(&style).units)
        }),
    ensures
        ({
            let pf = begun(st, ctx, place, block_idx, para).0;
            let style = pf.set.style;
            let end = st.cursor_y.units - st.previous.space_after.units;
            let text = pf.st.cursor_y.units + style.space_before.units;
            let after = st.previous.space_after.units;
            let before = style.space_before.units;
            let gap = if joins(st.previous, style) {
                0
            } else if after >= before {
                after as int
            } else {
                before as int
            };
            &&& style == style_in_place(st, para.style)
            &&& pf.set.page_y == pf.st.cursor_y
            &&& pf.set.page_x == ctx.config.col_x(st.current_col as int)
            &&& text >= end + gap
            &&& para.images.len() == 0 && para.shapes.len() == 0 && st.page_floats.len() == 0
                && st.abs_floats.len() == 0 && !st.abs_floats_dirty && st.exclusions.len() == 0
                ==> text == end + gap
        }),
{
    reveal(begun);
    let style = style_in_place(st, para.style);
    let joined = FlowState { cursor_y: st.cursor_y.minus(st.previous.overlap(&style)), ..st };
    let col = st.current_col as int;
    let x = ctx.config.col_x(col);
    let width = ctx.config.columns@[col].width;
    let top = joined.cursor_y.plus(style.space_before);
    crate::section::wrap_laws::lemma_floats_keep_the_place(
        joined,
        para.images,
        para.shapes,
        top,
        x,
        width,
    );
    let floated = joined.with_paragraph_floats(para.images, para.shapes, top, x, width).pruned();
    let all = floated.page_floats + crate::section::floats::added_floats(
        floated.page_floats,
        floated.scanned(place, x, width).abs_floats + floated.scanned(place, x, width).exclusions,
        floated.cursor_y.plus(style.space_before),
    );
    lemma_below_a_float(all, 0, floated.cursor_y, width, false);
    if para.images.len() == 0 && para.shapes.len() == 0 && st.page_floats.len() == 0
        && st.abs_floats.len() == 0 && !st.abs_floats_dirty && st.exclusions.len() == 0 {
        reveal(Seq::filter);
        assert(all.len() == 0);
    }
}

} // verus!
