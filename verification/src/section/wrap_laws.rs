//! The room that floating objects keep free, and the text beside them.
use crate::block::{
    FloatingFrame, FloatingImage, FloatingImageX, FloatingImageY, FloatingShape, PageParity,
    WrapMode,
};
use crate::dimension::Pt;
use crate::draw_command::DrawCommand;
use crate::float::{live_floats, ActiveFloat, FloatSource};
use crate::fragment::Fragment;
use crate::line_laws::{
    has_edges, has_own_place, heights_fit, law_lines_stand_beside_floats, reach, reaches_lengths,
    right_of, run_forward, top_of_text,
};
use crate::note_laws::is_length;
use crate::paragraph::{placed, PlaceView};
use crate::section::floats::{below_blockers, frame_float, has_float_at, same_place, FlowPlace};
use crate::section::layout::{begun, style_in_place};
use crate::section::paragraph_flow::ParagraphInFlow;
use crate::section::split::place_of;
use crate::section::state::{FlowState, LayoutCtx};
use crate::style::ParagraphStyle;
use vstd::prelude::*;

verus! {

/// The left edge of a floating object on a page of the given parity.
pub open spec fn left_edge(frame: FloatingFrame, parity: PageParity) -> int {
    match frame.x {
        FloatingImageX::Absolute(x) => x.units as int,
        FloatingImageX::Mirrored { odd, even } => if parity is Odd {
            odd.units as int
        } else {
            even.units as int
        },
    }
}

/// The right edge of a floating object on a page of the given parity.
pub open spec fn right_edge(frame: FloatingFrame, parity: PageParity) -> int {
    left_edge(frame, parity) + frame.size.width.units
}

/// The top edge of a floating object, where the text of its paragraph starts at `content_top`.
pub open spec fn top_edge(frame: FloatingFrame, content_top: int) -> int {
    match frame.y {
        FloatingImageY::Absolute(y) => y.units as int,
        FloatingImageY::RelativeToParagraph(offset) => content_top + offset.units,
    }
}

/// Whether text runs beside a floating object.
pub open spec fn text_runs_beside(frame: FloatingFrame) -> bool {
    frame.wrap_mode is Square || frame.wrap_mode is Tight || frame.wrap_mode is Through
}

/// Whether the distances of an object at the height `top` are not negative, and its box is widened by
/// them to lengths.
pub open spec fn has_room(frame: FloatingFrame, parity: PageParity, top: int) -> bool {
    &&& 0 <= frame.dist_left.units
    &&& 0 <= frame.dist_right.units
    &&& 0 <= frame.dist_top.units
    &&& 0 <= frame.dist_bottom.units
    &&& is_length(left_edge(frame, parity) - frame.dist_left.units)
    &&& is_length(frame.size.width.units + frame.dist_left.units)
    &&& is_length(frame.size.width.units + frame.dist_left.units + frame.dist_right.units)
    &&& is_length(right_edge(frame, parity) + frame.dist_right.units)
    &&& is_length(top)
    &&& is_length(top - frame.dist_top.units)
    &&& is_length(top + frame.size.height.units)
    &&& is_length(top + frame.size.height.units + frame.dist_bottom.units)
}

/// The region that a floating object keeps free of text holds the object's box and its distances on
/// all four sides, and no more. An object that has text above and below it only takes the whole
/// column between its upper and lower distance.
pub proof fn law_room_holds_its_object(
    frame: FloatingFrame,
    y: Pt,
    parity: PageParity,
    column_x: Pt,
    column_width: Pt,
    source: FloatSource,
)
    requires
        has_room(frame, parity, y.units as int),
    ensures
        ({
            let f = frame_float(frame, y, parity, column_x, column_width, source);
            &&& f.source == source
            &&& f.page_y_start.units + frame.dist_top.units == y.units
            &&& f.page_y_end.units - frame.dist_bottom.units == y.units + frame.size.height.units
            &&& text_runs_beside(frame) ==> {
                &&& !f.vertical_exclusion
                &&& f.page_x.units + frame.dist_left.units == left_edge(frame, parity)
                &&& right_of(f) - frame.dist_right.units == right_edge(frame, parity)
                &&& frame.wrap_mode matches WrapMode::Square(side) ==> f.wrap_text == side
                &&& frame.wrap_mode matches WrapMode::Tight(side) ==> f.wrap_text == side
                &&& frame.wrap_mode matches WrapMode::Through(side) ==> f.wrap_text == side
            }
            &&& frame.wrap_mode is TopAndBottom ==> {
                &&& f.vertical_exclusion
                &&& f.page_x == column_x
                &&& f.width == column_width
            }
        }),
{
}

/// Text of a paragraph that stands at the height of a floating object, in the place that the object's
/// room is known in, stands left or right of the object's box by the object's distances.
pub proof fn law_text_stands_clear_of_an_object(
    fragments: Seq<Fragment>,
    ctx: PlaceView,
    style: ParagraphStyle,
    frame: FloatingFrame,
    y: Pt,
    parity: PageParity,
    column_x: Pt,
    column_width: Pt,
    source: FloatSource,
    k: int,
    j: int,
)
    requires
        text_runs_beside(frame),
        has_room(frame, parity, y.units as int),
        ctx.floats.contains(frame_float(frame, y, parity, column_x, column_width, source)),
        fragments.len() <= usize::MAX,
        0 <= k < placed(fragments, ctx, style).lines.len() <= usize::MAX,
        has_edges(ctx, style, k),
        run_forward(fragments),
        ({
            let line = placed(fragments, ctx, style).lines[k];
            let at = top_of_text(ctx, style) + line.top.units;
            &&& has_own_place(line)
            &&& reaches_lengths(fragments, line.start as int, 0)
            &&& reaches_lengths(fragments, line.start as int, line.left.units as int)
            &&& heights_fit(
                fragments,
                line.start as int,
                line.end as int,
                line.top.units + line.ascent.units,
            )
            &&& y.units - frame.dist_top.units <= at < y.units + frame.size.height.units
                + frame.dist_bottom.units
            &&& line.start < j < line.end
            &&& fragments[j].fit_width().units > 0
        }),
    ensures
        ({
            let line = placed(fragments, ctx, style).lines[k];
            let x = ctx.page_x.units + line.left.units + reach(fragments, line.start as int, j);
            x + fragments[j].fit_width().units <= left_edge(frame, parity) - frame.dist_left.units
                || right_edge(frame, parity) + frame.dist_right.units <= x
        }),
{
    let f = frame_float(frame, y, parity, column_x, column_width, source);
    law_room_holds_its_object(frame, y, parity, column_x, column_width, source);
    let right = law_lines_stand_beside_floats(fragments, ctx, style, k);
    let i = choose|i: int| 0 <= i < ctx.floats.len() && ctx.floats[i] == f;
    assert(ctx.floats[i] == f);
    let line = placed(fragments, ctx, style).lines[k];
    crate::line_laws::lemma_reach_forward(fragments, line.start as int, j);
    let wide = fragments[j];
}

/// Whether the floats of a page are still on it, in order, and the page is the same one.
spec fn keeps_floats(before: FlowState<'_>, after: FlowState<'_>) -> bool {
    &&& before.page_floats.len() <= after.page_floats.len()
    &&& forall|i: int| #![trigger after.page_floats[i]]
        0 <= i < before.page_floats.len() ==> after.page_floats[i] == before.page_floats[i]
    &&& after.parity() == before.parity()
    &&& after.pages == before.pages
    &&& after.cursor_y == before.cursor_y
    &&& after.current_col == before.current_col
    &&& after.page_index == before.page_index
}

/// The room of a floating object is noted on its page, after those that are noted there. A band at a
/// fixed height of the page is noted for further columns too, and nothing else is.
pub proof fn law_rooms_are_noted(st: FlowState<'_>, frame: FloatingFrame, f: ActiveFloat)
    ensures
        ({
            let after = st.with_room(frame, f);
            let for_columns = frame.wrap_mode is TopAndBottom && frame.y is Absolute;
            &&& after.page_floats == st.page_floats.push(f)
            &&& for_columns ==> has_float_at(after.exclusions, f)
            &&& for_columns && !has_float_at(st.exclusions, f) ==> after.exclusions
                == st.exclusions.push(f)
            &&& !for_columns ==> after.exclusions == st.exclusions
                && after.column_reactivation_unsafe
            &&& after.page == st.page
            &&& after.cursor_y == st.cursor_y
        }),
{
    let after = st.with_room(frame, f);
    if frame.is_wrap_top_and_bottom() && frame.has_absolute_y() && !has_float_at(
        st.exclusions,
        f,
    ) {
        assert(same_place(after.exclusions[st.exclusions.len() as int], f));
    }
}

proof fn lemma_shape_text_keeps(st: FlowState<'_>, shape: FloatingShape, y: Pt, i: int)
    ensures
        keeps_floats(st, st.with_shape_text(shape, y, i)),
        st.with_shape_text(shape, y, i).page_floats == st.page_floats,
    decreases shape.text_commands@.len() - i,
{
    if 0 <= i < shape.text_commands@.len() {
        let next = st.with_floating_command(
            shape.frame,
            shape.text_commands@[i].shifted(shape.frame.x.resolve(st.parity()), y),
        );
        lemma_shape_text_keeps(next, shape, y, i + 1);
    }
}

proof fn lemma_images_have_rooms(
    st: FlowState<'_>,
    images: Seq<FloatingImage>,
    i: int,
    n: int,
    content_top: Pt,
    column_x: Pt,
    column_width: Pt,
)
    requires
        0 <= i,
    ensures
        ({
            let after = st.with_images(images, i, content_top, column_x, column_width);
            &&& keeps_floats(st, after)
            &&& i <= n < images.len() && (text_runs_beside(images[n].frame)
                || images[n].frame.wrap_mode is TopAndBottom) ==> after.page_floats.contains(
                frame_float(
                    images[n].frame,
                    images[n].frame.y.resolve(content_top),
                    st.parity(),
                    column_x,
                    column_width,
                    FloatSource::Image,
                ),
            )
        }),
    decreases images.len() - i,
{
    if i < images.len() {
        let frame = images[i].frame;
        let y = frame.y.resolve(content_top);
        let f = frame_float(frame, y, st.parity(), column_x, column_width, FloatSource::Image);
        let next = if frame.is_wrap_top_and_bottom() {
            st.with_image(images[i], y).with_room(frame, f)
        } else if frame.wrap_mode.registers_as_wrap_float() {
            st.with_room(frame, f)
        } else {
            st
        };
        lemma_images_have_rooms(next, images, i + 1, n, content_top, column_x, column_width);
        let after = st.with_images(images, i, content_top, column_x, column_width);
        assert(after == next.with_images(images, i + 1, content_top, column_x, column_width));
        if i == n && (text_runs_beside(frame) || frame.wrap_mode is TopAndBottom) {
            let at = st.page_floats.len() as int;
            assert(next.page_floats[at] == f);
            assert(after.page_floats[at] == f);
        }
    }
}

proof fn lemma_shapes_have_rooms(
    st: FlowState<'_>,
    shapes: Seq<FloatingShape>,
    i: int,
    n: int,
    content_top: Pt,
    column_x: Pt,
    column_width: Pt,
)
    requires
        0 <= i,
    ensures
        ({
            let after = st.with_shapes(shapes, i, content_top, column_x, column_width);
            &&& keeps_floats(st, after)
            &&& i <= n < shapes.len() && (text_runs_beside(shapes[n].frame)
                || shapes[n].frame.wrap_mode is TopAndBottom) ==> after.page_floats.contains(
                frame_float(
                    shapes[n].frame,
                    shapes[n].frame.y.resolve(content_top),
                    st.parity(),
                    column_x,
                    column_width,
                    FloatSource::Shape,
                ),
            )
        }),
    decreases shapes.len() - i,
{
    if i < shapes.len() {
        let frame = shapes[i].frame;
        let y = frame.y.resolve(content_top);
        let f = frame_float(frame, y, st.parity(), column_x, column_width, FloatSource::Shape);
        let drawn = st.with_floating_command(
            frame,
            DrawCommand::Path {
                rect: crate::geometry::PtRect::from_xywh(
                    frame.x.resolve(st.parity()),
                    y,
                    frame.size.width,
                    frame.size.height,
                ),
                path: shapes[i].path,
            },
        );
        lemma_shape_text_keeps(drawn, shapes[i], y, 0);
        let next = if frame.is_wrap_top_and_bottom() {
            st.with_shape(shapes[i], y).with_room(frame, f)
        } else if frame.wrap_mode.registers_as_wrap_float() {
            st.with_room(frame, f)
        } else {
            st
        };
        assert(keeps_floats(st, next));
        lemma_shapes_have_rooms(next, shapes, i + 1, n, content_top, column_x, column_width);
        let after = st.with_shapes(shapes, i, content_top, column_x, column_width);
        assert(after == next.with_shapes(shapes, i + 1, content_top, column_x, column_width));
        if i == n && (text_runs_beside(frame) || frame.wrap_mode is TopAndBottom) {
            let at = st.page_floats.len() as int;
            assert(next.page_floats[at] == f);
            assert(after.page_floats[at] == f);
        }
    }
}

/// Placing floating objects leaves the cursor and the column as they are.
pub(crate) proof fn lemma_floats_keep_the_place(
    st: FlowState<'_>,
    images: Seq<FloatingImage>,
    shapes: Seq<FloatingShape>,
    content_top: Pt,
    column_x: Pt,
    column_width: Pt,
)
    ensures
        ({
            let after = st.with_paragraph_floats(
                images,
                shapes,
                content_top,
                column_x,
                column_width,
            );
            &&& after.cursor_y == st.cursor_y
            &&& after.current_col == st.current_col
            &&& after.pages == st.pages
            &&& after.page_index == st.page_index
        }),
{
    lemma_images_have_rooms(st, images, 0, 0, content_top, column_x, column_width);
    let with = st.with_images(images, 0, content_top, column_x, column_width);
    lemma_shapes_have_rooms(with, shapes, 0, 0, content_top, column_x, column_width);
}

/// Each of a paragraph's floating objects that text keeps clear of has its room noted on the page, and
/// the floats of the page stay.
pub proof fn law_objects_have_rooms_on_the_page(
    st: FlowState<'_>,
    images: Seq<FloatingImage>,
    shapes: Seq<FloatingShape>,
    content_top: Pt,
    column_x: Pt,
    column_width: Pt,
    n: int,
)
    ensures
        ({
            let after = st.with_paragraph_floats(
                images,
                shapes,
                content_top,
                column_x,
                column_width,
            );
            &&& st.page_floats.len() <= after.page_floats.len()
            &&& forall|i: int| #![trigger after.page_floats[i]]
                0 <= i < st.page_floats.len() ==> after.page_floats[i] == st.page_floats[i]
            &&& 0 <= n < images.len() && (text_runs_beside(images[n].frame)
                || images[n].frame.wrap_mode is TopAndBottom) ==> after.page_floats.contains(
                frame_float(
                    images[n].frame,
                    images[n].frame.y.resolve(content_top),
                    st.parity(),
                    column_x,
                    column_width,
                    FloatSource::Image,
                ),
            )
            &&& 0 <= n < shapes.len() && (text_runs_beside(shapes[n].frame)
                || shapes[n].frame.wrap_mode is TopAndBottom) ==> after.page_floats.contains(
                frame_float(
                    shapes[n].frame,
                    shapes[n].frame.y.resolve(content_top),
                    st.parity(),
                    column_x,
                    column_width,
                    FloatSource::Shape,
                ),
            )
        }),
{
    lemma_images_have_rooms(st, images, 0, n, content_top, column_x, column_width);
    let with = st.with_images(images, 0, content_top, column_x, column_width);
    lemma_shapes_have_rooms(with, shapes, 0, n, content_top, column_x, column_width);
    let after = st.with_paragraph_floats(images, shapes, content_top, column_x, column_width);
    if 0 <= n < images.len() {
        let f = frame_float(
            images[n].frame,
            images[n].frame.y.resolve(content_top),
            st.parity(),
            column_x,
            column_width,
            FloatSource::Image,
        );
        if with.page_floats.contains(f) {
            let at = choose|i: int| 0 <= i < with.page_floats.len() && with.page_floats[i] == f;
            assert(after.page_floats[at] == f);
        }
    }
}

proof fn lemma_live(floats: Seq<ActiveFloat>, y: Pt, f: ActiveFloat)
    requires
        floats.contains(f),
        f.page_y_end.units > y.units,
    ensures
        live_floats(floats, y).contains(f),
    decreases floats.len(),
{
    let p = |f: ActiveFloat| f.page_y_end.units > y.units;
    reveal(Seq::filter);
    let i = choose|i: int| 0 <= i < floats.len() && floats[i] == f;
    let rest = floats.drop_last();
    if i < floats.len() - 1 {
        assert(rest[i] == f);
        lemma_live(rest, y, f);
        let at = choose|k: int| 0 <= k < live_floats(rest, y).len() && live_floats(rest, y)[k] == f;
        assert(live_floats(floats, y)[at] == f);
    } else {
        let n = live_floats(rest, y).len() as int;
        assert(live_floats(floats, y)[n] == f);
    }
}

proof fn lemma_below_blockers(
    floats: Seq<ActiveFloat>,
    k: int,
    y: Pt,
    column_width: Pt,
    count_bands: bool,
)
    ensures
        y.units <= below_blockers(floats, k, y, column_width, count_bands).units,
    decreases floats.len() - k,
{
    if 0 <= k < floats.len() {
        let f = floats[k];
        let next = if (count_bands || !f.vertical_exclusion) && f.overlaps_y(y) && f.width.units
            >= column_width.units {
            y.max(f.page_y_end)
        } else {
            y
        };
        lemma_below_blockers(floats, k + 1, next, column_width, count_bands);
    }
}

/// Where the text of a paragraph starts that is about to be placed.
pub open spec fn content_top_of(st: FlowState<'_>, para: ParagraphInFlow) -> Pt {
    let style = style_in_place(st, para.style);
    st.cursor_y.minus(st.previous.overlap(&style)).plus(style.space_before)
}

/// A paragraph that is about to be placed on its page knows the rooms of its own images and drawings
/// that text keeps clear of, as far as they reach below the cursor.
pub proof fn law_paragraphs_know_their_objects(
    st: FlowState<'_>,
    ctx: LayoutCtx<'_>,
    place: FlowPlace,
    block_idx: usize,
    para: ParagraphInFlow,
    n: int,
)
    requires
        begun(st, ctx, place, block_idx, para).0.st.pages.len() == st.pages.len(),
    ensures
        ({
            let pf = begun(st, ctx, place, block_idx, para).0;
            let col = st.current_col as int;
            let x = ctx.config.col_x(col);
            let width = ctx.config.columns@[col].width;
            &&& pf.set.page_y == pf.st.cursor_y
            &&& 0 <= n < para.images.len() && text_runs_beside(para.images[n].frame) ==> {
                let frame = para.images[n].frame;
                let f = frame_float(
                    frame,
                    frame.y.resolve(content_top_of(st, para)),
                    st.parity(),
                    x,
                    width,
                    FloatSource::Image,
                );
                pf.st.cursor_y.units < f.page_y_end.units ==> pf.set.floats.contains(f)
            }
            &&& 0 <= n < para.shapes.len() && text_runs_beside(para.shapes[n].frame) ==> {
                let frame = para.shapes[n].frame;
                let f = frame_float(
                    frame,
                    frame.y.resolve(content_top_of(st, para)),
                    st.parity(),
                    x,
                    width,
                    FloatSource::Shape,
                );
                pf.st.cursor_y.units < f.page_y_end.units ==> pf.set.floats.contains(f)
            }
        }),
{
    reveal(begun);
    let pf = begun(st, ctx, place, block_idx, para).0;
    let style = style_in_place(st, para.style);
    let joined = FlowState { cursor_y: st.cursor_y.minus(st.previous.overlap(&style)), ..st };
    let col = st.current_col as int;
    let x = ctx.config.col_x(col);
    let width = ctx.config.columns@[col].width;
    let top = joined.cursor_y.plus(style.space_before);
    let with = joined.with_paragraph_floats(para.images, para.shapes, top, x, width);
    law_objects_have_rooms_on_the_page(joined, para.images, para.shapes, top, x, width, n);
    lemma_images_have_rooms(joined, para.images, 0, n, top, x, width);
    lemma_shapes_have_rooms(
        joined.with_images(para.images, 0, top, x, width),
        para.shapes,
        0,
        n,
        top,
        x,
        width,
    );
    assert(keeps_floats(joined, with));
    let floated = with.pruned();
    let (met, floats) = floated.with_effective_floats(place, style.space_before, x, width);
    let all = floated.page_floats + crate::section::floats::added_floats(
        floated.page_floats,
        floated.scanned(place, x, width).abs_floats + floated.scanned(place, x, width).exclusions,
        floated.cursor_y.plus(style.space_before),
    );
    lemma_below_blockers(all, 0, floated.cursor_y, width, false);
    assert(floats == live_floats(all, met.cursor_y));
    assert(joined.parity() == st.parity());
    if 0 <= n < para.images.len() && text_runs_beside(para.images[n].frame) {
        let frame = para.images[n].frame;
        let f = frame_float(frame, frame.y.resolve(top), st.parity(), x, width, FloatSource::Image);
        if pf.st.cursor_y.units < f.page_y_end.units {
            lemma_carried(with, floated, all, met.cursor_y, f);
        }
    }
    if 0 <= n < para.shapes.len() && text_runs_beside(para.shapes[n].frame) {
        let frame = para.shapes[n].frame;
        let f = frame_float(frame, frame.y.resolve(top), st.parity(), x, width, FloatSource::Shape);
        if pf.st.cursor_y.units < f.page_y_end.units {
            lemma_carried(with, floated, all, met.cursor_y, f);
        }
    }
}

proof fn lemma_carried(
    with: FlowState<'_>,
    floated: FlowState<'_>,
    all: Seq<ActiveFloat>,
    y: Pt,
    f: ActiveFloat,
)
    requires
        with.page_floats.contains(f),
        floated == with.pruned(),
        floated.page_floats.len() <= all.len(),
        forall|i: int| #![trigger all[i]]
            0 <= i < floated.page_floats.len() ==> all[i] == floated.page_floats[i],
        with.cursor_y.units <= y.units < f.page_y_end.units,
    ensures
        live_floats(all, y).contains(f),
{
    lemma_live(with.page_floats, with.cursor_y, f);
    let at = choose|i: int|
        0 <= i < floated.page_floats.len() && floated.page_floats[i] == f;
    assert(all[at] == f);
    lemma_live(all, y, f);
}

/// A paragraph's text keeps clear of the paragraph's own images: on every line whose top lies within
/// the height of such an image and its distances, text stands left or right of the image's box by the
/// image's distances. The first piece of a line is left out here: where it is wider than the room
/// beside the image, there is no other place for it.
pub proof fn law_text_keeps_clear_of_pictures(
    st: FlowState<'_>,
    ctx: LayoutCtx<'_>,
    place: FlowPlace,
    block_idx: usize,
    para: ParagraphInFlow,
    n: int,
    k: int,
    j: int,
)
    requires
        begun(st, ctx, place, block_idx, para).0.st.pages.len() == st.pages.len(),
        0 <= n < para.images.len(),
        text_runs_beside(para.images[n].frame),
        has_room(
            para.images[n].frame,
            st.parity(),
            top_edge(para.images[n].frame, content_top_of(st, para).units as int),
        ),
        para.fragments.len() <= usize::MAX,
        run_forward(para.fragments),
        ({
            let pf = begun(st, ctx, place, block_idx, para).0;
            let at = place_of(pf.st, ctx, pf.set);
            let p = placed(para.fragments, at, pf.set.style);
            let frame = para.images[n].frame;
            let top = top_edge(frame, content_top_of(st, para).units as int);
            let line = p.lines[k];
            let y = top_of_text(at, pf.set.style) + line.top.units;
            &&& 0 <= k < p.lines.len() <= usize::MAX
            &&& has_edges(at, pf.set.style, k)
            &&& has_own_place(line)
            &&& reaches_lengths(para.fragments, line.start as int, 0)
            &&& reaches_lengths(para.fragments, line.start as int, line.left.units as int)
            &&& heights_fit(
                para.fragments,
                line.start as int,
                line.end as int,
                line.top.units + line.ascent.units,
            )
            &&& pf.st.cursor_y.units <= y
            &&& top - frame.dist_top.units <= y < top + frame.size.height.units
                + frame.dist_bottom.units
            &&& line.start < j < line.end
            &&& para.fragments[j].fit_width().units > 0
        }),
    ensures
        ({
            let pf = begun(st, ctx, place, block_idx, para).0;
            let at = place_of(pf.st, ctx, pf.set);
            let frame = para.images[n].frame;
            let line = placed(para.fragments, at, pf.set.style).lines[k];
            let x = at.page_x.units + line.left.units + reach(
                para.fragments,
                line.start as int,
                j,
            );
            x + para.fragments[j].fit_width().units <= left_edge(frame, st.parity())
                - frame.dist_left.units || right_edge(frame, st.parity()) + frame.dist_right.units
                <= x
        }),
{
    let pf = begun(st, ctx, place, block_idx, para).0;
    let at = place_of(pf.st, ctx, pf.set);
    let frame = para.images[n].frame;
    let col = st.current_col as int;
    let x = ctx.config.col_x(col);
    let width = ctx.config.columns@[col].width;
    let y = frame.y.resolve(content_top_of(st, para));
    law_paragraphs_know_their_objects(st, ctx, place, block_idx, para, n);
    law_room_holds_its_object(frame, y, st.parity(), x, width, FloatSource::Image);
    law_text_stands_clear_of_an_object(
        para.fragments,
        at,
        pf.set.style,
        frame,
        y,
        st.parity(),
        x,
        width,
        FloatSource::Image,
        k,
        j,
    );
}

} // verus!
