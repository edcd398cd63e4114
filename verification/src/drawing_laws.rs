//! Where commands, paragraphs and pages stand.
use crate::block::PageParity;
use crate::dimension::Pt;
use crate::draw_command::{shift_all, DrawCommand, RgbColor};
use crate::fragment::Fragment;
use crate::geometry::PtOffset;
use crate::line_laws::{bottom_of_lines, commands_before, room_at_bottom, room_at_top};
use crate::note_laws::{has_text_width, holds_moved, is_length, text_width};
use crate::page::{HeaderFooterClearance, HeaderFooterSlot, PageConfig};
use crate::paragraph::{
    decoration, drawable, laid_out, open_place, placed, PlaceView, PlacedView, SegmentView,
};
use crate::section::state::{FlowState, LayoutCtx};
use crate::style::{ParagraphBorderLine, ParagraphStyle};
use vstd::prelude::*;

verus! {

/// Whether `b` is the position `a` moved by `(dx, dy)`.
pub open spec fn point_moved(a: PtOffset, b: PtOffset, dx: int, dy: int) -> bool {
    b.x.units == a.x.units + dx && b.y.units == a.y.units + dy
}

/// Whether a position can be moved by `(dx, dy)`.
pub open spec fn point_can_move(a: PtOffset, dx: int, dy: int) -> bool {
    is_length(a.x.units + dx) && is_length(a.y.units + dy)
}

/// Whether `b` draws what `a` does, moved by `(dx, dy)` and nothing else of it changed.
pub open spec fn is_moved(a: DrawCommand, b: DrawCommand, dx: int, dy: int) -> bool {
    match a {
        DrawCommand::Text { position, text, font, color } => b matches DrawCommand::Text {
            position: p,
            text: t,
            font: f,
            color: c,
        } && t == text && f == font && c == color && point_moved(position, p, dx, dy),
        DrawCommand::Line { line, color, width } => b matches DrawCommand::Line {
            line: l,
            color: c,
            width: w,
        } && c == color && w == width && point_moved(line.start, l.start, dx, dy) && point_moved(
            line.end,
            l.end,
            dx,
            dy,
        ),
        DrawCommand::Rect { rect, color } => b matches DrawCommand::Rect { rect: r, color: c } && c
            == color && r.size == rect.size && point_moved(rect.origin, r.origin, dx, dy),
        DrawCommand::Image { rect, image } => b matches DrawCommand::Image { rect: r, image: m } && m
            == image && r.size == rect.size && point_moved(rect.origin, r.origin, dx, dy),
        DrawCommand::Path { rect, path } => b matches DrawCommand::Path { rect: r, path: m } && m
            == path && r.size == rect.size && point_moved(rect.origin, r.origin, dx, dy),
    }
}

/// Whether a command can be moved by `(dx, dy)`.
pub open spec fn can_move(a: DrawCommand, dx: int, dy: int) -> bool {
    match a {
        DrawCommand::Text { position, .. } => point_can_move(position, dx, dy),
        DrawCommand::Line { line, .. } => point_can_move(line.start, dx, dy) && point_can_move(
            line.end,
            dx,
            dy,
        ),
        DrawCommand::Rect { rect, .. } => point_can_move(rect.origin, dx, dy),
        DrawCommand::Image { rect, .. } => point_can_move(rect.origin, dx, dy),
        DrawCommand::Path { rect, .. } => point_can_move(rect.origin, dx, dy),
    }
}

/// A moved command draws the same at the new place: every position of it moves by the same distances,
/// and it keeps its size and its look.
pub proof fn law_commands_move_whole(command: DrawCommand, dx: Pt, dy: Pt)
    requires
        can_move(command, dx.units as int, dy.units as int),
    ensures
        is_moved(command, command.shifted(dx, dy), dx.units as int, dy.units as int),
{
}

/// Moved commands keep their number and their order.
pub proof fn law_lists_move_whole(commands: Seq<DrawCommand>, dx: Pt, dy: Pt)
    requires
        forall|k: int| #![trigger commands[k]]
            0 <= k < commands.len() ==> can_move(commands[k], dx.units as int, dy.units as int),
    ensures
        shift_all(commands, dx, dy).len() == commands.len(),
        forall|k: int| #![trigger commands[k]]
            0 <= k < commands.len() ==> is_moved(
                commands[k],
                shift_all(commands, dx, dy)[k],
                dx.units as int,
                dy.units as int,
            ),
{
    assert forall|k: int| #![trigger commands[k]] 0 <= k < commands.len() implies is_moved(
        commands[k],
        shift_all(commands, dx, dy)[k],
        dx.units as int,
        dy.units as int,
    ) by {
        law_commands_move_whole(commands[k], dx, dy);
    }
}

/// Whether a command fills the box with the given edges.
pub open spec fn fills(
    command: DrawCommand,
    left: int,
    top: int,
    right: int,
    bottom: int,
    color: RgbColor,
) -> bool {
    command matches DrawCommand::Rect { rect, color: c } && {
        &&& c == color
        &&& rect.origin.x.units == left
        &&& rect.origin.y.units == top
        &&& rect.origin.x.units + rect.size.width.units == right
        &&& rect.origin.y.units + rect.size.height.units == bottom
    }
}

/// One where `b` holds, and none else.
pub open spec fn one_if(b: bool) -> int {
    if b {
        1
    } else {
        0
    }
}

/// The top border that the first part of a paragraph shows.
pub open spec fn border_above(style: ParagraphStyle, first: bool) -> Option<ParagraphBorderLine> {
    match style.borders {
        Some(b) if first => b.top,
        _ => None,
    }
}

/// The bottom border that the last part of a paragraph shows.
pub open spec fn border_below(style: ParagraphStyle, last: bool) -> Option<ParagraphBorderLine> {
    match style.borders {
        Some(b) if last => b.bottom,
        _ => None,
    }
}

/// The left border of a paragraph.
pub open spec fn border_left(style: ParagraphStyle) -> Option<ParagraphBorderLine> {
    match style.borders {
        Some(b) => b.left,
        None => None,
    }
}

/// The right border of a paragraph.
pub open spec fn border_right(style: ParagraphStyle) -> Option<ParagraphBorderLine> {
    match style.borders {
        Some(b) => b.right,
        None => None,
    }
}

/// Whether the edges of a paragraph's box and of its borders are lengths.
pub open spec fn box_has_edges(style: ParagraphStyle, width: int, y: int, height: int) -> bool {
    let left = style.indent_left.units;
    let right = width - style.indent_right.units;
    &&& is_length(width - left)
    &&& is_length(right - left)
    &&& is_length(right)
    &&& is_length(y + height)
    &&& border_below(style, true) matches Some(line) ==> is_length(y + height - line.width.units)
    &&& border_left(style) matches Some(line) ==> is_length(left - line.space.units) && is_length(
        left - line.space.units - line.width.units,
    )
    &&& border_right(style) matches Some(line) ==> is_length(right + line.space.units)
}

/// The shading of a paragraph fills the box between its indents, and its borders lie along the edges
/// of that box: the top border within its upper edge, the bottom border within its lower edge, and
/// the side borders outside of it, as far from it as they ask for.
pub proof fn law_borders_lie_along_the_box(
    style: ParagraphStyle,
    width: Pt,
    y: Pt,
    height: Pt,
    first: bool,
    last: bool,
)
    requires
        box_has_edges(style, width.units as int, y.units as int, height.units as int),
    ensures
        ({
            let d = decoration(style, width, y, height, first, last);
            let left = style.indent_left.units as int;
            let right = width.units - style.indent_right.units;
            let top = y.units as int;
            let bottom = y.units + height.units;
            let a = one_if(style.shading is Some);
            let b = a + one_if(border_above(style, first) is Some);
            let c = b + one_if(border_below(style, last) is Some);
            let e = c + one_if(border_left(style) is Some);
            &&& d.len() == e + one_if(border_right(style) is Some)
            &&& style.shading matches Some(color) ==> fills(d[0], left, top, right, bottom, color)
            &&& border_above(style, first) matches Some(line) ==> fills(
                d[a],
                left,
                top,
                right,
                top + line.width.units,
                line.color,
            )
            &&& border_below(style, last) matches Some(line) ==> fills(
                d[b],
                left,
                bottom - line.width.units,
                right,
                bottom,
                line.color,
            )
            &&& border_left(style) matches Some(line) ==> fills(
                d[c],
                left - line.space.units - line.width.units,
                top,
                left - line.space.units,
                bottom,
                line.color,
            )
            &&& border_right(style) matches Some(line) ==> fills(
                d[e],
                right + line.space.units,
                top,
                right + line.space.units + line.width.units,
                bottom,
                line.color,
            )
        }),
{
}

/// The height of a part of a paragraph from its top to the text in it: the space before the paragraph
/// and its top border, in its first part.
pub open spec fn above_text(style: ParagraphStyle, first: bool) -> int {
    if first {
        style.space_before.units + room_at_top(style)
    } else {
        0
    }
}

/// The height of a part of a paragraph below the text in it: the bottom border of the paragraph and
/// the space after it, in its last part.
pub open spec fn below_text(style: ParagraphStyle, last: bool) -> int {
    if last {
        room_at_bottom(style) + style.space_after.units
    } else {
        0
    }
}

/// The box of a part of a paragraph that holds lines of the height `lines`: where it starts, and how
/// high it is.
pub open spec fn part_box(style: ParagraphStyle, lines: int, first: bool, last: bool) -> (int, int) {
    (
        if first {
            style.space_before.units as int
        } else {
            0
        },
        (if first {
            room_at_top(style)
        } else {
            0
        }) + lines + (if last {
            room_at_bottom(style)
        } else {
            0
        }),
    )
}

/// Whether the heights of a part of a paragraph are lengths.
pub open spec fn part_has_heights(
    style: ParagraphStyle,
    lines: int,
    first: bool,
    last: bool,
) -> bool {
    let (before, height) = part_box(style, lines, first, last);
    &&& is_length(room_at_top(style))
    &&& is_length(room_at_bottom(style))
    &&& is_length(lines)
    &&& is_length(
        lines + if first {
            room_at_top(style)
        } else {
            0
        },
    )
    &&& is_length(height)
    &&& is_length(before + height)
    &&& is_length(above_text(style, first))
    &&& is_length(above_text(style, first) + lines + below_text(style, last))
}

/// A drawn part of a paragraph is as high as its lines with the space before and after the paragraph
/// and its upper and lower border, each at the end of the paragraph where it belongs. Its lines stand
/// below the space before and the top border, and its shading and borders around the lines, without
/// the spaces.
pub proof fn law_parts_hold_their_lines(
    p: PlacedView,
    style: ParagraphStyle,
    width: Pt,
    head: int,
    first: bool,
    last: bool,
)
    requires
        drawable(p),
        0 <= head <= p.lines.len(),
        part_has_heights(style, bottom_of_lines(p, head), first, last),
    ensures
        ({
            let s = p.segment(style, width, head, first, last);
            let lines = bottom_of_lines(p, head);
            let (before, height) = part_box(style, lines, first, last);
            let d = decoration(
                style,
                width,
                Pt { units: before as i64 },
                Pt { units: height as i64 },
                first,
                last,
            );
            &&& s.height.units == above_text(style, first) + lines + below_text(style, last)
            &&& s.commands.len() == d.len() + commands_before(p, head)
            &&& s.commands.take(d.len() as int) == d
            &&& holds_moved(
                s.commands,
                d.len() as int,
                p.commands.take(commands_before(p, head)),
                0,
                above_text(style, first),
            )
        }),
{
    let s = p.segment(style, width, head, first, last);
    let lines = bottom_of_lines(p, head);
    let (before, height) = part_box(style, lines, first, last);
    if head > 0 {
        let line = p.lines[head - 1];
        assert(p.bottom(head).units == lines);
        assert(p.commands_in(head) == commands_before(p, head));
    }
    assert(style.top_border_space().units == room_at_top(style));
    assert(style.bottom_border_space().units == room_at_bottom(style));
    let d = decoration(
        style,
        width,
        Pt { units: before as i64 },
        Pt { units: height as i64 },
        first,
        last,
    );
    let own = p.commands.take(commands_before(p, head));
    assert(own =~= p.commands.subrange(0, p.commands_in(head)));
    assert(s.commands =~= d + shift_all(
        own,
        Pt::zero(),
        Pt { units: above_text(style, first) as i64 },
    ));
    assert(s.commands.take(d.len() as int) =~= d);
}

/// A paragraph by itself is set at the origin of an empty place of the given width, with all its
/// lines, and its height is cut off at the given one.
pub proof fn law_paragraphs_alone_are_set_at_the_origin(
    fragments: Seq<Fragment>,
    style: ParagraphStyle,
    width: Pt,
    max_height: Pt,
    line_height: Pt,
)
    ensures
        ({
            let place = PlaceView {
                width,
                max_height,
                page_x: Pt { units: 0 },
                page_y: Pt { units: 0 },
                default_line_height: line_height,
                floats: Seq::empty(),
            };
            let p = placed(fragments, place, style);
            let whole = p.segment(style, width, p.lines.len() as int, true, true);
            let r = laid_out(fragments, style, width, max_height, line_height);
            &&& r.commands == whole.commands
            &&& r.height.units <= max_height.units
            &&& r.height.units <= whole.height.units
            &&& r.height == whole.height || r.height == max_height
        }),
{
    let place = PlaceView {
        width,
        max_height,
        page_x: Pt { units: 0 },
        page_y: Pt { units: 0 },
        default_line_height: line_height,
        floats: Seq::empty(),
    };
    assert(place =~= open_place(width, max_height, line_height));
}

/// A part of a paragraph is drawn at the cursor, its left edge at `x`, and the cursor moves down by
/// its height. Nothing else of the page changes.
pub proof fn law_parts_are_drawn_at_the_cursor(st: FlowState<'_>, segment: SegmentView, x: Pt)
    requires
        is_length(st.cursor_y.units + segment.height.units),
    ensures
        ({
            let after = st.with_segment(segment, x);
            let n = st.page.commands.len() as int;
            &&& after.cursor_y.units == st.cursor_y.units + segment.height.units
            &&& after.page.commands.len() == n + segment.commands.len()
            &&& after.page.commands.take(n) == st.page.commands
            &&& after.page.behind == st.page.behind
            &&& holds_moved(
                after.page.commands,
                n,
                segment.commands,
                x.units as int,
                st.cursor_y.units as int,
            )
            &&& after.pages == st.pages
            &&& after.current_col == st.current_col
            &&& after.page_floats == st.page_floats
            &&& after.bottom == st.bottom
        }),
{
    let after = st.with_segment(segment, x);
    let n = st.page.commands.len() as int;
    assert(after.page.commands.take(n) =~= st.page.commands);
}

/// After the last column comes a new page, and after each other column the next one on the same page;
/// text goes on at its top.
pub proof fn law_columns_follow_one_another(st: FlowState<'_>, ctx: LayoutCtx<'_>, block_idx: usize)
    requires
        st.current_col < ctx.config.columns@.len() <= usize::MAX,
        st.page_index < usize::MAX,
    ensures
        ({
            let after = st.advanced(ctx, block_idx);
            if st.current_col + 1 < ctx.config.columns@.len() {
                &&& after.current_col == st.current_col + 1
                &&& after.cursor_y == st.column_top
                &&& after.pages == st.pages
                &&& after.page == st.page
                &&& after.page_floats == st.page_floats
            } else {
                let body = ctx.page_bounds((st.page_index + 1) as usize);
                &&& after.current_col == 0
                &&& after.page_index == st.page_index + 1
                &&& after.pages.len() == st.pages.len() + 1
                &&& after.pages.take(st.pages.len() as int) == st.pages
                &&& st.footnotes.len() == 0 ==> after.pages.last() == st.page
                &&& after.page.commands.len() == 0
                &&& after.page.behind.len() == 0
                &&& after.page.page_size == ctx.config.page_size
                &&& after.cursor_y == body.top
                &&& after.column_top == body.top
                &&& after.page_top == body.top
                &&& after.bottom == body.bottom
                &&& after.page_floats.len() == 0
                &&& after.footnotes.len() == 0
            }
        }),
{
    let after = st.advanced(ctx, block_idx);
    if st.current_col + 1 >= ctx.config.columns@.len() {
        assert(after.pages.take(st.pages.len() as int) =~= st.pages);
    }
}

/// The columns of a page stand right of its left margin by their offsets, and its text is as wide as
/// the page without its side margins.
pub proof fn law_columns_count_from_the_margin(config: PageConfig, col: int)
    requires
        0 <= col < config.columns@.len(),
        has_text_width(config),
        is_length(config.margins.left.units + config.columns@[col].x_offset.units),
    ensures
        config.col_x(col).units - config.margins.left.units
            == config.columns@[col].x_offset.units,
        config.content_width().units == text_width(config),
{
}

/// The number of a page of a section.
pub open spec fn page_number(clearance: HeaderFooterClearance, index: usize) -> int {
    clearance.logical_page_base + index
}

/// The first page of a section shows its first header and footer, where the section has such a page;
/// other pages with an even number the even ones, where these differ, and all others the default. The
/// body of a page starts at its top margin, or where its header ends if that is lower, and ends at its
/// bottom margin, or where its footer starts if that is higher.
pub proof fn law_pages_show_their_headers(clearance: HeaderFooterClearance, index: usize)
    requires
        page_number(clearance, index) <= usize::MAX,
        is_length(clearance.page_height.units - clearance.margin_bottom.units),
        forall|slot: HeaderFooterSlot|
            #![trigger slot.of(clearance.footers)]
            slot.of(clearance.footers) matches Some(extent) ==> is_length(
                clearance.page_height.units - extent.units,
            ),
    ensures
        clearance.slot(index) is First <==> clearance.title_pg && index == 0,
        clearance.slot(index) is Even <==> !(clearance.title_pg && index == 0)
            && clearance.even_and_odd && page_number(clearance, index) % 2 == 0,
        ({
            let body = clearance.for_page(index);
            let (header, footer) = match clearance.slot(index) {
                HeaderFooterSlot::Default => (clearance.headers.default, clearance.footers.default),
                HeaderFooterSlot::First => (clearance.headers.first, clearance.footers.first),
                HeaderFooterSlot::Even => (clearance.headers.even, clearance.footers.even),
            };
            &&& body.top == clearance.margin_top || header == Some(body.top)
            &&& body.top.units >= clearance.margin_top.units
            &&& header matches Some(end) ==> body.top.units >= end.units
            &&& body.bottom.units + clearance.margin_bottom.units <= clearance.page_height.units
            &&& footer matches Some(extent) ==> body.bottom.units + extent.units
                <= clearance.page_height.units
            &&& body.bottom.units + clearance.margin_bottom.units == clearance.page_height.units || (
            footer matches Some(extent) && body.bottom.units + extent.units
                == clearance.page_height.units)
        }),
{
    assert(clearance.logical_page_base.saturating_add(index) == page_number(clearance, index));
    let used = clearance.slot(index).of(clearance.footers);
}

/// Odd page numbers are odd.
pub proof fn law_parities_alternate(number: usize)
    ensures
        PageParity::of_page(number) is Odd <==> number % 2 == 1,
{
}

} // verus!
