//! Where tables stand on the pages of a section.
use crate::block::{Alignment, LayoutFootnote, TableAnchor, TableFloatInfo, TableOverlap};
use crate::dimension::{sum, Pt};
use crate::float::{ActiveFloat, FloatSource};
use crate::line_laws::right_of;
use crate::note_laws::{has_text_width, holds_moved, is_length, text_width};
use crate::section::state::{footnote_separator_gap, FlowState, LayoutCtx};
use crate::section::table_flow::{
    below_tables, below_tables_pass, floating_anchor, floating_table_x, table_x_offset,
    would_cover, FloatingTableAnchor, TableInFlow,
};
use crate::table::fits::{fits_on_the_page, law_a_table_that_fits_is_drawn_whole};
use crate::table::layout::{paginated_table, table_paging, SliceView, TablePaginationHeights};
use crate::table::measure::table_layout;
use crate::table::paginate::PageHeights;
use vstd::prelude::*;

verus! {

/// Whether something `width` wide with its left edge at `x` stands in a box as an alignment asks for:
/// at the right edge, or with as much room on its left as on its right up to one unit.
pub open spec fn stands_in_box(
    alignment: Alignment,
    x: int,
    width: int,
    box_x: int,
    box_width: int,
) -> bool {
    let before = x - box_x;
    let after = box_x + box_width - (x + width);
    match alignment {
        Alignment::Right => after == 0,
        Alignment::Center => before <= after <= before + 1,
        Alignment::Left => true,
    }
}

/// Whether a box and what stands in it have edges that are lengths.
pub open spec fn box_has_sides(width: int, box_width: int, box_x: int, indent: int) -> bool {
    &&& is_length(box_width - width)
    &&& is_length(box_x + box_width)
    &&& is_length(box_x + box_width - width)
    &&& is_length(box_x + (box_width - width) / 2)
    &&& is_length(box_x + indent)
}

/// A table stands at the right edge of its box or in its middle, where it is aligned so, and else at
/// its left edge by the indent.
pub proof fn law_tables_are_aligned(
    alignment: Option<Alignment>,
    indent: Pt,
    table_width: Pt,
    box_width: Pt,
    box_x: Pt,
)
    requires
        box_has_sides(
            table_width.units as int,
            box_width.units as int,
            box_x.units as int,
            indent.units as int,
        ),
    ensures
        ({
            let x = table_x_offset(alignment, indent, table_width, box_width, box_x);
            &&& alignment matches Some(how) ==> stands_in_box(
                how,
                x.units as int,
                table_width.units as int,
                box_x.units as int,
                box_width.units as int,
            )
            &&& alignment is None || alignment == Some(Alignment::Left) ==> x.units - box_x.units
                == indent.units
        }),
{
}

/// A floating table stands at the right margin or in the middle between the margins, where its
/// position asks for that; and else as its alignment says.
pub proof fn law_floating_tables_are_aligned(
    x_align: Option<Alignment>,
    alignment: Option<Alignment>,
    indent: Pt,
    table_width: Pt,
    content_width: Pt,
    left: Pt,
)
    requires
        box_has_sides(
            table_width.units as int,
            content_width.units as int,
            left.units as int,
            indent.units as int,
        ),
    ensures
        ({
            let x = floating_table_x(
                x_align,
                alignment,
                indent,
                table_width,
                content_width,
                left,
            );
            let own = match x_align {
                Some(Alignment::Center) => x_align,
                Some(Alignment::Right) => x_align,
                _ => alignment,
            };
            &&& own matches Some(how) ==> stands_in_box(
                how,
                x.units as int,
                table_width.units as int,
                left.units as int,
                content_width.units as int,
            )
            &&& own is None || own == Some(Alignment::Left) ==> x.units - left.units
                == indent.units
        }),
{
}

/// How many of the tables before `n` end below `y`.
spec fn tables_below(floats: Seq<ActiveFloat>, n: int, y: int) -> int
    decreases n,
{
    if n <= 0 {
        0
    } else {
        tables_below(floats, n - 1, y) + if floats[n - 1].source is Table && floats[n
            - 1].page_y_end.units > y {
            1int
        } else {
            0
        }
    }
}

proof fn lemma_tables_below(floats: Seq<ActiveFloat>, n: int, a: int, b: int)
    requires
        a <= b,
        0 <= n <= floats.len(),
    ensures
        0 <= tables_below(floats, n, b) <= tables_below(floats, n, a) <= n,
        forall|k: int| #![trigger floats[k]]
            0 <= k < n && floats[k].source is Table && a < floats[k].page_y_end.units <= b
                ==> tables_below(floats, n, b) < tables_below(floats, n, a),
    decreases n,
{
    if n > 0 {
        lemma_tables_below(floats, n - 1, a, b);
        let last = floats[n - 1];
    }
}

proof fn lemma_tables_pass(floats: Seq<ActiveFloat>, k: int, y: Pt, h: Pt)
    requires
        0 <= k <= floats.len(),
    ensures
        ({
            let next = below_tables_pass(floats, k, y, h);
            &&& y.units <= next.units
            &&& next == y ==> forall|i: int| #![trigger floats[i]]
                k <= i < floats.len() ==> !would_cover(floats[i], y, h)
            &&& next != y ==> exists|i: int| #![trigger floats[i]]
                k <= i < floats.len() && floats[i].source is Table && floats[i].page_y_end == next
                    && y.units < next.units
        }),
    decreases floats.len() - k,
{
    if k < floats.len() {
        let f = floats[k];
        let moved = if would_cover(f, y, h) {
            f.page_y_end
        } else {
            y
        };
        lemma_tables_pass(floats, k + 1, moved, h);
        let next = below_tables_pass(floats, k, y, h);
        if next == y {
            assert forall|i: int| #![trigger floats[i]] k <= i < floats.len() implies !would_cover(
                floats[i],
                y,
                h,
            ) by {
                if i > k {
                    assert(below_tables_pass(floats, k + 1, moved, h) == moved);
                }
            }
        } else if next == moved {
            assert(floats[k].page_y_end == next);
        }
    }
}

proof fn lemma_tables_rounds(floats: Seq<ActiveFloat>, rounds: int, y: Pt, h: Pt)
    requires
        tables_below(floats, floats.len() as int, y.units as int) <= rounds,
    ensures
        ({
            let r = below_tables(floats, rounds, y, h);
            &&& y.units <= r.units
            &&& forall|i: int| #![trigger floats[i]]
                0 <= i < floats.len() ==> !would_cover(floats[i], r, h)
            &&& r == y || exists|i: int| #![trigger floats[i]]
                0 <= i < floats.len() && floats[i].source is Table && floats[i].page_y_end == r
        }),
    decreases rounds,
{
    let n = floats.len() as int;
    lemma_tables_pass(floats, 0, y, h);
    let next = below_tables_pass(floats, 0, y, h);
    lemma_tables_below(floats, n, y.units as int, y.units as int);
    if next != y {
        lemma_tables_below(floats, n, y.units as int, next.units as int);
        let i = choose|i: int| #![trigger floats[i]]
            0 <= i < n && floats[i].source is Table && floats[i].page_y_end == next;
        assert(tables_below(floats, n, next.units as int) < tables_below(
            floats,
            n,
            y.units as int,
        )) by {
            let f = floats[i];
        }
        lemma_tables_rounds(floats, rounds - 1, next, h);
        let r = below_tables(floats, rounds, y, h);
        assert(r == below_tables(floats, rounds - 1, next, h));
        if r == next {
            assert(floats[i].page_y_end == r);
        }
    } else if rounds <= 0 {
        assert(below_tables(floats, rounds, y, h) == y);
    }
}

/// Whether a table `h` high at the height `y` covers a table that floats on the page.
pub open spec fn covers_table(f: ActiveFloat, y: int, h: int) -> bool {
    f.source is Table && f.page_y_start.units < y + h && y < f.page_y_end.units
}

/// A floating table stands where it asks to, if it may cover others. One that may not cover others
/// stands where it covers none: at the height it asks for, or at the lower edge of another table below
/// that and then within the page; and only where there is no room for it so, it goes to a new page.
pub proof fn law_floating_tables_keep_apart(
    requested: Pt,
    height: Pt,
    overlap: Option<TableOverlap>,
    floats: Seq<ActiveFloat>,
    bottom: Pt,
)
    requires
        is_length(requested.units + height.units),
        forall|k: int| #![trigger floats[k]]
            0 <= k < floats.len() ==> is_length(floats[k].page_y_end.units + height.units),
    ensures
        ({
            let anchor = floating_anchor(requested, height, overlap, floats, bottom);
            let free = |y: Pt| forall|i: int| #![trigger floats[i]]
                0 <= i < floats.len() ==> !covers_table(
                    floats[i],
                    y.units as int,
                    height.units as int,
                );
            let ends_at = |y: Pt| exists|i: int| #![trigger floats[i]]
                0 <= i < floats.len() && floats[i].source is Table && floats[i].page_y_end == y;
            if overlap == Some(TableOverlap::Never) {
                match anchor {
                    FloatingTableAnchor::OnCurrentPage(y) => y == requested && free(y),
                    FloatingTableAnchor::Shifted { from, to } => {
                        &&& from == requested
                        &&& requested.units < to.units
                        &&& free(to)
                        &&& ends_at(to)
                        &&& to.units + height.units <= bottom.units
                    },
                    FloatingTableAnchor::Spillover => exists|y: Pt| #![trigger free(y)]
                        requested.units < y.units && free(y) && ends_at(y) && y.units + height.units
                            > bottom.units,
                }
            } else {
                anchor == FloatingTableAnchor::OnCurrentPage(requested)
            }
        }),
{
    let n = floats.len() as int;
    lemma_tables_below(floats, n, requested.units as int, requested.units as int);
    lemma_tables_rounds(floats, n, requested, height);
    let free = |y: Pt| forall|i: int| #![trigger floats[i]]
        0 <= i < floats.len() ==> !covers_table(floats[i], y.units as int, height.units as int);
    let r = below_tables(floats, n, requested, height);
    assert(is_length(r.units + height.units)) by {
        if r != requested {
            let j = choose|j: int| #![trigger floats[j]]
                0 <= j < floats.len() && floats[j].source is Table && floats[j].page_y_end == r;
            assert(is_length(floats[j].page_y_end.units + height.units));
        }
    }
    assert forall|i: int| #![trigger floats[i]] 0 <= i < floats.len() implies !covers_table(
        floats[i],
        r.units as int,
        height.units as int,
    ) by {
        assert(!would_cover(floats[i], r, height));
    }
    assert(free(r));
}

/// A floating table with an offset asks to stand below the cursor, the body of its page or the edge of
/// the page by the offset, but never above the cursor; one without an offset at the cursor.
pub proof fn law_floating_tables_ask_for_their_offset(st: FlowState<'_>, info: TableFloatInfo)
    requires
        is_length(st.cursor_y.units + info.y_offset.units),
        is_length(st.page_top.units + info.y_offset.units),
    ensures
        ({
            let y = st.requested_table_y(info).units;
            let from = match info.vert_anchor {
                TableAnchor::Text => st.cursor_y.units as int,
                TableAnchor::Margin => st.page_top.units as int,
                TableAnchor::Page => 0,
            };
            &&& y >= st.cursor_y.units
            &&& info.y_offset.units <= 0 ==> y == st.cursor_y.units
            &&& info.y_offset.units > 0 ==> y >= from + info.y_offset.units && (y == from
                + info.y_offset.units || y == st.cursor_y.units)
        }),
{
}

/// Whether only the room for footnotes differs.
pub(crate) open spec fn only_notes_differ(a: FlowState<'_>, b: FlowState<'_>) -> bool {
    &&& b.page == a.page
    &&& b.pages == a.pages
    &&& b.cursor_y == a.cursor_y
    &&& b.page_floats == a.page_floats
    &&& b.current_col == a.current_col
    &&& b.column_top == a.column_top
    &&& b.page_top == a.page_top
    &&& b.page_index == a.page_index
}

pub(crate) proof fn lemma_note_reserved(
    st: FlowState<'_>,
    ctx: LayoutCtx<'_>,
    note: LayoutFootnote,
    i: int,
)
    ensures
        only_notes_differ(st, st.with_reserved_note(ctx, note, i)),
    decreases note.paragraphs@.len() - i,
{
    if 0 <= i < note.paragraphs@.len() {
        let paragraph = note.paragraphs@[i];
        let height = crate::paragraph::laid_out(
            paragraph.fragments@,
            paragraph.style,
            ctx.config.content_width(),
            Pt::infinity(),
            ctx.default_line_height,
        ).height;
        let bottom = if st.footnotes.len() == 0 {
            st.bottom.minus(crate::section::state::footnote_separator_gap())
        } else {
            st.bottom
        };
        lemma_note_reserved(
            FlowState {
                bottom: bottom.minus(height),
                footnotes: st.footnotes.push(&note.paragraphs@[i]),
                ..st
            },
            ctx,
            note,
            i + 1,
        );
    }
}

proof fn lemma_refs_reserved<'doc>(
    st: FlowState<'doc>,
    ctx: LayoutCtx<'_>,
    notes: Seq<&'doc LayoutFootnote>,
    n: int,
)
    ensures
        only_notes_differ(st, st.with_reserved_refs(ctx, notes, n)),
    decreases notes.len() - n,
{
    if 0 <= n < notes.len() {
        lemma_note_reserved(st, ctx, *notes[n], 0);
        lemma_refs_reserved(st.with_reserved_note(ctx, *notes[n], 0), ctx, notes, n + 1);
    }
}

/// Part number `i` of a floating table is drawn with its upper left corner at the table's left edge:
/// the first part where the table is anchored, each other one at the top of a new page. Text keeps
/// clear of the part over its height and over the given width from the table's left edge on.
pub proof fn law_parts_of_floating_tables_keep_their_room<'doc>(
    st: FlowState<'doc>,
    ctx: LayoutCtx<'_>,
    block_idx: usize,
    slices: Seq<SliceView<'doc>>,
    i: int,
    x: Pt,
    start_y: Pt,
    float_width: Pt,
) -> (next: FlowState<'doc>)
    requires
        0 <= i < slices.len(),
        is_length(
            (if i == 0 {
                start_y
            } else {
                st.on_new_page(block_idx, ctx).page_top
            }).units + slices[i].size.height.units,
        ),
    ensures
        st.with_floating_slices(ctx, block_idx, slices, i, x, start_y, float_width)
            == next.with_floating_slices(
            ctx,
            block_idx,
            slices,
            i + 1,
            x,
            start_y,
            float_width,
        ),
        ({
            let old = if i == 0 {
                st.page.commands
            } else {
                Seq::empty()
            };
            let y = if i == 0 {
                start_y.units as int
            } else {
                next.page_top.units as int
            };
            let f = next.page_floats[next.page_floats.len() - 1];
            &&& next.pages.len() == st.pages.len() + if i == 0 {
                0int
            } else {
                1
            }
            &&& next.page.commands.len() == old.len() + slices[i].commands.len()
            &&& next.page.commands.take(old.len() as int) == old
            &&& holds_moved(
                next.page.commands,
                old.len() as int,
                slices[i].commands,
                x.units as int,
                y,
            )
            &&& next.page_floats.len() > 0
            &&& f.source == (FloatSource::Table { owner_block_idx: block_idx })
            &&& !f.vertical_exclusion
            &&& f.page_x == x
            &&& right_of(f) == x.units + float_width.units
            &&& f.page_y_start.units == y
            &&& f.page_y_end.units == y + slices[i].size.height.units
        }),
{
    let at = if i > 0 {
        st.on_new_page(block_idx, ctx).without_space()
    } else {
        st
    };
    let y = if i > 0 {
        at.page_top
    } else {
        start_y
    };
    let drawn = at.with_slice(ctx, slices[i], x, y);
    let flat = at.drawn(crate::draw_command::shift_all(slices[i].commands, x, y));
    lemma_refs_reserved(flat, ctx, slices[i].footnotes, 0);
    let next = FlowState {
        page_floats: drawn.page_floats.push(
            ActiveFloat {
                page_x: x,
                page_y_start: y,
                page_y_end: y.plus(slices[i].size.height),
                width: float_width,
                source: FloatSource::Table { owner_block_idx: block_idx },
                vertical_exclusion: false,
                wrap_text: crate::float::WrapTextSide::BothSides,
            },
        ),
        column_reactivation_unsafe: true,
        ..drawn
    };
    let old = if i == 0 {
        st.page.commands
    } else {
        Seq::empty()
    };
    assert(at.page.commands =~= old);
    assert(next.page.commands.take(old.len() as int) =~= old);
    next
}

/// Part number `i` of a table in the text is drawn with its top at the cursor and aligned in its
/// column, and the cursor moves down by its height. The first part stands at the cursor of the page;
/// each other one at the top of the next column, where the table goes on in columns and there is one,
/// and else at the top of a new page.
pub proof fn law_parts_of_tables_stand_at_the_cursor<'doc>(
    st: FlowState<'doc>,
    ctx: LayoutCtx<'_>,
    block_idx: usize,
    table: TableInFlow,
    slices: Seq<SliceView<'doc>>,
    i: int,
    in_columns: bool,
) -> (r: (FlowState<'doc>, int))
    requires
        0 <= i < slices.len(),
        st.current_col < ctx.config.columns@.len() <= usize::MAX,
        is_length(st.cursor_y.units + slices[i].size.height.units),
        is_length(st.column_top.units + slices[i].size.height.units),
        is_length(
            st.on_new_page(block_idx, ctx).cursor_y.units + slices[i].size.height.units,
        ),
        forall|c: int| #![trigger ctx.config.columns@[c]]
            0 <= c < ctx.config.columns@.len() ==> box_has_sides(
                sum(table.col_widths).units as int,
                ctx.config.columns@[c].width.units as int,
                ctx.config.col_x(c).units as int,
                table.indent.units as int,
            ),
    ensures
        st.with_table_slices(ctx, block_idx, table, slices, i, in_columns)
            == r.0.with_table_slices(ctx, block_idx, table, slices, i + 1, in_columns),
        ({
            let (next, x) = r;
            let new_column = i > 0 && in_columns && st.current_col + 1
                < ctx.config.columns@.len();
            let new_page = i > 0 && !new_column;
            let old = if new_page {
                Seq::empty()
            } else {
                st.page.commands
            };
            let y = if new_page {
                next.page_top
            } else if new_column {
                st.column_top
            } else {
                st.cursor_y
            };
            let col = ctx.config.columns@[next.current_col as int];
            &&& next.pages.len() == st.pages.len() + if new_page {
                1int
            } else {
                0
            }
            &&& next.current_col == if new_page {
                0
            } else if new_column {
                st.current_col + 1
            } else {
                st.current_col as int
            }
            &&& next.cursor_y.units == y.units + slices[i].size.height.units
            &&& next.page.commands.len() == old.len() + slices[i].commands.len()
            &&& next.page.commands.take(old.len() as int) == old
            &&& holds_moved(
                next.page.commands,
                old.len() as int,
                slices[i].commands,
                x,
                y.units as int,
            )
            &&& table.alignment matches Some(how) ==> stands_in_box(
                how,
                x,
                sum(table.col_widths).units as int,
                ctx.config.col_x(next.current_col as int).units as int,
                col.width.units as int,
            )
            &&& table.alignment is None || table.alignment == Some(Alignment::Left) ==> x
                == ctx.config.col_x(next.current_col as int).units + table.indent.units
        }),
{
    let at = if i > 0 {
        if in_columns && st.current_col + 1 < ctx.config.columns@.len() {
            FlowState {
                current_col: (st.current_col + 1) as usize,
                cursor_y: st.column_top,
                ..st
            }
        } else {
            st.on_new_page(block_idx, ctx)
        }
    } else {
        st
    };
    let col = at.current_col as int;
    assert(0 <= col < ctx.config.columns@.len());
    let column = ctx.config.columns@[col];
    let x = table_x_offset(
        table.alignment,
        table.indent,
        sum(table.col_widths),
        column.width,
        ctx.config.col_x(col),
    );
    law_tables_are_aligned(
        table.alignment,
        table.indent,
        sum(table.col_widths),
        column.width,
        ctx.config.col_x(col),
    );
    let drawn = at.drawn(crate::draw_command::shift_all(slices[i].commands, x, at.cursor_y));
    let below = FlowState {
        cursor_y: drawn.cursor_y.plus(slices[i].size.height),
        ..drawn
    };
    lemma_refs_reserved(below, ctx, slices[i].footnotes, 0);
    let next = below.with_reserved_refs(ctx, slices[i].footnotes, 0);
    let old = at.page.commands;
    assert(next.page.commands.take(old.len() as int) =~= old);
    (next, x.units as int)
}

/// A floating table is drawn from where it is anchored on, at its aligned left edge, and text keeps
/// clear of it by its right gap.
pub proof fn law_floating_tables_keep_their_gap<'doc>(
    st: FlowState<'doc>,
    ctx: LayoutCtx<'_>,
    block_idx: usize,
    table: TableInFlow,
    info: TableFloatInfo,
) -> (r: (FlowState<'doc>, Seq<SliceView<'doc>>, Pt, Pt, Pt))
    requires
        has_text_width(*ctx.config),
        ({
            let whole = table_layout(
                table.rows,
                table.format(ctx.default_line_height, false),
            ).size;
            &&& is_length(whole.width.units + info.right_gap.units)
            &&& box_has_sides(
                whole.width.units as int,
                text_width(*ctx.config),
                ctx.config.margins.left.units as int,
                table.indent.units as int,
            )
        }),
    ensures
        ({
            let whole = table_layout(
                table.rows,
                table.format(ctx.default_line_height, false),
            ).size;
            let (at, slices, x, y, width) = r;
            let (anchored, top) = st.table_anchored(ctx, block_idx, info, whole.height);
            let own = match info.x_align {
                Some(Alignment::Center) => info.x_align,
                Some(Alignment::Right) => info.x_align,
                _ => table.alignment,
            };
            &&& st.with_floating_table(ctx, block_idx, table, info) == at.with_floating_slices(
                ctx,
                block_idx,
                slices,
                0,
                x,
                y,
                width,
            )
            &&& at == (FlowState { prev_table_style_id: None, ..anchored })
            &&& y == top
            &&& width.units == whole.width.units + info.right_gap.units
            &&& own matches Some(how) ==> stands_in_box(
                how,
                x.units as int,
                whole.width.units as int,
                ctx.config.margins.left.units as int,
                text_width(*ctx.config),
            )
            &&& own is None || own == Some(Alignment::Left) ==> x.units
                - ctx.config.margins.left.units == table.indent.units
        }),
{
    let format = table.format(ctx.default_line_height, false);
    let whole = table_layout(table.rows, format);
    let content_width = ctx.config.content_width();
    assert(content_width.units == text_width(*ctx.config));
    let x = floating_table_x(
        info.x_align,
        table.alignment,
        table.indent,
        whole.size.width,
        content_width,
        ctx.config.margins.left,
    );
    law_floating_tables_are_aligned(
        info.x_align,
        table.alignment,
        table.indent,
        whole.size.width,
        content_width,
        ctx.config.margins.left,
    );
    let (anchored, y) = st.table_anchored(ctx, block_idx, info, whole.size.height);
    let at = FlowState { prev_table_style_id: None, ..anchored };
    let slices = paginated_table(
        table.rows,
        format,
        TablePaginationHeights {
            available_height: at.bottom.minus(y).max(Pt::zero()),
            suppress_first_row_top: false,
            page_heights: PageHeights::Section {
                clearance: ctx.clearance,
                first_page: at.page_index,
                first_slot: 0,
                slots_per_page: 1,
            },
            footnote_width: Some(content_width),
            footnote_separator_height: footnote_separator_gap(),
            first_page_has_footnotes: at.footnotes.len() != 0,
        },
    );
    (at, slices, x, y, whole.size.width.plus(info.right_gap))
}

/// How a table in the text is divided between pages, with `room` left on its first page.
pub open spec fn division<'h>(
    st: FlowState<'_>,
    ctx: LayoutCtx<'_>,
    room: int,
    suppress_top: bool,
    in_columns: bool,
) -> TablePaginationHeights<'h> {
    TablePaginationHeights {
        available_height: Pt { units: room as i64 },
        suppress_first_row_top: suppress_top,
        page_heights: PageHeights::Section {
            clearance: ctx.clearance,
            first_page: st.page_index,
            first_slot: if in_columns {
                st.current_col
            } else {
                0
            },
            slots_per_page: if in_columns {
                ctx.config.columns@.len() as usize
            } else {
                1
            },
        },
        footnote_width: Some(ctx.config.content_width()),
        footnote_separator_height: footnote_separator_gap(),
        first_page_has_footnotes: st.footnotes.len() != 0,
    }
}

/// A table in the text that fits between the cursor and the end of the page, and does not move with
/// the block after it, is drawn whole with its top at the cursor and aligned in its column, and the
/// cursor moves below it.
pub proof fn law_tables_that_fit_stand_at_the_cursor<'doc>(
    st: FlowState<'doc>,
    ctx: LayoutCtx<'_>,
    blocks: Seq<crate::block::LayoutBlock>,
    block_idx: usize,
    table: TableInFlow,
    admitted: usize,
) -> (x: int)
    requires
        st.moved_for_table(ctx, blocks, block_idx, admitted) == (st, admitted),
        st.current_col < ctx.config.columns@.len() <= usize::MAX,
        table.rows.len() <= usize::MAX,
        is_length(st.bottom.units - st.cursor_y.units),
        ({
            let suppress = table.style_id is Some && table.style_id == st.prev_table_style_id;
            let format = table.format(ctx.default_line_height, suppress);
            let in_columns = st.pruned().goes_on_in_columns(ctx, blocks, block_idx);
            let d = division(
                st,
                ctx,
                st.bottom.units - st.cursor_y.units,
                suppress,
                in_columns,
            );
            let height = table_layout(table.rows, format).size.height.units;
            &&& fits_on_the_page(
                table_paging(table.rows, format, d),
                d.available_height,
                d.first_page_has_footnotes,
            )
            &&& is_length(st.cursor_y.units + height)
            &&& is_length(st.column_top.units + height)
            &&& is_length(st.pruned().on_new_page(block_idx, ctx).cursor_y.units + height)
        }),
        forall|c: int| #![trigger ctx.config.columns@[c]]
            0 <= c < ctx.config.columns@.len() ==> box_has_sides(
                sum(table.col_widths).units as int,
                ctx.config.columns@[c].width.units as int,
                ctx.config.col_x(c).units as int,
                table.indent.units as int,
            ),
    ensures
        ({
            let suppress = table.style_id is Some && table.style_id == st.prev_table_style_id;
            let t = table_layout(
                table.rows,
                table.format(ctx.default_line_height, suppress),
            );
            let (after, next) = st.with_inline_table(ctx, blocks, block_idx, table, admitted);
            let n = st.page.commands.len() as int;
            let col = st.current_col as int;
            &&& next == admitted
            &&& after.pages == st.pages
            &&& after.current_col == st.current_col
            &&& after.cursor_y.units == st.cursor_y.units + t.size.height.units
            &&& after.page.commands.len() == n + t.commands.len()
            &&& after.page.commands.take(n) == st.page.commands
            &&& holds_moved(
                after.page.commands,
                n,
                t.commands,
                x,
                st.cursor_y.units as int,
            )
            &&& after.previous.space_after.units == 0
            &&& after.prev_table_style_id == table.style_id
            &&& table.alignment matches Some(how) ==> stands_in_box(
                how,
                x,
                sum(table.col_widths).units as int,
                ctx.config.col_x(col).units as int,
                ctx.config.columns@[col].width.units as int,
            )
            &&& table.alignment is None || table.alignment == Some(Alignment::Left) ==> x
                == ctx.config.col_x(col).units + table.indent.units
        }),
{
    let suppress = table.style_id is Some && table.style_id == st.prev_table_style_id;
    let format = table.format(ctx.default_line_height, suppress);
    let at = st.pruned();
    let in_columns = at.goes_on_in_columns(ctx, blocks, block_idx);
    let d = division(st, ctx, st.bottom.units - st.cursor_y.units, suppress, in_columns);
    law_a_table_that_fits_is_drawn_whole(table.rows, format, d);
    let slices: Seq<SliceView<'doc>> = paginated_table(table.rows, format, d);
    let (next, x) = law_parts_of_tables_stand_at_the_cursor(
        at,
        ctx,
        block_idx,
        table,
        slices,
        0,
        in_columns,
    );
    assert(next.with_table_slices(ctx, block_idx, table, slices, 1, in_columns) == next);
    assert(next.pages == st.pages) by {
        lemma_first_part_keeps_the_pages(at, ctx, block_idx, table, slices, in_columns);
    }
    x
}

proof fn lemma_first_part_keeps_the_pages<'doc>(
    st: FlowState<'doc>,
    ctx: LayoutCtx<'_>,
    block_idx: usize,
    table: TableInFlow,
    slices: Seq<SliceView<'doc>>,
    in_columns: bool,
)
    requires
        slices.len() == 1,
    ensures
        st.with_table_slices(ctx, block_idx, table, slices, 0, in_columns).pages == st.pages,
{
    let col = st.current_col as int;
    let x = table_x_offset(
        table.alignment,
        table.indent,
        sum(table.col_widths),
        ctx.config.columns@[col].width,
        ctx.config.col_x(col),
    );
    let drawn = st.drawn(crate::draw_command::shift_all(slices[0].commands, x, st.cursor_y));
    let below = FlowState {
        cursor_y: drawn.cursor_y.plus(slices[0].size.height),
        ..drawn
    };
    lemma_refs_reserved(below, ctx, slices[0].footnotes, 0);
    let next = below.with_reserved_refs(ctx, slices[0].footnotes, 0);
    assert(next.with_table_slices(ctx, block_idx, table, slices, 1, in_columns) == next);
}

} // verus!
