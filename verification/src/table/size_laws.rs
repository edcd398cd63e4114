//! How large tables are, and what their cells and rows are measured with.
use crate::block::{LayoutBlock, PageParity, TableRowInput};
use crate::dimension::Pt;
use crate::geometry::PtEdgeInsets;
use crate::note_laws::is_length;
use crate::table::borders::CellBorders;
use crate::table::cell::{with_paragraph, with_table, CellFlow};
use crate::table::cell_laws::{law_content_fits_between_margins, line_width};
use crate::table::emit::{row_drawing, with_cells, with_rows, Drawing, Layers};
use crate::table::fits::heights_sum;
use crate::table::grid::{
    exact_sum, expand_cells, expand_rows, grow_span, law_growing_never_shrinks_a_row,
    law_merged_rows_make_up_the_content, lemma_exact_sum, merge_continues, merge_end, summable,
};
use crate::table::measure::{
    base_height, borders_of_row, cell_layout, cell_left, cell_width, layout_width,
    lemma_all_entries, lemma_entry, lemma_measured_table, lemma_row_entries, lemma_table_layout,
    measured_table, row_heights, table_footnotes, table_layout, widest_bottom, with_block,
    TableFormat,
};
use crate::table::places::{lemma_next_row, rows_stand_at_lengths};
use crate::table::types::{EntryView, MeasuredRowView};
use vstd::prelude::*;

verus! {

proof fn lemma_rows_end(
    d: Drawing,
    measured: Seq<MeasuredRowView<'_>>,
    rows: Seq<TableRowInput>,
    i: int,
    start: int,
    end: int,
    top: int,
)
    requires
        0 <= start <= i <= end <= measured.len(),
        d.y.units == top + heights_sum(measured, start, i),
        rows_stand_at_lengths(measured, start, end, top),
    ensures
        with_rows(d, measured, rows, i, start, end, None).y.units == top + heights_sum(
            measured,
            start,
            end,
        ),
    decreases end - i,
{
    if i < end {
        let one = row_drawing(measured, rows, i, start, end, d.y, None);
        let next = Drawing {
            layers: with_cells(d.layers, one, 0),
            y: d.y.plus(measured[i].full_height()),
        };
        lemma_next_row(measured, start, i);
        assert(is_length(top + heights_sum(measured, start, i + 1)));
        lemma_rows_end(next, measured, rows, i + 1, start, end, top);
    }
}

/// A table that is laid out as a whole is as wide as its columns and one spacing, and as high as its
/// rows one below another and one spacing.
pub proof fn law_tables_are_as_large_as_their_rows(rows: Seq<TableRowInput>, format: TableFormat)
    requires
        rows.len() > 0,
        format.col_widths.len() > 0,
        summable(format.col_widths),
        is_length(
            exact_sum(format.col_widths, format.col_widths.len() as int)
                + format.cell_spacing.units,
        ),
        rows_stand_at_lengths(measured_table(rows, format).rows, 0, rows.len() as int, 0),
        is_length(
            heights_sum(measured_table(rows, format).rows, 0, rows.len() as int)
                + format.cell_spacing.units,
        ),
    ensures
        ({
            let t = table_layout(rows, format);
            &&& t.size.width.units == exact_sum(
                format.col_widths,
                format.col_widths.len() as int,
            ) + format.cell_spacing.units
            &&& t.size.height.units == heights_sum(
                measured_table(rows, format).rows,
                0,
                rows.len() as int,
            ) + format.cell_spacing.units
        }),
{
    lemma_table_layout(rows, format);
    lemma_measured_table(rows, format);
    lemma_exact_sum(format.col_widths, format.col_widths.len() as int);
    let measured = measured_table(rows, format).rows;
    let d = Drawing { layers: Layers::empty(), y: Pt::zero() };
    assert(heights_sum(measured, 0, 0) == 0);
    lemma_rows_end(d, measured, rows, 0, 0, rows.len() as int, 0);
}

/// A row takes its own height and the room for the border below it.
pub proof fn law_rows_take_their_height_and_border(row: MeasuredRowView<'_>)
    requires
        is_length(row.height.units + row.border_gap_below.units),
    ensures
        row.full_height().units == row.height.units + row.border_gap_below.units,
{
}

/// The room that a side border and the margin on its side take together.
pub open spec fn side_room(border: int, margin: int) -> int {
    if border > margin {
        border
    } else {
        margin
    }
}

/// Whether a cell is wide enough for its margins and side borders.
pub open spec fn has_inner_width(cell_w: int, margins: PtEdgeInsets, b: CellBorders) -> bool {
    &&& 0 <= margins.left.units
    &&& 0 <= margins.right.units
    &&& 0 <= line_width(b.left)
    &&& 0 <= line_width(b.right)
    &&& is_length(margins.left.units + margins.right.units)
    &&& side_room(line_width(b.left), margins.left.units as int) + side_room(
        line_width(b.right),
        margins.right.units as int,
    ) <= cell_w
}

/// The width between the margins and side borders of a cell.
pub open spec fn between_sides(cell_w: int, margins: PtEdgeInsets, b: CellBorders) -> int {
    cell_w - side_room(line_width(b.left), margins.left.units as int) - side_room(
        line_width(b.right),
        margins.right.units as int,
    )
}

/// Each cell of a measured table stands at the start of its columns and is as wide as these. Its
/// content is that of its own blocks, set between its margins and side borders; a cell that continues
/// a merged region has none.
pub proof fn law_cells_are_set_between_their_sides(
    rows: Seq<TableRowInput>,
    format: TableFormat,
    r: int,
    c: int,
)
    requires
        0 <= r < rows.len(),
        0 <= c < rows[r].cells@.len(),
        has_inner_width(
            cell_width(rows[r], c, format.col_widths, format.cell_spacing).units as int,
            rows[r].cells@[c].margins,
            measured_table(rows, format).rows[r].borders[c],
        ),
    ensures
        ({
            let cell = rows[r].cells@[c];
            let row = measured_table(rows, format).rows[r];
            let e = row.entries[c];
            let inner = between_sides(e.cell_w.units as int, cell.margins, row.borders[c]);
            &&& e.cell_x == cell_left(rows[r], c, format.col_widths, format.cell_spacing)
            &&& e.cell_w == cell_width(rows[r], c, format.col_widths, format.cell_spacing)
            &&& row.leading_gap == format.cell_spacing
            &&& cell.continues_merge() ==> e.layout.commands.len() == 0
                && e.layout.content_height.units == 0
            &&& !cell.continues_merge() ==> e.layout == cell_layout::<'_>(
                cell.blocks@,
                Pt {
                    units: (inner + cell.margins.left.units + cell.margins.right.units) as i64,
                },
                cell.margins,
                format.default_line_height,
                PageParity::Odd,
            )
        }),
{
    lemma_measured_table(rows, format);
    lemma_all_entries(rows, format);
    lemma_row_entries(rows, r, format);
    lemma_entry(rows, r, c, format);
    let cell = rows[r].cells@[c];
    let b = borders_of_row(rows, r, format)[c];
    let row = measured_table(rows, format).rows[r];
    assert(row.borders == borders_of_row(rows, r, format));
    assert(row.entries[c] == crate::table::measure::entry(rows, r, c, format));
    let w = cell_width(rows[r], c, format.col_widths, format.cell_spacing);
    law_content_fits_between_margins(w, cell.margins, b);
    let inner = between_sides(w.units as int, cell.margins, b);
    assert(layout_width(w, cell.margins, b).units == inner + cell.margins.left.units
        + cell.margins.right.units);
}

/// The blocks of a cell are set in the width between the cell's margins: paragraphs in that width,
/// tables as large as they are by themselves, below what stands in the cell before.
pub proof fn law_blocks_are_set_between_the_margins<'a>(
    flow: CellFlow<'a>,
    block: LayoutBlock,
    width: Pt,
    margins: PtEdgeInsets,
    default_line_height: Pt,
    parity: PageParity,
)
    requires
        is_length(margins.left.units + margins.right.units),
        0 <= width.units - margins.left.units - margins.right.units <= i64::MAX,
    ensures
        ({
            let next = with_block(flow, block, width, margins, default_line_height, parity);
            let inner = Pt {
                units: (width.units - margins.left.units - margins.right.units) as i64,
            };
            match block {
                LayoutBlock::Paragraph {
                    fragments,
                    style,
                    footnotes,
                    floating_images,
                    floating_shapes,
                    ..
                } => next == with_paragraph(
                    flow,
                    fragments@,
                    style,
                    footnotes@,
                    floating_images@,
                    floating_shapes@,
                    inner,
                    margins,
                    default_line_height,
                    parity,
                ),
                LayoutBlock::Table { rows, col_widths, cell_spacing, border_config, .. } => {
                    let format = TableFormat {
                        col_widths: col_widths@,
                        cell_spacing,
                        default_line_height,
                        borders: border_config,
                        suppress_first_row_top: false,
                    };
                    next == with_table(
                        flow,
                        table_layout(rows@, format).commands,
                        table_layout(rows@, format).size.height,
                        table_footnotes(rows@, format),
                        margins,
                    )
                },
            }
        }),
{
    reveal(with_block);
    reveal(table_layout);
    reveal(table_footnotes);
}

proof fn lemma_widest_bottom(b: Seq<CellBorders>, c: int, acc: Pt)
    requires
        0 <= c <= b.len(),
    ensures
        ({
            let w = widest_bottom(b, c, acc);
            &&& acc.units <= w.units
            &&& forall|k: int| #![trigger b[k]]
                c <= k < b.len() ==> line_width(b[k].bottom) <= w.units
            &&& w == acc || exists|k: int| #![trigger b[k]]
                c <= k < b.len() && line_width(b[k].bottom) == w.units
        }),
    decreases b.len() - c,
{
    if c < b.len() {
        let next = acc.max(crate::table::borders::border_width(b[c].bottom));
        lemma_widest_bottom(b, c + 1, next);
    }
}

/// Between two rows without spacing there is room for the widest border at the bottom of the upper
/// row, and no more. With spacing, and below the last row, there is none.
pub proof fn law_rows_leave_room_for_their_borders(
    rows: Seq<TableRowInput>,
    format: TableFormat,
    r: int,
)
    requires
        0 <= r < rows.len(),
    ensures
        ({
            let row = measured_table(rows, format).rows[r];
            let room = row.border_gap_below.units;
            let b = row.borders;
            &&& r + 1 == rows.len() || format.cell_spacing.units > 0 ==> room == 0
            &&& r + 1 < rows.len() && format.cell_spacing.units <= 0 ==> {
                &&& 0 <= room
                &&& forall|k: int| #![trigger b[k]]
                    0 <= k < b.len() ==> line_width(b[k].bottom) <= room
                &&& room == 0 || exists|k: int| #![trigger b[k]]
                    0 <= k < b.len() && line_width(b[k].bottom) == room
            }
        }),
{
    lemma_measured_table(rows, format);
    lemma_widest_bottom(borders_of_row(rows, r, format), 0, Pt::zero());
}

/// Whether no row of `b` is lower than that of `a`.
pub open spec fn no_lower(a: Seq<Pt>, b: Seq<Pt>) -> bool {
    &&& a.len() == b.len()
    &&& forall|i: int| #![trigger b[i]] 0 <= i < a.len() ==> a[i].units <= b[i].units
}

proof fn lemma_merge_end(rows: Seq<TableRowInput>, r: int, grid_col: usize)
    requires
        0 <= r <= rows.len(),
    ensures
        r <= merge_end(rows, r, grid_col) <= rows.len(),
    decreases rows.len() - r,
{
    if r < rows.len() && merge_continues(rows[r], grid_col) {
        lemma_merge_end(rows, r + 1, grid_col);
    }
}

/// The heights after the merged region of one cell has grown.
spec fn after_cell(
    rows: Seq<TableRowInput>,
    entries: Seq<Seq<EntryView<'_>>>,
    row: int,
    cell: int,
    heights: Seq<Pt>,
) -> Seq<Pt> {
    let input = rows[row].cells@[cell];
    let entry = entries[row][cell];
    let end = merge_end(rows, row + 1, entry.grid_col);
    if input.restarts_merge() && end > row + 1 {
        grow_span(
            heights,
            row,
            end,
            entry.layout.content_height.plus(input.margins.vertical()),
        )
    } else {
        heights
    }
}

proof fn lemma_cell_grows(
    rows: Seq<TableRowInput>,
    entries: Seq<Seq<EntryView<'_>>>,
    row: int,
    cell: int,
    heights: Seq<Pt>,
)
    requires
        0 <= row < rows.len() == heights.len(),
    ensures
        no_lower(heights, after_cell(rows, entries, row, cell, heights)),
{
    let input = rows[row].cells@[cell];
    let entry = entries[row][cell];
    let end = merge_end(rows, row + 1, entry.grid_col);
    lemma_merge_end(rows, row + 1, entry.grid_col);
    let next = after_cell(rows, entries, row, cell, heights);
    if input.restarts_merge() && end > row + 1 {
        let content = entry.layout.content_height.plus(input.margins.vertical());
        law_growing_never_shrinks_a_row(heights, row, end, content, row);
        assert forall|i: int| #![trigger next[i]] 0 <= i < heights.len() implies heights[i].units
            <= next[i].units by {
            law_growing_never_shrinks_a_row(heights, row, end, content, i);
        }
    }
}

proof fn lemma_cells_grow(
    rows: Seq<TableRowInput>,
    entries: Seq<Seq<EntryView<'_>>>,
    row: int,
    cell: int,
    heights: Seq<Pt>,
)
    requires
        0 <= row < rows.len() == heights.len(),
    ensures
        no_lower(heights, expand_cells(rows, entries, row, cell, heights)),
    decreases rows[row].cells@.len() - cell,
{
    if 0 <= cell < rows[row].cells@.len() {
        lemma_cell_grows(rows, entries, row, cell, heights);
        let next = after_cell(rows, entries, row, cell, heights);
        lemma_cells_grow(rows, entries, row, cell + 1, next);
        let r = expand_cells(rows, entries, row, cell, heights);
        assert(r == expand_cells(rows, entries, row, cell + 1, next));
        assert forall|i: int| #![trigger r[i]] 0 <= i < heights.len() implies heights[i].units
            <= r[i].units by {
            assert(next[i].units <= r[i].units);
        }
    }
}

proof fn lemma_rows_grow(
    rows: Seq<TableRowInput>,
    entries: Seq<Seq<EntryView<'_>>>,
    row: int,
    heights: Seq<Pt>,
)
    requires
        0 <= row <= rows.len() == heights.len(),
    ensures
        no_lower(heights, expand_rows(rows, entries, row, heights)),
    decreases rows.len() - row,
{
    if row < rows.len() {
        lemma_cells_grow(rows, entries, row, 0, heights);
        let next = expand_cells(rows, entries, row, 0, heights);
        lemma_rows_grow(rows, entries, row + 1, next);
        let r = expand_rows(rows, entries, row, heights);
        assert(r == expand_rows(rows, entries, row + 1, next));
        assert forall|i: int| #![trigger r[i]] 0 <= i < heights.len() implies heights[i].units
            <= r[i].units by {
            assert(next[i].units <= r[i].units);
        }
    }
}

proof fn lemma_sums_grow(a: Seq<Pt>, b: Seq<Pt>, n: int)
    requires
        no_lower(a, b),
        0 <= n <= a.len(),
    ensures
        exact_sum(a, n) <= exact_sum(b, n),
    decreases n,
{
    if n > 0 {
        lemma_sums_grow(a, b, n - 1);
        assert(a[n - 1].units <= b[n - 1].units);
    }
}

proof fn lemma_part_no_lower(a: Seq<Pt>, b: Seq<Pt>, start: int, end: int)
    requires
        no_lower(a, b),
        0 <= start <= end <= a.len(),
    ensures
        no_lower(a.subrange(start, end), b.subrange(start, end)),
{
    let x = a.subrange(start, end);
    let y = b.subrange(start, end);
    assert forall|i: int| #![trigger y[i]] 0 <= i < x.len() implies x[i].units <= y[i].units by {
        assert(b[start + i].units >= a[start + i].units);
    }
}

/// The heights that the cells before number `c` of a row leave to it.
proof fn lemma_region_holds(
    rows: Seq<TableRowInput>,
    entries: Seq<Seq<EntryView<'_>>>,
    r: int,
    c: int,
    cell: int,
    heights: Seq<Pt>,
    end: int,
    last: Seq<Pt>,
)
    requires
        0 <= r < rows.len() == heights.len(),
        0 <= cell <= c < rows[r].cells@.len(),
        rows[r].cells@[c].restarts_merge(),
        end == merge_end(rows, r + 1, entries[r][c].grid_col),
        end > r + 1,
        is_length(
            rows[r].cells@[c].margins.top.units + rows[r].cells@[c].margins.bottom.units,
        ),
        is_length(region_content(rows, entries, r, c)),
        forall|i: int| #![trigger heights[i]] 0 <= i < heights.len() ==> 0 <= heights[i].units,
        no_lower(expand_cells(rows, entries, r, cell, heights), last),
        summable(last.subrange(r, end)),
    ensures
        region_content(rows, entries, r, c) <= exact_sum(last.subrange(r, end), end - r),
    decreases c - cell,
{
    lemma_merge_end(rows, r + 1, entries[r][c].grid_col);
    lemma_cell_grows(rows, entries, r, cell, heights);
    let next = after_cell(rows, entries, r, cell, heights);
    let all = expand_cells(rows, entries, r, cell, heights);
    assert(all == expand_cells(rows, entries, r, cell + 1, next));
    if cell < c {
        assert forall|i: int| #![trigger next[i]] 0 <= i < next.len() implies 0
            <= next[i].units by {
            assert(heights[i].units <= next[i].units);
        }
        lemma_region_holds(rows, entries, r, c, cell + 1, next, end, last);
    } else {
        lemma_cells_grow(rows, entries, r, cell + 1, next);
        assert(no_lower(next, last)) by {
            assert forall|i: int| #![trigger last[i]] 0 <= i < next.len() implies next[i].units
                <= last[i].units by {
                assert(next[i].units <= all[i].units);
                assert(all[i].units <= last[i].units);
            }
        }
        assert(no_lower(heights, last)) by {
            assert forall|i: int| #![trigger last[i]] 0 <= i < heights.len() implies heights[i].units
                <= last[i].units by {
                assert(heights[i].units <= next[i].units);
            }
        }
        lemma_part_no_lower(heights, last, r, end);
        lemma_part_no_lower(next, last, r, end);
        lemma_sums_grow(heights.subrange(r, end), last.subrange(r, end), end - r);
        lemma_sums_grow(next.subrange(r, end), last.subrange(r, end), end - r);
        let part = heights.subrange(r, end);
        assert forall|i: int| #![trigger part[i]] 0 <= i < part.len() implies 0
            <= part[i].units by {
            assert(part[i] == heights[r + i]);
        }
        let content = entries[r][c].layout.content_height.plus(
            rows[r].cells@[c].margins.vertical(),
        );
        assert(content.units == region_content(rows, entries, r, c));
        law_merged_rows_make_up_the_content(heights, r, end, content);
    }
}

/// The height of a cell's content with the margins above and below it.
pub open spec fn region_content(
    rows: Seq<TableRowInput>,
    entries: Seq<Seq<EntryView<'_>>>,
    r: int,
    c: int,
) -> int {
    entries[r][c].layout.content_height.units + rows[r].cells@[c].margins.top.units
        + rows[r].cells@[c].margins.bottom.units
}

proof fn lemma_rows_hold(
    rows: Seq<TableRowInput>,
    entries: Seq<Seq<EntryView<'_>>>,
    row: int,
    heights: Seq<Pt>,
    r: int,
    c: int,
    end: int,
)
    requires
        0 <= row <= r < rows.len() == heights.len(),
        0 <= c < rows[r].cells@.len(),
        rows[r].cells@[c].restarts_merge(),
        end == merge_end(rows, r + 1, entries[r][c].grid_col),
        end > r + 1,
        is_length(
            rows[r].cells@[c].margins.top.units + rows[r].cells@[c].margins.bottom.units,
        ),
        is_length(region_content(rows, entries, r, c)),
        forall|i: int| #![trigger heights[i]] 0 <= i < heights.len() ==> 0 <= heights[i].units,
        summable(expand_rows(rows, entries, row, heights).subrange(r, end)),
    ensures
        region_content(rows, entries, r, c) <= exact_sum(
            expand_rows(rows, entries, row, heights).subrange(r, end),
            end - r,
        ),
    decreases r - row,
{
    let next = expand_cells(rows, entries, row, 0, heights);
    lemma_cells_grow(rows, entries, row, 0, heights);
    let last = expand_rows(rows, entries, row, heights);
    assert(last == expand_rows(rows, entries, row + 1, next));
    if row < r {
        assert forall|i: int| #![trigger next[i]] 0 <= i < next.len() implies 0
            <= next[i].units by {
            assert(heights[i].units <= next[i].units);
        }
        lemma_rows_hold(rows, entries, row + 1, next, r, c, end);
    } else {
        lemma_rows_grow(rows, entries, row + 1, next);
        lemma_region_holds(rows, entries, r, c, 0, heights, end, last);
    }
}

/// The rows of a merged region are together at least as high as the content of the cell that the region
/// starts with, with the cell's margins; and no row is lower than it would be without merged regions.
pub proof fn law_merged_regions_hold_their_content(
    rows: Seq<TableRowInput>,
    entries: Seq<Seq<EntryView<'_>>>,
    spacing: Pt,
    r: int,
    c: int,
) -> (end: int)
    requires
        0 <= r < rows.len(),
        0 <= c < rows[r].cells@.len(),
        rows[r].cells@[c].restarts_merge(),
        is_length(
            rows[r].cells@[c].margins.top.units + rows[r].cells@[c].margins.bottom.units,
        ),
        is_length(region_content(rows, entries, r, c)),
        forall|i: int| #![trigger base_height(rows, i, entries[i], spacing)]
            0 <= i < rows.len() ==> 0 <= base_height(rows, i, entries[i], spacing).units,
        summable(row_heights(rows, entries, spacing)),
    ensures
        ({
            let heights = row_heights(rows, entries, spacing);
            &&& r < end <= rows.len()
            &&& end == rows.len() || !merge_continues(rows[end], entries[r][c].grid_col)
            &&& end > r + 1 ==> region_content(rows, entries, r, c) <= exact_sum(
                heights.subrange(r, end),
                end - r,
            )
            &&& base_height(rows, r, entries[r], spacing).units <= heights[r].units
        }),
{
    let base = Seq::new(rows.len(), |i: int| base_height(rows, i, entries[i], spacing));
    let grid_col = entries[r][c].grid_col;
    let end = merge_end(rows, r + 1, grid_col);
    lemma_merge_end(rows, r + 1, grid_col);
    lemma_merge_stops(rows, r + 1, grid_col);
    lemma_rows_grow(rows, entries, 0, base);
    let heights = row_heights(rows, entries, spacing);
    assert(heights == expand_rows(rows, entries, 0, base));
    assert(base[r].units <= heights[r].units);
    if end > r + 1 {
        let part = heights.subrange(r, end);
        assert forall|i: int| #![trigger part[i]] 0 <= i < part.len() implies 0
            <= part[i].units by {
            assert(part[i] == heights[r + i]);
        }
        lemma_sum_of_part(heights, r, end);
        lemma_rows_hold(rows, entries, 0, base, r, c, end);
    }
    end
}

proof fn lemma_merge_stops(rows: Seq<TableRowInput>, r: int, grid_col: usize)
    requires
        0 <= r <= rows.len(),
    ensures
        merge_end(rows, r, grid_col) == rows.len() || !merge_continues(
            rows[merge_end(rows, r, grid_col)],
            grid_col,
        ),
    decreases rows.len() - r,
{
    if r < rows.len() && merge_continues(rows[r], grid_col) {
        lemma_merge_stops(rows, r + 1, grid_col);
    }
}

proof fn lemma_sum_of_part(s: Seq<Pt>, start: int, end: int)
    requires
        summable(s),
        0 <= start <= end <= s.len(),
    ensures
        exact_sum(s.subrange(start, end), end - start) == exact_sum(s, end) - exact_sum(s, start),
        exact_sum(s.subrange(start, end), end - start) <= i64::MAX,
    decreases end - start,
{
    lemma_exact_sum(s, end);
    lemma_exact_sum(s, start);
    if start < end {
        lemma_sum_of_part(s, start, end - 1);
        let x = s.subrange(start, end);
        let y = s.subrange(start, end - 1);
        lemma_same_sum(x, y, end - 1 - start);
        assert(x[end - start - 1] == s[end - 1]);
    }
}

proof fn lemma_same_sum(x: Seq<Pt>, y: Seq<Pt>, n: int)
    requires
        n <= x.len(),
        n <= y.len(),
        forall|i: int| #![trigger x[i]] 0 <= i < n ==> x[i] == y[i],
    ensures
        exact_sum(x, n) == exact_sum(y, n),
    decreases n,
{
    if n > 0 {
        lemma_same_sum(x, y, n - 1);
        assert(x[n - 1] == y[n - 1]);
    }
}

} // verus!
