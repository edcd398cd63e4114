//! Laying out tables, as a whole and divided between pages.
use crate::block::{LayoutFootnote, TableBorderConfig, TableBorderLine, TableRowInput};
use crate::dimension::Pt;
use crate::draw_command::DrawCommand;
use crate::geometry::PtSize;
use crate::table::emit::{
    emit_one_row, emit_table_rows, lemma_drawn_height, with_cells, with_rows, Drawing, Layers,
    RowDrawing, TableCommandBuffers,
};
use crate::table::footnotes::{
    append_measured_range_footnotes, append_measured_row_footnotes, cells_footnotes,
    measure_table_notes, measured_range_footnote_height, noted_rows, range_footnotes,
};
use crate::table::grid::{group_end, row_group_end};
use crate::table::measure::{
    draw_table, lemma_table_layout, measure_table_rows, measured_table, table_consistent,
    table_layout, TableFormat, TableLayout,
};
use crate::table::paginate::{
    count_header_rows, header_rows_from, items_are_sound, items_view, plan_slices, slices_view,
    table_slices, ItemView, PageHeights, Paging, PagingInput, SliceItem,
};
use crate::table::types::{measured_rows_height, rows_height, rows_view, MeasuredRowView};
use vstd::prelude::*;
use vstd::slice::slice_subrange;

verus! {

/// The height of a table that is laid out as a whole; none where there is nothing
/// to lay out.
pub open spec fn complete_height(rows: Seq<TableRowInput>, format: TableFormat) -> Option<Pt> {
    if rows.len() == 0 || format.col_widths.len() == 0 {
        None
    } else {
        Some(
            rows_height(measured_table(rows, format).rows, 0, rows.len() as int, Pt::zero()).plus(
                format.cell_spacing,
            ),
        )
    }
}

/// The height of the rows that stay together at the top of a table; none where
/// there is nothing to lay out.
pub open spec fn leading_group_height(rows: Seq<TableRowInput>, format: TableFormat) -> Option<Pt> {
    if rows.len() == 0 || format.col_widths.len() == 0 {
        None
    } else {
        let end = group_end(rows, 0);
        let seen = if end + 1 < rows.len() {
            end + 1
        } else {
            rows.len() as int
        };
        Some(
            rows_height(
                measured_table(rows.subrange(0, seen), format).rows,
                0,
                end,
                Pt::zero(),
            ),
        )
    }
}

/// Measure the first group of rows that stay together, without drawing anything.
///
/// The row after the group is looked at for the border that it shares with the
/// group, and nothing beyond it.
pub fn measure_leading_table_group_height(
    rows: &[TableRowInput],
    col_widths: &[Pt],
    cell_spacing: Pt,
    default_line_height: Pt,
    borders: Option<TableBorderConfig>,
    suppress_first_row_top: bool,
) -> (r: Option<Pt>)
    ensures
        r == leading_group_height(
            rows@,
            (TableFormat {
                col_widths: col_widths@,
                cell_spacing,
                default_line_height,
                borders,
                suppress_first_row_top,
            }),
        ),
{
    if rows.len() == 0 || col_widths.len() == 0 {
        return None;
    }
    let end: usize = row_group_end(rows, 0);
    let count: usize = rows.len();
    let seen: usize = if end < count {
        end + 1
    } else {
        count
    };
    let measured = measure_table_rows(
        slice_subrange(rows, 0, seen),
        col_widths,
        cell_spacing,
        default_line_height,
        borders,
        suppress_first_row_top,
    );
    Some(measured_rows_height(measured.rows.as_slice(), 0, end))
}

/// Measure a table that is laid out as a whole, without drawing anything.
pub fn measure_complete_table_height(
    rows: &[TableRowInput],
    col_widths: &[Pt],
    cell_spacing: Pt,
    default_line_height: Pt,
    borders: Option<TableBorderConfig>,
    suppress_first_row_top: bool,
) -> (r: Option<Pt>)
    ensures
        r == complete_height(
            rows@,
            (TableFormat {
                col_widths: col_widths@,
                cell_spacing,
                default_line_height,
                borders,
                suppress_first_row_top,
            }),
        ),
{
    if rows.len() == 0 || col_widths.len() == 0 {
        return None;
    }
    let measured = measure_table_rows(
        rows,
        col_widths,
        cell_spacing,
        default_line_height,
        borders,
        suppress_first_row_top,
    );
    Some(measured_rows_height(measured.rows.as_slice(), 0, rows.len()).plus(cell_spacing))
}

/// A table that is measured has the height that it has when it is laid out.
pub proof fn law_complete_height_is_the_laid_out_height(
    rows: Seq<TableRowInput>,
    format: TableFormat,
)
    ensures
        match complete_height(rows, format) {
            Some(height) => height == table_layout(rows, format).size.height,
            None => table_layout(rows, format).size == PtSize::zero(),
        },
{
    lemma_table_layout(rows, format);
    if rows.len() > 0 && format.col_widths.len() > 0 {
        lemma_drawn_height(
            Drawing { layers: Layers::empty(), y: Pt::zero() },
            measured_table(rows, format).rows,
            rows,
            0,
            0,
            rows.len() as int,
            None,
        );
    }
}

/// Lay out a table as a whole.
///
/// `suppress_first_row_top` leaves out the top border of the first row, for a table
/// right below another one of the same style.
///
/// The floating objects of the paragraphs in a cell are drawn at their places in the cell. Text
/// does not run around them there.
pub fn layout_table(
    rows: &[TableRowInput],
    col_widths: &[Pt],
    cell_spacing: Pt,
    default_line_height: Pt,
    borders: Option<TableBorderConfig>,
    suppress_first_row_top: bool,
) -> (r: TableLayout)
    ensures
        r@ == table_layout(
            rows@,
            (TableFormat {
                col_widths: col_widths@,
                cell_spacing,
                default_line_height,
                borders,
                suppress_first_row_top,
            }),
        ),
{
    proof {
        lemma_table_layout(
            rows@,
            TableFormat {
                col_widths: col_widths@,
                cell_spacing,
                default_line_height,
                borders,
                suppress_first_row_top,
            },
        );
    }
    if rows.len() == 0 || col_widths.len() == 0 {
        let none = TableLayout { commands: Vec::new(), size: PtSize::zero() };
        assert(none.commands@ =~= Seq::empty());
        return none;
    }
    let measured = measure_table_rows(
        rows,
        col_widths,
        cell_spacing,
        default_line_height,
        borders,
        suppress_first_row_top,
    );
    draw_table(&measured, rows, cell_spacing)
}

/// The part of a table that stands on one page.
#[derive(Debug)]
pub struct TableSlice<'a> {
    /// Commands relative to the top left corner of the part.
    pub commands: Vec<DrawCommand>,
    pub size: PtSize,
    /// The footnotes that the part refers to.
    pub footnotes: Vec<&'a LayoutFootnote>,
}

/// The mathematical value of a [`TableSlice`].
#[verifier::ext_equal]
pub struct SliceView<'a> {
    pub commands: Seq<DrawCommand>,
    pub size: PtSize,
    pub footnotes: Seq<&'a LayoutFootnote>,
}

impl<'a> View for TableSlice<'a> {
    type V = SliceView<'a>;

    open spec fn view(&self) -> SliceView<'a> {
        SliceView { commands: self.commands@, size: self.size, footnotes: self.footnotes@ }
    }
}

/// The values of a list of parts.
pub open spec fn table_slices_view<'a>(slices: Seq<TableSlice<'a>>) -> Seq<SliceView<'a>> {
    Seq::new(slices.len(), |i: int| slices[i]@)
}

/// How a table is divided between pages.
#[derive(Clone, Copy, Debug)]
pub struct TablePaginationConfig {
    /// The room on the first page.
    pub available_height: Pt,
    /// The height of the pages after it.
    pub page_height: Pt,
    /// Whether to leave out the top border of the first row.
    pub suppress_first_row_top: bool,
}

/// How a table is divided between pages of different heights.
#[derive(Clone, Copy, Debug)]
pub struct TablePaginationHeights<'h> {
    /// The room on the first page.
    pub available_height: Pt,
    pub suppress_first_row_top: bool,
    /// The heights of the pages.
    pub page_heights: PageHeights<'h>,
    /// The width in which footnotes are laid out. Without it they take no room.
    pub footnote_width: Option<Pt>,
    /// The height of the separator above a page's footnotes.
    pub footnote_separator_height: Pt,
    /// Whether there are footnotes on the first page already.
    pub first_page_has_footnotes: bool,
}

/// Items drawn one below another, and the footnotes that they refer to.
#[verifier::ext_equal]
pub struct SliceDrawing<'a> {
    pub drawing: Drawing,
    pub footnotes: Seq<&'a LayoutFootnote>,
}

/// The border that item `i` of part `slice` shows at its top where its own edge
/// says nothing: at the top of each part but the first, that of the table.
pub open spec fn restored_border(
    outer: Option<TableBorderLine>,
    slice: int,
    i: int,
) -> Option<TableBorderLine> {
    if slice > 0 && i == 0 {
        outer
    } else {
        None
    }
}

/// The items of part `slice` from number `i` on drawn below `d`. The footnotes of
/// repeated rows are not repeated.
pub open spec fn drawn_items<'a>(
    d: SliceDrawing<'a>,
    p: Paging<'a, '_>,
    outer: Option<TableBorderLine>,
    items: Seq<ItemView<'a>>,
    slice: int,
    i: int,
) -> SliceDrawing<'a>
    decreases items.len() - i,
{
    if i < 0 || i >= items.len() {
        d
    } else {
        drawn_items(drawn_item(d, p, outer, items, slice, i), p, outer, items, slice, i + 1)
    }
}

/// Item `i` of part `slice` drawn below `d`.
pub open spec fn drawn_item<'a>(
    d: SliceDrawing<'a>,
    p: Paging<'a, '_>,
    outer: Option<TableBorderLine>,
    items: Seq<ItemView<'a>>,
    slice: int,
    i: int,
) -> SliceDrawing<'a> {
    match items[i] {
        ItemView::Range { start, end } => SliceDrawing {
            drawing: with_rows(
                d.drawing,
                p.measured,
                p.rows,
                start,
                start,
                end,
                restored_border(outer, slice, i),
            ),
            footnotes: range_footnotes(p.measured, start, end, d.footnotes),
        },
        ItemView::Header => SliceDrawing {
            drawing: with_rows(
                d.drawing,
                p.measured,
                p.rows,
                0,
                0,
                p.header_count,
                restored_border(outer, slice, i),
            ),
            footnotes: d.footnotes,
        },
        ItemView::Split { row, part } => drawn_part(d, p, outer, row, part, slice, i, items.len()),
        ItemView::Continuation { row, part } => drawn_part(
            d,
            p,
            outer,
            row,
            part,
            slice,
            i,
            items.len(),
        ),
    }
}

/// A part of a row drawn below `d`. There is room for its bottom border only if
/// something follows it on the page.
pub open spec fn drawn_part<'a>(
    d: SliceDrawing<'a>,
    p: Paging<'a, '_>,
    outer: Option<TableBorderLine>,
    row: int,
    part: MeasuredRowView<'a>,
    slice: int,
    i: int,
    count: nat,
) -> SliceDrawing<'a> {
    SliceDrawing {
        drawing: Drawing {
            layers: with_cells(
                d.drawing.layers,
                RowDrawing {
                    measured: part,
                    row: p.rows[row],
                    y: d.drawing.y,
                    restored_top: restored_border(outer, slice, i),
                    gap_below: i + 1 < count,
                    scope: None,
                },
                0,
            ),
            y: d.drawing.y.plus(part.full_height()),
        },
        footnotes: cells_footnotes(part.entries, 0, d.footnotes),
    }
}

/// Part `slice` of a table drawn. The last one has one more cell spacing below it.
pub open spec fn drawn_slice<'a>(
    p: Paging<'a, '_>,
    outer: Option<TableBorderLine>,
    slices: Seq<Seq<ItemView<'a>>>,
    slice: int,
    table_width: Pt,
    cell_spacing: Pt,
) -> SliceView<'a> {
    let d = drawn_items(
        SliceDrawing {
            drawing: Drawing { layers: Layers::empty(), y: Pt::zero() },
            footnotes: Seq::empty(),
        },
        p,
        outer,
        slices[slice],
        slice,
        0,
    );
    SliceView {
        commands: d.drawing.layers.flattened(),
        size: PtSize {
            width: table_width,
            height: d.drawing.y.plus(
                if slice + 1 == slices.len() {
                    cell_spacing
                } else {
                    Pt::zero()
                },
            ),
        },
        footnotes: d.footnotes,
    }
}

/// A table as it is divided between pages.
pub open spec fn table_paging<'a, 'h>(
    rows: Seq<TableRowInput>,
    format: TableFormat,
    pagination: TablePaginationHeights<'h>,
) -> Paging<'a, 'h> {
    let measured = measured_table(rows, format).rows;
    Paging {
        rows,
        measured: match pagination.footnote_width {
            Some(width) => noted_rows(measured, width, format.default_line_height),
            None => measured,
        },
        header_count: header_rows_from(rows, 0),
        heights: pagination.page_heights,
        separator: pagination.footnote_separator_height,
    }
}

/// The parts of a table that is divided between pages.
pub open spec fn paginated_table<'a>(
    rows: Seq<TableRowInput>,
    format: TableFormat,
    pagination: TablePaginationHeights<'_>,
) -> Seq<SliceView<'a>> {
    if rows.len() == 0 || format.col_widths.len() == 0 {
        seq![
            SliceView {
                commands: Seq::empty(),
                size: PtSize::zero(),
                footnotes: Seq::empty(),
            },
        ]
    } else {
        let p = table_paging(rows, format, pagination);
        let slices = table_slices(
            p,
            pagination.available_height,
            pagination.first_page_has_footnotes,
        );
        Seq::new(
            slices.len(),
            |i: int|
                drawn_slice(
                    p,
                    match format.borders {
                        Some(b) => b.top,
                        None => None,
                    },
                    slices,
                    i,
                    measured_table(rows, format).table_width,
                    format.cell_spacing,
                ),
        )
    }
}

fn draw_slice<'a>(
    p: &PagingInput<'_, 'a, '_>,
    outer: Option<TableBorderLine>,
    items: &Vec<SliceItem<'a>>,
    slice_idx: usize,
    is_last: bool,
    table_width: Pt,
    cell_spacing: Pt,
    Ghost(slices): Ghost<Seq<Seq<ItemView<'a>>>>,
) -> (r: TableSlice<'a>)
    requires
        p.sound(),
        0 <= slice_idx < slices.len(),
        slices[slice_idx as int] == items_view(items@),
        items_are_sound(items_view(items@), p@.rows),
        is_last == (slice_idx + 1 == slices.len()),
    ensures
        r@ == drawn_slice(p@, outer, slices, slice_idx as int, table_width, cell_spacing),
{
    let mut bufs = TableCommandBuffers::new();
    let mut footnotes: Vec<&'a LayoutFootnote> = Vec::new();
    let mut cursor_y = Pt::zero();
    let ghost all = items_view(items@);
    let ghost start = SliceDrawing {
        drawing: Drawing { layers: Layers::empty(), y: Pt::zero() },
        footnotes: Seq::empty(),
    };
    assert(footnotes@ =~= start.footnotes);
    let count: usize = items.len();
    let mut i: usize = 0;
    while i < count
        invariant
            i <= count,
            count == items@.len(),
            p.sound(),
            all == items_view(items@),
            items_are_sound(all, p@.rows),
            drawn_items(
                SliceDrawing {
                    drawing: Drawing { layers: bufs@, y: cursor_y },
                    footnotes: footnotes@,
                },
                p@,
                outer,
                all,
                slice_idx as int,
                i as int,
            ) == drawn_items(start, p@, outer, all, slice_idx as int, 0),
        decreases count - i,
    {
        let restored = if slice_idx > 0 && i == 0 {
            outer
        } else {
            None
        };
        assert(all[i as int] == items@[i as int]@);
        match &items[i] {
            SliceItem::Range { start, end } => {
                append_measured_range_footnotes(p.measured, *start, *end, &mut footnotes);
                emit_table_rows(
                    p.measured,
                    p.rows,
                    *start,
                    *end,
                    &mut cursor_y,
                    &mut bufs,
                    restored,
                );
            },
            SliceItem::Header => {
                emit_table_rows(
                    p.measured,
                    p.rows,
                    0,
                    p.header_count,
                    &mut cursor_y,
                    &mut bufs,
                    restored,
                );
            },
            SliceItem::Split { row_idx, mr } => {
                append_measured_row_footnotes(mr, &mut footnotes);
                emit_one_row(
                    mr,
                    &p.rows[*row_idx],
                    &mut cursor_y,
                    &mut bufs,
                    restored,
                    i + 1 < count,
                    None,
                );
            },
            SliceItem::Continuation { row_idx, mr } => {
                append_measured_row_footnotes(mr, &mut footnotes);
                emit_one_row(
                    mr,
                    &p.rows[*row_idx],
                    &mut cursor_y,
                    &mut bufs,
                    restored,
                    i + 1 < count,
                    None,
                );
            },
        }
        i += 1;
    }
    let trailing_gap = if is_last {
        cell_spacing
    } else {
        Pt::zero()
    };
    let commands = bufs.flatten();
    TableSlice {
        commands,
        size: PtSize::new(table_width, cursor_y.plus(trailing_gap)),
        footnotes,
    }
}

/// Lay out a table divided between pages of different heights.
pub fn layout_table_paginated_with_page_heights<'a>(
    rows: &'a [TableRowInput],
    col_widths: &[Pt],
    cell_spacing: Pt,
    default_line_height: Pt,
    borders: Option<TableBorderConfig>,
    pagination: &TablePaginationHeights<'_>,
) -> (r: Vec<TableSlice<'a>>)
    ensures
        table_slices_view(r@) == paginated_table(
            rows@,
            (TableFormat {
                col_widths: col_widths@,
                cell_spacing,
                default_line_height,
                borders,
                suppress_first_row_top: pagination.suppress_first_row_top,
            }),
            *pagination,
        ),
{
    let ghost format = TableFormat {
        col_widths: col_widths@,
        cell_spacing,
        default_line_height,
        borders,
        suppress_first_row_top: pagination.suppress_first_row_top,
    };
    let mut result: Vec<TableSlice<'a>> = Vec::new();
    if rows.len() == 0 || col_widths.len() == 0 {
        let none = TableSlice {
            commands: Vec::new(),
            size: PtSize::zero(),
            footnotes: Vec::new(),
        };
        assert(none@ =~= (SliceView {
            commands: Seq::empty(),
            size: PtSize::zero(),
            footnotes: Seq::empty(),
        }));
        result.push(none);
        assert(table_slices_view(result@) =~= paginated_table(rows@, format, *pagination));
        return result;
    }
    let mut measured = measure_table_rows(
        rows,
        col_widths,
        cell_spacing,
        default_line_height,
        borders,
        pagination.suppress_first_row_top,
    );
    if let Some(width) = pagination.footnote_width {
        let ghost before = rows_view(measured.rows@);
        measure_table_notes(&mut measured.rows, width, default_line_height);
        proof {
            lemma_noted_rows_consistent(before, rows@, width, default_line_height);
        }
    }
    let header_count: usize = count_header_rows(rows);
    let header_height = measured_rows_height(measured.rows.as_slice(), 0, header_count);
    let header_notes = measured_range_footnote_height(measured.rows.as_slice(), 0, header_count);
    let p = PagingInput {
        rows,
        measured: measured.rows.as_slice(),
        header_count,
        header_height,
        header_notes,
        heights: pagination.page_heights,
        separator: pagination.footnote_separator_height,
    };
    assert(p@ == table_paging(rows@, format, *pagination));
    let outer = match borders {
        Some(b) => b.top,
        None => None,
    };
    let slices = plan_slices(&p, pagination.available_height, pagination.first_page_has_footnotes);
    let ghost all = slices_view(slices@);
    let ghost wanted = paginated_table(rows@, format, *pagination);
    let count: usize = slices.len();
    let mut i: usize = 0;
    while i < count
        invariant
            i <= count,
            count == slices@.len(),
            p.sound(),
            all == slices_view(slices@),
            forall|k: int| #![trigger all[k]]
                0 <= k < all.len() ==> items_are_sound(all[k], p@.rows),
            wanted.len() == all.len(),
            forall|k: int| #![trigger wanted[k]]
                0 <= k < wanted.len() ==> wanted[k] == drawn_slice(
                    p@,
                    outer,
                    all,
                    k,
                    measured.table_width,
                    cell_spacing,
                ),
            result@.len() == i,
            forall|k: int| #![trigger result@[k]] 0 <= k < i ==> result@[k]@ == wanted[k],
        decreases count - i,
    {
        assert(all[i as int] == items_view(slices@[i as int]@));
        let drawn = draw_slice(
            &p,
            outer,
            &slices[i],
            i,
            i + 1 == count,
            measured.table_width,
            cell_spacing,
            Ghost(all),
        );
        assert(drawn@ == wanted[i as int]);
        result.push(drawn);
        i += 1;
    }
    assert(table_slices_view(result@) =~= wanted);
    result
}

proof fn lemma_noted_rows_consistent(
    measured: Seq<MeasuredRowView<'_>>,
    rows: Seq<TableRowInput>,
    width: Pt,
    default_line_height: Pt,
)
    requires
        table_consistent(measured, rows),
    ensures
        table_consistent(noted_rows(measured, width, default_line_height), rows),
{
    let noted = noted_rows(measured, width, default_line_height);
    assert forall|i: int| #![trigger rows[i]] 0 <= i < rows.len() implies crate::table::emit::row_fits(
        noted[i],
        rows[i],
    ) by {
        assert(crate::table::emit::row_fits(measured[i], rows[i]));
    }
    assert forall|r: int| #![trigger noted[r]] 0 <= r < noted.len() implies
        crate::table::measure::entries_consistent(noted[r].entries) by {
        let before = measured[r].entries;
        let after = noted[r].entries;
        assert(crate::table::measure::entries_consistent(before));
        assert forall|c: int| #![trigger after[c]] 0 <= c < after.len() implies
            crate::table::cell::cell_consistent(
            after[c].layout.commands,
            after[c].layout.lines,
            after[c].layout.footnotes,
        ) by {
            let own = before[c].layout;
            assert forall|k: int| #![trigger after[c].layout.footnotes[k]]
                0 <= k < after[c].layout.footnotes.len() implies
                after[c].layout.footnotes[k].line < after[c].layout.lines.len() by {
                assert(own.footnotes[k].line < own.lines.len());
            }
        }
    }
}

/// Lay out a table divided between pages, at row boundaries where it can be.
///
/// Header rows are repeated on each page, and rows that ask for it are not
/// divided. Returns one part for each page.
pub fn layout_table_paginated<'a>(
    rows: &'a [TableRowInput],
    col_widths: &[Pt],
    cell_spacing: Pt,
    default_line_height: Pt,
    borders: Option<TableBorderConfig>,
    pagination: &TablePaginationConfig,
) -> (r: Vec<TableSlice<'a>>)
    ensures
        table_slices_view(r@) == paginated_table(
            rows@,
            (TableFormat {
                col_widths: col_widths@,
                cell_spacing,
                default_line_height,
                borders,
                suppress_first_row_top: pagination.suppress_first_row_top,
            }),
            (TablePaginationHeights {
                available_height: pagination.available_height,
                suppress_first_row_top: pagination.suppress_first_row_top,
                page_heights: PageHeights::Uniform(pagination.page_height),
                footnote_width: None,
                footnote_separator_height: Pt::zero(),
                first_page_has_footnotes: false,
            }),
        ),
{
    layout_table_paginated_with_page_heights(
        rows,
        col_widths,
        cell_spacing,
        default_line_height,
        borders,
        &TablePaginationHeights {
            available_height: pagination.available_height,
            suppress_first_row_top: pagination.suppress_first_row_top,
            page_heights: PageHeights::Uniform(pagination.page_height),
            footnote_width: None,
            footnote_separator_height: Pt::zero(),
            first_page_has_footnotes: false,
        },
    )
}

} // verus!
