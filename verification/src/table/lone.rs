//! A merged region of one row is an ordinary cell.
use crate::block::{TableBorderConfig, TableCellInput, TableRowInput};
use crate::dimension::Pt;
use crate::table::borders::{CellBorders, CellEdge};
use crate::table::edges::{
    can_own, drawn_above, edge_winners, initial_cell_borders, initial_row_borders, join_cells,
    joined_bottom, joined_top, row_settled_borders, row_start_borders, run_end, run_exists,
    run_is_uniform, runs_into_next_row, settled_lower, settled_upper, winners_below,
};
use crate::table::emit::{
    row_drawing, span_height_from, with_cell, with_cells, with_rows, Drawing, Layers, MergeScope,
};
use crate::table::fits::lemma_cell_index_bounds;
use crate::table::grid::{
    cell_index, cell_index_from, expand_cells, expand_rows, grid_start, merge_continues, merge_end,
};
use crate::table::measure::{
    all_entries, base_height, borders_of_row, counts_in_row, entry, lemma_all_entries,
    lemma_entry, lemma_measured_table, lemma_row_entries, lemma_table_layout, measured_table,
    row_entries, row_heights, table_layout, tallest_content, widest_margins, TableFormat,
};
use crate::table::types::{EntryView, MeasuredRowView};
use vstd::prelude::*;

verus! {

/// Whether two cells differ in nothing but how they are merged.
pub open spec fn cells_agree(a: TableCellInput, b: TableCellInput) -> bool {
    &&& a.blocks == b.blocks
    &&& a.margins == b.margins
    &&& a.grid_span == b.grid_span
    &&& a.shading == b.shading
    &&& a.cell_borders == b.cell_borders
    &&& a.vertical_align == b.vertical_align
}

/// Whether two rows differ in nothing but how their cells are merged, and the same of their cells go on
/// with a region above.
pub open spec fn rows_agree(a: TableRowInput, b: TableRowInput) -> bool {
    &&& a.height_rule == b.height_rule
    &&& a.is_header == b.is_header
    &&& a.cant_split == b.cant_split
    &&& a.grid_before == b.grid_before
    &&& a.border_overrides == b.border_overrides
    &&& a.cells@.len() == b.cells@.len()
    &&& forall|c: int| #![trigger a.cells@[c]]
        0 <= c < a.cells@.len() ==> cells_agree(a.cells@[c], b.cells@[c])
            && a.cells@[c].continues_merge() == b.cells@[c].continues_merge()
}

/// Whether a merged region starts in a cell and ends in the same row.
pub open spec fn is_lone(rows: Seq<TableRowInput>, r: int, c: int) -> bool {
    rows[r].cells@[c].restarts_merge() && !runs_into_next_row(rows, r, grid_start(rows[r], c))
}

/// Whether two tables differ in nothing but cells of `rows` that are merged with no other, and are
/// ordinary cells of `other`.
pub open spec fn differ_in_lone_merges(
    rows: Seq<TableRowInput>,
    other: Seq<TableRowInput>,
) -> bool {
    &&& rows.len() == other.len()
    &&& forall|r: int| #![trigger rows[r]] 0 <= r < rows.len() ==> rows_agree(rows[r], other[r])
    &&& forall|r: int, c: int| #![trigger rows[r].cells@[c]]
        0 <= r < rows.len() && 0 <= c < rows[r].cells@.len() ==> rows[r].cells@[c].vertical_merge
            == other[r].cells@[c].vertical_merge || (is_lone(rows, r, c)
            && other[r].cells@[c].vertical_merge is None)
}

proof fn lemma_grid_start(a: TableRowInput, b: TableRowInput, i: int)
    requires
        rows_agree(a, b),
        i <= a.cells@.len(),
    ensures
        grid_start(a, i) == grid_start(b, i),
    decreases i,
{
    if i > 0 {
        lemma_grid_start(a, b, i - 1);
        assert(cells_agree(a.cells@[i - 1], b.cells@[i - 1]));
    }
}

proof fn lemma_cell_index_from(
    a: TableRowInput,
    b: TableRowInput,
    i: int,
    col: usize,
    target: usize,
)
    requires
        rows_agree(a, b),
        0 <= i,
    ensures
        cell_index_from(a, i, col, target) == cell_index_from(b, i, col, target),
    decreases a.cells@.len() - i,
{
    if i < a.cells@.len() {
        assert(cells_agree(a.cells@[i], b.cells@[i]));
        lemma_cell_index_from(a, b, i + 1, col.saturating_add(a.cells@[i].span()), target);
    }
}

proof fn lemma_cell_index(a: TableRowInput, b: TableRowInput, target: usize)
    requires
        rows_agree(a, b),
    ensures
        cell_index(a, target) == cell_index(b, target),
        merge_continues(a, target) == merge_continues(b, target),
        cell_index(a, target) matches Some(i) ==> 0 <= i < a.cells@.len(),
{
    lemma_cell_index_from(a, b, 0, a.grid_before as usize, target);
    lemma_cell_index_bounds(a, 0, a.grid_before as usize, target);
    if let Some(i) = cell_index(a, target) {
        assert(cells_agree(a.cells@[i], b.cells@[i]));
    }
}

/// Whether tables agree row by row.
spec fn tables_agree(rows: Seq<TableRowInput>, other: Seq<TableRowInput>) -> bool {
    &&& rows.len() == other.len()
    &&& forall|r: int| #![trigger rows[r]] 0 <= r < rows.len() ==> rows_agree(rows[r], other[r])
}

proof fn lemma_runs_into_next_row(
    rows: Seq<TableRowInput>,
    other: Seq<TableRowInput>,
    r: int,
    grid_col: usize,
)
    requires
        tables_agree(rows, other),
        0 <= r < rows.len(),
    ensures
        runs_into_next_row(rows, r, grid_col) == runs_into_next_row(other, r, grid_col),
{
    if r + 1 < rows.len() {
        lemma_cell_index(rows[r + 1], other[r + 1], grid_col);
    }
}

proof fn lemma_start_borders(
    rows: Seq<TableRowInput>,
    other: Seq<TableRowInput>,
    r: int,
    borders: Option<TableBorderConfig>,
    ncols: int,
    collapse: bool,
)
    requires
        tables_agree(rows, other),
        0 <= r < rows.len(),
    ensures
        row_start_borders(rows, r, borders, ncols, collapse) == row_start_borders(
            other,
            r,
            borders,
            ncols,
            collapse,
        ),
        row_start_borders(rows, r, borders, ncols, collapse).len() == rows[r].cells@.len(),
{
    reveal(initial_row_borders);
    reveal(join_cells);
    assert(rows_agree(rows[r], other[r]));
    assert forall|c: int| 0 <= c < rows[r].cells@.len() implies initial_cell_borders(
        rows,
        r,
        c,
        borders,
        ncols,
    ) == initial_cell_borders(other, r, c, borders, ncols) by {
        assert(cells_agree(rows[r].cells@[c], other[r].cells@[c]));
        lemma_grid_start(rows[r], other[r], c);
        lemma_runs_into_next_row(rows, other, r, grid_start(rows[r], c));
    }
    assert(initial_row_borders(rows, r, borders, ncols) =~= initial_row_borders(
        other,
        r,
        borders,
        ncols,
    ));
}

proof fn lemma_winners(
    rows: Seq<TableRowInput>,
    other: Seq<TableRowInput>,
    r: int,
    borders: Option<TableBorderConfig>,
    ncols: int,
)
    requires
        tables_agree(rows, other),
        0 <= r,
        r + 1 < rows.len(),
    ensures
        winners_below(rows, r, borders, ncols) == winners_below(other, r, borders, ncols),
{
    reveal(edge_winners);
    lemma_start_borders(rows, other, r, borders, ncols, true);
    lemma_start_borders(rows, other, r + 1, borders, ncols, true);
    assert(rows_agree(rows[r], other[r]));
    assert(rows_agree(rows[r + 1], other[r + 1]));
    assert forall|t: usize| #[trigger] cell_index(rows[r], t) == cell_index(other[r], t) by {
        lemma_cell_index(rows[r], other[r], t);
    }
    assert forall|t: usize| #[trigger] cell_index(rows[r + 1], t) == cell_index(other[r + 1], t) by {
        lemma_cell_index(rows[r + 1], other[r + 1], t);
    }
    assert(winners_below(rows, r, borders, ncols) =~= winners_below(other, r, borders, ncols));
}

proof fn lemma_run(a: TableRowInput, b: TableRowInput, c: int, winners: Seq<CellEdge>)
    requires
        rows_agree(a, b),
        0 <= c < a.cells@.len(),
    ensures
        grid_start(a, c) == grid_start(b, c),
        run_end(a, c, winners.len() as int) == run_end(b, c, winners.len() as int),
        run_exists(a, c, winners.len() as int) == run_exists(b, c, winners.len() as int),
        run_is_uniform(a, c, winners) == run_is_uniform(b, c, winners),
{
    reveal(run_is_uniform);
    lemma_grid_start(a, b, c);
    assert(cells_agree(a.cells@[c], b.cells@[c]));
}

/// One way of [`lemma_can_own`].
proof fn lemma_can_own_too(a: TableRowInput, b: TableRowInput, winners: Seq<CellEdge>)
    requires
        rows_agree(a, b),
        winners.len() <= usize::MAX,
        can_own(a, winners),
    ensures
        can_own(b, winners),
{
    assert forall|gc: int| 0 <= gc < winners.len() implies (#[trigger] winners[gc]).line() is None
        || cell_index(b, gc as usize) is Some by {
        lemma_cell_index(a, b, gc as usize);
    }
    assert forall|c: int| #![trigger b.cells@[c]] 0 <= c < b.cells@.len() implies !run_exists(
        b,
        c,
        winners.len() as int,
    ) || run_is_uniform(b, c, winners) by {
        lemma_run(a, b, c, winners);
        assert(cells_agree(a.cells@[c], b.cells@[c]));
    }
}

proof fn lemma_rows_agree_either_way(a: TableRowInput, b: TableRowInput)
    requires
        rows_agree(a, b),
    ensures
        rows_agree(b, a),
{
    assert forall|c: int| #![trigger b.cells@[c]] 0 <= c < b.cells@.len() implies cells_agree(
        b.cells@[c],
        a.cells@[c],
    ) && b.cells@[c].continues_merge() == a.cells@[c].continues_merge() by {
        assert(cells_agree(a.cells@[c], b.cells@[c]));
    }
}

proof fn lemma_can_own(a: TableRowInput, b: TableRowInput, winners: Seq<CellEdge>)
    requires
        rows_agree(a, b),
        winners.len() <= usize::MAX,
    ensures
        can_own(a, winners) == can_own(b, winners),
{
    lemma_rows_agree_either_way(a, b);
    if can_own(a, winners) {
        lemma_can_own_too(a, b, winners);
    }
    if can_own(b, winners) {
        lemma_can_own_too(b, a, winners);
    }
}

proof fn lemma_drawn_above(a: TableRowInput, b: TableRowInput, winners: Seq<CellEdge>, gc: int)
    requires
        rows_agree(a, b),
        drawn_above(a, winners, gc),
    ensures
        drawn_above(b, winners, gc),
{
    let c = choose|c: int|
        #![trigger a.cells@[c]]
        0 <= c < a.cells@.len() && grid_start(a, c) <= gc < run_end(a, c, winners.len() as int)
            && run_is_uniform(a, c, winners);
    lemma_run(a, b, c, winners);
    assert(b.cells@[c] == b.cells@[c]);
}

proof fn lemma_settled_lower(
    upper: TableRowInput,
    lower: TableRowInput,
    upper_b: TableRowInput,
    lower_b: TableRowInput,
    winners: Seq<CellEdge>,
    b: Seq<CellBorders>,
)
    requires
        rows_agree(upper, upper_b),
        rows_agree(lower, lower_b),
        winners.len() <= usize::MAX,
        b.len() == lower.cells@.len(),
    ensures
        settled_lower(upper, lower, winners, b) == settled_lower(upper_b, lower_b, winners, b),
{
    reveal(settled_lower);
    lemma_can_own(upper, upper_b, winners);
    lemma_can_own(lower, lower_b, winners);
    lemma_rows_agree_either_way(upper, upper_b);
    let n = winners.len() as int;
    assert forall|c: int| 0 <= c < b.len() implies joined_top(upper, lower, winners, c, b[c].top)
        == joined_top(upper_b, lower_b, winners, c, b[c].top) by {
        lemma_run(lower, lower_b, c, winners);
        let above = exists|gc: int|
            grid_start(lower, c) <= gc < run_end(lower, c, n) && #[trigger] drawn_above(
                upper,
                winners,
                gc,
            );
        let above_b = exists|gc: int|
            grid_start(lower_b, c) <= gc < run_end(lower_b, c, n) && #[trigger] drawn_above(
                upper_b,
                winners,
                gc,
            );
        if above {
            let gc = choose|gc: int|
                grid_start(lower, c) <= gc < run_end(lower, c, n) && #[trigger] drawn_above(
                    upper,
                    winners,
                    gc,
                );
            lemma_drawn_above(upper, upper_b, winners, gc);
            assert(above_b);
        }
        if above_b {
            let gc = choose|gc: int|
                grid_start(lower_b, c) <= gc < run_end(lower_b, c, n) && #[trigger] drawn_above(
                    upper_b,
                    winners,
                    gc,
                );
            lemma_drawn_above(upper_b, upper, winners, gc);
            assert(above);
        }
    }
    assert(settled_lower(upper, lower, winners, b) =~= settled_lower(
        upper_b,
        lower_b,
        winners,
        b,
    ));
}

proof fn lemma_settled_upper(
    upper: TableRowInput,
    lower: TableRowInput,
    upper_b: TableRowInput,
    lower_b: TableRowInput,
    winners: Seq<CellEdge>,
    b: Seq<CellBorders>,
)
    requires
        rows_agree(upper, upper_b),
        rows_agree(lower, lower_b),
        winners.len() <= usize::MAX,
        b.len() == upper.cells@.len(),
    ensures
        settled_upper(upper, lower, winners, b) == settled_upper(upper_b, lower_b, winners, b),
{
    reveal(settled_upper);
    lemma_can_own(upper, upper_b, winners);
    lemma_can_own(lower, lower_b, winners);
    assert forall|c: int| 0 <= c < b.len() implies joined_bottom(
        upper,
        lower,
        winners,
        c,
        b[c].bottom,
    ) == joined_bottom(upper_b, lower_b, winners, c, b[c].bottom) by {
        lemma_run(upper, upper_b, c, winners);
    }
    assert(settled_upper(upper, lower, winners, b) =~= settled_upper(
        upper_b,
        lower_b,
        winners,
        b,
    ));
}

proof fn lemma_settled_borders(
    rows: Seq<TableRowInput>,
    other: Seq<TableRowInput>,
    r: int,
    borders: Option<TableBorderConfig>,
    ncols: int,
)
    requires
        tables_agree(rows, other),
        0 <= r < rows.len(),
        0 <= ncols <= usize::MAX,
    ensures
        row_settled_borders(rows, r, borders, ncols, true) == row_settled_borders(
            other,
            r,
            borders,
            ncols,
            true,
        ),
{
    lemma_start_borders(rows, other, r, borders, ncols, true);
    let start = row_start_borders(rows, r, borders, ncols, true);
    assert(rows_agree(rows[r], other[r]));
    let lower = if r > 0 {
        settled_lower(rows[r - 1], rows[r], winners_below(rows, r - 1, borders, ncols), start)
    } else {
        start
    };
    assert(lower.len() == rows[r].cells@.len()) by {
        reveal(settled_lower);
    }
    if r > 0 {
        lemma_winners(rows, other, r - 1, borders, ncols);
        assert(rows_agree(rows[r - 1], other[r - 1]));
        let winners = winners_below(rows, r - 1, borders, ncols);
        assert(winners.len() == ncols) by {
            reveal(edge_winners);
        }
        lemma_settled_lower(rows[r - 1], rows[r], other[r - 1], other[r], winners, start);
    }
    if r + 1 < rows.len() {
        lemma_winners(rows, other, r, borders, ncols);
        assert(rows_agree(rows[r + 1], other[r + 1]));
        let winners = winners_below(rows, r, borders, ncols);
        assert(winners.len() == ncols) by {
            reveal(edge_winners);
        }
        lemma_settled_upper(rows[r], rows[r + 1], other[r], other[r + 1], winners, lower);
    }
}

proof fn lemma_borders_of_row(
    rows: Seq<TableRowInput>,
    other: Seq<TableRowInput>,
    r: int,
    format: TableFormat,
)
    requires
        tables_agree(rows, other),
        0 <= r < rows.len(),
        format.col_widths.len() <= usize::MAX,
    ensures
        borders_of_row(rows, r, format) == borders_of_row(other, r, format),
{
    reveal(borders_of_row);
    let ncols = format.col_widths.len() as int;
    lemma_settled_borders(rows, other, r, format.borders, ncols);
    lemma_start_borders(rows, other, r, format.borders, ncols, false);
}

proof fn lemma_entry_agrees(
    rows: Seq<TableRowInput>,
    other: Seq<TableRowInput>,
    r: int,
    c: int,
    format: TableFormat,
)
    requires
        tables_agree(rows, other),
        0 <= r < rows.len(),
        0 <= c < rows[r].cells@.len(),
        format.col_widths.len() <= usize::MAX,
    ensures
        entry(rows, r, c, format) == entry(other, r, c, format),
{
    assert(rows_agree(rows[r], other[r]));
    assert(cells_agree(rows[r].cells@[c], other[r].cells@[c]));
    lemma_entry(rows, r, c, format);
    lemma_entry(other, r, c, format);
    lemma_borders_of_row(rows, other, r, format);
    lemma_grid_start(rows[r], other[r], c);
}

proof fn lemma_entries_agree(
    rows: Seq<TableRowInput>,
    other: Seq<TableRowInput>,
    format: TableFormat,
)
    requires
        tables_agree(rows, other),
        format.col_widths.len() <= usize::MAX,
    ensures
        all_entries(rows, format) == all_entries(other, format),
{
    lemma_all_entries(rows, format);
    lemma_all_entries(other, format);
    assert forall|r: int| 0 <= r < rows.len() implies #[trigger] all_entries(rows, format)[r]
        == all_entries(other, format)[r] by {
        lemma_row_entries(rows, r, format);
        lemma_row_entries(other, r, format);
        assert(rows_agree(rows[r], other[r]));
        let a = row_entries(rows, r, format);
        let b = row_entries(other, r, format);
        assert forall|c: int| 0 <= c < rows[r].cells@.len() implies #[trigger] a[c] == b[c] by {
            lemma_entry_agrees(rows, other, r, c, format);
        }
        assert(a =~= b);
    }
    assert(all_entries(rows, format) =~= all_entries(other, format));
}

proof fn lemma_lone_cells_count(
    rows: Seq<TableRowInput>,
    other: Seq<TableRowInput>,
    r: int,
    c: int,
)
    requires
        differ_in_lone_merges(rows, other),
        0 <= r < rows.len(),
        0 <= c < rows[r].cells@.len(),
    ensures
        counts_in_row(rows, r, c) == counts_in_row(other, r, c),
{
    assert(rows_agree(rows[r], other[r]));
    let cell = rows[r].cells@[c];
    lemma_grid_start(rows[r], other[r], c);
    lemma_runs_into_next_row(rows, other, r, grid_start(rows[r], c));
}

proof fn lemma_tallest_content(
    rows: Seq<TableRowInput>,
    other: Seq<TableRowInput>,
    r: int,
    entries: Seq<EntryView<'_>>,
    c: int,
    acc: Pt,
)
    requires
        differ_in_lone_merges(rows, other),
        0 <= r < rows.len(),
        0 <= c,
    ensures
        tallest_content(rows, r, entries, c, acc) == tallest_content(other, r, entries, c, acc),
    decreases rows[r].cells@.len() - c,
{
    assert(rows_agree(rows[r], other[r]));
    if c < rows[r].cells@.len() {
        lemma_lone_cells_count(rows, other, r, c);
        assert(cells_agree(rows[r].cells@[c], other[r].cells@[c]));
        let next = if counts_in_row(rows, r, c) {
            acc.max(entries[c].layout.content_height.plus(rows[r].cells@[c].margins.vertical()))
        } else {
            acc
        };
        lemma_tallest_content(rows, other, r, entries, c + 1, next);
    }
}

proof fn lemma_widest_margins(a: TableRowInput, b: TableRowInput, c: int, acc: (Pt, Pt))
    requires
        rows_agree(a, b),
        0 <= c,
    ensures
        widest_margins(a, c, acc) == widest_margins(b, c, acc),
    decreases a.cells@.len() - c,
{
    if c < a.cells@.len() {
        assert(cells_agree(a.cells@[c], b.cells@[c]));
        let m = a.cells@[c].margins;
        lemma_widest_margins(a, b, c + 1, (acc.0.max(m.top), acc.1.max(m.bottom)));
    }
}

proof fn lemma_base_height(
    rows: Seq<TableRowInput>,
    other: Seq<TableRowInput>,
    r: int,
    entries: Seq<EntryView<'_>>,
    spacing: Pt,
)
    requires
        differ_in_lone_merges(rows, other),
        0 <= r < rows.len(),
    ensures
        base_height(rows, r, entries, spacing) == base_height(other, r, entries, spacing),
{
    assert(rows_agree(rows[r], other[r]));
    lemma_tallest_content(rows, other, r, entries, 0, Pt::zero());
    lemma_widest_margins(rows[r], other[r], 0, (Pt::zero(), Pt::zero()));
}

proof fn lemma_merge_end(
    rows: Seq<TableRowInput>,
    other: Seq<TableRowInput>,
    r: int,
    grid_col: usize,
)
    requires
        tables_agree(rows, other),
        0 <= r,
    ensures
        merge_end(rows, r, grid_col) == merge_end(other, r, grid_col),
    decreases rows.len() - r,
{
    if r < rows.len() {
        lemma_cell_index(rows[r], other[r], grid_col);
        lemma_merge_end(rows, other, r + 1, grid_col);
    }
}

/// Whether cells know their columns.
spec fn columns_are_known(
    rows: Seq<TableRowInput>,
    entries: Seq<Seq<EntryView<'_>>>,
) -> bool {
    forall|r: int, c: int| #![trigger entries[r][c]]
        0 <= r < rows.len() && 0 <= c < rows[r].cells@.len() ==> entries[r][c].grid_col
            == grid_start(rows[r], c)
}

proof fn lemma_expand_cells(
    rows: Seq<TableRowInput>,
    other: Seq<TableRowInput>,
    entries: Seq<Seq<EntryView<'_>>>,
    r: int,
    c: int,
    heights: Seq<Pt>,
)
    requires
        differ_in_lone_merges(rows, other),
        columns_are_known(rows, entries),
        0 <= r < rows.len(),
        0 <= c,
    ensures
        expand_cells(rows, entries, r, c, heights) == expand_cells(other, entries, r, c, heights),
    decreases rows[r].cells@.len() - c,
{
    assert(rows_agree(rows[r], other[r]));
    if c < rows[r].cells@.len() {
        let cell = rows[r].cells@[c];
        assert(cells_agree(cell, other[r].cells@[c]));
        let at = entries[r][c];
        lemma_merge_end(rows, other, r + 1, at.grid_col);
        let end = merge_end(rows, r + 1, at.grid_col);
        let next = if cell.restarts_merge() && end > r + 1 {
            crate::table::grid::grow_span(
                heights,
                r,
                end,
                at.layout.content_height.plus(cell.margins.vertical()),
            )
        } else {
            heights
        };
        lemma_expand_cells(rows, other, entries, r, c + 1, next);
    }
}

proof fn lemma_expand_rows(
    rows: Seq<TableRowInput>,
    other: Seq<TableRowInput>,
    entries: Seq<Seq<EntryView<'_>>>,
    r: int,
    heights: Seq<Pt>,
)
    requires
        differ_in_lone_merges(rows, other),
        columns_are_known(rows, entries),
        0 <= r,
    ensures
        expand_rows(rows, entries, r, heights) == expand_rows(other, entries, r, heights),
    decreases rows.len() - r,
{
    if r < rows.len() {
        lemma_expand_cells(rows, other, entries, r, 0, heights);
        lemma_expand_rows(
            rows,
            other,
            entries,
            r + 1,
            expand_cells(rows, entries, r, 0, heights),
        );
    }
}

proof fn lemma_measured_tables_agree(
    rows: Seq<TableRowInput>,
    other: Seq<TableRowInput>,
    format: TableFormat,
)
    requires
        differ_in_lone_merges(rows, other),
        format.col_widths.len() <= usize::MAX,
    ensures
        measured_table(rows, format) == measured_table(other, format),
        columns_are_known(rows, all_entries(rows, format)),
{
    lemma_measured_table(rows, format);
    lemma_measured_table(other, format);
    lemma_entries_agree(rows, other, format);
    let entries = all_entries(rows, format);
    lemma_all_entries(rows, format);
    assert forall|r: int, c: int| #![trigger entries[r][c]] 0 <= r < rows.len() && 0 <= c
        < rows[r].cells@.len() implies entries[r][c].grid_col == grid_start(rows[r], c) by {
        assert(entries[r] == row_entries(rows, r, format));
        lemma_row_entries(rows, r, format);
        lemma_entry(rows, r, c, format);
    }
    let spacing = format.cell_spacing;
    let base = Seq::new(rows.len(), |r: int| base_height(rows, r, entries[r], spacing));
    let base_b = Seq::new(other.len(), |r: int| base_height(other, r, entries[r], spacing));
    assert forall|r: int| 0 <= r < rows.len() implies #[trigger] base[r] == base_b[r] by {
        lemma_base_height(rows, other, r, entries[r], spacing);
    }
    assert(base =~= base_b);
    lemma_expand_rows(rows, other, entries, 0, base);
    assert(row_heights(rows, entries, spacing) == row_heights(other, entries, spacing));
    assert forall|r: int| 0 <= r < rows.len() implies #[trigger] measured_table(
        rows,
        format,
    ).rows[r] == measured_table(other, format).rows[r] by {
        lemma_borders_of_row(rows, other, r, format);
    }
    assert(measured_table(rows, format).rows =~= measured_table(other, format).rows);
}

proof fn lemma_span_heights_agree(
    a: MergeScope<'_>,
    b: MergeScope<'_>,
    row: int,
    grid_col: usize,
    acc: Pt,
)
    requires
        tables_agree(a.rows, b.rows),
        a.measured == b.measured,
        a.end == b.end,
        1 <= row,
    ensures
        span_height_from(a, row, grid_col, acc) == span_height_from(b, row, grid_col, acc),
    decreases a.rows.len() - row,
{
    if row < a.rows.len() {
        lemma_cell_index(a.rows[row], b.rows[row], grid_col);
        lemma_span_heights_agree(
            a,
            b,
            row + 1,
            grid_col,
            acc.plus(a.measured[row - 1].border_gap_below).plus(a.measured[row].height),
        );
    }
}

/// Whether there is a measured cell for each cell, which knows its column.
spec fn cells_are_placed(measured: Seq<MeasuredRowView<'_>>, rows: Seq<TableRowInput>) -> bool {
    &&& measured.len() == rows.len()
    &&& forall|r: int, c: int| #![trigger measured[r].entries[c]]
        0 <= r < rows.len() && 0 <= c < rows[r].cells@.len() ==> measured[r].entries[c].grid_col
            == grid_start(rows[r], c)
}

proof fn lemma_cell_drawn_alike(
    l: Layers,
    measured: Seq<MeasuredRowView<'_>>,
    rows: Seq<TableRowInput>,
    other: Seq<TableRowInput>,
    r: int,
    c: int,
    y: Pt,
)
    requires
        differ_in_lone_merges(rows, other),
        cells_are_placed(measured, rows),
        0 <= r < rows.len(),
        0 <= c < rows[r].cells@.len(),
    ensures
        with_cell(l, row_drawing(measured, rows, r, 0, rows.len() as int, y, None), c)
            == with_cell(l, row_drawing(measured, other, r, 0, rows.len() as int, y, None), c),
{
    let n = rows.len() as int;
    let a = row_drawing(measured, rows, r, 0, n, y, None);
    let b = row_drawing(measured, other, r, 0, n, y, None);
    assert(rows_agree(rows[r], other[r]));
    let cell = rows[r].cells@[c];
    assert(cells_agree(cell, other[r].cells@[c]));
    let grid_col = measured[r].entries[c].grid_col;
    let own = measured[r].height.minus(measured[r].leading_gap);
    lemma_span_heights_agree(a.scope->0, b.scope->0, r + 1, grid_col, own);
    lemma_runs_into_next_row(rows, other, r, grid_col);
}

proof fn lemma_cells_drawn_alike(
    l: Layers,
    measured: Seq<MeasuredRowView<'_>>,
    rows: Seq<TableRowInput>,
    other: Seq<TableRowInput>,
    r: int,
    c: int,
    y: Pt,
)
    requires
        differ_in_lone_merges(rows, other),
        cells_are_placed(measured, rows),
        0 <= r < rows.len(),
        0 <= c,
    ensures
        with_cells(l, row_drawing(measured, rows, r, 0, rows.len() as int, y, None), c)
            == with_cells(l, row_drawing(measured, other, r, 0, rows.len() as int, y, None), c),
    decreases rows[r].cells@.len() - c,
{
    assert(rows_agree(rows[r], other[r]));
    if c < rows[r].cells@.len() {
        lemma_cell_drawn_alike(l, measured, rows, other, r, c, y);
        let a = row_drawing(measured, rows, r, 0, rows.len() as int, y, None);
        lemma_cells_drawn_alike(with_cell(l, a, c), measured, rows, other, r, c + 1, y);
    }
}

proof fn lemma_rows_drawn_alike(
    d: Drawing,
    measured: Seq<MeasuredRowView<'_>>,
    rows: Seq<TableRowInput>,
    other: Seq<TableRowInput>,
    r: int,
)
    requires
        differ_in_lone_merges(rows, other),
        cells_are_placed(measured, rows),
        0 <= r <= rows.len(),
    ensures
        with_rows(d, measured, rows, r, 0, rows.len() as int, None) == with_rows(
            d,
            measured,
            other,
            r,
            0,
            rows.len() as int,
            None,
        ),
    decreases rows.len() - r,
{
    if r < rows.len() {
        let n = rows.len() as int;
        lemma_cells_drawn_alike(d.layers, measured, rows, other, r, 0, d.y);
        let next = Drawing {
            layers: with_cells(d.layers, row_drawing(measured, rows, r, 0, n, d.y, None), 0),
            y: d.y.plus(measured[r].full_height()),
        };
        lemma_rows_drawn_alike(next, measured, rows, other, r + 1);
    }
}

/// A cell that starts a merged region and is merged with no cell below it is drawn as an ordinary cell:
/// a table looks the same without such merges.
pub proof fn law_a_lone_merge_is_an_ordinary_cell(
    rows: Seq<TableRowInput>,
    other: Seq<TableRowInput>,
    format: TableFormat,
)
    requires
        differ_in_lone_merges(rows, other),
        format.col_widths.len() <= usize::MAX,
    ensures
        table_layout(rows, format) == table_layout(other, format),
{
    lemma_table_layout(rows, format);
    lemma_table_layout(other, format);
    if rows.len() > 0 && format.col_widths.len() > 0 {
        lemma_measured_tables_agree(rows, other, format);
        lemma_measured_table(rows, format);
        let measured = measured_table(rows, format).rows;
        let entries = all_entries(rows, format);
        assert forall|r: int, c: int| #![trigger measured[r].entries[c]] 0 <= r < rows.len() && 0
            <= c < rows[r].cells@.len() implies measured[r].entries[c].grid_col == grid_start(
            rows[r],
            c,
        ) by {
            assert(measured[r].entries == entries[r]);
            assert(entries[r][c].grid_col == grid_start(rows[r], c));
        }
        lemma_rows_drawn_alike(
            Drawing { layers: Layers::empty(), y: Pt::zero() },
            measured,
            rows,
            other,
            0,
        );
    }
}

} // verus!
