//! The borders of all cells of a table, with each shared edge drawn once.
use crate::block::{TableBorderConfig, TableBorderLine, TableRowInput};
use crate::dimension::Pt;
use crate::table::borders::{
    conflict_winner, effective_borders, resolve_border_conflict, resolve_cell_effective_borders,
    CellBorders, CellEdge,
};
use crate::table::grid::{
    cell_index, cell_index_at_grid_col, cell_index_from, grid_start, is_vmerge_continue,
    merge_continues,
};
use vstd::prelude::*;

verus! {

/// The borders that hold for a row: its own where it has any.
#[verifier::allow_in_spec]
pub fn row_borders(
    row: &TableRowInput,
    borders: Option<TableBorderConfig>,
) -> Option<TableBorderConfig>
    returns
        (match row.border_overrides {
            Some(own) => Some(own),
            None => borders,
        }),
{
    match row.border_overrides {
        Some(own) => Some(own),
        None => borders,
    }
}

/// Whether the merged region of a cell that starts at `grid_col` runs from row
/// `row` into the row below.
pub open spec fn runs_into_next_row(rows: Seq<TableRowInput>, row: int, grid_col: usize) -> bool {
    row + 1 < rows.len() && merge_continues(rows[row + 1], grid_col)
}

/// The borders of a cell before it meets its neighbours. No edge is drawn inside
/// a merged region.
pub open spec fn initial_cell_borders(
    rows: Seq<TableRowInput>,
    row: int,
    cell: int,
    borders: Option<TableBorderConfig>,
    ncols: int,
) -> CellBorders {
    let input = rows[row].cells@[cell];
    let start = grid_start(rows[row], cell);
    let b = effective_borders(
        input,
        row_borders(&rows[row], borders),
        row,
        start as int,
        input.span() as int,
        rows.len() as int,
        ncols,
    );
    CellBorders {
        top: if input.continues_merge() {
            CellEdge::Absent
        } else {
            b.top
        },
        bottom: if runs_into_next_row(rows, row, start) {
            CellEdge::Absent
        } else {
            b.bottom
        },
        left: b.left,
        right: b.right,
    }
}

/// The borders of a row's cells before they meet their neighbours.
#[verifier::opaque]
pub open spec fn initial_row_borders(
    rows: Seq<TableRowInput>,
    row: int,
    borders: Option<TableBorderConfig>,
    ncols: int,
) -> Seq<CellBorders> {
    Seq::new(
        rows[row].cells@.len(),
        |c: int| initial_cell_borders(rows, row, c, borders, ncols),
    )
}

/// A row's borders with each edge between two cells drawn by the cell on its left.
#[verifier::opaque]
pub open spec fn join_cells(b: Seq<CellBorders>) -> Seq<CellBorders> {
    Seq::new(
        b.len(),
        |c: int|
            CellBorders {
                top: b[c].top,
                bottom: b[c].bottom,
                left: if c > 0 {
                    CellEdge::Absent
                } else {
                    b[c].left
                },
                right: if c + 1 < b.len() {
                    conflict_winner(b[c].right, b[c + 1].left)
                } else {
                    b[c].right
                },
            },
    )
}

fn build_row_borders(
    rows: &[TableRowInput],
    row_idx: usize,
    borders: Option<TableBorderConfig>,
    ncols: usize,
) -> (r: Vec<CellBorders>)
    requires
        row_idx < rows@.len(),
    ensures
        r@ == initial_row_borders(rows@, row_idx as int, borders, ncols as int),
        r@.len() == rows@[row_idx as int].cells@.len(),
{
    reveal(initial_row_borders);
    let row = &rows[row_idx];
    let num_rows: usize = rows.len();
    let own = row_borders(row, borders);
    let mut result: Vec<CellBorders> = Vec::new();
    let mut grid_idx: usize = row.grid_before as usize;
    let mut c: usize = 0;
    while c < row.cells.len()
        invariant
            c <= row.cells@.len(),
            row_idx < rows@.len(),
            num_rows == rows@.len(),
            *row == rows@[row_idx as int],
            own == row_borders(row, borders),
            grid_idx == grid_start(*row, c as int),
            result@ == initial_row_borders(rows@, row_idx as int, borders, ncols as int).take(
                c as int,
            ),
        decreases row.cells@.len() - c,
    {
        let cell = &row.cells[c];
        let mut b = resolve_cell_effective_borders(
            cell,
            own,
            row_idx,
            grid_idx,
            cell.span(),
            num_rows,
            ncols,
        );
        if cell.continues_merge() {
            b.top = CellEdge::Absent;
        }
        if row_idx + 1 < num_rows && is_vmerge_continue(&rows[row_idx + 1], grid_idx) {
            b.bottom = CellEdge::Absent;
        }
        result.push(b);
        grid_idx = grid_idx.saturating_add(cell.span());
        c += 1;
        proof {
            reveal(initial_row_borders);
            assert(result@ =~= initial_row_borders(
                rows@,
                row_idx as int,
                borders,
                ncols as int,
            ).take(c as int));
        }
    }
    assert(result@ =~= initial_row_borders(rows@, row_idx as int, borders, ncols as int));
    result
}

fn join_row(b: &Vec<CellBorders>) -> (r: Vec<CellBorders>)
    ensures
        r@ == join_cells(b@),
        r@.len() == b@.len(),
{
    reveal(join_cells);
    let mut result: Vec<CellBorders> = Vec::new();
    let n: usize = b.len();
    let mut c: usize = 0;
    while c < n
        invariant
            c <= n,
            n == b@.len(),
            result@ == join_cells(b@).take(c as int),
        decreases n - c,
    {
        let mut own = b[c];
        if c + 1 < n {
            own.right = resolve_border_conflict(own.right, b[c + 1].left);
        }
        if c > 0 {
            own.left = CellEdge::Absent;
        }
        result.push(own);
        c += 1;
        proof {
            reveal(join_cells);
            assert(result@ =~= join_cells(b@).take(c as int));
        }
    }
    assert(result@ =~= join_cells(b@));
    result
}

/// The bottom edge of a row at a grid column.
pub open spec fn bottom_at(row: TableRowInput, b: Seq<CellBorders>, gc: int) -> CellEdge {
    match cell_index(row, gc as usize) {
        Some(i) => b[i].bottom,
        None => CellEdge::Absent,
    }
}

/// The top edge of a row at a grid column.
pub open spec fn top_at(row: TableRowInput, b: Seq<CellBorders>, gc: int) -> CellEdge {
    match cell_index(row, gc as usize) {
        Some(i) => b[i].top,
        None => CellEdge::Absent,
    }
}

/// The border that wins at each grid column of the edge between two rows.
#[verifier::opaque]
pub open spec fn edge_winners(
    upper: TableRowInput,
    lower: TableRowInput,
    upper_borders: Seq<CellBorders>,
    lower_borders: Seq<CellBorders>,
    ncols: int,
) -> Seq<CellEdge> {
    Seq::new(
        ncols as nat,
        |gc: int|
            conflict_winner(bottom_at(upper, upper_borders, gc), top_at(lower, lower_borders, gc)),
    )
}

/// The end of the grid columns that a cell covers within a grid of `ncols` columns.
pub open spec fn run_end(row: TableRowInput, cell: int, ncols: int) -> int {
    let end = grid_start(row, cell).saturating_add(row.cells@[cell].span());
    if end < ncols {
        end as int
    } else {
        ncols
    }
}

/// Whether the edge looks the same over the whole width of a cell.
#[verifier::opaque]
pub open spec fn run_is_uniform(row: TableRowInput, cell: int, winners: Seq<CellEdge>) -> bool {
    let start = grid_start(row, cell) as int;
    forall|gc: int|
        start <= gc < run_end(row, cell, winners.len() as int)
            ==> (#[trigger] winners[gc]).paints_same(winners[start])
}

/// Whether a cell stands within the grid at all.
pub open spec fn run_exists(row: TableRowInput, cell: int, ncols: int) -> bool {
    grid_start(row, cell) < run_end(row, cell, ncols)
}

/// Whether a row can draw the whole edge: a cell of it covers every column that
/// has a border, and the edge looks the same over the width of each cell.
pub open spec fn can_own(row: TableRowInput, winners: Seq<CellEdge>) -> bool {
    &&& forall|gc: int|
        0 <= gc < winners.len() ==> (#[trigger] winners[gc]).line() is None || cell_index(
            row,
            gc as usize,
        ) is Some
    &&& forall|c: int|
        #![trigger row.cells@[c]]
        0 <= c < row.cells@.len() ==> !run_exists(row, c, winners.len() as int) || run_is_uniform(
            row,
            c,
            winners,
        )
}

/// Whether the lower of two rows draws the edge between them.
pub open spec fn lower_owns(
    upper: TableRowInput,
    lower: TableRowInput,
    winners: Seq<CellEdge>,
) -> bool {
    !can_own(upper, winners) && can_own(lower, winners)
}

/// Whether a cell of the upper row draws the edge at a grid column.
pub open spec fn drawn_above(upper: TableRowInput, winners: Seq<CellEdge>, gc: int) -> bool {
    exists|c: int|
        #![trigger upper.cells@[c]]
        0 <= c < upper.cells@.len() && grid_start(upper, c) <= gc < run_end(
            upper,
            c,
            winners.len() as int,
        ) && run_is_uniform(upper, c, winners)
}

/// The bottom edge that cell `c` of the upper row draws.
pub open spec fn joined_bottom(
    upper: TableRowInput,
    lower: TableRowInput,
    winners: Seq<CellEdge>,
    c: int,
    own: CellEdge,
) -> CellEdge {
    if lower_owns(upper, lower, winners) {
        CellEdge::Absent
    } else if !run_exists(upper, c, winners.len() as int) {
        own
    } else if run_is_uniform(upper, c, winners) {
        winners[grid_start(upper, c) as int]
    } else {
        CellEdge::Absent
    }
}

/// The top edge that cell `c` of the lower row draws.
pub open spec fn joined_top(
    upper: TableRowInput,
    lower: TableRowInput,
    winners: Seq<CellEdge>,
    c: int,
    own: CellEdge,
) -> CellEdge {
    let ncols = winners.len() as int;
    if !run_exists(lower, c, ncols) {
        own
    } else if lower_owns(upper, lower, winners) {
        winners[grid_start(lower, c) as int]
    } else if exists|gc: int|
        grid_start(lower, c) <= gc < run_end(lower, c, ncols) && #[trigger] drawn_above(
            upper,
            winners,
            gc,
        ) {
        CellEdge::Absent
    } else if run_is_uniform(lower, c, winners) {
        winners[grid_start(lower, c) as int]
    } else {
        CellEdge::Absent
    }
}

fn find_winners(
    upper: &TableRowInput,
    lower: &TableRowInput,
    upper_borders: &Vec<CellBorders>,
    lower_borders: &Vec<CellBorders>,
    ncols: usize,
) -> (r: Vec<CellEdge>)
    requires
        upper_borders@.len() == upper.cells@.len(),
        lower_borders@.len() == lower.cells@.len(),
    ensures
        r@ == edge_winners(*upper, *lower, upper_borders@, lower_borders@, ncols as int),
{
    reveal(edge_winners);
    let mut winners: Vec<CellEdge> = Vec::new();
    let ghost all = edge_winners(*upper, *lower, upper_borders@, lower_borders@, ncols as int);
    let mut gc: usize = 0;
    while gc < ncols
        invariant
            gc <= ncols,
            upper_borders@.len() == upper.cells@.len(),
            lower_borders@.len() == lower.cells@.len(),
            all == edge_winners(*upper, *lower, upper_borders@, lower_borders@, ncols as int),
            winners@ == all.take(gc as int),
        decreases ncols - gc,
    {
        let above = match cell_index_at_grid_col(upper, gc) {
            Some(i) => upper_borders[i].bottom,
            None => CellEdge::Absent,
        };
        let below = match cell_index_at_grid_col(lower, gc) {
            Some(i) => lower_borders[i].top,
            None => CellEdge::Absent,
        };
        winners.push(resolve_border_conflict(above, below));
        gc += 1;
        proof {
            reveal(edge_winners);
            assert(winners@ =~= all.take(gc as int));
        }
    }
    assert(winners@ =~= all);
    winners
}

fn grid_starts(row: &TableRowInput) -> (r: Vec<usize>)
    ensures
        r@.len() == row.cells@.len(),
        forall|c: int| 0 <= c < r@.len() ==> #[trigger] r@[c] == grid_start(*row, c),
{
    let mut starts: Vec<usize> = Vec::new();
    let mut at: usize = row.grid_before as usize;
    let mut c: usize = 0;
    while c < row.cells.len()
        invariant
            c <= row.cells@.len(),
            starts@.len() == c,
            at == grid_start(*row, c as int),
            forall|k: int| 0 <= k < c ==> #[trigger] starts@[k] == grid_start(*row, k),
        decreases row.cells@.len() - c,
    {
        starts.push(at);
        at = at.saturating_add(row.cells[c].span());
        c += 1;
    }
    starts
}

fn find_run_end(row: &TableRowInput, cell: usize, start: usize, ncols: usize) -> (r: usize)
    requires
        cell < row.cells@.len(),
        start == grid_start(*row, cell as int),
    ensures
        r == run_end(*row, cell as int, ncols as int),
        r <= ncols,
{
    let end: usize = start.saturating_add(row.cells[cell].span());
    if end < ncols {
        end
    } else {
        ncols
    }
}

fn is_run_uniform(
    row: &TableRowInput,
    cell: usize,
    winners: &Vec<CellEdge>,
    start: usize,
    end: usize,
) -> (r: bool)
    requires
        start == grid_start(*row, cell as int),
        end == run_end(*row, cell as int, winners@.len() as int),
        start < end <= winners@.len(),
    ensures
        r == run_is_uniform(*row, cell as int, winners@),
{
    let mut gc: usize = start;
    while gc < end
        invariant
            start == grid_start(*row, cell as int),
            end == run_end(*row, cell as int, winners@.len() as int),
            start <= gc <= end <= winners@.len(),
            start < end,
            forall|k: int|
                start <= k < gc ==> (#[trigger] winners@[k]).paints_same(winners@[start as int]),
        decreases end - gc,
    {
        if !winners[gc].paints_same(winners[start]) {
            proof {
                reveal(run_is_uniform);
                assert(!winners@[gc as int].paints_same(winners@[start as int]));
            }
            return false;
        }
        gc += 1;
    }
    proof {
        reveal(run_is_uniform);
    }
    true
}

fn row_can_own(row: &TableRowInput, starts: &Vec<usize>, winners: &Vec<CellEdge>) -> (r: bool)
    requires
        starts@.len() == row.cells@.len(),
        forall|c: int| 0 <= c < starts@.len() ==> #[trigger] starts@[c] == grid_start(*row, c),
    ensures
        r == can_own(*row, winners@),
{
    let ncols: usize = winners.len();
    let mut gc: usize = 0;
    while gc < ncols
        invariant
            gc <= ncols,
            ncols == winners@.len(),
            forall|k: int|
                0 <= k < gc ==> (#[trigger] winners@[k]).line() is None || cell_index(
                    *row,
                    k as usize,
                ) is Some,
        decreases ncols - gc,
    {
        if winners[gc].line().is_some() && cell_index_at_grid_col(row, gc).is_none() {
            assert(winners@[gc as int].line() is Some);
            return false;
        }
        gc += 1;
    }
    let mut c: usize = 0;
    while c < row.cells.len()
        invariant
            c <= row.cells@.len(),
            ncols == winners@.len(),
            starts@.len() == row.cells@.len(),
            forall|k: int| 0 <= k < starts@.len() ==> #[trigger] starts@[k] == grid_start(*row, k),
            forall|k: int|
                #![trigger row.cells@[k]]
                0 <= k < c ==> !run_exists(*row, k, ncols as int) || run_is_uniform(
                    *row,
                    k,
                    winners@,
                ),
        decreases row.cells@.len() - c,
    {
        let start: usize = starts[c];
        let end: usize = find_run_end(row, c, start, ncols);
        if start < end && !is_run_uniform(row, c, winners, start, end) {
            assert(run_exists(*row, c as int, ncols as int));
            let ghost cell = row.cells@[c as int];
            return false;
        }
        c += 1;
    }
    true
}

/// The columns of the edge that the cells of the upper row draw.
fn find_drawn_above(
    upper: &TableRowInput,
    starts: &Vec<usize>,
    winners: &Vec<CellEdge>,
) -> (r: Vec<bool>)
    requires
        starts@.len() == upper.cells@.len(),
        forall|c: int| 0 <= c < starts@.len() ==> #[trigger] starts@[c] == grid_start(*upper, c),
    ensures
        r@.len() == winners@.len(),
        forall|gc: int|
            0 <= gc < r@.len() ==> #[trigger] r@[gc] == drawn_above(*upper, winners@, gc),
{
    let ncols: usize = winners.len();
    let mut drawn: Vec<bool> = Vec::new();
    let mut gc: usize = 0;
    while gc < ncols
        invariant
            gc <= ncols,
            ncols == winners@.len(),
            starts@.len() == upper.cells@.len(),
            forall|c: int| 0 <= c < starts@.len() ==> #[trigger] starts@[c] == grid_start(*upper, c),
            drawn@.len() == gc,
            forall|k: int| 0 <= k < gc ==> #[trigger] drawn@[k] == drawn_above(*upper, winners@, k),
        decreases ncols - gc,
    {
        let mut found = false;
        let mut c: usize = 0;
        while c < upper.cells.len() && !found
            invariant
                gc < ncols,
                ncols == winners@.len(),
                c <= upper.cells@.len(),
                starts@.len() == upper.cells@.len(),
                forall|k: int|
                    0 <= k < starts@.len() ==> #[trigger] starts@[k] == grid_start(*upper, k),
                found ==> drawn_above(*upper, winners@, gc as int),
                !found ==> forall|k: int|
                    #![trigger upper.cells@[k]]
                    0 <= k < c ==> !(grid_start(*upper, k) <= gc < run_end(
                        *upper,
                        k,
                        winners@.len() as int,
                    ) && run_is_uniform(*upper, k, winners@)),
            decreases upper.cells@.len() - c,
        {
            let start: usize = starts[c];
            let end: usize = find_run_end(upper, c, start, ncols);
            if start <= gc && gc < end && is_run_uniform(upper, c, winners, start, end) {
                let ghost cell = upper.cells@[c as int];
                found = true;
            }
            c += 1;
        }
        drawn.push(found);
        gc += 1;
    }
    drawn
}

/// The borders of the upper row with the edge below it settled.
#[verifier::opaque]
pub open spec fn settled_upper(
    upper: TableRowInput,
    lower: TableRowInput,
    winners: Seq<CellEdge>,
    b: Seq<CellBorders>,
) -> Seq<CellBorders> {
    Seq::new(
        b.len(),
        |c: int|
            CellBorders { bottom: joined_bottom(upper, lower, winners, c, b[c].bottom), ..b[c] },
    )
}

/// The borders of the lower row with the edge above it settled.
#[verifier::opaque]
pub open spec fn settled_lower(
    upper: TableRowInput,
    lower: TableRowInput,
    winners: Seq<CellEdge>,
    b: Seq<CellBorders>,
) -> Seq<CellBorders> {
    Seq::new(
        b.len(),
        |c: int| CellBorders { top: joined_top(upper, lower, winners, c, b[c].top), ..b[c] },
    )
}

fn settle_edge(
    upper: &TableRowInput,
    lower: &TableRowInput,
    winners: &Vec<CellEdge>,
    upper_borders: &Vec<CellBorders>,
    lower_borders: &Vec<CellBorders>,
) -> (r: (Vec<CellBorders>, Vec<CellBorders>))
    requires
        upper_borders@.len() == upper.cells@.len(),
        lower_borders@.len() == lower.cells@.len(),
    ensures
        r.0@ == settled_upper(*upper, *lower, winners@, upper_borders@),
        r.1@ == settled_lower(*upper, *lower, winners@, lower_borders@),
        r.0@.len() == upper.cells@.len(),
        r.1@.len() == lower.cells@.len(),
{
    reveal(settled_upper);
    reveal(settled_lower);
    let ncols: usize = winners.len();
    let upper_starts = grid_starts(upper);
    let lower_starts = grid_starts(lower);
    let from_below = !row_can_own(upper, &upper_starts, winners) && row_can_own(
        lower,
        &lower_starts,
        winners,
    );
    let drawn = find_drawn_above(upper, &upper_starts, winners);
    let ghost all_upper = settled_upper(*upper, *lower, winners@, upper_borders@);
    let ghost all_lower = settled_lower(*upper, *lower, winners@, lower_borders@);
    let mut above: Vec<CellBorders> = Vec::new();
    let mut c: usize = 0;
    while c < upper.cells.len()
        invariant
            c <= upper.cells@.len(),
            ncols == winners@.len(),
            upper_borders@.len() == upper.cells@.len(),
            upper_starts@.len() == upper.cells@.len(),
            forall|k: int|
                0 <= k < upper_starts@.len() ==> #[trigger] upper_starts@[k] == grid_start(
                    *upper,
                    k,
                ),
            from_below == lower_owns(*upper, *lower, winners@),
            all_upper == settled_upper(*upper, *lower, winners@, upper_borders@),
            above@ == all_upper.take(c as int),
        decreases upper.cells@.len() - c,
    {
        let start: usize = upper_starts[c];
        let end: usize = find_run_end(upper, c, start, ncols);
        let mut own = upper_borders[c];
        if from_below {
            own.bottom = CellEdge::Absent;
        } else if start < end {
            if is_run_uniform(upper, c, winners, start, end) {
                own.bottom = winners[start];
            } else {
                own.bottom = CellEdge::Absent;
            }
        }
        above.push(own);
        c += 1;
        proof {
            reveal(settled_upper);
            assert(above@ =~= all_upper.take(c as int));
        }
    }
    assert(above@ =~= all_upper);
    let mut below: Vec<CellBorders> = Vec::new();
    let mut d: usize = 0;
    while d < lower.cells.len()
        invariant
            d <= lower.cells@.len(),
            ncols == winners@.len(),
            lower_borders@.len() == lower.cells@.len(),
            lower_starts@.len() == lower.cells@.len(),
            forall|k: int|
                0 <= k < lower_starts@.len() ==> #[trigger] lower_starts@[k] == grid_start(
                    *lower,
                    k,
                ),
            drawn@.len() == winners@.len(),
            forall|gc: int|
                0 <= gc < drawn@.len() ==> #[trigger] drawn@[gc] == drawn_above(
                    *upper,
                    winners@,
                    gc,
                ),
            from_below == lower_owns(*upper, *lower, winners@),
            all_lower == settled_lower(*upper, *lower, winners@, lower_borders@),
            below@ == all_lower.take(d as int),
        decreases lower.cells@.len() - d,
    {
        let start: usize = lower_starts[d];
        let end: usize = find_run_end(lower, d, start, ncols);
        let mut own = lower_borders[d];
        if start < end {
            if from_below {
                own.top = winners[start];
            } else if any_drawn(&drawn, start, end) {
                own.top = CellEdge::Absent;
                assert(exists|gc: int|
                    start <= gc < end && #[trigger] drawn_above(*upper, winners@, gc)) by {
                    let gc = choose|gc: int| start <= gc < end && #[trigger] drawn@[gc];
                    assert(drawn_above(*upper, winners@, gc));
                }
            } else {
                assert(!(exists|gc: int|
                    start <= gc < end && #[trigger] drawn_above(*upper, winners@, gc))) by {
                    if exists|gc: int|
                        start <= gc < end && #[trigger] drawn_above(*upper, winners@, gc) {
                        let gc = choose|gc: int|
                            start <= gc < end && #[trigger] drawn_above(*upper, winners@, gc);
                        assert(drawn@[gc]);
                    }
                }
                if is_run_uniform(lower, d, winners, start, end) {
                    own.top = winners[start];
                } else {
                    own.top = CellEdge::Absent;
                }
            }
        }
        below.push(own);
        d += 1;
        proof {
            reveal(settled_lower);
            assert(below@ =~= all_lower.take(d as int));
        }
    }
    assert(below@ =~= all_lower);
    (above, below)
}

fn any_drawn(drawn: &Vec<bool>, start: usize, end: usize) -> (r: bool)
    requires
        start <= end <= drawn@.len(),
    ensures
        r == (exists|gc: int| start <= gc < end && #[trigger] drawn@[gc]),
{
    let mut gc: usize = start;
    while gc < end
        invariant
            start <= gc <= end <= drawn@.len(),
            forall|k: int| start <= k < gc ==> !(#[trigger] drawn@[k]),
        decreases end - gc,
    {
        if drawn[gc] {
            return true;
        }
        gc += 1;
    }
    false
}

/// The borders of a row's cells before rows meet: with spacing between cells
/// every cell keeps its own four.
pub open spec fn row_start_borders(
    rows: Seq<TableRowInput>,
    row: int,
    borders: Option<TableBorderConfig>,
    ncols: int,
    collapse: bool,
) -> Seq<CellBorders> {
    let own = initial_row_borders(rows, row, borders, ncols);
    if collapse {
        join_cells(own)
    } else {
        own
    }
}

/// The borders that win on the edge below row `upper`.
pub open spec fn winners_below(
    rows: Seq<TableRowInput>,
    upper: int,
    borders: Option<TableBorderConfig>,
    ncols: int,
) -> Seq<CellEdge> {
    edge_winners(
        rows[upper],
        rows[upper + 1],
        row_start_borders(rows, upper, borders, ncols, true),
        row_start_borders(rows, upper + 1, borders, ncols, true),
        ncols,
    )
}

/// The borders of a row once the edge above it and, where `below` says so, the
/// edge below it are settled.
pub open spec fn row_settled_borders(
    rows: Seq<TableRowInput>,
    row: int,
    borders: Option<TableBorderConfig>,
    ncols: int,
    below: bool,
) -> Seq<CellBorders> {
    let start = row_start_borders(rows, row, borders, ncols, true);
    let lower = if row > 0 {
        settled_lower(
            rows[row - 1],
            rows[row],
            winners_below(rows, row - 1, borders, ncols),
            start,
        )
    } else {
        start
    };
    if below && row + 1 < rows.len() {
        settled_upper(rows[row], rows[row + 1], winners_below(rows, row, borders, ncols), lower)
    } else {
        lower
    }
}

/// A row's borders without those at its top.
#[verifier::opaque]
pub open spec fn without_top(b: Seq<CellBorders>) -> Seq<CellBorders> {
    Seq::new(b.len(), |c: int| CellBorders { top: CellEdge::Absent, ..b[c] })
}

/// The borders that a row's cells draw.
pub open spec fn resolved_row_borders(
    rows: Seq<TableRowInput>,
    row: int,
    borders: Option<TableBorderConfig>,
    ncols: int,
    cell_spacing: Pt,
    suppress_first_row_top: bool,
) -> Seq<CellBorders> {
    let b = if cell_spacing.units <= 0 {
        row_settled_borders(rows, row, borders, ncols, true)
    } else {
        row_start_borders(rows, row, borders, ncols, false)
    };
    if suppress_first_row_top && row == 0 {
        without_top(b)
    } else {
        b
    }
}

/// There is a set of borders for each cell of a row.
pub(crate) proof fn lemma_borders_for_each_cell(
    rows: Seq<TableRowInput>,
    row: int,
    borders: Option<TableBorderConfig>,
    ncols: int,
    cell_spacing: Pt,
    suppress_first_row_top: bool,
)
    ensures
        resolved_row_borders(
            rows,
            row,
            borders,
            ncols,
            cell_spacing,
            suppress_first_row_top,
        ).len() == rows[row].cells@.len(),
{
    reveal(initial_row_borders);
    reveal(join_cells);
    reveal(settled_lower);
    reveal(settled_upper);
    reveal(without_top);
}

fn clear_top(b: &Vec<CellBorders>) -> (r: Vec<CellBorders>)
    ensures
        r@ == without_top(b@),
        r@.len() == b@.len(),
{
    reveal(without_top);
    let mut result: Vec<CellBorders> = Vec::new();
    let mut c: usize = 0;
    while c < b.len()
        invariant
            c <= b@.len(),
            result@ == without_top(b@).take(c as int),
        decreases b@.len() - c,
    {
        let mut own = b[c];
        own.top = CellEdge::Absent;
        result.push(own);
        c += 1;
        proof {
            reveal(without_top);
            assert(result@ =~= without_top(b@).take(c as int));
        }
    }
    assert(result@ =~= without_top(b@));
    result
}

/// Resolve the borders of every cell of a table.
///
/// Without spacing between cells, neighbours share an edge: the heavier border
/// wins, and only one of the two cells draws it. An edge between two rows is
/// drawn from one side as a whole, from the upper row wherever that can.
pub fn resolve_table_borders(
    rows: &[TableRowInput],
    borders: Option<TableBorderConfig>,
    ncols: usize,
    cell_spacing: Pt,
    suppress_first_row_top: bool,
) -> (r: Vec<Vec<CellBorders>>)
    ensures
        r@.len() == rows@.len(),
        forall|row: int|
            #![trigger r@[row]]
            0 <= row < rows@.len() ==> r@[row]@.len() == rows@[row].cells@.len() && r@[row]@
                == resolved_row_borders(
                rows@,
                row,
                borders,
                ncols as int,
                cell_spacing,
                suppress_first_row_top,
            ),
{
    let collapse = cell_spacing.units <= 0;
    let n: usize = rows.len();
    let mut result: Vec<Vec<CellBorders>> = Vec::new();
    let mut row_idx: usize = 0;
    while row_idx < n
        invariant
            row_idx <= n,
            n == rows@.len(),
            collapse == (cell_spacing.units <= 0),
            result@.len() == row_idx,
            forall|row: int|
                #![trigger result@[row]]
                0 <= row < row_idx ==> result@[row]@.len() == rows@[row].cells@.len()
                    && result@[row]@ == if collapse {
                    row_settled_borders(
                        rows@,
                        row,
                        borders,
                        ncols as int,
                        row + 1 < row_idx,
                    )
                } else {
                    row_start_borders(rows@, row, borders, ncols as int, false)
                },
        decreases n - row_idx,
    {
        let own = build_row_borders(rows, row_idx, borders, ncols);
        if !collapse {
            result.push(own);
        } else {
            let start = join_row(&own);
            if row_idx == 0 {
                result.push(start);
            } else {
                let previous = build_row_borders(rows, row_idx - 1, borders, ncols);
                let upper_start = join_row(&previous);
                let winners = find_winners(
                    &rows[row_idx - 1],
                    &rows[row_idx],
                    &upper_start,
                    &start,
                    ncols,
                );
                let (above, below) = settle_edge(
                    &rows[row_idx - 1],
                    &rows[row_idx],
                    &winners,
                    &result[row_idx - 1],
                    &start,
                );
                assert(winners@ == winners_below(rows@, row_idx - 1, borders, ncols as int));
                result.set(row_idx - 1, above);
                result.push(below);
            }
        }
        row_idx += 1;
    }
    if suppress_first_row_top && n > 0 {
        let first = clear_top(&result[0]);
        result.set(0, first);
    }
    result
}


proof fn lemma_cell_covers(row: TableRowInput, i: int, gc: usize)
    requires
        0 <= i,
        grid_start(row, i) <= gc,
    ensures
        match cell_index_from(row, i, grid_start(row, i), gc) {
            Some(c) => i <= c < row.cells@.len() && grid_start(row, c) <= gc && gc < grid_start(
                row,
                c,
            ).saturating_add(row.cells@[c].span()),
            None => true,
        },
    decreases row.cells@.len() - i,
{
    if i < row.cells@.len() {
        let end = grid_start(row, i).saturating_add(row.cells@[i].span());
        assert(grid_start(row, i + 1) == end);
        if end <= gc {
            lemma_cell_covers(row, i + 1, gc);
        }
    }
}

/// What is painted at a grid column of the edge between two rows.
pub open spec fn painted(
    upper: TableRowInput,
    lower: TableRowInput,
    upper_borders: Seq<CellBorders>,
    lower_borders: Seq<CellBorders>,
    gc: int,
) -> Option<TableBorderLine> {
    match bottom_at(upper, upper_borders, gc).line() {
        Some(line) => Some(line),
        None => top_at(lower, lower_borders, gc).line(),
    }
}

/// The edge between two rows is nowhere drawn twice; and where either row can
/// draw the whole of it, every grid column shows the border that wins there.
pub proof fn law_shared_edge_is_drawn_once(
    upper: TableRowInput,
    lower: TableRowInput,
    upper_borders: Seq<CellBorders>,
    lower_borders: Seq<CellBorders>,
    ncols: int,
    gc: int,
)
    requires
        upper_borders.len() == upper.cells@.len(),
        lower_borders.len() == lower.cells@.len(),
        0 <= gc < ncols <= usize::MAX,
    ensures
        ({
            let winners = edge_winners(upper, lower, upper_borders, lower_borders, ncols);
            let above = settled_upper(upper, lower, winners, upper_borders);
            let below = settled_lower(upper, lower, winners, lower_borders);
            &&& bottom_at(upper, above, gc).line() is None || top_at(
                lower,
                below,
                gc,
            ).line() is None
            &&& can_own(upper, winners) || can_own(lower, winners) ==> painted(
                upper,
                lower,
                above,
                below,
                gc,
            ) == winners[gc].line()
        }),
{
    reveal(edge_winners);
    reveal(settled_upper);
    reveal(settled_lower);
    reveal(run_is_uniform);
    let winners = edge_winners(upper, lower, upper_borders, lower_borders, ncols);
    let above = settled_upper(upper, lower, winners, upper_borders);
    let below = settled_lower(upper, lower, winners, lower_borders);
    let at = gc as usize;
    if at >= upper.grid_before {
        lemma_cell_covers(upper, 0, at);
    }
    if at >= lower.grid_before {
        lemma_cell_covers(lower, 0, at);
    }
    let winner = winners[gc];
    if let Some(c) = cell_index(upper, at) {
        let cell = upper.cells@[c];
        assert(grid_start(upper, c) <= gc < run_end(upper, c, ncols));
        assert(run_exists(upper, c, ncols));
        if run_is_uniform(upper, c, winners) {
            assert(drawn_above(upper, winners, gc));
            assert(winners[gc].paints_same(winners[grid_start(upper, c) as int]));
        }
        assert(above[c].bottom == joined_bottom(upper, lower, winners, c, upper_borders[c].bottom));
    }
    if let Some(d) = cell_index(lower, at) {
        let cell = lower.cells@[d];
        assert(grid_start(lower, d) <= gc < run_end(lower, d, ncols));
        assert(run_exists(lower, d, ncols));
        if run_is_uniform(lower, d, winners) {
            assert(winners[gc].paints_same(winners[grid_start(lower, d) as int]));
        }
        assert(below[d].top == joined_top(upper, lower, winners, d, lower_borders[d].top));
    }
}

} // verus!
