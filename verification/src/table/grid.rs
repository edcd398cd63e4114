//! The column grid of a table, and the rows that stay together.
use crate::block::{LayoutBlock, TableCellInput, TableRowInput};
use crate::dimension::{ratio, sum, sum_range, sum_to, Pt};
use crate::table::types::{
    entries_view, measured_rows_height, rows_height, rows_view, CellLayoutEntry, EntryView,
    MeasuredRow, MeasuredRowView,
};
use vstd::prelude::*;

verus! {

/// The widths of a table's columns: those of the grid scaled to the available
/// width; equal parts of it where the grid is empty or has no width.
pub open spec fn column_widths(grid_cols: Seq<Pt>, num_cols: int, available_width: Pt) -> Seq<Pt> {
    let total = sum(grid_cols);
    if grid_cols.len() > 0 && total.units > 0 {
        Seq::new(
            grid_cols.len(),
            |i: int|
                Pt {
                    units: ratio(
                        grid_cols[i].units as int,
                        available_width.units as int,
                        total.units as int,
                    ),
                },
        )
    } else {
        let n = if num_cols > 0 {
            num_cols
        } else {
            grid_cols.len() as int
        };
        Seq::new(n as nat, |i: int| available_width.divided(n as usize))
    }
}

/// Compute column widths by scaling the declared grid to the available width.
///
/// A grid that is absent or sums to nothing carries no proportions: the width is
/// then shared equally, among `num_cols` columns where there are any and else
/// among the columns of the grid.
pub fn compute_column_widths(grid_cols: &[Pt], num_cols: usize, available_width: Pt) -> (r: Vec<Pt>)
    ensures
        r@ == column_widths(grid_cols@, num_cols as int, available_width),
{
    let total = sum_range(grid_cols, 0, grid_cols.len());
    assert(grid_cols@.subrange(0, grid_cols@.len() as int) =~= grid_cols@);
    let mut widths: Vec<Pt> = Vec::new();
    if grid_cols.len() > 0 && total.units > 0 {
        let mut i: usize = 0;
        while i < grid_cols.len()
            invariant
                i <= grid_cols@.len(),
                grid_cols@.len() > 0,
                total == sum(grid_cols@),
                total.units > 0,
                widths@ == column_widths(grid_cols@, num_cols as int, available_width).take(
                    i as int,
                ),
            decreases grid_cols@.len() - i,
        {
            widths.push(grid_cols[i].scale(available_width, total));
            i += 1;
            assert(widths@ =~= column_widths(grid_cols@, num_cols as int, available_width).take(
                i as int,
            ));
        }
        assert(widths@ =~= column_widths(grid_cols@, num_cols as int, available_width));
        return widths;
    }
    let n: usize = if num_cols > 0 {
        num_cols
    } else {
        grid_cols.len()
    };
    let mut i: usize = 0;
    while i < n
        invariant
            i <= n,
            n == if num_cols > 0 {
                num_cols as nat
            } else {
                grid_cols@.len()
            },
            !(grid_cols@.len() > 0 && sum(grid_cols@).units > 0),
            widths@ == column_widths(grid_cols@, num_cols as int, available_width).take(i as int),
        decreases n - i,
    {
        widths.push(available_width.divided(n));
        i += 1;
        assert(widths@ =~= column_widths(grid_cols@, num_cols as int, available_width).take(
            i as int,
        ));
    }
    assert(widths@ =~= column_widths(grid_cols@, num_cols as int, available_width));
    widths
}

/// The exact sum of the first `n` lengths.
pub open spec fn exact_sum(s: Seq<Pt>, n: int) -> int
    decreases n,
{
    if n <= 0 {
        0
    } else {
        exact_sum(s, n - 1) + s[n - 1].units
    }
}

/// Whether all lengths are non-negative and their sum is representable.
pub open spec fn summable(s: Seq<Pt>) -> bool {
    &&& forall|i: int| #![trigger s[i]] 0 <= i < s.len() ==> s[i].units >= 0
    &&& exact_sum(s, s.len() as int) <= i64::MAX
}

pub(crate) proof fn lemma_exact_sum(s: Seq<Pt>, n: int)
    requires
        summable(s),
        0 <= n <= s.len(),
    ensures
        0 <= exact_sum(s, n) <= exact_sum(s, s.len() as int),
        sum_to(s, n).units == exact_sum(s, n),
        forall|i: int| #![trigger s[i]] 0 <= i < n ==> s[i].units <= exact_sum(s, n),
    decreases s.len() - n, n,
{
    lemma_exact_sum_mono(s, n, s.len() as int);
    lemma_exact_sum_mono(s, 0, n);
    lemma_sum_is_exact(s, n);
    assert forall|i: int| #![trigger s[i]] 0 <= i < n implies s[i].units <= exact_sum(s, n) by {
        lemma_exact_sum_mono(s, i + 1, n);
        lemma_exact_sum_mono(s, 0, i);
    }
}

pub(crate) proof fn lemma_exact_sum_mono(s: Seq<Pt>, a: int, b: int)
    requires
        summable(s),
        0 <= a <= b <= s.len(),
    ensures
        exact_sum(s, a) <= exact_sum(s, b),
    decreases b - a,
{
    if a < b {
        lemma_exact_sum_mono(s, a, b - 1);
        assert(s[b - 1].units >= 0);
    }
}

proof fn lemma_sum_is_exact(s: Seq<Pt>, n: int)
    requires
        summable(s),
        0 <= n <= s.len(),
    ensures
        sum_to(s, n).units == exact_sum(s, n),
    decreases n,
{
    if n > 0 {
        lemma_sum_is_exact(s, n - 1);
        lemma_exact_sum_mono(s, n, s.len() as int);
        lemma_exact_sum_mono(s, 0, n);
    }
}

/// A usable grid keeps its proportions and fills the available width: no column
/// has a negative width, and together they fall short of the available width
/// by less than one unit for each column.
pub proof fn law_scaled_columns_fill_the_width(
    grid_cols: Seq<Pt>,
    num_cols: int,
    available_width: Pt,
)
    requires
        summable(grid_cols),
        grid_cols.len() > 0,
        sum(grid_cols).units > 0,
        available_width.units >= 0,
    ensures
        ({
            let widths = column_widths(grid_cols, num_cols, available_width);
            &&& widths.len() == grid_cols.len()
            &&& forall|i: int|
                #![trigger widths[i]]
                0 <= i < widths.len() ==> 0 <= widths[i].units <= available_width.units
            &&& forall|i: int|
                #![trigger widths[i]]
                0 <= i < widths.len() ==> sum(grid_cols).units * widths[i].units
                    <= grid_cols[i].units * available_width.units < sum(grid_cols).units
                    * widths[i].units + sum(grid_cols).units
            &&& exact_sum(widths, widths.len() as int) <= available_width.units
            &&& available_width.units < exact_sum(widths, widths.len() as int) + widths.len()
        }),
{
    let widths = column_widths(grid_cols, num_cols, available_width);
    let n = grid_cols.len() as int;
    lemma_exact_sum(grid_cols, n);
    let t = sum(grid_cols).units as int;
    let a = available_width.units as int;
    assert forall|i: int| #![trigger widths[i]] 0 <= i < n implies 0 <= widths[i].units <= a && t
        * widths[i].units <= grid_cols[i].units * a < t * widths[i].units + t by {
        let g = grid_cols[i].units as int;
        assert(0 <= g <= t);
        assert(0 <= g * a <= t * a) by (nonlinear_arith)
            requires
                0 <= g <= t,
                0 <= a,
        ;
        let q = (g * a) / t;
        vstd::arithmetic::div_mod::lemma_fundamental_div_mod(g * a, t);
        assert(0 <= q <= a) by (nonlinear_arith)
            requires
                g * a == t * q + (g * a) % t,
                0 <= (g * a) % t < t,
                0 <= g * a <= t * a,
                t > 0,
        ;
        assert(widths[i].units == q);
    }
    lemma_scaled_sum(grid_cols, widths, t, a, n);
    let s = exact_sum(widths, n);
    assert(s <= a && a < s + n) by (nonlinear_arith)
        requires
            t * s <= t * a,
            t * a < t * (s + n),
            t > 0,
    ;
}

proof fn lemma_scaled_sum(g: Seq<Pt>, w: Seq<Pt>, t: int, a: int, n: int)
    requires
        0 <= n <= g.len(),
        g.len() == w.len(),
        t > 0,
        forall|i: int|
            #![trigger w[i]]
            0 <= i < g.len() ==> t * w[i].units <= g[i].units * a < t * w[i].units + t,
    ensures
        t * exact_sum(w, n) <= exact_sum(g, n) * a,
        n > 0 ==> exact_sum(g, n) * a < t * (exact_sum(w, n) + n),
        n == 0 ==> exact_sum(g, n) == 0,
    decreases n,
{
    if n > 0 {
        lemma_scaled_sum(g, w, t, a, n - 1);
        let gs = exact_sum(g, n - 1);
        let ws = exact_sum(w, n - 1);
        let gi = g[n - 1].units as int;
        let wi = w[n - 1].units as int;
        assert(t * wi <= gi * a < t * wi + t);
        assert((gs + gi) * a == gs * a + gi * a) by (nonlinear_arith);
        assert(t * (ws + wi) == t * ws + t * wi) by (nonlinear_arith);
        assert(t * (ws + wi + n) == t * (ws + (n - 1)) + t * wi + t) by (nonlinear_arith);
        if n == 1 {
            assert(t * (ws + (n - 1)) == 0 && gs * a == 0) by (nonlinear_arith)
                requires
                    ws == 0,
                    gs == 0,
                    n == 1,
            ;
        }
    }
}

/// Without a usable grid, every column gets the same width.
pub proof fn law_columns_without_a_grid_are_equal(
    grid_cols: Seq<Pt>,
    num_cols: int,
    available_width: Pt,
)
    requires
        grid_cols.len() == 0 || sum(grid_cols).units <= 0,
        0 <= num_cols <= usize::MAX,
        grid_cols.len() <= usize::MAX,
    ensures
        ({
            let widths = column_widths(grid_cols, num_cols, available_width);
            &&& widths.len() == if num_cols > 0 {
                num_cols
            } else {
                grid_cols.len() as int
            }
            &&& forall|i: int, j: int|
                #![trigger widths[i], widths[j]]
                0 <= i < widths.len() && 0 <= j < widths.len() ==> widths[i] == widths[j]
        }),
{
}

/// The first grid column of cell `i` of a row.
pub open spec fn grid_start(row: TableRowInput, i: int) -> usize
    decreases i,
{
    if i <= 0 {
        row.grid_before as usize
    } else {
        grid_start(row, i - 1).saturating_add(row.cells@[i - 1].span())
    }
}

/// The cell among those from `i` on that covers the grid column, where cell `i`
/// starts at grid column `col`.
pub open spec fn cell_index_from(
    row: TableRowInput,
    i: int,
    col: usize,
    target: usize,
) -> Option<int>
    decreases row.cells@.len() - i,
{
    if i >= row.cells@.len() || i < 0 {
        None
    } else {
        let end = col.saturating_add(row.cells@[i].span());
        if target < end {
            Some(i)
        } else {
            cell_index_from(row, i + 1, end, target)
        }
    }
}

/// The cell that covers a grid column, if the row has one there.
pub open spec fn cell_index(row: TableRowInput, target: usize) -> Option<int> {
    if target < row.grid_before {
        None
    } else {
        cell_index_from(row, 0, row.grid_before as usize, target)
    }
}

/// Return the index of the cell that covers a grid column.
///
/// There is none for the columns before a row's first cell and after its last.
pub fn cell_index_at_grid_col(row: &TableRowInput, target_grid_col: usize) -> (r: Option<usize>)
    ensures
        match r {
            Some(i) => cell_index(*row, target_grid_col) == Some(i as int) && i < row.cells@.len(),
            None => cell_index(*row, target_grid_col) is None,
        },
{
    let mut col: usize = row.grid_before as usize;
    if target_grid_col < col {
        return None;
    }
    let mut i: usize = 0;
    while i < row.cells.len()
        invariant
            i <= row.cells@.len(),
            target_grid_col >= row.grid_before,
            cell_index_from(*row, i as int, col, target_grid_col) == cell_index(
                *row,
                target_grid_col,
            ),
        decreases row.cells@.len() - i,
    {
        let end: usize = col.saturating_add(row.cells[i].span());
        if target_grid_col < end {
            return Some(i);
        }
        col = end;
        i += 1;
    }
    None
}

/// Find the cell of a row that covers a grid column.
pub fn find_cell_at_grid_col(row: &TableRowInput, target_grid_col: usize) -> (r: Option<
    &TableCellInput,
>)
    ensures
        match cell_index(*row, target_grid_col) {
            Some(i) => r == Some(&row.cells@[i]),
            None => r is None,
        },
{
    match cell_index_at_grid_col(row, target_grid_col) {
        Some(i) => Some(&row.cells[i]),
        None => None,
    }
}

/// Whether the cell of `row` at `grid_col` goes on with a merged region above.
pub open spec fn merge_continues(row: TableRowInput, grid_col: usize) -> bool {
    match cell_index(row, grid_col) {
        Some(i) => row.cells@[i].continues_merge(),
        None => false,
    }
}

/// Check whether the cell at `grid_col` goes on with a merged region above.
pub fn is_vmerge_continue(row: &TableRowInput, grid_col: usize) -> (r: bool)
    ensures
        r == merge_continues(*row, grid_col),
{
    match find_cell_at_grid_col(row, grid_col) {
        Some(cell) => cell.continues_merge(),
        None => false,
    }
}

/// A group of rows that stay together when a table is divided between pages.
#[derive(Clone, Copy, Debug, PartialEq, Eq, Structural)]
pub struct RowGroup {
    pub start: usize,
    /// The first row after the group.
    pub end: usize,
    pub height: Pt,
    /// Whether the content of the group's row may be divided between pages.
    pub splittable: bool,
}

/// Whether some cell of the row goes on with a merged region above.
pub open spec fn row_continues(row: TableRowInput) -> bool {
    exists|i: int| 0 <= i < row.cells@.len() && (#[trigger] row.cells@[i]).continues_merge()
}

fn row_continues_merge(row: &TableRowInput) -> (r: bool)
    ensures
        r == row_continues(*row),
{
    let mut i: usize = 0;
    while i < row.cells.len()
        invariant
            i <= row.cells@.len(),
            forall|k: int| 0 <= k < i ==> !(#[trigger] row.cells@[k]).continues_merge(),
        decreases row.cells@.len() - i,
    {
        if row.cells[i].continues_merge() {
            return true;
        }
        i += 1;
    }
    false
}

/// The end of a group that the rows before `end` belong to.
pub open spec fn group_end_from(rows: Seq<TableRowInput>, end: int) -> int
    decreases rows.len() - end,
{
    if end < 0 || end >= rows.len() || !row_continues(rows[end]) {
        end
    } else {
        group_end_from(rows, end + 1)
    }
}

/// The end of the group that starts with row `start`: the rows below it that a
/// merged region runs into.
pub open spec fn group_end(rows: Seq<TableRowInput>, start: int) -> int {
    group_end_from(rows, start + 1)
}

/// Return the end of the group of rows that starts at `start`.
pub fn row_group_end(rows: &[TableRowInput], start: usize) -> (r: usize)
    requires
        start < rows@.len(),
    ensures
        r == group_end(rows@, start as int),
        start < r <= rows@.len(),
{
    let count: usize = rows.len();
    let mut end: usize = start + 1;
    while end < count && row_continues_merge(&rows[end])
        invariant
            start < end <= rows@.len(),
            count == rows@.len(),
            group_end_from(rows@, end as int) == group_end(rows@, start as int),
        decreases rows@.len() - end,
    {
        end += 1;
    }
    end
}

/// Whether a block cannot be divided between pages: a table, or a paragraph that owns floating
/// objects.
pub open spec fn is_undivided(block: LayoutBlock) -> bool {
    match block {
        LayoutBlock::Table { .. } => true,
        LayoutBlock::Paragraph { floating_images, floating_shapes, .. } => floating_images@.len()
            != 0 || floating_shapes@.len() != 0,
    }
}

/// Whether a table or floating content stands in the cell.
pub open spec fn holds_undivided(cell: TableCellInput) -> bool {
    exists|i: int| 0 <= i < cell.blocks@.len() && is_undivided(#[trigger] cell.blocks@[i])
}

fn cell_has_undivided_content(cell: &TableCellInput) -> (r: bool)
    ensures
        r == holds_undivided(*cell),
{
    let mut i: usize = 0;
    while i < cell.blocks.len()
        invariant
            i <= cell.blocks@.len(),
            forall|k: int| 0 <= k < i ==> !is_undivided(#[trigger] cell.blocks@[k]),
        decreases cell.blocks@.len() - i,
    {
        let undivided = match &cell.blocks[i] {
            LayoutBlock::Table { .. } => true,
            LayoutBlock::Paragraph { floating_images, floating_shapes, .. } => floating_images.len()
                != 0 || floating_shapes.len() != 0,
        };
        if undivided {
            return true;
        }
        i += 1;
    }
    false
}

/// Whether a row has to stay whole: it asks for it, or holds a nested table or floating content.
pub open spec fn row_is_whole(row: TableRowInput) -> bool {
    row.cant_split == Some(true) || exists|i: int|
        0 <= i < row.cells@.len() && holds_undivided(#[trigger] row.cells@[i])
}

fn row_stays_whole(row: &TableRowInput) -> (r: bool)
    ensures
        r == row_is_whole(*row),
{
    if row.cant_split == Some(true) {
        return true;
    }
    let mut i: usize = 0;
    while i < row.cells.len()
        invariant
            i <= row.cells@.len(),
            row.cant_split != Some(true),
            forall|k: int| 0 <= k < i ==> !holds_undivided(#[trigger] row.cells@[k]),
        decreases row.cells@.len() - i,
    {
        if cell_has_undivided_content(&row.cells[i]) {
            return true;
        }
        i += 1;
    }
    false
}

/// The group of the rows `start..end`. Only a single row may be divided.
pub open spec fn row_group(
    rows: Seq<TableRowInput>,
    measured: Seq<MeasuredRowView<'_>>,
    start: int,
    end: int,
) -> RowGroup {
    RowGroup {
        start: start as usize,
        end: end as usize,
        height: rows_height(measured, start, end, Pt::zero()),
        splittable: end - start == 1 && !row_is_whole(rows[start]),
    }
}

/// The groups of the rows from `i` on, after those in `acc`.
pub open spec fn row_groups_from(
    rows: Seq<TableRowInput>,
    measured: Seq<MeasuredRowView<'_>>,
    i: int,
    acc: Seq<RowGroup>,
) -> Seq<RowGroup>
    decreases rows.len() - i,
{
    let end = group_end(rows, i);
    if i < 0 || i >= rows.len() || end <= i || end > rows.len() {
        acc
    } else {
        row_groups_from(rows, measured, end, acc.push(row_group(rows, measured, i, end)))
    }
}

/// The groups that a table's rows form.
pub open spec fn row_groups(
    rows: Seq<TableRowInput>,
    measured: Seq<MeasuredRowView<'_>>,
) -> Seq<RowGroup> {
    row_groups_from(rows, measured, 0, Seq::empty())
}

/// Whether the groups take the rows `0..n` one after another.
pub open spec fn groups_cover(groups: Seq<RowGroup>, n: int) -> bool {
    &&& forall|k: int| #![trigger groups[k]]
        0 <= k < groups.len() ==> groups[k].start < groups[k].end <= n
    &&& forall|i: int, j: int| #![trigger groups[i], groups[j]]
        0 <= i && j == i + 1 && j < groups.len() ==> groups[i].end == groups[j].start
    &&& groups.len() > 0 ==> groups[0].start == 0 && groups[groups.len() - 1].end == n
    &&& groups.len() == 0 ==> n == 0
}

/// Build the groups of rows that stay together.
///
/// A row that a merged region runs into belongs to the group of the row above.
pub fn build_row_groups(rows: &[TableRowInput], measured: &[MeasuredRow<'_>]) -> (r: Vec<RowGroup>)
    requires
        rows@.len() == measured@.len(),
    ensures
        r@ == row_groups(rows@, rows_view(measured@)),
        groups_cover(r@, rows@.len() as int),
{
    let mut groups: Vec<RowGroup> = Vec::new();
    let mut i: usize = 0;
    while i < rows.len()
        invariant
            i <= rows@.len(),
            rows@.len() == measured@.len(),
            groups_cover(groups@, i as int),
            row_groups_from(rows@, rows_view(measured@), i as int, groups@) == row_groups(
                rows@,
                rows_view(measured@),
            ),
        decreases rows@.len() - i,
    {
        let start: usize = i;
        i = row_group_end(rows, start);
        let height = measured_rows_height(measured, start, i);
        let splittable = i - start == 1 && !row_stays_whole(&rows[start]);
        groups.push(RowGroup { start, end: i, height, splittable });
    }
    groups
}

/// The rows of a table are divided into groups one after another: every row is
/// in one group and no other.
pub proof fn law_row_groups_partition_the_rows(
    rows: Seq<TableRowInput>,
    measured: Seq<MeasuredRowView<'_>>,
)
    requires
        rows.len() <= usize::MAX,
    ensures
        groups_cover(row_groups(rows, measured), rows.len() as int),
{
    lemma_groups_cover(rows, measured, 0, Seq::empty());
}

proof fn lemma_groups_cover(
    rows: Seq<TableRowInput>,
    measured: Seq<MeasuredRowView<'_>>,
    i: int,
    acc: Seq<RowGroup>,
)
    requires
        0 <= i <= rows.len() <= usize::MAX,
        groups_cover(acc, i),
    ensures
        groups_cover(row_groups_from(rows, measured, i, acc), rows.len() as int),
    decreases rows.len() - i,
{
    if i < rows.len() {
        lemma_group_end(rows, i + 1);
        let end = group_end(rows, i);
        let next = acc.push(row_group(rows, measured, i, end));
        assert(groups_cover(next, end));
        lemma_groups_cover(rows, measured, end, next);
    }
}

proof fn lemma_group_end(rows: Seq<TableRowInput>, end: int)
    requires
        0 <= end <= rows.len(),
    ensures
        end <= group_end_from(rows, end) <= rows.len(),
    decreases rows.len() - end,
{
    if end < rows.len() && row_continues(rows[end]) {
        lemma_group_end(rows, end + 1);
    }
}

/// The end of the merged region at `grid_col` that the rows before `r` belong to.
pub open spec fn merge_end(rows: Seq<TableRowInput>, r: int, grid_col: usize) -> int
    decreases rows.len() - r,
{
    if r < 0 || r >= rows.len() || !merge_continues(rows[r], grid_col) {
        r
    } else {
        merge_end(rows, r + 1, grid_col)
    }
}

fn find_merge_end(rows: &[TableRowInput], from: usize, grid_col: usize) -> (r: usize)
    requires
        from <= rows@.len(),
    ensures
        r == merge_end(rows@, from as int, grid_col),
        from <= r <= rows@.len(),
{
    let mut end: usize = from;
    while end < rows.len() && is_vmerge_continue(&rows[end], grid_col)
        invariant
            from <= end <= rows@.len(),
            merge_end(rows@, end as int, grid_col) == merge_end(rows@, from as int, grid_col),
        decreases rows@.len() - end,
    {
        end += 1;
    }
    end
}

/// Part `k` of `total` shared evenly among `n`: the parts differ by one unit at
/// most and add up to `total`.
pub open spec fn share(total: int, n: int, k: int) -> int {
    total / n + if k < total % n {
        1int
    } else {
        0
    }
}

/// The heights of the rows `start..end` grown evenly so that they make up
/// `content`, where they fall short of it.
pub open spec fn grow_span(heights: Seq<Pt>, start: int, end: int, content: Pt) -> Seq<Pt> {
    let spanned = sum(heights.subrange(start, end));
    if content.units > spanned.units {
        let overflow = content.minus(spanned).units as int;
        Seq::new(
            heights.len(),
            |i: int|
                if start <= i < end {
                    heights[i].plus(Pt { units: share(overflow, end - start, i - start) as i64 })
                } else {
                    heights[i]
                },
        )
    } else {
        heights
    }
}

fn grow_rows(heights: &mut Vec<Pt>, start: usize, end: usize, content: Pt)
    requires
        start < end <= old(heights)@.len(),
    ensures
        final(heights)@ == grow_span(old(heights)@, start as int, end as int, content),
{
    let spanned = sum_range(heights.as_slice(), start, end);
    if content.units > spanned.units {
        let overflow: i64 = content.minus(spanned).units;
        let n: usize = end - start;
        let wide: u64 = overflow as u64;
        let each: u64 = wide / (n as u64);
        let rest: u64 = wide % (n as u64);
        let ghost before = heights@;
        let mut i: usize = start;
        while i < end
            invariant
                start <= i <= end <= before.len(),
                heights@.len() == before.len(),
                n == end - start,
                n > 0,
                overflow > 0,
                wide == overflow,
                each == wide / (n as u64),
                rest == wide % (n as u64),
                forall|k: int|
                    #![trigger heights@[k]]
                    0 <= k < before.len() ==> heights@[k] == if start <= k < i {
                        before[k].plus(
                            Pt { units: share(overflow as int, n as int, k - start) as i64 },
                        )
                    } else {
                        before[k]
                    },
            decreases end - i,
        {
            let extra: u64 = if ((i - start) as u64) < rest {
                1
            } else {
                0
            };
            proof {
                assert(0 <= each <= wide) by (nonlinear_arith)
                    requires
                        each == wide / (n as u64),
                        n > 0,
                ;
                assert(rest > 0 ==> each < wide) by (nonlinear_arith)
                    requires
                        each == wide / (n as u64),
                        rest == wide % (n as u64),
                        n > 0,
                ;
            }
            let part: i64 = (each + extra) as i64;
            heights[i] = heights[i].plus(Pt::from_units(part));
            i += 1;
        }
        assert(heights@ =~= grow_span(old(heights)@, start as int, end as int, content));
    }
}

/// The row heights after the merged regions that start in the cells of row
/// `row` from `cell` on have grown their rows.
pub open spec fn expand_cells(
    rows: Seq<TableRowInput>,
    entries: Seq<Seq<EntryView<'_>>>,
    row: int,
    cell: int,
    heights: Seq<Pt>,
) -> Seq<Pt>
    decreases rows[row].cells@.len() - cell,
{
    if cell >= rows[row].cells@.len() || cell < 0 {
        heights
    } else {
        let input = rows[row].cells@[cell];
        let entry = entries[row][cell];
        let end = merge_end(rows, row + 1, entry.grid_col);
        let next = if input.restarts_merge() && end > row + 1 {
            grow_span(
                heights,
                row,
                end,
                entry.layout.content_height.plus(input.margins.vertical()),
            )
        } else {
            heights
        };
        expand_cells(rows, entries, row, cell + 1, next)
    }
}

/// The row heights after the merged regions that start in row `row` or below
/// have grown their rows.
pub open spec fn expand_rows(
    rows: Seq<TableRowInput>,
    entries: Seq<Seq<EntryView<'_>>>,
    row: int,
    heights: Seq<Pt>,
) -> Seq<Pt>
    decreases rows.len() - row,
{
    if row >= rows.len() || row < 0 {
        heights
    } else {
        expand_rows(rows, entries, row + 1, expand_cells(rows, entries, row, 0, heights))
    }
}

/// The values of all rows' cells.
pub open spec fn layouts_view<'a>(layouts: Seq<Vec<CellLayoutEntry<'a>>>) -> Seq<
    Seq<EntryView<'a>>,
> {
    Seq::new(layouts.len(), |i: int| entries_view(layouts[i]@))
}

/// Grow the rows of each vertically merged region so that the region's content
/// fits. What is missing is spread evenly over the rows of the region.
pub fn expand_rows_for_vmerge(
    rows: &[TableRowInput],
    row_cell_layouts: &Vec<Vec<CellLayoutEntry<'_>>>,
    row_heights: &mut Vec<Pt>,
)
    requires
        row_cell_layouts@.len() == rows@.len(),
        old(row_heights)@.len() == rows@.len(),
        forall|r: int|
            #![trigger rows@[r]]
            0 <= r < rows@.len() ==> row_cell_layouts@[r]@.len() == rows@[r].cells@.len(),
    ensures
        final(row_heights)@ == expand_rows(
            rows@,
            layouts_view(row_cell_layouts@),
            0,
            old(row_heights)@,
        ),
        final(row_heights)@.len() == rows@.len(),
{
    let ghost views = layouts_view(row_cell_layouts@);
    let mut row_idx: usize = 0;
    while row_idx < rows.len()
        invariant
            row_idx <= rows@.len(),
            row_heights@.len() == rows@.len(),
            row_cell_layouts@.len() == rows@.len(),
            views == layouts_view(row_cell_layouts@),
            forall|r: int|
                #![trigger rows@[r]]
                0 <= r < rows@.len() ==> row_cell_layouts@[r]@.len() == rows@[r].cells@.len(),
            expand_rows(rows@, views, row_idx as int, row_heights@) == expand_rows(
                rows@,
                views,
                0,
                old(row_heights)@,
            ),
        decreases rows@.len() - row_idx,
    {
        let row = &rows[row_idx];
        let ghost row_start = row_heights@;
        let mut cell_ci: usize = 0;
        while cell_ci < row.cells.len()
            invariant
                row_idx < rows@.len() <= usize::MAX,
                *row == rows@[row_idx as int],
                cell_ci <= row.cells@.len(),
                row_heights@.len() == rows@.len(),
                row_cell_layouts@.len() == rows@.len(),
                views == layouts_view(row_cell_layouts@),
                row_cell_layouts@[row_idx as int]@.len() == row.cells@.len(),
                expand_cells(rows@, views, row_idx as int, cell_ci as int, row_heights@)
                    == expand_cells(rows@, views, row_idx as int, 0, row_start),
            decreases row.cells@.len() - cell_ci,
        {
            let cell = &row.cells[cell_ci];
            let entry = &row_cell_layouts[row_idx][cell_ci];
            assert(views[row_idx as int][cell_ci as int] == entry@);
            if cell.restarts_merge() {
                let end: usize = find_merge_end(rows, row_idx + 1, entry.grid_col);
                if end > row_idx + 1 {
                    grow_rows(
                        row_heights,
                        row_idx,
                        end,
                        entry.layout.content_height.plus(cell.margins.vertical()),
                    );
                }
            }
            cell_ci += 1;
        }
        row_idx += 1;
    }
}


proof fn lemma_grown_sum(
    before: Seq<Pt>,
    after: Seq<Pt>,
    overflow: int,
    n: int,
    m: int,
)
    requires
        0 <= m <= n == before.len() == after.len(),
        n > 0,
        0 <= overflow,
        forall|k: int|
            #![trigger after[k]]
            0 <= k < n ==> after[k].units == before[k].units + share(overflow, n, k),
    ensures
        exact_sum(after, m) == exact_sum(before, m) + m * (overflow / n) + if m < overflow % n {
            m
        } else {
            overflow % n
        },
    decreases m,
{
    if m > 0 {
        lemma_grown_sum(before, after, overflow, n, m - 1);
        assert(after[m - 1].units == before[m - 1].units + share(overflow, n, m - 1));
        assert(m * (overflow / n) == (m - 1) * (overflow / n) + overflow / n) by (nonlinear_arith);
    } else {
        assert(0 * (overflow / n) == 0);
    }
}

/// A merged region whose rows are too low for its content has, once its rows have
/// grown, exactly the height of the content; one whose rows are high enough
/// is left as it is.
pub proof fn law_merged_rows_make_up_the_content(
    heights: Seq<Pt>,
    start: int,
    end: int,
    content: Pt,
)
    requires
        0 <= start < end <= heights.len(),
        summable(heights.subrange(start, end)),
    ensures
        ({
            let before = exact_sum(heights.subrange(start, end), end - start);
            let after = exact_sum(
                grow_span(heights, start, end, content).subrange(start, end),
                end - start,
            );
            after == if content.units > before {
                content.units as int
            } else {
                before
            }
        }),
{
    let before = heights.subrange(start, end);
    let after = grow_span(heights, start, end, content).subrange(start, end);
    let n = end - start;
    lemma_exact_sum(before, n);
    let spanned = exact_sum(before, n);
    if content.units > spanned {
        let overflow = content.units - spanned;
        vstd::arithmetic::div_mod::lemma_fundamental_div_mod(overflow, n);
        assert(0 <= overflow / n <= overflow && (overflow % n > 0 ==> overflow / n < overflow))
            by (nonlinear_arith)
            requires
                overflow == n * (overflow / n) + overflow % n,
                0 <= overflow % n < n,
                overflow > 0,
                n > 0,
        ;
        assert forall|k: int| #![trigger after[k]] 0 <= k < n implies after[k].units
            == before[k].units + share(overflow, n, k) by {
            assert(before[k] == heights[start + k]);
            assert(before[k].units <= spanned);
            assert(0 <= share(overflow, n, k) <= overflow);
        }
        lemma_grown_sum(before, after, overflow, n, n);
    } else {
        assert(after =~= before);
    }
}

/// The rows of a merged region grow evenly: no row grows by more than one unit more than another.
pub proof fn law_merged_rows_grow_evenly(
    heights: Seq<Pt>,
    start: int,
    end: int,
    content: Pt,
    i: int,
    k: int,
)
    requires
        0 <= start < end <= heights.len(),
        start <= i < end,
        start <= k < end,
        summable(heights.subrange(start, end)),
        content.units <= i64::MAX - heights[i].units,
        content.units <= i64::MAX - heights[k].units,
    ensures
        ({
            let grown = grow_span(heights, start, end, content);
            (grown[i].units - heights[i].units) - (grown[k].units - heights[k].units) <= 1
        }),
{
    let part = heights.subrange(start, end);
    assert(part[i - start] == heights[i]);
    assert(part[k - start] == heights[k]);
    lemma_exact_sum(part, end - start);
    let spanned = sum(part);
    if content.units > spanned.units {
        let n = end - start;
        let overflow = content.units - spanned.units;
        vstd::arithmetic::div_mod::lemma_fundamental_div_mod(overflow, n);
        assert(0 <= overflow / n <= overflow && (overflow % n > 0 ==> overflow / n < overflow))
            by (nonlinear_arith)
            requires
                overflow == n * (overflow / n) + overflow % n,
                0 <= overflow % n < n,
                overflow > 0,
                n > 0,
        ;
    }
}

/// Growing a merged region makes no row lower.
pub proof fn law_growing_never_shrinks_a_row(
    heights: Seq<Pt>,
    start: int,
    end: int,
    content: Pt,
    i: int,
)
    requires
        0 <= start < end <= heights.len(),
        0 <= i < heights.len(),
    ensures
        grow_span(heights, start, end, content).len() == heights.len(),
        heights[i].units <= grow_span(heights, start, end, content)[i].units,
        !(start <= i < end) ==> grow_span(heights, start, end, content)[i] == heights[i],
{
    let spanned = sum(heights.subrange(start, end));
    if content.units > spanned.units {
        let n = end - start;
        let overflow = content.minus(spanned).units as int;
        vstd::arithmetic::div_mod::lemma_fundamental_div_mod(overflow, n);
        assert(0 <= overflow / n <= overflow && (overflow % n > 0 ==> overflow / n < overflow))
            by (nonlinear_arith)
            requires
                overflow == n * (overflow / n) + overflow % n,
                0 <= overflow % n < n,
                overflow > 0,
                n > 0,
        ;
        if start <= i < end {
            assert(0 <= share(overflow, n, i - start) <= overflow);
        }
    }
}

} // verus!
