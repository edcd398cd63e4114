//! The gaps between the cells of a table.
use crate::block::TableRowInput;
use crate::dimension::{sum, Pt};
use crate::table::grid::{exact_sum, grid_start, lemma_exact_sum, lemma_exact_sum_mono, summable};
use crate::table::measure::{cell_left, cell_width, first_slot, slot_end};
use vstd::prelude::*;

verus! {

/// Whether a cell lies within the grid and is at least as wide as a gap.
pub open spec fn has_room(row: TableRowInput, c: int, col_widths: Seq<Pt>, spacing: Pt) -> bool {
    let n = col_widths.len() as int;
    &&& 0 <= c < row.cells@.len()
    &&& grid_start(row, c) + row.cells@[c].span() <= n
    &&& spacing.units <= sum(
        col_widths.subrange(first_slot(row, c, n), slot_end(row, c, n)),
    ).units
}

/// Whether the columns and two gaps together can be measured.
pub open spec fn measurable(col_widths: Seq<Pt>, spacing: Pt) -> bool {
    &&& summable(col_widths)
    &&& col_widths.len() <= usize::MAX
    &&& 0 <= spacing.units
    &&& exact_sum(col_widths, col_widths.len() as int) + 2 * spacing.units <= i64::MAX
}

proof fn lemma_exact_part(s: Seq<Pt>, a: int, n: int)
    requires
        0 <= a,
        0 <= n,
        a + n <= s.len(),
    ensures
        exact_sum(s.subrange(a, a + n), n) == exact_sum(s, a + n) - exact_sum(s, a),
    decreases n,
{
    if n > 0 {
        lemma_exact_part(s, a, n - 1);
        lemma_exact_prefix(s.subrange(a, a + n), s.subrange(a, a + n - 1), n - 1);
        assert(s.subrange(a, a + n)[n - 1] == s[a + n - 1]);
    }
}

proof fn lemma_exact_prefix(s: Seq<Pt>, t: Seq<Pt>, n: int)
    requires
        0 <= n <= s.len(),
        n <= t.len(),
        forall|i: int| 0 <= i < n ==> #[trigger] s[i] == t[i],
    ensures
        exact_sum(s, n) == exact_sum(t, n),
    decreases n,
{
    if n > 0 {
        lemma_exact_prefix(s, t, n - 1);
        assert(s[n - 1] == t[n - 1]);
    }
}

/// The sum of a part of the columns.
proof fn lemma_part(s: Seq<Pt>, a: int, b: int)
    requires
        summable(s),
        0 <= a <= b <= s.len(),
    ensures
        sum(s.subrange(a, b)).units == exact_sum(s, b) - exact_sum(s, a),
        0 <= exact_sum(s, a) <= exact_sum(s, b) <= exact_sum(s, s.len() as int),
{
    let part = s.subrange(a, b);
    lemma_exact_part(s, a, b - a);
    lemma_exact_sum(s, a);
    lemma_exact_sum(s, b);
    lemma_exact_sum_mono(s, a, b);
    assert(summable(part)) by {
        assert forall|i: int| #![trigger part[i]] 0 <= i < part.len() implies part[i].units >= 0 by {
            assert(part[i] == s[a + i]);
        }
    }
    lemma_exact_sum(part, b - a);
}

/// Between two neighbouring cells there is a gap of just the cell spacing.
pub proof fn law_cells_stand_one_gap_apart(
    row: TableRowInput,
    c: int,
    col_widths: Seq<Pt>,
    spacing: Pt,
)
    requires
        measurable(col_widths, spacing),
        has_room(row, c, col_widths, spacing),
        c + 1 < row.cells@.len(),
    ensures
        cell_left(row, c + 1, col_widths, spacing).units == cell_left(
            row,
            c,
            col_widths,
            spacing,
        ).units + cell_width(row, c, col_widths, spacing).units + spacing.units,
{
    let n = col_widths.len() as int;
    let start = first_slot(row, c, n);
    let end = slot_end(row, c, n);
    assert(first_slot(row, c + 1, n) == end);
    lemma_part(col_widths, 0, start);
    lemma_part(col_widths, start, end);
    lemma_part(col_widths, 0, end);
}

/// A gap of just the cell spacing stands before a cell of the first column, and after a cell that
/// reaches the last one: with the outer gaps, the table is as wide as its columns and one gap.
pub proof fn law_outer_gaps_are_one_spacing(
    row: TableRowInput,
    c: int,
    col_widths: Seq<Pt>,
    spacing: Pt,
)
    requires
        measurable(col_widths, spacing),
        has_room(row, c, col_widths, spacing),
    ensures
        first_slot(row, c, col_widths.len() as int) == 0 ==> cell_left(row, c, col_widths, spacing)
            == spacing,
        slot_end(row, c, col_widths.len() as int) == col_widths.len() ==> cell_left(
            row,
            c,
            col_widths,
            spacing,
        ).units + cell_width(row, c, col_widths, spacing).units + spacing.units == sum(
            col_widths,
        ).plus(spacing).units,
{
    let n = col_widths.len() as int;
    let start = first_slot(row, c, n);
    let end = slot_end(row, c, n);
    lemma_part(col_widths, 0, start);
    lemma_part(col_widths, start, end);
    lemma_exact_sum(col_widths, n);
}

} // verus!
