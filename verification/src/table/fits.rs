//! A table that fits on the page is drawn as a whole.
use crate::block::{LayoutBlock, LayoutFootnote, PageParity, TableBorderLine, TableRowInput};
use crate::dimension::Pt;
use crate::fragment::Fragment;
use crate::geometry::PtEdgeInsets;
use crate::paragraph::{open_place, placed, PlacedLine};
use crate::table::cell::{
    line_holding, nested_footnotes, nth_reference, paragraph_footnotes, CellFlow,
};
use crate::table::divided::lemma_header_rows;
use crate::table::emit::{
    row_drawing, span_height_from, with_cell, with_cells, with_rows, Drawing, Layers, MergeScope,
    RowDrawing,
};
use crate::table::footnotes::{
    cells_footnotes, cells_note_height, note_heights, noted_entries, noted_rows, range_footnotes,
    range_note_height, row_note_height,
};
use crate::table::grid::{
    cell_index_from, group_end, group_end_from, groups_cover, law_row_groups_partition_the_rows,
    merge_continues, row_continues, row_group, row_groups, row_groups_from, RowGroup,
};
use crate::table::layout::{
    drawn_item, drawn_items, drawn_slice, paginated_table, table_paging, SliceDrawing, SliceView,
    TablePaginationHeights,
};
use crate::table::measure::{
    borders_of_row, cell_blocks, cell_width, inner_width, layout_width, lemma_all_entries,
    lemma_cell_block, lemma_cell_layout, lemma_entry, lemma_measured_table, lemma_row_entries,
    lemma_table_layout, measured_table, no_flow, row_entries, table_footnotes, table_layout,
    with_block, TableFormat,
};
use crate::table::paginate::{
    header_rows_from, paging_groups, paging_groups_from, placed_groups, table_slices, Fill, ItemView,
    PageHeights, Paging,
};
use crate::table::types::{rows_height, CellFootnote, EntryView, MeasuredRowView};
use vstd::prelude::*;

verus! {

/// The heights of the rows `a..b` with the borders below them.
pub open spec fn heights_sum(measured: Seq<MeasuredRowView<'_>>, a: int, b: int) -> int
    decreases b - a,
{
    if a >= b {
        0
    } else {
        measured[a].full_height().units + heights_sum(measured, a + 1, b)
    }
}

/// The heights of the footnotes of the rows `a..b`.
pub open spec fn notes_sum(measured: Seq<MeasuredRowView<'_>>, a: int, b: int) -> int
    decreases b - a,
{
    if a >= b {
        0
    } else {
        row_note_height(measured[a]).units + notes_sum(measured, a + 1, b)
    }
}

/// The room that the footnotes of the rows before `b` take, with the separator above them unless
/// the page has it already.
pub open spec fn notes_room(p: Paging<'_, '_>, b: int, has_notes: bool) -> int {
    notes_sum(p.measured, 0, b) + if notes_sum(p.measured, 0, b) > 0 && !has_notes {
        p.separator.units as int
    } else {
        0
    }
}

/// The room that the rows before `b` take with their footnotes.
pub open spec fn room_for(p: Paging<'_, '_>, b: int, has_notes: bool) -> int {
    heights_sum(p.measured, 0, b) + notes_room(p, b, has_notes)
}

/// Whether the heights of neighbouring rows always add up to a length.
pub open spec fn heights_add_up(measured: Seq<MeasuredRowView<'_>>) -> bool {
    forall|a: int, b: int| #![trigger heights_sum(measured, a, b)]
        0 <= a <= b <= measured.len() ==> i64::MIN <= heights_sum(measured, a, b) <= i64::MAX
}

/// Whether no footnote and no separator has a negative height, and the heights of footnotes and
/// those of neighbouring rows add up to lengths.
pub open spec fn heights_are_sound(p: Paging<'_, '_>, has_notes: bool) -> bool {
    &&& forall|r: int| #![trigger p.measured[r]]
        0 <= r < p.measured.len() ==> row_note_height(p.measured[r]).units >= 0
    &&& p.separator.units >= 0
    &&& notes_room(p, p.measured.len() as int, has_notes) <= i64::MAX
    &&& heights_add_up(p.measured)
}

/// Whether a page of the given height offers room for each of the merged groups of rows, below the
/// `header_count` rows that are repeated above it.
pub open spec fn merged_rows_fit(
    rows: Seq<TableRowInput>,
    measured: Seq<MeasuredRowView<'_>>,
    header_count: int,
    height: Pt,
) -> bool {
    let groups = row_groups(rows, measured);
    forall|k: int| #![trigger groups[k]]
        0 <= k < groups.len() && groups[k].end - groups[k].start > 1 ==> heights_sum(
            measured,
            groups[k].start as int,
            groups[k].end as int,
        ) + if groups[k].start >= header_count {
            heights_sum(measured, 0, header_count)
        } else {
            0
        } <= height.units
}

/// Whether a table fits on the page: the first rows do with their footnotes, however many are
/// taken, and the next page offers room for each merged group. The room that is left is a length.
pub open spec fn fits_on_the_page(p: Paging<'_, '_>, available: Pt, has_notes: bool) -> bool {
    &&& heights_are_sound(p, has_notes)
    &&& forall|b: int| #![trigger room_for(p, b, has_notes)]
        0 < b <= p.measured.len() ==> 0 <= available.units - room_for(p, b, has_notes) <= i64::MAX
    &&& merged_rows_fit(p.rows, p.measured, p.header_count, p.heights.height(1))
}

proof fn lemma_sums(p: Paging<'_, '_>, a: int, b: int, c: int)
    requires
        forall|r: int| #![trigger p.measured[r]]
            0 <= r < p.measured.len() ==> row_note_height(p.measured[r]).units >= 0,
        0 <= a <= b <= c <= p.measured.len(),
    ensures
        heights_sum(p.measured, a, c) == heights_sum(p.measured, a, b) + heights_sum(
            p.measured,
            b,
            c,
        ),
        notes_sum(p.measured, a, c) == notes_sum(p.measured, a, b) + notes_sum(p.measured, b, c),
        notes_sum(p.measured, a, b) >= 0,
        notes_sum(p.measured, b, c) >= 0,
    decreases c - a,
{
    if a < b {
        lemma_sums(p, a + 1, b, c);
        assert(row_note_height(p.measured[a]).units >= 0);
    } else if b < c {
        lemma_sums(p, b + 1, b + 1, c);
        assert(row_note_height(p.measured[b]).units >= 0);
    }
}

/// Measured heights are exact where they are representable.
proof fn lemma_exact_heights(measured: Seq<MeasuredRowView<'_>>, a: int, i: int, b: int, acc: Pt)
    requires
        heights_add_up(measured),
        0 <= a <= i <= b <= measured.len(),
        acc.units == heights_sum(measured, a, i),
    ensures
        rows_height(measured, i, b, acc).units == heights_sum(measured, a, b),
    decreases b - i,
{
    if i < b {
        lemma_next_height(measured, a, i);
        assert(i64::MIN <= heights_sum(measured, a, i + 1) <= i64::MAX);
        lemma_exact_heights(measured, a, i + 1, b, acc.plus(measured[i].full_height()));
    }
}

proof fn lemma_next_height(measured: Seq<MeasuredRowView<'_>>, a: int, b: int)
    requires
        a <= b,
    ensures
        heights_sum(measured, a, b + 1) == heights_sum(measured, a, b)
            + measured[b].full_height().units,
    decreases b - a,
{
    if a < b {
        lemma_next_height(measured, a + 1, b);
    } else {
        assert(heights_sum(measured, b + 1, b + 1) == 0);
    }
}

/// Measured heights of footnotes are exact where they are representable.
proof fn lemma_exact_notes(p: Paging<'_, '_>, a: int, b: int, acc: Pt)
    requires
        forall|r: int| #![trigger p.measured[r]]
            0 <= r < p.measured.len() ==> row_note_height(p.measured[r]).units >= 0,
        0 <= a <= b <= p.measured.len(),
        acc.units >= 0,
        acc.units + notes_sum(p.measured, a, b) <= i64::MAX,
    ensures
        range_note_height(p.measured, a, b, acc).units == acc.units + notes_sum(p.measured, a, b),
    decreases b - a,
{
    if a < b {
        lemma_sums(p, a + 1, b, b);
        assert(row_note_height(p.measured[a]).units >= 0);
        lemma_exact_notes(p, a + 1, b, acc.plus(row_note_height(p.measured[a])));
    }
}

/// Whether the groups have the heights of their rows, and no merged region runs out of one.
spec fn groups_are_closed(
    groups: Seq<RowGroup>,
    rows: Seq<TableRowInput>,
    measured: Seq<MeasuredRowView<'_>>,
) -> bool {
    forall|k: int| #![trigger groups[k]]
        0 <= k < groups.len() ==> {
            &&& groups[k].height == rows_height(
                measured,
                groups[k].start as int,
                groups[k].end as int,
                Pt::zero(),
            )
            &&& groups[k].end < rows.len() ==> !row_continues(rows[groups[k].end as int])
        }
}

proof fn lemma_end_of_group(rows: Seq<TableRowInput>, end: int)
    requires
        0 <= end <= rows.len(),
    ensures
        end <= group_end_from(rows, end) <= rows.len(),
        group_end_from(rows, end) < rows.len() ==> !row_continues(
            rows[group_end_from(rows, end)],
        ),
    decreases rows.len() - end,
{
    if end < rows.len() && row_continues(rows[end]) {
        lemma_end_of_group(rows, end + 1);
    }
}

proof fn lemma_groups_are_closed(
    rows: Seq<TableRowInput>,
    measured: Seq<MeasuredRowView<'_>>,
    i: int,
    acc: Seq<RowGroup>,
)
    requires
        0 <= i <= rows.len() <= usize::MAX,
        groups_are_closed(acc, rows, measured),
    ensures
        groups_are_closed(row_groups_from(rows, measured, i, acc), rows, measured),
    decreases rows.len() - i,
{
    if i < rows.len() {
        lemma_end_of_group(rows, i + 1);
        let end = group_end(rows, i);
        lemma_groups_are_closed(rows, measured, end, acc.push(row_group(rows, measured, i, end)));
    }
}

/// No group is broken up where the next page offers room for it.
proof fn lemma_groups_are_kept(p: Paging<'_, '_>, groups: Seq<RowGroup>, k: int)
    requires
        heights_add_up(p.measured),
        p.rows.len() == p.measured.len(),
        0 <= p.header_count <= p.rows.len(),
        groups == row_groups(p.rows, p.measured),
        merged_rows_fit(p.rows, p.measured, p.header_count, p.heights.height(1)),
        groups_cover(groups, p.rows.len() as int),
        groups_are_closed(groups, p.rows, p.measured),
        0 <= k <= groups.len(),
    ensures
        paging_groups_from(p, groups, k, groups.take(k)) == groups,
    decreases groups.len() - k,
{
    if k < groups.len() {
        let g = groups[k];
        let a = g.start as int;
        let b = g.end as int;
        lemma_exact_heights(p.measured, a, a, b, Pt::zero());
        lemma_exact_heights(p.measured, 0, 0, p.header_count, Pt::zero());
        assert(i64::MIN <= heights_sum(p.measured, a, b) <= i64::MAX);
        assert(groups.take(k + 1) =~= groups.take(k).push(g));
        lemma_groups_are_kept(p, groups, k + 1);
    } else {
        assert(groups.take(k) =~= groups);
    }
}

/// The rows of a group as one item.
spec fn item_of<'a>(g: RowGroup) -> ItemView<'a> {
    ItemView::Range { start: g.start as int, end: g.end as int }
}

/// The rows of the first `k` groups as items.
spec fn items_of<'a>(groups: Seq<RowGroup>, k: int) -> Seq<ItemView<'a>> {
    Seq::new(k as nat, |i: int| item_of(groups[i]))
}

/// Where the first `k` groups end.
spec fn end_of(groups: Seq<RowGroup>, k: int) -> int {
    if k <= 0 {
        0
    } else {
        groups[k - 1].end as int
    }
}

proof fn lemma_all_groups_fit<'a>(
    p: Paging<'a, '_>,
    groups: Seq<RowGroup>,
    available: Pt,
    has_notes: bool,
    k: int,
    f: Fill<'a>,
)
    requires
        fits_on_the_page(p, available, has_notes),
        p.rows.len() == p.measured.len(),
        groups_cover(groups, p.rows.len() as int),
        groups_are_closed(groups, p.rows, p.measured),
        0 <= k <= groups.len(),
        f.slices == Seq::<Seq<ItemView<'a>>>::empty(),
        f.current == items_of::<'a>(groups, k),
        f.remaining.units == available.units - room_for(p, end_of(groups, k), has_notes),
        f.has_notes == (has_notes || notes_sum(p.measured, 0, end_of(groups, k)) > 0),
    ensures
        ({
            let row = if k < groups.len() {
                groups[k].start as int
            } else {
                0
            };
            let r = placed_groups(f, p, groups, k, row);
            &&& r.slices == Seq::<Seq<ItemView<'a>>>::empty()
            &&& r.current == items_of::<'a>(groups, groups.len() as int)
        }),
    decreases groups.len() - k,
{
    if k < groups.len() {
        let g = groups[k];
        let a = g.start as int;
        let b = g.end as int;
        let n = p.measured.len() as int;
        if k > 0 {
            assert(groups[k - 1].end == groups[k].start);
        }
        assert(end_of(groups, k) == a);
        assert(end_of(groups, k + 1) == b);
        lemma_sums(p, 0, a, b);
        lemma_sums(p, 0, b, n);
        lemma_exact_heights(p.measured, a, a, b, Pt::zero());
        lemma_exact_notes(p, a, b, Pt::zero());
        assert(0 <= available.units - room_for(p, b, has_notes) <= i64::MAX);
        if a > 0 {
            assert(0 <= available.units - room_for(p, a, has_notes) <= i64::MAX);
        }
        assert(i64::MIN <= heights_sum(p.measured, a, b) <= i64::MAX);
        assert(f.fits(g.height, p.notes(a, b), p.separator));
        let next = f.with_group(p, g);
        assert(next.current =~= items_of::<'a>(groups, k + 1));
        lemma_all_groups_fit(p, groups, available, has_notes, k + 1, next);
        let row = if k + 1 < groups.len() {
            groups[k + 1].start as int
        } else {
            0
        };
        assert(placed_groups(f, p, groups, k, a) == placed_groups(next, p, groups, k + 1, row));
    }
}

/// A table that fits makes one part, which holds its groups of rows one after another.
proof fn lemma_one_slice<'a>(p: Paging<'a, '_>, available: Pt, has_notes: bool)
    requires
        fits_on_the_page(p, available, has_notes),
        p.rows.len() == p.measured.len(),
        p.rows.len() <= usize::MAX,
        0 <= p.header_count <= p.rows.len(),
    ensures
        ({
            let groups = row_groups(p.rows, p.measured);
            table_slices(p, available, has_notes) == seq![
                items_of::<'a>(groups, groups.len() as int),
            ]
        }),
{
    let groups = row_groups(p.rows, p.measured);
    law_row_groups_partition_the_rows(p.rows, p.measured);
    lemma_groups_are_closed(p.rows, p.measured, 0, Seq::empty());
    assert(groups.take(0) =~= Seq::<RowGroup>::empty());
    lemma_groups_are_kept(p, groups, 0);
    assert(paging_groups(p) == groups);
    let f = Fill {
        slices: Seq::<Seq<ItemView<'a>>>::empty(),
        current: Seq::<ItemView<'a>>::empty(),
        remaining: available,
        has_notes,
    };
    assert(f.current =~= items_of::<'a>(groups, 0));
    lemma_all_groups_fit(p, groups, available, has_notes, 0, f);
    let r = placed_groups(f, p, groups, 0, 0);
    assert(r.slices.push(r.current) =~= seq![items_of::<'a>(groups, groups.len() as int)]);
}

/// Whether two measured rows look the same and refer to the same footnotes.
spec fn look_the_same(a: MeasuredRowView<'_>, b: MeasuredRowView<'_>) -> bool {
    &&& a.borders == b.borders
    &&& a.height == b.height
    &&& a.leading_gap == b.leading_gap
    &&& a.border_gap_below == b.border_gap_below
    &&& a.entries.len() == b.entries.len()
    &&& forall|c: int| #![trigger a.entries[c]]
        0 <= c < a.entries.len() ==> cells_look_the_same(a.entries[c], b.entries[c])
}

spec fn cells_look_the_same(a: EntryView<'_>, b: EntryView<'_>) -> bool {
    &&& a.layout.commands == b.layout.commands
    &&& a.layout.content_height == b.layout.content_height
    &&& a.cell_x == b.cell_x
    &&& a.cell_w == b.cell_w
    &&& a.grid_col == b.grid_col
    &&& a.layout.footnotes.len() == b.layout.footnotes.len()
    &&& forall|f: int| #![trigger a.layout.footnotes[f]]
        0 <= f < a.layout.footnotes.len() ==> a.layout.footnotes[f].footnote
            == b.layout.footnotes[f].footnote
}

/// Whether two measured tables look the same.
spec fn tables_look_the_same(a: Seq<MeasuredRowView<'_>>, b: Seq<MeasuredRowView<'_>>) -> bool {
    &&& a.len() == b.len()
    &&& forall|r: int| #![trigger a[r]] 0 <= r < a.len() ==> look_the_same(a[r], b[r])
}

pub(crate) proof fn lemma_cell_index_bounds(row: TableRowInput, i: int, col: usize, target: usize)
    requires
        0 <= i <= row.cells@.len(),
    ensures
        cell_index_from(row, i, col, target) matches Some(k) ==> i <= k < row.cells@.len(),
    decreases row.cells@.len() - i,
{
    if i < row.cells@.len() {
        lemma_cell_index_bounds(row, i + 1, col.saturating_add(row.cells@[i].span()), target);
    }
}

/// A row that goes on with no merged region does so at no column.
proof fn lemma_no_merge(row: TableRowInput, grid_col: usize)
    requires
        !row_continues(row),
    ensures
        !merge_continues(row, grid_col),
{
    lemma_cell_index_bounds(row, 0, row.grid_before as usize, grid_col);
}

/// A merged region that ends within the rows before `end` has the same height, whatever is drawn after
/// them.
proof fn lemma_span_height(
    a: MergeScope<'_>,
    b: MergeScope<'_>,
    row: int,
    grid_col: usize,
    acc: Pt,
)
    requires
        a.rows == b.rows,
        tables_look_the_same(a.measured, b.measured),
        a.measured.len() == a.rows.len(),
        1 <= row <= a.end <= b.end <= a.rows.len(),
        a.end < a.rows.len() ==> !row_continues(a.rows[a.end]),
    ensures
        span_height_from(a, row, grid_col, acc) == span_height_from(b, row, grid_col, acc),
    decreases a.end - row,
{
    if row < a.end {
        assert(look_the_same(a.measured[row - 1], b.measured[row - 1]));
        assert(look_the_same(a.measured[row], b.measured[row]));
        lemma_span_height(
            a,
            b,
            row + 1,
            grid_col,
            acc.plus(a.measured[row - 1].border_gap_below).plus(a.measured[row].height),
        );
    } else if row < a.rows.len() {
        lemma_no_merge(a.rows[row], grid_col);
    }
}

/// Whether two rows are drawn alike: they look the same, at the same place, and the same of their
/// merged regions is drawn with them.
spec fn drawn_alike(a: RowDrawing<'_>, b: RowDrawing<'_>) -> bool {
    &&& look_the_same(a.measured, b.measured)
    &&& a.row == b.row
    &&& a.y == b.y
    &&& a.restored_top == b.restored_top
    &&& a.gap_below == b.gap_below
    &&& a.scope matches Some(s) && b.scope matches Some(t) && {
        &&& s.rows == t.rows
        &&& tables_look_the_same(s.measured, t.measured)
        &&& s.measured.len() == s.rows.len()
        &&& s.row == t.row
        &&& 0 <= s.row < s.end <= t.end <= s.rows.len()
        &&& s.end < s.rows.len() ==> !row_continues(s.rows[s.end])
    }
}

proof fn lemma_cell_drawn_alike(l: Layers, a: RowDrawing<'_>, b: RowDrawing<'_>, c: int)
    requires
        drawn_alike(a, b),
        0 <= c < a.measured.entries.len(),
    ensures
        with_cell(l, a, c) == with_cell(l, b, c),
{
    let s = a.scope->0;
    let t = b.scope->0;
    let entry = a.measured.entries[c];
    assert(cells_look_the_same(a.measured.entries[c], b.measured.entries[c]));
    assert(look_the_same(s.measured[s.row], t.measured[s.row]));
    lemma_span_height(
        s,
        t,
        s.row + 1,
        entry.grid_col,
        s.measured[s.row].height.minus(s.measured[s.row].leading_gap),
    );
    if s.row + 1 == s.end && s.end < s.rows.len() {
        lemma_no_merge(s.rows[s.end], entry.grid_col);
    }
}

proof fn lemma_cells_drawn_alike(l: Layers, a: RowDrawing<'_>, b: RowDrawing<'_>, c: int)
    requires
        drawn_alike(a, b),
        a.measured.entries.len() == a.row.cells@.len(),
        0 <= c,
    ensures
        with_cells(l, a, c) == with_cells(l, b, c),
    decreases a.row.cells@.len() - c,
{
    if c < a.row.cells@.len() {
        lemma_cell_drawn_alike(l, a, b, c);
        lemma_cells_drawn_alike(with_cell(l, a, c), a, b, c + 1);
    }
}

/// Whether there is a measured cell for each cell.
spec fn cells_are_measured(measured: Seq<MeasuredRowView<'_>>, rows: Seq<TableRowInput>) -> bool {
    &&& measured.len() == rows.len()
    &&& forall|r: int| #![trigger measured[r]]
        0 <= r < rows.len() ==> measured[r].entries.len() == rows[r].cells@.len()
}

/// Rows that no merged region runs out of are drawn in the same way with the rest of the table and
/// without it.
proof fn lemma_group_drawn_alike(
    d: Drawing,
    a: Seq<MeasuredRowView<'_>>,
    b: Seq<MeasuredRowView<'_>>,
    rows: Seq<TableRowInput>,
    i: int,
    start: int,
    end: int,
)
    requires
        tables_look_the_same(a, b),
        cells_are_measured(a, rows),
        0 <= start <= i <= end <= rows.len(),
        end < rows.len() ==> !row_continues(rows[end]),
    ensures
        with_rows(d, b, rows, i, 0, rows.len() as int, None) == with_rows(
            with_rows(d, a, rows, i, start, end, None),
            b,
            rows,
            end,
            0,
            rows.len() as int,
            None,
        ),
    decreases end - i,
{
    let n = rows.len() as int;
    if i < end {
        let one = row_drawing(a, rows, i, start, end, d.y, None);
        let all = row_drawing(b, rows, i, 0, n, d.y, None);
        assert(look_the_same(a[i], b[i]));
        assert(drawn_alike(one, all));
        assert(a[i].entries.len() == rows[i].cells@.len());
        lemma_cells_drawn_alike(d.layers, one, all, 0);
        let next = Drawing {
            layers: with_cells(d.layers, one, 0),
            y: d.y.plus(a[i].full_height()),
        };
        lemma_group_drawn_alike(next, a, b, rows, i + 1, start, end);
    }
}

proof fn lemma_same_footnotes<'a>(
    a: Seq<EntryView<'a>>,
    b: Seq<EntryView<'a>>,
    c: int,
    acc: Seq<&'a LayoutFootnote>,
)
    requires
        a.len() == b.len(),
        forall|k: int| #![trigger a[k]] 0 <= k < a.len() ==> cells_look_the_same(a[k], b[k]),
        0 <= c,
    ensures
        cells_footnotes(a, c, acc) == cells_footnotes(b, c, acc),
    decreases a.len() - c,
{
    if c < a.len() {
        let own = a[c].layout.footnotes;
        let other = b[c].layout.footnotes;
        assert(cells_look_the_same(a[c], b[c]));
        let refs = Seq::new(own.len(), |f: int| own[f].footnote);
        assert(refs =~= Seq::new(other.len(), |f: int| other[f].footnote));
        lemma_same_footnotes(a, b, c + 1, acc + refs);
    }
}

/// The footnotes of rows are those of its groups one after another.
proof fn lemma_group_footnotes<'a>(
    a: Seq<MeasuredRowView<'a>>,
    b: Seq<MeasuredRowView<'a>>,
    i: int,
    end: int,
    acc: Seq<&'a LayoutFootnote>,
)
    requires
        tables_look_the_same(a, b),
        0 <= i <= end <= a.len(),
    ensures
        range_footnotes(b, i, b.len() as int, acc) == range_footnotes(
            b,
            end,
            b.len() as int,
            range_footnotes(a, i, end, acc),
        ),
    decreases end - i,
{
    if i < end {
        assert(look_the_same(a[i], b[i]));
        lemma_same_footnotes(a[i].entries, b[i].entries, 0, acc);
        lemma_group_footnotes(a, b, i + 1, end, cells_footnotes(a[i].entries, 0, acc));
    }
}

/// Groups of rows drawn one after another make up the rows drawn together.
proof fn lemma_groups_drawn_alike<'a>(
    d: SliceDrawing<'a>,
    p: Paging<'a, '_>,
    whole: Seq<MeasuredRowView<'a>>,
    outer: Option<TableBorderLine>,
    groups: Seq<RowGroup>,
    k: int,
)
    requires
        tables_look_the_same(p.measured, whole),
        cells_are_measured(p.measured, p.rows),
        groups_cover(groups, p.rows.len() as int),
        groups_are_closed(groups, p.rows, p.measured),
        0 <= k <= groups.len(),
    ensures
        ({
            let n = p.rows.len() as int;
            let items = items_of::<'a>(groups, groups.len() as int);
            let r = drawn_items(d, p, outer, items, 0, k);
            &&& r.drawing == with_rows(
                d.drawing,
                whole,
                p.rows,
                end_of(groups, k),
                0,
                n,
                None,
            )
            &&& r.footnotes == range_footnotes(whole, end_of(groups, k), n, d.footnotes)
        }),
    decreases groups.len() - k,
{
    let items = items_of::<'a>(groups, groups.len() as int);
    if k < groups.len() {
        let g = groups[k];
        if k > 0 {
            assert(groups[k - 1].end == groups[k].start);
        }
        let a = g.start as int;
        let b = g.end as int;
        assert(end_of(groups, k) == a);
        assert(end_of(groups, k + 1) == b);
        assert(items[k] == item_of::<'a>(g));
        let next = drawn_item(d, p, outer, items, 0, k);
        lemma_group_drawn_alike(d.drawing, p.measured, whole, p.rows, a, a, b);
        lemma_group_footnotes(p.measured, whole, a, b, d.footnotes);
        lemma_groups_drawn_alike(next, p, whole, outer, groups, k + 1);
    }
}

proof fn lemma_measuring_notes_changes_no_look<'a>(
    measured: Seq<MeasuredRowView<'a>>,
    width: Pt,
    line_height: Pt,
)
    ensures
        tables_look_the_same(noted_rows(measured, width, line_height), measured),
{
    let noted = noted_rows(measured, width, line_height);
    assert forall|r: int| #![trigger noted[r]] 0 <= r < noted.len() implies look_the_same(
        noted[r],
        measured[r],
    ) by {
        assert(noted[r].entries == noted_entries(measured[r].entries, width, line_height));
    }
}

/// A table that fits on the page is not divided, and is drawn as the table is that is laid out as a
/// whole. Rows may have negative heights.
pub proof fn law_a_table_that_fits_is_drawn_whole<'a>(
    rows: Seq<TableRowInput>,
    format: TableFormat,
    pagination: TablePaginationHeights<'_>,
)
    requires
        rows.len() <= usize::MAX,
        fits_on_the_page(
            table_paging(rows, format, pagination),
            pagination.available_height,
            pagination.first_page_has_footnotes,
        ),
    ensures
        paginated_table(rows, format, pagination) == seq![
            SliceView {
                commands: table_layout(rows, format).commands,
                size: table_layout(rows, format).size,
                footnotes: table_footnotes::<'a>(rows, format),
            },
        ],
{
    lemma_table_layout(rows, format);
    if rows.len() > 0 && format.col_widths.len() > 0 {
        let p = table_paging(rows, format, pagination);
        let whole = measured_table::<'a>(rows, format).rows;
        lemma_measured_table(rows, format);
        lemma_header_rows(rows, 0);
        if let Some(width) = pagination.footnote_width {
            lemma_measuring_notes_changes_no_look(whole, width, format.default_line_height);
        }
        crate::table::content::lemma_measured_fits(rows, format);
        let groups = row_groups(rows, p.measured);
        lemma_one_slice(p, pagination.available_height, pagination.first_page_has_footnotes);
        law_row_groups_partition_the_rows(rows, p.measured);
        lemma_groups_are_closed(rows, p.measured, 0, Seq::empty());
        let d = SliceDrawing {
            drawing: Drawing { layers: Layers::empty(), y: Pt::zero() },
            footnotes: Seq::<&'a LayoutFootnote>::empty(),
        };
        let outer = match format.borders {
            Some(b) => b.top,
            None => None,
        };
        lemma_groups_drawn_alike(d, p, whole, outer, groups, 0);
        let slices = table_slices(
            p,
            pagination.available_height,
            pagination.first_page_has_footnotes,
        );
        assert(slices.len() == 1);
        assert(paginated_table(rows, format, pagination) =~= seq![
            drawn_slice(
                p,
                outer,
                slices,
                0,
                measured_table::<'a>(rows, format).table_width,
                format.cell_spacing,
            ),
        ]);
    } else {
        assert(paginated_table(rows, format, pagination)[0].commands =~= Seq::empty());
    }
}

/// Whether footnotes have not been measured.
spec fn are_unmeasured(footnotes: Seq<CellFootnote<'_>>) -> bool {
    forall|f: int| #![trigger footnotes[f]]
        0 <= f < footnotes.len() ==> footnotes[f].page_height == Pt::zero()
}

proof fn lemma_paragraph_footnotes_unmeasured<'a>(
    footnotes: Seq<LayoutFootnote>,
    f: int,
    fragments: Seq<Fragment>,
    lines: Seq<PlacedLine>,
    first_line: int,
    acc: Seq<CellFootnote<'a>>,
)
    requires
        are_unmeasured(acc),
    ensures
        are_unmeasured(paragraph_footnotes(footnotes, f, fragments, lines, first_line, acc)),
    decreases footnotes.len() - f,
{
    if 0 <= f < footnotes.len() {
        let next = acc.push(
            CellFootnote {
                footnote: &footnotes[f],
                line: (first_line + line_holding(lines, 0, nth_reference(fragments, 0, f))) as usize,
                page_height: Pt::zero(),
            },
        );
        lemma_paragraph_footnotes_unmeasured(footnotes, f + 1, fragments, lines, first_line, next);
    }
}

proof fn lemma_nested_footnotes_unmeasured<'a>(
    footnotes: Seq<&'a LayoutFootnote>,
    f: int,
    line: int,
    acc: Seq<CellFootnote<'a>>,
)
    requires
        are_unmeasured(acc),
    ensures
        are_unmeasured(nested_footnotes(footnotes, f, line, acc)),
    decreases footnotes.len() - f,
{
    if 0 <= f < footnotes.len() {
        let next = acc.push(
            CellFootnote {
                footnote: footnotes[f],
                line: line as usize,
                page_height: Pt::zero(),
            },
        );
        lemma_nested_footnotes_unmeasured(footnotes, f + 1, line, next);
    }
}

proof fn lemma_blocks_unmeasured<'a>(
    blocks: Seq<LayoutBlock>,
    k: int,
    flow: CellFlow<'a>,
    width: Pt,
    margins: PtEdgeInsets,
    line_height: Pt,
    parity: PageParity,
)
    requires
        are_unmeasured(flow.footnotes),
    ensures
        are_unmeasured(cell_blocks(blocks, k, flow, width, margins, line_height, parity).footnotes),
    decreases blocks.len() - k,
{
    lemma_cell_block(blocks, k, flow, width, margins, line_height, parity);
    if 0 <= k < blocks.len() {
        let next = with_block(flow, blocks[k], width, margins, line_height, parity);
        assert(are_unmeasured(next.footnotes)) by {
            reveal(with_block);
            match blocks[k] {
                LayoutBlock::Paragraph { fragments, style, footnotes, .. } => {
                    let p = placed(
                        fragments@,
                        open_place(inner_width(width, margins), Pt::infinity(), line_height),
                        style,
                    );
                    lemma_paragraph_footnotes_unmeasured(
                        footnotes@,
                        0,
                        fragments@,
                        p.lines,
                        flow.lines.len() as int,
                        flow.footnotes,
                    );
                },
                LayoutBlock::Table { rows, col_widths, cell_spacing, border_config, .. } => {
                    let format = TableFormat {
                        col_widths: col_widths@,
                        cell_spacing,
                        default_line_height: line_height,
                        borders: border_config,
                        suppress_first_row_top: false,
                    };
                    lemma_nested_footnotes_unmeasured(
                        table_footnotes(rows@, format),
                        0,
                        flow.lines.len() as int,
                        flow.footnotes,
                    );
                },
            }
        }
        lemma_blocks_unmeasured(blocks, k + 1, next, width, margins, line_height, parity);
    }
}

proof fn lemma_unmeasured_heights(footnotes: Seq<CellFootnote<'_>>, f: int, acc: Pt)
    requires
        are_unmeasured(footnotes),
    ensures
        note_heights(footnotes, f, acc) == acc,
    decreases footnotes.len() - f,
{
    if 0 <= f < footnotes.len() {
        assert(acc.plus(footnotes[f].page_height) == acc);
        lemma_unmeasured_heights(footnotes, f + 1, acc);
    }
}

proof fn lemma_unmeasured_cells(entries: Seq<EntryView<'_>>, c: int, acc: Pt)
    requires
        forall|k: int| #![trigger entries[k]]
            0 <= k < entries.len() ==> are_unmeasured(entries[k].layout.footnotes),
    ensures
        cells_note_height(entries, c, acc) == acc,
    decreases entries.len() - c,
{
    if 0 <= c < entries.len() {
        lemma_unmeasured_heights(entries[c].layout.footnotes, 0, acc);
        lemma_unmeasured_cells(entries, c + 1, acc);
    }
}

/// Footnotes of a measured table take no room until they are measured themselves.
proof fn lemma_unmeasured_table(rows: Seq<TableRowInput>, format: TableFormat, r: int)
    requires
        0 <= r < rows.len(),
    ensures
        row_note_height(measured_table(rows, format).rows[r]) == Pt::zero(),
{
    lemma_measured_table(rows, format);
    lemma_all_entries(rows, format);
    lemma_row_entries(rows, r, format);
    let entries = measured_table(rows, format).rows[r].entries;
    assert(entries == row_entries(rows, r, format));
    assert forall|c: int| #![trigger entries[c]] 0 <= c < entries.len() implies are_unmeasured(
        entries[c].layout.footnotes,
    ) by {
        let cell = rows[r].cells@[c];
        let width = layout_width(
            cell_width(rows[r], c, format.col_widths, format.cell_spacing),
            cell.margins,
            borders_of_row(rows, r, format)[c],
        );
        lemma_entry(rows, r, c, format);
        lemma_cell_layout(
            cell.blocks@,
            width,
            cell.margins,
            format.default_line_height,
            PageParity::Odd,
        );
        lemma_blocks_unmeasured(
            cell.blocks@,
            0,
            no_flow(),
            width,
            cell.margins,
            format.default_line_height,
            PageParity::Odd,
        );
    }
    lemma_unmeasured_cells(entries, 0, Pt::zero());
}

proof fn lemma_no_notes(measured: Seq<MeasuredRowView<'_>>, a: int, b: int)
    requires
        0 <= a,
        b <= measured.len(),
        forall|r: int| #![trigger measured[r]]
            0 <= r < measured.len() ==> row_note_height(measured[r]) == Pt::zero(),
    ensures
        notes_sum(measured, a, b) == 0,
    decreases b - a,
{
    if a < b {
        lemma_no_notes(measured, a + 1, b);
    }
}

/// A table whose first rows fit on a page that keeps no room for its footnotes, however many of
/// them are taken, is not divided, and is drawn as the table is that is laid out as a whole. A page
/// must offer room for each merged group below the repeated rows, and the heights must add up to
/// lengths.
pub proof fn law_rows_that_fit_are_drawn_whole<'a>(
    rows: Seq<TableRowInput>,
    format: TableFormat,
    available: Pt,
    page_height: Pt,
)
    requires
        rows.len() <= usize::MAX,
        heights_add_up(measured_table(rows, format).rows),
        forall|b: int| #![trigger heights_sum(measured_table(rows, format).rows, 0, b)]
            0 < b <= rows.len() ==> 0 <= available.units - heights_sum(
                measured_table(rows, format).rows,
                0,
                b,
            ) <= i64::MAX,
        merged_rows_fit(
            rows,
            measured_table(rows, format).rows,
            header_rows_from(rows, 0),
            page_height,
        ),
    ensures
        paginated_table(
            rows,
            format,
            (TablePaginationHeights {
                available_height: available,
                suppress_first_row_top: format.suppress_first_row_top,
                page_heights: PageHeights::Uniform(page_height),
                footnote_width: None,
                footnote_separator_height: Pt::zero(),
                first_page_has_footnotes: false,
            }),
        ) == seq![
            SliceView {
                commands: table_layout(rows, format).commands,
                size: table_layout(rows, format).size,
                footnotes: table_footnotes::<'a>(rows, format),
            },
        ],
{
    let pagination = TablePaginationHeights {
        available_height: available,
        suppress_first_row_top: format.suppress_first_row_top,
        page_heights: PageHeights::Uniform(page_height),
        footnote_width: None,
        footnote_separator_height: Pt::zero(),
        first_page_has_footnotes: false,
    };
    let p = table_paging(rows, format, pagination);
    lemma_measured_table(rows, format);
    assert forall|r: int| #![trigger p.measured[r]] 0 <= r < p.measured.len() implies
        row_note_height(p.measured[r]) == Pt::zero() by {
        lemma_unmeasured_table(rows, format, r);
    }
    lemma_no_notes(p.measured, 0, p.measured.len() as int);
    assert forall|b: int| #![trigger room_for(p, b, false)] 0 < b <= p.measured.len() implies 0
        <= available.units - room_for(p, b, false) <= i64::MAX by {
        lemma_no_notes(p.measured, 0, b);
        assert(heights_sum(measured_table(rows, format).rows, 0, b) == heights_sum(
            p.measured,
            0,
            b,
        ));
    }
    law_a_table_that_fits_is_drawn_whole(rows, format, pagination);
}

} // verus!
