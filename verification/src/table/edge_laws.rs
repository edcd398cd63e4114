//! What the edges of cells show, and which line of a cell a footnote belongs to.
use crate::block::{LayoutFootnote, TableBorderConfig, TableBorderLine, TableRowInput};
use crate::fragment::Fragment;
use crate::paragraph::{count_references, PlacedLine};
use crate::table::borders::{conflict_winner, CellBorders};
use crate::table::cell::{line_holding, nth_reference, paragraph_footnotes};
use crate::table::edges::{initial_cell_borders, join_cells, runs_into_next_row, without_top};
use crate::table::emit::shown_top;
use crate::table::grid::{cell_index, cell_index_from, grid_start};
use crate::table::layout::restored_border;
use crate::table::split::{borders_below_cut, notes_above, notes_below};
use crate::table::types::CellFootnote;
use vstd::prelude::*;

verus! {

/// The edge between two neighbouring cells of a row is drawn by the cell on its left alone, as the
/// border that wins between the two. The outer edges of the row and all edges above and below stay.
pub proof fn law_edges_between_cells_are_drawn_once(b: Seq<CellBorders>, c: int)
    requires
        0 <= c < b.len(),
    ensures
        ({
            let r = join_cells(b);
            &&& r.len() == b.len()
            &&& r[c].top == b[c].top
            &&& r[c].bottom == b[c].bottom
            &&& c == 0 ==> r[c].left == b[c].left
            &&& c > 0 ==> r[c].left.line() is None && r[c - 1].right == conflict_winner(
                b[c - 1].right,
                b[c].left,
            )
            &&& c + 1 == b.len() ==> r[c].right == b[c].right
        }),
{
    reveal(join_cells);
}

/// No edge is drawn inside a merged region: a cell that continues one shows none above it, and a cell
/// whose region goes on below shows none below it.
pub proof fn law_merged_regions_have_no_inner_edges(
    rows: Seq<TableRowInput>,
    row: int,
    cell: int,
    borders: Option<TableBorderConfig>,
    ncols: int,
)
    ensures
        ({
            let b = initial_cell_borders(rows, row, cell, borders, ncols);
            &&& rows[row].cells@[cell].continues_merge() ==> b.top.line() is None
            &&& runs_into_next_row(rows, row, grid_start(rows[row], cell)) ==> b.bottom.line() is None
        }),
{
}

/// A table that leaves out its top border leaves out just the edges above its first row.
pub proof fn law_only_top_edges_are_left_out(b: Seq<CellBorders>, c: int)
    requires
        0 <= c < b.len(),
    ensures
        ({
            let r = without_top(b);
            &&& r.len() == b.len()
            &&& r[c].top.line() is None
            &&& r[c].bottom == b[c].bottom
            &&& r[c].left == b[c].left
            &&& r[c].right == b[c].right
        }),
{
    reveal(without_top);
}

/// Where a row is divided, its own top border stays with its upper part: the lower part starts without
/// it, keeps its other edges, and shows the top border of the table where it starts a further part of
/// the table.
pub proof fn law_divided_rows_start_like_the_table(
    b: CellBorders,
    outer: Option<TableBorderLine>,
    slice: int,
    i: int,
)
    ensures
        ({
            let below = borders_below_cut(b);
            let shown = shown_top(below.top, restored_border(outer, slice, i)).line();
            &&& below.bottom == b.bottom && below.left == b.left && below.right == b.right
            &&& below.top.line() is None
            &&& slice > 0 && i == 0 && !(b.top is Suppressed) ==> shown == outer
            &&& slice <= 0 || i != 0 || b.top is Suppressed ==> shown is None
        }),
{
}

proof fn lemma_cell_index(row: TableRowInput, i: int, target: usize, c: int)
    requires
        0 <= i <= row.cells@.len(),
        forall|k: int| #![trigger grid_start(row, k)]
            0 <= k < row.cells@.len() ==> grid_start(row, k) + row.cells@[k].span() <= usize::MAX,
        grid_start(row, i) <= target,
    ensures
        cell_index_from(row, i, grid_start(row, i), target) == Some(c) <==> i <= c
            < row.cells@.len() && grid_start(row, c) <= target < grid_start(row, c)
            + row.cells@[c].span(),
    decreases row.cells@.len() - i,
{
    if i < row.cells@.len() {
        assert(grid_start(row, i) + row.cells@[i].span() <= usize::MAX);
        assert(grid_start(row, i + 1) == grid_start(row, i) + row.cells@[i].span());
        if target >= grid_start(row, i + 1) {
            lemma_cell_index(row, i + 1, target, c);
        } else if i < c < row.cells@.len() {
            lemma_starts_grow(row, i + 1, c);
        }
    }
}

proof fn lemma_starts_grow(row: TableRowInput, a: int, b: int)
    requires
        0 <= a <= b <= row.cells@.len(),
    ensures
        grid_start(row, a) <= grid_start(row, b),
    decreases b - a,
{
    if a < b {
        lemma_starts_grow(row, a, b - 1);
    }
}

/// The cells of a row take the columns of the grid one after another: a cell covers just the columns
/// from its start on that it spans.
pub proof fn law_cells_cover_their_columns(row: TableRowInput, target: usize, c: int)
    requires
        forall|k: int| #![trigger grid_start(row, k)]
            0 <= k < row.cells@.len() ==> grid_start(row, k) + row.cells@[k].span() <= usize::MAX,
    ensures
        cell_index(row, target) == Some(c) <==> 0 <= c < row.cells@.len() && grid_start(row, c)
            <= target < grid_start(row, c) + row.cells@[c].span(),
        row.cells@.len() > 0 ==> grid_start(row, 0) == row.grid_before,
        0 <= c && c + 1 < row.cells@.len() ==> grid_start(row, c + 1) == grid_start(row, c)
            + row.cells@[c].span(),
{
    if target >= row.grid_before {
        lemma_cell_index(row, 0, target, c);
    } else if 0 <= c < row.cells@.len() {
        lemma_starts_grow(row, 0, c);
    }
    if 0 <= c && c + 1 < row.cells@.len() {
        assert(grid_start(row, c) + row.cells@[c].span() <= usize::MAX);
    }
}

proof fn lemma_reference(fragments: Seq<Fragment>, j: int, n: int, acc: int)
    requires
        0 <= j <= fragments.len(),
        0 <= n,
    ensures
        ({
            let r = nth_reference(fragments, j, n);
            &&& j <= r <= fragments.len()
            &&& r < fragments.len() ==> fragments[r].is_footnote_reference() && count_references(
                fragments,
                j,
                r,
                acc,
            ) == acc + n
            &&& r == fragments.len() ==> count_references(
                fragments,
                j,
                fragments.len() as int,
                acc,
            ) <= acc + n
        }),
    decreases fragments.len() - j,
{
    if j < fragments.len() {
        if fragments[j].is_footnote_reference() {
            if n > 0 {
                lemma_reference(fragments, j + 1, n - 1, acc + 1);
            }
        } else {
            lemma_reference(fragments, j + 1, n, acc);
        }
    }
}

proof fn lemma_line(lines: Seq<PlacedLine>, i: int, j: int)
    requires
        0 <= i < lines.len(),
        i > 0 ==> lines[i - 1].end <= j,
    ensures
        ({
            let r = line_holding(lines, i, j);
            &&& i <= r < lines.len()
            &&& r > 0 ==> lines[r - 1].end <= j
            &&& r + 1 < lines.len() ==> j < lines[r].end
        }),
    decreases lines.len() - i,
{
    if i + 1 < lines.len() && j >= lines[i].end {
        lemma_line(lines, i + 1, j);
    }
}

proof fn lemma_notes<'a>(
    footnotes: Seq<LayoutFootnote>,
    f: int,
    fragments: Seq<Fragment>,
    lines: Seq<PlacedLine>,
    first_line: int,
    acc: Seq<CellFootnote<'a>>,
    n: int,
    at: int,
)
    requires
        0 <= f <= footnotes.len(),
        at == acc.len() - f,
        n < footnotes.len(),
        f <= n || (0 <= n && 0 <= at + n < acc.len()),
    ensures
        ({
            let r = paragraph_footnotes(footnotes, f, fragments, lines, first_line, acc);
            &&& r.len() == at + footnotes.len()
            &&& n < f ==> r[at + n] == acc[at + n]
            &&& f <= n ==> r[at + n].footnote == &footnotes[n]
            &&& f <= n ==> r[at + n].line == (first_line + line_holding(
                lines,
                0,
                nth_reference(fragments, 0, n),
            )) as usize
        }),
    decreases footnotes.len() - f,
{
    if f < footnotes.len() {
        let next = acc.push(
            CellFootnote {
                footnote: &footnotes[f],
                line: (first_line + line_holding(lines, 0, nth_reference(fragments, 0, f)))
                    as usize,
                page_height: crate::dimension::Pt::zero(),
            },
        );
        lemma_notes(footnotes, f + 1, fragments, lines, first_line, next, n, at);
        let r = paragraph_footnotes(footnotes, f, fragments, lines, first_line, acc);
        assert(r == paragraph_footnotes(footnotes, f + 1, fragments, lines, first_line, next));
    }
}

/// Each footnote of a paragraph in a cell belongs to the line that refers to it: the line that holds
/// the reference which as many references stand before as notes before the note. A note that nothing
/// refers to belongs to the last line.
pub proof fn law_notes_belong_to_their_lines<'a>(
    footnotes: Seq<LayoutFootnote>,
    fragments: Seq<Fragment>,
    lines: Seq<PlacedLine>,
    first_line: int,
    acc: Seq<CellFootnote<'a>>,
    n: int,
) -> (at: (int, int))
    requires
        0 <= n < footnotes.len(),
        0 < lines.len(),
        0 <= first_line,
        first_line + lines.len() <= usize::MAX,
        lines[lines.len() - 1].end == fragments.len(),
        forall|k: int| #![trigger lines[k]]
            0 <= k < lines.len() ==> lines[k].start <= lines[k].end <= fragments.len(),
    ensures
        ({
            let r = paragraph_footnotes(footnotes, 0, fragments, lines, first_line, acc);
            let note = r[acc.len() + n];
            let (line, j) = at;
            &&& r.len() == acc.len() + footnotes.len()
            &&& note.footnote == &footnotes[n]
            &&& note.line == first_line + line
            &&& 0 <= line < lines.len()
            &&& line > 0 ==> lines[line - 1].end <= j
            &&& line + 1 < lines.len() ==> j < lines[line].end
            &&& 0 <= j <= fragments.len()
            &&& j < fragments.len() ==> fragments[j].is_footnote_reference() && count_references(
                fragments,
                0,
                j,
                0,
            ) == n
            &&& j == fragments.len() ==> count_references(fragments, 0, j, 0) <= n
        }),
{
    let j = nth_reference(fragments, 0, n);
    lemma_reference(fragments, 0, n, 0);
    lemma_line(lines, 0, j);
    lemma_notes(footnotes, 0, fragments, lines, first_line, acc, n, acc.len() as int);
    (line_holding(lines, 0, j), j)
}

proof fn lemma_notes_parted<'a>(
    footnotes: Seq<CellFootnote<'a>>,
    k: int,
    f: int,
    above: Seq<CellFootnote<'a>>,
    below: Seq<CellFootnote<'a>>,
)
    requires
        0 <= f <= footnotes.len(),
        0 <= k,
    ensures
        ({
            let a = notes_above(footnotes, k, f, above);
            let b = notes_below(footnotes, k, f, below);
            &&& a.len() + b.len() == above.len() + below.len() + footnotes.len() - f
            &&& above.len() <= a.len()
            &&& below.len() <= b.len()
            &&& forall|i: int| #![trigger above[i]] 0 <= i < above.len() ==> a[i] == above[i]
            &&& forall|i: int| #![trigger below[i]] 0 <= i < below.len() ==> b[i] == below[i]
            &&& forall|i: int| #![trigger a[i]]
                above.len() <= i < a.len() ==> a[i].line < k && exists|m: int|
                    #![trigger footnotes[m]]
                    f <= m < footnotes.len() && footnotes[m] == a[i]
            &&& forall|i: int| #![trigger b[i]]
                below.len() <= i < b.len() ==> exists|m: int| #![trigger footnotes[m]]
                    f <= m < footnotes.len() && footnotes[m].footnote == b[i].footnote
                        && footnotes[m].line == b[i].line + k && footnotes[m].page_height
                        == b[i].page_height
        }),
    decreases footnotes.len() - f,
{
    if f < footnotes.len() {
        let note = footnotes[f];
        let (next_above, next_below) = if note.line < k {
            (above.push(note), below)
        } else {
            (above, below.push(CellFootnote { line: (note.line - k) as usize, ..note }))
        };
        lemma_notes_parted(footnotes, k, f + 1, next_above, next_below);
        let a = notes_above(footnotes, k, f, above);
        let b = notes_below(footnotes, k, f, below);
        assert(a == notes_above(footnotes, k, f + 1, next_above));
        assert(b == notes_below(footnotes, k, f + 1, next_below));
        assert forall|i: int| #![trigger above[i]] 0 <= i < above.len() implies a[i] == above[i] by {
            assert(next_above[i] == above[i]);
        }
        assert forall|i: int| #![trigger below[i]] 0 <= i < below.len() implies b[i] == below[i] by {
            assert(next_below[i] == below[i]);
        }
        if note.line < k {
            assert(a[above.len() as int] == next_above[above.len() as int]);
        } else {
            assert(b[below.len() as int] == next_below[below.len() as int]);
        }
        assert forall|i: int| #![trigger a[i]] above.len() <= i < a.len() implies a[i].line < k
            && exists|m: int| #![trigger footnotes[m]]
            f <= m < footnotes.len() && footnotes[m] == a[i] by {
            if i < next_above.len() {
                assert(footnotes[f] == a[i]);
            }
        }
        assert forall|i: int| #![trigger b[i]] below.len() <= i < b.len() implies exists|m: int|
            #![trigger footnotes[m]]
            f <= m < footnotes.len() && footnotes[m].footnote == b[i].footnote && footnotes[m].line
                == b[i].line + k && footnotes[m].page_height == b[i].page_height by {
            if i < next_below.len() {
                assert(footnotes[f].line == b[i].line + k);
            }
        }
    }
}

/// Where a cell is divided below line `k`, the footnotes of the lines above stay with them, and those
/// of the lines below go with these, which are counted anew. No note is lost and none is doubled.
pub proof fn law_notes_go_with_their_lines<'a>(footnotes: Seq<CellFootnote<'a>>, k: int)
    requires
        0 <= k,
    ensures
        ({
            let a = notes_above(footnotes, k, 0, Seq::empty());
            let b = notes_below(footnotes, k, 0, Seq::empty());
            &&& a.len() + b.len() == footnotes.len()
            &&& forall|i: int| #![trigger a[i]]
                0 <= i < a.len() ==> a[i].line < k && exists|m: int| #![trigger footnotes[m]]
                    0 <= m < footnotes.len() && footnotes[m] == a[i]
            &&& forall|i: int| #![trigger b[i]]
                0 <= i < b.len() ==> exists|m: int| #![trigger footnotes[m]]
                    0 <= m < footnotes.len() && footnotes[m].footnote == b[i].footnote
                        && footnotes[m].line == b[i].line + k && footnotes[m].page_height
                        == b[i].page_height
        }),
{
    lemma_notes_parted(footnotes, k, 0, Seq::empty(), Seq::empty());
}

} // verus!
