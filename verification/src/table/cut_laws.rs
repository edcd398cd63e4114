//! Where the two parts of divided content stand.
use crate::block::TableRowInput;
use crate::dimension::Pt;
use crate::draw_command::DrawCommand;
use crate::note_laws::is_length;
use crate::table::cell::cell_consistent;
use crate::table::split::{
    cell_cut, content_above, content_below, legal_cut, lines_within, row_above, row_below,
    tallest_cell,
};
use crate::table::types::{CellLayoutView, CellLine, EntryView, MeasuredRowView};
use vstd::prelude::*;

verus! {

/// Whether a command stands between the heights `top` and `bottom`.
pub open spec fn stands_between(command: DrawCommand, top: int, bottom: int) -> bool {
    match command {
        DrawCommand::Text { position, .. } => top <= position.y.units <= bottom,
        DrawCommand::Line { line, .. } => top <= line.start.y.units <= bottom && top
            <= line.end.y.units <= bottom,
        DrawCommand::Rect { rect, .. } => top <= rect.origin.y.units && rect.origin.y.units
            + rect.size.height.units <= bottom,
        DrawCommand::Image { rect, .. } => top <= rect.origin.y.units && rect.origin.y.units
            + rect.size.height.units <= bottom,
        DrawCommand::Path { rect, .. } => top <= rect.origin.y.units && rect.origin.y.units
            + rect.size.height.units <= bottom,
    }
}

/// The first line that command number `i` helps to draw, from line `n` on.
pub open spec fn line_of(layout: CellLayoutView<'_>, n: int, i: int) -> int
    decreases layout.lines.len() - n,
{
    if n < 0 || n + 1 >= layout.lines.len() || i < layout.lines[n].commands_end {
        n
    } else {
        line_of(layout, n + 1, i)
    }
}

/// Whether each command of a cell's content stands within its line, where the content starts at
/// `inset`.
pub open spec fn lines_hold_their_commands(layout: CellLayoutView<'_>, inset: int) -> bool {
    forall|i: int| #![trigger layout.commands[i]]
        0 <= i < layout.commands.len() ==> stands_between(
            layout.commands[i],
            inset + layout.lines[line_of(layout, 0, i)].top.units,
            inset + layout.lines[line_of(layout, 0, i)].bottom.units,
        )
}

/// Whether the lines from `k` on stand at lengths when they are moved to the top.
pub open spec fn lines_can_move_up(layout: CellLayoutView<'_>, k: int) -> bool {
    let cut = layout.lines[k].top.units as int;
    &&& is_length(-cut)
    &&& is_length(layout.content_height.units - cut)
    &&& forall|i: int| #![trigger layout.lines[i]]
        k <= i < layout.lines.len() ==> is_length(layout.lines[i].top.units - cut) && is_length(
            layout.lines[i].bottom.units - cut,
        )
}

/// The command moved up by `cut`, where it stays a position.
proof fn lemma_moved_up(command: DrawCommand, cut: int, top: int, bottom: int)
    requires
        is_length(-cut),
        stands_between(command, top, bottom),
        is_length(top - cut),
        is_length(bottom - cut),
        is_length(top),
        is_length(bottom),
        match command {
            DrawCommand::Rect { rect, .. } => rect.size.height.units >= 0,
            DrawCommand::Image { rect, .. } => rect.size.height.units >= 0,
            DrawCommand::Path { rect, .. } => rect.size.height.units >= 0,
            _ => true,
        },
    ensures
        stands_between(
            command.shifted(Pt { units: 0 }, Pt { units: (-cut) as i64 }),
            top - cut,
            bottom - cut,
        ),
{
}

proof fn lemma_line_of(layout: CellLayoutView<'_>, n: int, i: int)
    requires
        cell_consistent(layout.commands, layout.lines, layout.footnotes),
        0 <= n < layout.lines.len(),
        0 <= i < layout.commands.len(),
        n > 0 ==> layout.lines[n - 1].commands_end <= i,
    ensures
        ({
            let l = line_of(layout, n, i);
            &&& n <= l < layout.lines.len()
            &&& i < layout.lines[l].commands_end
            &&& l > 0 ==> layout.lines[l - 1].commands_end <= i
        }),
    decreases layout.lines.len() - n,
{
    if n + 1 < layout.lines.len() && i >= layout.lines[n].commands_end {
        lemma_line_of(layout, n + 1, i);
    }
}

proof fn lemma_same_line(layout: CellLayoutView<'_>, i: int, a: int, b: int)
    requires
        cell_consistent(layout.commands, layout.lines, layout.footnotes),
        0 <= a < layout.lines.len(),
        0 <= b < layout.lines.len(),
        i < layout.lines[a].commands_end,
        a > 0 ==> layout.lines[a - 1].commands_end <= i,
        i < layout.lines[b].commands_end,
        b > 0 ==> layout.lines[b - 1].commands_end <= i,
    ensures
        a == b,
{
    if a < b {
        assert(layout.lines[a].commands_end <= layout.lines[b - 1].commands_end);
    } else if b < a {
        assert(layout.lines[b].commands_end <= layout.lines[a - 1].commands_end);
    }
}

/// Content that is divided above line `k` keeps its upper lines where they are. The lower lines and
/// all that draws them move up by the top of line `k`, so that this line stands at the top of the
/// lower part; each line keeps its height and its commands.
pub proof fn law_lower_lines_move_to_the_top(layout: CellLayoutView<'_>, k: int)
    requires
        0 <= k < layout.lines.len() <= usize::MAX,
        layout.commands.len() <= usize::MAX,
        cell_consistent(layout.commands, layout.lines, layout.footnotes),
        lines_can_move_up(layout, k),
    ensures
        ({
            let above = content_above(layout, k);
            let below = content_below(layout, k);
            let cut = layout.lines[k].top.units as int;
            let n = above.commands.len() as int;
            &&& n + below.commands.len() == layout.commands.len()
            &&& forall|i: int| #![trigger above.commands[i]]
                0 <= i < n ==> above.commands[i] == layout.commands[i]
            &&& forall|i: int| #![trigger below.commands[i]]
                0 <= i < below.commands.len() ==> below.commands[i] == layout.commands[n
                    + i].shifted(Pt { units: 0 }, Pt { units: (-cut) as i64 })
            &&& above.lines.len() == k
            &&& forall|i: int| #![trigger above.lines[i]]
                0 <= i < k ==> above.lines[i] == layout.lines[i]
            &&& k > 0 ==> above.content_height == layout.lines[k - 1].bottom && n
                == layout.lines[k - 1].commands_end
            &&& k == 0 ==> above.content_height.units == 0 && n == 0
            &&& below.lines.len() == layout.lines.len() - k
            &&& below.lines[0].top.units == 0
            &&& forall|i: int| #![trigger below.lines[i]]
                0 <= i < below.lines.len() ==> {
                    &&& below.lines[i].top.units == layout.lines[k + i].top.units - cut
                    &&& below.lines[i].bottom.units == layout.lines[k + i].bottom.units - cut
                    &&& below.lines[i].commands_end == layout.lines[k + i].commands_end - n
                    &&& below.lines[i].break_after == layout.lines[k + i].break_after
                }
            &&& below.content_height.units == layout.content_height.units - cut
        }),
{
    let above = content_above(layout, k);
    let below = content_below(layout, k);
    assert forall|i: int| #![trigger below.lines[i]] 0 <= i < below.lines.len() implies {
        &&& below.lines[i].top.units == layout.lines[k + i].top.units - layout.lines[k].top.units
        &&& below.lines[i].bottom.units == layout.lines[k + i].bottom.units
            - layout.lines[k].top.units
        &&& below.lines[i].commands_end == layout.lines[k + i].commands_end - above.commands.len()
    } by {
        let line = layout.lines[k + i];
        assert(line.commands_end <= layout.commands.len());
        if k > 0 {
            assert(layout.lines[k - 1].commands_end <= layout.lines[k + i].commands_end);
        }
    }
    if k > 0 {
        assert(layout.lines[k - 1].commands_end <= layout.commands.len());
    }
}

/// Where each command of a cell's content stands within its line, so it does in the lower part of the
/// content: all that is drawn there stands from the top of that part on.
pub proof fn law_lower_lines_hold_their_commands(layout: CellLayoutView<'_>, k: int, inset: int)
    requires
        0 <= k < layout.lines.len() <= usize::MAX,
        layout.commands.len() <= usize::MAX,
        cell_consistent(layout.commands, layout.lines, layout.footnotes),
        lines_can_move_up(layout, k),
        lines_hold_their_commands(layout, inset),
        forall|i: int| #![trigger layout.lines[i]]
            k <= i < layout.lines.len() ==> is_length(inset + layout.lines[i].top.units)
                && is_length(inset + layout.lines[i].bottom.units) && is_length(
                inset + layout.lines[i].top.units - layout.lines[k].top.units,
            ) && is_length(inset + layout.lines[i].bottom.units - layout.lines[k].top.units),
        forall|i: int| #![trigger layout.commands[i]]
            0 <= i < layout.commands.len() ==> match layout.commands[i] {
                DrawCommand::Rect { rect, .. } => rect.size.height.units >= 0,
                DrawCommand::Image { rect, .. } => rect.size.height.units >= 0,
                DrawCommand::Path { rect, .. } => rect.size.height.units >= 0,
                _ => true,
            },
    ensures
        lines_hold_their_commands(content_below(layout, k), inset),
{
    law_lower_lines_move_to_the_top(layout, k);
    crate::table::divided::law_divided_cell_shows_the_same(layout, k);
    let below = content_below(layout, k);
    let n = content_above(layout, k).commands.len() as int;
    let cut = layout.lines[k].top.units as int;
    assert forall|i: int| #![trigger below.commands[i]] 0 <= i < below.commands.len() implies
        stands_between(
        below.commands[i],
        inset + below.lines[line_of(below, 0, i)].top.units,
        inset + below.lines[line_of(below, 0, i)].bottom.units,
    ) by {
        lemma_line_of(below, 0, i);
        lemma_line_of(layout, 0, n + i);
        let a = line_of(below, 0, i);
        let b = line_of(layout, 0, n + i);
        let own = below.lines[a];
        if a > 0 {
            let before = below.lines[a - 1];
            assert(layout.lines[k + a - 1].commands_end <= n + i);
        } else if k > 0 {
            assert(layout.lines[k - 1].commands_end == n);
        }
        lemma_same_line(layout, n + i, k + a, b);
        assert(layout.commands[n + i] == layout.commands[n + i]);
        let line = layout.lines[b];
        lemma_moved_up(
            layout.commands[n + i],
            cut,
            inset + line.top.units,
            inset + line.bottom.units,
        );
    }
}

/// Whether the heights of cells with their margins are lengths.
pub open spec fn cells_have_heights(entries: Seq<EntryView<'_>>, row: TableRowInput) -> bool {
    forall|c: int| #![trigger entries[c]]
        0 <= c < entries.len() ==> is_length(
            row.cells@[c].margins.top.units + row.cells@[c].margins.bottom.units,
        ) && is_length(
            entries[c].layout.content_height.units + row.cells@[c].margins.top.units
                + row.cells@[c].margins.bottom.units,
        )
}

proof fn lemma_tallest(entries: Seq<EntryView<'_>>, row: TableRowInput, c: int, acc: Pt)
    requires
        0 <= c <= entries.len(),
        cells_have_heights(entries, row),
    ensures
        ({
            let t = tallest_cell(entries, row, c, acc).units;
            &&& t >= acc.units
            &&& forall|i: int| #![trigger entries[i]]
                c <= i < entries.len() ==> entries[i].layout.content_height.units
                    + row.cells@[i].margins.top.units + row.cells@[i].margins.bottom.units <= t
            &&& t == acc.units || exists|i: int| #![trigger entries[i]]
                c <= i < entries.len() && entries[i].layout.content_height.units
                    + row.cells@[i].margins.top.units + row.cells@[i].margins.bottom.units == t
        }),
    decreases entries.len() - c,
{
    if c < entries.len() {
        let own = entries[c].layout.content_height.plus(row.cells@[c].margins.vertical());
        let e = entries[c];
        lemma_tallest(entries, row, c + 1, acc.max(own));
        let t = tallest_cell(entries, row, c, acc).units;
        if t == acc.max(own).units && t != acc.units {
            assert(e.layout.content_height.units + row.cells@[c].margins.top.units
                + row.cells@[c].margins.bottom.units == t);
            assert(entries[c].layout.content_height.units + row.cells@[c].margins.top.units
                + row.cells@[c].margins.bottom.units == t);
        }
    }
}

/// Whether a part of a row is just as high as its highest cell with its margins.
pub open spec fn is_as_high_as_its_cells(part: MeasuredRowView<'_>, row: TableRowInput) -> bool {
    let inner = part.height.units - part.leading_gap.units;
    &&& inner >= 0
    &&& forall|c: int| #![trigger part.entries[c]]
        0 <= c < part.entries.len() ==> part.entries[c].layout.content_height.units
            + row.cells@[c].margins.top.units + row.cells@[c].margins.bottom.units <= inner
    &&& inner == 0 || exists|c: int| #![trigger part.entries[c]]
        0 <= c < part.entries.len() && part.entries[c].layout.content_height.units
            + row.cells@[c].margins.top.units + row.cells@[c].margins.bottom.units == inner
}

/// The two parts of a divided row have its cells at the same places across the page, and each part is
/// just as high as the highest of its cells.
pub proof fn law_parts_of_a_row_keep_its_cells(
    measured: MeasuredRowView<'_>,
    row: TableRowInput,
    cuts: Seq<int>,
)
    requires
        measured.entries.len() == row.cells@.len(),
        cells_have_heights(row_above(measured, row, cuts).entries, row),
        cells_have_heights(row_below(measured, row, cuts).entries, row),
        is_length(
            tallest_cell(row_above(measured, row, cuts).entries, row, 0, Pt { units: 0 }).units
                + measured.leading_gap.units,
        ),
        is_length(
            tallest_cell(row_below(measured, row, cuts).entries, row, 0, Pt { units: 0 }).units
                + measured.leading_gap.units,
        ),
    ensures
        ({
            let above = row_above(measured, row, cuts);
            let below = row_below(measured, row, cuts);
            &&& above.leading_gap == measured.leading_gap
            &&& below.leading_gap == measured.leading_gap
            &&& is_as_high_as_its_cells(above, row)
            &&& is_as_high_as_its_cells(below, row)
            &&& above.entries.len() == measured.entries.len()
            &&& below.entries.len() == measured.entries.len()
            &&& forall|c: int| #![trigger measured.entries[c]]
                0 <= c < measured.entries.len() ==> {
                    &&& above.entries[c].layout == content_above(
                        measured.entries[c].layout,
                        cuts[c],
                    )
                    &&& below.entries[c].layout == content_below(
                        measured.entries[c].layout,
                        cuts[c],
                    )
                    &&& above.entries[c].cell_x == measured.entries[c].cell_x
                    &&& above.entries[c].cell_w == measured.entries[c].cell_w
                    &&& above.entries[c].grid_col == measured.entries[c].grid_col
                    &&& below.entries[c].cell_x == measured.entries[c].cell_x
                    &&& below.entries[c].cell_w == measured.entries[c].cell_w
                    &&& below.entries[c].grid_col == measured.entries[c].grid_col
                }
        }),
{
    lemma_tallest(row_above(measured, row, cuts).entries, row, 0, Pt { units: 0 });
    lemma_tallest(row_below(measured, row, cuts).entries, row, 0, Pt { units: 0 });
}

/// Whether the first `k` lines end within `budget`.
pub open spec fn lines_end_within(lines: Seq<CellLine>, k: int, budget: int) -> bool {
    forall|i: int| #![trigger lines[i]] 0 <= i < k ==> lines[i].bottom.units <= budget
}

/// Whether content may be divided below its first `k` lines, or not at all.
pub open spec fn may_cut(lines: Seq<CellLine>, k: int) -> bool {
    k <= 0 || k >= lines.len() || lines[k - 1].break_after
}

proof fn lemma_lines_within(lines: Seq<CellLine>, k: int, budget: Pt)
    requires
        0 <= k <= lines.len(),
        lines_end_within(lines, k, budget.units as int),
    ensures
        ({
            let n = lines_within(lines, k, budget);
            &&& k <= n <= lines.len()
            &&& lines_end_within(lines, n, budget.units as int)
            &&& n < lines.len() ==> lines[n].bottom.units > budget.units
        }),
    decreases lines.len() - k,
{
    if k < lines.len() && lines[k].bottom.units <= budget.units {
        lemma_lines_within(lines, k + 1, budget);
    }
}

proof fn lemma_legal_cut(lines: Seq<CellLine>, k: int)
    requires
        0 <= k <= lines.len(),
    ensures
        ({
            let n = legal_cut(lines, k);
            &&& 0 <= n <= k
            &&& may_cut(lines, n)
            &&& forall|i: int| n < i <= k ==> !#[trigger] may_cut(lines, i)
        }),
    decreases k,
{
    if !may_cut(lines, k) {
        lemma_legal_cut(lines, k - 1);
    }
}

/// A cell of a row that may be `available` high keeps as many lines as fit below each other between
/// the margins of the cell and below the gap above the row, and as many as may be divided from those
/// below them: no more lines fit so.
pub proof fn law_a_cell_keeps_the_lines_that_fit(
    measured: MeasuredRowView<'_>,
    row: TableRowInput,
    c: int,
    available: Pt,
)
    requires
        is_length(row.cells@[c].margins.top.units + row.cells@[c].margins.bottom.units),
        is_length(available.units - measured.leading_gap.units),
        is_length(
            available.units - measured.leading_gap.units - row.cells@[c].margins.top.units
                - row.cells@[c].margins.bottom.units,
        ),
    ensures
        ({
            let lines = measured.entries[c].layout.lines;
            let k = cell_cut(measured, row, c, available);
            let budget = available.units - measured.leading_gap.units
                - row.cells@[c].margins.top.units - row.cells@[c].margins.bottom.units;
            &&& 0 <= k <= lines.len()
            &&& may_cut(lines, k)
            &&& lines_end_within(lines, k, budget)
            &&& forall|j: int|
                k < j <= lines.len() && #[trigger] may_cut(lines, j) ==> !lines_end_within(
                    lines,
                    j,
                    budget,
                )
        }),
{
    let lines = measured.entries[c].layout.lines;
    let budget = available.minus(measured.leading_gap).minus(row.cells@[c].margins.vertical());
    lemma_lines_within(lines, 0, budget);
    let n = lines_within(lines, 0, budget);
    lemma_legal_cut(lines, n);
    let k = cell_cut(measured, row, c, available);
    assert forall|j: int| k < j <= lines.len() && #[trigger] may_cut(lines, j) implies
        !lines_end_within(lines, j, budget.units as int) by {
        assert(j > n);
        assert(lines[n].bottom.units > budget.units);
    }
}

} // verus!
