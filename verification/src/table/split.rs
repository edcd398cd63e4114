//! Dividing a row's content between two pages.
use crate::block::TableRowInput;
use crate::dimension::Pt;
use crate::draw_command::{append_shifted, shift_all, DrawCommand};
use crate::table::borders::{CellBorders, CellEdge};
use crate::table::cell::cell_consistent;
use crate::table::emit::row_fits;
use crate::table::footnotes::{footnote_page_cost, measured_row_footnote_height, row_note_height};
use crate::table::measure::{entries_consistent, row_is_sound};
use crate::table::types::{
    entries_view, CellFootnote, CellLayout, CellLayoutEntry, CellLayoutView, CellLine, EntryView,
    MeasuredRow, MeasuredRowView,
};
use vstd::prelude::*;

verus! {

/// How many lines from `k` on fit within `budget`, one after another, and `k` more.
pub open spec fn lines_within(lines: Seq<CellLine>, k: int, budget: Pt) -> int
    decreases lines.len() - k,
{
    if k < 0 || k >= lines.len() || lines[k].bottom.units > budget.units {
        k
    } else {
        lines_within(lines, k + 1, budget)
    }
}

/// The greatest number of lines, `k` at most, below which the content may be
/// divided; all of them count.
pub open spec fn legal_cut(lines: Seq<CellLine>, k: int) -> int
    decreases k,
{
    if k <= 0 || k >= lines.len() || lines[k - 1].break_after {
        k
    } else {
        legal_cut(lines, k - 1)
    }
}

/// How many lines of a cell stay when the row may be `available` high.
pub open spec fn cell_cut(
    measured: MeasuredRowView<'_>,
    row: TableRowInput,
    c: int,
    available: Pt,
) -> int {
    let lines = measured.entries[c].layout.lines;
    let budget = available.minus(measured.leading_gap).minus(row.cells@[c].margins.vertical());
    legal_cut(lines, lines_within(lines, 0, budget))
}

/// Whether a row can be divided within `available`: each cell that holds
/// something keeps a line at least, and some cell leaves a line.
pub open spec fn can_cut(
    measured: MeasuredRowView<'_>,
    row: TableRowInput,
    available: Pt,
) -> bool {
    &&& forall|c: int| #![trigger measured.entries[c]]
        0 <= c < measured.entries.len() && measured.entries[c].layout.lines.len() > 0 ==> cell_cut(
            measured,
            row,
            c,
            available,
        ) > 0
    &&& exists|c: int| #![trigger measured.entries[c]]
        0 <= c < measured.entries.len() && cell_cut(measured, row, c, available)
            < measured.entries[c].layout.lines.len()
}

/// How many lines each cell keeps when the row may be `available` high.
pub open spec fn row_cut(
    measured: MeasuredRowView<'_>,
    row: TableRowInput,
    available: Pt,
) -> Seq<int> {
    Seq::new(measured.entries.len(), |c: int| cell_cut(measured, row, c, available))
}

fn find_cell_cut(
    measured: &MeasuredRow<'_>,
    row: &TableRowInput,
    c: usize,
    available: Pt,
) -> (r: usize)
    requires
        row_fits(measured@, *row),
        c < row.cells@.len(),
    ensures
        r == cell_cut(measured@, *row, c as int, available),
        r <= measured@.entries[c as int].layout.lines.len(),
{
    let lines = &measured.entries[c].layout.lines;
    let budget = available.minus(measured.leading_gap).minus(row.cells[c].margins.vertical());
    let mut k: usize = 0;
    while k < lines.len() && lines[k].bottom.units <= budget.units
        invariant
            k <= lines@.len(),
            lines_within(lines@, k as int, budget) == lines_within(lines@, 0, budget),
        decreases lines@.len() - k,
    {
        k += 1;
    }
    let count: usize = lines.len();
    let ghost fitting = k;
    while k > 0 && k < count && !lines[k - 1].break_after
        invariant
            k <= count,
            count == lines@.len(),
            legal_cut(lines@, k as int) == legal_cut(lines@, fitting as int),
        decreases k,
    {
        k -= 1;
    }
    k
}

/// Find how many lines of each cell stay when a row may be `available` high.
///
/// Lines that belong together stay together, whatever widow control says: the
/// rule for lone lines is one of the page body, not of table rows.
pub fn find_row_cut(measured: &MeasuredRow<'_>, row: &TableRowInput, available: Pt) -> (r: Option<
    Vec<usize>,
>)
    requires
        row_fits(measured@, *row),
    ensures
        match r {
            Some(cuts) => can_cut(measured@, *row, available) && cuts@.len()
                == measured@.entries.len() && forall|c: int|
                #![trigger cuts@[c]]
                0 <= c < cuts@.len() ==> cuts@[c] == cell_cut(measured@, *row, c, available)
                    && cuts@[c] <= measured@.entries[c].layout.lines.len(),
            None => !can_cut(measured@, *row, available),
        },
{
    let mut cuts: Vec<usize> = Vec::new();
    let mut leaves = false;
    let mut c: usize = 0;
    while c < measured.entries.len()
        invariant
            c <= measured.entries@.len(),
            row_fits(measured@, *row),
            cuts@.len() == c,
            forall|k: int|
                #![trigger cuts@[k]]
                0 <= k < c ==> cuts@[k] == cell_cut(measured@, *row, k, available) && cuts@[k]
                    <= measured@.entries[k].layout.lines.len(),
            forall|k: int|
                #![trigger measured@.entries[k]]
                0 <= k < c && measured@.entries[k].layout.lines.len() > 0 ==> cell_cut(
                    measured@,
                    *row,
                    k,
                    available,
                ) > 0,
            leaves == exists|k: int|
                #![trigger measured@.entries[k]]
                0 <= k < c && cell_cut(measured@, *row, k, available)
                    < measured@.entries[k].layout.lines.len(),
        decreases measured.entries@.len() - c,
    {
        let cut: usize = find_cell_cut(measured, row, c, available);
        let count: usize = measured.entries[c].layout.lines.len();
        assert(measured@.entries[c as int].layout.lines.len() == count);
        if count > 0 && cut == 0 {
            return None;
        }
        if cut < count {
            leaves = true;
        }
        cuts.push(cut);
        c += 1;
    }
    if leaves {
        Some(cuts)
    } else {
        None
    }
}

/// The footnotes of the lines before `k`, from number `f` on, after those in `acc`.
pub open spec fn notes_above<'a>(
    footnotes: Seq<CellFootnote<'a>>,
    k: int,
    f: int,
    acc: Seq<CellFootnote<'a>>,
) -> Seq<CellFootnote<'a>>
    decreases footnotes.len() - f,
{
    if f < 0 || f >= footnotes.len() {
        acc
    } else {
        notes_above(
            footnotes,
            k,
            f + 1,
            if footnotes[f].line < k {
                acc.push(footnotes[f])
            } else {
                acc
            },
        )
    }
}

/// The footnotes of the lines from `k` on, from number `f` on, after those in
/// `acc`; their lines are counted anew.
pub open spec fn notes_below<'a>(
    footnotes: Seq<CellFootnote<'a>>,
    k: int,
    f: int,
    acc: Seq<CellFootnote<'a>>,
) -> Seq<CellFootnote<'a>>
    decreases footnotes.len() - f,
{
    if f < 0 || f >= footnotes.len() {
        acc
    } else {
        notes_below(
            footnotes,
            k,
            f + 1,
            if footnotes[f].line < k {
                acc
            } else {
                acc.push(CellFootnote { line: (footnotes[f].line - k) as usize, ..footnotes[f] })
            },
        )
    }
}

/// How many commands draw the first `k` lines.
pub open spec fn commands_above(layout: CellLayoutView<'_>, k: int) -> int {
    if k >= layout.lines.len() {
        layout.commands.len() as int
    } else if k <= 0 {
        0
    } else {
        layout.lines[k - 1].commands_end as int
    }
}

/// The height at which the content is divided below its first `k` lines.
pub open spec fn cut_height(layout: CellLayoutView<'_>, k: int) -> Pt {
    if k >= layout.lines.len() {
        layout.content_height
    } else {
        layout.lines[k].top
    }
}

/// The first `k` lines of a cell's content.
pub open spec fn content_above<'a>(layout: CellLayoutView<'a>, k: int) -> CellLayoutView<'a> {
    CellLayoutView {
        commands: layout.commands.subrange(0, commands_above(layout, k)),
        content_height: if k >= layout.lines.len() {
            layout.content_height
        } else if k <= 0 {
            Pt::zero()
        } else {
            layout.lines[k - 1].bottom
        },
        lines: layout.lines.subrange(0, k),
        footnotes: notes_above(layout.footnotes, k, 0, Seq::empty()),
    }
}

/// A line of content that is divided at `height`, below `commands` commands.
pub open spec fn line_below(line: CellLine, height: Pt, commands: int) -> CellLine {
    CellLine {
        top: line.top.minus(height),
        bottom: line.bottom.minus(height),
        commands_end: (line.commands_end - commands) as usize,
        break_after: line.break_after,
    }
}

/// The lines of a cell's content from number `k` on, moved to its top.
pub open spec fn content_below<'a>(layout: CellLayoutView<'a>, k: int) -> CellLayoutView<'a> {
    let height = cut_height(layout, k);
    let skipped = commands_above(layout, k);
    CellLayoutView {
        commands: shift_all(
            layout.commands.subrange(skipped, layout.commands.len() as int),
            Pt::zero(),
            Pt::zero().minus(height),
        ),
        content_height: layout.content_height.minus(height),
        lines: Seq::new(
            (layout.lines.len() - k) as nat,
            |i: int| line_below(layout.lines[k + i], height, skipped),
        ),
        footnotes: notes_below(layout.footnotes, k, 0, Seq::empty()),
    }
}

/// The borders of the lower part of a divided row: a border at the top of the row
/// does not show at the cut.
#[verifier::allow_in_spec]
pub fn borders_below_cut(b: CellBorders) -> CellBorders
    returns
        (match b.top {
            CellEdge::Line(_) => CellBorders {
                top: CellEdge::Absent,
                bottom: b.bottom,
                left: b.left,
                right: b.right,
            },
            _ => b,
        }),
{
    match b.top {
        CellEdge::Line(_) => CellBorders {
            top: CellEdge::Absent,
            bottom: b.bottom,
            left: b.left,
            right: b.right,
        },
        _ => b,
    }
}

/// The greatest height of the cells from `c` on with their margins, and `acc`.
pub open spec fn tallest_cell(
    entries: Seq<EntryView<'_>>,
    row: TableRowInput,
    c: int,
    acc: Pt,
) -> Pt
    decreases entries.len() - c,
{
    if c < 0 || c >= entries.len() {
        acc
    } else {
        tallest_cell(
            entries,
            row,
            c + 1,
            acc.max(entries[c].layout.content_height.plus(row.cells@[c].margins.vertical())),
        )
    }
}

/// The upper part of a divided row. It ends at a page's edge, where no border
/// takes room.
pub open spec fn row_above<'a>(
    measured: MeasuredRowView<'a>,
    row: TableRowInput,
    cuts: Seq<int>,
) -> MeasuredRowView<'a> {
    let entries = Seq::new(
        measured.entries.len(),
        |c: int|
            EntryView {
                layout: content_above(measured.entries[c].layout, cuts[c]),
                ..measured.entries[c]
            },
    );
    MeasuredRowView {
        entries,
        borders: measured.borders,
        height: tallest_cell(entries, row, 0, Pt::zero()).plus(measured.leading_gap),
        leading_gap: measured.leading_gap,
        border_gap_below: Pt::zero(),
    }
}

/// The lower part of a divided row.
pub open spec fn row_below<'a>(
    measured: MeasuredRowView<'a>,
    row: TableRowInput,
    cuts: Seq<int>,
) -> MeasuredRowView<'a> {
    let entries = Seq::new(
        measured.entries.len(),
        |c: int|
            EntryView {
                layout: content_below(measured.entries[c].layout, cuts[c]),
                ..measured.entries[c]
            },
    );
    MeasuredRowView {
        entries,
        borders: Seq::new(
            measured.borders.len(),
            |c: int| borders_below_cut(measured.borders[c]),
        ),
        height: tallest_cell(entries, row, 0, Pt::zero()).plus(measured.leading_gap),
        leading_gap: measured.leading_gap,
        border_gap_below: measured.border_gap_below,
    }
}

/// The number of lines in the cells before `c`.
pub open spec fn lines_before(entries: Seq<EntryView<'_>>, c: int) -> nat
    decreases c,
{
    if c <= 0 {
        0
    } else {
        lines_before(entries, c - 1) + entries[c - 1].layout.lines.len()
    }
}

/// The number of lines in a row.
pub open spec fn row_lines(measured: MeasuredRowView<'_>) -> nat {
    lines_before(measured.entries, measured.entries.len() as int)
}

/// The two parts of a divided row.
#[derive(Debug)]
pub struct SplitRow<'a> {
    pub first: MeasuredRow<'a>,
    pub second: MeasuredRow<'a>,
}

fn take_above<'a>(layout: &CellLayout<'a>, k: usize) -> (r: CellLayout<'a>)
    requires
        cell_consistent(layout@.commands, layout@.lines, layout@.footnotes),
        k <= layout@.lines.len(),
    ensures
        r@ == content_above(layout@, k as int),
        cell_consistent(r@.commands, r@.lines, r@.footnotes),
{
    let count: usize = layout.lines.len();
    let end: usize = if k >= count {
        layout.commands.len()
    } else if k == 0 {
        0
    } else {
        layout.lines[k - 1].commands_end
    };
    let content_height = if k >= count {
        layout.content_height
    } else if k == 0 {
        Pt::zero()
    } else {
        layout.lines[k - 1].bottom
    };
    let mut commands: Vec<DrawCommand> = Vec::new();
    let mut i: usize = 0;
    while i < end
        invariant
            i <= end <= layout.commands@.len(),
            commands@ == layout.commands@.subrange(0, i as int),
        decreases end - i,
    {
        commands.push(layout.commands[i]);
        i += 1;
        assert(commands@ =~= layout.commands@.subrange(0, i as int));
    }
    let mut lines: Vec<CellLine> = Vec::new();
    let mut j: usize = 0;
    while j < k
        invariant
            j <= k <= layout.lines@.len(),
            lines@ == layout.lines@.subrange(0, j as int),
        decreases k - j,
    {
        lines.push(layout.lines[j]);
        j += 1;
        assert(lines@ =~= layout.lines@.subrange(0, j as int));
    }
    let mut footnotes: Vec<CellFootnote<'a>> = Vec::new();
    let mut f: usize = 0;
    while f < layout.footnotes.len()
        invariant
            f <= layout.footnotes@.len(),
            forall|m: int|
                #![trigger footnotes@[m]]
                0 <= m < footnotes@.len() ==> footnotes@[m].line < k,
            notes_above(layout.footnotes@, k as int, f as int, footnotes@) == notes_above(
                layout.footnotes@,
                k as int,
                0,
                Seq::empty(),
            ),
        decreases layout.footnotes@.len() - f,
    {
        let footnote = layout.footnotes[f];
        if footnote.line < k {
            footnotes.push(footnote);
        }
        f += 1;
    }
    let r = CellLayout { commands, content_height, lines, footnotes };
    assert(r@ =~= content_above(layout@, k as int));
    proof {
        assert forall|m: int| #![trigger r@.lines[m]] 0 <= m < r@.lines.len() implies
            r@.lines[m].commands_end <= r@.commands.len() by {
            assert(layout@.lines[m].commands_end <= layout@.lines[k - 1].commands_end);
        }
    }
    r
}

fn take_below<'a>(layout: &CellLayout<'a>, k: usize) -> (r: CellLayout<'a>)
    requires
        cell_consistent(layout@.commands, layout@.lines, layout@.footnotes),
        k <= layout@.lines.len(),
    ensures
        r@ == content_below(layout@, k as int),
        cell_consistent(r@.commands, r@.lines, r@.footnotes),
        r@.lines.len() == layout@.lines.len() - k,
{
    let count: usize = layout.lines.len();
    let height = if k >= count {
        layout.content_height
    } else {
        layout.lines[k].top
    };
    let skipped: usize = if k >= count {
        layout.commands.len()
    } else if k == 0 {
        0
    } else {
        layout.lines[k - 1].commands_end
    };
    let mut commands: Vec<DrawCommand> = Vec::new();
    append_shifted(
        &mut commands,
        layout.commands.as_slice(),
        skipped,
        layout.commands.len(),
        Pt::zero(),
        Pt::zero().minus(height),
    );
    let mut lines: Vec<CellLine> = Vec::new();
    let mut j: usize = k;
    while j < count
        invariant
            k <= j <= count,
            count == layout.lines@.len(),
            cell_consistent(layout@.commands, layout@.lines, layout@.footnotes),
            skipped == commands_above(layout@, k as int),
            lines@.len() == j - k,
            forall|m: int|
                #![trigger lines@[m]]
                0 <= m < lines@.len() ==> lines@[m] == line_below(
                    layout.lines@[k + m],
                    height,
                    skipped as int,
                ) && layout.lines@[k + m].commands_end >= skipped,
        decreases count - j,
    {
        let line = layout.lines[j];
        if k > 0 {
            assert(layout@.lines[k - 1].commands_end <= layout@.lines[j as int].commands_end);
        }
        lines.push(
            CellLine {
                top: line.top.minus(height),
                bottom: line.bottom.minus(height),
                commands_end: line.commands_end - skipped,
                break_after: line.break_after,
            },
        );
        j += 1;
    }
    let mut footnotes: Vec<CellFootnote<'a>> = Vec::new();
    let mut f: usize = 0;
    while f < layout.footnotes.len()
        invariant
            f <= layout.footnotes@.len(),
            k <= count,
            count == layout.lines@.len(),
            cell_consistent(layout@.commands, layout@.lines, layout@.footnotes),
            forall|m: int|
                #![trigger footnotes@[m]]
                0 <= m < footnotes@.len() ==> footnotes@[m].line < count - k,
            notes_below(layout.footnotes@, k as int, f as int, footnotes@) == notes_below(
                layout.footnotes@,
                k as int,
                0,
                Seq::empty(),
            ),
        decreases layout.footnotes@.len() - f,
    {
        let footnote = layout.footnotes[f];
        assert(layout@.footnotes[f as int].line < count);
        if footnote.line >= k {
            footnotes.push(
                CellFootnote {
                    footnote: footnote.footnote,
                    line: footnote.line - k,
                    page_height: footnote.page_height,
                },
            );
        }
        f += 1;
    }
    let content_height = layout.content_height.minus(height);
    let r = CellLayout { commands, content_height, lines, footnotes };
    assert(r@.commands =~= content_below(layout@, k as int).commands);
    assert(r@ =~= content_below(layout@, k as int));
    proof {
        assert forall|m: int| #![trigger r@.lines[m]] 0 <= m < r@.lines.len() implies
            r@.lines[m].commands_end <= r@.commands.len() by {
            assert(layout@.lines[k + m].commands_end <= layout@.commands.len());
        }
        assert forall|a: int, b: int| #![trigger r@.lines[a], r@.lines[b]] 0 <= a <= b
            < r@.lines.len() implies r@.lines[a].commands_end <= r@.lines[b].commands_end by {
            assert(layout@.lines[k + a].commands_end <= layout@.lines[k + b].commands_end);
        }
        if r@.lines.len() > 0 {
            let last = r@.lines[r@.lines.len() - 1];
            assert(layout@.lines[count - 1].commands_end == layout@.commands.len());
        }
    }
    r
}

fn find_tallest_cell(entries: &Vec<CellLayoutEntry<'_>>, row: &TableRowInput) -> (r: Pt)
    requires
        entries@.len() == row.cells@.len(),
    ensures
        r == tallest_cell(entries_view(entries@), *row, 0, Pt::zero()),
{
    let mut tallest = Pt::zero();
    let mut c: usize = 0;
    while c < entries.len()
        invariant
            c <= entries@.len(),
            entries@.len() == row.cells@.len(),
            tallest_cell(entries_view(entries@), *row, c as int, tallest) == tallest_cell(
                entries_view(entries@),
                *row,
                0,
                Pt::zero(),
            ),
        decreases entries@.len() - c,
    {
        tallest = tallest.max(
            entries[c].layout.content_height.plus(row.cells[c].margins.vertical()),
        );
        c += 1;
    }
    tallest
}

/// The numbers of lines as mathematical integers.
pub open spec fn as_ints(cuts: Seq<usize>) -> Seq<int> {
    Seq::new(cuts.len(), |c: int| cuts[c] as int)
}

/// Divide a row so that each cell keeps the given number of lines.
pub fn split_row_at<'a>(
    measured: &MeasuredRow<'a>,
    row: &TableRowInput,
    cuts: &Vec<usize>,
) -> (r: SplitRow<'a>)
    requires
        row_is_sound(measured@, *row),
        cuts@.len() == measured@.entries.len(),
        forall|c: int|
            #![trigger cuts@[c]]
            0 <= c < cuts@.len() ==> cuts@[c] <= measured@.entries[c].layout.lines.len(),
    ensures
        r.first@ == row_above(measured@, *row, as_ints(cuts@)),
        r.second@ == row_below(measured@, *row, as_ints(cuts@)),
        row_is_sound(r.first@, *row),
        row_is_sound(r.second@, *row),
        forall|c: int|
            #![trigger r.second@.entries[c]]
            0 <= c < cuts@.len() ==> r.second@.entries[c].layout.lines.len()
                == measured@.entries[c].layout.lines.len() - cuts@[c],
{
    let ghost int_cuts = as_ints(cuts@);
    let ghost above = row_above(measured@, *row, int_cuts);
    let ghost below = row_below(measured@, *row, int_cuts);
    let mut first: Vec<CellLayoutEntry<'a>> = Vec::new();
    let mut second: Vec<CellLayoutEntry<'a>> = Vec::new();
    let mut first_borders: Vec<CellBorders> = Vec::new();
    let mut second_borders: Vec<CellBorders> = Vec::new();
    let mut c: usize = 0;
    while c < measured.entries.len()
        invariant
            c <= measured.entries@.len(),
            row_is_sound(measured@, *row),
            cuts@.len() == measured@.entries.len(),
            forall|k: int|
                #![trigger cuts@[k]]
                0 <= k < cuts@.len() ==> cuts@[k] <= measured@.entries[k].layout.lines.len(),
            int_cuts == as_ints(cuts@),
            above == row_above(measured@, *row, int_cuts),
            below == row_below(measured@, *row, int_cuts),
            first@.len() == c,
            second@.len() == c,
            first_borders@ == measured.borders@.take(c as int),
            second_borders@ == below.borders.take(c as int),
            forall|k: int|
                #![trigger first@[k]]
                0 <= k < c ==> first@[k]@ == above.entries[k] && cell_consistent(
                    first@[k]@.layout.commands,
                    first@[k]@.layout.lines,
                    first@[k]@.layout.footnotes,
                ),
            forall|k: int|
                #![trigger second@[k]]
                0 <= k < c ==> second@[k]@ == below.entries[k] && cell_consistent(
                    second@[k]@.layout.commands,
                    second@[k]@.layout.lines,
                    second@[k]@.layout.footnotes,
                ) && second@[k]@.layout.lines.len() == measured@.entries[k].layout.lines.len()
                    - cuts@[k],
        decreases measured.entries@.len() - c,
    {
        let entry = &measured.entries[c];
        assert(measured@.entries[c as int] == entry@);
        let upper = take_above(&entry.layout, cuts[c]);
        let lower = take_below(&entry.layout, cuts[c]);
        let upper_entry = CellLayoutEntry {
            layout: upper,
            cell_x: entry.cell_x,
            cell_w: entry.cell_w,
            grid_col: entry.grid_col,
        };
        let lower_entry = CellLayoutEntry {
            layout: lower,
            cell_x: entry.cell_x,
            cell_w: entry.cell_w,
            grid_col: entry.grid_col,
        };
        assert(upper_entry@ =~= above.entries[c as int]);
        assert(lower_entry@ =~= below.entries[c as int]);
        first.push(upper_entry);
        second.push(lower_entry);
        first_borders.push(measured.borders[c]);
        second_borders.push(borders_below_cut(measured.borders[c]));
        c += 1;
        assert(first_borders@ =~= measured.borders@.take(c as int));
        assert(second_borders@ =~= below.borders.take(c as int));
    }
    assert(entries_view(first@) =~= above.entries);
    assert(entries_view(second@) =~= below.entries);
    assert(first_borders@ =~= above.borders);
    assert(second_borders@ =~= below.borders);
    let first_height = find_tallest_cell(&first, row).plus(measured.leading_gap);
    let second_height = find_tallest_cell(&second, row).plus(measured.leading_gap);
    let r = SplitRow {
        first: MeasuredRow {
            entries: first,
            borders: first_borders,
            height: first_height,
            leading_gap: measured.leading_gap,
            border_gap_below: Pt::zero(),
        },
        second: MeasuredRow {
            entries: second,
            borders: second_borders,
            height: second_height,
            leading_gap: measured.leading_gap,
            border_gap_below: measured.border_gap_below,
        },
    };
    proof {
        assert(r.first@ =~= above);
        assert(r.second@ =~= below);
        assert(entries_consistent(r.first@.entries)) by {
            assert forall|k: int| #![trigger r.first@.entries[k]] 0 <= k < r.first@.entries.len()
                implies cell_consistent(
                r.first@.entries[k].layout.commands,
                r.first@.entries[k].layout.lines,
                r.first@.entries[k].layout.footnotes,
            ) by {
                assert(r.first.entries@[k]@ == above.entries[k]);
            }
        }
        assert(entries_consistent(r.second@.entries)) by {
            assert forall|k: int| #![trigger r.second@.entries[k]] 0 <= k < r.second@.entries.len()
                implies cell_consistent(
                r.second@.entries[k].layout.commands,
                r.second@.entries[k].layout.lines,
                r.second@.entries[k].layout.footnotes,
            ) by {
                assert(r.second.entries@[k]@ == below.entries[k]);
            }
        }
        assert forall|k: int| #![trigger r.second@.entries[k]] 0 <= k < cuts@.len() implies
            r.second@.entries[k].layout.lines.len() == measured@.entries[k].layout.lines.len()
            - cuts@[k] by {
            assert(r.second.entries@[k]@ == below.entries[k]);
        }
    }
    r
}


proof fn lemma_fewer_lines(a: Seq<EntryView<'_>>, b: Seq<EntryView<'_>>, c: int, witness: int)
    requires
        0 <= c <= a.len() == b.len(),
        forall|k: int|
            #![trigger b[k]]
            0 <= k < b.len() ==> b[k].layout.lines.len() <= a[k].layout.lines.len(),
        0 <= witness < a.len(),
        b[witness].layout.lines.len() < a[witness].layout.lines.len(),
    ensures
        lines_before(b, c) <= lines_before(a, c),
        witness < c ==> lines_before(b, c) < lines_before(a, c),
    decreases c,
{
    if c > 0 {
        lemma_fewer_lines(a, b, c - 1, witness);
        assert(b[c - 1].layout.lines.len() <= a[c - 1].layout.lines.len());
    }
}

/// The parts of a row divided within `budget` and, with the footnotes of the
/// upper part, within `available`: where those do not fit, the room they need
/// is taken off the budget and the row is divided higher up.
pub open spec fn split_within<'a>(
    measured: MeasuredRowView<'a>,
    row: TableRowInput,
    available: Pt,
    page_has_footnotes: bool,
    separator_height: Pt,
    budget: Pt,
) -> Option<(MeasuredRowView<'a>, MeasuredRowView<'a>)>
    decreases budget.units - i64::MIN,
{
    if !can_cut(measured, row, budget) {
        None
    } else {
        let cuts = row_cut(measured, row, budget);
        let first = row_above(measured, row, cuts);
        let note_cost = footnote_page_cost(
            row_note_height(first),
            page_has_footnotes,
            separator_height,
        );
        let reduced = available.minus(note_cost).max(Pt::zero());
        if first.height.plus(note_cost).units <= available.units {
            Some((first, row_below(measured, row, cuts)))
        } else if reduced.units >= budget.units {
            None
        } else {
            split_within(
                measured,
                row,
                available,
                page_has_footnotes,
                separator_height,
                reduced,
            )
        }
    }
}

/// Divide a row so that its upper part fits into `available` together with the
/// footnotes that the upper part refers to.
pub fn split_row_with_footnote_budget<'a>(
    measured: &MeasuredRow<'a>,
    row: &TableRowInput,
    available: Pt,
    page_has_footnotes: bool,
    separator_height: Pt,
) -> (r: Option<SplitRow<'a>>)
    requires
        row_is_sound(measured@, *row),
    ensures
        ({
            let wanted = split_within(
                measured@,
                *row,
                available,
                page_has_footnotes,
                separator_height,
                available,
            );
            match r {
                Some(parts) => wanted == Some((parts.first@, parts.second@)) && row_is_sound(
                    parts.first@,
                    *row,
                ) && row_is_sound(parts.second@, *row) && row_lines(parts.second@) < row_lines(
                    measured@,
                ),
                None => wanted is None,
            }
        }),
{
    let mut budget = available;
    loop
        invariant
            row_is_sound(measured@, *row),
            split_within(
                measured@,
                *row,
                available,
                page_has_footnotes,
                separator_height,
                budget,
            ) == split_within(
                measured@,
                *row,
                available,
                page_has_footnotes,
                separator_height,
                available,
            ),
        decreases budget.units - i64::MIN,
    {
        match find_row_cut(measured, row, budget) {
            None => {
                return None;
            },
            Some(cuts) => {
                let parts = split_row_at(measured, row, &cuts);
                assert(as_ints(cuts@) =~= row_cut(measured@, *row, budget));
                let note_cost = footnote_page_cost(
                    measured_row_footnote_height(&parts.first),
                    page_has_footnotes,
                    separator_height,
                );
                if parts.first.height.plus(note_cost).units <= available.units {
                    proof {
                        let witness = choose|c: int|
                            #![trigger measured@.entries[c]]
                            0 <= c < measured@.entries.len() && cell_cut(
                                measured@,
                                *row,
                                c,
                                budget,
                            ) < measured@.entries[c].layout.lines.len();
                        assert(cuts@[witness] == cell_cut(measured@, *row, witness, budget));
                        assert(parts.second@.entries[witness].layout.lines.len()
                            < measured@.entries[witness].layout.lines.len());
                        assert forall|k: int|
                            #![trigger parts.second@.entries[k]]
                            0 <= k < parts.second@.entries.len() implies parts.second@.entries[k].layout.lines.len()
                            <= measured@.entries[k].layout.lines.len() by {
                            assert(cuts@[k] <= measured@.entries[k].layout.lines.len());
                        }
                        lemma_fewer_lines(
                            measured@.entries,
                            parts.second@.entries,
                            measured@.entries.len() as int,
                            witness,
                        );
                    }
                    return Some(parts);
                }
                let reduced = available.minus(note_cost).max(Pt::zero());
                if reduced.units >= budget.units {
                    return None;
                }
                budget = reduced;
            },
        }
    }
}

} // verus!
