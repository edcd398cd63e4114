//! What measuring a table yields.
use crate::block::LayoutFootnote;
use crate::dimension::Pt;
use crate::draw_command::DrawCommand;
use crate::table::borders::CellBorders;
use vstd::prelude::*;

verus! {

/// A line of a cell's content, counted from the top of the content.
#[derive(Clone, Copy, Debug, PartialEq, Eq, Structural)]
pub struct CellLine {
    pub top: Pt,
    pub bottom: Pt,
    /// How many of the content's commands draw this line and those above it.
    pub commands_end: usize,
    /// Whether the content may be divided below this line.
    pub break_after: bool,
}

/// A footnote that a cell refers to.
#[derive(Clone, Copy, Debug)]
pub struct CellFootnote<'a> {
    pub footnote: &'a LayoutFootnote,
    /// The line of the cell that refers to the footnote.
    pub line: usize,
    /// The height of the footnote at the foot of a page.
    pub page_height: Pt,
}

/// The content of a cell, laid out. Commands stand relative to the cell's
/// corner; the height is that of the content without the cell's margins.
#[derive(Debug)]
pub struct CellLayout<'a> {
    pub commands: Vec<DrawCommand>,
    pub content_height: Pt,
    pub lines: Vec<CellLine>,
    pub footnotes: Vec<CellFootnote<'a>>,
}

/// The mathematical value of a [`CellLayout`].
#[verifier::ext_equal]
pub struct CellLayoutView<'a> {
    pub commands: Seq<DrawCommand>,
    pub content_height: Pt,
    pub lines: Seq<CellLine>,
    pub footnotes: Seq<CellFootnote<'a>>,
}

impl<'a> View for CellLayout<'a> {
    type V = CellLayoutView<'a>;

    open spec fn view(&self) -> CellLayoutView<'a> {
        CellLayoutView {
            commands: self.commands@,
            content_height: self.content_height,
            lines: self.lines@,
            footnotes: self.footnotes@,
        }
    }
}

/// A cell with its place in the row.
#[derive(Debug)]
pub struct CellLayoutEntry<'a> {
    pub layout: CellLayout<'a>,
    pub cell_x: Pt,
    pub cell_w: Pt,
    /// The cell's first grid column.
    pub grid_col: usize,
}

/// The mathematical value of a [`CellLayoutEntry`].
#[verifier::ext_equal]
pub struct EntryView<'a> {
    pub layout: CellLayoutView<'a>,
    pub cell_x: Pt,
    pub cell_w: Pt,
    pub grid_col: usize,
}

impl<'a> View for CellLayoutEntry<'a> {
    type V = EntryView<'a>;

    open spec fn view(&self) -> EntryView<'a> {
        EntryView {
            layout: self.layout@,
            cell_x: self.cell_x,
            cell_w: self.cell_w,
            grid_col: self.grid_col,
        }
    }
}

/// The values of a row's cells.
pub open spec fn entries_view<'a>(entries: Seq<CellLayoutEntry<'a>>) -> Seq<EntryView<'a>> {
    Seq::new(entries.len(), |i: int| entries[i]@)
}

/// A measured row.
#[derive(Debug)]
pub struct MeasuredRow<'a> {
    pub entries: Vec<CellLayoutEntry<'a>>,
    pub borders: Vec<CellBorders>,
    /// The height of the row, its leading gap included.
    pub height: Pt,
    /// The part of the height above the row's cells.
    pub leading_gap: Pt,
    /// Room for borders between this row and the next.
    pub border_gap_below: Pt,
}

/// The mathematical value of a [`MeasuredRow`].
#[verifier::ext_equal]
pub struct MeasuredRowView<'a> {
    pub entries: Seq<EntryView<'a>>,
    pub borders: Seq<CellBorders>,
    pub height: Pt,
    pub leading_gap: Pt,
    pub border_gap_below: Pt,
}

impl<'a> View for MeasuredRow<'a> {
    type V = MeasuredRowView<'a>;

    open spec fn view(&self) -> MeasuredRowView<'a> {
        MeasuredRowView {
            entries: entries_view(self.entries@),
            borders: self.borders@,
            height: self.height,
            leading_gap: self.leading_gap,
            border_gap_below: self.border_gap_below,
        }
    }
}

impl<'a> MeasuredRowView<'a> {
    /// The height of the row with the border below it.
    pub open spec fn full_height(self) -> Pt {
        self.height.plus(self.border_gap_below)
    }
}

/// The values of a table's rows.
pub open spec fn rows_view<'a>(rows: Seq<MeasuredRow<'a>>) -> Seq<MeasuredRowView<'a>> {
    Seq::new(rows.len(), |i: int| rows[i]@)
}

/// A measured table.
#[derive(Debug)]
pub struct MeasuredTable<'a> {
    pub rows: Vec<MeasuredRow<'a>>,
    pub table_width: Pt,
}

/// The mathematical value of a [`MeasuredTable`].
#[verifier::ext_equal]
pub struct MeasuredTableView<'a> {
    pub rows: Seq<MeasuredRowView<'a>>,
    pub table_width: Pt,
}

impl<'a> View for MeasuredTable<'a> {
    type V = MeasuredTableView<'a>;

    open spec fn view(&self) -> MeasuredTableView<'a> {
        MeasuredTableView { rows: rows_view(self.rows@), table_width: self.table_width }
    }
}

/// The heights of the rows `i..end`, added to `acc`.
pub open spec fn rows_height(rows: Seq<MeasuredRowView<'_>>, i: int, end: int, acc: Pt) -> Pt
    decreases end - i,
{
    if i >= end {
        acc
    } else {
        rows_height(rows, i + 1, end, acc.plus(rows[i].full_height()))
    }
}

/// The height of the rows `start..end`.
pub fn measured_rows_height(rows: &[MeasuredRow<'_>], start: usize, end: usize) -> (r: Pt)
    requires
        start <= end <= rows@.len(),
    ensures
        r == rows_height(rows_view(rows@), start as int, end as int, Pt::zero()),
{
    let mut total = Pt::zero();
    let mut i: usize = start;
    while i < end
        invariant
            start <= i <= end <= rows@.len(),
            rows_height(rows_view(rows@), i as int, end as int, total) == rows_height(
                rows_view(rows@),
                start as int,
                end as int,
                Pt::zero(),
            ),
        decreases end - i,
    {
        let row = &rows[i];
        total = total.plus(row.height.plus(row.border_gap_below));
        i += 1;
    }
    total
}

} // verus!
