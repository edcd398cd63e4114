//! Drawing measured rows: cells are positioned, shading is painted below the
//! content and borders above it.
use crate::block::{CellVAlign, TableBorderLine, TableCellInput, TableRowInput};
use crate::dimension::Pt;
use crate::draw_command::{append_shifted, shift_all, DrawCommand};
use crate::geometry::PtRect;
use crate::table::borders::{
    border_width, cell_border_commands, emit_cell_borders, CellBorders, CellEdge,
};
use crate::table::grid::{is_vmerge_continue, merge_continues};
use crate::table::types::{rows_view, MeasuredRow, MeasuredRowView};
use vstd::prelude::*;

verus! {

/// The three layers that a table is drawn in.
#[derive(Debug)]
pub struct TableCommandBuffers {
    /// Shading.
    pub commands: Vec<DrawCommand>,
    pub content_commands: Vec<DrawCommand>,
    pub border_commands: Vec<DrawCommand>,
}

/// The mathematical value of [`TableCommandBuffers`].
#[verifier::ext_equal]
pub struct Layers {
    pub shading: Seq<DrawCommand>,
    pub content: Seq<DrawCommand>,
    pub borders: Seq<DrawCommand>,
}

impl Layers {
    /// Nothing drawn.
    pub open spec fn empty() -> Layers {
        Layers { shading: Seq::empty(), content: Seq::empty(), borders: Seq::empty() }
    }

    /// The layers from the lowest to the topmost.
    pub open spec fn flattened(self) -> Seq<DrawCommand> {
        self.shading + self.content + self.borders
    }
}

impl View for TableCommandBuffers {
    type V = Layers;

    open spec fn view(&self) -> Layers {
        Layers {
            shading: self.commands@,
            content: self.content_commands@,
            borders: self.border_commands@,
        }
    }
}

impl TableCommandBuffers {
    /// Nothing drawn.
    pub fn new() -> (r: Self)
        ensures
            r@ == Layers::empty(),
    {
        let r = TableCommandBuffers {
            commands: Vec::new(),
            content_commands: Vec::new(),
            border_commands: Vec::new(),
        };
        assert(r@ =~= Layers::empty());
        r
    }

    /// The layers as one list, from the lowest to the topmost.
    pub fn flatten(self) -> (r: Vec<DrawCommand>)
        ensures
            r@ == self@.flattened(),
    {
        let mut all = self.commands;
        let mut content = self.content_commands;
        let mut borders = self.border_commands;
        all.append(&mut content);
        all.append(&mut borders);
        all
    }
}

/// A row's place in its table while the rows before `end` are drawn together.
pub struct MergeScope<'a> {
    pub rows: Seq<TableRowInput>,
    pub measured: Seq<MeasuredRowView<'a>>,
    pub row: int,
    pub end: int,
}

/// A row's place in its table.
#[derive(Clone, Copy)]
pub struct MergeContext<'b, 'a> {
    pub rows: &'b [TableRowInput],
    pub measured: &'b [MeasuredRow<'a>],
    pub row: usize,
    pub end: usize,
}

impl<'b, 'a> View for MergeContext<'b, 'a> {
    type V = MergeScope<'a>;

    open spec fn view(&self) -> MergeScope<'a> {
        MergeScope {
            rows: self.rows@,
            measured: rows_view(self.measured@),
            row: self.row as int,
            end: self.end as int,
        }
    }
}

/// The value of an optional [`MergeContext`].
pub open spec fn scope_view<'a>(ctx: Option<MergeContext<'_, 'a>>) -> Option<MergeScope<'a>> {
    match ctx {
        Some(c) => Some(c@),
        None => None,
    }
}

/// The heights of the rows from `row` on that a merged region at `grid_col` runs
/// into, with the borders above them, added to `acc`.
pub open spec fn span_height_from(
    scope: MergeScope<'_>,
    row: int,
    grid_col: usize,
    acc: Pt,
) -> Pt
    decreases scope.rows.len() - row,
{
    if row < 1 || row >= scope.rows.len() || row >= scope.end || !merge_continues(
        scope.rows[row],
        grid_col,
    ) {
        acc
    } else {
        span_height_from(
            scope,
            row + 1,
            grid_col,
            acc.plus(scope.measured[row - 1].border_gap_below).plus(scope.measured[row].height),
        )
    }
}

/// The height of the merged region that starts in a row at `grid_col`, as far as
/// its rows are drawn together.
pub open spec fn span_height(scope: MergeScope<'_>, grid_col: usize) -> Pt {
    span_height_from(
        scope,
        scope.row + 1,
        grid_col,
        scope.measured[scope.row].height.minus(scope.measured[scope.row].leading_gap),
    )
}

/// The total height of the merged region that starts in a row at `grid_col`.
pub fn merged_span_height(ctx: &MergeContext<'_, '_>, grid_col: usize) -> (r: Pt)
    requires
        ctx.row < ctx.rows@.len() == ctx.measured@.len(),
    ensures
        r == span_height(ctx@, grid_col),
{
    let count: usize = ctx.rows.len();
    let mut total = ctx.measured[ctx.row].height.minus(ctx.measured[ctx.row].leading_gap);
    let mut row: usize = ctx.row + 1;
    while row < count && row < ctx.end && is_vmerge_continue(&ctx.rows[row], grid_col)
        invariant
            1 <= row,
            count == ctx.rows@.len(),
            ctx.rows@.len() == ctx.measured@.len(),
            span_height_from(ctx@, row as int, grid_col, total) == span_height(ctx@, grid_col),
        decreases ctx.rows@.len() - row,
    {
        total = total.plus(ctx.measured[row - 1].border_gap_below).plus(ctx.measured[row].height);
        row += 1;
    }
    total
}

/// The height that a cell's shading and alignment refer to.
pub open spec fn cell_height(
    scope: Option<MergeScope<'_>>,
    cell: TableCellInput,
    grid_col: usize,
    row_height: Pt,
) -> Pt {
    match scope {
        Some(s) if cell.restarts_merge() => span_height(s, grid_col),
        _ => row_height,
    }
}

/// Whether the merged region at `grid_col` goes on in a row below that is drawn
/// with this one.
pub open spec fn goes_on_below(scope: Option<MergeScope<'_>>, grid_col: usize) -> bool {
    match scope {
        Some(s) => s.row + 1 < s.rows.len() && merge_continues(s.rows[s.row + 1], grid_col) && s.row
            + 1 < s.end,
        None => false,
    }
}

/// The top edge of a cell: an edge that says nothing shows `restored`, if that is
/// given.
#[verifier::allow_in_spec]
pub fn shown_top(top: CellEdge, restored: Option<TableBorderLine>) -> CellEdge
    returns
        (match top {
            CellEdge::Absent => CellEdge::inherited(restored),
            _ => top,
        }),
{
    match top {
        CellEdge::Absent => CellEdge::inherited(restored),
        _ => top,
    }
}

/// How far content of height `content_h` stands below the top of a cell.
#[verifier::allow_in_spec]
pub fn align_offset(align: CellVAlign, cell_h: Pt, content_h: Pt, dy_border: Pt) -> Pt
    returns
        (match align {
            CellVAlign::Bottom => cell_h.minus(content_h).minus(dy_border).max(Pt::zero()),
            CellVAlign::Center => cell_h.minus(content_h).minus(dy_border).half().max(Pt::zero()),
            CellVAlign::Top => Pt::zero(),
        }),
{
    match align {
        CellVAlign::Bottom => cell_h.minus(content_h).minus(dy_border).max(Pt::zero()),
        CellVAlign::Center => cell_h.minus(content_h).minus(dy_border).half().max(Pt::zero()),
        CellVAlign::Top => Pt::zero(),
    }
}

/// A row that is drawn: its measures, its place and what is shown at its edges.
pub struct RowDrawing<'a> {
    pub measured: MeasuredRowView<'a>,
    pub row: TableRowInput,
    pub y: Pt,
    /// The border shown at the top where the row itself has none.
    pub restored_top: Option<TableBorderLine>,
    /// Whether there is room below the row for its bottom border.
    pub gap_below: bool,
    pub scope: Option<MergeScope<'a>>,
}

/// The layers with cell `c` of a row drawn on them.
pub open spec fn with_cell(l: Layers, d: RowDrawing<'_>, c: int) -> Layers {
    let entry = d.measured.entries[c];
    let cell = d.row.cells@[c];
    let own = d.measured.borders[c];
    let row_top = d.y.plus(d.measured.leading_gap);
    let row_height = d.measured.height.minus(d.measured.leading_gap);
    let height = cell_height(d.scope, cell, entry.grid_col, row_height);
    let top = shown_top(own.top, d.restored_top);
    let dx = border_width(own.left).minus(cell.margins.left).max(Pt::zero());
    let dy_border = border_width(top).minus(cell.margins.top).max(Pt::zero());
    let content_h = entry.layout.content_height.plus(cell.margins.vertical());
    let dy = align_offset(cell.vertical_align, height, content_h, dy_border);
    let gap = if !d.gap_below {
        Pt::zero()
    } else if goes_on_below(d.scope, entry.grid_col) {
        d.measured.border_gap_below
    } else {
        border_width(own.bottom)
    };
    Layers {
        shading: match cell.shading {
            Some(color) if !cell.continues_merge() => l.shading.push(
                DrawCommand::Rect {
                    rect: PtRect::from_xywh(entry.cell_x, row_top, entry.cell_w, height),
                    color,
                },
            ),
            _ => l.shading,
        },
        content: l.content + shift_all(
            entry.layout.commands,
            entry.cell_x.plus(dx),
            row_top.plus(dy_border).plus(dy),
        ),
        borders: l.borders + cell_border_commands(
            CellBorders { top, ..own },
            entry.cell_x,
            entry.cell_w,
            row_top,
            row_height.plus(gap),
        ),
    }
}

/// The layers with the cells of a row from `c` on drawn on them.
pub open spec fn with_cells(l: Layers, d: RowDrawing<'_>, c: int) -> Layers
    decreases d.row.cells@.len() - c,
{
    if c >= d.row.cells@.len() || c < 0 {
        l
    } else {
        with_cells(with_cell(l, d, c), d, c + 1)
    }
}

/// Whether there is a measured cell and a set of borders for each cell.
pub open spec fn row_fits(measured: MeasuredRowView<'_>, row: TableRowInput) -> bool {
    measured.entries.len() == row.cells@.len() && measured.borders.len() == row.cells@.len()
}

fn emit_cell(
    bufs: &mut TableCommandBuffers,
    mr: &MeasuredRow<'_>,
    row: &TableRowInput,
    y: Pt,
    restored_top: Option<TableBorderLine>,
    gap_below: bool,
    ctx: Option<MergeContext<'_, '_>>,
    c: usize,
)
    requires
        row_fits(mr@, *row),
        c < row.cells@.len(),
        ctx matches Some(m) ==> m.row < m.rows@.len() == m.measured@.len(),
    ensures
        final(bufs)@ == with_cell(
            old(bufs)@,
            (RowDrawing {
                measured: mr@,
                row: *row,
                y,
                restored_top,
                gap_below,
                scope: scope_view(ctx),
            }),
            c as int,
        ),
{
    let ghost d = RowDrawing {
        measured: mr@,
        row: *row,
        y,
        restored_top,
        gap_below,
        scope: scope_view(ctx),
    };
    let entry = &mr.entries[c];
    assert(mr@.entries[c as int] == entry@);
    let cell = &row.cells[c];
    let own = mr.borders[c];
    let row_top = y.plus(mr.leading_gap);
    let row_height = mr.height.minus(mr.leading_gap);
    let height = match ctx {
        Some(m) => if cell.restarts_merge() {
            merged_span_height(&m, entry.grid_col)
        } else {
            row_height
        },
        None => row_height,
    };
    if !cell.continues_merge() {
        if let Some(color) = cell.shading {
            bufs.commands.push(
                DrawCommand::Rect {
                    rect: PtRect::from_xywh(entry.cell_x, row_top, entry.cell_w, height),
                    color,
                },
            );
        }
    }
    let top = shown_top(own.top, restored_top);
    let dx = border_width(own.left).minus(cell.margins.left).max(Pt::zero());
    let dy_border = border_width(top).minus(cell.margins.top).max(Pt::zero());
    let content_h = entry.layout.content_height.plus(cell.margins.vertical());
    let dy = align_offset(cell.vertical_align, height, content_h, dy_border);
    append_shifted(
        &mut bufs.content_commands,
        entry.layout.commands.as_slice(),
        0,
        entry.layout.commands.len(),
        entry.cell_x.plus(dx),
        row_top.plus(dy_border).plus(dy),
    );
    assert(entry.layout.commands@.subrange(0, entry.layout.commands@.len() as int)
        =~= entry.layout.commands@);
    let continues_below = match ctx {
        Some(m) => {
            let count: usize = m.rows.len();
            m.row + 1 < count && is_vmerge_continue(&m.rows[m.row + 1], entry.grid_col) && m.row + 1
                < m.end
        },
        None => false,
    };
    let gap = if !gap_below {
        Pt::zero()
    } else if continues_below {
        mr.border_gap_below
    } else {
        border_width(own.bottom)
    };
    emit_cell_borders(
        &mut bufs.border_commands,
        CellBorders { top, bottom: own.bottom, left: own.left, right: own.right },
        entry.cell_x,
        entry.cell_w,
        row_top,
        row_height.plus(gap),
    );
    assert(bufs@ =~= with_cell(old(bufs)@, d, c as int));
}

/// Draw a row at `y`. Without a merge context, a merged region counts with the
/// height of this row alone.
pub fn emit_one_row(
    mr: &MeasuredRow<'_>,
    row: &TableRowInput,
    cursor_y: &mut Pt,
    bufs: &mut TableCommandBuffers,
    restored_top: Option<TableBorderLine>,
    gap_below: bool,
    ctx: Option<MergeContext<'_, '_>>,
)
    requires
        row_fits(mr@, *row),
        ctx matches Some(m) ==> m.row < m.rows@.len() == m.measured@.len(),
    ensures
        *final(cursor_y) == old(cursor_y).plus(mr@.full_height()),
        final(bufs)@ == with_cells(
            old(bufs)@,
            (RowDrawing {
                measured: mr@,
                row: *row,
                y: *old(cursor_y),
                restored_top,
                gap_below,
                scope: scope_view(ctx),
            }),
            0,
        ),
{
    let y = *cursor_y;
    let ghost d = RowDrawing {
        measured: mr@,
        row: *row,
        y,
        restored_top,
        gap_below,
        scope: scope_view(ctx),
    };
    let mut c: usize = 0;
    while c < row.cells.len()
        invariant
            c <= row.cells@.len(),
            row_fits(mr@, *row),
            ctx matches Some(m) ==> m.row < m.rows@.len() == m.measured@.len(),
            d == (RowDrawing {
                measured: mr@,
                row: *row,
                y,
                restored_top,
                gap_below,
                scope: scope_view(ctx),
            }),
            with_cells(bufs@, d, c as int) == with_cells(old(bufs)@, d, 0),
        decreases row.cells@.len() - c,
    {
        emit_cell(bufs, mr, row, y, restored_top, gap_below, ctx, c);
        c += 1;
    }
    *cursor_y = y.plus(mr.height.plus(mr.border_gap_below));
}

/// Rows drawn one below another.
#[verifier::ext_equal]
pub struct Drawing {
    pub layers: Layers,
    pub y: Pt,
}

/// Row `i` of a table, drawn together with the rows `start..end`.
pub open spec fn row_drawing<'a>(
    measured: Seq<MeasuredRowView<'a>>,
    rows: Seq<TableRowInput>,
    i: int,
    start: int,
    end: int,
    y: Pt,
    restored_top: Option<TableBorderLine>,
) -> RowDrawing<'a> {
    RowDrawing {
        measured: measured[i],
        row: rows[i],
        y,
        restored_top: if i == start {
            restored_top
        } else {
            None
        },
        gap_below: i + 1 < measured.len(),
        scope: Some(MergeScope { rows, measured, row: i, end }),
    }
}

/// The rows `i..end` of a table drawn below `d`.
pub open spec fn with_rows(
    d: Drawing,
    measured: Seq<MeasuredRowView<'_>>,
    rows: Seq<TableRowInput>,
    i: int,
    start: int,
    end: int,
    restored_top: Option<TableBorderLine>,
) -> Drawing
    decreases end - i,
{
    if i >= end {
        d
    } else {
        with_rows(
            Drawing {
                layers: with_cells(
                    d.layers,
                    row_drawing(measured, rows, i, start, end, d.y, restored_top),
                    0,
                ),
                y: d.y.plus(measured[i].full_height()),
            },
            measured,
            rows,
            i + 1,
            start,
            end,
            restored_top,
        )
    }
}

/// Whether every measured row fits its row.
pub open spec fn rows_fit(measured: Seq<MeasuredRowView<'_>>, rows: Seq<TableRowInput>) -> bool {
    &&& measured.len() == rows.len()
    &&& forall|i: int| #![trigger rows[i]] 0 <= i < rows.len() ==> row_fits(measured[i], rows[i])
}

/// Draw the rows `start..end` of a measured table.
///
/// The first of them shows `restored_top` at its top where its own edge says
/// nothing: a table that goes on on a new page has a visible top there.
pub fn emit_table_rows(
    measured: &[MeasuredRow<'_>],
    rows: &[TableRowInput],
    start: usize,
    end: usize,
    cursor_y: &mut Pt,
    bufs: &mut TableCommandBuffers,
    restored_top: Option<TableBorderLine>,
)
    requires
        start <= end <= rows@.len(),
        rows_fit(rows_view(measured@), rows@),
    ensures
        (Drawing { layers: final(bufs)@, y: *final(cursor_y) }) == with_rows(
            (Drawing { layers: old(bufs)@, y: *old(cursor_y) }),
            rows_view(measured@),
            rows@,
            start as int,
            start as int,
            end as int,
            restored_top,
        ),
{
    let count: usize = measured.len();
    let mut i: usize = start;
    while i < end
        invariant
            start <= i <= end <= rows@.len(),
            count == measured@.len(),
            rows_fit(rows_view(measured@), rows@),
            with_rows(
                (Drawing { layers: bufs@, y: *cursor_y }),
                rows_view(measured@),
                rows@,
                i as int,
                start as int,
                end as int,
                restored_top,
            ) == with_rows(
                (Drawing { layers: old(bufs)@, y: *old(cursor_y) }),
                rows_view(measured@),
                rows@,
                start as int,
                start as int,
                end as int,
                restored_top,
            ),
        decreases end - i,
    {
        let restored = if i == start {
            restored_top
        } else {
            None
        };
        let ghost y = *cursor_y;
        let ctx = Some(MergeContext { rows, measured, row: i, end });
        assert(rows_view(measured@)[i as int] == measured@[i as int]@);
        assert(row_fits(rows_view(measured@)[i as int], rows@[i as int]));
        emit_one_row(
            &measured[i],
            &rows[i],
            cursor_y,
            bufs,
            restored,
            i + 1 < count,
            ctx,
        );
        i += 1;
    }
}

/// The height drawn is the height of the rows.
pub proof fn lemma_drawn_height(
    d: Drawing,
    measured: Seq<MeasuredRowView<'_>>,
    rows: Seq<TableRowInput>,
    i: int,
    start: int,
    end: int,
    restored_top: Option<TableBorderLine>,
)
    ensures
        with_rows(d, measured, rows, i, start, end, restored_top).y
            == crate::table::types::rows_height(measured, i, end, d.y),
    decreases end - i,
{
    if i < end {
        let next = Drawing {
            layers: with_cells(
                d.layers,
                row_drawing(measured, rows, i, start, end, d.y, restored_top),
                0,
            ),
            y: d.y.plus(measured[i].full_height()),
        };
        lemma_drawn_height(next, measured, rows, i + 1, start, end, restored_top);
    }
}

} // verus!
