//! Measuring and drawing whole tables: cells are laid out, and rows get their
//! heights.
use crate::block::{
    LayoutBlock, LayoutFootnote, PageParity, RowHeightRule, TableBorderConfig, TableRowInput,
};
use crate::dimension::{sum, sum_range, Pt};
use crate::draw_command::DrawCommand;
use crate::geometry::{PtEdgeInsets, PtSize};
use crate::style::PreviousParagraph;
use crate::table::borders::{border_width, CellBorders};
use crate::table::cell::{
    cell_consistent, with_paragraph, with_table, CellBuilder, CellFlow,
};
use crate::table::edges::{resolve_table_borders, resolved_row_borders, runs_into_next_row};
use crate::table::emit::{
    emit_table_rows, rows_fit, with_rows, Drawing, Layers, TableCommandBuffers,
};
use crate::table::footnotes::{append_measured_range_footnotes, range_footnotes};
use crate::table::grid::{
    expand_rows, expand_rows_for_vmerge, grid_start, is_vmerge_continue, layouts_view,
};
use crate::table::types::{
    entries_view, CellLayout, CellLayoutEntry, CellLayoutView, EntryView, MeasuredRow,
    MeasuredRowView, MeasuredTable, MeasuredTableView,
};
use vstd::prelude::*;

verus! {

/// A laid-out table, with its origin at its top left corner.
#[derive(Debug)]
pub struct TableLayout {
    pub commands: Vec<DrawCommand>,
    pub size: PtSize,
}

/// The mathematical value of a [`TableLayout`].
#[verifier::ext_equal]
pub struct TableLayoutView {
    pub commands: Seq<DrawCommand>,
    pub size: PtSize,
}

impl View for TableLayout {
    type V = TableLayoutView;

    open spec fn view(&self) -> TableLayoutView {
        TableLayoutView { commands: self.commands@, size: self.size }
    }
}

/// A table's formatting, apart from its rows.
#[verifier::ext_equal]
pub struct TableFormat {
    pub col_widths: Seq<Pt>,
    pub cell_spacing: Pt,
    pub default_line_height: Pt,
    pub borders: Option<TableBorderConfig>,
    pub suppress_first_row_top: bool,
}

/// The width of a cell's content.
#[verifier::allow_in_spec]
pub fn inner_width(width: Pt, margins: PtEdgeInsets) -> Pt
    returns
        (width.minus(margins.horizontal()).max(Pt::zero())),
{
    width.minus(margins.horizontal()).max(Pt::zero())
}

/// The content with the blocks from `k` on added below it.
#[verifier::opaque]
pub open spec fn cell_blocks<'a>(
    blocks: Seq<LayoutBlock>,
    k: int,
    flow: CellFlow<'a>,
    width: Pt,
    margins: PtEdgeInsets,
    default_line_height: Pt,
    parity: PageParity,
) -> CellFlow<'a>
    decreases blocks, 0nat, blocks.len() - k,
{
    if k >= blocks.len() || k < 0 {
        flow
    } else {
        cell_blocks(
            blocks,
            k + 1,
            with_block(flow, blocks[k], width, margins, default_line_height, parity),
            width,
            margins,
            default_line_height,
            parity,
        )
    }
}

/// The content with a block added below it.
#[verifier::opaque]
pub open spec fn with_block<'a>(
    flow: CellFlow<'a>,
    block: LayoutBlock,
    width: Pt,
    margins: PtEdgeInsets,
    default_line_height: Pt,
    parity: PageParity,
) -> CellFlow<'a>
    decreases block, 6nat, 0int,
{
    match block {
        LayoutBlock::Paragraph {
            fragments,
            style,
            footnotes,
            floating_images,
            floating_shapes,
            ..
        } => with_paragraph(
            flow,
            fragments@,
            style,
            footnotes@,
            floating_images@,
            floating_shapes@,
            inner_width(width, margins),
            margins,
            default_line_height,
            parity,
        ),
        LayoutBlock::Table { rows, col_widths, cell_spacing, border_config, .. } => {
            let format = TableFormat {
                col_widths: col_widths@,
                cell_spacing,
                default_line_height,
                borders: border_config,
                suppress_first_row_top: false,
            };
            let t = table_layout(rows@, format);
            with_table(flow, t.commands, t.size.height, table_footnotes(rows@, format), margins)
        },
    }
}

/// A cell without content.
pub open spec fn no_flow<'a>() -> CellFlow<'a> {
    CellFlow {
        y: Pt::zero(),
        previous: PreviousParagraph::none(),
        commands: Seq::empty(),
        lines: Seq::empty(),
        footnotes: Seq::empty(),
    }
}

/// The content of a cell: its blocks one below another, with their floating objects where a page of the
/// given parity has them.
#[verifier::opaque]
pub open spec fn cell_layout<'a>(
    blocks: Seq<LayoutBlock>,
    width: Pt,
    margins: PtEdgeInsets,
    default_line_height: Pt,
    parity: PageParity,
) -> CellLayoutView<'a>
    decreases blocks, 1nat, 0int,
{
    let flow = cell_blocks(blocks, 0, no_flow(), width, margins, default_line_height, parity);
    CellLayoutView {
        commands: flow.commands,
        content_height: flow.y,
        lines: flow.lines,
        footnotes: flow.footnotes,
    }
}

/// The content of a cell that a merged region above runs through.
pub open spec fn no_content<'a>() -> CellLayoutView<'a> {
    CellLayoutView {
        commands: Seq::empty(),
        content_height: Pt::zero(),
        lines: Seq::empty(),
        footnotes: Seq::empty(),
    }
}

/// A cell's first column within the grid.
pub open spec fn first_slot(row: TableRowInput, c: int, ncols: int) -> int {
    let start = grid_start(row, c) as int;
    if start < ncols {
        start
    } else {
        ncols
    }
}

/// The end of a cell's columns within the grid.
pub open spec fn slot_end(row: TableRowInput, c: int, ncols: int) -> int {
    let end = first_slot(row, c, ncols) + row.cells@[c].span();
    if end < ncols {
        end
    } else {
        ncols
    }
}

/// The left edge of a cell: one spacing after the columns before it.
pub open spec fn cell_left(row: TableRowInput, c: int, col_widths: Seq<Pt>, spacing: Pt) -> Pt {
    sum(col_widths.subrange(0, first_slot(row, c, col_widths.len() as int))).plus(spacing)
}

/// The width of a cell: its columns, less one spacing.
pub open spec fn cell_width(row: TableRowInput, c: int, col_widths: Seq<Pt>, spacing: Pt) -> Pt {
    sum(
        col_widths.subrange(
            first_slot(row, c, col_widths.len() as int),
            slot_end(row, c, col_widths.len() as int),
        ),
    ).minus(spacing).max(Pt::zero())
}

/// The width that a cell's blocks are laid out in: side borders wider than the
/// margins take room from it.
#[verifier::allow_in_spec]
pub fn layout_width(cell_w: Pt, margins: PtEdgeInsets, b: CellBorders) -> Pt
    returns
        (cell_w.minus(border_width(b.left).minus(margins.left).max(Pt::zero())).minus(
            border_width(b.right).minus(margins.right).max(Pt::zero()),
        ).max(Pt::zero())),
{
    cell_w.minus(border_width(b.left).minus(margins.left).max(Pt::zero())).minus(
        border_width(b.right).minus(margins.right).max(Pt::zero()),
    ).max(Pt::zero())
}

/// The borders that the cells of a row draw.
#[verifier::opaque]
pub open spec fn borders_of_row(rows: Seq<TableRowInput>, r: int, format: TableFormat) -> Seq<
    CellBorders,
> {
    resolved_row_borders(
        rows,
        r,
        format.borders,
        format.col_widths.len() as int,
        format.cell_spacing,
        format.suppress_first_row_top,
    )
}

/// A cell laid out. A table is measured before its pages are known: a floating object that is
/// mirrored on even pages stands where odd pages have it.
#[verifier::opaque]
pub open spec fn entry<'a>(
    rows: Seq<TableRowInput>,
    r: int,
    c: int,
    format: TableFormat,
) -> EntryView<'a>
    decreases rows, 1nat, 0int,
{
    let row = rows[r];
    let cell = row.cells@[c];
    let cell_w = cell_width(row, c, format.col_widths, format.cell_spacing);
    EntryView {
        layout: if 0 <= r < rows.len() && 0 <= c < row.cells@.len() && !cell.continues_merge() {
            cell_layout(
                cell.blocks@,
                layout_width(cell_w, cell.margins, borders_of_row(rows, r, format)[c]),
                cell.margins,
                format.default_line_height,
                PageParity::Odd,
            )
        } else {
            no_content()
        },
        cell_x: cell_left(row, c, format.col_widths, format.cell_spacing),
        cell_w,
        grid_col: grid_start(row, c),
    }
}

/// The cells of a row laid out.
#[verifier::opaque]
pub open spec fn row_entries<'a>(rows: Seq<TableRowInput>, r: int, format: TableFormat) -> Seq<
    EntryView<'a>,
>
    decreases rows, 2nat, 0int,
{
    Seq::new(rows[r].cells@.len(), |c: int| entry(rows, r, c, format))
}

/// Whether a cell's content counts towards the height of its row: not where the
/// cell shares its content with other rows.
pub open spec fn counts_in_row(rows: Seq<TableRowInput>, r: int, c: int) -> bool {
    let cell = rows[r].cells@[c];
    cell.vertical_merge is None || (cell.restarts_merge() && !runs_into_next_row(
        rows,
        r,
        grid_start(rows[r], c),
    ))
}

/// The greatest height among the contents of the cells from `c` on, and `acc`.
pub open spec fn tallest_content(
    rows: Seq<TableRowInput>,
    r: int,
    entries: Seq<EntryView<'_>>,
    c: int,
    acc: Pt,
) -> Pt
    decreases rows[r].cells@.len() - c,
{
    if c >= rows[r].cells@.len() || c < 0 {
        acc
    } else {
        tallest_content(
            rows,
            r,
            entries,
            c + 1,
            if counts_in_row(rows, r, c) {
                acc.max(
                    entries[c].layout.content_height.plus(rows[r].cells@[c].margins.vertical()),
                )
            } else {
                acc
            },
        )
    }
}

/// The greatest top and bottom margins among the cells from `c` on, and `acc`.
pub open spec fn widest_margins(row: TableRowInput, c: int, acc: (Pt, Pt)) -> (Pt, Pt)
    decreases row.cells@.len() - c,
{
    if c >= row.cells@.len() || c < 0 {
        acc
    } else {
        let m = row.cells@[c].margins;
        widest_margins(row, c + 1, (acc.0.max(m.top), acc.1.max(m.bottom)))
    }
}

/// The height of a row's content under its height rule.
///
/// A least height counts without the cells' margins; a fixed height counts
/// without their bottom margin.
#[verifier::allow_in_spec]
pub fn ruled_height(rule: Option<RowHeightRule>, content: Pt, top: Pt, bottom: Pt) -> Pt
    returns
        (match rule {
            Some(RowHeightRule::AtLeast(h)) => content.max(h.plus(top).plus(bottom)),
            Some(RowHeightRule::Exact(h)) => h.plus(bottom),
            None => content,
        }),
{
    match rule {
        Some(RowHeightRule::AtLeast(h)) => content.max(h.plus(top).plus(bottom)),
        Some(RowHeightRule::Exact(h)) => h.plus(bottom),
        None => content,
    }
}

/// The height of a row before merged regions grow it, its leading gap included.
pub open spec fn base_height(
    rows: Seq<TableRowInput>,
    r: int,
    entries: Seq<EntryView<'_>>,
    spacing: Pt,
) -> Pt {
    let margins = widest_margins(rows[r], 0, (Pt::zero(), Pt::zero()));
    ruled_height(
        rows[r].height_rule,
        tallest_content(rows, r, entries, 0, Pt::zero()),
        margins.0,
        margins.1,
    ).plus(spacing)
}

/// The width of the widest bottom border among the cells from `c` on, and `acc`.
pub open spec fn widest_bottom(b: Seq<CellBorders>, c: int, acc: Pt) -> Pt
    decreases b.len() - c,
{
    if c >= b.len() || c < 0 {
        acc
    } else {
        widest_bottom(b, c + 1, acc.max(border_width(b[c].bottom)))
    }
}

/// The cells of all rows laid out.
#[verifier::opaque]
pub open spec fn all_entries<'a>(rows: Seq<TableRowInput>, format: TableFormat) -> Seq<
    Seq<EntryView<'a>>,
>
    decreases rows, 3nat, 0int,
{
    Seq::new(rows.len(), |r: int| row_entries(rows, r, format))
}

/// The heights of all rows.
pub open spec fn row_heights(
    rows: Seq<TableRowInput>,
    entries: Seq<Seq<EntryView<'_>>>,
    spacing: Pt,
) -> Seq<Pt> {
    expand_rows(
        rows,
        entries,
        0,
        Seq::new(rows.len(), |r: int| base_height(rows, r, entries[r], spacing)),
    )
}

/// A measured row. Between rows that share an edge there is room for its border.
pub open spec fn assembled_row<'a>(
    rows: Seq<TableRowInput>,
    r: int,
    entries: Seq<Seq<EntryView<'a>>>,
    format: TableFormat,
) -> MeasuredRowView<'a> {
    let borders = borders_of_row(rows, r, format);
    MeasuredRowView {
        entries: entries[r],
        borders,
        height: row_heights(rows, entries, format.cell_spacing)[r],
        leading_gap: format.cell_spacing,
        border_gap_below: if r + 1 < rows.len() && format.cell_spacing.units <= 0 {
            widest_bottom(borders, 0, Pt::zero())
        } else {
            Pt::zero()
        },
    }
}

/// A measured table. Its width is that of its columns and one spacing.
#[verifier::opaque]
pub open spec fn measured_table<'a>(
    rows: Seq<TableRowInput>,
    format: TableFormat,
) -> MeasuredTableView<'a>
    decreases rows, 4nat, 0int,
{
    let entries = all_entries(rows, format);
    MeasuredTableView {
        rows: Seq::new(rows.len(), |r: int| assembled_row(rows, r, entries, format)),
        table_width: sum(format.col_widths).plus(format.cell_spacing),
    }
}

/// A table laid out as a whole: shading below content below borders, and one
/// more spacing below the last row.
#[verifier::opaque]
pub open spec fn table_layout(rows: Seq<TableRowInput>, format: TableFormat) -> TableLayoutView
    decreases rows, 5nat, 0int,
{
    if rows.len() == 0 || format.col_widths.len() == 0 {
        TableLayoutView { commands: Seq::empty(), size: PtSize::zero() }
    } else {
        drawn_table(measured_table(rows, format), rows, format.cell_spacing)
    }
}

/// A measured table drawn as a whole.
pub open spec fn drawn_table(
    m: MeasuredTableView<'_>,
    rows: Seq<TableRowInput>,
    cell_spacing: Pt,
) -> TableLayoutView {
    let d = with_rows(
        Drawing { layers: Layers::empty(), y: Pt::zero() },
        m.rows,
        rows,
        0,
        0,
        rows.len() as int,
        None,
    );
    TableLayoutView {
        commands: d.layers.flattened(),
        size: PtSize { width: m.table_width, height: d.y.plus(cell_spacing) },
    }
}

/// The footnotes that a table refers to.
#[verifier::opaque]
pub open spec fn table_footnotes<'a>(rows: Seq<TableRowInput>, format: TableFormat) -> Seq<
    &'a LayoutFootnote,
>
    decreases rows, 5nat, 0int,
{
    if rows.len() == 0 || format.col_widths.len() == 0 {
        Seq::empty()
    } else {
        range_footnotes(measured_table(rows, format).rows, 0, rows.len() as int, Seq::empty())
    }
}

/// What `cell_layout` stands for.
pub(crate) proof fn lemma_cell_layout(
    blocks: Seq<LayoutBlock>,
    width: Pt,
    margins: PtEdgeInsets,
    default_line_height: Pt,
    parity: PageParity,
)
    ensures
        ({
            let flow = cell_blocks(
                blocks,
                0,
                no_flow(),
                width,
                margins,
                default_line_height,
                parity,
            );
            cell_layout(blocks, width, margins, default_line_height, parity) == (CellLayoutView {
                commands: flow.commands,
                content_height: flow.y,
                lines: flow.lines,
                footnotes: flow.footnotes,
            })
        }),
{
    reveal(cell_layout);
    reveal(cell_blocks);
}

/// One step of `cell_blocks`.
pub(crate) proof fn lemma_cell_block<'a>(
    blocks: Seq<LayoutBlock>,
    k: int,
    flow: CellFlow<'a>,
    width: Pt,
    margins: PtEdgeInsets,
    default_line_height: Pt,
    parity: PageParity,
)
    ensures
        cell_blocks(blocks, k, flow, width, margins, default_line_height, parity) == if k
            >= blocks.len() || k < 0 {
            flow
        } else {
            cell_blocks(
                blocks,
                k + 1,
                with_block(flow, blocks[k], width, margins, default_line_height, parity),
                width,
                margins,
                default_line_height,
                parity,
            )
        },
{
    reveal(cell_blocks);
    reveal(with_block);
    reveal(table_layout);
    reveal(table_footnotes);
}

proof fn lemma_parity_changes_no_height<'a>(
    blocks: Seq<LayoutBlock>,
    k: int,
    a: CellFlow<'a>,
    b: CellFlow<'a>,
    width: Pt,
    margins: PtEdgeInsets,
    default_line_height: Pt,
    p: PageParity,
    q: PageParity,
)
    requires
        a.y == b.y,
        a.previous == b.previous,
    ensures
        cell_blocks(blocks, k, a, width, margins, default_line_height, p).y == cell_blocks(
            blocks,
            k,
            b,
            width,
            margins,
            default_line_height,
            q,
        ).y,
    decreases blocks.len() - k,
{
    lemma_cell_block(blocks, k, a, width, margins, default_line_height, p);
    lemma_cell_block(blocks, k, b, width, margins, default_line_height, q);
    if 0 <= k < blocks.len() {
        let next_a = with_block(a, blocks[k], width, margins, default_line_height, p);
        let next_b = with_block(b, blocks[k], width, margins, default_line_height, q);
        assert(next_a.y == next_b.y && next_a.previous == next_b.previous) by {
            reveal(with_block);
        }
        lemma_parity_changes_no_height(
            blocks,
            k + 1,
            next_a,
            next_b,
            width,
            margins,
            default_line_height,
            p,
            q,
        );
    }
}

/// Content is as high on even pages as on odd ones: parity moves floating objects alone.
pub proof fn law_parity_changes_no_height(
    blocks: Seq<LayoutBlock>,
    width: Pt,
    margins: PtEdgeInsets,
    default_line_height: Pt,
    p: PageParity,
    q: PageParity,
)
    ensures
        cell_layout(blocks, width, margins, default_line_height, p).content_height == cell_layout(
            blocks,
            width,
            margins,
            default_line_height,
            q,
        ).content_height,
{
    lemma_cell_layout(blocks, width, margins, default_line_height, p);
    lemma_cell_layout(blocks, width, margins, default_line_height, q);
    lemma_parity_changes_no_height(
        blocks,
        0,
        no_flow(),
        no_flow(),
        width,
        margins,
        default_line_height,
        p,
        q,
    );
}

/// What `table_layout` and `table_footnotes` stand for.
pub(crate) proof fn lemma_table_layout(rows: Seq<TableRowInput>, format: TableFormat)
    ensures
        table_layout(rows, format) == if rows.len() == 0 || format.col_widths.len() == 0 {
            TableLayoutView { commands: Seq::empty(), size: PtSize::zero() }
        } else {
            drawn_table(measured_table(rows, format), rows, format.cell_spacing)
        },
        table_footnotes(rows, format) == if rows.len() == 0 || format.col_widths.len() == 0 {
            Seq::empty()
        } else {
            range_footnotes(measured_table(rows, format).rows, 0, rows.len() as int, Seq::empty())
        },
{
    reveal(table_layout);
    reveal(table_footnotes);
    reveal(measured_table);
}

/// What `entry` stands for.
pub(crate) proof fn lemma_entry(rows: Seq<TableRowInput>, r: int, c: int, format: TableFormat)
    requires
        0 <= r < rows.len(),
        0 <= c < rows[r].cells@.len(),
    ensures
        ({
            let cell = rows[r].cells@[c];
            let cell_w = cell_width(rows[r], c, format.col_widths, format.cell_spacing);
            entry(rows, r, c, format) == (EntryView {
                layout: if !cell.continues_merge() {
                    cell_layout(
                        cell.blocks@,
                        layout_width(cell_w, cell.margins, borders_of_row(rows, r, format)[c]),
                        cell.margins,
                        format.default_line_height,
                        PageParity::Odd,
                    )
                } else {
                    no_content()
                },
                cell_x: cell_left(rows[r], c, format.col_widths, format.cell_spacing),
                cell_w,
                grid_col: grid_start(rows[r], c),
            })
        }),
{
    reveal(entry);
    reveal(cell_layout);
}

/// What `row_entries` stands for.
pub(crate) proof fn lemma_row_entries(rows: Seq<TableRowInput>, r: int, format: TableFormat)
    ensures
        row_entries(rows, r, format).len() == rows[r].cells@.len(),
        forall|c: int|
            0 <= c < rows[r].cells@.len() ==> #[trigger] row_entries(rows, r, format)[c]
                == entry(rows, r, c, format),
{
    reveal(row_entries);
    reveal(entry);
}

/// What `all_entries` stands for.
pub(crate) proof fn lemma_all_entries(rows: Seq<TableRowInput>, format: TableFormat)
    ensures
        all_entries(rows, format).len() == rows.len(),
        forall|r: int|
            0 <= r < rows.len() ==> #[trigger] all_entries(rows, format)[r] == row_entries(
                rows,
                r,
                format,
            ),
{
    reveal(all_entries);
    reveal(row_entries);
}

/// What `measured_table` stands for.
pub(crate) proof fn lemma_measured_table(rows: Seq<TableRowInput>, format: TableFormat)
    ensures
        measured_table(rows, format).rows.len() == rows.len(),
        forall|r: int|
            0 <= r < rows.len() ==> #[trigger] measured_table(rows, format).rows[r]
                == assembled_row(rows, r, all_entries(rows, format), format),
        measured_table(rows, format).table_width == sum(format.col_widths).plus(
            format.cell_spacing,
        ),
{
    reveal(measured_table);
    reveal(all_entries);
}

/// Whether the content of each cell is consistent.
pub open spec fn entries_consistent(entries: Seq<EntryView<'_>>) -> bool {
    forall|c: int| #![trigger entries[c]]
        0 <= c < entries.len() ==> cell_consistent(
            entries[c].layout.commands,
            entries[c].layout.lines,
            entries[c].layout.footnotes,
        )
}

/// Whether measured rows fit their rows and hold consistent content.
pub open spec fn table_consistent(
    measured: Seq<MeasuredRowView<'_>>,
    rows: Seq<TableRowInput>,
) -> bool {
    &&& rows_fit(measured, rows)
    &&& forall|r: int| #![trigger measured[r]]
        0 <= r < measured.len() ==> entries_consistent(measured[r].entries)
}

/// Lay out the blocks of a cell one below another.
pub fn layout_cell<'a>(
    blocks: &'a [LayoutBlock],
    width: Pt,
    margins: &PtEdgeInsets,
    default_line_height: Pt,
    parity: PageParity,
) -> (r: CellLayout<'a>)
    ensures
        r@ == cell_layout(blocks@, width, *margins, default_line_height, parity),
        cell_consistent(r@.commands, r@.lines, r@.footnotes),
    decreases blocks@, 0nat, 0int,
{
    let mut builder: CellBuilder<'a> = CellBuilder::new();
    proof {
        lemma_cell_layout(blocks@, width, *margins, default_line_height, parity);
        assert(builder@ =~= no_flow());
    }
    let mut k: usize = 0;
    while k < blocks.len()
        invariant
            k <= blocks@.len(),
            cell_consistent(builder@.commands, builder@.lines, builder@.footnotes),
            cell_blocks(
                blocks@,
                k as int,
                builder@,
                width,
                *margins,
                default_line_height,
                parity,
            ) == cell_blocks(blocks@, 0, no_flow(), width, *margins, default_line_height, parity),
        decreases blocks@.len() - k,
    {
        proof {
            lemma_cell_block(
                blocks@,
                k as int,
                builder@,
                width,
                *margins,
                default_line_height,
                parity,
            );
            reveal(with_block);
            reveal(table_layout);
            reveal(table_footnotes);
        }
        match &blocks[k] {
            LayoutBlock::Paragraph {
                fragments,
                style,
                footnotes,
                floating_images,
                floating_shapes,
                ..
            } => {
                builder.add_paragraph(
                    fragments.as_slice(),
                    style,
                    footnotes.as_slice(),
                    floating_images.as_slice(),
                    floating_shapes.as_slice(),
                    inner_width(width, *margins),
                    margins,
                    default_line_height,
                    parity,
                );
            },
            LayoutBlock::Table { rows, col_widths, cell_spacing, border_config, .. } => {
                assert(decreases_to!(blocks@ => blocks@[k as int]));
                let ghost format = TableFormat {
                    col_widths: col_widths@,
                    cell_spacing: *cell_spacing,
                    default_line_height,
                    borders: *border_config,
                    suppress_first_row_top: false,
                };
                let (table, footnotes) = layout_nested_table(
                    rows.as_slice(),
                    col_widths.as_slice(),
                    *cell_spacing,
                    default_line_height,
                    *border_config,
                );
                builder.add_table(&table.commands, table.size.height, &footnotes, margins);
            },
        }
        k += 1;
    }
    proof {
        lemma_cell_block(
            blocks@,
            k as int,
            builder@,
            width,
            *margins,
            default_line_height,
            parity,
        );
    }
    CellLayout {
        commands: builder.commands,
        content_height: builder.y,
        lines: builder.lines,
        footnotes: builder.footnotes,
    }
}

fn layout_nested_table<'a>(
    rows: &'a [TableRowInput],
    col_widths: &[Pt],
    cell_spacing: Pt,
    default_line_height: Pt,
    borders: Option<TableBorderConfig>,
) -> (r: (TableLayout, Vec<&'a LayoutFootnote>))
    ensures
        ({
            let format = TableFormat {
                col_widths: col_widths@,
                cell_spacing,
                default_line_height,
                borders,
                suppress_first_row_top: false,
            };
            r.0@ == table_layout(rows@, format) && r.1@ == table_footnotes(rows@, format)
        }),
    decreases rows@, 5nat, 0int,
{
    let mut footnotes: Vec<&'a LayoutFootnote> = Vec::new();
    let ghost format = TableFormat {
        col_widths: col_widths@,
        cell_spacing,
        default_line_height,
        borders,
        suppress_first_row_top: false,
    };
    proof {
        lemma_table_layout(rows@, format);
    }
    if rows.len() == 0 || col_widths.len() == 0 {
        let none = TableLayout { commands: Vec::new(), size: PtSize::zero() };
        assert(none.commands@ =~= Seq::empty());
        assert(footnotes@ =~= Seq::empty());
        return (none, footnotes);
    }
    let measured = measure_table_rows(
        rows,
        col_widths,
        cell_spacing,
        default_line_height,
        borders,
        false,
    );
    let table = draw_table(&measured, rows, cell_spacing);
    append_measured_range_footnotes(measured.rows.as_slice(), 0, rows.len(), &mut footnotes);
    (table, footnotes)
}

/// Draw a measured table as a whole.
pub fn draw_table(
    measured: &MeasuredTable<'_>,
    rows: &[TableRowInput],
    cell_spacing: Pt,
) -> (r: TableLayout)
    requires
        rows_fit(measured@.rows, rows@),
    ensures
        r@ == drawn_table(measured@, rows@, cell_spacing),
{
    let mut bufs = TableCommandBuffers::new();
    let mut cursor_y = Pt::zero();
    emit_table_rows(
        measured.rows.as_slice(),
        rows,
        0,
        rows.len(),
        &mut cursor_y,
        &mut bufs,
        None,
    );
    let commands = bufs.flatten();
    TableLayout { commands, size: PtSize::new(measured.table_width, cursor_y.plus(cell_spacing)) }
}

/// The left edge and the width of a cell.
fn cell_box(
    row: &TableRowInput,
    c: usize,
    grid_idx: usize,
    col_widths: &[Pt],
    cell_spacing: Pt,
) -> (r: (Pt, Pt))
    requires
        c < row.cells@.len(),
        grid_idx == grid_start(*row, c as int),
    ensures
        r.0 == cell_left(*row, c as int, col_widths@, cell_spacing),
        r.1 == cell_width(*row, c as int, col_widths@, cell_spacing),
{
    let ncols: usize = col_widths.len();
    let start: usize = if grid_idx < ncols {
        grid_idx
    } else {
        ncols
    };
    let wanted: usize = start.saturating_add(row.cells[c].span());
    let end: usize = if wanted < ncols {
        wanted
    } else {
        ncols
    };
    let cell_w = sum_range(col_widths, start, end).minus(cell_spacing).max(Pt::zero());
    let cell_x = sum_range(col_widths, 0, start).plus(cell_spacing);
    (cell_x, cell_w)
}

fn measure_cell<'a>(
    rows: &'a [TableRowInput],
    row_idx: usize,
    c: usize,
    grid_idx: usize,
    col_widths: &[Pt],
    cell_spacing: Pt,
    default_line_height: Pt,
    b: CellBorders,
    Ghost(format): Ghost<TableFormat>,
) -> (r: CellLayoutEntry<'a>)
    requires
        row_idx < rows@.len(),
        c < rows@[row_idx as int].cells@.len(),
        grid_idx == grid_start(rows@[row_idx as int], c as int),
        format.col_widths == col_widths@,
        format.cell_spacing == cell_spacing,
        format.default_line_height == default_line_height,
        b == borders_of_row(rows@, row_idx as int, format)[c as int],
    ensures
        r@ == entry(rows@, row_idx as int, c as int, format),
        cell_consistent(r@.layout.commands, r@.layout.lines, r@.layout.footnotes),
    decreases rows@, 1nat, 0int,
{
    proof {
        lemma_entry(rows@, row_idx as int, c as int, format);
    }
    let row = &rows[row_idx];
    let cell = &row.cells[c];
    let (cell_x, cell_w) = cell_box(row, c, grid_idx, col_widths, cell_spacing);
    let layout: CellLayout<'a> = if cell.continues_merge() {
        let empty: CellLayout<'a> = CellLayout {
            commands: Vec::new(),
            content_height: Pt::zero(),
            lines: Vec::new(),
            footnotes: Vec::new(),
        };
        assert(empty@ =~= no_content());
        empty
    } else {
        proof {
            assert(decreases_to!(rows@ => rows@[row_idx as int]));
            assert(decreases_to!(row.cells => row.cells@));
            assert(decreases_to!(row.cells@ => row.cells@[c as int]));
            assert(decreases_to!(cell.blocks => cell.blocks@));
        }
        layout_cell(
            cell.blocks.as_slice(),
            layout_width(cell_w, cell.margins, b),
            &cell.margins,
            default_line_height,
            PageParity::Odd,
        )
    };
    CellLayoutEntry { layout, cell_x, cell_w, grid_col: grid_idx }
}

/// Lay out the cells of a row. Returns them with the height of the row before merged regions grow it.
fn measure_row<'a>(
    rows: &'a [TableRowInput],
    row_idx: usize,
    col_widths: &[Pt],
    cell_spacing: Pt,
    default_line_height: Pt,
    borders: &Vec<CellBorders>,
    Ghost(format): Ghost<TableFormat>,
) -> (r: (Vec<CellLayoutEntry<'a>>, Pt))
    requires
        row_idx < rows@.len(),
        format.col_widths == col_widths@,
        format.cell_spacing == cell_spacing,
        format.default_line_height == default_line_height,
        borders@.len() == rows@[row_idx as int].cells@.len(),
        borders@ == borders_of_row(rows@, row_idx as int, format),
    ensures
        entries_view(r.0@) == row_entries(rows@, row_idx as int, format),
        entries_consistent(row_entries(rows@, row_idx as int, format)),
        r.1 == base_height(
            rows@,
            row_idx as int,
            row_entries(rows@, row_idx as int, format),
            cell_spacing,
        ),
    decreases rows@, 2nat, 0int,
{
    proof {
        lemma_row_entries(rows@, row_idx as int, format);
    }
    let num_rows: usize = rows.len();
    let row = &rows[row_idx];
    let ghost wanted = row_entries(rows@, row_idx as int, format);
    let mut entries: Vec<CellLayoutEntry<'a>> = Vec::new();
    let mut content = Pt::zero();
    let mut top = Pt::zero();
    let mut bottom = Pt::zero();
    let mut grid_idx: usize = row.grid_before as usize;
    let mut c: usize = 0;
    while c < row.cells.len()
        invariant
            row_idx < num_rows,
            num_rows == rows@.len(),
            *row == rows@[row_idx as int],
            c <= row.cells@.len(),
            grid_idx == grid_start(*row, c as int),
            format.col_widths == col_widths@,
            format.cell_spacing == cell_spacing,
            format.default_line_height == default_line_height,
            wanted.len() == row.cells@.len(),
            forall|k: int|
                0 <= k < row.cells@.len() ==> #[trigger] wanted[k] == entry(
                    rows@,
                    row_idx as int,
                    k,
                    format,
                ),
            borders@.len() == row.cells@.len(),
            borders@ == borders_of_row(rows@, row_idx as int, format),
            entries@.len() == c,
            forall|k: int|
                #![trigger entries@[k]]
                0 <= k < c ==> entries@[k]@ == wanted[k] && cell_consistent(
                    wanted[k].layout.commands,
                    wanted[k].layout.lines,
                    wanted[k].layout.footnotes,
                ),
            tallest_content(rows@, row_idx as int, wanted, c as int, content)
                == tallest_content(rows@, row_idx as int, wanted, 0, Pt::zero()),
            widest_margins(*row, c as int, (top, bottom)) == widest_margins(
                *row,
                0,
                (Pt::zero(), Pt::zero()),
            ),
        decreases row.cells@.len() - c,
    {
        let cell = &row.cells[c];
        let measured = measure_cell(
            rows,
            row_idx,
            c,
            grid_idx,
            col_widths,
            cell_spacing,
            default_line_height,
            borders[c],
            Ghost(format),
        );
        assert(measured@ == wanted[c as int]);
        let continues_below = row_idx + 1 < num_rows && is_vmerge_continue(
            &rows[row_idx + 1],
            grid_idx,
        );
        if cell.vertical_merge.is_none() || (cell.restarts_merge() && !continues_below) {
            content = content.max(
                measured.layout.content_height.plus(cell.margins.vertical()),
            );
        }
        top = top.max(cell.margins.top);
        bottom = bottom.max(cell.margins.bottom);
        entries.push(measured);
        grid_idx = grid_idx.saturating_add(cell.span());
        c += 1;
    }
    assert(entries_view(entries@) =~= wanted);
    assert(entries_consistent(wanted)) by {
        assert forall|k: int| #![trigger wanted[k]] 0 <= k < wanted.len() implies cell_consistent(
            wanted[k].layout.commands,
            wanted[k].layout.lines,
            wanted[k].layout.footnotes,
        ) by {
            let e = entries@[k];
        }
    }
    let height = ruled_height(row.height_rule, content, top, bottom).plus(cell_spacing);
    (entries, height)
}

/// Measure all rows of a table: resolve borders, lay out cells, compute heights.
///
/// The columns' widths together fall short of the table's width by one cell
/// spacing, so that there is one spacing between any two cells and at both
/// edges of the table. `suppress_first_row_top` leaves out the table's top
/// border, which a table of the same style right above has drawn already.
pub fn measure_table_rows<'a>(
    rows: &'a [TableRowInput],
    col_widths: &[Pt],
    cell_spacing: Pt,
    default_line_height: Pt,
    borders: Option<TableBorderConfig>,
    suppress_first_row_top: bool,
) -> (r: MeasuredTable<'a>)
    ensures
        r@ == measured_table(
            rows@,
            (TableFormat {
                col_widths: col_widths@,
                cell_spacing,
                default_line_height,
                borders,
                suppress_first_row_top,
            }),
        ),
        table_consistent(r@.rows, rows@),
    decreases rows@, 4nat, 0int,
{
    let ghost format = TableFormat {
        col_widths: col_widths@,
        cell_spacing,
        default_line_height,
        borders,
        suppress_first_row_top,
    };
    let ghost spec_entries = all_entries(rows@, format);
    proof {
        lemma_all_entries(rows@, format);
    }
    let table_width = sum_range(col_widths, 0, col_widths.len()).plus(cell_spacing);
    assert(col_widths@.subrange(0, col_widths@.len() as int) =~= col_widths@);
    let num_rows: usize = rows.len();
    let resolved = resolve_table_borders(
        rows,
        borders,
        col_widths.len(),
        cell_spacing,
        suppress_first_row_top,
    );
    assert forall|row: int| #![trigger resolved@[row]] 0 <= row < rows@.len() implies resolved@[row]@
        == borders_of_row(rows@, row, format) by {
        reveal(borders_of_row);
    }
    let mut layouts: Vec<Vec<CellLayoutEntry<'a>>> = Vec::new();
    let mut heights: Vec<Pt> = Vec::new();
    let mut row_idx: usize = 0;
    while row_idx < num_rows
        invariant
            row_idx <= num_rows,
            num_rows == rows@.len(),
            format == (TableFormat {
                col_widths: col_widths@,
                cell_spacing,
                default_line_height,
                borders,
                suppress_first_row_top,
            }),
            spec_entries.len() == rows@.len(),
            forall|r: int|
                0 <= r < rows@.len() ==> #[trigger] spec_entries[r] == row_entries(
                    rows@,
                    r,
                    format,
                ),
            resolved@.len() == rows@.len(),
            forall|row: int|
                #![trigger resolved@[row]]
                0 <= row < rows@.len() ==> resolved@[row]@.len() == rows@[row].cells@.len()
                    && resolved@[row]@ == borders_of_row(rows@, row, format),
            layouts@.len() == row_idx,
            heights@.len() == row_idx,
            forall|r: int|
                #![trigger layouts@[r]]
                0 <= r < row_idx ==> entries_view(layouts@[r]@) == spec_entries[r]
                    && entries_consistent(spec_entries[r]),
            forall|r: int|
                #![trigger heights@[r]]
                0 <= r < row_idx ==> heights@[r] == base_height(
                    rows@,
                    r,
                    spec_entries[r],
                    cell_spacing,
                ),
        decreases num_rows - row_idx,
    {
        let (entries, height) = measure_row(
            rows,
            row_idx,
            col_widths,
            cell_spacing,
            default_line_height,
            &resolved[row_idx],
            Ghost(format),
        );
        assert(spec_entries[row_idx as int] == row_entries(rows@, row_idx as int, format));
        assert(entries_consistent(spec_entries[row_idx as int]));
        assert(entries_view(entries@) == spec_entries[row_idx as int]);
        let ghost before = layouts@;
        heights.push(height);
        layouts.push(entries);
        assert forall|r: int| #![trigger layouts@[r]] 0 <= r < row_idx + 1 implies entries_view(
            layouts@[r]@,
        ) == spec_entries[r] && entries_consistent(spec_entries[r]) by {
            if r < row_idx {
                assert(layouts@[r] == before[r]);
            }
        }
        row_idx += 1;
    }
    assert(layouts_view(layouts@) =~= spec_entries);
    assert(heights@ =~= Seq::new(
        rows@.len(),
        |r: int| base_height(rows@, r, spec_entries[r], cell_spacing),
    ));
    assert forall|r: int| #![trigger rows@[r]] 0 <= r < rows@.len() implies layouts@[r]@.len()
        == rows@[r].cells@.len() by {
        lemma_row_entries(rows@, r, format);
        assert(entries_view(layouts@[r]@) == spec_entries[r]);
        assert(entries_view(layouts@[r]@).len() == layouts@[r]@.len());
    }
    expand_rows_for_vmerge(rows, &layouts, &mut heights);
    assemble_rows(
        rows,
        layouts,
        resolved,
        heights,
        cell_spacing,
        table_width,
        Ghost(format),
    )
}

fn assemble_rows<'a>(
    rows: &[TableRowInput],
    layouts: Vec<Vec<CellLayoutEntry<'a>>>,
    resolved: Vec<Vec<CellBorders>>,
    heights: Vec<Pt>,
    cell_spacing: Pt,
    table_width: Pt,
    Ghost(format): Ghost<TableFormat>,
) -> (r: MeasuredTable<'a>)
    requires
        format.cell_spacing == cell_spacing,
        table_width == sum(format.col_widths).plus(format.cell_spacing),
        layouts@.len() == rows@.len(),
        layouts_view(layouts@) == all_entries(rows@, format),
        forall|r: int|
            #![trigger layouts@[r]]
            0 <= r < rows@.len() ==> entries_consistent(entries_view(layouts@[r]@)),
        resolved@.len() == rows@.len(),
        forall|row: int|
            #![trigger resolved@[row]]
            0 <= row < rows@.len() ==> resolved@[row]@.len() == rows@[row].cells@.len()
                && resolved@[row]@ == borders_of_row(rows@, row, format),
        heights@ == row_heights(rows@, all_entries(rows@, format), cell_spacing),
        heights@.len() == rows@.len(),
    ensures
        r@ == measured_table(rows@, format),
        table_consistent(r@.rows, rows@),
{
    let ghost entries = all_entries(rows@, format);
    proof {
        lemma_measured_table(rows@, format);
        lemma_all_entries(rows@, format);
    }
    let num_rows: usize = rows.len();
    let mut left = layouts;
    let mut borders_left = resolved;
    let ghost all_layouts = layouts@;
    let ghost all_borders = resolved@;
    let mut reversed: Vec<MeasuredRow<'a>> = Vec::new();
    let mut i: usize = num_rows;
    while i > 0
        invariant
            i <= num_rows,
            num_rows == rows@.len(),
            entries.len() == rows@.len(),
            forall|r: int|
                0 <= r < rows@.len() ==> #[trigger] entries[r] == row_entries(
                    rows@,
                    r,
                    format,
                ),
            format.cell_spacing == cell_spacing,
            left@ == all_layouts.take(i as int),
            borders_left@ == all_borders.take(i as int),
            all_layouts.len() == num_rows,
            all_borders.len() == num_rows,
            layouts_view(all_layouts) == entries,
            forall|r: int|
                #![trigger all_layouts[r]]
                0 <= r < rows@.len() ==> entries_consistent(entries_view(all_layouts[r]@)),
            forall|row: int|
                #![trigger all_borders[row]]
                0 <= row < rows@.len() ==> all_borders[row]@.len() == rows@[row].cells@.len()
                    && all_borders[row]@ == borders_of_row(rows@, row, format),
            heights@ == row_heights(rows@, entries, cell_spacing),
            heights@.len() == rows@.len(),
            reversed@.len() == num_rows - i,
            forall|k: int|
                #![trigger reversed@[k]]
                0 <= k < reversed@.len() ==> reversed@[k]@ == assembled_row(
                    rows@,
                    num_rows - 1 - k,
                    entries,
                    format,
                ) && row_is_sound(reversed@[k]@, rows@[num_rows - 1 - k]),
        decreases i,
    {
        i -= 1;
        let row_layouts = left.pop().unwrap();
        let row_borders = borders_left.pop().unwrap();
        assert(row_layouts == all_layouts[i as int]);
        assert(row_borders == all_borders[i as int]);
        assert(left@ =~= all_layouts.take(i as int));
        assert(borders_left@ =~= all_borders.take(i as int));
        let gap = if i + 1 < num_rows && cell_spacing.units <= 0 {
            find_widest_bottom(&row_borders)
        } else {
            Pt::zero()
        };
        let row = MeasuredRow {
            entries: row_layouts,
            borders: row_borders,
            height: heights[i],
            leading_gap: cell_spacing,
            border_gap_below: gap,
        };
        proof {
            assert(layouts_view(all_layouts)[i as int] == entries_view(all_layouts[i as int]@));
            assert(entries[i as int] == row_entries(rows@, i as int, format));
            lemma_row_entries(rows@, i as int, format);
            assert(row@ =~= assembled_row(rows@, i as int, entries, format));
            assert(row_is_sound(row@, rows@[i as int]));
        }
        reversed.push(row);
    }
    let mut ordered: Vec<MeasuredRow<'a>> = Vec::new();
    let ghost all_rows = reversed@;
    let mut k: usize = num_rows;
    while k > 0
        invariant
            k <= num_rows,
            num_rows == rows@.len(),
            all_rows.len() == num_rows,
            reversed@ == all_rows.take(k as int),
            ordered@.len() == num_rows - k,
            forall|j: int|
                #![trigger ordered@[j]]
                0 <= j < ordered@.len() ==> ordered@[j] == all_rows[num_rows - 1 - j],
        decreases k,
    {
        k -= 1;
        let row = reversed.pop().unwrap();
        assert(row == all_rows[k as int]);
        assert(reversed@ =~= all_rows.take(k as int));
        ordered.push(row);
    }
    let measured = MeasuredTable { rows: ordered, table_width };
    proof {
        let wanted = measured_table(rows@, format);
        assert(measured@.rows.len() == wanted.rows.len());
        assert forall|r: int| 0 <= r < rows@.len() implies #[trigger] measured@.rows[r]
            == wanted.rows[r] && row_is_sound(measured@.rows[r], rows@[r]) by {
            assert(ordered@[r] == all_rows[num_rows - 1 - r]);
            assert(all_rows[num_rows - 1 - r]@ == assembled_row(rows@, r, entries, format));
        }
        assert(measured@ =~= wanted);
        assert(rows_fit(measured@.rows, rows@)) by {
            assert forall|r: int|
                #![trigger rows@[r]]
                0 <= r < rows@.len() implies crate::table::emit::row_fits(
                measured@.rows[r],
                rows@[r],
            ) by {
                assert(row_is_sound(measured@.rows[r], rows@[r]));
            }
        }
        assert(table_consistent(measured@.rows, rows@));
    }
    measured
}

/// Whether a measured row fits its row and holds consistent content.
pub open spec fn row_is_sound(measured: MeasuredRowView<'_>, row: TableRowInput) -> bool {
    crate::table::emit::row_fits(measured, row) && entries_consistent(measured.entries)
}

fn find_widest_bottom(b: &Vec<CellBorders>) -> (r: Pt)
    ensures
        r == widest_bottom(b@, 0, Pt::zero()),
{
    let mut widest = Pt::zero();
    let mut c: usize = 0;
    while c < b.len()
        invariant
            c <= b@.len(),
            widest_bottom(b@, c as int, widest) == widest_bottom(b@, 0, Pt::zero()),
        decreases b@.len() - c,
    {
        widest = widest.max(border_width(b[c].bottom));
        c += 1;
    }
    widest
}

} // verus!
