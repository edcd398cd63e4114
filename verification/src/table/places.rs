//! Where the cells of a table and their content stand.
use crate::block::{CellVAlign, TableBorderLine, TableCellInput, TableRowInput};
use crate::dimension::Pt;
use crate::draw_command::{shift_all, DrawCommand};
use crate::note_laws::{holds_moved, is_length};
use crate::outlines::within;
use crate::table::borders::border_width;
use crate::table::emit::{
    cell_height, row_drawing, shown_top, span_height_from, with_cell, with_cells, with_rows,
    Drawing, Layers, MergeScope, RowDrawing,
};
use crate::table::fits::{heights_add_up, heights_sum};
use crate::table::grid::merge_continues;
use crate::table::measure::{
    lemma_measured_table, lemma_table_layout, measured_table, table_layout, TableFormat,
};
use crate::table::types::{EntryView, MeasuredRowView};
use vstd::prelude::*;

verus! {

/// What of a border's width the margin beside it does not take.
pub open spec fn inset(border: Pt, margin: Pt) -> int {
    if border.units > margin.units {
        border.units - margin.units
    } else {
        0
    }
}

/// Whether content stands in a box as its alignment asks: `above` is the free room above it, `below`
/// that below it. Content that is higher than the box starts at its top.
pub open spec fn is_aligned(align: CellVAlign, above: int, below: int) -> bool {
    if above + below < 0 {
        above == 0
    } else {
        match align {
            CellVAlign::Top => above == 0,
            CellVAlign::Center => 0 <= above && 0 <= below && within(above, below, 1),
            CellVAlign::Bottom => below == 0,
        }
    }
}

/// The free room in a box of the given height: the content of a cell takes the rest with its margins,
/// and with what the margin leaves of the border above it.
pub open spec fn free_room(
    height: int,
    cell: TableCellInput,
    content_height: Pt,
    top_border: Pt,
) -> int {
    height - inset(top_border, cell.margins.top) - cell.margins.top.units
        - content_height.units - cell.margins.bottom.units
}

/// Whether a box and the content in it stand at lengths.
pub open spec fn has_place(
    entry: EntryView<'_>,
    cell: TableCellInput,
    left_border: Pt,
    top_border: Pt,
    top: int,
    height: int,
) -> bool {
    let free = free_room(height, cell, entry.layout.content_height, top_border);
    let dy = inset(top_border, cell.margins.top);
    &&& is_length(top)
    &&& is_length(height)
    &&& is_length(left_border.units - cell.margins.left.units)
    &&& is_length(top_border.units - cell.margins.top.units)
    &&& is_length(cell.margins.top.units + cell.margins.bottom.units)
    &&& is_length(
        entry.layout.content_height.units + cell.margins.top.units + cell.margins.bottom.units,
    )
    &&& is_length(free)
    &&& is_length(free + dy)
    &&& is_length(entry.cell_x.units + inset(left_border, cell.margins.left))
    &&& is_length(top + dy)
    &&& free > 0 ==> is_length(top + dy + free)
}

/// Whether the content of a cell is drawn from number `at` on, `above` the free room above it, in the
/// box that starts at `top` and has the given height.
pub open spec fn content_stands(
    commands: Seq<DrawCommand>,
    at: int,
    entry: EntryView<'_>,
    cell: TableCellInput,
    left_border: Pt,
    top_border: Pt,
    top: int,
    height: int,
    above: int,
) -> bool {
    &&& holds_moved(
        commands,
        at,
        entry.layout.commands,
        entry.cell_x.units + inset(left_border, cell.margins.left),
        top + inset(top_border, cell.margins.top) + above,
    )
    &&& is_aligned(
        cell.vertical_align,
        above,
        free_room(height, cell, entry.layout.content_height, top_border) - above,
    )
}

/// Whether a command paints the whole of a box.
pub open spec fn paints(
    command: DrawCommand,
    cell: TableCellInput,
    entry: EntryView<'_>,
    top: int,
    height: int,
) -> bool {
    command matches DrawCommand::Rect { rect, color } && {
        &&& Some(color) == cell.shading
        &&& rect.origin.x == entry.cell_x
        &&& rect.origin.y.units == top
        &&& rect.size.width == entry.cell_w
        &&& rect.size.height.units == height
    }
}

/// Whether `b` holds the layers of `a` and more above them.
pub open spec fn goes_on_from(a: Layers, b: Layers) -> bool {
    &&& a.shading.is_prefix_of(b.shading)
    &&& a.content.is_prefix_of(b.content)
    &&& a.borders.is_prefix_of(b.borders)
}

proof fn lemma_prefixes(a: Seq<DrawCommand>, b: Seq<DrawCommand>, c: Seq<DrawCommand>)
    requires
        a.is_prefix_of(b),
        b.is_prefix_of(c),
    ensures
        a.is_prefix_of(c),
{
    assert(a =~= c.subrange(0, a.len() as int)) by {
        assert forall|k: int| 0 <= k < a.len() implies a[k] == c[k] by {
            assert(a[k] == b.subrange(0, a.len() as int)[k]);
            assert(b[k] == c.subrange(0, b.len() as int)[k]);
        }
    }
}

pub(crate) proof fn lemma_goes_on_twice(a: Layers, b: Layers, c: Layers)
    requires
        goes_on_from(a, b),
        goes_on_from(b, c),
    ensures
        goes_on_from(a, c),
{
    lemma_prefixes(a.shading, b.shading, c.shading);
    lemma_prefixes(a.content, b.content, c.content);
    lemma_prefixes(a.borders, b.borders, c.borders);
}

pub(crate) proof fn lemma_goes_on_same(a: Layers)
    ensures
        goes_on_from(a, a),
{
    assert(a.shading =~= a.shading.subrange(0, a.shading.len() as int));
    assert(a.content =~= a.content.subrange(0, a.content.len() as int));
    assert(a.borders =~= a.borders.subrange(0, a.borders.len() as int));
}

proof fn lemma_cell_goes_on(l: Layers, d: RowDrawing<'_>, c: int)
    ensures
        goes_on_from(l, with_cell(l, d, c)),
{
    let next = with_cell(l, d, c);
    assert(l.shading =~= next.shading.subrange(0, l.shading.len() as int));
    assert(l.content =~= next.content.subrange(0, l.content.len() as int));
    assert(l.borders =~= next.borders.subrange(0, l.borders.len() as int));
}

pub(crate) proof fn lemma_cells_go_on(l: Layers, d: RowDrawing<'_>, c: int)
    ensures
        goes_on_from(l, with_cells(l, d, c)),
    decreases d.row.cells@.len() - c,
{
    if 0 <= c < d.row.cells@.len() {
        lemma_cell_goes_on(l, d, c);
        lemma_cells_go_on(with_cell(l, d, c), d, c + 1);
        lemma_goes_on_twice(l, with_cell(l, d, c), with_cells(l, d, c));
    } else {
        lemma_goes_on_same(l);
    }
}

pub(crate) proof fn lemma_rows_go_on(
    d: Drawing,
    measured: Seq<MeasuredRowView<'_>>,
    rows: Seq<TableRowInput>,
    i: int,
    start: int,
    end: int,
    restored: Option<TableBorderLine>,
)
    ensures
        goes_on_from(d.layers, with_rows(d, measured, rows, i, start, end, restored).layers),
    decreases end - i,
{
    if i < end {
        let one = row_drawing(measured, rows, i, start, end, d.y, restored);
        let next = Drawing {
            layers: with_cells(d.layers, one, 0),
            y: d.y.plus(measured[i].full_height()),
        };
        lemma_cells_go_on(d.layers, one, 0);
        lemma_rows_go_on(next, measured, rows, i + 1, start, end, restored);
        lemma_goes_on_twice(
            d.layers,
            next.layers,
            with_rows(d, measured, rows, i, start, end, restored).layers,
        );
    } else {
        lemma_goes_on_same(d.layers);
    }
}

/// What stands in a list stands in one that goes on from it.
pub(crate) proof fn lemma_stays(
    a: Seq<DrawCommand>,
    b: Seq<DrawCommand>,
    at: int,
    source: Seq<DrawCommand>,
    dx: int,
    dy: int,
)
    requires
        a.is_prefix_of(b),
        holds_moved(a, at, source, dx, dy),
    ensures
        holds_moved(b, at, source, dx, dy),
{
    assert forall|k: int| #![trigger source[k]] 0 <= k < source.len() implies b[at + k]
        == source[k].shifted(Pt { units: dx as i64 }, Pt { units: dy as i64 }) by {
        assert(a[at + k] == b.subrange(0, a.len() as int)[at + k]);
    }
}

/// One cell of a row that is drawn: where its shading and its content stand.
pub(crate) proof fn lemma_cell_stands(
    l: Layers,
    d: RowDrawing<'_>,
    c: int,
    height: int,
) -> (above: int)
    requires
        ({
            let own = d.measured.borders[c];
            let row_height = d.measured.height.units - d.measured.leading_gap.units;
            &&& is_length(row_height)
            &&& height == cell_height(
                d.scope,
                d.row.cells@[c],
                d.measured.entries[c].grid_col,
                Pt { units: row_height as i64 },
            ).units
            &&& has_place(
                d.measured.entries[c],
                d.row.cells@[c],
                border_width(own.left),
                border_width(shown_top(own.top, d.restored_top)),
                d.y.units + d.measured.leading_gap.units,
                height,
            )
        }),
    ensures
        ({
            let own = d.measured.borders[c];
            let next = with_cell(l, d, c);
            let cell = d.row.cells@[c];
            &&& content_stands(
                next.content,
                l.content.len() as int,
                d.measured.entries[c],
                cell,
                border_width(own.left),
                border_width(shown_top(own.top, d.restored_top)),
                d.y.units + d.measured.leading_gap.units,
                height,
                above,
            )
            &&& cell.shading is Some && !cell.continues_merge() ==> next.shading.len()
                == l.shading.len() + 1 && paints(
                next.shading[l.shading.len() as int],
                cell,
                d.measured.entries[c],
                d.y.units + d.measured.leading_gap.units,
                height,
            )
            &&& cell.shading is None ==> next.shading == l.shading
        }),
{
    let own = d.measured.borders[c];
    let entry = d.measured.entries[c];
    let cell = d.row.cells@[c];
    let top_border = border_width(shown_top(own.top, d.restored_top));
    let free = free_room(height, cell, entry.layout.content_height, top_border);
    let above = match cell.vertical_align {
        CellVAlign::Top => 0,
        CellVAlign::Center => if free / 2 > 0 {
            free / 2
        } else {
            0
        },
        CellVAlign::Bottom => if free > 0 {
            free
        } else {
            0
        },
    };
    let next = with_cell(l, d, c);
    let dx = entry.cell_x.units + inset(border_width(own.left), cell.margins.left);
    let dy = d.y.units + d.measured.leading_gap.units + inset(top_border, cell.margins.top) + above;
    let more = shift_all(
        entry.layout.commands,
        Pt { units: dx as i64 },
        Pt { units: dy as i64 },
    );
    assert(next.content =~= l.content + more);
    let source = entry.layout.commands;
    assert forall|k: int| #![trigger source[k]] 0 <= k < source.len() implies next.content[
    l.content.len() + k] == source[k].shifted(
        Pt { units: dx as i64 },
        Pt { units: dy as i64 },
    ) by {
        assert(next.content[l.content.len() + k] == more[k]);
    }
    above
}

/// The first row from `i` on that the merged region at `grid_col` does not run into.
pub open spec fn region_end(rows: Seq<TableRowInput>, i: int, end: int, grid_col: usize) -> int
    decreases rows.len() - i,
{
    if i < 0 || i >= rows.len() || i >= end || !merge_continues(rows[i], grid_col) {
        i
    } else {
        region_end(rows, i + 1, end, grid_col)
    }
}

/// The height of a region that takes the rows `r..e`, with the borders between them.
pub open spec fn region_height(measured: Seq<MeasuredRowView<'_>>, r: int, e: int) -> int
    decreases e - r,
{
    if e <= r + 1 {
        measured[r].height.units - measured[r].leading_gap.units
    } else {
        region_height(measured, r, e - 1) + measured[e - 2].border_gap_below.units
            + measured[e - 1].height.units
    }
}

/// The height of the box of a cell in row `r`: its row's, or that of the merged region that starts
/// with the cell, as far as the rows before `end`.
pub open spec fn box_height(
    measured: Seq<MeasuredRowView<'_>>,
    rows: Seq<TableRowInput>,
    r: int,
    c: int,
    end: int,
) -> int {
    region_height(
        measured,
        r,
        if rows[r].cells@[c].restarts_merge() {
            region_end(rows, r + 1, end, measured[r].entries[c].grid_col)
        } else {
            r + 1
        },
    )
}

/// Whether the heights of regions that start in row `r` are lengths.
pub open spec fn regions_have_heights(measured: Seq<MeasuredRowView<'_>>, r: int) -> bool {
    forall|e: int| #![trigger region_height(measured, r, e)]
        r < e <= measured.len() ==> is_length(region_height(measured, r, e)) && is_length(
            region_height(measured, r, e) + measured[e - 1].border_gap_below.units,
        )
}

proof fn lemma_region_height(scope: MergeScope<'_>, i: int, grid_col: usize)
    requires
        0 <= scope.row < i <= scope.rows.len() == scope.measured.len(),
        regions_have_heights(scope.measured, scope.row),
    ensures
        span_height_from(
            scope,
            i,
            grid_col,
            Pt { units: region_height(scope.measured, scope.row, i) as i64 },
        ).units == region_height(
            scope.measured,
            scope.row,
            region_end(scope.rows, i, scope.end, grid_col),
        ),
    decreases scope.rows.len() - i,
{
    let r = scope.row;
    assert(is_length(region_height(scope.measured, r, i)));
    if i < scope.rows.len() && i < scope.end && merge_continues(scope.rows[i], grid_col) {
        assert(is_length(region_height(scope.measured, r, i + 1)));
        lemma_region_height(scope, i + 1, grid_col);
    }
}

/// What the places of cell `c` of row `r` ask for, where the row is drawn at `y` with the rows before
/// `end`.
pub open spec fn cell_has_place(
    measured: Seq<MeasuredRowView<'_>>,
    rows: Seq<TableRowInput>,
    r: int,
    c: int,
    end: int,
    y: int,
    restored: Option<TableBorderLine>,
) -> bool {
    let own = measured[r].borders[c];
    &&& regions_have_heights(measured, r)
    &&& has_place(
        measured[r].entries[c],
        rows[r].cells@[c],
        border_width(own.left),
        border_width(shown_top(own.top, restored)),
        y + measured[r].leading_gap.units,
        box_height(measured, rows, r, c, end),
    )
}

/// Whether cell `c` of row `r` stands in its box, where the row is drawn at `y` with the rows before
/// `end`: its content from number `content` of the content on, its shading at number `shading`.
pub open spec fn cell_stands(
    layers: Layers,
    measured: Seq<MeasuredRowView<'_>>,
    rows: Seq<TableRowInput>,
    r: int,
    c: int,
    end: int,
    y: int,
    restored: Option<TableBorderLine>,
    shading: int,
    content: int,
    above: int,
) -> bool {
    let own = measured[r].borders[c];
    let cell = rows[r].cells@[c];
    let top = y + measured[r].leading_gap.units;
    let height = box_height(measured, rows, r, c, end);
    &&& content_stands(
        layers.content,
        content,
        measured[r].entries[c],
        cell,
        border_width(own.left),
        border_width(shown_top(own.top, restored)),
        top,
        height,
        above,
    )
    &&& cell.shading is Some && !cell.continues_merge() ==> 0 <= shading < layers.shading.len()
        && paints(layers.shading[shading], cell, measured[r].entries[c], top, height)
}

pub(crate) proof fn lemma_cell_stays(
    a: Layers,
    b: Layers,
    measured: Seq<MeasuredRowView<'_>>,
    rows: Seq<TableRowInput>,
    r: int,
    c: int,
    end: int,
    y: int,
    restored: Option<TableBorderLine>,
    shading: int,
    content: int,
    above: int,
)
    requires
        goes_on_from(a, b),
        cell_stands(a, measured, rows, r, c, end, y, restored, shading, content, above),
    ensures
        cell_stands(b, measured, rows, r, c, end, y, restored, shading, content, above),
{
    let own = measured[r].borders[c];
    let cell = rows[r].cells@[c];
    let entry = measured[r].entries[c];
    let top_border = border_width(shown_top(own.top, restored));
    lemma_stays(
        a.content,
        b.content,
        content,
        entry.layout.commands,
        entry.cell_x.units + inset(border_width(own.left), cell.margins.left),
        y + measured[r].leading_gap.units + inset(top_border, cell.margins.top) + above,
    );
    if 0 <= shading < a.shading.len() {
        assert(a.shading[shading] == b.shading.subrange(0, a.shading.len() as int)[shading]);
    }
}

/// Cell `c` of a row stands in its box after the cells from `i` on have been drawn.
proof fn lemma_cell_of_row_stands(
    l: Layers,
    measured: Seq<MeasuredRowView<'_>>,
    rows: Seq<TableRowInput>,
    r: int,
    start: int,
    end: int,
    y: Pt,
    restored: Option<TableBorderLine>,
    i: int,
    c: int,
) -> (at: (int, int, int))
    requires
        measured.len() == rows.len(),
        0 <= r < end <= rows.len(),
        0 <= i <= c < rows[r].cells@.len(),
        cell_has_place(
            measured,
            rows,
            r,
            c,
            end,
            y.units as int,
            if r == start {
                restored
            } else {
                None
            },
        ),
    ensures
        cell_stands(
            with_cells(l, row_drawing(measured, rows, r, start, end, y, restored), i),
            measured,
            rows,
            r,
            c,
            end,
            y.units as int,
            if r == start {
                restored
            } else {
                None
            },
            at.0,
            at.1,
            at.2,
        ),
    decreases c - i,
{
    let d = row_drawing(measured, rows, r, start, end, y, restored);
    if i < c {
        lemma_cell_of_row_stands(
            with_cell(l, d, i),
            measured,
            rows,
            r,
            start,
            end,
            y,
            restored,
            i + 1,
            c,
        )
    } else {
        let entry = measured[r].entries[c];
        let scope = d.scope->0;
        assert(is_length(region_height(measured, r, r + 1)));
        lemma_region_height(scope, r + 1, entry.grid_col);
        let height = box_height(measured, rows, r, c, end);
        let above = lemma_cell_stands(l, d, c, height);
        let next = with_cell(l, d, c);
        let at = (l.shading.len() as int, l.content.len() as int, above);
        let shown = if r == start {
            restored
        } else {
            None
        };
        assert(cell_stands(
            next,
            measured,
            rows,
            r,
            c,
            end,
            y.units as int,
            shown,
            at.0,
            at.1,
            at.2,
        ));
        lemma_cells_go_on(next, d, c + 1);
        lemma_cell_stays(
            next,
            with_cells(l, d, i),
            measured,
            rows,
            r,
            c,
            end,
            y.units as int,
            shown,
            at.0,
            at.1,
            at.2,
        );
        at
    }
}

/// Cell `c` of row `r` stands in its box after the rows `i..end` have been drawn one below another.
pub(crate) proof fn lemma_cell_of_rows_stands(
    d: Drawing,
    measured: Seq<MeasuredRowView<'_>>,
    rows: Seq<TableRowInput>,
    i: int,
    start: int,
    end: int,
    restored: Option<TableBorderLine>,
    r: int,
    c: int,
    top: int,
) -> (at: (int, int, int))
    requires
        measured.len() == rows.len(),
        0 <= start <= i <= r < end <= rows.len(),
        0 <= c < rows[r].cells@.len(),
        d.y.units == top + heights_sum(measured, start, i),
        rows_stand_at_lengths(measured, start, end, top),
        cell_has_place(
            measured,
            rows,
            r,
            c,
            end,
            top + heights_sum(measured, start, r),
            if r == start {
                restored
            } else {
                None
            },
        ),
    ensures
        cell_stands(
            with_rows(d, measured, rows, i, start, end, restored).layers,
            measured,
            rows,
            r,
            c,
            end,
            top + heights_sum(measured, start, r),
            if r == start {
                restored
            } else {
                None
            },
            at.0,
            at.1,
            at.2,
        ),
    decreases r - i,
{
    let one = row_drawing(measured, rows, i, start, end, d.y, restored);
    let next = Drawing {
        layers: with_cells(d.layers, one, 0),
        y: d.y.plus(measured[i].full_height()),
    };
    if i < r {
        lemma_next_row(measured, start, i);
        assert(is_length(top + heights_sum(measured, start, i + 1)));
        lemma_cell_of_rows_stands(
            next,
            measured,
            rows,
            i + 1,
            start,
            end,
            restored,
            r,
            c,
            top,
        )
    } else {
        let at = lemma_cell_of_row_stands(
            d.layers,
            measured,
            rows,
            r,
            start,
            end,
            d.y,
            restored,
            0,
            c,
        );
        lemma_rows_go_on(next, measured, rows, r + 1, start, end, restored);
        lemma_cell_stays(
            next.layers,
            with_rows(d, measured, rows, i, start, end, restored).layers,
            measured,
            rows,
            r,
            c,
            end,
            top + heights_sum(measured, start, r),
            if r == start {
                restored
            } else {
                None
            },
            at.0,
            at.1,
            at.2,
        );
        at
    }
}

/// Whether the rows `start..end` stand at lengths where the first one stands at `top`.
pub open spec fn rows_stand_at_lengths(
    measured: Seq<MeasuredRowView<'_>>,
    start: int,
    end: int,
    top: int,
) -> bool {
    forall|r: int| #![trigger heights_sum(measured, start, r)]
        start <= r <= end ==> is_length(top + heights_sum(measured, start, r))
}

pub(crate) proof fn lemma_next_row(measured: Seq<MeasuredRowView<'_>>, a: int, b: int)
    requires
        a <= b,
    ensures
        heights_sum(measured, a, b + 1) == heights_sum(measured, a, b)
            + measured[b].full_height().units,
    decreases b - a,
{
    if a < b {
        lemma_next_row(measured, a + 1, b);
    } else {
        assert(heights_sum(measured, b + 1, b + 1) == 0);
    }
}

/// What stands in a layer stands in the layers as one list.
pub(crate) proof fn lemma_flattened(
    layers: Layers,
    content: int,
    source: Seq<DrawCommand>,
    dx: int,
    dy: int,
)
    requires
        holds_moved(layers.content, content, source, dx, dy),
    ensures
        holds_moved(layers.flattened(), layers.shading.len() + content, source, dx, dy),
{
    let all = layers.flattened();
    let at = layers.shading.len() + content;
    assert forall|k: int| #![trigger source[k]] 0 <= k < source.len() implies all[at + k]
        == source[k].shifted(Pt { units: dx as i64 }, Pt { units: dy as i64 }) by {
        assert(all[at + k] == layers.content[content + k]);
    }
}

/// Each cell of a table that is laid out as a whole stands in its box: that of its row, which starts
/// where the rows above it end, or that of the merged region that starts with the cell. Its content
/// is drawn within the box and its margins, and aligned as the cell asks: at the top, at the bottom
/// or in the middle, where the free room above it and that below it differ by one unit at most. The
/// shading of the cell fills the box.
pub proof fn law_cells_stand_in_their_boxes(
    rows: Seq<TableRowInput>,
    format: TableFormat,
    r: int,
    c: int,
) -> (at: (int, int, int))
    requires
        format.col_widths.len() > 0,
        0 <= r < rows.len(),
        0 <= c < rows[r].cells@.len(),
        heights_add_up(measured_table(rows, format).rows),
        cell_has_place(
            measured_table(rows, format).rows,
            rows,
            r,
            c,
            rows.len() as int,
            heights_sum(measured_table(rows, format).rows, 0, r),
            None,
        ),
    ensures
        ({
            let commands = table_layout(rows, format).commands;
            let measured = measured_table(rows, format).rows;
            let entry = measured[r].entries[c];
            let own = measured[r].borders[c];
            let cell = rows[r].cells@[c];
            let top = heights_sum(measured, 0, r) + measured[r].leading_gap.units;
            let height = box_height(measured, rows, r, c, rows.len() as int);
            &&& content_stands(
                commands,
                at.1,
                entry,
                cell,
                border_width(own.left),
                border_width(own.top),
                top,
                height,
                at.2,
            )
            &&& cell.shading is Some && !cell.continues_merge() ==> 0 <= at.0 < commands.len()
                && paints(commands[at.0], cell, entry, top, height)
        }),
{
    lemma_table_layout(rows, format);
    lemma_measured_table(rows, format);
    let measured = measured_table(rows, format).rows;
    let n = rows.len() as int;
    let d = Drawing { layers: Layers::empty(), y: Pt::zero() };
    assert(heights_sum(measured, 0, 0) == 0);
    assert forall|b: int| #![trigger heights_sum(measured, 0, b)] 0 <= b <= n implies is_length(
        0 + heights_sum(measured, 0, b),
    ) by {}
    let at = lemma_cell_of_rows_stands(d, measured, rows, 0, 0, n, None, r, c, 0);
    let layers = with_rows(d, measured, rows, 0, 0, n, None).layers;
    let own = measured[r].borders[c];
    let cell = rows[r].cells@[c];
    let entry = measured[r].entries[c];
    assert(border_width(shown_top(own.top, None)) == border_width(own.top));
    lemma_flattened(
        layers,
        at.1,
        entry.layout.commands,
        entry.cell_x.units + inset(border_width(own.left), cell.margins.left),
        heights_sum(measured, 0, r) + measured[r].leading_gap.units + inset(
            border_width(own.top),
            cell.margins.top,
        ) + at.2,
    );
    (at.0, layers.shading.len() + at.1, at.2)
}

} // verus!
