//! Where the borders of a table's cells stand.
use crate::block::{TableBorderLine, TableRowInput};
use crate::dimension::Pt;
use crate::draw_command::DrawCommand;
use crate::note_laws::is_length;
use crate::table::borders::{border_width, cell_border_commands, CellBorders};
use crate::table::emit::{row_drawing, shown_top, with_cell, with_cells, with_rows, Drawing, Layers};
use crate::table::fits::{heights_add_up, heights_sum};
use crate::table::grid::merge_continues;
use crate::table::measure::{
    lemma_measured_table, lemma_table_layout, measured_table, table_layout, TableFormat,
};
use crate::table::places::{
    goes_on_from, lemma_cells_go_on, lemma_next_row, lemma_rows_go_on, rows_stand_at_lengths,
};
use crate::table::types::MeasuredRowView;
use vstd::prelude::*;

verus! {

/// The height of the borders of cell `c` of row `r`: its row's height, and the room below the row for
/// a bottom border, where there is a row below. Within a merged region that goes on below, the
/// borders reach through the whole room.
pub open spec fn border_height(
    measured: Seq<MeasuredRowView<'_>>,
    rows: Seq<TableRowInput>,
    r: int,
    c: int,
    end: int,
) -> int {
    let row = measured[r];
    row.height.units - row.leading_gap.units + if r + 1 >= measured.len() {
        0
    } else if r + 1 < rows.len() && r + 1 < end && merge_continues(
        rows[r + 1],
        row.entries[c].grid_col,
    ) {
        row.border_gap_below.units as int
    } else {
        border_width(row.borders[c].bottom).units as int
    }
}

/// The borders of cell `c` of row `r`, where the row stands at `y` with the rows before `end`.
pub open spec fn own_borders(
    measured: Seq<MeasuredRowView<'_>>,
    rows: Seq<TableRowInput>,
    r: int,
    c: int,
    end: int,
    y: int,
    restored: Option<TableBorderLine>,
) -> Seq<DrawCommand> {
    let row = measured[r];
    cell_border_commands(
        CellBorders { top: shown_top(row.borders[c].top, restored), ..row.borders[c] },
        row.entries[c].cell_x,
        row.entries[c].cell_w,
        Pt { units: (y + row.leading_gap.units) as i64 },
        Pt { units: border_height(measured, rows, r, c, end) as i64 },
    )
}

/// Whether the borders of cell `c` of row `r` stand at lengths.
pub open spec fn borders_have_places(
    measured: Seq<MeasuredRowView<'_>>,
    rows: Seq<TableRowInput>,
    r: int,
    c: int,
    end: int,
    y: int,
) -> bool {
    &&& is_length(y + measured[r].leading_gap.units)
    &&& is_length(measured[r].height.units - measured[r].leading_gap.units)
    &&& is_length(border_height(measured, rows, r, c, end))
}

/// Whether `part` stands in a list from number `at` on.
pub open spec fn holds_part(commands: Seq<DrawCommand>, at: int, part: Seq<DrawCommand>) -> bool {
    &&& 0 <= at
    &&& at + part.len() <= commands.len()
    &&& forall|k: int| #![trigger part[k]] 0 <= k < part.len() ==> commands[at + k] == part[k]
}

proof fn lemma_part_stays(a: Layers, b: Layers, at: int, part: Seq<DrawCommand>)
    requires
        goes_on_from(a, b),
        holds_part(a.borders, at, part),
    ensures
        holds_part(b.borders, at, part),
{
    assert forall|k: int| #![trigger part[k]] 0 <= k < part.len() implies b.borders[at + k]
        == part[k] by {
        assert(a.borders[at + k] == b.borders.subrange(0, a.borders.len() as int)[at + k]);
    }
}

proof fn lemma_borders_of_row(
    l: Layers,
    measured: Seq<MeasuredRowView<'_>>,
    rows: Seq<TableRowInput>,
    r: int,
    start: int,
    end: int,
    y: Pt,
    restored: Option<TableBorderLine>,
    i: int,
    c: int,
) -> (at: int)
    requires
        measured.len() == rows.len(),
        0 <= r < end <= rows.len(),
        0 <= i <= c < rows[r].cells@.len(),
        borders_have_places(measured, rows, r, c, end, y.units as int),
    ensures
        holds_part(
            with_cells(l, row_drawing(measured, rows, r, start, end, y, restored), i).borders,
            at,
            own_borders(
                measured,
                rows,
                r,
                c,
                end,
                y.units as int,
                if r == start {
                    restored
                } else {
                    None
                },
            ),
        ),
    decreases c - i,
{
    let d = row_drawing(measured, rows, r, start, end, y, restored);
    if i < c {
        lemma_borders_of_row(
            with_cell(l, d, i),
            measured,
            rows,
            r,
            start,
            end,
            y,
            restored,
            i + 1,
            c,
        )
    } else {
        let shown = if r == start {
            restored
        } else {
            None
        };
        let part = own_borders(measured, rows, r, c, end, y.units as int, shown);
        let next = with_cell(l, d, c);
        let at = l.borders.len() as int;
        assert(next.borders == l.borders + part);
        lemma_cells_go_on(next, d, c + 1);
        lemma_part_stays(next, with_cells(l, d, i), at, part);
        at
    }
}

proof fn lemma_borders_of_rows(
    d: Drawing,
    measured: Seq<MeasuredRowView<'_>>,
    rows: Seq<TableRowInput>,
    i: int,
    start: int,
    end: int,
    restored: Option<TableBorderLine>,
    r: int,
    c: int,
    top: int,
) -> (at: int)
    requires
        measured.len() == rows.len(),
        0 <= start <= i <= r < end <= rows.len(),
        0 <= c < rows[r].cells@.len(),
        d.y.units == top + heights_sum(measured, start, i),
        rows_stand_at_lengths(measured, start, end, top),
        borders_have_places(measured, rows, r, c, end, top + heights_sum(measured, start, r)),
    ensures
        holds_part(
            with_rows(d, measured, rows, i, start, end, restored).layers.borders,
            at,
            own_borders(
                measured,
                rows,
                r,
                c,
                end,
                top + heights_sum(measured, start, r),
                if r == start {
                    restored
                } else {
                    None
                },
            ),
        ),
    decreases r - i,
{
    let one = row_drawing(measured, rows, i, start, end, d.y, restored);
    let next = Drawing {
        layers: with_cells(d.layers, one, 0),
        y: d.y.plus(measured[i].full_height()),
    };
    if i < r {
        lemma_next_row(measured, start, i);
        assert(is_length(top + heights_sum(measured, start, i + 1)));
        lemma_borders_of_rows(next, measured, rows, i + 1, start, end, restored, r, c, top)
    } else {
        let shown = if r == start {
            restored
        } else {
            None
        };
        let at = lemma_borders_of_row(
            d.layers,
            measured,
            rows,
            r,
            start,
            end,
            d.y,
            restored,
            0,
            c,
        );
        lemma_rows_go_on(next, measured, rows, r + 1, start, end, restored);
        lemma_part_stays(
            next.layers,
            with_rows(d, measured, rows, i, start, end, restored).layers,
            at,
            own_borders(measured, rows, r, c, end, d.y.units as int, shown),
        );
        at
    }
}

/// The borders of each cell of a table that is laid out as a whole run around the cell's place in its
/// row: from where the rows above end, over the height of the row and the room for the border below
/// it.
pub proof fn law_borders_run_around_their_cells(
    rows: Seq<TableRowInput>,
    format: TableFormat,
    r: int,
    c: int,
) -> (at: int)
    requires
        format.col_widths.len() > 0,
        0 <= r < rows.len(),
        0 <= c < rows[r].cells@.len(),
        heights_add_up(measured_table(rows, format).rows),
        borders_have_places(
            measured_table(rows, format).rows,
            rows,
            r,
            c,
            rows.len() as int,
            heights_sum(measured_table(rows, format).rows, 0, r),
        ),
    ensures
        ({
            let measured = measured_table(rows, format).rows;
            holds_part(
                table_layout(rows, format).commands,
                at,
                cell_border_commands(
                    measured[r].borders[c],
                    measured[r].entries[c].cell_x,
                    measured[r].entries[c].cell_w,
                    Pt {
                        units: (heights_sum(measured, 0, r) + measured[r].leading_gap.units) as i64,
                    },
                    Pt {
                        units: border_height(measured, rows, r, c, rows.len() as int) as i64,
                    },
                ),
            )
        }),
{
    lemma_table_layout(rows, format);
    lemma_measured_table(rows, format);
    let measured = measured_table(rows, format).rows;
    let n = rows.len() as int;
    let d = Drawing { layers: Layers::empty(), y: Pt::zero() };
    assert(heights_sum(measured, 0, 0) == 0);
    assert forall|b: int| #![trigger heights_sum(measured, 0, b)] 0 <= b <= n implies is_length(
        0 + heights_sum(measured, 0, b),
    ) by {}
    let at = lemma_borders_of_rows(d, measured, rows, 0, 0, n, None, r, c, 0);
    let layers = with_rows(d, measured, rows, 0, 0, n, None).layers;
    let own = measured[r].borders[c];
    assert(CellBorders { top: shown_top(own.top, None), ..own } == own);
    let part = own_borders(measured, rows, r, c, n, heights_sum(measured, 0, r), None);
    let all = layers.flattened();
    let from = layers.shading.len() + layers.content.len() + at;
    assert forall|k: int| #![trigger part[k]] 0 <= k < part.len() implies all[from + k]
        == part[k] by {
        assert(all[from + k] == layers.borders[at + k]);
    }
    from
}

} // verus!
