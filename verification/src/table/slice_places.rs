//! Where the rows of a table stand on the pages that it is divided between.
use crate::block::TableBorderLine;
use crate::dimension::Pt;
use crate::note_laws::is_length;
use crate::table::borders::border_width;
use crate::table::emit::{
    lemma_drawn_height, shown_top, with_cell, with_cells, Drawing, Layers, RowDrawing,
};
use crate::table::fits::heights_sum;
use crate::table::layout::{drawn_item, drawn_items, drawn_slice, SliceDrawing};
use crate::table::paginate::{ItemView, Paging};
use crate::table::places::{
    box_height, cell_has_place, content_stands, goes_on_from, has_place, inset,
    lemma_cell_of_rows_stands, lemma_cell_stands, lemma_cells_go_on, lemma_flattened,
    lemma_goes_on_same, lemma_goes_on_twice, lemma_rows_go_on, lemma_stays, paints,
    rows_stand_at_lengths,
};
use crate::table::types::{rows_height, MeasuredRowView};
use vstd::prelude::*;

verus! {

/// The height that an item takes on its page.
pub open spec fn item_height(p: Paging<'_, '_>, item: ItemView<'_>) -> int {
    match item {
        ItemView::Range { start, end } => heights_sum(p.measured, start, end),
        ItemView::Header => heights_sum(p.measured, 0, p.header_count),
        ItemView::Split { part, .. } => part.height.units + part.border_gap_below.units,
        ItemView::Continuation { part, .. } => part.height.units + part.border_gap_below.units,
    }
}

/// The height that the first `n` items take together.
pub open spec fn items_height(p: Paging<'_, '_>, items: Seq<ItemView<'_>>, n: int) -> int
    decreases n,
{
    if n <= 0 {
        0
    } else {
        items_height(p, items, n - 1) + item_height(p, items[n - 1])
    }
}

/// Whether an item has rows that the table has, and stands at lengths where it starts at `top`.
pub open spec fn item_has_place(p: Paging<'_, '_>, item: ItemView<'_>, top: int) -> bool {
    match item {
        ItemView::Range { start, end } => 0 <= start <= end <= p.rows.len()
            && rows_stand_at_lengths(p.measured, start, end, top),
        ItemView::Header => 0 <= p.header_count <= p.rows.len() && rows_stand_at_lengths(
            p.measured,
            0,
            p.header_count,
            top,
        ),
        ItemView::Split { part, .. } => is_length(
            part.height.units + part.border_gap_below.units,
        ) && is_length(top + part.height.units + part.border_gap_below.units),
        ItemView::Continuation { part, .. } => is_length(
            part.height.units + part.border_gap_below.units,
        ) && is_length(top + part.height.units + part.border_gap_below.units),
    }
}

/// Whether all items of a part stand at lengths.
pub open spec fn items_have_places(p: Paging<'_, '_>, items: Seq<ItemView<'_>>) -> bool {
    forall|i: int| #![trigger items[i]]
        0 <= i < items.len() ==> item_has_place(p, items[i], items_height(p, items, i))
}

/// The border that is shown at the top of item `i` of a part, where its own edge says nothing: that
/// of the table where the part goes on with it on a new page.
pub open spec fn shown_at_top(
    outer: Option<TableBorderLine>,
    slice: int,
    i: int,
) -> Option<TableBorderLine> {
    if slice > 0 && i == 0 {
        outer
    } else {
        None
    }
}

proof fn lemma_exact_rows(
    measured: Seq<MeasuredRowView<'_>>,
    start: int,
    i: int,
    end: int,
    top: int,
    acc: Pt,
)
    requires
        0 <= start <= i <= end,
        rows_stand_at_lengths(measured, start, end, top),
        acc.units == top + heights_sum(measured, start, i),
    ensures
        rows_height(measured, i, end, acc).units == top + heights_sum(measured, start, end),
    decreases end - i,
{
    if i < end {
        crate::table::places::lemma_next_row(measured, start, i);
        assert(is_length(top + heights_sum(measured, start, i + 1)));
        lemma_exact_rows(
            measured,
            start,
            i + 1,
            end,
            top,
            acc.plus(measured[i].full_height()),
        );
    }
}

/// An item adds to the layers, and ends where the next one starts.
proof fn lemma_item<'a>(
    d: SliceDrawing<'a>,
    p: Paging<'a, '_>,
    outer: Option<TableBorderLine>,
    items: Seq<ItemView<'a>>,
    slice: int,
    i: int,
)
    requires
        0 <= i < items.len(),
        d.drawing.y.units == items_height(p, items, i),
        items_have_places(p, items),
    ensures
        ({
            let next = drawn_item(d, p, outer, items, slice, i);
            &&& goes_on_from(d.drawing.layers, next.drawing.layers)
            &&& next.drawing.y.units == items_height(p, items, i + 1)
        }),
{
    let top = items_height(p, items, i);
    assert(item_has_place(p, items[i], top));
    let shown = shown_at_top(outer, slice, i);
    match items[i] {
        ItemView::Range { start, end } => {
            lemma_rows_go_on(d.drawing, p.measured, p.rows, start, start, end, shown);
            lemma_drawn_height(d.drawing, p.measured, p.rows, start, start, end, shown);
            assert(heights_sum(p.measured, start, start) == 0);
            lemma_exact_rows(p.measured, start, start, end, top, d.drawing.y);
        },
        ItemView::Header => {
            lemma_rows_go_on(d.drawing, p.measured, p.rows, 0, 0, p.header_count, shown);
            lemma_drawn_height(d.drawing, p.measured, p.rows, 0, 0, p.header_count, shown);
            assert(heights_sum(p.measured, 0, 0) == 0);
            lemma_exact_rows(p.measured, 0, 0, p.header_count, top, d.drawing.y);
        },
        ItemView::Split { row, part } => {
            lemma_cells_go_on(
                d.drawing.layers,
                part_drawing(p, items, outer, slice, i, d.drawing.y, row, part),
                0,
            );
        },
        ItemView::Continuation { row, part } => {
            lemma_cells_go_on(
                d.drawing.layers,
                part_drawing(p, items, outer, slice, i, d.drawing.y, row, part),
                0,
            );
        },
    }
}

spec fn part_drawing<'a>(
    p: Paging<'a, '_>,
    items: Seq<ItemView<'a>>,
    outer: Option<TableBorderLine>,
    slice: int,
    i: int,
    y: Pt,
    row: int,
    part: MeasuredRowView<'a>,
) -> RowDrawing<'a> {
    RowDrawing {
        measured: part,
        row: p.rows[row],
        y,
        restored_top: shown_at_top(outer, slice, i),
        gap_below: i + 1 < items.len(),
        scope: None,
    }
}

/// The items from `i` on add to the layers, and end below the last one.
proof fn lemma_items<'a>(
    d: SliceDrawing<'a>,
    p: Paging<'a, '_>,
    outer: Option<TableBorderLine>,
    items: Seq<ItemView<'a>>,
    slice: int,
    i: int,
)
    requires
        0 <= i <= items.len(),
        d.drawing.y.units == items_height(p, items, i),
        items_have_places(p, items),
    ensures
        ({
            let all = drawn_items(d, p, outer, items, slice, i);
            &&& goes_on_from(d.drawing.layers, all.drawing.layers)
            &&& all.drawing.y.units == items_height(p, items, items.len() as int)
        }),
    decreases items.len() - i,
{
    if i < items.len() {
        let next = drawn_item(d, p, outer, items, slice, i);
        lemma_item(d, p, outer, items, slice, i);
        lemma_items(next, p, outer, items, slice, i + 1);
        lemma_goes_on_twice(
            d.drawing.layers,
            next.drawing.layers,
            drawn_items(d, p, outer, items, slice, i).drawing.layers,
        );
    } else {
        lemma_goes_on_same(d.drawing.layers);
    }
}

/// The drawing of a part before item `k`, from item `i` on.
spec fn before_item<'a>(
    d: SliceDrawing<'a>,
    p: Paging<'a, '_>,
    outer: Option<TableBorderLine>,
    items: Seq<ItemView<'a>>,
    slice: int,
    i: int,
    k: int,
) -> SliceDrawing<'a>
    decreases k - i,
{
    if i >= k {
        d
    } else {
        before_item(drawn_item(d, p, outer, items, slice, i), p, outer, items, slice, i + 1, k)
    }
}

proof fn lemma_before_item<'a>(
    d: SliceDrawing<'a>,
    p: Paging<'a, '_>,
    outer: Option<TableBorderLine>,
    items: Seq<ItemView<'a>>,
    slice: int,
    i: int,
    k: int,
)
    requires
        0 <= i <= k < items.len(),
        d.drawing.y.units == items_height(p, items, i),
        items_have_places(p, items),
    ensures
        ({
            let at = before_item(d, p, outer, items, slice, i, k);
            let next = drawn_item(at, p, outer, items, slice, k);
            &&& at.drawing.y.units == items_height(p, items, k)
            &&& goes_on_from(
                next.drawing.layers,
                drawn_items(d, p, outer, items, slice, i).drawing.layers,
            )
        }),
    decreases k - i,
{
    lemma_item(d, p, outer, items, slice, i);
    let next = drawn_item(d, p, outer, items, slice, i);
    if i < k {
        lemma_before_item(next, p, outer, items, slice, i + 1, k);
    } else {
        lemma_items(next, p, outer, items, slice, k + 1);
    }
}

/// The height of a part of a divided table is that of the rows on it, one below another, and of one
/// more cell spacing below its last rows.
pub proof fn law_a_part_is_as_high_as_its_rows<'a>(
    p: Paging<'a, '_>,
    outer: Option<TableBorderLine>,
    slices: Seq<Seq<ItemView<'a>>>,
    slice: int,
    table_width: Pt,
    cell_spacing: Pt,
)
    requires
        0 <= slice < slices.len(),
        items_have_places(p, slices[slice]),
        is_length(
            items_height(p, slices[slice], slices[slice].len() as int) + cell_spacing.units,
        ),
    ensures
        ({
            let size = drawn_slice(p, outer, slices, slice, table_width, cell_spacing).size;
            &&& size.width == table_width
            &&& size.height.units == items_height(p, slices[slice], slices[slice].len() as int)
                + if slice == slices.len() - 1 {
                cell_spacing.units as int
            } else {
                0
            }
        }),
{
    let d = SliceDrawing {
        drawing: Drawing { layers: Layers::empty(), y: Pt::zero() },
        footnotes: Seq::empty(),
    };
    lemma_items(d, p, outer, slices[slice], slice, 0);
}

/// Each cell of the rows `start..end` stands in its box on the page that the rows stand on: below the
/// items before them on the page and the rows before its own.
pub proof fn law_rows_stand_below_one_another<'a>(
    p: Paging<'a, '_>,
    outer: Option<TableBorderLine>,
    slices: Seq<Seq<ItemView<'a>>>,
    slice: int,
    table_width: Pt,
    cell_spacing: Pt,
    i: int,
    r: int,
    c: int,
) -> (at: (int, int, int))
    requires
        p.rows.len() == p.measured.len(),
        0 <= slice < slices.len(),
        0 <= i < slices[slice].len(),
        items_have_places(p, slices[slice]),
        slices[slice][i] is Range || slices[slice][i] is Header,
        ({
            let (start, end) = item_rows(p, slices[slice][i]);
            &&& start <= r < end
            &&& 0 <= c < p.rows[r].cells@.len()
            &&& cell_has_place(
                p.measured,
                p.rows,
                r,
                c,
                end,
                items_height(p, slices[slice], i) + heights_sum(p.measured, start, r),
                if r == start {
                    shown_at_top(outer, slice, i)
                } else {
                    None
                },
            )
        }),
    ensures
        ({
            let commands = drawn_slice(
                p,
                outer,
                slices,
                slice,
                table_width,
                cell_spacing,
            ).commands;
            let (start, end) = item_rows(p, slices[slice][i]);
            let own = p.measured[r].borders[c];
            let entry = p.measured[r].entries[c];
            let cell = p.rows[r].cells@[c];
            let top = items_height(p, slices[slice], i) + heights_sum(p.measured, start, r)
                + p.measured[r].leading_gap.units;
            let height = box_height(p.measured, p.rows, r, c, end);
            let shown = if r == start {
                shown_at_top(outer, slice, i)
            } else {
                None
            };
            &&& content_stands(
                commands,
                at.1,
                entry,
                cell,
                border_width(own.left),
                border_width(shown_top(own.top, shown)),
                top,
                height,
                at.2,
            )
            &&& cell.shading is Some && !cell.continues_merge() ==> 0 <= at.0 < commands.len()
                && paints(commands[at.0], cell, entry, top, height)
        }),
{
    let items = slices[slice];
    let d = SliceDrawing {
        drawing: Drawing { layers: Layers::empty(), y: Pt::zero() },
        footnotes: Seq::empty(),
    };
    lemma_before_item(d, p, outer, items, slice, 0, i);
    let before = before_item(d, p, outer, items, slice, 0, i);
    let (start, end) = item_rows(p, items[i]);
    let top = items_height(p, items, i);
    let shown = shown_at_top(outer, slice, i);
    assert(item_has_place(p, items[i], top));
    assert(heights_sum(p.measured, start, start) == 0);
    let at = lemma_cell_of_rows_stands(
        before.drawing,
        p.measured,
        p.rows,
        start,
        start,
        end,
        shown,
        r,
        c,
        top,
    );
    let here = drawn_item(before, p, outer, items, slice, i).drawing.layers;
    let layers = drawn_items(d, p, outer, items, slice, 0).drawing.layers;
    let own_shown = if r == start {
        shown
    } else {
        None
    };
    crate::table::places::lemma_cell_stays(
        here,
        layers,
        p.measured,
        p.rows,
        r,
        c,
        end,
        top + heights_sum(p.measured, start, r),
        own_shown,
        at.0,
        at.1,
        at.2,
    );
    let own = p.measured[r].borders[c];
    let entry = p.measured[r].entries[c];
    let cell = p.rows[r].cells@[c];
    lemma_flattened(
        layers,
        at.1,
        entry.layout.commands,
        entry.cell_x.units + inset(border_width(own.left), cell.margins.left),
        top + heights_sum(p.measured, start, r) + p.measured[r].leading_gap.units + inset(
            border_width(shown_top(own.top, own_shown)),
            cell.margins.top,
        ) + at.2,
    );
    (at.0, layers.shading.len() + at.1, at.2)
}

/// The rows of an item that is made of whole rows.
pub open spec fn item_rows(p: Paging<'_, '_>, item: ItemView<'_>) -> (int, int) {
    match item {
        ItemView::Range { start, end } => (start, end),
        _ => (0, p.header_count),
    }
}

/// The row that an item is a part of, and that part.
pub open spec fn item_part<'a>(item: ItemView<'a>) -> (int, MeasuredRowView<'a>) {
    match item {
        ItemView::Split { row, part } => (row, part),
        ItemView::Continuation { row, part } => (row, part),
        _ => arbitrary(),
    }
}

proof fn lemma_cell_of_part<'a>(l: Layers, d: RowDrawing<'a>, i: int, c: int) -> (at: (
    int,
    int,
    int,
))
    requires
        d.scope is None,
        0 <= i <= c < d.row.cells@.len(),
        is_length(d.measured.height.units - d.measured.leading_gap.units),
        has_place(
            d.measured.entries[c],
            d.row.cells@[c],
            border_width(d.measured.borders[c].left),
            border_width(shown_top(d.measured.borders[c].top, d.restored_top)),
            d.y.units + d.measured.leading_gap.units,
            d.measured.height.units - d.measured.leading_gap.units,
        ),
    ensures
        part_cell_stands(with_cells(l, d, i), d, c, at),
    decreases c - i,
{
    if i < c {
        lemma_cell_of_part(with_cell(l, d, i), d, i + 1, c)
    } else {
        let height = d.measured.height.units - d.measured.leading_gap.units;
        let above = lemma_cell_stands(l, d, c, height);
        let at = (l.shading.len() as int, l.content.len() as int, above);
        let next = with_cell(l, d, c);
        assert(part_cell_stands(next, d, c, at));
        lemma_cells_go_on(next, d, c + 1);
        lemma_part_stays(next, with_cells(l, d, i), d, c, at);
        at
    }
}

spec fn part_cell_stands(l: Layers, d: RowDrawing<'_>, c: int, at: (int, int, int)) -> bool {
    let own = d.measured.borders[c];
    let cell = d.row.cells@[c];
    let top = d.y.units + d.measured.leading_gap.units;
    let height = d.measured.height.units - d.measured.leading_gap.units;
    &&& content_stands(
        l.content,
        at.1,
        d.measured.entries[c],
        cell,
        border_width(own.left),
        border_width(shown_top(own.top, d.restored_top)),
        top,
        height,
        at.2,
    )
    &&& cell.shading is Some && !cell.continues_merge() ==> 0 <= at.0 < l.shading.len() && paints(
        l.shading[at.0],
        cell,
        d.measured.entries[c],
        top,
        height,
    )
}

proof fn lemma_part_stays(a: Layers, b: Layers, d: RowDrawing<'_>, c: int, at: (int, int, int))
    requires
        goes_on_from(a, b),
        part_cell_stands(a, d, c, at),
    ensures
        part_cell_stands(b, d, c, at),
{
    let own = d.measured.borders[c];
    let cell = d.row.cells@[c];
    let entry = d.measured.entries[c];
    lemma_stays(
        a.content,
        b.content,
        at.1,
        entry.layout.commands,
        entry.cell_x.units + inset(border_width(own.left), cell.margins.left),
        d.y.units + d.measured.leading_gap.units + inset(
            border_width(shown_top(own.top, d.restored_top)),
            cell.margins.top,
        ) + at.2,
    );
    if 0 <= at.0 < a.shading.len() {
        assert(a.shading[at.0] == b.shading.subrange(0, a.shading.len() as int)[at.0]);
    }
}

/// Each cell of a part of a divided row stands in the box of that part on its page, below the items
/// before it: so what is left of the content is drawn within the part, aligned as the cell asks.
pub proof fn law_parts_of_rows_stand_below_other_rows<'a>(
    p: Paging<'a, '_>,
    outer: Option<TableBorderLine>,
    slices: Seq<Seq<ItemView<'a>>>,
    slice: int,
    table_width: Pt,
    cell_spacing: Pt,
    i: int,
    c: int,
) -> (at: (int, int, int))
    requires
        0 <= slice < slices.len(),
        0 <= i < slices[slice].len(),
        items_have_places(p, slices[slice]),
        slices[slice][i] is Split || slices[slice][i] is Continuation,
        ({
            let (row, part) = item_part(slices[slice][i]);
            &&& 0 <= c < p.rows[row].cells@.len()
            &&& is_length(part.height.units - part.leading_gap.units)
            &&& has_place(
                part.entries[c],
                p.rows[row].cells@[c],
                border_width(part.borders[c].left),
                border_width(shown_top(part.borders[c].top, shown_at_top(outer, slice, i))),
                items_height(p, slices[slice], i) + part.leading_gap.units,
                part.height.units - part.leading_gap.units,
            )
        }),
    ensures
        ({
            let commands = drawn_slice(
                p,
                outer,
                slices,
                slice,
                table_width,
                cell_spacing,
            ).commands;
            let (row, part) = item_part(slices[slice][i]);
            let cell = p.rows[row].cells@[c];
            let top = items_height(p, slices[slice], i) + part.leading_gap.units;
            let height = part.height.units - part.leading_gap.units;
            &&& content_stands(
                commands,
                at.1,
                part.entries[c],
                cell,
                border_width(part.borders[c].left),
                border_width(shown_top(part.borders[c].top, shown_at_top(outer, slice, i))),
                top,
                height,
                at.2,
            )
            &&& cell.shading is Some && !cell.continues_merge() ==> 0 <= at.0 < commands.len()
                && paints(commands[at.0], cell, part.entries[c], top, height)
        }),
{
    let items = slices[slice];
    let start = SliceDrawing {
        drawing: Drawing { layers: Layers::empty(), y: Pt::zero() },
        footnotes: Seq::empty(),
    };
    lemma_before_item(start, p, outer, items, slice, 0, i);
    let before = before_item(start, p, outer, items, slice, 0, i);
    let (row, part) = item_part(items[i]);
    let d = part_drawing(p, items, outer, slice, i, before.drawing.y, row, part);
    let at = lemma_cell_of_part(before.drawing.layers, d, 0, c);
    let here = drawn_item(before, p, outer, items, slice, i).drawing.layers;
    let layers = drawn_items(start, p, outer, items, slice, 0).drawing.layers;
    lemma_part_stays(here, layers, d, c, at);
    let cell = p.rows[row].cells@[c];
    lemma_flattened(
        layers,
        at.1,
        part.entries[c].layout.commands,
        part.entries[c].cell_x.units + inset(border_width(part.borders[c].left), cell.margins.left),
        items_height(p, items, i) + part.leading_gap.units + inset(
            border_width(shown_top(part.borders[c].top, shown_at_top(outer, slice, i))),
            cell.margins.top,
        ) + at.2,
    );
    (at.0, layers.shading.len() + at.1, at.2)
}

} // verus!
