//! Where the content and the borders of cells stand, and how high rows are.
use crate::block::{
    CellBorderOverride, FloatingImage, FloatingShape, LayoutFootnote, PageParity, RowHeightRule,
    TableBorderConfig, TableBorderLine, TableBorderStyle, TableCellInput, TableRowInput,
};
use crate::dimension::Pt;
use crate::draw_command::{shift_all, DrawCommand};
use crate::drawing_laws::fills;
use crate::fragment::Fragment;
use crate::geometry::{PtEdgeInsets, PtRect};
use crate::line_laws::room_at_top;
use crate::note_laws::{holds_moved, is_length};
use crate::paragraph::{open_place, placed, PlacedLine};
use crate::section::place_laws::{joins, stands_in_frame};
use crate::section::wrap_laws::{left_edge, top_edge};
use crate::style::ParagraphStyle;
use crate::table::anchored::{anchored, shape_drawn, with_images, with_shapes};
use crate::table::borders::{
    border_width, cell_border_commands, colour_luminance, conflict_winner, edge_commands,
    effective_borders, weight_in_eighths, CellBorders, CellEdge,
};
use crate::table::cell::{paragraph_lines, with_paragraph, with_table, CellFlow};
use crate::table::measure::{
    base_height, counts_in_row, inner_width, layout_width, tallest_content, widest_margins,
};
use crate::table::types::{CellLine, EntryView};
use vstd::prelude::*;

verus! {

/// The width of the line that an edge paints.
pub open spec fn line_width(e: CellEdge) -> int {
    match e {
        CellEdge::Line(l) => l.width.units as int,
        _ => 0,
    }
}

/// How many rectangles an edge is painted with.
pub open spec fn strokes(e: CellEdge) -> int {
    match e {
        CellEdge::Line(l) => match l.style {
            TableBorderStyle::Single => 1,
            TableBorderStyle::Double => 2,
        },
        _ => 0,
    }
}

/// Whether the commands from number `at` on paint an edge over the given box: the whole box for a
/// single line, and for a double line a third of it along either of its long sides.
pub open spec fn paints_edge(
    commands: Seq<DrawCommand>,
    at: int,
    e: CellEdge,
    left: int,
    top: int,
    right: int,
    bottom: int,
    is_horizontal: bool,
) -> bool {
    match e {
        CellEdge::Line(l) => match l.style {
            TableBorderStyle::Single => fills(commands[at], left, top, right, bottom, l.color),
            TableBorderStyle::Double => {
                let third = l.width.units as int / 3;
                if is_horizontal {
                    fills(commands[at], left, top, right, top + third, l.color) && fills(
                        commands[at + 1],
                        left,
                        bottom - third,
                        right,
                        bottom,
                        l.color,
                    )
                } else {
                    fills(commands[at], left, top, left + third, bottom, l.color) && fills(
                        commands[at + 1],
                        right - third,
                        top,
                        right,
                        bottom,
                        l.color,
                    )
                }
            },
        },
        _ => true,
    }
}

/// Whether the edges of a cell and of its borders are lengths.
pub open spec fn cell_has_edges(b: CellBorders, x: int, w: int, y: int, h: int) -> bool {
    let third = |e: CellEdge| line_width(e) / 3;
    &&& is_length(x + w)
    &&& is_length(y + h)
    &&& is_length(y + line_width(b.top))
    &&& is_length(y + h - line_width(b.bottom))
    &&& is_length(y + h - third(b.bottom))
    &&& is_length(y + line_width(b.top) - third(b.top))
    &&& is_length(h - line_width(b.top))
    &&& is_length(h - line_width(b.top) - line_width(b.bottom))
    &&& is_length(x + w - line_width(b.right))
    &&& is_length(x + w - third(b.right))
    &&& is_length(x + line_width(b.left))
    &&& is_length(x + line_width(b.left) - third(b.left))
}

/// An edge is painted over its box.
proof fn lemma_edge(e: CellEdge, rect: PtRect, is_horizontal: bool)
    requires
        is_length(rect.origin.x.units + rect.size.width.units),
        is_length(rect.origin.y.units + rect.size.height.units),
        is_horizontal ==> rect.size.height.units == line_width(e) && is_length(
            rect.origin.y.units + rect.size.height.units - line_width(e) / 3,
        ),
        !is_horizontal ==> rect.size.width.units == line_width(e) && is_length(
            rect.origin.x.units + rect.size.width.units - line_width(e) / 3,
        ),
    ensures
        edge_commands(e, rect, is_horizontal).len() == strokes(e),
        paints_edge(
            edge_commands(e, rect, is_horizontal),
            0,
            e,
            rect.origin.x.units as int,
            rect.origin.y.units as int,
            rect.origin.x.units + rect.size.width.units,
            rect.origin.y.units + rect.size.height.units,
            is_horizontal,
        ),
{
}

/// The borders of a cell lie within its edges. The top and bottom border run over the whole width of
/// the cell, along its upper and lower edge; the left and right border run between them along the
/// sides, where there is any height between them.
pub proof fn law_borders_lie_within_the_cell(b: CellBorders, x: Pt, w: Pt, y: Pt, h: Pt)
    requires
        cell_has_edges(b, x.units as int, w.units as int, y.units as int, h.units as int),
    ensures
        ({
            let c = cell_border_commands(b, x, w, y, h);
            let left = x.units as int;
            let right = x.units + w.units;
            let top = y.units as int;
            let bottom = y.units + h.units;
            let from = top + line_width(b.top);
            let to = bottom - line_width(b.bottom);
            let sides = from < to;
            let n = strokes(b.top) + strokes(b.bottom);
            &&& c.len() == n + if sides {
                strokes(b.left) + strokes(b.right)
            } else {
                0
            }
            &&& paints_edge(c, 0, b.top, left, top, right, from, true)
            &&& paints_edge(c, strokes(b.top), b.bottom, left, to, right, bottom, true)
            &&& sides ==> paints_edge(
                c,
                n,
                b.left,
                left,
                from,
                left + line_width(b.left),
                to,
                false,
            )
            &&& sides ==> paints_edge(
                c,
                n + strokes(b.left),
                b.right,
                right - line_width(b.right),
                from,
                right,
                to,
                false,
            )
        }),
{
    let top_w = border_width(b.top);
    let bottom_w = border_width(b.bottom);
    let left_w = border_width(b.left);
    let right_w = border_width(b.right);
    let inner = h.minus(top_w).minus(bottom_w);
    let top = PtRect::from_xywh(x, y, w, top_w);
    let bottom = PtRect::from_xywh(x, y.plus(h).minus(bottom_w), w, bottom_w);
    let left = PtRect::from_xywh(x, y.plus(top_w), left_w, inner);
    let right = PtRect::from_xywh(x.plus(w).minus(right_w), y.plus(top_w), right_w, inner);
    lemma_edge(b.top, top, true);
    lemma_edge(b.bottom, bottom, true);
    let c = cell_border_commands(b, x, w, y, h);
    let s = edge_commands(b.top, top, true);
    let t = edge_commands(b.bottom, bottom, true);
    if inner.units > 0 {
        lemma_edge(b.left, left, false);
        lemma_edge(b.right, right, false);
        let u = edge_commands(b.left, left, false);
        let v = edge_commands(b.right, right, false);
        assert(c == s + t + u + v);
        assert(forall|k: int| #![trigger s[k]] 0 <= k < s.len() ==> c[k] == s[k]);
        assert(forall|k: int| #![trigger t[k]] 0 <= k < t.len() ==> c[s.len() + k] == t[k]);
        assert(forall|k: int| #![trigger u[k]]
            0 <= k < u.len() ==> c[s.len() + t.len() + k] == u[k]);
        assert(forall|k: int| #![trigger v[k]]
            0 <= k < v.len() ==> c[s.len() + t.len() + u.len() + k] == v[k]);
    } else {
        assert(c == s + t);
        assert(forall|k: int| #![trigger s[k]] 0 <= k < s.len() ==> c[k] == s[k]);
        assert(forall|k: int| #![trigger t[k]] 0 <= k < t.len() ==> c[s.len() + k] == t[k]);
    }
}

/// What a cell without a word of its own shows at an edge: the table's border there.
pub open spec fn from_table(b: Option<TableBorderLine>) -> CellEdge {
    match b {
        Some(line) => CellEdge::Line(line),
        None => CellEdge::Absent,
    }
}

/// Whether an edge is as a cell asks for; and as its table gives it, where the cell says nothing.
pub open spec fn edge_is(
    e: CellEdge,
    own: Option<CellBorderOverride>,
    given: Option<TableBorderLine>,
) -> bool {
    match own {
        Some(CellBorderOverride::Suppress) => e == CellEdge::Suppressed,
        Some(CellBorderOverride::Border(line)) => e == CellEdge::Line(line),
        None => e == from_table(given),
    }
}

/// The edges of a cell are as the cell asks for, and else as the table says: its outer borders at the
/// edges of the table, and its inner ones everywhere else.
pub proof fn law_outer_edges_take_outer_borders(
    cell: TableCellInput,
    table: TableBorderConfig,
    row_idx: int,
    grid_col: int,
    grid_span: int,
    num_rows: int,
    num_grid_cols: int,
)
    requires
        0 <= row_idx < num_rows,
        0 <= grid_col,
        0 < grid_span,
    ensures
        ({
            let e = effective_borders(
                cell,
                Some(table),
                row_idx,
                grid_col,
                grid_span,
                num_rows,
                num_grid_cols,
            );
            let bare = effective_borders(
                cell,
                None,
                row_idx,
                grid_col,
                grid_span,
                num_rows,
                num_grid_cols,
            );
            let (top, bottom, left, right) = match cell.cell_borders {
                Some(own) => (own.top, own.bottom, own.left, own.right),
                None => (None, None, None, None),
            };
            &&& edge_is(
                e.top,
                top,
                if row_idx == 0 {
                    table.top
                } else {
                    table.inside_h
                },
            )
            &&& edge_is(
                e.bottom,
                bottom,
                if row_idx == num_rows - 1 {
                    table.bottom
                } else {
                    table.inside_h
                },
            )
            &&& edge_is(
                e.left,
                left,
                if grid_col == 0 {
                    table.left
                } else {
                    table.inside_v
                },
            )
            &&& edge_is(
                e.right,
                right,
                if grid_col + grid_span >= num_grid_cols {
                    table.right
                } else {
                    table.inside_v
                },
            )
            &&& edge_is(bare.top, top, None) && edge_is(bare.bottom, bottom, None)
            &&& edge_is(bare.left, left, None) && edge_is(bare.right, right, None)
        }),
{
}

/// The weight of a border: its width, times three for a double line.
pub open spec fn weight(b: TableBorderLine) -> int {
    match b.style {
        TableBorderStyle::Single => b.width.units as int,
        TableBorderStyle::Double => 3 * b.width.units,
    }
}

/// How bright a colour is; green counts twice.
pub open spec fn brightness(b: TableBorderLine) -> int {
    b.color.r + 2 * b.color.g + b.color.b
}

/// Of two borders that claim an edge, the one that is heavier by an eighth of a point at least wins. A
/// single line wins over a double one of the same weight, and of two that are alike but for their
/// colour the darker one does.
pub proof fn law_the_heavier_border_wins(a: TableBorderLine, b: TableBorderLine)
    ensures
        ({
            let winner = conflict_winner(CellEdge::Line(a), CellEdge::Line(b));
            &&& winner == CellEdge::Line(a) || winner == CellEdge::Line(b)
            &&& 0 <= weight(a) && weight(a) + 9525 <= weight(b) ==> winner == CellEdge::Line(b)
            &&& 0 <= weight(b) && weight(b) + 9525 <= weight(a) ==> winner == CellEdge::Line(a)
            &&& weight(a) == weight(b) && a.style is Single && b.style is Double ==> winner
                == CellEdge::Line(a)
            &&& weight(a) == weight(b) && b.style is Single && a.style is Double ==> winner
                == CellEdge::Line(b)
            &&& a.width == b.width && a.style == b.style && brightness(a) < brightness(b)
                ==> winner == CellEdge::Line(a)
            &&& a.width == b.width && a.style == b.style && brightness(b) < brightness(a)
                ==> winner == CellEdge::Line(b)
        }),
{
    assert(crate::table::borders::weight_units(a) == weight(a)) by (nonlinear_arith)
        requires
            crate::table::borders::weight_units(a) == a.width.units
                * crate::table::borders::style_number(a.style),
            a.style is Single ==> crate::table::borders::style_number(a.style) == 1 && weight(a)
                == a.width.units,
            a.style is Double ==> crate::table::borders::style_number(a.style) == 3 && weight(a)
                == 3 * a.width.units,
            a.style is Single || a.style is Double,
    ;
    assert(crate::table::borders::weight_units(b) == weight(b)) by (nonlinear_arith)
        requires
            crate::table::borders::weight_units(b) == b.width.units
                * crate::table::borders::style_number(b.style),
            b.style is Single ==> crate::table::borders::style_number(b.style) == 1 && weight(b)
                == b.width.units,
            b.style is Double ==> crate::table::borders::style_number(b.style) == 3 && weight(b)
                == 3 * b.width.units,
            b.style is Single || b.style is Double,
    ;
    let wa = weight(a);
    let wb = weight(b);
    let ra = (2 * wa + 9525) / 19050;
    let rb = (2 * wb + 9525) / 19050;
    assert(weight_in_eighths(wa) == if ra < 0 {
        0
    } else {
        ra
    });
    assert(weight_in_eighths(wb) == if rb < 0 {
        0
    } else {
        rb
    });
    if 0 <= wa && wa + 9525 <= wb {
        assert(ra < rb);
    }
    if 0 <= wb && wb + 9525 <= wa {
        assert(rb < ra);
    }
    assert(brightness(a) == colour_luminance(a).0);
    assert(brightness(b) == colour_luminance(b).0);
}

/// A cell's content is as wide as the cell without its margins, and a side border that is wider than
/// the margin on its side takes the rest of its width from the content.
pub proof fn law_content_fits_between_margins(cell_w: Pt, margins: PtEdgeInsets, b: CellBorders)
    requires
        0 <= margins.left.units,
        0 <= margins.right.units,
        0 <= line_width(b.left),
        0 <= line_width(b.right),
        is_length(margins.left.units + margins.right.units),
        0 <= cell_w.units,
        ({
            let left = if line_width(b.left) > margins.left.units {
                line_width(b.left)
            } else {
                margins.left.units as int
            };
            let right = if line_width(b.right) > margins.right.units {
                line_width(b.right)
            } else {
                margins.right.units as int
            };
            left + right <= cell_w.units
        }),
    ensures
        ({
            let left = if line_width(b.left) > margins.left.units {
                line_width(b.left)
            } else {
                margins.left.units as int
            };
            let right = if line_width(b.right) > margins.right.units {
                line_width(b.right)
            } else {
                margins.right.units as int
            };
            inner_width(layout_width(cell_w, margins, b), margins).units == cell_w.units - left
                - right
        }),
{
}

proof fn lemma_tallest(
    rows: Seq<TableRowInput>,
    r: int,
    entries: Seq<EntryView<'_>>,
    c: int,
    acc: Pt,
)
    requires
        0 <= c <= rows[r].cells@.len(),
        forall|i: int| #![trigger content_has_height(rows[r], entries, i)]
            0 <= i < rows[r].cells@.len() ==> content_has_height(rows[r], entries, i),
    ensures
        ({
            let h = tallest_content(rows, r, entries, c, acc);
            &&& acc.units <= h.units
            &&& forall|i: int| #![trigger entries[i]]
                c <= i < rows[r].cells@.len() && counts_in_row(rows, r, i) ==> content_height(
                    rows[r],
                    entries,
                    i,
                ) <= h.units
            &&& h == acc || exists|i: int| #![trigger entries[i]]
                c <= i < rows[r].cells@.len() && counts_in_row(rows, r, i) && content_height(
                    rows[r],
                    entries,
                    i,
                ) == h.units
        }),
    decreases rows[r].cells@.len() - c,
{
    if c < rows[r].cells@.len() {
        assert(content_has_height(rows[r], entries, c));
        let next = if counts_in_row(rows, r, c) {
            acc.max(entries[c].layout.content_height.plus(rows[r].cells@[c].margins.vertical()))
        } else {
            acc
        };
        lemma_tallest(rows, r, entries, c + 1, next);
        let h = tallest_content(rows, r, entries, c, acc);
        if h != acc && h == next {
            assert(content_height(rows[r], entries, c) == h.units);
        }
    }
}

proof fn lemma_margins(row: TableRowInput, c: int, acc: (Pt, Pt))
    requires
        0 <= c <= row.cells@.len(),
    ensures
        ({
            let (top, bottom) = widest_margins(row, c, acc);
            &&& acc.0.units <= top.units
            &&& acc.1.units <= bottom.units
            &&& forall|i: int| #![trigger row.cells@[i]]
                c <= i < row.cells@.len() ==> row.cells@[i].margins.top.units <= top.units
                    && row.cells@[i].margins.bottom.units <= bottom.units
            &&& top == acc.0 || exists|i: int| #![trigger row.cells@[i]]
                c <= i < row.cells@.len() && row.cells@[i].margins.top == top
            &&& bottom == acc.1 || exists|i: int| #![trigger row.cells@[i]]
                c <= i < row.cells@.len() && row.cells@[i].margins.bottom == bottom
        }),
    decreases row.cells@.len() - c,
{
    if c < row.cells@.len() {
        let m = row.cells@[c].margins;
        lemma_margins(row, c + 1, (acc.0.max(m.top), acc.1.max(m.bottom)));
    }
}

/// The height of a cell's content with the margins above and below it.
pub open spec fn content_height(row: TableRowInput, entries: Seq<EntryView<'_>>, c: int) -> int {
    entries[c].layout.content_height.units + row.cells@[c].margins.top.units
        + row.cells@[c].margins.bottom.units
}

/// Whether the height of a cell's content and its margins is a length.
pub open spec fn content_has_height(
    row: TableRowInput,
    entries: Seq<EntryView<'_>>,
    c: int,
) -> bool {
    &&& is_length(row.cells@[c].margins.top.units + row.cells@[c].margins.bottom.units)
    &&& is_length(content_height(row, entries, c))
}

/// A row is as high as the highest of its cells, with the margins of the cell and one spacing. A least
/// height counts without the greatest margins of the row, and a fixed height without its greatest
/// bottom margin.
pub proof fn law_rows_hold_their_cells(
    rows: Seq<TableRowInput>,
    r: int,
    entries: Seq<EntryView<'_>>,
    spacing: Pt,
) -> (margins: (Pt, Pt))
    requires
        0 <= r < rows.len(),
        forall|i: int| #![trigger content_has_height(rows[r], entries, i)]
            0 <= i < rows[r].cells@.len() ==> content_has_height(rows[r], entries, i),
        is_length(base_height(rows, r, entries, Pt::zero()).units + spacing.units),
        rows[r].height_rule matches Some(RowHeightRule::Exact(h)) ==> forall|i: int|
            #![trigger rows[r].cells@[i]]
            0 <= i < rows[r].cells@.len() ==> is_length(
                h.units + rows[r].cells@[i].margins.bottom.units,
            ),
        rows[r].height_rule matches Some(RowHeightRule::AtLeast(h)) ==> forall|i: int, k: int|
            #![trigger rows[r].cells@[i], rows[r].cells@[k]]
            0 <= i < rows[r].cells@.len() && 0 <= k < rows[r].cells@.len() ==> is_length(
                h.units + rows[r].cells@[i].margins.top.units,
            ) && is_length(
                h.units + rows[r].cells@[i].margins.top.units
                    + rows[r].cells@[k].margins.bottom.units,
            ) && is_length(h.units + rows[r].cells@[k].margins.bottom.units),
    ensures
        ({
            let row = rows[r];
            let h = base_height(rows, r, entries, spacing).units - spacing.units;
            let (top, bottom) = margins;
            &&& 0 <= top.units && 0 <= bottom.units
            &&& forall|i: int| #![trigger row.cells@[i]]
                0 <= i < row.cells@.len() ==> row.cells@[i].margins.top.units <= top.units
                    && row.cells@[i].margins.bottom.units <= bottom.units
            &&& top.units == 0 || exists|i: int| #![trigger row.cells@[i]]
                0 <= i < row.cells@.len() && row.cells@[i].margins.top == top
            &&& bottom.units == 0 || exists|i: int| #![trigger row.cells@[i]]
                0 <= i < row.cells@.len() && row.cells@[i].margins.bottom == bottom
            &&& row.height_rule matches Some(RowHeightRule::Exact(exact)) ==> h == exact.units
                + bottom.units
            &&& !(row.height_rule matches Some(RowHeightRule::Exact(_))) ==> {
                let least = match row.height_rule {
                    Some(RowHeightRule::AtLeast(least)) => least.units + top.units + bottom.units,
                    _ => 0,
                };
                &&& h >= 0
                &&& h >= least
                &&& forall|i: int| #![trigger entries[i]]
                    0 <= i < row.cells@.len() && counts_in_row(rows, r, i) ==> content_height(
                        row,
                        entries,
                        i,
                    ) <= h
                &&& h == 0 || h == least || exists|i: int| #![trigger entries[i]]
                    0 <= i < row.cells@.len() && counts_in_row(rows, r, i) && content_height(
                        row,
                        entries,
                        i,
                    ) == h
            }
        }),
{
    let row = rows[r];
    let zero = (Pt::zero(), Pt::zero());
    lemma_tallest(rows, r, entries, 0, Pt::zero());
    lemma_margins(row, 0, zero);
    let (top, bottom) = widest_margins(row, 0, zero);
    match row.height_rule {
        Some(RowHeightRule::AtLeast(h)) => {
            if top.units != 0 {
                let i = choose|i: int| #![trigger row.cells@[i]]
                    0 <= i < row.cells@.len() && row.cells@[i].margins.top == top;
                let one = rows[r].cells@[i];
                if bottom.units != 0 {
                    let k = choose|k: int| #![trigger row.cells@[k]]
                        0 <= k < row.cells@.len() && row.cells@[k].margins.bottom == bottom;
                    let other = rows[r].cells@[k];
                    assert(is_length(h.units + top.units + bottom.units));
                }
                assert(is_length(h.units + top.units));
            } else if bottom.units != 0 {
                let k = choose|k: int| #![trigger row.cells@[k]]
                    0 <= k < row.cells@.len() && row.cells@[k].margins.bottom == bottom;
                let other = rows[r].cells@[k];
                assert(is_length(h.units + bottom.units));
            }
        },
        Some(RowHeightRule::Exact(h)) => {
            if bottom.units != 0 {
                let k = choose|k: int| #![trigger row.cells@[k]]
                    0 <= k < row.cells@.len() && row.cells@[k].margins.bottom == bottom;
                let other = rows[r].cells@[k];
                assert(is_length(h.units + bottom.units));
            }
        },
        None => {},
    }
    (top, bottom)
}

/// Image number `i` that is drawn before the text, or after it, is drawn in its own box, and those
/// drawn before it stay.
pub proof fn law_anchored_images_stand_in_their_boxes(
    commands: Seq<DrawCommand>,
    images: Seq<FloatingImage>,
    i: int,
    first: bool,
    parity: PageParity,
    content_top: Pt,
) -> (next: Seq<DrawCommand>)
    requires
        0 <= i < images.len(),
        is_length(top_edge(images[i].frame, content_top.units as int)),
    ensures
        with_images(commands, images, i, first, parity, content_top) == with_images(
            next,
            images,
            i + 1,
            first,
            parity,
            content_top,
        ),
        ({
            let frame = images[i].frame;
            let now = (frame.behind_doc || frame.wrap_mode is TopAndBottom) == first;
            let n = commands.len() as int;
            &&& !now ==> next == commands
            &&& now ==> {
                &&& next.len() == n + 1
                &&& next.take(n) == commands
                &&& next[n] matches DrawCommand::Image { rect, image } && image == images[i].image
                    && stands_in_frame(
                    rect,
                    frame,
                    parity,
                    top_edge(frame, content_top.units as int),
                )
            }
        }),
{
    let next = if images[i].frame.is_drawn_first() == first {
        commands.push(
            DrawCommand::Image {
                rect: images[i].frame.rect(parity, content_top),
                image: images[i].image,
            },
        )
    } else {
        commands
    };
    assert(next.take(commands.len() as int) =~= commands);
    next
}

/// Drawing number `i` that comes before the text, or after it, is drawn in its own box with its text
/// in it, and what has been drawn before it stays.
pub proof fn law_anchored_drawings_stand_in_their_boxes(
    commands: Seq<DrawCommand>,
    shapes: Seq<FloatingShape>,
    i: int,
    first: bool,
    parity: PageParity,
    content_top: Pt,
) -> (next: Seq<DrawCommand>)
    requires
        0 <= i < shapes.len(),
        is_length(top_edge(shapes[i].frame, content_top.units as int)),
    ensures
        with_shapes(commands, shapes, i, first, parity, content_top) == with_shapes(
            next,
            shapes,
            i + 1,
            first,
            parity,
            content_top,
        ),
        ({
            let frame = shapes[i].frame;
            let now = (frame.behind_doc || frame.wrap_mode is TopAndBottom) == first;
            let n = commands.len() as int;
            let y = top_edge(frame, content_top.units as int);
            &&& !now ==> next == commands
            &&& now ==> {
                &&& next.len() == n + 1 + shapes[i].text_commands@.len()
                &&& next.take(n) == commands
                &&& next[n] matches DrawCommand::Path { rect, path } && path == shapes[i].path
                    && stands_in_frame(rect, frame, parity, y)
                &&& holds_moved(
                    next,
                    n + 1,
                    shapes[i].text_commands@,
                    left_edge(frame, parity),
                    y,
                )
            }
        }),
{
    let next = if shapes[i].frame.is_drawn_first() == first {
        commands + shape_drawn(shapes[i], parity, content_top)
    } else {
        commands
    };
    let n = commands.len() as int;
    assert(next.take(n) =~= commands);
    next
}

proof fn lemma_paragraph_lines(
    lines: Seq<PlacedLine>,
    i: int,
    style: ParagraphStyle,
    text_top: Pt,
    first_command: int,
    after: int,
    acc: Seq<CellLine>,
)
    requires
        0 <= i <= lines.len(),
    ensures
        ({
            let r = paragraph_lines(lines, i, style, text_top, first_command, after, acc);
            &&& r.len() == acc.len() + lines.len() - i
            &&& forall|k: int| #![trigger acc[k]] 0 <= k < acc.len() ==> r[k] == acc[k]
            &&& forall|k: int| #![trigger lines[k]]
                i <= k < lines.len() ==> {
                    let line = r[acc.len() + k - i];
                    &&& line.top == text_top.plus(lines[k].top)
                    &&& line.bottom == text_top.plus(lines[k].bottom())
                    &&& line.commands_end == (first_command + lines[k].commands_end + if k + 1
                        < lines.len() {
                        0
                    } else {
                        after
                    }) as usize
                    &&& line.break_after == if k + 1 < lines.len() {
                        !style.keep_lines
                    } else {
                        !style.keep_next
                    }
                }
        }),
    decreases lines.len() - i,
{
    if i < lines.len() {
        let next = acc.push(
            CellLine {
                top: text_top.plus(lines[i].top),
                bottom: text_top.plus(lines[i].bottom()),
                commands_end: (first_command + lines[i].commands_end + if i + 1 < lines.len() {
                    0
                } else {
                    after
                }) as usize,
                break_after: if i + 1 < lines.len() {
                    !style.keep_lines
                } else {
                    !style.keep_next
                },
            },
        );
        lemma_paragraph_lines(lines, i + 1, style, text_top, first_command, after, next);
        let r = paragraph_lines(lines, i, style, text_top, first_command, after, acc);
        assert(r == paragraph_lines(lines, i + 1, style, text_top, first_command, after, next));
        assert(r[acc.len() as int] == next[acc.len() as int]);
        assert forall|k: int| #![trigger acc[k]] 0 <= k < acc.len() implies r[k] == acc[k] by {
            assert(next[k] == acc[k]);
        }
    }
}

/// A paragraph of a cell stands below the content before it, by the greater of the two spaces that
/// meet or by none where the two join, and inside the cell's margins. The content grows by the
/// paragraph's height and by nothing else. Each line of the paragraph becomes a line of the cell at
/// its place, and may be the last one on a page unless its style keeps it with the next.
pub proof fn law_paragraphs_of_a_cell_stand_below_one_another<'a>(
    flow: CellFlow<'a>,
    fragments: Seq<Fragment>,
    style: ParagraphStyle,
    footnotes: Seq<LayoutFootnote>,
    images: Seq<FloatingImage>,
    shapes: Seq<FloatingShape>,
    width: Pt,
    margins: PtEdgeInsets,
    default_line_height: Pt,
    parity: PageParity,
) -> (at: int)
    requires
        is_length(flow.previous.space_after.units + style.space_before.units),
        is_length(flow.y.units - flow.previous.overlap(&style).units),
        is_length(room_at_top(style)),
        ({
            let y = flow.y.units - flow.previous.overlap(&style).units;
            let p = placed(
                fragments,
                open_place(width, Pt::infinity(), default_line_height),
                style,
            );
            let drawn = p.full(style, width, Pt::infinity());
            &&& is_length(y + drawn.height.units)
            &&& is_length(margins.top.units + y)
            &&& is_length(y + style.space_before.units)
            &&& is_length(y + style.space_before.units + room_at_top(style))
            &&& forall|k: int| #![trigger p.lines[k]]
                0 <= k < p.lines.len() ==> is_length(
                    p.lines[k].top.units + p.lines[k].height.units,
                ) && is_length(
                    y + style.space_before.units + room_at_top(style) + p.lines[k].top.units,
                ) && is_length(
                    y + style.space_before.units + room_at_top(style) + p.lines[k].top.units
                        + p.lines[k].height.units,
                )
        }),
    ensures
        ({
            let p = placed(
                fragments,
                open_place(width, Pt::infinity(), default_line_height),
                style,
            );
            let drawn = p.full(style, width, Pt::infinity());
            let after = flow.previous.space_after.units;
            let before = style.space_before.units;
            let gap = if joins(flow.previous, style) {
                0
            } else if after >= before {
                after as int
            } else {
                before as int
            };
            let text = flow.y.units - after + gap;
            let next = with_paragraph(
                flow,
                fragments,
                style,
                footnotes,
                images,
                shapes,
                width,
                margins,
                default_line_height,
                parity,
            );
            let n = flow.lines.len() as int;
            let first = anchored(
                images,
                shapes,
                true,
                parity,
                Pt { units: text as i64 },
            );
            let last = anchored(images, shapes, false, parity, Pt { units: text as i64 });
            &&& next.y.units == text - before + drawn.height.units
            &&& next.previous.space_after == style.space_after
            &&& next.previous.style_id == style.style_id
            &&& 0 <= flow.commands.len() <= at
            &&& at == flow.commands.len() + first.len()
            &&& next.commands.take(flow.commands.len() as int) == flow.commands
            &&& next.commands.len() == at + drawn.commands.len() + last.len()
            &&& holds_moved(
                next.commands,
                flow.commands.len() as int,
                first,
                margins.left.units as int,
                margins.top.units as int,
            )
            &&& holds_moved(
                next.commands,
                at,
                drawn.commands,
                margins.left.units as int,
                margins.top.units + text - before,
            )
            &&& holds_moved(
                next.commands,
                at + drawn.commands.len(),
                last,
                margins.left.units as int,
                margins.top.units as int,
            )
            &&& next.lines.len() == n + p.lines.len()
            &&& forall|k: int| #![trigger flow.lines[k]]
                0 <= k < n ==> next.lines[k] == flow.lines[k]
            &&& forall|k: int| #![trigger p.lines[k]]
                0 <= k < p.lines.len() ==> {
                    let line = next.lines[n + k];
                    let top = text + room_at_top(style) + p.lines[k].top.units;
                    &&& line.top.units == top
                    &&& line.bottom.units == top + p.lines[k].height.units
                    &&& line.break_after == if k + 1 < p.lines.len() {
                        !style.keep_lines
                    } else {
                        !style.keep_next
                    }
                }
        }),
{
    let p = placed(fragments, open_place(width, Pt::infinity(), default_line_height), style);
    let drawn = p.full(style, width, Pt::infinity());
    let y = flow.y.minus(flow.previous.overlap(&style));
    let first = anchored(images, shapes, true, parity, y.plus(style.space_before));
    let last = anchored(images, shapes, false, parity, y.plus(style.space_before));
    let next = with_paragraph(
        flow,
        fragments,
        style,
        footnotes,
        images,
        shapes,
        width,
        margins,
        default_line_height,
        parity,
    );
    assert(style.top_border_space().units == room_at_top(style));
    lemma_paragraph_lines(
        p.lines,
        0,
        style,
        y.plus(style.space_before).plus(style.top_border_space()),
        flow.commands.len() + first.len() + drawn.commands.len() - p.commands.len(),
        last.len() as int,
        flow.lines,
    );
    let c = flow.commands.len() as int;
    let at = c + first.len() as int;
    assert(next.commands.take(c) =~= flow.commands);
    let a = shift_all(first, margins.left, margins.top);
    let b = shift_all(drawn.commands, margins.left, margins.top.plus(y));
    let e = shift_all(last, margins.left, margins.top);
    assert(next.commands == flow.commands + a + b + e);
    assert forall|k: int| #![trigger first[k]] 0 <= k < first.len() implies next.commands[c + k]
        == first[k].shifted(margins.left, margins.top) by {
        assert(a[k] == first[k].shifted(margins.left, margins.top));
    }
    assert forall|k: int| #![trigger drawn.commands[k]]
        0 <= k < drawn.commands.len() implies next.commands[at + k] == drawn.commands[k].shifted(
        margins.left,
        margins.top.plus(y),
    ) by {
        assert(b[k] == drawn.commands[k].shifted(margins.left, margins.top.plus(y)));
    }
    assert forall|k: int| #![trigger last[k]] 0 <= k < last.len() implies next.commands[at
        + drawn.commands.len() + k] == last[k].shifted(margins.left, margins.top) by {
        assert(e[k] == last[k].shifted(margins.left, margins.top));
    }
    at
}

/// A table in a cell stands below the content before it and inside the cell's margins, as one line of
/// the cell that is as high as the table. It takes no space from the paragraphs around it.
pub proof fn law_tables_of_a_cell_stand_below_its_content<'a>(
    flow: CellFlow<'a>,
    commands: Seq<DrawCommand>,
    height: Pt,
    footnotes: Seq<&'a LayoutFootnote>,
    margins: PtEdgeInsets,
)
    requires
        is_length(flow.y.units + height.units),
        is_length(margins.top.units + flow.y.units),
        flow.commands.len() + commands.len() <= usize::MAX,
    ensures
        ({
            let next = with_table(flow, commands, height, footnotes, margins);
            let c = flow.commands.len() as int;
            let n = flow.lines.len() as int;
            &&& next.y.units == flow.y.units + height.units
            &&& next.previous.space_after.units == 0
            &&& next.commands.len() == c + commands.len()
            &&& next.commands.take(c) == flow.commands
            &&& holds_moved(
                next.commands,
                c,
                commands,
                margins.left.units as int,
                margins.top.units + flow.y.units,
            )
            &&& next.lines.len() == n + 1
            &&& next.lines.take(n) == flow.lines
            &&& next.lines[n].top == flow.y
            &&& next.lines[n].bottom.units == flow.y.units + height.units
            &&& next.lines[n].commands_end == next.commands.len()
        }),
{
    let next = with_table(flow, commands, height, footnotes, margins);
    let c = flow.commands.len() as int;
    assert(next.commands.take(c) =~= flow.commands);
    assert(next.lines.take(flow.lines.len() as int) =~= flow.lines);
}

} // verus!
