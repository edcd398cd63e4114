//! Cell borders: which border an edge gets, and how it is drawn.
use crate::block::{
    CellBorderOverride, TableBorderConfig, TableBorderLine, TableBorderStyle, TableCellInput,
};
use crate::dimension::Pt;
use crate::draw_command::DrawCommand;
use crate::geometry::PtRect;
use vstd::prelude::*;

verus! {

/// One edge of a cell while borders are resolved and afterwards.
#[derive(Clone, Copy, Debug, PartialEq, Eq, Structural)]
pub enum CellEdge {
    /// Nothing is said of this edge: it takes over a border, then yields.
    Absent,
    /// No border here, and none taken over either.
    Suppressed,
    /// A border.
    Line(TableBorderLine),
}

impl CellEdge {
    /// The line to paint, if any.
    #[verifier::allow_in_spec]
    pub fn line(self) -> Option<TableBorderLine>
        returns
            (match self {
                CellEdge::Line(l) => Some(l),
                _ => None,
            }),
    {
        match self {
            CellEdge::Line(l) => Some(l),
            _ => None,
        }
    }

    /// Whether two resolved edges paint the same thing.
    #[verifier::allow_in_spec]
    pub fn paints_same(self, other: CellEdge) -> bool
        returns
            (self.line() == other.line()),
    {
        self.line() == other.line()
    }

    /// The edge of a cell that takes over the table's border `b`.
    #[verifier::allow_in_spec]
    pub fn inherited(b: Option<TableBorderLine>) -> CellEdge
        returns
            (match b {
                Some(l) => CellEdge::Line(l),
                None => CellEdge::Absent,
            }),
    {
        match b {
            Some(l) => CellEdge::Line(l),
            None => CellEdge::Absent,
        }
    }

    /// The edge of a cell that says `v` of it, where its table gives `inherited`.
    #[verifier::allow_in_spec]
    pub fn overridden(inherited: CellEdge, v: Option<CellBorderOverride>) -> CellEdge
        returns
            (match v {
                None => inherited,
                Some(CellBorderOverride::Suppress) => CellEdge::Suppressed,
                Some(CellBorderOverride::Border(line)) => CellEdge::Line(line),
            }),
    {
        match v {
            None => inherited,
            Some(CellBorderOverride::Suppress) => CellEdge::Suppressed,
            Some(CellBorderOverride::Border(line)) => CellEdge::Line(line),
        }
    }
}

/// The borders of one cell.
#[derive(Clone, Copy, Debug, PartialEq, Eq, Structural)]
pub struct CellBorders {
    pub top: CellEdge,
    pub bottom: CellEdge,
    pub left: CellEdge,
    pub right: CellEdge,
}

/// The borders of a cell before it meets its neighbours: its own where it says
/// something, and those of its table otherwise.
pub open spec fn effective_borders(
    cell: TableCellInput,
    borders: Option<TableBorderConfig>,
    row_idx: int,
    grid_col: int,
    grid_span: int,
    num_rows: int,
    num_grid_cols: int,
) -> CellBorders {
    let top = match borders {
        Some(b) => CellEdge::inherited(
            if row_idx == 0 {
                b.top
            } else {
                b.inside_h
            },
        ),
        None => CellEdge::Absent,
    };
    let bottom = match borders {
        Some(b) => CellEdge::inherited(
            if row_idx + 1 == num_rows {
                b.bottom
            } else {
                b.inside_h
            },
        ),
        None => CellEdge::Absent,
    };
    let left = match borders {
        Some(b) => CellEdge::inherited(
            if grid_col == 0 {
                b.left
            } else {
                b.inside_v
            },
        ),
        None => CellEdge::Absent,
    };
    let right = match borders {
        Some(b) => CellEdge::inherited(
            if grid_col + grid_span >= num_grid_cols {
                b.right
            } else {
                b.inside_v
            },
        ),
        None => CellEdge::Absent,
    };
    match cell.cell_borders {
        Some(own) => CellBorders {
            top: CellEdge::overridden(top, own.top),
            bottom: CellEdge::overridden(bottom, own.bottom),
            left: CellEdge::overridden(left, own.left),
            right: CellEdge::overridden(right, own.right),
        },
        None => CellBorders { top, bottom, left, right },
    }
}

/// The borders of a cell before it meets its neighbours.
///
/// `cell_grid_col` is the cell's first grid column and `num_grid_cols` the
/// table's number of grid columns: a row's first or last cell need not stand at
/// the edge of the table.
pub fn resolve_cell_effective_borders(
    cell: &TableCellInput,
    table_borders: Option<TableBorderConfig>,
    row_idx: usize,
    cell_grid_col: usize,
    cell_grid_span: usize,
    num_rows: usize,
    num_grid_cols: usize,
) -> (r: CellBorders)
    requires
        row_idx < usize::MAX,
    ensures
        r == effective_borders(
            *cell,
            table_borders,
            row_idx as int,
            cell_grid_col as int,
            cell_grid_span as int,
            num_rows as int,
            num_grid_cols as int,
        ),
{
    let is_first_row = row_idx == 0;
    let is_last_row = row_idx + 1 == num_rows;
    let is_first_col = cell_grid_col == 0;
    let is_last_col = cell_grid_col >= num_grid_cols || cell_grid_span >= num_grid_cols
        - cell_grid_col;
    let mut edges = CellBorders {
        top: CellEdge::Absent,
        bottom: CellEdge::Absent,
        left: CellEdge::Absent,
        right: CellEdge::Absent,
    };
    if let Some(b) = table_borders {
        edges = CellBorders {
            top: CellEdge::inherited(
                if is_first_row {
                    b.top
                } else {
                    b.inside_h
                },
            ),
            bottom: CellEdge::inherited(
                if is_last_row {
                    b.bottom
                } else {
                    b.inside_h
                },
            ),
            left: CellEdge::inherited(
                if is_first_col {
                    b.left
                } else {
                    b.inside_v
                },
            ),
            right: CellEdge::inherited(
                if is_last_col {
                    b.right
                } else {
                    b.inside_v
                },
            ),
        };
    }
    if let Some(own) = cell.cell_borders {
        edges = CellBorders {
            top: CellEdge::overridden(edges.top, own.top),
            bottom: CellEdge::overridden(edges.bottom, own.bottom),
            left: CellEdge::overridden(edges.left, own.left),
            right: CellEdge::overridden(edges.right, own.right),
        };
    }
    edges
}

/// The number of lines that make up a border.
#[verifier::allow_in_spec]
pub fn style_number(style: TableBorderStyle) -> i64
    returns
        (match style {
            TableBorderStyle::Single => 1i64,
            TableBorderStyle::Double => 3i64,
        }),
{
    match style {
        TableBorderStyle::Single => 1i64,
        TableBorderStyle::Double => 3i64,
    }
}

/// The weight of a border, in fixed-point units: its width times its style number.
pub open spec fn weight_units(b: TableBorderLine) -> int {
    b.width.units * style_number(b.style)
}

/// The weight of a border, in fixed-point units.
pub fn border_weight(b: &TableBorderLine) -> (r: i128)
    ensures
        r == weight_units(*b),
        -0x1_8000_0000_0000_0000 <= r <= 0x1_8000_0000_0000_0000,
{
    let n: i128 = style_number(b.style) as i128;
    let w: i128 = b.width.units as i128;
    assert(w * n == weight_units(*b)) by (nonlinear_arith)
        requires
            w == b.width.units,
            n == style_number(b.style),
            weight_units(*b) == b.width.units * style_number(b.style),
    ;
    assert(n == 1 || n == 3);
    assert(-0x1_8000_0000_0000_0000 <= w * n <= 0x1_8000_0000_0000_0000) by (nonlinear_arith)
        requires
            n == 1 || n == 3,
            -0x8000_0000_0000_0000 <= w <= 0x7fff_ffff_ffff_ffff,
    ;
    w * n
}

/// Fixed-point units in an eighth of a point.
pub const UNITS_PER_EIGHTH: i64 = 9525;

/// A weight in eighths of a point, rounded to the nearest; none below zero.
pub open spec fn weight_in_eighths(weight: int) -> int {
    let rounded = (2 * weight + UNITS_PER_EIGHTH) / (2 * UNITS_PER_EIGHTH);
    if rounded < 0 {
        0
    } else {
        rounded
    }
}

/// The place of a style among borders of equal weight; the lower one wins.
#[verifier::allow_in_spec]
pub fn style_precedence_index(style: TableBorderStyle) -> u8
    returns
        (match style {
            TableBorderStyle::Single => 0u8,
            TableBorderStyle::Double => 2u8,
        }),
{
    match style {
        TableBorderStyle::Single => 0u8,
        TableBorderStyle::Double => 2u8,
    }
}

/// The brightness of a border's colour, in three keys compared in turn.
#[verifier::allow_in_spec]
pub fn colour_luminance(b: TableBorderLine) -> (u32, u32, u32)
    returns
        ((
            (b.color.r + b.color.b + 2 * b.color.g) as u32,
            (b.color.b + 2 * b.color.g) as u32,
            b.color.g as u32,
        )),
{
    let (r, g, bl) = (b.color.r as u32, b.color.g as u32, b.color.b as u32);
    (r + bl + 2 * g, bl + 2 * g, g)
}

/// Whether border `b` takes an edge that `a` also claims: it is heavier; or as
/// heavy and of an earlier style; or of the same style and darker; or of the
/// same colour, and wider by less than the weights tell.
pub open spec fn outranked(a: TableBorderLine, b: TableBorderLine) -> bool {
    let wa = weight_in_eighths(weight_units(a));
    let wb = weight_in_eighths(weight_units(b));
    let sa = style_precedence_index(a.style);
    let sb = style_precedence_index(b.style);
    let (a0, a1, a2) = colour_luminance(a);
    let (b0, b1, b2) = colour_luminance(b);
    wa < wb || (wa == wb && (sb < sa || (sb == sa && (b0 < a0 || (b0 == a0 && (b1 < a1 || (b1 == a1
        && (b2 < a2 || (b2 == a2 && a.width.units < b.width.units)))))))))
}

/// The border that an edge gets between two cells: a border wins over none, the
/// greater of two borders wins, and where neither side has one, an edge that
/// was emptied on purpose stays so.
pub open spec fn conflict_winner(a: CellEdge, b: CellEdge) -> CellEdge {
    match (a, b) {
        (CellEdge::Line(la), CellEdge::Line(lb)) => if outranked(la, lb) {
            b
        } else {
            a
        },
        (CellEdge::Line(_), _) => a,
        (_, CellEdge::Line(_)) => b,
        (CellEdge::Absent, CellEdge::Absent) => CellEdge::Absent,
        _ => CellEdge::Suppressed,
    }
}

fn eighths(b: TableBorderLine) -> (r: i128)
    ensures
        r == weight_in_eighths(weight_units(b)),
        0 <= r <= 0x1_0000_0000_0000_0000,
{
    let weight: i128 = border_weight(&b);
    let top: i128 = 2 * weight + 9525;
    assert(top == 2 * weight_units(b) + UNITS_PER_EIGHTH);
    if top < 0 {
        assert((top as int) / 19050 < 0);
        0
    } else {
        top / 19050
    }
}

fn is_outranked(a: TableBorderLine, b: TableBorderLine) -> (r: bool)
    ensures
        r == outranked(a, b),
{
    let wa: i128 = eighths(a);
    let wb: i128 = eighths(b);
    if wa != wb {
        return wa < wb;
    }
    let sa: u8 = style_precedence_index(a.style);
    let sb: u8 = style_precedence_index(b.style);
    if sa != sb {
        return sb < sa;
    }
    let (a0, a1, a2) = colour_luminance(a);
    let (b0, b1, b2) = colour_luminance(b);
    if a0 != b0 {
        return b0 < a0;
    }
    if a1 != b1 {
        return b1 < a1;
    }
    if a2 != b2 {
        return b2 < a2;
    }
    a.width.units < b.width.units
}

/// Resolve a conflict between two borders on a shared edge.
///
/// Greater weight (width times style number, in eighths of a point) wins; then
/// a single line over a double one; then the darker colour. An edge without a
/// border yields to one with a border, whether it was emptied on purpose or not.
/// Which side of the edge a border came from never matters.
pub fn resolve_border_conflict(a: CellEdge, b: CellEdge) -> (r: CellEdge)
    ensures
        r == conflict_winner(a, b),
{
    match (a, b) {
        (CellEdge::Line(la), CellEdge::Line(lb)) => if is_outranked(la, lb) {
            b
        } else {
            a
        },
        (CellEdge::Line(_), _) => a,
        (_, CellEdge::Line(_)) => b,
        (CellEdge::Absent, CellEdge::Absent) => CellEdge::Absent,
        _ => CellEdge::Suppressed,
    }
}

/// The border that an edge gets does not depend on the order of its two sides.
pub proof fn law_conflict_is_symmetric(a: CellEdge, b: CellEdge)
    ensures
        conflict_winner(a, b) == conflict_winner(b, a),
{
}

/// An edge on which both sides agree keeps what they say.
pub proof fn law_conflict_is_idempotent(a: CellEdge)
    ensures
        conflict_winner(a, a) == a,
{
}

/// Of three borders that meet, the same one wins in whatever order they meet.
pub proof fn law_conflict_is_associative(a: CellEdge, b: CellEdge, c: CellEdge)
    ensures
        conflict_winner(conflict_winner(a, b), c) == conflict_winner(a, conflict_winner(b, c)),
{
}

/// An edge is painted exactly where one of its sides has a border, and with
/// the border of one of them.
pub proof fn law_conflict_paints_what_a_side_asks_for(a: CellEdge, b: CellEdge)
    ensures
        conflict_winner(a, b).line() is Some <==> (a.line() is Some || b.line() is Some),
        conflict_winner(a, b) == a || conflict_winner(a, b) == b,
{
}

/// Width of the line that an edge paints, or zero where it paints none.
#[verifier::allow_in_spec]
pub fn border_width(b: CellEdge) -> Pt
    returns
        (match b {
            CellEdge::Line(l) => l.width,
            _ => Pt::zero(),
        }),
{
    match b {
        CellEdge::Line(l) => l.width,
        _ => Pt::zero(),
    }
}

/// The rectangles that draw a border over `rect`: one for a single line, the two
/// outer thirds for a double one.
pub open spec fn border_rects(
    b: TableBorderLine,
    rect: PtRect,
    is_horizontal: bool,
) -> Seq<DrawCommand> {
    match b.style {
        TableBorderStyle::Single => seq![DrawCommand::Rect { rect, color: b.color }],
        TableBorderStyle::Double => {
            let sub = b.width.third();
            if is_horizontal {
                seq![
                    DrawCommand::Rect {
                        rect: PtRect::from_xywh(
                            rect.origin.x,
                            rect.origin.y,
                            rect.size.width,
                            sub,
                        ),
                        color: b.color,
                    },
                    DrawCommand::Rect {
                        rect: PtRect::from_xywh(
                            rect.origin.x,
                            rect.origin.y.plus(rect.size.height).minus(sub),
                            rect.size.width,
                            sub,
                        ),
                        color: b.color,
                    },
                ]
            } else {
                seq![
                    DrawCommand::Rect {
                        rect: PtRect::from_xywh(
                            rect.origin.x,
                            rect.origin.y,
                            sub,
                            rect.size.height,
                        ),
                        color: b.color,
                    },
                    DrawCommand::Rect {
                        rect: PtRect::from_xywh(
                            rect.origin.x.plus(rect.size.width).minus(sub),
                            rect.origin.y,
                            sub,
                            rect.size.height,
                        ),
                        color: b.color,
                    },
                ]
            }
        },
    }
}

fn emit_border_rect(
    commands: &mut Vec<DrawCommand>,
    b: TableBorderLine,
    rect: PtRect,
    is_horizontal: bool,
)
    ensures
        final(commands)@ == old(commands)@ + border_rects(b, rect, is_horizontal),
{
    match b.style {
        TableBorderStyle::Single => {
            commands.push(DrawCommand::Rect { rect, color: b.color });
        },
        TableBorderStyle::Double => {
            let sub = b.width.third();
            if is_horizontal {
                commands.push(
                    DrawCommand::Rect {
                        rect: PtRect::from_xywh(
                            rect.origin.x,
                            rect.origin.y,
                            rect.size.width,
                            sub,
                        ),
                        color: b.color,
                    },
                );
                commands.push(
                    DrawCommand::Rect {
                        rect: PtRect::from_xywh(
                            rect.origin.x,
                            rect.origin.y.plus(rect.size.height).minus(sub),
                            rect.size.width,
                            sub,
                        ),
                        color: b.color,
                    },
                );
            } else {
                commands.push(
                    DrawCommand::Rect {
                        rect: PtRect::from_xywh(
                            rect.origin.x,
                            rect.origin.y,
                            sub,
                            rect.size.height,
                        ),
                        color: b.color,
                    },
                );
                commands.push(
                    DrawCommand::Rect {
                        rect: PtRect::from_xywh(
                            rect.origin.x.plus(rect.size.width).minus(sub),
                            rect.origin.y,
                            sub,
                            rect.size.height,
                        ),
                        color: b.color,
                    },
                );
            }
        },
    }
    assert(commands@ =~= old(commands)@ + border_rects(b, rect, is_horizontal));
}

/// The commands that draw one edge, if it paints at all.
pub open spec fn edge_commands(e: CellEdge, rect: PtRect, is_horizontal: bool) -> Seq<DrawCommand> {
    match e {
        CellEdge::Line(line) => border_rects(line, rect, is_horizontal),
        _ => Seq::empty(),
    }
}

/// The commands that draw a cell's borders, inward from the cell's edges. The
/// top and bottom borders take the corners; the side borders fill the height
/// between them, if there is any.
pub open spec fn cell_border_commands(
    b: CellBorders,
    cell_x: Pt,
    cell_w: Pt,
    row_y: Pt,
    row_h: Pt,
) -> Seq<DrawCommand> {
    let top_w = border_width(b.top);
    let bottom_w = border_width(b.bottom);
    let left_w = border_width(b.left);
    let right_w = border_width(b.right);
    let inner = row_h.minus(top_w).minus(bottom_w);
    let horizontal = edge_commands(b.top, PtRect::from_xywh(cell_x, row_y, cell_w, top_w), true)
        + edge_commands(
        b.bottom,
        PtRect::from_xywh(cell_x, row_y.plus(row_h).minus(bottom_w), cell_w, bottom_w),
        true,
    );
    if inner.units > 0 {
        horizontal + edge_commands(
            b.left,
            PtRect::from_xywh(cell_x, row_y.plus(top_w), left_w, inner),
            false,
        ) + edge_commands(
            b.right,
            PtRect::from_xywh(
                cell_x.plus(cell_w).minus(right_w),
                row_y.plus(top_w),
                right_w,
                inner,
            ),
            false,
        )
    } else {
        horizontal
    }
}

fn emit_edge(commands: &mut Vec<DrawCommand>, e: CellEdge, rect: PtRect, is_horizontal: bool)
    ensures
        final(commands)@ == old(commands)@ + edge_commands(e, rect, is_horizontal),
{
    if let CellEdge::Line(line) = e {
        emit_border_rect(commands, line, rect, is_horizontal);
    } else {
        assert(commands@ =~= old(commands)@ + Seq::<DrawCommand>::empty());
    }
}

/// Draw all four borders of a cell as filled rectangles.
pub fn emit_cell_borders(
    commands: &mut Vec<DrawCommand>,
    b: CellBorders,
    cell_x: Pt,
    cell_w: Pt,
    row_y: Pt,
    row_h: Pt,
)
    ensures
        final(commands)@ == old(commands)@ + cell_border_commands(b, cell_x, cell_w, row_y, row_h),
{
    let top_w = border_width(b.top);
    let bottom_w = border_width(b.bottom);
    let left_w = border_width(b.left);
    let right_w = border_width(b.right);
    let ghost start = commands@;
    emit_edge(commands, b.top, PtRect::from_xywh(cell_x, row_y, cell_w, top_w), true);
    emit_edge(
        commands,
        b.bottom,
        PtRect::from_xywh(cell_x, row_y.plus(row_h).minus(bottom_w), cell_w, bottom_w),
        true,
    );
    let inner = row_h.minus(top_w).minus(bottom_w);
    if inner.units > 0 {
        emit_edge(
            commands,
            b.left,
            PtRect::from_xywh(cell_x, row_y.plus(top_w), left_w, inner),
            false,
        );
        emit_edge(
            commands,
            b.right,
            PtRect::from_xywh(
                cell_x.plus(cell_w).minus(right_w),
                row_y.plus(top_w),
                right_w,
                inner,
            ),
            false,
        );
    }
    proof {
        let top = edge_commands(b.top, PtRect::from_xywh(cell_x, row_y, cell_w, top_w), true);
        let bottom = edge_commands(
            b.bottom,
            PtRect::from_xywh(cell_x, row_y.plus(row_h).minus(bottom_w), cell_w, bottom_w),
            true,
        );
        let left = edge_commands(
            b.left,
            PtRect::from_xywh(cell_x, row_y.plus(top_w), left_w, inner),
            false,
        );
        let right = edge_commands(
            b.right,
            PtRect::from_xywh(
                cell_x.plus(cell_w).minus(right_w),
                row_y.plus(top_w),
                right_w,
                inner,
            ),
            false,
        );
        lemma_concat(start, top, bottom, left, right);
    }
}

proof fn lemma_concat(
    s: Seq<DrawCommand>,
    a: Seq<DrawCommand>,
    b: Seq<DrawCommand>,
    c: Seq<DrawCommand>,
    d: Seq<DrawCommand>,
)
    ensures
        s + a + b == s + (a + b),
        s + a + b + c + d == s + (a + b + c + d),
{
    assert(s + a + b =~= s + (a + b));
    assert(s + a + b + c + d =~= s + (a + b + c + d));
}

} // verus!
