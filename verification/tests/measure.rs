//! Border resolution, cell spacing and row heights.
use dxpdf::block::{
    CellBorderConfig, CellBorderOverride, CellVAlign, TableBorderConfig, TableBorderLine,
    TableBorderStyle, TableCellInput, TableRowInput,
};
use dxpdf::draw_command::RgbColor;
use dxpdf::geometry::PtEdgeInsets;
use dxpdf::table::borders::CellEdge;
use dxpdf::table::types::MeasuredTable;
use dxpdf::dimension::Pt;

/// Lengths in points, as floating-point numbers.
trait PointLength: Sized {
    const ZERO: Self;
    const INFINITY: Self;
    fn new(points: f32) -> Self;
    fn raw(self) -> f32;
}

impl PointLength for Pt {
    const ZERO: Pt = Pt { units: 0 };
    const INFINITY: Pt = Pt { units: i64::MAX };

    fn new(points: f32) -> Pt {
        Pt { units: (points as f64 * 76200.0).round() as i64 }
    }

    fn raw(self) -> f32 {
        (self.units as f64 / 76200.0) as f32
    }
}

trait NamedColors {
    const BLACK: Self;
}

impl NamedColors for RgbColor {
    const BLACK: RgbColor = RgbColor { r: 0, g: 0, b: 0 };
}

trait NoInsets {
    const ZERO: Self;
}

impl NoInsets for PtEdgeInsets {
    const ZERO: PtEdgeInsets = PtEdgeInsets {
        top: Pt { units: 0 },
        right: Pt { units: 0 },
        bottom: Pt { units: 0 },
        left: Pt { units: 0 },
    };
}

fn measure_table_rows<'a>(
    rows: &'a [TableRowInput],
    col_widths: &[Pt],
    cell_spacing: Pt,
    default_line_height: Pt,
    borders: Option<&TableBorderConfig>,
    _measure_text: Option<()>,
    suppress_first_row_top: bool,
) -> MeasuredTable<'a> {
    dxpdf::table::measure_table_rows(
        rows,
        col_widths,
        cell_spacing,
        default_line_height,
        borders.copied(),
        suppress_first_row_top,
    )
}

fn single(w: f32) -> TableBorderLine {
    TableBorderLine {
        width: Pt::new(w),
        color: RgbColor::BLACK,
        style: TableBorderStyle::Single,
    }
}

fn all_single() -> TableBorderConfig {
    let s = single(0.5);
    TableBorderConfig {
        top: Some(s),
        bottom: Some(s),
        left: Some(s),
        right: Some(s),
        inside_h: Some(s),
        inside_v: Some(s),
    }
}

fn cb(top: Option<CellBorderOverride>, bottom: Option<CellBorderOverride>) -> CellBorderConfig {
    CellBorderConfig {
        top,
        bottom,
        left: None,
        right: None,
    }
}

fn cell(span: u32, borders: Option<CellBorderConfig>) -> TableCellInput {
    TableCellInput {
        blocks: vec![],
        margins: PtEdgeInsets::ZERO,
        grid_span: span,
        shading: None,
        cell_borders: borders,
        vertical_merge: None,
        vertical_align: CellVAlign::Top,
    }
}

fn row(cells: Vec<TableCellInput>) -> TableRowInput {
    TableRowInput {
        cells,
        height_rule: None,
        is_header: None,
        cant_split: None,
        grid_before: 0,
        border_overrides: None,
    }
}

#[test]
fn wide_upper_cell_draws_whole_edge_from_lower_row() {
    let s = single(0.5);
    let heavy = single(2.0);
    let rows = vec![
        row(vec![cell(2, None), cell(1, None), cell(1, None)]),
        row(vec![
            cell(1, None),
            cell(1, Some(cb(Some(CellBorderOverride::Border(heavy)), None))),
            cell(2, None),
        ]),
    ];
    let cols = vec![Pt::new(100.0); 4];
    let m = measure_table_rows(
        &rows,
        &cols,
        Pt::ZERO,
        Pt::new(10.0),
        Some(&all_single()),
        None,
        false,
    );

    for b in &m.rows[0].borders {
        assert_eq!(
            b.bottom,
            CellEdge::Absent,
            "upper bottoms cleared (edge owned below)"
        );
    }
    assert_eq!(
        m.rows[1].borders[0].top.line(),
        Some(s),
        "spacer column keeps the inherited insideH"
    );
    assert_eq!(
        m.rows[1].borders[1].top.line(),
        Some(heavy),
        "Function keeps its heavier top border across the gridSpan mismatch"
    );
    assert_eq!(
        m.rows[1].borders[2].top.line(),
        Some(s),
        "Quality top drawn from the same (lower) side as Function"
    );
}

#[test]
fn nil_suppresses_across_a_gridspan_mismatch() {
    let s = single(0.5);
    let rows = vec![
        row(vec![
            cell(2, Some(cb(None, Some(CellBorderOverride::Suppress)))),
            cell(1, None),
            cell(1, None),
        ]),
        row(vec![
            cell(1, Some(cb(Some(CellBorderOverride::Suppress), None))),
            cell(1, Some(cb(Some(CellBorderOverride::Border(s)), None))),
            cell(2, None),
        ]),
    ];
    let cols = vec![Pt::new(100.0); 4];
    let m = measure_table_rows(
        &rows,
        &cols,
        Pt::ZERO,
        Pt::new(10.0),
        Some(&all_single()),
        None,
        false,
    );

    for b in &m.rows[0].borders {
        assert_eq!(
            b.bottom,
            CellEdge::Absent,
            "upper bottoms cleared — the nil span is not uniform, so the edge is owned below"
        );
    }
    assert_eq!(
        m.rows[1].borders[0].top,
        CellEdge::Suppressed,
        "column 0: nil against nil stays suppressed"
    );
    assert_eq!(
        m.rows[1].borders[1].top.line(),
        Some(s),
        "column 1: Function has a top of its own, so the nil above does not erase it"
    );
    assert_eq!(m.rows[1].borders[2].top.line(), Some(s));
}

#[test]
fn a_uniform_run_is_not_split_by_absent_versus_suppressed() {
    let hair = single(0.5);
    let borders = TableBorderConfig {
        top: Some(hair),
        bottom: Some(hair),
        left: Some(hair),
        right: Some(hair),
        inside_h: None,
        inside_v: Some(hair),
    };
    let rows = vec![
        row(vec![cell(2, None)]),
        row(vec![
            cell(1, Some(cb(Some(CellBorderOverride::Suppress), None))),
            cell(1, None),
        ]),
    ];
    let cols = vec![Pt::new(100.0), Pt::new(100.0)];
    let m = measure_table_rows(
        &rows,
        &cols,
        Pt::ZERO,
        Pt::new(10.0),
        Some(&borders),
        None,
        false,
    );

    assert_eq!(
        m.rows[0].borders[0].bottom,
        CellEdge::Suppressed,
        "the wide cell owns the whole edge, carrying the suppression"
    );
    assert_eq!(
        m.rows[1].borders[0].top,
        CellEdge::Absent,
        "so the lower row's tops are cleared"
    );
    assert_eq!(m.rows[1].borders[1].top, CellEdge::Absent);
}

#[test]
fn nil_spacer_cannot_punch_a_gap_through_a_wide_facing_cell() {
    let s = single(0.5);
    let rows = vec![
        row(vec![
            cell(1, None),
            cell(1, Some(cb(None, Some(CellBorderOverride::Suppress)))),
            cell(1, None),
        ]),
        row(vec![cell(3, None)]),
    ];
    let cols = vec![Pt::new(100.0), Pt::new(100.0), Pt::new(100.0)];
    let m = measure_table_rows(
        &rows,
        &cols,
        Pt::ZERO,
        Pt::new(10.0),
        Some(&all_single()),
        None,
        false,
    );

    assert_eq!(
        m.rows[0].borders[1].bottom.line(),
        Some(s),
        "the wide cell below still supplies this column's border"
    );
    assert_eq!(m.rows[0].borders[0].bottom.line(), Some(s));
    assert_eq!(m.rows[0].borders[2].bottom.line(), Some(s));
    assert_eq!(m.rows[1].borders[0].top.line(), None);
}

#[test]
fn upper_grid_after_gap_yields_edge_to_lower_row() {
    let s = single(0.5);
    let rows = vec![
        row(vec![cell(2, None)]),
        row(vec![cell(1, None), cell(2, None)]),
    ];
    let cols = vec![Pt::new(100.0); 3];
    let m = measure_table_rows(
        &rows,
        &cols,
        Pt::ZERO,
        Pt::new(10.0),
        Some(&all_single()),
        None,
        false,
    );

    assert_eq!(
        m.rows[0].borders[0].bottom.line(),
        None,
        "upper bottom cleared so the straddling lower cell isn't doubled"
    );
    assert_eq!(m.rows[1].borders[0].top.line(), Some(s));
    assert_eq!(m.rows[1].borders[1].top.line(), Some(s));
}

#[test]
fn aligned_grid_upper_cell_owns_horizontal_edge() {
    let s = single(0.5);
    let rows = vec![
        row(vec![cell(1, None), cell(1, None)]),
        row(vec![cell(1, None), cell(1, None)]),
    ];
    let cols = vec![Pt::new(100.0), Pt::new(100.0)];
    let m = measure_table_rows(
        &rows,
        &cols,
        Pt::ZERO,
        Pt::new(10.0),
        Some(&all_single()),
        None,
        false,
    );
    for ci in 0..2 {
        assert_eq!(m.rows[0].borders[ci].bottom.line(), Some(s));
        assert_eq!(m.rows[1].borders[ci].top.line(), None);
    }
}

#[test]
fn cell_spacing_leaves_a_uniform_gap_and_keeps_the_table_width() {
    let spacing = Pt::new(10.0);
    let slots = vec![Pt::new(45.0), Pt::new(45.0)];
    let rows = vec![row(vec![cell(1, None), cell(1, None)])];
    let m = measure_table_rows(
        &rows,
        &slots,
        spacing,
        Pt::new(10.0),
        Some(&all_single()),
        None,
        false,
    );

    assert_eq!(
        m.table_width,
        Pt::new(100.0),
        "spacing comes out of the table"
    );

    let e = &m.rows[0].entries;
    let left_edge = e[0].cell_x;
    let gap_between = e[1].cell_x - (e[0].cell_x + e[0].cell_w);
    let right_edge = m.table_width - (e[1].cell_x + e[1].cell_w);
    assert_eq!(left_edge, spacing, "gap at the table's left edge");
    assert_eq!(gap_between, spacing, "gap between adjacent cells");
    assert_eq!(right_edge, spacing, "gap at the table's right edge");
}

#[test]
fn a_gridspan_cell_absorbs_the_gaps_it_covers() {
    let spacing = Pt::new(10.0);
    let slots = vec![Pt::new(30.0); 3];
    let rows = vec![
        row(vec![cell(3, None)]),
        row(vec![cell(1, None), cell(1, None), cell(1, None)]),
    ];
    let m = measure_table_rows(
        &rows,
        &slots,
        spacing,
        Pt::new(10.0),
        Some(&all_single()),
        None,
        false,
    );

    let wide = &m.rows[0].entries[0];
    let narrow = &m.rows[1].entries;
    assert_eq!(wide.cell_x, spacing);
    assert_eq!(wide.cell_w, Pt::new(80.0), "spans 90 of slot minus one gap");
    assert_eq!(
        wide.cell_x + wide.cell_w,
        narrow[2].cell_x + narrow[2].cell_w
    );
}

#[test]
fn cell_spacing_separates_rows_vertically() {
    let spacing = Pt::new(6.0);
    let slots = vec![Pt::new(94.0)];
    let rows = vec![row(vec![cell(1, None)]), row(vec![cell(1, None)])];
    let m = measure_table_rows(
        &rows,
        &slots,
        spacing,
        Pt::new(10.0),
        Some(&all_single()),
        None,
        false,
    );

    for r in &m.rows {
        assert_eq!(r.leading_gap, spacing);
        assert_eq!(
            r.border_gap_below,
            Pt::ZERO,
            "no shared edge to reserve for once cells are separated"
        );
    }
    for r in &m.rows {
        assert_eq!(r.height, spacing);
    }
}

#[test]
fn nonzero_cell_spacing_disables_border_collapsing() {
    let slots = vec![Pt::new(45.0), Pt::new(45.0)];
    let rows = vec![
        row(vec![cell(1, None), cell(1, None)]),
        row(vec![cell(1, None), cell(1, None)]),
    ];
    let measure = |spacing: Pt| {
        measure_table_rows(
            &rows,
            &slots,
            spacing,
            Pt::new(10.0),
            Some(&all_single()),
            None,
            false,
        )
    };

    let collapsed = measure(Pt::ZERO);
    assert!(collapsed.rows[0].borders[1].left.line().is_none());
    assert!(collapsed.rows[1].borders[0].top.line().is_none());

    let spaced = measure(Pt::new(8.0));
    for r in &spaced.rows {
        for b in &r.borders {
            assert!(b.left.line().is_some(), "left kept");
            assert!(b.right.line().is_some(), "right kept");
            assert!(b.top.line().is_some(), "top kept");
            assert!(b.bottom.line().is_some(), "bottom kept");
        }
    }
}
