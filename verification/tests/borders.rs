//! Border conflicts and borders as they are drawn.
use dxpdf::block::{
    CellVAlign, LayoutBlock, TableBorderConfig, TableBorderLine, TableBorderStyle, TableCellInput,
    TableRowInput,
};
use dxpdf::draw_command::{DrawCommand, FontId, RgbColor, TextId};
use dxpdf::fragment::{AutoLineSpacingContribution, FontProps, Fragment, TextMetrics};
use dxpdf::geometry::PtEdgeInsets;
use dxpdf::style::ParagraphStyle;
use dxpdf::table::borders::{
    border_weight, colour_luminance, resolve_border_conflict, resolve_cell_effective_borders, CellEdge,
};
use dxpdf::table::TableLayout;
use dxpdf::dimension::Pt;

/// Lengths in points, as floating-point numbers.
trait PointLength: Sized {
    const ZERO: Self;
    const INFINITY: Self;
    fn new(points: f32) -> Self;
    fn raw(self) -> f32;
}

impl PointLength for Pt {
    const ZERO: Pt = Pt { units: 0 };
    const INFINITY: Pt = Pt { units: i64::MAX };

    fn new(points: f32) -> Pt {
        Pt { units: (points as f64 * 76200.0).round() as i64 }
    }

    fn raw(self) -> f32 {
        (self.units as f64 / 76200.0) as f32
    }
}

trait NamedColors {
    const BLACK: Self;
}

impl NamedColors for RgbColor {
    const BLACK: RgbColor = RgbColor { r: 0, g: 0, b: 0 };
}

trait NoInsets {
    const ZERO: Self;
}

impl NoInsets for PtEdgeInsets {
    const ZERO: PtEdgeInsets = PtEdgeInsets {
        top: Pt { units: 0 },
        right: Pt { units: 0 },
        bottom: Pt { units: 0 },
        left: Pt { units: 0 },
    };
}

/// A number for a text.
fn id(text: &str) -> TextId {
    let mut hash: u64 = 0xcbf2_9ce4_8422_2325;
    for byte in text.bytes() {
        hash = (hash ^ byte as u64).wrapping_mul(0x0000_0100_0000_01b3);
    }
    TextId { id: hash }
}

fn font() -> FontProps {
    FontProps {
        font: FontId { id: 1 },
        size: Pt::new(12.0),
        underline: false,
        auto_line_spacing: AutoLineSpacingContribution::Scaled,
    }
}

fn text_frag(text: &str, width: f32) -> Fragment {
    Fragment::Text {
        text: id(text),
        blank: text.trim().is_empty(),
        font: font(),
        color: RgbColor::BLACK,
        width: Pt::new(width),
        trimmed_width: Pt::new(width),
        metrics: TextMetrics {
            ascent: Pt::new(10.0),
            descent: Pt::new(4.0),
            leading: Pt::ZERO,
        },
        baseline_offset: Pt::ZERO,
        is_footnote_ref: false,
    }
}

fn layout_table(
    rows: &[TableRowInput],
    col_widths: &[Pt],
    cell_spacing: Pt,
    default_line_height: Pt,
    borders: Option<&TableBorderConfig>,
    _measure_text: Option<()>,
    suppress_first_row_top: bool,
) -> TableLayout {
    dxpdf::table::layout_table(
        rows,
        col_widths,
        cell_spacing,
        default_line_height,
        borders.copied(),
        suppress_first_row_top,
    )
}

fn simple_cell(text: &str) -> TableCellInput {
    TableCellInput {
        blocks: vec![LayoutBlock::Paragraph {
            fragments: vec![text_frag(text, 30.0)],
            style: ParagraphStyle::default(),
            page_break_before: false,
            footnotes: vec![],
            floating_images: vec![],
            floating_shapes: vec![],
        }],
        margins: PtEdgeInsets::ZERO,
        grid_span: 1,
        shading: None,
        cell_borders: None,
        vertical_merge: None,
        vertical_align: CellVAlign::Top,
    }
}

#[test]
fn borders_emit_lines() {
    let rows = vec![TableRowInput {
        cells: vec![simple_cell("a"), simple_cell("b")],
        height_rule: None,
        is_header: None,
        cant_split: None,
        grid_before: 0,
        border_overrides: None,
    }];
    let col_widths = vec![Pt::new(100.0), Pt::new(100.0)];
    let result = layout_table(
        &rows,
        &col_widths,
        Pt::ZERO,
        Pt::new(14.0),
        Some(&TableBorderConfig {
            top: Some(TableBorderLine {
                width: Pt::new(0.5),
                color: RgbColor::BLACK,
                style: TableBorderStyle::Single,
            }),
            bottom: Some(TableBorderLine {
                width: Pt::new(0.5),
                color: RgbColor::BLACK,
                style: TableBorderStyle::Single,
            }),
            left: Some(TableBorderLine {
                width: Pt::new(0.5),
                color: RgbColor::BLACK,
                style: TableBorderStyle::Single,
            }),
            right: Some(TableBorderLine {
                width: Pt::new(0.5),
                color: RgbColor::BLACK,
                style: TableBorderStyle::Single,
            }),
            inside_h: Some(TableBorderLine {
                width: Pt::new(0.5),
                color: RgbColor::BLACK,
                style: TableBorderStyle::Single,
            }),
            inside_v: Some(TableBorderLine {
                width: Pt::new(0.5),
                color: RgbColor::BLACK,
                style: TableBorderStyle::Single,
            }),
        }),
        None,
        false,
    );

    let border_rect_count = result
        .commands
        .iter()
        .filter(|c| matches!(c, DrawCommand::Rect { color, .. } if *color == RgbColor::BLACK))
        .count();
    assert_eq!(border_rect_count, 7);
}

#[test]
fn row_border_override_replaces_table_borders_for_that_row() {
    let single = TableBorderLine {
        width: Pt::new(0.5),
        color: RgbColor::BLACK,
        style: TableBorderStyle::Single,
    };
    let all_single = TableBorderConfig {
        top: Some(single),
        bottom: Some(single),
        left: Some(single),
        right: Some(single),
        inside_h: Some(single),
        inside_v: Some(single),
    };
    let no_borders = TableBorderConfig {
        top: None,
        bottom: None,
        left: None,
        right: None,
        inside_h: None,
        inside_v: None,
    };
    let rows = vec![
        TableRowInput {
            cells: vec![simple_cell("opt-out")],
            height_rule: None,
            is_header: None,
            cant_split: None,
            grid_before: 0,
            border_overrides: Some(no_borders),
        },
        TableRowInput {
            cells: vec![simple_cell("normal")],
            height_rule: None,
            is_header: None,
            cant_split: None,
            grid_before: 0,
            border_overrides: None,
        },
    ];
    let col_widths = vec![Pt::new(100.0)];
    let result = layout_table(
        &rows,
        &col_widths,
        Pt::ZERO,
        Pt::new(14.0),
        Some(&all_single),
        None,
        false,
    );

    let border_rects: Vec<_> = result
        .commands
        .iter()
        .filter_map(|c| match c {
            DrawCommand::Rect { rect, color } if *color == RgbColor::BLACK => Some(*rect),
            _ => None,
        })
        .collect();

    let row_0_height = Pt::new(14.0);
    let interior_eps = Pt::new(0.1);
    let interior_top = interior_eps;
    let interior_bottom = row_0_height - interior_eps;
    for rect in &border_rects {
        let r_top = rect.origin.y;
        let r_bottom = rect.origin.y + rect.size.height;
        let entirely_inside = r_top >= interior_top && r_bottom <= interior_bottom;
        assert!(
            !entirely_inside,
            "row 0 (border-override = all None) must not host a \
             black border rect strictly inside its content area; got rect \
             y=[{:.2}..{:.2}] (interior was ({:.2}..{:.2}))",
            r_top.raw(),
            r_bottom.raw(),
            interior_top.raw(),
            interior_bottom.raw(),
        );
    }
}

const BLACK: RgbColor = RgbColor { r: 0, g: 0, b: 0 };
const PALE: RgbColor = RgbColor {
    r: 220,
    g: 220,
    b: 220,
};

fn line(width: f32, style: TableBorderStyle, color: RgbColor) -> TableBorderLine {
    TableBorderLine {
        width: Pt::new(width),
        color,
        style,
    }
}

fn sample_borders() -> Vec<TableBorderLine> {
    let mut v = Vec::new();
    for &w in &[0.5f32, 1.0, 2.0, 3.0, 6.0] {
        for &s in &[TableBorderStyle::Single, TableBorderStyle::Double] {
            for &c in &[BLACK, PALE] {
                v.push(line(w, s, c));
            }
        }
    }
    v
}

#[test]
fn resolution_is_independent_of_argument_order() {
    let borders = sample_borders();
    for a in &borders {
        for b in &borders {
            let ab = resolve_border_conflict(CellEdge::Line(*a), CellEdge::Line(*b));
            let ba = resolve_border_conflict(CellEdge::Line(*b), CellEdge::Line(*a));
            assert_eq!(
                (ab.line().map(|x| (x.width, x.style, x.color))),
                (ba.line().map(|x| (x.width, x.style, x.color))),
                "order-dependent for {a:?} vs {b:?}"
            );
        }
    }
}

#[test]
fn heavier_weight_wins() {
    let thin = line(0.5, TableBorderStyle::Single, BLACK);
    let thick = line(2.0, TableBorderStyle::Single, BLACK);
    assert_eq!(
        resolve_border_conflict(CellEdge::Line(thin), CellEdge::Line(thick))
            .line()
            .map(|b| b.width),
        Some(Pt::new(2.0))
    );
    assert_eq!(
        resolve_border_conflict(CellEdge::Line(thick), CellEdge::Line(thin))
            .line()
            .map(|b| b.width),
        Some(Pt::new(2.0))
    );
}

#[test]
fn equal_weight_prefers_the_earlier_style_in_the_precedence_list() {
    let single = line(3.0, TableBorderStyle::Single, BLACK);
    let double = line(1.0, TableBorderStyle::Double, BLACK);
    assert_eq!(
        border_weight(&single),
        border_weight(&double),
        "same weight"
    );

    for (a, b) in [(single, double), (double, single)] {
        assert_eq!(
            resolve_border_conflict(CellEdge::Line(a), CellEdge::Line(b))
                .line()
                .map(|x| x.style),
            Some(TableBorderStyle::Single),
            "Single is earlier in the precedence list, so it wins at equal weight"
        );
    }
}

#[test]
fn precedence_does_not_override_weight() {
    let single = line(1.0, TableBorderStyle::Single, BLACK);
    let double = line(1.0, TableBorderStyle::Double, BLACK);
    assert!(
        border_weight(&double) > border_weight(&single),
        "equal width, double is heavier"
    );

    for (a, b) in [(single, double), (double, single)] {
        assert_eq!(
            resolve_border_conflict(CellEdge::Line(a), CellEdge::Line(b))
                .line()
                .map(|x| x.style),
            Some(TableBorderStyle::Double),
            "the heavier border wins outright, regardless of precedence"
        );
    }
}

#[test]
fn equal_weight_and_style_prefers_the_darker_colour() {
    let dark = line(1.0, TableBorderStyle::Single, BLACK);
    let pale = line(1.0, TableBorderStyle::Single, PALE);
    for (a, b) in [(dark, pale), (pale, dark)] {
        assert_eq!(
            resolve_border_conflict(CellEdge::Line(a), CellEdge::Line(b))
                .line()
                .map(|x| x.color),
            Some(BLACK),
            "darker colour wins regardless of argument order"
        );
    }
}

#[test]
fn darkness_tie_breaks_on_the_secondary_keys() {
    let a = line(
        1.0,
        TableBorderStyle::Single,
        RgbColor { r: 100, g: 0, b: 0 },
    );
    let b = line(
        1.0,
        TableBorderStyle::Single,
        RgbColor { r: 0, g: 0, b: 100 },
    );
    assert_eq!(
        colour_luminance(a).0,
        colour_luminance(b).0,
        "primary key ties"
    );
    let winner = resolve_border_conflict(CellEdge::Line(a), CellEdge::Line(b))
        .line()
        .expect("some");
    assert_eq!(winner.color, RgbColor { r: 100, g: 0, b: 0 });
    assert_eq!(
        resolve_border_conflict(CellEdge::Line(b), CellEdge::Line(a))
            .line()
            .map(|x| x.color),
        Some(RgbColor { r: 100, g: 0, b: 0 })
    );
}

#[test]
fn absent_yields_to_present() {
    let some = line(1.0, TableBorderStyle::Single, BLACK);
    assert_eq!(
        resolve_border_conflict(CellEdge::Absent, CellEdge::Line(some))
            .line()
            .map(|b| b.width),
        Some(Pt::new(1.0))
    );
    assert_eq!(
        resolve_border_conflict(CellEdge::Line(some), CellEdge::Absent)
            .line()
            .map(|b| b.width),
        Some(Pt::new(1.0))
    );
    assert_eq!(
        resolve_border_conflict(CellEdge::Absent, CellEdge::Absent),
        CellEdge::Absent
    );
}

#[test]
fn nil_yields_to_the_facing_border() {
    let hair = line(0.25, TableBorderStyle::Single, BLACK);
    for (a, b) in [
        (CellEdge::Suppressed, CellEdge::Line(hair)),
        (CellEdge::Line(hair), CellEdge::Suppressed),
    ] {
        assert_eq!(
            resolve_border_conflict(a, b).line(),
            Some(hair),
            "the facing border must survive the nil: {a:?} vs {b:?}"
        );
    }
}

#[test]
fn nil_stays_suppressed_when_nothing_faces_it() {
    for (a, b) in [
        (CellEdge::Suppressed, CellEdge::Absent),
        (CellEdge::Absent, CellEdge::Suppressed),
        (CellEdge::Suppressed, CellEdge::Suppressed),
    ] {
        assert_eq!(
            resolve_border_conflict(a, b),
            CellEdge::Suppressed,
            "suppression must survive where nothing paints: {a:?} vs {b:?}"
        );
    }
    assert_eq!(
        resolve_border_conflict(CellEdge::Absent, CellEdge::Absent),
        CellEdge::Absent,
        "but two silent edges stay restorable"
    );
}

#[test]
fn an_absent_edge_never_suppresses() {
    let border = line(1.0, TableBorderStyle::Single, BLACK);
    assert_eq!(
        resolve_border_conflict(CellEdge::Absent, CellEdge::Line(border)),
        CellEdge::Line(border),
        "absent (which is what `none` becomes) must yield, not suppress"
    );
}

#[test]
fn identical_borders_resolve_to_themselves() {
    for b in sample_borders() {
        let r = resolve_border_conflict(CellEdge::Line(b), CellEdge::Line(b))
            .line()
            .expect("some");
        assert_eq!((r.width, r.style, r.color), (b.width, b.style, b.color));
    }
}

const TOP: f32 = 1.0;
const BOTTOM: f32 = 2.0;
const LEFT: f32 = 3.0;
const RIGHT: f32 = 4.0;
const INSIDE_H: f32 = 5.0;
const INSIDE_V: f32 = 6.0;

fn edge(width: f32) -> Option<TableBorderLine> {
    Some(TableBorderLine {
        width: Pt::new(width),
        color: RgbColor::BLACK,
        style: TableBorderStyle::Single,
    })
}

fn config() -> TableBorderConfig {
    TableBorderConfig {
        top: edge(TOP),
        bottom: edge(BOTTOM),
        left: edge(LEFT),
        right: edge(RIGHT),
        inside_h: edge(INSIDE_H),
        inside_v: edge(INSIDE_V),
    }
}

fn plain_cell() -> TableCellInput {
    TableCellInput {
        blocks: vec![],
        margins: PtEdgeInsets::ZERO,
        grid_span: 1,
        shading: None,
        cell_borders: None,
        vertical_merge: None,
        vertical_align: CellVAlign::Top,
    }
}

fn widths(
    row_idx: usize,
    grid_col: usize,
    num_rows: usize,
    num_grid_cols: usize,
) -> (Option<f32>, Option<f32>, Option<f32>, Option<f32>) {
    let edges = resolve_cell_effective_borders(
        &plain_cell(),
        Some(config()),
        row_idx,
        grid_col,
        1,
        num_rows,
        num_grid_cols,
    );
    let w = |e: CellEdge| e.line().map(|e| e.width.raw());
    (w(edges.top), w(edges.bottom), w(edges.left), w(edges.right))
}

#[test]
fn outer_edges_use_outer_borders_and_interior_edges_use_inside() {
    assert_eq!(
        widths(0, 0, 3, 3),
        (Some(TOP), Some(INSIDE_H), Some(LEFT), Some(INSIDE_V)),
        "top-left cell"
    );
    assert_eq!(
        widths(1, 1, 3, 3),
        (
            Some(INSIDE_H),
            Some(INSIDE_H),
            Some(INSIDE_V),
            Some(INSIDE_V)
        ),
        "centre cell"
    );
    assert_eq!(
        widths(2, 2, 3, 3),
        (Some(INSIDE_H), Some(BOTTOM), Some(INSIDE_V), Some(RIGHT)),
        "bottom-right cell"
    );
}

#[test]
fn a_one_cell_table_takes_all_four_outer_borders() {
    assert_eq!(
        widths(0, 0, 1, 1),
        (Some(TOP), Some(BOTTOM), Some(LEFT), Some(RIGHT))
    );
}

#[test]
fn an_empty_table_does_not_underflow_the_last_row_check() {
    assert_eq!(
        widths(0, 0, 0, 3),
        (Some(TOP), Some(INSIDE_H), Some(LEFT), Some(INSIDE_V))
    );
}
