//! Drawing of measured rows.
use dxpdf::block::{
    CellBorderConfig, CellBorderOverride, CellVAlign, LayoutBlock, TableBorderConfig,
    TableBorderLine, TableBorderStyle, TableCellInput, TableRowInput, VerticalMergeState,
};
use dxpdf::draw_command::{DrawCommand, FontId, RgbColor, TextId};
use dxpdf::fragment::{AutoLineSpacingContribution, FontProps, Fragment, TextMetrics};
use dxpdf::geometry::{PtEdgeInsets, PtSize};
use dxpdf::style::ParagraphStyle;
use dxpdf::table::emit::{emit_table_rows, TableCommandBuffers};
use dxpdf::table::types::MeasuredTable;
use dxpdf::table::{TableLayout, TablePaginationConfig, TableSlice};
use dxpdf::dimension::Pt;

/// Lengths in points, as floating-point numbers.
trait PointLength: Sized {
    const ZERO: Self;
    const INFINITY: Self;
    fn new(points: f32) -> Self;
    fn raw(self) -> f32;
}

impl PointLength for Pt {
    const ZERO: Pt = Pt { units: 0 };
    const INFINITY: Pt = Pt { units: i64::MAX };

    fn new(points: f32) -> Pt {
        Pt { units: (points as f64 * 76200.0).round() as i64 }
    }

    fn raw(self) -> f32 {
        (self.units as f64 / 76200.0) as f32
    }
}

trait NamedColors {
    const BLACK: Self;
}

impl NamedColors for RgbColor {
    const BLACK: RgbColor = RgbColor { r: 0, g: 0, b: 0 };
}

trait NoInsets {
    const ZERO: Self;
}

impl NoInsets for PtEdgeInsets {
    const ZERO: PtEdgeInsets = PtEdgeInsets {
        top: Pt { units: 0 },
        right: Pt { units: 0 },
        bottom: Pt { units: 0 },
        left: Pt { units: 0 },
    };
}

/// A number for a text.
fn id(text: &str) -> TextId {
    let mut hash: u64 = 0xcbf2_9ce4_8422_2325;
    for byte in text.bytes() {
        hash = (hash ^ byte as u64).wrapping_mul(0x0000_0100_0000_01b3);
    }
    TextId { id: hash }
}

fn font() -> FontProps {
    FontProps {
        font: FontId { id: 1 },
        size: Pt::new(12.0),
        underline: false,
        auto_line_spacing: AutoLineSpacingContribution::Scaled,
    }
}

fn text_frag(text: &str, width: f32) -> Fragment {
    Fragment::Text {
        text: id(text),
        blank: text.trim().is_empty(),
        font: font(),
        color: RgbColor::BLACK,
        width: Pt::new(width),
        trimmed_width: Pt::new(width),
        metrics: TextMetrics {
            ascent: Pt::new(10.0),
            descent: Pt::new(4.0),
            leading: Pt::ZERO,
        },
        baseline_offset: Pt::ZERO,
        is_footnote_ref: false,
    }
}

fn layout_table(
    rows: &[TableRowInput],
    col_widths: &[Pt],
    cell_spacing: Pt,
    default_line_height: Pt,
    borders: Option<&TableBorderConfig>,
    _measure_text: Option<()>,
    suppress_first_row_top: bool,
) -> TableLayout {
    dxpdf::table::layout_table(
        rows,
        col_widths,
        cell_spacing,
        default_line_height,
        borders.copied(),
        suppress_first_row_top,
    )
}

fn measure_table_rows<'a>(
    rows: &'a [TableRowInput],
    col_widths: &[Pt],
    cell_spacing: Pt,
    default_line_height: Pt,
    borders: Option<&TableBorderConfig>,
    _measure_text: Option<()>,
    suppress_first_row_top: bool,
) -> MeasuredTable<'a> {
    dxpdf::table::measure_table_rows(
        rows,
        col_widths,
        cell_spacing,
        default_line_height,
        borders.copied(),
        suppress_first_row_top,
    )
}

fn layout_table_paginated<'a>(
    rows: &'a [TableRowInput],
    col_widths: &[Pt],
    cell_spacing: Pt,
    default_line_height: Pt,
    borders: Option<&TableBorderConfig>,
    _measure_text: Option<()>,
    pagination: &TablePaginationConfig,
) -> Vec<TableSlice<'a>> {
    dxpdf::table::layout_table_paginated(
        rows,
        col_widths,
        cell_spacing,
        default_line_height,
        borders.copied(),
        pagination,
    )
}

const GREY: RgbColor = RgbColor {
    r: 200,
    g: 200,
    b: 200,
};

fn cell(
    n_lines: usize,
    vmerge: Option<VerticalMergeState>,
    shading: Option<RgbColor>,
) -> TableCellInput {
    TableCellInput {
        blocks: (0..n_lines)
            .map(|i| LayoutBlock::Paragraph {
                fragments: vec![text_frag(&format!("L{i}"), 30.0)],
                style: ParagraphStyle::default(),
                page_break_before: false,
                footnotes: vec![],
                floating_images: vec![],
                floating_shapes: vec![],
            })
            .collect(),
        margins: PtEdgeInsets::ZERO,
        grid_span: 1,
        shading,
        cell_borders: None,
        vertical_merge: vmerge,
        vertical_align: CellVAlign::Top,
    }
}

fn row(cells: Vec<TableCellInput>) -> TableRowInput {
    TableRowInput {
        cells,
        height_rule: None,
        is_header: None,
        cant_split: None,
        grid_before: 0,
        border_overrides: None,
    }
}

fn shading_rects(commands: &[DrawCommand]) -> Vec<(f32, f32)> {
    commands
        .iter()
        .filter_map(|c| match c {
            DrawCommand::Rect { rect, color } if *color == GREY => {
                Some((rect.origin.y.raw(), rect.size.height.raw()))
            }
            _ => None,
        })
        .collect()
}

fn merged_shading_table(continue_shading: Option<RgbColor>) -> Vec<TableRowInput> {
    vec![
        row(vec![
            cell(1, Some(VerticalMergeState::Restart), Some(GREY)),
            cell(2, None, None),
        ]),
        row(vec![
            cell(0, Some(VerticalMergeState::Continue), continue_shading),
            cell(2, None, None),
        ]),
    ]
}

#[test]
fn shaded_vmerge_restart_cell_shades_the_whole_span() {
    let rows = merged_shading_table(None);
    let table = layout_table(
        &rows,
        &[Pt::new(50.0), Pt::new(50.0)],
        Pt::ZERO,
        Pt::new(14.0),
        None,
        None,
        false,
    );

    assert_eq!(table.size, PtSize::new(Pt::new(100.0), Pt::new(56.0)));
    assert_eq!(
        shading_rects(&table.commands),
        vec![(0.0, 56.0)],
        "one rect covering the full 56pt merged span"
    );
}

#[test]
fn vmerge_continue_cell_does_not_paint_its_own_shading() {
    let rows = merged_shading_table(Some(RgbColor { r: 1, g: 2, b: 3 }));
    let table = layout_table(
        &rows,
        &[Pt::new(50.0), Pt::new(50.0)],
        Pt::ZERO,
        Pt::new(14.0),
        None,
        None,
        false,
    );

    assert_eq!(shading_rects(&table.commands), vec![(0.0, 56.0)]);
    assert!(
        !table.commands.iter().any(|c| matches!(
            c,
            DrawCommand::Rect {
                color: RgbColor { r: 1, g: 2, b: 3 },
                ..
            }
        )),
        "a Continue cell's shading must not override the merged cell's"
    );
}

#[test]
fn unmerged_shaded_cell_shades_only_its_own_row() {
    let rows = vec![
        row(vec![cell(1, None, Some(GREY))]),
        row(vec![cell(1, None, None)]),
    ];
    let table = layout_table(
        &rows,
        &[Pt::new(50.0)],
        Pt::ZERO,
        Pt::new(14.0),
        None,
        None,
        false,
    );
    assert_eq!(shading_rects(&table.commands), vec![(0.0, 14.0)]);
}

#[test]
fn merged_span_height_stops_at_the_first_non_continue_row() {
    let rows = vec![
        row(vec![cell(1, Some(VerticalMergeState::Restart), Some(GREY))]),
        row(vec![cell(0, Some(VerticalMergeState::Continue), None)]),
        row(vec![cell(1, None, None)]),
    ];
    let table = layout_table(
        &rows,
        &[Pt::new(50.0)],
        Pt::ZERO,
        Pt::new(14.0),
        None,
        None,
        false,
    );

    assert_eq!(
        table.size.height,
        Pt::new(28.0),
        "span 14pt + row 2 at 14pt"
    );
    assert_eq!(
        shading_rects(&table.commands),
        vec![(0.0, 14.0)],
        "the span ends at the Continue row; row 2 is not part of it"
    );
}

const RED: RgbColor = RgbColor { r: 255, g: 0, b: 0 };

fn single(width: f32, color: RgbColor) -> TableBorderLine {
    TableBorderLine {
        width: Pt::new(width),
        color,
        style: TableBorderStyle::Single,
    }
}

fn all_edges(line: TableBorderLine) -> TableBorderConfig {
    TableBorderConfig {
        top: Some(line),
        bottom: Some(line),
        left: Some(line),
        right: Some(line),
        inside_h: Some(line),
        inside_v: Some(line),
    }
}

fn index_of(cmds: &[DrawCommand], pred: impl Fn(&DrawCommand) -> bool) -> usize {
    cmds.iter()
        .position(pred)
        .expect("expected command not emitted")
}

#[test]
fn commands_layer_shading_then_content_then_borders() {
    let rows = vec![row(vec![cell(1, None, Some(GREY))])];
    let table = layout_table(
        &rows,
        &[Pt::new(50.0)],
        Pt::ZERO,
        Pt::new(14.0),
        Some(&all_edges(single(1.0, RED))),
        None,
        false,
    );

    let shading = index_of(
        &table.commands,
        |c| matches!(c, DrawCommand::Rect { color, .. } if *color == GREY),
    );
    let text = index_of(&table.commands, |c| matches!(c, DrawCommand::Text { .. }));
    let border = index_of(
        &table.commands,
        |c| matches!(c, DrawCommand::Rect { color, .. } if *color == RED),
    );

    assert!(
        shading < text && text < border,
        "expected shading({shading}) < content({text}) < borders({border})"
    );
}

#[test]
fn top_border_override_skips_a_cell_that_explicitly_suppressed_its_top() {

    let nil_top = CellBorderConfig {
        top: Some(CellBorderOverride::Suppress),
        bottom: None,
        left: None,
        right: None,
    };
    let mut suppressed = cell(1, None, None);
    suppressed.cell_borders = Some(nil_top);

    let rows = vec![row(vec![suppressed, cell(1, None, None)])];
    let measured = measure_table_rows(
        &rows,
        &[Pt::new(50.0), Pt::new(50.0)],
        Pt::ZERO,
        Pt::new(14.0),
        None,
        None,
        false,
    );
    assert!(
        measured.rows[0]
            .borders
            .iter()
            .all(|b| b.top.line().is_none()),
        "both cells must resolve to no top border for this test to mean anything"
    );

    let mut bufs = TableCommandBuffers::new();
    let mut cursor_y = Pt::ZERO;
    emit_table_rows(
        &measured.rows,
        &rows,
        0,
        1,
        &mut cursor_y,
        &mut bufs,
        Some(single(3.0, RED)),
    );

    let restored_xs: Vec<f32> = bufs.border_commands
        .iter()
        .filter_map(|c| match c {
            DrawCommand::Rect { rect, color } if *color == RED => Some(rect.origin.x.raw()),
            _ => None,
        })
        .collect();
    assert_eq!(
        restored_xs,
        vec![50.0],
        "only cell 1 (x=50) takes the override; cell 0 asked for no top border"
    );
}

#[test]
fn top_border_override_applies_only_to_the_first_row_of_the_range() {
    let rows = vec![
        row(vec![cell(1, None, None)]),
        row(vec![cell(1, None, None)]),
    ];
    let measured = measure_table_rows(
        &rows,
        &[Pt::new(50.0)],
        Pt::ZERO,
        Pt::new(14.0),
        None,
        None,
        false,
    );

    let mut bufs = TableCommandBuffers::new();
    let mut cursor_y = Pt::ZERO;
    emit_table_rows(
        &measured.rows,
        &rows,
        0,
        2,
        &mut cursor_y,
        &mut bufs,
        Some(single(3.0, RED)),
    );

    let count = bufs.border_commands
        .iter()
        .filter(|c| matches!(c, DrawCommand::Rect { color, .. } if *color == RED))
        .count();
    assert_eq!(count, 1, "exactly one restored top edge, on row 0");
}

#[test]
fn a_row_ending_a_slice_keeps_its_reserved_bottom_gap() {
    let line = single(2.0, RED);
    let borders = TableBorderConfig {
        top: None,
        bottom: Some(line),
        left: None,
        right: None,
        inside_h: Some(line),
        inside_v: None,
    };
    let rows: Vec<TableRowInput> = (0..3).map(|_| row(vec![cell(1, None, None)])).collect();
    let slices = layout_table_paginated(
        &rows,
        &[Pt::new(50.0)],
        Pt::ZERO,
        Pt::new(14.0),
        Some(&borders),
        None,
        &TablePaginationConfig {
            available_height: Pt::new(34.0),
            page_height: Pt::new(34.0),
            suppress_first_row_top: false,
        },
    );
    assert_eq!(slices.len(), 2, "3 rows at 16pt each over a 34pt page");

    let border_bands: Vec<(f32, f32)> = slices[0]
        .commands
        .iter()
        .filter_map(|c| match c {
            DrawCommand::Rect { rect, color } if *color == RED => Some((
                rect.origin.y.raw(),
                rect.origin.y.raw() + rect.size.height.raw(),
            )),
            _ => None,
        })
        .collect();

    assert!(
        border_bands.contains(&(30.0, 32.0)),
        "row 1 ends the slice at y=30; its bottom border belongs in the \
         reserved gap 30..32, got {border_bands:?}"
    );
}
