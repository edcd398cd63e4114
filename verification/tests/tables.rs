//! Whole tables, and tables divided between pages.
use dxpdf::block::{
    CellVAlign, FootnoteParagraph, LayoutBlock, LayoutFootnote, RowHeightRule, TableBorderConfig,
    TableBorderLine, TableBorderStyle, TableCellInput, TableRowInput, VerticalMergeState,
};
use dxpdf::draw_command::{DrawCommand, FontId, RgbColor, TextId};
use dxpdf::fragment::{AutoLineSpacingContribution, FontProps, Fragment, TextMetrics};
use dxpdf::geometry::{PtEdgeInsets, PtSize};
use dxpdf::style::ParagraphStyle;
use dxpdf::table::paginate::PageHeights;
use dxpdf::table::{TableLayout, TablePaginationConfig, TableSlice};
use dxpdf::dimension::Pt;

/// Lengths in points, as floating-point numbers.
trait PointLength: Sized {
    const ZERO: Self;
    const INFINITY: Self;
    fn new(points: f32) -> Self;
    fn raw(self) -> f32;
}

impl PointLength for Pt {
    const ZERO: Pt = Pt { units: 0 };
    const INFINITY: Pt = Pt { units: i64::MAX };

    fn new(points: f32) -> Pt {
        Pt { units: (points as f64 * 76200.0).round() as i64 }
    }

    fn raw(self) -> f32 {
        (self.units as f64 / 76200.0) as f32
    }
}

trait NamedColors {
    const BLACK: Self;
}

impl NamedColors for RgbColor {
    const BLACK: RgbColor = RgbColor { r: 0, g: 0, b: 0 };
}

trait NoInsets {
    const ZERO: Self;
}

impl NoInsets for PtEdgeInsets {
    const ZERO: PtEdgeInsets = PtEdgeInsets {
        top: Pt { units: 0 },
        right: Pt { units: 0 },
        bottom: Pt { units: 0 },
        left: Pt { units: 0 },
    };
}

trait NoSize {
    const ZERO: Self;
}

impl NoSize for PtSize {
    const ZERO: PtSize = PtSize { width: Pt { units: 0 }, height: Pt { units: 0 } };
}

/// A number for a text.
fn id(text: &str) -> TextId {
    let mut hash: u64 = 0xcbf2_9ce4_8422_2325;
    for byte in text.bytes() {
        hash = (hash ^ byte as u64).wrapping_mul(0x0000_0100_0000_01b3);
    }
    TextId { id: hash }
}

fn font() -> FontProps {
    FontProps {
        font: FontId { id: 1 },
        size: Pt::new(12.0),
        underline: false,
        auto_line_spacing: AutoLineSpacingContribution::Scaled,
    }
}

fn text_frag(text: &str, width: f32) -> Fragment {
    Fragment::Text {
        text: id(text),
        blank: text.trim().is_empty(),
        font: font(),
        color: RgbColor::BLACK,
        width: Pt::new(width),
        trimmed_width: Pt::new(width),
        metrics: TextMetrics {
            ascent: Pt::new(10.0),
            descent: Pt::new(4.0),
            leading: Pt::ZERO,
        },
        baseline_offset: Pt::ZERO,
        is_footnote_ref: false,
    }
}

fn layout_table(
    rows: &[TableRowInput],
    col_widths: &[Pt],
    cell_spacing: Pt,
    default_line_height: Pt,
    borders: Option<&TableBorderConfig>,
    _measure_text: Option<()>,
    suppress_first_row_top: bool,
) -> TableLayout {
    dxpdf::table::layout_table(
        rows,
        col_widths,
        cell_spacing,
        default_line_height,
        borders.copied(),
        suppress_first_row_top,
    )
}

fn measure_complete_table_height(
    rows: &[TableRowInput],
    col_widths: &[Pt],
    cell_spacing: Pt,
    default_line_height: Pt,
    borders: Option<&TableBorderConfig>,
    _measure_text: Option<()>,
    suppress_first_row_top: bool,
) -> Option<Pt> {
    dxpdf::table::layout::measure_complete_table_height(
        rows,
        col_widths,
        cell_spacing,
        default_line_height,
        borders.copied(),
        suppress_first_row_top,
    )
}

fn layout_table_paginated<'a>(
    rows: &'a [TableRowInput],
    col_widths: &[Pt],
    cell_spacing: Pt,
    default_line_height: Pt,
    borders: Option<&TableBorderConfig>,
    _measure_text: Option<()>,
    pagination: &TablePaginationConfig,
) -> Vec<TableSlice<'a>> {
    dxpdf::table::layout_table_paginated(
        rows,
        col_widths,
        cell_spacing,
        default_line_height,
        borders.copied(),
        pagination,
    )
}

struct TablePaginationHeights<F> {
    available_height: Pt,
    suppress_first_row_top: bool,
    page_height_for_slice: F,
    footnote_width: Option<Pt>,
    footnote_separator_height: Pt,
    first_page_has_footnotes: bool,
}

fn layout_table_paginated_with_page_heights<'a, F: FnMut(usize) -> Pt>(
    rows: &'a [TableRowInput],
    col_widths: &[Pt],
    cell_spacing: Pt,
    default_line_height: Pt,
    borders: Option<&TableBorderConfig>,
    _measure_text: Option<()>,
    mut pagination: TablePaginationHeights<F>,
) -> Vec<TableSlice<'a>> {
    let heights: Vec<Pt> = (0..32).map(|slice| (pagination.page_height_for_slice)(slice)).collect();
    dxpdf::table::layout_table_paginated_with_page_heights(
        rows,
        col_widths,
        cell_spacing,
        default_line_height,
        borders.copied(),
        &dxpdf::table::TablePaginationHeights {
            available_height: pagination.available_height,
            suppress_first_row_top: pagination.suppress_first_row_top,
            page_heights: PageHeights::Listed {
                heights: &heights,
                rest: (pagination.page_height_for_slice)(32),
            },
            footnote_width: pagination.footnote_width,
            footnote_separator_height: pagination.footnote_separator_height,
            first_page_has_footnotes: pagination.first_page_has_footnotes,
        },
    )
}

fn simple_cell(text: &str) -> TableCellInput {
    TableCellInput {
        blocks: vec![LayoutBlock::Paragraph {
            fragments: vec![text_frag(text, 30.0)],
            style: ParagraphStyle::default(),
            page_break_before: false,
            footnotes: vec![],
            floating_images: vec![],
            floating_shapes: vec![],
        }],
        margins: PtEdgeInsets::ZERO,
        grid_span: 1,
        shading: None,
        cell_borders: None,
        vertical_merge: None,
        vertical_align: CellVAlign::Top,
    }
}

#[test]
fn empty_table() {
    let result = layout_table(&[], &[], Pt::ZERO, Pt::new(14.0), None, None, false);
    assert!(result.commands.is_empty());
    assert_eq!(result.size, PtSize::ZERO);
}

#[test]
fn single_cell_table() {
    let rows = vec![TableRowInput {
        cells: vec![simple_cell("hello")],
        height_rule: None,
        is_header: None,
        cant_split: None,
        grid_before: 0,
        border_overrides: None,
    }];
    let col_widths = vec![Pt::new(200.0)];
    let result = layout_table(
        &rows,
        &col_widths,
        Pt::ZERO,
        Pt::new(14.0),
        None,
        None,
        false,
    );

    assert_eq!(result.size.width.raw(), 200.0);
    assert_eq!(result.size.height.raw(), 14.0);

    let text_count = result
        .commands
        .iter()
        .filter(|c| matches!(c, DrawCommand::Text { .. }))
        .count();
    assert_eq!(text_count, 1);
}

#[test]
fn complete_height_measurement_matches_monolithic_layout() {
    let rows = vec![TableRowInput {
        cells: vec![simple_cell("measured")],
        height_rule: None,
        is_header: None,
        cant_split: None,
        grid_before: 0,
        border_overrides: None,
    }];
    let col_widths = vec![Pt::new(200.0)];
    let border = TableBorderLine {
        width: Pt::new(2.0),
        color: RgbColor::BLACK,
        style: TableBorderStyle::Single,
    };
    let borders = TableBorderConfig {
        top: Some(border),
        bottom: Some(border),
        left: None,
        right: None,
        inside_h: None,
        inside_v: None,
    };
    let cell_spacing = Pt::new(3.0);

    let laid_out = layout_table(
        &rows,
        &col_widths,
        cell_spacing,
        Pt::new(14.0),
        Some(&borders),
        None,
        false,
    );
    let measured = measure_complete_table_height(
        &rows,
        &col_widths,
        cell_spacing,
        Pt::new(14.0),
        Some(&borders),
        None,
        false,
    )
    .expect("non-empty table has a complete height");

    assert_eq!(measured, laid_out.size.height);
    assert!(measured > Pt::new(14.0) + cell_spacing);
}

#[test]
fn two_by_two_table() {
    let rows = vec![
        TableRowInput {
            cells: vec![simple_cell("a"), simple_cell("b")],
            height_rule: None,
            is_header: None,
            cant_split: None,
            grid_before: 0,
            border_overrides: None,
        },
        TableRowInput {
            cells: vec![simple_cell("c"), simple_cell("d")],
            height_rule: None,
            is_header: None,
            cant_split: None,
            grid_before: 0,
            border_overrides: None,
        },
    ];
    let col_widths = vec![Pt::new(100.0), Pt::new(100.0)];
    let result = layout_table(
        &rows,
        &col_widths,
        Pt::ZERO,
        Pt::new(14.0),
        None,
        None,
        false,
    );

    assert_eq!(result.size.width.raw(), 200.0);
    assert_eq!(result.size.height.raw(), 28.0);

    let text_count = result
        .commands
        .iter()
        .filter(|c| matches!(c, DrawCommand::Text { .. }))
        .count();
    assert_eq!(text_count, 4);
}

#[test]
fn row_height_is_max_of_cells() {
    let rows = vec![TableRowInput {
        cells: vec![
            simple_cell("short"),
            TableCellInput {
                blocks: vec![LayoutBlock::Paragraph {
                    fragments: vec![text_frag("long ", 60.0), text_frag("text", 60.0)],
                    style: ParagraphStyle::default(),
                    page_break_before: false,
                    footnotes: vec![],
                    floating_images: vec![],
                    floating_shapes: vec![],
                }],
                margins: PtEdgeInsets::ZERO,
                grid_span: 1,
                shading: None,
                cell_borders: None,
                vertical_merge: None,
                vertical_align: CellVAlign::Top,
            },
        ],
        height_rule: None,
        is_header: None,
        cant_split: None,
        grid_before: 0,
        border_overrides: None,
    }];
    let col_widths = vec![Pt::new(200.0), Pt::new(80.0)];
    let result = layout_table(
        &rows,
        &col_widths,
        Pt::ZERO,
        Pt::new(14.0),
        None,
        None,
        false,
    );

    assert_eq!(result.size.height.raw(), 28.0, "row height = tallest cell");
}

#[test]
fn at_least_row_height_adds_row_wide_vertical_cell_margins() {
    let mut top_cell = simple_cell("top");
    top_cell.margins = PtEdgeInsets::new(Pt::new(3.0), Pt::ZERO, Pt::ZERO, Pt::ZERO);
    let mut bottom_cell = simple_cell("bottom");
    bottom_cell.margins = PtEdgeInsets::new(Pt::ZERO, Pt::ZERO, Pt::new(4.0), Pt::ZERO);
    let rows = vec![TableRowInput {
        cells: vec![top_cell, bottom_cell],
        height_rule: Some(RowHeightRule::AtLeast(Pt::new(40.0))),
        is_header: None,
        cant_split: None,
        grid_before: 0,
        border_overrides: None,
    }];
    let result = layout_table(
        &rows,
        &[Pt::new(100.0), Pt::new(100.0)],
        Pt::ZERO,
        Pt::new(14.0),
        None,
        None,
        false,
    );

    assert_eq!(
        result.size.height.raw(),
        47.0,
        "40pt content minimum plus row-wide 3pt top and 4pt bottom margins"
    );
}

#[test]
fn at_least_row_height_adds_margins_after_taller_natural_content() {
    let mut row = tall_row(3);
    row.cells[0].margins = PtEdgeInsets::new(Pt::new(3.0), Pt::ZERO, Pt::new(4.0), Pt::ZERO);
    row.height_rule = Some(RowHeightRule::AtLeast(Pt::new(40.0)));

    let result = layout_table(
        &[row],
        &[Pt::new(40.0)],
        Pt::ZERO,
        Pt::new(14.0),
        None,
        None,
        false,
    );

    assert_eq!(
        result.size.height.raw(),
        49.0,
        "42pt natural content plus 3pt top and 4pt bottom margins"
    );
}

#[test]
fn at_least_row_height_with_zero_margins_stays_declared_height() {
    let rows = vec![TableRowInput {
        cells: vec![simple_cell("x")],
        height_rule: Some(RowHeightRule::AtLeast(Pt::new(40.0))),
        is_header: None,
        cant_split: None,
        grid_before: 0,
        border_overrides: None,
    }];
    let col_widths = vec![Pt::new(200.0)];
    let result = layout_table(
        &rows,
        &col_widths,
        Pt::ZERO,
        Pt::new(14.0),
        None,
        None,
        false,
    );

    assert_eq!(
        result.size.height.raw(),
        40.0,
        "min height > content height"
    );
}

#[test]
fn exact_row_height_reserves_word_bottom_cell_margin() {
    let mut cell = simple_cell("x");
    cell.margins = PtEdgeInsets::new(Pt::new(3.0), Pt::ZERO, Pt::new(4.0), Pt::ZERO);
    let rows = vec![TableRowInput {
        cells: vec![cell],
        height_rule: Some(RowHeightRule::Exact(Pt::new(38.0))),
        is_header: None,
        cant_split: None,
        grid_before: 0,
        border_overrides: None,
    }];

    let result = layout_table(
        &rows,
        &[Pt::new(200.0)],
        Pt::ZERO,
        Pt::new(14.0),
        None,
        None,
        false,
    );

    assert_eq!(
        result.size.height.raw(),
        42.0,
        "Word adds the largest bottom cell margin after exact trHeight"
    );
}

#[test]
fn cell_shading_emits_rect() {
    let rows = vec![TableRowInput {
        cells: vec![TableCellInput {
            blocks: vec![LayoutBlock::Paragraph {
                fragments: vec![text_frag("x", 10.0)],
                style: ParagraphStyle::default(),
                page_break_before: false,
                footnotes: vec![],
                floating_images: vec![],
                floating_shapes: vec![],
            }],
            margins: PtEdgeInsets::ZERO,
            grid_span: 1,
            shading: Some(RgbColor {
                r: 200,
                g: 200,
                b: 200,
            }),
            cell_borders: None,
            vertical_merge: None,
            vertical_align: CellVAlign::Top,
        }],
        height_rule: None,
        is_header: None,
        cant_split: None,
        grid_before: 0,
        border_overrides: None,
    }];
    let col_widths = vec![Pt::new(100.0)];
    let result = layout_table(
        &rows,
        &col_widths,
        Pt::ZERO,
        Pt::new(14.0),
        None,
        None,
        false,
    );

    let rect_count = result
        .commands
        .iter()
        .filter(|c| matches!(c, DrawCommand::Rect { .. }))
        .count();
    assert_eq!(rect_count, 1, "shading produces a Rect command");
}

#[test]
fn grid_span_widens_cell() {
    let rows = vec![TableRowInput {
        cells: vec![TableCellInput {
            blocks: vec![LayoutBlock::Paragraph {
                fragments: vec![text_frag("spanning", 30.0)],
                style: ParagraphStyle::default(),
                page_break_before: false,
                footnotes: vec![],
                floating_images: vec![],
                floating_shapes: vec![],
            }],
            margins: PtEdgeInsets::ZERO,
            grid_span: 2,
            shading: None,
            cell_borders: None,
            vertical_merge: None,
            vertical_align: CellVAlign::Top,
        }],
        height_rule: None,
        is_header: None,
        cant_split: None,
        grid_before: 0,
        border_overrides: None,
    }];
    let col_widths = vec![Pt::new(100.0), Pt::new(100.0)];
    let result = layout_table(
        &rows,
        &col_widths,
        Pt::ZERO,
        Pt::new(14.0),
        None,
        None,
        false,
    );

    assert_eq!(result.size.width.raw(), 200.0);
    let text_count = result
        .commands
        .iter()
        .filter(|c| matches!(c, DrawCommand::Text { .. }))
        .count();
    assert_eq!(text_count, 1);
}

fn text_x_positions(commands: &[DrawCommand]) -> Vec<f32> {
    commands
        .iter()
        .filter_map(|c| match c {
            DrawCommand::Text { position, .. } => Some(position.x.raw()),
            _ => None,
        })
        .collect()
}

#[test]
fn grid_before_offsets_first_cell_x() {
    let rows = vec![TableRowInput {
        cells: vec![simple_cell("A"), simple_cell("B")],
        height_rule: None,
        is_header: None,
        cant_split: None,
        grid_before: 1,
        border_overrides: None,
    }];
    let col_widths = vec![Pt::new(10.0), Pt::new(100.0), Pt::new(200.0), Pt::new(10.0)];
    let result = layout_table(
        &rows,
        &col_widths,
        Pt::ZERO,
        Pt::new(14.0),
        None,
        None,
        false,
    );

    let xs = text_x_positions(&result.commands);
    assert_eq!(xs.len(), 2, "two text fragments expected");
    assert_eq!(xs[0], 10.0, "first cell starts at col 1's left edge (10pt)");
    assert_eq!(
        xs[1], 110.0,
        "second cell starts after col 1 (10 + 100 = 110pt)"
    );

    assert_eq!(result.size.width.raw(), 320.0);
}

#[test]
fn row_shorter_than_the_grid_leaves_the_trailing_columns_empty() {
    let shaded = |text: &str| TableCellInput {
        shading: Some(RgbColor {
            r: 200,
            g: 200,
            b: 200,
        }),
        ..simple_cell(text)
    };
    let rows = vec![TableRowInput {
        cells: vec![shaded("X"), shaded("Y")],
        height_rule: None,
        is_header: None,
        cant_split: None,
        grid_before: 0,
        border_overrides: None,
    }];
    let col_widths = vec![Pt::new(10.0), Pt::new(100.0), Pt::new(200.0), Pt::new(10.0)];
    let result = layout_table(
        &rows,
        &col_widths,
        Pt::ZERO,
        Pt::new(14.0),
        None,
        None,
        false,
    );

    let xs = text_x_positions(&result.commands);
    assert_eq!(xs, vec![0.0, 10.0], "cells sit at grid columns 0 and 1");

    let rects: Vec<(f32, f32)> = result
        .commands
        .iter()
        .filter_map(|c| match c {
            DrawCommand::Rect { rect, .. } => {
                Some((rect.origin.x.raw(), rect.size.width.raw()))
            }
            _ => None,
        })
        .collect();
    assert_eq!(
        rects,
        vec![(0.0, 10.0), (10.0, 100.0)],
        "cells must not stretch into the trailing grid columns"
    );

    assert_eq!(result.size.width.raw(), 320.0);
}

#[test]
fn row_inset_from_both_edges_uses_inside_v_on_both_sides() {
    let rows = vec![TableRowInput {
        cells: vec![simple_cell("A"), simple_cell("B")],
        height_rule: None,
        is_header: None,
        cant_split: None,
        grid_before: 1,
        border_overrides: None,
    }];
    let col_widths = vec![Pt::new(10.0), Pt::new(50.0), Pt::new(50.0), Pt::new(10.0)];
    let borders = TableBorderConfig {
        top: None,
        bottom: None,
        left: Some(TableBorderLine {
            width: Pt::new(4.0),
            color: RgbColor::BLACK,
            style: TableBorderStyle::Single,
        }),
        right: Some(TableBorderLine {
            width: Pt::new(4.0),
            color: RgbColor::BLACK,
            style: TableBorderStyle::Single,
        }),
        inside_h: None,
        inside_v: Some(TableBorderLine {
            width: Pt::new(1.0),
            color: RgbColor::BLACK,
            style: TableBorderStyle::Single,
        }),
    };
    let result = layout_table(
        &rows,
        &col_widths,
        Pt::ZERO,
        Pt::new(14.0),
        Some(&borders),
        None,
        false,
    );

    let has_thick_vertical = result.commands.iter().any(|c| match c {
        DrawCommand::Rect { rect, color } if *color == RgbColor::BLACK => {
            rect.size.width.raw() == 4.0 && rect.size.height.raw() > 1.0
        }
        _ => false,
    });
    assert!(
        !has_thick_vertical,
        "no 4pt-thick vertical border should appear: gridBefore/gridAfter \
         mean cells aren't at the table's left/right edges, so left/right \
         borders are not applied"
    );

    let has_inside_v = result.commands.iter().any(|c| match c {
        DrawCommand::Rect { rect, color } if *color == RgbColor::BLACK => {
            rect.size.width.raw() == 1.0
        }
        _ => false,
    });
    assert!(
        has_inside_v,
        "1pt inside_v border between cells must appear"
    );
}

#[test]
fn vmerge_across_rows_with_different_grid_before() {
    let row_a = TableRowInput {
        cells: vec![
            TableCellInput {
                blocks: vec![LayoutBlock::Paragraph {
                    fragments: vec![text_frag("Restart", 30.0)],
                    style: ParagraphStyle::default(),
                    page_break_before: false,
                    footnotes: vec![],
                    floating_images: vec![],
                    floating_shapes: vec![],
                }],
                margins: PtEdgeInsets::ZERO,
                grid_span: 1,
                shading: None,
                cell_borders: None,
                vertical_merge: Some(VerticalMergeState::Restart),
                vertical_align: CellVAlign::Top,
            },
            simple_cell("header"),
        ],
        height_rule: None,
        is_header: None,
        cant_split: None,
        grid_before: 1,
        border_overrides: None,
    };
    let row_b = TableRowInput {
        cells: vec![
            simple_cell("row1col0"),
            TableCellInput {
                blocks: vec![],
                margins: PtEdgeInsets::ZERO,
                grid_span: 1,
                shading: None,
                cell_borders: None,
                vertical_merge: Some(VerticalMergeState::Continue),
                vertical_align: CellVAlign::Top,
            },
            simple_cell("row1col2"),
        ],
        height_rule: None,
        is_header: None,
        cant_split: None,
        grid_before: 0,
        border_overrides: None,
    };
    let col_widths = vec![Pt::new(50.0), Pt::new(100.0), Pt::new(150.0)];
    let result = layout_table(
        &[row_a, row_b],
        &col_widths,
        Pt::ZERO,
        Pt::new(14.0),
        None,
        None,
        false,
    );

    let position_of = |needle: &str| -> Option<(f32, f32)> {
        result.commands.iter().find_map(|c| match c {
            DrawCommand::Text { position, text, .. } if *text == id(needle) => {
                Some((position.x.raw(), position.y.raw()))
            }
            _ => None,
        })
    };

    let (restart_x, _) = position_of("Restart").expect("Restart text present");
    let (header_x, header_y) = position_of("header").expect("header text present");
    let (col0_x, col0_y) = position_of("row1col0").expect("row1col0 text present");
    let (col2_x, _) = position_of("row1col2").expect("row1col2 text present");

    assert_eq!(restart_x, 50.0, "Restart cell starts at grid col 1");
    assert_eq!(header_x, 150.0, "header cell starts at grid col 2 (50+100)");

    assert_eq!(col0_x, 0.0, "row1col0 starts at grid col 0");
    assert_eq!(col2_x, 150.0, "row1col2 starts at grid col 2 (50+100)");

    assert!(col0_y > 0.0, "row1col0 is on the second row");
    assert_eq!(
        col0_y,
        header_y + 14.0,
        "row1col0 sits exactly one row-height below the row 0 header"
    );
}

#[test]
fn cell_margins_affect_layout() {
    let rows = vec![TableRowInput {
        cells: vec![TableCellInput {
            blocks: vec![LayoutBlock::Paragraph {
                fragments: vec![text_frag("text", 30.0)],
                style: ParagraphStyle::default(),
                page_break_before: false,
                footnotes: vec![],
                floating_images: vec![],
                floating_shapes: vec![],
            }],
            margins: PtEdgeInsets::new(
                Pt::new(5.0),
                Pt::new(10.0),
                Pt::new(5.0),
                Pt::new(10.0),
            ),
            grid_span: 1,
            shading: None,
            cell_borders: None,
            vertical_merge: None,
            vertical_align: CellVAlign::Top,
        }],
        height_rule: None,
        is_header: None,
        cant_split: None,
        grid_before: 0,
        border_overrides: None,
    }];
    let col_widths = vec![Pt::new(200.0)];
    let result = layout_table(
        &rows,
        &col_widths,
        Pt::ZERO,
        Pt::new(14.0),
        None,
        None,
        false,
    );

    assert_eq!(result.size.height.raw(), 24.0);

    if let Some(DrawCommand::Text { position, .. }) = result.commands.first() {
        assert_eq!(position.x.raw(), 10.0, "left margin");
    }
}

#[test]
fn suppress_first_row_top_removes_top_borders() {
    let border_line = TableBorderLine {
        width: Pt::new(0.5),
        color: RgbColor::BLACK,
        style: TableBorderStyle::Single,
    };
    let borders = TableBorderConfig {
        top: Some(border_line),
        bottom: Some(border_line),
        left: Some(border_line),
        right: Some(border_line),
        inside_h: None,
        inside_v: None,
    };
    let rows = vec![TableRowInput {
        cells: vec![simple_cell("a")],
        height_rule: None,
        is_header: None,
        cant_split: None,
        grid_before: 0,
        border_overrides: None,
    }];
    let col_widths = vec![Pt::new(100.0)];

    let normal = layout_table(
        &rows,
        &col_widths,
        Pt::ZERO,
        Pt::new(14.0),
        Some(&borders),
        None,
        false,
    );
    let normal_borders: Vec<_> = normal
        .commands
        .iter()
        .filter(|c| matches!(c, DrawCommand::Rect { color, .. } if *color == RgbColor::BLACK))
        .collect();

    let suppressed = layout_table(
        &rows,
        &col_widths,
        Pt::ZERO,
        Pt::new(14.0),
        Some(&borders),
        None,
        true,
    );
    let suppressed_borders: Vec<_> = suppressed
        .commands
        .iter()
        .filter(|c| matches!(c, DrawCommand::Rect { color, .. } if *color == RgbColor::BLACK))
        .collect();

    assert_eq!(normal_borders.len(), 4, "all 4 borders present");
    assert_eq!(suppressed_borders.len(), 3, "top border suppressed");
}

#[test]
fn vmerge_outer_border_crosses_sibling_horizontal_border_gap() {
    let border = TableBorderLine {
        width: Pt::new(1.0),
        color: RgbColor::BLACK,
        style: TableBorderStyle::Single,
    };
    let borders = TableBorderConfig {
        top: Some(border),
        bottom: Some(border),
        left: Some(border),
        right: Some(border),
        inside_h: Some(border),
        inside_v: Some(border),
    };
    let merged_cell = |state| TableCellInput {
        blocks: vec![],
        margins: PtEdgeInsets::ZERO,
        grid_span: 1,
        shading: None,
        cell_borders: None,
        vertical_merge: Some(state),
        vertical_align: CellVAlign::Top,
    };
    let rows = vec![
        TableRowInput {
            cells: vec![
                simple_cell("recipient"),
                merged_cell(VerticalMergeState::Restart),
            ],
            height_rule: None,
            is_header: None,
            cant_split: None,
            grid_before: 0,
            border_overrides: None,
        },
        TableRowInput {
            cells: vec![
                simple_cell("recipient bank"),
                merged_cell(VerticalMergeState::Continue),
            ],
            height_rule: None,
            is_header: None,
            cant_split: None,
            grid_before: 0,
            border_overrides: None,
        },
        TableRowInput {
            cells: vec![TableCellInput {
                blocks: vec![],
                margins: PtEdgeInsets::ZERO,
                grid_span: 2,
                shading: None,
                cell_borders: None,
                vertical_merge: None,
                vertical_align: CellVAlign::Top,
            }],
            height_rule: None,
            is_header: None,
            cant_split: None,
            grid_before: 0,
            border_overrides: None,
        },
    ];

    let result = layout_table(
        &rows,
        &[Pt::new(100.0), Pt::new(100.0)],
        Pt::ZERO,
        Pt::new(14.0),
        Some(&borders),
        None,
        false,
    );
    let mut right_edge_segments: Vec<_> = result
        .commands
        .iter()
        .filter_map(|command| match command {
            DrawCommand::Rect { rect, color }
                if *color == RgbColor::BLACK
                    && rect.origin.x.raw() == 199.0
                    && rect.size.width.raw() == 1.0 =>
            {
                Some(*rect)
            }
            _ => None,
        })
        .collect();
    right_edge_segments.sort_by(|a, b| a.origin.y.raw().total_cmp(&b.origin.y.raw()));

    let first_end = right_edge_segments[0].origin.y + right_edge_segments[0].size.height;
    let continuation_start = right_edge_segments[1].origin.y;
    assert_eq!(
        first_end, continuation_start,
        "a vertically merged outer border must cross the inter-row border band"
    );
}

#[test]
fn valign_bottom_on_vmerge_restart_uses_span_height() {
    let row0 = TableRowInput {
        cells: vec![
            TableCellInput {
                blocks: vec![LayoutBlock::Paragraph {
                    fragments: vec![text_frag("Total", 20.0)],
                    style: ParagraphStyle::default(),
                    page_break_before: false,
                    footnotes: vec![],
                    floating_images: vec![],
                    floating_shapes: vec![],
                }],
                margins: PtEdgeInsets::ZERO,
                grid_span: 1,
                shading: None,
                cell_borders: None,
                vertical_merge: Some(VerticalMergeState::Restart),
                vertical_align: CellVAlign::Bottom,
            },
            simple_cell("header"),
        ],
        height_rule: None,
        is_header: None,
        cant_split: None,
        grid_before: 0,
        border_overrides: None,
    };
    let row1 = TableRowInput {
        cells: vec![
            TableCellInput {
                blocks: vec![],
                margins: PtEdgeInsets::ZERO,
                grid_span: 1,
                shading: None,
                cell_borders: None,
                vertical_merge: Some(VerticalMergeState::Continue),
                vertical_align: CellVAlign::Top,
            },
            simple_cell("value"),
        ],
        height_rule: None,
        is_header: None,
        cant_split: None,
        grid_before: 0,
        border_overrides: None,
    };
    let col_widths = vec![Pt::new(100.0), Pt::new(100.0)];
    let result = layout_table(
        &[row0, row1],
        &col_widths,
        Pt::ZERO,
        Pt::new(14.0),
        None,
        None,
        false,
    );

    let total_y = result
        .commands
        .iter()
        .find_map(|c| match c {
            DrawCommand::Text { position, text, .. } if *text == id("Total") => {
                Some(position.y.raw())
            }
            _ => None,
        })
        .expect("Total text present");
    let header_y = result
        .commands
        .iter()
        .find_map(|c| match c {
            DrawCommand::Text { position, text, .. } if *text == id("header") => {
                Some(position.y.raw())
            }
            _ => None,
        })
        .expect("header text present");

    assert!(
        total_y > header_y + 10.0,
        "Total (bottom-valigned merged) should sit well below header (top-valigned row 0): \
         total_y={total_y}, header_y={header_y}"
    );
}

fn tall_row(n_lines: usize) -> TableRowInput {
    let fragments: Vec<Fragment> = (0..n_lines)
        .map(|i| text_frag(&format!("L{i} "), 30.0))
        .collect();
    TableRowInput {
        cells: vec![TableCellInput {
            blocks: vec![LayoutBlock::Paragraph {
                fragments,
                style: ParagraphStyle::default(),
                page_break_before: false,
                footnotes: vec![],
                floating_images: vec![],
                floating_shapes: vec![],
            }],
            margins: PtEdgeInsets::ZERO,
            grid_span: 1,
            shading: None,
            cell_borders: None,
            vertical_merge: None,
            vertical_align: CellVAlign::Top,
        }],
        height_rule: None,
        is_header: None,
        cant_split: None,
        grid_before: 0,
        border_overrides: None,
    }
}

fn styled_para(n_lines: usize, style: ParagraphStyle) -> LayoutBlock {
    LayoutBlock::Paragraph {
        fragments: (0..n_lines)
            .map(|i| text_frag(&format!("L{i} "), 30.0))
            .collect(),
        style,
        page_break_before: false,
        footnotes: vec![],
        floating_images: vec![],
        floating_shapes: vec![],
    }
}

fn one_cell_row(blocks: Vec<LayoutBlock>) -> TableRowInput {
    TableRowInput {
        cells: vec![TableCellInput {
            blocks,
            margins: PtEdgeInsets::ZERO,
            grid_span: 1,
            shading: None,
            cell_borders: None,
            vertical_merge: None,
            vertical_align: CellVAlign::Top,
        }],
        height_rule: None,
        is_header: None,
        cant_split: None,
        grid_before: 0,
        border_overrides: None,
    }
}

fn slice_line_count(slice: &TableSlice) -> usize {
    slice
        .commands
        .iter()
        .filter(|c| matches!(c, DrawCommand::Text { .. }))
        .count()
}

#[test]
fn splittable_row_breaks_across_pages() {
    let rows = vec![tall_row(6)];
    let col_widths = vec![Pt::new(40.0)];
    let slices = layout_table_paginated(
        &rows,
        &col_widths,
        Pt::ZERO,
        Pt::new(14.0),
        None,
        None,
        &TablePaginationConfig {
            available_height: Pt::new(50.0),
            page_height: Pt::new(200.0),
            suppress_first_row_top: false,
        },
    );

    assert!(
        slices.len() >= 2,
        "expected at least 2 slices, got {}",
        slices.len()
    );

    let text_y = |slice: &TableSlice| -> Vec<f32> {
        slice
            .commands
            .iter()
            .filter_map(|c| match c {
                DrawCommand::Text { position, .. } => Some(position.y.raw()),
                _ => None,
            })
            .collect()
    };

    let s0 = text_y(&slices[0]);
    let s1 = text_y(&slices[1]);
    assert!(!s0.is_empty(), "slice 0 should contain some lines");
    assert!(!s1.is_empty(), "slice 1 should contain continuation lines");
    assert_eq!(
        s0.len() + s1.len(),
        6,
        "every line should be emitted exactly once across slices"
    );
    let min_s1_y = s1.iter().copied().fold(f32::INFINITY, f32::min);
    assert!(
        min_s1_y < 20.0,
        "slice 1 top text should be near y=0, was {min_s1_y}"
    );
}

#[test]
fn table_footnote_reserves_space_on_reference_page() {
    let mut reference = text_frag("1", 10.0);
    if let Fragment::Text {
        is_footnote_ref, ..
    } = &mut reference
    {
        *is_footnote_ref = true;
    }
    let noted_row = one_cell_row(vec![LayoutBlock::Paragraph {
        fragments: vec![reference],
        style: ParagraphStyle::default(),
        page_break_before: false,
        footnotes: vec![LayoutFootnote {
            paragraphs: vec![FootnoteParagraph {
                fragments: vec![text_frag("note body", 40.0)],
                style: ParagraphStyle::default(),
            }],
        }],
        floating_images: vec![],
        floating_shapes: vec![],
    }]);
    let mut rows = vec![noted_row];
    rows.extend((0..4).map(|_| one_cell_row(vec![styled_para(1, ParagraphStyle::default())])));

    let slices = layout_table_paginated_with_page_heights(
        &rows,
        &[Pt::new(200.0)],
        Pt::ZERO,
        Pt::new(14.0),
        None,
        None,
        TablePaginationHeights {
            available_height: Pt::new(75.0),
            suppress_first_row_top: false,
            page_height_for_slice: |_| Pt::new(75.0),
            footnote_width: Some(Pt::new(200.0)),
            footnote_separator_height: Pt::new(4.0),
            first_page_has_footnotes: false,
        },
    );

    assert_eq!(slices.len(), 2, "the note must displace the fifth row");
    assert_eq!(slices[0].footnotes.len(), 1);
    assert!(slices[1].footnotes.is_empty());
    assert_eq!(slice_line_count(&slices[0]), 4);
    assert_eq!(slice_line_count(&slices[1]), 1);
}

#[test]
fn split_table_row_moves_footnote_with_its_reference_line() {
    let mut fragments: Vec<Fragment> =
        (0..6).map(|i| text_frag(&format!("L{i} "), 30.0)).collect();
    if let Fragment::Text {
        is_footnote_ref, ..
    } = &mut fragments[4]
    {
        *is_footnote_ref = true;
    }
    let rows = vec![one_cell_row(vec![LayoutBlock::Paragraph {
        fragments,
        style: ParagraphStyle::default(),
        page_break_before: false,
        footnotes: vec![LayoutFootnote {
            paragraphs: vec![FootnoteParagraph {
                fragments: vec![text_frag("late note", 40.0)],
                style: ParagraphStyle::default(),
            }],
        }],
        floating_images: vec![],
        floating_shapes: vec![],
    }])];

    let slices = layout_table_paginated_with_page_heights(
        &rows,
        &[Pt::new(40.0)],
        Pt::ZERO,
        Pt::new(14.0),
        None,
        None,
        TablePaginationHeights {
            available_height: Pt::new(50.0),
            suppress_first_row_top: false,
            page_height_for_slice: |_| Pt::new(200.0),
            footnote_width: Some(Pt::new(200.0)),
            footnote_separator_height: Pt::new(4.0),
            first_page_has_footnotes: false,
        },
    );

    assert!(slices.len() >= 2);
    assert!(slices[0].footnotes.is_empty());
    assert_eq!(
        slices
            .iter()
            .skip(1)
            .map(|slice| slice.footnotes.len())
            .sum::<usize>(),
        1,
        "the note body must follow the continuation containing its reference",
    );
}

#[test]
fn cant_split_row_moves_whole_to_next_page() {
    let mut row = tall_row(6);
    row.cant_split = Some(true);
    let rows = vec![row];
    let col_widths = vec![Pt::new(40.0)];
    let slices = layout_table_paginated(
        &rows,
        &col_widths,
        Pt::ZERO,
        Pt::new(14.0),
        None,
        None,
        &TablePaginationConfig {
            available_height: Pt::new(50.0),
            page_height: Pt::new(200.0),
            suppress_first_row_top: false,
        },
    );

    assert_eq!(slices.len(), 2, "should still produce 2 slices");
    let count0 = slices[0]
        .commands
        .iter()
        .filter(|c| matches!(c, DrawCommand::Text { .. }))
        .count();
    let count1 = slices[1]
        .commands
        .iter()
        .filter(|c| matches!(c, DrawCommand::Text { .. }))
        .count();
    assert_eq!(count0, 0, "first slice has no text with cantSplit");
    assert_eq!(count1, 6, "all 6 lines on second slice");
}

#[test]
fn at_least_row_margins_count_against_the_pagination_budget() {
    let mut row = tall_row(1);
    row.cells[0].margins = PtEdgeInsets::new(Pt::new(3.0), Pt::ZERO, Pt::new(4.0), Pt::ZERO);
    row.height_rule = Some(RowHeightRule::AtLeast(Pt::new(40.0)));
    row.cant_split = Some(true);

    let rows = [row];
    let slices = layout_table_paginated(
        &rows,
        &[Pt::new(40.0)],
        Pt::ZERO,
        Pt::new(14.0),
        None,
        None,
        &TablePaginationConfig {
            available_height: Pt::new(45.0),
            page_height: Pt::new(100.0),
            suppress_first_row_top: false,
        },
    );

    assert_eq!(
        slices.len(),
        2,
        "the corrected 47pt row must not fit a 45pt first-page budget"
    );
    assert!(
        slices[0].commands.is_empty(),
        "the unsplittable row moves whole"
    );
    assert_eq!(slices[1].size.height.raw(), 47.0);
}

#[test]
fn splittable_row_spans_three_or_more_pages() {
    let rows = vec![tall_row(15)];
    let col_widths = vec![Pt::new(40.0)];
    let slices = layout_table_paginated(
        &rows,
        &col_widths,
        Pt::ZERO,
        Pt::new(14.0),
        None,
        None,
        &TablePaginationConfig {
            available_height: Pt::new(50.0),
            page_height: Pt::new(70.0),
            suppress_first_row_top: false,
        },
    );

    assert!(
        slices.len() >= 3,
        "expected ≥3 slices for a 15-line row split across pages, got {}",
        slices.len()
    );

    let total_lines: usize = slices
        .iter()
        .map(|s| {
            s.commands
                .iter()
                .filter(|c| matches!(c, DrawCommand::Text { .. }))
                .count()
        })
        .sum();
    assert_eq!(
        total_lines, 15,
        "all 15 lines should be emitted across the slices exactly once"
    );
}

#[test]
fn vmerge_span_is_not_split_mid_cell() {
    let row0 = TableRowInput {
        cells: vec![TableCellInput {
            blocks: vec![LayoutBlock::Paragraph {
                fragments: (0..4).map(|i| text_frag(&format!("L{i} "), 30.0)).collect(),
                style: ParagraphStyle::default(),
                page_break_before: false,
                footnotes: vec![],
                floating_images: vec![],
                floating_shapes: vec![],
            }],
            margins: PtEdgeInsets::ZERO,
            grid_span: 1,
            shading: None,
            cell_borders: None,
            vertical_merge: Some(VerticalMergeState::Restart),
            vertical_align: CellVAlign::Top,
        }],
        height_rule: None,
        is_header: None,
        cant_split: None,
        grid_before: 0,
        border_overrides: None,
    };
    let row1 = TableRowInput {
        cells: vec![TableCellInput {
            blocks: vec![],
            margins: PtEdgeInsets::ZERO,
            grid_span: 1,
            shading: None,
            cell_borders: None,
            vertical_merge: Some(VerticalMergeState::Continue),
            vertical_align: CellVAlign::Top,
        }],
        height_rule: None,
        is_header: None,
        cant_split: None,
        grid_before: 0,
        border_overrides: None,
    };
    let col_widths = vec![Pt::new(40.0)];
    let rows = [row0, row1];
    let slices = layout_table_paginated(
        &rows,
        &col_widths,
        Pt::ZERO,
        Pt::new(14.0),
        None,
        None,
        &TablePaginationConfig {
            available_height: Pt::new(30.0),
            page_height: Pt::new(200.0),
            suppress_first_row_top: false,
        },
    );

    let count0 = slices[0]
        .commands
        .iter()
        .filter(|c| matches!(c, DrawCommand::Text { .. }))
        .count();
    assert_eq!(count0, 0, "vMerge span must not split across pages");
}

#[test]
fn oversized_vmerge_span_falls_back_to_row_boundary_pagination() {
    let make_cell = |text: &str, vertical_merge| TableCellInput {
        blocks: if text.is_empty() {
            vec![]
        } else {
            vec![LayoutBlock::Paragraph {
                fragments: vec![text_frag(text, 20.0)],
                style: ParagraphStyle::default(),
                page_break_before: false,
                footnotes: vec![],
                floating_images: vec![],
                floating_shapes: vec![],
            }]
        },
        margins: PtEdgeInsets::ZERO,
        grid_span: 1,
        shading: None,
        cell_borders: None,
        vertical_merge,
        vertical_align: CellVAlign::Top,
    };
    let rows: Vec<TableRowInput> = (0..5)
        .map(|row_idx| TableRowInput {
            cells: vec![
                make_cell(
                    if row_idx == 0 { "merged" } else { "" },
                    Some(if row_idx == 0 {
                        VerticalMergeState::Restart
                    } else {
                        VerticalMergeState::Continue
                    }),
                ),
                make_cell(&format!("row{row_idx}"), None),
            ],
            height_rule: None,
            is_header: None,
            cant_split: None,
            grid_before: 0,
            border_overrides: None,
        })
        .collect();

    let slices = layout_table_paginated(
        &rows,
        &[Pt::new(40.0), Pt::new(40.0)],
        Pt::ZERO,
        Pt::new(14.0),
        None,
        None,
        &TablePaginationConfig {
            available_height: Pt::new(35.0),
            page_height: Pt::new(35.0),
            suppress_first_row_top: false,
        },
    );

    assert!(slices.len() >= 3, "the five-row span must continue");
    let total_text = slices
        .iter()
        .flat_map(|slice| &slice.commands)
        .filter(|command| matches!(command, DrawCommand::Text { .. }))
        .count();
    assert_eq!(total_text, 6, "merged label and all five rows survive");
}

#[test]
fn all_header_rows_paginate_when_exceeding_available() {
    let mut r0 = tall_row(2);
    r0.is_header = Some(true);
    r0.cant_split = Some(true);
    let mut r1 = tall_row(2);
    r1.is_header = Some(true);
    r1.cant_split = Some(true);
    let mut r2 = tall_row(2);
    r2.is_header = Some(true);
    r2.cant_split = Some(true);

    let rows = vec![r0, r1, r2];
    let col_widths = vec![Pt::new(40.0)];

    let slices = layout_table_paginated(
        &rows,
        &col_widths,
        Pt::ZERO,
        Pt::new(14.0),
        None,
        None,
        &TablePaginationConfig {
            available_height: Pt::new(30.0),
            page_height: Pt::new(200.0),
            suppress_first_row_top: false,
        },
    );

    assert!(
        slices.len() >= 2,
        "expected ≥2 slices, got {}",
        slices.len()
    );
    assert!(
        slices[0].size.height <= Pt::new(30.0),
        "slice 0 height {:.1}pt exceeds available 30pt — header rows \
         ignoring the fitting check",
        slices[0].size.height.raw()
    );

    let total_text: usize = slices
        .iter()
        .map(|s| {
            s.commands
                .iter()
                .filter(|c| matches!(c, DrawCommand::Text { .. }))
                .count()
        })
        .sum();
    assert_eq!(total_text, 6, "all rows emitted exactly once");
}

#[test]
fn all_header_rows_with_no_space_advances_page() {
    let mut r0 = tall_row(2);
    r0.is_header = Some(true);
    r0.cant_split = Some(true);

    let rows = vec![r0];
    let col_widths = vec![Pt::new(40.0)];

    let slices = layout_table_paginated(
        &rows,
        &col_widths,
        Pt::ZERO,
        Pt::new(14.0),
        None,
        None,
        &TablePaginationConfig {
            available_height: Pt::ZERO,
            page_height: Pt::new(200.0),
            suppress_first_row_top: false,
        },
    );

    assert_eq!(slices.len(), 2, "empty first slice + content slice");
    let count0 = slices[0]
        .commands
        .iter()
        .filter(|c| matches!(c, DrawCommand::Text { .. }))
        .count();
    let count1 = slices[1]
        .commands
        .iter()
        .filter(|c| matches!(c, DrawCommand::Text { .. }))
        .count();
    assert_eq!(count0, 0, "first slice empty when no space available");
    assert_eq!(count1, 2, "all content moves to continuation");
}

#[test]
fn header_repeats_on_continuation_when_body_overflows() {
    let mut header = tall_row(1);
    header.is_header = Some(true);
    header.cant_split = Some(true);
    let body0 = tall_row(2);
    let mut body1 = tall_row(2);
    body1.cant_split = Some(true);

    let rows = vec![header, body0, body1];
    let col_widths = vec![Pt::new(40.0)];

    let slices = layout_table_paginated(
        &rows,
        &col_widths,
        Pt::ZERO,
        Pt::new(14.0),
        None,
        None,
        &TablePaginationConfig {
            available_height: Pt::new(50.0),
            page_height: Pt::new(200.0),
            suppress_first_row_top: false,
        },
    );

    assert_eq!(slices.len(), 2);
    let count0 = slices[0]
        .commands
        .iter()
        .filter(|c| matches!(c, DrawCommand::Text { .. }))
        .count();
    let count1 = slices[1]
        .commands
        .iter()
        .filter(|c| matches!(c, DrawCommand::Text { .. }))
        .count();
    assert_eq!(count0, 3, "slice 0: header (1) + body0 (2)");
    assert_eq!(count1, 3, "slice 1: header repeated (1) + body1 (2)");
}

#[test]
fn initial_header_moves_with_the_first_body_row_instead_of_orphaning() {
    let mut header = tall_row(1);
    header.is_header = Some(true);
    let mut body = tall_row(2);
    body.cant_split = Some(true);

    let rows = [header, body];
    let slices = layout_table_paginated(
        &rows,
        &[Pt::new(40.0)],
        Pt::ZERO,
        Pt::new(14.0),
        None,
        None,
        &TablePaginationConfig {
            available_height: Pt::new(20.0),
            page_height: Pt::new(200.0),
            suppress_first_row_top: false,
        },
    );

    assert_eq!(slices.len(), 2, "empty first slice + complete table");
    let text_counts = slices
        .iter()
        .map(|slice| {
            slice
                .commands
                .iter()
                .filter(|command| matches!(command, DrawCommand::Text { .. }))
                .count()
        })
        .collect::<Vec<_>>();
    assert_eq!(text_counts, vec![0, 3]);
}

#[test]
fn cant_split_headers_may_remain_as_a_standalone_first_fragment() {
    let mut header = tall_row(1);
    header.is_header = Some(true);
    header.cant_split = Some(true);
    let mut body = tall_row(2);
    body.cant_split = Some(true);

    let rows = [header, body];
    let slices = layout_table_paginated(
        &rows,
        &[Pt::new(40.0)],
        Pt::ZERO,
        Pt::new(14.0),
        None,
        None,
        &TablePaginationConfig {
            available_height: Pt::new(20.0),
            page_height: Pt::new(200.0),
            suppress_first_row_top: false,
        },
    );

    let text_counts = slices
        .iter()
        .map(|slice| {
            slice
                .commands
                .iter()
                .filter(|command| matches!(command, DrawCommand::Text { .. }))
                .count()
        })
        .collect::<Vec<_>>();
    assert_eq!(text_counts, vec![1, 3]);
}

#[test]
fn continuation_slices_use_their_own_page_heights() {
    let rows = (0..4)
        .map(|_| {
            let mut row = tall_row(2);
            row.cant_split = Some(true);
            row
        })
        .collect::<Vec<_>>();
    let col_widths = vec![Pt::new(40.0)];

    let slices = layout_table_paginated_with_page_heights(
        &rows,
        &col_widths,
        Pt::ZERO,
        Pt::new(14.0),
        None,
        None,
        TablePaginationHeights {
            available_height: Pt::new(30.0),
            suppress_first_row_top: false,
            page_height_for_slice: |slice_index| match slice_index {
                1 => Pt::new(30.0),
                _ => Pt::new(60.0),
            },
            footnote_width: None,
            footnote_separator_height: Pt::ZERO,
            first_page_has_footnotes: false,
        },
    );

    let row_counts = slices
        .iter()
        .map(|slice| {
            slice
                .commands
                .iter()
                .filter(|command| matches!(command, DrawCommand::Text { .. }))
                .count()
                / 2
        })
        .collect::<Vec<_>>();
    assert_eq!(row_counts, vec![1, 1, 2]);
}

#[test]
fn lone_vmerge_restart_row_gets_the_same_height_as_an_unmerged_cell() {
    let build = |vmerge: Option<VerticalMergeState>| {
        let mut row = tall_row(3);
        row.cells[0].vertical_merge = vmerge;
        layout_table(
            &[row],
            &[Pt::new(40.0)],
            Pt::ZERO,
            Pt::new(14.0),
            None,
            None,
            false,
        )
    };

    let lone_restart = build(Some(VerticalMergeState::Restart));
    let control = build(None);

    assert!(
        control.size.height > Pt::ZERO,
        "control must have real height for this test to mean anything"
    );
    assert_eq!(
        lone_restart.size.height, control.size.height,
        "a restart with nothing continuing below it is an ordinary cell"
    );
}

#[test]
fn genuine_vmerge_span_height_is_not_double_counted() {
    let mut restart = tall_row(6);
    restart.cells[0].vertical_merge = Some(VerticalMergeState::Restart);
    let mut cont = tall_row(0);
    cont.cells[0].vertical_merge = Some(VerticalMergeState::Continue);

    let result = layout_table(
        &[restart, cont],
        &[Pt::new(40.0)],
        Pt::ZERO,
        Pt::new(14.0),
        None,
        None,
        false,
    );

    assert!(
        (result.size.height.raw() - 84.0).abs() < 0.01,
        "merged span should total the restart cell's content height (84pt), got {}",
        result.size.height.raw()
    );
}

#[test]
fn oversized_group_at_page_top_does_not_emit_an_empty_leading_slice() {
    let mut row = tall_row(20);
    row.cant_split = Some(true);

    let rows = [row];
    let slices = layout_table_paginated(
        &rows,
        &[Pt::new(40.0)],
        Pt::ZERO,
        Pt::new(14.0),
        None,
        None,
        &TablePaginationConfig {
            available_height: Pt::new(100.0),
            page_height: Pt::new(100.0),
            suppress_first_row_top: false,
        },
    );

    assert_eq!(slices.len(), 1, "no page to gain, so no page to push");
    assert!(
        !slices[0].commands.is_empty(),
        "the single slice must carry the content, not be an abandoned empty"
    );
}

#[test]
fn oversized_group_still_advances_when_the_next_page_is_roomier() {
    let mut row = tall_row(5);
    row.cant_split = Some(true);

    let rows = [row];
    let slices = layout_table_paginated(
        &rows,
        &[Pt::new(40.0)],
        Pt::ZERO,
        Pt::new(14.0),
        None,
        None,
        &TablePaginationConfig {
            available_height: Pt::new(30.0),
            page_height: Pt::new(100.0),
            suppress_first_row_top: false,
        },
    );

    assert_eq!(slices.len(), 2, "advancing gains 70pt, so it must advance");
    assert!(
        slices[0].commands.is_empty(),
        "leading slice is the advance"
    );
    assert!(!slices[1].commands.is_empty());
}

#[test]
fn table_row_split_allows_two_line_paragraph_to_divide_one_one() {
    let rows = vec![one_cell_row(vec![styled_para(
        2,
        ParagraphStyle::default(),
    )])];
    let slices = layout_table_paginated(
        &rows,
        &[Pt::new(40.0)],
        Pt::ZERO,
        Pt::new(14.0),
        None,
        None,
        &TablePaginationConfig {
            available_height: Pt::new(14.0),
            page_height: Pt::new(200.0),
            suppress_first_row_top: false,
        },
    );

    assert_eq!(slices.len(), 2);
    assert_eq!(slice_line_count(&slices[0]), 1);
    assert_eq!(slice_line_count(&slices[1]), 1);
}

#[test]
fn body_widow_control_does_not_limit_an_interior_table_row_cut() {
    let rows = vec![one_cell_row(vec![styled_para(
        6,
        ParagraphStyle::default(),
    )])];
    let slices = layout_table_paginated(
        &rows,
        &[Pt::new(40.0)],
        Pt::ZERO,
        Pt::new(14.0),
        None,
        None,
        &TablePaginationConfig {
            available_height: Pt::new(75.0),
            page_height: Pt::new(200.0),
            suppress_first_row_top: false,
        },
    );
    assert_eq!(slices.len(), 2);
    assert_eq!(slice_line_count(&slices[0]), 5);
    assert_eq!(slice_line_count(&slices[1]), 1);
}

#[test]
fn explicit_widow_off_matches_default_table_row_split_semantics() {
    let style = ParagraphStyle {
        widow_control: false,
        ..Default::default()
    };
    let rows = vec![one_cell_row(vec![styled_para(6, style)])];
    let slices = layout_table_paginated(
        &rows,
        &[Pt::new(40.0)],
        Pt::ZERO,
        Pt::new(14.0),
        None,
        None,
        &TablePaginationConfig {
            available_height: Pt::new(75.0),
            page_height: Pt::new(200.0),
            suppress_first_row_top: false,
        },
    );
    assert_eq!(slices.len(), 2);
    assert_eq!(slice_line_count(&slices[0]), 5);
    assert_eq!(slice_line_count(&slices[1]), 1);
}

#[test]
fn keep_lines_cell_paragraph_moves_whole_instead_of_splitting() {
    let style = ParagraphStyle {
        keep_lines: true,
        ..Default::default()
    };
    let rows = vec![one_cell_row(vec![styled_para(6, style)])];
    let slices = layout_table_paginated(
        &rows,
        &[Pt::new(40.0)],
        Pt::ZERO,
        Pt::new(14.0),
        None,
        None,
        &TablePaginationConfig {
            available_height: Pt::new(50.0),
            page_height: Pt::new(200.0),
            suppress_first_row_top: false,
        },
    );
    assert_eq!(slices.len(), 2);
    assert_eq!(
        slice_line_count(&slices[0]),
        0,
        "keepLines: nothing splits off"
    );
    assert_eq!(slice_line_count(&slices[1]), 6, "whole paragraph moved");
}

#[test]
fn cell_splits_at_paragraph_boundary_when_neither_paragraph_can_split() {
    let keep_lines = ParagraphStyle {
        keep_lines: true,
        ..Default::default()
    };
    let rows = vec![one_cell_row(vec![
        styled_para(3, keep_lines),
        styled_para(3, keep_lines),
    ])];
    let slices = layout_table_paginated(
        &rows,
        &[Pt::new(40.0)],
        Pt::ZERO,
        Pt::new(14.0),
        None,
        None,
        &TablePaginationConfig {
            available_height: Pt::new(60.0),
            page_height: Pt::new(200.0),
            suppress_first_row_top: false,
        },
    );
    assert_eq!(slices.len(), 2);
    assert_eq!(slice_line_count(&slices[0]), 3, "para A stays intact");
    assert_eq!(slice_line_count(&slices[1]), 3, "para B stays intact");
}

#[test]
fn keep_next_forbids_splitting_a_cell_at_that_paragraph_boundary() {
    let keep_next = ParagraphStyle {
        keep_next: true,
        keep_lines: true,
        ..Default::default()
    };
    let keep_lines = ParagraphStyle {
        keep_lines: true,
        ..Default::default()
    };
    let rows = vec![one_cell_row(vec![
        styled_para(3, keep_next),
        styled_para(3, keep_lines),
    ])];
    let slices = layout_table_paginated(
        &rows,
        &[Pt::new(40.0)],
        Pt::ZERO,
        Pt::new(14.0),
        None,
        None,
        &TablePaginationConfig {
            available_height: Pt::new(60.0),
            page_height: Pt::new(200.0),
            suppress_first_row_top: false,
        },
    );
    assert_eq!(slices.len(), 2);
    assert_eq!(
        slice_line_count(&slices[0]),
        0,
        "keepNext binds A to B: the boundary cut is illegal, cell moves whole"
    );
    assert_eq!(slice_line_count(&slices[1]), 6);
}

#[test]
fn table_row_continuation_may_end_with_a_single_line_slice() {
    let rows = vec![one_cell_row(vec![styled_para(
        11,
        ParagraphStyle::default(),
    )])];
    let slices = layout_table_paginated(
        &rows,
        &[Pt::new(40.0)],
        Pt::ZERO,
        Pt::new(14.0),
        None,
        None,
        &TablePaginationConfig {
            available_height: Pt::new(75.0),
            page_height: Pt::new(75.0),
            suppress_first_row_top: false,
        },
    );
    let counts: Vec<usize> = slices.iter().map(slice_line_count).collect();
    assert_eq!(counts.iter().sum::<usize>(), 11, "every line emitted once");
    assert_eq!(counts, vec![5, 5, 1]);
}

#[test]
fn cell_spacing_bottom_edge_gap_survives_pagination() {
    let spacing = Pt::new(6.0);
    let rows = vec![one_cell_row(vec![]), one_cell_row(vec![])];
    let widths = [Pt::new(94.0)];

    let whole = layout_table(&rows, &widths, spacing, Pt::new(14.0), None, None, false);
    assert_eq!(
        whole.size.height,
        spacing.times(3),
        "two leading gaps plus the table's own bottom edge"
    );

    let split = layout_table_paginated(
        &rows,
        &widths,
        spacing,
        Pt::new(14.0),
        None,
        None,
        &TablePaginationConfig {
            available_height: Pt::new(9.0),
            page_height: Pt::new(9.0),
            suppress_first_row_top: false,
        },
    );
    assert_eq!(split.len(), 2, "precondition: the table paginated");
    assert_eq!(
        split[0].size.height, spacing,
        "an intermediate slice ends at a page cut, not at the table's edge"
    );
    assert_eq!(
        split[1].size.height,
        spacing.times(2),
        "the final slice owns the trailing gap"
    );

    let total: Pt = split.iter().fold(Pt::ZERO, |sum, s| sum + s.size.height);
    assert_eq!(
        total, whole.size.height,
        "a paginated table owns the same total height as the same table \
         laid out whole"
    );
}
