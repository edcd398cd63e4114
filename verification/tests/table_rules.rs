//! Rules of tables that hold for all tables, on chosen ones.
use dxpdf::block::{
    CellVAlign, FloatingFrame, FloatingImage, FloatingImageX, FloatingImageY, FloatingShape,
    FootnoteParagraph, LayoutBlock, LayoutFootnote, RowHeightRule, TableBorderConfig,
    TableBorderLine, TableBorderStyle, TableCellInput, TableRowInput, VerticalMergeState, WrapMode,
};
use dxpdf::draw_command::{DrawCommand, FontId, ImageId, PathId, RgbColor, TextId};
use dxpdf::fragment::{AutoLineSpacingContribution, FontProps, Fragment, TextMetrics};
use dxpdf::geometry::{PtEdgeInsets, PtOffset, PtRect, PtSize};
use dxpdf::style::{LineSpacingRule, ParagraphStyle};
use dxpdf::table::borders::{resolve_border_conflict, CellEdge};
use dxpdf::table::grid::{build_row_groups, expand_rows_for_vmerge};
use dxpdf::table::layout::{measure_complete_table_height, measure_leading_table_group_height};
use dxpdf::table::layout::{layout_table_paginated_with_page_heights, TablePaginationHeights};
use dxpdf::table::paginate::PageHeights;
use dxpdf::table::types::{CellLayout, CellLayoutEntry};
use dxpdf::table::{
    compute_column_widths, layout_table, layout_table_paginated, measure_table_rows,
    TablePaginationConfig, TableSlice,
};
use dxpdf::dimension::Pt;

/// Lengths in points, as floating-point numbers.
trait PointLength: Sized {
    const ZERO: Self;
    const INFINITY: Self;
    fn new(points: f32) -> Self;
    fn raw(self) -> f32;
}

impl PointLength for Pt {
    const ZERO: Pt = Pt { units: 0 };
    const INFINITY: Pt = Pt { units: i64::MAX };

    fn new(points: f32) -> Pt {
        Pt { units: (points as f64 * 76200.0).round() as i64 }
    }

    fn raw(self) -> f32 {
        (self.units as f64 / 76200.0) as f32
    }
}

trait NamedColors {
    const BLACK: Self;
}

impl NamedColors for RgbColor {
    const BLACK: RgbColor = RgbColor { r: 0, g: 0, b: 0 };
}

trait NoInsets {
    const ZERO: Self;
}

impl NoInsets for PtEdgeInsets {
    const ZERO: PtEdgeInsets = PtEdgeInsets {
        top: Pt { units: 0 },
        right: Pt { units: 0 },
        bottom: Pt { units: 0 },
        left: Pt { units: 0 },
    };
}

/// A number for a text.
fn id(text: &str) -> TextId {
    let mut hash: u64 = 0xcbf2_9ce4_8422_2325;
    for byte in text.bytes() {
        hash = (hash ^ byte as u64).wrapping_mul(0x0000_0100_0000_01b3);
    }
    TextId { id: hash }
}

fn font() -> FontProps {
    FontProps {
        font: FontId { id: 1 },
        size: Pt::new(12.0),
        underline: false,
        auto_line_spacing: AutoLineSpacingContribution::Scaled,
    }
}

fn text_frag(text: &str, width: f32) -> Fragment {
    Fragment::Text {
        text: id(text),
        blank: text.trim().is_empty(),
        font: font(),
        color: RgbColor::BLACK,
        width: Pt::new(width),
        trimmed_width: Pt::new(width),
        metrics: TextMetrics {
            ascent: Pt::new(10.0),
            descent: Pt::new(4.0),
            leading: Pt::ZERO,
        },
        baseline_offset: Pt::ZERO,
        is_footnote_ref: false,
    }
}

fn tens() -> ParagraphStyle {
    ParagraphStyle { line_spacing: LineSpacingRule::Exact(Pt::new(10.0)), ..Default::default() }
}

fn text_block(texts: &[&str]) -> LayoutBlock {
    LayoutBlock::Paragraph {
        fragments: texts.iter().map(|text| text_frag(text, 60.0)).collect(),
        style: tens(),
        page_break_before: false,
        footnotes: Vec::new(),
        floating_images: Vec::new(),
        floating_shapes: Vec::new(),
    }
}

fn cell(texts: &[&str]) -> TableCellInput {
    TableCellInput {
        blocks: vec![text_block(texts)],
        margins: PtEdgeInsets::ZERO,
        grid_span: 1,
        shading: None,
        cell_borders: None,
        vertical_merge: None,
        vertical_align: CellVAlign::Top,
    }
}

fn row(cells: Vec<TableCellInput>) -> TableRowInput {
    TableRowInput {
        cells,
        height_rule: None,
        is_header: None,
        cant_split: None,
        grid_before: 0,
        border_overrides: None,
    }
}

fn count(slices: &[TableSlice<'_>], wanted: &str) -> Vec<usize> {
    slices
        .iter()
        .map(|slice| {
            slice
                .commands
                .iter()
                .filter(|command| {
                    matches!(command, DrawCommand::Text { text, .. } if *text == id(wanted))
                })
                .count()
        })
        .collect()
}

fn paginated<'a>(rows: &'a [TableRowInput], first: f32, page: f32) -> Vec<TableSlice<'a>> {
    layout_table_paginated(
        rows,
        &[Pt::new(100.0)],
        Pt::ZERO,
        Pt::new(10.0),
        None,
        &TablePaginationConfig {
            available_height: Pt::new(first),
            page_height: Pt::new(page),
            suppress_first_row_top: false,
        },
    )
}

#[test]
fn every_row_is_drawn_once_and_header_rows_on_each_page() {
    let mut header = row(vec![cell(&["header"])]);
    header.is_header = Some(true);
    let names: Vec<String> = (0..7).map(|i| format!("row {i}")).collect();
    let mut rows = vec![header];
    for name in &names {
        let mut body = row(vec![cell(&[name])]);
        body.height_rule = Some(RowHeightRule::AtLeast(Pt::new(20.0)));
        rows.push(body);
    }
    let slices = paginated(&rows, 55.0, 75.0);
    assert_eq!(slices.len(), 3);
    assert_eq!(count(&slices, "header"), vec![1, 1, 1]);
    for (i, name) in names.iter().enumerate() {
        let drawn = count(&slices, name);
        assert_eq!(drawn.iter().sum::<usize>(), 1);
        let wanted = if i < 2 { 0 } else if i < 5 { 1 } else { 2 };
        assert_eq!(drawn[wanted], 1, "{name}");
    }
}

#[test]
fn every_line_of_a_divided_row_is_drawn_once() {
    let texts: Vec<String> = (0..9).map(|i| format!("line {i}")).collect();
    let refs: Vec<&str> = texts.iter().map(|text| text.as_str()).collect();
    let rows = [row(vec![cell(&refs)])];
    let slices = paginated(&rows, 35.0, 40.0);
    assert_eq!(slices.len(), 3);
    for (i, text) in texts.iter().enumerate() {
        let drawn = count(&slices, text);
        assert_eq!(drawn.iter().sum::<usize>(), 1);
        let wanted = if i < 3 { 0 } else if i < 7 { 1 } else { 2 };
        assert_eq!(drawn[wanted], 1, "{text}");
    }
}

#[test]
fn row_groups_take_each_row_once() {
    let merged = |state| {
        let mut c = cell(&["m"]);
        c.vertical_merge = Some(state);
        c
    };
    let rows = [
        row(vec![cell(&["a"])]),
        row(vec![merged(VerticalMergeState::Restart)]),
        row(vec![merged(VerticalMergeState::Continue)]),
        row(vec![merged(VerticalMergeState::Continue)]),
        row(vec![cell(&["b"])]),
    ];
    let measured =
        measure_table_rows(&rows, &[Pt::new(100.0)], Pt::ZERO, Pt::new(10.0), None, false);
    let groups = build_row_groups(&rows, &measured.rows);
    let ranges: Vec<(usize, usize)> = groups.iter().map(|group| (group.start, group.end)).collect();
    assert_eq!(ranges, vec![(0, 1), (1, 4), (4, 5)]);
}

#[test]
fn merged_rows_grow_to_their_content_and_never_shrink() {
    let merged = |state| {
        let mut c = cell(&[]);
        c.vertical_merge = Some(state);
        c
    };
    let rows =
        [row(vec![merged(VerticalMergeState::Restart)]), row(vec![merged(VerticalMergeState::Continue)])];
    let entry = |height: f32| CellLayoutEntry {
        layout: CellLayout {
            commands: Vec::new(),
            content_height: Pt::new(height),
            lines: Vec::new(),
            footnotes: Vec::new(),
        },
        cell_x: Pt::ZERO,
        cell_w: Pt::new(100.0),
        grid_col: 0,
    };
    let layouts = vec![vec![entry(50.0)], vec![entry(0.0)]];
    let mut heights = vec![Pt::new(10.0), Pt::new(20.0)];
    expand_rows_for_vmerge(&rows, &layouts, &mut heights);
    assert_eq!(heights[0] + heights[1], Pt::new(50.0));
    assert!(heights[0] >= Pt::new(10.0) && heights[1] >= Pt::new(20.0));
}

#[test]
fn a_conflict_of_three_borders_has_one_winner() {
    let edge = |width: f32, style, r| {
        CellEdge::Line(TableBorderLine {
            width: Pt::new(width),
            color: RgbColor { r, g: 0, b: 0 },
            style,
        })
    };
    let edges = [
        CellEdge::Absent,
        CellEdge::Suppressed,
        edge(1.0, TableBorderStyle::Single, 0),
        edge(1.0, TableBorderStyle::Single, 200),
        edge(1.0, TableBorderStyle::Double, 0),
        edge(0.5, TableBorderStyle::Double, 9),
    ];
    for a in edges {
        for b in edges {
            assert_eq!(resolve_border_conflict(a, b), resolve_border_conflict(b, a));
            for c in edges {
                assert_eq!(
                    resolve_border_conflict(a, resolve_border_conflict(b, c)),
                    resolve_border_conflict(resolve_border_conflict(a, b), c)
                );
            }
        }
    }
}

#[test]
fn columns_fall_short_of_the_width_by_less_than_a_unit_each() {
    let widths = compute_column_widths(&[Pt::new(1.0), Pt::new(1.0), Pt::new(1.0)], 3, Pt::new(100.0));
    let total: i64 = widths.iter().map(|width| width.units).sum();
    assert!(total <= Pt::new(100.0).units && Pt::new(100.0).units < total + 3);
}

#[test]
fn a_nested_table_is_laid_out_in_its_cell() {
    let inner = LayoutBlock::Table {
        rows: vec![row(vec![cell(&["inner"])])],
        col_widths: vec![Pt::new(50.0)],
        cell_spacing: Pt::ZERO,
        border_config: None,
        indent: Pt::ZERO,
        alignment: None,
        float_info: None,
        style_id: None,
    };
    let mut outer = cell(&["outer"]);
    outer.blocks.push(inner);
    let rows = [row(vec![outer])];
    let table = layout_table(&rows, &[Pt::new(100.0)], Pt::ZERO, Pt::new(10.0), None, false);
    assert_eq!(table.size.height, Pt::new(20.0));
    let texts: Vec<(TextId, Pt)> = table
        .commands
        .iter()
        .filter_map(|command| match command {
            DrawCommand::Text { text, position, .. } => Some((*text, position.y)),
            _ => None,
        })
        .collect();
    assert_eq!(texts.len(), 2);
    assert_eq!((texts[0].0, texts[1].0), (id("outer"), id("inner")));
    assert_eq!(texts[1].1 - texts[0].1, Pt::new(10.0));
}

#[test]
fn heights_measured_ahead_are_those_laid_out() {
    let mut header = row(vec![cell(&["header"])]);
    header.is_header = Some(true);
    let rows = [header, row(vec![cell(&["a"])]), row(vec![cell(&["b", "c"])])];
    let widths = [Pt::new(100.0)];
    let whole = layout_table(&rows, &widths, Pt::new(2.0), Pt::new(10.0), None, false);
    assert_eq!(
        measure_complete_table_height(&rows, &widths, Pt::new(2.0), Pt::new(10.0), None, false),
        Some(whole.size.height)
    );
    assert_eq!(
        measure_complete_table_height(&[], &widths, Pt::ZERO, Pt::new(10.0), None, false),
        None
    );
    let leading =
        measure_leading_table_group_height(&rows, &widths, Pt::ZERO, Pt::new(10.0), None, false);
    assert_eq!(leading, Some(Pt::new(10.0)));
    assert_eq!(
        measure_leading_table_group_height(&[], &widths, Pt::ZERO, Pt::new(10.0), None, false),
        None
    );
}

/// A header row that refers to a footnote and is not divided.
fn noted_header() -> TableRowInput {
    let mut reference = text_frag("reference", 30.0);
    if let Fragment::Text { is_footnote_ref, .. } = &mut reference {
        *is_footnote_ref = true;
    }
    let mut noted = cell(&[]);
    noted.blocks = vec![LayoutBlock::Paragraph {
        fragments: vec![reference],
        style: tens(),
        page_break_before: false,
        footnotes: vec![LayoutFootnote {
            paragraphs: vec![FootnoteParagraph {
                fragments: vec![text_frag("note", 40.0)],
                style: tens(),
            }],
        }],
        floating_images: Vec::new(),
        floating_shapes: Vec::new(),
    }];
    let mut header = row(vec![noted]);
    header.is_header = Some(true);
    header.cant_split = Some(true);
    header
}

fn with_notes<'a>(
    rows: &'a [TableRowInput],
    first: f32,
    page: f32,
    footnote_width: Option<Pt>,
) -> Vec<TableSlice<'a>> {
    let page_heights = PageHeights::Uniform(Pt::new(page));
    layout_table_paginated_with_page_heights(
        rows,
        &[Pt::new(200.0)],
        Pt::ZERO,
        Pt::new(14.0),
        None,
        &TablePaginationHeights {
            available_height: Pt::new(first),
            suppress_first_row_top: false,
            page_heights,
            footnote_width,
            footnote_separator_height: Pt::new(4.0),
            first_page_has_footnotes: false,
        },
    )
}

#[test]
fn a_header_row_that_moves_takes_its_footnotes_along() {
    let rows = [noted_header()];
    let slices = with_notes(&rows, 0.0, 200.0, Some(Pt::new(200.0)));
    assert_eq!(slices.len(), 2);
    assert!(slices[0].commands.is_empty() && slices[0].footnotes.is_empty());
    assert_eq!(count(&slices, "reference"), vec![0, 1]);
    assert_eq!(slices[1].footnotes.len(), 1);
}

#[test]
fn header_rows_left_alone_move_on_with_their_footnotes() {
    let mut body = row(vec![cell(&["body"])]);
    body.height_rule = Some(RowHeightRule::AtLeast(Pt::new(30.0)));
    body.cant_split = Some(true);
    let mut header = noted_header();
    header.cant_split = None;
    let rows = [header, body];
    let slices = with_notes(&rows, 20.0, 200.0, None);
    assert_eq!(count(&slices, "reference"), vec![0, 1]);
    assert_eq!(count(&slices, "body"), vec![0, 1]);
    assert!(slices[0].footnotes.is_empty());
    assert_eq!(slices[1].footnotes.len(), 1);
}

#[test]
fn repeated_header_rows_do_not_repeat_their_footnotes() {
    let mut rows = vec![noted_header()];
    for name in ["a", "b", "c"] {
        let mut body = row(vec![cell(&[name])]);
        body.height_rule = Some(RowHeightRule::AtLeast(Pt::new(30.0)));
        rows.push(body);
    }
    let slices = with_notes(&rows, 60.0, 45.0, None);
    assert_eq!(count(&slices, "reference"), vec![1, 1, 1]);
    let notes: Vec<usize> = slices.iter().map(|slice| slice.footnotes.len()).collect();
    assert_eq!(notes, vec![1, 0, 0]);
}

fn frame() -> FloatingFrame {
    FloatingFrame {
        x: FloatingImageX::Absolute(Pt::ZERO),
        y: FloatingImageY::RelativeToParagraph(Pt::ZERO),
        size: PtSize::new(Pt::new(50.0), Pt::new(20.0)),
        wrap_mode: WrapMode::TopAndBottom,
        dist_top: Pt::ZERO,
        dist_bottom: Pt::ZERO,
        dist_left: Pt::ZERO,
        dist_right: Pt::ZERO,
        behind_doc: false,
        relative_height: 0,
    }
}

#[test]
fn a_row_with_floating_objects_is_not_divided() {
    let divisible = |images: usize, shapes: usize| {
        let mut floating = text_block(&["one", "two", "three"]);
        if let LayoutBlock::Paragraph { floating_images, floating_shapes, .. } = &mut floating {
            for _ in 0..images {
                floating_images.push(FloatingImage { frame: frame(), image: ImageId { id: 1 } });
            }
            for _ in 0..shapes {
                floating_shapes.push(FloatingShape {
                    frame: frame(),
                    path: PathId { id: 1 },
                    text_commands: Vec::new(),
                });
            }
        }
        let mut owner = cell(&["text"]);
        owner.blocks.push(floating);
        let rows = [row(vec![cell(&["left"]), owner])];
        let widths = [Pt::new(100.0), Pt::new(100.0)];
        let measured = measure_table_rows(&rows, &widths, Pt::ZERO, Pt::new(10.0), None, false);
        build_row_groups(&rows, &measured.rows)[0].splittable
    };
    assert!(divisible(0, 0));
    assert!(!divisible(1, 0));
    assert!(!divisible(0, 1));
}

fn ruled() -> Option<TableBorderConfig> {
    let line = Some(TableBorderLine {
        width: Pt::new(1.0),
        color: RgbColor { r: 0, g: 0, b: 0 },
        style: TableBorderStyle::Single,
    });
    Some(TableBorderConfig {
        top: line,
        bottom: line,
        left: line,
        right: line,
        inside_h: line,
        inside_v: line,
    })
}

#[test]
fn a_table_that_fits_is_drawn_as_it_stands() {
    let merged = |text: &str, state| {
        let mut c = cell(&[text]);
        c.vertical_merge = Some(state);
        c
    };
    let mut header = row(vec![cell(&["header"]), cell(&["right"])]);
    header.is_header = Some(true);
    let rows = [
        header,
        row(vec![merged("a", VerticalMergeState::Restart), cell(&["b"])]),
        row(vec![merged("", VerticalMergeState::Continue), cell(&["c", "d"])]),
        row(vec![cell(&["e"]), cell(&["f"])]),
    ];
    let widths = [Pt::new(100.0), Pt::new(100.0)];
    let whole = layout_table(&rows, &widths, Pt::ZERO, Pt::new(10.0), ruled(), false);
    let slices = layout_table_paginated(
        &rows,
        &widths,
        Pt::ZERO,
        Pt::new(10.0),
        ruled(),
        &TablePaginationConfig {
            available_height: whole.size.height + Pt::new(10.0),
            page_height: whole.size.height + Pt::new(10.0),
            suppress_first_row_top: false,
        },
    );
    assert_eq!(slices.len(), 1);
    assert_eq!(slices[0].size, whole.size);
    assert_eq!(slices[0].commands, whole.commands);
}

#[test]
fn a_merge_of_one_row_is_drawn_as_an_ordinary_cell() {
    let table = |state| {
        let mut lone = cell(&["lone", "text"]);
        lone.vertical_merge = state;
        lone.vertical_align = CellVAlign::Bottom;
        let rows = [
            row(vec![cell(&["a"]), cell(&["b"])]),
            row(vec![lone, cell(&["c"])]),
            row(vec![cell(&["d"]), cell(&["e", "f"])]),
        ];
        let widths = [Pt::new(100.0), Pt::new(100.0)];
        layout_table(&rows, &widths, Pt::ZERO, Pt::new(10.0), ruled(), false)
    };
    let merged = table(Some(VerticalMergeState::Restart));
    let ordinary = table(None);
    assert_eq!(merged.size, ordinary.size);
    assert_eq!(merged.commands, ordinary.commands);
}

#[test]
fn floating_objects_of_a_cell_are_drawn_once_at_their_places() {
    let mut floating = text_block(&["text"]);
    if let LayoutBlock::Paragraph { style, floating_images, floating_shapes, .. } = &mut floating {
        style.space_before = Pt::new(2.0);
        let mut over = frame();
        over.x = FloatingImageX::Absolute(Pt::new(15.0));
        over.y = FloatingImageY::RelativeToParagraph(Pt::new(1.0));
        over.wrap_mode = WrapMode::Overlay;
        floating_images.push(FloatingImage { frame: over, image: ImageId { id: 1 } });
        let mut under = over;
        under.behind_doc = true;
        under.x = FloatingImageX::Mirrored { odd: Pt::new(20.0), even: Pt::new(30.0) };
        under.y = FloatingImageY::Absolute(Pt::new(7.0));
        floating_images.push(FloatingImage { frame: under, image: ImageId { id: 2 } });
        floating_shapes.push(FloatingShape {
            frame: over,
            path: PathId { id: 3 },
            text_commands: vec![DrawCommand::Text {
                position: PtOffset::new(Pt::new(5.0), Pt::new(6.0)),
                text: id("in the drawing"),
                font: FontId { id: 1 },
                color: RgbColor::BLACK,
            }],
        });
    }
    let mut owner = cell(&[]);
    owner.blocks = vec![floating];
    owner.margins = PtEdgeInsets::new(Pt::new(3.0), Pt::new(4.0), Pt::new(3.0), Pt::new(4.0));
    let rows = [row(vec![owner])];
    let table = layout_table(&rows, &[Pt::new(100.0)], Pt::ZERO, Pt::new(10.0), None, false);
    let at = |rect: PtRect| (rect.origin.x, rect.origin.y);
    assert_eq!(table.commands.len(), 5);
    assert!(matches!(
        table.commands[0],
        DrawCommand::Image { rect, image: ImageId { id: 2 } }
            if at(rect) == (Pt::new(24.0), Pt::new(10.0))
    ));
    assert!(matches!(table.commands[1], DrawCommand::Text { text, .. } if text == id("text")));
    assert!(matches!(
        table.commands[2],
        DrawCommand::Image { rect, image: ImageId { id: 1 } }
            if at(rect) == (Pt::new(19.0), Pt::new(6.0))
    ));
    assert!(matches!(
        table.commands[3],
        DrawCommand::Path { rect, path: PathId { id: 3 } }
            if at(rect) == (Pt::new(19.0), Pt::new(6.0))
    ));
    assert!(matches!(
        table.commands[4],
        DrawCommand::Text { position, text, .. }
            if text == id("in the drawing")
                && position == PtOffset::new(Pt::new(24.0), Pt::new(12.0))
    ));
    assert_eq!(table.size.height, Pt::new(18.0), "the objects take no room");
}

#[test]
fn rows_of_negative_height_make_room_for_others() {
    let exact = |text: &str, height: f32| {
        let mut one = row(vec![cell(&[text])]);
        one.height_rule = Some(RowHeightRule::Exact(Pt::new(height)));
        one
    };
    let rows = [exact("first", 30.0), exact("second", -20.0), exact("third", 25.0)];
    let whole = layout_table(&rows, &[Pt::new(100.0)], Pt::ZERO, Pt::new(10.0), None, false);
    let slices = paginated(&rows, 35.0, 35.0);
    assert_eq!(slices.len(), 1, "no first rows are higher than the page");
    assert_eq!(slices[0].commands, whole.commands);
    assert_eq!(slices[0].size, whole.size);
    assert_eq!(slices[0].size.height, Pt::new(35.0));
    assert!(paginated(&rows, 29.0, 35.0).len() > 1, "the first row does not fit");
}
