//! Blocks placed on the pages of a section.
use dxpdf::block::{
    CellVAlign, FloatingFrame, FloatingImageX, FloatingImageY, FloatingShape, FootnoteParagraph,
    LayoutBlock, LayoutFootnote, TableAnchor, TableCellInput, TableFloatInfo, TableRowInput,
    WrapMode,
};
use dxpdf::draw_command::{DrawCommand, FontId, PathId, RgbColor, TextId};
use dxpdf::float::WrapTextSide;
use dxpdf::fragment::{AutoLineSpacingContribution, FontProps, Fragment, TextMetrics};
use dxpdf::geometry::{PtEdgeInsets, PtSize};
use dxpdf::page::{ColumnGeometry, LayoutedPage, PageConfig};
use dxpdf::section::keep_next::{
    measure_table_aware_keep_next_prefix, table_aware_prefix_already_admitted, MeasureBox,
};
use dxpdf::section::predicates::{
    layout_block_has_unsupported_column_float, starts_keep_next_chain,
    table_is_simple_keep_next_bridge, table_keep_next_sentinel,
};
use dxpdf::section::ContinuationState;
use dxpdf::style::{LineSpacingRule, ParagraphStyle};
use dxpdf::dimension::Pt;

/// Lengths in points, as floating-point numbers.
trait PointLength: Sized {
    const ZERO: Self;
    const INFINITY: Self;
    fn new(points: f32) -> Self;
    fn raw(self) -> f32;
}

impl PointLength for Pt {
    const ZERO: Pt = Pt { units: 0 };
    const INFINITY: Pt = Pt { units: i64::MAX };

    fn new(points: f32) -> Pt {
        Pt { units: (points as f64 * 76200.0).round() as i64 }
    }

    fn raw(self) -> f32 {
        (self.units as f64 / 76200.0) as f32
    }
}

trait NamedColors {
    const BLACK: Self;
}

impl NamedColors for RgbColor {
    const BLACK: RgbColor = RgbColor { r: 0, g: 0, b: 0 };
}

trait NoInsets {
    const ZERO: Self;
}

impl NoInsets for PtEdgeInsets {
    const ZERO: PtEdgeInsets = PtEdgeInsets {
        top: Pt { units: 0 },
        right: Pt { units: 0 },
        bottom: Pt { units: 0 },
        left: Pt { units: 0 },
    };
}

/// A number for a text.
fn id(text: &str) -> TextId {
    let mut hash: u64 = 0xcbf2_9ce4_8422_2325;
    for byte in text.bytes() {
        hash = (hash ^ byte as u64).wrapping_mul(0x0000_0100_0000_01b3);
    }
    TextId { id: hash }
}

fn font() -> FontProps {
    FontProps {
        font: FontId { id: 1 },
        size: Pt::new(12.0),
        underline: false,
        auto_line_spacing: AutoLineSpacingContribution::Scaled,
    }
}

fn text_frag(text: &str, width: f32) -> Fragment {
    Fragment::Text {
        text: id(text),
        blank: text.trim().is_empty(),
        font: font(),
        color: RgbColor::BLACK,
        width: Pt::new(width),
        trimmed_width: Pt::new(width),
        metrics: TextMetrics {
            ascent: Pt::new(10.0),
            descent: Pt::new(4.0),
            leading: Pt::ZERO,
        },
        baseline_offset: Pt::ZERO,
        is_footnote_ref: false,
    }
}

fn layout_section(
    blocks: &[LayoutBlock],
    config: &PageConfig,
    _measure_text: Option<()>,
    separator_indent: Pt,
    default_line_height: Pt,
    continuation: Option<ContinuationState>,
) -> Vec<LayoutedPage> {
    dxpdf::section::layout_section(
        blocks,
        config,
        separator_indent,
        default_line_height,
        continuation,
    )
}

fn paragraph(keep_next: bool, page_break_before: bool) -> LayoutBlock {
    LayoutBlock::Paragraph {
        fragments: Vec::new(),
        style: ParagraphStyle {
            keep_next,
            ..Default::default()
        },
        page_break_before,
        footnotes: Vec::new(),
        floating_images: Vec::new(),
        floating_shapes: Vec::new(),
    }
}

fn line_paragraph(keep_next: bool, line_height: f32) -> LayoutBlock {
    LayoutBlock::Paragraph {
        fragments: vec![Fragment::LineBreak {
            line_height: Pt::new(line_height),
        }],
        style: ParagraphStyle {
            keep_next,
            ..Default::default()
        },
        page_break_before: false,
        footnotes: Vec::new(),
        floating_images: Vec::new(),
        floating_shapes: Vec::new(),
    }
}

fn text_paragraph(text: &str, keep_next: bool, line_height: f32) -> LayoutBlock {
    LayoutBlock::Paragraph {
        fragments: vec![text_frag(text, 20.0)],
        style: ParagraphStyle {
            keep_next,
            line_spacing: LineSpacingRule::Exact(Pt::new(line_height)),
            ..Default::default()
        },
        page_break_before: false,
        footnotes: Vec::new(),
        floating_images: Vec::new(),
        floating_shapes: Vec::new(),
    }
}

fn auto_three_line_paragraph(space_after: f32) -> LayoutBlock {
    let mut block = text_paragraph("one ", false, 14.0);
    let LayoutBlock::Paragraph {
        fragments, style, ..
    } = &mut block
    else {
        unreachable!();
    };
    fragments.push(match &fragments[0] {
        Fragment::Text { .. } => {
            let mut fragment = fragments[0].clone();
            let Fragment::Text { text, .. } = &mut fragment else {
                unreachable!();
            };
            *text = id("two ");
            fragment
        }
        _ => unreachable!(),
    });
    fragments.push(match &fragments[0] {
        Fragment::Text { .. } => {
            let mut fragment = fragments[0].clone();
            let Fragment::Text { text, .. } = &mut fragment else {
                unreachable!();
            };
            *text = id("three");
            fragment
        }
        _ => unreachable!(),
    });
    for fragment in fragments.iter_mut() {
        let Fragment::Text {
            width,
            trimmed_width,
            metrics,
            ..
        } = fragment
        else {
            unreachable!();
        };
        *width = Pt::new(100.0);
        *trimmed_width = Pt::new(100.0);
        metrics.leading = Pt::ZERO;
    }
    style.line_spacing = LineSpacingRule::Auto { line: 276 };
    style.space_after = Pt::new(space_after);
    style.widow_control = true;
    block
}

fn cell(blocks: Vec<LayoutBlock>) -> TableCellInput {
    TableCellInput {
        blocks,
        margins: PtEdgeInsets::ZERO,
        grid_span: 1,
        shading: None,
        cell_borders: None,
        vertical_merge: None,
        vertical_align: CellVAlign::Top,
    }
}

fn row(cells: Vec<TableCellInput>) -> TableRowInput {
    TableRowInput {
        cells,
        height_rule: None,
        is_header: None,
        cant_split: None,
        grid_before: 0,
        border_overrides: None,
    }
}

fn table(rows: Vec<TableRowInput>) -> LayoutBlock {
    LayoutBlock::Table {
        rows,
        col_widths: vec![Pt::new(100.0)],
        cell_spacing: Pt::ZERO,
        border_config: None,
        indent: Pt::ZERO,
        alignment: None,
        float_info: None,
        style_id: None,
    }
}

fn text_bridge_table(text: &str, line_height: f32) -> LayoutBlock {
    table(vec![row(vec![cell(vec![text_paragraph(
        text,
        true,
        line_height,
    )])])])
}

fn top_and_bottom_owner(space_after: f32, wrap_mode: WrapMode) -> LayoutBlock {
    let mut block = text_paragraph("owner", false, 10.0);
    let LayoutBlock::Paragraph {
        style,
        floating_shapes,
        ..
    } = &mut block
    else {
        unreachable!();
    };
    style.space_before = Pt::new(5.0);
    style.space_after = Pt::new(space_after);
    floating_shapes.push(FloatingShape {
        frame: FloatingFrame {
            x: FloatingImageX::Absolute(Pt::ZERO),
            y: FloatingImageY::Absolute(Pt::new(30.0)),
            size: PtSize::new(Pt::new(180.0), Pt::new(10.0)),
            wrap_mode,
            dist_top: Pt::ZERO,
            dist_bottom: Pt::ZERO,
            dist_left: Pt::ZERO,
            dist_right: Pt::ZERO,
            behind_doc: true,
            relative_height: 0,
        },
        path: PathId { id: 0 },
        text_commands: Vec::new(),
    });
    block
}

fn text_y(page: &LayoutedPage, expected: &str) -> Pt {
    page.commands
        .iter()
        .find_map(|command| match command {
            DrawCommand::Text { position, text, .. } if *text == id(expected) => {
                Some(position.y)
            }
            _ => None,
        })
        .expect("expected text command")
}

fn text_x(page: &LayoutedPage, expected: &str) -> Pt {
    page.commands
        .iter()
        .find_map(|command| match command {
            DrawCommand::Text { position, text, .. } if *text == id(expected) => {
                Some(position.x)
            }
            _ => None,
        })
        .expect("expected text command")
}

fn text_location(pages: &[LayoutedPage], expected: &str) -> Option<(usize, Pt)> {
    pages.iter().enumerate().find_map(|(page_idx, page)| {
        page.commands.iter().find_map(|command| match command {
            DrawCommand::Text { position, text, .. } if *text == id(expected) => {
                Some((page_idx, position.x))
            }
            _ => None,
        })
    })
}

fn small_page_config() -> PageConfig {
    PageConfig {
        page_size: PtSize::new(Pt::new(200.0), Pt::new(100.0)),
        margins: PtEdgeInsets::new(Pt::new(10.0), Pt::new(10.0), Pt::new(10.0), Pt::new(10.0)),
        header_margin: Pt::new(5.0),
        footer_margin: Pt::new(5.0),
        columns: vec![ColumnGeometry {
            x_offset: Pt::ZERO,
            width: Pt::new(180.0),
        }],
    }
}

fn two_column_page_config() -> PageConfig {
    PageConfig {
        page_size: PtSize::new(Pt::new(220.0), Pt::new(100.0)),
        margins: PtEdgeInsets::new(Pt::new(10.0), Pt::new(10.0), Pt::new(10.0), Pt::new(10.0)),
        header_margin: Pt::new(5.0),
        footer_margin: Pt::new(5.0),
        columns: vec![
            ColumnGeometry {
                x_offset: Pt::ZERO,
                width: Pt::new(80.0),
            },
            ColumnGeometry {
                x_offset: Pt::new(110.0),
                width: Pt::new(80.0),
            },
        ],
    }
}

fn page_has_text(page: &LayoutedPage, expected: &str) -> bool {
    page.commands.iter().any(|command| {
        matches!(command, DrawCommand::Text { text, .. } if *text == id(expected))
    })
}

#[test]
fn page_break_before_starts_a_new_keep_next_chain() {
    let blocks = [paragraph(true, false), paragraph(true, true)];

    assert!(starts_keep_next_chain(&blocks, 1));
}

#[test]
fn table_sentinel_is_last_row_first_cell_first_block_only() {
    let positive = table(vec![
        row(vec![cell(vec![paragraph(false, false)])]),
        row(vec![cell(vec![paragraph(true, false)])]),
    ]);
    assert!(table_keep_next_sentinel(&positive));

    let second_cell_only = table(vec![row(vec![
        cell(vec![paragraph(false, false)]),
        cell(vec![paragraph(true, false)]),
    ])]);
    assert!(!table_keep_next_sentinel(&second_cell_only));

    let later_block_only = table(vec![row(vec![cell(vec![
        paragraph(false, false),
        paragraph(true, false),
    ])])]);
    assert!(!table_keep_next_sentinel(&later_block_only));
}

#[test]
fn floating_table_never_exports_a_body_keep_next_sentinel() {
    let mut floating = table(vec![row(vec![cell(vec![paragraph(true, false)])])]);
    let LayoutBlock::Table { float_info, .. } = &mut floating else {
        unreachable!();
    };
    *float_info = Some(TableFloatInfo {
        right_gap: Pt::ZERO,
        bottom_gap: Pt::ZERO,
        x_align: None,
        y_offset: Pt::ZERO,
        vert_anchor: TableAnchor::Text,
        overlap: None,
    });

    assert!(!table_keep_next_sentinel(&floating));
    assert!(layout_block_has_unsupported_column_float(&floating));
}

#[test]
fn complex_table_content_falls_back_from_complete_bridge_measurement() {
    let with_footnote = table(vec![row(vec![cell(vec![LayoutBlock::Paragraph {
        fragments: Vec::new(),
        style: ParagraphStyle {
            keep_next: true,
            ..Default::default()
        },
        page_break_before: false,
        footnotes: vec![LayoutFootnote {
            paragraphs: vec![FootnoteParagraph {
                fragments: Vec::new(),
                style: ParagraphStyle::default(),
            }],
        }],
        floating_images: Vec::new(),
        floating_shapes: Vec::new(),
    }])])]);
    assert!(!table_is_simple_keep_next_bridge(&with_footnote));

    let nested = table(vec![row(vec![cell(vec![table(Vec::new())])])]);
    assert!(!table_is_simple_keep_next_bridge(&nested));
}

#[test]
fn table_aware_prefix_measures_complete_bridge_and_terminal_paragraph() {
    let blocks = vec![
        line_paragraph(true, 10.0),
        table(vec![row(vec![cell(vec![line_paragraph(true, 20.0)])])]),
        line_paragraph(false, 12.0),
    ];
    let constraints = MeasureBox {
        width: Pt::new(100.0),
        max_height: Pt::INFINITY,
        default_line_height: Pt::new(14.0),
    };
    let prefix = measure_table_aware_keep_next_prefix(
        &blocks,
        0,
        constraints,
        Pt::new(100.0),
        None,
        None,
    )
    .expect("a paragraph-table-paragraph bridge is measurable");

    assert_eq!(prefix.end_exclusive, blocks.len());
    assert_eq!(prefix.group.body_height, Pt::new(42.0));
}

#[test]
fn over_page_chain_may_end_at_a_complete_bridge_table() {
    let blocks = vec![
        table(vec![row(vec![cell(vec![line_paragraph(true, 14.0)])])]),
        line_paragraph(false, 80.0),
    ];
    let constraints = MeasureBox {
        width: Pt::new(100.0),
        max_height: Pt::INFINITY,
        default_line_height: Pt::new(14.0),
    };
    let prefix = measure_table_aware_keep_next_prefix(
        &blocks,
        0,
        constraints,
        Pt::new(20.0),
        None,
        None,
    )
    .expect("the complete first bridge is the safe maximal prefix");

    assert_eq!(prefix.end_exclusive, 1);
    assert_eq!(prefix.group.body_height, Pt::new(14.0));
}

#[test]
fn first_bridge_without_successor_or_that_exceeds_a_page_falls_back() {
    let bridge = || table(vec![row(vec![cell(vec![line_paragraph(true, 14.0)])])]);
    let constraints = MeasureBox {
        width: Pt::new(100.0),
        max_height: Pt::INFINITY,
        default_line_height: Pt::new(14.0),
    };

    assert!(measure_table_aware_keep_next_prefix(
        &[bridge()],
        0,
        constraints,
        Pt::new(100.0),
        None,
        None,
    )
    .is_none());

    assert!(measure_table_aware_keep_next_prefix(
        &[bridge(), line_paragraph(false, 10.0)],
        0,
        constraints,
        Pt::new(5.0),
        None,
        None,
    )
    .is_none());

    let mut hard_successor = line_paragraph(false, 10.0);
    let LayoutBlock::Paragraph {
        page_break_before, ..
    } = &mut hard_successor
    else {
        unreachable!();
    };
    *page_break_before = true;
    assert!(measure_table_aware_keep_next_prefix(
        &[bridge(), hard_successor],
        0,
        constraints,
        Pt::new(100.0),
        None,
        None,
    )
    .is_none());
}

#[test]
fn admitted_prefix_suppresses_every_contained_block_preflight() {
    let admitted_through = 9;
    for block_idx in 4..admitted_through {
        assert!(table_aware_prefix_already_admitted(
            block_idx,
            admitted_through
        ));
    }
    assert!(!table_aware_prefix_already_admitted(
        admitted_through,
        admitted_through
    ));
}

#[test]
fn paragraph_bridge_terminal_prefix_moves_together_to_fresh_page() {
    let blocks = vec![
        text_paragraph("filler", false, 50.0),
        text_paragraph("head", true, 14.0),
        text_bridge_table("bridge", 14.0),
        text_paragraph("terminal", false, 14.0),
    ];
    let pages = layout_section(
        &blocks,
        &small_page_config(),
        None,
        Pt::ZERO,
        Pt::new(14.0),
        None,
    );

    assert_eq!(pages.len(), 2);
    for expected in ["head", "bridge", "terminal"] {
        assert!(!page_has_text(&pages[0], expected));
        assert!(page_has_text(&pages[1], expected));
    }
}

#[test]
fn bridge_table_can_start_body_admission() {
    let blocks = vec![
        text_paragraph("filler", false, 60.0),
        text_bridge_table("bridge", 14.0),
        text_paragraph("terminal", false, 14.0),
    ];
    let pages = layout_section(
        &blocks,
        &small_page_config(),
        None,
        Pt::ZERO,
        Pt::new(14.0),
        None,
    );

    assert_eq!(pages.len(), 2);
    for expected in ["bridge", "terminal"] {
        assert!(!page_has_text(&pages[0], expected));
        assert!(page_has_text(&pages[1], expected));
    }
}

#[test]
fn admitted_long_prefix_does_not_move_again_after_its_first_table() {
    let blocks = vec![
        text_paragraph("filler", false, 50.0),
        text_paragraph("head", true, 21.0),
        text_bridge_table("bridge-a", 21.0),
        text_paragraph("mid", true, 14.0),
        text_bridge_table("bridge-b", 14.0),
        text_paragraph("terminal", false, 14.0),
    ];
    let pages = layout_section(
        &blocks,
        &small_page_config(),
        None,
        Pt::ZERO,
        Pt::new(14.0),
        None,
    );

    assert_eq!(pages.len(), 3);
    assert!(page_has_text(&pages[1], "mid"));
    assert!(page_has_text(&pages[1], "bridge-b"));
    assert!(!page_has_text(&pages[2], "mid"));
    assert!(page_has_text(&pages[2], "terminal"));
}

#[test]
fn trailing_space_entering_owner_top_bottom_band_moves_single_line_below_it() {
    let no_collision = layout_section(
        &[top_and_bottom_owner(4.0, WrapMode::TopAndBottom)],
        &small_page_config(),
        None,
        Pt::ZERO,
        Pt::new(10.0),
        None,
    );
    let collision = layout_section(
        &[top_and_bottom_owner(15.0, WrapMode::TopAndBottom)],
        &small_page_config(),
        None,
        Pt::ZERO,
        Pt::new(10.0),
        None,
    );

    assert_eq!(no_collision.len(), 1);
    assert_eq!(collision.len(), 1);
    assert_eq!(
        text_y(&collision[0], "owner") - text_y(&no_collision[0], "owner"),
        Pt::new(30.0),
        "the paragraph box starts at the 40pt band bottom, preserving space_before once"
    );
}

#[test]
fn trailing_space_does_not_clear_past_a_wrap_none_owner() {
    let plain = layout_section(
        &[top_and_bottom_owner(4.0, WrapMode::Overlay)],
        &small_page_config(),
        None,
        Pt::ZERO,
        Pt::new(10.0),
        None,
    );
    let large_after = layout_section(
        &[top_and_bottom_owner(15.0, WrapMode::Overlay)],
        &small_page_config(),
        None,
        Pt::ZERO,
        Pt::new(10.0),
        None,
    );

    assert_eq!(text_y(&plain[0], "owner"), text_y(&large_after[0], "owner"));
}

#[test]
fn final_auto_text_baseline_can_fit_without_charging_space_after() {
    let pages = layout_section(
        &[
            text_paragraph("filler", false, 37.8),
            auto_three_line_paragraph(0.0),
            text_paragraph("next", false, 10.0),
        ],
        &small_page_config(),
        None,
        Pt::ZERO,
        Pt::new(14.0),
        None,
    );

    assert_eq!(pages.len(), 2);
    for expected in ["one ", "two ", "three"] {
        assert!(
            page_has_text(&pages[0], expected),
            "{expected:?} stays on page 1"
        );
    }
    assert!(page_has_text(&pages[1], "next"));
}

#[test]
fn final_auto_text_baseline_that_exceeds_the_page_still_moves_whole() {
    let pages = layout_section(
        &[
            text_paragraph("filler", false, 37.9),
            auto_three_line_paragraph(0.0),
        ],
        &small_page_config(),
        None,
        Pt::ZERO,
        Pt::new(14.0),
        None,
    );

    assert_eq!(pages.len(), 2);
    assert!(!page_has_text(&pages[0], "one "));
    assert!(page_has_text(&pages[1], "one "));
}

#[test]
fn final_auto_text_baseline_does_not_charge_glyph_descent() {
    let mut paragraph = auto_three_line_paragraph(0.0);
    let LayoutBlock::Paragraph { fragments, .. } = &mut paragraph else {
        unreachable!();
    };
    let Fragment::Text { metrics, .. } = &mut fragments[2] else {
        unreachable!();
    };
    metrics.descent = Pt::new(4.2);

    let pages = layout_section(
        &[text_paragraph("filler", false, 37.8), paragraph],
        &small_page_config(),
        None,
        Pt::ZERO,
        Pt::new(14.0),
        None,
    );

    assert_eq!(pages.len(), 1);
    for expected in ["one ", "two ", "three"] {
        assert!(
            page_has_text(&pages[0], expected),
            "{expected:?} stays on page 1 even though its glyph descent crosses the boundary"
        );
    }
}

#[test]
fn space_after_does_not_decide_whether_the_final_line_fits() {
    let layout = |space_after| {
        let mut paragraph = auto_three_line_paragraph(space_after);
        let LayoutBlock::Paragraph { style, .. } = &mut paragraph else {
            unreachable!();
        };
        style.line_spacing = LineSpacingRule::Exact(Pt::new(14.0));
        layout_section(
            &[
                text_paragraph("filler", false, 38.0),
                paragraph,
                text_paragraph("next", false, 10.0),
            ],
            &small_page_config(),
            None,
            Pt::ZERO,
            Pt::new(14.0),
            None,
        )
    };
    let no_after = layout(0.0);
    let large_after = layout(50.0);

    for pages in [&no_after, &large_after] {
        assert_eq!(pages.len(), 2);
        for expected in ["one ", "two ", "three"] {
            assert!(
                page_has_text(&pages[0], expected),
                "{expected:?} stays on page 1"
            );
        }
        assert!(page_has_text(&pages[1], "next"));
    }
    assert_eq!(
        text_y(&no_after[1], "next"),
        text_y(&large_after[1], "next"),
        "trailing space is discarded at the physical page boundary"
    );
}

#[test]
fn exact_spacing_keeps_the_full_final_line_box_for_page_fit() {
    let mut paragraph = auto_three_line_paragraph(0.0);
    let LayoutBlock::Paragraph { style, .. } = &mut paragraph else {
        unreachable!();
    };
    style.line_spacing = LineSpacingRule::Exact(Pt::new(16.1));
    let pages = layout_section(
        &[text_paragraph("filler", false, 33.0), paragraph],
        &small_page_config(),
        None,
        Pt::ZERO,
        Pt::new(14.0),
        None,
    );

    assert_eq!(pages.len(), 2);
    assert!(!page_has_text(&pages[0], "one "));
    assert!(page_has_text(&pages[1], "one "));
}

#[test]
fn auto_one_keeps_the_full_final_line_box_for_page_fit() {
    let mut paragraph = auto_three_line_paragraph(0.0);
    let LayoutBlock::Paragraph { style, .. } = &mut paragraph else {
        unreachable!();
    };
    style.line_spacing = LineSpacingRule::Auto { line: 240 };
    let pages = layout_section(
        &[text_paragraph("filler", false, 40.0), paragraph],
        &small_page_config(),
        None,
        Pt::ZERO,
        Pt::new(14.0),
        None,
    );

    assert_eq!(pages.len(), 2);
    assert!(!page_has_text(&pages[0], "one "));
    assert!(page_has_text(&pages[1], "one "));
}

#[test]
fn natural_only_final_text_keeps_the_full_line_box_for_page_fit() {
    let mut paragraph = auto_three_line_paragraph(0.0);
    let LayoutBlock::Paragraph { fragments, .. } = &mut paragraph else {
        unreachable!();
    };
    let Fragment::Text { font, .. } = &mut fragments[2] else {
        unreachable!();
    };
    font.auto_line_spacing = AutoLineSpacingContribution::NaturalOnly;
    let pages = layout_section(
        &[text_paragraph("filler", false, 34.0), paragraph],
        &small_page_config(),
        None,
        Pt::ZERO,
        Pt::new(14.0),
        None,
    );

    assert_eq!(pages.len(), 2);
    assert!(!page_has_text(&pages[0], "one "));
    assert!(page_has_text(&pages[1], "one "));
}

#[test]
fn underlined_final_auto_text_keeps_the_full_line_box_for_page_fit() {
    let mut paragraph = auto_three_line_paragraph(0.0);
    let LayoutBlock::Paragraph { fragments, .. } = &mut paragraph else {
        unreachable!();
    };
    let Fragment::Text { font, .. } = &mut fragments[2] else {
        unreachable!();
    };
    font.underline = true;
    let pages = layout_section(
        &[text_paragraph("filler", false, 33.0), paragraph],
        &small_page_config(),
        None,
        Pt::ZERO,
        Pt::new(14.0),
        None,
    );

    assert_eq!(pages.len(), 2);
    assert!(!page_has_text(&pages[0], "one "));
    assert!(page_has_text(&pages[1], "one "));
}

#[test]
fn a_footnote_on_an_earlier_line_disables_final_line_baseline_admission() {
    let mut paragraph = auto_three_line_paragraph(0.0);
    let LayoutBlock::Paragraph {
        fragments,
        footnotes,
        ..
    } = &mut paragraph
    else {
        unreachable!();
    };
    let Fragment::Text {
        is_footnote_ref, ..
    } = &mut fragments[0]
    else {
        unreachable!();
    };
    *is_footnote_ref = true;
    footnotes.push(LayoutFootnote {
        paragraphs: vec![FootnoteParagraph {
                fragments: Vec::new(),
                style: ParagraphStyle::default(),
            }],
    });
    let pages = layout_section(
        &[text_paragraph("filler", false, 33.0), paragraph],
        &small_page_config(),
        None,
        Pt::ZERO,
        Pt::new(14.0),
        None,
    );

    assert_eq!(pages.len(), 2);
    assert!(!page_has_text(&pages[0], "one "));
    assert!(page_has_text(&pages[1], "one "));
}

#[test]
fn final_auto_text_baseline_uses_the_lowest_visible_run() {
    let mut paragraph = auto_three_line_paragraph(0.0);
    let LayoutBlock::Paragraph { fragments, .. } = &mut paragraph else {
        unreachable!();
    };
    let mut lower_run = fragments[2].clone();
    let Fragment::Text {
        text,
        width,
        trimmed_width,
        baseline_offset,
        ..
    } = &mut lower_run
    else {
        unreachable!();
    };
    *text = id(" lower");
    *width = Pt::new(20.0);
    *trimmed_width = Pt::new(20.0);
    *baseline_offset = Pt::new(0.1);
    fragments.push(lower_run);

    let pages = layout_section(
        &[text_paragraph("filler", false, 37.8), paragraph],
        &small_page_config(),
        None,
        Pt::ZERO,
        Pt::new(14.0),
        None,
    );

    assert_eq!(pages.len(), 2);
    assert!(!page_has_text(&pages[0], "one "));
    assert!(page_has_text(&pages[1], "one "));
}

#[test]
fn footnote_free_table_continues_in_the_next_column_before_a_new_page() {
    let blocks = vec![
        text_paragraph("filler", false, 50.0),
        table(vec![
            row(vec![cell(vec![text_paragraph("row-a", false, 25.0)])]),
            row(vec![cell(vec![text_paragraph("row-b", false, 25.0)])]),
        ]),
    ];

    let pages = layout_section(
        &blocks,
        &two_column_page_config(),
        None,
        Pt::ZERO,
        Pt::new(10.0),
        None,
    );

    assert_eq!(pages.len(), 1);
    assert!(text_x(&pages[0], "row-a") < Pt::new(100.0));
    assert!(text_x(&pages[0], "row-b") > Pt::new(100.0));
    assert!(text_y(&pages[0], "row-b") < text_y(&pages[0], "row-a"));
}

#[test]
fn table_with_a_footnote_keeps_the_historical_page_only_continuation() {
    let mut noted = text_paragraph("row-a", false, 25.0);
    let LayoutBlock::Paragraph { footnotes, .. } = &mut noted else {
        unreachable!();
    };
    footnotes.push(LayoutFootnote {
        paragraphs: vec![FootnoteParagraph {
                fragments: Vec::new(),
                style: ParagraphStyle::default(),
            }],
    });
    let pages = layout_section(
        &[
            text_paragraph("filler", false, 50.0),
            table(vec![
                row(vec![cell(vec![noted])]),
                row(vec![cell(vec![text_paragraph("row-b", false, 25.0)])]),
            ]),
        ],
        &two_column_page_config(),
        None,
        Pt::ZERO,
        Pt::new(10.0),
        None,
    );

    assert_eq!(pages.len(), 2);
    let row_b = text_location(&pages, "row-b").expect("row-b must be emitted");
    assert_eq!(row_b.0, 1);
    assert!(row_b.1 < Pt::new(100.0));
}

#[test]
fn table_before_a_later_footnote_also_keeps_page_only_continuation() {
    let mut noted = text_paragraph("after-note", false, 10.0);
    let LayoutBlock::Paragraph { footnotes, .. } = &mut noted else {
        unreachable!();
    };
    footnotes.push(LayoutFootnote {
        paragraphs: vec![FootnoteParagraph {
                fragments: Vec::new(),
                style: ParagraphStyle::default(),
            }],
    });
    let pages = layout_section(
        &[
            text_paragraph("filler", false, 50.0),
            table(vec![
                row(vec![cell(vec![text_paragraph("row-a", false, 25.0)])]),
                row(vec![cell(vec![text_paragraph("row-b", false, 25.0)])]),
            ]),
            noted,
        ],
        &two_column_page_config(),
        None,
        Pt::ZERO,
        Pt::new(10.0),
        None,
    );

    let row_b = text_location(&pages, "row-b").expect("row-b must be emitted");
    assert_eq!(row_b.0, 1, "a later page-wide note forbids column slicing");
    assert!(row_b.1 < Pt::new(100.0));
}

#[test]
fn table_continuing_from_the_last_column_uses_next_page_first_column() {
    let mut column_break = paragraph(false, false);
    let LayoutBlock::Paragraph { fragments, .. } = &mut column_break else {
        unreachable!();
    };
    fragments.push(Fragment::ColumnBreak);
    let pages = layout_section(
        &[
            column_break,
            text_paragraph("filler", false, 40.0),
            table(vec![
                row(vec![cell(vec![text_paragraph("row-a", false, 25.0)])]),
                row(vec![cell(vec![text_paragraph("row-b", false, 25.0)])]),
            ]),
        ],
        &two_column_page_config(),
        None,
        Pt::ZERO,
        Pt::new(10.0),
        None,
    );

    assert_eq!(pages.len(), 2);
    let row_a = text_location(&pages, "row-a").expect("row-a must be emitted");
    let row_b = text_location(&pages, "row-b").expect("row-b must be emitted");
    assert_eq!((row_a.0, row_b.0), (0, 1), "locations={row_a:?}/{row_b:?}");
    assert!(row_a.1 > Pt::new(100.0));
    assert!(row_b.1 < Pt::new(100.0));
}

#[test]
fn column_table_float_gate_only_accepts_absolute_top_bottom_exclusions() {
    let absolute_top_bottom = top_and_bottom_owner(0.0, WrapMode::TopAndBottom);
    assert!(!layout_block_has_unsupported_column_float(
        &absolute_top_bottom
    ));

    let mut relative_top_bottom = top_and_bottom_owner(0.0, WrapMode::TopAndBottom);
    let LayoutBlock::Paragraph {
        floating_shapes, ..
    } = &mut relative_top_bottom
    else {
        unreachable!();
    };
    floating_shapes[0].frame.y = FloatingImageY::RelativeToParagraph(Pt::ZERO);
    assert!(layout_block_has_unsupported_column_float(
        &relative_top_bottom
    ));

    let absolute_side_wrap =
        top_and_bottom_owner(0.0, WrapMode::Square(WrapTextSide::BothSides));
    assert!(layout_block_has_unsupported_column_float(
        &absolute_side_wrap
    ));

    let overlay = top_and_bottom_owner(0.0, WrapMode::Overlay);
    assert!(!layout_block_has_unsupported_column_float(&overlay));
}

#[test]
fn absolute_top_bottom_shape_reactivates_after_same_page_column_reset() {
    let layout = |wrap_mode| {
        let mut owner = top_and_bottom_owner(0.0, wrap_mode);
        let LayoutBlock::Paragraph {
            fragments, style, ..
        } = &mut owner
        else {
            unreachable!();
        };
        fragments.clear();
        style.space_before = Pt::ZERO;
        style.space_after = Pt::ZERO;
        let LayoutBlock::Paragraph {
            floating_shapes, ..
        } = &mut owner
        else {
            unreachable!();
        };
        floating_shapes[0].frame.y = FloatingImageY::Absolute(Pt::new(40.0));

        let mut filler = text_paragraph("filler", false, 10.0);
        let LayoutBlock::Paragraph { style, .. } = &mut filler else {
            unreachable!();
        };
        style.space_after = Pt::new(46.0);
        let mut config = two_column_page_config();
        config.page_size.height = Pt::new(120.0);

        layout_section(
            &[
                owner,
                filler,
                table(vec![
                    row(vec![cell(vec![text_paragraph("row-a", false, 25.0)])]),
                    row(vec![cell(vec![text_paragraph("row-b", false, 25.0)])]),
                ]),
                text_paragraph("after", false, 10.0),
            ],
            &config,
            None,
            Pt::ZERO,
            Pt::new(10.0),
            None,
        )
    };

    let without_band = layout(WrapMode::Overlay);
    let with_band = layout(WrapMode::TopAndBottom);

    assert_eq!(without_band.len(), 1);
    assert_eq!(with_band.len(), 1);
    assert!(text_x(&with_band[0], "row-b") > Pt::new(100.0));
    assert!(
        text_y(&with_band[0], "after") > text_y(&without_band[0], "after"),
        "the page-absolute exclusion must remain active after returning to the column top"
    );
}
#[test]
fn a_chain_keeps_as_much_together_as_fits() {
    let blocks = vec![
        line_paragraph(true, 10.0),
        table(vec![row(vec![cell(vec![line_paragraph(true, 20.0)])])]),
        line_paragraph(true, 12.0),
        table(vec![row(vec![cell(vec![line_paragraph(true, 30.0)])])]),
        line_paragraph(false, 8.0),
        line_paragraph(false, 8.0),
    ];
    let at = MeasureBox {
        width: Pt::new(100.0),
        max_height: Pt::INFINITY,
        default_line_height: Pt::new(14.0),
    };
    let end_within = |limit: f32| {
        measure_table_aware_keep_next_prefix(&blocks, 0, at, Pt::new(limit), None, None).map(
            |prefix| {
                assert!(prefix.group.total_height(false) <= Pt::new(limit));
                prefix.end_exclusive
            },
        )
    };
    for (limit, end) in [
        (9.0, None),
        (29.0, None),
        (30.0, Some(2)),
        (41.0, Some(2)),
        (42.0, Some(3)),
        (71.0, Some(3)),
        (72.0, Some(4)),
        (80.0, Some(5)),
        (1000.0, Some(5)),
    ] {
        assert_eq!(end_within(limit), end, "{limit}");
    }
}
