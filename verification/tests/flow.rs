//! How blocks flow over the pages of a section.
use dxpdf::block::{
    Alignment, CellVAlign, FloatingFrame, FloatingImage, FloatingImageX, FloatingImageY,
    FloatingShape, FootnoteParagraph, LayoutBlock, LayoutFootnote, TableAnchor, TableBorderConfig,
    TableBorderLine, TableBorderStyle, TableCellInput, TableFloatInfo, TableOverlap, TableRowInput,
    WrapMode,
};
use dxpdf::draw_command::{DrawCommand, FontId, ImageId, PathId, RgbColor, TextId};
use dxpdf::float::WrapTextSide;
use dxpdf::fragment::{AutoLineSpacingContribution, FontProps, Fragment, TextMetrics};
use dxpdf::geometry::{PtEdgeInsets, PtOffset, PtSize};
use dxpdf::page::{ColumnGeometry, HeaderFooterClearance, HeaderFooterSet, LayoutedPage, PageConfig};
use dxpdf::section::{
    layout_section, layout_section_with_clearance, layout_section_with_clearance_result,
    SectionStart,
};
use dxpdf::style::{
    DropCap, LineSpacingRule, ParagraphBorderLine, ParagraphBorderStyle, ParagraphStyle, StyleId,
};
use dxpdf::dimension::Pt;

/// Lengths in points, as floating-point numbers.
trait PointLength: Sized {
    const ZERO: Self;
    const INFINITY: Self;
    fn new(points: f32) -> Self;
    fn raw(self) -> f32;
}

impl PointLength for Pt {
    const ZERO: Pt = Pt { units: 0 };
    const INFINITY: Pt = Pt { units: i64::MAX };

    fn new(points: f32) -> Pt {
        Pt { units: (points as f64 * 76200.0).round() as i64 }
    }

    fn raw(self) -> f32 {
        (self.units as f64 / 76200.0) as f32
    }
}

trait NamedColors {
    const BLACK: Self;
}

impl NamedColors for RgbColor {
    const BLACK: RgbColor = RgbColor { r: 0, g: 0, b: 0 };
}

trait NoInsets {
    const ZERO: Self;
}

impl NoInsets for PtEdgeInsets {
    const ZERO: PtEdgeInsets = PtEdgeInsets {
        top: Pt { units: 0 },
        right: Pt { units: 0 },
        bottom: Pt { units: 0 },
        left: Pt { units: 0 },
    };
}

/// A number for a text.
fn id(text: &str) -> TextId {
    let mut hash: u64 = 0xcbf2_9ce4_8422_2325;
    for byte in text.bytes() {
        hash = (hash ^ byte as u64).wrapping_mul(0x0000_0100_0000_01b3);
    }
    TextId { id: hash }
}

fn font() -> FontProps {
    FontProps {
        font: FontId { id: 1 },
        size: Pt::new(12.0),
        underline: false,
        auto_line_spacing: AutoLineSpacingContribution::Scaled,
    }
}

fn text_frag(text: &str, width: f32) -> Fragment {
    Fragment::Text {
        text: id(text),
        blank: text.trim().is_empty(),
        font: font(),
        color: RgbColor::BLACK,
        width: Pt::new(width),
        trimmed_width: Pt::new(width),
        metrics: TextMetrics {
            ascent: Pt::new(10.0),
            descent: Pt::new(4.0),
            leading: Pt::ZERO,
        },
        baseline_offset: Pt::ZERO,
        is_footnote_ref: false,
    }
}

/// A style with lines of ten points.
fn tens() -> ParagraphStyle {
    ParagraphStyle { line_spacing: LineSpacingRule::Exact(Pt::new(10.0)), ..Default::default() }
}

fn paragraph(fragments: Vec<Fragment>, style: ParagraphStyle) -> LayoutBlock {
    LayoutBlock::Paragraph {
        fragments,
        style,
        page_break_before: false,
        footnotes: Vec::new(),
        floating_images: Vec::new(),
        floating_shapes: Vec::new(),
    }
}

/// A paragraph of one line.
fn line(text: &str) -> LayoutBlock {
    paragraph(vec![text_frag(text, 20.0)], tens())
}

/// A paragraph of `count` lines, named `name0`, `name1` and so on.
fn lines(name: &str, count: usize, style: ParagraphStyle) -> LayoutBlock {
    paragraph(
        (0..count).map(|i| text_frag(&format!("{name}{i}"), 150.0)).collect(),
        style,
    )
}

fn note(text: &str) -> LayoutFootnote {
    LayoutFootnote {
        paragraphs: vec![FootnoteParagraph {
            fragments: vec![text_frag(text, 20.0)],
            style: tens(),
        }],
    }
}

fn with_note(mut block: LayoutBlock, text: &str) -> LayoutBlock {
    if let LayoutBlock::Paragraph { fragments, footnotes, .. } = &mut block {
        if let Fragment::Text { is_footnote_ref, .. } = &mut fragments[0] {
            *is_footnote_ref = true;
        }
        footnotes.push(note(text));
    }
    block
}

fn frame(x: f32, y: FloatingImageY, width: f32, height: f32, wrap_mode: WrapMode) -> FloatingFrame {
    FloatingFrame {
        x: FloatingImageX::Absolute(Pt::new(x)),
        y,
        size: PtSize::new(Pt::new(width), Pt::new(height)),
        wrap_mode,
        dist_top: Pt::ZERO,
        dist_bottom: Pt::ZERO,
        dist_left: Pt::ZERO,
        dist_right: Pt::ZERO,
        behind_doc: false,
        relative_height: 0,
    }
}

fn with_image(mut block: LayoutBlock, frame: FloatingFrame) -> LayoutBlock {
    if let LayoutBlock::Paragraph { floating_images, .. } = &mut block {
        floating_images.push(FloatingImage { frame, image: ImageId { id: 5 } });
    }
    block
}

/// Pages with a body of 180 by 80 points.
fn config() -> PageConfig {
    PageConfig {
        page_size: PtSize::new(Pt::new(200.0), Pt::new(100.0)),
        margins: PtEdgeInsets::new(Pt::new(10.0), Pt::new(10.0), Pt::new(10.0), Pt::new(10.0)),
        header_margin: Pt::new(5.0),
        footer_margin: Pt::new(5.0),
        columns: vec![ColumnGeometry { x_offset: Pt::ZERO, width: Pt::new(180.0) }],
    }
}

fn two_columns() -> PageConfig {
    PageConfig {
        columns: vec![
            ColumnGeometry { x_offset: Pt::ZERO, width: Pt::new(80.0) },
            ColumnGeometry { x_offset: Pt::new(100.0), width: Pt::new(80.0) },
        ],
        ..config()
    }
}

fn lay_out(blocks: &[LayoutBlock], config: &PageConfig) -> Vec<LayoutedPage> {
    layout_section(blocks, config, Pt::ZERO, Pt::new(10.0), None)
}

/// Where a text stands: its page and its position, once for each time that it is drawn.
fn places(pages: &[LayoutedPage], wanted: &str) -> Vec<(usize, PtOffset)> {
    let mut found = Vec::new();
    for (index, page) in pages.iter().enumerate() {
        for command in &page.commands {
            if let DrawCommand::Text { text, position, .. } = command {
                if *text == id(wanted) {
                    found.push((index, *position));
                }
            }
        }
    }
    found
}

fn place(pages: &[LayoutedPage], wanted: &str) -> (usize, PtOffset) {
    let found = places(pages, wanted);
    assert_eq!(found.len(), 1, "{wanted} is drawn once");
    found[0]
}

fn images(page: &LayoutedPage) -> Vec<ImageId> {
    page.commands
        .iter()
        .filter_map(|command| match command {
            DrawCommand::Image { image, .. } => Some(*image),
            _ => None,
        })
        .collect()
}

fn table(rows: Vec<TableRowInput>) -> LayoutBlock {
    LayoutBlock::Table {
        rows,
        col_widths: vec![Pt::new(100.0)],
        cell_spacing: Pt::ZERO,
        border_config: None,
        indent: Pt::ZERO,
        alignment: None,
        float_info: None,
        style_id: None,
    }
}

fn row(text: &str, height: f32) -> TableRowInput {
    let style = ParagraphStyle {
        line_spacing: LineSpacingRule::Exact(Pt::new(height)),
        ..Default::default()
    };
    TableRowInput {
        cells: vec![TableCellInput {
            blocks: vec![paragraph(vec![text_frag(text, 20.0)], style)],
            margins: PtEdgeInsets::ZERO,
            grid_span: 1,
            shading: None,
            cell_borders: None,
            vertical_merge: None,
            vertical_align: CellVAlign::Top,
        }],
        height_rule: None,
        is_header: None,
        cant_split: None,
        grid_before: 0,
        border_overrides: None,
    }
}

#[test]
fn every_line_of_a_section_is_drawn_once() {
    let mut broken = line("broken");
    if let LayoutBlock::Paragraph { fragments, .. } = &mut broken {
        fragments.push(Fragment::PageBreak);
        fragments.push(text_frag("after break", 20.0));
        fragments.push(Fragment::ColumnBreak);
        fragments.push(text_frag("after column", 20.0));
    }
    let blocks = vec![
        lines("a", 7, tens()),
        with_note(lines("b", 6, tens()), "note b"),
        broken,
        with_note(line("c"), "note c"),
        lines("d", 20, tens()),
    ];
    for config in [config(), two_columns()] {
        let pages = lay_out(&blocks, &config);
        for (name, count) in [("a", 7), ("b", 6), ("d", 20)] {
            let mut last = (0, Pt::ZERO, Pt::ZERO);
            for i in 0..count {
                let (page, at) = place(&pages, &format!("{name}{i}"));
                let here = (page, at.x, at.y);
                assert!(here > last, "{name}{i} stands after the line before it");
                last = here;
            }
        }
        for text in ["broken", "after break", "after column", "c", "note b", "note c"] {
            place(&pages, text);
        }
    }
}

#[test]
fn a_divided_paragraph_leaves_two_lines_on_each_side() {
    // Six lines of the second paragraph stay on the first page, and the last one may not be alone.
    let pages = lay_out(&[line("first"), lines("p", 8, tens())], &config());
    assert_eq!(pages.len(), 2);
    assert_eq!(place(&pages, "p5").0, 0);
    assert_eq!(place(&pages, "p6").0, 1);
    let loose = ParagraphStyle { widow_control: false, ..tens() };
    let pages = lay_out(&[line("first"), lines("p", 8, loose)], &config());
    assert_eq!(place(&pages, "p6").0, 0);
    assert_eq!(place(&pages, "p7").0, 1);
}

#[test]
fn kept_lines_move_together() {
    let kept = ParagraphStyle { keep_lines: true, space_before: Pt::new(7.0), ..tens() };
    let pages = lay_out(&[lines("a", 5, tens()), lines("k", 4, kept)], &config());
    assert_eq!(pages.len(), 2);
    for i in 0..4 {
        assert_eq!(place(&pages, &format!("k{i}")).0, 1);
    }
    // The space before a paragraph is dropped where it moves to a new page.
    let first = place(&pages, "k0").1.y;
    assert_eq!(first, place(&pages, "a0").1.y);
}

#[test]
fn a_drop_cap_stays_with_its_lines() {
    let capped = ParagraphStyle {
        drop_cap: Some(DropCap { lines: 3, width: Pt::new(15.0) }),
        ..tens()
    };
    let pages = lay_out(&[lines("a", 6, tens()), lines("p", 6, capped)], &config());
    assert_eq!(place(&pages, "p0").0, 1, "two lines fit, but the cap takes three");
    assert_eq!(place(&pages, "p0").1.x, Pt::new(25.0));
    assert_eq!(place(&pages, "p2").1.x, Pt::new(25.0));
    assert_eq!(place(&pages, "p3").1.x, Pt::new(10.0));
}

#[test]
fn footnotes_stand_where_the_text_of_the_page_ends() {
    let blocks = vec![with_note(line("a"), "first"), with_note(line("b"), "second"), lines("c", 9, tens())];
    let pages = lay_out(&blocks, &config());
    // Two notes of ten points and the gap above them leave 56 of 80 points to the text.
    let DrawCommand::Line { line: separator, width, .. } = pages[0]
        .commands
        .iter()
        .find(|command| matches!(command, DrawCommand::Line { .. }))
        .unwrap()
    else {
        unreachable!();
    };
    assert_eq!(separator.start, PtOffset::new(Pt::new(10.0), Pt::new(66.0)));
    assert_eq!(separator.end, PtOffset::new(Pt::new(69.4), Pt::new(66.0)));
    assert_eq!(*width, Pt::new(0.5));
    assert_eq!(place(&pages, "first").1.y, Pt::new(80.0));
    assert_eq!(place(&pages, "second").1.y, Pt::new(90.0));
    let on_first = (0..9).filter(|i| place(&pages, &format!("c{i}")).0 == 0).count();
    assert_eq!(on_first, 3, "five lines fit above the notes");
    assert!(!pages[1].commands.iter().any(|command| matches!(command, DrawCommand::Line { .. })));
}

#[test]
fn each_page_break_turns_one_page() {
    let breaks = |count: usize| {
        let mut blocks = vec![line("a")];
        for _ in 0..count {
            blocks.push(paragraph(vec![Fragment::PageBreak], tens()));
        }
        blocks.push(line("b"));
        lay_out(&blocks, &config())
    };
    assert_eq!(place(&breaks(1), "b").0, 1);
    let pages = breaks(3);
    assert_eq!(place(&pages, "b").0, 3);
    assert!(pages[1].commands.is_empty() && pages[2].commands.is_empty());
}

#[test]
fn a_page_break_before_a_paragraph_turns_a_page_that_has_been_begun() {
    let mut second = line("b");
    if let LayoutBlock::Paragraph { page_break_before, .. } = &mut second {
        *page_break_before = true;
    }
    let pages = lay_out(&[line("a"), second], &config());
    assert_eq!(place(&pages, "b").0, 1);
    let mut only = line("only");
    if let LayoutBlock::Paragraph { page_break_before, .. } = &mut only {
        *page_break_before = true;
    }
    assert_eq!(lay_out(&[only], &config()).len(), 1);
}

#[test]
fn the_lesser_of_two_spaces_between_paragraphs_is_dropped() {
    let after = ParagraphStyle { space_after: Pt::new(8.0), ..tens() };
    let before = ParagraphStyle { space_before: Pt::new(6.0), ..tens() };
    let pages = lay_out(
        &[
            paragraph(vec![text_frag("a", 20.0)], after),
            paragraph(vec![text_frag("b", 20.0)], before),
        ],
        &config(),
    );
    assert_eq!(place(&pages, "b").1.y - place(&pages, "a").1.y, Pt::new(18.0));
    let same = |style: ParagraphStyle| ParagraphStyle {
        style_id: Some(StyleId { id: 1 }),
        contextual_spacing: true,
        ..style
    };
    let pages = lay_out(
        &[
            paragraph(vec![text_frag("a", 20.0)], same(after)),
            paragraph(vec![text_frag("b", 20.0)], same(before)),
        ],
        &config(),
    );
    assert_eq!(place(&pages, "b").1.y - place(&pages, "a").1.y, Pt::new(10.0));
}

#[test]
fn the_first_paragraph_of_a_section_has_no_space_before_it() {
    let before = ParagraphStyle { space_before: Pt::new(6.0), ..tens() };
    let spaced = |text| paragraph(vec![text_frag(text, 20.0)], before);
    let pages = lay_out(&[spaced("a"), spaced("b")], &config());
    assert_eq!(place(&pages, "a").1.y, Pt::new(20.0));
    assert_eq!(place(&pages, "b").1.y, Pt::new(36.0));
}

#[test]
fn paragraphs_of_the_same_borders_share_one_box() {
    let edge = |width: f32| {
        Some(ParagraphBorderLine { width: Pt::new(width), space: Pt::ZERO, color: RgbColor::BLACK })
    };
    let borders = ParagraphBorderStyle { top: edge(1.0), bottom: None, left: None, right: None };
    let boxed = |text| {
        paragraph(
            vec![text_frag(text, 20.0)],
            ParagraphStyle { borders: Some(borders), ..tens() },
        )
    };
    let tops = |blocks: &[LayoutBlock]| {
        lay_out(blocks, &config())[0]
            .commands
            .iter()
            .filter(|command| matches!(command, DrawCommand::Rect { .. }))
            .count()
    };
    assert_eq!(tops(&[boxed("a"), boxed("b"), boxed("c")]), 1);
    assert_eq!(tops(&[boxed("a"), line("between"), boxed("c")]), 2);
}

#[test]
fn text_runs_beside_a_floating_image() {
    let square = WrapMode::Square(WrapTextSide::BothSides);
    let owner = with_image(
        line("owner"),
        frame(10.0, FloatingImageY::Absolute(Pt::new(10.0)), 50.0, 15.0, square),
    );
    let pages = lay_out(&[owner, line("beside"), line("below")], &config());
    assert_eq!(place(&pages, "owner").1.x, Pt::new(60.0));
    assert_eq!(place(&pages, "beside").1.x, Pt::new(60.0));
    assert_eq!(place(&pages, "below").1.x, Pt::new(10.0));
    assert_eq!(images(&pages[0]), vec![ImageId { id: 5 }]);
    let overlay = with_image(
        line("owner"),
        frame(10.0, FloatingImageY::Absolute(Pt::new(10.0)), 50.0, 15.0, WrapMode::Overlay),
    );
    let pages = lay_out(&[overlay], &config());
    assert_eq!(place(&pages, "owner").1.x, Pt::new(10.0));
    assert_eq!(images(&pages[0]), vec![ImageId { id: 5 }]);
}

#[test]
fn text_before_its_owner_runs_beside_an_image_at_a_fixed_height() {
    let square = WrapMode::Square(WrapTextSide::BothSides);
    let at_top = frame(10.0, FloatingImageY::Absolute(Pt::new(10.0)), 50.0, 12.0, square);
    let pages = lay_out(&[line("before"), with_image(line("owner"), at_top)], &config());
    assert_eq!(place(&pages, "before").1.x, Pt::new(60.0));
}

#[test]
fn a_page_is_placed_anew_without_a_float_that_leaves_it() {
    let square = WrapMode::Square(WrapTextSide::BothSides);
    let at_top = frame(10.0, FloatingImageY::Absolute(Pt::new(10.0)), 50.0, 12.0, square);
    let pages = lay_out(
        &[line("before"), lines("a", 6, tens()), with_image(lines("owner", 3, tens()), at_top)],
        &config(),
    );
    assert_eq!(pages.len(), 2);
    assert_eq!(place(&pages, "before"), (0, PtOffset::new(Pt::new(10.0), Pt::new(20.0))));
    assert!(images(&pages[0]).is_empty());
    assert_eq!(images(&pages[1]), vec![ImageId { id: 5 }]);
    assert_eq!(place(&pages, "owner0").0, 1);
    for i in 0..6 {
        assert_eq!(place(&pages, &format!("a{i}")).0, 0);
    }
}

#[test]
fn a_band_keeps_all_text_off_and_is_drawn_once() {
    let band = frame(10.0, FloatingImageY::Absolute(Pt::new(30.0)), 180.0, 20.0, WrapMode::TopAndBottom);
    let pages = lay_out(
        &[with_image(line("a"), band), line("b"), line("c")],
        &config(),
    );
    assert_eq!(place(&pages, "a").1.y, Pt::new(20.0));
    assert_eq!(place(&pages, "b").1.y, Pt::new(30.0));
    assert_eq!(place(&pages, "c").1.y, Pt::new(60.0));
    assert_eq!(images(&pages[0]).len(), 1);
}

#[test]
fn a_band_moves_with_its_paragraph() {
    let band = frame(10.0, FloatingImageY::RelativeToParagraph(Pt::new(10.0)), 180.0, 20.0, WrapMode::TopAndBottom);
    let pages = lay_out(&[lines("a", 7, tens()), with_image(lines("o", 2, tens()), band)], &config());
    assert_eq!(pages.len(), 2);
    assert!(images(&pages[0]).is_empty());
    assert_eq!(images(&pages[1]).len(), 1);
    assert_eq!(place(&pages, "o0").1.y, Pt::new(20.0));
    assert_eq!(place(&pages, "o1").1.y, Pt::new(50.0));
}

#[test]
fn drawings_behind_the_text_are_ordered_by_their_height() {
    let shape = |relative_height, path| FloatingShape {
        frame: FloatingFrame {
            behind_doc: true,
            relative_height,
            ..frame(0.0, FloatingImageY::Absolute(Pt::ZERO), 5.0, 5.0, WrapMode::Overlay)
        },
        path: PathId { id: path },
        text_commands: vec![DrawCommand::Text {
            position: PtOffset::new(Pt::new(1.0), Pt::new(2.0)),
            text: id("label"),
            font: FontId { id: 1 },
            color: RgbColor::BLACK,
        }],
    };
    let mut owner = line("owner");
    if let LayoutBlock::Paragraph { floating_shapes, .. } = &mut owner {
        floating_shapes.push(shape(9, 1));
        floating_shapes.push(shape(3, 2));
        floating_shapes.push(shape(9, 3));
    }
    let pages = lay_out(&[owner], &config());
    let order: Vec<u64> = pages[0]
        .behind_doc_commands
        .iter()
        .filter_map(|layered| match layered.command {
            DrawCommand::Path { path, .. } => Some(path.id),
            _ => None,
        })
        .collect();
    assert_eq!(order, vec![2, 1, 3]);
    assert_eq!(pages[0].behind_doc_commands.len(), 6);
    assert_eq!(pages[0].commands.len(), 1);
}

#[test]
fn a_section_of_the_same_geometry_goes_on_in_place() {
    let first = [line("a"), line("b")];
    let start = |continuation, config: &PageConfig| SectionStart {
        continuation,
        clearance: HeaderFooterClearance::uniform(config),
        logical_page_base: 1,
    };
    let go_on = |config_after: &PageConfig| {
        let result = layout_section_with_clearance_result(
            &first,
            &config(),
            Pt::ZERO,
            Pt::new(10.0),
            start(None, &config()),
            true,
        );
        assert!(result.pages.is_empty());
        layout_section_with_clearance(
            &[line("c"), lines("d", 6, tens())],
            config_after,
            Pt::ZERO,
            Pt::new(10.0),
            start(result.continuation, config_after),
        )
    };
    let pages = go_on(&config());
    assert_eq!(place(&pages, "a"), (0, PtOffset::new(Pt::new(10.0), Pt::new(20.0))));
    assert_eq!(place(&pages, "c"), (0, PtOffset::new(Pt::new(10.0), Pt::new(40.0))));
    assert_eq!(pages.len(), 2);
    let pages = go_on(&two_columns());
    assert_eq!(place(&pages, "c"), (0, PtOffset::new(Pt::new(10.0), Pt::new(40.0))));
    let (page, at) = place(&pages, "d4");
    assert_eq!((page, at.x), (0, Pt::new(110.0)));
    assert_eq!(at.y, Pt::new(40.0), "the second column starts below what is there");
}

#[test]
fn the_body_keeps_clear_of_the_header_and_footer_of_each_page() {
    let set = |default, first| HeaderFooterSet { default, first, even: None };
    let config = config();
    let clearance = HeaderFooterClearance::new(
        &config,
        set(None, Some(Pt::new(40.0))),
        set(Some(Pt::new(30.0)), None),
        true,
        false,
        1,
    );
    let pages = layout_section_with_clearance(
        &[lines("a", 11, tens())],
        &config,
        Pt::ZERO,
        Pt::new(10.0),
        SectionStart { continuation: None, clearance, logical_page_base: 1 },
    );
    assert_eq!(place(&pages, "a0").1.y, Pt::new(50.0));
    assert_eq!(place(&pages, "a4"), (0, PtOffset::new(Pt::new(10.0), Pt::new(90.0))));
    assert_eq!(place(&pages, "a5"), (1, PtOffset::new(Pt::new(10.0), Pt::new(20.0))));
    assert_eq!(place(&pages, "a10").0, 1);
}

#[test]
fn an_aligned_table_stands_in_its_column() {
    let x_of = |wanted: Option<Alignment>, shift: f32| {
        let mut block = table(vec![row("cell", 10.0)]);
        if let LayoutBlock::Table { alignment, indent, .. } = &mut block {
            *alignment = wanted;
            *indent = Pt::new(shift);
        }
        place(&lay_out(&[block], &config()), "cell").1.x
    };
    assert_eq!(x_of(None, 0.0), Pt::new(10.0));
    assert_eq!(x_of(Some(Alignment::Left), 4.0), Pt::new(14.0));
    assert_eq!(x_of(Some(Alignment::Center), 4.0), Pt::new(50.0));
    assert_eq!(x_of(Some(Alignment::Right), 4.0), Pt::new(90.0));
}

#[test]
fn adjacent_tables_of_one_style_share_an_edge() {
    let edge = Some(TableBorderLine {
        width: Pt::new(1.0),
        color: RgbColor::BLACK,
        style: TableBorderStyle::Single,
    });
    let bordered = |style: u64| {
        let mut block = table(vec![row("cell", 10.0)]);
        if let LayoutBlock::Table { border_config, style_id, .. } = &mut block {
            *border_config = Some(TableBorderConfig {
                top: edge,
                bottom: None,
                left: None,
                right: None,
                inside_h: None,
                inside_v: None,
            });
            *style_id = Some(StyleId { id: style });
        }
        block
    };
    let edges = |blocks: &[LayoutBlock]| {
        lay_out(blocks, &config())[0]
            .commands
            .iter()
            .filter(|command| !matches!(command, DrawCommand::Text { .. }))
            .count()
    };
    assert_eq!(edges(&[bordered(1), bordered(1)]), 1);
    assert_eq!(edges(&[bordered(1), bordered(2)]), 2);
    assert_eq!(edges(&[bordered(1), line("between"), bordered(1)]), 2);
}

#[test]
fn a_floating_table_keeps_its_room_and_goes_on_on_the_next_page() {
    let floating = |offset: f32, overlap| {
        let mut block = table(vec![row("t0", 30.0), row("t1", 30.0), row("t2", 30.0)]);
        if let LayoutBlock::Table { float_info, .. } = &mut block {
            *float_info = Some(TableFloatInfo {
                right_gap: Pt::new(5.0),
                bottom_gap: Pt::ZERO,
                x_align: None,
                y_offset: Pt::new(offset),
                vert_anchor: TableAnchor::Margin,
                overlap,
            });
        }
        block
    };
    let pages = lay_out(&[floating(20.0, None), line("after")], &config());
    assert_eq!(pages.len(), 2);
    assert_eq!(place(&pages, "t0").0, 0);
    assert_eq!(place(&pages, "t1").0, 0);
    assert_eq!(place(&pages, "t2").0, 1);
    let (page, at) = place(&pages, "after");
    assert_eq!((page, at.x), (1, Pt::new(115.0)), "text runs beside the rest of the table");

    let mut small = table(vec![row("s", 30.0)]);
    if let LayoutBlock::Table { float_info, .. } = &mut small {
        *float_info = Some(TableFloatInfo {
            right_gap: Pt::ZERO,
            bottom_gap: Pt::ZERO,
            x_align: Some(Alignment::Right),
            y_offset: Pt::ZERO,
            vert_anchor: TableAnchor::Text,
            overlap: Some(TableOverlap::Never),
        });
    }
    let pages = lay_out(&[small, line("x")], &config());
    assert_eq!(place(&pages, "s").1.x, Pt::new(90.0));
}

#[test]
fn floating_tables_that_may_not_overlap_make_way() {
    let floating = |name: &str, height: f32| {
        let mut block = table(vec![row(name, height)]);
        if let LayoutBlock::Table { float_info, .. } = &mut block {
            *float_info = Some(TableFloatInfo {
                right_gap: Pt::ZERO,
                bottom_gap: Pt::ZERO,
                x_align: None,
                y_offset: Pt::ZERO,
                vert_anchor: TableAnchor::Text,
                overlap: Some(TableOverlap::Never),
            });
        }
        block
    };
    let pages = lay_out(&[floating("a", 30.0), floating("b", 30.0)], &config());
    assert_eq!(place(&pages, "b").1.y - place(&pages, "a").1.y, Pt::new(30.0));
    let pages = lay_out(&[floating("a", 50.0), floating("b", 40.0)], &config());
    assert_eq!(place(&pages, "b").0, 1, "there is no room below the first table");
}

#[test]
fn table_rows_and_their_footnotes_are_shown_once() {
    let mut noted = row("r1", 20.0);
    noted.cells[0].blocks = vec![with_note(line("r1"), "cell note")];
    let pages = lay_out(
        &[lines("a", 5, tens()), table(vec![row("r0", 20.0), noted, row("r2", 40.0)])],
        &config(),
    );
    for text in ["r0", "r1", "r2", "cell note"] {
        place(&pages, text);
    }
    assert_eq!(place(&pages, "r1").0, place(&pages, "cell note").0);
}

/// How often an image is drawn on each page.
fn image_counts(pages: &[LayoutedPage], wanted: u64) -> Vec<usize> {
    pages
        .iter()
        .map(|page| {
            let is_wanted = |command: &DrawCommand| {
                matches!(command, DrawCommand::Image { image, .. } if image.id == wanted)
            };
            page.commands.iter().filter(|command| is_wanted(command)).count()
                + page
                    .behind_doc_commands
                    .iter()
                    .filter(|layer| is_wanted(&layer.command))
                    .count()
        })
        .collect()
}

fn with_numbered_image(block: LayoutBlock, frame: FloatingFrame, number: u64) -> LayoutBlock {
    let mut block = with_image(block, frame);
    if let LayoutBlock::Paragraph { floating_images, .. } = &mut block {
        let last = floating_images.len() - 1;
        floating_images[last].image = ImageId { id: number };
    }
    block
}

#[test]
fn floating_objects_and_blocks_are_shown_once() {
    let below = FloatingImageY::RelativeToParagraph(Pt::ZERO);
    let band = frame(0.0, below, 50.0, 30.0, WrapMode::TopAndBottom);
    let beside = frame(
        120.0,
        FloatingImageY::Absolute(Pt::new(10.0)),
        40.0,
        20.0,
        WrapMode::Square(WrapTextSide::BothSides),
    );
    let mut behind = frame(0.0, below, 20.0, 20.0, WrapMode::Overlay);
    behind.behind_doc = true;
    let mut header = row("header", 10.0);
    header.is_header = Some(true);
    let blocks = vec![
        with_numbered_image(line("first"), behind, 1),
        lines("text", 5, tens()),
        with_numbered_image(line("moved"), band, 2),
        paragraph(
            vec![text_frag("before", 20.0), Fragment::PageBreak, text_frag("after", 20.0)],
            tens(),
        ),
        lines("more", 6, tens()),
        with_numbered_image(lines("tall", 2, tens()), beside, 3),
        table(vec![header, row("a", 40.0), row("b", 40.0), row("c", 40.0)]),
        paragraph(vec![Fragment::PageBreak, text_frag("last", 20.0)], tens()),
    ];
    let pages = lay_out(&blocks, &config());
    for number in 1..4 {
        assert_eq!(image_counts(&pages, number).iter().sum::<usize>(), 1, "image {number}");
    }
    for text in ["first", "text4", "moved", "before", "after", "more5", "tall1", "a", "b", "c", "last"] {
        place(&pages, text);
    }
    let parts = (0..pages.len())
        .filter(|&page| ["a", "b", "c"].iter().any(|text| place(&pages, text).0 == page))
        .count();
    assert_eq!(places(&pages, "header").len(), parts, "the header row stands in each part");
}

#[test]
fn floating_objects_are_taken_along_past_breaks() {
    let below = FloatingImageY::RelativeToParagraph(Pt::ZERO);
    let band = frame(0.0, below, 50.0, 20.0, WrapMode::TopAndBottom);
    let opening = |breaks: Vec<Fragment>| {
        let mut fragments = breaks;
        fragments.push(text_frag("text", 20.0));
        vec![line("first"), with_numbered_image(paragraph(fragments, tens()), band, 1)]
    };
    // One page is left before the text.
    let pages = lay_out(&opening(vec![Fragment::PageBreak]), &config());
    assert_eq!(image_counts(&pages, 1), vec![0, 1]);
    assert_eq!(place(&pages, "text").0, 1);
    let pages = lay_out(&opening(vec![Fragment::ColumnBreak]), &config());
    assert_eq!(image_counts(&pages, 1), vec![0, 1]);
    assert_eq!(place(&pages, "text").0, 1);
    // Only a column is left.
    let pages = lay_out(&opening(vec![Fragment::ColumnBreak]), &two_columns());
    assert_eq!(image_counts(&pages, 1), vec![1]);
    assert_eq!(place(&pages, "text").1.x, Pt::new(110.0));
}

#[test]
fn floating_objects_without_bands_are_shown_once_past_any_breaks() {
    let below = FloatingImageY::RelativeToParagraph(Pt::ZERO);
    let over = frame(0.0, below, 50.0, 20.0, WrapMode::Overlay);
    let breaks =
        vec![Fragment::PageBreak, Fragment::ColumnBreak, Fragment::ColumnBreak, text_frag("text", 20.0)];
    let blocks = vec![line("first"), with_numbered_image(paragraph(breaks, tens()), over, 1)];
    let pages = lay_out(&blocks, &config());
    assert_eq!(pages.len(), 4);
    assert_eq!(image_counts(&pages, 1), vec![0, 0, 0, 1]);
    assert_eq!(place(&pages, "text").0, 3);
}

#[test]
fn floating_objects_in_tables_are_shown_once() {
    let below = FloatingImageY::RelativeToParagraph(Pt::ZERO);
    let over = frame(0.0, below, 50.0, 20.0, WrapMode::Overlay);
    let mut rows = vec![row("a", 40.0), row("b", 40.0), row("c", 40.0)];
    let owner = rows[1].cells[0].blocks.pop().unwrap();
    rows[1].cells[0].blocks.push(with_numbered_image(owner, over, 1));
    let pages = lay_out(&[line("first"), table(rows)], &config());
    assert_eq!(image_counts(&pages, 1).iter().sum::<usize>(), 1);
    assert_eq!(image_counts(&pages, 1)[place(&pages, "b").0], 1);
}
