//! Whole documents: sections, headers, footers and endnotes.
use dxpdf::block::{
    CellVAlign, FloatingFrame, FloatingImage, FloatingImageX, FloatingImageY, FootnoteParagraph,
    LayoutBlock, TableCellInput, TableRowInput, WrapMode,
};
use dxpdf::document::{
    draw_headers_footers, finish_document, has_structural_terminal_section_mark, layout_document,
    layout_sections, leading_structural_section_owns_no_page, measure_footer_extent,
    measure_header_bottom, needs_numbering_restart_parity_separator, needs_parity_separator,
    next_logical_page_base, request_page, Document, DocumentSection, HeaderFooterContent,
    HeaderFooterContents, PageContents, PagePlace, PageRequest, SectionType,
};
use dxpdf::draw_command::{DrawCommand, FontId, ImageId, RgbColor, TextId};
use dxpdf::fragment::{AutoLineSpacingContribution, FontProps, Fragment, TextMetrics};
use dxpdf::geometry::{PtEdgeInsets, PtSize};
use dxpdf::page::{ColumnGeometry, HeaderFooterSlot, LayoutedPage, PageConfig};
use dxpdf::style::{LineSpacingRule, ParagraphStyle};
use dxpdf::dimension::Pt;

/// Lengths in points, as floating-point numbers.
trait PointLength: Sized {
    const ZERO: Self;
    const INFINITY: Self;
    fn new(points: f32) -> Self;
    fn raw(self) -> f32;
}

impl PointLength for Pt {
    const ZERO: Pt = Pt { units: 0 };
    const INFINITY: Pt = Pt { units: i64::MAX };

    fn new(points: f32) -> Pt {
        Pt { units: (points as f64 * 76200.0).round() as i64 }
    }

    fn raw(self) -> f32 {
        (self.units as f64 / 76200.0) as f32
    }
}

trait NamedColors {
    const BLACK: Self;
}

impl NamedColors for RgbColor {
    const BLACK: RgbColor = RgbColor { r: 0, g: 0, b: 0 };
}

trait NoInsets {
    const ZERO: Self;
}

impl NoInsets for PtEdgeInsets {
    const ZERO: PtEdgeInsets = PtEdgeInsets {
        top: Pt { units: 0 },
        right: Pt { units: 0 },
        bottom: Pt { units: 0 },
        left: Pt { units: 0 },
    };
}

/// A number for a text.
fn id(text: &str) -> TextId {
    let mut hash: u64 = 0xcbf2_9ce4_8422_2325;
    for byte in text.bytes() {
        hash = (hash ^ byte as u64).wrapping_mul(0x0000_0100_0000_01b3);
    }
    TextId { id: hash }
}

fn font() -> FontProps {
    FontProps {
        font: FontId { id: 1 },
        size: Pt::new(12.0),
        underline: false,
        auto_line_spacing: AutoLineSpacingContribution::Scaled,
    }
}

fn text_frag(text: &str, width: f32) -> Fragment {
    Fragment::Text {
        text: id(text),
        blank: text.trim().is_empty(),
        font: font(),
        color: RgbColor::BLACK,
        width: Pt::new(width),
        trimmed_width: Pt::new(width),
        metrics: TextMetrics {
            ascent: Pt::new(10.0),
            descent: Pt::new(4.0),
            leading: Pt::ZERO,
        },
        baseline_offset: Pt::ZERO,
        is_footnote_ref: false,
    }
}

fn no_contents() -> HeaderFooterContents {
    HeaderFooterContents { default: None, first: None, even: None }
}

fn section(blocks: Vec<LayoutBlock>) -> DocumentSection {
    DocumentSection {
        section_type: None,
        config: PageConfig::default(),
        blocks,
        headers: no_contents(),
        footers: no_contents(),
        title_page: None,
        page_number_start: None,
    }
}

fn document(sections: Vec<DocumentSection>) -> Document {
    Document {
        sections,
        endnotes: vec![],
        even_and_odd_headers: false,
        default_line_height: Pt::new(12.0),
        separator_indent: Pt::ZERO,
    }
}

/// A paragraph of one line, twelve points high; without a text one that is empty.
fn para(text: &str) -> LayoutBlock {
    LayoutBlock::Paragraph {
        fragments: if text.is_empty() {
            vec![Fragment::LineBreak { line_height: Pt::new(12.0) }]
        } else {
            vec![text_frag(text, 40.0)]
        },
        style: ParagraphStyle {
            line_spacing: LineSpacingRule::Exact(Pt::new(12.0)),
            ..Default::default()
        },
        page_break_before: false,
        footnotes: Vec::new(),
        floating_images: Vec::new(),
        floating_shapes: Vec::new(),
    }
}

fn content(texts: &[&str]) -> Option<HeaderFooterContent> {
    Some(HeaderFooterContent {
        blocks: texts.iter().map(|text| para(text)).collect(),
        floating_images: vec![],
    })
}

/// The content of a slot, made anew.
fn remade(contents: &HeaderFooterContents, slot: HeaderFooterSlot) -> Option<HeaderFooterContent> {
    let chosen = match slot {
        HeaderFooterSlot::Default => &contents.default,
        HeaderFooterSlot::First => &contents.first,
        HeaderFooterSlot::Even => &contents.even,
    };
    chosen.as_ref().map(|content| HeaderFooterContent {
        blocks: content
            .blocks
            .iter()
            .map(|block| match block {
                LayoutBlock::Paragraph { fragments, style, .. } => LayoutBlock::Paragraph {
                    fragments: fragments.clone(),
                    style: *style,
                    page_break_before: false,
                    footnotes: Vec::new(),
                    floating_images: Vec::new(),
                    floating_shapes: Vec::new(),
                },
                LayoutBlock::Table { .. } => unreachable!(),
            })
            .collect(),
        floating_images: content.floating_images.clone(),
    })
}

/// Lay out a document whose headers and footers hold no page fields.
fn lay_out(doc: &Document) -> Vec<LayoutedPage> {
    layout_document(doc, |request: PageRequest| {
        let section = &doc.sections[request.place.section];
        PageContents {
            header: remade(&section.headers, request.place.slot),
            footer: remade(&section.footers, request.place.slot),
        }
    })
}

/// What a header with page fields shows.
fn page_of(number: usize, total: usize) -> String {
    format!("page {number} of {total}")
}

fn numbered(request: PageRequest) -> PageContents {
    PageContents { header: content(&[&page_of(request.place.number, request.total)]), footer: None }
}

fn lines(n: usize) -> Vec<LayoutBlock> {
    (0..n).map(|index| para(&format!("line {index}"))).collect()
}

fn note(text: &str) -> FootnoteParagraph {
    FootnoteParagraph {
        fragments: vec![text_frag(text, 40.0)],
        style: ParagraphStyle {
            line_spacing: LineSpacingRule::Exact(Pt::new(12.0)),
            ..Default::default()
        },
    }
}

fn texts(page: &LayoutedPage) -> Vec<(TextId, Pt)> {
    page.commands
        .iter()
        .filter_map(|command| match command {
            DrawCommand::Text { text, position, .. } => Some((*text, position.y)),
            _ => None,
        })
        .collect()
}

fn has_text(page: &LayoutedPage, text: &str) -> bool {
    texts(page).iter().any(|(found, _)| *found == id(text))
}

fn small_config() -> PageConfig {
    PageConfig {
        page_size: PtSize::new(Pt::new(200.0), Pt::new(100.0)),
        margins: PtEdgeInsets::new(Pt::new(10.0), Pt::new(10.0), Pt::new(10.0), Pt::new(10.0)),
        header_margin: Pt::new(5.0),
        footer_margin: Pt::new(5.0),
        columns: vec![ColumnGeometry { x_offset: Pt::ZERO, width: Pt::new(180.0) }],
    }
}

#[test]
fn parity_section_break_inserts_only_the_required_physical_separator() {
    assert!(needs_parity_separator(Some(SectionType::OddPage), 1,));
    assert!(!needs_parity_separator(Some(SectionType::OddPage), 2,));
    assert!(!needs_parity_separator(Some(SectionType::EvenPage), 1,));
    assert!(needs_parity_separator(Some(SectionType::EvenPage), 2,));
    assert!(!needs_parity_separator(Some(SectionType::NextPage), 1));
}

#[test]
fn numbering_restart_preserves_odd_even_physical_parity() {
    let restart = Some(1);
    assert!(needs_numbering_restart_parity_separator(
        true,
        Some(SectionType::NextPage),
        1,
        restart,
    ));
    assert!(!needs_numbering_restart_parity_separator(
        true,
        Some(SectionType::NextPage),
        2,
        restart,
    ));
    assert!(!needs_numbering_restart_parity_separator(
        false,
        Some(SectionType::NextPage),
        1,
        restart,
    ));
    assert!(!needs_numbering_restart_parity_separator(
        true,
        Some(SectionType::Continuous),
        1,
        restart,
    ));
    assert!(!needs_numbering_restart_parity_separator(
        true,
        Some(SectionType::OddPage),
        1,
        restart,
    ));
    assert!(!needs_numbering_restart_parity_separator(
        true,
        Some(SectionType::NextPage),
        1,
        None,
    ));
}

#[test]
fn only_an_outgoing_hard_section_has_a_structural_terminal_mark() {
    assert!(has_structural_terminal_section_mark(
        Some(SectionType::NextPage),
        true
    ));
    assert!(has_structural_terminal_section_mark(None, true));
    assert!(!has_structural_terminal_section_mark(
        Some(SectionType::Continuous),
        true
    ));
    assert!(!has_structural_terminal_section_mark(
        Some(SectionType::NextColumn),
        true
    ));
    assert!(!has_structural_terminal_section_mark(
        Some(SectionType::NextPage),
        false
    ));
    assert!(!has_structural_terminal_section_mark(None, false));
}

#[test]
fn only_a_leading_ordinary_structural_section_owns_no_page() {
    for section_type in [None, Some(SectionType::NextPage)] {
        assert!(leading_structural_section_owns_no_page(
            0,
            section_type,
            true,
            true,
            true,
        ));
    }

    for section_type in [
        Some(SectionType::OddPage),
        Some(SectionType::EvenPage),
        Some(SectionType::Continuous),
        Some(SectionType::NextColumn),
    ] {
        assert!(
            !leading_structural_section_owns_no_page(0, section_type, true, true, true,),
            "{section_type:?} carries layout intent and must not be folded"
        );
    }

    assert!(!leading_structural_section_owns_no_page(
        1, None, true, true, true,
    ));
    assert!(!leading_structural_section_owns_no_page(
        0, None, false, true, true,
    ));
    assert!(!leading_structural_section_owns_no_page(
        0, None, true, false, true,
    ));
    assert!(!leading_structural_section_owns_no_page(
        0, None, true, true, false,
    ));
}

#[test]
fn resolve_and_layout_empty_doc() {
    let pages = lay_out(&document(vec![section(vec![])]));

    assert_eq!(pages.len(), 1);
    assert!(pages[0].commands.is_empty());
}

#[test]
fn leading_structural_section_uses_no_physical_page() {
    let mut leading = section(vec![para("")]);
    leading.section_type = Some(SectionType::NextPage);
    leading.footers.default = content(&["OUTGOING FOOTER"]);
    let mut last = section(vec![para("BODY")]);
    last.footers.default = content(&["BODY FOOTER"]);

    let pages = lay_out(&document(vec![leading, last]));

    assert_eq!(
        pages.len(),
        1,
        "the leading structural section owns no sheet"
    );
    assert_eq!(texts(&pages[0]).len(), 2);
    assert!(has_text(&pages[0], "BODY"));
    assert!(has_text(&pages[0], "BODY FOOTER"));
    assert!(!has_text(&pages[0], "OUTGOING FOOTER"));
}

#[test]
fn resolve_and_layout_with_paragraphs() {
    let pages = lay_out(&document(vec![section(vec![para("hello"), para("world")])]));

    assert_eq!(pages.len(), 1);
    let text_count = pages[0]
        .commands
        .iter()
        .filter(|c| matches!(c, DrawCommand::Text { .. }))
        .count();
    assert_eq!(text_count, 2);
}

#[test]
fn body_layout_uses_the_header_and_footer_selected_for_each_page() {
    let names: Vec<String> = (0..6).map(|index| format!("body {index}")).collect();
    let mut only = section(names.iter().map(|name| para(name)).collect());
    only.config = small_config();
    only.headers.default = content(&["default header"]);
    only.headers.first = content(&["first header 1", "first header 2"]);
    only.footers.default = content(&["default footer"]);
    only.footers.first = content(&["first footer 1", "first footer 2"]);
    only.title_page = Some(true);

    let pages = lay_out(&document(vec![only]));

    assert_eq!(
        pages.len(),
        2,
        "shorter default slots must expand page 2 body"
    );
    let body_positions: Vec<Vec<Pt>> = pages
        .iter()
        .map(|page| {
            texts(page)
                .iter()
                .filter(|(text, _)| names.iter().any(|name| id(name) == *text))
                .map(|(_, y)| *y)
                .collect()
        })
        .collect();
    assert_eq!(body_positions[0].len(), 3);
    assert_eq!(body_positions[1].len(), 3);
    assert!(
        body_positions[1][0] < body_positions[0][0],
        "page 2 body must start below the shorter default header",
    );
    assert_eq!(body_positions[0][0] - body_positions[1][0], Pt::new(12.0));
    assert!(has_text(&pages[0], "first header 2") && has_text(&pages[0], "first footer 1"));
    assert!(has_text(&pages[1], "default header") && has_text(&pages[1], "default footer"));
    assert!(!has_text(&pages[1], "first header 1"));
}

#[test]
fn resolve_and_layout_with_table() {
    let cell = |text| TableCellInput {
        blocks: vec![para(text)],
        margins: PtEdgeInsets::ZERO,
        grid_span: 1,
        shading: None,
        cell_borders: None,
        vertical_merge: None,
        vertical_align: CellVAlign::Top,
    };
    let table = LayoutBlock::Table {
        rows: vec![TableRowInput {
            cells: vec![cell("A"), cell("B")],
            height_rule: None,
            is_header: None,
            cant_split: None,
            grid_before: 0,
            border_overrides: None,
        }],
        col_widths: vec![Pt::new(234.0), Pt::new(234.0)],
        cell_spacing: Pt::ZERO,
        border_config: None,
        indent: Pt::ZERO,
        alignment: None,
        float_info: None,
        style_id: None,
    };

    let pages = lay_out(&document(vec![section(vec![table])]));
    assert_eq!(pages.len(), 1);

    let text_count = pages[0]
        .commands
        .iter()
        .filter(|c| matches!(c, DrawCommand::Text { .. }))
        .count();
    assert_eq!(text_count, 2, "two cells = two text commands");
}

#[test]
fn layout_respects_page_size() {
    let mut only = section(vec![]);
    only.config.page_size = PtSize::new(Pt::new(612.0), Pt::new(792.0));

    let pages = lay_out(&document(vec![only]));
    assert_eq!(pages[0].page_size.width.raw(), 612.0);
    assert_eq!(pages[0].page_size.height.raw(), 792.0);
}

#[test]
fn a_document_without_sections_is_one_blank_letter_page() {
    let pages = lay_out(&document(vec![]));
    assert_eq!(pages.len(), 1);
    assert!(pages[0].commands.is_empty());
    assert_eq!(pages[0].page_size, PtSize::new(Pt::new(612.0), Pt::new(792.0)));
}

#[test]
fn parity_sections_begin_on_their_side_after_a_blank_page() {
    let pages_for = |section_type| {
        let mut second = section(vec![para("second")]);
        second.section_type = Some(section_type);
        second.headers.default = content(&["header"]);
        lay_out(&document(vec![section(vec![para("first")]), second]))
    };
    let odd = pages_for(SectionType::OddPage);
    assert_eq!(odd.len(), 3);
    assert!(odd[1].commands.is_empty(), "the separator has no header");
    assert!(has_text(&odd[2], "second") && has_text(&odd[2], "header"));
    let even = pages_for(SectionType::EvenPage);
    assert_eq!(even.len(), 2);
    assert!(has_text(&even[1], "second"));
}

#[test]
fn restarted_numbering_keeps_odd_and_even_sheets_apart() {
    let build = |even_and_odd| {
        let mut second = section(vec![para("second")]);
        second.page_number_start = Some(1);
        second.headers.default = content(&["odd header"]);
        second.headers.even = content(&["even header"]);
        let mut doc = document(vec![section(vec![para("first")]), second]);
        doc.even_and_odd_headers = even_and_odd;
        lay_out(&doc)
    };
    let apart = build(true);
    assert_eq!(apart.len(), 3);
    assert!(apart[1].commands.is_empty());
    assert!(has_text(&apart[2], "odd header"));
    let plain = build(false);
    assert_eq!(plain.len(), 2);
    assert!(has_text(&plain[1], "odd header"));
}

#[test]
fn even_pages_have_their_own_header_where_asked_for() {
    let mut only = section((0..8).map(|index| para(&format!("line {index}"))).collect());
    only.config = small_config();
    only.headers.default = content(&["odd header"]);
    only.headers.even = content(&["even header"]);
    let mut doc = document(vec![only]);
    doc.even_and_odd_headers = true;
    let pages = lay_out(&doc);
    assert_eq!(pages.len(), 2);
    assert!(has_text(&pages[0], "odd header") && !has_text(&pages[0], "even header"));
    assert!(has_text(&pages[1], "even header") && !has_text(&pages[1], "odd header"));
}

#[test]
fn a_continuous_section_goes_on_on_the_same_page() {
    let mut second = section(vec![para("second")]);
    second.section_type = Some(SectionType::Continuous);
    let pages = lay_out(&document(vec![section(vec![para("first")]), second]));
    assert_eq!(pages.len(), 1);
    let found = texts(&pages[0]);
    assert_eq!((found[0].0, found[1].0), (id("first"), id("second")));
    assert_eq!(found[1].1 - found[0].1, Pt::new(12.0));
}

#[test]
fn a_hard_break_leaves_its_own_mark_out() {
    let lines = |n: usize| -> Vec<LayoutBlock> {
        let mut blocks: Vec<LayoutBlock> = (0..n).map(|i| para(&format!("line {i}"))).collect();
        blocks.push(para(""));
        blocks
    };
    // Six lines fill the page, so that the empty paragraph after them needs another one.
    let mut first = section(lines(6));
    first.config = small_config();
    first.config.page_size.height = Pt::new(92.0);
    let pages = lay_out(&document(vec![first, section(vec![para("next")])]));
    assert_eq!(pages.len(), 2);
    let mut last = section(lines(6));
    last.config = small_config();
    last.config.page_size.height = Pt::new(92.0);
    assert_eq!(lay_out(&document(vec![last])).len(), 2);
}

#[test]
fn endnotes_stand_on_a_page_of_their_own() {
    let mut doc = document(vec![section(vec![para("body")])]);
    doc.separator_indent = Pt::new(9.0);
    doc.endnotes = vec![
        FootnoteParagraph {
            fragments: vec![text_frag("first note", 40.0)],
            style: ParagraphStyle {
                line_spacing: LineSpacingRule::Exact(Pt::new(12.0)),
                ..Default::default()
            },
        },
        FootnoteParagraph {
            fragments: vec![text_frag("second note", 40.0)],
            style: ParagraphStyle {
                line_spacing: LineSpacingRule::Exact(Pt::new(12.0)),
                ..Default::default()
            },
        },
    ];
    let pages = lay_out(&doc);
    assert_eq!(pages.len(), 2);
    let DrawCommand::Line { line, width, .. } = pages[1].commands[0] else {
        panic!("expected the separator first");
    };
    assert_eq!(line.start.x, Pt::new(81.0));
    assert_eq!(line.start.y, Pt::new(72.0));
    assert_eq!(line.end.x, Pt::new(81.0 + 154.44));
    assert_eq!(width, Pt::new(0.5));
    let found = texts(&pages[1]);
    assert_eq!((found[0].0, found[1].0), (id("first note"), id("second note")));
    assert_eq!(found[1].1 - found[0].1, Pt::new(12.0));
}

#[test]
fn bands_count_towards_headers_and_footers() {
    let band = |y, wrap_mode| FloatingImage {
        frame: FloatingFrame {
            x: FloatingImageX::Absolute(Pt::ZERO),
            y,
            size: PtSize::new(Pt::new(50.0), Pt::new(20.0)),
            wrap_mode,
            dist_top: Pt::ZERO,
            dist_bottom: Pt::ZERO,
            dist_left: Pt::ZERO,
            dist_right: Pt::ZERO,
            behind_doc: false,
            relative_height: 0,
        },
        image: ImageId { id: 7 },
    };
    let with = |y, wrap_mode| HeaderFooterContent {
        blocks: vec![para("text")],
        floating_images: vec![band(y, wrap_mode)],
    };
    let config = small_config();
    let line = Pt::new(12.0);
    let header = |y, wrap_mode| measure_header_bottom(&with(y, wrap_mode), &config, line);
    let footer = |y, wrap_mode| measure_footer_extent(&with(y, wrap_mode), &config, line);
    let at = |y| FloatingImageY::Absolute(Pt::new(y));
    let below = |y| FloatingImageY::RelativeToParagraph(Pt::new(y));
    assert_eq!(header(at(30.0), WrapMode::Overlay), Pt::new(17.0));
    assert_eq!(header(at(30.0), WrapMode::TopAndBottom), Pt::new(50.0));
    assert_eq!(header(below(2.0), WrapMode::TopAndBottom), Pt::new(27.0));
    assert_eq!(footer(at(60.0), WrapMode::Overlay), Pt::new(17.0));
    assert_eq!(footer(at(60.0), WrapMode::TopAndBottom), Pt::new(40.0));
    assert_eq!(footer(below(2.0), WrapMode::TopAndBottom), Pt::new(27.0));
}

#[test]
fn page_numbers_go_on_unless_they_start_anew() {
    assert_eq!(next_logical_page_base(4, None), 4);
    assert_eq!(next_logical_page_base(4, Some(9)), 9);
}

#[test]
fn page_fields_show_the_number_and_the_count_of_pages() {
    let mut first = section(lines(8));
    first.config = small_config();
    first.headers.default = content(&["header"]);
    let mut second = section(lines(8));
    second.config = small_config();
    second.headers.default = content(&["header"]);
    second.page_number_start = Some(7);
    let doc = document(vec![first, second]);
    let pages = layout_document(&doc, numbered);
    assert_eq!(pages.len(), 4);
    for (page, number) in pages.iter().zip([1, 2, 7, 8]) {
        assert!(has_text(page, &page_of(number, 4)), "page {number}");
        assert!(!has_text(page, "header"), "the header is measured for its page");
    }
}

#[test]
fn the_count_of_pages_includes_the_endnotes() {
    let mut only = section(lines(8));
    only.config = small_config();
    only.headers.default = content(&["header"]);
    let mut doc = document(vec![only]);
    doc.endnotes = vec![note("note")];
    let pages = layout_document(&doc, numbered);
    assert_eq!(pages.len(), 3);
    assert!(has_text(&pages[0], &page_of(1, 3)));
    assert!(has_text(&pages[1], &page_of(2, 3)));
    assert!(has_text(&pages[2], "note"));
    assert_eq!(texts(&pages[2]).len(), 1, "endnotes have no header");
}

#[test]
fn blank_pages_count_but_show_no_number() {
    let mut second = section(vec![para("second")]);
    second.section_type = Some(SectionType::OddPage);
    second.headers.default = content(&["header"]);
    let doc = document(vec![section(vec![para("first")]), second]);
    let pages = layout_document(&doc, numbered);
    assert_eq!(pages.len(), 3);
    assert_eq!(texts(&pages[0]).len(), 1, "the first section has no header");
    assert!(pages[1].commands.is_empty());
    assert!(has_text(&pages[2], &page_of(3, 3)));
}

#[test]
fn a_page_shows_the_content_measured_for_it() {
    let mut only = section(lines(8));
    only.config = small_config();
    only.headers.default = content(&["header"]);
    only.headers.first = content(&["first header"]);
    only.footers.default = content(&["footer"]);
    only.title_page = Some(true);
    let mut doc = document(vec![only]);
    doc.endnotes = vec![note("note")];
    let laid_out = layout_sections(&doc);
    let mut pages = laid_out.pages;
    assert_eq!(pages.len(), 2);
    assert_eq!(laid_out.total, 3);
    assert_eq!(laid_out.spans.len(), 1);
    assert_eq!((laid_out.spans[0].start, laid_out.spans[0].end), (0, 2));
    assert_eq!(laid_out.spans[0].logical_page_base, 1);
    assert_eq!(
        request_page(&doc, &laid_out.spans, laid_out.total, 0),
        Some(PageRequest {
            place: PagePlace { section: 0, slot: HeaderFooterSlot::First, number: 1 },
            total: 3,
        })
    );
    assert_eq!(
        request_page(&doc, &laid_out.spans, laid_out.total, 1),
        Some(PageRequest {
            place: PagePlace { section: 0, slot: HeaderFooterSlot::Default, number: 2 },
            total: 3,
        })
    );
    assert_eq!(request_page(&doc, &laid_out.spans, laid_out.total, 2), None);
    let contents: Vec<PageContents> = (0..2)
        .map(|k| PageContents {
            header: content(&[&format!("header {k}")]),
            footer: content(&[&format!("footer {k}")]),
        })
        .collect();
    draw_headers_footers(&mut pages, &doc, &laid_out.spans, &contents);
    assert!(has_text(&pages[0], "header 0"));
    assert!(!has_text(&pages[0], "footer 0"), "the first page has no footer");
    assert!(has_text(&pages[1], "header 1") && has_text(&pages[1], "footer 1"));
    finish_document(&mut pages, &doc, &laid_out.spans);
    assert_eq!(pages.len(), 3);
    assert!(has_text(&pages[2], "note"));
}

#[test]
fn floating_objects_of_header_paragraphs_are_mirrored() {
    let with_float = || {
        let mut block = para("header");
        if let LayoutBlock::Paragraph { floating_images, .. } = &mut block {
            floating_images.push(FloatingImage {
                frame: FloatingFrame {
                    x: FloatingImageX::Mirrored { odd: Pt::new(20.0), even: Pt::new(90.0) },
                    y: FloatingImageY::RelativeToParagraph(Pt::new(3.0)),
                    size: PtSize::new(Pt::new(8.0), Pt::new(6.0)),
                    wrap_mode: WrapMode::Overlay,
                    dist_top: Pt::ZERO,
                    dist_bottom: Pt::ZERO,
                    dist_left: Pt::ZERO,
                    dist_right: Pt::ZERO,
                    behind_doc: false,
                    relative_height: 0,
                },
                image: ImageId { id: 4 },
            });
        }
        Some(HeaderFooterContent { blocks: vec![block], floating_images: vec![] })
    };
    let mut only = section(lines(8));
    only.config = small_config();
    only.headers.default = with_float();
    only.footers.default = with_float();
    let doc = document(vec![only]);
    let pages = layout_document(&doc, |_: PageRequest| PageContents {
        header: with_float(),
        footer: with_float(),
    });
    assert_eq!(pages.len(), 2);
    for (page, x) in pages.iter().zip([30.0, 100.0]) {
        let found: Vec<(Pt, Pt)> = page
            .commands
            .iter()
            .filter_map(|command| match command {
                DrawCommand::Image { rect, image } if image.id == 4 => {
                    Some((rect.origin.x, rect.origin.y))
                },
                _ => None,
            })
            .collect();
        // The header stands five points below the top, the footer twelve above its margin.
        assert_eq!(
            found,
            vec![(Pt::new(x), Pt::new(8.0)), (Pt::new(x), Pt::new(86.0))]
        );
    }
}
