//! Laying out a whole document: its sections one after another, with headers, footers and endnotes.
use crate::block::{FloatingImage, FloatingImageY, FootnoteParagraph, LayoutBlock, PageParity};
use crate::dimension::Pt;
use crate::draw_command::{append_shifted, shift_all, DrawCommand};
use crate::geometry::{PtEdgeInsets, PtRect, PtSize};
use crate::page::{
    ColumnGeometry, HeaderFooterClearance, HeaderFooterSet, HeaderFooterSlot, LayoutedPage,
    PageConfig, PageView,
};
use crate::section::layout::{layout_section_with_clearance_result, section_layout, SectionStart};
use crate::section::predicates::{is_empty_spacer, is_plain_empty_spacer};
use crate::section::state::{
    continuation_view, draw_separator, footnote_commands, footnote_separator_gap, pages_view,
    separator_line, Continuation, ContinuationState, LayoutCtx,
};
use crate::paragraph::layout_paragraph;
use crate::table::measure::{cell_layout, law_parity_changes_no_height, layout_cell};
use vstd::prelude::*;
use vstd::slice::slice_subrange;

verus! {

/// How a section begins.
#[derive(Clone, Copy, Debug, PartialEq, Eq, Structural)]
pub enum SectionType {
    NextPage,
    NextColumn,
    Continuous,
    EvenPage,
    OddPage,
}

/// The content of a header or a footer.
///
/// Paragraphs are drawn with their floating objects, at their places in the content; text does not run
/// around them. The floating images of the content itself stand on the page.
#[derive(Debug)]
pub struct HeaderFooterContent {
    pub blocks: Vec<LayoutBlock>,
    pub floating_images: Vec<FloatingImage>,
}

/// The headers, or the footers, of a section.
#[derive(Debug)]
pub struct HeaderFooterContents {
    pub default: Option<HeaderFooterContent>,
    pub first: Option<HeaderFooterContent>,
    pub even: Option<HeaderFooterContent>,
}

/// A section of a document.
#[derive(Debug)]
pub struct DocumentSection {
    pub section_type: Option<SectionType>,
    pub config: PageConfig,
    pub blocks: Vec<LayoutBlock>,
    pub headers: HeaderFooterContents,
    pub footers: HeaderFooterContents,
    /// Whether the first page has a header and footer of its own.
    pub title_page: Option<bool>,
    /// The number of the first page, where numbering starts anew.
    pub page_number_start: Option<u32>,
}

/// A document, measured and ready to be laid out.
#[derive(Debug)]
pub struct Document {
    pub sections: Vec<DocumentSection>,
    pub endnotes: Vec<FootnoteParagraph>,
    /// Whether even pages have headers and footers of their own.
    pub even_and_odd_headers: bool,
    pub default_line_height: Pt,
    /// The distance of the separator above notes from the left margin.
    pub separator_indent: Pt,
}

impl Document {
    /// Whether each section has a column for its text.
    pub open spec fn has_columns(&self) -> bool {
        forall|i: int| #![trigger self.sections@[i]]
            0 <= i < self.sections@.len() ==> self.sections@[i].config.columns@.len() > 0
    }
}

/// Whether a blank page stands before a section that has to begin on an odd or an even page.
#[verifier::allow_in_spec]
pub fn needs_parity_separator(section_type: Option<SectionType>, pages_before: usize) -> bool
    returns
        (match section_type {
            Some(SectionType::OddPage) => pages_before % 2 == 1,
            Some(SectionType::EvenPage) => pages_before % 2 == 0,
            _ => false,
        }),
{
    match section_type {
        Some(SectionType::OddPage) => pages_before % 2 == 1,
        Some(SectionType::EvenPage) => pages_before % 2 == 0,
        _ => false,
    }
}

/// Whether a blank page stands before a section that starts page numbering anew, so that its first
/// page is an odd sheet just where its number is odd.
#[verifier::allow_in_spec]
pub fn needs_numbering_restart_parity_separator(
    even_and_odd: bool,
    section_type: Option<SectionType>,
    pages_before: usize,
    page_number_start: Option<u32>,
) -> bool
    returns
        (even_and_odd && (section_type is None || section_type == Some(SectionType::NextPage))
            && match page_number_start {
            Some(start) => (pages_before % 2 == 0) != (start % 2 == 1),
            None => false,
        }),
{
    even_and_odd && (section_type.is_none() || section_type == Some(SectionType::NextPage))
        && match page_number_start {
        Some(start) => (pages_before % 2 == 0) != (start % 2 == 1),
        None => false,
    }
}

/// Whether a section ends with a paragraph mark that only marks the break after it.
#[verifier::allow_in_spec]
pub fn has_structural_terminal_section_mark(
    section_type: Option<SectionType>,
    has_next_section: bool,
) -> bool
    returns
        (has_next_section && section_type != Some(SectionType::Continuous) && section_type != Some(
            SectionType::NextColumn,
        )),
{
    has_next_section && section_type != Some(SectionType::Continuous) && section_type != Some(
        SectionType::NextColumn,
    )
}

/// Whether the first section holds nothing but the mark of the break after it, and so takes no
/// page.
#[verifier::allow_in_spec]
pub fn leading_structural_section_owns_no_page(
    section_index: usize,
    section_type: Option<SectionType>,
    has_next_section: bool,
    had_blocks_before_suppression: bool,
    blocks_are_empty_after_suppression: bool,
) -> bool
    returns
        (section_index == 0 && has_next_section && had_blocks_before_suppression
            && blocks_are_empty_after_suppression && (section_type is None || section_type == Some(
            SectionType::NextPage,
        ))),
{
    section_index == 0 && has_next_section && had_blocks_before_suppression
        && blocks_are_empty_after_suppression && (section_type.is_none() || section_type == Some(
        SectionType::NextPage,
    ))
}

/// After the blank page, if one is needed, an odd-page section begins on an odd sheet and an
/// even-page section on an even one.
pub proof fn law_parity_sections_begin_on_their_side(
    section_type: Option<SectionType>,
    pages_before: usize,
)
    ensures
        ({
            let first = pages_before + 1 + if needs_parity_separator(section_type, pages_before) {
                1int
            } else {
                0
            };
            &&& section_type == Some(SectionType::OddPage) ==> first % 2 == 1
            &&& section_type == Some(SectionType::EvenPage) ==> first % 2 == 0
            &&& section_type != Some(SectionType::OddPage) && section_type != Some(
                SectionType::EvenPage,
            ) ==> first == pages_before + 1
        }),
{
}

/// With headers that differ between odd and even pages, a section that starts numbering anew has its
/// first page on a sheet of the same parity as its number.
pub proof fn law_restarted_numbers_keep_their_side(
    section_type: Option<SectionType>,
    pages_before: usize,
    start: u32,
)
    requires
        section_type is None || section_type == Some(SectionType::NextPage),
    ensures
        ({
            let first = pages_before + 1 + if needs_numbering_restart_parity_separator(
                true,
                section_type,
                pages_before,
                Some(start),
            ) {
                1int
            } else {
                0
            };
            first % 2 == start % 2
        }),
{
}

/// The number of the first page of a section: its own where it starts numbering anew.
#[verifier::allow_in_spec]
pub fn next_logical_page_base(next_logical: usize, page_number_start: Option<u32>) -> usize
    returns
        (match page_number_start {
            Some(start) => start as usize,
            None => next_logical,
        }),
{
    match page_number_start {
        Some(start) => start as usize,
        None => next_logical,
    }
}

/// The size of a page of which nothing is said.
#[verifier::allow_in_spec]
pub fn default_page_size() -> PtSize
    returns
        (PtSize { width: Pt::points(612), height: Pt::points(792) }),
{
    PtSize { width: Pt::points(612), height: Pt::points(792) }
}

/// The lowest edge among the bands of a header from `i` on, and `acc`.
pub open spec fn bands_bottom(images: Seq<FloatingImage>, i: int, top: Pt, acc: Pt) -> Pt
    decreases images.len() - i,
{
    if i < 0 || i >= images.len() {
        acc
    } else {
        let frame = images[i].frame;
        bands_bottom(
            images,
            i + 1,
            top,
            if frame.is_wrap_top_and_bottom() {
                acc.max(frame.y.resolve(top).plus(frame.size.height))
            } else {
                acc
            },
        )
    }
}

/// Where a header ends, from the top of the page: below its text and its bands.
pub open spec fn header_bottom(
    content: HeaderFooterContent,
    config: PageConfig,
    default_line_height: Pt,
) -> Pt {
    let height = cell_layout(
        content.blocks@,
        config.content_width(),
        PtEdgeInsets::zero(),
        default_line_height,
        PageParity::Odd,
    ).content_height;
    config.header_margin.plus(height).max(
        bands_bottom(content.floating_images@, 0, config.header_margin, Pt::zero()),
    )
}

/// Measure where a header ends, from the top of the page.
pub fn measure_header_bottom(
    content: &HeaderFooterContent,
    config: &PageConfig,
    default_line_height: Pt,
) -> (r: Pt)
    ensures
        r == header_bottom(*content, *config, default_line_height),
{
    let stacked = layout_cell(
        content.blocks.as_slice(),
        config.content_width(),
        &PtEdgeInsets::zero(),
        default_line_height,
        PageParity::Odd,
    );
    let mut bands = Pt::zero();
    let mut i: usize = 0;
    while i < content.floating_images.len()
        invariant
            i <= content.floating_images@.len(),
            bands_bottom(content.floating_images@, i as int, config.header_margin, bands)
                == bands_bottom(content.floating_images@, 0, config.header_margin, Pt::zero()),
        decreases content.floating_images@.len() - i,
    {
        let frame = &content.floating_images[i].frame;
        if frame.is_wrap_top_and_bottom() {
            bands = bands.max(frame.y.resolve(config.header_margin).plus(frame.size.height));
        }
        i += 1;
    }
    config.header_margin.plus(stacked.content_height).max(bands)
}

/// How far the bands of a footer from `i` on reach up from the bottom of the page, and `acc`.
pub open spec fn bands_extent(
    images: Seq<FloatingImage>,
    i: int,
    page_height: Pt,
    margin: Pt,
    acc: Pt,
) -> Pt
    decreases images.len() - i,
{
    if i < 0 || i >= images.len() {
        acc
    } else {
        let frame = images[i].frame;
        bands_extent(
            images,
            i + 1,
            page_height,
            margin,
            if frame.is_wrap_top_and_bottom() {
                acc.max(
                    match frame.y {
                        FloatingImageY::Absolute(y) => page_height.minus(y),
                        FloatingImageY::RelativeToParagraph(off) => margin.plus(off).plus(
                            frame.size.height,
                        ),
                    },
                )
            } else {
                acc
            },
        )
    }
}

/// Where a footer starts, from the bottom of the page: above its text and its bands.
pub open spec fn footer_extent(
    content: HeaderFooterContent,
    config: PageConfig,
    default_line_height: Pt,
) -> Pt {
    let height = cell_layout(
        content.blocks@,
        config.content_width(),
        PtEdgeInsets::zero(),
        default_line_height,
        PageParity::Odd,
    ).content_height;
    config.footer_margin.plus(height).max(
        bands_extent(
            content.floating_images@,
            0,
            config.page_size.height,
            config.footer_margin,
            Pt::zero(),
        ),
    )
}

/// Measure where a footer starts, from the bottom of the page.
pub fn measure_footer_extent(
    content: &HeaderFooterContent,
    config: &PageConfig,
    default_line_height: Pt,
) -> (r: Pt)
    ensures
        r == footer_extent(*content, *config, default_line_height),
{
    let stacked = layout_cell(
        content.blocks.as_slice(),
        config.content_width(),
        &PtEdgeInsets::zero(),
        default_line_height,
        PageParity::Odd,
    );
    let mut bands = Pt::zero();
    let mut i: usize = 0;
    while i < content.floating_images.len()
        invariant
            i <= content.floating_images@.len(),
            bands_extent(
                content.floating_images@,
                i as int,
                config.page_size.height,
                config.footer_margin,
                bands,
            ) == bands_extent(
                content.floating_images@,
                0,
                config.page_size.height,
                config.footer_margin,
                Pt::zero(),
            ),
        decreases content.floating_images@.len() - i,
    {
        let frame = &content.floating_images[i].frame;
        if frame.is_wrap_top_and_bottom() {
            bands = bands.max(
                match frame.y {
                    FloatingImageY::Absolute(y) => config.page_size.height.minus(y),
                    FloatingImageY::RelativeToParagraph(off) => config.footer_margin.plus(off).plus(
                        frame.size.height,
                    ),
                },
            );
        }
        i += 1;
    }
    config.footer_margin.plus(stacked.content_height).max(bands)
}

/// Where each header of a section ends.
pub open spec fn header_bottoms(
    contents: HeaderFooterContents,
    config: PageConfig,
    default_line_height: Pt,
) -> HeaderFooterSet {
    HeaderFooterSet {
        default: match contents.default {
            Some(c) => Some(header_bottom(c, config, default_line_height)),
            None => None,
        },
        first: match contents.first {
            Some(c) => Some(header_bottom(c, config, default_line_height)),
            None => None,
        },
        even: match contents.even {
            Some(c) => Some(header_bottom(c, config, default_line_height)),
            None => None,
        },
    }
}

/// Where each footer of a section starts.
pub open spec fn footer_extents(
    contents: HeaderFooterContents,
    config: PageConfig,
    default_line_height: Pt,
) -> HeaderFooterSet {
    HeaderFooterSet {
        default: match contents.default {
            Some(c) => Some(footer_extent(c, config, default_line_height)),
            None => None,
        },
        first: match contents.first {
            Some(c) => Some(footer_extent(c, config, default_line_height)),
            None => None,
        },
        even: match contents.even {
            Some(c) => Some(footer_extent(c, config, default_line_height)),
            None => None,
        },
    }
}

/// How much of each page of a section its headers and footers take.
pub open spec fn section_clearance(
    section: DocumentSection,
    default_line_height: Pt,
    even_and_odd: bool,
    logical_page_base: usize,
) -> HeaderFooterClearance {
    HeaderFooterClearance {
        page_height: section.config.page_size.height,
        margin_top: section.config.margins.top,
        margin_bottom: section.config.margins.bottom,
        headers: header_bottoms(section.headers, section.config, default_line_height),
        footers: footer_extents(section.footers, section.config, default_line_height),
        title_pg: section.title_page == Some(true),
        even_and_odd,
        logical_page_base,
    }
}

/// Measure how much of each page of a section its headers and footers take.
pub fn measure_header_footer_clearance(
    section: &DocumentSection,
    default_line_height: Pt,
    even_and_odd: bool,
    logical_page_base: usize,
) -> (r: HeaderFooterClearance)
    ensures
        r == section_clearance(*section, default_line_height, even_and_odd, logical_page_base),
{
    let config = &section.config;
    let headers = HeaderFooterSet {
        default: match &section.headers.default {
            Some(c) => Some(measure_header_bottom(c, config, default_line_height)),
            None => None,
        },
        first: match &section.headers.first {
            Some(c) => Some(measure_header_bottom(c, config, default_line_height)),
            None => None,
        },
        even: match &section.headers.even {
            Some(c) => Some(measure_header_bottom(c, config, default_line_height)),
            None => None,
        },
    };
    let footers = HeaderFooterSet {
        default: match &section.footers.default {
            Some(c) => Some(measure_footer_extent(c, config, default_line_height)),
            None => None,
        },
        first: match &section.footers.first {
            Some(c) => Some(measure_footer_extent(c, config, default_line_height)),
            None => None,
        },
        even: match &section.footers.even {
            Some(c) => Some(measure_footer_extent(c, config, default_line_height)),
            None => None,
        },
    };
    HeaderFooterClearance::new(
        config,
        headers,
        footers,
        section.title_page == Some(true),
        even_and_odd,
        logical_page_base,
    )
}

/// The number of a section's blocks that are laid out: all but the mark of the break after it.
pub open spec fn laid_out_count(section: DocumentSection, has_next: bool) -> int {
    let n = section.blocks@.len();
    if has_structural_terminal_section_mark(section.section_type, has_next) && n > 0
        && is_empty_spacer(section.blocks@[n - 1]) {
        n - 1
    } else {
        n as int
    }
}

fn count_laid_out(section: &DocumentSection, has_next: bool) -> (r: usize)
    ensures
        r == laid_out_count(*section, has_next),
        r <= section.blocks@.len(),
{
    let n: usize = section.blocks.len();
    if has_structural_terminal_section_mark(section.section_type, has_next) && n > 0
        && is_plain_empty_spacer(&section.blocks[n - 1]) {
        n - 1
    } else {
        n
    }
}

/// The pages of a document that a section takes.
#[derive(Clone, Copy, Debug, PartialEq, Eq, Structural)]
pub struct SectionSpan {
    pub section: usize,
    pub start: usize,
    pub end: usize,
    pub logical_page_base: usize,
}

/// A document while its sections are laid out one after another.
#[verifier::ext_equal]
pub struct DocFlow {
    pub pages: Seq<PageView>,
    /// The number that the next page shows.
    pub next_logical: usize,
    /// The unfinished page of the last section.
    pub pending: Option<Continuation>,
    pub spans: Seq<SectionSpan>,
}

impl DocFlow {
    /// With a blank page before section `i`, if one is needed.
    pub open spec fn with_separator(self, doc: Document, i: int) -> DocFlow {
        let s = doc.sections@[i];
        let before = self.pages.len() as usize;
        if needs_parity_separator(s.section_type, before) || (i > 0
            && needs_numbering_restart_parity_separator(
            doc.even_and_odd_headers,
            s.section_type,
            before,
            s.page_number_start,
        )) {
            DocFlow {
                pages: self.pages.push(PageView::blank(s.config.page_size)),
                next_logical: self.next_logical.saturating_add(1),
                ..self
            }
        } else {
            self
        }
    }

    /// With section `i` laid out.
    ///
    /// A continuous section goes on with the page of the one before it. A first section that
    /// only marks the break after it takes no page.
    pub open spec fn with_section(self, doc: Document, i: int) -> DocFlow {
        let s = doc.sections@[i];
        let at = self.with_separator(doc, i);
        let base = next_logical_page_base(at.next_logical, s.page_number_start);
        let has_next = i + 1 < doc.sections@.len();
        let count = laid_out_count(s, has_next);
        if leading_structural_section_owns_no_page(
            i as usize,
            s.section_type,
            has_next,
            s.blocks@.len() != 0,
            count == 0,
        ) {
            at
        } else {
            let result = section_layout(
                s.blocks@.subrange(0, count),
                LayoutCtx {
                    config: &s.config,
                    clearance: section_clearance(
                        s,
                        doc.default_line_height,
                        doc.even_and_odd_headers,
                        base,
                    ),
                    separator_indent: doc.separator_indent,
                    default_line_height: doc.default_line_height,
                },
                if s.section_type == Some(SectionType::Continuous) {
                    at.pending
                } else {
                    None
                },
                base,
                has_next && doc.sections@[i + 1].section_type == Some(SectionType::Continuous),
            );
            at.with_section_laid_out(doc, i, result)
        }
    }

    /// With the sections from `i` on laid out.
    pub open spec fn with_sections(self, doc: Document, i: int) -> DocFlow
        decreases doc.sections@.len() - i,
    {
        if i < 0 || i >= doc.sections@.len() {
            self
        } else {
            self.with_section(doc, i).with_sections(doc, i + 1)
        }
    }
}

/// The header or footer of a slot.
pub open spec fn slot_content(contents: HeaderFooterContents, slot: HeaderFooterSlot) -> Option<
    HeaderFooterContent,
> {
    match slot {
        HeaderFooterSlot::Default => contents.default,
        HeaderFooterSlot::First => contents.first,
        HeaderFooterSlot::Even => contents.even,
    }
}

/// The images of a header or footer from `i` on drawn, after the commands in `acc`.
pub open spec fn image_commands(
    images: Seq<FloatingImage>,
    i: int,
    parity: PageParity,
    top: Pt,
    acc: Seq<DrawCommand>,
) -> Seq<DrawCommand>
    decreases images.len() - i,
{
    if i < 0 || i >= images.len() {
        acc
    } else {
        let frame = images[i].frame;
        image_commands(
            images,
            i + 1,
            parity,
            top,
            acc.push(
                DrawCommand::Image {
                    rect: PtRect::from_xywh(
                        frame.x.resolve(parity),
                        frame.y.resolve(top),
                        frame.size.width,
                        frame.size.height,
                    ),
                    image: images[i].image,
                },
            ),
        )
    }
}

/// A page with a header or footer drawn on it whose text starts at `top`.
pub open spec fn with_content(
    page: PageView,
    content: HeaderFooterContent,
    config: PageConfig,
    default_line_height: Pt,
    parity: PageParity,
    top: Pt,
) -> PageView {
    let stacked = cell_layout(
        content.blocks@,
        config.content_width(),
        PtEdgeInsets::zero(),
        default_line_height,
        parity,
    );
    PageView {
        commands: image_commands(
            content.floating_images@,
            0,
            parity,
            top,
            page.commands + shift_all(stacked.commands, config.margins.left, top),
        ),
        ..page
    }
}

/// Where the text of a footer starts.
pub open spec fn footer_top(
    content: HeaderFooterContent,
    config: PageConfig,
    default_line_height: Pt,
) -> Pt {
    config.page_size.height.minus(config.footer_margin).minus(
        cell_layout(
            content.blocks@,
            config.content_width(),
            PtEdgeInsets::zero(),
            default_line_height,
            PageParity::Odd,
        ).content_height,
    )
}

/// What a page shows in its header and footer.
#[derive(Debug)]
pub struct PageContents {
    pub header: Option<HeaderFooterContent>,
    pub footer: Option<HeaderFooterContent>,
}

/// Where a page stands in its document.
#[derive(Clone, Copy, Debug, PartialEq, Eq, Structural)]
pub struct PagePlace {
    pub section: usize,
    /// Which of the section's headers and footers the page shows.
    pub slot: HeaderFooterSlot,
    /// The number of the page.
    pub number: usize,
}

/// A page whose header and footer are to be measured: what they are, and what page fields in them show.
#[derive(Clone, Copy, Debug, PartialEq, Eq, Structural)]
pub struct PageRequest {
    pub place: PagePlace,
    /// The number of pages of the document.
    pub total: usize,
}

/// The first section from `j` on that page `k` belongs to.
pub open spec fn section_of_page(spans: Seq<SectionSpan>, j: int, k: int) -> Option<SectionSpan>
    decreases spans.len() - j,
{
    if j < 0 || j >= spans.len() {
        None
    } else if spans[j].start <= k < spans[j].end {
        Some(spans[j])
    } else {
        section_of_page(spans, j + 1, k)
    }
}

/// Where page `k` stands; nowhere where it belongs to no section.
pub open spec fn page_place(doc: Document, spans: Seq<SectionSpan>, k: int) -> Option<PagePlace> {
    match section_of_page(spans, 0, k) {
        None => None,
        Some(span) => {
            let index = (k - span.start) as usize;
            Some(
                PagePlace {
                    section: span.section,
                    slot: section_clearance(
                        doc.sections@[span.section as int],
                        doc.default_line_height,
                        doc.even_and_odd_headers,
                        span.logical_page_base,
                    ).slot(index),
                    number: span.logical_page_base.saturating_add(index),
                },
            )
        },
    }
}

/// What is to be measured for page `k`; nothing for a page that belongs to no section.
pub open spec fn page_request(
    doc: Document,
    spans: Seq<SectionSpan>,
    total: usize,
    k: int,
) -> Option<PageRequest> {
    match page_place(doc, spans, k) {
        None => None,
        Some(place) => Some(PageRequest { place, total }),
    }
}

/// A page with its header and footer drawn on it, where its section has them.
#[verifier::opaque]
pub open spec fn with_contents(
    page: PageView,
    doc: Document,
    place: PagePlace,
    contents: PageContents,
) -> PageView {
    let section = doc.sections@[place.section as int];
    let dlh = doc.default_line_height;
    let parity = PageParity::of_page(place.number);
    let headed = match (slot_content(section.headers, place.slot), contents.header) {
        (Some(_), Some(c)) => with_content(
            page,
            c,
            section.config,
            dlh,
            parity,
            section.config.header_margin,
        ),
        _ => page,
    };
    match (slot_content(section.footers, place.slot), contents.footer) {
        (Some(_), Some(c)) => with_content(
            headed,
            c,
            section.config,
            dlh,
            parity,
            footer_top(c, section.config, dlh),
        ),
        _ => headed,
    }
}

/// The pages with their headers and footers drawn on them.
pub open spec fn headed_pages(
    pages: Seq<PageView>,
    doc: Document,
    spans: Seq<SectionSpan>,
    contents: Seq<PageContents>,
) -> Seq<PageView> {
    Seq::new(
        pages.len(),
        |k: int|
            match page_place(doc, spans, k) {
                Some(place) => with_contents(pages[k], doc, place, contents[k]),
                None => pages[k],
            },
    )
}

/// The number of pages of a document whose sections take `section_pages`: one more for endnotes, and
/// one at least.
pub open spec fn page_total(doc: Document, section_pages: nat) -> nat {
    if doc.endnotes@.len() > 0 {
        section_pages + 1
    } else if section_pages == 0 {
        1
    } else {
        section_pages
    }
}

/// References to the endnotes.
pub open spec fn note_refs<'a>(notes: Seq<FootnoteParagraph>) -> Seq<&'a FootnoteParagraph> {
    Seq::new(notes.len(), |i: int| &notes[i])
}

/// The page that the endnotes stand on, in the geometry of the last section.
pub open spec fn endnote_page(doc: Document, config: PageConfig) -> PageView {
    let width = config.content_width();
    PageView {
        commands: footnote_commands(
            note_refs(doc.endnotes@),
            0,
            config.margins.left,
            config.margins.top.plus(footnote_separator_gap()),
            width,
            doc.default_line_height,
            seq![
                separator_line(
                    config.margins.left.plus(doc.separator_indent),
                    config.margins.top,
                    width,
                ),
            ],
        ),
        behind: Seq::empty(),
        page_size: config.page_size,
    }
}

/// The geometry of a document of which nothing is said: a letter page with margins of an inch.
pub open spec fn is_default_config(config: PageConfig) -> bool {
    &&& config.page_size == default_page_size()
    &&& config.margins == (PtEdgeInsets {
        top: Pt::points(72),
        right: Pt::points(72),
        bottom: Pt::points(72),
        left: Pt::points(72),
    })
    &&& config.header_margin == Pt::points(36)
    &&& config.footer_margin == Pt::points(36)
    &&& config.columns@ == seq![ColumnGeometry { x_offset: Pt::zero(), width: Pt::points(468) }]
}

impl Default for PageConfig {
    fn default() -> (r: Self)
        ensures
            is_default_config(r),
    {
        let mut columns: Vec<ColumnGeometry> = Vec::new();
        columns.push(ColumnGeometry { x_offset: Pt::zero(), width: Pt::points(468) });
        assert(columns@ =~= seq![
            ColumnGeometry { x_offset: Pt::zero(), width: Pt::points(468) },
        ]);
        PageConfig {
            page_size: default_page_size(),
            margins: PtEdgeInsets::new(
                Pt::points(72),
                Pt::points(72),
                Pt::points(72),
                Pt::points(72),
            ),
            header_margin: Pt::points(36),
            footer_margin: Pt::points(36),
            columns,
        }
    }
}

/// A document before its first section.
pub open spec fn doc_started() -> DocFlow {
    DocFlow { pages: Seq::empty(), next_logical: 1, pending: None, spans: Seq::empty() }
}

/// The sections of a document laid out one after another.
pub open spec fn document_flow(doc: Document) -> DocFlow {
    doc_started().with_sections(doc, 0)
}

/// The pages of a document: those of its sections with their headers and footers, then one for its
/// endnotes; and one blank page where there is nothing else.
pub open spec fn document_pages(
    doc: Document,
    contents: Seq<PageContents>,
    pages: Seq<PageView>,
) -> bool {
    let flow = document_flow(doc);
    is_finished(doc, flow.spans, headed_pages(flow.pages, doc, flow.spans, contents), pages)
}

/// Whether pages are finished by a page for the endnotes, in the geometry of the last section, or by a
/// blank page where there is no page at all.
pub open spec fn is_finished(
    doc: Document,
    spans: Seq<SectionSpan>,
    headed: Seq<PageView>,
    pages: Seq<PageView>,
) -> bool {
    if doc.endnotes@.len() > 0 {
        if spans.len() > 0 {
            pages == headed.push(
                endnote_page(doc, doc.sections@[spans[spans.len() - 1].section as int].config),
            )
        } else {
            exists|config: PageConfig| #[trigger] is_default_config(config) && pages == headed.push(
                endnote_page(doc, config),
            )
        }
    } else if headed.len() == 0 {
        pages == seq![PageView::blank(default_page_size())]
    } else {
        pages == headed
    }
}

/// A blank page before a section belongs to no section, so that it gets no header and no footer.
pub proof fn law_blank_pages_belong_to_no_section(flow: DocFlow, doc: Document, i: int)
    requires
        flow.pages.len() < usize::MAX,
        flow.with_section(doc, i).spans.len() > flow.spans.len(),
    ensures
        ({
            let at = flow.with_separator(doc, i);
            let next = flow.with_section(doc, i);
            &&& at.pages == flow.pages || at.pages == flow.pages.push(
                PageView::blank(doc.sections@[i].config.page_size),
            )
            &&& next.spans == flow.spans.push(next.spans.last())
            &&& next.spans.last().start == at.pages.len()
        }),
{
}

/// Whether sections take their pages one after another.
pub open spec fn spans_are_ordered(flow: DocFlow) -> bool {
    &&& forall|j: int| #![trigger flow.spans[j]]
        0 <= j < flow.spans.len() ==> flow.spans[j].start <= flow.spans[j].end <= flow.pages.len()
    &&& forall|i: int, j: int| #![trigger flow.spans[i], flow.spans[j]]
        0 <= i < j < flow.spans.len() ==> flow.spans[i].end <= flow.spans[j].start
}

proof fn lemma_one_more_section(flow: DocFlow, doc: Document, i: int)
    requires
        spans_are_ordered(flow),
        flow.with_section(doc, i).pages.len() <= usize::MAX,
    ensures
        spans_are_ordered(flow.with_section(doc, i)),
        flow.pages.len() <= flow.with_section(doc, i).pages.len(),
{
    let next = flow.with_section(doc, i);
    let at = flow.with_separator(doc, i);
    assert(at.spans == flow.spans);
    assert(flow.pages.len() <= at.pages.len() <= next.pages.len());
    if next.spans != at.spans {
        assert(next.spans.len() == at.spans.len() + 1);
        assert forall|j: int| 0 <= j < at.spans.len() implies #[trigger] next.spans[j]
            == flow.spans[j] by {}
        assert(next.spans[at.spans.len() as int].start == at.pages.len());
        assert(next.spans[at.spans.len() as int].end == next.pages.len());
    }
}

proof fn lemma_pages_only_grow(flow: DocFlow, doc: Document, i: int)
    ensures
        flow.pages.len() <= flow.with_sections(doc, i).pages.len(),
    decreases doc.sections@.len() - i,
{
    if 0 <= i < doc.sections@.len() {
        lemma_pages_only_grow(flow.with_section(doc, i), doc, i + 1);
    }
}

pub(crate) proof fn lemma_spans_are_ordered(flow: DocFlow, doc: Document, i: int)
    requires
        spans_are_ordered(flow),
        flow.with_sections(doc, i).pages.len() <= usize::MAX,
    ensures
        spans_are_ordered(flow.with_sections(doc, i)),
    decreases doc.sections@.len() - i,
{
    if 0 <= i < doc.sections@.len() {
        lemma_pages_only_grow(flow.with_section(doc, i), doc, i + 1);
        lemma_one_more_section(flow, doc, i);
        lemma_spans_are_ordered(flow.with_section(doc, i), doc, i + 1);
    }
}

pub(crate) proof fn lemma_section_of_page(flow: DocFlow, m: int, j: int, k: int)
    requires
        spans_are_ordered(flow),
        0 <= m <= j < flow.spans.len(),
        flow.spans[j].start <= k < flow.spans[j].end,
    ensures
        section_of_page(flow.spans, m, k) == Some(flow.spans[j]),
    decreases j - m,
{
    if m < j {
        assert(flow.spans[m].end <= flow.spans[j].start);
        lemma_section_of_page(flow, m + 1, j, k);
    }
}

/// Each page of a section shows that section's header and footer, and the pages of a section are
/// numbered one by one from the number that the section begins with.
pub proof fn law_pages_of_a_section_are_numbered_through(doc: Document, j: int, k: int)
    requires
        document_flow(doc).pages.len() <= usize::MAX,
        0 <= j < document_flow(doc).spans.len(),
        document_flow(doc).spans[j].start <= k < document_flow(doc).spans[j].end,
    ensures
        page_place(doc, document_flow(doc).spans, k) matches Some(place) && place.section
            == document_flow(doc).spans[j].section && place.number
            == document_flow(doc).spans[j].logical_page_base.saturating_add(
            (k - document_flow(doc).spans[j].start) as usize,
        ),
{
    lemma_spans_are_ordered(doc_started(), doc, 0);
    lemma_section_of_page(document_flow(doc), 0, j, k);
}

/// The number of pages that a document will have, known when its sections are laid out, is the
/// number of pages that it has, whatever headers and footers hold.
pub proof fn law_page_fields_show_the_number_of_pages(
    doc: Document,
    contents: Seq<PageContents>,
    pages: Seq<PageView>,
)
    requires
        document_pages(doc, contents, pages),
    ensures
        pages.len() == page_total(doc, document_flow(doc).pages.len()),
        pages.len() > 0,
{
}

fn has_content(contents: &HeaderFooterContents, slot: HeaderFooterSlot) -> (r: bool)
    ensures
        r == (slot_content(*contents, slot) is Some),
{
    match slot {
        HeaderFooterSlot::Default => contents.default.is_some(),
        HeaderFooterSlot::First => contents.first.is_some(),
        HeaderFooterSlot::Even => contents.even.is_some(),
    }
}

fn draw_content(
    page: &mut LayoutedPage,
    content: &HeaderFooterContent,
    config: &PageConfig,
    default_line_height: Pt,
    parity: PageParity,
    is_footer: bool,
)
    ensures
        final(page)@ == with_content(
            old(page)@,
            *content,
            *config,
            default_line_height,
            parity,
            if is_footer {
                footer_top(*content, *config, default_line_height)
            } else {
                config.header_margin
            },
        ),
{
    let stacked = layout_cell(
        content.blocks.as_slice(),
        config.content_width(),
        &PtEdgeInsets::zero(),
        default_line_height,
        parity,
    );
    proof {
        law_parity_changes_no_height(
            content.blocks@,
            config.content_width(),
            PtEdgeInsets::zero(),
            default_line_height,
            parity,
            PageParity::Odd,
        );
    }
    let top = if is_footer {
        config.page_size.height.minus(config.footer_margin).minus(stacked.content_height)
    } else {
        config.header_margin
    };
    append_shifted(
        &mut page.commands,
        stacked.commands.as_slice(),
        0,
        stacked.commands.len(),
        config.margins.left,
        top,
    );
    assert(stacked.commands@.subrange(0, stacked.commands@.len() as int) =~= stacked.commands@);
    let ghost texted = page@;
    let images = &content.floating_images;
    let mut i: usize = 0;
    while i < images.len()
        invariant
            i <= images@.len(),
            page@.behind == texted.behind,
            page@.page_size == texted.page_size,
            image_commands(images@, i as int, parity, top, page.commands@) == image_commands(
                images@,
                0,
                parity,
                top,
                texted.commands,
            ),
        decreases images@.len() - i,
    {
        let frame = &images[i].frame;
        page.commands.push(
            DrawCommand::Image {
                rect: PtRect::from_xywh(
                    frame.x.resolve(parity),
                    frame.y.resolve(top),
                    frame.size.width,
                    frame.size.height,
                ),
                image: images[i].image,
            },
        );
        i += 1;
    }
    assert(page@ =~= with_content(
        old(page)@,
        *content,
        *config,
        default_line_height,
        parity,
        top,
    ));
}

fn find_page_place(doc: &Document, spans: &[SectionSpan], k: usize) -> (r: Option<PagePlace>)
    requires
        forall|j: int| #![trigger spans@[j]]
            0 <= j < spans@.len() ==> spans@[j].section < doc.sections@.len(),
    ensures
        r == page_place(*doc, spans@, k as int),
        r matches Some(place) ==> place.section < doc.sections@.len(),
{
    let mut j: usize = 0;
    while j < spans.len()
        invariant
            j <= spans@.len(),
            forall|i: int| #![trigger spans@[i]]
                0 <= i < spans@.len() ==> spans@[i].section < doc.sections@.len(),
            section_of_page(spans@, j as int, k as int) == section_of_page(spans@, 0, k as int),
        decreases spans@.len() - j,
    {
        let span = spans[j];
        if span.start <= k && k < span.end {
            let section = &doc.sections[span.section];
            let index: usize = k - span.start;
            let slots = HeaderFooterClearance::new(
                &section.config,
                HeaderFooterSet::none(),
                HeaderFooterSet::none(),
                section.title_page == Some(true),
                doc.even_and_odd_headers,
                span.logical_page_base,
            );
            return Some(
                PagePlace {
                    section: span.section,
                    slot: slots.slot(index),
                    number: span.logical_page_base.saturating_add(index),
                },
            );
        }
        j += 1;
    }
    None
}

/// Find what is to be measured for page `k` of a document of `total` pages.
pub fn request_page(doc: &Document, spans: &[SectionSpan], total: usize, k: usize) -> (r: Option<
    PageRequest,
>)
    requires
        forall|j: int| #![trigger spans@[j]]
            0 <= j < spans@.len() ==> spans@[j].section < doc.sections@.len(),
    ensures
        r == page_request(*doc, spans@, total, k as int),
{
    match find_page_place(doc, spans, k) {
        Some(place) => Some(PageRequest { place, total }),
        None => None,
    }
}

fn draw_contents(page: &mut LayoutedPage, doc: &Document, place: PagePlace, contents: &PageContents)
    requires
        place.section < doc.sections@.len(),
    ensures
        final(page)@ == with_contents(old(page)@, *doc, place, *contents),
{
    reveal(with_contents);
    let section = &doc.sections[place.section];
    let parity = PageParity::of_page(place.number);
    if has_content(&section.headers, place.slot) {
        if let Some(c) = &contents.header {
            draw_content(page, c, &section.config, doc.default_line_height, parity, false);
        }
    }
    if has_content(&section.footers, place.slot) {
        if let Some(c) = &contents.footer {
            draw_content(page, c, &section.config, doc.default_line_height, parity, true);
        }
    }
}

/// Draw the header and footer of each page.
///
/// `contents` holds, for each page, what its header and footer show, measured for the number of the
/// page and the number of pages.
pub fn draw_headers_footers(
    pages: &mut Vec<LayoutedPage>,
    doc: &Document,
    spans: &[SectionSpan],
    contents: &[PageContents],
)
    requires
        contents@.len() == old(pages)@.len(),
        forall|j: int| #![trigger spans@[j]]
            0 <= j < spans@.len() ==> spans@[j].section < doc.sections@.len(),
    ensures
        pages_view(final(pages)@) == headed_pages(
            pages_view(old(pages)@),
            *doc,
            spans@,
            contents@,
        ),
{
    let ghost before = pages_view(pages@);
    let ghost wanted = headed_pages(before, *doc, spans@, contents@);
    let mut k: usize = 0;
    while k < contents.len()
        invariant
            k <= contents@.len(),
            contents@.len() == pages@.len(),
            before.len() == pages@.len(),
            wanted == headed_pages(before, *doc, spans@, contents@),
            forall|j: int| #![trigger spans@[j]]
                0 <= j < spans@.len() ==> spans@[j].section < doc.sections@.len(),
            forall|m: int| #![trigger pages@[m]]
                0 <= m < pages@.len() ==> pages@[m]@ == if m < k {
                    wanted[m]
                } else {
                    before[m]
                },
        decreases contents@.len() - k,
    {
        if let Some(place) = find_page_place(doc, spans, k) {
            draw_contents(&mut pages[k], doc, place, &contents[k]);
        }
        assert(pages@[k as int]@ == wanted[k as int]);
        k += 1;
    }
    assert(pages_view(pages@) =~= wanted);
}

fn draw_endnote_page(doc: &Document, config: &PageConfig) -> (r: LayoutedPage)
    ensures
        r@ == endnote_page(*doc, *config),
{
    let mut page = LayoutedPage::new(config.page_size);
    let width = config.content_width();
    let x = config.margins.left;
    let first_y = config.margins.top.plus(footnote_separator_gap());
    page.commands.push(draw_separator(x.plus(doc.separator_indent), config.margins.top, width));
    let ghost refs = note_refs(doc.endnotes@);
    let ghost lined = page@;
    assert(lined.commands =~= seq![
        separator_line(x.plus(doc.separator_indent), config.margins.top, width),
    ]);
    let mut y = first_y;
    let mut i: usize = 0;
    while i < doc.endnotes.len()
        invariant
            i <= doc.endnotes@.len(),
            refs == note_refs(doc.endnotes@),
            page@.behind == lined.behind,
            page@.page_size == lined.page_size,
            footnote_commands(
                refs,
                i as int,
                x,
                y,
                width,
                doc.default_line_height,
                page.commands@,
            ) == footnote_commands(
                refs,
                0,
                x,
                first_y,
                width,
                doc.default_line_height,
                lined.commands,
            ),
        decreases doc.endnotes@.len() - i,
    {
        let note = layout_paragraph(
            doc.endnotes[i].fragments.as_slice(),
            &doc.endnotes[i].style,
            width,
            Pt::infinity(),
            doc.default_line_height,
        );
        append_shifted(
            &mut page.commands,
            note.commands.as_slice(),
            0,
            note.commands.len(),
            x,
            y,
        );
        assert(note.commands@.subrange(0, note.commands@.len() as int) =~= note.commands@);
        y = y.plus(note.height);
        i += 1;
    }
    assert(page@ =~= endnote_page(*doc, *config));
    page
}

/// A document while its sections are laid out one after another.
struct DocumentRun {
    pages: Vec<LayoutedPage>,
    next_logical: usize,
    pending: Option<ContinuationState>,
    spans: Vec<SectionSpan>,
}

impl View for DocumentRun {
    type V = DocFlow;

    closed spec fn view(&self) -> DocFlow {
        DocFlow {
            pages: pages_view(self.pages@),
            next_logical: self.next_logical,
            pending: continuation_view(self.pending),
            spans: self.spans@,
        }
    }
}

/// Whether the sections' pages exist.
spec fn spans_are_sound(flow: DocFlow, doc: Document) -> bool {
    forall|j: int| #![trigger flow.spans[j]]
        0 <= j < flow.spans.len() ==> flow.spans[j].section < doc.sections@.len()
            && flow.spans[j].start <= flow.spans[j].end <= flow.pages.len()
}

impl DocumentRun {
    fn separate(&mut self, doc: &Document, i: usize)
        requires
            i < doc.sections@.len(),
            spans_are_sound(old(self)@, *doc),
        ensures
            final(self)@ == old(self)@.with_separator(*doc, i as int),
            spans_are_sound(final(self)@, *doc),
    {
        let ghost before = self@;
        let s = &doc.sections[i];
        let count: usize = self.pages.len();
        if needs_parity_separator(s.section_type, count) || (i > 0
            && needs_numbering_restart_parity_separator(
            doc.even_and_odd_headers,
            s.section_type,
            count,
            s.page_number_start,
        )) {
            self.pages.push(LayoutedPage::new(s.config.page_size));
            self.next_logical = self.next_logical.saturating_add(1);
            assert(pages_view(self.pages@) =~= before.pages.push(
                PageView::blank(s.config.page_size),
            ));
        }
        assert(self@ =~= before.with_separator(*doc, i as int));
    }

    fn place_section(&mut self, doc: &Document, i: usize)
        requires
            i < doc.sections@.len(),
            doc.has_columns(),
            spans_are_sound(old(self)@, *doc),
        ensures
            final(self)@ == old(self)@.with_section(*doc, i as int),
            spans_are_sound(final(self)@, *doc),
    {
        self.separate(doc, i);
        let ghost at = self@;
        let s = &doc.sections[i];
        let section_count: usize = doc.sections.len();
        let has_next = i + 1 < section_count;
        let base: usize = next_logical_page_base(self.next_logical, s.page_number_start);
        let count: usize = count_laid_out(s, has_next);
        if leading_structural_section_owns_no_page(
            i,
            s.section_type,
            has_next,
            s.blocks.len() != 0,
            count == 0,
        ) {
            return ;
        }
        let clearance = measure_header_footer_clearance(
            s,
            doc.default_line_height,
            doc.even_and_odd_headers,
            base,
        );
        let mut given: Option<ContinuationState> = None;
        std::mem::swap(&mut self.pending, &mut given);
        let continuation = if s.section_type == Some(SectionType::Continuous) {
            given
        } else {
            None
        };
        let next_is_continuous = has_next && doc.sections[i + 1].section_type == Some(
            SectionType::Continuous,
        );
        let result = layout_section_with_clearance_result(
            slice_subrange(s.blocks.as_slice(), 0, count),
            &s.config,
            doc.separator_indent,
            doc.default_line_height,
            SectionStart { continuation, clearance, logical_page_base: base },
            next_is_continuous,
        );
        let ghost laid = result@;
        let mut pages = result.pages;
        self.pending = result.continuation;
        let start: usize = self.pages.len();
        let added: usize = pages.len();
        self.pages.append(&mut pages);
        assert(pages_view(self.pages@) =~= at.pages + laid.pages);
        self.next_logical = base.saturating_add(added);
        self.spans.push(
            SectionSpan {
                section: i,
                start,
                end: self.pages.len(),
                logical_page_base: base,
            },
        );
        assert(self@ =~= at.with_section_laid_out(*doc, i as int, laid));
        assert(spans_are_sound(self@, *doc)) by {
            let flow = self@;
            assert forall|j: int| #![trigger flow.spans[j]] 0 <= j < flow.spans.len() implies
                flow.spans[j].section < doc.sections@.len() && flow.spans[j].start
                <= flow.spans[j].end <= flow.pages.len() by {
                if j < at.spans.len() {
                    assert(flow.spans[j] == at.spans[j]);
                }
            }
        }
    }
}

impl DocFlow {
    /// With the result of laying out section `i` added.
    pub open spec fn with_section_laid_out(
        self,
        doc: Document,
        i: int,
        result: crate::section::state::SectionResult,
    ) -> DocFlow {
        let base = next_logical_page_base(
            self.next_logical,
            doc.sections@[i].page_number_start,
        );
        let pages = self.pages + result.pages;
        DocFlow {
            pages,
            next_logical: base.saturating_add(result.pages.len() as usize),
            pending: result.continuation,
            spans: self.spans.push(
                SectionSpan {
                    section: i as usize,
                    start: self.pages.len() as usize,
                    end: pages.len() as usize,
                    logical_page_base: base,
                },
            ),
        }
    }
}

/// The pages of the sections of a document, and which section each page belongs to.
#[derive(Debug)]
pub struct SectionPages {
    pub pages: Vec<LayoutedPage>,
    pub spans: Vec<SectionSpan>,
    /// The number of pages that the document will have.
    pub total: usize,
}

/// Lay out the sections of a document one after another, without headers and footers.
///
/// Where the number of pages would not fit its type, `total` is the greatest number.
pub fn layout_sections(doc: &Document) -> (r: SectionPages)
    requires
        doc.has_columns(),
    ensures
        pages_view(r.pages@) == document_flow(*doc).pages,
        r.spans@ == document_flow(*doc).spans,
        page_total(*doc, r.pages@.len()) <= usize::MAX ==> r.total == page_total(
            *doc,
            r.pages@.len(),
        ),
        page_total(*doc, r.pages@.len()) > usize::MAX ==> r.total == usize::MAX,
        forall|j: int| #![trigger r.spans@[j]]
            0 <= j < r.spans@.len() ==> r.spans@[j].section < doc.sections@.len()
                && r.spans@[j].start <= r.spans@[j].end <= r.pages@.len(),
{
    let mut run = DocumentRun {
        pages: Vec::new(),
        next_logical: 1,
        pending: None,
        spans: Vec::new(),
    };
    assert(run@ =~= doc_started());
    let mut i: usize = 0;
    while i < doc.sections.len()
        invariant
            i <= doc.sections@.len(),
            doc.has_columns(),
            spans_are_sound(run@, *doc),
            run@.with_sections(*doc, i as int) == document_flow(*doc),
        decreases doc.sections@.len() - i,
    {
        run.place_section(doc, i);
        i += 1;
    }
    let ghost flow = run@;
    let pages = run.pages;
    let spans = run.spans;
    assert forall|j: int| #![trigger spans@[j]] 0 <= j < spans@.len() implies spans@[j].section
        < doc.sections@.len() && spans@[j].start <= spans@[j].end <= pages@.len() by {
        assert(flow.spans[j] == spans@[j]);
    }
    let count: usize = pages.len();
    let total: usize = if doc.endnotes.len() != 0 {
        count.saturating_add(1)
    } else if count == 0 {
        1
    } else {
        count
    };
    SectionPages { pages, spans, total }
}

/// Finish a document whose headers and footers have been drawn: endnotes are placed on a page of their
/// own, and a document without any page gets a blank one.
pub fn finish_document(pages: &mut Vec<LayoutedPage>, doc: &Document, spans: &[SectionSpan])
    requires
        forall|j: int| #![trigger spans@[j]]
            0 <= j < spans@.len() ==> spans@[j].section < doc.sections@.len(),
    ensures
        is_finished(*doc, spans@, pages_view(old(pages)@), pages_view(final(pages)@)),
{
    let ghost headed = pages_view(pages@);
    if doc.endnotes.len() != 0 {
        if spans.len() != 0 {
            let last = spans[spans.len() - 1];
            pages.push(draw_endnote_page(doc, &doc.sections[last.section].config));
            assert(pages_view(pages@) =~= headed.push(
                endnote_page(*doc, doc.sections@[last.section as int].config),
            ));
        } else {
            let config = PageConfig::default();
            pages.push(draw_endnote_page(doc, &config));
            assert(pages_view(pages@) =~= headed.push(endnote_page(*doc, config)));
        }
    } else if pages.len() == 0 {
        pages.push(LayoutedPage::new(default_page_size()));
        assert(pages_view(pages@) =~= seq![PageView::blank(default_page_size())]);
    }
}

/// Lay out a document.
///
/// Sections are laid out first. When the number of pages is known, `measure` measures the header and
/// footer of each page for its number and for the number of pages, and they are drawn. Endnotes are
/// placed on a page of their own.
pub fn layout_document<F: Fn(PageRequest) -> PageContents>(doc: &Document, measure: F) -> (r: Vec<
    LayoutedPage,
>)
    requires
        doc.has_columns(),
        forall|request: PageRequest| #[trigger] measure.requires((request,)),
    ensures
        r@.len() > 0,
        exists|contents: Seq<PageContents>| #[trigger]
            document_pages(*doc, contents, pages_view(r@)) && contents.len()
                == document_flow(*doc).pages.len() && forall|k: int| #![trigger contents[k]]
                0 <= k < contents.len() ==> match page_request(
                    *doc,
                    document_flow(*doc).spans,
                    r@.len() as usize,
                    k,
                ) {
                    Some(request) => measure.ensures((request,), contents[k]),
                    None => true,
                },
{
    let laid_out = layout_sections(doc);
    let spans = laid_out.spans;
    let total: usize = laid_out.total;
    let mut pages = laid_out.pages;
    let count: usize = pages.len();
    let mut contents: Vec<PageContents> = Vec::new();
    let mut k: usize = 0;
    while k < count
        invariant
            k <= count,
            contents@.len() == k,
            forall|request: PageRequest| #[trigger] measure.requires((request,)),
            forall|j: int| #![trigger spans@[j]]
                0 <= j < spans@.len() ==> spans@[j].section < doc.sections@.len(),
            forall|m: int| #![trigger contents@[m]]
                0 <= m < k ==> match page_request(*doc, spans@, total, m) {
                    Some(request) => measure.ensures((request,), contents@[m]),
                    None => true,
                },
        decreases count - k,
    {
        let own = match request_page(doc, spans.as_slice(), total, k) {
            Some(request) => measure(request),
            None => PageContents { header: None, footer: None },
        };
        contents.push(own);
        k += 1;
    }
    draw_headers_footers(&mut pages, doc, spans.as_slice(), contents.as_slice());
    finish_document(&mut pages, doc, spans.as_slice());
    assert(document_pages(*doc, contents@, pages_view(pages@)));
    proof {
        law_page_fields_show_the_number_of_pages(*doc, contents@, pages_view(pages@));
        assert(pages_view(pages@).len() == pages.len());
    }
    pages
}

} // verus!
