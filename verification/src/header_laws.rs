//! Where headers and footers stand, and how the pages of sections are numbered.
use crate::block::{FloatingImage, FloatingImageY, PageParity};
use crate::dimension::Pt;
use crate::document::{
    bands_bottom, bands_extent, doc_started, document_flow, footer_extent, footer_top,
    header_bottom, image_commands, law_pages_of_a_section_are_numbered_through,
    lemma_section_of_page, lemma_spans_are_ordered, page_place, section_clearance, section_of_page,
    slot_content, with_content, with_contents, DocFlow, Document, DocumentSection,
    HeaderFooterContent, PageContents, PagePlace, SectionType,
};
use crate::draw_command::{shift_all, DrawCommand};
use crate::geometry::PtEdgeInsets;
use crate::note_laws::{has_text_width, holds_moved, is_length, text_width};
use crate::page::{HeaderFooterSlot, PageConfig, PageView};
use crate::section::place_laws::stands_in_frame;
use crate::section::wrap_laws::top_edge;
use crate::table::measure::cell_layout;
use crate::table::types::CellLayoutView;
use vstd::prelude::*;

verus! {

/// The blocks of a header or footer, one below another between the side margins of the page.
pub open spec fn stacked<'a>(
    content: HeaderFooterContent,
    config: PageConfig,
    line_height: Pt,
    parity: PageParity,
) -> CellLayoutView<'a> {
    cell_layout(
        content.blocks@,
        Pt { units: text_width(config) as i64 },
        PtEdgeInsets { top: Pt::zero(), right: Pt::zero(), bottom: Pt::zero(), left: Pt::zero() },
        line_height,
        parity,
    )
}

/// Whether the images of a header or footer stand at lengths, where its text starts at `top`.
pub open spec fn images_have_places(images: Seq<FloatingImage>, top: int) -> bool {
    forall|i: int| #![trigger images[i]]
        0 <= i < images.len() ==> is_length(top_edge(images[i].frame, top)) && is_length(
            top_edge(images[i].frame, top) + images[i].frame.size.height.units,
        )
}

/// Whether a command shows an image in its own box, where the text around it starts at `top`.
pub open spec fn shows_image(
    command: DrawCommand,
    image: FloatingImage,
    parity: PageParity,
    top: int,
) -> bool {
    command matches DrawCommand::Image { rect, image: m } && m == image.image && stands_in_frame(
        rect,
        image.frame,
        parity,
        top_edge(image.frame, top),
    )
}

proof fn lemma_images(
    images: Seq<FloatingImage>,
    i: int,
    parity: PageParity,
    top: Pt,
    acc: Seq<DrawCommand>,
)
    requires
        0 <= i <= images.len(),
        images_have_places(images, top.units as int),
    ensures
        ({
            let r = image_commands(images, i, parity, top, acc);
            &&& r.len() == acc.len() + images.len() - i
            &&& r.take(acc.len() as int) == acc
            &&& forall|k: int| #![trigger images[k]]
                i <= k < images.len() ==> shows_image(
                    r[acc.len() + k - i],
                    images[k],
                    parity,
                    top.units as int,
                )
        }),
    decreases images.len() - i,
{
    let r = image_commands(images, i, parity, top, acc);
    if i < images.len() {
        let frame = images[i].frame;
        let next = acc.push(
            DrawCommand::Image {
                rect: crate::geometry::PtRect::from_xywh(
                    frame.x.resolve(parity),
                    frame.y.resolve(top),
                    frame.size.width,
                    frame.size.height,
                ),
                image: images[i].image,
            },
        );
        lemma_images(images, i + 1, parity, top, next);
        assert(r == image_commands(images, i + 1, parity, top, next));
        assert(r.take(next.len() as int)[acc.len() as int] == next[acc.len() as int]);
        assert(r.take(acc.len() as int) =~= acc) by {
            assert forall|k: int| 0 <= k < acc.len() implies r[k] == acc[k] by {
                assert(r.take(next.len() as int)[k] == next[k]);
            }
        }
        assert forall|k: int| #![trigger images[k]] i <= k < images.len() implies shows_image(
            r[acc.len() + k - i],
            images[k],
            parity,
            top.units as int,
        ) by {
            if k > i {
                assert(shows_image(
                    r[next.len() + k - (i + 1)],
                    images[k],
                    parity,
                    top.units as int,
                ));
            }
        }
    } else {
        assert(r.take(acc.len() as int) =~= acc);
    }
}

/// Whether a header or footer has been added to the commands of a page: its blocks with their upper
/// left corner at `(left, top)`, and then its images in their boxes.
pub open spec fn content_added(
    before: Seq<DrawCommand>,
    after: Seq<DrawCommand>,
    content: HeaderFooterContent,
    blocks: Seq<DrawCommand>,
    parity: PageParity,
    left: int,
    top: int,
) -> bool {
    let n = before.len() as int;
    let images = content.floating_images@;
    &&& after.len() == n + blocks.len() + images.len()
    &&& after.take(n) == before
    &&& holds_moved(after, n, blocks, left, top)
    &&& forall|k: int| #![trigger images[k]]
        0 <= k < images.len() ==> shows_image(after[n + blocks.len() + k], images[k], parity, top)
}

proof fn lemma_content(
    page: PageView,
    content: HeaderFooterContent,
    config: PageConfig,
    line_height: Pt,
    parity: PageParity,
    top: Pt,
)
    requires
        has_text_width(config),
        images_have_places(content.floating_images@, top.units as int),
    ensures
        ({
            let after = with_content(page, content, config, line_height, parity, top);
            &&& after.page_size == page.page_size
            &&& after.behind == page.behind
            &&& content_added(
                page.commands,
                after.commands,
                content,
                stacked(content, config, line_height, parity).commands,
                parity,
                config.margins.left.units as int,
                top.units as int,
            )
        }),
{
    let blocks = stacked(content, config, line_height, parity).commands;
    assert(config.content_width() == (Pt { units: text_width(config) as i64 }));
    let moved = shift_all(blocks, config.margins.left, top);
    let acc = page.commands + moved;
    let images = content.floating_images@;
    lemma_images(images, 0, parity, top, acc);
    let after = with_content(page, content, config, line_height, parity, top).commands;
    let n = page.commands.len() as int;
    assert(after == image_commands(images, 0, parity, top, acc));
    assert(after.take(n) =~= page.commands) by {
        assert forall|k: int| 0 <= k < n implies after[k] == page.commands[k] by {
            assert(after.take(acc.len() as int)[k] == acc[k]);
        }
    }
    assert forall|k: int| #![trigger blocks[k]] 0 <= k < blocks.len() implies after[n + k]
        == blocks[k].shifted(config.margins.left, top) by {
        assert(after.take(acc.len() as int)[n + k] == acc[n + k]);
        assert(acc[n + k] == moved[k]);
    }
    assert forall|k: int| #![trigger images[k]] 0 <= k < images.len() implies shows_image(
        after[n + blocks.len() + k],
        images[k],
        parity,
        top.units as int,
    ) by {
        assert(shows_image(after[acc.len() + k - 0], images[k], parity, top.units as int));
    }
}

/// Where the text of a footer starts that ends at its distance from the bottom of the page.
pub open spec fn top_of_footer(
    content: HeaderFooterContent,
    config: PageConfig,
    line_height: Pt,
) -> int {
    config.page_size.height.units - config.footer_margin.units - stacked(
        content,
        config,
        line_height,
        PageParity::Odd,
    ).content_height.units
}

/// The header of a page starts at its distance from the top of the page, and its footer ends at its
/// distance from the bottom of the page; both stand at the left margin, their images in their own
/// boxes. Nothing else on the page changes.
pub proof fn law_headers_stand_at_their_distance(
    page: PageView,
    doc: Document,
    place: PagePlace,
    contents: PageContents,
) -> (middle: Seq<DrawCommand>)
    requires
        has_text_width(doc.sections@[place.section as int].config),
        ({
            let section = doc.sections@[place.section as int];
            let config = section.config;
            &&& contents.header matches Some(c) ==> images_have_places(
                c.floating_images@,
                config.header_margin.units as int,
            )
            &&& contents.footer matches Some(c) ==> is_length(
                config.page_size.height.units - config.footer_margin.units,
            ) && is_length(top_of_footer(c, config, doc.default_line_height))
                && images_have_places(
                c.floating_images@,
                top_of_footer(c, config, doc.default_line_height),
            )
        }),
    ensures
        ({
            let section = doc.sections@[place.section as int];
            let config = section.config;
            let parity = if place.number % 2 == 1 {
                PageParity::Odd
            } else {
                PageParity::Even
            };
            let after = with_contents(page, doc, place, contents);
            let left = config.margins.left.units as int;
            &&& after.page_size == page.page_size
            &&& after.behind == page.behind
            &&& match (slot_content(section.headers, place.slot), contents.header) {
                (Some(_), Some(c)) => content_added(
                    page.commands,
                    middle,
                    c,
                    stacked(c, config, doc.default_line_height, parity).commands,
                    parity,
                    left,
                    config.header_margin.units as int,
                ),
                _ => middle == page.commands,
            }
            &&& match (slot_content(section.footers, place.slot), contents.footer) {
                (Some(_), Some(c)) => content_added(
                    middle,
                    after.commands,
                    c,
                    stacked(c, config, doc.default_line_height, parity).commands,
                    parity,
                    left,
                    top_of_footer(c, config, doc.default_line_height),
                ),
                _ => after.commands == middle,
            }
        }),
{
    reveal(with_contents);
    let section = doc.sections@[place.section as int];
    let config = section.config;
    let dlh = doc.default_line_height;
    let parity = PageParity::of_page(place.number);
    let headed = match (slot_content(section.headers, place.slot), contents.header) {
        (Some(_), Some(c)) => with_content(page, c, config, dlh, parity, config.header_margin),
        _ => page,
    };
    match (slot_content(section.headers, place.slot), contents.header) {
        (Some(_), Some(c)) => {
            lemma_content(page, c, config, dlh, parity, config.header_margin);
        },
        _ => {},
    }
    match (slot_content(section.footers, place.slot), contents.footer) {
        (Some(_), Some(c)) => {
            assert(config.content_width() == (Pt { units: text_width(config) as i64 }));
            assert(footer_top(c, config, dlh).units == top_of_footer(c, config, dlh));
            lemma_content(headed, c, config, dlh, parity, footer_top(c, config, dlh));
        },
        _ => {},
    }
    headed.commands
}

proof fn lemma_bands(images: Seq<FloatingImage>, i: int, top: Pt, acc: Pt)
    requires
        0 <= i <= images.len(),
        images_have_places(images, top.units as int),
    ensures
        ({
            let r = bands_bottom(images, i, top, acc);
            &&& acc.units <= r.units
            &&& forall|k: int| #![trigger images[k]]
                i <= k < images.len() && images[k].frame.wrap_mode is TopAndBottom ==> top_edge(
                    images[k].frame,
                    top.units as int,
                ) + images[k].frame.size.height.units <= r.units
            &&& r == acc || exists|k: int| #![trigger images[k]]
                i <= k < images.len() && images[k].frame.wrap_mode is TopAndBottom && top_edge(
                    images[k].frame,
                    top.units as int,
                ) + images[k].frame.size.height.units == r.units
        }),
    decreases images.len() - i,
{
    if i < images.len() {
        let frame = images[i].frame;
        let next = if frame.is_wrap_top_and_bottom() {
            acc.max(frame.y.resolve(top).plus(frame.size.height))
        } else {
            acc
        };
        lemma_bands(images, i + 1, top, next);
        let r = bands_bottom(images, i, top, acc);
        assert(r == bands_bottom(images, i + 1, top, next));
        if r != acc && r == next {
            assert(images[i].frame.wrap_mode is TopAndBottom);
        }
    }
}

/// A header ends below its text and below each of its images that have text above and below them only,
/// and no lower than the lowest of these.
pub proof fn law_headers_end_below_their_content(
    content: HeaderFooterContent,
    config: PageConfig,
    line_height: Pt,
)
    requires
        has_text_width(config),
        images_have_places(content.floating_images@, config.header_margin.units as int),
        is_length(
            config.header_margin.units + stacked(
                content,
                config,
                line_height,
                PageParity::Odd,
            ).content_height.units,
        ),
    ensures
        ({
            let end = header_bottom(content, config, line_height).units;
            let margin = config.header_margin.units as int;
            let text = margin + stacked(
                content,
                config,
                line_height,
                PageParity::Odd,
            ).content_height.units;
            let images = content.floating_images@;
            &&& end >= 0
            &&& end >= text
            &&& forall|k: int| #![trigger images[k]]
                0 <= k < images.len() && images[k].frame.wrap_mode is TopAndBottom ==> top_edge(
                    images[k].frame,
                    margin,
                ) + images[k].frame.size.height.units <= end
            &&& end == 0 || end == text || exists|k: int| #![trigger images[k]]
                0 <= k < images.len() && images[k].frame.wrap_mode is TopAndBottom && top_edge(
                    images[k].frame,
                    margin,
                ) + images[k].frame.size.height.units == end
        }),
{
    assert(config.content_width() == (Pt { units: text_width(config) as i64 }));
    lemma_bands(content.floating_images@, 0, config.header_margin, Pt::zero());
}

/// How far an image of a footer reaches up from the bottom of the page: from its top edge, where it
/// stands at a fixed height of the page, and else by its height and offset above the footer's
/// distance.
pub open spec fn reach_up(image: FloatingImage, page_height: int, margin: int) -> int {
    match image.frame.y {
        FloatingImageY::Absolute(y) => page_height - y.units,
        FloatingImageY::RelativeToParagraph(off) => margin + off.units
            + image.frame.size.height.units,
    }
}

/// Whether the images of a footer reach up to lengths.
pub open spec fn images_reach_lengths(
    images: Seq<FloatingImage>,
    page_height: int,
    margin: int,
) -> bool {
    forall|i: int| #![trigger images[i]]
        0 <= i < images.len() ==> is_length(reach_up(images[i], page_height, margin)) && (
        images[i].frame.y matches FloatingImageY::RelativeToParagraph(off) ==> is_length(
            margin + off.units,
        ))
}

proof fn lemma_bands_extent(
    images: Seq<FloatingImage>,
    i: int,
    page_height: Pt,
    margin: Pt,
    acc: Pt,
)
    requires
        0 <= i <= images.len(),
        images_reach_lengths(images, page_height.units as int, margin.units as int),
    ensures
        ({
            let r = bands_extent(images, i, page_height, margin, acc);
            &&& acc.units <= r.units
            &&& forall|k: int| #![trigger images[k]]
                i <= k < images.len() && images[k].frame.wrap_mode is TopAndBottom ==> reach_up(
                    images[k],
                    page_height.units as int,
                    margin.units as int,
                ) <= r.units
            &&& r == acc || exists|k: int| #![trigger images[k]]
                i <= k < images.len() && images[k].frame.wrap_mode is TopAndBottom && reach_up(
                    images[k],
                    page_height.units as int,
                    margin.units as int,
                ) == r.units
        }),
    decreases images.len() - i,
{
    if i < images.len() {
        let frame = images[i].frame;
        let up = match frame.y {
            FloatingImageY::Absolute(y) => page_height.minus(y),
            FloatingImageY::RelativeToParagraph(off) => margin.plus(off).plus(frame.size.height),
        };
        assert(up.units == reach_up(images[i], page_height.units as int, margin.units as int));
        let next = if frame.is_wrap_top_and_bottom() {
            acc.max(up)
        } else {
            acc
        };
        lemma_bands_extent(images, i + 1, page_height, margin, next);
        let r = bands_extent(images, i, page_height, margin, acc);
        assert(r == bands_extent(images, i + 1, page_height, margin, next));
        if r != acc && r == next {
            assert(images[i].frame.wrap_mode is TopAndBottom);
        }
    }
}

/// A footer starts above its text, which ends at the footer's distance from the bottom of the page,
/// and above each of its images that have text above and below them only, and no higher than the
/// highest of these.
pub proof fn law_footers_start_above_their_content(
    content: HeaderFooterContent,
    config: PageConfig,
    line_height: Pt,
)
    requires
        has_text_width(config),
        images_reach_lengths(
            content.floating_images@,
            config.page_size.height.units as int,
            config.footer_margin.units as int,
        ),
        is_length(config.page_size.height.units - config.footer_margin.units),
        is_length(top_of_footer(content, config, line_height)),
        is_length(
            config.footer_margin.units + stacked(
                content,
                config,
                line_height,
                PageParity::Odd,
            ).content_height.units,
        ),
    ensures
        ({
            let extent = footer_extent(content, config, line_height).units;
            let height = config.page_size.height.units as int;
            let margin = config.footer_margin.units as int;
            let images = content.floating_images@;
            &&& footer_top(content, config, line_height).units == top_of_footer(
                content,
                config,
                line_height,
            )
            &&& extent >= 0
            &&& height - extent <= footer_top(content, config, line_height).units
            &&& forall|k: int| #![trigger images[k]]
                0 <= k < images.len() && images[k].frame.wrap_mode is TopAndBottom ==> reach_up(
                    images[k],
                    height,
                    margin,
                ) <= extent
            &&& extent == 0 || height - extent == footer_top(content, config, line_height).units
                || exists|k: int| #![trigger images[k]]
                0 <= k < images.len() && images[k].frame.wrap_mode is TopAndBottom && reach_up(
                    images[k],
                    height,
                    margin,
                ) == extent
        }),
{
    assert(config.content_width() == (Pt { units: text_width(config) as i64 }));
    lemma_bands_extent(
        content.floating_images@,
        0,
        config.page_size.height,
        config.footer_margin,
        Pt::zero(),
    );
}

/// The body of a section's pages keeps clear of just the headers and footers that the section has:
/// each slot of its clearance tells where the header and the footer of that slot end.
pub proof fn law_clearance_is_of_the_headers(
    section: DocumentSection,
    line_height: Pt,
    even_and_odd: bool,
    base: usize,
    slot: HeaderFooterSlot,
)
    ensures
        ({
            let c = section_clearance(section, line_height, even_and_odd, base);
            &&& match slot_content(section.headers, slot) {
                Some(content) => slot.of(c.headers) == Some(
                    header_bottom(content, section.config, line_height),
                ),
                None => slot.of(c.headers) is None,
            }
            &&& match slot_content(section.footers, slot) {
                Some(content) => slot.of(c.footers) == Some(
                    footer_extent(content, section.config, line_height),
                ),
                None => slot.of(c.footers) is None,
            }
            &&& slot_content(section.headers, slot) == match slot {
                HeaderFooterSlot::Default => section.headers.default,
                HeaderFooterSlot::First => section.headers.first,
                HeaderFooterSlot::Even => section.headers.even,
            }
            &&& c.page_height == section.config.page_size.height
            &&& c.margin_top == section.config.margins.top
            &&& c.margin_bottom == section.config.margins.bottom
            &&& c.title_pg <==> section.title_page == Some(true)
            &&& c.even_and_odd == even_and_odd
            &&& c.logical_page_base == base
        }),
{
}

/// A page shows the first header and footer of its section where it is the section's first page and
/// the section has such a page; the even ones where its number is even and these differ from the odd
/// ones; and else the default ones.
pub proof fn law_pages_show_the_headers_of_their_section(doc: Document, j: int, k: int)
    requires
        document_flow(doc).pages.len() <= usize::MAX,
        0 <= j < document_flow(doc).spans.len(),
        document_flow(doc).spans[j].start <= k < document_flow(doc).spans[j].end,
        document_flow(doc).spans[j].logical_page_base + k <= usize::MAX,
    ensures
        ({
            let span = document_flow(doc).spans[j];
            let section = doc.sections@[span.section as int];
            let title = section.title_page == Some(true) && k == span.start;
            let number = span.logical_page_base + k - span.start;
            &&& page_place(doc, document_flow(doc).spans, k) matches Some(place)
            &&& place.section == span.section
            &&& place.number == number
            &&& place.slot is First <==> title
            &&& place.slot is Even <==> !title && doc.even_and_odd_headers && number % 2 == 0
        }),
{
    law_pages_of_a_section_are_numbered_through(doc, j, k);
    lemma_page_of_span(doc, j, k);
}

proof fn lemma_page_of_span(doc: Document, j: int, k: int)
    requires
        document_flow(doc).pages.len() <= usize::MAX,
        0 <= j < document_flow(doc).spans.len(),
        document_flow(doc).spans[j].start <= k < document_flow(doc).spans[j].end,
    ensures
        section_of_page(document_flow(doc).spans, 0, k) == Some(document_flow(doc).spans[j]),
{
    lemma_spans_are_ordered(doc_started(), doc, 0);
    lemma_section_of_page(document_flow(doc), 0, j, k);
}

/// The pages of a section follow those before it, after a blank page where one is needed, and are
/// numbered on from them, a blank page counted; or from the number that the section starts with.
pub proof fn law_sections_follow_one_another(flow: DocFlow, doc: Document, i: int)
    requires
        0 <= i < doc.sections@.len() <= usize::MAX,
        flow.with_section(doc, i).spans.len() > flow.spans.len(),
        flow.with_section(doc, i).pages.len() <= usize::MAX,
        flow.next_logical < usize::MAX,
        flow.with_section(doc, i).next_logical < usize::MAX,
    ensures
        ({
            let section = doc.sections@[i];
            let next = flow.with_section(doc, i);
            let span = next.spans.last();
            let blank = span.start - flow.pages.len();
            &&& next.pages.take(flow.pages.len() as int) == flow.pages
            &&& span.section == i
            &&& span.end == next.pages.len()
            &&& blank == 0 || blank == 1
            &&& blank == 1 ==> next.pages[flow.pages.len() as int].commands.len() == 0
            &&& section.section_type == Some(SectionType::OddPage) ==> span.start % 2 == 0
            &&& section.section_type == Some(SectionType::EvenPage) ==> span.start % 2 == 1
            &&& section.page_number_start matches Some(start) ==> span.logical_page_base == start
            &&& section.page_number_start is None ==> span.logical_page_base == flow.next_logical
                + blank
            &&& next.next_logical == span.logical_page_base + (span.end - span.start)
        }),
{
    let next = flow.with_section(doc, i);
    let at = flow.with_separator(doc, i);
    assert(next.pages.take(flow.pages.len() as int) =~= flow.pages);
    assert(next.pages.take(at.pages.len() as int) =~= at.pages);
    if at.pages.len() > flow.pages.len() {
        assert(next.pages.take(at.pages.len() as int)[flow.pages.len() as int]
            == at.pages[flow.pages.len() as int]);
    }
}

} // verus!
