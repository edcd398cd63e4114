//! Measuring the blocks that stay together on a page.
use crate::block::{FootnoteParagraph, LayoutBlock, LayoutFootnote};
use crate::dimension::Pt;
use crate::fragment::{
    contains_flow_break, contains_page_break, has_flow_break, has_page_break, Fragment,
};
use crate::paragraph::{laid_out, layout_paragraph, open_place, place_alone, placed};
use crate::section::predicates::{
    is_breakable, is_simple_bridge, keeps_next, paragraph_breakable, starts_boundary,
    starts_hard_body_boundary, table_is_simple_keep_next_bridge, table_keep_next_sentinel,
    table_keeps_next,
};
use crate::section::state::footnote_separator_gap;
use crate::style::{ParagraphStyle, PreviousParagraph, StyleId};
use crate::table::layout::{complete_height, measure_complete_table_height};
use crate::table::measure::TableFormat;
use vstd::prelude::*;

verus! {

/// How much of the space before a block is taken back at the top of a fresh page, where
/// only the space that is dropped altogether counts.
pub open spec fn fresh_overlap(block: LayoutBlock, previous: PreviousParagraph) -> Pt {
    match block {
        LayoutBlock::Paragraph { style, .. } => (PreviousParagraph {
            space_after: Pt::zero(),
            ..previous
        }).overlap(&style),
        _ => Pt::zero(),
    }
}

/// How much of the space before a block is taken back at the top of a new page.
pub fn fresh_page_spacing_overlap(block: &LayoutBlock, previous: PreviousParagraph) -> (r: Pt)
    ensures
        r == fresh_overlap(*block, previous),
{
    match block {
        LayoutBlock::Paragraph { style, .. } => {
            let mut at_top = previous;
            at_top.space_after = Pt::zero();
            at_top.overlap(style)
        },
        _ => Pt::zero(),
    }
}

/// The height of blocks that stay together, and that of their footnotes.
#[derive(Clone, Copy, Debug, PartialEq, Eq, Structural)]
pub struct KeepNextGroupMeasurement {
    pub body_height: Pt,
    pub footnote_height: Pt,
    pub has_footnotes: bool,
}

impl KeepNextGroupMeasurement {
    /// Nothing measured yet.
    #[verifier::allow_in_spec]
    pub fn none() -> KeepNextGroupMeasurement
        returns
            (KeepNextGroupMeasurement {
                body_height: Pt::zero(),
                footnote_height: Pt::zero(),
                has_footnotes: false,
            }),
    {
        KeepNextGroupMeasurement {
            body_height: Pt::zero(),
            footnote_height: Pt::zero(),
            has_footnotes: false,
        }
    }

    /// The height that the blocks take with their footnotes, and with the separator above
    /// these unless the page has it already.
    #[verifier::allow_in_spec]
    pub fn total_height(&self, separator_already_reserved: bool) -> Pt
        returns
            (self.body_height.plus(self.footnote_height).plus(
                if self.has_footnotes && !separator_already_reserved {
                    footnote_separator_gap()
                } else {
                    Pt::zero()
                },
            )),
    {
        self.body_height.plus(self.footnote_height).plus(
            if self.has_footnotes && !separator_already_reserved {
                footnote_separator_gap()
            } else {
                Pt::zero()
            },
        )
    }
}

/// The measurement with the paragraphs of a footnote from `i` on added.
pub open spec fn with_note(
    group: KeepNextGroupMeasurement,
    paragraphs: Seq<FootnoteParagraph>,
    i: int,
    width: Pt,
    default_line_height: Pt,
) -> KeepNextGroupMeasurement
    decreases paragraphs.len() - i,
{
    if i < 0 || i >= paragraphs.len() {
        group
    } else {
        with_note(
            KeepNextGroupMeasurement {
                body_height: group.body_height,
                footnote_height: group.footnote_height.plus(
                    laid_out(
                        paragraphs[i].fragments@,
                        paragraphs[i].style,
                        width,
                        Pt::infinity(),
                        default_line_height,
                    ).height,
                ),
                has_footnotes: true,
            },
            paragraphs,
            i + 1,
            width,
            default_line_height,
        )
    }
}

/// The measurement with the footnotes from `n` on added.
pub open spec fn with_notes(
    group: KeepNextGroupMeasurement,
    footnotes: Seq<LayoutFootnote>,
    n: int,
    width: Pt,
    default_line_height: Pt,
) -> KeepNextGroupMeasurement
    decreases footnotes.len() - n,
{
    if n < 0 || n >= footnotes.len() {
        group
    } else {
        with_notes(
            with_note(group, footnotes[n].paragraphs@, 0, width, default_line_height),
            footnotes,
            n + 1,
            width,
            default_line_height,
        )
    }
}

/// The column that blocks are measured in.
#[derive(Clone, Copy, Debug, PartialEq, Eq, Structural)]
pub struct MeasureBox {
    pub width: Pt,
    pub max_height: Pt,
    pub default_line_height: Pt,
}

/// The measurement with a paragraph and its footnotes added.
pub open spec fn with_measured_paragraph(
    group: KeepNextGroupMeasurement,
    previous: PreviousParagraph,
    fragments: Seq<Fragment>,
    style: ParagraphStyle,
    footnotes: Seq<LayoutFootnote>,
    at: MeasureBox,
) -> KeepNextGroupMeasurement {
    with_notes(
        KeepNextGroupMeasurement {
            body_height: group.body_height.plus(
                laid_out(
                    fragments,
                    style,
                    at.width,
                    at.max_height,
                    at.default_line_height,
                ).height.minus(previous.overlap(&style)),
            ),
            ..group
        },
        footnotes,
        0,
        at.width,
        at.default_line_height,
    )
}

fn add_measured_paragraph(
    group: KeepNextGroupMeasurement,
    previous: PreviousParagraph,
    fragments: &[Fragment],
    style: &ParagraphStyle,
    footnotes: &[LayoutFootnote],
    at: MeasureBox,
) -> (r: KeepNextGroupMeasurement)
    ensures
        r == with_measured_paragraph(
            group,
            previous,
            fragments@,
            *style,
            footnotes@,
            at,
        ),
{
    let laid = layout_paragraph(
        fragments,
        style,
        at.width,
        at.max_height,
        at.default_line_height,
    );
    let mut result = group;
    result.body_height = group.body_height.plus(laid.height.minus(previous.overlap(style)));
    let ghost start = result;
    let mut n: usize = 0;
    while n < footnotes.len()
        invariant
            n <= footnotes@.len(),
            with_notes(result, footnotes@, n as int, at.width, at.default_line_height)
                == with_notes(start, footnotes@, 0, at.width, at.default_line_height),
        decreases footnotes@.len() - n,
    {
        let paragraphs = &footnotes[n].paragraphs;
        let ghost before = result;
        let mut i: usize = 0;
        while i < paragraphs.len()
            invariant
                i <= paragraphs@.len(),
                with_note(result, paragraphs@, i as int, at.width, at.default_line_height)
                    == with_note(before, paragraphs@, 0, at.width, at.default_line_height),
            decreases paragraphs@.len() - i,
        {
            let note = layout_paragraph(
                paragraphs[i].fragments.as_slice(),
                &paragraphs[i].style,
                at.width,
                Pt::infinity(),
                at.default_line_height,
            );
            result.footnote_height = result.footnote_height.plus(note.height);
            result.has_footnotes = true;
            i += 1;
        }
        n += 1;
    }
    result
}

/// The first blocks of a chain that stay together, as far as they have been measured.
#[derive(Clone, Copy, Debug, PartialEq, Eq, Structural)]
pub struct TableAwareKeepNextPrefix {
    pub group: KeepNextGroupMeasurement,
    /// The first block after them.
    pub end_exclusive: usize,
}

/// The blocks measured so far, if a table is among them.
#[verifier::allow_in_spec]
pub fn measured_prefix_or_none(
    has_bridge_table: bool,
    group: KeepNextGroupMeasurement,
    end_exclusive: usize,
) -> Option<TableAwareKeepNextPrefix>
    returns
        (if has_bridge_table {
            Some(TableAwareKeepNextPrefix { group, end_exclusive })
        } else {
            None
        }),
{
    if has_bridge_table {
        Some(TableAwareKeepNextPrefix { group, end_exclusive })
    } else {
        None
    }
}

/// Whether a block belongs to blocks that have been moved together already.
#[verifier::allow_in_spec]
pub fn table_aware_prefix_already_admitted(block_idx: usize, admitted_through: usize) -> bool
    returns
        (block_idx < admitted_through),
{
    block_idx < admitted_through
}

/// What has been measured of a chain.
#[derive(Clone, Copy, Debug, PartialEq, Eq, Structural)]
pub struct PrefixMeasure {
    pub group: KeepNextGroupMeasurement,
    pub previous: PreviousParagraph,
    pub previous_table_style_id: Option<StyleId>,
    pub has_bridge_table: bool,
}

/// Whether a table may stand within a chain: it stays with the block after it, its height
/// depends on nothing else, and that block follows it as a matter of course.
pub open spec fn is_bridge(blocks: Seq<LayoutBlock>, i: int) -> bool {
    table_keeps_next(blocks[i]) && is_simple_bridge(blocks[i]) && i + 1 < blocks.len()
        && !starts_boundary(blocks[i + 1])
}

/// The chain that started at `start`, measured from block `i` on within `limit`.
pub open spec fn prefix_from(
    blocks: Seq<LayoutBlock>,
    start: int,
    stop: Option<usize>,
    at: MeasureBox,
    limit: Pt,
    i: int,
    m: PrefixMeasure,
) -> Option<TableAwareKeepNextPrefix>
    decreases blocks.len() - i,
{
    let so_far = measured_prefix_or_none(m.has_bridge_table, m.group, i as usize);
    if stop == Some(i as usize) || i < 0 || i >= blocks.len() {
        so_far
    } else {
        match blocks[i] {
            LayoutBlock::Paragraph {
                fragments,
                style,
                page_break_before,
                footnotes,
                floating_images,
                floating_shapes,
            } => {
                let candidate = with_measured_paragraph(
                    m.group,
                    m.previous,
                    fragments@,
                    style,
                    footnotes@,
                    at,
                );
                if has_flow_break(fragments@) || (i > start && page_break_before)
                    || floating_images@.len() != 0 || floating_shapes@.len() != 0
                    || candidate.total_height(false).units > limit.units {
                    so_far
                } else if !style.keep_next {
                    measured_prefix_or_none(m.has_bridge_table, candidate, (i + 1) as usize)
                } else {
                    prefix_from(
                        blocks,
                        start,
                        stop,
                        at,
                        limit,
                        i + 1,
                        PrefixMeasure {
                            group: candidate,
                            previous: PreviousParagraph::of(&style),
                            previous_table_style_id: None,
                            has_bridge_table: m.has_bridge_table,
                        },
                    )
                }
            },
            LayoutBlock::Table { rows, col_widths, cell_spacing, border_config, style_id, .. } => {
                let height = complete_height(
                    rows@,
                    TableFormat {
                        col_widths: col_widths@,
                        cell_spacing,
                        default_line_height: at.default_line_height,
                        borders: border_config,
                        suppress_first_row_top: style_id is Some && style_id
                            == m.previous_table_style_id,
                    },
                );
                if !is_bridge(blocks, i) || height is None {
                    so_far
                } else {
                    let candidate = KeepNextGroupMeasurement {
                        body_height: m.group.body_height.plus(height->0),
                        ..m.group
                    };
                    if candidate.total_height(false).units > limit.units {
                        so_far
                    } else {
                        prefix_from(
                            blocks,
                            start,
                            stop,
                            at,
                            limit,
                            i + 1,
                            PrefixMeasure {
                                group: candidate,
                                previous: PreviousParagraph::none(),
                                previous_table_style_id: style_id,
                                has_bridge_table: true,
                            },
                        )
                    }
                }
            },
        }
    }
}

/// The longest start of the chain at block `start` that fits within `limit` and holds a
/// table that stays with the block after it.
///
/// What cannot be measured ends the chain there; without such a table before it there
/// is none.
pub open spec fn table_aware_prefix(
    blocks: Seq<LayoutBlock>,
    start: int,
    at: MeasureBox,
    limit: Pt,
    initial_table_style_id: Option<StyleId>,
    stop: Option<usize>,
) -> Option<TableAwareKeepNextPrefix> {
    if start >= blocks.len() || !(keeps_next(blocks[start]) || (table_keeps_next(blocks[start])
        && start + 1 < blocks.len())) {
        None
    } else {
        prefix_from(
            blocks,
            start,
            stop,
            at,
            limit,
            start,
            PrefixMeasure {
                group: KeepNextGroupMeasurement::none(),
                previous: PreviousParagraph::none(),
                previous_table_style_id: initial_table_style_id,
                has_bridge_table: false,
            },
        )
    }
}

/// Measure the longest start of the chain at block `start` that fits within `max_height` and
/// holds a table that stays with the block after it.
pub fn measure_table_aware_keep_next_prefix(
    blocks: &[LayoutBlock],
    start: usize,
    at: MeasureBox,
    max_height: Pt,
    initial_prev_table_style_id: Option<StyleId>,
    stop_exclusive: Option<usize>,
) -> (r: Option<TableAwareKeepNextPrefix>)
    ensures
        r == table_aware_prefix(
            blocks@,
            start as int,
            at,
            max_height,
            initial_prev_table_style_id,
            stop_exclusive,
        ),
{
    let count: usize = blocks.len();
    if start >= count {
        return None;
    }
    let starts = match &blocks[start] {
        LayoutBlock::Paragraph { style, .. } => style.keep_next,
        LayoutBlock::Table { .. } => table_keep_next_sentinel(&blocks[start]) && start + 1 < count,
    };
    if !starts {
        return None;
    }
    let mut m = PrefixMeasure {
        group: KeepNextGroupMeasurement::none(),
        previous: PreviousParagraph::none(),
        previous_table_style_id: initial_prev_table_style_id,
        has_bridge_table: false,
    };
    let mut index: usize = start;
    loop
        invariant
            start <= index <= count,
            count == blocks@.len(),
            prefix_from(
                blocks@,
                start as int,
                stop_exclusive,
                at,
                max_height,
                index as int,
                m,
            ) == table_aware_prefix(
                blocks@,
                start as int,
                at,
                max_height,
                initial_prev_table_style_id,
                stop_exclusive,
            ),
        decreases count - index,
    {
        if stop_exclusive == Some(index) || index >= count {
            return measured_prefix_or_none(m.has_bridge_table, m.group, index);
        }
        match &blocks[index] {
            LayoutBlock::Paragraph {
                fragments,
                style,
                page_break_before,
                footnotes,
                floating_images,
                floating_shapes,
            } => {
                if contains_flow_break(fragments.as_slice()) || (index > start
                    && *page_break_before) || floating_images.len() != 0 || floating_shapes.len()
                    != 0 {
                    return measured_prefix_or_none(m.has_bridge_table, m.group, index);
                }
                let candidate = add_measured_paragraph(
                    m.group,
                    m.previous,
                    fragments.as_slice(),
                    style,
                    footnotes.as_slice(),
                    at,
                );
                if candidate.total_height(false).units > max_height.units {
                    return measured_prefix_or_none(m.has_bridge_table, m.group, index);
                }
                if !style.keep_next {
                    return measured_prefix_or_none(m.has_bridge_table, candidate, index + 1);
                }
                m = PrefixMeasure {
                    group: candidate,
                    previous: PreviousParagraph::of(style),
                    previous_table_style_id: None,
                    has_bridge_table: m.has_bridge_table,
                };
                index += 1;
            },
            LayoutBlock::Table { rows, col_widths, cell_spacing, border_config, style_id, .. } => {
                let bridges = table_keep_next_sentinel(&blocks[index])
                    && table_is_simple_keep_next_bridge(&blocks[index]) && index + 1 < count
                    && !starts_hard_body_boundary(&blocks[index + 1]);
                if !bridges {
                    return measured_prefix_or_none(m.has_bridge_table, m.group, index);
                }
                let suppress_top = style_id.is_some() && *style_id == m.previous_table_style_id;
                let height = match measure_complete_table_height(
                    rows.as_slice(),
                    col_widths.as_slice(),
                    *cell_spacing,
                    at.default_line_height,
                    *border_config,
                    suppress_top,
                ) {
                    Some(h) => h,
                    None => {
                        return measured_prefix_or_none(m.has_bridge_table, m.group, index);
                    },
                };
                let mut candidate = m.group;
                candidate.body_height = candidate.body_height.plus(height);
                if candidate.total_height(false).units > max_height.units {
                    return measured_prefix_or_none(m.has_bridge_table, m.group, index);
                }
                m = PrefixMeasure {
                    group: candidate,
                    previous: PreviousParagraph::none(),
                    previous_table_style_id: *style_id,
                    has_bridge_table: true,
                };
                index += 1;
            },
        }
    }
}

/// The chain of paragraphs that started at `start`, measured from block `i` on up to its
/// last paragraph, or to the table that ends it.
pub open spec fn group_from(
    blocks: Seq<LayoutBlock>,
    start: int,
    at: MeasureBox,
    i: int,
    group: KeepNextGroupMeasurement,
    previous: PreviousParagraph,
) -> Option<KeepNextGroupMeasurement>
    decreases blocks.len() - i,
{
    if i < 0 || i >= blocks.len() {
        None
    } else {
        match blocks[i] {
            LayoutBlock::Paragraph { fragments, style, page_break_before, footnotes, .. } => {
                let next = with_measured_paragraph(
                    group,
                    previous,
                    fragments@,
                    style,
                    footnotes@,
                    at,
                );
                if has_page_break(fragments@) || (i > start && page_break_before) {
                    None
                } else if !style.keep_next {
                    Some(next)
                } else {
                    group_from(blocks, start, at, i + 1, next, PreviousParagraph::of(&style))
                }
            },
            LayoutBlock::Table { .. } => Some(group),
        }
    }
}

/// The chain of paragraphs that starts at block `start`, measured.
pub open spec fn keep_next_group(
    blocks: Seq<LayoutBlock>,
    start: int,
    at: MeasureBox,
) -> Option<KeepNextGroupMeasurement> {
    group_from(
        blocks,
        start,
        at,
        start,
        KeepNextGroupMeasurement::none(),
        PreviousParagraph::none(),
    )
}

/// Measure the chain of paragraphs that starts at block `start`. A page break within the
/// chain, or the end of the section, leaves nothing to measure.
pub fn measure_keep_next_group(blocks: &[LayoutBlock], start: usize, at: MeasureBox) -> (r: Option<
    KeepNextGroupMeasurement,
>)
    ensures
        r == keep_next_group(blocks@, start as int, at),
{
    let mut group = KeepNextGroupMeasurement::none();
    let mut previous = PreviousParagraph::none();
    let mut index: usize = start;
    while index < blocks.len()
        invariant
            start <= index,
            group_from(blocks@, start as int, at, index as int, group, previous)
                == keep_next_group(blocks@, start as int, at),
        decreases blocks@.len() - index,
    {
        match &blocks[index] {
            LayoutBlock::Paragraph { fragments, style, page_break_before, footnotes, .. } => {
                if contains_page_break(fragments.as_slice()) || (index > start
                    && *page_break_before) {
                    return None;
                }
                group = add_measured_paragraph(
                    group,
                    previous,
                    fragments.as_slice(),
                    style,
                    footnotes.as_slice(),
                    at,
                );
                previous = PreviousParagraph::of(style);
                if !style.keep_next {
                    return Some(group);
                }
            },
            LayoutBlock::Table { .. } => {
                return Some(group);
            },
        }
        index += 1;
    }
    None
}

/// Whether the paragraph that starts a chain can be divided so that its first lines fill the
/// page, with enough lines for both sides.
pub open spec fn leading_is_splittable(block: LayoutBlock, at: MeasureBox) -> bool {
    match block {
        LayoutBlock::Paragraph {
            fragments,
            style,
            footnotes,
            floating_images,
            floating_shapes,
            ..
        } => {
            let lines = placed(
                fragments@,
                open_place(at.width, at.max_height, at.default_line_height),
                style,
            ).lines.len();
            is_breakable(
                style,
                footnotes@,
                floating_images@,
                floating_shapes@,
                !has_flow_break(fragments@),
            ) && lines >= if style.widow_control {
                4
            } else {
                2int
            }
        },
        _ => false,
    }
}

/// Whether the first paragraph of a chain can fill the page and go on on the next one.
pub fn leading_keep_next_paragraph_splittable(block: &LayoutBlock, at: MeasureBox) -> (r: bool)
    ensures
        r == leading_is_splittable(*block, at),
{
    match block {
        LayoutBlock::Paragraph {
            fragments,
            style,
            footnotes,
            floating_images,
            floating_shapes,
            ..
        } => {
            let single_chunk = !contains_flow_break(fragments.as_slice());
            if !paragraph_breakable(
                style,
                footnotes.as_slice(),
                floating_images.as_slice(),
                floating_shapes.as_slice(),
                single_chunk,
            ) {
                return false;
            }
            let p = place_alone(
                fragments.as_slice(),
                style,
                at.width,
                at.max_height,
                at.default_line_height,
            );
            let min_lines: usize = if style.widow_control {
                4
            } else {
                2
            };
            p.line_count() >= min_lines
        },
        _ => false,
    }
}

/// Whether a paragraph of a chain is plain enough to predict how it is divided.
pub open spec fn is_predictable(block: LayoutBlock, may_break_before: bool) -> bool {
    match block {
        LayoutBlock::Paragraph {
            fragments,
            page_break_before,
            footnotes,
            floating_images,
            floating_shapes,
            ..
        } => !has_page_break(fragments@) && (may_break_before || !page_break_before)
            && footnotes@.len() == 0 && floating_images@.len() == 0 && floating_shapes@.len() == 0,
        _ => false,
    }
}

/// The least number of lines that stand on each side of a division.
#[verifier::allow_in_spec]
pub fn min_side(style: &ParagraphStyle) -> usize
    returns
        (if style.widow_control {
            2usize
        } else {
            1usize
        }),
{
    if style.widow_control {
        2usize
    } else {
        1usize
    }
}

/// Whether the first `head` lines of a paragraph, or a smaller legal number of them, fit.
pub open spec fn some_head_fits(
    fragments: Seq<Fragment>,
    style: ParagraphStyle,
    at: MeasureBox,
    used: Pt,
    overlap: Pt,
    available: Pt,
    head: int,
) -> bool
    decreases head,
{
    if head < min_side(&style) {
        false
    } else {
        let p = placed(
            fragments,
            open_place(at.width, at.max_height, at.default_line_height),
            style,
        );
        used.plus(p.segment(style, at.width, head, true, false).height).minus(overlap).units
            <= available.units || some_head_fits(
            fragments,
            style,
            at,
            used,
            overlap,
            available,
            head - 1,
        )
    }
}

/// Whether the chain that started at `start` can stay on the page from block `i` on, with the
/// first lines of its last paragraph.
pub open spec fn terminal_fits_from(
    blocks: Seq<LayoutBlock>,
    start: int,
    available: Pt,
    at: MeasureBox,
    i: int,
    used: Pt,
    previous: PreviousParagraph,
) -> bool
    decreases blocks.len() - i,
{
    if i < 0 || i >= blocks.len() || !is_predictable(blocks[i], i <= start) {
        false
    } else {
        match blocks[i] {
            LayoutBlock::Paragraph { fragments, style, .. } => {
                let overlap = previous.overlap(&style);
                let p = placed(
                    fragments@,
                    open_place(at.width, at.max_height, at.default_line_height),
                    style,
                );
                if style.keep_next {
                    let next = used.plus(
                        p.full(style, at.width, at.max_height).height.minus(overlap),
                    );
                    next.units < available.units && terminal_fits_from(
                        blocks,
                        start,
                        available,
                        at,
                        i + 1,
                        next,
                        PreviousParagraph::of(&style),
                    )
                } else {
                    !style.keep_lines && some_head_fits(
                        fragments@,
                        style,
                        at,
                        used,
                        overlap,
                        available,
                        p.lines.len() - min_side(&style),
                    )
                }
            },
            _ => false,
        }
    }
}

/// Whether the chain that starts at `start` can stay on the page with the first lines of its
/// last paragraph.
pub open spec fn terminal_is_splittable(
    blocks: Seq<LayoutBlock>,
    start: int,
    available: Pt,
    at: MeasureBox,
) -> bool {
    available.units > 0 && terminal_fits_from(
        blocks,
        start,
        available,
        at,
        start,
        Pt::zero(),
        PreviousParagraph::none(),
    )
}

/// Whether the last paragraph of a chain can be divided in the room that is left for it.
pub fn terminal_keep_next_paragraph_splittable_here(
    blocks: &[LayoutBlock],
    start: usize,
    current_available: Pt,
    at: MeasureBox,
) -> (r: bool)
    ensures
        r == terminal_is_splittable(blocks@, start as int, current_available, at),
{
    if current_available.units <= 0 {
        return false;
    }
    let mut used = Pt::zero();
    let mut previous = PreviousParagraph::none();
    let mut index: usize = start;
    while index < blocks.len()
        invariant
            start <= index,
            current_available.units > 0,
            terminal_fits_from(
                blocks@,
                start as int,
                current_available,
                at,
                index as int,
                used,
                previous,
            ) == terminal_is_splittable(blocks@, start as int, current_available, at),
        decreases blocks@.len() - index,
    {
        match &blocks[index] {
            LayoutBlock::Paragraph {
                fragments,
                style,
                page_break_before,
                footnotes,
                floating_images,
                floating_shapes,
            } => {
                if contains_page_break(fragments.as_slice()) || (index > start
                    && *page_break_before) || footnotes.len() != 0 || floating_images.len() != 0
                    || floating_shapes.len() != 0 {
                    return false;
                }
                let overlap = previous.overlap(style);
                let p = place_alone(
                    fragments.as_slice(),
                    style,
                    at.width,
                    at.max_height,
                    at.default_line_height,
                );
                if style.keep_next {
                    let whole = p.emit_full(style, at.width, at.max_height);
                    used = used.plus(whole.height.minus(overlap));
                    if used.units >= current_available.units {
                        return false;
                    }
                    previous = PreviousParagraph::of(style);
                } else {
                    if style.keep_lines {
                        return false;
                    }
                    let side: usize = min_side(style);
                    let total: usize = p.line_count();
                    if total < side + side {
                        assert(!some_head_fits(
                            fragments@,
                            *style,
                            at,
                            used,
                            overlap,
                            current_available,
                            total - side,
                        ));
                        return false;
                    }
                    let mut head: usize = total - side;
                    while head >= side
                        invariant
                            total == p@.lines.len(),
                            p@ == placed(
                                fragments@,
                                open_place(at.width, at.max_height, at.default_line_height),
                                *style,
                            ),
                            crate::paragraph::drawable(p@),
                            side == min_side(style),
                            head <= total - side,
                            some_head_fits(
                                fragments@,
                                *style,
                                at,
                                used,
                                overlap,
                                current_available,
                                head as int,
                            ) == some_head_fits(
                                fragments@,
                                *style,
                                at,
                                used,
                                overlap,
                                current_available,
                                total - side,
                            ),
                            some_head_fits(
                                fragments@,
                                *style,
                                at,
                                used,
                                overlap,
                                current_available,
                                total - side,
                            ) == terminal_is_splittable(
                                blocks@,
                                start as int,
                                current_available,
                                at,
                            ),
                        decreases head,
                    {
                        let segment = p.emit_split_segment(style, at.width, head, true, false);
                        if used.plus(segment.height).minus(overlap).units
                            <= current_available.units {
                            return true;
                        }
                        head -= 1;
                    }
                    return false;
                }
            },
            LayoutBlock::Table { .. } => {
                return false;
            },
        }
        index += 1;
    }
    false
}

} // verus!
