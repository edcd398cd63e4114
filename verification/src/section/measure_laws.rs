//! What blocks that stay together are measured to take.
use crate::block::{FootnoteParagraph, LayoutBlock, LayoutFootnote};
use crate::dimension::Pt;
use crate::fragment::Fragment;
use crate::note_laws::{is_length, note_alone};
use crate::paragraph::laid_out;
use crate::section::keep_next::{
    fresh_overlap, with_measured_paragraph, with_note, with_notes, KeepNextGroupMeasurement,
    MeasureBox,
};
use crate::section::place_laws::joins;
use crate::section::state::footnote_separator_gap;
use crate::style::{ParagraphStyle, PreviousParagraph};
use vstd::prelude::*;

verus! {

/// The heights of the paragraphs of a footnote from number `i` on.
pub open spec fn height_of_note(
    paragraphs: Seq<FootnoteParagraph>,
    i: int,
    width: Pt,
    line_height: Pt,
) -> int
    decreases paragraphs.len() - i,
{
    if i < 0 || i >= paragraphs.len() {
        0
    } else {
        note_alone(paragraphs[i], width.units as int, line_height).height.units + height_of_note(
            paragraphs,
            i + 1,
            width,
            line_height,
        )
    }
}

/// The heights of the footnotes from number `n` on.
pub open spec fn height_of_notes(
    notes: Seq<LayoutFootnote>,
    n: int,
    width: Pt,
    line_height: Pt,
) -> int
    decreases notes.len() - n,
{
    if n < 0 || n >= notes.len() {
        0
    } else {
        height_of_note(notes[n].paragraphs@, 0, width, line_height) + height_of_notes(
            notes,
            n + 1,
            width,
            line_height,
        )
    }
}

/// Whether no part of a footnote has a negative height.
pub open spec fn note_is_above_zero(
    paragraphs: Seq<FootnoteParagraph>,
    width: Pt,
    line_height: Pt,
) -> bool {
    forall|i: int| #![trigger paragraphs[i]]
        0 <= i < paragraphs.len() ==> 0 <= note_alone(
            paragraphs[i],
            width.units as int,
            line_height,
        ).height.units
}

proof fn lemma_note(
    group: KeepNextGroupMeasurement,
    paragraphs: Seq<FootnoteParagraph>,
    i: int,
    width: Pt,
    line_height: Pt,
)
    requires
        0 <= i <= paragraphs.len(),
        note_is_above_zero(paragraphs, width, line_height),
        is_length(
            group.footnote_height.units + height_of_note(paragraphs, i, width, line_height),
        ),
    ensures
        ({
            let r = with_note(group, paragraphs, i, width, line_height);
            &&& 0 <= height_of_note(paragraphs, i, width, line_height)
            &&& r.body_height == group.body_height
            &&& r.footnote_height.units == group.footnote_height.units + height_of_note(
                paragraphs,
                i,
                width,
                line_height,
            )
            &&& r.has_footnotes == (group.has_footnotes || i < paragraphs.len())
        }),
    decreases paragraphs.len() - i,
{
    if i < paragraphs.len() {
        lemma_above_zero(paragraphs, i + 1, width, line_height);
        let h = note_alone(paragraphs[i], width.units as int, line_height).height;
        lemma_note(
            KeepNextGroupMeasurement {
                body_height: group.body_height,
                footnote_height: group.footnote_height.plus(h),
                has_footnotes: true,
            },
            paragraphs,
            i + 1,
            width,
            line_height,
        );
    }
}

proof fn lemma_above_zero(
    paragraphs: Seq<FootnoteParagraph>,
    i: int,
    width: Pt,
    line_height: Pt,
)
    requires
        0 <= i <= paragraphs.len(),
        note_is_above_zero(paragraphs, width, line_height),
    ensures
        0 <= height_of_note(paragraphs, i, width, line_height),
    decreases paragraphs.len() - i,
{
    if i < paragraphs.len() {
        lemma_above_zero(paragraphs, i + 1, width, line_height);
        let one = paragraphs[i];
    }
}

proof fn lemma_all_above_zero(notes: Seq<LayoutFootnote>, n: int, width: Pt, line_height: Pt)
    requires
        0 <= n <= notes.len(),
        forall|k: int| #![trigger notes[k]]
            0 <= k < notes.len() ==> note_is_above_zero(notes[k].paragraphs@, width, line_height),
    ensures
        0 <= height_of_notes(notes, n, width, line_height),
    decreases notes.len() - n,
{
    if n < notes.len() {
        lemma_all_above_zero(notes, n + 1, width, line_height);
        let one = notes[n];
        lemma_above_zero(notes[n].paragraphs@, 0, width, line_height);
    }
}

proof fn lemma_notes(
    group: KeepNextGroupMeasurement,
    notes: Seq<LayoutFootnote>,
    n: int,
    width: Pt,
    line_height: Pt,
)
    requires
        0 <= n <= notes.len(),
        forall|k: int| #![trigger notes[k]]
            0 <= k < notes.len() ==> note_is_above_zero(notes[k].paragraphs@, width, line_height),
        is_length(group.footnote_height.units + height_of_notes(notes, n, width, line_height)),
    ensures
        ({
            let r = with_notes(group, notes, n, width, line_height);
            &&& r.body_height == group.body_height
            &&& r.footnote_height.units == group.footnote_height.units + height_of_notes(
                notes,
                n,
                width,
                line_height,
            )
        }),
    decreases notes.len() - n,
{
    if n < notes.len() {
        lemma_all_above_zero(notes, n + 1, width, line_height);
        lemma_above_zero(notes[n].paragraphs@, 0, width, line_height);
        lemma_note(group, notes[n].paragraphs@, 0, width, line_height);
        lemma_notes(
            with_note(group, notes[n].paragraphs@, 0, width, line_height),
            notes,
            n + 1,
            width,
            line_height,
        );
    }
}

/// A paragraph makes a group of blocks higher by its own height, less what the space before it and
/// the space after the block before it have in common, or less both spaces where the two join. Its
/// footnotes make those of the group higher by their heights.
pub proof fn law_groups_grow_by_their_paragraphs(
    group: KeepNextGroupMeasurement,
    previous: PreviousParagraph,
    fragments: Seq<Fragment>,
    style: ParagraphStyle,
    footnotes: Seq<LayoutFootnote>,
    at: MeasureBox,
)
    requires
        is_length(previous.space_after.units + style.space_before.units),
        forall|k: int| #![trigger footnotes[k]]
            0 <= k < footnotes.len() ==> note_is_above_zero(
                footnotes[k].paragraphs@,
                at.width,
                at.default_line_height,
            ),
        is_length(
            group.footnote_height.units + height_of_notes(
                footnotes,
                0,
                at.width,
                at.default_line_height,
            ),
        ),
        ({
            let h = laid_out(
                fragments,
                style,
                at.width,
                at.max_height,
                at.default_line_height,
            ).height;
            &&& is_length(h.units - previous.overlap(&style).units)
            &&& is_length(group.body_height.units + h.units - previous.overlap(&style).units)
        }),
    ensures
        ({
            let r = with_measured_paragraph(group, previous, fragments, style, footnotes, at);
            let h = laid_out(
                fragments,
                style,
                at.width,
                at.max_height,
                at.default_line_height,
            ).height.units;
            let after = previous.space_after.units;
            let before = style.space_before.units;
            let common = if joins(previous, style) {
                after + before
            } else if after <= before {
                after as int
            } else {
                before as int
            };
            &&& r.body_height.units == group.body_height.units + h - common
            &&& r.footnote_height.units == group.footnote_height.units + height_of_notes(
                footnotes,
                0,
                at.width,
                at.default_line_height,
            )
        }),
{
    let h = laid_out(fragments, style, at.width, at.max_height, at.default_line_height).height;
    lemma_notes(
        KeepNextGroupMeasurement {
            body_height: group.body_height.plus(h.minus(previous.overlap(&style))),
            ..group
        },
        footnotes,
        0,
        at.width,
        at.default_line_height,
    );
}

/// A group takes its own height and that of its footnotes, and that of the separator above these
/// unless the page has it already.
pub proof fn law_groups_take_their_notes_along(group: KeepNextGroupMeasurement, reserved: bool)
    requires
        is_length(group.body_height.units + group.footnote_height.units),
        is_length(
            group.body_height.units + group.footnote_height.units
                + footnote_separator_gap().units,
        ),
    ensures
        group.total_height(reserved).units == group.body_height.units
            + group.footnote_height.units + if group.has_footnotes && !reserved {
            footnote_separator_gap().units as int
        } else {
            0
        },
{
}

/// At the top of a page nothing is left of the space after the block before: a paragraph that joins
/// the one before it gives up its space, and any other keeps it.
pub proof fn law_nothing_is_left_of_a_space_on_a_new_page(
    block: LayoutBlock,
    previous: PreviousParagraph,
)
    ensures
        match block {
            LayoutBlock::Paragraph { style, .. } => {
                let kept = style.space_before.units - fresh_overlap(block, previous).units;
                if joins(previous, style) {
                    kept == 0
                } else {
                    style.space_before.units >= 0 ==> kept == style.space_before.units
                }
            },
            LayoutBlock::Table { .. } => fresh_overlap(block, previous).units == 0,
        },
{
}

} // verus!
