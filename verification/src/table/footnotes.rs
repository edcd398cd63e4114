//! The footnotes that a table's rows refer to.
use crate::block::{FootnoteParagraph, LayoutFootnote};
use crate::dimension::Pt;
use crate::paragraph::{laid_out, layout_paragraph};
use crate::table::types::{
    entries_view, rows_view, CellFootnote, CellLayoutEntry, CellLayoutView, EntryView, MeasuredRow,
    MeasuredRowView,
};
use vstd::prelude::*;

verus! {

/// The heights of the footnotes from number `f` on, added to `acc`.
pub open spec fn note_heights(footnotes: Seq<CellFootnote<'_>>, f: int, acc: Pt) -> Pt
    decreases footnotes.len() - f,
{
    if f >= footnotes.len() || f < 0 {
        acc
    } else {
        note_heights(footnotes, f + 1, acc.plus(footnotes[f].page_height))
    }
}

/// The heights of the footnotes of the cells from `c` on, added to `acc`.
pub open spec fn cells_note_height(entries: Seq<EntryView<'_>>, c: int, acc: Pt) -> Pt
    decreases entries.len() - c,
{
    if c >= entries.len() || c < 0 {
        acc
    } else {
        cells_note_height(entries, c + 1, note_heights(entries[c].layout.footnotes, 0, acc))
    }
}

/// The height of a row's footnotes.
pub open spec fn row_note_height(row: MeasuredRowView<'_>) -> Pt {
    cells_note_height(row.entries, 0, Pt::zero())
}

/// The heights of the footnotes of the rows `i..end`, added to `acc`.
pub open spec fn range_note_height(
    rows: Seq<MeasuredRowView<'_>>,
    i: int,
    end: int,
    acc: Pt,
) -> Pt
    decreases end - i,
{
    if i >= end {
        acc
    } else {
        range_note_height(rows, i + 1, end, acc.plus(row_note_height(rows[i])))
    }
}

/// The height of a row's footnotes at the foot of a page.
pub fn measured_row_footnote_height(row: &MeasuredRow<'_>) -> (r: Pt)
    ensures
        r == row_note_height(row@),
{
    let ghost entries = entries_view(row.entries@);
    let mut total = Pt::zero();
    let mut c: usize = 0;
    while c < row.entries.len()
        invariant
            c <= row.entries@.len(),
            entries == entries_view(row.entries@),
            cells_note_height(entries, c as int, total) == cells_note_height(
                entries,
                0,
                Pt::zero(),
            ),
        decreases row.entries@.len() - c,
    {
        let footnotes = &row.entries[c].layout.footnotes;
        let ghost start = total;
        let mut f: usize = 0;
        while f < footnotes.len()
            invariant
                f <= footnotes@.len(),
                note_heights(footnotes@, f as int, total) == note_heights(footnotes@, 0, start),
            decreases footnotes@.len() - f,
        {
            total = total.plus(footnotes[f].page_height);
            f += 1;
        }
        assert(entries[c as int].layout.footnotes == footnotes@);
        c += 1;
    }
    total
}

/// The height of the footnotes of the rows `start..end` at the foot of a page.
pub fn measured_range_footnote_height(
    rows: &[MeasuredRow<'_>],
    start: usize,
    end: usize,
) -> (r: Pt)
    requires
        start <= end <= rows@.len(),
    ensures
        r == range_note_height(rows_view(rows@), start as int, end as int, Pt::zero()),
{
    let mut total = Pt::zero();
    let mut i: usize = start;
    while i < end
        invariant
            start <= i <= end <= rows@.len(),
            range_note_height(rows_view(rows@), i as int, end as int, total) == range_note_height(
                rows_view(rows@),
                start as int,
                end as int,
                Pt::zero(),
            ),
        decreases end - i,
    {
        total = total.plus(measured_row_footnote_height(&rows[i]));
        i += 1;
    }
    total
}

/// What footnotes of the given height cost a page: the first ones on it also
/// bring the separator above them.
#[verifier::allow_in_spec]
pub fn footnote_page_cost(height: Pt, page_has_footnotes: bool, separator_height: Pt) -> Pt
    returns
        (if height.units <= 0 {
            Pt::zero()
        } else if page_has_footnotes {
            height
        } else {
            height.plus(separator_height)
        }),
{
    if height.units <= 0 {
        Pt::zero()
    } else if page_has_footnotes {
        height
    } else {
        height.plus(separator_height)
    }
}

/// The footnotes of the cells from `c` on, after those in `acc`.
pub open spec fn cells_footnotes<'a>(
    entries: Seq<EntryView<'a>>,
    c: int,
    acc: Seq<&'a LayoutFootnote>,
) -> Seq<&'a LayoutFootnote>
    decreases entries.len() - c,
{
    if c >= entries.len() || c < 0 {
        acc
    } else {
        let own = entries[c].layout.footnotes;
        cells_footnotes(entries, c + 1, acc + Seq::new(own.len(), |f: int| own[f].footnote))
    }
}

/// The footnotes of the rows `i..end`, after those in `acc`.
pub open spec fn range_footnotes<'a>(
    rows: Seq<MeasuredRowView<'a>>,
    i: int,
    end: int,
    acc: Seq<&'a LayoutFootnote>,
) -> Seq<&'a LayoutFootnote>
    decreases end - i,
{
    if i >= end {
        acc
    } else {
        range_footnotes(rows, i + 1, end, cells_footnotes(rows[i].entries, 0, acc))
    }
}

/// Append the footnotes that a row refers to.
pub fn append_measured_row_footnotes<'a>(
    row: &MeasuredRow<'a>,
    output: &mut Vec<&'a LayoutFootnote>,
)
    ensures
        final(output)@ == cells_footnotes(row@.entries, 0, old(output)@),
{
    let ghost entries = entries_view(row.entries@);
    let mut c: usize = 0;
    while c < row.entries.len()
        invariant
            c <= row.entries@.len(),
            entries == entries_view(row.entries@),
            cells_footnotes(entries, c as int, output@) == cells_footnotes(
                entries,
                0,
                old(output)@,
            ),
        decreases row.entries@.len() - c,
    {
        let footnotes = &row.entries[c].layout.footnotes;
        let ghost start = output@;
        let ghost own = Seq::new(footnotes@.len(), |k: int| footnotes@[k].footnote);
        let mut f: usize = 0;
        while f < footnotes.len()
            invariant
                f <= footnotes@.len(),
                own == Seq::new(footnotes@.len(), |k: int| footnotes@[k].footnote),
                output@ == start + own.take(f as int),
            decreases footnotes@.len() - f,
        {
            output.push(footnotes[f].footnote);
            f += 1;
            assert(output@ =~= start + own.take(f as int));
        }
        assert(own.take(f as int) =~= own);
        assert(entries[c as int].layout.footnotes == footnotes@);
        c += 1;
    }
}

/// Append the footnotes that the rows `start..end` refer to.
pub fn append_measured_range_footnotes<'a>(
    rows: &[MeasuredRow<'a>],
    start: usize,
    end: usize,
    output: &mut Vec<&'a LayoutFootnote>,
)
    requires
        start <= end <= rows@.len(),
    ensures
        final(output)@ == range_footnotes(
            rows_view(rows@),
            start as int,
            end as int,
            old(output)@,
        ),
{
    let mut i: usize = start;
    while i < end
        invariant
            start <= i <= end <= rows@.len(),
            range_footnotes(rows_view(rows@), i as int, end as int, output@) == range_footnotes(
                rows_view(rows@),
                start as int,
                end as int,
                old(output)@,
            ),
        decreases end - i,
    {
        append_measured_row_footnotes(&rows[i], output);
        i += 1;
    }
}


/// The heights of the paragraphs of a footnote from number `i` on, added to `acc`.
pub open spec fn note_height_from(
    paragraphs: Seq<FootnoteParagraph>,
    i: int,
    width: Pt,
    default_line_height: Pt,
    acc: Pt,
) -> Pt
    decreases paragraphs.len() - i,
{
    if i < 0 || i >= paragraphs.len() {
        acc
    } else {
        note_height_from(
            paragraphs,
            i + 1,
            width,
            default_line_height,
            acc.plus(
                laid_out(
                    paragraphs[i].fragments@,
                    paragraphs[i].style,
                    width,
                    Pt::infinity(),
                    default_line_height,
                ).height,
            ),
        )
    }
}

/// The height of a footnote at the foot of a page.
pub open spec fn note_height(footnote: LayoutFootnote, width: Pt, default_line_height: Pt) -> Pt {
    note_height_from(footnote.paragraphs@, 0, width, default_line_height, Pt::zero())
}

fn measure_note(footnote: &LayoutFootnote, width: Pt, default_line_height: Pt) -> (r: Pt)
    ensures
        r == note_height(*footnote, width, default_line_height),
{
    let mut total = Pt::zero();
    let mut i: usize = 0;
    while i < footnote.paragraphs.len()
        invariant
            i <= footnote.paragraphs@.len(),
            note_height_from(footnote.paragraphs@, i as int, width, default_line_height, total)
                == note_height(*footnote, width, default_line_height),
        decreases footnote.paragraphs@.len() - i,
    {
        let paragraph = &footnote.paragraphs[i];
        let laid = layout_paragraph(
            paragraph.fragments.as_slice(),
            &paragraph.style,
            width,
            Pt::infinity(),
            default_line_height,
        );
        total = total.plus(laid.height);
        i += 1;
    }
    total
}

/// Footnotes with the heights that they have at the foot of a page.
pub open spec fn measured_notes<'a>(
    footnotes: Seq<CellFootnote<'a>>,
    width: Pt,
    default_line_height: Pt,
) -> Seq<CellFootnote<'a>> {
    Seq::new(
        footnotes.len(),
        |f: int|
            CellFootnote {
                page_height: note_height(*footnotes[f].footnote, width, default_line_height),
                ..footnotes[f]
            },
    )
}

/// Cells with the heights of their footnotes.
pub open spec fn noted_entries<'a>(
    entries: Seq<EntryView<'a>>,
    width: Pt,
    default_line_height: Pt,
) -> Seq<EntryView<'a>> {
    Seq::new(
        entries.len(),
        |c: int|
            EntryView {
                layout: CellLayoutView {
                    footnotes: measured_notes(
                        entries[c].layout.footnotes,
                        width,
                        default_line_height,
                    ),
                    ..entries[c].layout
                },
                ..entries[c]
            },
    )
}

/// Rows with the heights of their footnotes.
pub open spec fn noted_rows<'a>(
    rows: Seq<MeasuredRowView<'a>>,
    width: Pt,
    default_line_height: Pt,
) -> Seq<MeasuredRowView<'a>> {
    Seq::new(
        rows.len(),
        |r: int|
            MeasuredRowView {
                entries: noted_entries(rows[r].entries, width, default_line_height),
                ..rows[r]
            },
    )
}

fn measure_cell_notes(footnotes: &mut Vec<CellFootnote<'_>>, width: Pt, default_line_height: Pt)
    ensures
        final(footnotes)@ == measured_notes(old(footnotes)@, width, default_line_height),
{
    let ghost before = footnotes@;
    let ghost wanted = measured_notes(before, width, default_line_height);
    let mut f: usize = 0;
    while f < footnotes.len()
        invariant
            f <= footnotes@.len(),
            footnotes@.len() == before.len(),
            wanted == measured_notes(before, width, default_line_height),
            forall|k: int| #![trigger footnotes@[k]]
                0 <= k < before.len() ==> footnotes@[k] == if k < f {
                    wanted[k]
                } else {
                    before[k]
                },
        decreases footnotes@.len() - f,
    {
        let height = measure_note(footnotes[f].footnote, width, default_line_height);
        footnotes[f].page_height = height;
        f += 1;
    }
    assert(footnotes@ =~= wanted);
}

fn measure_entry_notes(
    entries: &mut Vec<CellLayoutEntry<'_>>,
    width: Pt,
    default_line_height: Pt,
)
    ensures
        entries_view(final(entries)@) == noted_entries(
            entries_view(old(entries)@),
            width,
            default_line_height,
        ),
{
    let ghost before = entries_view(entries@);
    let ghost wanted = noted_entries(before, width, default_line_height);
    let mut c: usize = 0;
    while c < entries.len()
        invariant
            c <= entries@.len(),
            entries@.len() == before.len(),
            wanted == noted_entries(before, width, default_line_height),
            forall|k: int| #![trigger entries@[k]]
                0 <= k < before.len() ==> entries@[k]@ == if k < c {
                    wanted[k]
                } else {
                    before[k]
                },
        decreases entries@.len() - c,
    {
        let ghost old_entry = entries@[c as int]@;
        measure_cell_notes(&mut entries[c].layout.footnotes, width, default_line_height);
        assert(entries@[c as int]@ =~= wanted[c as int]);
        c += 1;
    }
    assert(entries_view(entries@) =~= wanted);
}

/// Measure the footnotes that the rows of a table refer to.
pub fn measure_table_notes(rows: &mut Vec<MeasuredRow<'_>>, width: Pt, default_line_height: Pt)
    ensures
        rows_view(final(rows)@) == noted_rows(rows_view(old(rows)@), width, default_line_height),
{
    let ghost before = rows_view(rows@);
    let ghost wanted = noted_rows(before, width, default_line_height);
    let mut r: usize = 0;
    while r < rows.len()
        invariant
            r <= rows@.len(),
            rows@.len() == before.len(),
            wanted == noted_rows(before, width, default_line_height),
            forall|k: int| #![trigger rows@[k]]
                0 <= k < before.len() ==> rows@[k]@ == if k < r {
                    wanted[k]
                } else {
                    before[k]
                },
        decreases rows@.len() - r,
    {
        measure_entry_notes(&mut rows[r].entries, width, default_line_height);
        assert(rows@[r as int]@ =~= wanted[r as int]);
        r += 1;
    }
    assert(rows_view(rows@) =~= wanted);
}

} // verus!
