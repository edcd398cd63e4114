//! A table that is divided between pages shows the content of each of its cells once.
use crate::block::{LayoutFootnote, TableBorderLine, TableRowInput};
use crate::dimension::Pt;
use crate::ink::{ink, lemma_ink_concat, lemma_ink_shift, note_ink, Ink};
use crate::table::cell::cell_consistent;
use crate::table::content::{
    cell_notes_ink, entries_notes, entries_text, layers_ink, lemma_cells_footnotes_ink,
    lemma_flattened_ink, lemma_measured_table_ink, lemma_range_footnotes_ink, lemma_rows_ink_parts,
    lemma_rows_ink_split, lemma_table_layout_text, lemma_with_cells_ink, lemma_with_rows_ink,
    refs_ink, row_ink, rows_ink, rows_text, table_ink, Share,
};
use crate::table::emit::{Drawing, Layers, RowDrawing};
use crate::table::footnotes::{
    footnote_page_cost, measured_notes, noted_entries, noted_rows, row_note_height,
};
use crate::table::grid::{groups_cover, law_row_groups_partition_the_rows, row_groups, RowGroup};
use crate::table::laws::{
    is_next, lemma_cell_cut_bounds, lemma_only_headers,
    lemma_paging_groups_cover, lemma_split_within_lines, placed_rows, row_span,
};
use crate::table::layout::{
    drawn_item, drawn_items, drawn_part, drawn_slice, paginated_table, restored_border,
    table_paging, SliceDrawing, SliceView, TablePaginationHeights,
};
use crate::table::measure::{
    entries_consistent, measured_table, row_is_sound, table_consistent, table_layout, TableFormat,
};
use crate::table::paginate::{
    first_row_may_stay, header_rows_from, item_is_sound, paging_groups, placed_group,
    placed_groups, table_slices, Fill, ItemView, Paging,
};
use crate::table::split::{
    can_cut, commands_above, content_above, content_below, notes_above, notes_below, row_above,
    row_below, row_cut, row_lines, split_within,
};
use crate::table::types::{CellFootnote, CellLayoutView, EntryView, MeasuredRowView};
use vstd::multiset::Multiset;
use vstd::prelude::*;

verus! {

proof fn lemma_notes_divided<'a>(
    notes: Seq<CellFootnote<'a>>,
    k: int,
    f: int,
    above: Seq<CellFootnote<'a>>,
    below: Seq<CellFootnote<'a>>,
    count: int,
)
    requires
        0 <= f <= notes.len(),
        0 <= k <= count <= usize::MAX,
        forall|m: int| #![trigger notes[m]] 0 <= m < notes.len() ==> notes[m].line < count,
        forall|m: int| #![trigger above[m]] 0 <= m < above.len() ==> above[m].line < k,
        forall|m: int| #![trigger below[m]] 0 <= m < below.len() ==> below[m].line < count - k,
    ensures
        ({
            let a = notes_above(notes, k, f, above);
            let b = notes_below(notes, k, f, below);
            &&& cell_notes_ink(a).add(cell_notes_ink(b)) == cell_notes_ink(above).add(
                cell_notes_ink(below),
            ).add(cell_notes_ink(notes.subrange(f, notes.len() as int)))
            &&& forall|m: int| #![trigger a[m]] 0 <= m < a.len() ==> a[m].line < k
            &&& forall|m: int| #![trigger b[m]] 0 <= m < b.len() ==> b[m].line < count - k
        }),
    decreases notes.len() - f,
{
    let rest = notes.subrange(f, notes.len() as int);
    if f < notes.len() {
        let note = notes[f];
        let later_notes = notes.subrange(f + 1, notes.len() as int);
        lemma_notes_front(rest);
        assert(rest.drop_first() =~= later_notes);
        if note.line < k {
            lemma_notes_divided(notes, k, f + 1, above.push(note), below, count);
            assert(above.push(note).drop_last() =~= above);
        } else {
            let moved = CellFootnote { line: (note.line - k) as usize, ..note };
            lemma_notes_divided(notes, k, f + 1, above, below.push(moved), count);
            assert(below.push(moved).drop_last() =~= below);
        }
        assert(cell_notes_ink(notes_above(notes, k, f, above)).add(
            cell_notes_ink(notes_below(notes, k, f, below)),
        ) =~= cell_notes_ink(above).add(cell_notes_ink(below)).add(cell_notes_ink(rest)));
    } else {
        assert(cell_notes_ink(rest) =~= Multiset::<Ink>::empty());
        assert(cell_notes_ink(above).add(cell_notes_ink(below)).add(cell_notes_ink(rest))
            =~= cell_notes_ink(above).add(cell_notes_ink(below)));
    }
}

/// Footnotes show what the first of them and the others show.
proof fn lemma_notes_front(notes: Seq<CellFootnote<'_>>)
    requires
        notes.len() > 0,
    ensures
        cell_notes_ink(notes) == note_ink(*notes[0].footnote, 0).add(
            cell_notes_ink(notes.drop_first()),
        ),
    decreases notes.len(),
{
    let shorter = notes.drop_last();
    if shorter.len() > 0 {
        lemma_notes_front(shorter);
        assert(shorter.drop_first() =~= notes.drop_first().drop_last());
        assert(notes.drop_first().last() == notes.last());
    } else {
        assert(cell_notes_ink(shorter) =~= Multiset::<Ink>::empty());
        assert(cell_notes_ink(notes.drop_first()) =~= Multiset::<Ink>::empty());
    }
    assert(cell_notes_ink(notes) =~= note_ink(*notes[0].footnote, 0).add(
        cell_notes_ink(notes.drop_first()),
    ));
}

/// The two parts of a divided cell show together what the cell and its footnotes show, and can be
/// divided further.
pub proof fn law_divided_cell_shows_the_same(layout: CellLayoutView<'_>, k: int)
    requires
        0 <= k <= layout.lines.len() <= usize::MAX,
        cell_consistent(layout.commands, layout.lines, layout.footnotes),
    ensures
        ({
            let above = content_above(layout, k);
            let below = content_below(layout, k);
            &&& ink(above.commands).add(ink(below.commands)) == ink(layout.commands)
            &&& cell_notes_ink(above.footnotes).add(cell_notes_ink(below.footnotes))
                == cell_notes_ink(layout.footnotes)
            &&& cell_consistent(above.commands, above.lines, above.footnotes)
            &&& cell_consistent(below.commands, below.lines, below.footnotes)
        }),
{
    let above = content_above(layout, k);
    let below = content_below(layout, k);
    let n = commands_above(layout, k);
    let count = layout.lines.len() as int;
    if 0 < k < count {
        let last = layout.lines[k - 1];
    }
    assert(0 <= n <= layout.commands.len());
    let low = layout.commands.subrange(n, layout.commands.len() as int);
    lemma_ink_concat(above.commands, low);
    assert(above.commands + low =~= layout.commands);
    lemma_ink_shift(low, Pt::zero(), Pt::zero().minus(crate::table::split::cut_height(layout, k)));
    lemma_notes_divided(layout.footnotes, k, 0, Seq::empty(), Seq::empty(), count);
    assert(layout.footnotes.subrange(0, layout.footnotes.len() as int) =~= layout.footnotes);
    assert(cell_notes_ink(above.footnotes).add(cell_notes_ink(below.footnotes)) =~= cell_notes_ink(
        layout.footnotes,
    ));
    assert forall|m: int| #![trigger above.lines[m]] 0 <= m < above.lines.len() implies
        above.lines[m].commands_end <= above.commands.len() by {
        assert(layout.lines[m].commands_end <= layout.lines[k - 1].commands_end);
    }
    assert forall|m: int| #![trigger below.lines[m]] 0 <= m < below.lines.len() implies n
        <= layout.lines[k + m].commands_end && below.lines[m].commands_end
        <= below.commands.len() by {
        if k > 0 {
            assert(layout.lines[k - 1].commands_end <= layout.lines[k + m].commands_end);
        }
        assert(layout.lines[k + m].commands_end <= layout.commands.len());
    }
    assert forall|a: int, b: int| #![trigger below.lines[a], below.lines[b]] 0 <= a <= b
        < below.lines.len() implies below.lines[a].commands_end <= below.lines[b].commands_end by {
        assert(layout.lines[k + a].commands_end <= layout.lines[k + b].commands_end);
    }
    if below.lines.len() > 0 {
        let last = below.lines[below.lines.len() - 1];
    }
}

proof fn lemma_entries_divided(
    whole: Seq<EntryView<'_>>,
    above: Seq<EntryView<'_>>,
    below: Seq<EntryView<'_>>,
    c: int,
)
    requires
        0 <= c <= whole.len() == above.len() == below.len(),
        forall|i: int| #![trigger whole[i]]
            0 <= i < whole.len() ==> ink(above[i].layout.commands).add(
                ink(below[i].layout.commands),
            ) == ink(whole[i].layout.commands) && cell_notes_ink(above[i].layout.footnotes).add(
                cell_notes_ink(below[i].layout.footnotes),
            ) == cell_notes_ink(whole[i].layout.footnotes),
    ensures
        entries_text(above, c).add(entries_text(below, c)) == entries_text(whole, c),
        entries_notes(above, c).add(entries_notes(below, c)) == entries_notes(whole, c),
    decreases whole.len() - c,
{
    if c < whole.len() {
        lemma_entries_divided(whole, above, below, c + 1);
        let e = whole[c];
    }
    assert(entries_text(above, c).add(entries_text(below, c)) =~= entries_text(whole, c));
    assert(entries_notes(above, c).add(entries_notes(below, c)) =~= entries_notes(whole, c));
}

/// Whether the lines of each cell can be counted.
pub open spec fn lines_are_countable(measured: MeasuredRowView<'_>) -> bool {
    forall|c: int| #![trigger measured.entries[c]]
        0 <= c < measured.entries.len() ==> measured.entries[c].layout.lines.len() <= usize::MAX
}

proof fn lemma_row_divided<'a>(
    measured: MeasuredRowView<'a>,
    row: TableRowInput,
    available: Pt,
    page_has_footnotes: bool,
    separator_height: Pt,
    budget: Pt,
    share: Share,
)
    requires
        row_is_sound(measured, row),
        lines_are_countable(measured),
    ensures
        split_within(
            measured,
            row,
            available,
            page_has_footnotes,
            separator_height,
            budget,
        ) matches Some((first, second)) ==> {
            &&& row_ink(first, share).add(row_ink(second, share)) == row_ink(measured, share)
            &&& row_is_sound(first, row)
            &&& row_is_sound(second, row)
            &&& lines_are_countable(first)
            &&& lines_are_countable(second)
        },
    decreases budget.units - i64::MIN,
{
    if can_cut(measured, row, budget) {
        let cuts = row_cut(measured, row, budget);
        let first = row_above(measured, row, cuts);
        let second = row_below(measured, row, cuts);
        let note_cost = footnote_page_cost(
            row_note_height(first),
            page_has_footnotes,
            separator_height,
        );
        let reduced = available.minus(note_cost).max(Pt::zero());
        if first.height.plus(note_cost).units <= available.units {
            assert forall|i: int| #![trigger measured.entries[i]] 0 <= i < measured.entries.len()
                implies ink(first.entries[i].layout.commands).add(
                ink(second.entries[i].layout.commands),
            ) == ink(measured.entries[i].layout.commands) && cell_notes_ink(
                first.entries[i].layout.footnotes,
            ).add(cell_notes_ink(second.entries[i].layout.footnotes)) == cell_notes_ink(
                measured.entries[i].layout.footnotes,
            ) by {
                lemma_cell_cut_bounds(measured, row, i, budget);
                law_divided_cell_shows_the_same(measured.entries[i].layout, cuts[i]);
            }
            lemma_entries_divided(measured.entries, first.entries, second.entries, 0);
            assert(row_ink(first, share).add(row_ink(second, share)) =~= row_ink(measured, share));
            assert forall|i: int| #![trigger first.entries[i]] 0 <= i < first.entries.len() implies
                cell_consistent(
                first.entries[i].layout.commands,
                first.entries[i].layout.lines,
                first.entries[i].layout.footnotes,
            ) && first.entries[i].layout.lines.len() <= usize::MAX by {
                let e = measured.entries[i];
                lemma_cell_cut_bounds(measured, row, i, budget);
                law_divided_cell_shows_the_same(measured.entries[i].layout, cuts[i]);
            }
            assert forall|i: int| #![trigger second.entries[i]] 0 <= i < second.entries.len() implies
                cell_consistent(
                second.entries[i].layout.commands,
                second.entries[i].layout.lines,
                second.entries[i].layout.footnotes,
            ) && second.entries[i].layout.lines.len() <= usize::MAX by {
                let e = measured.entries[i];
                lemma_cell_cut_bounds(measured, row, i, budget);
                law_divided_cell_shows_the_same(measured.entries[i].layout, cuts[i]);
            }
        } else if reduced.units < budget.units {
            lemma_row_divided(
                measured,
                row,
                available,
                page_has_footnotes,
                separator_height,
                reduced,
                share,
            );
        }
    }
}

/// What an item draws that is not drawn again, with its footnotes.
pub open spec fn body_ink_in(p: Paging<'_, '_>, item: ItemView<'_>, share: Share) -> Multiset<Ink> {
    match item {
        ItemView::Range { start, end } => rows_ink(p.measured, start, end, share),
        ItemView::Header => Multiset::empty(),
        ItemView::Split { row, part } => row_ink(part, share),
        ItemView::Continuation { row, part } => row_ink(part, share),
    }
}

/// What the items of a part draw that is not drawn again.
pub open spec fn body_ink(
    p: Paging<'_, '_>,
    items: Seq<ItemView<'_>>,
    share: Share,
) -> Multiset<Ink>
    decreases items.len(),
{
    if items.len() == 0 {
        Multiset::empty()
    } else {
        body_ink(p, items.drop_last(), share).add(body_ink_in(p, items.last(), share))
    }
}

/// What a list of parts draws that is not drawn again.
pub open spec fn all_body_ink(
    p: Paging<'_, '_>,
    slices: Seq<Seq<ItemView<'_>>>,
    share: Share,
) -> Multiset<Ink>
    decreases slices.len(),
{
    if slices.len() == 0 {
        Multiset::empty()
    } else {
        all_body_ink(p, slices.drop_last(), share).add(body_ink(p, slices.last(), share))
    }
}

/// What has been placed, but for rows that are drawn again.
spec fn placed_ink(p: Paging<'_, '_>, f: Fill<'_>, share: Share) -> Multiset<Ink> {
    all_body_ink(p, f.slices, share).add(body_ink(p, f.current, share))
}

/// Whether a table is measured so that it can be drawn and divided.
pub open spec fn paging_is_sound(p: Paging<'_, '_>) -> bool {
    &&& table_consistent(p.measured, p.rows)
    &&& p.rows.len() <= usize::MAX
    &&& 0 <= p.header_count <= p.rows.len()
    &&& forall|r: int| #![trigger p.measured[r]]
        0 <= r < p.measured.len() ==> lines_are_countable(p.measured[r])
}

/// Whether all items draw what the table has.
spec fn sound_items(p: Paging<'_, '_>, items: Seq<ItemView<'_>>) -> bool {
    forall|i: int| #![trigger items[i]] 0 <= i < items.len() ==> item_is_sound(items[i], p.rows)
}

spec fn sound_fill(p: Paging<'_, '_>, f: Fill<'_>) -> bool {
    &&& forall|i: int| #![trigger f.slices[i]]
        0 <= i < f.slices.len() ==> sound_items(p, f.slices[i])
    &&& sound_items(p, f.current)
}

proof fn lemma_row_is_sound(p: Paging<'_, '_>, r: int)
    requires
        paging_is_sound(p),
        0 <= r < p.rows.len(),
    ensures
        row_is_sound(p.measured[r], p.rows[r]),
        lines_are_countable(p.measured[r]),
{
    let row = p.rows[r];
    let m = p.measured[r];
}

proof fn lemma_with_item<'a>(
    p: Paging<'a, '_>,
    f: Fill<'a>,
    item: ItemView<'a>,
    g: Fill<'a>,
    share: Share,
)
    requires
        g.slices == f.slices,
        g.current == f.current.push(item),
    ensures
        placed_ink(p, g, share) == placed_ink(p, f, share).add(body_ink_in(p, item, share)),
        sound_fill(p, f) && item_is_sound(item, p.rows) ==> sound_fill(p, g),
{
    assert(f.current.push(item).drop_last() =~= f.current);
    assert(placed_ink(p, g, share) =~= placed_ink(p, f, share).add(body_ink_in(p, item, share)));
    if sound_fill(p, f) && item_is_sound(item, p.rows) {
        assert forall|i: int| #![trigger g.current[i]] 0 <= i < g.current.len() implies
            item_is_sound(g.current[i], p.rows) by {
            if i < f.current.len() {
                assert(g.current[i] == f.current[i]);
            }
        }
    }
}

proof fn lemma_turned<'a>(p: Paging<'a, '_>, f: Fill<'a>, with_header: bool, share: Share)
    requires
        0 <= p.header_count <= p.rows.len(),
    ensures
        placed_ink(p, f.turned(p, with_header), share) == placed_ink(p, f, share),
        sound_fill(p, f) ==> sound_fill(p, f.turned(p, with_header)),
{
    let g = f.turned(p, with_header);
    assert(f.slices.push(f.current).drop_last() =~= f.slices);
    assert(body_ink(p, Seq::<ItemView<'a>>::empty(), share) =~= Multiset::<Ink>::empty());
    if with_header && p.header_count > 0 {
        let item: ItemView<'a> = ItemView::Header;
        assert(g.current =~= Seq::<ItemView<'a>>::empty().push(item));
        assert(g.current.drop_last() =~= Seq::<ItemView<'a>>::empty());
        assert(body_ink_in(p, item, share) =~= Multiset::<Ink>::empty());
        assert(body_ink(p, g.current, share) =~= Multiset::<Ink>::empty());
    }
    assert(placed_ink(p, g, share) =~= placed_ink(p, f, share));
    if sound_fill(p, f) {
        assert forall|i: int| #![trigger g.slices[i]] 0 <= i < g.slices.len() implies sound_items(
            p,
            g.slices[i],
        ) by {
            if i < f.slices.len() {
                assert(g.slices[i] == f.slices[i]);
            }
        }
    }
}

proof fn lemma_with_rest<'a>(
    p: Paging<'a, '_>,
    f: Fill<'a>,
    row: int,
    pending: MeasuredRowView<'a>,
    share: Share,
)
    requires
        paging_is_sound(p),
        sound_fill(p, f),
        0 <= row < p.rows.len(),
        row_is_sound(pending, p.rows[row]),
        lines_are_countable(pending),
    ensures
        placed_ink(p, f.with_rest(p, row, pending), share) == placed_ink(p, f, share).add(row_ink(pending, share)),
        sound_fill(p, f.with_rest(p, row, pending)),
    decreases row_lines(pending),
{
    let notes = row_note_height(pending);
    let item = ItemView::Continuation { row, part: pending };
    if f.fits(pending.height, notes, p.separator) {
        lemma_with_item(p, f, item, f.with_sized_item(item, pending.height, notes, p.separator), share);
    } else {
        lemma_split_within_lines(
            pending,
            p.rows[row],
            f.remaining,
            f.has_notes,
            p.separator,
            f.remaining,
        );
        lemma_row_divided(
            pending,
            p.rows[row],
            f.remaining,
            f.has_notes,
            p.separator,
            f.remaining,
            share,
        );
        match split_within(
            pending,
            p.rows[row],
            f.remaining,
            f.has_notes,
            p.separator,
            f.remaining,
        ) {
            Some((first, second)) => {
                let part = ItemView::Continuation { row, part: first };
                let g = f.with_item(part);
                lemma_with_item(p, f, part, g, share);
                lemma_turned(p, g, true, share);
                lemma_with_rest(p, g.turned(p, true), row, second, share);
                assert(placed_ink(p, f.with_rest(p, row, pending), share) =~= placed_ink(p, f, share).add(
                    row_ink(pending, share),
                ));
            },
            None => {
                lemma_with_item(p, f, item, f.with_item(item), share);
            },
        }
    }
}

proof fn lemma_with_group<'a>(p: Paging<'a, '_>, f: Fill<'a>, g: RowGroup, share: Share)
    requires
        sound_fill(p, f),
        g.start <= g.end <= p.rows.len(),
    ensures
        placed_ink(p, f.with_group(p, g), share) == placed_ink(p, f, share).add(
            rows_ink(p.measured, g.start as int, g.end as int, share),
        ),
        sound_fill(p, f.with_group(p, g)),
{
    let item = ItemView::Range { start: g.start as int, end: g.end as int };
    lemma_with_item(p, f, item, f.with_group(p, g), share);
}

proof fn lemma_moved_group<'a>(p: Paging<'a, '_>, f: Fill<'a>, g: RowGroup, share: Share)
    requires
        0 <= p.header_count <= p.rows.len(),
        sound_fill(p, f),
        g.start <= g.end <= p.rows.len(),
        is_next(p, f, g.start as int),
        placed_ink(p, f, share) == rows_ink(p.measured, 0, g.start as int, share),
    ensures
        placed_ink(p, f.with_moved_group(p, g), share) == rows_ink(
            p.measured,
            0,
            g.end as int,
            share,
        ),
        sound_fill(p, f.with_moved_group(p, g)),
{
    let start = g.start as int;
    let is_header = g.start < p.header_count;
    let next_height = p.heights.height((f.slices.len() as usize).saturating_add(1) as int);
    let next_remaining = if !is_header && p.header_count > 0 {
        next_height.minus(p.header_height())
    } else {
        next_height
    };
    lemma_rows_ink_split(p.measured, 0, start, g.end as int, share);
    if next_remaining.units > f.remaining.units {
        let notes = p.notes(g.start as int, g.end as int);
        let orphaned = !is_header && f.holds_only_movable_headers(p) && g.height.plus(
            footnote_page_cost(notes, false, p.separator),
        ).units <= next_remaining.units;
        if orphaned {
            lemma_only_headers(p, f, start);
            let left = Fill { current: Seq::<ItemView<'a>>::empty(), ..f };
            assert(placed_ink(p, left, share) =~= Multiset::<Ink>::empty());
            lemma_turned(p, left, false, share);
            let item = ItemView::Range { start: 0, end: p.header_count };
            lemma_with_item(p, left.turned(p, false), item, f.with_moved_header(p), share);
            assert(placed_ink(p, f.with_moved_header(p), share) =~= rows_ink(
                p.measured,
                0,
                start,
                share,
            ));
            lemma_with_group(p, f.with_moved_header(p), g, share);
        } else {
            lemma_turned(p, f, !is_header, share);
            lemma_with_group(p, f.turned(p, !is_header), g, share);
        }
    } else {
        lemma_with_group(p, f, g, share);
    }
}

proof fn lemma_placed_group<'a>(p: Paging<'a, '_>, f: Fill<'a>, g: RowGroup, share: Share)
    requires
        paging_is_sound(p),
        sound_fill(p, f),
        g.start < g.end <= p.rows.len(),
        is_next(p, f, g.start as int),
        placed_ink(p, f, share) == rows_ink(p.measured, 0, g.start as int, share),
    ensures
        ({
            let (next, next_row) = placed_group(f, p, g);
            &&& placed_ink(p, next, share) == rows_ink(p.measured, 0, next_row, share)
            &&& sound_fill(p, next)
        }),
{
    let start = g.start as int;
    let end = g.end as int;
    let first = p.single(start);
    lemma_row_is_sound(p, start);
    lemma_rows_ink_split(p.measured, 0, start, end, share);
    if f.fits(g.height, p.notes(start, end), p.separator) {
        lemma_with_group(p, f, g, share);
    } else if first_row_may_stay(p, g) && f.fits(
        first.height,
        row_note_height(p.measured[start]),
        p.separator,
    ) {
        let item = ItemView::Range { start, end: start + 1 };
        let next = f.with_sized_item(
            item,
            first.height,
            row_note_height(p.measured[start]),
            p.separator,
        );
        lemma_with_item(p, f, item, next, share);
        lemma_rows_ink_split(p.measured, 0, start, start + 1, share);
    } else if start >= p.header_count && g.splittable && end - start == 1 {
        lemma_row_divided(
            p.measured[start],
            p.rows[start],
            f.remaining,
            f.has_notes,
            p.separator,
            f.remaining,
            share,
        );
        match split_within(
            p.measured[start],
            p.rows[start],
            f.remaining,
            f.has_notes,
            p.separator,
            f.remaining,
        ) {
            Some((above, below)) => {
                let item = ItemView::Split { row: start, part: above };
                let with = f.with_item(item);
                lemma_with_item(p, f, item, with, share);
                lemma_turned(p, with, true, share);
                let turned = with.turned(p, true);
                lemma_with_rest(p, turned, start, below, share);
                assert(rows_ink(p.measured, start + 1, end, share) =~= Multiset::<Ink>::empty());
                assert(rows_ink(p.measured, start, end, share) =~= row_ink(
                    p.measured[start],
                    share,
                ));
                assert(placed_ink(p, turned.with_rest(p, start, below), share) =~= rows_ink(
                    p.measured,
                    0,
                    end,
                    share,
                ));
            },
            None => {
                lemma_moved_group(p, f, g, share);
            },
        }
    } else {
        lemma_moved_group(p, f, g, share);
    }
}

proof fn lemma_placed_groups<'a>(
    p: Paging<'a, '_>,
    f: Fill<'a>,
    groups: Seq<RowGroup>,
    k: int,
    row: int,
    share: Share,
)
    requires
        paging_is_sound(p),
        sound_fill(p, f),
        groups_cover(groups, p.measured.len() as int),
        0 <= k <= groups.len(),
        k < groups.len() ==> groups[k].start <= row < groups[k].end,
        ({
            let at = if k < groups.len() {
                row
            } else {
                p.measured.len() as int
            };
            is_next(p, f, at) && placed_ink(p, f, share) == rows_ink(p.measured, 0, at, share)
        }),
    ensures
        ({
            let done = placed_groups(f, p, groups, k, row);
            &&& placed_ink(p, done, share) == rows_ink(
                p.measured,
                0,
                p.measured.len() as int,
                share,
            )
            &&& sound_fill(p, done)
        }),
    decreases
            groups.len() - k,
            if k < groups.len() {
                groups[k].end - row
            } else {
                0
            },
{
    if k < groups.len() {
        let whole = groups[k];
        let g = if row <= whole.start {
            whole
        } else {
            p.single(row)
        };
        let (next, next_row) = placed_group(f, p, g);
        assert(g.start == row);
        lemma_placed_group(p, f, g, share);
        crate::table::laws::lemma_placed_group(p, f, g);
        if row < next_row < whole.end {
            lemma_placed_groups(p, next, groups, k, next_row, share);
        } else {
            let next_start = if k + 1 < groups.len() {
                groups[k + 1].start as int
            } else {
                0
            };
            assert(next_row == whole.end);
            if k + 1 < groups.len() {
                assert(groups[k].end == groups[k + 1].start);
            }
            lemma_placed_groups(p, next, groups, k + 1, next_start, share);
        }
    }
}

proof fn lemma_table_slices(
    p: Paging<'_, '_>,
    available_height: Pt,
    first_page_has_footnotes: bool,
    share: Share,
)
    requires
        paging_is_sound(p),
    ensures
        ({
            let slices = table_slices(p, available_height, first_page_has_footnotes);
            &&& all_body_ink(p, slices, share) == rows_ink(
                p.measured,
                0,
                p.rows.len() as int,
                share,
            )
            &&& forall|i: int| #![trigger slices[i]]
                0 <= i < slices.len() ==> sound_items(p, slices[i])
        }),
{
    let groups = paging_groups(p);
    law_row_groups_partition_the_rows(p.rows, p.measured);
    lemma_paging_groups_cover(p, row_groups(p.rows, p.measured), 0, Seq::empty());
    let start = Fill {
        slices: Seq::empty(),
        current: Seq::empty(),
        remaining: available_height,
        has_notes: first_page_has_footnotes,
    };
    assert(placed_ink(p, start, share) =~= Multiset::<Ink>::empty());
    assert(rows_ink(p.measured, 0, 0, share) =~= Multiset::<Ink>::empty());
    assert(placed_rows(start) =~= row_span(0, 0));
    lemma_placed_groups(p, start, groups, 0, 0, share);
    let done = placed_groups(start, p, groups, 0, 0);
    let slices = done.slices.push(done.current);
    assert(slices.drop_last() =~= done.slices);
    assert forall|i: int| #![trigger slices[i]] 0 <= i < slices.len() implies sound_items(
        p,
        slices[i],
    ) by {
        if i < done.slices.len() {
            assert(slices[i] == done.slices[i]);
        }
    }
}

/// A table that is divided between pages draws what its rows and their footnotes show, all of it and
/// once apart from header rows that are drawn again, whatever the heights of the pages are and however rows are divided.
pub proof fn law_all_content_is_drawn_once(
    p: Paging<'_, '_>,
    available_height: Pt,
    first_page_has_footnotes: bool,
    share: Share,
)
    requires
        paging_is_sound(p),
    ensures
        all_body_ink(p, table_slices(p, available_height, first_page_has_footnotes), share) == rows_ink(
            p.measured,
            0,
            p.rows.len() as int,
            share,
        ),
{
    lemma_table_slices(p, available_height, first_page_has_footnotes, share);
}

/// What an item draws again: the cells of the header, without their footnotes.
pub open spec fn repeated_ink_in(p: Paging<'_, '_>, item: ItemView<'_>, share: Share) -> Multiset<
    Ink,
> {
    match (item, share) {
        (ItemView::Header, Share::Notes) => Multiset::empty(),
        (ItemView::Header, _) => rows_text(p.measured, 0, p.header_count),
        _ => Multiset::empty(),
    }
}

/// What the items of a part draw again.
pub open spec fn repeated_ink(
    p: Paging<'_, '_>,
    items: Seq<ItemView<'_>>,
    share: Share,
) -> Multiset<Ink>
    decreases items.len(),
{
    if items.len() == 0 {
        Multiset::empty()
    } else {
        repeated_ink(p, items.drop_last(), share).add(repeated_ink_in(p, items.last(), share))
    }
}

/// What a list of parts draws again.
pub open spec fn all_repeated_ink(
    p: Paging<'_, '_>,
    slices: Seq<Seq<ItemView<'_>>>,
    share: Share,
) -> Multiset<Ink>
    decreases slices.len(),
{
    if slices.len() == 0 {
        Multiset::empty()
    } else {
        all_repeated_ink(p, slices.drop_last(), share).add(repeated_ink(p, slices.last(), share))
    }
}

/// What a drawn part of a table shows.
pub open spec fn slice_ink(slice: SliceView<'_>, share: Share) -> Multiset<Ink> {
    match share {
        Share::Text => ink(slice.commands),
        Share::Notes => refs_ink(slice.footnotes),
        Share::Both => ink(slice.commands).add(refs_ink(slice.footnotes)),
    }
}

/// What the drawn parts of a table from `i` on show.
pub open spec fn slices_ink(slices: Seq<SliceView<'_>>, i: int, share: Share) -> Multiset<Ink>
    decreases slices.len() - i,
{
    if i < 0 || i >= slices.len() {
        Multiset::empty()
    } else {
        slice_ink(slices[i], share).add(slices_ink(slices, i + 1, share))
    }
}

spec fn drawing_ink(d: SliceDrawing<'_>, share: Share) -> Multiset<Ink> {
    match share {
        Share::Text => layers_ink(d.drawing.layers),
        Share::Notes => refs_ink(d.footnotes),
        Share::Both => layers_ink(d.drawing.layers).add(refs_ink(d.footnotes)),
    }
}

proof fn lemma_drawn_part<'a>(
    d: SliceDrawing<'a>,
    p: Paging<'a, '_>,
    outer: Option<TableBorderLine>,
    row: int,
    part: MeasuredRowView<'a>,
    slice: int,
    i: int,
    count: nat,
    share: Share,
)
    requires
        row_is_sound(part, p.rows[row]),
    ensures
        drawing_ink(drawn_part(d, p, outer, row, part, slice, i, count), share) == drawing_ink(
            d,
            share,
        ).add(row_ink(part, share)),
{
    let drawing = RowDrawing {
        measured: part,
        row: p.rows[row],
        y: d.drawing.y,
        restored_top: restored_border(outer, slice, i),
        gap_below: i + 1 < count,
        scope: None,
    };
    lemma_with_cells_ink(d.drawing.layers, drawing, 0);
    lemma_cells_footnotes_ink(part.entries, 0, d.footnotes);
    assert(drawing_ink(drawn_part(d, p, outer, row, part, slice, i, count), share) =~= drawing_ink(
        d,
        share,
    ).add(row_ink(part, share)));
}

proof fn lemma_drawn_item<'a>(
    d: SliceDrawing<'a>,
    p: Paging<'a, '_>,
    outer: Option<TableBorderLine>,
    items: Seq<ItemView<'a>>,
    slice: int,
    i: int,
    share: Share,
)
    requires
        paging_is_sound(p),
        0 <= i < items.len(),
        item_is_sound(items[i], p.rows),
    ensures
        drawing_ink(drawn_item(d, p, outer, items, slice, i), share) == drawing_ink(d, share).add(
            body_ink_in(p, items[i], share),
        ).add(repeated_ink_in(p, items[i], share)),
{
    let next = drawn_item(d, p, outer, items, slice, i);
    match items[i] {
        ItemView::Range { start, end } => {
            lemma_with_rows_ink(
                d.drawing,
                p.measured,
                p.rows,
                start,
                start,
                end,
                restored_border(outer, slice, i),
            );
            lemma_range_footnotes_ink(p.measured, start, end, d.footnotes);
            lemma_rows_ink_parts(p.measured, start, end);
        },
        ItemView::Header => {
            lemma_with_rows_ink(
                d.drawing,
                p.measured,
                p.rows,
                0,
                0,
                p.header_count,
                restored_border(outer, slice, i),
            );
        },
        ItemView::Split { row, part } => {
            lemma_drawn_part(d, p, outer, row, part, slice, i, items.len(), share);
        },
        ItemView::Continuation { row, part } => {
            lemma_drawn_part(d, p, outer, row, part, slice, i, items.len(), share);
        },
    }
    assert(drawing_ink(next, share) =~= drawing_ink(d, share).add(
        body_ink_in(p, items[i], share),
    ).add(repeated_ink_in(p, items[i], share)));
}

proof fn lemma_drawn_items<'a>(
    d: SliceDrawing<'a>,
    p: Paging<'a, '_>,
    outer: Option<TableBorderLine>,
    items: Seq<ItemView<'a>>,
    slice: int,
    i: int,
    share: Share,
)
    requires
        paging_is_sound(p),
        0 <= i <= items.len(),
        sound_items(p, items),
        drawing_ink(d, share) == body_ink(p, items.take(i), share).add(
            repeated_ink(p, items.take(i), share),
        ),
    ensures
        drawing_ink(drawn_items(d, p, outer, items, slice, i), share) == body_ink(
            p,
            items,
            share,
        ).add(repeated_ink(p, items, share)),
    decreases items.len() - i,
{
    if i < items.len() {
        lemma_drawn_item(d, p, outer, items, slice, i, share);
        assert(items.take(i + 1).drop_last() =~= items.take(i));
        let next = drawn_item(d, p, outer, items, slice, i);
        assert(drawing_ink(next, share) =~= body_ink(p, items.take(i + 1), share).add(
            repeated_ink(p, items.take(i + 1), share),
        ));
        lemma_drawn_items(next, p, outer, items, slice, i + 1, share);
    } else {
        assert(items.take(i) =~= items);
    }
}

proof fn lemma_drawn_slice<'a>(
    p: Paging<'a, '_>,
    outer: Option<TableBorderLine>,
    slices: Seq<Seq<ItemView<'a>>>,
    slice: int,
    table_width: Pt,
    cell_spacing: Pt,
    share: Share,
)
    requires
        paging_is_sound(p),
        0 <= slice < slices.len(),
        sound_items(p, slices[slice]),
    ensures
        slice_ink(drawn_slice(p, outer, slices, slice, table_width, cell_spacing), share)
            == body_ink(p, slices[slice], share).add(repeated_ink(p, slices[slice], share)),
{
    let start = SliceDrawing {
        drawing: Drawing { layers: Layers::empty(), y: Pt::zero() },
        footnotes: Seq::<&'a LayoutFootnote>::empty(),
    };
    assert(slices[slice].take(0) =~= Seq::<ItemView<'a>>::empty());
    assert(drawing_ink(start, share) =~= body_ink(p, slices[slice].take(0), share).add(
        repeated_ink(p, slices[slice].take(0), share),
    ));
    lemma_drawn_items(start, p, outer, slices[slice], slice, 0, share);
    lemma_flattened_ink(
        drawn_items(start, p, outer, slices[slice], slice, 0).drawing.layers,
    );
}

proof fn lemma_slices_ink<'a>(
    p: Paging<'a, '_>,
    parts: Seq<Seq<ItemView<'a>>>,
    slices: Seq<SliceView<'a>>,
    n: int,
    share: Share,
)
    requires
        parts.len() == slices.len(),
        0 <= n <= parts.len(),
        forall|i: int| #![trigger slices[i]]
            0 <= i < slices.len() ==> slice_ink(slices[i], share) == body_ink(
                p,
                parts[i],
                share,
            ).add(repeated_ink(p, parts[i], share)),
    ensures
        all_body_ink(p, parts.take(n), share).add(all_repeated_ink(p, parts.take(n), share)).add(
            slices_ink(slices, n, share),
        ) == slices_ink(slices, 0, share),
    decreases n,
{
    if n > 0 {
        lemma_slices_ink(p, parts, slices, n - 1, share);
        assert(parts.take(n).drop_last() =~= parts.take(n - 1));
        let last = slices[n - 1];
        assert(slices_ink(slices, n - 1, share) == slice_ink(last, share).add(
            slices_ink(slices, n, share),
        ));
        assert(all_body_ink(p, parts.take(n), share).add(
            all_repeated_ink(p, parts.take(n), share),
        ).add(slices_ink(slices, n, share)) =~= all_body_ink(p, parts.take(n - 1), share).add(
            all_repeated_ink(p, parts.take(n - 1), share),
        ).add(slices_ink(slices, n - 1, share)));
    } else {
        assert(parts.take(0) =~= Seq::<Seq<ItemView<'a>>>::empty());
        assert(all_body_ink(p, parts.take(0), share).add(
            all_repeated_ink(p, parts.take(0), share),
        ).add(slices_ink(slices, 0, share)) =~= slices_ink(slices, 0, share));
    }
}

pub(crate) proof fn lemma_header_rows(rows: Seq<TableRowInput>, i: int)
    requires
        0 <= i <= rows.len(),
    ensures
        i <= header_rows_from(rows, i) <= rows.len(),
    decreases rows.len() - i,
{
    if i < rows.len() && rows[i].is_header == Some(true) {
        lemma_header_rows(rows, i + 1);
    }
}

proof fn lemma_nothing_repeated<'a>(p: Paging<'a, '_>, items: Seq<ItemView<'a>>, share: Share)
    requires
        p.header_count == 0,
    ensures
        repeated_ink(p, items, share) == Multiset::<Ink>::empty(),
    decreases items.len(),
{
    if items.len() > 0 {
        lemma_nothing_repeated(p, items.drop_last(), share);
    }
    assert(repeated_ink(p, items, share) =~= Multiset::<Ink>::empty());
}

proof fn lemma_nothing_repeated_at_all<'a>(
    p: Paging<'a, '_>,
    slices: Seq<Seq<ItemView<'a>>>,
    share: Share,
)
    requires
        p.header_count == 0,
    ensures
        all_repeated_ink(p, slices, share) == Multiset::<Ink>::empty(),
    decreases slices.len(),
{
    if slices.len() > 0 {
        lemma_nothing_repeated_at_all(p, slices.drop_last(), share);
        lemma_nothing_repeated(p, slices.last(), share);
    }
    assert(all_repeated_ink(p, slices, share) =~= Multiset::<Ink>::empty());
}

proof fn lemma_noted_entries(entries: Seq<EntryView<'_>>, c: int, width: Pt, line_height: Pt)
    requires
        0 <= c <= entries.len(),
    ensures
        entries_text(noted_entries(entries, width, line_height), c) == entries_text(entries, c),
        entries_notes(noted_entries(entries, width, line_height), c) == entries_notes(entries, c),
    decreases entries.len() - c,
{
    if c < entries.len() {
        lemma_noted_entries(entries, c + 1, width, line_height);
        lemma_measured_notes(entries[c].layout.footnotes, width, line_height);
    }
}

proof fn lemma_measured_notes(notes: Seq<CellFootnote<'_>>, width: Pt, line_height: Pt)
    ensures
        cell_notes_ink(measured_notes(notes, width, line_height)) == cell_notes_ink(notes),
    decreases notes.len(),
{
    if notes.len() > 0 {
        lemma_measured_notes(notes.drop_last(), width, line_height);
        assert(measured_notes(notes, width, line_height).drop_last() =~= measured_notes(
            notes.drop_last(),
            width,
            line_height,
        ));
    }
}

proof fn lemma_noted_rows(
    measured: Seq<MeasuredRowView<'_>>,
    a: int,
    b: int,
    width: Pt,
    line_height: Pt,
    share: Share,
)
    requires
        0 <= a,
        b <= measured.len(),
    ensures
        rows_ink(noted_rows(measured, width, line_height), a, b, share) == rows_ink(
            measured,
            a,
            b,
            share,
        ),
    decreases b - a,
{
    if a < b {
        lemma_noted_rows(measured, a + 1, b, width, line_height, share);
        lemma_noted_entries(measured[a].entries, 0, width, line_height);
    }
}

/// Whether a table is measured so that it can be drawn and divided.
pub open spec fn is_measurable(rows: Seq<TableRowInput>, format: TableFormat) -> bool {
    let measured = measured_table(rows, format).rows;
    &&& rows.len() <= usize::MAX
    &&& table_consistent(measured, rows)
    &&& forall|r: int| #![trigger measured[r]]
        0 <= r < measured.len() ==> lines_are_countable(measured[r])
}

proof fn lemma_paging_is_sound(
    rows: Seq<TableRowInput>,
    format: TableFormat,
    pagination: TablePaginationHeights<'_>,
    share: Share,
)
    requires
        is_measurable(rows, format),
    ensures
        paging_is_sound(table_paging(rows, format, pagination)),
        rows_ink(table_paging(rows, format, pagination).measured, 0, rows.len() as int, share)
            == rows_ink(measured_table(rows, format).rows, 0, rows.len() as int, share),
{
    let measured = measured_table(rows, format).rows;
    lemma_header_rows(rows, 0);
    let p = table_paging(rows, format, pagination);
    match pagination.footnote_width {
        Some(width) => {
            lemma_noted_rows(
                measured,
                0,
                rows.len() as int,
                width,
                format.default_line_height,
                share,
            );
            assert forall|r: int| #![trigger p.measured[r]] 0 <= r < p.measured.len() implies
                entries_consistent(p.measured[r].entries) && lines_are_countable(
                p.measured[r],
            ) by {
                let old_row = measured[r];
                assert forall|c: int| #![trigger p.measured[r].entries[c]] 0 <= c
                    < p.measured[r].entries.len() implies cell_consistent(
                    p.measured[r].entries[c].layout.commands,
                    p.measured[r].entries[c].layout.lines,
                    p.measured[r].entries[c].layout.footnotes,
                ) && p.measured[r].entries[c].layout.lines.len() <= usize::MAX by {
                    let old_entry = old_row.entries[c];
                    let notes = p.measured[r].entries[c].layout.footnotes;
                    assert forall|k: int| #![trigger notes[k]] 0 <= k < notes.len() implies
                        notes[k].line < old_entry.layout.lines.len() by {
                        let note = old_entry.layout.footnotes[k];
                    }
                }
            }
            assert forall|r: int| #![trigger rows[r]] 0 <= r < rows.len() implies
                crate::table::emit::row_fits(p.measured[r], rows[r]) by {
                assert(crate::table::emit::row_fits(measured[r], rows[r]));
            }
        },
        None => {},
    }
}

/// What the parts of a table draw again: nothing where the table has no header rows.
pub open spec fn table_repeats(
    rows: Seq<TableRowInput>,
    format: TableFormat,
    pagination: TablePaginationHeights<'_>,
    share: Share,
) -> Multiset<Ink> {
    if rows.len() == 0 || format.col_widths.len() == 0 {
        Multiset::empty()
    } else {
        let p = table_paging(rows, format, pagination);
        all_repeated_ink(
            p,
            table_slices(p, pagination.available_height, pagination.first_page_has_footnotes),
            share,
        )
    }
}

proof fn lemma_paginated<'a>(
    rows: Seq<TableRowInput>,
    format: TableFormat,
    pagination: TablePaginationHeights<'_>,
    share: Share,
)
    requires
        is_measurable(rows, format),
        format.col_widths.len() > 0,
    ensures
        slices_ink(paginated_table(rows, format, pagination), 0, share) == rows_ink(
            measured_table(rows, format).rows,
            0,
            rows.len() as int,
            share,
        ).add(table_repeats(rows, format, pagination, share)),
        header_rows_from(rows, 0) == 0 ==> table_repeats(rows, format, pagination, share)
            == Multiset::<Ink>::empty(),
{
    let slices = paginated_table(rows, format, pagination);
    if rows.len() == 0 {
        assert(slices_ink(slices, 1, share) =~= Multiset::<Ink>::empty());
        assert(slices_ink(slices, 0, share) =~= Multiset::<Ink>::empty());
    } else {
        let p = table_paging(rows, format, pagination);
        let parts = table_slices(
            p,
            pagination.available_height,
            pagination.first_page_has_footnotes,
        );
        lemma_paging_is_sound(rows, format, pagination, share);
        lemma_table_slices(
            p,
            pagination.available_height,
            pagination.first_page_has_footnotes,
            share,
        );
        let outer = match format.borders {
            Some(b) => b.top,
            None => None,
        };
        assert forall|i: int| #![trigger slices[i]] 0 <= i < slices.len() implies slice_ink(
            slices[i],
            share,
        ) == body_ink(p, parts[i], share).add(repeated_ink(p, parts[i], share)) by {
            lemma_drawn_slice(
                p,
                outer,
                parts,
                i,
                measured_table(rows, format).table_width,
                format.cell_spacing,
                share,
            );
        }
        lemma_slices_ink(p, parts, slices, parts.len() as int, share);
        assert(parts.take(parts.len() as int) =~= parts);
        assert(slices_ink(slices, parts.len() as int, share) =~= Multiset::<Ink>::empty());
        if header_rows_from(rows, 0) == 0 {
            lemma_nothing_repeated_at_all(p, parts, share);
        }
    }
    assert(slices_ink(slices, 0, share) =~= rows_ink(
        measured_table(rows, format).rows,
        0,
        rows.len() as int,
        share,
    ).add(table_repeats(rows, format, pagination, share)));
}

/// The parts of a table show together what its cells and their footnotes show, all of it and once, and
/// besides only the header rows that are drawn again; whatever the heights of the pages are.
pub proof fn law_divided_table_shows_its_cells_once<'a>(
    rows: Seq<TableRowInput>,
    format: TableFormat,
    pagination: TablePaginationHeights<'_>,
)
    requires
        is_measurable(rows, format),
        format.col_widths.len() > 0,
    ensures
        slices_ink(paginated_table(rows, format, pagination), 0, Share::Both) == table_ink(
            rows,
            0,
        ).add(table_repeats(rows, format, pagination, Share::Both)),
        header_rows_from(rows, 0) == 0 ==> slices_ink(
            paginated_table(rows, format, pagination),
            0,
            Share::Both,
        ) == table_ink(rows, 0),
{
    lemma_paginated(rows, format, pagination, Share::Both);
    lemma_measured_table_ink(rows, format);
    assert(table_ink(rows, 0).add(Multiset::<Ink>::empty()) =~= table_ink(rows, 0));
}

/// The commands of the parts of a table show together what the commands of the whole table show, all of
/// it and once, and besides only the header rows that are drawn again; whatever the heights of the pages
/// are. Their footnotes are not counted.
pub proof fn law_divided_table_shows_its_texts_once<'a>(
    rows: Seq<TableRowInput>,
    format: TableFormat,
    pagination: TablePaginationHeights<'_>,
)
    requires
        is_measurable(rows, format),
        format.col_widths.len() > 0,
    ensures
        slices_ink(paginated_table(rows, format, pagination), 0, Share::Text) == ink(
            table_layout(rows, format).commands,
        ).add(table_repeats(rows, format, pagination, Share::Text)),
        header_rows_from(rows, 0) == 0 ==> slices_ink(
            paginated_table(rows, format, pagination),
            0,
            Share::Text,
        ) == ink(table_layout(rows, format).commands),
{
    lemma_paginated(rows, format, pagination, Share::Text);
    lemma_table_layout_text(rows, format);
    lemma_rows_ink_parts(measured_table(rows, format).rows, 0, rows.len() as int);
    let whole = ink(table_layout(rows, format).commands);
    assert(whole.add(Multiset::<Ink>::empty()) =~= whole);
}

} // verus!
