//! What holds of every table that is divided between pages.
use crate::block::TableRowInput;
use crate::dimension::Pt;
use crate::table::grid::{groups_cover, law_row_groups_partition_the_rows, row_groups, RowGroup};
use crate::table::paginate::{
    paging_groups, paging_groups_from, placed_group, placed_groups, single_rows, table_slices,
    Fill, ItemView, Paging,
};
use crate::table::split::{
    can_cut, cell_cut, content_above, content_below, legal_cut, lines_before, lines_within,
    notes_above, notes_below, row_above, row_below, row_cut, row_lines, split_within,
};
use crate::table::footnotes::{footnote_page_cost, row_note_height};
use crate::table::types::{CellFootnote, CellLayoutView, CellLine, EntryView, MeasuredRowView};
use vstd::prelude::*;

verus! {

/// The rows `a..b`, in order.
pub open spec fn row_span(a: int, b: int) -> Seq<int> {
    Seq::new(
        if a < b {
            (b - a) as nat
        } else {
            0
        },
        |i: int| a + i,
    )
}

/// The rows that an item draws for the first time, a divided row counted where its first part
/// stands.
pub open spec fn new_rows_in(item: ItemView<'_>) -> Seq<int> {
    match item {
        ItemView::Range { start, end } => row_span(start, end),
        ItemView::Header => Seq::empty(),
        ItemView::Split { row, part } => seq![row],
        ItemView::Continuation { row, part } => Seq::empty(),
    }
}

/// The rows that the items of a part draw for the first time.
pub open spec fn new_rows(items: Seq<ItemView<'_>>) -> Seq<int>
    decreases items.len(),
{
    if items.len() == 0 {
        Seq::empty()
    } else {
        new_rows(items.drop_last()) + new_rows_in(items.last())
    }
}

/// The rows that a list of parts draws for the first time.
pub open spec fn all_new_rows(slices: Seq<Seq<ItemView<'_>>>) -> Seq<int>
    decreases slices.len(),
{
    if slices.len() == 0 {
        Seq::empty()
    } else {
        all_new_rows(slices.drop_last()) + new_rows(slices.last())
    }
}

/// The rows that have been placed.
pub open spec fn placed_rows(f: Fill<'_>) -> Seq<int> {
    all_new_rows(f.slices) + new_rows(f.current)
}

/// Whether a part starts with a row of the header.
pub open spec fn starts_with_header(p: Paging<'_, '_>, items: Seq<ItemView<'_>>) -> bool {
    items.len() > 0 && match items[0] {
        ItemView::Range { start, end } => start < p.header_count,
        ItemView::Header => true,
        _ => false,
    }
}

/// Whether the header is drawn again at the start of a part alone, and then no other item draws a row
/// of the header.
pub open spec fn header_stands_once(p: Paging<'_, '_>, items: Seq<ItemView<'_>>) -> bool {
    forall|i: int, j: int| #![trigger items[i], items[j]]
        0 <= i < items.len() && 0 <= j < items.len() && items[i] is Header ==> i == 0 && (j == 0
            || match items[j] {
            ItemView::Range { start, end } => p.header_count <= start,
            ItemView::Header => false,
            _ => true,
        })
}

/// Whether the header is not drawn again.
pub open spec fn has_no_repeated_header(items: Seq<ItemView<'_>>) -> bool {
    forall|i: int| #![trigger items[i]] 0 <= i < items.len() ==> !(items[i] is Header)
}

/// Whether all parts but the first that draw something start with a row of the header, and the header
/// is drawn again at the start of such parts alone.
pub open spec fn headed(p: Paging<'_, '_>, f: Fill<'_>) -> bool {
    &&& forall|i: int| #![trigger f.slices[i]]
        0 < i < f.slices.len() ==> f.slices[i].len() == 0 || starts_with_header(p, f.slices[i])
    &&& f.slices.len() > 0 ==> f.current.len() == 0 || starts_with_header(p, f.current)
}

/// Whether each part draws the header again once at most, and the first one not at all.
pub open spec fn headers_stand_once(p: Paging<'_, '_>, f: Fill<'_>) -> bool {
    &&& forall|i: int| #![trigger f.slices[i]]
        0 <= i < f.slices.len() ==> header_stands_once(p, f.slices[i]) && (i == 0
            ==> has_no_repeated_header(f.slices[i]))
    &&& header_stands_once(p, f.current)
    &&& f.slices.len() == 0 ==> has_no_repeated_header(f.current)
}

/// Whether an item draws no row of the header.
spec fn is_below_header(p: Paging<'_, '_>, item: ItemView<'_>) -> bool {
    match item {
        ItemView::Range { start, end } => p.header_count <= start,
        ItemView::Header => false,
        _ => true,
    }
}

proof fn lemma_with_item<'a>(p: Paging<'a, '_>, f: Fill<'a>, item: ItemView<'a>, g: Fill<'a>)
    requires
        g.slices == f.slices,
        g.current == f.current.push(item),
    ensures
        placed_rows(g) == placed_rows(f) + new_rows_in(item),
        headed(p, f) && (f.slices.len() > 0 && f.current.len() == 0 ==> starts_with_header(
            p,
            g.current,
        )) ==> headed(p, g),
        headers_stand_once(p, f) && !(item is Header) && (is_below_header(p, item)
            || has_no_repeated_header(f.current)) ==> headers_stand_once(p, g),
        has_no_repeated_header(f.current) && !(item is Header) ==> has_no_repeated_header(
            g.current,
        ),
{
    assert(f.current.push(item).drop_last() =~= f.current);
    assert(placed_rows(g) =~= placed_rows(f) + new_rows_in(item));
    if f.current.len() > 0 {
        assert(g.current[0] == f.current[0]);
    }
    if has_no_repeated_header(f.current) && !(item is Header) {
        assert forall|i: int| #![trigger g.current[i]] 0 <= i < g.current.len() implies !(
        g.current[i] is Header) by {
            if i < f.current.len() {
                assert(g.current[i] == f.current[i]);
            }
        }
    }
    if headers_stand_once(p, f) && !(item is Header) && is_below_header(p, item) {
        assert forall|i: int, j: int| #![trigger g.current[i], g.current[j]] 0 <= i
            < g.current.len() && 0 <= j < g.current.len() && g.current[i] is Header implies i == 0
            && (j == 0 || match g.current[j] {
            ItemView::Range { start, end } => p.header_count <= start,
            ItemView::Header => false,
            _ => true,
        }) by {
            assert(g.current[i] == f.current[i]);
            if j < f.current.len() {
                assert(g.current[j] == f.current[j]);
            }
        }
    }
}

proof fn lemma_turned<'a>(p: Paging<'a, '_>, f: Fill<'a>, with_header: bool)
    ensures
        placed_rows(f.turned(p, with_header)) == placed_rows(f),
        headed(p, f) ==> headed(p, f.turned(p, with_header)),
        headers_stand_once(p, f) ==> headers_stand_once(p, f.turned(p, with_header)),
        with_header && p.header_count > 0 ==> starts_with_header(
            p,
            f.turned(p, with_header).current,
        ),
        !(with_header && p.header_count > 0) ==> f.turned(p, with_header).current.len() == 0,
{
    let g = f.turned(p, with_header);
    assert(f.slices.push(f.current).drop_last() =~= f.slices);
    if with_header && p.header_count > 0 {
        let item: ItemView<'a> = ItemView::Header;
        assert(g.current =~= Seq::<ItemView<'a>>::empty().push(item));
        assert(g.current.drop_last() =~= Seq::<ItemView<'a>>::empty());
        assert(new_rows(Seq::<ItemView<'a>>::empty()) =~= Seq::<int>::empty());
        assert(g.current[0] == item);
        assert(new_rows(g.current) =~= Seq::<int>::empty());
    }
    assert(placed_rows(g) =~= placed_rows(f));
    assert forall|i: int| #![trigger g.slices[i]] headed(p, f) && 0 < i < g.slices.len() implies
        g.slices[i].len() == 0 || starts_with_header(p, g.slices[i]) by {
        if i < f.slices.len() {
            assert(g.slices[i] == f.slices[i]);
        } else {
            assert(g.slices[i] == f.current);
        }
    }
    assert forall|i: int| #![trigger g.slices[i]] headers_stand_once(p, f) && 0 <= i
        < g.slices.len() implies header_stands_once(p, g.slices[i]) && (i == 0
        ==> has_no_repeated_header(g.slices[i])) by {
        if i < f.slices.len() {
            assert(g.slices[i] == f.slices[i]);
        } else {
            assert(g.slices[i] == f.current);
        }
    }
}

proof fn lemma_within_bounds(lines: Seq<CellLine>, k: int, budget: Pt)
    requires
        0 <= k <= lines.len(),
    ensures
        k <= lines_within(lines, k, budget) <= lines.len(),
    decreases lines.len() - k,
{
    if k < lines.len() && lines[k].bottom.units <= budget.units {
        lemma_within_bounds(lines, k + 1, budget);
    }
}

proof fn lemma_legal_bounds(lines: Seq<CellLine>, k: int)
    requires
        0 <= k <= lines.len(),
    ensures
        0 <= legal_cut(lines, k) <= k,
    decreases k,
{
    if k > 0 && k < lines.len() && !lines[k - 1].break_after {
        lemma_legal_bounds(lines, k - 1);
    }
}

pub(crate) proof fn lemma_cell_cut_bounds(
    measured: MeasuredRowView<'_>,
    row: TableRowInput,
    c: int,
    available: Pt,
)
    ensures
        0 <= cell_cut(measured, row, c, available) <= measured.entries[c].layout.lines.len(),
{
    let lines = measured.entries[c].layout.lines;
    let budget = available.minus(measured.leading_gap).minus(row.cells@[c].margins.vertical());
    lemma_within_bounds(lines, 0, budget);
    lemma_legal_bounds(lines, lines_within(lines, 0, budget));
}

proof fn lemma_notes_split<'a>(
    footnotes: Seq<CellFootnote<'a>>,
    k: int,
    f: int,
    above: Seq<CellFootnote<'a>>,
    below: Seq<CellFootnote<'a>>,
)
    requires
        0 <= f <= footnotes.len(),
    ensures
        notes_above(footnotes, k, f, above).len() + notes_below(footnotes, k, f, below).len()
            == above.len() + below.len() + footnotes.len() - f,
    decreases footnotes.len() - f,
{
    if f < footnotes.len() {
        if footnotes[f].line < k {
            lemma_notes_split(footnotes, k, f + 1, above.push(footnotes[f]), below);
        } else {
            let moved = CellFootnote { line: (footnotes[f].line - k) as usize, ..footnotes[f] };
            lemma_notes_split(footnotes, k, f + 1, above, below.push(moved));
        }
    }
}

/// Dividing a cell's content loses nothing and repeats nothing: every line, every
/// command and every footnote stands in one of the two parts.
pub proof fn law_divided_content_is_complete(layout: CellLayoutView<'_>, k: int)
    requires
        0 <= k <= layout.lines.len(),
        crate::table::cell::cell_consistent(layout.commands, layout.lines, layout.footnotes),
    ensures
        ({
            let above = content_above(layout, k);
            let below = content_below(layout, k);
            &&& above.lines.len() + below.lines.len() == layout.lines.len()
            &&& above.commands.len() + below.commands.len() == layout.commands.len()
            &&& above.footnotes.len() + below.footnotes.len() == layout.footnotes.len()
            &&& forall|i: int| #![trigger above.lines[i]]
                0 <= i < k ==> above.lines[i] == layout.lines[i]
            &&& forall|i: int| #![trigger above.commands[i]]
                0 <= i < above.commands.len() ==> above.commands[i] == layout.commands[i]
        }),
{
    lemma_notes_split(layout.footnotes, k, 0, Seq::empty(), Seq::empty());
    if k > 0 {
        let last = layout.lines[k - 1];
    }
}

proof fn lemma_split_lines(
    whole: Seq<EntryView<'_>>,
    above: Seq<EntryView<'_>>,
    below: Seq<EntryView<'_>>,
    c: int,
)
    requires
        0 <= c <= whole.len() == above.len() == below.len(),
        forall|i: int| #![trigger whole[i]]
            0 <= i < whole.len() ==> above[i].layout.lines.len() + below[i].layout.lines.len()
                == whole[i].layout.lines.len(),
    ensures
        lines_before(above, c) + lines_before(below, c) == lines_before(whole, c),
    decreases c,
{
    if c > 0 {
        lemma_split_lines(whole, above, below, c - 1);
        assert(above[c - 1].layout.lines.len() + below[c - 1].layout.lines.len() == whole[c
            - 1].layout.lines.len());
    }
}

pub(crate) proof fn lemma_split_within_lines<'a>(
    measured: MeasuredRowView<'a>,
    row: TableRowInput,
    available: Pt,
    page_has_footnotes: bool,
    separator_height: Pt,
    budget: Pt,
)
    ensures
        split_within(
            measured,
            row,
            available,
            page_has_footnotes,
            separator_height,
            budget,
        ) matches Some((first, second)) ==> row_lines(first) + row_lines(second) == row_lines(
            measured,
        ) && row_lines(second) < row_lines(measured),
    decreases budget.units - i64::MIN,
{
    if can_cut(measured, row, budget) {
        let cuts = row_cut(measured, row, budget);
        let first = row_above(measured, row, cuts);
        let second = row_below(measured, row, cuts);
        let note_cost = footnote_page_cost(
            row_note_height(first),
            page_has_footnotes,
            separator_height,
        );
        let reduced = available.minus(note_cost).max(Pt::zero());
        if first.height.plus(note_cost).units <= available.units {
            assert forall|i: int| #![trigger measured.entries[i]] 0 <= i < measured.entries.len()
                implies first.entries[i].layout.lines.len() + second.entries[i].layout.lines.len()
                == measured.entries[i].layout.lines.len() by {
                lemma_cell_cut_bounds(measured, row, i, budget);
            }
            lemma_split_lines(
                measured.entries,
                first.entries,
                second.entries,
                measured.entries.len() as int,
            );
            let witness = choose|c: int|
                #![trigger measured.entries[c]]
                0 <= c < measured.entries.len() && cell_cut(measured, row, c, budget)
                    < measured.entries[c].layout.lines.len();
            lemma_cell_cut_bounds(measured, row, witness, budget);
            assert(cell_cut(measured, row, witness, budget) > 0);
            lemma_some_lines(first.entries, first.entries.len() as int, witness);
        } else if reduced.units < budget.units {
            lemma_split_within_lines(
                measured,
                row,
                available,
                page_has_footnotes,
                separator_height,
                reduced,
            );
        }
    }
}

proof fn lemma_some_lines(entries: Seq<EntryView<'_>>, c: int, witness: int)
    requires
        0 <= witness < c <= entries.len(),
        entries[witness].layout.lines.len() > 0,
    ensures
        lines_before(entries, c) > 0,
    decreases c,
{
    if witness < c - 1 {
        lemma_some_lines(entries, c - 1, witness);
    }
}

proof fn lemma_with_rest<'a>(
    p: Paging<'a, '_>,
    f: Fill<'a>,
    row: int,
    pending: MeasuredRowView<'a>,
)
    requires
        headers_stand_once(p, f),
    ensures
        placed_rows(f.with_rest(p, row, pending)) == placed_rows(f),
        headers_stand_once(p, f.with_rest(p, row, pending)),
        p.header_count > 0 && headed(p, f) && starts_with_header(p, f.current) ==> headed(
            p,
            f.with_rest(p, row, pending),
        ),
    decreases row_lines(pending),
{
    let notes = row_note_height(pending);
    let item = ItemView::Continuation { row, part: pending };
    if f.fits(pending.height, notes, p.separator) {
        let g = f.with_sized_item(item, pending.height, notes, p.separator);
        lemma_with_item(p, f, item, g);
        assert(placed_rows(g) =~= placed_rows(f));
    } else {
        lemma_split_within_lines(
            pending,
            p.rows[row],
            f.remaining,
            f.has_notes,
            p.separator,
            f.remaining,
        );
        match split_within(
            pending,
            p.rows[row],
            f.remaining,
            f.has_notes,
            p.separator,
            f.remaining,
        ) {
            Some((first, second)) => {
                let part = ItemView::Continuation { row, part: first };
                let g = f.with_item(part);
                lemma_with_item(p, f, part, g);
                assert(placed_rows(g) =~= placed_rows(f));
                lemma_turned(p, g, true);
                lemma_with_rest(p, g.turned(p, true), row, second);
            },
            None => {
                let g = f.with_item(item);
                lemma_with_item(p, f, item, g);
                assert(placed_rows(g) =~= placed_rows(f));
            },
        }
    }
}

/// What the first row to be placed next is: all rows before it have been placed, and while it is one of
/// the header, the header has not been drawn again.
pub open spec fn is_next(p: Paging<'_, '_>, f: Fill<'_>, row: int) -> bool {
    &&& placed_rows(f) == row_span(0, row)
    &&& headers_stand_once(p, f)
    &&& row < p.header_count ==> has_no_repeated_header(f.current)
}

proof fn lemma_with_group<'a>(p: Paging<'a, '_>, f: Fill<'a>, g: RowGroup)
    requires
        is_next(p, f, g.start as int),
        g.start <= g.end,
        g.end < p.header_count ==> g.start < p.header_count,
    ensures
        is_next(p, f.with_group(p, g), g.end as int),
        headed(p, f) && (f.slices.len() > 0 && f.current.len() == 0 ==> g.start < p.header_count)
            ==> headed(p, f.with_group(p, g)),
{
    let item = ItemView::Range { start: g.start as int, end: g.end as int };
    lemma_with_item(p, f, item, f.with_group(p, g));
    lemma_row_spans_join(0, g.start as int, g.end as int);
    if f.current.len() == 0 {
        assert(f.with_group(p, g).current[0] == item);
    }
}

/// Items that draw rows of the header alone draw no other rows.
proof fn lemma_header_ranges<'a>(p: Paging<'a, '_>, items: Seq<ItemView<'a>>, k: int)
    requires
        forall|i: int| #![trigger items[i]]
            0 <= i < items.len() ==> match items[i] {
                ItemView::Range { start, end } => end <= p.header_count,
                _ => false,
            },
        0 <= k < new_rows(items).len(),
    ensures
        new_rows(items)[k] < p.header_count,
    decreases items.len(),
{
    if items.len() > 0 {
        let rest = items.drop_last();
        assert forall|i: int| #![trigger rest[i]] 0 <= i < rest.len() implies match rest[i] {
            ItemView::Range { start, end } => end <= p.header_count,
            _ => false,
        } by {
            assert(rest[i] == items[i]);
        }
        let last = items[items.len() - 1];
        if k < new_rows(rest).len() {
            lemma_header_ranges(p, rest, k);
        }
    }
}

/// Where the header alone has been placed, the row to be placed next is the first one below it.
pub(crate) proof fn lemma_only_headers<'a>(p: Paging<'a, '_>, f: Fill<'a>, row: int)
    requires
        placed_rows(f) == row_span(0, row),
        f.holds_only_movable_headers(p),
        p.header_count <= row,
    ensures
        row == p.header_count,
        new_rows(f.current) == row_span(0, row),
{
    assert(all_new_rows(f.slices) =~= Seq::<int>::empty());
    assert(placed_rows(f) =~= new_rows(f.current));
    if row > p.header_count {
        assert(row_span(0, row)[row - 1] == row - 1);
        lemma_header_ranges(p, f.current, row - 1);
    }
}

proof fn lemma_moved_header<'a>(p: Paging<'a, '_>, f: Fill<'a>)
    requires
        f.slices.len() == 0,
        p.header_count > 0,
    ensures
        is_next(p, f.with_moved_header(p), p.header_count),
        headed(p, f.with_moved_header(p)),
        starts_with_header(p, f.with_moved_header(p).current),
{
    let left = Fill { current: Seq::<ItemView<'a>>::empty(), ..f };
    assert(placed_rows(left) =~= Seq::<int>::empty());
    lemma_turned(p, left, false);
    let item = ItemView::Range { start: 0, end: p.header_count };
    let next = f.with_moved_header(p);
    lemma_with_item(p, left.turned(p, false), item, next);
    assert(next.current[0] == item);
    assert(placed_rows(next) =~= row_span(0, p.header_count));
}

proof fn lemma_moved_group<'a>(p: Paging<'a, '_>, f: Fill<'a>, g: RowGroup)
    requires
        is_next(p, f, g.start as int),
        g.start <= g.end,
        g.end < p.header_count ==> g.start < p.header_count,
    ensures
        is_next(p, f.with_moved_group(p, g), g.end as int),
        p.header_count > 0 && headed(p, f) && (f.slices.len() > 0 && f.current.len() == 0
            ==> g.start < p.header_count) ==> headed(p, f.with_moved_group(p, g)),
{
    let is_header = g.start < p.header_count;
    let next_height = p.heights.height((f.slices.len() as usize).saturating_add(1) as int);
    let next_remaining = if !is_header && p.header_count > 0 {
        next_height.minus(p.header_height())
    } else {
        next_height
    };
    if next_remaining.units > f.remaining.units {
        let notes = p.notes(g.start as int, g.end as int);
        let orphaned = !is_header && f.holds_only_movable_headers(p) && g.height.plus(
            footnote_page_cost(notes, false, p.separator),
        ).units <= next_remaining.units;
        if orphaned {
            lemma_only_headers(p, f, g.start as int);
            lemma_moved_header(p, f);
            lemma_with_group(p, f.with_moved_header(p), g);
        } else {
            lemma_turned(p, f, !is_header);
            lemma_with_group(p, f.turned(p, !is_header), g);
        }
    } else {
        lemma_with_group(p, f, g);
    }
}

/// What placing a group adds: its rows, up to the one to go on with.
pub(crate) proof fn lemma_placed_group<'a>(p: Paging<'a, '_>, f: Fill<'a>, g: RowGroup)
    requires
        p.header_count >= 0,
        g.start < g.end <= p.measured.len(),
        is_next(p, f, g.start as int),
    ensures
        ({
            let (next, next_row) = placed_group(f, p, g);
            &&& g.start < next_row <= g.end
            &&& is_next(p, next, next_row)
            &&& p.header_count > 0 && headed(p, f) && (f.slices.len() > 0 && f.current.len() == 0
                ==> g.start < p.header_count) ==> headed(p, next)
            &&& next.current.len() > 0
        }),
{
    let start = g.start as int;
    let end = g.end as int;
    let first = p.single(start);
    if f.fits(g.height, p.notes(start, end), p.separator) {
        lemma_with_group(p, f, g);
    } else if crate::table::paginate::first_row_may_stay(p, g) && f.fits(
        first.height,
        row_note_height(p.measured[start]),
        p.separator,
    ) {
        let item = ItemView::Range { start, end: start + 1 };
        let next = f.with_sized_item(
            item,
            first.height,
            row_note_height(p.measured[start]),
            p.separator,
        );
        lemma_with_item(p, f, item, next);
        lemma_row_spans_join(0, start, start + 1);
        if f.current.len() == 0 {
            assert(next.current[0] == item);
        }
    } else if start >= p.header_count && g.splittable && end - start == 1 {
        match split_within(
            p.measured[start],
            p.rows[start],
            f.remaining,
            f.has_notes,
            p.separator,
            f.remaining,
        ) {
            Some((above, below)) => {
                let item = ItemView::Split { row: start, part: above };
                let with = f.with_item(item);
                lemma_with_item(p, f, item, with);
                lemma_turned(p, with, true);
                let turned = with.turned(p, true);
                lemma_with_rest(p, turned, start, below);
                lemma_rest_is_drawn(p, turned, start, below);
                assert(seq![start] =~= row_span(start, end));
                lemma_row_spans_join(0, start, end);
            },
            None => {
                lemma_moved_group(p, f, g);
            },
        }
    } else {
        lemma_moved_group(p, f, g);
    }
}

proof fn lemma_rest_is_drawn<'a>(
    p: Paging<'a, '_>,
    f: Fill<'a>,
    row: int,
    pending: MeasuredRowView<'a>,
)
    ensures
        f.with_rest(p, row, pending).current.len() > 0,
    decreases row_lines(pending),
{
    if !f.fits(pending.height, row_note_height(pending), p.separator) {
        lemma_split_within_lines(
            pending,
            p.rows[row],
            f.remaining,
            f.has_notes,
            p.separator,
            f.remaining,
        );
        if let Some((first, second)) = split_within(
            pending,
            p.rows[row],
            f.remaining,
            f.has_notes,
            p.separator,
            f.remaining,
        ) {
            lemma_rest_is_drawn(
                p,
                f.with_item(ItemView::Continuation { row, part: first }).turned(p, true),
                row,
                second,
            );
        }
    }
}

proof fn lemma_row_spans_join(a: int, b: int, c: int)
    requires
        a <= b <= c,
    ensures
        row_span(a, b) + row_span(b, c) == row_span(a, c),
{
    assert(row_span(a, b) + row_span(b, c) =~= row_span(a, c));
}

proof fn lemma_placed_groups<'a>(
    p: Paging<'a, '_>,
    f: Fill<'a>,
    groups: Seq<RowGroup>,
    k: int,
    row: int,
)
    requires
        0 <= p.header_count <= p.measured.len(),
        groups_cover(groups, p.measured.len() as int),
        p.measured.len() <= usize::MAX,
        0 <= k <= groups.len(),
        k < groups.len() ==> groups[k].start <= row < groups[k].end,
        is_next(
            p,
            f,
            if k < groups.len() {
                row
            } else {
                p.measured.len() as int
            },
        ),
        p.header_count > 0 ==> headed(p, f),
        f.slices.len() > 0 ==> f.current.len() > 0,
    ensures
        ({
            let done = placed_groups(f, p, groups, k, row);
            &&& is_next(p, done, p.measured.len() as int)
            &&& p.header_count > 0 ==> headed(p, done)
        }),
    decreases
            groups.len() - k,
            if k < groups.len() {
                groups[k].end - row
            } else {
                0
            },
{
    if k < groups.len() {
        let whole = groups[k];
        let g = if row <= whole.start {
            whole
        } else {
            p.single(row)
        };
        let (next, next_row) = placed_group(f, p, g);
        assert(g.start == row);
        lemma_placed_group(p, f, g);
        if row < next_row < whole.end {
            lemma_placed_groups(p, next, groups, k, next_row);
        } else {
            let next_start = if k + 1 < groups.len() {
                groups[k + 1].start as int
            } else {
                0
            };
            assert(next_row == whole.end);
            if k + 1 < groups.len() {
                assert(groups[k].end == groups[k + 1].start);
            }
            lemma_placed_groups(p, next, groups, k + 1, next_start);
        }
    }
}

pub(crate) proof fn lemma_paging_groups_cover(
    p: Paging<'_, '_>,
    groups: Seq<RowGroup>,
    k: int,
    acc: Seq<RowGroup>,
)
    requires
        0 <= k <= groups.len(),
        groups_cover(groups, p.rows.len() as int),
        p.rows.len() <= usize::MAX,
        groups_cover(
            acc,
            if k == 0 {
                0
            } else {
                groups[k - 1].end as int
            },
        ),
    ensures
        groups_cover(paging_groups_from(p, groups, k, acc), p.rows.len() as int),
    decreases groups.len() - k,
{
    if k < groups.len() {
        let g = groups[k];
        if k > 0 {
            assert(groups[k - 1].end == groups[k].start);
        }
        let capacity = if g.start >= p.header_count {
            p.heights.height(1).minus(p.header_height())
        } else {
            p.heights.height(1)
        };
        if g.end - g.start > 1 && g.height.units > capacity.units {
            let singles = single_rows(p.measured, g);
            let next = acc + singles;
            assert forall|i: int| #![trigger next[i]] 0 <= i < next.len() implies next[i].start
                < next[i].end <= g.end by {
                if i >= acc.len() {
                    assert(next[i] == singles[i - acc.len()]);
                } else {
                    assert(next[i] == acc[i]);
                }
            }
            assert forall|i: int, j: int| #![trigger next[i], next[j]] 0 <= i && j == i + 1 && j
                < next.len() implies next[i].end == next[j].start by {
                if j < acc.len() {
                    assert(next[i] == acc[i] && next[j] == acc[j]);
                } else {
                    assert(next[j] == singles[j - acc.len()]);
                    if i >= acc.len() {
                        assert(next[i] == singles[i - acc.len()]);
                    } else {
                        assert(next[i] == acc[acc.len() - 1]);
                    }
                }
            }
            assert(next[next.len() - 1] == singles[singles.len() - 1]);
            if acc.len() == 0 {
                assert(next[0] == singles[0]);
            } else {
                assert(next[0] == acc[0]);
            }
            assert(groups_cover(next, g.end as int));
            lemma_paging_groups_cover(p, groups, k + 1, next);
        } else {
            let next = acc.push(g);
            assert(groups_cover(next, g.end as int));
            lemma_paging_groups_cover(p, groups, k + 1, next);
        }
    } else if k > 0 {
        assert(groups[k - 1].end == p.rows.len());
    }
}

/// A table that is divided between pages draws every row for the first time just once, in order,
/// whatever the heights of the pages are.
pub proof fn law_every_row_is_drawn_once(
    p: Paging<'_, '_>,
    available_height: Pt,
    first_page_has_footnotes: bool,
)
    requires
        p.rows.len() == p.measured.len(),
        p.rows.len() <= usize::MAX,
        0 <= p.header_count <= p.rows.len(),
    ensures
        all_new_rows(table_slices(p, available_height, first_page_has_footnotes)) == row_span(
            0,
            p.rows.len() as int,
        ),
{
    lemma_table_slices(p, available_height, first_page_has_footnotes);
}

/// Where a table has header rows, every part but the first that draws anything
/// starts with a header row.
pub proof fn law_header_rows_are_repeated(
    p: Paging<'_, '_>,
    available_height: Pt,
    first_page_has_footnotes: bool,
    i: int,
)
    requires
        p.rows.len() == p.measured.len(),
        p.rows.len() <= usize::MAX,
        0 < p.header_count <= p.rows.len(),
        0 < i < table_slices(p, available_height, first_page_has_footnotes).len(),
    ensures
        ({
            let part = table_slices(p, available_height, first_page_has_footnotes)[i];
            part.len() == 0 || starts_with_header(p, part)
        }),
{
    lemma_table_slices(p, available_height, first_page_has_footnotes);
}

/// A part draws its header rows once: where it repeats the header, it does so at its start and draws no
/// other header row, and the first part does not repeat it.
pub proof fn law_header_rows_stand_once_on_a_page(
    p: Paging<'_, '_>,
    available_height: Pt,
    first_page_has_footnotes: bool,
    i: int,
)
    requires
        p.rows.len() == p.measured.len(),
        p.rows.len() <= usize::MAX,
        0 <= p.header_count <= p.rows.len(),
        0 <= i < table_slices(p, available_height, first_page_has_footnotes).len(),
    ensures
        ({
            let part = table_slices(p, available_height, first_page_has_footnotes)[i];
            header_stands_once(p, part) && (i == 0 ==> has_no_repeated_header(part))
        }),
{
    lemma_table_slices(p, available_height, first_page_has_footnotes);
}

proof fn lemma_table_slices(
    p: Paging<'_, '_>,
    available_height: Pt,
    first_page_has_footnotes: bool,
)
    requires
        p.rows.len() == p.measured.len(),
        p.rows.len() <= usize::MAX,
        0 <= p.header_count <= p.rows.len(),
    ensures
        ({
            let slices = table_slices(p, available_height, first_page_has_footnotes);
            &&& all_new_rows(slices) == row_span(0, p.rows.len() as int)
            &&& p.header_count > 0 ==> forall|i: int| #![trigger slices[i]]
                0 < i < slices.len() ==> slices[i].len() == 0 || starts_with_header(p, slices[i])
            &&& forall|i: int| #![trigger slices[i]]
                0 <= i < slices.len() ==> header_stands_once(p, slices[i]) && (i == 0
                    ==> has_no_repeated_header(slices[i]))
        }),
{
    let groups = paging_groups(p);
    law_row_groups_partition_the_rows(p.rows, p.measured);
    lemma_paging_groups_cover(p, row_groups(p.rows, p.measured), 0, Seq::empty());
    let start = Fill {
        slices: Seq::empty(),
        current: Seq::empty(),
        remaining: available_height,
        has_notes: first_page_has_footnotes,
    };
    assert(placed_rows(start) =~= row_span(0, 0));
    lemma_placed_groups(p, start, groups, 0, 0);
    let done = placed_groups(start, p, groups, 0, 0);
    let slices = done.slices.push(done.current);
    assert(slices.drop_last() =~= done.slices);
    assert forall|i: int| #![trigger slices[i]] 0 <= i < slices.len() implies (p.header_count > 0
        && i > 0 ==> slices[i].len() == 0 || starts_with_header(p, slices[i]))
        && header_stands_once(p, slices[i]) && (i == 0 ==> has_no_repeated_header(slices[i])) by {
        if i < done.slices.len() {
            assert(slices[i] == done.slices[i]);
        } else {
            assert(slices[i] == done.current);
        }
    }
}

} // verus!
