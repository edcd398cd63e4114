//! How rows are given room on pages.
use crate::block::TableRowInput;
use crate::dimension::Pt;
use crate::note_laws::is_length;
use crate::page::HeaderFooterClearance;
use crate::table::fits::heights_sum;
use crate::table::footnotes::{footnote_page_cost, row_note_height};
use crate::table::grid::RowGroup;
use crate::table::paginate::{placed_group, Fill, ItemView, PageHeights, Paging};
use crate::table::places::lemma_next_row;
use crate::table::split::{can_cut, row_above, row_cut, row_lines, split_within};
use crate::table::types::{rows_height, MeasuredRowView};
use vstd::prelude::*;

verus! {

/// The room that footnotes take on a page: their height, and that of the separator above them where
/// they are the first on the page.
pub open spec fn room_of_notes(notes: int, has_notes: bool, separator: int) -> int {
    if notes <= 0 {
        0
    } else if has_notes {
        notes
    } else {
        notes + separator
    }
}

/// Footnotes take no room where there are none, and else their height; the first ones on a page take
/// that of the separator as well.
pub proof fn law_first_notes_bring_the_separator(notes: Pt, has_notes: bool, separator: Pt)
    requires
        is_length(notes.units + separator.units),
    ensures
        footnote_page_cost(notes, has_notes, separator).units == room_of_notes(
            notes.units as int,
            has_notes,
            separator.units as int,
        ),
{
}

/// Whether what a group takes on a page can be measured.
pub open spec fn group_has_room(f: Fill<'_>, p: Paging<'_, '_>, g: RowGroup) -> bool {
    let notes = p.notes(g.start as int, g.end as int).units;
    let first = row_note_height(p.measured[g.start as int]).units;
    let height = p.measured[g.start as int].full_height().units;
    &&& is_length(notes + p.separator.units)
    &&& is_length(first + p.separator.units)
    &&& is_length(g.height.units + room_of_notes(notes as int, f.has_notes, p.separator.units as int))
    &&& is_length(height + room_of_notes(first as int, f.has_notes, p.separator.units as int))
    &&& is_length(
        f.remaining.units - g.height.units - room_of_notes(
            notes as int,
            f.has_notes,
            p.separator.units as int,
        ),
    )
}

/// A group of rows is placed on the page where it fits into the room that is left, with its
/// footnotes, and takes that room. Where it does not, none of it stays on the page but its first row,
/// if that fits, or the upper part of a divided row; unless the next page offers no more room than
/// this one.
pub proof fn law_groups_stay_where_they_fit<'a>(f: Fill<'a>, p: Paging<'a, '_>, g: RowGroup)
    requires
        g.start < g.end,
        f.slices.len() < usize::MAX,
        group_has_room(f, p, g),
        is_length(
            p.heights.height(f.slices.len() as int + 1).units - p.header_height().units,
        ),
    ensures
        ({
            let (next, row) = placed_group(f, p, g);
            let notes = p.notes(g.start as int, g.end as int).units;
            let needed = g.height.units + room_of_notes(
                notes as int,
                f.has_notes,
                p.separator.units as int,
            );
            let whole = ItemView::Range { start: g.start as int, end: g.end as int };
            let one: ItemView<'a> = ItemView::Range { start: g.start as int, end: g.start + 1 };
            let first = p.measured[g.start as int].full_height().units + room_of_notes(
                row_note_height(p.measured[g.start as int]).units as int,
                f.has_notes,
                p.separator.units as int,
            );
            &&& needed <= f.remaining.units ==> {
                &&& row == g.end
                &&& next.slices == f.slices
                &&& next.current == f.current.push(whole)
                &&& next.remaining.units == f.remaining.units - needed
                &&& next.has_notes == (f.has_notes || notes > 0)
            }
            &&& needed > f.remaining.units && next.slices.len() == f.slices.len() ==> {
                ||| row == g.start + 1 && next.current == f.current.push(one) && first
                    <= f.remaining.units
                ||| row == g.end && next.current == f.current.push(whole) && p.heights.height(
                    f.slices.len() as int + 1,
                ).units - (if g.start < p.header_count || p.header_count <= 0 {
                    0
                } else {
                    p.header_height().units as int
                }) <= f.remaining.units
            }
        }),
{
    law_first_notes_bring_the_separator(
        p.notes(g.start as int, g.end as int),
        f.has_notes,
        p.separator,
    );
    law_first_notes_bring_the_separator(
        row_note_height(p.measured[g.start as int]),
        f.has_notes,
        p.separator,
    );
    let start = g.start as int;
    if let Some((above, below)) = split_within(
        p.measured[start],
        p.rows[start],
        f.remaining,
        f.has_notes,
        p.separator,
        f.remaining,
    ) {
        lemma_pages_stay(
            f.with_item(ItemView::Split { row: start, part: above }).turned(p, true),
            p,
            start,
            below,
        );
    }
}

proof fn lemma_pages_stay<'a>(
    f: Fill<'a>,
    p: Paging<'a, '_>,
    row: int,
    pending: MeasuredRowView<'a>,
)
    ensures
        f.slices.len() <= f.with_rest(p, row, pending).slices.len(),
    decreases row_lines(pending),
{
    if !f.fits(pending.height, row_note_height(pending), p.separator) {
        if let Some((first, second)) = split_within(
            pending,
            p.rows[row],
            f.remaining,
            f.has_notes,
            p.separator,
            f.remaining,
        ) {
            if row_lines(second) < row_lines(pending) {
                lemma_pages_stay(
                    f.with_item(ItemView::Continuation { row, part: first }).turned(p, true),
                    p,
                    row,
                    second,
                );
            }
        }
    }
}

/// A new page offers its whole height, less that of the repeated rows where these stand on it first.
pub proof fn law_new_pages_offer_their_height<'a>(f: Fill<'a>, p: Paging<'a, '_>, with_header: bool)
    requires
        0 <= p.header_count <= p.measured.len(),
        forall|b: int| #![trigger heights_sum(p.measured, 0, b)]
            0 <= b <= p.header_count ==> is_length(heights_sum(p.measured, 0, b)),
        is_length(
            p.heights.height(f.slices.len() as int + 1).units - heights_sum(
                p.measured,
                0,
                p.header_count,
            ),
        ),
    ensures
        ({
            let next = f.turned(p, with_header);
            let repeated = with_header && p.header_count > 0;
            &&& next.slices == f.slices.push(f.current)
            &&& !next.has_notes
            &&& repeated ==> next.current.len() == 1 && next.current[0] is Header
            &&& !repeated ==> next.current.len() == 0
            &&& next.remaining.units == p.heights.height(f.slices.len() as int + 1).units - if repeated {
                heights_sum(p.measured, 0, p.header_count)
            } else {
                0
            }
        }),
{
    lemma_height_of_rows(p.measured, 0, p.header_count, Pt::zero());
}

proof fn lemma_height_of_rows(measured: Seq<MeasuredRowView<'_>>, a: int, b: int, acc: Pt)
    requires
        0 <= a <= b <= measured.len(),
        acc.units == heights_sum(measured, 0, a),
        forall|k: int| #![trigger heights_sum(measured, 0, k)]
            0 <= k <= b ==> is_length(heights_sum(measured, 0, k)),
    ensures
        rows_height(measured, a, b, acc).units == heights_sum(measured, 0, b),
    decreases b - a,
{
    if a < b {
        lemma_next_row(measured, 0, a);
        assert(is_length(heights_sum(measured, 0, a + 1)));
        lemma_height_of_rows(measured, a + 1, b, acc.plus(measured[a].full_height()));
    }
}

/// The upper part of a divided row fits into the room that is left on its page, with the footnotes
/// that it refers to.
pub proof fn law_upper_parts_fit<'a>(
    measured: MeasuredRowView<'a>,
    row: TableRowInput,
    available: Pt,
    has_notes: bool,
    separator: Pt,
    budget: Pt,
)
    ensures
        match split_within(measured, row, available, has_notes, separator, budget) {
            Some((first, second)) => {
                let notes = row_note_height(first).units;
                let needed = first.height.units + room_of_notes(
                    notes as int,
                    has_notes,
                    separator.units as int,
                );
                is_length(notes + separator.units) && is_length(needed) ==> needed
                    <= available.units
            },
            None => true,
        },
    decreases budget.units - i64::MIN,
{
    if can_cut(measured, row, budget) {
        let first = row_above(measured, row, row_cut(measured, row, budget));
        let cost = footnote_page_cost(row_note_height(first), has_notes, separator);
        let reduced = available.minus(cost).max(Pt::zero());
        if first.height.plus(cost).units > available.units && reduced.units < budget.units {
            law_upper_parts_fit(measured, row, available, has_notes, separator, reduced);
        }
    }
}

/// The height that a page of a section offers to a part of a table is that of the page's body. The
/// parts take the places of a page one after another, and then those of the next page.
pub proof fn law_parts_take_the_places_of_a_page(
    clearance: HeaderFooterClearance,
    first_page: usize,
    first_slot: usize,
    slots_per_page: usize,
    slice: int,
) -> (page: int)
    requires
        0 <= slice,
        0 < slots_per_page,
        first_slot + slice <= usize::MAX,
        first_page + first_slot + slice <= usize::MAX,
    ensures
        page * slots_per_page <= first_slot + slice < (page + 1) * slots_per_page,
        ({
            let body = clearance.for_page((first_page + page) as usize);
            let h = (PageHeights::Section { clearance, first_page, first_slot, slots_per_page }).height(
                slice,
            ).units;
            &&& h >= 0
            &&& is_length(body.bottom.units - body.top.units) ==> h == if body.top.units
                <= body.bottom.units {
                body.bottom.units - body.top.units
            } else {
                0
            }
        }),
{
    let slot = first_slot + slice;
    let n = slots_per_page as int;
    let page = slot / n;
    vstd::arithmetic::div_mod::lemma_fundamental_div_mod(slot, n);
    assert(page * n <= slot < (page + 1) * n) by (nonlinear_arith)
        requires
            slot == n * page + slot % n,
            0 <= slot % n < n,
    ;
    assert(0 <= page <= slot) by (nonlinear_arith)
        requires
            page * n <= slot < (page + 1) * n,
            n > 0,
            slot >= 0,
    ;
    page
}

} // verus!
