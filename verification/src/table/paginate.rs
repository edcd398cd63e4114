//! Dividing a table between pages.
use crate::block::TableRowInput;
use crate::dimension::Pt;
use crate::page::HeaderFooterClearance;
use crate::table::footnotes::{
    footnote_page_cost, measured_range_footnote_height, measured_row_footnote_height,
    range_note_height, row_note_height,
};
use crate::table::grid::{build_row_groups, groups_cover, row_groups, RowGroup};
use crate::table::measure::{row_is_sound, table_consistent};
use crate::table::split::{row_lines, split_row_with_footnote_budget, split_within};
use crate::table::types::{rows_height, rows_view, MeasuredRow, MeasuredRowView};
use vstd::prelude::*;

verus! {

/// The heights of the pages that a table may go on to.
#[derive(Clone, Copy, Debug)]
pub enum PageHeights<'h> {
    /// All pages have the same height.
    Uniform(Pt),
    /// A height for each of the first pages, and one for those after them.
    Listed { heights: &'h [Pt], rest: Pt },
    /// The pages of a section, of which each offers `slots_per_page` places for a
    /// part of the table.
    Section {
        clearance: HeaderFooterClearance,
        first_page: usize,
        first_slot: usize,
        slots_per_page: usize,
    },
}

impl<'h> PageHeights<'h> {
    /// The height for part `slice` of a table.
    pub open spec fn height(self, slice: int) -> Pt {
        match self {
            PageHeights::Uniform(h) => h,
            PageHeights::Listed { heights, rest } => if 0 <= slice < heights@.len() {
                heights@[slice]
            } else {
                rest
            },
            PageHeights::Section { clearance, first_page, first_slot, slots_per_page } => {
                let slot = first_slot.saturating_add(slice as usize);
                let page = if slots_per_page > 0 {
                    slot / slots_per_page
                } else {
                    slot
                };
                clearance.for_page(first_page.saturating_add(page)).height()
            },
        }
    }

    /// The height for part `slice` of a table.
    pub fn height_for_slice(&self, slice: usize) -> (r: Pt)
        ensures
            r == self.height(slice as int),
    {
        match *self {
            PageHeights::Uniform(h) => h,
            PageHeights::Listed { heights, rest } => if slice < heights.len() {
                heights[slice]
            } else {
                rest
            },
            PageHeights::Section { clearance, first_page, first_slot, slots_per_page } => {
                let slot: usize = first_slot.saturating_add(slice);
                let page: usize = if slots_per_page > 0 {
                    slot / slots_per_page
                } else {
                    slot
                };
                clearance.for_page(first_page.saturating_add(page)).height()
            },
        }
    }
}

/// One thing that a part of a table draws.
#[derive(Debug)]
pub enum SliceItem<'a> {
    /// The rows `start..end`.
    Range { start: usize, end: usize },
    /// The header rows, drawn once more at the top of a page.
    Header,
    /// The upper part of a row, at the bottom of a page.
    Split { row_idx: usize, mr: MeasuredRow<'a> },
    /// A further part of a row, at the top of a page.
    Continuation { row_idx: usize, mr: MeasuredRow<'a> },
}

/// The mathematical value of a [`SliceItem`].
pub enum ItemView<'a> {
    Range { start: int, end: int },
    Header,
    Split { row: int, part: MeasuredRowView<'a> },
    Continuation { row: int, part: MeasuredRowView<'a> },
}

impl<'a> View for SliceItem<'a> {
    type V = ItemView<'a>;

    open spec fn view(&self) -> ItemView<'a> {
        match *self {
            SliceItem::Range { start, end } => ItemView::Range {
                start: start as int,
                end: end as int,
            },
            SliceItem::Header => ItemView::Header,
            SliceItem::Split { row_idx, mr } => ItemView::Split { row: row_idx as int, part: mr@ },
            SliceItem::Continuation { row_idx, mr } => ItemView::Continuation {
                row: row_idx as int,
                part: mr@,
            },
        }
    }
}

/// The values of a part's items.
pub open spec fn items_view<'a>(items: Seq<SliceItem<'a>>) -> Seq<ItemView<'a>> {
    Seq::new(items.len(), |i: int| items[i]@)
}

/// The values of the items of all parts.
pub open spec fn slices_view<'a>(slices: Seq<Vec<SliceItem<'a>>>) -> Seq<Seq<ItemView<'a>>> {
    Seq::new(slices.len(), |i: int| items_view(slices[i]@))
}

/// A table that is divided between pages.
pub struct Paging<'a, 'h> {
    pub rows: Seq<TableRowInput>,
    pub measured: Seq<MeasuredRowView<'a>>,
    /// The number of rows at the top that are repeated on each page.
    pub header_count: int,
    pub heights: PageHeights<'h>,
    /// The height of the separator above a page's footnotes.
    pub separator: Pt,
}

impl<'a, 'h> Paging<'a, 'h> {
    /// The height of the repeated rows.
    pub open spec fn header_height(self) -> Pt {
        rows_height(self.measured, 0, self.header_count, Pt::zero())
    }

    /// The height of the footnotes of the rows `start..end`.
    pub open spec fn notes(self, start: int, end: int) -> Pt {
        range_note_height(self.measured, start, end, Pt::zero())
    }

    /// A group of one row that is not divided.
    pub open spec fn single(self, row: int) -> RowGroup {
        single_group(self.measured, row)
    }
}

/// A group of one row that is not divided.
pub open spec fn single_group(measured: Seq<MeasuredRowView<'_>>, row: int) -> RowGroup {
    RowGroup {
        start: row as usize,
        end: (row + 1) as usize,
        height: measured[row].full_height(),
        splittable: false,
    }
}

/// The parts of a table that have been filled, and the one that is being filled.
#[verifier::ext_equal]
pub struct Fill<'a> {
    pub slices: Seq<Seq<ItemView<'a>>>,
    pub current: Seq<ItemView<'a>>,
    /// The room that is left on the page.
    pub remaining: Pt,
    pub has_notes: bool,
}

impl<'a> Fill<'a> {
    /// With an item added that takes no room.
    pub open spec fn with_item(self, item: ItemView<'a>) -> Fill<'a> {
        Fill { current: self.current.push(item), ..self }
    }

    /// With an item added that takes `height`, and footnotes of height `notes`.
    pub open spec fn with_sized_item(
        self,
        item: ItemView<'a>,
        height: Pt,
        notes: Pt,
        separator: Pt,
    ) -> Fill<'a> {
        Fill {
            slices: self.slices,
            current: self.current.push(item),
            remaining: self.remaining.minus(
                height.plus(footnote_page_cost(notes, self.has_notes, separator)),
            ),
            has_notes: self.has_notes || notes.units > 0,
        }
    }

    /// Whether something of the given height fits on the page with its footnotes.
    pub open spec fn fits(self, height: Pt, notes: Pt, separator: Pt) -> bool {
        height.plus(footnote_page_cost(notes, self.has_notes, separator)).units
            <= self.remaining.units
    }

    /// With a new page begun, and the repeated rows on it if `with_header` says so.
    pub open spec fn turned(self, p: Paging<'a, '_>, with_header: bool) -> Fill<'a> {
        let slices = self.slices.push(self.current);
        let height = p.heights.height(slices.len() as int);
        if with_header && p.header_count > 0 {
            Fill {
                slices,
                current: seq![ItemView::Header],
                remaining: height.minus(p.header_height()),
                has_notes: false,
            }
        } else {
            Fill { slices, current: Seq::empty(), remaining: height, has_notes: false }
        }
    }

    /// With the rows of a group added.
    pub open spec fn with_group(self, p: Paging<'a, '_>, g: RowGroup) -> Fill<'a> {
        self.with_sized_item(
            ItemView::Range { start: g.start as int, end: g.end as int },
            g.height,
            p.notes(g.start as int, g.end as int),
            p.separator,
        )
    }

    /// With the rest of a divided row added: as much as fits on each page, and
    /// what cannot be divided further as it is.
    pub open spec fn with_rest(
        self,
        p: Paging<'a, '_>,
        row: int,
        pending: MeasuredRowView<'a>,
    ) -> Fill<'a>
        decreases row_lines(pending),
    {
        let notes = row_note_height(pending);
        if self.fits(pending.height, notes, p.separator) {
            self.with_sized_item(
                ItemView::Continuation { row, part: pending },
                pending.height,
                notes,
                p.separator,
            )
        } else {
            match split_within(
                pending,
                p.rows[row],
                self.remaining,
                self.has_notes,
                p.separator,
                self.remaining,
            ) {
                Some((first, second)) => if row_lines(second) < row_lines(pending) {
                    self.with_item(ItemView::Continuation { row, part: first }).turned(
                        p,
                        true,
                    ).with_rest(p, row, second)
                } else {
                    self
                },
                None => self.with_item(ItemView::Continuation { row, part: pending }),
            }
        }
    }

    /// With the two parts of a divided row added, on this page and on the next
    /// ones.
    pub open spec fn with_split(
        self,
        p: Paging<'a, '_>,
        row: int,
        first: MeasuredRowView<'a>,
        second: MeasuredRowView<'a>,
    ) -> Fill<'a> {
        self.with_item(ItemView::Split { row, part: first }).turned(p, true).with_rest(
            p,
            row,
            second,
        )
    }

    /// Whether the table's first part holds repeated rows alone, which may as well
    /// move to the next page with the first of the other rows.
    pub open spec fn holds_only_movable_headers(self, p: Paging<'a, '_>) -> bool {
        &&& self.slices.len() == 0
        &&& p.header_count > 0
        &&& p.notes(0, p.header_count) == Pt::zero()
        &&& forall|r: int| #![trigger p.rows[r]]
            0 <= r < p.header_count ==> p.rows[r].cant_split != Some(true)
        &&& self.current.len() > 0
        &&& forall|i: int| #![trigger self.current[i]]
            0 <= i < self.current.len() ==> match self.current[i] {
                ItemView::Range { start, end } => end <= p.header_count,
                _ => false,
            }
    }

    /// With the header rows moved to the next page, where they stand for the first time.
    pub open spec fn with_moved_header(self, p: Paging<'a, '_>) -> Fill<'a> {
        (Fill { current: Seq::empty(), ..self }).turned(p, false).with_sized_item(
            ItemView::Range { start: 0, end: p.header_count },
            p.header_height(),
            p.notes(0, p.header_count),
            p.separator,
        )
    }

    /// With a group moved to the next page, if that offers more room.
    pub open spec fn with_moved_group(self, p: Paging<'a, '_>, g: RowGroup) -> Fill<'a> {
        let is_header = g.start < p.header_count;
        let next_height = p.heights.height(
            (self.slices.len() as usize).saturating_add(1) as int,
        );
        let next_remaining = if !is_header && p.header_count > 0 {
            next_height.minus(p.header_height())
        } else {
            next_height
        };
        if next_remaining.units > self.remaining.units {
            let notes = p.notes(g.start as int, g.end as int);
            let orphaned = !is_header && self.holds_only_movable_headers(p) && g.height.plus(
                footnote_page_cost(notes, false, p.separator),
            ).units <= next_remaining.units;
            if orphaned {
                self.with_moved_header(p).with_group(p, g)
            } else {
                self.turned(p, !is_header).with_group(p, g)
            }
        } else {
            self.with_group(p, g)
        }
    }
}

/// Whether the first row of a merged group may stay when the group does not fit.
pub open spec fn first_row_may_stay(p: Paging<'_, '_>, g: RowGroup) -> bool {
    g.end - g.start > 1 && g.start >= p.header_count && p.rows[g.start as int].height_rule is Some
}

/// The pages with a group of rows placed, and the row to go on with.
///
/// A group that fits is placed as it is. Of a merged group with a height of its
/// own, the first row stays if it fits. A row that may be divided is divided.
/// All else moves to the next page, if that offers more room.
pub open spec fn placed_group<'a>(f: Fill<'a>, p: Paging<'a, '_>, g: RowGroup) -> (Fill<'a>, int) {
    let start = g.start as int;
    let end = g.end as int;
    let first = p.single(start);
    if f.fits(g.height, p.notes(start, end), p.separator) {
        (f.with_group(p, g), end)
    } else if first_row_may_stay(p, g) && f.fits(
        first.height,
        row_note_height(p.measured[start]),
        p.separator,
    ) {
        (
            f.with_sized_item(
                ItemView::Range { start, end: start + 1 },
                first.height,
                row_note_height(p.measured[start]),
                p.separator,
            ),
            start + 1,
        )
    } else if start >= p.header_count && g.splittable && end - start == 1 {
        match split_within(
            p.measured[start],
            p.rows[start],
            f.remaining,
            f.has_notes,
            p.separator,
            f.remaining,
        ) {
            Some((above, below)) => (f.with_split(p, start, above, below), end),
            None => (f.with_moved_group(p, g), end),
        }
    } else {
        (f.with_moved_group(p, g), end)
    }
}

/// The pages with the groups from number `k` on placed, the first of them from
/// row `row` on. Once the first row of a merged group has been placed alone, so
/// are the others.
pub open spec fn placed_groups<'a>(
    f: Fill<'a>,
    p: Paging<'a, '_>,
    groups: Seq<RowGroup>,
    k: int,
    row: int,
) -> Fill<'a>
    decreases groups.len() - k, groups[k].end - row,
{
    if k < 0 || k >= groups.len() {
        f
    } else {
        let whole = groups[k];
        let g = if row <= whole.start {
            whole
        } else {
            p.single(row)
        };
        let (next, next_row) = placed_group(f, p, g);
        if row < next_row < whole.end {
            placed_groups(next, p, groups, k, next_row)
        } else {
            placed_groups(
                next,
                p,
                groups,
                k + 1,
                if k + 1 < groups.len() {
                    groups[k + 1].start as int
                } else {
                    0
                },
            )
        }
    }
}

/// The groups from number `k` on, after those in `acc`; a merged group that fits on
/// no page is broken up into its rows.
pub open spec fn paging_groups_from(
    p: Paging<'_, '_>,
    groups: Seq<RowGroup>,
    k: int,
    acc: Seq<RowGroup>,
) -> Seq<RowGroup>
    decreases groups.len() - k,
{
    if k < 0 || k >= groups.len() {
        acc
    } else {
        let g = groups[k];
        let capacity = if g.start >= p.header_count {
            p.heights.height(1).minus(p.header_height())
        } else {
            p.heights.height(1)
        };
        paging_groups_from(
            p,
            groups,
            k + 1,
            if g.end - g.start > 1 && g.height.units > capacity.units {
                acc + single_rows(p.measured, g)
            } else {
                acc.push(g)
            },
        )
    }
}

/// The groups in which a table's rows are placed on pages.
pub open spec fn paging_groups(p: Paging<'_, '_>) -> Seq<RowGroup> {
    paging_groups_from(p, row_groups(p.rows, p.measured), 0, Seq::empty())
}

/// The number of rows from `i` on that are to be repeated on each page, and `i` more.
pub open spec fn header_rows_from(rows: Seq<TableRowInput>, i: int) -> int
    decreases rows.len() - i,
{
    if i < 0 || i >= rows.len() || rows[i].is_header != Some(true) {
        i
    } else {
        header_rows_from(rows, i + 1)
    }
}

/// The parts into which a table is divided.
pub open spec fn table_slices<'a>(
    p: Paging<'a, '_>,
    available_height: Pt,
    first_page_has_footnotes: bool,
) -> Seq<Seq<ItemView<'a>>> {
    let groups = paging_groups(p);
    let f = placed_groups(
        Fill {
            slices: Seq::empty(),
            current: Seq::empty(),
            remaining: available_height,
            has_notes: first_page_has_footnotes,
        },
        p,
        groups,
        0,
        0,
    );
    f.slices.push(f.current)
}

/// The parts of a table under construction.
pub struct SliceBuilder<'a> {
    pub slices: Vec<Vec<SliceItem<'a>>>,
    pub current: Vec<SliceItem<'a>>,
    pub remaining: Pt,
    pub has_notes: bool,
}

impl<'a> View for SliceBuilder<'a> {
    type V = Fill<'a>;

    open spec fn view(&self) -> Fill<'a> {
        Fill {
            slices: slices_view(self.slices@),
            current: items_view(self.current@),
            remaining: self.remaining,
            has_notes: self.has_notes,
        }
    }
}

/// Whether an item draws rows, or a part of a row, that the table has.
pub open spec fn item_is_sound(item: ItemView<'_>, rows: Seq<TableRowInput>) -> bool {
    match item {
        ItemView::Range { start, end } => 0 <= start <= end <= rows.len(),
        ItemView::Header => true,
        ItemView::Split { row, part } => 0 <= row < rows.len() && row_is_sound(part, rows[row]),
        ItemView::Continuation { row, part } => 0 <= row < rows.len() && row_is_sound(
            part,
            rows[row],
        ),
    }
}

/// Whether all items of a part are sound.
pub open spec fn items_are_sound(items: Seq<ItemView<'_>>, rows: Seq<TableRowInput>) -> bool {
    forall|i: int| #![trigger items[i]] 0 <= i < items.len() ==> item_is_sound(items[i], rows)
}

/// Whether all items of all parts are sound.
pub open spec fn fill_is_sound(f: Fill<'_>, rows: Seq<TableRowInput>) -> bool {
    &&& items_are_sound(f.current, rows)
    &&& forall|i: int| #![trigger f.slices[i]]
        0 <= i < f.slices.len() ==> items_are_sound(f.slices[i], rows)
}

/// A table that is divided between pages.
pub struct PagingInput<'b, 'a, 'h> {
    pub rows: &'b [TableRowInput],
    pub measured: &'b [MeasuredRow<'a>],
    pub header_count: usize,
    pub header_height: Pt,
    pub header_notes: Pt,
    pub heights: PageHeights<'h>,
    pub separator: Pt,
}

impl<'b, 'a, 'h> View for PagingInput<'b, 'a, 'h> {
    type V = Paging<'a, 'h>;

    open spec fn view(&self) -> Paging<'a, 'h> {
        Paging {
            rows: self.rows@,
            measured: rows_view(self.measured@),
            header_count: self.header_count as int,
            heights: self.heights,
            separator: self.separator,
        }
    }
}

impl<'b, 'a, 'h> PagingInput<'b, 'a, 'h> {
    /// Whether the table is measured and its header rows exist.
    pub open spec fn sound(&self) -> bool {
        &&& table_consistent(rows_view(self.measured@), self.rows@)
        &&& self.header_count <= self.rows@.len()
        &&& self.header_height == self@.header_height()
        &&& self.header_notes == self@.notes(0, self.header_count as int)
    }
}

impl<'a> SliceBuilder<'a> {
    fn push_item(&mut self, item: SliceItem<'a>, Ghost(rows): Ghost<Seq<TableRowInput>>)
        requires
            fill_is_sound(old(self)@, rows),
            item_is_sound(item@, rows),
        ensures
            final(self)@ == old(self)@.with_item(item@),
            fill_is_sound(final(self)@, rows),
    {
        let ghost before = self@;
        self.current.push(item);
        assert(self@.current =~= before.current.push(item@));
        assert(self@ =~= before.with_item(item@));
    }

    fn push_sized_item(
        &mut self,
        item: SliceItem<'a>,
        height: Pt,
        notes: Pt,
        separator: Pt,
        Ghost(rows): Ghost<Seq<TableRowInput>>,
    )
        requires
            fill_is_sound(old(self)@, rows),
            item_is_sound(item@, rows),
        ensures
            final(self)@ == old(self)@.with_sized_item(item@, height, notes, separator),
            fill_is_sound(final(self)@, rows),
    {
        let ghost before = self@;
        let cost = footnote_page_cost(notes, self.has_notes, separator);
        self.current.push(item);
        assert(self@.current =~= before.current.push(item@));
        self.remaining = self.remaining.minus(height.plus(cost));
        self.has_notes = self.has_notes || notes.units > 0;
        assert(self@ =~= before.with_sized_item(item@, height, notes, separator));
    }

    fn fits(&self, height: Pt, notes: Pt, separator: Pt) -> (r: bool)
        ensures
            r == self@.fits(height, notes, separator),
    {
        height.plus(footnote_page_cost(notes, self.has_notes, separator)).units
            <= self.remaining.units
    }

    fn turn_page(&mut self, p: &PagingInput<'_, 'a, '_>, with_header: bool)
        requires
            p.sound(),
            fill_is_sound(old(self)@, p@.rows),
        ensures
            final(self)@ == old(self)@.turned(p@, with_header),
            fill_is_sound(final(self)@, p@.rows),
    {
        let ghost before = self@;
        let mut fresh: Vec<SliceItem<'a>> = Vec::new();
        std::mem::swap(&mut self.current, &mut fresh);
        let ghost moved = fresh@;
        self.slices.push(fresh);
        assert(slices_view(self.slices@) =~= before.slices.push(before.current)) by {
            assert(items_view(moved) == before.current);
        }
        let height = p.heights.height_for_slice(self.slices.len());
        self.remaining = height;
        self.has_notes = false;
        if with_header && p.header_count > 0 {
            self.current.push(SliceItem::Header);
            self.remaining = height.minus(p.header_height);
            assert(self@.current =~= seq![ItemView::Header]);
        } else {
            assert(self@.current =~= Seq::empty());
        }
        assert(self@ =~= before.turned(p@, with_header));
        proof {
            let f = self@;
            assert forall|i: int| #![trigger f.slices[i]] 0 <= i < f.slices.len() implies
                items_are_sound(f.slices[i], p@.rows) by {
                if i < before.slices.len() {
                    assert(f.slices[i] == before.slices[i]);
                } else {
                    assert(f.slices[i] == before.current);
                }
            }
        }
    }

    fn push_group(&mut self, p: &PagingInput<'_, 'a, '_>, g: RowGroup)
        requires
            p.sound(),
            g.start <= g.end <= p@.rows.len(),
            fill_is_sound(old(self)@, p@.rows),
        ensures
            final(self)@ == old(self)@.with_group(p@, g),
            fill_is_sound(final(self)@, p@.rows),
    {
        let notes = measured_range_footnote_height(p.measured, g.start, g.end);
        self.push_sized_item(
            SliceItem::Range { start: g.start, end: g.end },
            g.height,
            notes,
            p.separator,
            Ghost(p.rows@),
        );
    }

    fn push_rest(
        &mut self,
        p: &PagingInput<'_, 'a, '_>,
        row_idx: usize,
        rest: MeasuredRow<'a>,
    )
        requires
            p.sound(),
            row_idx < p@.rows.len(),
            row_is_sound(rest@, p@.rows[row_idx as int]),
            fill_is_sound(old(self)@, p@.rows),
        ensures
            final(self)@ == old(self)@.with_rest(p@, row_idx as int, rest@),
            fill_is_sound(final(self)@, p@.rows),
    {
        let ghost start = self@;
        let ghost whole = rest@;
        let mut pending = rest;
        loop
            invariant
                start == old(self)@,
                whole == rest@,
                p.sound(),
                row_idx < p@.rows.len(),
                row_is_sound(pending@, p@.rows[row_idx as int]),
                fill_is_sound(self@, p@.rows),
                self@.with_rest(p@, row_idx as int, pending@) == start.with_rest(
                    p@,
                    row_idx as int,
                    whole,
                ),
            decreases row_lines(pending@),
        {
            let notes = measured_row_footnote_height(&pending);
            if self.fits(pending.height, notes, p.separator) {
                let height = pending.height;
                self.push_sized_item(
                    SliceItem::Continuation { row_idx, mr: pending },
                    height,
                    notes,
                    p.separator,
                    Ghost(p.rows@),
                );
                return ;
            }
            match split_row_with_footnote_budget(
                &pending,
                &p.rows[row_idx],
                self.remaining,
                self.has_notes,
                p.separator,
            ) {
                Some(parts) => {
                    self.push_item(
                        SliceItem::Continuation { row_idx, mr: parts.first },
                        Ghost(p.rows@),
                    );
                    self.turn_page(p, true);
                    pending = parts.second;
                },
                None => {
                    self.push_item(
                        SliceItem::Continuation { row_idx, mr: pending },
                        Ghost(p.rows@),
                    );
                    return ;
                },
            }
        }
    }

    fn holds_movable_headers(&self, p: &PagingInput<'_, 'a, '_>) -> (r: bool)
        requires
            p.sound(),
        ensures
            r == self@.holds_only_movable_headers(p@),
    {
        if self.slices.len() != 0 || p.header_count == 0 || p.header_notes != Pt::zero()
            || self.current.len() == 0 {
            return false;
        }
        let mut r: usize = 0;
        while r < p.header_count
            invariant
                r <= p.header_count <= p.rows@.len(),
                forall|k: int| #![trigger p@.rows[k]]
                    0 <= k < r ==> p@.rows[k].cant_split != Some(true),
            decreases p.header_count - r,
        {
            if p.rows[r].cant_split == Some(true) {
                assert(p@.rows[r as int].cant_split == Some(true));
                return false;
            }
            r += 1;
        }
        let mut i: usize = 0;
        while i < self.current.len()
            invariant
                i <= self.current@.len(),
                forall|k: int| #![trigger self@.current[k]]
                    0 <= k < i ==> match self@.current[k] {
                        ItemView::Range { start, end } => end <= p@.header_count,
                        _ => false,
                    },
            decreases self.current@.len() - i,
        {
            let within = match &self.current[i] {
                SliceItem::Range { end, .. } => *end <= p.header_count,
                _ => false,
            };
            assert(self@.current[i as int] == self.current@[i as int]@);
            if !within {
                return false;
            }
            i += 1;
        }
        true
    }

    fn push_moved_group(&mut self, p: &PagingInput<'_, 'a, '_>, g: RowGroup)
        requires
            p.sound(),
            g.start <= g.end <= p@.rows.len(),
            fill_is_sound(old(self)@, p@.rows),
        ensures
            final(self)@ == old(self)@.with_moved_group(p@, g),
            fill_is_sound(final(self)@, p@.rows),
    {
        let ghost before = self@;
        let is_header = g.start < p.header_count;
        let next_height = p.heights.height_for_slice(self.slices.len().saturating_add(1));
        let next_remaining = if !is_header && p.header_count > 0 {
            next_height.minus(p.header_height)
        } else {
            next_height
        };
        if next_remaining.units > self.remaining.units {
            let notes = measured_range_footnote_height(p.measured, g.start, g.end);
            let orphaned = !is_header && self.holds_movable_headers(p) && g.height.plus(
                footnote_page_cost(notes, false, p.separator),
            ).units <= next_remaining.units;
            if orphaned {
                self.current.clear();
                assert(self@.current =~= Seq::empty());
                assert(self@ =~= (Fill { current: Seq::empty(), ..before }));
                self.turn_page(p, false);
                self.push_sized_item(
                    SliceItem::Range { start: 0, end: p.header_count },
                    p.header_height,
                    p.header_notes,
                    p.separator,
                    Ghost(p.rows@),
                );
            } else {
                self.turn_page(p, !is_header);
            }
        }
        self.push_group(p, g);
    }

    /// Place a group of rows. Returns the row to go on with.
    fn place_group(&mut self, p: &PagingInput<'_, 'a, '_>, g: RowGroup) -> (r: usize)
        requires
            p.sound(),
            g.start < g.end <= p@.rows.len(),
            fill_is_sound(old(self)@, p@.rows),
        ensures
            (final(self)@, r as int) == placed_group(old(self)@, p@, g),
            g.start < r <= g.end,
            fill_is_sound(final(self)@, p@.rows),
    {
        let notes = measured_range_footnote_height(p.measured, g.start, g.end);
        if self.fits(g.height, notes, p.separator) {
            self.push_group(p, g);
            return g.end;
        }
        let first = &p.measured[g.start];
        assert(p@.measured[g.start as int] == first@);
        if g.end - g.start > 1 && g.start >= p.header_count
            && p.rows[g.start].height_rule.is_some() {
            let first_height = first.height.plus(first.border_gap_below);
            let first_notes = measured_row_footnote_height(first);
            if self.fits(first_height, first_notes, p.separator) {
                self.push_sized_item(
                    SliceItem::Range { start: g.start, end: g.start + 1 },
                    first_height,
                    first_notes,
                    p.separator,
                    Ghost(p.rows@),
                );
                return g.start + 1;
            }
        }
        if g.start >= p.header_count && g.splittable && g.end - g.start == 1 {
            assert(row_is_sound(first@, p@.rows[g.start as int]));
            match split_row_with_footnote_budget(
                first,
                &p.rows[g.start],
                self.remaining,
                self.has_notes,
                p.separator,
            ) {
                Some(parts) => {
                    self.push_item(
                        SliceItem::Split { row_idx: g.start, mr: parts.first },
                        Ghost(p.rows@),
                    );
                    self.turn_page(p, true);
                    self.push_rest(p, g.start, parts.second);
                    return g.end;
                },
                None => {},
            }
        }
        self.push_moved_group(p, g);
        g.end
    }
}

/// Count the rows at the top of a table that are repeated on each page.
pub fn count_header_rows(rows: &[TableRowInput]) -> (r: usize)
    ensures
        r == header_rows_from(rows@, 0),
        r <= rows@.len(),
{
    let mut i: usize = 0;
    while i < rows.len() && rows[i].is_header == Some(true)
        invariant
            i <= rows@.len(),
            header_rows_from(rows@, i as int) == header_rows_from(rows@, 0),
        decreases rows@.len() - i,
    {
        i += 1;
    }
    i
}

/// The rows of a group, each as a group of its own.
pub open spec fn single_rows(measured: Seq<MeasuredRowView<'_>>, g: RowGroup) -> Seq<RowGroup> {
    Seq::new((g.end - g.start) as nat, |i: int| single_group(measured, g.start + i))
}

fn push_single_rows(p: &PagingInput<'_, '_, '_>, g: RowGroup, result: &mut Vec<RowGroup>)
    requires
        p.sound(),
        g.start < g.end <= p@.rows.len(),
        groups_cover(old(result)@, g.start as int),
    ensures
        final(result)@ == old(result)@ + single_rows(p@.measured, g),
        groups_cover(final(result)@, g.end as int),
{
    let ghost before = result@;
    let ghost singles = single_rows(p@.measured, g);
    let mut row: usize = g.start;
    while row < g.end
        invariant
            g.start <= row <= g.end <= p@.rows.len(),
            p.sound(),
            singles == single_rows(p@.measured, g),
            result@ == before + singles.take(row - g.start),
            groups_cover(result@, row as int),
        decreases g.end - row,
    {
        let measured = &p.measured[row];
        assert(p@.measured[row as int] == measured@);
        result.push(
            RowGroup {
                start: row,
                end: row + 1,
                height: measured.height.plus(measured.border_gap_below),
                splittable: false,
            },
        );
        row += 1;
        assert(result@ =~= before + singles.take(row - g.start));
    }
    assert(singles.take(row - g.start) =~= singles);
}

/// Break up the merged groups that fit on no page.
fn build_paging_groups(p: &PagingInput<'_, '_, '_>) -> (r: Vec<RowGroup>)
    requires
        p.sound(),
    ensures
        r@ == paging_groups(p@),
        groups_cover(r@, p@.rows.len() as int),
{
    let groups = build_row_groups(p.rows, p.measured);
    let continuation_height = p.heights.height_for_slice(1);
    let mut result: Vec<RowGroup> = Vec::new();
    let mut k: usize = 0;
    while k < groups.len()
        invariant
            k <= groups@.len(),
            p.sound(),
            groups@ == row_groups(p@.rows, p@.measured),
            groups_cover(groups@, p@.rows.len() as int),
            continuation_height == p.heights.height(1),
            groups_cover(
                result@,
                if k == 0 {
                    0
                } else {
                    groups@[k - 1].end as int
                },
            ),
            paging_groups_from(p@, groups@, k as int, result@) == paging_groups(p@),
        decreases groups@.len() - k,
    {
        let g = groups[k];
        let capacity = if g.start >= p.header_count {
            continuation_height.minus(p.header_height)
        } else {
            continuation_height
        };
        if g.end - g.start > 1 && g.height.units > capacity.units {
            push_single_rows(p, g, &mut result);
        } else {
            result.push(g);
        }
        k += 1;
    }
    assert(groups_cover(result@, p@.rows.len() as int));
    result
}


/// Divide a table into the parts that stand on its pages.
pub fn plan_slices<'a>(
    p: &PagingInput<'_, 'a, '_>,
    available_height: Pt,
    first_page_has_footnotes: bool,
) -> (r: Vec<Vec<SliceItem<'a>>>)
    requires
        p.sound(),
    ensures
        slices_view(r@) == table_slices(p@, available_height, first_page_has_footnotes),
        forall|i: int| #![trigger slices_view(r@)[i]]
            0 <= i < r@.len() ==> items_are_sound(slices_view(r@)[i], p@.rows),
{
    let groups = build_paging_groups(p);
    let mut builder: SliceBuilder<'a> = SliceBuilder {
        slices: Vec::new(),
        current: Vec::new(),
        remaining: available_height,
        has_notes: first_page_has_footnotes,
    };
    let ghost start = Fill {
        slices: Seq::empty(),
        current: Seq::empty(),
        remaining: available_height,
        has_notes: first_page_has_footnotes,
    };
    assert(builder@ =~= start);
    let mut k: usize = 0;
    let mut row: usize = 0;
    while k < groups.len()
        invariant
            k <= groups@.len(),
            p.sound(),
            groups@ == paging_groups(p@),
            groups_cover(groups@, p@.rows.len() as int),
            k < groups@.len() ==> groups@[k as int].start <= row < groups@[k as int].end,
            fill_is_sound(builder@, p@.rows),
            placed_groups(builder@, p@, groups@, k as int, row as int) == placed_groups(
                start,
                p@,
                groups@,
                0,
                0,
            ),
        decreases
                groups@.len() - k,
                if k < groups@.len() {
                    groups@[k as int].end - row
                } else {
                    0
                },
    {
        let whole = groups[k];
        let g = if row <= whole.start {
            whole
        } else {
            let measured = &p.measured[row];
            assert(p@.measured[row as int] == measured@);
            RowGroup {
                start: row,
                end: row + 1,
                height: measured.height.plus(measured.border_gap_below),
                splittable: false,
            }
        };
        let next_row: usize = builder.place_group(p, g);
        if row < next_row && next_row < whole.end {
            row = next_row;
        } else {
            k += 1;
            row = if k < groups.len() {
                groups[k].start
            } else {
                0
            };
        }
    }
    let ghost done = builder@;
    let mut slices = builder.slices;
    let last = builder.current;
    slices.push(last);
    proof {
        assert(slices_view(slices@) =~= done.slices.push(done.current));
        assert forall|i: int| #![trigger slices_view(slices@)[i]] 0 <= i < slices@.len() implies
            items_are_sound(slices_view(slices@)[i], p@.rows) by {
            if i < done.slices.len() {
                assert(slices_view(slices@)[i] == done.slices[i]);
            } else {
                assert(slices_view(slices@)[i] == done.current);
            }
        }
    }
    slices
}

} // verus!
