//! Laws on how much of a chain of blocks stays together.
use crate::block::LayoutBlock;
use crate::dimension::Pt;
use crate::fragment::has_flow_break;
use crate::section::keep_next::{
    is_bridge, measured_prefix_or_none, prefix_from, table_aware_prefix, with_measured_paragraph,
    KeepNextGroupMeasurement, MeasureBox, PrefixMeasure, TableAwareKeepNextPrefix,
};
use crate::section::predicates::{keeps_next, table_keeps_next};
use crate::style::{PreviousParagraph, StyleId};
use crate::table::layout::complete_height;
use crate::table::measure::TableFormat;
use vstd::prelude::*;

verus! {

/// A chain of blocks, and where it is measured.
pub struct Chain {
    pub blocks: Seq<LayoutBlock>,
    pub start: int,
    pub at: MeasureBox,
    /// The style of the table before it.
    pub table_style_id: Option<StyleId>,
    /// Where it ends at the latest.
    pub stop: Option<usize>,
}

impl Chain {
    /// Whether a chain starts at its first block.
    pub open spec fn starts(self) -> bool {
        keeps_next(self.blocks[self.start]) || (table_keeps_next(self.blocks[self.start])
            && self.start + 1 < self.blocks.len())
    }

    /// How high the table at `i` is.
    pub open spec fn table_height(self, i: int, m: PrefixMeasure) -> Option<Pt> {
        match self.blocks[i] {
            LayoutBlock::Table { rows, col_widths, cell_spacing, border_config, style_id, .. } =>
                complete_height(
                rows@,
                TableFormat {
                    col_widths: col_widths@,
                    cell_spacing,
                    default_line_height: self.at.default_line_height,
                    borders: border_config,
                    suppress_first_row_top: style_id is Some && style_id
                        == m.previous_table_style_id,
                },
            ),
            _ => None,
        }
    }

    /// A measure with block `i` added.
    pub open spec fn with_block(self, i: int, m: PrefixMeasure) -> PrefixMeasure {
        match self.blocks[i] {
            LayoutBlock::Paragraph { fragments, style, footnotes, .. } => PrefixMeasure {
                group: with_measured_paragraph(
                    m.group,
                    m.previous,
                    fragments@,
                    style,
                    footnotes@,
                    self.at,
                ),
                previous: PreviousParagraph::of(&style),
                previous_table_style_id: None,
                has_bridge_table: m.has_bridge_table,
            },
            LayoutBlock::Table { style_id, .. } => PrefixMeasure {
                group: KeepNextGroupMeasurement {
                    body_height: m.group.body_height.plus(self.table_height(i, m)->0),
                    ..m.group
                },
                previous: PreviousParagraph::none(),
                previous_table_style_id: style_id,
                has_bridge_table: true,
            },
        }
    }

    /// The measure of the blocks before `i`.
    pub open spec fn measure(self, i: int) -> PrefixMeasure
        decreases i - self.start,
    {
        if i <= self.start {
            PrefixMeasure {
                group: KeepNextGroupMeasurement::none(),
                previous: PreviousParagraph::none(),
                previous_table_style_id: self.table_style_id,
                has_bridge_table: false,
            }
        } else {
            self.with_block(i - 1, self.measure(i - 1))
        }
    }

    /// The height of the blocks before `i`, with their footnotes.
    pub open spec fn height(self, i: int) -> Pt {
        self.measure(i).group.total_height(false)
    }

    /// Whether the chain can be measured beyond block `i`.
    pub open spec fn is_measurable(self, i: int) -> bool {
        match self.blocks[i] {
            LayoutBlock::Paragraph {
                fragments,
                page_break_before,
                floating_images,
                floating_shapes,
                ..
            } => !has_flow_break(fragments@) && !(i > self.start && page_break_before)
                && floating_images@.len() == 0 && floating_shapes@.len() == 0,
            LayoutBlock::Table { .. } => is_bridge(self.blocks, i) && self.table_height(
                i,
                self.measure(i),
            ) is Some,
        }
    }

    /// Whether the block before `i` stays with the one at `i`.
    pub open spec fn is_linked(self, i: int) -> bool {
        i > self.start ==> match self.blocks[i - 1] {
            LayoutBlock::Paragraph { style, .. } => style.keep_next,
            LayoutBlock::Table { .. } => true,
        }
    }

    /// Whether block `i` is part of the chain, and within the limit with those before it.
    #[verifier::opaque]
    pub open spec fn goes_on(self, limit: Pt, i: int) -> bool {
        &&& self.stop != Some(i as usize)
        &&& i < self.blocks.len()
        &&& self.is_linked(i)
        &&& self.is_measurable(i)
        &&& self.height(i + 1).units <= limit.units
    }

    /// Whether the chain goes on as far as block `end` and no further.
    pub open spec fn is_longest(self, limit: Pt, end: int) -> bool {
        &&& self.start <= end <= self.blocks.len()
        &&& forall|j: int| self.start <= j < end ==> #[trigger] self.goes_on(limit, j)
        &&& !self.goes_on(limit, end)
    }

    /// Whether there is a table among the blocks before `end`.
    pub open spec fn holds_table(self, end: int) -> bool {
        exists|t: int| self.start <= t < end && #[trigger] self.blocks[t] is Table
    }

    /// What stays together of the chain within `limit`.
    pub open spec fn prefix(self, limit: Pt) -> Option<TableAwareKeepNextPrefix> {
        table_aware_prefix(
            self.blocks,
            self.start,
            self.at,
            limit,
            self.table_style_id,
            self.stop,
        )
    }
}

proof fn lemma_tables_are_noticed(c: Chain, i: int)
    requires
        c.start <= i,
    ensures
        c.measure(i).has_bridge_table == c.holds_table(i),
    decreases i - c.start,
{
    if i > c.start {
        lemma_tables_are_noticed(c, i - 1);
        if c.blocks[i - 1] is Table {
            assert(c.holds_table(i));
        } else if c.holds_table(i) {
            let t = choose|t: int| c.start <= t < i && #[trigger] c.blocks[t] is Table;
            assert(t < i - 1);
            assert(c.holds_table(i - 1));
        } else if c.holds_table(i - 1) {
            let t = choose|t: int| c.start <= t < i - 1 && #[trigger] c.blocks[t] is Table;
            assert(c.holds_table(i));
        }
    }
}

impl Chain {
    /// What stays together of the blocks before `end`.
    #[verifier::opaque]
    spec fn up_to(self, end: int) -> Option<TableAwareKeepNextPrefix> {
        measured_prefix_or_none(
            self.measure(end).has_bridge_table,
            self.measure(end).group,
            end as usize,
        )
    }

    /// What stays together of the chain, measured from block `i` on.
    #[verifier::opaque]
    spec fn from(self, limit: Pt, i: int) -> Option<TableAwareKeepNextPrefix> {
        prefix_from(self.blocks, self.start, self.stop, self.at, limit, i, self.measure(i))
    }
}

proof fn lemma_chain_ends(c: Chain, limit: Pt, i: int)
    requires
        0 <= c.start <= i <= c.blocks.len() <= usize::MAX,
        c.is_linked(i),
        !c.goes_on(limit, i),
    ensures
        c.from(limit, i) == c.up_to(i),
{
    reveal(Chain::goes_on);
    reveal(Chain::from);
    reveal(Chain::up_to);
    let m = c.measure(i);
    if i < c.blocks.len() {
        assert(c.measure(i + 1) == c.with_block(i, m));
    }
}

proof fn lemma_chain_goes_on(c: Chain, limit: Pt, i: int)
    requires
        0 <= c.start <= i < c.blocks.len() <= usize::MAX,
        c.goes_on(limit, i),
    ensures
        c.from(limit, i) == if c.is_linked(i + 1) {
            c.from(limit, i + 1)
        } else {
            c.up_to(i + 1)
        },
{
    reveal(Chain::goes_on);
    reveal(Chain::from);
    reveal(Chain::up_to);
    let m = c.measure(i);
    assert(c.measure(i + 1) == c.with_block(i, m));
}

/// The chain ends with a block that does not stay with the next one, and at its last block.
proof fn lemma_chain_is_cut(c: Chain, limit: Pt, i: int)
    requires
        !c.is_linked(i) || i >= c.blocks.len(),
    ensures
        !c.goes_on(limit, i),
{
    reveal(Chain::goes_on);
}

proof fn lemma_prefix_from(c: Chain, limit: Pt, i: int) -> (end: int)
    requires
        0 <= c.start <= i <= c.blocks.len() <= usize::MAX,
        c.is_linked(i),
        forall|j: int| c.start <= j < i ==> #[trigger] c.goes_on(limit, j),
    ensures
        c.is_longest(limit, end),
        c.from(limit, i) == c.up_to(end),
    decreases c.blocks.len() - i,
{
    if i == c.blocks.len() {
        lemma_chain_is_cut(c, limit, i);
    }
    if !c.goes_on(limit, i) {
        lemma_chain_ends(c, limit, i);
        i
    } else {
        lemma_chain_goes_on(c, limit, i);
        if c.is_linked(i + 1) {
            lemma_prefix_from(c, limit, i + 1)
        } else {
            lemma_chain_is_cut(c, limit, i + 1);
            i + 1
        }
    }
}

/// What stays together is the longest part of the chain that fits: every block of it is measured and
/// fits with those before it, and the next block is not part of the chain or does not fit. There is such
/// a part if and only if it holds a table.
pub proof fn law_a_prefix_is_the_longest_that_fits(c: Chain, limit: Pt) -> (end: int)
    requires
        0 <= c.start < c.blocks.len() <= usize::MAX,
        c.starts(),
    ensures
        c.is_longest(limit, end),
        c.prefix(limit) is Some <==> c.holds_table(end),
        c.prefix(limit) matches Some(p) ==> {
            &&& p.end_exclusive == end
            &&& c.start < end
            &&& p.group == c.measure(end).group
            &&& p.group.total_height(false).units <= limit.units
        },
{
    let end = lemma_prefix_from(c, limit, c.start);
    reveal(Chain::from);
    reveal(Chain::up_to);
    lemma_tables_are_noticed(c, end);
    if c.holds_table(end) {
        assert(c.goes_on(limit, end - 1));
        reveal(Chain::goes_on);
    }
    end
}

/// With more room at least as much of the chain stays together.
pub proof fn law_more_room_keeps_more_together(c: Chain, less: Pt, more: Pt)
    requires
        0 <= c.start < c.blocks.len() <= usize::MAX,
        less.units <= more.units,
    ensures
        c.prefix(less) matches Some(p) ==> c.prefix(more) matches Some(q) && p.end_exclusive
            <= q.end_exclusive,
{
    if c.starts() {
        let short = law_a_prefix_is_the_longest_that_fits(c, less);
        let long = law_a_prefix_is_the_longest_that_fits(c, more);
        if long < short {
            assert(c.goes_on(less, long));
            assert(c.goes_on(more, long)) by {
                reveal(Chain::goes_on);
            }
        }
        if c.holds_table(short) {
            let t = choose|t: int| c.start <= t < short && #[trigger] c.blocks[t] is Table;
            assert(c.holds_table(long));
        }
    }
}

} // verus!
