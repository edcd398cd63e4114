//! A section shows each of its blocks once.
use crate::block::LayoutBlock;
use crate::dimension::Pt;
use crate::ink::Ink;
use crate::page::PageView;
use crate::section::content::{
    is_measurable_table, is_plain, is_repeat, is_timely, lemma_floating_table, lemma_inline_table,
    lemma_moved_for_chain, lemma_plain_paragraph, lemma_timely_paragraph, lemma_turned, placed_from,
    refers_to_its_notes,
};
use crate::section::float_ink::none_behind;
use crate::section::floats::FlowPlace;
use crate::section::laws::{lemma_new_page_ink, page_ink, pages_ink};
use crate::section::layout::{
    begun, lemma_moved_one, may_overflow, paragraph_of, section_layout, section_started, table_of,
    unmoved, SectionFlow,
};
use crate::section::opening::{opens_with_text, ready};
use crate::section::pages::{follows, keeps_pages};
use crate::section::paragraph_flow::FlowJob;
use crate::section::state::{Continuation, FlowState, LayoutCtx};
use crate::table::content::block_ink;
use vstd::multiset::Multiset;
use vstd::prelude::*;

verus! {

/// What the blocks before `k`, their footnotes and their floating objects show.
pub open spec fn shown_before(blocks: Seq<LayoutBlock>, k: int) -> Multiset<Ink>
    decreases k,
{
    if k <= 0 {
        Multiset::empty()
    } else {
        shown_before(blocks, k - 1).add(block_ink(blocks[k - 1]))
    }
}

/// What is shown again of all blocks.
pub open spec fn shown_again(again: Seq<Multiset<Ink>>) -> Multiset<Ink>
    decreases again.len(),
{
    if again.len() == 0 {
        Multiset::empty()
    } else {
        shown_again(again.drop_last()).add(again.last())
    }
}

/// Whether what is shown again is shown again of the blocks one by one: of tables their header
/// rows, and of no other block anything.
pub open spec fn are_repeats(
    blocks: Seq<LayoutBlock>,
    default_line_height: Pt,
    again: Seq<Multiset<Ink>>,
) -> bool {
    forall|k: int| #![trigger again[k]]
        0 <= k < again.len() ==> is_repeat(blocks[k], default_line_height, again[k])
}

/// Whether a block can be counted: a table that is measured; a paragraph that refers to each of its
/// footnotes. With `flat`, no floating object of it lies behind the text.
pub open spec fn is_countable(block: LayoutBlock, default_line_height: Pt, flat: bool) -> bool {
    match block {
        LayoutBlock::Paragraph { .. } => {
            let para = paragraph_of(block);
            refers_to_its_notes(para) && (flat ==> none_behind(para.images, para.shapes))
        },
        LayoutBlock::Table { .. } => is_measurable_table(block, default_line_height),
    }
}

/// Whether a block shows its floating objects once wherever it stands: any block but a paragraph
/// that opens with breaks. Where nothing lies behind the text (`flat`), that one may open with
/// breaks too if it owns no floating objects.
pub open spec fn is_always_timely(block: LayoutBlock, flat: bool) -> bool {
    match block {
        LayoutBlock::Paragraph { .. } => {
            let para = paragraph_of(block);
            opens_with_text(para) || (flat && is_plain(para))
        },
        LayoutBlock::Table { .. } => true,
    }
}

/// Whether the blocks from `i` on leave their columns and pages in time, as [`is_timely`] says it
/// of each paragraph where it is placed: one that opens with breaks takes its floating objects
/// back, before its text begins, from the page that it began on alone, or it has drawn none that it
/// could not take back.
pub open spec fn run_in_time(
    flow: SectionFlow<'_>,
    ctx: LayoutCtx<'_>,
    blocks: Seq<LayoutBlock>,
    i: int,
    flat: bool,
) -> bool
    decreases unmoved(flow.relocated, blocks.len() as int), blocks.len() - i,
{
    if i < 0 || i >= blocks.len() {
        true
    } else {
        let idx = i as usize;
        let n = blocks.len() as int;
        let at = flow.with_pending_break(ctx, idx).refreshed(idx);
        let (next, next_i) = flow.with_block(ctx, blocks, idx);
        &&& is_always_timely(blocks[i], flat) || is_timely(
            at.before_paragraph(ctx, blocks, idx),
            ctx,
            blocks,
            idx,
        )
        &&& if i < next_i <= n && next.relocated == flow.relocated {
            run_in_time(next, ctx, blocks, next_i, flat)
        } else if unmoved(next.relocated, n) < unmoved(flow.relocated, n) {
            run_in_time(next, ctx, blocks, next_i, flat)
        } else {
            true
        }
    }
}

/// A number of pages as it is counted.
spec fn counted(pages: nat) -> int {
    if pages <= usize::MAX {
        pages as int
    } else {
        usize::MAX as int
    }
}

/// What holds of a section before block `i`: all blocks before it have been shown after `base`, and so
/// they had before the first block of the page when the page was saved, where the pages in `done` were
/// done.
spec fn in_order(
    flow: SectionFlow<'_>,
    ctx: LayoutCtx<'_>,
    blocks: Seq<LayoutBlock>,
    i: int,
    base: Multiset<Ink>,
    again: Seq<Multiset<Ink>>,
    done: Seq<PageView>,
    flat: bool,
) -> bool {
    let saved = FlowState { pages: done, ..flow.saved };
    let first = flow.replay_block as int;
    &&& 0 <= i <= blocks.len()
    &&& flow.relocated.len() == blocks.len()
    &&& again.len() == i
    &&& are_repeats(blocks, ctx.default_line_height, again)
    &&& ready(flow.st, ctx, flat)
    &&& flow.st.shown() == base.add(shown_before(blocks, i)).add(shown_again(again))
    &&& flow.st.page_index == counted(flow.st.pages.len())
    &&& keeps_pages(done, flow.st.pages)
    &&& flow.saved_page == counted(done.len())
    &&& flow.saved.page_index == flow.saved_page
    &&& first <= i
    &&& ready(saved, ctx, flat)
    &&& saved.shown() == base.add(shown_before(blocks, first)).add(shown_again(again.take(first)))
}

/// Turning pages keeps the order.
proof fn lemma_turned_in_order<'doc>(
    flow: SectionFlow<'doc>,
    st: FlowState<'doc>,
    admitted: usize,
    ctx: LayoutCtx<'_>,
    blocks: Seq<LayoutBlock>,
    i: int,
    base: Multiset<Ink>,
    again: Seq<Multiset<Ink>>,
    done: Seq<PageView>,
    flat: bool,
)
    requires
        in_order(flow, ctx, blocks, i, base, again, done, flat),
        ready(st, ctx, flat),
        st.shown() == flow.st.shown(),
        follows(flow.st, st),
    ensures
        in_order(
            (SectionFlow { st, admitted, ..flow }),
            ctx,
            blocks,
            i,
            base,
            again,
            done,
            flat,
        ),
{
    lemma_kept_twice(done, flow.st.pages, st.pages);
}

proof fn lemma_kept_twice(a: Seq<PageView>, b: Seq<PageView>, c: Seq<PageView>)
    requires
        keeps_pages(a, b),
        keeps_pages(b, c),
    ensures
        keeps_pages(a, c),
{
    assert forall|k: int| #![trigger c[k]] 0 <= k < a.len() implies c[k] == a[k] by {
        assert(c[k] == b[k]);
    }
}

/// Saving the start of a new page keeps the order; and no page has been turned since.
proof fn lemma_refreshed_in_order<'doc>(
    flow: SectionFlow<'doc>,
    ctx: LayoutCtx<'_>,
    blocks: Seq<LayoutBlock>,
    i: int,
    base: Multiset<Ink>,
    again: Seq<Multiset<Ink>>,
    done: Seq<PageView>,
    flat: bool,
) -> (now: Seq<PageView>)
    requires
        in_order(flow, ctx, blocks, i, base, again, done, flat),
        i <= usize::MAX,
        flow.st.pages.len() < usize::MAX,
    ensures
        in_order(flow.refreshed(i as usize), ctx, blocks, i, base, again, now, flat),
        now == flow.st.pages,
{
    if flow.st.page_index != flow.saved_page {
        let now = flow.st.pages;
        assert((FlowState { pages: now, ..flow.st.without_pages() }) =~= flow.st);
        assert(again.take(i) =~= again);
        now
    } else {
        assert(done =~= flow.st.pages) by {
            assert(done.len() == flow.st.pages.len());
        }
        done
    }
}

/// Where the page is turned for a paragraph, if it is.
spec fn moved_before<'doc>(
    flow: SectionFlow<'doc>,
    ctx: LayoutCtx<'_>,
    blocks: Seq<LayoutBlock>,
    block_idx: usize,
) -> SectionFlow<'doc> {
    let para = paragraph_of(blocks[block_idx as int]);
    let st = if para.page_break_before && flow.st.cursor_y.units > flow.st.page_top.units {
        flow.st.on_new_page(block_idx, ctx).without_space()
    } else {
        flow.st
    };
    let (moved, admitted) = st.moved_for_chain(ctx, blocks, block_idx, para.style, flow.admitted);
    SectionFlow { st: moved, admitted, ..flow }
}

proof fn lemma_moved_before<'doc>(
    flow: SectionFlow<'doc>,
    ctx: LayoutCtx<'_>,
    blocks: Seq<LayoutBlock>,
    block_idx: usize,
    flat: bool,
)
    requires
        ready(flow.st, ctx, flat),
    ensures
        ({
            let next = moved_before(flow, ctx, blocks, block_idx);
            &&& flow.before_paragraph(ctx, blocks, block_idx) == next.refreshed(block_idx)
            &&& ready(next.st, ctx, flat)
            &&& next.st.shown() == flow.st.shown()
            &&& follows(flow.st, next.st)
        }),
{
    let para = paragraph_of(blocks[block_idx as int]);
    lemma_turned(flow.st, ctx, block_idx, flat);
    let st = if para.page_break_before && flow.st.cursor_y.units > flow.st.page_top.units {
        flow.st.on_new_page(block_idx, ctx).without_space()
    } else {
        flow.st
    };
    lemma_moved_for_chain(st, ctx, blocks, block_idx, para.style, flow.admitted, flat);
    assert(follows(st, st.moved_for_chain(ctx, blocks, block_idx, para.style, flow.admitted).0))
        by {
        reveal(FlowState::moved_for_chain);
    }
}

/// One more block shown keeps the order.
proof fn lemma_one_more<'doc>(
    flow: SectionFlow<'doc>,
    next: SectionFlow<'doc>,
    ctx: LayoutCtx<'_>,
    blocks: Seq<LayoutBlock>,
    i: int,
    base: Multiset<Ink>,
    again: Seq<Multiset<Ink>>,
    one: Multiset<Ink>,
    done: Seq<PageView>,
    flat: bool,
)
    requires
        in_order(flow, ctx, blocks, i, base, again, done, flat),
        i < blocks.len(),
        is_repeat(blocks[i], ctx.default_line_height, one),
        ready(next.st, ctx, flat),
        next.st.shown() == flow.st.shown().add(block_ink(blocks[i])).add(one),
        follows(flow.st, next.st),
        next == (SectionFlow { st: next.st, admitted: next.admitted, ..flow }),
    ensures
        in_order(next, ctx, blocks, i + 1, base, again.push(one), done, flat),
{
    let more = again.push(one);
    lemma_kept_twice(done, flow.st.pages, next.st.pages);
    assert(more.drop_last() =~= again);
    assert(next.st.shown() =~= base.add(shown_before(blocks, i + 1)).add(shown_again(more)));
    assert(more.take(flow.replay_block as int) =~= again.take(flow.replay_block as int));
    assert forall|k: int| #![trigger more[k]] 0 <= k < more.len() implies is_repeat(
        blocks[k],
        ctx.default_line_height,
        more[k],
    ) by {
        if k < again.len() {
            assert(more[k] == again[k]);
        }
    }
}

/// Placing a paragraph turns pages one after another, unless the page is placed anew.
proof fn lemma_paragraph_follows<'doc>(
    begin: SectionFlow<'doc>,
    ctx: LayoutCtx<'_>,
    blocks: Seq<LayoutBlock>,
    block_idx: usize,
)
    ensures
        ({
            let (next, next_i) = placed_from(begin, ctx, blocks, block_idx);
            &&& begin.replay_block <= block_idx < next_i ==> follows(begin.st, next.st)
            &&& keeps_pages(begin.st.pages, next.st.pages)
        }),
{
    let para = paragraph_of(blocks[block_idx as int]);
    let place = FlowPlace {
        blocks,
        relocated: begin.relocated,
        num_cols: ctx.config.columns@.len() as usize,
    };
    let (start, checkpoint) = begun(begin.st, ctx, place, block_idx, para);
    let job = FlowJob {
        ctx,
        place,
        block_idx,
        replay_block: begin.replay_block,
        para,
        checkpoint,
        may_overflow: may_overflow(start.st, blocks, block_idx as int),
    };
    crate::section::pages::lemma_begun(begin.st, ctx, place, block_idx, para);
    crate::section::pages::lemma_page_chunks(start, job, 0, false);
    let (pf, replay, left) = start.with_page_chunks(job, 0, false);
    crate::section::pages::lemma_ended(pf, ctx, para, left);
    lemma_kept_twice(begin.st.pages, start.st.pages, pf.st.pages);
}

/// Whether all blocks can be counted.
spec fn are_countable(blocks: Seq<LayoutBlock>, default_line_height: Pt, flat: bool) -> bool {
    forall|k: int| #![trigger blocks[k]]
        0 <= k < blocks.len() ==> is_countable(blocks[k], default_line_height, flat)
}

/// A section before block `i` with the start of its page saved.
proof fn lemma_waiting<'doc>(
    flow: SectionFlow<'doc>,
    ctx: LayoutCtx<'_>,
    blocks: Seq<LayoutBlock>,
    i: int,
    base: Multiset<Ink>,
    again: Seq<Multiset<Ink>>,
    done: Seq<PageView>,
    flat: bool,
) -> (now: Seq<PageView>)
    requires
        in_order(flow, ctx, blocks, i, base, again, done, flat),
        i <= usize::MAX,
        flow.with_pending_break(ctx, i as usize).st.pages.len() < usize::MAX,
    ensures
        in_order(
            flow.with_pending_break(ctx, i as usize).refreshed(i as usize),
            ctx,
            blocks,
            i,
            base,
            again,
            now,
            flat,
        ),
{
    let waiting = FlowState { pending_page_break: false, ..flow.st };
    lemma_turned(waiting, ctx, i as usize, flat);
    assert(waiting.shown() == flow.st.shown());
    let broken = flow.with_pending_break(ctx, i as usize);
    lemma_turned_in_order(
        flow,
        broken.st,
        flow.admitted,
        ctx,
        blocks,
        i,
        base,
        again,
        done,
        flat,
    );
    assert(broken =~= (SectionFlow { st: broken.st, admitted: flow.admitted, ..flow }));
    lemma_refreshed_in_order(broken, ctx, blocks, i, base, again, done, flat)
}

/// A table shown keeps the order.
proof fn lemma_table_in_order<'doc>(
    at: SectionFlow<'doc>,
    ctx: LayoutCtx<'_>,
    blocks: Seq<LayoutBlock>,
    i: int,
    base: Multiset<Ink>,
    again: Seq<Multiset<Ink>>,
    done: Seq<PageView>,
    flat: bool,
) -> (one: Multiset<Ink>)
    requires
        in_order(at, ctx, blocks, i, base, again, done, flat),
        i < blocks.len() <= usize::MAX,
        blocks[i] is Table,
        is_countable(blocks[i], ctx.default_line_height, flat),
    ensures
        in_order(
            at.with_table_block(ctx, blocks, i as usize),
            ctx,
            blocks,
            i + 1,
            base,
            again.push(one),
            done,
            flat,
        ),
        at.with_table_block(ctx, blocks, i as usize).relocated == at.relocated,
{
    let block = blocks[i];
    let next = at.with_table_block(ctx, blocks, i as usize);
    let one = match block {
        LayoutBlock::Table { float_info: Some(info), .. } => {
            crate::section::pages::lemma_floating_table(
                at.st,
                ctx,
                i as usize,
                table_of(block),
                info,
            );
            lemma_floating_table(at.st, ctx, block, i as usize, info, flat)
        },
        _ => {
            crate::section::pages::lemma_inline_table(
                at.st,
                ctx,
                blocks,
                i as usize,
                table_of(block),
                at.admitted,
            );
            lemma_inline_table(at.st, ctx, blocks, i as usize, at.admitted, flat)
        },
    };
    lemma_one_more(at, next, ctx, blocks, i, base, again, one, done, flat);
    one
}

/// A paragraph shown keeps the order; where the page is placed anew, so does going back to its first
/// block.
proof fn lemma_paragraph_in_order<'doc>(
    at: SectionFlow<'doc>,
    ctx: LayoutCtx<'_>,
    blocks: Seq<LayoutBlock>,
    i: int,
    base: Multiset<Ink>,
    again: Seq<Multiset<Ink>>,
    done: Seq<PageView>,
    flat: bool,
) -> (r: (Seq<Multiset<Ink>>, Seq<PageView>))
    requires
        in_order(at, ctx, blocks, i, base, again, done, flat),
        i < blocks.len() <= usize::MAX,
        blocks[i] is Paragraph,
        is_countable(blocks[i], ctx.default_line_height, flat),
        is_always_timely(blocks[i], flat) || is_timely(
            at.before_paragraph(ctx, blocks, i as usize),
            ctx,
            blocks,
            i as usize,
        ),
        at.with_paragraph_block(ctx, blocks, i as usize).0.st.pages.len() < usize::MAX,
    ensures
        ({
            let (next, next_i) = at.with_paragraph_block(ctx, blocks, i as usize);
            &&& in_order(next, ctx, blocks, next_i, base, r.0, r.1, flat)
            &&& (next_i == i + 1 && next.relocated == at.relocated) || (!at.relocated[i]
                && next.relocated == at.relocated.update(i, true))
        }),
{
    let idx = i as usize;
    let block = blocks[i];
    let moved = moved_before(at, ctx, blocks, idx);
    lemma_moved_before(at, ctx, blocks, idx, flat);
    lemma_turned_in_order(
        at,
        moved.st,
        moved.admitted,
        ctx,
        blocks,
        i,
        base,
        again,
        done,
        flat,
    );
    assert(moved =~= (SectionFlow { st: moved.st, admitted: moved.admitted, ..at }));
    let begin = moved.refreshed(idx);
    let (next, next_i) = placed_from(begin, ctx, blocks, idx);
    assert(at.with_paragraph_block(ctx, blocks, idx) == (next, next_i));
    lemma_paragraph_follows(begin, ctx, blocks, idx);
    let now = lemma_refreshed_in_order(moved, ctx, blocks, i, base, again, done, flat);
    assert(begin.relocated == at.relocated);
    let nothing = Multiset::<Ink>::empty();
    if opens_with_text(paragraph_of(block)) || is_timely(begin, ctx, blocks, idx) {
        lemma_timely_paragraph(begin, ctx, blocks, idx, flat);
        if next_i == i + 1 {
            assert(next.st.shown() =~= begin.st.shown().add(block_ink(block)).add(nothing));
            lemma_one_more(begin, next, ctx, blocks, i, base, again, nothing, now, flat);
            (again.push(nothing), now)
        } else {
            let first = begin.replay_block as int;
            let fewer = again.take(first);
            assert(fewer.take(first) =~= fewer);
            assert forall|k: int| #![trigger fewer[k]] 0 <= k < fewer.len() implies is_repeat(
                blocks[k],
                ctx.default_line_height,
                fewer[k],
            ) by {
                assert(fewer[k] == again[k]);
            }
            (fewer, now)
        }
    } else {
        lemma_plain_paragraph(begin, ctx, blocks, idx);
        assert(next.st.shown() =~= begin.st.shown().add(block_ink(block)).add(nothing));
        lemma_one_more(begin, next, ctx, blocks, i, base, again, nothing, now, flat);
        (again.push(nothing), now)
    }
}

proof fn lemma_blocks<'doc>(
    flow: SectionFlow<'doc>,
    ctx: LayoutCtx<'_>,
    blocks: Seq<LayoutBlock>,
    i: int,
    base: Multiset<Ink>,
    again: Seq<Multiset<Ink>>,
    done: Seq<PageView>,
    flat: bool,
) -> (all: Seq<Multiset<Ink>>)
    requires
        in_order(flow, ctx, blocks, i, base, again, done, flat),
        blocks.len() <= usize::MAX,
        are_countable(blocks, ctx.default_line_height, flat),
        run_in_time(flow, ctx, blocks, i, flat),
        flow.with_blocks(ctx, blocks, i).st.pages.len() < usize::MAX,
    ensures
        all.len() == blocks.len(),
        are_repeats(blocks, ctx.default_line_height, all),
        flow.with_blocks(ctx, blocks, i).st.shown() == base.add(
            shown_before(blocks, blocks.len() as int),
        ).add(shown_again(all)),
    decreases unmoved(flow.relocated, blocks.len() as int), blocks.len() - i,
{
    if i < blocks.len() {
        let n = blocks.len() as int;
        let idx = i as usize;
        let (next, next_i) = flow.with_block(ctx, blocks, idx);
        let at = flow.with_pending_break(ctx, idx).refreshed(idx);
        crate::section::pages::law_finished_pages_stay(flow, ctx, blocks, idx);
        reveal(SectionFlow::with_block);
        assert(is_countable(blocks[i], ctx.default_line_height, flat));
        assert(next.st.pages.len() < usize::MAX && at.st.pages.len() <= next.st.pages.len()) by {
            lemma_block_keeps(flow, ctx, blocks, i);
        }
        let now = lemma_waiting(flow, ctx, blocks, i, base, again, done, flat);
        if blocks[i] is Table {
            let one = lemma_table_in_order(at, ctx, blocks, i, base, again, now, flat);
            lemma_blocks(next, ctx, blocks, i + 1, base, again.push(one), now, flat)
        } else {
            let (more, then) = lemma_paragraph_in_order(
                at,
                ctx,
                blocks,
                i,
                base,
                again,
                now,
                flat,
            );
            if next.relocated != flow.relocated {
                lemma_moved_one(flow.relocated, i, n);
            }
            lemma_blocks(next, ctx, blocks, next_i, base, more, then, flat)
        }
    } else {
        again
    }
}

/// The pages of a section do not become fewer.
proof fn lemma_block_keeps<'doc>(
    flow: SectionFlow<'doc>,
    ctx: LayoutCtx<'_>,
    blocks: Seq<LayoutBlock>,
    i: int,
)
    requires
        0 <= i < blocks.len() <= usize::MAX,
    ensures
        ({
            let at = flow.with_pending_break(ctx, i as usize).refreshed(i as usize);
            let (next, next_i) = flow.with_block(ctx, blocks, i as usize);
            &&& at.st.pages.len() <= next.st.pages.len()
            &&& next.st.pages.len() <= flow.with_blocks(ctx, blocks, i).st.pages.len()
        }),
{
    let idx = i as usize;
    let at = flow.with_pending_break(ctx, idx).refreshed(idx);
    let (next, next_i) = flow.with_block(ctx, blocks, idx);
    crate::section::pages::lemma_blocks(next, ctx, blocks, next_i);
    assert(at.st.pages.len() <= next.st.pages.len()) by {
        reveal(SectionFlow::with_block);
        let block = blocks[i];
        match block {
            LayoutBlock::Table { float_info: Some(info), .. } => {
                crate::section::pages::lemma_floating_table(
                    at.st,
                    ctx,
                    idx,
                    table_of(block),
                    info,
                );
            },
            LayoutBlock::Table { .. } => {
                crate::section::pages::lemma_inline_table(
                    at.st,
                    ctx,
                    blocks,
                    idx,
                    table_of(block),
                    at.admitted,
                );
            },
            LayoutBlock::Paragraph { .. } => {
                let begin = at.before_paragraph(ctx, blocks, idx);
                lemma_paragraph_follows(begin, ctx, blocks, idx);
                reveal(FlowState::moved_for_chain);
                assert(at.st.pages.len() <= begin.st.pages.len());
            },
        }
    }
}

/// Blocks that show their floating objects once wherever they stand leave their columns and pages
/// in time.
pub proof fn law_opening_text_comes_in_time(
    flow: SectionFlow<'_>,
    ctx: LayoutCtx<'_>,
    blocks: Seq<LayoutBlock>,
    i: int,
    flat: bool,
)
    requires
        forall|k: int| #![trigger blocks[k]]
            0 <= k < blocks.len() ==> is_always_timely(blocks[k], flat),
    ensures
        run_in_time(flow, ctx, blocks, i, flat),
    decreases unmoved(flow.relocated, blocks.len() as int), blocks.len() - i,
{
    if 0 <= i < blocks.len() {
        let n = blocks.len() as int;
        let (next, next_i) = flow.with_block(ctx, blocks, i as usize);
        assert(is_always_timely(blocks[i], flat));
        if i < next_i <= n && next.relocated == flow.relocated {
            law_opening_text_comes_in_time(next, ctx, blocks, next_i, flat);
        } else if unmoved(next.relocated, n) < unmoved(flow.relocated, n) {
            law_opening_text_comes_in_time(next, ctx, blocks, next_i, flat);
        }
    }
}

/// A section shows what its blocks show, with their footnotes and their floating objects, all of it
/// and once, after what the page that it goes on with shows already. Besides it shows nothing but
/// header rows of tables that are drawn again.
///
/// Its paragraphs have to leave their columns and pages in time: floating objects are taken back
/// from the page that a paragraph leaves before its text begins, and bands are not told apart from
/// others if it leaves a second one. With `flat`, nothing lies behind the text.
pub proof fn law_blocks_are_shown_once(
    blocks: Seq<LayoutBlock>,
    ctx: LayoutCtx<'_>,
    continuation: Option<Continuation>,
    logical_page_base: usize,
    flat: bool,
) -> (again: Seq<Multiset<Ink>>)
    requires
        blocks.len() <= usize::MAX,
        ctx.config.columns@.len() > 0,
        flat ==> (continuation matches Some(c) ==> c.page.behind.len() == 0),
        forall|k: int| #![trigger blocks[k]]
            0 <= k < blocks.len() ==> is_countable(blocks[k], ctx.default_line_height, flat),
        run_in_time(
            section_started(
                *ctx.config,
                continuation,
                ctx.clearance,
                logical_page_base,
                blocks.len(),
            ),
            ctx,
            blocks,
            0,
            flat,
        ),
        section_layout(blocks, ctx, continuation, logical_page_base, false).pages.len()
            <= usize::MAX,
    ensures
        again.len() == blocks.len(),
        are_repeats(blocks, ctx.default_line_height, again),
        pages_ink(
            section_layout(blocks, ctx, continuation, logical_page_base, false).pages,
        ) == (match continuation {
            Some(c) => page_ink(c.page),
            None => Multiset::empty(),
        }).add(shown_before(blocks, blocks.len() as int)).add(shown_again(again)),
{
    let begin = section_started(
        *ctx.config,
        continuation,
        ctx.clearance,
        logical_page_base,
        blocks.len(),
    );
    let base = match continuation {
        Some(c) => page_ink(c.page),
        None => Multiset::empty(),
    };
    assert(ready(begin.st, ctx, flat)) by {
        assert(ctx.config.columns.len() == ctx.config.columns@.len());
    }
    let none = Seq::<Multiset<Ink>>::empty();
    let done = Seq::<PageView>::empty();
    assert(none.take(0) =~= none);
    assert((FlowState { pages: done, ..begin.saved }) =~= begin.st);
    assert(begin.st.shown() =~= base.add(shown_before(blocks, 0)).add(shown_again(none)));
    let st = begin.with_blocks(ctx, blocks, 0).st;
    let pages = section_layout(blocks, ctx, continuation, logical_page_base, false).pages;
    lemma_new_page_ink(st, 0, ctx);
    let flushed = st.flushed(ctx);
    assert(pages.drop_last() =~= flushed.pages);
    assert(crate::section::laws::notes_ink(flushed.footnotes, 0) =~= Multiset::empty());
    assert(pages_ink(pages) =~= flushed.shown());
    lemma_blocks(begin, ctx, blocks, 0, base, none, done, flat)
}

} // verus!
