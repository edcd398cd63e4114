//! Placing a paragraph whose lines may be divided between pages and columns.
use crate::block::{FootnoteParagraph, LayoutBlock, LayoutFootnote};
use crate::dimension::Pt;
use crate::draw_command::{append_shifted, shift_all};
use crate::float::ActiveFloat;
use crate::fragment::Fragment;
use crate::paragraph::{
    baseline_fit_height, count_references, laid_out, layout_paragraph, place_paragraph, placed,
    well_placed, PlaceContext, PlaceView, PlacedParagraph, PlacedView, Segment, SegmentView,
};
use crate::section::floats::FlowPlace;
use crate::section::predicates::{
    decide_paragraph_split, paragraph_split, prefix_adjusted_head, ParagraphSplit,
};
use crate::section::state::{footnote_separator_gap, FlowState, LayoutCtx, PageLayoutState};
use crate::style::ParagraphStyle;
use vstd::prelude::*;
use vstd::slice::slice_subrange;

verus! {

impl<'doc> FlowState<'doc> {
    /// With room reserved for the paragraphs of a footnote from `i` on.
    pub open spec fn with_reserved_note(
        self,
        ctx: LayoutCtx<'_>,
        note: LayoutFootnote,
        i: int,
    ) -> FlowState<'doc>
        decreases note.paragraphs@.len() - i,
    {
        if i < 0 || i >= note.paragraphs@.len() {
            self
        } else {
            let paragraph = note.paragraphs@[i];
            let height = laid_out(
                paragraph.fragments@,
                paragraph.style,
                ctx.config.content_width(),
                Pt::infinity(),
                ctx.default_line_height,
            ).height;
            let bottom = if self.footnotes.len() == 0 {
                self.bottom.minus(footnote_separator_gap())
            } else {
                self.bottom
            };
            (FlowState {
                bottom: bottom.minus(height),
                footnotes: self.footnotes.push(&note.paragraphs@[i]),
                ..self
            }).with_reserved_note(ctx, note, i + 1)
        }
    }

    /// With room reserved for the footnotes `n..end`: each takes its height, and the first one
    /// on a page the separator above it as well.
    pub open spec fn with_reserved(
        self,
        ctx: LayoutCtx<'_>,
        footnotes: Seq<LayoutFootnote>,
        n: int,
        end: int,
    ) -> FlowState<'doc>
        decreases end - n,
    {
        if n < 0 || n >= end {
            self
        } else {
            self.with_reserved_note(ctx, footnotes[n], 0).with_reserved(
                ctx,
                footnotes,
                n + 1,
                end,
            )
        }
    }

    /// With room reserved for the footnotes of a part of a table from `n` on.
    pub open spec fn with_reserved_refs(
        self,
        ctx: LayoutCtx<'_>,
        footnotes: Seq<&'doc LayoutFootnote>,
        n: int,
    ) -> FlowState<'doc>
        decreases footnotes.len() - n,
    {
        if n < 0 || n >= footnotes.len() {
            self
        } else {
            self.with_reserved_note(ctx, *footnotes[n], 0).with_reserved_refs(
                ctx,
                footnotes,
                n + 1,
            )
        }
    }

    /// In the next column, or on a new page after the last one.
    pub open spec fn advanced(self, ctx: LayoutCtx<'_>, block_idx: usize) -> FlowState<'doc> {
        if self.current_col + 1 < ctx.config.columns@.len() {
            FlowState {
                current_col: (self.current_col + 1) as usize,
                cursor_y: self.column_top,
                ..self
            }
        } else {
            self.on_new_page(block_idx, ctx)
        }
    }
}

impl<'doc> PageLayoutState<'doc> {
    fn reserve_note(&mut self, ctx: &LayoutCtx<'_>, note: &'doc LayoutFootnote)
        ensures
            final(self)@ == old(self)@.with_reserved_note(*ctx, *note, 0),
            final(self)@.current_col == old(self)@.current_col,
    {
        let ghost before = self@;
        let width = ctx.config.content_width();
        let mut i: usize = 0;
        while i < note.paragraphs.len()
            invariant
                i <= note.paragraphs@.len(),
                width == ctx.config.content_width(),
                self@.current_col == old(self)@.current_col,
                before == old(self)@,
                self@.with_reserved_note(*ctx, *note, i as int) == before.with_reserved_note(
                    *ctx,
                    *note,
                    0,
                ),
            decreases note.paragraphs@.len() - i,
        {
            let ghost current = self@;
            let paragraph: &'doc FootnoteParagraph = &note.paragraphs[i];
            let laid = layout_paragraph(
                paragraph.fragments.as_slice(),
                &paragraph.style,
                width,
                Pt::infinity(),
                ctx.default_line_height,
            );
            if self.page_footnotes.len() == 0 {
                self.bottom = self.bottom.minus(footnote_separator_gap());
            }
            self.bottom = self.bottom.minus(laid.height);
            self.page_footnotes.push(paragraph);
            assert(self@ =~= (FlowState {
                bottom: self.bottom,
                footnotes: current.footnotes.push(&note.paragraphs@[i as int]),
                ..current
            }));
            i += 1;
        }
    }

    /// Reserve room for the footnotes `start..end` at the foot of the page.
    pub fn reserve_footnotes(
        &mut self,
        ctx: &LayoutCtx<'_>,
        footnotes: &'doc [LayoutFootnote],
        start: usize,
        end: usize,
    )
        requires
            start <= end <= footnotes@.len(),
        ensures
            final(self)@ == old(self)@.with_reserved(*ctx, footnotes@, start as int, end as int),
            final(self)@.current_col == old(self)@.current_col,
    {
        let mut n: usize = start;
        while n < end
            invariant
                start <= n <= end <= footnotes@.len(),
                self@.current_col == old(self)@.current_col,
                self@.with_reserved(*ctx, footnotes@, n as int, end as int)
                    == old(self)@.with_reserved(*ctx, footnotes@, start as int, end as int),
            decreases end - n,
        {
            self.reserve_note(ctx, &footnotes[n]);
            n += 1;
        }
    }

    /// Reserve room for the footnotes of a part of a table.
    pub fn reserve_owned_footnotes(
        &mut self,
        ctx: &LayoutCtx<'_>,
        footnotes: &Vec<&'doc LayoutFootnote>,
    )
        ensures
            final(self)@ == old(self)@.with_reserved_refs(*ctx, footnotes@, 0),
            final(self)@.current_col == old(self)@.current_col,
    {
        let mut n: usize = 0;
        while n < footnotes.len()
            invariant
                n <= footnotes@.len(),
                self@.current_col == old(self)@.current_col,
                self@.with_reserved_refs(*ctx, footnotes@, n as int)
                    == old(self)@.with_reserved_refs(*ctx, footnotes@, 0),
            decreases footnotes@.len() - n,
        {
            self.reserve_note(ctx, footnotes[n]);
            n += 1;
        }
    }

    /// Go on in the next column, or on a new page after the last one.
    pub fn advance_column_or_page(
        &mut self,
        block_idx: usize,
        ctx: &LayoutCtx<'_>,
    )
        requires
            old(self)@.current_col < ctx.config.columns@.len(),
        ensures
            final(self)@ == old(self)@.advanced(*ctx, block_idx),
            final(self)@.current_col < ctx.config.columns@.len(),
    {
        let count: usize = ctx.config.num_columns();
        if self.current_col + 1 < count {
            self.current_col = self.current_col + 1;
            self.cursor_y = self.column_top;
            assert(self@ =~= old(self)@.advanced(*ctx, block_idx));
        } else {
            self.push_new_page(block_idx, ctx);
        }
    }

    /// Draw a part of a paragraph in the column, and move the cursor below it.
    pub fn draw_segment(&mut self, segment: &Segment, x: Pt)
        ensures
            final(self)@ == old(self)@.with_segment(segment@, x),
    {
        let y = self.cursor_y;
        append_shifted(
            &mut self.current_page.commands,
            segment.commands.as_slice(),
            0,
            segment.commands.len(),
            x,
            y,
        );
        assert(segment.commands@.subrange(0, segment.commands@.len() as int)
            =~= segment.commands@);
        self.cursor_y = y.plus(segment.height);
        assert(self@.page =~= old(self)@.with_segment(segment@, x).page);
        assert(self@ =~= old(self)@.with_segment(segment@, x));
    }
}

impl<'doc> FlowState<'doc> {
    /// With a part of a paragraph drawn at the cursor, and the cursor below it.
    pub open spec fn with_segment(self, segment: SegmentView, x: Pt) -> FlowState<'doc> {
        FlowState {
            page: self.page.drawn(shift_all(segment.commands, x, self.cursor_y)),
            cursor_y: self.cursor_y.plus(segment.height),
            ..self
        }
    }

    /// The height of the body of the page, less its footnotes.
    pub open spec fn body_height(self) -> Pt {
        self.bottom.minus(self.page_top).max(Pt::zero())
    }
}

/// How and where a paragraph's text is set.
#[derive(Debug)]
pub struct Setting {
    pub style: ParagraphStyle,
    pub floats: Vec<ActiveFloat>,
    pub page_x: Pt,
    pub page_y: Pt,
}

/// The mathematical value of a [`Setting`].
#[verifier::ext_equal]
pub struct TextSetting {
    pub style: ParagraphStyle,
    pub floats: Seq<ActiveFloat>,
    pub page_x: Pt,
    pub page_y: Pt,
}

impl View for Setting {
    type V = TextSetting;

    open spec fn view(&self) -> TextSetting {
        TextSetting {
            style: self.style,
            floats: self.floats@,
            page_x: self.page_x,
            page_y: self.page_y,
        }
    }
}

/// The place that a paragraph is set in.
pub open spec fn place_of(st: FlowState<'_>, ctx: LayoutCtx<'_>, set: TextSetting) -> PlaceView {
    PlaceView {
        width: ctx.config.columns@[st.current_col as int].width,
        max_height: st.body_height(),
        page_x: set.page_x,
        page_y: set.page_y,
        default_line_height: ctx.default_line_height,
        floats: set.floats,
    }
}

/// Break fragments into lines in the current column.
pub fn place_in_column(
    state: &PageLayoutState<'_>,
    ctx: &LayoutCtx<'_>,
    set: &Setting,
    fragments: &[Fragment],
) -> (r: PlacedParagraph)
    requires
        state@.current_col < ctx.config.columns@.len(),
    ensures
        r@ == placed(fragments@, place_of(state@, *ctx, set@), set.style),
        well_placed(r@, fragments@.len() as int),
{
    let place = PlaceContext {
        width: ctx.config.columns[state.current_col].width,
        max_height: state.bottom.minus(state.page_top).max(Pt::zero()),
        page_x: set.page_x,
        page_y: set.page_y,
        default_line_height: ctx.default_line_height,
        floats: set.floats.as_slice(),
    };
    assert(place@ =~= place_of(state@, *ctx, set@));
    place_paragraph(fragments, &place, &set.style)
}

/// How many lines from `i` on fit into `available` below `used`, one after another, and `i`
/// more. The last line of a paragraph needs room for its bottom border, and without
/// footnotes only down to its lowest baseline.
pub open spec fn fitting_lines(
    p: PlacedView,
    fragments: Seq<Fragment>,
    style: ParagraphStyle,
    no_footnotes: bool,
    available: Pt,
    i: int,
    used: Pt,
) -> int
    decreases p.lines.len() - i,
{
    if i < 0 || i >= p.lines.len() {
        i
    } else {
        let is_final = i + 1 == p.lines.len();
        let fit_height = match baseline_fit_height(p, fragments, style, i) {
            Some(h) if is_final && no_footnotes => h,
            _ => p.line_height(i),
        };
        let needed = used.plus(fit_height).plus(
            if is_final {
                style.bottom_border_space()
            } else {
                Pt::zero()
            },
        );
        if needed.units > available.units {
            i
        } else {
            fitting_lines(
                p,
                fragments,
                style,
                no_footnotes,
                available,
                i + 1,
                used.plus(p.line_height(i)),
            )
        }
    }
}

fn count_fitting_lines(
    p: &PlacedParagraph,
    fragments: &[Fragment],
    style: &ParagraphStyle,
    no_footnotes: bool,
    available: Pt,
    first_used: Pt,
) -> (r: usize)
    requires
        well_placed(p@, fragments@.len() as int),
    ensures
        r == fitting_lines(p@, fragments@, *style, no_footnotes, available, 0, first_used),
        r <= p@.lines.len(),
{
    let total: usize = p.line_count();
    let mut used = first_used;
    let mut i: usize = 0;
    while i < total
        invariant
            i <= total,
            total == p@.lines.len(),
            well_placed(p@, fragments@.len() as int),
            fitting_lines(p@, fragments@, *style, no_footnotes, available, i as int, used)
                == fitting_lines(
                p@,
                fragments@,
                *style,
                no_footnotes,
                available,
                0,
                first_used,
            ),
        decreases total - i,
    {
        let is_final = i + 1 == total;
        let line_height = p.line_height(i);
        let fit_height = if is_final && no_footnotes {
            match p.final_line_baseline_fit_height(fragments, style, i) {
                Some(h) => h,
                None => line_height,
            }
        } else {
            line_height
        };
        let needed = used.plus(fit_height).plus(
            if is_final {
                style.bottom_border_space()
            } else {
                Pt::zero()
            },
        );
        if needed.units > available.units {
            return i;
        }
        used = used.plus(line_height);
        i += 1;
    }
    i
}

/// A paragraph that is being placed.
pub struct SplitJob<'cx> {
    pub ctx: LayoutCtx<'cx>,
    pub place: FlowPlace,
    pub fragments: Seq<Fragment>,
    pub style: ParagraphStyle,
    pub footnotes: Seq<LayoutFootnote>,
    pub block_idx: usize,
}

/// The style of a further part of a paragraph: no space before it, no drop cap, and no
/// indent of a first line.
pub open spec fn further_style(style: ParagraphStyle) -> ParagraphStyle {
    ParagraphStyle {
        drop_cap: None,
        indent_first_line: Pt::zero(),
        space_before: Pt::zero(),
        ..style
    }
}

/// The state and the setting in which a paragraph goes on in a new column or page.
#[verifier::opaque]
pub open spec fn continued<'doc>(
    st: FlowState<'doc>,
    job: SplitJob<'_>,
    first_segment: bool,
) -> (FlowState<'doc>, TextSetting) {
    let col = st.current_col as int;
    let page_x = job.ctx.config.col_x(col);
    let style = if first_segment {
        job.style
    } else {
        further_style(job.style)
    };
    let (next, floats) = st.with_effective_floats(
        job.place,
        style.space_before,
        page_x,
        job.ctx.config.columns@[col].width,
    );
    (next, TextSetting { style, floats, page_x, page_y: next.cursor_y })
}

/// How many of the lines stay in the current column, if any may.
#[verifier::opaque]
pub open spec fn staying_lines(
    st: FlowState<'_>,
    job: SplitJob<'_>,
    set: TextSetting,
    p: PlacedView,
    fragments: Seq<Fragment>,
    first_segment: bool,
    at_top: bool,
) -> Option<usize> {
    let total = p.lines.len() as usize;
    let n_fit = fitting_lines(
        p,
        fragments,
        set.style,
        job.footnotes.len() == 0,
        st.bottom.minus(st.cursor_y).max(Pt::zero()),
        0,
        if first_segment {
            set.style.space_before
        } else {
            Pt::zero()
        },
    ) as usize;
    let prefix = p.unbreakable_prefix(set.style) as usize;
    match paragraph_split(n_fit, total, job.style.widow_control, at_top) {
        ParagraphSplit::All => prefix_adjusted_head(total, total, prefix, first_segment, at_top),
        ParagraphSplit::Break { head } => prefix_adjusted_head(
            head,
            total,
            prefix,
            first_segment,
            at_top,
        ),
        ParagraphSplit::MoveWhole => None,
    }
}

/// The state after a part of a paragraph is drawn, and room is reserved for the footnotes that
/// it refers to; and the number of footnotes reserved so far.
#[verifier::opaque]
pub open spec fn with_split_segment<'doc>(
    st: FlowState<'doc>,
    job: SplitJob<'_>,
    set: TextSetting,
    p: PlacedView,
    fragments: Seq<Fragment>,
    first_segment: bool,
    head: int,
    noted: int,
) -> (FlowState<'doc>, int) {
    let col = st.current_col as int;
    let drawn = st.with_segment(
        p.segment(
            set.style,
            job.ctx.config.columns@[col].width,
            head,
            first_segment,
            head == p.lines.len(),
        ),
        job.ctx.config.col_x(col),
    );
    let refs = count_references(fragments, 0, p.lines[head - 1].end as int, 0);
    let end = if noted + refs < job.footnotes.len() {
        noted + refs
    } else {
        job.footnotes.len() as int
    };
    (drawn.with_reserved(job.ctx, job.footnotes, noted, end), end)
}

/// The state after the fragments from `from` on are placed, and where on the page the last part
/// of the paragraph starts.
///
/// As many lines as fit are placed in each column. Where no line may stay, the rest moves
/// to the next column or page; on a page that was begun for this, some line always stays.
pub open spec fn split_from<'doc>(
    st: FlowState<'doc>,
    job: SplitJob<'_>,
    set: TextSetting,
    from: int,
    first_segment: bool,
    noted: int,
    fresh_page: bool,
    start_y: Pt,
) -> (FlowState<'doc>, Pt)
    decreases
            job.fragments.len() - from,
            if fresh_page {
                0
            } else {
                job.ctx.config.columns@.len() - st.current_col
            },
{
    let columns = job.ctx.config.columns@.len();
    let fragments = job.fragments.subrange(from, job.fragments.len() as int);
    let p = placed(fragments, place_of(st, job.ctx, set), set.style);
    let at_top = st.at_full_column_top() || fresh_page;
    if from < 0 || from > job.fragments.len() || st.current_col >= columns {
        (st, start_y)
    } else {
        match staying_lines(st, job, set, p, fragments, first_segment, at_top) {
            None => {
                let moved = st.advanced(job.ctx, job.block_idx);
                let (next, next_set) = continued(moved, job, first_segment);
                let next_fresh = st.current_col + 1 >= columns;
                if fresh_page || next.current_col >= columns || (!next_fresh && next.current_col
                    != st.current_col + 1) {
                    (st, start_y)
                } else {
                    split_from(
                        next,
                        job,
                        next_set,
                        from,
                        first_segment,
                        noted,
                        next_fresh,
                        moved.cursor_y,
                    )
                }
            },
            Some(head) => {
                let (drawn, next_noted) = with_split_segment(
                    st,
                    job,
                    set,
                    p,
                    fragments,
                    first_segment,
                    head as int,
                    noted,
                );
                let next_from = from + p.lines[head as int].start;
                if head >= p.lines.len() || next_from <= from || next_from > job.fragments.len() {
                    (drawn, start_y)
                } else {
                    let moved = drawn.advanced(job.ctx, job.block_idx);
                    let (next, next_set) = continued(moved, job, false);
                    split_from(
                        next,
                        job,
                        next_set,
                        next_from,
                        false,
                        next_noted,
                        false,
                        moved.cursor_y,
                    )
                }
            },
        }
    }
}

fn continue_setting(
    state: &mut PageLayoutState<'_>,
    ctx: &LayoutCtx<'_>,
    blocks: &[LayoutBlock],
    relocated: &Vec<bool>,
    style: &ParagraphStyle,
    first_segment: bool,
    Ghost(job): Ghost<SplitJob<'_>>,
) -> (r: Setting)
    requires
        old(state)@.current_col < ctx.config.columns@.len(),
        relocated@.len() == blocks@.len(),
        job.ctx == *ctx,
        job.style == *style,
        job.place == (FlowPlace {
            blocks: blocks@,
            relocated: relocated@,
            num_cols: ctx.config.columns@.len() as usize,
        }),
    ensures
        (final(state)@, r@) == continued(old(state)@, job, first_segment),
        final(state)@.current_col == old(state)@.current_col,
{
    reveal(continued);
    let col: usize = state.current_col;
    let page_x = ctx.config.column_x(col);
    let mut own = *style;
    if !first_segment {
        own.drop_cap = None;
        own.indent_first_line = Pt::zero();
        own.space_before = Pt::zero();
    }
    let floats = state.effective_floats_at_cursor(
        blocks,
        relocated,
        ctx.config.num_columns(),
        own.space_before,
        page_x,
        ctx.config.columns[col].width,
    );
    Setting { style: own, floats, page_x, page_y: state.cursor_y }
}

/// How many of the lines stay in the current column, if any may.
fn find_staying_lines(
    state: &PageLayoutState<'_>,
    set: &Setting,
    p: &PlacedParagraph,
    fragments: &[Fragment],
    no_footnotes: bool,
    widow_control: bool,
    first_segment: bool,
    at_top: bool,
    Ghost(job): Ghost<SplitJob<'_>>,
) -> (r: Option<usize>)
    requires
        well_placed(p@, fragments@.len() as int),
        no_footnotes == (job.footnotes.len() == 0),
        widow_control == job.style.widow_control,
    ensures
        r == staying_lines(state@, job, set@, p@, fragments@, first_segment, at_top),
        r matches Some(head) ==> 0 < head <= p@.lines.len(),
        at_top ==> r is Some,
{
    reveal(staying_lines);
    let total: usize = p.line_count();
    let available = state.bottom.minus(state.cursor_y).max(Pt::zero());
    let used = if first_segment {
        set.style.space_before
    } else {
        Pt::zero()
    };
    let n_fit: usize = count_fitting_lines(
        p,
        fragments,
        &set.style,
        no_footnotes,
        available,
        used,
    );
    let prefix: usize = p.unbreakable_prefix_lines(&set.style);
    match decide_paragraph_split(n_fit, total, widow_control, at_top) {
        ParagraphSplit::All => prefix_adjusted_head(total, total, prefix, first_segment, at_top),
        ParagraphSplit::Break { head } => prefix_adjusted_head(
            head,
            total,
            prefix,
            first_segment,
            at_top,
        ),
        ParagraphSplit::MoveWhole => None,
    }
}

/// Draw the first `head` lines and reserve room for the footnotes that they refer to. Returns
/// the number of footnotes reserved so far.
fn draw_split_segment<'doc>(
    state: &mut PageLayoutState<'doc>,
    ctx: &LayoutCtx<'_>,
    set: &Setting,
    p: &PlacedParagraph,
    fragments: &[Fragment],
    footnotes: &'doc [LayoutFootnote],
    first_segment: bool,
    head: usize,
    noted: usize,
    Ghost(job): Ghost<SplitJob<'_>>,
) -> (r: usize)
    requires
        old(state)@.current_col < ctx.config.columns@.len(),
        well_placed(p@, fragments@.len() as int),
        0 < head <= p@.lines.len(),
        noted <= footnotes@.len(),
        job.ctx == *ctx,
        job.footnotes == footnotes@,
    ensures
        (final(state)@, r as int) == with_split_segment(
            old(state)@,
            job,
            set@,
            p@,
            fragments@,
            first_segment,
            head as int,
            noted as int,
        ),
        r <= footnotes@.len(),
        final(state)@.current_col == old(state)@.current_col,
{
    reveal(with_split_segment);
    let col: usize = state.current_col;
    let segment = p.emit_split_segment(
        &set.style,
        ctx.config.columns[col].width,
        head,
        first_segment,
        head == p.line_count(),
    );
    let x = ctx.config.column_x(col);
    state.draw_segment(&segment, x);
    let refs: usize = p.footnote_refs_in(fragments, head);
    let end: usize = if refs < footnotes.len() - noted {
        noted + refs
    } else {
        footnotes.len()
    };
    state.reserve_footnotes(ctx, footnotes, noted, end);
    end
}

/// Place a paragraph whose lines may be divided between columns and pages.
///
/// Returns where on the page its last part starts.
pub fn emit_split_paragraph<'doc>(
    state: &mut PageLayoutState<'doc>,
    fragments: &[Fragment],
    setting: Setting,
    block_idx: usize,
    ctx: &LayoutCtx<'_>,
    footnotes: &'doc [LayoutFootnote],
    blocks: &[LayoutBlock],
    relocated: &Vec<bool>,
    start_y: Pt,
) -> (r: Pt)
    requires
        old(state)@.current_col < ctx.config.columns@.len(),
        relocated@.len() == blocks@.len(),
    ensures
        (final(state)@, r) == split_from(
            old(state)@,
            (SplitJob {
                ctx: *ctx,
                place: FlowPlace {
                    blocks: blocks@,
                    relocated: relocated@,
                    num_cols: ctx.config.columns@.len() as usize,
                },
                fragments: fragments@,
                style: setting.style,
                footnotes: footnotes@,
                block_idx,
            }),
            setting@,
            0,
            true,
            0,
            false,
            start_y,
        ),
        final(state)@.current_col < ctx.config.columns@.len(),
{
    let ghost job = SplitJob {
        ctx: *ctx,
        place: FlowPlace {
            blocks: blocks@,
            relocated: relocated@,
            num_cols: ctx.config.columns@.len() as usize,
        },
        fragments: fragments@,
        style: setting.style,
        footnotes: footnotes@,
        block_idx,
    };
    let ghost begin = state@;
    let ghost begin_set = setting@;
    let columns: usize = ctx.config.num_columns();
    let style = setting.style;
    let mut set = setting;
    let mut from: usize = 0;
    let mut first_segment = true;
    let mut noted: usize = 0;
    let mut fresh_page = false;
    let mut y = start_y;
    loop
        invariant
            begin == old(state)@,
            begin_set == setting@,
            columns == ctx.config.columns@.len(),
            relocated@.len() == blocks@.len(),
            style == setting.style,
            job == (SplitJob {
                ctx: *ctx,
                place: FlowPlace {
                    blocks: blocks@,
                    relocated: relocated@,
                    num_cols: ctx.config.columns@.len() as usize,
                },
                fragments: fragments@,
                style: setting.style,
                footnotes: footnotes@,
                block_idx,
            }),
            state@.current_col < columns,
            from <= fragments@.len(),
            noted <= footnotes@.len(),
            split_from(
                state@,
                job,
                set@,
                from as int,
                first_segment,
                noted as int,
                fresh_page,
                y,
            ) == split_from(begin, job, begin_set, 0, true, 0, false, start_y),
        decreases
                fragments@.len() - from,
                if fresh_page {
                    0
                } else {
                    columns - state@.current_col
                },
    {
        let rest = slice_subrange(fragments, from, fragments.len());
        let p = place_in_column(state, ctx, &set, rest);
        let at_top = state.at_full_column_top() || fresh_page;
        let stays = find_staying_lines(
            state,
            &set,
            &p,
            rest,
            footnotes.len() == 0,
            style.widow_control,
            first_segment,
            at_top,
            Ghost(job),
        );
        match stays {
            None => {
                let next_fresh = state.current_col + 1 >= columns;
                state.advance_column_or_page(block_idx, ctx);
                let moved_y = state.cursor_y;
                set = continue_setting(
                    state,
                    ctx,
                    blocks,
                    relocated,
                    &style,
                    first_segment,
                    Ghost(job),
                );
                y = moved_y;
                fresh_page = next_fresh;
            },
            Some(head) => {
                let is_last = head == p.line_count();
                noted = draw_split_segment(
                    state,
                    ctx,
                    &set,
                    &p,
                    rest,
                    footnotes,
                    first_segment,
                    head,
                    noted,
                    Ghost(job),
                );
                if is_last {
                    return y;
                }
                let next: usize = p.lines[head].start;
                assert(p@.lines[head as int - 1].end == p@.lines[head as int].start);
                assert(p@.lines[head as int].start < p@.lines[head as int].end);
                assert(p@.lines[head as int - 1].start < p@.lines[head as int - 1].end);
                first_segment = false;
                state.advance_column_or_page(block_idx, ctx);
                y = state.cursor_y;
                set = continue_setting(
                    state,
                    ctx,
                    blocks,
                    relocated,
                    &style,
                    false,
                    Ghost(job),
                );
                from = from + next;
                fresh_page = false;
            },
        }
    }
}

} // verus!
