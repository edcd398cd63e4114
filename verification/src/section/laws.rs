//! What holds of a section as a whole.
use crate::block::{FootnoteParagraph, LayoutFootnote};
use crate::dimension::Pt;
use crate::draw_command::{shift_all, DrawCommand};
use crate::fragment::Fragment;
use crate::ink::{
    command_ink, footnotes_ink, fragments_ink, ink, lemma_footnotes_ink_split, note_ink,
    lemma_fragments_ink_rest, lemma_fragments_ink_split, lemma_ink_concat, lemma_ink_shift,
    lemma_laid_out_ink, lemma_placed, lemma_segment_ink, Ink,
};
use crate::page::{LayeredDrawCommand, PageView};
use crate::paragraph::{count_references, laid_out, placed, PlacedView};
use crate::section::split::{
    continued, fitting_lines, place_of, split_from, staying_lines, with_split_segment, SplitJob,
    TextSetting,
};
use crate::section::state::{
    footnote_commands, footnote_separator_gap, separator_line, FlowState, LayoutCtx,
};
use crate::style::ParagraphStyle;
use vstd::multiset::Multiset;
use vstd::prelude::*;

verus! {

/// What the commands behind a page's text show.
pub open spec fn behind_ink(behind: Seq<LayeredDrawCommand>) -> Multiset<Ink>
    decreases behind.len(),
{
    if behind.len() == 0 {
        Multiset::empty()
    } else {
        behind_ink(behind.drop_last()).add(command_ink(behind.last().command))
    }
}

/// What a page shows.
pub open spec fn page_ink(page: PageView) -> Multiset<Ink> {
    ink(page.commands).add(behind_ink(page.behind))
}

/// What pages show together.
pub open spec fn pages_ink(pages: Seq<PageView>) -> Multiset<Ink>
    decreases pages.len(),
{
    if pages.len() == 0 {
        Multiset::empty()
    } else {
        pages_ink(pages.drop_last()).add(page_ink(pages.last()))
    }
}

/// What the paragraphs of footnotes from `i` on show.
pub open spec fn notes_ink(notes: Seq<&FootnoteParagraph>, i: int) -> Multiset<Ink>
    decreases notes.len() - i,
{
    if i < 0 || i >= notes.len() {
        Multiset::empty()
    } else {
        fragments_ink(notes[i].fragments@, 0, notes[i].fragments@.len() as int).add(
            notes_ink(notes, i + 1),
        )
    }
}

impl<'doc> FlowState<'doc> {
    /// What has been drawn, and the footnotes that will stand at the foot of the page.
    pub open spec fn shown(self) -> Multiset<Ink> {
        pages_ink(self.pages).add(page_ink(self.page)).add(notes_ink(self.footnotes, 0))
    }
}

proof fn lemma_notes_ink_push(notes: Seq<&FootnoteParagraph>, note: &FootnoteParagraph, i: int)
    requires
        0 <= i <= notes.len(),
    ensures
        notes_ink(notes.push(note), i) == notes_ink(notes, i).add(
            fragments_ink(note.fragments@, 0, note.fragments@.len() as int),
        ),
    decreases notes.len() - i,
{
    let own = fragments_ink(note.fragments@, 0, note.fragments@.len() as int);
    if i < notes.len() {
        lemma_notes_ink_push(notes, note, i + 1);
        assert(notes.push(note)[i] == notes[i]);
        assert(notes_ink(notes.push(note), i) =~= notes_ink(notes, i).add(own));
    } else {
        assert(notes_ink(notes.push(note), i + 1) =~= Multiset::empty());
        assert(notes.push(note)[i] == note);
        assert(notes_ink(notes.push(note), i) =~= notes_ink(notes, i).add(own));
    }
}

proof fn lemma_footnote_commands_ink(
    notes: Seq<&FootnoteParagraph>,
    i: int,
    x: Pt,
    y: Pt,
    width: Pt,
    default_line_height: Pt,
    acc: Seq<DrawCommand>,
)
    requires
        0 <= i <= notes.len(),
    ensures
        ink(footnote_commands(notes, i, x, y, width, default_line_height, acc)) == ink(acc).add(
            notes_ink(notes, i),
        ),
    decreases notes.len() - i,
{
    if i < notes.len() {
        let note = laid_out(
            notes[i].fragments@,
            notes[i].style,
            width,
            Pt::infinity(),
            default_line_height,
        );
        let next = acc + shift_all(note.commands, x, y);
        assert(notes[i].fragments.len() == notes[i].fragments@.len());
        lemma_laid_out_ink(
            notes[i].fragments@,
            notes[i].style,
            width,
            Pt::infinity(),
            default_line_height,
        );
        lemma_ink_shift(note.commands, x, y);
        lemma_ink_concat(acc, shift_all(note.commands, x, y));
        lemma_footnote_commands_ink(
            notes,
            i + 1,
            x,
            y.plus(note.height),
            width,
            default_line_height,
            next,
        );
        assert(ink(acc).add(notes_ink(notes, i)) =~= ink(next).add(notes_ink(notes, i + 1)));
    } else {
        assert(ink(acc).add(notes_ink(notes, i)) =~= ink(acc));
    }
}

/// Drawing the footnotes of a page, or beginning a new page, keeps what is shown.
pub(crate) proof fn lemma_new_page_ink<'doc>(
    st: FlowState<'doc>,
    block_idx: usize,
    ctx: LayoutCtx<'_>,
)
    ensures
        st.flushed(ctx).shown() == st.shown(),
        st.on_new_page(block_idx, ctx).shown() == st.shown(),
{
    let done = st.flushed(ctx);
    if st.footnotes.len() > 0 {
        let width = ctx.config.content_width();
        let height = crate::section::state::footnotes_height(
            st.footnotes,
            0,
            width,
            ctx.default_line_height,
            Pt::zero(),
        );
        let top = ctx.page_bounds(st.page_index).bottom.minus(height).minus(
            footnote_separator_gap(),
        );
        let line = separator_line(ctx.config.margins.left.plus(ctx.separator_indent), top, width);
        let lined = st.page.commands.push(line);
        assert(lined.drop_last() =~= st.page.commands);
        assert(ink(lined) =~= ink(st.page.commands));
        lemma_footnote_commands_ink(
            st.footnotes,
            0,
            ctx.config.margins.left,
            top.plus(footnote_separator_gap()),
            width,
            ctx.default_line_height,
            lined,
        );
        assert(done.shown() =~= st.shown());
    }
    let next = st.on_new_page(block_idx, ctx);
    assert(next.pages.drop_last() =~= done.pages);
    assert(next.pages.last() == done.page);
    assert(notes_ink(done.footnotes, 0) =~= Multiset::empty());
    assert(page_ink(next.page) =~= Multiset::empty());
    assert(next.shown() =~= done.shown());
}

pub(crate) proof fn lemma_advanced_ink<'doc>(
    st: FlowState<'doc>,
    ctx: LayoutCtx<'_>,
    block_idx: usize,
)
    ensures
        st.advanced(ctx, block_idx).shown() == st.shown(),
{
    lemma_new_page_ink(st, block_idx, ctx);
}

pub(crate) proof fn lemma_reserved_note_ink<'doc>(
    st: FlowState<'doc>,
    ctx: LayoutCtx<'_>,
    note: LayoutFootnote,
    i: int,
)
    requires
        0 <= i <= note.paragraphs@.len(),
    ensures
        ({
            let next = st.with_reserved_note(ctx, note, i);
            &&& next.shown() == st.shown().add(note_ink(note, i))
            &&& next.current_col == st.current_col
            &&& next.page == st.page
        }),
    decreases note.paragraphs@.len() - i,
{
    if i < note.paragraphs@.len() {
        let paragraph = note.paragraphs@[i];
        let height = laid_out(
            paragraph.fragments@,
            paragraph.style,
            ctx.config.content_width(),
            Pt::infinity(),
            ctx.default_line_height,
        ).height;
        let bottom = if st.footnotes.len() == 0 {
            st.bottom.minus(footnote_separator_gap())
        } else {
            st.bottom
        };
        let next = FlowState {
            bottom: bottom.minus(height),
            footnotes: st.footnotes.push(&note.paragraphs@[i]),
            ..st
        };
        lemma_notes_ink_push(st.footnotes, &note.paragraphs@[i], 0);
        lemma_reserved_note_ink(next, ctx, note, i + 1);
        assert(next.shown().add(note_ink(note, i + 1)) =~= st.shown().add(note_ink(note, i)));
    } else {
        assert(st.shown().add(note_ink(note, i)) =~= st.shown());
    }
}

pub(crate) proof fn lemma_reserved_ink<'doc>(
    st: FlowState<'doc>,
    ctx: LayoutCtx<'_>,
    footnotes: Seq<LayoutFootnote>,
    n: int,
    end: int,
)
    requires
        0 <= n <= end <= footnotes.len(),
    ensures
        ({
            let next = st.with_reserved(ctx, footnotes, n, end);
            &&& next.shown() == st.shown().add(footnotes_ink(footnotes, n, end))
            &&& next.current_col == st.current_col
            &&& next.page == st.page
        }),
    decreases end - n,
{
    if n < end {
        lemma_reserved_note_ink(st, ctx, footnotes[n], 0);
        let next = st.with_reserved_note(ctx, footnotes[n], 0);
        lemma_reserved_ink(next, ctx, footnotes, n + 1, end);
        assert(next.shown().add(footnotes_ink(footnotes, n + 1, end)) =~= st.shown().add(
            footnotes_ink(footnotes, n, end),
        ));
    } else {
        assert(st.shown().add(footnotes_ink(footnotes, n, end)) =~= st.shown());
    }
}

/// References are counted one after another.
proof fn lemma_references(fragments: Seq<Fragment>, a: int, b: int, c: int, acc: int)
    requires
        a <= b <= c,
    ensures
        count_references(fragments, a, c, acc) == count_references(
            fragments,
            b,
            c,
            count_references(fragments, a, b, acc),
        ),
        count_references(fragments, a, b, acc) == acc + count_references(fragments, a, b, 0),
        count_references(fragments, a, b, 0) >= 0,
    decreases b - a,
{
    if a < b {
        let step = if fragments[a].is_footnote_reference() {
            1int
        } else {
            0
        };
        lemma_references(fragments, a + 1, b, c, acc + step);
        lemma_references(fragments, a + 1, b, c, step);
    }
}

/// The references in a rest of a paragraph are those in the paragraph.
proof fn lemma_references_in_rest(fragments: Seq<Fragment>, from: int, a: int, b: int, acc: int)
    requires
        0 <= from <= fragments.len(),
        0 <= a,
        b <= fragments.len() - from,
    ensures
        count_references(fragments.subrange(from, fragments.len() as int), a, b, acc)
            == count_references(fragments, from + a, from + b, acc),
    decreases b - a,
{
    if a < b {
        let step = if fragments[from + a].is_footnote_reference() {
            1int
        } else {
            0
        };
        lemma_references_in_rest(fragments, from, a + 1, b, acc + step);
    }
}

proof fn lemma_fitting_lines(
    p: PlacedView,
    fragments: Seq<Fragment>,
    style: ParagraphStyle,
    no_footnotes: bool,
    available: Pt,
    i: int,
    used: Pt,
)
    requires
        0 <= i <= p.lines.len(),
    ensures
        i <= fitting_lines(p, fragments, style, no_footnotes, available, i, used) <= p.lines.len(),
    decreases p.lines.len() - i,
{
    if i < p.lines.len() {
        lemma_fitting_lines(
            p,
            fragments,
            style,
            no_footnotes,
            available,
            i + 1,
            used.plus(p.line_height(i)),
        );
    }
}

/// Where lines stay, it is one at least; and at the top of a page some do.
proof fn lemma_staying_lines(
    st: FlowState<'_>,
    job: SplitJob<'_>,
    set: TextSetting,
    p: PlacedView,
    fragments: Seq<Fragment>,
    first_segment: bool,
    at_top: bool,
)
    requires
        0 < p.lines.len() <= usize::MAX,
    ensures
        ({
            let r = staying_lines(st, job, set, p, fragments, first_segment, at_top);
            &&& r matches Some(head) ==> 0 < head <= p.lines.len()
            &&& at_top ==> r is Some
        }),
{
    reveal(staying_lines);
    lemma_fitting_lines(
        p,
        fragments,
        set.style,
        job.footnotes.len() == 0,
        st.bottom.minus(st.cursor_y).max(Pt::zero()),
        0,
        if first_segment {
            set.style.space_before
        } else {
            Pt::zero()
        },
    );
}

/// Going on in another column or page draws nothing.
proof fn lemma_continued_ink<'doc>(st: FlowState<'doc>, job: SplitJob<'_>, first_segment: bool)
    ensures
        continued(st, job, first_segment).0.shown() == st.shown(),
        continued(st, job, first_segment).0.current_col == st.current_col,
        continued(st, job, first_segment).0.page == st.page,
{
    reveal(continued);
}

proof fn lemma_split_segment_ink<'doc>(
    st: FlowState<'doc>,
    job: SplitJob<'_>,
    set: TextSetting,
    from: int,
    first_segment: bool,
    head: int,
    noted: int,
)
    requires
        job.fragments.len() <= usize::MAX,
        0 <= from <= job.fragments.len(),
        0 <= noted <= job.footnotes.len(),
        ({
            let fragments = job.fragments.subrange(from, job.fragments.len() as int);
            0 < head <= placed(fragments, place_of(st, job.ctx, set), set.style).lines.len()
        }),
    ensures
        ({
            let fragments = job.fragments.subrange(from, job.fragments.len() as int);
            let p = placed(fragments, place_of(st, job.ctx, set), set.style);
            let end = from + p.lines[head - 1].end;
            let (next, next_noted) = with_split_segment(
                st,
                job,
                set,
                p,
                fragments,
                first_segment,
                head,
                noted,
            );
            let refs = noted + count_references(job.fragments, from, end, 0);
            &&& next_noted == if refs < job.footnotes.len() {
                refs
            } else {
                job.footnotes.len() as int
            }
            &&& noted <= next_noted
            &&& next.current_col == st.current_col
            &&& next.page.behind == st.page.behind
            &&& next.shown() == st.shown().add(fragments_ink(job.fragments, from, end)).add(
                footnotes_ink(job.footnotes, noted, next_noted),
            )
        }),
{
    reveal(with_split_segment);
    let fragments = job.fragments.subrange(from, job.fragments.len() as int);
    let place = place_of(st, job.ctx, set);
    let p = placed(fragments, place, set.style);
    lemma_placed(fragments, place, set.style);
    let cut = p.lines[head - 1].end as int;
    let col = st.current_col as int;
    let width = job.ctx.config.columns@[col].width;
    let segment = p.segment(set.style, width, head, first_segment, head == p.lines.len());
    let x = job.ctx.config.col_x(col);
    lemma_segment_ink(
        fragments,
        place,
        set.style,
        set.style,
        width,
        head,
        first_segment,
        head == p.lines.len(),
    );
    lemma_fragments_ink_rest(job.fragments, from, 0, cut);
    let drawn = st.with_segment(segment, x);
    lemma_ink_shift(segment.commands, x, st.cursor_y);
    lemma_ink_concat(st.page.commands, shift_all(segment.commands, x, st.cursor_y));
    assert(drawn.shown() =~= st.shown().add(fragments_ink(job.fragments, from, from + cut)));
    lemma_references_in_rest(job.fragments, from, 0, cut, 0);
    lemma_references(job.fragments, from, from + cut, from + cut, 0);
    let refs = noted + count_references(job.fragments, from, from + cut, 0);
    let next_noted = if refs < job.footnotes.len() {
        refs
    } else {
        job.footnotes.len() as int
    };
    lemma_reserved_ink(drawn, job.ctx, job.footnotes, noted, next_noted);
}

/// The number of footnotes that have been reserved after the fragments `from..end`.
pub open spec fn noted_by(job: SplitJob<'_>, from: int, end: int, noted: int) -> int {
    let refs = noted + count_references(job.fragments, from, end, 0);
    if refs < job.footnotes.len() {
        refs
    } else {
        job.footnotes.len() as int
    }
}

/// Where no line stays, the paragraph goes on elsewhere with nothing drawn.
proof fn lemma_split_moves<'doc>(
    st: FlowState<'doc>,
    job: SplitJob<'_>,
    set: TextSetting,
    from: int,
    first_segment: bool,
    noted: int,
    start_y: Pt,
)
    requires
        0 <= from <= job.fragments.len(),
        st.current_col < job.ctx.config.columns@.len(),
        ({
            let fragments = job.fragments.subrange(from, job.fragments.len() as int);
            staying_lines(
                st,
                job,
                set,
                placed(fragments, place_of(st, job.ctx, set), set.style),
                fragments,
                first_segment,
                st.at_full_column_top(),
            ) is None
        }),
    ensures
        ({
            let columns = job.ctx.config.columns@.len();
            let moved = st.advanced(job.ctx, job.block_idx);
            let (next, next_set) = continued(moved, job, first_segment);
            let next_fresh = st.current_col + 1 >= columns;
            &&& next.shown() == st.shown()
            &&& st.page.behind.len() == 0 ==> next.page.behind.len() == 0
            &&& next.current_col < columns
            &&& next_fresh || next.current_col == st.current_col + 1
            &&& split_from(st, job, set, from, first_segment, noted, false, start_y)
                == split_from(
                next,
                job,
                next_set,
                from,
                first_segment,
                noted,
                next_fresh,
                moved.cursor_y,
            )
        }),
{
    let moved = st.advanced(job.ctx, job.block_idx);
    assert(job.ctx.config.columns.len() == job.ctx.config.columns@.len());
    lemma_advanced_ink(st, job.ctx, job.block_idx);
    lemma_continued_ink(moved, job, first_segment);
}

/// Where lines stay, they are drawn, and what is left of the paragraph goes on elsewhere.
proof fn lemma_split_stays<'doc>(
    st: FlowState<'doc>,
    job: SplitJob<'_>,
    set: TextSetting,
    from: int,
    first_segment: bool,
    noted: int,
    fresh_page: bool,
    start_y: Pt,
    head: usize,
)
    requires
        job.fragments.len() <= usize::MAX,
        0 <= from <= job.fragments.len(),
        0 <= noted <= job.footnotes.len(),
        st.current_col < job.ctx.config.columns@.len(),
        ({
            let fragments = job.fragments.subrange(from, job.fragments.len() as int);
            let p = placed(fragments, place_of(st, job.ctx, set), set.style);
            &&& staying_lines(
                st,
                job,
                set,
                p,
                fragments,
                first_segment,
                st.at_full_column_top() || fresh_page,
            ) == Some(head)
            &&& 0 < head <= p.lines.len()
        }),
    ensures
        ({
            let fragments = job.fragments.subrange(from, job.fragments.len() as int);
            let p = placed(fragments, place_of(st, job.ctx, set), set.style);
            let cut = from + p.lines[head as int - 1].end;
            let (drawn, next_noted) = with_split_segment(
                st,
                job,
                set,
                p,
                fragments,
                first_segment,
                head as int,
                noted,
            );
            let moved = drawn.advanced(job.ctx, job.block_idx);
            let (next, next_set) = continued(moved, job, false);
            let result = split_from(
                st,
                job,
                set,
                from,
                first_segment,
                noted,
                fresh_page,
                start_y,
            );
            &&& next_noted == noted_by(job, from, cut, noted)
            &&& noted <= next_noted <= job.footnotes.len()
            &&& drawn.shown() == st.shown().add(fragments_ink(job.fragments, from, cut)).add(
                footnotes_ink(job.footnotes, noted, next_noted),
            )
            &&& cut <= job.fragments.len()
            &&& drawn.page.behind == st.page.behind
            &&& drawn.current_col == st.current_col
            &&& st.page.behind.len() == 0 ==> next.page.behind.len() == 0
            &&& head == p.lines.len() ==> cut == job.fragments.len() && result == (drawn, start_y)
            &&& head < p.lines.len() ==> from < cut && next.shown() == drawn.shown()
                && next.current_col < job.ctx.config.columns@.len() && result == split_from(
                next,
                job,
                next_set,
                cut,
                false,
                next_noted,
                false,
                moved.cursor_y,
            )
        }),
{
    let fragments = job.fragments.subrange(from, job.fragments.len() as int);
    let p = placed(fragments, place_of(st, job.ctx, set), set.style);
    lemma_placed(fragments, place_of(st, job.ctx, set), set.style);
    lemma_split_segment_ink(st, job, set, from, first_segment, head as int, noted);
    let (drawn, next_noted) = with_split_segment(
        st,
        job,
        set,
        p,
        fragments,
        first_segment,
        head as int,
        noted,
    );
    let line = p.lines[head as int - 1];
    let moved = drawn.advanced(job.ctx, job.block_idx);
    lemma_advanced_ink(drawn, job.ctx, job.block_idx);
    lemma_continued_ink(moved, job, false);
    if head < p.lines.len() {
        let after = p.lines[head as int];
        assert(p.lines[head as int - 1].end == after.start);
    }
}

/// What is shown of two parts of a paragraph together.
proof fn lemma_parts(job: SplitJob<'_>, from: int, cut: int, noted: int, before: Multiset<Ink>)
    requires
        0 <= from <= cut <= job.fragments.len(),
        0 <= noted <= job.footnotes.len(),
    ensures
        ({
            let len = job.fragments.len() as int;
            let next_noted = noted_by(job, from, cut, noted);
            let all_noted = noted_by(job, from, len, noted);
            let first = before.add(fragments_ink(job.fragments, from, cut)).add(
                footnotes_ink(job.footnotes, noted, next_noted),
            );
            &&& all_noted == noted_by(job, cut, len, next_noted)
            &&& first.add(fragments_ink(job.fragments, cut, len)).add(
                footnotes_ink(job.footnotes, next_noted, all_noted),
            ) == before.add(fragments_ink(job.fragments, from, len)).add(
                footnotes_ink(job.footnotes, noted, all_noted),
            )
        }),
{
    let len = job.fragments.len() as int;
    let next_noted = noted_by(job, from, cut, noted);
    let all_noted = noted_by(job, from, len, noted);
    lemma_fragments_ink_split(job.fragments, from, cut, len);
    lemma_references(job.fragments, from, cut, len, 0);
    lemma_references(job.fragments, cut, len, len, 0);
    lemma_references(job.fragments, cut, len, len, count_references(job.fragments, from, cut, 0));
    lemma_footnotes_ink_split(job.footnotes, noted, next_noted, all_noted);
    let first = before.add(fragments_ink(job.fragments, from, cut)).add(
        footnotes_ink(job.footnotes, noted, next_noted),
    );
    assert(first.add(fragments_ink(job.fragments, cut, len)).add(
        footnotes_ink(job.footnotes, next_noted, all_noted),
    ) =~= before.add(fragments_ink(job.fragments, from, len)).add(
        footnotes_ink(job.footnotes, noted, all_noted),
    ));
}

pub(crate) proof fn lemma_split_from_ink<'doc>(
    st: FlowState<'doc>,
    job: SplitJob<'_>,
    set: TextSetting,
    from: int,
    first_segment: bool,
    noted: int,
    fresh_page: bool,
    start_y: Pt,
)
    requires
        job.fragments.len() <= usize::MAX,
        0 <= from <= job.fragments.len(),
        0 <= noted <= job.footnotes.len(),
        st.current_col < job.ctx.config.columns@.len(),
    ensures
        split_from(st, job, set, from, first_segment, noted, fresh_page, start_y).0.shown()
            == st.shown().add(
            fragments_ink(job.fragments, from, job.fragments.len() as int),
        ).add(
            footnotes_ink(
                job.footnotes,
                noted,
                noted_by(job, from, job.fragments.len() as int, noted),
            ),
        ),
        ({
            let end = split_from(
                st,
                job,
                set,
                from,
                first_segment,
                noted,
                fresh_page,
                start_y,
            ).0;
            &&& end.current_col < job.ctx.config.columns@.len()
            &&& st.page.behind.len() == 0 ==> end.page.behind.len() == 0
        }),
    decreases
            job.fragments.len() - from,
            if fresh_page {
                0
            } else {
                job.ctx.config.columns@.len() - st.current_col
            },
{
    let columns = job.ctx.config.columns@.len();
    let len = job.fragments.len() as int;
    let fragments = job.fragments.subrange(from, len);
    let p = placed(fragments, place_of(st, job.ctx, set), set.style);
    let at_top = st.at_full_column_top() || fresh_page;
    lemma_placed(fragments, place_of(st, job.ctx, set), set.style);
    lemma_staying_lines(st, job, set, p, fragments, first_segment, at_top);
    match staying_lines(st, job, set, p, fragments, first_segment, at_top) {
        None => {
            let moved = st.advanced(job.ctx, job.block_idx);
            let (next, next_set) = continued(moved, job, first_segment);
            lemma_split_moves(st, job, set, from, first_segment, noted, start_y);
            lemma_split_from_ink(
                next,
                job,
                next_set,
                from,
                first_segment,
                noted,
                st.current_col + 1 >= columns,
                moved.cursor_y,
            );
        },
        Some(head) => {
            let (drawn, next_noted) = with_split_segment(
                st,
                job,
                set,
                p,
                fragments,
                first_segment,
                head as int,
                noted,
            );
            lemma_split_stays(
                st,
                job,
                set,
                from,
                first_segment,
                noted,
                fresh_page,
                start_y,
                head,
            );
            let cut = from + p.lines[head as int - 1].end;
            if head < p.lines.len() {
                let moved = drawn.advanced(job.ctx, job.block_idx);
                let (next, next_set) = continued(moved, job, false);
                lemma_split_from_ink(
                    next,
                    job,
                    next_set,
                    cut,
                    false,
                    next_noted,
                    false,
                    moved.cursor_y,
                );
                lemma_parts(job, from, cut, noted, st.shown());
            }
        },
    }
}

/// A paragraph that is divided between columns and pages is drawn in full and once: all that its
/// fragments show comes to what the pages show, and nothing else does but the footnotes that it
/// refers to.
pub proof fn law_divided_paragraph_is_drawn_once<'doc>(
    st: FlowState<'doc>,
    job: SplitJob<'_>,
    set: TextSetting,
    start_y: Pt,
)
    requires
        job.fragments.len() <= usize::MAX,
        st.current_col < job.ctx.config.columns@.len(),
    ensures
        ({
            let end = split_from(st, job, set, 0, true, 0, false, start_y).0;
            let len = job.fragments.len() as int;
            end.shown() == st.shown().add(fragments_ink(job.fragments, 0, len)).add(
                footnotes_ink(job.footnotes, 0, noted_by(job, 0, len, 0)),
            )
        }),
{
    lemma_split_from_ink(st, job, set, 0, true, 0, false, start_y);
}

} // verus!
