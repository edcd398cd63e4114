//! Where footnotes and endnotes stand.
use crate::block::FootnoteParagraph;
use crate::dimension::Pt;
use crate::document::{endnote_page, note_refs, Document};
use crate::draw_command::{shift_all, DrawCommand};
use crate::page::{PageConfig, PageView};
use crate::paragraph::{laid_out, SegmentView};
use crate::section::state::{
    footnote_commands, footnotes_height, separator_line, with_footnotes, LayoutCtx,
};
use vstd::prelude::*;

verus! {

/// Whether a number of units is a length.
pub open spec fn is_length(units: int) -> bool {
    i64::MIN <= units <= i64::MAX
}

/// Whether the commands from number `at` on are those of `source`, moved by `(dx, dy)`.
pub open spec fn holds_moved(
    commands: Seq<DrawCommand>,
    at: int,
    source: Seq<DrawCommand>,
    dx: int,
    dy: int,
) -> bool {
    &&& 0 <= at
    &&& at + source.len() <= commands.len()
    &&& forall|k: int| #![trigger source[k]]
        0 <= k < source.len() ==> commands[at + k] == source[k].shifted(
            Pt { units: dx as i64 },
            Pt { units: dy as i64 },
        )
}

/// The width between the left and the right margin of a page.
pub open spec fn text_width(config: PageConfig) -> int {
    config.page_size.width.units - config.margins.left.units - config.margins.right.units
}

/// Whether the text of a page has a width.
pub open spec fn has_text_width(config: PageConfig) -> bool {
    is_length(config.margins.left.units + config.margins.right.units) && is_length(
        text_width(config),
    )
}

/// A note set alone in the given width.
pub open spec fn note_alone(note: FootnoteParagraph, width: int, line_height: Pt) -> SegmentView {
    laid_out(
        note.fragments@,
        note.style,
        Pt { units: width as i64 },
        Pt::infinity(),
        line_height,
    )
}

/// The heights of the first `n` notes together.
pub open spec fn notes_above(
    notes: Seq<&FootnoteParagraph>,
    n: int,
    width: int,
    line_height: Pt,
) -> int
    decreases n,
{
    if n <= 0 {
        0
    } else {
        notes_above(notes, n - 1, width, line_height) + note_alone(
            *notes[n - 1],
            width,
            line_height,
        ).height.units
    }
}

/// How many commands draw the first `n` notes.
pub open spec fn commands_above(
    notes: Seq<&FootnoteParagraph>,
    n: int,
    width: int,
    line_height: Pt,
) -> int
    decreases n,
{
    if n <= 0 {
        0
    } else {
        commands_above(notes, n - 1, width, line_height) + note_alone(
            *notes[n - 1],
            width,
            line_height,
        ).commands.len()
    }
}

/// Whether notes set one below another from `top` on stand at lengths.
pub open spec fn notes_have_places(
    notes: Seq<&FootnoteParagraph>,
    top: int,
    width: int,
    line_height: Pt,
) -> bool {
    forall|n: int| #![trigger notes_above(notes, n, width, line_height)]
        0 <= n <= notes.len() ==> is_length(top + notes_above(notes, n, width, line_height))
}

/// Whether the commands after number `from` are those of the notes, which stand one below another from
/// `(left, top)` on and nothing between them.
pub open spec fn notes_stand(
    commands: Seq<DrawCommand>,
    from: int,
    notes: Seq<&FootnoteParagraph>,
    left: int,
    top: int,
    width: int,
    line_height: Pt,
) -> bool {
    &&& commands.len() == from + commands_above(notes, notes.len() as int, width, line_height)
    &&& forall|n: int| #![trigger notes[n]]
        0 <= n < notes.len() ==> holds_moved(
            commands,
            from + commands_above(notes, n, width, line_height),
            note_alone(*notes[n], width, line_height).commands,
            left,
            top + notes_above(notes, n, width, line_height),
        )
}

proof fn lemma_commands_above(
    notes: Seq<&FootnoteParagraph>,
    m: int,
    n: int,
    width: int,
    line_height: Pt,
)
    requires
        0 <= m <= n,
    ensures
        0 <= commands_above(notes, m, width, line_height) <= commands_above(
            notes,
            n,
            width,
            line_height,
        ),
    decreases n,
{
    if m < n {
        lemma_commands_above(notes, m, n - 1, width, line_height);
    } else if m > 0 {
        lemma_commands_above(notes, m - 1, n - 1, width, line_height);
    }
}

proof fn lemma_notes_stand(
    notes: Seq<&FootnoteParagraph>,
    i: int,
    left: Pt,
    top: int,
    width: Pt,
    line_height: Pt,
    acc: Seq<DrawCommand>,
    from: int,
)
    requires
        0 <= i <= notes.len(),
        0 <= from,
        notes_have_places(notes, top, width.units as int, line_height),
        acc.len() == from + commands_above(notes, i, width.units as int, line_height),
        forall|n: int| #![trigger notes[n]]
            0 <= n < i ==> holds_moved(
                acc,
                from + commands_above(notes, n, width.units as int, line_height),
                note_alone(*notes[n], width.units as int, line_height).commands,
                left.units as int,
                top + notes_above(notes, n, width.units as int, line_height),
            ),
    ensures
        ({
            let y = Pt {
                units: (top + notes_above(notes, i, width.units as int, line_height)) as i64,
            };
            let r = footnote_commands(notes, i, left, y, width, line_height, acc);
            &&& notes_stand(
                r,
                from,
                notes,
                left.units as int,
                top,
                width.units as int,
                line_height,
            )
            &&& acc.len() <= r.len()
            &&& forall|k: int| #![trigger r[k]] 0 <= k < acc.len() ==> r[k] == acc[k]
        }),
    decreases notes.len() - i,
{
    let w = width.units as int;
    let y = Pt { units: (top + notes_above(notes, i, w, line_height)) as i64 };
    assert(is_length(top + notes_above(notes, i, w, line_height)));
    if i < notes.len() {
        let note = note_alone(*notes[i], w, line_height);
        assert(is_length(top + notes_above(notes, i + 1, w, line_height)));
        let next = acc + shift_all(note.commands, left, y);
        assert forall|n: int| #![trigger notes[n]] 0 <= n < i + 1 implies holds_moved(
            next,
            from + commands_above(notes, n, w, line_height),
            note_alone(*notes[n], w, line_height).commands,
            left.units as int,
            top + notes_above(notes, n, w, line_height),
        ) by {
            lemma_commands_above(notes, 0, n, w, line_height);
            if n < i {
                lemma_commands_above(notes, n + 1, i, w, line_height);
                let source = note_alone(*notes[n], w, line_height).commands;
                let at = from + commands_above(notes, n, w, line_height);
                assert forall|k: int| #![trigger source[k]] 0 <= k < source.len() implies next[at
                    + k] == source[k].shifted(
                    left,
                    Pt { units: (top + notes_above(notes, n, w, line_height)) as i64 },
                ) by {
                    assert(next[at + k] == acc[at + k]);
                }
            }
        }
        lemma_notes_stand(notes, i + 1, left, top, width, line_height, next, from);
        let r = footnote_commands(notes, i, left, y, width, line_height, acc);
        assert forall|k: int| #![trigger r[k]] 0 <= k < acc.len() implies r[k] == acc[k] by {
            assert(next[k] == acc[k]);
        }
    }
}

/// Whether a command is the line above notes: from `left` to the right at the height `y`, about a
/// third of the text's width long.
pub open spec fn is_separator(command: DrawCommand, left: int, y: int, width: int) -> bool {
    command matches DrawCommand::Line { line, .. } && {
        &&& line.start.x.units == left
        &&& line.start.y.units == y
        &&& line.end.y.units == y
        &&& 0 <= 33 * width - 100 * (line.end.x.units - line.start.x.units) < 100
    }
}

/// The separator above endnotes stands at the top margin. The endnotes stand four points below it,
/// between the left and the right margin: the first note starts at the left margin, and each further
/// one directly below the note before it. There is nothing else on their page.
pub proof fn law_endnotes_stand_below_the_separator(doc: Document, config: PageConfig)
    requires
        has_text_width(config),
        is_length(config.margins.left.units + doc.separator_indent.units),
        is_length(
            config.margins.left.units + doc.separator_indent.units + (33 * text_width(config))
                / 100,
        ),
        notes_have_places(
            note_refs(doc.endnotes@),
            config.margins.top.units + 4 * 76200,
            text_width(config),
            doc.default_line_height,
        ),
    ensures
        ({
            let page = endnote_page(doc, config);
            &&& page.page_size == config.page_size
            &&& page.behind.len() == 0
            &&& page.commands.len() > 0
            &&& is_separator(
                page.commands[0],
                config.margins.left.units + doc.separator_indent.units,
                config.margins.top.units as int,
                text_width(config),
            )
            &&& notes_stand(
                page.commands,
                1,
                note_refs(doc.endnotes@),
                config.margins.left.units as int,
                config.margins.top.units + 4 * 76200,
                text_width(config),
                doc.default_line_height,
            )
        }),
{
    let notes = note_refs(doc.endnotes@);
    let width = config.content_width();
    let line = separator_line(
        config.margins.left.plus(doc.separator_indent),
        config.margins.top,
        width,
    );
    assert(notes_above(notes, 0, width.units as int, doc.default_line_height) == 0);
    assert(is_length(
        config.margins.top.units + 4 * 76200 + notes_above(
            notes,
            0,
            width.units as int,
            doc.default_line_height,
        ),
    ));
    lemma_notes_stand(
        notes,
        0,
        config.margins.left,
        config.margins.top.units + 4 * 76200,
        width,
        doc.default_line_height,
        seq![line],
        1,
    );
    let page = endnote_page(doc, config);
    assert(page.commands[0] == seq![line][0]);
}

proof fn lemma_height_is_exact(
    notes: Seq<&FootnoteParagraph>,
    i: int,
    width: Pt,
    line_height: Pt,
)
    requires
        0 <= i <= notes.len(),
        notes_have_places(notes, 0, width.units as int, line_height),
    ensures
        footnotes_height(
            notes,
            i,
            width,
            line_height,
            Pt { units: notes_above(notes, i, width.units as int, line_height) as i64 },
        ).units == notes_above(notes, notes.len() as int, width.units as int, line_height),
    decreases notes.len() - i,
{
    assert(is_length(0 + notes_above(notes, i, width.units as int, line_height)));
    if i < notes.len() {
        assert(is_length(0 + notes_above(notes, i + 1, width.units as int, line_height)));
        lemma_height_is_exact(notes, i + 1, width, line_height);
    }
}

/// The footnotes of a page stand at its foot: one below another between the left and the right
/// margin, the last one ends at `bottom`, and the separator stands four points above the first. What
/// was drawn on the page before stays.
pub proof fn law_footnotes_stand_at_the_foot(
    page: PageView,
    ctx: LayoutCtx<'_>,
    footnotes: Seq<&FootnoteParagraph>,
    bottom: Pt,
)
    requires
        has_text_width(*ctx.config),
        is_length(ctx.config.margins.left.units + ctx.separator_indent.units),
        is_length(
            ctx.config.margins.left.units + ctx.separator_indent.units + (33 * text_width(
                *ctx.config,
            )) / 100,
        ),
        notes_have_places(footnotes, 0, text_width(*ctx.config), ctx.default_line_height),
        ({
            let height = notes_above(
                footnotes,
                footnotes.len() as int,
                text_width(*ctx.config),
                ctx.default_line_height,
            );
            &&& is_length(bottom.units - height - 4 * 76200)
            &&& notes_have_places(
                footnotes,
                bottom.units - height,
                text_width(*ctx.config),
                ctx.default_line_height,
            )
        }),
    ensures
        ({
            let drawn = with_footnotes(page, ctx, footnotes, bottom);
            let width = text_width(*ctx.config);
            let n = page.commands.len() as int;
            let top = bottom.units - notes_above(
                footnotes,
                footnotes.len() as int,
                width,
                ctx.default_line_height,
            );
            &&& drawn.page_size == page.page_size
            &&& drawn.behind == page.behind
            &&& n < drawn.commands.len()
            &&& forall|k: int| #![trigger drawn.commands[k]]
                0 <= k < n ==> drawn.commands[k] == page.commands[k]
            &&& is_separator(
                drawn.commands[n],
                ctx.config.margins.left.units + ctx.separator_indent.units,
                top - 4 * 76200,
                width,
            )
            &&& notes_stand(
                drawn.commands,
                n + 1,
                footnotes,
                ctx.config.margins.left.units as int,
                top,
                width,
                ctx.default_line_height,
            )
        }),
{
    let width = ctx.config.content_width();
    let w = width.units as int;
    let n = page.commands.len() as int;
    lemma_height_is_exact(footnotes, 0, width, ctx.default_line_height);
    let height = notes_above(footnotes, footnotes.len() as int, w, ctx.default_line_height);
    assert(is_length(0 + height));
    assert(notes_above(footnotes, 0, w, ctx.default_line_height) == 0);
    assert(is_length(
        bottom.units - height + notes_above(footnotes, 0, w, ctx.default_line_height),
    ));
    let top = Pt { units: (bottom.units - height) as i64 };
    let line = separator_line(
        ctx.config.margins.left.plus(ctx.separator_indent),
        Pt { units: (bottom.units - height - 4 * 76200) as i64 },
        width,
    );
    let acc = page.commands.push(line);
    lemma_notes_stand(
        footnotes,
        0,
        ctx.config.margins.left,
        bottom.units - height,
        width,
        ctx.default_line_height,
        acc,
        n + 1,
    );
    let drawn = with_footnotes(page, ctx, footnotes, bottom);
    assert(drawn.commands == footnote_commands(
        footnotes,
        0,
        ctx.config.margins.left,
        top,
        width,
        ctx.default_line_height,
        acc,
    ));
    assert(drawn.commands[n] == acc[n]);
    assert forall|k: int| #![trigger drawn.commands[k]] 0 <= k < n implies drawn.commands[k]
        == page.commands[k] by {
        assert(drawn.commands[k] == acc[k]);
    }
}

} // verus!
