//! What drawn pages show: the texts, images and outlines on them, wherever they stand.
use crate::block::{FloatingImage, FloatingShape, LayoutFootnote};
use crate::draw_command::{shift_all, DrawCommand, ImageId, PathId, TextId};
use crate::fragment::Fragment;
use crate::paragraph::{
    decoration, fragment_command, laid_out, line_commands, line_end, line_end_from, next_line,
    open_place, place_from, placed, well_placed, with_line, PlaceView, PlacedView,
};
use crate::dimension::Pt;
use crate::style::ParagraphStyle;
use vstd::multiset::Multiset;
use vstd::prelude::*;

verus! {

/// A piece of what a page shows.
pub enum Ink {
    Text(TextId),
    Image(ImageId),
    Path(PathId),
}

/// What a command shows. Lines and filled boxes only decorate.
pub open spec fn command_ink(command: DrawCommand) -> Multiset<Ink> {
    match command {
        DrawCommand::Text { text, .. } => Multiset::singleton(Ink::Text(text)),
        DrawCommand::Image { image, .. } => Multiset::singleton(Ink::Image(image)),
        DrawCommand::Path { path, .. } => Multiset::singleton(Ink::Path(path)),
        _ => Multiset::empty(),
    }
}

/// What a list of commands shows.
pub open spec fn ink(commands: Seq<DrawCommand>) -> Multiset<Ink>
    decreases commands.len(),
{
    if commands.len() == 0 {
        Multiset::empty()
    } else {
        ink(commands.drop_last()).add(command_ink(commands.last()))
    }
}

/// What a fragment shows.
pub open spec fn fragment_ink(fragment: Fragment) -> Multiset<Ink> {
    match fragment {
        Fragment::Text { text, .. } => Multiset::singleton(Ink::Text(text)),
        Fragment::Image { image, .. } => Multiset::singleton(Ink::Image(image)),
        Fragment::InlineGraphic { path, .. } => Multiset::singleton(Ink::Path(path)),
        Fragment::Emoji { image, .. } => Multiset::singleton(Ink::Image(image)),
        _ => Multiset::empty(),
    }
}

/// What the fragments `start..end` show.
pub open spec fn fragments_ink(fragments: Seq<Fragment>, start: int, end: int) -> Multiset<Ink>
    decreases end - start,
{
    if start >= end {
        Multiset::empty()
    } else {
        fragment_ink(fragments[start]).add(fragments_ink(fragments, start + 1, end))
    }
}

/// What the paragraphs of a footnote from `i` on show.
pub open spec fn note_ink(note: LayoutFootnote, i: int) -> Multiset<Ink>
    decreases note.paragraphs@.len() - i,
{
    if i < 0 || i >= note.paragraphs@.len() {
        Multiset::empty()
    } else {
        let fragments = note.paragraphs@[i].fragments@;
        fragments_ink(fragments, 0, fragments.len() as int).add(note_ink(note, i + 1))
    }
}

/// What the footnotes `n..end` show.
pub open spec fn footnotes_ink(footnotes: Seq<LayoutFootnote>, n: int, end: int) -> Multiset<Ink>
    decreases end - n,
{
    if n < 0 || n >= end {
        Multiset::empty()
    } else {
        note_ink(footnotes[n], 0).add(footnotes_ink(footnotes, n + 1, end))
    }
}

/// What a floating image shows.
pub open spec fn image_ink(image: FloatingImage) -> Multiset<Ink> {
    Multiset::singleton(Ink::Image(image.image))
}

/// What a floating drawing and the text in it show.
pub open spec fn shape_ink(shape: FloatingShape) -> Multiset<Ink> {
    Multiset::singleton(Ink::Path(shape.path)).add(ink(shape.text_commands@))
}

/// What the images from `i` on show.
pub open spec fn images_ink(images: Seq<FloatingImage>, i: int) -> Multiset<Ink>
    decreases images.len() - i,
{
    if i < 0 || i >= images.len() {
        Multiset::empty()
    } else {
        image_ink(images[i]).add(images_ink(images, i + 1))
    }
}

/// What the drawings from `i` on show.
pub open spec fn shapes_ink(shapes: Seq<FloatingShape>, i: int) -> Multiset<Ink>
    decreases shapes.len() - i,
{
    if i < 0 || i >= shapes.len() {
        Multiset::empty()
    } else {
        shape_ink(shapes[i]).add(shapes_ink(shapes, i + 1))
    }
}

/// A command more shows what it shows.
pub proof fn lemma_ink_one(s: Seq<DrawCommand>, command: DrawCommand)
    ensures
        ink(s.push(command)) == ink(s).add(command_ink(command)),
{
    assert(s.push(command).drop_last() =~= s);
}

/// Two lists of commands together show what each of them shows.
pub proof fn lemma_ink_concat(a: Seq<DrawCommand>, b: Seq<DrawCommand>)
    ensures
        ink(a + b) == ink(a).add(ink(b)),
    decreases b.len(),
{
    if b.len() == 0 {
        assert(a + b =~= a);
        assert(ink(a).add(ink(b)) =~= ink(a));
    } else {
        assert((a + b).drop_last() =~= a + b.drop_last());
        assert((a + b).last() == b.last());
        lemma_ink_concat(a, b.drop_last());
        assert(ink(a).add(ink(b.drop_last())).add(command_ink(b.last())) =~= ink(a).add(
            ink(b.drop_last()).add(command_ink(b.last())),
        ));
    }
}

/// Moving commands changes nothing of what they show.
pub proof fn lemma_ink_shift(s: Seq<DrawCommand>, dx: Pt, dy: Pt)
    ensures
        ink(shift_all(s, dx, dy)) == ink(s),
    decreases s.len(),
{
    let moved = shift_all(s, dx, dy);
    if s.len() > 0 {
        assert(moved.drop_last() =~= shift_all(s.drop_last(), dx, dy));
        lemma_ink_shift(s.drop_last(), dx, dy);
    }
}

/// Decoration shows nothing.
pub proof fn lemma_no_ink(s: Seq<DrawCommand>)
    requires
        forall|i: int| 0 <= i < s.len() ==> command_ink(#[trigger] s[i]) == Multiset::<Ink>::empty(),
    ensures
        ink(s) == Multiset::<Ink>::empty(),
    decreases s.len(),
{
    if s.len() > 0 {
        assert forall|i: int| 0 <= i < s.drop_last().len() implies command_ink(
            #[trigger] s.drop_last()[i],
        ) == Multiset::<Ink>::empty() by {
            assert(s.drop_last()[i] == s[i]);
        }
        lemma_no_ink(s.drop_last());
        assert(command_ink(s[s.len() - 1]) == Multiset::<Ink>::empty());
        assert(ink(s) =~= Multiset::<Ink>::empty());
    }
}

/// Fragments show what those before and those after some point among them show.
pub proof fn lemma_fragments_ink_split(fragments: Seq<Fragment>, a: int, b: int, c: int)
    requires
        a <= b <= c,
    ensures
        fragments_ink(fragments, a, c) == fragments_ink(fragments, a, b).add(
            fragments_ink(fragments, b, c),
        ),
    decreases b - a,
{
    if a < b {
        lemma_fragments_ink_split(fragments, a + 1, b, c);
        assert(fragments_ink(fragments, a, c) =~= fragments_ink(fragments, a, b).add(
            fragments_ink(fragments, b, c),
        ));
    } else {
        assert(fragments_ink(fragments, a, c) =~= fragments_ink(fragments, a, b).add(
            fragments_ink(fragments, b, c),
        ));
    }
}

/// The fragments of a rest of a paragraph show what they show in the paragraph.
pub proof fn lemma_fragments_ink_rest(fragments: Seq<Fragment>, from: int, a: int, b: int)
    requires
        0 <= from <= fragments.len(),
        0 <= a,
        b <= fragments.len() - from,
    ensures
        fragments_ink(fragments.subrange(from, fragments.len() as int), a, b) == fragments_ink(
            fragments,
            from + a,
            from + b,
        ),
    decreases b - a,
{
    if a < b {
        lemma_fragments_ink_rest(fragments, from, a + 1, b);
    }
}

/// Footnotes show what those before and those after some point among them show.
pub proof fn lemma_footnotes_ink_split(footnotes: Seq<LayoutFootnote>, a: int, b: int, c: int)
    requires
        0 <= a <= b <= c,
    ensures
        footnotes_ink(footnotes, a, c) == footnotes_ink(footnotes, a, b).add(
            footnotes_ink(footnotes, b, c),
        ),
    decreases b - a,
{
    if a < b {
        lemma_footnotes_ink_split(footnotes, a + 1, b, c);
    }
    assert(footnotes_ink(footnotes, a, c) =~= footnotes_ink(footnotes, a, b).add(
        footnotes_ink(footnotes, b, c),
    ));
}

/// Drawing a line adds what its fragments show, and at most one command for each.
pub proof fn lemma_line_ink(
    fragments: Seq<Fragment>,
    j: int,
    end: int,
    x: Pt,
    baseline: Pt,
    acc: Seq<DrawCommand>,
)
    requires
        0 <= j <= end <= fragments.len(),
    ensures
        ({
            let r = line_commands(fragments, j, end, x, baseline, acc);
            &&& acc.len() <= r.len() <= acc.len() + (end - j)
            &&& r.subrange(0, acc.len() as int) == acc
            &&& ink(r) == ink(acc).add(fragments_ink(fragments, j, end))
        }),
    decreases end - j,
{
    if j < end {
        let drawn = fragment_command(fragments[j], x, baseline);
        let next = match drawn {
            Some(command) => acc.push(command),
            None => acc,
        };
        let r = line_commands(
            fragments,
            j + 1,
            end,
            x.plus(fragments[j].advance()),
            baseline,
            next,
        );
        lemma_line_ink(
            fragments,
            j + 1,
            end,
            x.plus(fragments[j].advance()),
            baseline,
            next,
        );
        assert(r.subrange(0, acc.len() as int) =~= r.subrange(0, next.len() as int).subrange(
            0,
            acc.len() as int,
        ));
        assert(next.subrange(0, acc.len() as int) =~= acc);
        assert(ink(next) =~= ink(acc).add(fragment_ink(fragments[j]))) by {
            match drawn {
                Some(command) => {
                    assert(acc.push(command).drop_last() =~= acc);
                },
                None => {},
            }
        }
        assert(ink(r) =~= ink(acc).add(fragments_ink(fragments, j, end)));
    } else {
        assert(acc.subrange(0, acc.len() as int) =~= acc);
        assert(ink(acc) =~= ink(acc).add(fragments_ink(fragments, j, end)));
    }
}

proof fn lemma_line_end_from(fragments: Seq<Fragment>, j: int, used: Pt, available: Pt)
    requires
        0 <= j <= fragments.len(),
    ensures
        j <= line_end_from(fragments, j, used, available) <= fragments.len(),
    decreases fragments.len() - j,
{
    if j < fragments.len() {
        lemma_line_end_from(fragments, j + 1, used.plus(fragments[j].advance()), available);
    }
}

/// A line takes fragments from where it starts on, one at least where there is one.
pub proof fn lemma_next_line(
    fragments: Seq<Fragment>,
    ctx: PlaceView,
    style: ParagraphStyle,
    i: int,
    index: int,
    bottom: Pt,
)
    requires
        0 <= i <= fragments.len() <= usize::MAX,
    ensures
        ({
            let line = next_line(fragments, ctx, style, i, index, bottom);
            &&& line.start == i
            &&& i <= line.end <= fragments.len()
            &&& i < fragments.len() ==> i < line.end
        }),
{
    assert forall|available: Pt| i <= #[trigger] line_end(fragments, i, available)
        <= fragments.len() && (i < fragments.len() ==> i < line_end(fragments, i, available)) by {
        if i < fragments.len() {
            lemma_line_end_from(fragments, i + 1, fragments[i].advance(), available);
        }
    }
}

/// Whether the commands up to the end of each line show the fragments up to there.
pub open spec fn shows_lines(p: PlacedView, fragments: Seq<Fragment>) -> bool {
    forall|k: int| #![trigger p.lines[k]]
        0 <= k < p.lines.len() ==> ink(p.commands.subrange(0, p.lines[k].commands_end as int))
            == fragments_ink(fragments, 0, p.lines[k].end as int)
}

proof fn lemma_with_line(
    fragments: Seq<Fragment>,
    ctx: PlaceView,
    style: ParagraphStyle,
    i: int,
    bottom: Pt,
    p: PlacedView,
)
    requires
        0 <= i < fragments.len() <= usize::MAX,
        i > 0 ==> well_placed(p, i) && shows_lines(p, fragments),
        i == 0 ==> p.lines.len() == 0 && p.commands.len() == 0,
        p.lines.len() <= i,
        p.commands.len() <= i,
    ensures
        ({
            let line = next_line(fragments, ctx, style, i, p.lines.len() as int, bottom);
            let r = with_line(fragments, p, line);
            &&& i < line.end <= fragments.len()
            &&& well_placed(r, line.end as int)
            &&& shows_lines(r, fragments)
            &&& r.lines.len() <= line.end
            &&& r.commands.len() <= line.end
        }),
{
    let line = next_line(fragments, ctx, style, i, p.lines.len() as int, bottom);
    let r = with_line(fragments, p, line);
    lemma_next_line(fragments, ctx, style, i, p.lines.len() as int, bottom);
    lemma_line_ink(
        fragments,
        line.start as int,
        line.end as int,
        line.left,
        line.top.plus(line.ascent),
        p.commands,
    );
    lemma_fragments_ink_split(fragments, 0, i, line.end as int);
    assert forall|k: int| #![trigger r.lines[k]] 0 <= k < r.lines.len() implies ink(
        r.commands.subrange(0, r.lines[k].commands_end as int),
    ) == fragments_ink(fragments, 0, r.lines[k].end as int) by {
        if k < p.lines.len() {
            assert(r.lines[k] == p.lines[k]);
            assert(r.commands.subrange(0, p.lines[k].commands_end as int)
                =~= r.commands.subrange(0, p.commands.len() as int).subrange(
                0,
                p.lines[k].commands_end as int,
            ));
        } else {
            assert(r.commands.subrange(0, r.commands.len() as int) =~= r.commands);
            if i > 0 {
                let last = p.lines[p.lines.len() - 1];
                assert(p.commands.subrange(0, last.commands_end as int) =~= p.commands);
            } else {
                assert(ink(p.commands) =~= fragments_ink(fragments, 0, 0));
            }
        }
    }
    assert forall|a: int, b: int| #![trigger r.lines[a], r.lines[b]] 0 <= a && b == a + 1 && b
        < r.lines.len() implies r.lines[a].end == r.lines[b].start by {
        assert(r.lines[a] == p.lines[a]);
        if b < p.lines.len() {
            assert(r.lines[b] == p.lines[b]);
        }
    }
    assert forall|a: int, b: int| #![trigger r.lines[a], r.lines[b]] 0 <= a <= b
        < r.lines.len() implies r.lines[a].commands_end <= r.lines[b].commands_end by {
        if a < p.lines.len() {
            assert(r.lines[a] == p.lines[a]);
        }
        if b < p.lines.len() {
            assert(r.lines[b] == p.lines[b]);
        }
    }
    assert forall|k: int| #![trigger r.lines[k]] 0 <= k < r.lines.len() implies r.lines[k].end
        <= line.end && r.lines[k].commands_end <= r.commands.len() && r.lines[k].start
        < r.lines[k].end by {
        if k < p.lines.len() {
            assert(r.lines[k] == p.lines[k]);
        }
    }
    assert(r.lines[0].start == 0) by {
        if i > 0 {
            assert(r.lines[0] == p.lines[0]);
        }
    }
}

proof fn lemma_place_from(
    fragments: Seq<Fragment>,
    ctx: PlaceView,
    style: ParagraphStyle,
    i: int,
    bottom: Pt,
    p: PlacedView,
)
    requires
        0 <= i <= fragments.len() <= usize::MAX,
        0 < fragments.len(),
        i > 0 ==> well_placed(p, i) && shows_lines(p, fragments),
        i == 0 ==> p.lines.len() == 0 && p.commands.len() == 0,
        p.lines.len() <= i,
        p.commands.len() <= i,
    ensures
        ({
            let r = place_from(fragments, ctx, style, i, bottom, p);
            well_placed(r, fragments.len() as int) && shows_lines(r, fragments) && r.lines.len()
                <= fragments.len()
        }),
    decreases fragments.len() - i,
{
    if i < fragments.len() {
        let line = next_line(fragments, ctx, style, i, p.lines.len() as int, bottom);
        lemma_with_line(fragments, ctx, style, i, bottom, p);
        lemma_place_from(
            fragments,
            ctx,
            style,
            line.end as int,
            line.bottom(),
            with_line(fragments, p, line),
        );
    }
}

/// Breaking a paragraph into lines takes its fragments one after another, and the lines show what
/// the fragments show.
pub proof fn lemma_placed(fragments: Seq<Fragment>, ctx: PlaceView, style: ParagraphStyle)
    requires
        fragments.len() <= usize::MAX,
    ensures
        well_placed(placed(fragments, ctx, style), fragments.len() as int),
        shows_lines(placed(fragments, ctx, style), fragments),
        placed(fragments, ctx, style).lines.len() <= usize::MAX,
{
    let none = PlacedView { lines: Seq::empty(), commands: Seq::empty() };
    if fragments.len() == 0 {
        let line = next_line(fragments, ctx, style, 0, 0, Pt::zero());
        lemma_next_line(fragments, ctx, style, 0, 0, Pt::zero());
        let r = with_line(fragments, none, line);
        assert(r.commands =~= Seq::empty());
        assert(r.commands.subrange(0, 0) =~= Seq::empty());
    } else {
        lemma_place_from(fragments, ctx, style, 0, Pt::zero(), none);
    }
}

/// A part of a paragraph shows the fragments of its lines.
pub proof fn lemma_segment_ink(
    fragments: Seq<Fragment>,
    ctx: PlaceView,
    style: ParagraphStyle,
    drawn_style: ParagraphStyle,
    width: Pt,
    head: int,
    first: bool,
    last: bool,
)
    requires
        fragments.len() <= usize::MAX,
        0 < head <= placed(fragments, ctx, style).lines.len(),
    ensures
        ({
            let p = placed(fragments, ctx, style);
            ink(p.segment(drawn_style, width, head, first, last).commands) == fragments_ink(
                fragments,
                0,
                p.lines[head - 1].end as int,
            )
        }),
{
    let p = placed(fragments, ctx, style);
    lemma_placed(fragments, ctx, style);
    let before = if first {
        drawn_style.space_before
    } else {
        Pt::zero()
    };
    let top_border = if first {
        drawn_style.top_border_space()
    } else {
        Pt::zero()
    };
    let bottom_border = if last {
        drawn_style.bottom_border_space()
    } else {
        Pt::zero()
    };
    let height = top_border.plus(p.bottom(head)).plus(bottom_border);
    let around = decoration(drawn_style, width, before, height, first, last);
    let text = p.commands.subrange(0, p.commands_in(head));
    assert(ink(around) == Multiset::<Ink>::empty()) by {
        lemma_no_ink(around);
    }
    lemma_ink_shift(text, Pt::zero(), before.plus(top_border));
    lemma_ink_concat(around, shift_all(text, Pt::zero(), before.plus(top_border)));
    let line = p.lines[head - 1];
    assert(ink(text) == fragments_ink(fragments, 0, line.end as int));
    assert(Multiset::<Ink>::empty().add(ink(text)) =~= ink(text));
}

/// A paragraph laid out as a whole shows its fragments.
pub proof fn lemma_laid_out_ink(
    fragments: Seq<Fragment>,
    style: ParagraphStyle,
    width: Pt,
    max_height: Pt,
    default_line_height: Pt,
)
    requires
        fragments.len() <= usize::MAX,
    ensures
        ink(laid_out(fragments, style, width, max_height, default_line_height).commands)
            == fragments_ink(fragments, 0, fragments.len() as int),
{
    let place = open_place(width, max_height, default_line_height);
    let p = placed(fragments, place, style);
    lemma_placed(fragments, place, style);
    lemma_segment_ink(
        fragments,
        place,
        style,
        style,
        width,
        p.lines.len() as int,
        true,
        true,
    );
}

} // verus!
