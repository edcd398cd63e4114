//! The content of a cell.
use crate::block::{FloatingImage, FloatingShape, LayoutFootnote, PageParity};
use crate::dimension::Pt;
use crate::draw_command::{append_shifted, shift_all, DrawCommand};
use crate::fragment::Fragment;
use crate::geometry::PtEdgeInsets;
use crate::paragraph::{open_place, place_alone, placed, PlacedLine};
use crate::style::{ParagraphStyle, PreviousParagraph};
use crate::table::anchored::{anchored, draw_anchored};
use crate::table::types::{CellFootnote, CellLine};
use vstd::prelude::*;

verus! {

/// The index of the fragment from `j` on that is footnote reference number `n`,
/// or the number of fragments.
pub open spec fn nth_reference(fragments: Seq<Fragment>, j: int, n: int) -> int
    decreases fragments.len() - j,
{
    if j >= fragments.len() || j < 0 {
        fragments.len() as int
    } else if fragments[j].is_footnote_reference() {
        if n <= 0 {
            j
        } else {
            nth_reference(fragments, j + 1, n - 1)
        }
    } else {
        nth_reference(fragments, j + 1, n)
    }
}

/// The line from `i` on that holds fragment `j`, or the last one.
pub open spec fn line_holding(lines: Seq<PlacedLine>, i: int, j: int) -> int
    decreases lines.len() - i,
{
    if i + 1 >= lines.len() || i < 0 || j < lines[i].end {
        i
    } else {
        line_holding(lines, i + 1, j)
    }
}

fn find_reference(fragments: &[Fragment], n: usize) -> (r: usize)
    ensures
        r == nth_reference(fragments@, 0, n as int),
        r <= fragments@.len(),
{
    let mut left: usize = n;
    let mut j: usize = 0;
    while j < fragments.len()
        invariant
            j <= fragments@.len(),
            nth_reference(fragments@, j as int, left as int) == nth_reference(
                fragments@,
                0,
                n as int,
            ),
        decreases fragments@.len() - j,
    {
        if fragments[j].is_footnote_reference() {
            if left == 0 {
                return j;
            }
            left -= 1;
        }
        j += 1;
    }
    j
}

fn find_line(lines: &[PlacedLine], j: usize) -> (r: usize)
    requires
        lines@.len() > 0,
    ensures
        r == line_holding(lines@, 0, j as int),
        r < lines@.len(),
{
    let count: usize = lines.len();
    let mut i: usize = 0;
    while i + 1 < count && j >= lines[i].end
        invariant
            count == lines@.len(),
            i < lines@.len(),
            line_holding(lines@, i as int, j as int) == line_holding(lines@, 0, j as int),
        decreases count - i,
    {
        i += 1;
    }
    i
}

/// The footnotes of a paragraph from number `f` on, each with the line that
/// refers to it, after those in `acc`. A footnote without a reference belongs to
/// the last line.
pub open spec fn paragraph_footnotes<'a>(
    footnotes: Seq<LayoutFootnote>,
    f: int,
    fragments: Seq<Fragment>,
    lines: Seq<PlacedLine>,
    first_line: int,
    acc: Seq<CellFootnote<'a>>,
) -> Seq<CellFootnote<'a>>
    decreases footnotes.len() - f,
{
    if f >= footnotes.len() || f < 0 {
        acc
    } else {
        paragraph_footnotes(
            footnotes,
            f + 1,
            fragments,
            lines,
            first_line,
            acc.push(
                CellFootnote {
                    footnote: &footnotes[f],
                    line: (first_line + line_holding(lines, 0, nth_reference(fragments, 0, f)))
                        as usize,
                    page_height: Pt::zero(),
                },
            ),
        )
    }
}

/// The lines of a paragraph from `i` on as lines of a cell, after those in `acc`.
///
/// The paragraph's text starts at `text_top`, `first_command` commands of the cell stand before
/// those of its lines, and `after` ones belong to its last line besides.
pub open spec fn paragraph_lines(
    lines: Seq<PlacedLine>,
    i: int,
    style: ParagraphStyle,
    text_top: Pt,
    first_command: int,
    after: int,
    acc: Seq<CellLine>,
) -> Seq<CellLine>
    decreases lines.len() - i,
{
    if i >= lines.len() || i < 0 {
        acc
    } else {
        paragraph_lines(
            lines,
            i + 1,
            style,
            text_top,
            first_command,
            after,
            acc.push(
                CellLine {
                    top: text_top.plus(lines[i].top),
                    bottom: text_top.plus(lines[i].bottom()),
                    commands_end: (first_command + lines[i].commands_end + if i + 1 < lines.len() {
                        0
                    } else {
                        after
                    }) as usize,
                    break_after: if i + 1 < lines.len() {
                        !style.keep_lines
                    } else {
                        !style.keep_next
                    },
                },
            ),
        )
    }
}

/// The content of a cell while its blocks are laid out one below another.
#[verifier::ext_equal]
pub struct CellFlow<'a> {
    pub y: Pt,
    pub previous: PreviousParagraph,
    pub commands: Seq<DrawCommand>,
    pub lines: Seq<CellLine>,
    pub footnotes: Seq<CellFootnote<'a>>,
}

/// The content with a paragraph added below it. Its floating objects stand at their places in the
/// content, on a page of the given parity: those behind the text and the bands are drawn before the
/// text, the others after it.
pub open spec fn with_paragraph<'a>(
    flow: CellFlow<'a>,
    fragments: Seq<Fragment>,
    style: ParagraphStyle,
    footnotes: Seq<LayoutFootnote>,
    images: Seq<FloatingImage>,
    shapes: Seq<FloatingShape>,
    width: Pt,
    margins: PtEdgeInsets,
    default_line_height: Pt,
    parity: PageParity,
) -> CellFlow<'a> {
    let p = placed(fragments, open_place(width, Pt::infinity(), default_line_height), style);
    let drawn = p.full(style, width, Pt::infinity());
    let y = flow.y.minus(flow.previous.overlap(&style));
    let first = anchored(images, shapes, true, parity, y.plus(style.space_before));
    let last = anchored(images, shapes, false, parity, y.plus(style.space_before));
    CellFlow {
        y: y.plus(drawn.height),
        previous: PreviousParagraph::of(&style),
        commands: flow.commands + shift_all(first, margins.left, margins.top) + shift_all(
            drawn.commands,
            margins.left,
            margins.top.plus(y),
        ) + shift_all(last, margins.left, margins.top),
        lines: paragraph_lines(
            p.lines,
            0,
            style,
            y.plus(style.space_before).plus(style.top_border_space()),
            flow.commands.len() + first.len() + drawn.commands.len() - p.commands.len(),
            last.len() as int,
            flow.lines,
        ),
        footnotes: paragraph_footnotes(
            footnotes,
            0,
            fragments,
            p.lines,
            flow.lines.len() as int,
            flow.footnotes,
        ),
    }
}

/// The footnotes of a nested table from number `f` on, all belonging to `line`,
/// after those in `acc`.
pub open spec fn nested_footnotes<'a>(
    footnotes: Seq<&'a LayoutFootnote>,
    f: int,
    line: int,
    acc: Seq<CellFootnote<'a>>,
) -> Seq<CellFootnote<'a>>
    decreases footnotes.len() - f,
{
    if f >= footnotes.len() || f < 0 {
        acc
    } else {
        nested_footnotes(
            footnotes,
            f + 1,
            line,
            acc.push(
                CellFootnote {
                    footnote: footnotes[f],
                    line: line as usize,
                    page_height: Pt::zero(),
                },
            ),
        )
    }
}

/// The content with a nested table added below it, as one line.
pub open spec fn with_table<'a>(
    flow: CellFlow<'a>,
    commands: Seq<DrawCommand>,
    height: Pt,
    footnotes: Seq<&'a LayoutFootnote>,
    margins: PtEdgeInsets,
) -> CellFlow<'a> {
    let all = flow.commands + shift_all(commands, margins.left, margins.top.plus(flow.y));
    CellFlow {
        y: flow.y.plus(height),
        previous: PreviousParagraph::none(),
        commands: all,
        lines: flow.lines.push(
            CellLine {
                top: flow.y,
                bottom: flow.y.plus(height),
                commands_end: all.len() as usize,
                break_after: true,
            },
        ),
        footnotes: nested_footnotes(footnotes, 0, flow.lines.len() as int, flow.footnotes),
    }
}

/// The content under construction.
pub struct CellBuilder<'a> {
    pub y: Pt,
    pub previous: PreviousParagraph,
    pub commands: Vec<DrawCommand>,
    pub lines: Vec<CellLine>,
    pub footnotes: Vec<CellFootnote<'a>>,
}

impl<'a> View for CellBuilder<'a> {
    type V = CellFlow<'a>;

    open spec fn view(&self) -> CellFlow<'a> {
        CellFlow {
            y: self.y,
            previous: self.previous,
            commands: self.commands@,
            lines: self.lines@,
            footnotes: self.footnotes@,
        }
    }
}

/// Whether the lines' commands follow one another and each footnote belongs to a
/// line.
pub open spec fn cell_consistent(
    commands: Seq<DrawCommand>,
    lines: Seq<CellLine>,
    footnotes: Seq<CellFootnote<'_>>,
) -> bool {
    &&& forall|k: int| #![trigger lines[k]]
        0 <= k < lines.len() ==> lines[k].commands_end <= commands.len()
    &&& forall|a: int, b: int| #![trigger lines[a], lines[b]]
        0 <= a <= b < lines.len() ==> lines[a].commands_end <= lines[b].commands_end
    &&& lines.len() > 0 ==> lines[lines.len() - 1].commands_end == commands.len()
    &&& lines.len() == 0 ==> commands.len() == 0
    &&& forall|k: int| #![trigger footnotes[k]]
        0 <= k < footnotes.len() ==> footnotes[k].line < lines.len()
}

/// Add the lines of a paragraph to those of a cell.
fn push_lines(
    lines: &mut Vec<CellLine>,
    source: &[PlacedLine],
    style: &ParagraphStyle,
    text_top: Pt,
    first_command: usize,
    after: usize,
    total: usize,
)
    requires
        source@.len() > 0,
        source@[source@.len() - 1].commands_end + first_command + after == total,
        forall|a: int, b: int| #![trigger source@[a], source@[b]]
            0 <= a <= b < source@.len() ==> source@[a].commands_end <= source@[b].commands_end,
        forall|a: int, b: int| #![trigger old(lines)@[a], old(lines)@[b]]
            0 <= a <= b < old(lines)@.len() ==> old(lines)@[a].commands_end
                <= old(lines)@[b].commands_end,
        forall|k: int| #![trigger old(lines)@[k]]
            0 <= k < old(lines)@.len() ==> old(lines)@[k].commands_end <= first_command,
    ensures
        final(lines)@ == paragraph_lines(
            source@,
            0,
            *style,
            text_top,
            first_command as int,
            after as int,
            old(lines)@,
        ),
        final(lines)@.len() == old(lines)@.len() + source@.len(),
        forall|a: int, b: int| #![trigger final(lines)@[a], final(lines)@[b]]
            0 <= a <= b < final(lines)@.len() ==> final(lines)@[a].commands_end
                <= final(lines)@[b].commands_end,
        forall|k: int| #![trigger final(lines)@[k]]
            0 <= k < final(lines)@.len() ==> final(lines)@[k].commands_end <= total,
        final(lines)@[final(lines)@.len() - 1].commands_end == total,
{
    let ghost before = lines@;
    let count: usize = source.len();
    let mut i: usize = 0;
    while i < count
        invariant
            i <= count,
            count == source@.len(),
            count > 0,
            source@[count - 1].commands_end + first_command + after == total,
            forall|a: int, b: int| #![trigger source@[a], source@[b]]
                0 <= a <= b < source@.len() ==> source@[a].commands_end <= source@[b].commands_end,
            lines@.len() == before.len() + i,
            forall|a: int, b: int| #![trigger lines@[a], lines@[b]]
                0 <= a <= b < lines@.len() ==> lines@[a].commands_end <= lines@[b].commands_end,
            forall|k: int| #![trigger lines@[k]]
                0 <= k < lines@.len() ==> lines@[k].commands_end <= first_command + if i > 0 {
                    source@[i - 1].commands_end as int
                } else {
                    0
                } + if i < count {
                    0
                } else {
                    after as int
                },
            i > 0 ==> lines@[lines@.len() - 1].commands_end == first_command + source@[i
                - 1].commands_end + if i < count {
                0
            } else {
                after as int
            },
            paragraph_lines(
                source@,
                i as int,
                *style,
                text_top,
                first_command as int,
                after as int,
                lines@,
            ) == paragraph_lines(
                source@,
                0,
                *style,
                text_top,
                first_command as int,
                after as int,
                before,
            ),
        decreases count - i,
    {
        let line = source[i];
        assert(source@[i as int].commands_end <= source@[count - 1].commands_end);
        if i > 0 {
            assert(source@[i - 1].commands_end <= source@[i as int].commands_end);
        }
        let added = CellLine {
            top: text_top.plus(line.top),
            bottom: text_top.plus(line.bottom()),
            commands_end: first_command + line.commands_end + if i + 1 < count {
                0
            } else {
                after
            },
            break_after: if i + 1 < count {
                !style.keep_lines
            } else {
                !style.keep_next
            },
        };
        lines.push(added);
        i += 1;
    }
}

/// Add the footnotes of a paragraph to those of a cell.
fn push_footnotes<'a>(
    output: &mut Vec<CellFootnote<'a>>,
    footnotes: &'a [LayoutFootnote],
    fragments: &[Fragment],
    lines: &[PlacedLine],
    first_line: usize,
)
    requires
        lines@.len() > 0,
        first_line + lines@.len() <= usize::MAX,
        forall|k: int| #![trigger old(output)@[k]]
            0 <= k < old(output)@.len() ==> old(output)@[k].line < first_line,
    ensures
        final(output)@ == paragraph_footnotes(
            footnotes@,
            0,
            fragments@,
            lines@,
            first_line as int,
            old(output)@,
        ),
        forall|k: int| #![trigger final(output)@[k]]
            0 <= k < final(output)@.len() ==> final(output)@[k].line < first_line + lines@.len(),
{
    let ghost before = output@;
    let mut f: usize = 0;
    while f < footnotes.len()
        invariant
            f <= footnotes@.len(),
            lines@.len() > 0,
            first_line + lines@.len() <= usize::MAX,
            forall|k: int| #![trigger output@[k]]
                0 <= k < output@.len() ==> output@[k].line < first_line + lines@.len(),
            paragraph_footnotes(
                footnotes@,
                f as int,
                fragments@,
                lines@,
                first_line as int,
                output@,
            ) == paragraph_footnotes(
                footnotes@,
                0,
                fragments@,
                lines@,
                first_line as int,
                before,
            ),
        decreases footnotes@.len() - f,
    {
        let reference: usize = find_reference(fragments, f);
        let line: usize = find_line(lines, reference);
        output.push(
            CellFootnote {
                footnote: &footnotes[f],
                line: first_line + line,
                page_height: Pt::zero(),
            },
        );
        f += 1;
    }
}

impl<'a> CellBuilder<'a> {
    /// A cell without content.
    pub fn new() -> (r: Self)
        ensures
            r@ == (CellFlow {
                y: Pt::zero(),
                previous: PreviousParagraph::none(),
                commands: Seq::empty(),
                lines: Seq::empty(),
                footnotes: Seq::<CellFootnote<'a>>::empty(),
            }),
            cell_consistent(r@.commands, r@.lines, r@.footnotes),
    {
        CellBuilder {
            y: Pt::zero(),
            previous: PreviousParagraph::none(),
            commands: Vec::new(),
            lines: Vec::new(),
            footnotes: Vec::new(),
        }
    }

    /// Add a paragraph below the content.
    pub fn add_paragraph(
        &mut self,
        fragments: &[Fragment],
        style: &ParagraphStyle,
        footnotes: &'a [LayoutFootnote],
        images: &[FloatingImage],
        shapes: &[FloatingShape],
        width: Pt,
        margins: &PtEdgeInsets,
        default_line_height: Pt,
        parity: PageParity,
    )
        requires
            cell_consistent(old(self)@.commands, old(self)@.lines, old(self)@.footnotes),
        ensures
            final(self)@ == with_paragraph(
                old(self)@,
                fragments@,
                *style,
                footnotes@,
                images@,
                shapes@,
                width,
                *margins,
                default_line_height,
                parity,
            ),
            cell_consistent(final(self)@.commands, final(self)@.lines, final(self)@.footnotes),
    {
        let ghost before = self@;
        let p = place_alone(fragments, style, width, Pt::infinity(), default_line_height);
        let drawn = p.emit_full(style, width, Pt::infinity());
        let y = self.y.minus(self.previous.overlap(style));
        assert(drawn@.commands.len() >= p@.commands.len());
        let first_command: usize = drawn.commands.len() - p.commands.len();
        let content_top = y.plus(style.space_before);
        let first = draw_anchored(images, shapes, true, parity, content_top);
        append_shifted(
            &mut self.commands,
            first.as_slice(),
            0,
            first.len(),
            margins.left,
            margins.top,
        );
        assert(first@.subrange(0, first@.len() as int) =~= first@);
        let base: usize = self.commands.len();
        append_shifted(
            &mut self.commands,
            drawn.commands.as_slice(),
            0,
            drawn.commands.len(),
            margins.left,
            margins.top.plus(y),
        );
        assert(drawn.commands@.subrange(0, drawn.commands@.len() as int) =~= drawn.commands@);
        let last = draw_anchored(images, shapes, false, parity, content_top);
        append_shifted(&mut self.commands, last.as_slice(), 0, last.len(), margins.left, margins.top);
        assert(last@.subrange(0, last@.len() as int) =~= last@);
        let total: usize = self.commands.len();
        let first_line: usize = self.lines.len();
        let text_top = y.plus(style.space_before).plus(style.top_border_space());
        push_lines(
            &mut self.lines,
            p.lines.as_slice(),
            style,
            text_top,
            base + first_command,
            last.len(),
            total,
        );
        assert(self.lines.len() == first_line + p.lines@.len());
        push_footnotes(&mut self.footnotes, footnotes, fragments, p.lines.as_slice(), first_line);
        self.y = y.plus(drawn.height);
        self.previous = PreviousParagraph::of(style);
        assert(self@ =~= with_paragraph(
            before,
            fragments@,
            *style,
            footnotes@,
            images@,
            shapes@,
            width,
            *margins,
            default_line_height,
            parity,
        ));
    }

    /// Add a nested table below the content.
    pub fn add_table(
        &mut self,
        commands: &Vec<DrawCommand>,
        height: Pt,
        footnotes: &Vec<&'a LayoutFootnote>,
        margins: &PtEdgeInsets,
    )
        requires
            cell_consistent(old(self)@.commands, old(self)@.lines, old(self)@.footnotes),
        ensures
            final(self)@ == with_table(old(self)@, commands@, height, footnotes@, *margins),
            cell_consistent(final(self)@.commands, final(self)@.lines, final(self)@.footnotes),
    {
        let ghost before = self@;
        append_shifted(
            &mut self.commands,
            commands.as_slice(),
            0,
            commands.len(),
            margins.left,
            margins.top.plus(self.y),
        );
        assert(commands@.subrange(0, commands@.len() as int) =~= commands@);
        let line: usize = self.lines.len();
        self.lines.push(
            CellLine {
                top: self.y,
                bottom: self.y.plus(height),
                commands_end: self.commands.len(),
                break_after: true,
            },
        );
        let ghost with_line = self@;
        let mut f: usize = 0;
        while f < footnotes.len()
            invariant
                f <= footnotes@.len(),
                self.y == before.y,
                self.previous == before.previous,
                self.commands@ == with_line.commands,
                self.lines@ == with_line.lines,
                line < self.lines@.len(),
                forall|k: int|
                    #![trigger self.footnotes@[k]]
                    0 <= k < self.footnotes@.len() ==> self.footnotes@[k].line < self.lines@.len(),
                nested_footnotes(footnotes@, f as int, line as int, self.footnotes@)
                    == nested_footnotes(footnotes@, 0, line as int, before.footnotes),
            decreases footnotes@.len() - f,
        {
            self.footnotes.push(
                CellFootnote { footnote: footnotes[f], line, page_height: Pt::zero() },
            );
            f += 1;
        }
        self.y = self.y.plus(height);
        self.previous = PreviousParagraph::none();
        assert(self@ =~= with_table(before, commands@, height, footnotes@, *margins));
    }
}

} // verus!
