//! A table shows the content of each of its cells once.
use crate::block::{
    FloatingImage, FloatingShape, LayoutBlock, LayoutFootnote, PageParity, TableBorderLine,
    TableRowInput,
};
use crate::dimension::Pt;
use crate::draw_command::{shift_all, DrawCommand};
use crate::fragment::Fragment;
use crate::geometry::{PtEdgeInsets, PtRect};
use crate::ink::{
    footnotes_ink, fragments_ink, images_ink, ink, lemma_ink_concat, lemma_ink_shift,
    lemma_laid_out_ink, lemma_no_ink, note_ink, shapes_ink, Ink,
};
use crate::paragraph::{open_place, placed, PlacedLine};
use crate::style::ParagraphStyle;
use crate::table::anchored::{anchored, lemma_anchored_ink};
use crate::table::borders::{
    border_width, cell_border_commands, edge_commands, CellBorders, CellEdge,
};
use crate::table::cell::{
    line_holding, nested_footnotes, nth_reference, paragraph_footnotes, with_paragraph, with_table,
    CellFlow,
};
use crate::table::emit::{
    row_drawing, row_fits, with_cell, with_cells, with_rows, Drawing, Layers, RowDrawing,
};
use crate::table::footnotes::{cells_footnotes, range_footnotes};
use crate::table::measure::{
    all_entries, assembled_row, cell_blocks, cell_layout, entry, inner_width, layout_width,
    lemma_all_entries, lemma_cell_block, lemma_cell_layout, lemma_entry, lemma_measured_table,
    lemma_row_entries, lemma_table_layout, measured_table, no_content, no_flow, row_entries,
    table_footnotes, table_layout, with_block, TableFormat,
};
use crate::table::types::{CellFootnote, CellLayoutView, EntryView, MeasuredRowView};
use vstd::multiset::Multiset;
use vstd::prelude::*;

verus! {

/// What the blocks from `k` on, their footnotes and their floating objects show.
pub open spec fn blocks_ink(blocks: Seq<LayoutBlock>, k: int) -> Multiset<Ink>
    decreases blocks, 0nat, blocks.len() - k,
{
    if k < 0 || k >= blocks.len() {
        Multiset::empty()
    } else {
        block_ink(blocks[k]).add(blocks_ink(blocks, k + 1))
    }
}

/// What a block, its footnotes and its floating objects show. A table without columns shows nothing.
pub open spec fn block_ink(block: LayoutBlock) -> Multiset<Ink>
    decreases block, 6nat, 0int,
{
    match block {
        LayoutBlock::Paragraph { fragments, footnotes, floating_images, floating_shapes, .. } => {
            fragments_ink(fragments@, 0, fragments@.len() as int).add(
                footnotes_ink(footnotes@, 0, footnotes@.len() as int),
            ).add(images_ink(floating_images@, 0).add(shapes_ink(floating_shapes@, 0)))
        },
        LayoutBlock::Table { rows, col_widths, .. } => if col_widths@.len() == 0 {
            Multiset::empty()
        } else {
            table_ink(rows@, 0)
        },
    }
}

/// What the rows from `r` on, their footnotes and their floating objects show.
pub open spec fn table_ink(rows: Seq<TableRowInput>, r: int) -> Multiset<Ink>
    decreases rows, 3nat, rows.len() - r,
{
    if r < 0 || r >= rows.len() {
        Multiset::empty()
    } else {
        cells_ink(rows, r, 0).add(table_ink(rows, r + 1))
    }
}

/// What the cells of row `r` from `c` on, their footnotes and their floating objects show. A cell that
/// a merged region above runs through shows nothing of its own.
pub open spec fn cells_ink(rows: Seq<TableRowInput>, r: int, c: int) -> Multiset<Ink>
    decreases rows, 2nat, rows[r].cells@.len() - c,
{
    if r < 0 || r >= rows.len() || c < 0 || c >= rows[r].cells@.len() {
        Multiset::empty()
    } else {
        (if rows[r].cells@[c].continues_merge() {
            Multiset::empty()
        } else {
            blocks_ink(rows[r].cells@[c].blocks@, 0)
        }).add(cells_ink(rows, r, c + 1))
    }
}

/// What the footnotes of a cell show.
pub open spec fn cell_notes_ink(notes: Seq<CellFootnote<'_>>) -> Multiset<Ink>
    decreases notes.len(),
{
    if notes.len() == 0 {
        Multiset::empty()
    } else {
        cell_notes_ink(notes.drop_last()).add(note_ink(*notes.last().footnote, 0))
    }
}

/// What footnotes show.
pub open spec fn refs_ink(refs: Seq<&LayoutFootnote>) -> Multiset<Ink>
    decreases refs.len(),
{
    if refs.len() == 0 {
        Multiset::empty()
    } else {
        refs_ink(refs.drop_last()).add(note_ink(*refs.last(), 0))
    }
}

/// What the content of a cell and its footnotes show.
pub open spec fn layout_ink(layout: CellLayoutView<'_>) -> Multiset<Ink> {
    ink(layout.commands).add(cell_notes_ink(layout.footnotes))
}

/// What the cells from `c` on show, without their footnotes.
pub open spec fn entries_text(entries: Seq<EntryView<'_>>, c: int) -> Multiset<Ink>
    decreases entries.len() - c,
{
    if c < 0 || c >= entries.len() {
        Multiset::empty()
    } else {
        ink(entries[c].layout.commands).add(entries_text(entries, c + 1))
    }
}

/// What the footnotes of the cells from `c` on show.
pub open spec fn entries_notes(entries: Seq<EntryView<'_>>, c: int) -> Multiset<Ink>
    decreases entries.len() - c,
{
    if c < 0 || c >= entries.len() {
        Multiset::empty()
    } else {
        cell_notes_ink(entries[c].layout.footnotes).add(entries_notes(entries, c + 1))
    }
}

/// What is looked at of a row: what its cells show, what their footnotes show, or both.
pub enum Share {
    Text,
    Notes,
    Both,
}

/// What a measured row shows.
pub open spec fn row_ink(row: MeasuredRowView<'_>, share: Share) -> Multiset<Ink> {
    match share {
        Share::Text => entries_text(row.entries, 0),
        Share::Notes => entries_notes(row.entries, 0),
        Share::Both => entries_text(row.entries, 0).add(entries_notes(row.entries, 0)),
    }
}

/// What the rows `a..b` show, without their footnotes.
pub open spec fn rows_text(measured: Seq<MeasuredRowView<'_>>, a: int, b: int) -> Multiset<Ink>
    decreases b - a,
{
    if a >= b {
        Multiset::empty()
    } else {
        entries_text(measured[a].entries, 0).add(rows_text(measured, a + 1, b))
    }
}

/// What the footnotes of the rows `a..b` show.
pub open spec fn rows_notes(measured: Seq<MeasuredRowView<'_>>, a: int, b: int) -> Multiset<Ink>
    decreases b - a,
{
    if a >= b {
        Multiset::empty()
    } else {
        entries_notes(measured[a].entries, 0).add(rows_notes(measured, a + 1, b))
    }
}

/// What the rows `a..b` show.
pub open spec fn rows_ink(
    measured: Seq<MeasuredRowView<'_>>,
    a: int,
    b: int,
    share: Share,
) -> Multiset<Ink>
    decreases b - a,
{
    if a >= b {
        Multiset::empty()
    } else {
        row_ink(measured[a], share).add(rows_ink(measured, a + 1, b, share))
    }
}

pub(crate) proof fn lemma_rows_ink_parts(measured: Seq<MeasuredRowView<'_>>, a: int, b: int)
    ensures
        rows_ink(measured, a, b, Share::Text) == rows_text(measured, a, b),
        rows_ink(measured, a, b, Share::Notes) == rows_notes(measured, a, b),
        rows_ink(measured, a, b, Share::Both) == rows_text(measured, a, b).add(
            rows_notes(measured, a, b),
        ),
    decreases b - a,
{
    if a < b {
        lemma_rows_ink_parts(measured, a + 1, b);
    }
    assert(rows_ink(measured, a, b, Share::Both) =~= rows_text(measured, a, b).add(
        rows_notes(measured, a, b),
    ));
}

pub(crate) proof fn lemma_rows_ink_split(
    measured: Seq<MeasuredRowView<'_>>,
    a: int,
    b: int,
    c: int,
    share: Share,
)
    requires
        a <= b <= c,
    ensures
        rows_ink(measured, a, c, share) == rows_ink(measured, a, b, share).add(
            rows_ink(measured, b, c, share),
        ),
    decreases b - a,
{
    if a < b {
        lemma_rows_ink_split(measured, a + 1, b, c, share);
    }
    assert(rows_ink(measured, a, c, share) =~= rows_ink(measured, a, b, share).add(
        rows_ink(measured, b, c, share),
    ));
}

proof fn lemma_notes_push(notes: Seq<CellFootnote<'_>>, note: CellFootnote<'_>)
    ensures
        cell_notes_ink(notes.push(note)) == cell_notes_ink(notes).add(note_ink(*note.footnote, 0)),
{
    assert(notes.push(note).drop_last() =~= notes);
}

pub(crate) proof fn lemma_refs_concat(a: Seq<&LayoutFootnote>, b: Seq<&LayoutFootnote>)
    ensures
        refs_ink(a + b) == refs_ink(a).add(refs_ink(b)),
    decreases b.len(),
{
    if b.len() == 0 {
        assert(a + b =~= a);
    } else {
        assert((a + b).drop_last() =~= a + b.drop_last());
        lemma_refs_concat(a, b.drop_last());
    }
    assert(refs_ink(a + b) =~= refs_ink(a).add(refs_ink(b)));
}

proof fn lemma_refs_of_notes(notes: Seq<CellFootnote<'_>>)
    ensures
        refs_ink(Seq::new(notes.len(), |f: int| notes[f].footnote)) == cell_notes_ink(notes),
    decreases notes.len(),
{
    let refs = Seq::new(notes.len(), |f: int| notes[f].footnote);
    if notes.len() > 0 {
        let shorter = notes.drop_last();
        assert(refs.drop_last() =~= Seq::new(shorter.len(), |f: int| shorter[f].footnote));
        lemma_refs_of_notes(shorter);
    }
}

proof fn lemma_paragraph_footnotes_ink<'a>(
    footnotes: Seq<LayoutFootnote>,
    f: int,
    fragments: Seq<Fragment>,
    lines: Seq<PlacedLine>,
    first_line: int,
    acc: Seq<CellFootnote<'a>>,
)
    requires
        0 <= f <= footnotes.len(),
    ensures
        cell_notes_ink(paragraph_footnotes(footnotes, f, fragments, lines, first_line, acc))
            == cell_notes_ink(acc).add(footnotes_ink(footnotes, f, footnotes.len() as int)),
    decreases footnotes.len() - f,
{
    if f < footnotes.len() {
        let note = CellFootnote {
            footnote: &footnotes[f],
            line: (first_line + line_holding(lines, 0, nth_reference(fragments, 0, f))) as usize,
            page_height: Pt::zero(),
        };
        lemma_notes_push(acc, note);
        lemma_paragraph_footnotes_ink(
            footnotes,
            f + 1,
            fragments,
            lines,
            first_line,
            acc.push(note),
        );
    }
    assert(cell_notes_ink(paragraph_footnotes(footnotes, f, fragments, lines, first_line, acc))
        =~= cell_notes_ink(acc).add(footnotes_ink(footnotes, f, footnotes.len() as int)));
}

proof fn lemma_nested_footnotes_ink<'a>(
    refs: Seq<&'a LayoutFootnote>,
    f: int,
    line: int,
    acc: Seq<CellFootnote<'a>>,
)
    requires
        0 <= f <= refs.len(),
    ensures
        cell_notes_ink(nested_footnotes(refs, f, line, acc)) == cell_notes_ink(acc).add(
            refs_ink(refs.subrange(f, refs.len() as int)),
        ),
    decreases refs.len() - f,
{
    let rest = refs.subrange(f, refs.len() as int);
    if f < refs.len() {
        let note = CellFootnote { footnote: refs[f], line: line as usize, page_height: Pt::zero() };
        lemma_notes_push(acc, note);
        lemma_nested_footnotes_ink(refs, f + 1, line, acc.push(note));
        let one: Seq<&'a LayoutFootnote> = seq![refs[f]];
        assert(rest =~= one + refs.subrange(f + 1, refs.len() as int));
        lemma_refs_concat(one, refs.subrange(f + 1, refs.len() as int));
        assert(one.drop_last() =~= Seq::<&'a LayoutFootnote>::empty());
        assert(refs_ink(one.drop_last()) =~= Multiset::<Ink>::empty());
        assert(refs_ink(one) =~= note_ink(*refs[f], 0));
    }
    assert(cell_notes_ink(nested_footnotes(refs, f, line, acc)) =~= cell_notes_ink(acc).add(
        refs_ink(rest),
    ));
}

/// What the content of a cell under construction shows.
spec fn flow_ink(flow: CellFlow<'_>) -> Multiset<Ink> {
    ink(flow.commands).add(cell_notes_ink(flow.footnotes))
}

proof fn lemma_with_paragraph_ink<'a>(
    flow: CellFlow<'a>,
    fragments: Seq<Fragment>,
    style: ParagraphStyle,
    footnotes: Seq<LayoutFootnote>,
    images: Seq<FloatingImage>,
    shapes: Seq<FloatingShape>,
    width: Pt,
    margins: PtEdgeInsets,
    default_line_height: Pt,
    parity: PageParity,
)
    requires
        fragments.len() <= usize::MAX,
    ensures
        flow_ink(
            with_paragraph(
                flow,
                fragments,
                style,
                footnotes,
                images,
                shapes,
                width,
                margins,
                default_line_height,
                parity,
            ),
        ) == flow_ink(flow).add(
            fragments_ink(fragments, 0, fragments.len() as int).add(
                footnotes_ink(footnotes, 0, footnotes.len() as int),
            ).add(images_ink(images, 0).add(shapes_ink(shapes, 0))),
        ),
{
    let p = placed(fragments, open_place(width, Pt::infinity(), default_line_height), style);
    let drawn = p.full(style, width, Pt::infinity());
    let y = flow.y.minus(flow.previous.overlap(&style));
    let next = with_paragraph(
        flow,
        fragments,
        style,
        footnotes,
        images,
        shapes,
        width,
        margins,
        default_line_height,
        parity,
    );
    let top = y.plus(style.space_before);
    let first = anchored(images, shapes, true, parity, top);
    let last = anchored(images, shapes, false, parity, top);
    lemma_anchored_ink(images, shapes, parity, top);
    lemma_ink_shift(first, margins.left, margins.top);
    lemma_ink_shift(last, margins.left, margins.top);
    lemma_laid_out_ink(fragments, style, width, Pt::infinity(), default_line_height);
    lemma_ink_shift(drawn.commands, margins.left, margins.top.plus(y));
    let under = flow.commands + shift_all(first, margins.left, margins.top);
    let text = shift_all(drawn.commands, margins.left, margins.top.plus(y));
    lemma_ink_concat(flow.commands, shift_all(first, margins.left, margins.top));
    lemma_ink_concat(under, text);
    lemma_ink_concat(under + text, shift_all(last, margins.left, margins.top));
    lemma_paragraph_footnotes_ink(
        footnotes,
        0,
        fragments,
        p.lines,
        flow.lines.len() as int,
        flow.footnotes,
    );
    let floats = images_ink(images, 0).add(shapes_ink(shapes, 0));
    assert(floats == ink(first).add(ink(last)));
    assert(flow_ink(next) =~= flow_ink(flow).add(
        fragments_ink(fragments, 0, fragments.len() as int).add(
            footnotes_ink(footnotes, 0, footnotes.len() as int),
        ).add(floats),
    ));
}

proof fn lemma_with_table_ink<'a>(
    flow: CellFlow<'a>,
    commands: Seq<DrawCommand>,
    height: Pt,
    refs: Seq<&'a LayoutFootnote>,
    margins: PtEdgeInsets,
)
    ensures
        flow_ink(with_table(flow, commands, height, refs, margins)) == flow_ink(flow).add(
            ink(commands).add(refs_ink(refs)),
        ),
{
    let next = with_table(flow, commands, height, refs, margins);
    lemma_ink_shift(commands, margins.left, margins.top.plus(flow.y));
    lemma_ink_concat(
        flow.commands,
        shift_all(commands, margins.left, margins.top.plus(flow.y)),
    );
    lemma_nested_footnotes_ink(refs, 0, flow.lines.len() as int, flow.footnotes);
    assert(refs.subrange(0, refs.len() as int) =~= refs);
    assert(flow_ink(next) =~= flow_ink(flow).add(ink(commands).add(refs_ink(refs))));
}

/// A border shows nothing.
proof fn lemma_edge_shows_nothing(e: CellEdge, rect: PtRect, is_horizontal: bool)
    ensures
        ink(edge_commands(e, rect, is_horizontal)) == Multiset::<Ink>::empty(),
{
    lemma_no_ink(edge_commands(e, rect, is_horizontal));
}

/// Commands that show nothing add nothing.
proof fn lemma_add_nothing(a: Seq<DrawCommand>, b: Seq<DrawCommand>)
    requires
        ink(a) == Multiset::<Ink>::empty(),
        ink(b) == Multiset::<Ink>::empty(),
    ensures
        ink(a + b) == Multiset::<Ink>::empty(),
{
    lemma_ink_concat(a, b);
    assert(ink(a + b) =~= Multiset::<Ink>::empty());
}

/// Borders show nothing.
proof fn lemma_borders_show_nothing(b: CellBorders, x: Pt, w: Pt, y: Pt, h: Pt)
    ensures
        ink(cell_border_commands(b, x, w, y, h)) == Multiset::<Ink>::empty(),
{
    let top_w = border_width(b.top);
    let bottom_w = border_width(b.bottom);
    let left_w = border_width(b.left);
    let right_w = border_width(b.right);
    let inner = h.minus(top_w).minus(bottom_w);
    let top_rect = PtRect::from_xywh(x, y, w, top_w);
    let bottom_rect = PtRect::from_xywh(x, y.plus(h).minus(bottom_w), w, bottom_w);
    let left_rect = PtRect::from_xywh(x, y.plus(top_w), left_w, inner);
    let right_rect = PtRect::from_xywh(x.plus(w).minus(right_w), y.plus(top_w), right_w, inner);
    lemma_edge_shows_nothing(b.top, top_rect, true);
    lemma_edge_shows_nothing(b.bottom, bottom_rect, true);
    lemma_edge_shows_nothing(b.left, left_rect, false);
    lemma_edge_shows_nothing(b.right, right_rect, false);
    let horizontal = edge_commands(b.top, top_rect, true) + edge_commands(
        b.bottom,
        bottom_rect,
        true,
    );
    lemma_add_nothing(edge_commands(b.top, top_rect, true), edge_commands(b.bottom, bottom_rect, true));
    lemma_add_nothing(horizontal, edge_commands(b.left, left_rect, false));
    lemma_add_nothing(
        horizontal + edge_commands(b.left, left_rect, false),
        edge_commands(b.right, right_rect, false),
    );
}

/// What the layers of a table show.
pub open spec fn layers_ink(l: Layers) -> Multiset<Ink> {
    ink(l.shading).add(ink(l.content)).add(ink(l.borders))
}

pub(crate) proof fn lemma_flattened_ink(l: Layers)
    ensures
        ink(l.flattened()) == layers_ink(l),
{
    lemma_ink_concat(l.shading, l.content);
    lemma_ink_concat(l.shading + l.content, l.borders);
}

proof fn lemma_with_cell_ink(l: Layers, d: RowDrawing<'_>, c: int)
    ensures
        layers_ink(with_cell(l, d, c)) == layers_ink(l).add(
            ink(d.measured.entries[c].layout.commands),
        ),
{
    let next = with_cell(l, d, c);
    let commands = d.measured.entries[c].layout.commands;
    assert(ink(next.shading) =~= ink(l.shading)) by {
        if next.shading != l.shading {
            assert(next.shading.drop_last() =~= l.shading);
        }
    }
    let x = d.measured.entries[c].cell_x.plus(
        crate::table::borders::border_width(d.measured.borders[c].left).minus(
            d.row.cells@[c].margins.left,
        ).max(Pt::zero()),
    );
    assert(ink(next.content) == ink(l.content).add(ink(commands))) by {
        assert forall|dx: Pt, dy: Pt| ink(l.content + #[trigger] shift_all(commands, dx, dy)) == ink(
            l.content,
        ).add(ink(commands)) by {
            lemma_ink_shift(commands, dx, dy);
            lemma_ink_concat(l.content, shift_all(commands, dx, dy));
        }
    }
    assert(ink(next.borders) =~= ink(l.borders)) by {
        assert forall|b: CellBorders, x1: Pt, w: Pt, y: Pt, h: Pt|
            ink(l.borders + #[trigger] cell_border_commands(b, x1, w, y, h)) == ink(l.borders) by {
            lemma_borders_show_nothing(b, x1, w, y, h);
            lemma_ink_concat(l.borders, cell_border_commands(b, x1, w, y, h));
            assert(ink(l.borders).add(Multiset::<Ink>::empty()) =~= ink(l.borders));
        }
    }
    assert(layers_ink(next) =~= layers_ink(l).add(ink(commands)));
}

pub(crate) proof fn lemma_with_cells_ink(l: Layers, d: RowDrawing<'_>, c: int)
    requires
        row_fits(d.measured, d.row),
        0 <= c <= d.row.cells@.len(),
    ensures
        layers_ink(with_cells(l, d, c)) == layers_ink(l).add(entries_text(d.measured.entries, c)),
    decreases d.row.cells@.len() - c,
{
    if c < d.row.cells@.len() {
        lemma_with_cell_ink(l, d, c);
        lemma_with_cells_ink(with_cell(l, d, c), d, c + 1);
    }
    assert(layers_ink(with_cells(l, d, c)) =~= layers_ink(l).add(
        entries_text(d.measured.entries, c),
    ));
}

pub(crate) proof fn lemma_with_rows_ink(
    d: Drawing,
    measured: Seq<MeasuredRowView<'_>>,
    rows: Seq<TableRowInput>,
    i: int,
    start: int,
    end: int,
    restored_top: Option<TableBorderLine>,
)
    requires
        crate::table::emit::rows_fit(measured, rows),
        0 <= i,
        end <= rows.len(),
    ensures
        layers_ink(with_rows(d, measured, rows, i, start, end, restored_top).layers) == layers_ink(
            d.layers,
        ).add(rows_text(measured, i, end)),
    decreases end - i,
{
    if i < end {
        let drawn = row_drawing(measured, rows, i, start, end, d.y, restored_top);
        assert(row_fits(measured[i], rows[i]));
        lemma_with_cells_ink(d.layers, drawn, 0);
        let next = Drawing {
            layers: with_cells(d.layers, drawn, 0),
            y: d.y.plus(measured[i].full_height()),
        };
        lemma_with_rows_ink(next, measured, rows, i + 1, start, end, restored_top);
    }
    assert(layers_ink(with_rows(d, measured, rows, i, start, end, restored_top).layers)
        =~= layers_ink(d.layers).add(rows_text(measured, i, end)));
}

pub(crate) proof fn lemma_cells_footnotes_ink<'a>(
    entries: Seq<EntryView<'a>>,
    c: int,
    acc: Seq<&'a LayoutFootnote>,
)
    requires
        0 <= c <= entries.len(),
    ensures
        refs_ink(cells_footnotes(entries, c, acc)) == refs_ink(acc).add(entries_notes(entries, c)),
    decreases entries.len() - c,
{
    if c < entries.len() {
        let own = entries[c].layout.footnotes;
        let refs = Seq::new(own.len(), |f: int| own[f].footnote);
        lemma_refs_of_notes(own);
        lemma_refs_concat(acc, refs);
        lemma_cells_footnotes_ink(entries, c + 1, acc + refs);
    }
    assert(refs_ink(cells_footnotes(entries, c, acc)) =~= refs_ink(acc).add(
        entries_notes(entries, c),
    ));
}

pub(crate) proof fn lemma_range_footnotes_ink<'a>(
    measured: Seq<MeasuredRowView<'a>>,
    i: int,
    end: int,
    acc: Seq<&'a LayoutFootnote>,
)
    requires
        0 <= i,
        end <= measured.len(),
    ensures
        refs_ink(range_footnotes(measured, i, end, acc)) == refs_ink(acc).add(
            rows_notes(measured, i, end),
        ),
    decreases end - i,
{
    if i < end {
        lemma_cells_footnotes_ink(measured[i].entries, 0, acc);
        lemma_range_footnotes_ink(
            measured,
            i + 1,
            end,
            cells_footnotes(measured[i].entries, 0, acc),
        );
    }
    assert(refs_ink(range_footnotes(measured, i, end, acc)) =~= refs_ink(acc).add(
        rows_notes(measured, i, end),
    ));
}

proof fn lemma_cell_blocks_ink<'a>(
    blocks: Seq<LayoutBlock>,
    k: int,
    flow: CellFlow<'a>,
    width: Pt,
    margins: PtEdgeInsets,
    default_line_height: Pt,
    parity: PageParity,
)
    requires
        0 <= k <= blocks.len(),
    ensures
        flow_ink(cell_blocks(blocks, k, flow, width, margins, default_line_height, parity))
            == flow_ink(flow).add(blocks_ink(blocks, k)),
    decreases blocks, 0nat, blocks.len() - k,
{
    lemma_cell_block(blocks, k, flow, width, margins, default_line_height, parity);
    if k < blocks.len() {
        let next = with_block(flow, blocks[k], width, margins, default_line_height, parity);
        assert(decreases_to!(blocks => blocks[k]));
        lemma_with_block_ink(flow, blocks[k], width, margins, default_line_height, parity);
        lemma_cell_blocks_ink(blocks, k + 1, next, width, margins, default_line_height, parity);
    }
    assert(flow_ink(cell_blocks(blocks, k, flow, width, margins, default_line_height, parity))
        =~= flow_ink(flow).add(blocks_ink(blocks, k)));
}

proof fn lemma_with_block_ink<'a>(
    flow: CellFlow<'a>,
    block: LayoutBlock,
    width: Pt,
    margins: PtEdgeInsets,
    default_line_height: Pt,
    parity: PageParity,
)
    ensures
        flow_ink(with_block(flow, block, width, margins, default_line_height, parity)) == flow_ink(
            flow,
        ).add(block_ink(block)),
    decreases block, 6nat, 0int,
{
    reveal(with_block);
    reveal(table_layout);
    reveal(table_footnotes);
    match block {
        LayoutBlock::Paragraph {
            fragments,
            style,
            footnotes,
            floating_images,
            floating_shapes,
            ..
        } => {
            assert(fragments.len() == fragments@.len());
            lemma_with_paragraph_ink(
                flow,
                fragments@,
                style,
                footnotes@,
                floating_images@,
                floating_shapes@,
                inner_width(width, margins),
                margins,
                default_line_height,
                parity,
            );
        },
        LayoutBlock::Table { rows, col_widths, cell_spacing, border_config, .. } => {
            let format = TableFormat {
                col_widths: col_widths@,
                cell_spacing,
                default_line_height,
                borders: border_config,
                suppress_first_row_top: false,
            };
            let t = table_layout(rows@, format);
            assert(rows.len() == rows@.len());
            lemma_table_layout_ink(rows@, format);
            lemma_with_table_ink(
                flow,
                t.commands,
                t.size.height,
                table_footnotes(rows@, format),
                margins,
            );
        },
    }
}

proof fn lemma_cell_layout_ink(
    blocks: Seq<LayoutBlock>,
    width: Pt,
    margins: PtEdgeInsets,
    default_line_height: Pt,
    parity: PageParity,
)
    ensures
        layout_ink(cell_layout(blocks, width, margins, default_line_height, parity)) == blocks_ink(
            blocks,
            0,
        ),
    decreases blocks, 1nat, 0int,
{
    lemma_cell_layout(blocks, width, margins, default_line_height, parity);
    lemma_cell_blocks_ink(blocks, 0, no_flow(), width, margins, default_line_height, parity);
    assert(flow_ink(no_flow()) =~= Multiset::<Ink>::empty());
    assert(layout_ink(cell_layout(blocks, width, margins, default_line_height, parity)) =~= blocks_ink(
        blocks,
        0,
    ));
}

proof fn lemma_entry_ink(rows: Seq<TableRowInput>, r: int, c: int, format: TableFormat)
    requires
        0 <= r < rows.len(),
        0 <= c < rows[r].cells@.len(),
    ensures
        layout_ink(entry(rows, r, c, format).layout) == if rows[r].cells@[c].continues_merge() {
            Multiset::<Ink>::empty()
        } else {
            blocks_ink(rows[r].cells@[c].blocks@, 0)
        },
    decreases rows, 1nat, 0int,
{
    lemma_entry(rows, r, c, format);
    let row = rows[r];
    let cell = row.cells@[c];
    if cell.continues_merge() {
        assert(layout_ink(no_content()) =~= Multiset::<Ink>::empty());
    } else {
        let cell_w = crate::table::measure::cell_width(
            row,
            c,
            format.col_widths,
            format.cell_spacing,
        );
        assert(decreases_to!(rows => rows[r]));
        assert(decreases_to!(row.cells => row.cells@));
        assert(decreases_to!(row.cells@ => row.cells@[c]));
        assert(decreases_to!(cell.blocks => cell.blocks@));
        lemma_cell_layout_ink(
            cell.blocks@,
            layout_width(
                cell_w,
                cell.margins,
                crate::table::measure::borders_of_row(rows, r, format)[c],
            ),
            cell.margins,
            format.default_line_height,
            PageParity::Odd,
        );
    }
}

proof fn lemma_row_entries_ink(rows: Seq<TableRowInput>, r: int, c: int, format: TableFormat)
    requires
        0 <= r < rows.len(),
        0 <= c <= rows[r].cells@.len(),
    ensures
        entries_text(row_entries(rows, r, format), c).add(
            entries_notes(row_entries(rows, r, format), c),
        ) == cells_ink(rows, r, c),
    decreases rows, 2nat, rows[r].cells@.len() - c,
{
    let entries = row_entries(rows, r, format);
    lemma_row_entries(rows, r, format);
    if c < rows[r].cells@.len() {
        assert(entries[c] == entry(rows, r, c, format));
        lemma_entry_ink(rows, r, c, format);
        lemma_row_entries_ink(rows, r, c + 1, format);
    }
    assert(entries_text(entries, c).add(entries_notes(entries, c)) =~= cells_ink(rows, r, c));
}

proof fn lemma_measured_ink(rows: Seq<TableRowInput>, r: int, format: TableFormat)
    requires
        0 <= r <= rows.len(),
    ensures
        rows_ink(measured_table(rows, format).rows, r, rows.len() as int, Share::Both) == table_ink(rows, r),
    decreases rows, 3nat, rows.len() - r,
{
    if r < rows.len() {
        lemma_measured_table(rows, format);
        lemma_all_entries(rows, format);
        let measured = measured_table(rows, format).rows;
        assert(measured[r] == assembled_row(rows, r, all_entries(rows, format), format));
        assert(all_entries(rows, format)[r] == row_entries(rows, r, format));
        lemma_row_entries_ink(rows, r, 0, format);
        lemma_measured_ink(rows, r + 1, format);
    }
}

/// Measured rows show what the cells of the table show.
pub(crate) proof fn lemma_measured_table_ink(rows: Seq<TableRowInput>, format: TableFormat)
    ensures
        rows_ink(measured_table(rows, format).rows, 0, rows.len() as int, Share::Both) == table_ink(rows, 0),
    decreases rows, 4nat, 0int,
{
    lemma_measured_ink(rows, 0, format);
}

pub(crate) proof fn lemma_measured_fits(rows: Seq<TableRowInput>, format: TableFormat)
    ensures
        crate::table::emit::rows_fit(measured_table(rows, format).rows, rows),
{
    lemma_measured_table(rows, format);
    lemma_all_entries(rows, format);
    let measured = measured_table(rows, format).rows;
    assert forall|r: int| #![trigger rows[r]] 0 <= r < rows.len() implies row_fits(
        measured[r],
        rows[r],
    ) by {
        assert(measured[r] == assembled_row(rows, r, all_entries(rows, format), format));
        assert(all_entries(rows, format)[r] == row_entries(rows, r, format));
        lemma_row_entries(rows, r, format);
        reveal(crate::table::measure::borders_of_row);
        crate::table::edges::lemma_borders_for_each_cell(
            rows,
            r,
            format.borders,
            format.col_widths.len() as int,
            format.cell_spacing,
            format.suppress_first_row_top,
        );
    }
}

/// A table that is laid out as a whole draws what its measured rows show.
pub(crate) proof fn lemma_table_layout_text(rows: Seq<TableRowInput>, format: TableFormat)
    requires
        format.col_widths.len() > 0,
    ensures
        ink(table_layout(rows, format).commands) == rows_text(
            measured_table(rows, format).rows,
            0,
            rows.len() as int,
        ),
{
    lemma_table_layout(rows, format);
    let whole = ink(table_layout(rows, format).commands);
    if rows.len() == 0 {
        assert(whole =~= Multiset::<Ink>::empty());
    } else {
        let m = measured_table(rows, format);
        let n = rows.len() as int;
        lemma_measured_fits(rows, format);
        let start = Drawing { layers: Layers::empty(), y: Pt::zero() };
        lemma_with_rows_ink(start, m.rows, rows, 0, 0, n, None);
        let d = with_rows(start, m.rows, rows, 0, 0, n, None);
        lemma_flattened_ink(d.layers);
        assert(layers_ink(Layers::empty()) =~= Multiset::<Ink>::empty());
        assert(whole =~= rows_text(m.rows, 0, n));
    }
}

proof fn lemma_table_layout_ink(rows: Seq<TableRowInput>, format: TableFormat)
    requires
        rows.len() <= usize::MAX,
    ensures
        ink(table_layout(rows, format).commands).add(refs_ink(table_footnotes(rows, format)))
            == if format.col_widths.len() == 0 {
            Multiset::<Ink>::empty()
        } else {
            table_ink(rows, 0)
        },
    decreases rows, 5nat, 0int,
{
    lemma_table_layout(rows, format);
    let whole = ink(table_layout(rows, format).commands).add(
        refs_ink(table_footnotes(rows, format)),
    );
    if rows.len() == 0 || format.col_widths.len() == 0 {
        assert(whole =~= Multiset::<Ink>::empty());
    } else {
        let m = measured_table(rows, format);
        let n = rows.len() as int;
        lemma_measured_fits(rows, format);
        lemma_measured_table_ink(rows, format);
        lemma_rows_ink_parts(m.rows, 0, n);
        let start = Drawing { layers: Layers::empty(), y: Pt::zero() };
        lemma_with_rows_ink(start, m.rows, rows, 0, 0, n, None);
        let d = with_rows(start, m.rows, rows, 0, 0, n, None);
        lemma_flattened_ink(d.layers);
        assert(layers_ink(Layers::empty()) =~= Multiset::<Ink>::empty());
        lemma_range_footnotes_ink(m.rows, 0, n, Seq::empty());
        assert(whole =~= table_ink(rows, 0));
    }
}

/// A cell shows what its blocks, their footnotes and their floating objects show, all of it and once.
pub proof fn law_cell_shows_its_blocks_once(
    blocks: Seq<LayoutBlock>,
    width: Pt,
    margins: PtEdgeInsets,
    default_line_height: Pt,
    parity: PageParity,
)
    ensures
        layout_ink(cell_layout(blocks, width, margins, default_line_height, parity)) == blocks_ink(
            blocks,
            0,
        ),
{
    lemma_cell_layout_ink(blocks, width, margins, default_line_height, parity);
}

/// A table that is laid out as a whole shows what its cells, their footnotes and their floating
/// objects show, all of it and once.
pub proof fn law_table_shows_its_cells_once(rows: Seq<TableRowInput>, format: TableFormat)
    requires
        rows.len() <= usize::MAX,
        format.col_widths.len() > 0,
    ensures
        ink(table_layout(rows, format).commands).add(refs_ink(table_footnotes(rows, format)))
            == table_ink(rows, 0),
{
    lemma_table_layout_ink(rows, format);
}

} // verus!
