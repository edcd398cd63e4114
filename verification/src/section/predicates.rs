//! What the blocks of a section say about where they may be divided.
use crate::block::{FloatingImage, FloatingShape, LayoutBlock, LayoutFootnote, TableRowInput};
use crate::dimension::Pt;
use crate::fragment::{
    contains_flow_break, contains_page_break, has_flow_break, has_page_break, Fragment,
};
use crate::section::floats::affects_text;
use crate::style::ParagraphStyle;
use vstd::prelude::*;

verus! {

/// Whether a block is a paragraph that stays with the next one.
pub open spec fn keeps_next(block: LayoutBlock) -> bool {
    match block {
        LayoutBlock::Paragraph { style, .. } => style.keep_next,
        _ => false,
    }
}

/// Whether a block is a paragraph that stays with the next block.
pub fn paragraph_keep_next(block: &LayoutBlock) -> (r: bool)
    ensures
        r == keeps_next(*block),
{
    match block {
        LayoutBlock::Paragraph { style, .. } => style.keep_next,
        _ => false,
    }
}

/// Whether the first block of the first cell of a table's last row is a paragraph
/// that stays with the next one: the table then stays with the block after it.
/// A floating table never does.
pub open spec fn table_keeps_next(block: LayoutBlock) -> bool {
    match block {
        LayoutBlock::Table { rows, float_info, .. } => float_info is None && rows@.len() > 0 && ({
            let row = rows@[rows@.len() - 1];
            row.cells@.len() > 0 && row.cells@[0].blocks@.len() > 0 && keeps_next(
                row.cells@[0].blocks@[0],
            )
        }),
        _ => false,
    }
}

/// Whether a table stays with the next block: the first paragraph of its last row says so.
pub fn table_keep_next_sentinel(block: &LayoutBlock) -> (r: bool)
    ensures
        r == table_keeps_next(*block),
{
    match block {
        LayoutBlock::Table { rows, float_info, .. } => {
            if float_info.is_some() || rows.len() == 0 {
                return false;
            }
            let row = &rows[rows.len() - 1];
            if row.cells.len() == 0 || row.cells[0].blocks.len() == 0 {
                return false;
            }
            paragraph_keep_next(&row.cells[0].blocks[0])
        },
        _ => false,
    }
}

/// Whether a block is a paragraph with nothing but text in it, and no break of page or
/// column.
pub open spec fn is_plain_flow(block: LayoutBlock) -> bool {
    match block {
        LayoutBlock::Paragraph {
            fragments,
            page_break_before,
            footnotes,
            floating_images,
            floating_shapes,
            ..
        } => !page_break_before && footnotes@.len() == 0 && floating_images@.len() == 0
            && floating_shapes@.len() == 0 && !has_flow_break(fragments@),
        _ => false,
    }
}

fn block_is_plain_flow(block: &LayoutBlock) -> (r: bool)
    ensures
        r == is_plain_flow(*block),
{
    match block {
        LayoutBlock::Paragraph {
            fragments,
            page_break_before,
            footnotes,
            floating_images,
            floating_shapes,
            ..
        } => !*page_break_before && footnotes.len() == 0 && floating_images.len() == 0
            && floating_shapes.len() == 0 && !contains_flow_break(fragments.as_slice()),
        _ => false,
    }
}

/// Whether all cells of a table hold plain paragraphs alone, so that the table's
/// height depends on nothing else.
pub open spec fn is_simple_bridge(block: LayoutBlock) -> bool {
    match block {
        LayoutBlock::Table { rows, .. } => forall|r: int, c: int, b: int|
            0 <= r < rows@.len() && 0 <= c < rows@[r].cells@.len() && 0 <= b
                < rows@[r].cells@[c].blocks@.len() ==> is_plain_flow(
                #[trigger] rows@[r].cells@[c].blocks@[b],
            ),
        _ => false,
    }
}

/// Whether a table can be measured as a whole within a chain.
pub fn table_is_simple_keep_next_bridge(block: &LayoutBlock) -> (ret: bool)
    ensures
        ret == is_simple_bridge(*block),
{
    match block {
        LayoutBlock::Table { rows, .. } => {
            let mut r: usize = 0;
            while r < rows.len()
                invariant
                    r <= rows@.len(),
                    forall|k: int, c: int, b: int|
                        0 <= k < r && 0 <= c < rows@[k].cells@.len() && 0 <= b
                            < rows@[k].cells@[c].blocks@.len() ==> is_plain_flow(
                            #[trigger] rows@[k].cells@[c].blocks@[b],
                        ),
                    *block matches LayoutBlock::Table { rows: all, .. } && all == *rows,
                decreases rows@.len() - r,
            {
                let row = &rows[r];
                let mut c: usize = 0;
                while c < row.cells.len()
                    invariant
                        r < rows@.len(),
                        *row == rows@[r as int],
                        c <= row.cells@.len(),
                        forall|k: int, b: int|
                            0 <= k < c && 0 <= b < row.cells@[k].blocks@.len() ==> is_plain_flow(
                                #[trigger] row.cells@[k].blocks@[b],
                            ),
                        *block matches LayoutBlock::Table { rows: all, .. } && all == *rows,
                    decreases row.cells@.len() - c,
                {
                    let cell = &row.cells[c];
                    let mut b: usize = 0;
                    while b < cell.blocks.len()
                        invariant
                            r < rows@.len(),
                            *row == rows@[r as int],
                            c < row.cells@.len(),
                            *cell == row.cells@[c as int],
                            b <= cell.blocks@.len(),
                            forall|k: int|
                                0 <= k < b ==> is_plain_flow(#[trigger] cell.blocks@[k]),
                            *block matches LayoutBlock::Table { rows: all, .. } && all == *rows,
                        decreases cell.blocks@.len() - b,
                    {
                        if !block_is_plain_flow(&cell.blocks[b]) {
                            assert(!is_plain_flow(
                                rows@[r as int].cells@[c as int].blocks@[b as int],
                            ));
                            return false;
                        }
                        b += 1;
                    }
                    c += 1;
                }
                r += 1;
            }
            true
        },
        _ => false,
    }
}

/// Whether a block cannot follow another one on the same page as a matter of course.
pub open spec fn starts_boundary(block: LayoutBlock) -> bool {
    match block {
        LayoutBlock::Paragraph {
            fragments,
            page_break_before,
            floating_images,
            floating_shapes,
            ..
        } => page_break_before || floating_images@.len() != 0 || floating_shapes@.len() != 0
            || has_flow_break(fragments@),
        LayoutBlock::Table { float_info, .. } => float_info is Some,
    }
}

/// Whether a chain cannot reach across the start of a block.
pub fn starts_hard_body_boundary(block: &LayoutBlock) -> (r: bool)
    ensures
        r == starts_boundary(*block),
{
    match block {
        LayoutBlock::Paragraph {
            fragments,
            page_break_before,
            floating_images,
            floating_shapes,
            ..
        } => *page_break_before || floating_images.len() != 0 || floating_shapes.len() != 0
            || contains_flow_break(fragments.as_slice()),
        LayoutBlock::Table { float_info, .. } => float_info.is_some(),
    }
}

/// Whether a paragraph holds a page break.
pub open spec fn breaks_page_inside(block: LayoutBlock) -> bool {
    match block {
        LayoutBlock::Paragraph { fragments, .. } => has_page_break(fragments@),
        _ => false,
    }
}

/// Whether a block is a paragraph with a page break in it.
pub fn paragraph_has_inline_page_break(block: &LayoutBlock) -> (r: bool)
    ensures
        r == breaks_page_inside(*block),
{
    match block {
        LayoutBlock::Paragraph { fragments, .. } => contains_page_break(fragments.as_slice()),
        _ => false,
    }
}

/// Whether a paragraph asks for a page break before it.
pub open spec fn breaks_page_before(block: LayoutBlock) -> bool {
    match block {
        LayoutBlock::Paragraph { page_break_before, .. } => page_break_before,
        _ => false,
    }
}

/// Whether a block is a paragraph that starts a new page.
pub fn has_page_break_before(block: &LayoutBlock) -> (r: bool)
    ensures
        r == breaks_page_before(*block),
{
    match block {
        LayoutBlock::Paragraph { page_break_before, .. } => *page_break_before,
        _ => false,
    }
}

/// Whether a chain of paragraphs that stay with the next one starts at block `i`.
pub open spec fn starts_chain(blocks: Seq<LayoutBlock>, i: int) -> bool {
    keeps_next(blocks[i]) && !breaks_page_inside(blocks[i]) && (i == 0 || breaks_page_before(
        blocks[i],
    ) || !keeps_next(blocks[i - 1]))
}

/// Whether a chain of paragraphs that stay together starts at a block.
pub fn starts_keep_next_chain(blocks: &[LayoutBlock], block_idx: usize) -> (r: bool)
    requires
        block_idx < blocks@.len(),
    ensures
        r == starts_chain(blocks@, block_idx as int),
{
    paragraph_keep_next(&blocks[block_idx]) && !paragraph_has_inline_page_break(&blocks[block_idx])
        && (block_idx == 0 || has_page_break_before(&blocks[block_idx]) || !paragraph_keep_next(
        &blocks[block_idx - 1],
    ))
}

/// The table that ends the chain which started at `start`, looked for from `i` on.
pub open spec fn terminal_table(blocks: Seq<LayoutBlock>, start: int, i: int) -> Option<int>
    decreases blocks.len() - i,
{
    if i < 0 || i >= blocks.len() {
        None
    } else {
        match blocks[i] {
            LayoutBlock::Paragraph { fragments, style, page_break_before, .. } => if has_page_break(
                fragments@,
            ) || (i > start && page_break_before) || !style.keep_next {
                None
            } else {
                terminal_table(blocks, start, i + 1)
            },
            LayoutBlock::Table { float_info, .. } => if float_info is None {
                Some(i)
            } else {
                None
            },
        }
    }
}

/// Find the table that ends the chain which starts at `start`, if one does.
pub fn keep_next_terminal_table(blocks: &[LayoutBlock], start: usize) -> (r: Option<usize>)
    ensures
        match r {
            Some(i) => terminal_table(blocks@, start as int, start as int) == Some(i as int) && i
                < blocks@.len() && blocks@[i as int] is Table,
            None => terminal_table(blocks@, start as int, start as int) is None,
        },
{
    let mut i: usize = start;
    while i < blocks.len()
        invariant
            start <= i,
            terminal_table(blocks@, start as int, i as int) == terminal_table(
                blocks@,
                start as int,
                start as int,
            ),
        decreases blocks@.len() - i,
    {
        match &blocks[i] {
            LayoutBlock::Paragraph { fragments, style, page_break_before, .. } => {
                if contains_page_break(fragments.as_slice()) || (i > start && *page_break_before)
                    || !style.keep_next {
                    return None;
                }
            },
            LayoutBlock::Table { float_info, .. } => {
                return if float_info.is_none() {
                    Some(i)
                } else {
                    None
                };
            },
        }
        i += 1;
    }
    None
}

/// Whether a paragraph may be divided between pages or columns: not where its lines
/// stay together or an object floats with it, and where it has footnotes only if
/// no page or column break stands in it.
pub open spec fn is_breakable(
    style: ParagraphStyle,
    footnotes: Seq<LayoutFootnote>,
    images: Seq<FloatingImage>,
    shapes: Seq<FloatingShape>,
    single_chunk: bool,
) -> bool {
    !style.keep_lines && images.len() == 0 && shapes.len() == 0 && (footnotes.len() == 0
        || single_chunk)
}

/// Whether a paragraph may be divided between pages or columns.
pub fn paragraph_breakable(
    style: &ParagraphStyle,
    footnotes: &[LayoutFootnote],
    floating_images: &[FloatingImage],
    floating_shapes: &[FloatingShape],
    single_chunk: bool,
) -> (r: bool)
    ensures
        r == is_breakable(
            *style,
            footnotes@,
            floating_images@,
            floating_shapes@,
            single_chunk,
        ),
{
    !style.keep_lines && floating_images.len() == 0 && floating_shapes.len() == 0 && (
    footnotes.len() == 0 || single_chunk)
}

/// Whether all fragments are line breaks and bookmarks.
pub open spec fn only_line_breaks(fragments: Seq<Fragment>) -> bool {
    forall|i: int| #![trigger fragments[i]]
        0 <= i < fragments.len() ==> fragments[i] is LineBreak || fragments[i] is Bookmark
}

/// Whether a block is an empty paragraph that shows nothing.
pub open spec fn is_empty_spacer(block: LayoutBlock) -> bool {
    match block {
        LayoutBlock::Paragraph {
            fragments,
            style,
            page_break_before,
            footnotes,
            floating_images,
            floating_shapes,
        } => !page_break_before && only_line_breaks(fragments@) && style.borders is None
            && style.shading is None && footnotes@.len() == 0 && floating_images@.len() == 0
            && floating_shapes@.len() == 0,
        _ => false,
    }
}

fn are_only_line_breaks(fragments: &[Fragment]) -> (r: bool)
    ensures
        r == only_line_breaks(fragments@),
{
    let mut i: usize = 0;
    while i < fragments.len()
        invariant
            i <= fragments@.len(),
            forall|k: int| #![trigger fragments@[k]]
                0 <= k < i ==> fragments@[k] is LineBreak || fragments@[k] is Bookmark,
        decreases fragments@.len() - i,
    {
        match fragments[i] {
            Fragment::LineBreak { .. } | Fragment::Bookmark => {},
            _ => {
                let ghost f = fragments@[i as int];
                return false;
            },
        }
        i += 1;
    }
    true
}

/// Whether a block is an empty paragraph that shows nothing.
pub fn is_plain_empty_spacer(block: &LayoutBlock) -> (r: bool)
    ensures
        r == is_empty_spacer(*block),
{
    match block {
        LayoutBlock::Paragraph {
            fragments,
            style,
            page_break_before,
            footnotes,
            floating_images,
            floating_shapes,
        } => !*page_break_before && are_only_line_breaks(fragments.as_slice())
            && style.borders.is_none() && style.shading.is_none() && footnotes.len() == 0
            && floating_images.len() == 0 && floating_shapes.len() == 0,
        _ => false,
    }
}

/// Whether all fragments are page breaks and bookmarks.
pub open spec fn only_page_breaks(fragments: Seq<Fragment>) -> bool {
    forall|i: int| #![trigger fragments[i]]
        0 <= i < fragments.len() ==> fragments[i] is PageBreak || fragments[i] is Bookmark
}

/// Whether a block is a paragraph that holds a page break and nothing else.
pub open spec fn is_break_only(block: LayoutBlock) -> bool {
    match block {
        LayoutBlock::Paragraph { fragments, .. } => has_page_break(fragments@) && only_page_breaks(
            fragments@,
        ),
        _ => false,
    }
}

/// Whether a block is a paragraph that holds a page break and nothing else.
pub fn is_break_only_paragraph(block: &LayoutBlock) -> (r: bool)
    ensures
        r == is_break_only(*block),
{
    match block {
        LayoutBlock::Paragraph { fragments, .. } => {
            if !contains_page_break(fragments.as_slice()) {
                return false;
            }
            let mut i: usize = 0;
            while i < fragments.len()
                invariant
                    i <= fragments@.len(),
                    has_page_break(fragments@),
                    *block matches LayoutBlock::Paragraph { fragments: all, .. } && all
                        == *fragments,
                    forall|k: int| #![trigger fragments@[k]]
                        0 <= k < i ==> fragments@[k] is PageBreak || fragments@[k] is Bookmark,
                decreases fragments@.len() - i,
            {
                match fragments[i] {
                    Fragment::PageBreak | Fragment::Bookmark => {},
                    _ => {
                        let ghost f = fragments@[i as int];
                        return false;
                    },
                }
                i += 1;
            }
            true
        },
        _ => false,
    }
}

/// Whether a block, or a block in a table's cell, has footnotes.
pub open spec fn has_footnotes(block: LayoutBlock) -> bool
    decreases block,
{
    match block {
        LayoutBlock::Paragraph { footnotes, .. } => footnotes@.len() != 0,
        LayoutBlock::Table { rows, .. } => rows_footnotes_from(rows@, 0, 0, 0),
    }
}

/// Whether a block from block `b` of cell `c` of row `r` on has footnotes.
pub open spec fn rows_footnotes_from(rows: Seq<TableRowInput>, r: int, c: int, b: int) -> bool
    decreases rows, rows.len() - r, rows[r].cells@.len() - c, rows[r].cells@[c].blocks@.len() - b,
{
    if r < 0 || c < 0 || b < 0 || r >= rows.len() {
        false
    } else if c >= rows[r].cells@.len() {
        rows_footnotes_from(rows, r + 1, 0, 0)
    } else if b >= rows[r].cells@[c].blocks@.len() {
        rows_footnotes_from(rows, r, c + 1, 0)
    } else {
        has_footnotes(rows[r].cells@[c].blocks@[b]) || rows_footnotes_from(rows, r, c, b + 1)
    }
}

/// Whether some block in the cells of a table has footnotes.
pub fn table_rows_have_footnotes(rows: &[TableRowInput]) -> (ret: bool)
    ensures
        ret == rows_footnotes_from(rows@, 0, 0, 0),
    decreases rows@,
{
    let mut r: usize = 0;
    while r < rows.len()
        invariant
            r <= rows@.len(),
            rows_footnotes_from(rows@, r as int, 0, 0) == rows_footnotes_from(rows@, 0, 0, 0),
        decreases rows@.len() - r,
    {
        let row = &rows[r];
        let mut c: usize = 0;
        while c < row.cells.len()
            invariant
                r < rows@.len(),
                *row == rows@[r as int],
                c <= row.cells@.len(),
                rows_footnotes_from(rows@, r as int, c as int, 0) == rows_footnotes_from(
                    rows@,
                    0,
                    0,
                    0,
                ),
            decreases row.cells@.len() - c,
        {
            let cell = &row.cells[c];
            let mut b: usize = 0;
            while b < cell.blocks.len()
                invariant
                    r < rows@.len(),
                    *row == rows@[r as int],
                    c < row.cells@.len(),
                    *cell == row.cells@[c as int],
                    b <= cell.blocks@.len(),
                    rows_footnotes_from(rows@, r as int, c as int, b as int)
                        == rows_footnotes_from(rows@, 0, 0, 0),
                decreases cell.blocks@.len() - b,
            {
                proof {
                    assert(decreases_to!(rows@ => rows@[r as int]));
                    assert(decreases_to!(row.cells => row.cells@));
                    assert(decreases_to!(row.cells@ => row.cells@[c as int]));
                    assert(decreases_to!(cell.blocks => cell.blocks@));
                    assert(decreases_to!(cell.blocks@ => cell.blocks@[b as int]));
                }
                let found = match &cell.blocks[b] {
                    LayoutBlock::Paragraph { footnotes, .. } => footnotes.len() != 0,
                    LayoutBlock::Table { rows: inner, .. } => table_rows_have_footnotes(
                        inner.as_slice(),
                    ),
                };
                assert(found == has_footnotes(cell.blocks@[b as int]));
                if found {
                    return true;
                }
                b += 1;
            }
            c += 1;
        }
        r += 1;
    }
    false
}

/// Whether a block, or a block in a table's cell, has footnotes.
pub fn layout_block_has_footnotes(block: &LayoutBlock) -> (r: bool)
    ensures
        r == has_footnotes(*block),
{
    match block {
        LayoutBlock::Paragraph { footnotes, .. } => footnotes.len() != 0,
        LayoutBlock::Table { rows, .. } => table_rows_have_footnotes(rows.as_slice()),
    }
}

/// Whether some block from `i` on has footnotes.
pub open spec fn any_footnotes(blocks: Seq<LayoutBlock>, i: int) -> bool {
    exists|k: int| i <= k < blocks.len() && #[trigger] has_footnotes(blocks[k])
}

/// Whether a block from `from` on has footnotes.
pub fn blocks_have_footnotes(blocks: &[LayoutBlock], from: usize) -> (r: bool)
    ensures
        r == any_footnotes(blocks@, from as int),
{
    let mut i: usize = from;
    while i < blocks.len()
        invariant
            from <= i,
            forall|k: int| from <= k < i && k < blocks@.len() ==> !#[trigger] has_footnotes(
                blocks@[k],
            ),
        decreases blocks@.len() - i,
    {
        if layout_block_has_footnotes(&blocks[i]) {
            return true;
        }
        i += 1;
    }
    false
}

/// Whether text keeps clear of an object in a way that cannot hold in a further column:
/// only bands at fixed heights of the page can.
#[verifier::allow_in_spec]
pub fn unsupported_in_columns(frame: &crate::block::FloatingFrame) -> bool
    returns
        (affects_text(frame) && !(frame.is_wrap_top_and_bottom() && frame.has_absolute_y())),
{
    affects_text(frame) && !(frame.is_wrap_top_and_bottom() && frame.has_absolute_y())
}

/// Whether a block holds a float that cannot hold in a further column.
pub open spec fn has_unsupported_float(block: LayoutBlock) -> bool {
    match block {
        LayoutBlock::Paragraph { floating_images, floating_shapes, .. } => (exists|i: int|
            0 <= i < floating_images@.len() && unsupported_in_columns(
                &(#[trigger] floating_images@[i]).frame,
            )) || (exists|i: int|
            0 <= i < floating_shapes@.len() && unsupported_in_columns(
                &(#[trigger] floating_shapes@[i]).frame,
            )),
        LayoutBlock::Table { float_info, .. } => float_info is Some,
    }
}

/// Whether a block holds a float that cannot be brought back at the top of another column.
pub fn layout_block_has_unsupported_column_float(block: &LayoutBlock) -> (r: bool)
    ensures
        r == has_unsupported_float(*block),
{
    match block {
        LayoutBlock::Paragraph { floating_images, floating_shapes, .. } => {
            let mut i: usize = 0;
            while i < floating_images.len()
                invariant
                    i <= floating_images@.len(),
                    *block matches LayoutBlock::Paragraph { floating_images: all, .. } && all
                        == *floating_images,
                    forall|k: int| 0 <= k < i ==> !unsupported_in_columns(
                        &(#[trigger] floating_images@[k]).frame,
                    ),
                decreases floating_images@.len() - i,
            {
                if unsupported_in_columns(&floating_images[i].frame) {
                    return true;
                }
                i += 1;
            }
            let mut k: usize = 0;
            while k < floating_shapes.len()
                invariant
                    k <= floating_shapes@.len(),
                    *block matches LayoutBlock::Paragraph { floating_shapes: all, .. } && all
                        == *floating_shapes,
                    forall|j: int| 0 <= j < k ==> !unsupported_in_columns(
                        &(#[trigger] floating_shapes@[j]).frame,
                    ),
                decreases floating_shapes@.len() - k,
            {
                if unsupported_in_columns(&floating_shapes[k].frame) {
                    return true;
                }
                k += 1;
            }
            false
        },
        LayoutBlock::Table { float_info, .. } => float_info.is_some(),
    }
}

/// Whether some block from `i` on holds a float that cannot hold in a further column.
pub open spec fn any_unsupported_float(blocks: Seq<LayoutBlock>, i: int) -> bool {
    exists|k: int| i <= k < blocks.len() && #[trigger] has_unsupported_float(blocks[k])
}

/// Whether a block from `from` on holds such a float.
pub fn blocks_have_unsupported_float(blocks: &[LayoutBlock], from: usize) -> (r: bool)
    ensures
        r == any_unsupported_float(blocks@, from as int),
{
    let mut i: usize = from;
    while i < blocks.len()
        invariant
            from <= i,
            forall|k: int| from <= k < i && k < blocks@.len() ==> !#[trigger] has_unsupported_float(
                blocks@[k],
            ),
        decreases blocks@.len() - i,
    {
        if layout_block_has_unsupported_column_float(&blocks[i]) {
            return true;
        }
        i += 1;
    }
    false
}

/// Fixed-point units in a hundredth of a point.
pub const MATCH_UNITS: i64 = 762;

/// Whether two heights are the same up to a hundredth of a point.
#[verifier::allow_in_spec]
pub fn page_heights_match(a: Pt, b: Pt) -> bool
    returns
        (a.minus(b).units <= MATCH_UNITS && a.minus(b).units >= -MATCH_UNITS),
{
    a.minus(b).units <= MATCH_UNITS && a.minus(b).units >= -MATCH_UNITS
}

/// Whether the first fragment from `i` on that is no bookmark is a page break.
pub open spec fn page_break_leads(fragments: Seq<Fragment>, i: int) -> bool
    decreases fragments.len() - i,
{
    if i < 0 || i >= fragments.len() {
        false
    } else if fragments[i] is Bookmark {
        page_break_leads(fragments, i + 1)
    } else {
        fragments[i].is_page_break()
    }
}

/// Whether a block is a paragraph that starts with a page break.
pub open spec fn starts_with_break(block: LayoutBlock) -> bool {
    match block {
        LayoutBlock::Paragraph { fragments, .. } => page_break_leads(fragments@, 0),
        _ => false,
    }
}

/// Whether a paragraph starts with a page break.
pub fn starts_with_inline_page_break(block: &LayoutBlock) -> (r: bool)
    ensures
        r == starts_with_break(*block),
{
    match block {
        LayoutBlock::Paragraph { fragments, .. } => {
            let mut i: usize = 0;
            while i < fragments.len()
                invariant
                    i <= fragments@.len(),
                    *block matches LayoutBlock::Paragraph { fragments: all, .. } && all
                        == *fragments,
                    page_break_leads(fragments@, i as int) == page_break_leads(fragments@, 0),
                decreases fragments@.len() - i,
            {
                match fragments[i] {
                    Fragment::Bookmark => {},
                    _ => {
                        return fragments[i].is_page_break();
                    },
                }
                i += 1;
            }
            false
        },
        _ => false,
    }
}

/// Whether the first block from `i` on that is no empty spacer begins a new page.
pub open spec fn explicit_break_follows(blocks: Seq<LayoutBlock>, i: int) -> bool
    decreases blocks.len() - i,
{
    if i < 0 || i >= blocks.len() {
        false
    } else if is_empty_spacer(blocks[i]) {
        explicit_break_follows(blocks, i + 1)
    } else {
        starts_with_break(blocks[i]) || breaks_page_before(blocks[i])
    }
}

/// Whether only empty spacers stand between a block and the next explicit page break.
pub fn followed_by_explicit_page_break(blocks: &[LayoutBlock], block_idx: usize) -> (r: bool)
    requires
        block_idx < blocks@.len(),
    ensures
        r == explicit_break_follows(blocks@, block_idx + 1),
{
    let count: usize = blocks.len();
    let mut i: usize = block_idx + 1;
    while i < count
        invariant
            count == blocks@.len(),
            block_idx + 1 <= i <= count,
            explicit_break_follows(blocks@, i as int) == explicit_break_follows(
                blocks@,
                block_idx + 1,
            ),
        decreases count - i,
    {
        if !is_plain_empty_spacer(&blocks[i]) {
            return starts_with_inline_page_break(&blocks[i]) || has_page_break_before(&blocks[i]);
        }
        i += 1;
    }
    false
}

/// Whether the blocks before `i` end with a table and then empty spacers; one of them at
/// least, unless `saw_spacer` says that there was one already.
pub open spec fn spacers_after_table(blocks: Seq<LayoutBlock>, i: int, saw_spacer: bool) -> bool
    decreases i,
{
    if i <= 0 {
        false
    } else if is_empty_spacer(blocks[i - 1]) {
        spacers_after_table(blocks, i - 1, true)
    } else {
        saw_spacer && blocks[i - 1] is Table
    }
}

/// Whether a block is a lone page break that follows a table's trailing empty
/// paragraphs.
pub open spec fn break_follows_table_spacers(blocks: Seq<LayoutBlock>, i: int) -> bool {
    is_break_only(blocks[i]) && spacers_after_table(blocks, i, false)
}

/// Whether a block is a lone page break that empty spacers part from a table above.
pub fn break_only_follows_table_spacer_chain(blocks: &[LayoutBlock], block_idx: usize) -> (r: bool)
    requires
        block_idx < blocks@.len(),
    ensures
        r == break_follows_table_spacers(blocks@, block_idx as int),
{
    if !is_break_only_paragraph(&blocks[block_idx]) {
        return false;
    }
    let mut i: usize = block_idx;
    let mut saw_spacer = false;
    while i > 0
        invariant
            i <= block_idx < blocks@.len(),
            spacers_after_table(blocks@, i as int, saw_spacer) == spacers_after_table(
                blocks@,
                block_idx as int,
                false,
            ),
            is_break_only(blocks@[block_idx as int]),
        decreases i,
    {
        i -= 1;
        if is_plain_empty_spacer(&blocks[i]) {
            saw_spacer = true;
        } else {
            return saw_spacer && matches!(&blocks[i], LayoutBlock::Table { .. });
        }
    }
    false
}

/// How a paragraph is divided at the end of a page.
#[derive(Clone, Copy, Debug, PartialEq, Eq, Structural)]
pub enum ParagraphSplit {
    /// All lines stay: they fit, or there is nowhere better.
    All,
    /// The first `head` lines stay.
    Break { head: usize },
    /// No line stays.
    MoveWhole,
}

/// The number of lines that stay when `n_fit` of `total` lines fit: with widow control
/// two at least stay and two at least leave, or none stay.
#[verifier::allow_in_spec]
pub fn legal_head(n_fit: usize, total: usize, widow_control: bool) -> usize
    returns
        (if widow_control {
            let capped = if n_fit as int <= total - 2 {
                n_fit as int
            } else if total >= 2 {
                total - 2
            } else {
                0
            };
            if capped >= 2 {
                capped as usize
            } else {
                0
            }
        } else {
            n_fit
        }),
{
    if widow_control {
        let tail: usize = total.saturating_sub(2);
        let capped: usize = if n_fit <= tail {
            n_fit
        } else {
            tail
        };
        if capped >= 2 {
            capped
        } else {
            0
        }
    } else {
        n_fit
    }
}

/// How a paragraph is divided of whose `total` lines the first `n_fit` fit.
///
/// At the top of a page there is no point in moving on: what cannot be divided there
/// stays and overflows.
pub open spec fn paragraph_split(
    n_fit: usize,
    total: usize,
    widow_control: bool,
    at_page_top: bool,
) -> ParagraphSplit {
    if n_fit >= total {
        ParagraphSplit::All
    } else if legal_head(n_fit, total, widow_control) >= 1 {
        ParagraphSplit::Break { head: legal_head(n_fit, total, widow_control) }
    } else if at_page_top {
        ParagraphSplit::All
    } else {
        ParagraphSplit::MoveWhole
    }
}

/// Decide how a paragraph is divided of whose `total` lines the first `n_fit` fit.
pub fn decide_paragraph_split(
    n_fit: usize,
    total: usize,
    widow_control: bool,
    at_page_top: bool,
) -> (r: ParagraphSplit)
    ensures
        r == paragraph_split(n_fit, total, widow_control, at_page_top),
        r matches ParagraphSplit::Break { head } ==> 1 <= head < total && head <= n_fit && (
        widow_control ==> head >= 2 && total - head >= 2),
        at_page_top ==> r != ParagraphSplit::MoveWhole,
{
    if n_fit >= total {
        return ParagraphSplit::All;
    }
    let head: usize = legal_head(n_fit, total, widow_control);
    if head >= 1 {
        return ParagraphSplit::Break { head };
    }
    if at_page_top {
        ParagraphSplit::All
    } else {
        ParagraphSplit::MoveWhole
    }
}

/// The number of lines that stay, `head` at first, when the first `prefix_lines` lines of
/// a paragraph stay together: none where these would be divided, and all of these at
/// the top of a page.
#[verifier::allow_in_spec]
pub fn prefix_adjusted_head(
    head: usize,
    remaining: usize,
    prefix_lines: usize,
    first_segment: bool,
    at_page_top: bool,
) -> Option<usize>
    returns
        (if !(first_segment && prefix_lines > 1 && head < prefix_lines && head < remaining) {
            Some(head)
        } else if at_page_top {
            Some(
                if prefix_lines <= remaining {
                    prefix_lines
                } else {
                    remaining
                },
            )
        } else {
            None
        }),
{
    if !(first_segment && prefix_lines > 1 && head < prefix_lines && head < remaining) {
        Some(head)
    } else if at_page_top {
        Some(
            if prefix_lines <= remaining {
                prefix_lines
            } else {
                remaining
            },
        )
    } else {
        None
    }
}

/// Dividing a paragraph always leads on: at the top of a page some line stays.
pub proof fn law_a_fresh_page_takes_a_line(
    n_fit: usize,
    total: usize,
    widow_control: bool,
    prefix_lines: usize,
    first_segment: bool,
)
    requires
        total >= 1,
    ensures
        match paragraph_split(n_fit, total, widow_control, true) {
            ParagraphSplit::All => prefix_adjusted_head(
                total,
                total,
                prefix_lines,
                first_segment,
                true,
            ) == Some(total),
            ParagraphSplit::Break { head } => prefix_adjusted_head(
                head,
                total,
                prefix_lines,
                first_segment,
                true,
            ) matches Some(stays) && 1 <= stays <= total,
            ParagraphSplit::MoveWhole => false,
        },
{
}

/// Widow control: where a paragraph is divided, two lines at least stand on each side.
pub proof fn law_no_line_is_left_alone(n_fit: usize, total: usize, at_page_top: bool)
    ensures
        paragraph_split(n_fit, total, true, at_page_top) matches ParagraphSplit::Break { head }
            ==> head >= 2 && total - head >= 2,
{
}

} // verus!
