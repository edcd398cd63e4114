//! Floating objects: what they draw, and the room that they keep free of text.
use crate::block::{FloatingFrame, FloatingImage, FloatingShape, LayoutBlock, PageParity};
use crate::dimension::Pt;
use crate::draw_command::DrawCommand;
use crate::float::{live_floats, prune_floats, ActiveFloat, FloatSource, WrapTextSide};
use crate::fragment::Fragment;
use crate::geometry::PtRect;
use crate::page::{copy_layered, LayeredDrawCommand, PageView};
use crate::paragraph::{boxes_height, PlacedParagraph, PlacedView};
use crate::section::state::{FlowState, PageLayoutState};
use crate::style::ParagraphStyle;
use vstd::prelude::*;

verus! {

/// Two floats whose coordinates differ by less than this many units are the same.
pub const FLOAT_DEDUP_UNITS: i64 = 38100;

/// Whether two coordinates are the same up to the tolerance for floats.
#[verifier::allow_in_spec]
pub fn is_near(a: Pt, b: Pt) -> bool
    returns
        (a.minus(b).units < FLOAT_DEDUP_UNITS && a.minus(b).units > -FLOAT_DEDUP_UNITS),
{
    a.minus(b).units < FLOAT_DEDUP_UNITS && a.minus(b).units > -FLOAT_DEDUP_UNITS
}

/// Whether two floats stand at the same place.
#[verifier::allow_in_spec]
pub fn same_place(a: ActiveFloat, b: ActiveFloat) -> bool
    returns
        (is_near(a.page_x, b.page_x) && is_near(a.page_y_start, b.page_y_start) && is_near(
            a.page_y_end,
            b.page_y_end,
        )),
{
    is_near(a.page_x, b.page_x) && is_near(a.page_y_start, b.page_y_start) && is_near(
        a.page_y_end,
        b.page_y_end,
    )
}

/// Whether one of the floats stands where `f` does.
pub open spec fn has_float_at(floats: Seq<ActiveFloat>, f: ActiveFloat) -> bool {
    exists|i: int| 0 <= i < floats.len() && same_place(#[trigger] floats[i], f)
}

fn contains_float_at(floats: &Vec<ActiveFloat>, f: ActiveFloat) -> (r: bool)
    ensures
        r == has_float_at(floats@, f),
{
    let mut i: usize = 0;
    while i < floats.len()
        invariant
            i <= floats@.len(),
            forall|k: int| 0 <= k < i ==> !same_place(#[trigger] floats@[k], f),
        decreases floats@.len() - i,
    {
        if same_place(floats[i], f) {
            return true;
        }
        i += 1;
    }
    false
}

/// A copy of a list of floats.
pub fn copy_floats(source: &Vec<ActiveFloat>) -> (r: Vec<ActiveFloat>)
    ensures
        r@ == source@,
{
    let mut r: Vec<ActiveFloat> = Vec::new();
    let mut i: usize = 0;
    while i < source.len()
        invariant
            i <= source@.len(),
            r@ == source@.take(i as int),
        decreases source@.len() - i,
    {
        r.push(source[i]);
        i += 1;
        assert(r@ =~= source@.take(i as int));
    }
    assert(r@ =~= source@);
    r
}

/// The room that a floating object keeps free: a band across the column where text
/// stands above and below it only, and else its own box.
pub open spec fn frame_float(
    frame: FloatingFrame,
    y: Pt,
    parity: PageParity,
    column_x: Pt,
    column_width: Pt,
    source: FloatSource,
) -> ActiveFloat {
    if frame.is_wrap_top_and_bottom() {
        ActiveFloat {
            page_x: column_x,
            page_y_start: y.minus(frame.dist_top),
            page_y_end: y.plus(frame.size.height).plus(frame.dist_bottom),
            width: column_width,
            source,
            vertical_exclusion: true,
            wrap_text: WrapTextSide::BothSides,
        }
    } else {
        ActiveFloat {
            page_x: frame.x.resolve(parity).minus(frame.dist_left),
            page_y_start: y.minus(frame.dist_top),
            page_y_end: y.plus(frame.size.height).plus(frame.dist_bottom),
            width: frame.size.width.plus(frame.dist_left).plus(frame.dist_right),
            source,
            vertical_exclusion: false,
            wrap_text: frame.wrap_mode.wrap_text(),
        }
    }
}

fn float_of_frame(
    frame: &FloatingFrame,
    y: Pt,
    parity: PageParity,
    column_x: Pt,
    column_width: Pt,
    source: FloatSource,
) -> (r: ActiveFloat)
    ensures
        r == frame_float(*frame, y, parity, column_x, column_width, source),
{
    if frame.is_wrap_top_and_bottom() {
        ActiveFloat {
            page_x: column_x,
            page_y_start: y.minus(frame.dist_top),
            page_y_end: y.plus(frame.size.height).plus(frame.dist_bottom),
            width: column_width,
            source,
            vertical_exclusion: true,
            wrap_text: WrapTextSide::BothSides,
        }
    } else {
        ActiveFloat {
            page_x: frame.x.resolve(parity).minus(frame.dist_left),
            page_y_start: y.minus(frame.dist_top),
            page_y_end: y.plus(frame.size.height).plus(frame.dist_bottom),
            width: frame.size.width.plus(frame.dist_left).plus(frame.dist_right),
            source,
            vertical_exclusion: false,
            wrap_text: frame.wrap_mode.wrap_text(),
        }
    }
}

/// Whether text keeps clear of the object at all.
#[verifier::allow_in_spec]
pub fn affects_text(frame: &FloatingFrame) -> bool
    returns
        (frame.wrap_mode.registers_as_wrap_float() || frame.is_wrap_top_and_bottom()),
{
    frame.wrap_mode.registers_as_wrap_float() || frame.is_wrap_top_and_bottom()
}

/// Whether an image stands at a fixed height of the page and text keeps clear of it.
#[verifier::allow_in_spec]
pub fn is_absolute_wrap(frame: &FloatingFrame) -> bool
    returns
        (frame.has_absolute_y() && affects_text(frame)),
{
    frame.has_absolute_y() && affects_text(frame)
}

/// Whether one of the images stands at a fixed height of the page and text keeps
/// clear of it.
pub open spec fn any_absolute_wrap(images: Seq<FloatingImage>) -> bool {
    exists|i: int| 0 <= i < images.len() && is_absolute_wrap(&(#[trigger] images[i]).frame)
}

/// Whether one of the images stands at a fixed height of the page and text keeps
/// clear of it.
pub fn has_absolute_wrap_float(floating_images: &[FloatingImage]) -> (r: bool)
    ensures
        r == any_absolute_wrap(floating_images@),
{
    let mut i: usize = 0;
    while i < floating_images.len()
        invariant
            i <= floating_images@.len(),
            forall|k: int| 0 <= k < i ==> !is_absolute_wrap(&(#[trigger] floating_images@[k]).frame),
        decreases floating_images@.len() - i,
    {
        if is_absolute_wrap(&floating_images[i].frame) {
            return true;
        }
        i += 1;
    }
    false
}

/// Where a look ahead over the blocks of a page ends within a paragraph.
#[derive(Clone, Copy, Debug, PartialEq, Eq, Structural)]
pub enum ForwardScanBoundary {
    /// The paragraph ends on the page.
    Unbounded,
    /// The page ends before the paragraph's floats are placed.
    BeforeParagraphFloat,
    /// The page ends with the paragraph.
    AfterParagraphFloat,
}

/// Whether something other than page breaks stands among the fragments from `i` on.
pub open spec fn content_follows(fragments: Seq<Fragment>, i: int) -> bool {
    exists|k: int| i <= k < fragments.len() && !(#[trigger] fragments[k]).is_page_break()
}

fn has_following_content(fragments: &[Fragment], from: usize) -> (r: bool)
    requires
        from <= fragments@.len(),
    ensures
        r == content_follows(fragments@, from as int),
{
    let mut i: usize = from;
    while i < fragments.len()
        invariant
            from <= i <= fragments@.len(),
            forall|k: int| from <= k < i ==> (#[trigger] fragments@[k]).is_page_break(),
        decreases fragments@.len() - i,
    {
        if !fragments[i].is_page_break() {
            return true;
        }
        i += 1;
    }
    false
}

/// Where the page ends among the fragments from `i` on, starting in column `col`;
/// and the column that they end in.
pub open spec fn inline_boundary(
    fragments: Seq<Fragment>,
    i: int,
    col: usize,
    num_cols: usize,
) -> (ForwardScanBoundary, usize)
    decreases fragments.len() - i,
{
    if i < 0 || i >= fragments.len() {
        (ForwardScanBoundary::Unbounded, col)
    } else if fragments[i].is_page_break() {
        if content_follows(fragments, i + 1) {
            (ForwardScanBoundary::BeforeParagraphFloat, col)
        } else {
            (ForwardScanBoundary::AfterParagraphFloat, col)
        }
    } else if fragments[i] is ColumnBreak {
        if col + 1 < num_cols {
            inline_boundary(fragments, i + 1, (col + 1) as usize, num_cols)
        } else {
            (ForwardScanBoundary::BeforeParagraphFloat, 0)
        }
    } else {
        inline_boundary(fragments, i + 1, col, num_cols)
    }
}

/// Find where the page ends within a paragraph that starts in column `current_col`.
pub fn scan_inline_page_boundary(
    fragments: &[Fragment],
    current_col: &mut usize,
    num_cols: usize,
) -> (r: ForwardScanBoundary)
    ensures
        (r, *final(current_col)) == inline_boundary(fragments@, 0, *old(current_col), num_cols),
{
    let mut i: usize = 0;
    while i < fragments.len()
        invariant
            i <= fragments@.len(),
            inline_boundary(fragments@, i as int, *current_col, num_cols) == inline_boundary(
                fragments@,
                0,
                *old(current_col),
                num_cols,
            ),
        decreases fragments@.len() - i,
    {
        match fragments[i] {
            Fragment::PageBreak => {
                return if has_following_content(fragments, i + 1) {
                    ForwardScanBoundary::BeforeParagraphFloat
                } else {
                    ForwardScanBoundary::AfterParagraphFloat
                };
            },
            Fragment::ColumnBreak => {
                if *current_col < num_cols && *current_col + 1 < num_cols {
                    *current_col = *current_col + 1;
                } else {
                    *current_col = 0;
                    return ForwardScanBoundary::BeforeParagraphFloat;
                }
            },
            _ => {},
        }
        i += 1;
    }
    ForwardScanBoundary::Unbounded
}

/// The floats of the images from `i` on that stand at fixed heights of the page, after
/// those in `acc`.
pub open spec fn absolute_floats(
    images: Seq<FloatingImage>,
    i: int,
    parity: PageParity,
    column_x: Pt,
    column_width: Pt,
    acc: Seq<ActiveFloat>,
) -> Seq<ActiveFloat>
    decreases images.len() - i,
{
    if i < 0 || i >= images.len() {
        acc
    } else {
        let frame = images[i].frame;
        absolute_floats(
            images,
            i + 1,
            parity,
            column_x,
            column_width,
            if is_absolute_wrap(&frame) {
                acc.push(
                    frame_float(
                        frame,
                        frame.y.resolve(Pt::zero()),
                        parity,
                        column_x,
                        column_width,
                        FloatSource::Image,
                    ),
                )
            } else {
                acc
            },
        )
    }
}

/// The floats at fixed heights of the page that the blocks from `i` on will place,
/// after those in `acc`. The page ends at the next page break, or before a block
/// whose floats have been moved to a later page.
pub open spec fn scanned_floats(
    blocks: Seq<LayoutBlock>,
    relocated: Seq<bool>,
    start: int,
    num_cols: usize,
    parity: PageParity,
    column_x: Pt,
    column_width: Pt,
    i: int,
    col: usize,
    acc: Seq<ActiveFloat>,
) -> Seq<ActiveFloat>
    decreases blocks.len() - i,
{
    if i < 0 || i >= blocks.len() {
        acc
    } else if relocated[i] {
        if i == start {
            scanned_floats(
                blocks,
                relocated,
                start,
                num_cols,
                parity,
                column_x,
                column_width,
                i + 1,
                col,
                acc,
            )
        } else {
            acc
        }
    } else {
        match blocks[i] {
            LayoutBlock::Paragraph { fragments, page_break_before, floating_images, .. } => {
                let (boundary, next_col) = inline_boundary(fragments@, 0, col, num_cols);
                let next = if boundary == ForwardScanBoundary::BeforeParagraphFloat {
                    acc
                } else {
                    absolute_floats(floating_images@, 0, parity, column_x, column_width, acc)
                };
                if page_break_before && i > start {
                    acc
                } else if boundary != ForwardScanBoundary::Unbounded {
                    next
                } else {
                    scanned_floats(
                        blocks,
                        relocated,
                        start,
                        num_cols,
                        parity,
                        column_x,
                        column_width,
                        i + 1,
                        next_col,
                        next,
                    )
                }
            },
            LayoutBlock::Table { .. } => scanned_floats(
                blocks,
                relocated,
                start,
                num_cols,
                parity,
                column_x,
                column_width,
                i + 1,
                col,
                acc,
            ),
        }
    }
}

fn push_absolute_floats(
    images: &[FloatingImage],
    parity: PageParity,
    column_x: Pt,
    column_width: Pt,
    floats: &mut Vec<ActiveFloat>,
)
    ensures
        final(floats)@ == absolute_floats(
            images@,
            0,
            parity,
            column_x,
            column_width,
            old(floats)@,
        ),
{
    let mut i: usize = 0;
    while i < images.len()
        invariant
            i <= images@.len(),
            absolute_floats(images@, i as int, parity, column_x, column_width, floats@)
                == absolute_floats(images@, 0, parity, column_x, column_width, old(floats)@),
        decreases images@.len() - i,
    {
        let frame = &images[i].frame;
        if is_absolute_wrap(frame) {
            floats.push(
                float_of_frame(
                    frame,
                    frame.y.resolve(Pt::zero()),
                    parity,
                    column_x,
                    column_width,
                    FloatSource::Image,
                ),
            );
        }
        i += 1;
    }
}

fn scan_floats(
    blocks: &[LayoutBlock],
    relocated: &Vec<bool>,
    start: usize,
    first_col: usize,
    num_cols: usize,
    parity: PageParity,
    column_x: Pt,
    column_width: Pt,
) -> (r: Vec<ActiveFloat>)
    requires
        relocated@.len() == blocks@.len(),
    ensures
        r@ == scanned_floats(
            blocks@,
            relocated@,
            start as int,
            num_cols,
            parity,
            column_x,
            column_width,
            start as int,
            first_col,
            Seq::empty(),
        ),
{
    let mut floats: Vec<ActiveFloat> = Vec::new();
    let mut col: usize = first_col;
    let mut i: usize = start;
    while i < blocks.len()
        invariant
            start <= i,
            relocated@.len() == blocks@.len(),
            scanned_floats(
                blocks@,
                relocated@,
                start as int,
                num_cols,
                parity,
                column_x,
                column_width,
                i as int,
                col,
                floats@,
            ) == scanned_floats(
                blocks@,
                relocated@,
                start as int,
                num_cols,
                parity,
                column_x,
                column_width,
                start as int,
                first_col,
                Seq::empty(),
            ),
        decreases blocks@.len() - i,
    {
        if relocated[i] {
            if i != start {
                return floats;
            }
        } else {
            match &blocks[i] {
                LayoutBlock::Paragraph { fragments, page_break_before, floating_images, .. } => {
                    if *page_break_before && i > start {
                        return floats;
                    }
                    let boundary = scan_inline_page_boundary(
                        fragments.as_slice(),
                        &mut col,
                        num_cols,
                    );
                    if boundary != ForwardScanBoundary::BeforeParagraphFloat {
                        push_absolute_floats(
                            floating_images.as_slice(),
                            parity,
                            column_x,
                            column_width,
                            &mut floats,
                        );
                    }
                    if boundary != ForwardScanBoundary::Unbounded {
                        return floats;
                    }
                },
                LayoutBlock::Table { .. } => {},
            }
        }
        i += 1;
    }
    floats
}

/// Whether a float counts at the cursor: a band also when it starts further down.
pub open spec fn counts_at(f: ActiveFloat, y: Pt) -> bool {
    f.vertical_exclusion || f.page_y_start.units <= y.units
}

/// The floats of `more` that count at `y` and stand where none of `floats` does.
pub open spec fn added_floats(
    floats: Seq<ActiveFloat>,
    more: Seq<ActiveFloat>,
    y: Pt,
) -> Seq<ActiveFloat> {
    more.filter(|f: ActiveFloat| counts_at(f, y) && !has_float_at(floats, f))
}

/// `y` moved below the floats from `k` on that leave no room in the column, as far as
/// `y` meets them in turn.
pub open spec fn below_blockers(
    floats: Seq<ActiveFloat>,
    k: int,
    y: Pt,
    column_width: Pt,
    count_bands: bool,
) -> Pt
    decreases floats.len() - k,
{
    if k < 0 || k >= floats.len() {
        y
    } else {
        let f = floats[k];
        below_blockers(
            floats,
            k + 1,
            if (count_bands || !f.vertical_exclusion) && f.overlaps_y(y) && f.width.units
                >= column_width.units {
                y.max(f.page_y_end)
            } else {
                y
            },
            column_width,
            count_bands,
        )
    }
}

fn move_below_blockers(
    floats: &Vec<ActiveFloat>,
    y: Pt,
    column_width: Pt,
    count_bands: bool,
) -> (r: Pt)
    ensures
        r == below_blockers(floats@, 0, y, column_width, count_bands),
{
    let mut at = y;
    let mut k: usize = 0;
    while k < floats.len()
        invariant
            k <= floats@.len(),
            below_blockers(floats@, k as int, at, column_width, count_bands) == below_blockers(
                floats@,
                0,
                y,
                column_width,
                count_bands,
            ),
        decreases floats@.len() - k,
    {
        let f = &floats[k];
        if (count_bands || !f.vertical_exclusion) && f.overlaps_y(at) && f.width.units
            >= column_width.units {
            at = at.max(f.page_y_end);
        }
        k += 1;
    }
    at
}

/// Where text is placed in a section.
pub struct FlowPlace {
    pub blocks: Seq<LayoutBlock>,
    pub relocated: Seq<bool>,
    pub num_cols: usize,
}

impl<'doc> FlowState<'doc> {
    /// With the look ahead over the blocks of the page up to date.
    pub open spec fn scanned(
        self,
        place: FlowPlace,
        column_x: Pt,
        column_width: Pt,
    ) -> FlowState<'doc> {
        if self.abs_floats_dirty {
            FlowState {
                abs_floats: scanned_floats(
                    place.blocks,
                    place.relocated,
                    self.page_start_block as int,
                    place.num_cols,
                    self.parity(),
                    column_x,
                    column_width,
                    self.page_start_block as int,
                    self.current_col,
                    Seq::empty(),
                ),
                abs_floats_dirty: false,
                ..self
            }
        } else {
            self
        }
    }

    /// The floats that text at the cursor meets, and the state with the cursor below
    /// those that leave no room in the column.
    pub open spec fn with_effective_floats(
        self,
        place: FlowPlace,
        space_before: Pt,
        column_x: Pt,
        column_width: Pt,
    ) -> (FlowState<'doc>, Seq<ActiveFloat>) {
        let st = self.scanned(place, column_x, column_width);
        let floats = st.page_floats + added_floats(
            st.page_floats,
            st.abs_floats + st.exclusions,
            st.cursor_y.plus(space_before),
        );
        let y = below_blockers(floats, 0, st.cursor_y, column_width, false);
        (FlowState { cursor_y: y, ..st }, live_floats(floats, y))
    }

    /// With a band across the page noted for further columns, unless it is already.
    pub open spec fn with_exclusion(self, f: ActiveFloat) -> FlowState<'doc> {
        if has_float_at(self.exclusions, f) {
            self
        } else {
            FlowState { exclusions: self.exclusions.push(f), ..self }
        }
    }

    /// With a command drawn behind the text or on the page.
    pub open spec fn with_floating_command(
        self,
        frame: FloatingFrame,
        command: DrawCommand,
    ) -> FlowState<'doc> {
        FlowState {
            page: if frame.behind_doc {
                self.page.with_behind(frame.relative_height, command)
            } else {
                self.page.drawn(seq![command])
            },
            ..self
        }
    }

    /// With the text of a drawing from number `i` on drawn at `y`.
    pub open spec fn with_shape_text(
        self,
        shape: FloatingShape,
        y: Pt,
        i: int,
    ) -> FlowState<'doc>
        decreases shape.text_commands@.len() - i,
    {
        if i < 0 || i >= shape.text_commands@.len() {
            self
        } else {
            self.with_floating_command(
                shape.frame,
                shape.text_commands@[i].shifted(shape.frame.x.resolve(self.parity()), y),
            ).with_shape_text(shape, y, i + 1)
        }
    }

    /// With an image drawn at `y`.
    pub open spec fn with_image(self, image: FloatingImage, y: Pt) -> FlowState<'doc> {
        self.with_floating_command(
            image.frame,
            DrawCommand::Image {
                rect: PtRect::from_xywh(
                    image.frame.x.resolve(self.parity()),
                    y,
                    image.frame.size.width,
                    image.frame.size.height,
                ),
                image: image.image,
            },
        )
    }

    /// With a drawing and its text drawn at `y`.
    pub open spec fn with_shape(self, shape: FloatingShape, y: Pt) -> FlowState<'doc> {
        self.with_floating_command(
            shape.frame,
            DrawCommand::Path {
                rect: PtRect::from_xywh(
                    shape.frame.x.resolve(self.parity()),
                    y,
                    shape.frame.size.width,
                    shape.frame.size.height,
                ),
                path: shape.path,
            },
        ).with_shape_text(shape, y, 0)
    }

    /// With the room of a floating object kept free of text. A band at a fixed height
    /// of the page is noted for further columns; no other float can be.
    pub open spec fn with_room(
        self,
        frame: FloatingFrame,
        f: ActiveFloat,
    ) -> FlowState<'doc> {
        let placed = FlowState { page_floats: self.page_floats.push(f), ..self };
        if frame.is_wrap_top_and_bottom() && frame.has_absolute_y() {
            placed.with_exclusion(f)
        } else {
            FlowState { column_reactivation_unsafe: true, ..placed }
        }
    }

    /// With the images from `i` on placed: bands are drawn at once, and text keeps
    /// clear of all that do not lie over or under it.
    pub open spec fn with_images(
        self,
        images: Seq<FloatingImage>,
        i: int,
        content_top: Pt,
        column_x: Pt,
        column_width: Pt,
    ) -> FlowState<'doc>
        decreases images.len() - i,
    {
        if i < 0 || i >= images.len() {
            self
        } else {
            let frame = images[i].frame;
            let y = frame.y.resolve(content_top);
            let f = frame_float(
                frame,
                y,
                self.parity(),
                column_x,
                column_width,
                FloatSource::Image,
            );
            let next = if frame.is_wrap_top_and_bottom() {
                self.with_image(images[i], y).with_room(frame, f)
            } else if frame.wrap_mode.registers_as_wrap_float() {
                self.with_room(frame, f)
            } else {
                self
            };
            next.with_images(images, i + 1, content_top, column_x, column_width)
        }
    }

    /// With the drawings from `i` on placed, as images are.
    pub open spec fn with_shapes(
        self,
        shapes: Seq<FloatingShape>,
        i: int,
        content_top: Pt,
        column_x: Pt,
        column_width: Pt,
    ) -> FlowState<'doc>
        decreases shapes.len() - i,
    {
        if i < 0 || i >= shapes.len() {
            self
        } else {
            let frame = shapes[i].frame;
            let y = frame.y.resolve(content_top);
            let f = frame_float(
                frame,
                y,
                self.parity(),
                column_x,
                column_width,
                FloatSource::Shape,
            );
            let next = if frame.is_wrap_top_and_bottom() {
                self.with_shape(shapes[i], y).with_room(frame, f)
            } else if frame.wrap_mode.registers_as_wrap_float() {
                self.with_room(frame, f)
            } else {
                self
            };
            next.with_shapes(shapes, i + 1, content_top, column_x, column_width)
        }
    }

    /// With the floating objects of a paragraph placed, whose text starts at
    /// `content_top`.
    pub open spec fn with_paragraph_floats(
        self,
        images: Seq<FloatingImage>,
        shapes: Seq<FloatingShape>,
        content_top: Pt,
        column_x: Pt,
        column_width: Pt,
    ) -> FlowState<'doc> {
        self.with_images(images, 0, content_top, column_x, column_width).with_shapes(
            shapes,
            0,
            content_top,
            column_x,
            column_width,
        )
    }

    /// With the floating objects of a paragraph placed on the page that the paragraph
    /// has moved to, and the cursor below those that leave no room in the column.
    pub open spec fn with_destination_floats(
        self,
        images: Seq<FloatingImage>,
        shapes: Seq<FloatingShape>,
        space_before: Pt,
        column_x: Pt,
        column_width: Pt,
    ) -> FlowState<'doc> {
        let placed = self.with_paragraph_floats(
            images,
            shapes,
            self.cursor_y.plus(space_before),
            column_x,
            column_width,
        );
        let y = below_blockers(placed.page_floats, 0, placed.cursor_y, column_width, true);
        FlowState { cursor_y: y, page_floats: live_floats(placed.page_floats, y), ..placed }
    }

    /// With the floats dropped that end above the cursor.
    pub open spec fn pruned(self) -> FlowState<'doc> {
        FlowState { page_floats: live_floats(self.page_floats, self.cursor_y), ..self }
    }

    /// With the images from `i` on drawn that stand beside, over or under text.
    pub open spec fn with_free_images(
        self,
        images: Seq<FloatingImage>,
        i: int,
        content_top: Pt,
    ) -> FlowState<'doc>
        decreases images.len() - i,
    {
        if i < 0 || i >= images.len() {
            self
        } else {
            let next = if images[i].frame.is_wrap_top_and_bottom() {
                self
            } else {
                self.with_image(images[i], images[i].frame.y.resolve(content_top))
            };
            next.with_free_images(images, i + 1, content_top)
        }
    }

    /// With the drawings from `i` on drawn that stand beside, over or under text.
    pub open spec fn with_free_shapes(
        self,
        shapes: Seq<FloatingShape>,
        i: int,
        content_top: Pt,
    ) -> FlowState<'doc>
        decreases shapes.len() - i,
    {
        if i < 0 || i >= shapes.len() {
            self
        } else {
            let next = if shapes[i].frame.is_wrap_top_and_bottom() {
                self
            } else {
                self.with_shape(shapes[i], shapes[i].frame.y.resolve(content_top))
            };
            next.with_free_shapes(shapes, i + 1, content_top)
        }
    }
}

fn collect_added_floats(
    floats: &Vec<ActiveFloat>,
    more: &Vec<ActiveFloat>,
    y: Pt,
    result: &mut Vec<ActiveFloat>,
)
    ensures
        final(result)@ == old(result)@ + added_floats(floats@, more@, y),
{
    let ghost p = |f: ActiveFloat| counts_at(f, y) && !has_float_at(floats@, f);
    let mut i: usize = 0;
    proof {
        reveal(Seq::filter);
        assert(more@.take(0).filter(p) =~= Seq::<ActiveFloat>::empty());
        assert(result@ =~= old(result)@ + more@.take(0).filter(p));
    }
    while i < more.len()
        invariant
            i <= more@.len(),
            p == (|f: ActiveFloat| counts_at(f, y) && !has_float_at(floats@, f)),
            result@ == old(result)@ + more@.take(i as int).filter(p),
        decreases more@.len() - i,
    {
        let f = more[i];
        proof {
            assert(more@.take(i + 1).drop_last() =~= more@.take(i as int));
            reveal(Seq::filter);
        }
        if (f.vertical_exclusion || f.page_y_start.units <= y.units) && !contains_float_at(
            floats,
            f,
        ) {
            result.push(f);
        }
        i += 1;
        assert(result@ =~= old(result)@ + more@.take(i as int).filter(p));
    }
    assert(more@.take(i as int) =~= more@);
}

proof fn lemma_filter_joined(
    a: Seq<ActiveFloat>,
    b: Seq<ActiveFloat>,
    p: spec_fn(ActiveFloat) -> bool,
)
    ensures
        (a + b).filter(p) == a.filter(p) + b.filter(p),
    decreases b.len(),
{
    reveal(Seq::filter);
    if b.len() == 0 {
        assert(a + b =~= a);
        assert(a.filter(p) + b.filter(p) =~= a.filter(p));
    } else {
        lemma_filter_joined(a, b.drop_last(), p);
        assert((a + b).drop_last() =~= a + b.drop_last());
        assert((a + b).filter(p) =~= a.filter(p) + b.filter(p));
    }
}

impl<'doc> PageLayoutState<'doc> {
    /// The floats that text at the cursor meets: those placed on the page, and those
    /// that blocks further on will place at fixed heights of it. Moves the cursor
    /// below floats that leave no room in the column.
    pub fn effective_floats_at_cursor(
        &mut self,
        blocks: &[LayoutBlock],
        relocated: &Vec<bool>,
        num_cols: usize,
        space_before: Pt,
        column_x: Pt,
        column_width: Pt,
    ) -> (r: Vec<ActiveFloat>)
        requires
            relocated@.len() == blocks@.len(),
        ensures
            (final(self)@, r@) == old(self)@.with_effective_floats(
                (FlowPlace { blocks: blocks@, relocated: relocated@, num_cols }),
                space_before,
                column_x,
                column_width,
            ),
    {
        let ghost place = FlowPlace { blocks: blocks@, relocated: relocated@, num_cols };
        let ghost before = self@;
        if self.abs_floats_dirty {
            let parity = self.parity();
            self.current_page_abs_floats = scan_floats(
                blocks,
                relocated,
                self.page_start_block,
                self.current_col,
                num_cols,
                parity,
                column_x,
                column_width,
            );
            self.abs_floats_dirty = false;
        }
        let ghost st = self@;
        assert(st =~= before.scanned(place, column_x, column_width));
        let y = self.cursor_y.plus(space_before);
        let mut floats = copy_floats(&self.page_floats);
        collect_added_floats(&self.page_floats, &self.current_page_abs_floats, y, &mut floats);
        collect_added_floats(&self.page_floats, &self.page_absolute_exclusions, y, &mut floats);
        proof {
            lemma_filter_joined(
                st.abs_floats,
                st.exclusions,
                |f: ActiveFloat| counts_at(f, y) && !has_float_at(st.page_floats, f),
            );
            assert(floats@ =~= st.page_floats + added_floats(
                st.page_floats,
                st.abs_floats + st.exclusions,
                y,
            ));
        }
        self.cursor_y = move_below_blockers(&floats, self.cursor_y, column_width, false);
        prune_floats(&mut floats, self.cursor_y);
        assert(self@ =~= before.with_effective_floats(
            place,
            space_before,
            column_x,
            column_width,
        ).0);
        floats
    }

    /// Note a band across the page for further columns, unless it is already.
    pub fn archive_page_absolute_exclusion(&mut self, exclusion: ActiveFloat)
        ensures
            final(self)@ == old(self)@.with_exclusion(exclusion),
    {
        if !contains_float_at(&self.page_absolute_exclusions, exclusion) {
            self.page_absolute_exclusions.push(exclusion);
            assert(self@ =~= old(self)@.with_exclusion(exclusion));
        }
    }

    /// Draw a command behind the text or on the page.
    pub fn push_floating_command(&mut self, frame: &FloatingFrame, command: DrawCommand)
        ensures
            final(self)@ == old(self)@.with_floating_command(*frame, command),
    {
        if frame.behind_doc {
            self.current_page.push_behind_doc_command(frame.relative_height, command);
        } else {
            self.current_page.commands.push(command);
            assert(self@.page =~= old(self)@.page.drawn(seq![command]));
        }
        assert(self@ =~= old(self)@.with_floating_command(*frame, command));
    }

    /// Draw the text of a drawing over it.
    pub fn emit_shape_text(&mut self, shape: &FloatingShape, shape_y: Pt)
        ensures
            final(self)@ == old(self)@.with_shape_text(*shape, shape_y, 0),
    {
        let mut i: usize = 0;
        while i < shape.text_commands.len()
            invariant
                i <= shape.text_commands@.len(),
                self@.with_shape_text(*shape, shape_y, i as int) == old(self)@.with_shape_text(
                    *shape,
                    shape_y,
                    0,
                ),
            decreases shape.text_commands@.len() - i,
        {
            let mut command = shape.text_commands[i];
            let parity = self.parity();
            command.shift(shape.frame.x.resolve(parity), shape_y);
            self.push_floating_command(&shape.frame, command);
            i += 1;
        }
    }

    fn draw_image(&mut self, image: &FloatingImage, y: Pt)
        ensures
            final(self)@ == old(self)@.with_image(*image, y),
    {
        let parity = self.parity();
        self.push_floating_command(
            &image.frame,
            DrawCommand::Image {
                rect: PtRect::from_xywh(
                    image.frame.x.resolve(parity),
                    y,
                    image.frame.size.width,
                    image.frame.size.height,
                ),
                image: image.image,
            },
        );
    }

    fn draw_shape(&mut self, shape: &FloatingShape, y: Pt)
        ensures
            final(self)@ == old(self)@.with_shape(*shape, y),
    {
        let parity = self.parity();
        self.push_floating_command(
            &shape.frame,
            DrawCommand::Path {
                rect: PtRect::from_xywh(
                    shape.frame.x.resolve(parity),
                    y,
                    shape.frame.size.width,
                    shape.frame.size.height,
                ),
                path: shape.path,
            },
        );
        self.emit_shape_text(shape, y);
    }

    fn keep_room(&mut self, frame: &FloatingFrame, f: ActiveFloat)
        ensures
            final(self)@ == old(self)@.with_room(*frame, f),
    {
        let ghost before = self@;
        self.page_floats.push(f);
        let ghost placed = FlowState { page_floats: before.page_floats.push(f), ..before };
        assert(self@ =~= placed);
        if frame.is_wrap_top_and_bottom() && frame.has_absolute_y() {
            self.archive_page_absolute_exclusion(f);
        } else {
            self.column_reactivation_unsafe = true;
            assert(self@ =~= before.with_room(*frame, f));
        }
    }

    /// Place the floating objects of a paragraph whose text starts at `content_top`.
    ///
    /// Bands across the column are drawn at once. Text keeps clear of all objects
    /// that do not lie over or under it.
    pub fn register_paragraph_floats(
        &mut self,
        floating_images: &[FloatingImage],
        floating_shapes: &[FloatingShape],
        content_top: Pt,
        column_x: Pt,
        column_width: Pt,
    )
        ensures
            final(self)@ == old(self)@.with_paragraph_floats(
                floating_images@,
                floating_shapes@,
                content_top,
                column_x,
                column_width,
            ),
    {
        let ghost before = self@;
        let mut i: usize = 0;
        while i < floating_images.len()
            invariant
                i <= floating_images@.len(),
                self@.with_images(
                    floating_images@,
                    i as int,
                    content_top,
                    column_x,
                    column_width,
                ) == before.with_images(floating_images@, 0, content_top, column_x, column_width),
            decreases floating_images@.len() - i,
        {
            let image = &floating_images[i];
            let parity = self.parity();
            let y = image.frame.y.resolve(content_top);
            let f = float_of_frame(
                &image.frame,
                y,
                parity,
                column_x,
                column_width,
                FloatSource::Image,
            );
            if image.frame.is_wrap_top_and_bottom() {
                self.draw_image(image, y);
                self.keep_room(&image.frame, f);
            } else if image.frame.wrap_mode.registers_as_wrap_float() {
                self.keep_room(&image.frame, f);
            }
            i += 1;
        }
        let ghost between = self@;
        let mut k: usize = 0;
        while k < floating_shapes.len()
            invariant
                k <= floating_shapes@.len(),
                self@.with_shapes(
                    floating_shapes@,
                    k as int,
                    content_top,
                    column_x,
                    column_width,
                ) == between.with_shapes(floating_shapes@, 0, content_top, column_x, column_width),
            decreases floating_shapes@.len() - k,
        {
            let shape = &floating_shapes[k];
            let parity = self.parity();
            let y = shape.frame.y.resolve(content_top);
            let f = float_of_frame(
                &shape.frame,
                y,
                parity,
                column_x,
                column_width,
                FloatSource::Shape,
            );
            if shape.frame.is_wrap_top_and_bottom() {
                self.draw_shape(shape, y);
                self.keep_room(&shape.frame, f);
            } else if shape.frame.wrap_mode.registers_as_wrap_float() {
                self.keep_room(&shape.frame, f);
            }
            k += 1;
        }
    }

    /// Place the floating objects of a paragraph on the page that it has moved to.
    pub fn register_destination_paragraph_floats(
        &mut self,
        floating_images: &[FloatingImage],
        floating_shapes: &[FloatingShape],
        space_before: Pt,
        column_x: Pt,
        column_width: Pt,
    )
        ensures
            final(self)@ == old(self)@.with_destination_floats(
                floating_images@,
                floating_shapes@,
                space_before,
                column_x,
                column_width,
            ),
    {
        let content_top = self.cursor_y.plus(space_before);
        self.register_paragraph_floats(
            floating_images,
            floating_shapes,
            content_top,
            column_x,
            column_width,
        );
        self.cursor_y = move_below_blockers(&self.page_floats, self.cursor_y, column_width, true);
        prune_floats(&mut self.page_floats, self.cursor_y);
        assert(self@ =~= old(self)@.with_destination_floats(
            floating_images@,
            floating_shapes@,
            space_before,
            column_x,
            column_width,
        ));
    }

    /// Drop the floats that end above the cursor.
    pub fn prune(&mut self)
        ensures
            final(self)@ == old(self)@.pruned(),
    {
        prune_floats(&mut self.page_floats, self.cursor_y);
        assert(self@ =~= old(self)@.pruned());
    }

    /// Draw the floating objects of a paragraph that are no bands across the column.
    pub fn draw_free_floats(
        &mut self,
        floating_images: &[FloatingImage],
        floating_shapes: &[FloatingShape],
        content_top: Pt,
    )
        ensures
            final(self)@ == old(self)@.with_free_images(
                floating_images@,
                0,
                content_top,
            ).with_free_shapes(floating_shapes@, 0, content_top),
    {
        let ghost before = self@;
        let mut i: usize = 0;
        while i < floating_images.len()
            invariant
                i <= floating_images@.len(),
                self@.with_free_images(floating_images@, i as int, content_top)
                    == before.with_free_images(floating_images@, 0, content_top),
            decreases floating_images@.len() - i,
        {
            let image = &floating_images[i];
            if !image.frame.is_wrap_top_and_bottom() {
                let y = image.frame.y.resolve(content_top);
                self.draw_image(image, y);
            }
            i += 1;
        }
        let ghost between = self@;
        let mut k: usize = 0;
        while k < floating_shapes.len()
            invariant
                k <= floating_shapes@.len(),
                self@.with_free_shapes(floating_shapes@, k as int, content_top)
                    == between.with_free_shapes(floating_shapes@, 0, content_top),
            decreases floating_shapes@.len() - k,
        {
            let shape = &floating_shapes[k];
            if !shape.frame.is_wrap_top_and_bottom() {
                let y = shape.frame.y.resolve(content_top);
                self.draw_shape(shape, y);
            }
            k += 1;
        }
    }
}

/// What placing a paragraph's floating objects changes.
#[derive(Debug)]
pub struct ParagraphFloatCheckpoint {
    pub command_count: usize,
    pub behind_doc_commands: Vec<LayeredDrawCommand>,
    pub page_floats: Vec<ActiveFloat>,
    pub page_absolute_exclusions: Vec<ActiveFloat>,
    pub column_reactivation_unsafe: bool,
    pub cursor_y: Pt,
}

/// The mathematical value of a [`ParagraphFloatCheckpoint`].
#[verifier::ext_equal]
pub struct FloatCheckpoint {
    pub command_count: int,
    pub behind: Seq<LayeredDrawCommand>,
    pub page_floats: Seq<ActiveFloat>,
    pub exclusions: Seq<ActiveFloat>,
    pub column_reactivation_unsafe: bool,
    pub cursor_y: Pt,
}

impl View for ParagraphFloatCheckpoint {
    type V = FloatCheckpoint;

    open spec fn view(&self) -> FloatCheckpoint {
        FloatCheckpoint {
            command_count: self.command_count as int,
            behind: self.behind_doc_commands@,
            page_floats: self.page_floats@,
            exclusions: self.page_absolute_exclusions@,
            column_reactivation_unsafe: self.column_reactivation_unsafe,
            cursor_y: self.cursor_y,
        }
    }
}

/// The first `n` elements, or all.
pub open spec fn truncated(s: Seq<DrawCommand>, n: int) -> Seq<DrawCommand> {
    if n < s.len() {
        s.subrange(0, n)
    } else {
        s
    }
}

impl<'doc> FlowState<'doc> {
    /// What can be gone back to after floating objects have been placed.
    pub open spec fn float_checkpoint(self) -> FloatCheckpoint {
        FloatCheckpoint {
            command_count: self.page.commands.len() as int,
            behind: self.page.behind,
            page_floats: self.page_floats,
            exclusions: self.exclusions,
            column_reactivation_unsafe: self.column_reactivation_unsafe,
            cursor_y: self.cursor_y,
        }
    }

    /// With the floating objects taken back that were placed since the checkpoint.
    pub open spec fn floats_restored(self, c: FloatCheckpoint) -> FlowState<'doc> {
        FlowState {
            page: PageView {
                commands: truncated(self.page.commands, c.command_count),
                behind: c.behind,
                page_size: self.page.page_size,
            },
            page_floats: c.page_floats,
            exclusions: c.exclusions,
            column_reactivation_unsafe: c.column_reactivation_unsafe,
            cursor_y: c.cursor_y,
            ..self
        }
    }
}

impl ParagraphFloatCheckpoint {
    /// Note what can be gone back to before floating objects are placed.
    pub fn capture(state: &PageLayoutState<'_>) -> (r: Self)
        ensures
            r@ == state@.float_checkpoint(),
    {
        ParagraphFloatCheckpoint {
            command_count: state.current_page.commands.len(),
            behind_doc_commands: copy_layered(&state.current_page.behind_doc_commands),
            page_floats: copy_floats(&state.page_floats),
            page_absolute_exclusions: copy_floats(&state.page_absolute_exclusions),
            column_reactivation_unsafe: state.column_reactivation_unsafe,
            cursor_y: state.cursor_y,
        }
    }

    /// Take back the floating objects that were placed since.
    pub fn restore(&self, state: &mut PageLayoutState<'_>)
        ensures
            final(state)@ == old(state)@.floats_restored(self@),
    {
        state.current_page.commands.truncate(self.command_count);
        state.current_page.behind_doc_commands = copy_layered(&self.behind_doc_commands);
        state.page_floats = copy_floats(&self.page_floats);
        state.page_absolute_exclusions = copy_floats(&self.page_absolute_exclusions);
        state.column_reactivation_unsafe = self.column_reactivation_unsafe;
        state.cursor_y = self.cursor_y;
        assert(state@.page =~= old(state)@.floats_restored(self@).page);
        assert(state@ =~= old(state)@.floats_restored(self@));
    }
}

/// Whether `b` differs from `a` only in what a checkpoint of `a` brings back.
pub open spec fn only_floats_added(a: FlowState<'_>, b: FlowState<'_>) -> bool {
    &&& b.floats_restored(a.float_checkpoint()) == a
    &&& a.page.commands.len() <= b.page.commands.len()
    &&& b.page.commands.subrange(0, a.page.commands.len() as int) == a.page.commands
}

proof fn lemma_only_floats_added(a: FlowState<'_>, b: FlowState<'_>)
    requires
        a.page.commands.len() <= b.page.commands.len(),
        b.page.commands.subrange(0, a.page.commands.len() as int) == a.page.commands,
        b == (FlowState {
            page: PageView {
                commands: b.page.commands,
                behind: b.page.behind,
                page_size: a.page.page_size,
            },
            page_floats: b.page_floats,
            exclusions: b.exclusions,
            column_reactivation_unsafe: b.column_reactivation_unsafe,
            ..a
        }),
    ensures
        only_floats_added(a, b),
{
    assert(truncated(b.page.commands, a.page.commands.len() as int) =~= a.page.commands);
    assert(b.floats_restored(a.float_checkpoint()) =~= a);
}

proof fn lemma_floats_added_twice(a: FlowState<'_>, b: FlowState<'_>, c: FlowState<'_>)
    requires
        only_floats_added(a, b),
        only_floats_added(b, c),
    ensures
        only_floats_added(a, c),
{
    let n = a.page.commands.len() as int;
    assert(c.page.commands.subrange(0, n) =~= b.page.commands.subrange(0, n)) by {
        assert forall|i: int| 0 <= i < n implies c.page.commands[i] == b.page.commands[i] by {
            assert(c.page.commands.subrange(0, b.page.commands.len() as int)[i]
                == b.page.commands[i]);
        }
    }
    assert(truncated(c.page.commands, n) =~= a.page.commands);
    let back = c.floats_restored(b.float_checkpoint());
    assert(c.floats_restored(a.float_checkpoint()) =~= back.floats_restored(a.float_checkpoint()))
        by {
        assert(back == b);
        assert(truncated(b.page.commands, n) =~= a.page.commands);
    }
}

proof fn lemma_command_added(a: FlowState<'_>, frame: FloatingFrame, command: DrawCommand)
    ensures
        only_floats_added(a, a.with_floating_command(frame, command)),
{
    let b = a.with_floating_command(frame, command);
    assert(b.page.commands.subrange(0, a.page.commands.len() as int) =~= a.page.commands);
    lemma_only_floats_added(a, b);
}

proof fn lemma_room_added(a: FlowState<'_>, frame: FloatingFrame, f: ActiveFloat)
    ensures
        only_floats_added(a, a.with_room(frame, f)),
{
    let b = a.with_room(frame, f);
    assert(b.page.commands.subrange(0, a.page.commands.len() as int) =~= a.page.commands);
    lemma_only_floats_added(a, b);
}

proof fn lemma_shape_text_added(a: FlowState<'_>, shape: FloatingShape, y: Pt, i: int)
    ensures
        only_floats_added(a, a.with_shape_text(shape, y, i)),
    decreases shape.text_commands@.len() - i,
{
    if 0 <= i < shape.text_commands@.len() {
        let command = shape.text_commands@[i].shifted(shape.frame.x.resolve(a.parity()), y);
        let b = a.with_floating_command(shape.frame, command);
        lemma_command_added(a, shape.frame, command);
        lemma_shape_text_added(b, shape, y, i + 1);
        lemma_floats_added_twice(a, b, b.with_shape_text(shape, y, i + 1));
    } else {
        assert(a.page.commands.subrange(0, a.page.commands.len() as int) =~= a.page.commands);
        lemma_only_floats_added(a, a);
    }
}

proof fn lemma_images_added(
    a: FlowState<'_>,
    images: Seq<FloatingImage>,
    i: int,
    content_top: Pt,
    column_x: Pt,
    column_width: Pt,
)
    ensures
        only_floats_added(a, a.with_images(images, i, content_top, column_x, column_width)),
    decreases images.len() - i,
{
    assert(a.page.commands.subrange(0, a.page.commands.len() as int) =~= a.page.commands);
    lemma_only_floats_added(a, a);
    if 0 <= i < images.len() {
        let frame = images[i].frame;
        let y = frame.y.resolve(content_top);
        let f = frame_float(frame, y, a.parity(), column_x, column_width, FloatSource::Image);
        let command = DrawCommand::Image {
            rect: PtRect::from_xywh(
                frame.x.resolve(a.parity()),
                y,
                frame.size.width,
                frame.size.height,
            ),
            image: images[i].image,
        };
        let next = if frame.is_wrap_top_and_bottom() {
            let drawn = a.with_image(images[i], y);
            lemma_command_added(a, frame, command);
            lemma_room_added(drawn, frame, f);
            lemma_floats_added_twice(a, drawn, drawn.with_room(frame, f));
            drawn.with_room(frame, f)
        } else if frame.wrap_mode.registers_as_wrap_float() {
            lemma_room_added(a, frame, f);
            a.with_room(frame, f)
        } else {
            a
        };
        lemma_images_added(next, images, i + 1, content_top, column_x, column_width);
        lemma_floats_added_twice(
            a,
            next,
            next.with_images(images, i + 1, content_top, column_x, column_width),
        );
    }
}

proof fn lemma_shapes_added(
    a: FlowState<'_>,
    shapes: Seq<FloatingShape>,
    i: int,
    content_top: Pt,
    column_x: Pt,
    column_width: Pt,
)
    ensures
        only_floats_added(a, a.with_shapes(shapes, i, content_top, column_x, column_width)),
    decreases shapes.len() - i,
{
    assert(a.page.commands.subrange(0, a.page.commands.len() as int) =~= a.page.commands);
    lemma_only_floats_added(a, a);
    if 0 <= i < shapes.len() {
        let frame = shapes[i].frame;
        let y = frame.y.resolve(content_top);
        let f = frame_float(frame, y, a.parity(), column_x, column_width, FloatSource::Shape);
        let command = DrawCommand::Path {
            rect: PtRect::from_xywh(
                frame.x.resolve(a.parity()),
                y,
                frame.size.width,
                frame.size.height,
            ),
            path: shapes[i].path,
        };
        let next = if frame.is_wrap_top_and_bottom() {
            let outline = a.with_floating_command(frame, command);
            let drawn = a.with_shape(shapes[i], y);
            lemma_command_added(a, frame, command);
            lemma_shape_text_added(outline, shapes[i], y, 0);
            lemma_floats_added_twice(a, outline, drawn);
            lemma_room_added(drawn, frame, f);
            lemma_floats_added_twice(a, drawn, drawn.with_room(frame, f));
            drawn.with_room(frame, f)
        } else if frame.wrap_mode.registers_as_wrap_float() {
            lemma_room_added(a, frame, f);
            a.with_room(frame, f)
        } else {
            a
        };
        lemma_shapes_added(next, shapes, i + 1, content_top, column_x, column_width);
        lemma_floats_added_twice(
            a,
            next,
            next.with_shapes(shapes, i + 1, content_top, column_x, column_width),
        );
    }
}

/// Going back to a checkpoint undoes the placing of a paragraph's floating objects
/// completely.
pub proof fn law_checkpoint_undoes_paragraph_floats(
    state: FlowState<'_>,
    images: Seq<FloatingImage>,
    shapes: Seq<FloatingShape>,
    content_top: Pt,
    column_x: Pt,
    column_width: Pt,
)
    ensures
        state.with_paragraph_floats(
            images,
            shapes,
            content_top,
            column_x,
            column_width,
        ).floats_restored(state.float_checkpoint()) == state,
{
    lemma_images_added(state, images, 0, content_top, column_x, column_width);
    let between = state.with_images(images, 0, content_top, column_x, column_width);
    lemma_shapes_added(between, shapes, 0, content_top, column_x, column_width);
    lemma_floats_added_twice(
        state,
        between,
        between.with_shapes(shapes, 0, content_top, column_x, column_width),
    );
}

/// Whether a fragment paints something.
pub open spec fn any_visible(fragments: Seq<Fragment>) -> bool {
    exists|i: int| 0 <= i < fragments.len() && (#[trigger] fragments[i]).is_visible()
}

fn has_visible(fragments: &[Fragment]) -> (r: bool)
    ensures
        r == any_visible(fragments@),
{
    let mut i: usize = 0;
    while i < fragments.len()
        invariant
            i <= fragments@.len(),
            forall|k: int| 0 <= k < i ==> !(#[trigger] fragments@[k]).is_visible(),
        decreases fragments@.len() - i,
    {
        if fragments[i].is_visible() {
            return true;
        }
        i += 1;
    }
    false
}

/// Where a paragraph starts whose own band would cut into the space below it: a
/// visible paragraph of one line that owns a single band at a fixed height, and
/// fits above the band while its space below does not, moves below the band.
pub open spec fn trailing_space_clearance(
    current_y: Pt,
    body_bottom: Pt,
    style: ParagraphStyle,
    placed: PlacedView,
    fragments: Seq<Fragment>,
    images: Seq<FloatingImage>,
    shapes: Seq<FloatingShape>,
) -> Option<Pt> {
    let lines = boxes_height(placed.lines, 0, Pt::zero());
    let frame = shapes[0].frame;
    if !any_visible(fragments) || placed.lines.len() != 1 || images.len() != 0 || shapes.len() != 1
        || style.space_after.units <= 0 || !frame.is_wrap_top_and_bottom()
        || !frame.has_absolute_y() {
        None
    } else {
        let y = frame.y.resolve(Pt::zero());
        let band_start = y.minus(frame.dist_top);
        let band_end = y.plus(frame.size.height).plus(frame.dist_bottom);
        let content_bottom = current_y.plus(style.space_before).plus(lines);
        let moved_height = style.space_before.plus(lines).plus(style.space_after);
        if content_bottom.units > band_start.units || content_bottom.plus(
            style.space_after,
        ).units <= band_start.units || band_end.units <= current_y.units || band_end.plus(
            moved_height,
        ).units > body_bottom.units {
            None
        } else {
            Some(band_end)
        }
    }
}

/// Find where a paragraph starts whose own band would cut into the space below it.
pub fn wps_trailing_space_clearance_start(
    current_y: Pt,
    body_bottom: Pt,
    style: &ParagraphStyle,
    placed: &PlacedParagraph,
    fragments: &[Fragment],
    floating_images: &[FloatingImage],
    floating_shapes: &[FloatingShape],
) -> (r: Option<Pt>)
    ensures
        r == trailing_space_clearance(
            current_y,
            body_bottom,
            *style,
            placed@,
            fragments@,
            floating_images@,
            floating_shapes@,
        ),
{
    if !has_visible(fragments) || placed.line_count() != 1 || floating_images.len() != 0
        || floating_shapes.len() != 1 || style.space_after.units <= 0 {
        return None;
    }
    let frame = &floating_shapes[0].frame;
    if !frame.is_wrap_top_and_bottom() || !frame.has_absolute_y() {
        return None;
    }
    let lines = placed.line_box_height();
    let y = frame.y.resolve(Pt::zero());
    let band_start = y.minus(frame.dist_top);
    let band_end = y.plus(frame.size.height).plus(frame.dist_bottom);
    let content_bottom = current_y.plus(style.space_before).plus(lines);
    if content_bottom.units > band_start.units || content_bottom.plus(style.space_after).units
        <= band_start.units || band_end.units <= current_y.units {
        return None;
    }
    let moved_height = style.space_before.plus(lines).plus(style.space_after);
    if band_end.plus(moved_height).units <= body_bottom.units {
        Some(band_end)
    } else {
        None
    }
}

} // verus!
