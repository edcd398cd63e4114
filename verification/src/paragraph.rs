//! Breaking a paragraph's fragments into lines and drawing the lines.
use crate::dimension::{ratio, Pt};
use crate::draw_command::{append_shifted, shift_all, DrawCommand};
use crate::float::{ActiveFloat, WrapTextSide};
use crate::fragment::Fragment;
use crate::geometry::{PtOffset, PtRect};
use crate::style::{LineSpacingRule, ParagraphStyle};
use vstd::prelude::*;

verus! {

/// Where on a page a paragraph is placed.
#[derive(Clone, Copy, Debug)]
pub struct PlaceContext<'a> {
    /// The width of the column.
    pub width: Pt,
    /// The height beyond which a paragraph's box does not grow.
    pub max_height: Pt,
    /// The left edge of the column on the page.
    pub page_x: Pt,
    /// The top of the paragraph on the page, above its leading space.
    pub page_y: Pt,
    /// The height of a line that holds nothing.
    pub default_line_height: Pt,
    /// The floats that lines have to keep clear of.
    pub floats: &'a [ActiveFloat],
}

/// The mathematical value of a [`PlaceContext`].
#[verifier::ext_equal]
pub struct PlaceView {
    pub width: Pt,
    pub max_height: Pt,
    pub page_x: Pt,
    pub page_y: Pt,
    pub default_line_height: Pt,
    pub floats: Seq<ActiveFloat>,
}

impl<'a> View for PlaceContext<'a> {
    type V = PlaceView;

    open spec fn view(&self) -> PlaceView {
        PlaceView {
            width: self.width,
            max_height: self.max_height,
            page_x: self.page_x,
            page_y: self.page_y,
            default_line_height: self.default_line_height,
            floats: self.floats@,
        }
    }
}

/// A fitted line. Positions count from the top of the paragraph's text and from
/// the left edge of the column.
#[derive(Clone, Copy, Debug, PartialEq, Eq, Structural)]
pub struct PlacedLine {
    /// The first fragment of the line.
    pub start: usize,
    /// The first fragment after the line.
    pub end: usize,
    pub top: Pt,
    pub height: Pt,
    pub left: Pt,
    /// The distance from the top of the line to its baseline.
    pub ascent: Pt,
    /// Whether a float beside the line took room from it.
    pub narrowed: bool,
    /// How many of the paragraph's commands draw this line and those above it.
    pub commands_end: usize,
}

impl PlacedLine {
    /// The lower edge of the line.
    #[verifier::allow_in_spec]
    pub fn bottom(&self) -> Pt
        returns
            (self.top.plus(self.height)),
    {
        self.top.plus(self.height)
    }
}

/// The stretch of the page that a line may take.
#[derive(Clone, Copy, Debug, PartialEq, Eq, Structural)]
pub struct LineBand {
    pub left: Pt,
    pub right: Pt,
    pub narrowed: bool,
}

/// The greatest extents among the fragments of a line.
#[derive(Clone, Copy, Debug, PartialEq, Eq, Structural)]
pub struct LineExtent {
    pub ascent: Pt,
    /// The height that line spacing multiplies.
    pub scaled: Pt,
    /// The height that line spacing leaves alone.
    pub fixed: Pt,
}

/// What is left of `band` beside the float `f` at the height `y`.
pub open spec fn narrow(band: LineBand, f: ActiveFloat, y: Pt) -> LineBand {
    let float_right = f.page_x.plus(f.width);
    if f.vertical_exclusion || !f.overlaps_y(y) || float_right.units <= band.left.units
        || f.page_x.units >= band.right.units {
        band
    } else {
        let keep_left = match f.wrap_text {
            WrapTextSide::Left => true,
            WrapTextSide::Right => false,
            _ => f.page_x.minus(band.left).units >= band.right.minus(float_right).units,
        };
        if keep_left {
            LineBand { left: band.left, right: f.page_x, narrowed: true }
        } else {
            LineBand { left: float_right, right: band.right, narrowed: true }
        }
    }
}

/// What the floats from index `k` on leave of `band` at the height `y`.
pub open spec fn narrow_all(floats: Seq<ActiveFloat>, k: int, y: Pt, band: LineBand) -> LineBand
    decreases floats.len() - k,
{
    if k >= floats.len() || k < 0 {
        band
    } else {
        narrow_all(floats, k + 1, y, narrow(band, floats[k], y))
    }
}

fn narrow_band(floats: &[ActiveFloat], y: Pt, band: LineBand) -> (r: LineBand)
    ensures
        r == narrow_all(floats@, 0, y, band),
{
    let mut current = band;
    let mut k: usize = 0;
    while k < floats.len()
        invariant
            k <= floats@.len(),
            narrow_all(floats@, k as int, y, current) == narrow_all(floats@, 0, y, band),
        decreases floats@.len() - k,
    {
        let f = &floats[k];
        let float_right = f.page_x.plus(f.width);
        if !(f.vertical_exclusion || !f.overlaps_y(y) || float_right.units <= current.left.units
            || f.page_x.units >= current.right.units) {
            let keep_left = match f.wrap_text {
                WrapTextSide::Left => true,
                WrapTextSide::Right => false,
                _ => f.page_x.minus(current.left).units >= current.right.minus(float_right).units,
            };
            if keep_left {
                current = LineBand { left: current.left, right: f.page_x, narrowed: true };
            } else {
                current = LineBand { left: float_right, right: current.right, narrowed: true };
            }
        }
        k += 1;
    }
    current
}

/// Whether `f` keeps a line of height `h` at `y` from standing where it is.
pub open spec fn excludes(f: ActiveFloat, y: Pt, h: Pt) -> bool {
    f.vertical_exclusion && f.page_y_start.units < y.plus(h).units && y.units < f.page_y_end.units
}

/// `y` moved below each exclusion from index `k` on that it meets in turn.
pub open spec fn clear_pass(floats: Seq<ActiveFloat>, k: int, y: Pt, h: Pt) -> Pt
    decreases floats.len() - k,
{
    if k >= floats.len() || k < 0 {
        y
    } else {
        clear_pass(floats, k + 1, if excludes(floats[k], y, h) {
            floats[k].page_y_end
        } else {
            y
        }, h)
    }
}

/// The first of at most `rounds` passes over the exclusions that moves nothing.
pub open spec fn clear_rounds(floats: Seq<ActiveFloat>, rounds: int, y: Pt, h: Pt) -> Pt
    decreases rounds,
{
    if rounds <= 0 {
        y
    } else {
        let next = clear_pass(floats, 0, y, h);
        if next == y {
            y
        } else {
            clear_rounds(floats, rounds - 1, next, h)
        }
    }
}

/// Where a line of height `h` stands that would start at `y`.
pub open spec fn clear_exclusions(floats: Seq<ActiveFloat>, y: Pt, h: Pt) -> Pt {
    clear_rounds(floats, floats.len() as int, y, h)
}

fn clear_line(floats: &[ActiveFloat], y: Pt, h: Pt) -> (r: Pt)
    ensures
        r == clear_exclusions(floats@, y, h),
{
    let mut rounds: usize = floats.len();
    let mut at = y;
    while rounds > 0
        invariant
            rounds <= floats@.len(),
            clear_rounds(floats@, rounds as int, at, h) == clear_exclusions(floats@, y, h),
        decreases rounds,
    {
        let mut next = at;
        let mut k: usize = 0;
        while k < floats.len()
            invariant
                k <= floats@.len(),
                clear_pass(floats@, k as int, next, h) == clear_pass(floats@, 0, at, h),
            decreases floats@.len() - k,
        {
            let f = &floats[k];
            if f.vertical_exclusion && f.page_y_start.units < next.plus(h).units && next.units
                < f.page_y_end.units {
                next = f.page_y_end;
            }
            k += 1;
        }
        if next == at {
            return at;
        }
        at = next;
        rounds -= 1;
    }
    at
}

/// The end of a line that holds the fragments before `j`, which take `used`.
pub open spec fn line_end_from(fragments: Seq<Fragment>, j: int, used: Pt, available: Pt) -> int
    decreases fragments.len() - j,
{
    if j >= fragments.len() || j < 0 {
        j
    } else if fragments[j].fit_width().units > 0 && used.plus(fragments[j].fit_width()).units
        > available.units {
        j
    } else if fragments[j].ends_line() {
        j + 1
    } else {
        line_end_from(fragments, j + 1, used.plus(fragments[j].advance()), available)
    }
}

/// The end of the line that starts with fragment `i`: as many fragments as fit
/// into the available width, one at least, and none after a line break.
pub open spec fn line_end(fragments: Seq<Fragment>, i: int, available: Pt) -> int {
    if i >= fragments.len() {
        i
    } else if fragments[i].ends_line() {
        i + 1
    } else {
        line_end_from(fragments, i + 1, fragments[i].advance(), available)
    }
}

fn find_line_end(fragments: &[Fragment], i: usize, available: Pt) -> (r: usize)
    requires
        i <= fragments@.len(),
    ensures
        r == line_end(fragments@, i as int, available),
        i <= r <= fragments@.len(),
        i < fragments@.len() ==> i < r,
{
    if i >= fragments.len() {
        return i;
    }
    if fragments[i].ends_line() {
        return i + 1;
    }
    let mut j: usize = i + 1;
    let mut used = fragments[i].advance();
    while j < fragments.len()
        invariant
            i < j <= fragments@.len(),
            line_end_from(fragments@, j as int, used, available) == line_end(
                fragments@,
                i as int,
                available,
            ),
        decreases fragments@.len() - j,
    {
        let f = &fragments[j];
        if f.fit_width().units > 0 && used.plus(f.fit_width()).units > available.units {
            return j;
        }
        if f.ends_line() {
            return j + 1;
        }
        used = used.plus(f.advance());
        j += 1;
    }
    j
}

/// The extents of the fragments `j..end`, and of `acc` before them.
pub open spec fn extent_from(
    fragments: Seq<Fragment>,
    j: int,
    end: int,
    acc: LineExtent,
) -> LineExtent
    decreases end - j,
{
    if j >= end {
        acc
    } else {
        let f = fragments[j];
        extent_from(
            fragments,
            j + 1,
            end,
            if f.is_scaled() {
                LineExtent {
                    ascent: acc.ascent.max(f.ascent()),
                    scaled: acc.scaled.max(f.natural_height()),
                    fixed: acc.fixed,
                }
            } else {
                LineExtent {
                    ascent: acc.ascent.max(f.ascent()),
                    scaled: acc.scaled,
                    fixed: acc.fixed.max(f.natural_height()),
                }
            },
        )
    }
}

/// The extents of the fragments `start..end`; those of an empty line where
/// nothing among them has a height.
pub open spec fn line_extent(
    fragments: Seq<Fragment>,
    start: int,
    end: int,
    default_line_height: Pt,
) -> LineExtent {
    let e = extent_from(
        fragments,
        start,
        end,
        LineExtent { ascent: Pt::zero(), scaled: Pt::zero(), fixed: Pt::zero() },
    );
    if e.scaled.units <= 0 && e.fixed.units <= 0 {
        LineExtent { ascent: default_line_height, scaled: default_line_height, fixed: Pt::zero() }
    } else {
        e
    }
}

fn measure_extent(
    fragments: &[Fragment],
    start: usize,
    end: usize,
    default_line_height: Pt,
) -> (r: LineExtent)
    requires
        start <= end <= fragments@.len(),
    ensures
        r == line_extent(fragments@, start as int, end as int, default_line_height),
{
    let ghost zero = LineExtent { ascent: Pt::zero(), scaled: Pt::zero(), fixed: Pt::zero() };
    let mut e = LineExtent { ascent: Pt::zero(), scaled: Pt::zero(), fixed: Pt::zero() };
    let mut j: usize = start;
    while j < end
        invariant
            start <= j <= end <= fragments@.len(),
            extent_from(fragments@, j as int, end as int, e) == extent_from(
                fragments@,
                start as int,
                end as int,
                zero,
            ),
        decreases end - j,
    {
        let f = &fragments[j];
        if f.is_scaled() {
            e = LineExtent {
                ascent: e.ascent.max(f.ascent()),
                scaled: e.scaled.max(f.natural_height()),
                fixed: e.fixed,
            };
        } else {
            e = LineExtent {
                ascent: e.ascent.max(f.ascent()),
                scaled: e.scaled,
                fixed: e.fixed.max(f.natural_height()),
            };
        }
        j += 1;
    }
    if e.scaled.units <= 0 && e.fixed.units <= 0 {
        LineExtent { ascent: default_line_height, scaled: default_line_height, fixed: Pt::zero() }
    } else {
        e
    }
}

/// The height of a line with the given extents.
pub open spec fn spaced_height(rule: LineSpacingRule, e: LineExtent) -> Pt {
    match rule {
        LineSpacingRule::Auto { line } => (Pt {
            units: ratio(e.scaled.units as int, line as int, 240),
        }).max(e.fixed),
        LineSpacingRule::Exact(h) => h,
        LineSpacingRule::AtLeast(h) => h.max(e.scaled.max(e.fixed)),
    }
}

fn space_line(rule: LineSpacingRule, e: LineExtent) -> (r: Pt)
    ensures
        r == spaced_height(rule, e),
{
    match rule {
        LineSpacingRule::Auto { line } => e.scaled.scale(
            Pt::from_units(line as i64),
            Pt::from_units(240),
        ).max(e.fixed),
        LineSpacingRule::Exact(h) => h,
        LineSpacingRule::AtLeast(h) => h.max(e.scaled.max(e.fixed)),
    }
}

/// The commands that draw the fragments `j..end` from `x` on, after `acc`.
pub open spec fn line_commands(
    fragments: Seq<Fragment>,
    j: int,
    end: int,
    x: Pt,
    baseline: Pt,
    acc: Seq<DrawCommand>,
) -> Seq<DrawCommand>
    decreases end - j,
{
    if j >= end {
        acc
    } else {
        line_commands(
            fragments,
            j + 1,
            end,
            x.plus(fragments[j].advance()),
            baseline,
            match fragment_command(fragments[j], x, baseline) {
                Some(command) => acc.push(command),
                None => acc,
            },
        )
    }
}

/// The command that draws one fragment, if it paints at all.
pub open spec fn fragment_command(f: Fragment, x: Pt, baseline: Pt) -> Option<DrawCommand> {
    match f {
        Fragment::Text { text, font, color, baseline_offset, .. } => Some(
            DrawCommand::Text {
                position: PtOffset { x, y: baseline.plus(baseline_offset) },
                text,
                font: font.font,
                color,
            },
        ),
        Fragment::Image { size, image } => Some(
            DrawCommand::Image {
                rect: PtRect::from_xywh(x, baseline.minus(size.height), size.width, size.height),
                image,
            },
        ),
        Fragment::InlineGraphic { size, path } => Some(
            DrawCommand::Path {
                rect: PtRect::from_xywh(x, baseline.minus(size.height), size.width, size.height),
                path,
            },
        ),
        Fragment::Emoji { size, image } => Some(
            DrawCommand::Image {
                rect: PtRect::from_xywh(x, baseline.minus(size.height), size.width, size.height),
                image,
            },
        ),
        _ => None,
    }
}

fn draw_fragment(f: &Fragment, x: Pt, baseline: Pt) -> (r: Option<DrawCommand>)
    ensures
        r == fragment_command(*f, x, baseline),
{
    match *f {
        Fragment::Text { text, font, color, baseline_offset, .. } => Some(
            DrawCommand::Text {
                position: PtOffset { x, y: baseline.plus(baseline_offset) },
                text,
                font: font.font,
                color,
            },
        ),
        Fragment::Image { size, image } => Some(
            DrawCommand::Image {
                rect: PtRect::from_xywh(x, baseline.minus(size.height), size.width, size.height),
                image,
            },
        ),
        Fragment::InlineGraphic { size, path } => Some(
            DrawCommand::Path {
                rect: PtRect::from_xywh(x, baseline.minus(size.height), size.width, size.height),
                path,
            },
        ),
        Fragment::Emoji { size, image } => Some(
            DrawCommand::Image {
                rect: PtRect::from_xywh(x, baseline.minus(size.height), size.width, size.height),
                image,
            },
        ),
        _ => None,
    }
}

fn draw_line(
    fragments: &[Fragment],
    start: usize,
    end: usize,
    left: Pt,
    baseline: Pt,
    commands: &mut Vec<DrawCommand>,
)
    requires
        start <= end <= fragments@.len(),
    ensures
        final(commands)@ == line_commands(
            fragments@,
            start as int,
            end as int,
            left,
            baseline,
            old(commands)@,
        ),
{
    let mut x = left;
    let mut j: usize = start;
    while j < end
        invariant
            start <= j <= end <= fragments@.len(),
            line_commands(fragments@, j as int, end as int, x, baseline, commands@)
                == line_commands(
                fragments@,
                start as int,
                end as int,
                left,
                baseline,
                old(commands)@,
            ),
        decreases end - j,
    {
        let f = &fragments[j];
        match draw_fragment(f, x, baseline) {
            Some(command) => {
                commands.push(command);
            },
            None => {},
        }
        x = x.plus(f.advance());
        j += 1;
    }
}

/// The left indent of line number `index` of a paragraph.
#[verifier::allow_in_spec]
pub fn line_indent(style: &ParagraphStyle, index: usize) -> Pt
    returns
        ({
            let base = style.indent_left.plus(
                if index == 0 {
                    style.indent_first_line
                } else {
                    Pt::zero()
                },
            );
            match style.drop_cap {
                Some(cap) if index < cap.lines => base.plus(cap.width),
                _ => base,
            }
        }),
{
    let base = style.indent_left.plus(
        if index == 0 {
            style.indent_first_line
        } else {
            Pt::zero()
        },
    );
    match style.drop_cap {
        Some(cap) if index < cap.lines => base.plus(cap.width),
        _ => base,
    }
}

/// The line that starts with fragment `i` when its top stands at `y` on the page.
pub open spec fn line_at(
    fragments: Seq<Fragment>,
    ctx: PlaceView,
    style: ParagraphStyle,
    i: int,
    index: int,
    text_top: Pt,
    y: Pt,
) -> PlacedLine {
    let band = narrow_all(
        ctx.floats,
        0,
        y,
        LineBand {
            left: ctx.page_x.plus(line_indent(&style, index as usize)),
            right: ctx.page_x.plus(ctx.width).minus(style.indent_right),
            narrowed: false,
        },
    );
    let end = line_end(fragments, i, band.right.minus(band.left));
    let extent = line_extent(fragments, i, end, ctx.default_line_height);
    PlacedLine {
        start: i as usize,
        end: end as usize,
        top: y.minus(text_top),
        height: spaced_height(style.line_spacing, extent),
        left: band.left.minus(ctx.page_x),
        ascent: extent.ascent,
        narrowed: band.narrowed,
        commands_end: 0,
    }
}

/// The line that starts with fragment `i` below `bottom`, moved past exclusions.
pub open spec fn next_line(
    fragments: Seq<Fragment>,
    ctx: PlaceView,
    style: ParagraphStyle,
    i: int,
    index: int,
    bottom: Pt,
) -> PlacedLine {
    let text_top = text_top(ctx.page_y, style);
    let y = text_top.plus(bottom);
    let tried = line_at(fragments, ctx, style, i, index, text_top, y);
    let cleared = clear_exclusions(ctx.floats, y, tried.height);
    if cleared == y {
        tried
    } else {
        line_at(fragments, ctx, style, i, index, text_top, cleared)
    }
}

/// Where a paragraph's text starts on the page.
#[verifier::allow_in_spec]
pub fn text_top(page_y: Pt, style: ParagraphStyle) -> Pt
    returns
        (page_y.plus(style.space_before).plus(style.top_border_space())),
{
    page_y.plus(style.space_before).plus(style.top_border_space())
}

fn fit_line_at(
    fragments: &[Fragment],
    ctx: &PlaceContext<'_>,
    style: &ParagraphStyle,
    i: usize,
    index: usize,
    text_top: Pt,
    y: Pt,
) -> (r: PlacedLine)
    requires
        i <= fragments@.len(),
    ensures
        r == line_at(fragments@, ctx@, *style, i as int, index as int, text_top, y),
        i <= r.end <= fragments@.len(),
        r.start == i,
        i < fragments@.len() ==> i < r.end,
{
    let band = narrow_band(
        ctx.floats,
        y,
        LineBand {
            left: ctx.page_x.plus(line_indent(style, index)),
            right: ctx.page_x.plus(ctx.width).minus(style.indent_right),
            narrowed: false,
        },
    );
    let end: usize = find_line_end(fragments, i, band.right.minus(band.left));
    let extent = measure_extent(fragments, i, end, ctx.default_line_height);
    PlacedLine {
        start: i,
        end,
        top: y.minus(text_top),
        height: space_line(style.line_spacing, extent),
        left: band.left.minus(ctx.page_x),
        ascent: extent.ascent,
        narrowed: band.narrowed,
        commands_end: 0,
    }
}

fn fit_next_line(
    fragments: &[Fragment],
    ctx: &PlaceContext<'_>,
    style: &ParagraphStyle,
    i: usize,
    index: usize,
    bottom: Pt,
) -> (r: PlacedLine)
    requires
        i <= fragments@.len(),
    ensures
        r == next_line(fragments@, ctx@, *style, i as int, index as int, bottom),
        i <= r.end <= fragments@.len(),
        r.start == i,
        i < fragments@.len() ==> i < r.end,
{
    let top = text_top(ctx.page_y, *style);
    let y = top.plus(bottom);
    let tried = fit_line_at(fragments, ctx, style, i, index, top, y);
    let cleared = clear_line(ctx.floats, y, tried.height);
    if cleared == y {
        tried
    } else {
        fit_line_at(fragments, ctx, style, i, index, top, cleared)
    }
}

/// A paragraph broken into lines.
#[derive(Debug)]
pub struct PlacedParagraph {
    pub lines: Vec<PlacedLine>,
    /// The commands of all lines, in order.
    pub commands: Vec<DrawCommand>,
}

/// The mathematical value of a [`PlacedParagraph`].
#[verifier::ext_equal]
pub struct PlacedView {
    pub lines: Seq<PlacedLine>,
    pub commands: Seq<DrawCommand>,
}

impl View for PlacedParagraph {
    type V = PlacedView;

    open spec fn view(&self) -> PlacedView {
        PlacedView { lines: self.lines@, commands: self.commands@ }
    }
}

/// `line` added to the lines of `p`, with the commands that draw it.
pub open spec fn with_line(
    fragments: Seq<Fragment>,
    p: PlacedView,
    line: PlacedLine,
) -> PlacedView {
    let commands = line_commands(
        fragments,
        line.start as int,
        line.end as int,
        line.left,
        line.top.plus(line.ascent),
        p.commands,
    );
    PlacedView {
        lines: p.lines.push(PlacedLine { commands_end: commands.len() as usize, ..line }),
        commands,
    }
}

/// The lines of the fragments from `i` on, added to those of `p`.
pub open spec fn place_from(
    fragments: Seq<Fragment>,
    ctx: PlaceView,
    style: ParagraphStyle,
    i: int,
    bottom: Pt,
    p: PlacedView,
) -> PlacedView
    decreases fragments.len() - i,
{
    if i >= fragments.len() {
        p
    } else {
        let line = next_line(fragments, ctx, style, i, p.lines.len() as int, bottom);
        if line.end <= i || line.end > fragments.len() {
            p
        } else {
            place_from(
                fragments,
                ctx,
                style,
                line.end as int,
                line.bottom(),
                with_line(fragments, p, line),
            )
        }
    }
}

/// The lines of a paragraph. Without any fragments it has one empty line.
pub open spec fn placed(
    fragments: Seq<Fragment>,
    ctx: PlaceView,
    style: ParagraphStyle,
) -> PlacedView {
    let none = PlacedView { lines: Seq::empty(), commands: Seq::empty() };
    if fragments.len() == 0 {
        with_line(fragments, none, next_line(fragments, ctx, style, 0, 0, Pt::zero()))
    } else {
        place_from(fragments, ctx, style, 0, Pt::zero(), none)
    }
}

/// What the drawing of a placed paragraph relies on: there is a line, the lines
/// take the fragments one after another, and each line's commands follow those
/// of the lines above it.
pub open spec fn well_placed(p: PlacedView, fragment_count: int) -> bool {
    &&& p.lines.len() > 0
    &&& p.lines.len() <= fragment_count + 1
    &&& p.lines[0].start == 0
    &&& p.lines[p.lines.len() - 1].end == fragment_count
    &&& p.lines[p.lines.len() - 1].commands_end == p.commands.len()
    &&& forall|k: int| #![trigger p.lines[k]]
        0 <= k < p.lines.len() ==> p.lines[k].end <= fragment_count && p.lines[k].commands_end
            <= p.commands.len() && (fragment_count > 0 ==> p.lines[k].start < p.lines[k].end)
    &&& forall|a: int, b: int| #![trigger p.lines[a], p.lines[b]]
        0 <= a && b == a + 1 && b < p.lines.len() ==> p.lines[a].end == p.lines[b].start
    &&& forall|a: int, b: int| #![trigger p.lines[a], p.lines[b]]
        0 <= a <= b < p.lines.len() ==> p.lines[a].commands_end <= p.lines[b].commands_end
}

/// Whether each line's commands are among those of the paragraph.
pub open spec fn drawable(p: PlacedView) -> bool {
    forall|k: int| #![trigger p.lines[k]]
        0 <= k < p.lines.len() ==> p.lines[k].commands_end <= p.commands.len()
}

/// Break `fragments` into lines.
pub fn place_paragraph(
    fragments: &[Fragment],
    ctx: &PlaceContext<'_>,
    style: &ParagraphStyle,
) -> (r: PlacedParagraph)
    ensures
        r@ == placed(fragments@, ctx@, *style),
        well_placed(r@, fragments@.len() as int),
{
    let mut r = PlacedParagraph { lines: Vec::new(), commands: Vec::new() };
    let ghost none = PlacedView { lines: Seq::empty(), commands: Seq::empty() };
    assert(r@ =~= none);
    if fragments.len() == 0 {
        let line = fit_next_line(fragments, ctx, style, 0, 0, Pt::zero());
        r.lines.push(line);
        assert(r@ =~= with_line(fragments@, none, line));
        return r;
    }
    let mut i: usize = 0;
    let mut bottom = Pt::zero();
    while i < fragments.len()
        invariant
            i <= fragments@.len(),
            fragments@.len() > 0,
            i > 0 ==> well_placed(
                (PlacedView { lines: r.lines@, commands: r.commands@ }),
                i as int,
            ),
            i == 0 ==> r.lines@.len() == 0 && r.commands@.len() == 0,
            r.lines@.len() <= i,
            place_from(fragments@, ctx@, *style, i as int, bottom, r@) == place_from(
                fragments@,
                ctx@,
                *style,
                0,
                Pt::zero(),
                none,
            ),
        decreases fragments@.len() - i,
    {
        let ghost before = r@;
        let mut line = fit_next_line(fragments, ctx, style, i, r.lines.len(), bottom);
        let ghost fitted = line;
        draw_line(
            fragments,
            line.start,
            line.end,
            line.left,
            line.top.plus(line.ascent),
            &mut r.commands,
        );
        proof {
            lemma_line_commands_extend(
                fragments@,
                line.start as int,
                line.end as int,
                line.left,
                line.top.plus(line.ascent),
                before.commands,
            );
        }
        line.commands_end = r.commands.len();
        r.lines.push(line);
        i = line.end;
        bottom = line.bottom();
        assert(r@ =~= with_line(fragments@, before, fitted));
        assert(well_placed((PlacedView { lines: r.lines@, commands: r.commands@ }), i as int));
    }
    r
}

/// Drawing a line only adds to the commands before it.
proof fn lemma_line_commands_extend(
    fragments: Seq<Fragment>,
    j: int,
    end: int,
    x: Pt,
    baseline: Pt,
    acc: Seq<DrawCommand>,
)
    ensures
        acc.len() <= line_commands(fragments, j, end, x, baseline, acc).len(),
    decreases end - j,
{
    if j < end {
        let next = match fragment_command(fragments[j], x, baseline) {
            Some(command) => acc.push(command),
            None => acc,
        };
        lemma_line_commands_extend(
            fragments,
            j + 1,
            end,
            x.plus(fragments[j].advance()),
            baseline,
            next,
        );
    }
}


/// A drawn part of a paragraph, with its origin at its top left corner.
#[derive(Debug)]
pub struct Segment {
    pub commands: Vec<DrawCommand>,
    pub height: Pt,
}

/// The mathematical value of a [`Segment`].
#[verifier::ext_equal]
pub struct SegmentView {
    pub commands: Seq<DrawCommand>,
    pub height: Pt,
}

impl View for Segment {
    type V = SegmentView;

    open spec fn view(&self) -> SegmentView {
        SegmentView { commands: self.commands@, height: self.height }
    }
}

/// The shading and borders of a paragraph box that starts at `y`.
pub open spec fn decoration(
    style: ParagraphStyle,
    width: Pt,
    y: Pt,
    height: Pt,
    first: bool,
    last: bool,
) -> Seq<DrawCommand> {
    let x = style.indent_left;
    let w = width.minus(style.indent_left).minus(style.indent_right);
    let shading = match style.shading {
        Some(color) => seq![DrawCommand::Rect { rect: PtRect::from_xywh(x, y, w, height), color }],
        None => Seq::empty(),
    };
    match style.borders {
        Some(b) => {
            let top = match b.top {
                Some(line) if first => seq![
                    DrawCommand::Rect {
                        rect: PtRect::from_xywh(x, y, w, line.width),
                        color: line.color,
                    },
                ],
                _ => Seq::empty(),
            };
            let bottom = match b.bottom {
                Some(line) if last => seq![
                    DrawCommand::Rect {
                        rect: PtRect::from_xywh(
                            x,
                            y.plus(height).minus(line.width),
                            w,
                            line.width,
                        ),
                        color: line.color,
                    },
                ],
                _ => Seq::empty(),
            };
            let left = match b.left {
                Some(line) => seq![
                    DrawCommand::Rect {
                        rect: PtRect::from_xywh(
                            x.minus(line.space).minus(line.width),
                            y,
                            line.width,
                            height,
                        ),
                        color: line.color,
                    },
                ],
                None => Seq::empty(),
            };
            let right = match b.right {
                Some(line) => seq![
                    DrawCommand::Rect {
                        rect: PtRect::from_xywh(
                            x.plus(w).plus(line.space),
                            y,
                            line.width,
                            height,
                        ),
                        color: line.color,
                    },
                ],
                None => Seq::empty(),
            };
            shading + top + bottom + left + right
        },
        None => shading,
    }
}

fn decorate(
    style: &ParagraphStyle,
    width: Pt,
    y: Pt,
    height: Pt,
    first: bool,
    last: bool,
) -> (r: Vec<DrawCommand>)
    ensures
        r@ == decoration(*style, width, y, height, first, last),
{
    let x = style.indent_left;
    let w = width.minus(style.indent_left).minus(style.indent_right);
    let mut r: Vec<DrawCommand> = Vec::new();
    if let Some(color) = style.shading {
        r.push(DrawCommand::Rect { rect: PtRect::from_xywh(x, y, w, height), color });
    }
    if let Some(b) = style.borders {
        if first {
            if let Some(line) = b.top {
                r.push(
                    DrawCommand::Rect {
                        rect: PtRect::from_xywh(x, y, w, line.width),
                        color: line.color,
                    },
                );
            }
        }
        if last {
            if let Some(line) = b.bottom {
                r.push(
                    DrawCommand::Rect {
                        rect: PtRect::from_xywh(
                            x,
                            y.plus(height).minus(line.width),
                            w,
                            line.width,
                        ),
                        color: line.color,
                    },
                );
            }
        }
        if let Some(line) = b.left {
            r.push(
                DrawCommand::Rect {
                    rect: PtRect::from_xywh(
                        x.minus(line.space).minus(line.width),
                        y,
                        line.width,
                        height,
                    ),
                    color: line.color,
                },
            );
        }
        if let Some(line) = b.right {
            r.push(
                DrawCommand::Rect {
                    rect: PtRect::from_xywh(x.plus(w).plus(line.space), y, line.width, height),
                    color: line.color,
                },
            );
        }
    }
    assert(r@ =~= decoration(*style, width, y, height, first, last));
    r
}

impl PlacedView {
    /// The lower edge of the first `n` lines.
    pub open spec fn bottom(self, n: int) -> Pt {
        if 0 < n <= self.lines.len() {
            self.lines[n - 1].bottom()
        } else {
            Pt::zero()
        }
    }

    /// How many commands draw the first `n` lines.
    pub open spec fn commands_in(self, n: int) -> int {
        if 0 < n <= self.lines.len() {
            self.lines[n - 1].commands_end as int
        } else {
            0
        }
    }

    /// The height that line `i` adds below the lines above it.
    pub open spec fn line_height(self, i: int) -> Pt {
        self.lines[i].bottom().minus(self.bottom(i))
    }

    /// The first `head` lines drawn. The space before and the top border stand
    /// with the first part of a paragraph, the space after and the bottom
    /// border with its last part.
    pub open spec fn segment(
        self,
        style: ParagraphStyle,
        width: Pt,
        head: int,
        first: bool,
        last: bool,
    ) -> SegmentView {
        let before = if first {
            style.space_before
        } else {
            Pt::zero()
        };
        let top_border = if first {
            style.top_border_space()
        } else {
            Pt::zero()
        };
        let bottom_border = if last {
            style.bottom_border_space()
        } else {
            Pt::zero()
        };
        let after = if last {
            style.space_after
        } else {
            Pt::zero()
        };
        let box_height = top_border.plus(self.bottom(head)).plus(bottom_border);
        SegmentView {
            commands: decoration(style, width, before, box_height, first, last) + shift_all(
                self.commands.subrange(0, self.commands_in(head)),
                Pt::zero(),
                before.plus(top_border),
            ),
            height: before.plus(box_height).plus(after),
        }
    }

    /// The whole paragraph drawn, its box cut off at `max_height`.
    pub open spec fn full(self, style: ParagraphStyle, width: Pt, max_height: Pt) -> SegmentView {
        let whole = self.segment(style, width, self.lines.len() as int, true, true);
        SegmentView { commands: whole.commands, height: whole.height.min(max_height) }
    }

    /// The lines from the first to the last one that a drop cap or a float
    /// stands beside: a paragraph is not divided among them.
    pub open spec fn unbreakable_prefix(self, style: ParagraphStyle) -> int {
        let narrowed = last_narrowed(self.lines, self.lines.len() as int);
        if style.drop_cap_lines() > narrowed {
            style.drop_cap_lines() as int
        } else {
            narrowed
        }
    }
}

/// One more than the last of the first `n` lines that a float took room from.
pub open spec fn last_narrowed(lines: Seq<PlacedLine>, n: int) -> int
    decreases n,
{
    if n <= 0 {
        0
    } else if lines[n - 1].narrowed {
        n
    } else {
        last_narrowed(lines, n - 1)
    }
}

/// How many of the fragments `j..end` refer to a footnote, and `acc` more.
pub open spec fn count_references(fragments: Seq<Fragment>, j: int, end: int, acc: int) -> int
    decreases end - j,
{
    if j >= end {
        acc
    } else {
        count_references(
            fragments,
            j + 1,
            end,
            if fragments[j].is_footnote_reference() {
                acc + 1
            } else {
                acc
            },
        )
    }
}

/// Whether proportional spacing adds room below the text of a line.
#[verifier::allow_in_spec]
pub fn spreads_lines(rule: LineSpacingRule) -> bool
    returns
        (match rule {
            LineSpacingRule::Auto { line } => line > 240,
            _ => false,
        }),
{
    match rule {
        LineSpacingRule::Auto { line } => line > 240,
        _ => false,
    }
}

/// The greatest distance of the fragments `j..end` below the baseline, if they
/// are plain text (and bookmarks) alone.
pub open spec fn lowest_baseline(
    fragments: Seq<Fragment>,
    j: int,
    end: int,
    acc: Option<Pt>,
) -> Option<Pt>
    decreases end - j,
{
    if j >= end {
        acc
    } else if fragments[j].is_plain_text() {
        let shift = fragments[j].baseline_shift();
        lowest_baseline(
            fragments,
            j + 1,
            end,
            match acc {
                Some(lowest) => Some(lowest.max(shift)),
                None => Some(shift),
            },
        )
    } else if fragments[j] is Bookmark {
        lowest_baseline(fragments, j + 1, end, acc)
    } else {
        None
    }
}

/// The height that line `i` has to have on the page to be its last line there:
/// down to the lowest baseline, where the line is plain text with room below it.
pub open spec fn baseline_fit_height(
    p: PlacedView,
    fragments: Seq<Fragment>,
    style: ParagraphStyle,
    i: int,
) -> Option<Pt> {
    let line = p.lines[i];
    if spreads_lines(style.line_spacing) {
        match lowest_baseline(fragments, line.start as int, line.end as int, None) {
            Some(shift) => Some(line.top.minus(p.bottom(i)).plus(line.ascent).plus(shift)),
            None => None,
        }
    } else {
        None
    }
}

impl PlacedParagraph {
    /// The number of lines.
    pub fn line_count(&self) -> (r: usize)
        ensures
            r == self@.lines.len(),
    {
        self.lines.len()
    }

    fn bottom(&self, n: usize) -> (r: Pt)
        ensures
            r == self@.bottom(n as int),
    {
        if 0 < n && n <= self.lines.len() {
            self.lines[n - 1].bottom()
        } else {
            Pt::zero()
        }
    }

    /// The height that line `i` adds below the lines above it.
    pub fn line_height(&self, i: usize) -> (r: Pt)
        requires
            i < self@.lines.len(),
        ensures
            r == self@.line_height(i as int),
    {
        self.lines[i].bottom().minus(self.bottom(i))
    }

    /// The height of all lines without gaps between them.
    pub fn line_box_height(&self) -> (r: Pt)
        ensures
            r == boxes_height(self@.lines, 0, Pt::zero()),
    {
        let mut total = Pt::zero();
        let mut i: usize = 0;
        while i < self.lines.len()
            invariant
                i <= self.lines@.len(),
                boxes_height(self.lines@, i as int, total) == boxes_height(
                    self.lines@,
                    0,
                    Pt::zero(),
                ),
            decreases self.lines@.len() - i,
        {
            total = total.plus(self.lines[i].height);
            i += 1;
        }
        total
    }

    /// Draw the first `head` lines.
    pub fn emit_split_segment(
        &self,
        style: &ParagraphStyle,
        width: Pt,
        head: usize,
        first: bool,
        last: bool,
    ) -> (r: Segment)
        requires
            drawable(self@),
            head <= self@.lines.len(),
        ensures
            r@ == self@.segment(*style, width, head as int, first, last),
    {
        let before = if first {
            style.space_before
        } else {
            Pt::zero()
        };
        let top_border = if first {
            style.top_border_space()
        } else {
            Pt::zero()
        };
        let bottom_border = if last {
            style.bottom_border_space()
        } else {
            Pt::zero()
        };
        let after = if last {
            style.space_after
        } else {
            Pt::zero()
        };
        let box_height = top_border.plus(self.bottom(head)).plus(bottom_border);
        let mut commands = decorate(style, width, before, box_height, first, last);
        let count: usize = if head > 0 {
            self.lines[head - 1].commands_end
        } else {
            0
        };
        append_shifted(
            &mut commands,
            self.commands.as_slice(),
            0,
            count,
            Pt::zero(),
            before.plus(top_border),
        );
        Segment { commands, height: before.plus(box_height).plus(after) }
    }

    /// Draw the whole paragraph.
    pub fn emit_full(
        &self,
        style: &ParagraphStyle,
        width: Pt,
        max_height: Pt,
    ) -> (r: Segment)
        requires
            drawable(self@),
        ensures
            r@ == self@.full(*style, width, max_height),
    {
        let whole = self.emit_split_segment(
            style,
            width,
            self.lines.len(),
            true,
            true,
        );
        Segment { commands: whole.commands, height: whole.height.min(max_height) }
    }

    /// How many footnotes the first `head` lines refer to.
    pub fn footnote_refs_in(&self, fragments: &[Fragment], head: usize) -> (r: usize)
        requires
            well_placed(self@, fragments@.len() as int),
            0 < head <= self@.lines.len(),
        ensures
            r == count_references(fragments@, 0, self@.lines[head - 1].end as int, 0),
    {
        let end: usize = self.lines[head - 1].end;
        let mut count: usize = 0;
        let mut j: usize = 0;
        while j < end
            invariant
                j <= end <= fragments@.len(),
                count <= j,
                count_references(fragments@, j as int, end as int, count as int)
                    == count_references(fragments@, 0, end as int, 0),
            decreases end - j,
        {
            if fragments[j].is_footnote_reference() {
                count += 1;
            }
            j += 1;
        }
        count
    }

    /// The height that line `i` has to have on the page to be its last line
    /// there, where this is less than the height of the line.
    pub fn final_line_baseline_fit_height(
        &self,
        fragments: &[Fragment],
        style: &ParagraphStyle,
        i: usize,
    ) -> (r: Option<Pt>)
        requires
            well_placed(self@, fragments@.len() as int),
            i < self@.lines.len(),
        ensures
            r == baseline_fit_height(self@, fragments@, *style, i as int),
    {
        if !spreads_lines(style.line_spacing) {
            return None;
        }
        let line = self.lines[i];
        let mut lowest: Option<Pt> = None;
        let mut j: usize = line.start;
        while j < line.end
            invariant
                line == self.lines@[i as int],
                spreads_lines(style.line_spacing),
                i < self@.lines.len(),
                line.end <= fragments@.len(),
                j <= line.end || j == line.start,
                lowest_baseline(fragments@, j as int, line.end as int, lowest) == lowest_baseline(
                    fragments@,
                    line.start as int,
                    line.end as int,
                    None,
                ),
            decreases line.end - j,
        {
            let f = &fragments[j];
            if f.is_plain_text() {
                let shift = f.baseline_shift();
                lowest = match lowest {
                    Some(before) => Some(before.max(shift)),
                    None => Some(shift),
                };
            } else if !matches!(*f, Fragment::Bookmark) {
                return None;
            }
            j += 1;
        }
        match lowest {
            Some(shift) => Some(
                line.top.minus(self.bottom(i)).plus(line.ascent).plus(shift),
            ),
            None => None,
        }
    }

    /// How many lines at the start of the paragraph stay together.
    pub fn unbreakable_prefix_lines(&self, style: &ParagraphStyle) -> (r: usize)
        ensures
            r == self@.unbreakable_prefix(*style),
    {
        let mut n: usize = self.lines.len();
        while n > 0 && !self.lines[n - 1].narrowed
            invariant
                n <= self.lines@.len(),
                last_narrowed(self.lines@, n as int) == last_narrowed(
                    self.lines@,
                    self.lines@.len() as int,
                ),
            decreases n,
        {
            n -= 1;
        }
        if style.drop_cap_lines() > n {
            style.drop_cap_lines()
        } else {
            n
        }
    }
}

/// The heights of the lines from `i` on, added to `acc`.
pub open spec fn boxes_height(lines: Seq<PlacedLine>, i: int, acc: Pt) -> Pt
    decreases lines.len() - i,
{
    if i >= lines.len() || i < 0 {
        acc
    } else {
        boxes_height(lines, i + 1, acc.plus(lines[i].height))
    }
}

/// A place with nothing around it, `width` wide and `max_height` high.
pub open spec fn open_place(width: Pt, max_height: Pt, default_line_height: Pt) -> PlaceView {
    PlaceView {
        width,
        max_height,
        page_x: Pt::zero(),
        page_y: Pt::zero(),
        default_line_height,
        floats: Seq::empty(),
    }
}

/// A whole paragraph with nothing around it.
pub open spec fn laid_out(
    fragments: Seq<Fragment>,
    style: ParagraphStyle,
    width: Pt,
    max_height: Pt,
    default_line_height: Pt,
) -> SegmentView {
    placed(fragments, open_place(width, max_height, default_line_height), style).full(
        style,
        width,
        max_height,
    )
}

/// Break a paragraph into lines with nothing around it.
pub fn place_alone(
    fragments: &[Fragment],
    style: &ParagraphStyle,
    width: Pt,
    max_height: Pt,
    default_line_height: Pt,
) -> (r: PlacedParagraph)
    ensures
        r@ == placed(fragments@, open_place(width, max_height, default_line_height), *style),
        well_placed(r@, fragments@.len() as int),
{
    let floats: Vec<ActiveFloat> = Vec::new();
    let ctx = PlaceContext {
        width,
        max_height,
        page_x: Pt::zero(),
        page_y: Pt::zero(),
        default_line_height,
        floats: floats.as_slice(),
    };
    assert(ctx@ =~= open_place(width, max_height, default_line_height));
    place_paragraph(fragments, &ctx, style)
}

/// Lay out a whole paragraph with nothing around it.
pub fn layout_paragraph(
    fragments: &[Fragment],
    style: &ParagraphStyle,
    width: Pt,
    max_height: Pt,
    default_line_height: Pt,
) -> (r: Segment)
    ensures
        r@ == laid_out(fragments@, *style, width, max_height, default_line_height),
{
    place_alone(fragments, style, width, max_height, default_line_height).emit_full(
        style,
        width,
        max_height,
    )
}

} // verus!
