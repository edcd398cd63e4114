//! Where the lines of a paragraph and the text in them stand.
use crate::dimension::{ratio, Pt};
use crate::draw_command::DrawCommand;
use crate::float::{ActiveFloat, WrapTextSide};
use crate::fragment::{AutoLineSpacingContribution, Fragment};
use crate::note_laws::is_length;
use crate::paragraph::{
    clear_exclusions, clear_pass, clear_rounds, count_references, excludes, extent_from,
    fragment_command, last_narrowed, line_at, line_commands, line_end, line_end_from, line_extent,
    line_indent, narrow, narrow_all, next_line, place_from, placed, spaced_height, with_line,
    LineBand, LineExtent, PlaceView, PlacedLine, PlacedView,
};
use crate::style::{LineSpacingRule, ParagraphStyle};
use vstd::prelude::*;

verus! {

/// The right edge of a float.
pub open spec fn right_of(f: ActiveFloat) -> int {
    f.page_x.units + f.width.units
}

/// Whether the right edges of floats are lengths.
pub open spec fn floats_have_edges(floats: Seq<ActiveFloat>) -> bool {
    forall|k: int| #![trigger floats[k]] 0 <= k < floats.len() ==> is_length(right_of(floats[k]))
}

/// Whether text runs beside a float at the height `y`.
pub open spec fn is_beside(f: ActiveFloat, y: int) -> bool {
    !f.vertical_exclusion && f.page_y_start.units <= y < f.page_y_end.units
}

/// Whether the stretch from `left` to `right` meets a float.
pub open spec fn meets(f: ActiveFloat, left: int, right: int) -> bool {
    left < right_of(f) && f.page_x.units < right
}

proof fn lemma_narrowed(floats: Seq<ActiveFloat>, k: int, y: Pt, band: LineBand)
    requires
        0 <= k <= floats.len(),
        floats_have_edges(floats),
    ensures
        ({
            let b = narrow_all(floats, k, y, band);
            &&& band.left.units <= b.left.units
            &&& b.right.units <= band.right.units
            &&& band.narrowed ==> b.narrowed
            &&& !b.narrowed ==> b == band
            &&& forall|i: int| #![trigger floats[i]]
                k <= i < floats.len() && is_beside(floats[i], y.units as int) ==> !meets(
                    floats[i],
                    b.left.units as int,
                    b.right.units as int,
                )
            &&& (forall|i: int| #![trigger floats[i]]
                k <= i < floats.len() && is_beside(floats[i], y.units as int) ==> !meets(
                    floats[i],
                    band.left.units as int,
                    band.right.units as int,
                )) ==> b == band
        }),
    decreases floats.len() - k,
{
    if k < floats.len() {
        let next = narrow(band, floats[k], y);
        lemma_narrowed(floats, k + 1, y, next);
    }
}

/// What floats leave of a line lies within the line and beside every float at its height; where no
/// float meets the line, all of it is left.
pub proof fn law_lines_keep_clear_of_floats(floats: Seq<ActiveFloat>, y: Pt, band: LineBand)
    requires
        floats_have_edges(floats),
    ensures
        ({
            let b = narrow_all(floats, 0, y, band);
            &&& band.left.units <= b.left.units
            &&& b.right.units <= band.right.units
            &&& forall|i: int| #![trigger floats[i]]
                0 <= i < floats.len() && is_beside(floats[i], y.units as int) ==> !meets(
                    floats[i],
                    b.left.units as int,
                    b.right.units as int,
                )
            &&& (forall|i: int| #![trigger floats[i]]
                0 <= i < floats.len() && is_beside(floats[i], y.units as int) ==> !meets(
                    floats[i],
                    band.left.units as int,
                    band.right.units as int,
                )) ==> b == band
        }),
{
    lemma_narrowed(floats, 0, y, band);
}

/// Beside a float that it meets, a line keeps the side that the float leaves to text; where that are
/// both sides, the wider one.
pub proof fn law_text_takes_the_wider_side(band: LineBand, f: ActiveFloat, y: Pt)
    requires
        is_length(right_of(f)),
        is_beside(f, y.units as int),
        meets(f, band.left.units as int, band.right.units as int),
        is_length(f.page_x.units - band.left.units),
        is_length(band.right.units - right_of(f)),
    ensures
        ({
            let b = narrow(band, f, y);
            let left = f.page_x.units - band.left.units;
            let right = band.right.units - right_of(f);
            &&& b.narrowed
            &&& b.left == band.left && b.right == f.page_x || b.left.units == right_of(f) && b.right
                == band.right
            &&& b.right.units - b.left.units == match f.wrap_text {
                WrapTextSide::Left => left,
                WrapTextSide::Right => right,
                _ => if left >= right {
                    left
                } else {
                    right
                },
            }
        }),
{
}

/// How many of the floats before `n` keep all text away from a height below `y`.
spec fn ahead(floats: Seq<ActiveFloat>, n: int, y: int) -> int
    decreases n,
{
    if n <= 0 {
        0
    } else {
        ahead(floats, n - 1, y) + if floats[n - 1].vertical_exclusion && floats[n
            - 1].page_y_end.units > y {
            1int
        } else {
            0
        }
    }
}

proof fn lemma_ahead(floats: Seq<ActiveFloat>, n: int, a: int, b: int)
    requires
        a <= b,
        0 <= n <= floats.len(),
    ensures
        0 <= ahead(floats, n, b) <= ahead(floats, n, a) <= n,
        forall|k: int| #![trigger floats[k]]
            0 <= k < n && floats[k].vertical_exclusion && a < floats[k].page_y_end.units <= b
                ==> ahead(floats, n, b) < ahead(floats, n, a),
    decreases n,
{
    if n > 0 {
        lemma_ahead(floats, n - 1, a, b);
        let last = floats[n - 1];
    }
}

/// One pass moves down past what stands in the way, if anything does.
proof fn lemma_clear_pass(floats: Seq<ActiveFloat>, k: int, y: Pt, h: Pt)
    requires
        0 <= k <= floats.len(),
    ensures
        ({
            let next = clear_pass(floats, k, y, h);
            &&& y.units <= next.units
            &&& next == y ==> forall|i: int| #![trigger floats[i]]
                k <= i < floats.len() ==> !excludes(floats[i], y, h)
            &&& next != y ==> exists|i: int| #![trigger floats[i]]
                k <= i < floats.len() && floats[i].vertical_exclusion && floats[i].page_y_end
                    == next && y.units < next.units
        }),
    decreases floats.len() - k,
{
    if k < floats.len() {
        let f = floats[k];
        let moved = if excludes(f, y, h) {
            f.page_y_end
        } else {
            y
        };
        lemma_clear_pass(floats, k + 1, moved, h);
        let next = clear_pass(floats, k, y, h);
        if next == y {
            assert forall|i: int| #![trigger floats[i]] k <= i < floats.len() implies !excludes(
                floats[i],
                y,
                h,
            ) by {
                if i > k {
                    assert(clear_pass(floats, k + 1, moved, h) == moved);
                }
            }
        } else if next == moved {
            assert(floats[k].vertical_exclusion && floats[k].page_y_end == next);
        }
    }
}

proof fn lemma_clear_rounds(floats: Seq<ActiveFloat>, rounds: int, y: Pt, h: Pt)
    requires
        ahead(floats, floats.len() as int, y.units as int) <= rounds,
    ensures
        ({
            let r = clear_rounds(floats, rounds, y, h);
            &&& y.units <= r.units
            &&& forall|i: int| #![trigger floats[i]]
                0 <= i < floats.len() ==> !excludes(floats[i], r, h)
            &&& r == y || exists|i: int| #![trigger floats[i]]
                0 <= i < floats.len() && floats[i].vertical_exclusion && floats[i].page_y_end == r
        }),
    decreases rounds,
{
    let n = floats.len() as int;
    lemma_clear_pass(floats, 0, y, h);
    let next = clear_pass(floats, 0, y, h);
    lemma_ahead(floats, n, y.units as int, y.units as int);
    if next != y {
        lemma_ahead(floats, n, y.units as int, next.units as int);
        let i = choose|i: int| #![trigger floats[i]]
            0 <= i < n && floats[i].vertical_exclusion && floats[i].page_y_end == next;
        assert(ahead(floats, n, next.units as int) < ahead(floats, n, y.units as int)) by {
            let f = floats[i];
        }
        assert(rounds > 0);
        lemma_clear_rounds(floats, rounds - 1, next, h);
        let r = clear_rounds(floats, rounds, y, h);
        assert(r == clear_rounds(floats, rounds - 1, next, h));
        if r == next {
            assert(floats[i].page_y_end == r);
        }
    } else if rounds <= 0 {
        assert(clear_rounds(floats, rounds, y, h) == y);
    }
}

/// A line moves down until it meets no float that keeps all text away, and no further: it stays where
/// it is, or it stands at the lower edge of such a float.
pub proof fn law_lines_stand_clear_of_bands(floats: Seq<ActiveFloat>, y: Pt, h: Pt)
    requires
        is_length(y.units + h.units),
        forall|k: int| #![trigger floats[k]]
            0 <= k < floats.len() ==> is_length(floats[k].page_y_end.units + h.units),
    ensures
        ({
            let r = clear_exclusions(floats, y, h);
            &&& y.units <= r.units
            &&& forall|i: int| #![trigger floats[i]]
                0 <= i < floats.len() && floats[i].vertical_exclusion ==> r.units + h.units
                    <= floats[i].page_y_start.units || floats[i].page_y_end.units <= r.units
            &&& r == y || exists|i: int| #![trigger floats[i]]
                0 <= i < floats.len() && floats[i].vertical_exclusion && floats[i].page_y_end == r
        }),
{
    lemma_ahead(floats, floats.len() as int, y.units as int, y.units as int);
    lemma_clear_rounds(floats, floats.len() as int, y, h);
    let r = clear_exclusions(floats, y, h);
    assert forall|i: int| #![trigger floats[i]] 0 <= i < floats.len()
        && floats[i].vertical_exclusion implies r.units + h.units <= floats[i].page_y_start.units
        || floats[i].page_y_end.units <= r.units by {
        assert(!excludes(floats[i], r, h));
        if r != y {
            let j = choose|j: int| #![trigger floats[j]]
                0 <= j < floats.len() && floats[j].vertical_exclusion && floats[j].page_y_end == r;
            assert(is_length(floats[j].page_y_end.units + h.units));
        }
    }
}

/// How far the fragments `a..b` reach.
pub open spec fn reach(fragments: Seq<Fragment>, a: int, b: int) -> int
    decreases b - a,
{
    if a >= b {
        0
    } else {
        reach(fragments, a, b - 1) + fragments[b - 1].advance().units
    }
}

/// Whether the fragments from `a` on reach lengths, from `x` on, and what has to fit does too.
pub open spec fn reaches_lengths(fragments: Seq<Fragment>, a: int, x: int) -> bool {
    forall|b: int| #![trigger reach(fragments, a, b)]
        a <= b <= fragments.len() ==> is_length(x + reach(fragments, a, b)) && (b < fragments.len()
            ==> is_length(x + reach(fragments, a, b) + fragments[b].fit_width().units))
}

proof fn lemma_line_end(fragments: Seq<Fragment>, i: int, j: int, used: Pt, available: Pt)
    requires
        0 <= i < j <= fragments.len(),
        reaches_lengths(fragments, i, 0),
        used.units == reach(fragments, i, j),
    ensures
        ({
            let end = line_end_from(fragments, j, used, available);
            &&& j <= end <= fragments.len()
            &&& forall|k: int| #![trigger fragments[k]]
                j <= k < end && fragments[k].fit_width().units > 0 ==> reach(fragments, i, k)
                    + fragments[k].fit_width().units <= available.units
            &&& forall|k: int| #![trigger fragments[k]]
                j <= k < end - 1 ==> !fragments[k].ends_line()
            &&& end == fragments.len() || (end > j && fragments[end - 1].ends_line()) || (
            fragments[end].fit_width().units > 0 && reach(fragments, i, end)
                + fragments[end].fit_width().units > available.units)
        }),
    decreases fragments.len() - j,
{
    if j < fragments.len() {
        assert(is_length(0 + reach(fragments, i, j)));
        assert(is_length(0 + reach(fragments, i, j + 1)));
        if !(fragments[j].fit_width().units > 0 && used.plus(fragments[j].fit_width()).units
            > available.units) && !fragments[j].ends_line() {
            lemma_line_end(
                fragments,
                i,
                j + 1,
                used.plus(fragments[j].advance()),
                available,
            );
        }
    }
}

/// A line takes one fragment at least, and then all that fit into the available width one after
/// another; it ends after a break, or where the next fragment does not fit.
pub proof fn law_a_line_takes_what_fits(fragments: Seq<Fragment>, i: int, available: Pt)
    requires
        0 <= i < fragments.len(),
        reaches_lengths(fragments, i, 0),
    ensures
        ({
            let end = line_end(fragments, i, available);
            &&& i < end <= fragments.len()
            &&& forall|k: int| #![trigger fragments[k]]
                i < k < end && fragments[k].fit_width().units > 0 ==> reach(fragments, i, k)
                    + fragments[k].fit_width().units <= available.units
            &&& forall|k: int| #![trigger fragments[k]]
                i <= k < end - 1 ==> !fragments[k].ends_line()
            &&& end == fragments.len() || fragments[end - 1].ends_line() || (
            fragments[end].fit_width().units > 0 && reach(fragments, i, end)
                + fragments[end].fit_width().units > available.units)
        }),
{
    assert(reach(fragments, i, i) == 0);
    assert(reach(fragments, i, i + 1) == fragments[i].advance().units);
    assert(is_length(0 + reach(fragments, i, i + 1)));
    if !fragments[i].ends_line() {
        lemma_line_end(fragments, i, i + 1, fragments[i].advance(), available);
    }
}

/// Whether a command draws a fragment that starts at `x` and stands on the line `baseline`.
pub open spec fn draws_at(command: DrawCommand, f: Fragment, x: int, baseline: int) -> bool {
    match f {
        Fragment::Text { text, font, color, baseline_offset, .. } => command
            matches DrawCommand::Text { position, text: t, font: g, color: k } && {
            &&& t == text
            &&& g == font.font
            &&& k == color
            &&& position.x.units == x
            &&& position.y.units == baseline + baseline_offset.units
        },
        Fragment::Image { size, image } => command matches DrawCommand::Image { rect, image: m } && {
            &&& m == image
            &&& rect.size == size
            &&& rect.origin.x.units == x
            &&& rect.origin.y.units + size.height.units == baseline
        },
        Fragment::Emoji { size, image } => command matches DrawCommand::Image { rect, image: m } && {
            &&& m == image
            &&& rect.size == size
            &&& rect.origin.x.units == x
            &&& rect.origin.y.units + size.height.units == baseline
        },
        Fragment::InlineGraphic { size, path } => command matches DrawCommand::Path { rect, path: m }
            && {
            &&& m == path
            &&& rect.size == size
            &&& rect.origin.x.units == x
            &&& rect.origin.y.units + size.height.units == baseline
        },
        _ => false,
    }
}

/// Whether a fragment is painted.
pub open spec fn is_painted(f: Fragment) -> bool {
    f is Text || f is Image || f is Emoji || f is InlineGraphic
}

/// Whether the fragments `a..b` stand at lengths on the line `baseline`.
pub open spec fn heights_fit(fragments: Seq<Fragment>, a: int, b: int, baseline: int) -> bool {
    forall|j: int| #![trigger fragments[j]]
        a <= j < b ==> match fragments[j] {
            Fragment::Text { baseline_offset, .. } => is_length(baseline + baseline_offset.units),
            Fragment::Image { size, .. } => is_length(baseline - size.height.units),
            Fragment::Emoji { size, .. } => is_length(baseline - size.height.units),
            Fragment::InlineGraphic { size, .. } => is_length(baseline - size.height.units),
            _ => true,
        }
}

/// Where in the commands after `acc` the fragment `j` is drawn.
pub open spec fn painted_before(fragments: Seq<Fragment>, a: int, j: int) -> int
    decreases j - a,
{
    if j <= a {
        0
    } else {
        painted_before(fragments, a, j - 1) + if is_painted(fragments[j - 1]) {
            1int
        } else {
            0
        }
    }
}

/// Whether the commands from number `at` on draw the fragments `a..b` one after another from `x` on.
pub open spec fn draws_fragments(
    commands: Seq<DrawCommand>,
    at: int,
    fragments: Seq<Fragment>,
    a: int,
    b: int,
    x: int,
    baseline: int,
) -> bool {
    &&& at + painted_before(fragments, a, b) <= commands.len()
    &&& forall|j: int| #![trigger fragments[j]]
        a <= j < b && is_painted(fragments[j]) ==> at <= at + painted_before(fragments, a, j) < at
            + painted_before(fragments, a, b) && draws_at(
            commands[at + painted_before(fragments, a, j)],
            fragments[j],
            x + reach(fragments, a, j),
            baseline,
        )
}

proof fn lemma_painted_before(fragments: Seq<Fragment>, a: int, i: int, j: int)
    requires
        a <= i <= j,
    ensures
        0 <= painted_before(fragments, a, i) <= painted_before(fragments, a, j),
    decreases j - a,
{
    if i < j {
        lemma_painted_before(fragments, a, i, j - 1);
    } else if a < i {
        lemma_painted_before(fragments, a, i - 1, j - 1);
    }
}

proof fn lemma_line_commands(
    fragments: Seq<Fragment>,
    a: int,
    j: int,
    b: int,
    x: Pt,
    left: int,
    baseline: Pt,
    at: int,
    acc: Seq<DrawCommand>,
)
    requires
        0 <= a <= j <= b <= fragments.len(),
        0 <= at,
        reaches_lengths(fragments, a, left),
        heights_fit(fragments, a, b, baseline.units as int),
        x.units == left + reach(fragments, a, j),
        acc.len() == at + painted_before(fragments, a, j),
        draws_fragments(acc, at, fragments, a, j, left, baseline.units as int),
    ensures
        ({
            let r = line_commands(fragments, j, b, x, baseline, acc);
            &&& r.len() == at + painted_before(fragments, a, b)
            &&& draws_fragments(r, at, fragments, a, b, left, baseline.units as int)
            &&& acc.len() <= r.len()
            &&& forall|k: int| #![trigger r[k]] 0 <= k < acc.len() ==> r[k] == acc[k]
        }),
    decreases b - j,
{
    if j < b {
        let f = fragments[j];
        assert(is_length(left + reach(fragments, a, j)));
        assert(is_length(left + reach(fragments, a, j + 1)));
        let next = match fragment_command(f, x, baseline) {
            Some(command) => acc.push(command),
            None => acc,
        };
        lemma_painted_before(fragments, a, j, j + 1);
        assert forall|k: int| #![trigger fragments[k]] a <= k < j + 1 && is_painted(
            fragments[k],
        ) implies at <= at + painted_before(fragments, a, k) < at + painted_before(
            fragments,
            a,
            j + 1,
        ) && draws_at(
            next[at + painted_before(fragments, a, k)],
            fragments[k],
            left + reach(fragments, a, k),
            baseline.units as int,
        ) by {
            lemma_painted_before(fragments, a, a, k);
            lemma_painted_before(fragments, a, k, j);
            if k < j {
                lemma_painted_before(fragments, a, k + 1, j);
            }
        }
        lemma_line_commands(
            fragments,
            a,
            j + 1,
            b,
            x.plus(f.advance()),
            left,
            baseline,
            at,
            next,
        );
        let r = line_commands(fragments, j, b, x, baseline, acc);
        assert forall|k: int| #![trigger r[k]] 0 <= k < acc.len() implies r[k] == acc[k] by {
            assert(next[k] == acc[k]);
        }
    }
}

/// The fragments of a line are drawn one after another: each starts where the one before it ends, from
/// `left` on, and stands on the line's baseline.
pub proof fn law_fragments_stand_side_by_side(
    fragments: Seq<Fragment>,
    a: int,
    b: int,
    left: Pt,
    baseline: Pt,
    before: Seq<DrawCommand>,
)
    requires
        0 <= a <= b <= fragments.len(),
        reaches_lengths(fragments, a, left.units as int),
        heights_fit(fragments, a, b, baseline.units as int),
    ensures
        ({
            let r = line_commands(fragments, a, b, left, baseline, before);
            &&& r.len() == before.len() + painted_before(fragments, a, b)
            &&& forall|k: int| #![trigger r[k]] 0 <= k < before.len() ==> r[k] == before[k]
            &&& draws_fragments(
                r,
                before.len() as int,
                fragments,
                a,
                b,
                left.units as int,
                baseline.units as int,
            )
        }),
{
    assert(reach(fragments, a, a) == 0);
    lemma_line_commands(
        fragments,
        a,
        a,
        b,
        left,
        left.units as int,
        baseline,
        before.len() as int,
        before,
    );
}

/// The lower edge of the lines before `k`.
spec fn bottom_before(p: PlacedView, k: int) -> Pt {
    if k <= 0 {
        Pt::zero()
    } else {
        p.lines[k - 1].bottom()
    }
}

/// How many commands draw the lines before `k`.
pub open spec fn commands_before(p: PlacedView, k: int) -> int {
    if k <= 0 {
        0
    } else {
        p.lines[k - 1].commands_end as int
    }
}

/// Whether line `k` is the one that follows the lines before it, and the commands are its own.
spec fn line_follows(
    fragments: Seq<Fragment>,
    ctx: PlaceView,
    style: ParagraphStyle,
    p: PlacedView,
    k: int,
) -> bool {
    let line = p.lines[k];
    let n = commands_before(p, k);
    &&& PlacedLine { commands_end: 0, ..line } == next_line(
        fragments,
        ctx,
        style,
        line.start as int,
        k,
        bottom_before(p, k),
    )
    &&& line.start == if k == 0 {
        0
    } else {
        p.lines[k - 1].end as int
    }
    &&& n <= line.commands_end <= p.commands.len()
    &&& p.commands.take(line.commands_end as int) == line_commands(
        fragments,
        line.start as int,
        line.end as int,
        line.left,
        line.top.plus(line.ascent),
        p.commands.take(n),
    )
}

proof fn lemma_commands_follow(
    fragments: Seq<Fragment>,
    j: int,
    end: int,
    x: Pt,
    baseline: Pt,
    acc: Seq<DrawCommand>,
)
    ensures
        ({
            let r = line_commands(fragments, j, end, x, baseline, acc);
            acc.len() <= r.len() <= acc.len() + if j < end {
                end - j
            } else {
                0
            } && r.take(acc.len() as int) == acc
        }),
    decreases end - j,
{
    if j < end {
        let next = match fragment_command(fragments[j], x, baseline) {
            Some(command) => acc.push(command),
            None => acc,
        };
        lemma_commands_follow(
            fragments,
            j + 1,
            end,
            x.plus(fragments[j].advance()),
            baseline,
            next,
        );
        let r = line_commands(fragments, j, end, x, baseline, acc);
        assert(r.take(acc.len() as int) =~= acc) by {
            assert forall|k: int| 0 <= k < acc.len() implies r[k] == acc[k] by {
                assert(r.take(next.len() as int)[k] == next[k]);
            }
        }
    } else {
        assert(acc.take(acc.len() as int) =~= acc);
    }
}

proof fn lemma_one_more_line(
    fragments: Seq<Fragment>,
    ctx: PlaceView,
    style: ParagraphStyle,
    p: PlacedView,
    line: PlacedLine,
)
    requires
        forall|k: int| #![trigger line_follows(fragments, ctx, style, p, k)]
            0 <= k < p.lines.len() ==> line_follows(fragments, ctx, style, p, k),
        p.commands.len() <= line.start,
        line.start <= line.end <= usize::MAX,
        line.commands_end == 0,
        p.lines.len() > 0 ==> p.lines[p.lines.len() - 1].commands_end == p.commands.len(),
        p.lines.len() == 0 ==> p.commands.len() == 0,
        line == next_line(
            fragments,
            ctx,
            style,
            line.start as int,
            p.lines.len() as int,
            bottom_before(p, p.lines.len() as int),
        ),
        line.start == if p.lines.len() == 0 {
            0
        } else {
            p.lines[p.lines.len() - 1].end as int
        },
    ensures
        ({
            let next = with_line(fragments, p, line);
            &&& forall|k: int| #![trigger line_follows(fragments, ctx, style, next, k)]
                0 <= k < next.lines.len() ==> line_follows(fragments, ctx, style, next, k)
            &&& next.commands.len() <= line.end
            &&& next.lines[next.lines.len() - 1].commands_end == next.commands.len()
        }),
{
    let next = with_line(fragments, p, line);
    let n = p.lines.len() as int;
    lemma_commands_follow(
        fragments,
        line.start as int,
        line.end as int,
        line.left,
        line.top.plus(line.ascent),
        p.commands,
    );
    assert forall|k: int|
        #![trigger line_follows(fragments, ctx, style, next, k)]
        0 <= k < next.lines.len() implies line_follows(
        fragments,
        ctx,
        style,
        next,
        k,
    ) by {
        if k < n {
            let own = p.lines[k];
            assert(line_follows(fragments, ctx, style, p, k));
            assert(next.lines[k] == own);
            if k > 0 {
                assert(next.lines[k - 1] == p.lines[k - 1]);
            }
            let m = commands_before(p, k);
            assert(0 <= m) by {
                if k > 0 {
                    let before = p.lines[k - 1];
                }
            }
            assert(next.commands.take(own.commands_end as int) =~= p.commands.take(
                own.commands_end as int,
            )) by {
                assert forall|i: int| 0 <= i < own.commands_end implies next.commands[i]
                    == p.commands[i] by {
                    assert(next.commands.take(p.commands.len() as int)[i] == p.commands[i]);
                }
            }
            assert(next.commands.take(m) =~= p.commands.take(m)) by {
                assert forall|i: int| 0 <= i < m implies next.commands[i] == p.commands[i] by {
                    assert(next.commands.take(p.commands.len() as int)[i] == p.commands[i]);
                }
            }
        } else {
            if n > 0 {
                assert(next.lines[n - 1] == p.lines[n - 1]);
            }
            assert(next.commands.take(next.commands.len() as int) =~= next.commands);
        }
    }
}

proof fn lemma_lines_follow(
    fragments: Seq<Fragment>,
    ctx: PlaceView,
    style: ParagraphStyle,
    i: int,
    bottom: Pt,
    p: PlacedView,
)
    requires
        fragments.len() <= usize::MAX,
        0 <= i <= fragments.len(),
        forall|k: int| #![trigger line_follows(fragments, ctx, style, p, k)]
            0 <= k < p.lines.len() ==> line_follows(fragments, ctx, style, p, k),
        p.commands.len() <= i,
        p.lines.len() > 0 ==> p.lines[p.lines.len() - 1].commands_end == p.commands.len(),
        p.lines.len() == 0 ==> p.commands.len() == 0,
        bottom == bottom_before(p, p.lines.len() as int),
        i == if p.lines.len() == 0 {
            0
        } else {
            p.lines[p.lines.len() - 1].end as int
        },
    ensures
        ({
            let r = place_from(fragments, ctx, style, i, bottom, p);
            forall|k: int| #![trigger line_follows(fragments, ctx, style, r, k)]
                0 <= k < r.lines.len() ==> line_follows(fragments, ctx, style, r, k)
        }),
    decreases fragments.len() - i,
{
    if i < fragments.len() {
        let line = next_line(fragments, ctx, style, i, p.lines.len() as int, bottom);
        let r = place_from(fragments, ctx, style, i, bottom, p);
        if line.end <= i || line.end > fragments.len() {
            assert(r == p);
        } else {
            lemma_one_more_line(fragments, ctx, style, p, line);
            assert(r == place_from(
                fragments,
                ctx,
                style,
                line.end as int,
                line.bottom(),
                with_line(fragments, p, line),
            ));
            lemma_lines_follow(
                fragments,
                ctx,
                style,
                line.end as int,
                line.bottom(),
                with_line(fragments, p, line),
            );
        }
    }
}

proof fn lemma_placed_follows(fragments: Seq<Fragment>, ctx: PlaceView, style: ParagraphStyle)
    requires
        fragments.len() <= usize::MAX,
    ensures
        ({
            let r = placed(fragments, ctx, style);
            forall|k: int| #![trigger line_follows(fragments, ctx, style, r, k)]
                0 <= k < r.lines.len() ==> line_follows(fragments, ctx, style, r, k)
        }),
{
    let none = PlacedView { lines: Seq::empty(), commands: Seq::empty() };
    if fragments.len() == 0 {
        let line = next_line(fragments, ctx, style, 0, 0, Pt::zero());
        crate::ink::lemma_next_line(fragments, ctx, style, 0, 0, Pt::zero());
        lemma_one_more_line(fragments, ctx, style, none, line);
    } else {
        lemma_lines_follow(fragments, ctx, style, 0, Pt::zero(), none);
    }
}

/// Whether no fragment reaches back to the left.
pub open spec fn run_forward(fragments: Seq<Fragment>) -> bool {
    forall|j: int| #![trigger fragments[j]]
        0 <= j < fragments.len() ==> 0 <= fragments[j].advance().units
}

/// The height that the top border of a paragraph takes: its line and the space below it.
pub open spec fn room_at_top(style: ParagraphStyle) -> int {
    match style.borders {
        Some(b) => match b.top {
            Some(line) => line.width.units + line.space.units,
            None => 0,
        },
        None => 0,
    }
}

/// The height that the bottom border of a paragraph takes: its line and the space above it.
pub open spec fn room_at_bottom(style: ParagraphStyle) -> int {
    match style.borders {
        Some(b) => match b.bottom {
            Some(line) => line.width.units + line.space.units,
            None => 0,
        },
        None => 0,
    }
}

/// Where the text of a paragraph starts on its page.
pub open spec fn top_of_text(ctx: PlaceView, style: ParagraphStyle) -> int {
    ctx.page_y.units + style.space_before.units + room_at_top(style)
}

/// How far line number `k` of a paragraph is indented: the first line by its own indent more, and the
/// lines beside a drop cap by the width of the cap.
pub open spec fn indent_of(style: ParagraphStyle, k: int) -> int {
    style.indent_left.units + (if k == 0 {
        style.indent_first_line.units as int
    } else {
        0
    }) + (match style.drop_cap {
        Some(cap) => if k < cap.lines {
            cap.width.units as int
        } else {
            0
        },
        None => 0,
    })
}

/// Whether the indents of line number `k` add up to lengths.
pub open spec fn has_indent(style: ParagraphStyle, k: int) -> bool {
    is_length(indent_of(style, k)) && (k == 0 ==> is_length(
        style.indent_left.units + style.indent_first_line.units,
    ))
}

/// Whether the column and the paragraph's indents in it are lengths.
pub open spec fn has_edges(ctx: PlaceView, style: ParagraphStyle, k: int) -> bool {
    &&& is_length(ctx.page_y.units + style.space_before.units)
    &&& is_length(top_of_text(ctx, style))
    &&& is_length(room_at_top(style))
    &&& has_indent(style, k)
    &&& is_length(ctx.page_x.units + indent_of(style, k))
    &&& is_length(ctx.page_x.units + ctx.width.units)
    &&& is_length(ctx.page_x.units + ctx.width.units - style.indent_right.units)
    &&& floats_have_edges(ctx.floats)
}

/// Whether a line stands at a place that no limit has cut off.
pub open spec fn has_own_place(line: PlacedLine) -> bool {
    &&& i64::MIN < line.top.units < i64::MAX
    &&& i64::MIN < line.left.units < i64::MAX
    &&& is_length(line.top.units + line.ascent.units)
}

pub(crate) proof fn lemma_reach_forward(fragments: Seq<Fragment>, a: int, b: int)
    requires
        0 <= a,
        b <= fragments.len(),
        run_forward(fragments),
    ensures
        0 <= reach(fragments, a, b),
    decreases b - a,
{
    if a < b {
        lemma_reach_forward(fragments, a, b - 1);
    }
}

/// The right end of the stretch of the page that a line may take.
spec fn line_right(ctx: PlaceView, style: ParagraphStyle, k: int, y: Pt) -> int {
    narrow_all(
        ctx.floats,
        0,
        y,
        LineBand {
            left: ctx.page_x.plus(line_indent(&style, k as usize)),
            right: ctx.page_x.plus(ctx.width).minus(style.indent_right),
            narrowed: false,
        },
    ).right.units as int
}

/// Every line stands between the indents of its paragraph and beside the floats at its height, on the
/// stretch of the page from its left edge to the returned right edge: all of the room between the
/// indents, where no float has taken any. Its fragments are drawn one after another from its left
/// edge on, on its baseline, and end before the right edge; only what is wider than the stretch by
/// itself does not.
pub proof fn law_lines_stand_beside_floats(
    fragments: Seq<Fragment>,
    ctx: PlaceView,
    style: ParagraphStyle,
    k: int,
) -> (right: int)
    requires
        fragments.len() <= usize::MAX,
        0 <= k < placed(fragments, ctx, style).lines.len() <= usize::MAX,
        has_edges(ctx, style, k),
        run_forward(fragments),
        ({
            let line = placed(fragments, ctx, style).lines[k];
            &&& has_own_place(line)
            &&& reaches_lengths(fragments, line.start as int, 0)
            &&& reaches_lengths(fragments, line.start as int, line.left.units as int)
            &&& heights_fit(
                fragments,
                line.start as int,
                line.end as int,
                line.top.units + line.ascent.units,
            )
        }),
    ensures
        ({
            let p = placed(fragments, ctx, style);
            let line = p.lines[k];
            let left = ctx.page_x.units + line.left.units;
            &&& indent_of(style, k) <= line.left.units
            &&& right <= ctx.page_x.units + ctx.width.units - style.indent_right.units
            &&& !line.narrowed ==> line.left.units == indent_of(style, k) && right
                == ctx.page_x.units + ctx.width.units - style.indent_right.units
            &&& forall|i: int| #![trigger ctx.floats[i]]
                0 <= i < ctx.floats.len() && is_beside(
                    ctx.floats[i],
                    top_of_text(ctx, style) + line.top.units,
                ) ==> !meets(ctx.floats[i], left, right)
            &&& line.start <= line.end <= fragments.len()
            &&& forall|j: int| #![trigger fragments[j]]
                line.start <= j < line.end && fragments[j].fit_width().units > 0 && (j > line.start
                    || fragments[j].fit_width().units <= right - left) ==> left + reach(
                    fragments,
                    line.start as int,
                    j,
                ) + fragments[j].fit_width().units <= right
            &&& draws_fragments(
                p.commands,
                commands_before(p, k),
                fragments,
                line.start as int,
                line.end as int,
                line.left.units as int,
                line.top.units + line.ascent.units,
            )
        }),
{
    let p = placed(fragments, ctx, style);
    let line = p.lines[k];
    lemma_placed_follows(fragments, ctx, style);
    assert(line_follows(fragments, ctx, style, p, k));
    let i = line.start as int;
    let bottom = bottom_before(p, k);
    lemma_starts(fragments, ctx, style, p, k);
    let text_top = crate::paragraph::text_top(ctx.page_y, style);
    assert(text_top.units == top_of_text(ctx, style));
    let first = text_top.plus(bottom);
    let tried = line_at(fragments, ctx, style, i, k, text_top, first);
    let cleared = clear_exclusions(ctx.floats, first, tried.height);
    let y = if cleared == first {
        first
    } else {
        cleared
    };
    assert(PlacedLine { commands_end: 0, ..line } == line_at(
        fragments,
        ctx,
        style,
        i,
        k,
        text_top,
        y,
    ));
    assert(line_indent(&style, k as usize).units == indent_of(style, k));
    let band = LineBand {
        left: ctx.page_x.plus(line_indent(&style, k as usize)),
        right: ctx.page_x.plus(ctx.width).minus(style.indent_right),
        narrowed: false,
    };
    let b = narrow_all(ctx.floats, 0, y, band);
    lemma_narrowed(ctx.floats, 0, y, band);
    let right = line_right(ctx, style, k, y);
    assert(right == b.right.units);
    assert(y.units == top_of_text(ctx, style) + line.top.units);
    assert(b.left.units == ctx.page_x.units + line.left.units);
    if i < fragments.len() {
        law_a_line_takes_what_fits(fragments, i, b.right.minus(b.left));
    }
    assert forall|j: int| #![trigger fragments[j]]
        line.start <= j < line.end && fragments[j].fit_width().units > 0 && (j > line.start
            || fragments[j].fit_width().units <= right - b.left.units) implies b.left.units + reach(
        fragments,
        i,
        j,
    ) + fragments[j].fit_width().units <= right by {
        lemma_reach_forward(fragments, i, j);
    }
    let n = commands_before(p, k);
    let before = p.commands.take(n);
    assert(0 <= n <= p.commands.len());
    law_fragments_stand_side_by_side(
        fragments,
        i,
        line.end as int,
        line.left,
        line.top.plus(line.ascent),
        before,
    );
    let own = p.commands.take(line.commands_end as int);
    assert forall|j: int| #![trigger fragments[j]] i <= j < line.end && is_painted(
        fragments[j],
    ) implies own[n + painted_before(fragments, i, j)] == p.commands[n + painted_before(
        fragments,
        i,
        j,
    )] by {
        lemma_painted_before(fragments, i, i, j);
    }
    right
}

/// The lower edge of the lines before number `k`.
pub open spec fn bottom_of_lines(p: PlacedView, k: int) -> int {
    if k <= 0 {
        0
    } else {
        p.lines[k - 1].top.units + p.lines[k - 1].height.units
    }
}

/// Each line stands below the lines before it: directly below them, unless a float that keeps all
/// text away moves it down. A line of the returned height would have no such float beside it, and
/// this is the line's own height, unless it has moved down.
pub proof fn law_lines_stand_below_one_another(
    fragments: Seq<Fragment>,
    ctx: PlaceView,
    style: ParagraphStyle,
    k: int,
) -> (h: int)
    requires
        fragments.len() <= usize::MAX,
        0 <= k < placed(fragments, ctx, style).lines.len(),
        has_own_place(placed(fragments, ctx, style).lines[k]),
        is_length(ctx.page_y.units + style.space_before.units),
        is_length(room_at_top(style)),
        is_length(top_of_text(ctx, style)),
        is_length(bottom_of_lines(placed(fragments, ctx, style), k)),
        is_length(
            top_of_text(ctx, style) + bottom_of_lines(placed(fragments, ctx, style), k),
        ),
    ensures
        is_length(h),
        ({
            let p = placed(fragments, ctx, style);
            let line = p.lines[k];
            let y = top_of_text(ctx, style) + line.top.units;
            &&& bottom_of_lines(p, k) <= line.top.units
            &&& (forall|i: int| #![trigger ctx.floats[i]]
                0 <= i < ctx.floats.len() ==> !ctx.floats[i].vertical_exclusion)
                ==> bottom_of_lines(p, k) == line.top.units
            &&& line.top.units == bottom_of_lines(p, k) ==> h == line.height.units
            &&& is_length(y + h) ==> forall|i: int| #![trigger ctx.floats[i]]
                0 <= i < ctx.floats.len() && ctx.floats[i].vertical_exclusion ==> y + h
                    <= ctx.floats[i].page_y_start.units || ctx.floats[i].page_y_end.units <= y
        }),
{
    let p = placed(fragments, ctx, style);
    let line = p.lines[k];
    lemma_placed_follows(fragments, ctx, style);
    assert(line_follows(fragments, ctx, style, p, k));
    let bottom = bottom_before(p, k);
    let text_top = crate::paragraph::text_top(ctx.page_y, style);
    let first = text_top.plus(bottom);
    assert(bottom.units == bottom_of_lines(p, k));
    assert(first.units == top_of_text(ctx, style) + bottom.units);
    let tried = line_at(fragments, ctx, style, line.start as int, k, text_top, first);
    let floats = ctx.floats;
    let cleared = clear_exclusions(floats, first, tried.height);
    lemma_ahead(floats, floats.len() as int, first.units as int, first.units as int);
    lemma_clear_rounds(floats, floats.len() as int, first, tried.height);
    assert(cleared.units == top_of_text(ctx, style) + line.top.units);
    assert forall|i: int| #![trigger floats[i]] 0 <= i < floats.len()
        && floats[i].vertical_exclusion && is_length(cleared.units + tried.height.units) implies (
    cleared.units + tried.height.units <= floats[i].page_y_start.units
        || floats[i].page_y_end.units <= cleared.units) by {
        assert(!excludes(floats[i], cleared, tried.height));
    }
    tried.height.units as int
}

/// The extents of fragments hold each of theirs, and are each that of one of them or of `acc`.
proof fn lemma_extents(fragments: Seq<Fragment>, j: int, end: int, acc: LineExtent)
    requires
        0 <= j,
        end <= fragments.len(),
    ensures
        ({
            let e = extent_from(fragments, j, end, acc);
            &&& acc.ascent.units <= e.ascent.units
            &&& acc.scaled.units <= e.scaled.units
            &&& acc.fixed.units <= e.fixed.units
            &&& forall|i: int| #![trigger fragments[i]]
                j <= i < end ==> fragments[i].ascent().units <= e.ascent.units
                    && fragments[i].natural_height().units <= if fragments[i].is_scaled() {
                    e.scaled.units
                } else {
                    e.fixed.units
                }
            &&& e.ascent == acc.ascent || exists|i: int| #![trigger fragments[i]]
                j <= i < end && fragments[i].ascent() == e.ascent
            &&& e.scaled == acc.scaled || exists|i: int| #![trigger fragments[i]]
                j <= i < end && fragments[i].is_scaled() && fragments[i].natural_height()
                    == e.scaled
            &&& e.fixed == acc.fixed || exists|i: int| #![trigger fragments[i]]
                j <= i < end && !fragments[i].is_scaled() && fragments[i].natural_height()
                    == e.fixed
        }),
    decreases end - j,
{
    if j < end {
        let f = fragments[j];
        let next = if f.is_scaled() {
            LineExtent {
                ascent: acc.ascent.max(f.ascent()),
                scaled: acc.scaled.max(f.natural_height()),
                fixed: acc.fixed,
            }
        } else {
            LineExtent {
                ascent: acc.ascent.max(f.ascent()),
                scaled: acc.scaled,
                fixed: acc.fixed.max(f.natural_height()),
            }
        };
        lemma_extents(fragments, j + 1, end, next);
    }
}

/// The height of a fragment before line spacing.
pub open spec fn own_height(f: Fragment) -> int {
    match f {
        Fragment::Text { metrics, .. } => metrics.ascent.units + metrics.descent.units
            + metrics.leading.units,
        Fragment::Image { size, .. } => size.height.units as int,
        Fragment::InlineGraphic { size, .. } => size.height.units as int,
        Fragment::Emoji { size, .. } => size.height.units as int,
        Fragment::Tab { line_height, .. } => line_height.units as int,
        Fragment::PTab { line_height, .. } => line_height.units as int,
        Fragment::LineBreak { line_height } => line_height.units as int,
        _ => 0,
    }
}

/// How far a fragment reaches above its baseline.
pub open spec fn height_above(f: Fragment) -> int {
    match f {
        Fragment::Text { metrics, .. } => metrics.ascent.units as int,
        _ => own_height(f),
    }
}

/// Whether line spacing multiplies the height of a fragment: not that of images and drawings, nor of
/// text that asks to be left alone.
pub open spec fn is_spread(f: Fragment) -> bool {
    match f {
        Fragment::Text { font, .. } => font.auto_line_spacing
            == AutoLineSpacingContribution::Scaled,
        Fragment::Tab { .. } => true,
        Fragment::PTab { .. } => true,
        Fragment::LineBreak { .. } => true,
        _ => false,
    }
}

/// Whether the heights of text are lengths.
pub open spec fn texts_have_heights(fragments: Seq<Fragment>) -> bool {
    forall|i: int| #![trigger fragments[i]]
        0 <= i < fragments.len() ==> (match fragments[i] {
            Fragment::Text { metrics, .. } => is_length(
                metrics.ascent.units + metrics.descent.units,
            ) && is_length(own_height(fragments[i])),
            _ => true,
        })
}

/// `units` multiplied by a line spacing of `line` parts of 240, rounded down.
pub open spec fn is_spread_to(units: int, line: int, spread: int) -> bool {
    240 * spread <= units * line < 240 * spread + 240
}

/// The height of a line follows from the greatest heights among its fragments: of those that line
/// spacing leaves alone, and of those that proportional spacing multiplies. A line with nothing of
/// any height in it is as high as an empty line. Its baseline stands below its top as far as a
/// fragment reaches above the baseline, and no fragment reaches further.
pub proof fn law_lines_are_as_high_as_their_fragments(
    fragments: Seq<Fragment>,
    start: int,
    end: int,
    default_line_height: Pt,
    rule: LineSpacingRule,
) -> (r: (int, int))
    requires
        0 <= start <= end <= fragments.len(),
        texts_have_heights(fragments),
    ensures
        ({
            let (spread, plain) = r;
            let e = line_extent(fragments, start, end, default_line_height);
            let h = spaced_height(rule, e).units;
            let empty = forall|i: int| #![trigger fragments[i]]
                start <= i < end ==> own_height(fragments[i]) <= 0;
            &&& match rule {
                LineSpacingRule::Exact(exact) => h == exact.units,
                LineSpacingRule::AtLeast(least) => h >= least.units && h >= spread && h >= plain
                    && (h == least.units || h == spread || h == plain),
                LineSpacingRule::Auto { line } => forall|s: int|
                    #![trigger is_spread_to(spread, line as int, s)]
                    is_spread_to(spread, line as int, s) && is_length(s) ==> h >= s && h >= plain
                        && (h == s || h == plain),
            }
            &&& empty ==> spread == default_line_height.units && plain == 0 && e.ascent
                == default_line_height
            &&& !empty ==> forall|i: int| #![trigger fragments[i]]
                start <= i < end ==> height_above(fragments[i]) <= e.ascent.units && own_height(
                    fragments[i],
                ) <= if is_spread(fragments[i]) {
                    spread
                } else {
                    plain
                }
            &&& !empty ==> e.ascent.units == 0 || exists|i: int| #![trigger fragments[i]]
                start <= i < end && height_above(fragments[i]) == e.ascent.units
            &&& !empty ==> spread == 0 || exists|i: int| #![trigger fragments[i]]
                start <= i < end && is_spread(fragments[i]) && own_height(fragments[i]) == spread
            &&& !empty ==> plain == 0 || exists|i: int| #![trigger fragments[i]]
                start <= i < end && !is_spread(fragments[i]) && own_height(fragments[i]) == plain
        }),
{
    let zero = LineExtent { ascent: Pt::zero(), scaled: Pt::zero(), fixed: Pt::zero() };
    lemma_extents(fragments, start, end, zero);
    let f = extent_from(fragments, start, end, zero);
    assert forall|i: int| #![trigger fragments[i]] start <= i < end implies fragments[i].ascent().units
        == height_above(fragments[i]) && fragments[i].natural_height().units == own_height(
        fragments[i],
    ) && fragments[i].is_scaled() == is_spread(fragments[i]) by {}
    let e = line_extent(fragments, start, end, default_line_height);
    let h = spaced_height(rule, e).units;
    match rule {
        LineSpacingRule::Auto { line } => {
            let a = e.scaled.units as int;
            let n = line as int;
            let m = a * n;
            assert forall|s: int|
                #![trigger is_spread_to(a, n, s)]
                is_spread_to(a, n, s) && is_length(s) implies h >= s && h >= e.fixed.units && (h == s
                || h == e.fixed.units) by {
                assert(240 * s <= m < 240 * s + 240);
                assert(s == m / 240);
                assert(ratio(a, n, 240) == s);
            }
        },
        _ => {},
    }
    (e.scaled.units as int, e.fixed.units as int)
}

proof fn lemma_last_narrowed(lines: Seq<PlacedLine>, n: int)
    requires
        0 <= n <= lines.len(),
    ensures
        ({
            let r = last_narrowed(lines, n);
            &&& 0 <= r <= n
            &&& forall|k: int| #![trigger lines[k]] 0 <= k < n && lines[k].narrowed ==> k < r
            &&& r > 0 ==> lines[r - 1].narrowed
        }),
    decreases n,
{
    if n > 0 && !lines[n - 1].narrowed {
        lemma_last_narrowed(lines, n - 1);
    }
}

/// The lines that stay together at the start of a paragraph reach over all lines beside its drop cap,
/// and over all lines that a float has taken room from, and end with one of these.
pub proof fn law_lines_beside_floats_stay_together(p: PlacedView, style: ParagraphStyle)
    ensures
        ({
            let n = p.unbreakable_prefix(style);
            let cap = match style.drop_cap {
                Some(cap) => cap.lines as int,
                None => 0,
            };
            &&& n >= cap
            &&& forall|k: int| #![trigger p.lines[k]]
                0 <= k < p.lines.len() && p.lines[k].narrowed ==> k < n
            &&& n == cap || (0 < n <= p.lines.len() && p.lines[n - 1].narrowed)
        }),
{
    lemma_last_narrowed(p.lines, p.lines.len() as int);
}

/// References to footnotes are counted one by one: those in two runs of fragments are those in the one
/// and those in the other.
pub proof fn law_references_add_up(fragments: Seq<Fragment>, a: int, b: int, c: int)
    requires
        0 <= a <= b <= c <= fragments.len(),
    ensures
        count_references(fragments, a, c, 0) == count_references(fragments, a, b, 0)
            + count_references(fragments, b, c, 0),
        a < fragments.len() ==> count_references(fragments, a, a + 1, 0) == if fragments[
            a
        ].is_footnote_reference() {
            1int
        } else {
            0
        },
        count_references(fragments, a, a, 0) == 0,
    decreases b - a,
{
    lemma_counted_on(fragments, a, c, 0, 0);
    if a < fragments.len() {
        reveal_with_fuel(count_references, 2);
    }
    if a < b {
        law_references_add_up(fragments, a + 1, b, c);
        let one = if fragments[a].is_footnote_reference() {
            1int
        } else {
            0
        };
        lemma_counted_on(fragments, a + 1, b, one, 0);
        lemma_counted_on(fragments, a + 1, c, one, 0);
    }
}

proof fn lemma_counted_on(fragments: Seq<Fragment>, a: int, b: int, more: int, acc: int)
    ensures
        count_references(fragments, a, b, acc + more) == count_references(fragments, a, b, acc)
            + more,
    decreases b - a,
{
    if a < b {
        let next = if fragments[a].is_footnote_reference() {
            acc + 1
        } else {
            acc
        };
        lemma_counted_on(fragments, a + 1, b, more, next);
    }
}

/// A line that follows others holds fragments after them.
proof fn lemma_starts(
    fragments: Seq<Fragment>,
    ctx: PlaceView,
    style: ParagraphStyle,
    p: PlacedView,
    k: int,
)
    requires
        fragments.len() <= usize::MAX,
        0 <= k < p.lines.len(),
        forall|i: int| #![trigger line_follows(fragments, ctx, style, p, i)]
            0 <= i < p.lines.len() ==> line_follows(fragments, ctx, style, p, i),
    ensures
        p.lines[k].start <= p.lines[k].end <= fragments.len(),
    decreases k,
{
    assert(line_follows(fragments, ctx, style, p, k));
    if k > 0 {
        lemma_starts(fragments, ctx, style, p, k - 1);
    }
    crate::ink::lemma_next_line(
        fragments,
        ctx,
        style,
        p.lines[k].start as int,
        k,
        bottom_before(p, k),
    );
}

} // verus!
