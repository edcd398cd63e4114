//! What the outlines of drawings look like.
use crate::geometry::{PtOffset, PtSize};
use crate::vml::{box_outline, oval_outline, CornerRatio, PathVerb};
use vstd::prelude::*;

verus! {

/// Whether `a` and `b` are no more than `n` apart.
pub open spec fn within(a: int, b: int, n: int) -> bool {
    a - b <= n && b - a <= n
}

/// Whether a position is `(x, y)`.
pub open spec fn stands_at(p: PtOffset, x: int, y: int) -> bool {
    p.x.units == x && p.y.units == y
}

/// Whether `q` is `p` mirrored left to right in a box of the given width, up to `n` units.
pub open spec fn mirrors_across(p: PtOffset, q: PtOffset, width: int, n: int) -> bool {
    within(p.x.units + q.x.units, width, n) && p.y == q.y
}

/// Whether `q` is `p` mirrored top to bottom in a box of the given height, up to `n` units.
pub open spec fn mirrors_down(p: PtOffset, q: PtOffset, height: int, n: int) -> bool {
    within(p.y.units + q.y.units, height, n) && p.x == q.x
}

/// The handles of a curve of a quarter of an ellipse lie `0.5522848` of the radius from its ends,
/// rounded down.
pub open spec fn is_handle(radius: int, handle: int) -> bool {
    0 <= 5522848 * radius - 10000000 * handle < 10000000
}

/// An oval fills its box. Its outline starts in the middle of the top side and runs through the
/// middles of the right, the bottom and the left side back to where it started. It leaves and reaches
/// each side along that side, and it is the same mirrored left to right and top to bottom, up to the
/// rounding of the middles.
pub proof fn law_an_oval_fills_its_box(extent: PtSize)
    requires
        extent.width.units >= 0,
        extent.height.units >= 0,
    ensures
        ({
            let v = oval_outline(extent);
            let w = extent.width.units as int;
            let h = extent.height.units as int;
            &&& v.len() == 6
            &&& v[0] matches PathVerb::MoveTo(start)
            &&& v[1] matches PathVerb::CubicTo(a1, a2, right)
            &&& v[2] matches PathVerb::CubicTo(b1, b2, bottom)
            &&& v[3] matches PathVerb::CubicTo(c1, c2, left)
            &&& v[4] matches PathVerb::CubicTo(d1, d2, top)
            &&& v[5] == PathVerb::Close
            // The ends are the middles of the sides.
            &&& start == top
            &&& right.x.units == w && within(2 * right.y.units, h, 1)
            &&& bottom.y.units == h && within(2 * bottom.x.units, w, 1)
            &&& left.x.units == 0 && within(2 * left.y.units, h, 1)
            &&& top.y.units == 0 && within(2 * top.x.units, w, 1)
            // The handles lie on the sides, between the middles and the corners.
            &&& a1.y.units == 0 && top.x.units <= a1.x.units <= w
            &&& a2.x.units == w && 0 <= a2.y.units <= right.y.units
            &&& b1.x.units == w && right.y.units <= b1.y.units <= h
            &&& b2.y.units == h && bottom.x.units <= b2.x.units <= w
            &&& c1.y.units == h && 0 <= c1.x.units <= bottom.x.units
            &&& c2.x.units == 0 && left.y.units <= c2.y.units <= h
            &&& d1.x.units == 0 && 0 <= d1.y.units <= left.y.units
            &&& d2.y.units == 0 && 0 <= d2.x.units <= top.x.units
            &&& is_handle(top.x.units as int, a1.x.units - top.x.units)
            &&& is_handle(right.y.units as int, b1.y.units - right.y.units)
            // The outline is its own mirror image.
            &&& mirrors_across(a1, d2, w, 1) && mirrors_across(a2, d1, w, 1)
            &&& mirrors_across(b1, c2, w, 1) && mirrors_across(b2, c1, w, 1)
            &&& mirrors_across(right, left, w, 0)
            &&& mirrors_down(a1, b2, h, 1) && mirrors_down(a2, b1, h, 1)
            &&& mirrors_down(d1, c2, h, 1) && mirrors_down(d2, c1, h, 1)
            &&& mirrors_down(top, bottom, h, 0)
        }),
{
    let cx = extent.width.units as int / 2;
    let cy = extent.height.units as int / 2;
    let kx = (cx * 5522848) / 10000000;
    let ky = (cy * 5522848) / 10000000;
    assert(0 <= kx <= cx);
    assert(0 <= ky <= cy);
}

/// The outline of a box without round corners runs through its four corners, clockwise from the upper
/// left one.
pub proof fn law_a_box_has_four_corners(extent: PtSize, corner: Option<CornerRatio>)
    requires
        corner matches Some(c) ==> c.num <= 0 || c.den <= 0,
    ensures
        ({
            let v = box_outline(extent, corner);
            let w = extent.width.units as int;
            let h = extent.height.units as int;
            &&& v.len() == 5
            &&& v[0] matches PathVerb::MoveTo(a) && stands_at(a, 0, 0)
            &&& v[1] matches PathVerb::LineTo(b) && stands_at(b, w, 0)
            &&& v[2] matches PathVerb::LineTo(c) && stands_at(c, w, h)
            &&& v[3] matches PathVerb::LineTo(d) && stands_at(d, 0, h)
            &&& v[4] == PathVerb::Close
        }),
{
}

/// The outline of a box with round corners runs along its sides, clockwise, and turns at each of its
/// corners from `radius` before the corner to `radius` behind it. The radius is the given part of the
/// shorter side, rounded down, and half of that side at most.
pub proof fn law_round_corners_are_alike(extent: PtSize, corner: CornerRatio) -> (radius: int)
    requires
        extent.width.units >= 0,
        extent.height.units >= 0,
        corner.num > 0,
        corner.den > 0,
    ensures
        ({
            let w = extent.width.units as int;
            let h = extent.height.units as int;
            let side = if w <= h {
                w
            } else {
                h
            };
            &&& 0 <= 2 * radius <= side
            &&& if 2 * corner.num >= corner.den {
                side - 1 <= 2 * radius
            } else {
                radius * corner.den <= side * corner.num < (radius + 1) * corner.den
            }
        }),
        radius > 0 ==> ({
            let v = box_outline(extent, Some(corner));
            let w = extent.width.units as int;
            let h = extent.height.units as int;
            &&& v.len() == 10
            &&& v[0] matches PathVerb::MoveTo(p0) && stands_at(p0, radius, 0)
            &&& v[1] matches PathVerb::LineTo(p1) && stands_at(p1, w - radius, 0)
            &&& v[2] matches PathVerb::QuadTo(q2, p2) && stands_at(q2, w, 0) && stands_at(
                p2,
                w,
                radius,
            )
            &&& v[3] matches PathVerb::LineTo(p3) && stands_at(p3, w, h - radius)
            &&& v[4] matches PathVerb::QuadTo(q4, p4) && stands_at(q4, w, h) && stands_at(
                p4,
                w - radius,
                h,
            )
            &&& v[5] matches PathVerb::LineTo(p5) && stands_at(p5, radius, h)
            &&& v[6] matches PathVerb::QuadTo(q6, p6) && stands_at(q6, 0, h) && stands_at(
                p6,
                0,
                h - radius,
            )
            &&& v[7] matches PathVerb::LineTo(p7) && stands_at(p7, 0, radius)
            &&& v[8] matches PathVerb::QuadTo(q8, p8) && stands_at(q8, 0, 0) && stands_at(
                p8,
                radius,
                0,
            )
            &&& v[9] == PathVerb::Close
        }),
{
    let w = extent.width.units as int;
    let h = extent.height.units as int;
    let side = if w <= h {
        w
    } else {
        h
    };
    if 2 * corner.num >= corner.den {
        side / 2
    } else {
        let n = corner.num as int;
        let d = corner.den as int;
        let radius = (side * n) / d;
        vstd::arithmetic::div_mod::lemma_fundamental_div_mod(side * n, d);
        assert(radius * d <= side * n < (radius + 1) * d) by (nonlinear_arith)
            requires
                side * n == d * radius + (side * n) % d,
                0 <= (side * n) % d < d,
        ;
        assert(2 * radius <= side) by (nonlinear_arith)
            requires
                radius * d <= side * n,
                2 * n < d,
                side >= 0,
                n > 0,
        ;
        assert(0 <= radius) by (nonlinear_arith)
            requires
                side * n < (radius + 1) * d,
                side >= 0,
                n > 0,
                d > 0,
        ;
        radius
    }
}

} // verus!
