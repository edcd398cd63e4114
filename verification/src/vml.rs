//! Vector drawings in the text: groups of shapes with coordinates of their own.
//!
//! A group maps its coordinates to the box it is drawn in. A bare number within a group is a
//! coordinate of the group; a bare number outside any group is a length in English Metric Units.
use crate::block::{LayoutBlock, PageParity};
use crate::dimension::{ratio, saturate, Pt};
use crate::draw_command::{append_shifted, shift_all, DrawCommand, RgbColor};
use crate::geometry::{PtEdgeInsets, PtLineSegment, PtOffset, PtSize};
use crate::table::measure::{cell_layout, layout_cell};
use vstd::arithmetic::power2::pow2;
use vstd::prelude::*;

verus! {

/// A pair of whole numbers.
#[derive(Clone, Copy, Debug, PartialEq, Eq, Structural)]
pub struct VmlVector2D {
    pub x: i32,
    pub y: i32,
}

/// A position within a group, in thousandths of its unit.
#[derive(Clone, Copy, Debug, PartialEq, Eq, Structural)]
pub struct VmlPoint {
    pub x: i64,
    pub y: i64,
}

/// The unit of a length.
#[derive(Clone, Copy, Debug, PartialEq, Eq, Structural)]
pub enum VmlLengthUnit {
    /// A bare number.
    Bare,
    Pt,
    In,
    Cm,
    Mm,
    Pc,
    Px,
    Em,
    Percent,
}

/// A length in thousandths of its unit.
#[derive(Clone, Copy, Debug, PartialEq, Eq, Structural)]
pub struct VmlLength {
    pub milli: i64,
    pub unit: VmlLengthUnit,
}

/// The place of a shape.
#[derive(Clone, Copy, Debug, PartialEq, Eq, Structural)]
pub struct VmlStyle {
    pub left: Option<VmlLength>,
    pub top: Option<VmlLength>,
    pub width: Option<VmlLength>,
    pub height: Option<VmlLength>,
}

/// A colour that is known by a name.
#[derive(Clone, Copy, Debug, PartialEq, Eq, Structural)]
pub enum VmlNamedColor {
    Black,
    WindowText,
    ButtonText,
    CaptionText,
    MenuText,
    White,
    Window,
    ButtonHighlight,
    HighlightText,
    Silver,
    Gray,
    GrayText,
    Red,
    Blue,
    Green,
    Lime,
    Yellow,
    Aqua,
    Cyan,
    Fuchsia,
    Magenta,
    Maroon,
    Purple,
    Olive,
    Navy,
    Teal,
    Orange,
    /// A name without a fixed colour.
    Unknown,
}

/// A colour.
#[derive(Clone, Copy, Debug, PartialEq, Eq, Structural)]
pub enum VmlColor {
    Rgb(u8, u8, u8),
    Named(VmlNamedColor),
}

/// How a shape is filled.
#[derive(Clone, Copy, Debug, PartialEq, Eq, Structural)]
pub enum VmlFillType {
    Solid,
    Gradient,
    GradientRadial,
    Tile,
    Frame,
    Pattern,
}

/// The filling of a shape.
#[derive(Clone, Copy, Debug, PartialEq, Eq, Structural)]
pub struct VmlFill {
    pub fill_type: VmlFillType,
    pub color: Option<VmlColor>,
    /// The opacity in 65536ths.
    pub opacity: Option<i32>,
}

/// The dashes of a stroke.
#[derive(Clone, Copy, Debug, PartialEq, Eq, Structural)]
pub enum VmlDashStyle {
    Solid,
    ShortDot,
    Dot,
    ShortDash,
    Dash,
    LongDash,
    ShortDashDot,
    DashDot,
    LongDashDot,
    ShortDashDotDot,
    LongDashDotDot,
}

/// The corners of a stroke.
#[derive(Clone, Copy, Debug, PartialEq, Eq, Structural)]
pub enum VmlJoinStyle {
    Round,
    Bevel,
    Miter,
}

/// The outline of a shape.
#[derive(Clone, Copy, Debug, PartialEq, Eq, Structural)]
pub struct VmlStroke {
    pub weight: Option<VmlLength>,
    pub color: Option<VmlColor>,
    pub dash_style: Option<VmlDashStyle>,
    pub join_style: Option<VmlJoinStyle>,
}

/// The look and place of a shape.
#[derive(Clone, Copy, Debug, PartialEq, Eq, Structural)]
pub struct VmlLook {
    pub style: VmlStyle,
    pub filled: Option<bool>,
    pub fill: Option<VmlFill>,
    pub fill_color: Option<VmlColor>,
    pub stroked: Option<bool>,
    pub stroke: Option<VmlStroke>,
    pub stroke_color: Option<VmlColor>,
    pub stroke_weight: Option<VmlLength>,
}

/// What all shapes have in common.
#[derive(Debug)]
pub struct VmlCommonAttrs {
    pub look: VmlLook,
    /// The text in the shape.
    pub text_box: Option<Vec<LayoutBlock>>,
}

/// A kind of shape.
#[derive(Clone, Copy, Debug, PartialEq, Eq, Structural)]
pub struct VmlShapeType {
    pub id: Option<u64>,
    /// The number of the kind.
    pub spt: Option<u32>,
    pub coord_size: Option<VmlVector2D>,
    /// The first adjustment of the kind's outline.
    pub adj: Option<i64>,
}

/// A group of shapes.
#[derive(Debug)]
pub struct VmlGroup {
    pub common: VmlCommonAttrs,
    pub coord_size: Option<VmlVector2D>,
    pub coord_origin: Option<VmlVector2D>,
    pub shape_types: Vec<VmlShapeType>,
    pub children: Vec<VmlPrimitive>,
}

/// A shape.
#[derive(Debug)]
pub enum VmlPrimitive {
    Shape { common: VmlCommonAttrs, shape_type_ref: Option<u64> },
    Rect { common: VmlCommonAttrs },
    /// A rectangle with round corners, their size in thousandths of the shorter side.
    RoundRect { common: VmlCommonAttrs, arcsize: Option<i32> },
    Line { common: VmlCommonAttrs, from: Option<VmlPoint>, to: Option<VmlPoint> },
    Oval { common: VmlCommonAttrs },
    Group(VmlGroup),
    PolyLine,
    Arc,
    Curve,
    Image,
}

/// The greatest factor or divisor of a coordinate map.
pub const MAX_FACTOR: i128 = 0x7fff_ffff_ffff_ffff;

/// The greatest offset of a coordinate map.
pub const MAX_OFFSET: i128 = 0x2000_0000_0000_0000_0000_0000_0000_0000;

/// A map of coordinates along one axis: `x` goes to `(x * num + off) / den`.
#[derive(Clone, Copy, Debug, PartialEq, Eq, Structural)]
pub struct AxisMap {
    pub num: i128,
    pub off: i128,
    pub den: i128,
}

impl AxisMap {
    /// Whether the map can be applied to every coordinate.
    pub open spec fn sound(self) -> bool {
        &&& -MAX_FACTOR <= self.num <= MAX_FACTOR
        &&& -MAX_OFFSET <= self.off <= MAX_OFFSET
        &&& 0 < self.den <= MAX_FACTOR
    }

    /// Where `x` goes, rounded down to a whole unit.
    pub open spec fn at(self, x: int) -> Pt {
        Pt { units: saturate((x * self.num + self.off) / self.den as int) }
    }

    /// Map a coordinate, rounding once at the end.
    pub fn map(self, x: i64) -> (r: Pt)
        requires
            self.sound(),
        ensures
            r == self.at(x as int),
    {
        let wide: i128 = x as i128;
        assert(-0x4000_0000_0000_0000_0000_0000_0000_0000 <= wide * self.num
            <= 0x4000_0000_0000_0000_0000_0000_0000_0000) by (nonlinear_arith)
            requires
                -0x8000_0000_0000_0000 <= wide <= 0x7fff_ffff_ffff_ffff,
                -0x7fff_ffff_ffff_ffff <= self.num <= 0x7fff_ffff_ffff_ffff,
        ;
        let top: i128 = wide * self.num + self.off;
        let quotient: i128 = if top >= 0 {
            top / self.den
        } else {
            let m: i128 = -(top + 1);
            let q: i128 = m / self.den;
            proof {
                let t = top as int;
                let n = self.den as int;
                let qi = q as int;
                vstd::arithmetic::div_mod::lemma_fundamental_div_mod(-(t + 1), n);
                let rem = (-(t + 1)) % n;
                assert(t == n * (-(qi + 1)) + (n - 1 - rem)) by (nonlinear_arith)
                    requires
                        -(t + 1) == n * qi + rem,
                ;
                vstd::arithmetic::div_mod::lemma_fundamental_div_mod_converse(
                    t,
                    n,
                    -(qi + 1),
                    n - 1 - rem,
                );
                assert(0 <= qi <= -(t + 1)) by (nonlinear_arith)
                    requires
                        qi == (-(t + 1)) / n,
                        n > 0,
                        -(t + 1) >= 0,
                ;
            }
            -(q + 1)
        };
        if quotient > 0x7fff_ffff_ffff_ffff {
            Pt { units: i64::MAX }
        } else if quotient < -0x8000_0000_0000_0000 {
            Pt { units: i64::MIN }
        } else {
            Pt { units: quotient as i64 }
        }
    }

    /// The factor, the offset and the divisor of the map that applies `child` first and then this one,
    /// without rounding in between.
    pub open spec fn product(self, child: AxisMap) -> (int, int, int) {
        (
            self.num * child.num,
            self.num * child.off + self.off * child.den,
            self.den * child.den,
        )
    }

    /// Whether the map that applies `child` first and then this one is represented exactly.
    pub open spec fn fits(self, child: AxisMap) -> bool {
        let (num, off, den) = self.product(child);
        &&& -MAX_FACTOR <= num <= MAX_FACTOR
        &&& -MAX_OFFSET <= self.num * child.off <= MAX_OFFSET
        &&& -MAX_OFFSET <= self.off * child.den <= MAX_OFFSET
        &&& -MAX_OFFSET <= off <= MAX_OFFSET
        &&& den <= MAX_FACTOR
    }

    /// The exact composition, where it is represented.
    pub open spec fn exact(self, child: AxisMap) -> AxisMap {
        let (num, off, den) = self.product(child);
        AxisMap { num: num as i128, off: off as i128, den: den as i128 }
    }

    /// The size of the numbers of the map.
    pub open spec fn magnitude(self) -> nat {
        (size_of_number(self.num as int) + size_of_number(self.off as int) + size_of_number(
            self.den as int,
        )) as nat
    }

    /// The map with one bit less in each of its numbers.
    #[verifier::allow_in_spec]
    pub fn coarser(self) -> AxisMap
        returns
            (AxisMap {
                num: half_number(self.num),
                off: half_number(self.off),
                den: if self.den > 1 {
                    half_number(self.den)
                } else {
                    self.den
                },
            }),
    {
        AxisMap {
            num: half_number(self.num),
            off: half_number(self.off),
            den: if self.den > 1 {
                half_number(self.den)
            } else {
                self.den
            },
        }
    }

    /// Compose `child` below this map: the child's map is applied first.
    ///
    /// Nothing is rounded where the result is represented exactly. Otherwise the map with the
    /// greater divisor gives up its lowest bits until it is.
    pub fn compose(self, child: AxisMap) -> (r: AxisMap)
        requires
            self.sound(),
            child.sound(),
        ensures
            r == axis_composed(self, child),
            r.sound(),
    {
        let mut outer = self;
        let mut inner = child;
        loop
            invariant
                outer.sound(),
                inner.sound(),
                axis_composed(outer, inner) == axis_composed(self, child),
            decreases outer.magnitude() + inner.magnitude(),
        {
            if let Some(m) = exact_composition(outer, inner) {
                return m;
            }
            proof {
                lemma_coarser(outer, inner);
            }
            if outer.den >= inner.den {
                outer = outer.coarser();
            } else {
                inner = inner.coarser();
            }
        }
    }
}

/// The distance of a number from zero.
pub open spec fn size_of_number(n: int) -> int {
    if n < 0 {
        -n
    } else {
        n
    }
}

/// Half of a number, rounded towards zero.
#[verifier::allow_in_spec]
pub fn half_number(n: i128) -> i128
    returns
        (if n >= 0 {
            (n / 2) as i128
        } else {
            (-((-(n + 1)) / 2 + (-(n + 1)) % 2)) as i128
        }),
{
    if n >= 0 {
        n / 2
    } else {
        let m: i128 = -(n + 1);
        -(m / 2 + m % 2)
    }
}

/// Coarser maps are sound, and of two maps whose composition is not represented exactly the one with
/// the greater divisor can be made coarser.
proof fn lemma_coarser(outer: AxisMap, inner: AxisMap)
    requires
        outer.sound(),
        inner.sound(),
        !outer.fits(inner),
    ensures
        outer.coarser().sound(),
        inner.coarser().sound(),
        outer.den >= inner.den ==> outer.coarser().magnitude() < outer.magnitude(),
        outer.den < inner.den ==> inner.coarser().magnitude() < inner.magnitude(),
{
    if outer.den == 1 && inner.den == 1 && outer.num == 0 && outer.off == 0 {
        assert(outer.num * inner.num == 0 && outer.num * inner.off == 0 && outer.off * inner.den
            == 0 && outer.den * inner.den == 1) by (nonlinear_arith)
            requires
                outer.num == 0,
                outer.off == 0,
                outer.den == 1,
                inner.den == 1,
        ;
    }
}

/// The exact composition of two maps, if it is represented.
fn exact_composition(outer: AxisMap, inner: AxisMap) -> (r: Option<AxisMap>)
    requires
        outer.sound(),
        inner.sound(),
    ensures
        match r {
            Some(m) => outer.fits(inner) && m.sound() && m == outer.exact(inner),
            None => !outer.fits(inner),
        },
{
    assert(0 < outer.den * inner.den) by (nonlinear_arith)
        requires
            outer.den > 0,
            inner.den > 0,
    ;
    let num = match product_within(outer.num, inner.num, MAX_FACTOR) {
        Some(n) => n,
        None => {
            return None;
        },
    };
    let den = match product_within(outer.den, inner.den, MAX_FACTOR) {
        Some(n) => n,
        None => {
            return None;
        },
    };
    let first = match product_within(outer.num, inner.off, MAX_OFFSET) {
        Some(n) => n,
        None => {
            return None;
        },
    };
    let second = match product_within(outer.off, inner.den, MAX_OFFSET) {
        Some(n) => n,
        None => {
            return None;
        },
    };
    let off: i128 = first + second;
    if off > MAX_OFFSET || off < -MAX_OFFSET {
        return None;
    }
    Some(AxisMap { num, off, den })
}

/// The product of two numbers, if its size is `bound` at most.
fn product_within(a: i128, b: i128, bound: i128) -> (r: Option<i128>)
    requires
        0 <= bound <= MAX_OFFSET,
        -MAX_OFFSET <= a <= MAX_OFFSET,
        -MAX_OFFSET <= b <= MAX_OFFSET,
    ensures
        match r {
            Some(p) => p == a * b && -bound <= p <= bound,
            None => !(-bound <= a * b <= bound),
        },
{
    if a == 0 || b == 0 {
        assert(a * b == 0) by (nonlinear_arith)
            requires
                a == 0 || b == 0,
        ;
        return Some(0);
    }
    let a_abs: i128 = if a < 0 {
        -a
    } else {
        a
    };
    let b_abs: i128 = if b < 0 {
        -b
    } else {
        b
    };
    let most: i128 = bound / a_abs;
    proof {
        let q = most as int;
        let ai = a_abs as int;
        let bi = b_abs as int;
        vstd::arithmetic::div_mod::lemma_fundamental_div_mod(bound as int, ai);
        assert(a * b == ai * bi || a * b == -(ai * bi)) by (nonlinear_arith)
            requires
                ai == a || ai == -a,
                bi == b || bi == -b,
        ;
        if bi <= q {
            assert(ai * bi <= ai * q) by (nonlinear_arith)
                requires
                    bi <= q,
                    ai > 0,
            ;
        } else {
            assert(ai * bi >= ai * q + ai) by (nonlinear_arith)
                requires
                    bi >= q + 1,
                    ai > 0,
            ;
        }
        assert(0 <= ai * bi) by (nonlinear_arith)
            requires
                ai > 0,
                bi > 0,
        ;
    }
    if b_abs <= most {
        Some(a * b)
    } else {
        None
    }
}

/// The map of a group's coordinates.
#[derive(Clone, Copy, Debug, PartialEq, Eq, Structural)]
pub struct VmlTransform {
    pub x: AxisMap,
    pub y: AxisMap,
}

/// The map along one axis that takes `origin` to `start` and `origin + size` to `start + extent`.
pub open spec fn axis_map(origin: int, size: int, start: int, extent: int) -> AxisMap {
    let num = if size > 0 {
        extent
    } else {
        -extent
    };
    let den = if size > 0 {
        1000 * size
    } else {
        1000 * (-size)
    };
    AxisMap {
        num: num as i128,
        off: (start * den - 1000 * origin * num) as i128,
        den: den as i128,
    }
}

fn build_axis_map(origin: i32, size: i32, start: i64, extent: i64) -> (r: AxisMap)
    requires
        size != 0,
        extent > 0,
    ensures
        r == axis_map(origin as int, size as int, start as int, extent as int),
        r.sound(),
{
    let positive: i128 = if size > 0 {
        size as i128
    } else {
        -(size as i128)
    };
    let den: i128 = 1000 * positive;
    let num: i128 = if size > 0 {
        extent as i128
    } else {
        -(extent as i128)
    };
    let shift: i128 = 1000 * (origin as i128);
    let s: i128 = start as i128;
    assert(-0x200_0000_0000_0000_0000_0000_0000 <= s * den <= 0x200_0000_0000_0000_0000_0000_0000)
        by (nonlinear_arith)
        requires
            0 < den <= 1000 * 0x8000_0000,
            -0x8000_0000_0000_0000 <= s <= 0x7fff_ffff_ffff_ffff,
    ;
    assert(-0x200_0000_0000_0000_0000_0000_0000 <= shift * num
        <= 0x200_0000_0000_0000_0000_0000_0000) by (nonlinear_arith)
        requires
            -1000 * 0x8000_0000 <= shift <= 1000 * 0x7fff_ffff,
            -0x7fff_ffff_ffff_ffff <= num <= 0x7fff_ffff_ffff_ffff,
    ;
    AxisMap { num, off: s * den - shift * num, den }
}

/// A group's origin, zero where none is given.
#[verifier::allow_in_spec]
pub fn origin_or_zero(origin: Option<VmlVector2D>) -> VmlVector2D
    returns
        (match origin {
            Some(o) => o,
            None => VmlVector2D { x: 0, y: 0 },
        }),
{
    match origin {
        Some(o) => o,
        None => VmlVector2D { x: 0, y: 0 },
    }
}

impl VmlTransform {
    pub open spec fn sound(self) -> bool {
        self.x.sound() && self.y.sound()
    }

    /// The map from a group's coordinates into a box; none for a group or a box without extent.
    pub open spec fn of_coord_space(
        coord_origin: Option<VmlVector2D>,
        coord_size: VmlVector2D,
        extent: PtSize,
    ) -> Option<VmlTransform> {
        let origin = origin_or_zero(coord_origin);
        if coord_size.x <= 0 || coord_size.y <= 0 || extent.width.units <= 0
            || extent.height.units <= 0 {
            None
        } else {
            Some(
                VmlTransform {
                    x: axis_map(
                        origin.x as int,
                        coord_size.x as int,
                        0,
                        extent.width.units as int,
                    ),
                    y: axis_map(
                        origin.y as int,
                        coord_size.y as int,
                        0,
                        extent.height.units as int,
                    ),
                },
            )
        }
    }

    /// Build the map from a group's coordinates into a box.
    pub fn from_coord_space(
        coord_origin: Option<VmlVector2D>,
        coord_size: VmlVector2D,
        extent: PtSize,
    ) -> (r: Option<VmlTransform>)
        ensures
            r == VmlTransform::of_coord_space(coord_origin, coord_size, extent),
            r matches Some(t) ==> t.sound(),
    {
        if coord_size.x <= 0 || coord_size.y <= 0 || extent.width.units <= 0
            || extent.height.units <= 0 {
            return None;
        }
        let origin = origin_or_zero(coord_origin);
        Some(
            VmlTransform {
                x: build_axis_map(origin.x, coord_size.x, 0, extent.width.units),
                y: build_axis_map(origin.y, coord_size.y, 0, extent.height.units),
            },
        )
    }

    /// The map that applies `child` first and then this one.
    pub open spec fn composed(self, child: VmlTransform) -> VmlTransform {
        VmlTransform { x: axis_composed(self.x, child.x), y: axis_composed(self.y, child.y) }
    }

    /// Compose `child` below this map: the child's map is applied first.
    pub fn compose(self, child: VmlTransform) -> (r: VmlTransform)
        requires
            self.sound(),
            child.sound(),
        ensures
            r == self.composed(child),
            r.sound(),
    {
        VmlTransform { x: self.x.compose(child.x), y: self.y.compose(child.y) }
    }

    /// Where a position goes.
    pub open spec fn at(self, x: int, y: int) -> PtOffset {
        PtOffset { x: self.x.at(x), y: self.y.at(y) }
    }

    /// Map a position given in thousandths.
    pub fn map_xy(self, x: i64, y: i64) -> (r: PtOffset)
        requires
            self.sound(),
        ensures
            r == self.at(x as int, y as int),
    {
        PtOffset { x: self.x.map(x), y: self.y.map(y) }
    }

    /// Map a position.
    pub fn map_point(self, point: VmlPoint) -> (r: PtOffset)
        requires
            self.sound(),
        ensures
            r == self.at(point.x as int, point.y as int),
    {
        self.map_xy(point.x, point.y)
    }
}

/// The composition of two maps along an axis: exact where that is represented, else that of maps of
/// which the one with the greater divisor has given up bits.
pub open spec fn axis_composed(parent: AxisMap, child: AxisMap) -> AxisMap
    decreases parent.magnitude() + child.magnitude(),
    when parent.sound() && child.sound()
    via axis_composed_terminates
{
    if parent.fits(child) {
        parent.exact(child)
    } else if parent.den >= child.den {
        axis_composed(parent.coarser(), child)
    } else {
        axis_composed(parent, child.coarser())
    }
}

#[via_fn]
proof fn axis_composed_terminates(parent: AxisMap, child: AxisMap) {
    if !parent.fits(child) {
        lemma_coarser(parent, child);
    }
}

/// Composing maps loses nothing where the result is represented: the composed map takes every
/// coordinate exactly where the child's map and then the parent's take it.
pub proof fn law_composed_maps_are_exact(parent: AxisMap, child: AxisMap, x: int)
    requires
        parent.sound(),
        child.sound(),
        parent.fits(child),
    ensures
        ({
            let m = axis_composed(parent, child);
            &&& m.den == parent.den * child.den
            &&& x * m.num + m.off == (x * child.num + child.off) * parent.num + parent.off
                * child.den
        }),
{
    assert(0 < parent.den * child.den) by (nonlinear_arith)
        requires
            parent.den > 0,
            child.den > 0,
    ;
    assert(x * (parent.num * child.num) + (parent.num * child.off + parent.off * child.den) == (x
        * child.num + child.off) * parent.num + parent.off * child.den) by (nonlinear_arith);
}

/// Composing maps and applying them in turn come to the same place but for the rounding between the
/// two: where the composition is represented and the child's map takes `x` to a length, the two
/// results are no more than `|parent.num| / parent.den + 1` units apart.
pub proof fn law_composed_maps_round_alike(parent: AxisMap, child: AxisMap, x: int)
    requires
        parent.sound(),
        child.sound(),
        parent.fits(child),
        i64::MIN <= (x * child.num + child.off) / (child.den as int) <= i64::MAX,
    ensures
        ({
            let together = axis_composed(parent, child).at(x).units;
            let in_turn = parent.at(child.at(x).units as int).units;
            parent.den * size_of_number(together - in_turn) <= size_of_number(parent.num as int)
                + parent.den
        }),
{
    law_composed_maps_are_exact(parent, child, x);
    let d = child.den as int;
    let n = parent.num as int;
    let o = parent.off as int;
    let e = parent.den as int;
    let a = x * child.num + child.off;
    let q = a / d;
    let r = a % d;
    vstd::arithmetic::div_mod::lemma_fundamental_div_mod(a, d);
    let b = q * n + o;
    let s = b / e;
    vstd::arithmetic::div_mod::lemma_fundamental_div_mod(b, e);
    let m = axis_composed(parent, child);
    let t = x * m.num + m.off;
    let f = m.den as int;
    assert(f > 0) by (nonlinear_arith)
        requires
            f == e * d,
            d > 0,
            e > 0,
    ;
    let c = t / f;
    vstd::arithmetic::div_mod::lemma_fundamental_div_mod(t, f);
    assert(t == d * b + r * n) by (nonlinear_arith)
        requires
            t == a * n + o * d,
            a == d * q + r,
            b == q * n + o,
    ;
    let w = size_of_number(n);
    assert(-(d * w) <= r * n <= d * w) by (nonlinear_arith)
        requires
            0 <= r < d,
            w == n || w == -n,
            w >= 0,
    ;
    let u = b % e;
    let v = t % f;
    assert(d * (e * (c - s)) == d * u + r * n - v) by (nonlinear_arith)
        requires
            t == d * b + r * n,
            t == f * c + v,
            f == e * d,
            b == e * s + u,
    ;
    assert(-(w + e) <= e * (c - s) <= w + e) by (nonlinear_arith)
        requires
            d * (e * (c - s)) == d * u + r * n - v,
            -(d * w) <= r * n <= d * w,
            0 <= u < e,
            0 <= v < f,
            f == e * d,
            d > 0,
    ;
    let together = m.at(x).units as int;
    let in_turn = parent.at(child.at(x).units as int).units as int;
    assert(size_of_number(together - in_turn) <= size_of_number(c - s));
    assert(e * size_of_number(together - in_turn) <= e * size_of_number(c - s)) by (nonlinear_arith)
        requires
            size_of_number(together - in_turn) <= size_of_number(c - s),
            e > 0,
    ;
    assert(e * (s - c) == -(e * (c - s))) by (nonlinear_arith);
}

/// Composing the maps of two groups and applying them in turn come to the same place but for the
/// rounding between the two, along either axis.
pub proof fn law_composed_transforms_round_alike(
    parent: VmlTransform,
    child: VmlTransform,
    x: int,
    y: int,
)
    requires
        parent.sound(),
        child.sound(),
        parent.x.fits(child.x),
        parent.y.fits(child.y),
        i64::MIN <= (x * child.x.num + child.x.off) / (child.x.den as int) <= i64::MAX,
        i64::MIN <= (y * child.y.num + child.y.off) / (child.y.den as int) <= i64::MAX,
    ensures
        ({
            let inner = child.at(x, y);
            let together = parent.composed(child).at(x, y);
            let in_turn = parent.at(inner.x.units as int, inner.y.units as int);
            &&& parent.x.den * size_of_number(together.x.units - in_turn.x.units)
                <= size_of_number(parent.x.num as int) + parent.x.den
            &&& parent.y.den * size_of_number(together.y.units - in_turn.y.units)
                <= size_of_number(parent.y.num as int) + parent.y.den
        }),
{
    law_composed_maps_round_alike(parent.x, child.x, x);
    law_composed_maps_round_alike(parent.y, child.y, y);
}

impl AxisMap {
    /// The map without the lowest `bits` bits of its numbers.
    pub open spec fn coarsened(self, bits: nat) -> AxisMap
        decreases bits,
    {
        if bits == 0 {
            self
        } else {
            self.coarsened((bits - 1) as nat).coarser()
        }
    }
}

proof fn lemma_coarsened_is_sound(m: AxisMap, bits: nat)
    requires
        m.sound(),
    ensures
        m.coarsened(bits).sound(),
    decreases bits,
{
    if bits > 0 {
        lemma_coarsened_is_sound(m, (bits - 1) as nat);
    }
}

/// Giving up bits at once is giving up some of them and then the rest.
proof fn lemma_coarsened_first(m: AxisMap, bits: nat)
    ensures
        m.coarsened(bits + 1) == m.coarser().coarsened(bits),
    decreases bits,
{
    reveal_with_fuel(AxisMap::coarsened, 2);
    if bits > 0 {
        lemma_coarsened_first(m, (bits - 1) as nat);
    }
}

/// A composition is that of the two maps without their lowest bits, as many of them as it takes for the
/// result to be represented.
pub proof fn law_compositions_give_up_low_bits(
    parent: AxisMap,
    child: AxisMap,
) -> (bits: (nat, nat))
    requires
        parent.sound(),
        child.sound(),
    ensures
        parent.coarsened(bits.0).fits(child.coarsened(bits.1)),
        axis_composed(parent, child) == parent.coarsened(bits.0).exact(child.coarsened(bits.1)),
        parent.fits(child) ==> bits == (0nat, 0nat),
    decreases parent.magnitude() + child.magnitude(),
{
    reveal_with_fuel(AxisMap::coarsened, 1);
    if parent.fits(child) {
        (0, 0)
    } else {
        lemma_coarser(parent, child);
        if parent.den >= child.den {
            let rest = law_compositions_give_up_low_bits(parent.coarser(), child);
            lemma_coarsened_first(parent, rest.0);
            (rest.0 + 1, rest.1)
        } else {
            let rest = law_compositions_give_up_low_bits(parent, child.coarser());
            lemma_coarsened_first(child, rest.1);
            (rest.0, rest.1 + 1)
        }
    }
}

/// What the numbers of a map lose with their lowest bits: less than a unit of what is left.
proof fn lemma_lost_bits(m: AxisMap, bits: nat)
    requires
        m.sound(),
        pow2(bits) <= m.den,
    ensures
        ({
            let c = m.coarsened(bits);
            let p = pow2(bits) as int;
            &&& p > 0
            &&& -p < m.num - p * c.num < p
            &&& -p < m.off - p * c.off < p
            &&& 0 <= m.den - p * c.den < p
            &&& c.den > 0
        }),
    decreases bits,
{
    vstd::arithmetic::power2::lemma_pow2_pos(bits);
    if bits == 0 {
        vstd::arithmetic::power2::lemma2_to64();
    } else {
        let b = (bits - 1) as nat;
        vstd::arithmetic::power2::lemma_pow2_unfold(bits);
        vstd::arithmetic::power2::lemma_pow2_pos(b);
        lemma_lost_bits(m, b);
        lemma_coarsened_is_sound(m, b);
        let c = m.coarsened(b);
        let p = pow2(b) as int;
        assert(pow2(bits) == 2 * p);
        assert(c.den > 1) by (nonlinear_arith)
            requires
                m.den - p * c.den < p,
                2 * p <= m.den,
                p > 0,
        ;
        let d = c.coarser();
        lemma_lost_bit(m.num as int, c.num as int, d.num as int, p);
        lemma_lost_bit(m.off as int, c.off as int, d.off as int, p);
        lemma_lost_bit(m.den as int, c.den as int, d.den as int, p);
        assert(0 <= m.den - 2 * p * d.den) by (nonlinear_arith)
            requires
                0 <= m.den - p * c.den,
                c.den >= 2 * d.den,
                p > 0,
        ;
    }
}

proof fn lemma_lost_bit(n: int, c: int, d: int, p: int)
    requires
        p > 0,
        -p < n - p * c < p,
        -1 <= c - 2 * d <= 1,
    ensures
        -(2 * p) < n - 2 * p * d < 2 * p,
{
    assert(n - 2 * p * d == (n - p * c) + p * (c - 2 * d)) by (nonlinear_arith);
    assert(-p <= p * (c - 2 * d) <= p) by (nonlinear_arith)
        requires
            p > 0,
            -1 <= c - 2 * d <= 1,
    ;
}

/// How far a map without its lowest bits is from the whole one at `x / q`: `v` and `d` are the
/// numerator and the divisor of what the whole map gives, `w` and `e` those of what is left.
proof fn lemma_coarsened_is_close(m: AxisMap, bits: nat, x: int, q: int)
    requires
        m.sound(),
        pow2(bits) <= m.den,
        q > 0,
    ensures
        ({
            let c = m.coarsened(bits);
            let v = x * m.num + q * m.off;
            let w = x * c.num + q * c.off;
            size_of_number(w * m.den - v * c.den) <= size_of_number(v) + m.den * (size_of_number(x)
                + q)
        }),
{
    lemma_lost_bits(m, bits);
    let c = m.coarsened(bits);
    let p = pow2(bits) as int;
    let v = x * m.num + q * m.off;
    let w = x * c.num + q * c.off;
    let d = m.den as int;
    let e = c.den as int;
    let lost_num = m.num - p * c.num;
    let lost_off = m.off - p * c.off;
    let lost_den = d - p * e;
    let lost = x * lost_num + q * lost_off;
    let reach = size_of_number(x) + q;
    assert(v == p * w + lost) by (nonlinear_arith)
        requires
            v == x * m.num + q * m.off,
            w == x * c.num + q * c.off,
            lost == x * lost_num + q * lost_off,
            lost_num == m.num - p * c.num,
            lost_off == m.off - p * c.off,
    ;
    let ax = size_of_number(x);
    assert(-(p * ax) <= x * lost_num <= p * ax) by (nonlinear_arith)
        requires
            -p < lost_num < p,
            p > 0,
            ax == x || ax == -x,
            ax >= 0,
    ;
    assert(-(p * q) <= q * lost_off <= p * q) by (nonlinear_arith)
        requires
            -p < lost_off < p,
            p > 0,
            q > 0,
    ;
    assert(p * reach == p * ax + p * q) by (nonlinear_arith)
        requires
            reach == ax + q,
    ;
    let gap = w * d - v * e;
    assert(p * gap == (v - lost) * lost_den - lost * (p * e)) by (nonlinear_arith)
        requires
            gap == w * d - v * e,
            v == p * w + lost,
            lost_den == d - p * e,
    ;
    assert((v - lost) * lost_den - lost * (p * e) == v * lost_den - lost * d) by (nonlinear_arith)
        requires
            lost_den == d - p * e,
    ;
    let av = size_of_number(v);
    assert(-(p * av) <= v * lost_den <= p * av) by (nonlinear_arith)
        requires
            0 <= lost_den < p,
            av == v || av == -v,
            av >= 0,
    ;
    assert(-(p * reach * d) <= lost * d <= p * reach * d) by (nonlinear_arith)
        requires
            -(p * reach) <= lost <= p * reach,
            d > 0,
    ;
    assert(p * (av + d * reach) == p * av + p * reach * d) by (nonlinear_arith);
    assert(-(av + d * reach) <= gap <= av + d * reach) by (nonlinear_arith)
        requires
            -(p * (av + d * reach)) <= p * gap <= p * (av + d * reach),
            p > 0,
    ;
}

/// A map without its lowest bits stays close to the whole one: of two maps that take `x` to `v / d` and
/// to `w / e`, the second is off by no more than `(|v / d| + |x| + 1) / e`.
pub proof fn law_coarse_maps_are_close(m: AxisMap, bits: nat, x: int)
    requires
        m.sound(),
        pow2(bits) <= m.den,
    ensures
        ({
            let c = m.coarsened(bits);
            let v = x * m.num + m.off;
            let w = x * c.num + c.off;
            size_of_number(w * m.den - v * c.den) <= size_of_number(v) + m.den * (size_of_number(x)
                + 1)
        }),
{
    lemma_coarsened_is_close(m, bits, x, 1);
}

/// A composition that is not represented exactly stays close to the exact one.
///
/// With `y / d` where the child takes `x`, and `t / (d * e)` where the parent takes that, the
/// composed map is off by no more than `|a / f| * (|y / d| + |x| + 1) / g` for the bits that the
/// child gave up and `(|t / (d * e)| + |y / d| + 1) / f` for those of the parent. Here `a` and `f`
/// are what is left of the parent's factor and divisor, and `g` what is left of the child's
/// divisor. It is stated multiplied by all divisors.
pub proof fn law_coarse_compositions_are_close(
    parent: AxisMap,
    child: AxisMap,
    bits: (nat, nat),
    x: int,
)
    requires
        parent.sound(),
        child.sound(),
        pow2(bits.0) <= parent.den,
        pow2(bits.1) <= child.den,
        parent.coarsened(bits.0).fits(child.coarsened(bits.1)),
        axis_composed(parent, child) == parent.coarsened(bits.0).exact(child.coarsened(bits.1)),
    ensures
        ({
            let p = parent.coarsened(bits.0);
            let c = child.coarsened(bits.1);
            let m = axis_composed(parent, child);
            let y = x * child.num + child.off;
            let t = y * parent.num + child.den * parent.off;
            &&& m.den == p.den * c.den
            &&& size_of_number(
                parent.den * child.den * (x * m.num + m.off) - t * (p.den * c.den),
            ) <= parent.den * (size_of_number(p.num as int) * (size_of_number(y) + child.den * (
            size_of_number(x) + 1))) + c.den * (size_of_number(t) + parent.den * (size_of_number(y)
                + child.den))
        }),
{
    let p = parent.coarsened(bits.0);
    let c = child.coarsened(bits.1);
    let m = axis_composed(parent, child);
    lemma_coarsened_is_sound(parent, bits.0);
    lemma_coarsened_is_sound(child, bits.1);
    assert(0 < p.den * c.den) by (nonlinear_arith)
        requires
            p.den > 0,
            c.den > 0,
    ;
    let y = x * child.num + child.off;
    let z = x * c.num + c.off;
    let big_d = parent.den as int;
    let d = child.den as int;
    let f = p.den as int;
    let g = c.den as int;
    let a = p.num as int;
    let t = y * parent.num + d * parent.off;
    let s = y * a + d * p.off;
    let r = x * m.num + m.off;
    lemma_coarsened_is_close(child, bits.1, x, 1);
    lemma_coarsened_is_close(parent, bits.0, y, d);
    let inner = size_of_number(y) + d * (size_of_number(x) + 1);
    let outer = size_of_number(t) + big_d * (size_of_number(y) + d);
    assert(r == a * z + p.off * g) by (nonlinear_arith)
        requires
            r == x * (a * c.num) + (a * c.off + p.off * g),
            z == x * c.num + c.off,
    ;
    let first = a * (z * d - y * g);
    let second = s * big_d - t * f;
    assert(r * d - s * g == first) by (nonlinear_arith)
        requires
            r == a * z + p.off * g,
            s == y * a + d * p.off,
            first == a * (z * d - y * g),
    ;
    let aa = size_of_number(a);
    assert(-(aa * inner) <= first <= aa * inner) by (nonlinear_arith)
        requires
            first == a * (z * d - y * g),
            -inner <= z * d - y * g <= inner,
            aa == a || aa == -a,
            aa >= 0,
    ;
    assert(big_d * first == big_d * (r * d) - big_d * (s * g)) by (nonlinear_arith)
        requires
            r * d - s * g == first,
    ;
    assert(g * second == g * (s * big_d) - g * (t * f)) by (nonlinear_arith)
        requires
            second == s * big_d - t * f,
    ;
    assert(big_d * (s * g) == g * (s * big_d)) by (nonlinear_arith);
    assert(t * (f * g) == g * (t * f)) by (nonlinear_arith);
    assert(big_d * d * r == big_d * (r * d)) by (nonlinear_arith);
    assert(-(big_d * (aa * inner)) <= big_d * first <= big_d * (aa * inner)) by (nonlinear_arith)
        requires
            -(aa * inner) <= first <= aa * inner,
            big_d > 0,
    ;
    assert(-(g * outer) <= g * second <= g * outer) by (nonlinear_arith)
        requires
            -outer <= second <= outer,
            g > 0,
    ;
}

impl AxisMap {
    /// Whether the map neither stretches nor moves coordinates beyond all measure: by a factor of a
    /// thousand millions at most, and by no more than the greatest length many times over.
    pub open spec fn is_moderate(self) -> bool {
        &&& size_of_number(self.num as int) <= 0x4000_0000 * self.den
        &&& size_of_number(self.off as int) <= 0x1000_0000_0000_0000_0000_0000 * self.den
    }
}

/// What is left of a moderate map is still moderate, or nearly so.
proof fn lemma_still_moderate(m: AxisMap, bits: nat)
    requires
        m.sound(),
        m.is_moderate(),
        pow2(bits) <= m.den,
    ensures
        ({
            let c = m.coarsened(bits);
            &&& size_of_number(c.num as int) <= 0x8000_0000 * c.den
            &&& size_of_number(c.off as int) <= 0x2000_0000_0000_0000_0000_0000 * c.den
        }),
{
    lemma_lost_bits(m, bits);
    let c = m.coarsened(bits);
    let p = pow2(bits) as int;
    lemma_still_within(m.num as int, m.den as int, c.num as int, c.den as int, p, 0x4000_0000);
    lemma_still_within(
        m.off as int,
        m.den as int,
        c.off as int,
        c.den as int,
        p,
        0x1000_0000_0000_0000_0000_0000,
    );
}

proof fn lemma_still_within(n: int, d: int, n_left: int, d_left: int, p: int, limit: int)
    requires
        p > 0,
        limit >= 1,
        -p < n - p * n_left < p,
        0 <= d - p * d_left < p,
        d_left > 0,
        size_of_number(n) <= limit * d,
    ensures
        size_of_number(n_left) <= 2 * limit * d_left,
{
    let a = size_of_number(n_left);
    assert(p * a < limit * d + p) by (nonlinear_arith)
        requires
            a == n_left || a == -n_left,
            -p < n - p * n_left < p,
            -(limit * d) <= n <= limit * d,
    ;
    assert(limit * d <= limit * (p * d_left + p - 1)) by (nonlinear_arith)
        requires
            limit >= 1,
            d <= p * d_left + p - 1,
    ;
    assert(limit * (p * d_left + p - 1) + p <= p * (limit * d_left + limit + 1) - limit)
        by (nonlinear_arith);
    assert(a <= limit * d_left + limit) by (nonlinear_arith)
        requires
            p * a < p * (limit * d_left + limit + 1),
            p > 0,
    ;
    assert(limit <= limit * d_left) by (nonlinear_arith)
        requires
            limit >= 1,
            d_left >= 1,
    ;
    assert(2 * limit * d_left == limit * d_left + limit * d_left) by (nonlinear_arith);
}

/// Moderate maps have bits to give up until their composition is represented.
proof fn lemma_bits_left(parent: AxisMap, child: AxisMap, bits: (nat, nat))
    requires
        parent.sound(),
        child.sound(),
        parent.is_moderate(),
        child.is_moderate(),
        pow2(bits.0) <= parent.den,
        pow2(bits.1) <= child.den,
        !parent.coarsened(bits.0).fits(child.coarsened(bits.1)),
    ensures
        parent.coarsened(bits.0).den > 1 || child.coarsened(bits.1).den > 1,
{
    let p = parent.coarsened(bits.0);
    let c = child.coarsened(bits.1);
    lemma_coarsened_is_sound(parent, bits.0);
    lemma_coarsened_is_sound(child, bits.1);
    lemma_still_moderate(parent, bits.0);
    lemma_still_moderate(child, bits.1);
    if p.den == 1 && c.den == 1 {
        let a = p.num as int;
        let b = c.num as int;
        let o = c.off as int;
        assert(-0x4000_0000_0000_0000 <= a * b <= 0x4000_0000_0000_0000) by (nonlinear_arith)
            requires
                -0x8000_0000 <= a <= 0x8000_0000,
                -0x8000_0000 <= b <= 0x8000_0000,
        ;
        assert(-0x1000_0000_0000_0000_0000_0000_0000_0000 <= a * o
            <= 0x1000_0000_0000_0000_0000_0000_0000_0000) by (nonlinear_arith)
            requires
                -0x8000_0000 <= a <= 0x8000_0000,
                -0x2000_0000_0000_0000_0000_0000 <= o <= 0x2000_0000_0000_0000_0000_0000,
        ;
        assert(p.off * c.den == p.off) by (nonlinear_arith)
            requires
                c.den == 1,
        ;
        assert(p.den * c.den == 1) by (nonlinear_arith)
            requires
                p.den == 1,
                c.den == 1,
        ;
    }
}

/// A map whose divisor is left over can give up one bit more.
proof fn lemma_one_bit_more(m: AxisMap, bits: nat)
    requires
        m.sound(),
        pow2(bits) <= m.den,
        m.coarsened(bits).den > 1,
    ensures
        pow2(bits + 1) <= m.den,
        m.coarsened(bits + 1) == m.coarsened(bits).coarser(),
{
    lemma_lost_bits(m, bits);
    vstd::arithmetic::power2::lemma_pow2_unfold(bits + 1);
    let p = pow2(bits) as int;
    let d = m.coarsened(bits).den as int;
    assert(2 * p <= p * d) by (nonlinear_arith)
        requires
            d >= 2,
            p > 0,
    ;
}

proof fn lemma_bits_given_up(parent: AxisMap, child: AxisMap, given: (nat, nat)) -> (bits: (
    nat,
    nat,
))
    requires
        parent.sound(),
        child.sound(),
        parent.is_moderate(),
        child.is_moderate(),
        pow2(given.0) <= parent.den,
        pow2(given.1) <= child.den,
    ensures
        pow2(bits.0) <= parent.den,
        pow2(bits.1) <= child.den,
        parent.coarsened(bits.0).fits(child.coarsened(bits.1)),
        axis_composed(parent.coarsened(given.0), child.coarsened(given.1)) == parent.coarsened(
            bits.0,
        ).exact(child.coarsened(bits.1)),
    decreases parent.coarsened(given.0).magnitude() + child.coarsened(given.1).magnitude(),
{
    let p = parent.coarsened(given.0);
    let c = child.coarsened(given.1);
    lemma_coarsened_is_sound(parent, given.0);
    lemma_coarsened_is_sound(child, given.1);
    if p.fits(c) {
        given
    } else {
        lemma_bits_left(parent, child, given);
        lemma_coarser(p, c);
        if p.den >= c.den {
            lemma_one_bit_more(parent, given.0);
            lemma_bits_given_up(parent, child, (given.0 + 1, given.1))
        } else {
            lemma_one_bit_more(child, given.1);
            lemma_bits_given_up(parent, child, (given.0, given.1 + 1))
        }
    }
}

/// A composition of moderate maps gives up no more bits than their divisors have, and so stays close to
/// the exact one: it is off by no more than [`law_coarse_compositions_are_close`] says.
pub proof fn law_moderate_compositions_are_close(parent: AxisMap, child: AxisMap, x: int) -> (bits: (
    nat,
    nat,
))
    requires
        parent.sound(),
        child.sound(),
        parent.is_moderate(),
        child.is_moderate(),
    ensures
        ({
            let p = parent.coarsened(bits.0);
            let c = child.coarsened(bits.1);
            let m = axis_composed(parent, child);
            let y = x * child.num + child.off;
            let t = y * parent.num + child.den * parent.off;
            &&& pow2(bits.0) <= parent.den
            &&& pow2(bits.1) <= child.den
            &&& m.den == p.den * c.den
            &&& size_of_number(
                parent.den * child.den * (x * m.num + m.off) - t * (p.den * c.den),
            ) <= parent.den * (size_of_number(p.num as int) * (size_of_number(y) + child.den * (
            size_of_number(x) + 1))) + c.den * (size_of_number(t) + parent.den * (size_of_number(y)
                + child.den))
        }),
{
    vstd::arithmetic::power2::lemma2_to64();
    let bits = lemma_bits_given_up(parent, child, (0, 0));
    law_coarse_compositions_are_close(parent, child, bits, x);
    bits
}

/// A group fills its box: the origin of its coordinates goes to the corner of the box, and the far
/// corner of its coordinates to the far corner of the box.
pub proof fn law_coordinates_fill_the_box(
    coord_origin: Option<VmlVector2D>,
    coord_size: VmlVector2D,
    extent: PtSize,
)
    requires
        coord_size.x > 0,
        coord_size.y > 0,
        extent.width.units > 0,
        extent.height.units > 0,
    ensures
        ({
            let t = VmlTransform::of_coord_space(coord_origin, coord_size, extent)->0;
            let o = origin_or_zero(coord_origin);
            &&& t.at(1000 * o.x, 1000 * o.y) == (PtOffset { x: Pt::zero(), y: Pt::zero() })
            &&& t.at(1000 * (o.x + coord_size.x), 1000 * (o.y + coord_size.y)) == (PtOffset {
                x: extent.width,
                y: extent.height,
            })
        }),
{
    let o = origin_or_zero(coord_origin);
    lemma_axis_fills(o.x as int, coord_size.x as int, extent.width.units as int);
    lemma_axis_fills(o.y as int, coord_size.y as int, extent.height.units as int);
}

proof fn lemma_axis_fills(origin: int, size: int, extent: int)
    requires
        i32::MIN <= origin <= i32::MAX,
        0 < size <= i32::MAX,
        0 < extent <= i64::MAX,
    ensures
        axis_map(origin, size, 0, extent).at(1000 * origin) == Pt::zero(),
        axis_map(origin, size, 0, extent).at(1000 * (origin + size)) == (Pt {
            units: extent as i64,
        }),
{
    let m = axis_map(origin, size, 0, extent);
    assert(-0x200_0000_0000_0000_0000_0000_0000 <= 1000 * origin * extent
        <= 0x200_0000_0000_0000_0000_0000_0000) by (nonlinear_arith)
        requires
            -0x8000_0000 <= origin <= 0x7fff_ffff,
            0 < extent <= 0x7fff_ffff_ffff_ffff,
    ;
    assert(0 * (1000 * size) == 0);
    assert(m.off == -(1000 * origin * extent));
    assert((1000 * origin) * extent + m.off == 0) by (nonlinear_arith)
        requires
            m.off == -(1000 * origin * extent),
    ;
    assert((1000 * (origin + size)) * extent + m.off == extent * (1000 * size)) by (nonlinear_arith)
        requires
            m.off == -(1000 * origin * extent),
    ;
    let den = 1000 * size;
    vstd::arithmetic::div_mod::lemma_div_multiples_vanish(extent, den);
    assert((extent * den) / den == extent) by {
        assert(extent * den == den * extent) by (nonlinear_arith);
    }
    assert(0int / den == 0) by {
        vstd::arithmetic::div_mod::lemma_fundamental_div_mod_converse(0, den, 0, 0);
    }
}

/// The length that a measure outside any group stands for. Relative measures stand for none.
pub open spec fn style_length(length: VmlLength) -> Option<Pt> {
    let m = length.milli as int;
    match length.unit {
        VmlLengthUnit::Pt => Some(Pt { units: ratio(m, 381, 5) }),
        VmlLengthUnit::In => Some(Pt { units: ratio(m, 27432, 5) }),
        VmlLengthUnit::Cm => Some(Pt { units: ratio(m, 2160, 1) }),
        VmlLengthUnit::Mm => Some(Pt { units: ratio(m, 216, 1) }),
        VmlLengthUnit::Pc => Some(Pt { units: ratio(m, 4572, 5) }),
        VmlLengthUnit::Px => Some(Pt { units: ratio(m, 1143, 20) }),
        VmlLengthUnit::Bare => Some(Pt { units: ratio(m, 3, 500) }),
        VmlLengthUnit::Em | VmlLengthUnit::Percent => None,
    }
}

/// Resolve a measure outside any group. A bare number counts in English Metric Units.
pub fn top_level_style_length(length: VmlLength) -> (r: Option<Pt>)
    ensures
        r == style_length(length),
{
    let m = Pt::from_units(length.milli);
    match length.unit {
        VmlLengthUnit::Pt => Some(m.scale(Pt::from_units(381), Pt::from_units(5))),
        VmlLengthUnit::In => Some(m.scale(Pt::from_units(27432), Pt::from_units(5))),
        VmlLengthUnit::Cm => Some(m.scale(Pt::from_units(2160), Pt::from_units(1))),
        VmlLengthUnit::Mm => Some(m.scale(Pt::from_units(216), Pt::from_units(1))),
        VmlLengthUnit::Pc => Some(m.scale(Pt::from_units(4572), Pt::from_units(5))),
        VmlLengthUnit::Px => Some(m.scale(Pt::from_units(1143), Pt::from_units(20))),
        VmlLengthUnit::Bare => Some(m.scale(Pt::from_units(3), Pt::from_units(500))),
        VmlLengthUnit::Em | VmlLengthUnit::Percent => None,
    }
}

/// The extent of a group outside any other; none where it has none.
pub open spec fn group_extent(style: VmlStyle) -> Option<PtSize> {
    match (style.width, style.height) {
        (Some(w), Some(h)) => match (style_length(w), style_length(h)) {
            (Some(width), Some(height)) => if width.units <= 0 || height.units <= 0 {
                None
            } else {
                Some(PtSize { width, height })
            },
            _ => None,
        },
        _ => None,
    }
}

/// Measure a group outside any other.
pub fn inline_group_extent(group: &VmlGroup) -> (r: Option<PtSize>)
    ensures
        r == group_extent(group.common.look.style),
{
    let style = &group.common.look.style;
    match (style.width, style.height) {
        (Some(w), Some(h)) => match (top_level_style_length(w), top_level_style_length(h)) {
            (Some(width), Some(height)) => if width.units <= 0 || height.units <= 0 {
                None
            } else {
                Some(PtSize { width, height })
            },
            _ => None,
        },
        _ => None,
    }
}

/// A box in a group's coordinates, in thousandths.
#[derive(Clone, Copy, Debug, PartialEq, Eq, Structural)]
pub struct LocalBox {
    pub left: i64,
    pub top: i64,
    pub width: i64,
    pub height: i64,
}

/// A coordinate of the group, where a measure is one.
#[verifier::allow_in_spec]
pub fn local_coordinate(length: Option<VmlLength>) -> Option<i64>
    returns
        (match length {
            Some(l) => if l.unit == VmlLengthUnit::Bare {
                Some(l.milli)
            } else {
                None
            },
            None => None,
        }),
{
    match length {
        Some(l) => if l.unit == VmlLengthUnit::Bare {
            Some(l.milli)
        } else {
            None
        },
        None => None,
    }
}

/// The box of a shape within a group; none where it has no extent in the group's coordinates.
#[verifier::allow_in_spec]
pub fn local_style_box(style: VmlStyle) -> Option<LocalBox>
    returns
        (match (local_coordinate(style.width), local_coordinate(style.height)) {
            (Some(width), Some(height)) => if width > 0 && height > 0 {
                Some(
                    LocalBox {
                        left: match local_coordinate(style.left) {
                            Some(l) => l,
                            None => 0,
                        },
                        top: match local_coordinate(style.top) {
                            Some(t) => t,
                            None => 0,
                        },
                        width,
                        height,
                    },
                )
            } else {
                None
            },
            _ => None,
        }),
{
    match (local_coordinate(style.width), local_coordinate(style.height)) {
        (Some(width), Some(height)) => if width > 0 && height > 0 {
            Some(
                LocalBox {
                    left: match local_coordinate(style.left) {
                        Some(l) => l,
                        None => 0,
                    },
                    top: match local_coordinate(style.top) {
                        Some(t) => t,
                        None => 0,
                    },
                    width,
                    height,
                },
            )
        } else {
            None
        },
        _ => None,
    }
}

/// The map from the coordinates of a nested group to those of the group around it.
pub open spec fn nested_map(
    style: VmlStyle,
    coord_origin: Option<VmlVector2D>,
    coord_size: Option<VmlVector2D>,
) -> Option<VmlTransform> {
    let origin = origin_or_zero(coord_origin);
    match (local_style_box(style), coord_size) {
        (Some(b), Some(size)) => if size.x == 0 || size.y == 0 {
            None
        } else {
            Some(
                VmlTransform {
                    x: axis_map(origin.x as int, size.x as int, b.left as int, b.width as int),
                    y: axis_map(origin.y as int, size.y as int, b.top as int, b.height as int),
                },
            )
        },
        _ => None,
    }
}

/// Build the map from the coordinates of a nested group to those of the group around it.
pub fn nested_group_transform(group: &VmlGroup) -> (r: Option<VmlTransform>)
    ensures
        r == nested_map(group.common.look.style, group.coord_origin, group.coord_size),
        r matches Some(t) ==> t.sound(),
{
    let origin = origin_or_zero(group.coord_origin);
    match (local_style_box(group.common.look.style), group.coord_size) {
        (Some(b), Some(size)) => if size.x == 0 || size.y == 0 {
            None
        } else {
            Some(
                VmlTransform {
                    x: build_axis_map(origin.x, size.x, b.left, b.width),
                    y: build_axis_map(origin.y, size.y, b.top, b.height),
                },
            )
        },
        _ => None,
    }
}

/// A colour with an opacity in 65536ths.
#[derive(Clone, Copy, Debug, PartialEq, Eq, Structural)]
pub struct Rgba {
    pub r: u8,
    pub g: u8,
    pub b: u8,
    pub a: u32,
}

/// The opacity of something opaque.
pub const OPAQUE: u32 = 65536;

/// The colour that a colour value stands for; none for a name without a fixed colour.
#[verifier::allow_in_spec]
pub fn vml_color_to_rgba(color: VmlColor) -> Option<Rgba>
    returns
        (match color {
            VmlColor::Rgb(r, g, b) => Some(Rgba { r, g, b, a: OPAQUE }),
            VmlColor::Named(name) => match name {
                VmlNamedColor::Black
                | VmlNamedColor::WindowText
                | VmlNamedColor::ButtonText
                | VmlNamedColor::CaptionText
                | VmlNamedColor::MenuText => Some(Rgba { r: 0, g: 0, b: 0, a: OPAQUE }),
                VmlNamedColor::White
                | VmlNamedColor::Window
                | VmlNamedColor::ButtonHighlight
                | VmlNamedColor::HighlightText => Some(Rgba { r: 255, g: 255, b: 255, a: OPAQUE }),
                VmlNamedColor::Silver => Some(Rgba { r: 192, g: 192, b: 192, a: OPAQUE }),
                VmlNamedColor::Gray | VmlNamedColor::GrayText => Some(
                    Rgba { r: 128, g: 128, b: 128, a: OPAQUE },
                ),
                VmlNamedColor::Red => Some(Rgba { r: 255, g: 0, b: 0, a: OPAQUE }),
                VmlNamedColor::Blue => Some(Rgba { r: 0, g: 0, b: 255, a: OPAQUE }),
                VmlNamedColor::Green => Some(Rgba { r: 0, g: 128, b: 0, a: OPAQUE }),
                VmlNamedColor::Lime => Some(Rgba { r: 0, g: 255, b: 0, a: OPAQUE }),
                VmlNamedColor::Yellow => Some(Rgba { r: 255, g: 255, b: 0, a: OPAQUE }),
                VmlNamedColor::Aqua | VmlNamedColor::Cyan => Some(
                    Rgba { r: 0, g: 255, b: 255, a: OPAQUE },
                ),
                VmlNamedColor::Fuchsia | VmlNamedColor::Magenta => Some(
                    Rgba { r: 255, g: 0, b: 255, a: OPAQUE },
                ),
                VmlNamedColor::Maroon => Some(Rgba { r: 128, g: 0, b: 0, a: OPAQUE }),
                VmlNamedColor::Purple => Some(Rgba { r: 128, g: 0, b: 128, a: OPAQUE }),
                VmlNamedColor::Olive => Some(Rgba { r: 128, g: 128, b: 0, a: OPAQUE }),
                VmlNamedColor::Navy => Some(Rgba { r: 0, g: 0, b: 128, a: OPAQUE }),
                VmlNamedColor::Teal => Some(Rgba { r: 0, g: 128, b: 128, a: OPAQUE }),
                VmlNamedColor::Orange => Some(Rgba { r: 255, g: 165, b: 0, a: OPAQUE }),
                VmlNamedColor::Unknown => None,
            },
        }),
{
    match color {
        VmlColor::Rgb(r, g, b) => Some(Rgba { r, g, b, a: OPAQUE }),
        VmlColor::Named(name) => match name {
            VmlNamedColor::Black
            | VmlNamedColor::WindowText
            | VmlNamedColor::ButtonText
            | VmlNamedColor::CaptionText
            | VmlNamedColor::MenuText => Some(Rgba { r: 0, g: 0, b: 0, a: OPAQUE }),
            VmlNamedColor::White
            | VmlNamedColor::Window
            | VmlNamedColor::ButtonHighlight
            | VmlNamedColor::HighlightText => Some(Rgba { r: 255, g: 255, b: 255, a: OPAQUE }),
            VmlNamedColor::Silver => Some(Rgba { r: 192, g: 192, b: 192, a: OPAQUE }),
            VmlNamedColor::Gray | VmlNamedColor::GrayText => Some(
                Rgba { r: 128, g: 128, b: 128, a: OPAQUE },
            ),
            VmlNamedColor::Red => Some(Rgba { r: 255, g: 0, b: 0, a: OPAQUE }),
            VmlNamedColor::Blue => Some(Rgba { r: 0, g: 0, b: 255, a: OPAQUE }),
            VmlNamedColor::Green => Some(Rgba { r: 0, g: 128, b: 0, a: OPAQUE }),
            VmlNamedColor::Lime => Some(Rgba { r: 0, g: 255, b: 0, a: OPAQUE }),
            VmlNamedColor::Yellow => Some(Rgba { r: 255, g: 255, b: 0, a: OPAQUE }),
            VmlNamedColor::Aqua | VmlNamedColor::Cyan => Some(
                Rgba { r: 0, g: 255, b: 255, a: OPAQUE },
            ),
            VmlNamedColor::Fuchsia | VmlNamedColor::Magenta => Some(
                Rgba { r: 255, g: 0, b: 255, a: OPAQUE },
            ),
            VmlNamedColor::Maroon => Some(Rgba { r: 128, g: 0, b: 0, a: OPAQUE }),
            VmlNamedColor::Purple => Some(Rgba { r: 128, g: 0, b: 128, a: OPAQUE }),
            VmlNamedColor::Olive => Some(Rgba { r: 128, g: 128, b: 0, a: OPAQUE }),
            VmlNamedColor::Navy => Some(Rgba { r: 0, g: 0, b: 128, a: OPAQUE }),
            VmlNamedColor::Teal => Some(Rgba { r: 0, g: 128, b: 128, a: OPAQUE }),
            VmlNamedColor::Orange => Some(Rgba { r: 255, g: 165, b: 0, a: OPAQUE }),
            VmlNamedColor::Unknown => None,
        },
    }
}

/// The colour of an optional value.
#[verifier::allow_in_spec]
pub fn color_of(color: Option<VmlColor>) -> Option<Rgba>
    returns
        (match color {
            Some(c) => vml_color_to_rgba(c),
            None => None,
        }),
{
    match color {
        Some(c) => vml_color_to_rgba(c),
        None => None,
    }
}

/// An opacity within its bounds; opaque where none is given.
#[verifier::allow_in_spec]
pub fn clamped_opacity(opacity: Option<i32>) -> u32
    returns
        (match opacity {
            None => OPAQUE,
            Some(o) => if o < 0 {
                0u32
            } else if o > 65536 {
                OPAQUE
            } else {
                o as u32
            },
        }),
{
    match opacity {
        None => OPAQUE,
        Some(o) => if o < 0 {
            0u32
        } else if o > 65536 {
            OPAQUE
        } else {
            o as u32
        },
    }
}

/// What a shape is filled with.
#[derive(Clone, Copy, Debug, PartialEq, Eq, Structural)]
pub enum ResolvedFill {
    Empty,
    Solid(Rgba),
}

/// The filling by a shape's plain fill colour.
#[verifier::allow_in_spec]
pub fn plain_fill(color: Option<VmlColor>) -> ResolvedFill
    returns
        (match color_of(color) {
            Some(c) => ResolvedFill::Solid(c),
            None => ResolvedFill::Empty,
        }),
{
    match color_of(color) {
        Some(c) => ResolvedFill::Solid(c),
        None => ResolvedFill::Empty,
    }
}

/// Resolve what a shape is filled with: a solid filling of its own, else its plain fill colour.
/// Fillings of other kinds leave it empty.
#[verifier::allow_in_spec]
pub fn resolve_vml_solid_fill(look: VmlLook) -> ResolvedFill
    returns
        (if look.filled == Some(false) {
            ResolvedFill::Empty
        } else {
            match look.fill {
                None => plain_fill(look.fill_color),
                Some(fill) => if fill.fill_type != VmlFillType::Solid {
                    ResolvedFill::Empty
                } else {
                    match color_of(fill.color) {
                        Some(c) => ResolvedFill::Solid(
                            Rgba { r: c.r, g: c.g, b: c.b, a: clamped_opacity(fill.opacity) },
                        ),
                        None => plain_fill(look.fill_color),
                    }
                },
            }
        }),
{
    if look.filled == Some(false) {
        return ResolvedFill::Empty;
    }
    match look.fill {
        None => plain_fill(look.fill_color),
        Some(fill) => if fill.fill_type != VmlFillType::Solid {
            ResolvedFill::Empty
        } else {
            match color_of(fill.color) {
                Some(c) => ResolvedFill::Solid(
                    Rgba { r: c.r, g: c.g, b: c.b, a: clamped_opacity(fill.opacity) },
                ),
                None => plain_fill(look.fill_color),
            }
        },
    }
}

/// The dashes of a line, as lengths drawn and left out in turn.
#[derive(Clone, Copy, Debug, PartialEq, Eq, Structural)]
pub enum ResolvedDashPattern {
    Solid,
    Dashes { on: Pt, off: Pt },
    DashDots { dash: Pt, gap: Pt, dot: Pt, last_gap: Pt },
}

/// The corners of a line.
#[derive(Clone, Copy, Debug, PartialEq, Eq, Structural)]
pub enum ResolvedLineJoin {
    Round,
    Bevel,
    Miter,
}

/// The outline of a shape.
#[derive(Clone, Copy, Debug, PartialEq, Eq, Structural)]
pub struct ResolvedStroke {
    pub width: Pt,
    pub color: Rgba,
    pub dash: ResolvedDashPattern,
    pub join: ResolvedLineJoin,
}

/// The dashes of a line of the given width.
#[verifier::allow_in_spec]
pub fn dash_pattern(style: Option<VmlDashStyle>, width: Pt) -> ResolvedDashPattern
    returns
        (match style {
            None | Some(VmlDashStyle::Solid) => ResolvedDashPattern::Solid,
            Some(VmlDashStyle::ShortDot)
            | Some(VmlDashStyle::Dot) => ResolvedDashPattern::Dashes { on: width, off: width.times(2) },
            Some(VmlDashStyle::ShortDash) => ResolvedDashPattern::Dashes {
                on: width.times(3),
                off: width.times(2),
            },
            Some(VmlDashStyle::Dash)
            | Some(VmlDashStyle::LongDash) => ResolvedDashPattern::Dashes {
                on: width.times(6),
                off: width.times(3),
            },
            Some(_) => ResolvedDashPattern::DashDots {
                dash: width.times(6),
                gap: width.times(2),
                dot: width,
                last_gap: width.times(2),
            },
        }),
{
    match style {
        None | Some(VmlDashStyle::Solid) => ResolvedDashPattern::Solid,
        Some(VmlDashStyle::ShortDot)
        | Some(VmlDashStyle::Dot) => ResolvedDashPattern::Dashes { on: width, off: width.times(2) },
        Some(VmlDashStyle::ShortDash) => ResolvedDashPattern::Dashes {
            on: width.times(3),
            off: width.times(2),
        },
        Some(VmlDashStyle::Dash)
        | Some(VmlDashStyle::LongDash) => ResolvedDashPattern::Dashes {
            on: width.times(6),
            off: width.times(3),
        },
        Some(_) => ResolvedDashPattern::DashDots {
            dash: width.times(6),
            gap: width.times(2),
            dot: width,
            last_gap: width.times(2),
        },
    }
}

/// The width of a shape's outline: its own, else the plain one, else three quarters of a point.
pub open spec fn stroke_width(look: VmlLook) -> Pt {
    let weight = match look.stroke {
        Some(VmlStroke { weight: Some(w), .. }) => Some(w),
        _ => look.stroke_weight,
    };
    let length = match weight {
        Some(w) => style_length(w),
        None => None,
    };
    match length {
        Some(w) => w,
        None => Pt { units: 57150 },
    }
}

/// The colour of a shape's outline: its own, else the plain one, else black.
#[verifier::allow_in_spec]
pub fn stroke_color(look: VmlLook) -> Rgba
    returns
        (match color_of(
            match look.stroke {
                Some(VmlStroke { color: Some(c), .. }) => Some(c),
                _ => look.stroke_color,
            },
        ) {
            Some(c) => c,
            None => Rgba { r: 0, g: 0, b: 0, a: OPAQUE },
        }),
{
    let color = match look.stroke {
        Some(VmlStroke { color: Some(c), .. }) => Some(c),
        _ => look.stroke_color,
    };
    match color_of(color) {
        Some(c) => c,
        None => Rgba { r: 0, g: 0, b: 0, a: OPAQUE },
    }
}

/// The outline of a shape; none where it is switched off or has no width.
pub open spec fn resolved_stroke(look: VmlLook) -> Option<ResolvedStroke> {
    let width = stroke_width(look);
    if look.stroked == Some(false) || width.units <= 0 {
        None
    } else {
        Some(
            ResolvedStroke {
                width,
                color: stroke_color(look),
                dash: dash_pattern(
                    match look.stroke {
                        Some(s) => s.dash_style,
                        None => None,
                    },
                    width,
                ),
                join: match look.stroke {
                    Some(VmlStroke { join_style: Some(VmlJoinStyle::Round), .. }) => ResolvedLineJoin::Round,
                    Some(VmlStroke { join_style: Some(VmlJoinStyle::Bevel), .. }) => ResolvedLineJoin::Bevel,
                    _ => ResolvedLineJoin::Miter,
                },
            },
        )
    }
}

/// Resolve the outline of a shape.
pub fn resolve_vml_stroke(look: VmlLook) -> (r: Option<ResolvedStroke>)
    ensures
        r == resolved_stroke(look),
{
    if look.stroked == Some(false) {
        return None;
    }
    let weight = match look.stroke {
        Some(VmlStroke { weight: Some(w), .. }) => Some(w),
        _ => look.stroke_weight,
    };
    let length = match weight {
        Some(w) => top_level_style_length(w),
        None => None,
    };
    let width = match length {
        Some(w) => w,
        None => Pt::from_units(57150),
    };
    if width.units <= 0 {
        return None;
    }
    Some(
        ResolvedStroke {
            width,
            color: stroke_color(look),
            dash: dash_pattern(
                match look.stroke {
                    Some(s) => s.dash_style,
                    None => None,
                },
                width,
            ),
            join: match look.stroke {
                Some(VmlStroke { join_style: Some(VmlJoinStyle::Round), .. }) => ResolvedLineJoin::Round,
                Some(VmlStroke { join_style: Some(VmlJoinStyle::Bevel), .. }) => ResolvedLineJoin::Bevel,
                _ => ResolvedLineJoin::Miter,
            },
        },
    )
}

/// A step along an outline.
#[derive(Clone, Copy, Debug, PartialEq, Eq, Structural)]
pub enum PathVerb {
    MoveTo(PtOffset),
    LineTo(PtOffset),
    QuadTo(PtOffset, PtOffset),
    CubicTo(PtOffset, PtOffset, PtOffset),
    Close,
}

/// A part of the shorter side of a box.
#[derive(Clone, Copy, Debug, PartialEq, Eq, Structural)]
pub struct CornerRatio {
    pub num: i64,
    pub den: i64,
}

/// The radius of the corners of a box: half of the shorter side at most.
pub open spec fn corner_radius(extent: PtSize, corner: Option<CornerRatio>) -> Pt {
    let side = extent.width.min(extent.height);
    match corner {
        None => Pt::zero(),
        Some(c) => if c.den <= 0 || c.num <= 0 {
            Pt::zero()
        } else if 2 * c.num >= c.den {
            side.half()
        } else {
            Pt { units: ratio(side.units as int, c.num as int, c.den as int) }
        },
    }
}

fn find_corner_radius(extent: PtSize, corner: Option<CornerRatio>) -> (r: Pt)
    ensures
        r == corner_radius(extent, corner),
{
    let side = extent.width.min(extent.height);
    match corner {
        None => Pt::zero(),
        Some(c) => if c.den <= 0 || c.num <= 0 {
            Pt::zero()
        } else if c.num >= c.den - c.num {
            side.half()
        } else {
            side.scale(Pt::from_units(c.num), Pt::from_units(c.den))
        },
    }
}

/// The outline of a box: its four sides, or with round corners four sides and four arcs.
pub open spec fn box_outline(extent: PtSize, corner: Option<CornerRatio>) -> Seq<PathVerb> {
    let radius = corner_radius(extent, corner);
    let zero = Pt::zero();
    let right = extent.width;
    let bottom = extent.height;
    if radius.units <= 0 {
        seq![
            PathVerb::MoveTo(PtOffset::new(zero, zero)),
            PathVerb::LineTo(PtOffset::new(right, zero)),
            PathVerb::LineTo(PtOffset::new(right, bottom)),
            PathVerb::LineTo(PtOffset::new(zero, bottom)),
            PathVerb::Close,
        ]
    } else {
        seq![
            PathVerb::MoveTo(PtOffset::new(radius, zero)),
            PathVerb::LineTo(PtOffset::new(right.minus(radius), zero)),
            PathVerb::QuadTo(PtOffset::new(right, zero), PtOffset::new(right, radius)),
            PathVerb::LineTo(PtOffset::new(right, bottom.minus(radius))),
            PathVerb::QuadTo(
                PtOffset::new(right, bottom),
                PtOffset::new(right.minus(radius), bottom),
            ),
            PathVerb::LineTo(PtOffset::new(radius, bottom)),
            PathVerb::QuadTo(
                PtOffset::new(zero, bottom),
                PtOffset::new(zero, bottom.minus(radius)),
            ),
            PathVerb::LineTo(PtOffset::new(zero, radius)),
            PathVerb::QuadTo(PtOffset::new(zero, zero), PtOffset::new(radius, zero)),
            PathVerb::Close,
        ]
    }
}

/// Draw the outline of a box.
pub fn box_path_verbs(extent: PtSize, corner: Option<CornerRatio>) -> (r: Vec<PathVerb>)
    ensures
        r@ == box_outline(extent, corner),
{
    let radius = find_corner_radius(extent, corner);
    let zero = Pt::zero();
    let right = extent.width;
    let bottom = extent.height;
    let mut verbs: Vec<PathVerb> = Vec::new();
    if radius.units <= 0 {
        verbs.push(PathVerb::MoveTo(PtOffset::new(zero, zero)));
        verbs.push(PathVerb::LineTo(PtOffset::new(right, zero)));
        verbs.push(PathVerb::LineTo(PtOffset::new(right, bottom)));
        verbs.push(PathVerb::LineTo(PtOffset::new(zero, bottom)));
        verbs.push(PathVerb::Close);
    } else {
        verbs.push(PathVerb::MoveTo(PtOffset::new(radius, zero)));
        verbs.push(PathVerb::LineTo(PtOffset::new(right.minus(radius), zero)));
        verbs.push(PathVerb::QuadTo(PtOffset::new(right, zero), PtOffset::new(right, radius)));
        verbs.push(PathVerb::LineTo(PtOffset::new(right, bottom.minus(radius))));
        verbs.push(
            PathVerb::QuadTo(
                PtOffset::new(right, bottom),
                PtOffset::new(right.minus(radius), bottom),
            ),
        );
        verbs.push(PathVerb::LineTo(PtOffset::new(radius, bottom)));
        verbs.push(
            PathVerb::QuadTo(
                PtOffset::new(zero, bottom),
                PtOffset::new(zero, bottom.minus(radius)),
            ),
        );
        verbs.push(PathVerb::LineTo(PtOffset::new(zero, radius)));
        verbs.push(PathVerb::QuadTo(PtOffset::new(zero, zero), PtOffset::new(radius, zero)));
        verbs.push(PathVerb::Close);
    }
    assert(verbs@ =~= box_outline(extent, corner));
    verbs
}

/// How far the control points of a quarter of an ellipse stand from its ends.
pub open spec fn control_distance(radius: Pt) -> Pt {
    Pt { units: ratio(radius.units as int, 5522848, 10000000) }
}

/// The outline of an ellipse that fills a box, as four curves.
pub open spec fn oval_outline(extent: PtSize) -> Seq<PathVerb> {
    let cx = extent.width.half();
    let cy = extent.height.half();
    let kx = control_distance(cx);
    let ky = control_distance(cy);
    let zero = Pt::zero();
    seq![
        PathVerb::MoveTo(PtOffset::new(cx, zero)),
        PathVerb::CubicTo(
            PtOffset::new(cx.plus(kx), zero),
            PtOffset::new(extent.width, cy.minus(ky)),
            PtOffset::new(extent.width, cy),
        ),
        PathVerb::CubicTo(
            PtOffset::new(extent.width, cy.plus(ky)),
            PtOffset::new(cx.plus(kx), extent.height),
            PtOffset::new(cx, extent.height),
        ),
        PathVerb::CubicTo(
            PtOffset::new(cx.minus(kx), extent.height),
            PtOffset::new(zero, cy.plus(ky)),
            PtOffset::new(zero, cy),
        ),
        PathVerb::CubicTo(
            PtOffset::new(zero, cy.minus(ky)),
            PtOffset::new(cx.minus(kx), zero),
            PtOffset::new(cx, zero),
        ),
        PathVerb::Close,
    ]
}

/// Draw the outline of an ellipse that fills a box.
pub fn oval_path_verbs(extent: PtSize) -> (r: Vec<PathVerb>)
    ensures
        r@ == oval_outline(extent),
{
    let cx = extent.width.half();
    let cy = extent.height.half();
    let kx = cx.scale(Pt::from_units(5522848), Pt::from_units(10000000));
    let ky = cy.scale(Pt::from_units(5522848), Pt::from_units(10000000));
    let zero = Pt::zero();
    let mut verbs: Vec<PathVerb> = Vec::new();
    verbs.push(PathVerb::MoveTo(PtOffset::new(cx, zero)));
    verbs.push(
        PathVerb::CubicTo(
            PtOffset::new(cx.plus(kx), zero),
            PtOffset::new(extent.width, cy.minus(ky)),
            PtOffset::new(extent.width, cy),
        ),
    );
    verbs.push(
        PathVerb::CubicTo(
            PtOffset::new(extent.width, cy.plus(ky)),
            PtOffset::new(cx.plus(kx), extent.height),
            PtOffset::new(cx, extent.height),
        ),
    );
    verbs.push(
        PathVerb::CubicTo(
            PtOffset::new(cx.minus(kx), extent.height),
            PtOffset::new(zero, cy.plus(ky)),
            PtOffset::new(zero, cy),
        ),
    );
    verbs.push(
        PathVerb::CubicTo(
            PtOffset::new(zero, cy.minus(ky)),
            PtOffset::new(cx.minus(kx), zero),
            PtOffset::new(cx, zero),
        ),
    );
    verbs.push(PathVerb::Close);
    assert(verbs@ =~= oval_outline(extent));
    verbs
}

/// The number of the kind of shape with round corners.
pub const ROUNDED_KIND: u32 = 176;

/// The corners of a kind of shape: its adjustment as a part of the shorter side of its coordinates.
#[verifier::allow_in_spec]
pub fn rounded_corner_ratio(shape_type: VmlShapeType) -> Option<CornerRatio>
    returns
        (match (shape_type.spt, shape_type.coord_size) {
            (Some(spt), Some(size)) => {
                let den = if size.x <= size.y {
                    size.x
                } else {
                    size.y
                };
                if spt == ROUNDED_KIND && den > 0 {
                    Some(
                        CornerRatio {
                            num: match shape_type.adj {
                                Some(a) => a,
                                None => 2700,
                            },
                            den: den as i64,
                        },
                    )
                } else {
                    None
                }
            },
            _ => None,
        }),
{
    match (shape_type.spt, shape_type.coord_size) {
        (Some(spt), Some(size)) => {
            let den: i32 = if size.x <= size.y {
                size.x
            } else {
                size.y
            };
            if spt == ROUNDED_KIND && den > 0 {
                Some(
                    CornerRatio {
                        num: match shape_type.adj {
                            Some(a) => a,
                            None => 2700,
                        },
                        den: den as i64,
                    },
                )
            } else {
                None
            }
        },
        _ => None,
    }
}

/// A command of a drawing.
#[derive(Debug)]
pub enum GraphicCommand {
    /// An outline with its own origin.
    Path {
        origin: PtOffset,
        extent: PtSize,
        verbs: Vec<PathVerb>,
        fill: ResolvedFill,
        stroke: Option<ResolvedStroke>,
    },
    /// A line, or text.
    Plain(DrawCommand),
}

/// The mathematical value of a [`GraphicCommand`].
pub enum GraphicView {
    Path {
        origin: PtOffset,
        extent: PtSize,
        verbs: Seq<PathVerb>,
        fill: ResolvedFill,
        stroke: Option<ResolvedStroke>,
    },
    Plain(DrawCommand),
}

impl View for GraphicCommand {
    type V = GraphicView;

    open spec fn view(&self) -> GraphicView {
        match *self {
            GraphicCommand::Path { origin, extent, verbs, fill, stroke } => GraphicView::Path {
                origin,
                extent,
                verbs: verbs@,
                fill,
                stroke,
            },
            GraphicCommand::Plain(command) => GraphicView::Plain(command),
        }
    }
}

/// The values of a list of commands.
pub open spec fn commands_view(commands: Seq<GraphicCommand>) -> Seq<GraphicView> {
    Seq::new(commands.len(), |i: int| commands[i]@)
}

/// The outline of a shape in its box.
pub enum Outline {
    Box(Option<CornerRatio>),
    Oval,
}

/// The steps of a shape's outline.
pub open spec fn outline_verbs(outline: Outline, extent: PtSize) -> Seq<PathVerb> {
    match outline {
        Outline::Box(corner) => box_outline(extent, corner),
        Outline::Oval => oval_outline(extent),
    }
}

/// The box of a shape on the drawing; none where it has no extent.
pub open spec fn shape_box(style: VmlStyle, t: VmlTransform) -> Option<(PtOffset, PtSize)> {
    match local_style_box(style) {
        None => None,
        Some(b) => {
            let origin = t.at(b.left as int, b.top as int);
            let far = t.at(
                saturate(b.left + b.width) as int,
                saturate(b.top + b.height) as int,
            );
            let extent = PtSize {
                width: far.x.minus(origin.x),
                height: far.y.minus(origin.y),
            };
            if extent.width.units <= 0 || extent.height.units <= 0 {
                None
            } else {
                Some((origin, extent))
            }
        },
    }
}

/// The text of a shape drawn over it; none without a line height to set it in.
pub open spec fn shape_text(
    text_box: Option<Vec<LayoutBlock>>,
    origin: PtOffset,
    extent: PtSize,
    line_height: Option<Pt>,
) -> Seq<GraphicView> {
    match (text_box, line_height) {
        (Some(blocks), Some(h)) => {
            plain_views(
                shift_all(
                    cell_layout(
                        blocks@,
                        extent.width,
                        PtEdgeInsets::zero(),
                        h,
                        PageParity::Odd,
                    ).commands,
                    origin.x,
                    origin.y,
                ),
            )
        },
        _ => Seq::empty(),
    }
}

/// The commands with a shape drawn after them.
pub open spec fn with_shape(
    acc: Seq<GraphicView>,
    common: VmlCommonAttrs,
    outline: Outline,
    t: VmlTransform,
    line_height: Option<Pt>,
) -> Seq<GraphicView> {
    match shape_box(common.look.style, t) {
        None => acc,
        Some((origin, extent)) => acc.push(
            GraphicView::Path {
                origin,
                extent,
                verbs: outline_verbs(outline, extent),
                fill: resolve_vml_solid_fill(common.look),
                stroke: resolved_stroke(common.look),
            },
        ) + shape_text(common.text_box, origin, extent, line_height),
    }
}

/// The commands with a line drawn after them, if it has two ends and an outline.
pub open spec fn with_line(
    acc: Seq<GraphicView>,
    look: VmlLook,
    from: Option<VmlPoint>,
    to: Option<VmlPoint>,
    t: VmlTransform,
) -> Seq<GraphicView> {
    match (from, to, resolved_stroke(look)) {
        (Some(a), Some(b), Some(stroke)) => acc.push(
            GraphicView::Plain(
                DrawCommand::Line {
                    line: PtLineSegment {
                        start: t.at(a.x as int, a.y as int),
                        end: t.at(b.x as int, b.y as int),
                    },
                    color: RgbColor { r: stroke.color.r, g: stroke.color.g, b: stroke.color.b },
                    width: stroke.width,
                },
            ),
        ),
        _ => acc,
    }
}

/// The first kind from `i` on with the given name.
pub open spec fn kind_named(types: Seq<VmlShapeType>, i: int, id: u64) -> Option<VmlShapeType>
    decreases types.len() - i,
{
    if i < 0 || i >= types.len() {
        None
    } else if types[i].id == Some(id) {
        Some(types[i])
    } else {
        kind_named(types, i + 1, id)
    }
}

/// The corners of a shape that refers to a kind of shape.
pub open spec fn referred_corner(types: Seq<VmlShapeType>, id: Option<u64>) -> Option<CornerRatio> {
    match id {
        None => None,
        Some(name) => match kind_named(types, 0, name) {
            None => None,
            Some(kind) => rounded_corner_ratio(kind),
        },
    }
}

/// The size of the corners of a rectangle with round corners: half its arc size, and a tenth of the
/// shorter side where none is given.
#[verifier::allow_in_spec]
pub fn arc_corner(arcsize: Option<i32>) -> CornerRatio
    returns
        (CornerRatio {
            num: match arcsize {
                Some(a) => a as i64,
                None => 200,
            },
            den: 2000,
        }),
{
    CornerRatio {
        num: match arcsize {
            Some(a) => a as i64,
            None => 200,
        },
        den: 2000,
    }
}

/// The commands with the shapes from `i` on drawn after them. A nested group without a box
/// or with empty coordinates is left out.
pub open spec fn with_children(
    acc: Seq<GraphicView>,
    primitives: Seq<VmlPrimitive>,
    i: int,
    types: Seq<VmlShapeType>,
    t: VmlTransform,
    line_height: Option<Pt>,
) -> Seq<GraphicView>
    decreases primitives, primitives.len() - i,
{
    if i < 0 || i >= primitives.len() {
        acc
    } else {
        let next = match primitives[i] {
            VmlPrimitive::Shape { common, shape_type_ref } => with_shape(
                acc,
                common,
                Outline::Box(referred_corner(types, shape_type_ref)),
                t,
                line_height,
            ),
            VmlPrimitive::Rect { common } => with_shape(
                acc,
                common,
                Outline::Box(None),
                t,
                line_height,
            ),
            VmlPrimitive::RoundRect { common, arcsize } => with_shape(
                acc,
                common,
                Outline::Box(Some(arc_corner(arcsize))),
                t,
                line_height,
            ),
            VmlPrimitive::Line { common, from, to } => with_line(acc, common.look, from, to, t),
            VmlPrimitive::Oval { common } => with_shape(acc, common, Outline::Oval, t, line_height),
            VmlPrimitive::Group(group) => match nested_map(
                group.common.look.style,
                group.coord_origin,
                group.coord_size,
            ) {
                None => acc,
                Some(child) => with_children(
                    acc,
                    group.children@,
                    0,
                    group.shape_types@,
                    t.composed(child),
                    line_height,
                ),
            },
            _ => acc,
        };
        with_children(next, primitives, i + 1, types, t, line_height)
    }
}

/// The commands that draw a group into a box.
pub open spec fn compiled_group(group: VmlGroup, extent: PtSize, line_height: Option<Pt>) -> Seq<
    GraphicView,
> {
    match group.coord_size {
        None => Seq::empty(),
        Some(size) => match VmlTransform::of_coord_space(group.coord_origin, size, extent) {
            None => Seq::empty(),
            Some(t) => with_children(
                Seq::empty(),
                group.children@,
                0,
                group.shape_types@,
                t,
                line_height,
            ),
        },
    }
}

fn find_shape_box(style: VmlStyle, t: VmlTransform) -> (r: Option<(PtOffset, PtSize)>)
    requires
        t.sound(),
    ensures
        r == shape_box(style, t),
{
    match local_style_box(style) {
        None => None,
        Some(b) => {
            let origin = t.map_xy(b.left, b.top);
            let right = Pt::from_units(b.left).plus(Pt::from_units(b.width)).units;
            let bottom = Pt::from_units(b.top).plus(Pt::from_units(b.height)).units;
            let far = t.map_xy(right, bottom);
            let extent = PtSize {
                width: far.x.minus(origin.x),
                height: far.y.minus(origin.y),
            };
            if extent.width.units <= 0 || extent.height.units <= 0 {
                None
            } else {
                Some((origin, extent))
            }
        },
    }
}

/// Commands as commands of a drawing.
pub open spec fn plain_views(commands: Seq<DrawCommand>) -> Seq<GraphicView> {
    Seq::new(commands.len(), |i: int| GraphicView::Plain(commands[i]))
}

fn push_plain(source: &Vec<DrawCommand>, commands: &mut Vec<GraphicCommand>)
    ensures
        commands_view(final(commands)@) == commands_view(old(commands)@) + plain_views(source@),
{
    let ghost before = commands_view(commands@);
    let ghost wanted = plain_views(source@);
    let mut i: usize = 0;
    assert(commands_view(commands@) =~= before + wanted.take(0));
    while i < source.len()
        invariant
            i <= source@.len(),
            wanted == plain_views(source@),
            commands_view(commands@) == before + wanted.take(i as int),
        decreases source@.len() - i,
    {
        let ghost previous = commands@;
        commands.push(GraphicCommand::Plain(source[i]));
        i += 1;
        assert(commands_view(commands@) =~= commands_view(previous).push(
            GraphicView::Plain(source@[i - 1]),
        ));
        assert(commands_view(commands@) =~= before + wanted.take(i as int));
    }
    assert(wanted.take(i as int) =~= wanted);
}

fn push_shape_text(
    text_box: &Option<Vec<LayoutBlock>>,
    origin: PtOffset,
    extent: PtSize,
    line_height: Option<Pt>,
    commands: &mut Vec<GraphicCommand>,
)
    ensures
        commands_view(final(commands)@) == commands_view(old(commands)@) + shape_text(
            *text_box,
            origin,
            extent,
            line_height,
        ),
{
    let ghost before = commands_view(commands@);
    match (text_box, line_height) {
        (Some(blocks), Some(h)) => {
            let laid = layout_cell(
                blocks.as_slice(),
                extent.width,
                &PtEdgeInsets::zero(),
                h,
                PageParity::Odd,
            );
            let mut shifted: Vec<DrawCommand> = Vec::new();
            append_shifted(
                &mut shifted,
                laid.commands.as_slice(),
                0,
                laid.commands.len(),
                origin.x,
                origin.y,
            );
            assert(laid.commands@.subrange(0, laid.commands@.len() as int) =~= laid.commands@);
            assert(shifted@ =~= shift_all(laid.commands@, origin.x, origin.y));
            push_plain(&shifted, commands);
        },
        _ => {
            assert(before + Seq::<GraphicView>::empty() =~= before);
        },
    }
}

fn push_shape(
    common: &VmlCommonAttrs,
    verbs_for_oval: bool,
    corner: Option<CornerRatio>,
    t: VmlTransform,
    line_height: Option<Pt>,
    commands: &mut Vec<GraphicCommand>,
)
    requires
        t.sound(),
    ensures
        commands_view(final(commands)@) == with_shape(
            commands_view(old(commands)@),
            *common,
            if verbs_for_oval {
                Outline::Oval
            } else {
                Outline::Box(corner)
            },
            t,
            line_height,
        ),
{
    let ghost before = commands_view(commands@);
    if let Some((origin, extent)) = find_shape_box(common.look.style, t) {
        let verbs = if verbs_for_oval {
            oval_path_verbs(extent)
        } else {
            box_path_verbs(extent, corner)
        };
        let command = GraphicCommand::Path {
            origin,
            extent,
            verbs,
            fill: resolve_vml_solid_fill(common.look),
            stroke: resolve_vml_stroke(common.look),
        };
        let ghost view = command@;
        commands.push(command);
        assert(commands_view(commands@) =~= before.push(view));
        push_shape_text(&common.text_box, origin, extent, line_height, commands);
    }
}

/// Draw a box into a group.
pub fn compile_box(
    common: &VmlCommonAttrs,
    corner: Option<CornerRatio>,
    transform: VmlTransform,
    line_height: Option<Pt>,
    commands: &mut Vec<GraphicCommand>,
)
    requires
        transform.sound(),
    ensures
        commands_view(final(commands)@) == with_shape(
            commands_view(old(commands)@),
            *common,
            Outline::Box(corner),
            transform,
            line_height,
        ),
{
    push_shape(common, false, corner, transform, line_height, commands);
}

/// Draw an ellipse into a group.
pub fn compile_oval(
    common: &VmlCommonAttrs,
    transform: VmlTransform,
    line_height: Option<Pt>,
    commands: &mut Vec<GraphicCommand>,
)
    requires
        transform.sound(),
    ensures
        commands_view(final(commands)@) == with_shape(
            commands_view(old(commands)@),
            *common,
            Outline::Oval,
            transform,
            line_height,
        ),
{
    push_shape(common, true, None, transform, line_height, commands);
}

fn compile_line(
    look: VmlLook,
    from: Option<VmlPoint>,
    to: Option<VmlPoint>,
    t: VmlTransform,
    commands: &mut Vec<GraphicCommand>,
)
    requires
        t.sound(),
    ensures
        commands_view(final(commands)@) == with_line(
            commands_view(old(commands)@),
            look,
            from,
            to,
            t,
        ),
{
    let ghost before = commands_view(commands@);
    match (from, to, resolve_vml_stroke(look)) {
        (Some(a), Some(b), Some(stroke)) => {
            let command = DrawCommand::Line {
                line: PtLineSegment { start: t.map_point(a), end: t.map_point(b) },
                color: RgbColor { r: stroke.color.r, g: stroke.color.g, b: stroke.color.b },
                width: stroke.width,
            };
            commands.push(GraphicCommand::Plain(command));
            assert(commands_view(commands@) =~= before.push(GraphicView::Plain(command)));
        },
        _ => {},
    }
}

fn find_corner(types: &Vec<VmlShapeType>, id: Option<u64>) -> (r: Option<CornerRatio>)
    ensures
        r == referred_corner(types@, id),
{
    match id {
        None => None,
        Some(name) => {
            let mut i: usize = 0;
            while i < types.len()
                invariant
                    i <= types@.len(),
                    kind_named(types@, i as int, name) == kind_named(types@, 0, name),
                    id == Some(name),
                decreases types@.len() - i,
            {
                if types[i].id == Some(name) {
                    return rounded_corner_ratio(types[i]);
                }
                i += 1;
            }
            None
        },
    }
}

/// Draw the shapes of a group.
pub fn compile_children(
    primitives: &Vec<VmlPrimitive>,
    shape_types: &Vec<VmlShapeType>,
    transform: VmlTransform,
    line_height: Option<Pt>,
    commands: &mut Vec<GraphicCommand>,
)
    requires
        transform.sound(),
    ensures
        commands_view(final(commands)@) == with_children(
            commands_view(old(commands)@),
            primitives@,
            0,
            shape_types@,
            transform,
            line_height,
        ),
    decreases primitives@,
{
    let ghost before = commands_view(commands@);
    let mut i: usize = 0;
    while i < primitives.len()
        invariant
            i <= primitives@.len(),
            transform.sound(),
            with_children(
                commands_view(commands@),
                primitives@,
                i as int,
                shape_types@,
                transform,
                line_height,
            ) == with_children(
                before,
                primitives@,
                0,
                shape_types@,
                transform,
                line_height,
            ),
        decreases primitives@.len() - i,
    {
        match &primitives[i] {
            VmlPrimitive::Shape { common, shape_type_ref } => {
                let corner = find_corner(shape_types, *shape_type_ref);
                compile_box(common, corner, transform, line_height, commands);
            },
            VmlPrimitive::Rect { common } => {
                compile_box(common, None, transform, line_height, commands);
            },
            VmlPrimitive::RoundRect { common, arcsize } => {
                compile_box(
                    common,
                    Some(arc_corner(*arcsize)),
                    transform,
                    line_height,
                    commands,
                );
            },
            VmlPrimitive::Line { common, from, to } => {
                compile_line(common.look, *from, *to, transform, commands);
            },
            VmlPrimitive::Oval { common } => {
                compile_oval(common, transform, line_height, commands);
            },
            VmlPrimitive::Group(group) => {
                if let Some(child) = nested_group_transform(group) {
                    let inner = transform.compose(child);
                    proof {
                        assert(decreases_to!(primitives@ => primitives@[i as int]));
                        assert(decreases_to!(group.children => group.children@));
                    }
                    compile_children(
                        &group.children,
                        &group.shape_types,
                        inner,
                        line_height,
                        commands,
                    );
                }
            },
            _ => {},
        }
        i += 1;
    }
}

/// Draw a group into a box. Text is set where a line height is given.
pub fn compile_group(group: &VmlGroup, extent: PtSize, line_height: Option<Pt>) -> (r: Vec<
    GraphicCommand,
>)
    ensures
        commands_view(r@) == compiled_group(*group, extent, line_height),
{
    let mut commands: Vec<GraphicCommand> = Vec::new();
    assert(commands_view(commands@) =~= Seq::empty());
    let size = match group.coord_size {
        Some(s) => s,
        None => {
            return commands;
        },
    };
    if let Some(t) = VmlTransform::from_coord_space(group.coord_origin, size, extent) {
        compile_children(&group.children, &group.shape_types, t, line_height, &mut commands);
    }
    commands
}

/// A drawing in the text.
#[derive(Debug)]
pub struct InlineGraphic {
    pub size: PtSize,
    pub source: VmlGroup,
    /// What draws it, once that is known.
    pub commands: Vec<GraphicCommand>,
}

/// What draws a drawing: what is known already, else its group drawn into its box.
pub open spec fn graphic_commands(g: InlineGraphic, line_height: Option<Pt>) -> Seq<GraphicView> {
    if g.commands@.len() == 0 {
        compiled_group(g.source, g.size, line_height)
    } else {
        commands_view(g.commands@)
    }
}

/// Draw all drawings that have not been drawn yet.
pub fn populate_inline_graphics(graphics: &mut Vec<InlineGraphic>, line_height: Option<Pt>)
    ensures
        final(graphics)@.len() == old(graphics)@.len(),
        forall|i: int| #![trigger final(graphics)@[i]]
            0 <= i < old(graphics)@.len() ==> final(graphics)@[i].size == old(graphics)@[i].size
                && final(graphics)@[i].source == old(graphics)@[i].source && commands_view(
                final(graphics)@[i].commands@,
            ) == graphic_commands(old(graphics)@[i], line_height),
{
    let mut i: usize = 0;
    while i < graphics.len()
        invariant
            i <= graphics@.len(),
            graphics@.len() == old(graphics)@.len(),
            forall|k: int| #![trigger graphics@[k]]
                0 <= k < i ==> graphics@[k].size == old(graphics)@[k].size && graphics@[k].source
                    == old(graphics)@[k].source && commands_view(graphics@[k].commands@)
                    == graphic_commands(old(graphics)@[k], line_height),
            forall|k: int| #![trigger graphics@[k]]
                i <= k < graphics@.len() ==> graphics@[k] == old(graphics)@[k],
        decreases graphics@.len() - i,
    {
        if graphics[i].commands.len() == 0 {
            let commands = compile_group(&graphics[i].source, graphics[i].size, line_height);
            graphics[i].commands = commands;
        }
        i += 1;
    }
}

} // verus!
