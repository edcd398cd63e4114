//! How large drawings and their shapes are, where they stand and how they look.
use crate::block::PageParity;
use crate::dimension::{ratio, Pt};
use crate::draw_command::DrawCommand;
use crate::geometry::{PtEdgeInsets, PtSize};
use crate::note_laws::is_length;
use crate::table::measure::cell_layout;
use crate::vml::{
    arc_corner, axis_map, color_of, compiled_group, corner_radius, dash_pattern, group_extent,
    kind_named, law_coordinates_fill_the_box, local_style_box, nested_map, origin_or_zero,
    outline_verbs, referred_corner, resolve_vml_solid_fill, resolved_stroke, rounded_corner_ratio,
    shape_box, stroke_color, style_length, vml_color_to_rgba, with_children, with_line, with_shape,
    AxisMap, GraphicView, Outline, ResolvedDashPattern, ResolvedFill, Rgba, VmlColor,
    VmlCommonAttrs, VmlDashStyle, VmlGroup, VmlJoinStyle, VmlLength, VmlLengthUnit, VmlLook,
    VmlNamedColor, VmlPoint, VmlPrimitive, VmlShapeType, VmlStyle, VmlTransform, VmlVector2D,
};
use vstd::prelude::*;

verus! {

/// The length of `milli` thousandths of a unit.
pub open spec fn length_of(milli: int, unit: VmlLengthUnit) -> Option<Pt> {
    style_length(VmlLength { milli: milli as i64, unit })
}

/// An inch is 72 points, 2.54 centimetres, 25.4 millimetres, 6 picas, 96 pixels and 914400 bare
/// units, and a point is 76200 fixed-point units. Relative measures have no length of their own.
pub proof fn law_units_are_parts_of_an_inch(milli: int)
    requires
        is_length(914400 * milli),
        is_length(milli * 27432),
    ensures
        length_of(milli, VmlLengthUnit::In) is Some,
        length_of(72 * milli, VmlLengthUnit::Pt) == length_of(milli, VmlLengthUnit::In),
        length_of(254 * milli, VmlLengthUnit::Cm) == length_of(100 * milli, VmlLengthUnit::In),
        length_of(254 * milli, VmlLengthUnit::Mm) == length_of(10 * milli, VmlLengthUnit::In),
        length_of(6 * milli, VmlLengthUnit::Pc) == length_of(milli, VmlLengthUnit::In),
        length_of(96 * milli, VmlLengthUnit::Px) == length_of(milli, VmlLengthUnit::In),
        length_of(914400 * milli, VmlLengthUnit::Bare) == length_of(milli, VmlLengthUnit::In),
        length_of(milli, VmlLengthUnit::Pt) matches Some(length) && 0 <= 76200 * milli - 1000
            * length.units < 1000,
        length_of(milli, VmlLengthUnit::Em) is None,
        length_of(milli, VmlLengthUnit::Percent) is None,
{
    let m = milli;
    assert((914400 * m) * 3 / 500 == (m * 27432) / 5);
    assert((96 * m) * 1143 / 20 == (m * 27432) / 5);
    assert((6 * m) * 4572 / 5 == (m * 27432) / 5);
    assert((72 * m) * 381 / 5 == (m * 27432) / 5);
    assert((254 * m) * 2160 / 1 == (100 * m * 27432) / 5);
    assert((254 * m) * 216 / 1 == (10 * m * 27432) / 5);
    assert(ratio(m, 381, 5) as int == (m * 381) / 5);
}

/// A group outside any other is as large as its style says; and it is not drawn where one of its sides
/// has no length above zero.
pub proof fn law_groups_are_as_large_as_their_style(style: VmlStyle)
    ensures
        match group_extent(style) {
            Some(size) => {
                &&& style.width is Some && style_length(style.width->0) == Some(size.width)
                &&& style.height is Some && style_length(style.height->0) == Some(size.height)
                &&& size.width.units > 0
                &&& size.height.units > 0
            },
            None => {
                ||| style.width is None || style.height is None
                ||| style_length(style.width->0) is None || style_length(style.height->0) is None
                ||| style_length(style.width->0)->0.units <= 0 || style_length(
                    style.height->0,
                )->0.units <= 0
            },
        },
{
}

/// Whether a map takes the coordinate `x` to `y`, both in thousandths, without rounding.
pub open spec fn takes(m: AxisMap, x: int, y: int) -> bool {
    x * m.num + m.off == y * m.den
}

proof fn lemma_axis(origin: int, size: int, start: int, extent: int)
    requires
        i32::MIN <= origin <= i32::MAX,
        i32::MIN <= size <= i32::MAX,
        size != 0,
        i64::MIN <= start <= i64::MAX,
        0 < extent <= i64::MAX,
    ensures
        takes(axis_map(origin, size, start, extent), 1000 * origin, start),
        takes(axis_map(origin, size, start, extent), 1000 * (origin + size), start + extent),
        axis_map(origin, size, start, extent).den > 0,
{
    let num = if size > 0 {
        extent
    } else {
        -extent
    };
    let den = if size > 0 {
        1000 * size
    } else {
        1000 * (-size)
    };
    let m = axis_map(origin, size, start, extent);
    assert(-0x200_0000_0000_0000_0000_0000_0000 <= start * den
        <= 0x200_0000_0000_0000_0000_0000_0000) by (nonlinear_arith)
        requires
            0 < den <= 1000 * 0x8000_0000,
            -0x8000_0000_0000_0000 <= start <= 0x7fff_ffff_ffff_ffff,
    ;
    assert(-0x200_0000_0000_0000_0000_0000_0000 <= 1000 * origin * num
        <= 0x200_0000_0000_0000_0000_0000_0000) by (nonlinear_arith)
        requires
            -0x8000_0000 <= origin <= 0x7fff_ffff,
            -0x7fff_ffff_ffff_ffff <= num <= 0x7fff_ffff_ffff_ffff,
    ;
    assert(m.off == start * den - 1000 * origin * num);
    assert((1000 * origin) * num + (start * den - 1000 * origin * num) == start * den)
        by (nonlinear_arith);
    assert((1000 * (origin + size)) * num + (start * den - 1000 * origin * num) == (start + extent)
        * den) by (nonlinear_arith)
        requires
            (size > 0 && num == extent && den == 1000 * size) || (size < 0 && num == -extent && den
                == -1000 * size),
    ;
}

/// The coordinates of a nested group fill the box that the group has in the group around it: its
/// origin goes to one corner of the box, and the far corner of its coordinates to the opposite one.
pub proof fn law_nested_groups_fill_their_boxes(
    style: VmlStyle,
    coord_origin: Option<VmlVector2D>,
    coord_size: VmlVector2D,
)
    requires
        local_style_box(style) is Some,
        coord_size.x != 0,
        coord_size.y != 0,
    ensures
        ({
            let o = match coord_origin {
                Some(o) => o,
                None => VmlVector2D { x: 0, y: 0 },
            };
            let b = local_style_box(style)->0;
            &&& nested_map(style, coord_origin, Some(coord_size)) matches Some(t)
            &&& takes(t.x, 1000 * o.x, b.left as int)
            &&& takes(t.x, 1000 * (o.x + coord_size.x), b.left + b.width)
            &&& takes(t.y, 1000 * o.y, b.top as int)
            &&& takes(t.y, 1000 * (o.y + coord_size.y), b.top + b.height)
        }),
{
    let o = origin_or_zero(coord_origin);
    let b = local_style_box(style)->0;
    lemma_axis(o.x as int, coord_size.x as int, b.left as int, b.width as int);
    lemma_axis(o.y as int, coord_size.y as int, b.top as int, b.height as int);
}

/// The box of a shape in its group is given by bare numbers: its left and top edge, zero where they
/// are not given so, and its extent, which is above zero in both directions.
pub proof fn law_shapes_have_boxes_in_their_group(style: VmlStyle)
    ensures
        ({
            let bare = |l: Option<VmlLength>| l is Some && l->0.unit is Bare;
            let sized = bare(style.width) && bare(style.height) && style.width->0.milli > 0
                && style.height->0.milli > 0;
            match local_style_box(style) {
                Some(b) => {
                    &&& sized
                    &&& b.width == style.width->0.milli
                    &&& b.height == style.height->0.milli
                    &&& b.left == if bare(style.left) {
                        style.left->0.milli as int
                    } else {
                        0
                    }
                    &&& b.top == if bare(style.top) {
                        style.top->0.milli as int
                    } else {
                        0
                    }
                },
                None => !sized,
            }
        }),
{
}

/// A shape is drawn in its box: one corner of it is where the group's map takes the corner of the box,
/// and the opposite one where the map takes the box's opposite corner.
pub proof fn law_shapes_fill_their_boxes(style: VmlStyle, t: VmlTransform)
    requires
        local_style_box(style) matches Some(b) ==> is_length(b.left + b.width) && is_length(
            b.top + b.height,
        ) && is_length(
            t.x.at(b.left + b.width).units - t.x.at(b.left as int).units,
        ) && is_length(t.y.at(b.top + b.height).units - t.y.at(b.top as int).units),
    ensures
        match shape_box(style, t) {
            Some((origin, extent)) => {
                &&& local_style_box(style) matches Some(b)
                &&& origin.x == t.x.at(b.left as int)
                &&& origin.y == t.y.at(b.top as int)
                &&& origin.x.units + extent.width.units == t.x.at(b.left + b.width).units
                &&& origin.y.units + extent.height.units == t.y.at(b.top + b.height).units
                &&& extent.width.units > 0
                &&& extent.height.units > 0
            },
            None => local_style_box(style) matches Some(b) ==> t.x.at(b.left + b.width).units
                <= t.x.at(b.left as int).units || t.y.at(b.top + b.height).units <= t.y.at(
                b.top as int,
            ).units,
        },
{
}

/// A shape is drawn once, in its box, with its own outline, filling and stroke, and after what has
/// been drawn before. The text in it follows, set in the width of the box from its upper left corner
/// on.
pub proof fn law_shapes_hold_their_text(
    acc: Seq<GraphicView>,
    common: VmlCommonAttrs,
    outline: Outline,
    t: VmlTransform,
    line_height: Option<Pt>,
)
    ensures
        ({
            let r = with_shape(acc, common, outline, t, line_height);
            let n = acc.len() as int;
            match shape_box(common.look.style, t) {
                None => r == acc,
                Some((origin, extent)) => {
                    &&& r.len() > n
                    &&& r.take(n) == acc
                    &&& r[n] == (GraphicView::Path {
                        origin,
                        extent,
                        verbs: outline_verbs(outline, extent),
                        fill: resolve_vml_solid_fill(common.look),
                        stroke: resolved_stroke(common.look),
                    })
                    &&& match (common.text_box, line_height) {
                        (Some(blocks), Some(h)) => {
                            let text = cell_layout(
                                blocks@,
                                extent.width,
                                PtEdgeInsets {
                                    top: Pt::zero(),
                                    right: Pt::zero(),
                                    bottom: Pt::zero(),
                                    left: Pt::zero(),
                                },
                                h,
                                PageParity::Odd,
                            ).commands;
                            &&& r.len() == n + 1 + text.len()
                            &&& forall|k: int| #![trigger text[k]]
                                0 <= k < text.len() ==> r[n + 1 + k] == GraphicView::Plain(
                                    text[k].shifted(origin.x, origin.y),
                                )
                        },
                        _ => r.len() == n + 1,
                    }
                },
            }
        }),
{
    let r = with_shape(acc, common, outline, t, line_height);
    let n = acc.len() as int;
    if shape_box(common.look.style, t) is Some {
        assert(r.take(n) =~= acc);
    }
}

/// A line runs from where the group's map takes its one end to where the map takes the other, as wide
/// and in the colour of its stroke. Without a stroke or without one of its ends it is not drawn.
pub proof fn law_lines_run_between_their_ends(
    acc: Seq<GraphicView>,
    look: VmlLook,
    from: Option<VmlPoint>,
    to: Option<VmlPoint>,
    t: VmlTransform,
)
    ensures
        ({
            let r = with_line(acc, look, from, to, t);
            let n = acc.len() as int;
            if from is Some && to is Some && resolved_stroke(look) is Some {
                let stroke = resolved_stroke(look)->0;
                &&& r.len() == n + 1
                &&& r.take(n) == acc
                &&& r[n] matches GraphicView::Plain(DrawCommand::Line { line, color, width })
                &&& line.start.x == t.x.at(from->0.x as int)
                &&& line.start.y == t.y.at(from->0.y as int)
                &&& line.end.x == t.x.at(to->0.x as int)
                &&& line.end.y == t.y.at(to->0.y as int)
                &&& width == stroke.width
                &&& color.r == stroke.color.r && color.g == stroke.color.g && color.b
                    == stroke.color.b
            } else {
                r == acc
            }
        }),
{
    let r = with_line(acc, look, from, to, t);
    if from is Some && to is Some && resolved_stroke(look) is Some {
        assert(r.take(acc.len() as int) =~= acc);
    }
}

/// The shapes of a nested group are drawn through the map of the nested group and then that of the
/// group around it, before the shapes that follow the nested group.
pub proof fn law_nested_groups_are_drawn_through_both_maps(
    acc: Seq<GraphicView>,
    primitives: Seq<VmlPrimitive>,
    i: int,
    types: Seq<VmlShapeType>,
    t: VmlTransform,
    line_height: Option<Pt>,
    x: int,
    y: int,
) -> (both: VmlTransform)
    requires
        0 <= i < primitives.len(),
        t.sound(),
        primitives[i] matches VmlPrimitive::Group(group) && {
            let child = nested_map(group.common.look.style, group.coord_origin, group.coord_size);
            child is Some && child->0.sound() && t.x.fits(child->0.x) && t.y.fits(child->0.y)
        },
    ensures
        ({
            let group = primitives[i]->Group_0;
            let child = nested_map(
                group.common.look.style,
                group.coord_origin,
                group.coord_size,
            )->0;
            &&& with_children(acc, primitives, i, types, t, line_height) == with_children(
                with_children(
                    acc,
                    group.children@,
                    0,
                    group.shape_types@,
                    both,
                    line_height,
                ),
                primitives,
                i + 1,
                types,
                t,
                line_height,
            )
            &&& both.x.den == t.x.den * child.x.den
            &&& both.y.den == t.y.den * child.y.den
            &&& x * both.x.num + both.x.off == (x * child.x.num + child.x.off) * t.x.num + t.x.off
                * child.x.den
            &&& y * both.y.num + both.y.off == (y * child.y.num + child.y.off) * t.y.num + t.y.off
                * child.y.den
        }),
{
    let group = primitives[i]->Group_0;
    let child = nested_map(group.common.look.style, group.coord_origin, group.coord_size)->0;
    let both = t.composed(child);
    crate::vml::law_composed_maps_are_exact(t.x, child.x, x);
    crate::vml::law_composed_maps_are_exact(t.y, child.y, y);
    both
}

/// The shapes of a group are drawn through a map that takes the corner of the group's coordinates to
/// the corner of its box, and the far corner of its coordinates to the far corner of the box. A group
/// without coordinates or without extent shows nothing.
pub proof fn law_groups_are_drawn_into_their_boxes(
    group: VmlGroup,
    extent: PtSize,
    line_height: Option<Pt>,
) -> (t: VmlTransform)
    ensures
        ({
            let drawn = compiled_group(group, extent, line_height);
            if group.coord_size is Some && group.coord_size->0.x > 0 && group.coord_size->0.y > 0
                && extent.width.units > 0 && extent.height.units > 0 {
                let size = group.coord_size->0;
                let o = match group.coord_origin {
                    Some(o) => o,
                    None => VmlVector2D { x: 0, y: 0 },
                };
                &&& drawn == with_children(
                    Seq::empty(),
                    group.children@,
                    0,
                    group.shape_types@,
                    t,
                    line_height,
                )
                &&& t.x.at(1000 * o.x).units == 0
                &&& t.y.at(1000 * o.y).units == 0
                &&& t.x.at(1000 * (o.x + size.x)) == extent.width
                &&& t.y.at(1000 * (o.y + size.y)) == extent.height
            } else {
                drawn.len() == 0
            }
        }),
{
    if group.coord_size is Some && group.coord_size->0.x > 0 && group.coord_size->0.y > 0
        && extent.width.units > 0 && extent.height.units > 0 {
        let size = group.coord_size->0;
        law_coordinates_fill_the_box(group.coord_origin, size, extent);
        VmlTransform::of_coord_space(group.coord_origin, size, extent)->0
    } else {
        arbitrary()
    }
}

proof fn lemma_kind(types: Seq<VmlShapeType>, i: int, id: u64)
    requires
        0 <= i <= types.len(),
    ensures
        match kind_named(types, i, id) {
            Some(kind) => exists|k: int| #![trigger types[k]]
                i <= k < types.len() && types[k] == kind && kind.id == Some(id) && forall|m: int|
                    #![trigger types[m]]
                    i <= m < k ==> types[m].id != Some(id),
            None => forall|m: int| #![trigger types[m]]
                i <= m < types.len() ==> types[m].id != Some(id),
        },
    decreases types.len() - i,
{
    if i < types.len() {
        if types[i].id == Some(id) {
            assert(types[i] == kind_named(types, i, id)->0);
        } else {
            lemma_kind(types, i + 1, id);
            if kind_named(types, i + 1, id) is Some {
                let kind = kind_named(types, i + 1, id)->0;
                let k = choose|k: int| #![trigger types[k]]
                    i + 1 <= k < types.len() && types[k] == kind && kind.id == Some(id) && forall|
                        m: int,
                    | #![trigger types[m]]
                        i + 1 <= m < k ==> types[m].id != Some(id);
                assert(types[k] == kind);
                assert forall|m: int| #![trigger types[m]] i <= m < k implies types[m].id != Some(
                    id,
                ) by {}
            }
        }
    }
}

/// A shape that refers to a kind of shape has the corners of the first kind of that name, and none
/// where there is no such kind or where it refers to none.
pub proof fn law_shapes_have_the_corners_of_their_kind(types: Seq<VmlShapeType>, id: Option<u64>)
    ensures
        id is None ==> referred_corner(types, id) is None,
        id matches Some(name) ==> {
            ||| referred_corner(types, id) is None && forall|m: int| #![trigger types[m]]
                0 <= m < types.len() ==> types[m].id != Some(name)
            ||| exists|k: int| #![trigger types[k]]
                0 <= k < types.len() && types[k].id == Some(name) && referred_corner(types, id)
                    == rounded_corner_ratio(types[k]) && forall|m: int| #![trigger types[m]]
                    0 <= m < k ==> types[m].id != Some(name)
        },
{
    if let Some(name) = id {
        lemma_kind(types, 0, name);
    }
}

/// The stroke of a shape has the width that the stroke asks for, else the shape's plain one, else
/// three quarters of a point, and so its colour, which is black where none is given or known. A shape
/// has no stroke where that is switched off, or where its width is not above zero.
pub proof fn law_strokes_take_their_own_width_first(look: VmlLook)
    ensures
        ({
            let weight = if look.stroke is Some && look.stroke->0.weight is Some {
                look.stroke->0.weight
            } else {
                look.stroke_weight
            };
            let color = if look.stroke is Some && look.stroke->0.color is Some {
                look.stroke->0.color
            } else {
                look.stroke_color
            };
            let width = if weight is Some && style_length(weight->0) is Some {
                style_length(weight->0)->0.units as int
            } else {
                57150
            };
            &&& resolved_stroke(look) is None <==> look.stroked == Some(false) || width <= 0
            &&& resolved_stroke(look) matches Some(s) ==> {
                &&& s.width.units == width
                &&& color_of(color) matches Some(c) ==> s.color == c
                &&& color_of(color) is None ==> s.color.r == 0 && s.color.g == 0 && s.color.b == 0
                    && s.color.a == 65536
                &&& s.join is Round <==> look.stroke is Some && look.stroke->0.join_style == Some(
                    VmlJoinStyle::Round,
                )
                &&& s.join is Bevel <==> look.stroke is Some && look.stroke->0.join_style == Some(
                    VmlJoinStyle::Bevel,
                )
                &&& s.dash is Solid <==> look.stroke is None || look.stroke->0.dash_style is None
                    || look.stroke->0.dash_style == Some(VmlDashStyle::Solid)
                &&& look.stroke is Some ==> s.dash == dash_pattern(
                    look.stroke->0.dash_style,
                    s.width,
                )
            }
        }),
{
}

/// The dashes and gaps of a line are multiples of its width: dots are as long as the line is wide,
/// short dashes three times and other dashes six times as long.
pub proof fn law_dashes_are_multiples_of_the_width(style: VmlDashStyle, width: Pt)
    requires
        is_length(6 * width.units),
        width.units > 0,
    ensures
        ({
            let w = width.units as int;
            match dash_pattern(Some(style), width) {
                ResolvedDashPattern::Solid => style is Solid,
                ResolvedDashPattern::Dashes { on, off } => {
                    &&& style is ShortDot || style is Dot ==> on.units == w && off.units == 2 * w
                    &&& style is ShortDash ==> on.units == 3 * w && off.units == 2 * w
                    &&& style is Dash || style is LongDash ==> on.units == 6 * w && off.units == 3 * w
                    &&& style is ShortDot || style is Dot || style is ShortDash || style is Dash
                        || style is LongDash
                },
                ResolvedDashPattern::DashDots { dash, gap, dot, last_gap } => {
                    &&& dash.units == 6 * w
                    &&& gap.units == 2 * w
                    &&& dot.units == w
                    &&& last_gap == gap
                    &&& !(style is Solid || style is ShortDot || style is Dot || style is ShortDash
                        || style is Dash || style is LongDash)
                },
            }
        }),
{
}

/// A shape is filled with the colour of its own solid filling, as opaque as that says, else with its
/// plain fill colour, and that is opaque. It stays empty where filling is switched off, where its own
/// filling is of another kind, and where there is no colour to fill it with.
pub proof fn law_fillings_take_their_own_colour_first(look: VmlLook)
    ensures
        ({
            let other = look.fill is Some && !(look.fill->0.fill_type is Solid);
            let own = if look.fill is Some {
                color_of(look.fill->0.color)
            } else {
                None
            };
            let off = look.filled == Some(false) || other;
            match resolve_vml_solid_fill(look) {
                ResolvedFill::Empty => off || (own is None && color_of(look.fill_color) is None),
                ResolvedFill::Solid(c) => {
                    &&& !off
                    &&& own matches Some(o) ==> {
                        &&& c.r == o.r && c.g == o.g && c.b == o.b
                        &&& 0 <= c.a <= 65536
                        &&& look.fill->0.opacity is None ==> c.a == 65536
                        &&& look.fill->0.opacity matches Some(a) ==> (0 <= a <= 65536 ==> c.a == a)
                            && (a < 0 ==> c.a == 0) && (a > 65536 ==> c.a == 65536)
                    }
                    &&& own is None ==> Some(c) == color_of(look.fill_color) && c.a == 65536
                },
            }
        }),
{
}

/// The channels of a named colour.
pub open spec fn named(name: VmlNamedColor) -> Rgba {
    vml_color_to_rgba(VmlColor::Named(name))->0
}

/// Whether `c` is the light of `a` and of `b` together.
pub open spec fn is_mixed(a: Rgba, b: Rgba, c: Rgba) -> bool {
    c.r == a.r + b.r && c.g == a.g + b.g && c.b == a.b + b.b
}

/// Whether `dark` is half of `bright`.
pub open spec fn is_half(bright: Rgba, dark: Rgba) -> bool {
    2 * dark.r == bright.r + one_if_lit(bright.r) && 2 * dark.g == bright.g + one_if_lit(bright.g)
        && 2 * dark.b == bright.b + one_if_lit(bright.b)
}

/// One for a channel that is lit.
pub open spec fn one_if_lit(channel: u8) -> int {
    if channel > 0 {
        1
    } else {
        0
    }
}

/// Colours are opaque and keep the channels that they are given by. The named ones fit together: red,
/// lime and blue mix to yellow, aqua, fuchsia and white; maroon, green, navy, olive, teal, purple and
/// gray are half as bright; and names for the same thing are the same colour.
pub proof fn law_named_colours_fit_together(r: u8, g: u8, b: u8)
    ensures
        vml_color_to_rgba(VmlColor::Rgb(r, g, b)) == Some(Rgba { r, g, b, a: 65536 }),
        forall|name: VmlNamedColor| #![trigger vml_color_to_rgba(VmlColor::Named(name))]
            vml_color_to_rgba(VmlColor::Named(name)) is None <==> name is Unknown,
        forall|name: VmlNamedColor| #![trigger vml_color_to_rgba(VmlColor::Named(name))]
            !(name is Unknown) ==> vml_color_to_rgba(VmlColor::Named(name))->0.a == 65536,
        named(VmlNamedColor::Red).r == 255 && named(VmlNamedColor::Lime).g == 255 && named(
            VmlNamedColor::Blue,
        ).b == 255,
        is_mixed(named(VmlNamedColor::Red), named(VmlNamedColor::Lime), named(VmlNamedColor::Yellow)),
        is_mixed(named(VmlNamedColor::Lime), named(VmlNamedColor::Blue), named(VmlNamedColor::Aqua)),
        is_mixed(named(VmlNamedColor::Red), named(VmlNamedColor::Blue), named(VmlNamedColor::Fuchsia)),
        is_mixed(named(VmlNamedColor::Yellow), named(VmlNamedColor::Blue), named(VmlNamedColor::White)),
        is_mixed(named(VmlNamedColor::Black), named(VmlNamedColor::White), named(VmlNamedColor::White)),
        is_half(named(VmlNamedColor::Red), named(VmlNamedColor::Maroon)),
        is_half(named(VmlNamedColor::Lime), named(VmlNamedColor::Green)),
        is_half(named(VmlNamedColor::Blue), named(VmlNamedColor::Navy)),
        is_half(named(VmlNamedColor::Yellow), named(VmlNamedColor::Olive)),
        is_half(named(VmlNamedColor::Aqua), named(VmlNamedColor::Teal)),
        is_half(named(VmlNamedColor::Fuchsia), named(VmlNamedColor::Purple)),
        is_half(named(VmlNamedColor::White), named(VmlNamedColor::Gray)),
        named(VmlNamedColor::Silver).r == named(VmlNamedColor::Silver).g,
        named(VmlNamedColor::Silver).g == named(VmlNamedColor::Silver).b,
        named(VmlNamedColor::Gray).r < named(VmlNamedColor::Silver).r,
        named(VmlNamedColor::Silver).r < named(VmlNamedColor::White).r,
        named(VmlNamedColor::Red).g < named(VmlNamedColor::Orange).g,
        named(VmlNamedColor::Orange).g < named(VmlNamedColor::Yellow).g,
        named(VmlNamedColor::Orange).r == 255 && named(VmlNamedColor::Orange).b == 0,
        named(VmlNamedColor::Cyan) == named(VmlNamedColor::Aqua),
        named(VmlNamedColor::Magenta) == named(VmlNamedColor::Fuchsia),
        named(VmlNamedColor::GrayText) == named(VmlNamedColor::Gray),
        named(VmlNamedColor::WindowText) == named(VmlNamedColor::Black),
        named(VmlNamedColor::ButtonText) == named(VmlNamedColor::Black),
        named(VmlNamedColor::CaptionText) == named(VmlNamedColor::Black),
        named(VmlNamedColor::MenuText) == named(VmlNamedColor::Black),
        named(VmlNamedColor::Window) == named(VmlNamedColor::White),
        named(VmlNamedColor::ButtonHighlight) == named(VmlNamedColor::White),
        named(VmlNamedColor::HighlightText) == named(VmlNamedColor::White),
{
}

/// The corners of a rectangle with round corners take half of its arc size, a tenth of the shorter
/// side where none is given, and never more than half of the shorter side.
pub proof fn law_round_corners_follow_the_shorter_side(extent: PtSize, arcsize: Option<i32>)
    requires
        extent.width.units > 0,
        extent.height.units > 0,
    ensures
        ({
            let side = if extent.width.units <= extent.height.units {
                extent.width.units as int
            } else {
                extent.height.units as int
            };
            let arc = match arcsize {
                Some(a) => a as int,
                None => 200,
            };
            let radius = corner_radius(extent, Some(arc_corner(arcsize))).units as int;
            &&& 0 <= radius && 2 * radius <= side
            &&& arc <= 0 ==> radius == 0
            &&& arc >= 1000 ==> radius == side / 2
            &&& 0 < arc < 1000 ==> 2000 * radius <= side * arc < 2000 * radius + 2000
        }),
{
    let side = if extent.width.units <= extent.height.units {
        extent.width.units as int
    } else {
        extent.height.units as int
    };
    let arc = match arcsize {
        Some(a) => a as int,
        None => 200,
    };
    if 0 < arc < 1000 {
        let m = side * arc;
        assert(0 <= m <= side * 1000) by (nonlinear_arith)
            requires
                m == side * arc,
                0 < arc < 1000,
                side > 0,
        ;
        assert(0 <= m / 2000 <= side);
        assert(ratio(side, arc, 2000) as int == m / 2000);
    }
}

/// A kind of shape has round corners where its number says so and its coordinates have an extent: its
/// adjustment counts in parts of the shorter side of its coordinates.
pub proof fn law_kinds_with_round_corners(kind: VmlShapeType)
    ensures
        rounded_corner_ratio(kind) is Some <==> kind.spt == Some(176u32) && kind.coord_size is Some
            && kind.coord_size->0.x > 0 && kind.coord_size->0.y > 0,
        rounded_corner_ratio(kind) matches Some(c) ==> {
            let size = kind.coord_size->0;
            &&& c.den <= size.x && c.den <= size.y && (c.den == size.x || c.den == size.y)
            &&& kind.adj matches Some(a) ==> c.num == a
            &&& kind.adj is None ==> c.num == 2700
        },
{
}

} // verus!
