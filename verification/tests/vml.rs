//! Vector drawings.
use dxpdf::block::LayoutBlock;
use dxpdf::draw_command::{DrawCommand, FontId, RgbColor, TextId};
use dxpdf::fragment::{AutoLineSpacingContribution, FontProps, Fragment, TextMetrics};
use dxpdf::geometry::{PtOffset, PtSize};
use dxpdf::style::{LineSpacingRule, ParagraphStyle};
use dxpdf::vml::{
    box_path_verbs, compile_group, inline_group_extent, local_style_box, nested_group_transform,
    oval_path_verbs, populate_inline_graphics, resolve_vml_solid_fill, resolve_vml_stroke,
    rounded_corner_ratio, top_level_style_length, vml_color_to_rgba, AxisMap, CornerRatio,
    GraphicCommand, InlineGraphic, LocalBox, PathVerb, ResolvedDashPattern, ResolvedFill,
    ResolvedLineJoin, Rgba, VmlColor, VmlCommonAttrs, VmlDashStyle, VmlFill, VmlFillType, VmlGroup,
    VmlJoinStyle, VmlLength, VmlLengthUnit, VmlLook, VmlNamedColor, VmlPoint, VmlPrimitive,
    VmlShapeType, VmlStroke, VmlStyle, VmlTransform, VmlVector2D,
};
use dxpdf::dimension::Pt;

/// Lengths in points, as floating-point numbers.
trait PointLength: Sized {
    const ZERO: Self;
    const INFINITY: Self;
    fn new(points: f32) -> Self;
    fn raw(self) -> f32;
}

impl PointLength for Pt {
    const ZERO: Pt = Pt { units: 0 };
    const INFINITY: Pt = Pt { units: i64::MAX };

    fn new(points: f32) -> Pt {
        Pt { units: (points as f64 * 76200.0).round() as i64 }
    }

    fn raw(self) -> f32 {
        (self.units as f64 / 76200.0) as f32
    }
}

trait NamedColors {
    const BLACK: Self;
}

impl NamedColors for RgbColor {
    const BLACK: RgbColor = RgbColor { r: 0, g: 0, b: 0 };
}

/// A number for a text.
fn id(text: &str) -> TextId {
    let mut hash: u64 = 0xcbf2_9ce4_8422_2325;
    for byte in text.bytes() {
        hash = (hash ^ byte as u64).wrapping_mul(0x0000_0100_0000_01b3);
    }
    TextId { id: hash }
}

fn font() -> FontProps {
    FontProps {
        font: FontId { id: 1 },
        size: Pt::new(12.0),
        underline: false,
        auto_line_spacing: AutoLineSpacingContribution::Scaled,
    }
}

fn text_frag(text: &str, width: f32) -> Fragment {
    Fragment::Text {
        text: id(text),
        blank: text.trim().is_empty(),
        font: font(),
        color: RgbColor::BLACK,
        width: Pt::new(width),
        trimmed_width: Pt::new(width),
        metrics: TextMetrics {
            ascent: Pt::new(10.0),
            descent: Pt::new(4.0),
            leading: Pt::ZERO,
        },
        baseline_offset: Pt::ZERO,
        is_footnote_ref: false,
    }
}

fn assert_near(actual: f32, expected: f32) {
    assert!((actual - expected).abs() < 0.001, "{actual} != {expected}");
}

fn no_style() -> VmlStyle {
    VmlStyle { left: None, top: None, width: None, height: None }
}

fn plain_look() -> VmlLook {
    VmlLook {
        style: no_style(),
        filled: None,
        fill: None,
        fill_color: None,
        stroked: None,
        stroke: None,
        stroke_color: None,
        stroke_weight: None,
    }
}

fn plain() -> VmlCommonAttrs {
    VmlCommonAttrs { look: plain_look(), text_box: None }
}

fn local(value: f64) -> VmlLength {
    VmlLength { milli: (value * 1000.0) as i64, unit: VmlLengthUnit::Bare }
}

fn length(value: f64, unit: VmlLengthUnit) -> VmlLength {
    VmlLength { milli: (value * 1000.0) as i64, unit }
}

fn placed(left: f64, top: f64, width: f64, height: f64) -> VmlStyle {
    VmlStyle {
        left: Some(local(left)),
        top: Some(local(top)),
        width: Some(local(width)),
        height: Some(local(height)),
    }
}

fn point(x: f64, y: f64) -> VmlPoint {
    VmlPoint { x: (x * 1000.0) as i64, y: (y * 1000.0) as i64 }
}

fn map_xy(transform: VmlTransform, x: f64, y: f64) -> PtOffset {
    transform.map_xy((x * 1000.0) as i64, (y * 1000.0) as i64)
}

#[test]
fn maps_the_representative_group_coord_space_to_its_point_extent() {
    let transform = VmlTransform::from_coord_space(
        None,
        VmlVector2D {
            x: 13_860,
            y: 7_488,
        },
        PtSize::new(Pt::new(645.0), Pt::new(365.4)),
    )
    .unwrap();
    let origin = map_xy(transform, 0.0, 0.0);
    let far_corner = map_xy(transform, 13_860.0, 7_488.0);
    assert_near(origin.x.raw(), 0.0);
    assert_near(origin.y.raw(), 0.0);
    assert_near(far_corner.x.raw(), 645.0);
    assert_near(far_corner.y.raw(), 365.4);
}

#[test]
fn honours_non_zero_coord_origin() {
    let transform = VmlTransform::from_coord_space(
        Some(VmlVector2D { x: 100, y: 200 }),
        VmlVector2D { x: 1_000, y: 500 },
        PtSize::new(Pt::new(200.0), Pt::new(100.0)),
    )
    .unwrap();
    let origin = transform.map_point(point(100.0, 200.0));
    let far_corner = transform.map_point(point(1_100.0, 700.0));
    assert_near(origin.x.raw(), 0.0);
    assert_near(origin.y.raw(), 0.0);
    assert_near(far_corner.x.raw(), 200.0);
    assert_near(far_corner.y.raw(), 100.0);
}

#[test]
fn nested_transforms_compose_without_losing_the_child_offset() {
    // The parent's map goes from thousandths to units of length, the child's
    // from thousandths to thousandths.
    let parent = VmlTransform {
        x: AxisMap { num: 2 * 76_200, off: 10 * 76_200_000, den: 1_000 },
        y: AxisMap { num: 3 * 76_200, off: 20 * 76_200_000, den: 1_000 },
    };
    let child = VmlTransform {
        x: AxisMap { num: 1, off: 4_000 * 2, den: 2 },
        y: AxisMap { num: 1, off: 8_000 * 4, den: 4 },
    };
    let result = map_xy(parent.compose(child), 6.0, 12.0);
    assert_near(result.x.raw(), 24.0);
    assert_near(result.y.raw(), 53.0);
}

#[test]
fn compiles_group_boxes_and_connectors_in_local_points() {
    let group = VmlGroup {
        common: plain(),
        coord_size: Some(VmlVector2D { x: 1_000, y: 500 }),
        coord_origin: None,
        shape_types: vec![],
        children: vec![
            VmlPrimitive::Rect {
                common: VmlCommonAttrs {
                    look: VmlLook { style: placed(100.0, 50.0, 300.0, 100.0), ..plain_look() },
                    text_box: None,
                },
            },
            VmlPrimitive::Line {
                common: plain(),
                from: Some(point(0.0, 0.0)),
                to: Some(point(1_000.0, 500.0)),
            },
        ],
    };
    let commands = compile_group(&group, PtSize::new(Pt::new(200.0), Pt::new(100.0)), None);
    assert_eq!(commands.len(), 2);
    let GraphicCommand::Path { origin, extent, .. } = &commands[0] else {
        panic!("expected box path");
    };
    assert_near(origin.x.raw(), 20.0);
    assert_near(origin.y.raw(), 10.0);
    assert_near(extent.width.raw(), 60.0);
    assert_near(extent.height.raw(), 20.0);
    let GraphicCommand::Plain(DrawCommand::Line { line, .. }) = &commands[1] else {
        panic!("expected connector line");
    };
    assert_near(line.end.x.raw(), 200.0);
    assert_near(line.end.y.raw(), 100.0);
}

#[test]
fn office_spt_176_uses_its_adjustment_as_a_rounded_corner() {
    let verbs = box_path_verbs(
        PtSize::new(Pt::new(200.0), Pt::new(40.0)),
        Some(CornerRatio { num: 2_700, den: 21_600 }),
    );
    assert!(matches!(verbs[0], PathVerb::MoveTo(point) if point.x == Pt::new(5.0)));
    assert!(
        verbs
            .iter()
            .filter(|verb| matches!(verb, PathVerb::QuadTo(_, _)))
            .count()
            == 4
    );
}

#[test]
fn compiles_oval_with_explicit_fill_and_stroke_visuals() {
    let group = VmlGroup {
        common: plain(),
        coord_size: Some(VmlVector2D { x: 100, y: 100 }),
        coord_origin: None,
        shape_types: vec![],
        children: vec![VmlPrimitive::Oval {
            common: VmlCommonAttrs {
                look: VmlLook {
                    style: placed(10.0, 20.0, 60.0, 40.0),
                    fill_color: Some(VmlColor::Rgb(255, 0, 0)),
                    stroke_color: Some(VmlColor::Rgb(0, 0, 255)),
                    stroke_weight: Some(length(2.0, VmlLengthUnit::Pt)),
                    ..plain_look()
                },
                text_box: None,
            },
        }],
    };
    let commands = compile_group(&group, PtSize::new(Pt::new(100.0), Pt::new(100.0)), None);
    let GraphicCommand::Path { verbs, fill, stroke, .. } = &commands[0] else {
        panic!("expected oval path");
    };
    assert_eq!(
        verbs
            .iter()
            .filter(|verb| matches!(verb, PathVerb::CubicTo(_, _, _)))
            .count(),
        4
    );
    assert!(matches!(fill, ResolvedFill::Solid(color) if color.r == 255 && color.g == 0));
    let stroke = stroke.as_ref().unwrap();
    assert_eq!(stroke.width, Pt::new(2.0));
    assert_eq!(stroke.color.b, 255);
}

#[test]
fn coordinate_spaces_and_boxes_without_extent_have_no_map() {
    let extent = PtSize::new(Pt::new(10.0), Pt::new(10.0));
    let size = VmlVector2D { x: 10, y: 10 };
    assert!(VmlTransform::from_coord_space(None, size, extent).is_some());
    assert!(VmlTransform::from_coord_space(None, VmlVector2D { x: 0, y: 10 }, extent).is_none());
    assert!(VmlTransform::from_coord_space(None, VmlVector2D { x: 10, y: -1 }, extent).is_none());
    assert!(
        VmlTransform::from_coord_space(None, size, PtSize::new(Pt::ZERO, Pt::new(10.0))).is_none()
    );
    assert!(
        VmlTransform::from_coord_space(None, size, PtSize::new(Pt::new(10.0), Pt::ZERO)).is_none()
    );
}

#[test]
fn deeply_nested_groups_keep_their_place() {
    // Each group fills the left upper quarter of the one around it.
    let mut child = VmlPrimitive::Rect {
        common: VmlCommonAttrs {
            look: VmlLook { style: placed(0.0, 0.0, 21_600.0, 21_600.0), ..plain_look() },
            text_box: None,
        },
    };
    for _ in 0..5 {
        child = VmlPrimitive::Group(VmlGroup {
            common: VmlCommonAttrs {
                look: VmlLook { style: placed(0.0, 10_800.0, 10_800.0, 10_800.0), ..plain_look() },
                text_box: None,
            },
            coord_size: Some(VmlVector2D { x: 21_600, y: 21_600 }),
            coord_origin: None,
            shape_types: vec![],
            children: vec![child],
        });
    }
    let group = VmlGroup {
        common: plain(),
        coord_size: Some(VmlVector2D { x: 21_600, y: 21_600 }),
        coord_origin: None,
        shape_types: vec![],
        children: vec![child],
    };
    let commands = compile_group(&group, PtSize::new(Pt::new(320.0), Pt::new(320.0)), None);
    let GraphicCommand::Path { origin, extent, .. } = &commands[0] else {
        panic!("expected box path");
    };
    assert_near(origin.x.raw(), 0.0);
    assert_near(origin.y.raw(), 310.0);
    assert_near(extent.width.raw(), 10.0);
    assert_near(extent.height.raw(), 10.0);
}

#[test]
fn measures_outside_groups_follow_their_unit() {
    let of = |value, unit| top_level_style_length(length(value, unit));
    assert_eq!(of(2.0, VmlLengthUnit::Pt), Some(Pt::new(2.0)));
    assert_eq!(of(1.0, VmlLengthUnit::In), Some(Pt::new(72.0)));
    assert_eq!(of(2.54, VmlLengthUnit::Cm), Some(Pt::new(72.0)));
    assert_eq!(of(25.4, VmlLengthUnit::Mm), Some(Pt::new(72.0)));
    assert_eq!(of(3.0, VmlLengthUnit::Pc), Some(Pt::new(36.0)));
    assert_eq!(of(96.0, VmlLengthUnit::Px), Some(Pt::new(72.0)));
    assert_eq!(of(914_400.0, VmlLengthUnit::Bare), Some(Pt::new(72.0)));
    assert_eq!(of(1.0, VmlLengthUnit::Em), None);
    assert_eq!(of(50.0, VmlLengthUnit::Percent), None);
}

#[test]
fn a_group_needs_both_extents() {
    let group = |style| VmlGroup {
        common: VmlCommonAttrs { look: VmlLook { style, ..plain_look() }, text_box: None },
        coord_size: None,
        coord_origin: None,
        shape_types: vec![],
        children: vec![],
    };
    let sized = |width, height| VmlStyle { width, height, ..no_style() };
    let inch = Some(length(1.0, VmlLengthUnit::In));
    assert_eq!(
        inline_group_extent(&group(sized(inch, Some(length(10.0, VmlLengthUnit::Pt))))),
        Some(PtSize::new(Pt::new(72.0), Pt::new(10.0)))
    );
    assert_eq!(inline_group_extent(&group(sized(inch, None))), None);
    assert_eq!(inline_group_extent(&group(sized(None, inch))), None);
    assert_eq!(inline_group_extent(&group(sized(inch, Some(local(0.0))))), None);
    assert_eq!(
        inline_group_extent(&group(sized(inch, Some(length(5.0, VmlLengthUnit::Percent))))),
        None
    );
    assert!(compile_group(&group(sized(inch, inch)), PtSize::new(Pt::new(1.0), Pt::new(1.0)), None)
        .is_empty());
}

#[test]
fn only_bare_numbers_are_coordinates() {
    assert_eq!(
        local_style_box(placed(1.0, 2.0, 3.0, 4.0)),
        Some(LocalBox { left: 1_000, top: 2_000, width: 3_000, height: 4_000 })
    );
    let points = VmlStyle { left: Some(length(7.0, VmlLengthUnit::Pt)), ..placed(1.0, 2.0, 3.0, 4.0) };
    assert_eq!(
        local_style_box(points),
        Some(LocalBox { left: 0, top: 2_000, width: 3_000, height: 4_000 })
    );
    let wide = VmlStyle { width: Some(length(7.0, VmlLengthUnit::Pt)), ..placed(1.0, 2.0, 3.0, 4.0) };
    assert_eq!(local_style_box(wide), None);
    assert_eq!(local_style_box(placed(1.0, 2.0, 3.0, 0.0)), None);
}

#[test]
fn a_nested_group_maps_its_corners_to_its_box() {
    let group = VmlGroup {
        common: VmlCommonAttrs {
            look: VmlLook { style: placed(10.0, 20.0, 30.0, 40.0), ..plain_look() },
            text_box: None,
        },
        coord_size: Some(VmlVector2D { x: 60, y: 20 }),
        coord_origin: Some(VmlVector2D { x: 6, y: 2 }),
        shape_types: vec![],
        children: vec![],
    };
    let map = nested_group_transform(&group).unwrap();
    assert_eq!(map.x.map(6_000).units, 10_000);
    assert_eq!(map.x.map(66_000).units, 40_000);
    assert_eq!(map.y.map(2_000).units, 20_000);
    assert_eq!(map.y.map(22_000).units, 60_000);
}

#[test]
fn rounded_corners_come_from_the_kind_of_the_shape() {
    let kind = VmlShapeType {
        id: Some(3),
        spt: Some(176),
        coord_size: Some(VmlVector2D { x: 21_600, y: 10_800 }),
        adj: None,
    };
    assert_eq!(rounded_corner_ratio(kind), Some(CornerRatio { num: 2_700, den: 10_800 }));
    assert_eq!(
        rounded_corner_ratio(VmlShapeType { adj: Some(5_400), ..kind }),
        Some(CornerRatio { num: 5_400, den: 10_800 })
    );
    assert_eq!(rounded_corner_ratio(VmlShapeType { spt: Some(1), ..kind }), None);
    assert_eq!(rounded_corner_ratio(VmlShapeType { coord_size: None, ..kind }), None);

    let shape = |shape_type_ref| VmlPrimitive::Shape {
        common: VmlCommonAttrs {
            look: VmlLook { style: placed(0.0, 0.0, 100.0, 100.0), ..plain_look() },
            text_box: None,
        },
        shape_type_ref,
    };
    let group = VmlGroup {
        common: plain(),
        coord_size: Some(VmlVector2D { x: 100, y: 100 }),
        coord_origin: None,
        shape_types: vec![kind],
        children: vec![
            shape(Some(3)),
            shape(Some(4)),
            shape(None),
            VmlPrimitive::RoundRect {
                common: VmlCommonAttrs {
                    look: VmlLook { style: placed(0.0, 0.0, 100.0, 100.0), ..plain_look() },
                    text_box: None,
                },
                arcsize: None,
            },
        ],
    };
    let commands = compile_group(&group, PtSize::new(Pt::new(40.0), Pt::new(40.0)), None);
    let starts: Vec<Pt> = commands
        .iter()
        .map(|command| match command {
            GraphicCommand::Path { verbs, .. } => match verbs[0] {
                PathVerb::MoveTo(at) => at.x,
                _ => panic!("an outline begins with a move"),
            },
            _ => panic!("expected a path"),
        })
        .collect();
    assert_eq!(starts, vec![Pt::new(10.0), Pt::ZERO, Pt::ZERO, Pt::new(4.0)]);
}

#[test]
fn corner_ratios_are_bounded_by_half_of_the_shorter_side() {
    let extent = PtSize::new(Pt::new(30.0), Pt::new(20.0));
    let start = |num, den| match box_path_verbs(extent, Some(CornerRatio { num, den }))[0] {
        PathVerb::MoveTo(at) => at.x,
        _ => panic!("an outline begins with a move"),
    };
    assert_eq!(start(9, 10), Pt::new(10.0));
    assert_eq!(start(-1, 10), Pt::ZERO);
    assert_eq!(box_path_verbs(extent, None).len(), 5);
    assert_eq!(box_path_verbs(extent, Some(CornerRatio { num: 1, den: 4 })).len(), 10);
}

#[test]
fn an_oval_touches_the_middle_of_each_side() {
    let verbs = oval_path_verbs(PtSize::new(Pt::new(40.0), Pt::new(20.0)));
    assert_eq!(verbs.len(), 6);
    assert_eq!(verbs[0], PathVerb::MoveTo(PtOffset::new(Pt::new(20.0), Pt::ZERO)));
    let PathVerb::CubicTo(first, second, end) = verbs[1] else {
        panic!("expected a curve");
    };
    assert_near(first.x.raw(), 31.045696);
    assert_near(second.y.raw(), 4.477152);
    assert_eq!(end, PtOffset::new(Pt::new(40.0), Pt::new(10.0)));
    assert_eq!(verbs[5], PathVerb::Close);
}

#[test]
fn fillings_other_than_solid_leave_a_shape_empty() {
    let red = Some(VmlColor::Rgb(255, 0, 0));
    let green = Some(VmlColor::Named(VmlNamedColor::Green));
    let look = VmlLook { fill_color: red, ..plain_look() };
    let solid = |r, g, b, a| ResolvedFill::Solid(Rgba { r, g, b, a });
    assert_eq!(resolve_vml_solid_fill(look), solid(255, 0, 0, 65_536));
    assert_eq!(
        resolve_vml_solid_fill(VmlLook { filled: Some(false), ..look }),
        ResolvedFill::Empty
    );
    let fill = |fill_type, color, opacity| {
        resolve_vml_solid_fill(VmlLook { fill: Some(VmlFill { fill_type, color, opacity }), ..look })
    };
    assert_eq!(fill(VmlFillType::Solid, green, Some(32_768)), solid(0, 128, 0, 32_768));
    assert_eq!(fill(VmlFillType::Solid, green, Some(70_000)), solid(0, 128, 0, 65_536));
    assert_eq!(fill(VmlFillType::Solid, green, Some(-1)), solid(0, 128, 0, 0));
    assert_eq!(fill(VmlFillType::Solid, None, Some(1)), solid(255, 0, 0, 65_536));
    assert_eq!(fill(VmlFillType::Gradient, green, None), ResolvedFill::Empty);
    assert_eq!(resolve_vml_solid_fill(plain_look()), ResolvedFill::Empty);
}

#[test]
fn strokes_take_their_own_look_before_the_plain_one() {
    let stroke = resolve_vml_stroke(plain_look()).unwrap();
    assert_eq!(stroke.width, Pt::new(0.75));
    assert_eq!(stroke.color, Rgba { r: 0, g: 0, b: 0, a: 65_536 });
    assert_eq!(stroke.dash, ResolvedDashPattern::Solid);
    assert_eq!(stroke.join, ResolvedLineJoin::Miter);

    let own = VmlStroke {
        weight: Some(length(2.0, VmlLengthUnit::Pt)),
        color: Some(VmlColor::Rgb(1, 2, 3)),
        dash_style: Some(VmlDashStyle::Dash),
        join_style: Some(VmlJoinStyle::Bevel),
    };
    let look = VmlLook {
        stroke: Some(own),
        stroke_color: Some(VmlColor::Rgb(9, 9, 9)),
        stroke_weight: Some(length(5.0, VmlLengthUnit::Pt)),
        ..plain_look()
    };
    let stroke = resolve_vml_stroke(look).unwrap();
    assert_eq!(stroke.width, Pt::new(2.0));
    assert_eq!(stroke.color, Rgba { r: 1, g: 2, b: 3, a: 65_536 });
    assert_eq!(
        stroke.dash,
        ResolvedDashPattern::Dashes { on: Pt::new(12.0), off: Pt::new(6.0) }
    );
    assert_eq!(stroke.join, ResolvedLineJoin::Bevel);

    let dashed = |style| {
        resolve_vml_stroke(VmlLook {
            stroke: Some(VmlStroke { dash_style: Some(style), ..own }),
            ..look
        })
        .unwrap()
        .dash
    };
    assert_eq!(
        dashed(VmlDashStyle::Dot),
        ResolvedDashPattern::Dashes { on: Pt::new(2.0), off: Pt::new(4.0) }
    );
    assert_eq!(
        dashed(VmlDashStyle::ShortDash),
        ResolvedDashPattern::Dashes { on: Pt::new(6.0), off: Pt::new(4.0) }
    );
    assert_eq!(
        dashed(VmlDashStyle::DashDot),
        ResolvedDashPattern::DashDots {
            dash: Pt::new(12.0),
            gap: Pt::new(4.0),
            dot: Pt::new(2.0),
            last_gap: Pt::new(4.0),
        }
    );

    assert!(resolve_vml_stroke(VmlLook { stroked: Some(false), ..look }).is_none());
    let thin = VmlStroke { weight: Some(length(0.0, VmlLengthUnit::Pt)), ..own };
    assert!(resolve_vml_stroke(VmlLook { stroke: Some(thin), ..look }).is_none());
}

#[test]
fn named_colours_have_fixed_values() {
    let of = |name| vml_color_to_rgba(VmlColor::Named(name)).map(|c| (c.r, c.g, c.b));
    assert_eq!(of(VmlNamedColor::WindowText), Some((0, 0, 0)));
    assert_eq!(of(VmlNamedColor::Silver), Some((192, 192, 192)));
    assert_eq!(of(VmlNamedColor::GrayText), Some((128, 128, 128)));
    assert_eq!(of(VmlNamedColor::Lime), Some((0, 255, 0)));
    assert_eq!(of(VmlNamedColor::Orange), Some((255, 165, 0)));
    assert_eq!(of(VmlNamedColor::Unknown), None);
}

#[test]
fn drawings_are_compiled_once_and_with_their_text() {
    let text = LayoutBlock::Paragraph {
        fragments: vec![text_frag("label", 10.0)],
        style: ParagraphStyle {
            line_spacing: LineSpacingRule::Exact(Pt::new(14.0)),
            ..Default::default()
        },
        page_break_before: false,
        footnotes: Vec::new(),
        floating_images: Vec::new(),
        floating_shapes: Vec::new(),
    };
    let graphic = |text_box| InlineGraphic {
        size: PtSize::new(Pt::new(100.0), Pt::new(100.0)),
        source: VmlGroup {
            common: plain(),
            coord_size: Some(VmlVector2D { x: 100, y: 100 }),
            coord_origin: None,
            shape_types: vec![],
            children: vec![VmlPrimitive::Rect {
                common: VmlCommonAttrs {
                    look: VmlLook { style: placed(10.0, 20.0, 60.0, 40.0), ..plain_look() },
                    text_box,
                },
            }],
        },
        commands: vec![],
    };
    let mut known = graphic(None);
    known.commands = vec![GraphicCommand::Plain(DrawCommand::Rect {
        rect: dxpdf::geometry::PtRect {
            origin: PtOffset::new(Pt::ZERO, Pt::ZERO),
            size: PtSize::new(Pt::new(1.0), Pt::new(1.0)),
        },
        color: RgbColor::BLACK,
    })];
    let mut graphics = vec![graphic(Some(vec![text])), graphic(None), known];
    populate_inline_graphics(&mut graphics, Some(Pt::new(14.0)));
    assert_eq!(graphics[0].commands.len(), 2);
    let GraphicCommand::Plain(DrawCommand::Text { position, text, .. }) = &graphics[0].commands[1]
    else {
        panic!("expected the text of the box");
    };
    assert_eq!(*text, id("label"));
    assert_eq!(position.x, Pt::new(10.0));
    assert!(position.y > Pt::new(20.0));
    assert_eq!(graphics[1].commands.len(), 1);
    assert_eq!(graphics[2].commands.len(), 1);
    assert!(matches!(graphics[2].commands[0], GraphicCommand::Plain(_)));
}

#[test]
fn maps_that_give_up_bits_stay_close() {
    let parent = AxisMap { num: 3_000_000_000_017, off: -7_000_000_000_001, den: 5_000_000_000_003 };
    let child = AxisMap { num: 2_000_000_000_033, off: 9_000_000_000_011, den: 7_000_000_000_009 };
    let composed = parent.compose(child);
    assert!(composed.den > 1_000_000_000_000);
    for x in [-1_000_000, -1, 0, 1, 1_000_000] {
        let within = (x as f64 * child.num as f64 + child.off as f64) / child.den as f64;
        let wanted = (within * parent.num as f64 + parent.off as f64) / parent.den as f64;
        let found = (x as f64 * composed.num as f64 + composed.off as f64) / composed.den as f64;
        assert!((found - wanted).abs() <= 1e-3, "{x}: {found} {wanted}");
    }
    let exact = AxisMap { num: 3, off: 5, den: 7 }.compose(AxisMap { num: 2, off: 1, den: 9 });
    assert_eq!(exact, AxisMap { num: 6, off: 3 + 45, den: 63 });
}

#[test]
fn composed_maps_round_like_maps_in_turn() {
    let parent = AxisMap { num: 5, off: 1, den: 2 };
    let child = AxisMap { num: 1, off: 0, den: 3 };
    let composed = parent.compose(child);
    assert_eq!(composed, AxisMap { num: 5, off: 3, den: 6 });
    assert_eq!(child.map(5).units, 1);
    assert_eq!(parent.map(1).units, 3);
    assert_eq!(composed.map(5).units, 4, "the composition does not round in between");
    let falling = AxisMap { num: -7, off: 11, den: 3 };
    for outer in [parent, falling] {
        let both = VmlTransform { x: outer, y: falling }.compose(VmlTransform { x: child, y: child });
        for x in -50..50 {
            let inner = child.map(x).units;
            let place = both.map_xy(x, x);
            let apart = (place.x.units - outer.map(inner).units).abs() as i128;
            assert!(outer.den * apart <= outer.num.abs() + outer.den, "{x}");
            let apart = (place.y.units - falling.map(inner).units).abs() as i128;
            assert!(falling.den * apart <= falling.num.abs() + falling.den, "{x}");
        }
    }
}
