//! Where a paragraph may be divided between pages.
use dxpdf::block::{FootnoteParagraph, LayoutBlock, LayoutFootnote};
use dxpdf::draw_command::{FontId, RgbColor, TextId};
use dxpdf::fragment::{AutoLineSpacingContribution, FontProps, Fragment, TextMetrics};
use dxpdf::section::keep_next::{leading_keep_next_paragraph_splittable, MeasureBox};
use dxpdf::section::predicates::{
    decide_paragraph_split, paragraph_breakable, prefix_adjusted_head, ParagraphSplit,
};
use dxpdf::style::ParagraphStyle;
use dxpdf::dimension::Pt;

/// Lengths in points, as floating-point numbers.
trait PointLength: Sized {
    const ZERO: Self;
    const INFINITY: Self;
    fn new(points: f32) -> Self;
    fn raw(self) -> f32;
}

impl PointLength for Pt {
    const ZERO: Pt = Pt { units: 0 };
    const INFINITY: Pt = Pt { units: i64::MAX };

    fn new(points: f32) -> Pt {
        Pt { units: (points as f64 * 76200.0).round() as i64 }
    }

    fn raw(self) -> f32 {
        (self.units as f64 / 76200.0) as f32
    }
}

trait NamedColors {
    const BLACK: Self;
}

impl NamedColors for RgbColor {
    const BLACK: RgbColor = RgbColor { r: 0, g: 0, b: 0 };
}

/// A number for a text.
fn id(text: &str) -> TextId {
    let mut hash: u64 = 0xcbf2_9ce4_8422_2325;
    for byte in text.bytes() {
        hash = (hash ^ byte as u64).wrapping_mul(0x0000_0100_0000_01b3);
    }
    TextId { id: hash }
}

fn font() -> FontProps {
    FontProps {
        font: FontId { id: 1 },
        size: Pt::new(12.0),
        underline: false,
        auto_line_spacing: AutoLineSpacingContribution::Scaled,
    }
}

fn text_frag(text: &str, width: f32) -> Fragment {
    Fragment::Text {
        text: id(text),
        blank: text.trim().is_empty(),
        font: font(),
        color: RgbColor::BLACK,
        width: Pt::new(width),
        trimmed_width: Pt::new(width),
        metrics: TextMetrics {
            ascent: Pt::new(10.0),
            descent: Pt::new(4.0),
            leading: Pt::ZERO,
        },
        baseline_offset: Pt::ZERO,
        is_footnote_ref: false,
    }
}

fn footnote() -> LayoutFootnote {
    LayoutFootnote {
        paragraphs: vec![FootnoteParagraph {
            fragments: Vec::new(),
            style: ParagraphStyle::default(),
        }],
    }
}

fn plain() -> ParagraphStyle {
    ParagraphStyle::default()
}

#[test]
fn a_plain_paragraph_is_breakable() {
    assert!(paragraph_breakable(&plain(), &[], &[], &[], true));
    assert!(paragraph_breakable(&plain(), &[], &[], &[], false));
}

#[test]
fn keep_lines_forbids_breaking() {
    let style = ParagraphStyle {
        keep_lines: true,
        ..Default::default()
    };
    assert!(!paragraph_breakable(&style, &[], &[], &[], true));
}

#[test]
fn footnotes_are_breakable_only_on_a_single_chunk() {
    let notes = [footnote()];
    assert!(
        paragraph_breakable(&plain(), &notes, &[], &[], true),
        "footnotes on one unbroken chunk may still split"
    );
    assert!(
        !paragraph_breakable(&plain(), &notes, &[], &[], false),
        "footnotes spanning page/column chunks keep the atomic reservation"
    );
}

#[test]
fn single_chunk_only_matters_when_footnotes_are_present() {
    assert!(paragraph_breakable(&plain(), &[], &[], &[], false));
}

fn keep_next_head(brk: Option<Fragment>, with_footnote: bool) -> LayoutBlock {
    let mut fragments: Vec<Fragment> = (0..3).map(|i| text_frag(&format!("L{i} "), 30.0)).collect();
    if let Some(b) = brk {
        fragments.push(b);
    }
    fragments.extend((3..6).map(|i| text_frag(&format!("L{i} "), 30.0)));
    LayoutBlock::Paragraph {
        fragments,
        style: ParagraphStyle {
            keep_next: true,
            ..Default::default()
        },
        page_break_before: false,
        footnotes: if with_footnote {
            vec![footnote()]
        } else {
            Vec::new()
        },
        floating_images: Vec::new(),
        floating_shapes: Vec::new(),
    }
}

fn splittable(block: &LayoutBlock) -> bool {
    let constraints = MeasureBox {
        width: Pt::new(40.0),
        max_height: Pt::new(1000.0),
        default_line_height: Pt::new(14.0),
    };
    leading_keep_next_paragraph_splittable(block, constraints)
}

#[test]
fn footnote_bearing_head_with_an_internal_break_is_not_splittable() {
    for (label, brk) in [
        ("page break", Fragment::PageBreak),
        ("column break", Fragment::ColumnBreak),
    ] {
        assert!(
            !splittable(&keep_next_head(Some(brk), true)),
            "footnotes + an internal {label} → atomic"
        );
    }
}

#[test]
fn a_break_or_a_footnote_alone_still_permits_a_split() {
    assert!(
        splittable(&keep_next_head(None, true)),
        "footnotes on a single chunk are fine"
    );
    assert!(
        splittable(&keep_next_head(Some(Fragment::PageBreak), false)),
        "a page break without footnotes is fine"
    );
    assert!(
        splittable(&keep_next_head(Some(Fragment::ColumnBreak), false)),
        "a column break without footnotes is fine"
    );
    assert!(
        splittable(&keep_next_head(None, false)),
        "plain multi-line head is splittable"
    );
}


#[test]
fn all_lines_fit_is_all() {
    assert_eq!(
        decide_paragraph_split(5, 5, true, false),
        ParagraphSplit::All
    );
    assert_eq!(
        decide_paragraph_split(9, 5, true, false),
        ParagraphSplit::All
    );
}

#[test]
fn widow_control_keeps_two_lines_on_each_side() {
    assert_eq!(
        decide_paragraph_split(4, 6, true, false),
        ParagraphSplit::Break { head: 4 }
    );
}

#[test]
fn widow_control_caps_head_to_leave_a_non_widow_tail() {
    assert_eq!(
        decide_paragraph_split(3, 4, true, false),
        ParagraphSplit::Break { head: 2 }
    );
}

#[test]
fn widow_control_rejects_single_orphan_line_and_moves_whole() {
    assert_eq!(
        decide_paragraph_split(1, 6, true, false),
        ParagraphSplit::MoveWhole
    );
}

#[test]
fn widow_control_three_line_paragraph_cannot_split() {
    assert_eq!(
        decide_paragraph_split(2, 3, true, false),
        ParagraphSplit::MoveWhole
    );
}

#[test]
fn widow_control_paragraph_taller_than_page_splits_two_by_two() {
    assert_eq!(
        decide_paragraph_split(4, 10, true, true),
        ParagraphSplit::Break { head: 4 }
    );
    assert_eq!(
        decide_paragraph_split(4, 6, true, true),
        ParagraphSplit::Break { head: 4 }
    );
    assert_eq!(
        decide_paragraph_split(4, 2, true, true),
        ParagraphSplit::All
    );
}

#[test]
fn without_widow_control_a_single_line_may_split() {
    assert_eq!(
        decide_paragraph_split(1, 6, false, false),
        ParagraphSplit::Break { head: 1 }
    );
    assert_eq!(
        decide_paragraph_split(3, 4, false, false),
        ParagraphSplit::Break { head: 3 }
    );
}

#[test]
fn without_widow_control_nothing_fits_moves_whole() {
    assert_eq!(
        decide_paragraph_split(0, 4, false, false),
        ParagraphSplit::MoveWhole
    );
}

#[test]
fn at_page_top_unsplittable_paragraph_overflows_whole() {
    assert_eq!(
        decide_paragraph_split(2, 3, true, true),
        ParagraphSplit::All
    );
}

#[test]
fn at_page_top_single_oversized_line_overflows_whole() {
    assert_eq!(
        decide_paragraph_split(0, 1, true, true),
        ParagraphSplit::All
    );
    assert_eq!(
        decide_paragraph_split(0, 3, false, true),
        ParagraphSplit::All
    );
}

#[test]
fn drop_cap_head_clearing_the_prefix_is_unchanged() {
    assert_eq!(prefix_adjusted_head(5, 8, 3, true, true), Some(5));
    assert_eq!(prefix_adjusted_head(2, 8, 0, true, false), Some(2));
    assert_eq!(prefix_adjusted_head(1, 8, 1, true, false), Some(1));
    assert_eq!(prefix_adjusted_head(1, 8, 3, false, false), Some(1));
    assert_eq!(prefix_adjusted_head(2, 2, 3, true, false), Some(2));
}

#[test]
fn drop_cap_break_inside_prefix_moves_whole_when_not_at_top() {
    assert_eq!(prefix_adjusted_head(2, 8, 3, true, false), None);
    assert_eq!(prefix_adjusted_head(1, 8, 3, true, false), None);
}

#[test]
fn drop_cap_break_inside_prefix_overflows_whole_at_top() {
    assert_eq!(prefix_adjusted_head(1, 8, 3, true, true), Some(3));
    assert_eq!(prefix_adjusted_head(1, 2, 3, true, true), Some(2));
}
