//! Column widths, grid lookups, row groups and merged rows.
use dxpdf::block::{CellVAlign, LayoutBlock, TableCellInput, TableRowInput, VerticalMergeState};
use dxpdf::geometry::PtEdgeInsets;
use dxpdf::table::grid::{
    cell_index_at_grid_col, compute_column_widths, expand_rows_for_vmerge, find_cell_at_grid_col,
    row_group_end, RowGroup,
};
use dxpdf::table::types::{CellLayout, CellLayoutEntry, MeasuredRow, MeasuredTable};
use dxpdf::dimension::Pt;

/// Lengths in points, as floating-point numbers.
trait PointLength: Sized {
    const ZERO: Self;
    const INFINITY: Self;
    fn new(points: f32) -> Self;
    fn raw(self) -> f32;
}

impl PointLength for Pt {
    const ZERO: Pt = Pt { units: 0 };
    const INFINITY: Pt = Pt { units: i64::MAX };

    fn new(points: f32) -> Pt {
        Pt { units: (points as f64 * 76200.0).round() as i64 }
    }

    fn raw(self) -> f32 {
        (self.units as f64 / 76200.0) as f32
    }
}

trait NoInsets {
    const ZERO: Self;
}

impl NoInsets for PtEdgeInsets {
    const ZERO: PtEdgeInsets = PtEdgeInsets {
        top: Pt { units: 0 },
        right: Pt { units: 0 },
        bottom: Pt { units: 0 },
        left: Pt { units: 0 },
    };
}

fn build_row_groups(rows: &[TableRowInput], measured: &MeasuredTable<'_>) -> Vec<RowGroup> {
    dxpdf::table::grid::build_row_groups(rows, &measured.rows)
}

#[test]
fn equal_distribution_when_no_grid() {
    let widths = compute_column_widths(&[], 3, Pt::new(300.0));
    assert_eq!(widths.len(), 3);
    assert_eq!(widths[0].raw(), 100.0);
    assert_eq!(widths[1].raw(), 100.0);
    assert_eq!(widths[2].raw(), 100.0);
}

#[test]
fn grid_cols_scaled_to_fit() {
    let grid = vec![Pt::new(100.0), Pt::new(200.0)];
    let widths = compute_column_widths(&grid, 2, Pt::new(600.0));
    assert_eq!(widths[0].raw(), 200.0);
    assert_eq!(widths[1].raw(), 400.0);
}

#[test]
fn grid_cols_already_fit() {
    let grid = vec![Pt::new(150.0), Pt::new(150.0)];
    let widths = compute_column_widths(&grid, 2, Pt::new(300.0));
    assert_eq!(widths[0].raw(), 150.0);
    assert_eq!(widths[1].raw(), 150.0);
}

#[test]
fn zero_cols_empty_result() {
    let widths = compute_column_widths(&[], 0, Pt::new(300.0));
    assert!(widths.is_empty());
}

#[test]
fn zero_summing_grid_falls_back_to_equal_distribution() {
    let grid = vec![Pt::ZERO, Pt::ZERO, Pt::ZERO];
    let widths = compute_column_widths(&grid, 3, Pt::new(300.0));
    assert_eq!(
        widths.iter().map(|w| w.raw()).collect::<Vec<_>>(),
        vec![100.0, 100.0, 100.0]
    );
}

#[test]
fn negative_grid_total_falls_back_to_equal_distribution() {
    let grid = vec![Pt::new(-40.0), Pt::new(10.0)];
    let widths = compute_column_widths(&grid, 2, Pt::new(300.0));
    assert_eq!(
        widths.iter().map(|w| w.raw()).collect::<Vec<_>>(),
        vec![150.0, 150.0],
        "no column may come out negative"
    );
}

#[test]
fn zero_summing_grid_uses_its_own_length_when_num_cols_is_zero() {
    let grid = vec![Pt::ZERO, Pt::ZERO];
    let widths = compute_column_widths(&grid, 0, Pt::new(300.0));
    assert_eq!(
        widths.iter().map(|w| w.raw()).collect::<Vec<_>>(),
        vec![150.0, 150.0]
    );
}

fn empty_cell(grid_span: u32) -> TableCellInput {
    TableCellInput {
        blocks: Vec::new(),
        margins: PtEdgeInsets::ZERO,
        grid_span,
        shading: None,
        cell_borders: None,
        vertical_merge: None,
        vertical_align: CellVAlign::Top,
    }
}

fn row_with_offsets(cells: Vec<TableCellInput>, grid_before: u32) -> TableRowInput {
    TableRowInput {
        cells,
        height_rule: None,
        is_header: None,
        cant_split: None,
        grid_before,
        border_overrides: None,
    }
}

#[test]
fn find_cell_skips_grid_before() {
    let row = row_with_offsets(vec![empty_cell(1), empty_cell(1)], 1);
    assert!(find_cell_at_grid_col(&row, 0).is_none());
    assert!(find_cell_at_grid_col(&row, 1).is_some());
    assert!(find_cell_at_grid_col(&row, 2).is_some());
    assert!(find_cell_at_grid_col(&row, 3).is_none());
}

#[test]
fn cell_index_at_grid_col_skips_grid_before() {
    let row = row_with_offsets(vec![empty_cell(1), empty_cell(1)], 1);
    assert_eq!(cell_index_at_grid_col(&row, 0), None);
    assert_eq!(cell_index_at_grid_col(&row, 1), Some(0));
    assert_eq!(cell_index_at_grid_col(&row, 2), Some(1));
    assert_eq!(cell_index_at_grid_col(&row, 3), None);
}

#[test]
fn find_cell_with_grid_span_after_grid_before() {
    let row = row_with_offsets(vec![empty_cell(2)], 2);
    assert!(find_cell_at_grid_col(&row, 0).is_none());
    assert!(find_cell_at_grid_col(&row, 1).is_none());
    assert!(find_cell_at_grid_col(&row, 2).is_some());
    assert!(find_cell_at_grid_col(&row, 3).is_some());
    assert!(find_cell_at_grid_col(&row, 4).is_none());
}

fn merged_cell(vmerge: Option<VerticalMergeState>) -> TableCellInput {
    TableCellInput {
        vertical_merge: vmerge,
        ..empty_cell(1)
    }
}

fn plain_row(cells: Vec<TableCellInput>) -> TableRowInput {
    row_with_offsets(cells, 0)
}

fn measured(rows: &[(f32, f32)]) -> MeasuredTable<'static> {
    MeasuredTable {
        rows: rows
            .iter()
            .map(|&(h, gap)| MeasuredRow {
                entries: Vec::new(),
                borders: Vec::new(),
                height: Pt::new(h),
                leading_gap: Pt::ZERO,
                border_gap_below: Pt::new(gap),
            })
            .collect(),
        table_width: Pt::new(100.0),
    }
}

#[test]
fn row_group_end_is_one_row_when_nothing_continues() {
    let rows = vec![
        plain_row(vec![merged_cell(None)]),
        plain_row(vec![merged_cell(None)]),
    ];
    assert_eq!(row_group_end(&rows, 0), 1);
    assert_eq!(row_group_end(&rows, 1), 2, "last row still yields len");
}

#[test]
fn row_group_end_spans_consecutive_continue_rows() {
    let rows = vec![
        plain_row(vec![merged_cell(Some(VerticalMergeState::Restart))]),
        plain_row(vec![merged_cell(Some(VerticalMergeState::Continue))]),
        plain_row(vec![merged_cell(Some(VerticalMergeState::Continue))]),
        plain_row(vec![merged_cell(None)]),
    ];
    assert_eq!(row_group_end(&rows, 0), 3, "restart + two continues");
    assert_eq!(row_group_end(&rows, 3), 4);
}

#[test]
fn row_group_end_triggers_on_a_continue_in_any_column() {
    let rows = vec![
        plain_row(vec![merged_cell(None), merged_cell(None)]),
        plain_row(vec![
            merged_cell(None),
            merged_cell(Some(VerticalMergeState::Continue)),
        ]),
    ];
    assert_eq!(row_group_end(&rows, 0), 2);
}

#[test]
fn build_row_groups_treats_plain_rows_as_separate_splittable_groups() {
    let rows = vec![
        plain_row(vec![merged_cell(None)]),
        plain_row(vec![merged_cell(None)]),
    ];
    let groups = build_row_groups(&rows, &measured(&[(20.0, 0.0), (30.0, 0.0)]));
    assert_eq!(groups.len(), 2);
    assert!(groups.iter().all(|g| g.splittable));
    assert_eq!(groups[0].height.raw(), 20.0);
    assert_eq!(groups[1].height.raw(), 30.0);
}

#[test]
fn build_row_groups_height_includes_the_border_gap_below() {
    let rows = vec![plain_row(vec![merged_cell(None)])];
    let groups = build_row_groups(&rows, &measured(&[(20.0, 3.0)]));
    assert_eq!(groups[0].height.raw(), 23.0);
}

#[test]
fn build_row_groups_marks_a_vmerge_span_unsplittable() {
    let rows = vec![
        plain_row(vec![merged_cell(Some(VerticalMergeState::Restart))]),
        plain_row(vec![merged_cell(Some(VerticalMergeState::Continue))]),
    ];
    let groups = build_row_groups(&rows, &measured(&[(20.0, 0.0), (20.0, 0.0)]));
    assert_eq!(groups.len(), 1);
    assert_eq!((groups[0].start, groups[0].end), (0, 2));
    assert_eq!(groups[0].height.raw(), 40.0, "span height is the sum");
    assert!(!groups[0].splittable);
}

#[test]
fn build_row_groups_marks_a_cant_split_row_unsplittable() {
    let mut row = plain_row(vec![merged_cell(None)]);
    row.cant_split = Some(true);
    let groups = build_row_groups(&[row], &measured(&[(20.0, 0.0)]));
    assert!(!groups[0].splittable);
}

#[test]
fn build_row_groups_marks_a_nested_table_row_unsplittable() {
    let nested = TableCellInput {
        blocks: vec![LayoutBlock::Table {
            rows: Vec::new(),
            col_widths: Vec::new(),
            cell_spacing: Pt::ZERO,
            border_config: None,
            indent: Pt::ZERO,
            alignment: None,
            float_info: None,
            style_id: None,
        }],
        ..empty_cell(1)
    };
    let groups = build_row_groups(&[plain_row(vec![nested])], &measured(&[(20.0, 0.0)]));
    assert!(!groups[0].splittable);
}

fn layout_entry(content_height: f32, grid_col: usize) -> CellLayoutEntry<'static> {
    CellLayoutEntry {
        layout: CellLayout {
            commands: Vec::new(),
            content_height: Pt::new(content_height),
            lines: Vec::new(),
            footnotes: Vec::new(),
        },
        cell_x: Pt::ZERO,
        cell_w: Pt::new(100.0),
        grid_col,
    }
}

#[test]
fn expand_spreads_overflow_across_the_merge_span() {
    let rows = vec![
        plain_row(vec![merged_cell(Some(VerticalMergeState::Restart))]),
        plain_row(vec![merged_cell(Some(VerticalMergeState::Continue))]),
    ];
    let layouts = vec![vec![layout_entry(84.0, 0)], vec![layout_entry(0.0, 0)]];
    let mut heights = vec![Pt::new(14.0), Pt::new(14.0)];

    expand_rows_for_vmerge(&rows, &layouts, &mut heights);

    assert_eq!(heights[0].raw(), 42.0);
    assert_eq!(heights[1].raw(), 42.0);
    assert_eq!(
        heights[0].raw() + heights[1].raw(),
        84.0,
        "the span must total the restart cell's content height"
    );
}

#[test]
fn expand_leaves_heights_alone_when_the_content_already_fits() {
    let rows = vec![
        plain_row(vec![merged_cell(Some(VerticalMergeState::Restart))]),
        plain_row(vec![merged_cell(Some(VerticalMergeState::Continue))]),
    ];
    let layouts = vec![vec![layout_entry(10.0, 0)], vec![layout_entry(0.0, 0)]];
    let mut heights = vec![Pt::new(30.0), Pt::new(30.0)];

    expand_rows_for_vmerge(&rows, &layouts, &mut heights);

    assert_eq!(heights[0].raw(), 30.0);
    assert_eq!(heights[1].raw(), 30.0);
}

#[test]
fn expand_does_nothing_for_a_lone_restart() {
    let rows = vec![plain_row(vec![merged_cell(Some(
        VerticalMergeState::Restart,
    ))])];
    let layouts = vec![vec![layout_entry(84.0, 0)]];
    let mut heights = vec![Pt::new(14.0)];

    expand_rows_for_vmerge(&rows, &layouts, &mut heights);

    assert_eq!(
        heights[0].raw(),
        14.0,
        "a one-row span is not expanded — measure.rs must size this row"
    );
}

#[test]
fn expand_matches_continues_by_grid_column_not_cell_index() {
    let rows = vec![
        plain_row(vec![
            merged_cell(Some(VerticalMergeState::Restart)),
            merged_cell(None),
        ]),
        row_with_offsets(vec![merged_cell(Some(VerticalMergeState::Continue))], 1),
    ];
    let layouts = vec![
        vec![layout_entry(84.0, 0), layout_entry(0.0, 1)],
        vec![layout_entry(0.0, 1)],
    ];
    let mut heights = vec![Pt::new(14.0), Pt::new(14.0)];

    expand_rows_for_vmerge(&rows, &layouts, &mut heights);

    assert_eq!(
        [heights[0].raw(), heights[1].raw()],
        [14.0, 14.0],
        "the Continue is in column 1; column 0's restart has no continuation"
    );
}
