//! Table layout: column sizing, cell layout, border resolution, pagination.
use vstd::prelude::*;

pub mod anchored;
pub mod border_places;
pub mod borders;
pub mod cell;
pub mod cell_laws;
pub mod content;
pub mod cut_laws;
pub mod divided;
pub mod edge_laws;
pub mod edges;
pub mod emit;
pub mod fits;
pub mod footnotes;
pub mod grid;
pub mod laws;
pub mod layout;
pub mod lone;
pub mod measure;
pub mod paginate;
pub mod places;
pub mod room_laws;
pub mod size_laws;
pub mod slice_places;
pub mod spacing;
pub mod split;
pub mod types;

pub use grid::compute_column_widths;
pub use layout::{
    layout_table, layout_table_paginated, layout_table_paginated_with_page_heights, TablePaginationConfig,
    TablePaginationHeights, TableSlice,
};
pub use measure::{measure_table_rows, TableLayout};

verus! {

} // verus!
