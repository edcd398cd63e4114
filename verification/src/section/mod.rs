//! Section layout: blocks are placed one after another on the pages of a section.
use vstd::prelude::*;

pub mod chain;
pub mod content;
pub mod float_ink;
pub mod floats;
pub mod flow_laws;
pub mod keep_next;
pub mod laws;
pub mod layout;
pub mod measure_laws;
pub mod notes;
pub mod once;
pub mod opening;
pub mod pages;
pub mod paragraph_flow;
pub mod place_laws;
pub mod predicates;
pub mod prefix_laws;
pub mod split;
pub mod state;
pub mod table_flow;
pub mod table_places;
pub mod timely;
pub mod wrap_laws;

pub use layout::{
    layout_section, layout_section_with_clearance, layout_section_with_clearance_result, SectionStart,
};
pub use state::{ContinuationState, SectionLayoutResult};

verus! {

} // verus!
