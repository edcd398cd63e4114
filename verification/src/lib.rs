//! Page layout for word-processing documents: tables, paragraphs and sections
//! are placed on pages as positioned draw commands.
use vstd::prelude::*;

pub mod block;
pub mod dimension;
pub mod document;
pub mod draw_command;
pub mod drawing_laws;
pub mod float;
pub mod fragment;
pub mod geometry;
pub mod header_laws;
pub mod ink;
pub mod line_laws;
pub mod note_laws;
pub mod outlines;
pub mod page;
pub mod paragraph;
pub mod section;
pub mod shape_laws;
pub mod style;
pub mod table;
pub mod vml;

verus! {

} // verus!
