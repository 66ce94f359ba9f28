//! Word, line and character statistics for the sections of a LaTeX-style
//! document, rolled up from every section into its enclosing sections.

pub mod aggregate;
pub mod count;
pub mod hierarchy;
pub mod laws;
pub mod measure;
pub mod render;
pub mod report;
pub mod scan;
pub mod section;
pub mod text;

pub use hierarchy::figure_out_parents;
pub use report::{analyze, Report};
pub use section::Section;
