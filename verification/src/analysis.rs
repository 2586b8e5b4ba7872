//! From a source text and a diff to the list of changed units.

pub mod ast_visitor;
pub mod extractor;
pub mod mapper;
pub mod syntax;

pub use ast_visitor::{extract_units, extract_units_within};
pub use extractor::{analyze_file, extract_semantic_units_from_str};
pub use mapper::{gives_no_changes, map_changes};
pub use syntax::{Modifier, NodeKind, SyntaxNode};
