//! The data model shared by the analysis components.

pub mod change;
pub mod classification;
pub mod semantic_unit;

pub use crate::evaluation::Summary;
pub use change::{AnalysisResult, Change, ChangeKind};
pub use classification::CodeType;
pub use semantic_unit::{LineSpan, SemanticUnit, SemanticUnitKind, Visibility};
