//! Change-set analysis: a unified-diff parser, a semantic-unit extractor, a
//! code-purpose classifier, a diff-to-unit mapper and a limit evaluator.

pub mod analysis;
pub mod classifier;
pub mod config;
pub mod error;
pub mod evaluation;
pub mod git;
pub mod order;
pub mod text;
pub mod types;

pub use error::{
    ConfigError, ConfigValidationError, DiffParseError, FileReadError, IoError,
    LimitExceededError, OutputError, ParseError,
};
pub use config::Config;
pub use types::{AnalysisResult, Change, CodeType, SemanticUnit, Summary};
