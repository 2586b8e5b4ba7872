//! The limits and weights of an analysis.

use vstd::prelude::*;

use crate::error::ConfigValidationError;
use crate::types::classification::CodeType;

verus! {

/// The limits that a change set is held against. Both are positive.
#[derive(Debug, Clone, Copy, PartialEq, Eq, Structural)]
pub struct Limits {
    /// The most production units that may be added or modified.
    pub max_prod_units: usize,
    /// The highest weighted score.
    pub max_weighted_score: usize,
}

/// The weight of a changed line, by the purpose of the code it stands in.
#[derive(Debug, Clone, Copy, PartialEq, Eq, Structural)]
pub struct Weights {
    pub production: usize,
    pub test: usize,
    pub test_utility: usize,
    pub benchmark: usize,
    pub example: usize,
    pub build_script: usize,
}

/// The configuration of an analysis.
#[derive(Debug, Clone, Copy, PartialEq, Eq, Structural)]
pub struct Config {
    pub limits: Limits,
    pub weights: Weights,
}

impl Limits {
    /// Both limits are positive.
    pub open spec fn valid(self) -> bool {
        self.max_prod_units > 0 && self.max_weighted_score > 0
    }
}

impl Weights {
    /// The weight of one purpose.
    pub open spec fn weight(self, t: CodeType) -> nat {
        match t {
            CodeType::Production => self.production as nat,
            CodeType::Test => self.test as nat,
            CodeType::TestUtility => self.test_utility as nat,
            CodeType::Benchmark => self.benchmark as nat,
            CodeType::Example => self.example as nat,
            CodeType::BuildScript => self.build_script as nat,
        }
    }

    /// The weight of one purpose.
    pub fn weight_of(&self, t: CodeType) -> (w: usize)
        ensures
            w == self.weight(t),
    {
        match t {
            CodeType::Production => self.production,
            CodeType::Test => self.test,
            CodeType::TestUtility => self.test_utility,
            CodeType::Benchmark => self.benchmark,
            CodeType::Example => self.example,
            CodeType::BuildScript => self.build_script,
        }
    }
}

impl Default for Limits {
    fn default() -> (l: Limits)
        ensures
            l == (Limits { max_prod_units: 30, max_weighted_score: 100 }),
            l.valid(),
    {
        Limits { max_prod_units: 30, max_weighted_score: 100 }
    }
}

impl Default for Weights {
    fn default() -> (w: Weights)
        ensures
            w == (Weights {
                production: 3,
                test: 1,
                test_utility: 1,
                benchmark: 1,
                example: 1,
                build_script: 1,
            }),
    {
        Weights { production: 3, test: 1, test_utility: 1, benchmark: 1, example: 1, build_script: 1 }
    }
}

impl Default for Config {
    fn default() -> (c: Config)
        ensures
            c.limits == (Limits { max_prod_units: 30, max_weighted_score: 100 }),
            c.weights == (Weights {
                production: 3,
                test: 1,
                test_utility: 1,
                benchmark: 1,
                example: 1,
                build_script: 1,
            }),
            c.limits.valid(),
    {
        Config { limits: Limits::default(), weights: Weights::default() }
    }
}

/// The name of the first limit that is zero, if one is.
pub open spec fn invalid_field(limits: Limits) -> Option<Seq<char>> {
    if limits.max_prod_units == 0 {
        Some("limits.max_prod_units"@)
    } else if limits.max_weighted_score == 0 {
        Some("limits.max_weighted_score"@)
    } else {
        None
    }
}

impl Config {
    /// Accepts the configuration where both limits are positive, and names
    /// the first that is zero where one is.
    pub fn validate(&self) -> (r: Result<(), ConfigValidationError>)
        ensures
            r is Ok <==> self.limits.valid(),
            match invalid_field(self.limits) {
                None => r is Ok,
                Some(field) => r matches Err(e) && e.field@ == field && e.message@
                    == "must be greater than 0"@,
            },
    {
        if self.limits.max_prod_units == 0 {
            Err(
                ConfigValidationError {
                    field: String::from_str("limits.max_prod_units"),
                    message: String::from_str("must be greater than 0"),
                },
            )
        } else if self.limits.max_weighted_score == 0 {
            Err(
                ConfigValidationError {
                    field: String::from_str("limits.max_weighted_score"),
                    message: String::from_str("must be greater than 0"),
                },
            )
        } else {
            Ok(())
        }
    }
}

} // verus!
