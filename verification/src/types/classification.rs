use vstd::prelude::*;

verus! {

/// Classification of code type
#[derive(Debug, Clone, Copy, PartialEq, Eq, Hash, Structural)]
pub enum CodeType {
    /// Production code
    Production,
    /// Test code (a test function, or anything under a test-only condition)
    Test,
    /// Test utility code (in a test module but not a test)
    TestUtility,
    /// Benchmark code
    Benchmark,
    /// Example code
    Example,
    /// Build script code
    BuildScript,
}

impl CodeType {
    /// The lower-case label of a code type.
    pub open spec fn label(self) -> Seq<char> {
        match self {
            CodeType::Production => "production"@,
            CodeType::Test => "test"@,
            CodeType::TestUtility => "test_utility"@,
            CodeType::Benchmark => "benchmark"@,
            CodeType::Example => "example"@,
            CodeType::BuildScript => "build_script"@,
        }
    }

    /// Returns string representation of code type
    pub fn as_str(&self) -> (s: &'static str)
        ensures
            s@ == self.label(),
    {
        match self {
            CodeType::Production => "production",
            CodeType::Test => "test",
            CodeType::TestUtility => "test_utility",
            CodeType::Benchmark => "benchmark",
            CodeType::Example => "example",
            CodeType::BuildScript => "build_script",
        }
    }

    /// Checks if this is production code
    pub fn is_production(&self) -> (b: bool)
        ensures
            b <==> *self == CodeType::Production,
    {
        matches!(self, CodeType::Production)
    }

    /// Checks if this is any type of test code
    pub fn is_test_related(&self) -> (b: bool)
        ensures
            b <==> (*self == CodeType::Test || *self == CodeType::TestUtility || *self
                == CodeType::Benchmark),
    {
        matches!(self, CodeType::Test | CodeType::TestUtility | CodeType::Benchmark)
    }
}

} // verus!
