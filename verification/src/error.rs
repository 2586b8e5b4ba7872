use vstd::prelude::*;

use crate::text::{decimal, has_prefix, push_decimal};

verus! {

/// The text of an I/O failure, through its `Display`. Nothing is claimed of
/// it: it may come from the operating system.
#[verifier::external_body]
fn io_error_text(error: &std::io::Error) -> (s: String) {
    error.to_string()
}

/// `std::io::Error`: an I/O failure handed over by the caller.
#[verifier::external_type_specification]
#[verifier::external_body]
pub struct ExIoError(std::io::Error);

/// Error for file read operations
#[derive(Debug)]
pub struct FileReadError {
    pub path: String,
    pub source: std::io::Error,
}

impl FileReadError {
    /// Creates a new FileReadError from a path and source error
    pub fn new(path: String, source: std::io::Error) -> (e: Self)
        ensures
            e.path@ == path@,
            e.source == source,
    {
        FileReadError { path, source }
    }

    /// What went wrong, in words: the path, then the source's own text.
    pub fn describe(&self) -> (s: String)
        ensures
            has_prefix(s@, "failed to read file '"@ + self.path@ + "': "@),
    {
        let mut s = String::from_str("failed to read file '");
        s.append(self.path.as_str());
        s.append("': ");
        let ghost head = s@;
        let tail = io_error_text(&self.source);
        s.append(tail.as_str());
        proof {
            assert(s@.subrange(0, head.len() as int) =~= head);
        }
        s
    }
}

/// Error for source code parsing
#[derive(Debug)]
pub struct ParseError {
    pub path: String,
    pub message: String,
}

impl ParseError {
    /// Creates a new ParseError from a path and message
    pub fn new(path: String, message: String) -> (e: Self)
        ensures
            e.path@ == path@,
            e.message@ == message@,
    {
        ParseError { path, message }
    }

    /// What went wrong, in words.
    pub fn describe(&self) -> (s: String)
        ensures
            s@ == "failed to parse '"@ + self.path@ + "': "@ + self.message@,
    {
        let mut s = String::from_str("failed to parse '");
        s.append(self.path.as_str());
        s.append("': ");
        s.append(self.message.as_str());
        s
    }
}

/// Error for unified diff parsing
#[derive(Debug)]
pub struct DiffParseError {
    pub message: String,
}

impl DiffParseError {
    /// What went wrong, in words.
    pub fn describe(&self) -> (s: String)
        ensures
            s@ == "failed to parse diff: "@ + self.message@,
    {
        let mut s = String::from_str("failed to parse diff: ");
        s.append(self.message.as_str());
        s
    }
}

/// Error for configuration file parsing
#[derive(Debug)]
pub struct ConfigError {
    pub path: String,
    pub message: String,
}

impl ConfigError {
    /// Creates a new ConfigError from a path and message
    pub fn new(path: String, message: String) -> (e: Self)
        ensures
            e.path@ == path@,
            e.message@ == message@,
    {
        ConfigError { path, message }
    }

    /// What went wrong, in words.
    pub fn describe(&self) -> (s: String)
        ensures
            s@ == "failed to parse config '"@ + self.path@ + "': "@ + self.message@,
    {
        let mut s = String::from_str("failed to parse config '");
        s.append(self.path.as_str());
        s.append("': ");
        s.append(self.message.as_str());
        s
    }
}

/// Error for invalid configuration values
#[derive(Debug)]
pub struct ConfigValidationError {
    pub field: String,
    pub message: String,
}

impl ConfigValidationError {
    /// What went wrong, in words.
    pub fn describe(&self) -> (s: String)
        ensures
            s@ == "invalid config field '"@ + self.field@ + "': "@ + self.message@,
    {
        let mut s = String::from_str("invalid config field '");
        s.append(self.field.as_str());
        s.append("': ");
        s.append(self.message.as_str());
        s
    }
}

/// Error for output formatting
#[derive(Debug)]
pub struct OutputError {
    pub format: String,
    pub message: String,
}

impl OutputError {
    /// What went wrong, in words.
    pub fn describe(&self) -> (s: String)
        ensures
            s@ == "output error for format '"@ + self.format@ + "': "@ + self.message@,
    {
        let mut s = String::from_str("output error for format '");
        s.append(self.format.as_str());
        s.append("': ");
        s.append(self.message.as_str());
        s
    }
}

/// Error for analysis limit exceeded
#[derive(Debug)]
pub struct LimitExceededError {
    pub limit_type: String,
    pub actual: usize,
    pub maximum: usize,
}

impl LimitExceededError {
    /// What went wrong, in words: the limit, what was found and what is allowed.
    pub fn describe(&self) -> (s: String)
        ensures
            s@ == "limit exceeded for '"@ + self.limit_type@ + "': "@ + decimal(self.actual as nat)
                + " > "@ + decimal(self.maximum as nat),
    {
        let mut s = String::from_str("limit exceeded for '");
        s.append(self.limit_type.as_str());
        s.append("': ");
        push_decimal(&mut s, self.actual);
        s.append(" > ");
        push_decimal(&mut s, self.maximum);
        s
    }
}

/// Error for IO operations
#[derive(Debug)]
pub struct IoError(pub std::io::Error);

impl IoError {
    /// What went wrong, in words: a fixed head, then the failure's own text.
    pub fn describe(&self) -> (s: String)
        ensures
            has_prefix(s@, "io error: "@),
    {
        let mut s = String::from_str("io error: ");
        let ghost head = s@;
        let tail = io_error_text(&self.0);
        s.append(tail.as_str());
        proof {
            assert(s@.subrange(0, head.len() as int) =~= head);
        }
        s
    }
}

} // verus!
