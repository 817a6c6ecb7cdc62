//! The library's error type.

use vstd::prelude::*;

use crate::strings::{concat, concat3, decimal, decimal_string};

verus! {

/// Errors that can occur during JAR/ZIP processing.
///
/// Errors that come from outside code (I/O, the ZIP reader, the class-file
/// parser, the regex compiler) carry that code's message as text.
#[derive(Debug, Clone)]
pub enum Error {
    /// I/O error occurred.
    Io(String),
    /// ZIP archive error.
    Zip(String),
    /// Java class file parsing error.
    ClassFile(String),
    /// Regex compilation error.
    InvalidRegex { pattern: String, message: String },
    /// Security violation detected.
    SecurityViolation(String),
    /// Path traversal attempt detected.
    PathTraversal(String),
    /// File or archive exceeds size limits.
    SizeLimitExceeded { message: String },
    /// Too many files in archive.
    FileCountExceeded { found: usize, limit: usize },
    /// Invalid archive structure.
    InvalidArchive(String),
    /// File not found.
    FileNotFound(String),
    /// Invalid UTF-8 encoding.
    InvalidUtf8 { context: String, details: String },
    /// Configuration error.
    Config(String),
}

/// The text an error is displayed as.
pub open spec fn error_text(e: Error) -> Seq<char> {
    match e {
        Error::Io(m) => "I/O error: "@ + m@,
        Error::Zip(m) => "ZIP error: "@ + m@,
        Error::ClassFile(m) => "Class file error: "@ + m@,
        Error::InvalidRegex { pattern, message } => "Invalid regex pattern '"@ + pattern@ + "': "@
            + message@,
        Error::SecurityViolation(m) => "Security violation: "@ + m@,
        Error::PathTraversal(m) => "Path traversal detected in entry: "@ + m@,
        Error::SizeLimitExceeded { message } => "Size limit exceeded: "@ + message@,
        Error::FileCountExceeded { found, limit } => "File count limit exceeded: found "@ + decimal(
            found as nat,
        ) + ", maximum is "@ + decimal(limit as nat),
        Error::InvalidArchive(m) => "Invalid archive structure: "@ + m@,
        Error::FileNotFound(m) => "File not found: "@ + m@,
        Error::InvalidUtf8 { context, details } => "Invalid UTF-8 in "@ + context@ + ": "@
            + details@,
        Error::Config(m) => "Configuration error: "@ + m@,
    }
}

impl Error {
    /// The error's display text.
    pub fn message(&self) -> (r: String)
        ensures
            r@ == error_text(*self),
    {
        match self {
            Error::Io(m) => concat("I/O error: ", m.as_str()),
            Error::Zip(m) => concat("ZIP error: ", m.as_str()),
            Error::ClassFile(m) => concat("Class file error: ", m.as_str()),
            Error::InvalidRegex { pattern, message } => {
                let a = concat3("Invalid regex pattern '", pattern.as_str(), "': ");
                concat(a.as_str(), message.as_str())
            },
            Error::SecurityViolation(m) => concat("Security violation: ", m.as_str()),
            Error::PathTraversal(m) => concat("Path traversal detected in entry: ", m.as_str()),
            Error::SizeLimitExceeded { message } => concat("Size limit exceeded: ", message.as_str()),
            Error::FileCountExceeded { found, limit } => {
                let f = decimal_string(*found as u64);
                let l = decimal_string(*limit as u64);
                let a = concat3("File count limit exceeded: found ", f.as_str(), ", maximum is ");
                concat(a.as_str(), l.as_str())
            },
            Error::InvalidArchive(m) => concat("Invalid archive structure: ", m.as_str()),
            Error::FileNotFound(m) => concat("File not found: ", m.as_str()),
            Error::InvalidUtf8 { context, details } => {
                let a = concat3("Invalid UTF-8 in ", context.as_str(), ": ");
                concat(a.as_str(), details.as_str())
            },
            Error::Config(m) => concat("Configuration error: ", m.as_str()),
        }
    }
}

} // verus!
