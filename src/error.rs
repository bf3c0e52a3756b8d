use vstd::prelude::*;

verus! {

/// Errors of the sleep utilities.
#[derive(Debug, Clone, PartialEq, Eq)]
pub enum SleepError {
    /// A duration text that no rule of the grammar accepts; it carries a
    /// message that quotes the normalized text.
    InvalidDuration(String),
    /// A general parse failure, kept for callers around the parser.
    ParseError(String),
    /// A number outside the range that a caller can handle.
    NumberOutOfRange(String),
}

/// Result of the operations of this crate.
pub type Result<T> = core::result::Result<T, SleepError>;

} // verus!
