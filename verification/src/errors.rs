//! Error taxonomy of the library core.

use vstd::prelude::*;

verus! {

/// A fatal startup-time configuration fault.
#[derive(Debug, Clone, Copy, PartialEq, Eq, Structural)]
pub enum ConfigurationError {
    /// The key sets cannot produce as many codes as the grid has cells.
    InsufficientCodeSpace,
    /// Two cells would carry the same code.
    DuplicateCodes,
    /// The grid has no rows or no columns.
    InvalidGridDimensions,
}

/// A command-line invocation that violates the program's parameter policy.
#[derive(Debug, Clone, Copy, PartialEq, Eq, Structural)]
pub enum CliError {
    /// A pattern is required but none was given.
    MissingPattern,
    /// A pattern was given but none is accepted.
    UnexpectedPattern,
    /// Options or arguments were given but none are accepted.
    UnexpectedOptsArgs,
}

} // verus!
