use vstd::prelude::*;

verus! {

/// Why a string failed to parse as a non-negative integer, drawing the same
/// distinctions as the standard library's unsigned integer parsing.
#[derive(Clone, Copy, Debug, PartialEq, Eq, Structural)]
pub enum ParseIntErrorKind {
    /// The string was empty.
    Empty,
    /// A character was not a decimal digit (a lone sign counts here too).
    InvalidDigit,
    /// The value does not fit in the target type.
    PosOverflow,
}

/// Errors that can occur while using the library.
pub enum CliError {
    /// I/O error, carried as the message text of the failing operation.
    Io(String),
    /// Error in parsing a context number.
    Parse(ParseIntErrorKind),
    /// Error in compiling the pattern.
    Regex(regex::Error),
}

} // verus!
