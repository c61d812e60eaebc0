use vstd::prelude::*;

verus! {

/// Why a completion request could not be answered.
#[derive(Debug, PartialEq, Eq)]
pub enum CommandParseError {
    /// The cursor offset (in bytes) lies past the end of the line.
    CursorOutOfRange(usize),
    /// The text before the cursor cannot be split into words, even after an
    /// unterminated quote has been closed.
    UnparseableCommand,
    /// A keyword argument that takes a value was the last word of the line.
    ArgumentMissingValue(String),
    /// Listing the filesystem for a path completion failed.
    PathCompletionFailure,
}

} // verus!
