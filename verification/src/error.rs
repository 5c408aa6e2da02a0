//! The failures that the document engine reports.

use vstd::prelude::*;

verus! {

/// Why an operation on a document was refused.
#[derive(Debug, Clone, Copy, PartialEq, Eq, Structural)]
pub enum DocError {
    /// A path could not be brought into its canonical form.
    PathResolution,
    /// A file could not be opened, read or written.
    FileAccess,
    /// An edit addresses a position outside the buffer.
    OffsetOutOfRange,
    /// An edit message carries an operation that is not defined.
    UnknownOperation,
}

impl DocError {
    /// A short description of the failure.
    pub open spec fn message_text(self) -> Seq<char> {
        match self {
            DocError::PathResolution => "path cannot be resolved"@,
            DocError::FileAccess => "file cannot be accessed"@,
            DocError::OffsetOutOfRange => "offset out of range"@,
            DocError::UnknownOperation => "unknown operation"@,
        }
    }

    /// A short description of the failure.
    pub fn message(&self) -> (text: &'static str)
        ensures
            text@ == self.message_text(),
    {
        match self {
            DocError::PathResolution => "path cannot be resolved",
            DocError::FileAccess => "file cannot be accessed",
            DocError::OffsetOutOfRange => "offset out of range",
            DocError::UnknownOperation => "unknown operation",
        }
    }
}

} // verus!
