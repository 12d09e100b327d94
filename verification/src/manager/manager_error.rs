//! What can go wrong in the manager.

use vstd::prelude::*;
use crate::manager::feeds::Feed;

verus! {

/// Failure of a manager operation. The variants that stand for a failed
/// file operation carry its description.
#[derive(Debug)]
pub enum ManagerError {
    /// The index file could not be opened, read, parsed or written.
    IndexFileIO(String),
    /// A data file could not be opened or appended to.
    DataFileIO(String),
    /// The options file could not be opened, read, parsed or written.
    OptionsFileIO(String),
    /// New options name an address id that the index does not have.
    InvalidAddrArgument,
    /// The target has no open data file for the feed.
    FeedUnavailable(Feed),
}

/// The files that a target keeps.
#[derive(Clone, Copy, Debug, PartialEq, Eq, Structural)]
pub enum TargetFile {
    Index,
    Data,
    Options,
}

/// The error that a failed operation on `file` is reported as.
pub open spec fn file_error(file: TargetFile, description: Seq<char>, e: ManagerError) -> bool {
    match file {
        TargetFile::Index => e matches ManagerError::IndexFileIO(d) && d@ == description,
        TargetFile::Data => e matches ManagerError::DataFileIO(d) && d@ == description,
        TargetFile::Options => e matches ManagerError::OptionsFileIO(d) && d@ == description,
    }
}

impl ManagerError {
    /// Reports the failure of an operation on one of the target's files,
    /// whatever the operation was: opening, reading, parsing or writing.
    pub fn io(file: TargetFile, description: String) -> (e: ManagerError)
        ensures
            file_error(file, description@, e),
    {
        match file {
            TargetFile::Index => ManagerError::IndexFileIO(description),
            TargetFile::Data => ManagerError::DataFileIO(description),
            TargetFile::Options => ManagerError::OptionsFileIO(description),
        }
    }
}

} // verus!
