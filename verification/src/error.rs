//! The ways in which an operation can fail.

use vstd::prelude::*;

verus! {

/// Why an operation did not do what was asked.
#[derive(Debug)]
pub enum SyncError {
    /// A path that was named does not exist.
    NotFound,
    /// A path to be tracked does not lie under the home root.
    OutsideHome,
    /// A file could not be opened or read.
    ReadError(String),
    /// A copy, or the creation of a directory for it, failed.
    CopyError(String),
    /// The file to untrack is not in the repository.
    NotTracked,
    /// The tracked file could not be deleted.
    RemovalFailed(String),
    /// The home directory could not be determined.
    HomeUnresolved,
}

/// What an error means, in words of its own for each kind.
pub open spec fn words_of(error: SyncError) -> Seq<char> {
    match error {
        SyncError::NotFound => "file not found"@,
        SyncError::OutsideHome => "file must be inside HOME"@,
        SyncError::ReadError(detail) => "read failed: "@ + detail@,
        SyncError::CopyError(detail) => "copy failed: "@ + detail@,
        SyncError::NotTracked => "not managed"@,
        SyncError::RemovalFailed(detail) => "failed to remove: "@ + detail@,
        SyncError::HomeUnresolved => "HOME not found"@,
    }
}

/// Puts an error into words.
pub fn describe(error: &SyncError) -> (words: String)
    ensures
        words@ == words_of(*error),
{
    match error {
        SyncError::NotFound => "file not found".to_owned(),
        SyncError::OutsideHome => "file must be inside HOME".to_owned(),
        SyncError::ReadError(detail) => {
            let mut words = "read failed: ".to_owned();
            words.append(detail.as_str());
            words
        },
        SyncError::CopyError(detail) => {
            let mut words = "copy failed: ".to_owned();
            words.append(detail.as_str());
            words
        },
        SyncError::NotTracked => "not managed".to_owned(),
        SyncError::RemovalFailed(detail) => {
            let mut words = "failed to remove: ".to_owned();
            words.append(detail.as_str());
            words
        },
        SyncError::HomeUnresolved => "HOME not found".to_owned(),
    }
}

} // verus!
